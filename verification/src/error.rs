//! Error types of the broker.
//!
//! `MqttError` tells protocol-level failures (which map to an MQTT reason code
//! and usually end the connection) from transport, storage and startup
//! failures.

use vstd::prelude::*;
use vstd::string::StringExecFns;
use crate::text::{concat, concat3, push_decimal};
use crate::types::ReasonCode;

verus! {

/// Result alias used throughout the crate.
pub type Result<T> = core::result::Result<T, MqttError>;

#[derive(Debug)]
pub enum MqttError {
    /// The bytes on the wire could not be decoded.
    Malformed(String),
    /// The packet decoded but breaks a rule of the protocol.
    Protocol(String),
    /// A protocol violation with the reason code to return to the peer before
    /// the connection is closed.
    Reason(ReasonCode, String),
    /// Transport error, described.
    Io(String),
    /// Storage error, described.
    Storage(String),
    /// Configuration or startup error, described.
    Config(String),
}

impl MqttError {
    /// Whether this is a malformed-packet error with a message.
    pub open spec fn says_malformed(self, what: Seq<char>) -> bool {
        self matches MqttError::Malformed(m) && m@ == what
    }

    /// Whether this is a protocol error with a message.
    pub open spec fn says_protocol(self, what: Seq<char>) -> bool {
        self matches MqttError::Protocol(m) && m@ == what
    }

    /// Whether this is a configuration error with a message.
    pub open spec fn says_config(self, what: Seq<char>) -> bool {
        self matches MqttError::Config(m) && m@ == what
    }

    /// Whether this is the error of a number that is too large for its bytes.
    pub open spec fn is_overflow(self) -> bool {
        self.says_protocol("variable byte integer overflow"@)
    }

    /// The reason code that describes this error.
    pub open spec fn reason(self) -> ReasonCode {
        match self {
            MqttError::Malformed(_) => ReasonCode::MalformedPacket,
            MqttError::Protocol(_) => ReasonCode::ProtocolError,
            MqttError::Reason(rc, _) => rc,
            MqttError::Io(_) => ReasonCode::UnspecifiedError,
            MqttError::Storage(_) => ReasonCode::ImplementationSpecificError,
            MqttError::Config(_) => ReasonCode::UnspecifiedError,
        }
    }

    /// The reason code that best describes this error, for a CONNACK or
    /// DISCONNECT packet.
    pub fn reason_code(&self) -> (r: ReasonCode)
        ensures
            r == self.reason(),
    {
        match self {
            MqttError::Malformed(_) => ReasonCode::MalformedPacket,
            MqttError::Protocol(_) => ReasonCode::ProtocolError,
            MqttError::Reason(rc, _) => *rc,
            MqttError::Io(_) => ReasonCode::UnspecifiedError,
            MqttError::Storage(_) => ReasonCode::ImplementationSpecificError,
            MqttError::Config(_) => ReasonCode::UnspecifiedError,
        }
    }

    /// What the error is and what it is about, in words.
    pub fn message(&self) -> (r: String)
        ensures
            r@ == (match *self {
                MqttError::Malformed(m) => "malformed packet: "@ + m@,
                MqttError::Protocol(m) => "protocol error: "@ + m@,
                MqttError::Reason(rc, m) => "protocol error ("@ + rc.label() + "): "@ + m@,
                MqttError::Io(m) => "io error: "@ + m@,
                MqttError::Storage(m) => "storage error: "@ + m@,
                MqttError::Config(m) => "config error: "@ + m@,
            }),
    {
        match self {
            MqttError::Malformed(m) => concat("malformed packet: ", m.as_str()),
            MqttError::Protocol(m) => concat("protocol error: ", m.as_str()),
            MqttError::Reason(rc, m) => {
                let head: String = concat3("protocol error (", rc.name(), "): ");
                concat(head.as_str(), m.as_str())
            },
            MqttError::Io(m) => concat("io error: ", m.as_str()),
            MqttError::Storage(m) => concat("storage error: ", m.as_str()),
            MqttError::Config(m) => concat("config error: ", m.as_str()),
        }
    }
}

/// A malformed-packet error with the given message.
pub fn malformed(msg: &str) -> (r: MqttError)
    ensures
        r matches MqttError::Malformed(m) && m@ == msg@,
{
    MqttError::Malformed(msg.to_owned())
}

/// A protocol error with the given message.
pub fn protocol(msg: &str) -> (r: MqttError)
    ensures
        r matches MqttError::Protocol(m) && m@ == msg@,
{
    MqttError::Protocol(msg.to_owned())
}

/// A malformed-packet error that names a number.
pub fn malformed_number(msg: &str, n: u8) -> (r: MqttError)
    ensures
        r matches MqttError::Malformed(m) && m@ == msg@ + crate::text::decimal(n as nat),
{
    let mut s: String = msg.to_owned();
    push_decimal(&mut s, n as u64);
    MqttError::Malformed(s)
}

/// A malformed-packet error that names a byte in hexadecimal.
pub fn malformed_hex(msg: &str, n: u8) -> (r: MqttError)
    ensures
        r matches MqttError::Malformed(m) && m@ == msg@ + crate::text::hex_byte_upper(n),
{
    let mut s: String = msg.to_owned();
    crate::text::push_hex_upper(&mut s, n);
    MqttError::Malformed(s)
}

/// What cannot be read is told as malformed, a breach of the protocol as such,
/// and a reason that is given as it is; none of them is told as a success unless
/// it was given so.
pub proof fn errors_are_told_as_errors(e: MqttError)
    ensures
        e is Malformed ==> e.reason().code() == 0x81,
        e is Protocol ==> e.reason().code() == 0x82,
        e is Io || e is Config ==> e.reason().code() == 0x80,
        e is Storage ==> e.reason().code() == 0x83,
        e matches MqttError::Reason(rc, _) ==> e.reason() == rc,
{
}

} // verus!
