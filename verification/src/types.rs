//! The fundamental enumerations of MQTT: control packet types, protocol
//! versions, quality of service, property identifiers and reason codes.

use vstd::prelude::*;
use crate::error::{malformed_number, malformed_hex, MqttError};

verus! {

/// MQTT control packet type: the high nibble of the first byte of a packet.
#[derive(Debug, Clone, Copy, PartialEq, Eq, Structural)]
pub enum PacketType {
    Connect,
    Connack,
    Publish,
    Puback,
    Pubrec,
    Pubrel,
    Pubcomp,
    Subscribe,
    Suback,
    Unsubscribe,
    Unsuback,
    Pingreq,
    Pingresp,
    Disconnect,
    Auth,
}

impl PacketType {
    /// The number that stands for this value on the wire.
    pub open spec fn code(self) -> u8 {
        match self {
            PacketType::Connect => 1,
            PacketType::Connack => 2,
            PacketType::Publish => 3,
            PacketType::Puback => 4,
            PacketType::Pubrec => 5,
            PacketType::Pubrel => 6,
            PacketType::Pubcomp => 7,
            PacketType::Subscribe => 8,
            PacketType::Suback => 9,
            PacketType::Unsubscribe => 10,
            PacketType::Unsuback => 11,
            PacketType::Pingreq => 12,
            PacketType::Pingresp => 13,
            PacketType::Disconnect => 14,
            PacketType::Auth => 15,
        }
    }

    /// The value that a number stands for, if there is one.
    pub open spec fn of_code(v: u8) -> Option<PacketType> {
        match v {
            1 => Some(PacketType::Connect),
            2 => Some(PacketType::Connack),
            3 => Some(PacketType::Publish),
            4 => Some(PacketType::Puback),
            5 => Some(PacketType::Pubrec),
            6 => Some(PacketType::Pubrel),
            7 => Some(PacketType::Pubcomp),
            8 => Some(PacketType::Subscribe),
            9 => Some(PacketType::Suback),
            10 => Some(PacketType::Unsubscribe),
            11 => Some(PacketType::Unsuback),
            12 => Some(PacketType::Pingreq),
            13 => Some(PacketType::Pingresp),
            14 => Some(PacketType::Disconnect),
            15 => Some(PacketType::Auth),
            _ => None,
        }
    }

    /// The packet type with the given number; an unassigned number is malformed.
    pub fn from_u8(v: u8) -> (r: Result<Self, MqttError>)
        ensures
            match r {
                Ok(x) => Self::of_code(v) == Some(x),
                Err(e) => Self::of_code(v) is None && e.says_malformed(
                    "invalid packet type "@ + crate::text::decimal(v as nat),
                ),
            },
    {
        Ok(match v {
            1 => PacketType::Connect,
            2 => PacketType::Connack,
            3 => PacketType::Publish,
            4 => PacketType::Puback,
            5 => PacketType::Pubrec,
            6 => PacketType::Pubrel,
            7 => PacketType::Pubcomp,
            8 => PacketType::Subscribe,
            9 => PacketType::Suback,
            10 => PacketType::Unsubscribe,
            11 => PacketType::Unsuback,
            12 => PacketType::Pingreq,
            13 => PacketType::Pingresp,
            14 => PacketType::Disconnect,
            15 => PacketType::Auth,
            _ => {
                return Err(malformed_number("invalid packet type ", v));
            },
        })
    }

    /// The wire number of this value.
    pub fn as_u8(self) -> (r: u8)
        ensures
            r == self.code(),
    {
        match self {
            PacketType::Connect => 1,
            PacketType::Connack => 2,
            PacketType::Publish => 3,
            PacketType::Puback => 4,
            PacketType::Pubrec => 5,
            PacketType::Pubrel => 6,
            PacketType::Pubcomp => 7,
            PacketType::Subscribe => 8,
            PacketType::Suback => 9,
            PacketType::Unsubscribe => 10,
            PacketType::Unsuback => 11,
            PacketType::Pingreq => 12,
            PacketType::Pingresp => 13,
            PacketType::Disconnect => 14,
            PacketType::Auth => 15,
        }
    }
}

/// Reading back the wire number of a value gives that value, and a number that
/// stands for a value is that value's wire number.
pub proof fn packet_type_codes(x: PacketType, v: u8)
    ensures
        PacketType::of_code(x.code()) == Some(x),
        PacketType::of_code(v) == Some(x) ==> x.code() == v,
{
}

/// MQTT protocol version negotiated in CONNECT. The wire "protocol level" is
/// 3 for v3.1 (name "MQIsdp"), 4 for v3.1.1 and 5 for v5.0 (name "MQTT").
#[derive(Debug, Clone, Copy, PartialEq, Eq, Structural)]
pub enum ProtocolVersion {
    V3_1,
    V3_1_1,
    V5,
}

impl ProtocolVersion {
    /// The protocol level of this version.
    pub open spec fn code(self) -> u8 {
        match self {
            ProtocolVersion::V3_1 => 3,
            ProtocolVersion::V3_1_1 => 4,
            ProtocolVersion::V5 => 5,
        }
    }

    /// The version with a protocol level, if there is one.
    pub open spec fn of_code(level: u8) -> Option<ProtocolVersion> {
        match level {
            3 => Some(ProtocolVersion::V3_1),
            4 => Some(ProtocolVersion::V3_1_1),
            5 => Some(ProtocolVersion::V5),
            _ => None,
        }
    }

    pub fn level(self) -> (r: u8)
        ensures
            r == self.code(),
    {
        match self {
            ProtocolVersion::V3_1 => 3,
            ProtocolVersion::V3_1_1 => 4,
            ProtocolVersion::V5 => 5,
        }
    }

    pub fn from_level(level: u8) -> (r: Option<Self>)
        ensures
            r == Self::of_code(level),
    {
        match level {
            3 => Some(ProtocolVersion::V3_1),
            4 => Some(ProtocolVersion::V3_1_1),
            5 => Some(ProtocolVersion::V5),
            _ => None,
        }
    }

    pub fn is_v5(self) -> (r: bool)
        ensures
            r == (self is V5),
    {
        match self {
            ProtocolVersion::V5 => true,
            _ => false,
        }
    }

    /// True when this version carries MQTT v5 properties.
    pub fn has_properties(self) -> (r: bool)
        ensures
            r == (self is V5),
    {
        self.is_v5()
    }
}

/// Reading back the wire number of a value gives that value, and a number that
/// stands for a value is that value's wire number.
pub proof fn protocol_levels(x: ProtocolVersion, v: u8)
    ensures
        ProtocolVersion::of_code(x.code()) == Some(x),
        ProtocolVersion::of_code(v) == Some(x) ==> x.code() == v,
{
}

/// Quality of Service level (2 bits).
#[derive(Debug, Clone, Copy, PartialEq, Eq, PartialOrd, Ord, Structural)]
pub enum QoS {
    AtMostOnce,
    AtLeastOnce,
    ExactlyOnce,
}

impl QoS {
    /// The number that stands for this value on the wire.
    pub open spec fn code(self) -> u8 {
        match self {
            QoS::AtMostOnce => 0,
            QoS::AtLeastOnce => 1,
            QoS::ExactlyOnce => 2,
        }
    }

    /// The value that a number stands for, if there is one.
    pub open spec fn of_code(v: u8) -> Option<QoS> {
        match v {
            0 => Some(QoS::AtMostOnce),
            1 => Some(QoS::AtLeastOnce),
            2 => Some(QoS::ExactlyOnce),
            _ => None,
        }
    }

    /// The level with the given number; 3 is malformed.
    pub fn from_u8(v: u8) -> (r: Result<Self, MqttError>)
        ensures
            match r {
                Ok(x) => Self::of_code(v) == Some(x),
                Err(e) => Self::of_code(v) is None && e.says_malformed(
                    "invalid QoS "@ + crate::text::decimal(v as nat),
                ),
            },
    {
        Ok(match v {
            0 => QoS::AtMostOnce,
            1 => QoS::AtLeastOnce,
            2 => QoS::ExactlyOnce,
            _ => {
                return Err(malformed_number("invalid QoS ", v));
            },
        })
    }

    /// The wire number of this value.
    pub fn as_u8(self) -> (r: u8)
        ensures
            r == self.code(),
    {
        match self {
            QoS::AtMostOnce => 0,
            QoS::AtLeastOnce => 1,
            QoS::ExactlyOnce => 2,
        }
    }

    /// The lower of two levels.
    pub open spec fn lower(self, other: QoS) -> QoS {
        if self.code() <= other.code() {
            self
        } else {
            other
        }
    }

    /// The lower of two QoS levels, used when a message is delivered to a
    /// subscription whose maximum QoS is below the QoS of the publication.
    pub fn min(self, other: QoS) -> (r: QoS)
        ensures
            r == self.lower(other),
    {
        if self.as_u8() <= other.as_u8() {
            self
        } else {
            other
        }
    }
}

/// Reading back the wire number of a value gives that value, and a number that
/// stands for a value is that value's wire number.
pub proof fn qos_codes(x: QoS, v: u8)
    ensures
        QoS::of_code(x.code()) == Some(x),
        QoS::of_code(v) == Some(x) ==> x.code() == v,
{
}

/// Property identifiers.
#[derive(Debug, Clone, Copy, PartialEq, Eq, Structural)]
pub enum PropertyId {
    PayloadFormatIndicator,
    MessageExpiryInterval,
    ContentType,
    ResponseTopic,
    CorrelationData,
    SubscriptionIdentifier,
    SessionExpiryInterval,
    AssignedClientIdentifier,
    ServerKeepAlive,
    AuthenticationMethod,
    AuthenticationData,
    RequestProblemInformation,
    WillDelayInterval,
    RequestResponseInformation,
    ResponseInformation,
    ServerReference,
    ReasonString,
    ReceiveMaximum,
    TopicAliasMaximum,
    TopicAlias,
    MaximumQoS,
    RetainAvailable,
    UserProperty,
    MaximumPacketSize,
    WildcardSubscriptionAvailable,
    SubscriptionIdentifierAvailable,
    SharedSubscriptionAvailable,
}

impl PropertyId {
    /// The number that stands for this value on the wire.
    pub open spec fn code(self) -> u8 {
        match self {
            PropertyId::PayloadFormatIndicator => 0x01,
            PropertyId::MessageExpiryInterval => 0x02,
            PropertyId::ContentType => 0x03,
            PropertyId::ResponseTopic => 0x08,
            PropertyId::CorrelationData => 0x09,
            PropertyId::SubscriptionIdentifier => 0x0B,
            PropertyId::SessionExpiryInterval => 0x11,
            PropertyId::AssignedClientIdentifier => 0x12,
            PropertyId::ServerKeepAlive => 0x13,
            PropertyId::AuthenticationMethod => 0x15,
            PropertyId::AuthenticationData => 0x16,
            PropertyId::RequestProblemInformation => 0x17,
            PropertyId::WillDelayInterval => 0x18,
            PropertyId::RequestResponseInformation => 0x19,
            PropertyId::ResponseInformation => 0x1A,
            PropertyId::ServerReference => 0x1C,
            PropertyId::ReasonString => 0x1F,
            PropertyId::ReceiveMaximum => 0x21,
            PropertyId::TopicAliasMaximum => 0x22,
            PropertyId::TopicAlias => 0x23,
            PropertyId::MaximumQoS => 0x24,
            PropertyId::RetainAvailable => 0x25,
            PropertyId::UserProperty => 0x26,
            PropertyId::MaximumPacketSize => 0x27,
            PropertyId::WildcardSubscriptionAvailable => 0x28,
            PropertyId::SubscriptionIdentifierAvailable => 0x29,
            PropertyId::SharedSubscriptionAvailable => 0x2A,
        }
    }

    /// The value that a number stands for, if there is one.
    pub open spec fn of_code(v: u8) -> Option<PropertyId> {
        match v {
            0x01 => Some(PropertyId::PayloadFormatIndicator),
            0x02 => Some(PropertyId::MessageExpiryInterval),
            0x03 => Some(PropertyId::ContentType),
            0x08 => Some(PropertyId::ResponseTopic),
            0x09 => Some(PropertyId::CorrelationData),
            0x0B => Some(PropertyId::SubscriptionIdentifier),
            0x11 => Some(PropertyId::SessionExpiryInterval),
            0x12 => Some(PropertyId::AssignedClientIdentifier),
            0x13 => Some(PropertyId::ServerKeepAlive),
            0x15 => Some(PropertyId::AuthenticationMethod),
            0x16 => Some(PropertyId::AuthenticationData),
            0x17 => Some(PropertyId::RequestProblemInformation),
            0x18 => Some(PropertyId::WillDelayInterval),
            0x19 => Some(PropertyId::RequestResponseInformation),
            0x1A => Some(PropertyId::ResponseInformation),
            0x1C => Some(PropertyId::ServerReference),
            0x1F => Some(PropertyId::ReasonString),
            0x21 => Some(PropertyId::ReceiveMaximum),
            0x22 => Some(PropertyId::TopicAliasMaximum),
            0x23 => Some(PropertyId::TopicAlias),
            0x24 => Some(PropertyId::MaximumQoS),
            0x25 => Some(PropertyId::RetainAvailable),
            0x26 => Some(PropertyId::UserProperty),
            0x27 => Some(PropertyId::MaximumPacketSize),
            0x28 => Some(PropertyId::WildcardSubscriptionAvailable),
            0x29 => Some(PropertyId::SubscriptionIdentifierAvailable),
            0x2A => Some(PropertyId::SharedSubscriptionAvailable),
            _ => None,
        }
    }

    /// The property with the given identifier byte; an unassigned one is malformed.
    pub fn from_u8(v: u8) -> (r: Result<Self, MqttError>)
        ensures
            match r {
                Ok(x) => Self::of_code(v) == Some(x),
                Err(e) => Self::of_code(v) is None && e.says_malformed(
                    "unknown property identifier 0x"@ + crate::text::hex_byte_upper(v),
                ),
            },
    {
        Ok(match v {
            0x01 => PropertyId::PayloadFormatIndicator,
            0x02 => PropertyId::MessageExpiryInterval,
            0x03 => PropertyId::ContentType,
            0x08 => PropertyId::ResponseTopic,
            0x09 => PropertyId::CorrelationData,
            0x0B => PropertyId::SubscriptionIdentifier,
            0x11 => PropertyId::SessionExpiryInterval,
            0x12 => PropertyId::AssignedClientIdentifier,
            0x13 => PropertyId::ServerKeepAlive,
            0x15 => PropertyId::AuthenticationMethod,
            0x16 => PropertyId::AuthenticationData,
            0x17 => PropertyId::RequestProblemInformation,
            0x18 => PropertyId::WillDelayInterval,
            0x19 => PropertyId::RequestResponseInformation,
            0x1A => PropertyId::ResponseInformation,
            0x1C => PropertyId::ServerReference,
            0x1F => PropertyId::ReasonString,
            0x21 => PropertyId::ReceiveMaximum,
            0x22 => PropertyId::TopicAliasMaximum,
            0x23 => PropertyId::TopicAlias,
            0x24 => PropertyId::MaximumQoS,
            0x25 => PropertyId::RetainAvailable,
            0x26 => PropertyId::UserProperty,
            0x27 => PropertyId::MaximumPacketSize,
            0x28 => PropertyId::WildcardSubscriptionAvailable,
            0x29 => PropertyId::SubscriptionIdentifierAvailable,
            0x2A => PropertyId::SharedSubscriptionAvailable,
            _ => {
                return Err(malformed_hex("unknown property identifier 0x", v));
            },
        })
    }

    /// The wire number of this value.
    pub fn as_u8(self) -> (r: u8)
        ensures
            r == self.code(),
    {
        match self {
            PropertyId::PayloadFormatIndicator => 0x01,
            PropertyId::MessageExpiryInterval => 0x02,
            PropertyId::ContentType => 0x03,
            PropertyId::ResponseTopic => 0x08,
            PropertyId::CorrelationData => 0x09,
            PropertyId::SubscriptionIdentifier => 0x0B,
            PropertyId::SessionExpiryInterval => 0x11,
            PropertyId::AssignedClientIdentifier => 0x12,
            PropertyId::ServerKeepAlive => 0x13,
            PropertyId::AuthenticationMethod => 0x15,
            PropertyId::AuthenticationData => 0x16,
            PropertyId::RequestProblemInformation => 0x17,
            PropertyId::WillDelayInterval => 0x18,
            PropertyId::RequestResponseInformation => 0x19,
            PropertyId::ResponseInformation => 0x1A,
            PropertyId::ServerReference => 0x1C,
            PropertyId::ReasonString => 0x1F,
            PropertyId::ReceiveMaximum => 0x21,
            PropertyId::TopicAliasMaximum => 0x22,
            PropertyId::TopicAlias => 0x23,
            PropertyId::MaximumQoS => 0x24,
            PropertyId::RetainAvailable => 0x25,
            PropertyId::UserProperty => 0x26,
            PropertyId::MaximumPacketSize => 0x27,
            PropertyId::WildcardSubscriptionAvailable => 0x28,
            PropertyId::SubscriptionIdentifierAvailable => 0x29,
            PropertyId::SharedSubscriptionAvailable => 0x2A,
        }
    }

    /// The name of this value, for messages.
    pub open spec fn label(self) -> Seq<char> {
        match self {
            PropertyId::PayloadFormatIndicator => "PayloadFormatIndicator"@,
            PropertyId::MessageExpiryInterval => "MessageExpiryInterval"@,
            PropertyId::ContentType => "ContentType"@,
            PropertyId::ResponseTopic => "ResponseTopic"@,
            PropertyId::CorrelationData => "CorrelationData"@,
            PropertyId::SubscriptionIdentifier => "SubscriptionIdentifier"@,
            PropertyId::SessionExpiryInterval => "SessionExpiryInterval"@,
            PropertyId::AssignedClientIdentifier => "AssignedClientIdentifier"@,
            PropertyId::ServerKeepAlive => "ServerKeepAlive"@,
            PropertyId::AuthenticationMethod => "AuthenticationMethod"@,
            PropertyId::AuthenticationData => "AuthenticationData"@,
            PropertyId::RequestProblemInformation => "RequestProblemInformation"@,
            PropertyId::WillDelayInterval => "WillDelayInterval"@,
            PropertyId::RequestResponseInformation => "RequestResponseInformation"@,
            PropertyId::ResponseInformation => "ResponseInformation"@,
            PropertyId::ServerReference => "ServerReference"@,
            PropertyId::ReasonString => "ReasonString"@,
            PropertyId::ReceiveMaximum => "ReceiveMaximum"@,
            PropertyId::TopicAliasMaximum => "TopicAliasMaximum"@,
            PropertyId::TopicAlias => "TopicAlias"@,
            PropertyId::MaximumQoS => "MaximumQoS"@,
            PropertyId::RetainAvailable => "RetainAvailable"@,
            PropertyId::UserProperty => "UserProperty"@,
            PropertyId::MaximumPacketSize => "MaximumPacketSize"@,
            PropertyId::WildcardSubscriptionAvailable => "WildcardSubscriptionAvailable"@,
            PropertyId::SubscriptionIdentifierAvailable => "SubscriptionIdentifierAvailable"@,
            PropertyId::SharedSubscriptionAvailable => "SharedSubscriptionAvailable"@,
        }
    }

    /// The name of this value, for messages.
    pub fn name(self) -> (r: &'static str)
        ensures
            r@ == self.label(),
    {
        match self {
            PropertyId::PayloadFormatIndicator => "PayloadFormatIndicator",
            PropertyId::MessageExpiryInterval => "MessageExpiryInterval",
            PropertyId::ContentType => "ContentType",
            PropertyId::ResponseTopic => "ResponseTopic",
            PropertyId::CorrelationData => "CorrelationData",
            PropertyId::SubscriptionIdentifier => "SubscriptionIdentifier",
            PropertyId::SessionExpiryInterval => "SessionExpiryInterval",
            PropertyId::AssignedClientIdentifier => "AssignedClientIdentifier",
            PropertyId::ServerKeepAlive => "ServerKeepAlive",
            PropertyId::AuthenticationMethod => "AuthenticationMethod",
            PropertyId::AuthenticationData => "AuthenticationData",
            PropertyId::RequestProblemInformation => "RequestProblemInformation",
            PropertyId::WillDelayInterval => "WillDelayInterval",
            PropertyId::RequestResponseInformation => "RequestResponseInformation",
            PropertyId::ResponseInformation => "ResponseInformation",
            PropertyId::ServerReference => "ServerReference",
            PropertyId::ReasonString => "ReasonString",
            PropertyId::ReceiveMaximum => "ReceiveMaximum",
            PropertyId::TopicAliasMaximum => "TopicAliasMaximum",
            PropertyId::TopicAlias => "TopicAlias",
            PropertyId::MaximumQoS => "MaximumQoS",
            PropertyId::RetainAvailable => "RetainAvailable",
            PropertyId::UserProperty => "UserProperty",
            PropertyId::MaximumPacketSize => "MaximumPacketSize",
            PropertyId::WildcardSubscriptionAvailable => "WildcardSubscriptionAvailable",
            PropertyId::SubscriptionIdentifierAvailable => "SubscriptionIdentifierAvailable",
            PropertyId::SharedSubscriptionAvailable => "SharedSubscriptionAvailable",
        }
    }
}

/// Reading back the wire number of a value gives that value, and a number that
/// stands for a value is that value's wire number.
pub proof fn property_codes(x: PropertyId, v: u8)
    ensures
        PropertyId::of_code(x.code()) == Some(x),
        PropertyId::of_code(v) == Some(x) ==> x.code() == v,
{
}

/// Reason codes: a single byte; values from 0x80 up are failures. The same
/// number can carry a different meaning in another packet, so this is a flat
/// catalogue of every code that is sent or accepted.
#[derive(Debug, Clone, Copy, PartialEq, Eq, Structural)]
pub enum ReasonCode {
    /// Also: normal disconnection, and granted QoS 0.
    Success,
    GrantedQoS1,
    GrantedQoS2,
    DisconnectWithWillMessage,
    NoMatchingSubscribers,
    NoSubscriptionExisted,
    ContinueAuthentication,
    ReAuthenticate,
    UnspecifiedError,
    MalformedPacket,
    ProtocolError,
    ImplementationSpecificError,
    UnsupportedProtocolVersion,
    ClientIdentifierNotValid,
    BadUserNameOrPassword,
    NotAuthorized,
    ServerUnavailable,
    ServerBusy,
    Banned,
    ServerShuttingDown,
    BadAuthenticationMethod,
    KeepAliveTimeout,
    SessionTakenOver,
    TopicFilterInvalid,
    TopicNameInvalid,
    PacketIdentifierInUse,
    PacketIdentifierNotFound,
    ReceiveMaximumExceeded,
    TopicAliasInvalid,
    PacketTooLarge,
    MessageRateTooHigh,
    QuotaExceeded,
    AdministrativeAction,
    PayloadFormatInvalid,
    RetainNotSupported,
    QoSNotSupported,
    UseAnotherServer,
    ServerMoved,
    SharedSubscriptionsNotSupported,
    ConnectionRateExceeded,
    MaximumConnectTime,
    SubscriptionIdentifiersNotSupported,
    WildcardSubscriptionsNotSupported,
}

impl ReasonCode {
    /// The number that stands for this value on the wire.
    pub open spec fn code(self) -> u8 {
        match self {
            ReasonCode::Success => 0x00,
            ReasonCode::GrantedQoS1 => 0x01,
            ReasonCode::GrantedQoS2 => 0x02,
            ReasonCode::DisconnectWithWillMessage => 0x04,
            ReasonCode::NoMatchingSubscribers => 0x10,
            ReasonCode::NoSubscriptionExisted => 0x11,
            ReasonCode::ContinueAuthentication => 0x18,
            ReasonCode::ReAuthenticate => 0x19,
            ReasonCode::UnspecifiedError => 0x80,
            ReasonCode::MalformedPacket => 0x81,
            ReasonCode::ProtocolError => 0x82,
            ReasonCode::ImplementationSpecificError => 0x83,
            ReasonCode::UnsupportedProtocolVersion => 0x84,
            ReasonCode::ClientIdentifierNotValid => 0x85,
            ReasonCode::BadUserNameOrPassword => 0x86,
            ReasonCode::NotAuthorized => 0x87,
            ReasonCode::ServerUnavailable => 0x88,
            ReasonCode::ServerBusy => 0x89,
            ReasonCode::Banned => 0x8A,
            ReasonCode::ServerShuttingDown => 0x8B,
            ReasonCode::BadAuthenticationMethod => 0x8C,
            ReasonCode::KeepAliveTimeout => 0x8D,
            ReasonCode::SessionTakenOver => 0x8E,
            ReasonCode::TopicFilterInvalid => 0x8F,
            ReasonCode::TopicNameInvalid => 0x90,
            ReasonCode::PacketIdentifierInUse => 0x91,
            ReasonCode::PacketIdentifierNotFound => 0x92,
            ReasonCode::ReceiveMaximumExceeded => 0x93,
            ReasonCode::TopicAliasInvalid => 0x94,
            ReasonCode::PacketTooLarge => 0x95,
            ReasonCode::MessageRateTooHigh => 0x96,
            ReasonCode::QuotaExceeded => 0x97,
            ReasonCode::AdministrativeAction => 0x98,
            ReasonCode::PayloadFormatInvalid => 0x99,
            ReasonCode::RetainNotSupported => 0x9A,
            ReasonCode::QoSNotSupported => 0x9B,
            ReasonCode::UseAnotherServer => 0x9C,
            ReasonCode::ServerMoved => 0x9D,
            ReasonCode::SharedSubscriptionsNotSupported => 0x9E,
            ReasonCode::ConnectionRateExceeded => 0x9F,
            ReasonCode::MaximumConnectTime => 0xA0,
            ReasonCode::SubscriptionIdentifiersNotSupported => 0xA1,
            ReasonCode::WildcardSubscriptionsNotSupported => 0xA2,
        }
    }

    /// The value that a number stands for, if there is one.
    pub open spec fn of_code(v: u8) -> Option<ReasonCode> {
        match v {
            0x00 => Some(ReasonCode::Success),
            0x01 => Some(ReasonCode::GrantedQoS1),
            0x02 => Some(ReasonCode::GrantedQoS2),
            0x04 => Some(ReasonCode::DisconnectWithWillMessage),
            0x10 => Some(ReasonCode::NoMatchingSubscribers),
            0x11 => Some(ReasonCode::NoSubscriptionExisted),
            0x18 => Some(ReasonCode::ContinueAuthentication),
            0x19 => Some(ReasonCode::ReAuthenticate),
            0x80 => Some(ReasonCode::UnspecifiedError),
            0x81 => Some(ReasonCode::MalformedPacket),
            0x82 => Some(ReasonCode::ProtocolError),
            0x83 => Some(ReasonCode::ImplementationSpecificError),
            0x84 => Some(ReasonCode::UnsupportedProtocolVersion),
            0x85 => Some(ReasonCode::ClientIdentifierNotValid),
            0x86 => Some(ReasonCode::BadUserNameOrPassword),
            0x87 => Some(ReasonCode::NotAuthorized),
            0x88 => Some(ReasonCode::ServerUnavailable),
            0x89 => Some(ReasonCode::ServerBusy),
            0x8A => Some(ReasonCode::Banned),
            0x8B => Some(ReasonCode::ServerShuttingDown),
            0x8C => Some(ReasonCode::BadAuthenticationMethod),
            0x8D => Some(ReasonCode::KeepAliveTimeout),
            0x8E => Some(ReasonCode::SessionTakenOver),
            0x8F => Some(ReasonCode::TopicFilterInvalid),
            0x90 => Some(ReasonCode::TopicNameInvalid),
            0x91 => Some(ReasonCode::PacketIdentifierInUse),
            0x92 => Some(ReasonCode::PacketIdentifierNotFound),
            0x93 => Some(ReasonCode::ReceiveMaximumExceeded),
            0x94 => Some(ReasonCode::TopicAliasInvalid),
            0x95 => Some(ReasonCode::PacketTooLarge),
            0x96 => Some(ReasonCode::MessageRateTooHigh),
            0x97 => Some(ReasonCode::QuotaExceeded),
            0x98 => Some(ReasonCode::AdministrativeAction),
            0x99 => Some(ReasonCode::PayloadFormatInvalid),
            0x9A => Some(ReasonCode::RetainNotSupported),
            0x9B => Some(ReasonCode::QoSNotSupported),
            0x9C => Some(ReasonCode::UseAnotherServer),
            0x9D => Some(ReasonCode::ServerMoved),
            0x9E => Some(ReasonCode::SharedSubscriptionsNotSupported),
            0x9F => Some(ReasonCode::ConnectionRateExceeded),
            0xA0 => Some(ReasonCode::MaximumConnectTime),
            0xA1 => Some(ReasonCode::SubscriptionIdentifiersNotSupported),
            0xA2 => Some(ReasonCode::WildcardSubscriptionsNotSupported),
            _ => None,
        }
    }

    /// The reason code with the given number; an unassigned one is malformed.
    pub fn from_u8(v: u8) -> (r: Result<Self, MqttError>)
        ensures
            match r {
                Ok(x) => Self::of_code(v) == Some(x),
                Err(e) => Self::of_code(v) is None && e.says_malformed(
                    "unknown reason code 0x"@ + crate::text::hex_byte_upper(v),
                ),
            },
    {
        Ok(match v {
            0x00 => ReasonCode::Success,
            0x01 => ReasonCode::GrantedQoS1,
            0x02 => ReasonCode::GrantedQoS2,
            0x04 => ReasonCode::DisconnectWithWillMessage,
            0x10 => ReasonCode::NoMatchingSubscribers,
            0x11 => ReasonCode::NoSubscriptionExisted,
            0x18 => ReasonCode::ContinueAuthentication,
            0x19 => ReasonCode::ReAuthenticate,
            0x80 => ReasonCode::UnspecifiedError,
            0x81 => ReasonCode::MalformedPacket,
            0x82 => ReasonCode::ProtocolError,
            0x83 => ReasonCode::ImplementationSpecificError,
            0x84 => ReasonCode::UnsupportedProtocolVersion,
            0x85 => ReasonCode::ClientIdentifierNotValid,
            0x86 => ReasonCode::BadUserNameOrPassword,
            0x87 => ReasonCode::NotAuthorized,
            0x88 => ReasonCode::ServerUnavailable,
            0x89 => ReasonCode::ServerBusy,
            0x8A => ReasonCode::Banned,
            0x8B => ReasonCode::ServerShuttingDown,
            0x8C => ReasonCode::BadAuthenticationMethod,
            0x8D => ReasonCode::KeepAliveTimeout,
            0x8E => ReasonCode::SessionTakenOver,
            0x8F => ReasonCode::TopicFilterInvalid,
            0x90 => ReasonCode::TopicNameInvalid,
            0x91 => ReasonCode::PacketIdentifierInUse,
            0x92 => ReasonCode::PacketIdentifierNotFound,
            0x93 => ReasonCode::ReceiveMaximumExceeded,
            0x94 => ReasonCode::TopicAliasInvalid,
            0x95 => ReasonCode::PacketTooLarge,
            0x96 => ReasonCode::MessageRateTooHigh,
            0x97 => ReasonCode::QuotaExceeded,
            0x98 => ReasonCode::AdministrativeAction,
            0x99 => ReasonCode::PayloadFormatInvalid,
            0x9A => ReasonCode::RetainNotSupported,
            0x9B => ReasonCode::QoSNotSupported,
            0x9C => ReasonCode::UseAnotherServer,
            0x9D => ReasonCode::ServerMoved,
            0x9E => ReasonCode::SharedSubscriptionsNotSupported,
            0x9F => ReasonCode::ConnectionRateExceeded,
            0xA0 => ReasonCode::MaximumConnectTime,
            0xA1 => ReasonCode::SubscriptionIdentifiersNotSupported,
            0xA2 => ReasonCode::WildcardSubscriptionsNotSupported,
            _ => {
                return Err(malformed_hex("unknown reason code 0x", v));
            },
        })
    }

    /// The wire number of this value.
    pub fn as_u8(self) -> (r: u8)
        ensures
            r == self.code(),
    {
        match self {
            ReasonCode::Success => 0x00,
            ReasonCode::GrantedQoS1 => 0x01,
            ReasonCode::GrantedQoS2 => 0x02,
            ReasonCode::DisconnectWithWillMessage => 0x04,
            ReasonCode::NoMatchingSubscribers => 0x10,
            ReasonCode::NoSubscriptionExisted => 0x11,
            ReasonCode::ContinueAuthentication => 0x18,
            ReasonCode::ReAuthenticate => 0x19,
            ReasonCode::UnspecifiedError => 0x80,
            ReasonCode::MalformedPacket => 0x81,
            ReasonCode::ProtocolError => 0x82,
            ReasonCode::ImplementationSpecificError => 0x83,
            ReasonCode::UnsupportedProtocolVersion => 0x84,
            ReasonCode::ClientIdentifierNotValid => 0x85,
            ReasonCode::BadUserNameOrPassword => 0x86,
            ReasonCode::NotAuthorized => 0x87,
            ReasonCode::ServerUnavailable => 0x88,
            ReasonCode::ServerBusy => 0x89,
            ReasonCode::Banned => 0x8A,
            ReasonCode::ServerShuttingDown => 0x8B,
            ReasonCode::BadAuthenticationMethod => 0x8C,
            ReasonCode::KeepAliveTimeout => 0x8D,
            ReasonCode::SessionTakenOver => 0x8E,
            ReasonCode::TopicFilterInvalid => 0x8F,
            ReasonCode::TopicNameInvalid => 0x90,
            ReasonCode::PacketIdentifierInUse => 0x91,
            ReasonCode::PacketIdentifierNotFound => 0x92,
            ReasonCode::ReceiveMaximumExceeded => 0x93,
            ReasonCode::TopicAliasInvalid => 0x94,
            ReasonCode::PacketTooLarge => 0x95,
            ReasonCode::MessageRateTooHigh => 0x96,
            ReasonCode::QuotaExceeded => 0x97,
            ReasonCode::AdministrativeAction => 0x98,
            ReasonCode::PayloadFormatInvalid => 0x99,
            ReasonCode::RetainNotSupported => 0x9A,
            ReasonCode::QoSNotSupported => 0x9B,
            ReasonCode::UseAnotherServer => 0x9C,
            ReasonCode::ServerMoved => 0x9D,
            ReasonCode::SharedSubscriptionsNotSupported => 0x9E,
            ReasonCode::ConnectionRateExceeded => 0x9F,
            ReasonCode::MaximumConnectTime => 0xA0,
            ReasonCode::SubscriptionIdentifiersNotSupported => 0xA1,
            ReasonCode::WildcardSubscriptionsNotSupported => 0xA2,
        }
    }

    /// The name of this value, for messages.
    pub open spec fn label(self) -> Seq<char> {
        match self {
            ReasonCode::Success => "Success"@,
            ReasonCode::GrantedQoS1 => "GrantedQoS1"@,
            ReasonCode::GrantedQoS2 => "GrantedQoS2"@,
            ReasonCode::DisconnectWithWillMessage => "DisconnectWithWillMessage"@,
            ReasonCode::NoMatchingSubscribers => "NoMatchingSubscribers"@,
            ReasonCode::NoSubscriptionExisted => "NoSubscriptionExisted"@,
            ReasonCode::ContinueAuthentication => "ContinueAuthentication"@,
            ReasonCode::ReAuthenticate => "ReAuthenticate"@,
            ReasonCode::UnspecifiedError => "UnspecifiedError"@,
            ReasonCode::MalformedPacket => "MalformedPacket"@,
            ReasonCode::ProtocolError => "ProtocolError"@,
            ReasonCode::ImplementationSpecificError => "ImplementationSpecificError"@,
            ReasonCode::UnsupportedProtocolVersion => "UnsupportedProtocolVersion"@,
            ReasonCode::ClientIdentifierNotValid => "ClientIdentifierNotValid"@,
            ReasonCode::BadUserNameOrPassword => "BadUserNameOrPassword"@,
            ReasonCode::NotAuthorized => "NotAuthorized"@,
            ReasonCode::ServerUnavailable => "ServerUnavailable"@,
            ReasonCode::ServerBusy => "ServerBusy"@,
            ReasonCode::Banned => "Banned"@,
            ReasonCode::ServerShuttingDown => "ServerShuttingDown"@,
            ReasonCode::BadAuthenticationMethod => "BadAuthenticationMethod"@,
            ReasonCode::KeepAliveTimeout => "KeepAliveTimeout"@,
            ReasonCode::SessionTakenOver => "SessionTakenOver"@,
            ReasonCode::TopicFilterInvalid => "TopicFilterInvalid"@,
            ReasonCode::TopicNameInvalid => "TopicNameInvalid"@,
            ReasonCode::PacketIdentifierInUse => "PacketIdentifierInUse"@,
            ReasonCode::PacketIdentifierNotFound => "PacketIdentifierNotFound"@,
            ReasonCode::ReceiveMaximumExceeded => "ReceiveMaximumExceeded"@,
            ReasonCode::TopicAliasInvalid => "TopicAliasInvalid"@,
            ReasonCode::PacketTooLarge => "PacketTooLarge"@,
            ReasonCode::MessageRateTooHigh => "MessageRateTooHigh"@,
            ReasonCode::QuotaExceeded => "QuotaExceeded"@,
            ReasonCode::AdministrativeAction => "AdministrativeAction"@,
            ReasonCode::PayloadFormatInvalid => "PayloadFormatInvalid"@,
            ReasonCode::RetainNotSupported => "RetainNotSupported"@,
            ReasonCode::QoSNotSupported => "QoSNotSupported"@,
            ReasonCode::UseAnotherServer => "UseAnotherServer"@,
            ReasonCode::ServerMoved => "ServerMoved"@,
            ReasonCode::SharedSubscriptionsNotSupported => "SharedSubscriptionsNotSupported"@,
            ReasonCode::ConnectionRateExceeded => "ConnectionRateExceeded"@,
            ReasonCode::MaximumConnectTime => "MaximumConnectTime"@,
            ReasonCode::SubscriptionIdentifiersNotSupported => "SubscriptionIdentifiersNotSupported"@,
            ReasonCode::WildcardSubscriptionsNotSupported => "WildcardSubscriptionsNotSupported"@,
        }
    }

    /// The name of this value, for messages.
    pub fn name(self) -> (r: &'static str)
        ensures
            r@ == self.label(),
    {
        match self {
            ReasonCode::Success => "Success",
            ReasonCode::GrantedQoS1 => "GrantedQoS1",
            ReasonCode::GrantedQoS2 => "GrantedQoS2",
            ReasonCode::DisconnectWithWillMessage => "DisconnectWithWillMessage",
            ReasonCode::NoMatchingSubscribers => "NoMatchingSubscribers",
            ReasonCode::NoSubscriptionExisted => "NoSubscriptionExisted",
            ReasonCode::ContinueAuthentication => "ContinueAuthentication",
            ReasonCode::ReAuthenticate => "ReAuthenticate",
            ReasonCode::UnspecifiedError => "UnspecifiedError",
            ReasonCode::MalformedPacket => "MalformedPacket",
            ReasonCode::ProtocolError => "ProtocolError",
            ReasonCode::ImplementationSpecificError => "ImplementationSpecificError",
            ReasonCode::UnsupportedProtocolVersion => "UnsupportedProtocolVersion",
            ReasonCode::ClientIdentifierNotValid => "ClientIdentifierNotValid",
            ReasonCode::BadUserNameOrPassword => "BadUserNameOrPassword",
            ReasonCode::NotAuthorized => "NotAuthorized",
            ReasonCode::ServerUnavailable => "ServerUnavailable",
            ReasonCode::ServerBusy => "ServerBusy",
            ReasonCode::Banned => "Banned",
            ReasonCode::ServerShuttingDown => "ServerShuttingDown",
            ReasonCode::BadAuthenticationMethod => "BadAuthenticationMethod",
            ReasonCode::KeepAliveTimeout => "KeepAliveTimeout",
            ReasonCode::SessionTakenOver => "SessionTakenOver",
            ReasonCode::TopicFilterInvalid => "TopicFilterInvalid",
            ReasonCode::TopicNameInvalid => "TopicNameInvalid",
            ReasonCode::PacketIdentifierInUse => "PacketIdentifierInUse",
            ReasonCode::PacketIdentifierNotFound => "PacketIdentifierNotFound",
            ReasonCode::ReceiveMaximumExceeded => "ReceiveMaximumExceeded",
            ReasonCode::TopicAliasInvalid => "TopicAliasInvalid",
            ReasonCode::PacketTooLarge => "PacketTooLarge",
            ReasonCode::MessageRateTooHigh => "MessageRateTooHigh",
            ReasonCode::QuotaExceeded => "QuotaExceeded",
            ReasonCode::AdministrativeAction => "AdministrativeAction",
            ReasonCode::PayloadFormatInvalid => "PayloadFormatInvalid",
            ReasonCode::RetainNotSupported => "RetainNotSupported",
            ReasonCode::QoSNotSupported => "QoSNotSupported",
            ReasonCode::UseAnotherServer => "UseAnotherServer",
            ReasonCode::ServerMoved => "ServerMoved",
            ReasonCode::SharedSubscriptionsNotSupported => "SharedSubscriptionsNotSupported",
            ReasonCode::ConnectionRateExceeded => "ConnectionRateExceeded",
            ReasonCode::MaximumConnectTime => "MaximumConnectTime",
            ReasonCode::SubscriptionIdentifiersNotSupported => "SubscriptionIdentifiersNotSupported",
            ReasonCode::WildcardSubscriptionsNotSupported => "WildcardSubscriptionsNotSupported",
        }
    }

    /// True for codes from 0x80 up, which are errors.
    pub fn is_error(self) -> (r: bool)
        ensures
            r == (self.code() >= 0x80),
    {
        self.as_u8() >= 0x80
    }
}

/// Reading back the wire number of a value gives that value, and a number that
/// stands for a value is that value's wire number.
pub proof fn reason_codes(x: ReasonCode, v: u8)
    ensures
        ReasonCode::of_code(x.code()) == Some(x),
        ReasonCode::of_code(v) == Some(x) ==> x.code() == v,
{
}

/// The lower of two levels is one of them, and no higher than either.
pub proof fn lower_level_is_one_of_two(x: QoS, y: QoS)
    ensures
        x.lower(y) == x || x.lower(y) == y,
        x.lower(y).code() <= x.code(),
        x.lower(y).code() <= y.code(),
{
}

} // verus!
