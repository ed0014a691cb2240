//! CONNECT and CONNACK.

use vstd::prelude::*;
use crate::codec::{wire, Properties, PropertiesView, Reader, Writer};
use crate::error::{malformed, MqttError, Result};
use crate::text::{decimal_string, str_eq};
use crate::types::{ProtocolVersion, QoS, ReasonCode};

verus! {

broadcast use wire::group_tail;

/// Whether the bit of the given weight is set in a byte.
#[verifier::opaque]
pub open spec fn has_bit(b: u8, weight: u8) -> bool {
    (b / weight) % 2 == 1
}

/// Whether the bit of the given weight is set in a byte.
pub(crate) fn bit(b: u8, weight: u8) -> (r: bool)
    requires
        weight > 0,
    ensures
        r == has_bit(b, weight),
{
    proof {
        reveal(has_bit);
    }
    (b / weight) % 2 == 1
}

/// The properties of a packet: only MQTT v5 packets carry any.
pub open spec fn parse_properties(v5: bool, s: Seq<u8>) -> Option<(PropertiesView, Seq<u8>)> {
    if v5 {
        PropertiesView::parse(s)
    } else {
        Some((PropertiesView::empty(), s))
    }
}

/// The bytes of the properties of a packet.
pub open spec fn properties_bytes(v5: bool, p: PropertiesView) -> Seq<u8> {
    if v5 {
        p.bytes()
    } else {
        Seq::empty()
    }
}

/// Whether the properties of a packet can be written.
pub open spec fn properties_encodable(v5: bool, p: PropertiesView) -> bool {
    v5 ==> p.encodable()
}

/// Whether the properties of a packet can be written and read back.
pub open spec fn properties_sendable(v5: bool, p: PropertiesView) -> bool {
    if v5 {
        p.sendable()
    } else {
        p == PropertiesView::empty()
    }
}

pub(crate) proof fn lemma_properties_roundtrip(v5: bool, p: PropertiesView, rest: Seq<u8>)
    requires
        properties_sendable(v5, p),
    ensures
        parse_properties(v5, properties_bytes(v5, p) + rest) == Some((p, rest)),
{
    if v5 {
        crate::codec::properties_roundtrip(p, rest);
    } else {
        assert(properties_bytes(v5, p) + rest =~= rest);
    }
}

pub(crate) fn decode_properties(v5: bool, r: &mut Reader) -> (res: Result<Properties>)
    ensures
        match res {
            Ok(p) => parse_properties(v5, old(r)@) == Some((p@, final(r)@)),
            Err(e) => parse_properties(v5, old(r)@) is None && e.says_malformed(
                PropertiesView::fault(old(r)@),
            ),
        },
        wire::is_tail(final(r)@, old(r)@),
{
    if v5 {
        Properties::decode(r)
    } else {
        Ok(Properties::new())
    }
}

pub(crate) fn encode_properties(v5: bool, p: &Properties, w: &mut Writer) -> (res: Result<()>)
    ensures
        match res {
            Ok(_) => properties_encodable(v5, p@) && final(w)@ == old(w)@ + properties_bytes(
                v5,
                p@,
            ),
            Err(e) => !properties_encodable(v5, p@) && e.is_overflow() && final(w)@ == old(w)@,
        },
{
    if v5 {
        p.encode(w)
    } else {
        assert(w@ =~= old(w)@ + Seq::<u8>::empty());
        Ok(())
    }
}

/// The will message carried in a CONNECT payload.
#[derive(Debug)]
pub struct Will {
    pub qos: QoS,
    pub retain: bool,
    pub properties: Properties,
    pub topic: String,
    pub payload: Vec<u8>,
}

/// What a will message says.
pub struct WillView {
    pub qos: QoS,
    pub retain: bool,
    pub properties: PropertiesView,
    pub topic: Seq<char>,
    pub payload: Seq<u8>,
}

impl View for Will {
    type V = WillView;

    open spec fn view(&self) -> WillView {
        WillView {
            qos: self.qos,
            retain: self.retain,
            properties: self.properties@,
            topic: self.topic@,
            payload: self.payload@,
        }
    }
}

#[derive(Debug)]
pub struct Connect {
    pub protocol_name: String,
    pub protocol_version: u8,
    pub clean_start: bool,
    pub keep_alive: u16,
    pub properties: Properties,
    pub client_id: String,
    pub will: Option<Will>,
    pub username: Option<String>,
    pub password: Option<Vec<u8>>,
}

/// What a CONNECT packet says.
pub struct ConnectView {
    pub protocol_name: Seq<char>,
    pub protocol_version: u8,
    pub clean_start: bool,
    pub keep_alive: u16,
    pub properties: PropertiesView,
    pub client_id: Seq<char>,
    pub will: Option<WillView>,
    pub username: Option<Seq<char>>,
    pub password: Option<Seq<u8>>,
}

impl View for Connect {
    type V = ConnectView;

    open spec fn view(&self) -> ConnectView {
        ConnectView {
            protocol_name: self.protocol_name@,
            protocol_version: self.protocol_version,
            clean_start: self.clean_start,
            keep_alive: self.keep_alive,
            properties: self.properties@,
            client_id: self.client_id@,
            will: crate::text::opt_view(self.will),
            username: crate::text::opt_view(self.username),
            password: crate::text::opt_view(self.password),
        }
    }
}

/// A string that is there only when its flag is set.
pub open spec fn parse_opt_text(present: bool, s: Seq<u8>) -> Option<
    (Option<Seq<char>>, Seq<u8>),
> {
    if present {
        match wire::parse_text(s) {
            Some((t, rest)) => Some((Some(t), rest)),
            None => None,
        }
    } else {
        Some((None, s))
    }
}

/// Binary data that is there only when its flag is set.
pub open spec fn parse_opt_data(present: bool, s: Seq<u8>) -> Option<(Option<Seq<u8>>, Seq<u8>)> {
    if present {
        match wire::parse_data(s) {
            Some((t, rest)) => Some((Some(t), rest)),
            None => None,
        }
    } else {
        Some((None, s))
    }
}

pub open spec fn opt_text_bytes(t: Option<Seq<char>>) -> Seq<u8> {
    match t {
        Some(x) => wire::text(x),
        None => Seq::empty(),
    }
}

pub open spec fn opt_data_bytes(t: Option<Seq<u8>>) -> Seq<u8> {
    match t {
        Some(x) => wire::data(x),
        None => Seq::empty(),
    }
}

impl WillView {
    /// The will message after the client identifier: its properties, topic and
    /// payload.
    pub open spec fn parse(v5: bool, qos: QoS, retain: bool, s: Seq<u8>) -> Option<
        (WillView, Seq<u8>),
    > {
        match parse_properties(v5, s) {
            None => None,
            Some((properties, s1)) => match wire::parse_text(s1) {
                None => None,
                Some((topic, s2)) => match wire::parse_data(s2) {
                    None => None,
                    Some((payload, rest)) => Some(
                        (WillView { qos, retain, properties, topic, payload }, rest),
                    ),
                },
            },
        }
    }

    /// What is said of bytes that begin with no will message.
    pub open spec fn fault(v5: bool, s: Seq<u8>) -> Seq<char> {
        match parse_properties(v5, s) {
            None => PropertiesView::fault(s),
            Some((_, s1)) => match wire::parse_text(s1) {
                None => wire::text_fault(s1),
                Some((_, s2)) => wire::data_fault(s2),
            },
        }
    }

    pub open spec fn bytes(self, v5: bool) -> Seq<u8> {
        properties_bytes(v5, self.properties) + wire::text(self.topic) + wire::data(self.payload)
    }

    pub open spec fn sendable(self, v5: bool) -> bool {
        &&& properties_sendable(v5, self.properties)
        &&& wire::sendable_text(self.topic)
        &&& self.payload.len() <= 65535
    }
}

/// The will message, which is there only when its flag is set.
pub open spec fn parse_opt_will(v5: bool, flags: u8, qos: QoS, s: Seq<u8>) -> Option<
    (Option<WillView>, Seq<u8>),
> {
    if has_bit(flags, 4) {
        match WillView::parse(v5, qos, has_bit(flags, 32), s) {
            Some((w, rest)) => Some((Some(w), rest)),
            None => None,
        }
    } else {
        Some((None, s))
    }
}

impl ConnectView {
    /// The connect flags: reserved bit 1, clean start 2, will 4, will QoS 8 and
    /// 16, will retain 32, password 64, user name 128.
    #[verifier::opaque]
    pub open spec fn flags(self) -> u8 {
        ((if self.clean_start {
            2int
        } else {
            0
        }) + (match self.will {
            Some(w) => 4 + 8 * w.qos.code() + (if w.retain {
                32int
            } else {
                0
            }),
            None => 0,
        }) + (if self.password is Some {
            64int
        } else {
            0
        }) + (if self.username is Some {
            128int
        } else {
            0
        })) as u8
    }

    /// The will QoS that the connect flags hold; the reserved bit must be 0,
    /// and without a will its QoS and retain bits must be 0 too.
    pub open spec fn flags_qos(flags: u8) -> Option<QoS> {
        if has_bit(flags, 1) {
            None
        } else {
            match QoS::of_code((flags / 8) % 4) {
                None => None,
                Some(qos) => if !has_bit(flags, 4) && (qos != QoS::AtMostOnce || has_bit(
                    flags,
                    32,
                )) {
                    None
                } else {
                    Some(qos)
                },
            }
        }
    }

    /// What is said of connect flags that may not be.
    pub open spec fn flags_fault(flags: u8) -> Seq<char> {
        if has_bit(flags, 1) {
            "CONNECT reserved flag is set"@
        } else if QoS::of_code((flags / 8) % 4) is None {
            "invalid QoS "@ + crate::text::decimal(((flags / 8) % 4) as nat)
        } else {
            "Will QoS/Retain set but Will Flag is 0"@
        }
    }

    /// What is said of bytes that cannot follow the keep alive of a CONNECT
    /// packet.
    pub open spec fn payload_fault(protocol_version: u8, flags: u8, qos: QoS, s: Seq<u8>) -> Seq<
        char,
    > {
        let v5 = protocol_version == 5;
        match parse_properties(v5, s) {
            None => PropertiesView::fault(s),
            Some((_, s1)) => match wire::parse_text(s1) {
                None => wire::text_fault(s1),
                Some((_, s2)) => match parse_opt_will(v5, flags, qos, s2) {
                    None => WillView::fault(v5, s2),
                    Some((_, s3)) => match parse_opt_text(has_bit(flags, 128), s3) {
                        None => wire::text_fault(s3),
                        Some((_, s4)) => wire::data_fault(s4),
                    },
                },
            },
        }
    }

    /// What is said of bytes that are no body of a CONNECT packet.
    pub open spec fn fault(s: Seq<u8>) -> Seq<char> {
        match wire::parse_text(s) {
            None => wire::text_fault(s),
            Some((_, s1)) => match wire::parse_u8(s1) {
                None => wire::truncated_text(1, s1.len()),
                Some((version, s2)) => match wire::parse_u8(s2) {
                    None => wire::truncated_text(1, s2.len()),
                    Some((flags, s3)) => match Self::flags_qos(flags) {
                        None => Self::flags_fault(flags),
                        Some(qos) => match wire::parse_u16(s3) {
                            None => wire::truncated_text(2, s3.len()),
                            Some((_, s4)) => Self::payload_fault(version, flags, qos, s4),
                        },
                    },
                },
            },
        }
    }

    /// What follows the keep alive of a CONNECT packet.
    pub open spec fn parse_payload(
        protocol_name: Seq<char>,
        protocol_version: u8,
        flags: u8,
        qos: QoS,
        keep_alive: u16,
        s: Seq<u8>,
    ) -> Option<(ConnectView, Seq<u8>)> {
        let v5 = protocol_version == 5;
        match parse_properties(v5, s) {
            None => None,
            Some((properties, s1)) => match wire::parse_text(s1) {
                None => None,
                Some((client_id, s2)) => match parse_opt_will(v5, flags, qos, s2) {
                    None => None,
                    Some((will, s3)) => match parse_opt_text(has_bit(flags, 128), s3) {
                        None => None,
                        Some((username, s4)) => match parse_opt_data(has_bit(flags, 64), s4) {
                            None => None,
                            Some((password, rest)) => Some(
                                (
                                    ConnectView {
                                        protocol_name,
                                        protocol_version,
                                        clean_start: has_bit(flags, 2),
                                        keep_alive,
                                        properties,
                                        client_id,
                                        will,
                                        username,
                                        password,
                                    },
                                    rest,
                                ),
                            ),
                        },
                    },
                },
            },
        }
    }

    /// Reads the body of a CONNECT packet.
    pub open spec fn parse(s: Seq<u8>) -> Option<(ConnectView, Seq<u8>)> {
        match wire::parse_text(s) {
            None => None,
            Some((name, s1)) => match wire::parse_u8(s1) {
                None => None,
                Some((version, s2)) => match wire::parse_u8(s2) {
                    None => None,
                    Some((flags, s3)) => match Self::flags_qos(flags) {
                        None => None,
                        Some(qos) => match wire::parse_u16(s3) {
                            None => None,
                            Some((keep_alive, s4)) => Self::parse_payload(
                                name,
                                version,
                                flags,
                                qos,
                                keep_alive,
                                s4,
                            ),
                        },
                    },
                },
            },
        }
    }

    /// The body of a CONNECT packet from its properties on.
    pub open spec fn payload_bytes(self) -> Seq<u8> {
        let v5 = self.protocol_version == 5;
        properties_bytes(v5, self.properties) + wire::text(self.client_id) + (match self.will {
            Some(w) => w.bytes(v5),
            None => Seq::empty(),
        }) + opt_text_bytes(self.username) + opt_data_bytes(self.password)
    }

    /// The body of a CONNECT packet.
    pub open spec fn bytes(self) -> Seq<u8> {
        wire::text(self.protocol_name) + seq![self.protocol_version, self.flags()] + wire::be16(
            self.keep_alive,
        ) + self.payload_bytes()
    }

    pub open spec fn encodable(self) -> bool {
        let v5 = self.protocol_version == 5;
        &&& properties_encodable(v5, self.properties)
        &&& self.will matches Some(w) ==> properties_encodable(v5, w.properties)
    }

    /// Whether reading back what is written gives this packet.
    pub open spec fn sendable(self) -> bool {
        let v5 = self.protocol_version == 5;
        &&& wire::sendable_text(self.protocol_name)
        &&& properties_sendable(v5, self.properties)
        &&& wire::sendable_text(self.client_id)
        &&& self.will matches Some(w) ==> w.sendable(v5)
        &&& self.username matches Some(u) ==> wire::sendable_text(u)
        &&& self.password matches Some(p) ==> p.len() <= 65535
    }

    /// The version that protocol name and level stand for: "MQIsdp" with level
    /// 3, "MQTT" with 4 and 5.
    pub open spec fn version(self) -> Option<ProtocolVersion> {
        if self.name_matches_level() {
            ProtocolVersion::of_code(self.protocol_version)
        } else {
            None
        }
    }

    /// Whether the protocol name is that of the protocol level.
    pub open spec fn name_matches_level(self) -> bool {
        self.protocol_name == (if self.protocol_version == 3 {
            "MQIsdp"@
        } else {
            "MQTT"@
        })
    }
}

proof fn lemma_will_roundtrip(v5: bool, w: WillView, rest: Seq<u8>)
    requires
        w.sendable(v5),
    ensures
        WillView::parse(v5, w.qos, w.retain, w.bytes(v5) + rest) == Some((w, rest)),
{
    let s2 = wire::data(w.payload) + rest;
    let s1 = wire::text(w.topic) + s2;
    assert(w.bytes(v5) + rest =~= properties_bytes(v5, w.properties) + s1);
    lemma_properties_roundtrip(v5, w.properties, s1);
    wire::text_roundtrip(w.topic, s2);
    wire::data_roundtrip(w.payload, rest);
}

proof fn lemma_flags(p: ConnectView)
    ensures
        !has_bit(p.flags(), 1),
        has_bit(p.flags(), 2) == p.clean_start,
        has_bit(p.flags(), 4) == (p.will is Some),
        p.will matches Some(w) ==> has_bit(p.flags(), 32) == w.retain && ConnectView::flags_qos(
            p.flags(),
        ) == Some(w.qos),
        p.will is None ==> ConnectView::flags_qos(p.flags()) == Some(QoS::AtMostOnce),
        has_bit(p.flags(), 64) == (p.password is Some),
        has_bit(p.flags(), 128) == (p.username is Some),
{
    reveal(has_bit);
    reveal(ConnectView::flags);
    let f = p.flags();
    if let Some(w) = p.will {
        crate::types::qos_codes(w.qos, w.qos.code());
        assert((f / 8) % 4 == w.qos.code());
    }
}

proof fn lemma_regroup(
    a: Seq<u8>,
    b: Seq<u8>,
    c: Seq<u8>,
    d: Seq<u8>,
    e: Seq<u8>,
    rest: Seq<u8>,
)
    ensures
        a + b + c + d + e + rest == a + (b + (c + (d + (e + rest)))),
{
    assert(a + b + c + d + e + rest =~= a + (b + (c + (d + (e + rest)))));
}

proof fn lemma_payload_roundtrip(p: ConnectView, rest: Seq<u8>)
    requires
        p.sendable(),
    ensures
        ConnectView::flags_qos(p.flags()) is Some,
        ConnectView::parse_payload(
            p.protocol_name,
            p.protocol_version,
            p.flags(),
            ConnectView::flags_qos(p.flags())->0,
            p.keep_alive,
            p.payload_bytes() + rest,
        ) == Some((p, rest)),
{
    let v5 = p.protocol_version == 5;
    let will_bytes = match p.will {
        Some(w) => w.bytes(v5),
        None => Seq::empty(),
    };
    let s4 = opt_data_bytes(p.password) + rest;
    let s3 = opt_text_bytes(p.username) + s4;
    let s2 = will_bytes + s3;
    let s1 = wire::text(p.client_id) + s2;
    lemma_regroup(
        properties_bytes(v5, p.properties),
        wire::text(p.client_id),
        will_bytes,
        opt_text_bytes(p.username),
        opt_data_bytes(p.password),
        rest,
    );
    lemma_flags(p);
    lemma_properties_roundtrip(v5, p.properties, s1);
    wire::text_roundtrip(p.client_id, s2);
    match p.will {
        Some(w) => lemma_will_roundtrip(v5, w, s3),
        None => {
            assert(s2 =~= s3);
        },
    }
    match p.username {
        Some(u) => wire::text_roundtrip(u, s4),
        None => {
            assert(s3 =~= s4);
        },
    }
    match p.password {
        Some(x) => wire::data_roundtrip(x, rest),
        None => {
            assert(s4 =~= rest);
        },
    }
}

/// A CONNECT packet that can be sent reads back as it was written.
pub proof fn connect_roundtrip(p: ConnectView, rest: Seq<u8>)
    requires
        p.sendable(),
    ensures
        ConnectView::parse(p.bytes() + rest) == Some((p, rest)),
{
    let s4 = p.payload_bytes() + rest;
    let s3 = wire::be16(p.keep_alive) + s4;
    let s2 = seq![p.flags()] + s3;
    let s1 = seq![p.protocol_version] + s2;
    assert(p.bytes() + rest =~= wire::text(p.protocol_name) + s1);
    wire::text_roundtrip(p.protocol_name, s1);
    assert(s1.skip(1) =~= s2);
    assert(s2.skip(1) =~= s3);
    wire::lemma_be16_roundtrip(p.keep_alive, s4);
    lemma_payload_roundtrip(p, rest);
}

impl Will {
    fn decode(v5: bool, qos: QoS, retain: bool, r: &mut Reader) -> (res: Result<Will>)
        ensures
            match res {
                Ok(w) => WillView::parse(v5, qos, retain, old(r)@) == Some((w@, final(r)@)),
                Err(e) => WillView::parse(v5, qos, retain, old(r)@) is None && e.says_malformed(
                    WillView::fault(v5, old(r)@),
                ),
            },
            wire::is_tail(final(r)@, old(r)@),
    {
        let properties: Properties = decode_properties(v5, r)?;
        let topic: String = r.utf8()?;
        let payload: Vec<u8> = r.binary()?;
        Ok(Will { qos, retain, properties, topic, payload })
    }
}

impl Connect {
    /// Reads the body of a CONNECT packet.
    pub fn decode(r: &mut Reader) -> (res: Result<Connect>)
        ensures
            match res {
                Ok(p) => ConnectView::parse(old(r)@) == Some((p@, final(r)@)),
                Err(e) => ConnectView::parse(old(r)@) is None && e.says_malformed(
                    ConnectView::fault(old(r)@),
                ),
            },
            wire::is_tail(final(r)@, old(r)@),
    {
        let protocol_name: String = r.utf8()?;
        let protocol_version: u8 = r.u8()?;
        let connect_flags: u8 = r.u8()?;
        if bit(connect_flags, 1) {
            return Err(malformed("CONNECT reserved flag is set"));
        }
        let clean_start: bool = bit(connect_flags, 2);
        let will_flag: bool = bit(connect_flags, 4);
        let will_qos: QoS = QoS::from_u8((connect_flags / 8) % 4)?;
        let will_retain: bool = bit(connect_flags, 32);
        let password_flag: bool = bit(connect_flags, 64);
        let username_flag: bool = bit(connect_flags, 128);
        if !will_flag && (will_qos != QoS::AtMostOnce || will_retain) {
            return Err(malformed("Will QoS/Retain set but Will Flag is 0"));
        }
        let keep_alive: u16 = r.u16()?;
        // Only level 5 has properties.
        let v5: bool = protocol_version == 5;
        let properties: Properties = decode_properties(v5, r)?;
        let client_id: String = r.utf8()?;
        let will: Option<Will> = if will_flag {
            Some(Will::decode(v5, will_qos, will_retain, r)?)
        } else {
            None
        };
        let username: Option<String> = if username_flag {
            Some(r.utf8()?)
        } else {
            None
        };
        let password: Option<Vec<u8>> = if password_flag {
            Some(r.binary()?)
        } else {
            None
        };
        Ok(
            Connect {
                protocol_name,
                protocol_version,
                clean_start,
                keep_alive,
                properties,
                client_id,
                will,
                username,
                password,
            },
        )
    }

    fn flags_byte(&self) -> (r: u8)
        ensures
            r == self@.flags(),
    {
        proof {
            reveal(ConnectView::flags);
        }
        let mut flags: u8 = 0;
        if self.clean_start {
            flags = flags + 2;
        }
        if let Some(will) = &self.will {
            flags = flags + 4;
            flags = flags + 8 * will.qos.as_u8();
            if will.retain {
                flags = flags + 32;
            }
        }
        if self.password.is_some() {
            flags = flags + 64;
        }
        if self.username.is_some() {
            flags = flags + 128;
        }
        flags
    }

    /// The body of the packet.
    pub fn encode_body(&self) -> (res: Result<Vec<u8>>)
        ensures
            match res {
                Ok(b) => self@.encodable() && b@ == self@.bytes(),
                Err(e) => !self@.encodable() && e.is_overflow(),
            },
    {
        let mut w: Writer = Writer::new();
        w.put_utf8(self.protocol_name.as_str());
        w.put_u8(self.protocol_version);
        w.put_u8(self.flags_byte());
        w.put_u16(self.keep_alive);
        let v5: bool = self.protocol_version == 5;
        encode_properties(v5, &self.properties, &mut w)?;
        w.put_utf8(self.client_id.as_str());
        let ghost head = wire::text(self.protocol_name@) + seq![
            self.protocol_version,
            self@.flags(),
        ] + wire::be16(self.keep_alive);
        assert(w@ =~= head + (properties_bytes(v5, self.properties@) + wire::text(
            self.client_id@,
        )));
        if let Some(will) = &self.will {
            encode_properties(v5, &will.properties, &mut w)?;
            w.put_utf8(will.topic.as_str());
            w.put_binary(will.payload.as_slice());
        }
        if let Some(u) = &self.username {
            w.put_utf8(u.as_str());
        }
        if let Some(p) = &self.password {
            w.put_binary(p.as_slice());
        }
        assert(w@ =~= self@.bytes());
        Ok(w.into_vec())
    }

    /// Validates protocol name and level: MQTT v3.1 ("MQIsdp", level 3), v3.1.1
    /// ("MQTT", level 4) and v5.0 ("MQTT", level 5). Returns the negotiated
    /// version, or an error with the reason code for the CONNACK.
    pub fn validate_protocol(&self) -> (res: Result<ProtocolVersion>)
        ensures
            match res {
                Ok(v) => self@.version() == Some(v),
                Err(e) => self@.version() is None && (if self@.name_matches_level() {
                    e matches MqttError::Reason(rc, m) && rc
                        == ReasonCode::UnsupportedProtocolVersion && m@
                        == "unsupported protocol version "@ + crate::text::decimal(
                        self.protocol_version as nat,
                    )
                } else {
                    e matches MqttError::Protocol(m) && m@ == "unsupported protocol name "@
                        + crate::text::quoted(self.protocol_name@)
                }),
            },
    {
        let expected_name: &str = if self.protocol_version == 3 {
            "MQIsdp"
        } else {
            "MQTT"
        };
        if !str_eq(self.protocol_name.as_str(), expected_name) {
            let shown: String = crate::text::quote(self.protocol_name.as_str());
            return Err(
                MqttError::Protocol(
                    crate::text::concat("unsupported protocol name ", shown.as_str()),
                ),
            );
        }
        match ProtocolVersion::from_level(self.protocol_version) {
            Some(v) => Ok(v),
            None => {
                let n: String = decimal_string(self.protocol_version as u64);
                let m: String = crate::text::concat("unsupported protocol version ", n.as_str());
                Err(MqttError::Reason(ReasonCode::UnsupportedProtocolVersion, m))
            },
        }
    }
}

#[derive(Debug)]
pub struct Connack {
    pub session_present: bool,
    pub reason_code: ReasonCode,
    pub properties: Properties,
}

/// What a CONNACK packet says.
pub struct ConnackView {
    pub session_present: bool,
    pub reason_code: ReasonCode,
    pub properties: PropertiesView,
}

impl View for Connack {
    type V = ConnackView;

    open spec fn view(&self) -> ConnackView {
        ConnackView {
            session_present: self.session_present,
            reason_code: self.reason_code,
            properties: self.properties@,
        }
    }
}

/// The v3.x CONNACK return code for a reason code; failures that v3.x has no
/// code for are reported as "not authorized".
pub open spec fn return_code(rc: ReasonCode) -> u8 {
    match rc {
        ReasonCode::Success => 0,
        ReasonCode::UnsupportedProtocolVersion => 1,
        ReasonCode::ClientIdentifierNotValid => 2,
        ReasonCode::ServerUnavailable | ReasonCode::ServerBusy => 3,
        ReasonCode::BadUserNameOrPassword => 4,
        _ => 5,
    }
}

/// The reason code closest to a v3.x CONNACK return code.
pub open spec fn return_reason(code: u8) -> ReasonCode {
    match code {
        0 => ReasonCode::Success,
        1 => ReasonCode::UnsupportedProtocolVersion,
        2 => ReasonCode::ClientIdentifierNotValid,
        3 => ReasonCode::ServerUnavailable,
        4 => ReasonCode::BadUserNameOrPassword,
        _ => ReasonCode::NotAuthorized,
    }
}

impl ConnackView {
    /// Reads the body of a CONNACK packet: v3.x has a return code, v5 a reason
    /// code and properties.
    pub open spec fn parse(version: ProtocolVersion, s: Seq<u8>) -> Option<
        (ConnackView, Seq<u8>),
    > {
        match wire::parse_u8(s) {
            None => None,
            Some((ack, s1)) => if ack > 1 {
                None
            } else {
                match wire::parse_u8(s1) {
                    None => None,
                    Some((code, s2)) => {
                        let reason = if version is V5 {
                            ReasonCode::of_code(code)
                        } else {
                            Some(return_reason(code))
                        };
                        match reason {
                            None => None,
                            Some(reason_code) => match parse_properties(version is V5, s2) {
                                None => None,
                                Some((properties, rest)) => Some(
                                    (
                                        ConnackView {
                                            session_present: ack == 1,
                                            reason_code,
                                            properties,
                                        },
                                        rest,
                                    ),
                                ),
                            },
                        }
                    },
                }
            },
        }
    }

    /// What is said of bytes that are no body of a CONNACK packet.
    pub open spec fn fault(version: ProtocolVersion, s: Seq<u8>) -> Seq<char> {
        match wire::parse_u8(s) {
            None => wire::truncated_text(1, s.len()),
            Some((ack, s1)) => if ack > 1 {
                "CONNACK reserved acknowledge flags set"@
            } else {
                match wire::parse_u8(s1) {
                    None => wire::truncated_text(1, s1.len()),
                    Some((code, s2)) => if version is V5 && ReasonCode::of_code(code) is None {
                        "unknown reason code 0x"@ + crate::text::hex_byte_upper(code)
                    } else {
                        PropertiesView::fault(s2)
                    },
                }
            },
        }
    }

    /// The body of a CONNACK packet. Session present is not defined in v3.1,
    /// where the byte is reserved.
    pub open spec fn bytes(self, version: ProtocolVersion) -> Seq<u8> {
        seq![
            if self.session_present && version != ProtocolVersion::V3_1 {
                1u8
            } else {
                0u8
            },
            if version is V5 {
                self.reason_code.code()
            } else {
                return_code(self.reason_code)
            },
        ] + properties_bytes(version is V5, self.properties)
    }

    pub open spec fn encodable(self, version: ProtocolVersion) -> bool {
        properties_encodable(version is V5, self.properties)
    }

    /// Whether reading back what is written gives this packet.
    pub open spec fn sendable(self, version: ProtocolVersion) -> bool {
        &&& properties_sendable(version is V5, self.properties)
        &&& version == ProtocolVersion::V3_1 ==> !self.session_present
        &&& !(version is V5) ==> return_reason(return_code(self.reason_code)) == self.reason_code
    }
}

/// A CONNACK packet that can be sent reads back as it was written.
pub proof fn connack_roundtrip(p: ConnackView, version: ProtocolVersion, rest: Seq<u8>)
    requires
        p.sendable(version),
    ensures
        ConnackView::parse(version, p.bytes(version) + rest) == Some((p, rest)),
{
    let s = p.bytes(version) + rest;
    let tail = properties_bytes(version is V5, p.properties) + rest;
    assert(s.skip(1).skip(1) =~= tail);
    lemma_properties_roundtrip(version is V5, p.properties, rest);
    crate::types::reason_codes(p.reason_code, 0);
}

impl Connack {
    pub fn new(session_present: bool, reason_code: ReasonCode) -> (r: Self)
        ensures
            r@ == (ConnackView {
                session_present,
                reason_code,
                properties: PropertiesView::empty(),
            }),
    {
        Connack { session_present, reason_code, properties: Properties::new() }
    }

    /// Reads the body of a CONNACK packet.
    pub fn decode(r: &mut Reader, version: ProtocolVersion) -> (res: Result<Connack>)
        ensures
            match res {
                Ok(p) => ConnackView::parse(version, old(r)@) == Some((p@, final(r)@)),
                Err(e) => ConnackView::parse(version, old(r)@) is None && e.says_malformed(
                    ConnackView::fault(version, old(r)@),
                ),
            },
            wire::is_tail(final(r)@, old(r)@),
    {
        let ack_flags: u8 = r.u8()?;
        if ack_flags > 1 {
            return Err(malformed("CONNACK reserved acknowledge flags set"));
        }
        let session_present: bool = ack_flags == 1;
        let code: u8 = r.u8()?;
        let reason_code: ReasonCode = if version.is_v5() {
            ReasonCode::from_u8(code)?
        } else {
            connack_return_to_reason(code)
        };
        let properties: Properties = decode_properties(version.is_v5(), r)?;
        Ok(Connack { session_present, reason_code, properties })
    }

    /// The body of the packet.
    pub fn encode_body(&self, version: ProtocolVersion) -> (res: Result<Vec<u8>>)
        ensures
            match res {
                Ok(b) => self@.encodable(version) && b@ == self@.bytes(version),
                Err(e) => !self@.encodable(version) && e.is_overflow(),
            },
    {
        let mut w: Writer = Writer::new();
        let session_present: bool = version != ProtocolVersion::V3_1 && self.session_present;
        w.put_u8(
            if session_present {
                1
            } else {
                0
            },
        );
        if version.is_v5() {
            w.put_u8(self.reason_code.as_u8());
        } else {
            w.put_u8(reason_to_connack_return(self.reason_code));
        }
        encode_properties(version.is_v5(), &self.properties, &mut w)?;
        assert(w@ =~= self@.bytes(version));
        Ok(w.into_vec())
    }
}

/// The v3.x CONNACK return code for a reason code.
fn reason_to_connack_return(rc: ReasonCode) -> (r: u8)
    ensures
        r == return_code(rc),
{
    match rc {
        ReasonCode::Success => 0,
        ReasonCode::UnsupportedProtocolVersion => 1,
        ReasonCode::ClientIdentifierNotValid => 2,
        ReasonCode::ServerUnavailable | ReasonCode::ServerBusy => 3,
        ReasonCode::BadUserNameOrPassword => 4,
        _ => 5,
    }
}

/// The reason code closest to a v3.x CONNACK return code.
fn connack_return_to_reason(code: u8) -> (r: ReasonCode)
    ensures
        r == return_reason(code),
{
    match code {
        0 => ReasonCode::Success,
        1 => ReasonCode::UnsupportedProtocolVersion,
        2 => ReasonCode::ClientIdentifierNotValid,
        3 => ReasonCode::ServerUnavailable,
        4 => ReasonCode::BadUserNameOrPassword,
        _ => ReasonCode::NotAuthorized,
    }
}

} // verus!
