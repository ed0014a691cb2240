//! MQTT control packets.
//!
//! The fixed header (type nibble, flags and remaining length) is handled here;
//! the variable header and payload in the module of each packet.

use vstd::prelude::*;
use vstd::string::StringExecFns;
use crate::codec::{varint_len, varint_size, wire, Reader, Writer, MAX_VARIABLE_BYTE_INTEGER};
use crate::error::{protocol, MqttError, Result};
use crate::text::{decimal, hex_char_upper, push_decimal, push_hex_digit};
use crate::types::{PacketType, ProtocolVersion};

pub mod connect;
pub mod other;
pub mod publish;
pub mod subscribe;

pub use connect::{Connack, ConnackView, Connect, ConnectView, Will, WillView};
pub use other::{Auth, AuthView, Disconnect, DisconnectView};
pub use publish::{PubAck, PubAckView, Publish, PublishView};
pub use subscribe::{
    RetainHandling, SubAck, SubAckView, Subscribe, SubscribeView, TopicFilter, TopicFilterView,
    Unsubscribe, UnsubscribeView,
};

verus! {

broadcast use wire::group_tail;

/// A fully decoded MQTT control packet.
#[derive(Debug)]
pub enum Packet {
    Connect(Connect),
    Connack(Connack),
    Publish(Publish),
    Puback(PubAck),
    Pubrec(PubAck),
    Pubrel(PubAck),
    Pubcomp(PubAck),
    Subscribe(Subscribe),
    Suback(SubAck),
    Unsubscribe(Unsubscribe),
    Unsuback(SubAck),
    Pingreq,
    Pingresp,
    Disconnect(Disconnect),
    Auth(Auth),
}

/// What a packet says.
pub enum PacketView {
    Connect(ConnectView),
    Connack(ConnackView),
    Publish(PublishView),
    Puback(PubAckView),
    Pubrec(PubAckView),
    Pubrel(PubAckView),
    Pubcomp(PubAckView),
    Subscribe(SubscribeView),
    Suback(SubAckView),
    Unsubscribe(UnsubscribeView),
    Unsuback(SubAckView),
    Pingreq,
    Pingresp,
    Disconnect(DisconnectView),
    Auth(AuthView),
}

impl View for Packet {
    type V = PacketView;

    open spec fn view(&self) -> PacketView {
        match self {
            Packet::Connect(p) => PacketView::Connect(p@),
            Packet::Connack(p) => PacketView::Connack(p@),
            Packet::Publish(p) => PacketView::Publish(p@),
            Packet::Puback(p) => PacketView::Puback(p@),
            Packet::Pubrec(p) => PacketView::Pubrec(p@),
            Packet::Pubrel(p) => PacketView::Pubrel(p@),
            Packet::Pubcomp(p) => PacketView::Pubcomp(p@),
            Packet::Subscribe(p) => PacketView::Subscribe(p@),
            Packet::Suback(p) => PacketView::Suback(p@),
            Packet::Unsubscribe(p) => PacketView::Unsubscribe(p@),
            Packet::Unsuback(p) => PacketView::Unsuback(p@),
            Packet::Pingreq => PacketView::Pingreq,
            Packet::Pingresp => PacketView::Pingresp,
            Packet::Disconnect(p) => PacketView::Disconnect(p@),
            Packet::Auth(p) => PacketView::Auth(p@),
        }
    }
}

/// The flags that the fixed header of a packet must have; a PUBLISH carries
/// its own.
pub open spec fn required_flags(t: PacketType) -> Option<u8> {
    match t {
        PacketType::Publish => None,
        PacketType::Pubrel | PacketType::Subscribe | PacketType::Unsubscribe => Some(2),
        _ => Some(0),
    }
}

/// The name of a packet type.
pub open spec fn title_of(t: PacketType) -> Seq<char> {
    match t {
        PacketType::Connect => "CONNECT"@,
        PacketType::Connack => "CONNACK"@,
        PacketType::Publish => "PUBLISH"@,
        PacketType::Puback => "PUBACK"@,
        PacketType::Pubrec => "PUBREC"@,
        PacketType::Pubrel => "PUBREL"@,
        PacketType::Pubcomp => "PUBCOMP"@,
        PacketType::Subscribe => "SUBSCRIBE"@,
        PacketType::Suback => "SUBACK"@,
        PacketType::Unsubscribe => "UNSUBSCRIBE"@,
        PacketType::Unsuback => "UNSUBACK"@,
        PacketType::Pingreq => "PINGREQ"@,
        PacketType::Pingresp => "PINGRESP"@,
        PacketType::Disconnect => "DISCONNECT"@,
        PacketType::Auth => "AUTH"@,
    }
}

impl PacketView {
    pub open spec fn packet_type(self) -> PacketType {
        match self {
            PacketView::Connect(_) => PacketType::Connect,
            PacketView::Connack(_) => PacketType::Connack,
            PacketView::Publish(_) => PacketType::Publish,
            PacketView::Puback(_) => PacketType::Puback,
            PacketView::Pubrec(_) => PacketType::Pubrec,
            PacketView::Pubrel(_) => PacketType::Pubrel,
            PacketView::Pubcomp(_) => PacketType::Pubcomp,
            PacketView::Subscribe(_) => PacketType::Subscribe,
            PacketView::Suback(_) => PacketType::Suback,
            PacketView::Unsubscribe(_) => PacketType::Unsubscribe,
            PacketView::Unsuback(_) => PacketType::Unsuback,
            PacketView::Pingreq => PacketType::Pingreq,
            PacketView::Pingresp => PacketType::Pingresp,
            PacketView::Disconnect(_) => PacketType::Disconnect,
            PacketView::Auth(_) => PacketType::Auth,
        }
    }

    /// The name of the packet type.
    pub open spec fn name(self) -> Seq<char> {
        title_of(self.packet_type())
    }

    /// The fixed header flags.
    pub open spec fn flags(self) -> u8 {
        match self {
            PacketView::Publish(p) => p.flags(),
            _ => match required_flags(self.packet_type()) {
                Some(f) => f,
                None => 0,
            },
        }
    }

    /// The variable header and payload.
    pub open spec fn body(self, version: ProtocolVersion) -> Seq<u8> {
        match self {
            PacketView::Connect(p) => p.bytes(),
            PacketView::Connack(p) => p.bytes(version),
            PacketView::Publish(p) => p.bytes(version),
            PacketView::Puback(p) => p.bytes(version),
            PacketView::Pubrec(p) => p.bytes(version),
            PacketView::Pubrel(p) => p.bytes(version),
            PacketView::Pubcomp(p) => p.bytes(version),
            PacketView::Subscribe(p) => p.bytes(version),
            PacketView::Suback(p) => p.bytes(version),
            PacketView::Unsubscribe(p) => p.bytes(version),
            PacketView::Unsuback(p) => p.unsuback_bytes(version),
            PacketView::Pingreq => Seq::empty(),
            PacketView::Pingresp => Seq::empty(),
            PacketView::Disconnect(p) => p.bytes(version),
            PacketView::Auth(p) => p.bytes(),
        }
    }

    /// Whether the variable header and payload can be written.
    pub open spec fn body_encodable(self, version: ProtocolVersion) -> bool {
        match self {
            PacketView::Connect(p) => p.encodable(),
            PacketView::Connack(p) => p.encodable(version),
            PacketView::Publish(p) => p.encodable(version),
            PacketView::Puback(p) => p.encodable(version),
            PacketView::Pubrec(p) => p.encodable(version),
            PacketView::Pubrel(p) => p.encodable(version),
            PacketView::Pubcomp(p) => p.encodable(version),
            PacketView::Subscribe(p) => p.encodable(version),
            PacketView::Suback(p) => p.encodable(version),
            PacketView::Unsubscribe(p) => p.encodable(version),
            PacketView::Unsuback(p) => p.encodable(version),
            PacketView::Pingreq => true,
            PacketView::Pingresp => true,
            PacketView::Disconnect(p) => p.encodable(version),
            PacketView::Auth(p) => p.encodable(),
        }
    }

    /// Whether the packet can be written: its body can, and fits the remaining
    /// length.
    pub open spec fn encodable(self, version: ProtocolVersion) -> bool {
        self.body_encodable(version) && self.body(version).len() <= MAX_VARIABLE_BYTE_INTEGER
    }

    /// The error for a packet that cannot be written: a PUBLISH without the
    /// packet identifier it needs is malformed, a length that does not fit is a
    /// protocol error.
    pub open spec fn encode_error(self, e: MqttError) -> bool {
        if self is Publish && self->Publish_0.lacks_id() {
            e.says_malformed("QoS>0 PUBLISH missing packet id"@)
        } else {
            e.is_overflow()
        }
    }

    /// The bytes of the packet: type and flags, remaining length, body.
    pub open spec fn bytes(self, version: ProtocolVersion) -> Seq<u8> {
        seq![(16 * self.packet_type().code() + self.flags()) as u8] + wire::varint(
            self.body(version).len(),
        ) + self.body(version)
    }

    /// Reads a body of the given type and flags.
    pub open spec fn parse_body(
        t: PacketType,
        flags: u8,
        version: ProtocolVersion,
        s: Seq<u8>,
    ) -> Option<PacketView> {
        if required_flags(t) is Some && required_flags(t) != Some(flags) {
            None
        } else {
            match t {
                PacketType::Connect => match ConnectView::parse(s) {
                    Some((p, _)) => Some(PacketView::Connect(p)),
                    None => None,
                },
                PacketType::Connack => match ConnackView::parse(version, s) {
                    Some((p, _)) => Some(PacketView::Connack(p)),
                    None => None,
                },
                PacketType::Publish => match PublishView::parse(flags, version, s) {
                    Some(p) => Some(PacketView::Publish(p)),
                    None => None,
                },
                PacketType::Puback => match PubAckView::parse(s.len(), version, s) {
                    Some((p, _)) => Some(PacketView::Puback(p)),
                    None => None,
                },
                PacketType::Pubrec => match PubAckView::parse(s.len(), version, s) {
                    Some((p, _)) => Some(PacketView::Pubrec(p)),
                    None => None,
                },
                PacketType::Pubrel => match PubAckView::parse(s.len(), version, s) {
                    Some((p, _)) => Some(PacketView::Pubrel(p)),
                    None => None,
                },
                PacketType::Pubcomp => match PubAckView::parse(s.len(), version, s) {
                    Some((p, _)) => Some(PacketView::Pubcomp(p)),
                    None => None,
                },
                PacketType::Subscribe => match SubscribeView::parse(version, s) {
                    Some(p) => Some(PacketView::Subscribe(p)),
                    None => None,
                },
                PacketType::Suback => match SubAckView::parse(version, s) {
                    Some(p) => Some(PacketView::Suback(p)),
                    None => None,
                },
                PacketType::Unsubscribe => match UnsubscribeView::parse(version, s) {
                    Some(p) => Some(PacketView::Unsubscribe(p)),
                    None => None,
                },
                PacketType::Unsuback => match SubAckView::parse(version, s) {
                    Some(p) => Some(PacketView::Unsuback(p)),
                    None => None,
                },
                PacketType::Pingreq => Some(PacketView::Pingreq),
                PacketType::Pingresp => Some(PacketView::Pingresp),
                PacketType::Disconnect => match DisconnectView::parse(s.len(), version, s) {
                    Some((p, _)) => Some(PacketView::Disconnect(p)),
                    None => None,
                },
                PacketType::Auth => match AuthView::parse(s.len(), s) {
                    Some((p, _)) => Some(PacketView::Auth(p)),
                    None => None,
                },
            }
        }
    }

    /// What is said of flags and a body that are no packet of a type.
    pub open spec fn body_fault(
        t: PacketType,
        flags: u8,
        version: ProtocolVersion,
        s: Seq<u8>,
    ) -> Seq<char> {
        if required_flags(t) is Some && required_flags(t) != Some(flags) {
            flags_text(flags, title_of(t))
        } else {
            match t {
                PacketType::Connect => ConnectView::fault(s),
                PacketType::Connack => ConnackView::fault(version, s),
                PacketType::Publish => PublishView::fault(flags, version, s),
                PacketType::Subscribe => SubscribeView::fault(version, s),
                PacketType::Suback | PacketType::Unsuback => SubAckView::fault(version, s),
                PacketType::Unsubscribe => UnsubscribeView::fault(version, s),
                PacketType::Disconnect | PacketType::Auth => publish::reason_fault(s),
                _ => PubAckView::fault(s),
            }
        }
    }

    /// What is said of bytes that are no packet.
    pub open spec fn fault(s: Seq<u8>, version: ProtocolVersion) -> Seq<char> {
        match wire::parse_u8(s) {
            None => wire::truncated_text(1, s.len()),
            Some((first, s1)) => match PacketType::of_code(first / 16) {
                None => "invalid packet type "@ + decimal((first / 16) as nat),
                Some(t) => match wire::parse_varint(s1) {
                    None => wire::varint_fault(s1),
                    Some((n, body)) => if body.len() != n {
                        length_mismatch_text(n, body.len())
                    } else {
                        Self::body_fault(t, first % 16, version, body)
                    },
                },
            },
        }
    }

    /// Reads a whole packet: the remaining length must be that of the bytes
    /// after it.
    pub open spec fn parse(s: Seq<u8>, version: ProtocolVersion) -> Option<PacketView> {
        match wire::parse_u8(s) {
            None => None,
            Some((first, s1)) => match PacketType::of_code(first / 16) {
                None => None,
                Some(t) => match wire::parse_varint(s1) {
                    None => None,
                    Some((n, body)) => if body.len() != n {
                        None
                    } else {
                        Self::parse_body(t, first % 16, version, body)
                    },
                },
            },
        }
    }

    /// Whether reading back what is written gives this packet.
    pub open spec fn sendable(self, version: ProtocolVersion) -> bool {
        &&& self.body(version).len() <= MAX_VARIABLE_BYTE_INTEGER
        &&& match self {
            PacketView::Connect(p) => p.sendable(),
            PacketView::Connack(p) => p.sendable(version),
            PacketView::Publish(p) => p.sendable(version),
            PacketView::Puback(p) => p.sendable(version),
            PacketView::Pubrec(p) => p.sendable(version),
            PacketView::Pubrel(p) => p.sendable(version),
            PacketView::Pubcomp(p) => p.sendable(version),
            PacketView::Subscribe(p) => p.sendable(version),
            PacketView::Suback(p) => p.sendable(version),
            PacketView::Unsubscribe(p) => p.sendable(version),
            PacketView::Unsuback(p) => p.unsuback_sendable(version),
            PacketView::Pingreq => true,
            PacketView::Pingresp => true,
            PacketView::Disconnect(p) => p.sendable(version),
            PacketView::Auth(p) => p.sendable(),
        }
    }
}

proof fn lemma_body_roundtrip(p: PacketView, version: ProtocolVersion)
    requires
        p.sendable(version),
    ensures
        PacketView::parse_body(p.packet_type(), p.flags(), version, p.body(version)) == Some(p),
{
    let s = p.body(version);
    match p {
        PacketView::Connect(x) => {
            connect::connect_roundtrip(x, Seq::empty());
            assert(s + Seq::<u8>::empty() =~= s);
        },
        PacketView::Connack(x) => {
            connect::connack_roundtrip(x, version, Seq::empty());
            assert(s + Seq::<u8>::empty() =~= s);
        },
        PacketView::Publish(x) => publish::publish_roundtrip(x, version),
        PacketView::Puback(x) => publish::puback_roundtrip(x, version),
        PacketView::Pubrec(x) => publish::puback_roundtrip(x, version),
        PacketView::Pubrel(x) => publish::puback_roundtrip(x, version),
        PacketView::Pubcomp(x) => publish::puback_roundtrip(x, version),
        PacketView::Subscribe(x) => subscribe::subscribe_roundtrip(x, version),
        PacketView::Suback(x) => subscribe::suback_roundtrip(x, version),
        PacketView::Unsubscribe(x) => subscribe::unsubscribe_roundtrip(x, version),
        PacketView::Unsuback(x) => subscribe::unsuback_roundtrip(x, version),
        PacketView::Pingreq => {},
        PacketView::Pingresp => {},
        PacketView::Disconnect(x) => other::disconnect_roundtrip(x, version),
        PacketView::Auth(x) => other::auth_roundtrip(x),
    }
}

proof fn lemma_first_byte(p: PacketView)
    ensures
        p.flags() < 16,
        ((16 * p.packet_type().code() + p.flags()) as u8) / 16 == p.packet_type().code(),
        ((16 * p.packet_type().code() + p.flags()) as u8) % 16 == p.flags(),
{
    assert(p.packet_type().code() <= 15);
    assert(p.flags() < 16);
}

/// Every packet that can be sent, of every type and under every protocol
/// version, reads back from its encoding as it was.
pub proof fn packet_roundtrip(p: PacketView, version: ProtocolVersion)
    requires
        p.sendable(version),
    ensures
        PacketView::parse(p.bytes(version), version) == Some(p),
{
    let body = p.body(version);
    let s = p.bytes(version);
    lemma_first_byte(p);
    crate::types::packet_type_codes(p.packet_type(), 0);
    assert(s.skip(1) =~= wire::varint(body.len()) + body);
    wire::varint_roundtrip(body.len(), body);
    lemma_body_roundtrip(p, version);
}

/// What is said of a fixed header with flags that it may not have.
pub open spec fn flags_text(flags: u8, name: Seq<char>) -> Seq<char> {
    "invalid fixed header flags 0x"@ + seq![hex_char_upper(flags)] + " for "@ + name
}

fn check_flags(flags: u8, t: PacketType, name: &str) -> (r: Result<()>)
    requires
        required_flags(t) is Some,
        flags < 16,
    ensures
        match r {
            Ok(_) => required_flags(t) == Some(flags),
            Err(e) => required_flags(t) != Some(flags) && e.says_malformed(
                flags_text(flags, name@),
            ),
        },
{
    let expected: u8 = match t {
        PacketType::Pubrel | PacketType::Subscribe | PacketType::Unsubscribe => 2,
        _ => 0,
    };
    if flags != expected {
        let mut m: String = String::from_str("invalid fixed header flags 0x");
        push_hex_digit(&mut m, flags);
        m.append(" for ");
        m.append(name);
        assert(m@ =~= flags_text(flags, name@));
        return Err(MqttError::Malformed(m));
    }
    Ok(())
}

/// What is said of a packet whose length is not the one that it declares.
pub open spec fn length_mismatch_text(declared: nat, left: nat) -> Seq<char> {
    "remaining length "@ + decimal(declared) + " does not match buffer ("@ + decimal(left)
        + " bytes left)"@
}

fn length_mismatch(declared: usize, left: usize) -> (e: MqttError)
    ensures
        e matches MqttError::Malformed(m) && m@ == length_mismatch_text(
            declared as nat,
            left as nat,
        ),
{
    let mut m: String = String::from_str("remaining length ");
    push_decimal(&mut m, declared as u64);
    m.append(" does not match buffer (");
    push_decimal(&mut m, left as u64);
    m.append(" bytes left)");
    MqttError::Malformed(m)
}

impl Packet {
    pub fn packet_type(&self) -> (r: PacketType)
        ensures
            r == self@.packet_type(),
    {
        match self {
            Packet::Connect(_) => PacketType::Connect,
            Packet::Connack(_) => PacketType::Connack,
            Packet::Publish(_) => PacketType::Publish,
            Packet::Puback(_) => PacketType::Puback,
            Packet::Pubrec(_) => PacketType::Pubrec,
            Packet::Pubrel(_) => PacketType::Pubrel,
            Packet::Pubcomp(_) => PacketType::Pubcomp,
            Packet::Subscribe(_) => PacketType::Subscribe,
            Packet::Suback(_) => PacketType::Suback,
            Packet::Unsubscribe(_) => PacketType::Unsubscribe,
            Packet::Unsuback(_) => PacketType::Unsuback,
            Packet::Pingreq => PacketType::Pingreq,
            Packet::Pingresp => PacketType::Pingresp,
            Packet::Disconnect(_) => PacketType::Disconnect,
            Packet::Auth(_) => PacketType::Auth,
        }
    }

    /// A short name for logging.
    pub fn name(&self) -> (r: &'static str)
        ensures
            r@ == self@.name(),
    {
        match self {
            Packet::Connect(_) => "CONNECT",
            Packet::Connack(_) => "CONNACK",
            Packet::Publish(_) => "PUBLISH",
            Packet::Puback(_) => "PUBACK",
            Packet::Pubrec(_) => "PUBREC",
            Packet::Pubrel(_) => "PUBREL",
            Packet::Pubcomp(_) => "PUBCOMP",
            Packet::Subscribe(_) => "SUBSCRIBE",
            Packet::Suback(_) => "SUBACK",
            Packet::Unsubscribe(_) => "UNSUBSCRIBE",
            Packet::Unsuback(_) => "UNSUBACK",
            Packet::Pingreq => "PINGREQ",
            Packet::Pingresp => "PINGRESP",
            Packet::Disconnect(_) => "DISCONNECT",
            Packet::Auth(_) => "AUTH",
        }
    }

    fn decode_body(t: PacketType, flags: u8, version: ProtocolVersion, r: &mut Reader) -> (res:
        Result<Packet>)
        requires
            flags < 16,
        ensures
            match res {
                Ok(p) => PacketView::parse_body(t, flags, version, old(r)@) == Some(p@),
                Err(e) => PacketView::parse_body(t, flags, version, old(r)@) is None
                    && e.says_malformed(PacketView::body_fault(t, flags, version, old(r)@)),
            },
            wire::is_tail(final(r)@, old(r)@),
    {
        let len: usize = r.remaining();
        match t {
            PacketType::Connect => {
                check_flags(flags, t, "CONNECT")?;
                Ok(Packet::Connect(Connect::decode(r)?))
            },
            PacketType::Connack => {
                check_flags(flags, t, "CONNACK")?;
                Ok(Packet::Connack(Connack::decode(r, version)?))
            },
            PacketType::Publish => Ok(Packet::Publish(Publish::decode(flags, r, version)?)),
            PacketType::Puback => {
                check_flags(flags, t, "PUBACK")?;
                Ok(Packet::Puback(PubAck::decode(r, len, version)?))
            },
            PacketType::Pubrec => {
                check_flags(flags, t, "PUBREC")?;
                Ok(Packet::Pubrec(PubAck::decode(r, len, version)?))
            },
            PacketType::Pubrel => {
                check_flags(flags, t, "PUBREL")?;
                Ok(Packet::Pubrel(PubAck::decode(r, len, version)?))
            },
            PacketType::Pubcomp => {
                check_flags(flags, t, "PUBCOMP")?;
                Ok(Packet::Pubcomp(PubAck::decode(r, len, version)?))
            },
            PacketType::Subscribe => {
                check_flags(flags, t, "SUBSCRIBE")?;
                Ok(Packet::Subscribe(Subscribe::decode(r, version)?))
            },
            PacketType::Suback => {
                check_flags(flags, t, "SUBACK")?;
                Ok(Packet::Suback(SubAck::decode(r, version)?))
            },
            PacketType::Unsubscribe => {
                check_flags(flags, t, "UNSUBSCRIBE")?;
                Ok(Packet::Unsubscribe(Unsubscribe::decode(r, version)?))
            },
            PacketType::Unsuback => {
                check_flags(flags, t, "UNSUBACK")?;
                Ok(Packet::Unsuback(SubAck::decode(r, version)?))
            },
            PacketType::Pingreq => {
                check_flags(flags, t, "PINGREQ")?;
                Ok(Packet::Pingreq)
            },
            PacketType::Pingresp => {
                check_flags(flags, t, "PINGRESP")?;
                Ok(Packet::Pingresp)
            },
            PacketType::Disconnect => {
                check_flags(flags, t, "DISCONNECT")?;
                Ok(Packet::Disconnect(Disconnect::decode(r, len, version)?))
            },
            PacketType::Auth => {
                check_flags(flags, t, "AUTH")?;
                Ok(Packet::Auth(Auth::decode(r, len)?))
            },
        }
    }

    /// Decodes a complete packet from its raw bytes, fixed header included.
    pub fn decode(buf: &[u8], version: ProtocolVersion) -> (res: Result<Packet>)
        ensures
            match res {
                Ok(p) => PacketView::parse(buf@, version) == Some(p@),
                Err(e) => PacketView::parse(buf@, version) is None && e.says_malformed(
                    PacketView::fault(buf@, version),
                ),
            },
    {
        let mut r: Reader = Reader::new(buf);
        let first: u8 = r.u8()?;
        let ptype: PacketType = PacketType::from_u8(first / 16)?;
        let flags: u8 = first % 16;
        let remaining_len: usize = r.varint()? as usize;
        if r.remaining() != remaining_len {
            return Err(length_mismatch(remaining_len, r.remaining()));
        }
        Self::decode_body(ptype, flags, version, &mut r)
    }

    fn flags_byte(&self) -> (r: u8)
        ensures
            r == self@.flags(),
    {
        match self {
            Packet::Publish(p) => p.fixed_flags(),
            Packet::Pubrel(_) | Packet::Subscribe(_) | Packet::Unsubscribe(_) => 2,
            _ => 0,
        }
    }

    fn encode_body(&self, version: ProtocolVersion) -> (res: Result<Vec<u8>>)
        ensures
            match res {
                Ok(b) => self@.body_encodable(version) && b@ == self@.body(version),
                Err(e) => !self@.body_encodable(version) && self@.encode_error(e),
            },
    {
        match self {
            Packet::Connect(p) => p.encode_body(),
            Packet::Connack(p) => p.encode_body(version),
            Packet::Publish(p) => p.encode_body(version),
            Packet::Puback(p) => p.encode_body(version),
            Packet::Pubrec(p) => p.encode_body(version),
            Packet::Pubrel(p) => p.encode_body(version),
            Packet::Pubcomp(p) => p.encode_body(version),
            Packet::Subscribe(p) => p.encode_body(version),
            Packet::Suback(p) => p.encode_body(version),
            Packet::Unsubscribe(p) => p.encode_body(version),
            Packet::Unsuback(p) => p.encode_unsuback_body(version),
            Packet::Pingreq => Ok(Vec::new()),
            Packet::Pingresp => Ok(Vec::new()),
            Packet::Disconnect(p) => p.encode_body(version),
            Packet::Auth(p) => p.encode_body(),
        }
    }

    /// Encodes this packet, fixed header included.
    pub fn encode(&self, version: ProtocolVersion) -> (res: Result<Vec<u8>>)
        ensures
            match res {
                Ok(b) => self@.encodable(version) && b@ == self@.bytes(version),
                Err(e) => !self@.encodable(version) && self@.encode_error(e),
            },
    {
        let flags: u8 = self.flags_byte();
        let body: Vec<u8> = self.encode_body(version)?;
        if body.len() > MAX_VARIABLE_BYTE_INTEGER as usize {
            return Err(protocol("variable byte integer overflow"));
        }
        let mut out: Writer = Writer::with_capacity(body.len() + 5);
        proof {
            lemma_first_byte(self@);
        }
        out.put_u8(self.packet_type().as_u8() * 16 + flags);
        out.put_varint(body.len() as u32)?;
        out.put_bytes(body.as_slice());
        assert(out@ =~= self@.bytes(version));
        Ok(out.into_vec())
    }

    /// Total encoded size in bytes, used to enforce the maximum packet size.
    pub fn encoded_size(&self, version: ProtocolVersion) -> (res: Result<usize>)
        ensures
            match res {
                Ok(n) => self@.encodable(version) && n == self@.bytes(version).len(),
                Err(e) => !self@.encodable(version) && self@.encode_error(e),
            },
    {
        let b: Vec<u8> = self.encode(version)?;
        Ok(b.len())
    }
}

/// Size of a packet whose body has the given size.
pub fn total_len(body_len: usize) -> (r: usize)
    requires
        body_len + 5 <= usize::MAX,
    ensures
        r == 1 + varint_size(body_len as u32) + body_len,
{
    1 + varint_len(body_len as u32) + body_len
}

} // verus!
