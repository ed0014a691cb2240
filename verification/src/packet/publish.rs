//! PUBLISH, and the acknowledgements PUBACK, PUBREC, PUBREL and PUBCOMP, which
//! share one shape.

use vstd::prelude::*;
use vstd::slice::slice_to_vec;
use crate::codec::{wire, Properties, PropertiesView, Reader, Writer};
use crate::error::{malformed, Result};
use crate::packet::connect;
use crate::packet::connect::{bit, decode_properties, encode_properties};
use crate::types::{ProtocolVersion, QoS, ReasonCode};

verus! {

broadcast use wire::group_tail;

#[derive(Debug)]
pub struct Publish {
    pub dup: bool,
    pub qos: QoS,
    pub retain: bool,
    pub topic: String,
    /// Present iff QoS > 0.
    pub packet_id: Option<u16>,
    pub properties: Properties,
    pub payload: Vec<u8>,
}

/// What a PUBLISH packet says.
pub struct PublishView {
    pub dup: bool,
    pub qos: QoS,
    pub retain: bool,
    pub topic: Seq<char>,
    pub packet_id: Option<u16>,
    pub properties: PropertiesView,
    pub payload: Seq<u8>,
}

impl View for Publish {
    type V = PublishView;

    open spec fn view(&self) -> PublishView {
        PublishView {
            dup: self.dup,
            qos: self.qos,
            retain: self.retain,
            topic: self.topic@,
            packet_id: self.packet_id,
            properties: self.properties@,
            payload: self.payload@,
        }
    }
}

impl Clone for Publish {
    fn clone(&self) -> (r: Self)
        ensures
            r@ == self@,
    {
        Publish {
            dup: self.dup,
            qos: self.qos,
            retain: self.retain,
            topic: self.topic.clone(),
            packet_id: self.packet_id,
            properties: self.properties.clone(),
            payload: crate::text::clone_bytes(&self.payload),
        }
    }
}

/// The packet identifier, which is there only above QoS 0 and is never 0.
pub open spec fn parse_packet_id(qos: QoS, s: Seq<u8>) -> Option<(Option<u16>, Seq<u8>)> {
    if qos is AtMostOnce {
        Some((None, s))
    } else {
        match wire::parse_u16(s) {
            None => None,
            Some((id, rest)) => if id == 0 {
                None
            } else {
                Some((Some(id), rest))
            },
        }
    }
}

impl PublishView {
    /// The QoS that the fixed header flags hold; DUP must be 0 with QoS 0.
    pub open spec fn flags_qos(flags: u8) -> Option<QoS> {
        match QoS::of_code((flags / 2) % 4) {
            None => None,
            Some(qos) => if qos is AtMostOnce && connect::has_bit(flags, 8) {
                None
            } else {
                Some(qos)
            },
        }
    }

    /// Reads the body of a PUBLISH packet; all that is left is the payload.
    pub open spec fn parse(flags: u8, version: ProtocolVersion, s: Seq<u8>) -> Option<
        PublishView,
    > {
        match Self::flags_qos(flags) {
            None => None,
            Some(qos) => match wire::parse_text(s) {
                None => None,
                Some((topic, s1)) => match parse_packet_id(qos, s1) {
                    None => None,
                    Some((packet_id, s2)) => match connect::parse_properties(version is V5, s2) {
                        None => None,
                        Some((properties, payload)) => Some(
                            PublishView {
                                dup: connect::has_bit(flags, 8),
                                qos,
                                retain: connect::has_bit(flags, 1),
                                topic,
                                packet_id,
                                properties,
                                payload,
                            },
                        ),
                    },
                },
            },
        }
    }

    /// What is said of flags and bytes that are no PUBLISH packet.
    pub open spec fn fault(flags: u8, version: ProtocolVersion, s: Seq<u8>) -> Seq<char> {
        match Self::flags_qos(flags) {
            None => if QoS::of_code((flags / 2) % 4) is None {
                "invalid QoS "@ + crate::text::decimal(((flags / 2) % 4) as nat)
            } else {
                "DUP set on a QoS 0 PUBLISH"@
            },
            Some(qos) => match wire::parse_text(s) {
                None => wire::text_fault(s),
                Some((_, s1)) => match parse_packet_id(qos, s1) {
                    None => if wire::parse_u16(s1) is None {
                        wire::truncated_text(2, s1.len())
                    } else {
                        "Packet Identifier 0 on a QoS>0 PUBLISH"@
                    },
                    Some((_, s2)) => PropertiesView::fault(s2),
                },
            },
        }
    }

    /// The fixed header flags: retain 1, QoS 2 and 4, DUP 8.
    pub open spec fn flags(self) -> u8 {
        ((if self.dup {
            8int
        } else {
            0
        }) + 2 * self.qos.code() + (if self.retain {
            1int
        } else {
            0
        })) as u8
    }

    /// The body of a PUBLISH packet.
    pub open spec fn bytes(self, version: ProtocolVersion) -> Seq<u8> {
        wire::text(self.topic) + (if self.qos is AtMostOnce {
            Seq::empty()
        } else {
            wire::be16(self.packet_id->0)
        }) + connect::properties_bytes(version is V5, self.properties) + self.payload
    }

    /// Whether a packet identifier is missing.
    pub open spec fn lacks_id(self) -> bool {
        !(self.qos is AtMostOnce) && self.packet_id is None
    }

    pub open spec fn encodable(self, version: ProtocolVersion) -> bool {
        !self.lacks_id() && connect::properties_encodable(version is V5, self.properties)
    }

    /// Whether reading back what is written gives this packet.
    pub open spec fn sendable(self, version: ProtocolVersion) -> bool {
        &&& wire::sendable_text(self.topic)
        &&& connect::properties_sendable(version is V5, self.properties)
        &&& if self.qos is AtMostOnce {
            !self.dup && self.packet_id is None
        } else {
            self.packet_id matches Some(id) && id != 0
        }
    }
}

/// A PUBLISH packet that can be sent reads back as it was written.
pub proof fn publish_roundtrip(p: PublishView, version: ProtocolVersion)
    requires
        p.sendable(version),
    ensures
        PublishView::parse(p.flags(), version, p.bytes(version)) == Some(p),
{
    reveal(connect::has_bit);
    let v5 = version is V5;
    crate::types::qos_codes(p.qos, 0);
    assert((p.flags() / 2) % 4 == p.qos.code());
    let s2 = connect::properties_bytes(v5, p.properties) + p.payload;
    let s1 = (if p.qos is AtMostOnce {
        Seq::empty()
    } else {
        wire::be16(p.packet_id->0)
    }) + s2;
    assert(p.bytes(version) =~= wire::text(p.topic) + s1);
    wire::text_roundtrip(p.topic, s1);
    if p.qos is AtMostOnce {
        assert(s1 =~= s2);
    } else {
        wire::lemma_be16_roundtrip(p.packet_id->0, s2);
    }
    connect::lemma_properties_roundtrip(v5, p.properties, p.payload);
}

impl Publish {
    /// Reads the body of a PUBLISH packet with the given fixed header flags.
    pub fn decode(flags: u8, r: &mut Reader, version: ProtocolVersion) -> (res: Result<Publish>)
        ensures
            match res {
                Ok(p) => PublishView::parse(flags, version, old(r)@) == Some(p@),
                Err(e) => PublishView::parse(flags, version, old(r)@) is None && e.says_malformed(
                    PublishView::fault(flags, version, old(r)@),
                ),
            },
            wire::is_tail(final(r)@, old(r)@),
            res is Ok ==> final(r)@.len() == 0,
    {
        let dup: bool = bit(flags, 8);
        let qos: QoS = QoS::from_u8((flags / 2) % 4)?;
        let retain: bool = bit(flags, 1);
        if qos == QoS::AtMostOnce && dup {
            return Err(malformed("DUP set on a QoS 0 PUBLISH"));
        }
        let topic: String = r.utf8()?;
        let packet_id: Option<u16> = if qos == QoS::AtMostOnce {
            None
        } else {
            let id: u16 = r.u16()?;
            if id == 0 {
                return Err(malformed("Packet Identifier 0 on a QoS>0 PUBLISH"));
            }
            Some(id)
        };
        let properties: Properties = decode_properties(version.has_properties(), r)?;
        let ghost left = r@;
        let payload: Vec<u8> = slice_to_vec(r.rest());
        assert(r@ =~= left.skip(left.len() as int));
        assert(wire::is_tail(r@, left));
        Ok(Publish { dup, qos, retain, topic, packet_id, properties, payload })
    }

    /// The fixed header flags.
    pub fn fixed_flags(&self) -> (r: u8)
        ensures
            r == self@.flags(),
    {
        let mut f: u8 = 0;
        if self.dup {
            f = f + 8;
        }
        f = f + 2 * self.qos.as_u8();
        if self.retain {
            f = f + 1;
        }
        f
    }

    /// The body of the packet.
    pub fn encode_body(&self, version: ProtocolVersion) -> (res: Result<Vec<u8>>)
        ensures
            match res {
                Ok(b) => self@.encodable(version) && b@ == self@.bytes(version),
                Err(e) => !self@.encodable(version) && (if self@.lacks_id() {
                    e.says_malformed("QoS>0 PUBLISH missing packet id"@)
                } else {
                    e.is_overflow()
                }),
            },
    {
        let mut w: Writer = Writer::new();
        w.put_utf8(self.topic.as_str());
        if self.qos != QoS::AtMostOnce {
            match self.packet_id {
                Some(id) => w.put_u16(id),
                None => {
                    return Err(malformed("QoS>0 PUBLISH missing packet id"));
                },
            }
        }
        encode_properties(version.has_properties(), &self.properties, &mut w)?;
        w.put_bytes(self.payload.as_slice());
        assert(w@ =~= self@.bytes(version));
        Ok(w.into_vec())
    }
}

/// Shared by PUBACK, PUBREC, PUBREL and PUBCOMP.
///
/// Reason code and property length can be left out when the reason code is
/// Success and there are no properties; v3.x has neither.
#[derive(Debug)]
pub struct PubAck {
    pub packet_id: u16,
    pub reason_code: ReasonCode,
    pub properties: Properties,
}

/// What an acknowledgement says.
pub struct PubAckView {
    pub packet_id: u16,
    pub reason_code: ReasonCode,
    pub properties: PropertiesView,
}

impl View for PubAck {
    type V = PubAckView;

    open spec fn view(&self) -> PubAckView {
        PubAckView {
            packet_id: self.packet_id,
            reason_code: self.reason_code,
            properties: self.properties@,
        }
    }
}

/// A reason code and properties, of which the properties, or both, can be left
/// out at the end of a packet: Success and no properties then.
pub open spec fn parse_reason(v5: bool, left: nat, s: Seq<u8>) -> Option<
    ((ReasonCode, PropertiesView), Seq<u8>),
> {
    if !v5 || left == 0 {
        Some(((ReasonCode::Success, PropertiesView::empty()), s))
    } else {
        match wire::parse_u8(s) {
            None => None,
            Some((code, s1)) => match ReasonCode::of_code(code) {
                None => None,
                Some(rc) => if left == 1 {
                    Some(((rc, PropertiesView::empty()), s1))
                } else {
                    match PropertiesView::parse(s1) {
                        None => None,
                        Some((p, rest)) => Some(((rc, p), rest)),
                    }
                },
            },
        }
    }
}

/// What is said of bytes that begin with no reason code and properties.
pub open spec fn reason_fault(s: Seq<u8>) -> Seq<char> {
    match wire::parse_u8(s) {
        None => wire::truncated_text(1, s.len()),
        Some((code, s1)) => if ReasonCode::of_code(code) is None {
            "unknown reason code 0x"@ + crate::text::hex_byte_upper(code)
        } else {
            PropertiesView::fault(s1)
        },
    }
}

/// The bytes of a reason code and properties at the end of a packet.
pub open spec fn reason_bytes(v5: bool, rc: ReasonCode, p: PropertiesView) -> Seq<u8> {
    if !v5 || reason_omitted(rc, p) {
        Seq::empty()
    } else {
        seq![rc.code()] + p.bytes()
    }
}

/// Whether reason code and properties are left out.
pub open spec fn reason_omitted(rc: ReasonCode, p: PropertiesView) -> bool {
    rc is Success && p == PropertiesView::empty()
}

pub open spec fn reason_encodable(v5: bool, rc: ReasonCode, p: PropertiesView) -> bool {
    v5 && !reason_omitted(rc, p) ==> p.encodable()
}

pub open spec fn reason_sendable(v5: bool, rc: ReasonCode, p: PropertiesView) -> bool {
    if v5 {
        p.sendable()
    } else {
        reason_omitted(rc, p)
    }
}

pub(crate) proof fn lemma_reason_roundtrip(v5: bool, rc: ReasonCode, p: PropertiesView)
    requires
        reason_sendable(v5, rc, p),
    ensures
        parse_reason(v5, reason_bytes(v5, rc, p).len(), reason_bytes(v5, rc, p)) == Some(
            ((rc, p), Seq::<u8>::empty()),
        ),
{
    if v5 && !reason_omitted(rc, p) {
        let s = reason_bytes(v5, rc, p);
        assert(s.skip(1) =~= p.bytes() + Seq::empty());
        crate::types::reason_codes(rc, 0);
        crate::codec::properties_roundtrip(p, Seq::empty());
        reveal(PropertiesView::bytes);
        assert(p.bytes().len() >= 1);
    }
}

pub(crate) fn decode_reason(v5: bool, left: usize, r: &mut Reader) -> (res: Result<
    (ReasonCode, Properties),
>)
    ensures
        match res {
            Ok(p) => parse_reason(v5, left as nat, old(r)@) == Some(((p.0, p.1@), final(r)@)),
            Err(e) => parse_reason(v5, left as nat, old(r)@) is None && e.says_malformed(
                reason_fault(old(r)@),
            ),
        },
        wire::is_tail(final(r)@, old(r)@),
{
    if !v5 || left == 0 {
        return Ok((ReasonCode::Success, Properties::new()));
    }
    let reason_code: ReasonCode = ReasonCode::from_u8(r.u8()?)?;
    if left == 1 {
        return Ok((reason_code, Properties::new()));
    }
    let properties: Properties = Properties::decode(r)?;
    Ok((reason_code, properties))
}

pub(crate) fn encode_reason(v5: bool, rc: ReasonCode, p: &Properties, w: &mut Writer) -> (res:
    Result<()>)
    ensures
        match res {
            Ok(_) => reason_encodable(v5, rc, p@) && final(w)@ == old(w)@ + reason_bytes(
                v5,
                rc,
                p@,
            ),
            Err(e) => !reason_encodable(v5, rc, p@) && e.is_overflow(),
        },
{
    if !v5 || (rc == ReasonCode::Success && p.is_empty()) {
        assert(w@ =~= old(w)@ + Seq::<u8>::empty());
        return Ok(());
    }
    w.put_u8(rc.as_u8());
    p.encode(w)?;
    assert(w@ =~= old(w)@ + reason_bytes(v5, rc, p@));
    Ok(())
}

impl PubAckView {
    /// Reads the body of an acknowledgement of `len` bytes.
    pub open spec fn parse(len: nat, version: ProtocolVersion, s: Seq<u8>) -> Option<
        (PubAckView, Seq<u8>),
    > {
        match wire::parse_u16(s) {
            None => None,
            Some((packet_id, s1)) => match parse_reason(
                version is V5,
                if len < 2 {
                    0
                } else {
                    (len - 2) as nat
                },
                s1,
            ) {
                None => None,
                Some(((reason_code, properties), rest)) => Some(
                    (PubAckView { packet_id, reason_code, properties }, rest),
                ),
            },
        }
    }

    /// What is said of bytes that are no body of an acknowledgement.
    pub open spec fn fault(s: Seq<u8>) -> Seq<char> {
        match wire::parse_u16(s) {
            None => wire::truncated_text(2, s.len()),
            Some((_, s1)) => reason_fault(s1),
        }
    }

    /// The body of an acknowledgement.
    pub open spec fn bytes(self, version: ProtocolVersion) -> Seq<u8> {
        wire::be16(self.packet_id) + reason_bytes(
            version is V5,
            self.reason_code,
            self.properties,
        )
    }

    pub open spec fn encodable(self, version: ProtocolVersion) -> bool {
        reason_encodable(version is V5, self.reason_code, self.properties)
    }

    /// Whether reading back what is written gives this packet.
    pub open spec fn sendable(self, version: ProtocolVersion) -> bool {
        reason_sendable(version is V5, self.reason_code, self.properties)
    }
}

/// An acknowledgement that can be sent reads back as it was written.
pub proof fn puback_roundtrip(p: PubAckView, version: ProtocolVersion)
    requires
        p.sendable(version),
    ensures
        PubAckView::parse(p.bytes(version).len(), version, p.bytes(version)) == Some(
            (p, Seq::<u8>::empty()),
        ),
{
    let tail = reason_bytes(version is V5, p.reason_code, p.properties);
    wire::lemma_be16_roundtrip(p.packet_id, tail);
    lemma_reason_roundtrip(version is V5, p.reason_code, p.properties);
}

impl PubAck {
    pub fn new(packet_id: u16, reason_code: ReasonCode) -> (r: Self)
        ensures
            r@ == (PubAckView { packet_id, reason_code, properties: PropertiesView::empty() }),
    {
        PubAck { packet_id, reason_code, properties: Properties::new() }
    }

    /// Reads the body of an acknowledgement of `remaining_len` bytes.
    pub fn decode(r: &mut Reader, remaining_len: usize, version: ProtocolVersion) -> (res: Result<
        PubAck,
    >)
        ensures
            match res {
                Ok(p) => PubAckView::parse(remaining_len as nat, version, old(r)@) == Some(
                    (p@, final(r)@),
                ),
                Err(e) => PubAckView::parse(remaining_len as nat, version, old(r)@) is None
                    && e.says_malformed(PubAckView::fault(old(r)@)),
            },
            wire::is_tail(final(r)@, old(r)@),
    {
        let packet_id: u16 = r.u16()?;
        let left: usize = if remaining_len < 2 {
            0
        } else {
            remaining_len - 2
        };
        let (reason_code, properties): (ReasonCode, Properties) = decode_reason(
            version.has_properties(),
            left,
            r,
        )?;
        Ok(PubAck { packet_id, reason_code, properties })
    }

    /// The body of the packet.
    pub fn encode_body(&self, version: ProtocolVersion) -> (res: Result<Vec<u8>>)
        ensures
            match res {
                Ok(b) => self@.encodable(version) && b@ == self@.bytes(version),
                Err(e) => !self@.encodable(version) && e.is_overflow(),
            },
    {
        let mut w: Writer = Writer::new();
        w.put_u16(self.packet_id);
        encode_reason(version.has_properties(), self.reason_code, &self.properties, &mut w)?;
        assert(w@ =~= self@.bytes(version));
        Ok(w.into_vec())
    }
}

} // verus!
