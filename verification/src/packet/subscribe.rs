//! SUBSCRIBE, SUBACK, UNSUBSCRIBE and UNSUBACK.

use vstd::prelude::*;
use crate::codec::{wire, Properties, PropertiesView, Reader, Writer};
use crate::error::{malformed, Result};
use crate::packet::connect;
use crate::packet::connect::{bit, decode_properties, encode_properties};
use crate::types::{ProtocolVersion, QoS, ReasonCode};

verus! {

broadcast use wire::group_tail;

/// Retain handling option of a subscription.
#[derive(Debug, Clone, Copy, PartialEq, Eq, Structural)]
pub enum RetainHandling {
    /// Send retained messages at the time of the subscribe.
    SendAtSubscribe,
    /// Send retained messages only if the subscription did not exist before.
    SendIfNewSubscription,
    /// Do not send retained messages at subscribe time.
    DoNotSend,
}

impl RetainHandling {
    pub open spec fn code(self) -> u8 {
        match self {
            RetainHandling::SendAtSubscribe => 0,
            RetainHandling::SendIfNewSubscription => 1,
            RetainHandling::DoNotSend => 2,
        }
    }

    pub open spec fn of_code(v: u8) -> Option<RetainHandling> {
        match v {
            0 => Some(RetainHandling::SendAtSubscribe),
            1 => Some(RetainHandling::SendIfNewSubscription),
            2 => Some(RetainHandling::DoNotSend),
            _ => None,
        }
    }

    /// The option with the given number; any other is malformed.
    pub fn from_u8(v: u8) -> (r: Result<Self>)
        ensures
            match r {
                Ok(x) => Self::of_code(v) == Some(x),
                Err(e) => Self::of_code(v) is None && e.says_malformed(
                    "invalid Retain Handling value 3"@,
                ),
            },
    {
        Ok(
            match v {
                0 => RetainHandling::SendAtSubscribe,
                1 => RetainHandling::SendIfNewSubscription,
                2 => RetainHandling::DoNotSend,
                _ => {
                    return Err(malformed("invalid Retain Handling value 3"));
                },
            },
        )
    }

    pub fn as_u8(self) -> (r: u8)
        ensures
            r == self.code(),
    {
        match self {
            RetainHandling::SendAtSubscribe => 0,
            RetainHandling::SendIfNewSubscription => 1,
            RetainHandling::DoNotSend => 2,
        }
    }
}

/// One entry of a SUBSCRIBE payload: a topic filter and its options.
#[derive(Debug)]
pub struct TopicFilter {
    pub filter: String,
    pub qos: QoS,
    pub no_local: bool,
    pub retain_as_published: bool,
    pub retain_handling: RetainHandling,
}

/// What an entry of a SUBSCRIBE payload says.
pub struct TopicFilterView {
    pub filter: Seq<char>,
    pub qos: QoS,
    pub no_local: bool,
    pub retain_as_published: bool,
    pub retain_handling: RetainHandling,
}

impl View for TopicFilter {
    type V = TopicFilterView;

    open spec fn view(&self) -> TopicFilterView {
        TopicFilterView {
            filter: self.filter@,
            qos: self.qos,
            no_local: self.no_local,
            retain_as_published: self.retain_as_published,
            retain_handling: self.retain_handling,
        }
    }
}

impl TopicFilterView {
    /// The options byte: QoS 1 and 2, no local 4, retain as published 8, retain
    /// handling 16 and 32.
    pub open spec fn options(self) -> u8 {
        (self.qos.code() + (if self.no_local {
            4int
        } else {
            0
        }) + (if self.retain_as_published {
            8int
        } else {
            0
        }) + 16 * self.retain_handling.code()) as u8
    }

    /// The entry with the given filter and options; the upper two bits must be
    /// 0.
    pub open spec fn of_options(filter: Seq<char>, opts: u8) -> Option<TopicFilterView> {
        if opts >= 64 {
            None
        } else {
            match QoS::of_code(opts % 4) {
                None => None,
                Some(qos) => match RetainHandling::of_code(opts / 16) {
                    None => None,
                    Some(retain_handling) => Some(
                        TopicFilterView {
                            filter,
                            qos,
                            no_local: connect::has_bit(opts, 4),
                            retain_as_published: connect::has_bit(opts, 8),
                            retain_handling,
                        },
                    ),
                },
            }
        }
    }

    pub open spec fn parse(s: Seq<u8>) -> Option<(TopicFilterView, Seq<u8>)> {
        match wire::parse_text(s) {
            None => None,
            Some((filter, s1)) => match wire::parse_u8(s1) {
                None => None,
                Some((opts, rest)) => match Self::of_options(filter, opts) {
                    None => None,
                    Some(f) => Some((f, rest)),
                },
            },
        }
    }

    /// What is said of options that may not be.
    pub open spec fn options_fault(opts: u8) -> Seq<char> {
        if opts >= 64 {
            "reserved bits set in Subscription Options"@
        } else if QoS::of_code(opts % 4) is None {
            "invalid QoS "@ + crate::text::decimal((opts % 4) as nat)
        } else {
            "invalid Retain Handling value 3"@
        }
    }

    /// What is said of bytes that begin with no entry.
    pub open spec fn fault(s: Seq<u8>) -> Seq<char> {
        match wire::parse_text(s) {
            None => wire::text_fault(s),
            Some((_, s1)) => match wire::parse_u8(s1) {
                None => wire::truncated_text(1, s1.len()),
                Some((opts, _)) => Self::options_fault(opts),
            },
        }
    }

    pub open spec fn bytes(self) -> Seq<u8> {
        wire::text(self.filter).push(self.options())
    }
}

/// The entries so far and those that the bytes hold.
pub open spec fn parse_filters(acc: Seq<TopicFilterView>, s: Seq<u8>) -> Option<
    Seq<TopicFilterView>,
>
    decreases s.len(),
{
    if s.len() == 0 {
        Some(acc)
    } else {
        match TopicFilterView::parse(s) {
            None => None,
            Some((f, rest)) => if rest.len() < s.len() {
                parse_filters(acc.push(f), rest)
            } else {
                None
            },
        }
    }
}

/// What is said of bytes that are no entries.
pub open spec fn filters_fault(s: Seq<u8>) -> Seq<char>
    decreases s.len(),
{
    match TopicFilterView::parse(s) {
        Some((_, rest)) => if rest.len() < s.len() {
            filters_fault(rest)
        } else {
            TopicFilterView::fault(s)
        },
        None => TopicFilterView::fault(s),
    }
}

pub open spec fn filters_bytes(fs: Seq<TopicFilterView>) -> Seq<u8>
    decreases fs.len(),
{
    if fs.len() == 0 {
        Seq::empty()
    } else {
        filters_bytes(fs.drop_last()) + fs.last().bytes()
    }
}

proof fn lemma_filter_shrinks(s: Seq<u8>)
    ensures
        TopicFilterView::parse(s) matches Some((f, rest)) ==> rest.len() < s.len(),
{
    wire::lemma_prefixed_shrinks(s);
}

proof fn lemma_filter_roundtrip(f: TopicFilterView, rest: Seq<u8>)
    requires
        wire::sendable_text(f.filter),
    ensures
        TopicFilterView::parse(f.bytes() + rest) == Some((f, rest)),
{
    let s1 = seq![f.options()] + rest;
    assert(f.bytes() + rest =~= wire::text(f.filter) + s1);
    wire::text_roundtrip(f.filter, s1);
    assert(s1.skip(1) =~= rest);
    reveal(connect::has_bit);
    crate::types::qos_codes(f.qos, 0);
    let o = f.options();
    assert(o % 4 == f.qos.code());
    assert(o / 16 == f.retain_handling.code());
}

proof fn lemma_filters_roundtrip(acc: Seq<TopicFilterView>, fs: Seq<TopicFilterView>, rest: Seq<u8>)
    requires
        forall|i: int| 0 <= i < fs.len() ==> wire::sendable_text(#[trigger] fs[i].filter),
    ensures
        parse_filters(acc, filters_bytes(fs) + rest) == parse_filters(acc + fs, rest),
    decreases fs.len(),
{
    if fs.len() == 0 {
        assert(filters_bytes(fs) + rest =~= rest);
        assert(acc + fs =~= acc);
    } else {
        let one = fs.last().bytes() + rest;
        assert(filters_bytes(fs) + rest =~= filters_bytes(fs.drop_last()) + one);
        assert forall|i: int| 0 <= i < fs.drop_last().len() implies wire::sendable_text(
            #[trigger] fs.drop_last()[i].filter,
        ) by {
            assert(wire::sendable_text(fs[i].filter));
        }
        lemma_filters_roundtrip(acc, fs.drop_last(), one);
        assert(wire::sendable_text(fs[fs.len() - 1].filter));
        lemma_filter_roundtrip(fs.last(), rest);
        lemma_filter_shrinks(one);
        assert((acc + fs.drop_last()).push(fs.last()) =~= acc + fs);
    }
}

#[derive(Debug)]
pub struct Subscribe {
    pub packet_id: u16,
    pub properties: Properties,
    pub filters: Vec<TopicFilter>,
}

/// What a SUBSCRIBE packet says.
pub struct SubscribeView {
    pub packet_id: u16,
    pub properties: PropertiesView,
    pub filters: Seq<TopicFilterView>,
}

impl View for Subscribe {
    type V = SubscribeView;

    open spec fn view(&self) -> SubscribeView {
        SubscribeView {
            packet_id: self.packet_id,
            properties: self.properties@,
            filters: crate::text::views(self.filters@),
        }
    }
}

impl SubscribeView {
    /// Reads the body of a SUBSCRIBE packet: the packet identifier is not 0 and
    /// there is at least one filter.
    pub open spec fn parse(version: ProtocolVersion, s: Seq<u8>) -> Option<SubscribeView> {
        match wire::parse_u16(s) {
            None => None,
            Some((packet_id, s1)) => if packet_id == 0 {
                None
            } else {
                match connect::parse_properties(version is V5, s1) {
                    None => None,
                    Some((properties, s2)) => match parse_filters(Seq::empty(), s2) {
                        None => None,
                        Some(filters) => if filters.len() == 0 {
                            None
                        } else {
                            Some(SubscribeView { packet_id, properties, filters })
                        },
                    },
                }
            },
        }
    }

    /// What is said of bytes that are no body of a SUBSCRIBE packet.
    pub open spec fn fault(version: ProtocolVersion, s: Seq<u8>) -> Seq<char> {
        match wire::parse_u16(s) {
            None => wire::truncated_text(2, s.len()),
            Some((packet_id, s1)) => if packet_id == 0 {
                "SUBSCRIBE with Packet Identifier 0"@
            } else {
                match connect::parse_properties(version is V5, s1) {
                    None => PropertiesView::fault(s1),
                    Some((_, s2)) => if s2.len() == 0 {
                        "SUBSCRIBE with no Topic Filters"@
                    } else {
                        filters_fault(s2)
                    },
                }
            },
        }
    }

    pub open spec fn bytes(self, version: ProtocolVersion) -> Seq<u8> {
        wire::be16(self.packet_id) + connect::properties_bytes(version is V5, self.properties)
            + filters_bytes(self.filters)
    }

    pub open spec fn encodable(self, version: ProtocolVersion) -> bool {
        connect::properties_encodable(version is V5, self.properties)
    }

    /// Whether reading back what is written gives this packet.
    pub open spec fn sendable(self, version: ProtocolVersion) -> bool {
        &&& self.packet_id != 0
        &&& connect::properties_sendable(version is V5, self.properties)
        &&& self.filters.len() > 0
        &&& forall|i: int|
            0 <= i < self.filters.len() ==> wire::sendable_text(#[trigger] self.filters[i].filter)
    }
}

/// A SUBSCRIBE packet that can be sent reads back as it was written.
pub proof fn subscribe_roundtrip(p: SubscribeView, version: ProtocolVersion)
    requires
        p.sendable(version),
    ensures
        SubscribeView::parse(version, p.bytes(version)) == Some(p),
{
    let s2 = filters_bytes(p.filters);
    let s1 = connect::properties_bytes(version is V5, p.properties) + s2;
    assert(p.bytes(version) =~= wire::be16(p.packet_id) + s1);
    wire::lemma_be16_roundtrip(p.packet_id, s1);
    connect::lemma_properties_roundtrip(version is V5, p.properties, s2);
    assert(s2 + Seq::<u8>::empty() =~= s2);
    lemma_filters_roundtrip(Seq::empty(), p.filters, Seq::empty());
    assert(Seq::<TopicFilterView>::empty() + p.filters =~= p.filters);
}

impl TopicFilter {
    fn decode(r: &mut Reader) -> (res: Result<TopicFilter>)
        ensures
            match res {
                Ok(f) => TopicFilterView::parse(old(r)@) == Some((f@, final(r)@)),
                Err(e) => TopicFilterView::parse(old(r)@) is None && e.says_malformed(
                    TopicFilterView::fault(old(r)@),
                ),
            },
            wire::is_tail(final(r)@, old(r)@),
    {
        let filter: String = r.utf8()?;
        let opts: u8 = r.u8()?;
        if opts >= 64 {
            return Err(malformed("reserved bits set in Subscription Options"));
        }
        let qos: QoS = QoS::from_u8(opts % 4)?;
        let no_local: bool = bit(opts, 4);
        let retain_as_published: bool = bit(opts, 8);
        let retain_handling: RetainHandling = RetainHandling::from_u8(opts / 16)?;
        Ok(TopicFilter { filter, qos, no_local, retain_as_published, retain_handling })
    }

    fn options_byte(&self) -> (r: u8)
        ensures
            r == self@.options(),
    {
        let mut opts: u8 = self.qos.as_u8();
        if self.no_local {
            opts = opts + 4;
        }
        if self.retain_as_published {
            opts = opts + 8;
        }
        opts + 16 * self.retain_handling.as_u8()
    }
}

impl Subscribe {
    /// Reads the body of a SUBSCRIBE packet.
    pub fn decode(r: &mut Reader, version: ProtocolVersion) -> (res: Result<Subscribe>)
        ensures
            match res {
                Ok(p) => SubscribeView::parse(version, old(r)@) == Some(p@),
                Err(e) => SubscribeView::parse(version, old(r)@) is None && e.says_malformed(
                    SubscribeView::fault(version, old(r)@),
                ),
            },
            wire::is_tail(final(r)@, old(r)@),
            res is Ok ==> final(r)@.len() == 0,
    {
        let packet_id: u16 = r.u16()?;
        if packet_id == 0 {
            return Err(malformed("SUBSCRIBE with Packet Identifier 0"));
        }
        let properties: Properties = decode_properties(version.has_properties(), r)?;
        let ghost body = r@;
        let mut filters: Vec<TopicFilter> = Vec::new();
        assert(crate::text::views(filters@) =~= Seq::empty());
        while r.has_remaining()
            invariant
                wire::is_tail(r@, old(r)@),
                parse_filters(crate::text::views(filters@), r@) == parse_filters(
                    Seq::empty(),
                    body,
                ),
                wire::parse_u16(old(r)@) matches Some((id, s1)) && id == packet_id && id != 0
                    && connect::parse_properties(version is V5, s1) == Some((properties@, body)),
                filters@.len() == 0 ==> r@ == body,
                r@.len() > 0 ==> filters_fault(r@) == filters_fault(body),
                filters@.len() > 0 ==> body.len() > 0,
            decreases r@.len(),
        {
            let ghost before = crate::text::views(filters@);
            proof {
                lemma_filter_shrinks(r@);
            }
            let f: TopicFilter = TopicFilter::decode(r)?;
            filters.push(f);
            assert(crate::text::views(filters@) =~= before.push(f@));
        }
        if filters.len() == 0 {
            return Err(malformed("SUBSCRIBE with no Topic Filters"));
        }
        Ok(Subscribe { packet_id, properties, filters })
    }

    /// The body of the packet.
    pub fn encode_body(&self, version: ProtocolVersion) -> (res: Result<Vec<u8>>)
        ensures
            match res {
                Ok(b) => self@.encodable(version) && b@ == self@.bytes(version),
                Err(e) => !self@.encodable(version) && e.is_overflow(),
            },
    {
        let mut w: Writer = Writer::new();
        w.put_u16(self.packet_id);
        encode_properties(version.has_properties(), &self.properties, &mut w)?;
        let ghost head = w@;
        let ghost all = self@.filters;
        let mut i: usize = 0;
        assert(head =~= head + filters_bytes(all.take(0)));
        while i < self.filters.len()
            invariant
                i <= self.filters.len(),
                all == crate::text::views(self.filters@),
                w@ == head + filters_bytes(all.take(i as int)),
            decreases self.filters.len() - i,
        {
            let f: &TopicFilter = &self.filters[i];
            w.put_utf8(f.filter.as_str());
            w.put_u8(f.options_byte());
            proof {
                let t = all.take(i + 1);
                assert(t.drop_last() =~= all.take(i as int));
                assert(t.last() == f@);
                assert(w@ =~= head + filters_bytes(t));
            }
            i = i + 1;
        }
        assert(all.take(all.len() as int) =~= all);
        assert(w@ =~= self@.bytes(version));
        Ok(w.into_vec())
    }
}

/// SUBACK and UNSUBACK share this shape: a packet identifier, properties and a
/// reason code for each requested filter.
#[derive(Debug)]
pub struct SubAck {
    pub packet_id: u16,
    pub properties: Properties,
    pub reason_codes: Vec<ReasonCode>,
}

/// What a SUBACK or UNSUBACK packet says.
pub struct SubAckView {
    pub packet_id: u16,
    pub properties: PropertiesView,
    pub reason_codes: Seq<ReasonCode>,
}

impl View for SubAck {
    type V = SubAckView;

    open spec fn view(&self) -> SubAckView {
        SubAckView {
            packet_id: self.packet_id,
            properties: self.properties@,
            reason_codes: self.reason_codes@,
        }
    }
}

/// The reason codes so far and those that the bytes stand for, one each.
pub open spec fn parse_codes(acc: Seq<ReasonCode>, s: Seq<u8>) -> Option<Seq<ReasonCode>>
    decreases s.len(),
{
    if s.len() == 0 {
        Some(acc)
    } else {
        match ReasonCode::of_code(s[0]) {
            None => None,
            Some(rc) => parse_codes(acc.push(rc), s.skip(1)),
        }
    }
}

/// What is said of bytes that are not all reason codes.
pub open spec fn codes_fault(s: Seq<u8>) -> Seq<char>
    decreases s.len(),
{
    if s.len() == 0 || ReasonCode::of_code(s[0]) is None {
        "unknown reason code 0x"@ + crate::text::hex_byte_upper(s[0])
    } else {
        codes_fault(s.skip(1))
    }
}

/// The byte that stands for a reason code in a SUBACK: v3.x knows the granted
/// levels and one failure.
pub open spec fn suback_byte(v5: bool, rc: ReasonCode) -> u8 {
    if v5 || rc.code() < 0x80 {
        rc.code()
    } else {
        0x80
    }
}

pub open spec fn codes_bytes(v5: bool, codes: Seq<ReasonCode>) -> Seq<u8> {
    Seq::new(codes.len(), |i: int| suback_byte(v5, codes[i]))
}

proof fn lemma_codes_roundtrip(v5: bool, acc: Seq<ReasonCode>, codes: Seq<ReasonCode>)
    requires
        forall|i: int|
            0 <= i < codes.len() ==> suback_byte(v5, #[trigger] codes[i]) == codes[i].code(),
    ensures
        parse_codes(acc, codes_bytes(v5, codes)) == Some(acc + codes),
    decreases codes.len(),
{
    if codes.len() == 0 {
        assert(acc + codes =~= acc);
    } else {
        let s = codes_bytes(v5, codes);
        assert(suback_byte(v5, codes[0]) == codes[0].code());
        crate::types::reason_codes(codes[0], 0);
        assert(s.skip(1) =~= codes_bytes(v5, codes.skip(1)));
        assert forall|i: int| 0 <= i < codes.skip(1).len() implies suback_byte(
            v5,
            #[trigger] codes.skip(1)[i],
        ) == codes.skip(1)[i].code() by {
            assert(suback_byte(v5, codes[i + 1]) == codes[i + 1].code());
        }
        lemma_codes_roundtrip(v5, acc.push(codes[0]), codes.skip(1));
        assert(acc.push(codes[0]) + codes.skip(1) =~= acc + codes);
    }
}

impl SubAckView {
    /// Reads the body of a SUBACK or UNSUBACK packet.
    pub open spec fn parse(version: ProtocolVersion, s: Seq<u8>) -> Option<SubAckView> {
        match wire::parse_u16(s) {
            None => None,
            Some((packet_id, s1)) => match connect::parse_properties(version is V5, s1) {
                None => None,
                Some((properties, s2)) => match parse_codes(Seq::empty(), s2) {
                    None => None,
                    Some(reason_codes) => Some(SubAckView { packet_id, properties, reason_codes }),
                },
            },
        }
    }

    /// What is said of bytes that are no body of a SUBACK packet.
    pub open spec fn fault(version: ProtocolVersion, s: Seq<u8>) -> Seq<char> {
        match wire::parse_u16(s) {
            None => wire::truncated_text(2, s.len()),
            Some((_, s1)) => match connect::parse_properties(version is V5, s1) {
                None => PropertiesView::fault(s1),
                Some((_, s2)) => codes_fault(s2),
            },
        }
    }

    /// The body of a SUBACK packet.
    pub open spec fn bytes(self, version: ProtocolVersion) -> Seq<u8> {
        wire::be16(self.packet_id) + connect::properties_bytes(version is V5, self.properties)
            + codes_bytes(version is V5, self.reason_codes)
    }

    /// The body of an UNSUBACK packet, which has no reason codes in v3.x.
    pub open spec fn unsuback_bytes(self, version: ProtocolVersion) -> Seq<u8> {
        if version is V5 {
            self.bytes(version)
        } else {
            wire::be16(self.packet_id)
        }
    }

    pub open spec fn encodable(self, version: ProtocolVersion) -> bool {
        connect::properties_encodable(version is V5, self.properties)
    }

    /// Whether reading back a SUBACK gives this packet.
    pub open spec fn sendable(self, version: ProtocolVersion) -> bool {
        &&& connect::properties_sendable(version is V5, self.properties)
        &&& forall|i: int|
            0 <= i < self.reason_codes.len() ==> suback_byte(
                version is V5,
                #[trigger] self.reason_codes[i],
            ) == self.reason_codes[i].code()
    }

    /// Whether reading back an UNSUBACK gives this packet.
    pub open spec fn unsuback_sendable(self, version: ProtocolVersion) -> bool {
        &&& self.sendable(version)
        &&& version is V5 || self.reason_codes.len() == 0
    }
}

/// A SUBACK packet that can be sent reads back as it was written.
pub proof fn suback_roundtrip(p: SubAckView, version: ProtocolVersion)
    requires
        p.sendable(version),
    ensures
        SubAckView::parse(version, p.bytes(version)) == Some(p),
{
    let s2 = codes_bytes(version is V5, p.reason_codes);
    let s1 = connect::properties_bytes(version is V5, p.properties) + s2;
    assert(p.bytes(version) =~= wire::be16(p.packet_id) + s1);
    wire::lemma_be16_roundtrip(p.packet_id, s1);
    connect::lemma_properties_roundtrip(version is V5, p.properties, s2);
    lemma_codes_roundtrip(version is V5, Seq::empty(), p.reason_codes);
    assert(Seq::<ReasonCode>::empty() + p.reason_codes =~= p.reason_codes);
}

/// An UNSUBACK packet that can be sent reads back as it was written.
pub proof fn unsuback_roundtrip(p: SubAckView, version: ProtocolVersion)
    requires
        p.unsuback_sendable(version),
    ensures
        SubAckView::parse(version, p.unsuback_bytes(version)) == Some(p),
{
    suback_roundtrip(p, version);
    if !(version is V5) {
        assert(p.unsuback_bytes(version) =~= p.bytes(version));
    }
}

impl SubAck {
    pub fn new(packet_id: u16, reason_codes: Vec<ReasonCode>) -> (r: Self)
        ensures
            r@ == (SubAckView {
                packet_id,
                properties: PropertiesView::empty(),
                reason_codes: reason_codes@,
            }),
    {
        SubAck { packet_id, properties: Properties::new(), reason_codes }
    }

    /// Reads the body of a SUBACK or UNSUBACK packet.
    pub fn decode(r: &mut Reader, version: ProtocolVersion) -> (res: Result<SubAck>)
        ensures
            match res {
                Ok(p) => SubAckView::parse(version, old(r)@) == Some(p@),
                Err(e) => SubAckView::parse(version, old(r)@) is None && e.says_malformed(
                    SubAckView::fault(version, old(r)@),
                ),
            },
            wire::is_tail(final(r)@, old(r)@),
            res is Ok ==> final(r)@.len() == 0,
    {
        let packet_id: u16 = r.u16()?;
        let properties: Properties = decode_properties(version.has_properties(), r)?;
        let ghost body = r@;
        let mut reason_codes: Vec<ReasonCode> = Vec::new();
        while r.has_remaining()
            invariant
                wire::is_tail(r@, old(r)@),
                parse_codes(reason_codes@, r@) == parse_codes(Seq::empty(), body),
                r@.len() > 0 ==> codes_fault(r@) == codes_fault(body),
                wire::parse_u16(old(r)@) matches Some((id, s1)) && id == packet_id
                    && connect::parse_properties(version is V5, s1) == Some((properties@, body)),
            decreases r@.len(),
        {
            let rc: ReasonCode = ReasonCode::from_u8(r.u8()?)?;
            reason_codes.push(rc);
        }
        Ok(SubAck { packet_id, properties, reason_codes })
    }

    /// The body of a SUBACK packet.
    pub fn encode_body(&self, version: ProtocolVersion) -> (res: Result<Vec<u8>>)
        ensures
            match res {
                Ok(b) => self@.encodable(version) && b@ == self@.bytes(version),
                Err(e) => !self@.encodable(version) && e.is_overflow(),
            },
    {
        let v5: bool = version.has_properties();
        let mut w: Writer = Writer::new();
        w.put_u16(self.packet_id);
        encode_properties(v5, &self.properties, &mut w)?;
        let ghost head = w@;
        let mut i: usize = 0;
        while i < self.reason_codes.len()
            invariant
                i <= self.reason_codes.len(),
                w@ == head + codes_bytes(v5, self.reason_codes@.take(i as int)),
            decreases self.reason_codes.len() - i,
        {
            let rc: ReasonCode = self.reason_codes[i];
            w.put_u8(
                if v5 || !rc.is_error() {
                    rc.as_u8()
                } else {
                    0x80
                },
            );
            assert(w@ =~= head + codes_bytes(v5, self.reason_codes@.take(i + 1)));
            i = i + 1;
        }
        assert(self.reason_codes@.take(self.reason_codes@.len() as int) =~= self.reason_codes@);
        assert(w@ =~= self@.bytes(version));
        Ok(w.into_vec())
    }

    /// The body of an UNSUBACK packet.
    pub fn encode_unsuback_body(&self, version: ProtocolVersion) -> (res: Result<Vec<u8>>)
        ensures
            match res {
                Ok(b) => self@.encodable(version) && b@ == self@.unsuback_bytes(version),
                Err(e) => !self@.encodable(version) && e.is_overflow(),
            },
    {
        if version.has_properties() {
            return self.encode_body(version);
        }
        let mut w: Writer = Writer::new();
        w.put_u16(self.packet_id);
        assert(w@ =~= self@.unsuback_bytes(version));
        Ok(w.into_vec())
    }
}

#[derive(Debug)]
pub struct Unsubscribe {
    pub packet_id: u16,
    pub properties: Properties,
    pub filters: Vec<String>,
}

/// What an UNSUBSCRIBE packet says.
pub struct UnsubscribeView {
    pub packet_id: u16,
    pub properties: PropertiesView,
    pub filters: Seq<Seq<char>>,
}

impl View for Unsubscribe {
    type V = UnsubscribeView;

    open spec fn view(&self) -> UnsubscribeView {
        UnsubscribeView {
            packet_id: self.packet_id,
            properties: self.properties@,
            filters: crate::text::views(self.filters@),
        }
    }
}

/// The strings so far and those that the bytes hold.
pub open spec fn parse_texts(acc: Seq<Seq<char>>, s: Seq<u8>) -> Option<Seq<Seq<char>>>
    decreases s.len(),
{
    if s.len() == 0 {
        Some(acc)
    } else {
        match wire::parse_text(s) {
            None => None,
            Some((t, rest)) => if rest.len() < s.len() {
                parse_texts(acc.push(t), rest)
            } else {
                None
            },
        }
    }
}

/// What is said of bytes that are no strings.
pub open spec fn texts_fault(s: Seq<u8>) -> Seq<char>
    decreases s.len(),
{
    match wire::parse_text(s) {
        Some((_, rest)) => if rest.len() < s.len() {
            texts_fault(rest)
        } else {
            wire::text_fault(s)
        },
        None => wire::text_fault(s),
    }
}

pub open spec fn texts_bytes(ts: Seq<Seq<char>>) -> Seq<u8>
    decreases ts.len(),
{
    if ts.len() == 0 {
        Seq::empty()
    } else {
        texts_bytes(ts.drop_last()) + wire::text(ts.last())
    }
}

proof fn lemma_texts_roundtrip(acc: Seq<Seq<char>>, ts: Seq<Seq<char>>, rest: Seq<u8>)
    requires
        forall|i: int| 0 <= i < ts.len() ==> wire::sendable_text(#[trigger] ts[i]),
    ensures
        parse_texts(acc, texts_bytes(ts) + rest) == parse_texts(acc + ts, rest),
    decreases ts.len(),
{
    if ts.len() == 0 {
        assert(texts_bytes(ts) + rest =~= rest);
        assert(acc + ts =~= acc);
    } else {
        let one = wire::text(ts.last()) + rest;
        assert(texts_bytes(ts) + rest =~= texts_bytes(ts.drop_last()) + one);
        assert forall|i: int| 0 <= i < ts.drop_last().len() implies wire::sendable_text(
            #[trigger] ts.drop_last()[i],
        ) by {
            assert(wire::sendable_text(ts[i]));
        }
        lemma_texts_roundtrip(acc, ts.drop_last(), one);
        assert(wire::sendable_text(ts[ts.len() - 1]));
        wire::text_roundtrip(ts.last(), rest);
        wire::lemma_prefixed_shrinks(one);
        assert((acc + ts.drop_last()).push(ts.last()) =~= acc + ts);
    }
}

impl UnsubscribeView {
    /// Reads the body of an UNSUBSCRIBE packet: the packet identifier is not 0
    /// and there is at least one filter.
    pub open spec fn parse(version: ProtocolVersion, s: Seq<u8>) -> Option<UnsubscribeView> {
        match wire::parse_u16(s) {
            None => None,
            Some((packet_id, s1)) => if packet_id == 0 {
                None
            } else {
                match connect::parse_properties(version is V5, s1) {
                    None => None,
                    Some((properties, s2)) => match parse_texts(Seq::empty(), s2) {
                        None => None,
                        Some(filters) => if filters.len() == 0 {
                            None
                        } else {
                            Some(UnsubscribeView { packet_id, properties, filters })
                        },
                    },
                }
            },
        }
    }

    /// What is said of bytes that are no body of an UNSUBSCRIBE packet.
    pub open spec fn fault(version: ProtocolVersion, s: Seq<u8>) -> Seq<char> {
        match wire::parse_u16(s) {
            None => wire::truncated_text(2, s.len()),
            Some((packet_id, s1)) => if packet_id == 0 {
                "UNSUBSCRIBE with Packet Identifier 0"@
            } else {
                match connect::parse_properties(version is V5, s1) {
                    None => PropertiesView::fault(s1),
                    Some((_, s2)) => if s2.len() == 0 {
                        "UNSUBSCRIBE with no Topic Filters"@
                    } else {
                        texts_fault(s2)
                    },
                }
            },
        }
    }

    pub open spec fn bytes(self, version: ProtocolVersion) -> Seq<u8> {
        wire::be16(self.packet_id) + connect::properties_bytes(version is V5, self.properties)
            + texts_bytes(self.filters)
    }

    pub open spec fn encodable(self, version: ProtocolVersion) -> bool {
        connect::properties_encodable(version is V5, self.properties)
    }

    /// Whether reading back what is written gives this packet.
    pub open spec fn sendable(self, version: ProtocolVersion) -> bool {
        &&& self.packet_id != 0
        &&& connect::properties_sendable(version is V5, self.properties)
        &&& self.filters.len() > 0
        &&& forall|i: int|
            0 <= i < self.filters.len() ==> wire::sendable_text(#[trigger] self.filters[i])
    }
}

/// An UNSUBSCRIBE packet that can be sent reads back as it was written.
pub proof fn unsubscribe_roundtrip(p: UnsubscribeView, version: ProtocolVersion)
    requires
        p.sendable(version),
    ensures
        UnsubscribeView::parse(version, p.bytes(version)) == Some(p),
{
    let s2 = texts_bytes(p.filters);
    let s1 = connect::properties_bytes(version is V5, p.properties) + s2;
    assert(p.bytes(version) =~= wire::be16(p.packet_id) + s1);
    wire::lemma_be16_roundtrip(p.packet_id, s1);
    connect::lemma_properties_roundtrip(version is V5, p.properties, s2);
    assert(s2 + Seq::<u8>::empty() =~= s2);
    lemma_texts_roundtrip(Seq::empty(), p.filters, Seq::empty());
    assert(Seq::<Seq<char>>::empty() + p.filters =~= p.filters);
}

impl Unsubscribe {
    /// Reads the body of an UNSUBSCRIBE packet.
    pub fn decode(r: &mut Reader, version: ProtocolVersion) -> (res: Result<Unsubscribe>)
        ensures
            match res {
                Ok(p) => UnsubscribeView::parse(version, old(r)@) == Some(p@),
                Err(e) => UnsubscribeView::parse(version, old(r)@) is None && e.says_malformed(
                    UnsubscribeView::fault(version, old(r)@),
                ),
            },
            wire::is_tail(final(r)@, old(r)@),
            res is Ok ==> final(r)@.len() == 0,
    {
        let packet_id: u16 = r.u16()?;
        if packet_id == 0 {
            return Err(malformed("UNSUBSCRIBE with Packet Identifier 0"));
        }
        let properties: Properties = decode_properties(version.has_properties(), r)?;
        let ghost body = r@;
        let mut filters: Vec<String> = Vec::new();
        assert(crate::text::views(filters@) =~= Seq::empty());
        while r.has_remaining()
            invariant
                wire::is_tail(r@, old(r)@),
                parse_texts(crate::text::views(filters@), r@) == parse_texts(Seq::empty(), body),
                wire::parse_u16(old(r)@) matches Some((id, s1)) && id == packet_id && id != 0
                    && connect::parse_properties(version is V5, s1) == Some((properties@, body)),
                filters@.len() == 0 ==> r@ == body,
                r@.len() > 0 ==> texts_fault(r@) == texts_fault(body),
                filters@.len() > 0 ==> body.len() > 0,
            decreases r@.len(),
        {
            let ghost before = crate::text::views(filters@);
            proof {
                wire::lemma_prefixed_shrinks(r@);
            }
            let f: String = r.utf8()?;
            filters.push(f);
            assert(crate::text::views(filters@) =~= before.push(f@));
        }
        if filters.len() == 0 {
            return Err(malformed("UNSUBSCRIBE with no Topic Filters"));
        }
        Ok(Unsubscribe { packet_id, properties, filters })
    }

    /// The body of the packet.
    pub fn encode_body(&self, version: ProtocolVersion) -> (res: Result<Vec<u8>>)
        ensures
            match res {
                Ok(b) => self@.encodable(version) && b@ == self@.bytes(version),
                Err(e) => !self@.encodable(version) && e.is_overflow(),
            },
    {
        let mut w: Writer = Writer::new();
        w.put_u16(self.packet_id);
        encode_properties(version.has_properties(), &self.properties, &mut w)?;
        let ghost head = w@;
        let ghost all = self@.filters;
        let mut i: usize = 0;
        assert(head =~= head + texts_bytes(all.take(0)));
        while i < self.filters.len()
            invariant
                i <= self.filters.len(),
                all == crate::text::views(self.filters@),
                w@ == head + texts_bytes(all.take(i as int)),
            decreases self.filters.len() - i,
        {
            w.put_utf8(self.filters[i].as_str());
            proof {
                let t = all.take(i + 1);
                assert(t.drop_last() =~= all.take(i as int));
                assert(w@ =~= head + texts_bytes(t));
            }
            i = i + 1;
        }
        assert(all.take(all.len() as int) =~= all);
        assert(w@ =~= self@.bytes(version));
        Ok(w.into_vec())
    }
}

} // verus!
