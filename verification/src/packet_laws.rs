//! Laws of the wire format: which bytes stand for a packet, and what holds of
//! every packet that is read.

use vstd::prelude::*;
use crate::codec::wire;
use crate::codec::wire::{be16, be32, varint};
use crate::packet::connect::{has_bit, return_code};
use crate::packet::{
    ConnackView, ConnectView, PacketView, PubAckView, PublishView, SubAckView, TopicFilterView,
};
use crate::types::{ProtocolVersion, QoS, ReasonCode};

verus! {

/// The number of a packet's type.
pub open spec fn type_number(p: PacketView) -> int {
    match p {
        PacketView::Connect(_) => 1,
        PacketView::Connack(_) => 2,
        PacketView::Publish(_) => 3,
        PacketView::Puback(_) => 4,
        PacketView::Pubrec(_) => 5,
        PacketView::Pubrel(_) => 6,
        PacketView::Pubcomp(_) => 7,
        PacketView::Subscribe(_) => 8,
        PacketView::Suback(_) => 9,
        PacketView::Unsubscribe(_) => 10,
        PacketView::Unsuback(_) => 11,
        PacketView::Pingreq => 12,
        PacketView::Pingresp => 13,
        PacketView::Disconnect(_) => 14,
        PacketView::Auth(_) => 15,
    }
}

/// 1 for what holds and 0 for what does not.
pub open spec fn one_if(b: bool) -> int {
    if b {
        1
    } else {
        0
    }
}

/// The first byte of a packet has its type in the upper half. The lower half of
/// a PUBLISH says DUP, the QoS and RETAIN; that of PUBREL, SUBSCRIBE and
/// UNSUBSCRIBE is 2, and that of any other packet 0. The length of the rest
/// follows, and then the rest.
pub proof fn first_byte_tells_the_type(p: PacketView, version: ProtocolVersion)
    ensures
        ({
            let s = p.bytes(version);
            let low = match p {
                PacketView::Publish(x) => 8 * one_if(x.dup) + 2 * x.qos.code() + one_if(x.retain),
                PacketView::Pubrel(_) => 2,
                PacketView::Subscribe(_) => 2,
                PacketView::Unsubscribe(_) => 2,
                _ => 0,
            };
            &&& s.len() == 1 + varint(p.body(version).len()).len() + p.body(version).len()
            &&& s[0] == 16 * type_number(p) + low
            &&& s.skip(1) == varint(p.body(version).len()) + p.body(version)
        }),
{
    let s = p.bytes(version);
    assert(s.skip(1) =~= varint(p.body(version).len()) + p.body(version));
}

/// Integers of two and four bytes have the most significant byte first.
pub proof fn integers_are_big_endian(v: u16, w: u32)
    ensures
        be16(v).len() == 2,
        256 * be16(v)[0] + be16(v)[1] == v,
        be32(w).len() == 4,
        16777216 * be32(w)[0] + 65536 * be32(w)[1] + 256 * be32(w)[2] + be32(w)[3] == w,
{
}

/// A variable byte integer has seven bits in each byte, the lowest first, and
/// the top bit exactly where another byte follows; it is as short as can be.
pub proof fn variable_integers_are_little_endian(n: nat)
    ensures
        varint(n).len() >= 1,
        varint(n)[0] % 128 == n % 128,
        varint(n)[0] >= 128 <==> n >= 128,
        n < 128 ==> varint(n).len() == 1,
        n >= 128 ==> varint(n).len() == 1 + varint(n / 128).len() && varint(n).skip(1) == varint(
            n / 128,
        ),
{
    if n >= 128 {
        assert(varint(n).skip(1) =~= varint(n / 128));
    }
}

/// A string is its length in bytes and its UTF-8, where a length can describe
/// it.
pub proof fn strings_have_their_length_first(s: Seq<char>)
    requires
        vstd::utf8::encode_utf8(s).len() <= 65535,
    ensures
        wire::text(s) == be16(vstd::utf8::encode_utf8(s).len() as u16) + vstd::utf8::encode_utf8(s),
{
    reveal(wire::text);
}

/// A PUBLISH has its topic first, then its packet identifier where its QoS is
/// above 0, then the properties where the version has them, and the payload as
/// it is, last.
pub proof fn publish_ends_with_its_payload(p: PublishView, version: ProtocolVersion)
    requires
        p.qos.code() > 0 ==> p.packet_id is Some,
    ensures
        ({
            let s = p.bytes(version);
            let head = wire::text(p.topic) + (match p.packet_id {
                Some(id) => if p.qos.code() > 0 {
                    be16(id)
                } else {
                    Seq::empty()
                },
                None => Seq::empty(),
            });
            let rest = s.skip(head.len() as int);
            &&& head.is_prefix_of(s)
            &&& p.payload.len() <= rest.len()
            &&& rest.skip(rest.len() - p.payload.len()) == p.payload
            &&& version.code() != 5 ==> rest == p.payload
        }),
{
    let s = p.bytes(version);
    let head = wire::text(p.topic) + (match p.packet_id {
        Some(id) => if p.qos.code() > 0 {
            be16(id)
        } else {
            Seq::empty()
        },
        None => Seq::empty(),
    });
    let props = crate::packet::connect::properties_bytes(version is V5, p.properties);
    assert(s =~= head + props + p.payload);
    let rest = s.skip(head.len() as int);
    assert(rest =~= props + p.payload);
    assert(rest.skip(rest.len() - p.payload.len()) =~= p.payload);
    if version.code() != 5 {
        assert(rest =~= p.payload);
    }
}

/// An acknowledgement has its packet identifier first. Before v5 that is all;
/// in v5 the reason code comes next, unless it is Success and there are no
/// properties.
pub proof fn acknowledgement_begins_with_its_identifier(a: PubAckView, version: ProtocolVersion)
    ensures
        ({
            let s = a.bytes(version);
            &&& be16(a.packet_id).is_prefix_of(s)
            &&& version.code() != 5 ==> s.len() == 2
            &&& version.code() == 5 && a.reason_code.code() != 0 ==> s.len() > 2 && s[2]
                == a.reason_code.code()
        }),
{
    let s = a.bytes(version);
    assert(be16(a.packet_id) =~= s.take(2));
}

/// The connect flags are, from the second lowest bit on, clean start, will, the
/// two bits of its QoS, its RETAIN, password and user name.
pub proof fn connect_flags_are_in_their_places(c: ConnectView)
    ensures
        c.flags() == 2 * one_if(c.clean_start) + (match c.will {
            Some(w) => 4 + 8 * w.qos.code() + 32 * one_if(w.retain),
            None => 0,
        }) + 64 * one_if(c.password is Some) + 128 * one_if(c.username is Some),
{
    reveal(ConnectView::flags);
}

/// The options of a subscription are, from the lowest bits on, its QoS, no
/// local, retain as published, and retain handling.
pub proof fn subscription_options_are_in_their_places(f: TopicFilterView)
    ensures
        f.options() == f.qos.code() + 4 * one_if(f.no_local) + 8 * one_if(f.retain_as_published)
            + 16 * (if f.retain_handling is SendAtSubscribe {
            0int
        } else if f.retain_handling is SendIfNewSubscription {
            1int
        } else {
            2int
        }),
{
}

/// A CONNACK has two bytes before its properties: whether a session is present,
/// which only v3.1 does not tell, and the reason, which is a return code of its
/// own before v5.
pub proof fn connack_tells_presence_and_reason(a: ConnackView, version: ProtocolVersion)
    ensures
        ({
            let s = a.bytes(version);
            &&& s.len() >= 2
            &&& s[0] == one_if(a.session_present && version.code() != 3)
            &&& version.code() == 5 ==> s[1] == a.reason_code.code()
            &&& version.code() != 5 ==> s.len() == 2 && s[1] == return_code(a.reason_code)
        }),
{
}

/// Before v5 a client that is let in gets return code 0, and any other gets one
/// from 1 to 5: the protocol, the identifier, the server, the credentials, or
/// any other reason.
pub proof fn return_codes_are_few(rc: ReasonCode)
    ensures
        return_code(rc) <= 5,
        return_code(rc) == 0 <==> rc is Success,
        return_code(rc) == 1 <==> rc is UnsupportedProtocolVersion,
        return_code(rc) == 2 <==> rc is ClientIdentifierNotValid,
        return_code(rc) == 3 <==> rc is ServerUnavailable || rc is ServerBusy,
        return_code(rc) == 4 <==> rc is BadUserNameOrPassword,
{
}

/// A SUBACK has a byte for each filter, last and in order: what was granted, or
/// an error, which before v5 is always the same. An UNSUBACK before v5 has only
/// its packet identifier.
pub proof fn suback_has_a_byte_for_each_filter(a: SubAckView, version: ProtocolVersion, i: int)
    requires
        0 <= i < a.reason_codes.len(),
    ensures
        ({
            let s = a.bytes(version);
            let at = s.len() - a.reason_codes.len() + i;
            let code = a.reason_codes[i].code();
            &&& be16(a.packet_id).is_prefix_of(s)
            &&& s[at] == (if version.code() == 5 || code < 128 {
                code
            } else {
                128u8
            })
            &&& version.code() != 5 ==> a.unsuback_bytes(version) == be16(a.packet_id)
            &&& version.code() == 5 ==> a.unsuback_bytes(version) == s
        }),
{
    let s = a.bytes(version);
    assert(be16(a.packet_id) =~= s.take(2));
}

/// Every PUBLISH that is read says in its flags what it is: DUP, QoS and RETAIN.
/// Its QoS is one of three, one of QoS 0 is no duplicate and has no packet
/// identifier, and any other has one that is not 0.
pub proof fn publish_that_is_read_is_sound(flags: u8, version: ProtocolVersion, s: Seq<u8>)
    requires
        flags < 16,
    ensures
        PublishView::parse(flags, version, s) matches Some(p) ==> {
            &&& flags == 8 * one_if(p.dup) + 2 * p.qos.code() + one_if(p.retain)
            &&& p.qos.code() == 0 ==> !p.dup && p.packet_id is None
            &&& p.qos.code() > 0 ==> p.packet_id is Some && p.packet_id->0 != 0
        },
        (flags / 2) % 4 == 3 ==> PublishView::parse(flags, version, s) is None,
{
    reveal(has_bit);
    crate::types::qos_codes(QoS::AtMostOnce, (flags / 2) % 4);
    crate::types::qos_codes(QoS::AtLeastOnce, (flags / 2) % 4);
    crate::types::qos_codes(QoS::ExactlyOnce, (flags / 2) % 4);
}

/// Every entry of a SUBSCRIBE that is read says in its options what it asks for;
/// options with a bit that may not be set are not read.
pub proof fn subscription_that_is_read_is_sound(filter: Seq<char>, opts: u8)
    ensures
        TopicFilterView::of_options(filter, opts) matches Some(f) ==> f.filter == filter && opts
            == f.qos.code() + 4 * one_if(f.no_local) + 8 * one_if(f.retain_as_published) + 16
            * f.retain_handling.code(),
        opts >= 64 ==> TopicFilterView::of_options(filter, opts) is None,
        opts % 4 == 3 ==> TopicFilterView::of_options(filter, opts) is None,
        opts / 16 == 3 ==> TopicFilterView::of_options(filter, opts) is None,
{
    reveal(has_bit);
    crate::types::qos_codes(QoS::AtMostOnce, opts % 4);
    crate::types::qos_codes(QoS::AtLeastOnce, opts % 4);
    crate::types::qos_codes(QoS::ExactlyOnce, opts % 4);
}

} // verus!
