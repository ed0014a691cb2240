//! Framing: taking whole packets off a byte stream.
//!
//! A packet delimits itself by its remaining length, so a reader takes the
//! fixed header byte by byte, learns the length, and then reads exactly that
//! many further bytes.

use vstd::prelude::*;
use vstd::string::StringExecFns;
use crate::codec::wire;
use crate::error::{malformed, MqttError, Result};
use crate::packet::{Packet, PacketView};
use crate::text::{decimal, push_decimal};
use crate::types::{ProtocolVersion, ReasonCode};

verus! {

/// Outcome of an attempt to read a packet.
pub enum ReadOutcome {
    /// A decoded packet and the number of bytes of its whole frame.
    Packet(Packet, usize),
    /// The peer closed the connection between two packets.
    Eof,
}

/// A fixed header of which some bytes have been read; the view is those bytes.
pub struct FrameHeader {
    header: Vec<u8>,
    remaining: u32,
}

impl View for FrameHeader {
    type V = Seq<u8>;

    closed spec fn view(&self) -> Seq<u8> {
        self.header@
    }
}

/// The value of the length bytes read so far, all of which ask for another.
pub open spec fn partial_length(s: Seq<u8>) -> nat
    decreases s.len(),
{
    if s.len() == 0 {
        0
    } else {
        ((s[0] % 128) + 128 * partial_length(s.skip(1))) as nat
    }
}

/// What follows when another length byte arrives after `header`.
pub enum HeaderStep {
    /// The length goes on.
    More,
    /// The length is known, and so is the size of the frame.
    Length(nat),
    /// The length does not end after four bytes.
    TooLong,
}

/// The step that the bytes of a header stand for: `header` is the first byte
/// of the packet and at least one length byte.
pub open spec fn header_step(header: Seq<u8>) -> HeaderStep {
    if header.last() < 128 {
        HeaderStep::Length(partial_length(header.skip(1)))
    } else if header.len() >= 5 {
        HeaderStep::TooLong
    } else {
        HeaderStep::More
    }
}

/// The weight of the next length byte.
spec fn weight(n: nat) -> nat
    decreases n,
{
    if n == 0 {
        1
    } else {
        128 * weight((n - 1) as nat)
    }
}

proof fn lemma_partial_push(s: Seq<u8>, b: u8)
    ensures
        partial_length(s.push(b)) == partial_length(s) + (b % 128) * weight(s.len()),
    decreases s.len(),
{
    let t = s.push(b);
    let d = (b % 128) as int;
    if s.len() == 0 {
        assert(t.skip(1) =~= Seq::empty());
        assert(partial_length(t.skip(1)) == 0);
        assert(weight(0) == 1);
        assert(d * 1 == d);
    } else {
        let w = weight((s.len() - 1) as nat) as int;
        assert(t.skip(1) =~= s.skip(1).push(b));
        lemma_partial_push(s.skip(1), b);
        assert(t[0] == s[0]);
        assert(weight(s.len()) == 128 * w);
        assert(d * (128 * w) == 128 * (d * w)) by (nonlinear_arith);
        assert(partial_length(t) == s[0] % 128 + 128 * (partial_length(s.skip(1)) + d * w));
    }
}

proof fn lemma_partial_bound(s: Seq<u8>)
    ensures
        partial_length(s) < weight(s.len()),
    decreases s.len(),
{
    if s.len() > 0 {
        lemma_partial_bound(s.skip(1));
    }
}

/// The length that the header bytes hold is the variable byte integer that
/// they are.
pub proof fn header_length_is_varint(s: Seq<u8>, max_bytes: nat)
    requires
        0 < s.len() <= max_bytes,
        s.last() < 128,
        forall|i: int| 0 <= i < s.len() - 1 ==> s[i] >= 128,
    ensures
        wire::parse_varint_of(s, max_bytes) == Some((partial_length(s), Seq::<u8>::empty())),
    decreases s.len(),
{
    if s.len() == 1 {
        assert(s.skip(1) =~= Seq::empty());
        assert(partial_length(s.skip(1)) == 0);
    } else {
        assert(s[0] >= 128);
        assert forall|i: int| 0 <= i < s.skip(1).len() - 1 implies s.skip(1)[i] >= 128 by {
            assert(s[i + 1] >= 128);
        }
        header_length_is_varint(s.skip(1), (max_bytes - 1) as nat);
    }
}

/// What is said of a packet that is too large.
pub open spec fn too_large_text(total: nat, max_packet_size: nat) -> Seq<char> {
    "packet of "@ + decimal(total) + " bytes exceeds maximum "@ + decimal(max_packet_size)
}

fn too_large(total: u64, max_packet_size: u32) -> (e: MqttError)
    ensures
        e matches MqttError::Reason(rc, m) && rc == ReasonCode::PacketTooLarge && m@
            == too_large_text(total as nat, max_packet_size as nat),
{
    let mut m: String = String::from_str("packet of ");
    push_decimal(&mut m, total);
    m.append(" bytes exceeds maximum ");
    push_decimal(&mut m, max_packet_size as u64);
    MqttError::Reason(ReasonCode::PacketTooLarge, m)
}

impl FrameHeader {
    /// Whether the header is the first byte and up to three length bytes, each
    /// of which asks for another.
    pub closed spec fn open(&self) -> bool {
        &&& 1 <= self.header@.len() <= 4
        &&& self.remaining == partial_length(self.header@.skip(1))
    }

    /// A header of which the first byte has been read.
    pub fn new(first: u8) -> (r: Self)
        ensures
            r.open(),
            r@ == seq![first],
    {
        let mut header: Vec<u8> = Vec::new();
        header.push(first);
        assert(header@.skip(1) =~= Seq::empty());
        assert(header@ =~= seq![first]);
        FrameHeader { header, remaining: 0 }
    }

    /// Takes the next length byte. `Some` is the number of bytes that are left
    /// to read of the packet, `None` asks for another length byte. A length of
    /// more than four bytes is malformed; a frame of more than
    /// `max_packet_size` bytes, header included, is refused.
    pub fn push(&mut self, byte: u8, max_packet_size: u32) -> (r: Result<Option<u32>>)
        requires
            old(self).open(),
        ensures
            final(self)@ == old(self)@.push(byte),
            match header_step(final(self)@) {
                HeaderStep::More => r matches Ok(None) && final(self).open(),
                HeaderStep::TooLong => r matches Err(e) && e.says_malformed(
                    "malformed Remaining Length"@,
                ),
                HeaderStep::Length(n) => if final(self)@.len() + n > max_packet_size {
                    r matches Err(MqttError::Reason(rc, m)) && rc == ReasonCode::PacketTooLarge
                        && m@ == too_large_text(
                        (final(self)@.len() + n) as nat,
                        max_packet_size as nat,
                    )
                } else {
                    r matches Ok(Some(len)) && len == n
                },
            },
    {
        let count: usize = self.header.len() - 1;
        let ghost before = self.header@.skip(1);
        let multiplier: u32 = if count == 0 {
            1
        } else if count == 1 {
            128
        } else if count == 2 {
            16384
        } else {
            2097152
        };
        proof {
            reveal_with_fuel(weight, 5);
            lemma_partial_bound(before);
            lemma_partial_push(before, byte);
            assert(self.header@.push(byte).skip(1) =~= before.push(byte));
            assert((byte % 128) * multiplier <= 127 * multiplier) by (nonlinear_arith);
        }
        self.header.push(byte);
        self.remaining = self.remaining + (byte % 128) as u32 * multiplier;
        if byte < 128 {
            let total: u64 = self.header.len() as u64 + self.remaining as u64;
            if total > max_packet_size as u64 {
                return Err(too_large(total, max_packet_size));
            }
            return Ok(Some(self.remaining));
        }
        if self.header.len() >= 5 {
            return Err(malformed("malformed Remaining Length"));
        }
        Ok(None)
    }

    /// Decodes the frame of this header and the body that was read after it.
    pub fn finish(self, body: &[u8], version: ProtocolVersion) -> (r: Result<ReadOutcome>)
        ensures
            match r {
                Ok(ReadOutcome::Packet(p, size)) => PacketView::parse(self@ + body@, version)
                    == Some(p@) && size == self@.len() + body@.len(),
                Ok(ReadOutcome::Eof) => false,
                Err(e) => PacketView::parse(self@ + body@, version) is None && e.says_malformed(
                    PacketView::fault(self@ + body@, version),
                ),
            },
    {
        let mut frame: Vec<u8> = self.header;
        frame.extend_from_slice(body);
        assert(frame@ =~= self@ + body@);
        let size: usize = frame.len();
        let packet: Packet = Packet::decode(frame.as_slice(), version)?;
        Ok(ReadOutcome::Packet(packet, size))
    }
}

/// Taking a packet that can be sent off a stream: after each byte of the
/// variable byte integer that follows the first byte, the header asks for
/// another byte, until it gives the length of the body.
pub proof fn packet_header_gives_body_length(p: PacketView, version: ProtocolVersion, k: int)
    requires
        p.sendable(version),
        1 <= k <= wire::varint(p.body(version).len()).len(),
    ensures
        header_step(p.bytes(version).take(1 + k)) == (if k < wire::varint(
            p.body(version).len(),
        ).len() {
            HeaderStep::More
        } else {
            HeaderStep::Length(p.body(version).len())
        }),
{
    let n = p.body(version).len();
    let v = wire::varint(n);
    let h = p.bytes(version).take(1 + k);
    assert(h.skip(1) =~= v.take(k));
    lemma_varint_shape(n);
    assert(h.last() == v[k - 1]);
    if k == v.len() {
        assert(v.take(k) =~= v);
        header_length_is_varint(v, 4);
        wire::varint_roundtrip(n, Seq::empty());
        assert(v + Seq::<u8>::empty() =~= v);
    }
}

proof fn lemma_varint_shape(n: nat)
    requires
        n < 268435456,
    ensures
        1 <= wire::varint(n).len() <= 4,
        wire::varint(n).last() < 128,
        forall|i: int| 0 <= i < wire::varint(n).len() - 1 ==> wire::varint(n)[i] >= 128,
{
    reveal_with_fuel(wire::varint, 4);
}

} // verus!
