//! What the bytes of the wire format mean.
//!
//! A parser is a function from the bytes that are left to the value read and
//! the bytes left after it, or `None` where the bytes are malformed.

use vstd::prelude::*;
use vstd::utf8;
use crate::text::decimal;

verus! {

/// A two-byte integer, most significant byte first.
pub open spec fn be16(v: u16) -> Seq<u8> {
    seq![(v / 256) as u8, (v % 256) as u8]
}

/// A four-byte integer, most significant byte first.
pub open spec fn be32(v: u32) -> Seq<u8> {
    seq![
        (v / 16777216) as u8,
        ((v / 65536) % 256) as u8,
        ((v / 256) % 256) as u8,
        (v % 256) as u8,
    ]
}

/// A variable byte integer: seven bits per byte, least significant first, the
/// top bit set on every byte but the last.
pub open spec fn varint(n: nat) -> Seq<u8>
    decreases n,
{
    if n < 128 {
        seq![n as u8]
    } else {
        seq![(128 + n % 128) as u8] + varint(n / 128)
    }
}

/// The longest prefix of at most `n` bytes that ends between two characters.
pub open spec fn boundary_below(bytes: Seq<u8>, n: int) -> int
    decreases n,
{
    if n <= 0 || utf8::is_char_boundary(bytes, n) {
        n
    } else {
        boundary_below(bytes, n - 1)
    }
}

/// The part of a string that a two-byte length can describe.
pub open spec fn clamp_text(bytes: Seq<u8>) -> Seq<u8> {
    if bytes.len() <= 65535 {
        bytes
    } else {
        bytes.take(boundary_below(bytes, 65535))
    }
}

/// The part of a byte string that a two-byte length can describe.
pub open spec fn clamp_data(bytes: Seq<u8>) -> Seq<u8> {
    if bytes.len() <= 65535 {
        bytes
    } else {
        bytes.take(65535)
    }
}

/// Binary data: a two-byte length and the bytes.
#[verifier::opaque]
pub open spec fn data(bytes: Seq<u8>) -> Seq<u8> {
    be16(clamp_data(bytes).len() as u16) + clamp_data(bytes)
}

/// A string: a two-byte length and its UTF-8 encoding.
#[verifier::opaque]
pub open spec fn text(chars: Seq<char>) -> Seq<u8> {
    be16(clamp_text(utf8::encode_utf8(chars)).len() as u16) + clamp_text(utf8::encode_utf8(chars))
}

/// Whether a string fits a two-byte length and holds no U+0000, so that it can
/// be sent and read back.
pub open spec fn sendable_text(chars: Seq<char>) -> bool {
    utf8::encode_utf8(chars).len() <= 65535 && !chars.contains('\0')
}

/// Whether `rest` is what is left of `all` after some of its first bytes.
pub open spec fn is_tail(rest: Seq<u8>, all: Seq<u8>) -> bool {
    rest.len() <= all.len() && rest == all.skip(all.len() - rest.len())
}

pub open spec fn parse_u8(s: Seq<u8>) -> Option<(u8, Seq<u8>)> {
    if s.len() < 1 {
        None
    } else {
        Some((s[0], s.skip(1)))
    }
}

pub open spec fn parse_u16(s: Seq<u8>) -> Option<(u16, Seq<u8>)> {
    if s.len() < 2 {
        None
    } else {
        Some(((s[0] * 256 + s[1]) as u16, s.skip(2)))
    }
}

pub open spec fn parse_u32(s: Seq<u8>) -> Option<(u32, Seq<u8>)> {
    if s.len() < 4 {
        None
    } else {
        Some(
            ((s[0] * 16777216 + s[1] * 65536 + s[2] * 256 + s[3]) as u32, s.skip(4)),
        )
    }
}

/// A variable byte integer of at most `max_bytes` bytes.
pub open spec fn parse_varint_of(s: Seq<u8>, max_bytes: nat) -> Option<(nat, Seq<u8>)>
    decreases max_bytes,
{
    if max_bytes == 0 || s.len() == 0 {
        None
    } else if s[0] < 128 {
        Some((s[0] as nat, s.skip(1)))
    } else {
        match parse_varint_of(s.skip(1), (max_bytes - 1) as nat) {
            Some((v, rest)) => Some(((s[0] - 128 + 128 * v) as nat, rest)),
            None => None,
        }
    }
}

/// A variable byte integer.
pub open spec fn parse_varint(s: Seq<u8>) -> Option<(nat, Seq<u8>)> {
    parse_varint_of(s, 4)
}

pub open spec fn parse_bytes(s: Seq<u8>, n: nat) -> Option<(Seq<u8>, Seq<u8>)> {
    if s.len() < n {
        None
    } else {
        Some((s.take(n as int), s.skip(n as int)))
    }
}

#[verifier::opaque]
pub open spec fn parse_data(s: Seq<u8>) -> Option<(Seq<u8>, Seq<u8>)> {
    match parse_u16(s) {
        Some((n, rest)) => parse_bytes(rest, n as nat),
        None => None,
    }
}

/// A string must be well-formed UTF-8 and hold no U+0000.
#[verifier::opaque]
pub open spec fn parse_text(s: Seq<u8>) -> Option<(Seq<char>, Seq<u8>)> {
    match parse_data(s) {
        Some((raw, rest)) => if utf8::valid_utf8(raw) && !utf8::decode_utf8(raw).contains('\0') {
            Some((utf8::decode_utf8(raw), rest))
        } else {
            None
        },
        None => None,
    }
}

pub open spec fn parse_pair(s: Seq<u8>) -> Option<((Seq<char>, Seq<char>), Seq<u8>)> {
    match parse_text(s) {
        Some((k, rest)) => match parse_text(rest) {
            Some((v, rest2)) => Some(((k, v), rest2)),
            None => None,
        },
        None => None,
    }
}

/// What is said of a packet that ends too early.
pub open spec fn truncated_text(need: nat, have: nat) -> Seq<char> {
    "unexpected end of packet: need "@ + decimal(need) + " bytes, have "@ + decimal(have)
}

/// What is said of bytes that begin with no variable byte integer.
pub open spec fn varint_fault_of(s: Seq<u8>, max_bytes: nat) -> Seq<char>
    decreases max_bytes,
{
    if max_bytes == 0 {
        "malformed variable byte integer (>4 bytes)"@
    } else if s.len() == 0 {
        truncated_text(1, 0)
    } else {
        varint_fault_of(s.skip(1), (max_bytes - 1) as nat)
    }
}

/// What is said of bytes that begin with no variable byte integer.
pub open spec fn varint_fault(s: Seq<u8>) -> Seq<char> {
    varint_fault_of(s, 4)
}

/// What is said of bytes that begin with no binary data.
#[verifier::opaque]
pub open spec fn data_fault(s: Seq<u8>) -> Seq<char> {
    match parse_u16(s) {
        None => truncated_text(2, s.len()),
        Some((n, rest)) => truncated_text(n as nat, rest.len()),
    }
}

/// What is said of bytes that begin with no string.
#[verifier::opaque]
pub open spec fn text_fault(s: Seq<u8>) -> Seq<char> {
    match parse_data(s) {
        None => data_fault(s),
        Some((raw, _)) => if utf8::valid_utf8(raw) {
            "string contains U+0000"@
        } else {
            "string is not well-formed UTF-8"@
        },
    }
}

/// What is said of bytes that begin with no pair of strings.
pub open spec fn pair_fault(s: Seq<u8>) -> Seq<char> {
    match parse_text(s) {
        None => text_fault(s),
        Some((_, rest)) => text_fault(rest),
    }
}

pub broadcast proof fn lemma_tail_refl(s: Seq<u8>)
    ensures
        #[trigger] is_tail(s, s),
{
    assert(s =~= s.skip(0));
}

pub broadcast group group_tail {
    lemma_tail_refl,
    lemma_tail_trans,
}

pub broadcast proof fn lemma_tail_trans(a: Seq<u8>, b: Seq<u8>, c: Seq<u8>)
    requires
        #[trigger] is_tail(a, b),
        #[trigger] is_tail(b, c),
    ensures
        is_tail(a, c),
{
    assert(a =~= c.skip(c.len() - a.len()));
}

pub proof fn lemma_tail_skip(s: Seq<u8>, n: int)
    requires
        0 <= n <= s.len(),
    ensures
        is_tail(s.skip(n), s),
{
}

/// What a successful parse leaves is what is left of the input.
pub broadcast proof fn lemma_varint_tail(s: Seq<u8>, max_bytes: nat)
    ensures
        #[trigger] parse_varint_of(s, max_bytes) matches Some((v, rest)) ==> is_tail(rest, s)
            && rest.len() < s.len(),
    decreases max_bytes,
{
    if max_bytes != 0 && s.len() != 0 && s[0] >= 128 {
        lemma_varint_tail(s.skip(1), (max_bytes - 1) as nat);
        if let Some((v, rest)) = parse_varint_of(s.skip(1), (max_bytes - 1) as nat) {
            lemma_tail_skip(s, 1);
            lemma_tail_trans(rest, s.skip(1), s);
        }
    }
}

pub proof fn lemma_be16_roundtrip(v: u16, rest: Seq<u8>)
    ensures
        parse_u16(be16(v) + rest) == Some((v, rest)),
{
    assert((be16(v) + rest).skip(2) =~= rest);
}

pub proof fn lemma_be32_roundtrip(v: u32, rest: Seq<u8>)
    ensures
        parse_u32(be32(v) + rest) == Some((v, rest)),
{
    assert((be32(v) + rest).skip(4) =~= rest);
    let a = v / 16777216;
    let b = (v / 65536) % 256;
    let c = (v / 256) % 256;
    let d = v % 256;
    assert(v == a * 16777216 + b * 65536 + c * 256 + d) by {
        assert(v / 65536 == (v / 256) / 256);
        assert(v / 16777216 == (v / 65536) / 256);
    }
}

pub proof fn lemma_varint_roundtrip_of(n: nat, max_bytes: nat, rest: Seq<u8>)
    requires
        1 <= max_bytes <= 4,
        max_bytes == 1 ==> n < 128,
        max_bytes == 2 ==> n < 16384,
        max_bytes == 3 ==> n < 2097152,
        max_bytes == 4 ==> n < 268435456,
    ensures
        parse_varint_of(varint(n) + rest, max_bytes) == Some((n, rest)),
    decreases max_bytes,
{
    let s = varint(n) + rest;
    if n < 128 {
        assert(s.skip(1) =~= rest);
    } else {
        assert(s[0] == (128 + n % 128) as u8);
        assert(s.skip(1) =~= varint(n / 128) + rest);
        lemma_varint_roundtrip_of(n / 128, (max_bytes - 1) as nat, rest);
    }
}

/// A variable byte integer up to the maximum reads back as it was written.
pub proof fn varint_roundtrip(n: nat, rest: Seq<u8>)
    requires
        n <= super::MAX_VARIABLE_BYTE_INTEGER,
    ensures
        parse_varint(varint(n) + rest) == Some((n, rest)),
{
    lemma_varint_roundtrip_of(n, 4, rest);
}

/// Binary data of at most 65535 bytes reads back as it was written.
pub proof fn data_roundtrip(bytes: Seq<u8>, rest: Seq<u8>)
    requires
        bytes.len() <= 65535,
    ensures
        parse_data(data(bytes) + rest) == Some((bytes, rest)),
{
    reveal(data);
    reveal(parse_data);
    let n = bytes.len() as u16;
    assert(data(bytes) + rest =~= be16(n) + (bytes + rest));
    lemma_be16_roundtrip(n, bytes + rest);
    assert((bytes + rest).take(n as int) =~= bytes);
    assert((bytes + rest).skip(n as int) =~= rest);
}

/// A string that fits its length prefix and holds no U+0000 reads back as it
/// was written.
pub proof fn text_roundtrip(chars: Seq<char>, rest: Seq<u8>)
    requires
        sendable_text(chars),
    ensures
        parse_text(text(chars) + rest) == Some((chars, rest)),
{
    reveal(text);
    reveal(data);
    reveal(parse_text);
    data_roundtrip(utf8::encode_utf8(chars), rest);
    utf8::encode_utf8_decode_utf8(chars);
    utf8::encode_utf8_valid_utf8(chars);
}

/// Reading a string or binary data leaves less than there was.
pub proof fn lemma_prefixed_shrinks(s: Seq<u8>)
    ensures
        parse_data(s) matches Some((v, rest)) ==> rest.len() < s.len(),
        parse_text(s) matches Some((v, rest)) ==> rest.len() < s.len(),
{
    reveal(parse_data);
    reveal(parse_text);
}

/// A pair of such strings reads back as it was written.
pub proof fn pair_roundtrip(k: Seq<char>, v: Seq<char>, rest: Seq<u8>)
    requires
        sendable_text(k),
        sendable_text(v),
    ensures
        parse_pair(text(k) + text(v) + rest) == Some(((k, v), rest)),
{
    assert(text(k) + text(v) + rest =~= text(k) + (text(v) + rest));
    text_roundtrip(k, text(v) + rest);
    text_roundtrip(v, rest);
}

} // verus!
