//! Sequential reader over a byte slice.

use vstd::prelude::*;
use vstd::slice::{slice_subrange, slice_to_vec};
use crate::codec::wire;
use crate::error::{malformed, MqttError, Result};
use crate::text::push_decimal;
use vstd::string::StringExecFns;

verus! {

broadcast use wire::group_tail;

/// `core::str::Utf8Error`: why bytes are not UTF-8. Only passed over.
#[verifier::external_type_specification]
#[verifier::external_body]
pub struct ExUtf8Error(core::str::Utf8Error);

/// `core::str::from_utf8` succeeds exactly on well-formed UTF-8, and the string
/// it returns consists of the given bytes.
pub assume_specification<'a>[ core::str::from_utf8 ](v: &'a [u8]) -> (r: core::result::Result<
    &'a str,
    core::str::Utf8Error,
>)
    ensures
        match r {
            Ok(s) => vstd::utf8::valid_utf8(v@) && vstd::utf8::encode_utf8(s@) == v@,
            Err(_) => !vstd::utf8::valid_utf8(v@),
        },
;

/// Reads values off the front of a byte slice; the view is what is left.
pub struct Reader<'a> {
    rest: &'a [u8],
}

impl<'a> View for Reader<'a> {
    type V = Seq<u8>;

    closed spec fn view(&self) -> Seq<u8> {
        self.rest@
    }
}

fn truncated(need: usize, have: usize) -> (e: MqttError)
    ensures
        e matches MqttError::Malformed(m) && m@ == wire::truncated_text(
            need as nat,
            have as nat,
        ),
{
    let mut s: String = String::from_str("unexpected end of packet: need ");
    push_decimal(&mut s, need as u64);
    s.append(" bytes, have ");
    push_decimal(&mut s, have as u64);
    MqttError::Malformed(s)
}

impl<'a> Reader<'a> {
    pub fn new(buf: &'a [u8]) -> (r: Self)
        ensures
            r@ == buf@,
    {
        Reader { rest: buf }
    }

    pub fn remaining(&self) -> (r: usize)
        ensures
            r == self@.len(),
    {
        self.rest.len()
    }

    pub fn has_remaining(&self) -> (r: bool)
        ensures
            r == (self@.len() > 0),
    {
        self.rest.len() > 0
    }

    /// Reads a single byte.
    pub fn u8(&mut self) -> (r: Result<u8>)
        ensures
            match r {
                Ok(v) => wire::parse_u8(old(self)@) == Some((v, final(self)@)),
                Err(e) => wire::parse_u8(old(self)@) is None && final(self)@ == old(self)@
                    && e.says_malformed(wire::truncated_text(1, old(self)@.len())),
            },
            wire::is_tail(final(self)@, old(self)@),
    {
        if self.rest.len() < 1 {
            return Err(truncated(1, self.rest.len()));
        }
        let b: u8 = self.rest[0];
        self.rest = slice_subrange(self.rest, 1, self.rest.len());
        assert(self.rest@ =~= old(self).rest@.skip(1));
        Ok(b)
    }

    /// Reads a two-byte integer, most significant byte first.
    pub fn u16(&mut self) -> (r: Result<u16>)
        ensures
            match r {
                Ok(v) => wire::parse_u16(old(self)@) == Some((v, final(self)@)),
                Err(e) => wire::parse_u16(old(self)@) is None && final(self)@ == old(self)@
                    && e.says_malformed(wire::truncated_text(2, old(self)@.len())),
            },
            wire::is_tail(final(self)@, old(self)@),
    {
        if self.rest.len() < 2 {
            return Err(truncated(2, self.rest.len()));
        }
        let v: u16 = self.rest[0] as u16 * 256 + self.rest[1] as u16;
        self.rest = slice_subrange(self.rest, 2, self.rest.len());
        assert(self.rest@ =~= old(self).rest@.skip(2));
        Ok(v)
    }

    /// Reads a four-byte integer, most significant byte first.
    pub fn u32(&mut self) -> (r: Result<u32>)
        ensures
            match r {
                Ok(v) => wire::parse_u32(old(self)@) == Some((v, final(self)@)),
                Err(e) => wire::parse_u32(old(self)@) is None && final(self)@ == old(self)@
                    && e.says_malformed(wire::truncated_text(4, old(self)@.len())),
            },
            wire::is_tail(final(self)@, old(self)@),
    {
        if self.rest.len() < 4 {
            return Err(truncated(4, self.rest.len()));
        }
        let v: u32 = self.rest[0] as u32 * 16777216 + self.rest[1] as u32 * 65536 + self.rest[2]
            as u32 * 256 + self.rest[3] as u32;
        self.rest = slice_subrange(self.rest, 4, self.rest.len());
        assert(self.rest@ =~= old(self).rest@.skip(4));
        Ok(v)
    }

    /// Reads a variable byte integer of at most four bytes.
    pub fn varint(&mut self) -> (r: Result<u32>)
        ensures
            match r {
                Ok(v) => wire::parse_varint(old(self)@) == Some((v as nat, final(self)@)) && v
                    <= super::MAX_VARIABLE_BYTE_INTEGER,
                Err(e) => wire::parse_varint(old(self)@) is None && e.says_malformed(
                    wire::varint_fault(old(self)@),
                ),
            },
            wire::is_tail(final(self)@, old(self)@),
    {
        let mut multiplier: u32 = 1;
        let mut value: u32 = 0;
        let mut count: u32 = 0;
        while count < 4
            invariant
                count <= 4,
                count == 0 ==> multiplier == 1 && value == 0,
                count == 1 ==> multiplier == 128 && value < 128,
                count == 2 ==> multiplier == 16384 && value < 16384,
                count == 3 ==> multiplier == 2097152 && value < 2097152,
                wire::is_tail(self@, old(self)@),
                wire::parse_varint(old(self)@) == (match wire::parse_varint_of(
                    self@,
                    (4 - count) as nat,
                ) {
                    Some((v, rest)) => Some(((value + multiplier * v) as nat, rest)),
                    None => None,
                }),
                wire::varint_fault(old(self)@) == wire::varint_fault_of(self@, (4 - count) as nat),
            decreases 4 - count,
        {
            let ghost before = self@;
            let byte: u8 = self.u8()?;
            let low: u32 = (byte % 128) as u32;
            proof {
                assert(wire::parse_varint_of(before, (4 - count) as nat) == (if byte < 128 {
                    Some((byte as nat, self@))
                } else {
                    match wire::parse_varint_of(self@, (3 - count) as nat) {
                        Some((v, rest)) => Some(((byte - 128 + 128 * v) as nat, rest)),
                        None => None,
                    }
                }));
                assert(low * multiplier <= 127 * multiplier) by (nonlinear_arith)
                    requires
                        low <= 127,
                ;
            }
            let ghost old_value = value;
            value = value + low * multiplier;
            if byte < 128 {
                assert(multiplier * (byte as nat) == low * multiplier) by (nonlinear_arith)
                    requires
                        low == byte,
                ;
                return Ok(value);
            }
            proof {
                if let Some((v, rest)) = wire::parse_varint_of(self@, (3 - count) as nat) {
                    assert(old_value + multiplier * ((byte - 128 + 128 * v) as nat) == old_value
                        + low * multiplier + (multiplier * 128) * v) by (nonlinear_arith)
                        requires
                            low == byte - 128,
                            byte >= 128,
                    ;
                }
            }
            if count < 3 {
                multiplier = multiplier * 128;
            }
            count = count + 1;
        }
        Err(malformed("malformed variable byte integer (>4 bytes)"))
    }

    /// Reads `n` raw bytes, returning a borrowed slice.
    pub fn bytes(&mut self, n: usize) -> (r: Result<&'a [u8]>)
        ensures
            match r {
                Ok(v) => wire::parse_bytes(old(self)@, n as nat) == Some((v@, final(self)@)),
                Err(e) => wire::parse_bytes(old(self)@, n as nat) is None && final(self)@ == old(
                    self,
                )@ && e.says_malformed(wire::truncated_text(n as nat, old(self)@.len())),
            },
            wire::is_tail(final(self)@, old(self)@),
    {
        if self.rest.len() < n {
            return Err(truncated(n, self.rest.len()));
        }
        let v: &'a [u8] = slice_subrange(self.rest, 0, n);
        self.rest = slice_subrange(self.rest, n, self.rest.len());
        assert(v@ =~= old(self).rest@.take(n as int));
        assert(self.rest@ =~= old(self).rest@.skip(n as int));
        Ok(v)
    }

    /// Reads binary data: a two-byte length followed by that many bytes.
    pub fn binary(&mut self) -> (r: Result<Vec<u8>>)
        ensures
            match r {
                Ok(v) => wire::parse_data(old(self)@) == Some((v@, final(self)@)),
                Err(e) => wire::parse_data(old(self)@) is None && e.says_malformed(
                    wire::data_fault(old(self)@),
                ),
            },
            wire::is_tail(final(self)@, old(self)@),
    {
        proof {
            reveal(wire::parse_data);
            reveal(wire::data_fault);
        }
        let len: u16 = self.u16()?;
        let raw: &'a [u8] = self.bytes(len as usize)?;
        Ok(slice_to_vec(raw))
    }

    /// Reads a string. Rejects malformed UTF-8 and the character U+0000.
    pub fn utf8(&mut self) -> (r: Result<String>)
        ensures
            match r {
                Ok(v) => wire::parse_text(old(self)@) == Some((v@, final(self)@)),
                Err(e) => wire::parse_text(old(self)@) is None && e.says_malformed(
                    wire::text_fault(old(self)@),
                ),
            },
            wire::is_tail(final(self)@, old(self)@),
    {
        proof {
            reveal(wire::parse_data);
            reveal(wire::parse_text);
            reveal(wire::data_fault);
            reveal(wire::text_fault);
        }
        let len: u16 = self.u16()?;
        let raw: &'a [u8] = self.bytes(len as usize)?;
        match core::str::from_utf8(raw) {
            Ok(s) => {
                proof {
                    vstd::utf8::encode_utf8_decode_utf8(s@);
                }
                if has_nul(s) {
                    return Err(malformed("string contains U+0000"));
                }
                Ok(s.to_owned())
            },
            Err(_) => Err(malformed("string is not well-formed UTF-8")),
        }
    }

    /// Reads a pair of strings.
    pub fn utf8_pair(&mut self) -> (r: Result<(String, String)>)
        ensures
            match r {
                Ok(p) => wire::parse_pair(old(self)@) == Some(((p.0@, p.1@), final(self)@)),
                Err(e) => wire::parse_pair(old(self)@) is None && e.says_malformed(
                    wire::pair_fault(old(self)@),
                ),
            },
            wire::is_tail(final(self)@, old(self)@),
    {
        let k: String = self.utf8()?;
        let v: String = self.utf8()?;
        Ok((k, v))
    }

    /// Consumes and returns all remaining bytes.
    pub fn rest(&mut self) -> (r: &'a [u8])
        ensures
            r@ == old(self)@,
            final(self)@ == Seq::<u8>::empty(),
    {
        let all: &'a [u8] = self.rest;
        self.rest = slice_subrange(self.rest, self.rest.len(), self.rest.len());
        assert(self.rest@ =~= Seq::<u8>::empty());
        all
    }

    /// A reader over the next `n` bytes; this reader moves past them.
    pub fn sub(&mut self, n: usize) -> (r: Result<Reader<'a>>)
        ensures
            match r {
                Ok(s) => wire::parse_bytes(old(self)@, n as nat) == Some((s@, final(self)@)),
                Err(e) => wire::parse_bytes(old(self)@, n as nat) is None && final(self)@ == old(
                    self,
                )@ && e.says_malformed(wire::truncated_text(n as nat, old(self)@.len())),
            },
            wire::is_tail(final(self)@, old(self)@),
    {
        let s: &'a [u8] = self.bytes(n)?;
        Ok(Reader::new(s))
    }
}

/// Whether a string holds the character U+0000.
fn has_nul(s: &str) -> (r: bool)
    ensures
        r == s@.contains('\0'),
{
    let mut found: bool = false;
    for c in it: s.chars()
        invariant
            it.seq() == s@,
            found == s@.take(it.index() as int).contains('\0'),
    {
        proof {
            let i = it.index() as int;
            assert(s@.take(i + 1) =~= s@.take(i).push(s@[i]));
            if s@.take(i).contains('\0') {
                let k = s@.take(i).index_of('\0');
                assert(s@.take(i + 1)[k] == '\0');
            }
            if s@.take(i + 1).contains('\0') {
                let k = s@.take(i + 1).index_of('\0');
                if k < i {
                    assert(s@.take(i)[k] == '\0');
                }
            }
            if c == '\0' {
                assert(s@.take(i + 1)[i] == '\0');
            }
        }
        if c == '\0' {
            found = true;
        }
    }
    assert(s@.take(s@.len() as int) =~= s@);
    found
}

} // verus!
