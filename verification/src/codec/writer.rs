//! Append-only writer of the wire representation.

use vstd::prelude::*;
use crate::codec::{wire, MAX_VARIABLE_BYTE_INTEGER};
use crate::error::{protocol, Result};

verus! {

/// The bytes written so far.
pub struct Writer {
    buf: Vec<u8>,
}

impl View for Writer {
    type V = Seq<u8>;

    closed spec fn view(&self) -> Seq<u8> {
        self.buf@
    }
}

impl Default for Writer {
    fn default() -> (r: Self)
        ensures
            r@ == Seq::<u8>::empty(),
    {
        Writer::new()
    }
}

impl Writer {
    pub fn new() -> (r: Self)
        ensures
            r@ == Seq::<u8>::empty(),
    {
        Writer { buf: Vec::new() }
    }

    pub fn with_capacity(cap: usize) -> (r: Self)
        ensures
            r@ == Seq::<u8>::empty(),
    {
        Writer { buf: Vec::with_capacity(cap) }
    }

    pub fn len(&self) -> (r: usize)
        ensures
            r == self@.len(),
    {
        self.buf.len()
    }

    pub fn is_empty(&self) -> (r: bool)
        ensures
            r == (self@.len() == 0),
    {
        self.buf.len() == 0
    }

    pub fn into_vec(self) -> (r: Vec<u8>)
        ensures
            r@ == self@,
    {
        self.buf
    }

    pub fn as_slice(&self) -> (r: &[u8])
        ensures
            r@ == self@,
    {
        self.buf.as_slice()
    }

    pub fn put_u8(&mut self, v: u8)
        ensures
            final(self)@ == old(self)@.push(v),
    {
        self.buf.push(v);
    }

    pub fn put_u16(&mut self, v: u16)
        ensures
            final(self)@ == old(self)@ + wire::be16(v),
    {
        self.buf.push((v / 256) as u8);
        self.buf.push((v % 256) as u8);
        assert(self.buf@ =~= old(self).buf@ + wire::be16(v));
    }

    pub fn put_u32(&mut self, v: u32)
        ensures
            final(self)@ == old(self)@ + wire::be32(v),
    {
        self.buf.push((v / 16777216) as u8);
        self.buf.push(((v / 65536) % 256) as u8);
        self.buf.push(((v / 256) % 256) as u8);
        self.buf.push((v % 256) as u8);
        assert(self.buf@ =~= old(self).buf@ + wire::be32(v));
    }

    pub fn put_bytes(&mut self, v: &[u8])
        ensures
            final(self)@ == old(self)@ + v@,
    {
        self.buf.extend_from_slice(v);
        assert(self.buf@ =~= old(self).buf@ + v@);
    }

    /// Writes a variable byte integer. A value above the maximum is refused,
    /// and nothing is written.
    pub fn put_varint(&mut self, value: u32) -> (r: Result<()>)
        ensures
            match r {
                Ok(_) => value <= MAX_VARIABLE_BYTE_INTEGER && final(self)@ == old(self)@
                    + wire::varint(value as nat),
                Err(e) => value > MAX_VARIABLE_BYTE_INTEGER && e.is_overflow() && final(self)@
                    == old(self)@,
            },
    {
        if value > MAX_VARIABLE_BYTE_INTEGER {
            return Err(protocol("variable byte integer overflow"));
        }
        let mut left: u32 = value;
        while left >= 128
            invariant
                old(self).buf@ + wire::varint(value as nat) == self.buf@ + wire::varint(
                    left as nat,
                ),
            decreases left,
        {
            self.buf.push((128 + left % 128) as u8);
            let ghost next = (left as nat) / 128;
            assert(self.buf@ + wire::varint(next) =~= old(self).buf@ + wire::varint(value as nat));
            left = left / 128;
        }
        self.buf.push(left as u8);
        assert(self.buf@ =~= old(self).buf@ + wire::varint(value as nat));
        Ok(())
    }

    /// Writes binary data with a two-byte length.
    ///
    /// Data longer than 65535 bytes cannot be represented. It is cut to fit,
    /// so that the length prefix never disagrees with what follows it.
    pub fn put_binary(&mut self, v: &[u8])
        ensures
            final(self)@ == old(self)@ + wire::data(v@),
    {
        proof {
            reveal(wire::data);
        }
        let end: usize = if v.len() > 65535 {
            65535
        } else {
            v.len()
        };
        let cut: &[u8] = vstd::slice::slice_subrange(v, 0, end);
        assert(cut@ =~= wire::clamp_data(v@));
        self.put_u16(end as u16);
        self.put_bytes(cut);
        assert(self.buf@ =~= old(self).buf@ + wire::data(v@));
    }

    /// Writes a string with a two-byte length. A string whose encoding is
    /// longer than 65535 bytes is cut between two characters.
    pub fn put_utf8(&mut self, v: &str)
        ensures
            final(self)@ == old(self)@ + wire::text(v@),
    {
        proof {
            reveal(wire::text);
        }
        let bytes: &[u8] = v.as_bytes();
        let mut end: usize = bytes.len();
        if end > 65535 {
            end = 65535;
            while end > 0 && !v.is_char_boundary(end)
                invariant
                    end <= 65535 < bytes@.len(),
                    bytes@ == vstd::utf8::encode_utf8(v@),
                    wire::boundary_below(bytes@, 65535) == wire::boundary_below(
                        bytes@,
                        end as int,
                    ),
                decreases end,
            {
                end = end - 1;
            }
        }
        let cut: &[u8] = vstd::slice::slice_subrange(bytes, 0, end);
        assert(cut@ =~= wire::clamp_text(bytes@));
        self.put_u16(end as u16);
        self.put_bytes(cut);
        assert(self.buf@ =~= old(self).buf@ + wire::text(v@));
    }

    pub fn put_utf8_pair(&mut self, k: &str, v: &str)
        ensures
            final(self)@ == old(self)@ + (wire::text(k@) + wire::text(v@)),
    {
        self.put_utf8(k);
        self.put_utf8(v);
        assert(self.buf@ =~= old(self).buf@ + (wire::text(k@) + wire::text(v@)));
    }
}

} // verus!
