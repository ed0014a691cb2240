//! The data representation of MQTT: integers, variable byte integers, binary
//! data, strings, and the property codec.
//!
//! `Reader` walks a byte slice; `Writer` accumulates into a `Vec<u8>`. What
//! the bytes mean is stated in `wire`, as functions on byte sequences.

use vstd::prelude::*;

pub mod wire;
mod properties;
mod reader;
mod writer;

pub use properties::{properties_roundtrip, Properties, PropertiesView, PropVal};
pub use reader::Reader;
pub use writer::Writer;

verus! {

/// Maximum value of a variable byte integer.
pub const MAX_VARIABLE_BYTE_INTEGER: u32 = 268_435_455;

/// Number of bytes of a variable byte integer; four for a number that is none.
pub open spec fn varint_size(value: u32) -> nat {
    if value <= MAX_VARIABLE_BYTE_INTEGER {
        wire::varint(value as nat).len()
    } else {
        4
    }
}

/// Number of bytes needed to encode `value` as a variable byte integer.
pub fn varint_len(value: u32) -> (r: usize)
    ensures
        r == varint_size(value),
        1 <= r <= 4,
{
    proof {
        reveal_with_fuel(wire::varint, 4);
    }
    if value <= 127 {
        1
    } else if value <= 16_383 {
        2
    } else if value <= 2_097_151 {
        3
    } else {
        4
    }
}

} // verus!
