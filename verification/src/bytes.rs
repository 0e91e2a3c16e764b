//! Little-endian integers read from message bytes with the `byteorder`
//! crate.
use byteorder::ByteOrder;
use vstd::prelude::*;

verus! {

/// The unsigned value of the first four bytes of `b`, least significant
/// first.
pub open spec fn le_u32(b: Seq<u8>) -> int {
    b[0] + b[1] * 0x100 + b[2] * 0x1_0000 + b[3] * 0x100_0000
}

/// The same four bytes read as a two's-complement signed value.
pub open spec fn le_i32(b: Seq<u8>) -> int {
    if le_u32(b) >= 0x8000_0000 {
        le_u32(b) - 0x1_0000_0000
    } else {
        le_u32(b)
    }
}

/// `byteorder::LittleEndian::read_u32`.
///
/// Trusted: the crate builds the value with `u32::from_le_bytes` from the
/// first four bytes; it panics on fewer, which the `requires` rules out.
#[verifier::external_body]
pub(crate) fn read_u32_le(buf: &[u8]) -> (r: u32)
    requires
        buf@.len() >= 4,
    ensures
        r == le_u32(buf@),
{
    byteorder::LittleEndian::read_u32(buf)
}

/// `byteorder::LittleEndian::read_i32`.
///
/// Trusted: the crate reads the unsigned value as `read_u32` does and casts
/// it to `i32`; it panics on fewer than four bytes, which the `requires`
/// rules out.
#[verifier::external_body]
pub(crate) fn read_i32_le(buf: &[u8]) -> (r: i32)
    requires
        buf@.len() >= 4,
    ensures
        r == le_i32(buf@),
{
    byteorder::LittleEndian::read_i32(buf)
}

} // verus!
