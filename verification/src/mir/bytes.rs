//! Numbers as bytes, low byte first, by way of `bytemuck`.

use crate::ir::register::from_le_bytes;
use crate::ir::register::le_bytes_u32;
use vstd::prelude::*;

verus! {

/// The eight bytes of `value`, low byte first.
pub open spec fn le_bytes_u64(value: u64) -> Seq<u8> {
    le_bytes_u32((value % 0x1_0000_0000) as u32) + le_bytes_u32((value / 0x1_0000_0000) as u32)
}

/// The 32 bits of `value` as a natural number: `value` itself, or, for a negative
/// `value`, 2^32 more.
pub open spec fn bits_of_i32(value: i32) -> u32 {
    if value >= 0 {
        value as u32
    } else {
        (value + 0x1_0000_0000) as u32
    }
}

/// The integer whose 32 bits are `bits`.
pub open spec fn i32_of_bits(bits: u32) -> i32 {
    if bits < 0x8000_0000 {
        bits as i32
    } else {
        (bits - 0x1_0000_0000) as i32
    }
}

/// Bits and bytes are read back as the numbers they were made of.
pub proof fn lemma_roundtrips(value: i32, wide: u64)
    ensures
        i32_of_bits(bits_of_i32(value)) == value,
        from_le_bytes(le_bytes_u64(wide)) == wide,
        le_bytes_u64(wide).len() == 8,
{
    reveal_with_fuel(from_le_bytes, 9);
    let b = le_bytes_u64(wide);
    assert(b.drop_first().drop_first().drop_first().drop_first().drop_first().drop_first().drop_first().drop_first().len()
        == 0);
}

/// `bytemuck::bytes_of` on a byte: the byte alone.
#[verifier::external_body]
pub(crate) fn bytes_of_u8(value: u8) -> (bytes: Vec<u8>)
    ensures
        bytes@ == seq![value],
{
    bytemuck::bytes_of(&value).to_vec()
}

/// `bytemuck::bytes_of` on a `u32` that was first brought into little-endian order: the
/// four bytes of `value`, low byte first.
#[verifier::external_body]
pub(crate) fn bytes_of_u32(value: u32) -> (bytes: Vec<u8>)
    ensures
        bytes@ == le_bytes_u32(value),
{
    bytemuck::bytes_of(&value.to_le()).to_vec()
}

/// `bytemuck::bytes_of` on an `i32` that was first brought into little-endian order: the
/// four bytes of the bits of `value`, low byte first.
#[verifier::external_body]
pub(crate) fn bytes_of_i32(value: i32) -> (bytes: Vec<u8>)
    ensures
        bytes@ == le_bytes_u32(bits_of_i32(value)),
{
    bytemuck::bytes_of(&value.to_le()).to_vec()
}

/// `bytemuck::bytes_of` on a `u64` that was first brought into little-endian order: the
/// eight bytes of `value`, low byte first.
#[verifier::external_body]
pub(crate) fn bytes_of_u64(value: u64) -> (bytes: Vec<u8>)
    ensures
        bytes@ == le_bytes_u64(value),
{
    bytemuck::bytes_of(&value.to_le()).to_vec()
}

/// `bytemuck::pod_read_unaligned` of a `u32`, taken out of little-endian order: the
/// number whose bytes, low byte first, are `bytes`.
#[verifier::external_body]
pub(crate) fn read_u32(bytes: &[u8]) -> (value: u32)
    requires
        bytes@.len() == 4,
    ensures
        value == from_le_bytes(bytes@),
{
    u32::from_le(bytemuck::pod_read_unaligned(bytes))
}

/// `bytemuck::pod_read_unaligned` of an `i32`, taken out of little-endian order: the
/// integer whose bits are the number whose bytes, low byte first, are `bytes`.
#[verifier::external_body]
pub(crate) fn read_i32(bytes: &[u8]) -> (value: i32)
    requires
        bytes@.len() == 4,
    ensures
        value == i32_of_bits(from_le_bytes(bytes@) as u32),
{
    i32::from_le(bytemuck::pod_read_unaligned(bytes))
}

/// `bytemuck::pod_read_unaligned` of a `u64`, taken out of little-endian order: the
/// number whose bytes, low byte first, are `bytes`.
#[verifier::external_body]
pub(crate) fn read_u64(bytes: &[u8]) -> (value: u64)
    requires
        bytes@.len() == 8,
    ensures
        value == from_le_bytes(bytes@),
{
    u64::from_le(bytemuck::pod_read_unaligned(bytes))
}

} // verus!
