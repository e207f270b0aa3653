//! Big-endian integer views of byte sequences, and the trusted readers
//! that the codec uses to pull network-order integers out of a buffer.

use vstd::prelude::*;

verus! {

/// The 16-bit big-endian integer formed by two bytes.
pub open spec fn be16(b0: u8, b1: u8) -> u16 {
    ((b0 as int) * 0x100 + (b1 as int)) as u16
}

/// The 32-bit big-endian integer formed by four bytes.
pub open spec fn be32(b0: u8, b1: u8, b2: u8, b3: u8) -> u32 {
    ((b0 as int) * 0x1000000 + (b1 as int) * 0x10000 + (b2 as int) * 0x100 + (b3 as int)) as u32
}

/// Relies on byteorder's `BigEndian::read_u16`: the first two bytes of the
/// slice, most significant first.
#[verifier::external_body]
pub fn read_u16_at(b: &[u8], off: usize) -> (v: u16)
    requires
        off + 2 <= b@.len(),
    ensures
        v == be16(b@[off as int], b@[off as int + 1]),
{
    <byteorder::BigEndian as byteorder::ByteOrder>::read_u16(&b[off..])
}

/// Relies on byteorder's `BigEndian::read_u32`: the first four bytes of the
/// slice, most significant first.
#[verifier::external_body]
pub fn read_u32_at(b: &[u8], off: usize) -> (v: u32)
    requires
        off + 4 <= b@.len(),
    ensures
        v == be32(b@[off as int], b@[off as int + 1], b@[off as int + 2], b@[off as int + 3]),
{
    <byteorder::BigEndian as byteorder::ByteOrder>::read_u32(&b[off..])
}

/// One byte of a slice; a checked read used by every decoder.
pub fn byte_at(b: &[u8], off: usize) -> (v: u8)
    requires
        off < b@.len(),
    ensures
        v == b@[off as int],
{
    *vstd::slice::slice_index_get(b, off)
}

/// The 24-bit big-endian integer formed by three bytes, stored in a `u32`.
pub open spec fn be24(b0: u8, b1: u8, b2: u8) -> u32 {
    ((b0 as int) * 0x10000 + (b1 as int) * 0x100 + (b2 as int)) as u32
}

/// The high byte of a 16-bit integer.
pub open spec fn u16_hi(v: u16) -> u8 {
    (v / 0x100) as u8
}

/// The low byte of a 16-bit integer.
pub open spec fn u16_lo(v: u16) -> u8 {
    (v % 0x100) as u8
}

/// The most significant byte of a 32-bit integer.
pub open spec fn u32_b0(v: u32) -> u8 {
    (v / 0x1000000) as u8
}

pub open spec fn u32_b1(v: u32) -> u8 {
    ((v / 0x10000) % 0x100) as u8
}

pub open spec fn u32_b2(v: u32) -> u8 {
    ((v / 0x100) % 0x100) as u8
}

/// The least significant byte of a 32-bit integer.
pub open spec fn u32_b3(v: u32) -> u8 {
    (v % 0x100) as u8
}

/// The most significant byte of a 24-bit integer stored in a `u32`.
pub open spec fn u24_b0(v: u32) -> u8 {
    ((v / 0x10000) % 0x100) as u8
}

pub open spec fn u24_b1(v: u32) -> u8 {
    ((v / 0x100) % 0x100) as u8
}

pub open spec fn u24_b2(v: u32) -> u8 {
    (v % 0x100) as u8
}

/// Splitting an integer below 2^16 into its two big-endian bytes and
/// reassembling them gives the integer back.
pub proof fn lemma_be16_split(v: u16)
    ensures
        be16(u16_hi(v), u16_lo(v)) == v,
{
}

/// Splitting a 32-bit integer into its four big-endian bytes and
/// reassembling them gives the integer back.
pub proof fn lemma_be32_split(v: u32)
    ensures
        be32(u32_b0(v), u32_b1(v), u32_b2(v), u32_b3(v)) == v,
{
    let x: int = v as int;
    vstd::arithmetic::div_mod::lemma_fundamental_div_mod(x, 0x100);
    vstd::arithmetic::div_mod::lemma_fundamental_div_mod(x / 0x100, 0x100);
    vstd::arithmetic::div_mod::lemma_fundamental_div_mod(x / 0x10000, 0x100);
    vstd::arithmetic::div_mod::lemma_div_denominator(x, 0x100, 0x100);
    vstd::arithmetic::div_mod::lemma_div_denominator(x, 0x10000, 0x100);
    assert(x / 0x1000000 < 0x100);
}

/// Splitting a 24-bit value into its three big-endian bytes and
/// reassembling them gives the value back.
pub proof fn lemma_be24_split(v: u32)
    requires
        v < 0x1000000,
    ensures
        be24(u24_b0(v), u24_b1(v), u24_b2(v)) == v,
{
    let x: int = v as int;
    vstd::arithmetic::div_mod::lemma_fundamental_div_mod(x, 0x100);
    vstd::arithmetic::div_mod::lemma_fundamental_div_mod(x / 0x100, 0x100);
    vstd::arithmetic::div_mod::lemma_div_denominator(x, 0x100, 0x100);
    assert(x / 0x10000 < 0x100);
    vstd::arithmetic::div_mod::lemma_small_mod((x / 0x10000) as nat, 0x100);
}

} // verus!
