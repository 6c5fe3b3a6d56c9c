//! Byte sequences: little-endian integers, appending and dropping.

use vstd::prelude::*;
use vstd::slice::*;

verus! {

/// The two bytes of a 16-bit integer, least significant first.
pub open spec fn le16(x: u16) -> Seq<u8> {
    seq![(x % 256) as u8, (x / 256) as u8]
}

/// The four bytes of a 32-bit integer, least significant first.
pub open spec fn le32(x: u32) -> Seq<u8> {
    seq![
        (x % 256) as u8,
        (x / 256 % 256) as u8,
        (x / 65536 % 256) as u8,
        (x / 16777216) as u8,
    ]
}

/// The integer whose bytes, least significant first, are `a` and `b`.
pub open spec fn from_le16(a: u8, b: u8) -> u16 {
    (a + 256 * b) as u16
}

/// The integer whose bytes, least significant first, are `a`, `b`, `c` and `d`.
pub open spec fn from_le32(a: u8, b: u8, c: u8, d: u8) -> u32 {
    (a + 256 * b + 65536 * c + 16777216 * d) as u32
}

/// The unsigned integer with the same 32 bits, in two's complement.
pub open spec fn bits_of(x: i32) -> u32 {
    if x >= 0 {
        x as u32
    } else {
        (x + 0x1_0000_0000) as u32
    }
}

/// The signed integer with the same 32 bits, in two's complement.
pub open spec fn signed_of(x: u32) -> i32 {
    if x < 0x8000_0000 {
        x as i32
    } else {
        (x - 0x1_0000_0000) as i32
    }
}

/// Reading the bytes of an integer gives the integer back.
pub proof fn lemma_le_round_trip(x: u16, y: u32, z: i32)
    ensures
        from_le16(le16(x)[0], le16(x)[1]) == x,
        from_le32(le32(y)[0], le32(y)[1], le32(y)[2], le32(y)[3]) == y,
        signed_of(bits_of(z)) == z,
{
}

/// Appends bytes to a buffer.
pub fn push_bytes(buf: &mut Vec<u8>, bytes: &[u8])
    ensures
        final(buf)@ == old(buf)@ + bytes@,
{
    let ghost before = buf@;
    buf.extend_from_slice(bytes);
    assert(buf@ =~= before + bytes@);
}

/// Appends the two bytes of `x`, least significant first.
pub fn push_le16(buf: &mut Vec<u8>, x: u16)
    ensures
        final(buf)@ == old(buf)@ + le16(x),
{
    let ghost before = buf@;
    buf.push((x % 256) as u8);
    buf.push((x / 256) as u8);
    assert(buf@ =~= before + le16(x));
}

/// Appends the four bytes of `x`, least significant first.
pub fn push_le32(buf: &mut Vec<u8>, x: u32)
    ensures
        final(buf)@ == old(buf)@ + le32(x),
{
    let ghost before = buf@;
    buf.push((x % 256) as u8);
    buf.push((x / 256 % 256) as u8);
    buf.push((x / 65536 % 256) as u8);
    buf.push((x / 16777216) as u8);
    assert(buf@ =~= before + le32(x));
}

/// The integer whose bytes, least significant first, are `a` and `b`.
pub fn join_le16(a: u8, b: u8) -> (x: u16)
    ensures
        x == from_le16(a, b),
{
    (a as u16) + 256 * (b as u16)
}

/// The integer whose bytes, least significant first, are `a`, `b`, `c` and `d`.
pub fn join_le32(a: u8, b: u8, c: u8, d: u8) -> (x: u32)
    ensures
        x == from_le32(a, b, c, d),
{
    (a as u32) + 256 * (b as u32) + 65536 * (c as u32) + 16777216 * (d as u32)
}

/// The unsigned integer with the same 32 bits.
pub fn to_bits(x: i32) -> (y: u32)
    ensures
        y == bits_of(x),
{
    if x >= 0 {
        x as u32
    } else {
        (x as i64 + 0x1_0000_0000) as u32
    }
}

/// The signed integer with the same 32 bits.
pub fn to_signed(x: u32) -> (y: i32)
    ensures
        y == signed_of(x),
{
    if x < 0x8000_0000 {
        x as i32
    } else {
        (x as i64 - 0x1_0000_0000) as i32
    }
}

/// Drops the first `n` bytes of a buffer.
pub fn drop_front(buf: &mut Vec<u8>, n: usize)
    requires
        n <= old(buf)@.len(),
    ensures
        final(buf)@ == old(buf)@.skip(n as int),
{
    let rest: Vec<u8> = slice_to_vec(slice_subrange(buf.as_slice(), n, buf.len()));
    *buf = rest;
}

} // verus!
