//! Big-endian reading and writing of 16- and 32-bit values.

use vstd::prelude::*;

verus! {

/// A big-endian 16-bit value.
pub open spec fn be16(hi: u8, lo: u8) -> u16 {
    ((hi as u16) << 8u16 | lo as u16) as u16
}

/// A big-endian 32-bit value.
pub open spec fn be32(b0: u8, b1: u8, b2: u8, b3: u8) -> u32 {
    ((b0 as u32) << 24u32 | (b1 as u32) << 16u32 | (b2 as u32) << 8u32 | b3 as u32) as u32
}

/// The two bytes of `x`, most significant first.
pub open spec fn be16_bytes(x: u16) -> Seq<u8> {
    seq![(x >> 8u16) as u8, (x & 0xffu16) as u8]
}

/// The four bytes of `x`, most significant first.
pub open spec fn be32_bytes(x: u32) -> Seq<u8> {
    seq![(x >> 24u32) as u8, (x >> 16u32) as u8, (x >> 8u32) as u8, (x & 0xffu32) as u8]
}

/// The 16-bit value at bytes `i` and `i + 1` of `b`.
pub fn read_be16(b: &Vec<u8>, i: usize) -> (x: u16)
    requires
        i + 1 < b.len(),
    ensures
        x == be16(b@[i as int], b@[i + 1]),
{
    ((b[i] as u16) << 8) | (b[i + 1] as u16)
}

/// The 32-bit value at bytes `i` to `i + 3` of `b`.
pub fn read_be32(b: &Vec<u8>, i: usize) -> (x: u32)
    requires
        i + 3 < b.len(),
    ensures
        x == be32(b@[i as int], b@[i + 1], b@[i + 2], b@[i + 3]),
{
    ((b[i] as u32) << 24) | ((b[i + 1] as u32) << 16) | ((b[i + 2] as u32) << 8) | (b[i + 3] as u32)
}

/// Appends the two bytes of `x`, most significant first.
pub fn push_be16(v: &mut Vec<u8>, x: u16)
    ensures
        final(v)@ == old(v)@ + be16_bytes(x),
{
    v.push((x >> 8) as u8);
    v.push((x & 0xff) as u8);
    assert(v@ =~= old(v)@ + be16_bytes(x));
}

/// Appends the four bytes of `x`, most significant first.
pub fn push_be32(v: &mut Vec<u8>, x: u32)
    ensures
        final(v)@ == old(v)@ + be32_bytes(x),
{
    v.push((x >> 24) as u8);
    v.push((x >> 16) as u8);
    v.push((x >> 8) as u8);
    v.push((x & 0xff) as u8);
    assert(v@ =~= old(v)@ + be32_bytes(x));
}

/// Writing a 16-bit value and reading it back gives the value.
pub proof fn lemma_be16_roundtrip(x: u16)
    ensures
        be16(be16_bytes(x)[0], be16_bytes(x)[1]) == x,
{
    let hi = (x >> 8u16) as u8;
    let lo = (x & 0xffu16) as u8;
    assert(((hi as u16) << 8u16 | (lo as u16)) == x) by (bit_vector)
        requires
            hi == (x >> 8u16) as u8,
            lo == (x & 0xffu16) as u8,
    ;
}

/// Reading a 16-bit value and writing it back gives the bytes.
pub proof fn lemma_be16_bytes_roundtrip(hi: u8, lo: u8)
    ensures
        be16_bytes(be16(hi, lo)) == seq![hi, lo],
{
    let x = be16(hi, lo);
    assert((x >> 8u16) as u8 == hi && (x & 0xffu16) as u8 == lo) by (bit_vector)
        requires
            x == (hi as u16) << 8u16 | (lo as u16),
    ;
    assert(be16_bytes(x) =~= seq![hi, lo]);
}

/// Writing a 32-bit value and reading it back gives the value.
pub proof fn lemma_be32_roundtrip(x: u32)
    ensures
        be32(be32_bytes(x)[0], be32_bytes(x)[1], be32_bytes(x)[2], be32_bytes(x)[3]) == x,
{
    let c0 = (x >> 24u32) as u8;
    let c1 = (x >> 16u32) as u8;
    let c2 = (x >> 8u32) as u8;
    let c3 = (x & 0xffu32) as u8;
    assert(((c0 as u32) << 24u32 | (c1 as u32) << 16u32 | (c2 as u32) << 8u32 | (c3 as u32)) == x)
        by (bit_vector)
        requires
            c0 == (x >> 24u32) as u8,
            c1 == (x >> 16u32) as u8,
            c2 == (x >> 8u32) as u8,
            c3 == (x & 0xffu32) as u8,
    ;
}

/// Reading a 32-bit value and writing it back gives the bytes.
pub proof fn lemma_be32_bytes_roundtrip(c0: u8, c1: u8, c2: u8, c3: u8)
    ensures
        be32_bytes(be32(c0, c1, c2, c3)) == seq![c0, c1, c2, c3],
{
    let x = be32(c0, c1, c2, c3);
    assert((x >> 24u32) as u8 == c0 && (x >> 16u32) as u8 == c1 && (x >> 8u32) as u8 == c2 && (x
        & 0xffu32) as u8 == c3) by (bit_vector)
        requires
            x == (c0 as u32) << 24u32 | (c1 as u32) << 16u32 | (c2 as u32) << 8u32 | (c3 as u32),
    ;
    assert(be32_bytes(x) =~= seq![c0, c1, c2, c3]);
}

} // verus!
