//! Big-endian integers as they appear in a bundle.

use vstd::prelude::*;

verus! {

/// The four bytes of `x`, most significant first.
pub open spec fn be32(x: u32) -> Seq<u8> {
    seq![
        (x / 0x100_0000) as u8,
        (x / 0x1_0000 % 0x100) as u8,
        (x / 0x100 % 0x100) as u8,
        (x % 0x100) as u8,
    ]
}

/// The number that four bytes spell, most significant first.
pub open spec fn be32_value(b: Seq<u8>) -> int
    recommends
        b.len() == 4,
{
    b[0] * 0x100_0000 + b[1] * 0x1_0000 + b[2] * 0x100 + b[3]
}

/// The eight bytes of `x`, most significant first.
pub open spec fn be64(x: u64) -> Seq<u8> {
    be32((x / 0x1_0000_0000) as u32) + be32((x % 0x1_0000_0000) as u32)
}

/// The number that eight bytes spell, most significant first.
pub open spec fn be64_value(b: Seq<u8>) -> int
    recommends
        b.len() == 8,
{
    be32_value(b.subrange(0, 4)) * 0x1_0000_0000 + be32_value(b.subrange(4, 8))
}

/// Four digits below 256 are recovered from the number they spell in
/// base 256.
proof fn lemma_base256_digits(d0: int, d1: int, d2: int, d3: int)
    requires
        0 <= d0 < 0x100,
        0 <= d1 < 0x100,
        0 <= d2 < 0x100,
        0 <= d3 < 0x100,
    ensures
        ({
            let v = d0 * 0x100_0000 + d1 * 0x1_0000 + d2 * 0x100 + d3;
            &&& 0 <= v <= 0xffff_ffff
            &&& v / 0x100_0000 == d0
            &&& v / 0x1_0000 % 0x100 == d1
            &&& v / 0x100 % 0x100 == d2
            &&& v % 0x100 == d3
        }),
{
}

/// Four bytes spell a number that fits in 32 bits, and encoding that
/// number gives the same four bytes back.
pub proof fn lemma_be32_of_value(b: Seq<u8>)
    requires
        b.len() == 4,
    ensures
        0 <= be32_value(b) <= u32::MAX,
        be32(be32_value(b) as u32) == b,
{
    lemma_base256_digits(b[0] as int, b[1] as int, b[2] as int, b[3] as int);
    assert(be32(be32_value(b) as u32) =~= b);
}

/// Decoding the four bytes of `x` gives `x`.
pub proof fn lemma_be32_value_of(x: u32)
    ensures
        be32(x).len() == 4,
        be32_value(be32(x)) == x,
{
}

/// Decoding the eight bytes of `x` gives `x`.
pub proof fn lemma_be64_value_of(x: u64)
    ensures
        be64(x).len() == 8,
        be64_value(be64(x)) == x,
{
    let hi = (x / 0x1_0000_0000) as u32;
    let lo = (x % 0x1_0000_0000) as u32;
    lemma_be32_value_of(hi);
    lemma_be32_value_of(lo);
    assert(be64(x).subrange(0, 4) =~= be32(hi));
    assert(be64(x).subrange(4, 8) =~= be32(lo));
}

/// Appends the four bytes of `x` to `out`.
pub fn put_be32(out: &mut Vec<u8>, x: u32)
    ensures
        final(out)@ == old(out)@ + be32(x),
{
    out.push((x / 0x100_0000) as u8);
    out.push((x / 0x1_0000 % 0x100) as u8);
    out.push((x / 0x100 % 0x100) as u8);
    out.push((x % 0x100) as u8);
    assert(out@ =~= old(out)@ + be32(x));
}

/// Appends the eight bytes of `x` to `out`.
pub fn put_be64(out: &mut Vec<u8>, x: u64)
    ensures
        final(out)@ == old(out)@ + be64(x),
{
    put_be32(out, (x / 0x1_0000_0000) as u32);
    put_be32(out, (x % 0x1_0000_0000) as u32);
    assert(out@ =~= old(out)@ + be64(x));
}

/// Reads the 32-bit number whose bytes start at `at`.
pub fn get_be32(stream: &[u8], at: usize) -> (x: u32)
    requires
        at + 4 <= stream@.len(),
    ensures
        x == be32_value(stream@.subrange(at as int, at + 4)),
{
    let b0: u32 = stream[at] as u32;
    let b1: u32 = stream[at + 1] as u32;
    let b2: u32 = stream[at + 2] as u32;
    let b3: u32 = stream[at + 3] as u32;
    b0 * 0x100_0000 + b1 * 0x1_0000 + b2 * 0x100 + b3
}

/// Reads the 64-bit number whose bytes start at `at`.
pub fn get_be64(stream: &[u8], at: usize) -> (x: u64)
    requires
        at + 8 <= stream@.len(),
    ensures
        x == be64_value(stream@.subrange(at as int, at + 8)),
{
    assert(at + 8 <= stream.len());
    let hi: u64 = get_be32(stream, at) as u64;
    let lo: u64 = get_be32(stream, at + 4) as u64;
    proof {
        let b = stream@.subrange(at as int, at + 8);
        assert(b.subrange(0, 4) =~= stream@.subrange(at as int, at + 4));
        assert(b.subrange(4, 8) =~= stream@.subrange(at + 4, at + 8));
        lemma_be32_of_value(b.subrange(0, 4));
        lemma_be32_of_value(b.subrange(4, 8));
    }
    hi * 0x1_0000_0000 + lo
}

} // verus!
