//! Big-endian encoding of the fixed-width integers that the wire format uses.

use vstd::prelude::*;

verus! {

/// The two bytes of `x`, most significant first.
#[verifier::opaque]
pub open spec fn u16_be(x: u16) -> Seq<u8> {
    seq![(x / 0x100) as u8, (x % 0x100) as u8]
}

/// The number that the first two bytes of `b` spell, most significant first.
#[verifier::opaque]
pub open spec fn u16_from_be(b: Seq<u8>) -> u16
    recommends
        b.len() >= 2,
{
    (b[0] * 0x100 + b[1]) as u16
}

/// The four bytes of `x`, most significant first.
#[verifier::opaque]
pub open spec fn u32_be(x: u32) -> Seq<u8> {
    seq![
        (x / 0x100_0000) as u8,
        (x / 0x1_0000 % 0x100) as u8,
        (x / 0x100 % 0x100) as u8,
        (x % 0x100) as u8,
    ]
}

/// The number that the first four bytes of `b` spell, most significant first.
#[verifier::opaque]
pub open spec fn u32_from_be(b: Seq<u8>) -> u32
    recommends
        b.len() >= 4,
{
    (b[0] * 0x100_0000 + b[1] * 0x1_0000 + b[2] * 0x100 + b[3]) as u32
}

/// The eight bytes of `x`, most significant first.
#[verifier::opaque]
pub open spec fn u64_be(x: u64) -> Seq<u8> {
    u32_be((x / 0x1_0000_0000) as u32) + u32_be((x % 0x1_0000_0000) as u32)
}

/// The number that the first eight bytes of `b` spell, most significant first.
#[verifier::opaque]
pub open spec fn u64_from_be(b: Seq<u8>) -> u64
    recommends
        b.len() >= 8,
{
    (u32_from_be(b.subrange(0, 4)) * 0x1_0000_0000 + u32_from_be(b.subrange(4, 8))) as u64
}

/// The two's complement image of a signed 32-bit number.
pub open spec fn i32_bits(x: i32) -> u32 {
    if x >= 0 {
        x as u32
    } else {
        (x + 0x1_0000_0000) as u32
    }
}

/// The signed number whose two's complement image is `x`.
pub open spec fn i32_from_bits(x: u32) -> i32 {
    if x < 0x8000_0000 {
        x as i32
    } else {
        (x - 0x1_0000_0000) as i32
    }
}

/// Decoding undoes encoding of a 16-bit number.
pub proof fn lemma_u16_round_trip(x: u16)
    ensures
        u16_be(x).len() == 2,
        u16_from_be(u16_be(x)) == x,
{
    reveal(u16_be);
    reveal(u16_from_be);
}

/// Decoding undoes encoding of a 32-bit number.
pub proof fn lemma_u32_round_trip(x: u32)
    ensures
        u32_be(x).len() == 4,
        u32_from_be(u32_be(x)) == x,
{
    reveal(u32_be);
    reveal(u32_from_be);
    let a = x / 0x100;
    let b = a / 0x100;
    let c = b / 0x100;
    assert(x == a * 0x100 + x % 0x100);
    assert(a == b * 0x100 + a % 0x100);
    assert(b == c * 0x100 + b % 0x100);
    assert(b == x / 0x1_0000);
    assert(c == x / 0x100_0000);
    assert(c < 0x100);
}

/// Decoding undoes encoding of a 64-bit number.
pub proof fn lemma_u64_round_trip(x: u64)
    ensures
        u64_be(x).len() == 8,
        u64_from_be(u64_be(x)) == x,
{
    reveal(u64_be);
    reveal(u64_from_be);
    let hi = (x / 0x1_0000_0000) as u32;
    let lo = (x % 0x1_0000_0000) as u32;
    lemma_u32_round_trip(hi);
    lemma_u32_round_trip(lo);
    assert(u64_be(x).subrange(0, 4) =~= u32_be(hi));
    assert(u64_be(x).subrange(4, 8) =~= u32_be(lo));
}

/// The two's complement image of a signed number names that number alone.
pub proof fn lemma_i32_round_trip(x: i32)
    ensures
        i32_from_bits(i32_bits(x)) == x,
{
}

pub fn i32_to_bits(x: i32) -> (r: u32)
    ensures
        r == i32_bits(x),
{
    if x >= 0 {
        x as u32
    } else {
        let wide: i64 = x as i64 + 0x1_0000_0000;
        wide as u32
    }
}

pub fn bits_to_i32(x: u32) -> (r: i32)
    ensures
        r == i32_from_bits(x),
{
    if x < 0x8000_0000 {
        x as i32
    } else {
        let wide: i64 = x as i64 - 0x1_0000_0000;
        wide as i32
    }
}

/// Appends `src` to `out`.
pub fn push_bytes(out: &mut Vec<u8>, src: &[u8])
    ensures
        final(out)@ == old(out)@ + src@,
{
    let mut i: usize = 0;
    while i < src.len()
        invariant
            i <= src.len(),
            out@ == old(out)@ + src@.subrange(0, i as int),
        decreases src.len() - i,
    {
        out.push(src[i]);
        i += 1;
        assert(out@ =~= old(out)@ + src@.subrange(0, i as int));
    }
    assert(src@.subrange(0, i as int) =~= src@);
}

/// Appends the big-endian form of `x` to `out`.
pub fn push_u16_be(out: &mut Vec<u8>, x: u16)
    ensures
        final(out)@ == old(out)@ + u16_be(x),
{
    proof {
        reveal(u16_be);
    }
    out.push((x / 0x100) as u8);
    out.push((x % 0x100) as u8);
    assert(out@ =~= old(out)@ + u16_be(x));
}

/// Appends the big-endian form of `x` to `out`.
pub fn push_u32_be(out: &mut Vec<u8>, x: u32)
    ensures
        final(out)@ == old(out)@ + u32_be(x),
{
    proof {
        reveal(u32_be);
    }
    out.push((x / 0x100_0000) as u8);
    out.push((x / 0x1_0000 % 0x100) as u8);
    out.push((x / 0x100 % 0x100) as u8);
    out.push((x % 0x100) as u8);
    assert(out@ =~= old(out)@ + u32_be(x));
}

/// Appends the big-endian form of `x` to `out`.
pub fn push_u64_be(out: &mut Vec<u8>, x: u64)
    ensures
        final(out)@ == old(out)@ + u64_be(x),
{
    proof {
        reveal(u64_be);
    }
    let ghost before = out@;
    push_u32_be(out, (x / 0x1_0000_0000) as u32);
    push_u32_be(out, (x % 0x1_0000_0000) as u32);
    assert(out@ =~= before + u64_be(x));
}

/// Reads the two bytes at `at` as a big-endian number.
pub fn read_u16_be(buf: &[u8], at: usize) -> (r: u16)
    requires
        at + 2 <= buf.len(),
    ensures
        r == u16_from_be(buf@.subrange(at as int, at + 2)),
{
    proof {
        reveal(u16_from_be);
    }
    let b0: u16 = buf[at] as u16;
    let b1: u16 = buf[at + 1] as u16;
    b0 * 0x100 + b1
}

/// Reads the four bytes at `at` as a big-endian number.
pub fn read_u32_be(buf: &[u8], at: usize) -> (r: u32)
    requires
        at + 4 <= buf.len(),
    ensures
        r == u32_from_be(buf@.subrange(at as int, at + 4)),
{
    proof {
        reveal(u32_from_be);
    }
    let b0: u32 = buf[at] as u32;
    let b1: u32 = buf[at + 1] as u32;
    let b2: u32 = buf[at + 2] as u32;
    let b3: u32 = buf[at + 3] as u32;
    b0 * 0x100_0000 + b1 * 0x1_0000 + b2 * 0x100 + b3
}

/// Reads the eight bytes at `at` as a big-endian number.
pub fn read_u64_be(buf: &[u8], at: usize) -> (r: u64)
    requires
        at + 8 <= buf.len(),
    ensures
        r == u64_from_be(buf@.subrange(at as int, at + 8)),
{
    proof {
        reveal(u64_from_be);
    }
    let hi: u64 = read_u32_be(buf, at) as u64;
    let lo: u64 = read_u32_be(buf, at + 4) as u64;
    let ghost whole = buf@.subrange(at as int, at + 8);
    assert(whole.subrange(0, 4) =~= buf@.subrange(at as int, at + 4));
    assert(whole.subrange(4, 8) =~= buf@.subrange(at + 4, at + 8));
    hi * 0x1_0000_0000 + lo
}

} // verus!
