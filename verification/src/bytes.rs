//! Big-endian views of fixed-width integers, and the two's-complement
//! correspondence between signed values and their unsigned bit patterns.
//! Every multi-byte quantity on the wire is big-endian.

use vstd::prelude::*;

verus! {

/// The two big-endian bytes of a 16-bit value.
pub open spec fn be16(n: u16) -> Seq<u8> {
    seq![(n / 256) as u8, (n % 256) as u8]
}

/// The four big-endian bytes of a 32-bit value.
pub open spec fn be32(n: u32) -> Seq<u8> {
    seq![
        (n / 0x100_0000) as u8,
        ((n / 0x1_0000) % 256) as u8,
        ((n / 256) % 256) as u8,
        (n % 256) as u8,
    ]
}

/// The eight big-endian bytes of a 64-bit value.
pub open spec fn be64(n: u64) -> Seq<u8> {
    be32((n / 0x1_0000_0000) as u32) + be32((n % 0x1_0000_0000) as u32)
}

/// The 16-bit value read from two big-endian bytes.
pub open spec fn from_be16(b0: u8, b1: u8) -> u16 {
    ((b0 as int) * 256 + (b1 as int)) as u16
}

/// The 32-bit value read from four big-endian bytes.
pub open spec fn from_be32(b0: u8, b1: u8, b2: u8, b3: u8) -> u32 {
    ((b0 as int) * 0x100_0000 + (b1 as int) * 0x1_0000 + (b2 as int) * 256 + (b3 as int)) as u32
}

/// The 64-bit value read from eight big-endian bytes.
pub open spec fn from_be64(hi: u32, lo: u32) -> u64 {
    ((hi as int) * 0x1_0000_0000 + (lo as int)) as u64
}

/// The unsigned bit pattern of a signed 8-bit value (two's complement).
pub open spec fn u8_of_i8(v: i8) -> u8 {
    if v >= 0 {
        v as u8
    } else {
        (v + 0x100) as u8
    }
}

/// The signed 8-bit value whose bit pattern is the given byte.
pub open spec fn i8_of_u8(u: u8) -> i8 {
    if u < 0x80 {
        u as i8
    } else {
        (u - 0x100) as i8
    }
}

/// The unsigned bit pattern of a signed 16-bit value.
pub open spec fn u16_of_i16(v: i16) -> u16 {
    if v >= 0 {
        v as u16
    } else {
        (v + 0x1_0000) as u16
    }
}

/// The signed 16-bit value whose bit pattern is given.
pub open spec fn i16_of_u16(u: u16) -> i16 {
    if u < 0x8000 {
        u as i16
    } else {
        (u - 0x1_0000) as i16
    }
}

/// The unsigned bit pattern of a signed 32-bit value.
pub open spec fn u32_of_i32(v: i32) -> u32 {
    if v >= 0 {
        v as u32
    } else {
        (v + 0x1_0000_0000) as u32
    }
}

/// The signed 32-bit value whose bit pattern is given.
pub open spec fn i32_of_u32(u: u32) -> i32 {
    if u < 0x8000_0000 {
        u as i32
    } else {
        (u - 0x1_0000_0000) as i32
    }
}

/// The unsigned bit pattern of a signed 64-bit value.
pub open spec fn u64_of_i64(v: i64) -> u64 {
    if v >= 0 {
        v as u64
    } else {
        (v + 0x1_0000_0000_0000_0000) as u64
    }
}

/// The signed 64-bit value whose bit pattern is given.
pub open spec fn i64_of_u64(u: u64) -> i64 {
    if u < 0x8000_0000_0000_0000 {
        u as i64
    } else {
        (u - 0x1_0000_0000_0000_0000) as i64
    }
}

/// Reading back the two big-endian bytes of a value yields the value, and
/// writing the value a pair of bytes was read from yields the bytes.
pub proof fn lemma_be16_round(n: u16, b0: u8, b1: u8)
    ensures
        from_be16((n / 256) as u8, (n % 256) as u8) == n,
        be16(from_be16(b0, b1)) == seq![b0, b1],
{
    let m = from_be16(b0, b1);
    assert(m / 256 == b0 && m % 256 == b1) by (nonlinear_arith)
        requires
            m == (b0 as u16) * 256 + (b1 as u16),
    ;
    assert(be16(m) =~= seq![b0, b1]);
}

/// As [`lemma_be16_round`], for 32-bit values.
pub proof fn lemma_be32_round(n: u32, b0: u8, b1: u8, b2: u8, b3: u8)
    ensures
        be32(n) == seq![
            (n / 0x100_0000) as u8,
            ((n / 0x1_0000) % 256) as u8,
            ((n / 256) % 256) as u8,
            (n % 256) as u8,
        ],
        from_be32((n / 0x100_0000) as u8, ((n / 0x1_0000) % 256) as u8, ((n / 256) % 256) as u8, (n % 256) as u8) == n,
        be32(from_be32(b0, b1, b2, b3)) == seq![b0, b1, b2, b3],
{
    assert((n / 0x100_0000) * 0x100_0000 + ((n / 0x1_0000) % 256) * 0x1_0000 + ((n / 256) % 256)
        * 256 + n % 256 == n) by (nonlinear_arith);
    let m = from_be32(b0, b1, b2, b3);
    assert(m / 0x100_0000 == b0 && (m / 0x1_0000) % 256 == b1 && (m / 256) % 256 == b2 && m % 256
        == b3) by (nonlinear_arith)
        requires
            m == (b0 as u32) * 0x100_0000 + (b1 as u32) * 0x1_0000 + (b2 as u32) * 256 + (
            b3 as u32),
    ;
    assert(be32(m) =~= seq![b0, b1, b2, b3]);
}

/// As [`lemma_be16_round`], for 64-bit values split into two 32-bit halves.
pub proof fn lemma_be64_round(n: u64, hi: u32, lo: u32)
    ensures
        from_be64((n / 0x1_0000_0000) as u32, (n % 0x1_0000_0000) as u32) == n,
        from_be64(hi, lo) / 0x1_0000_0000 == hi,
        from_be64(hi, lo) % 0x1_0000_0000 == lo,
        be64(from_be64(hi, lo)) == be32(hi) + be32(lo),
{
    let m = from_be64(hi, lo);
    assert(m / 0x1_0000_0000 == hi && m % 0x1_0000_0000 == lo) by (nonlinear_arith)
        requires
            m == (hi as u64) * 0x1_0000_0000 + (lo as u64),
    ;
    assert(be64(m) =~= be32(hi) + be32(lo));
}

/// Appends a copy of the given bytes.
pub fn push_bytes(out: &mut Vec<u8>, s: &[u8])
    ensures
        final(out)@ == old(out)@ + s@,
{
    let n = s.len();
    let mut j: usize = 0;
    while j < n
        invariant
            j <= n,
            n == s@.len(),
            out@ == old(out)@ + s@.take(j as int),
        decreases n - j,
    {
        let b = s[j];
        out.push(b);
        proof {
            assert(old(out)@ + s@.take(j as int) + seq![s@[j as int]] =~= old(out)@ + s@.take(
                j as int + 1,
            ));
        }
        j += 1;
    }
    proof {
        assert(s@.take(n as int) =~= s@);
    }
}

/// Appends the two big-endian bytes of `n`.
pub fn push_be16(out: &mut Vec<u8>, n: u16)
    ensures
        final(out)@ == old(out)@ + be16(n),
{
    out.push((n / 256) as u8);
    out.push((n % 256) as u8);
    assert(out@ =~= old(out)@ + be16(n));
}

/// Appends the four big-endian bytes of `n`.
pub fn push_be32(out: &mut Vec<u8>, n: u32)
    ensures
        final(out)@ == old(out)@ + be32(n),
{
    out.push((n / 0x100_0000) as u8);
    out.push(((n / 0x1_0000) % 256) as u8);
    out.push(((n / 256) % 256) as u8);
    out.push((n % 256) as u8);
    assert(out@ =~= old(out)@ + be32(n));
}

/// Appends the eight big-endian bytes of `n`.
pub fn push_be64(out: &mut Vec<u8>, n: u64)
    ensures
        final(out)@ == old(out)@ + be64(n),
{
    push_be32(out, (n / 0x1_0000_0000) as u32);
    push_be32(out, (n % 0x1_0000_0000) as u32);
    assert(out@ =~= old(out)@ + be64(n));
}

/// The 16-bit value read from two big-endian bytes.
pub fn read_be16(b0: u8, b1: u8) -> (r: u16)
    ensures
        r == from_be16(b0, b1),
{
    (b0 as u16) * 256 + (b1 as u16)
}

/// The 32-bit value read from four big-endian bytes.
pub fn read_be32(b0: u8, b1: u8, b2: u8, b3: u8) -> (r: u32)
    ensures
        r == from_be32(b0, b1, b2, b3),
{
    (b0 as u32) * 0x100_0000 + (b1 as u32) * 0x1_0000 + (b2 as u32) * 256 + (b3 as u32)
}

/// The 64-bit value read from eight big-endian bytes.
pub fn read_be64(b0: u8, b1: u8, b2: u8, b3: u8, b4: u8, b5: u8, b6: u8, b7: u8) -> (r: u64)
    ensures
        r == from_be64(from_be32(b0, b1, b2, b3), from_be32(b4, b5, b6, b7)),
{
    let hi = read_be32(b0, b1, b2, b3);
    let lo = read_be32(b4, b5, b6, b7);
    (hi as u64) * 0x1_0000_0000 + (lo as u64)
}

/// The unsigned bit pattern of a signed 8-bit value.
pub fn i8_to_u8(v: i8) -> (r: u8)
    ensures
        r == u8_of_i8(v),
{
    if v >= 0 {
        v as u8
    } else {
        ((v as i16) + 0x100) as u8
    }
}

/// The signed 8-bit value whose bit pattern is the given byte.
pub fn u8_to_i8(u: u8) -> (r: i8)
    ensures
        r == i8_of_u8(u),
{
    if u < 0x80 {
        u as i8
    } else {
        ((u as i16) - 0x100) as i8
    }
}

/// The unsigned bit pattern of a signed 16-bit value.
pub fn i16_to_u16(v: i16) -> (r: u16)
    ensures
        r == u16_of_i16(v),
{
    if v >= 0 {
        v as u16
    } else {
        ((v as i32) + 0x1_0000) as u16
    }
}

/// The signed 16-bit value whose bit pattern is given.
pub fn u16_to_i16(u: u16) -> (r: i16)
    ensures
        r == i16_of_u16(u),
{
    if u < 0x8000 {
        u as i16
    } else {
        ((u as i32) - 0x1_0000) as i16
    }
}

/// The unsigned bit pattern of a signed 32-bit value.
pub fn i32_to_u32(v: i32) -> (r: u32)
    ensures
        r == u32_of_i32(v),
{
    if v >= 0 {
        v as u32
    } else {
        ((v as i64) + 0x1_0000_0000) as u32
    }
}

/// The signed 32-bit value whose bit pattern is given.
pub fn u32_to_i32(u: u32) -> (r: i32)
    ensures
        r == i32_of_u32(u),
{
    if u < 0x8000_0000 {
        u as i32
    } else {
        ((u as i64) - 0x1_0000_0000) as i32
    }
}

/// The unsigned bit pattern of a signed 64-bit value.
pub fn i64_to_u64(v: i64) -> (r: u64)
    ensures
        r == u64_of_i64(v),
{
    if v >= 0 {
        v as u64
    } else {
        let m = (-(v + 1)) as u64;
        u64::MAX - m
    }
}

/// The signed 64-bit value whose bit pattern is given.
pub fn u64_to_i64(u: u64) -> (r: i64)
    ensures
        r == i64_of_u64(u),
{
    if u < 0x8000_0000_0000_0000 {
        u as i64
    } else {
        let m = (u64::MAX - u) as i64;
        -m - 1
    }
}

} // verus!
