//! Big-endian fields: every multi-byte number on the wire is written most
//! significant byte first.

use vstd::arithmetic::div_mod::lemma_fundamental_div_mod_converse;
use vstd::prelude::*;

verus! {

/// The one byte of `x` taken modulo 2^8.
pub open spec fn be8(x: int) -> Seq<u8> {
    seq![(x % 0x100) as u8]
}

/// The two big-endian bytes of `x` taken modulo 2^16. For a negative `x` this
/// is its two's complement.
#[verifier::opaque]
pub open spec fn be16(x: int) -> Seq<u8> {
    seq![(x / 0x100 % 0x100) as u8, (x % 0x100) as u8]
}

/// The four big-endian bytes of `x` taken modulo 2^32: its upper half, then
/// its lower half.
#[verifier::opaque]
pub open spec fn be32(x: int) -> Seq<u8> {
    be16(x / 0x1_0000) + be16(x % 0x1_0000)
}

/// The eight big-endian bytes of `x` taken modulo 2^64: its upper half, then
/// its lower half.
#[verifier::opaque]
pub open spec fn be64(x: int) -> Seq<u8> {
    be32(x / 0x1_0000_0000) + be32(x % 0x1_0000_0000)
}

/// The unsigned number that the first two bytes of `s` spell.
#[verifier::opaque]
pub open spec fn be16_value(s: Seq<u8>) -> int {
    s[0] * 0x100 + s[1]
}

/// The unsigned number that the first four bytes of `s` spell.
#[verifier::opaque]
pub open spec fn be32_value(s: Seq<u8>) -> int {
    s[0] * 0x100_0000 + s[1] * 0x1_0000 + s[2] * 0x100 + s[3]
}

/// The unsigned number that the first eight bytes of `s` spell.
#[verifier::opaque]
pub open spec fn be64_value(s: Seq<u8>) -> int {
    s[0] * 0x100_0000_0000_0000 + s[1] * 0x1_0000_0000_0000 + s[2] * 0x100_0000_0000 + s[3]
        * 0x1_0000_0000 + s[4] * 0x100_0000 + s[5] * 0x1_0000 + s[6] * 0x100 + s[7]
}

/// Reads an unsigned number below `2 * half` as two's complement.
pub open spec fn signed(v: int, half: int) -> int {
    if v >= half {
        v - 2 * half
    } else {
        v
    }
}

/// The unsigned number with the same low bits as `x`, for a width of which
/// `half` is the sign bit's weight.
pub open spec fn unsigned(x: int, half: int) -> int {
    if x < 0 {
        x + 2 * half
    } else {
        x
    }
}

/// Two's complement of an 8-bit number.
pub fn i8_bits(x: i8) -> (r: u8)
    ensures
        r == unsigned(x as int, 0x80),
        seq![r] == be8(x as int),
{
    let r: u8 = if x < 0 {
        ((x as i16) + 0x100) as u8
    } else {
        x as u8
    };
    assert(seq![r] =~= be8(x as int));
    r
}

/// Two's complement of a 16-bit number.
pub fn i16_bits(x: i16) -> (r: u16)
    ensures
        r == unsigned(x as int, 0x8000),
        be16(r as int) == be16(x as int),
{
    let r: u16 = if x < 0 {
        ((x as i32) + 0x1_0000) as u16
    } else {
        x as u16
    };
    proof {
        lemma_be_of_negative(x as int);
    }
    r
}

/// Two's complement of a 32-bit number.
pub fn i32_bits(x: i32) -> (r: u32)
    ensures
        r == unsigned(x as int, 0x8000_0000),
        be32(r as int) == be32(x as int),
{
    let r: u32 = if x < 0 {
        ((x as i64) + 0x1_0000_0000) as u32
    } else {
        x as u32
    };
    proof {
        lemma_be_of_negative(x as int);
    }
    r
}

/// Two's complement of a 64-bit number.
pub fn i64_bits(x: i64) -> (r: u64)
    ensures
        r == unsigned(x as int, 0x8000_0000_0000_0000),
        be64(r as int) == be64(x as int),
{
    let r: u64 = if x < 0 {
        ((x - i64::MIN) as u64) + 0x8000_0000_0000_0000
    } else {
        x as u64
    };
    proof {
        lemma_be_of_negative(x as int);
    }
    r
}

/// The signed reading of an 8-bit pattern.
pub fn i8_of(v: u8) -> (r: i8)
    ensures
        r == signed(v as int, 0x80),
{
    if v >= 0x80 {
        ((v as i16) - 0x100) as i8
    } else {
        v as i8
    }
}

/// The signed reading of a 16-bit pattern.
pub fn i16_of(v: u16) -> (r: i16)
    ensures
        r == signed(v as int, 0x8000),
{
    if v >= 0x8000 {
        ((v as i32) - 0x1_0000) as i16
    } else {
        v as i16
    }
}

/// The signed reading of a 32-bit pattern.
pub fn i32_of(v: u32) -> (r: i32)
    ensures
        r == signed(v as int, 0x8000_0000),
{
    if v >= 0x8000_0000 {
        ((v as i64) - 0x1_0000_0000) as i32
    } else {
        v as i32
    }
}

/// The signed reading of a 64-bit pattern.
pub fn i64_of(v: u64) -> (r: i64)
    ensures
        r == signed(v as int, 0x8000_0000_0000_0000),
{
    if v >= 0x8000_0000_0000_0000 {
        ((v - 0x8000_0000_0000_0000) as i64) + i64::MIN
    } else {
        v as i64
    }
}

/// Appends the two big-endian bytes of `x`.
pub fn push_be16(out: &mut Vec<u8>, x: u16)
    ensures
        final(out)@ == old(out)@ + be16(x as int),
{
    proof {
        reveal(be16);
    }
    out.push((x / 0x100) as u8);
    out.push((x % 0x100) as u8);
    assert(out@ =~= old(out)@ + be16(x as int));
}

/// Appends the four big-endian bytes of `x`.
pub fn push_be32(out: &mut Vec<u8>, x: u32)
    ensures
        final(out)@ == old(out)@ + be32(x as int),
{
    proof {
        reveal(be32);
    }
    push_be16(out, (x / 0x1_0000) as u16);
    push_be16(out, (x % 0x1_0000) as u16);
    assert(out@ =~= old(out)@ + be32(x as int));
}

/// Appends the eight big-endian bytes of `x`.
pub fn push_be64(out: &mut Vec<u8>, x: u64)
    ensures
        final(out)@ == old(out)@ + be64(x as int),
{
    proof {
        reveal(be64);
    }
    push_be32(out, (x / 0x1_0000_0000) as u32);
    push_be32(out, (x % 0x1_0000_0000) as u32);
    assert(out@ =~= old(out)@ + be64(x as int));
}

/// The number that the two big-endian bytes of `b` from `at` on spell.
pub(crate) fn read_be16(b: &[u8], at: usize) -> (r: u16)
    requires
        at + 2 <= b@.len(),
    ensures
        r == be16_value(b@.skip(at as int)),
{
    proof {
        reveal(be16_value);
    }
    (b[at] as u16) * 0x100 + (b[at + 1] as u16)
}

/// The number that the four big-endian bytes of `b` from `at` on spell.
pub(crate) fn read_be32(b: &[u8], at: usize) -> (r: u32)
    requires
        at + 4 <= b@.len(),
    ensures
        r == be32_value(b@.skip(at as int)),
{
    proof {
        reveal(be32_value);
    }
    (b[at] as u32) * 0x100_0000 + (b[at + 1] as u32) * 0x1_0000 + (b[at + 2] as u32) * 0x100 + (
    b[at + 3] as u32)
}

/// The number that the eight big-endian bytes of `b` from `at` on spell.
pub(crate) fn read_be64(b: &[u8], at: usize) -> (r: u64)
    requires
        at + 8 <= b@.len(),
    ensures
        r == be64_value(b@.skip(at as int)),
{
    proof {
        reveal(be64_value);
    }
    (b[at] as u64) * 0x100_0000_0000_0000 + (b[at + 1] as u64) * 0x1_0000_0000_0000 + (b[at
        + 2] as u64) * 0x100_0000_0000 + (b[at + 3] as u64) * 0x1_0000_0000 + (b[at + 4] as u64)
        * 0x100_0000 + (b[at + 5] as u64) * 0x1_0000 + (b[at + 6] as u64) * 0x100 + (b[at
        + 7] as u64)
}

/// The bytes written have the width's length.
pub proof fn lemma_be_len(x: int)
    ensures
        be8(x).len() == 1,
        be16(x).len() == 2,
        be32(x).len() == 4,
        be64(x).len() == 8,
{
    reveal(be16);
    reveal(be32);
    reveal(be64);
}

/// Reading what was written gives the number back, modulo the width.
pub proof fn lemma_value_of_be(x: int)
    ensures
        be16_value(be16(x)) == x % 0x1_0000,
        be32_value(be32(x)) == x % 0x1_0000_0000,
        be64_value(be64(x)) == x % 0x1_0000_0000_0000_0000,
{
    lemma_value16_of_be(x);
    lemma_value32_of_be(x);
    lemma_value64_of_be(x);
}

proof fn lemma_value16_of_be(x: int)
    ensures
        be16_value(be16(x)) == x % 0x1_0000,
{
    reveal(be16);
    reveal(be16_value);
}

proof fn lemma_value32_of_be(x: int)
    ensures
        be32_value(be32(x)) == x % 0x1_0000_0000,
{
    reveal(be32);
    reveal(be16_value);
    reveal(be32_value);
    let h = x / 0x1_0000;
    let l = x % 0x1_0000;
    lemma_value16_of_be(h);
    lemma_value16_of_be(l);
    let s = be32(x);
    lemma_be_len(h);
    lemma_be_len(l);
    assert(s[0] == be16(h)[0] && s[1] == be16(h)[1] && s[2] == be16(l)[0] && s[3] == be16(l)[1]);
    assert(be32_value(s) == be16_value(be16(h)) * 0x1_0000 + be16_value(be16(l)));
}

proof fn lemma_value64_of_be(x: int)
    ensures
        be64_value(be64(x)) == x % 0x1_0000_0000_0000_0000,
{
    reveal(be64);
    reveal(be32_value);
    reveal(be64_value);
    let h = x / 0x1_0000_0000;
    let l = x % 0x1_0000_0000;
    lemma_value32_of_be(h);
    lemma_value32_of_be(l);
    let s = be64(x);
    let a = be32(h);
    let b = be32(l);
    lemma_be_len(h);
    lemma_be_len(l);
    assert(s[0] == a[0] && s[1] == a[1] && s[2] == a[2] && s[3] == a[3]);
    assert(s[4] == b[0] && s[5] == b[1] && s[6] == b[2] && s[7] == b[3]);
    assert(be64_value(s) == be32_value(a) * 0x1_0000_0000 + be32_value(b));
}

/// Writing what was read gives the bytes back, at each width.
pub proof fn lemma_be_of_value(s: Seq<u8>)
    ensures
        s.len() == 2 ==> be16(be16_value(s)) == s,
        s.len() == 4 ==> be32(be32_value(s)) == s,
        s.len() == 8 ==> be64(be64_value(s)) == s,
        s.len() >= 2 ==> 0 <= be16_value(s) < 0x1_0000,
        s.len() >= 4 ==> 0 <= be32_value(s) < 0x1_0000_0000,
        s.len() >= 8 ==> 0 <= be64_value(s) < 0x1_0000_0000_0000_0000,
{
    reveal(be16);
    reveal(be16_value);
    reveal(be64);
    reveal(be64_value);
    reveal(be32_value);
    if s.len() == 2 {
        assert(be16(be16_value(s)) =~= s);
    }
    if s.len() == 4 {
        lemma_be32_of_value(s);
    }
    if s.len() == 8 {
        let a = s.take(4);
        let b = s.skip(4);
        lemma_be32_of_value(a);
        lemma_be32_of_value(b);
        let hi = be32_value(a);
        let lo = be32_value(b);
        assert(be64_value(s) == hi * 0x1_0000_0000 + lo);
        assert(be64_value(s) / 0x1_0000_0000 == hi);
        assert(be64_value(s) % 0x1_0000_0000 == lo);
        assert(a + b =~= s);
    }
}

proof fn lemma_be32_of_value(s: Seq<u8>)
    requires
        s.len() == 4,
    ensures
        be32(be32_value(s)) == s,
        0 <= be32_value(s) < 0x1_0000_0000,
{
    reveal(be32);
    reveal(be16);
    reveal(be32_value);
    reveal(be16_value);
    let a = s.take(2);
    let b = s.skip(2);
    let hi = be16_value(a);
    let lo = be16_value(b);
    assert(be32_value(s) == hi * 0x1_0000 + lo);
    assert(be32_value(s) / 0x1_0000 == hi);
    assert(be32_value(s) % 0x1_0000 == lo);
    assert(be16(hi) =~= a);
    assert(be16(lo) =~= b);
    assert(a + b =~= s);
}

/// A negative number and its two's complement are written as the same bytes.
pub proof fn lemma_be_of_negative(x: int)
    ensures
        be8(x + 0x100) == be8(x),
        be16(x + 0x1_0000) == be16(x),
        be32(x + 0x1_0000_0000) == be32(x),
        be64(x + 0x1_0000_0000_0000_0000) == be64(x),
{
    assert(be8(x + 0x100) =~= be8(x)) by {
        lemma_fundamental_div_mod_converse(x + 0x100, 0x100, x / 0x100 + 1, x % 0x100);
    }
    lemma_be16_of_negative(x);
    lemma_be32_of_negative(x);
    reveal(be64);
    let q = x / 0x1_0000_0000;
    let r = x % 0x1_0000_0000;
    assert((x + 0x1_0000_0000_0000_0000) / 0x1_0000_0000 == q + 0x1_0000_0000 && (x
        + 0x1_0000_0000_0000_0000) % 0x1_0000_0000 == r) by {
        lemma_fundamental_div_mod_converse(
            x + 0x1_0000_0000_0000_0000,
            0x1_0000_0000,
            q + 0x1_0000_0000,
            r,
        );
    }
    lemma_be32_of_negative(q);
}

proof fn lemma_be16_of_negative(x: int)
    ensures
        be16(x + 0x1_0000) == be16(x),
{
    reveal(be16);
    let q = x / 0x100;
    let r = x % 0x100;
    assert((x + 0x1_0000) / 0x100 == q + 0x100 && (x + 0x1_0000) % 0x100 == r) by {
        lemma_fundamental_div_mod_converse(x + 0x1_0000, 0x100, q + 0x100, r);
    }
    assert((q + 0x100) % 0x100 == q % 0x100) by {
        lemma_fundamental_div_mod_converse(q + 0x100, 0x100, q / 0x100 + 1, q % 0x100);
    }
    assert(be16(x + 0x1_0000) =~= be16(x));
}

proof fn lemma_be32_of_negative(x: int)
    ensures
        be32(x + 0x1_0000_0000) == be32(x),
{
    reveal(be32);
    let q = x / 0x1_0000;
    let r = x % 0x1_0000;
    assert((x + 0x1_0000_0000) / 0x1_0000 == q + 0x1_0000 && (x + 0x1_0000_0000) % 0x1_0000
        == r) by {
        lemma_fundamental_div_mod_converse(x + 0x1_0000_0000, 0x1_0000, q + 0x1_0000, r);
    }
    lemma_be16_of_negative(q);
}

/// A number read from the front of a sequence depends on no byte behind it.
pub proof fn lemma_value_of_front(s: Seq<u8>, rest: Seq<u8>)
    ensures
        s.len() >= 2 ==> be16_value(s + rest) == be16_value(s),
        s.len() >= 4 ==> be32_value(s + rest) == be32_value(s),
        s.len() >= 8 ==> be64_value(s + rest) == be64_value(s),
{
    reveal(be16_value);
    reveal(be32_value);
    reveal(be64_value);
}

} // verus!
