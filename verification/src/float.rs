//! Floating-point numbers as bit patterns: a value holds a number in IEEE-754
//! double precision, and a single-precision number read from the wire is
//! widened to it without loss.
//!
//! A single-precision pattern is a sign bit, 8 bits of exponent and 23 bits
//! of fraction; a double-precision one a sign bit, 11 bits of exponent and 52
//! bits of fraction. The exponents are biased by 127 and by 1023, so that a
//! normal number's exponent grows by 896, and its fraction moves up by 29
//! bits.

use vstd::arithmetic::power2::{
    lemma2_to64, lemma_pow2_strictly_increases, lemma_pow2_unfold, pow2,
};
use vstd::prelude::*;

verus! {

/// A subnormal fraction, doubled until its leading bit is the hidden bit;
/// `exponent` goes down by one with each doubling.
pub open spec fn normalized(fraction: int, exponent: int) -> (int, int)
    decreases 0x100_0000 - fraction,
{
    if 0 < fraction < 0x80_0000 {
        normalized(2 * fraction, exponent - 1)
    } else {
        (fraction, exponent)
    }
}

/// The double-precision pattern of the number that `bits` is in single
/// precision. Sign, infinities and zeros carry over; a subnormal number
/// becomes a normal one; a NaN keeps its payload and comes out quiet.
pub open spec fn widened(bits: u32) -> u64 {
    let sign = bits as int / 0x8000_0000;
    let exponent = bits as int / 0x80_0000 % 0x100;
    let fraction = bits as int % 0x80_0000;
    let magnitude: int = if exponent == 0xff {
        if fraction == 0 {
            0x7ff * 0x10_0000_0000_0000int
        } else {
            0x7ff * 0x10_0000_0000_0000 + 0x8_0000_0000_0000 + (fraction % 0x40_0000)
                * 0x2000_0000
        }
    } else if exponent == 0 {
        if fraction == 0 {
            0
        } else {
            let (f, e) = normalized(fraction, 897);
            e * 0x10_0000_0000_0000 + (f - 0x80_0000) * 0x2000_0000
        }
    } else {
        (exponent + 896) * 0x10_0000_0000_0000 + fraction * 0x2000_0000
    };
    (sign * 0x8000_0000_0000_0000 + magnitude) as u64
}

/// Widens a single-precision bit pattern to double precision.
pub fn widen(bits: u32) -> (r: u64)
    ensures
        r == widened(bits),
{
    let sign: u64 = (bits / 0x8000_0000) as u64;
    let exponent: u64 = (bits / 0x80_0000 % 0x100) as u64;
    let fraction: u64 = (bits % 0x80_0000) as u64;
    let magnitude: u64 = if exponent == 0xff {
        if fraction == 0 {
            0x7ff * 0x10_0000_0000_0000
        } else {
            0x7ff * 0x10_0000_0000_0000 + 0x8_0000_0000_0000 + (fraction % 0x40_0000)
                * 0x2000_0000
        }
    } else if exponent == 0 {
        if fraction == 0 {
            0
        } else {
            let mut f: u64 = fraction;
            let mut e: u64 = 897;
            proof {
                lemma2_to64();
            }
            while f < 0x80_0000
                invariant
                    0 < f < 0x100_0000,
                    e <= 897,
                    pow2((897 - e) as nat) <= f,
                    normalized(f as int, e as int) == normalized(fraction as int, 897),
                decreases 0x100_0000 - f,
            {
                proof {
                    lemma2_to64();
                    if 897 - e >= 23 {
                        if 897 - e > 23 {
                            lemma_pow2_strictly_increases(23, (897 - e) as nat);
                        }
                        assert(false);
                    }
                    lemma_pow2_unfold((897 - e + 1) as nat);
                }
                f = 2 * f;
                e = e - 1;
            }
            e * 0x10_0000_0000_0000 + (f - 0x80_0000) * 0x2000_0000
        }
    } else {
        (exponent + 896) * 0x10_0000_0000_0000 + fraction * 0x2000_0000
    };
    sign * 0x8000_0000_0000_0000 + magnitude
}

} // verus!
