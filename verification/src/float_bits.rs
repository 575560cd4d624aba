//! Bit-level view of IEEE-754 double-precision values.
//!
//! The runtime numbers of the language are doubles, but the library carries
//! them as their 64-bit encodings.  The ordering of doubles is a simple
//! function of the encoding — sign-magnitude order, with the two zeroes
//! equal and NaN comparing false against everything — so the comparison
//! operators of the language are implemented and verified here, on the
//! encodings themselves.

use vstd::prelude::*;

verus! {

/// Mask of the sign bit of a double-precision encoding.
pub const SIGN_MASK: u64 = 0x8000_0000_0000_0000;

/// Mask of the exponent field of a double-precision encoding.
pub const EXP_MASK: u64 = 0x7FF0_0000_0000_0000;

/// Mask of the significand field of a double-precision encoding.
pub const FRAC_MASK: u64 = 0x000F_FFFF_FFFF_FFFF;

/// Mask of everything but the sign bit: the magnitude of the encoding.
pub const MAG_MASK: u64 = 0x7FFF_FFFF_FFFF_FFFF;

/// The encoding of the double 1.0.
pub const ONE_BITS: u64 = 0x3FF0_0000_0000_0000;

/// The encoding of the double 0.0.
pub const ZERO_BITS: u64 = 0;

/// An encoding denotes NaN when the exponent field is all ones and the
/// significand field is not zero.
pub open spec fn is_nan(bits: u64) -> bool {
    bits & EXP_MASK == EXP_MASK && bits & FRAC_MASK != 0
}

/// The magnitude of an encoding: the encoding with the sign bit cleared.
pub open spec fn magnitude(bits: u64) -> u64 {
    bits & MAG_MASK
}

/// Whether the sign bit of an encoding is set.
pub open spec fn is_negative(bits: u64) -> bool {
    bits >= SIGN_MASK
}

/// The position of a non-NaN encoding on the real line, as an integer key:
/// sign-magnitude order.  Both zeroes map to 0, so they compare equal.
pub open spec fn numeric_order(bits: u64) -> int {
    if is_negative(bits) {
        -(magnitude(bits) as int)
    } else {
        magnitude(bits) as int
    }
}

/// Strict less-than on double encodings: false whenever either side is
/// NaN, otherwise the sign-magnitude order of the values.
pub open spec fn lt_bits(a: u64, b: u64) -> bool {
    &&& !is_nan(a)
    &&& !is_nan(b)
    &&& numeric_order(a) < numeric_order(b)
}

/// Strict greater-than on double encodings.
pub open spec fn gt_bits(a: u64, b: u64) -> bool {
    lt_bits(b, a)
}

/// Whether an encoding denotes NaN.
pub fn float_is_nan(bits: u64) -> (r: bool)
    ensures
        r == is_nan(bits),
{
    bits & EXP_MASK == EXP_MASK && bits & FRAC_MASK != 0
}

/// Strict less-than of the doubles two encodings denote.
pub fn float_lt(a: u64, b: u64) -> (r: bool)
    ensures
        r == lt_bits(a, b),
{
    if float_is_nan(a) || float_is_nan(b) {
        false
    } else {
        let neg_a = a >= SIGN_MASK;
        let neg_b = b >= SIGN_MASK;
        let mag_a = a & MAG_MASK;
        let mag_b = b & MAG_MASK;
        if neg_a && neg_b {
            // Both negative: the larger magnitude is the smaller value.
            mag_b < mag_a
        } else if neg_a {
            // A negative value is below a non-negative one unless both
            // are zeroes of opposite sign.
            !(mag_a == 0 && mag_b == 0)
        } else if neg_b {
            false
        } else {
            mag_a < mag_b
        }
    }
}

/// Strict greater-than of the doubles two encodings denote.
pub fn float_gt(a: u64, b: u64) -> (r: bool)
    ensures
        r == gt_bits(a, b),
{
    float_lt(b, a)
}

} // verus!
