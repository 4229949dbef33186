//! Samples as IEEE 754 binary64 bit patterns.
//!
//! The engine stores every audio sample as the 64-bit pattern of the
//! floating-point value it stands for. Classification (NaN, finite),
//! absolute value, ordering and clamping of such values are pure bit
//! manipulations, written and proved here directly; the arithmetic that
//! cannot be stated over bits lives behind the named operations in
//! `arith`.

use vstd::prelude::*;

verus! {

/// Mask of the eleven exponent bits of a binary64 pattern.
pub const EXP_MASK: u64 = 0x7FF0_0000_0000_0000;

/// Mask of everything but the sign bit.
pub const ABS_MASK: u64 = 0x7FFF_FFFF_FFFF_FFFF;

/// Mask of the sign bit.
pub const SIGN_MASK: u64 = 0x8000_0000_0000_0000;

/// Bit pattern of 1.0.
pub const ONE_BITS: u64 = 0x3FF0_0000_0000_0000;

/// Bit pattern of -1.0.
pub const NEG_ONE_BITS: u64 = 0xBFF0_0000_0000_0000;

/// Bit pattern of 0.0.
pub const ZERO_BITS: u64 = 0;

/// Bit pattern of 10.0.
pub const TEN_BITS: u64 = 0x4024_0000_0000_0000;

/// Bit pattern of 20.0, the factor between an amplitude ratio's log10
/// and its value in decibels.
pub const TWENTY_BITS: u64 = 0x4034_0000_0000_0000;

/// The pattern with the sign bit cleared: the bit pattern of the
/// absolute value of the sample (IEEE 754 `abs` only clears the sign).
pub open spec fn abs_bits(b: u64) -> u64 {
    b & ABS_MASK
}

/// True when the pattern encodes a NaN: exponent all ones, mantissa nonzero.
pub open spec fn is_nan_bits(b: u64) -> bool {
    b & EXP_MASK == EXP_MASK && b & ABS_MASK != EXP_MASK
}

/// True when the pattern encodes a finite value: exponent not all ones
/// (rules out both infinities and NaN).
pub open spec fn is_finite_bits(b: u64) -> bool {
    b & EXP_MASK != EXP_MASK
}

/// True when the pattern has its sign bit set.
pub open spec fn sign_bits(b: u64) -> bool {
    b & SIGN_MASK == SIGN_MASK
}

/// A signed magnitude key that orders non-NaN binary64 patterns exactly
/// as IEEE 754 orders the values they encode: both zeros map to 0, and
/// sign-magnitude order is integer order on the key.
pub open spec fn order_key(b: u64) -> int {
    if sign_bits(b) {
        -(abs_bits(b) as int)
    } else {
        abs_bits(b) as int
    }
}

/// IEEE 754 `<` on patterns: false whenever either side is NaN.
pub open spec fn lt_bits(a: u64, b: u64) -> bool {
    !is_nan_bits(a) && !is_nan_bits(b) && order_key(a) < order_key(b)
}

/// IEEE 754 `>` on patterns.
pub open spec fn gt_bits(a: u64, b: u64) -> bool {
    lt_bits(b, a)
}

/// IEEE 754 `>=` on patterns: false whenever either side is NaN.
pub open spec fn ge_bits(a: u64, b: u64) -> bool {
    !is_nan_bits(a) && !is_nan_bits(b) && order_key(a) >= order_key(b)
}

/// IEEE 754 `<=` on patterns: false whenever either side is NaN.
pub open spec fn le_bits(a: u64, b: u64) -> bool {
    ge_bits(b, a)
}

/// What `clamp` to [-1.0, 1.0] returns: -1.0 below the range, 1.0 above
/// it, and the value itself otherwise (a NaN compares neither way and is
/// returned unchanged).
pub open spec fn clamp_unit_bits(b: u64) -> u64 {
    if lt_bits(b, NEG_ONE_BITS) {
        NEG_ONE_BITS
    } else if gt_bits(b, ONE_BITS) {
        ONE_BITS
    } else {
        b
    }
}

/// The pattern with the sign bit flipped: IEEE 754 negation is exactly
/// that, for every value including zeros, infinities and NaN.
pub open spec fn neg_bits(b: u64) -> u64 {
    b ^ SIGN_MASK
}

/// Whether a computed pattern agrees with a modelled one as far as the
/// model reaches: equal bits when the model is not NaN, and any NaN
/// when it is (a NaN result's payload bits are not determined by the
/// operands, only its NaN-ness is).
pub open spec fn sample_eqv(actual: u64, modelled: u64) -> bool {
    if is_nan_bits(modelled) {
        is_nan_bits(actual)
    } else {
        actual == modelled
    }
}

/// Clamping preserves NaN-ness, and any non-NaN value comes out with
/// an absolute value of at most 1.0 (on non-negative patterns the
/// integer order of the patterns is IEEE 754 order).
pub proof fn lemma_clamp_unit_bounded(b: u64)
    ensures
        is_nan_bits(clamp_unit_bits(b)) == is_nan_bits(b),
        !is_nan_bits(b) ==> abs_bits(clamp_unit_bits(b)) <= ONE_BITS,
{
    assert(NEG_ONE_BITS & ABS_MASK == ONE_BITS && NEG_ONE_BITS & SIGN_MASK == SIGN_MASK
        && NEG_ONE_BITS & EXP_MASK != EXP_MASK) by (bit_vector);
    assert(ONE_BITS & ABS_MASK == ONE_BITS && ONE_BITS & SIGN_MASK == 0 && ONE_BITS & EXP_MASK
        != EXP_MASK) by (bit_vector);
}

/// The sanitizer's notion of a usable sample: a finite value.
pub open spec fn sample_ok(b: u64) -> bool {
    is_finite_bits(b)
}

/// The zero pattern is a usable sample.
pub proof fn lemma_zero_sample_ok()
    ensures
        sample_ok(ZERO_BITS),
{
    assert(ZERO_BITS & EXP_MASK != EXP_MASK) by (bit_vector);
}

/// Absolute value of a sample, by clearing the sign bit.
pub fn sample_abs(b: u64) -> (r: u64)
    ensures
        r == abs_bits(b),
{
    b & ABS_MASK
}

/// Whether the sample is finite (neither NaN nor an infinity).
pub fn sample_is_finite(b: u64) -> (r: bool)
    ensures
        r == is_finite_bits(b),
{
    b & EXP_MASK != EXP_MASK
}

/// Whether the sample is a NaN.
pub fn sample_is_nan(b: u64) -> (r: bool)
    ensures
        r == is_nan_bits(b),
{
    b & EXP_MASK == EXP_MASK && b & ABS_MASK != EXP_MASK
}

/// Negation of a sample, by flipping the sign bit.
pub fn sample_neg(b: u64) -> (r: u64)
    ensures
        r == neg_bits(b),
{
    b ^ SIGN_MASK
}

/// IEEE 754 `<` on two samples.
pub fn sample_lt(a: u64, b: u64) -> (r: bool)
    ensures
        r == lt_bits(a, b),
{
    if sample_is_nan(a) || sample_is_nan(b) {
        false
    } else {
        let a_abs = sample_abs(a);
        let b_abs = sample_abs(b);
        let a_neg = a & SIGN_MASK == SIGN_MASK;
        let b_neg = b & SIGN_MASK == SIGN_MASK;
        if a_neg && b_neg {
            b_abs < a_abs
        } else if !a_neg && !b_neg {
            a_abs < b_abs
        } else if a_neg {
            // key(a) = -a_abs, key(b) = b_abs: strictly below unless both zero
            a_abs != 0 || b_abs != 0
        } else {
            false
        }
    }
}

/// IEEE 754 `>` on two samples.
pub fn sample_gt(a: u64, b: u64) -> (r: bool)
    ensures
        r == gt_bits(a, b),
{
    sample_lt(b, a)
}

/// IEEE 754 `>=` on two samples.
pub fn sample_ge(a: u64, b: u64) -> (r: bool)
    ensures
        r == ge_bits(a, b),
{
    if sample_is_nan(a) || sample_is_nan(b) {
        false
    } else {
        !sample_lt(a, b)
    }
}

/// IEEE 754 `<=` on two samples.
pub fn sample_le(a: u64, b: u64) -> (r: bool)
    ensures
        r == le_bits(a, b),
{
    sample_ge(b, a)
}

/// A pattern with a clear sign bit and an exponent short of all ones
/// encodes an ordinary non-negative value: it is not NaN, finite, and
/// its order key is the pattern itself.
pub proof fn lemma_plain_positive(b: u64)
    requires
        b & ABS_MASK == b,
        b & EXP_MASK != EXP_MASK,
    ensures
        !is_nan_bits(b),
        is_finite_bits(b),
        !sign_bits(b),
        order_key(b) == b,
{
    assert(b & 0x7FFF_FFFF_FFFF_FFFFu64 == b ==> b & 0x8000_0000_0000_0000u64 !=
    0x8000_0000_0000_0000u64) by (bit_vector);
}

/// Clamp a sample to [-1.0, 1.0], as IEEE 754 comparisons order it.
pub fn sample_clamp_unit(b: u64) -> (r: u64)
    ensures
        r == clamp_unit_bits(b),
{
    if sample_lt(b, NEG_ONE_BITS) {
        NEG_ONE_BITS
    } else if sample_gt(b, ONE_BITS) {
        ONE_BITS
    } else {
        b
    }
}

} // verus!
