//! Trusted binary64 arithmetic.
//!
//! Verus has no model of floating-point arithmetic, so each operation
//! the engine needs is wrapped once here, over bit patterns (see
//! `sample`). The contracts state no more than the operations promise:
//!
//! - For `+ - * /` and `sqrt` the rounded value is fully determined by
//!   IEEE 754, but the payload bits of a NaN result are not (they can
//!   differ between platforms). Their results are therefore named by
//!   an uninterpreted spec function only up to NaN-ness: when the
//!   named result is not NaN it is the result, and otherwise only the
//!   fact of being NaN carries over.
//! - The transcendental functions (`sin`, `cos`, `sinh`, `tanh`,
//!   `powf`, `log10`) document their precision as unspecified and
//!   non-deterministic, so their results are not named at all; the
//!   contracts built on them speak of structure, never of the value of
//!   one of these calls.
//! - Integer-float casts, rounding, and fixed-precision formatting are
//!   fully specified and keep exact names.

use std::primitive::f64 as Binary64;
use vstd::prelude::*;
use crate::sample::is_nan_bits;

verus! {

/// What IEEE 754 addition returns on two patterns, up to NaN payload.
pub uninterp spec fn add_of(a: u64, b: u64) -> u64;

/// What IEEE 754 subtraction returns, up to NaN payload.
pub uninterp spec fn sub_of(a: u64, b: u64) -> u64;

/// What IEEE 754 multiplication returns, up to NaN payload.
pub uninterp spec fn mul_of(a: u64, b: u64) -> u64;

/// What IEEE 754 division returns, up to NaN payload.
pub uninterp spec fn div_of(a: u64, b: u64) -> u64;

/// What `f64::sqrt` returns, up to NaN payload.
pub uninterp spec fn sqrt_of(a: u64) -> u64;

/// What rounding to the nearest integer and casting to `usize` gives
/// a non-NaN value.
pub uninterp spec fn round_count_of(a: u64) -> usize;

/// The pattern of a `u32` carried into binary64.
pub uninterp spec fn of_u32(n: u32) -> u64;

/// The pattern of a `usize` carried into binary64.
pub uninterp spec fn of_usize(n: usize) -> u64;

/// The text of the encoded value with one fractional digit.
pub uninterp spec fn fixed1_of(a: u64) -> Seq<char>;

/// Relies on IEEE 754 binary64 addition: the rounded sum is determined
/// by the operands alone; whether it is NaN is too, but a NaN's
/// payload bits are not, so a NaN result is pinned only as NaN. A NaN
/// operand always yields NaN.
#[verifier::external_body]
pub fn sample_add(a: u64, b: u64) -> (r: u64)
    ensures
        is_nan_bits(r) == is_nan_bits(add_of(a, b)),
        !is_nan_bits(add_of(a, b)) ==> r == add_of(a, b),
        is_nan_bits(a) || is_nan_bits(b) ==> is_nan_bits(r),
{
    (Binary64::from_bits(a) + Binary64::from_bits(b)).to_bits()
}

/// Relies on IEEE 754 binary64 subtraction; see `sample_add` for what
/// is and is not determined.
#[verifier::external_body]
pub fn sample_sub(a: u64, b: u64) -> (r: u64)
    ensures
        is_nan_bits(r) == is_nan_bits(sub_of(a, b)),
        !is_nan_bits(sub_of(a, b)) ==> r == sub_of(a, b),
        is_nan_bits(a) || is_nan_bits(b) ==> is_nan_bits(r),
{
    (Binary64::from_bits(a) - Binary64::from_bits(b)).to_bits()
}

/// Relies on IEEE 754 binary64 multiplication; see `sample_add`.
#[verifier::external_body]
pub fn sample_mul(a: u64, b: u64) -> (r: u64)
    ensures
        is_nan_bits(r) == is_nan_bits(mul_of(a, b)),
        !is_nan_bits(mul_of(a, b)) ==> r == mul_of(a, b),
        is_nan_bits(a) || is_nan_bits(b) ==> is_nan_bits(r),
{
    (Binary64::from_bits(a) * Binary64::from_bits(b)).to_bits()
}

/// Relies on IEEE 754 binary64 division; see `sample_add`.
#[verifier::external_body]
pub fn sample_div(a: u64, b: u64) -> (r: u64)
    ensures
        is_nan_bits(r) == is_nan_bits(div_of(a, b)),
        !is_nan_bits(div_of(a, b)) ==> r == div_of(a, b),
        is_nan_bits(a) || is_nan_bits(b) ==> is_nan_bits(r),
{
    (Binary64::from_bits(a) / Binary64::from_bits(b)).to_bits()
}

/// Relies on `f64::sqrt`: correctly rounded and determined for
/// non-negative arguments; a negative argument's NaN payload is not,
/// so a NaN result is pinned only as NaN.
#[verifier::external_body]
pub fn sample_sqrt(a: u64) -> (r: u64)
    ensures
        is_nan_bits(r) == is_nan_bits(sqrt_of(a)),
        !is_nan_bits(sqrt_of(a)) ==> r == sqrt_of(a),
        is_nan_bits(a) ==> is_nan_bits(r),
{
    Binary64::from_bits(a).sqrt().to_bits()
}

/// Relies on `f64::sin`, whose precision std documents as unspecified
/// and non-deterministic: nothing is promised of the result.
#[verifier::external_body]
pub fn sample_sin(a: u64) -> u64 {
    Binary64::from_bits(a).sin().to_bits()
}

/// Relies on `f64::cos`; as `sample_sin`, nothing is promised.
#[verifier::external_body]
pub fn sample_cos(a: u64) -> u64 {
    Binary64::from_bits(a).cos().to_bits()
}

/// Relies on `f64::sinh`; as `sample_sin`, nothing is promised.
#[verifier::external_body]
pub fn sample_sinh(a: u64) -> u64 {
    Binary64::from_bits(a).sinh().to_bits()
}

/// Relies on `f64::tanh`; as `sample_sin`, nothing is promised.
#[verifier::external_body]
pub fn sample_tanh(a: u64) -> u64 {
    Binary64::from_bits(a).tanh().to_bits()
}

/// Relies on `f64::powf`; as `sample_sin`, nothing is promised.
#[verifier::external_body]
pub fn sample_powf(a: u64, b: u64) -> u64 {
    Binary64::from_bits(a).powf(Binary64::from_bits(b)).to_bits()
}

/// Relies on `f64::log10`; as `sample_sin`, nothing is promised.
#[verifier::external_body]
pub fn sample_log10(a: u64) -> u64 {
    Binary64::from_bits(a).log10().to_bits()
}

/// Relies on `f64::round` (exact, deterministic) and the saturating
/// float-to-integer cast; a NaN casts to 0.
#[verifier::external_body]
pub fn sample_round_count(a: u64) -> (r: usize)
    ensures
        !is_nan_bits(a) ==> r == round_count_of(a),
        is_nan_bits(a) ==> r == 0,
{
    Binary64::from_bits(a).round() as usize
}

/// Relies on the integer-to-float cast, which is exact for every `u32`.
#[verifier::external_body]
pub fn sample_of_u32(n: u32) -> (r: u64)
    ensures
        r == of_u32(n),
{
    (n as Binary64).to_bits()
}

/// Relies on the integer-to-float cast, rounded to nearest for a `usize`.
#[verifier::external_body]
pub fn sample_of_usize(n: usize) -> (r: u64)
    ensures
        r == of_usize(n),
{
    (n as Binary64).to_bits()
}

/// Relies on the standard formatting of an `f64` with one fractional
/// digit, a deterministic, locale-free rendering of the value.
#[verifier::external_body]
pub fn sample_fixed1(a: u64) -> (r: String)
    ensures
        r@ == fixed1_of(a),
{
    format!("{:.1}", Binary64::from_bits(a))
}

} // verus!
