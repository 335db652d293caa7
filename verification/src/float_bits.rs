//! Values travel through this crate as IEEE 754 binary64 bit patterns held
//! in `u64`.  Negation, absolute value and ordering are plain bit
//! manipulations and are implemented and verified here.  Addition,
//! subtraction, division and integer conversion are performed by
//! `rustc_apfloat`, a software implementation of IEEE 754 arithmetic that
//! works directly on bit patterns; each such operation is a pure function of
//! its operand patterns and is named by an uninterpreted spec function.

use rustc_apfloat::Float;
use vstd::prelude::*;

verus! {

/// The sum of two binary64 patterns (round to nearest, ties to even).
pub uninterp spec fn f64_add(a: u64, b: u64) -> u64;

/// The difference of two binary64 patterns (round to nearest, ties to even).
pub uninterp spec fn f64_sub(a: u64, b: u64) -> u64;

/// The quotient of two binary64 patterns (round to nearest, ties to even).
pub uninterp spec fn f64_div(a: u64, b: u64) -> u64;

/// The binary64 pattern nearest to the unsigned integer `n`.
pub uninterp spec fn f64_of_uint(n: u64) -> u64;

/// Relies on `rustc_apfloat::ieee::Double`'s `Add`: IEEE 754 binary64
/// addition, a function of the two operand bit patterns alone.
#[verifier::external_body]
pub(crate) fn add_bits(a: u64, b: u64) -> (r: u64)
    ensures
        r == f64_add(a, b),
{
    let x = rustc_apfloat::ieee::Double::from_bits(a as u128);
    let y = rustc_apfloat::ieee::Double::from_bits(b as u128);
    (x + y).value.to_bits() as u64
}

/// Relies on `rustc_apfloat::ieee::Double`'s `Sub`: IEEE 754 binary64
/// subtraction, a function of the two operand bit patterns alone.
#[verifier::external_body]
pub(crate) fn sub_bits(a: u64, b: u64) -> (r: u64)
    ensures
        r == f64_sub(a, b),
{
    let x = rustc_apfloat::ieee::Double::from_bits(a as u128);
    let y = rustc_apfloat::ieee::Double::from_bits(b as u128);
    (x - y).value.to_bits() as u64
}

/// Relies on `rustc_apfloat::ieee::Double`'s `Div`: IEEE 754 binary64
/// division, a function of the two operand bit patterns alone.
#[verifier::external_body]
pub(crate) fn div_bits(a: u64, b: u64) -> (r: u64)
    ensures
        r == f64_div(a, b),
{
    let x = rustc_apfloat::ieee::Double::from_bits(a as u128);
    let y = rustc_apfloat::ieee::Double::from_bits(b as u128);
    (x / y).value.to_bits() as u64
}

/// Relies on `rustc_apfloat::Float::from_u128`: conversion of an unsigned
/// integer to the nearest binary64, a function of the integer alone.
#[verifier::external_body]
pub(crate) fn of_uint_bits(n: u64) -> (r: u64)
    ensures
        r == f64_of_uint(n),
{
    rustc_apfloat::ieee::Double::from_u128(n as u128).value.to_bits() as u64
}

/// The sign bit of a binary64 pattern.
pub open spec fn f64_sign(bits: u64) -> u64 {
    bits >> 63u64
}

/// The magnitude of a binary64 pattern: everything but the sign bit.
pub open spec fn f64_magnitude(bits: u64) -> u64 {
    bits & 0x7fff_ffff_ffff_ffff
}

/// Whether a binary64 pattern encodes a NaN: exponent all ones and a
/// non-zero mantissa, that is, a magnitude above that of infinity.
pub open spec fn f64_is_nan(bits: u64) -> bool {
    f64_magnitude(bits) > 0x7ff0_0000_0000_0000
}

/// IEEE 754 negation: flip the sign bit.
pub open spec fn f64_neg(bits: u64) -> u64 {
    bits ^ 0x8000_0000_0000_0000
}

/// IEEE 754 absolute value: clear the sign bit.
pub open spec fn f64_abs(bits: u64) -> u64 {
    f64_magnitude(bits)
}

/// IEEE 754 `>` on binary64 patterns: false when either side is NaN;
/// otherwise sign-magnitude order, under which positive and negative zero
/// are equal.
pub open spec fn f64_gt(a: u64, b: u64) -> bool {
    if f64_is_nan(a) || f64_is_nan(b) {
        false
    } else if f64_sign(a) == f64_sign(b) {
        if f64_sign(a) == 0 {
            f64_magnitude(a) > f64_magnitude(b)
        } else {
            f64_magnitude(a) < f64_magnitude(b)
        }
    } else if f64_sign(a) == 0 {
        !(f64_magnitude(a) == 0 && f64_magnitude(b) == 0)
    } else {
        false
    }
}

/// Negates a value by flipping the sign bit of its pattern.
pub(crate) fn neg_bits(a: u64) -> (r: u64)
    ensures
        r == f64_neg(a),
{
    a ^ 0x8000_0000_0000_0000
}

/// Clears the sign bit of a pattern, yielding the absolute value.
pub(crate) fn abs_bits(a: u64) -> (r: u64)
    ensures
        r == f64_abs(a),
{
    a & 0x7fff_ffff_ffff_ffff
}

/// Compares two patterns as IEEE 754 values.
pub(crate) fn gt_bits(a: u64, b: u64) -> (r: bool)
    ensures
        r == f64_gt(a, b),
{
    let mag_a: u64 = a & 0x7fff_ffff_ffff_ffff;
    let mag_b: u64 = b & 0x7fff_ffff_ffff_ffff;
    if mag_a > 0x7ff0_0000_0000_0000 || mag_b > 0x7ff0_0000_0000_0000 {
        false
    } else if (a >> 63u64) == (b >> 63u64) {
        if (a >> 63u64) == 0 {
            mag_a > mag_b
        } else {
            mag_a < mag_b
        }
    } else if (a >> 63u64) == 0 {
        !(mag_a == 0 && mag_b == 0)
    } else {
        false
    }
}

} // verus!
