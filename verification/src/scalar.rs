//! Double-precision scalars, carried as their IEEE-754 bit patterns.
//!
//! The turtle language computes over binary64 numbers. Inside the verified
//! library a number is its 64-bit encoding, and every primitive operation on
//! numbers goes through one of the wrappers below, each backed by the
//! software floating-point implementation in `rustc_apfloat` (a port of
//! LLVM's APFloat, which matches hardware IEEE-754 arithmetic under the
//! default round-to-nearest-ties-to-even mode). Each operation's result is a
//! pure function of its operands, so it is given an uninterpreted name that
//! the rest of the library's contracts are stated over.

use vstd::prelude::*;
use rustc_apfloat::Float;
use rustc_apfloat::ieee::Double;

verus! {

/// The number denoted by a token, if the token reads as a decimal or
/// hexadecimal floating-point literal; `None` otherwise.
pub uninterp spec fn lit_of(s: Seq<char>) -> Option<u64>;

/// The IEEE-754 sum of the two numbers encoded by the operands.
pub uninterp spec fn add_bits(a: u64, b: u64) -> u64;

/// The IEEE-754 difference of the two numbers encoded by the operands.
pub uninterp spec fn sub_bits(a: u64, b: u64) -> u64;

/// The IEEE-754 product of the two numbers encoded by the operands.
pub uninterp spec fn mul_bits(a: u64, b: u64) -> u64;

/// The IEEE-754 quotient of the two numbers encoded by the operands.
pub uninterp spec fn div_bits(a: u64, b: u64) -> u64;

/// The C `fmod` remainder of the two numbers encoded by the operands.
pub uninterp spec fn fmod_bits(a: u64, b: u64) -> u64;

/// Whether the number encoded by `a` is less than the one encoded by `b`.
pub uninterp spec fn lt_bits(a: u64, b: u64) -> bool;

/// Whether the number encoded by `a` is greater than the one encoded by `b`.
pub uninterp spec fn gt_bits(a: u64, b: u64) -> bool;

/// The number encoded by `a` truncated toward zero and clamped into `u32`
/// range (zero for NaN), as a saturating float-to-integer cast does.
pub uninterp spec fn trunc_bits(a: u64) -> u32;

/// Relies on `rustc_apfloat::ieee::Double::from_str`: correctly rounded
/// conversion of a literal to binary64, rejecting malformed strings.
#[verifier::external_body]
pub(crate) fn parse_literal(s: &str) -> (r: Option<u64>)
    ensures
        r == lit_of(s@),
{
    match s.parse::<Double>() {
        Ok(d) => Some(d.to_bits() as u64),
        Err(_) => None,
    }
}

/// Relies on `rustc_apfloat`'s `Add` for `Double`: IEEE-754 addition,
/// rounding to nearest, ties to even.
#[verifier::external_body]
pub(crate) fn add(a: u64, b: u64) -> (r: u64)
    ensures
        r == add_bits(a, b),
{
    (Double::from_bits(a as u128) + Double::from_bits(b as u128)).value.to_bits() as u64
}

/// Relies on `rustc_apfloat`'s `Sub` for `Double`: IEEE-754 subtraction,
/// rounding to nearest, ties to even.
#[verifier::external_body]
pub(crate) fn sub(a: u64, b: u64) -> (r: u64)
    ensures
        r == sub_bits(a, b),
{
    (Double::from_bits(a as u128) - Double::from_bits(b as u128)).value.to_bits() as u64
}

/// Relies on `rustc_apfloat`'s `Mul` for `Double`: IEEE-754 multiplication,
/// rounding to nearest, ties to even.
#[verifier::external_body]
pub(crate) fn mul(a: u64, b: u64) -> (r: u64)
    ensures
        r == mul_bits(a, b),
{
    (Double::from_bits(a as u128) * Double::from_bits(b as u128)).value.to_bits() as u64
}

/// Relies on `rustc_apfloat`'s `Div` for `Double`: IEEE-754 division,
/// rounding to nearest, ties to even; division by zero yields an infinity
/// or NaN rather than failing.
#[verifier::external_body]
pub(crate) fn div(a: u64, b: u64) -> (r: u64)
    ensures
        r == div_bits(a, b),
{
    (Double::from_bits(a as u128) / Double::from_bits(b as u128)).value.to_bits() as u64
}

/// Relies on `rustc_apfloat`'s `Rem` for `Double`, which implements the C
/// `fmod` remainder, the semantics of `%` on hardware doubles.
#[verifier::external_body]
pub(crate) fn fmod(a: u64, b: u64) -> (r: u64)
    ensures
        r == fmod_bits(a, b),
{
    (Double::from_bits(a as u128) % Double::from_bits(b as u128)).value.to_bits() as u64
}

/// Relies on `rustc_apfloat`'s `PartialOrd` for `Double`: the IEEE-754
/// ordering, under which a NaN compares less than nothing.
#[verifier::external_body]
pub(crate) fn lt(a: u64, b: u64) -> (r: bool)
    ensures
        r == lt_bits(a, b),
{
    Double::from_bits(a as u128) < Double::from_bits(b as u128)
}

/// Relies on `rustc_apfloat`'s `PartialOrd` for `Double`: the IEEE-754
/// ordering, under which a NaN compares greater than nothing.
#[verifier::external_body]
pub(crate) fn gt(a: u64, b: u64) -> (r: bool)
    ensures
        r == gt_bits(a, b),
{
    Double::from_bits(a as u128) > Double::from_bits(b as u128)
}

/// Relies on `rustc_apfloat::Float::to_u128`: conversion to an unsigned
/// integer of the given width, rounding toward zero, returning zero for a
/// NaN and the nearest representable bound for out-of-range values.
#[verifier::external_body]
pub(crate) fn trunc(a: u64) -> (r: u32)
    ensures
        r == trunc_bits(a),
{
    Double::from_bits(a as u128).to_u128(32).value as u32
}

} // verus!
