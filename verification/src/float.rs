//! Trusted boundary for 32-bit IEEE floating-point values.
//!
//! Floating-point values travel through the library as their IEEE-754 bit
//! patterns (`u32`). The arithmetic itself is done by the `rustc_apfloat`
//! soft-float crate, whose IEEE single-precision operations (round to
//! nearest, ties to even) agree with hardware `f32` arithmetic. Each
//! operation's result is a pure function of the operand bits, so each is
//! given an uninterpreted name that the wrappers' contracts speak of.

use rustc_apfloat::Float as IeeeOps;
use vstd::prelude::*;

verus! {

/// The bits of the IEEE single sum of the two operands' bits.
pub uninterp spec fn f32_add(a: u32, b: u32) -> u32;

/// The bits of the IEEE single difference of the two operands' bits.
pub uninterp spec fn f32_sub(a: u32, b: u32) -> u32;

/// The bits of the IEEE single product of the two operands' bits.
pub uninterp spec fn f32_mul(a: u32, b: u32) -> u32;

/// The bits of the IEEE single quotient of the two operands' bits.
pub uninterp spec fn f32_div(a: u32, b: u32) -> u32;

/// The bits of the IEEE single negation of the operand's bits.
pub uninterp spec fn f32_neg(a: u32) -> u32;

/// The IEEE comparison of two singles: `None` when unordered (a NaN is
/// involved), otherwise `Some(-1)`, `Some(0)` or `Some(1)`.
pub uninterp spec fn f32_cmp(a: u32, b: u32) -> Option<i8>;

/// The bits of the IEEE single nearest to the given 32-bit integer.
pub uninterp spec fn f32_of_i32(i: i32) -> u32;

/// The 32-bit integer obtained from a single by truncation toward zero,
/// saturating at the type's bounds, with NaN going to zero.
pub uninterp spec fn i32_of_f32(a: u32) -> i32;

/// The bits of the IEEE single nearest to the decimal number written in the
/// given characters, or `None` when they do not form a decimal number.
pub uninterp spec fn f32_of_dec(s: Seq<char>) -> Option<u32>;

/// The decimal rendering of a single's bits.
pub uninterp spec fn f32_dec_str(a: u32) -> Seq<char>;

/// Relies on `rustc_apfloat::ieee::Single`'s `Add`: IEEE single addition,
/// round to nearest even; the result depends on the operand bits alone.
#[verifier::external_body]
pub(crate) fn float_add(a: u32, b: u32) -> (r: u32)
    ensures
        r == f32_add(a, b),
{
    let x = rustc_apfloat::ieee::Single::from_bits(a as u128);
    let y = rustc_apfloat::ieee::Single::from_bits(b as u128);
    (x + y).value.to_bits() as u32
}

/// Relies on `rustc_apfloat::ieee::Single`'s `Sub`: IEEE single subtraction,
/// round to nearest even; the result depends on the operand bits alone.
#[verifier::external_body]
pub(crate) fn float_sub(a: u32, b: u32) -> (r: u32)
    ensures
        r == f32_sub(a, b),
{
    let x = rustc_apfloat::ieee::Single::from_bits(a as u128);
    let y = rustc_apfloat::ieee::Single::from_bits(b as u128);
    (x - y).value.to_bits() as u32
}

/// Relies on `rustc_apfloat::ieee::Single`'s `Mul`: IEEE single
/// multiplication, round to nearest even; the result depends on the operand
/// bits alone.
#[verifier::external_body]
pub(crate) fn float_mul(a: u32, b: u32) -> (r: u32)
    ensures
        r == f32_mul(a, b),
{
    let x = rustc_apfloat::ieee::Single::from_bits(a as u128);
    let y = rustc_apfloat::ieee::Single::from_bits(b as u128);
    (x * y).value.to_bits() as u32
}

/// Relies on `rustc_apfloat::ieee::Single`'s `Div`: IEEE single division,
/// round to nearest even; the result depends on the operand bits alone.
#[verifier::external_body]
pub(crate) fn float_div(a: u32, b: u32) -> (r: u32)
    ensures
        r == f32_div(a, b),
{
    let x = rustc_apfloat::ieee::Single::from_bits(a as u128);
    let y = rustc_apfloat::ieee::Single::from_bits(b as u128);
    (x / y).value.to_bits() as u32
}

/// Relies on `rustc_apfloat::ieee::Single`'s `Neg`: flips the sign bit; the
/// result depends on the operand bits alone.
#[verifier::external_body]
pub(crate) fn float_neg(a: u32) -> (r: u32)
    ensures
        r == f32_neg(a),
{
    (-rustc_apfloat::ieee::Single::from_bits(a as u128)).to_bits() as u32
}

/// Relies on `rustc_apfloat::ieee::Single`'s `PartialOrd::partial_cmp`: the
/// IEEE ordering of two singles, `None` when a NaN is involved; the result
/// depends on the operand bits alone.
#[verifier::external_body]
pub(crate) fn float_cmp(a: u32, b: u32) -> (r: Option<i8>)
    ensures
        r == f32_cmp(a, b),
{
    let x = rustc_apfloat::ieee::Single::from_bits(a as u128);
    let y = rustc_apfloat::ieee::Single::from_bits(b as u128);
    match x.partial_cmp(&y) {
        None => None,
        Some(core::cmp::Ordering::Less) => Some(-1),
        Some(core::cmp::Ordering::Equal) => Some(0),
        Some(core::cmp::Ordering::Greater) => Some(1),
    }
}

/// Relies on `rustc_apfloat::Float::from_i128`: the IEEE single nearest to
/// the integer; the result depends on the argument alone.
#[verifier::external_body]
pub(crate) fn float_of_int(i: i32) -> (r: u32)
    ensures
        r == f32_of_i32(i),
{
    let s = rustc_apfloat::ieee::Single::from_i128(i as i128);
    s.value.to_bits() as u32
}

/// Relies on `rustc_apfloat::Float::to_i128`: conversion to a 32-bit
/// integer, truncating toward zero, saturating at the bounds, NaN to zero;
/// the result depends on the argument alone.
#[verifier::external_body]
pub fn int_of_float(a: u32) -> (r: i32)
    ensures
        r == i32_of_f32(a),
{
    let x = rustc_apfloat::ieee::Single::from_bits(a as u128);
    x.to_i128(32).value as i32
}

/// Relies on `rustc_apfloat::ieee::Single`'s `FromStr`: parses a decimal
/// number to the nearest IEEE single; the result depends on the characters
/// alone.
#[verifier::external_body]
pub(crate) fn float_of_dec_str(s: &str) -> (r: Option<u32>)
    ensures
        r == f32_of_dec(s@),
{
    match s.parse::<rustc_apfloat::ieee::Single>() {
        Ok(x) => Some(x.to_bits() as u32),
        Err(_) => None,
    }
}

/// Relies on `rustc_apfloat::ieee::Single`'s `Display`: renders the value in
/// decimal; the result depends on the argument alone.
#[verifier::external_body]
pub(crate) fn float_to_dec_str(a: u32) -> (r: String)
    ensures
        r@ == f32_dec_str(a),
{
    format!("{}", rustc_apfloat::ieee::Single::from_bits(a as u128))
}

} // verus!
