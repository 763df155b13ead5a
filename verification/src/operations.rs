//! The evaluator's per-operator dispatch.
//!
//! Arithmetic and comparison follow the left-type-wins rule: when an
//! `Integer` meets a `Float`, the right operand is cast into the left
//! operand's type before the operation — an intentional asymmetry, not a
//! promotion to the wider type. Integer arithmetic wraps on overflow
//! (two's complement); integer division truncates toward zero and dividing
//! by zero is an error; float arithmetic follows IEEE semantics.

use vstd::prelude::*;

use crate::evaluate::EvalErr;
use crate::float::{
    f32_add, f32_cmp, f32_div, f32_mul, f32_of_i32, f32_sub, float_add, float_cmp, float_div,
    float_mul, float_of_int, float_sub, i32_of_f32, int_of_float,
};
use crate::parse::{Atomic, AtomicV};

verus! {

/// The image of an evaluation outcome.
pub open spec fn res_view(r: Result<Atomic, EvalErr>) -> Result<AtomicV, EvalErr> {
    match r {
        Ok(a) => Ok(a@),
        Err(e) => Err(e),
    }
}

/// Truncating division of the left operand by the right, wrapping on the
/// one overflowing case (the smallest integer divided by minus one); the
/// right operand must not be zero.
pub open spec fn wrap_div_i32(a: i32, b: i32) -> i32
    recommends
        b != 0,
{
    match a.checked_div(b) {
        Some(q) => q,
        None => i32::MIN,
    }
}

/// Addition under the left-type-wins rule.
pub open spec fn spec_add(lhs: AtomicV, rhs: AtomicV) -> Result<AtomicV, EvalErr> {
    match lhs {
        AtomicV::Float(a) => match rhs {
            AtomicV::Integer(i) => Ok(AtomicV::Float(f32_add(a, f32_of_i32(i)))),
            AtomicV::Float(b) => Ok(AtomicV::Float(f32_add(a, b))),
            _ => Err(EvalErr::TypeMismatch),
        },
        AtomicV::Integer(a) => match rhs {
            AtomicV::Integer(b) => Ok(AtomicV::Integer(vstd::wrapping::i32_specs::wrapping_add(a, b))),
            AtomicV::Float(b) => Ok(
                AtomicV::Integer(vstd::wrapping::i32_specs::wrapping_add(a, i32_of_f32(b))),
            ),
            _ => Err(EvalErr::TypeMismatch),
        },
        _ => Err(EvalErr::TypeMismatch),
    }
}

/// Subtraction under the left-type-wins rule.
pub open spec fn spec_sub(lhs: AtomicV, rhs: AtomicV) -> Result<AtomicV, EvalErr> {
    match lhs {
        AtomicV::Float(a) => match rhs {
            AtomicV::Integer(i) => Ok(AtomicV::Float(f32_sub(a, f32_of_i32(i)))),
            AtomicV::Float(b) => Ok(AtomicV::Float(f32_sub(a, b))),
            _ => Err(EvalErr::TypeMismatch),
        },
        AtomicV::Integer(a) => match rhs {
            AtomicV::Integer(b) => Ok(AtomicV::Integer(vstd::wrapping::i32_specs::wrapping_sub(a, b))),
            AtomicV::Float(b) => Ok(
                AtomicV::Integer(vstd::wrapping::i32_specs::wrapping_sub(a, i32_of_f32(b))),
            ),
            _ => Err(EvalErr::TypeMismatch),
        },
        _ => Err(EvalErr::TypeMismatch),
    }
}

/// Multiplication under the left-type-wins rule.
pub open spec fn spec_mul(lhs: AtomicV, rhs: AtomicV) -> Result<AtomicV, EvalErr> {
    match lhs {
        AtomicV::Float(a) => match rhs {
            AtomicV::Integer(i) => Ok(AtomicV::Float(f32_mul(a, f32_of_i32(i)))),
            AtomicV::Float(b) => Ok(AtomicV::Float(f32_mul(a, b))),
            _ => Err(EvalErr::TypeMismatch),
        },
        AtomicV::Integer(a) => match rhs {
            AtomicV::Integer(b) => Ok(AtomicV::Integer(vstd::wrapping::i32_specs::wrapping_mul(a, b))),
            AtomicV::Float(b) => Ok(
                AtomicV::Integer(vstd::wrapping::i32_specs::wrapping_mul(a, i32_of_f32(b))),
            ),
            _ => Err(EvalErr::TypeMismatch),
        },
        _ => Err(EvalErr::TypeMismatch),
    }
}

/// Division under the left-type-wins rule: integer division by zero is an
/// error, float division follows IEEE semantics.
pub open spec fn spec_div(lhs: AtomicV, rhs: AtomicV) -> Result<AtomicV, EvalErr> {
    match lhs {
        AtomicV::Float(a) => match rhs {
            AtomicV::Integer(i) => Ok(AtomicV::Float(f32_div(a, f32_of_i32(i)))),
            AtomicV::Float(b) => Ok(AtomicV::Float(f32_div(a, b))),
            _ => Err(EvalErr::TypeMismatch),
        },
        AtomicV::Integer(a) => match rhs {
            AtomicV::Integer(b) => if b == 0 {
                Err(EvalErr::DivisionByZero)
            } else {
                Ok(AtomicV::Integer(wrap_div_i32(a, b)))
            },
            AtomicV::Float(b) => if i32_of_f32(b) == 0 {
                Err(EvalErr::DivisionByZero)
            } else {
                Ok(AtomicV::Integer(wrap_div_i32(a, i32_of_f32(b))))
            },
            _ => Err(EvalErr::TypeMismatch),
        },
        _ => Err(EvalErr::TypeMismatch),
    }
}

/// The factorial's wrapping running product: the product of `1..=n` with
/// each multiplication wrapping.
pub open spec fn fact_wrap(n: int) -> i32
    decreases n,
{
    if n <= 0 {
        1
    } else {
        vstd::wrapping::i32_specs::wrapping_mul(fact_wrap(n - 1), n as i32)
    }
}

/// Factorial: defined on the non-negative integers, `0!` being `1`; a
/// negative operand is a domain error, not `1`.
pub open spec fn spec_factor(lhs: AtomicV) -> Result<AtomicV, EvalErr> {
    match lhs {
        AtomicV::Integer(n) => if n < 0 {
            Err(EvalErr::DomainError)
        } else {
            Ok(AtomicV::Integer(fact_wrap(n as int)))
        },
        _ => Err(EvalErr::TypeMismatch),
    }
}

/// Conjunction: both operands must be booleans; both are already
/// evaluated, so there is no short-circuit.
pub open spec fn spec_and(lhs: AtomicV, rhs: AtomicV) -> Result<AtomicV, EvalErr> {
    match lhs {
        AtomicV::Boolean(a) => match rhs {
            AtomicV::Boolean(b) => Ok(AtomicV::Boolean(a && b)),
            _ => Err(EvalErr::TypeMismatch),
        },
        _ => Err(EvalErr::TypeMismatch),
    }
}

/// Disjunction: both operands must be booleans.
pub open spec fn spec_or(lhs: AtomicV, rhs: AtomicV) -> Result<AtomicV, EvalErr> {
    match lhs {
        AtomicV::Boolean(a) => match rhs {
            AtomicV::Boolean(b) => Ok(AtomicV::Boolean(a || b)),
            _ => Err(EvalErr::TypeMismatch),
        },
        _ => Err(EvalErr::TypeMismatch),
    }
}

/// `<` under the left-type-wins rule; on floats the IEEE order, so false
/// whenever a NaN is involved.
pub open spec fn spec_lt(lhs: AtomicV, rhs: AtomicV) -> Result<AtomicV, EvalErr> {
    match lhs {
        AtomicV::Float(a) => match rhs {
            AtomicV::Integer(i) => Ok(AtomicV::Boolean(f32_cmp(a, f32_of_i32(i)) == Some(-1i8))),
            AtomicV::Float(b) => Ok(AtomicV::Boolean(f32_cmp(a, b) == Some(-1i8))),
            _ => Err(EvalErr::TypeMismatch),
        },
        AtomicV::Integer(a) => match rhs {
            AtomicV::Integer(b) => Ok(AtomicV::Boolean(a < b)),
            AtomicV::Float(b) => Ok(AtomicV::Boolean(a < i32_of_f32(b))),
            _ => Err(EvalErr::TypeMismatch),
        },
        _ => Err(EvalErr::TypeMismatch),
    }
}

/// `<=` under the left-type-wins rule.
pub open spec fn spec_le(lhs: AtomicV, rhs: AtomicV) -> Result<AtomicV, EvalErr> {
    match lhs {
        AtomicV::Float(a) => match rhs {
            AtomicV::Integer(i) => Ok(
                AtomicV::Boolean(
                    f32_cmp(a, f32_of_i32(i)) == Some(-1i8) || f32_cmp(a, f32_of_i32(i))
                        == Some(0i8),
                ),
            ),
            AtomicV::Float(b) => Ok(
                AtomicV::Boolean(f32_cmp(a, b) == Some(-1i8) || f32_cmp(a, b) == Some(0i8)),
            ),
            _ => Err(EvalErr::TypeMismatch),
        },
        AtomicV::Integer(a) => match rhs {
            AtomicV::Integer(b) => Ok(AtomicV::Boolean(a <= b)),
            AtomicV::Float(b) => Ok(AtomicV::Boolean(a <= i32_of_f32(b))),
            _ => Err(EvalErr::TypeMismatch),
        },
        _ => Err(EvalErr::TypeMismatch),
    }
}

/// `>` under the left-type-wins rule.
pub open spec fn spec_gt(lhs: AtomicV, rhs: AtomicV) -> Result<AtomicV, EvalErr> {
    match lhs {
        AtomicV::Float(a) => match rhs {
            AtomicV::Integer(i) => Ok(AtomicV::Boolean(f32_cmp(a, f32_of_i32(i)) == Some(1i8))),
            AtomicV::Float(b) => Ok(AtomicV::Boolean(f32_cmp(a, b) == Some(1i8))),
            _ => Err(EvalErr::TypeMismatch),
        },
        AtomicV::Integer(a) => match rhs {
            AtomicV::Integer(b) => Ok(AtomicV::Boolean(a > b)),
            AtomicV::Float(b) => Ok(AtomicV::Boolean(a > i32_of_f32(b))),
            _ => Err(EvalErr::TypeMismatch),
        },
        _ => Err(EvalErr::TypeMismatch),
    }
}

/// `>=` under the left-type-wins rule.
pub open spec fn spec_ge(lhs: AtomicV, rhs: AtomicV) -> Result<AtomicV, EvalErr> {
    match lhs {
        AtomicV::Float(a) => match rhs {
            AtomicV::Integer(i) => Ok(
                AtomicV::Boolean(
                    f32_cmp(a, f32_of_i32(i)) == Some(1i8) || f32_cmp(a, f32_of_i32(i))
                        == Some(0i8),
                ),
            ),
            AtomicV::Float(b) => Ok(
                AtomicV::Boolean(f32_cmp(a, b) == Some(1i8) || f32_cmp(a, b) == Some(0i8)),
            ),
            _ => Err(EvalErr::TypeMismatch),
        },
        AtomicV::Integer(a) => match rhs {
            AtomicV::Integer(b) => Ok(AtomicV::Boolean(a >= b)),
            AtomicV::Float(b) => Ok(AtomicV::Boolean(a >= i32_of_f32(b))),
            _ => Err(EvalErr::TypeMismatch),
        },
        _ => Err(EvalErr::TypeMismatch),
    }
}

/// `==`: numeric under the left-type-wins rule, and boolean against
/// boolean, string against string; any other pairing is an error.
pub open spec fn spec_eq(lhs: AtomicV, rhs: AtomicV) -> Result<AtomicV, EvalErr> {
    match lhs {
        AtomicV::Float(a) => match rhs {
            AtomicV::Integer(i) => Ok(AtomicV::Boolean(f32_cmp(a, f32_of_i32(i)) == Some(0i8))),
            AtomicV::Float(b) => Ok(AtomicV::Boolean(f32_cmp(a, b) == Some(0i8))),
            _ => Err(EvalErr::TypeMismatch),
        },
        AtomicV::Integer(a) => match rhs {
            AtomicV::Integer(b) => Ok(AtomicV::Boolean(a == b)),
            AtomicV::Float(b) => Ok(AtomicV::Boolean(a == i32_of_f32(b))),
            _ => Err(EvalErr::TypeMismatch),
        },
        AtomicV::Boolean(a) => match rhs {
            AtomicV::Boolean(b) => Ok(AtomicV::Boolean(a == b)),
            _ => Err(EvalErr::TypeMismatch),
        },
        AtomicV::String(a) => match rhs {
            AtomicV::String(b) => Ok(AtomicV::Boolean(a == b)),
            _ => Err(EvalErr::TypeMismatch),
        },
        _ => Err(EvalErr::TypeMismatch),
    }
}

/// `!=`: the negation of [`spec_eq`] on the pairings it accepts; on floats
/// this makes a NaN unequal to everything, itself included.
pub open spec fn spec_neq(lhs: AtomicV, rhs: AtomicV) -> Result<AtomicV, EvalErr> {
    match spec_eq(lhs, rhs) {
        Ok(AtomicV::Boolean(b)) => Ok(AtomicV::Boolean(!b)),
        Ok(v) => Ok(v),
        Err(e) => Err(e),
    }
}

/// Adds two values, the left operand's type winning.
pub fn add_together(lhs: Atomic, rhs: Atomic) -> (r: Result<Atomic, EvalErr>)
    ensures
        res_view(r) == spec_add(lhs@, rhs@),
{
    match lhs {
        Atomic::Float(a) => match rhs {
            Atomic::Integer(i) => Ok(Atomic::Float(float_add(a, float_of_int(i)))),
            Atomic::Float(b) => Ok(Atomic::Float(float_add(a, b))),
            _ => Err(EvalErr::TypeMismatch),
        },
        Atomic::Integer(a) => match rhs {
            Atomic::Integer(b) => Ok(Atomic::Integer(a.wrapping_add(b))),
            Atomic::Float(b) => Ok(Atomic::Integer(a.wrapping_add(int_of_float(b)))),
            _ => Err(EvalErr::TypeMismatch),
        },
        _ => Err(EvalErr::TypeMismatch),
    }
}

/// Subtracts two values, the left operand's type winning.
pub fn sub_together(lhs: Atomic, rhs: Atomic) -> (r: Result<Atomic, EvalErr>)
    ensures
        res_view(r) == spec_sub(lhs@, rhs@),
{
    match lhs {
        Atomic::Float(a) => match rhs {
            Atomic::Integer(i) => Ok(Atomic::Float(float_sub(a, float_of_int(i)))),
            Atomic::Float(b) => Ok(Atomic::Float(float_sub(a, b))),
            _ => Err(EvalErr::TypeMismatch),
        },
        Atomic::Integer(a) => match rhs {
            Atomic::Integer(b) => Ok(Atomic::Integer(a.wrapping_sub(b))),
            Atomic::Float(b) => Ok(Atomic::Integer(a.wrapping_sub(int_of_float(b)))),
            _ => Err(EvalErr::TypeMismatch),
        },
        _ => Err(EvalErr::TypeMismatch),
    }
}

/// Multiplies two values, the left operand's type winning.
pub fn mul_together(lhs: Atomic, rhs: Atomic) -> (r: Result<Atomic, EvalErr>)
    ensures
        res_view(r) == spec_mul(lhs@, rhs@),
{
    match lhs {
        Atomic::Float(a) => match rhs {
            Atomic::Integer(i) => Ok(Atomic::Float(float_mul(a, float_of_int(i)))),
            Atomic::Float(b) => Ok(Atomic::Float(float_mul(a, b))),
            _ => Err(EvalErr::TypeMismatch),
        },
        Atomic::Integer(a) => match rhs {
            Atomic::Integer(b) => Ok(Atomic::Integer(a.wrapping_mul(b))),
            Atomic::Float(b) => Ok(Atomic::Integer(a.wrapping_mul(int_of_float(b)))),
            _ => Err(EvalErr::TypeMismatch),
        },
        _ => Err(EvalErr::TypeMismatch),
    }
}

/// Divides two values, the left operand's type winning; integer division
/// by zero is reported, never attempted.
pub fn div_together(lhs: Atomic, rhs: Atomic) -> (r: Result<Atomic, EvalErr>)
    ensures
        res_view(r) == spec_div(lhs@, rhs@),
{
    match lhs {
        Atomic::Float(a) => match rhs {
            Atomic::Integer(i) => Ok(Atomic::Float(float_div(a, float_of_int(i)))),
            Atomic::Float(b) => Ok(Atomic::Float(float_div(a, b))),
            _ => Err(EvalErr::TypeMismatch),
        },
        Atomic::Integer(a) => match rhs {
            Atomic::Integer(b) => {
                if b == 0 {
                    Err(EvalErr::DivisionByZero)
                } else {
                    match a.checked_div(b) {
                        Some(q) => Ok(Atomic::Integer(q)),
                        None => Ok(Atomic::Integer(i32::MIN)),
                    }
                }
            },
            Atomic::Float(b) => {
                let d = int_of_float(b);
                if d == 0 {
                    Err(EvalErr::DivisionByZero)
                } else {
                    match a.checked_div(d) {
                        Some(q) => Ok(Atomic::Integer(q)),
                        None => Ok(Atomic::Integer(i32::MIN)),
                    }
                }
            },
            _ => Err(EvalErr::TypeMismatch),
        },
        _ => Err(EvalErr::TypeMismatch),
    }
}

/// Factorial of a non-negative integer, multiplications wrapping; `0!` is
/// `1` and a negative operand is a domain error.
pub fn factor(lhs: Atomic) -> (r: Result<Atomic, EvalErr>)
    ensures
        res_view(r) == spec_factor(lhs@),
{
    match lhs {
        Atomic::Integer(n) => {
            if n < 0 {
                Err(EvalErr::DomainError)
            } else {
                let mut acc: i32 = 1;
                let mut i: i32 = 0;
                loop
                    invariant
                        0 <= i <= n,
                        acc == fact_wrap(i as int),
                    ensures
                        i == n,
                    decreases n - i,
                {
                    if i >= n {
                        break ;
                    }
                    i = i + 1;
                    acc = acc.wrapping_mul(i);
                }
                Ok(Atomic::Integer(acc))
            }
        },
        _ => Err(EvalErr::TypeMismatch),
    }
}

/// Conjunction of two booleans; both operands were already evaluated.
pub fn and_together(lhs: Atomic, rhs: Atomic) -> (r: Result<Atomic, EvalErr>)
    ensures
        res_view(r) == spec_and(lhs@, rhs@),
{
    match lhs {
        Atomic::Boolean(a) => match rhs {
            Atomic::Boolean(b) => Ok(Atomic::Boolean(a && b)),
            _ => Err(EvalErr::TypeMismatch),
        },
        _ => Err(EvalErr::TypeMismatch),
    }
}

/// Disjunction of two booleans; both operands were already evaluated.
pub fn or_together(lhs: Atomic, rhs: Atomic) -> (r: Result<Atomic, EvalErr>)
    ensures
        res_view(r) == spec_or(lhs@, rhs@),
{
    match lhs {
        Atomic::Boolean(a) => match rhs {
            Atomic::Boolean(b) => Ok(Atomic::Boolean(a || b)),
            _ => Err(EvalErr::TypeMismatch),
        },
        _ => Err(EvalErr::TypeMismatch),
    }
}

/// `<` under the left-type-wins rule.
pub fn less_than_together(lhs: Atomic, rhs: Atomic) -> (r: Result<Atomic, EvalErr>)
    ensures
        res_view(r) == spec_lt(lhs@, rhs@),
{
    match lhs {
        Atomic::Float(a) => match rhs {
            Atomic::Integer(i) => {
                let c = float_cmp(a, float_of_int(i));
                Ok(Atomic::Boolean(matches!(c, Some(-1))))
            },
            Atomic::Float(b) => {
                let c = float_cmp(a, b);
                Ok(Atomic::Boolean(matches!(c, Some(-1))))
            },
            _ => Err(EvalErr::TypeMismatch),
        },
        Atomic::Integer(a) => match rhs {
            Atomic::Integer(b) => Ok(Atomic::Boolean(a < b)),
            Atomic::Float(b) => Ok(Atomic::Boolean(a < int_of_float(b))),
            _ => Err(EvalErr::TypeMismatch),
        },
        _ => Err(EvalErr::TypeMismatch),
    }
}

/// `<=` under the left-type-wins rule.
pub fn lessequal_than_together(lhs: Atomic, rhs: Atomic) -> (r: Result<Atomic, EvalErr>)
    ensures
        res_view(r) == spec_le(lhs@, rhs@),
{
    match lhs {
        Atomic::Float(a) => match rhs {
            Atomic::Integer(i) => {
                let c = float_cmp(a, float_of_int(i));
                Ok(Atomic::Boolean(matches!(c, Some(-1) | Some(0))))
            },
            Atomic::Float(b) => {
                let c = float_cmp(a, b);
                Ok(Atomic::Boolean(matches!(c, Some(-1) | Some(0))))
            },
            _ => Err(EvalErr::TypeMismatch),
        },
        Atomic::Integer(a) => match rhs {
            Atomic::Integer(b) => Ok(Atomic::Boolean(a <= b)),
            Atomic::Float(b) => Ok(Atomic::Boolean(a <= int_of_float(b))),
            _ => Err(EvalErr::TypeMismatch),
        },
        _ => Err(EvalErr::TypeMismatch),
    }
}

/// `>` under the left-type-wins rule.
pub fn greater_than_together(lhs: Atomic, rhs: Atomic) -> (r: Result<Atomic, EvalErr>)
    ensures
        res_view(r) == spec_gt(lhs@, rhs@),
{
    match lhs {
        Atomic::Float(a) => match rhs {
            Atomic::Integer(i) => {
                let c = float_cmp(a, float_of_int(i));
                Ok(Atomic::Boolean(matches!(c, Some(1))))
            },
            Atomic::Float(b) => {
                let c = float_cmp(a, b);
                Ok(Atomic::Boolean(matches!(c, Some(1))))
            },
            _ => Err(EvalErr::TypeMismatch),
        },
        Atomic::Integer(a) => match rhs {
            Atomic::Integer(b) => Ok(Atomic::Boolean(a > b)),
            Atomic::Float(b) => Ok(Atomic::Boolean(a > int_of_float(b))),
            _ => Err(EvalErr::TypeMismatch),
        },
        _ => Err(EvalErr::TypeMismatch),
    }
}

/// `>=` under the left-type-wins rule.
pub fn greaterequal_than_together(lhs: Atomic, rhs: Atomic) -> (r: Result<Atomic, EvalErr>)
    ensures
        res_view(r) == spec_ge(lhs@, rhs@),
{
    match lhs {
        Atomic::Float(a) => match rhs {
            Atomic::Integer(i) => {
                let c = float_cmp(a, float_of_int(i));
                Ok(Atomic::Boolean(matches!(c, Some(1) | Some(0))))
            },
            Atomic::Float(b) => {
                let c = float_cmp(a, b);
                Ok(Atomic::Boolean(matches!(c, Some(1) | Some(0))))
            },
            _ => Err(EvalErr::TypeMismatch),
        },
        Atomic::Integer(a) => match rhs {
            Atomic::Integer(b) => Ok(Atomic::Boolean(a >= b)),
            Atomic::Float(b) => Ok(Atomic::Boolean(a >= int_of_float(b))),
            _ => Err(EvalErr::TypeMismatch),
        },
        _ => Err(EvalErr::TypeMismatch),
    }
}

/// `==` on the pairings [`spec_eq`] accepts.
pub fn equal_with_together(lhs: Atomic, rhs: Atomic) -> (r: Result<Atomic, EvalErr>)
    ensures
        res_view(r) == spec_eq(lhs@, rhs@),
{
    match lhs {
        Atomic::Float(a) => match rhs {
            Atomic::Integer(i) => {
                let c = float_cmp(a, float_of_int(i));
                Ok(Atomic::Boolean(matches!(c, Some(0))))
            },
            Atomic::Float(b) => {
                let c = float_cmp(a, b);
                Ok(Atomic::Boolean(matches!(c, Some(0))))
            },
            _ => Err(EvalErr::TypeMismatch),
        },
        Atomic::Integer(a) => match rhs {
            Atomic::Integer(b) => Ok(Atomic::Boolean(a == b)),
            Atomic::Float(b) => Ok(Atomic::Boolean(a == int_of_float(b))),
            _ => Err(EvalErr::TypeMismatch),
        },
        Atomic::Boolean(a) => match rhs {
            Atomic::Boolean(b) => Ok(Atomic::Boolean(a == b)),
            _ => Err(EvalErr::TypeMismatch),
        },
        Atomic::String(a) => match rhs {
            Atomic::String(b) => Ok(
                Atomic::Boolean(crate::lexer::str_eq(a.as_str(), b.as_str())),
            ),
            _ => Err(EvalErr::TypeMismatch),
        },
        _ => Err(EvalErr::TypeMismatch),
    }
}

/// `!=` on the pairings [`spec_eq`] accepts.
pub fn notequal_with_together(lhs: Atomic, rhs: Atomic) -> (r: Result<Atomic, EvalErr>)
    ensures
        res_view(r) == spec_neq(lhs@, rhs@),
{
    match equal_with_together(lhs, rhs) {
        Ok(Atomic::Boolean(b)) => Ok(Atomic::Boolean(!b)),
        Ok(v) => Ok(v),
        Err(e) => Err(e),
    }
}

} // verus!
