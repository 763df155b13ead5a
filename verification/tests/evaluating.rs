use simp_lang::evaluate::{EvalErr, Evaluator};
use simp_lang::operations::{
    add_together, and_together, div_together, equal_with_together, factor,
    greater_than_together, greaterequal_than_together, less_than_together,
    lessequal_than_together, mul_together, notequal_with_together, or_together, sub_together,
};
use simp_lang::parse::{Atomic, Parser, TokenTree};

fn run(session: &mut Evaluator, input: &str) -> Result<Atomic, EvalErr> {
    let tree = Parser::new(input).parse().expect("parse failed");
    session.evaluate(&tree)
}

fn eval(input: &str) -> Result<Atomic, EvalErr> {
    run(&mut Evaluator::new(), input)
}

#[test]
fn arithmetic_evaluation() {
    assert_eq!(eval("2 + 3 * 4"), Ok(Atomic::Integer(14)));
    assert_eq!(eval("10 - 2 - 3"), Ok(Atomic::Integer(5)));
    assert_eq!(eval("7 / 2"), Ok(Atomic::Integer(3)));
    assert_eq!(eval("-7 / 2"), Ok(Atomic::Integer(-3)));
    assert_eq!(eval("(1 + 2) * (3 + 4)"), Ok(Atomic::Integer(21)));
}

#[test]
fn left_type_wins_coercion() {
    // Integer + Float truncates the right operand into the left's type.
    assert_eq!(
        add_together(Atomic::Integer(5), Atomic::Float(2.5f32.to_bits())),
        Ok(Atomic::Integer(7))
    );
    // Float + Integer converts the right operand to a float.
    assert_eq!(
        add_together(Atomic::Float(5.0f32.to_bits()), Atomic::Integer(2)),
        Ok(Atomic::Float(7.0f32.to_bits()))
    );
    assert_eq!(eval("5 + 2.5"), Ok(Atomic::Integer(7)));
    assert_eq!(eval("5.0 + 2"), Ok(Atomic::Float(7.0f32.to_bits())));
}

#[test]
fn float_arithmetic_follows_ieee() {
    assert_eq!(
        add_together(Atomic::Float(1.5f32.to_bits()), Atomic::Float(2.25f32.to_bits())),
        Ok(Atomic::Float((1.5f32 + 2.25f32).to_bits()))
    );
    assert_eq!(
        sub_together(Atomic::Float(1.5f32.to_bits()), Atomic::Float(2.25f32.to_bits())),
        Ok(Atomic::Float((1.5f32 - 2.25f32).to_bits()))
    );
    assert_eq!(
        mul_together(Atomic::Float(1.5f32.to_bits()), Atomic::Float(2.25f32.to_bits())),
        Ok(Atomic::Float((1.5f32 * 2.25f32).to_bits()))
    );
    assert_eq!(
        div_together(Atomic::Float(1.0f32.to_bits()), Atomic::Float(0.0f32.to_bits())),
        Ok(Atomic::Float(f32::INFINITY.to_bits()))
    );
    assert_eq!(
        div_together(Atomic::Float(7.5f32.to_bits()), Atomic::Integer(2)),
        Ok(Atomic::Float(3.75f32.to_bits()))
    );
    assert_eq!(eval("- 2.5"), Ok(Atomic::Float((-2.5f32).to_bits())));
    assert_eq!(eval("- 7"), Ok(Atomic::Integer(-7)));
}

#[test]
fn factorial() {
    assert_eq!(eval("5!"), Ok(Atomic::Integer(120)));
    assert_eq!(eval("0!"), Ok(Atomic::Integer(1)));
    assert_eq!(eval("(-1)!"), Err(EvalErr::DomainError));
    assert_eq!(factor(Atomic::Integer(5)), Ok(Atomic::Integer(120)));
    assert_eq!(factor(Atomic::Integer(0)), Ok(Atomic::Integer(1)));
    assert_eq!(factor(Atomic::Integer(-1)), Err(EvalErr::DomainError));
    assert_eq!(factor(Atomic::Boolean(true)), Err(EvalErr::TypeMismatch));
}

#[test]
fn assignment_and_lookup() {
    let mut session = Evaluator::new();
    assert_eq!(run(&mut session, "let x = 5"), Ok(Atomic::Integer(5)));
    assert_eq!(run(&mut session, "x + 1"), Ok(Atomic::Integer(6)));
    assert_eq!(run(&mut session, "x = x + 10"), Ok(Atomic::Integer(15)));
    assert_eq!(run(&mut session, "x"), Ok(Atomic::Integer(15)));
}

#[test]
fn undefined_variable() {
    assert_eq!(eval("nope + 1"), Err(EvalErr::UndefinedVariable));
    assert_eq!(eval("nope"), Err(EvalErr::UndefinedVariable));
}

#[test]
fn control_flow() {
    let branch = |cond: bool, with_else: bool| TokenTree::If {
        condition: Box::new(TokenTree::Atomic(Atomic::Boolean(cond))),
        positive: Box::new(TokenTree::Atomic(Atomic::Integer(1))),
        negative: if with_else {
            Some(Box::new(TokenTree::Atomic(Atomic::Integer(2))))
        } else {
            None
        },
    };
    let mut session = Evaluator::new();
    assert_eq!(session.evaluate(&branch(true, true)), Ok(Atomic::Integer(1)));
    assert_eq!(session.evaluate(&branch(false, true)), Ok(Atomic::Integer(2)));
    assert_eq!(session.evaluate(&branch(false, false)), Ok(Atomic::Nil));
    assert_eq!(session.evaluate(&branch(true, false)), Ok(Atomic::Integer(1)));
}

#[test]
fn while_loops_run_to_nil() {
    let mut session = Evaluator::new();
    assert_eq!(run(&mut session, "let i = 0"), Ok(Atomic::Integer(0)));
    assert_eq!(run(&mut session, "while i < 5 { i = i + 1 }"), Ok(Atomic::Nil));
    assert_eq!(run(&mut session, "i"), Ok(Atomic::Integer(5)));
    // A false condition never runs the body.
    assert_eq!(run(&mut session, "while false { i = 99 }"), Ok(Atomic::Nil));
    assert_eq!(run(&mut session, "i"), Ok(Atomic::Integer(5)));
}

#[test]
fn division_by_zero() {
    assert_eq!(eval("1 / 0"), Err(EvalErr::DivisionByZero));
    assert_eq!(eval("1 / 0.5"), Err(EvalErr::DivisionByZero));
    assert_eq!(div_together(Atomic::Integer(1), Atomic::Integer(0)), Err(EvalErr::DivisionByZero));
}

#[test]
fn type_mismatches() {
    assert_eq!(eval("true + 1"), Err(EvalErr::TypeMismatch));
    assert_eq!(eval("1 && true"), Err(EvalErr::TypeMismatch));
    assert_eq!(eval("if 1 { 2 }"), Err(EvalErr::TypeMismatch));
    assert_eq!(eval("while 1 { 2 }"), Err(EvalErr::TypeMismatch));
    assert_eq!(eval("-true"), Err(EvalErr::TypeMismatch));
    assert_eq!(eval("\"a\" < \"b\""), Err(EvalErr::TypeMismatch));
}

#[test]
fn comparisons() {
    assert_eq!(eval("1 < 2"), Ok(Atomic::Boolean(true)));
    assert_eq!(eval("2 <= 2"), Ok(Atomic::Boolean(true)));
    assert_eq!(eval("3 > 4"), Ok(Atomic::Boolean(false)));
    assert_eq!(eval("4 >= 5"), Ok(Atomic::Boolean(false)));
    assert_eq!(eval("1 == 1"), Ok(Atomic::Boolean(true)));
    assert_eq!(eval("1 != 1"), Ok(Atomic::Boolean(false)));
    assert_eq!(eval("1.5 < 2"), Ok(Atomic::Boolean(true)));
    assert_eq!(eval("2 < 2.5"), Ok(Atomic::Boolean(false)));
    assert_eq!(eval("\"ab\" == \"ab\""), Ok(Atomic::Boolean(true)));
    assert_eq!(eval("\"ab\" != \"ba\""), Ok(Atomic::Boolean(true)));
    assert_eq!(eval("true == false"), Ok(Atomic::Boolean(false)));
    assert_eq!(
        less_than_together(Atomic::Float(1.0f32.to_bits()), Atomic::Float(2.0f32.to_bits())),
        Ok(Atomic::Boolean(true))
    );
    assert_eq!(
        lessequal_than_together(Atomic::Float(2.0f32.to_bits()), Atomic::Integer(2)),
        Ok(Atomic::Boolean(true))
    );
    assert_eq!(
        greater_than_together(Atomic::Float(f32::NAN.to_bits()), Atomic::Float(1.0f32.to_bits())),
        Ok(Atomic::Boolean(false))
    );
    assert_eq!(
        greaterequal_than_together(Atomic::Integer(3), Atomic::Float(2.5f32.to_bits())),
        Ok(Atomic::Boolean(true))
    );
    assert_eq!(
        equal_with_together(Atomic::Float(f32::NAN.to_bits()), Atomic::Float(f32::NAN.to_bits())),
        Ok(Atomic::Boolean(false))
    );
    assert_eq!(
        notequal_with_together(
            Atomic::Float(f32::NAN.to_bits()),
            Atomic::Float(f32::NAN.to_bits())
        ),
        Ok(Atomic::Boolean(true))
    );
}

#[test]
fn logic_is_eager() {
    assert_eq!(eval("true && false"), Ok(Atomic::Boolean(false)));
    assert_eq!(eval("false || true"), Ok(Atomic::Boolean(true)));
    assert_eq!(and_together(Atomic::Boolean(true), Atomic::Boolean(true)), Ok(Atomic::Boolean(true)));
    assert_eq!(or_together(Atomic::Boolean(false), Atomic::Boolean(false)), Ok(Atomic::Boolean(false)));
    // Both operands are evaluated: an error on the right surfaces even
    // when the left side already decides the value.
    assert_eq!(eval("false && nope"), Err(EvalErr::UndefinedVariable));
}

#[test]
fn unary_plus_is_a_no_op() {
    assert_eq!(eval("+5"), Ok(Atomic::Integer(5)));
}

#[test]
fn integer_arithmetic_wraps() {
    assert_eq!(eval("2147483647 + 1"), Ok(Atomic::Integer(i32::MIN)));
    assert_eq!(eval("0 - 2147483647 - 2"), Ok(Atomic::Integer(i32::MAX)));
}

#[test]
fn assignments_inside_operands_take_effect_left_to_right() {
    let mut session = Evaluator::new();
    assert_eq!(run(&mut session, "(x = 2) + (x = x * 10)"), Ok(Atomic::Integer(22)));
    assert_eq!(run(&mut session, "x"), Ok(Atomic::Integer(20)));
}
