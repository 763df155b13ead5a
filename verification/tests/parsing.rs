use simp_lang::parse::{Atomic, Operator, ParseError, Parser, TokenTree};

fn parse(input: &str) -> TokenTree {
    Parser::new(input).parse().expect("parse failed")
}

#[test]
fn expression_print() {
    let parser = Parser::new("1 + 2 * 3");
    let string = parser.parse().unwrap();

    assert_eq!(string.to_string(), "(+ 1 (* 2 3))")
}

#[test]
fn braces() {
    assert_eq!(
        Parser::new("((((1 + 2))))").parse().unwrap().to_string(),
        "(+ 1 2)"
    )
}

#[test]
fn precedence_and_associativity() {
    assert_eq!(parse("1 - 2 - 3").to_string(), "(- (- 1 2) 3)");
    assert_eq!(parse("1 + 2 * 3 + 4").to_string(), "(+ (+ 1 (* 2 3)) 4)");
    assert_eq!(parse("a == b + 1").to_string(), "(== a (+ b 1))");
    assert_eq!(parse("true && false || true").to_string(), "(|| (&& true false) true)");
}

#[test]
fn prefix_and_postfix() {
    assert_eq!(parse("-2 + +3").to_string(), "(+ (- 2) (+ 3))");
    assert_eq!(parse("5! + 1").to_string(), "(+ (! 5) 1)");
    assert_eq!(parse("3 * 4!").to_string(), "(* 3 (! 4))");
}

#[test]
fn let_wraps_assignment() {
    assert_eq!(parse("let x = 5").to_string(), "(let (= x 5))");
    assert_eq!(parse("x = 5 + 1").to_string(), "(= x (+ 5 1))");
}

#[test]
fn if_and_while_shapes() {
    let t = parse("if a < 2 { 1 } else { 2 }");
    match &t {
        TokenTree::If { negative, .. } => assert!(negative.is_some()),
        other => panic!("expected a conditional, got {:?}", other),
    }
    assert_eq!(t.to_string(), "(if (< a 2) : 1 ? 2)");
    assert_eq!(parse("while x < 3 { x = x + 1 }").to_string(), "(while (< x 3) : (= x (+ x 1))");
}

#[test]
fn empty_input_is_nil() {
    assert_eq!(parse(""), TokenTree::Atomic(Atomic::Nil));
    assert_eq!(parse("   "), TokenTree::Atomic(Atomic::Nil));
}

#[test]
fn empty_parens_and_braces_are_nil() {
    assert_eq!(parse("()"), TokenTree::Atomic(Atomic::Nil));
    assert_eq!(parse("if true { }").to_string(), "(if true : ())");
}

#[test]
fn assignment_to_non_identifier_is_fatal() {
    assert!(matches!(
        Parser::new("1 = 2").parse(),
        Err(ParseError::AssignTarget(_))
    ));
    assert!(matches!(
        Parser::new("1 + 2 = 3").parse(),
        Err(ParseError::AssignTarget(_))
    ));
}

#[test]
fn missing_closing_delimiters_are_fatal() {
    assert!(matches!(
        Parser::new("(1 + 2").parse(),
        Err(ParseError::MissingToken(_, None))
    ));
    assert!(matches!(
        Parser::new("if true { 1").parse(),
        Err(ParseError::MissingToken(_, None))
    ));
    assert!(matches!(
        Parser::new("(1 }").parse(),
        Err(ParseError::MissingToken(_, Some(_)))
    ));
}

#[test]
fn bad_operand_is_fatal() {
    assert!(matches!(
        Parser::new("* 3").parse(),
        Err(ParseError::UnexpectedToken(_))
    ));
    assert!(matches!(
        Parser::new("1 + }").parse(),
        Err(ParseError::UnexpectedToken(_))
    ));
}

#[test]
fn lexical_error_in_operand_position_is_reported() {
    assert!(matches!(
        Parser::new("1 + 2.3.4").parse(),
        Err(ParseError::Lexical(_))
    ));
}

#[test]
fn trailing_end_of_input_makes_nil_operand() {
    assert_eq!(parse("1 +").to_string(), "(+ 1 ())");
}

#[test]
fn binding_power_tables() {
    assert_eq!(simp_lang::parse::infix_binding_power(&Operator::Plus), Some((2, 3)));
    assert_eq!(simp_lang::parse::infix_binding_power(&Operator::Star), Some((4, 5)));
    assert_eq!(simp_lang::parse::infix_binding_power(&Operator::Or), Some((0, 1)));
    assert_eq!(simp_lang::parse::infix_binding_power(&Operator::Assign), Some((1, 2)));
    assert_eq!(simp_lang::parse::infix_binding_power(&Operator::Bang), None);
    assert_eq!(simp_lang::parse::prefix_binding_power(&Operator::Minus), ((), 5));
    assert_eq!(simp_lang::parse::postfix_binding_power(&Operator::Bang), Some((7, ())));
    assert_eq!(simp_lang::parse::postfix_binding_power(&Operator::Plus), None);
}

#[test]
fn operator_spellings() {
    assert_eq!(Operator::GreaterOrEqual.to_string(), ">=");
    assert_eq!(Operator::Let.to_string(), "let");
    assert_eq!(Operator::NotEqual.to_string(), "!=");
}

#[test]
fn atom_printing() {
    assert_eq!(Atomic::Integer(-7).to_string(), "-7");
    assert_eq!(Atomic::Integer(0).to_string(), "0");
    assert_eq!(Atomic::Boolean(true).to_string(), "true");
    assert_eq!(Atomic::Nil.to_string(), "()");
    assert_eq!(Atomic::Identifier(String::from("abc")).to_string(), "abc");
    assert_eq!(Atomic::String(String::from("hi")).to_string(), "hi");
}

#[test]
fn reparsing_the_printed_form_is_stable() {
    // The canonical form of the printer/grammar agreement fragment:
    // atoms and prefix chains re-parse to the same tree.
    for source in ["(- (- 5))", "(+ 7)", "xyz", "true", "()", "(let x)", "42"] {
        let once = parse(source);
        let twice = parse(&once.to_string());
        assert_eq!(once, twice);
    }
}

#[test]
fn float_printing_reads_back_as_the_same_value() {
    let s = Atomic::Float(2.5f32.to_bits()).to_string();
    assert_eq!(s.parse::<f32>().unwrap(), 2.5f32);
    let s = Atomic::Float(123.0f32.to_bits()).to_string();
    assert_eq!(s.parse::<f32>().unwrap(), 123.0f32);
}

#[test]
fn statement_like_tokens_are_rejected_as_operands() {
    assert!(matches!(
        Parser::new("++ 1").parse(),
        Err(ParseError::UnexpectedToken(_))
    ));
    assert!(matches!(
        Parser::new("return 1").parse(),
        Err(ParseError::UnexpectedToken(_))
    ));
}
