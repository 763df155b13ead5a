use simp_lang::lexer::{Lexer, LexerError, TokenType};

fn lex_all(input: &str) -> Vec<Result<simp_lang::lexer::Token, LexerError>> {
    let mut lexer = Lexer::new(input);
    let mut out = Vec::new();
    while let Some(item) = lexer.next() {
        out.push(item);
    }
    out
}

fn token_types(input: &str) -> Vec<TokenType> {
    lex_all(input)
        .into_iter()
        .map(|item| item.expect("unexpected lexical error").token_type)
        .collect()
}

#[test]
fn operator_tokens_round_trip() {
    assert_eq!(
        token_types("+ - ++ --"),
        vec![
            TokenType::Plus,
            TokenType::Minus,
            TokenType::Increment,
            TokenType::Decrement,
        ]
    );
}

#[test]
fn literal_tokens_round_trip() {
    assert_eq!(
        token_types("\"test\" 123 123.0"),
        vec![
            TokenType::String(String::from("test")),
            TokenType::Integer(123),
            TokenType::Float(123.0f32.to_bits()),
        ]
    );
}

#[test]
fn compound_punctuation() {
    assert_eq!(
        token_types("<= >= == != && || < > = ! ; { } ( ) * / += -="),
        vec![
            TokenType::LessEqual,
            TokenType::GreatEqual,
            TokenType::EqualEqual,
            TokenType::BangEqual,
            TokenType::And,
            TokenType::Or,
            TokenType::Less,
            TokenType::Great,
            TokenType::Equal,
            TokenType::Bang,
            TokenType::SemiColon,
            TokenType::BraceLeft,
            TokenType::BraceRight,
            TokenType::ParenLeft,
            TokenType::ParenRight,
            TokenType::Star,
            TokenType::Slash,
            TokenType::PlusEqual,
            TokenType::MinusEqual,
        ]
    );
}

#[test]
fn keywords_and_identifiers() {
    assert_eq!(
        token_types("if else while let return true false foo_9"),
        vec![
            TokenType::If,
            TokenType::Else,
            TokenType::While,
            TokenType::Let,
            TokenType::Return,
            TokenType::True,
            TokenType::False,
            TokenType::Identifier(String::from("foo_9")),
        ]
    );
}

#[test]
fn token_spans() {
    let items = lex_all("ab + 12");
    let spans: Vec<(usize, usize)> = items
        .into_iter()
        .map(|item| {
            let t = item.unwrap();
            (t.start, t.end)
        })
        .collect();
    assert_eq!(spans, vec![(0, 2), (3, 4), (5, 7)]);
}

#[test]
fn get_type_copies_the_kind() {
    let items = lex_all("42");
    let t = items[0].as_ref().unwrap();
    assert_eq!(t.get_type(), TokenType::Integer(42));
}

#[test]
fn second_decimal_point_is_an_error() {
    let items = lex_all("1.2.3");
    assert!(matches!(items[0], Err(LexerError::DotErr(_))));
}

#[test]
fn unterminated_string_is_an_error() {
    let items = lex_all("\"abc");
    assert!(matches!(items[0], Err(LexerError::UnfStr(_))));
}

#[test]
fn integer_overflow_is_a_parse_error() {
    let items = lex_all("99999999999999999999");
    assert!(matches!(items[0], Err(LexerError::ParsErr(_))));
    // The largest value that fits is still a token.
    assert_eq!(token_types("2147483647"), vec![TokenType::Integer(2147483647)]);
    let items = lex_all("2147483648");
    assert!(matches!(items[0], Err(LexerError::ParsErr(_))));
}

#[test]
fn unknown_character_is_an_error_and_is_skipped() {
    let items = lex_all("@ 1");
    assert!(matches!(items[0], Err(LexerError::UnkChar(_))));
    assert!(matches!(
        items[1],
        Ok(ref t) if t.token_type == TokenType::Integer(1)
    ));
}

#[test]
fn lone_ampersand_and_pipe_are_errors() {
    let items = lex_all("&");
    assert!(matches!(items[0], Err(LexerError::UnkChar(_))));
    let items = lex_all("|");
    assert!(matches!(items[0], Err(LexerError::UnkChar(_))));
}

#[test]
fn error_carries_source_and_span() {
    let items = lex_all("1.2.3");
    match &items[0] {
        Err(LexerError::DotErr(e)) => {
            assert_eq!(e.src, "1.2.3");
            assert_eq!(e.start, 0);
            assert_eq!(e.len, 3);
        }
        other => panic!("expected a dot error, got {:?}", other),
    }
}

#[test]
fn whitespace_only_input_yields_nothing() {
    assert!(lex_all("   \t\n  ").is_empty());
    assert!(lex_all("").is_empty());
}

#[test]
fn string_payload_excludes_quotes() {
    assert_eq!(
        token_types("\"a b\""),
        vec![TokenType::String(String::from("a b"))]
    );
}

#[test]
fn float_without_fraction_digits() {
    assert_eq!(token_types("1."), vec![TokenType::Float(1.0f32.to_bits())]);
    assert_eq!(token_types("2.5"), vec![TokenType::Float(2.5f32.to_bits())]);
}
