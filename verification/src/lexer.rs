//! Character-level tokenizer.
//!
//! `Lexer` pulls one token (or lexical error) out of the source per call to
//! [`Lexer::next`], scanning forward from the current character offset. The
//! behaviour is pinned down by the specification function [`spec_next`],
//! which resolves compound punctuation by one-character lookahead, promotes
//! a digit run to a float on a single `.`, and recognizes keywords only
//! after an identifier-shaped run has been fully scanned.
//!
//! Offsets (`start`/`end` of tokens, error spans) count characters of the
//! source, with a token's `end` one past its last character.

use vstd::prelude::*;
use vstd::string::*;

use crate::float::f32_of_dec;

verus! {

/// The tokens of the language. Literal payloads are owned copies of the
/// matched source characters; float literals carry their IEEE-754 bits.
#[derive(Debug, PartialEq)]
pub enum TokenType {
    /// (
    ParenLeft,
    /// )
    ParenRight,
    BraceLeft,
    BraceRight,
    GreatEqual,
    Great,
    LessEqual,
    Less,
    Equal,
    Bang,
    BangEqual,
    SemiColon,
    EqualEqual,
    String(String),
    Integer(i32),
    Float(u32),
    Identifier(String),
    Plus,
    PlusEqual,
    Increment,
    Minus,
    MinusEqual,
    Decrement,
    Star,
    Slash,
    True,
    False,
    And,
    Or,
    If,
    Else,
    While,
    Let,
    Return,
}

/// Mathematical image of a [`TokenType`]: text payloads as character
/// sequences.
pub enum TokenTypeV {
    ParenLeft,
    ParenRight,
    BraceLeft,
    BraceRight,
    GreatEqual,
    Great,
    LessEqual,
    Less,
    Equal,
    Bang,
    BangEqual,
    SemiColon,
    EqualEqual,
    String(Seq<char>),
    Integer(i32),
    Float(u32),
    Identifier(Seq<char>),
    Plus,
    PlusEqual,
    Increment,
    Minus,
    MinusEqual,
    Decrement,
    Star,
    Slash,
    True,
    False,
    And,
    Or,
    If,
    Else,
    While,
    Let,
    Return,
}

impl View for TokenType {
    type V = TokenTypeV;

    open spec fn view(&self) -> TokenTypeV {
        match self {
            TokenType::ParenLeft => TokenTypeV::ParenLeft,
            TokenType::ParenRight => TokenTypeV::ParenRight,
            TokenType::BraceLeft => TokenTypeV::BraceLeft,
            TokenType::BraceRight => TokenTypeV::BraceRight,
            TokenType::GreatEqual => TokenTypeV::GreatEqual,
            TokenType::Great => TokenTypeV::Great,
            TokenType::LessEqual => TokenTypeV::LessEqual,
            TokenType::Less => TokenTypeV::Less,
            TokenType::Equal => TokenTypeV::Equal,
            TokenType::Bang => TokenTypeV::Bang,
            TokenType::BangEqual => TokenTypeV::BangEqual,
            TokenType::SemiColon => TokenTypeV::SemiColon,
            TokenType::EqualEqual => TokenTypeV::EqualEqual,
            TokenType::String(s) => TokenTypeV::String(s@),
            TokenType::Integer(n) => TokenTypeV::Integer(*n),
            TokenType::Float(b) => TokenTypeV::Float(*b),
            TokenType::Identifier(s) => TokenTypeV::Identifier(s@),
            TokenType::Plus => TokenTypeV::Plus,
            TokenType::PlusEqual => TokenTypeV::PlusEqual,
            TokenType::Increment => TokenTypeV::Increment,
            TokenType::Minus => TokenTypeV::Minus,
            TokenType::MinusEqual => TokenTypeV::MinusEqual,
            TokenType::Decrement => TokenTypeV::Decrement,
            TokenType::Star => TokenTypeV::Star,
            TokenType::Slash => TokenTypeV::Slash,
            TokenType::True => TokenTypeV::True,
            TokenType::False => TokenTypeV::False,
            TokenType::And => TokenTypeV::And,
            TokenType::Or => TokenTypeV::Or,
            TokenType::If => TokenTypeV::If,
            TokenType::Else => TokenTypeV::Else,
            TokenType::While => TokenTypeV::While,
            TokenType::Let => TokenTypeV::Let,
            TokenType::Return => TokenTypeV::Return,
        }
    }
}

impl Clone for TokenType {
    fn clone(&self) -> (res: Self)
        ensures
            res@ == self@,
    {
        match self {
            TokenType::ParenLeft => TokenType::ParenLeft,
            TokenType::ParenRight => TokenType::ParenRight,
            TokenType::BraceLeft => TokenType::BraceLeft,
            TokenType::BraceRight => TokenType::BraceRight,
            TokenType::GreatEqual => TokenType::GreatEqual,
            TokenType::Great => TokenType::Great,
            TokenType::LessEqual => TokenType::LessEqual,
            TokenType::Less => TokenType::Less,
            TokenType::Equal => TokenType::Equal,
            TokenType::Bang => TokenType::Bang,
            TokenType::BangEqual => TokenType::BangEqual,
            TokenType::SemiColon => TokenType::SemiColon,
            TokenType::EqualEqual => TokenType::EqualEqual,
            TokenType::String(s) => TokenType::String(s.clone()),
            TokenType::Integer(n) => TokenType::Integer(*n),
            TokenType::Float(b) => TokenType::Float(*b),
            TokenType::Identifier(s) => TokenType::Identifier(s.clone()),
            TokenType::Plus => TokenType::Plus,
            TokenType::PlusEqual => TokenType::PlusEqual,
            TokenType::Increment => TokenType::Increment,
            TokenType::Minus => TokenType::Minus,
            TokenType::MinusEqual => TokenType::MinusEqual,
            TokenType::Decrement => TokenType::Decrement,
            TokenType::Star => TokenType::Star,
            TokenType::Slash => TokenType::Slash,
            TokenType::True => TokenType::True,
            TokenType::False => TokenType::False,
            TokenType::And => TokenType::And,
            TokenType::Or => TokenType::Or,
            TokenType::If => TokenType::If,
            TokenType::Else => TokenType::Else,
            TokenType::While => TokenType::While,
            TokenType::Let => TokenType::Let,
            TokenType::Return => TokenType::Return,
        }
    }
}

/// One token together with the character span it was matched from.
#[derive(Debug, PartialEq)]
pub struct Token {
    pub token_type: TokenType,
    pub start: usize,
    pub end: usize,
}

/// Mathematical image of a [`Token`].
pub struct TokenV {
    pub token_type: TokenTypeV,
    pub start: int,
    pub end: int,
}

impl View for Token {
    type V = TokenV;

    open spec fn view(&self) -> TokenV {
        TokenV { token_type: self.token_type@, start: self.start as int, end: self.end as int }
    }
}

impl Clone for Token {
    fn clone(&self) -> (res: Self)
        ensures
            res@ == self@,
    {
        Token { token_type: self.token_type.clone(), start: self.start, end: self.end }
    }
}

impl Token {
    /// A copy of the token's kind and payload.
    pub fn get_type(&self) -> (r: TokenType)
        ensures
            r@ == self.token_type@,
    {
        self.token_type.clone()
    }
}

/// The data every lexical error carries: the full source (so a caller can
/// render a pointed diagnostic) and the offending character span.
#[derive(Debug, PartialEq)]
pub struct LexerErrorStruct {
    pub src: String,
    pub start: usize,
    pub len: usize,
}

/// Mathematical image of a [`LexerErrorStruct`].
pub struct LexerErrorStructV {
    pub src: Seq<char>,
    pub start: int,
    pub len: int,
}

impl View for LexerErrorStruct {
    type V = LexerErrorStructV;

    open spec fn view(&self) -> LexerErrorStructV {
        LexerErrorStructV { src: self.src@, start: self.start as int, len: self.len as int }
    }
}

impl Clone for LexerErrorStruct {
    fn clone(&self) -> (res: Self)
        ensures
            res@ == self@,
    {
        LexerErrorStruct { src: self.src.clone(), start: self.start, len: self.len }
    }
}

/// The lexical errors: a second decimal point in a number, an unterminated
/// string literal, a numeric literal that does not fit its type, and a
/// character outside every recognized class.
#[derive(Debug, PartialEq)]
pub enum LexerError {
    DotErr(LexerErrorStruct),
    UnfStr(LexerErrorStruct),
    ParsErr(LexerErrorStruct),
    UnkChar(LexerErrorStruct),
}

/// Mathematical image of a [`LexerError`].
pub enum LexerErrorV {
    DotErr(LexerErrorStructV),
    UnfStr(LexerErrorStructV),
    ParsErr(LexerErrorStructV),
    UnkChar(LexerErrorStructV),
}

impl View for LexerError {
    type V = LexerErrorV;

    open spec fn view(&self) -> LexerErrorV {
        match self {
            LexerError::DotErr(e) => LexerErrorV::DotErr(e@),
            LexerError::UnfStr(e) => LexerErrorV::UnfStr(e@),
            LexerError::ParsErr(e) => LexerErrorV::ParsErr(e@),
            LexerError::UnkChar(e) => LexerErrorV::UnkChar(e@),
        }
    }
}

impl Clone for LexerError {
    fn clone(&self) -> (res: Self)
        ensures
            res@ == self@,
    {
        match self {
            LexerError::DotErr(e) => LexerError::DotErr(e.clone()),
            LexerError::UnfStr(e) => LexerError::UnfStr(e.clone()),
            LexerError::ParsErr(e) => LexerError::ParsErr(e.clone()),
            LexerError::UnkChar(e) => LexerError::UnkChar(e.clone()),
        }
    }
}

// ---------------------------------------------------------------------------
// Character classes
// ---------------------------------------------------------------------------
/// The Unicode `White_Space` characters, as `char::is_whitespace` accepts
/// them.
pub open spec fn lex_is_ws(c: char) -> bool {
    let u = c as u32;
    u == 0x20 || (0x9 <= u && u <= 0xD) || u == 0x85 || u == 0xA0 || u == 0x1680 || (0x2000 <= u
        && u <= 0x200A) || u == 0x2028 || u == 0x2029 || u == 0x202F || u == 0x205F || u == 0x3000
}

/// ASCII decimal digits.
pub open spec fn lex_is_digit(c: char) -> bool {
    0x30 <= c as u32 && c as u32 <= 0x39
}

/// The characters that may open an identifier run.
pub open spec fn lex_is_ident_start(c: char) -> bool {
    let u = c as u32;
    u == 0x5F || (0x41 <= u && u <= 0x5A) || (0x61 <= u && u <= 0x7A)
}

/// The characters an identifier run accumulates.
pub open spec fn lex_is_ident_char(c: char) -> bool {
    lex_is_ident_start(c) || lex_is_digit(c)
}

// ---------------------------------------------------------------------------
// Scanning helpers over the character sequence
// ---------------------------------------------------------------------------
/// First position at or after `i` that does not hold whitespace.
pub open spec fn ws_end(s: Seq<char>, i: nat) -> nat
    decreases s.len() - i,
    when i <= s.len()
{
    if i == s.len() {
        i
    } else if lex_is_ws(s[i as int]) {
        ws_end(s, i + 1)
    } else {
        i
    }
}

/// First position at or after `i` that does not hold a digit.
pub open spec fn digits_end(s: Seq<char>, i: nat) -> nat
    decreases s.len() - i,
    when i <= s.len()
{
    if i == s.len() {
        i
    } else if lex_is_digit(s[i as int]) {
        digits_end(s, i + 1)
    } else {
        i
    }
}

/// First position at or after `i` that does not hold an identifier
/// character.
pub open spec fn ident_end(s: Seq<char>, i: nat) -> nat
    decreases s.len() - i,
    when i <= s.len()
{
    if i == s.len() {
        i
    } else if lex_is_ident_char(s[i as int]) {
        ident_end(s, i + 1)
    } else {
        i
    }
}

/// Position of the first `"` at or after `i`, if any.
pub open spec fn string_close(s: Seq<char>, i: nat) -> Option<nat>
    decreases s.len() - i,
    when i <= s.len()
{
    if i == s.len() {
        None
    } else if s[i as int] == '"' {
        Some(i)
    } else {
        string_close(s, i + 1)
    }
}

/// Numeric value of a run of decimal digits.
pub open spec fn digits_val(s: Seq<char>) -> nat
    decreases s.len(),
{
    if s.len() == 0 {
        0
    } else {
        (digits_val(s.drop_last()) * 10 + (s.last() as u32 - 0x30)) as nat
    }
}

/// Whether `s[j]` exists and is the character `c`.
pub open spec fn char_at_is(s: Seq<char>, j: nat, c: char) -> bool {
    j < s.len() && s[j as int] == c
}

/// The token an identifier-shaped run denotes: one of the keywords on exact
/// match, an identifier carrying the run otherwise.
pub open spec fn keyword_or_ident(w: Seq<char>) -> TokenTypeV {
    if w == "if"@ {
        TokenTypeV::If
    } else if w == "else"@ {
        TokenTypeV::Else
    } else if w == "while"@ {
        TokenTypeV::While
    } else if w == "let"@ {
        TokenTypeV::Let
    } else if w == "return"@ {
        TokenTypeV::Return
    } else if w == "true"@ {
        TokenTypeV::True
    } else if w == "false"@ {
        TokenTypeV::False
    } else {
        TokenTypeV::Identifier(w)
    }
}

// ---------------------------------------------------------------------------
// The tokenizer's one-step specification
// ---------------------------------------------------------------------------
/// Outcome of one scanning step from a position: end of input, a token, or
/// a lexical error, the latter two together with the position the scan
/// stops at.
pub enum LexStep {
    End,
    Tok(TokenV, nat),
    Er(LexerErrorV, nat),
}

/// A token spanning `start..end`.
pub open spec fn tok(t: TokenTypeV, start: nat, end: nat) -> LexStep {
    LexStep::Tok(TokenV { token_type: t, start: start as int, end: end as int }, end)
}

/// An error over `start..start + len` in `s`, resuming at `resume`.
pub open spec fn err_at(
    k: LexerErrorV,
    resume: nat,
) -> LexStep {
    LexStep::Er(k, resume)
}

/// The error payload for a span of `s`.
pub open spec fn span_of(s: Seq<char>, start: int, len: int) -> LexerErrorStructV {
    LexerErrorStructV { src: s, start: start, len: len }
}

/// What one call to [`Lexer::next`] at position `i0` of `s` produces, and
/// where it leaves the scan position. Leading whitespace is skipped;
/// punctuation is resolved with one character of lookahead; a digit run is
/// an integer, promoted to a float by exactly one `.`; a `"` opens a string
/// literal that runs to the next `"`; identifier runs become keywords on
/// exact match. Unknown characters are an error whose span is skipped.
pub open spec fn spec_next(s: Seq<char>, i0: nat) -> LexStep
    recommends
        i0 <= s.len(),
{
    let i = ws_end(s, i0);
    if i >= s.len() {
        LexStep::End
    } else {
        let c = s[i as int];
        if c == '>' {
            if char_at_is(s, i + 1, '=') {
                tok(TokenTypeV::GreatEqual, i, i + 2)
            } else {
                tok(TokenTypeV::Great, i, i + 1)
            }
        } else if c == '<' {
            if char_at_is(s, i + 1, '=') {
                tok(TokenTypeV::LessEqual, i, i + 2)
            } else {
                tok(TokenTypeV::Less, i, i + 1)
            }
        } else if c == '+' {
            if char_at_is(s, i + 1, '+') {
                tok(TokenTypeV::Increment, i, i + 2)
            } else if char_at_is(s, i + 1, '=') {
                tok(TokenTypeV::PlusEqual, i, i + 2)
            } else {
                tok(TokenTypeV::Plus, i, i + 1)
            }
        } else if c == '-' {
            if char_at_is(s, i + 1, '-') {
                tok(TokenTypeV::Decrement, i, i + 2)
            } else if char_at_is(s, i + 1, '=') {
                tok(TokenTypeV::MinusEqual, i, i + 2)
            } else {
                tok(TokenTypeV::Minus, i, i + 1)
            }
        } else if c == ')' {
            tok(TokenTypeV::ParenRight, i, i + 1)
        } else if c == '(' {
            tok(TokenTypeV::ParenLeft, i, i + 1)
        } else if c == '!' {
            if char_at_is(s, i + 1, '=') {
                tok(TokenTypeV::BangEqual, i, i + 2)
            } else {
                tok(TokenTypeV::Bang, i, i + 1)
            }
        } else if c == '=' {
            if char_at_is(s, i + 1, '=') {
                tok(TokenTypeV::EqualEqual, i, i + 2)
            } else {
                tok(TokenTypeV::Equal, i, i + 1)
            }
        } else if c == '&' {
            if char_at_is(s, i + 1, '&') {
                tok(TokenTypeV::And, i, i + 2)
            } else {
                err_at(LexerErrorV::UnkChar(span_of(s, i as int, 1)), i + 1)
            }
        } else if c == '|' {
            if char_at_is(s, i + 1, '|') {
                tok(TokenTypeV::Or, i, i + 2)
            } else {
                err_at(LexerErrorV::UnkChar(span_of(s, i as int, 1)), i + 1)
            }
        } else if c == ';' {
            tok(TokenTypeV::SemiColon, i, i + 1)
        } else if c == '{' {
            tok(TokenTypeV::BraceLeft, i, i + 1)
        } else if c == '}' {
            tok(TokenTypeV::BraceRight, i, i + 1)
        } else if c == '*' {
            tok(TokenTypeV::Star, i, i + 1)
        } else if c == '/' {
            tok(TokenTypeV::Slash, i, i + 1)
        } else if lex_is_digit(c) {
            let d = digits_end(s, i);
            if char_at_is(s, d, '.') {
                let d2 = digits_end(s, d + 1);
                if char_at_is(s, d2, '.') {
                    err_at(LexerErrorV::DotErr(span_of(s, i as int, d2 - i)), d2 + 1)
                } else {
                    match f32_of_dec(s.subrange(i as int, d2 as int)) {
                        Some(bits) => tok(TokenTypeV::Float(bits), i, d2),
                        None => err_at(LexerErrorV::ParsErr(span_of(s, i as int, d2 - i)), d2),
                    }
                }
            } else {
                if digits_val(s.subrange(i as int, d as int)) > i32::MAX as nat {
                    err_at(LexerErrorV::ParsErr(span_of(s, i as int, d - i)), d)
                } else {
                    tok(
                        TokenTypeV::Integer(
                            digits_val(s.subrange(i as int, d as int)) as i32,
                        ),
                        i,
                        d,
                    )
                }
            }
        } else if lex_is_ident_start(c) {
            let j = ident_end(s, i);
            tok(keyword_or_ident(s.subrange(i as int, j as int)), i, j)
        } else if c == '"' {
            match string_close(s, i + 1) {
                Some(j) => LexStep::Tok(
                    TokenV {
                        token_type: TokenTypeV::String(s.subrange(i as int + 1, j as int)),
                        start: i as int,
                        end: j + 1 as int,
                    },
                    j + 1,
                ),
                None => err_at(LexerErrorV::UnfStr(span_of(s, i as int, s.len() - i)), s.len()),
            }
        } else {
            err_at(LexerErrorV::UnkChar(span_of(s, i as int, 1)), i + 1)
        }
    }
}


// ---------------------------------------------------------------------------
// Proof helpers about the scanning functions
// ---------------------------------------------------------------------------
/// Every character strictly before `digits_end(s, i)` and at or after `i`
/// is a digit, and the end lies between `i` and the input's length.
pub proof fn lemma_digits_end(s: Seq<char>, i: nat)
    requires
        i <= s.len(),
    ensures
        i <= digits_end(s, i) <= s.len(),
        forall|k: int| i <= k < digits_end(s, i) ==> lex_is_digit(s[k]),
    decreases s.len() - i,
{
    if i < s.len() && lex_is_digit(s[i as int]) {
        lemma_digits_end(s, i + 1);
    }
}

/// `ident_end` bounds.
pub proof fn lemma_ident_end(s: Seq<char>, i: nat)
    requires
        i <= s.len(),
    ensures
        i <= ident_end(s, i) <= s.len(),
    decreases s.len() - i,
{
    if i < s.len() && lex_is_ident_char(s[i as int]) {
        lemma_ident_end(s, i + 1);
    }
}

// ---------------------------------------------------------------------------
// Executable character classes
// ---------------------------------------------------------------------------
/// Whitespace test matching [`lex_is_ws`].
fn is_ws_char(c: char) -> (r: bool)
    ensures
        r == lex_is_ws(c),
{
    let u = c as u32;
    u == 0x20 || (0x9 <= u && u <= 0xD) || u == 0x85 || u == 0xA0 || u == 0x1680 || (0x2000 <= u
        && u <= 0x200A) || u == 0x2028 || u == 0x2029 || u == 0x202F || u == 0x205F || u == 0x3000
}

/// Digit test matching [`lex_is_digit`].
fn is_digit_char(c: char) -> (r: bool)
    ensures
        r == lex_is_digit(c),
{
    let u = c as u32;
    0x30 <= u && u <= 0x39
}

/// Identifier-start test matching [`lex_is_ident_start`].
fn is_ident_start_char(c: char) -> (r: bool)
    ensures
        r == lex_is_ident_start(c),
{
    let u = c as u32;
    u == 0x5F || (0x41 <= u && u <= 0x5A) || (0x61 <= u && u <= 0x7A)
}

/// Identifier-continuation test matching [`lex_is_ident_char`].
fn is_ident_char_exec(c: char) -> (r: bool)
    ensures
        r == lex_is_ident_char(c),
{
    is_ident_start_char(c) || is_digit_char(c)
}

/// Character-by-character string equality.
pub(crate) fn str_eq(a: &str, b: &str) -> (r: bool)
    ensures
        r == (a@ == b@),
{
    let la = a.unicode_len();
    let lb = b.unicode_len();
    if la != lb {
        return false;
    }
    let mut i: usize = 0;
    loop
        invariant
            la == a@.len(),
            la == b@.len(),
            0 <= i <= la,
            forall|k: int| 0 <= k < i ==> a@[k] == b@[k],
        ensures
            i == la,
        decreases la - i,
    {
        if i >= la {
            break ;
        }
        if a.get_char(i) != b.get_char(i) {
            return false;
        }
        i = i + 1;
    }
    proof {
        assert(a@ =~= b@);
    }
    true
}

/// The numeric value of the digit run `s[start..end]`, capped: the result
/// equals the run's value whenever that value fits `i32::MAX`, and
/// otherwise still exceeds `i32::MAX`.
fn digits_value_capped(s: &str, start: usize, end: usize) -> (r: u64)
    requires
        start <= end <= s@.len(),
        forall|k: int| start <= k < end ==> lex_is_digit(s@[k]),
    ensures
        digits_val(s@.subrange(start as int, end as int)) <= i32::MAX as nat ==> r == digits_val(
            s@.subrange(start as int, end as int),
        ),
        digits_val(s@.subrange(start as int, end as int)) > i32::MAX as nat ==> r > i32::MAX as u64,
{
    let ghost whole = s@.subrange(start as int, end as int);
    let mut acc: u64 = 0;
    let mut k: usize = start;
    proof {
        assert(s@.subrange(start as int, start as int) =~= Seq::<char>::empty());
    }
    loop
        invariant
            start <= k <= end <= s@.len(),
            forall|j: int| start <= j < end ==> lex_is_digit(s@[j]),
            acc <= 0x7fffffffu64 * 10 + 9,
            digits_val(s@.subrange(start as int, k as int)) <= i32::MAX as nat ==> acc
                == digits_val(s@.subrange(start as int, k as int)),
            digits_val(s@.subrange(start as int, k as int)) > i32::MAX as nat ==> acc
                > i32::MAX as u64,
        ensures
            k == end,
        decreases end - k,
    {
        if k >= end {
            break ;
        }
        let ghost prefix = s@.subrange(start as int, k as int);
        let ghost longer = s@.subrange(start as int, k as int + 1);
        proof {
            assert(longer.drop_last() =~= prefix);
            assert(longer.last() == s@[k as int]);
        }
        let c = s.get_char(k);
        let d: u64 = (c as u32 - 0x30) as u64;
        if acc > 0x7fff_ffff {
            acc = 0x8000_0000;
        } else {
            acc = acc * 10 + d;
        }
        k = k + 1;
    }
    acc
}

// ---------------------------------------------------------------------------
// The lexer
// ---------------------------------------------------------------------------
/// A cursor over the source. `input` is the text being tokenized; `index`
/// is the character offset scanning resumes from; `next_index` is the
/// one-character lookahead used while resolving compound punctuation.
pub struct Lexer<'a> {
    input: &'a str,
    index: usize,
    next_index: usize,
    length: usize,
}

impl<'a> Lexer<'a> {
    /// The source as a character sequence.
    pub closed spec fn inp(&self) -> Seq<char> {
        self.input@
    }

    /// The character offset the next scan starts from.
    pub closed spec fn pos(&self) -> nat {
        self.index as nat
    }

    /// The lookahead offset used between [`Lexer::expect`] and
    /// [`Lexer::char_token`].
    pub closed spec fn lookahead(&self) -> nat {
        self.next_index as nat
    }

    /// Offsets stay within the source.
    pub closed spec fn wf(&self) -> bool {
        self.index as nat <= self.input@.len() && self.next_index as nat <= self.input@.len()
            && self.length as nat == self.input@.len()
    }

    /// A fresh lexer at the start of `input`.
    pub fn new(input: &'a str) -> (r: Lexer<'a>)
        ensures
            r.wf(),
            r.inp() == input@,
            r.pos() == 0,
    {
        let length = input.unicode_len();
        Lexer { input, index: 0, next_index: 0, length }
    }

    /// One-character lookahead: consumes the character at the lookahead
    /// offset exactly when it is `character`.
    pub fn expect(&mut self, character: char) -> (r: bool)
        requires
            old(self).wf(),
        ensures
            final(self).wf(),
            final(self).inp() == old(self).inp(),
            final(self).pos() == old(self).pos(),
            r == char_at_is(old(self).inp(), old(self).lookahead(), character),
            final(self).lookahead() == if r {
                old(self).lookahead() + 1
            } else {
                old(self).lookahead()
            },
    {
        if self.next_index < self.length {
            let next = self.input.get_char(self.next_index);
            if next == character {
                self.next_index = self.next_index + 1;
                return true;
            }
        }
        false
    }

    /// Emits a token spanning from the scan position to the lookahead
    /// offset and advances the scan position there.
    fn char_token(&mut self, token: TokenType) -> (r: Option<Result<Token, LexerError>>)
        requires
            old(self).wf(),
        ensures
            final(self).wf(),
            final(self).inp() == old(self).inp(),
            final(self).pos() == old(self).lookahead(),
            final(self).lookahead() == old(self).lookahead(),
            r matches Some(Ok(t)) && t@ == (TokenV {
                token_type: token@,
                start: old(self).pos() as int,
                end: old(self).lookahead() as int,
            }),
    {
        let start_index = self.index;
        self.index = self.next_index;
        Some(Ok(Token { start: start_index, end: self.next_index, token_type: token }))
    }

    /// Scans one token, or one lexical error, or reports the end of the
    /// input, exactly as [`spec_next`] describes; the scan position moves
    /// to where the step says it stops.
    pub fn next(&mut self) -> (r: Option<Result<Token, LexerError>>)
        requires
            old(self).wf(),
        ensures
            final(self).wf(),
            final(self).inp() == old(self).inp(),
            match spec_next(old(self).inp(), old(self).pos()) {
                LexStep::End => r is None && final(self).pos() == old(self).inp().len(),
                LexStep::Tok(t, j) => (r matches Some(Ok(tk)) && tk@ == t) && final(self).pos()
                    == j,
                LexStep::Er(e, j) => (r matches Some(Err(er)) && er@ == e) && final(self).pos()
                    == j,
            },
    {
        let ghost s = self.input@;
        let ghost i0 = self.index as nat;
        // Skip leading whitespace.
        loop
            invariant
                self.wf(),
                self.inp() == s,
                ws_end(s, i0) == ws_end(s, self.index as nat),
            ensures
                self.index as nat == ws_end(s, i0),
            decreases s.len() - self.index,
        {
            if self.index >= self.length {
                break ;
            }
            let c = self.input.get_char(self.index);
            if !is_ws_char(c) {
                break ;
            }
            self.index = self.index + 1;
        }
        if self.index >= self.length {
            return None;
        }
        let i = self.index;
        let c = self.input.get_char(i);
        self.next_index = i + 1;
        if c == '>' {
            if self.expect('=') {
                return self.char_token(TokenType::GreatEqual);
            } else {
                return self.char_token(TokenType::Great);
            }
        } else if c == '<' {
            if self.expect('=') {
                return self.char_token(TokenType::LessEqual);
            } else {
                return self.char_token(TokenType::Less);
            }
        } else if c == '+' {
            if self.expect('+') {
                return self.char_token(TokenType::Increment);
            } else if self.expect('=') {
                return self.char_token(TokenType::PlusEqual);
            } else {
                return self.char_token(TokenType::Plus);
            }
        } else if c == '-' {
            if self.expect('-') {
                return self.char_token(TokenType::Decrement);
            } else if self.expect('=') {
                return self.char_token(TokenType::MinusEqual);
            } else {
                return self.char_token(TokenType::Minus);
            }
        } else if c == ')' {
            return self.char_token(TokenType::ParenRight);
        } else if c == '(' {
            return self.char_token(TokenType::ParenLeft);
        } else if c == '!' {
            if self.expect('=') {
                return self.char_token(TokenType::BangEqual);
            } else {
                return self.char_token(TokenType::Bang);
            }
        } else if c == '=' {
            if self.expect('=') {
                return self.char_token(TokenType::EqualEqual);
            } else {
                return self.char_token(TokenType::Equal);
            }
        } else if c == '&' {
            if self.expect('&') {
                return self.char_token(TokenType::And);
            } else {
                let e = LexerErrorStruct { src: self.input.to_owned(), start: i, len: 1 };
                self.index = i + 1;
                return Some(Err(LexerError::UnkChar(e)));
            }
        } else if c == '|' {
            if self.expect('|') {
                return self.char_token(TokenType::Or);
            } else {
                let e = LexerErrorStruct { src: self.input.to_owned(), start: i, len: 1 };
                self.index = i + 1;
                return Some(Err(LexerError::UnkChar(e)));
            }
        } else if c == ';' {
            return self.char_token(TokenType::SemiColon);
        } else if c == '{' {
            return self.char_token(TokenType::BraceLeft);
        } else if c == '}' {
            return self.char_token(TokenType::BraceRight);
        } else if c == '*' {
            return self.char_token(TokenType::Star);
        } else if c == '/' {
            return self.char_token(TokenType::Slash);
        } else if is_digit_char(c) {
            // Integer run, possibly promoted to a float by a single dot.
            loop
                invariant
                    self.wf(),
                    self.inp() == s,
                    i <= self.index,
                    digits_end(s, i as nat) == digits_end(s, self.index as nat),
                    forall|k: int| i <= k < self.index ==> lex_is_digit(s[k]),
                ensures
                    self.index as nat == digits_end(s, i as nat),
                    forall|k: int| i <= k < self.index ==> lex_is_digit(s[k]),
                decreases s.len() - self.index,
            {
                if self.index >= self.length {
                    break ;
                }
                if !is_digit_char(self.input.get_char(self.index)) {
                    break ;
                }
                self.index = self.index + 1;
            }
            let is_dot = self.index < self.length && {
                let ch = self.input.get_char(self.index);
                ch == '.'
            };
            if is_dot {
                self.index = self.index + 1;
                let ghost d1 = self.index as nat;
                loop
                    invariant
                        self.wf(),
                        self.inp() == s,
                        d1 <= self.index,
                        digits_end(s, d1) == digits_end(s, self.index as nat),
                    ensures
                        self.index as nat == digits_end(s, d1),
                    decreases s.len() - self.index,
                {
                    if self.index >= self.length {
                        break ;
                    }
                    if !is_digit_char(self.input.get_char(self.index)) {
                        break ;
                    }
                    self.index = self.index + 1;
                }
                let second_dot = self.index < self.length && {
                    let ch = self.input.get_char(self.index);
                    ch == '.'
                };
                if second_dot {
                    let e = LexerErrorStruct {
                        src: self.input.to_owned(),
                        start: i,
                        len: self.index - i,
                    };
                    self.index = self.index + 1;
                    return Some(Err(LexerError::DotErr(e)));
                } else {
                    let w = self.input.substring_char(i, self.index);
                    match crate::float::float_of_dec_str(w) {
                        Some(bits) => {
                            return Some(
                                Ok(
                                    Token {
                                        token_type: TokenType::Float(bits),
                                        start: i,
                                        end: self.index,
                                    },
                                ),
                            );
                        },
                        None => {
                            let e = LexerErrorStruct {
                                src: self.input.to_owned(),
                                start: i,
                                len: self.index - i,
                            };
                            return Some(Err(LexerError::ParsErr(e)));
                        },
                    }
                }
            } else {
                let value = digits_value_capped(self.input, i, self.index);
                if value > 0x7fff_ffff {
                    let e = LexerErrorStruct {
                        src: self.input.to_owned(),
                        start: i,
                        len: self.index - i,
                    };
                    return Some(Err(LexerError::ParsErr(e)));
                } else {
                    return Some(
                        Ok(
                            Token {
                                token_type: TokenType::Integer(value as i32),
                                start: i,
                                end: self.index,
                            },
                        ),
                    );
                }
            }
        } else if is_ident_start_char(c) {
            loop
                invariant
                    self.wf(),
                    self.inp() == s,
                    i <= self.index,
                    ident_end(s, i as nat) == ident_end(s, self.index as nat),
                ensures
                    self.index as nat == ident_end(s, i as nat),
                decreases s.len() - self.index,
            {
                if self.index >= self.length {
                    break ;
                }
                if !is_ident_char_exec(self.input.get_char(self.index)) {
                    break ;
                }
                self.index = self.index + 1;
            }
            let w = self.input.substring_char(i, self.index);
            let token_type = if str_eq(w, "if") {
                TokenType::If
            } else if str_eq(w, "else") {
                TokenType::Else
            } else if str_eq(w, "while") {
                TokenType::While
            } else if str_eq(w, "let") {
                TokenType::Let
            } else if str_eq(w, "return") {
                TokenType::Return
            } else if str_eq(w, "true") {
                TokenType::True
            } else if str_eq(w, "false") {
                TokenType::False
            } else {
                TokenType::Identifier(w.to_owned())
            };
            return Some(Ok(Token { token_type, start: i, end: self.index }));
        } else if c == '"' {
            self.index = i + 1;
            loop
                invariant
                    self.wf(),
                    self.inp() == s,
                    i + 1 <= self.index,
                    string_close(s, (i + 1) as nat) == string_close(s, self.index as nat),
                ensures
                    match string_close(s, (i + 1) as nat) {
                        Some(j) => self.index as nat == j,
                        None => self.index as nat == s.len(),
                    },
                decreases s.len() - self.index,
            {
                if self.index >= self.length {
                    break ;
                }
                if self.input.get_char(self.index) == '"' {
                    break ;
                }
                self.index = self.index + 1;
            }
            if self.index >= self.length {
                let e = LexerErrorStruct {
                    src: self.input.to_owned(),
                    start: i,
                    len: self.length - i,
                };
                return Some(Err(LexerError::UnfStr(e)));
            }
            let j = self.index;
            let w = self.input.substring_char(i + 1, j);
            self.index = j + 1;
            return Some(
                Ok(Token { token_type: TokenType::String(w.to_owned()), start: i, end: j + 1 }),
            );
        } else {
            let e = LexerErrorStruct { src: self.input.to_owned(), start: i, len: 1 };
            self.index = i + 1;
            return Some(Err(LexerError::UnkChar(e)));
        }
    }
}


// ---------------------------------------------------------------------------
// The token stream
// ---------------------------------------------------------------------------
/// `ws_end` bounds.
pub proof fn lemma_ws_end(s: Seq<char>, i: nat)
    requires
        i <= s.len(),
    ensures
        i <= ws_end(s, i) <= s.len(),
    decreases s.len() - i,
{
    if i < s.len() && lex_is_ws(s[i as int]) {
        lemma_ws_end(s, i + 1);
    }
}

/// `string_close` stays within the input and points at a quote.
pub proof fn lemma_string_close(s: Seq<char>, i: nat)
    requires
        i <= s.len(),
    ensures
        match string_close(s, i) {
            Some(j) => i <= j < s.len() && s[j as int] == '"',
            None => true,
        },
    decreases s.len() - i,
{
    if i < s.len() && s[i as int] != '"' {
        lemma_string_close(s, i + 1);
    }
}

/// One scanning step always moves forward: a token or error step ends
/// strictly beyond where it began and within the input, and the stream
/// only ends once the remaining characters are whitespace.
pub proof fn lemma_next_advances(s: Seq<char>, i: nat)
    requires
        i <= s.len(),
    ensures
        match spec_next(s, i) {
            LexStep::End => ws_end(s, i) == s.len(),
            LexStep::Tok(_, j) => i < j <= s.len(),
            LexStep::Er(_, j) => i < j <= s.len(),
        },
{
    lemma_ws_end(s, i);
    let w = ws_end(s, i);
    if w < s.len() {
        let c = s[w as int];
        lemma_digits_end(s, w);
        if lex_is_digit(c) {
            lemma_digits_end(s, w + 1);
            let d = digits_end(s, w);
            if char_at_is(s, d, '.') {
                lemma_digits_end(s, d + 1);
            }
        }
        if lex_is_ident_start(c) {
            lemma_ident_end(s, w + 1);
        }
        if c == '"' {
            lemma_string_close(s, w + 1);
        }
    }
}

/// The sequence of scanning outcomes from position `i` to the end of the
/// input: what repeated calls to [`Lexer::next`] yield.
pub open spec fn token_stream(s: Seq<char>, i: nat) -> Seq<Result<TokenV, LexerErrorV>>
    decreases s.len() - i,
    when i <= s.len()
{
    match spec_next(s, i) {
        LexStep::End => Seq::empty(),
        LexStep::Tok(t, j) => if i < j <= s.len() {
            seq![Ok(t)] + token_stream(s, j)
        } else {
            seq![Ok(t)]
        },
        LexStep::Er(e, j) => if i < j <= s.len() {
            seq![Err(e)] + token_stream(s, j)
        } else {
            seq![Err(e)]
        },
    }
}

} // verus!
