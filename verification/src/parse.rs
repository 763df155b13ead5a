//! Precedence-climbing parser.
//!
//! `Parser` consumes the token stream of one source text and builds an
//! expression tree. The grammar and the binding powers are fixed by the
//! specification functions [`sp_expr`] and [`sp_loop`]: a minimum binding
//! power is threaded through the recursion, operators climb while their
//! left binding power is at least that minimum, and `=` is accepted only
//! when the accumulated left side is an identifier atom.

use vstd::prelude::*;

use crate::lexer::{
    lemma_next_advances, token_stream, Lexer, LexerError, LexerErrorV, Token, TokenType,
    TokenTypeV, TokenV,
};

verus! {

/// The operators a tree node can carry.
#[derive(Clone, Copy, Debug, PartialEq, Eq, Structural)]
pub enum Operator {
    Minus,
    Plus,
    Star,
    Slash,
    Bang,
    Assign,
    Greater,
    GreaterOrEqual,
    Less,
    LessOrEqual,
    EqualEqual,
    NotEqual,
    And,
    Or,
    Let,
}

/// A leaf value: literal, identifier, or nil. Float literals carry their
/// IEEE-754 bits.
#[derive(Debug, PartialEq)]
pub enum Atomic {
    Integer(i32),
    String(String),
    Float(u32),
    Identifier(String),
    Boolean(bool),
    Nil,
}

/// Mathematical image of an [`Atomic`].
pub enum AtomicV {
    Integer(i32),
    String(Seq<char>),
    Float(u32),
    Identifier(Seq<char>),
    Boolean(bool),
    Nil,
}

impl View for Atomic {
    type V = AtomicV;

    open spec fn view(&self) -> AtomicV {
        match self {
            Atomic::Integer(n) => AtomicV::Integer(*n),
            Atomic::String(s) => AtomicV::String(s@),
            Atomic::Float(b) => AtomicV::Float(*b),
            Atomic::Identifier(s) => AtomicV::Identifier(s@),
            Atomic::Boolean(b) => AtomicV::Boolean(*b),
            Atomic::Nil => AtomicV::Nil,
        }
    }
}

impl Clone for Atomic {
    fn clone(&self) -> (res: Self)
        ensures
            res@ == self@,
    {
        match self {
            Atomic::Integer(n) => Atomic::Integer(*n),
            Atomic::String(s) => Atomic::String(s.clone()),
            Atomic::Float(b) => Atomic::Float(*b),
            Atomic::Identifier(s) => Atomic::Identifier(s.clone()),
            Atomic::Boolean(b) => Atomic::Boolean(*b),
            Atomic::Nil => Atomic::Nil,
        }
    }
}

/// The expression tree. Composite nodes own their children exclusively and
/// have exactly the arity their kind implies, by construction.
#[derive(Debug, PartialEq)]
pub enum TokenTree {
    Atomic(Atomic),
    InfixExpression(Operator, Box<TokenTree>, Box<TokenTree>),
    PostfixExpression(Operator, Box<TokenTree>),
    PrefixExpression(Operator, Box<TokenTree>),
    If { condition: Box<TokenTree>, positive: Box<TokenTree>, negative: Option<Box<TokenTree>> },
    While { condition: Box<TokenTree>, body: Box<TokenTree> },
}

/// Mathematical image of a [`TokenTree`].
pub enum TreeV {
    Atomic(AtomicV),
    Infix(Operator, Box<TreeV>, Box<TreeV>),
    Postfix(Operator, Box<TreeV>),
    Prefix(Operator, Box<TreeV>),
    If { condition: Box<TreeV>, positive: Box<TreeV>, negative: Option<Box<TreeV>> },
    While { condition: Box<TreeV>, body: Box<TreeV> },
}

/// The image of a tree, node for node.
pub open spec fn tree_view(t: &TokenTree) -> TreeV
    decreases t,
{
    match t {
        TokenTree::Atomic(a) => TreeV::Atomic(a@),
        TokenTree::InfixExpression(op, l, r) => TreeV::Infix(
            *op,
            Box::new(tree_view(l)),
            Box::new(tree_view(r)),
        ),
        TokenTree::PostfixExpression(op, x) => TreeV::Postfix(*op, Box::new(tree_view(x))),
        TokenTree::PrefixExpression(op, x) => TreeV::Prefix(*op, Box::new(tree_view(x))),
        TokenTree::If { condition, positive, negative } => TreeV::If {
            condition: Box::new(tree_view(condition)),
            positive: Box::new(tree_view(positive)),
            negative: match negative {
                Some(n) => Some(Box::new(tree_view(n))),
                None => None,
            },
        },
        TokenTree::While { condition, body } => TreeV::While {
            condition: Box::new(tree_view(condition)),
            body: Box::new(tree_view(body)),
        },
    }
}

impl View for TokenTree {
    type V = TreeV;

    open spec fn view(&self) -> TreeV {
        tree_view(self)
    }
}

/// The parse errors: a lexical error met where a token was needed, an
/// unexpected token in operand position, a missing delimiter (with the
/// token found instead, if any), and `=` after a left side that is not an
/// identifier.
#[derive(Debug, PartialEq)]
pub enum ParseError {
    Lexical(LexerError),
    UnexpectedToken(Token),
    MissingToken(TokenType, Option<Token>),
    AssignTarget(Token),
}

/// Mathematical image of a [`ParseError`].
pub enum ParseErrorV {
    Lexical(LexerErrorV),
    UnexpectedToken(TokenV),
    MissingToken(TokenTypeV, Option<TokenV>),
    AssignTarget(TokenV),
}

impl View for ParseError {
    type V = ParseErrorV;

    open spec fn view(&self) -> ParseErrorV {
        match self {
            ParseError::Lexical(e) => ParseErrorV::Lexical(e@),
            ParseError::UnexpectedToken(t) => ParseErrorV::UnexpectedToken(t@),
            ParseError::MissingToken(t, f) => ParseErrorV::MissingToken(
                t@,
                match f {
                    Some(tok) => Some(tok@),
                    None => None,
                },
            ),
            ParseError::AssignTarget(t) => ParseErrorV::AssignTarget(t@),
        }
    }
}

// ---------------------------------------------------------------------------
// Binding powers
// ---------------------------------------------------------------------------
/// Binding powers of the infix operators; a gap between the pair's sides
/// encodes left-associativity.
pub open spec fn spec_infix_bp(operator: Operator) -> Option<(u8, u8)> {
    match operator {
        Operator::Minus | Operator::Plus => Some((2u8, 3u8)),
        Operator::Assign => Some((1u8, 2u8)),
        Operator::Star | Operator::Slash => Some((4u8, 5u8)),
        Operator::Less | Operator::LessOrEqual | Operator::Greater | Operator::GreaterOrEqual
            | Operator::NotEqual | Operator::EqualEqual => Some((1u8, 2u8)),
        Operator::And => Some((1u8, 2u8)),
        Operator::Or => Some((0u8, 1u8)),
        _ => None,
    }
}

/// Right binding power of the prefix operators.
pub open spec fn spec_prefix_bp(operator: Operator) -> u8 {
    5u8
}

/// Left binding power of the postfix operators.
pub open spec fn spec_postfix_bp(operator: Operator) -> Option<(u8, ())> {
    match operator {
        Operator::Bang => Some((7u8, ())),
        _ => None,
    }
}

/// Operator with two atomic neighbours.
pub fn infix_binding_power(operator: &Operator) -> (r: Option<(u8, u8)>)
    ensures
        r == spec_infix_bp(*operator),
{
    match operator {
        Operator::Minus | Operator::Plus => Some((2, 3)),
        Operator::Assign => Some((1, 2)),
        Operator::Star | Operator::Slash => Some((4, 5)),
        Operator::Less | Operator::LessOrEqual | Operator::Greater | Operator::GreaterOrEqual
            | Operator::NotEqual | Operator::EqualEqual => Some((1, 2)),
        Operator::And => Some((1, 2)),
        Operator::Or => Some((0, 1)),
        _ => None,
    }
}

/// Operator with one atomic neighbour to its right.
pub fn prefix_binding_power(operator: &Operator) -> (r: ((), u8))
    requires
        *operator == Operator::Plus || *operator == Operator::Minus,
    ensures
        r.1 == spec_prefix_bp(*operator),
{
    match operator {
        Operator::Plus | Operator::Minus => ((), 5),
        _ => ((), 5),
    }
}

/// Operator with one atomic neighbour to its left.
pub fn postfix_binding_power(operator: &Operator) -> (r: Option<(u8, ())>)
    ensures
        r == spec_postfix_bp(*operator),
{
    match operator {
        Operator::Bang => Some((7, ())),
        _ => None,
    }
}

// ---------------------------------------------------------------------------
// The grammar, as specification functions over the token stream
// ---------------------------------------------------------------------------
/// One lexed item: a token or a lexical error.
pub type LexItem = Result<TokenV, LexerErrorV>;

/// Outcome of parsing a prefix of an item sequence: a tree and how many
/// items were consumed, or a fatal parse error.
pub enum SpRes {
    Done(TreeV, nat),
    Fail(ParseErrorV),
}

/// Adds `d` to the consumed count of a successful outcome.
pub open spec fn bump(r: SpRes, d: nat) -> SpRes {
    match r {
        SpRes::Done(t, k) => SpRes::Done(t, k + d),
        SpRes::Fail(e) => SpRes::Fail(e),
    }
}

/// The sequence without its first `n` items (all of them, if there are
/// fewer).
pub open spec fn skip_n(ts: Seq<LexItem>, n: nat) -> Seq<LexItem> {
    if n <= ts.len() {
        ts.skip(n as int)
    } else {
        Seq::empty()
    }
}

/// The leaf a literal or identifier token denotes, if it denotes one.
pub open spec fn atom_of_token(t: TokenTypeV) -> Option<AtomicV> {
    match t {
        TokenTypeV::Float(b) => Some(AtomicV::Float(b)),
        TokenTypeV::Integer(n) => Some(AtomicV::Integer(n)),
        TokenTypeV::String(s) => Some(AtomicV::String(s)),
        TokenTypeV::Identifier(s) => Some(AtomicV::Identifier(s)),
        TokenTypeV::True => Some(AtomicV::Boolean(true)),
        TokenTypeV::False => Some(AtomicV::Boolean(false)),
        _ => None,
    }
}

/// The operator a token denotes when met after a complete left side.
pub open spec fn op_of_token(t: TokenTypeV) -> Option<Operator> {
    match t {
        TokenTypeV::Plus => Some(Operator::Plus),
        TokenTypeV::Minus => Some(Operator::Minus),
        TokenTypeV::Star => Some(Operator::Star),
        TokenTypeV::Bang => Some(Operator::Bang),
        TokenTypeV::Slash => Some(Operator::Slash),
        TokenTypeV::BangEqual => Some(Operator::NotEqual),
        TokenTypeV::EqualEqual => Some(Operator::EqualEqual),
        TokenTypeV::Great => Some(Operator::Greater),
        TokenTypeV::GreatEqual => Some(Operator::GreaterOrEqual),
        TokenTypeV::Less => Some(Operator::Less),
        TokenTypeV::LessEqual => Some(Operator::LessOrEqual),
        TokenTypeV::And => Some(Operator::And),
        TokenTypeV::Or => Some(Operator::Or),
        TokenTypeV::Equal => Some(Operator::Assign),
        _ => None,
    }
}

/// Whether the next item is a token of the given kind.
pub open spec fn next_is(ts: Seq<LexItem>, want: TokenTypeV) -> bool {
    ts.len() > 0 && (ts[0] matches Ok(tok) && tok.token_type == want)
}

/// Demands that the next item be a token of the given kind: the error
/// produced otherwise names the kind and what was found instead.
pub open spec fn sp_expect(ts: Seq<LexItem>, want: TokenTypeV) -> Result<(), ParseErrorV> {
    if ts.len() == 0 {
        Err(ParseErrorV::MissingToken(want, None))
    } else {
        match ts[0] {
            Err(e) => Err(ParseErrorV::Lexical(e)),
            Ok(tok) => if tok.token_type == want {
                Ok(())
            } else {
                Err(ParseErrorV::MissingToken(want, Some(tok)))
            },
        }
    }
}

/// Parses one operand: what the head of `expression(min_bp)` builds
/// before the climbing loop. An empty stream is the neutral `Nil`; a
/// lexical error in operand position is fatal; `(` demands a matching `)`;
/// `let` wraps one full sub-expression; `if`/`while` parse a header
/// expression and a braced block, `if` optionally an `else` block.
pub open spec fn sp_head(ts: Seq<LexItem>) -> SpRes
    decreases ts.len(), 1int,
{
    if ts.len() == 0 {
        SpRes::Done(TreeV::Atomic(AtomicV::Nil), 0)
    } else {
        match ts[0] {
            Err(e) => SpRes::Fail(ParseErrorV::Lexical(e)),
            Ok(t) => match atom_of_token(t.token_type) {
                Some(a) => SpRes::Done(TreeV::Atomic(a), 1),
                None => match t.token_type {
                    TokenTypeV::Plus | TokenTypeV::Minus => {
                        let op = if t.token_type == TokenTypeV::Plus {
                            Operator::Plus
                        } else {
                            Operator::Minus
                        };
                        match sp_expr(skip_n(ts, 1), spec_prefix_bp(op) as nat) {
                            SpRes::Fail(e) => SpRes::Fail(e),
                            SpRes::Done(rhs, k) => SpRes::Done(
                                TreeV::Prefix(op, Box::new(rhs)),
                                1 + k,
                            ),
                        }
                    },
                    TokenTypeV::ParenLeft => {
                        match sp_etp(skip_n(ts, 1), TokenTypeV::ParenRight) {
                            SpRes::Fail(e) => SpRes::Fail(e),
                            SpRes::Done(v, k) => SpRes::Done(v, 1 + k),
                        }
                    },
                    TokenTypeV::Let => {
                        match sp_expr(skip_n(ts, 1), 0) {
                            SpRes::Fail(e) => SpRes::Fail(e),
                            SpRes::Done(v, k) => SpRes::Done(
                                TreeV::Prefix(Operator::Let, Box::new(v)),
                                1 + k,
                            ),
                        }
                    },
                    TokenTypeV::If => {
                        match sp_expr(skip_n(ts, 1), 0) {
                            SpRes::Fail(e) => SpRes::Fail(e),
                            SpRes::Done(cond, k1) => match sp_syntax(
                                skip_n(ts, 1 + k1),
                                TokenTypeV::BraceLeft,
                                TokenTypeV::BraceRight,
                            ) {
                                SpRes::Fail(e) => SpRes::Fail(e),
                                SpRes::Done(pos, k2) => {
                                    let q = 1 + k1 + k2;
                                    if next_is(skip_n(ts, q), TokenTypeV::Else) {
                                        match sp_syntax(
                                            skip_n(ts, q + 1),
                                            TokenTypeV::BraceLeft,
                                            TokenTypeV::BraceRight,
                                        ) {
                                            SpRes::Fail(e) => SpRes::Fail(e),
                                            SpRes::Done(neg, k3) => SpRes::Done(
                                                TreeV::If {
                                                    condition: Box::new(cond),
                                                    positive: Box::new(pos),
                                                    negative: Some(Box::new(neg)),
                                                },
                                                q + 1 + k3,
                                            ),
                                        }
                                    } else {
                                        SpRes::Done(
                                            TreeV::If {
                                                condition: Box::new(cond),
                                                positive: Box::new(pos),
                                                negative: None,
                                            },
                                            q,
                                        )
                                    }
                                },
                            },
                        }
                    },
                    TokenTypeV::While => {
                        match sp_expr(skip_n(ts, 1), 0) {
                            SpRes::Fail(e) => SpRes::Fail(e),
                            SpRes::Done(cond, k1) => match sp_syntax(
                                skip_n(ts, 1 + k1),
                                TokenTypeV::BraceLeft,
                                TokenTypeV::BraceRight,
                            ) {
                                SpRes::Fail(e) => SpRes::Fail(e),
                                SpRes::Done(body, k2) => SpRes::Done(
                                    TreeV::While {
                                        condition: Box::new(cond),
                                        body: Box::new(body),
                                    },
                                    1 + k1 + k2,
                                ),
                            },
                        }
                    },
                    _ => SpRes::Fail(ParseErrorV::UnexpectedToken(t)),
                },
            },
        }
    }
}

/// What `expression(min_bp)` yields on the remaining items: one operand,
/// then the climbing loop.
pub open spec fn sp_expr(ts: Seq<LexItem>, min_bp: nat) -> SpRes
    decreases ts.len(), 2int,
{
    match sp_head(ts) {
        SpRes::Fail(e) => SpRes::Fail(e),
        SpRes::Done(lhs, k) => bump(sp_loop(lhs, skip_n(ts, k), min_bp), k),
    }
}

/// The climbing loop: with a complete left side in hand, consumes postfix
/// and infix operators whose left binding power reaches `min_bp`,
/// recursing for each infix operator's right operand. Stops, leaving the
/// next item unconsumed, on anything else.
pub open spec fn sp_loop(lhs: TreeV, ts: Seq<LexItem>, min_bp: nat) -> SpRes
    decreases ts.len(), 0int,
{
    if ts.len() == 0 {
        SpRes::Done(lhs, 0)
    } else {
        match ts[0] {
            Err(_) => SpRes::Done(lhs, 0),
            Ok(t) => {
                if t.token_type == TokenTypeV::Equal && !(lhs matches TreeV::Atomic(
                    AtomicV::Identifier(_),
                )) {
                    SpRes::Fail(ParseErrorV::AssignTarget(t))
                } else {
                    match op_of_token(t.token_type) {
                        None => SpRes::Done(lhs, 0),
                        Some(op) => match spec_postfix_bp(op) {
                            Some((l, _)) => {
                                if (l as nat) < min_bp {
                                    SpRes::Done(lhs, 0)
                                } else {
                                    bump(
                                        sp_loop(
                                            TreeV::Postfix(op, Box::new(lhs)),
                                            skip_n(ts, 1),
                                            min_bp,
                                        ),
                                        1,
                                    )
                                }
                            },
                            None => match spec_infix_bp(op) {
                                None => SpRes::Done(lhs, 0),
                                Some((l, r)) => {
                                    if (l as nat) < min_bp {
                                        SpRes::Done(lhs, 0)
                                    } else {
                                        match sp_expr(skip_n(ts, 1), r as nat) {
                                            SpRes::Fail(e) => SpRes::Fail(e),
                                            SpRes::Done(rhs, k) => bump(
                                                sp_loop(
                                                    TreeV::Infix(
                                                        op,
                                                        Box::new(lhs),
                                                        Box::new(rhs),
                                                    ),
                                                    skip_n(ts, 1 + k),
                                                    min_bp,
                                                ),
                                                1 + k,
                                            ),
                                        }
                                    }
                                },
                            },
                        },
                    }
                }
            },
        }
    }
}

/// What `expected_token_parse(closing)` yields: `Nil` if the closing token
/// is already next, otherwise one full sub-expression which must be
/// followed by the closing token; the count includes the closing token.
pub open spec fn sp_etp(ts: Seq<LexItem>, closing: TokenTypeV) -> SpRes
    decreases ts.len(), 3int,
{
    if next_is(ts, closing) {
        SpRes::Done(TreeV::Atomic(AtomicV::Nil), 1)
    } else {
        match sp_expr(ts, 0) {
            SpRes::Fail(e) => SpRes::Fail(e),
            SpRes::Done(v, k) => match sp_expect(skip_n(ts, k), closing) {
                Err(e) => SpRes::Fail(e),
                Ok(_) => SpRes::Done(v, k + 1),
            },
        }
    }
}

/// What parsing a whole source text yields.
pub open spec fn spec_parse(s: Seq<char>) -> SpRes {
    sp_expr(token_stream(s, 0), 0)
}


/// What `syntax(left, right)` yields: the left delimiter, then a block
/// parsed as [`sp_etp`]; the count includes both delimiters.
pub open spec fn sp_syntax(ts: Seq<LexItem>, left: TokenTypeV, right: TokenTypeV) -> SpRes
    decreases ts.len(), 0int,
{
    match sp_expect(ts, left) {
        Err(e) => SpRes::Fail(e),
        Ok(_) => bump(sp_etp(skip_n(ts, 1), right), 1),
    }
}

/// Dropping `a` then `b` items is dropping `a + b` items.
pub proof fn lemma_skip_n_add(ts: Seq<LexItem>, a: nat, b: nat)
    ensures
        skip_n(skip_n(ts, a), b) == skip_n(ts, a + b),
{
    if a <= ts.len() {
        if b <= ts.len() - a {
            vstd::seq_lib::lemma_seq_skip_of_skip(ts, a as int, b as int);
            assert(skip_n(skip_n(ts, a), b) =~= skip_n(ts, a + b));
        } else {
            assert(skip_n(skip_n(ts, a), b) =~= Seq::<LexItem>::empty());
            assert(skip_n(ts, a + b) =~= Seq::<LexItem>::empty());
        }
    } else {
        assert(skip_n(ts, a) =~= Seq::<LexItem>::empty());
        assert(skip_n(skip_n(ts, a), b) =~= Seq::<LexItem>::empty());
        assert(skip_n(ts, a + b) =~= Seq::<LexItem>::empty());
    }
}

// ---------------------------------------------------------------------------
// Executable helpers
// ---------------------------------------------------------------------------
/// The image of one lexed item.
pub open spec fn item_view(r: Result<Token, LexerError>) -> LexItem {
    match r {
        Ok(t) => Ok(t@),
        Err(e) => Err(e@),
    }
}

/// The images of a sequence of lexed items.
pub open spec fn items_view(s: Seq<Result<Token, LexerError>>) -> Seq<LexItem> {
    s.map_values(|r: Result<Token, LexerError>| item_view(r))
}

/// A copy of one lexed item.
fn clone_item(x: &Result<Token, LexerError>) -> (r: Result<Token, LexerError>)
    ensures
        item_view(r) == item_view(*x),
{
    match x {
        Ok(t) => Ok(t.clone()),
        Err(e) => Err(e.clone()),
    }
}

/// Token kind (and payload) equality.
fn token_type_eq(a: &TokenType, b: &TokenType) -> (r: bool)
    ensures
        r == (a@ == b@),
{
    match a {
        TokenType::ParenLeft => matches!(b, TokenType::ParenLeft),
        TokenType::ParenRight => matches!(b, TokenType::ParenRight),
        TokenType::BraceLeft => matches!(b, TokenType::BraceLeft),
        TokenType::BraceRight => matches!(b, TokenType::BraceRight),
        TokenType::GreatEqual => matches!(b, TokenType::GreatEqual),
        TokenType::Great => matches!(b, TokenType::Great),
        TokenType::LessEqual => matches!(b, TokenType::LessEqual),
        TokenType::Less => matches!(b, TokenType::Less),
        TokenType::Equal => matches!(b, TokenType::Equal),
        TokenType::Bang => matches!(b, TokenType::Bang),
        TokenType::BangEqual => matches!(b, TokenType::BangEqual),
        TokenType::SemiColon => matches!(b, TokenType::SemiColon),
        TokenType::EqualEqual => matches!(b, TokenType::EqualEqual),
        TokenType::String(x) => match b {
            TokenType::String(y) => crate::lexer::str_eq(x.as_str(), y.as_str()),
            _ => false,
        },
        TokenType::Integer(x) => match b {
            TokenType::Integer(y) => *x == *y,
            _ => false,
        },
        TokenType::Float(x) => match b {
            TokenType::Float(y) => *x == *y,
            _ => false,
        },
        TokenType::Identifier(x) => match b {
            TokenType::Identifier(y) => crate::lexer::str_eq(x.as_str(), y.as_str()),
            _ => false,
        },
        TokenType::Plus => matches!(b, TokenType::Plus),
        TokenType::PlusEqual => matches!(b, TokenType::PlusEqual),
        TokenType::Increment => matches!(b, TokenType::Increment),
        TokenType::Minus => matches!(b, TokenType::Minus),
        TokenType::MinusEqual => matches!(b, TokenType::MinusEqual),
        TokenType::Decrement => matches!(b, TokenType::Decrement),
        TokenType::Star => matches!(b, TokenType::Star),
        TokenType::Slash => matches!(b, TokenType::Slash),
        TokenType::True => matches!(b, TokenType::True),
        TokenType::False => matches!(b, TokenType::False),
        TokenType::And => matches!(b, TokenType::And),
        TokenType::Or => matches!(b, TokenType::Or),
        TokenType::If => matches!(b, TokenType::If),
        TokenType::Else => matches!(b, TokenType::Else),
        TokenType::While => matches!(b, TokenType::While),
        TokenType::Let => matches!(b, TokenType::Let),
        TokenType::Return => matches!(b, TokenType::Return),
    }
}

/// The operator a token denotes after a complete left side.
fn operator_of(t: &TokenType) -> (r: Option<Operator>)
    ensures
        r == op_of_token(t@),
{
    match t {
        TokenType::Plus => Some(Operator::Plus),
        TokenType::Minus => Some(Operator::Minus),
        TokenType::Star => Some(Operator::Star),
        TokenType::Bang => Some(Operator::Bang),
        TokenType::Slash => Some(Operator::Slash),
        TokenType::BangEqual => Some(Operator::NotEqual),
        TokenType::EqualEqual => Some(Operator::EqualEqual),
        TokenType::Great => Some(Operator::Greater),
        TokenType::GreatEqual => Some(Operator::GreaterOrEqual),
        TokenType::Less => Some(Operator::Less),
        TokenType::LessEqual => Some(Operator::LessOrEqual),
        TokenType::And => Some(Operator::And),
        TokenType::Or => Some(Operator::Or),
        TokenType::Equal => Some(Operator::Assign),
        _ => None,
    }
}

// ---------------------------------------------------------------------------
// The parser
// ---------------------------------------------------------------------------
/// Owns the lexed items of one source text and a cursor over them; the
/// cursor makes the stream one-token-peekable.
pub struct Parser {
    items: Vec<Result<Token, LexerError>>,
    pos: usize,
    source: Ghost<Seq<char>>,
}

impl Parser {
    /// The source the parser was built from.
    pub closed spec fn src_of(&self) -> Seq<char> {
        self.source@
    }

    /// The lexed items.
    pub closed spec fn toks(&self) -> Seq<LexItem> {
        items_view(self.items@)
    }

    /// The cursor.
    pub closed spec fn position(&self) -> nat {
        self.pos as nat
    }

    /// The items not yet consumed.
    pub open spec fn remaining(&self) -> Seq<LexItem> {
        self.toks().skip(self.position() as int)
    }

    /// The cursor is in bounds and the items are the source's token
    /// stream.
    pub closed spec fn wf(&self) -> bool {
        self.pos as nat <= self.items@.len() && items_view(self.items@) == token_stream(
            self.source@,
            0,
        )
    }

    /// Lexes the whole source up front; the parser then works through the
    /// items.
    pub fn new(input: &str) -> (r: Parser)
        ensures
            r.wf(),
            r.src_of() == input@,
            r.position() == 0,
    {
        let mut lexer = Lexer::new(input);
        let mut items: Vec<Result<Token, LexerError>> = Vec::new();
        loop
            invariant
                lexer.wf(),
                lexer.inp() == input@,
                lexer.pos() <= input@.len(),
                items_view(items@) + token_stream(input@, lexer.pos()) == token_stream(input@, 0),
            ensures
                items_view(items@) == token_stream(input@, 0),
            decreases input@.len() - lexer.pos(),
        {
            let ghost p = lexer.pos();
            proof {
                lemma_next_advances(input@, p);
            }
            let item = lexer.next();
            match item {
                None => {
                    proof {
                        assert(items_view(items@) + token_stream(input@, lexer.pos())
                            =~= items_view(items@));
                    }
                    break ;
                },
                Some(x) => {
                    proof {
                        assert(items_view(items@.push(x)) =~= items_view(items@) + seq![
                            item_view(x),
                        ]);
                        assert((items_view(items@) + seq![item_view(x)]) + token_stream(
                            input@,
                            lexer.pos(),
                        ) =~= items_view(items@) + (seq![item_view(x)] + token_stream(
                            input@,
                            lexer.pos(),
                        )));
                    }
                    items.push(x);
                },
            }
        }
        let parser = Parser { items, pos: 0, source: Ghost(input@) };
        parser
    }

    /// A copy of the item at the cursor, if any.
    fn peek_clone(&self) -> (r: Option<Result<Token, LexerError>>)
        requires
            self.wf(),
        ensures
            match r {
                Some(x) => {
                    let p = self.position() as int;
                    self.position() < self.toks().len() && item_view(x) == self.toks()[p]
                },
                None => self.position() >= self.toks().len(),
            },
    {
        if self.pos < self.items.len() {
            Some(clone_item(&self.items[self.pos]))
        } else {
            None
        }
    }

    /// Consumes and returns the item at the cursor, if any.
    fn take(&mut self) -> (r: Option<Result<Token, LexerError>>)
        requires
            old(self).wf(),
        ensures
            final(self).wf(),
            final(self).toks() == old(self).toks(),
            final(self).src_of() == old(self).src_of(),
            match r {
                Some(x) => {
                    let p = old(self).position() as int;
                    old(self).position() < old(self).toks().len() && item_view(x) == old(
                        self,
                    ).toks()[p] && final(self).position() == old(self).position() + 1
                },
                None => old(self).position() >= old(self).toks().len() && final(self).position()
                    == old(self).position(),
            },
    {
        if self.pos < self.items.len() {
            let x = clone_item(&self.items[self.pos]);
            self.pos = self.pos + 1;
            Some(x)
        } else {
            None
        }
    }

    /// Whether the item at the cursor is a token of the given kind; does
    /// not consume it.
    fn maybe_expect(&self, token: &TokenType) -> (r: bool)
        requires
            self.wf(),
        ensures
            r == next_is(self.remaining(), token@),
    {
        if self.pos < self.items.len() {
            match &self.items[self.pos] {
                Ok(t) => token_type_eq(&t.token_type, token),
                Err(_) => false,
            }
        } else {
            false
        }
    }

    /// Consumes the item at the cursor exactly when it is a token of the
    /// given kind.
    fn expect(&mut self, token: &TokenType) -> (r: bool)
        requires
            old(self).wf(),
        ensures
            final(self).wf(),
            final(self).toks() == old(self).toks(),
            final(self).src_of() == old(self).src_of(),
            r == next_is(old(self).remaining(), token@),
            final(self).position() == old(self).position() + if r {
                1nat
            } else {
                0nat
            },
    {
        if self.maybe_expect(token) {
            let _ = self.take();
            true
        } else {
            false
        }
    }

    /// Demands a token of the given kind at the cursor, consuming it;
    /// reports what stood there otherwise.
    fn expect_or_error(&mut self, token: &TokenType) -> (r: Result<(), ParseError>)
        requires
            old(self).wf(),
        ensures
            final(self).wf(),
            final(self).toks() == old(self).toks(),
            final(self).src_of() == old(self).src_of(),
            match sp_expect(old(self).remaining(), token@) {
                Ok(_) => r is Ok && final(self).position() == old(self).position() + 1,
                Err(e) => (r matches Err(p) && p@ == e) && final(self).position() == old(
                    self,
                ).position(),
            },
    {
        match self.peek_clone() {
            None => Err(ParseError::MissingToken(token.clone(), None)),
            Some(Err(e)) => Err(ParseError::Lexical(e)),
            Some(Ok(t)) => {
                if token_type_eq(&t.token_type, token) {
                    let _ = self.take();
                    Ok(())
                } else {
                    Err(ParseError::MissingToken(token.clone(), Some(t)))
                }
            },
        }
    }

    /// `Nil` if the closing token is already at the cursor; otherwise one
    /// full sub-expression followed by the closing token.
    fn expected_token_parse(&mut self, token: &TokenType) -> (r: Result<TokenTree, ParseError>)
        requires
            old(self).wf(),
        ensures
            final(self).wf(),
            final(self).toks() == old(self).toks(),
            final(self).src_of() == old(self).src_of(),
            old(self).position() <= final(self).position(),
            match sp_etp(old(self).remaining(), token@) {
                SpRes::Done(t, k) => (r matches Ok(tree) && tree@ == t) && final(self).position()
                    == old(self).position() + k,
                SpRes::Fail(e) => r matches Err(p) && p@ == e,
            },
        decreases old(self).toks().len() - old(self).position(), 3int,
    {
        if self.expect(token) {
            Ok(TokenTree::Atomic(Atomic::Nil))
        } else {
            let val = match self.expression(0) {
                Ok(v) => v,
                Err(e) => {
                    return Err(e);
                },
            };
            let ghost k = (self.position() - old(self).position()) as nat;
            proof {
                vstd::seq_lib::lemma_seq_skip_of_skip(
                    old(self).toks(),
                    old(self).position() as int,
                    k as int,
                );
            }
            match self.expect_or_error(token) {
                Ok(_) => Ok(val),
                Err(e) => Err(e),
            }
        }
    }

    /// The left delimiter, then a block parsed as
    /// [`Parser::expected_token_parse`].
    fn syntax(&mut self, left_side: &TokenType, right_side: &TokenType) -> (r: Result<
        TokenTree,
        ParseError,
    >)
        requires
            old(self).wf(),
        ensures
            final(self).wf(),
            final(self).toks() == old(self).toks(),
            final(self).src_of() == old(self).src_of(),
            old(self).position() <= final(self).position(),
            match sp_syntax(old(self).remaining(), left_side@, right_side@) {
                SpRes::Done(t, k) => (r matches Ok(tree) && tree@ == t) && final(self).position()
                    == old(self).position() + k,
                SpRes::Fail(e) => r matches Err(p) && p@ == e,
            },
        decreases old(self).toks().len() - old(self).position(), 4int,
    {
        match self.expect_or_error(left_side) {
            Err(e) => {
                return Err(e);
            },
            Ok(_) => {},
        }
        proof {
            vstd::seq_lib::lemma_seq_skip_of_skip(
                old(self).toks(),
                old(self).position() as int,
                1,
            );
        }
        self.expected_token_parse(right_side)
    }

    /// Parses one operand, as [`sp_head`] describes.
    #[verifier::rlimit(100)]
    #[verifier::spinoff_prover]
    fn parse_head(&mut self) -> (r: Result<TokenTree, ParseError>)
        requires
            old(self).wf(),
        ensures
            final(self).wf(),
            final(self).toks() == old(self).toks(),
            final(self).src_of() == old(self).src_of(),
            old(self).position() <= final(self).position(),
            match sp_head(old(self).remaining()) {
                SpRes::Done(t, k) => (r matches Ok(tree) && tree@ == t) && final(self).position()
                    == old(self).position() + k,
                SpRes::Fail(e) => r matches Err(p) && p@ == e,
            },
        decreases old(self).toks().len() - old(self).position(), 1int,
    {
        let ghost ts0 = old(self).remaining();
        let ghost pos0 = old(self).position();
        let next = self.take();
        match next {
            None => Ok(TokenTree::Atomic(Atomic::Nil)),
            Some(Err(error)) => Err(ParseError::Lexical(error)),
            Some(Ok(token)) => {
                proof {
                    assert(ts0[0] == Ok::<TokenV, LexerErrorV>(token@));
                    vstd::seq_lib::lemma_seq_skip_of_skip(self.toks(), pos0 as int, 1);
                }
                match &token.token_type {
                    TokenType::Float(num) => Ok(TokenTree::Atomic(Atomic::Float(*num))),
                    TokenType::Integer(num) => Ok(TokenTree::Atomic(Atomic::Integer(*num))),
                    TokenType::String(string) => Ok(
                        TokenTree::Atomic(Atomic::String(string.clone())),
                    ),
                    TokenType::Identifier(name) => Ok(
                        TokenTree::Atomic(Atomic::Identifier(name.clone())),
                    ),
                    TokenType::True => Ok(TokenTree::Atomic(Atomic::Boolean(true))),
                    TokenType::False => Ok(TokenTree::Atomic(Atomic::Boolean(false))),
                    TokenType::Plus | TokenType::Minus => {
                        let operator = if matches!(&token.token_type, TokenType::Plus) {
                            Operator::Plus
                        } else {
                            Operator::Minus
                        };
                        let bp = prefix_binding_power(&operator);
                        let rhs = match self.expression(bp.1) {
                            Ok(v) => v,
                            Err(e) => {
                                return Err(e);
                            },
                        };
                        Ok(TokenTree::PrefixExpression(operator, Box::new(rhs)))
                    },
                    TokenType::ParenLeft => {
                        match self.expected_token_parse(&TokenType::ParenRight) {
                            Ok(v) => Ok(v),
                            Err(e) => Err(e),
                        }
                    },
                    TokenType::Let => {
                        let inner = match self.expression(0) {
                            Ok(v) => v,
                            Err(e) => {
                                return Err(e);
                            },
                        };
                        Ok(TokenTree::PrefixExpression(Operator::Let, Box::new(inner)))
                    },
                    TokenType::If => {
                        let condition = match self.expression(0) {
                            Ok(v) => v,
                            Err(e) => {
                                return Err(e);
                            },
                        };
                        let ghost after_cond = self.position();
                        proof {
                            vstd::seq_lib::lemma_seq_skip_of_skip(
                                self.toks(),
                                pos0 as int,
                                (after_cond - pos0) as int,
                            );
                        }
                        let positive = match self.syntax(
                            &TokenType::BraceLeft,
                            &TokenType::BraceRight,
                        ) {
                            Ok(v) => v,
                            Err(e) => {
                                return Err(e);
                            },
                        };
                        let ghost after_pos = self.position();
                        proof {
                            vstd::seq_lib::lemma_seq_skip_of_skip(
                                self.toks(),
                                pos0 as int,
                                (after_pos - pos0) as int,
                            );
                        }
                        let negative = if self.expect(&TokenType::Else) {
                            proof {
                                vstd::seq_lib::lemma_seq_skip_of_skip(
                                    self.toks(),
                                    pos0 as int,
                                    (self.position() - pos0) as int,
                                );
                            }
                            let val = match self.syntax(
                                &TokenType::BraceLeft,
                                &TokenType::BraceRight,
                            ) {
                                Ok(v) => v,
                                Err(e) => {
                                    return Err(e);
                                },
                            };
                            Some(Box::new(val))
                        } else {
                            None
                        };
                        Ok(
                            TokenTree::If {
                                condition: Box::new(condition),
                                positive: Box::new(positive),
                                negative,
                            },
                        )
                    },
                    TokenType::While => {
                        let condition = match self.expression(0) {
                            Ok(v) => v,
                            Err(e) => {
                                return Err(e);
                            },
                        };
                        let ghost after_cond = self.position();
                        proof {
                            vstd::seq_lib::lemma_seq_skip_of_skip(
                                self.toks(),
                                pos0 as int,
                                (after_cond - pos0) as int,
                            );
                        }
                        let body = match self.syntax(&TokenType::BraceLeft, &TokenType::BraceRight)
                            {
                            Ok(v) => v,
                            Err(e) => {
                                return Err(e);
                            },
                        };
                        Ok(TokenTree::While { condition: Box::new(condition), body: Box::new(body) })
                    },
                    _ => Err(ParseError::UnexpectedToken(token)),
                }
            },
        }
    }

    /// One operand, then the climbing loop, as [`sp_expr`] describes.
    #[verifier::rlimit(60)]
    fn expression(&mut self, min_bp: u8) -> (r: Result<TokenTree, ParseError>)
        requires
            old(self).wf(),
        ensures
            final(self).wf(),
            final(self).toks() == old(self).toks(),
            final(self).src_of() == old(self).src_of(),
            old(self).position() <= final(self).position(),
            match sp_expr(old(self).remaining(), min_bp as nat) {
                SpRes::Done(t, k) => (r matches Ok(tree) && tree@ == t) && final(self).position()
                    == old(self).position() + k,
                SpRes::Fail(e) => r matches Err(p) && p@ == e,
            },
        decreases old(self).toks().len() - old(self).position(), 2int,
    {
        let ghost ts0 = old(self).remaining();
        let ghost pos0 = old(self).position();
        let mut lhs = match self.parse_head() {
            Ok(v) => v,
            Err(e) => {
                return Err(e);
            },
        };
        proof {
            vstd::seq_lib::lemma_seq_skip_of_skip(
                self.toks(),
                pos0 as int,
                (self.position() - pos0) as int,
            );
            assert(sp_expr(ts0, min_bp as nat) == bump(
                sp_loop(lhs@, self.remaining(), min_bp as nat),
                (self.position() - pos0) as nat,
            ));
        }
        loop
            invariant
                ts0 == old(self).remaining(),
                pos0 == old(self).position(),
                self.wf(),
                self.toks() == old(self).toks(),
                self.src_of() == old(self).src_of(),
                pos0 <= self.position() <= self.toks().len(),
                sp_expr(ts0, min_bp as nat) == bump(
                    sp_loop(lhs@, self.remaining(), min_bp as nat),
                    (self.position() - pos0) as nat,
                ),
            ensures
                sp_expr(ts0, min_bp as nat) == SpRes::Done(lhs@, (self.position() - pos0) as nat),
            decreases self.toks().len() - self.position(),
        {
            let peeked = self.peek_clone();
            let token = match peeked {
                None => {
                    break ;
                },
                Some(Err(_)) => {
                    break ;
                },
                Some(Ok(t)) => t,
            };
            proof {
                assert(self.remaining()[0] == Ok::<TokenV, LexerErrorV>(token@));
            }
            if matches!(&token.token_type, TokenType::Equal) && !matches!(
                &lhs,
                TokenTree::Atomic(Atomic::Identifier(_)),
            ) {
                return Err(ParseError::AssignTarget(token));
            }
            let operator = match operator_of(&token.token_type) {
                Some(op) => op,
                None => {
                    break ;
                },
            };
            let ghost pos_before = self.position();
            match postfix_binding_power(&operator) {
                Some((left_bp, _)) => {
                    if left_bp < min_bp {
                        break ;
                    }
                    let _ = self.take();
                    proof {
                        vstd::seq_lib::lemma_seq_skip_of_skip(self.toks(), pos_before as int, 1);
                    }
                    lhs = TokenTree::PostfixExpression(operator, Box::new(lhs));
                    continue ;
                },
                None => {},
            }
            match infix_binding_power(&operator) {
                Some((left_bp, right_bp)) => {
                    if left_bp < min_bp {
                        break ;
                    }
                    let _ = self.take();
                    proof {
                        vstd::seq_lib::lemma_seq_skip_of_skip(self.toks(), pos_before as int, 1);
                    }
                    let rhs = match self.expression(right_bp) {
                        Ok(v) => v,
                        Err(e) => {
                            return Err(e);
                        },
                    };
                    proof {
                        vstd::seq_lib::lemma_seq_skip_of_skip(
                            self.toks(),
                            pos_before as int,
                            (self.position() - pos_before) as int,
                        );
                        vstd::seq_lib::lemma_seq_skip_of_skip(
                            self.toks(),
                            (pos_before + 1) as int,
                            (self.position() - pos_before - 1) as int,
                        );
                    }
                    lhs = TokenTree::InfixExpression(operator, Box::new(lhs), Box::new(rhs));
                    continue ;
                },
                None => {
                    break ;
                },
            }
        }
        Ok(lhs)
    }

    /// Parses the whole source once, yielding the root of the expression
    /// tree or the first fatal error.
    pub fn parse(self) -> (r: Result<TokenTree, ParseError>)
        requires
            self.wf(),
            self.position() == 0,
        ensures
            match spec_parse(self.src_of()) {
                SpRes::Done(t, _) => r matches Ok(tree) && tree@ == t,
                SpRes::Fail(e) => r matches Err(p) && p@ == e,
            },
    {
        let mut parser = self;
        proof {
            assert(parser.remaining() =~= parser.toks());
        }
        let r = parser.expression(0);
        r
    }
}

} // verus!
