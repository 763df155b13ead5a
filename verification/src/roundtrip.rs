//! Stability of the canonical printed form.
//!
//! The printer writes a parenthesized prefix form while the grammar reads
//! infix, so only part of what the printer emits is grammatical again.
//! That part — non-negative integer, boolean, identifier and nil leaves,
//! under prefix `+`, `-` and `let` nodes — re-parses to a structurally
//! equal tree: [`lemma_print_parse_round_trip`].

use vstd::prelude::*;

use crate::display::{dec_digits, digit_char, op_str, tree_str};
use crate::lexer::{
    char_at_is, digits_end, digits_val, ident_end, keyword_or_ident, lex_is_digit,
    lex_is_ident_char, lex_is_ident_start, lex_is_ws, spec_next, token_stream, ws_end, LexStep,
    TokenTypeV,
};
use crate::parse::{
    atom_of_token, next_is, op_of_token, skip_n, sp_etp, sp_expect, sp_expr, sp_head, sp_loop,
    spec_parse, AtomicV, LexItem, Operator, SpRes, TreeV,
};

verus! {

/// An identifier the printer may emit and the lexer reads back whole: an
/// identifier-shaped run that is not a keyword.
pub open spec fn printable_ident(s: Seq<char>) -> bool {
    s.len() > 0 && lex_is_ident_start(s[0]) && (forall|i: int|
        0 <= i < s.len() ==> lex_is_ident_char(#[trigger] s[i])) && keyword_or_ident(s)
        == TokenTypeV::Identifier(s)
}

/// The trees on which printing and re-parsing agree: non-negative integer,
/// boolean, identifier and nil leaves, under prefix `+`, `-` and `let`.
pub open spec fn fragment(t: TreeV) -> bool
    decreases t,
{
    match t {
        TreeV::Atomic(a) => match a {
            AtomicV::Integer(n) => n >= 0,
            AtomicV::Boolean(_) => true,
            AtomicV::Nil => true,
            AtomicV::Identifier(s) => printable_ident(s),
            _ => false,
        },
        TreeV::Prefix(op, x) => (op == Operator::Plus || op == Operator::Minus || op
            == Operator::Let) && fragment(*x),
        _ => false,
    }
}

/// The token kinds the printed form of a fragment tree lexes into.
pub open spec fn tree_kinds(t: TreeV) -> Seq<TokenTypeV>
    decreases t,
{
    match t {
        TreeV::Atomic(a) => match a {
            AtomicV::Integer(n) => seq![TokenTypeV::Integer(n)],
            AtomicV::Boolean(b) => if b {
                seq![TokenTypeV::True]
            } else {
                seq![TokenTypeV::False]
            },
            AtomicV::Nil => seq![TokenTypeV::ParenLeft, TokenTypeV::ParenRight],
            AtomicV::Identifier(s) => seq![TokenTypeV::Identifier(s)],
            _ => Seq::empty(),
        },
        TreeV::Prefix(op, x) => seq![
            TokenTypeV::ParenLeft,
            match op {
                Operator::Plus => TokenTypeV::Plus,
                Operator::Minus => TokenTypeV::Minus,
                _ => TokenTypeV::Let,
            },
        ] + tree_kinds(*x) + seq![TokenTypeV::ParenRight],
        _ => Seq::empty(),
    }
}

/// Whether the items are exactly tokens of the given kinds, in order.
pub open spec fn toks_are(ts: Seq<LexItem>, kinds: Seq<TokenTypeV>) -> bool {
    ts.len() == kinds.len() && (forall|i: int|
        0 <= i < ts.len() ==> (#[trigger] ts[i] matches Ok(tok) && tok.token_type == kinds[i]))
}

/// Digit characters are digits and carry their value.
proof fn lemma_digit_char(d: nat)
    requires
        d < 10,
    ensures
        lex_is_digit(digit_char(d)),
        digit_char(d) as u32 == 0x30 + d,
        !lex_is_ws(digit_char(d)),
{
}

/// Every character of a printed number is a digit.
proof fn lemma_dec_digits_are_digits(n: nat)
    ensures
        dec_digits(n).len() >= 1,
        forall|i: int| 0 <= i < dec_digits(n).len() ==> lex_is_digit(#[trigger] dec_digits(n)[i]),
    decreases n,
{
    if n < 10 {
        lemma_digit_char(n);
    } else {
        lemma_dec_digits_are_digits(n / 10);
        lemma_digit_char(n % 10);
    }
}

/// Printing then reading a number gives the number back.
proof fn lemma_digits_val_of_dec(n: nat)
    ensures
        digits_val(dec_digits(n)) == n,
    decreases n,
{
    if n < 10 {
        lemma_digit_char(n);
        assert(dec_digits(n).drop_last() =~= Seq::<char>::empty());
        assert(digits_val(Seq::<char>::empty()) == 0);
        assert(dec_digits(n).last() == digit_char(n));
    } else {
        lemma_digits_val_of_dec(n / 10);
        lemma_digit_char(n % 10);
        assert(dec_digits(n).drop_last() =~= dec_digits(n / 10));
        assert(dec_digits(n).last() == digit_char(n % 10));
        assert(digits_val(dec_digits(n)) == digits_val(dec_digits(n).drop_last()) * 10 + (
        dec_digits(n).last() as u32 - 0x30));
    }
}

/// A run of digits ends exactly at the first non-digit.
proof fn lemma_digits_end_at(s: Seq<char>, i: nat, j: nat)
    requires
        i <= j <= s.len(),
        forall|k: int| i <= k < j ==> lex_is_digit(#[trigger] s[k]),
        j == s.len() || !lex_is_digit(s[j as int]),
    ensures
        digits_end(s, i) == j,
    decreases j - i,
{
    if i < j {
        lemma_digits_end_at(s, i + 1, j);
    }
}

/// A run of identifier characters ends exactly at the first character of
/// another class.
proof fn lemma_ident_end_at(s: Seq<char>, i: nat, j: nat)
    requires
        i <= j <= s.len(),
        forall|k: int| i <= k < j ==> lex_is_ident_char(#[trigger] s[k]),
        j == s.len() || !lex_is_ident_char(s[j as int]),
    ensures
        ident_end(s, i) == j,
    decreases j - i,
{
    if i < j {
        lemma_ident_end_at(s, i + 1, j);
    }
}

/// Scanning does not notice a leading whitespace character.
proof fn lemma_stream_ws_skip(s: Seq<char>, p: nat)
    requires
        p < s.len(),
        lex_is_ws(s[p as int]),
    ensures
        token_stream(s, p) == token_stream(s, p + 1),
{
    assert(ws_end(s, p) == ws_end(s, p + 1));
    assert(spec_next(s, p) == spec_next(s, p + 1));
    crate::lexer::lemma_next_advances(s, p + 1);
}


/// The ending position of the printed form, seen from `start`.
pub open spec fn print_end(start: nat, t: TreeV) -> nat {
    (start + tree_str(t).len()) as nat
}

/// One token's worth of stream: when scanning at `start` yields a token
/// ending at `j`, the stream is that token followed by the rest.
proof fn lemma_stream_step(s: Seq<char>, start: nat, tok: crate::lexer::TokenV, j: nat)
    requires
        start <= s.len(),
        spec_next(s, start) == LexStep::Tok(tok, j),
        start < j <= s.len(),
    ensures
        token_stream(s, start) == seq![Ok::<crate::lexer::TokenV, crate::lexer::LexerErrorV>(tok)]
            + token_stream(s, j),
{
}

/// Lexing a printed non-negative integer gives one integer token.
proof fn lemma_stream_int(s: Seq<char>, start: nat, n: i32)
    requires
        n >= 0,
        start + dec_digits(n as nat).len() <= s.len(),
        s.subrange(start as int, (start + dec_digits(n as nat).len()) as int) == dec_digits(
            n as nat,
        ),
        start + dec_digits(n as nat).len() == s.len() || s[(start + dec_digits(n as nat).len()) as int]
            == ')',
    ensures
        spec_next(s, start) == LexStep::Tok(
            crate::lexer::TokenV {
                token_type: TokenTypeV::Integer(n),
                start: start as int,
                end: (start + dec_digits(n as nat).len()) as int,
            },
            (start + dec_digits(n as nat).len()) as nat,
        ),
{
    let j = (start + dec_digits(n as nat).len()) as nat;
    lemma_dec_digits_are_digits(n as nat);
    lemma_digits_val_of_dec(n as nat);
    assert(forall|k: int| start <= k < j ==> #[trigger] s[k] == dec_digits(n as nat)[k - start]);
    assert(lex_is_digit(s[start as int]));
    assert(ws_end(s, start) == start);
    lemma_digits_end_at(s, start, j);
    assert(!char_at_is(s, j, '.'));
    assert(s.subrange(start as int, j as int) == dec_digits(n as nat));
    assert(digits_val(s.subrange(start as int, j as int)) == n);
}

/// Lexing an identifier-shaped word at `start` gives the token its
/// keyword table assigns, the word running to the right boundary.
proof fn lemma_stream_word(s: Seq<char>, start: nat, w: Seq<char>)
    requires
        w.len() > 0,
        lex_is_ident_start(w[0]),
        forall|k: int| 0 <= k < w.len() ==> lex_is_ident_char(#[trigger] w[k]),
        start + w.len() <= s.len(),
        s.subrange(start as int, (start + w.len()) as int) == w,
        start + w.len() == s.len() || !lex_is_ident_char(s[(start + w.len()) as int]),
    ensures
        spec_next(s, start) == LexStep::Tok(
            crate::lexer::TokenV {
                token_type: keyword_or_ident(w),
                start: start as int,
                end: (start + w.len()) as int,
            },
            (start + w.len()) as nat,
        ),
{
    let j = (start + w.len()) as nat;
    assert(forall|k: int| start <= k < j ==> #[trigger] s[k] == w[k - start]);
    assert(lex_is_ident_start(s[start as int]));
    assert(ws_end(s, start) == start);
    lemma_ident_end_at(s, start, j);
    assert(s.subrange(start as int, j as int) == w);
}

/// The words the printer uses for booleans are identifier-shaped and are
/// the boolean keywords.
proof fn lemma_bool_words()
    ensures
        "true"@.len() == 4,
        "false"@.len() == 5,
        lex_is_ident_start("true"@[0]),
        lex_is_ident_start("false"@[0]),
        forall|k: int| 0 <= k < "true"@.len() ==> lex_is_ident_char(#[trigger] "true"@[k]),
        forall|k: int| 0 <= k < "false"@.len() ==> lex_is_ident_char(#[trigger] "false"@[k]),
        keyword_or_ident("true"@) == TokenTypeV::True,
        keyword_or_ident("false"@) == TokenTypeV::False,
{
    reveal_strlit("if");
    reveal_strlit("else");
    reveal_strlit("while");
    reveal_strlit("let");
    reveal_strlit("return");
    reveal_strlit("true");
    reveal_strlit("false");
    assert forall|k: int| 0 <= k < "true"@.len() implies lex_is_ident_char(
        #[trigger] "true"@[k],
    ) by {
        if k == 0 {
        } else if k == 1 {
        } else if k == 2 {
        } else {
            assert(k == 3);
        }
    }
    assert forall|k: int| 0 <= k < "false"@.len() implies lex_is_ident_char(
        #[trigger] "false"@[k],
    ) by {
        if k == 0 {
        } else if k == 1 {
        } else if k == 2 {
        } else if k == 3 {
        } else {
            assert(k == 4);
        }
    }
    assert("true"@[0] != "else"@[0]);
    assert("true"@ != "else"@);
    assert("false"@[0] != "while"@[0]);
    assert("false"@ != "while"@);
}

/// The word the printer uses for `let` is identifier-shaped and is the
/// `let` keyword.
proof fn lemma_let_word()
    ensures
        "let"@.len() == 3,
        lex_is_ident_start("let"@[0]),
        forall|k: int| 0 <= k < "let"@.len() ==> lex_is_ident_char(#[trigger] "let"@[k]),
        keyword_or_ident("let"@) == TokenTypeV::Let,
{
    reveal_strlit("if");
    reveal_strlit("else");
    reveal_strlit("while");
    reveal_strlit("let");
    reveal_strlit("return");
    reveal_strlit("true");
    reveal_strlit("false");
    assert forall|k: int| 0 <= k < "let"@.len() implies lex_is_ident_char(
        #[trigger] "let"@[k],
    ) by {
        if k == 0 {
        } else if k == 1 {
        } else {
            assert(k == 2);
        }
    }
    assert("if"@.len() == 2 && "else"@.len() == 4 && "while"@.len() == 5);
    assert("let"@ != "if"@);
    assert("let"@ != "else"@);
    assert("let"@ != "while"@);
}

/// Lexing the printed form of a fragment tree, embedded in a larger text
/// and bounded on the right by `)` or the end of the text, yields exactly
/// the tree's token kinds and then continues after it.
#[verifier::rlimit(100)]
#[verifier::spinoff_prover]
proof fn lemma_stream_of_print(s: Seq<char>, start: nat, t: TreeV)
    requires
        fragment(t),
        start + tree_str(t).len() <= s.len(),
        s.subrange(start as int, print_end(start, t) as int) == tree_str(t),
        print_end(start, t) == s.len() || s[print_end(start, t) as int] == ')',
    ensures
        exists|items: Seq<LexItem>|
            token_stream(s, start) == items + token_stream(s, print_end(start, t)) && toks_are(
                items,
                tree_kinds(t),
            ),
    decreases t,
{
    let text = tree_str(t);
    let j = print_end(start, t);
    reveal_strlit("(");
    reveal_strlit(")");
    reveal_strlit("()");
    reveal_strlit(" ");
    reveal_strlit("+");
    reveal_strlit("-");
    reveal_strlit("let");
    match t {
        TreeV::Atomic(a) => {
            match a {
                AtomicV::Integer(n) => {
                    assert(text == dec_digits(n as nat));
                    lemma_stream_int(s, start, n);
                    let tok = crate::lexer::TokenV {
                        token_type: TokenTypeV::Integer(n),
                        start: start as int,
                        end: j as int,
                    };
                    lemma_stream_step(s, start, tok, j);
                    let items = seq![Ok::<crate::lexer::TokenV, crate::lexer::LexerErrorV>(tok)];
                    assert(toks_are(items, tree_kinds(t)));
                    assert(token_stream(s, start) == items + token_stream(s, j));
                },
                AtomicV::Boolean(b) => {
                    lemma_bool_words();
                    let w = if b {
                        "true"@
                    } else {
                        "false"@
                    };
                    assert(text == w);
                    assert(j == s.len() || !lex_is_ident_char(s[j as int]));
                    lemma_stream_word(s, start, w);
                    let tok = crate::lexer::TokenV {
                        token_type: keyword_or_ident(w),
                        start: start as int,
                        end: j as int,
                    };
                    lemma_stream_step(s, start, tok, j);
                    let items = seq![Ok::<crate::lexer::TokenV, crate::lexer::LexerErrorV>(tok)];
                    assert(toks_are(items, tree_kinds(t)));
                    assert(token_stream(s, start) == items + token_stream(s, j));
                },
                AtomicV::Nil => {
                    assert(text == "()"@);
                    assert(s.subrange(start as int, j as int)[0] == '(');
                    assert(s.subrange(start as int, j as int)[1] == ')');
                    assert(s[start as int] == '(');
                    assert(s[start as int + 1] == ')');
                    assert(ws_end(s, start) == start);
                    let tok1 = crate::lexer::TokenV {
                        token_type: TokenTypeV::ParenLeft,
                        start: start as int,
                        end: start as int + 1,
                    };
                    lemma_stream_step(s, start, tok1, start + 1);
                    assert(ws_end(s, start + 1) == start + 1);
                    let tok2 = crate::lexer::TokenV {
                        token_type: TokenTypeV::ParenRight,
                        start: start as int + 1,
                        end: start as int + 2,
                    };
                    lemma_stream_step(s, start + 1, tok2, start + 2);
                    let items = seq![
                        Ok::<crate::lexer::TokenV, crate::lexer::LexerErrorV>(tok1),
                        Ok::<crate::lexer::TokenV, crate::lexer::LexerErrorV>(tok2),
                    ];
                    assert(token_stream(s, start) =~= items + token_stream(s, j));
                    assert(toks_are(items, tree_kinds(t)));
                },
                AtomicV::Identifier(w) => {
                    assert(text == w);
                    assert(j == s.len() || !lex_is_ident_char(s[j as int]));
                    lemma_stream_word(s, start, w);
                    let tok = crate::lexer::TokenV {
                        token_type: TokenTypeV::Identifier(w),
                        start: start as int,
                        end: j as int,
                    };
                    lemma_stream_step(s, start, tok, j);
                    let items = seq![Ok::<crate::lexer::TokenV, crate::lexer::LexerErrorV>(tok)];
                    assert(toks_are(items, tree_kinds(t)));
                    assert(token_stream(s, start) == items + token_stream(s, j));
                },
                _ => {},
            }
        },
        TreeV::Prefix(_, _) => {
            lemma_stream_prefix(s, start, t);
        },
        _ => {},
    }
}


/// The prefix-node case of [`lemma_stream_of_print`].
#[verifier::rlimit(100)]
#[verifier::spinoff_prover]
proof fn lemma_stream_prefix(s: Seq<char>, start: nat, t: TreeV)
    requires
        t matches TreeV::Prefix(_, _),
        fragment(t),
        start + tree_str(t).len() <= s.len(),
        s.subrange(start as int, print_end(start, t) as int) == tree_str(t),
        print_end(start, t) == s.len() || s[print_end(start, t) as int] == ')',
    ensures
        exists|items: Seq<LexItem>|
            token_stream(s, start) == items + token_stream(s, print_end(start, t)) && toks_are(
                items,
                tree_kinds(t),
            ),
    decreases t, 0int,
{
    let text = tree_str(t);
    let j = print_end(start, t);
    reveal_strlit("(");
    reveal_strlit(")");
    reveal_strlit(" ");
    reveal_strlit("+");
    reveal_strlit("-");
    reveal_strlit("let");
    match t {
        TreeV::Prefix(op, x) => {
            let opl = op_str(op).len();
            let lx = tree_str(*x).len();
            let xs = (start + 2 + opl) as nat;
            assert(text == "("@ + op_str(op) + " "@ + tree_str(*x) + ")"@);
            assert(text.len() == 2 + opl + lx + 1);
            assert(forall|k: int| start <= k < j ==> #[trigger] s[k] == text[k - start]);
            assert(s[start as int] == '(');
            assert(s[(start + 1 + opl) as int] == ' ');
            assert(s[(j - 1) as int] == ')');
            assert(s.subrange(xs as int, (xs + lx) as int) =~= tree_str(*x)) by {
                assert(forall|k: int|
                    0 <= k < lx ==> #[trigger] s.subrange(xs as int, (xs + lx) as int)[k]
                        == text.index(2 + opl + k));
            }
            // The opening parenthesis.
            assert(ws_end(s, start) == start);
            let tok1 = crate::lexer::TokenV {
                token_type: TokenTypeV::ParenLeft,
                start: start as int,
                end: start as int + 1,
            };
            assert(spec_next(s, start) == LexStep::Tok(tok1, start + 1));
            lemma_stream_step(s, start, tok1, start + 1);
            // The operator token.
            let p2 = (start + 1 + opl) as nat;
            let opk = match op {
                Operator::Plus => TokenTypeV::Plus,
                Operator::Minus => TokenTypeV::Minus,
                _ => TokenTypeV::Let,
            };
            let tok2 = crate::lexer::TokenV {
                token_type: opk,
                start: start as int + 1,
                end: p2 as int,
            };
            if op == Operator::Plus {
                assert(s[start as int + 1] == '+');
                assert(ws_end(s, start + 1) == start + 1);
                assert(!char_at_is(s, start + 2, '+'));
                assert(!char_at_is(s, start + 2, '='));
                assert(spec_next(s, start + 1) == LexStep::Tok(tok2, p2));
            } else if op == Operator::Minus {
                assert(s[start as int + 1] == '-');
                assert(ws_end(s, start + 1) == start + 1);
                assert(!char_at_is(s, start + 2, '-'));
                assert(!char_at_is(s, start + 2, '='));
                assert(spec_next(s, start + 1) == LexStep::Tok(tok2, p2));
            } else {
                lemma_let_word();
                assert(op_str(op) == "let"@);
                assert(s.subrange(start as int + 1, start as int + 4) =~= "let"@) by {
                    assert(forall|k: int|
                        0 <= k < 3 ==> #[trigger] s.subrange(start as int + 1, start as int + 4)[k]
                            == text.index(1 + k));
                    assert(forall|k: int| 0 <= k < 3 ==> text.index(1 + k) == "let"@[k]);
                }
                assert(s[(start + 4) as int] == ' ');
                assert(!lex_is_ident_char(' '));
                lemma_stream_word(s, start + 1, "let"@);
                assert(spec_next(s, start + 1) == LexStep::Tok(tok2, p2));
            }
            lemma_stream_step(s, start + 1, tok2, p2);
            // The space before the operand, then the operand itself.
            assert(lex_is_ws(s[p2 as int]));
            lemma_stream_ws_skip(s, p2);
            assert(p2 + 1 == xs);
            assert(s.subrange(xs as int, print_end(xs, *x) as int) == tree_str(*x));
            lemma_stream_of_print(s, xs, *x);
            assert(print_end(xs, *x) == j - 1);
            let items_x = choose|its: Seq<LexItem>|
                token_stream(s, xs) == its + token_stream(s, print_end(xs, *x)) && toks_are(
                    its,
                    tree_kinds(*x),
                );
            // The closing parenthesis.
            assert(ws_end(s, (j - 1) as nat) == j - 1);
            let tokr = crate::lexer::TokenV {
                token_type: TokenTypeV::ParenRight,
                start: j as int - 1,
                end: j as int,
            };
            assert(spec_next(s, (j - 1) as nat) == LexStep::Tok(tokr, j));
            lemma_stream_step(s, (j - 1) as nat, tokr, j);
            // Assemble the stream.
            let items = seq![
                Ok::<crate::lexer::TokenV, crate::lexer::LexerErrorV>(tok1),
                Ok::<crate::lexer::TokenV, crate::lexer::LexerErrorV>(tok2),
            ] + items_x + seq![Ok::<crate::lexer::TokenV, crate::lexer::LexerErrorV>(tokr)];
            assert(token_stream(s, start) =~= items + token_stream(s, j));
            assert(tree_kinds(t) == seq![TokenTypeV::ParenLeft, opk] + tree_kinds(*x) + seq![
                TokenTypeV::ParenRight,
            ]);
            assert(toks_are(items, tree_kinds(t)));
        },
        _ => {},
    }
}


/// Parsing the token kinds of a fragment tree, followed by a closing
/// parenthesis or nothing, rebuilds the tree and consumes exactly its
/// tokens, whatever the minimum binding power.
#[verifier::rlimit(100)]
#[verifier::spinoff_prover]
proof fn lemma_parse_fragment(t: TreeV, ts: Seq<LexItem>, rest: Seq<LexItem>, min_bp: nat)
    requires
        fragment(t),
        toks_are(ts, tree_kinds(t)),
        rest.len() == 0 || (rest[0] matches Ok(tok) && tok.token_type == TokenTypeV::ParenRight),
    ensures
        sp_expr(ts + rest, min_bp) == SpRes::Done(t, ts.len() as nat),
    decreases t,
{
    let u = ts + rest;
    match t {
        TreeV::Atomic(a) => {
            match a {
                AtomicV::Integer(_) | AtomicV::Boolean(_) | AtomicV::Identifier(_) => {
                    assert(ts.len() == 1);
                    assert(u[0] == ts[0]);
                    assert(atom_of_token(tree_kinds(t)[0]) == Some(a));
                    assert(sp_head(u) == SpRes::Done(t, 1nat));
                    assert(skip_n(u, 1) =~= rest);
                    assert(sp_loop(t, rest, min_bp) == SpRes::Done(t, 0nat));
                },
                AtomicV::Nil => {
                    assert(ts.len() == 2);
                    assert(u[0] == ts[0]);
                    assert(u[1] == ts[1]);
                    let v1 = skip_n(u, 1);
                    assert(v1 =~= seq![ts[1]] + rest);
                    assert(next_is(v1, TokenTypeV::ParenRight));
                    assert(sp_etp(v1, TokenTypeV::ParenRight) == SpRes::Done(t, 1nat));
                    assert(sp_head(u) == SpRes::Done(t, 2nat));
                    assert(skip_n(u, 2) =~= rest);
                    assert(sp_loop(t, skip_n(u, 2), min_bp) == SpRes::Done(t, 0nat));
                },
                _ => {},
            }
        },
        TreeV::Prefix(op, x) => {
            let kx = tree_kinds(*x);
            let lk = kx.len();
            assert(ts.len() == lk + 3);
            let items_x = ts.subrange(2, 2 + lk as int);
            assert(toks_are(items_x, kx)) by {
                assert(forall|i: int| 0 <= i < lk ==> #[trigger] items_x[i] == ts[2 + i]);
                assert(forall|i: int|
                    0 <= i < lk ==> #[trigger] tree_kinds(t)[2 + i] == kx[i]);
            }
            let rest2 = seq![ts[ts.len() - 1]] + rest;
            assert(tree_kinds(t)[ts.len() - 1] == TokenTypeV::ParenRight);
            assert(rest2[0] matches Ok(tok) && tok.token_type == TokenTypeV::ParenRight);
            let v1 = skip_n(u, 1);
            assert(u[0] == ts[0]);
            assert(tree_kinds(t)[0] == TokenTypeV::ParenLeft);
            assert(v1.len() == u.len() - 1);
            assert(v1[0] == ts[1]);
            let opk = tree_kinds(t)[1];
            assert(op_of_token(opk) is Some || opk == TokenTypeV::Let);
            assert(!next_is(v1, TokenTypeV::ParenRight));
            assert(skip_n(v1, 1) =~= items_x + rest2) by {
                assert(forall|i: int|
                    0 <= i < skip_n(v1, 1).len() ==> #[trigger] skip_n(v1, 1)[i] == u[2 + i]);
                assert(forall|i: int| 0 <= i < lk ==> #[trigger] (items_x + rest2)[i] == ts[2 + i]);
            }
            let bp: nat = if op == Operator::Let {
                0
            } else {
                5
            };
            lemma_parse_fragment(*x, items_x, rest2, bp);
            assert(sp_expr(skip_n(v1, 1), bp) == SpRes::Done(*x, lk as nat));
            assert(sp_head(v1) == SpRes::Done(t, (1 + lk) as nat)) by {
                assert(atom_of_token(opk) is None);
            }
            let after_x = skip_n(v1, 1 + lk as nat);
            assert(after_x =~= rest2) by {
                assert(forall|i: int|
                    0 <= i < after_x.len() ==> #[trigger] after_x[i] == u[2 + lk + i]);
            }
            assert(sp_loop(t, after_x, 0) == SpRes::Done(t, 0nat)) by {
                assert(op_of_token(TokenTypeV::ParenRight) is None);
            }
            assert(sp_expr(v1, 0) == SpRes::Done(t, (1 + lk) as nat));
            assert(sp_expect(after_x, TokenTypeV::ParenRight) is Ok);
            assert(sp_etp(v1, TokenTypeV::ParenRight) == SpRes::Done(t, (lk + 2) as nat));
            assert(sp_head(u) == SpRes::Done(t, (lk + 3) as nat));
            let after_all = skip_n(u, (lk + 3) as nat);
            assert(after_all =~= rest);
            assert(sp_loop(t, after_all, min_bp) == SpRes::Done(t, 0nat));
            assert(sp_expr(u, min_bp) == SpRes::Done(t, ts.len() as nat));
        },
        _ => {},
    }
}

/// Idempotence of the canonical form: re-parsing the printed form of any
/// tree in the printer/grammar agreement fragment — non-negative integer,
/// boolean, identifier and nil leaves under prefix `+`, `-` and `let`
/// nodes — reproduces a structurally equal tree, consuming the whole
/// printed text.
pub proof fn lemma_print_parse_round_trip(t: TreeV)
    requires
        fragment(t),
    ensures
        spec_parse(tree_str(t)) == SpRes::Done(t, token_stream(tree_str(t), 0).len() as nat),
{
    let s = tree_str(t);
    assert(s.subrange(0, s.len() as int) =~= s);
    lemma_stream_of_print(s, 0, t);
    let items = choose|its: Seq<LexItem>|
        token_stream(s, 0) == its + token_stream(s, print_end(0, t)) && toks_are(
            its,
            tree_kinds(t),
        );
    assert(ws_end(s, s.len() as nat) == s.len());
    assert(token_stream(s, s.len() as nat) =~= Seq::<LexItem>::empty());
    assert(token_stream(s, 0) =~= items);
    lemma_parse_fragment(t, items, Seq::empty(), 0);
    assert(items + Seq::<LexItem>::empty() =~= items);
}

} // verus!
