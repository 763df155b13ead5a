//! Canonical printed form of trees, operators and values.
//!
//! A composite node prints as a parenthesized prefix form, `(+ 1 (* 2 3))`;
//! a conditional as `(if c : p ? n)` with the `? n` part only when an
//! `else` branch exists; a loop as `(while c : b`. The specification
//! functions [`tree_str`], [`op_str`] and [`atom_str`] fix every
//! character of the output.

use vstd::prelude::*;
use vstd::string::*;

use crate::float::{f32_dec_str, float_to_dec_str};
use crate::parse::{Atomic, AtomicV, Operator, TokenTree, TreeV};

verus! {

/// The spelling of each operator.
pub open spec fn op_str(op: Operator) -> Seq<char> {
    match op {
        Operator::Minus => "-"@,
        Operator::Plus => "+"@,
        Operator::Star => "*"@,
        Operator::Bang => "!"@,
        Operator::Let => "let"@,
        Operator::Assign => "="@,
        Operator::Slash => "/"@,
        Operator::Greater => ">"@,
        Operator::GreaterOrEqual => ">="@,
        Operator::Less => "<"@,
        Operator::LessOrEqual => "<="@,
        Operator::EqualEqual => "=="@,
        Operator::NotEqual => "!="@,
        Operator::And => "&&"@,
        Operator::Or => "||"@,
    }
}

/// The digit character for a value below ten.
pub open spec fn digit_char(d: nat) -> char {
    ((0x30 + d) as u8) as char
}

/// The decimal digits of a non-negative number, most significant first.
pub open spec fn dec_digits(n: nat) -> Seq<char>
    decreases n,
{
    if n < 10 {
        seq![digit_char(n)]
    } else {
        dec_digits(n / 10).push(digit_char(n % 10))
    }
}

/// The decimal rendering of an integer, with a leading minus sign when
/// negative.
pub open spec fn int_str(n: int) -> Seq<char> {
    if n < 0 {
        seq!['-'] + dec_digits((-n) as nat)
    } else {
        dec_digits(n as nat)
    }
}

/// The printed form of a leaf: numbers in decimal, strings and
/// identifiers as their characters, booleans as words, nil as `()`.
pub open spec fn atom_str(a: AtomicV) -> Seq<char> {
    match a {
        AtomicV::Float(b) => f32_dec_str(b),
        AtomicV::String(s) => s,
        AtomicV::Integer(n) => int_str(n as int),
        AtomicV::Nil => "()"@,
        AtomicV::Identifier(s) => s,
        AtomicV::Boolean(b) => if b {
            "true"@
        } else {
            "false"@
        },
    }
}

/// The canonical printed form of a tree.
pub open spec fn tree_str(t: TreeV) -> Seq<char>
    decreases t,
{
    match t {
        TreeV::Atomic(a) => atom_str(a),
        TreeV::Infix(op, l, r) => "("@ + op_str(op) + " "@ + tree_str(*l) + " "@ + tree_str(*r)
            + ")"@,
        TreeV::Postfix(op, x) => "("@ + op_str(op) + " "@ + tree_str(*x) + ")"@,
        TreeV::Prefix(op, x) => "("@ + op_str(op) + " "@ + tree_str(*x) + ")"@,
        TreeV::If { condition, positive, negative } => "(if "@ + tree_str(*condition) + " : "@
            + tree_str(*positive) + (match negative {
            Some(n) => " ? "@ + tree_str(*n),
            None => Seq::empty(),
        }) + ")"@,
        TreeV::While { condition, body } => "(while "@ + tree_str(*condition) + " : "@ + tree_str(
            *body,
        ),
    }
}

/// Relies on `String: FromIterator<char>` (through `collect`): the string
/// holding exactly the given characters in order.
#[verifier::external_body]
fn chars_to_string(v: &Vec<char>) -> (s: String)
    ensures
        s@ == v@,
{
    v.iter().collect()
}

/// Appends a borrowed string's characters.
fn push_str_chars(out: &mut Vec<char>, s: &str)
    ensures
        final(out)@ == old(out)@ + s@,
{
    let n = s.unicode_len();
    let mut i: usize = 0;
    loop
        invariant
            n == s@.len(),
            0 <= i <= n,
            out@ == old(out)@ + s@.take(i as int),
        ensures
            i == n,
        decreases n - i,
    {
        if i >= n {
            break ;
        }
        let c = s.get_char(i);
        out.push(c);
        proof {
            assert(old(out)@ + s@.take(i as int) + seq![s@[i as int]] =~= old(out)@ + s@.take(
                i + 1,
            ));
        }
        i = i + 1;
    }
    proof {
        assert(old(out)@ + s@.take(n as int) =~= old(out)@ + s@);
    }
}

/// Appends the decimal digits of a non-negative number.
fn push_digits(out: &mut Vec<char>, n: u32)
    ensures
        final(out)@ == old(out)@ + dec_digits(n as nat),
    decreases n,
{
    if n < 10 {
        out.push((0x30 + n as u8 as u32) as u8 as char);
        proof {
            assert(old(out)@.push(digit_char(n as nat)) =~= old(out)@ + dec_digits(n as nat));
        }
    } else {
        push_digits(out, n / 10);
        out.push((0x30 + (n % 10) as u8 as u32) as u8 as char);
        proof {
            assert(old(out)@ + dec_digits((n / 10) as nat) + seq![digit_char((n % 10) as nat)]
                =~= old(out)@ + dec_digits(n as nat));
        }
    }
}

/// Appends the printed form of a leaf.
fn push_atom(out: &mut Vec<char>, a: &Atomic)
    ensures
        final(out)@ == old(out)@ + atom_str(a@),
{
    match a {
        Atomic::Float(b) => {
            let s = float_to_dec_str(*b);
            push_str_chars(out, s.as_str());
        },
        Atomic::String(s) => {
            push_str_chars(out, s.as_str());
        },
        Atomic::Integer(n) => {
            if *n < 0 {
                out.push('-');
                let m: u32 = if *n == i32::MIN {
                    0x8000_0000
                } else {
                    (0 - *n) as u32
                };
                push_digits(out, m);
                proof {
                    assert(old(out)@.push('-') + dec_digits(m as nat) =~= old(out)@ + atom_str(
                        a@,
                    ));
                }
            } else {
                push_digits(out, *n as u32);
            }
        },
        Atomic::Nil => {
            push_str_chars(out, "()");
        },
        Atomic::Identifier(s) => {
            push_str_chars(out, s.as_str());
        },
        Atomic::Boolean(b) => {
            if *b {
                push_str_chars(out, "true");
            } else {
                push_str_chars(out, "false");
            }
        },
    }
}

/// Appends the spelling of an operator.
fn push_op(out: &mut Vec<char>, op: &Operator)
    ensures
        final(out)@ == old(out)@ + op_str(*op),
{
    match op {
        Operator::Minus => push_str_chars(out, "-"),
        Operator::Plus => push_str_chars(out, "+"),
        Operator::Star => push_str_chars(out, "*"),
        Operator::Bang => push_str_chars(out, "!"),
        Operator::Let => push_str_chars(out, "let"),
        Operator::Assign => push_str_chars(out, "="),
        Operator::Slash => push_str_chars(out, "/"),
        Operator::Greater => push_str_chars(out, ">"),
        Operator::GreaterOrEqual => push_str_chars(out, ">="),
        Operator::Less => push_str_chars(out, "<"),
        Operator::LessOrEqual => push_str_chars(out, "<="),
        Operator::EqualEqual => push_str_chars(out, "=="),
        Operator::NotEqual => push_str_chars(out, "!="),
        Operator::And => push_str_chars(out, "&&"),
        Operator::Or => push_str_chars(out, "||"),
    }
}

/// Appends the canonical printed form of a tree.
fn push_tree(out: &mut Vec<char>, t: &TokenTree)
    ensures
        final(out)@ == old(out)@ + tree_str(t@),
    decreases t,
{
    match t {
        TokenTree::Atomic(a) => {
            push_atom(out, a);
        },
        TokenTree::InfixExpression(op, l, r) => {
            push_str_chars(out, "(");
            push_op(out, op);
            push_str_chars(out, " ");
            push_tree(out, l);
            push_str_chars(out, " ");
            push_tree(out, r);
            push_str_chars(out, ")");
            proof {
                assert(out@ =~= old(out)@ + tree_str(t@));
            }
        },
        TokenTree::PostfixExpression(op, x) => {
            push_str_chars(out, "(");
            push_op(out, op);
            push_str_chars(out, " ");
            push_tree(out, x);
            push_str_chars(out, ")");
            proof {
                assert(out@ =~= old(out)@ + tree_str(t@));
            }
        },
        TokenTree::PrefixExpression(op, x) => {
            push_str_chars(out, "(");
            push_op(out, op);
            push_str_chars(out, " ");
            push_tree(out, x);
            push_str_chars(out, ")");
            proof {
                assert(out@ =~= old(out)@ + tree_str(t@));
            }
        },
        TokenTree::If { condition, positive, negative } => {
            push_str_chars(out, "(if ");
            push_tree(out, condition);
            push_str_chars(out, " : ");
            push_tree(out, positive);
            match negative {
                Some(n) => {
                    push_str_chars(out, " ? ");
                    push_tree(out, n);
                },
                None => {},
            }
            push_str_chars(out, ")");
            proof {
                assert(out@ =~= old(out)@ + tree_str(t@));
            }
        },
        TokenTree::While { condition, body } => {
            push_str_chars(out, "(while ");
            push_tree(out, condition);
            push_str_chars(out, " : ");
            push_tree(out, body);
            proof {
                assert(out@ =~= old(out)@ + tree_str(t@));
            }
        },
    }
}

impl TokenTree {
    /// The canonical printed form.
    pub fn to_string(&self) -> (s: String)
        ensures
            s@ == tree_str(self@),
    {
        let mut out: Vec<char> = Vec::new();
        push_tree(&mut out, self);
        proof {
            assert(Seq::<char>::empty() + tree_str(self@) =~= tree_str(self@));
        }
        chars_to_string(&out)
    }
}

impl Operator {
    /// The operator's spelling.
    pub fn to_string(&self) -> (s: String)
        ensures
            s@ == op_str(*self),
    {
        let mut out: Vec<char> = Vec::new();
        push_op(&mut out, self);
        proof {
            assert(Seq::<char>::empty() + op_str(*self) =~= op_str(*self));
        }
        chars_to_string(&out)
    }
}

impl Atomic {
    /// The value's printed form.
    pub fn to_string(&self) -> (s: String)
        ensures
            s@ == atom_str(self@),
    {
        let mut out: Vec<char> = Vec::new();
        push_atom(&mut out, self);
        proof {
            assert(Seq::<char>::empty() + atom_str(self@) =~= atom_str(self@));
        }
        chars_to_string(&out)
    }
}

} // verus!
