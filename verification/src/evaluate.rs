//! Tree-walking evaluator.
//!
//! `Evaluator` owns the variable table of one session and walks an
//! expression tree, dispatching on node kind and operator. Its behaviour
//! is pinned down by the fuel-indexed specification function
//! [`eval_fuel`]: a call that returns did what some fuel bound of that
//! function describes. `and`/`or` evaluate both operands (no
//! short-circuit, a recorded design choice); `=` stores into the table and
//! returns the stored value; `let` evaluates its operand and returns it,
//! creating no scope of its own.
//!
//! A `while` whose condition stays true never finishes of itself; the
//! walker counts its iterations and gives up with [`EvalErr::StepLimit`]
//! only after 2^64 - 1 of them, a bound no real machine reaches. That
//! error has no other source: a tree without a `while` node never sees
//! it, and where it is reported, no fuel bound up to `u64::MAX` makes
//! [`eval_fuel`] finish — so on every tree a machine can actually
//! evaluate, the contract pins the exact result and table.

use vstd::prelude::*;

use crate::float::f32_neg;
use crate::operations::{
    add_together, and_together, div_together, equal_with_together, factor,
    greater_than_together, greaterequal_than_together, less_than_together,
    lessequal_than_together, mul_together, notequal_with_together, or_together, res_view,
    spec_add, spec_and, spec_div, spec_eq, spec_factor, spec_ge, spec_gt, spec_le, spec_lt,
    spec_mul, spec_neq, spec_or, spec_sub, sub_together,
};
use crate::parse::{Atomic, AtomicV, Operator, TokenTree, TreeV};

verus! {

/// The evaluation errors: an identifier with no stored value, an operator
/// applied to operands of the wrong types, integer division by zero, the
/// factorial of a negative integer, and the iteration guard of a `while`
/// that never ends.
#[derive(Clone, Copy, Debug, PartialEq, Eq, Structural)]
pub enum EvalErr {
    UndefinedVariable,
    TypeMismatch,
    DivisionByZero,
    DomainError,
    StepLimit,
}

/// The mathematical state of a session: what value each name holds.
pub type EnvV = Map<Seq<char>, AtomicV>;

/// Infix dispatch per operator on two evaluated operands.
pub open spec fn apply_infix(op: Operator, lhs: AtomicV, rhs: AtomicV) -> Result<
    AtomicV,
    EvalErr,
> {
    match op {
        Operator::Plus => spec_add(lhs, rhs),
        Operator::Minus => spec_sub(lhs, rhs),
        Operator::Star => spec_mul(lhs, rhs),
        Operator::Slash => spec_div(lhs, rhs),
        Operator::Less => spec_lt(lhs, rhs),
        Operator::LessOrEqual => spec_le(lhs, rhs),
        Operator::Greater => spec_gt(lhs, rhs),
        Operator::GreaterOrEqual => spec_ge(lhs, rhs),
        Operator::EqualEqual => spec_eq(lhs, rhs),
        Operator::NotEqual => spec_neq(lhs, rhs),
        Operator::And => spec_and(lhs, rhs),
        Operator::Or => spec_or(lhs, rhs),
        _ => Err(EvalErr::TypeMismatch),
    }
}

/// Prefix dispatch: unary `+` is a no-op, unary `-` negates a number,
/// `let` returns its operand's value.
pub open spec fn apply_prefix(op: Operator, v: AtomicV) -> Result<AtomicV, EvalErr> {
    match op {
        Operator::Plus => Ok(v),
        Operator::Minus => match v {
            AtomicV::Float(b) => Ok(AtomicV::Float(f32_neg(b))),
            AtomicV::Integer(n) => Ok(
                AtomicV::Integer(vstd::wrapping::i32_specs::wrapping_sub(0, n)),
            ),
            _ => Err(EvalErr::TypeMismatch),
        },
        Operator::Let => Ok(v),
        _ => Err(EvalErr::TypeMismatch),
    }
}

/// Postfix dispatch: `!` is the factorial.
pub open spec fn apply_postfix(op: Operator, v: AtomicV) -> Result<AtomicV, EvalErr> {
    match op {
        Operator::Bang => spec_factor(v),
        _ => Err(EvalErr::TypeMismatch),
    }
}

/// What evaluating `t` in state `env` yields within `fuel` recursion and
/// iteration steps: `None` when the fuel runs out first, otherwise the
/// result (or error) and the state after. Operands are evaluated eagerly,
/// left before right, each seeing the state the previous one left.
pub open spec fn eval_fuel(t: TreeV, env: EnvV, fuel: nat) -> Option<
    (Result<AtomicV, EvalErr>, EnvV),
>
    decreases fuel,
{
    if fuel == 0 {
        None
    } else {
        let f = (fuel - 1) as nat;
        match t {
            TreeV::Atomic(a) => match a {
                AtomicV::Identifier(name) => if env.contains_key(name) {
                    Some((Ok(env[name]), env))
                } else {
                    Some((Err(EvalErr::UndefinedVariable), env))
                },
                _ => Some((Ok(a), env)),
            },
            TreeV::Infix(op, l, r) => {
                if op == Operator::Assign {
                    match *l {
                        TreeV::Atomic(AtomicV::Identifier(name)) => match eval_fuel(*r, env, f) {
                            None => None,
                            Some((Err(e), env1)) => Some((Err(e), env1)),
                            Some((Ok(v), env1)) => Some((Ok(v), env1.insert(name, v))),
                        },
                        _ => Some((Err(EvalErr::TypeMismatch), env)),
                    }
                } else {
                    match eval_fuel(*l, env, f) {
                        None => None,
                        Some((Err(e), env1)) => Some((Err(e), env1)),
                        Some((Ok(lv), env1)) => match eval_fuel(*r, env1, f) {
                            None => None,
                            Some((Err(e), env2)) => Some((Err(e), env2)),
                            Some((Ok(rv), env2)) => Some((apply_infix(op, lv, rv), env2)),
                        },
                    }
                }
            },
            TreeV::Prefix(op, x) => match eval_fuel(*x, env, f) {
                None => None,
                Some((Err(e), env1)) => Some((Err(e), env1)),
                Some((Ok(v), env1)) => Some((apply_prefix(op, v), env1)),
            },
            TreeV::Postfix(op, x) => match eval_fuel(*x, env, f) {
                None => None,
                Some((Err(e), env1)) => Some((Err(e), env1)),
                Some((Ok(v), env1)) => Some((apply_postfix(op, v), env1)),
            },
            TreeV::If { condition, positive, negative } => match eval_fuel(*condition, env, f) {
                None => None,
                Some((Err(e), env1)) => Some((Err(e), env1)),
                Some((Ok(cv), env1)) => match cv {
                    AtomicV::Boolean(true) => eval_fuel(*positive, env1, f),
                    AtomicV::Boolean(false) => match negative {
                        Some(n) => eval_fuel(*n, env1, f),
                        None => Some((Ok(AtomicV::Nil), env1)),
                    },
                    _ => Some((Err(EvalErr::TypeMismatch), env1)),
                },
            },
            TreeV::While { condition, body } => match eval_fuel(*condition, env, f) {
                None => None,
                Some((Err(e), env1)) => Some((Err(e), env1)),
                Some((Ok(cv), env1)) => match cv {
                    AtomicV::Boolean(true) => match eval_fuel(*body, env1, f) {
                        None => None,
                        Some((Err(e), env2)) => Some((Err(e), env2)),
                        Some((Ok(_), env2)) => eval_fuel(t, env2, f),
                    },
                    AtomicV::Boolean(false) => Some((Ok(AtomicV::Nil), env1)),
                    _ => Some((Err(EvalErr::TypeMismatch), env1)),
                },
            },
        }
    }
}

/// More fuel never changes an outcome that was already reached.
pub proof fn lemma_eval_fuel_mono(t: TreeV, env: EnvV, f1: nat, f2: nat)
    requires
        f1 <= f2,
        eval_fuel(t, env, f1) is Some,
    ensures
        eval_fuel(t, env, f2) == eval_fuel(t, env, f1),
    decreases f1,
{
    if f1 == 0 {
    } else {
        let g1 = (f1 - 1) as nat;
        let g2 = (f2 - 1) as nat;
        match t {
            TreeV::Atomic(_) => {},
            TreeV::Infix(op, l, r) => {
                if op == Operator::Assign {
                    match *l {
                        TreeV::Atomic(AtomicV::Identifier(_)) => {
                            if eval_fuel(*r, env, g1) is Some {
                                lemma_eval_fuel_mono(*r, env, g1, g2);
                            }
                        },
                        _ => {},
                    }
                } else {
                    if eval_fuel(*l, env, g1) is Some {
                        lemma_eval_fuel_mono(*l, env, g1, g2);
                        match eval_fuel(*l, env, g1) {
                            Some((Ok(_), env1)) => {
                                if eval_fuel(*r, env1, g1) is Some {
                                    lemma_eval_fuel_mono(*r, env1, g1, g2);
                                }
                            },
                            _ => {},
                        }
                    }
                }
            },
            TreeV::Prefix(_, x) => {
                if eval_fuel(*x, env, g1) is Some {
                    lemma_eval_fuel_mono(*x, env, g1, g2);
                }
            },
            TreeV::Postfix(_, x) => {
                if eval_fuel(*x, env, g1) is Some {
                    lemma_eval_fuel_mono(*x, env, g1, g2);
                }
            },
            TreeV::If { condition, positive, negative } => {
                if eval_fuel(*condition, env, g1) is Some {
                    lemma_eval_fuel_mono(*condition, env, g1, g2);
                    match eval_fuel(*condition, env, g1) {
                        Some((Ok(cv), env1)) => match cv {
                            AtomicV::Boolean(true) => {
                                if eval_fuel(*positive, env1, g1) is Some {
                                    lemma_eval_fuel_mono(*positive, env1, g1, g2);
                                }
                            },
                            AtomicV::Boolean(false) => match negative {
                                Some(n) => {
                                    if eval_fuel(*n, env1, g1) is Some {
                                        lemma_eval_fuel_mono(*n, env1, g1, g2);
                                    }
                                },
                                None => {},
                            },
                            _ => {},
                        },
                        _ => {},
                    }
                }
            },
            TreeV::While { condition, body } => {
                if eval_fuel(*condition, env, g1) is Some {
                    lemma_eval_fuel_mono(*condition, env, g1, g2);
                    match eval_fuel(*condition, env, g1) {
                        Some((Ok(AtomicV::Boolean(true)), env1)) => {
                            if eval_fuel(*body, env1, g1) is Some {
                                lemma_eval_fuel_mono(*body, env1, g1, g2);
                                match eval_fuel(*body, env1, g1) {
                                    Some((Ok(_), env2)) => {
                                        if eval_fuel(t, env2, g1) is Some {
                                            lemma_eval_fuel_mono(t, env2, g1, g2);
                                        }
                                    },
                                    _ => {},
                                }
                            }
                        },
                        _ => {},
                    }
                }
            },
        }
    }
}


// ---------------------------------------------------------------------------
// Laws of assignment, lookup and control flow
// ---------------------------------------------------------------------------
/// Looking up an identifier that no assignment has touched is an
/// `UndefinedVariable` error, and the state is left as it was.
pub proof fn lemma_undefined_identifier(name: Seq<char>, env: EnvV)
    requires
        !env.contains_key(name),
    ensures
        eval_fuel(TreeV::Atomic(AtomicV::Identifier(name)), env, 1) == Some(
            (Err::<AtomicV, EvalErr>(EvalErr::UndefinedVariable), env),
        ),
{
}

/// After a value is stored under a name, the name evaluates to exactly
/// that value, whatever was stored before.
pub proof fn lemma_lookup_after_store(name: Seq<char>, v: AtomicV, env: EnvV)
    ensures
        eval_fuel(TreeV::Atomic(AtomicV::Identifier(name)), env.insert(name, v), 1) == Some(
            (Ok::<AtomicV, EvalErr>(v), env.insert(name, v)),
        ),
{
}

/// Assignment stores the right side's value under the name and returns
/// the stored value; `let` around it changes nothing of the result.
pub proof fn lemma_assign_stores(name: Seq<char>, rhs: TreeV, env: EnvV, f: nat, v: AtomicV, env1: EnvV)
    requires
        eval_fuel(rhs, env, f) == Some((Ok::<AtomicV, EvalErr>(v), env1)),
    ensures
        eval_fuel(
            TreeV::Infix(
                Operator::Assign,
                Box::new(TreeV::Atomic(AtomicV::Identifier(name))),
                Box::new(rhs),
            ),
            env,
            f + 1,
        ) == Some((Ok::<AtomicV, EvalErr>(v), env1.insert(name, v))),
        eval_fuel(
            TreeV::Prefix(
                Operator::Let,
                Box::new(
                    TreeV::Infix(
                        Operator::Assign,
                        Box::new(TreeV::Atomic(AtomicV::Identifier(name))),
                        Box::new(rhs),
                    ),
                ),
            ),
            env,
            f + 2,
        ) == Some((Ok::<AtomicV, EvalErr>(v), env1.insert(name, v))),
{
    lemma_eval_fuel_mono(rhs, env, f, f + 1);
}

/// A conditional on a literal boolean takes the matching branch: the
/// positive branch on `true`, the negative branch on `false`, and `Nil`
/// when `false` finds no negative branch.
pub proof fn lemma_if_literal(cond: bool, p: TreeV, n: Option<Box<TreeV>>, env: EnvV, f: nat)
    requires
        f >= 1,
    ensures
        cond ==> eval_fuel(
            TreeV::If {
                condition: Box::new(TreeV::Atomic(AtomicV::Boolean(cond))),
                positive: Box::new(p),
                negative: n,
            },
            env,
            f + 1,
        ) == eval_fuel(p, env, f),
        !cond && n is Some ==> eval_fuel(
            TreeV::If {
                condition: Box::new(TreeV::Atomic(AtomicV::Boolean(cond))),
                positive: Box::new(p),
                negative: n,
            },
            env,
            f + 1,
        ) == eval_fuel(*n.unwrap(), env, f),
        !cond && n is None ==> eval_fuel(
            TreeV::If {
                condition: Box::new(TreeV::Atomic(AtomicV::Boolean(cond))),
                positive: Box::new(p),
                negative: n,
            },
            env,
            f + 1,
        ) == Some((Ok::<AtomicV, EvalErr>(AtomicV::Nil), env)),
{
    assert(eval_fuel(TreeV::Atomic(AtomicV::Boolean(cond)), env, f) == Some(
        (Ok::<AtomicV, EvalErr>(AtomicV::Boolean(cond)), env),
    ));
}

/// Whether a tree holds a `while` node anywhere: only such trees can run
/// long enough to trip the iteration guard.
pub open spec fn has_while(t: TreeV) -> bool
    decreases t,
{
    match t {
        TreeV::Atomic(_) => false,
        TreeV::Infix(_, l, r) => has_while(*l) || has_while(*r),
        TreeV::Prefix(_, x) => has_while(*x),
        TreeV::Postfix(_, x) => has_while(*x),
        TreeV::If { condition, positive, negative } => has_while(*condition) || has_while(
            *positive,
        ) || (negative matches Some(n) && has_while(*n)),
        TreeV::While { .. } => true,
    }
}

/// Two fuel bounds that both suffice agree on the outcome.
pub proof fn lemma_eval_fuel_agree(t: TreeV, env: EnvV, f1: nat, f2: nat)
    requires
        eval_fuel(t, env, f1) is Some,
        eval_fuel(t, env, f2) is Some,
    ensures
        eval_fuel(t, env, f1) == eval_fuel(t, env, f2),
{
    if f1 <= f2 {
        lemma_eval_fuel_mono(t, env, f1, f2);
    } else {
        lemma_eval_fuel_mono(t, env, f2, f1);
    }
}

/// Operator dispatch never produces the iteration guard's error: that
/// error has no source but the guard itself.
proof fn lemma_apply_no_limit(op: Operator, l: AtomicV, r: AtomicV, v: AtomicV)
    ensures
        apply_infix(op, l, r) != Err::<AtomicV, EvalErr>(EvalErr::StepLimit),
        apply_prefix(op, v) != Err::<AtomicV, EvalErr>(EvalErr::StepLimit),
        apply_postfix(op, v) != Err::<AtomicV, EvalErr>(EvalErr::StepLimit),
        spec_factor(v) != Err::<AtomicV, EvalErr>(EvalErr::StepLimit),
{
}

/// A loop whose condition cannot be evaluated within some budget cannot
/// be evaluated within it either.
proof fn lemma_while_cond_none(w: TreeV, cond: TreeV, body: TreeV, env: EnvV, bound: nat)
    requires
        w == (TreeV::While { condition: Box::new(cond), body: Box::new(body) }),
        forall|f: nat| f <= bound ==> #[trigger] eval_fuel(cond, env, f) is None,
    ensures
        forall|f: nat| f <= bound ==> #[trigger] eval_fuel(w, env, f) is None,
{
    assert forall|f: nat| f <= bound implies #[trigger] eval_fuel(w, env, f) is None by {
        if f > 0 {
            assert(eval_fuel(cond, env, (f - 1) as nat) is None);
        }
    }
}

/// Likewise when the condition comes out true but the body cannot finish
/// within the budget.
proof fn lemma_while_body_none(
    w: TreeV,
    cond: TreeV,
    body: TreeV,
    env: EnvV,
    envc: EnvV,
    f1: nat,
    bound: nat,
)
    requires
        w == (TreeV::While { condition: Box::new(cond), body: Box::new(body) }),
        eval_fuel(cond, env, f1) == Some(
            (Ok::<AtomicV, EvalErr>(AtomicV::Boolean(true)), envc),
        ),
        forall|f: nat| f <= bound ==> #[trigger] eval_fuel(body, envc, f) is None,
    ensures
        forall|f: nat| f <= bound ==> #[trigger] eval_fuel(w, env, f) is None,
{
    assert forall|f: nat| f <= bound implies #[trigger] eval_fuel(w, env, f) is None by {
        if f > 0 {
            let g = (f - 1) as nat;
            if eval_fuel(cond, env, g) is Some {
                lemma_eval_fuel_agree(cond, env, g, f1);
                assert(eval_fuel(body, envc, g) is None);
            }
        }
    }
}

/// The loop guard's fuel accounting, relative to the state the loop
/// started from: any successful evaluation of the whole loop from the
/// starting state needs more fuel than the iterations already completed,
/// and agrees with evaluation from the current state on the rest. Kept
/// opaque so that it meets the loop's other invariant only inside the
/// small lemmas below.
#[verifier::opaque]
spec fn fuel_lower(w: TreeV, env0: EnvV, cur: EnvV, steps: nat) -> bool {
    forall|f: nat| #[trigger]
        eval_fuel(w, env0, f) is Some ==> f > steps && eval_fuel(w, env0, f) == eval_fuel(
            w,
            cur,
            (f - steps) as nat,
        )
}

/// The accounting holds trivially before the first iteration.
proof fn lemma_fuel_lower_init(w: TreeV, env: EnvV)
    ensures
        fuel_lower(w, env, env, 0),
{
    reveal(fuel_lower);
    assert forall|f: nat| #[trigger] eval_fuel(w, env, f) is Some implies f > 0 && eval_fuel(
        w,
        env,
        f,
    ) == eval_fuel(w, env, (f - 0) as nat) by {
        if f == 0 {
            assert(eval_fuel(w, env, 0) is None);
        }
    }
}

/// When the loop cannot finish from the current state within the budget,
/// it cannot finish from the starting state within it either.
proof fn lemma_fuel_lower_none(w: TreeV, env0: EnvV, cur: EnvV, steps: nat, bound: nat)
    requires
        fuel_lower(w, env0, cur, steps),
        forall|f: nat| f <= bound ==> #[trigger] eval_fuel(w, cur, f) is None,
    ensures
        forall|f: nat| f <= bound ==> #[trigger] eval_fuel(w, env0, f) is None,
{
    reveal(fuel_lower);
    assert forall|f: nat| f <= bound implies #[trigger] eval_fuel(w, env0, f) is None by {
        if eval_fuel(w, env0, f) is Some {
            assert(eval_fuel(w, cur, (f - steps) as nat) is Some);
        }
    }
}

/// Once the completed iterations reach the budget, no evaluation within
/// the budget can have finished.
proof fn lemma_fuel_lower_exhausted(w: TreeV, env0: EnvV, cur: EnvV, steps: nat, bound: nat)
    requires
        fuel_lower(w, env0, cur, steps),
        steps >= bound,
    ensures
        forall|f: nat| f <= bound ==> #[trigger] eval_fuel(w, env0, f) is None,
{
    reveal(fuel_lower);
    assert forall|f: nat| f <= bound implies #[trigger] eval_fuel(w, env0, f) is None by {
        if eval_fuel(w, env0, f) is Some {
            assert(f > steps);
        }
    }
}

/// One completed iteration — condition true, body done — moves the
/// accounting one step forward.
proof fn lemma_fuel_lower_step(
    w: TreeV,
    cond: TreeV,
    body: TreeV,
    env0: EnvV,
    env_i: EnvV,
    env_c: EnvV,
    env_b: EnvV,
    steps: nat,
    f1: nat,
    f2: nat,
    v: AtomicV,
)
    requires
        w == (TreeV::While { condition: Box::new(cond), body: Box::new(body) }),
        fuel_lower(w, env0, env_i, steps),
        eval_fuel(cond, env_i, f1) == Some(
            (Ok::<AtomicV, EvalErr>(AtomicV::Boolean(true)), env_c),
        ),
        eval_fuel(body, env_c, f2) == Some((Ok::<AtomicV, EvalErr>(v), env_b)),
    ensures
        fuel_lower(w, env0, env_b, steps + 1),
{
    reveal(fuel_lower);
    assert forall|f: nat| #[trigger] eval_fuel(w, env0, f) is Some implies f > steps + 1
        && eval_fuel(w, env0, f) == eval_fuel(w, env_b, (f - (steps + 1)) as nat) by {
        let g = (f - steps) as nat;
        assert(eval_fuel(w, env_i, g) is Some);
        assert(g >= 1);
        assert(eval_fuel(cond, env_i, (g - 1) as nat) is Some);
        lemma_eval_fuel_agree(cond, env_i, (g - 1) as nat, f1);
        assert(eval_fuel(body, env_c, (g - 1) as nat) is Some);
        lemma_eval_fuel_agree(body, env_c, (g - 1) as nat, f2);
        assert(eval_fuel(w, env_i, g) == eval_fuel(w, env_b, (g - 1) as nat));
        assert(g >= 2);
    }
}


/// One session: the variable table, owned by this evaluator alone.
pub struct Evaluator {
    table: Vec<(String, Atomic)>,
}

/// The map an association list denotes; a later entry for a name wins.
pub open spec fn assoc_view(s: Seq<(String, Atomic)>) -> EnvV
    decreases s.len(),
{
    if s.len() == 0 {
        Map::empty()
    } else {
        assoc_view(s.drop_last()).insert(s.last().0@, s.last().1@)
    }
}

/// The last entry for a name decides both membership and value.
proof fn lemma_assoc_lookup(s: Seq<(String, Atomic)>, name: Seq<char>)
    ensures
        assoc_view(s).contains_key(name) <==> exists|i: int|
            0 <= i < s.len() && #[trigger] s[i].0@ == name,
        forall|i: int|
            0 <= i < s.len() && #[trigger] s[i].0@ == name && (forall|j: int|
                i < j < s.len() ==> #[trigger] s[j].0@ != name) ==> assoc_view(s)[name]
                == s[i].1@,
    decreases s.len(),
{
    if s.len() > 0 {
        lemma_assoc_lookup(s.drop_last(), name);
        assert forall|i: int|
            0 <= i < s.len() && #[trigger] s[i].0@ == name && (forall|j: int|
                i < j < s.len() ==> #[trigger] s[j].0@ != name) implies assoc_view(s)[name]
            == s[i].1@ by {
            if i == s.len() - 1 {
            } else {
                assert(s.drop_last()[i] == s[i]);
                assert(s[s.len() - 1].0@ != name);
            }
        }
        if exists|i: int| 0 <= i < s.len() && #[trigger] s[i].0@ == name {
            let i = choose|i: int| 0 <= i < s.len() && #[trigger] s[i].0@ == name;
            if i < s.len() - 1 {
                assert(s.drop_last()[i] == s[i]);
            }
        }
    }
}

impl View for Evaluator {
    type V = EnvV;

    closed spec fn view(&self) -> EnvV {
        assoc_view(self.table@)
    }
}

impl Evaluator {
    /// A fresh session with an empty variable table.
    pub fn new() -> (r: Evaluator)
        ensures
            r@ == Map::<Seq<char>, AtomicV>::empty(),
    {
        let e = Evaluator { table: Vec::new() };
        proof {
            assert(e@ =~= Map::<Seq<char>, AtomicV>::empty());
        }
        e
    }

    /// The value last stored under `name`, if any.
    fn lookup(&self, name: &String) -> (r: Option<Atomic>)
        ensures
            match r {
                Some(v) => self@.contains_key(name@) && v@ == self@[name@],
                None => !self@.contains_key(name@),
            },
    {
        let n = self.table.len();
        let mut i: usize = n;
        loop
            invariant
                0 <= i <= n,
                n == self.table@.len(),
                forall|j: int| i <= j < n ==> #[trigger] self.table@[j].0@ != name@,
            ensures
                i == 0,
                forall|j: int| 0 <= j < n ==> #[trigger] self.table@[j].0@ != name@,
            decreases i,
        {
            if i == 0 {
                break ;
            }
            let entry = &self.table[i - 1];
            if crate::lexer::str_eq(entry.0.as_str(), name.as_str()) {
                proof {
                    lemma_assoc_lookup(self.table@, name@);
                }
                return Some(entry.1.clone());
            }
            i = i - 1;
        }
        proof {
            lemma_assoc_lookup(self.table@, name@);
        }
        None
    }

    /// Stores `value` under `name`, replacing what was there.
    fn insert(&mut self, name: String, value: Atomic)
        ensures
            final(self)@ == old(self)@.insert(name@, value@),
    {
        let ghost before = self.table@;
        self.table.push((name, value));
        proof {
            assert(self.table@.drop_last() =~= before);
        }
    }

    /// Walks the tree, returning its value or the first error; the
    /// variable table is read by identifier leaves and written by `=`.
    /// Whatever comes back (except the iteration guard's own
    /// [`EvalErr::StepLimit`]) is what [`eval_fuel`] yields for some fuel.
    /// The guard's error cannot come from a tree without a `while` node,
    /// and when it does come, the evaluation genuinely needed more than
    /// the guard's entire fuel budget: no fuel up to `u64::MAX` finishes.
    #[verifier::loop_isolation(false)]
    #[verifier::rlimit(100)]
    #[verifier::spinoff_prover]
    pub fn evaluate(&mut self, tree: &TokenTree) -> (r: Result<Atomic, EvalErr>)
        ensures
            r != Err::<Atomic, EvalErr>(EvalErr::StepLimit) ==> exists|f: nat|
                #[trigger] eval_fuel(tree@, old(self)@, f) == Some(
                    (res_view(r), final(self)@),
                ),
            !has_while(tree@) ==> r != Err::<Atomic, EvalErr>(EvalErr::StepLimit),
            r == Err::<Atomic, EvalErr>(EvalErr::StepLimit) ==> forall|f: nat|
                f <= u64::MAX ==> #[trigger] eval_fuel(tree@, old(self)@, f) is None,
        decreases tree,
    {
        let ghost env0 = self@;
        match tree {
            TokenTree::Atomic(val) => {
                match val {
                    Atomic::Identifier(name) => {
                        match self.lookup(name) {
                            Some(v) => {
                                proof {
                                    assert(eval_fuel(tree@, env0, 1) == Some(
                                        (res_view(Ok(v)), self@),
                                    ));
                                }
                                Ok(v)
                            },
                            None => {
                                proof {
                                    assert(eval_fuel(tree@, env0, 1) == Some(
                                        (
                                            res_view(Err::<Atomic, EvalErr>(
                                                EvalErr::UndefinedVariable,
                                            )),
                                            self@,
                                        ),
                                    ));
                                }
                                Err(EvalErr::UndefinedVariable)
                            },
                        }
                    },
                    _ => {
                        let v = val.clone();
                        proof {
                            assert(eval_fuel(tree@, env0, 1) == Some((res_view(Ok(v)), self@)));
                        }
                        Ok(v)
                    },
                }
            },
            TokenTree::InfixExpression(_, _, _) => self.eval_infix_node(tree),
            TokenTree::PrefixExpression(op, x) => {
                let v = match self.evaluate(x) {
                    Ok(v) => v,
                    Err(e) => {
                        proof {
                            if e != EvalErr::StepLimit {
                                let f = choose|f: nat|
                                    eval_fuel(x@, env0, f) == Some(
                                        (res_view(Err::<Atomic, EvalErr>(e)), self@),
                                    );
                                assert(eval_fuel(tree@, env0, f + 1) == Some(
                                    (res_view(Err::<Atomic, EvalErr>(e)), self@),
                                ));
                            } else {
                                assert(has_while(tree@));
                                assert forall|f: nat| f <= u64::MAX implies #[trigger] eval_fuel(
                                    tree@,
                                    env0,
                                    f,
                                ) is None by {
                                    if f > 0 {
                                        assert(eval_fuel(x@, env0, (f - 1) as nat) is None);
                                    }
                                }
                            }
                        }
                        return Err(e);
                    },
                };
                let ghost f = choose|f: nat|
                    eval_fuel(x@, env0, f) == Some((res_view(Ok(v)), self@));
                let result = eval_prefix(op, v);
                proof {
                    lemma_apply_no_limit(*op, v@, v@, v@);
                    assert(eval_fuel(tree@, env0, f + 1) == Some((res_view(result), self@)));
                }
                result
            },
            TokenTree::PostfixExpression(op, x) => {
                let v = match self.evaluate(x) {
                    Ok(v) => v,
                    Err(e) => {
                        proof {
                            if e != EvalErr::StepLimit {
                                let f = choose|f: nat|
                                    eval_fuel(x@, env0, f) == Some(
                                        (res_view(Err::<Atomic, EvalErr>(e)), self@),
                                    );
                                assert(eval_fuel(tree@, env0, f + 1) == Some(
                                    (res_view(Err::<Atomic, EvalErr>(e)), self@),
                                ));
                            } else {
                                assert(has_while(tree@));
                                assert forall|f: nat| f <= u64::MAX implies #[trigger] eval_fuel(
                                    tree@,
                                    env0,
                                    f,
                                ) is None by {
                                    if f > 0 {
                                        assert(eval_fuel(x@, env0, (f - 1) as nat) is None);
                                    }
                                }
                            }
                        }
                        return Err(e);
                    },
                };
                let ghost f = choose|f: nat|
                    eval_fuel(x@, env0, f) == Some((res_view(Ok(v)), self@));
                let result = match op {
                    Operator::Bang => factor(v),
                    _ => Err(EvalErr::TypeMismatch),
                };
                proof {
                    lemma_apply_no_limit(*op, v@, v@, v@);
                    assert(eval_fuel(tree@, env0, f + 1) == Some((res_view(result), self@)));
                }
                result
            },
            TokenTree::If { .. } => self.eval_if(tree),
            TokenTree::While { .. } => self.eval_while(tree),
        }
    }

    /// The infix arm of [`Evaluator::evaluate`]: both operands eagerly,
    /// then the operator; `=` stores into the table instead.
    #[verifier::loop_isolation(false)]
    #[verifier::rlimit(100)]
    #[verifier::spinoff_prover]
    fn eval_infix_node(&mut self, tree: &TokenTree) -> (r: Result<Atomic, EvalErr>)
        requires
            tree matches TokenTree::InfixExpression(_, _, _),
        ensures
            r != Err::<Atomic, EvalErr>(EvalErr::StepLimit) ==> exists|f: nat|
                #[trigger] eval_fuel(tree@, old(self)@, f) == Some(
                    (res_view(r), final(self)@),
                ),
            !has_while(tree@) ==> r != Err::<Atomic, EvalErr>(EvalErr::StepLimit),
            r == Err::<Atomic, EvalErr>(EvalErr::StepLimit) ==> forall|f: nat|
                f <= u64::MAX ==> #[trigger] eval_fuel(tree@, old(self)@, f) is None,
        decreases tree, 0int,
    {
        let ghost env0 = self@;
        match tree {
            TokenTree::InfixExpression(op, l, r) => {
                if matches!(op, Operator::Assign) {
                    match &**l {
                        TokenTree::Atomic(Atomic::Identifier(name)) => {
                            let v = match self.evaluate(r) {
                                Ok(v) => v,
                                Err(e) => {
                                    proof {
                                        if e != EvalErr::StepLimit {
                                            let f = choose|f: nat|
                                                eval_fuel(r@, env0, f) == Some(
                                                    (res_view(Err::<Atomic, EvalErr>(e)), self@),
                                                );
                                            assert(eval_fuel(tree@, env0, f + 1) == Some(
                                                (res_view(Err::<Atomic, EvalErr>(e)), self@),
                                            ));
                                        } else {
                                            assert(has_while(tree@));
                                            assert forall|f: nat|
                                                f <= u64::MAX implies #[trigger] eval_fuel(
                                                tree@,
                                                env0,
                                                f,
                                            ) is None by {
                                                if f > 0 {
                                                    assert(eval_fuel(
                                                        r@,
                                                        env0,
                                                        (f - 1) as nat,
                                                    ) is None);
                                                }
                                            }
                                        }
                                    }
                                    return Err(e);
                                },
                            };
                            let ghost env1 = self@;
                            let ghost f = choose|f: nat|
                                eval_fuel(r@, env0, f) == Some((res_view(Ok(v)), env1));
                            self.insert(name.clone(), v.clone());
                            proof {
                                assert(eval_fuel(tree@, env0, f + 1) == Some(
                                    (res_view(Ok(v)), self@),
                                ));
                            }
                            Ok(v)
                        },
                        _ => {
                            proof {
                                assert(eval_fuel(tree@, env0, 1) == Some(
                                    (
                                        res_view(Err::<Atomic, EvalErr>(EvalErr::TypeMismatch)),
                                        self@,
                                    ),
                                ));
                            }
                            Err(EvalErr::TypeMismatch)
                        },
                    }
                } else {
                    let lhs = match self.evaluate(l) {
                        Ok(v) => v,
                        Err(e) => {
                            proof {
                                if e != EvalErr::StepLimit {
                                    let f = choose|f: nat|
                                        eval_fuel(l@, env0, f) == Some(
                                            (res_view(Err::<Atomic, EvalErr>(e)), self@),
                                        );
                                    assert(eval_fuel(tree@, env0, f + 1) == Some(
                                        (res_view(Err::<Atomic, EvalErr>(e)), self@),
                                    ));
                                } else {
                                    assert(has_while(tree@));
                                    assert forall|f: nat|
                                        f <= u64::MAX implies #[trigger] eval_fuel(
                                        tree@,
                                        env0,
                                        f,
                                    ) is None by {
                                        if f > 0 {
                                            assert(eval_fuel(l@, env0, (f - 1) as nat) is None);
                                        }
                                    }
                                }
                            }
                            return Err(e);
                        },
                    };
                    let ghost env1 = self@;
                    let ghost f1 = choose|f: nat|
                        eval_fuel(l@, env0, f) == Some((res_view(Ok(lhs)), env1));
                    let lhs2 = lhs.clone();
                    let rhs = match self.evaluate(r) {
                        Ok(v) => v,
                        Err(e) => {
                            proof {
                                if e != EvalErr::StepLimit {
                                    let f2 = choose|f: nat|
                                        eval_fuel(r@, env1, f) == Some(
                                            (res_view(Err::<Atomic, EvalErr>(e)), self@),
                                        );
                                    lemma_eval_fuel_mono(l@, env0, f1, f1 + f2);
                                    lemma_eval_fuel_mono(r@, env1, f2, f1 + f2);
                                    assert(eval_fuel(tree@, env0, f1 + f2 + 1) == Some(
                                        (res_view(Err::<Atomic, EvalErr>(e)), self@),
                                    ));
                                } else {
                                    assert(has_while(tree@));
                                    assert forall|f: nat|
                                        f <= u64::MAX implies #[trigger] eval_fuel(
                                        tree@,
                                        env0,
                                        f,
                                    ) is None by {
                                        if f > 0 {
                                            let g = (f - 1) as nat;
                                            if eval_fuel(l@, env0, g) is Some {
                                                lemma_eval_fuel_agree(l@, env0, g, f1);
                                                assert(eval_fuel(r@, env1, g) is None);
                                            }
                                        }
                                    }
                                }
                            }
                            return Err(e);
                        },
                    };
                    let ghost env2 = self@;
                    let ghost f2 = choose|f: nat|
                        eval_fuel(r@, env1, f) == Some((res_view(Ok(rhs)), env2));
                    let result = eval_infix(op, lhs2, rhs);
                    proof {
                        lemma_apply_no_limit(*op, lhs2@, rhs@, lhs2@);
                        lemma_eval_fuel_mono(l@, env0, f1, f1 + f2);
                        lemma_eval_fuel_mono(r@, env1, f2, f1 + f2);
                        assert(eval_fuel(tree@, env0, f1 + f2 + 1) == Some(
                            (res_view(result), self@),
                        ));
                    }
                    result
                }
            },
            _ => Err(EvalErr::TypeMismatch),
        }
    }

    /// The conditional arm of [`Evaluator::evaluate`].
    #[verifier::loop_isolation(false)]
    #[verifier::rlimit(100)]
    #[verifier::spinoff_prover]
    fn eval_if(&mut self, tree: &TokenTree) -> (r: Result<Atomic, EvalErr>)
        requires
            tree matches TokenTree::If { .. },
        ensures
            r != Err::<Atomic, EvalErr>(EvalErr::StepLimit) ==> exists|f: nat|
                #[trigger] eval_fuel(tree@, old(self)@, f) == Some(
                    (res_view(r), final(self)@),
                ),
            !has_while(tree@) ==> r != Err::<Atomic, EvalErr>(EvalErr::StepLimit),
            r == Err::<Atomic, EvalErr>(EvalErr::StepLimit) ==> forall|f: nat|
                f <= u64::MAX ==> #[trigger] eval_fuel(tree@, old(self)@, f) is None,
        decreases tree, 0int,
    {
        let ghost env0 = self@;
        match tree {
            TokenTree::If { condition, positive, negative } => {
                let cv = match self.evaluate(condition) {
                    Ok(v) => v,
                    Err(e) => {
                        proof {
                            if e != EvalErr::StepLimit {
                                let f = choose|f: nat|
                                    eval_fuel(condition@, env0, f) == Some(
                                        (res_view(Err::<Atomic, EvalErr>(e)), self@),
                                    );
                                assert(eval_fuel(tree@, env0, f + 1) == Some(
                                    (res_view(Err::<Atomic, EvalErr>(e)), self@),
                                ));
                            } else {
                                assert(has_while(tree@));
                                assert forall|f: nat| f <= u64::MAX implies #[trigger] eval_fuel(
                                    tree@,
                                    env0,
                                    f,
                                ) is None by {
                                    if f > 0 {
                                        assert(eval_fuel(
                                            condition@,
                                            env0,
                                            (f - 1) as nat,
                                        ) is None);
                                    }
                                }
                            }
                        }
                        return Err(e);
                    },
                };
                let ghost env1 = self@;
                let ghost f1 = choose|f: nat|
                    eval_fuel(condition@, env0, f) == Some((res_view(Ok(cv)), env1));
                match cv {
                    Atomic::Boolean(b) => {
                        let branch = if b {
                            self.evaluate(positive)
                        } else {
                            match negative {
                                Some(n) => self.evaluate(n),
                                None => {
                                    proof {
                                        assert(eval_fuel(tree@, env0, f1 + 1) == Some(
                                            (res_view(Ok(Atomic::Nil)), self@),
                                        ));
                                    }
                                    return Ok(Atomic::Nil);
                                },
                            }
                        };
                        proof {
                            let ghost bt = if b {
                                positive@
                            } else {
                                negative.unwrap()@
                            };
                            if branch != Err::<Atomic, EvalErr>(EvalErr::StepLimit) {
                                let f2 = choose|f: nat|
                                    eval_fuel(bt, env1, f) == Some((res_view(branch), self@));
                                lemma_eval_fuel_mono(condition@, env0, f1, f1 + f2);
                                lemma_eval_fuel_mono(bt, env1, f2, f1 + f2);
                                assert(eval_fuel(tree@, env0, f1 + f2 + 1) == Some(
                                    (res_view(branch), self@),
                                ));
                            } else {
                                assert(has_while(tree@));
                                assert forall|f: nat| f <= u64::MAX implies #[trigger] eval_fuel(
                                    tree@,
                                    env0,
                                    f,
                                ) is None by {
                                    if f > 0 {
                                        let g = (f - 1) as nat;
                                        if eval_fuel(condition@, env0, g) is Some {
                                            lemma_eval_fuel_agree(condition@, env0, g, f1);
                                            assert(eval_fuel(bt, env1, g) is None);
                                        }
                                    }
                                }
                            }
                        }
                        branch
                    },
                    _ => {
                        proof {
                            assert(eval_fuel(tree@, env0, f1 + 1) == Some(
                                (res_view(Err::<Atomic, EvalErr>(EvalErr::TypeMismatch)), self@),
                            ));
                        }
                        Err(EvalErr::TypeMismatch)
                    },
                }
            },
            _ => Err(EvalErr::TypeMismatch),
        }
    }

    /// The loop arm of [`Evaluator::evaluate`], with the iteration guard.
    #[verifier::loop_isolation(false)]
    #[verifier::rlimit(100)]
    #[verifier::spinoff_prover]
    fn eval_while(&mut self, tree: &TokenTree) -> (r: Result<Atomic, EvalErr>)
        requires
            tree matches TokenTree::While { .. },
        ensures
            r != Err::<Atomic, EvalErr>(EvalErr::StepLimit) ==> exists|f: nat|
                #[trigger] eval_fuel(tree@, old(self)@, f) == Some(
                    (res_view(r), final(self)@),
                ),
            !has_while(tree@) ==> r != Err::<Atomic, EvalErr>(EvalErr::StepLimit),
            r == Err::<Atomic, EvalErr>(EvalErr::StepLimit) ==> forall|f: nat|
                f <= u64::MAX ==> #[trigger] eval_fuel(tree@, old(self)@, f) is None,
        decreases tree, 0int,
    {
        let ghost env0 = self@;
        match tree {
            TokenTree::While { condition, body } => {
                let mut steps: u64 = 0;
                proof {
                    lemma_fuel_lower_init(tree@, env0);
                }
                loop
                    invariant
                        tree@ == (TreeV::While {
                            condition: Box::new(condition@),
                            body: Box::new(body@),
                        }),
                        forall|f: nat| #[trigger]
                            eval_fuel(tree@, self@, f) is Some ==> exists|f0: nat|
                                eval_fuel(tree@, env0, f0) == eval_fuel(tree@, self@, f),
                        fuel_lower(tree@, env0, self@, steps as nat),
                    decreases u64::MAX - steps,
                {
                    if steps == u64::MAX {
                        proof {
                            assert(has_while(tree@));
                            lemma_fuel_lower_exhausted(
                                tree@,
                                env0,
                                self@,
                                steps as nat,
                                u64::MAX as nat,
                            );
                        }
                        return Err(EvalErr::StepLimit);
                    }
                    let ghost env_i = self@;
                    let cv = match self.evaluate(condition) {
                        Ok(v) => v,
                        Err(e) => {
                            proof {
                                if e != EvalErr::StepLimit {
                                    let f = choose|f: nat|
                                        eval_fuel(condition@, env_i, f) == Some(
                                            (res_view(Err::<Atomic, EvalErr>(e)), self@),
                                        );
                                    assert(eval_fuel(tree@, env_i, f + 1) == Some(
                                        (res_view(Err::<Atomic, EvalErr>(e)), self@),
                                    ));
                                } else {
                                    assert(has_while(tree@));
                                    lemma_while_cond_none(
                                        tree@,
                                        condition@,
                                        body@,
                                        env_i,
                                        u64::MAX as nat,
                                    );
                                    lemma_fuel_lower_none(
                                        tree@,
                                        env0,
                                        env_i,
                                        steps as nat,
                                        u64::MAX as nat,
                                    );
                                }
                            }
                            return Err(e);
                        },
                    };
                    let ghost env_c = self@;
                    let ghost f1 = choose|f: nat|
                        eval_fuel(condition@, env_i, f) == Some((res_view(Ok(cv)), env_c));
                    match cv {
                        Atomic::Boolean(true) => {
                            match self.evaluate(body) {
                                Ok(_) => {},
                                Err(e) => {
                                    proof {
                                        if e != EvalErr::StepLimit {
                                            let f2 = choose|f: nat|
                                                eval_fuel(body@, env_c, f) == Some(
                                                    (res_view(Err::<Atomic, EvalErr>(e)), self@),
                                                );
                                            lemma_eval_fuel_mono(
                                                condition@,
                                                env_i,
                                                f1,
                                                f1 + f2,
                                            );
                                            lemma_eval_fuel_mono(body@, env_c, f2, f1 + f2);
                                            assert(eval_fuel(tree@, env_i, f1 + f2 + 1) == Some(
                                                (res_view(Err::<Atomic, EvalErr>(e)), self@),
                                            ));
                                        } else {
                                            assert(has_while(tree@));
                                            lemma_while_body_none(
                                                tree@,
                                                condition@,
                                                body@,
                                                env_i,
                                                env_c,
                                                f1,
                                                u64::MAX as nat,
                                            );
                                            lemma_fuel_lower_none(
                                                tree@,
                                                env0,
                                                env_i,
                                                steps as nat,
                                                u64::MAX as nat,
                                            );
                                        }
                                    }
                                    return Err(e);
                                },
                            }
                            proof {
                                let env_b = self@;
                                let bv = choose|v: Atomic, f: nat|
                                    eval_fuel(body@, env_c, f) == Some((res_view(Ok(v)), env_b));
                                let f2 = choose|f2: nat|
                                    eval_fuel(body@, env_c, f2) == Some(
                                        (res_view(Ok(bv.0)), env_b),
                                    );
                                assert forall|f: nat| #[trigger]
                                    eval_fuel(tree@, env_b, f) is Some implies exists|f0: nat|
                                    eval_fuel(tree@, env0, f0) == eval_fuel(tree@, env_b, f) by {
                                    let big = f1 + f2 + f + 1;
                                    lemma_eval_fuel_mono(
                                        condition@,
                                        env_i,
                                        f1,
                                        (big - 1) as nat,
                                    );
                                    lemma_eval_fuel_mono(body@, env_c, f2, (big - 1) as nat);
                                    lemma_eval_fuel_mono(tree@, env_b, f, (big - 1) as nat);
                                    assert(eval_fuel(tree@, env_i, big) == eval_fuel(
                                        tree@,
                                        env_b,
                                        f,
                                    ));
                                }
                                lemma_fuel_lower_step(
                                    tree@,
                                    condition@,
                                    body@,
                                    env0,
                                    env_i,
                                    env_c,
                                    env_b,
                                    steps as nat,
                                    f1,
                                    f2,
                                    bv.0@,
                                );
                            }
                            steps = steps + 1;
                        },
                        Atomic::Boolean(false) => {
                            proof {
                                assert(eval_fuel(tree@, env_i, f1 + 1) == Some(
                                    (res_view(Ok(Atomic::Nil)), self@),
                                ));
                            }
                            return Ok(Atomic::Nil);
                        },
                        _ => {
                            proof {
                                assert(eval_fuel(tree@, env_i, f1 + 1) == Some(
                                    (
                                        res_view(Err::<Atomic, EvalErr>(EvalErr::TypeMismatch)),
                                        self@,
                                    ),
                                ));
                            }
                            return Err(EvalErr::TypeMismatch);
                        },
                    }
                }
            },
            _ => Err(EvalErr::TypeMismatch),
        }
    }
}

/// Infix dispatch on evaluated operands, as [`apply_infix`] describes.
fn eval_infix(op: &Operator, lhs: Atomic, rhs: Atomic) -> (r: Result<Atomic, EvalErr>)
    ensures
        res_view(r) == apply_infix(*op, lhs@, rhs@),
{
    match op {
        Operator::Plus => add_together(lhs, rhs),
        Operator::Minus => sub_together(lhs, rhs),
        Operator::Star => mul_together(lhs, rhs),
        Operator::Slash => div_together(lhs, rhs),
        Operator::Less => less_than_together(lhs, rhs),
        Operator::LessOrEqual => lessequal_than_together(lhs, rhs),
        Operator::EqualEqual => equal_with_together(lhs, rhs),
        Operator::NotEqual => notequal_with_together(lhs, rhs),
        Operator::Greater => greater_than_together(lhs, rhs),
        Operator::GreaterOrEqual => greaterequal_than_together(lhs, rhs),
        Operator::And => and_together(lhs, rhs),
        Operator::Or => or_together(lhs, rhs),
        _ => Err(EvalErr::TypeMismatch),
    }
}

/// Prefix dispatch on an evaluated operand, as [`apply_prefix`] describes.
fn eval_prefix(op: &Operator, v: Atomic) -> (r: Result<Atomic, EvalErr>)
    ensures
        res_view(r) == apply_prefix(*op, v@),
{
    match op {
        Operator::Plus => Ok(v),
        Operator::Minus => match v {
            Atomic::Float(b) => Ok(Atomic::Float(crate::float::float_neg(b))),
            Atomic::Integer(n) => Ok(Atomic::Integer(0i32.wrapping_sub(n))),
            _ => Err(EvalErr::TypeMismatch),
        },
        Operator::Let => Ok(v),
        _ => Err(EvalErr::TypeMismatch),
    }
}

} // verus!
