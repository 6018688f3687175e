use vstd::prelude::*;
use crate::bytecode::Bytecode;
use crate::error::SyntaxError;
use crate::parser::{compile, Parser};

verus! {

/// The verdict on one assertion of a bounded check.
pub enum BoundedResult<S, T> {
    /// The assertion holds under every assignment of values to its
    /// variables.
    Verified(S),
    /// The assertion is not true under some assignment.
    Violated(T),
    /// The budget ran out before a verdict was reached.
    OutOfResource,
}

/// A value of the source language.
#[derive(Clone, Copy, Debug, PartialEq, Eq, Structural)]
pub enum Value {
    Bool(bool),
    Uint(usize),
}

/// What evaluating an expression gives.
#[derive(Clone, Copy, Debug, PartialEq, Eq, Structural)]
pub enum Eval {
    /// A value.
    Val(Value),
    /// No value: an operand of the wrong type, a division by zero, an
    /// unsigned subtraction below zero, a variable or function that does
    /// not exist, or code that is not an expression.
    Wrong,
    /// The evaluation needed more calls, or larger integers, than the
    /// budget allows.
    Exhausted,
}

/// The search for a counterexample tries the unsigned integers below this
/// bound for each variable, besides both booleans.
pub const UINT_BOUND: usize = 8;

/// The number of values that the search tries for each variable.
pub const DOMAIN_SIZE: usize = 10;

/// The most variables of an assertion that the search tries values for.
pub const MAX_VARS: usize = 4;

/// The most nested calls that one evaluation may make.
pub const MAX_DEPTH: usize = 64;

// ===================================================================
// Structure of prefix code
// ===================================================================

/// The number of operands of an expression instruction, or `None` for an
/// instruction that does not start an expression.
pub open spec fn operand_count(op: Bytecode) -> Option<nat> {
    match op {
        Bytecode::Int(_) | Bytecode::Bool(_) | Bytecode::Var(_) => Some(0),
        Bytecode::Not | Bytecode::IsUint | Bytecode::IsBool => Some(1),
        Bytecode::And | Bytecode::Or | Bytecode::Implies | Bytecode::Eq | Bytecode::Neq
        | Bytecode::Lt | Bytecode::LtEq | Bytecode::Gt | Bytecode::GtEq | Bytecode::Add
        | Bytecode::Sub | Bytecode::Mul | Bytecode::Div | Bytecode::Rem => Some(2),
        Bytecode::If => Some(3),
        Bytecode::Invoke(_, n) => Some(n as nat),
        _ => None,
    }
}

/// The end of the expression that starts at `pc`, if the code holds a
/// whole one there.
pub open spec fn expr_end(code: Seq<Bytecode>, pc: nat) -> Option<nat>
    decreases code.len() - pc, 0nat,
{
    if pc >= code.len() {
        None
    } else {
        match operand_count(code[pc as int]) {
            None => None,
            Some(k) => ends_of(code, pc + 1, k),
        }
    }
}

/// The end of `k` consecutive expressions that start at `pc`.
pub open spec fn ends_of(code: Seq<Bytecode>, pc: nat, k: nat) -> Option<nat>
    decreases code.len() - pc, k + 1,
{
    if k == 0 {
        Some(pc)
    } else {
        match expr_end(code, pc) {
            None => None,
            Some(e) => if pc < e <= code.len() {
                ends_of(code, e, (k - 1) as nat)
            } else {
                None
            },
        }
    }
}

// ===================================================================
// Evaluation
// ===================================================================

/// A strict binary operation on two values.
pub open spec fn apply_op(op: Bytecode, a: Value, b: Value) -> Eval {
    match (a, b) {
        (Value::Uint(x), Value::Uint(y)) => match op {
            Bytecode::Eq => Eval::Val(Value::Bool(x == y)),
            Bytecode::Neq => Eval::Val(Value::Bool(x != y)),
            Bytecode::Lt => Eval::Val(Value::Bool(x < y)),
            Bytecode::LtEq => Eval::Val(Value::Bool(x <= y)),
            Bytecode::Gt => Eval::Val(Value::Bool(x > y)),
            Bytecode::GtEq => Eval::Val(Value::Bool(x >= y)),
            Bytecode::Add => if x + y <= usize::MAX {
                Eval::Val(Value::Uint((x + y) as usize))
            } else {
                Eval::Exhausted
            },
            Bytecode::Sub => if x >= y {
                Eval::Val(Value::Uint((x - y) as usize))
            } else {
                Eval::Wrong
            },
            Bytecode::Mul => if x * y <= usize::MAX {
                Eval::Val(Value::Uint((x * y) as usize))
            } else {
                Eval::Exhausted
            },
            Bytecode::Div => if y != 0 {
                Eval::Val(Value::Uint((x / y) as usize))
            } else {
                Eval::Wrong
            },
            Bytecode::Rem => if y != 0 {
                Eval::Val(Value::Uint((x % y) as usize))
            } else {
                Eval::Wrong
            },
            _ => Eval::Wrong,
        },
        (Value::Bool(x), Value::Bool(y)) => match op {
            Bytecode::Eq => Eval::Val(Value::Bool(x == y)),
            Bytecode::Neq => Eval::Val(Value::Bool(x != y)),
            _ => Eval::Wrong,
        },
        _ => Eval::Wrong,
    }
}

/// Whether `op` is a logical connective, which may leave its second
/// operand unevaluated.
pub open spec fn is_connective(op: Bytecode) -> bool {
    op == Bytecode::And || op == Bytecode::Or || op == Bytecode::Implies
}

/// The value of a connective whose first operand alone decides it.
pub open spec fn decided_by(op: Bytecode, first: bool) -> Option<bool> {
    if op == Bytecode::And && !first {
        Some(false)
    } else if op == Bytecode::Or && first {
        Some(true)
    } else if op == Bytecode::Implies && !first {
        Some(true)
    } else {
        None
    }
}

/// The value of the expression at `pc`, computed over machine words (an
/// integer that does not fit in a `usize` exhausts the budget), with `env`
/// for its variables, given
/// the functions `funs` (arity and start of body, by index) and `fuel`
/// nested calls.
pub open spec fn eval_word(
    code: Seq<Bytecode>,
    funs: Seq<(nat, nat)>,
    pc: nat,
    env: Seq<Value>,
    fuel: nat,
) -> Eval
    decreases fuel, code.len() - pc, 0nat,
{
    if pc >= code.len() {
        Eval::Wrong
    } else {
        let op = code[pc as int];
        match op {
            Bytecode::Int(n) => Eval::Val(Value::Uint(n)),
            Bytecode::Bool(b) => Eval::Val(Value::Bool(b)),
            Bytecode::Var(i) => if i < env.len() {
                Eval::Val(env[i as int])
            } else {
                Eval::Wrong
            },
            Bytecode::Not => match eval_word(code, funs, pc + 1, env, fuel) {
                Eval::Val(Value::Bool(b)) => Eval::Val(Value::Bool(!b)),
                Eval::Val(_) => Eval::Wrong,
                o => o,
            },
            Bytecode::IsUint => match eval_word(code, funs, pc + 1, env, fuel) {
                Eval::Val(v) => Eval::Val(Value::Bool(v is Uint)),
                o => o,
            },
            Bytecode::IsBool => match eval_word(code, funs, pc + 1, env, fuel) {
                Eval::Val(v) => Eval::Val(Value::Bool(v is Bool)),
                o => o,
            },
            Bytecode::If => match eval_word(code, funs, pc + 1, env, fuel) {
                Eval::Val(Value::Bool(c)) => match expr_end(code, pc + 1) {
                    Some(second) => if pc < second <= code.len() {
                        if c {
                            eval_word(code, funs, second, env, fuel)
                        } else {
                            match expr_end(code, second) {
                                Some(third) => if second < third <= code.len() {
                                    eval_word(code, funs, third, env, fuel)
                                } else {
                                    Eval::Wrong
                                },
                                None => Eval::Wrong,
                            }
                        }
                    } else {
                        Eval::Wrong
                    },
                    None => Eval::Wrong,
                },
                Eval::Val(_) => Eval::Wrong,
                o => o,
            },
            Bytecode::Invoke(f, n) => if f < funs.len() && funs[f as int].0 == n {
                if fuel == 0 {
                    Eval::Exhausted
                } else {
                    match eval_word_args(code, funs, pc + 1, n as nat, env, fuel) {
                        Ok(args) => eval_word(code, funs, funs[f as int].1, args, (fuel - 1) as nat),
                        Err(o) => o,
                    }
                }
            } else {
                Eval::Wrong
            },
            _ => if operand_count(op) == Some(2nat) {
                match eval_word(code, funs, pc + 1, env, fuel) {
                    Eval::Val(a) => match expr_end(code, pc + 1) {
                        Some(second) => if pc < second <= code.len() {
                            if is_connective(op) {
                                match a {
                                    Value::Bool(x) => match decided_by(op, x) {
                                        Some(v) => Eval::Val(Value::Bool(v)),
                                        None => match eval_word(code, funs, second, env, fuel) {
                                            Eval::Val(Value::Bool(y)) => Eval::Val(Value::Bool(y)),
                                            Eval::Val(_) => Eval::Wrong,
                                            o => o,
                                        },
                                    },
                                    _ => Eval::Wrong,
                                }
                            } else {
                                match eval_word(code, funs, second, env, fuel) {
                                    Eval::Val(b) => apply_op(op, a, b),
                                    o => o,
                                }
                            }
                        } else {
                            Eval::Wrong
                        },
                        None => Eval::Wrong,
                    },
                    o => o,
                }
            } else {
                Eval::Wrong
            },
        }
    }
}

/// The values of the `k` consecutive expressions that start at `pc`, or
/// the outcome of the first that has none.
pub open spec fn eval_word_args(
    code: Seq<Bytecode>,
    funs: Seq<(nat, nat)>,
    pc: nat,
    k: nat,
    env: Seq<Value>,
    fuel: nat,
) -> Result<Seq<Value>, Eval>
    decreases fuel, code.len() - pc, k + 1,
{
    if k == 0 {
        Ok(Seq::empty())
    } else {
        match eval_word(code, funs, pc, env, fuel) {
            Eval::Val(v) => match expr_end(code, pc) {
                Some(e) => if pc < e <= code.len() {
                    match eval_word_args(code, funs, e, (k - 1) as nat, env, fuel) {
                        Ok(rest) => Ok(seq![v] + rest),
                        Err(o) => Err(o),
                    }
                } else {
                    Err(Eval::Wrong)
                },
                None => Err(Eval::Wrong),
            },
            o => Err(o),
        }
    }
}

/// A value of the source language, with unsigned integers unbounded.
pub enum Datum {
    Bool(bool),
    Nat(nat),
}

/// What an expression means: a value, none, or not known within the budget
/// of nested calls.
pub enum Outcome {
    Val(Datum),
    Wrong,
    Exhausted,
}

pub open spec fn datum(v: Value) -> Datum {
    match v {
        Value::Bool(b) => Datum::Bool(b),
        Value::Uint(n) => Datum::Nat(n as nat),
    }
}

pub open spec fn data(env: Seq<Value>) -> Seq<Datum> {
    env.map_values(|v: Value| datum(v))
}

pub open spec fn outcome(e: Eval) -> Outcome {
    match e {
        Eval::Val(v) => Outcome::Val(datum(v)),
        Eval::Wrong => Outcome::Wrong,
        Eval::Exhausted => Outcome::Exhausted,
    }
}

/// A strict binary operation on two values, over unbounded naturals.
pub open spec fn apply_nat(op: Bytecode, a: Datum, b: Datum) -> Outcome {
    match (a, b) {
        (Datum::Nat(x), Datum::Nat(y)) => match op {
            Bytecode::Eq => Outcome::Val(Datum::Bool(x == y)),
            Bytecode::Neq => Outcome::Val(Datum::Bool(x != y)),
            Bytecode::Lt => Outcome::Val(Datum::Bool(x < y)),
            Bytecode::LtEq => Outcome::Val(Datum::Bool(x <= y)),
            Bytecode::Gt => Outcome::Val(Datum::Bool(x > y)),
            Bytecode::GtEq => Outcome::Val(Datum::Bool(x >= y)),
            Bytecode::Add => Outcome::Val(Datum::Nat(x + y)),
            Bytecode::Sub => if x >= y {
                Outcome::Val(Datum::Nat((x - y) as nat))
            } else {
                Outcome::Wrong
            },
            Bytecode::Mul => Outcome::Val(Datum::Nat(x * y)),
            Bytecode::Div => if y != 0 {
                Outcome::Val(Datum::Nat(x / y))
            } else {
                Outcome::Wrong
            },
            Bytecode::Rem => if y != 0 {
                Outcome::Val(Datum::Nat(x % y))
            } else {
                Outcome::Wrong
            },
            _ => Outcome::Wrong,
        },
        (Datum::Bool(x), Datum::Bool(y)) => match op {
            Bytecode::Eq => Outcome::Val(Datum::Bool(x == y)),
            Bytecode::Neq => Outcome::Val(Datum::Bool(x != y)),
            _ => Outcome::Wrong,
        },
        _ => Outcome::Wrong,
    }
}

/// What the expression at `pc` means, over unbounded natural numbers,
/// with `env` for its variables, given
/// the functions `funs` (arity and start of body, by index) and `fuel`
/// nested calls.
pub open spec fn eval(
    code: Seq<Bytecode>,
    funs: Seq<(nat, nat)>,
    pc: nat,
    env: Seq<Datum>,
    fuel: nat,
) -> Outcome
    decreases fuel, code.len() - pc, 0nat,
{
    if pc >= code.len() {
        Outcome::Wrong
    } else {
        let op = code[pc as int];
        match op {
            Bytecode::Int(n) => Outcome::Val(Datum::Nat(n as nat)),
            Bytecode::Bool(b) => Outcome::Val(Datum::Bool(b)),
            Bytecode::Var(i) => if i < env.len() {
                Outcome::Val(env[i as int])
            } else {
                Outcome::Wrong
            },
            Bytecode::Not => match eval(code, funs, pc + 1, env, fuel) {
                Outcome::Val(Datum::Bool(b)) => Outcome::Val(Datum::Bool(!b)),
                Outcome::Val(_) => Outcome::Wrong,
                o => o,
            },
            Bytecode::IsUint => match eval(code, funs, pc + 1, env, fuel) {
                Outcome::Val(v) => Outcome::Val(Datum::Bool(v is Nat)),
                o => o,
            },
            Bytecode::IsBool => match eval(code, funs, pc + 1, env, fuel) {
                Outcome::Val(v) => Outcome::Val(Datum::Bool(v is Bool)),
                o => o,
            },
            Bytecode::If => match eval(code, funs, pc + 1, env, fuel) {
                Outcome::Val(Datum::Bool(c)) => match expr_end(code, pc + 1) {
                    Some(second) => if pc < second <= code.len() {
                        if c {
                            eval(code, funs, second, env, fuel)
                        } else {
                            match expr_end(code, second) {
                                Some(third) => if second < third <= code.len() {
                                    eval(code, funs, third, env, fuel)
                                } else {
                                    Outcome::Wrong
                                },
                                None => Outcome::Wrong,
                            }
                        }
                    } else {
                        Outcome::Wrong
                    },
                    None => Outcome::Wrong,
                },
                Outcome::Val(_) => Outcome::Wrong,
                o => o,
            },
            Bytecode::Invoke(f, n) => if f < funs.len() && funs[f as int].0 == n {
                if fuel == 0 {
                    Outcome::Exhausted
                } else {
                    match eval_args(code, funs, pc + 1, n as nat, env, fuel) {
                        Ok(args) => eval(code, funs, funs[f as int].1, args, (fuel - 1) as nat),
                        Err(o) => o,
                    }
                }
            } else {
                Outcome::Wrong
            },
            _ => if operand_count(op) == Some(2nat) {
                match eval(code, funs, pc + 1, env, fuel) {
                    Outcome::Val(a) => match expr_end(code, pc + 1) {
                        Some(second) => if pc < second <= code.len() {
                            if is_connective(op) {
                                match a {
                                    Datum::Bool(x) => match decided_by(op, x) {
                                        Some(v) => Outcome::Val(Datum::Bool(v)),
                                        None => match eval(code, funs, second, env, fuel) {
                                            Outcome::Val(Datum::Bool(y)) => Outcome::Val(Datum::Bool(y)),
                                            Outcome::Val(_) => Outcome::Wrong,
                                            o => o,
                                        },
                                    },
                                    _ => Outcome::Wrong,
                                }
                            } else {
                                match eval(code, funs, second, env, fuel) {
                                    Outcome::Val(b) => apply_nat(op, a, b),
                                    o => o,
                                }
                            }
                        } else {
                            Outcome::Wrong
                        },
                        None => Outcome::Wrong,
                    },
                    o => o,
                }
            } else {
                Outcome::Wrong
            },
        }
    }
}

/// The meanings of the `k` consecutive expressions that start at `pc`, or
/// the outcome of the first that has no value.
pub open spec fn eval_args(
    code: Seq<Bytecode>,
    funs: Seq<(nat, nat)>,
    pc: nat,
    k: nat,
    env: Seq<Datum>,
    fuel: nat,
) -> Result<Seq<Datum>, Outcome>
    decreases fuel, code.len() - pc, k + 1,
{
    if k == 0 {
        Ok(Seq::<Datum>::empty())
    } else {
        match eval(code, funs, pc, env, fuel) {
            Outcome::Val(v) => match expr_end(code, pc) {
                Some(e) => if pc < e <= code.len() {
                    match eval_args(code, funs, e, (k - 1) as nat, env, fuel) {
                        Ok(rest) => Ok(seq![v] + rest),
                        Err(o) => Err(o),
                    }
                } else {
                    Err(Outcome::Wrong)
                },
                None => Err(Outcome::Wrong),
            },
            o => Err(o),
        }
    }
}

/// A strict binary operation over machine words agrees with the same
/// operation over unbounded naturals, unless the word result overflowed.
pub proof fn lemma_apply_exact(op: Bytecode, a: Value, b: Value)
    ensures
        apply_op(op, a, b) != Eval::Exhausted ==> outcome(apply_op(op, a, b)) == apply_nat(
            op,
            datum(a),
            datum(b),
        ),
{
}

/// Evaluating over machine words gives the meaning of the expression,
/// unless it exhausted the budget.
pub proof fn lemma_eval_word_exact(
    code: Seq<Bytecode>,
    funs: Seq<(nat, nat)>,
    pc: nat,
    env: Seq<Value>,
    fuel: nat,
)
    ensures
        eval_word(code, funs, pc, env, fuel) != Eval::Exhausted ==> outcome(
            eval_word(code, funs, pc, env, fuel),
        ) == eval(code, funs, pc, data(env), fuel),
    decreases fuel, code.len() - pc, 0nat,
{
    if pc < code.len() {
        let op = code[pc as int];
        lemma_eval_word_exact(code, funs, pc + 1, env, fuel);
        match expr_end(code, pc + 1) {
            Some(second) => if pc < second <= code.len() {
                lemma_eval_word_exact(code, funs, second, env, fuel);
                match expr_end(code, second) {
                    Some(third) => if second < third <= code.len() {
                        lemma_eval_word_exact(code, funs, third, env, fuel);
                    },
                    None => {},
                }
                match (eval_word(code, funs, pc + 1, env, fuel), eval_word(code, funs, second, env, fuel)) {
                    (Eval::Val(x), Eval::Val(y)) => lemma_apply_exact(op, x, y),
                    _ => {},
                }
            },
            None => {},
        }
        match op {
            Bytecode::Var(i) => {
                if i < env.len() {
                    assert(data(env)[i as int] == datum(env[i as int]));
                }
            },
            Bytecode::Invoke(f, n) => if f < funs.len() && funs[f as int].0 == n && fuel > 0 {
                lemma_eval_word_args_exact(code, funs, pc + 1, n as nat, env, fuel);
                match eval_word_args(code, funs, pc + 1, n as nat, env, fuel) {
                    Ok(args) => lemma_eval_word_exact(code, funs, funs[f as int].1, args, (fuel - 1) as nat),
                    Err(_) => {},
                }
            },
            _ => {},
        }
    }
}

/// Evaluating arguments over machine words gives their meanings, unless it
/// exhausted the budget.
pub proof fn lemma_eval_word_args_exact(
    code: Seq<Bytecode>,
    funs: Seq<(nat, nat)>,
    pc: nat,
    k: nat,
    env: Seq<Value>,
    fuel: nat,
)
    ensures
        eval_word_args(code, funs, pc, k, env, fuel) matches Ok(vs) ==> eval_args(
            code,
            funs,
            pc,
            k,
            data(env),
            fuel,
        ) == Ok::<Seq<Datum>, Outcome>(data(vs)),
        eval_word_args(code, funs, pc, k, env, fuel) is Err && eval_word_args(
            code,
            funs,
            pc,
            k,
            env,
            fuel,
        )->Err_0 != Eval::Exhausted ==> eval_args(code, funs, pc, k, data(env), fuel)
            == Err::<Seq<Datum>, Outcome>(
            outcome(eval_word_args(code, funs, pc, k, env, fuel)->Err_0),
        ),
    decreases fuel, code.len() - pc, k + 1,
{
    if k == 0 {
        assert(data(Seq::<Value>::empty()) =~= Seq::<Datum>::empty());
    } else {
        lemma_eval_word_exact(code, funs, pc, env, fuel);
        match expr_end(code, pc) {
            Some(e) => if pc < e <= code.len() {
                lemma_eval_word_args_exact(code, funs, e, (k - 1) as nat, env, fuel);
                match (eval_word(code, funs, pc, env, fuel), eval_word_args(code, funs, e, (k - 1) as nat, env, fuel)) {
                    (Eval::Val(v), Ok(rest)) => {
                        assert(data(seq![v] + rest) =~= seq![datum(v)] + data(rest));
                    },
                    _ => {},
                }
            },
            None => {},
        }
    }
}

// ===================================================================
// Symbolic evaluation over one unsigned variable
// ===================================================================

/// What an expression over one unsigned variable `v` (slot 0) is known to
/// be for every value of `v`.
#[derive(Clone, Copy, Debug, PartialEq, Eq, Structural)]
pub enum Sym {
    /// The same boolean for every `v`.
    Bool(bool),
    /// The natural number `a * v + b`.
    Lin(usize, usize),
    /// Nothing is known.
    Unknown,
}

/// A strict binary operation on what is known of its operands.
pub open spec fn sym_apply(op: Bytecode, x: Sym, y: Sym) -> Sym {
    match (x, y) {
        (Sym::Bool(p), Sym::Bool(q)) => match op {
            Bytecode::Eq => Sym::Bool(p == q),
            Bytecode::Neq => Sym::Bool(p != q),
            _ => Sym::Unknown,
        },
        (Sym::Lin(a1, b1), Sym::Lin(a2, b2)) => match op {
            Bytecode::Add => if a1 + a2 <= usize::MAX && b1 + b2 <= usize::MAX {
                Sym::Lin((a1 + a2) as usize, (b1 + b2) as usize)
            } else {
                Sym::Unknown
            },
            Bytecode::Sub => if a1 >= a2 && b1 >= b2 {
                Sym::Lin((a1 - a2) as usize, (b1 - b2) as usize)
            } else {
                Sym::Unknown
            },
            Bytecode::Mul => if a1 == 0 && b1 * a2 <= usize::MAX && b1 * b2 <= usize::MAX {
                Sym::Lin((b1 * a2) as usize, (b1 * b2) as usize)
            } else if a2 == 0 && a1 * b2 <= usize::MAX && b1 * b2 <= usize::MAX {
                Sym::Lin((a1 * b2) as usize, (b1 * b2) as usize)
            } else {
                Sym::Unknown
            },
            Bytecode::Div => if a2 == 0 && b2 > 0 && a1 % b2 == 0 && b1 % b2 == 0 {
                Sym::Lin((a1 / b2) as usize, (b1 / b2) as usize)
            } else {
                Sym::Unknown
            },
            Bytecode::Rem => if a1 == 0 && a2 == 0 && b2 > 0 {
                Sym::Lin(0, (b1 % b2) as usize)
            } else {
                Sym::Unknown
            },
            Bytecode::Eq => if a1 == a2 {
                Sym::Bool(b1 == b2)
            } else {
                Sym::Unknown
            },
            Bytecode::Neq => if a1 == a2 {
                Sym::Bool(b1 != b2)
            } else {
                Sym::Unknown
            },
            Bytecode::Lt => lin_less(a1, b1, a2, b2),
            Bytecode::LtEq => lin_at_most(a1, b1, a2, b2),
            Bytecode::Gt => lin_less(a2, b2, a1, b1),
            Bytecode::GtEq => lin_at_most(a2, b2, a1, b1),
            _ => Sym::Unknown,
        },
        _ => Sym::Unknown,
    }
}

/// Whether `a1 * v + b1 < a2 * v + b2` for every natural `v`, where the
/// coefficients decide it.
pub open spec fn lin_less(a1: usize, b1: usize, a2: usize, b2: usize) -> Sym {
    if a1 <= a2 && b1 < b2 {
        Sym::Bool(true)
    } else if a1 >= a2 && b1 >= b2 {
        Sym::Bool(false)
    } else {
        Sym::Unknown
    }
}

/// Whether `a1 * v + b1 <= a2 * v + b2` for every natural `v`, where the
/// coefficients decide it.
pub open spec fn lin_at_most(a1: usize, b1: usize, a2: usize, b2: usize) -> Sym {
    if a1 <= a2 && b1 <= b2 {
        Sym::Bool(true)
    } else if a1 >= a2 && b1 > b2 {
        Sym::Bool(false)
    } else {
        Sym::Unknown
    }
}

/// What is known of the expression at `pc` for every natural value of the
/// variable in slot 0. Calls and conditionals are not looked into.
pub open spec fn sym(code: Seq<Bytecode>, pc: nat) -> Sym
    decreases code.len() - pc,
{
    if pc >= code.len() {
        Sym::Unknown
    } else {
        let op = code[pc as int];
        match op {
            Bytecode::Int(n) => Sym::Lin(0, n),
            Bytecode::Bool(b) => Sym::Bool(b),
            Bytecode::Var(i) => if i == 0 {
                Sym::Lin(1, 0)
            } else {
                Sym::Unknown
            },
            Bytecode::Not => match sym(code, pc + 1) {
                Sym::Bool(b) => Sym::Bool(!b),
                _ => Sym::Unknown,
            },
            Bytecode::IsUint => match sym(code, pc + 1) {
                Sym::Bool(_) => Sym::Bool(false),
                Sym::Lin(_, _) => Sym::Bool(true),
                Sym::Unknown => Sym::Unknown,
            },
            Bytecode::IsBool => match sym(code, pc + 1) {
                Sym::Bool(_) => Sym::Bool(true),
                Sym::Lin(_, _) => Sym::Bool(false),
                Sym::Unknown => Sym::Unknown,
            },
            _ => if operand_count(op) == Some(2nat) {
                match expr_end(code, pc + 1) {
                    Some(second) => if pc < second <= code.len() {
                        let x = sym(code, pc + 1);
                        if is_connective(op) {
                            match x {
                                Sym::Bool(p) => match decided_by(op, p) {
                                    Some(v) => Sym::Bool(v),
                                    None => match sym(code, second) {
                                        Sym::Bool(q) => Sym::Bool(q),
                                        _ => Sym::Unknown,
                                    },
                                },
                                _ => Sym::Unknown,
                            }
                        } else {
                            sym_apply(op, x, sym(code, second))
                        }
                    } else {
                        Sym::Unknown
                    },
                    None => Sym::Unknown,
                }
            } else {
                Sym::Unknown
            },
        }
    }
}

/// The meaning, for the value `v` of the variable, of what `s` says.
pub open spec fn sym_meaning(s: Sym, v: nat) -> Option<Datum> {
    match s {
        Sym::Bool(b) => Some(Datum::Bool(b)),
        Sym::Lin(a, b) => Some(Datum::Nat(a as nat * v + b as nat)),
        Sym::Unknown => None,
    }
}

proof fn lemma_sym_apply_sound(op: Bytecode, x: Sym, y: Sym, v: nat)
    requires
        sym_meaning(x, v) is Some,
        sym_meaning(y, v) is Some,
        sym_apply(op, x, y) != Sym::Unknown,
    ensures
        apply_nat(op, sym_meaning(x, v)->Some_0, sym_meaning(y, v)->Some_0) == Outcome::Val(
            sym_meaning(sym_apply(op, x, y), v)->Some_0,
        ),
{
    match (x, y) {
        (Sym::Lin(a1, b1), Sym::Lin(a2, b2)) => {
            let (a1, b1, a2, b2) = (a1 as nat, b1 as nat, a2 as nat, b2 as nat);
            assert((a1 + a2) * v == a1 * v + a2 * v) by (nonlinear_arith);
            assert(a1 >= a2 ==> (a1 - a2) * v == a1 * v - a2 * v) by (nonlinear_arith);
            assert(a1 <= a2 ==> a1 * v <= a2 * v) by (nonlinear_arith);
            assert(a1 >= a2 ==> a1 * v >= a2 * v) by (nonlinear_arith);
            assert((0 * v + b1) * (a2 * v + b2) == (b1 * a2) * v + b1 * b2) by (nonlinear_arith);
            assert((a1 * v + b1) * (0 * v + b2) == (a1 * b2) * v + b1 * b2) by (nonlinear_arith);
            assert(a1 == a2 ==> a1 * v == a2 * v);
            if op == Bytecode::Div && a2 == 0 && b2 > 0 && a1 % b2 == 0 && b1 % b2 == 0 {
                let k1 = a1 / b2;
                let k2 = b1 / b2;
                assert(a1 == k1 * b2 && b1 == k2 * b2) by (nonlinear_arith)
                    requires
                        a1 % b2 == 0,
                        b1 % b2 == 0,
                        b2 > 0,
                        k1 == a1 / b2,
                        k2 == b1 / b2,
                ;
                assert(a1 * v + b1 == (k1 * v + k2) * b2) by (nonlinear_arith)
                    requires
                        a1 == k1 * b2,
                        b1 == k2 * b2,
                ;
                vstd::arithmetic::div_mod::lemma_div_by_multiple((k1 * v + k2) as int, b2 as int);
                assert(0 * v + b2 == b2);
            }
            if op == Bytecode::Rem && a1 == 0 && a2 == 0 && b2 > 0 {
                assert(0 * v + b1 == b1 && 0 * v + b2 == b2);
            }
        },
        _ => {},
    }
}

/// What `sym` says of an expression holds of its meaning, for every natural
/// value `v` of the variable in slot 0 and any budget.
pub proof fn lemma_sym_sound(code: Seq<Bytecode>, funs: Seq<(nat, nat)>, pc: nat, v: nat, fuel: nat)
    ensures
        sym(code, pc) != Sym::Unknown ==> eval(code, funs, pc, seq![Datum::Nat(v)], fuel)
            == Outcome::Val(sym_meaning(sym(code, pc), v)->Some_0),
    decreases code.len() - pc,
{
    if pc < code.len() {
        let op = code[pc as int];
        lemma_sym_sound(code, funs, pc + 1, v, fuel);
        match expr_end(code, pc + 1) {
            Some(second) => if pc < second <= code.len() {
                lemma_sym_sound(code, funs, second, v, fuel);
                if operand_count(op) == Some(2nat) && !is_connective(op) {
                    let x = sym(code, pc + 1);
                    let y = sym(code, second);
                    if sym_apply(op, x, y) != Sym::Unknown {
                        assert(x != Sym::Unknown && y != Sym::Unknown);
                        lemma_sym_apply_sound(op, x, y, v);
                    }
                }
            },
            None => {},
        }
        match op {
            Bytecode::Var(i) => {
                if i == 0 {
                    assert(1 * v + 0 == v);
                }
            },
            Bytecode::Int(n) => {
                assert(0 * v + n == n);
            },
            _ => {},
        }
    }
}

// ===================================================================
// Checking
// ===================================================================

/// Arity and start of body of each function declared from `pc` on, in
/// declaration order.
pub open spec fn functions(code: Seq<Bytecode>, pc: nat) -> Seq<(nat, nat)>
    decreases code.len() - pc,
{
    if pc >= code.len() {
        Seq::empty()
    } else {
        match code[pc as int] {
            Bytecode::Fun(n) | Bytecode::RecFun(n) => match expr_end(code, pc + 1) {
                Some(e) => if pc < e <= code.len() {
                    seq![(n as nat, pc + 1)] + functions(code, e)
                } else {
                    Seq::empty()
                },
                None => Seq::empty(),
            },
            Bytecode::Assert => match expr_end(code, pc + 1) {
                Some(e) => if pc < e <= code.len() {
                    functions(code, e)
                } else {
                    Seq::empty()
                },
                None => Seq::empty(),
            },
            _ => Seq::empty(),
        }
    }
}

/// The number of variable slots that the code in `[a, b)` reads.
pub open spec fn slots(code: Seq<Bytecode>, a: nat, b: nat) -> nat
    decreases b - a,
{
    if a >= b || a >= code.len() {
        0
    } else {
        let here: nat = match code[a as int] {
            Bytecode::Var(i) => (i + 1) as nat,
            _ => 0,
        };
        let rest = slots(code, a + 1, b);
        if here > rest {
            here
        } else {
            rest
        }
    }
}

/// The number of assignments of `n` variables.
pub open spec fn cases(n: nat) -> nat
    decreases n,
{
    if n == 0 {
        1
    } else {
        DOMAIN_SIZE as nat * cases((n - 1) as nat)
    }
}

/// The value that the digit `d` stands for in the search: the booleans,
/// then the unsigned integers below `UINT_BOUND`.
pub open spec fn domain_value(d: nat) -> Value {
    if d == 0 {
        Value::Bool(false)
    } else if d == 1 {
        Value::Bool(true)
    } else {
        Value::Uint((d - 2) as usize)
    }
}

/// The `k`th assignment of values to `n` variables: the digits of `k`,
/// least significant first.
pub open spec fn assignment(k: nat, n: nat) -> Seq<Value>
    decreases n,
{
    if n == 0 {
        Seq::empty()
    } else {
        seq![domain_value(k % DOMAIN_SIZE as nat)] + assignment(k / DOMAIN_SIZE as nat, (n - 1) as nat)
    }
}

/// Whether the assertion at `start`, which reads `n` variable slots, is
/// proved true under every assignment of values to them. With no variable
/// its one evaluation decides; with one variable both booleans are
/// evaluated and every unsigned value is covered by `sym`. With more
/// variables nothing is proved.
pub open spec fn proved(code: Seq<Bytecode>, funs: Seq<(nat, nat)>, start: nat, n: nat) -> bool {
    let depth = MAX_DEPTH as nat;
    let yes = Eval::Val(Value::Bool(true));
    if n == 0 {
        eval_word(code, funs, start, Seq::empty(), depth) == yes
    } else if n == 1 {
        &&& eval_word(code, funs, start, seq![Value::Bool(false)], depth) == yes
        &&& eval_word(code, funs, start, seq![Value::Bool(true)], depth) == yes
        &&& sym(code, start) == Sym::Bool(true)
    } else {
        false
    }
}

/// The search for a counterexample among the assignments from the `k`th
/// on: violated at the first one under which the assertion has a value
/// other than true, or none; out of resource when there is no such one.
pub open spec fn search(code: Seq<Bytecode>, funs: Seq<(nat, nat)>, start: nat, n: nat, k: nat) -> BoundedResult<
    (),
    (),
>
    decreases cases(n) - k,
{
    if k >= cases(n) {
        BoundedResult::OutOfResource
    } else {
        match eval_word(code, funs, start, assignment(k, n), MAX_DEPTH as nat) {
            Eval::Val(Value::Bool(true)) | Eval::Exhausted => search(code, funs, start, n, k + 1),
            _ => BoundedResult::Violated(()),
        }
    }
}

/// The verdict on the assertion whose expression starts at `start` and
/// whose variables are those read in `[start, end)`: verified when it is
/// proved true under every assignment, violated when a counterexample is
/// found among the small assignments, out of resource otherwise.
pub open spec fn verdict(code: Seq<Bytecode>, funs: Seq<(nat, nat)>, start: nat, end: nat) -> BoundedResult<
    (),
    (),
> {
    let n = slots(code, start, end);
    if proved(code, funs, start, n) {
        BoundedResult::Verified(())
    } else if n > MAX_VARS {
        BoundedResult::OutOfResource
    } else {
        search(code, funs, start, n, 0)
    }
}

/// The verdicts on the assertions from `pc` on, one for each `Assert`
/// declaration, in order. An assertion whose expression is cut off is
/// checked as far as the code goes, and ends the check; code that is not a
/// declaration ends it too.
pub open spec fn verdicts(code: Seq<Bytecode>, funs: Seq<(nat, nat)>, pc: nat) -> Seq<
    BoundedResult<(), ()>,
>
    decreases code.len() - pc,
{
    if pc >= code.len() {
        Seq::empty()
    } else {
        match code[pc as int] {
            Bytecode::Assert => match expr_end(code, pc + 1) {
                Some(e) => if pc < e <= code.len() {
                    seq![verdict(code, funs, pc + 1, e)] + verdicts(code, funs, e)
                } else {
                    seq![verdict(code, funs, pc + 1, code.len())]
                },
                None => seq![verdict(code, funs, pc + 1, code.len())],
            },
            Bytecode::Fun(_) | Bytecode::RecFun(_) => match expr_end(code, pc + 1) {
                Some(e) => if pc < e <= code.len() {
                    verdicts(code, funs, e)
                } else {
                    Seq::empty()
                },
                None => Seq::empty(),
            },
            _ => Seq::empty(),
        }
    }
}

/// Whether the assertion at `start` is true under `env`.
pub open spec fn holds_under(code: Seq<Bytecode>, funs: Seq<(nat, nat)>, start: nat, env: Seq<Datum>) -> bool {
    eval(code, funs, start, env, MAX_DEPTH as nat) == Outcome::Val(Datum::Bool(true))
}

proof fn lemma_assignment_len(k: nat, n: nat)
    ensures
        assignment(k, n).len() == n,
    decreases n,
{
    if n > 0 {
        lemma_assignment_len(k / DOMAIN_SIZE as nat, (n - 1) as nat);
    }
}

proof fn lemma_search_sound(code: Seq<Bytecode>, funs: Seq<(nat, nat)>, start: nat, n: nat, k: nat)
    ensures
        !(search(code, funs, start, n, k) is Verified),
        search(code, funs, start, n, k) is Violated ==> exists|env: Seq<Datum>|
            env.len() == n && #[trigger] eval(code, funs, start, env, MAX_DEPTH as nat)
                != Outcome::Exhausted && !holds_under(code, funs, start, env),
    decreases cases(n) - k,
{
    if k < cases(n) {
        lemma_search_sound(code, funs, start, n, k + 1);
        let asg = assignment(k, n);
        let r = eval_word(code, funs, start, asg, MAX_DEPTH as nat);
        if !(r == Eval::Val(Value::Bool(true)) || r == Eval::Exhausted) {
            lemma_eval_word_exact(code, funs, start, asg, MAX_DEPTH as nat);
            lemma_assignment_len(k, n);
            let env = data(asg);
            assert(eval(code, funs, start, env, MAX_DEPTH as nat) != Outcome::Exhausted);
        }
    }
}

/// A bounded check is sound. A verified assertion is true under every
/// assignment of values (booleans and unbounded naturals) to the variable
/// slots it reads. A violated one has an assignment under which its value is
/// known and is not true.
pub proof fn lemma_verdict_sound(code: Seq<Bytecode>, funs: Seq<(nat, nat)>, start: nat, end: nat)
    ensures
        verdict(code, funs, start, end) is Verified ==> forall|env: Seq<Datum>|
            env.len() == slots(code, start, end) ==> #[trigger] holds_under(code, funs, start, env),
        verdict(code, funs, start, end) is Violated ==> exists|env: Seq<Datum>|
            env.len() == slots(code, start, end) && #[trigger] eval(
                code,
                funs,
                start,
                env,
                MAX_DEPTH as nat,
            ) != Outcome::Exhausted && !holds_under(code, funs, start, env),
{
    let n = slots(code, start, end);
    let depth = MAX_DEPTH as nat;
    lemma_search_sound(code, funs, start, n, 0);
    if proved(code, funs, start, n) {
        assert forall|env: Seq<Datum>| env.len() == n implies #[trigger] holds_under(
            code,
            funs,
            start,
            env,
        ) by {
            if n == 0 {
                lemma_eval_word_exact(code, funs, start, Seq::empty(), depth);
                assert(env =~= data(Seq::<Value>::empty()));
            } else {
                match env[0] {
                    Datum::Bool(b) => {
                        lemma_eval_word_exact(code, funs, start, seq![Value::Bool(b)], depth);
                        assert(env =~= data(seq![Value::Bool(b)]));
                    },
                    Datum::Nat(v) => {
                        lemma_sym_sound(code, funs, start, v, depth);
                        assert(env =~= seq![Datum::Nat(v)]);
                    },
                }
            }
        }
    }
}

/// The verdicts of a bounded check of `code`.
pub open spec fn check_code(code: Seq<Bytecode>) -> Seq<BoundedResult<(), ()>> {
    verdicts(code, functions(code, 0), 0)
}

/// The function table in executable form, viewed.
pub open spec fn table_view(t: Seq<(usize, usize)>) -> Seq<(nat, nat)> {
    t.map_values(|p: (usize, usize)| (p.0 as nat, p.1 as nat))
}

// ===================================================================
// Executable checking
// ===================================================================

/// The number of operands of an expression instruction.
fn operands(op: Bytecode) -> (r: Option<usize>)
    ensures
        match operand_count(op) {
            Some(k) => r == Some(k as usize),
            None => r is None,
        },
{
    match op {
        Bytecode::Int(_) | Bytecode::Bool(_) | Bytecode::Var(_) => Some(0),
        Bytecode::Not | Bytecode::IsUint | Bytecode::IsBool => Some(1),
        Bytecode::And | Bytecode::Or | Bytecode::Implies | Bytecode::Eq | Bytecode::Neq
        | Bytecode::Lt | Bytecode::LtEq | Bytecode::Gt | Bytecode::GtEq | Bytecode::Add
        | Bytecode::Sub | Bytecode::Mul | Bytecode::Div | Bytecode::Rem => Some(2),
        Bytecode::If => Some(3),
        Bytecode::Invoke(_, n) => Some(n),
        _ => None,
    }
}

/// The end of the expression that starts at `pc`.
fn end_of_expr(code: &Vec<Bytecode>, pc: usize) -> (r: Option<usize>)
    requires
        pc <= code@.len(),
    ensures
        match expr_end(code@, pc as nat) {
            Some(e) => r matches Some(x) && x as nat == e && pc < x <= code@.len(),
            None => r is None,
        },
    decreases code@.len() - pc, 0nat,
{
    if pc >= code.len() {
        return None;
    }
    match operands(code[pc]) {
        None => None,
        Some(k) => end_of_exprs(code, pc + 1, k),
    }
}

/// The end of `k` consecutive expressions that start at `pc`.
fn end_of_exprs(code: &Vec<Bytecode>, pc: usize, k: usize) -> (r: Option<usize>)
    requires
        pc <= code@.len(),
    ensures
        match ends_of(code@, pc as nat, k as nat) {
            Some(e) => r matches Some(x) && x as nat == e && pc <= x <= code@.len(),
            None => r is None,
        },
    decreases code@.len() - pc, k + 1,
{
    if k == 0 {
        return Some(pc);
    }
    match end_of_expr(code, pc) {
        None => None,
        Some(e) => end_of_exprs(code, e, k - 1),
    }
}

/// A strict binary operation on two values.
fn apply(op: Bytecode, a: Value, b: Value) -> (r: Eval)
    ensures
        r == apply_op(op, a, b),
{
    match (a, b) {
        (Value::Uint(x), Value::Uint(y)) => match op {
            Bytecode::Eq => Eval::Val(Value::Bool(x == y)),
            Bytecode::Neq => Eval::Val(Value::Bool(x != y)),
            Bytecode::Lt => Eval::Val(Value::Bool(x < y)),
            Bytecode::LtEq => Eval::Val(Value::Bool(x <= y)),
            Bytecode::Gt => Eval::Val(Value::Bool(x > y)),
            Bytecode::GtEq => Eval::Val(Value::Bool(x >= y)),
            Bytecode::Add => if x <= usize::MAX - y {
                Eval::Val(Value::Uint(x + y))
            } else {
                Eval::Exhausted
            },
            Bytecode::Sub => if x >= y {
                Eval::Val(Value::Uint(x - y))
            } else {
                Eval::Wrong
            },
            Bytecode::Mul => if y == 0 || x <= usize::MAX / y {
                proof {
                    if y != 0 {
                        assert(x * y <= (usize::MAX / y) * y) by (nonlinear_arith)
                            requires
                                x <= usize::MAX / y,
                                y > 0,
                        ;
                        assert((usize::MAX / y) * y <= usize::MAX) by (nonlinear_arith)
                            requires
                                y > 0,
                        ;
                    }
                }
                Eval::Val(Value::Uint(x * y))
            } else {
                proof {
                    assert(x * y > usize::MAX) by (nonlinear_arith)
                        requires
                            x > usize::MAX / y,
                            y > 0,
                    ;
                }
                Eval::Exhausted
            },
            Bytecode::Div => if y != 0 {
                Eval::Val(Value::Uint(x / y))
            } else {
                Eval::Wrong
            },
            Bytecode::Rem => if y != 0 {
                Eval::Val(Value::Uint(x % y))
            } else {
                Eval::Wrong
            },
            _ => Eval::Wrong,
        },
        (Value::Bool(x), Value::Bool(y)) => match op {
            Bytecode::Eq => Eval::Val(Value::Bool(x == y)),
            Bytecode::Neq => Eval::Val(Value::Bool(x != y)),
            _ => Eval::Wrong,
        },
        _ => Eval::Wrong,
    }
}

fn connective(op: Bytecode) -> (r: bool)
    ensures
        r == is_connective(op),
{
    match op {
        Bytecode::And | Bytecode::Or | Bytecode::Implies => true,
        _ => false,
    }
}

fn decide(op: Bytecode, first: bool) -> (r: Option<bool>)
    ensures
        r == decided_by(op, first),
{
    match op {
        Bytecode::And => if !first { Some(false) } else { None },
        Bytecode::Or => if first { Some(true) } else { None },
        Bytecode::Implies => if !first { Some(true) } else { None },
        _ => None,
    }
}

/// Evaluates the expression at `pc`.
fn evaluate(
    code: &Vec<Bytecode>,
    funs: &Vec<(usize, usize)>,
    pc: usize,
    env: &Vec<Value>,
    fuel: usize,
) -> (r: Eval)
    requires
        pc <= code@.len(),
        forall|f: int| 0 <= f < funs@.len() ==> funs@[f].1 <= code@.len(),
    ensures
        r == eval_word(code@, table_view(funs@), pc as nat, env@, fuel as nat),
    decreases fuel, code@.len() - pc, 0nat,
{
    if pc >= code.len() {
        return Eval::Wrong;
    }
    let op = code[pc];
    match op {
        Bytecode::Int(n) => Eval::Val(Value::Uint(n)),
        Bytecode::Bool(b) => Eval::Val(Value::Bool(b)),
        Bytecode::Var(i) => if i < env.len() {
            Eval::Val(env[i])
        } else {
            Eval::Wrong
        },
        Bytecode::Not => match evaluate(code, funs, pc + 1, env, fuel) {
            Eval::Val(Value::Bool(b)) => Eval::Val(Value::Bool(!b)),
            Eval::Val(_) => Eval::Wrong,
            o => o,
        },
        Bytecode::IsUint => match evaluate(code, funs, pc + 1, env, fuel) {
            Eval::Val(v) => Eval::Val(Value::Bool(matches!(v, Value::Uint(_)))),
            o => o,
        },
        Bytecode::IsBool => match evaluate(code, funs, pc + 1, env, fuel) {
            Eval::Val(v) => Eval::Val(Value::Bool(matches!(v, Value::Bool(_)))),
            o => o,
        },
        Bytecode::If => match evaluate(code, funs, pc + 1, env, fuel) {
            Eval::Val(Value::Bool(c)) => match end_of_expr(code, pc + 1) {
                Some(second) => if c {
                    evaluate(code, funs, second, env, fuel)
                } else {
                    match end_of_expr(code, second) {
                        Some(third) => evaluate(code, funs, third, env, fuel),
                        None => Eval::Wrong,
                    }
                },
                None => Eval::Wrong,
            },
            Eval::Val(_) => Eval::Wrong,
            o => o,
        },
        Bytecode::Invoke(f, n) => if f < funs.len() && funs[f].0 == n {
            if fuel == 0 {
                Eval::Exhausted
            } else {
                match evaluate_args(code, funs, pc + 1, n, env, fuel) {
                    Ok(args) => evaluate(code, funs, funs[f].1, &args, fuel - 1),
                    Err(o) => o,
                }
            }
        } else {
            Eval::Wrong
        },
        _ => if operands(op) == Some(2usize) {
            match evaluate(code, funs, pc + 1, env, fuel) {
                Eval::Val(a) => match end_of_expr(code, pc + 1) {
                    Some(second) => if connective(op) {
                        match a {
                            Value::Bool(x) => match decide(op, x) {
                                Some(v) => Eval::Val(Value::Bool(v)),
                                None => match evaluate(code, funs, second, env, fuel) {
                                    Eval::Val(Value::Bool(y)) => Eval::Val(Value::Bool(y)),
                                    Eval::Val(_) => Eval::Wrong,
                                    o => o,
                                },
                            },
                            _ => Eval::Wrong,
                        }
                    } else {
                        match evaluate(code, funs, second, env, fuel) {
                            Eval::Val(b) => apply(op, a, b),
                            o => o,
                        }
                    },
                    None => Eval::Wrong,
                },
                o => o,
            }
        } else {
            Eval::Wrong
        },
    }
}

/// Evaluates the `k` consecutive expressions that start at `pc`.
fn evaluate_args(
    code: &Vec<Bytecode>,
    funs: &Vec<(usize, usize)>,
    pc: usize,
    k: usize,
    env: &Vec<Value>,
    fuel: usize,
) -> (r: Result<Vec<Value>, Eval>)
    requires
        pc <= code@.len(),
        forall|f: int| 0 <= f < funs@.len() ==> funs@[f].1 <= code@.len(),
    ensures
        match eval_word_args(code@, table_view(funs@), pc as nat, k as nat, env@, fuel as nat) {
            Ok(vs) => r matches Ok(v) && v@ == vs,
            Err(o) => r == Err::<Vec<Value>, Eval>(o),
        },
    decreases fuel, code@.len() - pc, k + 1,
{
    if k == 0 {
        return Ok(Vec::new());
    }
    match evaluate(code, funs, pc, env, fuel) {
        Eval::Val(v) => match end_of_expr(code, pc) {
            Some(e) => match evaluate_args(code, funs, e, k - 1, env, fuel) {
                Ok(rest) => {
                    let mut rest = rest;
                    let ghost tail = rest@;
                    rest.insert(0, v);
                    assert(rest@ =~= seq![v] + tail);
                    Ok(rest)
                },
                Err(o) => Err(o),
            },
            None => Err(Eval::Wrong),
        },
        o => Err(o),
    }
}

/// The functions declared in `code`: arity and start of body, in order.
fn function_table(code: &Vec<Bytecode>) -> (r: Vec<(usize, usize)>)
    ensures
        table_view(r@) == functions(code@, 0),
        forall|f: int| 0 <= f < r@.len() ==> r@[f].1 <= code@.len(),
{
    let mut table: Vec<(usize, usize)> = Vec::new();
    let mut pc: usize = 0;
    let total = code.len();
    loop
        invariant
            total == code@.len(),
            pc <= total,
            table_view(table@) + functions(code@, pc as nat) == functions(code@, 0),
            forall|f: int| 0 <= f < table@.len() ==> table@[f].1 <= code@.len(),
        decreases total - pc,
    {
        if pc >= total {
            assert(table_view(table@) + functions(code@, pc as nat) =~= table_view(table@));
            return table;
        }
        match code[pc] {
            Bytecode::Fun(n) | Bytecode::RecFun(n) => match end_of_expr(code, pc + 1) {
                Some(e) => {
                    let ghost before = table@;
                    table.push((n, pc + 1));
                    assert(table_view(table@) =~= table_view(before) + seq![(n as nat, (pc + 1) as nat)]);
                    assert(table_view(table@) + functions(code@, e as nat) =~= table_view(before)
                        + functions(code@, pc as nat));
                    pc = e;
                },
                None => {
                    assert(table_view(table@) + functions(code@, pc as nat) =~= table_view(table@));
                    return table;
                },
            },
            Bytecode::Assert => match end_of_expr(code, pc + 1) {
                Some(e) => {
                    pc = e;
                },
                None => {
                    assert(table_view(table@) + functions(code@, pc as nat) =~= table_view(table@));
                    return table;
                },
            },
            _ => {
                assert(table_view(table@) + functions(code@, pc as nat) =~= table_view(table@));
                return table;
            },
        }
    }
}

/// The number of variable slots that the code in `[a, b)` reads, or
/// `MAX_VARS + 1` where that is more.
fn slot_count(code: &Vec<Bytecode>, a: usize, b: usize) -> (r: usize)
    requires
        a <= b <= code@.len(),
    ensures
        r == (if slots(code@, a as nat, b as nat) > MAX_VARS + 1 {
            (MAX_VARS + 1) as nat
        } else {
            slots(code@, a as nat, b as nat)
        }),
{
    let cap: usize = MAX_VARS + 1;
    let mut acc: usize = 0;
    let mut i: usize = b;
    while i > a
        invariant
            a <= i <= b <= code@.len(),
            cap == MAX_VARS + 1,
            acc == (if slots(code@, i as nat, b as nat) > cap { cap as nat } else { slots(code@, i as nat, b as nat) }),
        decreases i,
    {
        i -= 1;
        let here: usize = match code[i] {
            Bytecode::Var(j) => if j >= MAX_VARS { cap } else { j + 1 },
            _ => 0,
        };
        if here > acc {
            acc = here;
        }
    }
    acc
}

/// The number of assignments of up to `MAX_VARS` variables.
proof fn lemma_cases_table()
    ensures
        cases(0) == 1,
        cases(1) == 10,
        cases(2) == 100,
        cases(3) == 1000,
        cases(4) == 10000,
{
    reveal_with_fuel(cases, 5);
}

fn domain_value_of(d: usize) -> (r: Value)
    requires
        d < DOMAIN_SIZE,
    ensures
        r == domain_value(d as nat),
{
    if d == 0 {
        Value::Bool(false)
    } else if d == 1 {
        Value::Bool(true)
    } else {
        Value::Uint(d - 2)
    }
}

/// The `k`th assignment of values to `n` variables.
fn assignment_of(k: usize, n: usize) -> (r: Vec<Value>)
    ensures
        r@ == assignment(k as nat, n as nat),
{
    let mut env: Vec<Value> = Vec::new();
    let mut rest: usize = k;
    let mut j: usize = 0;
    while j < n
        invariant
            j <= n,
            env@ + assignment(rest as nat, (n - j) as nat) == assignment(k as nat, n as nat),
        decreases n - j,
    {
        let ghost before = env@;
        env.push(domain_value_of(rest % DOMAIN_SIZE));
        assert(assignment(rest as nat, (n - j) as nat) == seq![domain_value((rest % DOMAIN_SIZE) as nat)]
            + assignment((rest / DOMAIN_SIZE) as nat, (n - j - 1) as nat));
        assert(env@ + assignment((rest / DOMAIN_SIZE) as nat, (n - j - 1) as nat) =~= before
            + assignment(rest as nat, (n - j) as nat));
        rest = rest / DOMAIN_SIZE;
        j += 1;
    }
    assert(env@ + assignment(rest as nat, 0) =~= env@);
    env
}

fn less(a1: usize, b1: usize, a2: usize, b2: usize) -> (r: Sym)
    ensures
        r == lin_less(a1, b1, a2, b2),
{
    if a1 <= a2 && b1 < b2 {
        Sym::Bool(true)
    } else if a1 >= a2 && b1 >= b2 {
        Sym::Bool(false)
    } else {
        Sym::Unknown
    }
}

fn at_most(a1: usize, b1: usize, a2: usize, b2: usize) -> (r: Sym)
    ensures
        r == lin_at_most(a1, b1, a2, b2),
{
    if a1 <= a2 && b1 <= b2 {
        Sym::Bool(true)
    } else if a1 >= a2 && b1 > b2 {
        Sym::Bool(false)
    } else {
        Sym::Unknown
    }
}

/// A strict binary operation on what is known of its operands.
fn combine(op: Bytecode, x: Sym, y: Sym) -> (r: Sym)
    ensures
        r == sym_apply(op, x, y),
{
    match (x, y) {
        (Sym::Bool(p), Sym::Bool(q)) => match op {
            Bytecode::Eq => Sym::Bool(p == q),
            Bytecode::Neq => Sym::Bool(p != q),
            _ => Sym::Unknown,
        },
        (Sym::Lin(a1, b1), Sym::Lin(a2, b2)) => match op {
            Bytecode::Add => if a1 <= usize::MAX - a2 && b1 <= usize::MAX - b2 {
                Sym::Lin(a1 + a2, b1 + b2)
            } else {
                Sym::Unknown
            },
            Bytecode::Sub => if a1 >= a2 && b1 >= b2 {
                Sym::Lin(a1 - a2, b1 - b2)
            } else {
                Sym::Unknown
            },
            Bytecode::Mul => {
                if a1 == 0 {
                    match (b1.checked_mul(a2), b1.checked_mul(b2)) {
                        (Some(c), Some(d)) => {
                            return Sym::Lin(c, d);
                        },
                        _ => {},
                    }
                }
                if a2 == 0 {
                    match (a1.checked_mul(b2), b1.checked_mul(b2)) {
                        (Some(c), Some(d)) => {
                            return Sym::Lin(c, d);
                        },
                        _ => {},
                    }
                }
                Sym::Unknown
            },
            Bytecode::Div => if a2 == 0 && b2 > 0 && a1 % b2 == 0 && b1 % b2 == 0 {
                Sym::Lin(a1 / b2, b1 / b2)
            } else {
                Sym::Unknown
            },
            Bytecode::Rem => if a1 == 0 && a2 == 0 && b2 > 0 {
                Sym::Lin(0, b1 % b2)
            } else {
                Sym::Unknown
            },
            Bytecode::Eq => if a1 == a2 {
                Sym::Bool(b1 == b2)
            } else {
                Sym::Unknown
            },
            Bytecode::Neq => if a1 == a2 {
                Sym::Bool(b1 != b2)
            } else {
                Sym::Unknown
            },
            Bytecode::Lt => less(a1, b1, a2, b2),
            Bytecode::LtEq => at_most(a1, b1, a2, b2),
            Bytecode::Gt => less(a2, b2, a1, b1),
            Bytecode::GtEq => at_most(a2, b2, a1, b1),
            _ => Sym::Unknown,
        },
        _ => Sym::Unknown,
    }
}

/// What is known of the expression at `pc` for every natural value of the
/// variable in slot 0.
fn symbolic(code: &Vec<Bytecode>, pc: usize) -> (r: Sym)
    requires
        pc <= code@.len(),
    ensures
        r == sym(code@, pc as nat),
    decreases code@.len() - pc,
{
    if pc >= code.len() {
        return Sym::Unknown;
    }
    let op = code[pc];
    match op {
        Bytecode::Int(n) => Sym::Lin(0, n),
        Bytecode::Bool(b) => Sym::Bool(b),
        Bytecode::Var(i) => if i == 0 {
            Sym::Lin(1, 0)
        } else {
            Sym::Unknown
        },
        Bytecode::Not => match symbolic(code, pc + 1) {
            Sym::Bool(b) => Sym::Bool(!b),
            _ => Sym::Unknown,
        },
        Bytecode::IsUint => match symbolic(code, pc + 1) {
            Sym::Bool(_) => Sym::Bool(false),
            Sym::Lin(_, _) => Sym::Bool(true),
            Sym::Unknown => Sym::Unknown,
        },
        Bytecode::IsBool => match symbolic(code, pc + 1) {
            Sym::Bool(_) => Sym::Bool(true),
            Sym::Lin(_, _) => Sym::Bool(false),
            Sym::Unknown => Sym::Unknown,
        },
        _ => if operands(op) == Some(2usize) {
            match end_of_expr(code, pc + 1) {
                Some(second) => {
                    let x = symbolic(code, pc + 1);
                    if connective(op) {
                        match x {
                            Sym::Bool(p) => match decide(op, p) {
                                Some(v) => Sym::Bool(v),
                                None => match symbolic(code, second) {
                                    Sym::Bool(q) => Sym::Bool(q),
                                    _ => Sym::Unknown,
                                },
                            },
                            _ => Sym::Unknown,
                        }
                    } else {
                        combine(op, x, symbolic(code, second))
                    }
                },
                None => Sym::Unknown,
            }
        } else {
            Sym::Unknown
        },
    }
}

/// The verdict on the assertion that starts at `start`, with its variables
/// read in `[start, end)`.
fn verdict_on(code: &Vec<Bytecode>, funs: &Vec<(usize, usize)>, start: usize, end: usize) -> (r: BoundedResult<(), ()>)
    requires
        start <= end <= code@.len(),
        forall|f: int| 0 <= f < funs@.len() ==> funs@[f].1 <= code@.len(),
    ensures
        r == verdict(code@, table_view(funs@), start as nat, end as nat),
{
    let n = slot_count(code, start, end);
    let yes = Eval::Val(Value::Bool(true));
    if n == 0 {
        let none: Vec<Value> = Vec::new();
        if evaluate(code, funs, start, &none, MAX_DEPTH) == yes {
            return BoundedResult::Verified(());
        }
    } else if n == 1 {
        let mut no: Vec<Value> = Vec::new();
        no.push(Value::Bool(false));
        let mut so: Vec<Value> = Vec::new();
        so.push(Value::Bool(true));
        proof {
            assert(no@ =~= seq![Value::Bool(false)]);
            assert(so@ =~= seq![Value::Bool(true)]);
        }
        if evaluate(code, funs, start, &no, MAX_DEPTH) == yes && evaluate(code, funs, start, &so, MAX_DEPTH)
            == yes && symbolic(code, start) == Sym::Bool(true) {
            return BoundedResult::Verified(());
        }
    }
    if n > MAX_VARS {
        return BoundedResult::OutOfResource;
    }
    proof {
        lemma_cases_table();
    }
    let mut total: usize = 1;
    let mut j: usize = 0;
    while j < n
        invariant
            j <= n <= MAX_VARS,
            total == cases(j as nat),
            cases(0) == 1 && cases(1) == 10 && cases(2) == 100 && cases(3) == 1000 && cases(4) == 10000,
        decreases n - j,
    {
        total = total * DOMAIN_SIZE;
        j += 1;
    }
    let mut k: usize = 0;
    while k < total
        invariant
            total == cases(n as nat),
            k <= total,
            start <= code@.len(),
            forall|f: int| 0 <= f < funs@.len() ==> funs@[f].1 <= code@.len(),
            verdict(code@, table_view(funs@), start as nat, end as nat) == search(
                code@,
                table_view(funs@),
                start as nat,
                n as nat,
                k as nat,
            ),
        decreases total - k,
    {
        let env = assignment_of(k, n);
        match evaluate(code, funs, start, &env, MAX_DEPTH) {
            Eval::Val(Value::Bool(true)) | Eval::Exhausted => {},
            _ => {
                return BoundedResult::Violated(());
            },
        }
        k += 1;
    }
    BoundedResult::OutOfResource
}

// ===================================================================
// Programs
// ===================================================================

/// A compiled program: an immutable sequence of declarations in prefix
/// bytecode.
pub struct Program {
    bytecodes: Vec<Bytecode>,
}

impl Program {
    /// The program's code.
    pub closed spec fn code(&self) -> Seq<Bytecode> {
        self.bytecodes@
    }

    /// A program with the given code.
    pub fn new(bytecodes: Vec<Bytecode>) -> (r: Self)
        ensures
            r.code() == bytecodes@,
    {
        Program { bytecodes }
    }

    /// Compiles source text into a program.
    pub fn from_source(input: &str) -> (r: Result<Program, SyntaxError>)
        ensures
            match compile(input@) {
                Ok(c) => r matches Ok(p) && p.code() == c,
                Err(e) => r matches Err(e2) && e2 == e,
            },
    {
        let parser = Parser::new(input);
        let bytecodes = parser.parse()?;
        Ok(Program::new(bytecodes))
    }

    /// Checks every assertion of the program within the bound, in order.
    pub fn check(&self) -> (r: Vec<BoundedResult<(), ()>>)
        ensures
            r@ == check_code(self.code()),
    {
        let code = &self.bytecodes;
        let funs = function_table(code);
        let ghost fv = table_view(funs@);
        let mut out: Vec<BoundedResult<(), ()>> = Vec::new();
        let mut pc: usize = 0;
        let total = code.len();
        loop
            invariant
                total == code@.len(),
                code@ == self.code(),
                pc <= total,
                fv == table_view(funs@),
                fv == functions(code@, 0),
                forall|f: int| 0 <= f < funs@.len() ==> funs@[f].1 <= code@.len(),
                out@ + verdicts(code@, fv, pc as nat) == check_code(code@),
            decreases total - pc,
        {
            let ghost before = out@;
            if pc >= total {
                assert(out@ + verdicts(code@, fv, pc as nat) =~= out@);
                return out;
            }
            match code[pc] {
                Bytecode::Assert => match end_of_expr(code, pc + 1) {
                    Some(e) => {
                        out.push(verdict_on(code, &funs, pc + 1, e));
                        assert(out@ + verdicts(code@, fv, e as nat) =~= before + verdicts(
                            code@,
                            fv,
                            pc as nat,
                        ));
                        pc = e;
                    },
                    None => {
                        out.push(verdict_on(code, &funs, pc + 1, total));
                        assert(out@ =~= before + verdicts(code@, fv, pc as nat));
                        return out;
                    },
                },
                Bytecode::Fun(_) | Bytecode::RecFun(_) => match end_of_expr(code, pc + 1) {
                    Some(e) => {
                        pc = e;
                    },
                    None => {
                        assert(out@ =~= before + verdicts(code@, fv, pc as nat));
                        return out;
                    },
                },
                _ => {
                    assert(out@ =~= before + verdicts(code@, fv, pc as nat));
                    return out;
                },
            }
        }
    }
}

impl std::str::FromStr for Program {
    type Err = SyntaxError;

    /// Compiles source text into a program.
    fn from_str(input: &str) -> Result<Self, SyntaxError> {
        Program::from_source(input)
    }
}

} // verus!
