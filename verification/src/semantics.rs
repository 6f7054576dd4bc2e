use crate::ast::{ExprView, Pattern};
use crate::lower::{binary_op, has_wildcard, predicate_of};
use crate::machine::{arithmetic, bit, holds};
use vstd::prelude::*;

verus! {

/// What an expression is evaluated in: the variables in scope with their
/// values, innermost last, and what has been printed.
pub ghost struct State {
    pub env: Seq<(Seq<char>, i64)>,
    pub printed: Seq<i64>,
}

/// How the evaluation of an expression ends.
pub ghost enum Evaluation {
    /// With a value, in a state.
    Value { value: i64, state: State },
    /// The expression has no meaning: it reads or assigns a variable that is
    /// not in scope, calls what is no built-in, divides by zero or beyond
    /// the range, declares parameters, or matches without a wildcard.
    Undefined,
    /// The loops of the expression would take more rounds than it was
    /// given.
    OutOfFuel,
}

/// The place of the innermost variable of the given name.
pub open spec fn find(env: Seq<(Seq<char>, i64)>, name: Seq<char>) -> Option<int>
    decreases env.len(),
{
    if env.len() == 0 {
        None
    } else if env.last().0 == name {
        Some(env.len() - 1)
    } else {
        find(env.drop_last(), name)
    }
}

impl State {
    /// The state before a program: no variable, nothing printed.
    pub open spec fn empty() -> State {
        State { env: Seq::empty(), printed: Seq::empty() }
    }

    /// With `value` printed.
    pub open spec fn print(self, value: i64) -> State {
        State { printed: self.printed.push(value), ..self }
    }

    /// With `value` in the variable at the place `i`.
    pub open spec fn assign(self, i: int, value: i64) -> State {
        State { env: self.env.update(i, (self.env[i].0, value)), ..self }
    }

    /// With a new innermost variable.
    pub open spec fn declare(self, name: Seq<char>, value: i64) -> State {
        State { env: self.env.push((name, value)), ..self }
    }

    /// Without the innermost variable.
    pub open spec fn leave(self) -> State {
        State { env: self.env.drop_last(), ..self }
    }
}

/// The value of the expression `e` in the state `s`, and the state behind
/// it, where no loop in it is repeated more than `fuel` times in a row.
pub open spec fn eval(e: ExprView, s: State, fuel: nat) -> Evaluation
    decreases fuel, e, 0nat,
{
    match e {
        ExprView::Number(n) => Evaluation::Value { value: n, state: s },
        ExprView::Ident(name) => match find(s.env, name) {
            Some(i) => Evaluation::Value { value: s.env[i].1, state: s },
            None => Evaluation::Undefined,
        },
        ExprView::Call(head, args) => {
            if head == "print"@ && args.len() == 1 {
                match eval(args[0], s, fuel) {
                    Evaluation::Value { value, state } => Evaluation::Value {
                        value,
                        state: state.print(value),
                    },
                    other => other,
                }
            } else if binary_op(head) is Some && args.len() == 2 {
                match eval(args[0], s, fuel) {
                    Evaluation::Value { value: a, state: s1 } => match eval(args[1], s1, fuel) {
                        Evaluation::Value { value: b, state: s2 } => match arithmetic(
                            binary_op(head)->0,
                            a,
                            b,
                        ) {
                            Some(value) => Evaluation::Value { value, state: s2 },
                            None => Evaluation::Undefined,
                        },
                        other => other,
                    },
                    other => other,
                }
            } else if predicate_of(head) is Some && args.len() == 2 {
                match eval(args[0], s, fuel) {
                    Evaluation::Value { value: a, state: s1 } => match eval(args[1], s1, fuel) {
                        Evaluation::Value { value: b, state: s2 } => Evaluation::Value {
                            value: bit(holds(predicate_of(head)->0, a, b)),
                            state: s2,
                        },
                        other => other,
                    },
                    other => other,
                }
            } else {
                Evaluation::Undefined
            }
        },
        ExprView::Sequence(first, second) => match eval(*first, s, fuel) {
            Evaluation::Value { state, .. } => eval(*second, state, fuel),
            other => other,
        },
        ExprView::Assign(name, value) => match eval(*value, s, fuel) {
            Evaluation::Value { value: v, state } => match find(state.env, name) {
                Some(i) => Evaluation::Value { value: v, state: state.assign(i, v) },
                None => Evaluation::Undefined,
            },
            other => other,
        },
        ExprView::Decl(name, params, value, body) => {
            if params.len() > 0 {
                Evaluation::Undefined
            } else {
                match eval(*value, s, fuel) {
                    Evaluation::Value { value: v, state } => match eval(
                        *body,
                        state.declare(name, v),
                        fuel,
                    ) {
                        Evaluation::Value { value: result, state: inner } => Evaluation::Value {
                            value: result,
                            state: inner.leave(),
                        },
                        other => other,
                    },
                    other => other,
                }
            }
        },
        ExprView::While(cond, body) => match eval(*cond, s, fuel) {
            Evaluation::Value { value: c, state: s1 } => {
                if c == 0 {
                    Evaluation::Value { value: 0, state: s1 }
                } else {
                    match eval(*body, s1, fuel) {
                        Evaluation::Value { state: s2, .. } => {
                            if fuel == 0 {
                                Evaluation::OutOfFuel
                            } else {
                                eval(e, s2, (fuel - 1) as nat)
                            }
                        },
                        other => other,
                    }
                }
            },
            other => other,
        },
        ExprView::Match(scrutinee, arms) => {
            if !has_wildcard(arms) {
                Evaluation::Undefined
            } else {
                match eval(*scrutinee, s, fuel) {
                    Evaluation::Value { value, state } => eval_arms(arms, 0, value, state, fuel),
                    other => other,
                }
            }
        },
    }
}

/// The value of the first arm from the arm `i` on whose pattern matches
/// `scrutinee`.
pub open spec fn eval_arms(
    arms: Seq<(Pattern, ExprView)>,
    i: int,
    scrutinee: i64,
    s: State,
    fuel: nat,
) -> Evaluation
    decreases fuel, arms, arms.len() - i,
{
    if i < 0 || i >= arms.len() {
        Evaluation::Undefined
    } else if arms[i].0.admits(scrutinee) {
        eval(arms[i].1, s, fuel)
    } else {
        eval_arms(arms, i + 1, scrutinee, s, fuel)
    }
}

/// The value of a program and what it prints.
pub open spec fn eval_program(e: ExprView, fuel: nat) -> Evaluation {
    eval(e, State::empty(), fuel)
}

} // verus!
