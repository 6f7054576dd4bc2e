use crate::ast::{ExprView, Pattern};
use crate::correctness::{gives, lemma_run_shows_program, theorem_code_computes_program};
use crate::frame::lemma_code_is_bounded;
use crate::ir::{Function, FunctionView, Predicate};
use crate::lower::{binary_op, has_wildcard, lower_program, predicate_of, LowerError};
use crate::machine::{execution, holds, Outcome};
use crate::semantics::{eval, eval_arms, eval_program, find, Evaluation, State};
use vstd::prelude::*;

verus! {

/// Whether two environments hold the same variables in the same places.
pub open spec fn same_names(a: Seq<(Seq<char>, i64)>, b: Seq<(Seq<char>, i64)>) -> bool {
    &&& a.len() == b.len()
    &&& forall|i: int| 0 <= i < a.len() ==> (#[trigger] a[i]).0 == b[i].0
}

/// Scoping is lexical: behind an expression the same variables are in scope
/// as before it, in the same places.
pub proof fn law_scope_is_restored(e: ExprView, s: State, fuel: nat)
    requires
        eval(e, s, fuel) is Value,
    ensures
        same_names(s.env, eval(e, s, fuel)->state.env),
    decreases fuel, e, 1nat,
{
    match e {
        ExprView::Number(_) => {},
        ExprView::Ident(_) => {},
        ExprView::Call(head, args) => {
            if head == "print"@ && args.len() == 1 {
                law_scope_is_restored(args[0], s, fuel);
            } else {
                law_scope_is_restored(args[0], s, fuel);
                let s1 = eval(args[0], s, fuel)->state;
                law_scope_is_restored(args[1], s1, fuel);
                lemma_same_names_then(s.env, s1.env, eval(args[1], s1, fuel)->state.env);
            }
        },
        ExprView::Sequence(first, second) => {
            law_scope_is_restored(*first, s, fuel);
            let s1 = eval(*first, s, fuel)->state;
            law_scope_is_restored(*second, s1, fuel);
            lemma_same_names_then(s.env, s1.env, eval(*second, s1, fuel)->state.env);
        },
        ExprView::Assign(name, value) => {
            law_scope_is_restored(*value, s, fuel);
            let s1 = eval(*value, s, fuel)->state;
            lemma_find_in_range(s1.env, name);
        },
        ExprView::Decl(name, _, value, body) => {
            law_scope_is_restored(*value, s, fuel);
            let s1 = eval(*value, s, fuel)->state;
            let v = eval(*value, s, fuel)->value;
            law_scope_is_restored(*body, s1.declare(name, v), fuel);
            let s2 = eval(*body, s1.declare(name, v), fuel)->state;
            assert forall|i: int| 0 <= i < s.env.len() implies (#[trigger] s.env[i]).0
                == s2.leave().env[i].0 by {
                assert(s1.declare(name, v).env[i] == s1.env[i]);
                assert(s.env[i].0 == s1.env[i].0);
                assert(s1.declare(name, v).env[i].0 == s2.env[i].0);
            }
        },
        ExprView::While(cond, body) => {
            law_scope_is_restored(*cond, s, fuel);
            let s1 = eval(*cond, s, fuel)->state;
            if eval(*cond, s, fuel)->value != 0 {
                law_scope_is_restored(*body, s1, fuel);
                let s2 = eval(*body, s1, fuel)->state;
                law_scope_is_restored(e, s2, (fuel - 1) as nat);
                lemma_same_names_then(s.env, s1.env, s2.env);
                lemma_same_names_then(s.env, s2.env, eval(e, s2, (fuel - 1) as nat)->state.env);
            }
        },
        ExprView::Match(scrutinee, arms) => {
            law_scope_is_restored(*scrutinee, s, fuel);
            let s1 = eval(*scrutinee, s, fuel)->state;
            let v = eval(*scrutinee, s, fuel)->value;
            lemma_arms_restore_scope(arms, 0, v, s1, fuel);
            lemma_same_names_then(s.env, s1.env, eval_arms(arms, 0, v, s1, fuel)->state.env);
        },
    }
}

proof fn lemma_arms_restore_scope(
    arms: Seq<(Pattern, ExprView)>,
    i: int,
    v: i64,
    s: State,
    fuel: nat,
)
    requires
        eval_arms(arms, i, v, s, fuel) is Value,
    ensures
        same_names(s.env, eval_arms(arms, i, v, s, fuel)->state.env),
    decreases fuel, arms, arms.len() - i,
{
    if arms[i].0.admits(v) {
        law_scope_is_restored(arms[i].1, s, fuel);
    } else {
        lemma_arms_restore_scope(arms, i + 1, v, s, fuel);
    }
}

proof fn lemma_same_names_then(
    a: Seq<(Seq<char>, i64)>,
    b: Seq<(Seq<char>, i64)>,
    c: Seq<(Seq<char>, i64)>,
)
    requires
        same_names(a, b),
        same_names(b, c),
    ensures
        same_names(a, c),
{
    assert forall|i: int| 0 <= i < a.len() implies (#[trigger] a[i]).0 == c[i].0 by {
        assert(a[i].0 == b[i].0);
        assert(b[i].0 == c[i].0);
    }
}

proof fn lemma_find_in_range(env: Seq<(Seq<char>, i64)>, name: Seq<char>)
    ensures
        find(env, name) matches Some(i) ==> 0 <= i < env.len() && env[i].0 == name,
    decreases env.len(),
{
    if env.len() > 0 && env.last().0 != name {
        lemma_find_in_range(env.drop_last(), name);
    }
}

/// Shadowing: in `decl x <- e1 in decl x <- e2 in x` the name stands for
/// the inner variable: the value of the whole is the value of `e2`.
pub proof fn law_inner_declaration_shadows(
    x: Seq<char>,
    e1: ExprView,
    e2: ExprView,
    s: State,
    fuel: nat,
)
    requires
        eval(e1, s, fuel) is Value,
        eval(e2, eval(e1, s, fuel)->state.declare(x, eval(e1, s, fuel)->value), fuel) is Value,
    ensures
        ({
            let inner = ExprView::Decl(x, Seq::empty(), Box::new(e2), Box::new(ExprView::Ident(x)));
            let outer = ExprView::Decl(x, Seq::empty(), Box::new(e1), Box::new(inner));
            let s1 = eval(e1, s, fuel)->state.declare(x, eval(e1, s, fuel)->value);
            eval(outer, s, fuel) matches Evaluation::Value { value, .. } && value == eval(
                e2,
                s1,
                fuel,
            )->value
        }),
{
    let inner = ExprView::Decl(x, Seq::empty(), Box::new(e2), Box::new(ExprView::Ident(x)));
    let s1 = eval(e1, s, fuel)->state.declare(x, eval(e1, s, fuel)->value);
    let s2 = eval(e2, s1, fuel)->state;
    let v2 = eval(e2, s1, fuel)->value;
    assert(find(s2.declare(x, v2).env, x) == Some(s2.env.len() as int));
    assert(eval(ExprView::Ident(x), s2.declare(x, v2), fuel) == (Evaluation::Value {
        value: v2,
        state: s2.declare(x, v2),
    }));
    assert(eval(inner, s1, fuel) matches Evaluation::Value { value, .. } && value == v2);
}

/// Shadowing ends with the inner declaration: in
/// `decl x <- e1 in (decl x <- e2 in x) ; x` the last `x` stands for the
/// outer variable again, and the value of the whole is what that variable
/// holds behind `e2`.
pub proof fn law_outer_declaration_returns(
    x: Seq<char>,
    e1: ExprView,
    e2: ExprView,
    s: State,
    fuel: nat,
)
    requires
        eval(e1, s, fuel) is Value,
        eval(e2, eval(e1, s, fuel)->state.declare(x, eval(e1, s, fuel)->value), fuel) is Value,
    ensures
        ({
            let inner = ExprView::Decl(x, Seq::empty(), Box::new(e2), Box::new(ExprView::Ident(x)));
            let sequel = ExprView::Sequence(Box::new(inner), Box::new(ExprView::Ident(x)));
            let outer = ExprView::Decl(x, Seq::empty(), Box::new(e1), Box::new(sequel));
            let s1 = eval(e1, s, fuel)->state.declare(x, eval(e1, s, fuel)->value);
            let s2 = eval(e2, s1, fuel)->state;
            &&& s2.env.len() == s1.env.len()
            &&& s2.env.last().0 == x
            &&& eval(outer, s, fuel) matches Evaluation::Value { value, .. } && value
                == s2.env.last().1
        }),
{
    let inner = ExprView::Decl(x, Seq::empty(), Box::new(e2), Box::new(ExprView::Ident(x)));
    let sequel = ExprView::Sequence(Box::new(inner), Box::new(ExprView::Ident(x)));
    let s1 = eval(e1, s, fuel)->state.declare(x, eval(e1, s, fuel)->value);
    let s2 = eval(e2, s1, fuel)->state;
    let v2 = eval(e2, s1, fuel)->value;
    law_scope_is_restored(e2, s1, fuel);
    assert(s1.env.last().0 == x);
    assert(find(s2.declare(x, v2).env, x) == Some(s2.env.len() as int));
    assert(eval(ExprView::Ident(x), s2.declare(x, v2), fuel) == (Evaluation::Value {
        value: v2,
        state: s2.declare(x, v2),
    }));
    let s3 = s2.declare(x, v2).leave();
    assert(s3.env =~= s2.env);
    assert(eval(inner, s1, fuel) == (Evaluation::Value { value: v2, state: s3 }));
    assert(find(s3.env, x) == Some(s3.env.len() - 1));
    assert(eval(ExprView::Ident(x), s3, fuel) == (Evaluation::Value {
        value: s2.env.last().1,
        state: s3,
    }));
    assert(eval(sequel, s1, fuel) == (Evaluation::Value { value: s2.env.last().1, state: s3 }));
}

proof fn lemma_arms_skip(
    arms: Seq<(Pattern, ExprView)>,
    from: int,
    i: int,
    v: i64,
    s: State,
    fuel: nat,
)
    requires
        0 <= from <= i < arms.len(),
        arms[i].0.admits(v),
        forall|j: int| from <= j < i ==> !(#[trigger] arms[j]).0.admits(v),
    ensures
        eval_arms(arms, from, v, s, fuel) == eval(arms[i].1, s, fuel),
    decreases i - from,
{
    if from < i {
        assert(!arms[from].0.admits(v));
        lemma_arms_skip(arms, from + 1, i, v, s, fuel);
    }
}

/// Match order: the first arm whose pattern matches the value of the
/// scrutinee wins, whatever arms stand behind it.
pub proof fn law_first_matching_arm_wins(
    scrutinee: ExprView,
    arms: Seq<(Pattern, ExprView)>,
    s: State,
    fuel: nat,
    i: int,
)
    requires
        has_wildcard(arms),
        eval(scrutinee, s, fuel) is Value,
        0 <= i < arms.len(),
        arms[i].0.admits(eval(scrutinee, s, fuel)->value),
        forall|j: int| 0 <= j < i ==> !(#[trigger] arms[j]).0.admits(eval(scrutinee, s, fuel)->value),
    ensures
        eval(ExprView::Match(Box::new(scrutinee), arms), s, fuel) == eval(
            arms[i].1,
            eval(scrutinee, s, fuel)->state,
            fuel,
        ),
{
    lemma_arms_skip(
        arms,
        0,
        i,
        eval(scrutinee, s, fuel)->value,
        eval(scrutinee, s, fuel)->state,
        fuel,
    );
}

/// A wildcard matches every value, and a literal its own and no other.
pub proof fn law_patterns(v: i64, k: i64)
    ensures
        Pattern::Wildcard.admits(v),
        Pattern::Literal(k).admits(v) <==> v == k,
{
}

/// Booleans: a comparison that has a value has the value 0 or 1, and 1
/// where the predicate holds of the values of its arguments.
pub proof fn law_comparison_is_bit(head: Seq<char>, a: ExprView, b: ExprView, s: State, fuel: nat)
    requires
        binary_op(head) is None,
        predicate_of(head) is Some,
        eval(ExprView::Call(head, seq![a, b]), s, fuel) is Value,
    ensures
        ({
            let value = eval(ExprView::Call(head, seq![a, b]), s, fuel)->value;
            let va = eval(a, s, fuel)->value;
            let vb = eval(b, eval(a, s, fuel)->state, fuel)->value;
            &&& value == 0 || value == 1
            &&& value == 1 <==> holds(predicate_of(head)->0, va, vb)
        }),
{
}

/// The four comparisons are `<`, `>`, `=` and `!=`, and none of them is an
/// arithmetic built-in or `print`.
pub proof fn law_comparison_heads()
    ensures
        predicate_of("<"@) == Some(Predicate::SLT) && binary_op("<"@) is None,
        predicate_of(">"@) == Some(Predicate::SGT) && binary_op(">"@) is None,
        predicate_of("="@) == Some(Predicate::EQ) && binary_op("="@) is None,
        predicate_of("!="@) == Some(Predicate::NE) && binary_op("!="@) is None,
{
    reveal_strlit("+");
    reveal_strlit("-");
    reveal_strlit("*");
    reveal_strlit("/");
    reveal_strlit("%");
    reveal_strlit("<");
    reveal_strlit(">");
    reveal_strlit("=");
    reveal_strlit("!=");
    assert("<"@[0] == '<');
    assert(">"@[0] == '>');
    assert("="@[0] == '=');
    assert("!="@[0] == '!');
    assert("+"@[0] == '+');
    assert("-"@[0] == '-');
    assert("*"@[0] == '*');
    assert("/"@[0] == '/');
    assert("%"@[0] == '%');
}

/// The value of a loop: a loop that has a value has the value 0.
pub proof fn law_loop_evaluates_to_zero(cond: ExprView, body: ExprView, s: State, fuel: nat)
    requires
        eval(ExprView::While(Box::new(cond), Box::new(body)), s, fuel) is Value,
    ensures
        eval(ExprView::While(Box::new(cond), Box::new(body)), s, fuel)->value == 0,
    decreases fuel,
{
    if eval(cond, s, fuel)->value != 0 {
        let s1 = eval(cond, s, fuel)->state;
        let s2 = eval(body, s1, fuel)->state;
        law_loop_evaluates_to_zero(cond, body, s2, (fuel - 1) as nat);
    }
}

/// Shadowing in code: a run of the code of
/// `decl x <- e1 in decl x <- e2 in x` that ends, ends with the value of
/// `e2`.
pub proof fn law_inner_declaration_shadows_in_code(
    x: Seq<char>,
    e1: ExprView,
    e2: ExprView,
    f: Function,
    fuel: nat,
)
    requires
        lower_program(
            ExprView::Decl(
                x,
                Seq::empty(),
                Box::new(e1),
                Box::new(
                    ExprView::Decl(x, Seq::empty(), Box::new(e2), Box::new(ExprView::Ident(x))),
                ),
            ),
        ) == Ok::<FunctionView, LowerError>(f@),
    ensures
        execution(f@, fuel) matches Outcome::Returned { value, .. } ==> {
            let first = eval(e1, State::empty(), fuel);
            &&& first is Value
            &&& eval(e2, first->state.declare(x, first->value), fuel) matches Evaluation::Value {
                value: v,
                ..
            } && v == value
        },
{
    let inner = ExprView::Decl(x, Seq::empty(), Box::new(e2), Box::new(ExprView::Ident(x)));
    let outer = ExprView::Decl(x, Seq::empty(), Box::new(e1), Box::new(inner));
    lemma_run_shows_program(outer, f, fuel);
    if execution(f@, fuel) is Returned {
        let first = eval(e1, State::empty(), fuel);
        assert(first is Value);
        let s1 = first->state.declare(x, first->value);
        assert(eval(inner, s1, fuel) is Value);
        assert(eval(e2, s1, fuel) is Value);
        law_inner_declaration_shadows(x, e1, e2, State::empty(), fuel);
    }
}

/// Match order in code: a run of the code of a match that ends, ends with
/// the value of the first arm whose pattern matches the value of the
/// scrutinee.
pub proof fn law_first_matching_arm_wins_in_code(
    scrutinee: ExprView,
    arms: Seq<(Pattern, ExprView)>,
    f: Function,
    fuel: nat,
    i: int,
)
    requires
        lower_program(ExprView::Match(Box::new(scrutinee), arms)) == Ok::<
            FunctionView,
            LowerError,
        >(f@),
        eval(scrutinee, State::empty(), fuel) is Value,
        0 <= i < arms.len(),
        arms[i].0.admits(eval(scrutinee, State::empty(), fuel)->value),
        forall|j: int|
            0 <= j < i ==> !(#[trigger] arms[j]).0.admits(
                eval(scrutinee, State::empty(), fuel)->value,
            ),
    ensures
        execution(f@, fuel) matches Outcome::Returned { value, .. } ==> eval(
            arms[i].1,
            eval(scrutinee, State::empty(), fuel)->state,
            fuel,
        ) matches Evaluation::Value { value: v, .. } && v == value,
{
    let e = ExprView::Match(Box::new(scrutinee), arms);
    lemma_run_shows_program(e, f, fuel);
    assert(has_wildcard(arms));
    law_first_matching_arm_wins(scrutinee, arms, State::empty(), fuel, i);
}

/// Booleans in code: a run of the code of a comparison that ends, ends
/// with 0 or 1.
pub proof fn law_comparison_is_bit_in_code(
    head: Seq<char>,
    a: ExprView,
    b: ExprView,
    f: Function,
    fuel: nat,
)
    requires
        binary_op(head) is None,
        predicate_of(head) is Some,
        lower_program(ExprView::Call(head, seq![a, b])) == Ok::<FunctionView, LowerError>(f@),
    ensures
        execution(f@, fuel) matches Outcome::Returned { value, .. } ==> value == 0 || value == 1,
{
    lemma_run_shows_program(ExprView::Call(head, seq![a, b]), f, fuel);
    if execution(f@, fuel) is Returned {
        law_comparison_is_bit(head, a, b, State::empty(), fuel);
    }
}

/// The value of a loop in code: a run of the code of a loop that ends,
/// ends with 0, whatever the condition and the body are and however often
/// the loop went round.
pub proof fn law_loop_ends_with_zero_in_code(
    cond: ExprView,
    body: ExprView,
    f: Function,
    fuel: nat,
)
    requires
        lower_program(ExprView::While(Box::new(cond), Box::new(body))) == Ok::<
            FunctionView,
            LowerError,
        >(f@),
    ensures
        execution(f@, fuel) matches Outcome::Returned { value, .. } ==> value == 0,
{
    lemma_run_shows_program(ExprView::While(Box::new(cond), Box::new(body)), f, fuel);
    if execution(f@, fuel) is Returned {
        law_loop_evaluates_to_zero(cond, body, State::empty(), fuel);
    }
}

/// What evaluation says of a program, the run of its code shows: where a
/// function is the code of a program that evaluates to a value, every run
/// of the function with jumps enough ends with that value; the result is a
/// number that is enough.
pub proof fn law_code_shows_evaluation(e: ExprView, f: Function, fuel: nat) -> (jumps: nat)
    requires
        lower_program(e) == Ok::<FunctionView, LowerError>(f@),
        eval_program(e, fuel) is Value,
    ensures
        forall|n: nat|
            n >= jumps ==> #[trigger] gives(
                f@,
                n,
                eval_program(e, fuel)->value,
                eval_program(e, fuel)->state.printed,
            ),
{
    lemma_code_is_bounded(f);
    theorem_code_computes_program(e, f@, fuel)
}

} // verus!
