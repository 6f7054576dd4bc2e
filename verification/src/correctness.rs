use crate::ast::ExprView;
use crate::course::{lemma_follows, starved, stuck, Course};
use crate::frame::{bounded, lemma_code_is_bounded, lemma_lower_kept, sound};
use crate::ir::{Function, FunctionView, Terminator};
use crate::lower::{lower, lower_program, LowerError, Lowering};
use crate::machine::{execution, initial, run_from, run_instrs, Outcome};
use crate::semantics::{eval_program, Evaluation, State};
use crate::simulation::{agrees, end_of, lemma_terminated, Point};
use vstd::prelude::*;

verus! {

/// Whether the run of `f` with `fuel` jumps ends with `value` and has then
/// printed `printed`.
pub open spec fn gives(f: FunctionView, fuel: nat, value: i64, printed: Seq<i64>) -> bool {
    execution(f, fuel) matches Outcome::Returned { value: v, machine } && v == value
        && machine.printed == printed
}

/// Whether the runs of `f` are what the evaluation `r` of its program with
/// `fuel` rounds asks for, where `jumps` is the number of jumps that the run
/// takes: a program with a value has runs that end with that value, and
/// have printed what it prints, as soon as they are given `jumps` jumps; a
/// program without meaning has runs without meaning as soon as they are
/// given `jumps` jumps; both run out of fuel with fewer; and a program that
/// runs out of fuel has runs that run out of fuel with `fuel` jumps or
/// fewer.
pub open spec fn runs_as(r: Evaluation, f: FunctionView, fuel: nat, jumps: nat) -> bool {
    match r {
        Evaluation::Value { value, state } => {
            &&& forall|n: nat| n >= jumps ==> #[trigger] gives(f, n, value, state.printed)
            &&& forall|n: nat| n < jumps ==> #[trigger] execution(f, n) == Outcome::OutOfFuel
        },
        Evaluation::Undefined => {
            &&& forall|n: nat| n >= jumps ==> #[trigger] execution(f, n) == Outcome::Undefined
            &&& forall|n: nat| n < jumps ==> #[trigger] execution(f, n) == Outcome::OutOfFuel
        },
        Evaluation::OutOfFuel => forall|n: nat|
            n <= fuel ==> #[trigger] execution(f, n) == Outcome::OutOfFuel,
    }
}

/// The code of a program computes the program: the runs of the code of a
/// program are what the evaluation of the program asks for. The result is
/// the number of jumps that the run takes.
pub proof fn theorem_code_computes_program(e: ExprView, f: FunctionView, fuel: nat) -> (jumps: nat)
    requires
        lower_program(e) == Ok::<FunctionView, LowerError>(f),
        bounded(f),
    ensures
        runs_as(eval_program(e, fuel), f, fuel, jumps),
{
    let start = Lowering::start();
    let (l, operand) = lower(e, start)->Ok_0;
    let ret = Terminator::Return(operand);
    assert(l.terminate(ret).function == f);
    assert(start.function.blocks[0].terminator is None);
    assert(sound(start));
    assert(l.terminate(ret).function.blocks.len() == l.function.blocks.len() || !l.ready());
    lemma_lower_kept(e, start);
    lemma_terminated(l, ret, f);
    let m0 = initial(f);
    assert(agrees(State::empty(), start.scope, m0));
    assert(end_of(start) == (Point { block: 0, pc: 0 }));
    let c = lemma_follows(e, start, f, State::empty(), fuel, m0);
    match eval_program(e, fuel) {
        Evaluation::Value { value, state } => {
            let a = c->Arrives_0;
            assert forall|n: nat| n >= a.jumps implies #[trigger] gives(
                f,
                n,
                value,
                state.printed,
            ) by {
                let here = end_of(l);
                assert(run_from(f, 0, 0, m0, n) == run_from(
                    f,
                    here.block,
                    here.pc,
                    a.machine,
                    (n - a.jumps) as nat,
                ));
                assert(run_instrs(f.blocks[here.block as int].instrs, here.pc, a.machine) == Some(
                    a.machine,
                ));
            }
            assert forall|n: nat| n < a.jumps implies #[trigger] execution(f, n)
                == Outcome::OutOfFuel by {
                assert(run_from(f, 0, 0, m0, n) == Outcome::OutOfFuel);
            }
            a.jumps
        },
        Evaluation::Undefined => {
            let k = c->Stuck_0;
            assert(stuck(f, end_of(start), m0, k));
            assert forall|n: nat| n >= k implies #[trigger] execution(f, n)
                == Outcome::Undefined by {
                assert(run_from(f, 0, 0, m0, n) == Outcome::Undefined);
            }
            assert forall|n: nat| n < k implies #[trigger] execution(f, n)
                == Outcome::OutOfFuel by {
                assert(run_from(f, 0, 0, m0, n) == Outcome::OutOfFuel);
            }
            k
        },
        Evaluation::OutOfFuel => {
            assert(starved(f, end_of(start), m0, fuel));
            assert forall|n: nat| n <= fuel implies #[trigger] execution(f, n)
                == Outcome::OutOfFuel by {
                assert(run_from(f, 0, 0, m0, n) == Outcome::OutOfFuel);
            }
            0
        },
    }
}

/// Whether the evaluation `r` of a program is what the run `o` of its code
/// shows: a run that ends shows the value of the program and what it
/// prints, and a run without meaning shows a program without meaning.
pub open spec fn shown_by(r: Evaluation, o: Outcome) -> bool {
    match o {
        Outcome::Returned { value, machine } => r matches Evaluation::Value { value: v, state }
            && v == value && state.printed == machine.printed,
        Outcome::Undefined => r is Undefined,
        Outcome::OutOfFuel => true,
    }
}

/// The code of a program computes nothing but the program: a run of the
/// code with `fuel` jumps that ends shows the value of the program, which
/// the evaluation with `fuel` rounds finds; and one without meaning shows
/// that the program has none.
pub proof fn theorem_run_shows_program(e: ExprView, f: FunctionView, fuel: nat)
    requires
        lower_program(e) == Ok::<FunctionView, LowerError>(f),
        bounded(f),
    ensures
        shown_by(eval_program(e, fuel), execution(f, fuel)),
{
    let jumps = theorem_code_computes_program(e, f, fuel);
    match eval_program(e, fuel) {
        Evaluation::Value { value, state } => {
            if fuel >= jumps {
                assert(gives(f, fuel, value, state.printed));
            } else {
                assert(execution(f, fuel) == Outcome::OutOfFuel);
            }
        },
        Evaluation::Undefined => {
            if fuel >= jumps {
                assert(execution(f, fuel) == Outcome::Undefined);
            } else {
                assert(execution(f, fuel) == Outcome::OutOfFuel);
            }
        },
        Evaluation::OutOfFuel => {
            assert(execution(f, fuel) == Outcome::OutOfFuel);
        },
    }
}

/// The theorem for a function in memory.
pub proof fn lemma_run_shows_program(e: ExprView, f: Function, fuel: nat)
    requires
        lower_program(e) == Ok::<FunctionView, LowerError>(f@),
    ensures
        shown_by(eval_program(e, fuel), execution(f@, fuel)),
{
    lemma_code_is_bounded(f);
    theorem_run_shows_program(e, f@, fuel);
}

} // verus!
