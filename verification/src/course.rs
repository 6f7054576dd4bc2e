use crate::ast::{ExprView, Pattern};
use crate::frame::{
    bounded, extends, lemma_close_arm, lemma_declare_kept, lemma_define_kept, lemma_emit_kept,
    lemma_lower_arms_grows, lemma_lower_arms_kept, lemma_lower_grows, lemma_lower_kept,
    lemma_steps_grow, lemma_test_arm, open_here, operand_ok, sound, untouched,
};
use crate::ir::{FunctionView, Instr, Label, Operand, Predicate, Terminator, Width};
use crate::lower::{binary_op, lookup, lower, lower_arms, Lowering};
use crate::machine::{
    arithmetic, bit, holds, register, run_from, run_instrs, step, value_of, MachineView, Outcome,
};
use crate::semantics::{eval, eval_arms, find, Evaluation, State};
use crate::simulation::{
    agrees, end_of, fits, lemma_emitted, lemma_extends_step, lemma_lookup_find, lemma_loop_shape,
    lemma_lower_in, lemma_match_shape, lemma_reaches_branch, lemma_reaches_jump,
    lemma_reaches_then, lemma_registers_kept_then, lemma_run_store, lemma_run_write,
    lemma_simulates, lemma_sound_before, lemma_terminated, loop_shape, match_shape, reaches,
    registers_kept, scope_below, simulated, Arrival, Point,
};
use vstd::prelude::*;

verus! {

/// Whether the run of `f` from the place `p` in the state `m` comes to
/// something without meaning after `k` jumps: with `k` jumps or more it is
/// undefined, and with fewer it runs out of fuel.
pub open spec fn stuck(f: FunctionView, p: Point, m: MachineView, k: nat) -> bool {
    &&& forall|n: nat|
        n >= k ==> #[trigger] run_from(f, p.block, p.pc, m, n) == Outcome::Undefined
    &&& forall|n: nat| n < k ==> #[trigger] run_from(f, p.block, p.pc, m, n) == Outcome::OutOfFuel
}

/// Whether the run of `f` from the place `p` in the state `m` runs out of
/// fuel with `fuel` jumps or fewer.
pub open spec fn starved(f: FunctionView, p: Point, m: MachineView, fuel: nat) -> bool {
    forall|n: nat| n <= fuel ==> #[trigger] run_from(f, p.block, p.pc, m, n) == Outcome::OutOfFuel
}

/// The course of the run of the code of an expression.
pub ghost enum Course {
    /// It comes to the end of the code.
    Arrives(Arrival),
    /// It comes to something without meaning, after so many jumps.
    Stuck(nat),
    /// It runs out of fuel.
    Starved,
}

/// What the run of the code of an expression can be followed from: as
/// `simulable`, whatever the evaluation of the expression comes to.
pub open spec fn followable(
    e: ExprView,
    l: Lowering,
    f: FunctionView,
    s: State,
    fuel: nat,
    m: MachineView,
) -> bool {
    &&& sound(l)
    &&& lower(e, l) is Ok
    &&& bounded(f)
    &&& extends(lower(e, l)->Ok_0.0.function, f)
    &&& agrees(s, l.scope, m)
    &&& fits(m, f)
}

/// Whether the run from the place `p` takes the course that the evaluation
/// `r` asks for, where `r` is not a value.
pub open spec fn fails_as(
    r: Evaluation,
    f: FunctionView,
    p: Point,
    m: MachineView,
    fuel: nat,
    c: Course,
) -> bool {
    match r {
        Evaluation::Value { .. } => true,
        Evaluation::Undefined => c matches Course::Stuck(k) && stuck(f, p, m, k),
        Evaluation::OutOfFuel => c is Starved && starved(f, p, m, fuel),
    }
}

/// Whether the run of the code of `e` takes the course that the evaluation
/// of `e` asks for: to the end of the code where `e` has a value, to
/// something without meaning where `e` has none, and out of fuel where the
/// evaluation runs out of fuel.
pub open spec fn followed(
    e: ExprView,
    l: Lowering,
    f: FunctionView,
    s: State,
    fuel: nat,
    m: MachineView,
    c: Course,
) -> bool {
    &&& eval(e, s, fuel) is Value ==> (c matches Course::Arrives(a) && simulated(
        e,
        l,
        f,
        s,
        fuel,
        m,
        a,
    ))
    &&& fails_as(eval(e, s, fuel), f, end_of(l), m, fuel, c)
}

pub proof fn lemma_then_stuck(
    f: FunctionView,
    a: Point,
    ma: MachineView,
    b: Point,
    mb: MachineView,
    k1: nat,
    k2: nat,
)
    requires
        reaches(f, a, ma, b, mb, k1),
        stuck(f, b, mb, k2),
    ensures
        stuck(f, a, ma, k1 + k2),
{
    assert forall|n: nat| n >= k1 + k2 implies #[trigger] run_from(f, a.block, a.pc, ma, n)
        == Outcome::Undefined by {
        assert(run_from(f, a.block, a.pc, ma, n) == run_from(f, b.block, b.pc, mb, (n - k1) as nat));
        assert(run_from(f, b.block, b.pc, mb, (n - k1) as nat) == Outcome::Undefined);
    }
    assert forall|n: nat| n < k1 + k2 implies #[trigger] run_from(f, a.block, a.pc, ma, n)
        == Outcome::OutOfFuel by {
        if n >= k1 {
            assert(run_from(f, a.block, a.pc, ma, n) == run_from(
                f,
                b.block,
                b.pc,
                mb,
                (n - k1) as nat,
            ));
            assert(run_from(f, b.block, b.pc, mb, (n - k1) as nat) == Outcome::OutOfFuel);
        }
    }
}

pub proof fn lemma_then_starved(
    f: FunctionView,
    a: Point,
    ma: MachineView,
    b: Point,
    mb: MachineView,
    k: nat,
    fuel: nat,
)
    requires
        reaches(f, a, ma, b, mb, k),
        starved(f, b, mb, fuel),
    ensures
        starved(f, a, ma, fuel + k),
        starved(f, a, ma, fuel),
{
    assert forall|n: nat| n <= fuel + k implies #[trigger] run_from(f, a.block, a.pc, ma, n)
        == Outcome::OutOfFuel by {
        if n >= k {
            assert(run_from(f, a.block, a.pc, ma, n) == run_from(
                f,
                b.block,
                b.pc,
                mb,
                (n - k) as nat,
            ));
            assert(run_from(f, b.block, b.pc, mb, (n - k) as nat) == Outcome::OutOfFuel);
        }
    }
}

/// The course of a run that first comes to a place and from there fails.
pub proof fn lemma_then_fails(
    r: Evaluation,
    f: FunctionView,
    a: Point,
    ma: MachineView,
    b: Point,
    mb: MachineView,
    k: nat,
    fuel: nat,
    c: Course,
) -> (c2: Course)
    requires
        !(r is Value),
        reaches(f, a, ma, b, mb, k),
        fails_as(r, f, b, mb, fuel, c),
    ensures
        fails_as(r, f, a, ma, fuel, c2),
{
    match r {
        Evaluation::Undefined => {
            lemma_then_stuck(f, a, ma, b, mb, k, c->Stuck_0);
            Course::Stuck(k + c->Stuck_0)
        },
        _ => {
            lemma_then_starved(f, a, ma, b, mb, k, fuel);
            Course::Starved
        },
    }
}

/// An instruction without meaning.
pub proof fn lemma_stuck_instr(f: FunctionView, p: Point, m: MachineView)
    requires
        p.block < f.blocks.len(),
        0 <= p.pc < f.blocks[p.block as int].instrs.len(),
        step(f.blocks[p.block as int].instrs[p.pc], m) is None,
    ensures
        stuck(f, p, m, 0),
{
    assert forall|n: nat| n >= 0 implies #[trigger] run_from(f, p.block, p.pc, m, n)
        == Outcome::Undefined by {
        let instrs = f.blocks[p.block as int].instrs;
        assert(run_instrs(instrs, p.pc, m) is None);
    }
}

/// The run of the code of an expression follows the evaluation of the
/// expression, whatever the evaluation comes to.
pub proof fn lemma_follows(
    e: ExprView,
    l: Lowering,
    f: FunctionView,
    s: State,
    fuel: nat,
    m: MachineView,
) -> (c: Course)
    requires
        followable(e, l, f, s, fuel, m),
    ensures
        followed(e, l, f, s, fuel, m, c),
    decreases fuel, e, 2nat,
{
    if eval(e, s, fuel) is Value {
        Course::Arrives(lemma_simulates(e, l, f, s, fuel, m))
    } else {
        match e {
            ExprView::Number(_) => Course::Starved,
            ExprView::Ident(name) => {
                lemma_lookup_find(l.scope, s.env, name);
                Course::Starved
            },
            ExprView::Call(_, _) => lemma_fails_call(e, l, f, s, fuel, m),
            ExprView::Sequence(_, _) => lemma_fails_sequence(e, l, f, s, fuel, m),
            ExprView::Assign(_, _) => lemma_fails_assign(e, l, f, s, fuel, m),
            ExprView::Decl(_, _, _, _) => lemma_fails_decl(e, l, f, s, fuel, m),
            ExprView::While(_, _) => lemma_fails_while(e, l, f, s, fuel, m),
            ExprView::Match(_, _) => lemma_fails_match(e, l, f, s, fuel, m),
        }
    }
}

proof fn lemma_fails_sequence(
    e: ExprView,
    l: Lowering,
    f: FunctionView,
    s: State,
    fuel: nat,
    m: MachineView,
) -> (c: Course)
    requires
        e is Sequence,
        followable(e, l, f, s, fuel, m),
        !(eval(e, s, fuel) is Value),
    ensures
        followed(e, l, f, s, fuel, m, c),
    decreases fuel, e, 0nat,
{
    let first = e->Sequence_0;
    let second = e->Sequence_1;
    let (l1, _) = lower(*first, l)->Ok_0;
    let (l2, _) = lower(*second, l1)->Ok_0;
    lemma_lower_grows(*second, l1);
    lemma_sound_before(*first, l, l2.function, f);
    lemma_lower_in(*second, l1, f);
    let c1 = lemma_follows(*first, l, f, s, fuel, m);
    if eval(*first, s, fuel) is Value {
        let a1 = c1->Arrives_0;
        let s1 = eval(*first, s, fuel)->state;
        let c2 = lemma_follows(*second, l1, f, s1, fuel, a1.machine);
        lemma_then_fails(
            eval(e, s, fuel),
            f,
            end_of(l),
            m,
            end_of(l1),
            a1.machine,
            a1.jumps,
            fuel,
            c2,
        )
    } else {
        c1
    }
}

proof fn lemma_fails_assign(
    e: ExprView,
    l: Lowering,
    f: FunctionView,
    s: State,
    fuel: nat,
    m: MachineView,
) -> (c: Course)
    requires
        e is Assign,
        followable(e, l, f, s, fuel, m),
        !(eval(e, s, fuel) is Value),
    ensures
        followed(e, l, f, s, fuel, m, c),
    decreases fuel, e, 0nat,
{
    let name = e->Assign_0;
    let value = e->Assign_1;
    let (l1, v) = lower(*value, l)->Ok_0;
    let slot = lookup(l1.scope, name)->0;
    let store = Instr::Store { slot, value: v };
    lemma_steps_grow(l1);
    lemma_sound_before(*value, l, l1.emit(store).function, f);
    lemma_emitted(l1, store, f);
    let c1 = lemma_follows(*value, l, f, s, fuel, m);
    if eval(*value, s, fuel) is Value {
        lemma_lookup_find(l.scope, eval(*value, s, fuel)->state.env, name);
    }
    c1
}

proof fn lemma_fails_decl(
    e: ExprView,
    l: Lowering,
    f: FunctionView,
    s: State,
    fuel: nat,
    m: MachineView,
) -> (c: Course)
    requires
        e is Decl,
        followable(e, l, f, s, fuel, m),
        !(eval(e, s, fuel) is Value),
    ensures
        followed(e, l, f, s, fuel, m, c),
    decreases fuel, e, 0nat,
{
    let name = e->Decl_0;
    let value = e->Decl_2;
    let body = e->Decl_3;
    let (l1, v) = lower(*value, l)->Ok_0;
    let slot = l1.next_slot();
    let store = Instr::Store { slot, value: v };
    let l1s = l1.slot(name);
    let l2 = l1s.emit(store).bind(name, slot);
    let (l3, _) = lower(*body, l2)->Ok_0;
    lemma_steps_grow(l1);
    lemma_steps_grow(l1s);
    lemma_lower_grows(*body, l2);
    lemma_sound_before(*value, l, l3.function, f);
    lemma_declare_kept(l1, name, v);
    assert(extends(l3.unbind().function, f));
    lemma_lower_in(*body, l2, f);
    assert(sound(l1s));
    lemma_emitted(l1s, store, f);
    lemma_extends_step(l1, l1s, f);
    let c1 = lemma_follows(*value, l, f, s, fuel, m);
    if eval(*value, s, fuel) is Value {
        let a1 = c1->Arrives_0;
        let s1 = eval(*value, s, fuel)->state;
        let val = eval(*value, s, fuel)->value;
        let s2 = s1.declare(name, val);
        let m2 = lemma_run_store(f, l1s, slot, v, a1.machine, val);
        assert(end_of(l1s) == end_of(l1));
        assert(end_of(l2) == end_of(l1s.emit(store)));
        lemma_reaches_then(f, end_of(l), m, end_of(l1), a1.machine, end_of(l2), m2, a1.jumps, 0);
        assert forall|j: int| 0 <= j < l2.scope.len() implies (#[trigger] l2.scope[j]).0
            == s2.env[j].0 && l2.scope[j].1 < m2.memory.len() && m2.memory[l2.scope[j].1 as int]
            == Some(s2.env[j].1) by {
            if j < l1.scope.len() {
                assert(l2.scope[j] == l1.scope[j]);
                assert(l1.scope[j].0 == s1.env[j].0);
            }
        }
        let c3 = lemma_follows(*body, l2, f, s2, fuel, m2);
        lemma_then_fails(eval(e, s, fuel), f, end_of(l), m, end_of(l2), m2, a1.jumps, fuel, c3)
    } else {
        c1
    }
}

proof fn lemma_fails_call(
    e: ExprView,
    l: Lowering,
    f: FunctionView,
    s: State,
    fuel: nat,
    m: MachineView,
) -> (c: Course)
    requires
        e is Call,
        followable(e, l, f, s, fuel, m),
        !(eval(e, s, fuel) is Value),
    ensures
        followed(e, l, f, s, fuel, m, c),
    decreases fuel, e, 0nat,
{
    let head = e->Call_0;
    let args = e->Call_1;
    let last = lower(e, l)->Ok_0.0;
    lemma_lower_grows(e, l);
    if head == "print"@ && args.len() == 1 {
        let (l1, v) = lower(args[0], l)->Ok_0;
        let print = Instr::Print { value: v };
        lemma_steps_grow(l1);
        lemma_sound_before(args[0], l, last.function, f);
        lemma_emitted(l1, print, f);
        lemma_follows(args[0], l, f, s, fuel, m)
    } else {
        let (l1, lhs) = lower(args[0], l)->Ok_0;
        let (l2, rhs) = lower(args[1], l1)->Ok_0;
        lemma_lower_grows(args[1], l1);
        lemma_steps_grow(l2);
        lemma_steps_grow(l2.define(Width::Word));
        lemma_steps_grow(l2.define(Width::Bit));
        lemma_sound_before(args[0], l, last.function, f);
        lemma_sound_before(args[1], l1, last.function, f);
        if binary_op(head) is Some {
            let op = binary_op(head)->0;
            let instr = Instr::Binary { dest: l2.next_register(), op, lhs, rhs };
            lemma_define_kept(l2, Width::Word, instr);
            lemma_emitted(l2.define(Width::Word), instr, f);
            lemma_extends_step(l2, l2.define(Width::Word), f);
            lemma_extends_step(l1, l2, f);
            let c1 = lemma_follows(args[0], l, f, s, fuel, m);
            if eval(args[0], s, fuel) is Value {
                let a1 = c1->Arrives_0;
                let s1 = eval(args[0], s, fuel)->state;
                let va = eval(args[0], s, fuel)->value;
                let c2 = lemma_follows(args[1], l1, f, s1, fuel, a1.machine);
                if eval(args[1], s1, fuel) is Value {
                    let a2 = c2->Arrives_0;
                    assert(value_of(a2.machine, lhs) == Some(va));
                    assert(end_of(l2.define(Width::Word)) == end_of(l2));
                    lemma_stuck_instr(f, end_of(l2), a2.machine);
                    lemma_reaches_then(
                        f,
                        end_of(l),
                        m,
                        end_of(l1),
                        a1.machine,
                        end_of(l2),
                        a2.machine,
                        a1.jumps,
                        a2.jumps,
                    );
                    lemma_then_stuck(
                        f,
                        end_of(l),
                        m,
                        end_of(l2),
                        a2.machine,
                        a1.jumps + a2.jumps,
                        0,
                    );
                    Course::Stuck(a1.jumps + a2.jumps)
                } else {
                    lemma_then_fails(
                        eval(e, s, fuel),
                        f,
                        end_of(l),
                        m,
                        end_of(l1),
                        a1.machine,
                        a1.jumps,
                        fuel,
                        c2,
                    )
                }
            } else {
                c1
            }
        } else {
            let flag = l2.next_register();
            let test = Instr::Compare { dest: flag, predicate: crate::lower::predicate_of(head)->0, lhs, rhs };
            let l3 = l2.define(Width::Bit).emit(test);
            let extend = Instr::Extend { dest: l3.next_register(), source: flag };
            lemma_steps_grow(l3);
            lemma_steps_grow(l3.define(Width::Word));
            lemma_define_kept(l2, Width::Bit, test);
            lemma_define_kept(l3, Width::Word, extend);
            lemma_emitted(l3.define(Width::Word), extend, f);
            lemma_extends_step(l3, l3.define(Width::Word), f);
            lemma_extends_step(l2, l3, f);
            lemma_extends_step(l1, l2, f);
            let c1 = lemma_follows(args[0], l, f, s, fuel, m);
            if eval(args[0], s, fuel) is Value {
                let a1 = c1->Arrives_0;
                let s1 = eval(args[0], s, fuel)->state;
                let c2 = lemma_follows(args[1], l1, f, s1, fuel, a1.machine);
                lemma_then_fails(
                    eval(e, s, fuel),
                    f,
                    end_of(l),
                    m,
                    end_of(l1),
                    a1.machine,
                    a1.jumps,
                    fuel,
                    c2,
                )
            } else {
                c1
            }
        }
    }
}

proof fn lemma_fails_while(
    e: ExprView,
    l: Lowering,
    f: FunctionView,
    s: State,
    fuel: nat,
    m: MachineView,
) -> (c: Course)
    requires
        e is While,
        followable(e, l, f, s, fuel, m),
        !(eval(e, s, fuel) is Value),
    ensures
        followed(e, l, f, s, fuel, m, c),
    decreases fuel, e, 1nat,
{
    lemma_loop_shape(e, l, f);
    let header = l.next_block();
    lemma_reaches_jump(f, end_of(l), m, header);
    let c = lemma_fails_rounds(e, l, f, s, fuel, m);
    lemma_then_fails(
        eval(e, s, fuel),
        f,
        end_of(l),
        m,
        Point { block: header, pc: 0 },
        m,
        1,
        fuel,
        c,
    )
}

/// The rounds of a loop that does not come to its exit.
proof fn lemma_fails_rounds(
    e: ExprView,
    l: Lowering,
    f: FunctionView,
    s: State,
    fuel: nat,
    m: MachineView,
) -> (c: Course)
    requires
        e is While,
        followable(e, l, f, s, fuel, m),
        loop_shape(e, l, f),
        !(eval(e, s, fuel) is Value),
    ensures
        fails_as(eval(e, s, fuel), f, Point { block: l.next_block(), pc: 0 }, m, fuel, c),
    decreases fuel, e, 0nat,
{
    let cond = e->While_0;
    let body = e->While_1;
    let header = l.next_block();
    let top = Point { block: header, pc: 0 };
    let l3 = l.enter_loop();
    let (l4, cv_op) = lower(*cond, l3)->Ok_0;
    let flag = l4.next_register();
    let test = Instr::Compare {
        dest: flag,
        predicate: Predicate::NE,
        lhs: cv_op,
        rhs: Operand::Const(0),
    };
    let l4t = l4.define(Width::Bit).emit(test);
    let l5 = l4.test_loop(cv_op, header);
    let (l6, _) = lower(*body, l5)->Ok_0;
    let base = l.function.registers.len();
    let c1 = lemma_follows(*cond, l3, f, s, fuel, m);
    if eval(*cond, s, fuel) is Value {
        let a1 = c1->Arrives_0;
        let s1 = eval(*cond, s, fuel)->state;
        let cv = eval(*cond, s, fuel)->value;
        let truth = bit(holds(Predicate::NE, cv, 0));
        let m2 = lemma_run_write(f, l4, Width::Bit, test, a1.machine, truth, s1, base);
        lemma_reaches_then(f, top, m, end_of(l4), a1.machine, end_of(l4t), m2, a1.jumps, 0);
        lemma_reaches_branch(f, end_of(l4t), m2, flag, (header + 1) as usize, (header + 2) as usize);
        lemma_reaches_then(f, top, m, end_of(l4t), m2, end_of(l5), m2, a1.jumps, 1);
        let c3 = lemma_follows(*body, l5, f, s1, fuel, m2);
        if eval(*body, s1, fuel) is Value {
            let a3 = c3->Arrives_0;
            let s2 = eval(*body, s1, fuel)->state;
            lemma_reaches_then(
                f,
                top,
                m,
                end_of(l5),
                m2,
                end_of(l6),
                a3.machine,
                a1.jumps + 1,
                a3.jumps,
            );
            lemma_reaches_jump(f, end_of(l6), a3.machine, header);
            lemma_reaches_then(
                f,
                top,
                m,
                end_of(l6),
                a3.machine,
                top,
                a3.machine,
                a1.jumps + 1 + a3.jumps,
                1,
            );
            let round = a1.jumps + 1 + a3.jumps + 1;
            if fuel == 0 {
                assert(starved(f, top, m, 0)) by {
                    assert(run_from(f, top.block, top.pc, m, 0) == Outcome::OutOfFuel);
                }
                Course::Starved
            } else {
                let c4 = lemma_fails_rounds(e, l, f, s2, (fuel - 1) as nat, a3.machine);
                match eval(e, s, fuel) {
                    Evaluation::Undefined => {
                        lemma_then_stuck(f, top, m, top, a3.machine, round, c4->Stuck_0);
                        Course::Stuck(round + c4->Stuck_0)
                    },
                    _ => {
                        lemma_then_starved(f, top, m, top, a3.machine, round, (fuel - 1) as nat);
                        assert(starved(f, top, m, fuel)) by {
                            assert forall|n: nat| n <= fuel implies #[trigger] run_from(
                                f,
                                top.block,
                                top.pc,
                                m,
                                n,
                            ) == Outcome::OutOfFuel by {
                                assert(n <= (fuel - 1) as nat + round);
                            }
                        }
                        Course::Starved
                    },
                }
            }
        } else {
            lemma_then_fails(
                eval(e, s, fuel),
                f,
                top,
                m,
                end_of(l5),
                m2,
                a1.jumps + 1,
                fuel,
                c3,
            )
        }
    } else {
        c1
    }
}

proof fn lemma_fails_match(
    e: ExprView,
    l: Lowering,
    f: FunctionView,
    s: State,
    fuel: nat,
    m: MachineView,
) -> (c: Course)
    requires
        e is Match,
        followable(e, l, f, s, fuel, m),
        !(eval(e, s, fuel) is Value),
    ensures
        followed(e, l, f, s, fuel, m, c),
    decreases fuel, e, 0nat,
{
    lemma_match_shape(e, l, f);
    let scrutinee = e->Match_0;
    let arms = e->Match_1;
    let (l1, sv) = lower(*scrutinee, l)->Ok_0;
    let merge = l1.next_block();
    let result = l1.next_slot();
    let la = l1.enter_match();
    let c1 = lemma_follows(*scrutinee, l, f, s, fuel, m);
    if eval(*scrutinee, s, fuel) is Value {
        let a1 = c1->Arrives_0;
        let s1 = eval(*scrutinee, s, fuel)->state;
        let v = eval(*scrutinee, s, fuel)->value;
        lemma_reaches_jump(f, end_of(l1), a1.machine, (merge + 1) as usize);
        lemma_reaches_then(f, end_of(l), m, end_of(l1), a1.machine, end_of(la), a1.machine, a1.jumps, 1);
        assert(scope_below(la.scope, result)) by {
            assert forall|i: int| 0 <= i < la.scope.len() implies (#[trigger] la.scope[i]).1
                < result by {
                assert(la.scope[i] == l1.scope[i]);
            }
        }
        let w = choose|w: int| 0 <= w < arms.len() && (#[trigger] arms[w]).0 == Pattern::Wildcard;
        let c2 = lemma_fails_arms(arms, 0, w, la, sv, result, merge, f, v, s1, fuel, a1.machine);
        lemma_then_fails(
            eval(e, s, fuel),
            f,
            end_of(l),
            m,
            end_of(la),
            a1.machine,
            a1.jumps + 1,
            fuel,
            c2,
        )
    } else {
        c1
    }
}

/// The arms of a match of which the one that matches has no value.
proof fn lemma_fails_arms(
    arms: Seq<(Pattern, ExprView)>,
    i: int,
    w: int,
    l: Lowering,
    scrutinee: Operand,
    result: usize,
    merge: usize,
    f: FunctionView,
    v: i64,
    s: State,
    fuel: nat,
    m: MachineView,
) -> (c: Course)
    requires
        0 <= i <= w < arms.len(),
        arms[w].0 == Pattern::Wildcard,
        sound(l),
        merge < l.function.blocks.len(),
        merge != l.current,
        l.function.blocks[merge as int].instrs.len() == 0,
        result < l.function.slots.len(),
        scope_below(l.scope, result),
        lower_arms(arms, i, l, scrutinee, result, merge) is Ok,
        bounded(f),
        extends(lower_arms(arms, i, l, scrutinee, result, merge)->Ok_0.function, f),
        operand_ok(scrutinee, l),
        value_of(m, scrutinee) == Some(v),
        !(eval_arms(arms, i, v, s, fuel) is Value),
        agrees(s, l.scope, m),
        fits(m, f),
    ensures
        fails_as(eval_arms(arms, i, v, s, fuel), f, end_of(l), m, fuel, c),
    decreases fuel, arms, arms.len() - i,
{
    let end = lower_arms(arms, i, l, scrutinee, result, merge)->Ok_0;
    let base = l.function.registers.len();
    lemma_lower_arms_grows(arms, i, l, scrutinee, result, merge);
    match arms[i].0 {
        Pattern::Wildcard => {
            let (l1, op) = lower(arms[i].1, l)->Ok_0;
            let store = Instr::Store { slot: result, value: op };
            let l2 = l1.emit(store);
            let jump = Terminator::Jump(merge);
            lemma_steps_grow(l1);
            lemma_steps_grow(l2);
            lemma_sound_before(arms[i].1, l, end.function, f);
            lemma_emit_kept(l1, store);
            lemma_terminated(l2, jump, f);
            lemma_emitted(l1, store, f);
            lemma_follows(arms[i].1, l, f, s, fuel, m)
        },
        Pattern::Literal(k) => {
            let n = arms.len();
            let lt = l.test_arm(i, n, scrutinee, k, merge);
            let next = l.next_check(i, n, merge);
            let flag = l.next_register();
            let body = l.next_block();
            let (l1, op) = lower(arms[i].1, lt)->Ok_0;
            let store = Instr::Store { slot: result, value: op };
            let l2 = l1.emit(store);
            let jump = Terminator::Jump(merge);
            let l3 = l2.terminate(jump).at(next);
            let test = Instr::Compare {
                dest: flag,
                predicate: Predicate::EQ,
                lhs: scrutinee,
                rhs: Operand::Const(k),
            };
            let branch = Terminator::Branch { cond: flag, then_block: body, else_block: next };
            let lb = l.block(Label::MatchArm(i as usize)).block(
                Label::MatchCheck((i + 1) as usize),
            );
            let lc = lb.define(Width::Bit).emit(test);
            assert(i + 1 < n);
            lemma_steps_grow(l);
            lemma_lower_grows(arms[i].1, lt);
            lemma_steps_grow(l1);
            lemma_steps_grow(l2);
            lemma_lower_arms_grows(arms, i + 1, l3, scrutinee, result, merge);
            lemma_test_arm(l, i, n, scrutinee, k, merge);
            lemma_lower_kept(arms[i].1, lt);
            lemma_close_arm(lt, l1, op, result, merge);
            lemma_emit_kept(l1, store);
            assert(untouched(l2, l3));
            assert(open_here(l2));
            assert(l1.function.blocks[next as int] == lt.function.blocks[next as int]);
            assert(l3.function.blocks[next as int] == l1.function.blocks[next as int]);
            assert(sound(l3));
            lemma_lower_arms_kept(arms, i + 1, l3, scrutinee, result, merge);
            lemma_extends_step(l3, end, f);
            lemma_terminated(l2, jump, f);
            lemma_emitted(l1, store, f);
            lemma_extends_step(lt, l1, f);
            assert(sound(lb));
            lemma_define_kept(lb, Width::Bit, test);
            assert(lt.function == lc.terminate(branch).function);
            lemma_terminated(lc, branch, f);
            assert(end_of(lb) == end_of(l));
            let truth = bit(holds(Predicate::EQ, v, k));
            assert(agrees(s, lb.scope, m));
            let m1 = lemma_run_write(f, lb, Width::Bit, test, m, truth, s, base);
            lemma_reaches_branch(f, end_of(lc), m1, flag, body, next);
            if v == k {
                lemma_reaches_then(f, end_of(l), m, end_of(lc), m1, end_of(lt), m1, 0, 1);
                let c1 = lemma_follows(arms[i].1, lt, f, s, fuel, m1);
                lemma_then_fails(
                    eval_arms(arms, i, v, s, fuel),
                    f,
                    end_of(l),
                    m,
                    end_of(lt),
                    m1,
                    1,
                    fuel,
                    c1,
                )
            } else {
                assert(end_of(l3) == (Point { block: next, pc: 0 }));
                lemma_reaches_then(f, end_of(l), m, end_of(lc), m1, end_of(l3), m1, 0, 1);
                assert(agrees(s, l3.scope, m1));
                let c2 = lemma_fails_arms(
                    arms,
                    i + 1,
                    w,
                    l3,
                    scrutinee,
                    result,
                    merge,
                    f,
                    v,
                    s,
                    fuel,
                    m1,
                );
                lemma_then_fails(
                    eval_arms(arms, i, v, s, fuel),
                    f,
                    end_of(l),
                    m,
                    end_of(l3),
                    m1,
                    1,
                    fuel,
                    c2,
                )
            }
        },
    }
}

} // verus!
