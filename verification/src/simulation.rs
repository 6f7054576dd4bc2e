use crate::ast::{ExprView, Pattern};
use crate::frame::{
    bounded, extends, grown, kept, lemma_close_arm, lemma_declare_kept, lemma_define_kept,
    lemma_emit_kept, lemma_enter_loop, lemma_enter_match, lemma_extends_trans, lemma_frame_extends,
    lemma_leave_loop, lemma_lower_arms_kept, lemma_lower_grows, lemma_lower_kept, lemma_steps_grow,
    lemma_test_arm, lemma_test_loop, open_here, operand_ok, sound, untouched,
};
use crate::ir::{FunctionView, Instr, Operand, Predicate, Terminator, Width, MATCH_RESULT};
use crate::lower::{binary_op, lookup, lower, lower_arms, predicate_of, Lowering};
use crate::machine::{
    arithmetic, bit, holds, register, run_from, run_instrs, step, value_of, MachineView, Outcome,
};
use crate::semantics::{eval, eval_arms, find, Evaluation, State};
use vstd::prelude::*;

verus! {

/// A place in the code of a function: in front of the instruction `pc` of
/// the block `block`, or at its terminator.
pub ghost struct Point {
    pub block: usize,
    pub pc: int,
}

/// The end of the current block.
pub open spec fn end_of(l: Lowering) -> Point {
    Point { block: l.current, pc: l.function.blocks[l.current as int].instrs.len() as int }
}

/// Whether the machine has the registers and the slots of the function.
pub open spec fn fits(m: MachineView, f: FunctionView) -> bool {
    m.registers.len() == f.registers.len() && m.memory.len() == f.slots.len()
}

/// Whether the machine holds the state `s`: each variable in scope has its
/// value in its slot, and the same has been printed.
pub open spec fn agrees(s: State, scope: Seq<(Seq<char>, usize)>, m: MachineView) -> bool {
    &&& s.env.len() == scope.len()
    &&& forall|i: int|
        0 <= i < scope.len() ==> (#[trigger] scope[i]).0 == s.env[i].0 && scope[i].1
            < m.memory.len() && m.memory[scope[i].1 as int] == Some(s.env[i].1)
    &&& m.printed == s.printed
}

/// Whether the run of `f` from the place `from` in the state `m` comes to
/// the place `to` in the state `m2`, with `k` jumps on the way: with `k`
/// jumps or more it goes on from there with the jumps that are left, and
/// with fewer it runs out of fuel.
pub open spec fn reaches(
    f: FunctionView,
    from: Point,
    m: MachineView,
    to: Point,
    m2: MachineView,
    k: nat,
) -> bool {
    &&& forall|n: nat|
        n >= k ==> #[trigger] run_from(f, from.block, from.pc, m, n) == run_from(
            f,
            to.block,
            to.pc,
            m2,
            (n - k) as nat,
        )
    &&& forall|n: nat|
        n < k ==> #[trigger] run_from(f, from.block, from.pc, m, n) == Outcome::OutOfFuel
}

/// Whether the registers below `n` hold in `m2` what they hold in `m`.
pub open spec fn registers_kept(m: MachineView, m2: MachineView, n: nat) -> bool {
    forall|r: int| 0 <= r < n ==> #[trigger] m2.registers[r] == m.registers[r]
}

pub proof fn lemma_reaches_here(f: FunctionView, p: Point, m: MachineView)
    ensures
        reaches(f, p, m, p, m, 0),
{
}

pub proof fn lemma_reaches_then(
    f: FunctionView,
    a: Point,
    ma: MachineView,
    b: Point,
    mb: MachineView,
    c: Point,
    mc: MachineView,
    k1: nat,
    k2: nat,
)
    requires
        reaches(f, a, ma, b, mb, k1),
        reaches(f, b, mb, c, mc, k2),
    ensures
        reaches(f, a, ma, c, mc, k1 + k2),
{
    assert forall|n: nat| n >= k1 + k2 implies #[trigger] run_from(f, a.block, a.pc, ma, n)
        == run_from(f, c.block, c.pc, mc, (n - (k1 + k2)) as nat) by {
        assert(run_from(f, a.block, a.pc, ma, n) == run_from(f, b.block, b.pc, mb, (n - k1) as nat));
        assert(run_from(f, b.block, b.pc, mb, (n - k1) as nat) == run_from(
            f,
            c.block,
            c.pc,
            mc,
            ((n - k1) - k2) as nat,
        ));
    }
    assert forall|n: nat| n < k1 + k2 implies #[trigger] run_from(f, a.block, a.pc, ma, n)
        == Outcome::OutOfFuel by {
        if n >= k1 {
            assert(run_from(f, a.block, a.pc, ma, n) == run_from(
                f,
                b.block,
                b.pc,
                mb,
                (n - k1) as nat,
            ));
            assert(run_from(f, b.block, b.pc, mb, (n - k1) as nat) == Outcome::OutOfFuel);
        }
    }
}

/// One instruction.
pub proof fn lemma_reaches_instr(f: FunctionView, p: Point, m: MachineView, m2: MachineView)
    requires
        p.block < f.blocks.len(),
        0 <= p.pc < f.blocks[p.block as int].instrs.len(),
        step(f.blocks[p.block as int].instrs[p.pc], m) == Some(m2),
    ensures
        reaches(f, p, m, Point { block: p.block, pc: p.pc + 1 }, m2, 0),
{
    assert forall|n: nat| n >= 0 implies #[trigger] run_from(f, p.block, p.pc, m, n) == run_from(
        f,
        p.block,
        p.pc + 1,
        m2,
        (n - 0) as nat,
    ) by {
        let instrs = f.blocks[p.block as int].instrs;
        assert(run_instrs(instrs, p.pc, m) == run_instrs(instrs, p.pc + 1, m2));
    }
}

/// A jump at the end of a block.
pub proof fn lemma_reaches_jump(f: FunctionView, p: Point, m: MachineView, target: usize)
    requires
        p.block < f.blocks.len(),
        p.pc == f.blocks[p.block as int].instrs.len(),
        f.blocks[p.block as int].terminator == Some(Terminator::Jump(target)),
    ensures
        reaches(f, p, m, Point { block: target, pc: 0 }, m, 1),
{
    assert forall|n: nat| n >= 1 implies #[trigger] run_from(f, p.block, p.pc, m, n) == run_from(
        f,
        target,
        0,
        m,
        (n - 1) as nat,
    ) by {
        let instrs = f.blocks[p.block as int].instrs;
        assert(run_instrs(instrs, p.pc, m) == Some(m));
    }
    assert forall|n: nat| n < 1 implies #[trigger] run_from(f, p.block, p.pc, m, n)
        == Outcome::OutOfFuel by {
        let instrs = f.blocks[p.block as int].instrs;
        assert(run_instrs(instrs, p.pc, m) == Some(m));
    }
}

/// A branch at the end of a block.
pub proof fn lemma_reaches_branch(
    f: FunctionView,
    p: Point,
    m: MachineView,
    cond: usize,
    then_block: usize,
    else_block: usize,
)
    requires
        p.block < f.blocks.len(),
        p.pc == f.blocks[p.block as int].instrs.len(),
        f.blocks[p.block as int].terminator == Some(
            Terminator::Branch { cond, then_block, else_block },
        ),
        register(m, cond) is Some,
    ensures
        reaches(
            f,
            p,
            m,
            Point {
                block: if register(m, cond)->0 != 0 {
                    then_block
                } else {
                    else_block
                },
                pc: 0,
            },
            m,
            1,
        ),
{
    let target = if register(m, cond)->0 != 0 {
        then_block
    } else {
        else_block
    };
    assert forall|n: nat| n >= 1 implies #[trigger] run_from(f, p.block, p.pc, m, n) == run_from(
        f,
        target,
        0,
        m,
        (n - 1) as nat,
    ) by {
        let instrs = f.blocks[p.block as int].instrs;
        assert(run_instrs(instrs, p.pc, m) == Some(m));
    }
    assert forall|n: nat| n < 1 implies #[trigger] run_from(f, p.block, p.pc, m, n)
        == Outcome::OutOfFuel by {
        let instrs = f.blocks[p.block as int].instrs;
        assert(run_instrs(instrs, p.pc, m) == Some(m));
    }
}

/// The variable that evaluation finds is the one whose slot lowering looks
/// up.
pub proof fn lemma_lookup_find(scope: Seq<(Seq<char>, usize)>, env: Seq<(Seq<char>, i64)>, name: Seq<char>)
    requires
        env.len() == scope.len(),
        forall|i: int| 0 <= i < scope.len() ==> (#[trigger] scope[i]).0 == env[i].0,
    ensures
        match find(env, name) {
            Some(i) => 0 <= i < scope.len() && lookup(scope, name) == Some(scope[i].1),
            None => lookup(scope, name) is None,
        },
    decreases scope.len(),
{
    if scope.len() > 0 {
        assert(scope.last().0 == env.last().0);
        if env.last().0 != name {
            let scope2 = scope.drop_last();
            let env2 = env.drop_last();
            assert forall|i: int| 0 <= i < scope2.len() implies (#[trigger] scope2[i]).0
                == env2[i].0 by {
                assert(scope2[i] == scope[i]);
            }
            lemma_lookup_find(scope2, env2, name);
            if let Some(i) = find(env2, name) {
                assert(scope2[i] == scope[i]);
            }
        }
    }
}

/// A function that holds the state behind a step holds the state before
/// it.
pub proof fn lemma_extends_step(l: Lowering, l2: Lowering, f: FunctionView)
    requires
        untouched(l, l2),
        open_here(l),
        extends(l2.function, f),
    ensures
        extends(l.function, f),
{
    lemma_frame_extends(l, l2);
    lemma_extends_trans(l.function, l2.function, f);
}

/// What lowering an expression gives, when a function holds the state
/// behind it.
pub proof fn lemma_lower_in(e: ExprView, l: Lowering, f: FunctionView)
    requires
        sound(l),
        lower(e, l) is Ok,
        bounded(f),
        extends(lower(e, l)->Ok_0.0.function, f),
    ensures
        kept(l, lower(e, l)->Ok_0.0),
        operand_ok(lower(e, l)->Ok_0.1, lower(e, l)->Ok_0.0),
        extends(l.function, f),
{
    lemma_lower_kept(e, l);
    lemma_extends_step(l, lower(e, l)->Ok_0.0, f);
}

/// The instruction that was put at the end of the current block stands
/// there in every function that holds the state behind it.
pub proof fn lemma_emitted(l: Lowering, instr: Instr, f: FunctionView)
    requires
        sound(l),
        extends(l.emit(instr).function, f),
    ensures
        l.current < f.blocks.len(),
        end_of(l).pc < f.blocks[l.current as int].instrs.len(),
        f.blocks[l.current as int].instrs[end_of(l).pc] == instr,
        end_of(l.emit(instr)) == (Point { block: l.current, pc: end_of(l).pc + 1 }),
        extends(l.function, f),
{
    lemma_emit_kept(l, instr);
    lemma_extends_step(l, l.emit(instr), f);
    let b = l.emit(instr).function.blocks[l.current as int];
    assert(b.instrs[end_of(l).pc] == instr);
}

/// The terminator that was put at the end of the current block stands
/// there in every function that holds the state behind it, and no
/// instruction stands behind those of the state.
pub proof fn lemma_terminated(l: Lowering, terminator: Terminator, f: FunctionView)
    requires
        sound(l),
        extends(l.terminate(terminator).function, f),
    ensures
        l.current < f.blocks.len(),
        end_of(l).pc == f.blocks[l.current as int].instrs.len(),
        f.blocks[l.current as int].terminator == Some(terminator),
        extends(l.function, f),
{
    let l2 = l.terminate(terminator);
    assert(l2.function.blocks[l.current as int].terminator is Some);
    assert(f.blocks[l.current as int] == l2.function.blocks[l.current as int]);
    lemma_extends_step(l, l2, f);
}

/// Where a run has come to, and with how many jumps.
pub ghost struct Arrival {
    pub jumps: nat,
    pub machine: MachineView,
}

/// What the simulation of an expression needs: the expression has code in
/// the state `l`, which the function `f` holds; it has a value in the state
/// `s`; and the machine `m` is one of `f` that holds `s`.
pub open spec fn simulable(
    e: ExprView,
    l: Lowering,
    f: FunctionView,
    s: State,
    fuel: nat,
    m: MachineView,
) -> bool {
    &&& sound(l)
    &&& lower(e, l) is Ok
    &&& bounded(f)
    &&& extends(lower(e, l)->Ok_0.0.function, f)
    &&& eval(e, s, fuel) is Value
    &&& agrees(s, l.scope, m)
    &&& fits(m, f)
}

/// What the simulation of an expression gives: the run comes from the end
/// of the code before the expression to the end of the code of the
/// expression; there the operand of the expression stands for its value and
/// the machine holds the state behind it; and the registers of the code
/// before the expression hold what they held.
pub open spec fn simulated(
    e: ExprView,
    l: Lowering,
    f: FunctionView,
    s: State,
    fuel: nat,
    m: MachineView,
    a: Arrival,
) -> bool {
    &&& reaches(f, end_of(l), m, end_of(lower(e, l)->Ok_0.0), a.machine, a.jumps)
    &&& value_of(a.machine, lower(e, l)->Ok_0.1) == Some(eval(e, s, fuel)->value)
    &&& agrees(eval(e, s, fuel)->state, l.scope, a.machine)
    &&& fits(a.machine, f)
    &&& registers_kept(m, a.machine, l.function.registers.len())
}

/// The state before the last steps of a lowering is sound, when the
/// function holds a state that is not smaller.
pub proof fn lemma_sound_before(e: ExprView, l: Lowering, later: FunctionView, f: FunctionView)
    requires
        sound(l),
        lower(e, l) is Ok,
        grown(lower(e, l)->Ok_0.0.function, later),
        grown(later, f),
        bounded(f),
    ensures
        kept(l, lower(e, l)->Ok_0.0),
        operand_ok(lower(e, l)->Ok_0.1, lower(e, l)->Ok_0.0),
        bounded(lower(e, l)->Ok_0.0.function),
{
    lemma_lower_kept(e, l);
}

/// The run of one instruction that writes a register.
pub proof fn lemma_run_write(
    f: FunctionView,
    l: Lowering,
    width: Width,
    instr: Instr,
    m: MachineView,
    value: i64,
    s: State,
    base: nat,
) -> (m2: MachineView)
    requires
        sound(l),
        bounded(f),
        extends(l.define(width).emit(instr).function, f),
        fits(m, f),
        agrees(s, l.scope, m),
        step(instr, m) == written_value(m, l.next_register(), value),
        base <= l.function.registers.len(),
    ensures
        reaches(f, end_of(l), m, end_of(l.define(width).emit(instr)), m2, 0),
        value_of(m2, Operand::Reg(l.next_register())) == Some(value),
        agrees(s, l.scope, m2),
        fits(m2, f),
        registers_kept(m, m2, base),
        extends(l.function, f),
        m2.memory == m.memory,
        forall|r: usize| r < l.function.registers.len() ==> register(m2, r) == register(m, r),
{
    lemma_steps_grow(l);
    lemma_steps_grow(l.define(width));
    lemma_define_kept(l, width, instr);
    lemma_emitted(l.define(width), instr, f);
    lemma_extends_step(l, l.define(width), f);
    let m2 = step(instr, m)->0;
    lemma_reaches_instr(f, end_of(l), m, m2);
    m2
}

/// The machine with `value` written into the register `dest`.
pub open spec fn written_value(m: MachineView, dest: usize, value: i64) -> Option<MachineView> {
    Some(
        MachineView {
            registers: m.registers.update(dest as int, Some(value)),
            memory: m.memory,
            printed: m.printed,
        },
    )
}

/// The run of one store.
pub proof fn lemma_run_store(
    f: FunctionView,
    l: Lowering,
    slot: usize,
    operand: Operand,
    m: MachineView,
    value: i64,
) -> (m2: MachineView)
    requires
        sound(l),
        extends(l.emit(Instr::Store { slot, value: operand }).function, f),
        fits(m, f),
        slot < f.slots.len(),
        value_of(m, operand) == Some(value),
    ensures
        reaches(f, end_of(l), m, end_of(l.emit(Instr::Store { slot, value: operand })), m2, 0),
        m2 == (MachineView { memory: m.memory.update(slot as int, Some(value)), ..m }),
        fits(m2, f),
        extends(l.function, f),
{
    let instr = Instr::Store { slot, value: operand };
    lemma_emitted(l, instr, f);
    let m2 = step(instr, m)->0;
    lemma_reaches_instr(f, end_of(l), m, m2);
    m2
}

/// Lowering and evaluation agree: the code of an expression computes its
/// value.
pub proof fn lemma_simulates(
    e: ExprView,
    l: Lowering,
    f: FunctionView,
    s: State,
    fuel: nat,
    m: MachineView,
) -> (a: Arrival)
    requires
        simulable(e, l, f, s, fuel, m),
    ensures
        simulated(e, l, f, s, fuel, m, a),
    decreases fuel, e, 2nat,
{
    match e {
        ExprView::Number(_) => {
            lemma_reaches_here(f, end_of(l), m);
            Arrival { jumps: 0, machine: m }
        },
        ExprView::Ident(name) => {
            let slot = lookup(l.scope, name)->0;
            let load = Instr::Load { dest: l.next_register(), slot };
            lemma_lookup_find(l.scope, s.env, name);
            let i = find(s.env, name)->0;
            assert(l.scope[i].1 == slot);
            lemma_steps_grow(l);
            lemma_steps_grow(l.define(Width::Word));
            lemma_define_kept(l, Width::Word, load);
            let m2 = lemma_run_write(f, l, Width::Word, load, m, s.env[i].1, s, l.function.registers.len());
            Arrival { jumps: 0, machine: m2 }
        },
        ExprView::Call(_, _) => lemma_simulates_call(e, l, f, s, fuel, m),
        ExprView::Sequence(_, _) => lemma_simulates_sequence(e, l, f, s, fuel, m),
        ExprView::Assign(_, _) => lemma_simulates_assign(e, l, f, s, fuel, m),
        ExprView::Decl(_, _, _, _) => lemma_simulates_decl(e, l, f, s, fuel, m),
        ExprView::While(_, _) => lemma_simulates_while(e, l, f, s, fuel, m),
        ExprView::Match(_, _) => lemma_simulates_match(e, l, f, s, fuel, m),
    }
}

proof fn lemma_simulates_sequence(
    e: ExprView,
    l: Lowering,
    f: FunctionView,
    s: State,
    fuel: nat,
    m: MachineView,
) -> (a: Arrival)
    requires
        e is Sequence,
        simulable(e, l, f, s, fuel, m),
    ensures
        simulated(e, l, f, s, fuel, m, a),
    decreases fuel, e, 0nat,
{
    match e {
        ExprView::Sequence(first, second) => {
            let (l1, _) = lower(*first, l)->Ok_0;
            let (l2, _) = lower(*second, l1)->Ok_0;
            let s1 = eval(*first, s, fuel)->state;
            lemma_lower_grows(*second, l1);
            lemma_sound_before(*first, l, l2.function, f);
            lemma_lower_in(*second, l1, f);
            let a1 = lemma_simulates(*first, l, f, s, fuel, m);
            let a2 = lemma_simulates(*second, l1, f, s1, fuel, a1.machine);
            lemma_reaches_then(
                f,
                end_of(l),
                m,
                end_of(l1),
                a1.machine,
                end_of(l2),
                a2.machine,
                a1.jumps,
                a2.jumps,
            );
            Arrival { jumps: a1.jumps + a2.jumps, machine: a2.machine }
        },
        _ => Arrival { jumps: 0, machine: m },
    }
}

proof fn lemma_simulates_assign(
    e: ExprView,
    l: Lowering,
    f: FunctionView,
    s: State,
    fuel: nat,
    m: MachineView,
) -> (a: Arrival)
    requires
        e is Assign,
        simulable(e, l, f, s, fuel, m),
    ensures
        simulated(e, l, f, s, fuel, m, a),
    decreases fuel, e, 0nat,
{
    match e {
        ExprView::Assign(name, value) => {
            let (l1, v) = lower(*value, l)->Ok_0;
            let slot = lookup(l1.scope, name)->0;
            let store = Instr::Store { slot, value: v };
            let l2 = l1.emit(store);
            let s1 = eval(*value, s, fuel)->state;
            let val = eval(*value, s, fuel)->value;
            lemma_steps_grow(l1);
            lemma_sound_before(*value, l, l2.function, f);
            lemma_emitted(l1, store, f);
            let a1 = lemma_simulates(*value, l, f, s, fuel, m);
            lemma_lookup_find(l.scope, s1.env, name);
            let i = find(s1.env, name)->0;
            assert(l.scope[i].1 == slot);
            let m2 = lemma_run_store(f, l1, slot, v, a1.machine, val);
            lemma_reaches_then(
                f,
                end_of(l),
                m,
                end_of(l1),
                a1.machine,
                end_of(l2),
                m2,
                a1.jumps,
                0,
            );
            let s2 = s1.assign(i, val);
            assert forall|j: int| 0 <= j < l.scope.len() implies (#[trigger] l.scope[j]).0
                == s2.env[j].0 && l.scope[j].1 < m2.memory.len() && m2.memory[l.scope[j].1 as int]
                == Some(s2.env[j].1) by {
                assert(l.scope[j].0 == s1.env[j].0);
                if j != i {
                    if j < i {
                        assert(l.scope[j].1 < l.scope[i].1);
                    } else {
                        assert(l.scope[i].1 < l.scope[j].1);
                    }
                }
            }
            Arrival { jumps: a1.jumps, machine: m2 }
        },
        _ => Arrival { jumps: 0, machine: m },
    }
}

proof fn lemma_simulates_decl(
    e: ExprView,
    l: Lowering,
    f: FunctionView,
    s: State,
    fuel: nat,
    m: MachineView,
) -> (a: Arrival)
    requires
        e is Decl,
        simulable(e, l, f, s, fuel, m),
    ensures
        simulated(e, l, f, s, fuel, m, a),
    decreases fuel, e, 0nat,
{
    match e {
        ExprView::Decl(name, _, value, body) => {
            let (l1, v) = lower(*value, l)->Ok_0;
            let slot = l1.next_slot();
            let store = Instr::Store { slot, value: v };
            let l1s = l1.slot(name);
            let l2 = l1s.emit(store).bind(name, slot);
            let (l3, result) = lower(*body, l2)->Ok_0;
            let s1 = eval(*value, s, fuel)->state;
            let val = eval(*value, s, fuel)->value;
            let s2 = s1.declare(name, val);
            let s3 = eval(*body, s2, fuel)->state;
            lemma_steps_grow(l1);
            lemma_steps_grow(l1s);
            lemma_lower_grows(*body, l2);
            lemma_sound_before(*value, l, l3.function, f);
            lemma_declare_kept(l1, name, v);
            assert(extends(l3.function, f));
            lemma_lower_in(*body, l2, f);
            assert(sound(l1s));
            lemma_emitted(l1s, store, f);
            lemma_extends_step(l1, l1s, f);
            let a1 = lemma_simulates(*value, l, f, s, fuel, m);
            let m2 = lemma_run_store(f, l1s, slot, v, a1.machine, val);
            assert(end_of(l1s) == end_of(l1));
            assert(end_of(l2) == end_of(l1s.emit(store)));
            lemma_reaches_then(
                f,
                end_of(l),
                m,
                end_of(l1),
                a1.machine,
                end_of(l2),
                m2,
                a1.jumps,
                0,
            );
            assert forall|j: int| 0 <= j < l2.scope.len() implies (#[trigger] l2.scope[j]).0
                == s2.env[j].0 && l2.scope[j].1 < m2.memory.len() && m2.memory[l2.scope[j].1 as int]
                == Some(s2.env[j].1) by {
                if j < l1.scope.len() {
                    assert(l2.scope[j] == l1.scope[j]);
                    assert(l1.scope[j].0 == s1.env[j].0);
                }
            }
            let a3 = lemma_simulates(*body, l2, f, s2, fuel, m2);
            lemma_reaches_then(
                f,
                end_of(l),
                m,
                end_of(l2),
                m2,
                end_of(l3),
                a3.machine,
                a1.jumps,
                a3.jumps,
            );
            assert(end_of(l3.unbind()) == end_of(l3));
            assert forall|j: int| 0 <= j < l.scope.len() implies (#[trigger] l.scope[j]).0
                == s3.leave().env[j].0 && l.scope[j].1 < a3.machine.memory.len()
                && a3.machine.memory[l.scope[j].1 as int] == Some(s3.leave().env[j].1) by {
                assert(l2.scope[j] == l.scope[j]);
            }
            Arrival { jumps: a1.jumps + a3.jumps, machine: a3.machine }
        },
        _ => Arrival { jumps: 0, machine: m },
    }
}

proof fn lemma_simulates_call(
    e: ExprView,
    l: Lowering,
    f: FunctionView,
    s: State,
    fuel: nat,
    m: MachineView,
) -> (a: Arrival)
    requires
        e is Call,
        simulable(e, l, f, s, fuel, m),
    ensures
        simulated(e, l, f, s, fuel, m, a),
    decreases fuel, e, 0nat,
{
    match e {
        ExprView::Call(head, args) => {
            if head == "print"@ && args.len() == 1 {
                let (l1, v) = lower(args[0], l)->Ok_0;
                let print = Instr::Print { value: v };
                let l2 = l1.emit(print);
                let val = eval(args[0], s, fuel)->value;
                lemma_steps_grow(l1);
                lemma_sound_before(args[0], l, l2.function, f);
                lemma_emitted(l1, print, f);
                let a1 = lemma_simulates(args[0], l, f, s, fuel, m);
                let m2 = step(print, a1.machine)->0;
                lemma_reaches_instr(f, end_of(l1), a1.machine, m2);
                lemma_reaches_then(
                    f,
                    end_of(l),
                    m,
                    end_of(l1),
                    a1.machine,
                    end_of(l2),
                    m2,
                    a1.jumps,
                    0,
                );
                Arrival { jumps: a1.jumps, machine: m2 }
            } else {
                let (l1, lhs) = lower(args[0], l)->Ok_0;
                let (l2, rhs) = lower(args[1], l1)->Ok_0;
                let s1 = eval(args[0], s, fuel)->state;
                let va = eval(args[0], s, fuel)->value;
                let s2 = eval(args[1], s1, fuel)->state;
                let vb = eval(args[1], s1, fuel)->value;
                let last = lower(e, l)->Ok_0.0;
                lemma_lower_grows(e, l);
                lemma_lower_grows(args[1], l1);
                lemma_steps_grow(l2);
                lemma_steps_grow(l2.define(Width::Word));
                lemma_steps_grow(l2.define(Width::Bit));
                if binary_op(head) is Some {
                    let op = binary_op(head)->0;
                    let instr = Instr::Binary { dest: l2.next_register(), op, lhs, rhs };
                    lemma_sound_before(args[0], l, last.function, f);
                    lemma_sound_before(args[1], l1, last.function, f);
                    lemma_define_kept(l2, Width::Word, instr);
                    lemma_emitted(l2.define(Width::Word), instr, f);
                    lemma_extends_step(l2, l2.define(Width::Word), f);
                    lemma_extends_step(l1, l2, f);
                    let a1 = lemma_simulates(args[0], l, f, s, fuel, m);
                    let a2 = lemma_simulates(args[1], l1, f, s1, fuel, a1.machine);
                    assert(value_of(a2.machine, lhs) == Some(va));
                    let m3 = lemma_run_write(
                        f,
                        l2,
                        Width::Word,
                        instr,
                        a2.machine,
                        arithmetic(op, va, vb)->0,
                        s2,
                        l.function.registers.len(),
                    );
                    lemma_reaches_then(
                        f,
                        end_of(l),
                        m,
                        end_of(l1),
                        a1.machine,
                        end_of(l2),
                        a2.machine,
                        a1.jumps,
                        a2.jumps,
                    );
                    lemma_reaches_then(
                        f,
                        end_of(l),
                        m,
                        end_of(l2),
                        a2.machine,
                        end_of(last),
                        m3,
                        a1.jumps + a2.jumps,
                        0,
                    );
                    Arrival { jumps: a1.jumps + a2.jumps, machine: m3 }
                } else {
                    let predicate = predicate_of(head)->0;
                    let flag = l2.next_register();
                    let test = Instr::Compare { dest: flag, predicate, lhs, rhs };
                    let l3 = l2.define(Width::Bit).emit(test);
                    let extend = Instr::Extend { dest: l3.next_register(), source: flag };
                    lemma_steps_grow(l3);
                    lemma_steps_grow(l3.define(Width::Word));
                    lemma_sound_before(args[0], l, last.function, f);
                    lemma_sound_before(args[1], l1, last.function, f);
                    lemma_define_kept(l2, Width::Bit, test);
                    lemma_define_kept(l3, Width::Word, extend);
                    lemma_emitted(l3.define(Width::Word), extend, f);
                    lemma_extends_step(l3, l3.define(Width::Word), f);
                    lemma_extends_step(l2, l3, f);
                    lemma_extends_step(l1, l2, f);
                    let a1 = lemma_simulates(args[0], l, f, s, fuel, m);
                    let a2 = lemma_simulates(args[1], l1, f, s1, fuel, a1.machine);
                    assert(value_of(a2.machine, lhs) == Some(va));
                    let truth = bit(holds(predicate, va, vb));
                    let m3 = lemma_run_write(
                        f,
                        l2,
                        Width::Bit,
                        test,
                        a2.machine,
                        truth,
                        s2,
                        l.function.registers.len(),
                    );
                    let m4 = lemma_run_write(
                        f,
                        l3,
                        Width::Word,
                        extend,
                        m3,
                        truth,
                        s2,
                        l.function.registers.len(),
                    );
                    lemma_reaches_then(
                        f,
                        end_of(l),
                        m,
                        end_of(l1),
                        a1.machine,
                        end_of(l2),
                        a2.machine,
                        a1.jumps,
                        a2.jumps,
                    );
                    lemma_reaches_then(
                        f,
                        end_of(l),
                        m,
                        end_of(l2),
                        a2.machine,
                        end_of(l3),
                        m3,
                        a1.jumps + a2.jumps,
                        0,
                    );
                    lemma_reaches_then(
                        f,
                        end_of(l),
                        m,
                        end_of(l3),
                        m3,
                        end_of(last),
                        m4,
                        a1.jumps + a2.jumps,
                        0,
                    );
                    Arrival { jumps: a1.jumps + a2.jumps, machine: m4 }
                }
            }
        },
        _ => Arrival { jumps: 0, machine: m },
    }
}

pub proof fn lemma_registers_kept_then(
    m: MachineView,
    m1: MachineView,
    m2: MachineView,
    n1: nat,
    n2: nat,
    n: nat,
)
    requires
        registers_kept(m, m1, n1),
        registers_kept(m1, m2, n2),
        n <= n1,
        n <= n2,
    ensures
        registers_kept(m, m2, n),
{
    assert forall|r: int| 0 <= r < n implies #[trigger] m2.registers[r] == m.registers[r] by {
        assert(m1.registers[r] == m.registers[r]);
        assert(m2.registers[r] == m1.registers[r]);
    }
}

/// The states of the lowering of a loop, and what a function that holds
/// the last of them holds.
pub open spec fn loop_shape(e: ExprView, l: Lowering, f: FunctionView) -> bool {
    let cond = e->While_0;
    let body = e->While_1;
    let header = l.next_block();
    let l3 = l.enter_loop();
    let (l4, c) = lower(*cond, l3)->Ok_0;
    let flag = l4.next_register();
    let test = Instr::Compare {
        dest: flag,
        predicate: Predicate::NE,
        lhs: c,
        rhs: Operand::Const(0),
    };
    let l4t = l4.define(Width::Bit).emit(test);
    let l5 = l4.test_loop(c, header);
    let (l6, _) = lower(*body, l5)->Ok_0;
    let l7 = l6.leave_loop(header);
    &&& lower(*cond, l3) is Ok
    &&& lower(*body, l5) is Ok
    &&& lower(e, l) == Ok::<(Lowering, Operand), crate::lower::LowerError>((l7, Operand::Const(0)))
    &&& header == l.function.blocks.len()
    &&& sound(l3) && sound(l4) && sound(l5) && sound(l6)
    &&& l3.scope == l.scope && l4.scope == l.scope && l5.scope == l.scope && l6.scope == l.scope
    &&& extends(l3.function, f) && extends(l4.function, f) && extends(l5.function, f) && extends(
        l6.function,
        f,
    )
    &&& extends(l4t.function, f)
    &&& l.function.registers.len() == l3.function.registers.len()
    &&& l3.function.registers.len() <= l4.function.registers.len()
    &&& flag == l4.function.registers.len()
    &&& l4.function.registers.len() < l5.function.registers.len()
    &&& l5.function.registers.len() <= l6.function.registers.len()
    &&& operand_ok(c, l4)
    &&& end_of(l3) == (Point { block: header, pc: 0 })
    &&& end_of(l5) == (Point { block: (header + 1) as usize, pc: 0 })
    &&& end_of(l7) == (Point { block: (header + 2) as usize, pc: 0 })
    &&& end_of(l4t) == (Point { block: l4.current, pc: end_of(l4).pc + 1 })
    &&& l.current < f.blocks.len()
    &&& end_of(l).pc == f.blocks[l.current as int].instrs.len()
    &&& f.blocks[l.current as int].terminator == Some(Terminator::Jump(header))
    &&& l4.current < f.blocks.len()
    &&& end_of(l4t).pc == f.blocks[l4.current as int].instrs.len()
    &&& f.blocks[l4.current as int].terminator == Some(
        Terminator::Branch {
            cond: flag,
            then_block: (header + 1) as usize,
            else_block: (header + 2) as usize,
        },
    )
    &&& l6.current < f.blocks.len()
    &&& end_of(l6).pc == f.blocks[l6.current as int].instrs.len()
    &&& f.blocks[l6.current as int].terminator == Some(Terminator::Jump(header))
}

pub proof fn lemma_loop_shape(e: ExprView, l: Lowering, f: FunctionView)
    requires
        e is While,
        sound(l),
        lower(e, l) is Ok,
        bounded(f),
        extends(lower(e, l)->Ok_0.0.function, f),
    ensures
        loop_shape(e, l, f),
{
    let cond = e->While_0;
    let body = e->While_1;
    let header = l.next_block();
    let l3 = l.enter_loop();
    let (l4, c) = lower(*cond, l3)->Ok_0;
    let flag = l4.next_register();
    let test = Instr::Compare {
        dest: flag,
        predicate: Predicate::NE,
        lhs: c,
        rhs: Operand::Const(0),
    };
    let l4t = l4.define(Width::Bit).emit(test);
    let branch = Terminator::Branch {
        cond: flag,
        then_block: (header + 1) as usize,
        else_block: (header + 2) as usize,
    };
    let l5 = l4.test_loop(c, header);
    let (l6, _) = lower(*body, l5)->Ok_0;
    let l7 = l6.leave_loop(header);
    lemma_steps_grow(l);
    lemma_lower_grows(*cond, l3);
    lemma_steps_grow(l4);
    lemma_lower_grows(*body, l5);
    lemma_steps_grow(l6);
    lemma_enter_loop(l);
    lemma_lower_kept(*cond, l3);
    lemma_test_loop(l, l4, c);
    lemma_lower_kept(*body, l5);
    lemma_leave_loop(l, l5, l6);
    // From the end backwards: what the function holds.
    lemma_terminated(l6, Terminator::Jump(header), f);
    lemma_extends_step(l5, l6, f);
    lemma_define_kept(l4, Width::Bit, test);
    assert(l5.function == l4t.terminate(branch).function);
    lemma_terminated(l4t, branch, f);
    lemma_emitted(l4.define(Width::Bit), test, f);
    lemma_extends_step(l4, l4.define(Width::Bit), f);
    lemma_extends_step(l3, l4, f);
    let lb = l.block(crate::ir::Label::LoopHeader).block(crate::ir::Label::LoopBody).block(
        crate::ir::Label::LoopExit,
    );
    assert(l3.function == lb.terminate(Terminator::Jump(header)).function);
    assert(sound(lb));
    lemma_terminated(lb, Terminator::Jump(header), f);
    assert(end_of(lb) == end_of(l));
}

proof fn lemma_simulates_while(
    e: ExprView,
    l: Lowering,
    f: FunctionView,
    s: State,
    fuel: nat,
    m: MachineView,
) -> (a: Arrival)
    requires
        e is While,
        simulable(e, l, f, s, fuel, m),
    ensures
        simulated(e, l, f, s, fuel, m, a),
    decreases fuel, e, 1nat,
{
    lemma_loop_shape(e, l, f);
    let header = l.next_block();
    lemma_reaches_jump(f, end_of(l), m, header);
    let a = lemma_simulates_rounds(e, l, f, s, fuel, m);
    lemma_reaches_then(
        f,
        end_of(l),
        m,
        Point { block: header, pc: 0 },
        m,
        end_of(lower(e, l)->Ok_0.0),
        a.machine,
        1,
        a.jumps,
    );
    Arrival { jumps: 1 + a.jumps, machine: a.machine }
}

/// The rounds of a loop, from its header to its exit.
proof fn lemma_simulates_rounds(
    e: ExprView,
    l: Lowering,
    f: FunctionView,
    s: State,
    fuel: nat,
    m: MachineView,
) -> (a: Arrival)
    requires
        e is While,
        simulable(e, l, f, s, fuel, m),
        loop_shape(e, l, f),
    ensures
        reaches(
            f,
            Point { block: l.next_block(), pc: 0 },
            m,
            end_of(lower(e, l)->Ok_0.0),
            a.machine,
            a.jumps,
        ),
        eval(e, s, fuel)->value == 0,
        agrees(eval(e, s, fuel)->state, l.scope, a.machine),
        fits(a.machine, f),
        registers_kept(m, a.machine, l.function.registers.len()),
    decreases fuel, e, 0nat,
{
    let cond = e->While_0;
    let body = e->While_1;
    let header = l.next_block();
    let top = Point { block: header, pc: 0 };
    let l3 = l.enter_loop();
    let (l4, c) = lower(*cond, l3)->Ok_0;
    let flag = l4.next_register();
    let test = Instr::Compare {
        dest: flag,
        predicate: Predicate::NE,
        lhs: c,
        rhs: Operand::Const(0),
    };
    let l4t = l4.define(Width::Bit).emit(test);
    let l5 = l4.test_loop(c, header);
    let (l6, _) = lower(*body, l5)->Ok_0;
    let l7 = l6.leave_loop(header);
    let base = l.function.registers.len();
    let s1 = eval(*cond, s, fuel)->state;
    let cv = eval(*cond, s, fuel)->value;
    let a1 = lemma_simulates(*cond, l3, f, s, fuel, m);
    let truth = bit(holds(Predicate::NE, cv, 0));
    let m2 = lemma_run_write(f, l4, Width::Bit, test, a1.machine, truth, s1, base);
    lemma_reaches_then(f, top, m, end_of(l4), a1.machine, end_of(l4t), m2, a1.jumps, 0);
    lemma_registers_kept_then(m, a1.machine, m2, base, base, base);
    lemma_reaches_branch(f, end_of(l4t), m2, flag, (header + 1) as usize, (header + 2) as usize);
    if cv == 0 {
        lemma_reaches_then(f, top, m, end_of(l4t), m2, end_of(l7), m2, a1.jumps, 1);
        Arrival { jumps: a1.jumps + 1, machine: m2 }
    } else {
        lemma_reaches_then(f, top, m, end_of(l4t), m2, end_of(l5), m2, a1.jumps, 1);
        let s2 = eval(*body, s1, fuel)->state;
        let a3 = lemma_simulates(*body, l5, f, s1, fuel, m2);
        lemma_reaches_then(
            f,
            top,
            m,
            end_of(l5),
            m2,
            end_of(l6),
            a3.machine,
            a1.jumps + 1,
            a3.jumps,
        );
        lemma_registers_kept_then(m, m2, a3.machine, base, l5.function.registers.len(), base);
        lemma_reaches_jump(f, end_of(l6), a3.machine, header);
        lemma_reaches_then(
            f,
            top,
            m,
            end_of(l6),
            a3.machine,
            top,
            a3.machine,
            a1.jumps + 1 + a3.jumps,
            1,
        );
        let a4 = lemma_simulates_rounds(e, l, f, s2, (fuel - 1) as nat, a3.machine);
        lemma_reaches_then(
            f,
            top,
            m,
            top,
            a3.machine,
            end_of(l7),
            a4.machine,
            a1.jumps + 1 + a3.jumps + 1,
            a4.jumps,
        );
        lemma_registers_kept_then(m, a3.machine, a4.machine, base, base, base);
        Arrival { jumps: a1.jumps + 1 + a3.jumps + 1 + a4.jumps, machine: a4.machine }
    }
}

/// The states of the lowering of a match, and what a function that holds
/// the last of them holds.
pub open spec fn match_shape(e: ExprView, l: Lowering, f: FunctionView) -> bool {
    let scrutinee = e->Match_0;
    let arms = e->Match_1;
    let (l1, sv) = lower(*scrutinee, l)->Ok_0;
    let merge = l1.next_block();
    let result = l1.next_slot();
    let la = l1.enter_match();
    let l5 = lower_arms(arms, 0, la, sv, result, merge)->Ok_0;
    let l6 = l5.at(merge);
    let load = Instr::Load { dest: l6.next_register(), slot: result };
    let l7 = l6.define(Width::Word).emit(load);
    &&& lower(*scrutinee, l) is Ok
    &&& lower_arms(arms, 0, la, sv, result, merge) is Ok
    &&& lower(e, l) == Ok::<(Lowering, Operand), crate::lower::LowerError>(
        (l7, Operand::Reg(l6.next_register())),
    )
    &&& merge == l1.function.blocks.len()
    &&& result == l1.function.slots.len()
    &&& sound(l1) && sound(la) && sound(l6)
    &&& l1.scope == l.scope && la.scope == l.scope && l5.scope == l.scope
    &&& extends(l1.function, f) && extends(la.function, f) && extends(l5.function, f) && extends(
        l7.function,
        f,
    )
    &&& operand_ok(sv, l1)
    &&& l.function.registers.len() <= l1.function.registers.len()
    &&& la.function.registers == l1.function.registers
    &&& la.function.registers.len() <= l5.function.registers.len()
    &&& la.function.slots.len() == result + 1
    &&& end_of(la) == (Point { block: (merge + 1) as usize, pc: 0 })
    &&& end_of(l6) == (Point { block: merge, pc: 0 })
    &&& la.function.blocks[merge as int].instrs.len() == 0
    &&& merge < la.function.blocks.len()
    &&& merge != la.current
    &&& l1.current < f.blocks.len()
    &&& end_of(l1).pc == f.blocks[l1.current as int].instrs.len()
    &&& f.blocks[l1.current as int].terminator == Some(Terminator::Jump((merge + 1) as usize))
}

pub proof fn lemma_match_shape(e: ExprView, l: Lowering, f: FunctionView)
    requires
        e is Match,
        sound(l),
        lower(e, l) is Ok,
        bounded(f),
        extends(lower(e, l)->Ok_0.0.function, f),
    ensures
        match_shape(e, l, f),
{
    let scrutinee = e->Match_0;
    let arms = e->Match_1;
    let (l1, sv) = lower(*scrutinee, l)->Ok_0;
    let merge = l1.next_block();
    let result = l1.next_slot();
    let la = l1.enter_match();
    let l5 = lower_arms(arms, 0, la, sv, result, merge)->Ok_0;
    let l6 = l5.at(merge);
    let load = Instr::Load { dest: l6.next_register(), slot: result };
    let l7 = l6.define(Width::Word).emit(load);
    lemma_steps_grow(l1);
    crate::frame::lemma_lower_arms_grows(arms, 0, la, sv, result, merge);
    lemma_steps_grow(l6);
    lemma_steps_grow(l6.define(Width::Word));
    lemma_lower_kept(*scrutinee, l);
    lemma_enter_match(l1);
    lemma_lower_arms_kept(arms, 0, la, sv, result, merge);
    assert(l5.function.blocks[merge as int] == la.function.blocks[merge as int]);
    assert(sound(l6));
    lemma_define_kept(l6, Width::Word, load);
    lemma_emitted(l6.define(Width::Word), load, f);
    lemma_extends_step(l6, l6.define(Width::Word), f);
    assert(l6.function == l5.function);
    lemma_extends_step(la, l5, f);
    let lb = l1.block(crate::ir::Label::MatchMerge).slot(MATCH_RESULT@).block(
        crate::ir::Label::MatchCheck(0),
    );
    let jump = Terminator::Jump((merge + 1) as usize);
    assert(la.function == lb.terminate(jump).function);
    assert(sound(lb)) by {
        assert forall|i: int| 0 <= i < lb.scope.len() implies (#[trigger] lb.scope[i]).1
            < lb.function.slots.len() by {
            assert(lb.scope[i] == l1.scope[i]);
        }
    }
    lemma_terminated(lb, jump, f);
    assert(end_of(lb) == end_of(l1));
    assert(untouched(l1, lb));
    lemma_extends_step(l1, lb, f);
}

proof fn lemma_simulates_match(
    e: ExprView,
    l: Lowering,
    f: FunctionView,
    s: State,
    fuel: nat,
    m: MachineView,
) -> (a: Arrival)
    requires
        e is Match,
        simulable(e, l, f, s, fuel, m),
    ensures
        simulated(e, l, f, s, fuel, m, a),
    decreases fuel, e, 0nat,
{
    lemma_match_shape(e, l, f);
    let scrutinee = e->Match_0;
    let arms = e->Match_1;
    let (l1, sv) = lower(*scrutinee, l)->Ok_0;
    let merge = l1.next_block();
    let result = l1.next_slot();
    let la = l1.enter_match();
    let l5 = lower_arms(arms, 0, la, sv, result, merge)->Ok_0;
    let l6 = l5.at(merge);
    let load = Instr::Load { dest: l6.next_register(), slot: result };
    let l7 = l6.define(Width::Word).emit(load);
    let base = l.function.registers.len();
    let s1 = eval(*scrutinee, s, fuel)->state;
    let v = eval(*scrutinee, s, fuel)->value;
    let s2 = eval_arms(arms, 0, v, s1, fuel)->state;
    let value = eval_arms(arms, 0, v, s1, fuel)->value;
    let a1 = lemma_simulates(*scrutinee, l, f, s, fuel, m);
    lemma_reaches_jump(f, end_of(l1), a1.machine, (merge + 1) as usize);
    lemma_reaches_then(f, end_of(l), m, end_of(l1), a1.machine, end_of(la), a1.machine, a1.jumps, 1);
    assert(scope_below(la.scope, result)) by {
        assert forall|i: int| 0 <= i < la.scope.len() implies (#[trigger] la.scope[i]).1
            < result by {
            assert(la.scope[i] == l1.scope[i]);
        }
    }
    let a2 = lemma_simulates_arms(arms, 0, la, sv, result, merge, f, v, s1, fuel, a1.machine);
    lemma_reaches_then(
        f,
        end_of(l),
        m,
        end_of(la),
        a1.machine,
        end_of(l6),
        a2.machine,
        a1.jumps + 1,
        a2.jumps,
    );
    lemma_registers_kept_then(m, a1.machine, a2.machine, base, la.function.registers.len(), base);
    let m3 = lemma_run_write(f, l6, Width::Word, load, a2.machine, value, s2, base);
    lemma_reaches_then(
        f,
        end_of(l),
        m,
        end_of(l6),
        a2.machine,
        end_of(l7),
        m3,
        a1.jumps + 1 + a2.jumps,
        0,
    );
    lemma_registers_kept_then(m, a2.machine, m3, base, base, base);
    Arrival { jumps: a1.jumps + 1 + a2.jumps, machine: m3 }
}

/// Whether every variable in scope has a slot below `result`.
pub open spec fn scope_below(scope: Seq<(Seq<char>, usize)>, result: usize) -> bool {
    forall|i: int| 0 <= i < scope.len() ==> (#[trigger] scope[i]).1 < result
}

/// The arms of a match from the arm `i` on: the run comes from the test of
/// the arm `i` to the block in which the arms meet, with the value of the
/// first arm that matches in the slot for the result.
pub proof fn lemma_simulates_arms(
    arms: Seq<(Pattern, ExprView)>,
    i: int,
    l: Lowering,
    scrutinee: Operand,
    result: usize,
    merge: usize,
    f: FunctionView,
    v: i64,
    s: State,
    fuel: nat,
    m: MachineView,
) -> (a: Arrival)
    requires
        0 <= i,
        sound(l),
        merge < l.function.blocks.len(),
        merge != l.current,
        l.function.blocks[merge as int].instrs.len() == 0,
        result < l.function.slots.len(),
        scope_below(l.scope, result),
        lower_arms(arms, i, l, scrutinee, result, merge) is Ok,
        bounded(f),
        extends(lower_arms(arms, i, l, scrutinee, result, merge)->Ok_0.function, f),
        operand_ok(scrutinee, l),
        value_of(m, scrutinee) == Some(v),
        eval_arms(arms, i, v, s, fuel) is Value,
        agrees(s, l.scope, m),
        fits(m, f),
    ensures
        reaches(f, end_of(l), m, Point { block: merge, pc: 0 }, a.machine, a.jumps),
        result < a.machine.memory.len(),
        a.machine.memory[result as int] == Some(eval_arms(arms, i, v, s, fuel)->value),
        agrees(eval_arms(arms, i, v, s, fuel)->state, l.scope, a.machine),
        fits(a.machine, f),
        registers_kept(m, a.machine, l.function.registers.len()),
    decreases fuel, arms, arms.len() - i,
{
    let end = lower_arms(arms, i, l, scrutinee, result, merge)->Ok_0;
    let base = l.function.registers.len();
    crate::frame::lemma_lower_arms_grows(arms, i, l, scrutinee, result, merge);
    match arms[i].0 {
        Pattern::Wildcard => {
            let (l1, op) = lower(arms[i].1, l)->Ok_0;
            let store = Instr::Store { slot: result, value: op };
            let l2 = l1.emit(store);
            let jump = Terminator::Jump(merge);
            lemma_steps_grow(l1);
            lemma_steps_grow(l2);
            lemma_sound_before(arms[i].1, l, end.function, f);
            lemma_emit_kept(l1, store);
            lemma_terminated(l2, jump, f);
            lemma_emitted(l1, store, f);
            let value = eval(arms[i].1, s, fuel)->value;
            let a1 = lemma_simulates(arms[i].1, l, f, s, fuel, m);
            let m2 = lemma_run_store(f, l1, result, op, a1.machine, value);
            lemma_reaches_jump(f, end_of(l2), m2, merge);
            lemma_reaches_then(f, end_of(l), m, end_of(l1), a1.machine, end_of(l2), m2, a1.jumps, 0);
            lemma_reaches_then(
                f,
                end_of(l),
                m,
                end_of(l2),
                m2,
                Point { block: merge, pc: 0 },
                m2,
                a1.jumps,
                1,
            );
            Arrival { jumps: a1.jumps + 1, machine: m2 }
        },
        Pattern::Literal(k) => {
            let n = arms.len();
            let lt = l.test_arm(i, n, scrutinee, k, merge);
            let next = l.next_check(i, n, merge);
            let flag = l.next_register();
            let body = l.next_block();
            let (l1, op) = lower(arms[i].1, lt)->Ok_0;
            let store = Instr::Store { slot: result, value: op };
            let l2 = l1.emit(store);
            let jump = Terminator::Jump(merge);
            let l3 = l2.terminate(jump).at(next);
            let test = Instr::Compare {
                dest: flag,
                predicate: Predicate::EQ,
                lhs: scrutinee,
                rhs: Operand::Const(k),
            };
            let branch = Terminator::Branch { cond: flag, then_block: body, else_block: next };
            let lb = if i + 1 < n {
                l.block(crate::ir::Label::MatchArm(i as usize)).block(
                    crate::ir::Label::MatchCheck((i + 1) as usize),
                )
            } else {
                l.block(crate::ir::Label::MatchArm(i as usize))
            };
            let lc = lb.define(Width::Bit).emit(test);
            lemma_steps_grow(l);
            lemma_lower_grows(arms[i].1, lt);
            lemma_steps_grow(l1);
            lemma_steps_grow(l2);
            crate::frame::lemma_lower_arms_grows(arms, i + 1, l3, scrutinee, result, merge);
            lemma_test_arm(l, i, n, scrutinee, k, merge);
            lemma_lower_kept(arms[i].1, lt);
            lemma_close_arm(lt, l1, op, result, merge);
            lemma_emit_kept(l1, store);
            assert(untouched(l2, l3));
            assert(open_here(l2));
            if i + 1 < n {
                assert(l1.function.blocks[next as int] == lt.function.blocks[next as int]);
                assert(l3.function.blocks[next as int] == l1.function.blocks[next as int]);
                assert(sound(l3));
                lemma_lower_arms_kept(arms, i + 1, l3, scrutinee, result, merge);
                lemma_extends_step(l3, end, f);
            }
            assert(extends(l3.function, f));
            lemma_terminated(l2, jump, f);
            lemma_emitted(l1, store, f);
            lemma_extends_step(lt, l1, f);
            assert(sound(lb));
            lemma_define_kept(lb, Width::Bit, test);
            assert(lt.function == lc.terminate(branch).function);
            lemma_terminated(lc, branch, f);
            assert(end_of(lb) == end_of(l));
            let truth = bit(holds(Predicate::EQ, v, k));
            assert(agrees(s, lb.scope, m));
            let m1 = lemma_run_write(f, lb, Width::Bit, test, m, truth, s, base);
            lemma_reaches_branch(f, end_of(lc), m1, flag, body, next);
            if v == k {
                lemma_reaches_then(f, end_of(l), m, end_of(lc), m1, end_of(lt), m1, 0, 1);
                let value = eval(arms[i].1, s, fuel)->value;
                let a1 = lemma_simulates(arms[i].1, lt, f, s, fuel, m1);
                let m2 = lemma_run_store(f, l1, result, op, a1.machine, value);
                lemma_reaches_jump(f, end_of(l2), m2, merge);
                lemma_reaches_then(f, end_of(l), m, end_of(lt), m1, end_of(l1), a1.machine, 1, a1.jumps);
                lemma_reaches_then(
                    f,
                    end_of(l),
                    m,
                    end_of(l1),
                    a1.machine,
                    end_of(l2),
                    m2,
                    1 + a1.jumps,
                    0,
                );
                lemma_reaches_then(
                    f,
                    end_of(l),
                    m,
                    end_of(l2),
                    m2,
                    Point { block: merge, pc: 0 },
                    m2,
                    1 + a1.jumps,
                    1,
                );
                lemma_registers_kept_then(m, m1, a1.machine, base, lt.function.registers.len(), base);
                Arrival { jumps: 1 + a1.jumps + 1, machine: m2 }
            } else {
                assert(end_of(l3) == (Point { block: next, pc: 0 }));
                lemma_reaches_then(f, end_of(l), m, end_of(lc), m1, end_of(l3), m1, 0, 1);
                assert(agrees(s, l3.scope, m1));
                let a2 = lemma_simulates_arms(
                    arms,
                    i + 1,
                    l3,
                    scrutinee,
                    result,
                    merge,
                    f,
                    v,
                    s,
                    fuel,
                    m1,
                );
                lemma_reaches_then(
                    f,
                    end_of(l),
                    m,
                    end_of(l3),
                    m1,
                    Point { block: merge, pc: 0 },
                    a2.machine,
                    1,
                    a2.jumps,
                );
                lemma_registers_kept_then(m, m1, a2.machine, base, l3.function.registers.len(), base);
                Arrival { jumps: 1 + a2.jumps, machine: a2.machine }
            }
        },
    }
}

} // verus!
