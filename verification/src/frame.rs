use crate::ast::{ExprView, Pattern};
use crate::ir::{BlockView, Function, FunctionView, Instr, Label, Operand, Terminator, Width};
use crate::lower::{binary_op, lookup, lower, lower_arms, predicate_of, Lowering};
use vstd::prelude::*;

verus! {

/// Whether the sizes of a function fit machine integers.
pub open spec fn bounded(f: FunctionView) -> bool {
    f.blocks.len() <= usize::MAX && f.registers.len() <= usize::MAX && f.slots.len() <= usize::MAX
}

/// A function in memory has sizes that fit machine integers.
pub proof fn lemma_code_is_bounded(f: Function)
    ensures
        bounded(f@),
{
    assert(f.blocks.len() == f@.blocks.len());
    assert(f.registers.len() == f@.registers.len());
    assert(f.slots.len() == f@.slots.len());
}

/// Whether the current block exists and has no terminator yet.
pub open spec fn open_here(l: Lowering) -> bool {
    l.ready() && l.function.blocks[l.current as int].terminator is None
}

/// Whether the variables in scope have slots of the function, each later
/// one a later slot.
pub open spec fn scope_ok(l: Lowering) -> bool {
    &&& forall|i: int|
        0 <= i < l.scope.len() ==> (#[trigger] l.scope[i]).1 < l.function.slots.len()
    &&& forall|i: int, j: int|
        0 <= i < j < l.scope.len() ==> (#[trigger] l.scope[i]).1 < (#[trigger] l.scope[j]).1
}

/// The invariant of lowering.
pub open spec fn sound(l: Lowering) -> bool {
    open_here(l) && scope_ok(l)
}

/// Whether the block `b` begins with the instructions of `a`.
pub open spec fn instrs_kept(a: BlockView, b: BlockView) -> bool {
    &&& a.instrs.len() <= b.instrs.len()
    &&& forall|i: int| 0 <= i < a.instrs.len() ==> #[trigger] b.instrs[i] == a.instrs[i]
}

/// Whether `g` has at least the blocks, registers and slots of `f`.
pub open spec fn grown(f: FunctionView, g: FunctionView) -> bool {
    &&& f.blocks.len() <= g.blocks.len()
    &&& f.registers.len() <= g.registers.len()
    &&& f.slots.len() <= g.slots.len()
}

/// Whether every block of `l` but its current one is in `l2` as it is in
/// `l`, and the current one of `l` begins in `l2` as it is in `l`.
pub open spec fn untouched(l: Lowering, l2: Lowering) -> bool {
    &&& grown(l.function, l2.function)
    &&& forall|b: int|
        0 <= b < l.function.blocks.len() && b != l.current ==> #[trigger] l2.function.blocks[b]
            == l.function.blocks[b]
    &&& instrs_kept(l.function.blocks[l.current as int], l2.function.blocks[l.current as int])
}

/// What lowering an expression in the state `l` leaves of `l` in the state
/// `l2` behind it: the blocks as `untouched` says, and the current block
/// the same or a new one.
pub open spec fn frame(l: Lowering, l2: Lowering) -> bool {
    &&& untouched(l, l2)
    &&& (l2.current == l.current || l2.current >= l.function.blocks.len())
}

/// Whether the operand is a constant or a register of the function.
pub open spec fn operand_ok(operand: Operand, l: Lowering) -> bool {
    operand matches Operand::Reg(r) ==> r < l.function.registers.len()
}

/// Whether `g` holds all that `f` holds: the instructions of each block
/// of `f`, in front, and every complete block of `f` as it is.
pub open spec fn extends(f: FunctionView, g: FunctionView) -> bool {
    &&& grown(f, g)
    &&& forall|b: int|
        0 <= b < f.blocks.len() ==> instrs_kept(#[trigger] f.blocks[b], g.blocks[b])
    &&& forall|b: int|
        0 <= b < f.blocks.len() && (#[trigger] f.blocks[b]).terminator is Some ==> g.blocks[b]
            == f.blocks[b]
}

pub proof fn lemma_extends_trans(f: FunctionView, g: FunctionView, h: FunctionView)
    requires
        extends(f, g),
        extends(g, h),
    ensures
        extends(f, h),
{
    assert forall|b: int| 0 <= b < f.blocks.len() implies instrs_kept(
        #[trigger] f.blocks[b],
        h.blocks[b],
    ) by {
        assert(instrs_kept(f.blocks[b], g.blocks[b]));
        assert(instrs_kept(g.blocks[b], h.blocks[b]));
    }
    assert forall|b: int|
        0 <= b < f.blocks.len() && (#[trigger] f.blocks[b]).terminator is Some implies h.blocks[b]
        == f.blocks[b] by {
        assert(g.blocks[b] == f.blocks[b]);
    }
}

/// What `frame` leaves, a function that holds the later state holds too.
pub proof fn lemma_frame_extends(l: Lowering, l2: Lowering)
    requires
        untouched(l, l2),
        open_here(l),
    ensures
        extends(l.function, l2.function),
{
    assert forall|b: int| 0 <= b < l.function.blocks.len() implies instrs_kept(
        #[trigger] l.function.blocks[b],
        l2.function.blocks[b],
    ) by {
        if b != l.current {
            assert(l2.function.blocks[b] == l.function.blocks[b]);
        }
    }
}

pub proof fn lemma_frame_trans(a: Lowering, b: Lowering, c: Lowering)
    requires
        frame(a, b),
        frame(b, c),
        a.ready(),
    ensures
        frame(a, c),
{
    assert forall|k: int| 0 <= k < a.function.blocks.len() && k != a.current implies #[trigger] c.function.blocks[k]
        == a.function.blocks[k] by {
        assert(b.function.blocks[k] == a.function.blocks[k]);
        assert(c.function.blocks[k] == b.function.blocks[k]);
    }
    if b.current != a.current {
        assert(c.function.blocks[a.current as int] == b.function.blocks[a.current as int]);
    }
}

/// What one lowering leaves of the state before it, and keeps of the
/// invariant.
pub open spec fn kept(l: Lowering, l2: Lowering) -> bool {
    &&& frame(l, l2)
    &&& sound(l2)
    &&& l2.scope == l.scope
}

/// An instruction at the end of the current block.
pub proof fn lemma_emit_kept(l: Lowering, instr: Instr)
    requires
        sound(l),
    ensures
        kept(l, l.emit(instr)),
        l.emit(instr).current == l.current,
        l.emit(instr).function.registers == l.function.registers,
        l.emit(instr).function.slots == l.function.slots,
        l.emit(instr).function.blocks.len() == l.function.blocks.len(),
{
}

/// A new register and the instruction that writes it.
pub proof fn lemma_define_kept(l: Lowering, width: Width, instr: Instr)
    requires
        sound(l),
        l.function.registers.len() < usize::MAX,
    ensures
        kept(l, l.define(width).emit(instr)),
        l.define(width).emit(instr).current == l.current,
        l.next_register() == l.function.registers.len(),
        l.define(width).emit(instr).function.registers.len() == l.function.registers.len() + 1,
        l.define(width).emit(instr).function.slots == l.function.slots,
        l.define(width).emit(instr).function.blocks.len() == l.function.blocks.len(),
{
    lemma_emit_kept(l.define(width), instr);
}

/// A new variable in a new slot, with its first value stored.
pub proof fn lemma_declare_kept(l: Lowering, name: Seq<char>, value: Operand)
    requires
        sound(l),
        l.function.slots.len() < usize::MAX,
    ensures
        ({
            let slot = l.next_slot();
            let l2 = l.slot(name).emit(Instr::Store { slot, value }).bind(name, slot);
            &&& frame(l, l2)
            &&& sound(l2)
            &&& l2.scope == l.scope.push((name, slot))
            &&& l2.scope.drop_last() == l.scope
        }),
{
    let slot = l.next_slot();
    let l1 = l.slot(name);
    lemma_emit_kept(l1, Instr::Store { slot, value });
    let l2 = l1.emit(Instr::Store { slot, value }).bind(name, slot);
    assert(l2.scope.drop_last() =~= l.scope);
    assert forall|i: int, j: int| 0 <= i < j < l2.scope.len() implies (#[trigger] l2.scope[i]).1 < (
    #[trigger] l2.scope[j]).1 by {
        if j < l.scope.len() {
            assert(l2.scope[i] == l.scope[i] && l2.scope[j] == l.scope[j]);
        } else {
            assert(l2.scope[i] == l.scope[i]);
        }
    }
    assert forall|i: int| 0 <= i < l2.scope.len() implies (#[trigger] l2.scope[i]).1
        < l2.function.slots.len() by {
        if i < l.scope.len() {
            assert(l2.scope[i] == l.scope[i]);
        }
    }
}

/// The end of a declaration: its variable leaves the scope.
pub proof fn lemma_unbind_kept(l: Lowering, inner: Lowering, after: Lowering)
    requires
        sound(l),
        frame(l, inner),
        sound(inner),
        inner.scope.len() > 0,
        inner.scope.drop_last() == l.scope,
        kept(inner, after),
    ensures
        kept(l, after.unbind()),
{
    lemma_frame_trans(l, inner, after);
    let l2 = after.unbind();
    assert forall|i: int, j: int| 0 <= i < j < l2.scope.len() implies (#[trigger] l2.scope[i]).1 < (
    #[trigger] l2.scope[j]).1 by {
        assert(l2.scope[i] == after.scope[i] && l2.scope[j] == after.scope[j]);
    }
    assert forall|i: int| 0 <= i < l2.scope.len() implies (#[trigger] l2.scope[i]).1
        < l2.function.slots.len() by {
        assert(l2.scope[i] == after.scope[i]);
    }
}

/// The entry of a loop.
pub proof fn lemma_enter_loop(l: Lowering)
    requires
        sound(l),
        l.function.blocks.len() + 3 <= usize::MAX,
    ensures
        ({
            let l3 = l.enter_loop();
            let header = l.function.blocks.len() as int;
            &&& kept(l, l3)
            &&& l.next_block() == header
            &&& l3.current == header
            &&& l3.function.blocks.len() == header + 3
            &&& l3.function.registers == l.function.registers
            &&& l3.function.slots == l.function.slots
            &&& l3.function.blocks[header].instrs.len() == 0
            &&& l3.function.blocks[header + 1].instrs.len() == 0
            &&& l3.function.blocks[header + 1].terminator is None
            &&& l3.function.blocks[header + 2].instrs.len() == 0
            &&& l3.function.blocks[header + 2].terminator is None
            &&& l3.function.blocks[l.current as int].instrs == l.function.blocks[l.current as int].instrs
            &&& l3.function.blocks[l.current as int].terminator == Some(
                Terminator::Jump(l.next_block()),
            )
        }),
{
}

/// The test of a loop, behind the code of its condition.
pub proof fn lemma_test_loop(l: Lowering, l4: Lowering, c: Operand)
    requires
        sound(l),
        l.function.blocks.len() + 3 <= usize::MAX,
        kept(l.enter_loop(), l4),
        l4.function.registers.len() < usize::MAX,
    ensures
        ({
            let header = l.function.blocks.len() as int;
            let l5 = l4.test_loop(c, l.next_block());
            &&& sound(l5)
            &&& l5.scope == l.scope
            &&& untouched(l, l5)
            &&& l5.current == header + 1
            &&& l5.function.blocks[header + 1].instrs.len() == 0
            &&& l5.function.blocks[header + 2].instrs.len() == 0
            &&& l5.function.blocks[header + 2].terminator is None
            &&& l5.function.blocks.len() == l4.function.blocks.len()
            &&& l5.function.registers.len() == l4.function.registers.len() + 1
            &&& l5.function.slots == l4.function.slots
        }),
{
    lemma_enter_loop(l);
    let header = l.function.blocks.len() as int;
    let l3 = l.enter_loop();
    let flag = l4.next_register();
    let test = Instr::Compare {
        dest: flag,
        predicate: crate::ir::Predicate::NE,
        lhs: c,
        rhs: Operand::Const(0),
    };
    lemma_define_kept(l4, Width::Bit, test);
    let l4b = l4.define(Width::Bit).emit(test);
    assert(l4.function.blocks[header + 1] == l3.function.blocks[header + 1]);
    assert(l4.function.blocks[header + 2] == l3.function.blocks[header + 2]);
    assert(l4b.function.blocks[header + 1] == l4.function.blocks[header + 1]);
    assert(l4b.function.blocks[header + 2] == l4.function.blocks[header + 2]);
    let l5 = l4.test_loop(c, l.next_block());
    assert forall|b: int| 0 <= b < l.function.blocks.len() && b != l.current implies #[trigger] l5.function.blocks[b]
        == l.function.blocks[b] by {
        assert(l3.function.blocks[b] == l.function.blocks[b]);
        assert(l4.function.blocks[b] == l3.function.blocks[b]);
        assert(l4b.function.blocks[b] == l4.function.blocks[b]);
    }
    assert(l4.function.blocks[l.current as int] == l3.function.blocks[l.current as int]);
    assert(l4b.function.blocks[l.current as int] == l4.function.blocks[l.current as int]);
}

/// The end of a loop, behind the code of its body.
pub proof fn lemma_leave_loop(l: Lowering, l5: Lowering, l6: Lowering)
    requires
        sound(l),
        l.function.blocks.len() + 3 <= usize::MAX,
        sound(l5),
        l5.scope == l.scope,
        untouched(l, l5),
        l5.current == l.function.blocks.len() + 1,
        l5.function.blocks.len() >= l.function.blocks.len() + 3,
        l5.function.blocks[(l.function.blocks.len() + 2) as int].instrs.len() == 0,
        l5.function.blocks[(l.function.blocks.len() + 2) as int].terminator is None,
        kept(l5, l6),
    ensures
        kept(l, l6.leave_loop(l.next_block())),
        l6.leave_loop(l.next_block()).current == l.function.blocks.len() + 2,
        l6.leave_loop(l.next_block()).function.blocks[(l.function.blocks.len() + 2) as int].instrs.len()
            == 0,
        l6.leave_loop(l.next_block()).function.blocks.len() == l6.function.blocks.len(),
        l6.leave_loop(l.next_block()).function.registers == l6.function.registers,
        l6.leave_loop(l.next_block()).function.slots == l6.function.slots,
{
    let header = l.function.blocks.len() as int;
    let l7 = l6.leave_loop(l.next_block());
    assert(l6.function.blocks[header + 2] == l5.function.blocks[header + 2]);
    assert forall|b: int| 0 <= b < l.function.blocks.len() && b != l.current implies #[trigger] l7.function.blocks[b]
        == l.function.blocks[b] by {
        assert(l5.function.blocks[b] == l.function.blocks[b]);
        assert(l6.function.blocks[b] == l5.function.blocks[b]);
    }
    assert(l6.function.blocks[l.current as int] == l5.function.blocks[l.current as int]);
}

pub proof fn lemma_kept_trans(a: Lowering, b: Lowering, c: Lowering)
    requires
        kept(a, b),
        kept(b, c),
        a.ready(),
    ensures
        kept(a, c),
{
    lemma_frame_trans(a, b, c);
}

/// What lowering arms leaves of the state before it.
pub open spec fn arms_kept(l: Lowering, l2: Lowering) -> bool {
    &&& untouched(l, l2)
    &&& scope_ok(l2)
    &&& l2.scope == l.scope
}

/// The entry of a match, behind the code of its scrutinee.
pub proof fn lemma_enter_match(l: Lowering)
    requires
        sound(l),
        l.function.blocks.len() + 2 <= usize::MAX,
        l.function.slots.len() < usize::MAX,
    ensures
        ({
            let la = l.enter_match();
            let merge = l.function.blocks.len() as int;
            &&& kept(l, la)
            &&& l.next_block() == merge
            &&& l.next_slot() == l.function.slots.len()
            &&& la.current == merge + 1
            &&& la.function.blocks.len() == merge + 2
            &&& la.function.registers == l.function.registers
            &&& la.function.slots.len() == l.function.slots.len() + 1
            &&& la.function.blocks[merge].instrs.len() == 0
            &&& la.function.blocks[merge].terminator is None
            &&& la.function.blocks[merge + 1].instrs.len() == 0
            &&& la.function.blocks[l.current as int].instrs == l.function.blocks[l.current as int].instrs
            &&& la.function.blocks[l.current as int].terminator == Some(
                Terminator::Jump((merge + 1) as usize),
            )
        }),
{
    let la = l.enter_match();
    assert forall|i: int| 0 <= i < la.scope.len() implies (#[trigger] la.scope[i]).1
        < la.function.slots.len() by {
        assert(la.scope[i] == l.scope[i]);
    }
}

/// The test of an arm with a literal.
pub proof fn lemma_test_arm(l: Lowering, i: int, n: nat, scrutinee: Operand, k: i64, merge: usize)
    requires
        sound(l),
        bounded(l.test_arm(i, n, scrutinee, k, merge).function),
        0 <= i < n,
    ensures
        ({
            let lt = l.test_arm(i, n, scrutinee, k, merge);
            let body = l.function.blocks.len() as int;
            let next = l.next_check(i, n, merge);
            &&& kept(l, lt)
            &&& lt.current == body
            &&& lt.function.blocks[body].instrs.len() == 0
            &&& lt.function.registers.len() == l.function.registers.len() + 1
            &&& lt.function.slots == l.function.slots
            &&& l.next_register() == l.function.registers.len()
            &&& i + 1 < n ==> next == body + 1 && lt.function.blocks.len() == body + 2
                && lt.function.blocks[body + 1].instrs.len() == 0 && lt.function.blocks[body
                + 1].terminator is None
            &&& !(i + 1 < n) ==> next == merge && lt.function.blocks.len() == body + 1
            &&& lt.function.blocks[l.current as int].instrs == l.function.blocks[l.current as int].instrs.push(
                Instr::Compare {
                    dest: l.next_register(),
                    predicate: crate::ir::Predicate::EQ,
                    lhs: scrutinee,
                    rhs: Operand::Const(k),
                },
            )
            &&& lt.function.blocks[l.current as int].terminator == Some(
                Terminator::Branch {
                    cond: l.next_register(),
                    then_block: body as usize,
                    else_block: next,
                },
            )
        }),
{
    let l1 = l.block(Label::MatchArm(i as usize));
    let l2 = if i + 1 < n {
        l1.block(Label::MatchCheck((i + 1) as usize))
    } else {
        l1
    };
    let flag = l2.next_register();
    let test = Instr::Compare {
        dest: flag,
        predicate: crate::ir::Predicate::EQ,
        lhs: scrutinee,
        rhs: Operand::Const(k),
    };
    assert(sound(l2));
    lemma_define_kept(l2, Width::Bit, test);
}

/// The end of an arm: its value is stored and the arms meet.
pub proof fn lemma_close_arm(l: Lowering, l1: Lowering, value: Operand, result: usize, merge: usize)
    requires
        sound(l),
        kept(l, l1),
    ensures
        ({
            let l2 = l1.emit(Instr::Store { slot: result, value }).terminate(
                Terminator::Jump(merge),
            );
            &&& arms_kept(l, l2)
            &&& l2.current == l1.current
            &&& l2.function.blocks.len() == l1.function.blocks.len()
            &&& l2.function.registers == l1.function.registers
            &&& l2.function.slots == l1.function.slots
            &&& forall|b: int|
                0 <= b < l1.function.blocks.len() && b != l1.current ==> #[trigger] l2.function.blocks[b]
                    == l1.function.blocks[b]
        }),
{
    lemma_emit_kept(l1, Instr::Store { slot: result, value });
    let l2 = l1.emit(Instr::Store { slot: result, value }).terminate(Terminator::Jump(merge));
    assert forall|b: int| 0 <= b < l.function.blocks.len() && b != l.current implies #[trigger] l2.function.blocks[b]
        == l.function.blocks[b] by {
        assert(l1.function.blocks[b] == l.function.blocks[b]);
    }
}

/// Lowering keeps the invariant and leaves the blocks that are not its
/// own as they are; the operand that it gives is one of the function.
pub proof fn lemma_lower_kept(e: ExprView, l: Lowering)
    requires
        sound(l),
        lower(e, l) is Ok,
        bounded(lower(e, l)->Ok_0.0.function),
    ensures
        kept(l, lower(e, l)->Ok_0.0),
        operand_ok(lower(e, l)->Ok_0.1, lower(e, l)->Ok_0.0),
    decreases e, 1nat,
{
    match e {
        ExprView::Number(_) => {},
        ExprView::Ident(name) => {
            let slot = lookup(l.scope, name)->0;
            lemma_steps_grow(l);
            lemma_define_kept(l, Width::Word, Instr::Load { dest: l.next_register(), slot });
        },
        ExprView::Call(_, _) => lemma_kept_call(e, l),
        ExprView::Sequence(_, _) => lemma_kept_sequence(e, l),
        ExprView::Assign(_, _) => lemma_kept_assign(e, l),
        ExprView::Decl(_, _, _, _) => lemma_kept_decl(e, l),
        ExprView::While(_, _) => lemma_kept_while(e, l),
        ExprView::Match(_, _) => lemma_kept_match(e, l),
    }
}

proof fn lemma_kept_call(e: ExprView, l: Lowering)
    requires
        e is Call,
        sound(l),
        lower(e, l) is Ok,
        bounded(lower(e, l)->Ok_0.0.function),
    ensures
        kept(l, lower(e, l)->Ok_0.0),
        operand_ok(lower(e, l)->Ok_0.1, lower(e, l)->Ok_0.0),
    decreases e, 0nat,
{
    lemma_lower_grows(e, l);
    match e {
        ExprView::Call(head, args) => {
            if head == "print"@ && args.len() == 1 {
                let (l1, value) = lower(args[0], l)->Ok_0;
                lemma_steps_grow(l1);
                lemma_lower_kept(args[0], l);
                lemma_emit_kept(l1, Instr::Print { value });
                lemma_kept_trans(l, l1, l1.emit(Instr::Print { value }));
            } else {
                let (l1, lhs) = lower(args[0], l)->Ok_0;
                lemma_lower_grows(args[1], l1);
                let (l2, rhs) = lower(args[1], l1)->Ok_0;
                lemma_steps_grow(l2);
                if binary_op(head) is Some {
                    let last = Instr::Binary {
                        dest: l2.next_register(),
                        op: binary_op(head)->0,
                        lhs,
                        rhs,
                    };
                    lemma_steps_grow(l2.define(Width::Word));
                    lemma_lower_kept(args[0], l);
                    lemma_lower_kept(args[1], l1);
                    lemma_define_kept(l2, Width::Word, last);
                    lemma_kept_trans(l, l1, l2);
                    lemma_kept_trans(l, l2, l2.define(Width::Word).emit(last));
                } else {
                    let test = Instr::Compare {
                        dest: l2.next_register(),
                        predicate: predicate_of(head)->0,
                        lhs,
                        rhs,
                    };
                    let l3 = l2.define(Width::Bit).emit(test);
                    let last = Instr::Extend { dest: l3.next_register(), source: l2.next_register() };
                    lemma_steps_grow(l2.define(Width::Bit));
                    lemma_steps_grow(l3);
                    lemma_steps_grow(l3.define(Width::Word));
                    lemma_lower_kept(args[0], l);
                    lemma_lower_kept(args[1], l1);
                    lemma_define_kept(l2, Width::Bit, test);
                    lemma_define_kept(l3, Width::Word, last);
                    lemma_kept_trans(l, l1, l2);
                    lemma_kept_trans(l, l2, l3);
                    lemma_kept_trans(l, l3, l3.define(Width::Word).emit(last));
                }
            }
        },
        _ => {},
    }
}

proof fn lemma_kept_sequence(e: ExprView, l: Lowering)
    requires
        e is Sequence,
        sound(l),
        lower(e, l) is Ok,
        bounded(lower(e, l)->Ok_0.0.function),
    ensures
        kept(l, lower(e, l)->Ok_0.0),
        operand_ok(lower(e, l)->Ok_0.1, lower(e, l)->Ok_0.0),
    decreases e, 0nat,
{
    lemma_lower_grows(e, l);
    match e {
        ExprView::Sequence(first, second) => {
            let (l1, _) = lower(*first, l)->Ok_0;
            lemma_lower_grows(*second, l1);
            lemma_lower_kept(*first, l);
            lemma_lower_kept(*second, l1);
            lemma_kept_trans(l, l1, lower(*second, l1)->Ok_0.0);
        },
        _ => {},
    }
}

proof fn lemma_kept_assign(e: ExprView, l: Lowering)
    requires
        e is Assign,
        sound(l),
        lower(e, l) is Ok,
        bounded(lower(e, l)->Ok_0.0.function),
    ensures
        kept(l, lower(e, l)->Ok_0.0),
        operand_ok(lower(e, l)->Ok_0.1, lower(e, l)->Ok_0.0),
    decreases e, 0nat,
{
    lemma_lower_grows(e, l);
    match e {
        ExprView::Assign(name, value) => {
            let (l1, v) = lower(*value, l)->Ok_0;
            let slot = lookup(l1.scope, name)->0;
            lemma_steps_grow(l1);
            lemma_lower_kept(*value, l);
            lemma_emit_kept(l1, Instr::Store { slot, value: v });
            lemma_kept_trans(l, l1, l1.emit(Instr::Store { slot, value: v }));
        },
        _ => {},
    }
}

proof fn lemma_kept_decl(e: ExprView, l: Lowering)
    requires
        e is Decl,
        sound(l),
        lower(e, l) is Ok,
        bounded(lower(e, l)->Ok_0.0.function),
    ensures
        kept(l, lower(e, l)->Ok_0.0),
        operand_ok(lower(e, l)->Ok_0.1, lower(e, l)->Ok_0.0),
    decreases e, 0nat,
{
    lemma_lower_grows(e, l);
    match e {
        ExprView::Decl(name, _, value, body) => {
            let (l1, v) = lower(*value, l)->Ok_0;
            let slot = l1.next_slot();
            let l2 = l1.slot(name).emit(Instr::Store { slot, value: v }).bind(name, slot);
            lemma_steps_grow(l1);
            lemma_steps_grow(l1.slot(name));
            lemma_lower_grows(*body, l2);
            let (l3, _) = lower(*body, l2)->Ok_0;
            lemma_lower_kept(*value, l);
            lemma_declare_kept(l1, name, v);
            lemma_lower_kept(*body, l2);
            lemma_unbind_kept(l1, l2, l3);
            lemma_kept_trans(l, l1, l3.unbind());
        },
        _ => {},
    }
}

proof fn lemma_kept_while(e: ExprView, l: Lowering)
    requires
        e is While,
        sound(l),
        lower(e, l) is Ok,
        bounded(lower(e, l)->Ok_0.0.function),
    ensures
        kept(l, lower(e, l)->Ok_0.0),
        operand_ok(lower(e, l)->Ok_0.1, lower(e, l)->Ok_0.0),
    decreases e, 0nat,
{
    lemma_lower_grows(e, l);
    match e {
        ExprView::While(cond, body) => {
            let l3 = l.enter_loop();
            lemma_steps_grow(l);
            let (l4, c) = lower(*cond, l3)->Ok_0;
            lemma_lower_grows(*cond, l3);
            lemma_steps_grow(l4);
            let l5 = l4.test_loop(c, l.next_block());
            lemma_lower_grows(*body, l5);
            let (l6, _) = lower(*body, l5)->Ok_0;
            lemma_steps_grow(l6);
            lemma_enter_loop(l);
            lemma_lower_kept(*cond, l3);
            lemma_test_loop(l, l4, c);
            lemma_lower_kept(*body, l5);
            lemma_leave_loop(l, l5, l6);
        },
        _ => {},
    }
}

proof fn lemma_kept_match(e: ExprView, l: Lowering)
    requires
        e is Match,
        sound(l),
        lower(e, l) is Ok,
        bounded(lower(e, l)->Ok_0.0.function),
    ensures
        kept(l, lower(e, l)->Ok_0.0),
        operand_ok(lower(e, l)->Ok_0.1, lower(e, l)->Ok_0.0),
    decreases e, 0nat,
{
    lemma_lower_grows(e, l);
    match e {
        ExprView::Match(scrutinee, arms) => {
            let (l1, s) = lower(*scrutinee, l)->Ok_0;
            lemma_steps_grow(l1);
            let la = l1.enter_match();
            let result = l1.next_slot();
            let merge = l1.next_block();
            lemma_lower_arms_grows(arms, 0, la, s, result, merge);
            let l5 = lower_arms(arms, 0, la, s, result, merge)->Ok_0;
            let l6 = l5.at(merge);
            let last = Instr::Load { dest: l5.next_register(), slot: result };
            lemma_steps_grow(l6);
            lemma_steps_grow(l6.define(Width::Word));
            lemma_lower_kept(*scrutinee, l);
            lemma_enter_match(l1);
            lemma_lower_arms_kept(arms, 0, la, s, result, merge);
            assert(l5.function.blocks[merge as int] == la.function.blocks[merge as int]);
            assert(sound(l6));
            lemma_define_kept(l6, Width::Word, last);
            let l7 = l6.define(Width::Word).emit(last);
            assert forall|b: int|
                0 <= b < l1.function.blocks.len() && b != l1.current implies #[trigger] l7.function.blocks[b]
                == l1.function.blocks[b] by {
                assert(la.function.blocks[b] == l1.function.blocks[b]);
                assert(l5.function.blocks[b] == la.function.blocks[b]);
                assert(l7.function.blocks[b] == l6.function.blocks[b]);
            }
            assert(l5.function.blocks[l1.current as int] == la.function.blocks[l1.current as int]);
            assert(l7.function.blocks[l1.current as int] == l6.function.blocks[l1.current as int]);
            assert(kept(l1, l7));
            lemma_kept_trans(l, l1, l7);
        },
        _ => {},
    }
}

/// Lowering arms leaves the blocks that are not its own as they are.
pub proof fn lemma_lower_arms_kept(
    arms: Seq<(Pattern, ExprView)>,
    i: int,
    l: Lowering,
    scrutinee: Operand,
    result: usize,
    merge: usize,
)
    requires
        sound(l),
        merge < l.function.blocks.len(),
        merge != l.current,
        0 <= i,
        lower_arms(arms, i, l, scrutinee, result, merge) is Ok,
        bounded(lower_arms(arms, i, l, scrutinee, result, merge)->Ok_0.function),
    ensures
        arms_kept(l, lower_arms(arms, i, l, scrutinee, result, merge)->Ok_0),
    decreases arms, arms.len() - i,
{
    lemma_lower_arms_grows(arms, i, l, scrutinee, result, merge);
    if i < arms.len() {
        match arms[i].0 {
            Pattern::Wildcard => {
                let (l1, v) = lower(arms[i].1, l)->Ok_0;
                lemma_steps_grow(l1);
                lemma_steps_grow(l1.emit(Instr::Store { slot: result, value: v }));
                lemma_lower_kept(arms[i].1, l);
                lemma_close_arm(l, l1, v, result, merge);
            },
            Pattern::Literal(k) => {
                let lt = l.test_arm(i, arms.len(), scrutinee, k, merge);
                let next = l.next_check(i, arms.len(), merge);
                lemma_steps_grow(l);
                let (l1, v) = lower(arms[i].1, lt)->Ok_0;
                lemma_lower_grows(arms[i].1, lt);
                lemma_steps_grow(l1);
                lemma_steps_grow(l1.emit(Instr::Store { slot: result, value: v }));
                let l2 = l1.emit(Instr::Store { slot: result, value: v }).terminate(
                    Terminator::Jump(merge),
                );
                let l3 = l2.at(next);
                lemma_lower_arms_grows(arms, i + 1, l3, scrutinee, result, merge);
                let end = lower_arms(arms, i + 1, l3, scrutinee, result, merge)->Ok_0;
                lemma_test_arm(l, i, arms.len(), scrutinee, k, merge);
                lemma_lower_kept(arms[i].1, lt);
                lemma_close_arm(lt, l1, v, result, merge);
                assert forall|b: int|
                    0 <= b < l.function.blocks.len() && b != l.current implies #[trigger] l3.function.blocks[b]
                    == l.function.blocks[b] by {
                    assert(lt.function.blocks[b] == l.function.blocks[b]);
                    assert(l2.function.blocks[b] == lt.function.blocks[b]);
                }
                assert(l2.function.blocks[l.current as int] == lt.function.blocks[l.current as int]);
                assert(arms_kept(l, l3));
                if i + 1 < arms.len() {
                    assert(l1.function.blocks[next as int] == lt.function.blocks[next as int]);
                    assert(l2.function.blocks[next as int] == l1.function.blocks[next as int]);
                    assert(sound(l3));
                    lemma_lower_arms_kept(arms, i + 1, l3, scrutinee, result, merge);
                    assert forall|b: int|
                        0 <= b < l.function.blocks.len() && b != l.current implies #[trigger] end.function.blocks[b]
                        == l.function.blocks[b] by {
                        assert(l3.function.blocks[b] == l.function.blocks[b]);
                        assert(end.function.blocks[b] == l3.function.blocks[b]);
                    }
                    assert(end.function.blocks[l.current as int] == l3.function.blocks[l.current as int]);
                }
            },
        }
    }
}

/// The steps of lowering do not shrink the function.
pub proof fn lemma_steps_grow(l: Lowering)
    ensures
        forall|i: Instr| grown(l.function, (#[trigger] l.emit(i)).function),
        forall|t: Terminator| grown(l.function, (#[trigger] l.terminate(t)).function),
        forall|label: Label| grown(l.function, (#[trigger] l.block(label)).function),
        forall|w: Width| grown(l.function, (#[trigger] l.define(w)).function),
        forall|n: Seq<char>| grown(l.function, (#[trigger] l.slot(n)).function),
        grown(l.function, l.enter_loop().function),
        grown(l.function, l.enter_match().function),
        forall|c: Operand, h: usize| grown(l.function, (#[trigger] l.test_loop(c, h)).function),
        forall|h: usize| grown(l.function, (#[trigger] l.leave_loop(h)).function),
        forall|i: int, n: nat, s: Operand, k: i64, m: usize|
            grown(l.function, (#[trigger] l.test_arm(i, n, s, k, m)).function),
{
    assert forall|i: int, n: nat, s: Operand, k: i64, m: usize|
        grown(l.function, (#[trigger] l.test_arm(i, n, s, k, m)).function) by {
        let l1 = l.block(Label::MatchArm(i as usize));
        let l2 = if i + 1 < n {
            l1.block(Label::MatchCheck((i + 1) as usize))
        } else {
            l1
        };
        assert(grown(l.function, l2.function));
        assert(grown(l2.function, l2.define(Width::Bit).function));
    }
}

/// Lowering does not shrink the function.
pub proof fn lemma_lower_grows(e: ExprView, l: Lowering)
    requires
        lower(e, l) is Ok,
    ensures
        grown(l.function, lower(e, l)->Ok_0.0.function),
    decreases e, 0nat,
{
    lemma_steps_grow(l);
    match e {
        ExprView::Number(_) => {},
        ExprView::Ident(_) => {
            lemma_steps_grow(l.define(Width::Word));
        },
        ExprView::Call(head, args) => {
            lemma_lower_grows(args[0], l);
            let (l1, _) = lower(args[0], l)->Ok_0;
            lemma_steps_grow(l1);
            if args.len() == 2 {
                lemma_lower_grows(args[1], l1);
                let (l2, _) = lower(args[1], l1)->Ok_0;
                lemma_steps_grow(l2);
                lemma_steps_grow(l2.define(Width::Word));
                let l3 = l2.define(Width::Bit).emit(
                    Instr::Compare {
                        dest: l2.next_register(),
                        predicate: crate::lower::predicate_of(head)->0,
                        lhs: lower(args[0], l)->Ok_0.1,
                        rhs: lower(args[1], l1)->Ok_0.1,
                    },
                );
                lemma_steps_grow(l2.define(Width::Bit));
                lemma_steps_grow(l3);
                lemma_steps_grow(l3.define(Width::Word));
            }
        },
        ExprView::Sequence(first, second) => {
            lemma_lower_grows(*first, l);
            lemma_lower_grows(*second, lower(*first, l)->Ok_0.0);
        },
        ExprView::Assign(_, value) => {
            lemma_lower_grows(*value, l);
            lemma_steps_grow(lower(*value, l)->Ok_0.0);
        },
        ExprView::Decl(name, _, value, body) => {
            lemma_lower_grows(*value, l);
            let (l1, v) = lower(*value, l)->Ok_0;
            let slot = l1.next_slot();
            lemma_steps_grow(l1);
            lemma_steps_grow(l1.slot(name));
            let l2 = l1.slot(name).emit(Instr::Store { slot, value: v }).bind(name, slot);
            lemma_lower_grows(*body, l2);
        },
        ExprView::While(cond, body) => {
            lemma_lower_grows(*cond, l.enter_loop());
            let (l1, c) = lower(*cond, l.enter_loop())->Ok_0;
            lemma_steps_grow(l1);
            let l2 = l1.test_loop(c, l.next_block());
            lemma_lower_grows(*body, l2);
            lemma_steps_grow(lower(*body, l2)->Ok_0.0);
        },
        ExprView::Match(scrutinee, arms) => {
            lemma_lower_grows(*scrutinee, l);
            let (l1, s) = lower(*scrutinee, l)->Ok_0;
            lemma_steps_grow(l1);
            let la = l1.enter_match();
            lemma_lower_arms_grows(arms, 0, la, s, l1.next_slot(), l1.next_block());
            let l5 = lower_arms(arms, 0, la, s, l1.next_slot(), l1.next_block())->Ok_0;
            lemma_steps_grow(l5.at(l1.next_block()));
            lemma_steps_grow(l5.at(l1.next_block()).define(Width::Word));
        },
    }
}

/// Lowering arms does not shrink the function.
pub proof fn lemma_lower_arms_grows(
    arms: Seq<(Pattern, ExprView)>,
    i: int,
    l: Lowering,
    scrutinee: Operand,
    result: usize,
    merge: usize,
)
    requires
        lower_arms(arms, i, l, scrutinee, result, merge) is Ok,
    ensures
        grown(l.function, lower_arms(arms, i, l, scrutinee, result, merge)->Ok_0.function),
    decreases arms, arms.len() - i,
{
    lemma_steps_grow(l);
    if 0 <= i < arms.len() {
        match arms[i].0 {
            Pattern::Wildcard => {
                lemma_lower_grows(arms[i].1, l);
                let (l1, v) = lower(arms[i].1, l)->Ok_0;
                lemma_steps_grow(l1);
                lemma_steps_grow(l1.emit(Instr::Store { slot: result, value: v }));
            },
            Pattern::Literal(k) => {
                let lt = l.test_arm(i, arms.len(), scrutinee, k, merge);
                lemma_lower_grows(arms[i].1, lt);
                let (l1, v) = lower(arms[i].1, lt)->Ok_0;
                lemma_steps_grow(l1);
                lemma_steps_grow(l1.emit(Instr::Store { slot: result, value: v }));
                lemma_lower_arms_grows(
                    arms,
                    i + 1,
                    l1.emit(Instr::Store { slot: result, value: v }).terminate(
                        Terminator::Jump(merge),
                    ).at(l.next_check(i, arms.len(), merge)),
                    scrutinee,
                    result,
                    merge,
                );
            },
        }
    }
}

} // verus!
