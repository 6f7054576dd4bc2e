use crate::ast::{ExprView, Pattern};
use crate::frame::{
    bounded, grown, lemma_declare_kept, lemma_emit_kept, lemma_enter_loop, lemma_enter_match,
    lemma_leave_loop, lemma_lower_arms_grows, lemma_lower_arms_kept, lemma_lower_grows,
    lemma_lower_kept, lemma_steps_grow, lemma_test_arm, lemma_test_loop, scope_ok, sound,
};
use crate::ir::{
    BlockView, FunctionView, Instr, Label, Operand, Predicate, Terminator, Width, MATCH_RESULT,
};
use crate::lower::{
    binary_op, lookup, lower, lower_arms, lower_program, predicate_of, LowerError, Lowering,
};
use vstd::prelude::*;

verus! {

/// Whether `g` has the registers of `f` in their widths, and at least the
/// blocks and slots of `f`.
pub open spec fn widened(f: FunctionView, g: FunctionView) -> bool {
    &&& grown(f, g)
    &&& forall|r: int| 0 <= r < f.registers.len() ==> #[trigger] g.registers[r] == f.registers[r]
}

/// What fits a function fits every function that widens it.
pub proof fn lemma_block_ok_widened(f: FunctionView, g: FunctionView, block: BlockView)
    requires
        widened(f, g),
        f.block_ok(block),
    ensures
        g.block_ok(block),
{
    assert forall|i: int| 0 <= i < block.instrs.len() implies g.instr_ok(
        #[trigger] block.instrs[i],
    ) by {
        assert(f.instr_ok(block.instrs[i]));
    }
}

/// Whether every block of the state fits its function.
pub open spec fn typed(l: Lowering) -> bool {
    forall|b: int|
        0 <= b < l.function.blocks.len() ==> l.function.block_ok(#[trigger] l.function.blocks[b])
}

/// Whether every block of the state that has no terminator is one of
/// `pending`.
pub open spec fn closed_but(l: Lowering, pending: Set<int>) -> bool {
    forall|b: int|
        0 <= b < l.function.blocks.len() && (#[trigger] l.function.blocks[b]).terminator is None
            ==> pending.contains(b)
}

/// The invariant of lowering as to the form of the code.
pub open spec fn tidy(l: Lowering, pending: Set<int>) -> bool {
    &&& sound(l)
    &&& typed(l)
    &&& closed_but(l, pending)
}

/// An instruction that fits the function, at the end of the current block.
pub proof fn lemma_tidy_emit(l: Lowering, instr: Instr, pending: Set<int>)
    requires
        tidy(l, pending),
        l.function.instr_ok(instr),
    ensures
        tidy(l.emit(instr), pending),
        widened(l.function, l.emit(instr).function),
{
    lemma_emit_kept(l, instr);
    let l2 = l.emit(instr);
    assert forall|b: int| 0 <= b < l2.function.blocks.len() implies l2.function.block_ok(
        #[trigger] l2.function.blocks[b],
    ) by {
        assert(l.function.block_ok(l.function.blocks[b]));
        let block = l2.function.blocks[b];
        assert forall|i: int| 0 <= i < block.instrs.len() implies l2.function.instr_ok(
            #[trigger] block.instrs[i],
        ) by {
            if b == l.current && i == block.instrs.len() - 1 {
            } else {
                assert(block.instrs[i] == l.function.blocks[b].instrs[i]);
                assert(l.function.instr_ok(l.function.blocks[b].instrs[i]));
            }
        }
    }
    assert forall|b: int|
        0 <= b < l2.function.blocks.len() && (#[trigger] l2.function.blocks[b]).terminator
            is None implies pending.contains(b) by {
        assert(l.function.blocks[b].terminator is None);
    }
}

/// A new register.
pub proof fn lemma_tidy_define(l: Lowering, width: Width, pending: Set<int>)
    requires
        tidy(l, pending),
        l.function.registers.len() < usize::MAX,
    ensures
        tidy(l.define(width), pending),
        widened(l.function, l.define(width).function),
        l.define(width).function.has_register(l.next_register(), width),
        l.next_register() == l.function.registers.len(),
{
    let l2 = l.define(width);
    assert forall|b: int| 0 <= b < l2.function.blocks.len() implies l2.function.block_ok(
        #[trigger] l2.function.blocks[b],
    ) by {
        assert(l.function.block_ok(l.function.blocks[b]));
        lemma_block_ok_widened(l.function, l2.function, l.function.blocks[b]);
    }
    assert forall|b: int|
        0 <= b < l2.function.blocks.len() && (#[trigger] l2.function.blocks[b]).terminator
            is None implies pending.contains(b) by {
        assert(l.function.blocks[b].terminator is None);
    }
}

/// A new slot.
pub proof fn lemma_tidy_slot(l: Lowering, name: Seq<char>, pending: Set<int>)
    requires
        tidy(l, pending),
        l.function.slots.len() < usize::MAX,
    ensures
        tidy(l.slot(name), pending),
        widened(l.function, l.slot(name).function),
        l.next_slot() == l.function.slots.len(),
{
    let l2 = l.slot(name);
    assert forall|b: int| 0 <= b < l2.function.blocks.len() implies l2.function.block_ok(
        #[trigger] l2.function.blocks[b],
    ) by {
        assert(l.function.block_ok(l.function.blocks[b]));
        lemma_block_ok_widened(l.function, l2.function, l.function.blocks[b]);
    }
    assert forall|b: int|
        0 <= b < l2.function.blocks.len() && (#[trigger] l2.function.blocks[b]).terminator
            is None implies pending.contains(b) by {
        assert(l.function.blocks[b].terminator is None);
    }
    assert forall|i: int| 0 <= i < l2.scope.len() implies (#[trigger] l2.scope[i]).1
        < l2.function.slots.len() by {
        assert(l.scope[i].1 < l.function.slots.len());
    }
}

/// A new, empty block: it is pending.
pub proof fn lemma_tidy_block(l: Lowering, label: Label, pending: Set<int>)
    requires
        tidy(l, pending),
        l.function.blocks.len() < usize::MAX,
    ensures
        tidy(l.block(label), pending.insert(l.function.blocks.len() as int)),
        widened(l.function, l.block(label).function),
        l.next_block() == l.function.blocks.len(),
        l.block(label).current == l.current,
{
    let l2 = l.block(label);
    assert forall|b: int| 0 <= b < l2.function.blocks.len() implies l2.function.block_ok(
        #[trigger] l2.function.blocks[b],
    ) by {
        if b < l.function.blocks.len() {
            assert(l.function.block_ok(l.function.blocks[b]));
            lemma_block_ok_widened(l.function, l2.function, l.function.blocks[b]);
        }
    }
    assert forall|b: int|
        0 <= b < l2.function.blocks.len() && (#[trigger] l2.function.blocks[b]).terminator
            is None implies pending.insert(l.function.blocks.len() as int).contains(b) by {
        if b < l.function.blocks.len() {
            assert(l.function.blocks[b].terminator is None);
        }
    }
}

/// A terminator that fits the function, at the end of the current block,
/// and another block that is pending as the current one.
pub proof fn lemma_tidy_terminate(
    l: Lowering,
    terminator: Terminator,
    next: usize,
    pending: Set<int>,
)
    requires
        tidy(l, pending),
        l.function.terminator_ok(terminator),
        next < l.function.blocks.len(),
        next != l.current,
        pending.contains(next as int),
        l.function.blocks[next as int].terminator is None,
    ensures
        tidy(l.terminate(terminator).at(next), pending.remove(l.current as int)),
        l.terminate(terminator).at(next).function.registers == l.function.registers,
        l.terminate(terminator).at(next).function.slots == l.function.slots,
        l.terminate(terminator).at(next).function.blocks.len() == l.function.blocks.len(),
        widened(l.function, l.terminate(terminator).at(next).function),
{
    let l2 = l.terminate(terminator).at(next);
    assert forall|b: int| 0 <= b < l2.function.blocks.len() implies l2.function.block_ok(
        #[trigger] l2.function.blocks[b],
    ) by {
        assert(l.function.block_ok(l.function.blocks[b]));
        let block = l2.function.blocks[b];
        assert forall|i: int| 0 <= i < block.instrs.len() implies l2.function.instr_ok(
            #[trigger] block.instrs[i],
        ) by {
            assert(block.instrs[i] == l.function.blocks[b].instrs[i]);
            assert(l.function.instr_ok(l.function.blocks[b].instrs[i]));
        }
    }
    assert forall|b: int|
        0 <= b < l2.function.blocks.len() && (#[trigger] l2.function.blocks[b]).terminator
            is None implies pending.remove(l.current as int).contains(b) by {
        assert(l.function.blocks[b].terminator is None);
    }
}

pub proof fn lemma_widened_then(f: FunctionView, g: FunctionView, h: FunctionView)
    requires
        widened(f, g),
        widened(g, h),
    ensures
        widened(f, h),
{
    assert forall|r: int| 0 <= r < f.registers.len() implies #[trigger] h.registers[r]
        == f.registers[r] by {
        assert(g.registers[r] == f.registers[r]);
        assert(h.registers[r] == g.registers[r]);
    }
}

/// A pending set may be any larger one.
pub proof fn lemma_tidy_more(l: Lowering, a: Set<int>, b: Set<int>)
    requires
        tidy(l, a),
        forall|k: int| a.contains(k) ==> b.contains(k),
    ensures
        tidy(l, b),
{
}

/// A slot that is looked up is a slot of a variable in scope.
proof fn lemma_lookup_in_scope(l: Lowering, name: Seq<char>)
    requires
        scope_ok(l),
        lookup(l.scope, name) is Some,
    ensures
        lookup(l.scope, name)->0 < l.function.slots.len(),
{
    lemma_lookup_is_entry(l.scope, name);
    let i = choose|i: int| 0 <= i < l.scope.len() && l.scope[i].1 == lookup(l.scope, name)->0;
    assert(l.scope[i].1 < l.function.slots.len());
}

proof fn lemma_lookup_is_entry(scope: Seq<(Seq<char>, usize)>, name: Seq<char>)
    requires
        lookup(scope, name) is Some,
    ensures
        exists|i: int| 0 <= i < scope.len() && scope[i].1 == lookup(scope, name)->0,
    decreases scope.len(),
{
    if scope.last().0 == name {
        assert(scope[scope.len() - 1].1 == lookup(scope, name)->0);
    } else {
        lemma_lookup_is_entry(scope.drop_last(), name);
        let i = choose|i: int|
            0 <= i < scope.drop_last().len() && scope.drop_last()[i].1 == lookup(
                scope.drop_last(),
                name,
            )->0;
        assert(scope[i] == scope.drop_last()[i]);
    }
}

/// What lowering an expression keeps of the form of the code: every block
/// fits the function, the blocks without terminator are those that were
/// pending, with the current block of the state behind in place of the
/// current block of the state before; and the operand is a word.
pub open spec fn tidied(e: ExprView, l: Lowering, pending: Set<int>) -> bool {
    let (l2, operand) = lower(e, l)->Ok_0;
    &&& tidy(l2, pending.remove(l.current as int).insert(l2.current as int))
    &&& widened(l.function, l2.function)
    &&& l2.function.has_word(operand)
}

/// What `lemma_lower_tidy` needs.
pub open spec fn tidiable(e: ExprView, l: Lowering, pending: Set<int>) -> bool {
    &&& tidy(l, pending)
    &&& pending.contains(l.current as int)
    &&& lower(e, l) is Ok
    &&& bounded(lower(e, l)->Ok_0.0.function)
}

/// Lowering keeps the code well formed.
pub proof fn lemma_lower_tidy(e: ExprView, l: Lowering, pending: Set<int>)
    requires
        tidiable(e, l, pending),
    ensures
        tidied(e, l, pending),
    decreases e, 1nat,
{
    match e {
        ExprView::Number(_) => {
            lemma_tidy_more(
                l,
                pending,
                pending.remove(l.current as int).insert(l.current as int),
            );
        },
        ExprView::Ident(name) => {
            let slot = lookup(l.scope, name)->0;
            let load = Instr::Load { dest: l.next_register(), slot };
            lemma_steps_grow(l);
            lemma_steps_grow(l.define(Width::Word));
            lemma_lookup_in_scope(l, name);
            lemma_tidy_define(l, Width::Word, pending);
            lemma_tidy_emit(l.define(Width::Word), load, pending);
            lemma_widened_then(
                l.function,
                l.define(Width::Word).function,
                l.define(Width::Word).emit(load).function,
            );
            lemma_tidy_more(
                l.define(Width::Word).emit(load),
                pending,
                pending.remove(l.current as int).insert(l.current as int),
            );
        },
        ExprView::Call(_, _) => lemma_tidy_call(e, l, pending),
        ExprView::Sequence(_, _) => lemma_tidy_sequence(e, l, pending),
        ExprView::Assign(_, _) => lemma_tidy_assign(e, l, pending),
        ExprView::Decl(_, _, _, _) => lemma_tidy_decl(e, l, pending),
        ExprView::While(_, _) => lemma_tidy_while(e, l, pending),
        ExprView::Match(_, _) => lemma_tidy_match(e, l, pending),
    }
}

/// The pending set behind two lowerings in a row.
proof fn lemma_pending_then(l: Lowering, l1: Lowering, l2: Lowering, pending: Set<int>)
    requires
        tidy(
            l2,
            pending.remove(l.current as int).insert(l1.current as int).remove(
                l1.current as int,
            ).insert(l2.current as int),
        ),
    ensures
        tidy(l2, pending.remove(l.current as int).insert(l2.current as int)),
{
    lemma_tidy_more(
        l2,
        pending.remove(l.current as int).insert(l1.current as int).remove(
            l1.current as int,
        ).insert(l2.current as int),
        pending.remove(l.current as int).insert(l2.current as int),
    );
}

proof fn lemma_tidy_sequence(e: ExprView, l: Lowering, pending: Set<int>)
    requires
        e is Sequence,
        tidiable(e, l, pending),
    ensures
        tidied(e, l, pending),
    decreases e, 0nat,
{
    let first = e->Sequence_0;
    let second = e->Sequence_1;
    let (l1, _) = lower(*first, l)->Ok_0;
    let (l2, _) = lower(*second, l1)->Ok_0;
    let p1 = pending.remove(l.current as int).insert(l1.current as int);
    lemma_lower_grows(*second, l1);
    lemma_lower_tidy(*first, l, pending);
    lemma_lower_tidy(*second, l1, p1);
    lemma_widened_then(l.function, l1.function, l2.function);
    lemma_pending_then(l, l1, l2, pending);
}

proof fn lemma_tidy_assign(e: ExprView, l: Lowering, pending: Set<int>)
    requires
        e is Assign,
        tidiable(e, l, pending),
    ensures
        tidied(e, l, pending),
    decreases e, 0nat,
{
    let name = e->Assign_0;
    let value = e->Assign_1;
    let (l1, v) = lower(*value, l)->Ok_0;
    let slot = lookup(l1.scope, name)->0;
    let store = Instr::Store { slot, value: v };
    let p1 = pending.remove(l.current as int).insert(l1.current as int);
    lemma_steps_grow(l1);
    lemma_lower_tidy(*value, l, pending);
    lemma_lookup_in_scope(l1, name);
    lemma_tidy_emit(l1, store, p1);
    lemma_widened_then(l.function, l1.function, l1.emit(store).function);
}

proof fn lemma_tidy_decl(e: ExprView, l: Lowering, pending: Set<int>)
    requires
        e is Decl,
        tidiable(e, l, pending),
    ensures
        tidied(e, l, pending),
    decreases e, 0nat,
{
    let name = e->Decl_0;
    let value = e->Decl_2;
    let body = e->Decl_3;
    let (l1, v) = lower(*value, l)->Ok_0;
    let slot = l1.next_slot();
    let store = Instr::Store { slot, value: v };
    let l1s = l1.slot(name);
    let l2 = l1s.emit(store).bind(name, slot);
    let (l3, _) = lower(*body, l2)->Ok_0;
    let p1 = pending.remove(l.current as int).insert(l1.current as int);
    lemma_steps_grow(l1);
    lemma_steps_grow(l1s);
    lemma_lower_grows(*body, l2);
    lemma_lower_kept(e, l);
    lemma_lower_tidy(*value, l, pending);
    lemma_tidy_slot(l1, name, p1);
    lemma_block_widened_operand(l1.function, l1s.function, v);
    lemma_tidy_emit(l1s, store, p1);
    lemma_declare_kept(l1, name, v);
    assert(tidy(l2, p1));
    lemma_lower_tidy(*body, l2, p1);
    lemma_widened_then(l1.function, l1s.function, l1s.emit(store).function);
    lemma_widened_then(l.function, l1.function, l2.function);
    lemma_widened_then(l.function, l2.function, l3.function);
    assert(tidy(l3.unbind(), p1.remove(l2.current as int).insert(l3.current as int)));
    lemma_pending_then(l, l1, l3.unbind(), pending);
}

/// A word of a function is a word of every function that widens it.
proof fn lemma_block_widened_operand(f: FunctionView, g: FunctionView, operand: Operand)
    requires
        widened(f, g),
        f.has_word(operand),
    ensures
        g.has_word(operand),
{
}

proof fn lemma_tidy_call(e: ExprView, l: Lowering, pending: Set<int>)
    requires
        e is Call,
        tidiable(e, l, pending),
    ensures
        tidied(e, l, pending),
    decreases e, 0nat,
{
    let head = e->Call_0;
    let args = e->Call_1;
    lemma_lower_grows(e, l);
    if head == "print"@ && args.len() == 1 {
        let (l1, v) = lower(args[0], l)->Ok_0;
        let print = Instr::Print { value: v };
        let p1 = pending.remove(l.current as int).insert(l1.current as int);
        lemma_steps_grow(l1);
        lemma_lower_tidy(args[0], l, pending);
        lemma_tidy_emit(l1, print, p1);
        lemma_widened_then(l.function, l1.function, l1.emit(print).function);
    } else {
        let (l1, lhs) = lower(args[0], l)->Ok_0;
        let (l2, rhs) = lower(args[1], l1)->Ok_0;
        let p1 = pending.remove(l.current as int).insert(l1.current as int);
        let p2 = p1.remove(l1.current as int).insert(l2.current as int);
        lemma_lower_grows(args[1], l1);
        lemma_steps_grow(l2);
        lemma_steps_grow(l2.define(Width::Word));
        lemma_steps_grow(l2.define(Width::Bit));
        if binary_op(head) is Some {
            let instr = Instr::Binary { dest: l2.next_register(), op: binary_op(head)->0, lhs, rhs };
            let l3 = l2.define(Width::Word);
            lemma_lower_tidy(args[0], l, pending);
            lemma_lower_tidy(args[1], l1, p1);
            lemma_tidy_define(l2, Width::Word, p2);
            lemma_block_widened_operand(l1.function, l2.function, lhs);
            lemma_block_widened_operand(l2.function, l3.function, lhs);
            lemma_block_widened_operand(l2.function, l3.function, rhs);
            lemma_tidy_emit(l3, instr, p2);
            lemma_widened_then(l.function, l1.function, l2.function);
            lemma_widened_then(l2.function, l3.function, l3.emit(instr).function);
            lemma_widened_then(l.function, l2.function, l3.emit(instr).function);
            lemma_pending_then(l, l1, l3.emit(instr), pending);
        } else {
            let flag = l2.next_register();
            let test = Instr::Compare { dest: flag, predicate: predicate_of(head)->0, lhs, rhs };
            let l3 = l2.define(Width::Bit);
            let l4 = l3.emit(test);
            let extend = Instr::Extend { dest: l4.next_register(), source: flag };
            let l5 = l4.define(Width::Word);
            lemma_steps_grow(l4);
            lemma_steps_grow(l5);
            lemma_lower_tidy(args[0], l, pending);
            lemma_lower_tidy(args[1], l1, p1);
            lemma_tidy_define(l2, Width::Bit, p2);
            lemma_block_widened_operand(l1.function, l2.function, lhs);
            lemma_block_widened_operand(l2.function, l3.function, lhs);
            lemma_block_widened_operand(l2.function, l3.function, rhs);
            lemma_tidy_emit(l3, test, p2);
            lemma_tidy_define(l4, Width::Word, p2);
            lemma_widened_then(l3.function, l4.function, l5.function);
            lemma_tidy_emit(l5, extend, p2);
            lemma_widened_then(l.function, l1.function, l2.function);
            lemma_widened_then(l2.function, l3.function, l5.function);
            lemma_widened_then(l2.function, l5.function, l5.emit(extend).function);
            lemma_widened_then(l.function, l2.function, l5.emit(extend).function);
            lemma_pending_then(l, l1, l5.emit(extend), pending);
        }
    }
}

proof fn lemma_tidy_while(e: ExprView, l: Lowering, pending: Set<int>)
    requires
        e is While,
        tidiable(e, l, pending),
    ensures
        tidied(e, l, pending),
    decreases e, 0nat,
{
    let cond = e->While_0;
    let body = e->While_1;
    let header = l.next_block();
    let h = l.function.blocks.len() as int;
    let la = l.block(Label::LoopHeader);
    let lb = la.block(Label::LoopBody);
    let lc = lb.block(Label::LoopExit);
    let l3 = l.enter_loop();
    let (l4, c) = lower(*cond, l3)->Ok_0;
    let flag = l4.next_register();
    let test = Instr::Compare {
        dest: flag,
        predicate: Predicate::NE,
        lhs: c,
        rhs: Operand::Const(0),
    };
    let l4d = l4.define(Width::Bit);
    let l4t = l4d.emit(test);
    let branch = Terminator::Branch {
        cond: flag,
        then_block: (header + 1) as usize,
        else_block: (header + 2) as usize,
    };
    let l5 = l4.test_loop(c, header);
    let (l6, _) = lower(*body, l5)->Ok_0;
    let l7 = l6.leave_loop(header);
    lemma_steps_grow(l);
    lemma_lower_grows(*cond, l3);
    lemma_steps_grow(l4);
    lemma_lower_grows(*body, l5);
    lemma_steps_grow(l6);
    lemma_enter_loop(l);
    lemma_lower_kept(*cond, l3);
    lemma_test_loop(l, l4, c);
    lemma_lower_kept(*body, l5);
    lemma_leave_loop(l, l5, l6);
    // The entry.
    let pa = pending.insert(h);
    let pb = pa.insert(h + 1);
    let pc = pb.insert(h + 2);
    lemma_tidy_block(l, Label::LoopHeader, pending);
    lemma_tidy_block(la, Label::LoopBody, pa);
    lemma_tidy_block(lb, Label::LoopExit, pb);
    lemma_tidy_terminate(lc, Terminator::Jump(header), header, pc);
    let p3 = pc.remove(l.current as int);
    assert(l3 == lc.terminate(Terminator::Jump(header)).at(header));
    lemma_widened_then(l.function, la.function, lb.function);
    lemma_widened_then(l.function, lb.function, lc.function);
    lemma_widened_then(l.function, lc.function, l3.function);
    // The condition and its test.
    lemma_lower_tidy(*cond, l3, p3);
    let p4 = p3.remove(h).insert(l4.current as int);
    lemma_tidy_define(l4, Width::Bit, p4);
    lemma_block_widened_operand(l4.function, l4d.function, c);
    lemma_tidy_emit(l4d, test, p4);
    assert(l4t.function.blocks[h + 1] == l5.function.blocks[h + 1]);
    lemma_tidy_terminate(l4t, branch, (header + 1) as usize, p4);
    let p5 = p4.remove(l4.current as int);
    assert(l5 == l4t.terminate(branch).at((header + 1) as usize));
    lemma_widened_then(l4.function, l4d.function, l4t.function);
    lemma_widened_then(l4.function, l4t.function, l5.function);
    lemma_widened_then(l3.function, l4.function, l5.function);
    lemma_widened_then(l.function, l3.function, l5.function);
    // The body and the way back.
    lemma_lower_tidy(*body, l5, p5);
    let p6 = p5.remove(h + 1).insert(l6.current as int);
    assert(l6.function.blocks[h + 2] == l5.function.blocks[h + 2]);
    lemma_tidy_terminate(l6, Terminator::Jump(header), (header + 2) as usize, p6);
    let p7 = p6.remove(l6.current as int);
    lemma_widened_then(l5.function, l6.function, l7.function);
    lemma_widened_then(l.function, l5.function, l7.function);
    lemma_tidy_more(l7, p7, pending.remove(l.current as int).insert(l7.current as int));
}

/// What lowering arms keeps of the form of the code.
pub open spec fn arms_tidied(l: Lowering, end: Lowering, pending: Set<int>) -> bool {
    &&& typed(end)
    &&& closed_but(end, pending.remove(l.current as int))
    &&& widened(l.function, end.function)
}

/// The end of an arm: its value is stored and its block is complete.
proof fn lemma_tidy_close(l: Lowering, value: Operand, result: usize, merge: usize, pending: Set<int>)
    requires
        tidy(l, pending),
        l.function.has_word(value),
        result < l.function.slots.len(),
        merge < l.function.blocks.len(),
    ensures
        ({
            let l2 = l.emit(Instr::Store { slot: result, value }).terminate(
                Terminator::Jump(merge),
            );
            &&& typed(l2)
            &&& closed_but(l2, pending.remove(l.current as int))
            &&& widened(l.function, l2.function)
            &&& scope_ok(l2)
        }),
{
    let store = Instr::Store { slot: result, value };
    let l1 = l.emit(store);
    lemma_tidy_emit(l, store, pending);
    let l2 = l1.terminate(Terminator::Jump(merge));
    assert forall|b: int| 0 <= b < l2.function.blocks.len() implies l2.function.block_ok(
        #[trigger] l2.function.blocks[b],
    ) by {
        assert(l1.function.block_ok(l1.function.blocks[b]));
        let block = l2.function.blocks[b];
        assert forall|i: int| 0 <= i < block.instrs.len() implies l2.function.instr_ok(
            #[trigger] block.instrs[i],
        ) by {
            assert(block.instrs[i] == l1.function.blocks[b].instrs[i]);
            assert(l1.function.instr_ok(l1.function.blocks[b].instrs[i]));
        }
    }
    assert forall|b: int|
        0 <= b < l2.function.blocks.len() && (#[trigger] l2.function.blocks[b]).terminator
            is None implies pending.remove(l.current as int).contains(b) by {
        assert(l1.function.blocks[b].terminator is None);
    }
    lemma_widened_then(l.function, l1.function, l2.function);
}

/// Lowering arms keeps the code well formed, and leaves the block in which
/// the arms meet pending.
proof fn lemma_lower_arms_tidy(
    arms: Seq<(Pattern, ExprView)>,
    i: int,
    l: Lowering,
    scrutinee: Operand,
    result: usize,
    merge: usize,
    pending: Set<int>,
)
    requires
        0 <= i < arms.len(),
        tidy(l, pending),
        pending.contains(l.current as int),
        pending.contains(merge as int),
        merge < l.function.blocks.len(),
        merge != l.current,
        l.function.blocks[merge as int].terminator is None,
        result < l.function.slots.len(),
        l.function.has_word(scrutinee),
        lower_arms(arms, i, l, scrutinee, result, merge) is Ok,
        bounded(lower_arms(arms, i, l, scrutinee, result, merge)->Ok_0.function),
    ensures
        arms_tidied(l, lower_arms(arms, i, l, scrutinee, result, merge)->Ok_0, pending),
    decreases arms, arms.len() - i,
{
    let end = lower_arms(arms, i, l, scrutinee, result, merge)->Ok_0;
    lemma_lower_arms_grows(arms, i, l, scrutinee, result, merge);
    {
        match arms[i].0 {
            Pattern::Wildcard => {
                let (l1, v) = lower(arms[i].1, l)->Ok_0;
                let p1 = pending.remove(l.current as int).insert(l1.current as int);
                lemma_steps_grow(l1);
                lemma_steps_grow(l1.emit(Instr::Store { slot: result, value: v }));
                lemma_lower_tidy(arms[i].1, l, pending);
                lemma_tidy_close(l1, v, result, merge, p1);
                lemma_widened_then(l.function, l1.function, end.function);
            },
            Pattern::Literal(k) => {
                let n = arms.len();
                let b = l.function.blocks.len() as int;
                let lt = l.test_arm(i, n, scrutinee, k, merge);
                let next = l.next_check(i, n, merge);
                let flag = l.next_register();
                let body = l.next_block();
                let (l1, v) = lower(arms[i].1, lt)->Ok_0;
                let store = Instr::Store { slot: result, value: v };
                let jump = Terminator::Jump(merge);
                let l2 = l1.emit(store);
                let l3 = l2.terminate(jump).at(next);
                let test = Instr::Compare {
                    dest: flag,
                    predicate: Predicate::EQ,
                    lhs: scrutinee,
                    rhs: Operand::Const(k),
                };
                let branch = Terminator::Branch { cond: flag, then_block: body, else_block: next };
                let la = l.block(Label::MatchArm(i as usize));
                let lb = if i + 1 < n {
                    la.block(Label::MatchCheck((i + 1) as usize))
                } else {
                    la
                };
                let ld = lb.define(Width::Bit);
                let lc = ld.emit(test);
                lemma_steps_grow(l);
                lemma_lower_grows(arms[i].1, lt);
                lemma_steps_grow(l1);
                lemma_steps_grow(l2);
                lemma_lower_arms_grows(arms, i + 1, l3, scrutinee, result, merge);
                lemma_test_arm(l, i, n, scrutinee, k, merge);
                lemma_lower_kept(arms[i].1, lt);
                // The test.
                let pa = pending.insert(b);
                let pb = if i + 1 < n {
                    pa.insert(b + 1)
                } else {
                    pa
                };
                lemma_tidy_block(l, Label::MatchArm(i as usize), pending);
                if i + 1 < n {
                    lemma_tidy_block(la, Label::MatchCheck((i + 1) as usize), pa);
                    lemma_widened_then(l.function, la.function, lb.function);
                }
                lemma_tidy_define(lb, Width::Bit, pb);
                lemma_block_widened_operand(l.function, lb.function, scrutinee);
                lemma_block_widened_operand(lb.function, ld.function, scrutinee);
                lemma_tidy_emit(ld, test, pb);
                lemma_tidy_terminate(lc, branch, body, pb);
                let pt = pb.remove(l.current as int);
                assert(lt == lc.terminate(branch).at(body));
                lemma_widened_then(lb.function, ld.function, lc.function);
                lemma_widened_then(lb.function, lc.function, lt.function);
                lemma_widened_then(l.function, lb.function, lt.function);
                // The body.
                lemma_lower_tidy(arms[i].1, lt, pt);
                let p1 = pt.remove(b).insert(l1.current as int);
                lemma_widened_then(l.function, lt.function, l1.function);
                lemma_tidy_emit(l1, store, p1);
                lemma_widened_then(l.function, l1.function, l2.function);
                assert(l2.function.blocks[merge as int] == l.function.blocks[merge as int]) by {
                    assert(lt.function.blocks[merge as int] == l.function.blocks[merge as int]);
                    assert(l1.function.blocks[merge as int] == lt.function.blocks[merge as int]);
                }
                if i + 1 < n {
                    assert(l1.function.blocks[next as int] == lt.function.blocks[next as int]);
                    lemma_tidy_terminate(l2, jump, next, p1);
                    let p3 = p1.remove(l1.current as int);
                    lemma_widened_then(l.function, l2.function, l3.function);
                    lemma_block_widened_operand(l.function, l3.function, scrutinee);
                    lemma_lower_arms_tidy(arms, i + 1, l3, scrutinee, result, merge, p3);
                    lemma_widened_then(l.function, l3.function, end.function);
                    assert(closed_but(end, pending.remove(l.current as int)));
                } else {
                    lemma_tidy_terminate(l2, jump, merge, p1);
                    lemma_widened_then(l.function, l2.function, l3.function);
                    assert(closed_but(end, pending.remove(l.current as int)));
                }
            },
        }
    }
}

proof fn lemma_tidy_match(e: ExprView, l: Lowering, pending: Set<int>)
    requires
        e is Match,
        tidiable(e, l, pending),
    ensures
        tidied(e, l, pending),
    decreases e, 0nat,
{
    let scrutinee = e->Match_0;
    let arms = e->Match_1;
    let (l1, sv) = lower(*scrutinee, l)->Ok_0;
    let merge = l1.next_block();
    let m = l1.function.blocks.len() as int;
    let result = l1.next_slot();
    let la = l1.enter_match();
    let l5 = lower_arms(arms, 0, la, sv, result, merge)->Ok_0;
    let l6 = l5.at(merge);
    let load = Instr::Load { dest: l6.next_register(), slot: result };
    let l6d = l6.define(Width::Word);
    let l7 = l6d.emit(load);
    let lx = l1.block(Label::MatchMerge);
    let ly = lx.slot(MATCH_RESULT@);
    let lz = ly.block(Label::MatchCheck(0));
    let jump = Terminator::Jump((merge + 1) as usize);
    lemma_steps_grow(l1);
    lemma_lower_arms_grows(arms, 0, la, sv, result, merge);
    lemma_steps_grow(l6);
    lemma_steps_grow(l6d);
    lemma_lower_kept(*scrutinee, l);
    lemma_enter_match(l1);
    lemma_lower_arms_kept(arms, 0, la, sv, result, merge);
    // The scrutinee and the entry.
    lemma_lower_tidy(*scrutinee, l, pending);
    let p1 = pending.remove(l.current as int).insert(l1.current as int);
    let px = p1.insert(m);
    let pz = px.insert(m + 1);
    lemma_tidy_block(l1, Label::MatchMerge, p1);
    lemma_tidy_slot(lx, MATCH_RESULT@, px);
    lemma_tidy_block(ly, Label::MatchCheck(0), px);
    lemma_tidy_terminate(lz, jump, (merge + 1) as usize, pz);
    let pa = pz.remove(l1.current as int);
    assert(la == lz.terminate(jump).at((merge + 1) as usize));
    lemma_widened_then(l1.function, lx.function, ly.function);
    lemma_widened_then(l1.function, ly.function, lz.function);
    lemma_widened_then(l1.function, lz.function, la.function);
    lemma_block_widened_operand(l1.function, la.function, sv);
    // The arms and the block in which they meet.
    assert(arms.len() > 0) by {
        let w = choose|w: int| 0 <= w < arms.len() && (#[trigger] arms[w]).0 == Pattern::Wildcard;
    }
    lemma_lower_arms_tidy(arms, 0, la, sv, result, merge, pa);
    let p5 = pa.remove(m + 1);
    assert(l5.function.blocks[merge as int] == la.function.blocks[merge as int]);
    assert(tidy(l6, p5));
    lemma_tidy_define(l6, Width::Word, p5);
    lemma_tidy_emit(l6d, load, p5);
    lemma_widened_then(l6.function, l6d.function, l7.function);
    lemma_widened_then(la.function, l5.function, l7.function);
    lemma_widened_then(l1.function, la.function, l7.function);
    lemma_widened_then(l.function, l1.function, l7.function);
    lemma_tidy_more(l7, p5, pending.remove(l.current as int).insert(l7.current as int));
}

/// The code of a program is well formed.
pub proof fn law_code_is_well_formed(e: ExprView, f: FunctionView)
    requires
        lower_program(e) == Ok::<FunctionView, LowerError>(f),
        bounded(f),
    ensures
        f.well_formed(),
{
    let start = Lowering::start();
    let (l, operand) = lower(e, start)->Ok_0;
    let ret = Terminator::Return(operand);
    let pending = Set::<int>::empty().insert(0);
    assert(start.function.blocks[0].terminator is None);
    assert(tidy(start, pending));
    lemma_lower_grows(e, start);
    assert(l.terminate(ret).function.blocks.len() == l.function.blocks.len() || !l.ready());
    lemma_lower_tidy(e, start, pending);
    let last = pending.remove(0).insert(l.current as int);
    assert forall|b: int| 0 <= b < f.blocks.len() implies f.block_ok(#[trigger] f.blocks[b])
        && f.blocks[b].terminator is Some by {
        assert(l.function.block_ok(l.function.blocks[b]));
        if b != l.current {
            assert(f.blocks[b] == l.function.blocks[b]);
            if l.function.blocks[b].terminator is None {
                assert(last.contains(b));
            }
        }
        assert forall|i: int| 0 <= i < f.blocks[b].instrs.len() implies f.instr_ok(
            #[trigger] f.blocks[b].instrs[i],
        ) by {
            assert(f.blocks[b].instrs[i] == l.function.blocks[b].instrs[i]);
            assert(l.function.instr_ok(l.function.blocks[b].instrs[i]));
        }
    }
}

} // verus!
