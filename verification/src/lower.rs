use crate::ast::{ExprView, Pattern};
use crate::ir::{
    BinaryOp, BlockView, FunctionView, Instr, Label, Operand, Predicate, Terminator, Width,
    MATCH_RESULT,
};
use vstd::prelude::*;

verus! {

/// Why an expression has no code.
#[derive(Copy, Clone, Debug, PartialEq, Eq, Structural)]
pub enum LowerError {
    /// A variable is read that no enclosing declaration introduces.
    UndefinedVariable,
    /// A variable is assigned that no enclosing declaration introduces.
    AssignToUndefined,
    /// A call whose head is no built-in, or is one of another number of
    /// arguments.
    UnknownCall,
    /// A declaration with parameters.
    FunctionsNotSupported,
    /// A match without a wildcard arm.
    NonExhaustiveMatch,
}

impl LowerError {
    /// Whether the fault is one of resolution: a name or a call that stands
    /// for nothing.
    pub open spec fn is_resolution(self) -> bool {
        self == LowerError::UndefinedVariable || self == LowerError::AssignToUndefined || self
            == LowerError::UnknownCall
    }

    /// Whether the fault is one of exhaustiveness.
    pub open spec fn is_exhaustiveness(self) -> bool {
        self == LowerError::NonExhaustiveMatch
    }
}

/// The state of lowering: the function built so far, the block at whose end
/// instructions are put, and the variables in scope, innermost last, each
/// with its stack slot.
pub ghost struct Lowering {
    pub function: FunctionView,
    pub current: usize,
    pub scope: Seq<(Seq<char>, usize)>,
}

/// The slot of the innermost variable of the given name.
pub open spec fn lookup(scope: Seq<(Seq<char>, usize)>, name: Seq<char>) -> Option<usize>
    decreases scope.len(),
{
    if scope.len() == 0 {
        None
    } else if scope.last().0 == name {
        Some(scope.last().1)
    } else {
        lookup(scope.drop_last(), name)
    }
}

impl Lowering {
    /// The state before anything is lowered: the empty entry block.
    pub open spec fn start() -> Lowering {
        Lowering {
            function: FunctionView {
                slots: Seq::empty(),
                registers: Seq::empty(),
                blocks: seq![
                    BlockView { label: Label::Entry, instrs: Seq::empty(), terminator: None },
                ],
            },
            current: 0,
            scope: Seq::empty(),
        }
    }

    /// Whether instructions can be put: the current block exists.
    pub open spec fn ready(self) -> bool {
        self.current < self.function.blocks.len()
    }

    /// The index that the next new block gets.
    pub open spec fn next_block(self) -> usize {
        self.function.blocks.len() as usize
    }

    /// The index that the next new register gets.
    pub open spec fn next_register(self) -> usize {
        self.function.registers.len() as usize
    }

    /// The index that the next new slot gets.
    pub open spec fn next_slot(self) -> usize {
        self.function.slots.len() as usize
    }

    /// With `instr` at the end of the current block, if there is one.
    pub open spec fn emit(self, instr: Instr) -> Lowering {
        if self.ready() {
            let block = self.function.blocks[self.current as int];
            Lowering {
                function: FunctionView {
                    blocks: self.function.blocks.update(
                        self.current as int,
                        BlockView { instrs: block.instrs.push(instr), ..block },
                    ),
                    ..self.function
                },
                ..self
            }
        } else {
            self
        }
    }

    /// With the current block, if there is one, ended by `terminator`.
    pub open spec fn terminate(self, terminator: Terminator) -> Lowering {
        if self.ready() {
            let block = self.function.blocks[self.current as int];
            Lowering {
                function: FunctionView {
                    blocks: self.function.blocks.update(
                        self.current as int,
                        BlockView { terminator: Some(terminator), ..block },
                    ),
                    ..self.function
                },
                ..self
            }
        } else {
            self
        }
    }

    /// With a new, empty block, whose index is `self.next_block()`.
    pub open spec fn block(self, label: Label) -> Lowering {
        Lowering {
            function: FunctionView {
                blocks: self.function.blocks.push(
                    BlockView { label, instrs: Seq::empty(), terminator: None },
                ),
                ..self.function
            },
            ..self
        }
    }

    /// With a new register, whose index is `self.next_register()`.
    pub open spec fn define(self, width: Width) -> Lowering {
        Lowering {
            function: FunctionView {
                registers: self.function.registers.push(width),
                ..self.function
            },
            ..self
        }
    }

    /// With a new stack slot, whose index is `self.next_slot()`.
    pub open spec fn slot(self, name: Seq<char>) -> Lowering {
        Lowering {
            function: FunctionView { slots: self.function.slots.push(name), ..self.function },
            ..self
        }
    }

    /// With `block` as the current block.
    pub open spec fn at(self, block: usize) -> Lowering {
        Lowering { current: block, ..self }
    }

    /// With the variable `name` in scope, in the slot `slot`.
    pub open spec fn bind(self, name: Seq<char>, slot: usize) -> Lowering {
        Lowering { scope: self.scope.push((name, slot)), ..self }
    }

    /// With the innermost variable out of scope.
    pub open spec fn unbind(self) -> Lowering {
        Lowering { scope: self.scope.drop_last(), ..self }
    }
    /// The state in the header of a loop that is begun here: with the
    /// header, the body and the exit as new blocks, in this order, and a
    /// jump from the current block to the header.
    pub open spec fn enter_loop(self) -> Lowering {
        self.block(Label::LoopHeader).block(Label::LoopBody).block(Label::LoopExit).terminate(
            Terminator::Jump(self.next_block()),
        ).at(self.next_block())
    }

    /// The state in the body of the loop whose header is the block
    /// `header`, behind the test of the condition `c` at the end of the
    /// header: the loop goes on in its body if `c` is not 0, and else in
    /// its exit.
    pub open spec fn test_loop(self, c: Operand, header: usize) -> Lowering {
        let flag = self.next_register();
        self.define(Width::Bit).emit(
            Instr::Compare {
                dest: flag,
                predicate: Predicate::NE,
                lhs: c,
                rhs: Operand::Const(0),
            },
        ).terminate(
            Terminator::Branch {
                cond: flag,
                then_block: (header + 1) as usize,
                else_block: (header + 2) as usize,
            },
        ).at((header + 1) as usize)
    }

    /// The state in the exit of the loop whose header is the block
    /// `header`, behind the jump from the end of the body back to the
    /// header.
    pub open spec fn leave_loop(self, header: usize) -> Lowering {
        self.terminate(Terminator::Jump(header)).at((header + 2) as usize)
    }

    /// The state in the test of the first arm of a match that is begun
    /// here: with the block in which the arms meet, the slot for the result
    /// and the block of the first test as new ones, and a jump from the
    /// current block to the first test.
    pub open spec fn enter_match(self) -> Lowering {
        self.block(Label::MatchMerge).slot(MATCH_RESULT@).block(Label::MatchCheck(0)).terminate(
            Terminator::Jump((self.next_block() + 1) as usize),
        ).at((self.next_block() + 1) as usize)
    }

    /// The block in which the arm after the arm `i` of `n` arms is tested,
    /// when the test of the arm `i` is lowered here: a new block, or
    /// `merge` behind the last arm.
    pub open spec fn next_check(self, i: int, n: nat, merge: usize) -> usize {
        if i + 1 < n {
            (self.next_block() + 1) as usize
        } else {
            merge
        }
    }

    /// The state in the body of the arm `i` of `n` arms, whose pattern is
    /// the literal `k`, behind its test at the end of the current block:
    /// the match goes on in the body if the scrutinee is `k`, and else in
    /// the next test.
    pub open spec fn test_arm(self, i: int, n: nat, scrutinee: Operand, k: i64, merge: usize) -> Lowering {
        let body = self.next_block();
        let l1 = self.block(Label::MatchArm(i as usize));
        let l2 = if i + 1 < n {
            l1.block(Label::MatchCheck((i + 1) as usize))
        } else {
            l1
        };
        let flag = l2.next_register();
        l2.define(Width::Bit).emit(
            Instr::Compare {
                dest: flag,
                predicate: Predicate::EQ,
                lhs: scrutinee,
                rhs: Operand::Const(k),
            },
        ).terminate(
            Terminator::Branch {
                cond: flag,
                then_block: body,
                else_block: self.next_check(i, n, merge),
            },
        ).at(body)
    }
}

/// The arithmetic instruction that a head names.
pub open spec fn binary_op(head: Seq<char>) -> Option<BinaryOp> {
    if head == "+"@ {
        Some(BinaryOp::Add)
    } else if head == "-"@ {
        Some(BinaryOp::Sub)
    } else if head == "*"@ {
        Some(BinaryOp::Mul)
    } else if head == "/"@ {
        Some(BinaryOp::SDiv)
    } else if head == "%"@ {
        Some(BinaryOp::SRem)
    } else {
        None
    }
}

/// The predicate that a head names.
pub open spec fn predicate_of(head: Seq<char>) -> Option<Predicate> {
    if head == "<"@ {
        Some(Predicate::SLT)
    } else if head == ">"@ {
        Some(Predicate::SGT)
    } else if head == "="@ {
        Some(Predicate::EQ)
    } else if head == "!="@ {
        Some(Predicate::NE)
    } else {
        None
    }
}

/// Whether one of the arms is a wildcard.
pub open spec fn has_wildcard(arms: Seq<(Pattern, ExprView)>) -> bool {
    exists|i: int| 0 <= i < arms.len() && (#[trigger] arms[i]).0 == Pattern::Wildcard
}

/// The fault that an expression shows before any part of it is lowered: a
/// variable that is read and is not in scope, a call of what is no built-in
/// or of a built-in with another number of arguments, a declaration with
/// parameters, a match without a wildcard arm.
pub open spec fn own_fault(e: ExprView, scope: Seq<(Seq<char>, usize)>) -> Option<LowerError> {
    match e {
        ExprView::Ident(name) => if lookup(scope, name) is None {
            Some(LowerError::UndefinedVariable)
        } else {
            None
        },
        ExprView::Call(head, args) => if (head == "print"@ && args.len() == 1) || ((binary_op(
            head,
        ) is Some || predicate_of(head) is Some) && args.len() == 2) {
            None
        } else {
            Some(LowerError::UnknownCall)
        },
        ExprView::Decl(_, params, _, _) => if params.len() > 0 {
            Some(LowerError::FunctionsNotSupported)
        } else {
            None
        },
        ExprView::Match(_, arms) => if has_wildcard(arms) {
            None
        } else {
            Some(LowerError::NonExhaustiveMatch)
        },
        _ => None,
    }
}

/// The code of the expression `e`, put at the end of the current block of
/// `l`: the state behind it, and the operand that holds the value of `e`
/// there; or the first fault of `e`, in the order of evaluation.
pub open spec fn lower(e: ExprView, l: Lowering) -> Result<(Lowering, Operand), LowerError>
    decreases e, 0nat,
{
    match e {
        ExprView::Number(n) => Ok((l, Operand::Const(n))),
        ExprView::Ident(name) => match lookup(l.scope, name) {
            None => Err(LowerError::UndefinedVariable),
            Some(slot) => {
                let dest = l.next_register();
                Ok((l.define(Width::Word).emit(Instr::Load { dest, slot }), Operand::Reg(dest)))
            },
        },
        ExprView::Call(head, args) => {
            if head == "print"@ && args.len() == 1 {
                match lower(args[0], l) {
                    Err(fault) => Err(fault),
                    Ok((l1, value)) => Ok((l1.emit(Instr::Print { value }), value)),
                }
            } else if binary_op(head) is Some && args.len() == 2 {
                match lower(args[0], l) {
                    Err(fault) => Err(fault),
                    Ok((l1, lhs)) => match lower(args[1], l1) {
                        Err(fault) => Err(fault),
                        Ok((l2, rhs)) => {
                            let dest = l2.next_register();
                            Ok(
                                (
                                    l2.define(Width::Word).emit(
                                        Instr::Binary { dest, op: binary_op(head)->0, lhs, rhs },
                                    ),
                                    Operand::Reg(dest),
                                ),
                            )
                        },
                    },
                }
            } else if predicate_of(head) is Some && args.len() == 2 {
                match lower(args[0], l) {
                    Err(fault) => Err(fault),
                    Ok((l1, lhs)) => match lower(args[1], l1) {
                        Err(fault) => Err(fault),
                        Ok((l2, rhs)) => {
                            let flag = l2.next_register();
                            let l3 = l2.define(Width::Bit).emit(
                                Instr::Compare {
                                    dest: flag,
                                    predicate: predicate_of(head)->0,
                                    lhs,
                                    rhs,
                                },
                            );
                            let dest = l3.next_register();
                            Ok(
                                (
                                    l3.define(Width::Word).emit(
                                        Instr::Extend { dest, source: flag },
                                    ),
                                    Operand::Reg(dest),
                                ),
                            )
                        },
                    },
                }
            } else {
                Err(LowerError::UnknownCall)
            }
        },
        ExprView::Sequence(first, second) => match lower(*first, l) {
            Err(fault) => Err(fault),
            Ok((l1, _)) => lower(*second, l1),
        },
        ExprView::Assign(name, value) => match lower(*value, l) {
            Err(fault) => Err(fault),
            Ok((l1, v)) => match lookup(l1.scope, name) {
                None => Err(LowerError::AssignToUndefined),
                Some(slot) => Ok((l1.emit(Instr::Store { slot, value: v }), v)),
            },
        },
        ExprView::Decl(name, params, value, body) => {
            if params.len() > 0 {
                Err(LowerError::FunctionsNotSupported)
            } else {
                match lower(*value, l) {
                    Err(fault) => Err(fault),
                    Ok((l1, v)) => {
                        let slot = l1.next_slot();
                        let l2 = l1.slot(name).emit(Instr::Store { slot, value: v }).bind(
                            name,
                            slot,
                        );
                        match lower(*body, l2) {
                            Err(fault) => Err(fault),
                            Ok((l3, result)) => Ok((l3.unbind(), result)),
                        }
                    },
                }
            }
        },
        ExprView::While(cond, body) => match lower(*cond, l.enter_loop()) {
            Err(fault) => Err(fault),
            Ok((l1, c)) => match lower(*body, l1.test_loop(c, l.next_block())) {
                Err(fault) => Err(fault),
                Ok((l2, _)) => Ok((l2.leave_loop(l.next_block()), Operand::Const(0))),
            },
        },
        ExprView::Match(scrutinee, arms) => {
            if !has_wildcard(arms) {
                Err(LowerError::NonExhaustiveMatch)
            } else {
                match lower(*scrutinee, l) {
                    Err(fault) => Err(fault),
                    Ok((l1, s)) => merged(
                        lower_arms(arms, 0, l1.enter_match(), s, l1.next_slot(), l1.next_block()),
                        l1.next_slot(),
                        l1.next_block(),
                    ),
                }
            }
        },
    }
}

/// The end of the code of a match, behind its arms: in the block `merge`,
/// the value is read from the slot `result`.
pub open spec fn merged(arms: Result<Lowering, LowerError>, result: usize, merge: usize) -> Result<
    (Lowering, Operand),
    LowerError,
> {
    match arms {
        Err(fault) => Err(fault),
        Ok(l) => {
            let dest = l.next_register();
            Ok(
                (
                    l.at(merge).define(Width::Word).emit(Instr::Load { dest, slot: result }),
                    Operand::Reg(dest),
                ),
            )
        },
    }
}

/// The code of the arms of a match from the arm `i` on, where the current
/// block of `l` is the one in which the arm `i` is tested: an arm with a
/// literal compares the scrutinee with it and goes to its body or to the
/// test of the next arm; a wildcard arm is the last that is reached, and the
/// arms behind it have no code. Every body stores its value in the slot
/// `result` and goes to the block `merge`.
pub open spec fn lower_arms(
    arms: Seq<(Pattern, ExprView)>,
    i: int,
    l: Lowering,
    scrutinee: Operand,
    result: usize,
    merge: usize,
) -> Result<Lowering, LowerError>
    decreases arms, arms.len() - i,
{
    if i < 0 || i >= arms.len() {
        Ok(l)
    } else {
        match arms[i].0 {
            Pattern::Wildcard => match lower(arms[i].1, l) {
                Err(fault) => Err(fault),
                Ok((l1, v)) => Ok(
                    l1.emit(Instr::Store { slot: result, value: v }).terminate(
                        Terminator::Jump(merge),
                    ),
                ),
            },
            Pattern::Literal(k) => match lower(arms[i].1, l.test_arm(i, arms.len(), scrutinee, k, merge)) {
                Err(fault) => Err(fault),
                Ok((l1, v)) => lower_arms(
                    arms,
                    i + 1,
                    l1.emit(Instr::Store { slot: result, value: v }).terminate(
                        Terminator::Jump(merge),
                    ).at(l.next_check(i, arms.len(), merge)),
                    scrutinee,
                    result,
                    merge,
                ),
            },
        }
    }
}

/// The function that evaluates `e` and returns its value, or the first fault
/// of `e`.
pub open spec fn lower_program(e: ExprView) -> Result<FunctionView, LowerError> {
    match lower(e, Lowering::start()) {
        Err(fault) => Err(fault),
        Ok((l, value)) => Ok(l.terminate(Terminator::Return(value)).function),
    }
}

} // verus!
