use crate::ast::{arms_view, exprs_view, Expr, ExprView, Pattern};
use crate::correctness::lemma_run_shows_program;
use crate::faults::{first_fault, law_program_has_code_or_fault};
use crate::frame::lemma_code_is_bounded;
use crate::ir::{
    BinaryOp, Block, Function, Instr, Label, Operand, Predicate, Terminator, Width, MATCH_RESULT,
};
use crate::lower::{
    binary_op, has_wildcard, lookup, lower, lower_arms, lower_program, merged, own_fault,
    predicate_of, LowerError, Lowering,
};
use crate::machine::{execution, run, Outcome, RunError};
use crate::semantics::{eval_program, Evaluation};
use crate::shape::law_code_is_well_formed;
use vstd::prelude::*;
use vstd::string::StringExecFns;

verus! {

/// Whether `r` and the state `post` are what lowering `e` in the state `pre`
/// gives. Behind a fault the same variables are in scope as before; and
/// where the fault is one that `e` shows before any part of it is lowered,
/// nothing has been emitted: the state is as it was.
pub open spec fn lowers(
    pre: Lowering,
    e: ExprView,
    r: Result<Operand, LowerError>,
    post: Lowering,
) -> bool {
    match lower(e, pre) {
        Ok((l, operand)) => r == Ok::<Operand, LowerError>(operand) && post == l && post.ready()
            && post.scope == pre.scope && pre.function.blocks.len() <= post.function.blocks.len(),
        Err(fault) => r == Err::<Operand, LowerError>(fault) && post.scope == pre.scope && (
        own_fault(e, pre.scope) is Some ==> post == pre),
    }
}

/// The variables in scope as values.
pub open spec fn scope_view(variables: Seq<(String, usize)>) -> Seq<(Seq<char>, usize)> {
    variables.map_values(|v: (String, usize)| (v.0@, v.1))
}

/// Why a program has no value.
#[derive(Copy, Clone, Debug, PartialEq, Eq, Structural)]
pub enum ExecuteError {
    /// The program has no code.
    Lower(LowerError),
    /// The run of its code did not return.
    Run(RunError),
}

/// Whether `head` is the given name.
fn is_name(head: &String, name: &str) -> (r: bool)
    ensures
        r == (head@ == name@),
{
    let other = String::from_str(name);
    *head == other
}

/// The arithmetic instruction that a head names.
fn binary_of(head: &String) -> (r: Option<BinaryOp>)
    ensures
        r == binary_op(head@),
{
    if is_name(head, "+") {
        Some(BinaryOp::Add)
    } else if is_name(head, "-") {
        Some(BinaryOp::Sub)
    } else if is_name(head, "*") {
        Some(BinaryOp::Mul)
    } else if is_name(head, "/") {
        Some(BinaryOp::SDiv)
    } else if is_name(head, "%") {
        Some(BinaryOp::SRem)
    } else {
        None
    }
}

/// The predicate that a head names.
fn predicate_for(head: &String) -> (r: Option<Predicate>)
    ensures
        r == predicate_of(head@),
{
    if is_name(head, "<") {
        Some(Predicate::SLT)
    } else if is_name(head, ">") {
        Some(Predicate::SGT)
    } else if is_name(head, "=") {
        Some(Predicate::EQ)
    } else if is_name(head, "!=") {
        Some(Predicate::NE)
    } else {
        None
    }
}

/// Whether one of the arms is a wildcard.
fn any_wildcard(arms: &Vec<(Pattern, Expr)>) -> (r: bool)
    ensures
        r == has_wildcard(arms_view(arms@)),
{
    let mut i: usize = 0;
    while i < arms.len()
        invariant
            i <= arms.len(),
            forall|j: int| 0 <= j < i ==> (#[trigger] arms_view(arms@)[j]).0 != Pattern::Wildcard,
        decreases arms.len() - i,
    {
        if let Pattern::Wildcard = arms[i].0 {
            assert(arms_view(arms@)[i as int].0 == Pattern::Wildcard);
            return true;
        }
        i += 1;
    }
    false
}

/// The lowering of expressions to the code of one function.
#[derive(Debug)]
pub struct CodeGen {
    function: Function,
    /// The block at whose end instructions are put.
    current: usize,
    /// The variables in scope, innermost last, each with its stack slot.
    variables: Vec<(String, usize)>,
}

impl View for CodeGen {
    type V = Lowering;

    closed spec fn view(&self) -> Lowering {
        Lowering {
            function: self.function@,
            current: self.current,
            scope: scope_view(self.variables@),
        }
    }
}

impl CodeGen {
    /// A generator that has lowered nothing.
    pub fn new() -> (g: CodeGen)
        ensures
            g@ == Lowering::start(),
    {
        let mut blocks: Vec<Block> = Vec::new();
        blocks.push(Block { label: Label::Entry, instrs: Vec::new(), terminator: None });
        let g = CodeGen {
            function: Function { slots: Vec::new(), registers: Vec::new(), blocks },
            current: 0,
            variables: Vec::new(),
        };
        proof {
            assert(g@.function.blocks =~= Lowering::start().function.blocks);
            assert(g@.function.slots =~= Lowering::start().function.slots);
            assert(g@.scope =~= Lowering::start().scope);
        }
        g
    }

    fn emit(&mut self, instr: Instr)
        requires
            old(self)@.ready(),
        ensures
            final(self)@ == old(self)@.emit(instr),
            final(self)@.ready(),
    {
        let current = self.current;
        self.function.blocks[current].instrs.push(instr);
        proof {
            assert(self@.function.blocks =~= old(self)@.emit(instr).function.blocks);
        }
    }

    fn terminate(&mut self, terminator: Terminator)
        requires
            old(self)@.ready(),
        ensures
            final(self)@ == old(self)@.terminate(terminator),
            final(self)@.ready(),
    {
        let current = self.current;
        self.function.blocks[current].terminator = Some(terminator);
        proof {
            assert(self@.function.blocks =~= old(self)@.terminate(terminator).function.blocks);
        }
    }

    fn add_block(&mut self, label: Label) -> (index: usize)
        ensures
            index == old(self)@.next_block(),
            index == old(self)@.function.blocks.len(),
            index < final(self)@.function.blocks.len(),
            final(self)@ == old(self)@.block(label),
            old(self)@.ready() ==> final(self)@.ready(),
    {
        let index = self.function.blocks.len();
        self.function.blocks.push(Block { label, instrs: Vec::new(), terminator: None });
        proof {
            assert(self@.function.blocks =~= old(self)@.block(label).function.blocks);
        }
        index
    }

    fn define(&mut self, width: Width) -> (index: usize)
        ensures
            index == old(self)@.next_register(),
            index == old(self)@.function.registers.len(),
            final(self)@ == old(self)@.define(width),
            old(self)@.ready() ==> final(self)@.ready(),
    {
        let index = self.function.registers.len();
        self.function.registers.push(width);
        index
    }

    fn add_slot(&mut self, name: String) -> (index: usize)
        ensures
            index == old(self)@.next_slot(),
            index == old(self)@.function.slots.len(),
            final(self)@ == old(self)@.slot(name@),
            old(self)@.ready() ==> final(self)@.ready(),
    {
        let index = self.function.slots.len();
        self.function.slots.push(name);
        proof {
            assert(self@.function.slots =~= old(self)@.slot(name@).function.slots);
        }
        index
    }

    fn position(&mut self, block: usize)
        requires
            block < old(self)@.function.blocks.len(),
        ensures
            final(self)@ == old(self)@.at(block),
            final(self)@.ready(),
    {
        self.current = block;
    }

    fn bind(&mut self, name: String, slot: usize)
        ensures
            final(self)@ == old(self)@.bind(name@, slot),
            old(self)@.ready() ==> final(self)@.ready(),
    {
        self.variables.push((name, slot));
        proof {
            assert(self@.scope =~= old(self)@.bind(name@, slot).scope);
        }
    }

    fn unbind(&mut self)
        ensures
            old(self)@.scope.len() > 0 ==> final(self)@ == old(self)@.unbind(),
            old(self)@.scope.len() == 0 ==> final(self)@ == old(self)@,
            old(self)@.ready() ==> final(self)@.ready(),
    {
        self.variables.pop();
        proof {
            if old(self)@.scope.len() > 0 {
                assert(self@.scope =~= old(self)@.unbind().scope);
            } else {
                assert(self@.scope =~= old(self)@.scope);
            }
        }
    }

    /// The slot of the innermost variable of the given name.
    fn find(&self, name: &String) -> (r: Option<usize>)
        ensures
            r == lookup(self@.scope, name@),
    {
        let ghost scope = self@.scope;
        let mut i: usize = self.variables.len();
        proof {
            assert(scope.take(i as int) =~= scope);
        }
        while i > 0
            invariant
                i <= self.variables.len(),
                scope == scope_view(self.variables@),
                lookup(scope, name@) == lookup(scope.take(i as int), name@),
            decreases i,
        {
            i -= 1;
            proof {
                assert(scope.take(i + 1).drop_last() =~= scope.take(i as int));
            }
            if self.variables[i].0 == *name {
                return Some(self.variables[i].1);
            }
        }
        proof {
            assert(scope.take(0).len() == 0);
        }
        None
    }

    /// Lowers an expression to code at the end of the current block, and
    /// gives the operand that holds its value there.
    fn compile_expr(&mut self, expr: &Expr) -> (r: Result<Operand, LowerError>)
        requires
            old(self)@.ready(),
        ensures
            lowers(old(self)@, expr@, r, final(self)@),
        decreases expr, 1nat,
    {
        match expr {
            Expr::Number(n) => Ok(Operand::Const(*n)),
            Expr::Ident(name) => match self.find(name) {
                Some(slot) => {
                    let dest = self.define(Width::Word);
                    self.emit(Instr::Load { dest, slot });
                    Ok(Operand::Reg(dest))
                },
                None => Err(LowerError::UndefinedVariable),
            },
            Expr::Call(func_name, args) => {
                assert(exprs_view(args@).len() == args@.len());
                if is_name(func_name, "print") && args.len() == 1 {
                    self.compile_print_call(expr)
                } else if binary_of(func_name).is_some() && args.len() == 2 {
                    self.compile_binop(expr)
                } else if predicate_for(func_name).is_some() && args.len() == 2 {
                    self.compile_comparison(expr)
                } else {
                    Err(LowerError::UnknownCall)
                }
            },
            Expr::Sequence(first, second) => {
                match self.compile_expr(first) {
                    Err(fault) => Err(fault),
                    Ok(_) => self.compile_expr(second),
                }
            },
            Expr::Assign(var_name, value) => {
                let val = match self.compile_expr(value) {
                    Ok(val) => val,
                    Err(fault) => {
                        return Err(fault);
                    },
                };
                match self.find(var_name) {
                    Some(slot) => {
                        self.emit(Instr::Store { slot, value: val });
                        Ok(val)
                    },
                    None => Err(LowerError::AssignToUndefined),
                }
            },
            Expr::Decl(var_name, params, value, body) => {
                if params.len() > 0 {
                    return Err(LowerError::FunctionsNotSupported);
                }
                let val = match self.compile_expr(value) {
                    Ok(val) => val,
                    Err(fault) => {
                        return Err(fault);
                    },
                };
                let slot = self.add_slot(var_name.clone());
                self.emit(Instr::Store { slot, value: val });
                self.bind(var_name.clone(), slot);
                let ghost inner = self@;
                let result = self.compile_expr(body);
                proof {
                    assert(self@.scope == inner.scope);
                    assert(inner.scope.drop_last() =~= old(self)@.scope);
                }
                self.unbind();
                result
            },
            Expr::While(_, _) => self.compile_while(expr),
            Expr::Match(_, _) => self.compile_match(expr),
        }
    }

    /// Lowers a call of `print`.
    fn compile_print_call(&mut self, expr: &Expr) -> (r: Result<Operand, LowerError>)
        requires
            old(self)@.ready(),
            expr matches Expr::Call(head, args) && head@ == "print"@ && args.len() == 1,
        ensures
            lowers(old(self)@, expr@, r, final(self)@),
        decreases expr, 0nat,
    {
        match expr {
            Expr::Call(_, args) => {
                assert(exprs_view(args@).len() == 1 && exprs_view(args@)[0] == args@[0]@);
                let value = match self.compile_expr(&args[0]) {
                    Ok(value) => value,
                    Err(fault) => {
                        return Err(fault);
                    },
                };
                self.emit(Instr::Print { value });
                Ok(value)
            },
            _ => Err(LowerError::UnknownCall),
        }
    }

    /// Lowers a call of an arithmetic built-in.
    fn compile_binop(&mut self, expr: &Expr) -> (r: Result<Operand, LowerError>)
        requires
            old(self)@.ready(),
            expr matches Expr::Call(head, args) && binary_op(head@) is Some && args.len() == 2,
        ensures
            lowers(old(self)@, expr@, r, final(self)@),
        decreases expr, 0nat,
    {
        match expr {
            Expr::Call(head, args) => {
                let op = match binary_of(head) {
                    Some(op) => op,
                    None => {
                        return Err(LowerError::UnknownCall);
                    },
                };
                assert(exprs_view(args@).len() == 2 && exprs_view(args@)[0] == args@[0]@
                    && exprs_view(args@)[1] == args@[1]@);
                let lhs = match self.compile_expr(&args[0]) {
                    Ok(value) => value,
                    Err(fault) => {
                        return Err(fault);
                    },
                };
                let rhs = match self.compile_expr(&args[1]) {
                    Ok(value) => value,
                    Err(fault) => {
                        return Err(fault);
                    },
                };
                let dest = self.define(Width::Word);
                self.emit(Instr::Binary { dest, op, lhs, rhs });
                Ok(Operand::Reg(dest))
            },
            _ => Err(LowerError::UnknownCall),
        }
    }

    /// Lowers a call of a comparison: the result is 1 or 0.
    fn compile_comparison(&mut self, expr: &Expr) -> (r: Result<Operand, LowerError>)
        requires
            old(self)@.ready(),
            expr matches Expr::Call(head, args) && binary_op(head@) is None && predicate_of(
                head@,
            ) is Some && args.len() == 2,
        ensures
            lowers(old(self)@, expr@, r, final(self)@),
        decreases expr, 0nat,
    {
        match expr {
            Expr::Call(head, args) => {
                let predicate = match predicate_for(head) {
                    Some(predicate) => predicate,
                    None => {
                        return Err(LowerError::UnknownCall);
                    },
                };
                assert(exprs_view(args@).len() == 2 && exprs_view(args@)[0] == args@[0]@
                    && exprs_view(args@)[1] == args@[1]@);
                let lhs = match self.compile_expr(&args[0]) {
                    Ok(value) => value,
                    Err(fault) => {
                        return Err(fault);
                    },
                };
                let rhs = match self.compile_expr(&args[1]) {
                    Ok(value) => value,
                    Err(fault) => {
                        return Err(fault);
                    },
                };
                let flag = self.define(Width::Bit);
                self.emit(Instr::Compare { dest: flag, predicate, lhs, rhs });
                let dest = self.define(Width::Word);
                self.emit(Instr::Extend { dest, source: flag });
                Ok(Operand::Reg(dest))
            },
            _ => Err(LowerError::UnknownCall),
        }
    }

    /// Lowers a loop to a header that tests the condition, a body that goes
    /// back to the header, and an exit. The value of a loop is 0.
    fn compile_while(&mut self, expr: &Expr) -> (r: Result<Operand, LowerError>)
        requires
            old(self)@.ready(),
            expr is While,
        ensures
            lowers(old(self)@, expr@, r, final(self)@),
            r matches Ok(value) ==> value == Operand::Const(0),
        decreases expr, 0nat,
    {
        match expr {
            Expr::While(condition, body) => {
                assert(expr@ == ExprView::While(Box::new(condition@), Box::new(body@)));
                let loop_header = self.add_block(Label::LoopHeader);
                let loop_body = self.add_block(Label::LoopBody);
                let loop_exit = self.add_block(Label::LoopExit);
                assert(loop_body == loop_header + 1 && loop_exit == loop_header + 2);
                self.terminate(Terminator::Jump(loop_header));
                self.position(loop_header);
                let cond_val = match self.compile_expr(condition) {
                    Ok(value) => value,
                    Err(fault) => {
                        return Err(fault);
                    },
                };
                let flag = self.define(Width::Bit);
                self.emit(
                    Instr::Compare {
                        dest: flag,
                        predicate: Predicate::NE,
                        lhs: cond_val,
                        rhs: Operand::Const(0),
                    },
                );
                self.terminate(
                    Terminator::Branch { cond: flag, then_block: loop_body, else_block: loop_exit },
                );
                self.position(loop_body);
                match self.compile_expr(body) {
                    Ok(_) => {},
                    Err(fault) => {
                        return Err(fault);
                    },
                }
                self.terminate(Terminator::Jump(loop_header));
                self.position(loop_exit);
                Ok(Operand::Const(0))
            },
            _ => Err(LowerError::UnknownCall),
        }
    }

    /// Lowers a match to a chain of tests, one block for each arm's body,
    /// and a block in which the bodies meet.
    fn compile_match(&mut self, expr: &Expr) -> (r: Result<Operand, LowerError>)
        requires
            old(self)@.ready(),
            expr is Match,
        ensures
            lowers(old(self)@, expr@, r, final(self)@),
            !has_wildcard(expr@->Match_1) ==> r == Err::<Operand, LowerError>(
                LowerError::NonExhaustiveMatch,
            ) && final(self)@ == old(self)@,
        decreases expr, 0nat,
    {
        match expr {
            Expr::Match(scrutinee, arms) => {
                assert(expr@ == ExprView::Match(Box::new(scrutinee@), arms_view(arms@)));
                if !any_wildcard(arms) {
                    return Err(LowerError::NonExhaustiveMatch);
                }
                let scrutinee_val = match self.compile_expr(scrutinee) {
                    Ok(value) => value,
                    Err(fault) => {
                        return Err(fault);
                    },
                };
                let merge_block = self.add_block(Label::MatchMerge);
                let result_slot = self.add_slot(String::from_str(MATCH_RESULT));
                let mut next_check_block = self.add_block(Label::MatchCheck(0));
                assert(next_check_block == merge_block + 1);
                self.terminate(Terminator::Jump(next_check_block));
                self.position(next_check_block);
                let ghost all = arms_view(arms@);
                let ghost chain = lower_arms(all, 0, self@, scrutinee_val, result_slot, merge_block);
                let mut idx: usize = 0;
                let mut closed = false;
                assert(lower(expr@, old(self)@) == merged(chain, result_slot, merge_block));
                while idx < arms.len() && !closed
                    invariant
                        idx <= arms.len(),
                        lower(expr@, old(self)@) == merged(chain, result_slot, merge_block),
                        old(self)@.function.blocks.len() <= self@.function.blocks.len(),
                        old(self)@.scope == self@.scope,
                        all == arms_view(arms@),
                        has_wildcard(all),
                        expr matches Expr::Match(_, a) && a == arms,
                        self@.ready(),
                        merge_block < self@.function.blocks.len(),
                        closed ==> chain == Ok::<Lowering, LowerError>(self@),
                        !closed ==> chain == lower_arms(
                            all,
                            idx as int,
                            self@,
                            scrutinee_val,
                            result_slot,
                            merge_block,
                        ),
                    decreases arms.len() - idx, (if closed { 0int } else { 1int }),
                {
                    let pattern = arms[idx].0;
                    let result_expr = &arms[idx].1;
                    assert(all[idx as int] == (pattern, result_expr@));
                    match pattern {
                        Pattern::Literal(lit_val) => {
                            let ghost before = self@;
                            let arm_block = self.add_block(Label::MatchArm(idx));
                            let next_idx = idx + 1;
                            next_check_block = if next_idx < arms.len() {
                                self.add_block(Label::MatchCheck(next_idx))
                            } else {
                                merge_block
                            };
                            assert(next_check_block == before.next_check(
                                idx as int,
                                all.len(),
                                merge_block,
                            ));
                            let flag = self.define(Width::Bit);
                            self.emit(
                                Instr::Compare {
                                    dest: flag,
                                    predicate: Predicate::EQ,
                                    lhs: scrutinee_val,
                                    rhs: Operand::Const(lit_val),
                                },
                            );
                            self.terminate(
                                Terminator::Branch {
                                    cond: flag,
                                    then_block: arm_block,
                                    else_block: next_check_block,
                                },
                            );
                            self.position(arm_block);
                            let arm_val = match self.compile_expr(result_expr) {
                                Ok(value) => value,
                                Err(fault) => {
                                    return Err(fault);
                                },
                            };
                            self.emit(Instr::Store { slot: result_slot, value: arm_val });
                            self.terminate(Terminator::Jump(merge_block));
                            self.position(next_check_block);
                            idx = next_idx;
                        },
                        Pattern::Wildcard => {
                            let arm_val = match self.compile_expr(result_expr) {
                                Ok(value) => value,
                                Err(fault) => {
                                    return Err(fault);
                                },
                            };
                            self.emit(Instr::Store { slot: result_slot, value: arm_val });
                            self.terminate(Terminator::Jump(merge_block));
                            closed = true;
                        },
                    }
                }
                self.position(merge_block);
                let dest = self.define(Width::Word);
                self.emit(Instr::Load { dest, slot: result_slot });
                Ok(Operand::Reg(dest))
            },
            _ => Err(LowerError::UnknownCall),
        }
    }

    /// Lowers a program to the function that evaluates it and returns its
    /// value.
    pub fn compile_program(&mut self, expr: &Expr) -> (r: Result<Function, LowerError>)
        ensures
            match lower_program(expr@) {
                Ok(function) => r matches Ok(f) && f@ == function,
                Err(fault) => r == Err::<Function, LowerError>(fault),
            },
            match first_fault(expr@, Seq::empty()) {
                Some(fault) => r == Err::<Function, LowerError>(fault),
                None => r is Ok,
            },
            r matches Ok(f) ==> f@.well_formed(),
            final(self)@ == Lowering::start(),
    {
        proof {
            law_program_has_code_or_fault(expr@);
        }
        let mut fresh = CodeGen::new();
        let outcome = fresh.compile_expr(expr);
        let r = match outcome {
            Ok(value) => {
                fresh.terminate(Terminator::Return(value));
                proof {
                    lemma_code_is_bounded(fresh.function);
                    law_code_is_well_formed(expr@, fresh.function@);
                }
                Ok(fresh.function)
            },
            Err(fault) => Err(fault),
        };
        *self = CodeGen::new();
        r
    }

    /// Lowers a program and runs its code from the entry, with at most
    /// `fuel` jumps. What the program prints is dropped. A value that is
    /// given is the value of the program, and a run without meaning shows a
    /// program without meaning.
    pub fn execute_program(&mut self, expr: &Expr, fuel: u64) -> (r: Result<i64, ExecuteError>)
        ensures
            match lower_program(expr@) {
                Err(fault) => r == Err::<i64, ExecuteError>(ExecuteError::Lower(fault)),
                Ok(function) => match execution(function, fuel as nat) {
                    Outcome::Returned { value, .. } => r == Ok::<i64, ExecuteError>(value),
                    Outcome::Undefined => r == Err::<i64, ExecuteError>(
                        ExecuteError::Run(RunError::Undefined),
                    ),
                    Outcome::OutOfFuel => r == Err::<i64, ExecuteError>(
                        ExecuteError::Run(RunError::OutOfFuel),
                    ),
                },
            },
            r matches Ok(value) ==> eval_program(expr@, fuel as nat) matches Evaluation::Value {
                value: v,
                ..
            } && v == value,
            r == Err::<i64, ExecuteError>(ExecuteError::Run(RunError::Undefined)) ==> eval_program(
                expr@,
                fuel as nat,
            ) is Undefined,
            final(self)@ == Lowering::start(),
    {
        let function = match self.compile_program(expr) {
            Ok(function) => function,
            Err(fault) => {
                return Err(ExecuteError::Lower(fault));
            },
        };
        proof {
            lemma_run_shows_program(expr@, function, fuel as nat);
        }
        match run(&function, fuel) {
            Ok(done) => Ok(done.value),
            Err(fault) => Err(ExecuteError::Run(fault)),
        }
    }
}

} // verus!
