use crate::ir::{BinaryOp, Block, Function, FunctionView, Instr, Operand, Predicate, Terminator};
use vstd::prelude::*;

verus! {

/// The state of the machine that runs a function: what each register and
/// each stack slot holds, if anything yet, and what has been printed.
pub ghost struct MachineView {
    pub registers: Seq<Option<i64>>,
    pub memory: Seq<Option<i64>>,
    pub printed: Seq<i64>,
}

/// How a run ends.
pub ghost enum Outcome {
    /// The function returned.
    Returned { value: i64, machine: MachineView },
    /// The run reached something without meaning: a division by zero or one
    /// that overflows, a register or a slot that holds nothing or does not
    /// exist, a block without terminator.
    Undefined,
    /// The run would take more jumps than it was given.
    OutOfFuel,
}

/// The result of an arithmetic instruction; `None` where it has none.
pub open spec fn arithmetic(op: BinaryOp, a: i64, b: i64) -> Option<i64> {
    match op {
        BinaryOp::Add => Some(a.wrapping_add(b)),
        BinaryOp::Sub => Some(a.wrapping_sub(b)),
        BinaryOp::Mul => Some(a.wrapping_mul(b)),
        BinaryOp::SDiv => a.checked_div(b),
        BinaryOp::SRem => a.checked_rem(b),
    }
}

/// Whether a predicate holds of two numbers.
pub open spec fn holds(predicate: Predicate, a: i64, b: i64) -> bool {
    match predicate {
        Predicate::SLT => a < b,
        Predicate::SGT => a > b,
        Predicate::EQ => a == b,
        Predicate::NE => a != b,
    }
}

/// A truth value as a number: 1 or 0.
pub open spec fn bit(b: bool) -> i64 {
    if b {
        1
    } else {
        0
    }
}

/// What a register holds.
pub open spec fn register(m: MachineView, r: usize) -> Option<i64> {
    if r < m.registers.len() {
        m.registers[r as int]
    } else {
        None
    }
}

/// What an operand stands for.
pub open spec fn value_of(m: MachineView, operand: Operand) -> Option<i64> {
    match operand {
        Operand::Const(n) => Some(n),
        Operand::Reg(r) => register(m, r),
    }
}

/// The machine with `value` in the register `dest`.
pub open spec fn written(m: MachineView, dest: usize, value: Option<i64>) -> Option<MachineView> {
    match value {
        Some(v) => if dest < m.registers.len() {
            Some(
                MachineView {
                    registers: m.registers.update(dest as int, Some(v)),
                    memory: m.memory,
                    printed: m.printed,
                },
            )
        } else {
            None
        },
        None => None,
    }
}

/// The machine after an instruction; `None` where the instruction has no
/// meaning in the state `m`.
pub open spec fn step(instr: Instr, m: MachineView) -> Option<MachineView> {
    match instr {
        Instr::Load { dest, slot } => if slot < m.memory.len() {
            written(m, dest, m.memory[slot as int])
        } else {
            None
        },
        Instr::Store { slot, value } => match value_of(m, value) {
            Some(v) => if slot < m.memory.len() {
                Some(
                    MachineView {
                        registers: m.registers,
                        memory: m.memory.update(slot as int, Some(v)),
                        printed: m.printed,
                    },
                )
            } else {
                None
            },
            None => None,
        },
        Instr::Binary { dest, op, lhs, rhs } => match (value_of(m, lhs), value_of(m, rhs)) {
            (Some(a), Some(b)) => written(m, dest, arithmetic(op, a, b)),
            _ => None,
        },
        Instr::Compare { dest, predicate, lhs, rhs } => match (value_of(m, lhs), value_of(m, rhs)) {
            (Some(a), Some(b)) => written(m, dest, Some(bit(holds(predicate, a, b)))),
            _ => None,
        },
        Instr::Extend { dest, source } => written(m, dest, register(m, source)),
        Instr::Print { value } => match value_of(m, value) {
            Some(v) => Some(
                MachineView {
                    registers: m.registers,
                    memory: m.memory,
                    printed: m.printed.push(v),
                },
            ),
            None => None,
        },
    }
}

/// The machine after the instructions of `instrs` from `from` on.
pub open spec fn run_instrs(instrs: Seq<Instr>, from: int, m: MachineView) -> Option<MachineView>
    decreases instrs.len() - from,
{
    if from < 0 || from >= instrs.len() {
        Some(m)
    } else {
        match step(instrs[from], m) {
            Some(next) => run_instrs(instrs, from + 1, next),
            None => None,
        }
    }
}

/// The run of `f` that goes on at the instruction `from` of the block
/// `block`, with at most `fuel` jumps.
pub open spec fn run_from(f: FunctionView, block: usize, from: int, m: MachineView, fuel: nat) -> Outcome
    decreases fuel,
{
    if block >= f.blocks.len() {
        Outcome::Undefined
    } else {
        match run_instrs(f.blocks[block as int].instrs, from, m) {
            None => Outcome::Undefined,
            Some(after) => match f.blocks[block as int].terminator {
                None => Outcome::Undefined,
                Some(Terminator::Return(operand)) => match value_of(after, operand) {
                    Some(value) => Outcome::Returned { value, machine: after },
                    None => Outcome::Undefined,
                },
                Some(Terminator::Jump(target)) => if fuel == 0 {
                    Outcome::OutOfFuel
                } else {
                    run_from(f, target, 0, after, (fuel - 1) as nat)
                },
                Some(Terminator::Branch { cond, then_block, else_block }) => match register(
                    after,
                    cond,
                ) {
                    None => Outcome::Undefined,
                    Some(c) => if fuel == 0 {
                        Outcome::OutOfFuel
                    } else if c != 0 {
                        run_from(f, then_block, 0, after, (fuel - 1) as nat)
                    } else {
                        run_from(f, else_block, 0, after, (fuel - 1) as nat)
                    },
                },
            },
        }
    }
}

/// The machine before the first instruction: nothing in any register or
/// slot, nothing printed.
pub open spec fn initial(f: FunctionView) -> MachineView {
    MachineView {
        registers: Seq::new(f.registers.len(), |i: int| None::<i64>),
        memory: Seq::new(f.slots.len(), |i: int| None::<i64>),
        printed: Seq::empty(),
    }
}

/// The run of `f` from its entry, with at most `fuel` jumps.
pub open spec fn execution(f: FunctionView, fuel: nat) -> Outcome {
    run_from(f, 0, 0, initial(f), fuel)
}

/// What a run that returned has to show.
#[derive(Debug, PartialEq, Eq)]
pub struct Run {
    /// The value that the function returned.
    pub value: i64,
    /// The values that it printed, in order.
    pub printed: Vec<i64>,
}

/// Why a run did not return.
#[derive(Copy, Clone, Debug, PartialEq, Eq, Structural)]
pub enum RunError {
    Undefined,
    OutOfFuel,
}

/// The machine that runs a function.
struct Machine {
    registers: Vec<Option<i64>>,
    memory: Vec<Option<i64>>,
    printed: Vec<i64>,
}

impl View for Machine {
    type V = MachineView;

    closed spec fn view(&self) -> MachineView {
        MachineView { registers: self.registers@, memory: self.memory@, printed: self.printed@ }
    }
}

/// A sequence of `n` empty cells.
fn empty_cells(n: usize) -> (cells: Vec<Option<i64>>)
    ensures
        cells@ == Seq::new(n as nat, |i: int| None::<i64>),
{
    let mut cells: Vec<Option<i64>> = Vec::new();
    let mut i: usize = 0;
    while i < n
        invariant
            i <= n,
            cells@ == Seq::new(i as nat, |j: int| None::<i64>),
        decreases n - i,
    {
        cells.push(None);
        assert(cells@ =~= Seq::new((i + 1) as nat, |j: int| None::<i64>));
        i += 1;
    }
    cells
}

impl Machine {
    fn register(&self, r: usize) -> (v: Option<i64>)
        ensures
            v == register(self@, r),
    {
        if r < self.registers.len() {
            self.registers[r]
        } else {
            None
        }
    }

    fn value_of(&self, operand: Operand) -> (v: Option<i64>)
        ensures
            v == value_of(self@, operand),
    {
        match operand {
            Operand::Const(n) => Some(n),
            Operand::Reg(r) => self.register(r),
        }
    }

    /// Writes `value` into the register `dest`; `false` where that has no
    /// meaning, and the machine is then as it was.
    fn write(&mut self, dest: usize, value: Option<i64>) -> (done: bool)
        ensures
            match written(old(self)@, dest, value) {
                Some(next) => done && final(self)@ == next,
                None => !done && final(self)@ == old(self)@,
            },
    {
        match value {
            Some(v) => {
                if dest < self.registers.len() {
                    self.registers[dest] = Some(v);
                    true
                } else {
                    false
                }
            },
            None => false,
        }
    }

    /// Runs one instruction; `false` where it has no meaning, and the
    /// machine is then as it was.
    fn step(&mut self, instr: Instr) -> (done: bool)
        ensures
            match step(instr, old(self)@) {
                Some(next) => done && final(self)@ == next,
                None => !done && final(self)@ == old(self)@,
            },
    {
        match instr {
            Instr::Load { dest, slot } => {
                if slot < self.memory.len() {
                    let v = self.memory[slot];
                    self.write(dest, v)
                } else {
                    false
                }
            },
            Instr::Store { slot, value } => {
                match self.value_of(value) {
                    Some(v) => {
                        if slot < self.memory.len() {
                            self.memory[slot] = Some(v);
                            true
                        } else {
                            false
                        }
                    },
                    None => false,
                }
            },
            Instr::Binary { dest, op, lhs, rhs } => {
                match (self.value_of(lhs), self.value_of(rhs)) {
                    (Some(a), Some(b)) => {
                        let v = match op {
                            BinaryOp::Add => Some(a.wrapping_add(b)),
                            BinaryOp::Sub => Some(a.wrapping_sub(b)),
                            BinaryOp::Mul => Some(a.wrapping_mul(b)),
                            BinaryOp::SDiv => a.checked_div(b),
                            BinaryOp::SRem => a.checked_rem(b),
                        };
                        self.write(dest, v)
                    },
                    _ => false,
                }
            },
            Instr::Compare { dest, predicate, lhs, rhs } => {
                match (self.value_of(lhs), self.value_of(rhs)) {
                    (Some(a), Some(b)) => {
                        let truth = match predicate {
                            Predicate::SLT => a < b,
                            Predicate::SGT => a > b,
                            Predicate::EQ => a == b,
                            Predicate::NE => a != b,
                        };
                        let v: i64 = if truth {
                            1
                        } else {
                            0
                        };
                        self.write(dest, Some(v))
                    },
                    _ => false,
                }
            },
            Instr::Extend { dest, source } => {
                let v = self.register(source);
                self.write(dest, v)
            },
            Instr::Print { value } => {
                match self.value_of(value) {
                    Some(v) => {
                        self.printed.push(v);
                        true
                    },
                    None => false,
                }
            },
        }
    }

    /// Runs the instructions of a block; `false` where one has no meaning.
    fn run_instrs(&mut self, block: &Block) -> (done: bool)
        ensures
            match run_instrs(block@.instrs, 0, old(self)@) {
                Some(next) => done && final(self)@ == next,
                None => !done,
            },
    {
        let mut i: usize = 0;
        while i < block.instrs.len()
            invariant
                i <= block.instrs.len(),
                run_instrs(block@.instrs, 0, old(self)@) == run_instrs(block@.instrs, i as int, self@),
            decreases block.instrs.len() - i,
        {
            if !self.step(block.instrs[i]) {
                return false;
            }
            i += 1;
        }
        true
    }
}

/// Runs a function from its entry, with at most `fuel` jumps.
pub fn run(function: &Function, fuel: u64) -> (r: Result<Run, RunError>)
    ensures
        match execution(function@, fuel as nat) {
            Outcome::Returned { value, machine } => r matches Ok(run) && run.value == value
                && run.printed@ == machine.printed,
            Outcome::Undefined => r == Err::<Run, RunError>(RunError::Undefined),
            Outcome::OutOfFuel => r == Err::<Run, RunError>(RunError::OutOfFuel),
        },
{
    let mut machine = Machine {
        registers: empty_cells(function.registers.len()),
        memory: empty_cells(function.slots.len()),
        printed: Vec::new(),
    };
    let mut block: usize = 0;
    let mut left: u64 = fuel;
    assert(function@.slots.len() == function.slots@.len());
    loop
        invariant
            execution(function@, fuel as nat) == run_from(function@, block, 0, machine@, left as nat),
        decreases left,
    {
        if block >= function.blocks.len() {
            return Err(RunError::Undefined);
        }
        let here = &function.blocks[block];
        assert(function@.blocks[block as int] == here@);
        if !machine.run_instrs(here) {
            return Err(RunError::Undefined);
        }
        let target = match here.terminator {
            None => {
                return Err(RunError::Undefined);
            },
            Some(Terminator::Return(operand)) => {
                return match machine.value_of(operand) {
                    Some(value) => Ok(Run { value, printed: machine.printed }),
                    None => Err(RunError::Undefined),
                };
            },
            Some(Terminator::Jump(target)) => target,
            Some(Terminator::Branch { cond, then_block, else_block }) => {
                match machine.register(cond) {
                    None => {
                        return Err(RunError::Undefined);
                    },
                    Some(c) => if c != 0 {
                        then_block
                    } else {
                        else_block
                    },
                }
            },
        };
        if left == 0 {
            return Err(RunError::OutOfFuel);
        }
        left -= 1;
        block = target;
    }
}

} // verus!
