use crate::ast::names_view;
use vstd::prelude::*;

verus! {

/// The format that a `Print` instruction hands to the host's `printf`: a
/// signed 64-bit integer in base ten, and a line feed.
pub const PRINT_FORMAT: &'static str = "%lld\n";

/// The name of the stack slot in which the arms of a match leave their
/// value.
pub const MATCH_RESULT: &'static str = "match_result";

/// A value that an instruction reads: a constant, or the register that an
/// earlier instruction wrote.
#[derive(Copy, Clone, Debug, PartialEq, Eq, Structural)]
pub enum Operand {
    Const(i64),
    Reg(usize),
}

/// The arithmetic instructions. All are signed; `Add`, `Sub` and `Mul` wrap.
#[derive(Copy, Clone, Debug, PartialEq, Eq, Structural)]
pub enum BinaryOp {
    Add,
    Sub,
    Mul,
    SDiv,
    SRem,
}

/// The predicates of a comparison: signed less than, signed greater than,
/// equal, not equal.
#[derive(Copy, Clone, Debug, PartialEq, Eq, Structural)]
pub enum Predicate {
    SLT,
    SGT,
    EQ,
    NE,
}

/// The width of a register: one bit for the result of a comparison, a
/// 64-bit word for every other.
#[derive(Copy, Clone, Debug, PartialEq, Eq, Structural)]
pub enum Width {
    Bit,
    Word,
}

/// An instruction. Each register is written by one instruction of the
/// function.
#[derive(Copy, Clone, Debug, PartialEq, Eq, Structural)]
pub enum Instr {
    /// Reads a stack slot into a register.
    Load { dest: usize, slot: usize },
    /// Writes a value into a stack slot.
    Store { slot: usize, value: Operand },
    /// Computes an arithmetic result into a register.
    Binary { dest: usize, op: BinaryOp, lhs: Operand, rhs: Operand },
    /// Compares two values into a register of one bit.
    Compare { dest: usize, predicate: Predicate, lhs: Operand, rhs: Operand },
    /// Extends a register of one bit with zeros into a word: 0 or 1.
    Extend { dest: usize, source: usize },
    /// Prints a value through the host's `printf`, with the format
    /// `PRINT_FORMAT`.
    Print { value: Operand },
}

/// The end of a basic block.
#[derive(Copy, Clone, Debug, PartialEq, Eq, Structural)]
pub enum Terminator {
    /// Goes on in the given block.
    Jump(usize),
    /// Goes on in `then_block` if the bit `cond` is set, else in
    /// `else_block`.
    Branch { cond: usize, then_block: usize, else_block: usize },
    /// Ends the function with the given value.
    Return(Operand),
}

/// What a basic block is for.
#[derive(Copy, Clone, Debug, PartialEq, Eq, Structural)]
pub enum Label {
    Entry,
    LoopHeader,
    LoopBody,
    LoopExit,
    MatchMerge,
    /// The test of the arm with the given index.
    MatchCheck(usize),
    /// The body of the arm with the given index.
    MatchArm(usize),
}

/// A basic block: instructions and, once the block is complete, its
/// terminator.
#[derive(Debug, PartialEq, Eq)]
pub struct Block {
    pub label: Label,
    pub instrs: Vec<Instr>,
    pub terminator: Option<Terminator>,
}

/// The mathematical value of a [`Block`].
pub ghost struct BlockView {
    pub label: Label,
    pub instrs: Seq<Instr>,
    pub terminator: Option<Terminator>,
}

impl View for Block {
    type V = BlockView;

    open spec fn view(&self) -> BlockView {
        BlockView { label: self.label, instrs: self.instrs@, terminator: self.terminator }
    }
}

/// A function without parameters that returns a 64-bit integer: its stack
/// slots, each with the name it was made for; its registers, each with its
/// width; and its basic blocks, the first of which is the entry.
#[derive(Debug, PartialEq, Eq)]
pub struct Function {
    pub slots: Vec<String>,
    pub registers: Vec<Width>,
    pub blocks: Vec<Block>,
}

/// The mathematical value of a [`Function`].
pub ghost struct FunctionView {
    pub slots: Seq<Seq<char>>,
    pub registers: Seq<Width>,
    pub blocks: Seq<BlockView>,
}

impl FunctionView {
    /// Whether `r` is a register of the function of the given width.
    pub open spec fn has_register(self, r: usize, width: Width) -> bool {
        r < self.registers.len() && self.registers[r as int] == width
    }

    /// Whether the operand is a word of the function: a constant or a
    /// register of 64 bits.
    pub open spec fn has_word(self, operand: Operand) -> bool {
        match operand {
            Operand::Const(_) => true,
            Operand::Reg(r) => self.has_register(r, Width::Word),
        }
    }

    /// Whether the instruction reads and writes what the function has, in
    /// the widths that it takes.
    pub open spec fn instr_ok(self, instr: Instr) -> bool {
        match instr {
            Instr::Load { dest, slot } => self.has_register(dest, Width::Word) && slot
                < self.slots.len(),
            Instr::Store { slot, value } => slot < self.slots.len() && self.has_word(value),
            Instr::Binary { dest, op, lhs, rhs } => self.has_register(dest, Width::Word)
                && self.has_word(lhs) && self.has_word(rhs),
            Instr::Compare { dest, predicate, lhs, rhs } => self.has_register(dest, Width::Bit)
                && self.has_word(lhs) && self.has_word(rhs),
            Instr::Extend { dest, source } => self.has_register(dest, Width::Word)
                && self.has_register(source, Width::Bit),
            Instr::Print { value } => self.has_word(value),
        }
    }

    /// Whether the terminator goes to blocks of the function and reads what
    /// the function has.
    pub open spec fn terminator_ok(self, terminator: Terminator) -> bool {
        match terminator {
            Terminator::Jump(target) => target < self.blocks.len(),
            Terminator::Branch { cond, then_block, else_block } => self.has_register(
                cond,
                Width::Bit,
            ) && then_block < self.blocks.len() && else_block < self.blocks.len(),
            Terminator::Return(value) => self.has_word(value),
        }
    }

    /// Whether the instructions of the block, and its terminator if it has
    /// one, fit the function.
    pub open spec fn block_ok(self, block: BlockView) -> bool {
        &&& forall|i: int| 0 <= i < block.instrs.len() ==> self.instr_ok(#[trigger] block.instrs[i])
        &&& block.terminator matches Some(t) ==> self.terminator_ok(t)
    }

    /// Whether the function is well formed: it has an entry, every block
    /// ends with a terminator, and every instruction and terminator reads
    /// and writes registers, slots and blocks of the function, in the widths
    /// that it takes.
    pub open spec fn well_formed(self) -> bool {
        &&& self.blocks.len() > 0
        &&& forall|b: int|
            0 <= b < self.blocks.len() ==> self.block_ok(#[trigger] self.blocks[b])
                && self.blocks[b].terminator is Some
    }
}

/// The values of a sequence of blocks, in order.
pub open spec fn blocks_view(blocks: Seq<Block>) -> Seq<BlockView> {
    blocks.map_values(|b: Block| b@)
}

impl View for Function {
    type V = FunctionView;

    open spec fn view(&self) -> FunctionView {
        FunctionView {
            slots: names_view(self.slots@),
            registers: self.registers@,
            blocks: blocks_view(self.blocks@),
        }
    }
}

} // verus!
