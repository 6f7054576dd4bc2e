//! A verified front end and code generator for a small call-by-value
//! expression language whose programs evaluate to a 64-bit signed integer.
//!
//! A text becomes tokens ([`tokenizer`], specified in [`lexical`]), the
//! tokens become an expression ([`parser`], specified in [`grammar`]), and
//! the expression becomes the code of one function ([`codegen`], specified in
//! [`lower`]) over a small intermediate representation ([`ir`]) that a
//! reference machine runs ([`machine`]). The meaning of expressions is in
//! [`semantics`]; that the code of a program computes the program is proved
//! in [`correctness`], and what follows for programs in [`laws`].

/// Expressions and patterns.
pub mod ast;
/// The generator of code, which refines the lowering of `lower`.
pub mod codegen;
/// The theorem that the code of a program computes the program.
pub mod correctness;
/// That the run of the code of an expression without value has no value.
pub mod course;
/// The faults of expressions, and that lowering finds the first.
pub mod faults;
/// What lowering leaves of the code that stands before it.
pub mod frame;
/// The grammar, as the phrase that stands at each place of the tokens.
pub mod grammar;
/// Laws of the grammar: faults are first faults.
pub mod grammar_laws;
/// The intermediate representation: blocks of instructions over registers
/// and stack slots.
pub mod ir;
/// Laws of evaluation: scoping, match order, comparisons, loops.
pub mod laws;
/// The lexical rules, as the pieces that a text is made of.
pub mod lexical;
/// Laws of the lexical rules: faults, totality, keywords, operators.
pub mod lexical_laws;
/// The lowering of expressions to code, as a function on states.
pub mod lower;
/// Laws of lowering: exhaustiveness, the value of a loop.
pub mod lower_laws;
/// The reference machine: what a run of a function is, and a runner.
pub mod machine;
/// The parser.
pub mod parser;
/// That the spellings of the tokens of a text give the text back.
pub mod respelling;
/// The invariant of the lexical automaton.
pub mod scan;
/// The meaning of expressions.
pub mod semantics;
/// That the code of a program is well formed.
pub mod shape;
/// That the run of the code of an expression follows its evaluation.
pub mod simulation;
/// How expressions are written as tokens, and that the grammar reads
/// them back.
pub mod spelling;
/// Strings and their characters.
pub mod text;
/// Tokens.
pub mod token;
/// The lexical automaton and the lexer.
pub mod tokenizer;
