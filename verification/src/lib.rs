//! An interpreter for an extended Brainfuck-like language: the eight classic
//! cell/pointer/loop/IO operators plus named memory aliases (`{name}` blocks).
//!
//! The crate is organised around five components:
//! - [`tape`]: the memory model, a sequence of byte cells with a pointer and
//!   configurable overflow behaviour for cell arithmetic and pointer movement;
//! - [`parser`]: a single left-to-right scan that turns source text into an
//!   ordered tree of spanned instructions and collects the alias names it sees;
//! - [`optimize`]: an optional pass that merges runs of consecutive,
//!   same-kind, non-structural instructions into counted instructions;
//! - [`alias`]: the bidirectional name-to-address registry and its
//!   backward free-slot allocation;
//! - [`machine`]: the tree-walking executor that drives the tape and the
//!   alias table and reports faults as values carrying source spans.
//!
//! The intended meaning of a program is written down once, as the fuel-indexed
//! evaluator in [`semantics`]; the executor and the optimizer are proved
//! against it.

pub mod alias;
pub mod ast;
pub mod errors;
pub mod flags;
pub mod info;
pub mod laws;
pub mod machine;
pub mod optimize;
pub mod parser;
pub mod semantics;
pub mod span;
pub mod tape;
