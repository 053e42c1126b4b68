//! Configuration consumed by the core: feature switches and tape parameters.

use vstd::prelude::*;

use crate::tape::{CellMode, TapeMode};

verus! {

/// Switches that disable optional behaviour. All default behaviour is on;
/// each flag turns one feature off.
#[derive(Copy, Clone, Debug, PartialEq, Eq, Structural)]
pub struct DisableFlags {
    /// Disable `{name}` alias blocks in the source language.
    pub disable_aliases: bool,
    /// Disable the consecutive-instruction merge pass after parsing.
    pub disable_optimise: bool,
    /// Disable alias pre-allocation; aliases are then bound on first use.
    pub disable_alloc: bool,
}

/// Parameters for building a [`crate::tape::Tape`].
#[derive(Copy, Clone, Debug, PartialEq, Eq, Structural)]
pub struct TapeFlags {
    pub tape_mode: TapeMode,
    pub cell_mode: CellMode,
    pub tape_size: usize,
}

} // verus!
