//! Error values. All faults are plain values that bubble up to the caller;
//! rendering them as diagnostics is the embedding application's business.

use vstd::prelude::*;

use crate::span::Span;

verus! {

/// Coarse classification of an error, kept for embedders that only need to
/// distinguish families of failures.
#[derive(Copy, Clone, Debug)]
pub enum BFErrors {
    RuntimeError,
}

/// An error with a classification and a human-readable message.
pub struct BFError {
    pub error: BFErrors,
    pub message: String,
}

impl BFError {
    pub fn new(error: BFErrors, message: String) -> (r: Self)
        ensures
            r.error == error,
            r.message == message,
    {
        BFError { error, message }
    }

    /// Attaches a source span to the error, producing a value ready for
    /// diagnostic rendering.
    pub fn into_detailed(self, highlight: Span) -> (r: BFDetailedError)
        ensures
            r.error == self.error,
            r.message == self.message,
            r.highlight == highlight,
    {
        BFDetailedError { error: self.error, message: self.message, highlight }
    }
}

/// A classified message together with the span of source text it concerns.
pub struct BFDetailedError {
    pub error: BFErrors,
    pub message: String,
    pub highlight: Span,
}

impl BFDetailedError {
    pub fn new(error: BFErrors, message: String, highlight: Span) -> (r: Self)
        ensures
            r.error == error,
            r.message == message,
            r.highlight == highlight,
    {
        BFDetailedError { error, message, highlight }
    }
}

/// A parse-time fault. Parsing stops at the first fault and returns it.
#[derive(Copy, Clone, Debug, PartialEq, Eq, Structural)]
pub enum ParseError {
    /// A character outside the recognised set; carries the offending byte.
    UnrecognizedToken { token: u8, span: Span },
    /// A `[` whose matching `]` never arrives before end of input; the span
    /// points at the opening bracket.
    UnbalancedLoop { span: Span },
    /// A `{` whose matching `}` never arrives before end of input; the span
    /// points at the opening brace.
    UnterminatedAlias { span: Span },
}

/// An execution-time fault reported by the tape or the alias machinery.
#[derive(Clone, Debug, PartialEq, Eq)]
pub enum Fault {
    /// Cell arithmetic would leave the representable byte range
    /// (only under [`crate::tape::CellMode::Panic`]); the cell is left
    /// unmodified.
    CellRange { address: usize, value: u8, delta: usize },
    /// Pointer movement would leave the allowed address range; the pointer is
    /// left unmodified. `limit` is the boundary that would be crossed.
    PointerRange { limit: usize, distance: usize, pointer: usize },
    /// A `Goto` named an alias with no binding although pre-allocation ran:
    /// an internal-consistency violation, not a user error.
    AliasUnbound { name: Vec<u8> },
    /// Alias allocation found no eligible cell (every cell is nonzero or
    /// already claimed).
    TapeFull { name: Vec<u8> },
}

/// The mathematical value of a [`Fault`].
pub enum SpecFault {
    CellRange { address: int, value: u8, delta: nat },
    PointerRange { limit: int, distance: nat, pointer: int },
    AliasUnbound { name: Seq<u8> },
    TapeFull { name: Seq<u8> },
}

impl View for Fault {
    type V = SpecFault;

    open spec fn view(&self) -> SpecFault {
        match self {
            Fault::CellRange { address, value, delta } => (SpecFault::CellRange {
                address: *address as int,
                value: *value,
                delta: *delta as nat,
            }),
            Fault::PointerRange { limit, distance, pointer } => (SpecFault::PointerRange {
                limit: *limit as int,
                distance: *distance as nat,
                pointer: *pointer as int,
            }),
            Fault::AliasUnbound { name } => (SpecFault::AliasUnbound { name: name@ }),
            Fault::TapeFull { name } => (SpecFault::TapeFull { name: name@ }),
        }
    }
}

/// An execution-time fault located at the instruction that raised it.
#[derive(Clone, Debug, PartialEq, Eq)]
pub struct RunError {
    pub fault: Fault,
    pub span: Span,
}

} // verus!
