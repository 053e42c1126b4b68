//! Source spans: `(offset, length)` ranges into the original program text,
//! carried by every instruction and used only for diagnostics.

use vstd::prelude::*;

verus! {

/// A contiguous range of the source text, as a byte offset and a byte length.
#[derive(Copy, Clone, Debug, PartialEq, Eq, Structural)]
pub struct Span {
    pub offset: usize,
    pub length: usize,
}

impl Span {
    /// Builds the span covering `length` bytes starting at `offset`.
    pub fn new(offset: usize, length: usize) -> (r: Span)
        ensures
            r == (Span { offset, length }),
    {
        Span { offset, length }
    }
}

} // verus!
