//! Shared types for the two buffer containers: the window request used by
//! line-oriented views, and the error type their bounds checks return.

use vstd::prelude::*;

verus! {

/// The smaller of two mathematical integers.
pub open spec fn spec_min(a: int, b: int) -> int {
    if a < b {
        a
    } else {
        b
    }
}

/// A request for a window of lines: a starting line (0-indexed) and how many
/// lines to retrieve. Views are clamped to the available range.
#[derive(Debug, Clone, Copy, PartialEq, Eq, Structural)]
pub struct ViewWindow {
    /// Starting line number (0-indexed).
    pub start_line: usize,
    /// Number of lines to retrieve.
    pub count: usize,
}

impl ViewWindow {
    /// Create a new view window.
    pub fn new(start_line: usize, count: usize) -> (w: ViewWindow)
        ensures
            w == (ViewWindow { start_line, count }),
    {
        ViewWindow { start_line, count }
    }
}

/// Errors signalled by buffer operations whose arguments exceed bounds.
#[derive(Debug)]
pub enum BufferError {
    /// A position beyond the end of the content.
    OutOfBounds(usize),
    /// A range whose start lies after its end.
    InvalidRange(std::ops::Range<usize>),
    /// A container that cannot take more elements; carries its capacity.
    BufferFull(usize),
    /// Any other rejected operation, described in words.
    InvalidOperation(String),
}

} // verus!
