//! Plain positions and ranges: protocol coordinates and source coordinates.

use vstd::prelude::*;

verus! {

/// A protocol position: line and character, both counted from zero.
#[derive(Clone, Copy, PartialEq, Eq, Debug, Structural)]
pub struct Position {
    pub line: u32,
    pub character: u32,
}

/// A protocol range, from `start` to `end`.
#[derive(Clone, Copy, PartialEq, Eq, Debug, Structural)]
pub struct Range {
    pub start: Position,
    pub end: Position,
}

/// A point in source text: line and column counted from one, byte offset from zero.
#[derive(Clone, Copy, PartialEq, Eq, Debug, Structural)]
pub struct Location {
    pub line: usize,
    pub column: usize,
    pub offset: usize,
}

/// A stretch of source text.
#[derive(Clone, Copy, PartialEq, Eq, Debug, Structural)]
pub struct SourceSpan {
    pub start: Location,
    pub end: Location,
}

/// The range that starts and ends at the first character of a document.
pub open spec fn zero_range() -> Range {
    Range {
        start: Position { line: 0, character: 0 },
        end: Position { line: 0, character: 0 },
    }
}

impl Range {
    /// The range that starts and ends at the first character of a document.
    pub fn zero() -> (r: Range)
        ensures
            r == zero_range(),
    {
        Range { start: Position { line: 0, character: 0 }, end: Position { line: 0, character: 0 } }
    }
}

} // verus!
