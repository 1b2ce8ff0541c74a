//! Line and column of a place in the source text.

use vstd::prelude::*;

verus! {

/// A place in the source text. Lines and columns count from one.
#[derive(Debug, Clone, Copy, PartialEq, Eq, Structural, Hash)]
pub struct Pos {
    pub line: usize,
    pub column: usize,
}

/// The positions of the opening brace of a block and of what follows its
/// closing brace.
#[derive(Debug, Clone, Copy, PartialEq, Eq, Structural, Hash)]
pub struct Span(pub Pos, pub Pos);

/// `n + by`, held at the largest `usize` where the sum does not fit.
pub open spec fn bounded_add(n: usize, by: nat) -> usize {
    if n + by > usize::MAX {
        usize::MAX
    } else {
        (n + by) as usize
    }
}

/// The position `by` columns to the right of `p` on the same line.
pub open spec fn right_of(p: Pos, by: nat) -> Pos {
    Pos { line: p.line, column: bounded_add(p.column, by) }
}

/// The first column of the line after the one `p` is on.
pub open spec fn next_line(p: Pos) -> Pos {
    Pos { line: bounded_add(p.line, 1), column: 1 }
}

impl Pos {
    /// The position at which every text starts.
    pub fn start() -> (p: Pos)
        ensures
            p == (Pos { line: 1, column: 1 }),
    {
        Pos { line: 1, column: 1 }
    }

    /// The position `by` columns to the right.
    pub fn right(self, by: usize) -> (p: Pos)
        ensures
            p == right_of(self, by as nat),
    {
        Pos { line: self.line, column: self.column.saturating_add(by) }
    }

    /// The start of the next line.
    pub fn down(self) -> (p: Pos)
        ensures
            p == next_line(self),
    {
        Pos { line: self.line.saturating_add(1), column: 1 }
    }
}

} // verus!
