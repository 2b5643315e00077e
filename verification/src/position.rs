//! Line/column positions inside a source text.

use vstd::prelude::*;

verus! {

/// A 1-based line/column position in the input text.
///
/// The lexer advances a position for every byte it consumes: a newline
/// byte moves to the first column of the next line, every other byte
/// moves one column to the right.
#[derive(Clone, Copy, Debug, PartialEq, Eq, Structural)]
pub struct Pos {
    pub line: usize,
    pub column: usize,
}

impl Pos {
    /// Build a position from its line and column.
    pub fn new(line: usize, column: usize) -> (pos: Pos)
        ensures
            pos == (Pos { line, column }),
    {
        Pos { line, column }
    }
}

} // verus!
