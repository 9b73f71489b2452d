//! Black squares of the grid.
use vstd::prelude::*;

verus! {

/// Whether a grid character marks a black square.
pub open spec fn is_black(c: char) -> bool {
    c == '.' || c == ':'
}

/// Helpers for the characters of a grid.
pub struct Square {}

impl Square {
    pub fn is_black_square(character: char) -> (r: bool)
        ensures
            r == is_black(character),
    {
        character == '.' || character == ':'
    }

    /// The character that stands for a black square.
    pub fn black() -> (r: char)
        ensures
            r == '.',
            is_black(r),
    {
        '.'
    }
}

} // verus!
