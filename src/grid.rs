//! Geometry of the grid: neighbours of a cell and the runs of white cells.
use crate::puzzle::Puzzle;
use crate::square::{is_black, Square};
use vstd::arithmetic::div_mod::{lemma_basic_div, lemma_small_mod};
use vstd::prelude::*;

verus! {

/// The character of cell `i`, if the text has one there.
pub open spec fn cell_at(fill: Seq<char>, i: int) -> Option<char> {
    if 0 <= i < fill.len() {
        Some(fill[i])
    } else {
        None
    }
}

/// The number of consecutive white cells starting at `start` and stepping by
/// `step`, looking at no more than `remaining` cells and stopping at the end of the text.
pub open spec fn run_len(fill: Seq<char>, start: int, step: int, remaining: int) -> nat
    decreases remaining,
{
    if remaining <= 0 || start < 0 || start >= fill.len() || is_black(fill[start]) {
        0
    } else {
        1 + run_len(fill, start + step, step, remaining - 1)
    }
}

/// The length of the across run that starts at cell `i`: white cells rightward,
/// up to a black cell or the right edge.
pub open spec fn across_run(fill: Seq<char>, width: int, i: int) -> nat {
    run_len(fill, i, 1, width - i % width)
}

/// The length of the down run that starts at cell `i`: white cells downward,
/// up to a black cell or the bottom edge.
pub open spec fn down_run(fill: Seq<char>, width: int, height: int, i: int) -> nat {
    run_len(fill, i, width, height - i / width)
}

/// The cell to the left of `i`, `None` on the left edge.
pub open spec fn left_of(fill: Seq<char>, width: int, i: int) -> Option<char> {
    if i % width == 0 {
        None
    } else {
        cell_at(fill, i - 1)
    }
}

/// The cell above `i`, `None` on the top row.
pub open spec fn above_of(fill: Seq<char>, width: int, i: int) -> Option<char> {
    if i / width == 0 {
        None
    } else {
        cell_at(fill, i - width)
    }
}

/// A read-only view of a puzzle's grid: the fill and solution text, one
/// character per cell in row-major order.
pub struct Grid<'a> {
    pub fill: &'a str,
    pub solution: &'a str,
    pub width: usize,
    pub height: usize,
}

impl<'a> Grid<'a> {
    pub fn new(fill: &'a str, solution: &'a str, width: usize, height: usize) -> (r: Grid<'a>)
        ensures
            r.fill@ == fill@,
            r.solution@ == solution@,
            r.width == width,
            r.height == height,
    {
        Grid { fill, solution, width, height }
    }

    /// The grid of a puzzle.
    pub fn for_puzzle(puzzle: &'a Puzzle) -> (r: Grid<'a>)
        ensures
            r.fill@ == puzzle.fill@,
            r.solution@ == puzzle.solution@,
            r.width == puzzle.header.width,
            r.height == puzzle.header.height,
    {
        Grid {
            fill: puzzle.fill.as_str(),
            solution: puzzle.solution.as_str(),
            width: puzzle.header.width,
            height: puzzle.header.height,
        }
    }

    pub fn get_fill_character(&self, index: usize) -> (r: Option<char>)
        ensures
            r == cell_at(self.fill@, index as int),
    {
        if index < self.fill.unicode_len() {
            Some(self.fill.get_char(index))
        } else {
            None
        }
    }

    pub fn get_solution_character(&self, index: usize) -> (r: Option<char>)
        ensures
            r == cell_at(self.solution@, index as int),
    {
        if index < self.solution.unicode_len() {
            Some(self.solution.get_char(index))
        } else {
            None
        }
    }

    pub fn left(&self, index: usize) -> (r: Option<char>)
        requires
            self.width > 0,
        ensures
            r == left_of(self.fill@, self.width as int, index as int),
    {
        if self.col(index) == 0 {
            None
        } else {
            proof {
                if index == 0 {
                    lemma_small_mod(0, self.width as nat);
                }
            }
            self.get_fill_character(index - 1)
        }
    }

    pub fn above(&self, index: usize) -> (r: Option<char>)
        requires
            self.width > 0,
        ensures
            r == above_of(self.fill@, self.width as int, index as int),
    {
        if self.row(index) == 0 {
            None
        } else {
            proof {
                if index < self.width {
                    lemma_basic_div(index as int, self.width as int);
                }
            }
            self.get_fill_character(index - self.width)
        }
    }

    /// The length of the across run that starts at `index`.
    pub fn len_across(&self, index: usize) -> (r: usize)
        requires
            self.width > 0,
        ensures
            r == across_run(self.fill@, self.width as int, index as int),
    {
        let n = self.fill.unicode_len();
        let limit = self.width - self.col(index);
        let ghost f = self.fill@;
        let mut len: usize = 0;
        let mut pos: usize = index;
        while len < limit
            invariant
                n == f.len(),
                f == self.fill@,
                len <= limit,
                pos == index + len,
                across_run(f, self.width as int, index as int) == len + run_len(
                    f,
                    pos as int,
                    1,
                    limit - len,
                ),
            decreases limit - len,
        {
            if pos >= n {
                return len;
            }
            if Square::is_black_square(self.fill.get_char(pos)) {
                return len;
            }
            len = len + 1;
            pos = pos + 1;
        }
        len
    }

    /// The length of the down run that starts at `index`.
    pub fn len_down(&self, index: usize) -> (r: usize)
        requires
            self.width > 0,
        ensures
            r == down_run(self.fill@, self.width as int, self.height as int, index as int),
    {
        let n = self.fill.unicode_len();
        let row = self.row(index);
        if row >= self.height {
            return 0;
        }
        let limit = self.height - row;
        let ghost f = self.fill@;
        let mut len: usize = 0;
        let mut pos: usize = index;
        while len < limit
            invariant
                n == f.len(),
                f == self.fill@,
                self.width > 0,
                len <= limit,
                down_run(f, self.width as int, self.height as int, index as int) == len + run_len(
                    f,
                    pos as int,
                    self.width as int,
                    limit - len,
                ),
            decreases limit - len,
        {
            if pos >= n {
                return len;
            }
            if Square::is_black_square(self.fill.get_char(pos)) {
                return len;
            }
            len = len + 1;
            match pos.checked_add(self.width) {
                Some(next) => {
                    pos = next;
                },
                None => {
                    assert(run_len(f, pos + self.width, self.width as int, limit - len) == 0);
                    return len;
                },
            }
        }
        len
    }

    pub fn col(&self, index: usize) -> (r: usize)
        requires
            self.width > 0,
        ensures
            r == index % self.width,
    {
        index % self.width
    }

    pub fn row(&self, index: usize) -> (r: usize)
        requires
            self.width > 0,
        ensures
            r == index / self.width,
    {
        index / self.width
    }
}

} // verus!
