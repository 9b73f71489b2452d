//! Numbering of the grid: which cells start across and down entries, and
//! which clue text each entry takes.
use crate::error::PuzzleError;
use crate::grid::{above_of, across_run, down_run, left_of, Grid};
use crate::puzzle::Puzzle;
use crate::square::{is_black, Square};
use vstd::prelude::*;

verus! {

/// One numbered entry of the grid.
#[derive(Debug, PartialEq, Eq)]
pub struct Clue {
    pub clue_number: usize,
    pub text: String,
    pub column: usize,
    pub row: usize,
    pub length: usize,
}

/// The value of a `Clue`.
pub ghost struct ClueView {
    pub clue_number: nat,
    pub text: Seq<char>,
    pub column: nat,
    pub row: nat,
    pub length: nat,
}

impl View for Clue {
    type V = ClueView;

    open spec fn view(&self) -> ClueView {
        ClueView {
            clue_number: self.clue_number as nat,
            text: self.text@,
            column: self.column as nat,
            row: self.row as nat,
            length: self.length as nat,
        }
    }
}

/// The across and down entries of a grid, each list in scan order.
#[derive(Debug)]
pub struct Clues {
    pub across: Vec<Clue>,
    pub down: Vec<Clue>,
}

pub open spec fn clue_views(v: Seq<Clue>) -> Seq<ClueView> {
    v.map_values(|c: Clue| c@)
}

pub open spec fn text_views(v: Seq<String>) -> Seq<Seq<char>> {
    v.map_values(|s: String| s@)
}

/// Whether the white cell `i` starts an across entry: nothing white to its
/// left, and a run of more than one cell.
pub open spec fn starts_across(fill: Seq<char>, width: int, i: int) -> bool {
    !is_black(fill[i]) && (left_of(fill, width, i) matches Some(c) ==> is_black(c)) && across_run(
        fill,
        width,
        i,
    ) > 1
}

/// Whether the white cell `i` starts a down entry: nothing white above it,
/// and a run of more than one cell.
pub open spec fn starts_down(fill: Seq<char>, width: int, height: int, i: int) -> bool {
    !is_black(fill[i]) && (above_of(fill, width, i) matches Some(c) ==> is_black(c)) && down_run(
        fill,
        width,
        height,
        i,
    ) > 1
}

/// The state of the scan after some cells: the entries so far, how many cells
/// got a number, and how many clue texts were taken.
pub ghost struct Numbering {
    pub across: Seq<ClueView>,
    pub down: Seq<ClueView>,
    pub numbered: nat,
    pub used: nat,
}

/// The entry that starts at cell `i` and takes the clue text at `st.used`.
pub open spec fn entry_at(
    texts: Seq<Seq<char>>,
    width: int,
    i: int,
    st: Numbering,
    length: nat,
) -> ClueView {
    ClueView {
        clue_number: st.numbered + 1,
        text: texts[st.used as int],
        column: (i % width) as nat,
        row: (i / width) as nat,
        length,
    }
}

/// The across entry of cell `i`, if it starts one; `None` when no text is left for it.
pub open spec fn take_across(
    fill: Seq<char>,
    width: int,
    texts: Seq<Seq<char>>,
    i: int,
    st: Numbering,
) -> Option<Numbering> {
    if !starts_across(fill, width, i) {
        Some(st)
    } else if st.used < texts.len() {
        Some(
            Numbering {
                across: st.across.push(
                    entry_at(texts, width, i, st, across_run(fill, width, i)),
                ),
                used: st.used + 1,
                ..st
            },
        )
    } else {
        None
    }
}

/// The down entry of cell `i`, if it starts one; `None` when no text is left for it.
pub open spec fn take_down(
    fill: Seq<char>,
    width: int,
    height: int,
    texts: Seq<Seq<char>>,
    i: int,
    st: Numbering,
) -> Option<Numbering> {
    if !starts_down(fill, width, height, i) {
        Some(st)
    } else if st.used < texts.len() {
        Some(
            Numbering {
                down: st.down.push(
                    entry_at(texts, width, i, st, down_run(fill, width, height, i)),
                ),
                used: st.used + 1,
                ..st
            },
        )
    } else {
        None
    }
}

/// One step of the scan, at cell `i`: the across entry takes its text before
/// the down entry, and the cell's number is used up if either starts.
pub open spec fn number_cell(
    fill: Seq<char>,
    width: int,
    height: int,
    texts: Seq<Seq<char>>,
    i: int,
    st: Numbering,
) -> Option<Numbering> {
    if is_black(fill[i]) {
        Some(st)
    } else {
        match take_across(fill, width, texts, i, st) {
            None => None,
            Some(st1) => match take_down(fill, width, height, texts, i, st1) {
                None => None,
                Some(st2) => if starts_across(fill, width, i) || starts_down(
                    fill,
                    width,
                    height,
                    i,
                ) {
                    Some(Numbering { numbered: st2.numbered + 1, ..st2 })
                } else {
                    Some(st2)
                },
            },
        }
    }
}

/// The scan over the first `n` cells in row-major order; `None` when the
/// clue texts ran out.
pub open spec fn numbering(
    fill: Seq<char>,
    width: int,
    height: int,
    texts: Seq<Seq<char>>,
    n: nat,
) -> Option<Numbering>
    decreases n,
{
    if n == 0 {
        Some(Numbering { across: seq![], down: seq![], numbered: 0, used: 0 })
    } else {
        match numbering(fill, width, height, texts, (n - 1) as nat) {
            None => None,
            Some(st) => number_cell(fill, width, height, texts, n - 1, st),
        }
    }
}

/// The scan over the whole fill.
pub open spec fn numbering_of(
    fill: Seq<char>,
    width: int,
    height: int,
    texts: Seq<Seq<char>>,
) -> Option<Numbering> {
    numbering(fill, width, height, texts, fill.len())
}

/// Bounds on the scan: at most one number per cell, and exactly one clue
/// text per entry.
pub proof fn lemma_numbering_bounds(
    fill: Seq<char>,
    width: int,
    height: int,
    texts: Seq<Seq<char>>,
    n: nat,
)
    requires
        n <= fill.len(),
        numbering(fill, width, height, texts, n) is Some,
    ensures
        numbering(fill, width, height, texts, n).unwrap().numbered <= n,
        numbering(fill, width, height, texts, n).unwrap().used <= texts.len(),
        numbering(fill, width, height, texts, n).unwrap().used == numbering(
            fill,
            width,
            height,
            texts,
            n,
        ).unwrap().across.len() + numbering(fill, width, height, texts, n).unwrap().down.len(),
    decreases n,
{
    if n > 0 {
        lemma_numbering_bounds(fill, width, height, texts, (n - 1) as nat);
    }
}

proof fn lemma_numbering_none_stays(
    fill: Seq<char>,
    width: int,
    height: int,
    texts: Seq<Seq<char>>,
    k: nat,
    n: nat,
)
    requires
        k <= n,
        numbering(fill, width, height, texts, k) is None,
    ensures
        numbering(fill, width, height, texts, n) is None,
    decreases n - k,
{
    if k < n {
        lemma_numbering_none_stays(fill, width, height, texts, k + 1, n);
    }
}

impl Clues {
    /// Numbers the grid, taking clue texts from `clue_texts` in scan order.
    /// Fails with `OutOfClues` when the grid starts more entries than there are texts.
    pub fn new(grid: Grid, clue_texts: &[String]) -> (r: Result<Clues, PuzzleError>)
        requires
            grid.width > 0 || grid.fill@.len() == 0,
        ensures
            match r {
                Ok(c) => numbering_of(
                    grid.fill@,
                    grid.width as int,
                    grid.height as int,
                    text_views(clue_texts@),
                ) matches Some(st) && clue_views(c.across@) == st.across && clue_views(c.down@)
                    == st.down,
                Err(e) => numbering_of(
                    grid.fill@,
                    grid.width as int,
                    grid.height as int,
                    text_views(clue_texts@),
                ) is None && e is OutOfClues,
            },
    {
        let ghost f = grid.fill@;
        let ghost w = grid.width as int;
        let ghost h = grid.height as int;
        let ghost texts = text_views(clue_texts@);
        let n = grid.fill.unicode_len();
        let mut across: Vec<Clue> = Vec::new();
        let mut down: Vec<Clue> = Vec::new();
        let mut numbered: usize = 0;
        let mut used: usize = 0;
        let mut index: usize = 0;
        while index < n
            invariant
                n == f.len(),
                f == grid.fill@,
                w == grid.width,
                h == grid.height,
                grid.width > 0 || n == 0,
                texts == text_views(clue_texts@),
                index <= n,
                numbering(f, w, h, texts, index as nat) matches Some(st) && clue_views(across@)
                    == st.across && clue_views(down@) == st.down && st.numbered == numbered
                    && st.used == used,
            decreases n - index,
        {
            proof {
                lemma_numbering_bounds(f, w, h, texts, index as nat);
            }
            let ghost st0 = numbering(f, w, h, texts, index as nat).unwrap();
            let character = grid.fill.get_char(index);
            if !Square::is_black_square(character) {
                let mut has_clue = false;
                let square_to_the_left = match grid.left(index) {
                    Some(c) => c,
                    None => Square::black(),
                };
                let len_across = grid.len_across(index);
                if Square::is_black_square(square_to_the_left) && len_across > 1 {
                    if used >= clue_texts.len() {
                        proof {
                            lemma_numbering_none_stays(f, w, h, texts, (index + 1) as nat, n as nat);
                        }
                        return Err(PuzzleError::OutOfClues);
                    }
                    let clue = Clue {
                        clue_number: numbered + 1,
                        text: clue_texts[used].clone(),
                        row: grid.row(index),
                        column: grid.col(index),
                        length: len_across,
                    };
                    proof {
                        assert(clue@ == entry_at(texts, w, index as int, st0, across_run(f, w, index as int)));
                    }
                    across.push(clue);
                    used = used + 1;
                    has_clue = true;
                }
                let ghost st1 = take_across(f, w, texts, index as int, st0).unwrap();
                assert(clue_views(across@) == st1.across);
                let square_above = match grid.above(index) {
                    Some(c) => c,
                    None => Square::black(),
                };
                let len_down = grid.len_down(index);
                if Square::is_black_square(square_above) && len_down > 1 {
                    if used >= clue_texts.len() {
                        proof {
                            lemma_numbering_none_stays(f, w, h, texts, (index + 1) as nat, n as nat);
                        }
                        return Err(PuzzleError::OutOfClues);
                    }
                    let clue = Clue {
                        clue_number: numbered + 1,
                        text: clue_texts[used].clone(),
                        row: grid.row(index),
                        column: grid.col(index),
                        length: len_down,
                    };
                    proof {
                        assert(clue@ == entry_at(texts, w, index as int, st1, down_run(f, w, h, index as int)));
                    }
                    down.push(clue);
                    used = used + 1;
                    has_clue = true;
                }
                if has_clue {
                    numbered = numbered + 1;
                }
            }
            index = index + 1;
        }
        Ok(Clues { across, down })
    }

    /// Numbers the grid of a puzzle with its clue texts.
    pub fn for_puzzle(puzzle: &Puzzle) -> (r: Result<Clues, PuzzleError>)
        requires
            puzzle.header.width > 0 || puzzle.fill@.len() == 0,
        ensures
            match numbering_of(
                puzzle.fill@,
                puzzle.header.width as int,
                puzzle.header.height as int,
                text_views(puzzle.all_clues@),
            ) {
                Some(st) => r matches Ok(c) && clue_views(c.across@) == st.across && clue_views(c.down@)
                    == st.down,
                None => r matches Err(e) && e is OutOfClues,
            },
    {
        Clues::new(Grid::for_puzzle(puzzle), puzzle.all_clues.as_slice())
    }
}

} // verus!
