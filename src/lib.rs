//! Decoding of `.puz` crossword files: the header, the grids, the strings and
//! the extension blocks, with the file's checksums checked, and the numbering
//! of the grid into across and down entries.
pub mod checksum;
pub mod clues;
pub mod codec;
pub mod corruption;
pub mod error;
pub mod extension;
pub mod grid;
pub mod header;
pub mod puzzle;
pub mod puzzle_buffer;
pub mod puzzle_type;
pub mod solution_state;
pub mod square;

pub use clues::{Clue, Clues};
pub use puzzle::Puzzle;
pub use puzzle_type::PuzzleType;
pub use solution_state::SolutionState;
