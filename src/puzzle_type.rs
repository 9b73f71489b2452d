//! The puzzle-type code of the header.
use vstd::prelude::*;

verus! {

#[derive(Debug, Clone, Copy, PartialEq, Eq, Structural)]
pub enum PuzzleType {
    Normal,
    Diagramless,
}

/// The type that a header code stands for, if any.
pub open spec fn puzzle_type_of(code: u16) -> Option<PuzzleType> {
    if code == 0x0001 {
        Some(PuzzleType::Normal)
    } else if code == 0x0401 {
        Some(PuzzleType::Diagramless)
    } else {
        None
    }
}

/// The header code of a type.
pub open spec fn puzzle_type_code(t: PuzzleType) -> u16 {
    match t {
        PuzzleType::Normal => 0x0001,
        PuzzleType::Diagramless => 0x0401,
    }
}

impl PuzzleType {
    /// Reads a header code; fails on a code the format does not define.
    pub fn try_from(v: u16) -> (r: Result<PuzzleType, ()>)
        ensures
            match puzzle_type_of(v) {
                Some(t) => r == Ok::<PuzzleType, ()>(t),
                None => r is Err,
            },
    {
        if v == 0x0001 {
            Ok(PuzzleType::Normal)
        } else if v == 0x0401 {
            Ok(PuzzleType::Diagramless)
        } else {
            Err(())
        }
    }

    /// The header code of this type.
    pub fn into(self) -> (r: u16)
        ensures
            r == puzzle_type_code(self),
            puzzle_type_of(r) == Some(self),
    {
        match self {
            PuzzleType::Normal => 0x0001,
            PuzzleType::Diagramless => 0x0401,
        }
    }
}

} // verus!
