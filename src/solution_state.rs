//! The solution-state code of the header.
use vstd::prelude::*;

verus! {

#[derive(Debug, Clone, Copy, PartialEq, Eq, Structural)]
pub enum SolutionState {
    /// The solution is stored in plain text.
    Unlocked,
    /// The solution is scrambled with a key.
    Locked,
}

/// The state that a header code stands for, if any.
pub open spec fn solution_state_of(code: u16) -> Option<SolutionState> {
    if code == 0x0000 {
        Some(SolutionState::Unlocked)
    } else if code == 0x0004 {
        Some(SolutionState::Locked)
    } else {
        None
    }
}

/// The header code of a state.
pub open spec fn solution_state_code(t: SolutionState) -> u16 {
    match t {
        SolutionState::Unlocked => 0x0000,
        SolutionState::Locked => 0x0004,
    }
}

impl SolutionState {
    /// Reads a header code; fails on a code the format does not define.
    pub fn try_from(v: u16) -> (r: Result<SolutionState, ()>)
        ensures
            match solution_state_of(v) {
                Some(t) => r == Ok::<SolutionState, ()>(t),
                None => r is Err,
            },
    {
        if v == 0x0000 {
            Ok(SolutionState::Unlocked)
        } else if v == 0x0004 {
            Ok(SolutionState::Locked)
        } else {
            Err(())
        }
    }

    /// The header code of this state.
    pub fn into(self) -> (r: u16)
        ensures
            r == solution_state_code(self),
            solution_state_of(r) == Some(self),
    {
        match self {
            SolutionState::Unlocked => 0x0000,
            SolutionState::Locked => 0x0004,
        }
    }
}

} // verus!
