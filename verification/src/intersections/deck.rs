//! The states of a bridge deck.
use crate::intersections::component::ComponentState;
use std::convert::TryFrom;
use vstd::prelude::*;
use vstd::std_specs::convert::{FromSpec, FromSpecImpl, TryFromSpec, TryFromSpecImpl};

verus! {

/// The error for an integer that stands for no deck state.
#[derive(Clone, Copy, Debug, Eq, PartialEq, Structural)]
pub enum DeckStateError {
    CouldNotConvert { value: i32 },
}

/// Where a deck stands: open for vessels, closed for the road.
#[derive(Clone, Copy, Debug, Eq, Hash, Ord, PartialEq, PartialOrd, Structural)]
pub enum DeckState {
    Open,
    Close,
}

impl DeckState {
    /// The upper-case name of the state.
    pub fn name(&self) -> (s: &'static str)
        ensures
            s@ == match self {
                DeckState::Open => "OPEN"@,
                DeckState::Close => "CLOSE"@,
            },
    {
        match self {
            DeckState::Open => "OPEN",
            DeckState::Close => "CLOSE",
        }
    }
}

impl ComponentState for DeckState {
    open spec fn code(self) -> int {
        match self {
            DeckState::Open => 0,
            DeckState::Close => 1,
        }
    }

    open spec fn decoded(code: int) -> Option<Self> {
        if code == 0 {
            Some(DeckState::Open)
        } else if code == 1 {
            Some(DeckState::Close)
        } else {
            None
        }
    }

    open spec fn states() -> int {
        2
    }

    proof fn lemma_codec(code: int) {
    }

    fn to_int(self) -> (code: i32) {
        match self {
            DeckState::Open => 0,
            DeckState::Close => 1,
        }
    }

    fn from_int(code: i32) -> (state: Option<Self>) {
        match code {
            0 => Some(DeckState::Open),
            1 => Some(DeckState::Close),
            _ => None,
        }
    }

    fn same(self, other: Self) -> (same: bool) {
        self == other
    }
}

impl DeckState {
    /// Converting a state to its code and back gives the state; converting
    /// any integer that is no code fails with that integer.
    pub proof fn lemma_round_trip(state: DeckState, other: i32)
        ensures
            <DeckState as TryFromSpec<i32>>::try_from_spec(<i32 as FromSpec<DeckState>>::from_spec(state))
                == Ok::<DeckState, DeckStateError>(state),
            !(0 <= other < 2) ==> <DeckState as TryFromSpec<i32>>::try_from_spec(other) == Err::<
                DeckState,
                DeckStateError,
            >(DeckStateError::CouldNotConvert { value: other }),
    {
    }
}

impl Default for DeckState {
    /// A deck at rest is closed, so that the road is passable.
    fn default() -> (state: Self)
        ensures
            state == DeckState::Close,
    {
        DeckState::Close
    }
}

impl TryFrom<i32> for DeckState {
    type Error = DeckStateError;

    /// Reads a state from its code; any other integer is refused, and the error
    /// carries it.
    fn try_from(value: i32) -> (state: Result<Self, Self::Error>) {
        match DeckState::from_int(value) {
            Some(s) => Ok(s),
            None => Err(DeckStateError::CouldNotConvert { value }),
        }
    }
}

impl TryFromSpecImpl<i32> for DeckState {
    open spec fn obeys_try_from_spec() -> bool {
        true
    }

    open spec fn try_from_spec(v: i32) -> Result<Self, Self::Error> {
        match DeckState::decoded(v as int) {
            Some(s) => Ok(s),
            None => Err(DeckStateError::CouldNotConvert { value: v }),
        }
    }
}

impl From<DeckState> for i32 {
    /// The code of a state.
    fn from(state: DeckState) -> (code: i32) {
        state.to_int()
    }
}

impl FromSpecImpl<DeckState> for i32 {
    open spec fn obeys_from_spec() -> bool {
        true
    }

    open spec fn from_spec(v: DeckState) -> i32 {
        v.code() as i32
    }
}

} // verus!
