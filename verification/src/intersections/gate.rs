//! The states of a bridge gate.
use crate::intersections::component::ComponentState;
use std::convert::TryFrom;
use vstd::prelude::*;
use vstd::std_specs::convert::{FromSpec, FromSpecImpl, TryFromSpec, TryFromSpecImpl};

verus! {

/// The error for an integer that stands for no gate state.
#[derive(Clone, Copy, Debug, Eq, PartialEq, Structural)]
pub enum GateStateError {
    CouldNotConvert { value: i32 },
}

/// Where a gate stands.
#[derive(Clone, Copy, Debug, Eq, Hash, Ord, PartialEq, PartialOrd, Structural)]
pub enum GateState {
    Open,
    Close,
}

impl GateState {
    /// The upper-case name of the state.
    pub fn name(&self) -> (s: &'static str)
        ensures
            s@ == match self {
                GateState::Open => "OPEN"@,
                GateState::Close => "CLOSE"@,
            },
    {
        match self {
            GateState::Open => "OPEN",
            GateState::Close => "CLOSE",
        }
    }
}

impl ComponentState for GateState {
    open spec fn code(self) -> int {
        match self {
            GateState::Open => 0,
            GateState::Close => 1,
        }
    }

    open spec fn decoded(code: int) -> Option<Self> {
        if code == 0 {
            Some(GateState::Open)
        } else if code == 1 {
            Some(GateState::Close)
        } else {
            None
        }
    }

    open spec fn states() -> int {
        2
    }

    proof fn lemma_codec(code: int) {
    }

    fn to_int(self) -> (code: i32) {
        match self {
            GateState::Open => 0,
            GateState::Close => 1,
        }
    }

    fn from_int(code: i32) -> (state: Option<Self>) {
        match code {
            0 => Some(GateState::Open),
            1 => Some(GateState::Close),
            _ => None,
        }
    }

    fn same(self, other: Self) -> (same: bool) {
        self == other
    }
}

impl GateState {
    /// Converting a state to its code and back gives the state; converting
    /// any integer that is no code fails with that integer.
    pub proof fn lemma_round_trip(state: GateState, other: i32)
        ensures
            <GateState as TryFromSpec<i32>>::try_from_spec(<i32 as FromSpec<GateState>>::from_spec(state))
                == Ok::<GateState, GateStateError>(state),
            !(0 <= other < 2) ==> <GateState as TryFromSpec<i32>>::try_from_spec(other) == Err::<
                GateState,
                GateStateError,
            >(GateStateError::CouldNotConvert { value: other }),
    {
    }
}

impl Default for GateState {
    /// A gate at rest is open.
    fn default() -> (state: Self)
        ensures
            state == GateState::Open,
    {
        GateState::Open
    }
}

impl TryFrom<i32> for GateState {
    type Error = GateStateError;

    /// Reads a state from its code; any other integer is refused, and the error
    /// carries it.
    fn try_from(value: i32) -> (state: Result<Self, Self::Error>) {
        match GateState::from_int(value) {
            Some(s) => Ok(s),
            None => Err(GateStateError::CouldNotConvert { value }),
        }
    }
}

impl TryFromSpecImpl<i32> for GateState {
    open spec fn obeys_try_from_spec() -> bool {
        true
    }

    open spec fn try_from_spec(v: i32) -> Result<Self, Self::Error> {
        match GateState::decoded(v as int) {
            Some(s) => Ok(s),
            None => Err(GateStateError::CouldNotConvert { value: v }),
        }
    }
}

impl From<GateState> for i32 {
    /// The code of a state.
    fn from(state: GateState) -> (code: i32) {
        state.to_int()
    }
}

impl FromSpecImpl<GateState> for i32 {
    open spec fn obeys_from_spec() -> bool {
        true
    }

    open spec fn from_spec(v: GateState) -> i32 {
        v.code() as i32
    }
}

} // verus!
