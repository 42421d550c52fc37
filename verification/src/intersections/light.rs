//! The states of a traffic light.
use crate::intersections::component::ComponentState;
use std::convert::TryFrom;
use vstd::prelude::*;
use vstd::std_specs::convert::{FromSpec, FromSpecImpl, TryFromSpec, TryFromSpecImpl};

verus! {

/// The error for an integer that stands for no light state.
#[derive(Clone, Copy, Debug, Eq, PartialEq, Structural)]
pub enum LightStateError {
    CouldNotConvert { value: i32 },
}

/// What a traffic light shows.
#[derive(Clone, Copy, Debug, Eq, Hash, Ord, PartialEq, PartialOrd, Structural)]
pub enum LightState {
    Prohibit,
    Transitioning,
    Proceed,
    OutOfOrder,
}

impl LightState {
    /// The upper-case name of the state.
    pub fn name(&self) -> (s: &'static str)
        ensures
            s@ == match self {
                LightState::Prohibit => "PROHIBIT"@,
                LightState::Transitioning => "TRANSITIONING"@,
                LightState::Proceed => "PROCEED"@,
                LightState::OutOfOrder => "OUT_OF_ORDER"@,
            },
    {
        match self {
            LightState::Prohibit => "PROHIBIT",
            LightState::Transitioning => "TRANSITIONING",
            LightState::Proceed => "PROCEED",
            LightState::OutOfOrder => "OUT_OF_ORDER",
        }
    }
}

impl ComponentState for LightState {
    open spec fn code(self) -> int {
        match self {
            LightState::Prohibit => 0,
            LightState::Transitioning => 1,
            LightState::Proceed => 2,
            LightState::OutOfOrder => 3,
        }
    }

    open spec fn decoded(code: int) -> Option<Self> {
        if code == 0 {
            Some(LightState::Prohibit)
        } else if code == 1 {
            Some(LightState::Transitioning)
        } else if code == 2 {
            Some(LightState::Proceed)
        } else if code == 3 {
            Some(LightState::OutOfOrder)
        } else {
            None
        }
    }

    open spec fn states() -> int {
        4
    }

    proof fn lemma_codec(code: int) {
    }

    fn to_int(self) -> (code: i32) {
        match self {
            LightState::Prohibit => 0,
            LightState::Transitioning => 1,
            LightState::Proceed => 2,
            LightState::OutOfOrder => 3,
        }
    }

    fn from_int(code: i32) -> (state: Option<Self>) {
        match code {
            0 => Some(LightState::Prohibit),
            1 => Some(LightState::Transitioning),
            2 => Some(LightState::Proceed),
            3 => Some(LightState::OutOfOrder),
            _ => None,
        }
    }

    fn same(self, other: Self) -> (same: bool) {
        self == other
    }
}

impl LightState {
    /// Converting a state to its code and back gives the state; converting
    /// any integer that is no code fails with that integer.
    pub proof fn lemma_round_trip(state: LightState, other: i32)
        ensures
            <LightState as TryFromSpec<i32>>::try_from_spec(<i32 as FromSpec<LightState>>::from_spec(state))
                == Ok::<LightState, LightStateError>(state),
            !(0 <= other < 4) ==> <LightState as TryFromSpec<i32>>::try_from_spec(other) == Err::<
                LightState,
                LightStateError,
            >(LightStateError::CouldNotConvert { value: other }),
    {
    }
}

impl Default for LightState {
    /// A light prohibits until told otherwise.
    fn default() -> (state: Self)
        ensures
            state == LightState::Prohibit,
    {
        LightState::Prohibit
    }
}

impl TryFrom<i32> for LightState {
    type Error = LightStateError;

    /// Reads a state from its code; any other integer is refused, and the error
    /// carries it.
    fn try_from(value: i32) -> (state: Result<Self, Self::Error>) {
        match LightState::from_int(value) {
            Some(s) => Ok(s),
            None => Err(LightStateError::CouldNotConvert { value }),
        }
    }
}

impl TryFromSpecImpl<i32> for LightState {
    open spec fn obeys_try_from_spec() -> bool {
        true
    }

    open spec fn try_from_spec(v: i32) -> Result<Self, Self::Error> {
        match LightState::decoded(v as int) {
            Some(s) => Ok(s),
            None => Err(LightStateError::CouldNotConvert { value: v }),
        }
    }
}

impl From<LightState> for i32 {
    /// The code of a state.
    fn from(state: LightState) -> (code: i32) {
        state.to_int()
    }
}

impl FromSpecImpl<LightState> for i32 {
    open spec fn obeys_from_spec() -> bool {
        true
    }

    open spec fn from_spec(v: LightState) -> i32 {
        v.code() as i32
    }
}

} // verus!
