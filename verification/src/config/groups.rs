//! Phase times per kind of group.
use vstd::prelude::*;

verus! {

/// The shortest times, in milliseconds, that the lights of groups of one kind
/// let traffic proceed and show the transition.
pub struct Group {
    pub kind: String,
    pub min_go_time: i32,
    pub min_transition_time: i32,
}

/// Times that hold for all kinds.
pub struct General {
    pub min_evac_time: i32,
}

/// The phase times of all kinds.
pub struct Groups {
    pub groups: Vec<Group>,
    pub general: General,
}

} // verus!
