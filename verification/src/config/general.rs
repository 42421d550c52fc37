//! What holds for the whole controller.
use vstd::prelude::*;

verus! {

/// The team under whose number all topics stand.
pub struct General {
    pub team_id: i32,
}

} // verus!
