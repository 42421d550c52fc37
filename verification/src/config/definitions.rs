//! The groups of an installation and their components.
use vstd::prelude::*;

verus! {

/// A component: its kind and number, for a sensor its weight, and the code of
/// its initial state where that is not the default of its kind.
pub struct Component {
    pub kind: String,
    pub id: i32,
    pub distance: Option<i32>,
    pub initial_state: Option<i32>,
}

/// A group: its kind and number, whether it can be blocked, and its components.
pub struct Group {
    pub kind: String,
    pub id: i32,
    pub can_be_blocked: Option<bool>,
    pub components: Option<Vec<Component>>,
}

/// The groups of one installation.
pub struct Definitions {
    pub groups: Vec<Group>,
}

} // verus!
