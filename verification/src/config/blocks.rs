//! Which groups must not proceed together.
use vstd::prelude::*;

verus! {

/// A group that another group blocks, by kind and number.
pub struct Block {
    pub kind: String,
    pub id: i32,
}

/// A group and the groups that it blocks.
pub struct Group {
    pub blocks: Vec<Block>,
    pub kind: String,
    pub id: i32,
}

/// The blocks of one installation.
pub struct Blocks {
    pub groups: Vec<Group>,
}

} // verus!
