//! Named protocols and their ports.
use vstd::prelude::*;

verus! {

/// A protocol: its name and its port.
#[derive(Clone)]
pub struct Protocol {
    pub name: String,
    pub port: i32,
}

/// The protocols that connections can name.
#[derive(Clone)]
pub struct Protocols {
    pub protocols: Vec<Protocol>,
}

} // verus!
