//! Controller logic for a simulated traffic installation: a road intersection
//! and a movable bridge, driven over a publish/subscribe broker.
//!
//! The crate holds the object model (groups of sensors, lights, gates and
//! decks), the phase scheduler, the bridge sequence, the demand scoring and the
//! message routing. Every function states what it computes and is proved
//! against that statement. Threads and the broker stay with the caller: each
//! function takes the current instant and the observed events as plain values
//! and answers with the next state and with what to wait for.
pub mod clock;
pub mod text;

pub mod intersections;
pub mod io;
pub mod config;
pub mod control;
