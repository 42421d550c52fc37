//! The wall clock.
//!
//! Instants are milliseconds since the Unix epoch. Everything that depends on
//! time takes the instant as an argument, so that it can be driven by any
//! clock; the functions whose names end in `_now` read the wall clock first.
use vstd::prelude::*;

verus! {

/// Calls `chrono::Utc::now` and `DateTime::timestamp_millis` on its answer.
/// Nothing is claimed of the instant that comes back: two calls may give any
/// two instants.
#[verifier::external_body]
pub(crate) fn utc_now_millis() -> (millis: i64) {
    chrono::Utc::now().timestamp_millis()
}

} // verus!
