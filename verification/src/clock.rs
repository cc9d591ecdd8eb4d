//! The wall clock, an environment input: every timestamp the store records
//! comes in through here.

use vstd::prelude::*;

verus! {

/// Relies on chrono's `Utc::now`: the current wall-clock time as
/// milliseconds since the Unix epoch. Nothing is promised of the value —
/// the clock is part of the environment — so every caller states what holds
/// of its result whatever the clock returned.
#[verifier::external_body]
pub fn now_millis() -> i64 {
    chrono::Utc::now().timestamp_millis()
}

} // verus!
