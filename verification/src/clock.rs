//! The clock that stamps copies.

use chrono::Utc;
use vstd::prelude::*;

verus! {

/// Calls `chrono::Utc::now` and `DateTime::timestamp_nanos_opt` on what it gives.
/// Trusted: nothing is claimed of the reading, which is absent where the moment
/// does not fit into 64 bits of nanoseconds.
#[verifier::external_body]
fn read_clock() -> (nanos: Option<i64>) {
    Utc::now().timestamp_nanos_opt()
}

/// The present moment in nanoseconds since the Unix epoch; zero where the clock
/// shows a moment that this count cannot hold.
pub fn now_nanos() -> i64 {
    moment_from(read_clock())
}

/// The moment that a reading of the clock stands for: the reading itself, and the
/// epoch where there is none.
pub open spec fn moment_of(reading: Option<i64>) -> i64 {
    match reading {
        Some(nanos) => nanos,
        None => 0,
    }
}

/// Turns a reading of the clock into the moment that stamps a copy.
pub fn moment_from(reading: Option<i64>) -> (moment: i64)
    ensures
        moment == moment_of(reading),
{
    match reading {
        Some(nanos) => nanos,
        None => 0,
    }
}

} // verus!
