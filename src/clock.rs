//! Wall-clock reads, kept apart from the deterministic logic.
use vstd::prelude::*;

verus! {

/// Relies on chrono::Utc::now and DateTime::timestamp_millis: the current
/// time in milliseconds since the UNIX epoch. It depends on the clock, so
/// nothing is stated of its value.
#[verifier::external_body]
pub fn now_millis() -> (r: i64) {
    chrono::Utc::now().timestamp_millis()
}

} // verus!
