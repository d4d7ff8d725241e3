//! The wall clock, reduced to a Unix timestamp in seconds. The clock decides
//! the value, so nothing is promised of it: callers take the timestamp as an
//! argument and state what holds for every value of it.

use vstd::prelude::*;

verus! {

/// Relies on chrono's Local::now, converted to its Unix timestamp.
#[verifier::external_body]
pub fn now_timestamp() -> (r: i64) {
    chrono::Local::now().timestamp()
}

} // verus!
