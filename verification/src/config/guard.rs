//! Configuration of the kick/ban policy.

use vstd::prelude::*;

verus! {

/// The kick threshold and the ban duration, in hours.
#[derive(Debug, Clone, Copy, PartialEq, Eq, Structural)]
pub struct Guard {
    pub kick_count: i32,
    pub ban_time: i32,
}

fn _kick_count() -> (r: i32)
    ensures
        r == 10,
{
    10
}

fn _ban_time() -> (r: i32)
    ensures
        r == 24,
{
    24
}

impl Guard {
    /// Ten kicks escalate to a ban of twenty-four hours.
    pub open spec fn is_default(&self) -> bool {
        self.kick_count == 10 && self.ban_time == 24
    }
}

impl Default for Guard {
    fn default() -> (r: Self)
        ensures
            r.is_default(),
    {
        Guard { kick_count: _kick_count(), ban_time: _ban_time() }
    }
}

} // verus!
