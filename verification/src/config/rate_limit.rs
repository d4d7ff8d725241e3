//! Configuration of the per-connection rate limiter.

use vstd::prelude::*;

verus! {

/// The token-bucket refill interval in milliseconds and the burst size.
#[derive(Debug, Clone, Copy, PartialEq, Eq, Structural)]
pub struct RateLimit {
    pub interval: u32,
    pub max_burst: u32,
}

fn _interval() -> (r: u32)
    ensures
        r == 10000,
{
    10000
}

fn _max_burst() -> (r: u32)
    ensures
        r == 6,
{
    6
}

impl RateLimit {
    /// One token every ten seconds, six tokens of burst.
    pub open spec fn is_default(&self) -> bool {
        self.interval == 10000 && self.max_burst == 6
    }
}

impl Default for RateLimit {
    fn default() -> (r: Self)
        ensures
            r.is_default(),
    {
        RateLimit { interval: _interval(), max_burst: _max_burst() }
    }
}

} // verus!
