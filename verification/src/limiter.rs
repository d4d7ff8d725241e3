//! The per-connection token-bucket rate limiter, provided by the `governor`
//! crate. A check's outcome depends on the real-time clock, so nothing is
//! assumed about it: callers state what holds whatever the limiter answers.

use vstd::prelude::*;

verus! {

#[verifier::external_type_specification]
#[verifier::external_body]
pub struct ExQuota(governor::Quota);

/// Relies on governor's Quota::with_period: `None` exactly when the period is
/// zero, and Duration::from_millis(ms) has zero nanoseconds exactly when `ms`
/// is zero.
#[verifier::external_body]
pub fn quota_with_period_ms(ms: u64) -> (r: Option<governor::Quota>)
    ensures
        r is Some <==> ms >= 1,
{
    governor::Quota::with_period(core::time::Duration::from_millis(ms))
}

/// Relies on governor's Quota::allow_burst; the burst is positive, so the
/// NonZeroU32 conversion cannot fail.
#[verifier::external_body]
pub fn quota_allow_burst(q: governor::Quota, burst: u32) -> (r: governor::Quota)
    requires
        burst >= 1,
{
    q.allow_burst(core::num::NonZeroU32::new(burst).unwrap())
}

/// An unkeyed in-memory limiter on the real-time clock, as one connection
/// owns it. Verus refuses the declaration of governor's `RateLimiter` itself
/// (its generic bounds name associated types of outside traits), so the value
/// sits opaque in this private field.
#[verifier::external_body]
pub struct Limiter {
    inner: governor::RateLimiter<
        governor::state::NotKeyed,
        governor::state::InMemoryState,
        governor::clock::QuantaClock,
        governor::middleware::NoOpMiddleware<governor::clock::QuantaInstant>,
    >,
}

impl Limiter {
    /// Relies on governor's RateLimiter::direct.
    #[verifier::external_body]
    pub fn direct(q: governor::Quota) -> (r: Limiter) {
        Limiter { inner: governor::RateLimiter::direct(q) }
    }

    /// Relies on governor's RateLimiter::check. Whether a cell is admitted
    /// depends on the clock and on earlier calls, so nothing is promised of
    /// the answer.
    #[verifier::external_body]
    pub fn check(&self) -> (r: bool) {
        self.inner.check().is_ok()
    }
}

} // verus!
