//! The retry policy: exponential backoff, taken from the `backoff` crate.
//!
//! A policy is held as the crate's own `ExponentialBackoff`. What it answers
//! depends on the clock and on chance, so nothing is stated of its answers:
//! the processor is verified for every answer that a policy can give.

use backoff::backoff::Backoff;
use core::time::Duration;
use vstd::prelude::*;

verus! {

/// `backoff::SystemClock`, the clock of a policy. Nothing of it is read.
#[verifier::external_type_specification]
#[verifier::external_body]
pub struct ExSystemClock(backoff::SystemClock);

/// `backoff::exponential::ExponentialBackoff`, the policy. Nothing of it is
/// read.
#[verifier::external_type_specification]
#[verifier::external_body]
#[verifier::reject_recursive_types(C)]
pub struct ExExponentialBackoff<C>(backoff::exponential::ExponentialBackoff<C>);

/// Builds a policy with `ExponentialBackoffBuilder`: the first delay lies
/// around `initial_interval_secs`, and no delay is granted once
/// `max_elapsed_secs` have passed since the policy was last reset. Growth,
/// randomization and the longest delay are left as the crate sets them.
/// Nothing is claimed of the policy that comes back.
#[verifier::external_body]
pub(crate) fn build_backoff(initial_interval_secs: u32, max_elapsed_secs: u64) -> (policy:
    backoff::ExponentialBackoff) {
    backoff::ExponentialBackoffBuilder::new()
        .with_initial_interval(Duration::from_secs(u64::from(initial_interval_secs)))
        .with_max_elapsed_time(Some(Duration::from_secs(max_elapsed_secs)))
        .build()
}

/// Calls `Backoff::reset` on the policy: the next delay is the first one
/// again, and time is counted from now. Nothing is claimed of the policy
/// afterwards.
#[verifier::external_body]
pub(crate) fn reset_backoff(policy: &mut backoff::ExponentialBackoff) {
    policy.reset()
}

/// Calls `Backoff::next_backoff` on the policy: the delay before the next
/// attempt, or `None` where the policy grants no further attempt. The
/// answer depends on the clock and on chance; nothing is claimed of it. It
/// is called on policies that `build_backoff` made, whose delays stay far
/// below what a `Duration` can hold.
#[verifier::external_body]
pub(crate) fn next_backoff(policy: &mut backoff::ExponentialBackoff) -> (delay: Option<Duration>) {
    policy.next_backoff()
}

} // verus!
