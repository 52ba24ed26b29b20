//! The relay retry policy: exponential backoff with a capped interval and
//! no overall time limit, and the classification deciding which errors are
//! retried at all.
//!
//! The relay is meant to run forever: connection-level failures are retried
//! indefinitely, while proof, ordering and state errors abort only the
//! current submission and are answered by rebuilding fresh state on the
//! next poll cycle, not by retrying the same call.

use vstd::prelude::*;

use crate::errors::RelayError;

verus! {

/// Maximal delay between two tries of the same call, in seconds.
pub const MAX_BACKOFF_INTERVAL_SECONDS: u64 = 60;

/// An exponential backoff policy: the delay starts at the base, doubles on
/// every retry, and never exceeds the cap. The policy has deliberately no
/// overall time limit — the retry loop must not give up on transient
/// connectivity failures.
#[derive(Clone, Copy, PartialEq, Eq, Debug)]
pub struct BackoffPolicy {
    /// First delay, in milliseconds.
    pub base_ms: u64,
    /// Largest delay, in milliseconds.
    pub cap_ms: u64,
}

impl BackoffPolicy {
    /// The delay before the first retry.
    pub fn initial_delay(&self) -> (r: u64)
        ensures
            r as int == vstd::math::min(self.base_ms as int, self.cap_ms as int),
    {
        if self.base_ms < self.cap_ms {
            self.base_ms
        } else {
            self.cap_ms
        }
    }

    /// The delay after one more failed try: double the current delay, up to
    /// the cap.
    pub fn next_delay(&self, current_ms: u64) -> (r: u64)
        ensures
            r as int == vstd::math::min(2 * current_ms as int, self.cap_ms as int),
    {
        if current_ms > self.cap_ms / 2 {
            self.cap_ms
        } else {
            2 * current_ms
        }
    }
}

/// Whether an error is retried with backoff: only connection-level
/// failures are. Proof, ordering and state errors are not retried; the
/// relay logs them and recomputes fresh state on its next poll cycle.
pub fn should_retry(error: &RelayError) -> (r: bool)
    ensures
        r <==> error matches RelayError::Transport(_),
{
    match error {
        RelayError::Transport(_) => true,
        RelayError::Proof(_) => false,
        RelayError::Ordering(_) => false,
        RelayError::State(_) => false,
    }
}

/// Whether a submission anchored at the given block must first drive a
/// header relay: the target's finality tracker holds no header at all, or
/// none at least as high as the anchor. Headers are relayed on demand only,
/// to avoid unnecessary transactions.
pub fn needs_head_relay(best_at_target: Option<u32>, required_block: u32) -> (r: bool)
    ensures
        r <==> (match best_at_target {
            Some(best) => best < required_block,
            None => true,
        }),
{
    match best_at_target {
        Some(best) => best < required_block,
        None => true,
    }
}

} // verus!

verus! {

/// The type of the retry schedule the backoff crate runs for us.
#[verifier::external_type_specification]
#[verifier::external_body]
#[verifier::reject_recursive_types(C)]
pub struct ExExponentialBackoff<C>(backoff::exponential::ExponentialBackoff<C>);

/// The clock the backoff crate reads while it runs a schedule.
#[verifier::external_type_specification]
#[verifier::external_body]
pub struct ExSystemClock(backoff::SystemClock);

/// Relies on backoff::ExponentialBackoff::default for a ready retry
/// schedule, then removes its overall time limit — the relayer must never
/// stop — and caps the retry interval.
#[verifier::external_body]
pub fn retry_backoff() -> backoff::ExponentialBackoff {
    let mut retry = backoff::ExponentialBackoff::default();
    retry.max_elapsed_time = None;
    retry.max_interval = std::time::Duration::from_secs(MAX_BACKOFF_INTERVAL_SECONDS);
    retry
}

} // verus!
