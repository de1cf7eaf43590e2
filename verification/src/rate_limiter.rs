//! Admission control over a trailing time window, and the rule by which a
//! failed operation is retried.

use crate::backoff::{delay_after, first_delay, least, lemma_delay_doubles, next_delay};
use std::collections::VecDeque;
use std::time::Instant;
use vstd::prelude::*;

verus! {

/// The time at which an admission asked for at `now` is booked: `now`, or
/// the latest admission on record where the clock reads earlier than that.
pub open spec fn booking_time(admitted: Seq<u128>, now: u128) -> u128 {
    if admitted.len() > 0 && admitted.last() > now {
        admitted.last()
    } else {
        now
    }
}

/// What is left of the queue once the admissions older than `window` at
/// time `now` have been dropped from its front.
pub open spec fn prune(admitted: Seq<u128>, now: u128, window: nat) -> Seq<u128>
    decreases admitted.len(),
{
    if admitted.len() > 0 && now - admitted[0] > window {
        prune(admitted.drop_first(), now, window)
    } else {
        admitted
    }
}

/// Whether a request at `now` is admitted: fewer than `limit` admissions
/// are left in the window.
pub open spec fn admits(admitted: Seq<u128>, limit: nat, window: nat, now: u128) -> bool {
    prune(admitted, booking_time(admitted, now), window).len() < limit
}

/// The queue after a request at `now`: pruned, and with the request at its
/// end if it was admitted.
pub open spec fn after_request(admitted: Seq<u128>, limit: nat, window: nat, now: u128) -> Seq<
    u128,
> {
    let at = booking_time(admitted, now);
    let kept = prune(admitted, at, window);
    if kept.len() < limit {
        kept.push(at)
    } else {
        kept
    }
}

/// Whether the queue is in order of time, oldest first.
pub open spec fn in_order(admitted: Seq<u128>) -> bool {
    forall|i: int, j: int| 0 <= i <= j < admitted.len() ==> admitted[i] <= admitted[j]
}

/// Pruning a queue in order leaves a suffix of it, in order, whose
/// admissions all lie within the window.
pub proof fn lemma_prune(admitted: Seq<u128>, now: u128, window: nat)
    requires
        in_order(admitted),
        admitted.len() > 0 ==> admitted.last() <= now,
    ensures
        in_order(prune(admitted, now, window)),
        prune(admitted, now, window).len() <= admitted.len(),
        forall|i: int|
            0 <= i < prune(admitted, now, window).len() ==> ({
                &&& (#[trigger] prune(admitted, now, window)[i]) <= now
                &&& now - prune(admitted, now, window)[i] <= window
            }),
        prune(admitted, now, window).len() > 0 ==> prune(admitted, now, window).last()
            == admitted.last(),
    decreases admitted.len(),
{
    if admitted.len() > 0 && now - admitted[0] > window {
        lemma_prune(admitted.drop_first(), now, window);
    }
}

/// Bounds the number of requests admitted within a trailing window of
/// time.
///
/// Times are nanoseconds on the limiter's own clock, which starts when the
/// limiter is made; the window is a number of nanoseconds.
#[derive(Debug)]
pub struct RateLimiter {
    window_size: u128,
    max_requests: usize,
    requests: VecDeque<u128>,
    started: Instant,
}

impl RateLimiter {
    /// Length of the window in nanoseconds.
    pub closed spec fn window(&self) -> nat {
        self.window_size as nat
    }

    /// Largest number of admissions within one window.
    pub closed spec fn limit(&self) -> nat {
        self.max_requests as nat
    }

    /// The times of the admissions on record, oldest first.
    pub closed spec fn admitted(&self) -> Seq<u128> {
        self.requests@
    }

    #[verifier::type_invariant]
    spec fn bounded_and_in_order(&self) -> bool {
        &&& self.requests@.len() <= self.max_requests
        &&& in_order(self.requests@)
    }

    /// A limiter that admits up to `max_requests` requests within any
    /// `window_size` nanoseconds, with nothing admitted yet.
    pub fn new(window_size: u128, max_requests: usize) -> (limiter: Self)
        ensures
            limiter.window() == window_size,
            limiter.limit() == max_requests,
            limiter.admitted() == Seq::<u128>::empty(),
    {
        RateLimiter { window_size, max_requests, requests: VecDeque::new(), started: Instant::now() }
    }

    /// Decides on a request made at time `now`. Admissions that lie more
    /// than the window before it leave the queue; the request is admitted,
    /// and put on record, if fewer than the limit are left. A `now` earlier
    /// than the latest admission counts as that admission's time.
    pub fn admit_at(&mut self, now: u128) -> (admitted: bool)
        ensures
            admitted == admits(old(self).admitted(), old(self).limit(), old(self).window(), now),
            final(self).admitted() == after_request(
                old(self).admitted(),
                old(self).limit(),
                old(self).window(),
                now,
            ),
            final(self).window() == old(self).window(),
            final(self).limit() == old(self).limit(),
            final(self).admitted().len() <= final(self).limit(),
            in_order(final(self).admitted()),
            forall|i: int|
                0 <= i < final(self).admitted().len() ==> booking_time(old(self).admitted(), now)
                    - (#[trigger] final(self).admitted()[i]) <= final(self).window(),
    {
        proof {
            use_type_invariant(&*self);
        }
        let window: u128 = self.window_size;
        let ghost before = self.requests@;
        let mut requests: VecDeque<u128> = VecDeque::new();
        core::mem::swap(&mut self.requests, &mut requests);
        let at: u128 = if requests.len() > 0 && requests[requests.len() - 1] > now {
            requests[requests.len() - 1]
        } else {
            now
        };
        proof {
            lemma_prune(before, at, window as nat);
        }
        while requests.len() > 0 && at - requests[0] > window
            invariant
                in_order(requests@),
                requests@.len() > 0 ==> requests@.last() <= at,
                requests@.len() <= before.len(),
                prune(requests@, at, window as nat) == prune(before, at, window as nat),
            decreases requests@.len(),
        {
            let _ = requests.pop_front();
        }
        let admitted: bool = requests.len() < self.max_requests;
        if admitted {
            requests.push_back(at);
        }
        core::mem::swap(&mut self.requests, &mut requests);
        admitted
    }

    /// Decides on a request made now, by the limiter's clock: what
    /// `admit_at` decides for the clock's reading.
    pub fn check_rate_limit(&mut self) -> (admitted: bool)
        ensures
            exists|now: u128|
                ({
                    &&& admitted == #[trigger] admits(
                        old(self).admitted(),
                        old(self).limit(),
                        old(self).window(),
                        now,
                    )
                    &&& final(self).admitted() == after_request(
                        old(self).admitted(),
                        old(self).limit(),
                        old(self).window(),
                        now,
                    )
                }),
            final(self).window() == old(self).window(),
            final(self).limit() == old(self).limit(),
            final(self).admitted().len() <= final(self).limit(),
            in_order(final(self).admitted()),
    {
        let now: u128 = self.started.elapsed().as_nanos();
        self.admit_at(now)
    }
}

/// How often and how patiently a failed operation is tried again.
///
/// `max_retries` is the most attempts that are made in all, the first one
/// counted; an operation is always attempted once, also where the number
/// is 0. The delays are those between one attempt and the next, in
/// nanoseconds.
#[derive(Debug, Clone, Copy, PartialEq, Eq, Structural)]
pub struct RetryConfig {
    pub max_retries: u32,
    pub base_delay: u128,
    pub max_delay: u128,
}

/// Nanoseconds in a second.
pub const NANOS_PER_SEC: u128 = 1_000_000_000;

impl Default for RetryConfig {
    /// Three attempts, starting at one second and never waiting more than
    /// ten.
    fn default() -> (config: Self)
        ensures
            config.max_retries == 3,
            config.base_delay == NANOS_PER_SEC,
            config.max_delay == 10 * NANOS_PER_SEC,
    {
        RetryConfig { max_retries: 3, base_delay: NANOS_PER_SEC, max_delay: 10 * NANOS_PER_SEC }
    }
}

/// Where a retried operation stands between two attempts.
#[derive(Debug, Clone, Copy, PartialEq, Eq, Structural)]
pub struct RetryState {
    /// Retries made so far.
    pub retries: u32,
    /// Nanoseconds to wait before the next retry.
    pub delay: u128,
}

/// What to do about a failed attempt.
#[derive(Debug, Clone, Copy, PartialEq, Eq, Structural)]
pub enum RetryDecision {
    /// Hand the failure to the caller.
    GiveUp,
    /// Wait this many nanoseconds, then try again.
    RetryAfter(u128),
}

impl RetryConfig {
    /// The most attempts that are made in all: `max_retries`, and one where
    /// that is 0.
    pub open spec fn max_attempts(&self) -> nat {
        if self.max_retries == 0 {
            1
        } else {
            self.max_retries as nat
        }
    }

    /// Whether `state` is what the failures before it lead to: its delay is
    /// the base delay doubled once for each retry made, and capped.
    pub open spec fn reaches(&self, state: RetryState) -> bool {
        state.delay == delay_after(
            self.base_delay as nat,
            self.max_delay as nat,
            state.retries as nat + 1,
        )
    }

    /// The state before the first attempt.
    pub fn start(&self) -> (state: RetryState)
        ensures
            state.retries == 0,
            self.reaches(state),
    {
        RetryState { retries: 0, delay: first_delay(self.base_delay, self.max_delay) }
    }

    /// Decides on a failure of the attempt made in `state`, which is
    /// attempt number `state.retries + 1`. Once as many attempts as
    /// `max_attempts` have been made the failure goes to the caller, and
    /// nothing is waited for; until then the operation is tried again after
    /// the state's delay, and the delay of the following retry is twice as
    /// long, up to `max_delay`.
    pub fn on_failure(&self, state: RetryState) -> (next: (RetryDecision, RetryState))
        ensures
            state.retries + 1 >= self.max_attempts() ==> ({
                &&& next.0 == RetryDecision::GiveUp
                &&& next.1 == state
            }),
            state.retries + 1 < self.max_attempts() ==> ({
                &&& next.0 == RetryDecision::RetryAfter(state.delay)
                &&& next.1.retries == state.retries + 1
                &&& next.1.delay == least(2 * state.delay as nat, self.max_delay as nat)
                &&& self.reaches(state) ==> self.reaches(next.1)
            }),
    {
        if self.max_retries == 0 || state.retries >= self.max_retries - 1 {
            (RetryDecision::GiveUp, state)
        } else {
            proof {
                lemma_delay_doubles(
                    self.base_delay as nat,
                    self.max_delay as nat,
                    state.retries as nat + 1,
                );
            }
            let following = RetryState {
                retries: state.retries + 1,
                delay: next_delay(state.delay, self.max_delay),
            };
            (RetryDecision::RetryAfter(state.delay), following)
        }
    }
}

} // verus!
