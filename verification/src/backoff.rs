//! Exponential backoff: a delay that doubles with every failure up to a cap.

use vstd::arithmetic::power2::{lemma2_to64, lemma_pow2_unfold, pow2};
use vstd::prelude::*;

verus! {

/// The smaller of two numbers.
pub open spec fn least(a: nat, b: nat) -> nat {
    if a <= b {
        a
    } else {
        b
    }
}

/// The wait that follows failed attempt number `attempt`, counted from 1:
/// `base` doubled once for each earlier failure, and never more than `max`.
pub open spec fn delay_after(base: nat, max: nat, attempt: nat) -> nat {
    least(base * pow2((attempt - 1) as nat), max)
}

/// Doubling a capped delay and capping it again gives the delay of the
/// next attempt.
pub proof fn lemma_delay_doubles(base: nat, max: nat, attempt: nat)
    requires
        attempt >= 1,
    ensures
        least(2 * delay_after(base, max, attempt), max) == delay_after(base, max, attempt + 1),
{
    lemma_pow2_unfold(attempt);
    let earlier = pow2((attempt - 1) as nat);
    assert(base * (2 * earlier) == 2 * (base * earlier)) by (nonlinear_arith);
}

/// The wait after the first failure: the base delay, capped.
pub fn first_delay(base: u128, max: u128) -> (delay: u128)
    ensures
        delay == delay_after(base as nat, max as nat, 1),
{
    proof {
        lemma2_to64();
        assert(base * pow2(0) == base) by (nonlinear_arith)
            requires
                pow2(0) == 1,
        ;
    }
    if base <= max {
        base
    } else {
        max
    }
}

/// The wait after one more failure: twice `delay`, capped at `max`.
pub fn next_delay(delay: u128, max: u128) -> (next: u128)
    ensures
        next == least(2 * delay as nat, max as nat),
{
    if delay >= max {
        max
    } else if delay >= max - delay {
        max
    } else {
        delay + delay
    }
}

} // verus!
