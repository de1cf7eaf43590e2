//! The rules of a resilient submission: an optional dry run first, then
//! the send itself, tried again with growing delays until it is confirmed
//! or the attempts are used up.
//!
//! The rules decide; they perform nothing. The caller simulates, sends and
//! waits as it is told, and reports back what happened.

use crate::backoff::{delay_after, first_delay, least, lemma_delay_doubles, next_delay};
use crate::error::BubblegumError;
use crate::text::{decimal, decimal_digits};
use vstd::prelude::*;
use vstd::string::StringExecFns;

verus! {

/// How often a send is attempted and how long to wait in between, in
/// milliseconds.
#[derive(Debug, Clone, Copy)]
pub struct RetryConfig {
    pub max_attempts: u32,
    pub base_delay_ms: u64,
    pub max_delay_ms: u64,
}

impl Default for RetryConfig {
    /// Three attempts, starting at one second and never waiting more than
    /// ten.
    fn default() -> (config: Self)
        ensures
            config.max_attempts == 3,
            config.base_delay_ms == 1000,
            config.max_delay_ms == 10000,
    {
        RetryConfig { max_attempts: 3, base_delay_ms: 1000, max_delay_ms: 10000 }
    }
}

/// The attempt under way, counted from 1, and the wait that follows it if
/// it fails.
#[derive(Debug, Clone, Copy, PartialEq, Eq, Structural)]
pub struct SendState {
    pub attempt: u32,
    pub delay_ms: u64,
}

/// What a dry run of the transaction came to.
#[derive(Debug)]
pub enum SimulationOutcome {
    /// The dry run could not be made; the text says why.
    Unavailable(String),
    /// The dry run was made and the transaction failed in it; the text
    /// describes the failure.
    Rejected(String),
    /// The dry run was made and the transaction went through.
    Passed,
}

/// The first thing to do for a submission.
#[derive(Debug, Clone, Copy, PartialEq, Eq, Structural)]
pub enum SubmitStep {
    /// Make a dry run and report its outcome.
    Simulate,
    /// Send, as the attempt that the state describes.
    Send(SendState),
}

/// What to do about a send that failed.
#[derive(Debug)]
pub enum SendDecision {
    /// Report this error; the submission is over.
    Fail(BubblegumError),
    /// Wait this many milliseconds, then send again as the attempt that
    /// the state describes.
    RetryAfter(u64, SendState),
}

/// The text of the error that a rejected dry run is reported with.
pub open spec fn simulation_failure_text(description: Seq<char>) -> Seq<char> {
    "Simulation failed: "@ + description
}

/// The text of the error that the last failed attempt is reported with:
/// it names the number of attempts made and the cause of the last failure.
pub open spec fn exhausted_text(attempts: nat, cause: Seq<char>) -> Seq<char> {
    "Transaction failed after "@ + decimal_digits(attempts) + " attempts: "@ + cause
}

impl RetryConfig {
    /// Whether `state` is what the attempts before it lead to: its delay
    /// is the base delay doubled once for each earlier attempt, and capped.
    pub open spec fn on_schedule(&self, state: SendState) -> bool {
        &&& state.attempt >= 1
        &&& state.delay_ms == delay_after(
            self.base_delay_ms as nat,
            self.max_delay_ms as nat,
            state.attempt as nat,
        )
    }

    /// The first attempt.
    pub fn first_attempt(&self) -> (state: SendState)
        ensures
            state.attempt == 1,
            self.on_schedule(state),
    {
        let delay: u128 = first_delay(self.base_delay_ms as u128, self.max_delay_ms as u128);
        SendState { attempt: 1, delay_ms: delay as u64 }
    }

    /// Decides on the failure of the attempt that `state` describes, given
    /// the cause in words. The attempt that uses up `max_attempts` ends the
    /// submission with an error that carries the count and the cause; an
    /// earlier one is followed, after the state's delay, by the next
    /// attempt, whose own delay is twice as long up to `max_delay_ms`.
    pub fn on_send_failure(&self, state: SendState, cause: &str) -> (decision: SendDecision)
        ensures
            state.attempt >= self.max_attempts ==> ({
                &&& decision matches SendDecision::Fail(BubblegumError::TransactionError(text))
                &&& text@ == exhausted_text(state.attempt as nat, cause@)
            }),
            state.attempt < self.max_attempts ==> ({
                &&& decision matches SendDecision::RetryAfter(delay, next)
                &&& delay == state.delay_ms
                &&& next.attempt == state.attempt + 1
                &&& next.delay_ms == least(2 * state.delay_ms as nat, self.max_delay_ms as nat)
                &&& self.on_schedule(state) ==> self.on_schedule(next)
            }),
    {
        if state.attempt >= self.max_attempts {
            let mut text: String = String::from_str("Transaction failed after ");
            let count: String = decimal(state.attempt);
            text.append(count.as_str());
            text.append(" attempts: ");
            text.append(cause);
            SendDecision::Fail(BubblegumError::TransactionError(text))
        } else {
            proof {
                if state.attempt >= 1 {
                    lemma_delay_doubles(
                        self.base_delay_ms as nat,
                        self.max_delay_ms as nat,
                        state.attempt as nat,
                    );
                }
            }
            let delay: u128 = next_delay(state.delay_ms as u128, self.max_delay_ms as u128);
            let next = SendState { attempt: state.attempt + 1, delay_ms: delay as u64 };
            SendDecision::RetryAfter(state.delay_ms, next)
        }
    }
}

/// What governs a submission: whether a dry run comes first, and how the
/// send is retried.
#[derive(Debug, Clone, Copy)]
pub struct SubmitPolicy {
    pub simulation_enabled: bool,
    pub retry_config: RetryConfig,
}

impl SubmitPolicy {
    /// Dry runs on, and the default retry rule.
    pub fn new() -> (policy: Self)
        ensures
            policy.simulation_enabled,
            policy.retry_config.max_attempts == 3,
            policy.retry_config.base_delay_ms == 1000,
            policy.retry_config.max_delay_ms == 10000,
    {
        SubmitPolicy { simulation_enabled: true, retry_config: RetryConfig::default() }
    }

    /// Turns dry runs off.
    pub fn disable_simulation(&mut self)
        ensures
            !final(self).simulation_enabled,
            final(self).retry_config == old(self).retry_config,
    {
        self.simulation_enabled = false;
    }

    /// How a submission starts: with a dry run where dry runs are on, else
    /// with the first attempt to send.
    pub fn begin(&self) -> (step: SubmitStep)
        ensures
            self.simulation_enabled ==> step == SubmitStep::Simulate,
            !self.simulation_enabled ==> ({
                &&& step matches SubmitStep::Send(state)
                &&& state.attempt == 1
                &&& self.retry_config.on_schedule(state)
            }),
    {
        if self.simulation_enabled {
            SubmitStep::Simulate
        } else {
            SubmitStep::Send(self.retry_config.first_attempt())
        }
    }

    /// Decides on the outcome of the dry run. Only a dry run that passed
    /// lets the first attempt to send go ahead; one that could not be made,
    /// or that the transaction failed in, ends the submission before
    /// anything is sent.
    pub fn after_simulation(&self, outcome: SimulationOutcome) -> (res: Result<
        SendState,
        BubblegumError,
    >)
        ensures
            match outcome {
                SimulationOutcome::Unavailable(reason) => res == Err::<SendState, BubblegumError>(
                    BubblegumError::RpcError(reason),
                ),
                SimulationOutcome::Rejected(description) => ({
                    &&& res matches Err(BubblegumError::TransactionError(text))
                    &&& text@ == simulation_failure_text(description@)
                }),
                SimulationOutcome::Passed => ({
                    &&& res matches Ok(state)
                    &&& state.attempt == 1
                    &&& self.retry_config.on_schedule(state)
                }),
            },
    {
        match outcome {
            SimulationOutcome::Unavailable(reason) => Err(BubblegumError::RpcError(reason)),
            SimulationOutcome::Rejected(description) => {
                let text: String = String::from_str("Simulation failed: ").concat(
                    description.as_str(),
                );
                Err(BubblegumError::TransactionError(text))
            },
            SimulationOutcome::Passed => Ok(self.retry_config.first_attempt()),
        }
    }
}

} // verus!
