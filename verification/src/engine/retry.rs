//! Attempts of a step under its retry policy.

use super::context::{attempt_context, retry_members};
use super::feedback::{backoff_delay, delay_millis, effective_retry, feedback_text, is_noop_retry};
use super::state::{OutcomeView, StepOutcome};
use crate::api::StepStatus;
use crate::context::render::Context;
use crate::ids::{uuid_text, RunId};
use crate::ir::step::{Backoff, FeedbackMode, RetrySpec, Step};
use crate::json::object_text;
use crate::names::put;
use crate::text::{concat4, opt_text};
use crate::time::Duration;
use vstd::prelude::*;

verus! {

/// The attempts of a step.
#[derive(Debug)]
pub struct Attempts {
    /// The most attempts there are.
    max_attempts: u32,
    backoff: Backoff,
    feedback: FeedbackMode,
    /// Attempts begun.
    attempt: u32,
    /// What the next attempt is told of the last failure.
    prior_error: Option<String>,
}

/// The mathematical form of [`Attempts`].
#[verifier::ext_equal]
pub struct AttemptsView {
    pub max_attempts: nat,
    pub backoff: Backoff,
    pub feedback: FeedbackMode,
    pub attempt: nat,
    pub prior_error: Option<Seq<char>>,
}

impl View for Attempts {
    type V = AttemptsView;

    closed spec fn view(&self) -> AttemptsView {
        AttemptsView {
            max_attempts: self.max_attempts as nat,
            backoff: self.backoff,
            feedback: self.feedback,
            attempt: self.attempt as nat,
            prior_error: opt_text(self.prior_error),
        }
    }
}

/// The policy a step runs under.
pub open spec fn policy(step: RetrySpec, default_retry: Option<RetrySpec>) -> RetrySpec {
    if is_noop_retry(step) && default_retry is Some {
        default_retry->0
    } else {
        step
    }
}

/// The attempts of a step before the first.
pub open spec fn unattempted(r: RetrySpec) -> AttemptsView {
    AttemptsView {
        max_attempts: 1 + r.max as nat,
        backoff: r.backoff,
        feedback: r.feedback,
        attempt: 0,
        prior_error: None,
    }
}

/// An attempt count as an outcome records it.
pub open spec fn recorded_attempts(n: nat) -> u8 {
    if n <= 255 {
        n as u8
    } else {
        255
    }
}

/// What follows an attempt.
#[derive(Debug)]
pub enum Next {
    /// The step is over with this outcome.
    Finish(StepOutcome),
    /// Wait, then attempt again.
    Wait(Duration),
}

/// Whether the step is over after an attempt: it did not fail, no attempt is left, or the run was
/// cancelled.
pub open spec fn is_over(a: AttemptsView, status: StepStatus, cancelled: bool) -> bool {
    status != StepStatus::Failed || a.attempt >= a.max_attempts || cancelled
}

/// What an attempt that failed tells the next one.
pub open spec fn told(o: OutcomeView) -> Option<Seq<char>> {
    if o.failure_detail is Some {
        o.failure_detail
    } else {
        o.error
    }
}

/// Where the workdir is kept as it was before the first attempt.
pub open spec fn retry_ref_text(run_id: RunId, step: Seq<char>) -> Seq<char> {
    "refs/odin/retry/"@ + uuid_text(run_id.0) + "/"@ + step
}

/// The ref that keeps the workdir as it was before a step's first attempt.
pub fn retry_ref(run_id: RunId, step: &str) -> (r: String)
    ensures
        r@ == retry_ref_text(run_id, step@),
{
    let id = run_id.to_string();
    concat4("refs/odin/retry/", &id, "/", step)
}

impl Attempts {
    /// Before the first attempt of a step, under its policy or else the workflow's.
    pub fn begin(step: &Step, default_retry: Option<&RetrySpec>) -> (r: Self)
        ensures
            r@ == unattempted(
                policy(
                    step.retry,
                    match default_retry {
                        Some(d) => Some(*d),
                        None => None,
                    },
                ),
            ),
    {
        let p = effective_retry(&step.retry, default_retry);
        Attempts {
            max_attempts: 1 + p.max as u32,
            backoff: p.backoff,
            feedback: p.feedback,
            attempt: 0,
            prior_error: None,
        }
    }

    /// Whether the step can be attempted again, so that the workdir is worth keeping as it is.
    pub fn can_retry(&self) -> (r: bool)
        ensures
            r == (self@.max_attempts > 1),
    {
        self.max_attempts > 1
    }

    /// Begins the next attempt: its number for the audit trail, and its context. From the second
    /// attempt on the workdir is put back first.
    pub fn next_attempt(&mut self, base: &Context) -> (r: (u8, Context))
        requires
            old(self)@.attempt < old(self)@.max_attempts,
        ensures
            final(self)@ == (AttemptsView { attempt: old(self)@.attempt + 1, ..old(self)@ }),
            r.0 == recorded_attempts(old(self)@.attempt + 1),
            r.1@ == put(
                base@,
                "retry"@,
                object_text(
                    retry_members(
                        old(self)@.attempt + 1,
                        feedback_text(old(self)@.feedback, old(self)@.prior_error),
                    ),
                ),
            ),
    {
        self.attempt = self.attempt + 1;
        let number: u8 = if self.attempt <= 255 {
            self.attempt as u8
        } else {
            255
        };
        let ctx = attempt_context(base, self.feedback, self.attempt, &self.prior_error);
        (number, ctx)
    }

    /// Whether the workdir is put back before the attempt that has begun.
    pub fn rewinds(&self) -> (r: bool)
        ensures
            r == (self@.attempt > 1),
    {
        self.attempt > 1
    }

    /// Takes in what an attempt came to: the step is over, or there is another attempt after a
    /// delay.
    pub fn settle(&mut self, outcome: StepOutcome, cancelled: bool) -> (r: Next)
        ensures
            if is_over(old(self)@, outcome@.status, cancelled) {
                &&& final(self)@ == old(self)@
                &&& r matches Next::Finish(o)
                &&& o@ == (OutcomeView {
                    attempts: recorded_attempts(old(self)@.attempt),
                    ..outcome@
                })
            } else {
                &&& final(self)@ == (AttemptsView { prior_error: told(outcome@), ..old(self)@ })
                &&& final(self)@.attempt < final(self)@.max_attempts
                &&& r matches Next::Wait(d)
                &&& d.whole_secs() as nat * 1000 + d.sub_nanos() as nat / 1_000_000
                    == delay_millis(old(self)@.backoff, old(self)@.attempt as u32)
            },
    {
        if outcome.status != StepStatus::Failed || self.attempt >= self.max_attempts || cancelled {
            let mut o = outcome;
            o.attempts =
            if self.attempt <= 255 {
                self.attempt as u8
            } else {
                255
            };
            return Next::Finish(o);
        }
        self.prior_error =
        match outcome.failure_detail {
            Some(d) => Some(d),
            None => outcome.error,
        };
        Next::Wait(backoff_delay(self.backoff, self.attempt))
    }
}

/// A step is attempted at most once more than its policy's retries: after the last attempt it is
/// over.
pub proof fn attempts_are_bounded(r: RetrySpec, a: AttemptsView, status: StepStatus, cancelled: bool)
    requires
        a.max_attempts == unattempted(r).max_attempts,
        !is_over(a, status, cancelled),
    ensures
        a.attempt < 1 + r.max as nat,
        status == StepStatus::Failed,
        !cancelled,
{
}

/// An attempt that did not fail ends the step, and so does a cancellation.
pub proof fn success_or_cancellation_ends_the_attempts(a: AttemptsView, status: StepStatus)
    ensures
        status != StepStatus::Failed ==> is_over(a, status, false),
        is_over(a, status, true),
{
}

/// A step that says anything about retries is retried as it says; only one that says nothing takes
/// the workflow's default.
pub proof fn a_steps_own_policy_wins(step: RetrySpec, default_retry: Option<RetrySpec>)
    ensures
        step.max > 0 || step.backoff != Backoff::Fixed || step.on_fallback_provider is Some
            || step.feedback != FeedbackMode::Off ==> policy(step, default_retry) == step,
        default_retry is None ==> policy(step, default_retry) == step,
        step.max == 0 && step.backoff == Backoff::Fixed && step.on_fallback_provider is None
            && step.feedback == FeedbackMode::Off ==> (default_retry matches Some(d) ==> policy(
            step,
            default_retry,
        ) == d),
{
}

/// A step that fails is tried again until it has been tried once more than its retries, and not
/// beyond: the last attempt, a pass and a cancellation all end it, and nothing else does.
pub proof fn a_failure_is_retried_until_its_limit(
    r: RetrySpec,
    attempt: nat,
    prior: Option<Seq<char>>,
    status: StepStatus,
    cancelled: bool,
)
    ensures
        ({
            let a = AttemptsView { attempt, prior_error: prior, ..unattempted(r) };
            is_over(a, status, cancelled) == !(status == StepStatus::Failed && attempt <= r.max
                && !cancelled)
        }),
        unattempted(r).attempt == 0,
        unattempted(r).prior_error is None,
        unattempted(r).backoff == r.backoff,
        unattempted(r).feedback == r.feedback,
{
}

/// The next attempt is told the details of a failure where there are any, else its message.
pub proof fn a_retry_is_told_the_details(o: OutcomeView)
    ensures
        o.failure_detail is Some ==> told(o) == o.failure_detail,
        o.failure_detail is None ==> told(o) == o.error,
{
}

/// Attempts are recorded as they are counted, up to the most that is recorded.
pub proof fn attempts_are_recorded(n: nat)
    ensures
        n <= 255 ==> recorded_attempts(n) == n,
        n > 255 ==> recorded_attempts(n) == 255,
{
}

} // verus!
