//! What happened in a run: the events of its audit trail.

use super::state::{OutcomeView, StepOutcome};
use crate::api::{Decision, RunStatus, StepStatus};
use crate::names::views;
use crate::text::opt_text;
use crate::time::Timestamp;
use vstd::prelude::*;

verus! {

/// Why a run was suspended.
#[derive(Clone, Copy, Debug, PartialEq, Eq, Structural)]
pub enum SuspendReason {
    /// It waits for a decision.
    Approval,
    /// The engine was shut down.
    Shutdown,
}

/// Why a run was cancelled.
#[derive(Clone, Copy, Debug, PartialEq, Eq, Structural)]
pub enum CancelReason {
    /// Someone asked for it.
    User,
    /// The engine was shut down.
    Shutdown,
}

/// Why a run ended as cancelled, if it did: a shutdown of the process is told from a cancellation
/// by somebody.
pub fn cancel_reason(cancelled: bool, shutdown: bool) -> (r: Option<CancelReason>)
    ensures
        r == (if !cancelled {
            None
        } else if shutdown {
            Some(CancelReason::Shutdown)
        } else {
            Some(CancelReason::User)
        }),
{
    if !cancelled {
        None
    } else if shutdown {
        Some(CancelReason::Shutdown)
    } else {
        Some(CancelReason::User)
    }
}

/// One event of a run.
#[derive(Debug)]
pub enum RunEvent {
    RunStarted { at: Timestamp },
    RunResumed { at: Timestamp },
    RunSuspended { reason: SuspendReason, at: Timestamp },
    RunCancelled { reason: CancelReason, at: Timestamp },
    RunFinished { status: RunStatus, at: Timestamp },
    StepStarted { step: String, attempt: u8, at: Timestamp },
    GateResult { step: String, gate: String, passed: bool, at: Timestamp },
    /// The score is the bit pattern of a single-precision number.
    JudgeResult { step: String, score: u32, passed: bool, at: Timestamp },
    StepFinished {
        step: String,
        status: StepStatus,
        exit_code: Option<i32>,
        error: Option<String>,
        at: Timestamp,
    },
    ApprovalDecided {
        step: String,
        decision: Decision,
        approver: String,
        note: Option<String>,
        at: Timestamp,
    },
}

/// The mathematical form of a [`RunEvent`].
#[verifier::ext_equal]
pub enum EventView {
    RunStarted { at: Timestamp },
    RunResumed { at: Timestamp },
    RunSuspended { reason: SuspendReason, at: Timestamp },
    RunCancelled { reason: CancelReason, at: Timestamp },
    RunFinished { status: RunStatus, at: Timestamp },
    StepStarted { step: Seq<char>, attempt: u8, at: Timestamp },
    GateResult { step: Seq<char>, gate: Seq<char>, passed: bool, at: Timestamp },
    JudgeResult { step: Seq<char>, score: u32, passed: bool, at: Timestamp },
    StepFinished {
        step: Seq<char>,
        status: StepStatus,
        exit_code: Option<i32>,
        error: Option<Seq<char>>,
        at: Timestamp,
    },
    ApprovalDecided {
        step: Seq<char>,
        decision: Decision,
        approver: Seq<char>,
        note: Option<Seq<char>>,
        at: Timestamp,
    },
}

impl View for RunEvent {
    type V = EventView;

    open spec fn view(&self) -> EventView {
        match self {
            RunEvent::RunStarted { at } => EventView::RunStarted { at: *at },
            RunEvent::RunResumed { at } => EventView::RunResumed { at: *at },
            RunEvent::RunSuspended { reason, at } => EventView::RunSuspended {
                reason: *reason,
                at: *at,
            },
            RunEvent::RunCancelled { reason, at } => EventView::RunCancelled {
                reason: *reason,
                at: *at,
            },
            RunEvent::RunFinished { status, at } => EventView::RunFinished {
                status: *status,
                at: *at,
            },
            RunEvent::StepStarted { step, attempt, at } => EventView::StepStarted {
                step: step@,
                attempt: *attempt,
                at: *at,
            },
            RunEvent::GateResult { step, gate, passed, at } => EventView::GateResult {
                step: step@,
                gate: gate@,
                passed: *passed,
                at: *at,
            },
            RunEvent::JudgeResult { step, score, passed, at } => EventView::JudgeResult {
                step: step@,
                score: *score,
                passed: *passed,
                at: *at,
            },
            RunEvent::StepFinished { step, status, exit_code, error, at } => EventView::StepFinished {
                step: step@,
                status: *status,
                exit_code: *exit_code,
                error: opt_text(*error),
                at: *at,
            },
            RunEvent::ApprovalDecided {
                step,
                decision,
                approver,
                note,
                at,
            } => EventView::ApprovalDecided {
                step: step@,
                decision: *decision,
                approver: approver@,
                note: opt_text(*note),
                at: *at,
            },
        }
    }
}

/// The events of a step's gates, in their order.
pub open spec fn gate_events(
    step: Seq<char>,
    gates: Seq<(Seq<char>, bool)>,
    at: Timestamp,
) -> Seq<EventView> {
    Seq::new(
        gates.len(),
        |i: int|
            EventView::GateResult { step, gate: gates[i].0, passed: gates[i].1, at },
    )
}

/// The event of a step's judge, if one ran.
pub open spec fn judge_events(step: Seq<char>, o: OutcomeView, at: Timestamp) -> Seq<EventView> {
    match o.judge_score {
        Some(score) => Seq::empty().push(
            EventView::JudgeResult { step, score, passed: o.status == StepStatus::Passed, at },
        ),
        None => Seq::empty(),
    }
}

/// The events of a finished step: its gates, its judge, then that it finished.
pub open spec fn outcome_events(step: Seq<char>, o: OutcomeView, at: Timestamp) -> Seq<EventView> {
    (gate_events(step, o.gates, at) + judge_events(step, o, at)).push(
        EventView::StepFinished {
            step,
            status: o.status,
            exit_code: o.exit_code,
            error: o.error,
            at,
        },
    )
}

/// The events of a finished step: its gates in order, its judge, then that it finished.
pub fn step_events(step: &str, outcome: &StepOutcome, at: Timestamp) -> (r: Vec<RunEvent>)
    ensures
        views(r@) == outcome_events(step@, outcome@, at),
{
    let n = outcome.gates.len();
    let mut out: Vec<RunEvent> = Vec::new();
    let mut i: usize = 0;
    let ghost want = gate_events(step@, outcome@.gates, at);
    assert(views(out@) =~= want.take(0));
    while i < n
        invariant
            i <= n,
            n == outcome.gates@.len(),
            outcome@.gates == outcome.gates@,
            want == gate_events(step@, outcome@.gates, at),
            views(out@) == want.take(i as int),
        decreases n - i,
    {
        let ghost was = out@;
        let e = RunEvent::GateResult {
            step: step.to_owned(),
            gate: outcome.gates.key_at(i).clone(),
            passed: *outcome.gates.value_at(i),
            at,
        };
        out.push(e);
        assert(views(out@) =~= views(was).push(e@));
        assert(want.take(i + 1) =~= want.take(i as int).push(want[i as int]));
        i += 1;
    }
    assert(want.take(n as int) =~= want);
    let ghost gates = out@;
    if let Some(score) = outcome.judge_score {
        let e = RunEvent::JudgeResult {
            step: step.to_owned(),
            score,
            passed: outcome.status == StepStatus::Passed,
            at,
        };
        out.push(e);
    }
    assert(views(out@) =~= want + judge_events(step@, outcome@, at));
    let ghost judged = out@;
    let e = RunEvent::StepFinished {
        step: step.to_owned(),
        status: outcome.status,
        exit_code: outcome.exit_code,
        error: outcome.error.clone(),
        at,
    };
    out.push(e);
    assert(views(out@) =~= views(judged).push(e@));
    out
}

/// What came of a step is told in full: every gate in its order, the judge's score, and last how
/// the step ended.
pub proof fn an_outcome_is_told_in_full(step: Seq<char>, o: OutcomeView, at: Timestamp, i: int)
    ensures
        ({
            let es = outcome_events(step, o, at);
            &&& es.len() == o.gates.len() + (if o.judge_score is Some {
                2nat
            } else {
                1nat
            })
            &&& 0 <= i < o.gates.len() ==> es[i] == (EventView::GateResult {
                step,
                gate: o.gates[i].0,
                passed: o.gates[i].1,
                at,
            })
            &&& o.judge_score matches Some(score) ==> es[o.gates.len() as int] == (
            EventView::JudgeResult { step, score, passed: o.status == StepStatus::Passed, at })
            &&& es.last() == (EventView::StepFinished {
                step,
                status: o.status,
                exit_code: o.exit_code,
                error: o.error,
                at,
            })
        }),
{
}

} // verus!
