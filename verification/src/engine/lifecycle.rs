//! How a run is accepted, begins, pauses, ends and resumes.
//!
//! The functions here decide; whoever drives a run persists the state, announces the events and
//! provisions or releases the workspace as they say.

use super::events::{CancelReason, EventView, RunEvent, SuspendReason};
use super::params::{first_problem, resolve_params, resolved};
use super::schedule::{ExecResult, ExecResultView};
use super::state::{
    collect_side_effects, effects_of, results_of, step_results, total_usage, usage_of, RunState,
    RunStateView, StepStateView, WorkspaceHandle,
};
use crate::api::{
    no_usage, RunInput, RunStatus, RunSummary, RunSummaryView, StepResult, StepResultView,
    StepStatus, Usage,
};
use crate::error::Error;
use crate::ids::RunId;
use crate::ir::workflow::{has_gate, Workflow};
use crate::json::Value;
use crate::names::{lookup, views, OrderedMap, Replicate};
use crate::text::{concat3, concat4, debug_quoted, opt_text, quote_debug};
use crate::time::Timestamp;
use crate::validate::diagnostic::{count_of, Severity, ValidationReport};
use vstd::prelude::*;

verus! {

// ---------------------------------------------------------------------------------------------
// Acceptance and the first state
// ---------------------------------------------------------------------------------------------
/// Why a workflow with a gate needs a store.
pub open spec fn gate_needs_store(workflow: Seq<char>) -> Seq<char> {
    "workflow "@ + debug_quoted(workflow)
        + " has an approval gate, which requires a durable store to resume from, but the engine has none — build it with `.store(...)`"@
}

/// Accepts a run: the workflow has no errors, a gate has a store to resume from, and the params
/// resolve. The resolved params, or why the run is refused.
pub fn accept_run(
    workflow: &Workflow,
    report: ValidationReport,
    input: &RunInput,
    has_store: bool,
) -> (r: Result<OrderedMap<Value>, Error>)
    ensures
        if count_of(views(report.diagnostics@), Severity::Error) > 0 {
            r == Err::<OrderedMap<Value>, Error>(Error::Validation(report))
        } else if !has_store && has_gate(workflow.steps@) {
            r matches Err(Error::Input(t)) && t@ == gate_needs_store(workflow.name@)
        } else {
            match first_problem(workflow.params@, input.params@, 0) {
                None => r matches Ok(m) && m@ == resolved(workflow.params@, input.params@),
                Some(p) => r matches Err(Error::Input(t)) && t@ == p,
            }
        },
{
    if report.has_errors() {
        return Err(Error::Validation(report));
    }
    if !has_store && workflow.has_approval() {
        let name = quote_debug(workflow.name.as_str());
        return Err(
            Error::Input(
                concat3(
                    "workflow ",
                    &name,
                    " has an approval gate, which requires a durable store to resume from, but the engine has none — build it with `.store(...)`",
                ),
            ),
        );
    }
    resolve_params(workflow, input)
}

/// The state of a run that has just begun: nothing executed, nothing decided.
pub fn fresh_state(
    workflow: &Workflow,
    run_id: RunId,
    input: RunInput,
    workspace: WorkspaceHandle,
    now: Timestamp,
) -> (r: RunState)
    ensures
        r@ == (RunStateView {
            run_id,
            workflow: workflow.name@,
            schema_major: workflow.schema_version.major,
            status: RunStatus::Running,
            error: None,
            steps: Seq::empty(),
            artifacts: Seq::empty(),
            provider_versions: Seq::empty(),
            approvals: Seq::empty(),
            input: input@,
            workspace: Some(workspace@),
            base_commit: None,
            snapshot: None,
            loop_state: Seq::empty(),
            created_at: now,
            updated_at: now,
        }),
{
    RunState {
        run_id,
        workflow: workflow.name.replicate(),
        schema_major: workflow.schema_version.major,
        status: RunStatus::Running,
        error: None,
        steps: OrderedMap::new(),
        artifacts: OrderedMap::new(),
        provider_versions: OrderedMap::new(),
        approvals: OrderedMap::new(),
        input,
        workspace: Some(workspace),
        base_commit: None,
        snapshot: None,
        loop_state: OrderedMap::new(),
        created_at: now,
        updated_at: now,
    }
}

// ---------------------------------------------------------------------------------------------
// Summaries
// ---------------------------------------------------------------------------------------------
/// The summary of a run as its state tells it. A run that is not over has no end.
pub open spec fn state_summary(st: RunStateView) -> RunSummaryView {
    RunSummaryView {
        run_id: st.run_id,
        workflow: st.workflow,
        status: st.status,
        steps: results_of(st.steps),
        usage: usage_of(st.steps),
        side_effects: effects_of(st.steps),
        diff: lookup(st.artifacts, "DIFF"@),
        error: st.error,
        started_at: st.created_at,
        finished_at: if st.status.terminal() {
            Some(st.updated_at)
        } else {
            None
        },
    }
}

/// The summary of a run as its state tells it.
pub fn summary_from_state(state: &RunState) -> (r: RunSummary)
    ensures
        r@ == state_summary(state@),
{
    let diff = match state.artifacts.get("DIFF") {
        Some(d) => Some(d.clone()),
        None => None,
    };
    let finished_at = if state.status.is_terminal() {
        Some(state.updated_at)
    } else {
        None
    };
    RunSummary {
        run_id: state.run_id,
        workflow: state.workflow.replicate(),
        status: state.status,
        steps: step_results(&state.steps),
        usage: total_usage(&state.steps),
        side_effects: collect_side_effects(&state.steps),
        diff,
        error: state.error.clone(),
        started_at: state.created_at,
        finished_at,
    }
}

/// The summary of a run that stopped before its end: its steps as the state tells them, its usage
/// and diff as the pass does.
pub open spec fn held_summary(
    run_id: RunId,
    workflow: Seq<char>,
    status: RunStatus,
    exec: ExecResultView,
    started_at: Timestamp,
    steps: Seq<(Seq<char>, StepStateView)>,
) -> RunSummaryView {
    RunSummaryView {
        run_id,
        workflow,
        status,
        steps: results_of(steps),
        usage: exec.usage,
        side_effects: effects_of(steps),
        diff: exec.diff,
        error: None,
        started_at,
        finished_at: None,
    }
}

fn held(
    workflow: &Workflow,
    state: &RunState,
    status: RunStatus,
    exec: &ExecResult,
) -> (r: RunSummary)
    ensures
        r@ == held_summary(
            state@.run_id,
            workflow.name@,
            status,
            exec@,
            state@.created_at,
            state@.steps,
        ),
{
    RunSummary {
        run_id: state.run_id,
        workflow: workflow.name.replicate(),
        status,
        steps: step_results(&state.steps),
        usage: exec.usage,
        side_effects: collect_side_effects(&state.steps),
        diff: exec.diff.clone(),
        error: None,
        started_at: state.created_at,
        finished_at: None,
    }
}

/// The summary of a run that paused at a gate, which is among its steps.
pub fn suspended_summary(workflow: &Workflow, state: &RunState, exec: &ExecResult) -> (r: RunSummary)
    ensures
        r@ == held_summary(
            state@.run_id,
            workflow.name@,
            RunStatus::AwaitingApproval,
            exec@,
            state@.created_at,
            state@.steps,
        ),
{
    held(workflow, state, RunStatus::AwaitingApproval, exec)
}

/// The summary of a run that a shutdown interrupted; it stays running.
pub fn interrupted_summary(workflow: &Workflow, state: &RunState, exec: &ExecResult) -> (r:
    RunSummary)
    ensures
        r@ == held_summary(
            state@.run_id,
            workflow.name@,
            RunStatus::Running,
            exec@,
            state@.created_at,
            state@.steps,
        ),
{
    held(workflow, state, RunStatus::Running, exec)
}

/// The first failed step at or after `from`; the number of steps when none failed.
pub open spec fn first_failed(steps: Seq<StepResultView>, from: int) -> int
    decreases steps.len() - from,
{
    if from < 0 || from >= steps.len() {
        steps.len() as int
    } else if steps[from].status == StepStatus::Failed {
        from
    } else {
        first_failed(steps, from + 1)
    }
}

/// Whether any step failed.
pub open spec fn any_failed(steps: Seq<StepResultView>) -> bool {
    first_failed(steps, 0) < steps.len()
}

/// What a failed step says of the run.
pub open spec fn step_failure(s: StepResultView) -> Seq<char> {
    match s.error {
        Some(e) => "step "@ + debug_quoted(s.id) + " failed: "@ + e,
        None => "step "@ + debug_quoted(s.id) + " failed"@,
    }
}

/// Why a run failed: an error of the run itself, else the reason of its first failed step.
pub open spec fn run_error(error: Option<Seq<char>>, steps: Seq<StepResultView>) -> Option<
    Seq<char>,
> {
    if error is Some {
        error
    } else if any_failed(steps) {
        Some(step_failure(steps[first_failed(steps, 0)]))
    } else {
        None
    }
}

/// How a run ends: failed when it had an error or a step of it failed.
pub open spec fn end_status(error: Option<Seq<char>>, steps: Seq<StepResultView>) -> RunStatus {
    if error is Some || any_failed(steps) {
        RunStatus::Failed
    } else {
        RunStatus::Succeeded
    }
}

/// The summary of a run that came to its end.
pub open spec fn closed_summary(
    run_id: RunId,
    workflow: Seq<char>,
    exec: ExecResultView,
    error: Option<Seq<char>>,
    started_at: Timestamp,
    now: Timestamp,
) -> RunSummaryView {
    RunSummaryView {
        run_id,
        workflow,
        status: end_status(error, exec.steps),
        steps: exec.steps,
        usage: exec.usage,
        side_effects: exec.side_effects,
        diff: exec.diff,
        error: run_error(error, exec.steps),
        started_at,
        finished_at: Some(now),
    }
}

fn find_failed(steps: &Vec<StepResult>) -> (r: Option<usize>)
    ensures
        match r {
            Some(i) => i == first_failed(views(steps@), 0) && i < steps@.len(),
            None => !any_failed(views(steps@)),
        },
{
    let ghost v = views(steps@);
    let mut i: usize = 0;
    while i < steps.len()
        invariant
            i <= steps.len(),
            v == views(steps@),
            first_failed(v, 0) == first_failed(v, i as int),
        decreases steps.len() - i,
    {
        assert(v[i as int] == steps@[i as int]@);
        if steps[i].status == StepStatus::Failed {
            return Some(i);
        }
        i += 1;
    }
    None
}

/// The summary of a run that came to its end.
pub fn summarize(
    run_id: RunId,
    workflow: &Workflow,
    exec: ExecResult,
    error: Option<String>,
    started_at: Timestamp,
    now: Timestamp,
) -> (r: RunSummary)
    ensures
        r@ == closed_summary(run_id, workflow.name@, exec@, opt_text(error), started_at, now),
{
    let failed = find_failed(&exec.steps);
    let status = if error.is_some() || failed.is_some() {
        RunStatus::Failed
    } else {
        RunStatus::Succeeded
    };
    let reason = match error {
        Some(e) => Some(e),
        None => match failed {
            Some(i) => {
                let s = &exec.steps[i];
                assert(views(exec.steps@)[i as int] == s@);
                let id = quote_debug(s.id.as_str());
                match &s.error {
                    Some(e) => Some(concat4("step ", &id, " failed: ", e)),
                    None => Some(concat3("step ", &id, " failed")),
                }
            },
            None => None,
        },
    };
    RunSummary {
        run_id,
        workflow: workflow.name.replicate(),
        status,
        steps: exec.steps,
        usage: exec.usage,
        side_effects: exec.side_effects,
        diff: exec.diff,
        error: reason,
        started_at,
        finished_at: Some(now),
    }
}

// ---------------------------------------------------------------------------------------------
// Pausing
// ---------------------------------------------------------------------------------------------
/// The mathematical form of what a pass gave, or of the message of its failure.
pub open spec fn exec_view(e: Result<ExecResult, String>) -> Result<ExecResultView, Seq<char>> {
    match e {
        Ok(r) => Ok(r@),
        Err(m) => Err(m@),
    }
}

/// Why a run is held instead of ended: it stopped at a gate, or a durable run was shut down.
pub open spec fn hold_reason(
    durable: bool,
    exec: Result<ExecResultView, Seq<char>>,
    shutdown: bool,
) -> Option<SuspendReason> {
    match exec {
        Ok(r) => if r.suspended is Some {
            Some(SuspendReason::Approval)
        } else if durable && shutdown {
            Some(SuspendReason::Shutdown)
        } else {
            None
        },
        Err(_) => None,
    }
}

/// The status of a held run.
pub open spec fn held_status(reason: SuspendReason) -> RunStatus {
    match reason {
        SuspendReason::Approval => RunStatus::AwaitingApproval,
        SuspendReason::Shutdown => RunStatus::Running,
    }
}

/// The state of a held run.
pub open spec fn held_state(st: RunStateView, reason: SuspendReason, now: Timestamp) -> RunStateView {
    RunStateView {
        status: held_status(reason),
        error: match reason {
            SuspendReason::Approval => st.error,
            SuspendReason::Shutdown => None,
        },
        updated_at: now,
        ..st
    }
}

/// A run that keeps its workspace and snapshots to go on later.
#[derive(Debug)]
pub struct Hold {
    pub summary: RunSummary,
    /// The event to announce once the state is persisted.
    pub event: RunEvent,
}

/// Decides, after a pass, whether the run is held: it keeps its workspace and its snapshots and
/// is not over. None when it is to be closed.
pub fn hold(
    workflow: &Workflow,
    state: &mut RunState,
    exec: &Result<ExecResult, String>,
    shutdown: bool,
    now: Timestamp,
) -> (r: Option<Hold>)
    ensures
        match hold_reason(workflow.durable, exec_view(*exec), shutdown) {
            Some(reason) => {
                &&& final(state)@ == held_state(old(state)@, reason, now)
                &&& r matches Some(h)
                &&& h.event@ == (EventView::RunSuspended { reason, at: now })
                &&& h.summary@ == held_summary(
                    old(state)@.run_id,
                    workflow.name@,
                    held_status(reason),
                    exec_view(*exec)->Ok_0,
                    old(state)@.created_at,
                    old(state)@.steps,
                )
            },
            None => r is None && final(state)@ == old(state)@,
        },
{
    match exec {
        Ok(x) => {
            if x.suspended.is_some() {
                state.status = RunStatus::AwaitingApproval;
                state.updated_at = now;
                let summary = suspended_summary(workflow, state, x);
                let event = RunEvent::RunSuspended { reason: SuspendReason::Approval, at: now };
                Some(Hold { summary, event })
            } else if workflow.durable && shutdown {
                state.status = RunStatus::Running;
                state.error = None;
                state.updated_at = now;
                let summary = interrupted_summary(workflow, state, x);
                let event = RunEvent::RunSuspended { reason: SuspendReason::Shutdown, at: now };
                Some(Hold { summary, event })
            } else {
                None
            }
        },
        Err(_) => None,
    }
}

// ---------------------------------------------------------------------------------------------
// Ending
// ---------------------------------------------------------------------------------------------
/// What a failed pass leaves to summarize: no steps, and the side effects of the state.
pub open spec fn nothing_executed(steps: Seq<(Seq<char>, StepStateView)>) -> ExecResultView {
    ExecResultView {
        steps: Seq::empty(),
        side_effects: effects_of(steps),
        usage: no_usage(),
        diff: None,
        suspended: None,
    }
}

/// The summary of an ended run, before a cancellation is taken into account.
pub open spec fn uncancelled_summary(
    workflow: Seq<char>,
    st: RunStateView,
    exec: Result<ExecResultView, Seq<char>>,
    now: Timestamp,
) -> RunSummaryView {
    match exec {
        Ok(r) => closed_summary(st.run_id, workflow, r, None, st.created_at, now),
        Err(e) => closed_summary(
            st.run_id,
            workflow,
            nothing_executed(st.steps),
            Some(e),
            st.created_at,
            now,
        ),
    }
}

/// A summary with a cancellation taken into account: it decides, however the steps ended, and is
/// no error.
pub open spec fn with_cancellation(s: RunSummaryView, cancelled: bool) -> RunSummaryView {
    if cancelled {
        RunSummaryView { status: RunStatus::Cancelled, error: None, ..s }
    } else {
        s
    }
}

/// The state of a failed run.
pub open spec fn failed_state(st: RunStateView, error: Seq<char>, now: Timestamp) -> RunStateView {
    RunStateView { status: RunStatus::Failed, error: Some(error), updated_at: now, ..st }
}

/// The events of an ended run: why it was cancelled if it was, then how it ended.
pub open spec fn closing_events(
    cancelled: Option<CancelReason>,
    status: RunStatus,
    now: Timestamp,
) -> Seq<EventView> {
    let head = match cancelled {
        Some(reason) => Seq::empty().push(EventView::RunCancelled { reason, at: now }),
        None => Seq::empty(),
    };
    head.push(EventView::RunFinished { status, at: now })
}

/// An ended run.
#[derive(Debug)]
pub struct Closing {
    pub summary: RunSummary,
    /// The events to announce once the state is persisted.
    pub events: Vec<RunEvent>,
}

/// Ends a run as failed.
pub fn fail_run(state: &mut RunState, error: &str, now: Timestamp) -> (r: Closing)
    ensures
        final(state)@ == failed_state(old(state)@, error@, now),
        r.summary@ == state_summary(failed_state(old(state)@, error@, now)),
        views(r.events@) == closing_events(None, RunStatus::Failed, now),
{
    state.status = RunStatus::Failed;
    state.error = Some(error.to_owned());
    state.updated_at = now;
    let mut events: Vec<RunEvent> = Vec::new();
    events.push(RunEvent::RunFinished { status: RunStatus::Failed, at: now });
    assert(views(events@) =~= closing_events(None, RunStatus::Failed, now));
    let summary = summary_from_state(state);
    Closing { summary, events }
}

/// Ends a run that is not held. A cancellation decides the status, however the steps ended. A
/// resumed run whose pass failed is summarized from its state.
pub fn close(
    workflow: &Workflow,
    state: &mut RunState,
    exec: Result<ExecResult, String>,
    cancelled: Option<CancelReason>,
    resumed: bool,
    now: Timestamp,
) -> (r: Closing)
    ensures
        if resumed && exec is Err {
            let st = failed_state(old(state)@, exec_view(exec)->Err_0, now);
            &&& final(state)@ == st
            &&& r.summary@ == state_summary(st)
            &&& views(r.events@) == closing_events(None, RunStatus::Failed, now)
        } else {
            let s = with_cancellation(
                uncancelled_summary(workflow.name@, old(state)@, exec_view(exec), now),
                cancelled is Some,
            );
            &&& r.summary@ == s
            &&& final(state)@ == (RunStateView {
                status: s.status,
                error: s.error,
                updated_at: now,
                ..old(state)@
            })
            &&& views(r.events@) == closing_events(cancelled, s.status, now)
        },
{
    let (result, error) = match exec {
        Ok(x) => (x, None),
        Err(e) => {
            if resumed {
                return fail_run(state, &e, now);
            }
            let steps: Vec<StepResult> = Vec::new();
            assert(views(steps@) =~= Seq::<StepResultView>::empty());
            let x = ExecResult {
                steps,
                side_effects: collect_side_effects(&state.steps),
                usage: Usage::default(),
                diff: None,
                suspended: None,
            };
            (x, Some(e))
        },
    };
    let mut summary = summarize(state.run_id, workflow, result, error, state.created_at, now);
    let mut events: Vec<RunEvent> = Vec::new();
    if let Some(reason) = cancelled {
        summary.status = RunStatus::Cancelled;
        summary.error = None;
        events.push(RunEvent::RunCancelled { reason, at: now });
    }
    events.push(RunEvent::RunFinished { status: summary.status, at: now });
    assert(views(events@) =~= closing_events(cancelled, summary.status, now));
    state.status = summary.status;
    state.error = summary.error.clone();
    state.updated_at = now;
    Closing { summary, events }
}

// ---------------------------------------------------------------------------------------------
// Resuming
// ---------------------------------------------------------------------------------------------
/// How a run found in the store goes on.
#[derive(Debug)]
pub enum Resume {
    /// It has no workspace to go on in.
    NoWorkspace,
    /// It cannot go on and fails for this reason.
    Fail(String),
    /// It goes on with these params.
    Go(OrderedMap<Value>),
}

/// Decides how a run found in the store goes on, given whether its workdir is still there.
pub fn plan_resume(workflow: &Workflow, state: &RunState, workdir_exists: bool) -> (r: Resume)
    ensures
        if state@.workspace is None {
            r is NoWorkspace
        } else if !workdir_exists {
            r matches Resume::Fail(m) && m@ == "workspace is gone; cannot resume"@
        } else {
            match first_problem(workflow.params@, state@.input.params, 0) {
                None => r matches Resume::Go(m) && m@ == resolved(
                    workflow.params@,
                    state@.input.params,
                ),
                Some(p) => r matches Resume::Fail(m) && m@ == "invalid run input: "@ + p,
            }
        },
{
    if state.workspace.is_none() {
        return Resume::NoWorkspace;
    }
    if !workdir_exists {
        return Resume::Fail("workspace is gone; cannot resume".to_owned());
    }
    match resolve_params(workflow, &state.input) {
        Ok(params) => Resume::Go(params),
        Err(e) => Resume::Fail(e.to_string()),
    }
}

/// How many runs are recovered at once.
pub const RESUME_CONCURRENCY: usize = 8;

/// Whether `i` is the last workflow of a name.
pub open spec fn is_last_named(workflows: Seq<Workflow>, name: Seq<char>, i: int) -> bool {
    &&& 0 <= i < workflows.len()
    &&& workflows[i].name@ == name
    &&& forall|j: int| i < j < workflows.len() ==> (#[trigger] workflows[j]).name@ != name
}

/// Whether `i` is the first workflow of a name.
pub open spec fn is_first_named(workflows: Seq<Workflow>, name: Seq<char>, i: int) -> bool {
    &&& 0 <= i < workflows.len()
    &&& workflows[i].name@ == name
    &&& forall|j: int| 0 <= j < i ==> (#[trigger] workflows[j]).name@ != name
}

/// Whether a workflow of a name is there.
pub open spec fn is_served(workflows: Seq<Workflow>, name: Seq<char>) -> bool {
    exists|i: int| 0 <= i < workflows.len() && (#[trigger] workflows[i]).name@ == name
}

/// The workflow a run found in the store is recovered with: the last one of its name. None when
/// the workflow is no longer served.
pub fn serving_workflow(workflows: &Vec<Workflow>, name: &str) -> (r: Option<usize>)
    ensures
        match r {
            Some(i) => is_last_named(workflows@, name@, i as int),
            None => !is_served(workflows@, name@),
        },
{
    let mut i: usize = workflows.len();
    while i > 0
        invariant
            i <= workflows.len(),
            forall|j: int| i <= j < workflows.len() ==> (#[trigger] workflows@[j]).name@ != name@,
        decreases i,
    {
        i -= 1;
        if crate::text::text_eq(workflows[i].name.as_str(), name) {
            return Some(i);
        }
    }
    None
}

/// The workflow a decision resumes a run with: the first one of its name.
pub fn named_workflow(workflows: &Vec<Workflow>, name: &str) -> (r: Option<usize>)
    ensures
        match r {
            Some(i) => is_first_named(workflows@, name@, i as int),
            None => !is_served(workflows@, name@),
        },
{
    let mut i: usize = 0;
    while i < workflows.len()
        invariant
            i <= workflows.len(),
            forall|j: int| 0 <= j < i ==> (#[trigger] workflows@[j]).name@ != name@,
        decreases workflows.len() - i,
    {
        if crate::text::text_eq(workflows[i].name.as_str(), name) {
            return Some(i);
        }
        i += 1;
    }
    None
}

/// Of a persisted and a mirrored state of one run, the one updated last.
pub fn latest(stored: Option<RunState>, mirrored: Option<RunState>) -> (r: Option<RunState>)
    ensures
        r == (match (stored, mirrored) {
            (Some(a), Some(b)) => if a.updated_at.total() >= b.updated_at.total() {
                stored
            } else {
                mirrored
            },
            (Some(_), None) => stored,
            (None, _) => mirrored,
        }),
{
    match (stored, mirrored) {
        (Some(a), Some(b)) => if a.updated_at.total_nanos() >= b.updated_at.total_nanos() {
            Some(a)
        } else {
            Some(b)
        },
        (Some(a), None) => Some(a),
        (None, m) => m,
    }
}

// ---------------------------------------------------------------------------------------------
// Laws
// ---------------------------------------------------------------------------------------------
/// A held run is not over: its status is not terminal and its summary has no end.
pub proof fn a_held_run_is_not_over(
    run_id: RunId,
    workflow: Seq<char>,
    reason: SuspendReason,
    exec: ExecResultView,
    st: RunStateView,
    now: Timestamp,
)
    ensures
        !held_state(st, reason, now).status.terminal(),
        held_summary(run_id, workflow, held_status(reason), exec, st.created_at, st.steps).finished_at
            is None,
{
}

/// A closed run is over: its status is terminal and its summary has an end, and the two agree on
/// the status and the error.
pub proof fn a_closed_run_is_over(
    workflow: Seq<char>,
    st: RunStateView,
    exec: Result<ExecResultView, Seq<char>>,
    cancelled: bool,
    now: Timestamp,
)
    ensures
        with_cancellation(uncancelled_summary(workflow, st, exec, now), cancelled).status.terminal(),
        with_cancellation(uncancelled_summary(workflow, st, exec, now), cancelled).finished_at
            == Some(now),
{
}

/// What is read back of a closed run is what closing it gave: the run, how and when it ended, and
/// why.
pub proof fn a_closed_run_reads_back(
    st: RunStateView,
    exec: Result<ExecResultView, Seq<char>>,
    cancelled: bool,
    now: Timestamp,
)
    ensures
        ({
            let s = with_cancellation(uncancelled_summary(st.workflow, st, exec, now), cancelled);
            let back = state_summary(
                RunStateView { status: s.status, error: s.error, updated_at: now, ..st },
            );
            &&& back.run_id == s.run_id
            &&& back.workflow == s.workflow
            &&& back.status == s.status
            &&& back.error == s.error
            &&& back.started_at == s.started_at
            &&& back.finished_at == s.finished_at
        }),
{
}

/// What is read back of a held run is what holding it gave, but for the usage, which counts the
/// last pass alone where it is held, and for the diff.
pub proof fn a_held_run_reads_back(
    st: RunStateView,
    reason: SuspendReason,
    exec: ExecResultView,
    now: Timestamp,
)
    requires
        st.error is None,
    ensures
        ({
            let s = held_summary(
                st.run_id,
                st.workflow,
                held_status(reason),
                exec,
                st.created_at,
                st.steps,
            );
            state_summary(held_state(st, reason, now)) == (RunSummaryView {
                usage: usage_of(st.steps),
                diff: lookup(st.artifacts, "DIFF"@),
                ..s
            })
        }),
{
}

proof fn lemma_first_failed(steps: Seq<StepResultView>, from: int)
    requires
        0 <= from <= steps.len(),
    ensures
        from <= first_failed(steps, from) <= steps.len(),
        first_failed(steps, from) < steps.len() ==> steps[first_failed(steps, from)].status
            == StepStatus::Failed,
        forall|i: int|
            from <= i < first_failed(steps, from) ==> (#[trigger] steps[i]).status
                != StepStatus::Failed,
    decreases steps.len() - from,
{
    if from < steps.len() && steps[from].status != StepStatus::Failed {
        lemma_first_failed(steps, from + 1);
    }
}

/// A run that was not cancelled succeeds exactly when no step of it failed, and then has no error;
/// when it failed, it says why.
pub proof fn a_run_succeeds_exactly_when_no_step_failed(
    workflow: Seq<char>,
    st: RunStateView,
    exec: ExecResultView,
    now: Timestamp,
)
    ensures
        ({
            let s = uncancelled_summary(workflow, st, Ok(exec), now);
            &&& (s.status == RunStatus::Succeeded) == (forall|i: int|
                0 <= i < exec.steps.len() ==> (#[trigger] exec.steps[i]).status
                    != StepStatus::Failed)
            &&& (s.status == RunStatus::Succeeded) == (s.error is None)
        }),
{
    lemma_first_failed(exec.steps, 0);
}

/// A cancelled run ends as cancelled, whatever its steps came to, and without an error.
pub proof fn cancellation_decides(
    workflow: Seq<char>,
    st: RunStateView,
    exec: Result<ExecResultView, Seq<char>>,
    now: Timestamp,
)
    ensures
        with_cancellation(uncancelled_summary(workflow, st, exec, now), true).status
            == RunStatus::Cancelled,
        with_cancellation(uncancelled_summary(workflow, st, exec, now), true).error is None,
{
}

/// A run has an error exactly when it failed: when it is closed, cancelled or not, when it is
/// failed without executing, and when it is held.
pub proof fn an_error_is_a_failure(
    workflow: Seq<char>,
    st: RunStateView,
    exec: Result<ExecResultView, Seq<char>>,
    held_exec: ExecResultView,
    cancelled: bool,
    reason: SuspendReason,
    error: Seq<char>,
    now: Timestamp,
)
    ensures
        ({
            let s = with_cancellation(uncancelled_summary(workflow, st, exec, now), cancelled);
            s.error is Some <==> s.status == RunStatus::Failed
        }),
        ({
            let s = state_summary(failed_state(st, error, now));
            s.error is Some <==> s.status == RunStatus::Failed
        }),
        ({
            let s = held_summary(
                st.run_id,
                workflow,
                held_status(reason),
                held_exec,
                st.created_at,
                st.steps,
            );
            s.error is Some <==> s.status == RunStatus::Failed
        }),
{
}

/// A shutdown holds exactly the durable runs that did not fail to execute; others end.
pub proof fn a_shutdown_keeps_durable_runs(durable: bool, exec: ExecResultView)
    requires
        exec.suspended is None,
    ensures
        hold_reason(durable, Ok(exec), true) == (if durable {
            Some(SuspendReason::Shutdown)
        } else {
            None
        }),
        hold_reason(durable, Ok(exec), false) is None,
{
}

proof fn lemma_reaches_failed(steps: Seq<StepResultView>, from: int, i: int)
    requires
        0 <= from <= i < steps.len(),
        steps[i].status == StepStatus::Failed,
        forall|j: int| from <= j < i ==> (#[trigger] steps[j]).status != StepStatus::Failed,
    ensures
        first_failed(steps, from) == i,
    decreases i - from,
{
    if from < i {
        lemma_reaches_failed(steps, from + 1, i);
    }
}

/// A failed run reports the first of its steps that failed, by its id and with its error.
pub proof fn a_failed_run_reports_its_first_failure(
    run_id: RunId,
    workflow: Seq<char>,
    exec: ExecResultView,
    i: int,
    started_at: Timestamp,
    now: Timestamp,
)
    requires
        0 <= i < exec.steps.len(),
        exec.steps[i].status == StepStatus::Failed,
        forall|j: int| 0 <= j < i ==> (#[trigger] exec.steps[j]).status != StepStatus::Failed,
    ensures
        ({
            let s = closed_summary(run_id, workflow, exec, None, started_at, now);
            let head = "step "@ + debug_quoted(exec.steps[i].id) + " failed"@;
            &&& s.status == RunStatus::Failed
            &&& s.error matches Some(e) && (match exec.steps[i].error {
                Some(why) => e == "step "@ + debug_quoted(exec.steps[i].id) + " failed: "@ + why,
                None => e == head,
            })
        }),
{
    lemma_reaches_failed(exec.steps, 0, i);
}

/// An error of the run itself is reported before that of any step, and fails the run.
pub proof fn a_runs_own_error_comes_first(
    run_id: RunId,
    workflow: Seq<char>,
    exec: ExecResultView,
    error: Seq<char>,
    started_at: Timestamp,
    now: Timestamp,
)
    ensures
        closed_summary(run_id, workflow, exec, Some(error), started_at, now).error == Some(error),
        closed_summary(run_id, workflow, exec, Some(error), started_at, now).status
            == RunStatus::Failed,
{
}

/// A summary reports what was executed as it was: the steps, the usage, the side effects and the
/// diff, of its own run and workflow, from start to end.
pub proof fn a_summary_reports_what_was_executed(
    run_id: RunId,
    workflow: Seq<char>,
    exec: ExecResultView,
    started_at: Timestamp,
    now: Timestamp,
)
    ensures
        ({
            let s = closed_summary(run_id, workflow, exec, None, started_at, now);
            &&& s.run_id == run_id && s.workflow == workflow
            &&& s.steps == exec.steps && s.usage == exec.usage && s.side_effects
                == exec.side_effects && s.diff == exec.diff
            &&& s.started_at == started_at && s.finished_at == Some(now)
        }),
{
}

/// A recorded run is summed up step by step, in the order they are recorded, and is finished
/// exactly when it has ended.
pub proof fn a_recorded_run_is_summed_up(st: RunStateView, i: int)
    ensures
        ({
            let s = state_summary(st);
            &&& s.run_id == st.run_id && s.workflow == st.workflow && s.status == st.status
                && s.error == st.error && s.started_at == st.created_at
            &&& s.steps.len() == st.steps.len()
            &&& 0 <= i < st.steps.len() ==> s.steps[i].id == st.steps[i].0 && s.steps[i].status
                == st.steps[i].1.status && s.steps[i].outputs == st.steps[i].1.outputs
                && s.steps[i].exit_code == st.steps[i].1.exit_code && s.steps[i].error
                == st.steps[i].1.error
            &&& s.diff == lookup(st.artifacts, "DIFF"@)
            &&& (s.finished_at is Some) == (st.status == RunStatus::Succeeded || st.status
                == RunStatus::Failed || st.status == RunStatus::Cancelled)
            &&& s.finished_at matches Some(t) ==> t == st.updated_at
        }),
{
}

/// A run that stopped at a gate is held for the decision even when it is being shut down; one that
/// was shut down is held as running; and one that could not be executed is not held.
pub proof fn an_undecided_gate_holds_a_run(
    durable: bool,
    exec: ExecResultView,
    shutdown: bool,
    st: RunStateView,
    error: Seq<char>,
    now: Timestamp,
)
    ensures
        exec.suspended is Some ==> hold_reason(durable, Ok(exec), shutdown) == Some(
            SuspendReason::Approval,
        ),
        hold_reason(durable, Err(error), shutdown) is None,
        held_state(st, SuspendReason::Approval, now).status == RunStatus::AwaitingApproval,
        held_state(st, SuspendReason::Shutdown, now).status == RunStatus::Running,
        held_state(st, SuspendReason::Shutdown, now).steps == st.steps,
        held_state(st, SuspendReason::Approval, now).steps == st.steps,
{
}

/// A run ends with an event that says how, and a cancelled one first says that it was cancelled.
pub proof fn a_closing_says_how_it_ended(
    reason: CancelReason,
    status: RunStatus,
    now: Timestamp,
)
    ensures
        closing_events(None, status, now) == seq![EventView::RunFinished { status, at: now }],
        closing_events(Some(reason), status, now) == seq![
            EventView::RunCancelled { reason, at: now },
            EventView::RunFinished { status, at: now },
        ],
{
    assert(closing_events(None, status, now) =~= seq![EventView::RunFinished { status, at: now }]);
    assert(closing_events(Some(reason), status, now) =~= seq![
        EventView::RunCancelled { reason, at: now },
        EventView::RunFinished { status, at: now },
    ]);
}

} // verus!
