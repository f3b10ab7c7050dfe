//! Decisions on approval gates, and running again after a rejection.

use super::events::{EventView, RunEvent};
use super::lifecycle::{is_first_named, is_served, named_workflow};
use super::state::{RunState, RunStateView, StepStateView};
use crate::api::{
    ApprovalDecision, ApprovalDecisionView, Decision, RunInput, RunInputView, RunStatus, StepStatus,
};
use crate::error::Error;
use crate::ids::{uuid_text, RunId};
use crate::ir::params::{type_label, ParamType};
use crate::ir::workflow::Workflow;
use crate::json::{Value, ValueView};
use crate::names::{lookup, put};
use crate::text::{concat3, debug_quoted, opt_text, quote_debug};
use crate::time::Timestamp;
use vstd::prelude::*;

verus! {

/// Why a decision is refused without a store.
pub fn no_store_error() -> (r: Error)
    ensures
        r matches Error::Input(t) && t@ == "approvals require a durable store; none is configured"@,
{
    Error::Input("approvals require a durable store; none is configured".to_owned())
}

/// A refusal that names the run.
pub open spec fn about_run(run_id: RunId, rest: Seq<char>) -> Seq<char> {
    "run "@ + uuid_text(run_id.0) + rest
}

fn run_error(run_id: RunId, rest: &str) -> (r: Error)
    ensures
        r matches Error::Input(t) && t@ == about_run(run_id, rest@),
{
    let id = run_id.to_string();
    Error::Input(concat3("run ", &id, rest))
}

/// Why a second decision in this process is refused.
pub fn claimed_error(run_id: RunId) -> (r: Error)
    ensures
        r matches Error::Input(t) && t@ == about_run(
            run_id,
            " already has a decision being applied"@,
        ),
{
    run_error(run_id, " already has a decision being applied")
}

/// Why a decision that another process is applying is refused.
pub fn fenced_error(run_id: RunId) -> (r: Error)
    ensures
        r matches Error::Input(t) && t@ == about_run(
            run_id,
            " is already having a decision applied by another process"@,
        ),
{
    run_error(run_id, " is already having a decision applied by another process")
}

/// Why a decided run without a workspace cannot go on.
pub fn no_workspace_error(run_id: RunId) -> (r: Error)
    ensures
        r matches Error::Input(t) && t@ == about_run(
            run_id,
            " has no workspace handle; cannot resume"@,
        ),
{
    run_error(run_id, " has no workspace handle; cannot resume")
}

/// The name of a run status in messages.
pub open spec fn status_variant(s: RunStatus) -> Seq<char> {
    match s {
        RunStatus::Pending => "Pending"@,
        RunStatus::Running => "Running"@,
        RunStatus::AwaitingApproval => "AwaitingApproval"@,
        RunStatus::Succeeded => "Succeeded"@,
        RunStatus::Failed => "Failed"@,
        RunStatus::Cancelled => "Cancelled"@,
    }
}

fn status_variant_str(s: RunStatus) -> (r: &'static str)
    ensures
        r@ == status_variant(s),
{
    match s {
        RunStatus::Pending => "Pending",
        RunStatus::Running => "Running",
        RunStatus::AwaitingApproval => "AwaitingApproval",
        RunStatus::Succeeded => "Succeeded",
        RunStatus::Failed => "Failed",
        RunStatus::Cancelled => "Cancelled",
    }
}

/// Why a run whose workflow was not provided cannot be decided.
pub open spec fn not_provided(run_id: RunId, workflow: Seq<char>) -> Seq<char> {
    about_run(
        run_id,
        " targets workflow "@ + debug_quoted(workflow)
            + ", which was not provided — pass its file via --workflow"@,
    )
}

fn not_provided_error(run_id: RunId, workflow: &str) -> (r: Error)
    ensures
        r matches Error::Input(t) && t@ == not_provided(run_id, workflow@),
{
    let name = quote_debug(workflow);
    let rest = concat3(
        " targets workflow ",
        &name,
        ", which was not provided — pass its file via --workflow",
    );
    run_error(run_id, &rest)
}

/// Checks that a loaded run can be decided on: its workflow is among those provided, and it waits
/// for a decision. The position of the workflow, or why not; nothing is changed.
pub fn check_decidable(run_id: RunId, state: &RunState, workflows: &Vec<Workflow>) -> (r: Result<
    usize,
    Error,
>)
    ensures
        if !is_served(workflows@, state@.workflow) {
            r matches Err(Error::Input(t)) && t@ == not_provided(run_id, state@.workflow)
        } else if state@.status != RunStatus::AwaitingApproval {
            r matches Err(Error::Input(t)) && t@ == about_run(
                run_id,
                " is not awaiting approval (status is "@ + status_variant(state@.status) + ")"@,
            )
        } else {
            r matches Ok(i) && is_first_named(workflows@, state@.workflow, i as int)
        },
{
    let i = match named_workflow(workflows, state.workflow.as_str()) {
        Some(i) => i,
        None => {
            return Err(not_provided_error(run_id, state.workflow.as_str()));
        },
    };
    if state.status != RunStatus::AwaitingApproval {
        let rest = concat3(
            " is not awaiting approval (status is ",
            status_variant_str(state.status),
            ")",
        );
        return Err(run_error(run_id, &rest));
    }
    Ok(i)
}

/// The first waiting step at or after `from`; the number of steps when none waits.
pub open spec fn first_waiting(steps: Seq<(Seq<char>, StepStateView)>, from: int) -> int
    decreases steps.len() - from,
{
    if from < 0 || from >= steps.len() {
        steps.len() as int
    } else if steps[from].1.status == StepStatus::AwaitingApproval {
        from
    } else {
        first_waiting(steps, from + 1)
    }
}

/// The first gate that waits for a decision, if one does.
pub open spec fn pending_gate(steps: Seq<(Seq<char>, StepStateView)>) -> Option<Seq<char>> {
    let i = first_waiting(steps, 0);
    if i < steps.len() {
        Some(steps[i].0)
    } else {
        None
    }
}

fn find_pending(state: &RunState) -> (r: Option<String>)
    ensures
        opt_text(r) == pending_gate(state@.steps),
{
    let n = state.steps.len();
    let mut i: usize = 0;
    while i < n
        invariant
            i <= n,
            n == state.steps@.len(),
            first_waiting(state.steps@, 0) == first_waiting(state.steps@, i as int),
        decreases n - i,
    {
        if state.steps.value_at(i).status == StepStatus::AwaitingApproval {
            return Some(state.steps.key_at(i).clone());
        }
        i += 1;
    }
    None
}

/// A run with a decision recorded on a gate: running again.
pub open spec fn decided(
    st: RunStateView,
    gate: Seq<char>,
    d: ApprovalDecisionView,
) -> RunStateView {
    RunStateView {
        approvals: put(st.approvals, gate, d),
        status: RunStatus::Running,
        updated_at: d.at,
        ..st
    }
}

/// Records a decision on a waiting gate and sets the run running. The event to announce once
/// the state is persisted; an error, with nothing changed, when no gate waits.
pub fn record_decision(
    state: &mut RunState,
    run_id: RunId,
    decision: Decision,
    approver: String,
    note: Option<String>,
    now: Timestamp,
) -> (r: Result<RunEvent, Error>)
    ensures
        match pending_gate(old(state)@.steps) {
            Some(gate) => {
                &&& final(state)@ == decided(
                    old(state)@,
                    gate,
                    ApprovalDecisionView {
                        decision,
                        approver: approver@,
                        at: now,
                        note: opt_text(note),
                    },
                )
                &&& r matches Ok(e)
                &&& e@ == (EventView::ApprovalDecided {
                    step: gate,
                    decision,
                    approver: approver@,
                    note: opt_text(note),
                    at: now,
                })
            },
            None => {
                &&& final(state)@ == old(state)@
                &&& r matches Err(Error::Input(t))
                &&& t@ == about_run(run_id, " has no pending approval gate"@)
            },
        },
{
    match find_pending(state) {
        Some(gate) => {
            let event = RunEvent::ApprovalDecided {
                step: gate.clone(),
                decision,
                approver: approver.clone(),
                note: note.clone(),
                at: now,
            };
            state.approvals.insert(gate, ApprovalDecision { decision, approver, at: now, note });
            state.status = RunStatus::Running;
            state.updated_at = now;
            Ok(event)
        },
        None => Err(run_error(run_id, " has no pending approval gate")),
    }
}

// ---------------------------------------------------------------------------------------------
// Running again
// ---------------------------------------------------------------------------------------------
/// Why a note cannot be handed to a run again.
pub open spec fn feedback_type_problem(workflow: Seq<char>, ty: ParamType) -> Seq<char> {
    "workflow "@ + debug_quoted(workflow) + " declares a `feedback` param of type "@ + type_label(ty)
        + ", but `--rerun` injects the note as a string; declare `feedback` as a string"@
}

/// Checks, before a gate is rejected, that the run can be started again with the note as its
/// `feedback` param. The position of the workflow, or why not.
pub fn check_rerun(run_id: RunId, original: &RunState, workflows: &Vec<Workflow>) -> (r: Result<
    usize,
    Error,
>)
    ensures
        if !is_served(workflows@, original@.workflow) {
            r matches Err(Error::Input(t)) && t@ == not_provided(run_id, original@.workflow)
        } else {
            exists|i: int| #[trigger]
                is_first_named(workflows@, original@.workflow, i) && (match lookup(
                    workflows@[i].params@,
                    "feedback"@,
                ) {
                    Some(spec) => if spec.ty == ParamType::String {
                        r matches Ok(k) && k == i
                    } else {
                        r matches Err(Error::Input(t)) && t@ == feedback_type_problem(
                            workflows@[i].name@,
                            spec.ty,
                        )
                    },
                    None => r matches Ok(k) && k == i,
                })
        },
{
    let i = match named_workflow(workflows, original.workflow.as_str()) {
        Some(i) => i,
        None => {
            return Err(not_provided_error(run_id, original.workflow.as_str()));
        },
    };
    assert(is_first_named(workflows@, original@.workflow, i as int));
    if let Some(spec) = workflows[i].params.get("feedback") {
        if spec.ty != ParamType::String {
            let name = quote_debug(workflows[i].name.as_str());
            let head = concat3("workflow ", &name, " declares a `feedback` param of type ");
            return Err(
                Error::Input(
                    concat3(
                        &head,
                        spec.ty.name(),
                        ", but `--rerun` injects the note as a string; declare `feedback` as a string",
                    ),
                ),
            );
        }
    }
    Ok(i)
}

/// The input of a run started again: the original's, with the note as the `feedback` param and
/// without its idempotency key.
pub open spec fn rerun_of(input: RunInputView, note: Seq<char>) -> RunInputView {
    RunInputView {
        params: put(input.params, "feedback"@, ValueView::String(note)),
        idempotency_key: None,
        ..input
    }
}

/// The input of a run started again: the original's, with the note as the `feedback` param and
/// without its idempotency key.
pub fn rerun_input(input: RunInput, note: &str) -> (r: RunInput)
    ensures
        r@ == rerun_of(input@, note@),
        r@ == (RunInputView {
            params: put(input@.params, "feedback"@, ValueView::String(note@)),
            idempotency_key: None,
            ..input@
        }),
{
    let mut input = input;
    input.params.insert("feedback".to_owned(), Value::string(note));
    input.idempotency_key = None;
    input
}

// ---------------------------------------------------------------------------------------------
// Laws
// ---------------------------------------------------------------------------------------------
proof fn lemma_first_waiting(steps: Seq<(Seq<char>, StepStateView)>, from: int)
    requires
        0 <= from <= steps.len(),
    ensures
        from <= first_waiting(steps, from) <= steps.len(),
        first_waiting(steps, from) < steps.len() ==> steps[first_waiting(steps, from)].1.status
            == StepStatus::AwaitingApproval,
        first_waiting(steps, from) == steps.len() ==> forall|i: int|
            from <= i < steps.len() ==> (#[trigger] steps[i]).1.status
                != StepStatus::AwaitingApproval,
    decreases steps.len() - from,
{
    if from < steps.len() && steps[from].1.status != StepStatus::AwaitingApproval {
        lemma_first_waiting(steps, from + 1);
    }
}

/// A decision is recorded for a gate that waits, and there is one whenever a step waits.
pub proof fn a_decision_answers_a_waiting_gate(steps: Seq<(Seq<char>, StepStateView)>)
    ensures
        match pending_gate(steps) {
            Some(g) => exists|i: int|
                0 <= i < steps.len() && (#[trigger] steps[i]).0 == g && steps[i].1.status
                    == StepStatus::AwaitingApproval,
            None => forall|i: int|
                0 <= i < steps.len() ==> (#[trigger] steps[i]).1.status
                    != StepStatus::AwaitingApproval,
        },
{
    lemma_first_waiting(steps, 0);
}

/// A run that was decided on does not wait any more, so that the same decision given twice is
/// refused the second time.
pub proof fn a_decided_run_waits_no_more(
    st: RunStateView,
    gate: Seq<char>,
    d: ApprovalDecisionView,
)
    ensures
        decided(st, gate, d).status != RunStatus::AwaitingApproval,
{
}

/// A decision answers the first gate that waits: none recorded before it does.
pub proof fn the_first_waiting_gate_is_answered(
    steps: Seq<(Seq<char>, StepStateView)>,
    i: int,
)
    requires
        0 <= i < steps.len(),
        steps[i].1.status == StepStatus::AwaitingApproval,
        forall|j: int|
            0 <= j < i ==> (#[trigger] steps[j]).1.status != StepStatus::AwaitingApproval,
    ensures
        pending_gate(steps) == Some(steps[i].0),
{
    lemma_reaches_waiting(steps, 0, i);
}

proof fn lemma_reaches_waiting(steps: Seq<(Seq<char>, StepStateView)>, from: int, i: int)
    requires
        0 <= from <= i < steps.len(),
        steps[i].1.status == StepStatus::AwaitingApproval,
        forall|j: int|
            from <= j < i ==> (#[trigger] steps[j]).1.status != StepStatus::AwaitingApproval,
    ensures
        first_waiting(steps, from) == i,
    decreases i - from,
{
    if from < i {
        lemma_reaches_waiting(steps, from + 1, i);
    }
}

/// A decision is recorded under its gate, as it was made and when; the decisions on other gates
/// and everything else the run records stay, and the run goes on.
pub proof fn a_decision_is_recorded_under_its_gate(
    st: RunStateView,
    gate: Seq<char>,
    d: ApprovalDecisionView,
    other: Seq<char>,
)
    requires
        crate::names::unique_keys(st.approvals),
    ensures
        ({
            let r = decided(st, gate, d);
            &&& lookup(r.approvals, gate) == Some(d)
            &&& other != gate ==> lookup(r.approvals, other) == lookup(st.approvals, other)
            &&& r.status == RunStatus::Running
            &&& r.updated_at == d.at
            &&& r.steps == st.steps && r.input == st.input && r.artifacts == st.artifacts
                && r.workspace == st.workspace && r.run_id == st.run_id && r.workflow
                == st.workflow && r.snapshot == st.snapshot && r.base_commit == st.base_commit
        }),
{
    crate::names::lemma_put_get(st.approvals, gate, d, gate);
    crate::names::lemma_put_get(st.approvals, gate, d, other);
}

/// A run that is started again gets the note as its `feedback`, and every other param, the trigger
/// and its payload as before; it is no longer held to be the same request.
pub proof fn a_rerun_gets_the_note(input: RunInputView, note: Seq<char>, other: Seq<char>)
    requires
        crate::names::unique_keys(input.params),
    ensures
        ({
            let r = rerun_of(input, note);
            &&& lookup(r.params, "feedback"@) == Some(ValueView::String(note))
            &&& other != "feedback"@ ==> lookup(r.params, other) == lookup(input.params, other)
            &&& r.trigger == input.trigger && r.trigger_payload == input.trigger_payload
            &&& r.idempotency_key is None
        }),
{
    crate::names::lemma_put_get(
        input.params,
        "feedback"@,
        ValueView::String(note),
        "feedback"@,
    );
    crate::names::lemma_put_get(input.params, "feedback"@, ValueView::String(note), other);
}

} // verus!
