//! What a run and its steps hold.

use crate::api::{
    extend_effects, no_usage, usage_with, ApprovalDecision, ApprovalDecisionView, Decision,
    RunInput, RunInputView,
    RunStatus, SideEffect, SideEffectView, StepResult, StepResultView, StepStatus, Usage,
};
use crate::ids::{RunId, StepId, WorkflowId};
use crate::json::{Value, ValueView};
use crate::names::{lookup, put, replicate_all, replicate_opt, opt_view, views, OrderedMap, Replicate};
use crate::text::{concat2, concat4, opt_text};
use crate::time::Timestamp;
use vstd::prelude::*;

verus! {

// ---------------------------------------------------------------------------------------------
// Steps
// ---------------------------------------------------------------------------------------------
/// The persisted state of a step.
#[derive(Debug)]
pub struct StepState {
    pub status: StepStatus,
    pub attempts: u8,
    pub exit_code: Option<i32>,
    pub outputs: OrderedMap<Value>,
    pub usage: Option<Usage>,
    pub gates: OrderedMap<bool>,
    /// Bit pattern of the judge score.
    pub judge_score: Option<u32>,
    pub side_effects: Vec<SideEffect>,
    pub error: Option<String>,
}

/// The mathematical form of a [`StepState`].
#[verifier::ext_equal]
pub struct StepStateView {
    pub status: StepStatus,
    pub attempts: u8,
    pub exit_code: Option<i32>,
    pub outputs: Seq<(Seq<char>, ValueView)>,
    pub usage: Option<Usage>,
    pub gates: Seq<(Seq<char>, bool)>,
    pub judge_score: Option<u32>,
    pub side_effects: Seq<SideEffectView>,
    pub error: Option<Seq<char>>,
}

impl View for StepState {
    type V = StepStateView;

    open spec fn view(&self) -> StepStateView {
        StepStateView {
            status: self.status,
            attempts: self.attempts,
            exit_code: self.exit_code,
            outputs: self.outputs@,
            usage: self.usage,
            gates: self.gates@,
            judge_score: self.judge_score,
            side_effects: views(self.side_effects@),
            error: opt_text(self.error),
        }
    }
}

impl Replicate for StepState {
    fn replicate(&self) -> (r: Self) {
        StepState {
            status: self.status,
            attempts: self.attempts,
            exit_code: self.exit_code,
            outputs: self.outputs.replicate(),
            usage: self.usage,
            gates: self.gates.replicate(),
            judge_score: self.judge_score,
            side_effects: replicate_all(&self.side_effects),
            error: self.error.clone(),
        }
    }
}

/// A step state with nothing but a status, an attempt count and outputs.
pub open spec fn bare_state(
    status: StepStatus,
    attempts: u8,
    outputs: Seq<(Seq<char>, ValueView)>,
) -> StepStateView {
    StepStateView {
        status,
        attempts,
        exit_code: None,
        outputs,
        usage: None,
        gates: Seq::empty(),
        judge_score: None,
        side_effects: Seq::empty(),
        error: None,
    }
}

impl StepState {
    /// A step state with nothing but a status, an attempt count and outputs.
    pub fn bare(status: StepStatus, attempts: u8, outputs: OrderedMap<Value>) -> (r: Self)
        ensures
            r@ == bare_state(status, attempts, outputs@),
    {
        let side_effects: Vec<SideEffect> = Vec::new();
        let r = StepState {
            status,
            attempts,
            exit_code: None,
            outputs,
            usage: None,
            gates: OrderedMap::new(),
            judge_score: None,
            side_effects,
            error: None,
        };
        assert(views(side_effects@) =~= Seq::<SideEffectView>::empty());
        r
    }
}

/// The result of a step, from its state.
pub open spec fn result_of(id: Seq<char>, st: StepStateView) -> StepResultView {
    StepResultView {
        id,
        status: st.status,
        attempts: st.attempts,
        exit_code: st.exit_code,
        outputs: st.outputs,
        gates: st.gates,
        judge_score: st.judge_score,
        usage: st.usage,
        error: st.error,
    }
}

/// The result of a step, from its state.
pub fn step_result(id: &str, state: &StepState) -> (r: StepResult)
    ensures
        r@ == result_of(id@, state@),
{
    StepResult {
        id: StepId::new(id),
        status: state.status,
        attempts: state.attempts,
        exit_code: state.exit_code,
        outputs: state.outputs.replicate(),
        gates: state.gates.replicate(),
        judge_score: state.judge_score,
        usage: state.usage,
        error: state.error.clone(),
    }
}

/// The results of steps, in their order.
pub open spec fn results_of(steps: Seq<(Seq<char>, StepStateView)>) -> Seq<StepResultView> {
    Seq::new(steps.len(), |i: int| result_of(steps[i].0, steps[i].1))
}

/// The results of steps, in their order.
pub fn step_results(steps: &OrderedMap<StepState>) -> (r: Vec<StepResult>)
    ensures
        views(r@) == results_of(steps@),
{
    let n = steps.len();
    let mut out: Vec<StepResult> = Vec::new();
    let mut i: usize = 0;
    while i < n
        invariant
            i <= n,
            n == steps@.len(),
            out@.len() == i,
            forall|k: int|
                0 <= k < i ==> (#[trigger] out@[k])@ == result_of(steps@[k].0, steps@[k].1),
        decreases n - i,
    {
        out.push(step_result(steps.key_at(i), steps.value_at(i)));
        i += 1;
    }
    assert(views(out@) =~= results_of(steps@));
    out
}

/// The usage of all steps together.
pub open spec fn usage_of(steps: Seq<(Seq<char>, StepStateView)>) -> Usage
    decreases steps.len(),
{
    if steps.len() == 0 {
        no_usage()
    } else {
        usage_with(usage_of(steps.drop_last()), steps.last().1.usage)
    }
}

/// The usage of all steps together.
pub fn total_usage(steps: &OrderedMap<StepState>) -> (r: Usage)
    ensures
        r == usage_of(steps@),
{
    let n = steps.len();
    let mut u = Usage::default();
    let mut i: usize = 0;
    while i < n
        invariant
            i <= n,
            n == steps@.len(),
            u == usage_of(steps@.take(i as int)),
        decreases n - i,
    {
        assert(steps@.take(i + 1).drop_last() =~= steps@.take(i as int));
        if let Some(more) = steps.value_at(i).usage {
            u.add(more);
        }
        i += 1;
    }
    assert(steps@.take(n as int) =~= steps@);
    u
}

/// All side effects recorded across steps, in step order.
pub open spec fn effects_of(steps: Seq<(Seq<char>, StepStateView)>) -> Seq<SideEffectView>
    decreases steps.len(),
{
    if steps.len() == 0 {
        Seq::empty()
    } else {
        effects_of(steps.drop_last()) + steps.last().1.side_effects
    }
}

/// All side effects recorded across steps, in step order.
pub fn collect_side_effects(steps: &OrderedMap<StepState>) -> (r: Vec<SideEffect>)
    ensures
        views(r@) == effects_of(steps@),
{
    let n = steps.len();
    let mut out: Vec<SideEffect> = Vec::new();
    let mut i: usize = 0;
    assert(views(out@) =~= Seq::<SideEffectView>::empty());
    while i < n
        invariant
            i <= n,
            n == steps@.len(),
            views(out@) == effects_of(steps@.take(i as int)),
        decreases n - i,
    {
        assert(steps@.take(i + 1).drop_last() =~= steps@.take(i as int));
        extend_effects(&mut out, &steps.value_at(i).side_effects);
        i += 1;
    }
    assert(steps@.take(n as int) =~= steps@);
    out
}

// ---------------------------------------------------------------------------------------------
// Outcomes
// ---------------------------------------------------------------------------------------------
/// What executing a step produced; richer than what is persisted.
#[derive(Debug)]
pub struct StepOutcome {
    pub status: StepStatus,
    pub exit_code: Option<i32>,
    pub outputs: OrderedMap<Value>,
    pub usage: Option<Usage>,
    pub gates: OrderedMap<bool>,
    pub side_effects: Vec<SideEffect>,
    /// Why the step failed or was skipped.
    pub error: Option<String>,
    /// The raw failure diagnostic, without a headline: what a retry is told.
    pub failure_detail: Option<String>,
    /// Captured standard error.
    pub stderr: String,
    pub attempts: u8,
    /// Bit pattern of the judge score.
    pub judge_score: Option<u32>,
}

/// The mathematical form of a [`StepOutcome`].
#[verifier::ext_equal]
pub struct OutcomeView {
    pub status: StepStatus,
    pub exit_code: Option<i32>,
    pub outputs: Seq<(Seq<char>, ValueView)>,
    pub usage: Option<Usage>,
    pub gates: Seq<(Seq<char>, bool)>,
    pub side_effects: Seq<SideEffectView>,
    pub error: Option<Seq<char>>,
    pub failure_detail: Option<Seq<char>>,
    pub stderr: Seq<char>,
    pub attempts: u8,
    pub judge_score: Option<u32>,
}

impl View for StepOutcome {
    type V = OutcomeView;

    open spec fn view(&self) -> OutcomeView {
        OutcomeView {
            status: self.status,
            exit_code: self.exit_code,
            outputs: self.outputs@,
            usage: self.usage,
            gates: self.gates@,
            side_effects: views(self.side_effects@),
            error: opt_text(self.error),
            failure_detail: opt_text(self.failure_detail),
            stderr: self.stderr@,
            attempts: self.attempts,
            judge_score: self.judge_score,
        }
    }
}

/// An outcome with nothing but a status and an error.
pub open spec fn blank_outcome(status: StepStatus, error: Option<Seq<char>>) -> OutcomeView {
    OutcomeView {
        status,
        exit_code: None,
        outputs: Seq::empty(),
        usage: None,
        gates: Seq::empty(),
        side_effects: Seq::empty(),
        error,
        failure_detail: None,
        stderr: Seq::empty(),
        attempts: 1,
        judge_score: None,
    }
}

/// A failure with its reason.
pub open spec fn failed_outcome(error: Seq<char>) -> OutcomeView {
    blank_outcome(StepStatus::Failed, Some(error))
}

/// A pass with an exit code and outputs.
pub open spec fn passing_outcome(
    exit_code: i32,
    outputs: Seq<(Seq<char>, ValueView)>,
    usage: Option<Usage>,
) -> OutcomeView {
    OutcomeView {
        exit_code: Some(exit_code),
        outputs,
        usage,
        ..blank_outcome(StepStatus::Passed, None)
    }
}

/// The persisted projection of an outcome.
pub open spec fn state_of(o: OutcomeView) -> StepStateView {
    StepStateView {
        status: o.status,
        attempts: o.attempts,
        exit_code: o.exit_code,
        outputs: o.outputs,
        usage: o.usage,
        gates: o.gates,
        judge_score: o.judge_score,
        side_effects: o.side_effects,
        error: o.error,
    }
}

/// The outputs of a gate that was decided: the decision and who made it.
pub open spec fn gate_outputs(decision: Seq<char>, approver: Seq<char>) -> Seq<
    (Seq<char>, ValueView),
> {
    put(
        put(Seq::empty(), "decision"@, ValueView::String(decision)),
        "approver"@,
        ValueView::String(approver),
    )
}

/// What an approved gate is: a pass that records the decision.
pub open spec fn approved_outcome(d: ApprovalDecisionView) -> OutcomeView {
    let base = gate_outputs("approved"@, d.approver);
    passing_outcome(
        0,
        match d.note {
            Some(n) => put(base, "note"@, ValueView::String(n)),
            None => base,
        },
        None,
    )
}

/// Why a rejected gate failed.
pub open spec fn rejection_reason(approver: Seq<char>, note: Seq<char>) -> Seq<char> {
    if note.len() == 0 {
        "rejected by "@ + approver
    } else {
        "rejected by "@ + approver + ": "@ + note
    }
}

/// The text of a note, empty when there is none.
pub open spec fn note_text(d: ApprovalDecisionView) -> Seq<char> {
    match d.note {
        Some(n) => n,
        None => Seq::empty(),
    }
}

/// What a rejected gate is: a failure that carries the note as feedback.
pub open spec fn rejected_outcome(d: ApprovalDecisionView) -> OutcomeView {
    OutcomeView {
        outputs: put(
            gate_outputs("rejected"@, d.approver),
            "feedback"@,
            ValueView::String(note_text(d)),
        ),
        ..failed_outcome(rejection_reason(d.approver, note_text(d)))
    }
}

fn blank(status: StepStatus, error: Option<String>) -> (r: StepOutcome)
    ensures
        r@ == blank_outcome(status, opt_text(error)),
{
    let side_effects: Vec<SideEffect> = Vec::new();
    let r = StepOutcome {
        status,
        exit_code: None,
        outputs: OrderedMap::new(),
        usage: None,
        gates: OrderedMap::new(),
        side_effects,
        error,
        failure_detail: None,
        stderr: String::new(),
        attempts: 1,
        judge_score: None,
    };
    assert(views(side_effects@) =~= Seq::<SideEffectView>::empty());
    r
}

/// A step that was skipped because its guard is false.
pub fn skipped_outcome() -> (r: StepOutcome)
    ensures
        r@ == blank_outcome(StepStatus::Skipped, None),
{
    blank(StepStatus::Skipped, None)
}

/// A step that was skipped because an upstream step did not pass.
pub fn blocked_outcome() -> (r: StepOutcome)
    ensures
        r@ == blank_outcome(StepStatus::Skipped, Some("an upstream dependency did not pass"@)),
{
    StepOutcome::failed("an upstream dependency did not pass".to_owned()).skipped()
}

impl StepOutcome {
    /// A failure with its reason.
    pub fn failed(error: String) -> (r: Self)
        ensures
            r@ == failed_outcome(error@),
    {
        blank(StepStatus::Failed, Some(error))
    }

    /// A pass with an exit code and outputs.
    pub fn passing(exit_code: i32, outputs: OrderedMap<Value>, usage: Option<Usage>) -> (r: Self)
        ensures
            r@ == passing_outcome(exit_code, outputs@, usage),
    {
        let mut r = blank(StepStatus::Passed, None);
        r.exit_code = Some(exit_code);
        r.outputs = outputs;
        r.usage = usage;
        r
    }

    /// The same outcome as a skip, its reason kept.
    pub fn skipped(self) -> (r: Self)
        ensures
            r@ == (OutcomeView { status: StepStatus::Skipped, ..self@ }),
    {
        let mut r = self;
        r.status = StepStatus::Skipped;
        r
    }

    /// The persisted projection.
    pub fn to_state(&self) -> (r: StepState)
        ensures
            r@ == state_of(self@),
    {
        StepState {
            status: self.status,
            attempts: self.attempts,
            exit_code: self.exit_code,
            outputs: self.outputs.replicate(),
            usage: self.usage,
            gates: self.gates.replicate(),
            judge_score: self.judge_score,
            side_effects: replicate_all(&self.side_effects),
            error: self.error.clone(),
        }
    }

    /// An approval gate that a person approved.
    pub fn gate_approved(d: &ApprovalDecision) -> (r: Self)
        ensures
            r@ == approved_outcome(d@),
    {
        let mut outputs: OrderedMap<Value> = OrderedMap::new();
        outputs.insert("decision".to_owned(), Value::string("approved"));
        outputs.insert("approver".to_owned(), Value::String(d.approver.clone()));
        if let Some(note) = &d.note {
            outputs.insert("note".to_owned(), Value::String(note.clone()));
        }
        StepOutcome::passing(0, outputs, None)
    }

    /// An approval gate that a person rejected.
    pub fn gate_rejected(d: &ApprovalDecision) -> (r: Self)
        ensures
            r@ == rejected_outcome(d@),
    {
        let note = match &d.note {
            Some(n) => n.clone(),
            None => String::new(),
        };
        let reason = if note.as_str().is_empty() {
            concat2("rejected by ", &d.approver)
        } else {
            concat4("rejected by ", &d.approver, ": ", &note)
        };
        let mut outputs: OrderedMap<Value> = OrderedMap::new();
        outputs.insert("decision".to_owned(), Value::string("rejected"));
        outputs.insert("approver".to_owned(), Value::String(d.approver.clone()));
        outputs.insert("feedback".to_owned(), Value::String(note));
        let mut r = StepOutcome::failed(reason);
        r.outputs = outputs;
        r
    }
}

/// The outcome of a decided gate.
pub open spec fn decided_outcome(d: ApprovalDecisionView) -> OutcomeView {
    match d.decision {
        Decision::Approved => approved_outcome(d),
        Decision::Rejected => rejected_outcome(d),
    }
}

/// The outcome of a decided gate.
pub fn decide_gate(d: &ApprovalDecision) -> (r: StepOutcome)
    ensures
        r@ == decided_outcome(d@),
{
    match d.decision {
        Decision::Approved => StepOutcome::gate_approved(d),
        Decision::Rejected => StepOutcome::gate_rejected(d),
    }
}

/// Approving passes a gate and rejecting fails it, and nothing else does.
pub proof fn a_gate_passes_exactly_when_approved(d: ApprovalDecisionView)
    ensures
        decided_outcome(d).status == (if d.decision == Decision::Approved {
            StepStatus::Passed
        } else {
            StepStatus::Failed
        }),
        decided_outcome(d).status.terminal(),
{
}

// ---------------------------------------------------------------------------------------------
// Runs
// ---------------------------------------------------------------------------------------------
/// A provisioned workspace.
#[derive(Debug)]
pub struct WorkspaceHandle {
    pub run_id: RunId,
    /// The working directory.
    pub path: String,
    /// The run's branch, if it has one.
    pub branch: Option<String>,
    /// What the workspace kind needs to release it.
    pub token: String,
}

/// The mathematical form of a [`WorkspaceHandle`].
#[verifier::ext_equal]
pub struct WorkspaceHandleView {
    pub run_id: RunId,
    pub path: Seq<char>,
    pub branch: Option<Seq<char>>,
    pub token: Seq<char>,
}

impl View for WorkspaceHandle {
    type V = WorkspaceHandleView;

    open spec fn view(&self) -> WorkspaceHandleView {
        WorkspaceHandleView {
            run_id: self.run_id,
            path: self.path@,
            branch: opt_text(self.branch),
            token: self.token@,
        }
    }
}

impl Replicate for WorkspaceHandle {
    fn replicate(&self) -> (r: Self) {
        WorkspaceHandle {
            run_id: self.run_id,
            path: self.path.clone(),
            branch: self.branch.clone(),
            token: self.token.clone(),
        }
    }
}

/// How far a loop has come.
#[derive(Debug)]
pub struct LoopProgress {
    pub last_completed_iteration: u32,
    /// The commit that holds the workdir after that iteration, if one was taken.
    pub iteration_snapshot: Option<String>,
    pub feedback: Option<String>,
}

/// The mathematical form of a [`LoopProgress`].
#[verifier::ext_equal]
pub struct LoopProgressView {
    pub last_completed_iteration: u32,
    pub iteration_snapshot: Option<Seq<char>>,
    pub feedback: Option<Seq<char>>,
}

impl View for LoopProgress {
    type V = LoopProgressView;

    open spec fn view(&self) -> LoopProgressView {
        LoopProgressView {
            last_completed_iteration: self.last_completed_iteration,
            iteration_snapshot: opt_text(self.iteration_snapshot),
            feedback: opt_text(self.feedback),
        }
    }
}

impl Replicate for LoopProgress {
    fn replicate(&self) -> (r: Self) {
        LoopProgress {
            last_completed_iteration: self.last_completed_iteration,
            iteration_snapshot: self.iteration_snapshot.clone(),
            feedback: self.feedback.clone(),
        }
    }
}

/// The durable state of a run.
#[derive(Debug)]
pub struct RunState {
    pub run_id: RunId,
    pub workflow: WorkflowId,
    pub schema_major: u16,
    pub status: RunStatus,
    pub error: Option<String>,
    /// Step states by id, in the order the steps were first recorded.
    pub steps: OrderedMap<StepState>,
    /// Artifacts by name; the captured diff is one.
    pub artifacts: OrderedMap<String>,
    pub provider_versions: OrderedMap<String>,
    /// Decisions on approval gates, by step id.
    pub approvals: OrderedMap<ApprovalDecision>,
    pub input: RunInput,
    pub workspace: Option<WorkspaceHandle>,
    /// The commit the run started from.
    pub base_commit: Option<String>,
    /// The commit that holds the workdir after the last shared step, if one was taken.
    pub snapshot: Option<String>,
    /// Progress of loops that have not settled, by step id.
    pub loop_state: OrderedMap<LoopProgress>,
    pub created_at: Timestamp,
    pub updated_at: Timestamp,
}

/// The mathematical form of a [`RunState`].
#[verifier::ext_equal]
pub struct RunStateView {
    pub run_id: RunId,
    pub workflow: Seq<char>,
    pub schema_major: u16,
    pub status: RunStatus,
    pub error: Option<Seq<char>>,
    pub steps: Seq<(Seq<char>, StepStateView)>,
    pub artifacts: Seq<(Seq<char>, Seq<char>)>,
    pub provider_versions: Seq<(Seq<char>, Seq<char>)>,
    pub approvals: Seq<(Seq<char>, ApprovalDecisionView)>,
    pub input: RunInputView,
    pub workspace: Option<WorkspaceHandleView>,
    pub base_commit: Option<Seq<char>>,
    pub snapshot: Option<Seq<char>>,
    pub loop_state: Seq<(Seq<char>, LoopProgressView)>,
    pub created_at: Timestamp,
    pub updated_at: Timestamp,
}

impl View for RunState {
    type V = RunStateView;

    open spec fn view(&self) -> RunStateView {
        RunStateView {
            run_id: self.run_id,
            workflow: self.workflow@,
            schema_major: self.schema_major,
            status: self.status,
            error: opt_text(self.error),
            steps: self.steps@,
            artifacts: self.artifacts@,
            provider_versions: self.provider_versions@,
            approvals: self.approvals@,
            input: self.input@,
            workspace: opt_view(self.workspace),
            base_commit: opt_text(self.base_commit),
            snapshot: opt_text(self.snapshot),
            loop_state: self.loop_state@,
            created_at: self.created_at,
            updated_at: self.updated_at,
        }
    }
}

impl Replicate for RunState {
    fn replicate(&self) -> (r: Self) {
        RunState {
            run_id: self.run_id,
            workflow: self.workflow.replicate(),
            schema_major: self.schema_major,
            status: self.status,
            error: self.error.clone(),
            steps: self.steps.replicate(),
            artifacts: self.artifacts.replicate(),
            provider_versions: self.provider_versions.replicate(),
            approvals: self.approvals.replicate(),
            input: self.input.replicate(),
            workspace: replicate_opt(&self.workspace),
            base_commit: self.base_commit.clone(),
            snapshot: self.snapshot.clone(),
            loop_state: self.loop_state.replicate(),
            created_at: self.created_at,
            updated_at: self.updated_at,
        }
    }
}

/// What a step came to is what the run records of it, and what the run records is what is
/// reported.
pub proof fn an_outcome_is_recorded_and_reported(id: Seq<char>, o: OutcomeView)
    ensures
        ({
            let st = state_of(o);
            let r = result_of(id, st);
            &&& r.id == id
            &&& st.status == o.status && r.status == o.status
            &&& st.attempts == o.attempts && r.attempts == o.attempts
            &&& st.exit_code == o.exit_code && r.exit_code == o.exit_code
            &&& st.outputs == o.outputs && r.outputs == o.outputs
            &&& st.usage == o.usage && r.usage == o.usage
            &&& st.gates == o.gates && r.gates == o.gates
            &&& st.judge_score == o.judge_score && r.judge_score == o.judge_score
            &&& st.error == o.error && r.error == o.error
            &&& st.side_effects == o.side_effects
        }),
{
}

/// A decided gate says how it was decided and by whom, with the note of an approval, and with the
/// note of a rejection as its feedback.
pub proof fn a_gate_says_who_decided(d: ApprovalDecisionView)
    ensures
        ({
            let o = decided_outcome(d).outputs;
            let approved = d.decision == Decision::Approved;
            let note = match d.note {
                Some(n) => n,
                None => Seq::empty(),
            };
            &&& lookup(o, "decision"@) == Some(
                ValueView::String(
                    if approved {
                        "approved"@
                    } else {
                        "rejected"@
                    },
                ),
            )
            &&& lookup(o, "approver"@) == Some(ValueView::String(d.approver))
            &&& approved && d.note is Some ==> lookup(o, "note"@) == Some(ValueView::String(note))
            &&& !approved ==> lookup(o, "feedback"@) == Some(ValueView::String(note))
            &&& approved ==> decided_outcome(d).error is None
            &&& !approved ==> (decided_outcome(d).error matches Some(e) && e.take(12)
                == "rejected by "@ && e.subrange(12, 12 + d.approver.len() as int) == d.approver)
        }),
{
    reveal_strlit("decision");
    reveal_strlit("approver");
    reveal_strlit("note");
    reveal_strlit("feedback");
    reveal_strlit("rejected by ");
    assert("decision"@[0] == 'd');
    assert("approver"@[0] == 'a');
    assert("note"@[0] == 'n');
    assert("feedback"@[0] == 'f');
    let e = Seq::<(Seq<char>, ValueView)>::empty();
    let word = if d.decision == Decision::Approved {
        "approved"@
    } else {
        "rejected"@
    };
    let v1 = ValueView::String(word);
    let v2 = ValueView::String(d.approver);
    let v3 = ValueView::String(note_text(d));
    let one = put(e, "decision"@, v1);
    let two = put(one, "approver"@, v2);
    crate::names::lemma_put_get(e, "decision"@, v1, "decision"@);
    crate::names::lemma_put_get(one, "approver"@, v2, "decision"@);
    crate::names::lemma_put_get(one, "approver"@, v2, "approver"@);
    let key = if d.decision == Decision::Approved {
        "note"@
    } else {
        "feedback"@
    };
    crate::names::lemma_put_get(two, key, v3, "decision"@);
    crate::names::lemma_put_get(two, key, v3, "approver"@);
    crate::names::lemma_put_get(two, key, v3, key);
    if d.decision == Decision::Rejected {
        let why = rejection_reason(d.approver, note_text(d));
        assert(why.take(12) =~= "rejected by "@);
        assert(why.subrange(12, 12 + d.approver.len() as int) =~= d.approver);
    }
}

/// A run's usage is its steps' added up, and its side effects are theirs, one after another.
pub proof fn usage_and_effects_are_the_steps(
    steps: Seq<(Seq<char>, StepStateView)>,
    id: Seq<char>,
    st: StepStateView,
    i: int,
)
    ensures
        usage_of(steps.push((id, st))) == usage_with(usage_of(steps), st.usage),
        st.usage is None ==> usage_of(steps.push((id, st))) == usage_of(steps),
        effects_of(steps.push((id, st))) == effects_of(steps) + st.side_effects,
        0 <= i < steps.len() ==> forall|e: SideEffectView|
            steps[i].1.side_effects.contains(e) ==> #[trigger] effects_of(steps).contains(e),
    decreases steps.len(),
{
    assert(steps.push((id, st)).drop_last() =~= steps);
    if 0 <= i < steps.len() {
        let d = steps.drop_last();
        let before = effects_of(d);
        let last = steps.last().1.side_effects;
        let all = effects_of(steps);
        usage_and_effects_are_the_steps(d, id, st, i);
        assert forall|e: SideEffectView| steps[i].1.side_effects.contains(
            e,
        ) implies #[trigger] all.contains(e) by {
            if i < d.len() {
                assert(d[i] == steps[i]);
                assert(before.contains(e));
                let k = choose|k: int| 0 <= k < before.len() && before[k] == e;
                assert(all[k] == e);
            } else {
                let k = choose|k: int| 0 <= k < last.len() && last[k] == e;
                assert(all[before.len() + k] == e);
            }
        }
    }
}

/// A rejection says who rejected, and why when a note was left.
pub proof fn a_rejection_gives_its_reason(d: ApprovalDecisionView)
    requires
        d.decision == Decision::Rejected,
    ensures
        d.note matches Some(n) ==> (n.len() > 0 ==> decided_outcome(d).error == Some(
            "rejected by "@ + d.approver + ": "@ + n,
        )),
        d.note is None ==> decided_outcome(d).error == Some("rejected by "@ + d.approver),
{
}

/// A pass has its exit code, its outputs and its usage, and no error; a failure has its error, and
/// nothing else.
pub proof fn an_outcome_holds_what_it_came_to(
    exit_code: i32,
    outputs: Seq<(Seq<char>, ValueView)>,
    usage: Option<Usage>,
    error: Seq<char>,
)
    ensures
        ({
            let p = passing_outcome(exit_code, outputs, usage);
            let f = failed_outcome(error);
            &&& p.status == StepStatus::Passed && p.exit_code == Some(exit_code) && p.outputs
                == outputs && p.usage == usage && p.error is None && p.attempts == 1
            &&& f.status == StepStatus::Failed && f.error == Some(error) && f.exit_code is None
                && f.outputs.len() == 0 && f.usage is None && f.side_effects.len() == 0
                && f.attempts == 1
        }),
{
}

} // verus!
