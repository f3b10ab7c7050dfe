//! The integration contract: what starts a run, and what a run reports.

use crate::ids::{RunId, StepId, WorkflowId};
use crate::json::{Value, ValueView};
use crate::names::{put, replicate_all, views, OrderedMap, Replicate};
use crate::text::opt_text;
use crate::time::Timestamp;
use vstd::prelude::*;

verus! {

// ---------------------------------------------------------------------------------------------
// Status
// ---------------------------------------------------------------------------------------------
/// Lifecycle status of a run.
#[derive(Clone, Copy, Debug, PartialEq, Eq, Structural)]
pub enum RunStatus {
    /// Created, not started.
    Pending,
    /// Executing.
    Running,
    /// Paused at an approval gate.
    AwaitingApproval,
    /// Completed successfully.
    Succeeded,
    /// Failed terminally.
    Failed,
    /// Cancelled.
    Cancelled,
}

impl RunStatus {
    /// Whether a run in this status is over.
    pub open spec fn terminal(self) -> bool {
        self == RunStatus::Succeeded || self == RunStatus::Failed || self == RunStatus::Cancelled
    }

    /// Whether a run in this status is over.
    pub fn is_terminal(self) -> (r: bool)
        ensures
            r == self.terminal(),
    {
        matches!(self, RunStatus::Succeeded | RunStatus::Failed | RunStatus::Cancelled)
    }
}

/// Lifecycle status of a step.
#[derive(Clone, Copy, Debug, PartialEq, Eq, Structural)]
pub enum StepStatus {
    /// Not yet started.
    Pending,
    /// Currently executing.
    Running,
    /// Paused for a human decision.
    AwaitingApproval,
    /// Completed successfully.
    Passed,
    /// Failed terminally.
    Failed,
    /// Skipped: its guard was false or an upstream step did not pass.
    Skipped,
}

impl StepStatus {
    /// Whether a step in this status is over.
    pub open spec fn terminal(self) -> bool {
        self == StepStatus::Passed || self == StepStatus::Failed || self == StepStatus::Skipped
    }

    /// Whether a step in this status is over.
    pub fn is_terminal(self) -> (r: bool)
        ensures
            r == self.terminal(),
    {
        matches!(self, StepStatus::Passed | StepStatus::Failed | StepStatus::Skipped)
    }
}

// ---------------------------------------------------------------------------------------------
// Usage
// ---------------------------------------------------------------------------------------------
/// Tokens and cost of provider invocations.
#[derive(Clone, Copy, Debug, PartialEq, Eq, Structural)]
pub struct Usage {
    pub input_tokens: u64,
    pub output_tokens: u64,
    pub cost_micros: u64,
}

/// A sum that stops at the largest `u64`.
pub open spec fn capped_sum(a: u64, b: u64) -> u64 {
    if a + b > u64::MAX {
        u64::MAX
    } else {
        (a + b) as u64
    }
}

/// Two usages together.
pub open spec fn usage_sum(a: Usage, b: Usage) -> Usage {
    Usage {
        input_tokens: capped_sum(a.input_tokens, b.input_tokens),
        output_tokens: capped_sum(a.output_tokens, b.output_tokens),
        cost_micros: capped_sum(a.cost_micros, b.cost_micros),
    }
}

/// No usage at all.
pub open spec fn no_usage() -> Usage {
    Usage { input_tokens: 0, output_tokens: 0, cost_micros: 0 }
}

/// A usage with another added, if there is one.
pub open spec fn usage_with(a: Usage, b: Option<Usage>) -> Usage {
    match b {
        Some(u) => usage_sum(a, u),
        None => a,
    }
}

impl Default for Usage {
    fn default() -> (r: Self)
        ensures
            r == no_usage(),
    {
        Usage { input_tokens: 0, output_tokens: 0, cost_micros: 0 }
    }
}

impl Usage {
    /// Adds another usage.
    pub fn add(&mut self, other: Usage)
        ensures
            *final(self) == usage_sum(*old(self), other),
    {
        self.input_tokens = self.input_tokens.saturating_add(other.input_tokens);
        self.output_tokens = self.output_tokens.saturating_add(other.output_tokens);
        self.cost_micros = self.cost_micros.saturating_add(other.cost_micros);
    }
}

// ---------------------------------------------------------------------------------------------
// Side effects
// ---------------------------------------------------------------------------------------------
/// An externally visible effect of a run.
#[derive(Debug)]
pub enum SideEffect {
    /// A pull request was opened.
    PullRequest { url: String, number: u64 },
    /// A comment was posted.
    Comment { url: String },
    /// A commit was made.
    Commit { sha: String, branch: Option<String> },
    /// A branch was pushed.
    Push { branch: String, remote: String },
    /// An artifact was written.
    Artifact { name: String, path: String },
}

/// The mathematical form of a [`SideEffect`].
pub enum SideEffectView {
    PullRequest { url: Seq<char>, number: u64 },
    Comment { url: Seq<char> },
    Commit { sha: Seq<char>, branch: Option<Seq<char>> },
    Push { branch: Seq<char>, remote: Seq<char> },
    Artifact { name: Seq<char>, path: Seq<char> },
}

impl View for SideEffect {
    type V = SideEffectView;

    open spec fn view(&self) -> SideEffectView {
        match *self {
            SideEffect::PullRequest { url, number } => SideEffectView::PullRequest {
                url: url@,
                number,
            },
            SideEffect::Comment { url } => SideEffectView::Comment { url: url@ },
            SideEffect::Commit { sha, branch } => SideEffectView::Commit {
                sha: sha@,
                branch: opt_text(branch),
            },
            SideEffect::Push { branch, remote } => SideEffectView::Push {
                branch: branch@,
                remote: remote@,
            },
            SideEffect::Artifact { name, path } => SideEffectView::Artifact {
                name: name@,
                path: path@,
            },
        }
    }
}

impl SideEffect {
    /// A pull request was opened.
    pub fn pull_request(url: &str, number: u64) -> (r: Self)
        ensures
            r@ == (SideEffectView::PullRequest { url: url@, number }),
    {
        SideEffect::PullRequest { url: url.to_owned(), number }
    }

    /// A comment was posted at `url`.
    pub fn comment(url: &str) -> (r: Self)
        ensures
            r@ == (SideEffectView::Comment { url: url@ }),
    {
        SideEffect::Comment { url: url.to_owned() }
    }

    /// A commit `sha` was made, optionally on `branch`.
    pub fn commit(sha: &str, branch: Option<String>) -> (r: Self)
        ensures
            r@ == (SideEffectView::Commit { sha: sha@, branch: opt_text(branch) }),
    {
        SideEffect::Commit { sha: sha.to_owned(), branch }
    }

    /// `branch` was pushed to `remote`.
    pub fn push(branch: &str, remote: &str) -> (r: Self)
        ensures
            r@ == (SideEffectView::Push { branch: branch@, remote: remote@ }),
    {
        SideEffect::Push { branch: branch.to_owned(), remote: remote.to_owned() }
    }

    /// An artifact `name` was written at `path`.
    pub fn artifact(name: &str, path: &str) -> (r: Self)
        ensures
            r@ == (SideEffectView::Artifact { name: name@, path: path@ }),
    {
        SideEffect::Artifact { name: name.to_owned(), path: path.to_owned() }
    }
}

impl Replicate for SideEffect {
    fn replicate(&self) -> (r: Self) {
        match self {
            SideEffect::PullRequest { url, number } => SideEffect::PullRequest {
                url: url.clone(),
                number: *number,
            },
            SideEffect::Comment { url } => SideEffect::Comment { url: url.clone() },
            SideEffect::Commit { sha, branch } => SideEffect::Commit {
                sha: sha.clone(),
                branch: branch.clone(),
            },
            SideEffect::Push { branch, remote } => SideEffect::Push {
                branch: branch.clone(),
                remote: remote.clone(),
            },
            SideEffect::Artifact { name, path } => SideEffect::Artifact {
                name: name.clone(),
                path: path.clone(),
            },
        }
    }
}

/// Adds copies of side effects to a list.
pub fn extend_effects(out: &mut Vec<SideEffect>, more: &Vec<SideEffect>)
    ensures
        views(final(out)@) == views(old(out)@) + views(more@),
{
    let ghost start = views(out@);
    let mut copy = replicate_all(more);
    let ghost was = out@;
    let ghost added = copy@;
    out.append(&mut copy);
    assert(views(out@) =~= views(was) + views(added));
}

// ---------------------------------------------------------------------------------------------
// Run input
// ---------------------------------------------------------------------------------------------
/// Everything needed to start a run.
#[derive(Debug)]
pub struct RunInput {
    /// Which declared trigger this run corresponds to.
    pub trigger: String,
    /// Free-form trigger payload, `trigger.*` in templates.
    pub trigger_payload: Value,
    /// Param values, by name.
    pub params: OrderedMap<Value>,
    /// Optional idempotency key.
    pub idempotency_key: Option<String>,
}

/// The mathematical form of a [`RunInput`].
#[verifier::ext_equal]
pub struct RunInputView {
    pub trigger: Seq<char>,
    pub trigger_payload: ValueView,
    pub params: Seq<(Seq<char>, ValueView)>,
    pub idempotency_key: Option<Seq<char>>,
}

impl View for RunInput {
    type V = RunInputView;

    open spec fn view(&self) -> RunInputView {
        RunInputView {
            trigger: self.trigger@,
            trigger_payload: self.trigger_payload@,
            params: self.params@,
            idempotency_key: opt_text(self.idempotency_key),
        }
    }
}

/// The trigger of a run that names none.
pub fn default_trigger() -> (r: String)
    ensures
        r@ == "manual"@,
{
    "manual".to_owned()
}

impl RunInput {
    /// A manual run with no params.
    pub fn manual() -> (r: Self)
        ensures
            r@ == (RunInputView {
                trigger: "manual"@,
                trigger_payload: ValueView::Null,
                params: Seq::empty(),
                idempotency_key: None,
            }),
    {
        RunInput {
            trigger: default_trigger(),
            trigger_payload: Value::Null,
            params: OrderedMap::new(),
            idempotency_key: None,
        }
    }

    /// The same input with a param set.
    pub fn param(self, k: &str, v: Value) -> (r: Self)
        ensures
            r@ == (RunInputView { params: put(self@.params, k@, v@), ..self@ }),
    {
        let mut me = self;
        me.params.insert(k.to_owned(), v);
        me
    }

    /// The same input with a trigger and its payload.
    pub fn with_trigger(self, name: &str, payload: Value) -> (r: Self)
        ensures
            r@ == (RunInputView { trigger: name@, trigger_payload: payload@, ..self@ }),
    {
        let mut me = self;
        me.trigger = name.to_owned();
        me.trigger_payload = payload;
        me
    }
}

impl Replicate for RunInput {
    fn replicate(&self) -> (r: Self) {
        RunInput {
            trigger: self.trigger.clone(),
            trigger_payload: self.trigger_payload.replicate(),
            params: self.params.replicate(),
            idempotency_key: self.idempotency_key.clone(),
        }
    }
}

// ---------------------------------------------------------------------------------------------
// Results
// ---------------------------------------------------------------------------------------------
/// Result of one step. The judge score is the bit pattern of a single-precision number.
#[derive(Debug)]
pub struct StepResult {
    pub id: StepId,
    pub status: StepStatus,
    /// Attempts taken.
    pub attempts: u8,
    /// Last exit code.
    pub exit_code: Option<i32>,
    /// Outputs, `steps.<id>.outputs.*` in templates.
    pub outputs: OrderedMap<Value>,
    /// Gate name to whether it passed.
    pub gates: OrderedMap<bool>,
    /// Bit pattern of the judge score, if a judge ran.
    pub judge_score: Option<u32>,
    pub usage: Option<Usage>,
    /// Why the step failed or was skipped.
    pub error: Option<String>,
}

/// The mathematical form of a [`StepResult`].
#[verifier::ext_equal]
pub struct StepResultView {
    pub id: Seq<char>,
    pub status: StepStatus,
    pub attempts: u8,
    pub exit_code: Option<i32>,
    pub outputs: Seq<(Seq<char>, ValueView)>,
    pub gates: Seq<(Seq<char>, bool)>,
    pub judge_score: Option<u32>,
    pub usage: Option<Usage>,
    pub error: Option<Seq<char>>,
}

impl View for StepResult {
    type V = StepResultView;

    open spec fn view(&self) -> StepResultView {
        StepResultView {
            id: self.id@,
            status: self.status,
            attempts: self.attempts,
            exit_code: self.exit_code,
            outputs: self.outputs@,
            gates: self.gates@,
            judge_score: self.judge_score,
            usage: self.usage,
            error: opt_text(self.error),
        }
    }
}

/// The summary of a run.
#[derive(Debug)]
pub struct RunSummary {
    pub run_id: RunId,
    pub workflow: WorkflowId,
    pub status: RunStatus,
    /// Per-step results.
    pub steps: Vec<StepResult>,
    /// Usage of all provider and judge invocations.
    pub usage: Usage,
    pub side_effects: Vec<SideEffect>,
    /// The captured git diff, if any.
    pub diff: Option<String>,
    /// Why the run failed; set exactly when it did.
    pub error: Option<String>,
    pub started_at: Timestamp,
    /// When the run finished, if it has.
    pub finished_at: Option<Timestamp>,
}

/// The mathematical form of a [`RunSummary`].
#[verifier::ext_equal]
pub struct RunSummaryView {
    pub run_id: RunId,
    pub workflow: Seq<char>,
    pub status: RunStatus,
    pub steps: Seq<StepResultView>,
    pub usage: Usage,
    pub side_effects: Seq<SideEffectView>,
    pub diff: Option<Seq<char>>,
    pub error: Option<Seq<char>>,
    pub started_at: Timestamp,
    pub finished_at: Option<Timestamp>,
}

impl View for RunSummary {
    type V = RunSummaryView;

    open spec fn view(&self) -> RunSummaryView {
        RunSummaryView {
            run_id: self.run_id,
            workflow: self.workflow@,
            status: self.status,
            steps: views(self.steps@),
            usage: self.usage,
            side_effects: views(self.side_effects@),
            diff: opt_text(self.diff),
            error: opt_text(self.error),
            started_at: self.started_at,
            finished_at: self.finished_at,
        }
    }
}

// ---------------------------------------------------------------------------------------------
// Decisions
// ---------------------------------------------------------------------------------------------
/// A human decision on an approval gate.
#[derive(Clone, Copy, Debug, PartialEq, Eq, Structural)]
pub enum Decision {
    Approved,
    Rejected,
}

/// A recorded decision.
#[derive(Debug)]
pub struct ApprovalDecision {
    pub decision: Decision,
    /// Who decided.
    pub approver: String,
    pub at: Timestamp,
    /// The note that came with it.
    pub note: Option<String>,
}

/// The mathematical form of an [`ApprovalDecision`].
#[verifier::ext_equal]
pub struct ApprovalDecisionView {
    pub decision: Decision,
    pub approver: Seq<char>,
    pub at: Timestamp,
    pub note: Option<Seq<char>>,
}

impl View for ApprovalDecision {
    type V = ApprovalDecisionView;

    open spec fn view(&self) -> ApprovalDecisionView {
        ApprovalDecisionView {
            decision: self.decision,
            approver: self.approver@,
            at: self.at,
            note: opt_text(self.note),
        }
    }
}

impl Replicate for ApprovalDecision {
    fn replicate(&self) -> (r: Self) {
        ApprovalDecision {
            decision: self.decision,
            approver: self.approver.clone(),
            at: self.at,
            note: self.note.clone(),
        }
    }
}

/// What rejecting a gate and running again gave: both summaries.
#[derive(Debug)]
pub struct RerunOutcome {
    pub rejected: RunSummary,
    pub rerun: RunSummary,
}

/// Which statuses end a run, and which end a step.
pub proof fn an_ended_status_is_one_of_three(run: RunStatus, step: StepStatus)
    ensures
        run.terminal() == (run != RunStatus::Pending && run != RunStatus::Running && run
            != RunStatus::AwaitingApproval),
        step.terminal() == (step != StepStatus::Pending && step != StepStatus::Running && step
            != StepStatus::AwaitingApproval),
{
}

/// Usage adds up field by field, in any order, and stays at the most that can be counted.
pub proof fn usage_adds_up(a: Usage, b: Usage)
    ensures
        usage_sum(a, b) == usage_sum(b, a),
        usage_sum(a, no_usage()) == a,
        a.input_tokens + b.input_tokens <= u64::MAX ==> usage_sum(a, b).input_tokens
            == a.input_tokens + b.input_tokens,
        a.output_tokens + b.output_tokens <= u64::MAX ==> usage_sum(a, b).output_tokens
            == a.output_tokens + b.output_tokens,
        a.cost_micros + b.cost_micros <= u64::MAX ==> usage_sum(a, b).cost_micros == a.cost_micros
            + b.cost_micros,
        usage_sum(a, b).input_tokens >= a.input_tokens && usage_sum(a, b).output_tokens
            >= a.output_tokens && usage_sum(a, b).cost_micros >= a.cost_micros,
        usage_with(a, None) == a,
        usage_with(a, Some(b)) == usage_sum(a, b),
{
}

} // verus!
