//! The scheduler: one pass over a workflow's steps.
//!
//! A pass starts a step once everything it depends on has settled, runs a step that uses the
//! shared workdir alone, lets scratch steps run beside each other up to the workflow's limit,
//! resolves approval gates from recorded decisions, and pauses at an undecided one. The pass
//! decides; whoever drives it executes the steps it launches and hands their outcomes back.

use super::context::{build_ctx, context_roots};
use super::feedback::{effective_timeout, timeout_of};
use super::state::{
    bare_state, blank_outcome, blocked_outcome, decide_gate, decided_outcome, result_of, state_of,
    step_result, OutcomeView, RunState, RunStateView, StepOutcome, StepState, StepStateView,
};
use crate::api::{
    extend_effects, no_usage, usage_with, SideEffect, SideEffectView, StepResult, StepResultView,
    StepStatus, RunStatus, Usage,
};
use crate::context::render::Context;
use crate::ir::step::{Step, StepKind};
use crate::ir::workflow::{parallel_limit, Workflow};
use crate::json::{Value, ValueView};
use crate::names::{
    has_key, lemma_without_name, lookup, put, views, with_name, without_name, NameSet, OrderedMap,
    Replicate,
};
use crate::text::opt_text;
use crate::time::{Duration, Timestamp};
use crate::validate::graph::{
    ints, is_greedy_order, is_run_order, lemma_order_in_range, lemma_with_name,
    order_respects_dependencies, run_order,
};
use vstd::prelude::*;

verus! {

// ---------------------------------------------------------------------------------------------
// The state of a pass
// ---------------------------------------------------------------------------------------------
/// One pass over a workflow's steps.
#[derive(Debug)]
pub struct Pass {
    /// Step positions in the order they are considered.
    order: Vec<usize>,
    /// The most steps in flight at once.
    limit: usize,
    /// Steps in a terminal status.
    settled: NameSet,
    /// Steps that were started or had settled before.
    started: NameSet,
    /// Steps launched whose outcome is not in yet.
    in_flight: NameSet,
    /// Whether the step in flight uses the shared workdir.
    exclusive_running: bool,
    /// The undecided gate the pass stopped at.
    suspended: Option<String>,
    /// Side effects so far.
    side_effects: Vec<SideEffect>,
    /// Usage so far.
    usage: Usage,
    /// The captured diff so far.
    diff: Option<String>,
    /// Whether a commit ended the taking of snapshots.
    disengaged: bool,
}

/// The mathematical form of a [`Pass`].
#[verifier::ext_equal]
pub struct PassView {
    pub order: Seq<usize>,
    pub limit: usize,
    pub settled: Seq<Seq<char>>,
    pub started: Seq<Seq<char>>,
    pub in_flight: Seq<Seq<char>>,
    pub exclusive: bool,
    pub suspended: Option<Seq<char>>,
    pub side_effects: Seq<SideEffectView>,
    pub usage: Usage,
    pub diff: Option<Seq<char>>,
    pub disengaged: bool,
}

impl View for Pass {
    type V = PassView;

    closed spec fn view(&self) -> PassView {
        PassView {
            order: self.order@,
            limit: self.limit,
            settled: self.settled@,
            started: self.started@,
            in_flight: self.in_flight@,
            exclusive: self.exclusive_running,
            suspended: opt_text(self.suspended),
            side_effects: views(self.side_effects@),
            usage: self.usage,
            diff: opt_text(self.diff),
            disengaged: self.disengaged,
        }
    }
}

/// The steps of a run that have settled, in the order they were recorded.
pub open spec fn settled_names(steps: Seq<(Seq<char>, StepStateView)>) -> Seq<Seq<char>>
    decreases steps.len(),
{
    if steps.len() == 0 {
        Seq::empty()
    } else if steps.last().1.status.terminal() {
        with_name(settled_names(steps.drop_last()), steps.last().0)
    } else {
        settled_names(steps.drop_last())
    }
}

/// The side effects of the steps of a run that have settled.
pub open spec fn settled_effects(steps: Seq<(Seq<char>, StepStateView)>) -> Seq<SideEffectView>
    decreases steps.len(),
{
    if steps.len() == 0 {
        Seq::empty()
    } else if steps.last().1.status.terminal() {
        settled_effects(steps.drop_last()) + steps.last().1.side_effects
    } else {
        settled_effects(steps.drop_last())
    }
}

/// What a pass starts from: the steps a run has already settled, their side effects, and the
/// captured diff. Everything else is to do.
pub open spec fn initial_pass(
    order: Seq<usize>,
    limit: usize,
    steps: Seq<(Seq<char>, StepStateView)>,
    artifacts: Seq<(Seq<char>, Seq<char>)>,
) -> PassView {
    PassView {
        order,
        limit,
        settled: settled_names(steps),
        started: settled_names(steps),
        in_flight: Seq::empty(),
        exclusive: false,
        suspended: None,
        side_effects: settled_effects(steps),
        usage: no_usage(),
        diff: lookup(artifacts, "DIFF"@),
        disengaged: false,
    }
}

// ---------------------------------------------------------------------------------------------
// Which step comes next
// ---------------------------------------------------------------------------------------------
/// Whether the pass may launch anything at all: a slot is free, no step holds the shared workdir,
/// no gate stopped the pass, and nobody cancelled it.
pub open spec fn may_launch(p: PassView, cancelled: bool) -> bool {
    p.in_flight.len() < p.limit && !p.exclusive && p.suspended is None && !cancelled
}

/// Whether everything a step depends on has settled.
pub open spec fn deps_settled(settled: Seq<Seq<char>>, s: Step) -> bool {
    forall|j: int|
        0 <= j < s.depends_on@.len() ==> settled.contains((#[trigger] s.depends_on@[j])@)
}

/// Whether a step can be launched: not started, everything it depends on settled, and, unless it
/// runs in a workdir of its own, nothing else in flight.
pub open spec fn launchable(p: PassView, s: Step) -> bool {
    !p.started.contains(s.id@) && deps_settled(p.settled, s) && (s.scratch || p.in_flight.len()
        == 0)
}

/// Whether `i` is the position of the first step, in the pass's order, that can be launched.
pub open spec fn is_first_launchable(steps: Seq<Step>, p: PassView, i: int) -> bool {
    exists|k: int|
        0 <= k < p.order.len() && #[trigger] p.order[k] == i && launchable(p, steps[i]) && (
        forall|j: int| 0 <= j < k ==> !launchable(p, steps[(#[trigger] p.order[j]) as int]))
}

/// Whether every step that `s` depends on passed.
pub open spec fn deps_passed(states: Seq<(Seq<char>, StepStateView)>, s: Step) -> bool {
    forall|j: int|
        0 <= j < s.depends_on@.len() ==> (lookup(states, (#[trigger] s.depends_on@[j])@) matches Some(
            st,
        ) && st.status == StepStatus::Passed)
}

/// The pass after launching a step.
pub open spec fn launched(p: PassView, id: Seq<char>, exclusive: bool) -> PassView {
    PassView {
        started: with_name(p.started, id),
        in_flight: with_name(p.in_flight, id),
        exclusive,
        ..p
    }
}

/// The pass after stopping at an undecided gate.
pub open spec fn stopped_at(p: PassView, id: Seq<char>) -> PassView {
    PassView { started: with_name(p.started, id), suspended: Some(id), ..p }
}

/// A run with a step marked as running.
pub open spec fn with_running(st: RunStateView, id: Seq<char>, now: Timestamp) -> RunStateView {
    RunStateView {
        steps: put(st.steps, id, bare_state(StepStatus::Running, 1, Seq::empty())),
        updated_at: now,
        ..st
    }
}

/// The outputs of a gate that waits: its message, if it has one.
pub open spec fn waiting_outputs(message: Option<String>) -> Seq<(Seq<char>, ValueView)> {
    match message {
        Some(m) => put(Seq::empty(), "message"@, ValueView::String(m@)),
        None => Seq::empty(),
    }
}

/// A run that waits at a gate.
pub open spec fn with_waiting(
    st: RunStateView,
    id: Seq<char>,
    message: Option<String>,
    now: Timestamp,
) -> RunStateView {
    RunStateView {
        steps: put(
            st.steps,
            id,
            bare_state(StepStatus::AwaitingApproval, 0, waiting_outputs(message)),
        ),
        status: RunStatus::AwaitingApproval,
        updated_at: now,
        ..st
    }
}

/// The outcome of a step that an upstream step keeps from running.
pub open spec fn blocked() -> OutcomeView {
    blank_outcome(StepStatus::Skipped, Some("an upstream dependency did not pass"@))
}

/// What the pass wants done next. Steps are named by their position in the workflow.
#[derive(Debug)]
pub enum Launch {
    /// Nothing can be launched now.
    Nothing,
    /// The step's outcome is known without executing it. `begun` says whether it counts as
    /// started (a decided gate) or not (a blocked step).
    Settle { step: usize, outcome: StepOutcome, begun: bool },
    /// The step is an undecided gate: the pass stops here.
    Await { step: usize },
    /// Drive the step's loop.
    Loop { step: usize },
    /// Execute the step, or skip it when `deps_passed` is false.
    Run { step: usize, deps_passed: bool, ctx: Context, timeout: Option<Duration> },
}

/// The step that is executed, driven or waited for, if one is.
pub open spec fn executes(l: Launch) -> Option<int> {
    match l {
        Launch::Await { step } => Some(step as int),
        Launch::Loop { step } => Some(step as int),
        Launch::Run { step, deps_passed, ctx: _, timeout: _ } => if deps_passed {
            Some(step as int)
        } else {
            None
        },
        _ => None,
    }
}

/// Records a step as running.
pub fn mark_running(state: &mut RunState, id: &str, now: Timestamp)
    ensures
        final(state)@ == with_running(old(state)@, id@, now),
{
    let st = StepState::bare(StepStatus::Running, 1, OrderedMap::new());
    state.steps.insert(id.to_owned(), st);
    state.updated_at = now;
}

/// Records a gate as waiting, with its message, and the run with it.
pub fn mark_awaiting(state: &mut RunState, id: &str, message: &Option<String>, now: Timestamp)
    ensures
        final(state)@ == with_waiting(old(state)@, id@, *message, now),
{
    let mut outputs: OrderedMap<Value> = OrderedMap::new();
    if let Some(m) = message {
        outputs.insert("message".to_owned(), Value::String(m.clone()));
    }
    let st = StepState::bare(StepStatus::AwaitingApproval, 0, outputs);
    state.steps.insert(id.to_owned(), st);
    state.status = RunStatus::AwaitingApproval;
    state.updated_at = now;
}

/// Whether every step that `s` depends on passed.
pub fn dependencies_passed(states: &OrderedMap<StepState>, s: &Step) -> (r: bool)
    ensures
        r == deps_passed(states@, *s),
        r == (forall|j: int|
            0 <= j < s.depends_on@.len() ==> (lookup(
                states@,
                (#[trigger] s.depends_on@[j])@,
            ) matches Some(st) && st.status == StepStatus::Passed)),
{
    let deps = &s.depends_on;
    let mut j: usize = 0;
    while j < deps.len()
        invariant
            j <= deps.len(),
            *deps == s.depends_on,
            forall|k: int|
                0 <= k < j ==> (lookup(states@, (#[trigger] deps@[k])@) matches Some(st)
                    && st.status == StepStatus::Passed),
        decreases deps.len() - j,
    {
        match states.get(deps[j].as_str()) {
            Some(st) => {
                if st.status != StepStatus::Passed {
                    assert(s.depends_on@[j as int] == deps@[j as int]);
                    return false;
                }
            },
            None => {
                assert(s.depends_on@[j as int] == deps@[j as int]);
                return false;
            },
        }
        j += 1;
    }
    true
}

impl Pass {
    /// Starts a pass: what the run has settled stays settled, everything else is to do.
    pub fn begin(wf: &Workflow, state: &RunState) -> (r: Self)
        ensures
            is_run_order(wf.steps@, r@.order),
            r@ == initial_pass(
                r@.order,
                parallel_limit(wf.max_parallel),
                state@.steps,
                state@.artifacts,
            ),
    {
        let order = run_order(&wf.steps);
        let limit = wf.parallelism();
        let mut settled = NameSet::new();
        let mut effects: Vec<SideEffect> = Vec::new();
        let n = state.steps.len();
        let mut i: usize = 0;
        assert(views(effects@) =~= Seq::<SideEffectView>::empty());
        while i < n
            invariant
                i <= n,
                n == state.steps@.len(),
                settled@ == settled_names(state.steps@.take(i as int)),
                views(effects@) == settled_effects(state.steps@.take(i as int)),
            decreases n - i,
        {
            assert(state.steps@.take(i + 1).drop_last() =~= state.steps@.take(i as int));
            let st = state.steps.value_at(i);
            if st.status.is_terminal() {
                let id = state.steps.key_at(i).clone();
                let _ = settled.insert(id);
                extend_effects(&mut effects, &st.side_effects);
            }
            i += 1;
        }
        assert(state.steps@.take(n as int) =~= state.steps@);
        let diff = match state.artifacts.get("DIFF") {
            Some(d) => Some(d.clone()),
            None => None,
        };
        let started = settled.replicate();
        let in_flight = NameSet::new();
        Pass {
            order,
            limit,
            settled,
            started,
            in_flight,
            exclusive_running: false,
            suspended: None,
            side_effects: effects,
            usage: Usage::default(),
            diff,
            disengaged: false,
        }
    }

    /// Whether nothing is in flight.
    pub fn is_idle(&self) -> (r: bool)
        ensures
            r == (self@.in_flight.len() == 0),
    {
        self.in_flight.len() == 0
    }

    /// The captured diff so far.
    pub fn diff(&self) -> (r: &Option<String>)
        ensures
            opt_text(*r) == self@.diff,
    {
        &self.diff
    }

    fn can_launch(&self, s: &Step) -> (r: bool)
        ensures
            r == launchable(self@, *s),
    {
        if self.started.contains(s.id.as_str()) {
            return false;
        }
        let deps = &s.depends_on;
        let mut j: usize = 0;
        while j < deps.len()
            invariant
                j <= deps.len(),
                *deps == s.depends_on,
                forall|k: int| 0 <= k < j ==> self@.settled.contains((#[trigger] deps@[k])@),
            decreases deps.len() - j,
        {
            if !self.settled.contains(deps[j].as_str()) {
                assert(!self@.settled.contains(s.depends_on@[j as int]@));
                return false;
            }
            j += 1;
        }
        s.scratch || self.in_flight.len() == 0
    }

    fn first_launchable(&self, steps: &Vec<Step>) -> (r: Option<usize>)
        requires
            forall|k: int| 0 <= k < self@.order.len() ==> #[trigger] self@.order[k] < steps@.len(),
        ensures
            match r {
                Some(i) => i < steps@.len() && is_first_launchable(steps@, self@, i as int),
                None => forall|k: int|
                    0 <= k < self@.order.len() ==> !launchable(
                        self@,
                        steps@[(#[trigger] self@.order[k]) as int],
                    ),
            },
    {
        let mut k: usize = 0;
        while k < self.order.len()
            invariant
                k <= self.order.len(),
                self.order@ == self@.order,
                forall|j: int|
                    0 <= j < self@.order.len() ==> #[trigger] self@.order[j] < steps@.len(),
                forall|j: int|
                    0 <= j < k ==> !launchable(self@, steps@[(#[trigger] self@.order[j]) as int]),
            decreases self.order.len() - k,
        {
            let i = self.order[k];
            assert(self@.order[k as int] == i);
            if self.can_launch(&steps[i]) {
                return Some(i);
            }
            k += 1;
        }
        None
    }

    /// Launches the next step, if one can be launched: marks it, records it in the run, and says
    /// what to do with it.
    pub fn next(
        &mut self,
        wf: &Workflow,
        state: &mut RunState,
        params: &OrderedMap<Value>,
        cancelled: bool,
        now: Timestamp,
    ) -> (r: Launch)
        requires
            is_run_order(wf.steps@, old(self)@.order),
        ensures
            executes(r) matches Some(i) ==> forall|j: int|
                0 <= j < wf.steps@[i].depends_on@.len() ==> (lookup(
                    old(state)@.steps,
                    (#[trigger] wf.steps@[i].depends_on@[j])@,
                ) matches Some(d) && d.status == StepStatus::Passed),
            ({
                let p = old(self)@;
                let st = old(state)@;
                let q = final(self)@;
                let after = final(state)@;
                match r {
                    Launch::Nothing => {
                        &&& q == p
                        &&& after == st
                        &&& !may_launch(p, cancelled) || forall|k: int|
                            0 <= k < p.order.len() ==> !launchable(
                                p,
                                wf.steps@[(#[trigger] p.order[k]) as int],
                            )
                    },
                    Launch::Settle { step, outcome, begun } => {
                        let s = wf.steps@[step as int];
                        &&& step < wf.steps@.len()
                        &&& may_launch(p, cancelled)
                        &&& is_first_launchable(wf.steps@, p, step as int)
                        &&& s.kind is Approval || s.kind is Loop
                        &&& q == launched(p, s.id@, false)
                        &&& after == st
                        &&& if !deps_passed(st.steps, s) {
                            !begun && outcome@ == blocked()
                        } else {
                            begun && s.kind is Approval && (lookup(
                                st.approvals,
                                s.id@,
                            ) matches Some(d) && outcome@ == decided_outcome(d))
                        }
                    },
                    Launch::Await { step } => {
                        let s = wf.steps@[step as int];
                        &&& step < wf.steps@.len()
                        &&& may_launch(p, cancelled)
                        &&& is_first_launchable(wf.steps@, p, step as int)
                        &&& s.kind is Approval
                        &&& deps_passed(st.steps, s)
                        &&& lookup(st.approvals, s.id@) is None
                        &&& q == stopped_at(p, s.id@)
                        &&& after == with_waiting(st, s.id@, s.kind->Approval_0.message, now)
                    },
                    Launch::Loop { step } => {
                        let s = wf.steps@[step as int];
                        &&& step < wf.steps@.len()
                        &&& may_launch(p, cancelled)
                        &&& is_first_launchable(wf.steps@, p, step as int)
                        &&& s.kind is Loop
                        &&& deps_passed(st.steps, s)
                        &&& q == launched(p, s.id@, false)
                        &&& after == with_running(st, s.id@, now)
                    },
                    Launch::Run { step, deps_passed: passed, ctx, timeout } => {
                        let s = wf.steps@[step as int];
                        &&& step < wf.steps@.len()
                        &&& may_launch(p, cancelled)
                        &&& is_first_launchable(wf.steps@, p, step as int)
                        &&& !(s.kind is Approval) && !(s.kind is Loop)
                        &&& passed == deps_passed(st.steps, s)
                        &&& timeout == timeout_of(s, wf.defaults)
                        &&& ctx@ == context_roots(
                            params@,
                            st.input.trigger_payload,
                            st.steps,
                            p.diff,
                            st.run_id,
                            wf.name@,
                            1,
                            Seq::empty(),
                        )
                        &&& q == launched(p, s.id@, !s.scratch)
                        &&& after == with_running(st, s.id@, now)
                    },
                }
            }),
    {
        proof {
            assert(wf.steps@.len() == wf.steps.len());
            lemma_order_in_range(wf.steps@, self@.order);
        }
        if cancelled || self.in_flight.len() >= self.limit || self.exclusive_running
            || self.suspended.is_some() {
            return Launch::Nothing;
        }
        let step = match self.first_launchable(&wf.steps) {
            Some(i) => i,
            None => {
                return Launch::Nothing;
            },
        };
        let s = &wf.steps[step];
        let id = s.id.to_string();
        let passed = dependencies_passed(&state.steps, s);
        match &s.kind {
            StepKind::Approval(gate) => {
                if !passed {
                    let _ = self.started.insert(id.clone());
                    let _ = self.in_flight.insert(id);
                    return Launch::Settle { step, outcome: blocked_outcome(), begun: false };
                }
                match state.approvals.get(&id) {
                    Some(d) => {
                        let outcome = decide_gate(d);
                        let _ = self.started.insert(id.clone());
                        let _ = self.in_flight.insert(id);
                        Launch::Settle { step, outcome, begun: true }
                    },
                    None => {
                        mark_awaiting(state, &id, &gate.message, now);
                        let _ = self.started.insert(id.clone());
                        self.suspended = Some(id);
                        Launch::Await { step }
                    },
                }
            },
            StepKind::Loop(_) => {
                let _ = self.started.insert(id.clone());
                let _ = self.in_flight.insert(id.clone());
                if passed {
                    mark_running(state, &id, now);
                    Launch::Loop { step }
                } else {
                    Launch::Settle { step, outcome: blocked_outcome(), begun: false }
                }
            },
            _ => {
                let timeout = effective_timeout(s, &wf.defaults);
                let ctx = build_ctx(
                    params,
                    &state.input.trigger_payload,
                    &state.steps,
                    &self.diff,
                    state.run_id,
                    wf.name.as_str(),
                );
                mark_running(state, &id, now);
                let _ = self.started.insert(id.clone());
                let _ = self.in_flight.insert(id);
                if !s.scratch {
                    self.exclusive_running = true;
                }
                Launch::Run { step, deps_passed: passed, ctx, timeout }
            },
        }
    }
}

// ---------------------------------------------------------------------------------------------
// What an outcome means
// ---------------------------------------------------------------------------------------------
/// A run with a diff recorded, if one was captured.
pub open spec fn with_diff(st: RunStateView, diff: Option<Seq<char>>) -> RunStateView {
    match diff {
        Some(d) => RunStateView { artifacts: put(st.artifacts, "DIFF"@, d), ..st },
        None => st,
    }
}

/// The commit to take a snapshot on top of: the base, while `HEAD` is still there.
pub open spec fn snapshot_base(
    disengaged: bool,
    base: Option<Seq<char>>,
    head: Option<Seq<char>>,
) -> Option<Seq<char>> {
    if !disengaged && head is Some && head == base {
        base
    } else {
        None
    }
}

/// Whether `HEAD` was ever seen away from the base.
pub open spec fn has_moved(
    disengaged: bool,
    base: Option<Seq<char>>,
    head: Option<Seq<char>>,
) -> bool {
    disengaged || (head is Some && head != base)
}

/// A run with the commit it starts from recorded, unless it has begun or has one.
pub open spec fn with_base(st: RunStateView, head: Option<Seq<char>>) -> RunStateView {
    if st.steps.len() == 0 && st.base_commit is None {
        RunStateView { base_commit: head, ..st }
    } else {
        st
    }
}

/// Whether the workflow's steps with this id run in a workdir of their own.
pub open spec fn is_scratch(steps: Seq<Step>, id: Seq<char>) -> bool {
    exists|i: int| 0 <= i < steps.len() && (#[trigger] steps[i]).id@ == id && steps[i].scratch
}

/// Whether a failure is to be undone: a durable run that is shut down keeps the killed step to be
/// executed again.
pub open spec fn rewinds(durable: bool, shutdown: bool, status: StepStatus) -> bool {
    durable && shutdown && status == StepStatus::Failed
}

/// A step as it was before it was killed: running, with nothing wrong.
pub open spec fn rewound_step(st: StepStateView) -> StepStateView {
    StepStateView { status: StepStatus::Running, error: None, ..st }
}

/// A run with a killed step put back to running.
pub open spec fn rewound(st: RunStateView, id: Seq<char>, now: Timestamp) -> RunStateView {
    RunStateView {
        steps: match lookup(st.steps, id) {
            Some(x) => put(st.steps, id, rewound_step(x)),
            None => st.steps,
        },
        updated_at: now,
        ..st
    }
}

/// The pass without a step in flight.
pub open spec fn landed(p: PassView, id: Seq<char>) -> PassView {
    PassView { in_flight: without_name(p.in_flight, id), exclusive: false, ..p }
}

/// The pass after an outcome is recorded.
pub open spec fn recorded(p: PassView, id: Seq<char>, o: OutcomeView) -> PassView {
    PassView {
        settled: if o.status.terminal() {
            with_name(p.settled, id)
        } else {
            p.settled
        },
        side_effects: p.side_effects + o.side_effects,
        usage: usage_with(p.usage, o.usage),
        ..landed(p, id)
    }
}

/// A run with a step's outcome recorded.
pub open spec fn with_outcome(
    st: RunStateView,
    id: Seq<char>,
    o: OutcomeView,
    now: Timestamp,
) -> RunStateView {
    RunStateView { steps: put(st.steps, id, state_of(o)), updated_at: now, ..st }
}

/// What is left to do after an outcome.
#[derive(Clone, Copy, Debug, PartialEq, Eq, Structural)]
pub enum Settled {
    /// The step was put back to running, to be executed when the run resumes.
    Rewound,
    /// The outcome is recorded. `capture_diff` says whether the shared workdir may have changed.
    Recorded { capture_diff: bool },
}

/// Whether the workflow's steps with this id run in a workdir of their own.
pub fn scratch_step(steps: &Vec<Step>, id: &str) -> (r: bool)
    ensures
        r == is_scratch(steps@, id@),
{
    let mut i: usize = 0;
    while i < steps.len()
        invariant
            i <= steps.len(),
            forall|k: int|
                0 <= k < i ==> !((#[trigger] steps@[k]).id@ == id@ && steps@[k].scratch),
        decreases steps.len() - i,
    {
        if steps[i].scratch && crate::text::text_eq(steps[i].id.as_str(), id) {
            return true;
        }
        i += 1;
    }
    false
}

impl Pass {
    /// Takes in the outcome of a launched step. A durable run that is being shut down gets a
    /// killed step back as running; every other outcome is recorded.
    pub fn settle(
        &mut self,
        wf: &Workflow,
        state: &mut RunState,
        id: &str,
        outcome: &StepOutcome,
        shutdown: bool,
        now: Timestamp,
    ) -> (r: Settled)
        ensures
            if rewinds(wf.durable, shutdown, outcome@.status) {
                &&& r == Settled::Rewound
                &&& final(self)@ == landed(old(self)@, id@)
                &&& final(state)@ == rewound(old(state)@, id@, now)
            } else {
                &&& r == (Settled::Recorded {
                    capture_diff: outcome@.status == StepStatus::Passed && !is_scratch(
                        wf.steps@,
                        id@,
                    ),
                })
                &&& final(self)@ == recorded(old(self)@, id@, outcome@)
                &&& final(state)@ == with_outcome(old(state)@, id@, outcome@, now)
            },
    {
        let _ = self.in_flight.remove(id);
        self.exclusive_running = false;
        if wf.durable && shutdown && outcome.status == StepStatus::Failed {
            let back = match state.steps.get(id) {
                Some(st) => {
                    let mut st = st.replicate();
                    st.status = StepStatus::Running;
                    st.error = None;
                    Some(st)
                },
                None => None,
            };
            if let Some(st) = back {
                state.steps.insert(id.to_owned(), st);
            }
            state.updated_at = now;
            return Settled::Rewound;
        }
        if let Some(u) = outcome.usage {
            self.usage.add(u);
        }
        extend_effects(&mut self.side_effects, &outcome.side_effects);
        state.steps.insert(id.to_owned(), outcome.to_state());
        if outcome.status.is_terminal() {
            let _ = self.settled.insert(id.to_owned());
        }
        state.updated_at = now;
        let scratch = scratch_step(&wf.steps, id);
        Settled::Recorded { capture_diff: outcome.status == StepStatus::Passed && !scratch }
    }

    /// Takes in the diff captured after a step in the shared workdir passed. When none could be
    /// captured, the diff recorded with the run stays.
    pub fn record_diff(&mut self, state: &mut RunState, diff: Option<String>)
        ensures
            final(state)@ == with_diff(old(state)@, opt_text(diff)),
            final(self)@ == (PassView { diff: opt_text(diff), ..old(self)@ }),
            final(state)@ == (match diff {
                Some(d) => RunStateView {
                    artifacts: put(old(state)@.artifacts, "DIFF"@, d@),
                    ..old(state)@
                },
                None => old(state)@,
            }),
    {
        if let Some(d) = &diff {
            state.artifacts.insert("DIFF".to_owned(), d.clone());
        }
        self.diff = diff;
    }

    /// Whether a snapshot is still worth a look at the workdir's `HEAD`.
    pub fn wants_snapshot(&self) -> (r: bool)
        ensures
            r == !self@.disengaged,
    {
        !self.disengaged
    }

    /// Decides, after a step in the shared workdir of a durable run passed, whether to take a
    /// snapshot: only while `HEAD` is still the run's base commit. The commit to take it on top
    /// of, or none. Once `HEAD` was seen to have moved, no further snapshot is taken.
    pub fn plan_snapshot(&mut self, base: &Option<String>, head: &Option<String>) -> (r: Option<
        String,
    >)
        ensures
            opt_text(r) == snapshot_base(old(self)@.disengaged, opt_text(*base), opt_text(*head)),
            final(self)@.disengaged == has_moved(
                old(self)@.disengaged,
                opt_text(*base),
                opt_text(*head),
            ),
            ({
                let b = opt_text(*base);
                let h = opt_text(*head);
                let seen = if old(self)@.disengaged {
                    None
                } else {
                    h
                };
                &&& opt_text(r) == (if seen is Some && seen == b {
                    b
                } else {
                    None
                })
                &&& final(self)@ == (PassView {
                    disengaged: old(self)@.disengaged || (seen is Some && seen != b),
                    ..old(self)@
                })
            }),
    {
        if self.disengaged {
            return None;
        }
        match head {
            None => None,
            Some(h) => {
                if let Some(b) = base {
                    if crate::text::text_eq(h, b) {
                        return Some(b.clone());
                    }
                }
                self.disengaged = true;
                None
            },
        }
    }
}

/// Records the snapshot taken after a shared step of a durable run passed. When none was taken,
/// the run keeps none: an older one would undo that step.
pub fn record_snapshot(state: &mut RunState, taken: Option<String>)
    ensures
        final(state)@ == (RunStateView { snapshot: opt_text(taken), ..old(state)@ }),
{
    state.snapshot = taken;
}

/// The results of settled steps in the given order, each once.
pub open spec fn ordered_results(
    ids: Seq<Seq<char>>,
    settled: Seq<Seq<char>>,
    steps: Seq<(Seq<char>, StepStateView)>,
) -> Seq<StepResultView>
    decreases ids.len(),
{
    if ids.len() == 0 {
        Seq::empty()
    } else {
        let before = ordered_results(ids.drop_last(), settled, steps);
        let id = ids.last();
        if !ids.drop_last().contains(id) && settled.contains(id) && has_key(steps, id) {
            before.push(result_of(id, lookup(steps, id)->0))
        } else {
            before
        }
    }
}

/// The ids of steps in an order of positions.
pub open spec fn ids_in_order(steps: Seq<Step>, order: Seq<usize>) -> Seq<Seq<char>> {
    Seq::new(order.len(), |k: int| steps[order[k] as int].id@)
}

/// What a pass over the steps produced.
#[derive(Debug)]
pub struct ExecResult {
    /// Results of the settled steps, in the pass's order.
    pub steps: Vec<StepResult>,
    pub side_effects: Vec<SideEffect>,
    pub usage: Usage,
    pub diff: Option<String>,
    /// The undecided gate the pass stopped at, if it did.
    pub suspended: Option<String>,
}

/// The mathematical form of an [`ExecResult`].
#[verifier::ext_equal]
pub struct ExecResultView {
    pub steps: Seq<StepResultView>,
    pub side_effects: Seq<SideEffectView>,
    pub usage: Usage,
    pub diff: Option<Seq<char>>,
    pub suspended: Option<Seq<char>>,
}

impl View for ExecResult {
    type V = ExecResultView;

    open spec fn view(&self) -> ExecResultView {
        ExecResultView {
            steps: views(self.steps@),
            side_effects: views(self.side_effects@),
            usage: self.usage,
            diff: opt_text(self.diff),
            suspended: opt_text(self.suspended),
        }
    }
}

/// What a finished pass produced.
pub open spec fn pass_result(
    p: PassView,
    all: Seq<Step>,
    states: Seq<(Seq<char>, StepStateView)>,
) -> ExecResultView {
    ExecResultView {
        steps: ordered_results(ids_in_order(all, p.order), p.settled, states),
        side_effects: p.side_effects,
        usage: p.usage,
        diff: p.diff,
        suspended: p.suspended,
    }
}

impl Pass {
    /// Ends the pass: the results of the settled steps in the pass's order, whatever the order in
    /// which they settled.
    pub fn finish(self, wf: &Workflow, state: &RunState) -> (r: ExecResult)
        requires
            is_run_order(wf.steps@, self@.order),
        ensures
            r@ == pass_result(self@, wf.steps@, state@.steps),
    {
        proof {
            assert(wf.steps@.len() == wf.steps.len());
            lemma_order_in_range(wf.steps@, self@.order);
        }
        let ghost ids = ids_in_order(wf.steps@, self@.order);
        let mut out: Vec<StepResult> = Vec::new();
        let mut seen = NameSet::new();
        let mut k: usize = 0;
        assert(views(out@) =~= Seq::<StepResultView>::empty());
        while k < self.order.len()
            invariant
                k <= self.order.len(),
                self.order@ == self@.order,
                ids == ids_in_order(wf.steps@, self@.order),
                forall|j: int|
                    0 <= j < self@.order.len() ==> #[trigger] self@.order[j] < wf.steps@.len(),
                forall|x: Seq<char>| #[trigger]
                    seen@.contains(x) == ids.take(k as int).contains(x),
                views(out@) == ordered_results(ids.take(k as int), self@.settled, state@.steps),
            decreases self.order.len() - k,
        {
            let ghost upto = ids.take(k + 1);
            assert(upto.drop_last() =~= ids.take(k as int));
            assert(self@.order[k as int] < wf.steps@.len());
            let id = wf.steps[self.order[k]].id.to_string();
            assert(ids[k as int] == id@);
            let ghost idv = id@;
            if !seen.contains(&id) && self.settled.contains(&id) {
                if let Some(st) = state.steps.get(&id) {
                    let ghost was = out@;
                    let x = step_result(&id, st);
                    out.push(x);
                    assert(views(out@) =~= views(was).push(x@));
                }
            }
            let ghost before = seen@;
            let _ = seen.insert(id);
            proof {
                assert forall|x: Seq<char>| #[trigger]
                    seen@.contains(x) == upto.contains(x) by {
                    lemma_with_name(before, idv, x);
                    let was = ids.take(k as int);
                    assert(upto =~= was.push(idv));
                    if was.contains(x) {
                        let j = choose|j: int| 0 <= j < was.len() && was[j] == x;
                        assert(upto[j] == x);
                    }
                    if upto.contains(x) && x != idv {
                        let j = choose|j: int| 0 <= j < upto.len() && upto[j] == x;
                        assert(was[j] == x);
                    }
                    assert(upto[k as int] == idv);
                    assert(before.contains(x) == was.contains(x));
                }
            }
            k += 1;
        }
        assert(ids.take(k as int) =~= ids);
        ExecResult {
            steps: out,
            side_effects: self.side_effects,
            usage: self.usage,
            diff: self.diff,
            suspended: self.suspended,
        }
    }
}

// ---------------------------------------------------------------------------------------------
// The workdir before a pass
// ---------------------------------------------------------------------------------------------
/// Whether any step runs in a workdir of its own.
pub open spec fn any_scratch(steps: Seq<Step>) -> bool {
    exists|i: int| 0 <= i < steps.len() && (#[trigger] steps[i]).scratch
}

/// Whether any step runs in a workdir of its own, so that left-over ones are to be reclaimed.
pub fn has_scratch(steps: &Vec<Step>) -> (r: bool)
    ensures
        r == any_scratch(steps@),
{
    let mut i: usize = 0;
    while i < steps.len()
        invariant
            i <= steps.len(),
            forall|k: int| 0 <= k < i ==> !(#[trigger] steps@[k]).scratch,
        decreases steps.len() - i,
    {
        if steps[i].scratch {
            return true;
        }
        i += 1;
    }
    false
}

/// Records the commit a run starts from, on a fresh run only: a run with any step recorded keeps
/// what it has, since its steps may have moved `HEAD`.
pub fn record_base(state: &mut RunState, head: Option<String>)
    ensures
        final(state)@ == with_base(old(state)@, opt_text(head)),
        final(state)@ == (if old(state)@.steps.len() == 0 && old(state)@.base_commit is None {
            RunStateView { base_commit: opt_text(head), ..old(state)@ }
        } else {
            old(state)@
        }),
{
    if state.steps.is_empty() && state.base_commit.is_none() {
        state.base_commit = head;
    }
}

/// Whether a step that used the shared workdir has passed.
pub open spec fn shared_step_passed(
    all: Seq<Step>,
    steps: Seq<(Seq<char>, StepStateView)>,
) -> bool {
    exists|i: int|
        0 <= i < steps.len() && (#[trigger] steps[i]).1.status == StepStatus::Passed
            && !is_scratch(all, steps[i].0)
}

/// The commit a resumed run's workdir is put back to: nothing for a run that is fresh or not
/// durable, or once `HEAD` is no longer the base commit; else the last snapshot; else, as long as
/// no shared step has passed, the base commit.
pub open spec fn restore_point(
    durable: bool,
    all: Seq<Step>,
    st: RunStateView,
    head: Option<Seq<char>>,
) -> Option<Seq<char>> {
    if !durable || st.steps.len() == 0 || st.base_commit is None || head != st.base_commit {
        None
    } else if st.snapshot is Some {
        st.snapshot
    } else if shared_step_passed(all, st.steps) {
        None
    } else {
        st.base_commit
    }
}

fn any_shared_passed(wf: &Workflow, state: &RunState) -> (r: bool)
    ensures
        r == shared_step_passed(wf.steps@, state@.steps),
{
    let n = state.steps.len();
    let mut i: usize = 0;
    while i < n
        invariant
            i <= n,
            n == state.steps@.len(),
            forall|k: int|
                0 <= k < i ==> !((#[trigger] state.steps@[k]).1.status == StepStatus::Passed
                    && !is_scratch(wf.steps@, state.steps@[k].0)),
        decreases n - i,
    {
        let passed = state.steps.value_at(i).status == StepStatus::Passed;
        if passed && !scratch_step(&wf.steps, state.steps.key_at(i)) {
            assert(state.steps@[i as int].1.status == StepStatus::Passed);
            return true;
        }
        i += 1;
    }
    false
}

/// The commit a resumed run's workdir is put back to before its steps run again.
pub fn restore_target(wf: &Workflow, state: &RunState, head: &Option<String>) -> (r: Option<String>)
    ensures
        opt_text(r) == restore_point(wf.durable, wf.steps@, state@, opt_text(*head)),
{
    if !wf.durable || state.steps.is_empty() {
        return None;
    }
    let base = match &state.base_commit {
        Some(b) => b,
        None => {
            return None;
        },
    };
    match head {
        Some(h) => {
            if !crate::text::text_eq(h, base) {
                return None;
            }
        },
        None => {
            return None;
        },
    }
    match &state.snapshot {
        Some(s) => Some(s.clone()),
        None => if any_shared_passed(wf, state) {
            None
        } else {
            Some(base.clone())
        },
    }
}

// ---------------------------------------------------------------------------------------------
// Laws
// ---------------------------------------------------------------------------------------------
proof fn lemma_ordered_results(
    ids: Seq<Seq<char>>,
    settled: Seq<Seq<char>>,
    steps: Seq<(Seq<char>, StepStateView)>,
    i: int,
)
    requires
        0 <= i < ordered_results(ids, settled, steps).len(),
    ensures
        ({
            let r = ordered_results(ids, settled, steps)[i];
            &&& ids.contains(r.id)
            &&& settled.contains(r.id)
            &&& lookup(steps, r.id) matches Some(st) && r == result_of(r.id, st)
        }),
    decreases ids.len(),
{
    let before = ordered_results(ids.drop_last(), settled, steps);
    if i < before.len() {
        lemma_ordered_results(ids.drop_last(), settled, steps, i);
        let r = before[i];
        let k = choose|k: int| 0 <= k < ids.drop_last().len() && ids.drop_last()[k] == r.id;
        assert(ids[k] == r.id);
    } else {
        assert(ids[ids.len() - 1] == ids.last());
    }
}

proof fn lemma_is_among_results(
    ids: Seq<Seq<char>>,
    settled: Seq<Seq<char>>,
    steps: Seq<(Seq<char>, StepStateView)>,
    id: Seq<char>,
)
    requires
        ids.contains(id),
        settled.contains(id),
        has_key(steps, id),
    ensures
        ordered_results(ids, settled, steps).contains(result_of(id, lookup(steps, id)->0)),
    decreases ids.len(),
{
    let before = ordered_results(ids.drop_last(), settled, steps);
    let want = result_of(id, lookup(steps, id)->0);
    let all = ordered_results(ids, settled, steps);
    if ids.drop_last().contains(id) {
        lemma_is_among_results(ids.drop_last(), settled, steps, id);
        let k = choose|k: int| 0 <= k < before.len() && before[k] == want;
        assert(all[k] == want);
    } else {
        let k = choose|k: int| 0 <= k < ids.len() && ids[k] == id;
        assert(k == ids.len() - 1) by {
            if k < ids.len() - 1 {
                assert(ids.drop_last()[k] == id);
            }
        }
        assert(all.last() == want);
    }
}

/// Each result of a pass is a settled step as the run records it.
pub proof fn results_are_what_is_recorded(
    p: PassView,
    all: Seq<Step>,
    states: Seq<(Seq<char>, StepStateView)>,
    i: int,
)
    requires
        0 <= i < pass_result(p, all, states).steps.len(),
    ensures
        ({
            let r = pass_result(p, all, states).steps[i];
            &&& p.settled.contains(r.id)
            &&& lookup(states, r.id) matches Some(st) && r == result_of(r.id, st)
        }),
{
    lemma_ordered_results(ids_in_order(all, p.order), p.settled, states, i);
}

/// A step that settled and is recorded is among the results of its pass.
pub proof fn no_settled_step_is_left_out(
    p: PassView,
    all: Seq<Step>,
    states: Seq<(Seq<char>, StepStateView)>,
    k: int,
)
    requires
        0 <= k < p.order.len(),
        p.settled.contains(all[p.order[k] as int].id@),
        has_key(states, all[p.order[k] as int].id@),
    ensures
        pass_result(p, all, states).steps.contains(
            result_of(
                all[p.order[k] as int].id@,
                lookup(states, all[p.order[k] as int].id@)->0,
            ),
        ),
{
    let ids = ids_in_order(all, p.order);
    assert(ids[k] == all[p.order[k] as int].id@);
    lemma_is_among_results(ids, p.settled, states, ids[k]);
}

/// What holds of a pass at all times: at most the limit is in flight, a step that uses the shared
/// workdir is in flight alone, and what is in flight was started and has not settled.
pub open spec fn pass_inv(p: PassView) -> bool {
    &&& p.limit >= 1
    &&& p.in_flight.len() <= p.limit
    &&& p.in_flight.no_duplicates()
    &&& p.exclusive ==> p.in_flight.len() == 1
    &&& forall|x: Seq<char>| #[trigger] p.in_flight.contains(x) ==> p.started.contains(x)
        && !p.settled.contains(x)
    &&& forall|x: Seq<char>| #[trigger] p.settled.contains(x) ==> p.started.contains(x)
    &&& p.suspended matches Some(g) ==> p.started.contains(g)
}

/// A fresh pass keeps the rules.
pub proof fn a_fresh_pass_keeps_the_rules(
    order: Seq<usize>,
    limit: usize,
    steps: Seq<(Seq<char>, StepStateView)>,
    artifacts: Seq<(Seq<char>, Seq<char>)>,
)
    requires
        limit >= 1,
    ensures
        pass_inv(initial_pass(order, limit, steps, artifacts)),
{
}

/// Launching keeps the rules: the limit holds, and a step that uses the shared workdir starts
/// only when nothing else is in flight.
pub proof fn launching_keeps_the_rules(p: PassView, s: Step, cancelled: bool, exclusive: bool)
    requires
        pass_inv(p),
        may_launch(p, cancelled),
        launchable(p, s),
        exclusive ==> !s.scratch,
    ensures
        pass_inv(launched(p, s.id@, exclusive)),
        launched(p, s.id@, exclusive).in_flight.len() == p.in_flight.len() + 1,
{
    let id = s.id@;
    let q = launched(p, id, exclusive);
    assert(!p.in_flight.contains(id)) by {
        if p.in_flight.contains(id) {
            assert(p.started.contains(id));
        }
    }
    assert(!p.settled.contains(id)) by {
        if p.settled.contains(id) {
            assert(p.started.contains(id));
        }
    }
    lemma_with_name(p.in_flight, id, id);
    assert forall|x: Seq<char>| #[trigger] q.in_flight.contains(x) implies q.started.contains(x)
        && !q.settled.contains(x) by {
        lemma_with_name(p.in_flight, id, x);
        lemma_with_name(p.started, id, x);
        if x != id {
            assert(p.in_flight.contains(x));
        }
    }
    assert forall|x: Seq<char>| #[trigger] q.settled.contains(x) implies q.started.contains(x) by {
        lemma_with_name(p.started, id, x);
        assert(p.settled.contains(x));
    }
}

/// Stopping at a gate keeps the rules.
pub proof fn stopping_keeps_the_rules(p: PassView, id: Seq<char>)
    requires
        pass_inv(p),
    ensures
        pass_inv(stopped_at(p, id)),
{
    let q = stopped_at(p, id);
    assert forall|x: Seq<char>| #[trigger] q.in_flight.contains(x) implies q.started.contains(x)
        && !q.settled.contains(x) by {
        lemma_with_name(p.started, id, x);
        assert(p.in_flight.contains(x));
    }
    assert forall|x: Seq<char>| #[trigger] q.settled.contains(x) implies q.started.contains(x) by {
        lemma_with_name(p.started, id, x);
        assert(p.settled.contains(x));
    }
    lemma_with_name(p.started, id, id);
}

/// Taking in an outcome keeps the rules, whether it is recorded or put back.
pub proof fn settling_keeps_the_rules(p: PassView, id: Seq<char>, o: OutcomeView)
    requires
        pass_inv(p),
        p.in_flight.contains(id),
    ensures
        pass_inv(landed(p, id)),
        pass_inv(recorded(p, id, o)),
        recorded(p, id, o).in_flight.len() == p.in_flight.len() - 1,
{
    let q = landed(p, id);
    let r = recorded(p, id, o);
    lemma_without_name(p.in_flight, id, id);
    assert(p.started.contains(id));
    assert forall|x: Seq<char>| #[trigger] q.in_flight.contains(x) implies q.started.contains(x)
        && !q.settled.contains(x) by {
        lemma_without_name(p.in_flight, id, x);
        assert(p.in_flight.contains(x));
    }
    assert forall|x: Seq<char>| #[trigger] r.in_flight.contains(x) implies r.started.contains(x)
        && !r.settled.contains(x) by {
        lemma_without_name(p.in_flight, id, x);
        assert(p.in_flight.contains(x));
        lemma_with_name(p.settled, id, x);
    }
    assert forall|x: Seq<char>| #[trigger] q.settled.contains(x) implies q.started.contains(x) by {
        assert(p.settled.contains(x));
    }
    assert forall|x: Seq<char>| #[trigger] r.settled.contains(x) implies r.started.contains(x) by {
        lemma_with_name(p.settled, id, x);
        if x != id {
            assert(p.settled.contains(x));
        }
    }
}

/// No step is launched twice in a pass: what was started stays started, and a started step is
/// never launchable.
pub proof fn no_step_is_launched_twice(p: PassView, s: Step, t: Step, exclusive: bool)
    requires
        p.started.contains(s.id@),
    ensures
        !launchable(p, s),
        launched(p, t.id@, exclusive).started.contains(s.id@),
        stopped_at(p, t.id@).started.contains(s.id@),
        !launchable(launched(p, t.id@, exclusive), t),
{
    lemma_with_name(p.started, t.id@, s.id@);
    lemma_with_name(p.started, t.id@, t.id@);
}

proof fn lemma_settled_names(steps: Seq<(Seq<char>, StepStateView)>, i: int)
    requires
        0 <= i < steps.len(),
        steps[i].1.status.terminal(),
    ensures
        settled_names(steps).contains(steps[i].0),
    decreases steps.len(),
{
    let before = steps.drop_last();
    if i < steps.len() - 1 {
        lemma_settled_names(before, i);
        assert(before[i] == steps[i]);
    }
    lemma_with_name(settled_names(before), steps.last().0, steps[i].0);
}

/// A resumed run never launches a step that had settled, failed ones included.
pub proof fn a_settled_step_is_not_run_again(
    order: Seq<usize>,
    limit: usize,
    steps: Seq<(Seq<char>, StepStateView)>,
    artifacts: Seq<(Seq<char>, Seq<char>)>,
    i: int,
    s: Step,
)
    requires
        0 <= i < steps.len(),
        steps[i].1.status.terminal(),
        s.id@ == steps[i].0,
    ensures
        !launchable(initial_pass(order, limit, steps, artifacts), s),
{
    lemma_settled_names(steps, i);
}

proof fn lemma_is_settled(steps: Seq<(Seq<char>, StepStateView)>, id: Seq<char>)
    requires
        settled_names(steps).contains(id),
    ensures
        exists|i: int|
            0 <= i < steps.len() && (#[trigger] steps[i]).0 == id && steps[i].1.status.terminal(),
    decreases steps.len(),
{
    let before = steps.drop_last();
    let last = steps.last();
    if last.1.status.terminal() {
        lemma_with_name(settled_names(before), last.0, id);
    }
    if last.1.status.terminal() && last.0 == id {
        assert(steps[steps.len() - 1].0 == id);
    } else {
        lemma_is_settled(before, id);
        let i = choose|i: int|
            0 <= i < before.len() && (#[trigger] before[i]).0 == id && before[i].1.status.terminal();
        assert(steps[i] == before[i]);
    }
}

/// A resumed run executes every step that had not settled: one that was interrupted, like one
/// that was never started, can be launched as soon as what it depends on has settled.
pub proof fn an_unsettled_step_is_run_again(
    order: Seq<usize>,
    limit: usize,
    steps: Seq<(Seq<char>, StepStateView)>,
    artifacts: Seq<(Seq<char>, Seq<char>)>,
    s: Step,
)
    requires
        crate::names::unique_keys(steps),
        lookup(steps, s.id@) matches Some(st) ==> !st.status.terminal(),
        deps_settled(settled_names(steps), s),
    ensures
        launchable(initial_pass(order, limit, steps, artifacts), s),
{
    if settled_names(steps).contains(s.id@) {
        lemma_is_settled(steps, s.id@);
        let i = choose|i: int|
            0 <= i < steps.len() && (#[trigger] steps[i]).0 == s.id@ && steps[i].1.status.terminal();
        assert(has_key(steps, s.id@));
        assert(steps[crate::names::key_pos(steps, s.id@)].0 == steps[i].0);
    }
}

/// Whether the run records a step as passed.
pub open spec fn is_recorded_passed(states: Seq<(Seq<char>, StepStateView)>, id: Seq<char>) -> bool {
    exists|i: int|
        0 <= i < states.len() && (#[trigger] states[i]).0 == id && states[i].1.status
            == StepStatus::Passed
}

proof fn lemma_recorded_passed(states: Seq<(Seq<char>, StepStateView)>, id: Seq<char>)
    requires
        crate::names::unique_keys(states),
    ensures
        is_recorded_passed(states, id) == (lookup(states, id) matches Some(st) && st.status
            == StepStatus::Passed),
{
    if is_recorded_passed(states, id) {
        let i = choose|i: int|
            0 <= i < states.len() && (#[trigger] states[i]).0 == id && states[i].1.status
                == StepStatus::Passed;
        assert(has_key(states, id));
        assert(states[crate::names::key_pos(states, id)].0 == states[i].0);
    }
    if has_key(states, id) {
        assert(states[crate::names::key_pos(states, id)].0 == id);
    }
}

/// A single dependency that is not recorded, or not recorded as passed, keeps a step from being
/// executed.
pub proof fn one_unmet_dependency_is_enough(
    states: Seq<(Seq<char>, StepStateView)>,
    s: Step,
    j: int,
)
    requires
        crate::names::unique_keys(states),
        0 <= j < s.depends_on@.len(),
        forall|i: int|
            0 <= i < states.len() && (#[trigger] states[i]).0 == s.depends_on@[j]@
                ==> states[i].1.status != StepStatus::Passed,
    ensures
        !deps_passed(states, s),
{
    lemma_recorded_passed(states, s.depends_on@[j]@);
}

/// A step whose dependencies are all recorded as passed is executed, one without dependencies
/// among them.
pub proof fn met_dependencies_release_a_step(states: Seq<(Seq<char>, StepStateView)>, s: Step)
    requires
        crate::names::unique_keys(states),
        forall|j: int|
            0 <= j < s.depends_on@.len() ==> exists|i: int|
                0 <= i < states.len() && (#[trigger] states[i]).0 == (
                #[trigger] s.depends_on@[j])@ && states[i].1.status == StepStatus::Passed,
    ensures
        deps_passed(states, s),
{
    assert forall|j: int| 0 <= j < s.depends_on@.len() implies (lookup(
        states,
        (#[trigger] s.depends_on@[j])@,
    ) matches Some(st) && st.status == StepStatus::Passed) by {
        assert(is_recorded_passed(states, s.depends_on@[j]@));
        lemma_recorded_passed(states, s.depends_on@[j]@);
    }
}

/// Whether every step that is recorded as passed has each of its dependencies recorded as passed.
pub open spec fn passes_are_earned(all: Seq<Step>, states: Seq<(Seq<char>, StepStateView)>) -> bool {
    forall|i: int, j: int|
        0 <= i < all.len() && 0 <= j < all[i].depends_on@.len() && (lookup(
            states,
            all[i].id@,
        ) matches Some(st) && st.status == StepStatus::Passed) ==> (lookup(
            states,
            (#[trigger] all[i].depends_on@[j])@,
        ) matches Some(d) && d.status == StepStatus::Passed)
}

/// What a step depends on stays passed while other steps settle.
pub proof fn passed_dependencies_stay_passed(
    st: RunStateView,
    s: Step,
    id: Seq<char>,
    o: OutcomeView,
    now: Timestamp,
)
    requires
        crate::names::unique_keys(st.steps),
        deps_passed(st.steps, s),
        lookup(st.steps, id) matches Some(x) ==> x.status != StepStatus::Passed,
    ensures
        deps_passed(with_outcome(st, id, o, now).steps, s),
{
    let after = with_outcome(st, id, o, now).steps;
    assert forall|j: int| 0 <= j < s.depends_on@.len() implies (lookup(
        after,
        (#[trigger] s.depends_on@[j])@,
    ) matches Some(x) && x.status == StepStatus::Passed) by {
        crate::names::lemma_put_get(st.steps, id, state_of(o), s.depends_on@[j]@);
    }
}

/// A step passes only when everything it depends on passed, so a failure keeps everything
/// downstream of it from passing: this holds of a fresh run, and recording an outcome keeps it.
pub proof fn a_failure_stops_what_depends_on_it(
    all: Seq<Step>,
    st: RunStateView,
    k: int,
    o: OutcomeView,
    now: Timestamp,
)
    requires
        crate::names::unique_keys(st.steps),
        passes_are_earned(all, st.steps),
        0 <= k < all.len(),
        forall|i: int| 0 <= i < all.len() && (#[trigger] all[i]).id@ == all[k].id@ ==> i == k,
        lookup(st.steps, all[k].id@) matches Some(x) ==> x.status != StepStatus::Passed,
        o.status == StepStatus::Passed ==> deps_passed(st.steps, all[k]),
    ensures
        passes_are_earned(all, Seq::empty()),
        passes_are_earned(all, with_outcome(st, all[k].id@, o, now).steps),
{
    let id = all[k].id@;
    let after = with_outcome(st, id, o, now).steps;
    assert forall|i: int, j: int|
        0 <= i < all.len() && 0 <= j < all[i].depends_on@.len() && (lookup(
            after,
            all[i].id@,
        ) matches Some(x) && x.status == StepStatus::Passed) implies (lookup(
        after,
        (#[trigger] all[i].depends_on@[j])@,
    ) matches Some(d) && d.status == StepStatus::Passed) by {
        crate::names::lemma_put_get(st.steps, id, state_of(o), all[i].id@);
        crate::names::lemma_put_get(st.steps, id, state_of(o), all[i].depends_on@[j]@);
        if i == k {
            assert(deps_passed(st.steps, all[k]));
        }
        assert(lookup(st.steps, all[i].depends_on@[j]@) matches Some(d) && d.status
            == StepStatus::Passed);
    }
}

/// A step waits for everything it depends on: none is launched before all of it has settled.
pub proof fn a_step_waits_for_its_dependencies(steps: Seq<Step>, p: PassView, i: int, j: int)
    requires
        is_first_launchable(steps, p, i),
        0 <= j < steps[i].depends_on@.len(),
    ensures
        p.settled.contains(steps[i].depends_on@[j]@),
{
}

/// Whether every started step is in flight or has settled: true of a pass until a shutdown puts a
/// step back or the pass stops at a gate.
pub open spec fn accounted(p: PassView) -> bool {
    forall|x: Seq<char>| #[trigger]
        p.started.contains(x) ==> p.settled.contains(x) || p.in_flight.contains(x)
}

/// Starting a pass, launching a step and recording how a step settled lose no step: what was
/// started is in flight or has settled.
pub proof fn no_started_step_is_lost(
    p: PassView,
    order: Seq<usize>,
    limit: usize,
    steps: Seq<(Seq<char>, StepStateView)>,
    artifacts: Seq<(Seq<char>, Seq<char>)>,
    id: Seq<char>,
    exclusive: bool,
    o: OutcomeView,
)
    requires
        pass_inv(p),
        accounted(p),
        o.status.terminal(),
    ensures
        accounted(initial_pass(order, limit, steps, artifacts)),
        accounted(launched(p, id, exclusive)),
        accounted(recorded(p, id, o)),
{
    let q = launched(p, id, exclusive);
    assert forall|x: Seq<char>| #[trigger] q.started.contains(x) implies q.settled.contains(x)
        || q.in_flight.contains(x) by {
        lemma_with_name(p.started, id, x);
        lemma_with_name(p.in_flight, id, x);
    }
    let r = recorded(p, id, o);
    assert forall|x: Seq<char>| #[trigger] r.started.contains(x) implies r.settled.contains(x)
        || r.in_flight.contains(x) by {
        lemma_with_name(p.settled, id, x);
        lemma_without_name(p.in_flight, id, x);
        assert(p.started.contains(x));
    }
}

/// Whether a step has the id `id`.
pub open spec fn has_step(steps: Seq<Step>, id: Seq<char>) -> bool {
    exists|k: int| 0 <= k < steps.len() && (#[trigger] steps[k]).id@ == id
}

/// Every step up to a position of the order has settled.
proof fn lemma_settled_up_to(steps: Seq<Step>, p: PassView, n: int)
    requires
        accounted(p),
        p.in_flight.len() == 0,
        is_greedy_order(steps, ints(p.order)),
        forall|i: int, j: int|
            0 <= i < steps.len() && 0 <= j < steps[i].depends_on@.len() ==> has_step(
                steps,
                (#[trigger] steps[i].depends_on@[j])@,
            ),
        forall|k: int|
            0 <= k < p.order.len() ==> !launchable(p, steps[(#[trigger] p.order[k]) as int]),
        0 <= n <= p.order.len(),
    ensures
        forall|k: int|
            0 <= k < n ==> p.settled.contains(steps[(#[trigger] p.order[k]) as int].id@),
    decreases n,
{
    if n > 0 {
        lemma_settled_up_to(steps, p, n - 1);
        let order = ints(p.order);
        order_respects_dependencies(steps, order);
        assert(order[n - 1] == p.order[n - 1]);
        let s = steps[order[n - 1]];
        assert forall|j: int| 0 <= j < s.depends_on@.len() implies p.settled.contains(
            (#[trigger] s.depends_on@[j])@,
        ) by {
            assert(has_step(steps, steps[order[n - 1]].depends_on@[j]@));
            let k = choose|k: int|
                0 <= k < steps.len() && (#[trigger] steps[k]).id@ == s.depends_on@[j]@;
            let before = order.take(n - 1);
            assert(before.contains(k));
            let at = choose|at: int| 0 <= at < before.len() && before[at] == k;
            assert(p.order[at] == k);
        }
        assert(deps_settled(p.settled, s));
        assert(!launchable(p, steps[p.order[n - 1] as int]));
        assert(p.started.contains(s.id@));
    }
}

/// When nothing is in flight and nothing can be launched, every step has settled: a pass over a
/// workflow whose dependencies all exist and form no cycle leaves no step behind.
pub proof fn a_finished_pass_settled_every_step(steps: Seq<Step>, p: PassView, i: int)
    requires
        accounted(p),
        p.in_flight.len() == 0,
        p.order.len() == steps.len(),
        is_greedy_order(steps, ints(p.order)),
        forall|i: int, j: int|
            0 <= i < steps.len() && 0 <= j < steps[i].depends_on@.len() ==> has_step(
                steps,
                (#[trigger] steps[i].depends_on@[j])@,
            ),
        forall|k: int|
            0 <= k < p.order.len() ==> !launchable(p, steps[(#[trigger] p.order[k]) as int]),
        0 <= i < steps.len(),
    ensures
        p.settled.contains(steps[i].id@),
{
    let order = ints(p.order);
    let n = steps.len() as int;
    lemma_settled_up_to(steps, p, n);
    order_respects_dependencies(steps, order);
    let all = vstd::set_lib::set_int_range(0, n);
    vstd::set_lib::lemma_int_range(0, n);
    order.unique_seq_to_set();
    assert(order.to_set().subset_of(all));
    vstd::set_lib::lemma_subset_equality(order.to_set(), all);
    assert(order.to_set().contains(i));
    let k = choose|k: int| 0 <= k < order.len() && order[k] == i;
    assert(p.order[k] == i);
}

/// A cancelled pass launches nothing, and neither does one that stopped at a gate.
pub proof fn a_stopped_pass_launches_nothing(p: PassView, cancelled: bool)
    requires
        cancelled || p.suspended is Some,
    ensures
        !may_launch(p, cancelled),
{
}

/// Shutting down a durable run leaves its killed step running and unsettled, so that it is
/// executed again; a cancelled run, or one that is not durable, keeps the failure.
pub proof fn only_a_shutdown_undoes_a_failure(
    p: PassView,
    st: RunStateView,
    id: Seq<char>,
    now: Timestamp,
    durable: bool,
    shutdown: bool,
)
    requires
        crate::names::unique_keys(st.steps),
        has_key(st.steps, id),
        pass_inv(p),
        p.in_flight.contains(id),
    ensures
        rewinds(durable, shutdown, StepStatus::Failed) == (durable && shutdown),
        lookup(rewound(st, id, now).steps, id)->0.status == StepStatus::Running,
        !landed(p, id).settled.contains(id),
        recorded(p, id, blank_outcome(StepStatus::Failed, None)).settled.contains(id),
{
    let x = lookup(st.steps, id)->0;
    crate::names::lemma_put_get(st.steps, id, rewound_step(x), id);
    lemma_with_name(p.settled, id, id);
}

/// A resumed run is never put back past a commit: the workdir is only restored while `HEAD` is
/// the commit the run started from.
pub proof fn restore_never_passes_a_commit(
    durable: bool,
    all: Seq<Step>,
    st: RunStateView,
    head: Option<Seq<char>>,
)
    requires
        restore_point(durable, all, st, head) is Some,
    ensures
        head == st.base_commit,
        st.base_commit is Some,
        durable,
{
}

/// A run without a current snapshot is never put back once a shared step has passed: that step's
/// work is kept.
pub proof fn restore_keeps_completed_work(
    all: Seq<Step>,
    st: RunStateView,
    head: Option<Seq<char>>,
)
    requires
        st.snapshot is None,
        shared_step_passed(all, st.steps),
    ensures
        restore_point(true, all, st, head) is None,
{
}

/// A step can start exactly when fewer run than may, none of them needs the workspace for itself,
/// no approval is waited for, and the run was not cancelled.
pub proof fn room_lets_a_step_start(p: PassView, cancelled: bool)
    ensures
        may_launch(p, cancelled) == (p.in_flight.len() < p.limit && !p.exclusive
            && p.suspended is None && !cancelled),
{
}

/// A step that has not started can start once all it depends on is settled, and one that changes
/// the workspace only when nothing else runs.
pub proof fn a_ready_step_can_start(p: PassView, s: Step)
    requires
        !p.started.contains(s.id@),
    ensures
        launchable(p, s) == ((forall|j: int|
            0 <= j < s.depends_on@.len() ==> p.settled.contains((#[trigger] s.depends_on@[j])@)) && (
        s.scratch || p.in_flight.len() == 0)),
{
}

/// Of the steps that can start, the first in the order does: every step before it has started,
/// waits for a step that is not settled, or needs the workspace for itself while others run.
pub proof fn the_first_in_order_starts(steps: Seq<Step>, p: PassView, i: int, k: int)
    requires
        is_first_launchable(steps, p, i),
        0 <= k < p.order.len(),
        forall|j: int| 0 <= j <= k ==> #[trigger] p.order[j] != i,
    ensures
        ({
            let s = steps[p.order[k] as int];
            ||| p.started.contains(s.id@)
            ||| exists|j: int|
                0 <= j < s.depends_on@.len() && !p.settled.contains(
                    (#[trigger] s.depends_on@[j])@,
                )
            ||| !s.scratch && p.in_flight.len() > 0
        }),
{
    let at = choose|at: int|
        0 <= at < p.order.len() && #[trigger] p.order[at] == i && launchable(p, steps[i]) && (
        forall|j: int| 0 <= j < at ==> !launchable(p, steps[(#[trigger] p.order[j]) as int]));
    assert(k < at);
    assert(!launchable(p, steps[p.order[k] as int]));
}

/// What was settled before is settled when a run is taken up again, and nothing else; the effects
/// of those steps are kept.
pub proof fn a_run_is_taken_up_where_it_stood(
    order: Seq<usize>,
    limit: usize,
    steps: Seq<(Seq<char>, StepStateView)>,
    artifacts: Seq<(Seq<char>, Seq<char>)>,
    id: Seq<char>,
    i: int,
)
    ensures
        ({
            let p = initial_pass(order, limit, steps, artifacts);
            &&& p.settled.contains(id) == exists|k: int|
                0 <= k < steps.len() && (#[trigger] steps[k]).0 == id && (steps[k].1.status
                    == StepStatus::Passed || steps[k].1.status == StepStatus::Failed
                    || steps[k].1.status == StepStatus::Skipped)
            &&& p.started == p.settled
            &&& p.in_flight.len() == 0 && !p.exclusive && p.suspended is None && !p.disengaged
            &&& p.order == order && p.limit == limit
            &&& p.diff == lookup(artifacts, "DIFF"@)
            &&& 0 <= i < steps.len() && (steps[i].1.status == StepStatus::Passed
                || steps[i].1.status == StepStatus::Failed || steps[i].1.status
                == StepStatus::Skipped) ==> forall|e: SideEffectView|
                steps[i].1.side_effects.contains(e) ==> #[trigger] p.side_effects.contains(e)
        }),
    decreases steps.len(),
{
    if steps.len() > 0 {
        let d = steps.drop_last();
        a_run_is_taken_up_where_it_stood(order, limit, d, artifacts, id, i);
        assert(steps[steps.len() - 1] == steps.last());
        assert forall|k: int| 0 <= k < d.len() implies d[k] == #[trigger] steps[k] by {}
        crate::validate::graph::lemma_with_name(settled_names(d), steps.last().0, id);
        let before = settled_effects(d);
        let last = steps.last().1.side_effects;
        let all = settled_effects(steps);
        if 0 <= i < steps.len() && steps[i].1.status.terminal() {
            assert forall|e: SideEffectView| steps[i].1.side_effects.contains(
                e,
            ) implies #[trigger] all.contains(e) by {
                if i < d.len() {
                    assert(d[i] == steps[i]);
                    assert(initial_pass(order, limit, d, artifacts).side_effects.contains(e));
                    let k = choose|k: int| 0 <= k < before.len() && before[k] == e;
                    assert(all[k] == e);
                } else {
                    let k = choose|k: int| 0 <= k < last.len() && last[k] == e;
                    assert(all[before.len() + k] == e);
                }
            }
        }
    }
}

/// A step that starts is recorded as running, and one that waits for approval as waiting, with its
/// message; so is the run. No other step's record changes.
pub proof fn a_start_is_recorded(
    st: RunStateView,
    id: Seq<char>,
    message: Option<String>,
    now: Timestamp,
    other: Seq<char>,
)
    requires
        crate::names::unique_keys(st.steps),
    ensures
        ({
            let r = with_running(st, id, now);
            let w = with_waiting(st, id, message, now);
            &&& lookup(r.steps, id) matches Some(x) && x.status == StepStatus::Running && x.attempts
                == 1 && x.error is None
            &&& r.status == st.status && r.updated_at == now
            &&& lookup(w.steps, id) matches Some(x) && x.status == StepStatus::AwaitingApproval
                && x.attempts == 0 && (message matches Some(m) ==> lookup(x.outputs, "message"@)
                == Some(ValueView::String(m@))) && (message is None ==> x.outputs.len() == 0)
            &&& w.status == RunStatus::AwaitingApproval && w.updated_at == now
            &&& other != id ==> lookup(r.steps, other) == lookup(st.steps, other) && lookup(
                w.steps,
                other,
            ) == lookup(st.steps, other)
        }),
{
    let running = bare_state(StepStatus::Running, 1, Seq::empty());
    let waiting = bare_state(StepStatus::AwaitingApproval, 0, waiting_outputs(message));
    crate::names::lemma_put_get(st.steps, id, running, id);
    crate::names::lemma_put_get(st.steps, id, running, other);
    crate::names::lemma_put_get(st.steps, id, waiting, id);
    crate::names::lemma_put_get(st.steps, id, waiting, other);
    if let Some(m) = message {
        crate::names::lemma_put_get(
            Seq::empty(),
            "message"@,
            ValueView::String(m@),
            "message"@,
        );
    }
}

/// What came of a step is recorded under its id, and no other step's record changes. The step runs
/// no longer, and is settled exactly when it passed, failed or was skipped.
pub proof fn an_outcome_settles_its_step(
    p: PassView,
    st: RunStateView,
    id: Seq<char>,
    o: OutcomeView,
    now: Timestamp,
    other: Seq<char>,
    i: int,
)
    requires
        crate::names::unique_keys(st.steps),
        p.in_flight.no_duplicates(),
    ensures
        ({
            let r = with_outcome(st, id, o, now);
            let q = recorded(p, id, o);
            &&& lookup(r.steps, id) matches Some(x) && x.status == o.status && x.error == o.error
                && x.outputs == o.outputs && x.exit_code == o.exit_code
            &&& other != id ==> lookup(r.steps, other) == lookup(st.steps, other)
            &&& r.status == st.status && r.updated_at == now
            &&& q.settled.contains(other) == (p.settled.contains(other) || (other == id && (o.status
                == StepStatus::Passed || o.status == StepStatus::Failed || o.status
                == StepStatus::Skipped)))
            &&& q.in_flight.contains(other) == (p.in_flight.contains(other) && other != id)
            &&& !q.exclusive
            &&& q.started == p.started && q.suspended == p.suspended
            &&& q.side_effects.len() == p.side_effects.len() + o.side_effects.len()
            &&& 0 <= i < p.side_effects.len() ==> q.side_effects[i] == p.side_effects[i]
            &&& 0 <= i < o.side_effects.len() ==> q.side_effects[p.side_effects.len() + i]
                == o.side_effects[i]
        }),
{
    crate::names::lemma_put_get(st.steps, id, state_of(o), id);
    crate::names::lemma_put_get(st.steps, id, state_of(o), other);
    crate::validate::graph::lemma_with_name(p.settled, id, other);
    lemma_without_name(p.in_flight, id, other);
}

/// Only a failure is undone, in a durable run that is being shut down: the step runs again later,
/// without the error, and no other step's record changes.
pub proof fn an_undone_failure_runs_again(
    st: RunStateView,
    id: Seq<char>,
    now: Timestamp,
    other: Seq<char>,
    durable: bool,
    shutdown: bool,
    status: StepStatus,
)
    requires
        crate::names::unique_keys(st.steps),
    ensures
        rewinds(durable, shutdown, status) == (durable && shutdown && status == StepStatus::Failed),
        lookup(st.steps, id) matches Some(x) ==> (lookup(rewound(st, id, now).steps, id) matches Some(
            y,
        ) && y.status == StepStatus::Running && y.error is None && y.attempts == x.attempts),
        other != id ==> lookup(rewound(st, id, now).steps, other) == lookup(st.steps, other),
        rewound(st, id, now).status == st.status,
{
    if let Some(x) = lookup(st.steps, id) {
        crate::names::lemma_put_get(st.steps, id, rewound_step(x), id);
        crate::names::lemma_put_get(st.steps, id, rewound_step(x), other);
    }
}

/// A durable run that is taken up on the commit it began on goes back to what was last kept of its
/// workspace, or to that commit when nothing was kept and no step that changes it had passed.
/// Anywhere else nothing is brought back.
pub proof fn a_workspace_goes_back_to_what_was_kept(
    durable: bool,
    all: Seq<Step>,
    st: RunStateView,
    head: Option<Seq<char>>,
)
    ensures
        durable && st.steps.len() > 0 && st.base_commit is Some && head == st.base_commit
            && st.snapshot is Some ==> restore_point(durable, all, st, head) == st.snapshot,
        durable && st.steps.len() > 0 && st.base_commit is Some && head == st.base_commit
            && st.snapshot is None && (forall|i: int|
            0 <= i < st.steps.len() && (#[trigger] st.steps[i]).1.status == StepStatus::Passed
                ==> exists|k: int|
                0 <= k < all.len() && (#[trigger] all[k]).id@ == st.steps[i].0 && all[k].scratch)
            ==> restore_point(durable, all, st, head) == st.base_commit,
        !durable || st.steps.len() == 0 || st.base_commit is None || head != st.base_commit
            ==> restore_point(durable, all, st, head) is None,
{
    if st.snapshot is None && (forall|i: int|
        0 <= i < st.steps.len() && (#[trigger] st.steps[i]).1.status == StepStatus::Passed
            ==> exists|k: int|
            0 <= k < all.len() && (#[trigger] all[k]).id@ == st.steps[i].0 && all[k].scratch) {
        assert(!shared_step_passed(all, st.steps));
    }
}

proof fn lemma_results_order(
    ids: Seq<Seq<char>>,
    settled: Seq<Seq<char>>,
    steps: Seq<(Seq<char>, StepStateView)>,
    i: int,
    j: int,
)
    requires
        0 <= i < j < ordered_results(ids, settled, steps).len(),
    ensures
        ordered_results(ids, settled, steps)[i].id != ordered_results(ids, settled, steps)[j].id,
        exists|a: int, b: int|
            0 <= a < b < ids.len() && #[trigger] ids[a] == ordered_results(ids, settled, steps)[i].id
                && #[trigger] ids[b] == ordered_results(ids, settled, steps)[j].id,
    decreases ids.len(),
{
    let d = ids.drop_last();
    let before = ordered_results(d, settled, steps);
    let all = ordered_results(ids, settled, steps);
    if j < before.len() {
        lemma_results_order(d, settled, steps, i, j);
        let (a, b) = choose|a: int, b: int|
            0 <= a < b < d.len() && #[trigger] d[a] == before[i].id && #[trigger] d[b]
                == before[j].id;
        assert(ids[a] == all[i].id && ids[b] == all[j].id);
    } else {
        lemma_result_listed(d, settled, steps, i);
        let a = choose|a: int| 0 <= a < d.len() && d[a] == before[i].id;
        assert(ids[a] == all[i].id && ids[ids.len() - 1] == all[j].id);
    }
}

proof fn lemma_result_listed(
    ids: Seq<Seq<char>>,
    settled: Seq<Seq<char>>,
    steps: Seq<(Seq<char>, StepStateView)>,
    i: int,
)
    requires
        0 <= i < ordered_results(ids, settled, steps).len(),
    ensures
        ids.contains(ordered_results(ids, settled, steps)[i].id),
    decreases ids.len(),
{
    let d = ids.drop_last();
    let before = ordered_results(d, settled, steps);
    if i < before.len() {
        lemma_result_listed(d, settled, steps, i);
        let a = choose|a: int| 0 <= a < d.len() && d[a] == before[i].id;
        assert(ids[a] == before[i].id);
    } else {
        assert(ids[ids.len() - 1] == ids.last());
    }
}

/// Results come in the order in which the steps are gone through, each step once.
pub proof fn results_come_in_order(
    p: PassView,
    all: Seq<Step>,
    states: Seq<(Seq<char>, StepStateView)>,
    i: int,
    j: int,
)
    requires
        0 <= i < j < pass_result(p, all, states).steps.len(),
    ensures
        pass_result(p, all, states).steps[i].id != pass_result(p, all, states).steps[j].id,
        exists|a: int, b: int|
            0 <= a < b < p.order.len() && all[(#[trigger] p.order[a]) as int].id@ == pass_result(
                p,
                all,
                states,
            ).steps[i].id && all[(#[trigger] p.order[b]) as int].id@ == pass_result(
                p,
                all,
                states,
            ).steps[j].id,
{
    let ids = ids_in_order(all, p.order);
    let r = pass_result(p, all, states).steps;
    lemma_results_order(ids, p.settled, states, i, j);
    let (a, b) = choose|a: int, b: int|
        0 <= a < b < ids.len() && #[trigger] ids[a] == r[i].id && #[trigger] ids[b] == r[j].id;
    assert(all[p.order[a] as int].id@ == r[i].id && all[p.order[b] as int].id@ == r[j].id);
}

/// A diff that was captured is recorded with the run, and without one the last stays.
pub proof fn a_captured_diff_is_recorded(st: RunStateView, diff: Seq<char>, other: Seq<char>)
    requires
        crate::names::unique_keys(st.artifacts),
    ensures
        lookup(with_diff(st, Some(diff)).artifacts, "DIFF"@) == Some(diff),
        other != "DIFF"@ ==> lookup(with_diff(st, Some(diff)).artifacts, other) == lookup(
            st.artifacts,
            other,
        ),
        with_diff(st, Some(diff)).steps == st.steps,
        with_diff(st, None) == st,
{
    crate::names::lemma_put_get(st.artifacts, "DIFF"@, diff, "DIFF"@);
    crate::names::lemma_put_get(st.artifacts, "DIFF"@, diff, other);
}

/// A snapshot is taken on the base and nowhere else, and never again once a commit was seen to be
/// made on top of it.
pub proof fn a_snapshot_is_taken_on_the_base(
    base: Seq<char>,
    head: Seq<char>,
    later: Option<Seq<char>>,
)
    ensures
        snapshot_base(false, Some(base), Some(base)) == Some(base),
        !has_moved(false, Some(base), Some(base)) && !has_moved(false, Some(base), None),
        head != base ==> snapshot_base(false, Some(base), Some(head)) is None && has_moved(
            false,
            Some(base),
            Some(head),
        ),
        snapshot_base(false, None, Some(head)) is None,
        snapshot_base(false, Some(base), None) is None,
        snapshot_base(true, Some(base), later) is None && has_moved(true, Some(base), later),
{
}

/// The commit that a run starts from is recorded before its first step, once.
pub proof fn the_base_is_recorded_once(st: RunStateView, head: Option<Seq<char>>)
    ensures
        st.steps.len() == 0 && st.base_commit is None ==> with_base(st, head).base_commit == head,
        st.steps.len() > 0 || st.base_commit is Some ==> with_base(st, head) == st,
        with_base(st, head).steps == st.steps && with_base(st, head).status == st.status,
{
}

} // verus!
