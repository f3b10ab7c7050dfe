//! The driver of a `loop:` step: its inner steps one after another, iteration after iteration,
//! until its guard holds.
//!
//! Edits to the workdir add up over the iterations. The inner steps' states shape the contexts of
//! their own iteration only; to the rest of the run the loop is one step.

use super::context::{build_ctx_with, context_roots};
use super::feedback::{clip_tail, clipped_tail, effective_timeout, timeout_of, FEEDBACK_MAX};
use super::schedule::{dependencies_passed, deps_passed};
use super::state::{
    failed_outcome, passing_outcome, state_of, LoopProgress, LoopProgressView, OutcomeView,
    RunState, RunStateView, StepOutcome, StepState, StepStateView,
};
use crate::api::{
    extend_effects, no_usage, usage_with, SideEffect, SideEffectView, StepStatus, Usage,
};
use crate::context::render::{guard, guard_error_text, guard_holds, Context};
use crate::ids::{uuid_text, RunId};
use crate::ir::step::{LoopStep, Step};
use crate::ir::workflow::Workflow;
use crate::json::{object_text, Value, ValueView};
use crate::names::{has_key, key_pos, lookup, put, unique_keys, views, without, OrderedMap, Replicate};
use crate::text::{concat2, concat3, concat4, decimal, decimal_of, opt_text, text_eq};
use crate::time::{Duration, Timestamp};
use crate::validate::graph::{is_run_order, lemma_order_in_range, run_order};
use vstd::prelude::*;

verus! {

// ---------------------------------------------------------------------------------------------
// Where a loop starts
// ---------------------------------------------------------------------------------------------
/// The ref that keeps a loop's workdir between iterations.
pub open spec fn loop_ref_text(run_id: RunId, step: Seq<char>) -> Seq<char> {
    "refs/odin/loop/"@ + uuid_text(run_id.0) + "/"@ + step
}

/// The ref that keeps a loop's workdir between iterations.
pub fn loop_ref(run_id: RunId, step: &str) -> (r: String)
    ensures
        r@ == loop_ref_text(run_id, step@),
{
    let id = run_id.to_string();
    concat4("refs/odin/loop/", &id, "/", step)
}

/// Whether `HEAD` is the commit the run started from.
pub open spec fn at_base(base: Option<Seq<char>>, head: Option<Seq<char>>) -> bool {
    base is Some && head == base
}

/// Whether `HEAD` is the commit the run started from.
pub fn is_at_base(base: &Option<String>, head: &Option<String>) -> (r: bool)
    ensures
        r == at_base(opt_text(*base), opt_text(*head)),
{
    match base {
        Some(b) => match head {
            Some(h) => text_eq(h, b),
            None => false,
        },
        None => false,
    }
}

/// The commit a loop's workdir is put back to on resume: that of its last full iteration, while
/// `HEAD` is still the base commit.
pub open spec fn loop_restore(
    progress: Option<LoopProgressView>,
    base: Option<Seq<char>>,
    head: Option<Seq<char>>,
) -> Option<Seq<char>> {
    match progress {
        Some(p) => if at_base(base, head) {
            p.iteration_snapshot
        } else {
            None
        },
        None => None,
    }
}

/// The commit a loop's workdir is put back to on resume.
pub fn loop_restore_target(
    state: &RunState,
    step: &str,
    base: &Option<String>,
    head: &Option<String>,
) -> (r: Option<String>)
    ensures
        opt_text(r) == loop_restore(
            lookup(state@.loop_state, step@),
            opt_text(*base),
            opt_text(*head),
        ),
{
    match state.loop_state.get(step) {
        Some(p) => if is_at_base(base, head) {
            p.iteration_snapshot.clone()
        } else {
            None
        },
        None => None,
    }
}

// ---------------------------------------------------------------------------------------------
// The state of a loop
// ---------------------------------------------------------------------------------------------
/// A loop being driven.
#[derive(Debug)]
pub struct LoopRun {
    /// Inner step positions in the order they run.
    order: Vec<usize>,
    /// The iteration being run, the first being one.
    iteration: u32,
    /// How many inner steps of this iteration have run.
    done: usize,
    /// States of the inner steps of this iteration.
    inner: OrderedMap<StepState>,
    /// Why the last inner step of this iteration that failed did.
    last_failure: Option<String>,
    /// The captured diff so far.
    diff: Option<String>,
    /// What this iteration is told of the one before.
    feedback: String,
    side_effects: Vec<SideEffect>,
    usage: Usage,
}

/// The mathematical form of a [`LoopRun`].
#[verifier::ext_equal]
pub struct LoopView {
    pub order: Seq<usize>,
    pub iteration: nat,
    pub done: nat,
    pub inner: Seq<(Seq<char>, StepStateView)>,
    pub last_failure: Option<Seq<char>>,
    pub diff: Option<Seq<char>>,
    pub feedback: Seq<char>,
    pub side_effects: Seq<SideEffectView>,
    pub usage: Usage,
}

impl View for LoopRun {
    type V = LoopView;

    closed spec fn view(&self) -> LoopView {
        LoopView {
            order: self.order@,
            iteration: self.iteration as nat,
            done: self.done as nat,
            inner: self.inner@,
            last_failure: opt_text(self.last_failure),
            diff: opt_text(self.diff),
            feedback: self.feedback@,
            side_effects: views(self.side_effects@),
            usage: self.usage,
        }
    }
}

/// How many iterations a loop starts after, and what its first is told: those that completed
/// when its workdir was put back to their end, else none.
pub open spec fn loop_start(progress: Option<LoopProgressView>, restored: bool) -> (u32, Seq<char>) {
    match progress {
        Some(p) => if restored {
            (
                p.last_completed_iteration,
                match p.feedback {
                    Some(f) => f,
                    None => Seq::empty(),
                },
            )
        } else {
            (0, Seq::empty())
        },
        None => (0, Seq::empty()),
    }
}

/// A loop at the start of its first iteration.
pub open spec fn entered(
    order: Seq<usize>,
    start: (u32, Seq<char>),
    diff: Option<Seq<char>>,
) -> LoopView {
    LoopView {
        order,
        iteration: start.0 as nat + 1,
        done: 0,
        inner: Seq::empty(),
        last_failure: None,
        diff,
        feedback: start.1,
        side_effects: Seq::empty(),
        usage: no_usage(),
    }
}

/// Entries laid over others, one after another.
pub open spec fn overlaid(
    steps: Seq<(Seq<char>, StepStateView)>,
    inner: Seq<(Seq<char>, StepStateView)>,
) -> Seq<(Seq<char>, StepStateView)>
    decreases inner.len(),
{
    if inner.len() == 0 {
        steps
    } else {
        put(overlaid(steps, inner.drop_last()), inner.last().0, inner.last().1)
    }
}

/// The template context of a loop's inner step: the run's steps with those of this iteration laid
/// over them, the iteration and what it is told.
pub open spec fn inner_context(
    v: LoopView,
    st: RunStateView,
    params: Seq<(Seq<char>, ValueView)>,
    workflow: Seq<char>,
) -> Seq<(Seq<char>, Seq<char>)> {
    context_roots(
        params,
        st.input.trigger_payload,
        overlaid(st.steps, v.inner),
        v.diff,
        st.run_id,
        workflow,
        v.iteration,
        v.feedback,
    )
}

/// An inner step to execute.
#[derive(Debug)]
pub struct InnerLaunch {
    /// Its position among the inner steps.
    pub step: usize,
    pub deps_passed: bool,
    pub ctx: Context,
    pub timeout: Option<Duration>,
}

/// A loop after an inner step settled.
pub open spec fn inner_settled(v: LoopView, id: Seq<char>, o: OutcomeView) -> LoopView {
    LoopView {
        done: v.done + 1,
        inner: put(v.inner, id, state_of(o)),
        last_failure: if o.status == StepStatus::Failed {
            if o.failure_detail is Some {
                o.failure_detail
            } else {
                o.error
            }
        } else {
            v.last_failure
        },
        side_effects: v.side_effects + o.side_effects,
        usage: usage_with(v.usage, o.usage),
        ..v
    }
}

/// What a loop reports: how many iterations it made, and whether its guard came to hold.
pub open spec fn loop_outputs(iteration: nat, converged: bool) -> Seq<(Seq<char>, ValueView)> {
    put(
        put(Seq::empty(), "iterations"@, ValueView::Number(decimal(iteration))),
        "converged"@,
        ValueView::Bool(converged),
    )
}

/// The outcome of a loop that is over.
pub open spec fn loop_outcome(v: LoopView, o: OutcomeView) -> OutcomeView {
    OutcomeView { usage: Some(v.usage), side_effects: v.side_effects, ..o }
}

/// What the next iteration is told.
pub open spec fn next_feedback(v: LoopView) -> Seq<char> {
    clipped_tail(
        match v.last_failure {
            Some(f) => f,
            None => Seq::empty(),
        },
        FEEDBACK_MAX as nat,
    )
}

/// How an iteration ends: with the loop's outcome, or with another iteration.
pub open spec fn iteration_end(v: LoopView, l: LoopStep, ctx: Seq<char>) -> Option<OutcomeView> {
    match guard_holds(l.until@, ctx) {
        Ok(true) => Some(
            loop_outcome(v, passing_outcome(0, loop_outputs(v.iteration, true), None)),
        ),
        Ok(false) => if v.iteration >= l.max {
            Some(
                loop_outcome(
                    v,
                    OutcomeView {
                        outputs: loop_outputs(v.iteration, false),
                        ..failed_outcome(
                            "loop did not satisfy `until` within "@ + decimal(l.max as nat)
                                + " iteration(s)"@,
                        )
                    },
                ),
            )
        } else {
            None
        },
        Err(source) => Some(
            loop_outcome(
                v,
                OutcomeView {
                    outputs: loop_outputs(v.iteration, false),
                    ..failed_outcome(
                        "loop `until` evaluation failed: "@ + guard_error_text(source),
                    )
                },
            ),
        ),
    }
}

/// A loop at the start of its next iteration.
pub open spec fn again(v: LoopView) -> LoopView {
    LoopView {
        iteration: v.iteration + 1,
        done: 0,
        inner: Seq::empty(),
        last_failure: None,
        feedback: next_feedback(v),
        ..v
    }
}

/// A run with a loop's progress recorded: the iteration before the one that starts now.
pub open spec fn with_progress(
    st: RunStateView,
    step: Seq<char>,
    v: LoopView,
    snapshot: Option<Seq<char>>,
    now: Timestamp,
) -> RunStateView {
    RunStateView {
        loop_state: put(
            st.loop_state,
            step,
            LoopProgressView {
                last_completed_iteration: (v.iteration - 1) as u32,
                iteration_snapshot: snapshot,
                feedback: Some(v.feedback),
            },
        ),
        updated_at: now,
        ..st
    }
}

/// How an iteration ended.
#[derive(Debug)]
pub enum IterationEnd {
    /// The loop is over.
    Over(StepOutcome),
    /// There is another iteration.
    Again,
}

fn overlay(steps: &OrderedMap<StepState>, inner: &OrderedMap<StepState>) -> (r: OrderedMap<
    StepState,
>)
    ensures
        r@ == overlaid(steps@, inner@),
{
    let mut out = steps.replicate();
    let n = inner.len();
    let mut i: usize = 0;
    assert(inner@.take(0) =~= Seq::<(Seq<char>, StepStateView)>::empty());
    while i < n
        invariant
            i <= n,
            n == inner@.len(),
            out@ == overlaid(steps@, inner@.take(i as int)),
        decreases n - i,
    {
        assert(inner@.take(i + 1).drop_last() =~= inner@.take(i as int));
        out.insert(inner.key_at(i).clone(), inner.value_at(i).replicate());
        i += 1;
    }
    assert(inner@.take(n as int) =~= inner@);
    out
}

fn outputs_of(iteration: u32, converged: bool) -> (r: OrderedMap<Value>)
    ensures
        r@ == loop_outputs(iteration as nat, converged),
{
    let mut out: OrderedMap<Value> = OrderedMap::new();
    out.insert("iterations".to_owned(), Value::Number(decimal_of(iteration as u128)));
    out.insert("converged".to_owned(), Value::Bool(converged));
    out
}

impl LoopRun {
    /// Enters a loop. `restored` says whether its workdir was put back to the end of its last
    /// full iteration; the loop then goes on after it, else it starts anew.
    pub fn begin(
        l: &LoopStep,
        state: &RunState,
        step: &str,
        restored: bool,
        diff: Option<String>,
    ) -> (r: Self)
        requires
            loop_start(lookup(state@.loop_state, step@), restored).0 < u32::MAX,
        ensures
            is_run_order(l.steps@, r@.order),
            r@ == entered(
                r@.order,
                loop_start(lookup(state@.loop_state, step@), restored),
                opt_text(diff),
            ),
    {
        let order = run_order(&l.steps);
        let mut start: u32 = 0;
        let mut feedback = String::new();
        if restored {
            if let Some(p) = state.loop_state.get(step) {
                start = p.last_completed_iteration;
                if let Some(f) = &p.feedback {
                    feedback = f.clone();
                }
            }
        }
        let side_effects: Vec<SideEffect> = Vec::new();
        assert(views(side_effects@) =~= Seq::<SideEffectView>::empty());
        LoopRun {
            order,
            iteration: start + 1,
            done: 0,
            inner: OrderedMap::new(),
            last_failure: None,
            diff,
            feedback,
            side_effects,
            usage: Usage::default(),
        }
    }

    fn context(&self, wf: &Workflow, state: &RunState, params: &OrderedMap<Value>) -> (r: Context)
        ensures
            r@ == inner_context(self@, state@, params@, wf.name@),
    {
        let steps = overlay(&state.steps, &self.inner);
        build_ctx_with(
            params,
            &state.input.trigger_payload,
            &steps,
            &self.diff,
            state.run_id,
            wf.name.as_str(),
            self.iteration,
            &self.feedback,
        )
    }

    /// The next inner step of this iteration, or none when all have run.
    pub fn next(
        &self,
        l: &LoopStep,
        wf: &Workflow,
        state: &RunState,
        params: &OrderedMap<Value>,
    ) -> (r: Option<InnerLaunch>)
        requires
            is_run_order(l.steps@, self@.order),
        ensures
            r matches Some(x) ==> (x.deps_passed ==> forall|j: int|
                0 <= j < l.steps@[x.step as int].depends_on@.len() ==> (lookup(
                    self@.inner,
                    (#[trigger] l.steps@[x.step as int].depends_on@[j])@,
                ) matches Some(d) && d.status == StepStatus::Passed)),
            if self@.done < self@.order.len() {
                let k = self@.order[self@.done as int];
                &&& r matches Some(x)
                &&& x.step == k
                &&& k < l.steps@.len()
                &&& x.deps_passed == deps_passed(self@.inner, l.steps@[k as int])
                &&& x.ctx@ == inner_context(self@, state@, params@, wf.name@)
                &&& x.timeout == timeout_of(l.steps@[k as int], wf.defaults)
            } else {
                r is None
            },
    {
        if self.done >= self.order.len() {
            return None;
        }
        proof {
            assert(l.steps@.len() == l.steps.len());
            lemma_order_in_range(l.steps@, self@.order);
        }
        let k = self.order[self.done];
        assert(self@.order[self@.done as int] < l.steps@.len());
        let s = &l.steps[k];
        let ctx = self.context(wf, state, params);
        Some(
            InnerLaunch {
                step: k,
                deps_passed: dependencies_passed(&self.inner, s),
                ctx,
                timeout: effective_timeout(s, &wf.defaults),
            },
        )
    }

    /// Takes in the outcome of the inner step that was launched. Whether the shared workdir may
    /// have changed, so that the diff is to be captured again.
    pub fn settle(&mut self, s: &Step, outcome: &StepOutcome) -> (capture_diff: bool)
        requires
            old(self)@.done < old(self)@.order.len(),
        ensures
            final(self)@ == inner_settled(old(self)@, s.id@, outcome@),
            capture_diff == (outcome@.status == StepStatus::Passed && !s.scratch),
    {
        if let Some(u) = outcome.usage {
            self.usage.add(u);
        }
        extend_effects(&mut self.side_effects, &outcome.side_effects);
        if outcome.status == StepStatus::Failed {
            self.last_failure =
            match &outcome.failure_detail {
                Some(d) => Some(d.clone()),
                None => outcome.error.clone(),
            };
        }
        self.inner.insert(s.id.to_string(), outcome.to_state());
        assert(self.order.len() == self.order@.len());
        self.done = self.done + 1;
        outcome.status == StepStatus::Passed && !s.scratch
    }

    /// Takes in the diff captured after an inner step passed.
    pub fn record_diff(&mut self, diff: Option<String>)
        ensures
            final(self)@ == (LoopView { diff: opt_text(diff), ..old(self)@ }),
    {
        self.diff = diff;
    }

    /// Ends an iteration: the loop is over when its guard holds, fails or did not hold within the
    /// cap; else it goes on, told of the last failure.
    pub fn end_iteration(
        &mut self,
        l: &LoopStep,
        wf: &Workflow,
        state: &RunState,
        params: &OrderedMap<Value>,
    ) -> (r: IterationEnd)
        ensures
            match iteration_end(
                old(self)@,
                *l,
                object_text(inner_context(old(self)@, state@, params@, wf.name@)),
            ) {
                Some(o) => r matches IterationEnd::Over(x) && x@ == o && final(self)@ == old(self)@,
                None => r is Again && final(self)@ == again(old(self)@),
            },
    {
        let ctx = self.context(wf, state, params);
        let result = guard(&l.until, &ctx);
        let max = l.max as u32;
        let base = match result {
            Ok(true) => StepOutcome::passing(0, outputs_of(self.iteration, true), None),
            Ok(false) => {
                if self.iteration < max {
                    self.feedback =
                    match &self.last_failure {
                        Some(f) => clip_tail(f, FEEDBACK_MAX),
                        None => clip_tail("", FEEDBACK_MAX),
                    };
                    proof {
                        reveal_strlit("");
                        assert(""@ =~= Seq::<char>::empty());
                    }
                    self.iteration = self.iteration + 1;
                    self.done = 0;
                    self.inner = OrderedMap::new();
                    self.last_failure = None;
                    return IterationEnd::Again;
                }
                let n = decimal_of(max as u128);
                let mut o = StepOutcome::failed(
                    concat3("loop did not satisfy `until` within ", &n, " iteration(s)"),
                );
                o.outputs = outputs_of(self.iteration, false);
                o
            },
            Err(e) => {
                let mut o = StepOutcome::failed(concat2("loop `until` evaluation failed: ", &e));
                o.outputs = outputs_of(self.iteration, false);
                o
            },
        };
        let mut o = base;
        o.usage = Some(self.usage);
        let mut effects: Vec<SideEffect> = Vec::new();
        assert(views(effects@) =~= Seq::<SideEffectView>::empty());
        extend_effects(&mut effects, &self.side_effects);
        assert(Seq::<SideEffectView>::empty() + self@.side_effects =~= self@.side_effects);
        o.side_effects = effects;
        IterationEnd::Over(o)
    }

    /// Records, before the next iteration, how far the loop has come and the commit that keeps
    /// its workdir.
    pub fn record_progress(
        &self,
        state: &mut RunState,
        step: &str,
        snapshot: Option<String>,
        now: Timestamp,
    )
        requires
            self@.iteration >= 1,
        ensures
            final(state)@ == with_progress(old(state)@, step@, self@, opt_text(snapshot), now),
    {
        let p = LoopProgress {
            last_completed_iteration: self.iteration - 1,
            iteration_snapshot: snapshot,
            feedback: Some(self.feedback.clone()),
        };
        state.loop_state.insert(step.to_owned(), p);
        state.updated_at = now;
    }
}

/// Forgets the progress of a loop that is over.
pub fn forget_progress(state: &mut RunState, step: &str)
    ensures
        final(state)@ == (RunStateView {
            loop_state: without(old(state)@.loop_state, step@),
            ..old(state)@
        }),
{
    let _ = state.loop_state.shift_remove(step);
}

// ---------------------------------------------------------------------------------------------
// Laws
// ---------------------------------------------------------------------------------------------
/// A loop makes at most its cap of iterations: whenever there is another one, it is within the
/// cap.
pub proof fn iterations_are_capped(v: LoopView, l: LoopStep, ctx: Seq<char>)
    requires
        iteration_end(v, l, ctx) is None,
    ensures
        again(v).iteration <= l.max,
{
}

/// A loop passes exactly when its guard came to hold, and says so.
pub proof fn a_loop_passes_exactly_when_it_converged(v: LoopView, l: LoopStep, ctx: Seq<char>)
    requires
        iteration_end(v, l, ctx) is Some,
    ensures
        ({
            let o = iteration_end(v, l, ctx)->0;
            let held = guard_holds(l.until@, ctx) == Ok::<bool, Seq<char>>(true);
            &&& o.status == (if held {
                StepStatus::Passed
            } else {
                StepStatus::Failed
            })
            &&& lookup(o.outputs, "converged"@) == Some(ValueView::Bool(held))
            &&& lookup(o.outputs, "iterations"@) == Some(ValueView::Number(decimal(v.iteration)))
        }),
{
    reveal_strlit("iterations");
    reveal_strlit("converged");
    let held = guard_holds(l.until@, ctx) == Ok::<bool, Seq<char>>(true);
    let e = Seq::<(Seq<char>, ValueView)>::empty();
    let n = ValueView::Number(decimal(v.iteration));
    let one = put(e, "iterations"@, n);
    assert("iterations"@[0] == 'i');
    assert("converged"@[0] == 'c');
    crate::names::lemma_put_get(e, "iterations"@, n, "iterations"@);
    crate::names::lemma_put_get(e, "iterations"@, n, "converged"@);
    crate::names::lemma_put_get(one, "converged"@, ValueView::Bool(held), "converged"@);
    crate::names::lemma_put_get(one, "converged"@, ValueView::Bool(held), "iterations"@);
}

/// A resumed loop goes on after its last full iteration exactly when its workdir was put back to
/// that iteration's end; else it starts anew.
pub proof fn a_resumed_loop_never_skips_lost_work(
    st: RunStateView,
    step: Seq<char>,
    v: LoopView,
    snapshot: Option<Seq<char>>,
    now: Timestamp,
)
    requires
        crate::names::unique_keys(st.loop_state),
        1 <= v.iteration <= u32::MAX,
    ensures
        ({
            let p = lookup(with_progress(st, step, v, snapshot, now).loop_state, step);
            &&& loop_start(p, true) == ((v.iteration - 1) as u32, v.feedback)
            &&& loop_start(p, false).0 == 0
        }),
{
    crate::names::lemma_put_get(
        st.loop_state,
        step,
        LoopProgressView {
            last_completed_iteration: (v.iteration - 1) as u32,
            iteration_snapshot: snapshot,
            feedback: Some(v.feedback),
        },
        step,
    );
}

/// A loop's workdir is never put back past a commit.
pub proof fn loop_restore_never_passes_a_commit(
    progress: Option<LoopProgressView>,
    base: Option<Seq<char>>,
    head: Option<Seq<char>>,
)
    requires
        loop_restore(progress, base, head) is Some,
    ensures
        head == base,
        base is Some,
{
}

proof fn lemma_overlaid(
    steps: Seq<(Seq<char>, StepStateView)>,
    inner: Seq<(Seq<char>, StepStateView)>,
    id: Seq<char>,
)
    requires
        unique_keys(steps),
        unique_keys(inner),
    ensures
        unique_keys(overlaid(steps, inner)),
        lookup(overlaid(steps, inner), id) == (match lookup(inner, id) {
            Some(x) => Some(x),
            None => lookup(steps, id),
        }),
    decreases inner.len(),
{
    if inner.len() > 0 {
        let d = inner.drop_last();
        assert(unique_keys(d)) by {
            assert forall|i: int, j: int|
                0 <= i < d.len() && 0 <= j < d.len() && (#[trigger] d[i]).0 == (
                #[trigger] d[j]).0 implies i == j by {
                assert(inner[i].0 == inner[j].0);
            }
        }
        lemma_overlaid(steps, d, id);
        crate::names::lemma_put_get(overlaid(steps, d), inner.last().0, inner.last().1, id);
        lemma_lookup_last(inner, id);
    }
}

proof fn lemma_lookup_last(m: Seq<(Seq<char>, StepStateView)>, id: Seq<char>)
    requires
        m.len() > 0,
        unique_keys(m),
    ensures
        lookup(m, id) == (if m.last().0 == id {
            Some(m.last().1)
        } else {
            lookup(m.drop_last(), id)
        }),
{
    let d = m.drop_last();
    assert forall|i: int| 0 <= i < d.len() implies d[i] == #[trigger] m[i] by {}
    assert(m[m.len() - 1] == m.last());
    if m.last().0 == id {
        assert(has_key(m, id));
        assert(m[key_pos(m, id)].0 == m[m.len() - 1].0);
    } else {
        if has_key(d, id) {
            let p = key_pos(d, id);
            assert(m[p].0 == id);
            assert(has_key(m, id));
            assert(m[key_pos(m, id)].0 == m[p].0);
        }
        if has_key(m, id) {
            let p = key_pos(m, id);
            assert(p < d.len());
            assert(d[p].0 == id);
        }
    }
}

/// Within a loop a step sees what its iteration has recorded, and of every other step what the run
/// has.
pub proof fn an_iteration_sees_its_own_steps_first(
    steps: Seq<(Seq<char>, StepStateView)>,
    inner: Seq<(Seq<char>, StepStateView)>,
    id: Seq<char>,
)
    requires
        unique_keys(steps),
        unique_keys(inner),
    ensures
        lookup(inner, id) is Some ==> lookup(overlaid(steps, inner), id) == lookup(inner, id),
        lookup(inner, id) is None ==> lookup(overlaid(steps, inner), id) == lookup(steps, id),
{
    lemma_overlaid(steps, inner, id);
}

/// What came of a step of an iteration is recorded under its id, and a failure is remembered with
/// its detail when it has one; nothing that other steps recorded is lost.
pub proof fn an_inner_outcome_is_recorded(
    v: LoopView,
    id: Seq<char>,
    o: OutcomeView,
    other: Seq<char>,
    i: int,
)
    requires
        unique_keys(v.inner),
    ensures
        ({
            let n = inner_settled(v, id, o);
            &&& n.done == v.done + 1 && n.iteration == v.iteration && n.feedback == v.feedback
            &&& lookup(n.inner, id) matches Some(x) && x.status == o.status && x.outputs
                == o.outputs && x.exit_code == o.exit_code
            &&& other != id ==> lookup(n.inner, other) == lookup(v.inner, other)
            &&& o.status == StepStatus::Failed && o.failure_detail is Some ==> n.last_failure
                == o.failure_detail
            &&& o.status == StepStatus::Failed && o.failure_detail is None ==> n.last_failure
                == o.error
            &&& o.status != StepStatus::Failed ==> n.last_failure == v.last_failure
            &&& n.side_effects.len() == v.side_effects.len() + o.side_effects.len()
            &&& 0 <= i < v.side_effects.len() ==> n.side_effects[i] == v.side_effects[i]
            &&& 0 <= i < o.side_effects.len() ==> n.side_effects[v.side_effects.len() + i]
                == o.side_effects[i]
        }),
{
    crate::names::lemma_put_get(v.inner, id, state_of(o), id);
    crate::names::lemma_put_get(v.inner, id, state_of(o), other);
}

/// An iteration that is not the last is followed by a fresh one that is told why the last one
/// failed, and keeps what was done and used.
pub proof fn the_next_iteration_starts_afresh(v: LoopView, id: Seq<char>)
    ensures
        again(v).iteration == v.iteration + 1,
        again(v).done == 0,
        lookup(again(v).inner, id) is None,
        again(v).last_failure is None,
        again(v).side_effects == v.side_effects,
        again(v).usage == v.usage,
        again(v).diff == v.diff,
        v.last_failure is None ==> again(v).feedback.len() == 0,
        v.last_failure matches Some(f) ==> (crate::text::byte_len(f) <= FEEDBACK_MAX ==> again(
            v,
        ).feedback == f),
{
}

/// A loop goes on after the last iteration that was completed when its work was restored, and from
/// the start otherwise; it is told what that iteration was told to mend.
pub proof fn a_loop_goes_on_where_it_was(progress: Option<LoopProgressView>, restored: bool)
    ensures
        restored ==> (progress matches Some(p) ==> loop_start(progress, restored).0
            == p.last_completed_iteration && (p.feedback matches Some(f) ==> loop_start(
            progress,
            restored,
        ).1 == f) && (p.feedback is None ==> loop_start(progress, restored).1.len() == 0)),
        !restored || progress is None ==> loop_start(progress, restored).0 == 0 && loop_start(
            progress,
            restored,
        ).1.len() == 0,
{
}

/// Progress is recorded under the loop's step: the iterations that are done, where their work was
/// kept, and what the next is told. Nothing else of the run changes but its moment.
pub proof fn progress_is_recorded(
    st: RunStateView,
    step: Seq<char>,
    v: LoopView,
    snapshot: Option<Seq<char>>,
    now: Timestamp,
    other: Seq<char>,
)
    requires
        unique_keys(st.loop_state),
        1 <= v.iteration <= u32::MAX,
    ensures
        ({
            let n = with_progress(st, step, v, snapshot, now);
            &&& lookup(n.loop_state, step) matches Some(p) && p.last_completed_iteration + 1
                == v.iteration && p.iteration_snapshot == snapshot && p.feedback == Some(v.feedback)
            &&& other != step ==> lookup(n.loop_state, other) == lookup(st.loop_state, other)
            &&& n.steps == st.steps && n.status == st.status && n.updated_at == now
        }),
{
    let p = LoopProgressView {
        last_completed_iteration: (v.iteration - 1) as u32,
        iteration_snapshot: snapshot,
        feedback: Some(v.feedback),
    };
    crate::names::lemma_put_get(st.loop_state, step, p, step);
    crate::names::lemma_put_get(st.loop_state, step, p, other);
}

/// The work of an iteration is brought back only onto the commit it was made on.
pub proof fn work_returns_to_its_base(
    p: LoopProgressView,
    base: Option<Seq<char>>,
    head: Option<Seq<char>>,
)
    ensures
        base is Some && head == base ==> loop_restore(Some(p), base, head) == p.iteration_snapshot,
        base is None || head != base ==> loop_restore(Some(p), base, head) is None,
        loop_restore(None, base, head) is None,
{
}

/// A loop enters the iteration after the last one that was completed, with nothing done in it.
pub proof fn a_loop_enters_a_fresh_iteration(
    order: Seq<usize>,
    start: (u32, Seq<char>),
    diff: Option<Seq<char>>,
    id: Seq<char>,
)
    ensures
        ({
            let v = entered(order, start, diff);
            &&& v.iteration == start.0 + 1 && v.feedback == start.1
            &&& v.order == order && v.diff == diff
            &&& v.done == 0 && v.last_failure is None && v.side_effects.len() == 0
            &&& lookup(v.inner, id) is None
        }),
{
}

} // verus!
