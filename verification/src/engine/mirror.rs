//! The in-memory view of runs that are not persisted: a bounded number of light copies.

use super::state::{RunState, RunStateView, StepState, StepStateView};
use crate::api::{RunInput, RunInputView, StepStatus};
use crate::ids::{uuid_text, RunId};
use crate::json::{json_text, Value, ValueView};
use crate::names::{
    has_key, lemma_put_get, lemma_put_next, lemma_without_get, lookup, put, replicate_all,
    replicate_opt, unique_keys, without, OrderedMap, Replicate,
};
use crate::text::{byte_len, bytes_from, chars_of};
use vstd::prelude::*;

verus! {

/// The most runs the mirror holds.
pub const MIRROR_CAP: usize = 256;

/// The most bytes of JSON a param may take in a light copy.
pub const MIRROR_PARAM_CAP: usize = 4096;

/// What a light copy keeps of a step's outputs: the message of a gate that waits.
pub open spec fn light_outputs(st: StepStateView) -> Seq<(Seq<char>, ValueView)> {
    if st.status == StepStatus::AwaitingApproval && has_key(st.outputs, "message"@) {
        Seq::empty().push(("message"@, lookup(st.outputs, "message"@)->0))
    } else {
        Seq::empty()
    }
}

/// A step without its captured output.
pub open spec fn light_step(st: StepStateView) -> StepStateView {
    StepStateView { outputs: light_outputs(st), ..st }
}

/// The steps of a light copy.
pub open spec fn light_steps(steps: Seq<(Seq<char>, StepStateView)>) -> Seq<
    (Seq<char>, StepStateView),
> {
    Seq::new(steps.len(), |i: int| (steps[i].0, light_step(steps[i].1)))
}

/// What stands in a light copy for a param value.
pub open spec fn capped_param(v: ValueView) -> ValueView {
    if byte_len(json_text(v)) > MIRROR_PARAM_CAP {
        ValueView::String("[omitted: large param]"@)
    } else {
        v
    }
}

/// The params of a light copy.
pub open spec fn light_params(params: Seq<(Seq<char>, ValueView)>) -> Seq<(Seq<char>, ValueView)> {
    Seq::new(params.len(), |i: int| (params[i].0, capped_param(params[i].1)))
}

/// A run without what may grow without bound: step outputs, artifacts, the trigger payload and
/// large params.
pub open spec fn light(st: RunStateView) -> RunStateView {
    RunStateView {
        steps: light_steps(st.steps),
        artifacts: Seq::empty(),
        input: RunInputView {
            trigger_payload: ValueView::Null,
            params: light_params(st.input.params),
            ..st.input
        },
        ..st
    }
}

fn light_step_of(st: &StepState) -> (r: StepState)
    ensures
        r@ == light_step(st@),
{
    let mut outputs: OrderedMap<Value> = OrderedMap::new();
    if st.status == StepStatus::AwaitingApproval {
        if let Some(v) = st.outputs.get("message") {
            outputs.insert("message".to_owned(), v.replicate());
        }
    }
    assert(outputs@ =~= light_outputs(st@));
    StepState {
        status: st.status,
        attempts: st.attempts,
        exit_code: st.exit_code,
        outputs,
        usage: st.usage,
        gates: st.gates.replicate(),
        judge_score: st.judge_score,
        side_effects: replicate_all(&st.side_effects),
        error: st.error.clone(),
    }
}

fn light_steps_of(steps: &OrderedMap<StepState>) -> (r: OrderedMap<StepState>)
    ensures
        r@ == light_steps(steps@),
{
    let n = steps.len();
    let ghost want = light_steps(steps@);
    let mut out: OrderedMap<StepState> = OrderedMap::new();
    let mut i: usize = 0;
    assert(out@ =~= want.take(0));
    assert(unique_keys(want)) by {
        assert forall|a: int, b: int|
            0 <= a < want.len() && 0 <= b < want.len() && (#[trigger] want[a]).0 == (
            #[trigger] want[b]).0 implies a == b by {
            assert(steps@[a].0 == steps@[b].0);
        }
    }
    while i < n
        invariant
            i <= n,
            n == steps@.len(),
            want == light_steps(steps@),
            unique_keys(want),
            out@ == want.take(i as int),
        decreases n - i,
    {
        let st = light_step_of(steps.value_at(i));
        proof {
            lemma_put_next(want, i as int);
        }
        out.insert(steps.key_at(i).clone(), st);
        i += 1;
    }
    assert(want.take(n as int) =~= want);
    out
}

fn capped(v: &Value) -> (r: Value)
    ensures
        r@ == capped_param(v@),
{
    let text = v.to_json();
    let chars = chars_of(&text);
    assert(chars@.skip(0) =~= text@);
    if bytes_from(&chars, 0) > MIRROR_PARAM_CAP as u128 {
        Value::String("[omitted: large param]".to_owned())
    } else {
        v.replicate()
    }
}

fn light_params_of(params: &OrderedMap<Value>) -> (r: OrderedMap<Value>)
    ensures
        r@ == light_params(params@),
{
    let n = params.len();
    let ghost want = light_params(params@);
    let mut out: OrderedMap<Value> = OrderedMap::new();
    let mut i: usize = 0;
    assert(out@ =~= want.take(0));
    assert(unique_keys(want)) by {
        assert forall|a: int, b: int|
            0 <= a < want.len() && 0 <= b < want.len() && (#[trigger] want[a]).0 == (
            #[trigger] want[b]).0 implies a == b by {
            assert(params@[a].0 == params@[b].0);
        }
    }
    while i < n
        invariant
            i <= n,
            n == params@.len(),
            want == light_params(params@),
            unique_keys(want),
            out@ == want.take(i as int),
        decreases n - i,
    {
        let v = capped(params.value_at(i));
        proof {
            lemma_put_next(want, i as int);
        }
        out.insert(params.key_at(i).clone(), v);
        i += 1;
    }
    assert(want.take(n as int) =~= want);
    out
}

/// A memory-bounded copy of a run: identity, status, per-step status and usage, side effects and
/// timings stay, while step outputs (but for a waiting gate's message), artifacts, the trigger
/// payload and large param values are left out.
pub fn light_snapshot(state: &RunState) -> (r: RunState)
    ensures
        r@ == light(state@),
{
    let input = RunInput {
        trigger: state.input.trigger.clone(),
        trigger_payload: Value::Null,
        params: light_params_of(&state.input.params),
        idempotency_key: state.input.idempotency_key.clone(),
    };
    RunState {
        run_id: state.run_id,
        workflow: state.workflow.replicate(),
        schema_major: state.schema_major,
        status: state.status,
        error: state.error.clone(),
        steps: light_steps_of(&state.steps),
        artifacts: OrderedMap::new(),
        provider_versions: state.provider_versions.replicate(),
        approvals: state.approvals.replicate(),
        input,
        workspace: replicate_opt(&state.workspace),
        base_commit: state.base_commit.clone(),
        snapshot: state.snapshot.clone(),
        loop_state: state.loop_state.replicate(),
        created_at: state.created_at,
        updated_at: state.updated_at,
    }
}

// ---------------------------------------------------------------------------------------------
// The mirror
// ---------------------------------------------------------------------------------------------
/// Light copies of runs that are not persisted, the oldest first.
#[derive(Debug)]
pub struct Mirror {
    runs: OrderedMap<RunState>,
}

impl View for Mirror {
    type V = Seq<(Seq<char>, RunStateView)>;

    closed spec fn view(&self) -> Seq<(Seq<char>, RunStateView)> {
        self.runs@
    }
}

/// The first finished run at or after `from`; the number of runs when there is none.
pub open spec fn first_finished(runs: Seq<(Seq<char>, RunStateView)>, from: int) -> int
    decreases runs.len() - from,
{
    if from < 0 || from >= runs.len() {
        runs.len() as int
    } else if runs[from].1.status.terminal() {
        from
    } else {
        first_finished(runs, from + 1)
    }
}

/// The run that makes room for another: the oldest finished one, else the oldest.
pub open spec fn victim(runs: Seq<(Seq<char>, RunStateView)>) -> int {
    let i = first_finished(runs, 0);
    if i < runs.len() {
        i
    } else {
        0
    }
}

/// The runs with room for a run under `key`.
pub open spec fn with_room(runs: Seq<(Seq<char>, RunStateView)>, key: Seq<char>) -> Seq<
    (Seq<char>, RunStateView),
> {
    if has_key(runs, key) || runs.len() < MIRROR_CAP {
        runs
    } else {
        without(runs, runs[victim(runs)].0)
    }
}

/// The runs after a run was recorded.
pub open spec fn mirrored(runs: Seq<(Seq<char>, RunStateView)>, st: RunStateView) -> Seq<
    (Seq<char>, RunStateView),
> {
    let key = uuid_text(st.run_id.0);
    put(with_room(runs, key), key, light(st))
}

proof fn lemma_first_finished(runs: Seq<(Seq<char>, RunStateView)>, from: int)
    requires
        0 <= from <= runs.len(),
    ensures
        from <= first_finished(runs, from) <= runs.len(),
        first_finished(runs, from) < runs.len()
            ==> runs[first_finished(runs, from)].1.status.terminal(),
    decreases runs.len() - from,
{
    if from < runs.len() && !runs[from].1.status.terminal() {
        lemma_first_finished(runs, from + 1);
    }
}

impl Mirror {
    /// An empty mirror.
    pub fn new() -> (r: Self)
        ensures
            r@ == Seq::<(Seq<char>, RunStateView)>::empty(),
    {
        Mirror { runs: OrderedMap::new() }
    }

    /// How many runs the mirror holds.
    pub fn len(&self) -> (r: usize)
        ensures
            r == self@.len(),
            unique_keys(self@),
    {
        self.runs.len()
    }

    /// The run at position `i`, the oldest first.
    pub fn at(&self, i: usize) -> (r: &RunState)
        requires
            i < self@.len(),
        ensures
            r@ == self@[i as int].1,
    {
        self.runs.value_at(i)
    }

    /// The light copy of a run.
    pub fn get(&self, run_id: RunId) -> (r: Option<&RunState>)
        ensures
            match r {
                Some(st) => lookup(self@, uuid_text(run_id.0)) == Some(st@),
                None => lookup(self@, uuid_text(run_id.0)) is None,
            },
    {
        self.runs.get(&run_id.to_string())
    }

    /// Drops a run.
    pub fn forget(&mut self, run_id: RunId)
        ensures
            final(self)@ == without(old(self)@, uuid_text(run_id.0)),
    {
        let _ = self.runs.shift_remove(&run_id.to_string());
    }

    fn victim_position(&self) -> (r: usize)
        requires
            self@.len() > 0,
        ensures
            r == victim(self@),
            r < self@.len(),
    {
        let n = self.runs.len();
        let mut i: usize = 0;
        while i < n
            invariant
                i <= n,
                n == self@.len(),
                self@ == self.runs@,
                n > 0,
                first_finished(self@, 0) == first_finished(self@, i as int),
            decreases n - i,
        {
            if self.runs.value_at(i).status.is_terminal() {
                return i;
            }
            i += 1;
        }
        0
    }

    /// Records a light copy of a run. A run that is already here keeps its place; a new one over
    /// the cap takes the place of the oldest finished run, or of the oldest when none finished.
    pub fn mirror_put(&mut self, state: &RunState)
        ensures
            final(self)@ == mirrored(old(self)@, state@),
    {
        let copy = light_snapshot(state);
        let key = state.run_id.to_string();
        let known = self.runs.contains_key(&key);
        if !known && self.runs.len() >= MIRROR_CAP {
            let i = self.victim_position();
            let gone = self.runs.key_at(i).clone();
            let _ = self.runs.shift_remove(&gone);
        }
        self.runs.insert(key, copy);
    }
}

/// The mirror never holds more runs than its cap.
pub proof fn the_mirror_is_bounded(runs: Seq<(Seq<char>, RunStateView)>, st: RunStateView)
    requires
        runs.len() <= MIRROR_CAP,
        unique_keys(runs),
    ensures
        mirrored(runs, st).len() <= MIRROR_CAP,
        unique_keys(mirrored(runs, st)),
{
    let key = uuid_text(st.run_id.0);
    let room = with_room(runs, key);
    lemma_first_finished(runs, 0);
    if !has_key(runs, key) && runs.len() >= MIRROR_CAP {
        let gone = runs[victim(runs)].0;
        assert(has_key(runs, gone));
        lemma_without_get(runs, gone, gone);
    }
    lemma_put_get(room, key, light(st), key);
}

/// A run in flight is only dropped from a full mirror in which no run has finished.
pub proof fn a_live_run_outlasts_finished_ones(
    runs: Seq<(Seq<char>, RunStateView)>,
    st: RunStateView,
    i: int,
    j: int,
)
    requires
        unique_keys(runs),
        0 <= i < runs.len(),
        0 <= j < runs.len(),
        !runs[i].1.status.terminal(),
        runs[j].1.status.terminal(),
    ensures
        has_key(mirrored(runs, st), runs[i].0),
{
    let key = uuid_text(st.run_id.0);
    let room = with_room(runs, key);
    lemma_first_finished(runs, 0);
    lemma_finished_is_found(runs, 0, j);
    assert(has_key(runs, runs[i].0));
    if !has_key(runs, key) && runs.len() >= MIRROR_CAP {
        let gone = runs[victim(runs)].0;
        lemma_without_get(runs, gone, runs[i].0);
        if gone == runs[i].0 {
            assert(victim(runs) == i);
        }
        assert(lookup(room, runs[i].0) == lookup(runs, runs[i].0));
    }
    lemma_put_get(room, key, light(st), runs[i].0);
}

proof fn lemma_finished_is_found(runs: Seq<(Seq<char>, RunStateView)>, from: int, j: int)
    requires
        0 <= from <= j < runs.len(),
        runs[j].1.status.terminal(),
    ensures
        first_finished(runs, from) <= j,
    decreases j - from,
{
    if from < j && !runs[from].1.status.terminal() {
        lemma_finished_is_found(runs, from + 1, j);
    }
}

/// What was recorded is what a lookup gives: the run's light copy.
pub proof fn the_mirror_gives_back_what_was_recorded(
    runs: Seq<(Seq<char>, RunStateView)>,
    st: RunStateView,
)
    requires
        unique_keys(runs),
    ensures
        lookup(mirrored(runs, st), uuid_text(st.run_id.0)) == Some(light(st)),
{
    let key = uuid_text(st.run_id.0);
    lemma_first_finished(runs, 0);
    if !has_key(runs, key) && runs.len() >= MIRROR_CAP {
        let gone = runs[victim(runs)].0;
        lemma_without_get(runs, gone, gone);
    }
    lemma_put_get(with_room(runs, key), key, light(st), key);
}

/// A mirrored run keeps its identity, its status and how each of its steps stands; what a step
/// gave out is left out, except the message of a gate that waits.
pub proof fn a_mirrored_run_keeps_how_it_stands(st: RunStateView, i: int)
    requires
        0 <= i < st.steps.len(),
    ensures
        ({
            let l = light(st);
            let a = st.steps[i].1;
            let b = l.steps[i].1;
            &&& l.run_id == st.run_id && l.workflow == st.workflow && l.status == st.status
                && l.error == st.error && l.created_at == st.created_at && l.updated_at
                == st.updated_at && l.approvals == st.approvals
            &&& l.steps.len() == st.steps.len()
            &&& l.steps[i].0 == st.steps[i].0
            &&& b.status == a.status && b.attempts == a.attempts && b.exit_code == a.exit_code
                && b.error == a.error && b.gates == a.gates && b.usage == a.usage
            &&& a.status == StepStatus::AwaitingApproval && has_key(a.outputs, "message"@)
                ==> lookup(b.outputs, "message"@) == lookup(a.outputs, "message"@)
            &&& a.status != StepStatus::AwaitingApproval ==> b.outputs.len() == 0
            &&& l.artifacts.len() == 0
        }),
{
    let a = st.steps[i].1;
    if a.status == StepStatus::AwaitingApproval && has_key(a.outputs, "message"@) {
        let o = light_outputs(a);
        assert(o[0].0 == "message"@);
        assert(has_key(o, "message"@));
    }
}

/// A param is mirrored as it is unless it is large.
pub proof fn a_small_param_is_mirrored(st: RunStateView, i: int)
    requires
        0 <= i < st.input.params.len(),
    ensures
        light(st).input.params.len() == st.input.params.len(),
        light(st).input.params[i].0 == st.input.params[i].0,
        byte_len(json_text(st.input.params[i].1)) <= 4096 ==> light(st).input.params[i].1
            == st.input.params[i].1,
        byte_len(json_text(st.input.params[i].1)) > 4096 ==> light(st).input.params[i].1
            == ValueView::String("[omitted: large param]"@),
{
}

proof fn lemma_reaches_finished(runs: Seq<(Seq<char>, RunStateView)>, from: int, i: int)
    requires
        0 <= from <= i < runs.len(),
        runs[i].1.status.terminal(),
        forall|j: int| from <= j < i ==> !(#[trigger] runs[j]).1.status.terminal(),
    ensures
        first_finished(runs, from) == i,
    decreases i - from,
{
    if from < i {
        lemma_reaches_finished(runs, from + 1, i);
    }
}

/// A full mirror makes room by forgetting the run that finished and was mirrored longest ago, and
/// nothing else; a mirror with room, or a run that is there already, makes it forget nothing.
pub proof fn the_oldest_finished_run_makes_room(
    runs: Seq<(Seq<char>, RunStateView)>,
    st: RunStateView,
    i: int,
    other: Seq<char>,
)
    requires
        unique_keys(runs),
        other != uuid_text(st.run_id.0),
    ensures
        has_key(runs, uuid_text(st.run_id.0)) || runs.len() < 256 ==> lookup(
            mirrored(runs, st),
            other,
        ) == lookup(runs, other),
        0 <= i < runs.len() && runs[i].1.status.terminal() && (forall|j: int|
            0 <= j < i ==> !(#[trigger] runs[j]).1.status.terminal()) && !has_key(
            runs,
            uuid_text(st.run_id.0),
        ) && runs.len() >= 256 ==> lookup(mirrored(runs, st), other) == (if other == runs[i].0 {
            None
        } else {
            lookup(runs, other)
        }),
{
    let key = uuid_text(st.run_id.0);
    let room = with_room(runs, key);
    if 0 <= i < runs.len() && runs[i].1.status.terminal() && (forall|j: int|
        0 <= j < i ==> !(#[trigger] runs[j]).1.status.terminal()) {
        lemma_reaches_finished(runs, 0, i);
    }
    crate::names::lemma_without_get(runs, runs[victim(runs)].0, other);
    crate::names::lemma_without_get(runs, runs[victim(runs)].0, key);
    crate::names::lemma_put_get(room, key, light(st), other);
}

} // verus!
