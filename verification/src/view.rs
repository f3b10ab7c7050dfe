//! The light view of a run that listings show.

use crate::api::StepStatus;
use crate::cli::inspect::{status_name, status_str};
use crate::engine::approval::first_waiting;
use crate::engine::context::{step_status_name, step_status_str};
use crate::engine::state::{RunState, RunStateView, StepState, StepStateView};
use crate::ids::uuid_text;
use crate::json::{Value, ValueView};
use crate::names::{
    lookup, opt_view, replicate_all, replicate_opt, views, OrderedMap, Replicate,
};
use crate::text::{
    lemma_text_less_total, lemma_text_less_trans, less, opt_text, text_eq, text_less,
};
use crate::time::rfc3339_text;
use vstd::prelude::*;

verus! {

/// A step in a listing.
#[derive(Debug)]
pub struct StepView {
    pub id: String,
    pub status: String,
}

/// A waiting gate in a listing.
#[derive(Debug)]
pub struct GateView {
    pub step: String,
    pub message: Option<String>,
}

/// A run in a listing. Moments are in RFC 3339 form.
#[derive(Debug)]
pub struct RunView {
    pub run_id: String,
    pub workflow: String,
    pub status: String,
    pub created_at: String,
    pub updated_at: String,
    pub duration_ms: Option<u64>,
    pub steps: Vec<StepView>,
    pub gate: Option<GateView>,
}

/// The mathematical form of a [`StepView`].
#[verifier::ext_equal]
pub struct ListedStep {
    pub id: Seq<char>,
    pub status: Seq<char>,
}

/// The mathematical form of a [`GateView`].
#[verifier::ext_equal]
pub struct ListedGate {
    pub step: Seq<char>,
    pub message: Option<Seq<char>>,
}

/// The mathematical form of a [`RunView`].
#[verifier::ext_equal]
pub struct ListedRun {
    pub run_id: Seq<char>,
    pub workflow: Seq<char>,
    pub status: Seq<char>,
    pub created_at: Seq<char>,
    pub updated_at: Seq<char>,
    pub duration_ms: Option<u64>,
    pub steps: Seq<ListedStep>,
    pub gate: Option<ListedGate>,
}

impl View for StepView {
    type V = ListedStep;

    open spec fn view(&self) -> ListedStep {
        ListedStep { id: self.id@, status: self.status@ }
    }
}

impl View for GateView {
    type V = ListedGate;

    open spec fn view(&self) -> ListedGate {
        ListedGate { step: self.step@, message: opt_text(self.message) }
    }
}

impl View for RunView {
    type V = ListedRun;

    open spec fn view(&self) -> ListedRun {
        ListedRun {
            run_id: self.run_id@,
            workflow: self.workflow@,
            status: self.status@,
            created_at: self.created_at@,
            updated_at: self.updated_at@,
            duration_ms: self.duration_ms,
            steps: views(self.steps@),
            gate: opt_view(self.gate),
        }
    }
}

impl Replicate for StepView {
    fn replicate(&self) -> (r: Self) {
        StepView { id: self.id.clone(), status: self.status.clone() }
    }
}

impl Replicate for GateView {
    fn replicate(&self) -> (r: Self) {
        GateView { step: self.step.clone(), message: self.message.clone() }
    }
}

impl Replicate for RunView {
    fn replicate(&self) -> (r: Self) {
        RunView {
            run_id: self.run_id.clone(),
            workflow: self.workflow.clone(),
            status: self.status.clone(),
            created_at: self.created_at.clone(),
            updated_at: self.updated_at.clone(),
            duration_ms: self.duration_ms,
            steps: replicate_all(&self.steps),
            gate: replicate_opt(&self.gate),
        }
    }
}

// ---------------------------------------------------------------------------------------------
// The listing of a run
// ---------------------------------------------------------------------------------------------
/// The whole milliseconds of a span in nanoseconds, as far as they can be counted; none of one
/// that runs backwards.
pub open spec fn whole_millis(nanos: int) -> u64 {
    if nanos <= 0 {
        0
    } else if nanos / 1_000_000 > u64::MAX {
        u64::MAX
    } else {
        (nanos / 1_000_000) as u64
    }
}

/// How long a run took, in milliseconds, once it is over.
pub open spec fn run_duration(st: RunStateView) -> Option<u64> {
    if !st.status.terminal() {
        None
    } else {
        Some(whole_millis(st.updated_at.total() - st.created_at.total()))
    }
}

/// The steps of a run in a listing.
pub open spec fn listed_steps(steps: Seq<(Seq<char>, StepStateView)>) -> Seq<ListedStep> {
    Seq::new(
        steps.len(),
        |i: int| ListedStep { id: steps[i].0, status: step_status_name(steps[i].1.status) },
    )
}

/// Which approval a run waits for, with its message.
pub open spec fn listed_gate(steps: Seq<(Seq<char>, StepStateView)>) -> Option<ListedGate> {
    let i = first_waiting(steps, 0);
    if 0 <= i < steps.len() {
        Some(
            ListedGate {
                step: steps[i].0,
                message: match lookup(steps[i].1.outputs, "message"@) {
                    Some(ValueView::String(t)) => Some(t),
                    _ => None,
                },
            },
        )
    } else {
        None
    }
}

/// A run in a listing, with its moments in RFC 3339 form.
pub open spec fn projected(st: RunStateView, created: Seq<char>, updated: Seq<char>) -> ListedRun {
    ListedRun {
        run_id: uuid_text(st.run_id.0),
        workflow: st.workflow,
        status: status_name(st.status),
        created_at: created,
        updated_at: updated,
        duration_ms: run_duration(st),
        steps: listed_steps(st.steps),
        gate: listed_gate(st.steps),
    }
}

impl RunView {
    /// The listing of a run. None when one of its moments has no RFC 3339 form.
    pub fn project(state: &RunState) -> (r: Option<Self>)
        ensures
            match (
                rfc3339_text(state.created_at.secs, state.created_at.nanos),
                rfc3339_text(state.updated_at.secs, state.updated_at.nanos),
            ) {
                (Some(c), Some(u)) => r matches Some(v) && v@ == projected(state@, c, u),
                _ => r is None,
            },
    {
        let created_at = match state.created_at.to_rfc3339() {
            Some(t) => t,
            None => {
                return None;
            },
        };
        let updated_at = match state.updated_at.to_rfc3339() {
            Some(t) => t,
            None => {
                return None;
            },
        };
        let duration_ms = if !state.status.is_terminal() {
            None
        } else {
            let span = state.updated_at.total_nanos() - state.created_at.total_nanos();
            let ms: i128 = if span <= 0 {
                0
            } else {
                span / 1_000_000
            };
            Some(
                if ms > u64::MAX as i128 {
                    u64::MAX
                } else {
                    ms as u64
                },
            )
        };
        let steps = list_steps(&state.steps);
        let gate = list_gate(&state.steps);
        Some(
            RunView {
                run_id: state.run_id.to_string(),
                workflow: state.workflow.to_string(),
                status: status_str(state.status).to_owned(),
                created_at,
                updated_at,
                duration_ms,
                steps,
                gate,
            },
        )
    }
}

fn list_steps(steps: &OrderedMap<StepState>) -> (r: Vec<StepView>)
    ensures
        views(r@) == listed_steps(steps@),
{
    let n = steps.len();
    let mut out: Vec<StepView> = Vec::new();
    let mut i: usize = 0;
    while i < n
        invariant
            i <= n,
            n == steps@.len(),
            out@.len() == i,
            forall|k: int|
                0 <= k < i ==> (#[trigger] out@[k])@ == listed_steps(steps@)[k],
        decreases n - i,
    {
        out.push(
            StepView {
                id: steps.key_at(i).clone(),
                status: step_status_str(steps.value_at(i).status).to_owned(),
            },
        );
        i += 1;
    }
    assert(views(out@) =~= listed_steps(steps@));
    out
}

fn list_gate(steps: &OrderedMap<StepState>) -> (r: Option<GateView>)
    ensures
        opt_view(r) == listed_gate(steps@),
{
    let n = steps.len();
    let mut i: usize = 0;
    while i < n
        invariant
            i <= n,
            n == steps@.len(),
            first_waiting(steps@, 0) == first_waiting(steps@, i as int),
        decreases n - i,
    {
        let st = steps.value_at(i);
        if st.status == StepStatus::AwaitingApproval {
            let message = match st.outputs.get("message") {
                Some(Value::String(t)) => Some(t.clone()),
                _ => None,
            };
            return Some(GateView { step: steps.key_at(i).clone(), message });
        }
        i += 1;
    }
    None
}

// ---------------------------------------------------------------------------------------------
// The most recent runs
// ---------------------------------------------------------------------------------------------
/// Whether `a` is listed before `b`: it was updated later, or at the same moment and has the
/// greater id.
pub open spec fn listed_before(a: ListedRun, b: ListedRun) -> bool {
    text_less(b.updated_at, a.updated_at) || (a.updated_at == b.updated_at && text_less(
        b.run_id,
        a.run_id,
    ))
}

/// Where a run goes in a listing: before the first run at or after `from` that it is listed
/// before.
pub open spec fn place(s: Seq<ListedRun>, x: ListedRun, from: int) -> int
    decreases s.len() - from,
{
    if from < 0 || from >= s.len() {
        s.len() as int
    } else if listed_before(x, s[from]) {
        from
    } else {
        place(s, x, from + 1)
    }
}

/// Runs in the order they are listed; runs that tie keep their order.
pub open spec fn listed(s: Seq<ListedRun>) -> Seq<ListedRun>
    decreases s.len(),
{
    if s.len() == 0 {
        Seq::empty()
    } else {
        let before = listed(s.drop_last());
        before.insert(place(before, s.last(), 0), s.last())
    }
}

/// Whether a run with this id is among the runs.
pub open spec fn has_run(s: Seq<ListedRun>, id: Seq<char>) -> bool {
    exists|i: int| 0 <= i < s.len() && (#[trigger] s[i]).run_id == id
}

/// Each run once, where it comes first.
pub open spec fn each_once(s: Seq<ListedRun>) -> Seq<ListedRun>
    decreases s.len(),
{
    if s.len() == 0 {
        Seq::empty()
    } else {
        let before = each_once(s.drop_last());
        if has_run(before, s.last().run_id) {
            before
        } else {
            before.push(s.last())
        }
    }
}

/// The first so many of a sequence.
pub open spec fn at_most(s: Seq<ListedRun>, limit: nat) -> Seq<ListedRun> {
    if s.len() <= limit {
        s
    } else {
        s.take(limit as int)
    }
}

/// The most recent runs of all that are known.
pub open spec fn recent_of(s: Seq<ListedRun>, limit: nat) -> Seq<ListedRun> {
    at_most(each_once(listed(s)), limit)
}

fn is_listed_before(a: &RunView, b: &RunView) -> (r: bool)
    ensures
        r == listed_before(a@, b@),
{
    less(&b.updated_at, &a.updated_at) || (text_eq(&a.updated_at, &b.updated_at) && less(
        &b.run_id,
        &a.run_id,
    ))
}

fn sort_runs(v: &Vec<RunView>) -> (r: Vec<RunView>)
    ensures
        views(r@) == listed(views(v@)),
{
    let mut out: Vec<RunView> = Vec::new();
    let mut i: usize = 0;
    let ghost all = views(v@);
    assert(views(out@) =~= listed(all.take(0)));
    while i < v.len()
        invariant
            i <= v.len(),
            all == views(v@),
            out@.len() == i,
            views(out@) == listed(all.take(i as int)),
        decreases v.len() - i,
    {
        let ghost o = views(out@);
        let x = v[i].replicate();
        let ghost xv = x@;
        let mut k: usize = 0;
        while k < out.len() && !is_listed_before(&x, &out[k])
            invariant
                k <= out.len(),
                o == views(out@),
                xv == x@,
                place(o, xv, 0) == place(o, xv, k as int),
            decreases out.len() - k,
        {
            assert(o[k as int] == out@[k as int]@);
            k += 1;
        }
        assert(k < out.len() ==> o[k as int] == out@[k as int]@);
        assert(place(o, xv, 0) == k);
        assert(all.take(i + 1).drop_last() =~= all.take(i as int));
        assert(all[i as int] == xv);
        out.insert(k, x);
        assert(views(out@) =~= o.insert(k as int, xv));
        i += 1;
    }
    assert(all.take(i as int) =~= all);
    out
}

fn knows_run(v: &Vec<RunView>, id: &str) -> (r: bool)
    ensures
        r == has_run(views(v@), id@),
{
    let mut i: usize = 0;
    while i < v.len()
        invariant
            i <= v.len(),
            forall|k: int| 0 <= k < i ==> (#[trigger] views(v@)[k]).run_id != id@,
        decreases v.len() - i,
    {
        if text_eq(&v[i].run_id, id) {
            assert(views(v@)[i as int].run_id == id@);
            return true;
        }
        i += 1;
    }
    false
}

/// The most recent runs, the newest first, each once, at most `limit` of them.
pub fn recent(known: Vec<RunView>, limit: usize) -> (r: Vec<RunView>)
    ensures
        views(r@) == recent_of(views(known@), limit as nat),
{
    let sorted = sort_runs(&known);
    let ghost s = views(sorted@);
    let mut once: Vec<RunView> = Vec::new();
    let mut i: usize = 0;
    assert(views(once@) =~= each_once(s.take(0)));
    while i < sorted.len()
        invariant
            i <= sorted.len(),
            s == views(sorted@),
            views(once@) == each_once(s.take(i as int)),
        decreases sorted.len() - i,
    {
        assert(s.take(i + 1).drop_last() =~= s.take(i as int));
        assert(s[i as int] == sorted@[i as int]@);
        if !knows_run(&once, &sorted[i].run_id) {
            let ghost was = once@;
            let x = sorted[i].replicate();
            let ghost xv = x@;
            once.push(x);
            assert(views(once@) =~= views(was).push(xv));
        }
        i += 1;
    }
    assert(s.take(i as int) =~= s);
    let ghost all = views(once@);
    if once.len() > limit {
        once.truncate(limit);
        assert(views(once@) =~= all.take(limit as int));
    }
    once
}

// ---------------------------------------------------------------------------------------------
// Laws
// ---------------------------------------------------------------------------------------------
/// Whether runs stand in the order they are listed.
pub open spec fn newest_first(s: Seq<ListedRun>) -> bool {
    forall|i: int, j: int|
        0 <= i < j < s.len() ==> !listed_before(#[trigger] s[j], #[trigger] s[i])
}

/// Whether no two runs have the same id.
pub open spec fn distinct_runs(s: Seq<ListedRun>) -> bool {
    forall|i: int, j: int|
        0 <= i < j < s.len() ==> (#[trigger] s[i]).run_id != (#[trigger] s[j]).run_id
}

proof fn lemma_listed_before_trans(a: ListedRun, b: ListedRun, c: ListedRun)
    requires
        listed_before(a, b),
        listed_before(b, c),
    ensures
        listed_before(a, c),
{
    if text_less(b.updated_at, a.updated_at) && text_less(c.updated_at, b.updated_at) {
        lemma_text_less_trans(c.updated_at, b.updated_at, a.updated_at);
    }
    if text_less(b.run_id, a.run_id) && text_less(c.run_id, b.run_id) {
        lemma_text_less_trans(c.run_id, b.run_id, a.run_id);
    }
}

proof fn lemma_place(s: Seq<ListedRun>, x: ListedRun, from: int)
    requires
        0 <= from <= s.len(),
    ensures
        from <= place(s, x, from) <= s.len(),
        place(s, x, from) < s.len() ==> listed_before(x, s[place(s, x, from)]),
        forall|k: int| from <= k < place(s, x, from) ==> !listed_before(x, #[trigger] s[k]),
    decreases s.len() - from,
{
    if from < s.len() && !listed_before(x, s[from]) {
        lemma_place(s, x, from + 1);
    }
}

proof fn lemma_listed(s: Seq<ListedRun>)
    ensures
        newest_first(listed(s)),
    decreases s.len(),
{
    if s.len() > 0 {
        lemma_listed(s.drop_last());
        let o = listed(s.drop_last());
        let x = s.last();
        lemma_place(o, x, 0);
        let k = place(o, x, 0);
        let n = o.insert(k, x);
        assert forall|a: int, b: int| 0 <= a < b < n.len() implies !listed_before(
            #[trigger] n[b],
            #[trigger] n[a],
        ) by {
            let pa = if a < k {
                a
            } else {
                a - 1
            };
            let pb = if b < k {
                b
            } else {
                b - 1
            };
            if a == k {
                if listed_before(o[pb], x) {
                    lemma_listed_before_trans(o[pb], x, o[k]);
                    if pb == k {
                        lemma_text_less_total(o[k].updated_at, o[k].updated_at);
                        lemma_text_less_total(o[k].run_id, o[k].run_id);
                    }
                }
            } else if b == k {
                assert(!listed_before(x, o[pa]));
            } else {
                assert(!listed_before(o[pb], o[pa]));
            }
        }
    }
}

proof fn lemma_each_once(s: Seq<ListedRun>)
    requires
        newest_first(s),
    ensures
        newest_first(each_once(s)),
        distinct_runs(each_once(s)),
        forall|i: int|
            0 <= i < each_once(s).len() ==> s.contains(#[trigger] each_once(s)[i]),
        forall|i: int| 0 <= i < s.len() ==> has_run(each_once(s), (#[trigger] s[i]).run_id),
    decreases s.len(),
{
    if s.len() > 0 {
        let d = s.drop_last();
        assert(newest_first(d)) by {
            assert forall|i: int, j: int| 0 <= i < j < d.len() implies !listed_before(
                #[trigger] d[j],
                #[trigger] d[i],
            ) by {
                assert(!listed_before(s[j], s[i]));
            }
        }
        lemma_each_once(d);
        let before = each_once(d);
        let r = each_once(s);
        assert forall|i: int| 0 <= i < r.len() implies s.contains(#[trigger] r[i]) by {
            if i < before.len() {
                assert(d.contains(before[i]));
                let k = choose|k: int| 0 <= k < d.len() && d[k] == before[i];
                assert(s[k] == before[i]);
            } else {
                assert(s[s.len() - 1] == s.last());
            }
        }
        assert forall|i: int| 0 <= i < s.len() implies has_run(r, (#[trigger] s[i]).run_id) by {
            if i < d.len() {
                assert(has_run(before, d[i].run_id));
                let k = choose|k: int| 0 <= k < before.len() && (#[trigger] before[k]).run_id
                    == d[i].run_id;
                assert(r[k].run_id == s[i].run_id);
            } else {
                if !has_run(before, s.last().run_id) {
                    assert(r[before.len() as int].run_id == s.last().run_id);
                } else {
                    let k = choose|k: int| 0 <= k < before.len() && (#[trigger] before[k]).run_id
                        == s.last().run_id;
                    assert(r[k].run_id == s[i].run_id);
                }
            }
        }
        assert(newest_first(r)) by {
            assert forall|i: int, j: int| 0 <= i < j < r.len() implies !listed_before(
                #[trigger] r[j],
                #[trigger] r[i],
            ) by {
                if j < before.len() {
                    assert(!listed_before(before[j], before[i]));
                } else {
                    assert(d.contains(before[i]));
                    let k = choose|k: int| 0 <= k < d.len() && d[k] == before[i];
                    assert(!listed_before(s[s.len() - 1], s[k]));
                }
            }
        }
    }
}

/// A listing holds the newest runs first, each once, and no more than asked for.
pub proof fn a_listing_is_newest_first(s: Seq<ListedRun>, limit: nat)
    ensures
        newest_first(recent_of(s, limit)),
        distinct_runs(recent_of(s, limit)),
        recent_of(s, limit).len() <= limit,
{
    lemma_listed(s);
    lemma_each_once(listed(s));
}

/// A listing shows what the record of a run holds: each step under its id with its status, and the
/// gate that waits with its message; there is a duration exactly when the run has ended.
pub proof fn a_run_is_listed_as_recorded(
    st: RunStateView,
    created: Seq<char>,
    updated: Seq<char>,
    i: int,
)
    ensures
        ({
            let v = projected(st, created, updated);
            &&& v.run_id == uuid_text(st.run_id.0)
            &&& v.workflow == st.workflow
            &&& v.status == status_name(st.status)
            &&& v.created_at == created && v.updated_at == updated
            &&& v.steps.len() == st.steps.len()
            &&& 0 <= i < st.steps.len() ==> v.steps[i].id == st.steps[i].0 && v.steps[i].status
                == step_status_name(st.steps[i].1.status)
            &&& (v.duration_ms is Some) == st.status.terminal()
            &&& st.status.terminal() && st.updated_at.total() <= st.created_at.total()
                ==> v.duration_ms == Some(0u64)
            &&& v.gate is None ==> (0 <= i < st.steps.len() ==> st.steps[i].1.status
                != StepStatus::AwaitingApproval)
            &&& v.gate matches Some(g) ==> exists|k: int|
                0 <= k < st.steps.len() && (#[trigger] st.steps[k]).0 == g.step
                    && st.steps[k].1.status == StepStatus::AwaitingApproval && (match lookup(
                    st.steps[k].1.outputs,
                    "message"@,
                ) {
                    Some(ValueView::String(m)) => g.message == Some(m),
                    _ => g.message is None,
                })
        }),
{
    crate::engine::approval::a_decision_answers_a_waiting_gate(st.steps);
    lemma_waiting(st.steps, 0);
}

proof fn lemma_waiting(steps: Seq<(Seq<char>, StepStateView)>, from: int)
    requires
        0 <= from <= steps.len(),
    ensures
        from <= first_waiting(steps, from) <= steps.len(),
        first_waiting(steps, from) < steps.len() ==> steps[first_waiting(steps, from)].1.status
            == StepStatus::AwaitingApproval,
        forall|j: int|
            from <= j < first_waiting(steps, from) ==> (#[trigger] steps[j]).1.status
                != StepStatus::AwaitingApproval,
    decreases steps.len() - from,
{
    if from < steps.len() && steps[from].1.status != StepStatus::AwaitingApproval {
        lemma_waiting(steps, from + 1);
    }
}

/// The duration of a run that has ended is the whole milliseconds between its two moments.
pub proof fn a_duration_is_whole_milliseconds(st: RunStateView, ms: u64, rest: nat)
    requires
        st.status.terminal(),
        rest < 1_000_000,
        st.updated_at.total() == st.created_at.total() + ms * 1_000_000 + rest,
    ensures
        run_duration(st) == Some(ms),
{
    assert((ms * 1_000_000 + rest) / 1_000_000 == ms as int) by (nonlinear_arith)
        requires
            rest < 1_000_000,
    ;
}

proof fn lemma_insert_contains<A>(s: Seq<A>, at: int, y: A, x: A)
    requires
        0 <= at <= s.len(),
    ensures
        s.insert(at, y).contains(x) == (s.contains(x) || x == y),
{
    let n = s.insert(at, y);
    assert(n[at] == y);
    if s.contains(x) {
        let k = choose|k: int| 0 <= k < s.len() && s[k] == x;
        assert(n[if k < at {
            k
        } else {
            k + 1
        }] == x);
    }
    if n.contains(x) && x != y {
        let k = choose|k: int| 0 <= k < n.len() && n[k] == x;
        assert(s[if k < at {
            k
        } else {
            k - 1
        }] == x);
    }
}

proof fn lemma_last_contains<A>(s: Seq<A>, x: A)
    requires
        s.len() > 0,
    ensures
        s.contains(x) == (s.drop_last().contains(x) || x == s.last()),
{
    let d = s.drop_last();
    assert(s[s.len() - 1] == s.last());
    if d.contains(x) {
        let k = choose|k: int| 0 <= k < d.len() && d[k] == x;
        assert(s[k] == x);
    }
    if s.contains(x) && x != s.last() {
        let k = choose|k: int| 0 <= k < s.len() && s[k] == x;
        assert(d[k] == x);
    }
}

proof fn lemma_listed_same(s: Seq<ListedRun>, x: ListedRun)
    ensures
        listed(s).contains(x) == s.contains(x),
    decreases s.len(),
{
    if s.len() > 0 {
        let before = listed(s.drop_last());
        lemma_listed_same(s.drop_last(), x);
        lemma_place(before, s.last(), 0);
        lemma_insert_contains(before, place(before, s.last(), 0), s.last(), x);
        lemma_last_contains(s, x);
    }
}

/// Nothing comes into a listing of each run once before what comes before it, unless the run is
/// there already.
proof fn lemma_once_in_order(s: Seq<ListedRun>, i: int, j: int)
    requires
        newest_first(s),
        0 <= i < each_once(s).len(),
        0 <= j < s.len(),
    ensures
        has_run(each_once(s).take(i + 1), s[j].run_id) || exists|p: int|
            0 <= p < j && #[trigger] s[p] == each_once(s)[i],
    decreases s.len(),
{
    let d = s.drop_last();
    let before = each_once(d);
    let all = each_once(s);
    lemma_each_once(s);
    assert(newest_first(d)) by {
        assert forall|a: int, b: int| 0 <= a < b < d.len() implies !listed_before(
            #[trigger] d[b],
            #[trigger] d[a],
        ) by {
            assert(!listed_before(s[b], s[a]));
        }
    }
    if i < before.len() {
        assert(before.take(i + 1) =~= all.take(i + 1));
        if j < d.len() {
            lemma_once_in_order(d, i, j);
            assert(d[j] == s[j]);
            if !has_run(before.take(i + 1), d[j].run_id) {
                let p = choose|p: int| 0 <= p < j && #[trigger] d[p] == before[i];
                assert(s[p] == all[i]);
            }
        } else {
            lemma_each_once(d);
            assert(d.contains(before[i]));
            let p = choose|p: int| 0 <= p < d.len() && d[p] == before[i];
            assert(s[p] == all[i]);
        }
    } else {
        assert(all.take(i + 1) =~= all);
    }
}

/// A listing leaves no run out as long as there is room, and lists none that is not known. When
/// not every run fits, none that is left out was updated later than one that is listed.
pub proof fn a_listing_leaves_out_the_oldest(s: Seq<ListedRun>, limit: nat, i: int, j: int)
    requires
        0 <= j < s.len(),
        forall|k: int|
            0 <= k < recent_of(s, limit).len() ==> (#[trigger] recent_of(s, limit)[k]).run_id
                != s[j].run_id,
    ensures
        recent_of(s, limit).len() >= limit,
        0 <= i < recent_of(s, limit).len() ==> s.contains(recent_of(s, limit)[i]) && !text_less(
            recent_of(s, limit)[i].updated_at,
            s[j].updated_at,
        ),
{
    let l = listed(s);
    let e = each_once(l);
    let r = recent_of(s, limit);
    lemma_listed(s);
    lemma_each_once(l);
    lemma_listed_same(s, s[j]);
    assert(s.contains(s[j]));
    let k = choose|k: int| 0 <= k < l.len() && l[k] == s[j];
    assert(has_run(e, l[k].run_id));
    if r.len() < limit {
        let m = choose|m: int| 0 <= m < e.len() && (#[trigger] e[m]).run_id == l[k].run_id;
        assert(r[m].run_id == s[j].run_id);
    }
    if 0 <= i < r.len() {
        assert(r[i] == e[i]);
        assert(l.contains(e[i]));
        lemma_listed_same(s, e[i]);
        lemma_once_in_order(l, i, k);
        let t = e.take(i + 1);
        if has_run(t, l[k].run_id) {
            let m = choose|m: int| 0 <= m < t.len() && (#[trigger] t[m]).run_id == l[k].run_id;
            assert(r[m].run_id == s[j].run_id);
        }
        let p = choose|p: int| 0 <= p < k && #[trigger] l[p] == e[i];
        assert(!listed_before(l[k], l[p]));
    }
}

/// What is listed is known, each run once, and the later updated stands before the earlier.
pub proof fn a_listing_is_known_runs_in_order(s: Seq<ListedRun>, limit: nat, i: int, j: int)
    requires
        0 <= i < j < recent_of(s, limit).len(),
    ensures
        s.contains(recent_of(s, limit)[j]),
        recent_of(s, limit)[i].run_id != recent_of(s, limit)[j].run_id,
        !text_less(recent_of(s, limit)[i].updated_at, recent_of(s, limit)[j].updated_at),
        recent_of(s, limit)[i].updated_at == recent_of(s, limit)[j].updated_at ==> !text_less(
            recent_of(s, limit)[i].run_id,
            recent_of(s, limit)[j].run_id,
        ),
{
    let e = each_once(listed(s));
    lemma_listed(s);
    lemma_each_once(listed(s));
    let r = recent_of(s, limit);
    assert(r[i] == e[i] && r[j] == e[j]);
    lemma_listed_same(s, e[j]);
    assert(!listed_before(e[j], e[i]));
}

} // verus!
