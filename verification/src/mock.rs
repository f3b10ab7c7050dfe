//! In-memory doubles of what a run is plugged into: a provider that echoes, an action that hands
//! its arguments back, a scripted trigger and a store without a database.

use crate::api::{RunInput, RunInputView, RunStatus, SideEffectView};
use crate::engine::dispatch::{ActionOutcome, ActionOutcomeView, InvocationOutcome};
use crate::engine::state::{RunState, RunStateView, WorkspaceHandle, WorkspaceHandleView};
use crate::ids::{ProviderRef, RunId};
use crate::json::{Value, ValueView};
use crate::names::{views, OrderedMap, Replicate};
use std::collections::VecDeque;
use vstd::prelude::*;

verus! {

/// A provider that gives its prompt back as its output.
#[derive(Debug)]
pub struct EchoProvider(ProviderRef);

impl View for EchoProvider {
    type V = Seq<char>;

    closed spec fn view(&self) -> Seq<char> {
        self.0@
    }
}

impl EchoProvider {
    /// An echo provider of the given name.
    pub fn new(id: ProviderRef) -> (r: Self)
        ensures
            r@ == id@,
    {
        EchoProvider(id)
    }

    /// The name it answers to.
    pub fn id(&self) -> (r: ProviderRef)
        ensures
            r@ == self@,
    {
        self.0.replicate()
    }

    /// Succeeds with the prompt, or with nothing where there is no prompt.
    pub fn invoke(&self, prompt: Option<String>) -> (r: InvocationOutcome)
        ensures
            r.exit_code == 0,
            r.stdout@ == (match prompt {
                Some(p) => p@,
                None => Seq::empty(),
            }),
            r.stderr@ == Seq::<char>::empty(),
            r.outputs@ == Seq::<(Seq<char>, ValueView)>::empty(),
            r.usage is None,
    {
        proof {
            reveal_strlit("");
        }
        let stdout = match prompt {
            Some(p) => p,
            None => "".to_owned(),
        };
        assert(""@ =~= Seq::<char>::empty());
        InvocationOutcome {
            exit_code: 0,
            stdout,
            stderr: "".to_owned(),
            outputs: OrderedMap::new(),
            usage: None,
        }
    }
}

/// A workspace that is always the same directory and is never cleaned up.
#[derive(Debug)]
pub struct TmpWorkspace(pub String);

impl TmpWorkspace {
    /// The kind it is registered under.
    pub fn kind(&self) -> (r: &'static str)
        ensures
            r@ == "tmp"@,
    {
        "tmp"
    }

    /// The directory, for a run.
    pub fn acquire(&self, run_id: RunId) -> (r: WorkspaceHandle)
        ensures
            r@ == (WorkspaceHandleView {
                run_id,
                path: self.0@,
                branch: None,
                token: Seq::empty(),
            }),
    {
        proof {
            reveal_strlit("");
        }
        assert(""@ =~= Seq::<char>::empty());
        WorkspaceHandle { run_id, path: self.0.clone(), branch: None, token: "".to_owned() }
    }
}

/// An action that hands its arguments back as its outputs.
#[derive(Debug)]
pub struct NoopAction(pub String);

impl NoopAction {
    /// The name it is registered under.
    pub fn name(&self) -> (r: &str)
        ensures
            r@ == self.0@,
    {
        self.0.as_str()
    }

    /// Succeeds with the arguments as outputs and no side effects.
    pub fn run(&self, args: OrderedMap<Value>) -> (r: ActionOutcome)
        ensures
            r@ == (ActionOutcomeView {
                exit_code: 0,
                outputs: args@,
                stderr: Seq::empty(),
                side_effects: Seq::empty(),
            }),
    {
        proof {
            reveal_strlit("");
        }
        assert(""@ =~= Seq::<char>::empty());
        let r = ActionOutcome {
            exit_code: 0,
            outputs: args,
            stderr: "".to_owned(),
            side_effects: Vec::new(),
        };
        assert(views(r.side_effects@) =~= Seq::<SideEffectView>::empty());
        r
    }
}

/// A trigger that plays a fixed list of inputs back, the first one first.
#[derive(Debug)]
pub struct ScriptedTrigger(VecDeque<RunInput>);

impl View for ScriptedTrigger {
    type V = Seq<RunInputView>;

    closed spec fn view(&self) -> Seq<RunInputView> {
        views(self.0@)
    }
}

impl ScriptedTrigger {
    /// A trigger that will give `events` in order.
    pub fn new(events: Vec<RunInput>) -> (r: Self)
        ensures
            r@ == views(events@),
    {
        let ghost want = views(events@);
        let mut rest = events;
        let mut queue: VecDeque<RunInput> = VecDeque::new();
        assert(want.skip(want.len() as int) =~= views(queue@));
        assert(want.take(want.len() as int) =~= want);
        while rest.len() > 0
            invariant
                rest@.len() <= want.len(),
                views(rest@) == want.take(rest@.len() as int),
                views(queue@) == want.skip(rest@.len() as int),
            decreases rest@.len(),
        {
            assert(views(rest@).last() == rest@.last()@);
            let last = rest.pop().unwrap();
            let ghost before = queue@;
            let ghost n = rest@.len() as int;
            queue.push_front(last);
            assert(views(queue@) =~= seq![last@] + views(before));
            assert(want.take(n + 1)[n] == last@);
            assert(want.skip(n) =~= seq![want[n]] + want.skip(n + 1));
            assert(views(rest@) =~= want.take(n + 1).take(n));
            assert(want.take(n + 1).take(n) =~= want.take(n));
        }
        assert(want.skip(0) =~= want);
        ScriptedTrigger(queue)
    }

    /// The kind it is registered under.
    pub fn kind(&self) -> (r: &'static str)
        ensures
            r@ == "scripted"@,
    {
        "scripted"
    }

    /// The next input; nothing once all have been given.
    pub fn next_event(&mut self) -> (r: Option<RunInput>)
        ensures
            match r {
                Some(e) => {
                    &&& old(self)@.len() > 0
                    &&& e@ == old(self)@[0]
                    &&& final(self)@ == old(self)@.skip(1)
                },
                None => old(self)@.len() == 0 && final(self)@ == old(self)@,
            },
    {
        let r = self.0.pop_front();
        assert(r is Some ==> self@ =~= old(self)@.skip(1));
        r
    }
}

// ---------------------------------------------------------------------------------------------
// The store
// ---------------------------------------------------------------------------------------------
/// The position of a run; the number of runs when there is none.
pub open spec fn place_of(runs: Seq<RunStateView>, run_id: RunId) -> int
    decreases runs.len(),
{
    if runs.len() == 0 {
        0
    } else if place_of(runs.drop_last(), run_id) < runs.len() - 1 {
        place_of(runs.drop_last(), run_id)
    } else if runs.last().run_id == run_id {
        runs.len() - 1
    } else {
        runs.len() as int
    }
}

/// The state that is stored of a run.
pub open spec fn stored_run(runs: Seq<RunStateView>, run_id: RunId) -> Option<RunStateView> {
    if place_of(runs, run_id) < runs.len() {
        Some(runs[place_of(runs, run_id)])
    } else {
        None
    }
}

/// The runs after one was written: in the place it had, or after all others.
pub open spec fn with_run(runs: Seq<RunStateView>, st: RunStateView) -> Seq<RunStateView> {
    if place_of(runs, st.run_id) < runs.len() {
        runs.update(place_of(runs, st.run_id), st)
    } else {
        runs.push(st)
    }
}

/// The runs that are not over.
pub open spec fn incomplete(runs: Seq<RunStateView>) -> Seq<RunStateView>
    decreases runs.len(),
{
    if runs.len() == 0 {
        Seq::empty()
    } else if runs.last().status.terminal() {
        incomplete(runs.drop_last())
    } else {
        incomplete(runs.drop_last()).push(runs.last())
    }
}

proof fn lemma_place(runs: Seq<RunStateView>, run_id: RunId)
    ensures
        0 <= place_of(runs, run_id) <= runs.len(),
        place_of(runs, run_id) < runs.len() ==> runs[place_of(runs, run_id)].run_id == run_id,
        forall|k: int|
            0 <= k < place_of(runs, run_id) ==> (#[trigger] runs[k]).run_id != run_id,
    decreases runs.len(),
{
    if runs.len() > 0 {
        let before = runs.drop_last();
        lemma_place(before, run_id);
        assert forall|k: int| 0 <= k < place_of(runs, run_id) implies (
        #[trigger] runs[k]).run_id != run_id by {
            if k < before.len() {
                assert(before[k] == runs[k]);
            }
        }
    }
}

/// The first run of that id is the one whose place is asked for.
proof fn lemma_place_is(runs: Seq<RunStateView>, run_id: RunId, i: int)
    requires
        0 <= i <= runs.len(),
        forall|k: int| 0 <= k < i ==> (#[trigger] runs[k]).run_id != run_id,
        i < runs.len() ==> runs[i].run_id == run_id,
    ensures
        place_of(runs, run_id) == i,
{
    lemma_place(runs, run_id);
}

/// A store that keeps everything in memory.
#[derive(Debug)]
pub struct MemStore {
    runs: Vec<RunState>,
}

impl View for MemStore {
    type V = Seq<RunStateView>;

    closed spec fn view(&self) -> Seq<RunStateView> {
        views(self.runs@)
    }
}

impl MemStore {
    /// An empty store.
    pub fn new() -> (r: Self)
        ensures
            r@ == Seq::<RunStateView>::empty(),
    {
        let r = MemStore { runs: Vec::new() };
        assert(r@ =~= Seq::<RunStateView>::empty());
        r
    }

    fn place(&self, run_id: RunId) -> (r: usize)
        ensures
            r == place_of(self@, run_id),
            r <= self@.len(),
    {
        let mut i: usize = 0;
        while i < self.runs.len()
            invariant
                i <= self.runs.len(),
                forall|k: int| 0 <= k < i ==> (#[trigger] self@[k]).run_id != run_id,
            decreases self.runs.len() - i,
        {
            assert(self@[i as int] == self.runs@[i as int]@);
            if self.runs[i].run_id == run_id {
                proof {
                    lemma_place_is(self@, run_id, i as int);
                }
                return i;
            }
            i += 1;
        }
        proof {
            lemma_place_is(self@, run_id, i as int);
        }
        i
    }

    /// Writes a copy of a run, over the one that was there.
    pub fn checkpoint(&mut self, state: &RunState)
        ensures
            final(self)@ == with_run(old(self)@, state@),
    {
        let i = self.place(state.run_id);
        let copy = state.replicate();
        if i < self.runs.len() {
            self.runs.set(i, copy);
        } else {
            self.runs.push(copy);
        }
        assert(self@ =~= with_run(old(self)@, state@));
    }

    /// Copies of the runs that are not over.
    pub fn load_incomplete(&self) -> (r: Vec<RunState>)
        ensures
            views(r@) == incomplete(self@),
    {
        let mut out: Vec<RunState> = Vec::new();
        let mut i: usize = 0;
        assert(views(out@) =~= incomplete(self@.take(0)));
        while i < self.runs.len()
            invariant
                i <= self.runs.len(),
                views(out@) == incomplete(self@.take(i as int)),
            decreases self.runs.len() - i,
        {
            let st = &self.runs[i];
            let ghost before = out@;
            assert(self@.take(i + 1).drop_last() =~= self@.take(i as int));
            assert(self@.take(i + 1).last() == st@);
            if !st.status.is_terminal() {
                let copy = st.replicate();
                out.push(copy);
                assert(views(out@) =~= views(before).push(st@));
            }
            i += 1;
        }
        assert(self@.take(i as int) =~= self@);
        out
    }

    /// A copy of a run.
    pub fn load_run(&self, run_id: RunId) -> (r: Option<RunState>)
        ensures
            match r {
                Some(st) => stored_run(self@, run_id) == Some(st@),
                None => stored_run(self@, run_id) is None,
            },
    {
        let i = self.place(run_id);
        if i < self.runs.len() {
            Some(self.runs[i].replicate())
        } else {
            None
        }
    }
}

/// What was written of a run is what is read of it, and what is read of every other run stays.
pub proof fn a_checkpoint_is_read_back(runs: Seq<RunStateView>, st: RunStateView, other: RunId)
    ensures
        stored_run(with_run(runs, st), st.run_id) == Some(st),
        other != st.run_id ==> stored_run(with_run(runs, st), other) == stored_run(runs, other),
{
    let after = with_run(runs, st);
    let i = place_of(runs, st.run_id);
    lemma_place(runs, st.run_id);
    lemma_place(runs, other);
    lemma_place_is(after, st.run_id, i);
    if other != st.run_id {
        let j = place_of(runs, other);
        if j < runs.len() {
            lemma_place_is(after, other, j);
        } else {
            lemma_place_is(after, other, after.len() as int);
        }
    }
}

/// A run is left to finish exactly when it is stored and has not ended.
pub proof fn unended_runs_are_left_to_finish(runs: Seq<RunStateView>, st: RunStateView)
    ensures
        incomplete(runs).contains(st) == (runs.contains(st) && st.status != RunStatus::Succeeded
            && st.status != RunStatus::Failed && st.status != RunStatus::Cancelled),
    decreases runs.len(),
{
    if runs.len() > 0 {
        let d = runs.drop_last();
        unended_runs_are_left_to_finish(d, st);
        let before = incomplete(d);
        let all = incomplete(runs);
        assert(runs[runs.len() - 1] == runs.last());
        if d.contains(st) {
            let k = choose|k: int| 0 <= k < d.len() && d[k] == st;
            assert(runs[k] == st);
        }
        if runs.contains(st) && st != runs.last() {
            let k = choose|k: int| 0 <= k < runs.len() && runs[k] == st;
            assert(d[k] == st);
        }
        if before.contains(st) {
            let k = choose|k: int| 0 <= k < before.len() && before[k] == st;
            assert(all[k] == st);
        }
        if all.contains(st) {
            let k = choose|k: int| 0 <= k < all.len() && all[k] == st;
            if k < before.len() {
                assert(before[k] == st);
            }
        }
        if st == runs.last() && !st.status.terminal() {
            assert(all[before.len() as int] == st);
        }
    }
}

} // verus!
