//! Which of the runs left unfinished are resumed.

use super::ledger::Ledger;
use super::lifecycle::{is_last_named, is_served, serving_workflow};
use super::state::{RunState, RunStateView};
use crate::api::RunStatus;
use crate::ir::workflow::Workflow;
use crate::names::views;
use vstd::prelude::*;

verus! {

/// Whether a run that a store holds was left unfinished: it is not over, and does not wait for a
/// decision either.
pub fn is_unfinished(status: RunStatus) -> (r: bool)
    ensures
        r == (!status.terminal() && status != RunStatus::AwaitingApproval),
{
    match status {
        RunStatus::Pending | RunStatus::Running => true,
        _ => false,
    }
}

/// What becomes of a run that was left unfinished.
#[derive(Clone, Copy, Debug, PartialEq, Eq, Structural)]
pub enum Recovery {
    /// Its workflow is no longer served: what it left in the repository is reclaimed.
    Reclaim,
    /// It is being executed already and is left alone.
    Busy,
    /// It was claimed and is resumed with the workflow at this position.
    Resume { workflow: usize },
}

/// Whether `r` is what becomes of a run, given the claims held before it is looked at.
pub open spec fn recovers(
    running: Set<u128>,
    workflows: Seq<Workflow>,
    st: RunStateView,
    r: Recovery,
) -> bool {
    match r {
        Recovery::Reclaim => !is_served(workflows, st.workflow),
        Recovery::Busy => is_served(workflows, st.workflow) && running.contains(st.run_id@),
        Recovery::Resume { workflow } => is_last_named(workflows, st.workflow, workflow as int)
            && !running.contains(st.run_id@),
    }
}

/// The claims after the runs were looked at: those held before and those on the resumed runs.
pub open spec fn claims_after(
    running: Set<u128>,
    states: Seq<RunStateView>,
    plan: Seq<Recovery>,
    n: nat,
) -> Set<u128>
    decreases n,
{
    if n == 0 {
        running
    } else {
        let before = claims_after(running, states, plan, (n - 1) as nat);
        if plan[n - 1] is Resume {
            before.insert(states[n - 1].run_id@)
        } else {
            before
        }
    }
}

/// Whether `plan` says what becomes of each run, each looked at with the claims that the ones
/// before it left.
pub open spec fn is_plan(
    running: Set<u128>,
    workflows: Seq<Workflow>,
    states: Seq<RunStateView>,
    plan: Seq<Recovery>,
) -> bool {
    &&& plan.len() == states.len()
    &&& forall|i: int|
        0 <= i < plan.len() ==> recovers(
            claims_after(running, states, plan, i as nat),
            workflows,
            states[i],
            #[trigger] plan[i],
        )
}

/// Decides about one run, and claims it when it is to be resumed.
fn recover(ledger: &mut Ledger, workflows: &Vec<Workflow>, state: &RunState) -> (r: Recovery)
    ensures
        recovers(old(ledger)@.running, workflows@, state@, r),
        final(ledger)@.running == (if r is Resume {
            old(ledger)@.running.insert(state@.run_id@)
        } else {
            old(ledger)@.running
        }),
        final(ledger)@.cancellable == old(ledger)@.cancellable,
        final(ledger)@.mirror == old(ledger)@.mirror,
{
    match serving_workflow(workflows, state.workflow.as_str()) {
        None => Recovery::Reclaim,
        Some(i) => if ledger.claim_run(state.run_id) {
            Recovery::Resume { workflow: i }
        } else {
            assert(is_served(workflows@, state@.workflow)) by {
                assert(workflows@[i as int].name@ == state@.workflow);
            }
            assert(old(ledger)@.running.insert(state@.run_id@) =~= old(ledger)@.running);
            Recovery::Busy
        },
    }
}

/// Decides about each of the runs left unfinished, and claims those that are to be resumed.
pub fn plan_recovery(
    ledger: &mut Ledger,
    workflows: &Vec<Workflow>,
    states: &Vec<RunState>,
) -> (plan: Vec<Recovery>)
    ensures
        is_plan(old(ledger)@.running, workflows@, views(states@), plan@),
        final(ledger)@.running == claims_after(
            old(ledger)@.running,
            views(states@),
            plan@,
            plan@.len(),
        ),
        final(ledger)@.cancellable == old(ledger)@.cancellable,
        final(ledger)@.mirror == old(ledger)@.mirror,
{
    let mut plan: Vec<Recovery> = Vec::new();
    let mut i: usize = 0;
    let ghost running = old(ledger)@.running;
    let ghost all = views(states@);
    while i < states.len()
        invariant
            i <= states.len(),
            all == views(states@),
            running == old(ledger)@.running,
            plan@.len() == i,
            forall|k: int|
                0 <= k < i ==> recovers(
                    claims_after(running, all, plan@, k as nat),
                    workflows@,
                    all[k],
                    #[trigger] plan@[k],
                ),
            ledger@.running == claims_after(running, all, plan@, i as nat),
            ledger@.cancellable == old(ledger)@.cancellable,
            ledger@.mirror == old(ledger)@.mirror,
        decreases states.len() - i,
    {
        let ghost before = plan@;
        let r = recover(ledger, workflows, &states[i]);
        plan.push(r);
        proof {
            assert(all[i as int] == states@[i as int]@);
            assert(plan@ == before.push(r));
            assert(plan@[i as int] == r);
            assert forall|k: nat| k <= i implies #[trigger] claims_after(running, all, plan@, k)
                == claims_after(running, all, before, k) by {
                lemma_claims_of_prefix(running, all, before, r, k);
            }
            assert(claims_after(running, all, plan@, (i + 1) as nat) == (if r is Resume {
                claims_after(running, all, plan@, i as nat).insert(all[i as int].run_id@)
            } else {
                claims_after(running, all, plan@, i as nat)
            }));
        }
        i += 1;
    }
    plan
}

proof fn lemma_claims_of_prefix(
    running: Set<u128>,
    states: Seq<RunStateView>,
    plan: Seq<Recovery>,
    next: Recovery,
    n: nat,
)
    requires
        n <= plan.len(),
    ensures
        claims_after(running, states, plan.push(next), n) == claims_after(running, states, plan, n),
    decreases n,
{
    if n > 0 {
        lemma_claims_of_prefix(running, states, plan, next, (n - 1) as nat);
    }
}

proof fn lemma_claims_grow(
    running: Set<u128>,
    states: Seq<RunStateView>,
    plan: Seq<Recovery>,
    m: nat,
    n: nat,
    id: u128,
)
    requires
        m <= n,
        claims_after(running, states, plan, m).contains(id),
    ensures
        claims_after(running, states, plan, n).contains(id),
    decreases n,
{
    if m < n {
        lemma_claims_grow(running, states, plan, m, (n - 1) as nat, id);
    }
}

/// A run is resumed at most once, however often it is listed, and never while it is executed.
pub proof fn a_run_is_resumed_once(
    running: Set<u128>,
    workflows: Seq<Workflow>,
    states: Seq<RunStateView>,
    plan: Seq<Recovery>,
    i: int,
    j: int,
)
    requires
        is_plan(running, workflows, states, plan),
        0 <= i < j < plan.len(),
        plan[i] is Resume,
        plan[j] is Resume,
    ensures
        states[i].run_id@ != states[j].run_id@,
        !running.contains(states[i].run_id@),
        !running.contains(states[j].run_id@),
{
    let id = states[i].run_id@;
    assert(recovers(
        claims_after(running, states, plan, i as nat),
        workflows,
        states[i],
        plan[i],
    ));
    assert(recovers(
        claims_after(running, states, plan, j as nat),
        workflows,
        states[j],
        plan[j],
    ));
    assert(claims_after(running, states, plan, (i + 1) as nat).contains(id));
    lemma_claims_grow(running, states, plan, (i + 1) as nat, j as nat, id);
    assert(claims_after(running, states, plan, 0) == running);
    if running.contains(id) {
        lemma_claims_grow(running, states, plan, 0, i as nat, id);
    }
    if running.contains(states[j].run_id@) {
        lemma_claims_grow(running, states, plan, 0, j as nat, states[j].run_id@);
    }
}

/// Every run whose workflow is served and that nothing executes is resumed, unless it was listed
/// before.
pub proof fn a_served_run_is_resumed(
    running: Set<u128>,
    workflows: Seq<Workflow>,
    states: Seq<RunStateView>,
    plan: Seq<Recovery>,
    i: int,
)
    requires
        is_plan(running, workflows, states, plan),
        0 <= i < plan.len(),
        is_served(workflows, states[i].workflow),
        !running.contains(states[i].run_id@),
        forall|k: int| 0 <= k < i ==> (#[trigger] states[k]).run_id@ != states[i].run_id@,
    ensures
        plan[i] is Resume,
{
    lemma_unclaimed(running, states, plan, i as nat, states[i].run_id@);
    assert(recovers(
        claims_after(running, states, plan, i as nat),
        workflows,
        states[i],
        plan[i],
    ));
}

proof fn lemma_unclaimed(
    running: Set<u128>,
    states: Seq<RunStateView>,
    plan: Seq<Recovery>,
    n: nat,
    id: u128,
)
    requires
        n <= states.len(),
        !running.contains(id),
        forall|k: int| 0 <= k < n ==> (#[trigger] states[k]).run_id@ != id,
    ensures
        !claims_after(running, states, plan, n).contains(id),
    decreases n,
{
    if n > 0 {
        lemma_unclaimed(running, states, plan, (n - 1) as nat, id);
        assert(states[n - 1].run_id@ != id);
    }
}

/// A run is reclaimed exactly when no workflow with its name is served, one that is already being
/// run is left alone, and one that is resumed is resumed with a workflow of its own name.
pub proof fn a_run_is_recovered_by_its_own_workflow(
    running: Set<u128>,
    workflows: Seq<Workflow>,
    states: Seq<RunStateView>,
    plan: Seq<Recovery>,
    i: int,
)
    requires
        is_plan(running, workflows, states, plan),
        0 <= i < plan.len(),
    ensures
        (plan[i] is Reclaim) == (forall|k: int|
            0 <= k < workflows.len() ==> (#[trigger] workflows[k]).name@ != states[i].workflow),
        running.contains(states[i].run_id@) ==> !(plan[i] is Resume),
        plan[i] matches Recovery::Resume { workflow } ==> workflow < workflows.len()
            && workflows[workflow as int].name@ == states[i].workflow,
{
    assert(recovers(
        claims_after(running, states, plan, i as nat),
        workflows,
        states[i],
        plan[i],
    ));
    if running.contains(states[i].run_id@) {
        lemma_claims_stay(running, states, plan, i as nat, states[i].run_id@);
    }
    if let Recovery::Resume { workflow } = plan[i] {
        assert(workflows[workflow as int].name@ == states[i].workflow);
    }
}

proof fn lemma_claims_stay(
    running: Set<u128>,
    states: Seq<RunStateView>,
    plan: Seq<Recovery>,
    n: nat,
    id: u128,
)
    requires
        running.contains(id),
    ensures
        claims_after(running, states, plan, n).contains(id),
    decreases n,
{
    if n > 0 {
        lemma_claims_stay(running, states, plan, (n - 1) as nat, id);
    }
}

/// Of the workflows that share a run's name, the last resumes it.
pub proof fn the_last_workflow_of_its_name_resumes(
    running: Set<u128>,
    workflows: Seq<Workflow>,
    states: Seq<RunStateView>,
    plan: Seq<Recovery>,
    i: int,
    k: int,
)
    requires
        is_plan(running, workflows, states, plan),
        0 <= i < plan.len(),
        plan[i] is Resume,
        0 <= k < workflows.len(),
        workflows[k].name@ == states[i].workflow,
    ensures
        k <= plan[i]->workflow,
{
    assert(recovers(
        claims_after(running, states, plan, i as nat),
        workflows,
        states[i],
        plan[i],
    ));
}

} // verus!
