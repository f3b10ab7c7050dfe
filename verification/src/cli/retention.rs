//! Which stored runs a prune deletes, and what it reports.

use super::inspect::{status_name, status_str};
use super::prune::{PrunePolicy, PruneReport, PrunedCount, PrunedCountView};
use crate::api::RunStatus;
use crate::names::views;
use crate::text::text_eq;
use crate::time::Timestamp;
use vstd::prelude::*;

verus! {

/// What is looked at of a stored run.
#[derive(Debug)]
pub struct StoredRun {
    pub workflow: String,
    pub status: RunStatus,
    pub updated_at: Timestamp,
    /// How many events are recorded of it.
    pub events: u64,
}

/// The mathematical form of a [`StoredRun`].
#[verifier::ext_equal]
pub struct StoredRunView {
    pub workflow: Seq<char>,
    pub status: RunStatus,
    pub updated_at: Timestamp,
    pub events: u64,
}

impl View for StoredRun {
    type V = StoredRunView;

    open spec fn view(&self) -> StoredRunView {
        StoredRunView {
            workflow: self.workflow@,
            status: self.status,
            updated_at: self.updated_at,
            events: self.events,
        }
    }
}

/// Whether a policy speaks of a run: it is over, and of the workflow the policy names, if it
/// names one.
pub open spec fn is_covered(r: StoredRunView, policy: PrunePolicy) -> bool {
    r.status.terminal() && (policy.workflow matches Some(w) ==> w@ == r.workflow)
}

/// Whether a run was last updated longer ago than an age in seconds.
pub open spec fn is_expired(r: StoredRunView, max_age: Option<i64>, now: Timestamp) -> bool {
    max_age matches Some(age) && now.total() - r.updated_at.total() > age * 1_000_000_000
}

/// Whether run `j` is over and of the same workflow as run `i`, and was updated later; of runs
/// updated at one moment, the one listed first counts as later.
pub open spec fn is_newer(runs: Seq<StoredRunView>, j: int, i: int) -> bool {
    &&& runs[j].status.terminal()
    &&& runs[j].workflow == runs[i].workflow
    &&& runs[j].updated_at.total() > runs[i].updated_at.total() || (runs[j].updated_at.total()
        == runs[i].updated_at.total() && j < i)
}

/// How many of the first `n` runs are newer than run `i`.
pub open spec fn newer_count(runs: Seq<StoredRunView>, i: int, n: nat) -> nat
    decreases n,
{
    if n == 0 {
        0
    } else {
        newer_count(runs, i, (n - 1) as nat) + (if is_newer(runs, n - 1, i) {
            1nat
        } else {
            0nat
        })
    }
}

/// Whether a run is beyond the number of runs that its workflow keeps.
pub open spec fn is_surplus(runs: Seq<StoredRunView>, keep_last: Option<u32>, i: int) -> bool {
    keep_last matches Some(k) && newer_count(runs, i, runs.len()) >= k
}

/// Whether a run is deleted: the policy speaks of it, and it is too old or one too many.
pub open spec fn is_pruned(
    runs: Seq<StoredRunView>,
    policy: PrunePolicy,
    now: Timestamp,
    i: int,
) -> bool {
    is_covered(runs[i], policy) && (is_expired(runs[i], policy.max_age, now) || is_surplus(
        runs,
        policy.keep_last,
        i,
    ))
}

/// The positions of the deleted runs among the first `n`.
pub open spec fn pruned_positions(
    runs: Seq<StoredRunView>,
    policy: PrunePolicy,
    now: Timestamp,
    n: nat,
) -> Seq<usize>
    decreases n,
{
    if n == 0 {
        Seq::empty()
    } else {
        let before = pruned_positions(runs, policy, now, (n - 1) as nat);
        if is_pruned(runs, policy, now, n - 1) {
            before.push((n - 1) as usize)
        } else {
            before
        }
    }
}

fn count_newer(runs: &Vec<StoredRun>, i: usize) -> (r: usize)
    requires
        i < runs.len(),
    ensures
        r == newer_count(views(runs@), i as int, runs@.len()),
{
    let ghost all = views(runs@);
    let mut n: usize = 0;
    let mut j: usize = 0;
    while j < runs.len()
        invariant
            i < runs.len(),
            j <= runs.len(),
            n <= j,
            all == views(runs@),
            n == newer_count(all, i as int, j as nat),
        decreases runs.len() - j,
    {
        let a = &runs[j];
        let b = &runs[i];
        assert(all[j as int] == a@ && all[i as int] == b@);
        let at = a.updated_at.total_nanos();
        let bt = b.updated_at.total_nanos();
        if a.status.is_terminal() && text_eq(&a.workflow, &b.workflow) && (at > bt || (at == bt && j
            < i)) {
            n += 1;
        }
        j += 1;
    }
    n
}

fn expired(r: &StoredRun, max_age: Option<i64>, now: Timestamp) -> (b: bool)
    ensures
        b == is_expired(r@, max_age, now),
{
    match max_age {
        Some(age) => now.total_nanos() - r.updated_at.total_nanos() > age as i128
            * 1_000_000_000,
        None => false,
    }
}

/// The positions of the runs that a prune deletes.
pub fn select_pruned(runs: &Vec<StoredRun>, policy: &PrunePolicy, now: Timestamp) -> (r: Vec<usize>)
    ensures
        r@ == pruned_positions(views(runs@), *policy, now, runs@.len()),
{
    let ghost all = views(runs@);
    let mut out: Vec<usize> = Vec::new();
    let mut i: usize = 0;
    while i < runs.len()
        invariant
            i <= runs.len(),
            all == views(runs@),
            out@ == pruned_positions(all, *policy, now, i as nat),
        decreases runs.len() - i,
    {
        let r = &runs[i];
        assert(all[i as int] == r@);
        let named = match &policy.workflow {
            Some(w) => text_eq(w.as_str(), &r.workflow),
            None => true,
        };
        if r.status.is_terminal() && named {
            let surplus = match policy.keep_last {
                Some(k) => count_newer(runs, i) >= k as usize,
                None => false,
            };
            if surplus || expired(r, policy.max_age, now) {
                out.push(i);
            }
        }
        i += 1;
    }
    out
}

// ---------------------------------------------------------------------------------------------
// The report
// ---------------------------------------------------------------------------------------------
/// The first entry at or after `from` for a workflow and status.
pub open spec fn entry_for(
    counts: Seq<PrunedCountView>,
    workflow: Seq<char>,
    status: Seq<char>,
    from: int,
) -> int
    decreases counts.len() - from,
{
    if from < 0 || from >= counts.len() {
        counts.len() as int
    } else if counts[from].workflow == workflow && counts[from].status == status {
        from
    } else {
        entry_for(counts, workflow, status, from + 1)
    }
}

/// The counts with one run more.
pub open spec fn counted(counts: Seq<PrunedCountView>, r: StoredRunView) -> Seq<PrunedCountView> {
    let k = entry_for(counts, r.workflow, status_name(r.status), 0);
    if k < counts.len() {
        counts.update(
            k,
            PrunedCountView { count: (counts[k].count + 1) as u64, ..counts[k] },
        )
    } else {
        counts.push(
            PrunedCountView { workflow: r.workflow, status: status_name(r.status), count: 1 },
        )
    }
}

/// The counts of the first `n` deleted runs.
pub open spec fn counts_of(
    runs: Seq<StoredRunView>,
    pruned: Seq<usize>,
    n: nat,
) -> Seq<PrunedCountView>
    decreases n,
{
    if n == 0 {
        Seq::empty()
    } else {
        counted(counts_of(runs, pruned, (n - 1) as nat), runs[pruned[n - 1] as int])
    }
}

/// How many events the first `n` deleted runs have, up to the most a number can hold.
pub open spec fn events_of(runs: Seq<StoredRunView>, pruned: Seq<usize>, n: nat) -> u64
    decreases n,
{
    if n == 0 {
        0
    } else {
        let sum = events_of(runs, pruned, (n - 1) as nat) + runs[pruned[n - 1] as int].events;
        if sum > u64::MAX {
            u64::MAX
        } else {
            sum as u64
        }
    }
}

proof fn lemma_entry_for(
    counts: Seq<PrunedCountView>,
    workflow: Seq<char>,
    status: Seq<char>,
    from: int,
)
    requires
        0 <= from <= counts.len(),
    ensures
        from <= entry_for(counts, workflow, status, from) <= counts.len(),
    decreases counts.len() - from,
{
    if from < counts.len() {
        if !(counts[from].workflow == workflow && counts[from].status == status) {
            lemma_entry_for(counts, workflow, status, from + 1);
        }
    }
}

proof fn lemma_counts_are_bounded(runs: Seq<StoredRunView>, pruned: Seq<usize>, n: nat)
    requires
        n <= u64::MAX,
    ensures
        forall|k: int|
            0 <= k < counts_of(runs, pruned, n).len() ==> (#[trigger] counts_of(runs, pruned, n)[k])
                .count <= n,
    decreases n,
{
    if n > 0 {
        lemma_counts_are_bounded(runs, pruned, (n - 1) as nat);
        let before = counts_of(runs, pruned, (n - 1) as nat);
        let r = runs[pruned[n - 1] as int];
        lemma_entry_for(before, r.workflow, status_name(r.status), 0);
    }
}

fn find_entry(counts: &Vec<PrunedCount>, workflow: &str, status: &str) -> (r: usize)
    ensures
        r == entry_for(views(counts@), workflow@, status@, 0),
        r <= counts@.len(),
{
    let mut k: usize = 0;
    while k < counts.len()
        invariant
            k <= counts.len(),
            entry_for(views(counts@), workflow@, status@, 0) == entry_for(
                views(counts@),
                workflow@,
                status@,
                k as int,
            ),
        decreases counts.len() - k,
    {
        assert(views(counts@)[k as int] == counts@[k as int]@);
        if text_eq(&counts[k].workflow, workflow) && text_eq(&counts[k].status, status) {
            return k;
        }
        k += 1;
    }
    k
}

/// What a prune that deletes the runs at these positions reports.
pub fn prune_report(runs: &Vec<StoredRun>, pruned: &Vec<usize>, dry_run: bool) -> (r: PruneReport)
    requires
        forall|k: int| 0 <= k < pruned@.len() ==> (#[trigger] pruned@[k]) < runs@.len(),
    ensures
        r.runs_pruned == pruned@.len(),
        r.events_pruned == events_of(views(runs@), pruned@, pruned@.len()),
        views(r.per_workflow@) == counts_of(views(runs@), pruned@, pruned@.len()),
        r.dry_run == dry_run,
{
    let ghost all = views(runs@);
    let mut counts: Vec<PrunedCount> = Vec::new();
    let mut events: u64 = 0;
    let mut i: usize = 0;
    assert(views(counts@) =~= Seq::<PrunedCountView>::empty());
    while i < pruned.len()
        invariant
            i <= pruned.len(),
            all == views(runs@),
            forall|k: int| 0 <= k < pruned@.len() ==> (#[trigger] pruned@[k]) < runs@.len(),
            views(counts@) == counts_of(all, pruned@, i as nat),
            events == events_of(all, pruned@, i as nat),
        decreases pruned.len() - i,
    {
        let run = &runs[pruned[i]];
        assert(all[pruned@[i as int] as int] == run@);
        let status = status_str(run.status);
        let k = find_entry(&counts, &run.workflow, status);
        proof {
            lemma_counts_are_bounded(all, pruned@, i as nat);
        }
        let ghost before = counts@;
        if k < counts.len() {
            assert(views(before)[k as int] == before[k as int]@);
            let c = PrunedCount {
                workflow: counts[k].workflow.clone(),
                status: counts[k].status.clone(),
                count: counts[k].count + 1,
            };
            counts.set(k, c);
            assert(views(counts@) =~= views(before).update(k as int, c@));
        } else {
            let c = PrunedCount {
                workflow: run.workflow.clone(),
                status: status.to_owned(),
                count: 1,
            };
            counts.push(c);
            assert(views(counts@) =~= views(before).push(c@));
        }
        events = if events > u64::MAX - run.events {
            u64::MAX
        } else {
            events + run.events
        };
        i += 1;
    }
    PruneReport {
        runs_pruned: pruned.len() as u64,
        events_pruned: events,
        per_workflow: counts,
        dry_run,
    }
}

// ---------------------------------------------------------------------------------------------
// Laws
// ---------------------------------------------------------------------------------------------
/// Exactly the runs that the policy deletes are selected.
pub proof fn exactly_the_pruned_are_selected(
    runs: Seq<StoredRunView>,
    policy: PrunePolicy,
    now: Timestamp,
    n: nat,
    i: int,
)
    requires
        0 <= i < runs.len() <= usize::MAX,
        n <= runs.len(),
    ensures
        pruned_positions(runs, policy, now, n).contains(i as usize) <==> i < n && is_pruned(
            runs,
            policy,
            now,
            i,
        ),
        forall|k: int|
            0 <= k < pruned_positions(runs, policy, now, n).len() ==> (#[trigger] pruned_positions(
                runs,
                policy,
                now,
                n,
            )[k]) < n,
    decreases n,
{
    if n > 0 {
        let before = pruned_positions(runs, policy, now, (n - 1) as nat);
        exactly_the_pruned_are_selected(runs, policy, now, (n - 1) as nat, i);
        if is_pruned(runs, policy, now, n - 1) {
            let after = before.push((n - 1) as usize);
            assert(after.last() == (n - 1) as usize);
            assert forall|x: usize| before.contains(x) implies after.contains(x) by {
                let k = choose|k: int| 0 <= k < before.len() && before[k] == x;
                assert(after[k] == x);
            }
            assert forall|x: usize| after.contains(x) implies before.contains(x) || x == (n
                - 1) as usize by {
                let k = choose|k: int| 0 <= k < after.len() && after[k] == x;
                if k < before.len() {
                    assert(before[k] == x);
                }
            }
            if i == n - 1 {
                assert(after.contains(i as usize));
            }
        }
    }
}

/// A run that is not over is never deleted, whatever the policy.
pub proof fn a_live_run_is_never_pruned(
    runs: Seq<StoredRunView>,
    policy: PrunePolicy,
    now: Timestamp,
    i: int,
)
    requires
        0 <= i < runs.len(),
        !runs[i].status.terminal(),
    ensures
        !is_pruned(runs, policy, now, i),
{
}

/// Without an age limit, the newest runs of a workflow are kept, as many as the policy says.
pub proof fn the_newest_runs_are_kept(
    runs: Seq<StoredRunView>,
    policy: PrunePolicy,
    now: Timestamp,
    i: int,
)
    requires
        0 <= i < runs.len(),
        policy.max_age is None,
        policy.keep_last matches Some(k) && newer_count(runs, i, runs.len()) < k,
    ensures
        !is_pruned(runs, policy, now, i),
{
}

/// Which runs count as newer than a run: those of its workflow that ended and were updated after
/// it, and of those updated at the same moment the ones that stand before it.
pub open spec fn newer_runs(runs: Seq<StoredRunView>, i: int, n: int) -> Set<int> {
    vstd::set_lib::set_int_range(0, n).filter(
        |j: int|
            (runs[j].status == RunStatus::Succeeded || runs[j].status == RunStatus::Failed
                || runs[j].status == RunStatus::Cancelled) && runs[j].workflow == runs[i].workflow
                && (runs[j].updated_at.total() > runs[i].updated_at.total() || (
            runs[j].updated_at.total() == runs[i].updated_at.total() && j < i)),
    )
}

proof fn lemma_newer_count(runs: Seq<StoredRunView>, i: int, n: nat)
    ensures
        newer_runs(runs, i, n as int).finite(),
        newer_count(runs, i, n) == newer_runs(runs, i, n as int).len(),
    decreases n,
{
    vstd::set_lib::lemma_int_range(0, n as int);
    vstd::set_lib::lemma_len_subset(newer_runs(runs, i, n as int), vstd::set_lib::set_int_range(0, n as int));
    let all = newer_runs(runs, i, n as int);
    if n == 0 {
        assert(all =~= Set::<int>::empty());
    } else {
        lemma_newer_count(runs, i, (n - 1) as nat);
        let before = newer_runs(runs, i, n - 1);
        if is_newer(runs, n - 1, i) {
            assert(all =~= before.insert(n - 1));
            assert(!before.contains(n - 1));
        } else {
            assert(all =~= before);
        }
    }
}

/// A run is pruned exactly when it has ended, belongs to the workflow that is pruned, and is either
/// older than the age that is kept or has as many newer runs of its workflow as are kept.
pub proof fn a_run_is_pruned_by_age_or_by_count(
    runs: Seq<StoredRunView>,
    policy: PrunePolicy,
    now: Timestamp,
    i: int,
)
    requires
        0 <= i < runs.len(),
    ensures
        is_pruned(runs, policy, now, i) == ({
            let r = runs[i];
            let ended = r.status == RunStatus::Succeeded || r.status == RunStatus::Failed
                || r.status == RunStatus::Cancelled;
            let covered = policy.workflow matches Some(w) ==> w@ == r.workflow;
            let expired = policy.max_age matches Some(age) && now.total() > r.updated_at.total()
                + age * 1_000_000_000;
            let surplus = policy.keep_last matches Some(k) && newer_runs(
                runs,
                i,
                runs.len() as int,
            ).len() >= k;
            ended && covered && (expired || surplus)
        }),
{
    lemma_newer_count(runs, i, runs.len());
}

proof fn lemma_entry_is_first(
    counts: Seq<PrunedCountView>,
    workflow: Seq<char>,
    status: Seq<char>,
    from: int,
)
    requires
        0 <= from <= counts.len(),
    ensures
        from <= entry_for(counts, workflow, status, from) <= counts.len(),
        entry_for(counts, workflow, status, from) < counts.len() ==> counts[entry_for(
            counts,
            workflow,
            status,
            from,
        )].workflow == workflow && counts[entry_for(counts, workflow, status, from)].status
            == status,
        forall|k: int|
            from <= k < entry_for(counts, workflow, status, from) ==> !((
            #[trigger] counts[k]).workflow == workflow && counts[k].status == status),
    decreases counts.len() - from,
{
    if from < counts.len() && !(counts[from].workflow == workflow && counts[from].status
        == status) {
        lemma_entry_is_first(counts, workflow, status, from + 1);
    }
}

/// How many of the first `n` pruned runs are of a workflow and status.
pub open spec fn pruned_alike(
    runs: Seq<StoredRunView>,
    pruned: Seq<usize>,
    n: int,
    workflow: Seq<char>,
    status: Seq<char>,
) -> Set<int> {
    vstd::set_lib::set_int_range(0, n).filter(
        |j: int|
            runs[pruned[j] as int].workflow == workflow && status_name(
                runs[pruned[j] as int].status,
            ) == status,
    )
}

proof fn lemma_alike_step(
    runs: Seq<StoredRunView>,
    pruned: Seq<usize>,
    n: int,
    workflow: Seq<char>,
    status: Seq<char>,
)
    requires
        n > 0,
    ensures
        pruned_alike(runs, pruned, n, workflow, status).finite(),
        pruned_alike(runs, pruned, n, workflow, status).len() == pruned_alike(
            runs,
            pruned,
            n - 1,
            workflow,
            status,
        ).len() + (if runs[pruned[n - 1] as int].workflow == workflow && status_name(
            runs[pruned[n - 1] as int].status,
        ) == status {
            1nat
        } else {
            0nat
        }),
{
    vstd::set_lib::lemma_int_range(0, n);
    vstd::set_lib::lemma_int_range(0, n - 1);
    let all = pruned_alike(runs, pruned, n, workflow, status);
    let before = pruned_alike(runs, pruned, n - 1, workflow, status);
    let f = |j: int|
        runs[pruned[j] as int].workflow == workflow && status_name(runs[pruned[j] as int].status)
            == status;
    vstd::set_lib::lemma_len_subset(all, vstd::set_lib::set_int_range(0, n));
    vstd::set_lib::lemma_len_subset(before, vstd::set_lib::set_int_range(0, n - 1));
    if f(n - 1) {
        assert(all =~= before.insert(n - 1));
        assert(!before.contains(n - 1));
    } else {
        assert(all =~= before);
    }
}

/// A report counts the pruned runs of each workflow and status, and has a line for each of them
/// exactly once.
pub proof fn a_report_counts_what_was_pruned(
    runs: Seq<StoredRunView>,
    pruned: Seq<usize>,
    n: nat,
    workflow: Seq<char>,
    status: Seq<char>,
)
    requires
        n <= pruned.len() <= u64::MAX,
    ensures
        ({
            let c = counts_of(runs, pruned, n);
            let alike = pruned_alike(runs, pruned, n as int, workflow, status).len();
            &&& alike <= n
            &&& forall|i: int, j: int|
                0 <= i < j < c.len() ==> !((#[trigger] c[i]).workflow == (#[trigger] c[j]).workflow
                    && c[i].status == c[j].status)
            &&& alike > 0 <==> exists|i: int|
                0 <= i < c.len() && (#[trigger] c[i]).workflow == workflow && c[i].status == status
            &&& forall|i: int|
                0 <= i < c.len() && (#[trigger] c[i]).workflow == workflow && c[i].status == status
                    ==> c[i].count == alike
        }),
    decreases n,
{
    if n == 0 {
        assert(pruned_alike(runs, pruned, 0, workflow, status) =~= Set::<int>::empty());
    } else {
        let m = (n - 1) as nat;
        a_report_counts_what_was_pruned(runs, pruned, m, workflow, status);
        lemma_alike_step(runs, pruned, n as int, workflow, status);
        let before = counts_of(runs, pruned, m);
        let r = runs[pruned[n - 1] as int];
        let st = status_name(r.status);
        a_report_counts_what_was_pruned(runs, pruned, m, r.workflow, st);
        lemma_entry_is_first(before, r.workflow, st, 0);
        let k = entry_for(before, r.workflow, st, 0);
        let after = counts_of(runs, pruned, n);
        if k < before.len() {
            assert forall|i: int| 0 <= i < after.len() && i != k implies #[trigger] after[i]
                == before[i] by {}
            assert(after[k].workflow == r.workflow && after[k].status == st);
            assert forall|i: int, j: int| 0 <= i < j < after.len() implies !((
            #[trigger] after[i]).workflow == (#[trigger] after[j]).workflow && after[i].status
                == after[j].status) by {
                assert(before[i].workflow == after[i].workflow && before[j].workflow
                    == after[j].workflow);
            }
            if exists|i: int|
                0 <= i < before.len() && (#[trigger] before[i]).workflow == workflow
                    && before[i].status == status {
                let i = choose|i: int|
                    0 <= i < before.len() && (#[trigger] before[i]).workflow == workflow
                        && before[i].status == status;
                assert(after[i].workflow == workflow && after[i].status == status);
            }
            if exists|i: int|
                0 <= i < after.len() && (#[trigger] after[i]).workflow == workflow
                    && after[i].status == status {
                let i = choose|i: int|
                    0 <= i < after.len() && (#[trigger] after[i]).workflow == workflow
                        && after[i].status == status;
                assert(before[i].workflow == workflow && before[i].status == status);
            }
            assert forall|i: int|
                0 <= i < after.len() && (#[trigger] after[i]).workflow == workflow
                    && after[i].status == status implies after[i].count == pruned_alike(
                runs,
                pruned,
                n as int,
                workflow,
                status,
            ).len() by {
                assert(before[i].workflow == workflow && before[i].status == status);
                if i == k {
                    assert(workflow == r.workflow && status == st);
                } else if workflow == r.workflow && status == st {
                    assert(before[k].workflow == workflow && before[k].status == status);
                    if i < k {
                        assert(before[i].workflow != before[k].workflow || before[i].status
                            != before[k].status);
                    } else {
                        assert(before[k].workflow != before[i].workflow || before[k].status
                            != before[i].status);
                    }
                }
            }
        } else {
            assert forall|i: int| 0 <= i < before.len() implies #[trigger] after[i] == before[i] by {}
            assert(after[before.len() as int].workflow == r.workflow);
            assert forall|i: int, j: int| 0 <= i < j < after.len() implies !((
            #[trigger] after[i]).workflow == (#[trigger] after[j]).workflow && after[i].status
                == after[j].status) by {
                assert(before[i].workflow == after[i].workflow);
                if j < before.len() {
                    assert(before[j].workflow == after[j].workflow);
                }
            }
            if exists|i: int|
                0 <= i < before.len() && (#[trigger] before[i]).workflow == workflow
                    && before[i].status == status {
                let i = choose|i: int|
                    0 <= i < before.len() && (#[trigger] before[i]).workflow == workflow
                        && before[i].status == status;
                assert(after[i].workflow == workflow && after[i].status == status);
            }
            assert forall|i: int|
                0 <= i < after.len() && (#[trigger] after[i]).workflow == workflow
                    && after[i].status == status implies after[i].count == pruned_alike(
                runs,
                pruned,
                n as int,
                workflow,
                status,
            ).len() by {
                if i < before.len() {
                    assert(before[i].workflow == workflow && before[i].status == status);
                }
            }
            if exists|i: int|
                0 <= i < after.len() && (#[trigger] after[i]).workflow == workflow
                    && after[i].status == status {
                let i = choose|i: int|
                    0 <= i < after.len() && (#[trigger] after[i]).workflow == workflow
                        && after[i].status == status;
                if i < before.len() {
                    assert(before[i].workflow == workflow && before[i].status == status);
                }
            }
        }
    }
}

/// The events of deleted runs are added up, as far as they can be counted.
pub proof fn the_events_of_deleted_runs_add_up(
    runs: Seq<StoredRunView>,
    pruned: Seq<usize>,
    n: nat,
)
    ensures
        events_of(runs, pruned, 0) == 0,
        events_of(runs, pruned, n) + runs[pruned[n as int] as int].events <= u64::MAX ==> events_of(
            runs,
            pruned,
            n + 1,
        ) == events_of(runs, pruned, n) + runs[pruned[n as int] as int].events,
        events_of(runs, pruned, n) <= events_of(runs, pruned, n + 1),
{
}

} // verus!
