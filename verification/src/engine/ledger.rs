//! What an engine holds in memory about the runs it executes.

use super::mirror::{mirrored, Mirror};
use super::state::{RunState, RunStateView};
use crate::ids::{uuid_text, RunId};
use crate::names::without;
use std::collections::HashSet;
use vstd::prelude::*;

verus! {

broadcast use vstd::std_specs::hash::group_hash_axioms;

/// Claims on runs, the runs that can be cancelled, and the runs that are not persisted.
#[derive(Debug)]
pub struct Ledger {
    running: HashSet<u128>,
    cancellable: HashSet<u128>,
    mirror: Mirror,
}

/// The mathematical form of a [`Ledger`].
#[verifier::ext_equal]
pub struct LedgerView {
    /// The values of the ids of the claimed runs.
    pub running: Set<u128>,
    /// The values of the ids of the runs that can be cancelled.
    pub cancellable: Set<u128>,
    pub mirror: Seq<(Seq<char>, RunStateView)>,
}

impl View for Ledger {
    type V = LedgerView;

    closed spec fn view(&self) -> LedgerView {
        LedgerView {
            running: self.running@,
            cancellable: self.cancellable@,
            mirror: self.mirror@,
        }
    }
}

/// Whether a run's state goes to the store: it is durable and there is one.
pub open spec fn persists(durable: bool, has_store: bool) -> bool {
    durable && has_store
}

/// Whether a run's state goes to the store; every other run is mirrored in memory.
pub fn is_persisted(durable: bool, has_store: bool) -> (r: bool)
    ensures
        r == persists(durable, has_store),
{
    durable && has_store
}

/// The ledger after a state was checkpointed: a persisted run is not mirrored, any other is.
pub open spec fn checkpointed(
    l: LedgerView,
    durable: bool,
    has_store: bool,
    st: RunStateView,
) -> LedgerView {
    LedgerView {
        mirror: if persists(durable, has_store) {
            without(l.mirror, uuid_text(st.run_id.0))
        } else {
            mirrored(l.mirror, st)
        },
        ..l
    }
}

impl Ledger {
    /// An empty ledger.
    pub fn new() -> (r: Self)
        ensures
            r@ == (LedgerView {
                running: Set::empty(),
                cancellable: Set::empty(),
                mirror: Seq::empty(),
            }),
    {
        Ledger { running: HashSet::new(), cancellable: HashSet::new(), mirror: Mirror::new() }
    }

    /// Claims a run for execution. False when it is already claimed: it must not be executed
    /// then.
    pub fn claim_run(&mut self, run_id: RunId) -> (r: bool)
        ensures
            r == !old(self)@.running.contains(run_id@),
            final(self)@ == (LedgerView {
                running: old(self)@.running.insert(run_id@),
                ..old(self)@
            }),
    {
        self.running.insert(run_id.0)
    }

    /// Gives up a claim.
    pub fn release_run(&mut self, run_id: RunId)
        ensures
            final(self)@ == (LedgerView {
                running: old(self)@.running.remove(run_id@),
                ..old(self)@
            }),
    {
        let _ = self.running.remove(&run_id.0);
    }

    /// Records that a run can be cancelled.
    pub fn register_cancel(&mut self, run_id: RunId)
        ensures
            final(self)@ == (LedgerView {
                cancellable: old(self)@.cancellable.insert(run_id@),
                ..old(self)@
            }),
    {
        let _ = self.cancellable.insert(run_id.0);
    }

    /// Records that a run can no longer be cancelled.
    pub fn unregister_cancel(&mut self, run_id: RunId)
        ensures
            final(self)@ == (LedgerView {
                cancellable: old(self)@.cancellable.remove(run_id@),
                ..old(self)@
            }),
    {
        let _ = self.cancellable.remove(&run_id.0);
    }

    /// Whether a run can be cancelled.
    pub fn can_cancel(&self, run_id: RunId) -> (r: bool)
        ensures
            r == self@.cancellable.contains(run_id@),
    {
        self.cancellable.contains(&run_id.0)
    }

    /// How many runs can be cancelled.
    pub fn active(&self) -> (r: usize)
        ensures
            r == self@.cancellable.len(),
    {
        self.cancellable.len()
    }

    /// Takes note of a checkpoint, once a persisted one was written.
    pub fn checkpoint(&mut self, durable: bool, has_store: bool, state: &RunState)
        ensures
            final(self)@ == checkpointed(old(self)@, durable, has_store, state@),
    {
        if is_persisted(durable, has_store) {
            self.mirror.forget(state.run_id);
        } else {
            self.mirror.mirror_put(state);
        }
    }

    /// The runs that are not persisted.
    pub fn mirror(&self) -> (r: &Mirror)
        ensures
            r@ == self@.mirror,
    {
        &self.mirror
    }
}

/// A claimed run cannot be claimed again until the claim is given up; then it can.
pub proof fn a_run_is_claimed_once(running: Set<u128>, id: u128)
    ensures
        running.insert(id).contains(id),
        !running.insert(id).remove(id).contains(id),
{
}

/// Claiming or giving up one run leaves the claims on others as they are.
pub proof fn claims_are_independent(running: Set<u128>, id: u128, other: u128)
    requires
        id != other,
    ensures
        running.insert(id).contains(other) == running.contains(other),
        running.remove(id).contains(other) == running.contains(other),
{
}

/// A run is kept in memory exactly when it is not persisted: a durable run with a store leaves the
/// mirror, and any other is in it.
pub proof fn what_is_not_persisted_is_mirrored(
    l: LedgerView,
    durable: bool,
    has_store: bool,
    st: RunStateView,
)
    ensures
        ({
            let n = checkpointed(l, durable, has_store, st);
            &&& n.running == l.running && n.cancellable == l.cancellable
            &&& durable && has_store ==> n.mirror == without(l.mirror, uuid_text(st.run_id.0))
            &&& !durable || !has_store ==> n.mirror == mirrored(l.mirror, st)
        }),
{
}

} // verus!
