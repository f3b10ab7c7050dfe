//! The names a template may reference, derived from a workflow.

use crate::ir::step::Step;
use crate::ir::trigger::TriggerDecl;
use crate::ir::workflow::Workflow;
use crate::names::{with_name, NameSet, OrderedMap};
use vstd::prelude::*;

verus! {

/// `base` with the names of `s` added in order.
pub open spec fn with_names(base: Seq<Seq<char>>, s: Seq<Seq<char>>) -> Seq<Seq<char>>
    decreases s.len(),
{
    if s.len() == 0 {
        base
    } else {
        with_name(with_names(base, s.drop_last()), s.last())
    }
}

/// Membership after adding names.
pub proof fn lemma_with_names(base: Seq<Seq<char>>, s: Seq<Seq<char>>, x: Seq<char>)
    ensures
        with_names(base, s).contains(x) == (base.contains(x) || s.contains(x)),
    decreases s.len(),
{
    if s.len() > 0 {
        lemma_with_names(base, s.drop_last(), x);
        crate::validate::graph::lemma_with_name(with_names(base, s.drop_last()), s.last(), x);
        assert(s == s.drop_last().push(s.last()));
        if s.drop_last().contains(x) {
            let i = choose|i: int| 0 <= i < s.drop_last().len() && s.drop_last()[i] == x;
            assert(s[i] == x);
        }
        if s.contains(x) && x != s.last() {
            let i = choose|i: int| 0 <= i < s.len() && s[i] == x;
            assert(s.drop_last()[i] == x);
        }
        if x == s.last() {
            assert(s[s.len() - 1] == x);
        }
    }
}

/// The keys of a map's entries.
pub open spec fn keys_of<A>(m: Seq<(Seq<char>, A)>) -> Seq<Seq<char>> {
    Seq::new(m.len(), |i: int| m[i].0)
}

/// The ids of steps.
pub open spec fn ids_of(steps: Seq<Step>) -> Seq<Seq<char>> {
    Seq::new(steps.len(), |i: int| steps[i].id@)
}

/// The params a trigger fills from an untrusted payload.
pub open spec fn trigger_params(t: TriggerDecl) -> Seq<Seq<char>> {
    match t {
        TriggerDecl::GithubWebhook(g) => keys_of(g.params@),
        TriggerDecl::Webhook(w) => keys_of(w.params@),
        _ => Seq::empty(),
    }
}

/// The params any of the triggers fills from an untrusted payload.
pub open spec fn webhook_params_of(ts: Seq<TriggerDecl>) -> Seq<Seq<char>>
    decreases ts.len(),
{
    if ts.len() == 0 {
        Seq::empty()
    } else {
        with_names(webhook_params_of(ts.drop_last()), trigger_params(ts.last()))
    }
}

/// The names a template may reference.
#[derive(Debug)]
pub struct ContextShape {
    /// Declared parameter names.
    pub params: NameSet,
    /// Declared step ids.
    pub steps: NameSet,
    /// Params whose value comes from a webhook payload, and so is not to be trusted.
    pub webhook_params: NameSet,
}

/// Adds a map's keys to a set.
pub fn add_keys<T: View>(out: &mut NameSet, m: &OrderedMap<T>)
    ensures
        final(out)@ == with_names(old(out)@, keys_of(m@)),
{
    let n = m.len();
    let mut i: usize = 0;
    let ghost start = out@;
    while i < n
        invariant
            i <= n,
            n == m@.len(),
            out@ == with_names(start, keys_of(m@).take(i as int)),
        decreases n - i,
    {
        assert(keys_of(m@).take(i + 1).drop_last() =~= keys_of(m@).take(i as int));
        let k = m.key_at(i).clone();
        let _ = out.insert(k);
        i += 1;
    }
    assert(keys_of(m@).take(n as int) =~= keys_of(m@));
}

/// Adds the ids of steps to a set.
pub fn add_ids(out: &mut NameSet, steps: &Vec<Step>)
    ensures
        final(out)@ == with_names(old(out)@, ids_of(steps@)),
{
    let mut i: usize = 0;
    let ghost start = out@;
    while i < steps.len()
        invariant
            i <= steps.len(),
            out@ == with_names(start, ids_of(steps@).take(i as int)),
        decreases steps.len() - i,
    {
        assert(ids_of(steps@).take(i + 1).drop_last() =~= ids_of(steps@).take(i as int));
        let k = steps[i].id.to_string();
        let _ = out.insert(k);
        i += 1;
    }
    assert(ids_of(steps@).take(steps@.len() as int) =~= ids_of(steps@));
}

impl ContextShape {
    /// The names a workflow's templates may reference.
    pub fn of(wf: &Workflow) -> (r: Self)
        ensures
            r.params@ == with_names(Seq::empty(), keys_of(wf.params@)),
            r.steps@ == with_names(Seq::empty(), ids_of(wf.steps@)),
            r.webhook_params@ == webhook_params_of(wf.triggers@),
    {
        let mut params = NameSet::new();
        add_keys(&mut params, &wf.params);
        let mut steps = NameSet::new();
        add_ids(&mut steps, &wf.steps);
        let mut webhook = NameSet::new();
        let mut i: usize = 0;
        while i < wf.triggers.len()
            invariant
                i <= wf.triggers.len(),
                webhook@ == webhook_params_of(wf.triggers@.take(i as int)),
            decreases wf.triggers.len() - i,
        {
            assert(wf.triggers@.take(i + 1).drop_last() =~= wf.triggers@.take(i as int));
            match &wf.triggers[i] {
                TriggerDecl::GithubWebhook(g) => {
                    add_keys(&mut webhook, &g.params);
                },
                TriggerDecl::Webhook(w) => {
                    add_keys(&mut webhook, &w.params);
                },
                _ => {},
            }
            i += 1;
        }
        assert(wf.triggers@.take(i as int) =~= wf.triggers@);
        ContextShape { params, steps, webhook_params: webhook }
    }
}

/// The params that webhooks fill are those that a webhook names, from GitHub or not.
pub proof fn webhook_params_are_those_named(ts: Seq<TriggerDecl>, name: Seq<char>)
    ensures
        webhook_params_of(ts).contains(name) == exists|i: int|
            0 <= i < ts.len() && match #[trigger] ts[i] {
                TriggerDecl::GithubWebhook(g) => crate::names::has_key(g.params@, name),
                TriggerDecl::Webhook(w) => crate::names::has_key(w.params@, name),
                _ => false,
            },
    decreases ts.len(),
{
    if ts.len() > 0 {
        let d = ts.drop_last();
        webhook_params_are_those_named(d, name);
        lemma_with_names(webhook_params_of(d), trigger_params(ts.last()), name);
        assert(ts[ts.len() - 1] == ts.last());
        assert forall|i: int| 0 <= i < d.len() implies d[i] == #[trigger] ts[i] by {}
        match ts.last() {
            TriggerDecl::GithubWebhook(g) => lemma_keys_of(g.params@, name),
            TriggerDecl::Webhook(w) => lemma_keys_of(w.params@, name),
            _ => {},
        }
    }
}

proof fn lemma_keys_of<A>(m: Seq<(Seq<char>, A)>, name: Seq<char>)
    ensures
        keys_of(m).contains(name) == crate::names::has_key(m, name),
{
    let ks = keys_of(m);
    if ks.contains(name) {
        let k = choose|k: int| 0 <= k < ks.len() && ks[k] == name;
        assert(m[k].0 == name);
    }
    if crate::names::has_key(m, name) {
        let k = choose|k: int| 0 <= k < m.len() && (#[trigger] m[k]).0 == name;
        assert(ks[k] == name);
    }
}

} // verus!
