//! The dependency graph: who is upstream of whom, and an order in which every step comes after
//! the steps it depends on.

use crate::ir::step::Step;
use crate::names::{views, with_name, NameSet, OrderedMap};
use vstd::prelude::*;

verus! {

/// Whether a step with the id `from` names `to` in its `depends_on`.
pub open spec fn depends(steps: Seq<Step>, from: Seq<char>, to: Seq<char>) -> bool {
    exists|i: int, j: int|
        0 <= i < steps.len() && (#[trigger] steps[i]).id@ == from && 0 <= j
            < steps[i].depends_on@.len() && (#[trigger] steps[i].depends_on@[j])@ == to
}

/// Whether `to` is reached from `from` by at most `n` dependencies, at least one.
pub open spec fn reaches(steps: Seq<Step>, from: Seq<char>, to: Seq<char>, n: nat) -> bool
    decreases n,
{
    n > 0 && (depends(steps, from, to) || exists|mid: Seq<char>|
        #[trigger] depends(steps, from, mid) && reaches(steps, mid, to, (n - 1) as nat))
}

/// Whether `to` is upstream of `from`: reached by one or more dependencies.
pub open spec fn upstream(steps: Seq<Step>, from: Seq<char>, to: Seq<char>) -> bool {
    exists|n: nat| #[trigger] reaches(steps, from, to, n)
}

proof fn lemma_reaches_one(steps: Seq<Step>, from: Seq<char>, to: Seq<char>)
    requires
        depends(steps, from, to),
    ensures
        upstream(steps, from, to),
{
    assert(reaches(steps, from, to, 1));
}

/// Reaching, then one more dependency.
proof fn lemma_reaches_step(
    steps: Seq<Step>,
    from: Seq<char>,
    mid: Seq<char>,
    to: Seq<char>,
    n: nat,
)
    requires
        reaches(steps, from, mid, n),
        depends(steps, mid, to),
    ensures
        reaches(steps, from, to, n + 1),
    decreases n,
{
    if depends(steps, from, mid) {
        assert(reaches(steps, mid, to, 1));
        lemma_reaches_more(steps, mid, to, 1, n);
        assert(reaches(steps, mid, to, n));
    } else {
        let m = choose|m: Seq<char>| #[trigger]
            depends(steps, from, m) && reaches(steps, m, mid, (n - 1) as nat);
        lemma_reaches_step(steps, m, mid, to, (n - 1) as nat);
    }
}

proof fn lemma_reaches_more(steps: Seq<Step>, from: Seq<char>, to: Seq<char>, n: nat, m: nat)
    requires
        reaches(steps, from, to, n),
        n <= m,
    ensures
        reaches(steps, from, to, m),
    decreases n,
{
    if !depends(steps, from, to) {
        let mid = choose|mid: Seq<char>| #[trigger]
            depends(steps, from, mid) && reaches(steps, mid, to, (n - 1) as nat);
        lemma_reaches_more(steps, mid, to, (n - 1) as nat, (m - 1) as nat);
    }
}

/// A set that holds the direct dependencies of `from` and is closed under dependency holds
/// everything upstream.
proof fn lemma_closed_holds_upstream(
    steps: Seq<Step>,
    from: Seq<char>,
    s: Seq<Seq<char>>,
    to: Seq<char>,
    n: nat,
)
    requires
        forall|d: Seq<char>| #[trigger] depends(steps, from, d) ==> s.contains(d),
        forall|a: Seq<char>, b: Seq<char>|
            s.contains(a) && #[trigger] depends(steps, a, b) ==> s.contains(b),
        reaches(steps, from, to, n),
    ensures
        s.contains(to),
    decreases n,
{
    if !depends(steps, from, to) {
        let mid = choose|mid: Seq<char>| #[trigger]
            depends(steps, from, mid) && reaches(steps, mid, to, (n - 1) as nat);
        assert(s.contains(mid));
        lemma_closed_holds_upstream(steps, mid, s, to, (n - 1) as nat);
    }
}

/// Every name in any `depends_on`, in order.
spec fn all_deps(steps: Seq<Step>) -> Seq<Seq<char>>
    decreases steps.len(),
{
    if steps.len() == 0 {
        Seq::empty()
    } else {
        all_deps(steps.drop_last()) + views(steps.last().depends_on@)
    }
}

proof fn lemma_all_deps(steps: Seq<Step>, from: Seq<char>, to: Seq<char>)
    requires
        depends(steps, from, to),
    ensures
        all_deps(steps).contains(to),
    decreases steps.len(),
{
    let (i, j) = choose|i: int, j: int|
        0 <= i < steps.len() && (#[trigger] steps[i]).id@ == from && 0 <= j
            < steps[i].depends_on@.len() && (#[trigger] steps[i].depends_on@[j])@ == to;
    let rest = all_deps(steps.drop_last());
    let last = views(steps.last().depends_on@);
    if i == steps.len() - 1 {
        assert(last[j] == to);
        assert(all_deps(steps)[rest.len() + j] == to);
    } else {
        let before = steps.drop_last();
        assert(before[i] == steps[i]);
        assert(before[i].depends_on@[j]@ == to);
        assert(depends(before, from, to));
        lemma_all_deps(before, from, to);
        let k = choose|k: int| 0 <= k < rest.len() && rest[k] == to;
        assert(all_deps(steps)[k] == to);
    }
}

proof fn lemma_subset_len(s: Seq<Seq<char>>, u: Seq<Seq<char>>)
    requires
        s.no_duplicates(),
        forall|x: Seq<char>| s.contains(x) ==> u.contains(x),
    ensures
        s.len() <= u.len(),
{
    s.unique_seq_to_set();
    u.lemma_cardinality_of_set();
    assert(s.to_set().subset_of(u.to_set()));
    vstd::set_lib::lemma_len_subset(s.to_set(), u.to_set());
}

/// Adds the direct dependencies of the step ids equal to `from`.
fn add_deps(steps: &Vec<Step>, from: &str, out: &mut NameSet)
    requires
        old(out)@.no_duplicates(),
    ensures
        final(out)@.no_duplicates(),
        final(out)@.len() >= old(out)@.len(),
        forall|k: int| 0 <= k < old(out)@.len() ==> final(out)@[k] == old(out)@[k],
        forall|x: Seq<char>| #[trigger]
            final(out)@.contains(x) == (old(out)@.contains(x) || depends(steps@, from@, x)),
{
    let ghost start = out@;
    let mut i: usize = 0;
    while i < steps.len()
        invariant
            i <= steps.len(),
            start == old(out)@,
            out@.no_duplicates(),
            out@.len() >= start.len(),
            forall|k: int| 0 <= k < start.len() ==> out@[k] == start[k],
            forall|x: Seq<char>| #[trigger] out@.contains(x) ==> start.contains(x) || depends(
                steps@,
                from@,
                x,
            ),
            forall|x: Seq<char>| start.contains(x) ==> #[trigger] out@.contains(x),
            forall|p: int, q: int|
                0 <= p < i && (#[trigger] steps@[p]).id@ == from@ && 0 <= q
                    < steps@[p].depends_on@.len() ==> out@.contains(
                    (#[trigger] steps@[p].depends_on@[q])@,
                ),
        decreases steps.len() - i,
    {
        if crate::text::text_eq(steps[i].id.as_str(), from) {
            let deps = &steps[i].depends_on;
            let mut j: usize = 0;
            while j < deps.len()
                invariant
                    i < steps.len(),
                    j <= deps.len(),
                    *deps == steps@[i as int].depends_on,
                    steps@[i as int].id@ == from@,
                    start == old(out)@,
                    out@.no_duplicates(),
                    out@.len() >= start.len(),
                    forall|k: int| 0 <= k < start.len() ==> out@[k] == start[k],
                    forall|x: Seq<char>| #[trigger] out@.contains(x) ==> start.contains(x)
                        || depends(steps@, from@, x),
                    forall|x: Seq<char>| start.contains(x) ==> #[trigger] out@.contains(x),
                    forall|p: int, q: int|
                        0 <= p < i && (#[trigger] steps@[p]).id@ == from@ && 0 <= q
                            < steps@[p].depends_on@.len() ==> out@.contains(
                            (#[trigger] steps@[p].depends_on@[q])@,
                        ),
                    forall|q: int| 0 <= q < j ==> out@.contains((#[trigger] deps@[q])@),
                decreases deps.len() - j,
            {
                let ghost before = out@;
                let d = deps[j].to_string();
                let ghost dv = d@;
                let _ = out.insert(d);
                proof {
                    assert(steps@[i as int].depends_on@[j as int]@ == dv);
                    assert(depends(steps@, from@, dv));
                    assert(out@ == with_name(before, dv));
                    assert forall|x: Seq<char>| #[trigger]
                        out@.contains(x) == (before.contains(x) || x == dv) by {
                        lemma_with_name(before, dv, x);
                    }
                }
                j += 1;
            }
        }
        i += 1;
    }
    proof {
        assert forall|x: Seq<char>| depends(steps@, from@, x) implies out@.contains(x) by {
            let (p, q) = choose|p: int, q: int|
                0 <= p < steps@.len() && (#[trigger] steps@[p]).id@ == from@ && 0 <= q
                    < steps@[p].depends_on@.len() && (#[trigger] steps@[p].depends_on@[q])@ == x;
            assert(out@.contains(steps@[p].depends_on@[q]@));
        }
    }
}

/// What adding a name does to membership.
pub proof fn lemma_with_name(s: Seq<Seq<char>>, k: Seq<char>, x: Seq<char>)
    ensures
        with_name(s, k).contains(x) == (s.contains(x) || x == k),
        s.no_duplicates() ==> with_name(s, k).no_duplicates(),
{
    let t = with_name(s, k);
    if !s.contains(k) {
        assert(t[s.len() as int] == k);
        if s.contains(x) {
            let i = choose|i: int| 0 <= i < s.len() && s[i] == x;
            assert(t[i] == x);
        }
        if t.contains(x) && x != k {
            let i = choose|i: int| 0 <= i < t.len() && t[i] == x;
            assert(s[i] == x);
        }
    }
}

/// The ids upstream of `from`.
pub fn ancestors_of(steps: &Vec<Step>, from: &str) -> (r: NameSet)
    ensures
        r@.no_duplicates(),
        forall|x: Seq<char>| #[trigger] r@.contains(x) == upstream(steps@, from@, x),
{
    let mut out = NameSet::new();
    add_deps(steps, from, &mut out);
    proof {
        assert forall|x: Seq<char>| #[trigger] out@.contains(x) implies upstream(
            steps@,
            from@,
            x,
        ) && all_deps(steps@).contains(x) by {
            lemma_reaches_one(steps@, from@, x);
            lemma_all_deps(steps@, from@, x);
        }
        lemma_subset_len(out@, all_deps(steps@));
    }
    let mut i: usize = 0;
    while i < out.len()
        invariant
            i <= out@.len(),
            out@.no_duplicates(),
            out@.len() <= all_deps(steps@).len(),
            forall|d: Seq<char>| #[trigger] depends(steps@, from@, d) ==> out@.contains(d),
            forall|x: Seq<char>| #[trigger] out@.contains(x) ==> upstream(steps@, from@, x)
                && all_deps(steps@).contains(x),
            forall|k: int, b: Seq<char>|
                0 <= k < i && #[trigger] depends(steps@, out@[k], b) ==> out@.contains(b),
        decreases all_deps(steps@).len() - i,
    {
        let ghost before = out@;
        let here = out.at(i).clone();
        add_deps(steps, &here, &mut out);
        proof {
            assert(before.contains(before[i as int]));
            let n = choose|n: nat| #[trigger] reaches(steps@, from@, here@, n);
            assert forall|x: Seq<char>| #[trigger] out@.contains(x) implies upstream(
                steps@,
                from@,
                x,
            ) && all_deps(steps@).contains(x) by {
                if !before.contains(x) {
                    lemma_reaches_step(steps@, from@, here@, x, n);
                    lemma_all_deps(steps@, here@, x);
                }
            }
            lemma_subset_len(out@, all_deps(steps@));
            assert forall|k: int, b: Seq<char>|
                0 <= k < i + 1 && #[trigger] depends(steps@, out@[k], b) implies out@.contains(
                b,
            ) by {
                assert(out@[k] == before[k]);
                if k < i {
                    assert(before.contains(b));
                }
            }
        }
        i += 1;
    }
    proof {
        assert forall|x: Seq<char>| upstream(steps@, from@, x) implies #[trigger] out@.contains(
            x,
        ) by {
            let n = choose|n: nat| #[trigger] reaches(steps@, from@, x, n);
            assert forall|a: Seq<char>, b: Seq<char>|
                out@.contains(a) && #[trigger] depends(steps@, a, b) implies out@.contains(b) by {
                let k = choose|k: int| 0 <= k < out@.len() && out@[k] == a;
                assert(depends(steps@, out@[k], b));
            }
            lemma_closed_holds_upstream(steps@, from@, out@, x, n);
        }
    }
    out
}

/// Each step's upstream ids, by step id.
pub fn ancestor_sets(steps: &Vec<Step>) -> (r: OrderedMap<NameSet>)
    ensures
        forall|i: int|
            0 <= i < steps@.len() ==> crate::names::has_key(r@, (#[trigger] steps@[i]).id@),
        forall|id: Seq<char>, x: Seq<char>|
            crate::names::lookup(r@, id) is Some ==> (#[trigger] crate::names::lookup(
                r@,
                id,
            )->0.contains(x)) == upstream(steps@, id, x),
{
    let mut out: OrderedMap<NameSet> = OrderedMap::new();
    let mut i: usize = 0;
    while i < steps.len()
        invariant
            i <= steps.len(),
            crate::names::unique_keys(out@),
            forall|k: int| 0 <= k < i ==> crate::names::has_key(out@, (#[trigger] steps@[k]).id@),
            forall|id: Seq<char>, x: Seq<char>|
                crate::names::lookup(out@, id) is Some ==> (#[trigger] crate::names::lookup(
                    out@,
                    id,
                )->0.contains(x)) == upstream(steps@, id, x),
        decreases steps.len() - i,
    {
        let ghost before = out@;
        let set = ancestors_of(steps, steps[i].id.as_str());
        let ghost sv = set@;
        let id = steps[i].id.to_string();
        let ghost idv = id@;
        out.insert(id, set);
        proof {
            assert forall|q: Seq<char>| true implies #[trigger] crate::names::lookup(out@, q) == (
            if q == idv {
                Some(sv)
            } else {
                crate::names::lookup(before, q)
            }) && crate::names::has_key(out@, q) == (q == idv || crate::names::has_key(before, q)) by {
                crate::names::lemma_put_get(before, idv, sv, q);
            }
            assert forall|k: int| 0 <= k < i + 1 implies crate::names::has_key(
                out@,
                (#[trigger] steps@[k]).id@,
            ) by {
                let _ = crate::names::lookup(out@, steps@[k].id@);
            }
            assert forall|id: Seq<char>, x: Seq<char>|
                crate::names::lookup(out@, id) is Some implies (#[trigger] crate::names::lookup(
                out@,
                id,
            )->0.contains(x)) == upstream(steps@, id, x) by {
                if id != idv {
                    assert(crate::names::lookup(before, id)->0.contains(x) == upstream(
                        steps@,
                        id,
                        x,
                    ));
                } else {
                    assert(sv.contains(x) == upstream(steps@, idv, x));
                }
            }
        }
        i += 1;
    }
    out
}

// ---------------------------------------------------------------------------------------------
// Topological order
// ---------------------------------------------------------------------------------------------
/// Whether every step that step `i` depends on is among `placed`.
pub open spec fn deps_placed(steps: Seq<Step>, placed: Seq<int>, i: int) -> bool {
    forall|j: int, k: int|
        0 <= j < steps[i].depends_on@.len() && 0 <= k < steps.len() && (#[trigger] steps[k]).id@
            == (#[trigger] steps[i].depends_on@[j])@ ==> placed.contains(k)
}

/// Whether step `i` can come next: not placed yet, and all it depends on is.
pub open spec fn can_place(steps: Seq<Step>, placed: Seq<int>, i: int) -> bool {
    0 <= i < steps.len() && !placed.contains(i) && deps_placed(steps, placed, i)
}

/// Whether step `i` is the first, in declaration order, that can come next.
pub open spec fn is_next(steps: Seq<Step>, placed: Seq<int>, i: int) -> bool {
    can_place(steps, placed, i) && forall|k: int| 0 <= k < i ==> !can_place(steps, placed, k)
}

/// An order of step positions built by always taking the first step that can come next.
pub open spec fn is_greedy_order(steps: Seq<Step>, order: Seq<int>) -> bool {
    forall|p: int| 0 <= p < order.len() ==> is_next(steps, order.take(p), #[trigger] order[p])
}

/// The positions of an order as integers.
pub open spec fn ints(order: Seq<usize>) -> Seq<int> {
    Seq::new(order.len(), |i: int| order[i] as int)
}

fn placed_at(order: &Vec<usize>, k: usize) -> (r: bool)
    ensures
        r == ints(order@).contains(k as int),
{
    let mut i: usize = 0;
    while i < order.len()
        invariant
            i <= order.len(),
            forall|j: int| 0 <= j < i ==> ints(order@)[j] != k,
        decreases order.len() - i,
    {
        if order[i] == k {
            assert(ints(order@)[i as int] == k);
            return true;
        }
        i += 1;
    }
    false
}

fn ready(steps: &Vec<Step>, order: &Vec<usize>, i: usize) -> (r: bool)
    requires
        i < steps.len(),
    ensures
        r == can_place(steps@, ints(order@), i as int),
{
    if placed_at(order, i) {
        return false;
    }
    let deps = &steps[i].depends_on;
    let mut j: usize = 0;
    while j < deps.len()
        invariant
            i < steps.len(),
            *deps == steps@[i as int].depends_on,
            j <= deps.len(),
            !ints(order@).contains(i as int),
            forall|p: int, k: int|
                0 <= p < j && 0 <= k < steps@.len() && (#[trigger] steps@[k]).id@
                    == (#[trigger] deps@[p])@ ==> ints(order@).contains(k),
        decreases deps.len() - j,
    {
        let mut k: usize = 0;
        while k < steps.len()
            invariant
                i < steps.len(),
                *deps == steps@[i as int].depends_on,
                j < deps.len(),
                k <= steps.len(),
                forall|q: int|
                    0 <= q < k && (#[trigger] steps@[q]).id@ == deps@[j as int]@ ==> ints(
                        order@,
                    ).contains(q),
            decreases steps.len() - k,
        {
            if steps[k].id.same(&deps[j]) && !placed_at(order, k) {
                assert(steps@[k as int].id@ == steps@[i as int].depends_on@[j as int]@);
                return false;
            }
            k += 1;
        }
        j += 1;
    }
    true
}

/// An order of the steps, by position, in which each comes after everything it depends on: always
/// the first declared step that can come next. When a cycle leaves steps that can never come
/// next, what could be placed.
pub fn place_in_order(steps: &Vec<Step>) -> (order: Vec<usize>)
    ensures
        is_greedy_order(steps@, ints(order@)),
        order@.len() < steps@.len() ==> forall|i: int| !can_place(steps@, ints(order@), i),
        order@.len() <= steps@.len(),
{
    let mut order: Vec<usize> = Vec::new();
    while order.len() < steps.len()
        invariant
            order.len() <= steps.len(),
            is_greedy_order(steps@, ints(order@)),
        decreases steps.len() - order.len(),
    {
        let mut i: usize = 0;
        while i < steps.len() && !ready(steps, &order, i)
            invariant
                i <= steps.len(),
                forall|k: int| 0 <= k < i ==> !can_place(steps@, ints(order@), k),
            decreases steps.len() - i,
        {
            i += 1;
        }
        if i == steps.len() {
            return order;
        }
        let ghost before = order@;
        order.push(i);
        proof {
            assert(ints(order@) =~= ints(before).push(i as int));
            assert forall|p: int| 0 <= p < order@.len() implies is_next(
                steps@,
                ints(order@).take(p),
                #[trigger] ints(order@)[p],
            ) by {
                if p < before.len() {
                    assert(ints(order@).take(p) =~= ints(before).take(p));
                    assert(ints(order@)[p] == ints(before)[p]);
                } else {
                    assert(ints(order@).take(p) =~= ints(before));
                }
            }
        }
    }
    order
}

/// Whether no order can hold every step: after some of them none of the rest can come next.
pub open spec fn is_stuck(steps: Seq<Step>) -> bool {
    exists|stuck: Seq<int>| #[trigger]
        is_greedy_order(steps, stuck) && stuck.len() < steps.len() && forall|i: int|
            !can_place(steps, stuck, i)
}

/// Whether an order holds every step after everything it depends on, or, when there is no such
/// order (a cycle), the steps as they are declared.
pub open spec fn is_run_order(steps: Seq<Step>, order: Seq<usize>) -> bool {
    &&& order.len() == steps.len()
    &&& is_greedy_order(steps, ints(order)) || (is_stuck(steps) && order =~= Seq::new(
        steps.len(),
        |i: int| i as usize,
    ))
}

/// Every position in a run order is that of a step.
pub proof fn lemma_order_in_range(steps: Seq<Step>, order: Seq<usize>)
    requires
        is_run_order(steps, order),
        steps.len() <= usize::MAX,
    ensures
        forall|k: int| 0 <= k < order.len() ==> #[trigger] order[k] < steps.len(),
{
    if is_greedy_order(steps, ints(order)) {
        order_respects_dependencies(steps, ints(order));
        assert forall|k: int| 0 <= k < order.len() implies #[trigger] order[k] < steps.len() by {
            assert(ints(order)[k] == order[k]);
        }
    }
}

/// The steps in an order in which each comes after everything it depends on; when there is none
/// (a cycle), the steps as they are declared.
pub fn run_order(steps: &Vec<Step>) -> (order: Vec<usize>)
    ensures
        is_run_order(steps@, order@),
{
    let order = place_in_order(steps);
    if order.len() == steps.len() {
        return order;
    }
    let ghost stuck = ints(order@);
    let mut declared: Vec<usize> = Vec::new();
    let mut i: usize = 0;
    while i < steps.len()
        invariant
            i <= steps.len(),
            declared@.len() == i,
            forall|k: int| 0 <= k < i ==> declared@[k] == k,
        decreases steps.len() - i,
    {
        declared.push(i);
        i += 1;
    }
    assert(is_greedy_order(steps@, stuck));
    assert(declared@ =~= Seq::new(steps@.len(), |i: int| i as usize));
    declared
}

/// In a greedy order no step stands twice, and every step stands after everything it depends on.
pub proof fn order_respects_dependencies(steps: Seq<Step>, order: Seq<int>)
    requires
        is_greedy_order(steps, order),
    ensures
        order.no_duplicates(),
        forall|p: int| 0 <= p < order.len() ==> 0 <= #[trigger] order[p] < steps.len(),
        forall|p: int, j: int, k: int|
            0 <= p < order.len() && 0 <= j < steps[order[p]].depends_on@.len() && 0 <= k
                < steps.len() && (#[trigger] steps[k]).id@ == (
            #[trigger] steps[order[p]].depends_on@[j])@ ==> order.take(p).contains(k),
{
    assert forall|p: int| 0 <= p < order.len() implies 0 <= #[trigger] order[p] < steps.len() by {
        assert(is_next(steps, order.take(p), order[p]));
    }
    assert forall|a: int, b: int| 0 <= a < b < order.len() implies order[a] != order[b] by {
        assert(is_next(steps, order.take(b), order[b]));
        assert(order.take(b)[a] == order[a]);
    }
    assert forall|p: int, j: int, k: int|
        0 <= p < order.len() && 0 <= j < steps[order[p]].depends_on@.len() && 0 <= k < steps.len()
            && (#[trigger] steps[k]).id@ == (#[trigger] steps[order[p]].depends_on@[j])@ implies order.take(
        p,
    ).contains(k) by {
        assert(is_next(steps, order.take(p), order[p]));
    }
}

/// What a step depends on is upstream of it, and so is what is upstream of that.
pub proof fn upstream_is_transitive(
    steps: Seq<Step>,
    i: int,
    j: int,
    to: Seq<char>,
)
    requires
        0 <= i < steps.len(),
        0 <= j < steps[i].depends_on@.len(),
    ensures
        upstream(steps, steps[i].id@, steps[i].depends_on@[j]@),
        upstream(steps, steps[i].depends_on@[j]@, to) ==> upstream(steps, steps[i].id@, to),
{
    let from = steps[i].id@;
    let mid = steps[i].depends_on@[j]@;
    assert(depends(steps, from, mid));
    assert(reaches(steps, from, mid, 1));
    if upstream(steps, mid, to) {
        let n = choose|n: nat| #[trigger] reaches(steps, mid, to, n);
        assert(reaches(steps, from, to, n + 1));
    }
}

/// Nothing else is upstream: names that hold what a step depends on, and with each name what that
/// step depends on, hold everything upstream of it.
pub proof fn upstream_is_the_least_closure(
    steps: Seq<Step>,
    names: Set<Seq<char>>,
    from: Seq<char>,
    to: Seq<char>,
    n: nat,
)
    requires
        forall|i: int, j: int|
            0 <= i < steps.len() && 0 <= j < steps[i].depends_on@.len() && (steps[i].id@ == from
                || names.contains(steps[i].id@)) ==> names.contains(
                (#[trigger] steps[i].depends_on@[j])@,
            ),
        reaches(steps, from, to, n),
    ensures
        names.contains(to),
    decreases n,
{
    if depends(steps, from, to) {
        let (i, j) = choose|i: int, j: int|
            0 <= i < steps.len() && (#[trigger] steps[i]).id@ == from && 0 <= j
                < steps[i].depends_on@.len() && (#[trigger] steps[i].depends_on@[j])@ == to;
        assert(names.contains(steps[i].depends_on@[j]@));
    } else {
        let mid = choose|mid: Seq<char>|
            #[trigger] depends(steps, from, mid) && reaches(steps, mid, to, (n - 1) as nat);
        let (i, j) = choose|i: int, j: int|
            0 <= i < steps.len() && (#[trigger] steps[i]).id@ == from && 0 <= j
                < steps[i].depends_on@.len() && (#[trigger] steps[i].depends_on@[j])@ == mid;
        assert(names.contains(steps[i].depends_on@[j]@));
        upstream_is_the_least_closure(steps, names, mid, to, (n - 1) as nat);
    }
}

/// Of the steps that are ready, the one that is written first comes next: a step written before it
/// that has not come waits for a step that has not come either.
pub proof fn the_first_ready_step_comes_next(steps: Seq<Step>, order: Seq<int>, p: int, k: int)
    requires
        is_greedy_order(steps, order),
        0 <= p < order.len(),
        0 <= k < order[p],
        !order.take(p).contains(k),
    ensures
        exists|j: int, m: int|
            0 <= j < steps[k].depends_on@.len() && 0 <= m < steps.len() && (#[trigger] steps[m]).id@
                == (#[trigger] steps[k].depends_on@[j])@ && !order.take(p).contains(m),
{
    assert(is_next(steps, order.take(p), order[p]));
    assert(!can_place(steps, order.take(p), k));
}

/// Every step comes in the order in which steps are gone through.
pub proof fn every_step_comes(steps: Seq<Step>, order: Seq<usize>, i: int)
    requires
        is_run_order(steps, order),
        steps.len() <= usize::MAX,
        0 <= i < steps.len(),
    ensures
        exists|p: int| 0 <= p < order.len() && #[trigger] order[p] == i,
{
    lemma_order_in_range(steps, order);
    if is_greedy_order(steps, ints(order)) {
        order_respects_dependencies(steps, ints(order));
        let o = ints(order);
        lemma_all_come(o, steps.len());
        assert(o.contains(i));
        let p = choose|p: int| 0 <= p < o.len() && o[p] == i;
        assert(order[p] == i);
    } else {
        assert(order[i] == i as usize);
    }
}

proof fn lemma_all_come(o: Seq<int>, n: nat)
    requires
        o.no_duplicates(),
        o.len() == n,
        forall|k: int| 0 <= k < o.len() ==> 0 <= #[trigger] o[k] < n,
    ensures
        forall|i: int| 0 <= i < n ==> o.contains(i),
{
    o.unique_seq_to_set();
    let all = vstd::set_lib::set_int_range(0, n as int);
    vstd::set_lib::lemma_int_range(0, n as int);
    assert forall|x: int| o.to_set().contains(x) implies all.contains(x) by {
        let k = choose|k: int| 0 <= k < o.len() && o[k] == x;
    }
    vstd::set_lib::lemma_subset_equality(o.to_set(), all);
    assert forall|i: int| 0 <= i < n implies o.contains(i) by {
        assert(all.contains(i));
        assert(o.to_set().contains(i));
    }
}

} // verus!
