//! "Did you mean": the closest known name.

use crate::names::NameSet;
use crate::text::chars_of;
use vstd::prelude::*;

verus! {

pub open spec fn least(a: nat, b: nat) -> nat {
    if a <= b {
        a
    } else {
        b
    }
}

/// The edit distance: the fewest insertions, deletions and replacements of one character that
/// turn `a` into `b`.
pub open spec fn distance(a: Seq<char>, b: Seq<char>) -> nat
    decreases a.len() + b.len(),
{
    if a.len() == 0 {
        b.len()
    } else if b.len() == 0 {
        a.len()
    } else {
        let swap = distance(a.drop_last(), b.drop_last()) + (if a.last() == b.last() {
            0nat
        } else {
            1
        });
        least(
            least(distance(a.drop_last(), b) + 1, distance(a, b.drop_last()) + 1),
            swap,
        )
    }
}

proof fn lemma_distance_bound(a: Seq<char>, b: Seq<char>)
    ensures
        distance(a, b) <= a.len() + b.len(),
    decreases a.len() + b.len(),
{
    if a.len() > 0 && b.len() > 0 {
        lemma_distance_bound(a.drop_last(), b);
    }
}

/// The edit distance of two texts.
pub fn edit_distance(a: &Vec<char>, b: &Vec<char>) -> (r: u128)
    ensures
        r == distance(a@, b@),
{
    let mut row: Vec<u128> = Vec::new();
    let mut j: usize = 0;
    while j < b.len()
        invariant
            j <= b.len(),
            row@.len() == j,
            forall|k: int| 0 <= k < j ==> row@[k] == k,
        decreases b.len() - j,
    {
        row.push(j as u128);
        j += 1;
    }
    row.push(j as u128);
    assert(row@.len() == b.len() + 1);
    assert forall|k: int| 0 <= k <= b@.len() implies row@[k] == distance(a@.take(0), b@.take(k)) by {
        assert(a@.take(0).len() == 0);
    }
    let mut i: usize = 0;
    while i < a.len()
        invariant
            i <= a.len(),
            row@.len() == b.len() + 1,
            forall|k: int| 0 <= k <= b@.len() ==> row@[k] == distance(a@.take(i as int), b@.take(k)),
        decreases a.len() - i,
    {
        let ghost ai = a@.take(i as int);
        let ghost ai1 = a@.take(i + 1);
        assert(ai1.drop_last() =~= ai);
        let mut next: Vec<u128> = Vec::new();
        next.push(i as u128 + 1);
        assert(b@.take(0).len() == 0);
        let mut k: usize = 0;
        while k < b.len()
            invariant
                i < a.len(),
                k <= b.len(),
                ai == a@.take(i as int),
                ai1 == a@.take(i + 1),
                ai1.drop_last() == ai,
                row@.len() == b.len() + 1,
                next@.len() == k + 1,
                forall|q: int| 0 <= q <= b@.len() ==> row@[q] == distance(ai, b@.take(q)),
                forall|q: int| 0 <= q <= k ==> next@[q] == distance(ai1, b@.take(q)),
            decreases b.len() - k,
        {
            let ghost bk = b@.take(k as int);
            let ghost bk1 = b@.take(k + 1);
            assert(bk1.drop_last() =~= bk);
            proof {
                lemma_distance_bound(ai, bk1);
                lemma_distance_bound(ai1, bk);
                lemma_distance_bound(ai, bk);
            }
            let up: u128 = row[k + 1] + 1;
            let left: u128 = next[k] + 1;
            let diagonal: u128 = row[k] + if a[i] == b[k] {
                0
            } else {
                1
            };
            let mut best: u128 = if up <= left {
                up
            } else {
                left
            };
            if diagonal < best {
                best = diagonal;
            }
            assert(ai1.last() == a@[i as int]);
            assert(bk1.last() == b@[k as int]);
            assert(best == distance(ai1, bk1));
            next.push(best);
            k += 1;
        }
        row = next;
        i += 1;
    }
    assert(a@.take(a@.len() as int) =~= a@);
    assert(b@.take(b@.len() as int) =~= b@);
    row[b.len()]
}

/// The largest distance at which a name still counts as a slip: a third of its length, at least
/// one.
pub open spec fn slip_limit(name: Seq<char>) -> nat {
    if name.len() < 6 {
        1
    } else {
        name.len() / 3
    }
}

/// The first of the closest candidates within the limit.
pub open spec fn closest(name: Seq<char>, candidates: Seq<Seq<char>>) -> Option<Seq<char>>
    decreases candidates.len(),
{
    if candidates.len() == 0 {
        None
    } else {
        let before = closest(name, candidates.drop_last());
        let c = candidates.last();
        let near = distance(name, c) <= slip_limit(name);
        match before {
            Some(b) => if near && distance(name, c) < distance(name, b) {
                Some(c)
            } else {
                Some(b)
            },
            None => if near {
                Some(c)
            } else {
                None
            },
        }
    }
}

/// The known name closest to `name`, if one is close.
pub fn suggest(name: &str, candidates: &NameSet) -> (r: Option<String>)
    ensures
        crate::text::opt_text(r) == closest(name@, candidates@),
{
    let n = chars_of(name);
    let limit: u128 = if n.len() < 6 {
        1
    } else {
        (n.len() / 3) as u128
    };
    let mut best: Option<String> = None;
    let mut best_distance: u128 = 0;
    let mut i: usize = 0;
    let count = candidates.len();
    while i < count
        invariant
            n@ == name@,
            limit == slip_limit(name@),
            count == candidates@.len(),
            i <= count,
            crate::text::opt_text(best) == closest(name@, candidates@.take(i as int)),
            best is Some ==> best_distance == distance(name@, best->0@),
        decreases count - i,
    {
        assert(candidates@.take(i + 1).drop_last() =~= candidates@.take(i as int));
        let c = candidates.at(i);
        let cv = chars_of(c);
        let d = edit_distance(&n, &cv);
        if d <= limit && (best.is_none() || d < best_distance) {
            best = Some(c.clone());
            best_distance = d;
        }
        i += 1;
    }
    assert(candidates@.take(i as int) =~= candidates@);
    best
}

proof fn lemma_distance_symmetric(a: Seq<char>, b: Seq<char>)
    ensures
        distance(a, b) == distance(b, a),
    decreases a.len() + b.len(),
{
    if a.len() > 0 && b.len() > 0 {
        lemma_distance_symmetric(a.drop_last(), b.drop_last());
        lemma_distance_symmetric(a.drop_last(), b);
        lemma_distance_symmetric(a, b.drop_last());
    }
}

proof fn lemma_distance_zero(a: Seq<char>, b: Seq<char>)
    ensures
        (distance(a, b) == 0) == (a == b),
    decreases a.len() + b.len(),
{
    if a.len() > 0 && b.len() > 0 {
        lemma_distance_zero(a.drop_last(), b.drop_last());
        lemma_distance_zero(a.drop_last(), b);
        lemma_distance_zero(a, b.drop_last());
        if a.drop_last() == b.drop_last() && a.last() == b.last() {
            assert(a =~= a.drop_last().push(a.last()));
            assert(b =~= b.drop_last().push(b.last()));
        }
    } else if a.len() == 0 && b.len() == 0 {
        assert(a =~= b);
    }
}

/// Two texts are at no distance exactly when they are equal, the distance is the same either way,
/// a character more or less at the end costs one at most, and so does one exchanged for another.
pub proof fn a_slip_costs_one(a: Seq<char>, b: Seq<char>, c: char, d: char)
    ensures
        (distance(a, b) == 0) == (a == b),
        distance(a, b) == distance(b, a),
        distance(a.push(c), b) <= distance(a, b) + 1,
        distance(a.push(c), b.push(c)) <= distance(a, b),
        distance(a.push(c), b.push(d)) <= distance(a, b) + 1,
        distance(a, Seq::empty()) == a.len(),
{
    lemma_distance_zero(a, b);
    lemma_distance_symmetric(a, b);
    assert(a.push(c).drop_last() =~= a);
    assert(b.push(c).drop_last() =~= b);
    assert(b.push(d).drop_last() =~= b);
}

/// A measure of two texts by which a character more or less at the end costs one at most, so does
/// one exchanged for another, and an equal one nothing.
pub open spec fn counts_slips(f: spec_fn(Seq<char>, Seq<char>) -> nat) -> bool {
    &&& f(Seq::empty(), Seq::empty()) == 0
    &&& forall|a: Seq<char>, b: Seq<char>, c: char| #[trigger] f(a.push(c), b) <= f(a, b) + 1
    &&& forall|a: Seq<char>, b: Seq<char>, d: char| #[trigger] f(a, b.push(d)) <= f(a, b) + 1
    &&& forall|a: Seq<char>, b: Seq<char>, c: char, d: char| #[trigger]
        f(a.push(c), b.push(d)) <= f(a, b) + (if c == d {
            0nat
        } else {
            1nat
        })
}

/// No such measure finds two texts farther apart: the distance counts every slip that sets them
/// apart, one each.
pub proof fn every_slip_is_counted(
    f: spec_fn(Seq<char>, Seq<char>) -> nat,
    a: Seq<char>,
    b: Seq<char>,
)
    requires
        counts_slips(f),
    ensures
        f(a, b) <= distance(a, b),
    decreases a.len() + b.len(),
{
    if a.len() > 0 {
        assert(a.drop_last().push(a.last()) =~= a);
        every_slip_is_counted(f, a.drop_last(), b);
        assert(f(a.drop_last().push(a.last()), b) <= f(a.drop_last(), b) + 1);
    }
    if b.len() > 0 {
        assert(b.drop_last().push(b.last()) =~= b);
        every_slip_is_counted(f, a, b.drop_last());
        assert(f(a, b.drop_last().push(b.last())) <= f(a, b.drop_last()) + 1);
    }
    if a.len() > 0 && b.len() > 0 {
        every_slip_is_counted(f, a.drop_last(), b.drop_last());
        assert(f(a.drop_last().push(a.last()), b.drop_last().push(b.last())) <= f(
            a.drop_last(),
            b.drop_last(),
        ) + (if a.last() == b.last() {
            0nat
        } else {
            1nat
        }));
    }
    if a.len() == 0 && b.len() == 0 {
        assert(a =~= Seq::empty());
        assert(b =~= Seq::empty());
    }
    if a.len() == 0 && b.len() > 0 {
        assert(distance(a, b.drop_last()) == b.len() - 1);
    }
    if b.len() == 0 && a.len() > 0 {
        assert(distance(a.drop_last(), b) == a.len() - 1);
    }
}

/// What is suggested is the first of the candidates that are nearest, and near enough; nothing is
/// suggested exactly when no candidate is near enough. Near is one slip for a short name, and a
/// third of its length for a longer one.
pub proof fn the_nearest_candidate_is_suggested(
    name: Seq<char>,
    candidates: Seq<Seq<char>>,
    i: int,
)
    ensures
        ({
            let limit = if name.len() < 6 {
                1nat
            } else {
                name.len() / 3
            };
            match closest(name, candidates) {
                Some(c) => distance(name, c) <= limit && (0 <= i < candidates.len() ==> distance(
                    name,
                    c,
                ) <= distance(name, candidates[i])) && exists|k: int|
                    0 <= k < candidates.len() && #[trigger] candidates[k] == c && forall|j: int|
                        0 <= j < k ==> distance(name, #[trigger] candidates[j]) > distance(name, c),
                None => 0 <= i < candidates.len() ==> distance(name, candidates[i]) > limit,
            }
        }),
    decreases candidates.len(),
{
    if candidates.len() > 0 {
        let d = candidates.drop_last();
        the_nearest_candidate_is_suggested(name, d, i);
        let last = candidates.len() - 1;
        assert(candidates[last] == candidates.last());
        if let Some(b) = closest(name, d) {
            let k = choose|k: int|
                0 <= k < d.len() && #[trigger] d[k] == b && forall|j: int|
                    0 <= j < k ==> distance(name, #[trigger] d[j]) > distance(name, b);
            assert(candidates[k] == b);
            assert forall|j: int| 0 <= j < k implies distance(name, #[trigger] candidates[j])
                > distance(name, b) by {
                assert(d[j] == candidates[j]);
            }
        }
        assert forall|j: int| 0 <= j < last implies match closest(name, d) {
            Some(b) => distance(name, b) <= distance(name, #[trigger] candidates[j]),
            None => distance(name, candidates[j]) > slip_limit(name),
        } by {
            the_nearest_candidate_is_suggested(name, d, j);
            assert(d[j] == candidates[j]);
        }
        if 0 <= i < d.len() {
            assert(d[i] == candidates[i]);
        }
        if closest(name, d) is None && 0 <= i < d.len() {
            assert(distance(name, candidates[i]) > slip_limit(name));
        }
    }
}

} // verus!
