//! Insertion-ordered sets and maps keyed by text.
//!
//! Key order and key lookup come from `indexmap::IndexSet`; what an ordered map adds on top of it
//! is proved here.

use indexmap::IndexSet;
use vstd::prelude::*;

verus! {

/// `indexmap::IndexSet`, an insertion-ordered hash set.
#[verifier::external_type_specification]
#[verifier::external_body]
#[verifier::reject_recursive_types(T)]
#[verifier::reject_recursive_types(S)]
pub struct ExIndexSet<T, S>(indexmap::IndexSet<T, S>);

/// The texts an `IndexSet<String>` holds, in its iteration order.
pub uninterp spec fn key_order(s: IndexSet<String>) -> Seq<Seq<char>>;

/// `IndexSet::new`: an empty set.
#[verifier::external_body]
fn keys_new() -> (r: IndexSet<String>)
    ensures
        key_order(r) == Seq::<Seq<char>>::empty(),
{
    IndexSet::new()
}

/// `IndexSet::len`: the number of texts held.
#[verifier::external_body]
fn keys_len(s: &IndexSet<String>) -> (r: usize)
    ensures
        r == key_order(*s).len(),
{
    s.len()
}

/// `IndexSet::get_index_of`: the one position of an equal text, if there is one.
#[verifier::external_body]
fn keys_find(s: &IndexSet<String>, k: &str) -> (r: Option<usize>)
    ensures
        match r {
            Some(i) => i < key_order(*s).len() && key_order(*s)[i as int] == k@ && (forall|j: int|
                0 <= j < key_order(*s).len() && #[trigger] key_order(*s)[j] == k@ ==> j == i),
            None => !key_order(*s).contains(k@),
        },
{
    s.get_index_of(k)
}

/// `IndexSet::get_index`: the text at a position.
#[verifier::external_body]
fn keys_at(s: &IndexSet<String>, i: usize) -> (r: &String)
    requires
        i < key_order(*s).len(),
    ensures
        r@ == key_order(*s)[i as int],
{
    s.get_index(i).unwrap()
}

/// `IndexSet::insert`: a text already held leaves the set as it was; a new one goes to the end.
#[verifier::external_body]
fn keys_insert(s: &mut IndexSet<String>, k: String) -> (fresh: bool)
    ensures
        fresh == !key_order(*old(s)).contains(k@),
        key_order(*final(s)) == (if key_order(*old(s)).contains(k@) {
            key_order(*old(s))
        } else {
            key_order(*old(s)).push(k@)
        }),
{
    s.insert(k)
}

/// `IndexSet::shift_remove_index`: takes out one position, keeping the order of the rest.
#[verifier::external_body]
fn keys_remove(s: &mut IndexSet<String>, i: usize) -> (r: Option<String>)
    requires
        i < key_order(*old(s)).len(),
    ensures
        r is Some,
        r->0@ == key_order(*old(s))[i as int],
        key_order(*final(s)) == key_order(*old(s)).remove(i as int),
{
    s.shift_remove_index(i)
}

/// `IndexSet::clone`: the same texts in the same order.
#[verifier::external_body]
fn keys_clone(s: &IndexSet<String>) -> (r: IndexSet<String>)
    ensures
        key_order(r) == key_order(*s),
{
    s.clone()
}

// ---------------------------------------------------------------------------------------------
// Copying
// ---------------------------------------------------------------------------------------------
/// A value that can be copied to one with the same view.
pub trait Replicate: View + Sized {
    /// A copy with the same view.
    fn replicate(&self) -> (r: Self)
        ensures
            r@ == self@,
    ;
}

impl Replicate for String {
    fn replicate(&self) -> (r: Self) {
        self.clone()
    }
}

impl Replicate for bool {
    fn replicate(&self) -> (r: Self) {
        *self
    }
}

/// The views of a sequence.
pub open spec fn views<T: View>(s: Seq<T>) -> Seq<T::V> {
    Seq::new(s.len(), |i: int| s[i]@)
}

/// The view of an option's content.
pub open spec fn opt_view<T: View>(o: Option<T>) -> Option<T::V> {
    match o {
        Some(x) => Some(x@),
        None => None,
    }
}

/// Copies every element.
pub fn replicate_all<T: Replicate>(v: &Vec<T>) -> (r: Vec<T>)
    ensures
        views(r@) == views(v@),
        r.len() == v.len(),
{
    let mut out: Vec<T> = Vec::new();
    let mut i: usize = 0;
    while i < v.len()
        invariant
            i <= v.len(),
            out@.len() == i,
            forall|j: int| 0 <= j < i ==> (#[trigger] out@[j])@ == v@[j]@,
        decreases v.len() - i,
    {
        out.push(v[i].replicate());
        i += 1;
    }
    assert(views(out@) =~= views(v@));
    out
}

/// Copies what an option holds.
pub fn replicate_opt<T: Replicate>(o: &Option<T>) -> (r: Option<T>)
    ensures
        opt_view(r) == opt_view(*o),
{
    match o {
        Some(x) => Some(x.replicate()),
        None => None,
    }
}

// ---------------------------------------------------------------------------------------------
// Sets
// ---------------------------------------------------------------------------------------------
/// `s` with `k` in it: unchanged when it was there, at the end when it was not.
pub open spec fn with_name(s: Seq<Seq<char>>, k: Seq<char>) -> Seq<Seq<char>> {
    if s.contains(k) {
        s
    } else {
        s.push(k)
    }
}

/// `s` without `k`, the rest in its order.
pub open spec fn without_name(s: Seq<Seq<char>>, k: Seq<char>) -> Seq<Seq<char>> {
    if s.contains(k) {
        s.remove(s.index_of(k))
    } else {
        s
    }
}

/// What taking a name out of distinct names does.
pub proof fn lemma_without_name(s: Seq<Seq<char>>, k: Seq<char>, x: Seq<char>)
    requires
        s.no_duplicates(),
    ensures
        without_name(s, k).no_duplicates(),
        without_name(s, k).contains(x) == (s.contains(x) && x != k),
        without_name(s, k).len() == (if s.contains(k) {
            s.len() - 1
        } else {
            s.len() as int
        }),
{
    let t = without_name(s, k);
    if s.contains(k) {
        let at = s.index_of(k);
        assert forall|j: int| 0 <= j < t.len() implies t[j] == s[if j < at {
            j
        } else {
            j + 1
        }] by {}
        if t.contains(x) {
            let j = choose|j: int| 0 <= j < t.len() && t[j] == x;
            let was = if j < at {
                j
            } else {
                j + 1
            };
            assert(s[was] == x);
        }
        if s.contains(x) && x != k {
            let i = choose|i: int| 0 <= i < s.len() && s[i] == x;
            let now = if i < at {
                i
            } else {
                i - 1
            };
            assert(t[now] == x);
        }
    }
}

/// An insertion-ordered set of texts.
#[derive(Debug)]
pub struct NameSet {
    keys: IndexSet<String>,
}

impl View for NameSet {
    type V = Seq<Seq<char>>;

    closed spec fn view(&self) -> Seq<Seq<char>> {
        key_order(self.keys)
    }
}

impl NameSet {
    /// An empty set.
    pub fn new() -> (r: Self)
        ensures
            r@ == Seq::<Seq<char>>::empty(),
    {
        NameSet { keys: keys_new() }
    }

    /// How many names the set holds.
    pub fn len(&self) -> (r: usize)
        ensures
            r == self@.len(),
    {
        keys_len(&self.keys)
    }

    /// Whether `k` is in the set.
    pub fn contains(&self, k: &str) -> (r: bool)
        ensures
            r == self@.contains(k@),
    {
        match keys_find(&self.keys, k) {
            Some(i) => {
                assert(self@[i as int] == k@);
                true
            },
            None => false,
        }
    }

    /// The name at position `i`.
    pub fn at(&self, i: usize) -> (r: &String)
        requires
            i < self@.len(),
        ensures
            r@ == self@[i as int],
    {
        keys_at(&self.keys, i)
    }

    /// Adds `k`, and says whether it was new.
    pub fn insert(&mut self, k: String) -> (fresh: bool)
        ensures
            fresh == !old(self)@.contains(k@),
            final(self)@ == with_name(old(self)@, k@),
    {
        keys_insert(&mut self.keys, k)
    }

    /// Takes `k` out, keeping the order of the rest.
    pub fn remove(&mut self, k: &str) -> (had: bool)
        ensures
            had == old(self)@.contains(k@),
            final(self)@ == without_name(old(self)@, k@),
            !final(self)@.contains(k@),
    {
        match keys_find(&self.keys, k) {
            Some(i) => {
                let ghost before = self@;
                keys_remove(&mut self.keys, i);
                proof {
                    assert(before[i as int] == k@);
                    assert(before.index_of(k@) == i);
                    if self@.contains(k@) {
                        let j = choose|j: int| 0 <= j < self@.len() && self@[j] == k@;
                        let was = if j < i {
                            j
                        } else {
                            j + 1
                        };
                        assert(before[was] == k@);
                    }
                }
                true
            },
            None => false,
        }
    }
}

impl Replicate for NameSet {
    fn replicate(&self) -> (r: Self) {
        NameSet { keys: keys_clone(&self.keys) }
    }
}

impl Clone for NameSet {
    fn clone(&self) -> (r: Self)
        ensures
            r@ == self@,
    {
        self.replicate()
    }
}

// ---------------------------------------------------------------------------------------------
// Maps
// ---------------------------------------------------------------------------------------------
/// Whether the entries hold the key `k`.
pub open spec fn has_key<A>(m: Seq<(Seq<char>, A)>, k: Seq<char>) -> bool {
    exists|i: int| 0 <= i < m.len() && (#[trigger] m[i]).0 == k
}

/// A position of the key `k`.
pub open spec fn key_pos<A>(m: Seq<(Seq<char>, A)>, k: Seq<char>) -> int {
    choose|i: int| 0 <= i < m.len() && (#[trigger] m[i]).0 == k
}

/// The value under the key `k`.
pub open spec fn lookup<A>(m: Seq<(Seq<char>, A)>, k: Seq<char>) -> Option<A> {
    if has_key(m, k) {
        Some(m[key_pos(m, k)].1)
    } else {
        None
    }
}

/// The entries with `k` set to `v`: in place when the key was there, else at the end.
pub open spec fn put<A>(m: Seq<(Seq<char>, A)>, k: Seq<char>, v: A) -> Seq<(Seq<char>, A)> {
    if has_key(m, k) {
        m.update(key_pos(m, k), (k, v))
    } else {
        m.push((k, v))
    }
}

/// The entries without the key `k`, the rest in their order.
pub open spec fn without<A>(m: Seq<(Seq<char>, A)>, k: Seq<char>) -> Seq<(Seq<char>, A)> {
    if has_key(m, k) {
        m.remove(key_pos(m, k))
    } else {
        m
    }
}

/// No key occurs twice.
pub open spec fn unique_keys<A>(m: Seq<(Seq<char>, A)>) -> bool {
    forall|i: int, j: int|
        0 <= i < m.len() && 0 <= j < m.len() && (#[trigger] m[i]).0 == (#[trigger] m[j]).0 ==> i
            == j
}

/// Reading back what was put, and everything else unchanged.
pub proof fn lemma_put_get<A>(m: Seq<(Seq<char>, A)>, k: Seq<char>, v: A, q: Seq<char>)
    requires
        unique_keys(m),
    ensures
        unique_keys(put(m, k, v)),
        lookup(put(m, k, v), q) == (if q == k {
            Some(v)
        } else {
            lookup(m, q)
        }),
        has_key(put(m, k, v), q) == (q == k || has_key(m, q)),
{
    let p = put(m, k, v);
    if has_key(m, k) {
        let at = key_pos(m, k);
        assert(p[at] == (k, v));
        if has_key(m, q) {
            assert(p[key_pos(m, q)].0 == q);
        }
        if has_key(p, q) {
            assert(m[key_pos(p, q)].0 == q);
        }
    } else {
        assert(p[m.len() as int] == (k, v));
        if has_key(m, q) {
            assert(p[key_pos(m, q)].0 == q);
        }
        if has_key(p, q) && q != k {
            assert(m[key_pos(p, q)].0 == q);
        }
    }
}

/// A removed key is gone, and everything else is unchanged.
pub proof fn lemma_without_get<A>(m: Seq<(Seq<char>, A)>, k: Seq<char>, q: Seq<char>)
    requires
        unique_keys(m),
    ensures
        unique_keys(without(m, k)),
        lookup(without(m, k), q) == (if q == k {
            None
        } else {
            lookup(m, q)
        }),
{
    let p = without(m, k);
    if has_key(m, k) {
        let at = key_pos(m, k);
        assert forall|j: int| 0 <= j < p.len() implies #[trigger] p[j] == m[if j < at {
            j
        } else {
            j + 1
        }] by {}
        if has_key(p, q) {
            let j = key_pos(p, q);
            let was = if j < at {
                j
            } else {
                j + 1
            };
            assert(m[was].0 == q);
        }
        if has_key(m, q) && q != k {
            let i = key_pos(m, q);
            let now = if i < at {
                i
            } else {
                i - 1
            };
            assert(p[now] == m[i]);
        }
    }
}

/// Entries put in one after another build up the sequence they came from.
pub proof fn lemma_put_next<A>(m: Seq<(Seq<char>, A)>, i: int)
    requires
        unique_keys(m),
        0 <= i < m.len(),
    ensures
        put(m.take(i), m[i].0, m[i].1) == m.take(i + 1),
{
    let t = m.take(i);
    if has_key(t, m[i].0) {
        let j = key_pos(t, m[i].0);
        assert(m[j].0 == m[i].0);
    }
    assert(put(t, m[i].0, m[i].1) =~= m.take(i + 1));
}

/// An insertion-ordered map from text.
#[derive(Debug)]
pub struct OrderedMap<T: View> {
    keys: IndexSet<String>,
    vals: Vec<T>,
}

impl<T: View> View for OrderedMap<T> {
    type V = Seq<(Seq<char>, T::V)>;

    closed spec fn view(&self) -> Seq<(Seq<char>, T::V)> {
        Seq::new(self.vals@.len(), |i: int| (key_order(self.keys)[i], self.vals@[i]@))
    }
}

impl<T: View> OrderedMap<T> {
    #[verifier::type_invariant]
    spec fn inv(self) -> bool {
        &&& key_order(self.keys).len() == self.vals@.len()
        &&& key_order(self.keys).no_duplicates()
    }

    proof fn lemma_view(&self)
        requires
            self.inv(),
        ensures
            unique_keys(self@),
            forall|k: Seq<char>| #[trigger]
                key_order(self.keys).contains(k) == has_key(self@, k),
            forall|i: int|
                0 <= i < self.vals@.len() && (#[trigger] self@[i]).0 == key_order(self.keys)[i] ==> key_pos(
                    self@,
                    key_order(self.keys)[i],
                ) == i,
    {
        let keys = key_order(self.keys);
        let m = self@;
        assert forall|k: Seq<char>| #[trigger] keys.contains(k) == has_key(m, k) by {
            if keys.contains(k) {
                let i = choose|i: int| 0 <= i < keys.len() && keys[i] == k;
                assert(m[i].0 == k);
            }
            if has_key(m, k) {
                assert(keys[key_pos(m, k)] == k);
            }
        }
    }

    /// An empty map.
    pub fn new() -> (r: Self)
        ensures
            r@ == Seq::<(Seq<char>, T::V)>::empty(),
            unique_keys(r@),
    {
        let keys = keys_new();
        let vals: Vec<T> = Vec::new();
        assert(key_order(keys) =~= Seq::<Seq<char>>::empty());
        let r = OrderedMap { keys, vals };
        assert(r@ =~= Seq::<(Seq<char>, T::V)>::empty());
        r
    }

    /// How many entries the map holds.
    pub fn len(&self) -> (r: usize)
        ensures
            r == self@.len(),
            unique_keys(self@),
    {
        proof {
            use_type_invariant(self);
            self.lemma_view();
        }
        self.vals.len()
    }

    /// Whether the map holds nothing.
    pub fn is_empty(&self) -> (r: bool)
        ensures
            r == (self@.len() == 0),
            unique_keys(self@),
    {
        self.len() == 0
    }

    /// The key at position `i`.
    pub fn key_at(&self, i: usize) -> (r: &String)
        requires
            i < self@.len(),
        ensures
            r@ == self@[i as int].0,
    {
        proof {
            use_type_invariant(self);
        }
        keys_at(&self.keys, i)
    }

    /// The value at position `i`.
    pub fn value_at(&self, i: usize) -> (r: &T)
        requires
            i < self@.len(),
        ensures
            r@ == self@[i as int].1,
    {
        &self.vals[i]
    }

    /// Whether the map holds `k`.
    pub fn contains_key(&self, k: &str) -> (r: bool)
        ensures
            r == has_key(self@, k@),
            unique_keys(self@),
    {
        proof {
            use_type_invariant(self);
            self.lemma_view();
        }
        match keys_find(&self.keys, k) {
            Some(i) => {
                assert(self@[i as int].0 == k@);
                true
            },
            None => {
                assert(!key_order(self.keys).contains(k@));
                false
            },
        }
    }

    /// The value under `k`.
    pub fn get(&self, k: &str) -> (r: Option<&T>)
        ensures
            match r {
                Some(v) => lookup(self@, k@) == Some(v@),
                None => lookup(self@, k@) is None,
            },
            unique_keys(self@),
    {
        proof {
            use_type_invariant(self);
            self.lemma_view();
        }
        match keys_find(&self.keys, k) {
            Some(i) => {
                assert(self@[i as int].0 == k@);
                Some(&self.vals[i])
            },
            None => None,
        }
    }

    /// Sets `k` to `v`: in place when the key was there, else at the end.
    pub fn insert(&mut self, k: String, v: T)
        ensures
            final(self)@ == put(old(self)@, k@, v@),
            unique_keys(final(self)@),
            unique_keys(old(self)@),
    {
        proof {
            use_type_invariant(&*self);
            self.lemma_view();
        }
        let ghost before = *self;
        let mut me = OrderedMap::new();
        std::mem::swap(&mut me, self);
        let OrderedMap { keys, vals } = me;
        let mut keys = keys;
        let mut vals = vals;
        let ghost m = before@;
        let ghost kv = k@;
        let ghost vv = v@;
        match keys_find(&keys, &k) {
            Some(i) => {
                proof {
                    assert(m[i as int].0 == k@);
                }
                vals.set(i, v);
                let me = OrderedMap { keys, vals };
                assert(me@ =~= put(m, kv, vv));
                *self = me;
            },
            None => {
                keys_insert(&mut keys, k);
                vals.push(v);
                let me = OrderedMap { keys, vals };
                assert(me@ =~= put(m, kv, vv));
                *self = me;
            },
        }
        proof {
            lemma_put_get(m, kv, vv, kv);
        }
    }

    /// Takes out `k`, keeping the order of the rest.
    pub fn shift_remove(&mut self, k: &str) -> (r: Option<T>)
        ensures
            final(self)@ == without(old(self)@, k@),
            opt_view(r) == lookup(old(self)@, k@),
            unique_keys(final(self)@),
            unique_keys(old(self)@),
    {
        proof {
            use_type_invariant(&*self);
            self.lemma_view();
        }
        let ghost before = *self;
        let ghost m = before@;
        let mut me = OrderedMap::new();
        std::mem::swap(&mut me, self);
        let OrderedMap { keys, vals } = me;
        let mut keys = keys;
        let mut vals = vals;
        proof {
            lemma_without_get(m, k@, k@);
        }
        match keys_find(&keys, k) {
            Some(i) => {
                proof {
                    assert(m[i as int].0 == k@);
                }
                let _ = keys_remove(&mut keys, i);
                let v = vals.remove(i);
                let me = OrderedMap { keys, vals };
                assert(me@ =~= without(m, k@));
                *self = me;
                Some(v)
            },
            None => {
                let me = OrderedMap { keys, vals };
                assert(me@ =~= m);
                *self = me;
                None
            },
        }
    }
}

impl<T: Replicate> Replicate for OrderedMap<T> {
    fn replicate(&self) -> (r: Self) {
        proof {
            use_type_invariant(self);
        }
        let keys = keys_clone(&self.keys);
        let vals = replicate_all(&self.vals);
        let r = OrderedMap { keys, vals };
        assert forall|i: int| 0 <= i < r@.len() implies #[trigger] r@[i] == self@[i] by {
            assert(views(vals@)[i] == views(self.vals@)[i]);
        }
        assert(r@ =~= self@);
        r
    }
}

impl<T: Replicate> Clone for OrderedMap<T> {
    fn clone(&self) -> (r: Self)
        ensures
            r@ == self@,
    {
        self.replicate()
    }
}

} // verus!
