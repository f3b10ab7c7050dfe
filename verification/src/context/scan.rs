//! Lexical scans of a template source: string literals, subscripts and bindings.

use crate::text::{
    chars_of, contains_text, find_at, find_from, is_ascii_white, is_ident_char, lemma_find_from,
    matches_at, occurs_at, slice_of, text_eq, texts,
};
use vstd::prelude::*;

verus! {

/// Whether `c` can stand in an identifier.
pub fn ident_char(c: char) -> (r: bool)
    ensures
        r == is_ident_char(c),
{
    ('a' <= c && c <= 'z') || ('A' <= c && c <= 'Z') || ('0' <= c && c <= '9') || c == '_'
}

fn ascii_white(c: char) -> (r: bool)
    ensures
        r == is_ascii_white(c),
{
    c == ' ' || c == '\t' || c == '\n' || c as u32 == 0xc || c == '\r'
}

// ---------------------------------------------------------------------------------------------
// String literals
// ---------------------------------------------------------------------------------------------
/// Which characters of an expression lie in a string literal, when `quote` is open before them.
/// A backslash keeps the character after it inside the literal.
pub open spec fn literal_mask(s: Seq<char>, quote: Option<char>) -> Seq<bool>
    decreases s.len(),
{
    if s.len() == 0 {
        Seq::empty()
    } else {
        match quote {
            Some(q) => if s[0] == '\\' && s.len() > 1 {
                seq![true, true] + literal_mask(s.skip(2), quote)
            } else {
                seq![true] + literal_mask(
                    s.skip(1),
                    if s[0] == q {
                        None
                    } else {
                        quote
                    },
                )
            },
            None => if s[0] == '\'' || s[0] == '"' {
                seq![true] + literal_mask(s.skip(1), Some(s[0]))
            } else {
                seq![false] + literal_mask(s.skip(1), None)
            },
        }
    }
}

/// Every character is marked one way or the other.
pub proof fn lemma_mask_len(s: Seq<char>, quote: Option<char>)
    ensures
        literal_mask(s, quote).len() == s.len(),
    decreases s.len(),
{
    if s.len() > 0 {
        match quote {
            Some(q) => if s[0] == '\\' && s.len() > 1 {
                lemma_mask_len(s.skip(2), quote);
            } else {
                lemma_mask_len(
                    s.skip(1),
                    if s[0] == q {
                        None
                    } else {
                        quote
                    },
                );
            },
            None => if s[0] == '\'' || s[0] == '"' {
                lemma_mask_len(s.skip(1), Some(s[0]));
            } else {
                lemma_mask_len(s.skip(1), None);
            },
        }
    }
}

/// An expression without quotes has no character in a literal.
pub proof fn no_quotes_no_literals(s: Seq<char>)
    requires
        !s.contains('\''),
        !s.contains('"'),
    ensures
        forall|i: int| 0 <= i < s.len() ==> !literal_mask(s, None)[i],
    decreases s.len(),
{
    if s.len() > 0 {
        assert(s.contains(s[0]));
        let t = s.skip(1);
        assert forall|c: char| t.contains(c) implies s.contains(c) by {
            let k = choose|k: int| 0 <= k < t.len() && t[k] == c;
            assert(s[k + 1] == c);
        }
        no_quotes_no_literals(t);
        lemma_mask_len(t, None);
        assert forall|i: int| 0 <= i < s.len() implies !literal_mask(s, None)[i] by {
            if i > 0 {
                assert(literal_mask(s, None)[i] == literal_mask(t, None)[i - 1]);
            }
        }
    }
}

/// Marks each character of an expression that lies in a string literal.
pub fn string_mask(s: &Vec<char>) -> (r: Vec<bool>)
    ensures
        r@ == literal_mask(s@, None),
        r@.len() == s@.len(),
{
    let mut mask: Vec<bool> = Vec::new();
    let mut quote: Option<char> = None;
    let mut i: usize = 0;
    assert(s@.skip(0) =~= s@);
    while i < s.len()
        invariant
            i <= s.len(),
            mask@.len() == i,
            mask@ + literal_mask(s@.skip(i as int), quote) == literal_mask(s@, None),
        decreases s.len() - i,
    {
        let ghost rest = s@.skip(i as int);
        let ghost before = mask@;
        let c = s[i];
        assert(rest[0] == c);
        assert(rest.skip(1) =~= s@.skip(i + 1));
        match quote {
            Some(q) => {
                mask.push(true);
                if c == '\\' && s.len() - i > 1 {
                    mask.push(true);
                    assert(rest.skip(2) =~= s@.skip(i + 2));
                    assert(mask@ + literal_mask(s@.skip(i + 2), quote) =~= before + (seq![
                        true,
                        true,
                    ] + literal_mask(s@.skip(i + 2), quote)));
                    i += 1;
                } else {
                    if c == q {
                        quote = None;
                    }
                    assert(mask@ + literal_mask(s@.skip(i + 1), quote) =~= before + (seq![true]
                        + literal_mask(s@.skip(i + 1), quote)));
                }
            },
            None => {
                if c == '\'' || c == '"' {
                    quote = Some(c);
                    mask.push(true);
                    assert(mask@ + literal_mask(s@.skip(i + 1), quote) =~= before + (seq![true]
                        + literal_mask(s@.skip(i + 1), quote)));
                } else {
                    mask.push(false);
                    assert(mask@ + literal_mask(s@.skip(i + 1), quote) =~= before + (seq![false]
                        + literal_mask(s@.skip(i + 1), quote)));
                }
            },
        }
        i += 1;
    }
    assert(s@.skip(i as int).len() == 0);
    assert(mask@ + Seq::<bool>::empty() =~= mask@);
    mask
}

// ---------------------------------------------------------------------------------------------
// Subscripts
// ---------------------------------------------------------------------------------------------
/// The roots whose dotted references are checked.
pub open spec fn checked_roots() -> Seq<Seq<char>> {
    seq!["params"@, "steps"@, "artifacts"@]
}

/// The first position at or before `i` with no white space directly before it.
pub open spec fn back_over_white(s: Seq<char>, i: int) -> int
    decreases i,
{
    if i > 0 && is_ascii_white(s[i - 1]) {
        back_over_white(s, i - 1)
    } else {
        i
    }
}

/// The first position at or after `i` that is not white space.
pub open spec fn over_white(s: Seq<char>, i: int) -> int
    decreases s.len() - i,
{
    if 0 <= i < s.len() && is_ascii_white(s[i]) {
        over_white(s, i + 1)
    } else {
        i
    }
}

/// Whether a path starts at `i`: what stands before it, white space aside, is neither a dot nor a
/// part of an identifier.
pub open spec fn starts_path(s: Seq<char>, i: int) -> bool {
    let b = back_over_white(s, i);
    b == 0 || (s[b - 1] != '.' && !is_ident_char(s[b - 1]))
}

/// Whether `root` stands at `i` as a path root that is subscripted, outside string literals.
pub open spec fn subscript_at(s: Seq<char>, root: Seq<char>, i: int) -> bool {
    let j = over_white(s, i + root.len());
    let mask = literal_mask(s, None);
    occurs_at(s, root, i) && starts_path(s, i) && j < s.len() && s[j] == '[' && !mask[i]
        && !mask[j]
}

/// Whether an expression subscripts `root` anywhere.
pub open spec fn subscripts(s: Seq<char>, root: Seq<char>) -> bool {
    exists|i: int| subscript_at(s, root, i)
}

/// The bodies of the `{{ … }}` expressions of a source, up to the first that is not closed.
pub open spec fn bodies(s: Seq<char>) -> Seq<Seq<char>>
    decreases s.len(),
    via bodies_decreases
{
    match find_from(s, "{{"@, 0) {
        None => Seq::empty(),
        Some(a) => {
            let after = s.skip(a + 2);
            match find_from(after, "}}"@, 0) {
                None => Seq::empty(),
                Some(e) => seq![after.take(e)] + bodies(after.skip(e + 2)),
            }
        },
    }
}

#[via_fn]
proof fn bodies_decreases(s: Seq<char>) {
    reveal_strlit("{{");
    reveal_strlit("}}");
    lemma_find_from(s, "{{"@, 0);
    if let Some(a) = find_from(s, "{{"@, 0) {
        lemma_find_from(s.skip(a + 2), "}}"@, 0);
    }
}

/// The roots found so far, and after them those of the first `k` checked roots that `body`
/// subscripts.
pub open spec fn found_in_body(found: Seq<Seq<char>>, body: Seq<char>, k: int) -> Seq<Seq<char>>
    decreases k,
{
    if k <= 0 {
        found
    } else {
        let before = found_in_body(found, body, k - 1);
        let root = checked_roots()[k - 1];
        if !before.contains(root) && subscripts(body, root) {
            before.push(root)
        } else {
            before
        }
    }
}

/// The checked roots that expression bodies subscript, each once, in the order found.
pub open spec fn found_in(bs: Seq<Seq<char>>) -> Seq<Seq<char>>
    decreases bs.len(),
{
    if bs.len() == 0 {
        Seq::empty()
    } else {
        found_in_body(found_in(bs.drop_last()), bs.last(), 3)
    }
}

/// The checked roots that a source accesses with a subscript.
pub open spec fn subscripted(s: Seq<char>) -> Seq<Seq<char>> {
    found_in(bodies(s))
}

fn subscripts_at(s: &Vec<char>, mask: &Vec<bool>, root: &Vec<char>, i: usize) -> (r: bool)
    requires
        mask@ == literal_mask(s@, None),
        mask@.len() == s@.len(),
        root@.len() > 0,
    ensures
        r == subscript_at(s@, root@, i as int),
{
    if !matches_at(s, root, i) {
        return false;
    }
    assert(i + root.len() <= s.len());
    let mut b: usize = i;
    while b > 0 && ascii_white(s[b - 1])
        invariant
            b <= i <= s@.len(),
            back_over_white(s@, b as int) == back_over_white(s@, i as int),
        decreases b,
    {
        b -= 1;
    }
    let at_root = b == 0 || (s[b - 1] != '.' && !ident_char(s[b - 1]));
    let start: usize = i + root.len();
    let mut j: usize = start;
    while j < s.len() && ascii_white(s[j])
        invariant
            start <= j <= s@.len(),
            over_white(s@, j as int) == over_white(s@, start as int),
        decreases s.len() - j,
    {
        j += 1;
    }
    at_root && j < s.len() && s[j] == '[' && !mask[i] && !mask[j]
}

fn body_subscripts(s: &Vec<char>, mask: &Vec<bool>, root: &Vec<char>) -> (r: bool)
    requires
        mask@ == literal_mask(s@, None),
        mask@.len() == s@.len(),
        root@.len() > 0,
    ensures
        r == subscripts(s@, root@),
{
    let mut i: usize = 0;
    while i < s.len()
        invariant
            i <= s.len(),
            mask@ == literal_mask(s@, None),
            mask@.len() == s@.len(),
            root@.len() > 0,
            forall|k: int| 0 <= k < i ==> !subscript_at(s@, root@, k),
        decreases s.len() - i,
    {
        if subscripts_at(s, mask, root, i) {
            return true;
        }
        i += 1;
    }
    assert forall|k: int| !subscript_at(s@, root@, k) by {}
    false
}

fn holds(v: &Vec<String>, s: &str) -> (r: bool)
    ensures
        r == texts(v@).contains(s@),
{
    let mut i: usize = 0;
    while i < v.len()
        invariant
            i <= v.len(),
            forall|j: int| 0 <= j < i ==> texts(v@)[j] != s@,
        decreases v.len() - i,
    {
        if text_eq(&v[i], s) {
            assert(texts(v@)[i as int] == s@);
            return true;
        }
        i += 1;
    }
    false
}

fn note_root(found: &mut Vec<String>, body: &Vec<char>, mask: &Vec<bool>, root: &str)
    requires
        mask@ == literal_mask(body@, None),
        mask@.len() == body@.len(),
        root@.len() > 0,
    ensures
        texts(final(found)@) == (if !texts(old(found)@).contains(root@) && subscripts(
            body@,
            root@,
        ) {
            texts(old(found)@).push(root@)
        } else {
            texts(old(found)@)
        }),
{
    if !holds(found, root) {
        let rv = chars_of(root);
        if body_subscripts(body, mask, &rv) {
            let ghost before = found@;
            found.push(root.to_owned());
            assert(texts(found@) =~= texts(before).push(root@));
        }
    }
}

/// The checked roots that `source` accesses with a subscript (`root[…]`) inside a `{{ … }}`
/// expression.
pub fn subscripted_roots(source: &str) -> (r: Vec<String>)
    ensures
        texts(r@) == subscripted(source@),
{
    proof {
        reveal_strlit("{{");
        reveal_strlit("}}");
        reveal_strlit("params");
        reveal_strlit("steps");
        reveal_strlit("artifacts");
    }
    let s = chars_of(source);
    let open = chars_of("{{");
    let close = chars_of("}}");
    let mut found: Vec<String> = Vec::new();
    let mut at: usize = 0;
    let ghost mut seen: Seq<Seq<char>> = Seq::empty();
    assert(s@.skip(0) =~= s@);
    assert(seen + bodies(s@) =~= bodies(s@));
    assert(texts(found@) =~= found_in(seen));
    loop
        invariant
            s@ == source@,
            open@ == "{{"@,
            close@ == "}}"@,
            "{{"@.len() == 2,
            "}}"@.len() == 2,
            "params"@.len() == 6,
            "steps"@.len() == 5,
            "artifacts"@.len() == 9,
            at <= s.len(),
            seen + bodies(s@.skip(at as int)) == bodies(source@),
            texts(found@) == found_in(seen),
        decreases s.len() - at,
    {
        let ghost rest = s@.skip(at as int);
        let tail = slice_of(&s, at, s.len());
        assert(tail@ =~= rest);
        proof {
            lemma_find_from(rest, "{{"@, 0);
        }
        match find_at(&tail, &open, 0) {
            None => {
                assert(seen + Seq::<Seq<char>>::empty() =~= seen);
                return found;
            },
            Some(a) => {
                let after = slice_of(&tail, a + 2, tail.len());
                assert(after@ =~= rest.skip(a + 2));
                proof {
                    lemma_find_from(after@, "}}"@, 0);
                }
                match find_at(&after, &close, 0) {
                    None => {
                        assert(seen + Seq::<Seq<char>>::empty() =~= seen);
                        return found;
                    },
                    Some(e) => {
                        let body = slice_of(&after, 0, e);
                        assert(body@ =~= after@.take(e as int));
                        let mask = string_mask(&body);
                        let ghost before = texts(found@);
                        note_root(&mut found, &body, &mask, "params");
                        assert(texts(found@) == found_in_body(before, body@, 1)) by {
                            reveal_with_fuel(found_in_body, 2);
                        }
                        note_root(&mut found, &body, &mask, "steps");
                        assert(texts(found@) == found_in_body(before, body@, 2));
                        note_root(&mut found, &body, &mask, "artifacts");
                        assert(texts(found@) == found_in_body(before, body@, 3));
                        proof {
                            let was = seen;
                            seen = was.push(body@);
                            assert(seen.drop_last() =~= was);
                            assert(after@.skip(e + 2) =~= s@.skip(at + a + 2 + e + 2));
                            assert(seen + bodies(s@.skip(at + a + 2 + e + 2)) =~= was + (seq![
                                after@.take(e as int),
                            ] + bodies(after@.skip(e + 2))));
                        }
                        at = at + a + 2 + e + 2;
                    },
                }
            },
        }
    }
}

// ---------------------------------------------------------------------------------------------
// Laws of subscripts
// ---------------------------------------------------------------------------------------------
/// Whether every `{{` of a source has a `}}` after it.
pub open spec fn all_closed(s: Seq<char>) -> bool {
    forall|i: int| #[trigger]
        occurs_at(s, "{{"@, i) ==> exists|j: int| i + 2 <= j && #[trigger] occurs_at(s, "}}"@, j)
}

/// Those of `ys` that are not among `xs`, in their order.
pub open spec fn not_among(ys: Seq<Seq<char>>, xs: Seq<Seq<char>>) -> Seq<Seq<char>>
    decreases ys.len(),
{
    if ys.len() == 0 {
        Seq::empty()
    } else if xs.contains(ys.last()) {
        not_among(ys.drop_last(), xs)
    } else {
        not_among(ys.drop_last(), xs).push(ys.last())
    }
}

proof fn lemma_not_among(ys: Seq<Seq<char>>, xs: Seq<Seq<char>>, r: Seq<char>)
    ensures
        not_among(ys, xs).contains(r) == (ys.contains(r) && !xs.contains(r)),
    decreases ys.len(),
{
    if ys.len() > 0 {
        let before = ys.drop_last();
        lemma_not_among(before, xs, r);
        assert(ys =~= before.push(ys.last()));
        lemma_push_contains(before, ys.last(), r);
        lemma_push_contains(not_among(before, xs), ys.last(), r);
    }
}

proof fn lemma_push_contains(s: Seq<Seq<char>>, x: Seq<char>, r: Seq<char>)
    ensures
        s.push(x).contains(r) == (s.contains(r) || x == r),
{
    if s.contains(r) {
        let k = choose|k: int| 0 <= k < s.len() && s[k] == r;
        assert(s.push(x)[k] == r);
    }
    if x == r {
        assert(s.push(x)[s.len() as int] == r);
    }
    if s.push(x).contains(r) {
        let k = choose|k: int| 0 <= k < s.push(x).len() && s.push(x)[k] == r;
        if k < s.len() {
            assert(s[k] == r);
        }
    }
}

proof fn lemma_concat_contains(xs: Seq<Seq<char>>, ys: Seq<Seq<char>>, r: Seq<char>)
    ensures
        (xs + ys).contains(r) == (xs.contains(r) || ys.contains(r)),
{
    if xs.contains(r) {
        let k = choose|k: int| 0 <= k < xs.len() && xs[k] == r;
        assert((xs + ys)[k] == r);
    }
    if ys.contains(r) {
        let k = choose|k: int| 0 <= k < ys.len() && ys[k] == r;
        assert((xs + ys)[xs.len() + k] == r);
    }
    if (xs + ys).contains(r) {
        let k = choose|k: int| 0 <= k < (xs + ys).len() && (xs + ys)[k] == r;
        if k < xs.len() {
            assert(xs[k] == r);
        } else {
            assert(ys[k - xs.len()] == r);
        }
    }
}

proof fn lemma_body_after(xs: Seq<Seq<char>>, ys: Seq<Seq<char>>, body: Seq<char>, k: int)
    ensures
        found_in_body(xs + not_among(ys, xs), body, k) == xs + not_among(
            found_in_body(ys, body, k),
            xs,
        ),
    decreases k,
{
    if k > 0 {
        lemma_body_after(xs, ys, body, k - 1);
        let before = found_in_body(ys, body, k - 1);
        let root = checked_roots()[k - 1];
        lemma_not_among(before, xs, root);
        lemma_concat_contains(xs, not_among(before, xs), root);
        assert(before.push(root).drop_last() =~= before);
        assert((xs + not_among(before, xs)).push(root) =~= xs + not_among(before, xs).push(root));
    }
}

proof fn lemma_found_joined(xs: Seq<Seq<char>>, ys: Seq<Seq<char>>)
    ensures
        found_in(xs + ys) == found_in(xs) + not_among(found_in(ys), found_in(xs)),
    decreases ys.len(),
{
    if ys.len() == 0 {
        assert(xs + ys =~= xs);
        assert(found_in(xs) + Seq::<Seq<char>>::empty() =~= found_in(xs));
    } else {
        let before = ys.drop_last();
        lemma_found_joined(xs, before);
        assert((xs + ys).drop_last() =~= xs + before);
        assert((xs + ys).last() == ys.last());
        lemma_body_after(found_in(xs), found_in(before), ys.last(), 3);
    }
}

proof fn lemma_first_is(s: Seq<char>, needle: Seq<char>, at: int)
    requires
        occurs_at(s, needle, at),
        forall|k: int| 0 <= k < at ==> !occurs_at(s, needle, k),
    ensures
        find_from(s, needle, 0) == Some(at),
{
    lemma_find_from(s, needle, 0);
}

/// A pair of characters stands where it does, however the text goes on.
proof fn lemma_pair(s: Seq<char>, needle: Seq<char>, c: char, at: int)
    requires
        needle == seq![c, c],
    ensures
        occurs_at(s, needle, at) == (0 <= at && at + 2 <= s.len() && s[at] == c && s[at + 1] == c),
{
    if 0 <= at && at + 2 <= s.len() {
        let t = s.subrange(at, at + 2);
        assert(t[0] == s[at]);
        assert(t[1] == s[at + 1]);
        if s[at] == c && s[at + 1] == c {
            assert(t =~= needle);
        }
    }
}

proof fn lemma_bodies_behind(p: Seq<char>, b: Seq<char>)
    requires
        forall|k: int| 0 <= k < p.len() ==> !occurs_at(p + b, "{{"@, k),
    ensures
        bodies(p + b) == bodies(b),
{
    reveal_strlit("{{");
    let open = "{{"@;
    assert(open =~= seq!['{', '{']);
    let w = p + b;
    lemma_find_from(b, open, 0);
    lemma_find_from(w, open, 0);
    assert forall|k: int| 0 <= k implies #[trigger] occurs_at(b, open, k) == occurs_at(
        w,
        open,
        p.len() + k,
    ) by {
        lemma_pair(b, open, '{', k);
        lemma_pair(w, open, '{', p.len() + k);
    }
    match find_from(b, open, 0) {
        Some(x) => {
            assert forall|k: int| 0 <= k < p.len() + x implies !occurs_at(w, open, k) by {
                if k >= p.len() {
                    assert(!occurs_at(b, open, k - p.len()));
                }
            }
            assert(occurs_at(b, open, x));
            lemma_first_is(w, open, p.len() + x);
            assert(w.skip(p.len() + x + 2) =~= b.skip(x + 2));
        },
        None => {
            if let Some(y) = find_from(w, open, 0) {
                assert(y >= p.len());
                assert(!occurs_at(b, open, y - p.len()));
            }
        },
    }
}

proof fn lemma_bodies_joined(a: Seq<char>, b: Seq<char>)
    requires
        all_closed(a),
    ensures
        bodies(a + seq![' '] + b) == bodies(a) + bodies(b),
    decreases a.len(),
{
    reveal_strlit("{{");
    reveal_strlit("}}");
    let open = "{{"@;
    let close = "}}"@;
    assert(open =~= seq!['{', '{']);
    assert(close =~= seq!['}', '}']);
    let w = a + seq![' '] + b;
    lemma_find_from(a, open, 0);
    assert forall|k: int| k < a.len() implies #[trigger] occurs_at(w, open, k) == occurs_at(
        a,
        open,
        k,
    ) by {
        lemma_pair(a, open, '{', k);
        lemma_pair(w, open, '{', k);
    }
    match find_from(a, open, 0) {
        None => {
            let p = a + seq![' '];
            assert forall|k: int| 0 <= k < p.len() implies !occurs_at(p + b, open, k) by {
                lemma_pair(p + b, open, '{', k);
                if k < a.len() {
                    assert(!occurs_at(a, open, k));
                }
            }
            lemma_bodies_behind(p, b);
            assert(bodies(a) + bodies(b) =~= bodies(b));
        },
        Some(i) => {
            assert forall|k: int| 0 <= k < i implies !occurs_at(w, open, k) by {
                lemma_pair(a, open, '{', i);
                assert(!occurs_at(a, open, k));
            }
            lemma_pair(a, open, '{', i);
            lemma_first_is(w, open, i);
            let after = a.skip(i + 2);
            let after_w = w.skip(i + 2);
            assert(after_w =~= after + seq![' '] + b);
            let j = choose|j: int| i + 2 <= j && #[trigger] occurs_at(a, close, j);
            lemma_pair(a, close, '}', j);
            lemma_pair(after, close, '}', j - i - 2);
            lemma_find_from(after, close, 0);
            let e = find_from(after, close, 0)->0;
            assert(find_from(after, close, 0) == Some(e));
            lemma_pair(after, close, '}', e);
            lemma_pair(after_w, close, '}', e);
            assert forall|k: int| 0 <= k < e implies !occurs_at(after_w, close, k) by {
                lemma_pair(after, close, '}', k);
                lemma_pair(after_w, close, '}', k);
            }
            lemma_first_is(after_w, close, e);
            assert(after_w.take(e) =~= after.take(e));
            let rest = after.skip(e + 2);
            assert(after_w.skip(e + 2) =~= rest + seq![' '] + b);
            let off = i + 2 + e + 2;
            assert(rest =~= a.skip(off));
            assert forall|k: int| #[trigger] occurs_at(rest, open, k) implies exists|m: int|
                k + 2 <= m && #[trigger] occurs_at(rest, close, m) by {
                lemma_pair(rest, open, '{', k);
                lemma_pair(a, open, '{', k + off);
                assert(occurs_at(a, open, k + off));
                let m = choose|m: int| k + off + 2 <= m && #[trigger] occurs_at(a, close, m);
                lemma_pair(a, close, '}', m);
                lemma_pair(rest, close, '}', m - off);
                assert(occurs_at(rest, close, m - off));
            }
            lemma_bodies_joined(rest, b);
            let head = seq![after.take(e)];
            assert(head + (bodies(rest) + bodies(b)) =~= (head + bodies(rest)) + bodies(b));
        },
    }
}

/// The subscripted roots of two sources joined by a space are those of the first, and after them
/// those of the second that are new, provided that the first closes what it opens.
pub proof fn joined_sources_join_their_roots(a: Seq<char>, b: Seq<char>)
    requires
        all_closed(a),
    ensures
        subscripted(a + " "@ + b) == subscripted(a) + not_among(subscripted(b), subscripted(a)),
{
    reveal_strlit(" ");
    assert(" "@ =~= seq![' ']);
    lemma_bodies_joined(a, b);
    lemma_found_joined(bodies(a), bodies(b));
}

proof fn lemma_body_roots(found: Seq<Seq<char>>, body: Seq<char>, k: int)
    requires
        k <= 3,
        found.no_duplicates(),
        forall|i: int| 0 <= i < found.len() ==> checked_roots().contains(#[trigger] found[i]),
    ensures
        found_in_body(found, body, k).no_duplicates(),
        forall|i: int|
            0 <= i < found_in_body(found, body, k).len() ==> checked_roots().contains(
                #[trigger] found_in_body(found, body, k)[i],
            ),
    decreases k,
{
    if k > 0 {
        lemma_body_roots(found, body, k - 1);
        let before = found_in_body(found, body, k - 1);
        let root = checked_roots()[k - 1];
        assert(checked_roots().contains(root));
        if !before.contains(root) {
            assert(before.push(root).no_duplicates());
        }
    }
}

proof fn lemma_found_roots(bs: Seq<Seq<char>>)
    ensures
        found_in(bs).no_duplicates(),
        forall|i: int|
            0 <= i < found_in(bs).len() ==> checked_roots().contains(#[trigger] found_in(bs)[i]),
    decreases bs.len(),
{
    if bs.len() > 0 {
        lemma_found_roots(bs.drop_last());
        lemma_body_roots(found_in(bs.drop_last()), bs.last(), 3);
    }
}

/// No root is found twice, only the checked roots are found, and none in a source without an
/// expression.
pub proof fn only_checked_roots_are_found(s: Seq<char>)
    ensures
        subscripted(s).no_duplicates(),
        forall|i: int|
            0 <= i < subscripted(s).len() ==> checked_roots().contains(#[trigger] subscripted(s)[i]),
        !contains_text(s, "{{"@) ==> subscripted(s) == Seq::<Seq<char>>::empty(),
{
    lemma_found_roots(bodies(s));
    lemma_find_from(s, "{{"@, 0);
    if !contains_text(s, "{{"@) {
        assert(bodies(s) == Seq::<Seq<char>>::empty());
    }
}

// ---------------------------------------------------------------------------------------------
// Bindings
// ---------------------------------------------------------------------------------------------
/// Whether a character may stand between `{%` and a tag's name.
pub open spec fn tag_padding(c: char) -> bool {
    c == '-' || c == ' ' || c == '\t' || c == '\n' || c == '\r'
}

/// The position of the tag name at or after `i`.
pub open spec fn tag_start(s: Seq<char>, i: int) -> int
    decreases s.len() - i,
{
    if 0 <= i < s.len() && tag_padding(s[i]) {
        tag_start(s, i + 1)
    } else {
        i
    }
}

/// Whether a tag opened at `i` is a `set` or a `for`.
pub open spec fn binding_at(s: Seq<char>, i: int) -> bool {
    let t = tag_start(s, i + 2);
    occurs_at(s, "{%"@, i) && (occurs_at(s, "set "@, t) || occurs_at(s, "for "@, t))
}

/// Whether a source has a `{% set … %}` or `{% for … %}` tag.
pub open spec fn binds(s: Seq<char>) -> bool {
    exists|i: int| binding_at(s, i)
}

/// Whether `source` has a `{% set … %}` or `{% for … %}` tag, which binds a name that the static
/// check cannot follow.
pub fn binds_a_name(source: &str) -> (r: bool)
    ensures
        r == binds(source@),
{
    proof {
        reveal_strlit("{%");
    }
    let s = chars_of(source);
    let open = chars_of("{%");
    let set = chars_of("set ");
    let each = chars_of("for ");
    let mut i: usize = 0;
    while i < s.len()
        invariant
            s@ == source@,
            open@ == "{%"@,
            "{%"@.len() == 2,
            set@ == "set "@,
            each@ == "for "@,
            i <= s.len(),
            forall|k: int| 0 <= k < i ==> !binding_at(s@, k),
        decreases s.len() - i,
    {
        if matches_at(&s, &open, i) {
            let start: usize = i + 2;
            let mut t: usize = start;
            while t < s.len() && (s[t] == '-' || s[t] == ' ' || s[t] == '\t' || s[t] == '\n'
                || s[t] == '\r')
                invariant
                    start <= t <= s.len(),
                    tag_start(s@, t as int) == tag_start(s@, start as int),
                decreases s.len() - t,
            {
                t += 1;
            }
            if matches_at(&s, &set, t) || matches_at(&s, &each, t) {
                assert(binding_at(s@, i as int));
                return true;
            }
        }
        i += 1;
    }
    assert forall|k: int| !binding_at(s@, k) by {}
    false
}

proof fn lemma_mask_plain(a: Seq<char>, rest: Seq<char>)
    requires
        !a.contains('\''),
        !a.contains('"'),
    ensures
        literal_mask(a + rest, None) == Seq::new(a.len(), |i: int| false) + literal_mask(rest, None),
    decreases a.len(),
{
    let s = a + rest;
    if a.len() > 0 {
        assert(a.contains(a[0]));
        let d = a.skip(1);
        assert(!d.contains('\'') && !d.contains('"')) by {
            if d.contains('\'') {
                let k = choose|k: int| 0 <= k < d.len() && d[k] == '\'';
                assert(a[k + 1] == '\'');
            }
            if d.contains('"') {
                let k = choose|k: int| 0 <= k < d.len() && d[k] == '"';
                assert(a[k + 1] == '"');
            }
        }
        lemma_mask_plain(d, rest);
        assert(s.skip(1) =~= d + rest);
        assert(literal_mask(s, None) =~= Seq::new(a.len(), |i: int| false) + literal_mask(
            rest,
            None,
        ));
    } else {
        assert(s =~= rest);
        assert(literal_mask(s, None) =~= Seq::new(a.len(), |i: int| false) + literal_mask(
            rest,
            None,
        ));
    }
}

proof fn lemma_mask_inside(b: Seq<char>, q: char, rest: Seq<char>)
    requires
        !b.contains(q),
        !b.contains('\\'),
    ensures
        literal_mask(b + rest, Some(q)) == Seq::new(b.len(), |i: int| true) + literal_mask(
            rest,
            Some(q),
        ),
    decreases b.len(),
{
    let s = b + rest;
    if b.len() > 0 {
        assert(b.contains(b[0]));
        let d = b.skip(1);
        assert(!d.contains(q) && !d.contains('\\')) by {
            if d.contains(q) {
                let k = choose|k: int| 0 <= k < d.len() && d[k] == q;
                assert(b[k + 1] == q);
            }
            if d.contains('\\') {
                let k = choose|k: int| 0 <= k < d.len() && d[k] == '\\';
                assert(b[k + 1] == '\\');
            }
        }
        lemma_mask_inside(d, q, rest);
        assert(s.skip(1) =~= d + rest);
    } else {
        assert(s =~= rest);
    }
    assert(literal_mask(s, Some(q)) =~= Seq::new(b.len(), |i: int| true) + literal_mask(
        rest,
        Some(q),
    ));
}

/// What stands between two quotes of one kind is literal, the quotes with it, and what stands
/// before and after is as it would be alone. A quote behind a backslash does not end a literal.
pub proof fn what_stands_between_quotes_is_literal(
    a: Seq<char>,
    q: char,
    b: Seq<char>,
    rest: Seq<char>,
    i: int,
)
    requires
        q == '\'' || q == '"',
        !a.contains('\''),
        !a.contains('"'),
        !b.contains(q),
        !b.contains('\\'),
    ensures
        ({
            let mask = literal_mask(a + seq![q] + b + seq![q] + rest, None);
            &&& 0 <= i < a.len() ==> !mask[i]
            &&& a.len() <= i < a.len() + b.len() + 2 ==> mask[i]
            &&& 0 <= i < rest.len() ==> mask[a.len() + b.len() + 2 + i] == literal_mask(rest, None)[i]
        }),
        literal_mask(seq!['\\', q] + rest, Some(q)) == seq![true, true] + literal_mask(
            rest,
            Some(q),
        ),
{
    let tail = seq![q] + rest;
    let inner = b + tail;
    let quoted = seq![q] + inner;
    let s = a + seq![q] + b + seq![q] + rest;
    assert(s =~= a + quoted);
    lemma_mask_plain(a, quoted);
    assert(quoted.skip(1) =~= inner);
    lemma_mask_inside(b, q, tail);
    assert(tail.skip(1) =~= rest);
    lemma_mask_len(rest, None);
    assert(q != '\\');
    assert(literal_mask(tail, Some(q)) == seq![true] + literal_mask(rest, None));
    assert(literal_mask(quoted, None) == seq![true] + literal_mask(inner, Some(q)));
    let e = seq!['\\', q] + rest;
    assert(e.skip(2) =~= rest);
}

proof fn lemma_over_white(s: Seq<char>, i: int, j: int)
    requires
        0 <= i <= j <= s.len(),
        forall|k: int| i <= k < j ==> is_ascii_white(#[trigger] s[k]),
        j < s.len() ==> !is_ascii_white(s[j]),
    ensures
        over_white(s, i) == j,
    decreases j - i,
{
    if i < j {
        lemma_over_white(s, i + 1, j);
    }
}

/// A root that a bracket follows, with or without space between, is a subscript, unless it stands
/// behind a dot and so is only a part of a longer path.
pub proof fn a_bracket_behind_a_root_is_a_subscript(
    p: Seq<char>,
    root: Seq<char>,
    w: Seq<char>,
    rest: Seq<char>,
)
    requires
        !p.contains('\'') && !p.contains('"'),
        !root.contains('\'') && !root.contains('"'),
        root.len() > 0,
        forall|k: int| 0 <= k < w.len() ==> is_ascii_white(#[trigger] w[k]),
        p.len() > 0 ==> !is_ascii_white(p.last()),
    ensures
        p.len() == 0 || (p.last() != '.' && !is_ident_char(p.last())) ==> subscripts(
            p + root + w + seq!['['] + rest,
            root,
        ),
        p.len() > 0 && p.last() == '.' ==> !subscript_at(
            p + root + w + seq!['['] + rest,
            root,
            p.len() as int,
        ),
{
    let s = p + root + w + seq!['['] + rest;
    let at = p.len() as int;
    let j = (p.len() + root.len() + w.len()) as int;
    let head = p + root + w;
    assert forall|k: int| at + root.len() <= k < j implies is_ascii_white(#[trigger] s[k]) by {
        assert(s[k] == w[k - at - root.len()]);
    }
    assert(s[j] == '[');
    lemma_over_white(s, at + root.len(), j);
    assert(s.subrange(at, at + root.len()) =~= root);
    assert(!head.contains('\'') && !head.contains('"')) by {
        assert forall|k: int| 0 <= k < head.len() implies head[k] != '\'' && head[k] != '"' by {
            if k < p.len() {
                assert(p.contains(p[k]));
            } else if k < p.len() + root.len() {
                assert(root.contains(root[k - p.len()]));
            } else {
                assert(is_ascii_white(w[k - p.len() - root.len()]));
            }
        }
    }
    let bracket = seq!['['];
    assert(s =~= head + (bracket + rest));
    lemma_mask_plain(head, bracket + rest);
    assert(!bracket.contains('\'') && !bracket.contains('"'));
    lemma_mask_plain(bracket, rest);
    assert(!literal_mask(s, None)[at]);
    assert(!literal_mask(s, None)[j]);
    if p.len() > 0 {
        assert(s[at - 1] == p.last());
    }
    assert(back_over_white(s, at) == at);
    if p.len() == 0 || (p.last() != '.' && !is_ident_char(p.last())) {
        assert(subscript_at(s, root, at));
    }
}

proof fn lemma_found_in_body(found: Seq<Seq<char>>, body: Seq<char>, k: int, r: Seq<char>)
    requires
        0 <= k <= 3,
    ensures
        found_in_body(found, body, k).contains(r) == (found.contains(r) || (subscripts(body, r)
            && exists|i: int| 0 <= i < k && #[trigger] checked_roots()[i] == r)),
    decreases k,
{
    if k > 0 {
        let before = found_in_body(found, body, k - 1);
        let root = checked_roots()[k - 1];
        lemma_found_in_body(found, body, k - 1, r);
        lemma_push_contains(before, root, r);
        if exists|i: int| 0 <= i < k && #[trigger] checked_roots()[i] == r {
            let i = choose|i: int| 0 <= i < k && #[trigger] checked_roots()[i] == r;
            if i < k - 1 {
                assert(checked_roots()[i] == r);
            }
        }
        if r == root {
            assert(checked_roots()[k - 1] == r);
        }
    }
}

proof fn lemma_found_in(bs: Seq<Seq<char>>, r: Seq<char>)
    ensures
        found_in(bs).contains(r) == (checked_roots().contains(r) && exists|i: int|
            0 <= i < bs.len() && subscripts(#[trigger] bs[i], r)),
    decreases bs.len(),
{
    if bs.len() > 0 {
        let d = bs.drop_last();
        lemma_found_in(d, r);
        lemma_found_in_body(found_in(d), bs.last(), 3, r);
        assert(bs[bs.len() - 1] == bs.last());
        assert forall|i: int| 0 <= i < d.len() implies d[i] == #[trigger] bs[i] by {}
        if checked_roots().contains(r) {
            let i = choose|i: int| 0 <= i < checked_roots().len() && checked_roots()[i] == r;
            assert(checked_roots()[i] == r);
        }
    }
}

/// A root that is checked is found exactly when one of the source's expressions subscripts it, and
/// the roots that are checked are the params, the steps and the artifacts.
pub proof fn a_subscripted_root_is_found(s: Seq<char>, root: Seq<char>)
    ensures
        subscripted(s).contains(root) == ((root == "params"@ || root == "steps"@ || root
            == "artifacts"@) && exists|i: int|
            0 <= i < bodies(s).len() && subscripts(#[trigger] bodies(s)[i], root)),
{
    lemma_found_in(bodies(s), root);
    let c = checked_roots();
    assert(c[0] == "params"@ && c[1] == "steps"@ && c[2] == "artifacts"@);
    if c.contains(root) {
        let i = choose|i: int| 0 <= i < c.len() && c[i] == root;
        assert(i == 0 || i == 1 || i == 2);
    }
}

/// What stands between two pairs of braces is an expression of the source, and the next is looked
/// for behind it.
pub proof fn an_expression_stands_between_braces(a: Seq<char>, b: Seq<char>, rest: Seq<char>)
    requires
        !a.contains('{'),
        !b.contains('}'),
    ensures
        bodies(a + seq!['{', '{'] + b + seq!['}', '}'] + rest) == seq![b] + bodies(rest),
{
    reveal_strlit("{{");
    reveal_strlit("}}");
    let s = a + seq!['{', '{'] + b + seq!['}', '}'] + rest;
    let at = a.len() as int;
    assert("{{"@ =~= seq!['{', '{']);
    assert("}}"@ =~= seq!['}', '}']);
    lemma_pair(s, "{{"@, '{', at);
    assert forall|k: int| 0 <= k < at implies !occurs_at(s, "{{"@, k) by {
        lemma_pair(s, "{{"@, '{', k);
        assert(s[k] == a[k]);
        assert(a.contains(a[k]));
    }
    lemma_first_is(s, "{{"@, at);
    let after = s.skip(at + 2);
    let e = b.len() as int;
    assert(after =~= b + seq!['}', '}'] + rest);
    lemma_pair(after, "}}"@, '}', e);
    assert forall|k: int| 0 <= k < e implies !occurs_at(after, "}}"@, k) by {
        lemma_pair(after, "}}"@, '}', k);
        assert(after[k] == b[k]);
        assert(b.contains(b[k]));
    }
    lemma_first_is(after, "}}"@, e);
    assert(after.take(e) =~= b);
    assert(after.skip(e + 2) =~= rest);
}

proof fn lemma_tag_start(s: Seq<char>, i: int, j: int)
    requires
        0 <= i <= j < s.len(),
        forall|k: int| i <= k < j ==> tag_padding(#[trigger] s[k]),
        !tag_padding(s[j]),
    ensures
        tag_start(s, i) == j,
    decreases j - i,
{
    if i < j {
        lemma_tag_start(s, i + 1, j);
    }
}

/// A source binds a name when one of its tags begins with `set` or `for`, whatever dashes and
/// space stand before; one without tags binds none.
pub proof fn a_set_or_a_for_binds_a_name(a: Seq<char>, pad: Seq<char>, rest: Seq<char>)
    requires
        forall|k: int|
            0 <= k < pad.len() ==> (#[trigger] pad[k] == ' ' || pad[k] == '-' || pad[k] == '\t'
                || pad[k] == '\n' || pad[k] == '\r'),
    ensures
        binds(a + "{%"@ + pad + "set "@ + rest),
        binds(a + "{%"@ + pad + "for "@ + rest),
        !contains_text(a, "{%"@) ==> !binds(a),
{
    reveal_strlit("{%");
    reveal_strlit("set ");
    reveal_strlit("for ");
    lemma_binds_with(a, pad, "set "@, rest);
    lemma_binds_with(a, pad, "for "@, rest);
}

proof fn lemma_binds_with(a: Seq<char>, pad: Seq<char>, w: Seq<char>, rest: Seq<char>)
    requires
        forall|k: int| 0 <= k < pad.len() ==> tag_padding(#[trigger] pad[k]),
        w.len() > 0,
        !tag_padding(w[0]),
        w == "set "@ || w == "for "@,
    ensures
        binds(a + "{%"@ + pad + w + rest),
{
    reveal_strlit("{%");
    let s = a + "{%"@ + pad + w + rest;
    let i = a.len() as int;
    let t = i + 2 + pad.len();
    assert forall|k: int| i + 2 <= k < t implies tag_padding(#[trigger] s[k]) by {
        assert(s[k] == pad[k - i - 2]);
    }
    assert(s[t] == w[0]);
    lemma_tag_start(s, i + 2, t);
    assert(s.subrange(i, i + 2) =~= "{%"@);
    assert(s.subrange(t, t + w.len()) =~= w);
    assert(occurs_at(s, w, t));
    assert(binding_at(s, i));
}

} // verus!
