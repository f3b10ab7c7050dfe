//! Where a judge's output holds its score.
//!
//! A judge is asked for a JSON object with a `score`, but may wrap it in prose, in other objects
//! or in arrays. The texts that may be the score are found here, in the order in which they are to
//! be tried; the first of them that is a number is the score.

use crate::json::{json_parsed, member, parse_json, Value, ValueView};
use crate::text::{chars_of, texts, trim, trimmed};
use vstd::prelude::*;

verus! {

/// How deep a JSON document is searched: no document that parses is deeper.
pub const MAX_DEPTH: u32 = 128;

/// The text of a value that may be a score: a number, or a string without the space around it.
pub open spec fn score_text(v: Option<ValueView>) -> Seq<Seq<char>> {
    match v {
        Some(ValueView::Number(n)) => seq![n],
        Some(ValueView::String(s)) => seq![trimmed(s)],
        _ => Seq::empty(),
    }
}

/// The text of a value that may be a score.
pub fn score_of(v: &Option<Value>) -> (r: Option<String>)
    ensures
        score_text(crate::names::opt_view(*v)) == (match r {
            Some(t) => seq![t@],
            None => Seq::empty(),
        }),
{
    match v {
        Some(Value::Number(n)) => Some(n.clone()),
        Some(Value::String(s)) => Some(trim(s)),
        _ => None,
    }
}

/// What may be the score of an object: its member `score`.
pub open spec fn own_scores(v: ValueView) -> Seq<Seq<char>> {
    match v {
        ValueView::Object(m) => match member(m, "score"@) {
            Some(t) => score_text(json_parsed(t)),
            None => Seq::empty(),
        },
        _ => Seq::empty(),
    }
}

/// What may be the score in a JSON document, down to a depth: an object's own first, then what
/// its members hold, in their order; of an array, what its items hold, in their order.
pub open spec fn scores_in(text: Seq<char>, depth: nat) -> Seq<Seq<char>>
    decreases depth, 0nat,
{
    if depth == 0 {
        Seq::empty()
    } else {
        match json_parsed(text) {
            Some(ValueView::Object(m)) => own_scores(ValueView::Object(m)) + scores_of_members(
                m,
                m.len(),
                (depth - 1) as nat,
            ),
            Some(ValueView::Array(a)) => scores_of_items(a, a.len(), (depth - 1) as nat),
            _ => Seq::empty(),
        }
    }
}

/// What may be the score in the first `k` items of an array.
pub open spec fn scores_of_items(a: Seq<Seq<char>>, k: nat, depth: nat) -> Seq<Seq<char>>
    decreases depth, k + 1,
{
    if k == 0 || k > a.len() {
        Seq::empty()
    } else {
        scores_of_items(a, (k - 1) as nat, depth) + scores_in(a[k - 1], depth)
    }
}

/// What may be the score in the first `k` members of an object.
pub open spec fn scores_of_members(
    m: Seq<(Seq<char>, Seq<char>)>,
    k: nat,
    depth: nat,
) -> Seq<Seq<char>>
    decreases depth, k + 1,
{
    if k == 0 || k > m.len() {
        Seq::empty()
    } else {
        scores_of_members(m, (k - 1) as nat, depth) + scores_in(m[k - 1].1, depth)
    }
}

/// The position of the brace that closes what is open at `i`, with `depth` braces open before it.
pub open spec fn closing_brace(s: Seq<char>, i: int, depth: nat) -> Option<int>
    decreases s.len() - i,
{
    if i < 0 || i >= s.len() {
        None
    } else if s[i] == '{' {
        closing_brace(s, i + 1, depth + 1)
    } else if s[i] == '}' && depth <= 1 {
        Some(i)
    } else if s[i] == '}' {
        closing_brace(s, i + 1, (depth - 1) as nat)
    } else {
        closing_brace(s, i + 1, depth)
    }
}

/// What may be the score in the object that the brace at `i` opens.
pub open spec fn scores_at(s: Seq<char>, i: int) -> Seq<Seq<char>> {
    if s[i] != '{' {
        Seq::empty()
    } else {
        match closing_brace(s, i, 0) {
            Some(e) => scores_in(s.subrange(i, e + 1), MAX_DEPTH as nat),
            None => Seq::empty(),
        }
    }
}

/// What may be the score in the objects that open before position `k`.
pub open spec fn scores_before(s: Seq<char>, k: nat) -> Seq<Seq<char>>
    decreases k,
{
    if k == 0 || k > s.len() {
        Seq::empty()
    } else {
        scores_before(s, (k - 1) as nat) + scores_at(s, k - 1)
    }
}

/// What may be the score in a judge's output: in the whole of it, then in each object that opens
/// anywhere in it.
pub open spec fn score_texts(output: Seq<char>) -> Seq<Seq<char>> {
    scores_in(trimmed(output), MAX_DEPTH as nat) + scores_before(output, output.len())
}

fn push_scores(out: &mut Vec<String>, text: &str, depth: u32)
    ensures
        texts(final(out)@) == texts(old(out)@) + scores_in(text@, depth as nat),
    decreases depth,
{
    let ghost start = texts(out@);
    assert(start + Seq::<Seq<char>>::empty() =~= start);
    if depth == 0 {
        return;
    }
    let v = match parse_json(text) {
        Some(v) => v,
        None => {
            return;
        },
    };
    if let Value::Array(a) = &v {
        let ghost av = texts(a@);
        let mut i: usize = 0;
        assert(start + scores_of_items(av, 0, (depth - 1) as nat) =~= start);
        while i < a.len()
            invariant
                i <= a.len(),
                depth > 0,
                av == texts(a@),
                texts(out@) == start + scores_of_items(av, i as nat, (depth - 1) as nat),
            decreases a.len() - i,
        {
            assert(av[i as int] == a@[i as int]@);
            push_scores(out, &a[i], depth - 1);
            assert(texts(out@) =~= start + scores_of_items(
                av,
                (i + 1) as nat,
                (depth - 1) as nat,
            ));
            i += 1;
        }
        return;
    }
    let own = match v.get("score") {
        Some(t) => {
            let x = parse_json(t);
            score_of(&x)
        },
        None => None,
    };
    if let Value::Object(m) = &v {
        let ghost mv = crate::json::members_view(m@);
        assert(v@ == ValueView::Object(mv));
        if let Some(t) = own {
            let ghost tv = t@;
            out.push(t);
            assert(texts(out@) =~= start + seq![tv]);
        }
        let ghost a = texts(out@);
        assert(a =~= start + own_scores(v@));
        let mut i: usize = 0;
        assert(a + scores_of_members(mv, 0, (depth - 1) as nat) =~= a);
        while i < m.len()
            invariant
                i <= m.len(),
                depth > 0,
                mv == crate::json::members_view(m@),
                texts(out@) == a + scores_of_members(mv, i as nat, (depth - 1) as nat),
            decreases m.len() - i,
        {
            assert(mv[i as int].1 == m@[i as int].1@);
            push_scores(out, &m[i].1, depth - 1);
            assert(texts(out@) =~= a + scores_of_members(mv, (i + 1) as nat, (depth - 1) as nat));
            i += 1;
        }
        assert(texts(out@) =~= start + scores_in(text@, depth as nat));
    }
}

fn find_closing(v: &Vec<char>, from: usize) -> (r: Option<usize>)
    requires
        from <= v@.len(),
    ensures
        match r {
            Some(e) => closing_brace(v@, from as int, 0) == Some(e as int) && from <= e < v@.len(),
            None => closing_brace(v@, from as int, 0) is None,
        },
{
    let mut depth: usize = 0;
    let mut i: usize = from;
    while i < v.len()
        invariant
            from <= i <= v.len(),
            depth <= i - from,
            closing_brace(v@, from as int, 0) == closing_brace(v@, i as int, depth as nat),
        decreases v.len() - i,
    {
        if v[i] == '{' {
            depth += 1;
        } else if v[i] == '}' {
            if depth <= 1 {
                return Some(i);
            }
            depth -= 1;
        }
        i += 1;
    }
    None
}

/// The texts that may be the score in a judge's output, in the order in which they are to be
/// tried.
pub fn score_candidates(output: &str) -> (r: Vec<String>)
    ensures
        texts(r@) == score_texts(output@),
{
    let mut out: Vec<String> = Vec::new();
    assert(texts(out@) =~= Seq::<Seq<char>>::empty());
    let whole = trim(output);
    push_scores(&mut out, &whole, MAX_DEPTH);
    let v = chars_of(output);
    let ghost a = texts(out@);
    assert(a =~= scores_in(trimmed(output@), MAX_DEPTH as nat));
    let mut i: usize = 0;
    assert(a + scores_before(v@, 0) =~= a);
    while i < v.len()
        invariant
            i <= v.len(),
            texts(out@) == a + scores_before(v@, i as nat),
        decreases v.len() - i,
    {
        if v[i] == '{' {
            if let Some(e) = find_closing(&v, i) {
                let piece = crate::text::text_range(&v, i, e + 1);
                push_scores(&mut out, &piece, MAX_DEPTH);
            }
        }
        assert(texts(out@) =~= a + scores_before(v@, (i + 1) as nat));
        i += 1;
    }
    out
}

// ---------------------------------------------------------------------------------------------
// Laws
// ---------------------------------------------------------------------------------------------
/// Whether as many braces close as open in the piece of a text from `i` to `e`, both included.
pub open spec fn balanced(s: Seq<char>, i: int, e: int) -> bool {
    let piece = s.subrange(i, e + 1).to_multiset();
    piece.count('{') == piece.count('}')
}

proof fn lemma_one_more(s: Seq<char>, i: int, k: int, c: char)
    requires
        0 <= i <= k < s.len(),
    ensures
        s.subrange(i, k + 1).to_multiset().count(c) == s.subrange(i, k).to_multiset().count(c) + (
        if s[k] == c {
            1nat
        } else {
            0nat
        }),
{
    broadcast use vstd::seq_lib::group_to_multiset_ensures;

    assert(s.subrange(i, k + 1) =~= s.subrange(i, k).push(s[k]));
}

proof fn lemma_closing(s: Seq<char>, i: int, k: int, depth: nat)
    requires
        0 <= i < k <= s.len(),
        s[i] == '{',
        s.subrange(i, k).to_multiset().count('{') == s.subrange(i, k).to_multiset().count('}')
            + depth,
        depth > 0,
        forall|e: int| i <= e < k ==> !#[trigger] balanced(s, i, e),
    ensures
        match closing_brace(s, k, depth) {
            Some(e) => k <= e < s.len() && balanced(s, i, e) && forall|d: int|
                i <= d < e ==> !#[trigger] balanced(s, i, d),
            None => forall|d: int| i <= d < s.len() ==> !#[trigger] balanced(s, i, d),
        },
    decreases s.len() - k,
{
    if k < s.len() {
        lemma_one_more(s, i, k, '{');
        lemma_one_more(s, i, k, '}');
        if s[k] == '{' {
            lemma_closing(s, i, k + 1, depth + 1);
        } else if s[k] == '}' && depth <= 1 {
            assert(balanced(s, i, k));
        } else if s[k] == '}' {
            lemma_closing(s, i, k + 1, (depth - 1) as nat);
        } else {
            lemma_closing(s, i, k + 1, depth);
        }
    }
}

/// The object that a brace opens ends at the first position at which as many braces have closed
/// as have opened since; where they never even out, no object is taken.
pub proof fn an_object_ends_where_its_braces_even_out(s: Seq<char>, i: int)
    requires
        0 <= i < s.len(),
        s[i] == '{',
    ensures
        match closing_brace(s, i, 0) {
            Some(e) => i <= e < s.len() && balanced(s, i, e) && forall|d: int|
                i <= d < e ==> !#[trigger] balanced(s, i, d),
            None => forall|d: int| i <= d < s.len() ==> !#[trigger] balanced(s, i, d),
        },
{
    broadcast use vstd::seq_lib::group_to_multiset_ensures;

    assert(s.subrange(i, i) =~= Seq::<char>::empty());
    lemma_one_more(s, i, i, '{');
    lemma_one_more(s, i, i, '}');
    lemma_closing(s, i, i + 1, 1);
}

proof fn lemma_found_before(s: Seq<char>, k: nat, i: int, t: Seq<char>)
    requires
        0 <= i < k <= s.len(),
        scores_at(s, i).contains(t),
    ensures
        scores_before(s, k).contains(t),
    decreases k,
{
    let before = scores_before(s, (k - 1) as nat);
    let last = scores_at(s, k - 1);
    if i < k - 1 {
        lemma_found_before(s, (k - 1) as nat, i, t);
        let j = choose|j: int| 0 <= j < before.len() && before[j] == t;
        assert((before + last)[j] == t);
    } else {
        let j = choose|j: int| 0 <= j < last.len() && last[j] == t;
        assert((before + last)[before.len() + j] == t);
    }
}

/// Whether a text is one object by its braces: it opens with a brace, and its braces even out at
/// its end and not before.
pub open spec fn is_one_object(obj: Seq<char>) -> bool {
    &&& obj.len() > 0
    &&& obj[0] == '{'
    &&& balanced(obj, 0, obj.len() - 1)
    &&& forall|d: int| 0 <= d < obj.len() - 1 ==> !#[trigger] balanced(obj, 0, d)
}

proof fn lemma_piece(pre: Seq<char>, obj: Seq<char>, post: Seq<char>)
    requires
        is_one_object(obj),
    ensures
        ({
            let s = pre + obj + post;
            let i = pre.len() as int;
            &&& closing_brace(s, i, 0) == Some(i + obj.len() - 1)
            &&& s[i] == '{'
            &&& s.subrange(i, i + obj.len()) == obj
        }),
{
    let s = pre + obj + post;
    let i = pre.len() as int;
    let n = obj.len() as int;
    assert(s[i] == obj[0]);
    assert forall|d: int| i <= d < i + n implies #[trigger] balanced(s, i, d) == balanced(
        obj,
        0,
        d - i,
    ) by {
        assert(s.subrange(i, d + 1) =~= obj.subrange(0, d - i + 1));
    }
    an_object_ends_where_its_braces_even_out(s, i);
    assert(balanced(s, i, i + n - 1));
    if let Some(e) = closing_brace(s, i, 0) {
        if e < i + n - 1 {
            assert(balanced(obj, 0, e - i));
        }
    }
    assert(s.subrange(i, i + n) =~= obj);
}

/// Whatever may be the score in an object may be the score of an output that holds the object,
/// with any text before it and after it.
pub proof fn an_object_is_found_in_prose(
    pre: Seq<char>,
    obj: Seq<char>,
    post: Seq<char>,
    t: Seq<char>,
)
    requires
        is_one_object(obj),
        scores_in(obj, MAX_DEPTH as nat).contains(t),
    ensures
        score_texts(pre + obj + post).contains(t),
{
    let s = pre + obj + post;
    lemma_piece(pre, obj, post);
    lemma_found_before(s, s.len(), pre.len() as int, t);
    let whole = scores_in(trimmed(s), MAX_DEPTH as nat);
    let rest = scores_before(s, s.len());
    let j = choose|j: int| 0 <= j < rest.len() && rest[j] == t;
    assert((whole + rest)[whole.len() + j] == t);
}

proof fn lemma_nothing_before(s: Seq<char>, k: nat)
    requires
        k <= s.len(),
        forall|i: int| 0 <= i < k ==> s[i] != '{',
    ensures
        scores_before(s, k) == Seq::<Seq<char>>::empty(),
    decreases k,
{
    if k > 0 {
        lemma_nothing_before(s, (k - 1) as nat);
    }
}

proof fn lemma_before_is_prefix(s: Seq<char>, k: nat, n: nat)
    requires
        k <= n <= s.len(),
    ensures
        scores_before(s, k).is_prefix_of(scores_before(s, n)),
    decreases n,
{
    if k < n {
        lemma_before_is_prefix(s, k, (n - 1) as nat);
    }
}

/// When the output as a whole is no JSON document and holds no brace before an object, what may be
/// the score in that object is tried before anything else.
pub proof fn the_first_object_is_tried_first(pre: Seq<char>, obj: Seq<char>, post: Seq<char>)
    requires
        is_one_object(obj),
        forall|i: int| 0 <= i < pre.len() ==> pre[i] != '{',
        json_parsed(trimmed(pre + obj + post)) is None,
    ensures
        scores_in(obj, MAX_DEPTH as nat).is_prefix_of(score_texts(pre + obj + post)),
{
    let s = pre + obj + post;
    let k = pre.len();
    lemma_piece(pre, obj, post);
    assert forall|i: int| 0 <= i < k implies s[i] != '{' by {
        assert(s[i] == pre[i]);
    }
    lemma_nothing_before(s, k);
    lemma_before_is_prefix(s, k + 1, s.len());
    let found = scores_in(obj, MAX_DEPTH as nat);
    assert(scores_before(s, k + 1) =~= found);
    assert(score_texts(s) =~= scores_before(s, s.len()));
}

/// An object's own score, a number or the text of one, is the first that may be its score.
pub proof fn an_objects_own_score_comes_first(
    text: Seq<char>,
    members: Seq<(Seq<char>, Seq<char>)>,
    value: Seq<char>,
    depth: nat,
)
    requires
        depth > 0,
        json_parsed(text) == Some(ValueView::Object(members)),
        member(members, "score"@) == Some(value),
    ensures
        json_parsed(value) matches Some(ValueView::Number(n)) ==> scores_in(text, depth).len() > 0
            && scores_in(text, depth)[0] == n,
        json_parsed(value) matches Some(ValueView::String(x)) ==> scores_in(text, depth).len() > 0
            && scores_in(text, depth)[0] == trimmed(x),
{
}

proof fn lemma_in_members(m: Seq<(Seq<char>, Seq<char>)>, k: nat, depth: nat, i: int, t: Seq<char>)
    requires
        0 <= i < k <= m.len(),
        scores_in(m[i].1, depth).contains(t),
    ensures
        scores_of_members(m, k, depth).contains(t),
    decreases k,
{
    let before = scores_of_members(m, (k - 1) as nat, depth);
    let last = scores_in(m[k - 1].1, depth);
    if i < k - 1 {
        lemma_in_members(m, (k - 1) as nat, depth, i, t);
        let j = choose|j: int| 0 <= j < before.len() && before[j] == t;
        assert((before + last)[j] == t);
    } else {
        let j = choose|j: int| 0 <= j < last.len() && last[j] == t;
        assert((before + last)[before.len() + j] == t);
    }
}

proof fn lemma_in_items(a: Seq<Seq<char>>, k: nat, depth: nat, i: int, t: Seq<char>)
    requires
        0 <= i < k <= a.len(),
        scores_in(a[i], depth).contains(t),
    ensures
        scores_of_items(a, k, depth).contains(t),
    decreases k,
{
    let before = scores_of_items(a, (k - 1) as nat, depth);
    let last = scores_in(a[k - 1], depth);
    if i < k - 1 {
        lemma_in_items(a, (k - 1) as nat, depth, i, t);
        let j = choose|j: int| 0 <= j < before.len() && before[j] == t;
        assert((before + last)[j] == t);
    } else {
        let j = choose|j: int| 0 <= j < last.len() && last[j] == t;
        assert((before + last)[before.len() + j] == t);
    }
}

/// What may be the score in a member of an object, or in an item of an array, may be the score of
/// the whole.
pub proof fn a_nested_score_is_found(text: Seq<char>, depth: nat, i: int, t: Seq<char>)
    requires
        depth > 0,
    ensures
        json_parsed(text) matches Some(ValueView::Object(m)) ==> (0 <= i < m.len() && scores_in(
            m[i].1,
            (depth - 1) as nat,
        ).contains(t) ==> scores_in(text, depth).contains(t)),
        json_parsed(text) matches Some(ValueView::Array(a)) ==> (0 <= i < a.len() && scores_in(
            a[i],
            (depth - 1) as nat,
        ).contains(t) ==> scores_in(text, depth).contains(t)),
{
    let d = (depth - 1) as nat;
    match json_parsed(text) {
        Some(ValueView::Object(m)) => {
            if 0 <= i < m.len() && scores_in(m[i].1, d).contains(t) {
                lemma_in_members(m, m.len(), d, i, t);
                let own = own_scores(ValueView::Object(m));
                let rest = scores_of_members(m, m.len(), d);
                let j = choose|j: int| 0 <= j < rest.len() && rest[j] == t;
                assert((own + rest)[own.len() + j] == t);
            }
        },
        Some(ValueView::Array(a)) => {
            if 0 <= i < a.len() && scores_in(a[i], d).contains(t) {
                lemma_in_items(a, a.len(), d, i, t);
            }
        },
        _ => {},
    }
}

} // verus!
