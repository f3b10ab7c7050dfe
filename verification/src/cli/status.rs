//! What `status` prints: counts by status, and a row for each run.

use crate::names::views;
use crate::text::{
    chars_of, concat2, concat3, concat5, decimal, decimal_of, drop_slashes, join, joined, pad_left,
    pad_right, padded_left, padded_right, text_eq, text_range, texts, trim, trimmed,
    without_slashes,
};
use crate::time::{moment_named, Timestamp};
use crate::view::{ListedRun, ListedStep, RunView, StepView};
use vstd::prelude::*;

verus! {

/// The word for a status in a row.
pub open spec fn label_of(status: Seq<char>) -> Seq<char> {
    if status == "awaiting_approval"@ {
        "awaiting"@
    } else if status == "running"@ {
        "running"@
    } else if status == "pending"@ {
        "pending"@
    } else if status == "failed"@ {
        "failed"@
    } else if status == "cancelled"@ {
        "cancelled"@
    } else if status == "succeeded"@ {
        "succeeded"@
    } else {
        "unknown"@
    }
}

/// The word for a status in a row, at most nine characters long.
pub fn row_label(status: &str) -> (r: &'static str)
    ensures
        r@ == label_of(status@),
{
    if text_eq(status, "awaiting_approval") {
        "awaiting"
    } else if text_eq(status, "running") {
        "running"
    } else if text_eq(status, "pending") {
        "pending"
    } else if text_eq(status, "failed") {
        "failed"
    } else if text_eq(status, "cancelled") {
        "cancelled"
    } else if text_eq(status, "succeeded") {
        "succeeded"
    } else {
        "unknown"
    }
}

/// The mark of a status.
pub open spec fn mark_of(status: Seq<char>) -> Seq<char> {
    if status == "succeeded"@ {
        "✓"@
    } else if status == "failed"@ || status == "cancelled"@ {
        "✗"@
    } else if status == "running"@ {
        "▸"@
    } else if status == "awaiting_approval"@ {
        "⏸"@
    } else {
        "·"@
    }
}

/// The mark of a status.
pub fn glyph(status: &str) -> (r: &'static str)
    ensures
        r@ == mark_of(status@),
{
    if text_eq(status, "succeeded") {
        "✓"
    } else if text_eq(status, "failed") || text_eq(status, "cancelled") {
        "✗"
    } else if text_eq(status, "running") {
        "▸"
    } else if text_eq(status, "awaiting_approval") {
        "⏸"
    } else {
        "·"
    }
}

/// An age in its largest whole unit.
pub open spec fn age_text(secs: nat) -> Seq<char> {
    if secs < 60 {
        decimal(secs) + "s"@
    } else if secs < 3600 {
        decimal(secs / 60) + "m"@
    } else if secs < 86_400 {
        decimal(secs / 3600) + "h"@
    } else {
        decimal(secs / 86_400) + "d"@
    }
}

/// An age in its largest whole unit: `12s`, `3m`, `5h` or `2d`.
pub fn age(secs: u128) -> (r: String)
    ensures
        r@ == age_text(secs as nat),
{
    let (n, unit) = if secs < 60 {
        (secs, "s")
    } else if secs < 3600 {
        (secs / 60, "m")
    } else if secs < 86_400 {
        (secs / 3600, "h")
    } else {
        (secs / 86_400, "d")
    };
    let d = decimal_of(n);
    concat2(&d, unit)
}

/// The whole seconds since a moment: none when it lies ahead.
pub open spec fn seconds_since(then: Timestamp, now: Timestamp) -> nat {
    if now.total() <= then.total() {
        0
    } else {
        ((now.total() - then.total()) / 1_000_000_000) as nat
    }
}

/// How long ago a moment was; `?` when there is none.
pub open spec fn ago_text(then: Option<Timestamp>, now: Timestamp) -> Seq<char> {
    match then {
        Some(t) => age_text(seconds_since(t, now)),
        None => "?"@,
    }
}

/// How long ago a moment was; `?` when there is none.
pub fn since(then: Option<Timestamp>, now: Timestamp) -> (r: String)
    ensures
        r@ == ago_text(then, now),
{
    match then {
        None => "?".to_owned(),
        Some(t) => {
            let at = t.total_nanos();
            let end = now.total_nanos();
            if end <= at {
                return age(0);
            }
            age((end - at) as u128 / 1_000_000_000)
        },
    }
}

/// How long ago a moment in RFC 3339 form was; `?` when the text is no such moment.
pub fn ago(rfc3339: &str, now: Timestamp) -> (r: String)
    ensures
        r@ == ago_text(moment_named(rfc3339@), now),
{
    since(Timestamp::from_rfc3339(rfc3339), now)
}

/// A text cut to a width, an ellipsis in place of what is cut.
pub open spec fn cut_text(s: Seq<char>, max: nat) -> Seq<char> {
    if s.len() <= max {
        s
    } else {
        s.take(
            if max > 0 {
                max - 1
            } else {
                0
            },
        ) + "…"@
    }
}

/// A text cut to a width, an ellipsis in place of what is cut.
pub fn truncate(s: &str, max: usize) -> (r: String)
    ensures
        r@ == cut_text(s@, max as nat),
{
    let v = chars_of(s);
    if v.len() <= max {
        return s.to_owned();
    }
    let keep: usize = if max > 0 {
        max - 1
    } else {
        0
    };
    let head = text_range(&v, 0, keep);
    assert(v@.subrange(0, keep as int) =~= s@.take(keep as int));
    concat2(&head, "…")
}

/// How many runs have a status.
pub open spec fn runs_with(vs: Seq<ListedRun>, status: Seq<char>) -> nat
    decreases vs.len(),
{
    if vs.len() == 0 {
        0
    } else {
        runs_with(vs.drop_last(), status) + (if vs.last().status == status {
            1nat
        } else {
            0
        })
    }
}

/// How many steps have a status.
pub open spec fn steps_with(ss: Seq<ListedStep>, status: Seq<char>) -> nat
    decreases ss.len(),
{
    if ss.len() == 0 {
        0
    } else {
        steps_with(ss.drop_last(), status) + (if ss.last().status == status {
            1nat
        } else {
            0
        })
    }
}

fn count_runs(vs: &Vec<RunView>, status: &str) -> (r: usize)
    ensures
        r == runs_with(views(vs@), status@),
{
    let ghost all = views(vs@);
    let mut n: usize = 0;
    let mut i: usize = 0;
    while i < vs.len()
        invariant
            i <= vs.len(),
            n <= i,
            all == views(vs@),
            n == runs_with(all.take(i as int), status@),
        decreases vs.len() - i,
    {
        assert(all.take(i + 1).drop_last() =~= all.take(i as int));
        assert(all[i as int] == vs@[i as int]@);
        if text_eq(&vs[i].status, status) {
            n += 1;
        }
        i += 1;
    }
    assert(all.take(i as int) =~= all);
    n
}

fn count_steps(ss: &Vec<StepView>, status: &str) -> (r: usize)
    ensures
        r == steps_with(views(ss@), status@),
{
    let ghost all = views(ss@);
    let mut n: usize = 0;
    let mut i: usize = 0;
    while i < ss.len()
        invariant
            i <= ss.len(),
            n <= i,
            all == views(ss@),
            n == steps_with(all.take(i as int), status@),
        decreases ss.len() - i,
    {
        assert(all.take(i + 1).drop_last() =~= all.take(i as int));
        assert(all[i as int] == ss@[i as int]@);
        if text_eq(&ss[i].status, status) {
            n += 1;
        }
        i += 1;
    }
    assert(all.take(i as int) =~= all);
    n
}

/// The count of a status in the header; nothing when no run has it.
pub open spec fn header_part(vs: Seq<ListedRun>, status: Seq<char>, words: Seq<char>) -> Seq<
    Seq<char>,
> {
    if runs_with(vs, status) > 0 {
        seq![decimal(runs_with(vs, status)) + " "@ + words]
    } else {
        Seq::empty()
    }
}

/// The counts of the header, by status.
pub open spec fn header_parts(vs: Seq<ListedRun>) -> Seq<Seq<char>> {
    header_part(vs, "running"@, "running"@) + header_part(
        vs,
        "awaiting_approval"@,
        "awaiting approval"@,
    ) + header_part(vs, "pending"@, "pending"@) + header_part(vs, "succeeded"@, "succeeded"@)
        + header_part(vs, "failed"@, "failed"@) + header_part(vs, "cancelled"@, "cancelled"@)
}

fn push_part(out: &mut Vec<String>, vs: &Vec<RunView>, status: &str, words: &str)
    ensures
        texts(final(out)@) == texts(old(out)@) + header_part(views(vs@), status@, words@),
{
    let ghost was = texts(out@);
    let n = count_runs(vs, status);
    if n > 0 {
        let d = decimal_of(n as u128);
        let x = concat3(&d, " ", words);
        let ghost xv = x@;
        out.push(x);
        assert(texts(out@) =~= was + seq![xv]);
    }
    assert(texts(out@) =~= was + header_part(views(vs@), status@, words@));
}

/// The row of a run.
pub open spec fn row_text(v: ListedRun, now: Timestamp) -> Seq<char> {
    let row = mark_of(v.status) + " "@ + padded_right(label_of(v.status), 9) + " "@ + padded_right(
        if v.run_id.len() <= 8 {
            v.run_id
        } else {
            v.run_id.take(8)
        },
        8,
    ) + " "@ + padded_right(cut_text(v.workflow, 20), 20) + " "@ + padded_left(
        decimal(steps_with(v.steps, "passed"@)),
        2,
    ) + "/"@ + padded_right(decimal(v.steps.len()), 2) + " "@ + padded_left(
        ago_text(moment_named(v.updated_at), now),
        4,
    );
    match v.gate {
        Some(g) => match g.message {
            Some(m) => row + "  ↳ "@ + m,
            None => row,
        },
        None => row,
    }
}

/// The row of a run.
pub fn row(v: &RunView, now: Timestamp) -> (r: String)
    ensures
        r@ == row_text(v@, now),
{
    let passed = decimal_of(count_steps(&v.steps, "passed") as u128);
    let total = decimal_of(v.steps.len() as u128);
    assert(v@.steps.len() == v.steps@.len());
    let id = chars_of(&v.run_id);
    let short = if id.len() <= 8 {
        v.run_id.clone()
    } else {
        assert(id@.subrange(0, 8) =~= v.run_id@.take(8));
        text_range(&id, 0, 8)
    };
    let label = pad_right(row_label(&v.status), 9);
    let short = pad_right(&short, 8);
    let name = truncate(&v.workflow, 20);
    let name = pad_right(&name, 20);
    let passed = pad_left(&passed, 2);
    let total = pad_right(&total, 2);
    let when = ago(&v.updated_at, now);
    let when = pad_left(&when, 4);
    let a = concat5(glyph(&v.status), " ", &label, " ", &short);
    let b = concat5(&a, " ", &name, " ", &passed);
    let c = concat5(&b, "/", &total, " ", &when);
    assert(c@ =~= row_text(
        ListedRun { gate: None, ..v@ },
        now,
    ));
    match &v.gate {
        Some(g) => match &g.message {
            Some(m) => concat3(&c, "  ↳ ", m),
            None => c,
        },
        None => c,
    }
}

/// The lines of the view: the counts, an empty line, and a row for each run.
pub open spec fn status_text(vs: Seq<ListedRun>, now: Timestamp) -> Seq<Seq<char>> {
    if vs.len() == 0 {
        seq!["no runs yet"@]
    } else {
        seq![joined(header_parts(vs), "  ·  "@), Seq::empty()] + Seq::new(
            vs.len(),
            |i: int| row_text(vs[i], now),
        )
    }
}

/// The lines of the view.
pub fn render(vs: &Vec<RunView>, now: Timestamp) -> (r: Vec<String>)
    ensures
        texts(r@) == status_text(views(vs@), now),
{
    let ghost all = views(vs@);
    let ghost want = status_text(all, now);
    let mut out: Vec<String> = Vec::new();
    if vs.len() == 0 {
        out.push("no runs yet".to_owned());
        assert(texts(out@) =~= want);
        return out;
    }
    let mut parts: Vec<String> = Vec::new();
    assert(texts(parts@) =~= Seq::<Seq<char>>::empty());
    push_part(&mut parts, vs, "running", "running");
    push_part(&mut parts, vs, "awaiting_approval", "awaiting approval");
    push_part(&mut parts, vs, "pending", "pending");
    push_part(&mut parts, vs, "succeeded", "succeeded");
    push_part(&mut parts, vs, "failed", "failed");
    push_part(&mut parts, vs, "cancelled", "cancelled");
    assert(texts(parts@) =~= header_parts(all));
    let head = join(&parts, "  ·  ");
    out.push(head);
    out.push(String::new());
    assert(texts(out@) =~= want.take(2));
    let mut i: usize = 0;
    while i < vs.len()
        invariant
            i <= vs.len(),
            vs.len() > 0,
            all == views(vs@),
            want == status_text(all, now),
            texts(out@) == want.take(i + 2),
        decreases vs.len() - i,
    {
        let ghost was = out@;
        assert(all[i as int] == vs@[i as int]@);
        let x = row(&vs[i], now);
        out.push(x);
        assert(texts(out@) =~= texts(was).push(x@));
        assert(want[i + 2] == row_text(all[i as int], now));
        assert(want.take(i + 3) =~= want.take(i + 2).push(want[i + 2]));
        i += 1;
    }
    assert(want.take(i + 2) =~= want);
    out
}

// ---------------------------------------------------------------------------------------------
// A daemon elsewhere
// ---------------------------------------------------------------------------------------------
/// Where a daemon lists its runs.
pub fn runs_endpoint(url: &str, limit: usize) -> (r: String)
    ensures
        r@ == without_slashes(url@) + "/api/runs?limit="@ + decimal(limit as nat),
{
    let base = drop_slashes(url);
    let n = decimal_of(limit as u128);
    concat3(&base, "/api/runs?limit=", &n)
}

/// What a daemon's refusal is reported as: its status and its own message.
pub fn refusal(endpoint: &str, code: u16, body: &str) -> (r: String)
    ensures
        r@ == endpoint@ + " returned HTTP "@ + decimal(code as nat) + ": "@ + trimmed(body@),
{
    let n = decimal_of(code as u128);
    let why = trim(body);
    concat5(endpoint, " returned HTTP ", &n, ": ", &why)
}

/// Every row label is short enough for its column.
pub proof fn labels_fit_their_column(status: Seq<char>)
    ensures
        label_of(status).len() <= 9,
{
    reveal_strlit("awaiting");
    reveal_strlit("running");
    reveal_strlit("pending");
    reveal_strlit("failed");
    reveal_strlit("cancelled");
    reveal_strlit("succeeded");
    reveal_strlit("unknown");
}

/// An age is told in the largest unit of which there is at least one, rounded down.
pub proof fn an_age_is_told_in_its_largest_unit(n: nat, rest: nat)
    ensures
        n < 60 ==> age_text(n) == decimal(n) + "s"@,
        1 <= n < 60 && rest < 60 ==> age_text(60 * n + rest) == decimal(n) + "m"@,
        1 <= n < 24 && rest < 3600 ==> age_text(3600 * n + rest) == decimal(n) + "h"@,
        1 <= n && rest < 86_400 ==> age_text(86_400 * n + rest) == decimal(n) + "d"@,
{
    if rest < 60 {
        assert((60 * n + rest) / 60 == n) by (nonlinear_arith)
            requires
                rest < 60,
        ;
    }
    if rest < 3600 {
        assert((3600 * n + rest) / 3600 == n) by (nonlinear_arith)
            requires
                rest < 3600,
        ;
    }
    if rest < 86_400 {
        assert((86_400 * n + rest) / 86_400 == n) by (nonlinear_arith)
            requires
                rest < 86_400,
        ;
    }
}

/// The time that has passed is counted in whole seconds, and a moment to come is no time ago.
pub proof fn whole_seconds_are_counted(then: Timestamp, now: Timestamp, secs: nat, rest: nat)
    requires
        rest < 1_000_000_000,
    ensures
        now.total() == then.total() + secs * 1_000_000_000 + rest ==> seconds_since(then, now)
            == secs,
        now.total() <= then.total() ==> seconds_since(then, now) == 0,
{
    assert((secs * 1_000_000_000 + rest) / 1_000_000_000 == secs) by (nonlinear_arith)
        requires
            rest < 1_000_000_000,
    ;
}

/// A text that fits is not cut, and a longer one is its beginning with a sign of the cut, no longer
/// than allowed.
pub proof fn a_cut_text_keeps_its_beginning(s: Seq<char>, max: nat)
    requires
        max > 0,
    ensures
        s.len() <= max ==> cut_text(s, max) == s,
        s.len() > max ==> cut_text(s, max).len() == max && cut_text(s, max).take(max - 1) == s.take(
            max - 1,
        ) && cut_text(s, max).last() == '…',
{
    reveal_strlit("…");
    if s.len() > max {
        assert(cut_text(s, max).take(max - 1) =~= s.take(max - 1));
    }
}

proof fn lemma_filter_push<A>(s: Seq<A>, f: spec_fn(A) -> bool)
    requires
        s.len() > 0,
    ensures
        s.filter(f).len() == s.drop_last().filter(f).len() + (if f(s.last()) {
            1nat
        } else {
            0nat
        }),
{
    reveal(Seq::filter);
}

/// The header counts the runs of each status, and a row the steps that passed.
pub proof fn runs_and_steps_are_counted(
    vs: Seq<ListedRun>,
    ss: Seq<ListedStep>,
    status: Seq<char>,
)
    ensures
        runs_with(vs, status) == vs.filter(|v: ListedRun| v.status == status).len(),
        steps_with(ss, status) == ss.filter(|x: ListedStep| x.status == status).len(),
    decreases vs.len() + ss.len(),
{
    if vs.len() > 0 {
        runs_and_steps_are_counted(vs.drop_last(), ss, status);
        lemma_filter_push(vs, |v: ListedRun| v.status == status);
    } else {
        reveal(Seq::filter);
    }
    if ss.len() > 0 {
        runs_and_steps_are_counted(vs, ss.drop_last(), status);
        lemma_filter_push(ss, |x: ListedStep| x.status == status);
    } else {
        reveal(Seq::filter);
    }
}

/// Every run has a row, in the order of the listing, below the header.
pub proof fn every_run_has_a_row(vs: Seq<ListedRun>, now: Timestamp, i: int)
    requires
        0 <= i < vs.len(),
    ensures
        status_text(vs, now).len() == vs.len() + 2,
        status_text(vs, now)[i + 2] == row_text(vs[i], now),
{
}

proof fn lemma_sum_contains(a: Seq<Seq<char>>, b: Seq<Seq<char>>, x: Seq<char>)
    ensures
        (a + b).contains(x) == (a.contains(x) || b.contains(x)),
{
    let s = a + b;
    if a.contains(x) {
        let k = choose|k: int| 0 <= k < a.len() && a[k] == x;
        assert(s[k] == x);
    }
    if b.contains(x) {
        let k = choose|k: int| 0 <= k < b.len() && b[k] == x;
        assert(s[a.len() + k] == x);
    }
    if s.contains(x) {
        let k = choose|k: int| 0 <= k < s.len() && s[k] == x;
        if k < a.len() {
            assert(a[k] == x);
        } else {
            assert(b[k - a.len()] == x);
        }
    }
}

proof fn lemma_header_part(vs: Seq<ListedRun>, status: Seq<char>, words: Seq<char>, x: Seq<char>)
    ensures
        header_part(vs, status, words).contains(x) == (runs_with(vs, status) > 0 && x == decimal(
            runs_with(vs, status),
        ) + " "@ + words),
{
    let h = header_part(vs, status, words);
    if runs_with(vs, status) > 0 {
        assert(h[0] == decimal(runs_with(vs, status)) + " "@ + words);
    }
}

/// The header tells how many runs have each status, leaves out a status that none has, and tells
/// nothing else.
pub proof fn the_header_counts_each_status(vs: Seq<ListedRun>, x: Seq<char>)
    ensures
        header_parts(vs).contains(x) == ({
            ||| runs_with(vs, "running"@) > 0 && x == decimal(runs_with(vs, "running"@)) + " "@
                + "running"@
            ||| runs_with(vs, "awaiting_approval"@) > 0 && x == decimal(
                runs_with(vs, "awaiting_approval"@),
            ) + " "@ + "awaiting approval"@
            ||| runs_with(vs, "pending"@) > 0 && x == decimal(runs_with(vs, "pending"@)) + " "@
                + "pending"@
            ||| runs_with(vs, "succeeded"@) > 0 && x == decimal(runs_with(vs, "succeeded"@)) + " "@
                + "succeeded"@
            ||| runs_with(vs, "failed"@) > 0 && x == decimal(runs_with(vs, "failed"@)) + " "@
                + "failed"@
            ||| runs_with(vs, "cancelled"@) > 0 && x == decimal(runs_with(vs, "cancelled"@)) + " "@
                + "cancelled"@
        }),
{
    let a = header_part(vs, "running"@, "running"@);
    let b = header_part(vs, "awaiting_approval"@, "awaiting approval"@);
    let c = header_part(vs, "pending"@, "pending"@);
    let d = header_part(vs, "succeeded"@, "succeeded"@);
    let e = header_part(vs, "failed"@, "failed"@);
    let f = header_part(vs, "cancelled"@, "cancelled"@);
    lemma_header_part(vs, "running"@, "running"@, x);
    lemma_header_part(vs, "awaiting_approval"@, "awaiting approval"@, x);
    lemma_header_part(vs, "pending"@, "pending"@, x);
    lemma_header_part(vs, "succeeded"@, "succeeded"@, x);
    lemma_header_part(vs, "failed"@, "failed"@, x);
    lemma_header_part(vs, "cancelled"@, "cancelled"@, x);
    lemma_sum_contains(a, b, x);
    lemma_sum_contains(a + b, c, x);
    lemma_sum_contains(a + b + c, d, x);
    lemma_sum_contains(a + b + c + d, e, x);
    lemma_sum_contains(a + b + c + d + e, f, x);
}

/// Each way a run can stand has its mark: failed and cancelled runs share one, and what is none of
/// these has the mark of a run that has not begun.
pub proof fn a_status_has_its_mark(status: Seq<char>)
    ensures
        mark_of("succeeded"@) == "✓"@,
        mark_of("failed"@) == "✗"@,
        mark_of("cancelled"@) == "✗"@,
        mark_of("running"@) == "▸"@,
        mark_of("awaiting_approval"@) == "⏸"@,
        status != "succeeded"@ && status != "failed"@ && status != "cancelled"@ && status
            != "running"@ && status != "awaiting_approval"@ ==> mark_of(status) == "·"@,
{
    reveal_strlit("succeeded");
    reveal_strlit("failed");
    reveal_strlit("cancelled");
    reveal_strlit("running");
    reveal_strlit("awaiting_approval");
    assert("succeeded"@[0] == 's' && "failed"@[0] == 'f' && "cancelled"@[0] == 'c' && "running"@[0]
        == 'r' && "awaiting_approval"@[0] == 'a');
}

/// Each way a run can stand is named in its row, a wait for approval in short, and anything else is
/// unknown.
pub proof fn a_status_has_its_label(status: Seq<char>)
    ensures
        status == "awaiting_approval"@ ==> label_of(status) == "awaiting"@,
        status == "running"@ || status == "pending"@ || status == "failed"@ || status
            == "cancelled"@ || status == "succeeded"@ ==> label_of(status) == status,
        status != "awaiting_approval"@ && status != "running"@ && status != "pending"@ && status
            != "failed"@ && status != "cancelled"@ && status != "succeeded"@ ==> label_of(status)
            == "unknown"@,
{
    reveal_strlit("succeeded");
    reveal_strlit("failed");
    reveal_strlit("cancelled");
    reveal_strlit("running");
    reveal_strlit("pending");
    reveal_strlit("awaiting_approval");
    assert("succeeded"@[0] == 's' && "failed"@[0] == 'f' && "cancelled"@[0] == 'c' && "running"@[0]
        == 'r' && "pending"@[0] == 'p' && "awaiting_approval"@[0] == 'a');
}

} // verus!
