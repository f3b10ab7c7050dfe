//! What `run` reads from its arguments, decides and prints.

use crate::api::{
    RunInput, RunInputView, RunStatus, RunSummary, RunSummaryView, StepResult, StepResultView,
    StepStatus,
};
use crate::ids::uuid_text;
use crate::ir::step::{Step, StepKind};
use crate::ir::workflow::{has_gate, Workflow};
use crate::json::{json_parsed, parse_json, Value, ValueView};
use crate::names::{lookup, put, views, NameSet};
use crate::text::{
    char_index, chars_of, concat2, concat3, concat4, concat5, debug_quoted, decimal, decimal_of,
    in_order, index_of_char, is_blank, lines, lines_of, quote_debug, signed_decimal,
    signed_decimal_of, sort_texts, text_range, texts,
};
use vstd::prelude::*;

verus! {

// ---------------------------------------------------------------------------------------------
// Arguments
// ---------------------------------------------------------------------------------------------
/// Why a run without a store is refused for a workflow with a gate.
pub open spec fn no_store_refusal() -> Seq<char> {
    "--no-store cannot be used with a workflow that has an `approval:` gate: a paused gate is \
     persisted to (and resumed from) the store, so without one the run could never be approved. \
     Drop --no-store, or remove the \
     gate."@
}

/// Refuses a run without a store for a workflow with a gate, which could never be approved.
pub fn check_store(no_store: bool, workflow: &Workflow) -> (r: Result<(), String>)
    ensures
        if no_store && has_gate(workflow.steps@) {
            r matches Err(e) && e@ == no_store_refusal()
        } else {
            r is Ok
        },
{
    if no_store && workflow.has_approval() {
        return Err(
            "--no-store cannot be used with a workflow that has an `approval:` gate: a paused gate is \
     persisted to (and resumed from) the store, so without one the run could never be approved. \
     Drop --no-store, or remove the \
     gate.".to_owned(),
        );
    }
    Ok(())
}

/// The value of a param: what its text parses to, else the text.
pub open spec fn value_or_text(parsed: Option<ValueView>, raw: Seq<char>) -> ValueView {
    match parsed {
        Some(v) => v,
        None => ValueView::String(raw),
    }
}

/// The value that a text parsed to, else the text.
pub fn typed_value(parsed: Option<Value>, raw: &str) -> (r: Value)
    ensures
        r@ == value_or_text(crate::names::opt_view(parsed), raw@),
{
    match parsed {
        Some(v) => v,
        None => Value::string(raw),
    }
}

/// Reads a param's value as JSON, so that `42` and `true` are typed, else as a text.
pub fn parse_value(raw: &str) -> (r: Value)
    ensures
        r@ == value_or_text(json_parsed(raw@), raw@),
{
    typed_value(parse_json(raw), raw)
}

/// A `KEY=VALUE` argument: the key up to the first `=`, which must not be blank, and the value.
pub open spec fn split_param(pair: Seq<char>) -> Result<(Seq<char>, Seq<char>), Seq<char>> {
    let n = char_index(pair, '=');
    if n >= pair.len() {
        Err("--param must be KEY=VALUE, got "@ + debug_quoted(pair))
    } else if is_blank(pair.take(n as int)) {
        Err("--param key must be non-empty, got "@ + debug_quoted(pair))
    } else {
        Ok((pair.take(n as int), pair.skip(n as int + 1)))
    }
}

/// Splits a `KEY=VALUE` argument at the first `=`.
pub fn split_pair(pair: &str) -> (r: Result<(String, String), String>)
    ensures
        match r {
            Ok((k, v)) => split_param(pair@) == Ok::<(Seq<char>, Seq<char>), Seq<char>>((k@, v@)),
            Err(e) => split_param(pair@) == Err::<(Seq<char>, Seq<char>), Seq<char>>(e@),
        },
{
    let v = chars_of(pair);
    assert(v@.skip(0) =~= pair@);
    let n = index_of_char(&v, '=', 0);
    if n >= v.len() {
        let q = quote_debug(pair);
        return Err(concat2("--param must be KEY=VALUE, got ", &q));
    }
    let key = text_range(&v, 0, n);
    assert(v@.subrange(0, n as int) =~= pair@.take(n as int));
    if crate::text::blank(&key) {
        let q = quote_debug(pair);
        return Err(concat2("--param key must be non-empty, got ", &q));
    }
    let value = text_range(&v, n + 1, v.len());
    assert(v@.subrange(n + 1, v@.len() as int) =~= pair@.skip(n + 1));
    Ok((key, value))
}

/// The params of arguments, the later ones replacing earlier ones of the same key; the first
/// argument that is none is an error.
pub open spec fn params_of(pairs: Seq<Seq<char>>) -> Result<
    Seq<(Seq<char>, ValueView)>,
    Seq<char>,
>
    decreases pairs.len(),
{
    if pairs.len() == 0 {
        Ok(Seq::empty())
    } else {
        match params_of(pairs.drop_last()) {
            Err(e) => Err(e),
            Ok(before) => match split_param(pairs.last()) {
                Err(e) => Err(e),
                Ok((k, v)) => Ok(put(before, k, value_or_text(json_parsed(v), v))),
            },
        }
    }
}

proof fn lemma_params_fail_early(pairs: Seq<Seq<char>>, k: int)
    requires
        0 <= k <= pairs.len(),
        params_of(pairs.take(k)) is Err,
    ensures
        params_of(pairs) == params_of(pairs.take(k)),
    decreases pairs.len() - k,
{
    if k < pairs.len() {
        assert(pairs.take(k + 1).drop_last() =~= pairs.take(k));
        lemma_params_fail_early(pairs, k + 1);
    } else {
        assert(pairs.take(k) =~= pairs);
    }
}

/// The input of a run, from its arguments.
pub fn run_input(trigger: Option<String>, pairs: &Vec<String>) -> (r: Result<RunInput, String>)
    ensures
        match params_of(texts(pairs@)) {
            Err(e) => r matches Err(x) && x@ == e,
            Ok(params) => r matches Ok(i) && i@ == (RunInputView {
                trigger: match trigger {
                    Some(t) => t@,
                    None => "manual"@,
                },
                trigger_payload: ValueView::Null,
                params,
                idempotency_key: None,
            }),
        },
{
    let mut input = RunInput::manual();
    if let Some(t) = trigger {
        input.trigger = t;
    }
    let ghost ps = texts(pairs@);
    let ghost bare = input@;
    let mut i: usize = 0;
    assert(ps.take(0) =~= Seq::<Seq<char>>::empty());
    while i < pairs.len()
        invariant
            i <= pairs.len(),
            ps == texts(pairs@),
            params_of(ps.take(i as int)) == Ok::<Seq<(Seq<char>, ValueView)>, Seq<char>>(
                input@.params,
            ),
            input@ == (RunInputView { params: input@.params, ..bare }),
        decreases pairs.len() - i,
    {
        assert(ps.take(i + 1).drop_last() =~= ps.take(i as int));
        assert(ps[i as int] == pairs@[i as int]@);
        match split_pair(&pairs[i]) {
            Ok((k, v)) => {
                let value = parse_value(&v);
                input.params.insert(k, value);
            },
            Err(e) => {
                proof {
                    lemma_params_fail_early(ps, i + 1);
                }
                return Err(e);
            },
        }
        i += 1;
    }
    assert(ps.take(i as int) =~= ps);
    Ok(input)
}

/// What an interrupt does.
#[derive(Clone, Copy, Debug, PartialEq, Eq, Structural)]
pub enum Interrupt {
    /// Stop the run.
    Stop,
    /// Quit at once.
    ForceQuit,
}

/// What an interrupt does, given how many came before it: the first stops the run, any other
/// quits.
pub fn on_interrupt(before: u32) -> (r: Interrupt)
    ensures
        r == (if before == 0 {
            Interrupt::Stop
        } else {
            Interrupt::ForceQuit
        }),
{
    if before == 0 {
        Interrupt::Stop
    } else {
        Interrupt::ForceQuit
    }
}

// ---------------------------------------------------------------------------------------------
// Providers to replace
// ---------------------------------------------------------------------------------------------
/// Whether a step names a provider, as its own or as its judge's.
pub open spec fn names_provider(s: Step, name: Seq<char>) -> bool {
    ||| s.kind matches StepKind::Provider(p) && p.provider@ == name
    ||| s.judge matches Some(j) && j.provider@ == name
}

/// Whether a workflow names a provider, in a step or in the body of a loop.
pub open spec fn workflow_names_provider(steps: Seq<Step>, name: Seq<char>) -> bool {
    exists|i: int|
        0 <= i < steps.len() && (names_provider(#[trigger] steps[i], name) || (steps[i].kind matches
            StepKind::Loop(l) && exists|j: int|
            0 <= j < l.steps@.len() && names_provider(#[trigger] l.steps@[j], name)))
}

fn add_provider_names(step: &Step, names: &mut NameSet)
    ensures
        forall|x: Seq<char>| #[trigger]
            final(names)@.contains(x) == (old(names)@.contains(x) || names_provider(*step, x)),
        old(names)@.no_duplicates() ==> final(names)@.no_duplicates(),
{
    let ghost before = names@;
    let ghost mut mid = names@;
    if let StepKind::Provider(p) = &step.kind {
        let n = p.provider.to_string();
        let ghost nv = n@;
        let _ = names.insert(n);
        proof {
            assert forall|x: Seq<char>| #[trigger]
                names@.contains(x) == (before.contains(x) || x == nv) by {
                crate::validate::graph::lemma_with_name(before, nv, x);
            }
        }
    }
    proof {
        mid = names@;
    }
    if let Some(j) = &step.judge {
        let n = j.provider.to_string();
        let ghost nv = n@;
        let _ = names.insert(n);
        proof {
            assert forall|x: Seq<char>| #[trigger]
                names@.contains(x) == (mid.contains(x) || x == nv) by {
                crate::validate::graph::lemma_with_name(mid, nv, x);
            }
        }
    }
}

/// The names of the providers a workflow refers to, sorted, each once: those that a mock run
/// replaces.
pub fn provider_names(workflow: &Workflow) -> (r: Vec<String>)
    ensures
        in_order(texts(r@)),
        texts(r@).no_duplicates(),
        forall|x: Seq<char>| #[trigger]
            texts(r@).contains(x) == workflow_names_provider(workflow.steps@, x),
{
    let steps = &workflow.steps;
    let mut names = NameSet::new();
    let mut i: usize = 0;
    while i < steps.len()
        invariant
            i <= steps.len(),
            *steps == workflow.steps,
            names@.no_duplicates(),
            forall|x: Seq<char>| #[trigger]
                names@.contains(x) == workflow_names_provider(steps@.take(i as int), x),
        decreases steps.len() - i,
    {
        let ghost before = names@;
        let s = &steps[i];
        add_provider_names(s, &mut names);
        let ghost own = names@;
        if let StepKind::Loop(l) = &s.kind {
            let mut j: usize = 0;
            while j < l.steps.len()
                invariant
                    j <= l.steps.len(),
                    names@.no_duplicates(),
                    forall|x: Seq<char>| #[trigger]
                        names@.contains(x) == (own.contains(x) || exists|k: int|
                            0 <= k < j && names_provider(#[trigger] l.steps@[k], x)),
                decreases l.steps.len() - j,
            {
                let ghost was = names@;
                add_provider_names(&l.steps[j], &mut names);
                proof {
                    assert forall|x: Seq<char>| #[trigger]
                        names@.contains(x) == (own.contains(x) || exists|k: int|
                            0 <= k < j + 1 && names_provider(#[trigger] l.steps@[k], x)) by {
                        assert(was.contains(x) == (own.contains(x) || exists|k: int|
                            0 <= k < j && names_provider(#[trigger] l.steps@[k], x)));
                        if names_provider(l.steps@[j as int], x) {
                            assert(names_provider(l.steps@[j as int], x));
                        }
                    }
                }
                j += 1;
            }
        }
        proof {
            assert forall|x: Seq<char>| #[trigger]
                names@.contains(x) == workflow_names_provider(steps@.take(i + 1), x) by {
                let a = steps@.take(i as int);
                let b = steps@.take(i + 1);
                assert(before.contains(x) == workflow_names_provider(a, x));
                assert(own.contains(x) == (before.contains(x) || names_provider(*s, x)));
                assert(b[i as int] == *s);
                if workflow_names_provider(a, x) {
                    let k = choose|k: int|
                        0 <= k < a.len() && (names_provider(#[trigger] a[k], x) || (a[k].kind matches
                            StepKind::Loop(l) && exists|j: int|
                            0 <= j < l.steps@.len() && names_provider(#[trigger] l.steps@[j], x)));
                    assert(b[k] == a[k]);
                }
                if workflow_names_provider(b, x) {
                    let k = choose|k: int|
                        0 <= k < b.len() && (names_provider(#[trigger] b[k], x) || (b[k].kind matches
                            StepKind::Loop(l) && exists|j: int|
                            0 <= j < l.steps@.len() && names_provider(#[trigger] l.steps@[j], x)));
                    if k < i {
                        assert(a[k] == b[k]);
                    }
                }
            }
        }
        i += 1;
    }
    assert(steps@.take(i as int) =~= steps@);
    let n = names.len();
    let mut out: Vec<String> = Vec::new();
    let mut k: usize = 0;
    while k < n
        invariant
            k <= n,
            n == names@.len(),
            texts(out@) =~= names@.take(k as int),
        decreases n - k,
    {
        let ghost was = out@;
        let x = names.at(k).clone();
        out.push(x);
        assert(texts(out@) =~= texts(was).push(x@));
        assert(names@.take(k + 1) =~= names@.take(k as int).push(names@[k as int]));
        k += 1;
    }
    assert(names@.take(n as int) =~= names@);
    let ghost listed = texts(out@);
    let r = sort_texts(out);
    proof {
        assert forall|x: Seq<char>| #[trigger]
            texts(r@).contains(x) == workflow_names_provider(workflow.steps@, x) by {
            broadcast use vstd::seq_lib::group_to_multiset_ensures;
            assert(texts(r@).to_multiset().contains(x) == listed.to_multiset().contains(x));
            assert(texts(r@).contains(x) == texts(r@).to_multiset().contains(x));
            assert(listed.contains(x) == listed.to_multiset().contains(x));
        }
        listed.lemma_multiset_has_no_duplicates();
        texts(r@).lemma_multiset_has_no_duplicates_conv();
    }
    r
}

// ---------------------------------------------------------------------------------------------
// The summary
// ---------------------------------------------------------------------------------------------
/// The mark of a step status.
pub open spec fn step_glyph(s: StepStatus) -> Seq<char> {
    match s {
        StepStatus::Passed => "✓"@,
        StepStatus::Failed => "✗"@,
        StepStatus::Skipped => "⊘"@,
        StepStatus::AwaitingApproval => "⏸"@,
        _ => "·"@,
    }
}

/// The mark of a step status.
pub fn glyph(s: StepStatus) -> (r: &'static str)
    ensures
        r@ == step_glyph(s),
{
    match s {
        StepStatus::Passed => "✓",
        StepStatus::Failed => "✗",
        StepStatus::Skipped => "⊘",
        StepStatus::AwaitingApproval => "⏸",
        _ => "·",
    }
}

/// The word for a run status in a summary.
pub open spec fn status_word(s: RunStatus) -> Seq<char> {
    match s {
        RunStatus::Succeeded => "succeeded"@,
        RunStatus::AwaitingApproval => "awaiting approval"@,
        RunStatus::Cancelled => "cancelled"@,
        _ => "failed"@,
    }
}

fn status_word_str(s: RunStatus) -> (r: &'static str)
    ensures
        r@ == status_word(s),
{
    match s {
        RunStatus::Succeeded => "succeeded",
        RunStatus::AwaitingApproval => "awaiting approval",
        RunStatus::Cancelled => "cancelled",
        _ => "failed",
    }
}

/// The lines of a step in a summary: its mark and exit code, why it failed, and how a waiting
/// gate is approved.
pub open spec fn step_lines(s: StepResultView, run_id: Seq<char>) -> Seq<Seq<char>> {
    let head = "  "@ + step_glyph(s.status) + " "@ + s.id + (match s.exit_code {
        Some(c) => " (exit "@ + signed_decimal(c as int) + ")"@,
        None => Seq::empty(),
    });
    let why = match s.error {
        Some(e) => if s.status == StepStatus::Failed && lines_of(e).len() > 0 {
            seq!["      ↳ "@ + lines_of(e)[0]]
        } else {
            Seq::empty()
        },
        None => Seq::empty(),
    };
    let gate = if s.status == StepStatus::AwaitingApproval {
        (match lookup(s.outputs, "message"@) {
            Some(ValueView::String(m)) => seq!["      ↳ "@ + m],
            _ => Seq::empty(),
        }) + seq![
            "      ↳ approve: `odin approve "@ + run_id + " --workflow <file> --by <you>`"@,
        ]
    } else {
        Seq::empty()
    };
    seq![head] + why + gate
}

/// The lines of steps in a summary.
pub open spec fn steps_lines(ss: Seq<StepResultView>, run_id: Seq<char>) -> Seq<Seq<char>>
    decreases ss.len(),
{
    if ss.len() == 0 {
        Seq::empty()
    } else {
        steps_lines(ss.drop_last(), run_id) + step_lines(ss.last(), run_id)
    }
}

/// The lines of a summary. `cost` is the cost in dollars.
pub open spec fn summary_text(s: RunSummaryView, cost: Seq<char>) -> Seq<Seq<char>> {
    let id = uuid_text(s.run_id.0);
    seq!["Run "@ + id + " — "@ + status_word(s.status)] + steps_lines(s.steps, id) + seq![
        "usage: "@ + decimal(s.usage.input_tokens as nat) + " in / "@ + decimal(
            s.usage.output_tokens as nat,
        ) + " out tokens, $"@ + cost,
    ] + (match s.error {
        Some(e) => seq!["error: "@ + e],
        None => Seq::empty(),
    }) + (if s.side_effects.len() > 0 {
        seq!["side-effects: "@ + decimal(s.side_effects.len())]
    } else {
        Seq::empty()
    })
}

fn push_step_lines(out: &mut Vec<String>, s: &StepResult, run_id: &str)
    ensures
        texts(final(out)@) == texts(old(out)@) + step_lines(s@, run_id@),
{
    let ghost start = texts(out@);
    let exit = match s.exit_code {
        Some(c) => {
            let n = signed_decimal_of(c as i64);
            concat3(" (exit ", &n, ")")
        },
        None => String::new(),
    };
    let head = concat5("  ", glyph(s.status), " ", s.id.as_str(), &exit);
    let ghost hv = head@;
    out.push(head);
    let ghost one = texts(out@);
    assert(one =~= start + seq![hv]);
    if s.status == StepStatus::Failed {
        if let Some(e) = &s.error {
            let ls = lines(e);
            if ls.len() > 0 {
                let x = concat2("      ↳ ", &ls[0]);
                let ghost xv = x@;
                out.push(x);
                assert(texts(ls@)[0] == ls@[0]@);
                assert(texts(out@) =~= one + seq![xv]);
            }
            assert(texts(ls@) == lines_of(e@));
        }
    }
    let ghost why = match s@.error {
        Some(e) => if s.status == StepStatus::Failed && lines_of(e).len() > 0 {
            seq!["      ↳ "@ + lines_of(e)[0]]
        } else {
            Seq::empty()
        },
        None => Seq::empty(),
    };
    let ghost two = texts(out@);
    assert(two =~= one + why);
    if s.status == StepStatus::AwaitingApproval {
        if let Some(v) = s.outputs.get("message") {
            if let Some(m) = v.as_str() {
                let x = concat2("      ↳ ", m);
                let ghost xv = x@;
                out.push(x);
                assert(texts(out@) =~= two + seq![xv]);
            }
        }
        let ghost three = texts(out@);
        let x = concat3("      ↳ approve: `odin approve ", run_id, " --workflow <file> --by <you>`");
        let ghost xv = x@;
        out.push(x);
        assert(texts(out@) =~= three + seq![xv]);
    }
    assert(texts(out@) =~= start + step_lines(s@, run_id@));
}

/// The lines of a summary. `cost` is the cost in dollars.
pub fn summary_lines(s: &RunSummary, cost: &str) -> (r: Vec<String>)
    ensures
        texts(r@) == summary_text(s@, cost@),
{
    let id = s.run_id.to_string();
    let mut out: Vec<String> = Vec::new();
    let head = concat4("Run ", &id, " — ", status_word_str(s.status));
    let ghost hv = head@;
    out.push(head);
    let ghost first = seq![hv];
    assert(texts(out@) =~= first);
    let ghost all = views(s.steps@);
    let mut i: usize = 0;
    assert(first + steps_lines(all.take(0), id@) =~= first);
    while i < s.steps.len()
        invariant
            i <= s.steps.len(),
            all == views(s.steps@),
            texts(out@) == first + steps_lines(all.take(i as int), id@),
        decreases s.steps.len() - i,
    {
        assert(all.take(i + 1).drop_last() =~= all.take(i as int));
        assert(all[i as int] == s.steps@[i as int]@);
        push_step_lines(&mut out, &s.steps[i], &id);
        assert(texts(out@) =~= first + steps_lines(all.take(i + 1), id@));
        i += 1;
    }
    assert(all.take(i as int) =~= all);
    let ghost a = texts(out@);
    let input = decimal_of(s.usage.input_tokens as u128);
    let output = decimal_of(s.usage.output_tokens as u128);
    let counts = concat5("usage: ", &input, " in / ", &output, " out tokens, $");
    let usage = concat2(&counts, cost);
    let ghost uv = usage@;
    out.push(usage);
    let ghost b = texts(out@);
    assert(b =~= a + seq![uv]);
    if let Some(e) = &s.error {
        let x = concat2("error: ", e);
        let ghost xv = x@;
        out.push(x);
        assert(texts(out@) =~= b + seq![xv]);
    }
    let ghost c = texts(out@);
    assert(s@.side_effects.len() == s.side_effects@.len());
    if s.side_effects.len() > 0 {
        let n = decimal_of(s.side_effects.len() as u128);
        let x = concat2("side-effects: ", &n);
        let ghost xv = x@;
        out.push(x);
        assert(texts(out@) =~= c + seq![xv]);
    }
    assert(texts(out@) =~= summary_text(s@, cost@));
    out
}

/// A pair is split at its first `=`: what stands before it is the name, and everything behind it
/// the value.
pub proof fn a_pair_is_split_at_its_first_equals(k: Seq<char>, v: Seq<char>)
    requires
        !k.contains('='),
    ensures
        !is_blank(k) ==> split_param(k + seq!['='] + v) == Ok::<
            (Seq<char>, Seq<char>),
            Seq<char>,
        >((k, v)),
        is_blank(k) ==> split_param(k + seq!['='] + v) is Err,
        split_param(k) is Err,
{
    let s = k + seq!['='] + v;
    assert forall|i: int| 0 <= i < k.len() implies s[i] != '=' by {
        assert(s[i] == k[i]);
        assert(k.contains(k[i]));
    }
    crate::text::lemma_char_index_unique(s, '=', k.len() as int);
    assert(s.take(k.len() as int) =~= k);
    assert(s.skip(k.len() as int + 1) =~= v);
    crate::text::lemma_char_index(k, '=');
}

/// A param is given the value of the last pair with its name: JSON where it is JSON, and else the
/// text itself.
pub proof fn the_last_pair_with_a_name_counts(
    pairs: Seq<Seq<char>>,
    i: int,
    k: Seq<char>,
    v: Seq<char>,
)
    requires
        params_of(pairs) is Ok,
        0 <= i < pairs.len(),
        split_param(pairs[i]) == Ok::<(Seq<char>, Seq<char>), Seq<char>>((k, v)),
        forall|j: int|
            i < j < pairs.len() ==> (split_param(#[trigger] pairs[j]) matches Ok((other, _))
                && other != k),
    ensures
        lookup(params_of(pairs)->Ok_0, k) == Some(
            match json_parsed(v) {
                Some(x) => x,
                None => ValueView::String(v),
            },
        ),
    decreases pairs.len(),
{
    let d = pairs.drop_last();
    lemma_params_unique(d);
    let before = params_of(d)->Ok_0;
    let (lk, lv) = split_param(pairs.last())->Ok_0;
    crate::names::lemma_put_get(before, lk, value_or_text(json_parsed(lv), lv), k);
    if i < pairs.len() - 1 {
        assert(d[i] == pairs[i]);
        assert forall|j: int| i < j < d.len() implies (split_param(#[trigger] d[j]) matches Ok(
            (other, _),
        ) && other != k) by {
            assert(d[j] == pairs[j]);
        }
        the_last_pair_with_a_name_counts(d, i, k, v);
        assert(split_param(pairs[pairs.len() - 1]) matches Ok((other, _)) && other != k);
    }
}

proof fn lemma_params_unique(pairs: Seq<Seq<char>>)
    ensures
        params_of(pairs) is Ok ==> crate::names::unique_keys(params_of(pairs)->Ok_0),
    decreases pairs.len(),
{
    if pairs.len() > 0 && params_of(pairs) is Ok {
        lemma_params_unique(pairs.drop_last());
        let before = params_of(pairs.drop_last())->Ok_0;
        let (k, v) = split_param(pairs.last())->Ok_0;
        crate::names::lemma_put_get(before, k, value_or_text(json_parsed(v), v), k);
    }
}

/// A mock run replaces the providers of prompts and of judges, inside loops and outside, and no
/// others.
pub proof fn the_named_providers_are_replaced(steps: Seq<Step>, name: Seq<char>, i: int, j: int)
    ensures
        0 <= i < steps.len() ==> ((steps[i].kind matches StepKind::Provider(p) && p.provider@
            == name) || (steps[i].judge matches Some(x) && x.provider@ == name)
            ==> workflow_names_provider(steps, name)),
        0 <= i < steps.len() ==> (steps[i].kind matches StepKind::Loop(l) ==> (0 <= j
            < l.steps@.len() && ((l.steps@[j].kind matches StepKind::Provider(p) && p.provider@
            == name) || (l.steps@[j].judge matches Some(x) && x.provider@ == name))
            ==> workflow_names_provider(steps, name))),
{
    if 0 <= i < steps.len() {
        assert(names_provider(steps[i], name) ==> workflow_names_provider(steps, name));
        if let StepKind::Loop(l) = steps[i].kind {
            if 0 <= j < l.steps@.len() {
                assert(names_provider(l.steps@[j], name) ==> workflow_names_provider(steps, name));
            }
        }
    }
}

/// The summary begins with the run and how it ended, and has a line for each step with its mark
/// and its id.
pub proof fn a_summary_shows_every_step(s: RunSummaryView, cost: Seq<char>, i: int)
    ensures
        summary_text(s, cost).len() > 0,
        summary_text(s, cost)[0] == "Run "@ + uuid_text(s.run_id.0) + " — "@ + (match s.status {
            RunStatus::Succeeded => "succeeded"@,
            RunStatus::AwaitingApproval => "awaiting approval"@,
            RunStatus::Cancelled => "cancelled"@,
            _ => "failed"@,
        }),
        0 <= i < s.steps.len() ==> summary_text(s, cost).contains(
            step_lines(s.steps[i], uuid_text(s.run_id.0))[0],
        ),
        s.error matches Some(e) ==> summary_text(s, cost).contains("error: "@ + e),
{
    let id = uuid_text(s.run_id.0);
    let t = summary_text(s, cost);
    let a = seq!["Run "@ + id + " — "@ + status_word(s.status)];
    let b = steps_lines(s.steps, id);
    assert(t[0] == a[0]);
    if 0 <= i < s.steps.len() {
        let line = step_lines(s.steps[i], id)[0];
        lemma_steps_lines(s.steps, id, i);
        let k = choose|k: int| 0 <= k < b.len() && b[k] == line;
        assert(t[k + 1] == line);
    }
    if let Some(e) = s.error {
        assert(t[b.len() as int + 2] == "error: "@ + e);
    }
}

proof fn lemma_steps_lines(ss: Seq<StepResultView>, id: Seq<char>, i: int)
    requires
        0 <= i < ss.len(),
    ensures
        steps_lines(ss, id).contains(step_lines(ss[i], id)[0]),
    decreases ss.len(),
{
    let before = steps_lines(ss.drop_last(), id);
    let last = step_lines(ss.last(), id);
    let all = steps_lines(ss, id);
    if i < ss.len() - 1 {
        lemma_steps_lines(ss.drop_last(), id, i);
        let line = step_lines(ss[i], id)[0];
        let k = choose|k: int| 0 <= k < before.len() && before[k] == line;
        assert(all[k] == line);
    } else {
        assert(all[before.len() as int] == last[0]);
    }
}

/// A step's line has the mark of its status, its id, and its exit code if it has one; a failed
/// step says why, and a waiting one how to approve it.
pub proof fn a_step_line_says_how_it_went(s: StepResultView, run_id: Seq<char>)
    ensures
        step_lines(s, run_id)[0] == "  "@ + (match s.status {
            StepStatus::Passed => "✓"@,
            StepStatus::Failed => "✗"@,
            StepStatus::Skipped => "⊘"@,
            StepStatus::AwaitingApproval => "⏸"@,
            _ => "·"@,
        }) + " "@ + s.id + (match s.exit_code {
            Some(c) => " (exit "@ + signed_decimal(c as int) + ")"@,
            None => Seq::empty(),
        }),
        s.status == StepStatus::Failed ==> (s.error matches Some(e) ==> (lines_of(e).len() > 0
            ==> step_lines(s, run_id).len() == 2 && step_lines(s, run_id)[1] == "      ↳ "@
            + lines_of(e)[0])),
        s.status == StepStatus::AwaitingApproval ==> step_lines(s, run_id).last()
            == "      ↳ approve: `odin approve "@ + run_id + " --workflow <file> --by <you>`"@,
        s.status == StepStatus::Passed ==> step_lines(s, run_id).len() == 1,
{
}

} // verus!
