//! What `list` and `show` print of recorded runs.

use crate::api::{RunStatus, StepStatus};
use crate::engine::state::{RunState, RunStateView, StepState, StepStateView};
use crate::ids::uuid_text;
use crate::json::{json_string, object_text, quote_json, ObjectText};
use crate::names::has_key;
use crate::text::{
    concat2, concat3, concat4, decimal, decimal_of, lines, lines_of, pad_right, padded_right,
    signed_decimal, signed_decimal_of, spaces, texts,
};
use vstd::prelude::*;

verus! {

/// The name of a run status on the wire.
pub open spec fn status_name(s: RunStatus) -> Seq<char> {
    match s {
        RunStatus::Pending => "pending"@,
        RunStatus::Running => "running"@,
        RunStatus::AwaitingApproval => "awaiting_approval"@,
        RunStatus::Succeeded => "succeeded"@,
        RunStatus::Failed => "failed"@,
        RunStatus::Cancelled => "cancelled"@,
    }
}

/// The name of a run status on the wire.
pub fn status_str(s: RunStatus) -> (r: &'static str)
    ensures
        r@ == status_name(s),
{
    match s {
        RunStatus::Pending => "pending",
        RunStatus::Running => "running",
        RunStatus::AwaitingApproval => "awaiting_approval",
        RunStatus::Succeeded => "succeeded",
        RunStatus::Failed => "failed",
        RunStatus::Cancelled => "cancelled",
    }
}

/// The name of a step status in a listing.
pub open spec fn step_variant(s: StepStatus) -> Seq<char> {
    match s {
        StepStatus::Pending => "Pending"@,
        StepStatus::Running => "Running"@,
        StepStatus::AwaitingApproval => "AwaitingApproval"@,
        StepStatus::Passed => "Passed"@,
        StepStatus::Failed => "Failed"@,
        StepStatus::Skipped => "Skipped"@,
    }
}

fn step_variant_str(s: StepStatus) -> (r: &'static str)
    ensures
        r@ == step_variant(s),
{
    match s {
        StepStatus::Pending => "Pending",
        StepStatus::Running => "Running",
        StepStatus::AwaitingApproval => "AwaitingApproval",
        StepStatus::Passed => "Passed",
        StepStatus::Failed => "Failed",
        StepStatus::Skipped => "Skipped",
    }
}

/// A run's line in a listing. `updated` is when it was updated last.
pub fn list_line(state: &RunState, updated: &str) -> (r: String)
    ensures
        r@ == uuid_text(state@.run_id.0) + "  "@ + padded_right(status_name(state@.status), 10)
            + "  "@ + state@.workflow + "  "@ + updated@,
{
    let id = state.run_id.to_string();
    let status = pad_right(status_str(state.status), 10);
    let head = concat4(&id, "  ", &status, "  ");
    concat4(&head, state.workflow.as_str(), "  ", updated)
}

/// The members of a run in a machine-readable listing. `updated` is when it was updated last.
pub open spec fn row_members(st: RunStateView, updated: Seq<char>) -> Seq<(Seq<char>, Seq<char>)> {
    Seq::empty().push(("run_id"@, json_string(uuid_text(st.run_id.0)))).push(
        ("workflow"@, json_string(st.workflow)),
    ).push(("status"@, json_string(status_name(st.status)))).push(
        ("updated_at"@, json_string(updated)),
    )
}

/// A run in a machine-readable listing. `updated` is when it was updated last.
pub fn list_row(state: &RunState, updated: &str) -> (r: String)
    ensures
        r@ == object_text(row_members(state@, updated@)),
{
    let id = quote_json(&state.run_id.to_string());
    let workflow = quote_json(state.workflow.as_str());
    let status = quote_json(status_str(state.status));
    let at = quote_json(updated);
    ObjectText::new().with("run_id", &id).with("workflow", &workflow).with("status", &status).with(
        "updated_at",
        &at,
    ).text()
}

/// The lines of a step.
pub open spec fn step_text(id: Seq<char>, st: StepStateView) -> Seq<Seq<char>> {
    let head = "  "@ + id + " "@ + step_variant(st.status) + (match st.exit_code {
        Some(c) => " exit "@ + signed_decimal(c as int),
        None => Seq::empty(),
    }) + (if st.attempts > 1 {
        " ("@ + decimal(st.attempts as nat) + " attempts)"@
    } else {
        Seq::empty()
    });
    let why = match st.error {
        Some(e) => if st.status == StepStatus::Failed && lines_of(e).len() > 0 {
            seq!["  "@ + spaces(12) + "   ↳ "@ + lines_of(e)[0]]
        } else {
            Seq::empty()
        },
        None => Seq::empty(),
    };
    seq![head] + why
}

/// The lines of steps.
pub open spec fn steps_text(steps: Seq<(Seq<char>, StepStateView)>) -> Seq<Seq<char>>
    decreases steps.len(),
{
    if steps.len() == 0 {
        Seq::empty()
    } else {
        steps_text(steps.drop_last()) + step_text(steps.last().0, steps.last().1)
    }
}

/// The lines of a run. `created` and `updated` are its moments.
pub open spec fn run_text(st: RunStateView, created: Seq<char>, updated: Seq<char>) -> Seq<
    Seq<char>,
> {
    seq![
        "run      "@ + uuid_text(st.run_id.0),
        "workflow "@ + st.workflow,
        "status   "@ + status_name(st.status),
    ] + (match st.error {
        Some(e) => seq!["error    "@ + e],
        None => Seq::empty(),
    }) + seq!["created  "@ + created, "updated  "@ + updated] + (if st.steps.len() > 0 {
        seq!["steps:"@] + steps_text(st.steps)
    } else {
        Seq::empty()
    }) + (if has_key(st.artifacts, "DIFF"@) {
        seq!["diff     captured"@]
    } else {
        Seq::empty()
    })
}

fn push_step(out: &mut Vec<String>, id: &str, st: &StepState)
    ensures
        texts(final(out)@) == texts(old(out)@) + step_text(id@, st@),
{
    let ghost start = texts(out@);
    let exit = match st.exit_code {
        Some(c) => {
            let n = signed_decimal_of(c as i64);
            concat2(" exit ", &n)
        },
        None => String::new(),
    };
    let attempts = if st.attempts > 1 {
        let n = decimal_of(st.attempts as u128);
        concat3(" (", &n, " attempts)")
    } else {
        String::new()
    };
    let name = concat4("  ", id, " ", step_variant_str(st.status));
    let head = concat3(&name, &exit, &attempts);
    let ghost hv = head@;
    out.push(head);
    let ghost one = texts(out@);
    assert(one =~= start + seq![hv]);
    if st.status == StepStatus::Failed {
        if let Some(e) = &st.error {
            let ls = lines(e);
            if ls.len() > 0 {
                proof {
                    reveal_strlit("");
                    assert(padded_right(""@, 12) =~= spaces(12));
                }
                let gap = pad_right("", 12);
                let x = concat4("  ", &gap, "   ↳ ", &ls[0]);
                let ghost xv = x@;
                out.push(x);
                assert(texts(ls@)[0] == ls@[0]@);
                assert(texts(out@) =~= one + seq![xv]);
            }
            assert(texts(ls@) == lines_of(e@));
        }
    }
    assert(texts(out@) =~= start + step_text(id@, st@));
}

/// The lines of a run.
pub fn run_lines(state: &RunState, created: &str, updated: &str) -> (r: Vec<String>)
    ensures
        texts(r@) == run_text(state@, created@, updated@),
{
    let mut out: Vec<String> = Vec::new();
    let id = state.run_id.to_string();
    out.push(concat2("run      ", &id));
    out.push(concat2("workflow ", state.workflow.as_str()));
    out.push(concat2("status   ", status_str(state.status)));
    let ghost a = texts(out@);
    assert(a =~= seq![
        "run      "@ + uuid_text(state@.run_id.0),
        "workflow "@ + state@.workflow,
        "status   "@ + status_name(state@.status),
    ]);
    if let Some(e) = &state.error {
        let x = concat2("error    ", e);
        let ghost xv = x@;
        out.push(x);
        assert(texts(out@) =~= a + seq![xv]);
    }
    let ghost b = texts(out@);
    out.push(concat2("created  ", created));
    out.push(concat2("updated  ", updated));
    let ghost c = texts(out@);
    assert(c =~= b + seq!["created  "@ + created@, "updated  "@ + updated@]);
    let n = state.steps.len();
    if n > 0 {
        out.push("steps:".to_owned());
        let ghost d = texts(out@);
        assert(d =~= c + seq!["steps:"@]);
        let ghost all = state@.steps;
        let mut i: usize = 0;
        assert(d + steps_text(all.take(0)) =~= d);
        while i < n
            invariant
                i <= n,
                n == state.steps@.len(),
                all == state.steps@,
                texts(out@) == d + steps_text(all.take(i as int)),
            decreases n - i,
        {
            assert(all.take(i + 1).drop_last() =~= all.take(i as int));
            push_step(&mut out, state.steps.key_at(i), state.steps.value_at(i));
            assert(texts(out@) =~= d + steps_text(all.take(i + 1)));
            i += 1;
        }
        assert(all.take(n as int) =~= all);
        assert(texts(out@) =~= c + (seq!["steps:"@] + steps_text(all)));
    }
    let ghost f = texts(out@);
    if state.artifacts.contains_key("DIFF") {
        out.push("diff     captured".to_owned());
        assert(texts(out@) =~= f + seq!["diff     captured"@]);
    }
    assert(texts(out@) =~= run_text(state@, created@, updated@));
    out
}

/// Each status has a name of its own.
pub proof fn a_status_is_known_by_its_name(a: RunStatus, b: RunStatus)
    requires
        status_name(a) == status_name(b),
    ensures
        a == b,
        a == RunStatus::Pending ==> status_name(a) == "pending"@,
        a == RunStatus::Running ==> status_name(a) == "running"@,
        a == RunStatus::AwaitingApproval ==> status_name(a) == "awaiting_approval"@,
        a == RunStatus::Succeeded ==> status_name(a) == "succeeded"@,
        a == RunStatus::Failed ==> status_name(a) == "failed"@,
        a == RunStatus::Cancelled ==> status_name(a) == "cancelled"@,
{
    reveal_strlit("pending");
    reveal_strlit("running");
    reveal_strlit("awaiting_approval");
    reveal_strlit("succeeded");
    reveal_strlit("failed");
    reveal_strlit("cancelled");
    assert("pending"@[0] == 'p' && "running"@[0] == 'r' && "awaiting_approval"@[0] == 'a'
        && "succeeded"@[0] == 's' && "failed"@[0] == 'f' && "cancelled"@[0] == 'c');
}

/// A run is shown with its id, its workflow, its status, its error if it has one, and a line for
/// each of its steps.
pub proof fn a_run_is_shown_with_every_step(
    st: RunStateView,
    created: Seq<char>,
    updated: Seq<char>,
    i: int,
)
    ensures
        ({
            let t = run_text(st, created, updated);
            &&& t.len() >= 5
            &&& t[0] == "run      "@ + uuid_text(st.run_id.0)
            &&& t[1] == "workflow "@ + st.workflow
            &&& t[2] == "status   "@ + status_name(st.status)
            &&& st.error matches Some(e) ==> t[3] == "error    "@ + e
            &&& 0 <= i < st.steps.len() ==> t.contains(step_text(st.steps[i].0, st.steps[i].1)[0])
        }),
{
    let t = run_text(st, created, updated);
    if 0 <= i < st.steps.len() {
        let line = step_text(st.steps[i].0, st.steps[i].1)[0];
        lemma_steps_text(st.steps, i);
        let b = steps_text(st.steps);
        let k = choose|k: int| 0 <= k < b.len() && b[k] == line;
        let head: int = if st.error is Some {
            7
        } else {
            6
        };
        assert(t[head + k] == line);
    }
}

proof fn lemma_steps_text(steps: Seq<(Seq<char>, StepStateView)>, i: int)
    requires
        0 <= i < steps.len(),
    ensures
        steps_text(steps).contains(step_text(steps[i].0, steps[i].1)[0]),
    decreases steps.len(),
{
    let before = steps_text(steps.drop_last());
    let all = steps_text(steps);
    if i < steps.len() - 1 {
        lemma_steps_text(steps.drop_last(), i);
        let line = step_text(steps[i].0, steps[i].1)[0];
        let k = choose|k: int| 0 <= k < before.len() && before[k] == line;
        assert(all[k] == line);
    } else {
        assert(all[before.len() as int] == step_text(steps.last().0, steps.last().1)[0]);
    }
}

/// A step's line names it and says how it stands; the first line of its error stands below it
/// exactly when it failed.
pub proof fn a_failed_step_shows_its_error(id: Seq<char>, st: StepStateView)
    ensures
        ({
            let t = step_text(id, st);
            &&& st.exit_code is None && st.attempts <= 1 ==> t[0] == "  "@ + id + " "@ + step_variant(
                st.status,
            )
            &&& st.exit_code matches Some(c) ==> (st.attempts <= 1 ==> t[0] == "  "@ + id + " "@
                + step_variant(st.status) + (" exit "@ + signed_decimal(c as int)))
            &&& st.status != StepStatus::Failed || st.error is None ==> t.len() == 1
            &&& st.status == StepStatus::Failed ==> (st.error matches Some(e) ==> (lines_of(e).len()
                > 0 ==> t.len() == 2 && t[1] == "  "@ + spaces(12) + "   ↳ "@ + lines_of(e)[0]))
        }),
{
    let t = step_text(id, st);
    let none = Seq::<char>::empty();
    let base = "  "@ + id + " "@ + step_variant(st.status);
    assert(base + none + none =~= base);
    if let Some(c) = st.exit_code {
        let e = " exit "@ + signed_decimal(c as int);
        assert(base + e + none =~= base + e);
    }
}

/// Each status of a step has a name of its own.
pub proof fn a_step_status_has_its_own_name(a: StepStatus, b: StepStatus)
    requires
        step_variant(a) == step_variant(b),
    ensures
        a == b,
        a == StepStatus::Passed ==> step_variant(a) == "Passed"@,
        a == StepStatus::Failed ==> step_variant(a) == "Failed"@,
        a == StepStatus::Skipped ==> step_variant(a) == "Skipped"@,
{
    reveal_strlit("Pending");
    reveal_strlit("Running");
    reveal_strlit("AwaitingApproval");
    reveal_strlit("Passed");
    reveal_strlit("Failed");
    reveal_strlit("Skipped");
    assert("Pending"@.len() == 7 && "Running"@.len() == 7 && "AwaitingApproval"@.len() == 16
        && "Passed"@.len() == 6 && "Failed"@.len() == 6 && "Skipped"@.len() == 7);
    assert("Pending"@[0] == 'P' && "Running"@[0] == 'R' && "Skipped"@[0] == 'S' && "Passed"@[0]
        == 'P' && "Failed"@[0] == 'F');
}

/// A run that has a diff says so in its last line.
pub proof fn a_captured_diff_is_told(st: RunStateView, created: Seq<char>, updated: Seq<char>)
    requires
        has_key(st.artifacts, "DIFF"@),
    ensures
        run_text(st, created, updated).last() == "diff     captured"@,
{
}

} // verus!
