//! What `prune` deletes, asks and prints.

use crate::ids::WorkflowId;
use crate::ir::duration::{duration_seconds, HumanDuration};
use crate::names::views;
use crate::text::{
    chars_of, concat2, concat3, concat4, concat5, debug_quoted, decimal, decimal_of, lower_chars,
    lowered, opt_text, quote_debug, text_eq, text_of, texts, trim, trimmed,
};
use vstd::prelude::*;

verus! {

/// The most seconds an age can have.
pub open spec fn max_age_secs() -> u64 {
    9_223_372_036_854_775
}

/// `chrono::Duration::from_std`: the same number of seconds, or nothing when it is more than
/// chrono can hold.
#[verifier::external_body]
fn age_of(secs: u64) -> (r: Option<i64>)
    ensures
        r == (if secs <= max_age_secs() {
            Some(secs as i64)
        } else {
            None
        }),
{
    chrono::Duration::from_std(std::time::Duration::from_secs(secs)).ok().map(|d| d.num_seconds())
}

/// Which terminal runs are deleted: those older than an age, those beyond a count, or both; of
/// one workflow or of all.
#[derive(Debug)]
pub struct PrunePolicy {
    /// In seconds.
    pub max_age: Option<i64>,
    pub keep_last: Option<u32>,
    pub workflow: Option<WorkflowId>,
}

impl PrunePolicy {
    /// Whether nothing limits what is kept.
    pub fn is_noop(&self) -> (r: bool)
        ensures
            r == (self.max_age is None && self.keep_last is None),
    {
        self.max_age.is_none() && self.keep_last.is_none()
    }
}

/// The age that a text names, or why it names none.
pub open spec fn parsed_age(s: Seq<char>) -> Result<i64, Seq<char>> {
    match duration_seconds(s) {
        Err(e) => Err("--older-than: "@ + e),
        Ok(n) => if n <= max_age_secs() {
            Ok(n as i64)
        } else {
            Err("--older-than "@ + debug_quoted(s) + " is too large"@)
        },
    }
}

fn parse_age(s: &str) -> (r: Result<i64, String>)
    ensures
        match r {
            Ok(n) => parsed_age(s@) == Ok::<i64, Seq<char>>(n),
            Err(e) => parsed_age(s@) == Err::<i64, Seq<char>>(e@),
        },
{
    match HumanDuration::parse(s) {
        Err(e) => Err(concat2("--older-than: ", &e)),
        Ok(d) => match age_of(d.as_duration().as_secs()) {
            Some(n) => Ok(n),
            None => {
                let q = quote_debug(s);
                Err(concat3("--older-than ", &q, " is too large"))
            },
        },
    }
}

/// The policy of a command, or why there is none: an age has to parse, and without an age or a
/// count nothing is deleted.
pub fn build_policy(older_than: &Option<String>, keep_last: Option<u32>, workflow: &Option<String>)
    -> (r: Result<PrunePolicy, String>)
    ensures
        match r {
            Ok(p) => policy_of(opt_text(*older_than), keep_last, opt_text(*workflow)) == Ok::<
                (Option<i64>, Option<u32>, Option<Seq<char>>),
                Seq<char>,
            >((p.max_age, p.keep_last, match p.workflow {
                Some(w) => Some(w@),
                None => None,
            })),
            Err(e) => policy_of(opt_text(*older_than), keep_last, opt_text(*workflow)) == Err::<
                (Option<i64>, Option<u32>, Option<Seq<char>>),
                Seq<char>,
            >(e@),
        },
        ({
            let age = match older_than {
                Some(s) => match parsed_age(s@) {
                    Ok(n) => Ok(Some(n)),
                    Err(e) => Err(e),
                },
                None => Ok(None),
            };
            match age {
                Err(e) => r matches Err(x) && x@ == e,
                Ok(max_age) => if max_age is None && keep_last is None {
                    r matches Err(x) && x@
                        == "refusing to prune with no age or count limit (use --older-than and/or --keep-last)"@
                } else {
                    r matches Ok(p) && p.max_age == max_age && p.keep_last == keep_last && (
                    match p.workflow {
                        Some(w) => opt_text(*workflow) == Some(w@),
                        None => opt_text(*workflow) is None,
                    })
                },
            }
        }),
{
    let max_age = match older_than {
        Some(s) => match parse_age(s) {
            Ok(n) => Some(n),
            Err(e) => {
                return Err(e);
            },
        },
        None => None,
    };
    let workflow = match workflow {
        Some(w) => Some(WorkflowId::new(w)),
        None => None,
    };
    let policy = PrunePolicy { max_age, keep_last, workflow };
    if policy.is_noop() {
        return Err(
            "refusing to prune with no age or count limit (use --older-than and/or --keep-last)".to_owned(),
        );
    }
    Ok(policy)
}

/// Whether an answer agrees.
pub open spec fn agrees(line: Seq<char>) -> bool {
    lowered(trimmed(line)) == "y"@ || lowered(trimmed(line)) == "yes"@
}

/// How a prune begins.
#[derive(Clone, Copy, Debug, PartialEq, Eq, Structural)]
pub enum PruneStart {
    /// Only say what would be deleted.
    Report,
    /// Say what would be deleted, and ask.
    Ask,
    /// Delete without asking.
    Delete,
}

/// How a prune begins: a dry run only reports, and nothing is deleted before a yes.
pub open spec fn prune_begins(dry_run: bool, yes: bool) -> PruneStart {
    if dry_run {
        PruneStart::Report
    } else if yes {
        PruneStart::Delete
    } else {
        PruneStart::Ask
    }
}

/// The policy of a command: its age, count and workflow, or why there is none.
pub open spec fn policy_of(
    older_than: Option<Seq<char>>,
    keep_last: Option<u32>,
    workflow: Option<Seq<char>>,
) -> Result<(Option<i64>, Option<u32>, Option<Seq<char>>), Seq<char>> {
    let age = match older_than {
        Some(s) => match parsed_age(s) {
            Ok(n) => Ok(Some(n)),
            Err(e) => Err(e),
        },
        None => Ok(None),
    };
    match age {
        Err(e) => Err(e),
        Ok(max_age) => if max_age is None && keep_last is None {
            Err(
                "refusing to prune with no age or count limit (use --older-than and/or --keep-last)"@,
            )
        } else {
            Ok((max_age, keep_last, workflow))
        },
    }
}

/// How a prune begins: a dry run deletes nothing, and without `--yes` somebody is asked.
pub fn prune_start(dry_run: bool, yes: bool) -> (r: PruneStart)
    ensures
        r == prune_begins(dry_run, yes),
        r == (if dry_run {
            PruneStart::Report
        } else if yes {
            PruneStart::Delete
        } else {
            PruneStart::Ask
        }),
{
    if dry_run {
        PruneStart::Report
    } else if yes {
        PruneStart::Delete
    } else {
        PruneStart::Ask
    }
}

/// Why a prune that asks ends without deleting anything, if it does: there is nothing to delete,
/// or the answer was no.
pub fn prune_stop(runs: u64, agreed: bool) -> (r: Option<&'static str>)
    ensures
        match r {
            Some(t) => if runs == 0 {
                t@ == "Nothing to prune."@
            } else {
                !agreed && t@ == "Aborted; nothing was pruned."@
            },
            None => runs > 0 && agreed,
        },
{
    if runs == 0 {
        Some("Nothing to prune.")
    } else if !agreed {
        Some("Aborted; nothing was pruned.")
    } else {
        None
    }
}

/// Whether an answer agrees: `y` or `yes`.
pub fn confirmed(line: &str) -> (r: bool)
    ensures
        r == agrees(line@),
{
    let t = trim(line);
    let v = chars_of(&t);
    let l = lower_chars(&v);
    let s = text_of(&l);
    text_eq(&s, "y") || text_eq(&s, "yes")
}

/// How many runs of a workflow and status were deleted.
#[derive(Debug)]
pub struct PrunedCount {
    pub workflow: String,
    pub status: String,
    pub count: u64,
}

/// The mathematical form of a [`PrunedCount`].
#[verifier::ext_equal]
pub struct PrunedCountView {
    pub workflow: Seq<char>,
    pub status: Seq<char>,
    pub count: u64,
}

impl View for PrunedCount {
    type V = PrunedCountView;

    open spec fn view(&self) -> PrunedCountView {
        PrunedCountView { workflow: self.workflow@, status: self.status@, count: self.count }
    }
}

/// What was deleted, or would be.
#[derive(Debug)]
pub struct PruneReport {
    pub runs_pruned: u64,
    pub events_pruned: u64,
    pub per_workflow: Vec<PrunedCount>,
    pub dry_run: bool,
}

/// The first line of a report.
pub open spec fn report_head(r: PruneReport) -> Seq<char> {
    (if r.dry_run {
        "Would prune"@
    } else {
        "Pruned"@
    }) + " "@ + decimal(r.runs_pruned as nat) + " run(s), "@ + decimal(r.events_pruned as nat)
        + " event(s):"@
}

/// The line of a workflow and status.
pub open spec fn count_line(c: PrunedCountView) -> Seq<char> {
    "  "@ + decimal(c.count as nat) + " "@ + c.workflow + " × "@ + c.status
}

/// The lines of a report.
pub open spec fn report_text(r: PruneReport) -> Seq<Seq<char>> {
    seq![report_head(r)] + Seq::new(
        r.per_workflow@.len(),
        |i: int| count_line(views(r.per_workflow@)[i]),
    )
}

/// The lines of a report.
pub fn report_lines(r: &PruneReport) -> (out: Vec<String>)
    ensures
        texts(out@) == report_text(*r),
{
    let verb = if r.dry_run {
        "Would prune"
    } else {
        "Pruned"
    };
    let runs = decimal_of(r.runs_pruned as u128);
    let events = decimal_of(r.events_pruned as u128);
    let head = concat5(verb, " ", &runs, " run(s), ", &events);
    let mut out: Vec<String> = Vec::new();
    out.push(concat2(&head, " event(s):"));
    let ghost want = report_text(*r);
    assert(texts(out@) =~= want.take(1));
    let mut i: usize = 0;
    while i < r.per_workflow.len()
        invariant
            i <= r.per_workflow.len(),
            want == report_text(*r),
            texts(out@) == want.take(i + 1),
        decreases r.per_workflow.len() - i,
    {
        let ghost was = out@;
        let c = &r.per_workflow[i];
        assert(views(r.per_workflow@)[i as int] == c@);
        let n = decimal_of(c.count as u128);
        let head = concat4("  ", &n, " ", &c.workflow);
        let x = concat3(&head, " × ", &c.status);
        out.push(x);
        assert(texts(out@) =~= texts(was).push(x@));
        assert(want[i + 1] == count_line(c@));
        assert(want.take(i + 2) =~= want.take(i + 1).push(want[i + 1]));
        i += 1;
    }
    assert(want.take(i + 1) =~= want);
    out
}

/// Only a yes agrees, written out or by its first letter, in any case and with space around it.
pub proof fn only_a_yes_agrees(line: Seq<char>, other: Seq<char>)
    ensures
        lowered(trimmed(line)) == "y"@ ==> agrees(line),
        lowered(trimmed(line)) == "yes"@ ==> agrees(line),
        agrees(line) && lowered(trimmed(other)) == lowered(trimmed(line)) ==> agrees(other),
        trimmed(line).len() == 0 ==> !agrees(line),
        agrees(line) ==> trimmed(line).len() == 1 || trimmed(line).len() == 3,
{
    reveal_strlit("y");
    reveal_strlit("yes");
    assert("y"@.len() == 1 && "yes"@.len() == 3);
    assert(lowered(trimmed(line)).len() == trimmed(line).len());
}

/// An age is the duration it names, or is refused with what is wrong with it.
pub proof fn an_age_is_its_duration(s: Seq<char>)
    ensures
        duration_seconds(s) matches Ok(n) ==> (n <= 9_223_372_036_854_775 ==> parsed_age(s) == Ok::<
            i64,
            Seq<char>,
        >(n as i64)) && (n > 9_223_372_036_854_775 ==> parsed_age(s) is Err),
        duration_seconds(s) matches Err(e) ==> parsed_age(s) == Err::<i64, Seq<char>>(
            "--older-than: "@ + e,
        ),
{
}

/// A report says first whether it was done or would be, and then has a line for each count.
pub proof fn a_report_shows_every_count(r: PruneReport, i: int)
    ensures
        report_text(r).len() == r.per_workflow@.len() + 1,
        r.dry_run ==> report_text(r)[0] == "Would prune"@ + " "@ + decimal(r.runs_pruned as nat)
            + " run(s), "@ + decimal(r.events_pruned as nat) + " event(s):"@,
        !r.dry_run ==> report_text(r)[0] == "Pruned"@ + " "@ + decimal(r.runs_pruned as nat)
            + " run(s), "@ + decimal(r.events_pruned as nat) + " event(s):"@,
        0 <= i < r.per_workflow@.len() ==> report_text(r)[i + 1] == "  "@ + decimal(
            r.per_workflow@[i].count as nat,
        ) + " "@ + r.per_workflow@[i].workflow@ + " × "@ + r.per_workflow@[i].status@,
{
}

/// A dry run deletes nothing, whatever else was asked for, and without a yes nothing is deleted
/// unasked.
pub proof fn a_dry_run_deletes_nothing(dry_run: bool, yes: bool)
    ensures
        (prune_begins(dry_run, yes) is Delete) == (yes && !dry_run),
        (prune_begins(dry_run, yes) is Report) == dry_run,
        (prune_begins(dry_run, yes) is Ask) == (!yes && !dry_run),
{
}

/// Nothing is pruned without a limit, and a policy holds the limits that were given.
pub proof fn a_prune_needs_a_limit(
    older_than: Option<Seq<char>>,
    keep_last: Option<u32>,
    workflow: Option<Seq<char>>,
)
    ensures
        older_than is None && keep_last is None ==> policy_of(older_than, keep_last, workflow) is Err,
        older_than is None && keep_last is Some ==> (policy_of(
            older_than,
            keep_last,
            workflow,
        ) matches Ok(p) && p.0 is None && p.1 == keep_last && p.2 == workflow),
        older_than matches Some(s) ==> match duration_seconds(s) {
            Ok(n) => n <= 9_223_372_036_854_775 ==> (policy_of(
                older_than,
                keep_last,
                workflow,
            ) matches Ok(p) && p.0 == Some(n as i64) && p.1 == keep_last && p.2 == workflow),
            Err(_) => policy_of(older_than, keep_last, workflow) is Err,
        },
{
}

} // verus!
