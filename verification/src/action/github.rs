//! The `github.open_pr` action.

use super::command::{arg_str, arg_str_or, arg_text, finished_opt, missing_arg, text_arg, text_arg_or};
use super::git::looks_like_an_option;
use crate::api::{SideEffect, SideEffectView};
use crate::engine::dispatch::{ActionOutcome, ActionOutcomeView, ProcessOutput};
use crate::engine::git::{list3, list6};
use crate::error::ActionError;
use crate::json::{json_parsed, member, parse_json, Value, ValueView};
use crate::names::{lookup, put, views, OrderedMap};
use crate::text::{
    chars_of, concat2, concat5, debug_quoted, decimal, decimal_of, drop_slashes, filled, filled_lines, lines_of,
    opt_text, parse_unsigned, quote_debug, split, split_on, starts_with_char, text_eq,
    texts, trim, trimmed, unsigned_value, without_slashes,
};
use vstd::prelude::*;

verus! {

/// `github.open_pr`: open a pull request with the `gh` command line. Arguments: `title`
/// (required), `body`, `base` and `head`. An open pull request on the head branch is found again
/// instead of opening another.
pub struct OpenPr;

// ---------------------------------------------------------------------------------------------
// What gh prints
// ---------------------------------------------------------------------------------------------
/// A pull request's number and URL, from its JSON members.
pub open spec fn pr_fields(number: ValueView, url: ValueView) -> Option<(u64, Seq<char>)> {
    match (number, url) {
        (ValueView::Number(n), ValueView::String(u)) => match unsigned_value(n, u64::MAX as nat) {
            Some(k) => Some((k as u64, u)),
            None => None,
        },
        _ => None,
    }
}

/// A pull request's number and URL, from its JSON members.
pub fn pr_from_fields(number: &Value, url: &Value) -> (r: Option<(u64, String)>)
    ensures
        match r {
            Some((n, u)) => pr_fields(number@, url@) == Some((n, u@)),
            None => pr_fields(number@, url@) is None,
        },
{
    match (number, url) {
        (Value::Number(n), Value::String(u)) => {
            let v = chars_of(n);
            match parse_unsigned(&v, u64::MAX) {
                Some(k) => Some((k, u.clone())),
                None => None,
            }
        },
        _ => None,
    }
}

/// A pull request's number and URL, from its JSON object.
pub open spec fn pr_object(v: ValueView) -> Option<(u64, Seq<char>)> {
    match v {
        ValueView::Object(m) => match (member(m, "number"@), member(m, "url"@)) {
            (Some(n), Some(u)) => match (json_parsed(n), json_parsed(u)) {
                (Some(nv), Some(uv)) => pr_fields(nv, uv),
                _ => None,
            },
            _ => None,
        },
        _ => None,
    }
}

/// The first pull request of a listing.
pub open spec fn first_pr_of(stdout: Seq<char>) -> Option<(u64, Seq<char>)> {
    match json_parsed(trimmed(stdout)) {
        Some(ValueView::Array(items)) => if items.len() == 0 {
            None
        } else {
            match json_parsed(items[0]) {
                Some(v) => pr_object(v),
                None => None,
            }
        },
        _ => None,
    }
}

fn pr_from_object(v: &Value) -> (r: Option<(u64, String)>)
    ensures
        match r {
            Some((n, u)) => pr_object(v@) == Some((n, u@)),
            None => pr_object(v@) is None,
        },
{
    match (v.get("number"), v.get("url")) {
        (Some(n), Some(u)) => match (parse_json(n), parse_json(u)) {
            (Some(nv), Some(uv)) => pr_from_fields(&nv, &uv),
            _ => None,
        },
        _ => None,
    }
}

/// The number and URL of the first pull request of a listing (a JSON array).
pub fn first_pr(stdout: &str) -> (r: Option<(u64, String)>)
    ensures
        match r {
            Some((n, u)) => first_pr_of(stdout@) == Some((n, u@)),
            None => first_pr_of(stdout@) is None,
        },
{
    let t = trim(stdout);
    match parse_json(&t) {
        Some(Value::Array(items)) => {
            if items.len() == 0 {
                return None;
            }
            assert(texts(items@)[0] == items@[0]@);
            match parse_json(&items[0]) {
                Some(v) => pr_from_object(&v),
                None => None,
            }
        },
        _ => None,
    }
}

/// The last piece that is not empty; empty when there is none.
pub open spec fn last_filled(pieces: Seq<Seq<char>>) -> Seq<char>
    decreases pieces.len(),
{
    if pieces.len() == 0 {
        Seq::empty()
    } else if pieces.last().len() > 0 {
        pieces.last()
    } else {
        last_filled(pieces.drop_last())
    }
}

/// The URL a created pull request has: the last line that is not blank.
pub open spec fn created_url(stdout: Seq<char>) -> Seq<char> {
    let ls = filled_lines(lines_of(stdout));
    without_slashes(
        if ls.len() > 0 {
            ls.last()
        } else {
            Seq::empty()
        },
    )
}

/// The number in a pull request's URL: its last path segment, zero when that is no number.
pub open spec fn url_number(url: Seq<char>) -> u64 {
    match unsigned_value(last_filled(split_on(url, '/')), u64::MAX as nat) {
        Some(n) => n as u64,
        None => 0,
    }
}

fn number_in(url: &str) -> (r: u64)
    ensures
        r == url_number(url@),
{
    let pieces = split(url, '/');
    let ghost ps = texts(pieces@);
    let mut n: usize = pieces.len();
    assert(ps.take(n as int) =~= ps);
    while n > 0 && pieces[n - 1].as_str().is_empty()
        invariant
            n <= pieces.len(),
            ps == texts(pieces@),
            last_filled(ps.take(n as int)) == last_filled(ps),
        decreases n,
    {
        assert(ps.take(n as int).drop_last() =~= ps.take(n - 1));
        assert(ps.take(n as int).last() == pieces@[n - 1]@);
        n -= 1;
    }
    if n == 0 {
        return 0;
    }
    assert(ps.take(n as int).last() == pieces@[n - 1]@);
    let v = chars_of(&pieces[n - 1]);
    match parse_unsigned(&v, u64::MAX) {
        Some(k) => k,
        None => 0,
    }
}

/// The number and URL of a pull request that was created, from what `gh` printed.
pub fn created_pr(stdout: &str) -> (r: (u64, String))
    ensures
        r.1@ == created_url(stdout@),
        r.0 == url_number(created_url(stdout@)),
{
    let ls = filled(stdout);
    let line = if ls.len() > 0 {
        ls[ls.len() - 1].clone()
    } else {
        String::new()
    };
    assert(ls@.len() > 0 ==> texts(ls@).last() == ls@.last()@);
    let url = drop_slashes(&line);
    let number = number_in(&url);
    (number, url)
}

/// What a pull request comes to, whether it was found or created.
pub open spec fn pr_result(number: u64, url: Seq<char>) -> ActionOutcomeView {
    ActionOutcomeView {
        exit_code: 0,
        outputs: put(
            put(Seq::empty(), "url"@, ValueView::String(url)),
            "number"@,
            ValueView::Number(decimal(number as nat)),
        ),
        stderr: Seq::empty(),
        side_effects: seq![SideEffectView::PullRequest { url, number }],
    }
}

/// What a pull request comes to.
pub fn pr_outcome(number: u64, url: String) -> (r: ActionOutcome)
    ensures
        r@ == pr_result(number, url@),
{
    let mut outputs: OrderedMap<Value> = OrderedMap::new();
    outputs.insert("url".to_owned(), Value::String(url.clone()));
    outputs.insert("number".to_owned(), Value::Number(decimal_of(number as u128)));
    let effect = SideEffect::pull_request(&url, number);
    let mut side_effects: Vec<SideEffect> = Vec::new();
    side_effects.push(effect);
    assert(views(side_effects@) =~= seq![effect@]);
    ActionOutcome { exit_code: 0, outputs, stderr: String::new(), side_effects }
}

// ---------------------------------------------------------------------------------------------
// Opening
// ---------------------------------------------------------------------------------------------
/// Where the opening of a pull request stands.
#[derive(Clone, Copy, Debug, PartialEq, Eq, Structural)]
pub enum PrStage {
    /// Read the current branch.
    Branch,
    /// Look for an open pull request on the head branch.
    Find,
    /// Create one.
    Create,
}

/// A pull request being opened.
#[derive(Debug)]
pub struct PrRun {
    stage: PrStage,
    title: String,
    body: String,
    base: Option<String>,
    head: Option<String>,
    /// The head branch, once it is known.
    branch: String,
}

/// The mathematical form of a [`PrRun`].
#[verifier::ext_equal]
pub struct PrView {
    pub stage: PrStage,
    pub title: Seq<char>,
    pub body: Seq<char>,
    pub base: Option<Seq<char>>,
    pub head: Option<Seq<char>>,
    pub branch: Seq<char>,
}

impl View for PrRun {
    type V = PrView;

    closed spec fn view(&self) -> PrView {
        PrView {
            stage: self.stage,
            title: self.title@,
            body: self.body@,
            base: opt_text(self.base),
            head: opt_text(self.head),
            branch: self.branch@,
        }
    }
}

/// Whether an optional name would be read as an option.
pub open spec fn is_flag(o: Option<Seq<char>>) -> bool {
    o matches Some(s) && looks_like_an_option(s)
}

/// Why a branch is refused.
pub open spec fn branch_refusal(which: Seq<char>, name: Seq<char>) -> Seq<char> {
    "github.open_pr "@ + which + " "@ + debug_quoted(name)
        + " is not a valid branch (must not start with '-')"@
}

/// The program and arguments of a stage.
pub open spec fn pr_words(p: PrView) -> (Seq<char>, Seq<Seq<char>>) {
    match p.stage {
        PrStage::Branch => ("git"@, seq!["rev-parse"@, "--abbrev-ref"@, "HEAD"@]),
        PrStage::Find => (
            "gh"@,
            seq![
                "pr"@,
                "list"@,
                "--head"@,
                p.branch,
                "--state"@,
                "open"@,
                "--json"@,
                "number,url"@,
                "--limit"@,
                "1"@,
            ],
        ),
        PrStage::Create => (
            "gh"@,
            seq!["pr"@, "create"@, "--title"@, p.title, "--body"@, p.body] + (match p.base {
                Some(b) => seq!["--base"@, b],
                None => Seq::empty(),
            }) + (match p.head {
                Some(h) => seq!["--head"@, h],
                None => Seq::empty(),
            }),
        ),
    }
}

/// The branch that a command printed; none when the checkout is detached.
pub open spec fn current_branch_of(result: Result<ProcessOutput, String>) -> Option<Seq<char>> {
    match result {
        Ok(p) => if p.exit_code == 0 && trimmed(p.stdout@).len() > 0 && trimmed(p.stdout@)
            != "HEAD"@ {
            Some(trimmed(p.stdout@))
        } else {
            None
        },
        Err(_) => None,
    }
}

/// The branch that a command printed; none when the checkout is detached.
pub fn current_branch(result: &Result<ProcessOutput, String>) -> (r: Option<String>)
    ensures
        opt_text(r) == current_branch_of(*result),
{
    match result {
        Ok(p) => {
            if p.exit_code != 0 {
                return None;
            }
            let b = trim(&p.stdout);
            if b.as_str().is_empty() || text_eq(&b, "HEAD") {
                None
            } else {
                Some(b)
            }
        },
        Err(_) => None,
    }
}

/// The open pull request that a listing command found.
pub open spec fn found_pr(result: Result<ProcessOutput, String>) -> Option<(u64, Seq<char>)> {
    match result {
        Ok(p) => if p.exit_code == 0 {
            first_pr_of(p.stdout@)
        } else {
            None
        },
        Err(_) => None,
    }
}

/// The opening after its command ran, and what the action came to if it is over. Looking for the
/// branch and for an open pull request is best effort; creating one has to succeed.
pub open spec fn pr_next(p: PrView, result: Result<ProcessOutput, String>) -> (
    PrView,
    Option<Result<ActionOutcomeView, Seq<char>>>,
) {
    match p.stage {
        PrStage::Branch => match current_branch_of(result) {
            Some(branch) => (PrView { stage: PrStage::Find, branch, ..p }, None),
            None => (PrView { stage: PrStage::Create, ..p }, None),
        },
        PrStage::Find => match found_pr(result) {
            Some((number, url)) => (p, Some(Ok(pr_result(number, url)))),
            None => (PrView { stage: PrStage::Create, ..p }, None),
        },
        PrStage::Create => match result {
            Ok(out) => if out.exit_code == 0 {
                let url = created_url(out.stdout@);
                (p, Some(Ok(pr_result(url_number(url), url))))
            } else {
                (p, Some(Err("gh pr create failed: "@ + trimmed(out.stderr@))))
            },
            Err(e) => (p, Some(Err(e@))),
        },
    }
}

/// The opening that arguments begin, if they can begin one.
pub open spec fn pr_begun(args: Seq<(Seq<char>, ValueView)>) -> Option<PrView> {
    let base = text_arg(args, "base"@);
    let head = text_arg(args, "head"@);
    if text_arg(args, "title"@) is None || is_flag(base) || is_flag(head) {
        None
    } else {
        Some(
            PrView {
                stage: if head is Some {
                    PrStage::Find
                } else {
                    PrStage::Branch
                },
                title: text_arg(args, "title"@)->0,
                body: text_arg_or(args, "body"@, Seq::empty()),
                base,
                head,
                branch: match head {
                    Some(h) => h,
                    None => Seq::empty(),
                },
            },
        )
    }
}

/// The opening after some of its commands ran.
pub open spec fn pr_after(p: PrView, results: Seq<Result<ProcessOutput, String>>) -> PrView
    decreases results.len(),
{
    if results.len() == 0 {
        p
    } else {
        pr_next(pr_after(p, results.drop_last()), results.last()).0
    }
}

fn check_branch(which: &str, name: &Option<String>) -> (r: Option<ActionError>)
    ensures
        if is_flag(opt_text(*name)) {
            r matches Some(ActionError::Other(m)) && m@ == branch_refusal(which@, name->0@)
        } else {
            r is None
        },
{
    match name {
        Some(n) => if starts_with_char(n, '-') {
            let q = quote_debug(n);
            Some(
                ActionError::Other(
                    concat5(
                        "github.open_pr ",
                        which,
                        " ",
                        &q,
                        " is not a valid branch (must not start with '-')",
                    ),
                ),
            )
        } else {
            None
        },
        None => None,
    }
}

impl OpenPr {
    /// The name workflows use.
    pub fn name(&self) -> (r: &'static str)
        ensures
            r@ == "github.open_pr"@,
    {
        "github.open_pr"
    }

    /// Starts the opening of a pull request. The argument `title` is required, and a base or head
    /// that `gh` would read as a flag is refused.
    pub fn begin(&self, args: &OrderedMap<Value>) -> (r: Result<PrRun, ActionError>)
        ensures
            match pr_begun(args@) {
                Some(p) => r matches Ok(x) && x@ == p,
                None => r is Err,
            },
            ({
                let title = text_arg(args@, "title"@);
                let base = text_arg(args@, "base"@);
                let head = text_arg(args@, "head"@);
                if title is None {
                    r matches Err(ActionError::Other(m)) && m@ == missing_arg("title"@)
                } else if is_flag(base) {
                    r matches Err(ActionError::Other(m)) && m@ == branch_refusal("base"@, base->0)
                } else if is_flag(head) {
                    r matches Err(ActionError::Other(m)) && m@ == branch_refusal("head"@, head->0)
                } else {
                    r matches Ok(x) && x@ == (PrView {
                        stage: if head is Some {
                            PrStage::Find
                        } else {
                            PrStage::Branch
                        },
                        title: title->0,
                        body: text_arg_or(args@, "body"@, Seq::empty()),
                        base,
                        head,
                        branch: match head {
                            Some(h) => h,
                            None => Seq::empty(),
                        },
                    })
                }
            }),
    {
        let title = match arg_str(args, "title") {
            Ok(t) => t,
            Err(e) => {
                return Err(e);
            },
        };
        let body = arg_str_or(args, "body", "");
        proof {
            reveal_strlit("");
            assert(""@ =~= Seq::<char>::empty());
        }
        let base = arg_text(args, "base");
        let head = arg_text(args, "head");
        if let Some(e) = check_branch("base", &base) {
            return Err(e);
        }
        if let Some(e) = check_branch("head", &head) {
            return Err(e);
        }
        let (stage, branch) = match &head {
            Some(h) => (PrStage::Find, h.clone()),
            None => (PrStage::Branch, String::new()),
        };
        Ok(PrRun { stage, title, body, base, head, branch })
    }
}

impl PrRun {
    /// The program and arguments of the command to run now.
    pub fn command(&self) -> (r: (String, Vec<String>))
        ensures
            (r.0@, texts(r.1@)) == pr_words(self@),
    {
        match self.stage {
            PrStage::Branch => (
                "git".to_owned(),
                list3("rev-parse", "--abbrev-ref", "HEAD"),
            ),
            PrStage::Find => {
                let mut v = list6("pr", "list", "--head", &self.branch, "--state", "open");
                let ghost six = texts(v@);
                v.push("--json".to_owned());
                v.push("number,url".to_owned());
                v.push("--limit".to_owned());
                v.push("1".to_owned());
                assert(texts(v@) =~= six + seq!["--json"@, "number,url"@, "--limit"@, "1"@]);
                assert(texts(v@) =~= pr_words(self@).1);
                ("gh".to_owned(), v)
            },
            PrStage::Create => {
                let mut v = list6("pr", "create", "--title", &self.title, "--body", &self.body);
                let ghost six = texts(v@);
                if let Some(b) = &self.base {
                    v.push("--base".to_owned());
                    v.push(b.clone());
                }
                let ghost upto = texts(v@);
                assert(upto =~= six + (match self@.base {
                    Some(b) => seq!["--base"@, b],
                    None => Seq::empty(),
                }));
                if let Some(h) = &self.head {
                    v.push("--head".to_owned());
                    v.push(h.clone());
                }
                assert(texts(v@) =~= upto + (match self@.head {
                    Some(h) => seq!["--head"@, h],
                    None => Seq::empty(),
                }));
                ("gh".to_owned(), v)
            },
        }
    }

    /// Takes in what the command gave. What the action came to, or none when there is another
    /// command.
    pub fn ran(&mut self, result: Result<ProcessOutput, String>) -> (r: Option<
        Result<ActionOutcome, ActionError>,
    >)
        ensures
            (final(self)@, finished_opt(r)) == pr_next(old(self)@, result),
    {
        match self.stage {
            PrStage::Branch => {
                match current_branch(&result) {
                    Some(b) => {
                        self.branch = b;
                        self.stage = PrStage::Find;
                    },
                    None => {
                        self.stage = PrStage::Create;
                    },
                }
                None
            },
            PrStage::Find => {
                if let Ok(p) = &result {
                    if p.exit_code == 0 {
                        if let Some((number, url)) = first_pr(&p.stdout) {
                            return Some(Ok(pr_outcome(number, url)));
                        }
                    }
                }
                self.stage = PrStage::Create;
                None
            },
            PrStage::Create => match result {
                Ok(p) => {
                    if p.exit_code != 0 {
                        let why = trim(&p.stderr);
                        return Some(
                            Err(ActionError::Other(concat2("gh pr create failed: ", &why))),
                        );
                    }
                    let (number, url) = created_pr(&p.stdout);
                    Some(Ok(pr_outcome(number, url)))
                },
                Err(e) => Some(Err(ActionError::Other(e))),
            },
        }
    }
}

/// A pull request that is already open on the head branch is found again: nothing is created.
pub proof fn an_open_pr_is_found_again(
    p: PrView,
    result: Result<ProcessOutput, String>,
    number: u64,
    url: Seq<char>,
)
    requires
        p.stage == PrStage::Find,
        found_pr(result) == Some((number, url)),
    ensures
        pr_next(p, result).1 == Some(Ok::<ActionOutcomeView, Seq<char>>(pr_result(number, url))),
{
}

proof fn lemma_pr_keeps_its_texts(p: PrView, results: Seq<Result<ProcessOutput, String>>)
    ensures
        ({
            let q = pr_after(p, results);
            q.title == p.title && q.body == p.body && q.base == p.base && q.head == p.head
        }),
    decreases results.len(),
{
    if results.len() > 0 {
        lemma_pr_keeps_its_texts(p, results.drop_last());
    }
}

/// The pull request is created with what was asked for: the word behind `--title` is the argument
/// `title`, the one behind `--body` the argument `body` (empty when there is none), and `--base`
/// and `--head` stand with the arguments of their names, exactly when those were given. This holds
/// whatever the commands before it gave.
pub proof fn a_pull_request_is_created_as_asked(
    args: Seq<(Seq<char>, ValueView)>,
    results: Seq<Result<ProcessOutput, String>>,
    title: Seq<char>,
)
    requires
        pr_begun(args) is Some,
        pr_after(pr_begun(args)->0, results).stage == PrStage::Create,
        lookup(args, "title"@) == Some(ValueView::String(title)),
    ensures
        ({
            let (program, words) = pr_words(pr_after(pr_begun(args)->0, results));
            let body = lookup(args, "body"@);
            let base = lookup(args, "base"@);
            let head = lookup(args, "head"@);
            let at = if base matches Some(ValueView::String(_)) {
                8int
            } else {
                6int
            };
            &&& program == "gh"@
            &&& words.len() >= 6
            &&& words[0] == "pr"@ && words[1] == "create"@
            &&& words[2] == "--title"@ && words[3] == title
            &&& words[4] == "--body"@
            &&& words[5] == (match body {
                Some(ValueView::String(b)) => b,
                _ => Seq::empty(),
            })
            &&& base matches Some(ValueView::String(b)) ==> words.len() >= 8 && words[6]
                == "--base"@ && words[7] == b
            &&& head matches Some(ValueView::String(h)) ==> words.len() == at + 2 && words[at]
                == "--head"@ && words[at + 1] == h
            &&& !(head matches Some(ValueView::String(_))) ==> words.len() == at
        }),
{
    lemma_pr_keeps_its_texts(pr_begun(args)->0, results);
}

/// An open pull request is looked for on the branch that was asked for, and without one on the
/// branch that is checked out, and only then is one created.
pub proof fn a_pull_request_is_looked_for_first(
    args: Seq<(Seq<char>, ValueView)>,
    printed: ProcessOutput,
)
    requires
        pr_begun(args) is Some,
        printed.exit_code == 0,
        trimmed(printed.stdout@).len() > 0,
        trimmed(printed.stdout@) != "HEAD"@,
    ensures
        ({
            let p = pr_begun(args)->0;
            let found = if lookup(args, "head"@) matches Some(ValueView::String(_)) {
                p
            } else {
                pr_next(p, Ok(printed)).0
            };
            let branch = match lookup(args, "head"@) {
                Some(ValueView::String(h)) => h,
                _ => trimmed(printed.stdout@),
            };
            &&& !(lookup(args, "head"@) matches Some(ValueView::String(_))) ==> pr_words(p) == (
                "git"@,
                seq!["rev-parse"@, "--abbrev-ref"@, "HEAD"@],
            ) && pr_next(p, Ok(printed)).1 is None
            &&& found.stage == PrStage::Find
            &&& pr_words(found).0 == "gh"@
            &&& pr_words(found).1[0] == "pr"@ && pr_words(found).1[1] == "list"@
            &&& pr_words(found).1[2] == "--head"@ && pr_words(found).1[3] == branch
            &&& pr_words(found).1[4] == "--state"@ && pr_words(found).1[5] == "open"@
        }),
{
}

/// A base or head that begins with a dash begins no opening, and neither do arguments without a
/// title.
pub proof fn a_flag_is_no_branch(
    args: Seq<(Seq<char>, ValueView)>,
    key: Seq<char>,
    name: Seq<char>,
)
    requires
        key == "base"@ || key == "head"@,
        lookup(args, key) == Some(ValueView::String(name)),
        name.len() > 0,
        name[0] == '-',
    ensures
        pr_begun(args) is None,
{
}

/// A created pull request's number and URL are both reported, as outputs and as a side effect.
pub proof fn a_pull_request_is_reported(number: u64, url: Seq<char>)
    ensures
        ({
            let o = pr_result(number, url);
            &&& o.exit_code == 0
            &&& lookup(o.outputs, "url"@) == Some(ValueView::String(url))
            &&& lookup(o.outputs, "number"@) == Some(ValueView::Number(decimal(number as nat)))
            &&& o.side_effects == seq![SideEffectView::PullRequest { url, number }]
        }),
{
    reveal_strlit("url");
    reveal_strlit("number");
    let e = Seq::<(Seq<char>, ValueView)>::empty();
    let u = ValueView::String(url);
    let n = ValueView::Number(decimal(number as nat));
    assert("url"@.len() != "number"@.len());
    crate::names::lemma_put_get(e, "url"@, u, "url"@);
    crate::names::lemma_put_get(put(e, "url"@, u), "number"@, n, "url"@);
    crate::names::lemma_put_get(put(e, "url"@, u), "number"@, n, "number"@);
}

proof fn lemma_last_filled_line(ls: Seq<Seq<char>>, i: int)
    requires
        0 <= i < ls.len(),
        trimmed(ls[i]).len() > 0,
        forall|k: int| i < k < ls.len() ==> trimmed(#[trigger] ls[k]).len() == 0,
    ensures
        filled_lines(ls).len() > 0,
        filled_lines(ls).last() == trimmed(ls[i]),
    decreases ls.len(),
{
    if i < ls.len() - 1 {
        let d = ls.drop_last();
        assert(trimmed(ls[ls.len() - 1]).len() == 0);
        assert forall|k: int| i < k < d.len() implies trimmed(#[trigger] d[k]).len() == 0 by {
            assert(d[k] == ls[k]);
        }
        lemma_last_filled_line(d, i);
    }
}

/// The URL of a created pull request is the last line that is not blank.
pub proof fn the_last_line_is_the_url(stdout: Seq<char>, i: int)
    requires
        0 <= i < lines_of(stdout).len(),
        trimmed(lines_of(stdout)[i]).len() > 0,
        trimmed(lines_of(stdout)[i]).last() != '/',
        forall|k: int|
            i < k < lines_of(stdout).len() ==> trimmed(#[trigger] lines_of(stdout)[k]).len() == 0,
    ensures
        created_url(stdout) == trimmed(lines_of(stdout)[i]),
{
    lemma_last_filled_line(lines_of(stdout), i);
}

proof fn lemma_split_last(p: Seq<char>, c: char, d: Seq<char>)
    requires
        !d.contains(c),
    ensures
        split_on(p + seq![c] + d, c).len() > 0,
        split_on(p + seq![c] + d, c).last() == d,
    decreases p.len(),
{
    let s = p + seq![c] + d;
    let n = crate::text::char_index(s, c) as int;
    crate::text::lemma_char_index(s, c);
    assert(s[p.len() as int] == c);
    assert(n <= p.len());
    let rest = s.skip(n + 1);
    if n == p.len() {
        assert(rest =~= d);
        crate::text::lemma_char_index(d, c);
        assert(split_on(d, c) =~= seq![d]);
    } else {
        assert(rest =~= p.skip(n + 1) + seq![c] + d);
        lemma_split_last(p.skip(n + 1), c, d);
    }
    assert(split_on(s, c) =~= seq![s.take(n)] + split_on(rest, c));
}

/// The number of a pull request is the last segment of its URL.
pub proof fn a_url_ends_in_its_number(base: Seq<char>, n: u64)
    ensures
        url_number(base + seq!['/'] + decimal(n as nat)) == n,
{
    let d = decimal(n as nat);
    crate::text::lemma_decimal(n as nat);
    assert(!d.contains('/')) by {
        if d.contains('/') {
            let k = choose|k: int| 0 <= k < d.len() && d[k] == '/';
            assert(crate::text::is_digit(d[k]));
        }
    }
    lemma_split_last(base, '/', d);
    assert(crate::text::is_digit(d[0]));
    assert(d[0] != '+');
}

/// The branch that is checked out is what the command printed, unless it failed, printed nothing
/// or no branch is checked out.
pub proof fn the_printed_branch_is_current(p: ProcessOutput, e: String)
    ensures
        current_branch_of(Err(e)) is None,
        p.exit_code != 0 || trimmed(p.stdout@).len() == 0 || trimmed(p.stdout@) == "HEAD"@
            ==> current_branch_of(Ok(p)) is None,
        p.exit_code == 0 && trimmed(p.stdout@).len() > 0 && trimmed(p.stdout@) != "HEAD"@
            ==> current_branch_of(Ok(p)) == Some(trimmed(p.stdout@)),
{
}

/// The first pull request that a listing shows is found, with its number and its URL.
pub proof fn the_first_listed_pull_request_is_found(
    p: ProcessOutput,
    items: Seq<Seq<char>>,
    m: Seq<(Seq<char>, Seq<char>)>,
    number: Seq<char>,
    url: Seq<char>,
    n: u64,
    u: Seq<char>,
)
    requires
        p.exit_code == 0,
        json_parsed(trimmed(p.stdout@)) == Some(ValueView::Array(items)),
        items.len() > 0,
        json_parsed(items[0]) == Some(ValueView::Object(m)),
        member(m, "number"@) == Some(number),
        member(m, "url"@) == Some(url),
        json_parsed(number) == Some(ValueView::Number(decimal(n as nat))),
        json_parsed(url) == Some(ValueView::String(u)),
    ensures
        found_pr(Ok(p)) == Some((n, u)),
{
    let d = decimal(n as nat);
    crate::text::lemma_decimal(n as nat);
    assert(crate::text::is_digit(d[0]));
    assert(d[0] != '+');
}

} // verus!
