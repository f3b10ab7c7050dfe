//! The `git.commit` and `git.push` actions.

use super::command::{
    arg_str, arg_str_or, arg_text, checked, checked_output, finished_opt, missing_arg, text_arg,
    text_arg_or,
};
use crate::api::{SideEffect, SideEffectView};
use crate::engine::dispatch::{ActionOutcome, ActionOutcomeView, ProcessOutput};
use crate::engine::git::{list2, list3, list4};
use crate::error::ActionError;
use crate::json::{Value, ValueView};
use crate::names::{lookup, put, views, OrderedMap};
use crate::text::{
    concat5, debug_quoted, opt_text, quote_debug, starts_with_char, texts, trim, trimmed,
};
use vstd::prelude::*;

verus! {

/// `git.commit`: stage everything and commit with the argument `message`. Nothing to commit is a
/// success without a side effect.
pub struct GitCommit;

/// Where a commit stands.
#[derive(Clone, Copy, Debug, PartialEq, Eq, Structural)]
pub enum CommitStage {
    /// Stage everything.
    Add,
    /// See whether anything is staged.
    Staged,
    /// Commit.
    Commit,
    /// Read the commit's name.
    Sha,
    /// Read the branch's name.
    Branch,
}

/// A commit being made.
#[derive(Debug)]
pub struct CommitRun {
    stage: CommitStage,
    message: String,
    sha: String,
}

/// The mathematical form of a [`CommitRun`].
#[verifier::ext_equal]
pub struct CommitView {
    pub stage: CommitStage,
    pub message: Seq<char>,
    pub sha: Seq<char>,
}

impl View for CommitRun {
    type V = CommitView;

    closed spec fn view(&self) -> CommitView {
        CommitView { stage: self.stage, message: self.message@, sha: self.sha@ }
    }
}

/// The arguments of git at a stage of a commit.
pub open spec fn commit_words(c: CommitView) -> Seq<Seq<char>> {
    match c.stage {
        CommitStage::Add => seq!["add"@, "-A"@],
        CommitStage::Staged => seq!["diff"@, "--cached"@, "--name-only"@],
        CommitStage::Commit => seq!["commit"@, "-m"@, c.message],
        CommitStage::Sha => seq!["rev-parse"@, "HEAD"@],
        CommitStage::Branch => seq!["rev-parse"@, "--abbrev-ref"@, "HEAD"@],
    }
}

/// The commit that arguments begin, if they can begin one.
pub open spec fn commit_begun(args: Seq<(Seq<char>, ValueView)>) -> Option<CommitView> {
    match text_arg(args, "message"@) {
        Some(m) => Some(CommitView { stage: CommitStage::Add, message: m, sha: Seq::empty() }),
        None => None,
    }
}

/// An action that had nothing to do.
pub open spec fn nothing_done() -> ActionOutcomeView {
    ActionOutcomeView {
        exit_code: 0,
        outputs: Seq::empty(),
        stderr: Seq::empty(),
        side_effects: Seq::empty(),
    }
}

/// What a commit came to.
pub open spec fn committed(sha: Seq<char>, branch: Seq<char>) -> ActionOutcomeView {
    ActionOutcomeView {
        exit_code: 0,
        outputs: put(
            put(Seq::empty(), "sha"@, ValueView::String(sha)),
            "branch"@,
            ValueView::String(branch),
        ),
        stderr: Seq::empty(),
        side_effects: seq![SideEffectView::Commit { sha, branch: Some(branch) }],
    }
}

/// A commit after its command ran, and what the action came to if it is over: a command that
/// failed ends it, and so does having nothing staged.
pub open spec fn commit_next(c: CommitView, result: Result<ProcessOutput, String>) -> (
    CommitView,
    Option<Result<ActionOutcomeView, Seq<char>>>,
) {
    match checked_output("git"@, commit_words(c), result) {
        Err(e) => (c, Some(Err(e))),
        Ok(out) => match c.stage {
            CommitStage::Add => (CommitView { stage: CommitStage::Staged, ..c }, None),
            CommitStage::Staged => if trimmed(out).len() == 0 {
                (c, Some(Ok(nothing_done())))
            } else {
                (CommitView { stage: CommitStage::Commit, ..c }, None)
            },
            CommitStage::Commit => (CommitView { stage: CommitStage::Sha, ..c }, None),
            CommitStage::Sha => (
                CommitView { stage: CommitStage::Branch, sha: trimmed(out), ..c },
                None,
            ),
            CommitStage::Branch => (c, Some(Ok(committed(c.sha, trimmed(out))))),
        },
    }
}

fn no_effects() -> (r: Vec<SideEffect>)
    ensures
        views(r@) == Seq::<SideEffectView>::empty(),
{
    let v: Vec<SideEffect> = Vec::new();
    assert(views(v@) =~= Seq::<SideEffectView>::empty());
    v
}

fn one_effect(e: SideEffect) -> (r: Vec<SideEffect>)
    ensures
        views(r@) == seq![e@],
{
    let mut v: Vec<SideEffect> = Vec::new();
    v.push(e);
    assert(views(v@) =~= seq![e@]);
    v
}

impl GitCommit {
    /// The name workflows use.
    pub fn name(&self) -> (r: &'static str)
        ensures
            r@ == "git.commit"@,
    {
        "git.commit"
    }

    /// Starts a commit. The argument `message` is required.
    pub fn begin(&self, args: &OrderedMap<Value>) -> (r: Result<CommitRun, ActionError>)
        ensures
            match commit_begun(args@) {
                Some(c) => r matches Ok(x) && x@ == c,
                None => r is Err,
            },
            match text_arg(args@, "message"@) {
                Some(m) => r matches Ok(c) && c@ == (CommitView {
                    stage: CommitStage::Add,
                    message: m,
                    sha: Seq::empty(),
                }),
                None => r matches Err(ActionError::Other(m)) && m@ == missing_arg("message"@),
            },
    {
        match arg_str(args, "message") {
            Ok(message) => Ok(CommitRun { stage: CommitStage::Add, message, sha: String::new() }),
            Err(e) => Err(e),
        }
    }
}

impl CommitRun {
    /// The arguments of the git command to run now.
    pub fn command(&self) -> (r: Vec<String>)
        ensures
            texts(r@) == commit_words(self@),
    {
        match self.stage {
            CommitStage::Add => list2("add", "-A"),
            CommitStage::Staged => list3("diff", "--cached", "--name-only"),
            CommitStage::Commit => list3("commit", "-m", &self.message),
            CommitStage::Sha => list2("rev-parse", "HEAD"),
            CommitStage::Branch => list3("rev-parse", "--abbrev-ref", "HEAD"),
        }
    }

    /// Takes in what the command gave. What the action came to, or none when there is another
    /// command.
    pub fn ran(&mut self, result: Result<ProcessOutput, String>) -> (r: Option<
        Result<ActionOutcome, ActionError>,
    >)
        ensures
            (final(self)@, finished_opt(r)) == commit_next(old(self)@, result),
    {
        let words = self.command();
        let out = match checked("git", &words, result) {
            Ok(out) => out,
            Err(e) => {
                return Some(Err(e));
            },
        };
        match self.stage {
            CommitStage::Add => {
                self.stage = CommitStage::Staged;
                None
            },
            CommitStage::Staged => {
                let t = trim(&out);
                if t.as_str().is_empty() {
                    let o = ActionOutcome {
                        exit_code: 0,
                        outputs: OrderedMap::new(),
                        stderr: String::new(),
                        side_effects: no_effects(),
                    };
                    Some(Ok(o))
                } else {
                    self.stage = CommitStage::Commit;
                    None
                }
            },
            CommitStage::Commit => {
                self.stage = CommitStage::Sha;
                None
            },
            CommitStage::Sha => {
                self.sha = trim(&out);
                self.stage = CommitStage::Branch;
                None
            },
            CommitStage::Branch => {
                let branch = trim(&out);
                let mut outputs: OrderedMap<Value> = OrderedMap::new();
                outputs.insert("sha".to_owned(), Value::String(self.sha.clone()));
                outputs.insert("branch".to_owned(), Value::String(branch.clone()));
                let effect = SideEffect::commit(&self.sha, Some(branch));
                let o = ActionOutcome {
                    exit_code: 0,
                    outputs,
                    stderr: String::new(),
                    side_effects: one_effect(effect),
                };
                Some(Ok(o))
            },
        }
    }
}

/// `git.push`: push the run's branch to a remote (argument `remote`, default `origin`; argument
/// `branch`, default the current branch).
pub struct GitPush;

/// A push being made.
#[derive(Debug)]
pub struct PushRun {
    remote: String,
    /// The branch, once it is known.
    branch: Option<String>,
}

/// The mathematical form of a [`PushRun`].
#[verifier::ext_equal]
pub struct PushView {
    pub remote: Seq<char>,
    pub branch: Option<Seq<char>>,
}

impl View for PushRun {
    type V = PushView;

    closed spec fn view(&self) -> PushView {
        PushView { remote: self.remote@, branch: opt_text(self.branch) }
    }
}

/// Whether git would read a name as an option.
pub open spec fn looks_like_an_option(s: Seq<char>) -> bool {
    s.len() > 0 && s[0] == '-'
}

/// Why a push is refused.
pub open spec fn option_refusal(remote: Seq<char>, branch: Seq<char>) -> Seq<char> {
    "git.push: remote/branch must not start with '-' (remote="@ + debug_quoted(remote)
        + ", branch="@ + debug_quoted(branch) + ")"@
}

/// A push whose branch is known, unless it is refused.
pub open spec fn push_of(remote: Seq<char>, branch: Seq<char>) -> Result<PushView, Seq<char>> {
    if looks_like_an_option(remote) || looks_like_an_option(branch) {
        Err(option_refusal(remote, branch))
    } else {
        Ok(PushView { remote, branch: Some(branch) })
    }
}

/// The push that arguments begin, if they can begin one.
pub open spec fn push_begun(args: Seq<(Seq<char>, ValueView)>) -> Option<PushView> {
    let remote = text_arg_or(args, "remote"@, "origin"@);
    match text_arg(args, "branch"@) {
        Some(b) => match push_of(remote, b) {
            Ok(p) => Some(p),
            Err(_) => None,
        },
        None => Some(PushView { remote, branch: None }),
    }
}

/// The arguments of git at a stage of a push.
pub open spec fn push_words(p: PushView) -> Seq<Seq<char>> {
    match p.branch {
        Some(b) => seq!["push"@, "--set-upstream"@, p.remote, b],
        None => seq!["rev-parse"@, "--abbrev-ref"@, "HEAD"@],
    }
}

/// What a push came to.
pub open spec fn pushed(remote: Seq<char>, branch: Seq<char>) -> ActionOutcomeView {
    ActionOutcomeView {
        exit_code: 0,
        outputs: put(
            put(Seq::empty(), "branch"@, ValueView::String(branch)),
            "remote"@,
            ValueView::String(remote),
        ),
        stderr: Seq::empty(),
        side_effects: seq![SideEffectView::Push { branch, remote }],
    }
}

/// A push after its command ran, and what the action came to if it is over.
pub open spec fn push_next(p: PushView, result: Result<ProcessOutput, String>) -> (
    PushView,
    Option<Result<ActionOutcomeView, Seq<char>>>,
) {
    match checked_output("git"@, push_words(p), result) {
        Err(e) => (p, Some(Err(e))),
        Ok(out) => match p.branch {
            Some(b) => (p, Some(Ok(pushed(p.remote, b)))),
            None => match push_of(p.remote, trimmed(out)) {
                Ok(q) => (q, None),
                Err(e) => (p, Some(Err(e))),
            },
        },
    }
}

fn plan_push(remote: &str, branch: &str) -> (r: Result<PushRun, ActionError>)
    ensures
        match push_of(remote@, branch@) {
            Ok(p) => r matches Ok(x) && x@ == p,
            Err(e) => r matches Err(ActionError::Other(m)) && m@ == e,
        },
{
    if starts_with_char(remote, '-') || starts_with_char(branch, '-') {
        let r = quote_debug(remote);
        let b = quote_debug(branch);
        return Err(
            ActionError::Other(
                concat5(
                    "git.push: remote/branch must not start with '-' (remote=",
                    &r,
                    ", branch=",
                    &b,
                    ")",
                ),
            ),
        );
    }
    Ok(PushRun { remote: remote.to_owned(), branch: Some(branch.to_owned()) })
}

impl GitPush {
    /// The name workflows use.
    pub fn name(&self) -> (r: &'static str)
        ensures
            r@ == "git.push"@,
    {
        "git.push"
    }

    /// Starts a push. A remote or branch that git would read as an option is refused.
    pub fn begin(&self, args: &OrderedMap<Value>) -> (r: Result<PushRun, ActionError>)
        ensures
            match push_begun(args@) {
                Some(p) => r matches Ok(x) && x@ == p,
                None => r is Err,
            },
            ({
                let remote = text_arg_or(args@, "remote"@, "origin"@);
                match text_arg(args@, "branch"@) {
                    Some(b) => match push_of(remote, b) {
                        Ok(p) => r matches Ok(x) && x@ == p,
                        Err(e) => r matches Err(ActionError::Other(m)) && m@ == e,
                    },
                    None => r matches Ok(x) && x@ == (PushView { remote, branch: None }),
                }
            }),
    {
        let remote = arg_str_or(args, "remote", "origin");
        match arg_text(args, "branch") {
            Some(b) => plan_push(&remote, &b),
            None => Ok(PushRun { remote, branch: None }),
        }
    }
}

impl PushRun {
    /// The arguments of the git command to run now.
    pub fn command(&self) -> (r: Vec<String>)
        ensures
            texts(r@) == push_words(self@),
    {
        match &self.branch {
            Some(b) => list4("push", "--set-upstream", &self.remote, b),
            None => list3("rev-parse", "--abbrev-ref", "HEAD"),
        }
    }

    /// Takes in what the command gave. What the action came to, or none when there is another
    /// command.
    pub fn ran(&mut self, result: Result<ProcessOutput, String>) -> (r: Option<
        Result<ActionOutcome, ActionError>,
    >)
        ensures
            (final(self)@, finished_opt(r)) == push_next(old(self)@, result),
    {
        let words = self.command();
        let out = match checked("git", &words, result) {
            Ok(out) => out,
            Err(e) => {
                return Some(Err(e));
            },
        };
        match &self.branch {
            Some(b) => {
                let mut outputs: OrderedMap<Value> = OrderedMap::new();
                outputs.insert("branch".to_owned(), Value::String(b.clone()));
                outputs.insert("remote".to_owned(), Value::String(self.remote.clone()));
                let effect = SideEffect::push(b, &self.remote);
                let o = ActionOutcome {
                    exit_code: 0,
                    outputs,
                    stderr: String::new(),
                    side_effects: one_effect(effect),
                };
                Some(Ok(o))
            },
            None => {
                let branch = trim(&out);
                match plan_push(&self.remote, &branch) {
                    Ok(p) => {
                        *self = p;
                        None
                    },
                    Err(e) => Some(Err(e)),
                }
            },
        }
    }
}

/// A push never hands git a remote or branch that it would read as an option.
pub proof fn a_push_has_no_options(p: PushView, result: Result<ProcessOutput, String>)
    requires
        p.branch is None,
    ensures
        push_next(p, result).1 is None ==> {
            &&& push_next(p, result).0.branch is Some
            &&& !looks_like_an_option(push_next(p, result).0.branch->0)
            &&& !looks_like_an_option(push_next(p, result).0.remote)
        },
{
}

/// Whether a command ran and exited with zero, printing `out`.
pub open spec fn printed(r: Result<ProcessOutput, String>, out: Seq<char>) -> bool {
    r matches Ok(p) && p.exit_code == 0 && p.stdout@ == out
}

/// A commit stages everything, commits it with the message that was asked for, and reports the
/// commit and the branch that git then prints.
pub proof fn a_commit_is_made_as_asked(
    args: Seq<(Seq<char>, ValueView)>,
    message: Seq<char>,
    added: Result<ProcessOutput, String>,
    staged: Result<ProcessOutput, String>,
    commit: Result<ProcessOutput, String>,
    sha: Result<ProcessOutput, String>,
    branch: Result<ProcessOutput, String>,
    files: Seq<char>,
    sha_text: Seq<char>,
    branch_text: Seq<char>,
)
    requires
        lookup(args, "message"@) == Some(ValueView::String(message)),
        added matches Ok(p) && p.exit_code == 0,
        printed(staged, files),
        trimmed(files).len() > 0,
        commit matches Ok(p) && p.exit_code == 0,
        printed(sha, sha_text),
        printed(branch, branch_text),
    ensures
        ({
            let a = commit_begun(args)->0;
            let b = commit_next(a, added).0;
            let c = commit_next(b, staged).0;
            let d = commit_next(c, commit).0;
            let e = commit_next(d, sha).0;
            let end = commit_next(e, branch).1;
            &&& commit_begun(args) is Some
            &&& commit_words(a) == seq!["add"@, "-A"@]
            &&& commit_words(c) == seq!["commit"@, "-m"@, message]
            &&& commit_words(b) == seq!["diff"@, "--cached"@, "--name-only"@]
            &&& commit_words(d) == seq!["rev-parse"@, "HEAD"@]
            &&& commit_words(e) == seq!["rev-parse"@, "--abbrev-ref"@, "HEAD"@]
            &&& commit_next(a, added).1 is None && commit_next(b, staged).1 is None && commit_next(
                c,
                commit,
            ).1 is None && commit_next(d, sha).1 is None
            &&& end matches Some(Ok(o)) && o.exit_code == 0 && lookup(o.outputs, "sha"@) == Some(
                ValueView::String(trimmed(sha_text)),
            ) && lookup(o.outputs, "branch"@) == Some(ValueView::String(trimmed(branch_text)))
                && o.side_effects == seq![
                SideEffectView::Commit {
                    sha: trimmed(sha_text),
                    branch: Some(trimmed(branch_text)),
                },
            ]
        }),
{
    reveal_strlit("sha");
    reveal_strlit("branch");
    assert("sha"@.len() != "branch"@.len());
    let z = Seq::<(Seq<char>, ValueView)>::empty();
    let s = ValueView::String(trimmed(sha_text));
    let b = ValueView::String(trimmed(branch_text));
    crate::names::lemma_put_get(z, "sha"@, s, "sha"@);
    crate::names::lemma_put_get(put(z, "sha"@, s), "branch"@, b, "sha"@);
    crate::names::lemma_put_get(put(z, "sha"@, s), "branch"@, b, "branch"@);
}

/// With nothing staged nothing is committed: the action is over without an effect.
pub proof fn nothing_staged_is_not_committed(
    message: Seq<char>,
    staged: Result<ProcessOutput, String>,
    files: Seq<char>,
)
    requires
        printed(staged, files),
        trimmed(files).len() == 0,
    ensures
        commit_next(
            CommitView { stage: CommitStage::Staged, message, sha: Seq::empty() },
            staged,
        ).1 matches Some(Ok(o)) && o.exit_code == 0 && o.side_effects.len() == 0 && o.outputs.len()
            == 0,
{
}

/// A git command that fails ends the action with an error.
pub proof fn a_failed_git_command_ends_the_action(
    c: CommitView,
    p: PushView,
    result: Result<ProcessOutput, String>,
)
    requires
        result matches Ok(o) ==> o.exit_code != 0,
    ensures
        commit_next(c, result).1 matches Some(Err(_)),
        push_next(p, result).1 matches Some(Err(_)),
{
}

/// A push goes to the remote that was asked for, `origin` when none was, and pushes the branch that
/// was asked for, the one checked out when none was; it reports both.
pub proof fn a_push_goes_where_it_was_asked_to(
    args: Seq<(Seq<char>, ValueView)>,
    shown: Result<ProcessOutput, String>,
    current: Seq<char>,
    done: Result<ProcessOutput, String>,
)
    requires
        push_begun(args) is Some,
        printed(shown, current),
        done matches Ok(p) && p.exit_code == 0,
        !(lookup(args, "branch"@) matches Some(ValueView::String(_))) ==> push_next(
            push_begun(args)->0,
            shown,
        ).1 is None,
    ensures
        ({
            let remote = match lookup(args, "remote"@) {
                Some(ValueView::String(r)) => r,
                _ => "origin"@,
            };
            let p = if lookup(args, "branch"@) matches Some(ValueView::String(_)) {
                push_begun(args)->0
            } else {
                push_next(push_begun(args)->0, shown).0
            };
            let branch = match lookup(args, "branch"@) {
                Some(ValueView::String(b)) => b,
                _ => trimmed(current),
            };
            &&& push_words(p) == seq!["push"@, "--set-upstream"@, remote, branch]
            &&& push_next(p, done).1 matches Some(Ok(o)) && lookup(o.outputs, "branch"@) == Some(
                ValueView::String(branch),
            ) && lookup(o.outputs, "remote"@) == Some(ValueView::String(remote))
                && o.side_effects == seq![SideEffectView::Push { branch, remote }]
        }),
{
    reveal_strlit("branch");
    reveal_strlit("remote");
    assert("branch"@[0] != "remote"@[0]);
    let remote = match lookup(args, "remote"@) {
        Some(ValueView::String(r)) => r,
        _ => "origin"@,
    };
    let branch = match lookup(args, "branch"@) {
        Some(ValueView::String(b)) => b,
        _ => trimmed(current),
    };
    let z = Seq::<(Seq<char>, ValueView)>::empty();
    let b = ValueView::String(branch);
    let r = ValueView::String(remote);
    crate::names::lemma_put_get(z, "branch"@, b, "branch"@);
    crate::names::lemma_put_get(put(z, "branch"@, b), "remote"@, r, "branch"@);
    crate::names::lemma_put_get(put(z, "branch"@, b), "remote"@, r, "remote"@);
}

/// A remote or branch that git would read as an option begins no push.
pub proof fn an_option_is_no_branch(
    args: Seq<(Seq<char>, ValueView)>,
    remote: Seq<char>,
    branch: Seq<char>,
)
    requires
        lookup(args, "branch"@) == Some(ValueView::String(branch)),
        lookup(args, "remote"@) == Some(ValueView::String(remote)),
        (branch.len() > 0 && branch[0] == '-') || (remote.len() > 0 && remote[0] == '-'),
    ensures
        push_begun(args) is None,
{
}

/// A push without a branch asks first which branch is checked out.
pub proof fn a_push_asks_for_the_branch_it_lacks(p: PushView, branch: Seq<char>)
    ensures
        p.branch is None ==> push_words(p) == seq!["rev-parse"@, "--abbrev-ref"@, "HEAD"@],
        p.branch == Some(branch) ==> push_words(p) == seq![
            "push"@,
            "--set-upstream"@,
            p.remote,
            branch,
        ],
{
}

} // verus!
