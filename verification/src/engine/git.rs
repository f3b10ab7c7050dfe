//! The git commands of the executor: what is run, and what its output means.

use crate::ids::{uuid_text, RunId};
use crate::text::{
    chars_of, concat2, concat3, concat4, filled, filled_lines, lines_of, matches_at, opt_text,
    starts_with, texts, trim, trimmed,
};
use vstd::prelude::*;

verus! {

/// A command line of one word.
pub(crate) fn list1(a: &str) -> (r: Vec<String>)
    ensures
        texts(r@) == seq![a@],
{
    let mut v: Vec<String> = Vec::new();
    v.push(a.to_owned());
    assert(texts(v@) =~= seq![a@]);
    v
}

/// A command line of two words.
pub(crate) fn list2(a: &str, b: &str) -> (r: Vec<String>)
    ensures
        texts(r@) == seq![a@, b@],
{
    let mut v: Vec<String> = Vec::new();
    v.push(a.to_owned());
    v.push(b.to_owned());
    assert(texts(v@) =~= seq![a@, b@]);
    v
}

/// A command line of three words.
pub(crate) fn list3(a: &str, b: &str, c: &str) -> (r: Vec<String>)
    ensures
        texts(r@) == seq![a@, b@, c@],
{
    let mut v: Vec<String> = Vec::new();
    v.push(a.to_owned());
    v.push(b.to_owned());
    v.push(c.to_owned());
    assert(texts(v@) =~= seq![a@, b@, c@]);
    v
}

/// A command line of four words.
pub(crate) fn list4(a: &str, b: &str, c: &str, d: &str) -> (r: Vec<String>)
    ensures
        texts(r@) == seq![a@, b@, c@, d@],
{
    let mut v: Vec<String> = Vec::new();
    v.push(a.to_owned());
    v.push(b.to_owned());
    v.push(c.to_owned());
    v.push(d.to_owned());
    assert(texts(v@) =~= seq![a@, b@, c@, d@]);
    v
}

/// A command line of five words.
pub(crate) fn list5(a: &str, b: &str, c: &str, d: &str, e: &str) -> (r: Vec<String>)
    ensures
        texts(r@) == seq![a@, b@, c@, d@, e@],
{
    let mut v: Vec<String> = Vec::new();
    v.push(a.to_owned());
    v.push(b.to_owned());
    v.push(c.to_owned());
    v.push(d.to_owned());
    v.push(e.to_owned());
    assert(texts(v@) =~= seq![a@, b@, c@, d@, e@]);
    v
}

/// A command line of six words.
pub(crate) fn list6(a: &str, b: &str, c: &str, d: &str, e: &str, f: &str) -> (r: Vec<String>)
    ensures
        texts(r@) == seq![a@, b@, c@, d@, e@, f@],
{
    let mut v: Vec<String> = Vec::new();
    v.push(a.to_owned());
    v.push(b.to_owned());
    v.push(c.to_owned());
    v.push(d.to_owned());
    v.push(e.to_owned());
    v.push(f.to_owned());
    assert(texts(v@) =~= seq![a@, b@, c@, d@, e@, f@]);
    v
}

// ---------------------------------------------------------------------------------------------
// The diff and HEAD
// ---------------------------------------------------------------------------------------------
/// Marks new files so that a diff shows them.
pub fn intent_to_add_args() -> (r: Vec<String>)
    ensures
        texts(r@) == seq!["add"@, "-N"@, "."@],
{
    list3("add", "-N", ".")
}

/// The arguments of the diff against a base, or of the plain diff without one.
pub open spec fn diff_words(base: Option<Seq<char>>) -> Seq<Seq<char>> {
    match base {
        Some(b) => seq!["diff"@, b, "--"@],
        None => seq!["diff"@],
    }
}

/// The diff against the run's base commit, or the plain diff when it has none.
pub fn diff_args(base: &Option<String>) -> (r: Vec<String>)
    ensures
        texts(r@) == diff_words(opt_text(*base)),
{
    match base {
        Some(b) => list3("diff", b, "--"),
        None => list1("diff"),
    }
}

/// What a diff command captured: its output when it exited with zero. `ran` is what running it
/// gave, if it ran.
pub fn captured_diff(ran: Option<(i32, String)>) -> (r: Option<String>)
    ensures
        r == (match ran {
            Some((code, out)) => if code == 0 {
                Some(out)
            } else {
                None
            },
            None => None,
        }),
{
    match ran {
        Some((code, out)) => if code == 0 {
            Some(out)
        } else {
            None
        },
        None => None,
    }
}

/// Reads `HEAD`.
pub fn head_args() -> (r: Vec<String>)
    ensures
        texts(r@) == seq!["rev-parse"@, "HEAD"@],
{
    list2("rev-parse", "HEAD")
}

/// The object a command printed: its trimmed output, when it exited with zero and printed one.
pub open spec fn object_name(ran: Option<(i32, Seq<char>)>) -> Option<Seq<char>> {
    match ran {
        Some((code, out)) => if code == 0 && trimmed(out).len() > 0 {
            Some(trimmed(out))
        } else {
            None
        },
        None => None,
    }
}

/// The mathematical form of what running a command gave.
pub open spec fn ran_view(ran: Option<(i32, String)>) -> Option<(i32, Seq<char>)> {
    match ran {
        Some((code, out)) => Some((code, out@)),
        None => None,
    }
}

/// The object a command printed, such as the commit of `HEAD`.
pub fn printed_object(ran: &Option<(i32, String)>) -> (r: Option<String>)
    ensures
        opt_text(r) == object_name(ran_view(*ran)),
{
    match ran {
        Some((code, out)) => {
            let t = trim(out);
            if *code == 0 && !t.as_str().is_empty() {
                Some(t)
            } else {
                None
            }
        },
        None => None,
    }
}

// ---------------------------------------------------------------------------------------------
// Snapshots
// ---------------------------------------------------------------------------------------------
/// Where a snapshot stands.
#[derive(Clone, Copy, Debug, PartialEq, Eq, Structural)]
pub enum Stage {
    /// Fill a throwaway index from `HEAD`.
    ReadTree,
    /// Stage every change.
    AddAll,
    /// Write the tree.
    WriteTree,
    /// Commit it on top of the base.
    CommitTree,
    /// Keep the commit under a ref.
    Anchor,
    /// Nothing more to do.
    Over,
}

/// A snapshot of a workdir being taken: a commit beside the branch, kept by a ref.
#[derive(Debug)]
pub struct Snapshot {
    stage: Stage,
    base: String,
    ref_name: String,
    tree: String,
    sha: Option<String>,
}

/// The mathematical form of a [`Snapshot`].
#[verifier::ext_equal]
pub struct SnapshotView {
    pub stage: Stage,
    pub base: Seq<char>,
    pub ref_name: Seq<char>,
    pub tree: Seq<char>,
    pub sha: Option<Seq<char>>,
}

impl View for Snapshot {
    type V = SnapshotView;

    closed spec fn view(&self) -> SnapshotView {
        SnapshotView {
            stage: self.stage,
            base: self.base@,
            ref_name: self.ref_name@,
            tree: self.tree@,
            sha: opt_text(self.sha),
        }
    }
}

/// The text of an optional name, empty when there is none.
pub open spec fn or_empty(o: Option<Seq<char>>) -> Seq<char> {
    match o {
        Some(s) => s,
        None => Seq::empty(),
    }
}

/// The command of a snapshot's stage.
pub open spec fn snapshot_words(s: SnapshotView) -> Option<Seq<Seq<char>>> {
    match s.stage {
        Stage::ReadTree => Some(seq!["read-tree"@, "HEAD"@]),
        Stage::AddAll => Some(seq!["add"@, "-A"@]),
        Stage::WriteTree => Some(seq!["write-tree"@]),
        Stage::CommitTree => Some(
            seq!["commit-tree"@, s.tree, "-p"@, s.base, "-m"@, "odin snapshot"@],
        ),
        Stage::Anchor => Some(seq!["update-ref"@, s.ref_name, or_empty(s.sha)]),
        Stage::Over => None,
    }
}

/// A snapshot after its stage's command ran. The tree and the commit have to come out; staging
/// and keeping the commit are best effort.
pub open spec fn snapshot_next(s: SnapshotView, ran: Option<(i32, Seq<char>)>) -> SnapshotView {
    let over = SnapshotView { stage: Stage::Over, ..s };
    match s.stage {
        Stage::ReadTree => if ran matches Some((code, _)) && code == 0 {
            SnapshotView { stage: Stage::AddAll, ..s }
        } else {
            over
        },
        Stage::AddAll => SnapshotView { stage: Stage::WriteTree, ..s },
        Stage::WriteTree => match object_name(ran) {
            Some(tree) => SnapshotView { stage: Stage::CommitTree, tree, ..s },
            None => over,
        },
        Stage::CommitTree => match object_name(ran) {
            Some(sha) => SnapshotView { stage: Stage::Anchor, sha: Some(sha), ..s },
            None => over,
        },
        Stage::Anchor => over,
        Stage::Over => s,
    }
}

impl Snapshot {
    /// Starts a snapshot on top of `base`, to be kept under `ref_name`.
    pub fn begin(base: &str, ref_name: &str) -> (r: Self)
        ensures
            r@ == (SnapshotView {
                stage: Stage::ReadTree,
                base: base@,
                ref_name: ref_name@,
                tree: Seq::empty(),
                sha: None,
            }),
    {
        Snapshot {
            stage: Stage::ReadTree,
            base: base.to_owned(),
            ref_name: ref_name.to_owned(),
            tree: String::new(),
            sha: None,
        }
    }

    /// The git command to run now, or none when the snapshot is over.
    pub fn command(&self) -> (r: Option<Vec<String>>)
        ensures
            match snapshot_words(self@) {
                Some(w) => r matches Some(v) && texts(v@) == w,
                None => r is None,
            },
    {
        match self.stage {
            Stage::ReadTree => Some(list2("read-tree", "HEAD")),
            Stage::AddAll => Some(list2("add", "-A")),
            Stage::WriteTree => Some(list1("write-tree")),
            Stage::CommitTree => Some(
                list6("commit-tree", &self.tree, "-p", &self.base, "-m", "odin snapshot"),
            ),
            Stage::Anchor => {
                let sha = match &self.sha {
                    Some(s) => s.clone(),
                    None => String::new(),
                };
                Some(list3("update-ref", &self.ref_name, &sha))
            },
            Stage::Over => None,
        }
    }

    /// Whether the command of now works on the throwaway index.
    pub fn uses_own_index(&self) -> (r: bool)
        ensures
            r == (self@.stage != Stage::Anchor && self@.stage != Stage::Over),
    {
        self.stage != Stage::Anchor && self.stage != Stage::Over
    }

    /// Takes in what running the command gave: its exit code and output, if it ran.
    pub fn ran(&mut self, ran: Option<(i32, String)>)
        ensures
            final(self)@ == snapshot_next(old(self)@, ran_view(ran)),
    {
        match self.stage {
            Stage::ReadTree => {
                let ok = match &ran {
                    Some((code, _)) => *code == 0,
                    None => false,
                };
                self.stage =
                if ok {
                    Stage::AddAll
                } else {
                    Stage::Over
                };
            },
            Stage::AddAll => {
                self.stage = Stage::WriteTree;
            },
            Stage::WriteTree => match printed_object(&ran) {
                Some(tree) => {
                    self.tree = tree;
                    self.stage = Stage::CommitTree;
                },
                None => {
                    self.stage = Stage::Over;
                },
            },
            Stage::CommitTree => match printed_object(&ran) {
                Some(sha) => {
                    self.sha = Some(sha);
                    self.stage = Stage::Anchor;
                },
                None => {
                    self.stage = Stage::Over;
                },
            },
            Stage::Anchor => {
                self.stage = Stage::Over;
            },
            Stage::Over => {},
        }
    }

    /// The commit that was taken, if one was.
    pub fn finish(self) -> (r: Option<String>)
        ensures
            opt_text(r) == self@.sha,
    {
        self.sha
    }
}

/// How many stages a snapshot has before it.
pub open spec fn stages_left(s: Stage) -> nat {
    match s {
        Stage::ReadTree => 5,
        Stage::AddAll => 4,
        Stage::WriteTree => 3,
        Stage::CommitTree => 2,
        Stage::Anchor => 1,
        Stage::Over => 0,
    }
}

/// Every command brings a snapshot nearer its end, and a commit is only taken from a tree that was
/// written.
pub proof fn a_snapshot_ends(s: SnapshotView, ran: Option<(i32, Seq<char>)>)
    requires
        s.stage != Stage::Over,
        s.stage == Stage::CommitTree || s.stage == Stage::Anchor || s.sha is None,
        s.stage == Stage::CommitTree ==> s.tree.len() > 0 && s.sha is None,
    ensures
        stages_left(snapshot_next(s, ran).stage) < stages_left(s.stage),
        snapshot_next(s, ran).sha is Some ==> s.stage == Stage::CommitTree || s.stage
            == Stage::Anchor,
        snapshot_next(s, ran).stage == Stage::CommitTree ==> snapshot_next(s, ran).tree.len() > 0,
{
}

/// The environment of a snapshot's commands: a throwaway index and an identity of their own.
pub fn snapshot_env(index: &str) -> (r: Vec<(String, String)>)
    ensures
        r@.len() == 5,
        r@[0].0@ == "GIT_INDEX_FILE"@ && r@[0].1@ == index@,
        r@[1].0@ == "GIT_AUTHOR_NAME"@ && r@[1].1@ == "odin"@,
        r@[2].0@ == "GIT_AUTHOR_EMAIL"@ && r@[2].1@ == "odin@localhost"@,
        r@[3].0@ == "GIT_COMMITTER_NAME"@ && r@[3].1@ == "odin"@,
        r@[4].0@ == "GIT_COMMITTER_EMAIL"@ && r@[4].1@ == "odin@localhost"@,
{
    let mut v: Vec<(String, String)> = Vec::new();
    v.push(("GIT_INDEX_FILE".to_owned(), index.to_owned()));
    v.push(("GIT_AUTHOR_NAME".to_owned(), "odin".to_owned()));
    v.push(("GIT_AUTHOR_EMAIL".to_owned(), "odin@localhost".to_owned()));
    v.push(("GIT_COMMITTER_NAME".to_owned(), "odin".to_owned()));
    v.push(("GIT_COMMITTER_EMAIL".to_owned(), "odin@localhost".to_owned()));
    v
}

/// The file name of a throwaway index.
pub fn index_name(run_id: RunId, unique: &str) -> (r: String)
    ensures
        r@ == "odin-index-"@ + uuid_text(run_id.0) + "-"@ + unique@,
{
    let id = run_id.to_string();
    concat4("odin-index-", &id, "-", unique)
}

/// Puts the index and the workdir to `target`.
pub fn reset_args(target: &str) -> (r: Vec<String>)
    ensures
        texts(r@) == seq!["read-tree"@, "-u"@, "--reset"@, target@],
{
    list4("read-tree", "-u", "--reset", target)
}

/// Whether a reset took place, so that what it left untracked is to be removed: a reset that
/// failed leaves the workdir as it is.
pub fn was_reset(ran: &Option<(i32, String)>) -> (r: bool)
    ensures
        r == (ran_view(*ran) matches Some((code, _)) && code == 0),
{
    match ran {
        Some((code, _)) => *code == 0,
        None => false,
    }
}

/// Removes what is untracked and not ignored.
pub fn clean_args() -> (r: Vec<String>)
    ensures
        texts(r@) == seq!["clean"@, "-fd"@],
{
    list2("clean", "-fd")
}

// ---------------------------------------------------------------------------------------------
// Refs
// ---------------------------------------------------------------------------------------------
/// The ref that keeps a run's last snapshot.
pub open spec fn run_ref_text(run_id: RunId) -> Seq<char> {
    "refs/odin/run/"@ + uuid_text(run_id.0)
}

/// The ref that keeps a run's last snapshot.
pub fn run_ref(run_id: RunId) -> (r: String)
    ensures
        r@ == run_ref_text(run_id),
{
    let id = run_id.to_string();
    concat2("refs/odin/run/", &id)
}

/// The branch of a run's worktree.
pub fn run_branch_ref(run_id: RunId) -> (r: String)
    ensures
        r@ == "refs/heads/odin/run/"@ + uuid_text(run_id.0),
{
    let id = run_id.to_string();
    concat2("refs/heads/odin/run/", &id)
}

/// Where a run's refs that outlive a crash or a cancellation are found: those of retries, then
/// those of loops.
pub open spec fn leftovers_of(run_id: RunId) -> Seq<Seq<char>> {
    seq![
        "refs/odin/retry/"@ + uuid_text(run_id.0) + "/"@,
        "refs/odin/loop/"@ + uuid_text(run_id.0) + "/"@,
    ]
}

/// Where a run's refs that outlive a crash or a cancellation are found: those of retries, then
/// those of loops.
pub fn leftover_prefixes(run_id: RunId) -> (r: Vec<String>)
    ensures
        texts(r@) == leftovers_of(run_id),
        texts(r@) == seq![
            "refs/odin/retry/"@ + uuid_text(run_id.0) + "/"@,
            "refs/odin/loop/"@ + uuid_text(run_id.0) + "/"@,
        ],
{
    let id = run_id.to_string();
    let retry = concat3("refs/odin/retry/", &id, "/");
    let looped = concat3("refs/odin/loop/", &id, "/");
    list2(&retry, &looped)
}

/// Lists the refs under a prefix.
pub fn list_refs_args(prefix: &str) -> (r: Vec<String>)
    ensures
        texts(r@) == seq!["for-each-ref"@, "--format=%(refname)"@, prefix@],
{
    list3("for-each-ref", "--format=%(refname)", prefix)
}

/// The refs that a listing printed.
pub fn listed_refs(stdout: &str) -> (r: Vec<String>)
    ensures
        texts(r@) == filled_lines(lines_of(stdout@)),
{
    filled(stdout)
}

/// Deletes a ref.
pub fn delete_ref_args(ref_name: &str) -> (r: Vec<String>)
    ensures
        texts(r@) == seq!["update-ref"@, "-d"@, ref_name@],
{
    list3("update-ref", "-d", ref_name)
}

// ---------------------------------------------------------------------------------------------
// Scratch worktrees
// ---------------------------------------------------------------------------------------------
/// How the directory names of a run's scratch worktrees begin.
pub open spec fn scratch_prefix_text(run_id: RunId) -> Seq<char> {
    "odin-scratch-"@ + uuid_text(run_id.0) + "-"@
}

/// How the directory names of a run's scratch worktrees begin, by which left-over ones are found.
pub fn scratch_prefix(run_id: RunId) -> (r: String)
    ensures
        r@ == scratch_prefix_text(run_id),
{
    let id = run_id.to_string();
    concat3("odin-scratch-", &id, "-")
}

/// The directory name of a scratch worktree.
pub fn scratch_name(run_id: RunId, step: &str, unique: &str) -> (r: String)
    ensures
        r@ == scratch_prefix_text(run_id) + step@ + "-"@ + unique@,
{
    let p = scratch_prefix(run_id);
    concat4(&p, step, "-", unique)
}

/// A scratch worktree's name begins as those of its run do.
pub proof fn a_scratch_name_is_found_by_its_prefix(run_id: RunId, step: Seq<char>, unique: Seq<char>)
    ensures
        starts_with(
            scratch_prefix_text(run_id) + step + "-"@ + unique,
            scratch_prefix_text(run_id),
        ),
{
    let p = scratch_prefix_text(run_id);
    let name = p + step + "-"@ + unique;
    assert(name.take(p.len() as int) =~= p);
}

/// Of the names in a directory, those of a run's scratch worktrees.
pub open spec fn scratch_names(names: Seq<Seq<char>>, run_id: RunId) -> Seq<Seq<char>>
    decreases names.len(),
{
    if names.len() == 0 {
        Seq::empty()
    } else {
        let before = scratch_names(names.drop_last(), run_id);
        if starts_with(names.last(), scratch_prefix_text(run_id)) {
            before.push(names.last())
        } else {
            before
        }
    }
}

/// Of the names in a directory, those of a run's scratch worktrees: at its start they are left
/// over from an earlier attempt at it.
pub fn leftover_scratch(names: &Vec<String>, run_id: RunId) -> (r: Vec<String>)
    ensures
        texts(r@) == scratch_names(texts(names@), run_id),
{
    let prefix = chars_of(&scratch_prefix(run_id));
    let mut out: Vec<String> = Vec::new();
    let mut i: usize = 0;
    assert(texts(out@) =~= Seq::<Seq<char>>::empty());
    while i < names.len()
        invariant
            i <= names.len(),
            prefix@ == scratch_prefix_text(run_id),
            texts(out@) == scratch_names(texts(names@).take(i as int), run_id),
        decreases names.len() - i,
    {
        assert(texts(names@).take(i + 1).drop_last() =~= texts(names@).take(i as int));
        let name = chars_of(&names[i]);
        if matches_at(&name, &prefix, 0) {
            let ghost before = out@;
            out.push(names[i].clone());
            assert(texts(out@) =~= texts(before).push(names@[i as int]@));
        }
        i += 1;
    }
    assert(texts(names@).take(i as int) =~= texts(names@));
    out
}

/// Adds a detached worktree at `HEAD`.
pub fn worktree_add_args(path: &str) -> (r: Vec<String>)
    ensures
        texts(r@) == seq!["worktree"@, "add"@, "--detach"@, path@, "HEAD"@],
{
    list5("worktree", "add", "--detach", path, "HEAD")
}

/// Removes a worktree.
pub fn worktree_remove_args(path: &str) -> (r: Vec<String>)
    ensures
        texts(r@) == seq!["worktree"@, "remove"@, "--force"@, path@],
{
    list4("worktree", "remove", "--force", path)
}

/// Drops registrations of worktrees that are gone.
pub fn worktree_prune_args() -> (r: Vec<String>)
    ensures
        texts(r@) == seq!["worktree"@, "prune"@],
{
    list2("worktree", "prune")
}

/// Why a worktree could not be added.
pub fn worktree_error(stderr: &str) -> (r: String)
    ensures
        r@ == "git worktree add failed: "@ + trimmed(stderr@),
{
    let t = trim(stderr);
    concat2("git worktree add failed: ", &t)
}

/// A snapshot is a commit of everything in the workdir on top of the base, and the reference that
/// keeps it names that commit.
pub proof fn a_snapshot_keeps_the_workdir(
    base: Seq<char>,
    ref_name: Seq<char>,
    read: Seq<char>,
    added: Option<(i32, Seq<char>)>,
    tree: Seq<char>,
    sha: Seq<char>,
)
    requires
        trimmed(tree).len() > 0,
        trimmed(sha).len() > 0,
    ensures
        ({
            let a = SnapshotView {
                stage: Stage::ReadTree,
                base,
                ref_name,
                tree: Seq::empty(),
                sha: None,
            };
            let b = snapshot_next(a, Some((0i32, read)));
            let c = snapshot_next(b, added);
            let d = snapshot_next(c, Some((0i32, tree)));
            let e = snapshot_next(d, Some((0i32, sha)));
            &&& snapshot_words(a) == Some(seq!["read-tree"@, "HEAD"@])
            &&& snapshot_words(b) == Some(seq!["add"@, "-A"@])
            &&& snapshot_words(c) == Some(seq!["write-tree"@])
            &&& snapshot_words(d) matches Some(w) && w[0] == "commit-tree"@ && w[1] == trimmed(tree)
                && w[2] == "-p"@ && w[3] == base
            &&& snapshot_words(e) == Some(seq!["update-ref"@, ref_name, trimmed(sha)])
            &&& e.sha == Some(trimmed(sha))
        }),
{
}

/// A command that fails, or prints nothing, leaves no snapshot.
pub proof fn a_failed_snapshot_is_none(s: SnapshotView, ran: Option<(i32, Seq<char>)>)
    requires
        s.stage == Stage::WriteTree || s.stage == Stage::CommitTree,
        s.sha is None,
        ran matches Some((code, out)) ==> code != 0 || trimmed(out).len() == 0,
    ensures
        snapshot_next(s, ran).stage == Stage::Over,
        snapshot_next(s, ran).sha is None,
{
}

/// A diff is taken against the commit a run started from, and without one against the index.
pub proof fn a_diff_is_against_the_base(base: Seq<char>)
    ensures
        diff_words(Some(base)) == seq!["diff"@, base, "--"@],
        diff_words(None) == seq!["diff"@],
{
}

/// Exactly the workdirs of a run's own steps are reclaimed as left over.
pub proof fn only_a_runs_own_workdirs_are_reclaimed(
    names: Seq<Seq<char>>,
    run_id: RunId,
    name: Seq<char>,
)
    ensures
        scratch_names(names, run_id).contains(name) == (names.contains(name) && starts_with(
            name,
            "odin-scratch-"@ + uuid_text(run_id.0) + "-"@,
        )),
    decreases names.len(),
{
    if names.len() > 0 {
        let d = names.drop_last();
        only_a_runs_own_workdirs_are_reclaimed(d, run_id, name);
        let before = scratch_names(d, run_id);
        let all = scratch_names(names, run_id);
        if before.contains(name) {
            let i = choose|i: int| 0 <= i < before.len() && before[i] == name;
            assert(all[i] == name);
        }
        if starts_with(names.last(), scratch_prefix_text(run_id)) {
            assert(all[before.len() as int] == names.last());
        }
        if all.contains(name) {
            let i = choose|i: int| 0 <= i < all.len() && all[i] == name;
            if i < before.len() {
                assert(before[i] == name);
            }
        }
        if d.contains(name) {
            let i = choose|i: int| 0 <= i < d.len() && d[i] == name;
            assert(names[i] == name);
        }
        if names.contains(name) {
            let i = choose|i: int| 0 <= i < names.len() && names[i] == name;
            if i < d.len() {
                assert(d[i] == name);
            }
        }
        assert(names[names.len() - 1] == names.last());
    }
}

/// Every ref that a retry or a loop of a run keeps its work under is found among the leftovers of
/// that run.
pub proof fn every_kept_ref_is_a_leftover(run_id: RunId, step: Seq<char>)
    ensures
        leftovers_of(run_id).len() == 2,
        crate::engine::retry::retry_ref_text(run_id, step) == leftovers_of(run_id)[0] + step,
        crate::engine::loops::loop_ref_text(run_id, step) == leftovers_of(run_id)[1] + step,
{
}

} // verus!
