use odin::action::command::{arg_str, arg_str_or, arg_text, checked};
use odin::action::git::{GitCommit, GitPush};
use odin::action::github::{created_pr, current_branch, first_pr, OpenPr};
use odin::action::shell::ShellExec;
use odin::api::SideEffect;
use odin::engine::dispatch::{ActionOutcome, ProcessOutput};
use odin::engine::feedback::Ending;
use odin::error::ActionError;
use odin::json::Value;
use odin::names::OrderedMap;

fn s(x: &str) -> String {
    x.to_owned()
}

fn args(pairs: &[(&str, &str)]) -> OrderedMap<Value> {
    let mut m: OrderedMap<Value> = OrderedMap::new();
    for (k, v) in pairs {
        m.insert(s(k), Value::string(v));
    }
    m
}

fn exited(code: i32, stdout: &str) -> Result<ProcessOutput, String> {
    Ok(ProcessOutput { exit_code: code, stdout: s(stdout), stderr: s("err"), ending: Ending::Exited })
}

fn words(v: &[String]) -> String {
    v.join(" ")
}

// Arguments.

#[test]
fn arguments_are_texts() {
    let mut m = args(&[("a", "x"), ("blank", "")]);
    m.insert(s("n"), Value::number(3));
    assert_eq!(arg_text(&m, "a"), Some(s("x")));
    assert_eq!(arg_text(&m, "missing"), None);
    assert_eq!(arg_str(&m, "a").unwrap(), "x");
    assert!(arg_str(&m, "missing").unwrap_err().to_string().contains("missing"));
    assert_eq!(arg_str_or(&m, "missing", "d"), "d");
    assert_eq!(arg_str_or(&m, "a", "d"), "x");
}

#[test]
fn commands_must_succeed() {
    let a = vec![s("status")];
    assert_eq!(checked("git", &a, exited(0, "out")).unwrap(), "out");
    let e = checked("git", &a, exited(1, "")).unwrap_err().to_string();
    assert!(e.contains("git") && e.contains("err"), "{e}");
    assert!(checked("git", &a, Err(s("no git"))).is_err());
}

// A commit.

/// Runs a commit against scripted answers, in order.
fn commit(answers: Vec<Result<ProcessOutput, String>>) -> (Vec<String>, Result<ActionOutcome, ActionError>) {
    let mut run = GitCommit.begin(&args(&[("message", "automated commit")])).unwrap();
    let mut ran = vec![];
    for a in answers {
        ran.push(words(&run.command()));
        if let Some(done) = run.ran(a) {
            return (ran, done);
        }
    }
    panic!("not over: {ran:?}");
}

#[test]
fn a_commit_is_recorded() {
    let (ran, done) = commit(vec![
        exited(0, ""),
        exited(0, "new.txt\n"),
        exited(0, ""),
        exited(0, "abc123\n"),
        exited(0, "work\n"),
    ]);
    assert_eq!(ran[0], "add -A");
    assert!(ran[2].contains("commit") && ran[2].contains("automated commit"), "{ran:?}");
    let done = done.unwrap();
    assert_eq!(done.exit_code, 0);
    assert!(matches!(
        done.side_effects.first(),
        Some(SideEffect::Commit { sha, branch: Some(b) }) if sha == "abc123" && b == "work"
    ));
}

#[test]
fn commit_is_a_noop_when_nothing_changed() {
    let (ran, done) = commit(vec![exited(0, ""), exited(0, "")]);
    assert_eq!(ran.len(), 2);
    let done = done.unwrap();
    assert_eq!(done.exit_code, 0);
    assert!(done.side_effects.is_empty(), "no changes => no commit, no side effect");
}

#[test]
fn a_commit_that_fails_is_an_error() {
    let (_, done) = commit(vec![exited(1, "")]);
    assert!(done.is_err());
    assert!(GitCommit.begin(&args(&[])).is_err(), "a message is needed");
    assert_eq!(GitCommit.name(), "git.commit");
}

// A push.

#[test]
fn a_push_is_recorded() {
    let mut run = GitPush.begin(&args(&[])).unwrap();
    assert_eq!(words(&run.command()), "rev-parse --abbrev-ref HEAD");
    assert!(run.ran(exited(0, "work\n")).is_none());
    assert!(words(&run.command()).contains("push") && words(&run.command()).contains("origin"));
    let done = run.ran(exited(0, "")).unwrap().unwrap();
    assert!(matches!(
        done.side_effects.first(),
        Some(SideEffect::Push { branch, remote }) if branch == "work" && remote == "origin"
    ));
    assert_eq!(GitPush.name(), "git.push");
}

#[test]
fn a_push_takes_no_options() {
    let mut run = GitPush.begin(&args(&[("remote", "--force")])).unwrap();
    let e = run.ran(exited(0, "work\n")).unwrap().unwrap_err().to_string();
    assert!(e.contains("must not start with '-'"), "{e}");
    assert!(GitPush.begin(&args(&[("branch", "-d")])).is_err());
}

// Pull requests.

#[test]
fn rejects_a_base_that_looks_like_a_flag() {
    // A `-`-leading branch would be parsed as a flag; it is rejected before anything runs.
    let err = OpenPr.begin(&args(&[("title", "t"), ("base", "--version")])).unwrap_err();
    assert!(err.to_string().contains("base"), "expected a base-rejection error, got: {err:?}");
}

#[test]
fn rejects_a_head_that_looks_like_a_flag() {
    let err = OpenPr.begin(&args(&[("title", "t"), ("head", "-X")])).unwrap_err();
    assert!(err.to_string().contains("head"), "expected a head-rejection error, got: {err:?}");
}

#[test]
fn first_pr_parses_an_existing_pr() {
    let (n, url) = first_pr(r#"[{"number":42,"url":"https://github.com/o/r/pull/42"}]"#).unwrap();
    assert_eq!(n, 42);
    assert_eq!(url, "https://github.com/o/r/pull/42");
    // Multiple PRs: take the first (the query is --limit 1, but be tolerant).
    let (n2, _) = first_pr(
        r#"[{"number":7,"url":"https://github.com/o/r/pull/7"},{"number":9,"url":"x"}]"#,
    )
    .unwrap();
    assert_eq!(n2, 7);
}

#[test]
fn first_pr_is_none_for_empty_or_malformed() {
    assert!(first_pr("[]").is_none(), "no open PR → create one");
    assert!(first_pr("").is_none());
    assert!(first_pr("not json").is_none());
    assert!(first_pr(r#"[{"url":"x"}]"#).is_none(), "missing number → can't reattach");
}

#[test]
fn a_created_pr_is_numbered_by_its_url() {
    assert_eq!(created_pr("https://h/o/r/pull/12\n"), (12, s("https://h/o/r/pull/12")));
    assert_eq!(created_pr("https://h/o/r/pull/x\n").0, 0);
    assert_eq!(current_branch(&exited(0, "b\n")), Some(s("b")));
    assert_eq!(current_branch(&Err(s("no git"))), None);
}

#[test]
fn an_existing_pr_is_found_again() {
    let mut run = OpenPr.begin(&args(&[("title", "t")])).unwrap();
    let (program, _) = run.command();
    assert_eq!(program, "git");
    assert!(run.ran(exited(0, "work\n")).is_none());
    let (program, a) = run.command();
    assert_eq!(program, "gh");
    assert!(words(&a).contains("pr list") && words(&a).contains("work"), "{a:?}");
    let done = run.ran(exited(0, r#"[{"number":42,"url":"u"}]"#)).unwrap().unwrap();
    assert!(matches!(
        done.side_effects.first(),
        Some(SideEffect::PullRequest { number: 42, url }) if url == "u"
    ));
}

#[test]
fn a_new_pr_is_created() {
    let mut run = OpenPr.begin(&args(&[("title", "t"), ("base", "main")])).unwrap();
    run.ran(exited(0, "work\n"));
    assert!(run.ran(exited(0, "[]")).is_none());
    let (program, a) = run.command();
    assert_eq!(program, "gh");
    assert!(words(&a).contains("pr create") && words(&a).contains("--base main"), "{a:?}");
    let done = run.ran(exited(0, "https://h/o/r/pull/7\n")).unwrap().unwrap();
    assert!(matches!(done.side_effects.first(), Some(SideEffect::PullRequest { number: 7, .. })));
    assert_eq!(OpenPr.name(), "github.open_pr");
}

// A shell command.

#[test]
fn runs_a_command_and_captures_stdout() {
    let a = ShellExec.command(&args(&[("command", "echo hello-action")])).unwrap();
    assert_eq!(a, ["-c", "echo hello-action"]);
    let out = ShellExec.outcome(exited(0, "hello-action\n")).unwrap();
    assert_eq!(out.exit_code, 0);
    assert!(out.outputs.get("stdout").unwrap().as_str().unwrap().contains("hello-action"));
}

#[test]
fn missing_command_arg_errors() {
    assert!(ShellExec.command(&OrderedMap::new()).is_err());
}

#[test]
fn shell_exec_failure_keeps_its_stderr() {
    let out = ShellExec.outcome(exited(1, "")).unwrap();
    assert_eq!(out.exit_code, 1);
    assert_eq!(out.stderr, "err");
    assert!(ShellExec.outcome(Err(s("no shell"))).is_err());
    assert_eq!(ShellExec.name(), "shell.exec");
}
