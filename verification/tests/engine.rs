//! Whole runs, driven with a scripted shell in place of real processes.

use odin::api::{
    Decision, RunInput, RunStatus, RunSummary, SideEffect, StepResult, StepStatus,
};
use odin::context::render::Context;
use odin::engine::approval::{check_decidable, check_rerun, record_decision, rerun_input};
use odin::engine::checks::{Ask, Checks};
use odin::engine::dispatch::{
    action_outcome, decide_outcome, dispatch, provider_outcome, run_outcome, with_scratch_diff,
    ActionOutcome, Body, InvocationOutcome, ProcessOutput, Verdict,
};
use odin::engine::events::{cancel_reason, step_events, CancelReason, RunEvent, SuspendReason};
use odin::engine::feedback::Ending;
use odin::engine::ledger::Ledger;
use odin::engine::lifecycle::{
    accept_run, close, fresh_state, hold, plan_resume, summary_from_state, Resume,
};
use odin::engine::loops::{forget_progress, loop_restore_target, IterationEnd, LoopRun};
use odin::engine::params::resolve_params;
use odin::engine::recovery::{is_unfinished, plan_recovery, Recovery};
use odin::engine::retry::{Attempts, Next};
use odin::engine::schedule::{
    record_base, restore_target, ExecResult, Launch, Pass, Settled,
};
use odin::engine::state::{LoopProgress, RunState, StepOutcome, StepState, WorkspaceHandle};
use odin::error::{Error, ProviderError};
use odin::ids::{ProviderRef, RunId, StepId, WorkflowId};
use odin::ir::params::{ParamSpec, ParamType};
use odin::ir::step::{
    ActionStep, ApprovalStep, Artifacts, Backoff, CaseBranch, CaseStep, FeedbackMode, JudgeSpec,
    LoopStep, ProviderStep, RetrySpec, RunStep, Step, StepKind,
};
use odin::ir::workflow::{SchemaVersion, Workflow, WorkflowDefaults};
use odin::ir::workspace::WorkspaceConfig;
use odin::json::Value;
use odin::mock::MemStore;
use odin::names::{OrderedMap, Replicate};
use odin::time::{Duration, Timestamp};
use odin::validate::diagnostic::ValidationReport;

const NOW: Timestamp = Timestamp { secs: 1, nanos: 0 };

fn s(x: &str) -> String {
    x.to_owned()
}

// Building workflows.

fn step(id: &str, kind: StepKind, depends_on: &[&str]) -> Step {
    Step {
        id: StepId::new(id),
        kind,
        artifacts: Artifacts::none(),
        gates: OrderedMap::new(),
        judge: None,
        retry: RetrySpec::default(),
        timeout: None,
        when: None,
        depends_on: depends_on.iter().map(|d| StepId::new(d)).collect(),
        scratch: false,
    }
}

fn run(id: &str, command: &str, depends_on: &[&str]) -> Step {
    step(id, StepKind::Run(RunStep { run: s(command) }), depends_on)
}

fn run_when(id: &str, command: &str, depends_on: &[&str], when: &str) -> Step {
    Step { when: Some(s(when)), ..run(id, command, depends_on) }
}

fn ask(id: &str, provider: &str, prompt: &str, depends_on: &[&str]) -> Step {
    let p = ProviderStep {
        provider: ProviderRef::new(provider),
        prompt: Some(s(prompt)),
        prompt_file: None,
    };
    step(id, StepKind::Provider(p), depends_on)
}

fn gate(id: &str, message: Option<&str>, depends_on: &[&str]) -> Step {
    step(id, StepKind::Approval(ApprovalStep { message: message.map(s) }), depends_on)
}

fn looped(id: &str, until: &str, max: u8, steps: Vec<Step>, depends_on: &[&str]) -> Step {
    step(id, StepKind::Loop(LoopStep { until: s(until), max, steps }), depends_on)
}

fn retrying(max: u8, feedback: FeedbackMode) -> RetrySpec {
    RetrySpec { max, backoff: Backoff::Fixed, on_fallback_provider: None, feedback }
}

fn workflow(name: &str, steps: Vec<Step>) -> Workflow {
    Workflow {
        schema_version: SchemaVersion::default(),
        name: WorkflowId::new(name),
        version: None,
        description: None,
        tags: vec![],
        durable: true,
        workspace: WorkspaceConfig::default(),
        triggers: vec![],
        params: OrderedMap::new(),
        steps,
        defaults: WorkflowDefaults { timeout: None, retry: None },
        max_parallel: None,
    }
}

fn handle(run_id: RunId) -> WorkspaceHandle {
    WorkspaceHandle { run_id, path: s("/w"), branch: None, token: s("") }
}

fn no_findings() -> ValidationReport {
    ValidationReport { diagnostics: vec![] }
}

// The scripted world.

/// What a command gives: its exit code, its output and its error output.
type Shell<'a> = dyn FnMut(&str) -> (i32, String, String) + 'a;

/// Understands `true`, `false`, `exit N` and `echo TEXT`.
fn plain(command: &str) -> (i32, String, String) {
    if let Some(n) = command.strip_prefix("exit ") {
        return (n.parse().unwrap(), s(""), s(""));
    }
    if let Some(t) = command.strip_prefix("echo ") {
        return (0, format!("{t}\n"), s(""));
    }
    match command {
        "true" => (0, s(""), s("")),
        "false" => (1, s(""), s("")),
        other => panic!("not scripted: {other}"),
    }
}

fn output(r: (i32, String, String)) -> ProcessOutput {
    ProcessOutput { exit_code: r.0, stdout: r.1, stderr: r.2, ending: Ending::Exited }
}

/// One attempt at a step: its body, then its checks. Providers echo their prompt; the provider
/// `boom` exits with 3.
fn attempt(step: &Step, ctx: &Context, timeout: Option<Duration>, shell: &mut Shell) -> StepOutcome {
    let body = match dispatch(step, ctx, Err(s("no file")), true) {
        Body::Settled(o) => o,
        Body::Invoke { prompt, .. } => {
            let StepKind::Provider(p) = &step.kind else { panic!("an invoked step has a provider") };
            if p.provider.as_str() == "broken" {
                provider_outcome(Err(ProviderError::Other(s("down"))))
            } else {
                provider_outcome(Ok(InvocationOutcome {
                    exit_code: if p.provider.as_str() == "boom" { 3 } else { 0 },
                    stdout: prompt,
                    stderr: s(""),
                    outputs: OrderedMap::new(),
                    usage: None,
                }))
            }
        },
        Body::Shell(command) => run_outcome(Ok(output(shell(&command))), timeout),
        Body::Act(args) => {
            let mut outputs: OrderedMap<Value> = OrderedMap::new();
            if let Some(m) = args.get("message") {
                outputs.insert(s("message"), m.replicate());
            }
            action_outcome(Ok(ActionOutcome {
                exit_code: 0,
                outputs,
                stderr: s(""),
                side_effects: vec![SideEffect::commit("abc123", None)],
            }))
        },
    };
    let mut checks = Checks::begin(body);
    loop {
        match checks.next(step, ctx) {
            Ask::Gate { command, .. } => {
                let out = shell(&command);
                checks.gate_ran(step, Ok(output(out)), timeout);
            },
            Ask::Judge { .. } => panic!("no judge is scripted"),
            Ask::Done => return checks.finish(),
        }
    }
}

fn execute(
    step: &Step,
    wf: &Workflow,
    ctx: &Context,
    deps_passed: bool,
    timeout: Option<Duration>,
    shell: &mut Shell,
) -> StepOutcome {
    if let Some(o) = decide_outcome(step, ctx, deps_passed) {
        return o;
    }
    let mut attempts = Attempts::begin(step, wf.defaults.retry.as_ref());
    loop {
        let (_, c) = attempts.next_attempt(ctx);
        let outcome = attempt(step, &c, timeout, shell);
        match attempts.settle(outcome, false) {
            Next::Finish(o) => return o,
            Next::Wait(_) => {},
        }
    }
}

fn drive_loop(
    id: &str,
    l: &LoopStep,
    wf: &Workflow,
    state: &mut RunState,
    params: &OrderedMap<Value>,
    restored: bool,
    shell: &mut Shell,
) -> StepOutcome {
    let mut lr = LoopRun::begin(l, state, id, restored, None);
    loop {
        while let Some(launch) = lr.next(l, wf, state, params) {
            let inner = &l.steps[launch.step];
            let o = execute(inner, wf, &launch.ctx, launch.deps_passed, launch.timeout, shell);
            lr.settle(inner, &o);
        }
        match lr.end_iteration(l, wf, state, params) {
            IterationEnd::Over(o) => {
                forget_progress(state, id);
                return o;
            },
            IterationEnd::Again => lr.record_progress(state, id, None, NOW),
        }
    }
}

/// Runs the steps that are left, one after the other.
fn pass_over(
    wf: &Workflow,
    state: &mut RunState,
    params: &OrderedMap<Value>,
    shell: &mut Shell,
    events: &mut Vec<RunEvent>,
) -> ExecResult {
    let mut pass = Pass::begin(wf, state);
    loop {
        let (i, outcome) = match pass.next(wf, state, params, false, NOW) {
            Launch::Nothing => break,
            Launch::Await { .. } => continue,
            Launch::Settle { step, outcome, begun } => {
                if begun {
                    events.push(RunEvent::StepStarted {
                        step: wf.steps[step].id.to_string(),
                        attempt: 1,
                        at: NOW,
                    });
                }
                (step, outcome)
            },
            Launch::Loop { step } => {
                let StepKind::Loop(l) = &wf.steps[step].kind else { panic!("a loop") };
                let id = wf.steps[step].id.to_string();
                (step, drive_loop(&id, l, wf, state, params, false, shell))
            },
            Launch::Run { step, deps_passed, ctx, timeout } => {
                (step, execute(&wf.steps[step], wf, &ctx, deps_passed, timeout, shell))
            },
        };
        let id = wf.steps[i].id.to_string();
        events.extend(step_events(&id, &outcome, NOW));
        let settled = pass.settle(wf, state, &id, &outcome, false, NOW);
        if settled == (Settled::Recorded { capture_diff: true }) {
            let diff = pass.diff().clone();
            pass.record_diff(state, diff);
        }
    }
    assert!(pass.is_idle());
    pass.finish(wf, state)
}

struct Finished {
    state: RunState,
    summary: RunSummary,
    events: Vec<RunEvent>,
}

fn end(wf: &Workflow, mut state: RunState, exec: ExecResult, mut events: Vec<RunEvent>) -> Finished {
    let exec = Ok(exec);
    if let Some(h) = hold(wf, &mut state, &exec, false, NOW) {
        events.push(h.event);
        return Finished { state, summary: h.summary, events };
    }
    let c = close(wf, &mut state, exec, None, false, NOW);
    events.extend(c.events);
    Finished { state, summary: c.summary, events }
}

fn run_with(wf: &Workflow, input: RunInput, shell: &mut Shell) -> Finished {
    let params = accept_run(wf, no_findings(), &input, true).unwrap();
    let run_id = RunId::new();
    let mut state = fresh_state(wf, run_id, input, handle(run_id), NOW);
    let mut events = vec![RunEvent::RunStarted { at: NOW }];
    let exec = pass_over(wf, &mut state, &params, shell, &mut events);
    end(wf, state, exec, events)
}

fn run_plain(wf: &Workflow) -> Finished {
    run_with(wf, RunInput::manual(), &mut plain)
}

/// Goes on with a run that stopped.
fn resume_with(wf: &Workflow, mut state: RunState, shell: &mut Shell) -> Finished {
    let params = match plan_resume(wf, &state, true) {
        Resume::Go(p) => p,
        other => panic!("cannot go on: {other:?}"),
    };
    let mut events = vec![RunEvent::RunResumed { at: NOW }];
    let exec = pass_over(wf, &mut state, &params, shell, &mut events);
    end(wf, state, exec, events)
}

fn of<'a>(f: &'a Finished, id: &str) -> &'a StepResult {
    f.summary.steps.iter().find(|x| x.id.as_str() == id).unwrap()
}

fn status_of(f: &Finished, id: &str) -> Option<StepStatus> {
    f.summary.steps.iter().find(|x| x.id.as_str() == id).map(|x| x.status)
}

fn text_of<'a>(r: &'a StepResult, key: &str) -> Option<&'a str> {
    r.outputs.get(key).and_then(|v| v.as_str())
}

fn passed_state() -> StepState {
    let mut st = StepState::bare(StepStatus::Passed, 1, OrderedMap::new());
    st.exit_code = Some(0);
    st
}

fn stopped(wf: &Workflow, input: RunInput, steps: Vec<(&str, StepState)>) -> RunState {
    let run_id = RunId::new();
    let mut state = fresh_state(wf, run_id, input, handle(run_id), NOW);
    state.status = RunStatus::Running;
    for (id, st) in steps {
        state.steps.insert(s(id), st);
    }
    state
}

// Whole runs.

fn happy() -> Workflow {
    let mut edit = run("edit", "echo more", &["greet"]);
    edit.gates.insert(s("file_exists"), s("true"));
    let mut wf = workflow(
        "e2e",
        vec![
            ask("greet", "echo", "hello {{ params.who }}", &[]),
            edit,
            ask("review", "echo", "edited: {{ steps.edit.outputs.stdout }}", &["edit"]),
        ],
    );
    wf.params.insert(s("who"), ParamSpec { required: true, ..ParamSpec::default() });
    wf
}

#[test]
fn runs_a_workflow_end_to_end() {
    let f = run_with(&happy(), RunInput::manual().param("who", Value::string("world")), &mut plain);
    assert_eq!(f.summary.status, RunStatus::Succeeded, "error: {:?}", f.summary.error);
    assert_eq!(f.summary.steps.len(), 3);
    assert!(f.summary.steps.iter().all(|x| x.status == StepStatus::Passed));
    // The provider received the rendered prompt.
    assert_eq!(of(&f, "greet").outputs.get("stdout"), Some(&Value::string("hello world")));
    assert!(text_of(of(&f, "review"), "stdout").unwrap().contains("more"));
    assert_eq!(of(&f, "edit").gates.get("file_exists"), Some(&true));
    // What was recorded tells the same.
    assert_eq!(summary_from_state(&f.state).status, RunStatus::Succeeded);
}

#[test]
fn smoke_a_run_step_executes_cross_platform() {
    let f = run_plain(&workflow("smoke", vec![run("hello", "echo hello", &[])]));
    assert_eq!(f.summary.status, RunStatus::Succeeded, "error: {:?}", f.summary.error);
    assert_eq!(of(&f, "hello").status, StepStatus::Passed);
    assert!(text_of(of(&f, "hello"), "stdout").unwrap().contains("hello"));
}

#[test]
fn a_failing_step_fails_the_run_and_skips_dependents() {
    let f = run_plain(&workflow(
        "failing",
        vec![run("boom", "exit 7", &[]), run("after", "true", &["boom"])],
    ));
    assert_eq!(f.summary.status, RunStatus::Failed);
    assert_eq!(of(&f, "boom").status, StepStatus::Failed);
    assert_eq!(of(&f, "boom").exit_code, Some(7));
    assert_eq!(
        of(&f, "after").status,
        StepStatus::Skipped,
        "dependent of a failed step is skipped"
    );
}

#[test]
fn a_provider_error_fails_the_run_and_skips_dependents() {
    let f = run_plain(&workflow(
        "pf",
        vec![ask("bad", "broken", "hi", &[]), run("after", "true", &["bad"])],
    ));
    assert_eq!(f.summary.status, RunStatus::Failed);
    assert_eq!(of(&f, "bad").status, StepStatus::Failed);
    assert!(
        f.summary.error.as_deref().unwrap_or_default().contains("provider error"),
        "the run error should name the provider failure: {:?}",
        f.summary.error
    );
    assert_eq!(of(&f, "after").status, StepStatus::Skipped);
}

#[test]
fn a_provider_nonzero_exit_fails_the_step() {
    let f = run_plain(&workflow("pe", vec![ask("bad", "boom", "hi", &[])]));
    assert_eq!(f.summary.status, RunStatus::Failed);
    assert_eq!(of(&f, "bad").status, StepStatus::Failed);
    assert_eq!(of(&f, "bad").exit_code, Some(3), "the non-zero exit code is recorded");
}

#[test]
fn failed_step_records_reason_and_stderr() {
    let wf = workflow("f", vec![run("boom", "fail loudly", &[])]);
    let f = run_with(&wf, RunInput::manual(), &mut |_| (3, s(""), s("the-real-error\n")));
    assert_eq!(f.summary.status, RunStatus::Failed);
    let err = of(&f, "boom").error.as_deref().expect("step error is recorded");
    assert_eq!(err, "exited with code 3\nstderr:\nthe-real-error");
    let run_err = f.summary.error.as_deref().expect("summary.error is set");
    assert!(run_err.contains("boom") && run_err.contains("exited with code 3"), "{run_err}");
    // And it is recorded with the run.
    let again = summary_from_state(&f.state);
    assert!(again.steps[0].error.as_deref().unwrap_or("").contains("the-real-error"));
}

#[test]
fn reloaded_summary_surfaces_the_failure() {
    let f = run_plain(&workflow("boom", vec![run("x", "exit 2", &[])]));
    assert_eq!(f.summary.status, RunStatus::Failed);
    let again = summary_from_state(&f.state);
    assert_eq!(again.status, RunStatus::Failed);
    assert!(again.error.is_some(), "a reloaded failed run must surface its error");
}

#[test]
fn when_false_skips_the_step() {
    let f = run_plain(&workflow(
        "cond",
        vec![run("a", "true", &[]), run_when("maybe", "false", &["a"], "false")],
    ));
    assert_eq!(f.summary.status, RunStatus::Succeeded, "skipped step must not fail the run");
    assert_eq!(of(&f, "maybe").status, StepStatus::Skipped);
}

#[test]
fn when_gate_reads_upstream_step_status() {
    let f = run_plain(&workflow(
        "gate",
        vec![
            run("a", "true", &[]),
            run_when("gated", "true", &["a"], "steps.a.status == 'passed'"),
            run_when("ungated", "true", &["a"], "steps.a.status == 'failed'"),
        ],
    ));
    assert_eq!(f.summary.status, RunStatus::Succeeded, "error: {:?}", f.summary.error);
    assert_eq!(status_of(&f, "gated"), Some(StepStatus::Passed));
    assert_eq!(status_of(&f, "ungated"), Some(StepStatus::Skipped));
}

#[test]
fn run_rejects_a_param_whose_value_mismatches_its_type() {
    let mut wf = workflow("t", vec![run("a", "true", &[])]);
    wf.params.insert(s("n"), ParamSpec { ty: ParamType::Number, ..ParamSpec::default() });
    let bad = RunInput::manual().param("n", Value::string("not-a-number"));
    let err = accept_run(&wf, no_findings(), &bad, true).unwrap_err();
    assert!(matches!(err, Error::Input(_)), "expected Error::Input, got: {err:?}");
    // The same workflow with a correctly-typed value runs fine.
    let f = run_with(&wf, RunInput::manual().param("n", Value::number(42)), &mut plain);
    assert_eq!(f.summary.status, RunStatus::Succeeded, "error: {:?}", f.summary.error);
}

#[test]
fn params_take_their_defaults_and_extras() {
    let mut wf = workflow("t", vec![]);
    wf.params.insert(s("a"), ParamSpec { required: true, ..ParamSpec::default() });
    let with_default = ParamSpec { default: Some(Value::string("d")), ..ParamSpec::default() };
    wf.params.insert(s("b"), with_default);
    wf.params.insert(s("c"), ParamSpec::default());
    let given = RunInput::manual().param("x", Value::number(1)).param("a", Value::string("v"));
    let got = resolve_params(&wf, &given).unwrap();
    assert_eq!(got.len(), 3);
    assert_eq!((got.key_at(0).as_str(), got.key_at(1).as_str()), ("a", "b"));
    assert_eq!(got.get("b"), Some(&Value::string("d")));
    assert_eq!(got.get("x"), Some(&Value::number(1)));
    let err = resolve_params(&wf, &RunInput::manual()).unwrap_err().to_string();
    assert!(err.contains("missing required param \"a\""), "{err}");
}

#[test]
fn action_step_commits_and_records_a_side_effect() {
    let mut with: OrderedMap<Value> = OrderedMap::new();
    with.insert(s("message"), Value::string("automated {{ params.what }}"));
    let save = step(
        "save",
        StepKind::Action(ActionStep { action: s("git.commit"), with }),
        &["edit"],
    );
    let wf = workflow("act", vec![run("edit", "echo more", &[]), save]);
    let input = RunInput::manual().param("what", Value::string("change"));
    let f = run_with(&wf, input, &mut plain);
    assert_eq!(f.summary.status, RunStatus::Succeeded, "error: {:?}", f.summary.error);
    assert!(f.summary.side_effects.iter().any(|x| matches!(x, SideEffect::Commit { .. })));
    assert_eq!(text_of(of(&f, "save"), "message"), Some("automated change"));
}

#[test]
fn reloaded_summary_reconstructs_side_effects_from_persisted_state() {
    let save = step(
        "save",
        StepKind::Action(ActionStep { action: s("git.commit"), with: OrderedMap::new() }),
        &[],
    );
    let f = run_plain(&workflow("act", vec![save]));
    let again = summary_from_state(&f.state);
    assert!(again.side_effects.iter().any(|x| matches!(x, SideEffect::Commit { .. })));
}

// Selection.

fn case_workflow(said: &str) -> Workflow {
    let route = step(
        "route",
        StepKind::Case(CaseStep {
            branches: vec![
                CaseBranch {
                    label: s("bug"),
                    when: Some(s("steps.classify.outputs.stdout | trim == 'bug'")),
                },
                CaseBranch {
                    label: s("docs"),
                    when: Some(s("steps.classify.outputs.stdout | trim == 'docs'")),
                },
            ],
            else_: Some(s("other")),
        }),
        &["classify"],
    );
    workflow(
        "casewf",
        vec![
            run("classify", &format!("echo {said}"), &[]),
            route,
            run_when("fix", "echo fixing", &["route"], "steps.route.outputs.selected == 'bug'"),
            run_when("write", "echo writing", &["route"], "steps.route.outputs.selected == 'docs'"),
            run_when("done", "echo done", &["route"], "steps.route.outputs.selected == 'bug'"),
        ],
    )
}

#[test]
fn case_selects_one_branch_and_join_merges_back() {
    let f = run_plain(&case_workflow("bug"));
    assert_eq!(f.summary.status, RunStatus::Succeeded, "error: {:?}", f.summary.error);
    assert_eq!(status_of(&f, "route"), Some(StepStatus::Passed));
    assert_eq!(text_of(of(&f, "route"), "selected"), Some("bug"));
    assert_eq!(status_of(&f, "fix"), Some(StepStatus::Passed));
    assert_eq!(status_of(&f, "write"), Some(StepStatus::Skipped));
    assert_eq!(status_of(&f, "done"), Some(StepStatus::Passed));
}

#[test]
fn case_falls_through_to_else_when_no_guard_matches() {
    let f = run_plain(&case_workflow("feature"));
    assert_eq!(f.summary.status, RunStatus::Succeeded, "error: {:?}", f.summary.error);
    assert_eq!(text_of(of(&f, "route"), "selected"), Some("other"));
    assert_eq!(status_of(&f, "fix"), Some(StepStatus::Skipped));
    assert_eq!(status_of(&f, "write"), Some(StepStatus::Skipped));
}

fn selector(branches: Vec<(&str, &str)>, depends_on: &[&str]) -> Step {
    let branches = branches
        .into_iter()
        .map(|(l, w)| CaseBranch { label: s(l), when: Some(s(w)) })
        .collect();
    step("r", StepKind::Case(CaseStep { branches, else_: None }), depends_on)
}

#[test]
fn case_selects_the_first_matching_branch() {
    let f = run_plain(&workflow(
        "w",
        vec![selector(vec![("alpha", "1 == 1"), ("beta", "2 == 2")], &[])],
    ));
    assert_eq!(text_of(of(&f, "r"), "selected"), Some("alpha"));
}

#[test]
fn case_with_no_match_and_no_else_selects_empty() {
    let f = run_plain(&workflow(
        "w",
        vec![
            run("c", "echo zzz", &[]),
            selector(vec![("bug", "steps.c.outputs.stdout | trim == 'bug'")], &["c"]),
        ],
    ));
    assert_eq!(
        text_of(of(&f, "r"), "selected"),
        Some(""),
        "no guard matched and no else ⇒ selected is empty"
    );
    assert_eq!(f.summary.status, RunStatus::Succeeded); // the selector still passes
}

#[test]
fn a_guard_that_cannot_be_evaluated_does_not_match() {
    let f = run_plain(&workflow(
        "w",
        vec![selector(vec![("a", "nothing.here == 1"), ("b", "1 == 1")], &[])],
    ));
    assert_eq!(status_of(&f, "r"), Some(StepStatus::Passed), "a selector always passes");
    assert_eq!(text_of(of(&f, "r"), "selected"), Some("b"));
    assert_eq!(of(&f, "r").exit_code, Some(0));
    let f = run_plain(&workflow("w", vec![selector(vec![("a", "nothing.here == 1")], &[])]));
    assert_eq!(status_of(&f, "r"), Some(StepStatus::Passed));
    assert_eq!(text_of(of(&f, "r"), "selected"), Some(""));
    assert_eq!(f.summary.status, RunStatus::Succeeded);
}

// Retries.

/// Understands `if N is 1 fail, else TEXT`: `flaky N TEXT`.
fn flaky(command: &str) -> (i32, String, String) {
    match command.strip_prefix("flaky ") {
        Some(rest) => match rest.split_once(' ') {
            Some(("1", _)) => (1, s(""), s("")),
            Some((_, t)) => (0, format!("{t}\n"), s("")),
            None => panic!("not scripted: {command}"),
        },
        None => plain(command),
    }
}

#[test]
fn retry_feedback_injects_the_prior_failure_into_the_next_attempt() {
    let mut st = run("flaky", "flaky {{ retry.attempt }} fb=[{{ retry.feedback }}]", &[]);
    st.retry = retrying(1, FeedbackMode::Concise);
    let f = run_with(&workflow("w", vec![st]), RunInput::manual(), &mut flaky);
    assert_eq!(f.summary.status, RunStatus::Succeeded, "error: {:?}", f.summary.error);
    assert_eq!(of(&f, "flaky").attempts, 2, "should pass on the second attempt");
    let out = text_of(of(&f, "flaky"), "stdout").unwrap();
    assert!(out.contains("exited with code 1"), "retry.feedback carries the failure: {out:?}");
}

#[test]
fn retry_attempt_is_one_with_feedback_off() {
    let st = run("s", "echo a=[{{ retry.attempt }}] f=[{{ retry.feedback }}]", &[]);
    let f = run_plain(&workflow("w", vec![st]));
    let out = text_of(of(&f, "s"), "stdout").unwrap();
    assert!(out.contains("a=[1]") && out.contains("f=[]"), "stdout: {out:?}");
}

#[test]
fn retry_feedback_carries_gate_stdout_not_just_the_label() {
    let mut st = run("s", "echo fb=[{{ retry.feedback }}]", &[]);
    st.gates.insert(s("check"), s("check {{ retry.attempt }}"));
    st.retry = retrying(1, FeedbackMode::Verbose);
    let wf = workflow("w", vec![st]);
    let f = run_with(&wf, RunInput::manual(), &mut |c: &str| match c {
        "check 1" => (1, s("ASSERT_FAIL left=4 right=5\n"), s("")),
        "check 2" => (0, s(""), s("")),
        other => plain(other),
    });
    assert_eq!(f.summary.status, RunStatus::Succeeded, "error: {:?}", f.summary.error);
    assert_eq!(of(&f, "s").attempts, 2);
    let out = text_of(of(&f, "s"), "stdout").unwrap();
    assert!(out.contains("ASSERT_FAIL left=4 right=5"), "stdout: {out:?}");
}

#[test]
fn retry_root_resolves_in_a_when_guard_without_failing() {
    let st = run_when("s", "echo ok", &[], "retry.attempt == 1 and retry.feedback == ''");
    let f = run_plain(&workflow("w", vec![st]));
    assert_eq!(f.summary.status, RunStatus::Succeeded, "error: {:?}", f.summary.error);
    assert_eq!(of(&f, "s").status, StepStatus::Passed, "the guard should be true, not error");
}

#[test]
fn retry_recovers_a_flaky_step() {
    let mut st = run("flaky", "try it", &[]);
    st.retry = retrying(1, FeedbackMode::Off);
    let mut tries = 0;
    let f = run_with(&workflow("r", vec![st]), RunInput::manual(), &mut |_| {
        tries += 1;
        (if tries == 1 { 1 } else { 0 }, s(""), s(""))
    });
    assert_eq!(f.summary.status, RunStatus::Succeeded, "error: {:?}", f.summary.error);
    assert_eq!(of(&f, "flaky").attempts, 2, "should have retried once");
}

#[test]
fn retry_exhausts_then_fails() {
    let mut st = run("boom", "exit 1", &[]);
    st.retry = retrying(1, FeedbackMode::Off);
    let f = run_plain(&workflow("r", vec![st]));
    assert_eq!(f.summary.status, RunStatus::Failed);
    assert_eq!(f.summary.steps[0].attempts, 2, "1 + max attempts");
}

#[test]
fn a_bare_step_inherits_defaults_retry() {
    let mut wf = workflow("w", vec![run("flaky", "flaky {{ retry.attempt }} ok", &[])]);
    wf.defaults.retry = Some(retrying(2, FeedbackMode::Off));
    let f = run_with(&wf, RunInput::manual(), &mut flaky);
    assert_eq!(f.summary.status, RunStatus::Succeeded, "error: {:?}", f.summary.error);
    assert_eq!(of(&f, "flaky").attempts, 2, "inherited retry should give a 2nd attempt");
}

#[test]
fn a_step_retry_overrides_defaults_retry() {
    let mut st = run("flaky", "attempt {{ retry.attempt }}", &[]);
    st.retry = retrying(1, FeedbackMode::Off);
    let mut wf = workflow("w", vec![st]);
    wf.defaults.retry = Some(retrying(5, FeedbackMode::Off));
    let f = run_with(&wf, RunInput::manual(), &mut |c: &str| {
        (if c == "attempt 3" { 0 } else { 1 }, s(""), s(""))
    });
    assert_eq!(f.summary.status, RunStatus::Failed, "the step's own max must override the default");
    assert_eq!(of(&f, "flaky").attempts, 2);
}

#[test]
fn a_bare_step_inherits_defaults_retry_feedback() {
    let st = run("flaky", "flaky {{ retry.attempt }} fb=[{{ retry.feedback }}]", &[]);
    let mut wf = workflow("w", vec![st]);
    wf.defaults.retry = Some(retrying(1, FeedbackMode::Concise));
    let f = run_with(&wf, RunInput::manual(), &mut flaky);
    assert_eq!(f.summary.status, RunStatus::Succeeded, "error: {:?}", f.summary.error);
    let out = text_of(of(&f, "flaky"), "stdout").unwrap();
    assert!(out.contains("exited with code 1"), "stdout: {out:?}");
}

#[test]
fn a_cancellation_ends_the_attempts() {
    let mut st = run("a", "x", &[]);
    st.retry = retrying(3, FeedbackMode::Off);
    let mut attempts = Attempts::begin(&st, None);
    let ctx = Context::new();
    assert!(attempts.can_retry());
    let (n, _) = attempts.next_attempt(&ctx);
    assert_eq!(n, 1);
    assert!(!attempts.rewinds(), "the first attempt starts where the step starts");
    match attempts.settle(StepOutcome::failed(s("no")), true) {
        Next::Finish(o) => assert_eq!(o.attempts, 1),
        Next::Wait(_) => panic!("a cancelled step is over"),
    }
}

// Loops.

#[test]
fn loop_converges_on_a_later_iteration() {
    let body = vec![run("check", "at least {{ loop.counter }}", &[])];
    let wf = workflow("w", vec![looped("fix", "steps.check.status == 'passed'", 5, body, &[])]);
    let f = run_with(&wf, RunInput::manual(), &mut |c: &str| {
        (if c == "at least 3" { 0 } else { 1 }, s(""), s(""))
    });
    assert_eq!(f.summary.status, RunStatus::Succeeded, "error: {:?}", f.summary.error);
    let fix = of(&f, "fix");
    assert_eq!(fix.status, StepStatus::Passed);
    assert_eq!(fix.outputs.get("iterations"), Some(&Value::number(3)));
    assert_eq!(fix.outputs.get("converged"), Some(&Value::Bool(true)));
}

#[test]
fn loop_exhausts_max_and_fails() {
    let wf = workflow("w", vec![looped("fix", "false", 2, vec![run("noop", "true", &[])], &[])]);
    let f = run_plain(&wf);
    assert_eq!(f.summary.status, RunStatus::Failed);
    let fix = of(&f, "fix");
    assert_eq!(fix.status, StepStatus::Failed);
    assert!(fix.error.as_deref().unwrap_or_default().contains("within 2"), "{:?}", fix.error);
    assert_eq!(fix.outputs.get("iterations"), Some(&Value::number(2)));
    assert_eq!(fix.outputs.get("converged"), Some(&Value::Bool(false)));
}

#[test]
fn loop_accumulates_edits_across_iterations() {
    let body = vec![run("append", "append", &[]), run("check", "enough", &["append"])];
    let wf = workflow("w", vec![looped("fix", "steps.check.status == 'passed'", 6, body, &[])]);
    let mut lines = 0;
    let f = run_with(&wf, RunInput::manual(), &mut |c: &str| match c {
        "append" => {
            lines += 1;
            (0, s(""), s(""))
        },
        _ => (if lines >= 3 { 0 } else { 1 }, s(""), s("")),
    });
    assert_eq!(f.summary.status, RunStatus::Succeeded, "error: {:?}", f.summary.error);
    assert_eq!(of(&f, "fix").outputs.get("iterations"), Some(&Value::number(3)));
}

#[test]
fn loop_feedback_carries_to_the_next_iteration() {
    let body = vec![run("gate", "see {{ loop.feedback }}", &[])];
    let wf = workflow("w", vec![looped("fix", "steps.gate.status == 'passed'", 4, body, &[])]);
    let f = run_with(&wf, RunInput::manual(), &mut |c: &str| {
        if c.contains("UNLOCK") { (0, s(""), s("")) } else { (1, s(""), s("UNLOCK\n")) }
    });
    assert_eq!(f.summary.status, RunStatus::Succeeded, "error: {:?}", f.summary.error);
    assert_eq!(of(&f, "fix").outputs.get("iterations"), Some(&Value::number(2)));
}

#[test]
fn loop_inner_step_reads_an_outer_step() {
    let body = vec![run("use", "exit {{ 0 if steps.setup.outputs.stdout | trim == 'hello' else 1 }}", &[])];
    let wf = workflow(
        "w",
        vec![
            run("setup", "echo hello", &[]),
            looped("fix", "steps.use.status == 'passed'", 1, body, &["setup"]),
        ],
    );
    let f = run_plain(&wf);
    assert_eq!(f.summary.status, RunStatus::Succeeded, "error: {:?}", f.summary.error);
}

#[test]
fn loop_clears_its_progress_when_it_settles() {
    let body = vec![run("noop", "true", &[])];
    let wf = workflow("w", vec![looped("fix", "loop.counter >= 3", 5, body, &[])]);
    let f = run_plain(&wf);
    assert_eq!(f.summary.status, RunStatus::Succeeded, "error: {:?}", f.summary.error);
    assert!(f.state.loop_state.is_empty(), "loop_state must be cleared once the loop settles");
}

#[test]
fn loop_resumes_from_the_last_completed_iteration() {
    let body = vec![run("log", "log", &[]), run("check", "at {{ loop.counter }}", &["log"])];
    let wf = workflow("w", vec![looped("fix", "steps.check.status == 'passed'", 10, body, &[])]);
    let running = StepState::bare(StepStatus::Running, 1, OrderedMap::new());
    let mut state = stopped(&wf, RunInput::manual(), vec![("fix", running)]);
    state.base_commit = Some(s("base"));
    state.loop_state.insert(
        s("fix"),
        LoopProgress {
            last_completed_iteration: 2,
            iteration_snapshot: Some(s("base")),
            feedback: None,
        },
    );
    let head = Some(s("base"));
    let target = loop_restore_target(&state, "fix", &state.base_commit, &head);
    assert_eq!(target, Some(s("base")));
    let StepKind::Loop(l) = &wf.steps[0].kind else { panic!("a loop") };
    let mut logged = 0;
    let params: OrderedMap<Value> = OrderedMap::new();
    let o = drive_loop("fix", l, &wf, &mut state, &params, true, &mut |c: &str| match c {
        "log" => {
            logged += 1;
            (0, s(""), s(""))
        },
        c => (if c == "at 4" { 0 } else { 1 }, s(""), s("")),
    });
    assert_eq!(o.status, StepStatus::Passed);
    assert_eq!(o.outputs.get("iterations"), Some(&Value::number(4)), "the counter continues");
    assert_eq!(logged, 2, "only iterations 3-4 should re-run");
    // Where the workdir could not be restored, the loop starts over.
    assert_eq!(loop_restore_target(&state, "fix", &Some(s("base")), &Some(s("moved"))), None);
}

// Approval.

fn approval_workflow() -> Workflow {
    workflow(
        "appr",
        vec![
            run("plan", "echo planned", &[]),
            gate("gate", Some("ok to proceed?"), &["plan"]),
            run("ship", "echo shipped", &["gate"]),
        ],
    )
}

fn decide(wf: &Workflow, f: Finished, d: Decision, by: &str, note: Option<&str>) -> Finished {
    let mut state = f.state;
    let id = state.run_id;
    let workflows = vec![approval_workflow()];
    assert_eq!(check_decidable(id, &state, &workflows).unwrap(), 0);
    let event = record_decision(&mut state, id, d, s(by), note.map(s), NOW).unwrap();
    let mut done = resume_with(wf, state, &mut plain);
    done.events.insert(0, event);
    done
}

#[test]
fn approval_gate_pauses_then_resumes_on_approve() {
    let wf = approval_workflow();
    let first = run_plain(&wf);
    assert_eq!(first.summary.status, RunStatus::AwaitingApproval, "the run must pause at a gate");
    assert_eq!(status_of(&first, "plan"), Some(StepStatus::Passed));
    assert_eq!(status_of(&first, "gate"), Some(StepStatus::AwaitingApproval));
    assert_eq!(status_of(&first, "ship"), None, "downstream must not run while paused");
    assert_eq!(text_of(of(&first, "gate"), "message"), Some("ok to proceed?"));

    let second = decide(&wf, first, Decision::Approved, "alice", None);
    assert_eq!(second.summary.status, RunStatus::Succeeded, "error: {:?}", second.summary.error);
    assert_eq!(status_of(&second, "gate"), Some(StepStatus::Passed));
    assert_eq!(status_of(&second, "ship"), Some(StepStatus::Passed));
}

#[test]
fn approval_gate_reject_fails_with_feedback_and_skips_downstream() {
    let wf = approval_workflow();
    let first = run_plain(&wf);
    let second = decide(&wf, first, Decision::Rejected, "bob", Some("needs tests"));
    assert_eq!(second.summary.status, RunStatus::Failed);
    let g = of(&second, "gate");
    assert_eq!(g.status, StepStatus::Failed);
    assert_eq!(g.error.as_deref(), Some("rejected by bob: needs tests"));
    assert_eq!(text_of(g, "feedback"), Some("needs tests"));
    assert_eq!(status_of(&second, "ship"), Some(StepStatus::Skipped));
}

#[test]
fn an_approved_gate_emits_paired_start_finish_events() {
    let wf = approval_workflow();
    let first = run_plain(&wf);
    let second = decide(&wf, first, Decision::Approved, "alice", None);
    assert!(second
        .events
        .iter()
        .any(|e| matches!(e, RunEvent::StepStarted { step, .. } if step == "gate")));
    assert!(second
        .events
        .iter()
        .any(|e| matches!(e, RunEvent::StepFinished { step, .. } if step == "gate")));
}

#[test]
fn approval_emits_decided_and_resumed_events() {
    let wf = approval_workflow();
    let first = run_plain(&wf);
    let second = decide(&wf, first, Decision::Approved, "alice", Some("good"));
    assert!(second.events.iter().any(|e| matches!(
        e,
        RunEvent::ApprovalDecided { decision: Decision::Approved, approver, note: Some(n), .. }
            if approver == "alice" && n == "good"
    )));
    assert!(second.events.iter().any(|e| matches!(e, RunEvent::RunResumed { .. })));
}

#[test]
fn approval_gate_emits_suspended_and_rejection_decided() {
    let wf = approval_workflow();
    let first = run_plain(&wf);
    assert!(first.events.iter().any(|e| matches!(
        e,
        RunEvent::RunSuspended { reason: SuspendReason::Approval, .. }
    )));
    let second = decide(&wf, first, Decision::Rejected, "bob", Some("nope"));
    assert!(second.events.iter().any(|e| matches!(
        e,
        RunEvent::ApprovalDecided { decision: Decision::Rejected, approver, .. } if approver == "bob"
    )));
}

#[test]
fn submit_approval_with_a_missing_workflow_errors_without_bricking_the_run() {
    let first = run_plain(&approval_workflow());
    let err = check_decidable(first.state.run_id, &first.state, &vec![]).unwrap_err();
    assert!(err.to_string().contains("workflow"), "should refuse a missing workflow, got: {err:?}");
    // …and the run still waits.
    assert!(check_decidable(first.state.run_id, &first.state, &vec![approval_workflow()]).is_ok());
}

#[test]
fn a_run_that_does_not_wait_cannot_be_decided() {
    let wf = workflow("w", vec![run("a", "true", &[])]);
    let done = run_plain(&wf);
    let workflows = vec![wf];
    assert!(check_decidable(done.state.run_id, &done.state, &workflows).is_err());
    let mut state = done.state;
    let id = state.run_id;
    assert!(record_decision(&mut state, id, Decision::Approved, s("a"), None, NOW).is_err());
    assert!(state.approvals.is_empty());
}

#[test]
fn reject_and_rerun_fails_the_original_and_starts_a_fresh_run_with_feedback() {
    let wf = approval_workflow();
    let first = run_with(&wf, RunInput::manual().param("task", Value::string("original")), &mut plain);
    assert_eq!(first.summary.status, RunStatus::AwaitingApproval);
    let workflows = vec![approval_workflow()];
    assert!(check_rerun(first.state.run_id, &first.state, &workflows).is_ok());
    let input = rerun_input(first.state.input.replicate(), "needs tests");
    assert_eq!(input.params.get("feedback").and_then(|v| v.as_str()), Some("needs tests"));
    assert_eq!(input.params.get("task").and_then(|v| v.as_str()), Some("original"));
    let old = first.state.run_id;
    let rejected = decide(&wf, first, Decision::Rejected, "bob", Some("needs tests"));
    assert_eq!(rejected.summary.run_id, old);
    assert_eq!(rejected.summary.status, RunStatus::Failed);
    let rerun = run_with(&wf, input, &mut plain);
    assert_ne!(rerun.summary.run_id, old);
    assert_eq!(rerun.summary.status, RunStatus::AwaitingApproval);
}

#[test]
fn reject_and_rerun_refuses_a_misdeclared_feedback_param_without_failing_the_run() {
    let mut wf = workflow("badfb", vec![run("plan", "echo planned", &[]), gate("gate", None, &["plan"])]);
    wf.params.insert(s("feedback"), ParamSpec { ty: ParamType::Number, ..ParamSpec::default() });
    let first = run_plain(&wf);
    assert_eq!(first.summary.status, RunStatus::AwaitingApproval);
    let err = check_rerun(first.state.run_id, &first.state, &vec![wf]).unwrap_err().to_string();
    assert!(err.contains("feedback"), "should explain the misdeclared param, got: {err}");
    assert_eq!(summary_from_state(&first.state).status, RunStatus::AwaitingApproval);
}

#[test]
fn two_concurrent_approvals_resume_the_run_exactly_once() {
    let id = RunId::new();
    let mut ledger = Ledger::new();
    assert!(ledger.claim_run(id), "the first approval claims the run");
    assert!(!ledger.claim_run(id), "the second is turned away");
    assert!(ledger.claim_run(RunId::new()), "another run is free");
    ledger.release_run(id);
    assert!(ledger.claim_run(id));
}

// Going on after a stop.

#[test]
fn resume_continues_an_incomplete_run() {
    let wf = happy();
    let input = RunInput::manual().param("who", Value::string("resumed"));
    let state = stopped(&wf, input, vec![("greet", passed_state())]);
    let f = resume_with(&wf, state, &mut plain);
    assert_eq!(f.summary.status, RunStatus::Succeeded, "error: {:?}", f.summary.error);
    assert_eq!(f.summary.steps.len(), 3);
    assert_eq!(status_of(&f, "greet"), Some(StepStatus::Passed), "pre-completed step preserved");
    assert!(of(&f, "greet").outputs.is_empty(), "it did not run again");
    assert_eq!(status_of(&f, "edit"), Some(StepStatus::Passed), "remaining steps executed");
    assert_eq!(status_of(&f, "review"), Some(StepStatus::Passed));
}

#[test]
fn resume_reconstructs_persisted_side_effects_in_the_summary() {
    let wf = workflow("se", vec![ask("first", "echo", "hi", &[]), run("rest", "true", &["first"])]);
    let mut first = passed_state();
    first.side_effects.push(SideEffect::commit("abc123", Some(s("main"))));
    let f = resume_with(&wf, stopped(&wf, RunInput::manual(), vec![("first", first)]), &mut plain);
    assert_eq!(f.summary.status, RunStatus::Succeeded, "error: {:?}", f.summary.error);
    assert!(f.summary.side_effects.iter().any(|x| matches!(x, SideEffect::Commit { .. })));
}

#[test]
fn resume_keeps_a_failed_step_failed_and_its_dependents_skipped() {
    let wf = workflow(
        "f",
        vec![run("a", "true", &[]), run("b", "true", &["a"]), run("c", "true", &["b"])],
    );
    let mut b = StepState::bare(StepStatus::Failed, 2, OrderedMap::new());
    b.exit_code = Some(1);
    b.error = Some(s("boom"));
    b.side_effects.push(SideEffect::commit("def456", Some(s("main"))));
    let mut c = StepState::bare(StepStatus::Skipped, 0, OrderedMap::new());
    c.error = Some(s("an upstream dependency did not pass"));
    let state =
        stopped(&wf, RunInput::manual(), vec![("a", passed_state()), ("b", b), ("c", c)]);
    let f = resume_with(&wf, state, &mut plain);
    assert_eq!(f.summary.status, RunStatus::Failed, "a settled failure must stay failed");
    assert_eq!(status_of(&f, "b"), Some(StepStatus::Failed), "b must not re-run");
    assert_eq!(status_of(&f, "c"), Some(StepStatus::Skipped), "c must stay skipped");
    assert!(f.summary.side_effects.iter().any(|x| matches!(x, SideEffect::Commit { .. })));
}

#[test]
fn resume_uses_the_persisted_diff() {
    let mut wf = happy();
    wf.steps[2] = ask("review", "echo", "diff is:\n{{ artifacts.DIFF }}", &["edit"]);
    let input = RunInput::manual().param("who", Value::string("resumed"));
    let mut state = stopped(&wf, input, vec![("greet", passed_state()), ("edit", passed_state())]);
    state.artifacts.insert(s("DIFF"), s("+a tracked change\n"));
    let f = resume_with(&wf, state, &mut plain);
    assert_eq!(f.summary.status, RunStatus::Succeeded, "error: {:?}", f.summary.error);
    assert!(text_of(of(&f, "review"), "stdout").unwrap().contains("a tracked change"));
}

#[test]
fn resume_fails_a_run_whose_workspace_is_gone_without_aborting() {
    let wf = happy();
    let input = RunInput::manual().param("who", Value::string("x"));
    let state = stopped(&wf, input, vec![]);
    match plan_resume(&wf, &state, false) {
        Resume::Fail(why) => assert!(why.contains("workspace is gone"), "{why}"),
        other => panic!("must fail: {other:?}"),
    }
    let mut homeless = state;
    homeless.workspace = None;
    assert!(matches!(plan_resume(&wf, &homeless, true), Resume::NoWorkspace));
}

#[test]
fn resume_restores_workdir_so_an_appending_step_is_not_double_applied() {
    let wf = workflow("idem", vec![run("append", "echo line", &[])]);
    let running = StepState::bare(StepStatus::Running, 1, OrderedMap::new());
    let mut state = stopped(&wf, RunInput::manual(), vec![("append", running)]);
    state.base_commit = Some(s("base"));
    // Nothing passed yet: the workdir goes back to where the run began.
    assert_eq!(restore_target(&wf, &state, &Some(s("base"))), Some(s("base")));
}

#[test]
fn the_base_is_recorded_once() {
    let wf = workflow("w", vec![]);
    let mut state = stopped(&wf, RunInput::manual(), vec![]);
    record_base(&mut state, Some(s("base")));
    record_base(&mut state, Some(s("later")));
    assert_eq!(state.base_commit.as_deref(), Some("base"));
    let mut begun = stopped(&wf, RunInput::manual(), vec![("a", passed_state())]);
    record_base(&mut begun, Some(s("head")));
    assert_eq!(begun.base_commit, None, "its steps may have moved HEAD");
}

#[test]
fn resume_does_not_rewind_past_a_passed_step_when_its_snapshot_is_missing() {
    let wf = workflow("nodataloss", vec![run("a", "true", &[]), run("b", "true", &["a"])]);
    let mut state = stopped(&wf, RunInput::manual(), vec![("a", passed_state())]);
    state.base_commit = Some(s("base"));
    assert_eq!(restore_target(&wf, &state, &Some(s("base"))), None);
    state.snapshot = Some(s("snap"));
    assert_eq!(restore_target(&wf, &state, &Some(s("base"))), Some(s("snap")));
}

#[test]
fn resume_does_not_rewind_past_a_commit_when_the_snapshot_is_stale() {
    let wf = workflow("commitcrash", vec![run("committer", "true", &[]), run("after", "true", &["committer"])]);
    let mut state = stopped(&wf, RunInput::manual(), vec![("committer", passed_state())]);
    state.base_commit = Some(s("base"));
    state.snapshot = Some(s("base"));
    assert_eq!(restore_target(&wf, &state, &Some(s("moved"))), None);
    assert_eq!(restore_target(&wf, &state, &None), None);
}

// Shutdown and cancellation.

/// Starts the only step of a workflow and lets it fail as a killed process does.
fn interrupted(wf: &Workflow, shutdown: bool) -> (RunState, Result<ExecResult, String>) {
    let run_id = RunId::new();
    let mut state = fresh_state(wf, run_id, RunInput::manual(), handle(run_id), NOW);
    let params: OrderedMap<Value> = OrderedMap::new();
    let mut pass = Pass::begin(wf, &state);
    let Launch::Run { step, timeout, .. } = pass.next(wf, &mut state, &params, false, NOW) else {
        panic!("the step starts");
    };
    let killed = ProcessOutput { exit_code: -1, stdout: s(""), stderr: s(""), ending: Ending::Cancelled };
    let outcome = run_outcome(Ok(killed), timeout);
    assert_eq!(outcome.status, StepStatus::Failed);
    let id = wf.steps[step].id.to_string();
    let settled = pass.settle(wf, &mut state, &id, &outcome, shutdown, NOW);
    assert_eq!(settled == Settled::Rewound, wf.durable && shutdown);
    assert!(matches!(pass.next(wf, &mut state, &params, true, NOW), Launch::Nothing));
    let exec = pass.finish(wf, &state);
    (state, Ok(exec))
}

#[test]
fn shutdown_suspends_a_durable_run_then_resume_completes_it() {
    let wf = workflow("sd", vec![run("s", "true", &[]), run("done", "true", &["s"])]);
    let (mut state, exec) = interrupted(&wf, true);
    let held = hold(&wf, &mut state, &exec, true, NOW).expect("a durable run is held");
    assert_eq!(held.summary.status, RunStatus::Running, "suspended (non-terminal), not Cancelled");
    assert!(!state.status.is_terminal(), "the suspended run is resumable");
    let f = resume_with(&wf, state, &mut plain);
    assert_eq!(f.summary.status, RunStatus::Succeeded, "error: {:?}", f.summary.error);
}

#[test]
fn durable_shutdown_emits_suspended_not_cancelled() {
    let wf = workflow("sd", vec![run("s", "true", &[])]);
    let (mut state, exec) = interrupted(&wf, true);
    let held = hold(&wf, &mut state, &exec, true, NOW).unwrap();
    assert!(matches!(held.event, RunEvent::RunSuspended { reason: SuspendReason::Shutdown, .. }));
}

#[test]
fn cancel_all_active_stops_a_running_step_as_cancelled() {
    let mut wf = workflow("c", vec![run("s", "true", &[])]);
    wf.durable = false;
    let (mut state, exec) = interrupted(&wf, true);
    assert!(hold(&wf, &mut state, &exec, true, NOW).is_none(), "nothing keeps such a run");
    let c = close(&wf, &mut state, exec, Some(CancelReason::Shutdown), false, NOW);
    assert_eq!(c.summary.status, RunStatus::Cancelled);
    assert_eq!(c.summary.error, None, "only a failed run has an error");
    let mut ledger = Ledger::new();
    assert_eq!(ledger.active(), 0);
    ledger.register_cancel(state.run_id);
    assert!(ledger.can_cancel(state.run_id) && ledger.active() == 1);
    assert!(!ledger.can_cancel(RunId::new()), "an unknown run id can't be cancelled");
    ledger.unregister_cancel(state.run_id);
    assert_eq!(ledger.active(), 0);
}

#[test]
fn user_cancel_of_a_durable_run_is_terminal_not_resumed() {
    let wf = workflow("uc", vec![run("s", "true", &[])]);
    let (mut state, exec) = interrupted(&wf, false);
    assert!(hold(&wf, &mut state, &exec, false, NOW).is_none());
    let c = close(&wf, &mut state, exec, Some(CancelReason::User), false, NOW);
    assert_eq!(c.summary.status, RunStatus::Cancelled);
    assert_eq!(c.summary.error, None, "only a failed run has an error");
    assert!(state.status.is_terminal(), "a user-cancelled run is over");
}

#[test]
fn cancel_emits_run_cancelled_immediately_before_run_finished() {
    let wf = workflow("co", vec![run("s", "true", &[])]);
    let (mut state, exec) = interrupted(&wf, false);
    let c = close(&wf, &mut state, exec, Some(CancelReason::User), false, NOW);
    assert_eq!(c.events.len(), 2);
    assert!(matches!(c.events[0], RunEvent::RunCancelled { reason: CancelReason::User, .. }));
    assert!(matches!(c.events[1], RunEvent::RunFinished { status: RunStatus::Cancelled, .. }));
}

#[test]
fn a_clean_run_brackets_events_and_emits_no_cancelled() {
    let f = run_plain(&workflow("clean", vec![run("s", "true", &[])]));
    assert_eq!(f.summary.status, RunStatus::Succeeded);
    assert!(!f.events.iter().any(|e| matches!(e, RunEvent::RunCancelled { .. })));
    assert!(matches!(f.events.first(), Some(RunEvent::RunStarted { .. })));
    assert!(matches!(
        f.events.last(),
        Some(RunEvent::RunFinished { status: RunStatus::Succeeded, .. })
    ));
}

#[test]
fn summary_finished_at_is_none_while_running() {
    let wf = workflow("nf", vec![run("s", "true", &[])]);
    let state = stopped(&wf, RunInput::manual(), vec![]);
    assert!(summary_from_state(&state).finished_at.is_none(), "an in-flight run has no end");
    let f = run_plain(&wf);
    assert!(summary_from_state(&f.state).finished_at.is_some(), "a terminal run has finished_at");
}

// Order and concurrency.

#[test]
fn an_exclusive_step_does_not_block_scratch_steps_behind_it() {
    let scratch = |id: &str| Step { scratch: true, ..run(id, "true", &[]) };
    let mut wf = workflow("par", vec![scratch("a"), run("gate", "true", &[]), scratch("c")]);
    wf.max_parallel = Some(3);
    let run_id = RunId::new();
    let mut state = fresh_state(&wf, run_id, RunInput::manual(), handle(run_id), NOW);
    let params: OrderedMap<Value> = OrderedMap::new();
    let mut pass = Pass::begin(&wf, &state);
    let mut next = |pass: &mut Pass, state: &mut RunState| {
        match pass.next(&wf, state, &params, false, NOW) {
            Launch::Run { step, .. } => Some(wf.steps[step].id.to_string()),
            Launch::Nothing => None,
            other => panic!("unexpected: {other:?}"),
        }
    };
    assert_eq!(next(&mut pass, &mut state).as_deref(), Some("a"));
    assert_eq!(next(&mut pass, &mut state).as_deref(), Some("c"), "beside a, past the exclusive one");
    assert_eq!(next(&mut pass, &mut state), None);
    let ok = || StepOutcome::passing(0, OrderedMap::new(), None);
    pass.settle(&wf, &mut state, "a", &ok(), false, NOW);
    assert_eq!(next(&mut pass, &mut state), None, "the workdir is not clear yet");
    pass.settle(&wf, &mut state, "c", &ok(), false, NOW);
    assert_eq!(next(&mut pass, &mut state).as_deref(), Some("gate"));
}

#[test]
fn independent_scratch_steps_run_concurrently() {
    let scratch = |id: &str| Step { scratch: true, ..run(id, "true", &[]) };
    let mut wf = workflow("par", vec![scratch("a"), scratch("b"), scratch("c")]);
    wf.max_parallel = Some(2);
    let run_id = RunId::new();
    let mut state = fresh_state(&wf, run_id, RunInput::manual(), handle(run_id), NOW);
    let params: OrderedMap<Value> = OrderedMap::new();
    let mut pass = Pass::begin(&wf, &state);
    let started = |l: Launch| matches!(l, Launch::Run { .. });
    assert!(started(pass.next(&wf, &mut state, &params, false, NOW)));
    assert!(started(pass.next(&wf, &mut state, &params, false, NOW)));
    assert!(!started(pass.next(&wf, &mut state, &params, false, NOW)), "two at a time");
    assert!(!pass.is_idle());
}

#[test]
fn a_snapshot_is_only_taken_at_the_base() {
    let wf = workflow("w", vec![run("a", "true", &[]), run("b", "true", &["a"])]);
    let run_id = RunId::new();
    let state = fresh_state(&wf, run_id, RunInput::manual(), handle(run_id), NOW);
    let mut pass = Pass::begin(&wf, &state);
    assert!(pass.wants_snapshot());
    assert_eq!(pass.plan_snapshot(&Some(s("base")), &Some(s("base"))), Some(s("base")));
    // A step committed: snapshots stop for good.
    assert_eq!(pass.plan_snapshot(&Some(s("base")), &Some(s("moved"))), None);
    assert!(!pass.wants_snapshot());
}

#[test]
fn scratch_diff_flows_to_a_downstream_step() {
    let mut cand = run("cand", "true", &[]);
    cand.scratch = true;
    let wf = workflow(
        "chain",
        vec![cand, ask("use", "echo", "candidate:\n{{ steps.cand.outputs.diff }}", &["cand"])],
    );
    let run_id = RunId::new();
    let mut state = fresh_state(&wf, run_id, RunInput::manual(), handle(run_id), NOW);
    let params: OrderedMap<Value> = OrderedMap::new();
    let mut pass = Pass::begin(&wf, &state);
    assert!(matches!(pass.next(&wf, &mut state, &params, false, NOW), Launch::Run { .. }));
    let done = with_scratch_diff(StepOutcome::passing(0, OrderedMap::new(), None), Some(s("+zzz")));
    assert_eq!(
        pass.settle(&wf, &mut state, "cand", &done, false, NOW),
        Settled::Recorded { capture_diff: false },
        "a scratch step leaves the shared workdir alone"
    );
    let Launch::Run { ctx, .. } = pass.next(&wf, &mut state, &params, false, NOW) else {
        panic!("the second step starts");
    };
    let o = attempt(&wf.steps[1], &ctx, None, &mut plain);
    assert!(o.outputs.get("stdout").and_then(|v| v.as_str()).unwrap().contains("zzz"));
}

// Judges.

fn judged_step() -> Step {
    let mut a = ask("a", "echo", "hi", &[]);
    a.judge = Some(JudgeSpec {
        provider: ProviderRef::new("scorer"),
        criteria: s("ok"),
        threshold: 0.7f32.to_bits(),
    });
    a
}

fn judge_with(verdict: Result<Verdict, String>) -> StepOutcome {
    let step = judged_step();
    let ctx = Context::new();
    let mut outputs: OrderedMap<Value> = OrderedMap::new();
    outputs.insert(s("stdout"), Value::string("hi"));
    let mut checks = Checks::begin(StepOutcome::passing(0, outputs, None));
    let Ask::Judge { prompt } = checks.next(&step, &ctx) else { panic!("the judge is asked") };
    assert!(prompt.contains("Criteria:\nok\n\nOutput to score:\nhi"), "{prompt}");
    checks.judge_said(verdict);
    assert!(matches!(checks.next(&step, &ctx), Ask::Done));
    checks.finish()
}

#[test]
fn judge_passes_a_step_above_threshold() {
    let o = judge_with(Ok(Verdict { score: 0.9f32.to_bits(), too_low: None }));
    assert_eq!(o.status, StepStatus::Passed);
    assert!((f32::from_bits(o.judge_score.unwrap()) - 0.9).abs() < 0.001);
    // The score is recorded with the step.
    assert_eq!(o.to_state().judge_score, o.judge_score);
}

#[test]
fn judge_fails_a_step_below_threshold() {
    let low = s("judge score 0.20 below threshold 0.70");
    let o = judge_with(Ok(Verdict { score: 0.2f32.to_bits(), too_low: Some(low) }));
    assert_eq!(o.status, StepStatus::Failed);
    assert!((f32::from_bits(o.judge_score.unwrap()) - 0.2).abs() < 0.001);
    assert!(o.error.as_deref().unwrap_or("").contains("judge score"));
    let o = judge_with(Err(s("no answer")));
    assert_eq!(o.error.as_deref(), Some("judge error: no answer"));
    assert_eq!(o.judge_score, None);
}

// Recovery after a restart.

/// The runs that recovery resumes, with their ends.
fn resume_all(ledger: &mut Ledger, workflows: &Vec<Workflow>, left: Vec<RunState>) -> Vec<Finished> {
    let plan = plan_recovery(ledger, workflows, &left);
    assert_eq!(plan.len(), left.len());
    let mut out = vec![];
    for (state, r) in left.into_iter().zip(plan) {
        if let Recovery::Resume { workflow } = r {
            out.push(resume_with(&workflows[workflow], state, &mut plain));
        }
    }
    out
}

#[test]
fn resume_all_recovers_multiple_runs() {
    let wf = workflow("rm", vec![run("s", "true", &[]), run("done", "true", &["s"])]);
    let mut store = MemStore::new();
    for _ in 0..2 {
        let (mut state, exec) = interrupted(&wf, true);
        let held = hold(&wf, &mut state, &exec, true, NOW).expect("each run suspends");
        assert_eq!(held.summary.status, RunStatus::Running, "suspended, not terminal");
        store.checkpoint(&state);
    }
    let left = store.load_incomplete();
    let resumed = resume_all(&mut Ledger::new(), &vec![wf], left);
    assert_eq!(resumed.len(), 2, "both incomplete runs are recovered");
    assert!(resumed.iter().all(|f| f.summary.status == RunStatus::Succeeded));
}

#[test]
fn a_run_is_recovered_once_and_only_where_it_is_served() {
    let wf = workflow("known", vec![run("s", "true", &[])]);
    let (known, _) = interrupted(&wf, true);
    let (foreign, _) = interrupted(&workflow("gone", vec![run("s", "true", &[])]), true);
    let again = known.replicate();
    let mut ledger = Ledger::new();
    let workflows = vec![workflow("other", vec![]), wf];
    let plan = plan_recovery(&mut ledger, &workflows, &vec![foreign, known, again]);
    assert_eq!(plan, vec![Recovery::Reclaim, Recovery::Resume { workflow: 1 }, Recovery::Busy]);
}

#[test]
fn approval_gate_survives_a_restart_then_resumes() {
    let wf = approval_workflow();
    let first = run_plain(&wf);
    assert_eq!(first.summary.status, RunStatus::AwaitingApproval);
    let run_id = first.state.run_id;
    let mut store = MemStore::new();
    store.checkpoint(&first.state);
    // A run that waits is not resumed by recovery...
    let left: Vec<RunState> =
        store.load_incomplete().into_iter().filter(|st| is_unfinished(st.status)).collect();
    assert!(left.is_empty(), "a run parked at an approval gate is not crash-resumed");
    // ...only once a decision is recorded.
    let mut state = store.load_run(run_id).unwrap();
    let event = record_decision(&mut state, run_id, Decision::Approved, s("alice"), None, NOW).unwrap();
    assert!(matches!(event, RunEvent::ApprovalDecided { decision: Decision::Approved, .. }));
    let second = resume_with(&wf, state, &mut plain);
    assert_eq!(second.summary.status, RunStatus::Succeeded, "error: {:?}", second.summary.error);
}

#[test]
fn what_a_finished_run_says_is_what_its_state_says() {
    let wf = workflow("rb", vec![run("a", "echo hi", &[]), run("b", "exit 3", &["a"])]);
    let f = run_plain(&wf);
    let again = summary_from_state(&f.state);
    assert_eq!(again.status, f.summary.status);
    assert_eq!(again.error, f.summary.error);
    assert_eq!(again.steps.len(), f.summary.steps.len());
    for (x, y) in again.steps.iter().zip(f.summary.steps.iter()) {
        assert_eq!((x.id.as_str(), x.status, x.exit_code), (y.id.as_str(), y.status, y.exit_code));
    }
}

#[test]
fn a_pass_that_has_nothing_left_settled_every_step() {
    let wf = workflow(
        "all",
        vec![run("c", "true", &["b"]), run("a", "exit 1", &[]), run("b", "true", &["a"])],
    );
    let f = run_plain(&wf);
    assert_eq!(f.summary.status, RunStatus::Failed);
    for id in ["a", "b", "c"] {
        assert!(of(&f, id).status.is_terminal(), "{id} settled");
    }
    assert_eq!(status_of(&f, "b"), Some(StepStatus::Skipped));
    assert_eq!(status_of(&f, "c"), Some(StepStatus::Skipped));
}

#[test]
fn a_cancellation_has_one_reason() {
    assert_eq!(cancel_reason(false, true), None);
    assert_eq!(cancel_reason(true, true), Some(CancelReason::Shutdown));
    assert_eq!(cancel_reason(true, false), Some(CancelReason::User));
}
