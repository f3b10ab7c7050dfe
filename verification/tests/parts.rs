//! The parts of the engine, each on its own.

use odin::api::{Decision, RunInput, RunStatus, StepStatus, Usage};
use odin::context::render::Context;
use odin::engine::approval::{claimed_error, fenced_error, no_store_error, no_workspace_error};
use odin::engine::builder::{EngineBuilder, Registry};
use odin::engine::context::{attempt_context, build_ctx, build_ctx_with};
use odin::engine::dispatch::{
    action_outcome, check_exit, dispatch, gate_command, judge_missing_error, needs_scratch,
    no_score_error, prompt_escape_error, prompt_file_error, record_gate, render_prompt,
    run_outcome, scratch_failure, with_scratch_diff, Body, ProcessOutput,
};
use odin::engine::events::{step_events, RunEvent};
use odin::engine::feedback::{
    backoff_delay, clip_middle, clip_tail, effective_retry, effective_timeout, failure_detail,
    first_line, join_streams, killed_reason, retry_feedback, with_stderr_tail, Ending,
    DEFAULT_STEP_TIMEOUT_SECS,
};
use odin::engine::git::{
    captured_diff, clean_args, delete_ref_args, diff_args, head_args, index_name,
    intent_to_add_args, leftover_prefixes, list_refs_args, listed_refs, printed_object, reset_args,
    run_branch_ref, run_ref, scratch_name, scratch_prefix, snapshot_env, was_reset,
    worktree_add_args, worktree_error, worktree_prune_args, worktree_remove_args, Snapshot,
};
use odin::engine::judge::score_candidates;
use odin::engine::ledger::{is_persisted, Ledger};
use odin::engine::lifecycle::{
    accept_run, fail_run, latest, named_workflow, serving_workflow, summary_from_state,
};
use odin::engine::loops::{is_at_base, loop_ref};
use odin::engine::mirror::{light_snapshot, Mirror, MIRROR_CAP};
use odin::engine::retry::retry_ref;
use odin::engine::schedule::{has_scratch, record_snapshot};
use odin::engine::state::{decide_gate, skipped_outcome, RunState, StepOutcome, StepState};
use odin::error::{ActionError, Error};
use odin::ids::{ArtifactName, ProviderRef, RunId, StepId, WorkflowId};
use odin::ir::duration::HumanDuration;
use odin::ir::step::{
    ActionStep, ApprovalStep, Artifacts, Backoff, FeedbackMode, ProviderStep, RetrySpec, RunStep,
    Step, StepKind,
};
use odin::ir::workflow::{SchemaVersion, Workflow, WorkflowDefaults};
use odin::ir::workspace::WorkspaceConfig;
use odin::json::Value;
use odin::names::OrderedMap;
use odin::time::{Duration, Timestamp};
use odin::validate::diagnostic::{DiagCode, Diagnostic, ValidationReport};

const RUN: RunId = RunId(0x67e5504410b1426f9247bb680e5fe0c8);
const RUN_TEXT: &str = "67e55044-10b1-426f-9247-bb680e5fe0c8";

fn s(x: &str) -> String {
    x.to_owned()
}

fn bare_step(id: &str, kind: StepKind) -> Step {
    Step {
        id: StepId::new(id),
        kind,
        artifacts: Artifacts::none(),
        gates: OrderedMap::new(),
        judge: None,
        retry: RetrySpec::default(),
        timeout: None,
        when: None,
        depends_on: vec![],
        scratch: false,
    }
}

fn run(id: &str, command: &str) -> Step {
    bare_step(id, StepKind::Run(RunStep { run: s(command) }))
}

fn asks(id: &str, prompt: Option<&str>, file: Option<&str>) -> Step {
    let p = ProviderStep {
        provider: ProviderRef::new("echo"),
        prompt: prompt.map(s),
        prompt_file: file.map(s),
    };
    bare_step(id, StepKind::Provider(p))
}

fn workflow(name: &str) -> Workflow {
    Workflow {
        schema_version: SchemaVersion::default(),
        name: WorkflowId::new(name),
        version: None,
        description: None,
        tags: vec![],
        durable: true,
        workspace: WorkspaceConfig::default(),
        triggers: vec![],
        params: OrderedMap::new(),
        steps: vec![],
        defaults: WorkflowDefaults { timeout: None, retry: None },
        max_parallel: None,
    }
}

fn mirror_state(status: RunStatus) -> RunState {
    RunState {
        run_id: RunId::new(),
        workflow: WorkflowId::new("w"),
        schema_major: 1,
        status,
        error: None,
        steps: OrderedMap::new(),
        artifacts: OrderedMap::new(),
        provider_versions: OrderedMap::new(),
        approvals: OrderedMap::new(),
        input: RunInput::manual(),
        workspace: None,
        base_commit: None,
        snapshot: None,
        loop_state: OrderedMap::new(),
        created_at: Timestamp { secs: 0, nanos: 0 },
        updated_at: Timestamp { secs: 0, nanos: 0 },
    }
}

fn exited(code: i32, stdout: &str, stderr: &str) -> ProcessOutput {
    ProcessOutput { exit_code: code, stdout: s(stdout), stderr: s(stderr), ending: Ending::Exited }
}

// Clipping and feedback.

#[test]
fn clip_middle_keeps_short_output_whole() {
    assert_eq!(clip_middle("hello", 1024), "hello");
    assert_eq!(clip_middle("", 1024), "");
}

#[test]
fn clip_middle_keeps_head_and_tail_with_a_marker() {
    let t = "A".repeat(100) + &"B".repeat(100);
    let out = clip_middle(&t, 40);
    assert!(out.starts_with("AAAAAAAAAAAAAAAAAAAA\n"), "keeps the head: {out:?}");
    assert!(out.ends_with("\nBBBBBBBBBBBBBBBBBBBB"), "keeps the tail: {out:?}");
    assert!(out.contains("bytes truncated"), "marks the omission: {out:?}");
    // The omitted count is the gap between the kept head and tail.
    assert!(out.contains("160 bytes truncated"), "{out:?}");
}

#[test]
fn clip_middle_respects_char_boundaries() {
    // Multi-byte chars must not be split (no panic, valid UTF-8 out).
    let t = "é".repeat(1000); // 2 bytes each
    let out = clip_middle(&t, 101); // odd, lands mid-char without the boundary walk
    assert!(out.is_char_boundary(0));
    assert!(std::str::from_utf8(out.as_bytes()).is_ok());
    assert_eq!(out, format!("{}\n…[1900 bytes truncated]…\n{}", "é".repeat(25), "é".repeat(25)));
}

#[test]
fn clip_tail_keeps_the_end() {
    assert_eq!(clip_tail("abcdef", 6), "abcdef");
    assert_eq!(clip_tail("abcdef", 2), "…ef");
    assert_eq!(clip_tail("aéb", 2), "…b", "a split char is dropped");
    assert_eq!(clip_tail("abc", 0), "…");
}

#[test]
fn failures_carry_their_error_output() {
    assert_eq!(with_stderr_tail("m", "  \n"), "m");
    assert_eq!(with_stderr_tail("m", " e \n"), "m\nstderr:\ne");
    let long = "x".repeat(2001);
    assert_eq!(
        with_stderr_tail("m", &long),
        format!("m\nstderr (last 2000 bytes):\n…{}", "x".repeat(2000))
    );
    assert_eq!(join_streams(" out \n", ""), "out");
    assert_eq!(join_streams("", " err "), "err");
    assert_eq!(join_streams("out", "err"), "err\nout");
    assert_eq!(failure_detail("h", "  "), "h");
    assert_eq!(failure_detail("h", " d "), "d");
    assert_eq!(first_line("a\nb"), "a");
    assert_eq!(first_line(""), "");
}

#[test]
fn kills_are_named() {
    let two = Some(Duration::from_secs(2));
    assert_eq!(killed_reason(Ending::Exited, two), None);
    assert_eq!(killed_reason(Ending::TimedOut, two), Some(s("timed out after 2s")));
    assert_eq!(killed_reason(Ending::Cancelled, two), Some(s("cancelled")));
    let killed = ProcessOutput {
        exit_code: -1,
        stdout: s("o"),
        stderr: s("e"),
        ending: Ending::TimedOut,
    };
    let o = run_outcome(Ok(killed), two);
    assert_eq!(o.status, StepStatus::Failed);
    assert_eq!(o.error.as_deref(), Some("timed out after 2s\nstderr:\ne"));
    assert_eq!(o.failure_detail.as_deref(), Some("e"));
}

#[test]
fn delays_double_up_to_a_bound() {
    assert_eq!(backoff_delay(Backoff::Fixed, 9), Duration::from_millis(250));
    assert_eq!(backoff_delay(Backoff::Exponential, 1), Duration::from_millis(250));
    assert_eq!(backoff_delay(Backoff::Exponential, 2), Duration::from_millis(500));
    assert_eq!(backoff_delay(Backoff::Exponential, 7), Duration::from_millis(16_000));
    assert_eq!(backoff_delay(Backoff::Exponential, 200), Duration::from_millis(16_000));
}

#[test]
fn feedback_depends_on_the_mode() {
    let prior = Some(s("\n  \nfirst\nsecond"));
    assert_eq!(retry_feedback(FeedbackMode::Off, &prior), "");
    assert_eq!(retry_feedback(FeedbackMode::Concise, &prior), "first");
    assert_eq!(retry_feedback(FeedbackMode::Verbose, &prior), "\n  \nfirst\nsecond");
    assert_eq!(retry_feedback(FeedbackMode::Verbose, &None), "");
    let long = Some("y".repeat(2500));
    assert_eq!(retry_feedback(FeedbackMode::Verbose, &long), format!("…{}", "y".repeat(2000)));
}

#[test]
fn a_noop_retry_inherits() {
    let own = RetrySpec { max: 1, ..RetrySpec::default() };
    let default = RetrySpec { max: 5, ..RetrySpec::default() };
    let noop = RetrySpec::default();
    assert_eq!(effective_retry(&own, Some(&default)).max, 1);
    assert_eq!(effective_retry(&noop, Some(&default)).max, 5);
    assert_eq!(effective_retry(&noop, None).max, 0);
    let told = RetrySpec { feedback: FeedbackMode::Verbose, ..RetrySpec::default() };
    assert!(noop.is_noop() && !told.is_noop());
    assert_eq!(effective_retry(&told, Some(&default)).max, 0, "any policy of its own counts");
}

#[test]
fn effective_timeout_applies_a_default_only_to_subprocess_kinds() {
    let default = Some(Duration::from_secs(DEFAULT_STEP_TIMEOUT_SECS));
    let none = WorkflowDefaults { timeout: None, retry: None };
    // Subprocess kinds get the built-in default; a gate gets none.
    let act = ActionStep { action: s("git.commit"), with: OrderedMap::new() };
    assert_eq!(effective_timeout(&run("r", "x"), &none), default);
    assert_eq!(effective_timeout(&asks("p", Some("hi"), None), &none), default);
    assert_eq!(effective_timeout(&bare_step("c", StepKind::Action(act)), &none), default);
    let g = bare_step("g", StepKind::Approval(ApprovalStep { message: Some(s("ok")) }));
    assert_eq!(
        effective_timeout(&g, &none),
        None,
        "an approval gate must never get an implicit timeout"
    );
    // An explicit step timeout wins; otherwise the workflow default applies.
    let five = WorkflowDefaults { timeout: Some(HumanDuration::parse("5s").unwrap()), retry: None };
    let mut a = run("a", "x");
    a.timeout = Some(HumanDuration::parse("2s").unwrap());
    assert_eq!(effective_timeout(&a, &five), Some(Duration::from_secs(2)));
    assert_eq!(effective_timeout(&run("b", "y"), &five), Some(Duration::from_secs(5)));
}

// Scores.

fn parse_score(text: &str) -> Option<f32> {
    score_candidates(text)
        .iter()
        .find_map(|t| t.trim().parse::<f64>().ok().filter(|n| !n.is_nan()))
        .map(|n| (n as f32).clamp(0.0, 1.0))
}

#[test]
fn parse_score_reads_json() {
    assert_eq!(parse_score(r#"{"score": 0.8}"#), Some(0.8));
    assert_eq!(parse_score("noise before {\"score\": 1.5} after"), Some(1.0));
    assert_eq!(parse_score("no json here"), None);
    // Verdict wrapped in brace-bearing prose (common for real judges).
    assert_eq!(parse_score("Looking at {correctness}. Final: {\"score\": 0.85}"), Some(0.85));
    // Score as a string, or under a nested key.
    assert_eq!(parse_score(r#"{"score": "0.9"}"#), Some(0.9));
    assert_eq!(parse_score(r#"{"result": {"score": 0.7}}"#), Some(0.7));
}

#[test]
fn a_score_is_found_inside_arrays() {
    assert_eq!(parse_score(r#"[{"score": 1}]"#), Some(1.0));
    assert_eq!(parse_score(r#"{"results":[{"note":"}","score":0.5}]}"#), Some(0.5));
    assert_eq!(score_candidates(r#"{"results": [7, [{"score": 0.5}]]}"#)[0], "0.5");
    assert_eq!(
        score_candidates(r#"[{"a": {"score": 0.1}, "score": 0.2}, {"score": "0.3"}]"#)[..3],
        ["0.2", "0.1", "0.3"]
    );
}

#[test]
fn a_score_that_is_no_number_is_passed_over() {
    assert_eq!(parse_score(r#"{"score": "high", "detail": {"score": 0.25}}"#), Some(0.25));
    assert_eq!(parse_score(r#"{"score": true}"#), None);
    assert_eq!(parse_score(r#"{"score": "NaN"}"#), None);
}

// The mirror.

#[test]
fn mirror_is_bounded_and_evicts_terminal_first() {
    let mut mirror = Mirror::new();
    // One in-flight run, then flood with terminal runs past the cap.
    let live = mirror_state(RunStatus::Running);
    mirror.mirror_put(&live);
    for _ in 0..MIRROR_CAP + 50 {
        mirror.mirror_put(&mirror_state(RunStatus::Succeeded));
    }
    assert!(mirror.len() <= MIRROR_CAP, "mirror exceeded its cap: {}", mirror.len());
    assert!(
        mirror.get(live.run_id).is_some(),
        "the in-flight run must survive eviction of terminal runs"
    );
    mirror.forget(live.run_id);
    assert!(mirror.get(live.run_id).is_none());
}

#[test]
fn light_snapshot_drops_heavy_keeps_gate_message_and_caps_params() {
    let mut state = mirror_state(RunStatus::AwaitingApproval);
    let mut outputs: OrderedMap<Value> = OrderedMap::new();
    outputs.insert(s("message"), Value::string("ok to ship?"));
    outputs.insert(s("stdout"), Value::String("X".repeat(2_000_000)));
    state
        .steps
        .insert(s("gate"), StepState::bare(StepStatus::AwaitingApproval, 0, outputs));
    state.artifacts.insert(s("DIFF"), "Y".repeat(2_000_000));
    state.input.trigger_payload =
        Value::Object(vec![(s("huge"), format!("\"{}\"", "Z".repeat(1_000_000)))]);
    state.input.params.insert(s("big"), Value::String("Z".repeat(10_000)));
    state.input.params.insert(s("small"), Value::string("ok"));

    let light = light_snapshot(&state);
    assert!(light.artifacts.is_empty(), "DIFF dropped");
    assert_eq!(light.input.trigger_payload, Value::Null, "payload dropped");
    let gate = light.steps.get("gate").unwrap();
    assert!(gate.outputs.contains_key("message"), "gate message kept");
    assert!(!gate.outputs.contains_key("stdout"), "step stdout dropped");
    assert_eq!(light.input.params.get("small"), Some(&Value::string("ok")), "small param kept");
    let big = light.input.params.get("big").unwrap();
    assert!(big.as_str().unwrap().contains("omitted"), "large param capped: {big:?}");
}

#[test]
fn a_durable_run_with_a_store_is_not_mirrored() {
    let state = mirror_state(RunStatus::Succeeded);
    let mut ledger = Ledger::new();
    assert!(is_persisted(true, true));
    ledger.checkpoint(true, true, &state);
    assert!(ledger.mirror().get(state.run_id).is_none());
}

#[test]
fn a_durable_run_without_a_store_is_mirrored() {
    let state = mirror_state(RunStatus::Succeeded);
    let mut ledger = Ledger::new();
    ledger.checkpoint(true, false, &state);
    assert_eq!(ledger.mirror().get(state.run_id).map(|r| r.status), Some(RunStatus::Succeeded));
}

#[test]
fn recent_and_summary_see_a_non_durable_run() {
    let state = mirror_state(RunStatus::Succeeded);
    let mut ledger = Ledger::new();
    ledger.checkpoint(false, true, &state);
    let seen = ledger.mirror().get(state.run_id).expect("the mirror should hold the run");
    assert_eq!(summary_from_state(seen).status, RunStatus::Succeeded);
    assert_eq!(ledger.mirror().len(), 1);
    assert_eq!(ledger.mirror().at(0).run_id, state.run_id);
}

// Templates of a run.

#[test]
fn a_run_has_every_root() {
    let mut steps: OrderedMap<StepState> = OrderedMap::new();
    let mut outputs: OrderedMap<Value> = OrderedMap::new();
    outputs.insert(s("stdout"), Value::string("o"));
    let mut st = StepState::bare(StepStatus::Passed, 1, outputs);
    st.exit_code = Some(0);
    steps.insert(s("a"), st);
    let mut params: OrderedMap<Value> = OrderedMap::new();
    params.insert(s("p"), Value::number(1));
    let ctx = build_ctx(&params, &Value::Null, &steps, &Some(s("d")), RUN, "w");
    let v: serde_json::Value = serde_json::from_str(&ctx.to_json()).unwrap();
    assert_eq!(v["params"]["p"], 1);
    assert!(v["trigger"].is_null());
    assert_eq!(v["steps"]["a"]["outputs"]["stdout"], "o");
    assert_eq!(v["steps"]["a"]["exit_code"], 0);
    assert_eq!(v["steps"]["a"]["status"], "passed");
    assert_eq!(v["artifacts"]["DIFF"], "d");
    assert_eq!(v["run"]["id"], RUN_TEXT);
    assert_eq!(v["run"]["workflow"], "w");
    assert_eq!(v["retry"]["attempt"], 1);
    assert_eq!(v["retry"]["feedback"], "");
    assert_eq!(v["loop"]["counter"], 1);
    assert_eq!(v["loop"]["feedback"], "");
    let ctx = build_ctx_with(&params, &Value::Null, &steps, &None, RUN, "w", 3, "fb");
    let v: serde_json::Value = serde_json::from_str(&ctx.to_json()).unwrap();
    assert_eq!(v["loop"]["counter"], 3);
    assert_eq!(v["loop"]["feedback"], "fb");
    assert_eq!(v["artifacts"].as_object().map(|o| o.len()), Some(0));
    let again = attempt_context(&ctx, FeedbackMode::Verbose, 2, &Some(s("why")));
    let v: serde_json::Value = serde_json::from_str(&again.to_json()).unwrap();
    assert_eq!(v["retry"]["attempt"], 2);
    assert_eq!(v["retry"]["feedback"], "why");
    assert_eq!(v["params"]["p"], 1);
}

// Bodies and checks.

#[test]
fn prompts_come_from_the_step_or_its_file() {
    let ctx = Context::new().with_root("x", s("1"));
    let inline = asks("a", Some("p{{ x }}"), Some("f"));
    let StepKind::Provider(p) = &inline.kind else { panic!("a provider") };
    assert_eq!(render_prompt(p, Err(s("unread")), &ctx), Ok(s("p1")));
    let filed = asks("a", None, Some("f"));
    let StepKind::Provider(p) = &filed.kind else { panic!("a provider") };
    assert_eq!(render_prompt(p, Ok(s("f{{ x }}")), &ctx), Ok(s("f1")));
    let lost = prompt_file_error("f", "gone");
    assert_eq!(lost, "reading prompt_file \"f\": gone");
    assert_eq!(render_prompt(p, Err(lost), &ctx), Err(s("reading prompt_file \"f\": gone")));
    assert_eq!(prompt_escape_error("../f"), "prompt_file \"../f\" escapes the repository root");
    let empty = asks("a", None, None);
    let StepKind::Provider(p) = &empty.kind else { panic!("a provider") };
    assert_eq!(render_prompt(p, Ok(s("x")), &ctx), Err(s("provider step has no prompt")));
}

#[test]
fn unregistered_plugins_fail_the_step() {
    let ctx = Context::new();
    match dispatch(&asks("a", Some("p"), None), &ctx, Ok(s("")), false) {
        Body::Settled(o) => {
            assert_eq!(o.error.as_deref(), Some("provider \"echo\" is not registered"));
        },
        other => panic!("must be settled: {other:?}"),
    }
    let act = ActionStep { action: s("x.y"), with: OrderedMap::new() };
    match dispatch(&bare_step("a", StepKind::Action(act)), &ctx, Ok(s("")), false) {
        Body::Settled(o) => {
            assert_eq!(o.error.as_deref(), Some("action \"x.y\" is not registered"));
        },
        other => panic!("must be settled: {other:?}"),
    }
}

#[test]
fn required_artifacts_are_handed_over() {
    let mut st = asks("a", Some("p"), None);
    st.artifacts.requires_ =
        vec![ArtifactName::new("FOO"), ArtifactName::new("DIFF"), ArtifactName::new("BAR")];
    match dispatch(&st, &Context::new(), Ok(s("")), true) {
        Body::Invoke { inputs, .. } => assert_eq!(inputs, ["FOO", "BAR"]),
        other => panic!("must be invoked: {other:?}"),
    }
}

#[test]
fn an_exit_code_fails_the_step() {
    let mut o = StepOutcome::passing(4, OrderedMap::new(), None);
    o.stderr = s("e");
    let o = check_exit(o);
    assert_eq!(o.status, StepStatus::Failed);
    assert_eq!(o.error.as_deref(), Some("exited with code 4\nstderr:\ne"));
    assert_eq!(o.failure_detail.as_deref(), Some("e"));
    let fine = check_exit(StepOutcome::passing(0, OrderedMap::new(), None));
    assert_eq!(fine.status, StepStatus::Passed);
}

#[test]
fn gates_must_all_exit_zero() {
    let ok = StepOutcome::passing(0, OrderedMap::new(), None);
    let (command, ok) = match gate_command("test {{ x }}", &Context::new().with_root("x", s("1")), ok) {
        Ok(p) => p,
        Err(o) => panic!("renders: {o:?}"),
    };
    assert_eq!(command, "test 1");
    let o = record_gate(ok, "g", Ok(exited(0, "", "")), None);
    assert_eq!(o.gates.get("g"), Some(&true));
    let o = record_gate(o, "h", Ok(exited(1, "out", "err")), None);
    assert_eq!(o.gates.get("h"), Some(&false));
    assert_eq!(o.error.as_deref(), Some("gate \"h\" failed\nstderr:\nerr\nout"));
    assert_eq!(o.failure_detail.as_deref(), Some("err\nout"));
    let ok = StepOutcome::passing(0, OrderedMap::new(), None);
    let o = record_gate(ok, "i", Err(s("no shell")), None);
    assert_eq!(o.error.as_deref(), Some("gate \"i\" failed\nstderr:\nno shell"));
    let ok = StepOutcome::passing(0, OrderedMap::new(), None);
    assert!(gate_command("{{ missing }}", &Context::new(), ok).is_err());
}

#[test]
fn outside_failures_fail_the_step() {
    let o = run_outcome(Err(s("no shell")), None);
    assert_eq!(o.error.as_deref(), Some("run error: no shell"));
    let o = action_outcome(Err(ActionError::Other(s("bad"))));
    assert!(o.error.as_deref().unwrap().starts_with("action error: "), "{:?}", o.error);
    assert_eq!(judge_missing_error("j"), "judge provider \"j\" is not registered");
    assert_eq!(no_score_error(" hm \n"), "could not parse a score from judge output: hm");
}

#[test]
fn scratch_steps_work_apart() {
    let mut st = run("a", "x");
    assert!(!needs_scratch(&st, true) && !has_scratch(&vec![run("b", "x")]));
    st.scratch = true;
    assert!(needs_scratch(&st, true));
    assert!(!needs_scratch(&st, false), "a step that is skipped needs no worktree");
    assert_eq!(scratch_failure("no room").status, StepStatus::Failed);
    let skipped = with_scratch_diff(skipped_outcome(), Some(s("d")));
    assert!(skipped.outputs.get("diff").is_none());
    assert!(has_scratch(&vec![st]));
}

#[test]
fn failed_scratch_step_still_captures_its_diff() {
    let bad = check_exit(StepOutcome::passing(1, OrderedMap::new(), None));
    let bad = with_scratch_diff(bad, Some(s("+partial")));
    assert_eq!(bad.status, StepStatus::Failed);
    let diff = bad.outputs.get("diff").and_then(|v| v.as_str()).unwrap_or_default();
    assert!(diff.contains("partial"), "a failed scratch step should still expose its diff");
}

#[test]
fn outcomes_are_announced() {
    let mut o = StepOutcome::passing(0, OrderedMap::new(), None);
    o.gates.insert(s("g"), true);
    o.judge_score = Some(0.5f32.to_bits());
    let events = step_events("a", &o, Timestamp { secs: 7, nanos: 0 });
    assert_eq!(events.len(), 3);
    assert!(matches!(&events[0], RunEvent::GateResult { gate, passed: true, .. } if gate == "g"));
    assert!(matches!(&events[1], RunEvent::JudgeResult { .. }));
    assert!(matches!(
        &events[2],
        RunEvent::StepFinished { status: StepStatus::Passed, exit_code: Some(0), .. }
    ));
}

#[test]
fn decisions_settle_gates() {
    let d = |decision, note: Option<&str>| odin::api::ApprovalDecision {
        decision,
        approver: s("bob"),
        at: Timestamp { secs: 0, nanos: 0 },
        note: note.map(s),
    };
    let yes = decide_gate(&d(Decision::Approved, Some("n")));
    assert_eq!(yes.status, StepStatus::Passed);
    assert_eq!(yes.outputs.get("decision"), Some(&Value::string("approved")));
    assert_eq!(yes.outputs.get("approver"), Some(&Value::string("bob")));
    assert_eq!(yes.outputs.get("note"), Some(&Value::string("n")));
    let no = decide_gate(&d(Decision::Rejected, None));
    assert_eq!(no.status, StepStatus::Failed);
    assert_eq!(no.error.as_deref(), Some("rejected by bob"));
    assert_eq!(no.outputs.get("feedback"), Some(&Value::string("")));
}

// Runs.

#[test]
fn runs_with_errors_are_refused() {
    let bad = ValidationReport {
        diagnostics: vec![Diagnostic::new(DiagCode::TemplateSyntax, s("/p"), s("m"))],
    };
    let wf = workflow("w");
    assert!(matches!(
        accept_run(&wf, bad, &RunInput::manual(), true),
        Err(Error::Validation(r)) if r.error_count() == 1
    ));
    let mut gated = workflow("g");
    gated.steps.push(bare_step("g", StepKind::Approval(ApprovalStep { message: None })));
    let fine = || ValidationReport { diagnostics: vec![] };
    assert!(accept_run(&gated, fine(), &RunInput::manual(), false).is_err(), "a gate needs a store");
    assert!(accept_run(&gated, fine(), &RunInput::manual(), true).is_ok());
}

#[test]
fn workflows_are_found_by_name() {
    let ws = vec![workflow("a"), workflow("b"), workflow("a")];
    assert_eq!(named_workflow(&ws, "a"), Some(0));
    assert_eq!(serving_workflow(&ws, "a"), Some(2));
    assert_eq!(named_workflow(&ws, "c"), None);
    assert_eq!(serving_workflow(&ws, "c"), None);
}

#[test]
fn a_failed_run_is_over() {
    let mut state = mirror_state(RunStatus::Running);
    let c = fail_run(&mut state, "gone", Timestamp { secs: 5, nanos: 0 });
    assert_eq!(state.status, RunStatus::Failed);
    assert_eq!(state.error.as_deref(), Some("gone"));
    assert_eq!(c.summary.status, RunStatus::Failed);
    assert!(matches!(
        c.events.last(),
        Some(RunEvent::RunFinished { status: RunStatus::Failed, .. })
    ));
}

#[test]
fn the_store_comes_before_the_mirror() {
    let a = mirror_state(RunStatus::Succeeded);
    let b = mirror_state(RunStatus::Running);
    let (ida, idb) = (a.run_id, b.run_id);
    assert_eq!(latest(Some(a), Some(b)).map(|r| r.run_id), Some(ida));
    assert_ne!(ida, idb);
    let c = mirror_state(RunStatus::Running);
    let idc = c.run_id;
    assert_eq!(latest(None, Some(c)).map(|r| r.run_id), Some(idc));
    assert!(latest(None, None).is_none());
}

#[test]
fn usage_is_summed_over_steps() {
    let mut state = mirror_state(RunStatus::Succeeded);
    for id in ["a", "b"] {
        let mut st = StepState::bare(StepStatus::Passed, 1, OrderedMap::new());
        st.usage = Some(Usage { input_tokens: 2, output_tokens: 3, cost_micros: 4 });
        state.steps.insert(s(id), st);
    }
    let sum = summary_from_state(&state);
    assert_eq!(sum.usage.input_tokens, 4);
    assert_eq!(sum.usage.output_tokens, 6);
    assert_eq!(sum.usage.cost_micros, 8);
    assert_eq!(sum.steps.len(), 2);
}

#[test]
fn refusals_name_the_run() {
    for e in [claimed_error(RUN), fenced_error(RUN), no_workspace_error(RUN)] {
        assert!(e.to_string().contains(RUN_TEXT), "{e:?}");
    }
    assert!(!no_store_error().to_string().is_empty());
}

#[test]
fn engines_are_set_up() {
    let mut b = EngineBuilder::new().repo("/r").store("s");
    b.registry_mut().register_provider("echo");
    b.registry_mut().register_workspace("worktree");
    b.registry_mut().register_action("x.y");
    let setup = b.build().unwrap();
    assert_eq!(setup.repo_root, "/r");
    assert_eq!(setup.store.as_deref(), Some("s"));
    assert!(setup.registry.has_provider("echo") && setup.registry.has_provider("codex"));
    assert!(setup.registry.has_provider("copilot"));
    assert!(setup.registry.has_workspace("worktree"));
    assert!(setup.registry.has_action("x.y") && setup.registry.has_action("git.commit"));
    let fresh = Registry::with_builtins();
    assert!(!fresh.has_provider("echo") && !fresh.has_workspace("worktree"));
}

// Git.

fn words(v: &[String]) -> String {
    v.join(" ")
}

#[test]
fn diff_includes_new_and_staged_files() {
    assert_eq!(words(&intent_to_add_args()), "add -N .");
    assert_eq!(words(&diff_args(&Some(s("abc")))), "diff abc --");
    assert_eq!(words(&diff_args(&None)), "diff");
    assert_eq!(words(&head_args()), "rev-parse HEAD");
}

#[test]
fn capture_diff_returns_none_for_an_unresolvable_base() {
    assert_eq!(captured_diff(Some((128, s("fatal")))), None, "an unresolvable base gives none");
    assert_eq!(captured_diff(Some((0, s("")))), Some(s("")), "no changes are an empty diff");
    assert_eq!(captured_diff(None), None);
}

#[test]
fn printed_names_are_trimmed() {
    assert_eq!(printed_object(&Some((0, s(" abc\n")))), Some(s("abc")));
    assert_eq!(printed_object(&Some((0, s("\n")))), None);
    assert_eq!(printed_object(&Some((1, s("abc")))), None);
    assert!(was_reset(&Some((0, s("")))) && !was_reset(&Some((1, s("")))) && !was_reset(&None));
}

#[test]
fn a_snapshot_is_five_commands() {
    let mut snap = Snapshot::begin("base", "refs/odin/run/x");
    let mut ran: Vec<String> = vec![];
    while let Some(args) = snap.command() {
        let first = args[0].clone();
        ran.push(words(&args));
        snap.ran(Some((
            0,
            match first.as_str() {
                "write-tree" => s("tree\n"),
                "commit-tree" => s("sha\n"),
                _ => s(""),
            },
        )));
    }
    assert_eq!(ran.len(), 5, "{ran:?}");
    assert!(ran[3].contains("tree") && ran[3].contains("-p base"), "{ran:?}");
    assert!(ran[4].contains("refs/odin/run/x") && ran[4].contains("sha"), "{ran:?}");
    assert_eq!(snap.finish(), Some(s("sha")));
    let mut broken = Snapshot::begin("base", "r");
    broken.ran(Some((1, s(""))));
    assert_eq!(broken.command(), None);
    assert_eq!(broken.finish(), None);
}

#[test]
fn refs_are_named_after_the_run() {
    assert_eq!(run_ref(RUN), format!("refs/odin/run/{RUN_TEXT}"));
    assert_eq!(run_branch_ref(RUN), format!("refs/heads/odin/run/{RUN_TEXT}"));
    assert_eq!(retry_ref(RUN, "s"), format!("refs/odin/retry/{RUN_TEXT}/s"));
    assert!(loop_ref(RUN, "s").contains(RUN_TEXT));
    for p in leftover_prefixes(RUN) {
        assert!(p.starts_with("refs/odin/") && p.contains(RUN_TEXT), "{p}");
    }
    assert!(words(&list_refs_args("refs/odin/retry/x")).starts_with("for-each-ref"));
    assert_eq!(listed_refs("a\n\n b \n"), ["a", "b"]);
    assert_eq!(words(&delete_ref_args("r")), "update-ref -d r");
    assert_eq!(words(&reset_args("t")), "read-tree -u --reset t");
    assert_eq!(words(&clean_args()), "clean -fd");
    let name = scratch_name(RUN, "a", "u");
    assert!(name.starts_with(&scratch_prefix(RUN)), "{name}");
    assert_eq!(name, format!("odin-scratch-{RUN_TEXT}-a-u"));
    assert!(index_name(RUN, "u").contains(RUN_TEXT));
    assert!(snapshot_env("/i").iter().any(|(k, v)| k == "GIT_INDEX_FILE" && v == "/i"));
    assert!(words(&worktree_add_args("/p")).starts_with("worktree add"));
    assert!(words(&worktree_remove_args("/p")).starts_with("worktree remove"));
    assert_eq!(words(&worktree_prune_args()), "worktree prune");
    assert!(worktree_error(" bad \n").contains("bad"));
}

#[test]
fn a_run_is_at_its_base_or_not() {
    assert!(is_at_base(&Some(s("a")), &Some(s("a"))));
    assert!(!is_at_base(&Some(s("a")), &Some(s("b"))));
    assert!(!is_at_base(&Some(s("a")), &None));
    let mut state = mirror_state(RunStatus::Running);
    record_snapshot(&mut state, Some(s("t")));
    assert_eq!(state.snapshot.as_deref(), Some("t"));
}
