use odin::api::{Decision, RunInput, RunStatus, SideEffect, StepStatus, Usage};
use odin::error::{ActionError, Error, ProviderError, StoreError, TriggerError, WorkspaceError};
use odin::ids::{ArtifactName, GateName, ParamName, ProviderRef, RunId, StepId, WorkflowId};
use odin::ir::duration::HumanDuration;
use odin::ir::params::{ParamSpec, ParamType};
use odin::ir::step::{
    ActionStep, ApprovalStep, Artifacts, CaseBranch, CaseStep, KindFields, LoopStep, ProviderStep,
    RetrySpec, RunStep, Step, StepKind,
};
use odin::ir::workflow::{
    check_schema, normalize_tags, SchemaVersion, Workflow, WorkflowDefaults, CURRENT_SCHEMA_MAJOR,
};
use odin::ir::workspace::{ResetMode, SlotPoolConfig, WorkspaceConfig, WorktreeConfig};
use odin::json::{ObjectText, Value};
use odin::names::{NameSet, OrderedMap};
use odin::time::{Duration, Timestamp};
use odin::validate::diagnostic::{DiagCode, Diagnostic, ValidationReport};
use odin::version;

fn s(x: &str) -> String {
    x.to_owned()
}

fn texts(v: &[&str]) -> Vec<String> {
    v.iter().map(|x| s(x)).collect()
}

/// The kind of a step that sets the given discriminants.
fn kind_of(
    provider: Option<&str>,
    prompt: Option<&str>,
    action: Option<&str>,
    with: Option<OrderedMap<Value>>,
    run: Option<&str>,
    case: Option<CaseStep>,
) -> Result<StepKind, String> {
    StepKind::from_discriminants(
        provider.map(ProviderRef::new),
        prompt.map(s),
        None,
        action.map(s),
        with,
        run.map(s),
        None,
        case,
        None,
    )
}

fn one_arg(k: &str, v: &str) -> OrderedMap<Value> {
    let mut m: OrderedMap<Value> = OrderedMap::new();
    m.insert(s(k), Value::string(v));
    m
}

fn bare_step(id: &str, kind: StepKind) -> Step {
    Step {
        id: StepId::new(id),
        kind,
        artifacts: Artifacts::none(),
        gates: OrderedMap::new(),
        judge: None,
        retry: RetrySpec::default(),
        timeout: None,
        when: None,
        depends_on: vec![],
        scratch: false,
    }
}

fn workflow_of(steps: Vec<Step>) -> Workflow {
    Workflow {
        schema_version: SchemaVersion::default(),
        name: WorkflowId::new("w"),
        version: None,
        description: None,
        tags: vec![],
        durable: true,
        workspace: WorkspaceConfig::default(),
        triggers: vec![],
        params: OrderedMap::new(),
        steps,
        defaults: WorkflowDefaults { timeout: None, retry: None },
        max_parallel: None,
    }
}

// Ids.

#[test]
fn display_and_as_str_match() {
    let id = StepId::new("plan");
    assert_eq!(id.as_str(), "plan");
    assert_eq!(id.to_string(), "plan");
}

#[test]
fn debug_is_typed() {
    let id = StepId::from("plan");
    assert_eq!(format!("{id:?}"), r#"StepId("plan")"#);
}

#[test]
fn run_ids_are_unique() {
    assert_ne!(RunId::new(), RunId::new());
}

#[test]
fn run_ids_have_the_hyphenated_form() {
    let id = RunId(0x67e5504410b1426f9247bb680e5fe0c8);
    assert_eq!(id.to_string(), "67e55044-10b1-426f-9247-bb680e5fe0c8");
    assert_eq!(RunId::from_str("67e55044-10b1-426f-9247-bb680e5fe0c8"), Some(id));
    assert_eq!(RunId::from_str(&id.to_string()), Some(id));
    assert_eq!(RunId::from_str("not-a-run"), None);
    assert_eq!(
        RunId(0x0123_4567_89ab_cdef_0123_4567_89ab_cdef).to_string(),
        "01234567-89ab-cdef-0123-456789abcdef"
    );
    assert_eq!(RunId(0).to_string(), "00000000-0000-0000-0000-000000000000");
    assert_ne!(RunId::default(), RunId::default());
}

#[test]
fn ids_compare_by_their_text() {
    assert!(StepId::new("a").same(&StepId::from(s("a"))));
    assert!(!StepId::new("a").same(&StepId::new("b")));
    assert!(WorkflowId::new("w").same(&WorkflowId::from("w")));
    assert!(ArtifactName::new("x").same(&ArtifactName::from(s("x"))));
    assert!(!ParamName::new("x").same(&ParamName::new("y")));
    assert!(GateName::new("g").same(&GateName::new("g").clone()));
    assert_eq!(ProviderRef::from("codex").to_string(), "codex");
}

// Durations.

#[test]
fn parses_units() {
    assert_eq!(HumanDuration::parse("30s").unwrap().0, Duration::from_secs(30));
    assert_eq!(HumanDuration::parse("5m").unwrap().0, Duration::from_secs(300));
    assert_eq!(HumanDuration::parse("2h").unwrap().0, Duration::from_secs(7200));
    assert_eq!(HumanDuration::parse("45").unwrap().0, Duration::from_secs(45));
    assert_eq!(HumanDuration::parse("  10m ").unwrap().0, Duration::from_secs(600));
    assert_eq!(HumanDuration::parse("10d").unwrap().0, Duration::from_secs(864_000));
    assert_eq!(HumanDuration::parse("2w").unwrap().0, Duration::from_secs(1_209_600));
}

#[test]
fn rejects_bad_input() {
    assert!(HumanDuration::parse("abc").is_err());
    assert!(HumanDuration::parse("10y").is_err(), "years are not a supported unit");
    assert!(HumanDuration::parse("").is_err());
}

#[test]
fn rejects_overflow_instead_of_panicking() {
    // These are syntactically valid but overflow u64 seconds when multiplied.
    assert!(HumanDuration::parse("9999999999999999h").is_err());
    assert!(HumanDuration::parse("18446744073709551615h").is_err());
    assert!(HumanDuration::parse("400000000000000000m").is_err());
    // Bare seconds at u64::MAX are fine: nothing is multiplied.
    assert!(HumanDuration::parse("18446744073709551615").is_ok());
}

#[test]
fn round_trips_through_serde() {
    let d = HumanDuration::parse("5m").unwrap();
    let text = d.to_text();
    assert_eq!(text, "300s");
    let back = HumanDuration::parse(&text).unwrap();
    assert_eq!(back, d);
}

#[test]
fn spans_keep_their_parts() {
    let d = Duration::from_millis(1_234);
    assert_eq!(d.as_secs(), 1);
    assert_eq!(d.subsec_nanos(), 234_000_000);
    assert_eq!(d.to_text(), "1.234s");
    assert_eq!(Duration::from_secs(2).to_text(), "2s");
}

#[test]
fn moments_have_their_rfc3339_form() {
    let t = Timestamp::from_rfc3339("2024-01-02T03:04:05Z").unwrap();
    assert_eq!(t, Timestamp { secs: 1_704_164_645, nanos: 0 });
    assert_eq!(t.total_nanos(), 1_704_164_645_000_000_000);
    assert_eq!(t.to_rfc3339(), Some(s("2024-01-02T03:04:05+00:00")));
    let fine = Timestamp { secs: t.secs, nanos: 123_456_789 };
    assert_eq!(fine.to_rfc3339(), Some(s("2024-01-02T03:04:05.123456789+00:00")));
    assert_eq!(Timestamp::from_rfc3339("2024-01-02T03:04:05.123456789Z"), Some(fine));
    assert_eq!(Timestamp { secs: i64::MAX, nanos: 0 }.to_rfc3339(), None);
    assert_eq!(Timestamp::from_rfc3339("yesterday"), None);
}

// Steps.

#[test]
fn provider_step_parses() {
    let kind = kind_of(Some("codex"), Some("do it"), None, None, None, None).unwrap();
    let step = bare_step("plan", kind);
    assert_eq!(step.id.as_str(), "plan");
    assert!(matches!(step.kind, StepKind::Provider(_)));
}

#[test]
fn action_and_run_parse() {
    let a = kind_of(None, None, Some("github.open_pr"), Some(one_arg("title", "hi")), None, None)
        .unwrap();
    assert!(matches!(a, StepKind::Action(_)));
    let r = kind_of(None, None, None, None, Some("./x.sh"), None).unwrap();
    assert!(matches!(r, StepKind::Run(_)));
}

#[test]
fn zero_kinds_is_a_precise_error() {
    let err = kind_of(None, Some("hi"), None, None, None, None).unwrap_err();
    assert!(err.contains("exactly one"), "got: {err}");
    assert!(err.contains("found none"), "got: {err}");
}

#[test]
fn case_step_parses_with_branches_and_else() {
    let case = CaseStep {
        branches: vec![
            CaseBranch { label: s("bug"), when: Some(s("a == 1")) },
            CaseBranch { label: s("docs"), when: None },
        ],
        else_: Some(s("other")),
    };
    let kind = kind_of(None, None, None, None, None, Some(case)).unwrap();
    let StepKind::Case(c) = kind else {
        panic!("expected a case step");
    };
    assert_eq!(c.branches.len(), 2);
    assert_eq!(c.branches[0].label, "bug");
    assert_eq!(c.branches[0].when.as_deref(), Some("a == 1"));
    assert_eq!(c.branches[1].when, None); // a guard-less branch is a catch-all
    assert_eq!(c.else_.as_deref(), Some("other"));
}

#[test]
fn case_with_another_kind_is_more_than_one_error() {
    let case = CaseStep { branches: vec![], else_: None };
    let err = kind_of(Some("codex"), Some("hi"), None, None, None, Some(case)).unwrap_err();
    assert!(err.contains("more than one"), "got: {err}");
}

#[test]
fn two_kinds_is_a_precise_error() {
    let err = kind_of(Some("codex"), None, None, None, Some("./x.sh"), None).unwrap_err();
    assert!(err.contains("more than one"), "got: {err}");
}

#[test]
fn prompt_on_action_step_is_rejected() {
    let err = kind_of(None, Some("hi"), Some("a"), None, None, None).unwrap_err();
    assert!(err.contains("only valid on `provider:`"), "got: {err}");
}

#[test]
fn prompt_on_run_step_is_rejected() {
    let err = kind_of(None, Some("hi"), None, None, Some("./s"), None).unwrap_err();
    assert!(err.contains("only valid on `provider:`"), "got: {err}");
}

#[test]
fn with_on_run_step_is_rejected() {
    let err = kind_of(None, None, None, Some(one_arg("k", "v")), Some("./s"), None).unwrap_err();
    assert!(err.contains("only valid on `action:`"), "got: {err}");
}

#[test]
fn with_on_provider_step_is_rejected() {
    let err = kind_of(Some("codex"), Some("hi"), None, Some(one_arg("k", "v")), None, None)
        .unwrap_err();
    assert!(err.contains("only valid on `action:`"), "got: {err}");
}

#[test]
fn an_action_keeps_its_arguments() {
    let kind =
        kind_of(None, None, Some("git.push"), Some(one_arg("remote", "up")), None, None).unwrap();
    let StepKind::Action(ActionStep { action, with }) = kind else {
        panic!("expected an action step");
    };
    assert_eq!(action, "git.push");
    assert_eq!(with.get("remote"), Some(&Value::string("up")));
}

// Parameters.

#[test]
fn type_defaults_to_string() {
    let spec = ParamSpec { description: Some(s("a thing")), ..ParamSpec::default() };
    assert_eq!(spec.ty, ParamType::String);
    assert!(!spec.required);
    assert!(spec.default.is_none());
}

#[test]
fn types_accept_their_own_values() {
    assert!(ParamType::String.matches(&Value::string("x")));
    assert!(!ParamType::String.matches(&Value::number(1)));
    assert!(ParamType::Number.matches(&Value::number(1)));
    assert!(!ParamType::Number.matches(&Value::Bool(true)));
    assert!(ParamType::Bool.matches(&Value::Bool(false)));
    assert!(!ParamType::Bool.matches(&Value::Null));
    assert_eq!(ParamType::Number.name(), "number");
}

// Workflows.

#[test]
fn schema_version_round_trips() {
    let v = SchemaVersion::try_from("1.3".to_owned()).unwrap();
    assert_eq!(v.major, 1);
    assert_eq!(v.minor, 3);
    assert_eq!(String::from(v), "1.3");
}

#[test]
fn schema_version_default_is_current() {
    assert_eq!(SchemaVersion::default().major, CURRENT_SCHEMA_MAJOR);
}

#[test]
fn schema_version_rejects_garbage() {
    assert!(SchemaVersion::try_from("x".to_owned()).is_err());
    assert!(SchemaVersion::try_from("1.x".to_owned()).is_err());
}

#[test]
fn unknown_major_is_rejected() {
    let v = SchemaVersion::try_from("2.0".to_owned()).unwrap();
    let err = check_schema(v).unwrap_err();
    assert!(matches!(err, Error::SchemaVersion { found_major: 2, .. }));
    let newer = SchemaVersion::try_from("1.9".to_owned()).unwrap();
    assert!(check_schema(newer).is_ok());
}

#[test]
fn tags_are_normalized() {
    assert_eq!(
        normalize_tags(&texts(&["  CI ", "ci", "", "   ", "Docs", "docs"])),
        texts(&["ci", "docs"])
    );
}

#[test]
fn gates_make_a_workflow_wait() {
    let run = || bare_step("a", StepKind::Run(RunStep { run: s("true") }));
    let gate = bare_step("g", StepKind::Approval(ApprovalStep { message: None }));
    assert!(!workflow_of(vec![run()]).has_approval());
    assert!(workflow_of(vec![run(), gate]).has_approval());
}

#[test]
fn parallelism_is_at_least_one() {
    let mut wf = workflow_of(vec![]);
    let unset = wf.parallelism();
    assert!(unset >= 1);
    wf.max_parallel = Some(0);
    assert_eq!(wf.parallelism(), 1);
    wf.max_parallel = Some(7);
    assert_eq!(wf.parallelism(), 7);
}

#[test]
fn a_loop_holds_whole_steps() {
    let inner = bare_step("i", StepKind::Run(RunStep { run: s("true") }));
    let l = LoopStep { until: s("true"), max: 2, steps: vec![inner] };
    let kind = StepKind::from_discriminants(
        None, None, None, None, None, None, None, None, Some(l),
    )
    .unwrap();
    let StepKind::Loop(l) = kind else {
        panic!("expected a loop");
    };
    assert_eq!(l.steps.len(), 1);
    assert_eq!(l.max, 2);
}

fn read_back(f: KindFields) -> StepKind {
    StepKind::from_discriminants(
        f.provider,
        f.prompt,
        f.prompt_file,
        f.action,
        f.with,
        f.run,
        f.approval,
        f.case,
        f.looped,
    )
    .unwrap()
}

#[test]
fn a_written_kind_is_read_back() {
    let ask = ProviderStep {
        provider: ProviderRef::new("codex"),
        prompt: Some(s("hi")),
        prompt_file: None,
    };
    let f = StepKind::Provider(ask).kind_fields();
    assert!(f.with.is_none() && f.run.is_none() && f.prompt_file.is_none());
    let StepKind::Provider(p) = read_back(f) else { panic!("a provider step") };
    assert_eq!((p.provider.as_str(), p.prompt.as_deref()), ("codex", Some("hi")));

    let bare = ActionStep { action: s("git.commit"), with: OrderedMap::new() };
    let f = StepKind::Action(bare).kind_fields();
    assert!(f.with.is_none(), "empty arguments are left out");
    let StepKind::Action(a) = read_back(f) else { panic!("an action step") };
    assert!(a.action == "git.commit" && a.with.is_empty());

    let mut with: OrderedMap<Value> = OrderedMap::new();
    with.insert(s("message"), Value::string("m"));
    let f = StepKind::Action(ActionStep { action: s("git.commit"), with }).kind_fields();
    let StepKind::Action(a) = read_back(f) else { panic!("an action step") };
    assert_eq!(a.with.get("message").and_then(|v| v.as_str()), Some("m"));

    let case = CaseStep {
        branches: vec![CaseBranch { label: s("x"), when: Some(s("true")) }],
        else_: Some(s("y")),
    };
    let StepKind::Case(c) = read_back(StepKind::Case(case).kind_fields()) else {
        panic!("a case step")
    };
    assert_eq!((c.branches[0].label.as_str(), c.else_.as_deref()), ("x", Some("y")));

    let looped = LoopStep { until: s("true"), max: 2, steps: vec![] };
    assert!(matches!(read_back(StepKind::Loop(looped).kind_fields()), StepKind::Loop(_)));
    let gate = ApprovalStep { message: None };
    assert!(matches!(read_back(StepKind::Approval(gate).kind_fields()), StepKind::Approval(_)));
    let run = RunStep { run: s("true") };
    assert!(matches!(read_back(StepKind::Run(run).kind_fields()), StepKind::Run(_)));
}

// Workspaces.

#[test]
fn default_is_worktree() {
    assert!(matches!(WorkspaceConfig::default(), WorkspaceConfig::Worktree(_)));
}

#[test]
fn workspaces_with_equal_settings_share_a_key() {
    let pool = |n: u16| {
        WorkspaceConfig::SlotPool(SlotPoolConfig { pool: n, reset: ResetMode::Reclone, base: None })
    };
    assert_eq!(pool(4).kind(), "slot_pool");
    assert_eq!(pool(4).cache_key(), pool(4).cache_key());
    assert_ne!(pool(4).cache_key(), pool(5).cache_key());
    let tree = |b: Option<&str>| WorkspaceConfig::Worktree(WorktreeConfig { base: b.map(s) });
    assert_eq!(tree(None).kind(), "worktree");
    assert_ne!(tree(None).cache_key(), tree(Some("main")).cache_key());
    assert_ne!(tree(None).cache_key(), pool(4).cache_key());
    assert_eq!(ResetMode::default(), ResetMode::GitClean);
}

// The public types.

#[test]
fn terminal_states() {
    assert!(RunStatus::Succeeded.is_terminal());
    assert!(!RunStatus::Running.is_terminal());
    assert!(StepStatus::Skipped.is_terminal());
    assert!(!StepStatus::Pending.is_terminal());
}

#[test]
fn every_state_is_over_or_not() {
    assert!(RunStatus::Failed.is_terminal() && RunStatus::Cancelled.is_terminal());
    assert!(!RunStatus::Pending.is_terminal() && !RunStatus::AwaitingApproval.is_terminal());
    assert!(StepStatus::Passed.is_terminal() && StepStatus::Failed.is_terminal());
    assert!(!StepStatus::Running.is_terminal() && !StepStatus::AwaitingApproval.is_terminal());
    assert_ne!(Decision::Approved, Decision::Rejected);
}

#[test]
fn run_input_builder() {
    let input = RunInput::manual()
        .param("issue", Value::number(42))
        .param("branch", Value::string("main"));
    assert_eq!(input.trigger, "manual");
    assert_eq!(input.params.get("issue"), Some(&Value::number(42)));
    assert_eq!(input.params.get("branch"), Some(&Value::string("main")));
}

#[test]
fn a_trigger_carries_its_payload() {
    let input = RunInput::manual().with_trigger("hook", Value::string("p"));
    assert_eq!(input.trigger, "hook");
    assert_eq!(input.trigger_payload, Value::string("p"));
    assert!(input.params.is_empty());
    assert!(input.idempotency_key.is_none());
}

#[test]
fn usage_adds_up() {
    let mut total = Usage::default();
    total.add(Usage { input_tokens: 3, output_tokens: 4, cost_micros: 5 });
    total.add(Usage { input_tokens: u64::MAX, output_tokens: 1, cost_micros: 0 });
    assert_eq!(total.input_tokens, u64::MAX);
    assert_eq!(total.output_tokens, 5);
    assert_eq!(total.cost_micros, 5);
}

#[test]
fn side_effects_keep_their_fields() {
    assert!(matches!(SideEffect::pull_request("u", 3),
        SideEffect::PullRequest { url, number: 3 } if url == "u"));
    assert!(matches!(SideEffect::comment("c"), SideEffect::Comment { url } if url == "c"));
    assert!(matches!(SideEffect::commit("abc", None),
        SideEffect::Commit { sha, branch: None } if sha == "abc"));
    assert!(matches!(SideEffect::push("b", "origin"),
        SideEffect::Push { branch, remote } if branch == "b" && remote == "origin"));
    assert!(matches!(SideEffect::artifact("n", "p"),
        SideEffect::Artifact { name, path } if name == "n" && path == "p"));
}

#[test]
fn version_is_reported() {
    assert!(!version().is_empty());
}

// JSON values.

#[test]
fn values_render_as_json() {
    assert_eq!(Value::Null.to_json(), "null");
    assert_eq!(Value::Bool(true).to_json(), "true");
    assert_eq!(Value::number(7).to_json(), "7");
    assert_eq!(Value::string("a\"b\n").to_json(), "\"a\\\"b\\n\"");
    assert_eq!(Value::Array(texts(&["1", "\"x\""])).to_json(), "[1,\"x\"]");
    assert_eq!(
        Value::Object(vec![(s("k"), s("[true]")), (s("l"), s("null"))]).to_json(),
        "{\"k\":[true],\"l\":null}"
    );
    assert_eq!(ObjectText::new().with("a", "1").with("b", "2").text(), "{\"a\":1,\"b\":2}");
}

// Ordered names.

#[test]
fn maps_keep_the_place_of_a_key() {
    let mut m: OrderedMap<String> = OrderedMap::new();
    m.insert(s("b"), s("1"));
    m.insert(s("a"), s("2"));
    m.insert(s("b"), s("3"));
    assert_eq!(m.len(), 2);
    assert_eq!(m.key_at(0), "b");
    assert_eq!(m.value_at(0), "3");
    assert_eq!(m.key_at(1), "a");
    assert_eq!(m.get("a"), Some(&s("2")));
    assert_eq!(m.shift_remove("b"), Some(s("3")));
    assert_eq!(m.shift_remove("b"), None);
    assert_eq!(m.key_at(0), "a");
    assert!(!m.contains_key("b"));
}

#[test]
fn name_sets_hold_each_name_once() {
    let mut n = NameSet::new();
    assert!(n.insert(s("x")));
    assert!(n.insert(s("y")));
    assert!(!n.insert(s("x")));
    assert_eq!(n.len(), 2);
    assert_eq!(n.at(1), "y");
    assert!(n.remove("x"));
    assert!(!n.remove("x"));
    assert!(!n.contains("x"));
    assert_eq!(n.at(0), "y");
}

// Errors.

#[test]
fn errors_say_what_happened() {
    assert_eq!(Error::Input(s("bad")).to_string(), "invalid run input: bad");
    let e = Error::SchemaVersion { found_major: 3, supported_major: 1 }.to_string();
    assert!(e.contains('3') && e.contains('1'), "{e}");
    let e = Error::Unregistered { kind: s("action"), name: s("x.y") }.to_string();
    assert!(e.contains("action") && e.contains("x.y"), "{e}");
    let e = Error::Template { context: s("prompt"), source: s("boom") }.to_string();
    assert!(e.contains("prompt"), "{e}");
    let one = ValidationReport {
        diagnostics: vec![Diagnostic::new(DiagCode::UnusedParam, s("p"), s("m"))],
    };
    assert!(Error::Validation(one).to_string().contains("validation"));
    assert!(Error::Parse(s("x")).to_string().contains('x'));
    assert!(Error::Io(s("x")).to_string().contains('x'));
    assert!(Error::Unimplemented { feature: s("f") }.to_string().contains('f'));
    assert!(Error::Action(ActionError::Unknown(s("a"))).to_string().contains('a'));
}

#[test]
fn part_errors_say_what_happened() {
    let e = ProviderError::Timeout(Duration::from_secs(5)).to_string();
    assert!(e.contains("5s"), "{e}");
    let e = ProviderError::Exited { code: 3, stderr: s("boom") }.to_string();
    assert!(e.contains('3') && e.contains("boom"), "{e}");
    assert!(ProviderError::NotFound(s("cli")).to_string().contains("cli"));
    assert!(ProviderError::ShellNotFound(s("sh")).to_string().contains("sh"));
    assert!(ProviderError::Other(s("o")).to_string().contains('o'));
    assert!(WorkspaceError::Git(s("g")).to_string().contains('g'));
    assert!(!WorkspaceError::PoolExhausted.to_string().is_empty());
    assert!(WorkspaceError::Io(s("i")).to_string().contains('i'));
    assert!(WorkspaceError::Other(s("w")).to_string().contains('w'));
    assert!(StoreError::Backend(s("b")).to_string().contains('b'));
    assert!(StoreError::Serde(s("s")).to_string().contains('s'));
    assert!(StoreError::Other(s("q")).to_string().contains('q'));
    assert!(ActionError::Other(s("z")).to_string().contains('z'));
    assert!(TriggerError::Source(s("t")).to_string().contains('t'));
    assert!(TriggerError::Other(s("u")).to_string().contains('u'));
}

// Reports.

#[test]
fn reports_count_by_severity() {
    let r = ValidationReport {
        diagnostics: vec![
            Diagnostic::new(DiagCode::UnknownTemplateRef, s("p"), s("m")),
            Diagnostic::new(DiagCode::UnusedParam, s("p"), s("m")),
            Diagnostic::new(DiagCode::TriggerIntoShell, s("p"), s("m")).with_help(s("h")),
        ],
    };
    assert_eq!(r.error_count(), 1);
    assert_eq!(r.warning_count(), 2);
    assert!(r.has_errors());
    assert!(!r.is_empty());
    assert_eq!(r.diagnostics[2].help.as_deref(), Some("h"));
    assert_eq!(DiagCode::UnknownTemplateRef.as_str(), "ODIN017");
    assert_eq!(DiagCode::UnusedParam.as_str(), "ODIN024");
    assert_eq!(DiagCode::DynamicTemplateRef.as_str(), "ODIN029");
    assert_eq!(DiagCode::TriggerIntoShell.as_str(), "ODIN031");
}
