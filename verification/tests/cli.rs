use std::collections::VecDeque;

use odin::api::{
    Decision, RunInput, RunStatus, RunSummary, SideEffect, StepResult, StepStatus, Usage,
};
use odin::cli::approval::{exit_for, plan_approve, plan_reject, Submission};
use odin::cli::cancel::{cancel_exit, cancel_json, cancel_line, is_cancellable};
use odin::cli::catalog::{
    candidates, is_valid_name, is_yaml, listing, name_width, not_found, recipe_files, recipe_line,
    recipe_name, recipe_of, Recipe,
};
use odin::cli::envelope::{
    json_error_envelope, json_parse_envelope, json_validation_envelope, verdict_line,
};
use odin::cli::inspect::{list_line, list_row, run_lines, status_str};
use odin::cli::prune::{
    build_policy, confirmed, prune_start, prune_stop, report_lines, PruneReport, PruneStart,
    PrunedCount,
};
use odin::cli::run::{
    check_store, on_interrupt, parse_value, provider_names, run_input, split_pair, summary_lines,
    typed_value, Interrupt,
};
use odin::cli::scaffold::{
    fill_interactively, parse, parse_vars, prompt_for, renamed, Prompter, Template,
};
use odin::cli::status::{age, ago, refusal, render, row, row_label, runs_endpoint, truncate};
use odin::engine::state::{RunState, StepState};
use odin::ids::{ProviderRef, RunId, StepId, WorkflowId};
use odin::ir::step::{
    ApprovalStep, Artifacts, JudgeSpec, LoopStep, ProviderStep, RetrySpec, RunStep, Step, StepKind,
};
use odin::ir::workflow::{SchemaVersion, Workflow, WorkflowDefaults};
use odin::ir::workspace::WorkspaceConfig;
use odin::json::Value;
use odin::names::OrderedMap;
use odin::time::Timestamp;
use odin::validate::diagnostic::{DiagCode, Diagnostic, ValidationReport};
use odin::view::{recent, GateView, RunView, StepView};

fn s(x: &str) -> String {
    x.to_owned()
}

fn texts(v: &[&str]) -> Vec<String> {
    v.iter().map(|x| s(x)).collect()
}

const RUN: RunId = RunId(0x67e5504410b1426f9247bb680e5fe0c8);
const RUN_TEXT: &str = "67e55044-10b1-426f-9247-bb680e5fe0c8";

// Names in the catalog.

#[test]
fn valid_name_rejects_traversal_and_separators() {
    assert!(is_valid_name("adversarial-review"));
    assert!(is_valid_name("a.b.c"));
    assert!(!is_valid_name(""));
    assert!(!is_valid_name("."));
    assert!(!is_valid_name(".."));
    assert!(!is_valid_name("../escape"));
    assert!(!is_valid_name("nested/name"));
    assert!(!is_valid_name("back\\slash"));
}

#[test]
fn resolve_finds_yaml_and_yml_only() {
    let files = ["alpha.yaml", "beta.yml", "notes.txt"];
    let resolve = |name: &str| {
        candidates(name).into_iter().find(|c| files.contains(&c.as_str()))
    };
    assert_eq!(resolve("alpha"), Some(s("alpha.yaml")));
    assert_eq!(resolve("beta"), Some(s("beta.yml")));
    assert_eq!(resolve("notes"), None);
    assert_eq!(resolve("missing"), None);
    assert_eq!(resolve(".."), None);
}

#[test]
fn list_is_sorted_and_reads_metadata() {
    let files = texts(&["zeta.yaml", "alpha.yaml", "ignore.json", "broken.yaml"]);
    let found = recipe_files(&files);
    assert_eq!(found, texts(&["alpha.yaml", "broken.yaml", "zeta.yaml"]));
    let demo = || Workflow {
        name: WorkflowId::new("demo"),
        description: Some(s("a demo recipe")),
        ..workflow(vec![bare_step("s", StepKind::Run(RunStep { run: s("echo hi") }))])
    };
    let got: Vec<Recipe> = found
        .iter()
        .map(|f| recipe_of(f, f, &if f == "broken.yaml" { None } else { Some(demo()) }))
        .collect();
    let names: Vec<&str> = got.iter().map(|r| r.name.as_str()).collect();
    assert_eq!(names, ["alpha", "broken", "zeta"]); // sorted, .json skipped
    let alpha = got.iter().find(|r| r.name == "alpha").unwrap();
    assert_eq!(alpha.workflow_name.as_deref(), Some("demo"));
    assert_eq!(alpha.description.as_deref(), Some("a demo recipe"));
    assert_eq!(alpha.path, "alpha.yaml");
    let broken = got.iter().find(|r| r.name == "broken").unwrap();
    assert!(broken.workflow_name.is_none()); // unparseable → no metadata, still listed
}

#[test]
fn recipes_are_sorted_by_their_names() {
    let found = recipe_files(&texts(&["a-b.yaml", "a.yml", "b.yaml", "a.yaml"]));
    assert_eq!(found, texts(&["a.yaml", "a.yml", "a-b.yaml", "b.yaml"]));
    assert_eq!(recipe_name("a.b.yml"), "a.b");
}

#[test]
fn only_yaml_files_are_recipes() {
    assert!(is_yaml("a.yaml") && is_yaml("a.yml") && is_yaml("a.b.yml"));
    assert!(!is_yaml("a.YAML") && !is_yaml("a") && !is_yaml("a.yaml.bak"));
    assert!(!is_yaml(".yaml") && !is_yaml("yaml"));
}

#[test]
fn recipes_are_listed_in_columns() {
    let recipe = |name: &str, wf: Option<&str>, d: Option<&str>| Recipe {
        name: s(name),
        path: s("p"),
        workflow_name: wf.map(s),
        description: d.map(s),
    };
    let rs = vec![
        recipe("alpha", Some("demo"), Some("a demo recipe")),
        recipe("b", None, None),
        recipe("c", Some("c"), None),
    ];
    assert_eq!(name_width(&rs), Some(5));
    assert_eq!(
        listing(&rs, 5),
        [
            "  alpha  a demo recipe",
            "  b      (does not parse as a workflow)",
            "  c    "
        ]
    );
    assert_eq!(recipe_line(&rs[2], 5), "  c    ");
    assert_eq!(name_width(&vec![]), Some(0));
}

#[test]
fn a_missing_recipe_names_the_others() {
    assert_eq!(
        not_found("x", "/d", &texts(&["a", "b"])),
        "no recipe named 'x' in /d (available recipes: a, b)"
    );
    assert_eq!(not_found("x", "/d", &vec![]), "no recipe named 'x' in /d (the catalog at /d is empty)");
}

// Templates.

const TPL: &str = "# odin:template\n\
    #   provider: { default: codex }\n\
    #   base_branch: { required: true }\n\
    # end\n\
    name: src\n\
    steps:\n  - id: r\n    provider: @@provider@@\n    run: \"git diff @@base_branch@@...HEAD\"\n";

struct CannedPrompter(VecDeque<String>);

impl Prompter for CannedPrompter {
    fn ask(&mut self, _prompt: &str) -> Result<String, String> {
        Ok(self.0.pop_front().unwrap_or_default())
    }
}

fn set(pairs: &[(&str, &str)]) -> OrderedMap<String> {
    let mut m: OrderedMap<String> = OrderedMap::new();
    for (k, v) in pairs {
        m.insert(s(k), s(v));
    }
    m
}

fn template(src: &str) -> Template {
    parse(src).unwrap().unwrap()
}

#[test]
fn header_less_source_is_not_a_template() {
    assert!(parse("name: x\nsteps:\n  - {id: a, run: y}\n").unwrap().is_none());
}

#[test]
fn missing_required_lists_only_unsatisfied_required_vars() {
    let t = template(TPL);
    // provider has a default; base_branch is required and unset.
    let names: Vec<String> = t.missing_required(&set(&[])).into_iter().map(|v| v.name).collect();
    assert_eq!(names, ["base_branch"]);
    // …and once it's supplied, nothing is missing.
    assert!(t.missing_required(&set(&[("base_branch", "x")])).is_empty());
}

#[test]
fn fill_interactively_supplies_missing_then_renders() {
    let t = template(TPL);
    let mut m = set(&[]);
    let mut p = CannedPrompter(["develop".to_owned()].into_iter().collect());
    fill_interactively(&t, &mut m, &mut p).unwrap();
    let out = t.render(&m).unwrap();
    assert!(out.contains("git diff develop...HEAD")); // prompted value
    assert!(out.contains("provider: codex")); // default still applies
}

#[test]
fn fill_interactively_empty_answer_leaves_it_missing() {
    let t = template(TPL);
    let mut m = set(&[]);
    let mut p = CannedPrompter([String::new()].into_iter().collect());
    fill_interactively(&t, &mut m, &mut p).unwrap();
    assert!(t.render(&m).unwrap_err().contains("missing required"));
}

#[test]
fn renders_with_default_and_set() {
    let t = template(TPL);
    assert_eq!(t.var_names(), ["provider", "base_branch"]);
    let out = t.render(&set(&[("base_branch", "main")])).unwrap();
    assert!(out.contains("provider: codex")); // default
    assert!(out.contains("git diff main...HEAD")); // --set, injected verbatim
    assert!(!out.contains("# odin:template")); // header stripped
    assert!(!out.contains("@@"));
}

#[test]
fn missing_required_errors() {
    let t = template(TPL);
    let err = t.render(&set(&[])).unwrap_err();
    assert!(err.contains("missing required") && err.contains("base_branch"), "{err}");
}

#[test]
fn undeclared_set_key_errors() {
    let t = template(TPL);
    let err = t.render(&set(&[("base_branch", "main"), ("ghost", "x")])).unwrap_err();
    assert!(err.contains("--set") && err.contains("ghost"), "{err}");
}

#[test]
fn undeclared_body_marker_errors() {
    let src = "# odin:template\n#   a: { default: x }\n# end\nname: n\nrun: @@a@@ @@b@@\n";
    let t = template(src);
    let err = t.render(&set(&[])).unwrap_err();
    assert!(err.contains("@@b@@") && err.contains("not declared"), "{err}");
}

#[test]
fn heredoc_and_shift_and_runtime_templates_are_untouched() {
    // None of these are `@@…@@`, and the body has no header → copied verbatim.
    let src = "name: x\nsteps:\n  - id: a\n    run: |\n      cat <<'EOF'\n      x\n      EOF\n      echo $((1<<2))\n    when: \"{{ params.go }}\"\n";
    assert!(parse(src).unwrap().is_none());
}

#[test]
fn stray_double_at_in_a_template_body_is_caught() {
    // A templated body that contains a literal `@@` (not a valid marker) is rejected.
    let src =
        "# odin:template\n#   a: { default: x }\n# end\nname: n\nrun: \"echo @@a@@ then @@\"\n";
    let t = template(src);
    assert!(t.render(&set(&[])).unwrap_err().contains("remains after substitution"));
}

#[test]
fn an_unclosed_header_is_an_error() {
    assert!(parse("# odin:template\n#   a: { default: x }\nname: n\n").is_err());
    assert!(parse("# odin:template\n#   a: [\n# end\nname: n\n").is_err());
}

#[test]
fn variables_take_scalars() {
    let vars = parse_vars("n: { default: 3 }\nb: { default: true, description: a flag }\nr: { required: true }\n")
        .unwrap();
    assert_eq!(vars.len(), 3);
    assert_eq!(vars[0].default.as_deref(), Some("3"));
    assert_eq!(vars[1].default.as_deref(), Some("true"));
    assert_eq!(vars[1].description.as_deref(), Some("a flag"));
    assert!(vars[2].required && vars[2].default.is_none());
    assert!(parse_vars("n: [").is_err());
}

#[test]
fn prompts_describe_the_variable() {
    let vars = parse_vars("a: { required: true, description: the base }\nb: { required: true }\n")
        .unwrap();
    let described = prompt_for(&vars[0]);
    assert!(described.contains('a') && described.contains("the base"), "{described}");
    assert!(prompt_for(&vars[1]).contains('b'));
}

#[test]
fn each_missing_variable_is_asked_for_once_in_order() {
    struct Recorder(Vec<String>);
    impl Prompter for Recorder {
        fn ask(&mut self, prompt: &str) -> Result<String, String> {
            self.0.push(prompt.to_owned());
            if self.0.len() == 3 { Err("closed".to_owned()) } else { Ok(" v ".to_owned()) }
        }
    }
    let src = "# odin:template\n#   a: { required: true, description: the base }\n\
        #   b: { default: x }\n#   c: { required: true }\n#   d: { required: true }\n\
        #   e: { required: true }\n# end\nname: n\nrun: @@a@@ @@b@@ @@c@@ @@d@@ @@e@@\n";
    let mut m = set(&[]);
    let mut p = Recorder(vec![]);
    assert_eq!(fill_interactively(&template(src), &mut m, &mut p), Err(s("closed")));
    assert_eq!(p.0, ["a (the base): ", "c: ", "d: "]);
    assert_eq!(m.get("a").map(String::as_str), Some(" v "));
    assert_eq!(m.get("c").map(String::as_str), Some(" v "));
    assert!(m.get("d").is_none() && m.get("b").is_none());
}

#[test]
fn a_failed_prompt_stops_the_filling() {
    struct Closed;
    impl Prompter for Closed {
        fn ask(&mut self, _prompt: &str) -> Result<String, String> {
            Err("closed".to_owned())
        }
    }
    let mut m = set(&[]);
    assert_eq!(fill_interactively(&template(TPL), &mut m, &mut Closed), Err(s("closed")));
    assert!(m.is_empty());
}

#[test]
fn a_body_without_markers_stays_as_it_is() {
    let src = "# odin:template\n#   a: { default: x }\n# end\nname: n\nrun: \"echo 1\"\n";
    assert_eq!(template(src).render(&set(&[])).unwrap(), "name: n\nrun: \"echo 1\"\n");
}

// Decisions.

#[test]
fn a_copied_recipe_takes_its_new_name() {
    let src = "# a recipe\nname: old\nsteps:\n  - id: a\n    name: kept\nname: second";
    let want = "# a recipe\nname: new\nsteps:\n  - id: a\n    name: kept\nname: second\n";
    assert_eq!(renamed(src, "new"), want);
    assert_eq!(renamed("steps: []\n", "new"), "steps: []\n");
}

#[test]
fn only_a_rejection_reruns() {
    assert!(plan_approve(None, true).unwrap_err().contains("--rerun only applies to `reject`"));
    assert!(matches!(
        plan_approve(Some(s("fine by me")), false),
        Ok(Submission::Submit { decision: Decision::Approved, note: Some(n) }) if n == "fine by me"
    ));
    assert!(plan_reject(None, false).unwrap_err().contains("--note is required"));
    assert!(plan_reject(Some(s("  ")), true).unwrap_err().contains("--note is required"));
    assert!(matches!(
        plan_reject(Some(s(" no ")), false),
        Ok(Submission::Submit { decision: Decision::Rejected, note: Some(n) }) if n == " no "
    ));
    assert!(matches!(
        plan_reject(Some(s(" no ")), true),
        Ok(Submission::RejectAndRerun { note }) if note == "no"
    ));
    assert_eq!(exit_for(RunStatus::Succeeded), 0);
    assert_eq!(exit_for(RunStatus::AwaitingApproval), 0);
    assert_eq!(exit_for(RunStatus::Failed), 1);
    assert_eq!(exit_for(RunStatus::Running), 1);
}

// Envelopes.

#[test]
fn envelopes_have_one_shape() {
    let clean = ValidationReport { diagnostics: vec![] };
    let bad = ValidationReport {
        diagnostics: vec![
            Diagnostic::new(DiagCode::TemplateSyntax, s("/steps/0"), s("m")),
            Diagnostic::new(DiagCode::UnusedParam, s("/params/a"), s("m")),
        ],
    };
    let parsed = |t: &str| -> serde_json::Value { serde_json::from_str(t).unwrap() };
    let v = parsed(&json_validation_envelope(&clean, "[]"));
    assert_eq!(v["ok"], true);
    assert_eq!(v["phase"], "validate");
    assert!(v["error"].is_null());
    let v = parsed(&json_validation_envelope(&bad, "[1,2]"));
    assert_eq!(v["ok"], false);
    assert_eq!(v["diagnostics"].as_array().map(|a| a.len()), Some(2));
    let v = parsed(&json_parse_envelope("bad \"quote\""));
    assert_eq!(v["ok"], false);
    assert_eq!(v["phase"], "parse");
    assert_eq!(v["error"], "bad \"quote\"");
    assert_eq!(v["diagnostics"].as_array().map(|a| a.len()), Some(0));
    let v = parsed(&json_error_envelope("error", "boom"));
    assert_eq!(v["phase"], "error");
    assert_eq!(v["error"], "boom");
    assert_eq!(verdict_line("w.yaml", &clean), "✓ w.yaml is valid");
    assert_eq!(verdict_line("w.yaml", &bad), "✗ w.yaml: 1 error(s), 1 warning(s)");
    let warned = ValidationReport {
        diagnostics: vec![Diagnostic::new(DiagCode::UnusedParam, s("/p"), s("m"))],
    };
    assert_eq!(verdict_line("w.yaml", &warned), "✓ w.yaml is valid (1 warning(s))");
}

// Pruning.

#[test]
fn prune_limits_are_read() {
    let p = build_policy(&Some(s("90d")), Some(3), &Some(s("w"))).unwrap();
    assert_eq!(p.max_age, Some(7_776_000));
    assert_eq!(p.keep_last, Some(3));
    assert_eq!(p.workflow.as_ref().map(|w| w.to_string()), Some(s("w")));
    assert!(!p.is_noop());
    let err = build_policy(&None, None, &Some(s("w"))).unwrap_err();
    assert!(err.contains("refusing to prune with no age or count limit"), "{err}");
    let err = build_policy(&Some(s("10y")), None, &None).unwrap_err();
    assert!(err.starts_with("--older-than: "), "{err}");
    let err = build_policy(&Some(s("18446744073709551615")), None, &None).unwrap_err();
    assert_eq!(err, "--older-than \"18446744073709551615\" is too large");
}

#[test]
fn only_a_yes_confirms() {
    assert!(confirmed("y\n") && confirmed(" YES ") && confirmed("Yes"));
    assert!(!confirmed("") && !confirmed("n\n") && !confirmed("yess"));
}

#[test]
fn prune_reports_are_told() {
    let mut r = PruneReport {
        runs_pruned: 3,
        events_pruned: 9,
        per_workflow: vec![PrunedCount { workflow: s("w"), status: s("failed"), count: 3 }],
        dry_run: true,
    };
    assert_eq!(report_lines(&r), ["Would prune 3 run(s), 9 event(s):", "  3 w × failed"]);
    r.dry_run = false;
    r.per_workflow = vec![];
    assert_eq!(report_lines(&r), ["Pruned 3 run(s), 9 event(s):"]);
}

// Inputs and summaries.

fn bare_step(id: &str, kind: StepKind) -> Step {
    Step {
        id: StepId::new(id),
        kind,
        artifacts: Artifacts::none(),
        gates: OrderedMap::new(),
        judge: None,
        retry: RetrySpec::default(),
        timeout: None,
        when: None,
        depends_on: vec![],
        scratch: false,
    }
}

fn workflow(steps: Vec<Step>) -> Workflow {
    Workflow {
        schema_version: SchemaVersion::default(),
        name: WorkflowId::new("w"),
        version: None,
        description: None,
        tags: vec![],
        durable: true,
        workspace: WorkspaceConfig::default(),
        triggers: vec![],
        params: OrderedMap::new(),
        steps,
        defaults: WorkflowDefaults { timeout: None, retry: None },
        max_parallel: None,
    }
}

fn prompt_step(id: &str, provider: &str) -> Step {
    bare_step(
        id,
        StepKind::Provider(ProviderStep {
            provider: ProviderRef::new(provider),
            prompt: Some(s("p")),
            prompt_file: None,
        }),
    )
}

#[test]
fn parameters_are_typed_where_they_can_be() {
    assert_eq!(parse_value("42"), Value::number(42));
    assert_eq!(parse_value("true"), Value::Bool(true));
    assert_eq!(parse_value("main"), Value::string("main"));
    assert_eq!(parse_value("\"x\""), Value::string("x"));
    assert_eq!(parse_value("[1, 2]"), Value::Array(texts(&["1", "2"])));
    assert_eq!(typed_value(None, "raw"), Value::string("raw"));
    assert_eq!(typed_value(Some(Value::Null), "raw"), Value::Null);
}

#[test]
fn pairs_are_split_at_the_first_equals_sign() {
    assert_eq!(split_pair("a=b=c"), Ok((s("a"), s("b=c"))));
    assert_eq!(split_pair("a="), Ok((s("a"), s(""))));
    assert_eq!(split_pair("ab").unwrap_err(), "--param must be KEY=VALUE, got \"ab\"");
    assert_eq!(split_pair(" =v").unwrap_err(), "--param key must be non-empty, got \" =v\"");
}

#[test]
fn run_inputs_are_built_from_pairs() {
    let input = run_input(Some(s("cron")), &texts(&["n=1", "who=me", "n=2"])).unwrap();
    assert_eq!(input.trigger, "cron");
    assert_eq!(input.params.len(), 2);
    assert_eq!(input.params.get("n"), Some(&Value::number(2)));
    assert_eq!(input.params.get("who"), Some(&Value::string("me")));
    assert_eq!(run_input(None, &vec![]).unwrap().trigger, "manual");
    assert!(run_input(None, &texts(&["n=1", "bad"])).is_err());
}

#[test]
fn a_gate_needs_a_store() {
    let gated = workflow(vec![bare_step("g", StepKind::Approval(ApprovalStep { message: None }))]);
    let plain = workflow(vec![bare_step("r", StepKind::Run(RunStep { run: s("true") }))]);
    let err = check_store(true, &gated).unwrap_err();
    assert!(err.starts_with("--no-store cannot be used with a workflow"), "{err}");
    assert!(!err.contains("  "), "{err}");
    assert!(check_store(false, &gated).is_ok());
    assert!(check_store(true, &plain).is_ok());
}

#[test]
fn the_second_interrupt_forces() {
    assert_eq!(on_interrupt(0), Interrupt::Stop);
    assert_eq!(on_interrupt(1), Interrupt::ForceQuit);
    assert_eq!(on_interrupt(7), Interrupt::ForceQuit);
}

#[test]
fn every_provider_is_named_once_in_order() {
    let mut judged = prompt_step("a", "zed");
    judged.judge =
        Some(JudgeSpec { provider: ProviderRef::new("amy"), criteria: s("c"), threshold: 0 });
    let inner = prompt_step("i", "mid");
    let lp = bare_step(
        "l",
        StepKind::Loop(LoopStep { until: s("true"), max: 1, steps: vec![inner, prompt_step("j", "zed")] }),
    );
    assert_eq!(provider_names(&workflow(vec![judged, lp])), ["amy", "mid", "zed"]);
}

fn result(id: &str, status: StepStatus) -> StepResult {
    StepResult {
        id: StepId::new(id),
        status,
        attempts: 1,
        exit_code: None,
        outputs: OrderedMap::new(),
        gates: OrderedMap::new(),
        judge_score: None,
        usage: None,
        error: None,
    }
}

#[test]
fn summaries_are_told_line_by_line() {
    let mut failed = result("bad", StepStatus::Failed);
    failed.exit_code = Some(3);
    failed.error = Some(s("first\nsecond"));
    let mut gate = result("g", StepStatus::AwaitingApproval);
    gate.outputs.insert(s("message"), Value::string("ok?"));
    let summary = RunSummary {
        run_id: RUN,
        workflow: WorkflowId::new("w"),
        status: RunStatus::AwaitingApproval,
        steps: vec![result("fine", StepStatus::Passed), failed, gate],
        usage: Usage { input_tokens: 1, output_tokens: 2, cost_micros: 0 },
        side_effects: vec![SideEffect::comment("u")],
        diff: None,
        error: Some(s("boom")),
        started_at: Timestamp { secs: 0, nanos: 0 },
        finished_at: None,
    };
    assert_eq!(
        summary_lines(&summary, "0.0000"),
        [
            format!("Run {RUN_TEXT} — awaiting approval"),
            s("  ✓ fine"),
            s("  ✗ bad (exit 3)"),
            s("      ↳ first"),
            s("  ⏸ g"),
            s("      ↳ ok?"),
            format!("      ↳ approve: `odin approve {RUN_TEXT} --workflow <file> --by <you>`"),
            s("usage: 1 in / 2 out tokens, $0.0000"),
            s("error: boom"),
            s("side-effects: 1"),
        ]
    );
}

// Inspection.

fn state() -> RunState {
    RunState {
        run_id: RUN,
        workflow: WorkflowId::new("demo"),
        schema_major: 1,
        status: RunStatus::Failed,
        error: Some(s("bad run")),
        steps: OrderedMap::new(),
        artifacts: OrderedMap::new(),
        provider_versions: OrderedMap::new(),
        approvals: OrderedMap::new(),
        input: RunInput::manual(),
        workspace: None,
        base_commit: None,
        snapshot: None,
        loop_state: OrderedMap::new(),
        created_at: Timestamp { secs: 0, nanos: 0 },
        updated_at: Timestamp { secs: 0, nanos: 0 },
    }
}

#[test]
fn runs_are_inspected() {
    let mut st = state();
    assert_eq!(list_line(&st, "T"), format!("{RUN_TEXT}  failed      demo  T"));
    let mut bad = StepState::bare(StepStatus::Failed, 2, OrderedMap::new());
    bad.exit_code = Some(-1);
    bad.error = Some(s("why\nmore"));
    st.steps.insert(s("a"), StepState::bare(StepStatus::Passed, 1, OrderedMap::new()));
    st.steps.insert(s("b"), bad);
    st.artifacts.insert(s("DIFF"), s("d"));
    assert_eq!(
        run_lines(&st, "C", "U"),
        [
            format!("run      {RUN_TEXT}"),
            s("workflow demo"),
            s("status   failed"),
            s("error    bad run"),
            s("created  C"),
            s("updated  U"),
            s("steps:"),
            s("  a Passed"),
            s("  b Failed exit -1 (2 attempts)"),
            s("                 ↳ why"),
            s("diff     captured"),
        ]
    );
}

// Status.

fn view(id: &str, status: &str, updated: &str) -> RunView {
    RunView {
        run_id: s(id),
        workflow: s("demo"),
        status: s(status),
        created_at: s(updated),
        updated_at: s(updated),
        duration_ms: None,
        steps: vec![
            StepView { id: s("a"), status: s("passed") },
            StepView { id: s("b"), status: s("running") },
        ],
        gate: None,
    }
}

const NOW: &str = "2024-01-02T03:04:05Z";

fn now() -> Timestamp {
    Timestamp::from_rfc3339(NOW).unwrap()
}

#[test]
fn ages_are_compact() {
    assert_eq!(age(0), "0s");
    assert_eq!(age(59), "59s");
    assert_eq!(age(60), "1m");
    assert_eq!(age(3_599), "59m");
    assert_eq!(age(3_600), "1h");
    assert_eq!(age(86_399), "23h");
    assert_eq!(age(172_800), "2d");
    assert_eq!(ago("2024-01-02T03:03:05Z", now()), "1m");
    assert_eq!(ago("2025-01-02T03:03:05Z", now()), "0s", "a later moment is now");
    assert_eq!(ago("nonsense", now()), "?");
}

#[test]
fn long_names_are_cut() {
    assert_eq!(truncate("short", 20), "short");
    assert_eq!(truncate("abcdef", 4), "abc…");
    assert_eq!(truncate("abcdef", 0), "…");
}

#[test]
fn labels_are_nine_characters_at_most() {
    for st in ["running", "awaiting_approval", "pending", "succeeded", "failed", "cancelled", "x"] {
        assert!(row_label(st).chars().count() <= 9);
    }
    assert_eq!(row_label("awaiting_approval"), "awaiting");
    assert_eq!(row_label("x"), "unknown");
}

#[test]
fn runs_are_shown_in_a_table() {
    let mut waiting = view("0123456789", "awaiting_approval", NOW);
    waiting.gate = Some(GateView { step: s("g"), message: Some(s("ok to ship?")) });
    assert_eq!(
        row(&waiting, now()),
        "⏸ awaiting  01234567 demo                  1/2    0s  ↳ ok to ship?"
    );
    let lines = render(&vec![waiting, view("ffff", "running", NOW), view("eeee", "running", NOW)], now());
    assert_eq!(lines[0], "2 running  ·  1 awaiting approval");
    assert!(lines.iter().any(|l| l.starts_with("▸ running   ffff     demo")));
    assert_eq!(render(&vec![], now()), ["no runs yet"]);
}

#[test]
fn the_daemon_is_asked_at_one_address() {
    assert_eq!(runs_endpoint("http://h:1//", 5), "http://h:1/api/runs?limit=5");
    assert_eq!(runs_endpoint("http://h", 20), "http://h/api/runs?limit=20");
    assert_eq!(refusal("E", 404, " not here\n"), "E returned HTTP 404: not here");
}

#[test]
fn the_newest_runs_are_listed_first() {
    let known = vec![
        view("a", "running", "2024-01-01T00:00:00Z"),
        view("b", "running", "2024-01-03T00:00:00Z"),
        view("c", "running", "2024-01-02T00:00:00Z"),
    ];
    let got: Vec<String> = recent(known, 2).into_iter().map(|v| v.run_id).collect();
    assert_eq!(got, ["b", "c"]);
}

// Cancelling.

#[test]
fn cancel_json_reports_requested() {
    let id = RunId(0x0123_4567_89ab_4cde_8f01_2345_6789_abcd);
    let text = cancel_json(id, true);
    assert_eq!(text, format!("{{\"run_id\":\"{}\",\"requested\":true}}", id.to_string()));
    let parsed: serde_json::Value = serde_json::from_str(&cancel_json(id, false)).unwrap();
    assert_eq!(parsed["requested"], serde_json::Value::Bool(false));
    assert_eq!(parsed["run_id"].as_str(), Some(id.to_string().as_str()));
    assert_eq!((cancel_exit(true), cancel_exit(false)), (0, 2));
}

#[test]
fn only_runs_that_are_not_over_are_cancelled() {
    assert!(is_cancellable(RunStatus::Running) && is_cancellable(RunStatus::AwaitingApproval));
    assert!(!is_cancellable(RunStatus::Succeeded) && !is_cancellable(RunStatus::Cancelled));
    let id = RunId(7);
    assert!(cancel_line(id, true).starts_with("⏹ cancel requested for run 00000000-"));
    assert_eq!(
        cancel_line(id, false),
        format!("✗ no cancellable (non-terminal) run {} found in the store", id.to_string())
    );
}

#[test]
fn a_prune_asks_before_it_deletes() {
    assert_eq!(prune_start(true, true), PruneStart::Report);
    assert_eq!(prune_start(false, true), PruneStart::Delete);
    assert_eq!(prune_start(false, false), PruneStart::Ask);
    assert_eq!(prune_stop(0, true), Some("Nothing to prune."));
    assert_eq!(prune_stop(2, false), Some("Aborted; nothing was pruned."));
    assert_eq!(prune_stop(2, true), None);
}

#[test]
fn runs_are_listed_for_machines() {
    let st = state();
    let row: serde_json::Value = serde_json::from_str(&list_row(&st, "then")).unwrap();
    assert_eq!(row["run_id"].as_str(), Some(st.run_id.to_string().as_str()));
    assert_eq!(row["workflow"].as_str(), Some(st.workflow.as_str()));
    assert_eq!(row["status"].as_str(), Some(status_str(st.status)));
    assert_eq!(row["updated_at"].as_str(), Some("then"));
}
