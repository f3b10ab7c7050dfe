use odin::context::check::{check, report_units, template_units};
use odin::context::refs::{analyze, template_source, Analysis};
use odin::context::render::{
    build_context, eval_when, guard, render, render_template, shquote, template_error, Context,
};
use odin::context::scan::{binds_a_name, subscripted_roots};
use odin::context::shape::ContextShape;
use odin::ids::{ArtifactName, ProviderRef, StepId, WorkflowId};
use odin::ir::params::ParamSpec;
use odin::ir::step::{
    Artifacts, CaseBranch, CaseStep, JudgeSpec, LoopStep, ProviderStep, RetrySpec, RunStep, Step,
    StepKind,
};
use odin::ir::workflow::{SchemaVersion, Workflow, WorkflowDefaults};
use odin::ir::workspace::WorkspaceConfig;
use odin::json::Value;
use odin::names::{NameSet, OrderedMap};
use odin::validate::diagnostic::{DiagCode, Diagnostic, Severity};
use odin::validate::graph::{ancestor_sets, ancestors_of, run_order};
use odin::validate::suggest::{edit_distance, suggest};

fn s(x: &str) -> String {
    x.to_owned()
}

fn step(id: &str, kind: StepKind, depends_on: &[&str]) -> Step {
    Step {
        id: StepId::new(id),
        kind,
        artifacts: Artifacts::none(),
        gates: OrderedMap::new(),
        judge: None,
        retry: RetrySpec::default(),
        timeout: None,
        when: None,
        depends_on: depends_on.iter().map(|d| StepId::new(d)).collect(),
        scratch: false,
    }
}

fn ask(id: &str, prompt: &str) -> Step {
    let p = ProviderStep {
        provider: ProviderRef::new("codex"),
        prompt: Some(s(prompt)),
        prompt_file: None,
    };
    step(id, StepKind::Provider(p), &[])
}

fn run(id: &str, command: &str, depends_on: &[&str]) -> Step {
    step(id, StepKind::Run(RunStep { run: s(command) }), depends_on)
}

fn looped(id: &str, until: &str, max: u8, steps: Vec<Step>, depends_on: &[&str]) -> Step {
    step(id, StepKind::Loop(LoopStep { until: s(until), max, steps }), depends_on)
}

fn workflow(params: &[&str], steps: Vec<Step>) -> Workflow {
    let mut declared: OrderedMap<ParamSpec> = OrderedMap::new();
    for p in params {
        declared.insert(s(p), ParamSpec::default());
    }
    Workflow {
        schema_version: SchemaVersion::default(),
        name: WorkflowId::new("x"),
        version: None,
        description: None,
        tags: vec![],
        durable: true,
        workspace: WorkspaceConfig::default(),
        triggers: vec![],
        params: declared,
        steps,
        defaults: WorkflowDefaults { timeout: None, retry: None },
        max_parallel: None,
    }
}

fn checked(params: &[&str], steps: Vec<Step>) -> Vec<Diagnostic> {
    let wf = workflow(params, steps);
    let anc = ancestor_sets(&wf.steps);
    let mut d = Vec::new();
    check(&wf, &anc, &mut d);
    d
}

fn has(d: &[Diagnostic], code: DiagCode) -> bool {
    d.iter().any(|x| x.code == code)
}

fn has_unknown_ref(d: &[Diagnostic]) -> bool {
    has(d, DiagCode::UnknownTemplateRef)
}

fn chars(x: &str) -> Vec<char> {
    x.chars().collect()
}

fn set_of(v: &[&str]) -> NameSet {
    let mut n = NameSet::new();
    for x in v {
        n.insert(s(x));
    }
    n
}

fn roots(pairs: &[(&str, &str)]) -> Context {
    build_context(&Value::Object(pairs.iter().map(|(k, v)| (s(k), s(v))).collect()))
}

// Rendering.

#[test]
fn renders_with_context() {
    let ctx = roots(&[("params", r#"{"n":42}"#)]);
    let out = render_template("issue #{{ params.n }}", &ctx, "test").unwrap();
    assert_eq!(out, "issue #42");
}

#[test]
fn undefined_reference_is_an_error() {
    let ctx = roots(&[("params", "{}")]);
    assert!(render_template("{{ params.missing }}", &ctx, "test").is_err());
}

#[test]
fn shquote_neutralizes_shell_metacharacters() {
    let ctx = roots(&[("params", r#"{"title":"$(rm -rf /); `whoami`"}"#)]);
    let out = render_template("echo {{ params.title | shquote }}", &ctx, "test").unwrap();
    // The whole value is wrapped in single quotes, so nothing is a command substitution.
    assert_eq!(out, "echo '$(rm -rf /); `whoami`'");

    // An embedded single quote is escaped so it can't terminate the quoting and break out.
    let ctx = roots(&[("params", r#"{"x":"a'b; rm -rf /"}"#)]);
    let out = render_template("echo {{ params.x | shquote }}", &ctx, "test").unwrap();
    assert_eq!(out, r"echo 'a'\''b; rm -rf /'");
}

#[test]
fn evaluates_when() {
    let ctx = roots(&[("steps", r#"{"a":{"exit_code":0,"status":"passed"}}"#)]);
    assert!(eval_when("steps.a.exit_code == 0", &ctx).unwrap());
    assert!(!eval_when("steps.a.exit_code == 1", &ctx).unwrap());
    // The documented status-gate idiom: status is a snake_case string.
    assert!(eval_when("steps.a.status == 'passed'", &ctx).unwrap());
    assert!(!eval_when("steps.a.status == 'failed'", &ctx).unwrap());
    assert!(eval_when("  ", &ctx).unwrap(), "empty when is true");
}

#[test]
fn deep_params_render() {
    let nested = |n: usize| format!(r#"{{"x":{}"[[" ]{}}}"#, "[".repeat(n), "]".repeat(n - 1));
    let ctx = Context::new().with_root("params", nested(250));
    assert_eq!(render_template("{{ params.x | length }}", &ctx, "test").unwrap(), "1");
    assert!(eval_when("params.x", &ctx).unwrap());
    let ctx = Context::new().with_root("params", nested(255));
    let err = render_template("{{ params.x | length }}", &ctx, "run").unwrap_err();
    assert_eq!(err.to_string(), "template error in run: the context is nested too deeply");
    assert!(guard("params.x", &ctx).unwrap_err().contains("nested too deeply"));
}

#[test]
fn shell_quoting_is_exact() {
    assert_eq!(shquote(""), "''");
    assert_eq!(shquote("plain"), "'plain'");
    assert_eq!(shquote("it's"), r"'it'\''s'");
}

#[test]
fn a_bad_guard_is_an_error() {
    let ctx = roots(&[("params", "{}")]);
    assert!(eval_when("params.missing.deep == 1", &ctx).is_err());
    assert!(guard("1 +", &ctx).is_err());
    assert_eq!(guard("1 == 1", &ctx), Ok(true));
    assert!(render("{{ params.missing }}", &ctx, "prompt").is_err());
    assert_eq!(render("plain", &ctx, "prompt"), Ok(s("plain")));
    assert_eq!(template_error("gate", s("boom")).to_string().contains("gate"), true);
}

#[test]
fn a_later_root_replaces_an_earlier_one() {
    let ctx = Context::new().with_root("a", s("1")).with_root("b", s("2")).with_root("a", s("3"));
    assert_eq!(ctx.to_json(), "{\"a\":3,\"b\":2}");
    assert_eq!(render_template("{{ a }}-{{ b }}", &ctx, "t").unwrap(), "3-2");
    // A value that is no object has no roots.
    assert_eq!(build_context(&Value::number(1)).to_json(), "{}");
}

// References.

#[test]
fn unknown_param_ref_is_flagged() {
    let d = checked(&["foo"], vec![ask("a", "{{ params.bar }}")]);
    assert!(has_unknown_ref(&d));
}

#[test]
fn known_param_ref_passes() {
    let d = checked(&["foo"], vec![ask("a", "{{ params.foo }}")]);
    assert!(!has_unknown_ref(&d));
}

#[test]
fn non_upstream_step_ref_is_flagged() {
    // `b` references `a` but does not depend on it.
    let d = checked(&[], vec![ask("a", "hi"), run("b", "echo {{ steps.a.outputs.x }}", &[])]);
    assert!(has_unknown_ref(&d));
}

#[test]
fn upstream_step_ref_passes() {
    let d = checked(&[], vec![ask("a", "hi"), run("b", "echo {{ steps.a.outputs.x }}", &["a"])]);
    assert!(!has_unknown_ref(&d));
}

#[test]
fn minijinja_global_is_not_an_unknown_ref() {
    // `range`/`dict`/`namespace` are built-in functions, not variables.
    let d = checked(&[], vec![ask("a", "{{ range(3) }} {{ dict(k=1) }} {{ namespace(x=1) }}")]);
    assert!(!has_unknown_ref(&d), "globals must not be flagged: {d:?}");
}

#[test]
fn typoed_step_field_is_flagged_with_a_suggestion() {
    // `a` is an upstream dependency, so the id resolves; the leaf `exitcode` is the bug.
    let d = checked(&[], vec![ask("a", "hi"), run("b", "echo {{ steps.a.exitcode }}", &["a"])]);
    let diag = d
        .iter()
        .find(|x| x.code == DiagCode::UnknownTemplateRef)
        .expect("a typoed step field must be flagged");
    assert!(
        diag.help.as_deref().unwrap_or_default().contains("exit_code"),
        "help should suggest exit_code: {:?}",
        diag.help
    );
}

#[test]
fn valid_step_fields_pass() {
    let d = checked(
        &[],
        vec![
            ask("a", "hi"),
            run(
                "b",
                "{{ steps.a.exit_code }} {{ steps.a.status }} {{ steps.a.outputs.stdout }}",
                &["a"],
            ),
        ],
    );
    assert!(!has_unknown_ref(&d), "outputs/exit_code/status are all valid: {d:?}");
}

#[test]
fn set_or_for_binding_warns() {
    // A `{% set %}` binding hides references reached through the new name.
    let d = checked(&["x"], vec![ask("a", "{% set s = params.x %}{{ s.bogus }}")]);
    assert!(has(&d, DiagCode::DynamicTemplateRef), "a binding must be reported: {d:?}");
}

#[test]
fn syntax_error_is_flagged() {
    let d = checked(&[], vec![ask("a", "{{ unclosed ")]);
    assert!(has(&d, DiagCode::TemplateSyntax));
}

#[test]
fn diff_artifact_is_always_allowed() {
    let d = checked(&[], vec![ask("a", "{{ artifacts.DIFF }}")]);
    assert!(!has_unknown_ref(&d));
}

#[test]
fn unused_param_warns() {
    let d = checked(&["foo"], vec![run("a", "./x.sh", &[])]);
    assert!(has(&d, DiagCode::UnusedParam));
}

#[test]
fn trigger_refs_are_always_allowed() {
    let d = checked(&[], vec![ask("a", "{{ trigger.issue.number }}")]);
    assert!(!has_unknown_ref(&d));
}

#[test]
fn non_required_artifact_ref_is_flagged() {
    let d = checked(&[], vec![ask("a", "{{ artifacts.FOO }}")]);
    assert!(has_unknown_ref(&d));
}

#[test]
fn required_artifact_ref_passes() {
    let mut p = ask("p", "hi");
    p.artifacts.produces.push(ArtifactName::new("FOO"));
    let mut a = run("a", "echo {{ artifacts.FOO }}", &["p"]);
    a.artifacts.requires_.push(ArtifactName::new("FOO"));
    let d = checked(&[], vec![p, a]);
    assert!(!has_unknown_ref(&d));
}

#[test]
fn trigger_interpolated_into_a_run_step_warns() {
    // Untrusted `trigger.*` reaching a shell in a `run:` step.
    let d = checked(&[], vec![run("a", "echo {{ trigger.issue.title }}", &[])]);
    assert!(has(&d, DiagCode::TriggerIntoShell));
}

#[test]
fn trigger_in_a_prompt_does_not_warn() {
    // A prompt is fed to the agent, not a shell.
    let d = checked(&[], vec![ask("a", "{{ trigger.issue.title }}")]);
    assert!(!has(&d, DiagCode::TriggerIntoShell));
}

#[test]
fn param_used_only_via_subscript_is_not_unused() {
    // `params['foo']` references foo dynamically: the key cannot be attributed.
    let d = checked(&["foo"], vec![ask("a", "{{ params['foo'] }}")]);
    assert!(!has(&d, DiagCode::UnusedParam), "a subscript use must count:\n{d:?}");
    assert!(has(&d, DiagCode::DynamicTemplateRef));
}

#[test]
fn subscript_inside_a_string_literal_is_not_flagged() {
    // A quoted `steps[0]` is data, not a subscript.
    let d = checked(&[], vec![ask("a", "{{ 'steps[0]' }}")]);
    assert!(
        !has(&d, DiagCode::DynamicTemplateRef),
        "a quoted literal must not be read as a subscript:\n{d:?}"
    );
}

#[test]
fn a_real_subscript_is_still_flagged() {
    let d = checked(
        &[],
        vec![ask("a", "hi"), run("b", "echo {{ steps['a'].outputs.x }}", &["a"])],
    );
    assert!(has(&d, DiagCode::DynamicTemplateRef));
}

#[test]
fn loop_until_referencing_an_inner_step_passes() {
    // `until` runs after the body, so every inner step (here `test`) is visible to it.
    let body = vec![run("edit", "echo edit", &[]), run("test", "echo test", &["edit"])];
    let d = checked(&[], vec![looped("f", "steps.test.status == 'passed'", 3, body, &[])]);
    assert!(!has_unknown_ref(&d), "{d:?}");
}

#[test]
fn loop_until_referencing_an_unknown_step_is_flagged() {
    let body = vec![run("edit", "echo hi", &[])];
    let d = checked(&[], vec![looped("f", "steps.ghost.status == 'passed'", 2, body, &[])]);
    assert!(has_unknown_ref(&d), "{d:?}");
}

#[test]
fn loop_inner_ref_to_an_upstream_sibling_passes() {
    let body =
        vec![run("a", "echo hi", &[]), run("b", "echo {{ steps.a.outputs.stdout }}", &["a"])];
    let d = checked(&[], vec![looped("f", "true", 2, body, &[])]);
    assert!(!has_unknown_ref(&d), "{d:?}");
}

#[test]
fn loop_inner_ref_to_a_non_upstream_sibling_is_flagged() {
    // `b` references sibling `a` without depending on it.
    let body = vec![run("a", "echo hi", &[]), run("b", "echo {{ steps.a.outputs.stdout }}", &[])];
    let d = checked(&[], vec![looped("f", "true", 2, body, &[])]);
    assert!(has_unknown_ref(&d), "{d:?}");
}

#[test]
fn loop_inner_ref_to_an_unknown_step_is_flagged() {
    let body = vec![run("edit", "echo {{ steps.ghost.outputs.x }}", &[])];
    let d = checked(&[], vec![looped("f", "true", 2, body, &[])]);
    assert!(has_unknown_ref(&d), "{d:?}");
}

#[test]
fn loop_inner_ref_to_an_outer_ancestor_passes() {
    // An inner step may read an outer step the loop depends on (it ran before the loop).
    let body = vec![run("edit", "echo {{ steps.setup.outputs.stdout }}", &[])];
    let d = checked(&[], vec![ask("setup", "hi"), looped("f", "true", 2, body, &["setup"])]);
    assert!(!has_unknown_ref(&d), "{d:?}");
}

#[test]
fn loop_counter_and_feedback_resolve() {
    let body = vec![ask("edit", "try {{ loop.counter }}: {{ loop.feedback }}")];
    let d = checked(&[], vec![looped("f", "true", 2, body, &[])]);
    assert!(!has_unknown_ref(&d), "loop.* is an open root: {d:?}");
}

#[test]
fn param_used_only_in_a_loop_body_is_not_unused() {
    let body = vec![ask("edit", "{{ params.foo }}")];
    let d = checked(&["foo"], vec![looped("f", "true", 2, body, &[])]);
    assert!(
        !has(&d, DiagCode::UnusedParam),
        "a param referenced only inside a loop body is used: {d:?}"
    );
}

#[test]
fn loop_inner_template_syntax_error_is_flagged() {
    let body = vec![ask("edit", "{{ unclosed ")];
    let d = checked(&[], vec![looped("f", "true", 2, body, &[])]);
    assert!(has(&d, DiagCode::TemplateSyntax), "{d:?}");
}

#[test]
fn every_template_of_a_step_is_checked() {
    let mut a = run("a", "true", &[]);
    a.when = Some(s("params.no_when"));
    a.gates.insert(s("g"), s("{{ params.no_gate }}"));
    a.judge = Some(JudgeSpec {
        provider: ProviderRef::new("j"),
        criteria: s("{{ params.no_criteria }}"),
        threshold: 0,
    });
    let c = step(
        "c",
        StepKind::Case(CaseStep {
            branches: vec![CaseBranch { label: s("l"), when: Some(s("params.no_branch")) }],
            else_: None,
        }),
        &[],
    );
    let d = checked(&[], vec![a, c]);
    for name in ["no_when", "no_gate", "no_branch"] {
        assert!(
            d.iter().any(|x| x.code == DiagCode::UnknownTemplateRef && x.message.contains(name)),
            "{name}: {d:?}"
        );
    }
    assert!(d.iter().all(|x| x.code.severity() == Severity::Error));
}

#[test]
fn findings_depend_on_the_analyses_alone() {
    let wf = workflow(&["foo"], vec![ask("a", "{{ params.foo }}")]);
    let anc = ancestor_sets(&wf.steps);
    let units = template_units(&wf, &anc);
    assert_eq!(units.len(), 1);
    assert_eq!(units[0].templates.len(), 1);
    assert_eq!(template_source(&units[0].templates[0]), "{{ params.foo }}");
    // The names found in the text decide: handed another name, the report is another.
    let found = |v: &str| report_units(&wf, &units, &vec![vec![Analysis::Vars(vec![s(v)])]]);
    assert!(found("params.foo").is_empty());
    let d = found("params.bar");
    assert!(has_unknown_ref(&d) && has(&d, DiagCode::UnusedParam), "{d:?}");
    let d = report_units(&wf, &units, &vec![vec![Analysis::Syntax(s("boom"))]]);
    assert!(has(&d, DiagCode::TemplateSyntax), "{d:?}");
}

#[test]
fn templates_name_their_variables() {
    let Analysis::Vars(v) = analyze("{{ params.a }} {{ steps.b.outputs.c }}") else {
        panic!("parses");
    };
    let mut v = v;
    v.sort();
    assert_eq!(v, ["params.a", "steps.b.outputs.c"]);
    assert!(matches!(analyze("{{ x"), Analysis::Syntax(_)));
}

#[test]
fn subscripts_and_bindings_are_found() {
    assert_eq!(subscripted_roots("{{ params['a'] }} {{ steps [0] }}"), ["params", "steps"]);
    assert_eq!(
        subscripted_roots("{{ steps['a'] }} {{ params['a'] }} {{ steps['b'] }} {{ artifacts[0] }}"),
        ["steps", "params", "artifacts"]
    );
    assert!(subscripted_roots("{{ 'params[0]' }}").is_empty());
    assert!(subscripted_roots("params['a'] {% if x %}").is_empty());
    assert!(subscripted_roots("{{ myparams['a'] }}").is_empty());
    assert!(binds_a_name("{% set x = 1 %}"));
    assert!(binds_a_name("{% for x in y %}{% endfor %}"));
    assert!(!binds_a_name("{% if x %}{% endif %}"));
    assert!(!binds_a_name("set x"));
}

#[test]
fn the_shape_lists_every_root() {
    let wf = workflow(&["p"], vec![run("a", "true", &[]), run("b", "true", &[])]);
    let shape = ContextShape::of(&wf);
    assert!(shape.params.contains("p"));
    assert!(shape.steps.contains("a") && shape.steps.contains("b"));
    assert!(shape.webhook_params.len() == 0);
}

// The graph.

#[test]
fn ancestors_are_transitive() {
    let steps =
        vec![run("a", "x", &[]), run("b", "x", &["a"]), run("c", "x", &["b"]), run("d", "x", &[])];
    let up = ancestors_of(&steps, "c");
    assert!(up.contains("a") && up.contains("b"));
    assert!(!up.contains("c") && !up.contains("d"));
    let all = ancestor_sets(&steps);
    assert_eq!(all.len(), 4);
    assert_eq!(all.get("b").map(|n| n.len()), Some(1));
}

#[test]
fn order_follows_dependencies() {
    let steps = vec![run("c", "x", &["b"]), run("a", "x", &[]), run("b", "x", &["a"])];
    assert_eq!(run_order(&steps), [1, 2, 0]);
    // Steps that wait for each other keep their written order behind the others.
    let knot = vec![run("a", "x", &["b"]), run("b", "x", &["a"]), run("c", "x", &[])];
    let order = run_order(&knot);
    assert_eq!(order.len(), 3);
    assert!(order.contains(&0) && order.contains(&1) && order.contains(&2));
}

// Suggestions.

#[test]
fn the_nearest_name_is_suggested() {
    assert_eq!(edit_distance(&chars("kitten"), &chars("sitting")), 3);
    assert_eq!(edit_distance(&chars(""), &chars("abc")), 3);
    let names = set_of(&["outputs", "exit_code", "status"]);
    assert_eq!(suggest("exitcode", &names), Some(s("exit_code")));
    assert_eq!(suggest("zzzzzzzz", &names), None);
}
