//! Static checking of template references: unknown names, syntax errors, unused params,
//! references that escape the checks, and untrusted `trigger.*` values in shell commands.
//!
//! Every templated string of a step is compiled, and each variable path it uses is held against
//! the names that are visible where the string stands.

use super::limits::{can_read, engine_reads};
use super::scan::{binds, binds_a_name, subscripted, subscripted_roots};
use crate::ir::step::{CaseBranch, Step, StepKind};
use crate::json::{Value, ValueView};
use crate::names::{opt_view, views, with_name, NameSet};
use crate::text::{
    concat2, concat3, concat4, debug_quoted, decimal, decimal_of, quote_debug, split, split_on,
    text_eq, texts,
};
use crate::validate::diagnostic::{plain, DiagCode, DiagView, Diagnostic};
use crate::validate::graph::upstream;
use crate::validate::suggest::{closest, suggest};
use vstd::prelude::*;

verus! {

// ---------------------------------------------------------------------------------------------
// Templated strings
// ---------------------------------------------------------------------------------------------
/// A templated string: where it lives, whether it is a bare expression, and whether a shell
/// executes it.
#[derive(Debug)]
pub struct Templated {
    pub text: String,
    pub pointer: String,
    pub is_expr: bool,
    pub shell: bool,
}

/// The mathematical form of a [`Templated`].
#[verifier::ext_equal]
pub struct TemplatedView {
    pub text: Seq<char>,
    pub pointer: Seq<char>,
    pub is_expr: bool,
    pub shell: bool,
}

impl View for Templated {
    type V = TemplatedView;

    open spec fn view(&self) -> TemplatedView {
        TemplatedView {
            text: self.text@,
            pointer: self.pointer@,
            is_expr: self.is_expr,
            shell: self.shell,
        }
    }
}

/// A templated string with its parts.
pub open spec fn tpl(text: Seq<char>, pointer: Seq<char>, is_expr: bool, shell: bool) -> TemplatedView {
    TemplatedView { text, pointer, is_expr, shell }
}

/// The template source of a templated string: a bare expression is put between braces.
pub open spec fn source_of(t: TemplatedView) -> Seq<char> {
    if t.is_expr {
        "{{ "@ + t.text + " }}"@
    } else {
        t.text
    }
}

/// The string arguments of an action. Only the command of `shell.exec` reaches a shell.
pub open spec fn with_templates(
    ptr: Seq<char>,
    action: Seq<char>,
    args: Seq<(Seq<char>, ValueView)>,
) -> Seq<TemplatedView>
    decreases args.len(),
{
    if args.len() == 0 {
        Seq::empty()
    } else {
        let before = with_templates(ptr, action, args.drop_last());
        let (k, v) = args.last();
        match v {
            ValueView::String(s) => before.push(
                tpl(
                    s,
                    ptr + ".with."@ + k,
                    false,
                    action == "shell.exec"@ && k == "command"@,
                ),
            ),
            _ => before,
        }
    }
}

/// The guards of a case's branches.
pub open spec fn case_templates(ptr: Seq<char>, branches: Seq<CaseBranch>) -> Seq<TemplatedView>
    decreases branches.len(),
{
    if branches.len() == 0 {
        Seq::empty()
    } else {
        let before = case_templates(ptr, branches.drop_last());
        match branches.last().when {
            Some(w) => before.push(
                tpl(
                    w@,
                    ptr + ".case.branches["@ + decimal((branches.len() - 1) as nat) + "].when"@,
                    true,
                    false,
                ),
            ),
            None => before,
        }
    }
}

/// The commands of a step's gates, all executed by a shell.
pub open spec fn gate_templates(ptr: Seq<char>, gates: Seq<(Seq<char>, Seq<char>)>) -> Seq<
    TemplatedView,
>
    decreases gates.len(),
{
    if gates.len() == 0 {
        Seq::empty()
    } else {
        gate_templates(ptr, gates.drop_last()).push(
            tpl(gates.last().1, ptr + ".gates."@ + gates.last().0, false, true),
        )
    }
}

/// The one templated string of an optional field.
pub open spec fn field_template(
    ptr: Seq<char>,
    field: Seq<char>,
    text: Option<String>,
    is_expr: bool,
) -> Seq<TemplatedView> {
    match text {
        Some(t) => seq![tpl(t@, ptr + field, is_expr, false)],
        None => Seq::empty(),
    }
}

/// The templated strings of a step's body.
pub open spec fn kind_templates(ptr: Seq<char>, kind: StepKind) -> Seq<TemplatedView> {
    match kind {
        StepKind::Provider(p) => field_template(ptr, ".prompt"@, p.prompt, false)
            + field_template(ptr, ".prompt_file"@, p.prompt_file, false),
        StepKind::Action(a) => with_templates(ptr, a.action@, a.with@),
        StepKind::Run(r) => seq![tpl(r.run@, ptr + ".run"@, false, true)],
        StepKind::Approval(a) => field_template(ptr, ".approval.message"@, a.message, false),
        StepKind::Case(c) => case_templates(ptr, c.branches@),
        StepKind::Loop(_) => Seq::empty(),
    }
}

/// The templated strings of a step: its body, its gates, its judge's criteria, its guard. What a
/// loop holds is not among them.
pub open spec fn templates_of(ptr: Seq<char>, s: Step) -> Seq<TemplatedView> {
    kind_templates(ptr, s.kind) + gate_templates(ptr, s.gates@) + (match s.judge {
        Some(j) => seq![tpl(j.criteria@, ptr + ".judge.criteria"@, false, false)],
        None => Seq::empty(),
    }) + field_template(ptr, ".when"@, s.when, true)
}

fn push_template(
    out: &mut Vec<Templated>,
    text: &String,
    pointer: String,
    is_expr: bool,
    shell: bool,
)
    ensures
        views(final(out)@) == views(old(out)@).push(tpl(text@, pointer@, is_expr, shell)),
{
    let ghost before = out@;
    out.push(Templated { text: text.clone(), pointer, is_expr, shell });
    assert(views(out@) =~= views(before).push(tpl(text@, pointer@, is_expr, shell)));
}

fn push_field(
    out: &mut Vec<Templated>,
    ptr: &str,
    field: &str,
    text: &Option<String>,
    is_expr: bool,
)
    ensures
        views(final(out)@) == views(old(out)@) + field_template(ptr@, field@, *text, is_expr),
{
    let ghost before = views(out@);
    match text {
        Some(t) => {
            let pointer = concat2(ptr, field);
            push_template(out, t, pointer, is_expr, false);
            assert(views(out@) =~= before + field_template(ptr@, field@, *text, is_expr));
        },
        None => {
            assert(views(out@) =~= before + field_template(ptr@, field@, *text, is_expr));
        },
    }
}

/// The templated strings of one step, anchored under `ptr`.
pub fn collect_templates(ptr: &str, s: &Step) -> (r: Vec<Templated>)
    ensures
        views(r@) == templates_of(ptr@, *s),
{
    let mut out: Vec<Templated> = Vec::new();
    assert(views(out@) =~= Seq::<TemplatedView>::empty());
    match &s.kind {
        StepKind::Provider(p) => {
            push_field(&mut out, ptr, ".prompt", &p.prompt, false);
            push_field(&mut out, ptr, ".prompt_file", &p.prompt_file, false);
        },
        StepKind::Action(a) => {
            let n = a.with.len();
            let is_shell = text_eq(&a.action, "shell.exec");
            let mut i: usize = 0;
            assert(a.with@.take(0) =~= Seq::<(Seq<char>, ValueView)>::empty());
            while i < n
                invariant
                    i <= n,
                    n == a.with@.len(),
                    is_shell == (a.action@ == "shell.exec"@),
                    views(out@) == with_templates(ptr@, a.action@, a.with@.take(i as int)),
                decreases n - i,
            {
                let ghost upto = a.with@.take(i + 1);
                assert(upto.drop_last() =~= a.with@.take(i as int));
                let k = a.with.key_at(i);
                if let Value::String(sv) = a.with.value_at(i) {
                    let shell = is_shell && text_eq(k, "command");
                    let pointer = concat3(ptr, ".with.", k);
                    push_template(&mut out, sv, pointer, false, shell);
                }
                i += 1;
            }
            assert(a.with@.take(n as int) =~= a.with@);
        },
        StepKind::Run(r) => {
            let pointer = concat2(ptr, ".run");
            push_template(&mut out, &r.run, pointer, false, true);
        },
        StepKind::Approval(a) => {
            push_field(&mut out, ptr, ".approval.message", &a.message, false);
        },
        StepKind::Case(c) => {
            let mut i: usize = 0;
            while i < c.branches.len()
                invariant
                    i <= c.branches.len(),
                    views(out@) == case_templates(ptr@, c.branches@.take(i as int)),
                decreases c.branches.len() - i,
            {
                let ghost upto = c.branches@.take(i + 1);
                assert(upto.drop_last() =~= c.branches@.take(i as int));
                if let Some(w) = &c.branches[i].when {
                    let n = decimal_of(i as u128);
                    let pointer = concat4(ptr, ".case.branches[", &n, "].when");
                    push_template(&mut out, w, pointer, true, false);
                }
                i += 1;
            }
            assert(c.branches@.take(i as int) =~= c.branches@);
        },
        StepKind::Loop(_) => {},
    }
    let ghost body = kind_templates(ptr@, s.kind);
    assert(views(out@) =~= body);
    let n = s.gates.len();
    let mut i: usize = 0;
    assert(body + gate_templates(ptr@, s.gates@.take(0)) =~= body);
    while i < n
        invariant
            i <= n,
            n == s.gates@.len(),
            body == kind_templates(ptr@, s.kind),
            views(out@) == body + gate_templates(ptr@, s.gates@.take(i as int)),
        decreases n - i,
    {
        let ghost upto = s.gates@.take(i + 1);
        assert(upto.drop_last() =~= s.gates@.take(i as int));
        let ghost before = views(out@);
        let pointer = concat3(ptr, ".gates.", s.gates.key_at(i));
        push_template(&mut out, s.gates.value_at(i), pointer, false, true);
        assert(views(out@) =~= body + gate_templates(ptr@, upto));
        i += 1;
    }
    assert(s.gates@.take(n as int) =~= s.gates@);
    if let Some(j) = &s.judge {
        let ghost before = views(out@);
        let pointer = concat2(ptr, ".judge.criteria");
        push_template(&mut out, &j.criteria, pointer, false, false);
        assert(views(out@) =~= before + seq![
            tpl(j.criteria@, ptr@ + ".judge.criteria"@, false, false),
        ]);
    } else {
        assert(views(out@) + Seq::<TemplatedView>::empty() =~= views(out@));
    }
    push_field(&mut out, ptr, ".when", &s.when, true);
    out
}

/// The structural pointer of a top-level step.
pub fn step_ptr(i: usize) -> (r: String)
    ensures
        r@ == "steps["@ + decimal(i as nat) + "]"@,
{
    let n = decimal_of(i as u128);
    concat3("steps[", &n, "]")
}

// ---------------------------------------------------------------------------------------------
// Analysis
// ---------------------------------------------------------------------------------------------
/// The (possibly dotted) variable paths that the template engine finds in a template source, or
/// the message of its syntax error.
pub uninterp spec fn engine_vars(source: Seq<char>) -> Result<Set<Seq<char>>, Seq<char>>;

/// `minijinja`'s compilation of a source and `Template::undeclared_variables(true)`: the set of
/// variable paths, called [`engine_vars`], each once, in no particular order; or the compile
/// error's text. The engine compiles a source within [`engine_reads`]; others can exhaust its stack
/// or make it compute a constant without end.
#[verifier::external_body]
pub(crate) fn undeclared(source: &str) -> (r: Result<Vec<String>, String>)
    requires
        engine_reads(source@),
    ensures
        match r {
            Ok(v) => engine_vars(source@) == Ok::<Set<Seq<char>>, Seq<char>>(texts(v@).to_set())
                && texts(v@).no_duplicates(),
            Err(e) => engine_vars(source@) == Err::<Set<Seq<char>>, Seq<char>>(e@),
        },
{
    let mut env = minijinja::Environment::new();
    env.add_template_owned("__odin_check", source.to_owned()).map_err(|e| e.to_string())?;
    let tmpl = env.get_template("__odin_check").map_err(|e| e.to_string())?;
    Ok(tmpl.undeclared_variables(true).into_iter().collect())
}

/// What is said of a template source that is not compiled.
pub open spec fn not_read() -> Seq<char> {
    "syntax error: the template is too complex"@
}

/// The (possibly dotted) variable paths a template source uses, or the message of its syntax
/// error.
pub open spec fn template_vars(source: Seq<char>) -> Result<Set<Seq<char>>, Seq<char>> {
    if engine_reads(source) {
        engine_vars(source)
    } else {
        Err(not_read())
    }
}

/// What compiling a template source showed.
#[derive(Debug)]
pub enum Analysis {
    /// The variable paths it uses.
    Vars(Vec<String>),
    /// The message of its syntax error.
    Syntax(String),
}

/// The mathematical form of an [`Analysis`].
#[verifier::ext_equal]
pub enum AnalysisView {
    Vars(Seq<Seq<char>>),
    Syntax(Seq<char>),
}

impl View for Analysis {
    type V = AnalysisView;

    open spec fn view(&self) -> AnalysisView {
        match *self {
            Analysis::Vars(v) => AnalysisView::Vars(texts(v@)),
            Analysis::Syntax(e) => AnalysisView::Syntax(e@),
        }
    }
}

/// Whether `a` is an outcome of compiling `source`.
pub open spec fn analyzes(source: Seq<char>, a: AnalysisView) -> bool {
    match a {
        AnalysisView::Vars(v) => v.no_duplicates() && template_vars(source) == Ok::<
            Set<Seq<char>>,
            Seq<char>,
        >(v.to_set()),
        AnalysisView::Syntax(e) => template_vars(source) == Err::<Set<Seq<char>>, Seq<char>>(e),
    }
}

/// The source of a templated string.
pub fn template_source(t: &Templated) -> (r: String)
    ensures
        r@ == source_of(t@),
{
    if t.is_expr {
        concat3("{{ ", &t.text, " }}")
    } else {
        t.text.clone()
    }
}

/// Compiles `source` and gives the variable paths it uses, or its syntax error.
pub fn analyze(source: &str) -> (r: Analysis)
    ensures
        analyzes(source@, r@),
{
    if !can_read(source) {
        return Analysis::Syntax("syntax error: the template is too complex".to_owned());
    }
    match undeclared(source) {
        Ok(v) => Analysis::Vars(v),
        Err(e) => Analysis::Syntax(e),
    }
}

// ---------------------------------------------------------------------------------------------
// Checking one variable path
// ---------------------------------------------------------------------------------------------
/// The names visible where a templated string stands.
#[derive(Debug)]
pub struct Scope {
    /// Declared params.
    pub params: NameSet,
    /// Known step ids.
    pub steps: NameSet,
    /// The artifacts the step requires.
    pub artifacts: NameSet,
    /// The steps that have run before.
    pub visible: NameSet,
}

/// The mathematical form of a [`Scope`].
pub struct ScopeView {
    pub params: Seq<Seq<char>>,
    pub steps: Seq<Seq<char>>,
    pub artifacts: Set<Seq<char>>,
    pub visible: Set<Seq<char>>,
}

impl View for Scope {
    type V = ScopeView;

    open spec fn view(&self) -> ScopeView {
        ScopeView {
            params: self.params@,
            steps: self.steps@,
            artifacts: self.artifacts@.to_set(),
            visible: self.visible@.to_set(),
        }
    }
}

/// The fields a step exposes.
pub open spec fn step_fields() -> Seq<Seq<char>> {
    seq!["outputs"@, "exit_code"@, "status"@]
}

/// Roots that are always allowed and whose children are not modeled.
pub open spec fn is_open_root(r: Seq<char>) -> bool {
    r == "trigger"@ || r == "run"@ || r == "retry"@ || r == "loop"@
}

/// The template engine's global functions, which look like variables.
pub open spec fn is_global(r: Seq<char>) -> bool {
    r == "range"@ || r == "dict"@ || r == "namespace"@ || r == "debug"@
}

/// A finding about an unknown name.
pub open spec fn unknown(pointer: Seq<char>, what: Seq<char>) -> DiagView {
    plain(DiagCode::UnknownTemplateRef, pointer, "template references unknown "@ + what)
}

/// A finding with the closest known name, if one is close.
pub open spec fn suggesting(d: DiagView, s: Option<Seq<char>>) -> DiagView {
    match s {
        Some(n) => DiagView { help: Some("did you mean "@ + debug_quoted(n) + "?"@), ..d },
        None => d,
    }
}

/// A finding about an unknown field of a step.
pub open spec fn unknown_field(pointer: Seq<char>, field: Seq<char>, step: Seq<char>) -> DiagView {
    let d = unknown(
        pointer,
        "field "@ + debug_quoted(field) + " on step "@ + debug_quoted(step),
    );
    match closest(field, step_fields()) {
        Some(n) => DiagView {
            help: Some(
                "did you mean "@ + debug_quoted(n)
                    + "? a step exposes: outputs, exit_code, status"@,
            ),
            ..d
        },
        None => DiagView { help: Some("a step exposes: outputs, exit_code, status"@), ..d },
    }
}

/// The finding about an untrusted payload in a shell command.
pub open spec fn trigger_in_shell(pointer: Seq<char>) -> DiagView {
    plain(
        DiagCode::TriggerIntoShell,
        pointer,
        "interpolates an untrusted trigger payload (`trigger.*`) into a shell command; a webhook-supplied value reaches `sh -c` unescaped (injection risk). Map the fields you trust into typed params and reference those instead"@,
    )
}

/// What is wrong with a path below the root `params`.
pub open spec fn param_findings(segs: Seq<Seq<char>>, sc: ScopeView, pointer: Seq<char>) -> Seq<
    DiagView,
> {
    if segs.len() > 1 && !sc.params.contains(segs[1]) {
        seq![
            suggesting(
                unknown(pointer, "param "@ + debug_quoted(segs[1])),
                closest(segs[1], sc.params),
            ),
        ]
    } else {
        Seq::empty()
    }
}

/// What is wrong with a path below the root `steps`: an unknown step, else one that has not run
/// before, else an unknown field of it.
pub open spec fn step_findings(segs: Seq<Seq<char>>, sc: ScopeView, pointer: Seq<char>) -> Seq<
    DiagView,
> {
    if segs.len() <= 1 {
        Seq::empty()
    } else if !sc.steps.contains(segs[1]) {
        seq![
            suggesting(
                unknown(pointer, "step "@ + debug_quoted(segs[1])),
                closest(segs[1], sc.steps),
            ),
        ]
    } else if !sc.visible.contains(segs[1]) {
        seq![
            plain(
                DiagCode::UnknownTemplateRef,
                pointer,
                "references step "@ + debug_quoted(segs[1])
                    + " which is not an upstream dependency (add it to depends_on)"@,
            ),
        ]
    } else if segs.len() > 2 && !step_fields().contains(segs[2]) {
        seq![unknown_field(pointer, segs[2], segs[1])]
    } else {
        Seq::empty()
    }
}

/// What is wrong with a path below the root `artifacts`.
pub open spec fn artifact_findings(segs: Seq<Seq<char>>, sc: ScopeView, pointer: Seq<char>) -> Seq<
    DiagView,
> {
    if segs.len() > 1 && segs[1] != "DIFF"@ && !sc.artifacts.contains(segs[1]) {
        seq![
            plain(
                DiagCode::UnknownTemplateRef,
                pointer,
                "references artifact "@ + debug_quoted(segs[1])
                    + " not in this step's requires (add it to artifacts.requires)"@,
            ),
        ]
    } else {
        Seq::empty()
    }
}

/// What is wrong with a variable path.
pub open spec fn var_findings(
    var: Seq<char>,
    sc: ScopeView,
    pointer: Seq<char>,
    shell: bool,
) -> Seq<DiagView> {
    let segs = split_on(var, '.');
    let root = segs[0];
    let untrusted = if root == "trigger"@ && shell {
        seq![trigger_in_shell(pointer)]
    } else {
        Seq::empty()
    };
    untrusted + (if root == "params"@ {
        param_findings(segs, sc, pointer)
    } else if root == "steps"@ {
        step_findings(segs, sc, pointer)
    } else if root == "artifacts"@ {
        artifact_findings(segs, sc, pointer)
    } else if is_open_root(root) || is_global(root) {
        Seq::empty()
    } else {
        seq![
            DiagView {
                help: Some(
                    "valid roots: params, steps, artifacts, trigger, run, retry, loop"@,
                ),
                ..unknown(pointer, debug_quoted(root))
            },
        ]
    })
}

/// The param a variable path names, if it names one.
pub open spec fn param_named(var: Seq<char>) -> Option<Seq<char>> {
    let segs = split_on(var, '.');
    if segs[0] == "params"@ && segs.len() > 1 {
        Some(segs[1])
    } else {
        None
    }
}

/// The used params after a variable path.
pub open spec fn used_after(used: Seq<Seq<char>>, var: Seq<char>) -> Seq<Seq<char>> {
    match param_named(var) {
        Some(p) => with_name(used, p),
        None => used,
    }
}

/// A finding about an unknown name.
pub fn unknown_ref(pointer: &str, what: &str) -> (r: Diagnostic)
    ensures
        r@ == unknown(pointer@, what@),
{
    let m = concat2("template references unknown ", what);
    Diagnostic::new(DiagCode::UnknownTemplateRef, pointer.to_owned(), m)
}

fn add_suggestion(d: Diagnostic, s: Option<String>) -> (r: Diagnostic)
    ensures
        r@ == suggesting(d@, crate::text::opt_text(s)),
{
    match s {
        Some(n) => {
            let q = quote_debug(&n);
            d.with_help(concat3("did you mean ", &q, "?"))
        },
        None => d,
    }
}

fn field_names() -> (r: NameSet)
    ensures
        r@ == step_fields(),
{
    proof {
        reveal_strlit("outputs");
        reveal_strlit("exit_code");
        reveal_strlit("status");
    }
    let mut s = NameSet::new();
    let _ = s.insert("outputs".to_owned());
    let _ = s.insert("exit_code".to_owned());
    let _ = s.insert("status".to_owned());
    assert("outputs"@.len() == 7);
    assert("exit_code"@.len() == 9);
    assert("status"@.len() == 6);
    assert(s@ =~= step_fields());
    s
}

fn check_field(pointer: &str, field: &str, step: &str) -> (r: Option<Diagnostic>)
    ensures
        opt_view(r) == (if step_fields().contains(field@) {
            None
        } else {
            Some(unknown_field(pointer@, field@, step@))
        }),
{
    let known = field_names();
    if known.contains(field) {
        return None;
    }
    let qf = quote_debug(field);
    let qs = quote_debug(step);
    let what = concat4("field ", &qf, " on step ", &qs);
    let d = unknown_ref(pointer, &what);
    match suggest(field, &known) {
        Some(n) => {
            let q = quote_debug(&n);
            let help = concat3(
                "did you mean ",
                &q,
                "? a step exposes: outputs, exit_code, status",
            );
            Some(d.with_help(help))
        },
        None => Some(d.with_help("a step exposes: outputs, exit_code, status".to_owned())),
    }
}

fn report(d: &mut Vec<Diagnostic>, x: Diagnostic)
    ensures
        views(final(d)@) == views(old(d)@).push(x@),
{
    let ghost before = d@;
    d.push(x);
    assert(views(d@) =~= views(before).push(x@));
}

/// Checks one variable path: notes the param it names and adds what is wrong with it.
pub fn check_var(
    var: &str,
    sc: &Scope,
    pointer: &str,
    shell: bool,
    used_params: &mut NameSet,
    d: &mut Vec<Diagnostic>,
)
    ensures
        views(final(d)@) == views(old(d)@) + var_findings(var@, sc@, pointer@, shell),
        final(used_params)@ == used_after(old(used_params)@, var@),
{
    proof {
        reveal_strlit("trigger");
        reveal_strlit("params");
        reveal_strlit("steps");
        reveal_strlit("artifacts");
    }
    let ghost start = views(d@);
    let segs = split(var, '.');
    let root = segs[0].as_str();
    assert(root@ == split_on(var@, '.')[0]);
    if text_eq(root, "trigger") && shell {
        report(
            d,
            Diagnostic::new(
                DiagCode::TriggerIntoShell,
                pointer.to_owned(),
                "interpolates an untrusted trigger payload (`trigger.*`) into a shell command; a webhook-supplied value reaches `sh -c` unescaped (injection risk). Map the fields you trust into typed params and reference those instead".to_owned(),
            ),
        );
    }
    let ghost untrusted = if root@ == "trigger"@ && shell {
        seq![trigger_in_shell(pointer@)]
    } else {
        Seq::<DiagView>::empty()
    };
    assert(views(d@) =~= start + untrusted);
    let ghost before = views(d@);
    if text_eq(root, "params") {
        if segs.len() > 1 {
            let name = segs[1].as_str();
            assert(name@ == split_on(var@, '.')[1]);
            let _ = used_params.insert(name.to_owned());
            if !sc.params.contains(name) {
                let q = quote_debug(name);
                let what = concat2("param ", &q);
                let diag = unknown_ref(pointer, &what);
                let sg = suggest(name, &sc.params);
                report(d, add_suggestion(diag, sg));
            }
        }
        assert(views(d@) =~= before + param_findings(split_on(var@, '.'), sc@, pointer@));
    } else if text_eq(root, "steps") {
        if segs.len() > 1 {
            let name = segs[1].as_str();
            assert(name@ == split_on(var@, '.')[1]);
            if !sc.steps.contains(name) {
                let q = quote_debug(name);
                let what = concat2("step ", &q);
                let diag = unknown_ref(pointer, &what);
                let sg = suggest(name, &sc.steps);
                report(d, add_suggestion(diag, sg));
            } else if !sc.visible.contains(name) {
                let q = quote_debug(name);
                let m = concat3(
                    "references step ",
                    &q,
                    " which is not an upstream dependency (add it to depends_on)",
                );
                report(d, Diagnostic::new(DiagCode::UnknownTemplateRef, pointer.to_owned(), m));
            } else if segs.len() > 2 {
                assert(segs@[2]@ == split_on(var@, '.')[2]);
                if let Some(x) = check_field(pointer, &segs[2], name) {
                    report(d, x);
                }
            }
        }
        assert(views(d@) =~= before + step_findings(split_on(var@, '.'), sc@, pointer@));
    } else if text_eq(root, "artifacts") {
        if segs.len() > 1 {
            let name = segs[1].as_str();
            assert(name@ == split_on(var@, '.')[1]);
            if !text_eq(name, "DIFF") && !sc.artifacts.contains(name) {
                let q = quote_debug(name);
                let m = concat3(
                    "references artifact ",
                    &q,
                    " not in this step's requires (add it to artifacts.requires)",
                );
                report(d, Diagnostic::new(DiagCode::UnknownTemplateRef, pointer.to_owned(), m));
            }
        }
        assert(views(d@) =~= before + artifact_findings(split_on(var@, '.'), sc@, pointer@));
    } else if text_eq(root, "trigger") || text_eq(root, "run") || text_eq(root, "retry")
        || text_eq(root, "loop") {
        assert(before + Seq::<DiagView>::empty() =~= before);
    } else if text_eq(root, "range") || text_eq(root, "dict") || text_eq(root, "namespace")
        || text_eq(root, "debug") {
        assert(before + Seq::<DiagView>::empty() =~= before);
    } else {
        let q = quote_debug(root);
        let diag = unknown_ref(pointer, &q);
        report(
            d,
            diag.with_help(
                "valid roots: params, steps, artifacts, trigger, run, retry, loop".to_owned(),
            ),
        );
        assert(views(d@) =~= before + seq![
            DiagView {
                help: Some("valid roots: params, steps, artifacts, trigger, run, retry, loop"@),
                ..unknown(pointer@, debug_quoted(root@))
            },
        ]);
    }
    assert(views(d@) =~= start + var_findings(var@, sc@, pointer@, shell));
}

// ---------------------------------------------------------------------------------------------
// Checking templated strings
// ---------------------------------------------------------------------------------------------
/// What a scan has seen so far.
#[verifier::ext_equal]
pub struct ScanView {
    /// Params named by a dotted path.
    pub used: Seq<Seq<char>>,
    /// Whether `params` was subscripted, so that any param may be in use.
    pub dynamic: bool,
    /// The findings.
    pub found: Seq<DiagView>,
}

/// What a scan has seen so far.
#[derive(Debug)]
pub struct Scan {
    /// Params named by a dotted path.
    pub used_params: NameSet,
    /// Whether `params` was subscripted, so that any param may be in use.
    pub params_subscripted: bool,
    /// The findings.
    pub found: Vec<Diagnostic>,
}

impl View for Scan {
    type V = ScanView;

    open spec fn view(&self) -> ScanView {
        ScanView {
            used: self.used_params@,
            dynamic: self.params_subscripted,
            found: views(self.found@),
        }
    }
}

/// A scan after the variable paths of one template.
pub open spec fn scan_vars(
    st: ScanView,
    vars: Seq<Seq<char>>,
    sc: ScopeView,
    pointer: Seq<char>,
    shell: bool,
) -> ScanView
    decreases vars.len(),
{
    if vars.len() == 0 {
        st
    } else {
        let before = scan_vars(st, vars.drop_last(), sc, pointer, shell);
        ScanView {
            used: used_after(before.used, vars.last()),
            found: before.found + var_findings(vars.last(), sc, pointer, shell),
            ..before
        }
    }
}

/// The finding about a subscripted root.
pub open spec fn subscript_finding(pointer: Seq<char>, root: Seq<char>) -> DiagView {
    plain(
        DiagCode::DynamicTemplateRef,
        pointer,
        debug_quoted(root) + " is accessed with subscript syntax (`"@ + root
            + "[…]`); only dot notation (`"@ + root
            + ".name`) is statically checked, so an unknown or forward reference here will not be caught"@,
    )
}

/// A scan after the subscripted roots of one template.
pub open spec fn scan_roots(st: ScanView, roots: Seq<Seq<char>>, pointer: Seq<char>) -> ScanView
    decreases roots.len(),
{
    if roots.len() == 0 {
        st
    } else {
        let before = scan_roots(st, roots.drop_last(), pointer);
        ScanView {
            dynamic: before.dynamic || roots.last() == "params"@,
            found: before.found.push(subscript_finding(pointer, roots.last())),
            ..before
        }
    }
}

/// The finding about a binding.
pub open spec fn binding_finding(pointer: Seq<char>) -> DiagView {
    plain(
        DiagCode::DynamicTemplateRef,
        pointer,
        "uses a `{% set %}` / `{% for %}` binding; references reached through the introduced name are not statically checked, so an unknown or forward reference there will not be caught"@,
    )
}

/// A scan after one templated string, given what compiling it showed.
pub open spec fn scan_template(
    st: ScanView,
    t: TemplatedView,
    a: AnalysisView,
    sc: ScopeView,
) -> ScanView {
    let analyzed = match a {
        AnalysisView::Syntax(e) => ScanView {
            found: st.found.push(
                plain(DiagCode::TemplateSyntax, t.pointer, "template syntax error: "@ + e),
            ),
            ..st
        },
        AnalysisView::Vars(vars) => scan_vars(st, vars, sc, t.pointer, t.shell),
    };
    let rooted = scan_roots(analyzed, subscripted(source_of(t)), t.pointer);
    if binds(source_of(t)) {
        ScanView { found: rooted.found.push(binding_finding(t.pointer)), ..rooted }
    } else {
        rooted
    }
}

/// A scan after a batch of templated strings in one scope.
pub open spec fn scan_templates(
    st: ScanView,
    ts: Seq<TemplatedView>,
    asx: Seq<AnalysisView>,
    sc: ScopeView,
) -> ScanView
    decreases ts.len(),
{
    if ts.len() == 0 {
        st
    } else {
        scan_template(
            scan_templates(st, ts.drop_last(), asx.drop_last(), sc),
            ts.last(),
            asx.last(),
            sc,
        )
    }
}

fn note_vars(scan: &mut Scan, vars: &Vec<String>, sc: &Scope, t: &Templated)
    ensures
        final(scan)@ == scan_vars(old(scan)@, texts(vars@), sc@, t.pointer@, t.shell),
{
    let ghost start = scan@;
    let mut i: usize = 0;
    while i < vars.len()
        invariant
            i <= vars.len(),
            scan@ == scan_vars(start, texts(vars@).take(i as int), sc@, t.pointer@, t.shell),
        decreases vars.len() - i,
    {
        assert(texts(vars@).take(i + 1).drop_last() =~= texts(vars@).take(i as int));
        check_var(&vars[i], sc, &t.pointer, t.shell, &mut scan.used_params, &mut scan.found);
        i += 1;
    }
    assert(texts(vars@).take(i as int) =~= texts(vars@));
}

fn note_roots(scan: &mut Scan, roots: &Vec<String>, pointer: &String)
    ensures
        final(scan)@ == scan_roots(old(scan)@, texts(roots@), pointer@),
{
    let ghost start = scan@;
    let mut i: usize = 0;
    while i < roots.len()
        invariant
            i <= roots.len(),
            scan@ == scan_roots(start, texts(roots@).take(i as int), pointer@),
        decreases roots.len() - i,
    {
        assert(texts(roots@).take(i + 1).drop_last() =~= texts(roots@).take(i as int));
        let root = roots[i].as_str();
        if text_eq(root, "params") {
            scan.params_subscripted = true;
        }
        let q = quote_debug(root);
        let head = concat4(&q, " is accessed with subscript syntax (`", root, "[…]`); only dot notation (`");
        let m = concat3(
            &head,
            root,
            ".name`) is statically checked, so an unknown or forward reference here will not be caught",
        );
        report(&mut scan.found, Diagnostic::new(DiagCode::DynamicTemplateRef, pointer.clone(), m));
        i += 1;
    }
    assert(texts(roots@).take(i as int) =~= texts(roots@));
}

/// Checks one templated string, given what compiling it showed.
pub fn process_template(scan: &mut Scan, t: &Templated, a: &Analysis, sc: &Scope)
    ensures
        final(scan)@ == scan_template(old(scan)@, t@, a@, sc@),
{
    match a {
        Analysis::Syntax(e) => {
            let m = concat2("template syntax error: ", e);
            report(&mut scan.found, Diagnostic::new(DiagCode::TemplateSyntax, t.pointer.clone(), m));
        },
        Analysis::Vars(vars) => {
            note_vars(scan, vars, sc, t);
        },
    }
    let source = template_source(t);
    let roots = subscripted_roots(&source);
    note_roots(scan, &roots, &t.pointer);
    if binds_a_name(&source) {
        report(
            &mut scan.found,
            Diagnostic::new(
                DiagCode::DynamicTemplateRef,
                t.pointer.clone(),
                "uses a `{% set %}` / `{% for %}` binding; references reached through the introduced name are not statically checked, so an unknown or forward reference there will not be caught".to_owned(),
            ),
        );
    }
}

/// Checks a batch of templated strings in one scope, given what compiling each showed.
pub fn process_templates(
    scan: &mut Scan,
    templates: &Vec<Templated>,
    analyses: &Vec<Analysis>,
    sc: &Scope,
)
    requires
        templates.len() == analyses.len(),
    ensures
        final(scan)@ == scan_templates(
            old(scan)@,
            views(templates@),
            views(analyses@),
            sc@,
        ),
{
    let ghost start = scan@;
    let mut i: usize = 0;
    while i < templates.len()
        invariant
            i <= templates.len() == analyses.len(),
            scan@ == scan_templates(
                start,
                views(templates@).take(i as int),
                views(analyses@).take(i as int),
                sc@,
            ),
        decreases templates.len() - i,
    {
        assert(views(templates@).take(i + 1).drop_last() =~= views(templates@).take(i as int));
        assert(views(analyses@).take(i + 1).drop_last() =~= views(analyses@).take(i as int));
        process_template(scan, &templates[i], &analyses[i], sc);
        i += 1;
    }
    assert(views(templates@).take(i as int) =~= views(templates@));
    assert(views(analyses@).take(i as int) =~= views(analyses@));
}

// ---------------------------------------------------------------------------------------------
// Laws
// ---------------------------------------------------------------------------------------------
proof fn lemma_with_templates(
    ptr: Seq<char>,
    action: Seq<char>,
    args: Seq<(Seq<char>, ValueView)>,
    i: int,
)
    requires
        0 <= i < args.len(),
    ensures
        args[i].1 matches ValueView::String(s) ==> with_templates(ptr, action, args).contains(
            TemplatedView {
                text: s,
                pointer: ptr + ".with."@ + args[i].0,
                is_expr: false,
                shell: action == "shell.exec"@ && args[i].0 == "command"@,
            },
        ),
    decreases args.len(),
{
    let before = with_templates(ptr, action, args.drop_last());
    let all = with_templates(ptr, action, args);
    if let ValueView::String(s) = args[i].1 {
        let t = tpl(
            s,
            ptr + ".with."@ + args[i].0,
            false,
            action == "shell.exec"@ && args[i].0 == "command"@,
        );
        if i < args.len() - 1 {
            lemma_with_templates(ptr, action, args.drop_last(), i);
            assert(args.drop_last()[i] == args[i]);
            assert(before.contains(t));
            let k = choose|k: int| 0 <= k < before.len() && before[k] == t;
            assert(all[k] == t);
        } else {
            assert(all[before.len() as int] == t);
        }
    }
}

proof fn lemma_case_templates(ptr: Seq<char>, branches: Seq<CaseBranch>, i: int)
    requires
        0 <= i < branches.len(),
    ensures
        branches[i].when matches Some(w) ==> case_templates(ptr, branches).contains(
            TemplatedView {
                text: w@,
                pointer: ptr + ".case.branches["@ + decimal(i as nat) + "].when"@,
                is_expr: true,
                shell: false,
            },
        ),
    decreases branches.len(),
{
    let before = case_templates(ptr, branches.drop_last());
    let all = case_templates(ptr, branches);
    if let Some(w) = branches[i].when {
        let t = tpl(
            w@,
            ptr + ".case.branches["@ + decimal(i as nat) + "].when"@,
            true,
            false,
        );
        if i < branches.len() - 1 {
            lemma_case_templates(ptr, branches.drop_last(), i);
            assert(branches.drop_last()[i] == branches[i]);
            assert(before.contains(t));
            let k = choose|k: int| 0 <= k < before.len() && before[k] == t;
            assert(all[k] == t);
        } else {
            assert(all[before.len() as int] == t);
        }
    }
}

proof fn lemma_gate_templates(ptr: Seq<char>, gates: Seq<(Seq<char>, Seq<char>)>, i: int)
    requires
        0 <= i < gates.len(),
    ensures
        gate_templates(ptr, gates).len() == gates.len(),
        gate_templates(ptr, gates)[i] == (TemplatedView {
            text: gates[i].1,
            pointer: ptr + ".gates."@ + gates[i].0,
            is_expr: false,
            shell: true,
        }),
    decreases gates.len(),
{
    if i < gates.len() - 1 {
        lemma_gate_templates(ptr, gates.drop_last(), i);
        assert(gates.drop_last()[i] == gates[i]);
    } else if gates.len() > 1 {
        lemma_gate_templates(ptr, gates.drop_last(), 0);
    } else {
        assert(gate_templates(ptr, gates.drop_last()).len() == 0);
    }
}

/// Every templated string of a step is checked, where it stands and as what it is: a command, a
/// gate and the command of a shell action are run by a shell, and a guard, a branch and nothing else
/// is an expression.
pub proof fn every_templated_string_is_collected(ptr: Seq<char>, s: Step, i: int)
    ensures
        s.kind matches StepKind::Run(r) ==> templates_of(ptr, s).contains(
            TemplatedView { text: r.run@, pointer: ptr + ".run"@, is_expr: false, shell: true },
        ),
        s.kind matches StepKind::Provider(p) ==> (p.prompt matches Some(t) ==> templates_of(
            ptr,
            s,
        ).contains(
            TemplatedView { text: t@, pointer: ptr + ".prompt"@, is_expr: false, shell: false },
        )),
        s.kind matches StepKind::Provider(p) ==> (p.prompt_file matches Some(t) ==> templates_of(
            ptr,
            s,
        ).contains(
            TemplatedView { text: t@, pointer: ptr + ".prompt_file"@, is_expr: false, shell: false },
        )),
        s.kind matches StepKind::Action(a) ==> (0 <= i < a.with@.len() ==> (
        a.with@[i].1 matches ValueView::String(t) ==> templates_of(ptr, s).contains(
            TemplatedView {
                text: t,
                pointer: ptr + ".with."@ + a.with@[i].0,
                is_expr: false,
                shell: a.action@ == "shell.exec"@ && a.with@[i].0 == "command"@,
            },
        ))),
        s.kind matches StepKind::Approval(a) ==> (a.message matches Some(t) ==> templates_of(
            ptr,
            s,
        ).contains(
            TemplatedView {
                text: t@,
                pointer: ptr + ".approval.message"@,
                is_expr: false,
                shell: false,
            },
        )),
        s.kind matches StepKind::Case(c) ==> (0 <= i < c.branches@.len() ==> (
        c.branches@[i].when matches Some(w) ==> templates_of(ptr, s).contains(
            TemplatedView {
                text: w@,
                pointer: ptr + ".case.branches["@ + decimal(i as nat) + "].when"@,
                is_expr: true,
                shell: false,
            },
        ))),
        0 <= i < s.gates@.len() ==> templates_of(ptr, s).contains(
            TemplatedView {
                text: s.gates@[i].1,
                pointer: ptr + ".gates."@ + s.gates@[i].0,
                is_expr: false,
                shell: true,
            },
        ),
        s.judge matches Some(j) ==> templates_of(ptr, s).contains(
            TemplatedView {
                text: j.criteria@,
                pointer: ptr + ".judge.criteria"@,
                is_expr: false,
                shell: false,
            },
        ),
        s.when matches Some(w) ==> templates_of(ptr, s).contains(
            TemplatedView { text: w@, pointer: ptr + ".when"@, is_expr: true, shell: false },
        ),
{
    let own = kind_templates(ptr, s.kind);
    let gates = gate_templates(ptr, s.gates@);
    let judge = match s.judge {
        Some(j) => seq![tpl(j.criteria@, ptr + ".judge.criteria"@, false, false)],
        None => Seq::empty(),
    };
    let all = templates_of(ptr, s);
    assert forall|t: TemplatedView| own.contains(t) implies all.contains(t) by {
        let k = choose|k: int| 0 <= k < own.len() && own[k] == t;
        assert(all[k] == t);
    }
    match s.kind {
        StepKind::Run(r) => {
            assert(own[0] == tpl(r.run@, ptr + ".run"@, false, true));
        },
        StepKind::Provider(p) => {
            if let Some(t) = p.prompt {
                assert(own[0] == tpl(t@, ptr + ".prompt"@, false, false));
            }
            if let Some(t) = p.prompt_file {
                let at = field_template(ptr, ".prompt"@, p.prompt, false).len() as int;
                assert(own[at] == tpl(t@, ptr + ".prompt_file"@, false, false));
            }
        },
        StepKind::Action(a) => {
            if 0 <= i < a.with@.len() {
                lemma_with_templates(ptr, a.action@, a.with@, i);
            }
        },
        StepKind::Approval(a) => {
            if let Some(t) = a.message {
                assert(own[0] == tpl(t@, ptr + ".approval.message"@, false, false));
            }
        },
        StepKind::Case(c) => {
            if 0 <= i < c.branches@.len() {
                lemma_case_templates(ptr, c.branches@, i);
            }
        },
        StepKind::Loop(_) => {},
    }
    if 0 <= i < s.gates@.len() {
        lemma_gate_templates(ptr, s.gates@, i);
        assert(all[own.len() + i] == gates[i]);
    }
    if let Some(j) = s.judge {
        assert(all[(own.len() + gates.len()) as int] == judge[0]);
    }
    if let Some(w) = s.when {
        assert(all[(own.len() + gates.len() + judge.len()) as int] == tpl(
            w@,
            ptr + ".when"@,
            true,
            false,
        ));
    }
}

/// A reference to a param that is declared is not reported, and one to a param that is not is
/// reported once, where it stands.
pub proof fn an_undeclared_param_is_reported(
    var: Seq<char>,
    sc: ScopeView,
    pointer: Seq<char>,
    shell: bool,
)
    requires
        split_on(var, '.').len() > 1,
        split_on(var, '.')[0] == "params"@,
    ensures
        ({
            let name = split_on(var, '.')[1];
            let found = var_findings(var, sc, pointer, shell);
            &&& found.len() == (if sc.params.contains(name) {
                0nat
            } else {
                1nat
            })
            &&& found.len() > 0 ==> found[0].code == DiagCode::UnknownTemplateRef
                && found[0].pointer == pointer && found[0].message
                == "template references unknown param "@ + debug_quoted(name)
        }),
{
    reveal_strlit("params");
    reveal_strlit("trigger");
    reveal_strlit("template references unknown ");
    reveal_strlit("param ");
    reveal_strlit("template references unknown param ");
    assert("params"@.len() == 6 && "trigger"@.len() == 7);
    assert("template references unknown "@ + "param "@ =~= "template references unknown param "@);
    let name = split_on(var, '.')[1];
    assert("template references unknown "@ + ("param "@ + debug_quoted(name)) =~= (
    "template references unknown "@ + "param "@) + debug_quoted(name));
}

/// A reference to a step is not reported exactly when the step exists, stands upstream, and has the
/// field that is named; otherwise it is reported once, where it stands.
pub proof fn a_step_reference_is_judged(
    var: Seq<char>,
    sc: ScopeView,
    pointer: Seq<char>,
    shell: bool,
)
    requires
        split_on(var, '.').len() > 1,
        split_on(var, '.')[0] == "steps"@,
    ensures
        ({
            let segs = split_on(var, '.');
            let found = var_findings(var, sc, pointer, shell);
            &&& (found.len() == 0) == (sc.steps.contains(segs[1]) && sc.visible.contains(segs[1])
                && (segs.len() == 2 || segs[2] == "outputs"@ || segs[2] == "exit_code"@ || segs[2]
                == "status"@))
            &&& found.len() <= 1
            &&& found.len() > 0 ==> found[0].code == DiagCode::UnknownTemplateRef
                && found[0].pointer == pointer
        }),
{
    reveal_strlit("steps");
    reveal_strlit("params");
    reveal_strlit("trigger");
    assert("params"@.len() == 6 && "trigger"@.len() == 7 && "steps"@.len() == 5);
    let segs = split_on(var, '.');
    let fields = step_fields();
    assert(fields[0] == "outputs"@ && fields[1] == "exit_code"@ && fields[2] == "status"@);
    if segs.len() > 2 && fields.contains(segs[2]) {
        let k = choose|k: int| 0 <= k < fields.len() && fields[k] == segs[2];
        assert(k == 0 || k == 1 || k == 2);
    }
}

/// A reference to an artifact is reported exactly when the step does not require it and it is not
/// the diff.
pub proof fn an_artifact_must_be_required(
    var: Seq<char>,
    sc: ScopeView,
    pointer: Seq<char>,
    shell: bool,
)
    requires
        split_on(var, '.').len() > 1,
        split_on(var, '.')[0] == "artifacts"@,
    ensures
        ({
            let name = split_on(var, '.')[1];
            let found = var_findings(var, sc, pointer, shell);
            &&& (found.len() == 0) == (name == "DIFF"@ || sc.artifacts.contains(name))
            &&& found.len() <= 1
            &&& found.len() > 0 ==> found[0].code == DiagCode::UnknownTemplateRef
                && found[0].pointer == pointer
        }),
{
    reveal_strlit("artifacts");
    reveal_strlit("steps");
    reveal_strlit("params");
    reveal_strlit("trigger");
    assert("params"@.len() == 6 && "trigger"@.len() == 7 && "steps"@.len() == 5 && "artifacts"@.len()
        == 9);
}

/// A reference to a root that a template does not have is reported once, and one to `run`, `retry`
/// or `loop`, or to a function that every template has, never.
pub proof fn an_unknown_root_is_reported(
    var: Seq<char>,
    sc: ScopeView,
    pointer: Seq<char>,
    shell: bool,
)
    ensures
        ({
            let root = split_on(var, '.')[0];
            let found = var_findings(var, sc, pointer, shell);
            &&& root == "run"@ || root == "retry"@ || root == "loop"@ || root == "range"@ || root
                == "dict"@ || root == "namespace"@ || root == "debug"@ ==> found.len() == 0
            &&& root != "params"@ && root != "steps"@ && root != "artifacts"@ && root != "trigger"@
                && root != "run"@ && root != "retry"@ && root != "loop"@ && root != "range"@ && root
                != "dict"@ && root != "namespace"@ && root != "debug"@ ==> found.len() == 1
                && found[0].code == DiagCode::UnknownTemplateRef && found[0].pointer == pointer
                && found[0].message == "template references unknown "@ + debug_quoted(root)
        }),
{
    reveal_strlit("artifacts");
    reveal_strlit("steps");
    reveal_strlit("params");
    reveal_strlit("trigger");
    reveal_strlit("run");
    reveal_strlit("retry");
    reveal_strlit("loop");
    reveal_strlit("range");
    reveal_strlit("dict");
    reveal_strlit("namespace");
    reveal_strlit("debug");
    assert("params"@.len() == 6 && "trigger"@.len() == 7 && "steps"@.len() == 5 && "artifacts"@.len()
        == 9 && "run"@.len() == 3 && "retry"@.len() == 5 && "loop"@.len() == 4 && "range"@.len()
        == 5 && "dict"@.len() == 4 && "namespace"@.len() == 9 && "debug"@.len() == 5);
    assert("artifacts"@[0] == 'a' && "steps"@[0] == 's' && "retry"@[0] == 'r' && "range"@[0] == 'r'
        && "namespace"@[0] == 'n' && "debug"@[0] == 'd');
}

/// A param counts as used once a variable names it, and no other variable makes it count.
pub proof fn a_named_param_counts_as_used(used: Seq<Seq<char>>, var: Seq<char>, name: Seq<char>)
    ensures
        used_after(used, var).contains(name) == (used.contains(name) || (split_on(var, '.').len()
            > 1 && split_on(var, '.')[0] == "params"@ && split_on(var, '.')[1] == name)),
{
    if let Some(p) = param_named(var) {
        crate::validate::graph::lemma_with_name(used, p, name);
    }
}

proof fn lemma_scan_vars(
    st: ScanView,
    vars: Seq<Seq<char>>,
    sc: ScopeView,
    pointer: Seq<char>,
    shell: bool,
    i: int,
    d: DiagView,
)
    requires
        0 <= i < vars.len(),
    ensures
        st.found.contains(d) || var_findings(vars[i], sc, pointer, shell).contains(d) ==> scan_vars(
            st,
            vars,
            sc,
            pointer,
            shell,
        ).found.contains(d),
    decreases vars.len(),
{
    let before = scan_vars(st, vars.drop_last(), sc, pointer, shell).found;
    let more = var_findings(vars.last(), sc, pointer, shell);
    let all = scan_vars(st, vars, sc, pointer, shell).found;
    if i < vars.len() - 1 {
        lemma_scan_vars(st, vars.drop_last(), sc, pointer, shell, i, d);
        assert(vars.drop_last()[i] == vars[i]);
    } else if vars.len() > 1 {
        lemma_scan_vars(st, vars.drop_last(), sc, pointer, shell, 0, d);
    } else {
        assert(vars.drop_last() =~= Seq::empty());
        assert(before == st.found);
    }
    if before.contains(d) {
        let k = choose|k: int| 0 <= k < before.len() && before[k] == d;
        assert(all[k] == d);
    }
    if more.contains(d) {
        let k = choose|k: int| 0 <= k < more.len() && more[k] == d;
        assert(all[before.len() + k] == d);
    }
}

proof fn lemma_scan_roots(st: ScanView, roots: Seq<Seq<char>>, pointer: Seq<char>, d: DiagView)
    ensures
        st.found.contains(d) ==> scan_roots(st, roots, pointer).found.contains(d),
        forall|i: int|
            0 <= i < roots.len() ==> scan_roots(st, roots, pointer).found.contains(
                subscript_finding(pointer, #[trigger] roots[i]),
            ),
    decreases roots.len(),
{
    if roots.len() > 0 {
        let rest = roots.drop_last();
        lemma_scan_roots(st, rest, pointer, d);
        let before = scan_roots(st, rest, pointer).found;
        let all = scan_roots(st, roots, pointer).found;
        if before.contains(d) {
            let k = choose|k: int| 0 <= k < before.len() && before[k] == d;
            assert(all[k] == d);
        }
        assert forall|i: int| 0 <= i < roots.len() implies all.contains(
            subscript_finding(pointer, #[trigger] roots[i]),
        ) by {
            let x = subscript_finding(pointer, roots[i]);
            if i < rest.len() {
                assert(rest[i] == roots[i]);
                assert(before.contains(x));
                let k = choose|k: int| 0 <= k < before.len() && before[k] == x;
                assert(all[k] == x);
            } else {
                assert(all[before.len() as int] == x);
            }
        }
    }
}

/// Whatever is found in a template is reported, and nothing that was found before is lost: a
/// syntax error, what is wrong with any of its variables, and every subscript.
pub proof fn every_finding_is_reported(
    st: ScanView,
    t: TemplatedView,
    a: AnalysisView,
    sc: ScopeView,
    i: int,
    d: DiagView,
)
    ensures
        ({
            let found = scan_template(st, t, a, sc).found;
            &&& st.found.contains(d) ==> found.contains(d)
            &&& a matches AnalysisView::Syntax(e) ==> found.contains(
                DiagView {
                    code: DiagCode::TemplateSyntax,
                    pointer: t.pointer,
                    message: "template syntax error: "@ + e,
                    help: None,
                },
            )
            &&& a matches AnalysisView::Vars(vars) ==> (0 <= i < vars.len() ==> (var_findings(
                vars[i],
                sc,
                t.pointer,
                t.shell,
            ).contains(d) ==> found.contains(d)))
            &&& 0 <= i < subscripted(source_of(t)).len() ==> exists|k: int|
                0 <= k < found.len() && (#[trigger] found[k]).code == DiagCode::DynamicTemplateRef
                    && found[k].pointer == t.pointer
        }),
{
    let analyzed = match a {
        AnalysisView::Syntax(e) => ScanView {
            found: st.found.push(
                plain(DiagCode::TemplateSyntax, t.pointer, "template syntax error: "@ + e),
            ),
            ..st
        },
        AnalysisView::Vars(vars) => scan_vars(st, vars, sc, t.pointer, t.shell),
    };
    let roots = subscripted(source_of(t));
    let rooted = scan_roots(analyzed, roots, t.pointer);
    let found = scan_template(st, t, a, sc).found;
    assert forall|x: DiagView| rooted.found.contains(x) implies found.contains(x) by {
        let k = choose|k: int| 0 <= k < rooted.found.len() && rooted.found[k] == x;
        assert(found[k] == x);
    }
    lemma_scan_roots(analyzed, roots, t.pointer, d);
    match a {
        AnalysisView::Syntax(e) => {
            let x = plain(DiagCode::TemplateSyntax, t.pointer, "template syntax error: "@ + e);
            assert(analyzed.found[st.found.len() as int] == x);
            lemma_scan_roots(analyzed, roots, t.pointer, x);
            if st.found.contains(d) {
                let k = choose|k: int| 0 <= k < st.found.len() && st.found[k] == d;
                assert(analyzed.found[k] == d);
            }
        },
        AnalysisView::Vars(vars) => {
            if vars.len() > 0 {
                lemma_scan_vars(st, vars, sc, t.pointer, t.shell, 0, d);
            }
            if 0 <= i < vars.len() {
                lemma_scan_vars(st, vars, sc, t.pointer, t.shell, i, d);
            }
        },
    }
    if 0 <= i < roots.len() {
        let x = subscript_finding(t.pointer, roots[i]);
        assert(found.contains(x));
        let k = choose|k: int| 0 <= k < found.len() && found[k] == x;
        assert(found[k].code == DiagCode::DynamicTemplateRef);
    }
}

/// A bare expression is read as one between braces, and any other text as it is.
pub proof fn an_expression_is_put_between_braces(t: TemplatedView)
    ensures
        t.is_expr ==> source_of(t) == "{{ "@ + t.text + " }}"@,
        !t.is_expr ==> source_of(t) == t.text,
{
}

} // verus!
