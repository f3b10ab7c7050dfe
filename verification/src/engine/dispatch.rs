//! One execution of a step: what to do outside, and what came of it.
//!
//! A step's body is either settled here (a branch selection, a template that does not render) or
//! is one piece of outside work: a provider invocation, a shell command or an action. What that
//! work gave is turned into an outcome, which then has to stand the exit-code check, the gates
//! and the judge.

use super::feedback::{
    clip_middle, clipped_middle, detail_text, failure_detail, join_streams, joined_streams,
    kill_reason, killed_reason, message_with_stderr, with_stderr_tail, Ending, STDOUT_MAX,
};
use super::schedule::{deps_passed, one_unmet_dependency_is_enough};
use super::state::{
    blank_outcome, blocked_outcome, failed_outcome, passing_outcome, skipped_outcome, OutcomeView,
    StepOutcome, StepStateView,
};
use crate::api::{SideEffect, SideEffectView, StepStatus, Usage};
use crate::context::render::{
    guard, guard_error_text, guard_holds, render, render_error_text, rendered, Context,
};
use crate::error::{action_error_text, provider_error_text, ActionError, ProviderError};
use crate::ids::ArtifactName;
use crate::ir::step::{CaseBranch, CaseStep, ProviderStep, Step, StepKind};
use crate::json::{object_text, Value, ValueView};
use crate::names::{has_key, lookup, put, views, OrderedMap, Replicate};
use crate::text::{
    concat2, concat3, concat4, debug_quoted, opt_text, quote_debug, signed_decimal,
    signed_decimal_of, text_eq, texts, trim, trimmed,
};
use crate::time::Duration;
use vstd::prelude::*;

verus! {

// ---------------------------------------------------------------------------------------------
// What outside work gives
// ---------------------------------------------------------------------------------------------
/// A finished process.
#[derive(Debug)]
pub struct ProcessOutput {
    pub exit_code: i32,
    pub stdout: String,
    pub stderr: String,
    pub ending: Ending,
}

/// What a provider invocation gave.
#[derive(Debug)]
pub struct InvocationOutcome {
    pub exit_code: i32,
    pub stdout: String,
    pub stderr: String,
    pub outputs: OrderedMap<Value>,
    pub usage: Option<Usage>,
}

/// What an action gave.
#[derive(Debug)]
pub struct ActionOutcome {
    pub exit_code: i32,
    pub outputs: OrderedMap<Value>,
    pub stderr: String,
    pub side_effects: Vec<SideEffect>,
}

/// The mathematical form of an [`ActionOutcome`].
#[verifier::ext_equal]
pub struct ActionOutcomeView {
    pub exit_code: i32,
    pub outputs: Seq<(Seq<char>, ValueView)>,
    pub stderr: Seq<char>,
    pub side_effects: Seq<SideEffectView>,
}

impl View for ActionOutcome {
    type V = ActionOutcomeView;

    open spec fn view(&self) -> ActionOutcomeView {
        ActionOutcomeView {
            exit_code: self.exit_code,
            outputs: self.outputs@,
            stderr: self.stderr@,
            side_effects: views(self.side_effects@),
        }
    }
}

// ---------------------------------------------------------------------------------------------
// The body
// ---------------------------------------------------------------------------------------------
/// What a step's body asks for.
#[derive(Debug)]
pub enum Body {
    /// Nothing: the outcome is known.
    Settled(StepOutcome),
    /// Invoke the provider with a prompt, handing it the named artifacts.
    Invoke { prompt: String, inputs: Vec<String> },
    /// Run a shell command.
    Shell(String),
    /// Run the action with arguments.
    Act(OrderedMap<Value>),
}

/// The mathematical form of a [`Body`].
#[verifier::ext_equal]
pub enum BodyView {
    Settled(OutcomeView),
    Invoke { prompt: Seq<char>, inputs: Seq<Seq<char>> },
    Shell(Seq<char>),
    Act(Seq<(Seq<char>, ValueView)>),
}

impl View for Body {
    type V = BodyView;

    open spec fn view(&self) -> BodyView {
        match self {
            Body::Settled(o) => BodyView::Settled(o@),
            Body::Invoke { prompt, inputs } => BodyView::Invoke {
                prompt: prompt@,
                inputs: texts(inputs@),
            },
            Body::Shell(c) => BodyView::Shell(c@),
            Body::Act(a) => BodyView::Act(a@),
        }
    }
}

/// The message of a text or of a failure.
pub open spec fn text_view(r: Result<String, String>) -> Result<Seq<char>, Seq<char>> {
    match r {
        Ok(s) => Ok(s@),
        Err(e) => Err(e@),
    }
}

/// The template of a provider step's prompt: inline, else from its file (what reading that file
/// gave is `file`), else none.
pub open spec fn prompt_template(p: ProviderStep, file: Result<String, String>) -> Result<
    Seq<char>,
    Seq<char>,
> {
    if p.prompt is Some {
        Ok(p.prompt->0@)
    } else if p.prompt_file is Some {
        text_view(file)
    } else {
        Err("provider step has no prompt"@)
    }
}

/// The prompt of a provider step, rendered.
pub open spec fn prompt_text(
    p: ProviderStep,
    file: Result<String, String>,
    ctx: Seq<char>,
) -> Result<Seq<char>, Seq<char>> {
    match prompt_template(p, file) {
        Ok(t) => match rendered(t, ctx) {
            Ok(s) => Ok(s),
            Err(source) => Err(render_error_text("prompt"@, source)),
        },
        Err(e) => Err(e),
    }
}

/// Renders the prompt of a provider step. `file` is what reading its prompt file gave.
pub fn render_prompt(p: &ProviderStep, file: Result<String, String>, ctx: &Context) -> (r: Result<
    String,
    String,
>)
    ensures
        text_view(r) == prompt_text(*p, file, object_text(ctx@)),
{
    match &p.prompt {
        Some(t) => render(t, ctx, "prompt"),
        None => match &p.prompt_file {
            Some(_) => match file {
                Ok(t) => render(&t, ctx, "prompt"),
                Err(e) => Err(e),
            },
            None => Err("provider step has no prompt".to_owned()),
        },
    }
}

/// Why a prompt file could not be read.
pub fn prompt_file_error(file: &str, error: &str) -> (r: String)
    ensures
        r@ == "reading prompt_file "@ + debug_quoted(file@) + ": "@ + error@,
{
    let f = quote_debug(file);
    concat4("reading prompt_file ", &f, ": ", error)
}

/// Why a prompt file outside the repository is refused.
pub fn prompt_escape_error(file: &str) -> (r: String)
    ensures
        r@ == "prompt_file "@ + debug_quoted(file@) + " escapes the repository root"@,
{
    let f = quote_debug(file);
    concat3("prompt_file ", &f, " escapes the repository root")
}

/// The artifacts a step is handed as files: those it requires, but for the captured diff.
pub open spec fn input_names(requires_: Seq<ArtifactName>) -> Seq<Seq<char>>
    decreases requires_.len(),
{
    if requires_.len() == 0 {
        Seq::empty()
    } else {
        let before = input_names(requires_.drop_last());
        if requires_.last()@ == "DIFF"@ {
            before
        } else {
            before.push(requires_.last()@)
        }
    }
}

fn inputs_of(requires_: &Vec<ArtifactName>) -> (r: Vec<String>)
    ensures
        texts(r@) == input_names(requires_@),
{
    let mut out: Vec<String> = Vec::new();
    let mut i: usize = 0;
    assert(texts(out@) =~= input_names(requires_@.take(0)));
    while i < requires_.len()
        invariant
            i <= requires_.len(),
            texts(out@) == input_names(requires_@.take(i as int)),
        decreases requires_.len() - i,
    {
        assert(requires_@.take(i + 1).drop_last() =~= requires_@.take(i as int));
        if !text_eq(requires_[i].as_str(), "DIFF") {
            let ghost was = out@;
            let s = requires_[i].to_string();
            out.push(s);
            assert(texts(out@) =~= texts(was).push(s@));
        }
        i += 1;
    }
    assert(requires_@.take(i as int) =~= requires_@);
    out
}

/// An action's arguments with their text templates rendered, or the first failure.
pub open spec fn rendered_args(with: Seq<(Seq<char>, ValueView)>, ctx: Seq<char>) -> Result<
    Seq<(Seq<char>, ValueView)>,
    Seq<char>,
>
    decreases with.len(),
{
    if with.len() == 0 {
        Ok(Seq::empty())
    } else {
        match rendered_args(with.drop_last(), ctx) {
            Err(e) => Err(e),
            Ok(before) => match with.last().1 {
                ValueView::String(t) => match rendered(t, ctx) {
                    Ok(s) => Ok(put(before, with.last().0, ValueView::String(s))),
                    Err(source) => Err(render_error_text("with"@, source)),
                },
                v => Ok(put(before, with.last().0, v)),
            },
        }
    }
}

proof fn lemma_args_fail_early(with: Seq<(Seq<char>, ValueView)>, ctx: Seq<char>, k: int)
    requires
        0 <= k <= with.len(),
        rendered_args(with.take(k), ctx) is Err,
    ensures
        rendered_args(with, ctx) == rendered_args(with.take(k), ctx),
    decreases with.len() - k,
{
    if k < with.len() {
        assert(with.take(k + 1).drop_last() =~= with.take(k));
        lemma_args_fail_early(with, ctx, k + 1);
    } else {
        assert(with.take(k) =~= with);
    }
}

fn render_args(with: &OrderedMap<Value>, ctx: &Context) -> (r: Result<OrderedMap<Value>, String>)
    ensures
        match r {
            Ok(m) => rendered_args(with@, object_text(ctx@)) == Ok::<
                Seq<(Seq<char>, ValueView)>,
                Seq<char>,
            >(m@),
            Err(e) => rendered_args(with@, object_text(ctx@)) == Err::<
                Seq<(Seq<char>, ValueView)>,
                Seq<char>,
            >(e@),
        },
{
    let n = with.len();
    let ghost c = object_text(ctx@);
    let mut out: OrderedMap<Value> = OrderedMap::new();
    let mut i: usize = 0;
    assert(with@.take(0) =~= Seq::<(Seq<char>, ValueView)>::empty());
    while i < n
        invariant
            i <= n,
            n == with@.len(),
            c == object_text(ctx@),
            rendered_args(with@.take(i as int), c) == Ok::<
                Seq<(Seq<char>, ValueView)>,
                Seq<char>,
            >(out@),
        decreases n - i,
    {
        assert(with@.take(i + 1).drop_last() =~= with@.take(i as int));
        let v = with.value_at(i);
        let value = match v.as_str() {
            Some(t) => match render(t, ctx, "with") {
                Ok(s) => Value::String(s),
                Err(e) => {
                    proof {
                        lemma_args_fail_early(with@, c, i + 1);
                    }
                    return Err(e);
                },
            },
            None => v.replicate(),
        };
        out.insert(with.key_at(i).clone(), value);
        i += 1;
    }
    assert(with@.take(n as int) =~= with@);
    Ok(out)
}

/// Whether a branch matches: it has no guard, or its guard holds. A guard that cannot be evaluated
/// does not hold.
pub open spec fn branch_holds(b: CaseBranch, ctx: Seq<char>) -> bool {
    match b.when {
        Some(expr) => guard_holds(expr@, ctx) == Ok::<bool, Seq<char>>(true),
        None => true,
    }
}

/// The label of the first branch at or after `from` that matches.
pub open spec fn selected_branch(branches: Seq<CaseBranch>, ctx: Seq<char>, from: int) -> Option<
    Seq<char>,
>
    decreases branches.len() - from,
{
    if from < 0 || from >= branches.len() {
        None
    } else {
        if branch_holds(branches[from], ctx) {
            Some(branches[from].label@)
        } else {
            selected_branch(branches, ctx, from + 1)
        }
    }
}

/// What a branch selection selects: the label of the first branch that matches, else the fallback
/// label, else nothing.
pub open spec fn selection(c: CaseStep, ctx: Seq<char>) -> Seq<char> {
    match selected_branch(c.branches@, ctx, 0) {
        Some(l) => l,
        None => match c.else_ {
            Some(l) => l@,
            None => Seq::empty(),
        },
    }
}

/// The outcome of a branch selection, which is a decision and so always passes: what it selects,
/// as the output `selected`.
pub open spec fn case_outcome(c: CaseStep, ctx: Seq<char>) -> OutcomeView {
    passing_outcome(
        0,
        put(Seq::empty(), "selected"@, ValueView::String(selection(c, ctx))),
        None,
    )
}

fn find_branch(branches: &Vec<CaseBranch>, ctx: &Context) -> (r: Option<String>)
    ensures
        opt_text(r) == selected_branch(branches@, object_text(ctx@), 0),
{
    let ghost c = object_text(ctx@);
    let mut i: usize = 0;
    while i < branches.len()
        invariant
            i <= branches.len(),
            c == object_text(ctx@),
            selected_branch(branches@, c, 0) == selected_branch(branches@, c, i as int),
        decreases branches.len() - i,
    {
        let b = &branches[i];
        let holds = match &b.when {
            Some(expr) => match guard(expr, ctx) {
                Ok(h) => h,
                Err(_) => false,
            },
            None => true,
        };
        if holds {
            return Some(b.label.clone());
        }
        i += 1;
    }
    None
}

/// Selects a branch.
pub fn select_branch(c: &CaseStep, ctx: &Context) -> (r: StepOutcome)
    ensures
        r@ == case_outcome(*c, object_text(ctx@)),
{
    let selected = match find_branch(&c.branches, ctx) {
        Some(l) => l,
        None => match &c.else_ {
            Some(l) => l.clone(),
            None => String::new(),
        },
    };
    let mut outputs: OrderedMap<Value> = OrderedMap::new();
    outputs.insert("selected".to_owned(), Value::String(selected));
    StepOutcome::passing(0, outputs, None)
}

/// What a step's body asks for. `file` is what reading its prompt file gave, and `registered`
/// whether its provider or action is registered.
pub open spec fn body_of(
    step: Step,
    ctx: Seq<char>,
    file: Result<String, String>,
    registered: bool,
) -> BodyView {
    match step.kind {
        StepKind::Provider(p) => match prompt_text(p, file, ctx) {
            Err(e) => BodyView::Settled(failed_outcome(e)),
            Ok(prompt) => if registered {
                BodyView::Invoke { prompt, inputs: input_names(step.artifacts.requires_@) }
            } else {
                BodyView::Settled(
                    failed_outcome(
                        "provider "@ + debug_quoted(p.provider@) + " is not registered"@,
                    ),
                )
            },
        },
        StepKind::Run(c) => match rendered(c.run@, ctx) {
            Err(source) => BodyView::Settled(failed_outcome(render_error_text("run"@, source))),
            Ok(cmd) => BodyView::Shell(cmd),
        },
        StepKind::Action(a) => if !registered {
            BodyView::Settled(
                failed_outcome("action "@ + debug_quoted(a.action@) + " is not registered"@),
            )
        } else {
            match rendered_args(a.with@, ctx) {
                Err(e) => BodyView::Settled(failed_outcome(e)),
                Ok(args) => BodyView::Act(args),
            }
        },
        StepKind::Case(c) => BodyView::Settled(case_outcome(c, ctx)),
        StepKind::Approval(_) => BodyView::Settled(
            failed_outcome("internal: an approval gate was dispatched"@),
        ),
        StepKind::Loop(_) => BodyView::Settled(
            failed_outcome("internal: a loop step was dispatched"@),
        ),
    }
}

/// Decides what a step's body asks for. `file` is what reading its prompt file gave (looked at
/// only when the step names one), and `registered` whether its provider or action is registered.
pub fn dispatch(
    step: &Step,
    ctx: &Context,
    file: Result<String, String>,
    registered: bool,
) -> (r: Body)
    ensures
        r@ == body_of(*step, object_text(ctx@), file, registered),
{
    match &step.kind {
        StepKind::Provider(p) => match render_prompt(p, file, ctx) {
            Err(e) => Body::Settled(StepOutcome::failed(e)),
            Ok(prompt) => {
                if !registered {
                    let name = quote_debug(p.provider.as_str());
                    return Body::Settled(
                        StepOutcome::failed(concat3("provider ", &name, " is not registered")),
                    );
                }
                Body::Invoke { prompt, inputs: inputs_of(&step.artifacts.requires_) }
            },
        },
        StepKind::Run(c) => match render(&c.run, ctx, "run") {
            Err(e) => Body::Settled(StepOutcome::failed(e)),
            Ok(cmd) => Body::Shell(cmd),
        },
        StepKind::Action(a) => {
            if !registered {
                let name = quote_debug(&a.action);
                return Body::Settled(
                    StepOutcome::failed(concat3("action ", &name, " is not registered")),
                );
            }
            match render_args(&a.with, ctx) {
                Err(e) => Body::Settled(StepOutcome::failed(e)),
                Ok(args) => Body::Act(args),
            }
        },
        StepKind::Case(c) => Body::Settled(select_branch(c, ctx)),
        StepKind::Approval(_) => Body::Settled(
            StepOutcome::failed("internal: an approval gate was dispatched".to_owned()),
        ),
        StepKind::Loop(_) => Body::Settled(
            StepOutcome::failed("internal: a loop step was dispatched".to_owned()),
        ),
    }
}

// ---------------------------------------------------------------------------------------------
// What came of the body
// ---------------------------------------------------------------------------------------------
/// The outcome of a provider invocation.
pub open spec fn invoked(result: Result<InvocationOutcome, ProviderError>) -> OutcomeView {
    match result {
        Ok(o) => OutcomeView {
            stderr: o.stderr@,
            ..passing_outcome(
                o.exit_code,
                if has_key(o.outputs@, "stdout"@) {
                    o.outputs@
                } else {
                    put(
                        o.outputs@,
                        "stdout"@,
                        ValueView::String(clipped_middle(o.stdout@, STDOUT_MAX as nat)),
                    )
                },
                o.usage,
            )
        },
        Err(e) => failed_outcome("provider error: "@ + provider_error_text(e)),
    }
}

/// The outcome of a provider invocation. The captured output is clipped, and an output the
/// provider names `stdout` itself is kept.
pub fn provider_outcome(result: Result<InvocationOutcome, ProviderError>) -> (r: StepOutcome)
    ensures
        r@ == invoked(result),
{
    match result {
        Ok(o) => {
            let mut outputs = o.outputs;
            if !outputs.contains_key("stdout") {
                let s = clip_middle(&o.stdout, STDOUT_MAX);
                outputs.insert("stdout".to_owned(), Value::String(s));
            }
            let mut r = StepOutcome::passing(o.exit_code, outputs, o.usage);
            r.stderr = o.stderr;
            r
        },
        Err(e) => {
            let t = e.to_string();
            StepOutcome::failed(concat2("provider error: ", &t))
        },
    }
}

/// The outcome of a shell command.
pub open spec fn ran(result: Result<ProcessOutput, String>, timeout: Option<Duration>) -> OutcomeView {
    match result {
        Ok(p) => {
            let base = OutcomeView {
                stderr: p.stderr@,
                ..passing_outcome(
                    p.exit_code,
                    put(
                        Seq::empty(),
                        "stdout"@,
                        ValueView::String(clipped_middle(p.stdout@, STDOUT_MAX as nat)),
                    ),
                    None,
                )
            };
            match kill_reason(p.ending, timeout) {
                Some(reason) => OutcomeView {
                    status: StepStatus::Failed,
                    failure_detail: Some(detail_text(reason, p.stderr@)),
                    error: Some(message_with_stderr(reason, p.stderr@)),
                    ..base
                },
                None => base,
            }
        },
        Err(e) => failed_outcome("run error: "@ + e@),
    }
}

/// The outcome of a shell command. A killed command says why.
pub fn run_outcome(result: Result<ProcessOutput, String>, timeout: Option<Duration>) -> (r:
    StepOutcome)
    ensures
        r@ == ran(result, timeout),
{
    match result {
        Ok(p) => {
            let reason = killed_reason(p.ending, timeout);
            let mut outputs: OrderedMap<Value> = OrderedMap::new();
            let s = clip_middle(&p.stdout, STDOUT_MAX);
            outputs.insert("stdout".to_owned(), Value::String(s));
            let mut r = StepOutcome::passing(p.exit_code, outputs, None);
            if let Some(reason) = reason {
                r.status = StepStatus::Failed;
                r.failure_detail = Some(failure_detail(&reason, &p.stderr));
                r.error = Some(with_stderr_tail(&reason, &p.stderr));
            }
            r.stderr = p.stderr;
            r
        },
        Err(e) => StepOutcome::failed(concat2("run error: ", &e)),
    }
}

/// The outcome of an action.
pub open spec fn acted(result: Result<ActionOutcome, ActionError>) -> OutcomeView {
    match result {
        Ok(o) => OutcomeView {
            side_effects: o@.side_effects,
            stderr: o@.stderr,
            ..passing_outcome(o@.exit_code, o@.outputs, None)
        },
        Err(e) => failed_outcome("action error: "@ + action_error_text(e)),
    }
}

/// The outcome of an action.
pub fn action_outcome(result: Result<ActionOutcome, ActionError>) -> (r: StepOutcome)
    ensures
        r@ == acted(result),
{
    match result {
        Ok(o) => {
            let mut r = StepOutcome::passing(o.exit_code, o.outputs, None);
            r.side_effects = o.side_effects;
            r.stderr = o.stderr;
            r
        },
        Err(e) => {
            let t = e.to_string();
            StepOutcome::failed(concat2("action error: ", &t))
        },
    }
}

// ---------------------------------------------------------------------------------------------
// Checks
// ---------------------------------------------------------------------------------------------
/// Why a step whose body exited with a code failed.
pub open spec fn exit_headline(code: i32) -> Seq<char> {
    "exited with code "@ + signed_decimal(code as int)
}

/// An outcome after the check of its exit code: anything but zero fails it.
pub open spec fn exit_checked(o: OutcomeView) -> OutcomeView {
    match o.exit_code {
        Some(code) => if o.status != StepStatus::Failed && code != 0 {
            OutcomeView {
                status: StepStatus::Failed,
                failure_detail: Some(detail_text(exit_headline(code), o.stderr)),
                error: Some(message_with_stderr(exit_headline(code), o.stderr)),
                ..o
            }
        } else {
            o
        },
        None => o,
    }
}

/// Checks the exit code of a step's body.
pub fn check_exit(outcome: StepOutcome) -> (r: StepOutcome)
    ensures
        r@ == exit_checked(outcome@),
{
    if outcome.status == StepStatus::Failed {
        return outcome;
    }
    match outcome.exit_code {
        Some(code) => if code != 0 {
            let n = signed_decimal_of(code as i64);
            let headline = concat2("exited with code ", &n);
            let detail = failure_detail(&headline, &outcome.stderr);
            let error = with_stderr_tail(&headline, &outcome.stderr);
            let mut r = outcome;
            r.failure_detail = Some(detail);
            r.status = StepStatus::Failed;
            r.error = Some(error);
            r
        } else {
            outcome
        },
        None => outcome,
    }
}

/// The command of a gate, or the outcome of a step whose gate does not render.
pub fn gate_command(command: &str, ctx: &Context, outcome: StepOutcome) -> (r: Result<
    (String, StepOutcome),
    StepOutcome,
>)
    ensures
        match rendered(command@, object_text(ctx@)) {
            Ok(c) => r matches Ok(p) && p.0@ == c && p.1@ == outcome@,
            Err(source) => r matches Err(o) && o@ == (OutcomeView {
                status: StepStatus::Failed,
                error: Some(render_error_text("gate"@, source)),
                ..outcome@
            }),
        },
{
    match render(command, ctx, "gate") {
        Ok(c) => Ok((c, outcome)),
        Err(e) => {
            let mut r = outcome;
            r.status = StepStatus::Failed;
            r.error = Some(e);
            Err(r)
        },
    }
}

/// Whether a gate's command passed.
pub open spec fn gate_passed(result: Result<ProcessOutput, String>) -> bool {
    result matches Ok(p) && p.exit_code == 0
}

/// What a gate's command printed, or why it could not be run.
pub open spec fn gate_output(result: Result<ProcessOutput, String>) -> Seq<char> {
    match result {
        Ok(p) => joined_streams(p.stdout@, p.stderr@),
        Err(e) => e@,
    }
}

/// Why a gate failed.
pub open spec fn gate_headline(
    name: Seq<char>,
    result: Result<ProcessOutput, String>,
    timeout: Option<Duration>,
) -> Seq<char> {
    let killed = match result {
        Ok(p) => kill_reason(p.ending, timeout),
        Err(_) => None,
    };
    match killed {
        Some(reason) => "gate "@ + debug_quoted(name) + " "@ + reason,
        None => "gate "@ + debug_quoted(name) + " failed"@,
    }
}

/// An outcome with a gate's result taken in: a gate that did not pass fails the step.
pub open spec fn gated(
    o: OutcomeView,
    name: Seq<char>,
    result: Result<ProcessOutput, String>,
    timeout: Option<Duration>,
) -> OutcomeView {
    let gates = put(o.gates, name, gate_passed(result));
    if gate_passed(result) {
        OutcomeView { gates, ..o }
    } else {
        let headline = gate_headline(name, result, timeout);
        OutcomeView {
            gates,
            status: StepStatus::Failed,
            failure_detail: Some(detail_text(headline, gate_output(result))),
            error: Some(message_with_stderr(headline, gate_output(result))),
            ..o
        }
    }
}

/// Takes in a gate's result.
pub fn record_gate(
    outcome: StepOutcome,
    name: &str,
    result: Result<ProcessOutput, String>,
    timeout: Option<Duration>,
) -> (r: StepOutcome)
    ensures
        r@ == gated(outcome@, name@, result, timeout),
{
    let (passed, output, killed) = match &result {
        Ok(p) => (p.exit_code == 0, join_streams(&p.stdout, &p.stderr), killed_reason(p.ending, timeout)),
        Err(e) => (false, e.clone(), None),
    };
    let mut r = outcome;
    r.gates.insert(name.to_owned(), passed);
    if !passed {
        let quoted = quote_debug(name);
        let headline = match killed {
            Some(reason) => concat4("gate ", &quoted, " ", &reason),
            None => concat3("gate ", &quoted, " failed"),
        };
        r.failure_detail = Some(failure_detail(&headline, &output));
        r.status = StepStatus::Failed;
        r.error = Some(with_stderr_tail(&headline, &output));
    }
    r
}

// ---------------------------------------------------------------------------------------------
// The judge
// ---------------------------------------------------------------------------------------------
/// The output a judge scores: the captured standard output.
pub open spec fn judged_output(o: OutcomeView) -> Seq<char> {
    match lookup(o.outputs, "stdout"@) {
        Some(ValueView::String(s)) => s,
        _ => Seq::empty(),
    }
}

/// What a judge is asked.
pub open spec fn judge_prompt_text(criteria: Seq<char>, output: Seq<char>) -> Seq<char> {
    "You are scoring whether an output satisfies the given criteria. Respond with ONLY a JSON object of the form {\"score\": <number between 0.0 and 1.0>}.\n\nCriteria:\n"@
        + criteria + "\n\nOutput to score:\n"@ + output
}

/// What to ask the judge of a step, if the step passed so far and has one.
pub fn judge_prompt(step: &Step, outcome: &StepOutcome) -> (r: Option<String>)
    ensures
        match step.judge {
            Some(j) => if outcome@.status == StepStatus::Passed {
                r matches Some(p) && p@ == judge_prompt_text(j.criteria@, judged_output(outcome@))
            } else {
                r is None
            },
            None => r is None,
        },
{
    if outcome.status != StepStatus::Passed {
        return None;
    }
    match &step.judge {
        None => None,
        Some(j) => {
            let output = match outcome.outputs.get("stdout") {
                Some(v) => match v.as_str() {
                    Some(s) => s.to_owned(),
                    None => String::new(),
                },
                None => String::new(),
            };
            Some(
                concat4(
                    "You are scoring whether an output satisfies the given criteria. Respond with ONLY a JSON object of the form {\"score\": <number between 0.0 and 1.0>}.\n\nCriteria:\n",
                    &j.criteria,
                    "\n\nOutput to score:\n",
                    &output,
                ),
            )
        },
    }
}

/// Why a judge that is not registered cannot score.
pub fn judge_missing_error(provider: &str) -> (r: String)
    ensures
        r@ == "judge provider "@ + debug_quoted(provider@) + " is not registered"@,
{
    let p = quote_debug(provider);
    concat3("judge provider ", &p, " is not registered")
}

/// Why a judge's output without a score is an error.
pub fn no_score_error(stdout: &str) -> (r: String)
    ensures
        r@ == "could not parse a score from judge output: "@ + trimmed(stdout@),
{
    let t = trim(stdout);
    concat2("could not parse a score from judge output: ", &t)
}

/// What a judge said: the bit pattern of its score, and why the score is too low if it is.
#[derive(Debug)]
pub struct Verdict {
    pub score: u32,
    pub too_low: Option<String>,
}

/// An outcome with a judge's verdict taken in.
pub open spec fn judged(o: OutcomeView, verdict: Result<Verdict, String>) -> OutcomeView {
    match verdict {
        Ok(v) => match v.too_low {
            Some(why) => OutcomeView {
                judge_score: Some(v.score),
                status: StepStatus::Failed,
                error: Some(why@),
                ..o
            },
            None => OutcomeView { judge_score: Some(v.score), ..o },
        },
        Err(e) => OutcomeView {
            status: StepStatus::Failed,
            error: Some("judge error: "@ + e@),
            ..o
        },
    }
}

/// Takes in a judge's verdict.
pub fn record_verdict(outcome: StepOutcome, verdict: Result<Verdict, String>) -> (r: StepOutcome)
    ensures
        r@ == judged(outcome@, verdict),
{
    let mut r = outcome;
    match verdict {
        Ok(v) => {
            r.judge_score = Some(v.score);
            if let Some(why) = v.too_low {
                r.status = StepStatus::Failed;
                r.error = Some(why);
            }
        },
        Err(e) => {
            r.status = StepStatus::Failed;
            r.error = Some(concat2("judge error: ", &e));
        },
    }
    r
}

// ---------------------------------------------------------------------------------------------
// Whether a step executes, and where
// ---------------------------------------------------------------------------------------------
/// The outcome of a step that does not execute, or none when it does.
pub open spec fn unexecuted(step: Step, ctx: Seq<char>, deps_passed: bool) -> Option<OutcomeView> {
    if !deps_passed {
        Some(blank_outcome(StepStatus::Skipped, Some("an upstream dependency did not pass"@)))
    } else {
        match step.when {
            None => None,
            Some(expr) => match guard_holds(expr@, ctx) {
                Ok(true) => None,
                Ok(false) => Some(blank_outcome(StepStatus::Skipped, None)),
                Err(source) => Some(failed_outcome("when: "@ + guard_error_text(source))),
            },
        }
    }
}

/// Decides whether a step executes: not when an upstream step did not pass, nor when its guard is
/// false or fails. The outcome of a step that does not.
pub fn decide_outcome(step: &Step, ctx: &Context, deps_passed: bool) -> (r: Option<StepOutcome>)
    ensures
        crate::names::opt_view(r) == unexecuted(*step, object_text(ctx@), deps_passed),
{
    if !deps_passed {
        return Some(blocked_outcome());
    }
    match &step.when {
        None => None,
        Some(expr) => match guard(expr, ctx) {
            Ok(true) => None,
            Ok(false) => Some(skipped_outcome()),
            Err(e) => Some(StepOutcome::failed(concat2("when: ", &e))),
        },
    }
}

/// Whether a step gets a workdir of its own: it asks for one, and it is not skipped anyway.
pub fn needs_scratch(step: &Step, deps_passed: bool) -> (r: bool)
    ensures
        r == (step.scratch && deps_passed),
{
    step.scratch && deps_passed
}

/// The outcome of a step whose own workdir could not be provisioned.
pub fn scratch_failure(error: &str) -> (r: StepOutcome)
    ensures
        r@ == failed_outcome("scratch workspace: "@ + error@),
{
    StepOutcome::failed(concat2("scratch workspace: ", error))
}

/// An outcome with the diff of the step's own workdir among its outputs, unless it was skipped.
pub open spec fn diffed(o: OutcomeView, diff: Option<Seq<char>>) -> OutcomeView {
    match diff {
        Some(d) if o.status != StepStatus::Skipped => OutcomeView {
            outputs: put(o.outputs, "diff"@, ValueView::String(d)),
            ..o
        },
        _ => o,
    }
}

/// Adds the diff of a step's own workdir to its outputs, unless the step was skipped.
pub fn with_scratch_diff(outcome: StepOutcome, diff: Option<String>) -> (r: StepOutcome)
    ensures
        r@ == diffed(outcome@, crate::text::opt_text(diff)),
        r@ == (match diff {
            Some(d) => if outcome@.status != StepStatus::Skipped {
                OutcomeView {
                    outputs: put(outcome@.outputs, "diff"@, ValueView::String(d@)),
                    ..outcome@
                }
            } else {
                outcome@
            },
            None => outcome@,
        }),
{
    let mut r = outcome;
    if r.status != StepStatus::Skipped {
        if let Some(d) = diff {
            r.outputs.insert("diff".to_owned(), Value::String(d));
        }
    }
    r
}

// ---------------------------------------------------------------------------------------------
// Laws
// ---------------------------------------------------------------------------------------------
/// Whether an outcome that passed met everything it was held against so far: it exited with zero,
/// if it has an exit code, and no gate failed.
pub open spec fn met_its_checks(o: OutcomeView) -> bool {
    o.status == StepStatus::Passed ==> {
        &&& o.exit_code matches Some(code) ==> code == 0
        &&& forall|i: int| 0 <= i < o.gates.len() ==> (#[trigger] o.gates[i]).1
    }
}

/// A step passes only when its body exited with zero, every gate passed and the judge did not
/// fail it: each check keeps that, and no check turns a failure into a pass.
pub proof fn a_passed_step_met_its_checks(
    o: OutcomeView,
    name: Seq<char>,
    result: Result<ProcessOutput, String>,
    timeout: Option<Duration>,
    verdict: Result<Verdict, String>,
)
    requires
        o.status == StepStatus::Passed || o.status == StepStatus::Failed,
    ensures
        o.gates.len() == 0 ==> met_its_checks(exit_checked(o)),
        met_its_checks(o) ==> met_its_checks(gated(o, name, result, timeout)),
        met_its_checks(o) ==> met_its_checks(judged(o, verdict)),
        o.status == StepStatus::Failed ==> {
            &&& exit_checked(o).status == StepStatus::Failed
            &&& gated(o, name, result, timeout).status == StepStatus::Failed
            &&& judged(o, verdict).status == StepStatus::Failed
        },
        gated(o, name, result, timeout).status == StepStatus::Passed ==> gate_passed(result),
        judged(o, verdict).status == StepStatus::Passed ==> (verdict matches Ok(v) && v.too_low
            is None),
{
}

/// A step one of whose dependencies is not recorded as passed is skipped, whatever its guard says,
/// and whatever became of its other dependencies.
pub proof fn a_blocked_step_is_skipped(
    step: Step,
    ctx: Seq<char>,
    states: Seq<(Seq<char>, StepStateView)>,
    j: int,
)
    requires
        crate::names::unique_keys(states),
        0 <= j < step.depends_on@.len(),
        forall|i: int|
            0 <= i < states.len() && (#[trigger] states[i]).0 == step.depends_on@[j]@
                ==> states[i].1.status != StepStatus::Passed,
    ensures
        unexecuted(step, ctx, deps_passed(states, step)) matches Some(o) && o.status
            == StepStatus::Skipped && o.error == Some("an upstream dependency did not pass"@)
            && o.exit_code is None,
{
    one_unmet_dependency_is_enough(states, step, j);
}

/// A step whose dependencies passed executes exactly when it has no guard or its guard is true;
/// with a false guard it is skipped, and with one that cannot be evaluated it fails.
pub proof fn a_guard_decides(step: Step, ctx: Seq<char>)
    ensures
        ({
            let held = step.when matches Some(e) ==> guard_holds(e@, ctx) == Ok::<bool, Seq<char>>(
                true,
            );
            let refused = step.when matches Some(e) && guard_holds(e@, ctx) == Ok::<
                bool,
                Seq<char>,
            >(false);
            let o = unexecuted(step, ctx, true);
            &&& held == (o is None)
            &&& refused ==> o->0.status == StepStatus::Skipped && o->0.error is None
            &&& !held && !refused ==> o->0.status == StepStatus::Failed && o->0.error is Some
        }),
{
}

proof fn lemma_selected(branches: Seq<CaseBranch>, ctx: Seq<char>, from: int)
    requires
        0 <= from <= branches.len(),
    ensures
        match selected_branch(branches, ctx, from) {
            Some(l) => exists|i: int| #[trigger]
                is_first_match(branches, ctx, from, i) && branches[i].label@ == l,
            None => forall|i: int|
                from <= i < branches.len() ==> !branch_holds(#[trigger] branches[i], ctx),
        },
    decreases branches.len() - from,
{
    if from < branches.len() {
        if branch_holds(branches[from], ctx) {
            assert(is_first_match(branches, ctx, from, from));
        } else {
            lemma_selected(branches, ctx, from + 1);
            if let Some(l) = selected_branch(branches, ctx, from + 1) {
                let i = choose|i: int| #[trigger]
                    is_first_match(branches, ctx, from + 1, i) && branches[i].label@ == l;
                assert(is_first_match(branches, ctx, from, i));
            }
        }
    }
}

/// Whether the branch at `i` is the first at or after `from` that matches.
pub open spec fn is_first_match(
    branches: Seq<CaseBranch>,
    ctx: Seq<char>,
    from: int,
    i: int,
) -> bool {
    &&& from <= i < branches.len()
    &&& branch_holds(branches[i], ctx)
    &&& forall|j: int| from <= j < i ==> !branch_holds(#[trigger] branches[j], ctx)
}

/// A branch selection always passes, and what it selects is the label of the first branch that
/// matches; when none does it is the fallback.
pub proof fn a_selection_always_passes(c: CaseStep, ctx: Seq<char>)
    ensures
        ({
            let o = case_outcome(c, ctx);
            let none_match = forall|i: int|
                0 <= i < c.branches@.len() ==> !branch_holds(#[trigger] c.branches@[i], ctx);
            &&& o.status == StepStatus::Passed
            &&& o.exit_code == Some(0i32)
            &&& o.error is None
            &&& lookup(o.outputs, "selected"@) == Some(ValueView::String(selection(c, ctx)))
            &&& none_match ==> selection(c, ctx) == (match c.else_ {
                Some(l) => l@,
                None => Seq::empty(),
            })
            &&& !none_match ==> exists|i: int| #[trigger]
                is_first_match(c.branches@, ctx, 0, i) && c.branches@[i].label@ == selection(c, ctx)
        }),
{
    lemma_selected(c.branches@, ctx, 0);
    crate::names::lemma_put_get(
        Seq::empty(),
        "selected"@,
        ValueView::String(selection(c, ctx)),
        "selected"@,
    );
}

/// A prompt given inline is used as it is, whatever the prompt file holds; without one the file is,
/// and without either there is no prompt.
pub proof fn an_inline_prompt_wins(
    p: ProviderStep,
    file: Result<String, String>,
    other: Result<String, String>,
    ctx: Seq<char>,
)
    ensures
        p.prompt matches Some(t) ==> prompt_text(p, file, ctx) == prompt_text(p, other, ctx) && (
        rendered(t@, ctx) matches Ok(s) ==> prompt_text(p, file, ctx) == Ok::<Seq<char>, Seq<char>>(
            s,
        )) && (rendered(t@, ctx) is Err ==> prompt_text(p, file, ctx) is Err),
        p.prompt is None && p.prompt_file is Some ==> (file matches Ok(t) ==> (rendered(
            t@,
            ctx,
        ) matches Ok(s) ==> prompt_text(p, file, ctx) == Ok::<Seq<char>, Seq<char>>(s))) && (
        file is Err ==> prompt_text(p, file, ctx) is Err),
        p.prompt is None && p.prompt_file is None ==> prompt_text(p, file, ctx) is Err,
{
}

/// A provider is handed exactly the artifacts its step requires, the captured diff aside.
pub proof fn a_provider_gets_what_its_step_requires(needs: Seq<ArtifactName>, name: Seq<char>)
    ensures
        input_names(needs).contains(name) == (name != "DIFF"@ && exists|i: int|
            0 <= i < needs.len() && (#[trigger] needs[i])@ == name),
    decreases needs.len(),
{
    if needs.len() > 0 {
        let d = needs.drop_last();
        let before = input_names(d);
        let all = input_names(needs);
        a_provider_gets_what_its_step_requires(d, name);
        if before.contains(name) {
            let k = choose|k: int| 0 <= k < before.len() && before[k] == name;
            assert(all[k] == name);
            let i = choose|i: int| 0 <= i < d.len() && (#[trigger] d[i])@ == name;
            assert(needs[i]@ == name);
        }
        if needs.last()@ == name && name != "DIFF"@ {
            assert(all[before.len() as int] == name);
        }
        if all.contains(name) && !before.contains(name) {
            let k = choose|k: int| 0 <= k < all.len() && all[k] == name;
            if k < before.len() {
                assert(before[k] == name);
            }
            assert(needs[needs.len() - 1]@ == name);
        }
        if exists|i: int| 0 <= i < needs.len() && (#[trigger] needs[i])@ == name {
            let i = choose|i: int| 0 <= i < needs.len() && (#[trigger] needs[i])@ == name;
            if i < d.len() {
                assert(d[i]@ == name);
            }
        }
    }
}

/// An action gets every argument under its own name: a text as it renders, anything else as it is.
pub proof fn an_action_gets_its_rendered_arguments(
    with: Seq<(Seq<char>, ValueView)>,
    ctx: Seq<char>,
    i: int,
)
    requires
        crate::names::unique_keys(with),
        rendered_args(with, ctx) is Ok,
    ensures
        crate::names::unique_keys(rendered_args(with, ctx)->Ok_0),
        forall|k: Seq<char>| #[trigger]
            has_key(rendered_args(with, ctx)->Ok_0, k) ==> has_key(with, k),
        0 <= i < with.len() ==> (match with[i].1 {
            ValueView::String(t) => rendered(t, ctx) matches Ok(s) && lookup(
                rendered_args(with, ctx)->Ok_0,
                with[i].0,
            ) == Some(ValueView::String(s)),
            v => lookup(rendered_args(with, ctx)->Ok_0, with[i].0) == Some(v),
        }),
    decreases with.len(),
{
    if with.len() > 0 {
        let d = with.drop_last();
        let last = with.last();
        assert forall|a: int, b: int|
            0 <= a < d.len() && 0 <= b < d.len() && (#[trigger] d[a]).0 == (
            #[trigger] d[b]).0 implies a == b by {
            assert(with[a].0 == with[b].0);
        }
        an_action_gets_its_rendered_arguments(d, ctx, i);
        let before = rendered_args(d, ctx)->Ok_0;
        let all = rendered_args(with, ctx)->Ok_0;
        let v = match last.1 {
            ValueView::String(t) => ValueView::String(rendered(t, ctx)->Ok_0),
            v => v,
        };
        assert(all == put(before, last.0, v));
        assert(with[with.len() - 1] == last);
        crate::names::lemma_put_get(before, last.0, v, last.0);
        assert forall|k: Seq<char>| #[trigger] has_key(all, k) implies has_key(with, k) by {
            crate::names::lemma_put_get(before, last.0, v, k);
            if k != last.0 {
                assert(has_key(before, k));
                assert(has_key(d, k));
                let at = crate::names::key_pos(d, k);
                assert(with[at].0 == k);
            }
        }
        if 0 <= i < d.len() {
            assert(with[i] == d[i]);
            assert(with[i].0 != last.0);
            crate::names::lemma_put_get(before, last.0, v, with[i].0);
        }
    }
}

/// What a case selects: the first branch that has no guard or whose guard is true, in the order
/// they are written.
pub proof fn a_case_selects_the_first_true_branch(c: CaseStep, ctx: Seq<char>, i: int)
    requires
        0 <= i < c.branches@.len(),
        c.branches@[i].when matches Some(e) ==> guard_holds(e@, ctx) == Ok::<bool, Seq<char>>(true),
        forall|j: int|
            0 <= j < i ==> ((#[trigger] c.branches@[j]).when matches Some(e) && guard_holds(e@, ctx)
                != Ok::<bool, Seq<char>>(true)),
    ensures
        lookup(case_outcome(c, ctx).outputs, "selected"@) == Some(
            ValueView::String(c.branches@[i].label@),
        ),
{
    a_selection_always_passes(c, ctx);
    assert(branch_holds(c.branches@[i], ctx));
    let k = choose|k: int| #[trigger]
        is_first_match(c.branches@, ctx, 0, k) && c.branches@[k].label@ == selection(c, ctx);
    assert(branch_holds(c.branches@[k], ctx));
    if k < i {
        assert(c.branches@[k].when is Some);
    }
    if i < k {
        assert(!branch_holds(c.branches@[i], ctx));
    }
}

/// A step asks for what it says: a command as it renders, a prompt as it renders, an action with
/// its rendered arguments; one whose provider or action is not registered fails, as does one whose
/// text does not render.
pub proof fn a_step_does_what_it_says(step: Step, ctx: Seq<char>, file: Result<String, String>)
    ensures
        step.kind matches StepKind::Run(c) ==> (match rendered(c.run@, ctx) {
            Ok(s) => body_of(step, ctx, file, true) == BodyView::Shell(s),
            Err(_) => body_of(step, ctx, file, true) matches BodyView::Settled(o) && o.status
                == StepStatus::Failed,
        }),
        step.kind matches StepKind::Provider(p) ==> (match prompt_text(p, file, ctx) {
            Ok(s) => body_of(step, ctx, file, true) == (BodyView::Invoke {
                prompt: s,
                inputs: input_names(step.artifacts.requires_@),
            }),
            Err(_) => body_of(step, ctx, file, true) matches BodyView::Settled(o) && o.status
                == StepStatus::Failed,
        }),
        step.kind matches StepKind::Action(a) ==> (match rendered_args(a.with@, ctx) {
            Ok(args) => body_of(step, ctx, file, true) == BodyView::Act(args),
            Err(_) => body_of(step, ctx, file, true) matches BodyView::Settled(o) && o.status
                == StepStatus::Failed,
        }),
        step.kind is Provider || step.kind is Action ==> (body_of(
            step,
            ctx,
            file,
            false,
        ) matches BodyView::Settled(o) && o.status == StepStatus::Failed),
        step.kind matches StepKind::Case(c) ==> body_of(step, ctx, file, true)
            == BodyView::Settled(case_outcome(c, ctx)),
{
}

/// The output `stdout` of a command is what it printed, up to the limit, and its exit code is
/// kept; a command that was killed has failed, and so has one that could not be run.
pub proof fn a_commands_output_is_kept(result: Result<ProcessOutput, String>, timeout: Option<Duration>)
    ensures
        result matches Ok(p) ==> {
            let o = ran(result, timeout);
            &&& o.exit_code == Some(p.exit_code)
            &&& o.stderr == p.stderr@
            &&& lookup(o.outputs, "stdout"@) == Some(
                ValueView::String(clipped_middle(p.stdout@, STDOUT_MAX as nat)),
            )
            &&& o.status == (if p.ending == Ending::Exited {
                StepStatus::Passed
            } else {
                StepStatus::Failed
            })
            &&& (p.ending == Ending::Exited) == (o.error is None)
        },
        result is Err ==> ran(result, timeout).status == StepStatus::Failed,
{
    if let Ok(p) = result {
        crate::names::lemma_put_get(
            Seq::empty(),
            "stdout"@,
            ValueView::String(clipped_middle(p.stdout@, STDOUT_MAX as nat)),
            "stdout"@,
        );
    }
}

/// A provider's own outputs are kept as they are; only where there is no `stdout` among them is it
/// what the provider printed. Exit code and usage are kept, and an error fails the step.
pub proof fn a_providers_outputs_are_kept(
    result: Result<InvocationOutcome, ProviderError>,
    key: Seq<char>,
)
    requires
        result matches Ok(o) ==> crate::names::unique_keys(o.outputs@),
    ensures
        result matches Ok(o) ==> {
            let r = invoked(result);
            &&& r.status == StepStatus::Passed
            &&& r.exit_code == Some(o.exit_code)
            &&& r.usage == o.usage
            &&& r.stderr == o.stderr@
            &&& has_key(o.outputs@, key) ==> lookup(r.outputs, key) == lookup(o.outputs@, key)
            &&& !has_key(o.outputs@, "stdout"@) ==> lookup(r.outputs, "stdout"@) == Some(
                ValueView::String(clipped_middle(o.stdout@, STDOUT_MAX as nat)),
            )
        },
        result is Err ==> invoked(result).status == StepStatus::Failed && invoked(result).exit_code
            is None,
{
    if let Ok(o) = result {
        let v = ValueView::String(clipped_middle(o.stdout@, STDOUT_MAX as nat));
        crate::names::lemma_put_get(o.outputs@, "stdout"@, v, key);
        crate::names::lemma_put_get(o.outputs@, "stdout"@, v, "stdout"@);
    }
}

/// What an action did is kept: its outputs, its side effects and its exit code; an error fails the
/// step.
pub proof fn an_actions_effects_are_kept(result: Result<ActionOutcome, ActionError>)
    ensures
        result matches Ok(a) ==> {
            let r = acted(result);
            &&& r.status == StepStatus::Passed
            &&& r.exit_code == Some(a.exit_code)
            &&& r.outputs == a.outputs@
            &&& r.stderr == a.stderr@
            &&& r.side_effects == views(a.side_effects@)
        },
        result is Err ==> acted(result).status == StepStatus::Failed,
{
}

/// An exit code of zero changes nothing, and any other fails the step, whatever else it gave.
pub proof fn a_nonzero_exit_fails_a_step(o: OutcomeView)
    ensures
        o.exit_code is None || o.exit_code == Some(0i32) ==> exit_checked(o) == o,
        o.exit_code matches Some(code) ==> (code != 0 ==> exit_checked(o).status
            == StepStatus::Failed),
        exit_checked(o).outputs == o.outputs && exit_checked(o).usage == o.usage
            && exit_checked(o).exit_code == o.exit_code && exit_checked(o).side_effects
            == o.side_effects,
        o.status == StepStatus::Failed ==> exit_checked(o) == o,
{
}

/// A gate passes exactly when its command ran and exited with zero; how it went is recorded under
/// its name, a gate that does not pass fails the step, and one that passes changes nothing else.
pub proof fn a_gate_is_its_exit_code(
    o: OutcomeView,
    name: Seq<char>,
    result: Result<ProcessOutput, String>,
    timeout: Option<Duration>,
    other: Seq<char>,
)
    requires
        crate::names::unique_keys(o.gates),
    ensures
        ({
            let passed = result matches Ok(p) && p.exit_code == 0;
            let r = gated(o, name, result, timeout);
            &&& lookup(r.gates, name) == Some(passed)
            &&& other != name ==> lookup(r.gates, other) == lookup(o.gates, other)
            &&& r.status == (if passed {
                o.status
            } else {
                StepStatus::Failed
            })
            &&& passed ==> r.error == o.error
            &&& !passed ==> r.error is Some
            &&& r.outputs == o.outputs && r.exit_code == o.exit_code && r.usage == o.usage
        }),
{
    let passed = result matches Ok(p) && p.exit_code == 0;
    crate::names::lemma_put_get(o.gates, name, passed, name);
    crate::names::lemma_put_get(o.gates, name, passed, other);
}

/// A judge's score is recorded whether it is high enough or not; one that is too low, or a judge
/// that gave none, fails the step.
pub proof fn a_judge_fails_what_scores_too_low(o: OutcomeView, verdict: Result<Verdict, String>)
    ensures
        verdict matches Ok(v) ==> judged(o, verdict).judge_score == Some(v.score),
        verdict matches Ok(v) ==> (v.too_low is None ==> judged(o, verdict).status == o.status
            && judged(o, verdict).error == o.error),
        verdict matches Ok(v) ==> (v.too_low matches Some(why) ==> judged(o, verdict).status
            == StepStatus::Failed && judged(o, verdict).error == Some(why@)),
        verdict is Err ==> judged(o, verdict).status == StepStatus::Failed && judged(
            o,
            verdict,
        ).judge_score == o.judge_score,
        judged(o, verdict).outputs == o.outputs && judged(o, verdict).gates == o.gates,
{
}

/// A judge reads the criteria and then the output to score, which is what the step printed.
pub proof fn a_judge_reads_criteria_and_output(
    criteria: Seq<char>,
    o: OutcomeView,
    stdout: Seq<char>,
)
    requires
        lookup(o.outputs, "stdout"@) == Some(ValueView::String(stdout)),
    ensures
        ({
            let p = judge_prompt_text(criteria, judged_output(o));
            let mid = "\n\nOutput to score:\n"@;
            let n = p.len();
            &&& n >= criteria.len() + mid.len() + stdout.len()
            &&& p.skip(n - stdout.len()) == stdout
            &&& p.subrange(
                n - stdout.len() - mid.len() - criteria.len(),
                n - stdout.len() - mid.len(),
            ) == criteria
        }),
{
    let p = judge_prompt_text(criteria, judged_output(o));
    let mid = "\n\nOutput to score:\n"@;
    let n = p.len();
    assert(p.skip(n - stdout.len()) =~= stdout);
    assert(p.subrange(
        n - stdout.len() - mid.len() - criteria.len(),
        n - stdout.len() - mid.len(),
    ) =~= criteria);
}

/// The diff of a step's own workdir is among its outputs, which keep everything else, unless the
/// step was skipped or there is no diff.
pub proof fn a_steps_own_diff_is_an_output(
    o: OutcomeView,
    diff: Option<Seq<char>>,
    other: Seq<char>,
)
    requires
        crate::names::unique_keys(o.outputs),
    ensures
        ({
            let r = diffed(o, diff);
            &&& o.status != StepStatus::Skipped ==> (diff matches Some(d) ==> lookup(
                r.outputs,
                "diff"@,
            ) == Some(ValueView::String(d)))
            &&& other != "diff"@ ==> lookup(r.outputs, other) == lookup(o.outputs, other)
            &&& o.status == StepStatus::Skipped || diff is None ==> r == o
            &&& r.status == o.status && r.error == o.error && r.exit_code == o.exit_code
                && r.side_effects == o.side_effects && r.usage == o.usage
        }),
{
    if let Some(d) = diff {
        crate::names::lemma_put_get(o.outputs, "diff"@, ValueView::String(d), "diff"@);
        crate::names::lemma_put_get(o.outputs, "diff"@, ValueView::String(d), other);
    }
}

} // verus!
