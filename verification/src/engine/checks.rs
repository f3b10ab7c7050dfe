//! What a step's outcome has to stand, in order: its exit code, each of its gates, its judge.

use super::dispatch::{
    check_exit, exit_checked, gate_command, gated, judge_prompt, judge_prompt_text, judged,
    judged_output, met_its_checks, record_gate, record_verdict, ProcessOutput, Verdict,
    a_passed_step_met_its_checks,
};
use super::state::{skipped_outcome, OutcomeView, StepOutcome};
use crate::api::StepStatus;
use crate::context::render::{render_error_text, rendered, Context};
use crate::ir::step::Step;
use crate::json::object_text;
use crate::time::Duration;
use vstd::prelude::*;

verus! {

/// The checks of one execution of a step.
#[derive(Debug)]
pub struct Checks {
    outcome: StepOutcome,
    /// How many gates have run.
    gates_run: usize,
    /// Whether there may be more to check.
    open: bool,
    /// Whether the judge has spoken.
    judged: bool,
}

/// The mathematical form of [`Checks`].
#[verifier::ext_equal]
pub struct ChecksView {
    pub outcome: OutcomeView,
    pub gates_run: nat,
    pub open: bool,
    pub judged: bool,
}

impl View for Checks {
    type V = ChecksView;

    closed spec fn view(&self) -> ChecksView {
        ChecksView {
            outcome: self.outcome@,
            gates_run: self.gates_run as nat,
            open: self.open,
            judged: self.judged,
        }
    }
}

/// What the checks ask for next.
#[derive(Debug)]
pub enum Ask {
    /// Run a gate's command.
    Gate { name: String, command: String },
    /// Ask the judge.
    Judge { prompt: String },
    /// Nothing more.
    Done,
}

/// The mathematical form of an [`Ask`].
#[verifier::ext_equal]
pub enum AskView {
    Gate { name: Seq<char>, command: Seq<char> },
    Judge { prompt: Seq<char> },
    Done,
}

impl View for Ask {
    type V = AskView;

    open spec fn view(&self) -> AskView {
        match self {
            Ask::Gate { name, command } => AskView::Gate { name: name@, command: command@ },
            Ask::Judge { prompt } => AskView::Judge { prompt: prompt@ },
            Ask::Done => AskView::Done,
        }
    }
}

/// The checks at their start: the exit code is checked first, and a failure ends them.
pub open spec fn begun(body: OutcomeView) -> ChecksView {
    ChecksView {
        outcome: exit_checked(body),
        gates_run: 0,
        open: exit_checked(body).status != StepStatus::Failed,
        judged: false,
    }
}

/// What the checks ask for next, and the checks then: the gates in order, then the judge of a
/// step that still passes. A gate whose command does not render fails the step and ends the
/// checks.
pub open spec fn asked(c: ChecksView, step: Step, ctx: Seq<char>) -> (AskView, ChecksView) {
    if !c.open {
        (AskView::Done, c)
    } else if c.gates_run < step.gates@.len() {
        let (name, template) = step.gates@[c.gates_run as int];
        match rendered(template, ctx) {
            Ok(command) => (AskView::Gate { name, command }, c),
            Err(source) => (
                AskView::Done,
                ChecksView {
                    outcome: OutcomeView {
                        status: StepStatus::Failed,
                        error: Some(render_error_text("gate"@, source)),
                        ..c.outcome
                    },
                    open: false,
                    ..c
                },
            ),
        }
    } else if !c.judged && c.outcome.status == StepStatus::Passed && step.judge is Some {
        (
            AskView::Judge {
                prompt: judge_prompt_text(step.judge->0.criteria@, judged_output(c.outcome)),
            },
            c,
        )
    } else {
        (AskView::Done, c)
    }
}

/// The checks after the next gate ran.
pub open spec fn after_gate(
    c: ChecksView,
    step: Step,
    result: Result<ProcessOutput, String>,
    timeout: Option<Duration>,
) -> ChecksView {
    ChecksView {
        outcome: gated(c.outcome, step.gates@[c.gates_run as int].0, result, timeout),
        gates_run: c.gates_run + 1,
        ..c
    }
}

/// The checks after the judge spoke.
pub open spec fn after_judge(c: ChecksView, verdict: Result<Verdict, String>) -> ChecksView {
    ChecksView { outcome: judged(c.outcome, verdict), judged: true, ..c }
}

impl Checks {
    /// Starts the checks of what a step's body came to.
    pub fn begin(body: StepOutcome) -> (r: Self)
        ensures
            r@ == begun(body@),
    {
        let outcome = check_exit(body);
        let open = outcome.status != StepStatus::Failed;
        Checks { outcome, gates_run: 0, open, judged: false }
    }

    /// What to do next.
    pub fn next(&mut self, step: &Step, ctx: &Context) -> (r: Ask)
        ensures
            (r@, final(self)@) == asked(old(self)@, *step, object_text(ctx@)),
    {
        if !self.open {
            return Ask::Done;
        }
        if self.gates_run < step.gates.len() {
            let name = step.gates.key_at(self.gates_run).clone();
            let template = step.gates.value_at(self.gates_run);
            let mut outcome = skipped_outcome();
            std::mem::swap(&mut outcome, &mut self.outcome);
            return match gate_command(template, ctx, outcome) {
                Ok((command, outcome)) => {
                    self.outcome = outcome;
                    Ask::Gate { name, command }
                },
                Err(outcome) => {
                    self.outcome = outcome;
                    self.open = false;
                    Ask::Done
                },
            };
        }
        if self.judged {
            return Ask::Done;
        }
        match judge_prompt(step, &self.outcome) {
            Some(prompt) => Ask::Judge { prompt },
            None => Ask::Done,
        }
    }

    /// Takes in what the command asked for gave.
    pub fn gate_ran(
        &mut self,
        step: &Step,
        result: Result<ProcessOutput, String>,
        timeout: Option<Duration>,
    )
        requires
            old(self)@.gates_run < step.gates@.len(),
        ensures
            final(self)@ == after_gate(old(self)@, *step, result, timeout),
    {
        let n = step.gates.len();
        let mut outcome = skipped_outcome();
        std::mem::swap(&mut outcome, &mut self.outcome);
        self.outcome = record_gate(outcome, step.gates.key_at(self.gates_run), result, timeout);
        self.gates_run = self.gates_run + 1;
    }

    /// Takes in what the judge said.
    pub fn judge_said(&mut self, verdict: Result<Verdict, String>)
        ensures
            final(self)@ == after_judge(old(self)@, verdict),
    {
        let mut outcome = skipped_outcome();
        std::mem::swap(&mut outcome, &mut self.outcome);
        self.outcome = record_verdict(outcome, verdict);
        self.judged = true;
    }

    /// The outcome the step came to.
    pub fn finish(self) -> (r: StepOutcome)
        ensures
            r@ == self@.outcome,
    {
        self.outcome
    }
}

/// What holds of the checks at all times.
pub open spec fn checks_hold(c: ChecksView) -> bool {
    &&& c.outcome.status == StepStatus::Passed || c.outcome.status == StepStatus::Failed
    &&& met_its_checks(c.outcome)
}

/// Every way through the checks keeps that a step that still passes exited with zero and passed
/// each gate that ran.
pub proof fn the_checks_hold_throughout(
    body: OutcomeView,
    c: ChecksView,
    step: Step,
    ctx: Seq<char>,
    result: Result<ProcessOutput, String>,
    timeout: Option<Duration>,
    verdict: Result<Verdict, String>,
)
    requires
        body.status == StepStatus::Passed || body.status == StepStatus::Failed,
        body.gates.len() == 0,
        checks_hold(c),
    ensures
        checks_hold(begun(body)),
        checks_hold(asked(c, step, ctx).1),
        checks_hold(after_gate(c, step, result, timeout)),
        checks_hold(after_judge(c, verdict)),
{
    a_passed_step_met_its_checks(
        body,
        step.gates@[c.gates_run as int].0,
        result,
        timeout,
        verdict,
    );
    a_passed_step_met_its_checks(
        c.outcome,
        step.gates@[c.gates_run as int].0,
        result,
        timeout,
        verdict,
    );
}

/// When nothing more is asked of a step that passes, every gate has run, and its judge has spoken
/// if it has one.
pub proof fn a_passed_step_was_fully_checked(c: ChecksView, step: Step, ctx: Seq<char>)
    requires
        c.open,
        asked(c, step, ctx).0 is Done,
        asked(c, step, ctx).1.outcome.status == StepStatus::Passed,
    ensures
        c.gates_run >= step.gates@.len(),
        step.judge is Some ==> c.judged,
{
}

/// The gates are run one after another in the order they are declared, each with its own command
/// as it renders, whether those before it passed or not.
pub proof fn every_gate_is_run_in_order(
    c: ChecksView,
    step: Step,
    ctx: Seq<char>,
    result: Result<ProcessOutput, String>,
    timeout: Option<Duration>,
)
    requires
        c.open,
        c.gates_run < step.gates@.len(),
    ensures
        rendered(step.gates@[c.gates_run as int].1, ctx) matches Ok(command) ==> asked(
            c,
            step,
            ctx,
        ).0 == (AskView::Gate { name: step.gates@[c.gates_run as int].0, command }) && asked(
            c,
            step,
            ctx,
        ).1 == c,
        rendered(step.gates@[c.gates_run as int].1, ctx) is Err ==> asked(c, step, ctx).0 is Done
            && asked(c, step, ctx).1.outcome.status == StepStatus::Failed,
        after_gate(c, step, result, timeout).open,
        after_gate(c, step, result, timeout).gates_run == c.gates_run + 1,
        crate::names::unique_keys(c.outcome.gates) ==> crate::names::lookup(
            after_gate(c, step, result, timeout).outcome.gates,
            step.gates@[c.gates_run as int].0,
        ) == Some(result matches Ok(p) && p.exit_code == 0),
{
    if crate::names::unique_keys(c.outcome.gates) {
        crate::engine::dispatch::a_gate_is_its_exit_code(
            c.outcome,
            step.gates@[c.gates_run as int].0,
            result,
            timeout,
            step.gates@[c.gates_run as int].0,
        );
    }
}

/// A step whose body failed, or exited with anything but zero, is neither gated nor judged.
pub proof fn a_failed_body_is_not_checked(body: OutcomeView, step: Step, ctx: Seq<char>)
    requires
        body.status == StepStatus::Failed || (body.exit_code matches Some(code) && code != 0),
    ensures
        asked(begun(body), step, ctx).0 is Done,
        asked(begun(body), step, ctx).1.outcome.status == StepStatus::Failed,
{
}

/// A judge is asked once, when every gate has been run and the step has passed them all, and
/// exactly when the step has one.
pub proof fn a_judge_is_asked_last(
    c: ChecksView,
    step: Step,
    ctx: Seq<char>,
    verdict: Result<Verdict, String>,
)
    requires
        c.open,
    ensures
        (asked(c, step, ctx).0 is Judge) == (c.gates_run >= step.gates@.len() && c.outcome.status
            == StepStatus::Passed && step.judge is Some && !c.judged),
        c.gates_run >= step.gates@.len() ==> asked(after_judge(c, verdict), step, ctx).0 is Done,
{
}

} // verus!
