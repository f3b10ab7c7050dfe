//! The `shell.exec` action.

use super::command::{arg_str, finished, missing_arg, text_arg};
use crate::api::{SideEffect, SideEffectView};
use crate::engine::dispatch::{ActionOutcome, ActionOutcomeView, ProcessOutput};
use crate::engine::git::list2;
use crate::error::ActionError;
use crate::json::{Value, ValueView};
use crate::names::{lookup, put, views, OrderedMap};
use crate::text::texts;
use vstd::prelude::*;

verus! {

/// `shell.exec`: run the argument `command` with a POSIX shell.
pub struct ShellExec;

/// What a shell command came to.
pub open spec fn shell_result(result: Result<ProcessOutput, String>) -> Result<
    ActionOutcomeView,
    Seq<char>,
> {
    match result {
        Ok(p) => Ok(
            ActionOutcomeView {
                exit_code: p.exit_code,
                outputs: put(Seq::empty(), "stdout"@, ValueView::String(p.stdout@)),
                stderr: p.stderr@,
                side_effects: Seq::empty(),
            },
        ),
        Err(e) => Err(e@),
    }
}

impl ShellExec {
    /// The name workflows use.
    pub fn name(&self) -> (r: &'static str)
        ensures
            r@ == "shell.exec"@,
    {
        "shell.exec"
    }

    /// The arguments of the shell. The argument `command` is required.
    pub fn command(&self, args: &OrderedMap<Value>) -> (r: Result<Vec<String>, ActionError>)
        ensures
            match text_arg(args@, "command"@) {
                Some(c) => r matches Ok(v) && texts(v@) == seq!["-c"@, c],
                None => r matches Err(ActionError::Other(m)) && m@ == missing_arg("command"@),
            },
    {
        match arg_str(args, "command") {
            Ok(c) => Ok(list2("-c", &c)),
            Err(e) => Err(e),
        }
    }

    /// What the command came to, whatever it exited with.
    pub fn outcome(&self, result: Result<ProcessOutput, String>) -> (r: Result<
        ActionOutcome,
        ActionError,
    >)
        ensures
            finished(r) == shell_result(result),
    {
        match result {
            Ok(p) => {
                let mut outputs: OrderedMap<Value> = OrderedMap::new();
                outputs.insert("stdout".to_owned(), Value::String(p.stdout));
                let side_effects: Vec<SideEffect> = Vec::new();
                assert(views(side_effects@) =~= Seq::<SideEffectView>::empty());
                Ok(
                    ActionOutcome {
                        exit_code: p.exit_code,
                        outputs,
                        stderr: p.stderr,
                        side_effects,
                    },
                )
            },
            Err(e) => Err(ActionError::Other(e)),
        }
    }
}

/// What a command printed and how it exited is what the action reports, whatever the exit code is.
pub proof fn a_shell_command_is_reported(p: ProcessOutput)
    ensures
        shell_result(Ok(p)) matches Ok(o) && o.exit_code == p.exit_code && o.stderr == p.stderr@
            && lookup(o.outputs, "stdout"@) == Some(ValueView::String(p.stdout@))
            && o.side_effects.len() == 0,
{
    crate::names::lemma_put_get(
        Seq::empty(),
        "stdout"@,
        ValueView::String(p.stdout@),
        "stdout"@,
    );
}

} // verus!
