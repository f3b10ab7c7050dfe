//! Arguments of actions and results of their commands.

use crate::engine::dispatch::{ActionOutcome, ActionOutcomeView, ProcessOutput};
use crate::error::{action_error_text, ActionError};
use crate::json::{Value, ValueView};
use crate::names::{lookup, OrderedMap};
use crate::text::{concat3, concat5, join, joined, texts, trim, trimmed};
use vstd::prelude::*;

verus! {

/// The text argument of a name, if there is one and it is a text.
pub open spec fn text_arg(args: Seq<(Seq<char>, ValueView)>, key: Seq<char>) -> Option<Seq<char>> {
    match lookup(args, key) {
        Some(ValueView::String(s)) => Some(s),
        _ => None,
    }
}

/// The text argument of a name, if there is one.
pub fn arg_text(args: &OrderedMap<Value>, key: &str) -> (r: Option<String>)
    ensures
        crate::text::opt_text(r) == text_arg(args@, key@),
{
    match args.get(key) {
        Some(v) => match v.as_str() {
            Some(s) => Some(s.to_owned()),
            None => None,
        },
        None => None,
    }
}

/// Why an action without a required argument fails.
pub open spec fn missing_arg(key: Seq<char>) -> Seq<char> {
    "missing required arg `"@ + key + "`"@
}

/// A required text argument.
pub fn arg_str(args: &OrderedMap<Value>, key: &str) -> (r: Result<String, ActionError>)
    ensures
        match text_arg(args@, key@) {
            Some(s) => r matches Ok(t) && t@ == s,
            None => r matches Err(ActionError::Other(m)) && m@ == missing_arg(key@),
        },
{
    match arg_text(args, key) {
        Some(s) => Ok(s),
        None => Err(ActionError::Other(concat3("missing required arg `", key, "`"))),
    }
}

/// An optional text argument's value, else the default.
pub open spec fn text_arg_or(
    args: Seq<(Seq<char>, ValueView)>,
    key: Seq<char>,
    default: Seq<char>,
) -> Seq<char> {
    match text_arg(args, key) {
        Some(s) => s,
        None => default,
    }
}

/// An optional text argument, with its default.
pub fn arg_str_or(args: &OrderedMap<Value>, key: &str, default: &str) -> (r: String)
    ensures
        r@ == text_arg_or(args@, key@, default@),
{
    match arg_text(args, key) {
        Some(s) => s,
        None => default.to_owned(),
    }
}

/// What a command that has to exit with zero gave: its output, or why it failed.
pub open spec fn checked_output(
    program: Seq<char>,
    args: Seq<Seq<char>>,
    result: Result<ProcessOutput, String>,
) -> Result<Seq<char>, Seq<char>> {
    match result {
        Ok(p) => if p.exit_code == 0 {
            Ok(p.stdout@)
        } else {
            Err(
                program + " "@ + joined(args, " "@) + " failed: "@ + trimmed(p.stderr@),
            )
        },
        Err(e) => Err(e@),
    }
}

/// The output of a command that has to exit with zero.
pub fn checked(program: &str, args: &Vec<String>, result: Result<ProcessOutput, String>) -> (r:
    Result<String, ActionError>)
    ensures
        match checked_output(program@, texts(args@), result) {
            Ok(s) => r matches Ok(t) && t@ == s,
            Err(e) => r matches Err(ActionError::Other(m)) && m@ == e,
        },
{
    match result {
        Ok(p) => {
            if p.exit_code == 0 {
                return Ok(p.stdout);
            }
            let words = join(args, " ");
            let why = trim(&p.stderr);
            Err(ActionError::Other(concat5(program, " ", &words, " failed: ", &why)))
        },
        Err(e) => Err(ActionError::Other(e)),
    }
}

/// The mathematical form of what an action came to; a failure is its message.
pub open spec fn finished(r: Result<ActionOutcome, ActionError>) -> Result<
    ActionOutcomeView,
    Seq<char>,
> {
    match r {
        Ok(o) => Ok(o@),
        Err(e) => Err(action_error_text(e)),
    }
}

/// The mathematical form of what an action came to, if it is over.
pub open spec fn finished_opt(r: Option<Result<ActionOutcome, ActionError>>) -> Option<
    Result<ActionOutcomeView, Seq<char>>,
> {
    match r {
        Some(x) => Some(finished(x)),
        None => None,
    }
}

} // verus!
