//! What `cancel` answers.

use crate::api::RunStatus;
use crate::ids::{uuid_text, RunId};
use crate::json::{json_string, object_text, quote_json, ObjectText};
use crate::text::concat3;
use vstd::prelude::*;

verus! {

/// Whether a run can still be cancelled: it is not over.
pub fn is_cancellable(status: RunStatus) -> (r: bool)
    ensures
        r == !status.terminal(),
{
    !status.is_terminal()
}

/// What a request to cancel a run is answered. `requested` says whether there was a run to ask.
pub open spec fn cancel_text(run_id: RunId, requested: bool) -> Seq<char> {
    if requested {
        "⏹ cancel requested for run "@ + uuid_text(run_id.0)
            + "; if it is running it will stop within a few seconds (terminally cancelled)"@
    } else {
        "✗ no cancellable (non-terminal) run "@ + uuid_text(run_id.0) + " found in the store"@
    }
}

/// What a request to cancel a run is answered.
pub fn cancel_line(run_id: RunId, requested: bool) -> (r: String)
    ensures
        r@ == cancel_text(run_id, requested),
{
    let id = run_id.to_string();
    if requested {
        concat3(
            "⏹ cancel requested for run ",
            &id,
            "; if it is running it will stop within a few seconds (terminally cancelled)",
        )
    } else {
        concat3("✗ no cancellable (non-terminal) run ", &id, " found in the store")
    }
}

/// The members of the machine-readable answer.
pub open spec fn cancel_members(run_id: RunId, requested: bool) -> Seq<(Seq<char>, Seq<char>)> {
    Seq::empty().push(("run_id"@, json_string(uuid_text(run_id.0)))).push(
        (
            "requested"@,
            if requested {
                "true"@
            } else {
                "false"@
            },
        ),
    )
}

/// The machine-readable answer to a request to cancel a run.
pub fn cancel_json(run_id: RunId, requested: bool) -> (r: String)
    ensures
        r@ == object_text(cancel_members(run_id, requested)),
{
    let id = quote_json(&run_id.to_string());
    let flag = if requested {
        "true"
    } else {
        "false"
    };
    ObjectText::new().with("run_id", &id).with("requested", flag).text()
}

/// The exit code of a request to cancel a run.
pub fn cancel_exit(requested: bool) -> (r: u8)
    ensures
        r == (if requested {
            0u8
        } else {
            2u8
        }),
{
    if requested {
        0
    } else {
        2
    }
}

} // verus!
