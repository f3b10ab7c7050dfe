//! What `approve` and `reject` check before they decide.

use crate::api::{Decision, RunStatus};
use crate::text::{is_blank, trim, trimmed};
use vstd::prelude::*;

verus! {

/// What a decision comes to.
#[derive(Debug)]
pub enum Submission {
    /// Record it.
    Submit { decision: Decision, note: Option<String> },
    /// Reject it and start the workflow again with the note.
    RejectAndRerun { note: String },
}

/// Checks an approval: there is nothing to run again.
pub fn plan_approve(note: Option<String>, rerun: bool) -> (r: Result<Submission, String>)
    ensures
        if rerun {
            r matches Err(e) && e@
                == "--rerun only applies to `reject` (there is nothing to redo on approve)"@
        } else {
            r == Ok::<Submission, String>(
                Submission::Submit { decision: Decision::Approved, note },
            )
        },
{
    if rerun {
        return Err(
            "--rerun only applies to `reject` (there is nothing to redo on approve)".to_owned(),
        );
    }
    Ok(Submission::Submit { decision: Decision::Approved, note })
}

/// The text of an optional note.
pub open spec fn given_note(note: Option<String>) -> Seq<char> {
    match note {
        Some(n) => n@,
        None => Seq::empty(),
    }
}

/// Checks a rejection: it needs a note, which a new run is given trimmed.
pub fn plan_reject(note: Option<String>, rerun: bool) -> (r: Result<Submission, String>)
    ensures
        if is_blank(given_note(note)) {
            r matches Err(e) && e@
                == "--note is required when rejecting (the feedback to act on)"@
        } else if rerun {
            r matches Ok(Submission::RejectAndRerun { note: n }) && n@ == trimmed(given_note(note))
        } else {
            r == Ok::<Submission, String>(
                Submission::Submit { decision: Decision::Rejected, note },
            )
        },
{
    let t = match &note {
        Some(n) => trim(n),
        None => String::new(),
    };
    assert(note is None ==> trimmed(given_note(note)).len() == 0);
    if t.as_str().is_empty() {
        return Err("--note is required when rejecting (the feedback to act on)".to_owned());
    }
    if rerun {
        return Ok(Submission::RejectAndRerun { note: t });
    }
    Ok(Submission::Submit { decision: Decision::Rejected, note })
}

/// The exit code for a run's status: a run that succeeded or waits again is no failure.
pub open spec fn exit_code_of(status: RunStatus) -> u8 {
    if status == RunStatus::Succeeded || status == RunStatus::AwaitingApproval {
        0
    } else {
        1
    }
}

/// The exit code for a run's status.
pub fn exit_for(status: RunStatus) -> (r: u8)
    ensures
        r == exit_code_of(status),
{
    match status {
        RunStatus::Succeeded | RunStatus::AwaitingApproval => 0,
        _ => 1,
    }
}

/// The program exits with zero when a run succeeded or waits for a decision, and with one when it
/// failed, was cancelled or did not end.
pub proof fn the_exit_code_tells_success(status: RunStatus)
    ensures
        status == RunStatus::Succeeded || status == RunStatus::AwaitingApproval ==> exit_code_of(
            status,
        ) == 0,
        status == RunStatus::Failed || status == RunStatus::Cancelled || status
            == RunStatus::Running || status == RunStatus::Pending ==> exit_code_of(status) == 1,
{
}

} // verus!
