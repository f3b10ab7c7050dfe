//! Error taxonomy: the crate-level error by phase, and one small error for each kind of plugin.

use crate::names::views;
use crate::text::{
    concat2, concat3, concat4, concat5, decimal, decimal_of, signed_decimal, signed_decimal_of,
};
use crate::time::{span_text, Duration};
use crate::validate::diagnostic::{count_of, Severity, ValidationReport};
use vstd::prelude::*;

verus! {

/// The crate-level error, organized by the phase in which it arises.
#[derive(Debug)]
pub enum Error {
    /// The workflow file does not parse.
    Parse(String),
    /// An I/O failure.
    Io(String),
    /// The workflow parsed but failed validation.
    Validation(ValidationReport),
    /// An unsupported schema major was declared.
    SchemaVersion { found_major: u16, supported_major: u16 },
    /// A name had no registered implementation.
    Unregistered { kind: String, name: String },
    /// A run input did not satisfy the workflow's params.
    Input(String),
    /// A part of the interface that is not implemented.
    Unimplemented { feature: String },
    /// A template failed at run time.
    Template { context: String, source: String },
    /// A provider failed.
    Provider(ProviderError),
    /// A workspace failed.
    Workspace(WorkspaceError),
    /// A store failed.
    Store(StoreError),
    /// An action failed.
    Action(ActionError),
    /// A trigger failed.
    Trigger(TriggerError),
}

/// Error of a provider invocation.
#[derive(Debug)]
pub enum ProviderError {
    /// The provider's command line was not found.
    NotFound(String),
    /// No POSIX shell could be resolved.
    ShellNotFound(String),
    /// The provider exceeded its timeout.
    Timeout(Duration),
    /// The provider process exited non-zero.
    Exited { code: i32, stderr: String },
    /// Any other failure.
    Other(String),
}

/// Error of a workspace.
#[derive(Debug)]
pub enum WorkspaceError {
    /// A git operation failed.
    Git(String),
    /// A finite slot pool had no free slot.
    PoolExhausted,
    /// An I/O failure.
    Io(String),
    /// Any other failure.
    Other(String),
}

/// Error of a store.
#[derive(Debug)]
pub enum StoreError {
    /// The backend reported an error.
    Backend(String),
    /// Run state could not be serialized or deserialized.
    Serde(String),
    /// Any other failure.
    Other(String),
}

/// Error of an action.
#[derive(Debug)]
pub enum ActionError {
    /// The action name is not registered.
    Unknown(String),
    /// Any other failure.
    Other(String),
}

/// Error of a trigger.
#[derive(Debug)]
pub enum TriggerError {
    /// The event source failed.
    Source(String),
    /// Any other failure.
    Other(String),
}

/// The message of a provider error.
pub open spec fn provider_error_text(e: ProviderError) -> Seq<char> {
    match e {
        ProviderError::NotFound(s) => "provider CLI not found on PATH: "@ + s@,
        ProviderError::ShellNotFound(s) => s@,
        ProviderError::Timeout(d) => "provider timed out after "@ + span_text(d.whole_secs(), d.sub_nanos()),
        ProviderError::Exited { code, stderr } => "provider exited with code "@ + signed_decimal(
            code as int,
        ) + ": "@ + stderr@,
        ProviderError::Other(s) => s@,
    }
}

impl ProviderError {
    /// The message.
    pub fn to_string(&self) -> (r: String)
        ensures
            r@ == provider_error_text(*self),
    {
        match self {
            ProviderError::NotFound(s) => concat2("provider CLI not found on PATH: ", s),
            ProviderError::ShellNotFound(s) => s.clone(),
            ProviderError::Timeout(d) => {
                let t = d.to_text();
                concat2("provider timed out after ", &t)
            },
            ProviderError::Exited { code, stderr } => {
                let c = signed_decimal_of(*code as i64);
                concat4("provider exited with code ", &c, ": ", stderr)
            },
            ProviderError::Other(s) => s.clone(),
        }
    }
}

/// The message of a workspace error.
pub open spec fn workspace_error_text(e: WorkspaceError) -> Seq<char> {
    match e {
        WorkspaceError::Git(s) => "git error: "@ + s@,
        WorkspaceError::PoolExhausted => "no free slot in pool"@,
        WorkspaceError::Io(s) => "io error: "@ + s@,
        WorkspaceError::Other(s) => s@,
    }
}

impl WorkspaceError {
    /// The message.
    pub fn to_string(&self) -> (r: String)
        ensures
            r@ == workspace_error_text(*self),
    {
        match self {
            WorkspaceError::Git(s) => concat2("git error: ", s),
            WorkspaceError::PoolExhausted => "no free slot in pool".to_owned(),
            WorkspaceError::Io(s) => concat2("io error: ", s),
            WorkspaceError::Other(s) => s.clone(),
        }
    }
}

/// The message of a store error.
pub open spec fn store_error_text(e: StoreError) -> Seq<char> {
    match e {
        StoreError::Backend(s) => "store backend error: "@ + s@,
        StoreError::Serde(s) => "serialization error: "@ + s@,
        StoreError::Other(s) => s@,
    }
}

impl StoreError {
    /// The message.
    pub fn to_string(&self) -> (r: String)
        ensures
            r@ == store_error_text(*self),
    {
        match self {
            StoreError::Backend(s) => concat2("store backend error: ", s),
            StoreError::Serde(s) => concat2("serialization error: ", s),
            StoreError::Other(s) => s.clone(),
        }
    }
}

/// The message of an action error.
pub open spec fn action_error_text(e: ActionError) -> Seq<char> {
    match e {
        ActionError::Unknown(s) => "unknown action: "@ + s@,
        ActionError::Other(s) => s@,
    }
}

impl ActionError {
    /// The message.
    pub fn to_string(&self) -> (r: String)
        ensures
            r@ == action_error_text(*self),
    {
        match self {
            ActionError::Unknown(s) => concat2("unknown action: ", s),
            ActionError::Other(s) => s.clone(),
        }
    }
}

/// The message of a trigger error.
pub open spec fn trigger_error_text(e: TriggerError) -> Seq<char> {
    match e {
        TriggerError::Source(s) => "trigger source error: "@ + s@,
        TriggerError::Other(s) => s@,
    }
}

impl TriggerError {
    /// The message.
    pub fn to_string(&self) -> (r: String)
        ensures
            r@ == trigger_error_text(*self),
    {
        match self {
            TriggerError::Source(s) => concat2("trigger source error: ", s),
            TriggerError::Other(s) => s.clone(),
        }
    }
}

/// The message of an error.
pub open spec fn error_text(e: Error) -> Seq<char> {
    match e {
        Error::Parse(s) => "failed to parse workflow: "@ + s@,
        Error::Io(s) => "io error: "@ + s@,
        Error::Validation(r) => "workflow validation failed with "@ + decimal(
            count_of(views(r.diagnostics@), Severity::Error),
        ) + " error(s)"@,
        Error::SchemaVersion { found_major, supported_major } => "unsupported schema_version major "@
            + decimal(found_major as nat) + " (this engine speaks major "@ + decimal(
            supported_major as nat,
        ) + ")"@,
        Error::Unregistered { kind, name } => "no "@ + kind@ + " registered under name '"@ + name@
            + "'"@,
        Error::Input(s) => "invalid run input: "@ + s@,
        Error::Unimplemented { feature } => feature@ + " is not implemented yet"@,
        Error::Template { context, source } => "template error in "@ + context@ + ": "@ + source@,
        Error::Provider(p) => provider_error_text(p),
        Error::Workspace(w) => workspace_error_text(w),
        Error::Store(s) => store_error_text(s),
        Error::Action(a) => action_error_text(a),
        Error::Trigger(t) => trigger_error_text(t),
    }
}

impl Error {
    /// The message.
    pub fn to_string(&self) -> (r: String)
        ensures
            r@ == error_text(*self),
    {
        match self {
            Error::Parse(s) => concat2("failed to parse workflow: ", s),
            Error::Io(s) => concat2("io error: ", s),
            Error::Validation(r) => {
                let n = decimal_of(r.error_count() as u128);
                concat3("workflow validation failed with ", &n, " error(s)")
            },
            Error::SchemaVersion { found_major, supported_major } => {
                let a = decimal_of(*found_major as u128);
                let b = decimal_of(*supported_major as u128);
                concat5(
                    "unsupported schema_version major ",
                    &a,
                    " (this engine speaks major ",
                    &b,
                    ")",
                )
            },
            Error::Unregistered { kind, name } => concat5(
                "no ",
                kind,
                " registered under name '",
                name,
                "'",
            ),
            Error::Input(s) => concat2("invalid run input: ", s),
            Error::Unimplemented { feature } => concat2(feature, " is not implemented yet"),
            Error::Template { context, source } => concat4(
                "template error in ",
                context,
                ": ",
                source,
            ),
            Error::Provider(p) => p.to_string(),
            Error::Workspace(w) => w.to_string(),
            Error::Store(s) => s.to_string(),
            Error::Action(a) => a.to_string(),
            Error::Trigger(t) => t.to_string(),
        }
    }
}

} // verus!
