//! Steps and the exactly-one-of choice of their kind.

use super::duration::HumanDuration;
use crate::ids::{ArtifactName, ProviderRef, StepId};
use crate::json::{Value, ValueView};
use crate::names::OrderedMap;
use vstd::prelude::*;

verus! {

/// One node in the workflow graph.
#[derive(Debug)]
pub struct Step {
    /// Stable, author-assigned id.
    pub id: StepId,
    /// What the step does.
    pub kind: StepKind,
    /// Named artifact data-flow on top of the shared workdir.
    pub artifacts: Artifacts,
    /// Gate commands by name, in order. All must exit 0.
    pub gates: OrderedMap<String>,
    /// Optional judge over this step's output.
    pub judge: Option<JudgeSpec>,
    /// Retry policy.
    pub retry: RetrySpec,
    /// Wall-clock timeout of the step body.
    pub timeout: Option<HumanDuration>,
    /// Boolean template expression; the step is skipped when it is false.
    pub when: Option<String>,
    /// Ids of the steps that must complete before this one.
    pub depends_on: Vec<StepId>,
    /// Run in a throwaway worktree instead of the shared workdir.
    pub scratch: bool,
}

/// Whether a flag is off.
pub fn is_false(b: &bool) -> (r: bool)
    ensures
        r == !*b,
{
    !*b
}

/// The body of a step.
#[derive(Debug)]
pub enum StepKind {
    /// Invoke a coding-agent provider with a prompt.
    Provider(ProviderStep),
    /// Run a registered action.
    Action(ActionStep),
    /// Run a shell command.
    Run(RunStep),
    /// Pause until a person approves or rejects.
    Approval(ApprovalStep),
    /// Record which of several labeled branches to take.
    Case(CaseStep),
    /// Repeat inner steps until a guard holds.
    Loop(LoopStep),
}

/// How many of the kind fields are present.
pub open spec fn kinds_present(
    provider: bool,
    action: bool,
    run: bool,
    approval: bool,
    case: bool,
    looped: bool,
) -> int {
    (if provider {
        1int
    } else {
        0
    }) + (if action {
        1int
    } else {
        0
    }) + (if run {
        1int
    } else {
        0
    }) + (if approval {
        1int
    } else {
        0
    }) + (if case {
        1int
    } else {
        0
    }) + (if looped {
        1int
    } else {
        0
    })
}

/// The message for a step without a kind.
pub open spec fn no_kind_message() -> Seq<char> {
    "step must declare exactly one of `provider:`, `action:`, `run:`, `approval:`, `case:`, or `loop:` (found none)"@
}

/// The message for a step with several kinds.
pub open spec fn many_kinds_message() -> Seq<char> {
    "step declares more than one of `provider:`, `action:`, `run:`, `approval:`, `case:`, `loop:` — choose exactly one"@
}

/// The message for a prompt on a step that takes none.
pub open spec fn stray_prompt_message() -> Seq<char> {
    "`prompt`/`prompt_file` are only valid on `provider:` steps"@
}

/// The message for arguments on a step that takes none.
pub open spec fn stray_with_message() -> Seq<char> {
    "`with:` is only valid on `action:` steps"@
}

/// The fields of a written step that tell its kind, as far as they are written.
#[derive(Debug)]
pub struct KindFields {
    pub provider: Option<ProviderRef>,
    pub prompt: Option<String>,
    pub prompt_file: Option<String>,
    pub action: Option<String>,
    pub with: Option<OrderedMap<Value>>,
    pub run: Option<String>,
    pub approval: Option<ApprovalStep>,
    pub case: Option<CaseStep>,
    pub looped: Option<LoopStep>,
}

/// Whether `r` is the kind that the written fields stand for, or why they stand for none.
pub open spec fn is_resolved(f: KindFields, r: Result<StepKind, String>) -> bool {
    let n = kinds_present(
        f.provider is Some,
        f.action is Some,
        f.run is Some,
        f.approval is Some,
        f.case is Some,
        f.looped is Some,
    );
    let stray_prompt = !(f.provider is Some) && (f.prompt is Some || f.prompt_file is Some);
    let stray_with = !(f.action is Some) && f.with is Some;
    if n == 0 {
        r matches Err(e) && e@ == no_kind_message()
    } else if n > 1 {
        r matches Err(e) && e@ == many_kinds_message()
    } else if stray_prompt {
        r matches Err(e) && e@ == stray_prompt_message()
    } else if stray_with {
        r matches Err(e) && e@ == stray_with_message()
    } else if f.provider is Some {
        r == Ok::<StepKind, String>(
            StepKind::Provider(
                ProviderStep {
                    provider: f.provider->0,
                    prompt: f.prompt,
                    prompt_file: f.prompt_file,
                },
            ),
        )
    } else if f.action is Some {
        r matches Ok(StepKind::Action(a)) && a.action == f.action->0 && a.with@ == (match f.with {
            Some(w) => w@,
            None => Seq::<(Seq<char>, ValueView)>::empty(),
        })
    } else if f.run is Some {
        r == Ok::<StepKind, String>(StepKind::Run(RunStep { run: f.run->0 }))
    } else if f.approval is Some {
        r == Ok::<StepKind, String>(StepKind::Approval(f.approval->0))
    } else if f.case is Some {
        r == Ok::<StepKind, String>(StepKind::Case(f.case->0))
    } else {
        r == Ok::<StepKind, String>(StepKind::Loop(f.looped->0))
    }
}

/// No field written.
pub open spec fn no_fields() -> KindFields {
    KindFields {
        provider: None,
        prompt: None,
        prompt_file: None,
        action: None,
        with: None,
        run: None,
        approval: None,
        case: None,
        looped: None,
    }
}

/// Whether `f` are the fields that a kind is written with; empty arguments are left out.
pub open spec fn is_written(kind: StepKind, f: KindFields) -> bool {
    match kind {
        StepKind::Provider(p) => f == (KindFields {
            provider: Some(p.provider),
            prompt: p.prompt,
            prompt_file: p.prompt_file,
            ..no_fields()
        }),
        StepKind::Action(a) => {
            &&& f == (KindFields { action: Some(a.action), with: f.with, ..no_fields() })
            &&& if a.with@.len() == 0 {
                f.with is None
            } else {
                f.with == Some(a.with)
            }
        },
        StepKind::Run(r) => f == (KindFields { run: Some(r.run), ..no_fields() }),
        StepKind::Approval(a) => f == (KindFields { approval: Some(a), ..no_fields() }),
        StepKind::Case(c) => f == (KindFields { case: Some(c), ..no_fields() }),
        StepKind::Loop(l) => f == (KindFields { looped: Some(l), ..no_fields() }),
    }
}

/// Whether two kinds are the same; of arguments, the entries count.
pub open spec fn is_same_kind(a: StepKind, b: StepKind) -> bool {
    match (a, b) {
        (StepKind::Action(x), StepKind::Action(y)) => x.action == y.action && x.with@ == y.with@,
        _ => a == b,
    }
}

impl StepKind {
    /// Resolves the kind fields of a step into its kind, refusing none, more than one, and a
    /// field that belongs to another kind.
    pub fn from_discriminants(
        provider: Option<ProviderRef>,
        prompt: Option<String>,
        prompt_file: Option<String>,
        action: Option<String>,
        with: Option<OrderedMap<Value>>,
        run: Option<String>,
        approval: Option<ApprovalStep>,
        case: Option<CaseStep>,
        looped: Option<LoopStep>,
    ) -> (r: Result<Self, String>)
        ensures
            is_resolved(
                KindFields {
                    provider,
                    prompt,
                    prompt_file,
                    action,
                    with,
                    run,
                    approval,
                    case,
                    looped,
                },
                r,
            ),
    {
        let mut count: u8 = 0;
        if provider.is_some() {
            count += 1;
        }
        if action.is_some() {
            count += 1;
        }
        if run.is_some() {
            count += 1;
        }
        if approval.is_some() {
            count += 1;
        }
        if case.is_some() {
            count += 1;
        }
        if looped.is_some() {
            count += 1;
        }
        if count == 0 {
            return Err(
                "step must declare exactly one of `provider:`, `action:`, `run:`, `approval:`, `case:`, or `loop:` (found none)".to_owned(),
            );
        }
        if count > 1 {
            return Err(
                "step declares more than one of `provider:`, `action:`, `run:`, `approval:`, `case:`, `loop:` — choose exactly one".to_owned(),
            );
        }
        if provider.is_none() && (prompt.is_some() || prompt_file.is_some()) {
            return Err("`prompt`/`prompt_file` are only valid on `provider:` steps".to_owned());
        }
        if action.is_none() && with.is_some() {
            return Err("`with:` is only valid on `action:` steps".to_owned());
        }
        if let Some(provider) = provider {
            Ok(StepKind::Provider(ProviderStep { provider, prompt, prompt_file }))
        } else if let Some(action) = action {
            let with = match with {
                Some(w) => w,
                None => OrderedMap::new(),
            };
            Ok(StepKind::Action(ActionStep { action, with }))
        } else if let Some(run) = run {
            Ok(StepKind::Run(RunStep { run }))
        } else if let Some(approval) = approval {
            Ok(StepKind::Approval(approval))
        } else if let Some(case) = case {
            Ok(StepKind::Case(case))
        } else {
            Ok(StepKind::Loop(looped.unwrap()))
        }
    }

    /// The fields that this kind is written with.
    pub fn kind_fields(self) -> (r: KindFields)
        ensures
            is_written(self, r),
    {
        let mut f = KindFields {
            provider: None,
            prompt: None,
            prompt_file: None,
            action: None,
            with: None,
            run: None,
            approval: None,
            case: None,
            looped: None,
        };
        match self {
            StepKind::Provider(p) => {
                f.provider = Some(p.provider);
                f.prompt = p.prompt;
                f.prompt_file = p.prompt_file;
            },
            StepKind::Action(a) => {
                f.action = Some(a.action);
                if !a.with.is_empty() {
                    f.with = Some(a.with);
                }
            },
            StepKind::Run(r) => {
                f.run = Some(r.run);
            },
            StepKind::Approval(a) => {
                f.approval = Some(a);
            },
            StepKind::Case(c) => {
                f.case = Some(c);
            },
            StepKind::Loop(l) => {
                f.looped = Some(l);
            },
        }
        f
    }
}

/// What a kind is written as is read back as that kind.
pub proof fn a_written_kind_reads_back(
    kind: StepKind,
    f: KindFields,
    r: Result<StepKind, String>,
)
    requires
        is_written(kind, f),
        is_resolved(f, r),
    ensures
        r matches Ok(k) && is_same_kind(kind, k),
{
    if let StepKind::Action(a) = kind {
        if a.with@.len() == 0 {
            assert(a.with@ =~= Seq::<(Seq<char>, ValueView)>::empty());
        }
    }
}

/// Provider-invocation body.
#[derive(Debug)]
pub struct ProviderStep {
    /// Registry key of the provider.
    pub provider: ProviderRef,
    /// Inline prompt template.
    pub prompt: Option<String>,
    /// Path to a prompt template file.
    pub prompt_file: Option<String>,
}

/// Action body.
#[derive(Debug)]
pub struct ActionStep {
    /// Registry key of the action.
    pub action: String,
    /// Free-form, templated arguments.
    pub with: OrderedMap<Value>,
}

/// Shell-command body.
#[derive(Debug)]
pub struct RunStep {
    /// Shell command line, run in the step's workdir.
    pub run: String,
}

/// Human approval gate.
#[derive(Debug)]
pub struct ApprovalStep {
    /// Message shown to the approver.
    pub message: Option<String>,
}

/// A branch selector: the first branch whose guard holds (else `else_`) is recorded.
#[derive(Debug)]
pub struct CaseStep {
    /// The labeled branches, tried in order.
    pub branches: Vec<CaseBranch>,
    /// Label recorded when no guard holds.
    pub else_: Option<String>,
}

/// One labeled arm of a [`CaseStep`].
#[derive(Debug)]
pub struct CaseBranch {
    /// The branch label.
    pub label: String,
    /// Boolean guard; none always holds.
    pub when: Option<String>,
}

/// A loop over inner steps.
#[derive(Debug)]
pub struct LoopStep {
    /// Boolean guard evaluated after each full iteration; the loop ends when it holds.
    pub until: String,
    /// The most iterations the loop makes.
    pub max: u8,
    /// The inner steps.
    pub steps: Vec<Step>,
}

/// Artifact data-flow declared by a step.
#[derive(Debug)]
pub struct Artifacts {
    /// Artifacts this step needs before it runs.
    pub requires_: Vec<ArtifactName>,
    /// Artifacts this step is expected to produce.
    pub produces: Vec<ArtifactName>,
}

impl Artifacts {
    /// Nothing needed, nothing produced.
    pub fn none() -> (r: Self)
        ensures
            r.requires_@.len() == 0,
            r.produces@.len() == 0,
    {
        Artifacts { requires_: Vec::new(), produces: Vec::new() }
    }

    /// Whether nothing is needed and nothing produced.
    pub fn is_empty(&self) -> (r: bool)
        ensures
            r == (self.requires_@.len() == 0 && self.produces@.len() == 0),
    {
        self.requires_.len() == 0 && self.produces.len() == 0
    }
}

/// Judge configuration of a step. The threshold is the bit pattern of a single-precision number
/// between 0 and 1.
#[derive(Debug)]
pub struct JudgeSpec {
    /// Provider used as the judge.
    pub provider: ProviderRef,
    /// Criteria the output must satisfy.
    pub criteria: String,
    /// Bit pattern of the pass threshold.
    pub threshold: u32,
}

/// Retry policy of a step.
#[derive(Debug)]
pub struct RetrySpec {
    /// Additional attempts after the first.
    pub max: u8,
    /// Delay between attempts.
    pub backoff: Backoff,
    /// Provider to switch to on final failure; carried but not acted on.
    pub on_fallback_provider: Option<ProviderRef>,
    /// What a retry is told of the failure before it.
    pub feedback: FeedbackMode,
}

impl RetrySpec {
    /// Whether this is the do-nothing default.
    pub fn is_noop(&self) -> (r: bool)
        ensures
            r == (self.max == 0 && self.backoff == Backoff::Fixed
                && self.on_fallback_provider is None && self.feedback == FeedbackMode::Off),
    {
        self.max == 0 && self.backoff == Backoff::Fixed && self.on_fallback_provider.is_none()
            && self.feedback == FeedbackMode::Off
    }
}

impl Default for RetrySpec {
    fn default() -> (r: Self)
        ensures
            r == (RetrySpec {
                max: 0,
                backoff: Backoff::Fixed,
                on_fallback_provider: None,
                feedback: FeedbackMode::Off,
            }),
    {
        RetrySpec {
            max: 0,
            backoff: Backoff::Fixed,
            on_fallback_provider: None,
            feedback: FeedbackMode::Off,
        }
    }
}

/// Delay between retry attempts.
#[derive(Clone, Copy, Debug, PartialEq, Eq, Structural)]
pub enum Backoff {
    /// The same delay each time. The default.
    Fixed,
    /// A delay that doubles.
    Exponential,
}

/// What `retry.feedback` carries of the failure before a retry.
#[derive(Clone, Copy, Debug, PartialEq, Eq, Structural)]
pub enum FeedbackMode {
    /// Nothing. The default.
    Off,
    /// The first line that is not blank.
    Concise,
    /// All of it.
    Verbose,
}

/// A step is of a kind exactly when it names one kind and no more, a prompt stands only beside a
/// provider, and arguments only beside an action.
pub proof fn a_step_names_exactly_one_kind(f: KindFields, r: Result<StepKind, String>)
    requires
        is_resolved(f, r),
    ensures
        r matches Ok(k) ==> (k is Provider) == (f.provider is Some) && (k is Action) == (
        f.action is Some) && (k is Run) == (f.run is Some) && (k is Approval) == (
        f.approval is Some) && (k is Case) == (f.case is Some) && (k is Loop) == (
        f.looped is Some),
        r is Ok && f.provider is None ==> f.prompt is None && f.prompt_file is None,
        r is Ok && f.action is None ==> f.with is None,
        f.provider is None && f.action is None && f.run is None && f.approval is None
            && f.case is None && f.looped is None ==> r is Err,
        f.provider is Some && f.action is None && f.run is None && f.approval is None
            && f.case is None && f.looped is None && f.with is None ==> r is Ok,
        f.run is Some && f.provider is None && f.action is None && f.approval is None
            && f.case is None && f.looped is None && f.with is None && f.prompt is None
            && f.prompt_file is None ==> r == Ok::<StepKind, String>(
            StepKind::Run(RunStep { run: f.run->0 }),
        ),
{
}

} // verus!
