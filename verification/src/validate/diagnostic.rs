//! Findings of the workflow checks.

use crate::names::views;
use crate::text::opt_text;
use vstd::prelude::*;

verus! {

/// The rule a finding comes from.
#[derive(Clone, Copy, Debug, PartialEq, Eq, Structural)]
pub enum DiagCode {
    /// A template names something that is not there or not visible.
    UnknownTemplateRef,
    /// A template does not compile.
    TemplateSyntax,
    /// A declared param is never referenced.
    UnusedParam,
    /// A reference escapes the static checks.
    DynamicTemplateRef,
    /// An untrusted trigger payload reaches a shell command.
    TriggerIntoShell,
}

/// How much a finding weighs.
#[derive(Clone, Copy, Debug, PartialEq, Eq, Structural)]
pub enum Severity {
    /// The workflow cannot run.
    Error,
    /// The workflow can run.
    Warning,
}

/// The severity of a rule's findings.
pub open spec fn severity_of(code: DiagCode) -> Severity {
    match code {
        DiagCode::UnknownTemplateRef => Severity::Error,
        DiagCode::TemplateSyntax => Severity::Error,
        _ => Severity::Warning,
    }
}

impl DiagCode {
    /// The stable identifier of the rule.
    pub fn as_str(self) -> (r: &'static str)
        ensures
            r@ == (match self {
                DiagCode::UnknownTemplateRef => "ODIN017"@,
                DiagCode::TemplateSyntax => "ODIN018"@,
                DiagCode::UnusedParam => "ODIN024"@,
                DiagCode::DynamicTemplateRef => "ODIN029"@,
                DiagCode::TriggerIntoShell => "ODIN031"@,
            }),
    {
        match self {
            DiagCode::UnknownTemplateRef => "ODIN017",
            DiagCode::TemplateSyntax => "ODIN018",
            DiagCode::UnusedParam => "ODIN024",
            DiagCode::DynamicTemplateRef => "ODIN029",
            DiagCode::TriggerIntoShell => "ODIN031",
        }
    }

    /// The severity of the rule's findings.
    pub fn severity(self) -> (r: Severity)
        ensures
            r == severity_of(self),
    {
        match self {
            DiagCode::UnknownTemplateRef => Severity::Error,
            DiagCode::TemplateSyntax => Severity::Error,
            _ => Severity::Warning,
        }
    }
}

/// One finding.
#[derive(Debug)]
pub struct Diagnostic {
    /// The rule.
    pub code: DiagCode,
    /// Where in the workflow, as a structural pointer such as `steps[0].run`.
    pub pointer: String,
    /// What is wrong.
    pub message: String,
    /// What to do about it.
    pub help: Option<String>,
}

/// The mathematical form of a [`Diagnostic`].
#[verifier::ext_equal]
pub struct DiagView {
    pub code: DiagCode,
    pub pointer: Seq<char>,
    pub message: Seq<char>,
    pub help: Option<Seq<char>>,
}

impl View for Diagnostic {
    type V = DiagView;

    open spec fn view(&self) -> DiagView {
        DiagView {
            code: self.code,
            pointer: self.pointer@,
            message: self.message@,
            help: opt_text(self.help),
        }
    }
}

/// A finding without help.
pub open spec fn plain(code: DiagCode, pointer: Seq<char>, message: Seq<char>) -> DiagView {
    DiagView { code, pointer, message, help: None }
}

impl Diagnostic {
    /// A finding without help.
    pub fn new(code: DiagCode, pointer: String, message: String) -> (r: Self)
        ensures
            r@ == plain(code, pointer@, message@),
    {
        Diagnostic { code, pointer, message, help: None }
    }

    /// The same finding with help.
    pub fn with_help(self, help: String) -> (r: Self)
        ensures
            r@ == (DiagView { help: Some(help@), ..self@ }),
    {
        Diagnostic { code: self.code, pointer: self.pointer, message: self.message, help: Some(help) }
    }
}

/// How many findings have a severity.
pub open spec fn count_of(d: Seq<DiagView>, s: Severity) -> nat
    decreases d.len(),
{
    if d.len() == 0 {
        0
    } else {
        count_of(d.drop_last(), s) + (if severity_of(d.last().code) == s {
            1nat
        } else {
            0
        })
    }
}

/// Everything the checks found.
#[derive(Debug)]
pub struct ValidationReport {
    pub diagnostics: Vec<Diagnostic>,
}

impl ValidationReport {
    fn count(&self, s: Severity) -> (r: usize)
        ensures
            r == count_of(views(self.diagnostics@), s),
            r <= self.diagnostics@.len(),
    {
        let mut n: usize = 0;
        let mut i: usize = 0;
        while i < self.diagnostics.len()
            invariant
                i <= self.diagnostics.len(),
                n <= i,
                n == count_of(views(self.diagnostics@).take(i as int), s),
            decreases self.diagnostics.len() - i,
        {
            assert(views(self.diagnostics@).take(i + 1).drop_last() =~= views(
                self.diagnostics@,
            ).take(i as int));
            if self.diagnostics[i].code.severity() == s {
                n += 1;
            }
            i += 1;
        }
        assert(views(self.diagnostics@).take(i as int) =~= views(self.diagnostics@));
        n
    }

    /// How many findings are errors.
    pub fn error_count(&self) -> (r: usize)
        ensures
            r == count_of(views(self.diagnostics@), Severity::Error),
    {
        self.count(Severity::Error)
    }

    /// How many findings are warnings.
    pub fn warning_count(&self) -> (r: usize)
        ensures
            r == count_of(views(self.diagnostics@), Severity::Warning),
    {
        self.count(Severity::Warning)
    }

    /// Whether any finding is an error.
    pub fn has_errors(&self) -> (r: bool)
        ensures
            r == (count_of(views(self.diagnostics@), Severity::Error) > 0),
    {
        self.count(Severity::Error) > 0
    }

    /// Whether nothing was found.
    pub fn is_empty(&self) -> (r: bool)
        ensures
            r == (self.diagnostics@.len() == 0),
    {
        self.diagnostics.len() == 0
    }
}

/// Every finding is an error or a warning, never both.
pub proof fn errors_and_warnings_are_all(d: Seq<DiagView>)
    ensures
        count_of(d, Severity::Error) + count_of(d, Severity::Warning) == d.len(),
    decreases d.len(),
{
    if d.len() > 0 {
        errors_and_warnings_are_all(d.drop_last());
    }
}

/// An unknown reference and a syntax error are errors, and everything else is a warning.
pub proof fn two_findings_are_errors(code: DiagCode)
    ensures
        severity_of(code) == (if code == DiagCode::UnknownTemplateRef || code
            == DiagCode::TemplateSyntax {
            Severity::Error
        } else {
            Severity::Warning
        }),
{
}

/// The findings of a severity are counted one by one.
pub proof fn findings_are_counted(d: Seq<DiagView>)
    ensures
        count_of(d, Severity::Error) == d.filter(
            |x: DiagView|
                x.code == DiagCode::UnknownTemplateRef || x.code == DiagCode::TemplateSyntax,
        ).len(),
    decreases d.len(),
{
    reveal(Seq::filter);
    if d.len() > 0 {
        findings_are_counted(d.drop_last());
    }
}

} // verus!
