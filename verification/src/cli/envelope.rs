//! The machine-readable answers of commands that fail.

use crate::json::{json_string, object_text, quote_json, ObjectText};
use crate::names::views;
use crate::text::{concat3, concat4, concat5, decimal, decimal_of};
use crate::validate::diagnostic::{count_of, Severity, ValidationReport};
use vstd::prelude::*;

verus! {

/// The members of an answer.
pub open spec fn envelope_members(
    ok: bool,
    phase: Seq<char>,
    diagnostics: Seq<char>,
    error: Seq<char>,
) -> Seq<(Seq<char>, Seq<char>)> {
    Seq::empty().push(
        (
            "ok"@,
            if ok {
                "true"@
            } else {
                "false"@
            },
        ),
    ).push(("phase"@, json_string(phase))).push(("diagnostics"@, diagnostics)).push(
        ("error"@, error),
    )
}

fn envelope(ok: bool, phase: &str, diagnostics: &str, error: &str) -> (r: String)
    ensures
        r@ == object_text(envelope_members(ok, phase@, diagnostics@, error@)),
{
    let flag = if ok {
        "true"
    } else {
        "false"
    };
    let p = quote_json(phase);
    ObjectText::new().with("ok", flag).with("phase", &p).with("diagnostics", diagnostics).with(
        "error",
        error,
    ).text()
}

/// The answer of a validation: fine unless a finding is an error. `diagnostics` is the JSON of
/// the findings.
pub fn json_validation_envelope(report: &ValidationReport, diagnostics: &str) -> (r: String)
    ensures
        r@ == object_text(
            envelope_members(
                count_of(views(report.diagnostics@), Severity::Error) == 0,
                "validate"@,
                diagnostics@,
                "null"@,
            ),
        ),
{
    let ok = !report.has_errors();
    envelope(ok, "validate", diagnostics, "null")
}

/// The answer to a workflow that does not parse.
pub fn json_parse_envelope(error: &str) -> (r: String)
    ensures
        r@ == object_text(envelope_members(false, "parse"@, "[]"@, json_string(error@))),
{
    json_error_envelope("parse", error)
}

/// The answer to a failure in a phase.
pub fn json_error_envelope(phase: &str, error: &str) -> (r: String)
    ensures
        r@ == object_text(envelope_members(false, phase@, "[]"@, json_string(error@))),
{
    let e = quote_json(error);
    envelope(false, phase, "[]", &e)
}

/// The last line of a validation report.
pub open spec fn verdict_text(file: Seq<char>, errors: nat, warnings: nat) -> Seq<char> {
    if errors > 0 {
        "✗ "@ + file + ": "@ + decimal(errors) + " error(s), "@ + decimal(warnings)
            + " warning(s)"@
    } else if warnings > 0 {
        "✓ "@ + file + " is valid ("@ + decimal(warnings) + " warning(s))"@
    } else {
        "✓ "@ + file + " is valid"@
    }
}

/// The last line of a validation report.
pub fn verdict_line(file: &str, report: &ValidationReport) -> (r: String)
    ensures
        r@ == verdict_text(
            file@,
            count_of(views(report.diagnostics@), Severity::Error),
            count_of(views(report.diagnostics@), Severity::Warning),
        ),
{
    let errors = report.error_count();
    let warnings = report.warning_count();
    let e = decimal_of(errors as u128);
    let w = decimal_of(warnings as u128);
    if errors > 0 {
        let head = concat4("✗ ", file, ": ", &e);
        return concat4(&head, " error(s), ", &w, " warning(s)");
    }
    if warnings > 0 {
        return concat5("✓ ", file, " is valid (", &w, " warning(s))");
    }
    concat3("✓ ", file, " is valid")
}

/// A file with errors is told to be invalid with their number, and one without to be valid.
pub proof fn a_file_with_errors_is_invalid(file: Seq<char>, errors: nat, warnings: nat)
    ensures
        errors > 0 ==> verdict_text(file, errors, warnings) == "✗ "@ + file + ": "@ + decimal(
            errors,
        ) + " error(s), "@ + decimal(warnings) + " warning(s)"@,
        errors == 0 && warnings > 0 ==> verdict_text(file, errors, warnings) == "✓ "@ + file
            + " is valid ("@ + decimal(warnings) + " warning(s))"@,
        errors == 0 && warnings == 0 ==> verdict_text(file, errors, warnings) == "✓ "@ + file
            + " is valid"@,
{
}

/// Each member of an envelope holds what it is named after.
pub proof fn an_envelope_names_its_parts(
    ok: bool,
    phase: Seq<char>,
    diagnostics: Seq<char>,
    error: Seq<char>,
)
    ensures
        ({
            let m = envelope_members(ok, phase, diagnostics, error);
            &&& m.len() == 4
            &&& m[0] == ("ok"@, if ok {
                "true"@
            } else {
                "false"@
            })
            &&& m[1] == ("phase"@, json_string(phase))
            &&& m[2] == ("diagnostics"@, diagnostics)
            &&& m[3] == ("error"@, error)
        }),
{
}

} // verus!
