//! Workflow input parameter schema.

use crate::json::{Value, ValueView};
use crate::names::{opt_view, replicate_opt, Replicate};
use crate::text::opt_text;
use vstd::prelude::*;

verus! {

/// A declared input parameter.
#[derive(Debug)]
pub struct ParamSpec {
    /// Value type.
    pub ty: ParamType,
    /// Whether the caller must supply a value.
    pub required: bool,
    /// The value used when none is supplied.
    pub default: Option<Value>,
    /// Human description.
    pub description: Option<String>,
}

/// The mathematical form of a [`ParamSpec`].
pub struct ParamSpecView {
    pub ty: ParamType,
    pub required: bool,
    pub default: Option<ValueView>,
    pub description: Option<Seq<char>>,
}

impl View for ParamSpec {
    type V = ParamSpecView;

    open spec fn view(&self) -> ParamSpecView {
        ParamSpecView {
            ty: self.ty,
            required: self.required,
            default: opt_view(self.default),
            description: opt_text(self.description),
        }
    }
}

impl Replicate for ParamSpec {
    fn replicate(&self) -> (r: Self) {
        let default = replicate_opt(&self.default);
        let description = self.description.clone();
        ParamSpec { ty: self.ty, required: self.required, default, description }
    }
}

impl Default for ParamSpec {
    fn default() -> (r: Self)
        ensures
            r@ == (ParamSpecView {
                ty: ParamType::String,
                required: false,
                default: None,
                description: None,
            }),
    {
        ParamSpec { ty: ParamType::String, required: false, default: None, description: None }
    }
}

/// The value types a parameter can have.
#[derive(Clone, Copy, Debug, PartialEq, Eq, Structural)]
pub enum ParamType {
    /// A text (the default).
    String,
    /// A JSON number.
    Number,
    /// A boolean.
    Bool,
}

impl Default for ParamType {
    fn default() -> (r: Self)
        ensures
            r == ParamType::String,
    {
        ParamType::String
    }
}

/// Whether a value has a parameter type.
pub open spec fn type_matches(ty: ParamType, v: ValueView) -> bool {
    match ty {
        ParamType::String => v is String,
        ParamType::Number => v is Number,
        ParamType::Bool => v is Bool,
    }
}

/// The lower-case name of a parameter type.
pub open spec fn type_label(ty: ParamType) -> Seq<char> {
    match ty {
        ParamType::String => "string"@,
        ParamType::Number => "number"@,
        ParamType::Bool => "bool"@,
    }
}

impl ParamType {
    /// Whether `value` has this type.
    pub fn matches(self, value: &Value) -> (r: bool)
        ensures
            r == type_matches(self, value@),
    {
        match self {
            ParamType::String => value.is_string(),
            ParamType::Number => value.is_number(),
            ParamType::Bool => value.is_boolean(),
        }
    }

    /// The lower-case type name: `"string"`, `"number"` or `"bool"`.
    pub fn name(self) -> (r: &'static str)
        ensures
            r@ == type_label(self),
    {
        match self {
            ParamType::String => "string",
            ParamType::Number => "number",
            ParamType::Bool => "bool",
        }
    }
}

/// A param's type takes the values of that type, and no others.
pub proof fn a_type_takes_its_own_values(t: Seq<char>, b: bool, other: ValueView)
    ensures
        type_matches(ParamType::String, ValueView::String(t)),
        type_matches(ParamType::Number, ValueView::Number(t)),
        type_matches(ParamType::Bool, ValueView::Bool(b)),
        !(other is String) ==> !type_matches(ParamType::String, other),
        !(other is Number) ==> !type_matches(ParamType::Number, other),
        !(other is Bool) ==> !type_matches(ParamType::Bool, other),
{
}

/// Each type is called by its own name.
pub proof fn a_type_has_its_name()
    ensures
        type_label(ParamType::String) == "string"@,
        type_label(ParamType::Number) == "number"@,
        type_label(ParamType::Bool) == "bool"@,
{
}

} // verus!
