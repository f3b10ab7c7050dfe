//! Newtype identifiers.
//!
//! Each kind of name has its own type, so a step id cannot be taken for an artifact name.

use crate::json::hex_digit;
use crate::names::Replicate;
use vstd::prelude::*;
use vstd::std_specs::convert::FromSpecImpl;

verus! {

/// Author-assigned, stable identity of a workflow (its `name`).
#[derive(Debug, PartialEq, Eq, Hash, PartialOrd, Ord)]
pub struct WorkflowId(String);

impl View for WorkflowId {
    type V = Seq<char>;

    closed spec fn view(&self) -> Seq<char> {
        self.0@
    }
}

impl WorkflowId {
    /// Wraps a text as this kind of name.
    pub fn new(s: &str) -> (r: Self)
        ensures
            r@ == s@,
    {
        WorkflowId(s.to_owned())
    }

    /// Borrows the text.
    pub fn as_str(&self) -> (r: &str)
        ensures
            r@ == self@,
    {
        self.0.as_str()
    }

    /// The text itself.
    pub fn to_string(&self) -> (r: String)
        ensures
            r@ == self@,
    {
        self.0.clone()
    }

    /// Whether two names are the same text.
    pub fn same(&self, other: &Self) -> (r: bool)
        ensures
            r == (self@ == other@),
    {
        self.0 == other.0
    }
}

impl Replicate for WorkflowId {
    fn replicate(&self) -> (r: Self) {
        WorkflowId(self.0.clone())
    }
}

impl Clone for WorkflowId {
    fn clone(&self) -> (r: Self)
        ensures
            r@ == self@,
    {
        self.replicate()
    }
}

impl<'a> From<&'a str> for WorkflowId {
    fn from(s: &'a str) -> (r: Self)
        ensures
            r@ == s@,
    {
        WorkflowId::new(s)
    }
}

impl<'a> FromSpecImpl<&'a str> for WorkflowId {
    open spec fn obeys_from_spec() -> bool {
        false
    }

    open spec fn from_spec(s: &'a str) -> Self {
        arbitrary()
    }
}

impl From<String> for WorkflowId {
    fn from(s: String) -> (r: Self)
        ensures
            r@ == s@,
    {
        WorkflowId(s)
    }
}

impl FromSpecImpl<String> for WorkflowId {
    open spec fn obeys_from_spec() -> bool {
        false
    }

    open spec fn from_spec(s: String) -> Self {
        arbitrary()
    }
}

/// Author-assigned, stable id of a step, unique within a workflow.
#[derive(Debug, PartialEq, Eq, Hash, PartialOrd, Ord)]
pub struct StepId(String);

impl View for StepId {
    type V = Seq<char>;

    closed spec fn view(&self) -> Seq<char> {
        self.0@
    }
}

impl StepId {
    /// Wraps a text as this kind of name.
    pub fn new(s: &str) -> (r: Self)
        ensures
            r@ == s@,
    {
        StepId(s.to_owned())
    }

    /// Borrows the text.
    pub fn as_str(&self) -> (r: &str)
        ensures
            r@ == self@,
    {
        self.0.as_str()
    }

    /// The text itself.
    pub fn to_string(&self) -> (r: String)
        ensures
            r@ == self@,
    {
        self.0.clone()
    }

    /// Whether two names are the same text.
    pub fn same(&self, other: &Self) -> (r: bool)
        ensures
            r == (self@ == other@),
    {
        self.0 == other.0
    }
}

impl Replicate for StepId {
    fn replicate(&self) -> (r: Self) {
        StepId(self.0.clone())
    }
}

impl Clone for StepId {
    fn clone(&self) -> (r: Self)
        ensures
            r@ == self@,
    {
        self.replicate()
    }
}

impl<'a> From<&'a str> for StepId {
    fn from(s: &'a str) -> (r: Self)
        ensures
            r@ == s@,
    {
        StepId::new(s)
    }
}

impl<'a> FromSpecImpl<&'a str> for StepId {
    open spec fn obeys_from_spec() -> bool {
        false
    }

    open spec fn from_spec(s: &'a str) -> Self {
        arbitrary()
    }
}

impl From<String> for StepId {
    fn from(s: String) -> (r: Self)
        ensures
            r@ == s@,
    {
        StepId(s)
    }
}

impl FromSpecImpl<String> for StepId {
    open spec fn obeys_from_spec() -> bool {
        false
    }

    open spec fn from_spec(s: String) -> Self {
        arbitrary()
    }
}

/// Name of an artifact, e.g. `DIFF`.
#[derive(Debug, PartialEq, Eq, Hash, PartialOrd, Ord)]
pub struct ArtifactName(String);

impl View for ArtifactName {
    type V = Seq<char>;

    closed spec fn view(&self) -> Seq<char> {
        self.0@
    }
}

impl ArtifactName {
    /// Wraps a text as this kind of name.
    pub fn new(s: &str) -> (r: Self)
        ensures
            r@ == s@,
    {
        ArtifactName(s.to_owned())
    }

    /// Borrows the text.
    pub fn as_str(&self) -> (r: &str)
        ensures
            r@ == self@,
    {
        self.0.as_str()
    }

    /// The text itself.
    pub fn to_string(&self) -> (r: String)
        ensures
            r@ == self@,
    {
        self.0.clone()
    }

    /// Whether two names are the same text.
    pub fn same(&self, other: &Self) -> (r: bool)
        ensures
            r == (self@ == other@),
    {
        self.0 == other.0
    }
}

impl Replicate for ArtifactName {
    fn replicate(&self) -> (r: Self) {
        ArtifactName(self.0.clone())
    }
}

impl Clone for ArtifactName {
    fn clone(&self) -> (r: Self)
        ensures
            r@ == self@,
    {
        self.replicate()
    }
}

impl<'a> From<&'a str> for ArtifactName {
    fn from(s: &'a str) -> (r: Self)
        ensures
            r@ == s@,
    {
        ArtifactName::new(s)
    }
}

impl<'a> FromSpecImpl<&'a str> for ArtifactName {
    open spec fn obeys_from_spec() -> bool {
        false
    }

    open spec fn from_spec(s: &'a str) -> Self {
        arbitrary()
    }
}

impl From<String> for ArtifactName {
    fn from(s: String) -> (r: Self)
        ensures
            r@ == s@,
    {
        ArtifactName(s)
    }
}

impl FromSpecImpl<String> for ArtifactName {
    open spec fn obeys_from_spec() -> bool {
        false
    }

    open spec fn from_spec(s: String) -> Self {
        arbitrary()
    }
}

/// Name of a workflow input parameter.
#[derive(Debug, PartialEq, Eq, Hash, PartialOrd, Ord)]
pub struct ParamName(String);

impl View for ParamName {
    type V = Seq<char>;

    closed spec fn view(&self) -> Seq<char> {
        self.0@
    }
}

impl ParamName {
    /// Wraps a text as this kind of name.
    pub fn new(s: &str) -> (r: Self)
        ensures
            r@ == s@,
    {
        ParamName(s.to_owned())
    }

    /// Borrows the text.
    pub fn as_str(&self) -> (r: &str)
        ensures
            r@ == self@,
    {
        self.0.as_str()
    }

    /// The text itself.
    pub fn to_string(&self) -> (r: String)
        ensures
            r@ == self@,
    {
        self.0.clone()
    }

    /// Whether two names are the same text.
    pub fn same(&self, other: &Self) -> (r: bool)
        ensures
            r == (self@ == other@),
    {
        self.0 == other.0
    }
}

impl Replicate for ParamName {
    fn replicate(&self) -> (r: Self) {
        ParamName(self.0.clone())
    }
}

impl Clone for ParamName {
    fn clone(&self) -> (r: Self)
        ensures
            r@ == self@,
    {
        self.replicate()
    }
}

impl<'a> From<&'a str> for ParamName {
    fn from(s: &'a str) -> (r: Self)
        ensures
            r@ == s@,
    {
        ParamName::new(s)
    }
}

impl<'a> FromSpecImpl<&'a str> for ParamName {
    open spec fn obeys_from_spec() -> bool {
        false
    }

    open spec fn from_spec(s: &'a str) -> Self {
        arbitrary()
    }
}

impl From<String> for ParamName {
    fn from(s: String) -> (r: Self)
        ensures
            r@ == s@,
    {
        ParamName(s)
    }
}

impl FromSpecImpl<String> for ParamName {
    open spec fn obeys_from_spec() -> bool {
        false
    }

    open spec fn from_spec(s: String) -> Self {
        arbitrary()
    }
}

/// Name of a per-step gate command.
#[derive(Debug, PartialEq, Eq, Hash, PartialOrd, Ord)]
pub struct GateName(String);

impl View for GateName {
    type V = Seq<char>;

    closed spec fn view(&self) -> Seq<char> {
        self.0@
    }
}

impl GateName {
    /// Wraps a text as this kind of name.
    pub fn new(s: &str) -> (r: Self)
        ensures
            r@ == s@,
    {
        GateName(s.to_owned())
    }

    /// Borrows the text.
    pub fn as_str(&self) -> (r: &str)
        ensures
            r@ == self@,
    {
        self.0.as_str()
    }

    /// The text itself.
    pub fn to_string(&self) -> (r: String)
        ensures
            r@ == self@,
    {
        self.0.clone()
    }

    /// Whether two names are the same text.
    pub fn same(&self, other: &Self) -> (r: bool)
        ensures
            r == (self@ == other@),
    {
        self.0 == other.0
    }
}

impl Replicate for GateName {
    fn replicate(&self) -> (r: Self) {
        GateName(self.0.clone())
    }
}

impl Clone for GateName {
    fn clone(&self) -> (r: Self)
        ensures
            r@ == self@,
    {
        self.replicate()
    }
}

impl<'a> From<&'a str> for GateName {
    fn from(s: &'a str) -> (r: Self)
        ensures
            r@ == s@,
    {
        GateName::new(s)
    }
}

impl<'a> FromSpecImpl<&'a str> for GateName {
    open spec fn obeys_from_spec() -> bool {
        false
    }

    open spec fn from_spec(s: &'a str) -> Self {
        arbitrary()
    }
}

impl From<String> for GateName {
    fn from(s: String) -> (r: Self)
        ensures
            r@ == s@,
    {
        GateName(s)
    }
}

impl FromSpecImpl<String> for GateName {
    open spec fn obeys_from_spec() -> bool {
        false
    }

    open spec fn from_spec(s: String) -> Self {
        arbitrary()
    }
}

/// Reference to a provider by registry key, e.g. `"codex"`.
#[derive(Debug, PartialEq, Eq, Hash, PartialOrd, Ord)]
pub struct ProviderRef(String);

impl View for ProviderRef {
    type V = Seq<char>;

    closed spec fn view(&self) -> Seq<char> {
        self.0@
    }
}

impl ProviderRef {
    /// Wraps a text as this kind of name.
    pub fn new(s: &str) -> (r: Self)
        ensures
            r@ == s@,
    {
        ProviderRef(s.to_owned())
    }

    /// Borrows the text.
    pub fn as_str(&self) -> (r: &str)
        ensures
            r@ == self@,
    {
        self.0.as_str()
    }

    /// The text itself.
    pub fn to_string(&self) -> (r: String)
        ensures
            r@ == self@,
    {
        self.0.clone()
    }

    /// Whether two names are the same text.
    pub fn same(&self, other: &Self) -> (r: bool)
        ensures
            r == (self@ == other@),
    {
        self.0 == other.0
    }
}

impl Replicate for ProviderRef {
    fn replicate(&self) -> (r: Self) {
        ProviderRef(self.0.clone())
    }
}

impl Clone for ProviderRef {
    fn clone(&self) -> (r: Self)
        ensures
            r@ == self@,
    {
        self.replicate()
    }
}

impl<'a> From<&'a str> for ProviderRef {
    fn from(s: &'a str) -> (r: Self)
        ensures
            r@ == s@,
    {
        ProviderRef::new(s)
    }
}

impl<'a> FromSpecImpl<&'a str> for ProviderRef {
    open spec fn obeys_from_spec() -> bool {
        false
    }

    open spec fn from_spec(s: &'a str) -> Self {
        arbitrary()
    }
}

impl From<String> for ProviderRef {
    fn from(s: String) -> (r: Self)
        ensures
            r@ == s@,
    {
        ProviderRef(s)
    }
}

impl FromSpecImpl<String> for ProviderRef {
    open spec fn obeys_from_spec() -> bool {
        false
    }

    open spec fn from_spec(s: String) -> Self {
        arbitrary()
    }
}

/// The 128-bit value that a text names as a UUID, if it names one.
pub uninterp spec fn uuid_value(s: Seq<char>) -> Option<u128>;

/// The last `n` hexadecimal digits of a number, in lower case.
pub open spec fn hex_digits(v: nat, n: nat) -> Seq<char>
    decreases n,
{
    if n == 0 {
        Seq::empty()
    } else {
        hex_digits(v / 16, (n - 1) as nat).push(hex_digit((v % 16) as int))
    }
}

/// A UUID's hyphenated lower-case form: its 32 hexadecimal digits, in groups of 8, 4, 4, 4 and 12.
pub open spec fn uuid_text(v: u128) -> Seq<char> {
    let d = hex_digits(v as nat, 32);
    d.subrange(0, 8) + seq!['-'] + d.subrange(8, 12) + seq!['-'] + d.subrange(12, 16) + seq!['-']
        + d.subrange(16, 20) + seq!['-'] + d.subrange(20, 32)
}

proof fn lemma_hex_digits_len(v: nat, n: nat)
    ensures
        hex_digits(v, n).len() == n,
    decreases n,
{
    if n > 0 {
        lemma_hex_digits_len(v / 16, (n - 1) as nat);
    }
}

/// Whether `v` carries the version and variant bits of a random (version 4) UUID.
pub open spec fn is_v4(v: u128) -> bool {
    (v & 0xF0000000000000000000u128) == 0x40000000000000000000u128 && (v
        & 0xC000000000000000u128) == 0x8000000000000000u128
}

/// `uuid::Uuid::new_v4`: a random value with the version and variant bits set; nothing else is
/// fixed.
#[verifier::external_body]
fn random_uuid() -> (r: u128)
    ensures
        is_v4(r),
{
    uuid::Uuid::new_v4().as_u128()
}

/// `uuid::Uuid::parse_str`: the value the text names, called [`uuid_value`]; nothing when it
/// names none.
#[verifier::external_body]
fn parse_uuid(s: &str) -> (r: Option<u128>)
    ensures
        r == uuid_value(s@),
{
    uuid::Uuid::parse_str(s).ok().map(|u| u.as_u128())
}

/// `uuid::Uuid`'s `Display`: the hyphenated lower-case form, which parses back to the same value.
#[verifier::external_body]
fn format_uuid(v: u128) -> (r: String)
    ensures
        r@ == uuid_text(v),
        uuid_value(r@) == Some(v),
{
    uuid::Uuid::from_u128(v).to_string()
}

/// A run-instance identifier (a random UUID). A workflow is a definition; a run is one execution
/// of it.
#[derive(Clone, Copy, Debug, PartialEq, Eq, Hash, PartialOrd, Ord, Structural)]
pub struct RunId(pub u128);

impl View for RunId {
    type V = u128;

    open spec fn view(&self) -> u128 {
        self.0
    }
}

impl RunId {
    /// A fresh random run id.
    pub fn new() -> (r: Self)
        ensures
            is_v4(r.0),
    {
        RunId(random_uuid())
    }

    /// Reads a run id from its UUID form.
    pub fn from_str(s: &str) -> (r: Option<Self>)
        ensures
            match r {
                Some(id) => uuid_value(s@) == Some(id.0),
                None => uuid_value(s@) is None,
            },
    {
        match parse_uuid(s) {
            Some(v) => Some(RunId(v)),
            None => None,
        }
    }

    /// The hyphenated UUID form.
    pub fn to_string(&self) -> (r: String)
        ensures
            r@ == uuid_text(self.0),
            r@.len() == 36,
            uuid_value(r@) == Some(self.0),
    {
        proof {
            lemma_hex_digits_len(self.0 as nat, 32);
        }
        format_uuid(self.0)
    }
}

impl Default for RunId {
    fn default() -> (r: Self)
        ensures
            is_v4(r.0),
    {
        RunId::new()
    }
}

impl Replicate for RunId {
    fn replicate(&self) -> (r: Self) {
        *self
    }
}

} // verus!
