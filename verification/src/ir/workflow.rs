//! The root workflow type and its metadata.

use super::duration::HumanDuration;
use super::params::ParamSpec;
use super::step::{RetrySpec, Step, StepKind};
use super::trigger::TriggerDecl;
use super::workspace::WorkspaceConfig;
use crate::error::Error;
use crate::ids::WorkflowId;
use crate::names::OrderedMap;
use crate::text::{
    ascii_lower, char_index, chars_of, concat2, concat3, debug_quoted, decimal, decimal_of,
    index_of_char, is_digit, is_white, lemma_char_index_unique, lemma_decimal, lemma_trimmed_ends,
    lemma_trimmed_fixed, lower_chars, lowered, parse_unsigned, quote_debug, slice_of, text_eq,
    text_of, texts, trim_chars, trimmed, unsigned_value,
};
use vstd::prelude::*;
use vstd::std_specs::convert::FromSpecImpl;

verus! {

/// The schema major this engine speaks.
pub const CURRENT_SCHEMA_MAJOR: u16 = 1;

/// The schema minor this engine speaks.
pub const CURRENT_SCHEMA_MINOR: u16 = 0;

/// A parsed, not yet validated workflow definition.
#[derive(Debug)]
pub struct Workflow {
    /// Schema version of the file format.
    pub schema_version: SchemaVersion,
    /// Stable identity and display name.
    pub name: WorkflowId,
    /// Author's version of the content.
    pub version: Option<String>,
    /// Human description.
    pub description: Option<String>,
    /// Normalized labels.
    pub tags: Vec<String>,
    /// Whether runs are checkpointed to the store.
    pub durable: bool,
    /// How per-run workspaces are provisioned.
    pub workspace: WorkspaceConfig,
    /// Declared triggers.
    pub triggers: Vec<TriggerDecl>,
    /// Input parameter schema, by name.
    pub params: OrderedMap<ParamSpec>,
    /// The steps, a graph by each step's `depends_on`.
    pub steps: Vec<Step>,
    /// Defaults of steps that omit their own.
    pub defaults: WorkflowDefaults,
    /// The most steps that execute at once; none means one.
    pub max_parallel: Option<usize>,
}

/// Whether a workflow has an approval gate among its steps.
pub open spec fn has_gate(steps: Seq<Step>) -> bool {
    exists|i: int| 0 <= i < steps.len() && (#[trigger] steps[i]).kind is Approval
}

/// The number of steps that may execute at once: at least one.
pub open spec fn parallel_limit(max_parallel: Option<usize>) -> usize {
    match max_parallel {
        Some(n) => if n >= 1 {
            n
        } else {
            1
        },
        None => 1,
    }
}

impl Workflow {
    /// The number of steps that may execute at once.
    pub fn parallelism(&self) -> (r: usize)
        ensures
            r == parallel_limit(self.max_parallel),
            r >= 1,
    {
        match self.max_parallel {
            Some(n) => if n >= 1 {
                n
            } else {
                1
            },
            None => 1,
        }
    }

    /// Whether the workflow has an approval gate.
    pub fn has_approval(&self) -> (r: bool)
        ensures
            r == has_gate(self.steps@),
    {
        let mut i: usize = 0;
        while i < self.steps.len()
            invariant
                i <= self.steps.len(),
                forall|j: int| 0 <= j < i ==> !((#[trigger] self.steps@[j]).kind is Approval),
            decreases self.steps.len() - i,
        {
            if matches!(self.steps[i].kind, StepKind::Approval(_)) {
                return true;
            }
            i += 1;
        }
        false
    }
}

/// Checks a workflow's schema version: only its major has to be the one this engine speaks.
pub fn check_schema(version: SchemaVersion) -> (r: Result<(), Error>)
    ensures
        if version.major == CURRENT_SCHEMA_MAJOR {
            r is Ok
        } else {
            r == Err::<(), Error>(
                Error::SchemaVersion {
                    found_major: version.major,
                    supported_major: CURRENT_SCHEMA_MAJOR,
                },
            )
        },
{
    if version.major != CURRENT_SCHEMA_MAJOR {
        return Err(
            Error::SchemaVersion {
                found_major: version.major,
                supported_major: CURRENT_SCHEMA_MAJOR,
            },
        );
    }
    Ok(())
}

/// What a workflow is by default: durable.
pub fn default_true() -> (r: bool)
    ensures
        r,
{
    true
}

// ---------------------------------------------------------------------------------------------
// Tags
// ---------------------------------------------------------------------------------------------
/// One tag in its normal form: trimmed, ASCII letters lowercased.
pub open spec fn normal_tag(t: Seq<char>) -> Seq<char> {
    lowered(trimmed(t))
}

/// Tags in their normal form, empty ones dropped, each kept where it first occurs.
pub open spec fn normal_tags(raw: Seq<Seq<char>>) -> Seq<Seq<char>>
    decreases raw.len(),
{
    if raw.len() == 0 {
        Seq::empty()
    } else {
        let before = normal_tags(raw.drop_last());
        let tag = normal_tag(raw.last());
        if tag.len() == 0 || before.contains(tag) {
            before
        } else {
            before.push(tag)
        }
    }
}

fn holds_text(v: &Vec<String>, s: &str) -> (r: bool)
    ensures
        r == texts(v@).contains(s@),
{
    let mut i: usize = 0;
    while i < v.len()
        invariant
            i <= v.len(),
            forall|j: int| 0 <= j < i ==> texts(v@)[j] != s@,
        decreases v.len() - i,
    {
        if text_eq(&v[i], s) {
            assert(texts(v@)[i as int] == s@);
            return true;
        }
        i += 1;
    }
    false
}

/// Normalizes tags: trimmed, lowercased, empty ones dropped, duplicates collapsed onto the first.
pub fn normalize_tags(raw: &Vec<String>) -> (r: Vec<String>)
    ensures
        texts(r@) == normal_tags(texts(raw@)),
{
    let mut out: Vec<String> = Vec::new();
    let mut i: usize = 0;
    assert(texts(out@) =~= normal_tags(texts(raw@).subrange(0, 0)));
    while i < raw.len()
        invariant
            i <= raw.len(),
            texts(out@) == normal_tags(texts(raw@).subrange(0, i as int)),
        decreases raw.len() - i,
    {
        let ghost upto = texts(raw@).subrange(0, i + 1);
        assert(upto.drop_last() =~= texts(raw@).subrange(0, i as int));
        let v = chars_of(&raw[i]);
        let t = trim_chars(&v);
        let l = lower_chars(&t);
        let norm = text_of(&l);
        if l.len() > 0 && !holds_text(&out, &norm) {
            let ghost before = out@;
            out.push(norm);
            assert(texts(out@) =~= texts(before).push(norm@));
        }
        i += 1;
    }
    assert(texts(raw@).subrange(0, raw@.len() as int) =~= texts(raw@));
    out
}

proof fn lemma_lower_keeps_white(c: char)
    ensures
        is_white(ascii_lower(c)) == is_white(c),
        ascii_lower(ascii_lower(c)) == ascii_lower(c),
{
}

/// A tag in normal form is its own normal form.
pub proof fn normal_tag_is_stable(t: Seq<char>)
    ensures
        normal_tag(normal_tag(t)) == normal_tag(t),
{
    let y = trimmed(t);
    let l = lowered(y);
    lemma_trimmed_ends(t);
    if y.len() > 0 {
        lemma_lower_keeps_white(y[0]);
        lemma_lower_keeps_white(y.last());
        assert(l.last() == ascii_lower(y.last()));
    }
    lemma_trimmed_fixed(l);
    assert forall|i: int| 0 <= i < l.len() implies ascii_lower(#[trigger] l[i]) == l[i] by {
        lemma_lower_keeps_white(y[i]);
    }
    assert(lowered(l) =~= l);
}

proof fn lemma_normal_tags_shape(raw: Seq<Seq<char>>)
    ensures
        normal_tags(raw).no_duplicates(),
        forall|i: int|
            0 <= i < normal_tags(raw).len() ==> (#[trigger] normal_tags(raw)[i]).len() > 0
                && normal_tag(normal_tags(raw)[i]) == normal_tags(raw)[i],
    decreases raw.len(),
{
    if raw.len() > 0 {
        lemma_normal_tags_shape(raw.drop_last());
        normal_tag_is_stable(raw.last());
    }
}

proof fn lemma_normal_tags_fixed(t: Seq<Seq<char>>)
    requires
        t.no_duplicates(),
        forall|i: int|
            0 <= i < t.len() ==> (#[trigger] t[i]).len() > 0 && normal_tag(t[i]) == t[i],
    ensures
        normal_tags(t) == t,
    decreases t.len(),
{
    if t.len() > 0 {
        let before = t.drop_last();
        assert forall|i: int| 0 <= i < before.len() implies (#[trigger] before[i]).len() > 0
            && normal_tag(before[i]) == before[i] by {
            assert(before[i] == t[i]);
        }
        assert(before.no_duplicates());
        lemma_normal_tags_fixed(before);
        let last = t.last();
        assert(t[t.len() - 1] == last);
        if before.contains(last) {
            let k = choose|k: int| 0 <= k < before.len() && before[k] == last;
            assert(t[k] == t[t.len() - 1]);
        }
        assert(before.push(last) =~= t);
    } else {
        assert(t =~= Seq::<Seq<char>>::empty());
    }
}

/// Normalizing tags twice is normalizing them once.
pub proof fn tag_normalization_is_stable(raw: Seq<Seq<char>>)
    ensures
        normal_tags(normal_tags(raw)) == normal_tags(raw),
{
    lemma_normal_tags_shape(raw);
    lemma_normal_tags_fixed(normal_tags(raw));
}

// ---------------------------------------------------------------------------------------------
// Defaults and schema version
// ---------------------------------------------------------------------------------------------
/// Defaults applied to steps that do not override them.
#[derive(Debug)]
pub struct WorkflowDefaults {
    /// Default per-step timeout.
    pub timeout: Option<HumanDuration>,
    /// Default retry policy.
    pub retry: Option<RetrySpec>,
}

impl WorkflowDefaults {
    /// Whether no defaults are set.
    pub fn is_empty(&self) -> (r: bool)
        ensures
            r == (self.timeout is None && self.retry is None),
    {
        self.timeout.is_none() && self.retry.is_none()
    }
}

/// `MAJOR.MINOR` version of the file format. Only the major gates compatibility.
#[derive(Clone, Copy, Debug, PartialEq, Eq, Structural)]
pub struct SchemaVersion {
    /// Breaking version.
    pub major: u16,
    /// Additive version.
    pub minor: u16,
}

impl Default for SchemaVersion {
    fn default() -> (r: Self)
        ensures
            r == (SchemaVersion { major: CURRENT_SCHEMA_MAJOR, minor: 0 }),
    {
        SchemaVersion { major: CURRENT_SCHEMA_MAJOR, minor: 0 }
    }
}

/// A version's text.
pub open spec fn version_text(v: SchemaVersion) -> Seq<char> {
    decimal(v.major as nat) + "."@ + decimal(v.minor as nat)
}

/// The version a text stands for, or the message that refuses it: the text is split at its first
/// dot, and both sides are numbers that a `u16` holds.
pub open spec fn version_of(s: Seq<char>) -> Result<SchemaVersion, Seq<char>> {
    let n = char_index(s, '.') as int;
    if n >= s.len() {
        Err("expected MAJOR.MINOR, got "@ + debug_quoted(s))
    } else {
        let major = unsigned_value(s.take(n), u16::MAX as nat);
        let minor = unsigned_value(s.skip(n + 1), u16::MAX as nat);
        match major {
            None => Err("invalid major in schema_version "@ + debug_quoted(s)),
            Some(a) => match minor {
                None => Err("invalid minor in schema_version "@ + debug_quoted(s)),
                Some(b) => Ok(SchemaVersion { major: a as u16, minor: b as u16 }),
            },
        }
    }
}

impl SchemaVersion {
    /// Reads `MAJOR.MINOR`.
    pub fn try_from(s: String) -> (r: Result<Self, String>)
        ensures
            match r {
                Ok(v) => version_of(s@) == Ok::<SchemaVersion, Seq<char>>(v),
                Err(e) => version_of(s@) == Err::<SchemaVersion, Seq<char>>(e@),
            },
    {
        let v = chars_of(&s);
        let n = index_of_char(&v, '.', 0);
        assert(v@.skip(0) =~= v@);
        let q = quote_debug(&s);
        if n == v.len() {
            return Err(concat2("expected MAJOR.MINOR, got ", &q));
        }
        let maj = slice_of(&v, 0, n);
        let min = slice_of(&v, n + 1, v.len());
        assert(maj@ =~= s@.take(n as int));
        assert(min@ =~= s@.skip(n + 1));
        match parse_unsigned(&maj, u16::MAX as u64) {
            None => Err(concat2("invalid major in schema_version ", &q)),
            Some(a) => match parse_unsigned(&min, u16::MAX as u64) {
                None => Err(concat2("invalid minor in schema_version ", &q)),
                Some(b) => Ok(SchemaVersion { major: a as u16, minor: b as u16 }),
            },
        }
    }

    /// The text form.
    pub fn to_text(self) -> (r: String)
        ensures
            r@ == version_text(self),
    {
        let a = decimal_of(self.major as u128);
        let b = decimal_of(self.minor as u128);
        concat3(&a, ".", &b)
    }
}

impl From<SchemaVersion> for String {
    fn from(v: SchemaVersion) -> (r: String)
        ensures
            r@ == version_text(v),
    {
        v.to_text()
    }
}

impl FromSpecImpl<SchemaVersion> for String {
    open spec fn obeys_from_spec() -> bool {
        false
    }

    open spec fn from_spec(v: SchemaVersion) -> String {
        arbitrary()
    }
}

/// Writing a schema version and reading it back gives the same version.
pub proof fn schema_version_text_round_trips(v: SchemaVersion)
    ensures
        version_of(version_text(v)) == Ok::<SchemaVersion, Seq<char>>(v),
{
    reveal_strlit(".");
    let a = decimal(v.major as nat);
    let b = decimal(v.minor as nat);
    lemma_decimal(v.major as nat);
    lemma_decimal(v.minor as nat);
    let s = version_text(v);
    assert("."@ =~= seq!['.']);
    assert forall|i: int| 0 <= i < a.len() implies s[i] != '.' by {
        assert(s[i] == a[i]);
        assert(is_digit(a[i]));
    }
    assert(s[a.len() as int] == '.');
    lemma_char_index_unique(s, '.', a.len() as int);
    assert(s.take(a.len() as int) =~= a);
    assert(s.skip(a.len() as int + 1) =~= b);
    assert(is_digit(a[0]));
    assert(is_digit(b[0]));
}

/// At least one step may run at once, as many as the workflow says, and one when it says nothing.
pub proof fn some_step_may_always_run(n: usize)
    ensures
        parallel_limit(None) == 1,
        parallel_limit(Some(0)) == 1,
        n >= 1 ==> parallel_limit(Some(n)) == n,
{
}

/// The tags of a workflow are those it is given, in lower case and without the space around them,
/// each once, and none that is blank.
pub proof fn tags_are_kept_once(raw: Seq<Seq<char>>, tag: Seq<char>)
    ensures
        normal_tags(raw).contains(tag) == (tag.len() > 0 && exists|i: int|
            0 <= i < raw.len() && lowered(trimmed(#[trigger] raw[i])) == tag),
        normal_tags(raw).no_duplicates(),
    decreases raw.len(),
{
    if raw.len() > 0 {
        let d = raw.drop_last();
        tags_are_kept_once(d, tag);
        let before = normal_tags(d);
        let all = normal_tags(raw);
        let t = normal_tag(raw.last());
        tags_are_kept_once(d, t);
        assert(lowered(trimmed(raw[raw.len() - 1])) == t);
        if before.contains(tag) {
            let k = choose|k: int| 0 <= k < before.len() && before[k] == tag;
            assert(all[k] == tag);
            let i = choose|i: int| 0 <= i < d.len() && lowered(trimmed(#[trigger] d[i])) == tag;
            assert(raw[i] == d[i]);
        }
        if t.len() > 0 && !before.contains(t) {
            assert(all[before.len() as int] == t);
        }
        if all.contains(tag) && !before.contains(tag) {
            let k = choose|k: int| 0 <= k < all.len() && all[k] == tag;
            if k < before.len() {
                assert(before[k] == tag);
            }
        }
        if exists|i: int| 0 <= i < raw.len() && lowered(trimmed(#[trigger] raw[i])) == tag {
            let i = choose|i: int|
                0 <= i < raw.len() && lowered(trimmed(#[trigger] raw[i])) == tag;
            if i < d.len() {
                assert(d[i] == raw[i]);
            }
        }
    }
}

/// A workflow has a gate exactly when one of its steps is an approval.
pub proof fn an_approval_is_a_gate(steps: Seq<Step>, i: int)
    ensures
        0 <= i < steps.len() && steps[i].kind is Approval ==> has_gate(steps),
        (forall|k: int| 0 <= k < steps.len() ==> !((#[trigger] steps[k]).kind is Approval))
            ==> !has_gate(steps),
{
}

} // verus!
