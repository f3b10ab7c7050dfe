//! Spans of time and moments as plain integers.

use vstd::prelude::*;

verus! {

/// A span of time: whole seconds and the nanoseconds beyond them.
#[derive(Clone, Copy, Debug, PartialEq, Eq, Structural)]
pub struct Duration {
    secs: u64,
    nanos: u32,
}

impl Duration {
    #[verifier::type_invariant]
    spec fn inv(self) -> bool {
        self.nanos < 1_000_000_000
    }

    /// The span of whole seconds.
    pub closed spec fn of_secs(secs: u64) -> Self {
        Duration { secs, nanos: 0 }
    }

    /// The whole seconds of the span.
    pub closed spec fn whole_secs(self) -> u64 {
        self.secs
    }

    /// The nanoseconds beyond the whole seconds.
    pub closed spec fn sub_nanos(self) -> u32 {
        self.nanos
    }

    /// A span of whole seconds.
    pub fn from_secs(secs: u64) -> (r: Self)
        ensures
            r == Self::of_secs(secs),
            r.whole_secs() == secs,
            r.sub_nanos() == 0,
    {
        Duration { secs, nanos: 0 }
    }

    /// A span of milliseconds.
    pub fn from_millis(ms: u64) -> (r: Self)
        ensures
            r.whole_secs() == ms / 1000,
            r.sub_nanos() == (ms % 1000) * 1_000_000,
    {
        Duration { secs: ms / 1000, nanos: ((ms % 1000) * 1_000_000) as u32 }
    }

    /// The whole seconds of the span.
    pub fn as_secs(&self) -> (r: u64)
        ensures
            r == self.whole_secs(),
    {
        self.secs
    }

    /// The nanoseconds beyond the whole seconds.
    pub fn subsec_nanos(&self) -> (r: u32)
        ensures
            r == self.sub_nanos(),
            r < 1_000_000_000,
    {
        proof {
            use_type_invariant(self);
        }
        self.nanos
    }

    /// The span in its shortest unit, such as `30s` or `1.5s`.
    pub fn to_text(&self) -> (r: String)
        ensures
            r@ == span_text(self.whole_secs(), self.sub_nanos()),
    {
        proof {
            use_type_invariant(self);
        }
        show_span(self.secs, self.nanos)
    }
}

/// The `Debug` form of a span, such as `30s` or `1.5s`.
pub uninterp spec fn span_text(secs: u64, nanos: u32) -> Seq<char>;

/// `std::time::Duration`'s `Debug`: the span in its shortest unit, called [`span_text`].
#[verifier::external_body]
fn show_span(secs: u64, nanos: u32) -> (r: String)
    requires
        nanos < 1_000_000_000,
    ensures
        r@ == span_text(secs, nanos),
{
    format!("{:?}", std::time::Duration::new(secs, nanos))
}

/// A moment: whole seconds since the Unix epoch, and the nanoseconds beyond them.
#[derive(Clone, Copy, Debug, PartialEq, Eq, Structural)]
pub struct Timestamp {
    pub secs: i64,
    pub nanos: u32,
}

/// The RFC 3339 form of a moment in UTC, if it lies in the years that form covers.
pub uninterp spec fn rfc3339_text(secs: i64, nanos: u32) -> Option<Seq<char>>;

/// `chrono::DateTime::from_timestamp` and its `to_rfc3339`: the moment in UTC, called
/// [`rfc3339_text`]; nothing when it is out of range.
#[verifier::external_body]
fn format_rfc3339(secs: i64, nanos: u32) -> (r: Option<String>)
    ensures
        crate::text::opt_text(r) == rfc3339_text(secs, nanos),
{
    chrono::DateTime::from_timestamp(secs, nanos).map(|t| t.to_rfc3339())
}

/// The moment that a text names in RFC 3339 form: whole seconds since the Unix epoch, and the
/// nanoseconds beyond them.
pub uninterp spec fn rfc3339_moment(text: Seq<char>) -> Option<(i64, u32)>;

/// `chrono::DateTime::parse_from_rfc3339`: the moment, called [`rfc3339_moment`]; nothing when the
/// text is no such form.
#[verifier::external_body]
fn parse_rfc3339(text: &str) -> (r: Option<(i64, u32)>)
    ensures
        r == rfc3339_moment(text@),
{
    let parsed = chrono::DateTime::parse_from_rfc3339(text).ok();
    parsed.map(|t| (t.timestamp(), t.timestamp_subsec_nanos()))
}

/// The moment that a text names in RFC 3339 form, if it names one.
pub open spec fn moment_named(text: Seq<char>) -> Option<Timestamp> {
    match rfc3339_moment(text) {
        Some(m) => Some(Timestamp { secs: m.0, nanos: m.1 }),
        None => None,
    }
}

impl Timestamp {
    /// The nanoseconds since the Unix epoch.
    pub open spec fn total(self) -> int {
        self.secs * 1_000_000_000 + self.nanos
    }

    /// The nanoseconds since the Unix epoch.
    pub fn total_nanos(&self) -> (r: i128)
        ensures
            r == self.total(),
            -10_000_000_000_000_000_000_000_000_000 < r < 10_000_000_000_000_000_000_000_000_000,
    {
        self.secs as i128 * 1_000_000_000 + self.nanos as i128
    }

    /// The moment in RFC 3339 form, if it lies in the years that form covers.
    pub fn to_rfc3339(&self) -> (r: Option<String>)
        ensures
            crate::text::opt_text(r) == rfc3339_text(self.secs, self.nanos),
    {
        format_rfc3339(self.secs, self.nanos)
    }

    /// Reads a moment in RFC 3339 form.
    pub fn from_rfc3339(text: &str) -> (r: Option<Self>)
        ensures
            r == moment_named(text@),
    {
        match parse_rfc3339(text) {
            Some(m) => Some(Timestamp { secs: m.0, nanos: m.1 }),
            None => None,
        }
    }
}

} // verus!
