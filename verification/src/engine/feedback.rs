//! Timeouts, retries, and what is kept of a command's output.

use crate::ir::step::{Backoff, FeedbackMode, RetrySpec, Step, StepKind};
use crate::ir::workflow::WorkflowDefaults;
use crate::text::{
    byte_len, bytes_from, chars_of, concat2, concat3, decimal, decimal_of, is_blank,
    lemma_byte_len_concat, lines, lines_of, text_range, texts, trim, trim_chars, trimmed,
    utf8_width, width_of, blank,
};
use crate::time::{span_text, Duration};
use vstd::prelude::*;

verus! {

// ---------------------------------------------------------------------------------------------
// Timeouts
// ---------------------------------------------------------------------------------------------
/// The timeout, in seconds, of a step that executes a subprocess and sets none.
pub const DEFAULT_STEP_TIMEOUT_SECS: u64 = 1800;

/// Whether a kind of step executes a subprocess.
pub open spec fn executes(kind: StepKind) -> bool {
    kind is Provider || kind is Run || kind is Action
}

/// A step's timeout: its own, else the workflow's default, else half an hour for a step that
/// executes a subprocess, and none for the others.
pub open spec fn timeout_of(step: Step, defaults: WorkflowDefaults) -> Option<Duration> {
    match step.timeout {
        Some(t) => Some(t.0),
        None => match defaults.timeout {
            Some(t) => Some(t.0),
            None => if executes(step.kind) {
                Some(Duration::of_secs(DEFAULT_STEP_TIMEOUT_SECS))
            } else {
                None
            },
        },
    }
}

/// A step's timeout.
pub fn effective_timeout(step: &Step, defaults: &WorkflowDefaults) -> (r: Option<Duration>)
    ensures
        r == timeout_of(*step, *defaults),
{
    if let Some(t) = step.timeout {
        return Some(t.as_duration());
    }
    if let Some(t) = defaults.timeout {
        return Some(t.as_duration());
    }
    if matches!(step.kind, StepKind::Provider(_) | StepKind::Run(_) | StepKind::Action(_)) {
        Some(Duration::from_secs(DEFAULT_STEP_TIMEOUT_SECS))
    } else {
        None
    }
}

// ---------------------------------------------------------------------------------------------
// Clipping
// ---------------------------------------------------------------------------------------------
/// The longest end of `s` that takes at most `max` bytes.
pub open spec fn tail_within(s: Seq<char>, max: nat) -> Seq<char>
    decreases s.len(),
{
    if byte_len(s) <= max {
        s
    } else {
        tail_within(s.drop_first(), max)
    }
}

/// The longest start of `s` that takes at most `max` bytes.
pub open spec fn head_within(s: Seq<char>, max: nat) -> Seq<char>
    decreases s.len(),
{
    if s.len() == 0 || utf8_width(s[0]) > max {
        Seq::empty()
    } else {
        seq![s[0]] + head_within(s.drop_first(), (max - utf8_width(s[0])) as nat)
    }
}

/// What a kept end is: a piece of the text's end within the limit.
pub proof fn lemma_tail_within(s: Seq<char>, max: nat)
    ensures
        byte_len(tail_within(s, max)) <= max,
        tail_within(s, max).len() <= s.len(),
        tail_within(s, max) == s.skip(s.len() - tail_within(s, max).len()),
    decreases s.len(),
{
    if byte_len(s) <= max {
        assert(s.skip(0) =~= s);
    } else {
        let t = s.drop_first();
        lemma_tail_within(t, max);
        let r = tail_within(t, max);
        assert(t.skip(t.len() - r.len()) =~= s.skip(s.len() - r.len()));
    }
}

/// What a kept start is: a piece of the text's start within the limit.
pub proof fn lemma_head_within(s: Seq<char>, max: nat)
    ensures
        byte_len(head_within(s, max)) <= max,
        head_within(s, max).len() <= s.len(),
        head_within(s, max) == s.take(head_within(s, max).len() as int),
    decreases s.len(),
{
    if s.len() == 0 || utf8_width(s[0]) > max {
        assert(s.take(0) =~= Seq::<char>::empty());
    } else {
        let t = s.drop_first();
        let m = (max - utf8_width(s[0])) as nat;
        lemma_head_within(t, m);
        let r = head_within(t, m);
        let h = head_within(s, max);
        assert(h.drop_first() =~= r);
        assert(h =~= s.take(h.len() as int)) by {
            assert forall|i: int| 0 <= i < h.len() implies h[i] == s[i] by {
                if i > 0 {
                    assert(h[i] == r[i - 1]);
                    assert(r[i - 1] == t[i - 1]);
                }
            }
        }
    }
}

fn tail_start(v: &Vec<char>, max: u128) -> (i: usize)
    ensures
        i <= v.len(),
        v@.skip(i as int) == tail_within(v@, max as nat),
        i > 0 ==> byte_len(v@) > max,
        i == 0 ==> byte_len(v@) <= max,
{
    let mut n = bytes_from(v, 0);
    assert(v@.skip(0) =~= v@);
    let mut i: usize = 0;
    while n > max
        invariant
            i <= v.len(),
            n == byte_len(v@.skip(i as int)),
            tail_within(v@.skip(i as int), max as nat) == tail_within(v@, max as nat),
            i > 0 ==> byte_len(v@) > max,
            n > max ==> byte_len(v@) > max,
        decreases v.len() - i,
    {
        proof {
            if i == v.len() {
                assert(v@.skip(i as int).len() == 0);
            }
            assert(v@.skip(i as int).drop_first() =~= v@.skip(i + 1));
        }
        n = n - width_of(v[i]);
        i += 1;
    }
    i
}

fn head_end(v: &Vec<char>, max: u128) -> (i: usize)
    ensures
        i <= v.len(),
        v@.take(i as int) == head_within(v@, max as nat),
{
    let mut left: u128 = max;
    let mut i: usize = 0;
    assert(v@.skip(0) =~= v@);
    assert(v@.take(0) + head_within(v@, max as nat) =~= head_within(v@, max as nat));
    while i < v.len() && width_of(v[i]) <= left
        invariant
            i <= v.len(),
            v@.take(i as int) + head_within(v@.skip(i as int), left as nat) == head_within(
                v@,
                max as nat,
            ),
        decreases v.len() - i,
    {
        let ghost rest = v@.skip(i as int);
        assert(rest.drop_first() =~= v@.skip(i + 1));
        assert(rest[0] == v@[i as int]);
        let w = width_of(v[i]);
        assert(v@.take(i + 1) + head_within(v@.skip(i + 1), (left - w) as nat) =~= v@.take(
            i as int,
        ) + head_within(rest, left as nat));
        left = left - w;
        i += 1;
    }
    assert(head_within(v@.skip(i as int), left as nat) =~= Seq::<char>::empty());
    assert(v@.take(i as int) + Seq::<char>::empty() =~= v@.take(i as int));
    i
}

/// The end of a text within a limit, with an ellipsis before it when something was cut off.
pub open spec fn clipped_tail(s: Seq<char>, max: nat) -> Seq<char> {
    if byte_len(s) <= max {
        s
    } else {
        "…"@ + tail_within(s, max)
    }
}

/// The end of `s` within `max` bytes, with an ellipsis before it when something was cut off.
pub fn clip_tail(s: &str, max: usize) -> (r: String)
    ensures
        r@ == clipped_tail(s@, max as nat),
{
    let v = chars_of(s);
    let i = tail_start(&v, max as u128);
    let kept = text_range(&v, i, v.len());
    assert(kept@ =~= v@.skip(i as int));
    if i == 0 {
        assert(v@.skip(0) =~= v@);
        kept
    } else {
        concat2("…", &kept)
    }
}

/// A text clipped to a limit by its middle: its start, a marker with the number of bytes left
/// out, its end.
pub open spec fn clipped_middle(s: Seq<char>, max: nat) -> Seq<char> {
    if byte_len(s) <= max {
        s
    } else {
        let head = head_within(s, max / 2);
        let tail = tail_within(s, max / 2);
        head + "\n…["@ + decimal((byte_len(s) - byte_len(head) - byte_len(tail)) as nat)
            + " bytes truncated]…\n"@ + tail
    }
}

/// Caps `s` to about `max` bytes by keeping its start and its end, with a marker between them.
pub fn clip_middle(s: &str, max: usize) -> (r: String)
    ensures
        r@ == clipped_middle(s@, max as nat),
{
    let v = chars_of(s);
    let total = bytes_from(&v, 0);
    assert(v@.skip(0) =~= v@);
    if total <= max as u128 {
        return s.to_owned();
    }
    let half: u128 = (max / 2) as u128;
    let hi = head_end(&v, half);
    let lo = tail_start(&v, half);
    let head = text_range(&v, 0, hi);
    let tail = text_range(&v, lo, v.len());
    assert(head@ =~= v@.take(hi as int));
    assert(tail@ =~= v@.skip(lo as int));
    let rest = bytes_from(&v, hi);
    let kept = bytes_from(&v, lo);
    proof {
        assert(v@ =~= v@.take(hi as int) + v@.skip(hi as int));
        lemma_byte_len_concat(v@.take(hi as int), v@.skip(hi as int));
        lemma_head_within(v@, (max / 2) as nat);
        lemma_tail_within(v@, (max / 2) as nat);
    }
    let omitted: u128 = rest - kept;
    let n = decimal_of(omitted);
    let front = concat3(&head, "\n…[", &n);
    concat3(&front, " bytes truncated]…\n", &tail)
}

/// A clipped end takes at most the limit and the three bytes of an ellipsis.
pub proof fn a_clipped_tail_is_bounded(s: Seq<char>, max: nat)
    ensures
        byte_len(clipped_tail(s, max)) <= max + byte_len("…"@),
{
    if byte_len(s) > max {
        lemma_tail_within(s, max);
        lemma_byte_len_concat("…"@, tail_within(s, max));
    }
}

/// What is kept of a clipped text is its own start and its own end, each within half the limit,
/// and the marker counts exactly the bytes in between.
pub proof fn a_clipped_middle_keeps_both_ends(s: Seq<char>, max: nat)
    requires
        byte_len(s) > max,
    ensures
        ({
            let head = head_within(s, max / 2);
            let tail = tail_within(s, max / 2);
            &&& byte_len(head) <= max / 2
            &&& byte_len(tail) <= max / 2
            &&& head == s.take(head.len() as int)
            &&& tail == s.skip(s.len() - tail.len())
            &&& head.len() + tail.len() <= s.len()
            &&& byte_len(s.subrange(head.len() as int, s.len() - tail.len())) == byte_len(s)
                - byte_len(head) - byte_len(tail)
        }),
{
    let head = head_within(s, max / 2);
    let tail = tail_within(s, max / 2);
    lemma_head_within(s, max / 2);
    lemma_tail_within(s, max / 2);
    if head.len() + tail.len() > s.len() {
        // then the two overlap and cover the whole text within the limit
        let a = s.take(head.len() as int);
        let b = s.skip(head.len() as int);
        assert(s =~= a + b);
        lemma_byte_len_concat(a, b);
        let at = s.len() - tail.len();
        let front = tail.take(head.len() - at);
        assert(tail =~= front + b);
        lemma_byte_len_concat(front, b);
        assert(false);
    }
    let mid = s.subrange(head.len() as int, s.len() - tail.len());
    assert(s =~= head + mid + tail);
    lemma_byte_len_concat(head + mid, tail);
    lemma_byte_len_concat(head, mid);
}

// ---------------------------------------------------------------------------------------------
// Failure texts
// ---------------------------------------------------------------------------------------------
/// The most bytes of standard error kept in a failure message.
pub const STDERR_MAX: usize = 2000;

/// The most bytes of failure context fed to a retry.
pub const FEEDBACK_MAX: usize = 2000;

/// The most bytes of standard output kept for a step.
pub const STDOUT_MAX: usize = 1048576;

/// A failure message with the end of standard error under it.
pub open spec fn message_with_stderr(message: Seq<char>, stderr: Seq<char>) -> Seq<char> {
    let e = trimmed(stderr);
    if e.len() == 0 {
        message
    } else if byte_len(e) <= STDERR_MAX {
        message + "\nstderr:\n"@ + e
    } else {
        message + "\nstderr (last 2000 bytes):\n…"@ + tail_within(e, STDERR_MAX as nat)
    }
}

/// Puts the end of `stderr` under a failure message.
pub fn with_stderr_tail(message: &str, stderr: &str) -> (r: String)
    ensures
        r@ == message_with_stderr(message@, stderr@),
{
    let v = chars_of(stderr);
    let t = trim_chars(&v);
    if t.len() == 0 {
        return message.to_owned();
    }
    let i = tail_start(&t, STDERR_MAX as u128);
    let kept = text_range(&t, i, t.len());
    assert(kept@ =~= t@.skip(i as int));
    if i == 0 {
        assert(t@.skip(0) =~= t@);
        concat3(message, "\nstderr:\n", &kept)
    } else {
        concat3(message, "\nstderr (last 2000 bytes):\n…", &kept)
    }
}

/// The two output streams of a command as one text: standard error first, an empty one dropped.
pub open spec fn joined_streams(stdout: Seq<char>, stderr: Seq<char>) -> Seq<char> {
    let e = trimmed(stderr);
    let o = trimmed(stdout);
    if e.len() == 0 {
        o
    } else if o.len() == 0 {
        e
    } else {
        e + "\n"@ + o
    }
}

/// Joins a command's output streams into one text.
pub fn join_streams(stdout: &str, stderr: &str) -> (r: String)
    ensures
        r@ == joined_streams(stdout@, stderr@),
{
    let e = trim(stderr);
    let o = trim(stdout);
    if e.as_str().is_empty() {
        o
    } else if o.as_str().is_empty() {
        e
    } else {
        concat3(&e, "\n", &o)
    }
}

/// The first line of a text, empty when it has none.
pub open spec fn first_line_of(s: Seq<char>) -> Seq<char> {
    if lines_of(s).len() > 0 {
        lines_of(s)[0]
    } else {
        Seq::empty()
    }
}

/// The first line of a text.
pub fn first_line(s: &str) -> (r: String)
    ensures
        r@ == first_line_of(s@),
{
    let ls = lines(s);
    if ls.len() > 0 {
        assert(texts(ls@)[0] == ls@[0]@);
        ls[0].clone()
    } else {
        assert(lines_of(s@).len() == 0);
        String::new()
    }
}

/// What a retry is told: the end of the detail, or the headline when there is no detail.
pub open spec fn detail_text(headline: Seq<char>, detail: Seq<char>) -> Seq<char> {
    if is_blank(detail) {
        headline
    } else {
        clipped_tail(trimmed(detail), FEEDBACK_MAX as nat)
    }
}

/// What a retry is told of a failure.
pub fn failure_detail(headline: &str, detail: &str) -> (r: String)
    ensures
        r@ == detail_text(headline@, detail@),
{
    let d = trim(detail);
    if d.as_str().is_empty() {
        headline.to_owned()
    } else {
        clip_tail(&d, FEEDBACK_MAX)
    }
}

/// How a finished process ended.
#[derive(Clone, Copy, Debug, PartialEq, Eq, Structural)]
pub enum Ending {
    /// On its own.
    Exited,
    /// Killed at its timeout.
    TimedOut,
    /// Killed by a cancellation.
    Cancelled,
}

/// Why a process was killed, for the headline of a failure.
pub open spec fn kill_reason(ending: Ending, timeout: Option<Duration>) -> Option<Seq<char>> {
    match ending {
        Ending::TimedOut => Some(
            match timeout {
                Some(d) => "timed out after "@ + span_text(d.whole_secs(), d.sub_nanos()),
                None => "timed out"@,
            },
        ),
        Ending::Cancelled => Some("cancelled"@),
        Ending::Exited => None,
    }
}

/// Why a process was killed, if it was.
pub fn killed_reason(ending: Ending, timeout: Option<Duration>) -> (r: Option<String>)
    ensures
        crate::text::opt_text(r) == kill_reason(ending, timeout),
{
    match ending {
        Ending::TimedOut => match timeout {
            Some(d) => {
                let t = d.to_text();
                Some(concat2("timed out after ", &t))
            },
            None => Some("timed out".to_owned()),
        },
        Ending::Cancelled => Some("cancelled".to_owned()),
        Ending::Exited => None,
    }
}

// ---------------------------------------------------------------------------------------------
// Retries
// ---------------------------------------------------------------------------------------------
/// Whether a retry policy is the do-nothing default.
pub open spec fn is_noop_retry(r: RetrySpec) -> bool {
    r.max == 0 && r.backoff == Backoff::Fixed && r.on_fallback_provider is None && r.feedback
        == FeedbackMode::Off
}

/// The retry policy a step runs under: its own, unless that is the do-nothing default and the
/// workflow has one.
pub fn effective_retry<'a>(
    step_retry: &'a RetrySpec,
    default_retry: Option<&'a RetrySpec>,
) -> (r: &'a RetrySpec)
    ensures
        *r == (if is_noop_retry(*step_retry) && default_retry is Some {
            *default_retry->0
        } else {
            *step_retry
        }),
{
    if step_retry.is_noop() {
        match default_retry {
            Some(d) => d,
            None => step_retry,
        }
    } else {
        step_retry
    }
}

/// Two to the power of `n`.
pub open spec fn doubled(n: nat) -> nat
    decreases n,
{
    if n == 0 {
        1
    } else {
        2 * doubled((n - 1) as nat)
    }
}

/// How often the delay is doubled after an attempt: once for each attempt after the first, at
/// most six times.
pub open spec fn doublings(completed_attempt: u32) -> nat {
    if completed_attempt <= 1 {
        0
    } else if completed_attempt >= 7 {
        6
    } else {
        (completed_attempt - 1) as nat
    }
}

/// The delay before the next attempt, in milliseconds.
pub open spec fn delay_millis(backoff: Backoff, completed_attempt: u32) -> nat {
    match backoff {
        Backoff::Fixed => 250,
        Backoff::Exponential => 250 * doubled(doublings(completed_attempt)),
    }
}

/// The delay before the attempt after `completed_attempt`.
pub fn backoff_delay(backoff: Backoff, completed_attempt: u32) -> (r: Duration)
    ensures
        r.whole_secs() as nat * 1000 + r.sub_nanos() as nat / 1_000_000 == delay_millis(
            backoff,
            completed_attempt,
        ),
        r.sub_nanos() < 1_000_000_000,
        r.sub_nanos() % 1_000_000 == 0,
{
    let times: u32 = if completed_attempt <= 1 {
        0
    } else if completed_attempt >= 7 {
        6
    } else {
        completed_attempt - 1
    };
    match backoff {
        Backoff::Fixed => Duration::from_millis(250),
        Backoff::Exponential => {
            let mut ms: u64 = 250;
            let mut i: u32 = 0;
            assert(doubled(6) == 64) by {
                reveal_with_fuel(doubled, 7);
            }
            while i < times
                invariant
                    i <= times <= 6,
                    ms == 250 * doubled(i as nat),
                    ms <= 250 * 64,
                    doubled(6) == 64,
                decreases times - i,
            {
                proof {
                    lemma_doubled_grows((i + 1) as nat, 6);
                }
                ms = ms * 2;
                i += 1;
            }
            Duration::from_millis(ms)
        },
    }
}

proof fn lemma_doubled_grows(a: nat, b: nat)
    requires
        a <= b,
    ensures
        doubled(a) <= doubled(b),
    decreases b,
{
    if a < b {
        lemma_doubled_grows(a, (b - 1) as nat);
    }
}

/// The delay never shrinks from an attempt to a later one, and stays within sixteen seconds.
pub proof fn backoff_never_shrinks(backoff: Backoff, attempt: u32, later: u32)
    requires
        attempt <= later,
    ensures
        delay_millis(backoff, attempt) <= delay_millis(backoff, later),
        delay_millis(backoff, later) <= 16_000,
{
    lemma_doubled_grows(doublings(attempt), doublings(later));
    lemma_doubled_grows(doublings(later), 6);
    assert(doubled(6) == 64) by {
        reveal_with_fuel(doubled, 7);
    }
}

/// The first line that is not blank, empty when there is none.
pub open spec fn first_not_blank(ls: Seq<Seq<char>>) -> Seq<char>
    decreases ls.len(),
{
    if ls.len() == 0 {
        Seq::empty()
    } else if !is_blank(ls[0]) {
        ls[0]
    } else {
        first_not_blank(ls.drop_first())
    }
}

/// What `retry.feedback` carries.
pub open spec fn feedback_text(mode: FeedbackMode, prior: Option<Seq<char>>) -> Seq<char> {
    clipped_tail(
        match mode {
            FeedbackMode::Off => Seq::empty(),
            FeedbackMode::Concise => match prior {
                Some(e) => first_not_blank(lines_of(e)),
                None => Seq::empty(),
            },
            FeedbackMode::Verbose => match prior {
                Some(e) => e,
                None => Seq::empty(),
            },
        },
        FEEDBACK_MAX as nat,
    )
}

fn first_nonblank_line(s: &str) -> (r: String)
    ensures
        r@ == first_not_blank(lines_of(s@)),
{
    let ls = lines(s);
    let ghost all = lines_of(s@);
    let mut i: usize = 0;
    assert(all.skip(0) =~= all);
    while i < ls.len()
        invariant
            i <= ls.len(),
            texts(ls@) == all,
            all == lines_of(s@),
            first_not_blank(all) == first_not_blank(all.skip(i as int)),
        decreases ls.len() - i,
    {
        assert(all[i as int] == ls@[i as int]@);
        assert(all.skip(i as int)[0] == all[i as int]);
        if !blank(&ls[i]) {
            return ls[i].clone();
        }
        assert(all.skip(i as int).drop_first() =~= all.skip(i + 1));
        i += 1;
    }
    assert(all.skip(i as int).len() == 0);
    String::new()
}

/// What `retry.feedback` carries of the failure before a retry.
pub fn retry_feedback(mode: FeedbackMode, prior: &Option<String>) -> (r: String)
    ensures
        r@ == feedback_text(mode, crate::text::opt_text(*prior)),
{
    let raw = match mode {
        FeedbackMode::Off => String::new(),
        FeedbackMode::Concise => match prior {
            Some(e) => first_nonblank_line(e),
            None => String::new(),
        },
        FeedbackMode::Verbose => match prior {
            Some(e) => e.clone(),
            None => String::new(),
        },
    };
    clip_tail(&raw, FEEDBACK_MAX)
}

/// A step's own timeout holds, whatever the workflow's default is; then the default does; and a
/// step that executes something without either is stopped after half an hour.
pub proof fn a_steps_own_timeout_wins(step: Step, defaults: WorkflowDefaults)
    ensures
        step.timeout matches Some(t) ==> timeout_of(step, defaults) == Some(t.0),
        step.timeout is None ==> (defaults.timeout matches Some(t) ==> timeout_of(step, defaults)
            == Some(t.0)),
        step.timeout is None && defaults.timeout is None && (step.kind is Provider || step.kind
            is Run || step.kind is Action) ==> timeout_of(step, defaults) == Some(
            Duration::of_secs(1800),
        ),
        step.timeout is None && defaults.timeout is None && !(step.kind is Provider || step.kind
            is Run || step.kind is Action) ==> timeout_of(step, defaults) is None,
{
}

/// An exponential backoff starts at a quarter of a second and doubles with each attempt, six times
/// at most; a fixed one stays there.
pub proof fn an_exponential_backoff_doubles(attempt: u32)
    ensures
        delay_millis(Backoff::Fixed, attempt) == 250,
        attempt <= 1 ==> delay_millis(Backoff::Exponential, attempt) == 250,
        1 <= attempt < 7 ==> delay_millis(Backoff::Exponential, (attempt + 1) as u32) == 2
            * delay_millis(Backoff::Exponential, attempt),
        7 <= attempt ==> delay_millis(Backoff::Exponential, attempt) == 16_000,
{
    reveal_with_fuel(doubled, 8);
}

/// A text within the limit is not clipped, and what is left of a longer one is its end, as much of
/// it as fits.
pub proof fn a_clipped_text_keeps_its_end(s: Seq<char>, max: nat, k: int)
    ensures
        byte_len(s) <= max ==> clipped_tail(s, max) == s && clipped_middle(s, max) == s,
        byte_len(s) > max && 0 <= k < s.len() - tail_within(s, max).len() ==> byte_len(s.skip(k))
            > max,
        byte_len(s) > max ==> {
            let r = clipped_tail(s, max);
            let n = tail_within(s, max).len();
            &&& n <= r.len()
            &&& r.skip(r.len() - n) == s.skip(s.len() - n)
        },
    decreases s.len(),
{
    lemma_tail_within(s, max);
    if byte_len(s) > max {
        let t = tail_within(s, max);
        let r = clipped_tail(s, max);
        assert(r.skip(r.len() - t.len()) =~= t);
        if 0 < k < s.len() - t.len() {
            assert(s.skip(k) =~= s.drop_first().skip(k - 1));
            if byte_len(s.drop_first()) > max {
                a_clipped_text_keeps_its_end(s.drop_first(), max, k - 1);
            }
        }
        if k == 0 {
            assert(s.skip(0) =~= s);
        }
    }
}

/// A failure's message comes first, and what was printed to the error stream, if anything, last.
pub proof fn a_message_is_kept_with_the_errors(message: Seq<char>, stderr: Seq<char>)
    ensures
        ({
            let r = message_with_stderr(message, stderr);
            let e = trimmed(stderr);
            &&& r.len() >= message.len()
            &&& r.take(message.len() as int) == message
            &&& e.len() == 0 ==> r == message
            &&& e.len() > 0 && byte_len(e) <= 2000 ==> r.len() >= e.len() && r.skip(
                r.len() - e.len(),
            ) == e
        }),
{
    let r = message_with_stderr(message, stderr);
    let e = trimmed(stderr);
    assert(r.take(message.len() as int) =~= message);
    if e.len() > 0 && byte_len(e) <= 2000 {
        assert(r.skip(r.len() - e.len()) =~= e);
    }
}

/// What an attempt is told of the one before: nothing when feedback is off; all of it, up to the
/// limit, when it is verbose; and when it is concise the first line that is not blank.
pub proof fn feedback_is_what_was_asked_for(prior: Seq<char>, i: int)
    ensures
        feedback_text(FeedbackMode::Off, Some(prior)) == Seq::<char>::empty(),
        byte_len(prior) <= 2000 ==> feedback_text(FeedbackMode::Verbose, Some(prior)) == prior,
        0 <= i < lines_of(prior).len() && !is_blank(lines_of(prior)[i]) && byte_len(
            lines_of(prior)[i],
        ) <= 2000 && (forall|j: int| 0 <= j < i ==> is_blank(#[trigger] lines_of(prior)[j]))
            ==> feedback_text(FeedbackMode::Concise, Some(prior)) == lines_of(prior)[i],
{
    assert(byte_len(Seq::<char>::empty()) == 0);
    let ls = lines_of(prior);
    if 0 <= i < ls.len() && !is_blank(ls[i]) && (forall|j: int|
        0 <= j < i ==> is_blank(#[trigger] ls[j])) {
        lemma_first_not_blank(ls, i);
    }
}

proof fn lemma_first_not_blank(ls: Seq<Seq<char>>, i: int)
    requires
        0 <= i < ls.len(),
        !is_blank(ls[i]),
        forall|j: int| 0 <= j < i ==> is_blank(#[trigger] ls[j]),
    ensures
        first_not_blank(ls) == ls[i],
    decreases ls.len(),
{
    if i > 0 {
        let d = ls.drop_first();
        assert(is_blank(ls[0]));
        assert forall|j: int| 0 <= j < i - 1 implies is_blank(#[trigger] d[j]) by {
            assert(d[j] == ls[j + 1]);
        }
        lemma_first_not_blank(d, i - 1);
    }
}

/// What a failed gate reports of its command: both streams, the errors first.
pub proof fn both_streams_are_kept(stdout: Seq<char>, stderr: Seq<char>)
    ensures
        ({
            let r = joined_streams(stdout, stderr);
            let o = trimmed(stdout);
            let e = trimmed(stderr);
            &&& r.len() >= o.len() && r.skip(r.len() - o.len()) == o || o.len() == 0
            &&& r.len() >= e.len() && r.take(e.len() as int) == e
            &&& o.len() == 0 ==> r == e
        }),
{
    let r = joined_streams(stdout, stderr);
    let o = trimmed(stdout);
    let e = trimmed(stderr);
    if o.len() > 0 {
        assert(r.skip(r.len() - o.len()) =~= o);
    }
    assert(r.take(e.len() as int) =~= e);
    if o.len() == 0 {
        assert(r =~= e);
    }
}

/// A process that was killed is said to have been: for its timeout, or because the run was
/// cancelled. One that exited by itself is not.
pub proof fn a_killed_process_says_why(timeout: Option<Duration>)
    ensures
        kill_reason(Ending::TimedOut, None) == Some("timed out"@),
        timeout matches Some(d) ==> kill_reason(Ending::TimedOut, timeout) == Some(
            "timed out after "@ + span_text(d.whole_secs(), d.sub_nanos()),
        ),
        kill_reason(Ending::Cancelled, timeout) == Some("cancelled"@),
        kill_reason(Ending::Exited, timeout) is None,
{
}

} // verus!
