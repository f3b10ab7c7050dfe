//! Human-friendly durations: `"30s"`, `"5m"`, `"2h"`, or bare seconds `"45"`.

use crate::text::{
    chars_of, concat2, concat3, concat5, debug_quoted, decimal, decimal_of, is_digit,
    lemma_decimal, parse_unsigned, quote_debug, slice_of, text_eq, text_of, trim_chars, trimmed,
    unsigned_value,
};
use crate::time::Duration;
use vstd::prelude::*;

verus! {

/// A [`Duration`] written as `"30s"` / `"5m"` / `"2h"` (or bare seconds `"45"`).
#[derive(Clone, Copy, Debug, PartialEq, Eq, Structural)]
pub struct HumanDuration(pub Duration);

/// How many leading characters are decimal digits.
pub open spec fn digit_run(s: Seq<char>) -> nat
    decreases s.len(),
{
    if s.len() > 0 && is_digit(s[0]) {
        1 + digit_run(s.drop_first())
    } else {
        0
    }
}

/// The seconds in one of a unit: nothing or `s`, `m`, `h`, `d`, `w`.
pub open spec fn unit_seconds(unit: Seq<char>) -> Option<nat> {
    if unit == ""@ || unit == "s"@ {
        Some(1)
    } else if unit == "m"@ {
        Some(60)
    } else if unit == "h"@ {
        Some(3600)
    } else if unit == "d"@ {
        Some(86_400)
    } else if unit == "w"@ {
        Some(604_800)
    } else {
        None
    }
}

/// The seconds a duration text stands for, or the message that refuses it.
pub open spec fn duration_seconds(text: Seq<char>) -> Result<nat, Seq<char>> {
    let s = trimmed(text);
    let n = digit_run(s) as int;
    let number = unsigned_value(s.take(n), u64::MAX as nat);
    let unit = trimmed(s.skip(n));
    match number {
        None => Err("invalid duration "@ + debug_quoted(s) + ": expected a leading number"@),
        Some(count) => match unit_seconds(unit) {
            None => Err(
                "invalid duration unit "@ + debug_quoted(unit) + " in "@ + debug_quoted(s)
                    + " (use s, m, h, d, or w)"@,
            ),
            Some(each) => if count * each <= u64::MAX {
                Ok(count * each)
            } else {
                Err("duration "@ + debug_quoted(s) + " is too large"@)
            },
        },
    }
}

proof fn lemma_digit_run(s: Seq<char>, n: int)
    requires
        0 <= n <= s.len(),
        forall|i: int| 0 <= i < n ==> is_digit(#[trigger] s[i]),
        n < s.len() ==> !is_digit(s[n]),
    ensures
        digit_run(s) == n,
    decreases s.len(),
{
    if n > 0 {
        assert(is_digit(s[0]));
        assert forall|i: int| 0 <= i < n - 1 implies is_digit(#[trigger] s.drop_first()[i]) by {
            assert(s.drop_first()[i] == s[i + 1]);
        }
        lemma_digit_run(s.drop_first(), n - 1);
    }
}

fn seconds_in(unit: &str) -> (r: Option<u64>)
    ensures
        match r {
            Some(k) => unit_seconds(unit@) == Some(k as nat) && 1 <= k <= 604_800,
            None => unit_seconds(unit@) is None,
        },
{
    if text_eq(unit, "") || text_eq(unit, "s") {
        Some(1)
    } else if text_eq(unit, "m") {
        Some(60)
    } else if text_eq(unit, "h") {
        Some(3600)
    } else if text_eq(unit, "d") {
        Some(86_400)
    } else if text_eq(unit, "w") {
        Some(604_800)
    } else {
        None
    }
}

impl HumanDuration {
    /// Reads a duration text, or says why it is none: no leading number, a unit other than
    /// `s`/`m`/`h`/`d`/`w`, or more seconds than a `u64` holds.
    pub fn parse(s: &str) -> (r: Result<Self, String>)
        ensures
            match r {
                Ok(d) => duration_seconds(s@) == Ok::<nat, Seq<char>>(d.0.whole_secs() as nat)
                    && d.0.sub_nanos() == 0,
                Err(e) => duration_seconds(s@) == Err::<nat, Seq<char>>(e@),
            },
    {
        let v = chars_of(s);
        let t = trim_chars(&v);
        let whole = text_of(&t);
        let mut n: usize = 0;
        while n < t.len() && '0' <= t[n] && t[n] <= '9'
            invariant
                n <= t.len(),
                forall|i: int| 0 <= i < n ==> is_digit(#[trigger] t@[i]),
            decreases t.len() - n,
        {
            n += 1;
        }
        proof {
            lemma_digit_run(t@, n as int);
        }
        let num = slice_of(&t, 0, n);
        let rest = slice_of(&t, n, t.len());
        assert(num@ =~= t@.take(n as int));
        assert(rest@ =~= t@.skip(n as int));
        let unit_chars = trim_chars(&rest);
        let unit = text_of(&unit_chars);
        match parse_unsigned(&num, u64::MAX) {
            None => {
                let q = quote_debug(&whole);
                Err(concat3("invalid duration ", &q, ": expected a leading number"))
            },
            Some(count) => match seconds_in(&unit) {
                None => {
                    let qu = quote_debug(&unit);
                    let q = quote_debug(&whole);
                    Err(
                        concat5(
                            "invalid duration unit ",
                            &qu,
                            " in ",
                            &q,
                            " (use s, m, h, d, or w)",
                        ),
                    )
                },
                Some(each) => match count.checked_mul(each) {
                    Some(secs) => Ok(HumanDuration(Duration::from_secs(secs))),
                    None => {
                        let q = quote_debug(&whole);
                        Err(concat3("duration ", &q, " is too large"))
                    },
                },
            },
        }
    }

    /// The wrapped span.
    pub fn as_duration(self) -> (r: Duration)
        ensures
            r == self.0,
    {
        self.0
    }

    /// The text form: whole seconds with the unit `s`.
    pub fn to_text(self) -> (r: String)
        ensures
            r@ == decimal(self.0.whole_secs() as nat) + "s"@,
    {
        let d = decimal_of(self.0.as_secs() as u128);
        concat2(&d, "s")
    }
}

/// Writing a duration of whole seconds and reading it back gives the same duration.
pub proof fn duration_text_round_trips(secs: u64)
    ensures
        duration_seconds(decimal(secs as nat) + "s"@) == Ok::<nat, Seq<char>>(secs as nat),
{
    reveal_strlit("s");
    reveal_strlit("");
    let d = decimal(secs as nat);
    lemma_decimal(secs as nat);
    let s = d + "s"@;
    assert("s"@ =~= seq!['s']);
    assert(s[0] == d[0]);
    assert(is_digit(d[0]));
    assert(s.last() == 's');
    assert(trimmed(s) == s);
    assert forall|i: int| 0 <= i < d.len() implies is_digit(#[trigger] s[i]) by {
        assert(s[i] == d[i]);
    }
    lemma_digit_run(s, d.len() as int);
    assert(s.take(d.len() as int) =~= d);
    assert(s.skip(d.len() as int) =~= "s"@);
    assert(d[0] != '+');
    assert(trimmed("s"@) == "s"@);
}

proof fn lemma_amount(n: nat, unit: Seq<char>)
    requires
        unit.len() == 0 || (unit.len() == 1 && !is_digit(unit[0]) && trimmed(unit) == unit
            && trimmed(decimal(n) + unit) == decimal(n) + unit),
    ensures
        ({
            let s = decimal(n) + unit;
            &&& digit_run(s) == decimal(n).len()
            &&& s.take(decimal(n).len() as int) == decimal(n)
            &&& s.skip(decimal(n).len() as int) == unit
            &&& n <= u64::MAX ==> unsigned_value(decimal(n), u64::MAX as nat) == Some(n)
        }),
{
    let d = decimal(n);
    lemma_decimal(n);
    let s = d + unit;
    assert forall|i: int| 0 <= i < d.len() implies is_digit(#[trigger] s[i]) by {
        assert(s[i] == d[i]);
    }
    lemma_digit_run(s, d.len() as int);
    assert(s.take(d.len() as int) =~= d);
    assert(s.skip(d.len() as int) =~= unit);
    assert(is_digit(d[0]));
    assert(d[0] != '+');
}

/// An amount of a unit is that many seconds times those of the unit: a second, a minute, an hour, a
/// day or a week, and a second when none is named. One that is too large is refused.
pub proof fn an_amount_counts_its_unit(n: u64)
    ensures
        duration_seconds(decimal(n as nat)) == Ok::<nat, Seq<char>>(n as nat),
        duration_seconds(decimal(n as nat) + "s"@) == Ok::<nat, Seq<char>>(n as nat),
        amounts_to(decimal(n as nat) + "m"@, n * 60),
        amounts_to(decimal(n as nat) + "h"@, n * 60 * 60),
        amounts_to(decimal(n as nat) + "d"@, n * 24 * 60 * 60),
        amounts_to(decimal(n as nat) + "w"@, n * 7 * 24 * 60 * 60),
{
    lemma_decimal(n as nat);
    reveal_strlit("");
    reveal_strlit("s");
    reveal_strlit("m");
    reveal_strlit("h");
    reveal_strlit("d");
    reveal_strlit("w");
    let d = decimal(n as nat);
    assert(is_digit(d[0]));
    assert(""@.len() == 0);
    assert("s"@[0] == 's' && "m"@[0] == 'm' && "h"@[0] == 'h' && "d"@[0] == 'd' && "w"@[0] == 'w');
    lemma_unit(n as nat, "s"@);
    lemma_unit(n as nat, "m"@);
    lemma_unit(n as nat, "h"@);
    lemma_unit(n as nat, "d"@);
    lemma_unit(n as nat, "w"@);
    assert(unit_seconds("w"@) == Some(604_800nat));
    assert(n * 7 * 24 * 60 * 60 == n * 604_800);
    lemma_amount(n as nat, Seq::empty());
    assert(d + Seq::empty() =~= d);
    assert(trimmed(d) == d);
    assert(trimmed(Seq::<char>::empty()) =~= ""@);
}

/// Whether a text names so many seconds, or is refused because there are too many to count.
pub open spec fn amounts_to(text: Seq<char>, seconds: int) -> bool {
    match duration_seconds(text) {
        Ok(s) => s == seconds && seconds <= u64::MAX,
        Err(_) => seconds > u64::MAX,
    }
}

proof fn lemma_unit(n: nat, unit: Seq<char>)
    requires
        unit.len() == 1,
        unit[0] == 's' || unit[0] == 'm' || unit[0] == 'h' || unit[0] == 'd' || unit[0] == 'w',
        n <= u64::MAX,
    ensures
        unit_seconds(unit) matches Some(each) ==> amounts_to(decimal(n) + unit, (n * each) as int),
{
    lemma_decimal(n);
    let d = decimal(n);
    let s = d + unit;
    assert(s[0] == d[0]);
    assert(is_digit(d[0]));
    assert(s.last() == unit[0]);
    assert(trimmed(s) == s);
    assert(trimmed(unit) == unit);
    lemma_amount(n, unit);
}

} // verus!
