//! What the template engine is handed.
//!
//! The engine reports an error on most templates that it cannot render, but some make it panic,
//! exhaust its stack or run on without end. A text is therefore held against the rules below
//! before it is compiled, and against stricter ones before it is rendered. They admit the
//! constructs that come to an end on every value, whatever the context holds.

use super::tokens::{
    is_text, lex, opens, read_tags, read_tokens, shuts, tags_of, Close, Ended, TagView,
    Token, TokenKind, TokenView,
};
use crate::names::views;
use crate::text::{chars_of, text_eq};
use vstd::prelude::*;

verus! {

// ---------------------------------------------------------------------------------------------
// Tokens in their place
// ---------------------------------------------------------------------------------------------
/// How many tokens a tag or an expression may have.
pub const MAX_TOKENS: usize = 200;

/// Whether the token at `i` is this operator, bracket or separator.
pub open spec fn sign(t: Seq<TokenView>, i: int, text: Seq<char>) -> bool {
    0 <= i < t.len() && t[i].kind == TokenKind::Sign && t[i].text == text
}

/// Whether the token at `i` is this identifier or keyword.
pub open spec fn word(t: Seq<TokenView>, i: int, text: Seq<char>) -> bool {
    0 <= i < t.len() && t[i].kind == TokenKind::Name && t[i].text == text
}

/// Whether the token at `i` is an identifier or keyword.
pub open spec fn is_word(t: Seq<TokenView>, i: int) -> bool {
    0 <= i < t.len() && t[i].kind == TokenKind::Name
}

/// Whether the token at `i` is a short string.
pub open spec fn short_text(t: Seq<TokenView>, i: int) -> bool {
    0 <= i < t.len() && (t[i].kind == TokenKind::Text || t[i].kind == TokenKind::Escaped)
        && t[i].text.len() <= 100
}

/// Whether the token at `i` is an integer of at most two digits.
pub open spec fn small_int(t: Seq<TokenView>, i: int) -> bool {
    0 <= i < t.len() && t[i].kind == TokenKind::Int && t[i].text.len() <= 2
}

/// Whether the token at `i` is an integer other than zero, of at most 18 digits.
pub open spec fn nonzero_int(t: Seq<TokenView>, i: int) -> bool {
    0 <= i < t.len() && t[i].kind == TokenKind::Int && t[i].text.len() <= 18 && !all_zero(t[i].text)
}

/// Whether a text holds nothing but zeros.
pub open spec fn all_zero(s: Seq<char>) -> bool {
    forall|k: int| 0 <= k < s.len() ==> s[k] == '0'
}

/// Whether an argument ends at `i`.
pub open spec fn arg_ends(t: Seq<TokenView>, i: int) -> bool {
    sign(t, i, ")"@) || sign(t, i, ","@)
}

/// Whether the token at `i` names a filter.
pub open spec fn is_filter(t: Seq<TokenView>, i: int) -> bool {
    is_word(t, i) && sign(t, i - 1, "|"@)
}

/// Whether the token at `i` names a test.
pub open spec fn is_test(t: Seq<TokenView>, i: int) -> bool {
    is_word(t, i) && t[i].text != "not"@ && ((word(t, i - 1, "is"@) && !sign(t, i - 2, "."@)) || (
    word(t, i - 1, "not"@) && word(t, i - 2, "is"@) && !sign(t, i - 3, "."@)))
}

/// Whether a name is that of a filter that takes any arguments.
pub open spec fn plain_filter(s: Seq<char>) -> bool {
    growing_filter(s) || s == "length"@ || s == "count"@ || s == "trim"@ || s == "bool"@ || s
        == "int"@ || s == "float"@ || s == "abs"@ || s == "round"@ || s == "first"@ || s
        == "last"@ || s == "min"@ || s == "max"@ || s == "reverse"@ || s == "default"@ || s
        == "d"@ || s == "safe"@ || s == "sum"@ || s == "items"@ || s == "attr"@
}

/// Whether a filter that takes any arguments can give more than it was given.
pub open spec fn growing_filter(s: Seq<char>) -> bool {
    s == "upper"@ || s == "lower"@ || s == "title"@ || s == "capitalize"@ || s == "string"@ || s
        == "escape"@ || s == "e"@ || s == "shquote"@ || s == "list"@ || s == "lines"@
}

/// Whether a name is that of a test that takes any argument.
pub open spec fn plain_test(s: Seq<char>) -> bool {
    s == "defined"@ || s == "undefined"@ || s == "none"@ || s == "boolean"@ || s == "odd"@ || s
        == "even"@ || s == "number"@ || s == "integer"@ || s == "int"@ || s == "float"@ || s
        == "string"@ || s == "sequence"@ || s == "iterable"@ || s == "mapping"@ || s
        == "startingwith"@ || s == "endingwith"@ || s == "lower"@ || s == "upper"@ || s == "true"@
        || s == "false"@ || s == "eq"@ || s == "equalto"@ || s == "ne"@ || s == "lt"@ || s
        == "lessthan"@ || s == "le"@ || s == "gt"@ || s == "greaterthan"@ || s == "ge"@ || s
        == "in"@ || s == "sameas"@ || s == "safe"@ || s == "escaped"@
}

/// Whether the filter named at `i` stands with arguments it can take.
pub open spec fn filter_fits(t: Seq<TokenView>, i: int) -> bool {
    let s = t[i].text;
    let bare = !sign(t, i + 1, "("@);
    if s == "dictsort"@ {
        bare
    } else if s == "split"@ {
        bare || sign(t, i + 3, ")"@)
    } else if s == "join"@ {
        bare || (short_text(t, i + 2) && sign(t, i + 3, ")"@))
    } else if s == "replace"@ {
        !bare && short_text(t, i + 2) && sign(t, i + 3, ","@) && short_text(t, i + 4) && sign(
            t,
            i + 5,
            ")"@,
        )
    } else if s == "indent"@ {
        bare || (small_int(t, i + 2) && arg_ends(t, i + 3))
    } else if s == "batch"@ || s == "slice"@ {
        !bare && small_int(t, i + 2) && arg_ends(t, i + 3)
    } else if s == "map"@ {
        !bare && ((word(t, i + 2, "attribute"@) && sign(t, i + 3, "="@) && short_text(t, i + 4)
            && sign(t, i + 5, ")"@)) || (0 <= i + 2 < t.len() && t[i + 2].kind == TokenKind::Text
            && plain_filter(t[i + 2].text) && sign(t, i + 3, ")"@)))
    } else if s == "select"@ || s == "reject"@ {
        bare || (0 <= i + 2 < t.len() && t[i + 2].kind == TokenKind::Text && plain_test(
            t[i + 2].text,
        ) && arg_ends(t, i + 3))
    } else if s == "selectattr"@ || s == "rejectattr"@ {
        !bare && short_text(t, i + 2) && (sign(t, i + 3, ")"@) || (sign(t, i + 3, ","@) && 0 <= i
            + 4 < t.len() && t[i + 4].kind == TokenKind::Text && plain_test(t[i + 4].text)
            && arg_ends(t, i + 5)))
    } else {
        plain_filter(s)
    }
}

/// Whether the test named at `i` stands with an argument it can take: a divisor is a literal
/// other than zero.
pub open spec fn test_fits(t: Seq<TokenView>, i: int) -> bool {
    if t[i].text == "divisibleby"@ {
        sign(t, i + 1, "("@) && nonzero_int(t, i + 2) && sign(t, i + 3, ")"@)
    } else {
        plain_test(t[i].text)
    }
}

/// Whether the identifier or keyword at `i` can stand there. The names of functions are only
/// called.
pub open spec fn word_fits(t: Seq<TokenView>, i: int) -> bool {
    if is_filter(t, i) {
        filter_fits(t, i)
    } else if is_test(t, i) {
        test_fits(t, i)
    } else if sign(t, i - 1, "."@) {
        true
    } else if t[i].text == "range"@ || t[i].text == "dict"@ {
        sign(t, i + 1, "("@)
    } else {
        t[i].text != "recursive"@
    }
}

/// Whether an expression can begin after this keyword.
pub open spec fn leads(s: Seq<char>) -> bool {
    s == "and"@ || s == "or"@ || s == "not"@ || s == "if"@ || s == "elif"@ || s == "else"@ || s
        == "in"@
}

/// Whether the arguments of `range` from `k` on hold no brackets, and a third one is a literal.
pub open spec fn range_fits(t: Seq<TokenView>, k: int, commas: int) -> bool
    decreases t.len() - k,
{
    if k < 0 || k >= t.len() || opens(t[k]) {
        false
    } else if shuts(t[k]) {
        t[k].text == ")"@
    } else if sign(t, k, ","@) {
        if commas == 0 {
            range_fits(t, k + 1, 1)
        } else {
            0 <= k + 1 < t.len() && t[k + 1].kind == TokenKind::Int && sign(t, k + 2, ")"@)
        }
    } else {
        range_fits(t, k + 1, commas)
    }
}

/// Whether the round bracket that opens at `i` can stand there: it groups an expression, or holds
/// the arguments of a filter, a test or a known function.
pub open spec fn bracket_fits(t: Seq<TokenView>, i: int) -> bool {
    if i == 0 {
        true
    } else if t[i - 1].kind == TokenKind::Sign {
        !shuts(t[i - 1])
    } else if t[i - 1].kind != TokenKind::Name {
        false
    } else if is_filter(t, i - 1) || is_test(t, i - 1) {
        true
    } else if sign(t, i - 2, "."@) {
        word(t, i - 3, "loop"@) && !sign(t, i - 4, "."@) && (word(t, i - 1, "changed"@) || (word(
            t,
            i - 1,
            "cycle"@,
        ) && !sign(t, i + 1, ")"@)))
    } else if t[i - 1].text == "range"@ {
        range_fits(t, i + 1, 0)
    } else {
        t[i - 1].text == "dict"@ || leads(t[i - 1].text)
    }
}

/// Whether a `:` after the tokens up to `k` is the first one of a subscript.
pub open spec fn first_in_subscript(t: Seq<TokenView>, k: int) -> bool
    decreases k + 1,
{
    if k < 0 || k >= t.len() {
        false
    } else if sign(t, k, "["@) {
        true
    } else if opens(t[k]) || shuts(t[k]) || sign(t, k, ":"@) || sign(t, k, ","@) {
        false
    } else {
        first_in_subscript(t, k - 1)
    }
}

/// Whether the token at `i` is a string that is the key of a map.
pub open spec fn is_key(t: Seq<TokenView>, i: int) -> bool {
    0 <= i < t.len() && (t[i].kind == TokenKind::Text || t[i].kind == TokenKind::Escaped) && (sign(
        t,
        i - 1,
        "{"@,
    ) || sign(t, i - 1, ","@))
}

/// Whether a `:` at `i` does not follow a fraction, which would be a key or a bound.
pub open spec fn no_fraction_before(t: Seq<TokenView>, i: int) -> bool {
    0 < i <= t.len() ==> t[i - 1].kind != TokenKind::Float
}

/// Whether the `:` at `i` can stand there: the only one of a subscript, or after a string that is
/// a key.
pub open spec fn colon_fits(t: Seq<TokenView>, i: int) -> bool {
    no_fraction_before(t, i) && (is_key(t, i - 1) || first_in_subscript(t, i - 1))
}

/// Whether an operand ends before `i`, rather than going on with an accessor, a filter or a test.
pub open spec fn operand_ends(t: Seq<TokenView>, i: int) -> bool {
    !sign(t, i, "|"@) && !sign(t, i, "."@) && !sign(t, i, "["@) && !sign(t, i, "("@) && !sign(
        t,
        i,
        "**"@,
    ) && !word(t, i, "is"@)
}

/// Whether the token at `i` is all of a left operand: what stands before it binds looser.
pub open spec fn operand_begins(t: Seq<TokenView>, i: int) -> bool {
    i == 0 || sign(t, i - 1, "("@) || sign(t, i - 1, "["@) || sign(t, i - 1, ","@) || sign(
        t,
        i - 1,
        "="@,
    ) || sign(t, i - 1, "+"@) || sign(t, i - 1, "-"@) || (is_word(t, i - 1) && leads(t[i - 1].text)
        && !sign(t, i - 2, "."@))
}

/// Whether the `*` at `i` multiplies by a small literal, so that it repeats nothing often.
pub open spec fn times_few(t: Seq<TokenView>, i: int) -> bool {
    &&& i > 0
    &&& !sign(t, i - 1, "("@)
    &&& !sign(t, i - 1, ","@)
    &&& (small_int(t, i + 1) && operand_ends(t, i + 2)) || (small_int(t, i - 1) && operand_begins(
        t,
        i - 1,
    ))
}

/// Whether a word is a constant.
pub open spec fn is_constant(s: Seq<char>) -> bool {
    s == "true"@ || s == "false"@ || s == "none"@ || s == "True"@ || s == "False"@ || s == "None"@
}

/// Whether the token at `i` is a word other than a constant.
pub open spec fn is_name(t: Seq<TokenView>, i: int) -> bool {
    is_word(t, i) && !is_constant(t[i].text)
}

/// Whether the `*` or `**` at `i` is not computed when a template is compiled: it unpacks an
/// argument, or has a variable beside it.
pub open spec fn left_open(t: Seq<TokenView>, i: int) -> bool {
    i == 0 || sign(t, i - 1, "("@) || sign(t, i - 1, ","@) || is_name(t, i - 1) || is_name(t, i + 1)
}

/// Whether the token at `i` can stand there in what is rendered.
pub open spec fn token_fits(t: Seq<TokenView>, i: int) -> bool {
    if t[i].kind == TokenKind::Name {
        word_fits(t, i)
    } else if t[i].kind != TokenKind::Sign {
        true
    } else if t[i].text == "("@ {
        bracket_fits(t, i)
    } else if t[i].text == ":"@ {
        colon_fits(t, i)
    } else if t[i].text == "*"@ {
        times_few(t, i)
    } else {
        t[i].text != "**"@
    }
}

/// How many of the first `n` tokens are a `*` that can be computed when a template is compiled.
pub open spec fn products(t: Seq<TokenView>, n: int) -> nat
    decreases n,
{
    if n <= 0 {
        0
    } else if sign(t, n - 1, "*"@) && !left_open(t, n - 1) {
        products(t, n - 1) + 1
    } else {
        products(t, n - 1)
    }
}

/// Whether the tokens are few, and little of them is computed when they are compiled.
pub open spec fn size_fits(t: Seq<TokenView>) -> bool {
    t.len() <= MAX_TOKENS && products(t, t.len() as int) <= 2
}

/// Whether every token can stand where it does in what is rendered.
pub open spec fn tokens_fit(t: Seq<TokenView>) -> bool {
    size_fits(t) && forall|i: int| 0 <= i < t.len() ==> #[trigger] token_fits(t, i)
}

/// Whether nothing large is computed of the token at `i` when a template is compiled.
pub open spec fn token_readable(t: Seq<TokenView>, i: int) -> bool {
    if t[i].kind == TokenKind::Sign && t[i].text == "**"@ {
        left_open(t, i)
    } else if t[i].kind == TokenKind::Sign && t[i].text == "*"@ {
        left_open(t, i) || times_few(t, i)
    } else if t[i].kind == TokenKind::Sign && t[i].text == ":"@ {
        no_fraction_before(t, i)
    } else {
        true
    }
}

/// Whether the tokens of a tag can be compiled.
pub open spec fn tokens_readable(t: Seq<TokenView>) -> bool {
    size_fits(t) && forall|i: int| 0 <= i < t.len() ==> #[trigger] token_readable(t, i)
}

fn sign_at(t: &Vec<Token>, i: usize, text: &str) -> (r: bool)
    ensures
        r == sign(views(t@), i as int, text@),
{
    i < t.len() && is_text(&t[i], TokenKind::Sign, text)
}

fn word_at(t: &Vec<Token>, i: usize, text: &str) -> (r: bool)
    ensures
        r == word(views(t@), i as int, text@),
{
    i < t.len() && is_text(&t[i], TokenKind::Name, text)
}

/// Whether a text has at most so many characters.
fn at_most(s: &str, limit: usize) -> (r: bool)
    ensures
        r == (s@.len() <= limit),
{
    let v = chars_of(s);
    v.len() <= limit
}

fn short_text_at(t: &Vec<Token>, i: usize) -> (r: bool)
    ensures
        r == short_text(views(t@), i as int),
{
    i < t.len() && (t[i].kind == TokenKind::Text || t[i].kind == TokenKind::Escaped) && at_most(
        &t[i].text,
        100,
    )
}

fn small_int_at(t: &Vec<Token>, i: usize) -> (r: bool)
    ensures
        r == small_int(views(t@), i as int),
{
    i < t.len() && t[i].kind == TokenKind::Int && at_most(&t[i].text, 2)
}

fn zeros(s: &str) -> (r: bool)
    ensures
        r == all_zero(s@),
{
    let v = chars_of(s);
    let mut k: usize = 0;
    while k < v.len()
        invariant
            k <= v.len(),
            v@ == s@,
            forall|j: int| 0 <= j < k ==> v@[j] == '0',
        decreases v.len() - k,
    {
        if v[k] != '0' {
            return false;
        }
        k += 1;
    }
    true
}

fn nonzero_int_at(t: &Vec<Token>, i: usize) -> (r: bool)
    ensures
        r == nonzero_int(views(t@), i as int),
{
    i < t.len() && t[i].kind == TokenKind::Int && at_most(&t[i].text, 18) && !zeros(&t[i].text)
}

fn arg_ends_at(t: &Vec<Token>, i: usize) -> (r: bool)
    ensures
        r == arg_ends(views(t@), i as int),
{
    sign_at(t, i, ")") || sign_at(t, i, ",")
}

fn filter_at(t: &Vec<Token>, i: usize) -> (r: bool)
    ensures
        r == is_filter(views(t@), i as int),
{
    i < t.len() && t[i].kind == TokenKind::Name && i > 0 && sign_at(t, i - 1, "|")
}

fn test_at(t: &Vec<Token>, i: usize) -> (r: bool)
    ensures
        r == is_test(views(t@), i as int),
{
    if i >= t.len() || t[i].kind != TokenKind::Name || text_eq(&t[i].text, "not") || i == 0 {
        return false;
    }
    if word_at(t, i - 1, "is") && !(i > 1 && sign_at(t, i - 2, ".")) {
        return true;
    }
    i > 1 && word_at(t, i - 1, "not") && word_at(t, i - 2, "is") && !(i > 2 && sign_at(
        t,
        i - 3,
        ".",
    ))
}

fn grows(s: &str) -> (r: bool)
    ensures
        r == growing_filter(s@),
{
    text_eq(s, "upper") || text_eq(s, "lower") || text_eq(s, "title") || text_eq(s, "capitalize")
        || text_eq(s, "string") || text_eq(s, "escape") || text_eq(s, "e") || text_eq(s, "shquote")
        || text_eq(s, "list") || text_eq(s, "lines")
}

fn is_plain_filter(s: &str) -> (r: bool)
    ensures
        r == plain_filter(s@),
{
    grows(s) || text_eq(s, "length") || text_eq(s, "count") || text_eq(s, "trim") || text_eq(
        s,
        "bool",
    ) || text_eq(s, "int") || text_eq(s, "float") || text_eq(s, "abs") || text_eq(s, "round")
        || text_eq(s, "first") || text_eq(s, "last") || text_eq(s, "min") || text_eq(s, "max")
        || text_eq(s, "reverse") || text_eq(s, "default") || text_eq(s, "d") || text_eq(s, "safe")
        || text_eq(s, "sum") || text_eq(s, "items") || text_eq(s, "attr")
}

fn is_plain_test(s: &str) -> (r: bool)
    ensures
        r == plain_test(s@),
{
    text_eq(s, "defined") || text_eq(s, "undefined") || text_eq(s, "none") || text_eq(s, "boolean")
        || text_eq(s, "odd") || text_eq(s, "even") || text_eq(s, "number") || text_eq(s, "integer")
        || text_eq(s, "int") || text_eq(s, "float") || text_eq(s, "string") || text_eq(
        s,
        "sequence",
    ) || text_eq(s, "iterable") || text_eq(s, "mapping") || text_eq(s, "startingwith") || text_eq(
        s,
        "endingwith",
    ) || text_eq(s, "lower") || text_eq(s, "upper") || text_eq(s, "true") || text_eq(s, "false")
        || text_eq(s, "eq") || text_eq(s, "equalto") || text_eq(s, "ne") || text_eq(s, "lt")
        || text_eq(s, "lessthan") || text_eq(s, "le") || text_eq(s, "gt") || text_eq(
        s,
        "greaterthan",
    ) || text_eq(s, "ge") || text_eq(s, "in") || text_eq(s, "sameas") || text_eq(s, "safe")
        || text_eq(s, "escaped")
}

fn text_token_at(t: &Vec<Token>, i: usize) -> (r: bool)
    ensures
        r == (i < t@.len() && views(t@)[i as int].kind == TokenKind::Text),
{
    i < t.len() && t[i].kind == TokenKind::Text
}

fn check_filter(t: &Vec<Token>, i: usize) -> (r: bool)
    requires
        i < t@.len() <= MAX_TOKENS,
    ensures
        r == filter_fits(views(t@), i as int),
{
    let s = t[i].text.as_str();
    let bare = !sign_at(t, i + 1, "(");
    if text_eq(s, "dictsort") {
        bare
    } else if text_eq(s, "split") {
        bare || sign_at(t, i + 3, ")")
    } else if text_eq(s, "join") {
        bare || (short_text_at(t, i + 2) && sign_at(t, i + 3, ")"))
    } else if text_eq(s, "replace") {
        !bare && short_text_at(t, i + 2) && sign_at(t, i + 3, ",") && short_text_at(t, i + 4)
            && sign_at(t, i + 5, ")")
    } else if text_eq(s, "indent") {
        bare || (small_int_at(t, i + 2) && arg_ends_at(t, i + 3))
    } else if text_eq(s, "batch") || text_eq(s, "slice") {
        !bare && small_int_at(t, i + 2) && arg_ends_at(t, i + 3)
    } else if text_eq(s, "map") {
        !bare && ((word_at(t, i + 2, "attribute") && sign_at(t, i + 3, "=") && short_text_at(
            t,
            i + 4,
        ) && sign_at(t, i + 5, ")")) || (text_token_at(t, i + 2) && is_plain_filter(&t[i + 2].text)
            && sign_at(t, i + 3, ")")))
    } else if text_eq(s, "select") || text_eq(s, "reject") {
        bare || (text_token_at(t, i + 2) && is_plain_test(&t[i + 2].text) && arg_ends_at(t, i + 3))
    } else if text_eq(s, "selectattr") || text_eq(s, "rejectattr") {
        !bare && short_text_at(t, i + 2) && (sign_at(t, i + 3, ")") || (sign_at(t, i + 3, ",")
            && text_token_at(t, i + 4) && is_plain_test(&t[i + 4].text) && arg_ends_at(t, i + 5)))
    } else {
        is_plain_filter(s)
    }
}

fn check_word(t: &Vec<Token>, i: usize) -> (r: bool)
    requires
        i < t@.len() <= MAX_TOKENS,
    ensures
        r == word_fits(views(t@), i as int),
{
    if filter_at(t, i) {
        check_filter(t, i)
    } else if test_at(t, i) {
        if text_eq(&t[i].text, "divisibleby") {
            sign_at(t, i + 1, "(") && nonzero_int_at(t, i + 2) && sign_at(t, i + 3, ")")
        } else {
            is_plain_test(&t[i].text)
        }
    } else if i > 0 && sign_at(t, i - 1, ".") {
        true
    } else if text_eq(&t[i].text, "range") || text_eq(&t[i].text, "dict") {
        sign_at(t, i + 1, "(")
    } else {
        !text_eq(&t[i].text, "recursive")
    }
}

fn is_lead(s: &str) -> (r: bool)
    ensures
        r == leads(s@),
{
    text_eq(s, "and") || text_eq(s, "or") || text_eq(s, "not") || text_eq(s, "if") || text_eq(
        s,
        "elif",
    ) || text_eq(s, "else") || text_eq(s, "in")
}

fn is_open(t: &Token) -> (r: bool)
    ensures
        r == opens(t@),
{
    is_text(t, TokenKind::Sign, "(") || is_text(t, TokenKind::Sign, "[") || is_text(
        t,
        TokenKind::Sign,
        "{",
    )
}

fn is_shut(t: &Token) -> (r: bool)
    ensures
        r == shuts(t@),
{
    is_text(t, TokenKind::Sign, ")") || is_text(t, TokenKind::Sign, "]") || is_text(
        t,
        TokenKind::Sign,
        "}",
    )
}

fn check_range(t: &Vec<Token>, from: usize) -> (r: bool)
    requires
        from <= t@.len() <= MAX_TOKENS,
    ensures
        r == range_fits(views(t@), from as int, 0),
{
    let mut k: usize = from;
    let mut commas: usize = 0;
    while k < t.len()
        invariant
            from <= k <= t@.len() <= MAX_TOKENS,
            commas <= 1,
            range_fits(views(t@), k as int, commas as int) == range_fits(
                views(t@),
                from as int,
                0,
            ),
        decreases t.len() - k,
    {
        if is_open(&t[k]) {
            return false;
        }
        if is_shut(&t[k]) {
            return text_eq(&t[k].text, ")");
        }
        if sign_at(t, k, ",") {
            if commas > 0 {
                return k + 1 < t.len() && t[k + 1].kind == TokenKind::Int && sign_at(t, k + 2, ")");
            }
            commas = 1;
        }
        k += 1;
    }
    false
}

fn check_bracket(t: &Vec<Token>, i: usize) -> (r: bool)
    requires
        i < t@.len() <= MAX_TOKENS,
    ensures
        r == bracket_fits(views(t@), i as int),
{
    if i == 0 {
        return true;
    }
    let before = &t[i - 1];
    assert(before@ == views(t@)[i - 1]);
    if before.kind == TokenKind::Sign {
        !is_shut(before)
    } else if before.kind != TokenKind::Name {
        false
    } else if filter_at(t, i - 1) || test_at(t, i - 1) {
        true
    } else if i > 1 && sign_at(t, i - 2, ".") {
        i > 2 && word_at(t, i - 3, "loop") && !(i > 3 && sign_at(t, i - 4, ".")) && (word_at(
            t,
            i - 1,
            "changed",
        ) || (word_at(t, i - 1, "cycle") && !sign_at(t, i + 1, ")")))
    } else if text_eq(&before.text, "range") {
        check_range(t, i + 1)
    } else {
        text_eq(&before.text, "dict") || is_lead(&before.text)
    }
}

fn check_colon(t: &Vec<Token>, i: usize) -> (r: bool)
    requires
        i < t@.len(),
    ensures
        r == colon_fits(views(t@), i as int),
{
    if i == 0 {
        return false;
    }
    let before = &t[i - 1];
    assert(before@ == views(t@)[i - 1]);
    if before.kind == TokenKind::Float {
        return false;
    }
    if i > 1 && (before.kind == TokenKind::Text || before.kind == TokenKind::Escaped) && (sign_at(
        t,
        i - 2,
        "{",
    ) || sign_at(t, i - 2, ",")) {
        return true;
    }
    let mut k: usize = i;
    while k > 0
        invariant
            k <= i < t@.len(),
            no_fraction_before(views(t@), i as int),
            !is_key(views(t@), i - 1),
            first_in_subscript(views(t@), k - 1) == first_in_subscript(views(t@), i - 1),
        decreases k,
    {
        k -= 1;
        if sign_at(t, k, "[") {
            return true;
        }
        if is_open(&t[k]) || is_shut(&t[k]) || sign_at(t, k, ":") || sign_at(t, k, ",") {
            return false;
        }
    }
    false
}

fn check_times(t: &Vec<Token>, i: usize) -> (r: bool)
    requires
        i < t@.len() <= MAX_TOKENS,
    ensures
        r == times_few(views(t@), i as int),
{
    if i == 0 || sign_at(t, i - 1, "(") || sign_at(t, i - 1, ",") {
        return false;
    }
    let k = i + 2;
    if small_int_at(t, i + 1) && !sign_at(t, k, "|") && !sign_at(t, k, ".") && !sign_at(t, k, "[")
        && !sign_at(t, k, "(") && !sign_at(t, k, "**") && !word_at(t, k, "is") {
        return true;
    }
    if !small_int_at(t, i - 1) {
        return false;
    }
    if i == 1 {
        return true;
    }
    let b = i - 2;
    sign_at(t, b, "(") || sign_at(t, b, "[") || sign_at(t, b, ",") || sign_at(t, b, "=") || sign_at(
        t,
        b,
        "+",
    ) || sign_at(t, b, "-") || (t[b].kind == TokenKind::Name && is_lead(&t[b].text) && !(b > 0
        && sign_at(t, b - 1, ".")))
}

fn check_token(t: &Vec<Token>, i: usize) -> (r: bool)
    requires
        i < t@.len() <= MAX_TOKENS,
    ensures
        r == token_fits(views(t@), i as int),
{
    if t[i].kind == TokenKind::Name {
        check_word(t, i)
    } else if t[i].kind != TokenKind::Sign {
        true
    } else if text_eq(&t[i].text, "(") {
        check_bracket(t, i)
    } else if text_eq(&t[i].text, ":") {
        check_colon(t, i)
    } else if text_eq(&t[i].text, "*") {
        check_times(t, i)
    } else {
        !text_eq(&t[i].text, "**")
    }
}

fn constant(s: &str) -> (r: bool)
    ensures
        r == is_constant(s@),
{
    text_eq(s, "true") || text_eq(s, "false") || text_eq(s, "none") || text_eq(s, "True")
        || text_eq(s, "False") || text_eq(s, "None")
}

fn name_at(t: &Vec<Token>, i: usize) -> (r: bool)
    ensures
        r == is_name(views(t@), i as int),
{
    i < t.len() && t[i].kind == TokenKind::Name && !constant(&t[i].text)
}

fn check_left_open(t: &Vec<Token>, i: usize) -> (r: bool)
    requires
        i < t@.len() <= MAX_TOKENS,
    ensures
        r == left_open(views(t@), i as int),
{
    i == 0 || sign_at(t, i - 1, "(") || sign_at(t, i - 1, ",") || name_at(t, i - 1) || name_at(
        t,
        i + 1,
    )
}

fn check_size(t: &Vec<Token>) -> (r: bool)
    ensures
        r == size_fits(views(t@)),
{
    if t.len() > MAX_TOKENS {
        return false;
    }
    let mut n: usize = 0;
    let mut i: usize = 0;
    while i < t.len()
        invariant
            n <= i <= t@.len() <= MAX_TOKENS,
            n == products(views(t@), i as int),
        decreases t.len() - i,
    {
        if sign_at(t, i, "*") && !check_left_open(t, i) {
            n += 1;
        }
        i += 1;
    }
    n <= 2
}

fn check_tokens(t: &Vec<Token>) -> (r: bool)
    ensures
        r == tokens_fit(views(t@)),
{
    if !check_size(t) {
        return false;
    }
    let mut i: usize = 0;
    while i < t.len()
        invariant
            i <= t@.len() <= MAX_TOKENS,
            forall|k: int| 0 <= k < i ==> #[trigger] token_fits(views(t@), k),
        decreases t.len() - i,
    {
        if !check_token(t, i) {
            return false;
        }
        i += 1;
    }
    true
}

fn check_readable(t: &Vec<Token>) -> (r: bool)
    ensures
        r == tokens_readable(views(t@)),
{
    if !check_size(t) {
        return false;
    }
    let mut i: usize = 0;
    while i < t.len()
        invariant
            i <= t@.len() <= MAX_TOKENS,
            forall|k: int| 0 <= k < i ==> #[trigger] token_readable(views(t@), k),
        decreases t.len() - i,
    {
        let fits = if sign_at(t, i, "**") {
            check_left_open(t, i)
        } else if sign_at(t, i, "*") {
            check_left_open(t, i) || check_times(t, i)
        } else if sign_at(t, i, ":") {
            i == 0 || t[i - 1].kind != TokenKind::Float
        } else {
            true
        };
        assert(fits == token_readable(views(t@), i as int));
        if !fits {
            return false;
        }
        i += 1;
    }
    true
}

// ---------------------------------------------------------------------------------------------
// Growth
// ---------------------------------------------------------------------------------------------
/// How many times as large as the values of the context a value may become.
pub const MAX_GROWTH: u64 = 1_000_000;

/// A product, cut off above [`MAX_GROWTH`].
pub open spec fn times(a: nat, b: nat) -> nat {
    if a * b > MAX_GROWTH {
        (MAX_GROWTH + 1) as nat
    } else {
        a * b
    }
}

/// How many times as large the token at `i` can make what it is given, time and again. A value
/// that is written as text doubles its quotes.
pub open spec fn token_growth(t: Seq<TokenView>, i: int) -> nat {
    if is_filter(t, i) {
        let s = t[i].text;
        if s == "replace"@ || s == "join"@ || s == "indent"@ || s == "batch"@ || s == "slice"@ {
            100
        } else if growing_filter(s) || s == "split"@ || s == "map"@ {
            8
        } else if s == "trim"@ || s == "safe"@ {
            2
        } else {
            1
        }
    } else if sign(t, i, "*"@) {
        100
    } else if sign(t, i, "~"@) {
        2
    } else if word(t, i, "range"@) {
        1000
    } else {
        1
    }
}

/// Whether a keyword or a constant, rather than a variable, is meant by a name.
pub open spec fn is_keyword(s: Seq<char>) -> bool {
    leads(s) || s == "is"@ || s == "for"@ || s == "set"@ || s == "endif"@ || s == "endfor"@
        || is_constant(s)
}

/// Whether the token at `i` reads a variable, other than to look for its value or to bind it.
pub open spec fn reads_variable(t: Seq<TokenView>, i: int) -> bool {
    is_word(t, i) && !sign(t, i - 1, "."@) && !is_filter(t, i) && !is_test(t, i) && !is_keyword(
        t[i].text,
    ) && t[i].text != "range"@ && !sign(t, i + 1, "="@) && !word(t, i + 1, "in"@)
}

/// The growth of the first `n` tokens, and how many variables they read.
pub open spec fn growth_of(t: Seq<TokenView>, n: int) -> (nat, nat)
    decreases n,
{
    if n <= 0 {
        (1, 0)
    } else {
        let (g, reads) = growth_of(t, n - 1);
        (
            times(g, token_growth(t, n - 1)),
            if reads_variable(t, n - 1) {
                reads + 1
            } else {
                reads
            },
        )
    }
}

/// How many times as large as the values a tag reads a value in it can become.
pub open spec fn tag_growth(t: Seq<TokenView>) -> nat {
    let (g, reads) = growth_of(t, t.len() as int);
    times(
        g,
        if reads > 1 {
            reads
        } else {
            1
        },
    )
}

/// Whether a tag gives a value to a variable.
pub open spec fn assigns(tag: TagView) -> bool {
    tag.block && (word(tag.tokens, 0, "set"@) || word(tag.tokens, 0, "for"@))
}

/// What the first `n` tags amount to: the growth of the variables they set, the tokens they set
/// them with, and how many of them are `elif`.
pub open spec fn running(tags: Seq<TagView>, n: int) -> (nat, nat, nat)
    decreases n,
{
    if n <= 0 {
        (1, 0, 0)
    } else {
        let (growth, tokens, elifs) = running(tags, n - 1);
        let tag = tags[n - 1];
        (
            if assigns(tag) {
                times(growth, tag_growth(tag.tokens))
            } else {
                growth
            },
            if assigns(tag) {
                tokens + tag.tokens.len()
            } else {
                tokens
            },
            if tag.block && word(tag.tokens, 0, "elif"@) {
                elifs + 1
            } else {
                elifs
            },
        )
    }
}

fn capped(a: u64, b: u64) -> (r: u64)
    requires
        a <= MAX_GROWTH + 1,
        b <= MAX_GROWTH + 1,
    ensures
        r == times(a as nat, b as nat),
        r <= MAX_GROWTH + 1,
        1 <= a && 1 <= b ==> 1 <= r,
{
    proof {
        assert(a * b <= 1_000_001 * 1_000_001) by (nonlinear_arith)
            requires
                a <= 1_000_001,
                b <= 1_000_001,
        ;
        if 1 <= a && 1 <= b {
            assert(1 <= a * b) by (nonlinear_arith)
                requires
                    1 <= a,
                    1 <= b,
            ;
        }
    }
    let p: u64 = a * b;
    if p > MAX_GROWTH {
        MAX_GROWTH + 1
    } else {
        p
    }
}

fn growth_at(t: &Vec<Token>, i: usize) -> (r: u64)
    requires
        i < t@.len(),
    ensures
        r == token_growth(views(t@), i as int),
        1 <= r <= 1000,
{
    let s = t[i].text.as_str();
    if filter_at(t, i) {
        if text_eq(s, "replace") || text_eq(s, "join") || text_eq(s, "indent") || text_eq(
            s,
            "batch",
        ) || text_eq(s, "slice") {
            100
        } else if grows(s) || text_eq(s, "split") || text_eq(s, "map") {
            8
        } else if text_eq(s, "trim") || text_eq(s, "safe") {
            2
        } else {
            1
        }
    } else if sign_at(t, i, "*") {
        100
    } else if sign_at(t, i, "~") {
        2
    } else if word_at(t, i, "range") {
        1000
    } else {
        1
    }
}

fn reads_at(t: &Vec<Token>, i: usize) -> (r: bool)
    requires
        i < t@.len() <= MAX_TOKENS,
    ensures
        r == reads_variable(views(t@), i as int),
{
    let s = t[i].text.as_str();
    t[i].kind == TokenKind::Name && !(i > 0 && sign_at(t, i - 1, ".")) && !filter_at(t, i)
        && !test_at(t, i) && !(is_lead(s) || text_eq(s, "is") || text_eq(s, "for") || text_eq(
        s,
        "set",
    ) || text_eq(s, "endif") || text_eq(s, "endfor") || constant(s)) && !text_eq(s, "range")
        && !sign_at(t, i + 1, "=") && !word_at(t, i + 1, "in")
}

fn growth_in(t: &Vec<Token>) -> (r: u64)
    requires
        t@.len() <= MAX_TOKENS,
    ensures
        r == tag_growth(views(t@)),
        r <= MAX_GROWTH + 1,
{
    let mut g: u64 = 1;
    let mut reads: u64 = 0;
    let mut i: usize = 0;
    while i < t.len()
        invariant
            i <= t@.len() <= MAX_TOKENS,
            reads <= i,
            1 <= g <= MAX_GROWTH + 1,
            (g as nat, reads as nat) == growth_of(views(t@), i as int),
        decreases t.len() - i,
    {
        g = capped(g, growth_at(t, i));
        if reads_at(t, i) {
            reads += 1;
        }
        i += 1;
    }
    capped(
        g,
        if reads > 1 {
            reads
        } else {
            1
        },
    )
}

// ---------------------------------------------------------------------------------------------
// What the engine is handed
// ---------------------------------------------------------------------------------------------
/// How many characters a template may have.
pub const MAX_SOURCE: usize = 1_000_000_000;

/// How many characters a line of a template may have.
pub const MAX_LINE: usize = 65_000;

/// How many `elif` a template may have.
pub const MAX_ELIFS: u64 = 100;

/// How many tokens may set variables in a template.
pub const MAX_ASSIGNING: u64 = 1_000;

/// Whether every line from `i` on is short, with so many characters of the first one before `i`.
pub open spec fn lines_fit(s: Seq<char>, i: int, column: nat) -> bool
    decreases s.len() - i,
{
    if i < 0 || i >= s.len() {
        true
    } else if s[i] == '\n' {
        lines_fit(s, i + 1, 0)
    } else {
        column < MAX_LINE && lines_fit(s, i + 1, column + 1)
    }
}

/// Whether a source is short enough that its positions can be counted.
pub open spec fn source_fits(s: Seq<char>) -> bool {
    s.len() <= MAX_SOURCE && lines_fit(s, 0, 0)
}

/// Whether a template can be compiled: neither long operator chains, nor many `elif`, nor large
/// constants.
pub open spec fn engine_reads(source: Seq<char>) -> bool {
    source_fits(source) && (tags_of(source) matches Some(tags) && running(
        tags,
        tags.len() as int,
    ).2 <= MAX_ELIFS && forall|k: int|
        0 <= k < tags.len() ==> #[trigger] tokens_readable(tags[k].tokens))
}

/// Whether a statement is one that can be rendered.
pub open spec fn statement_fits(t: Seq<TokenView>) -> bool {
    word(t, 0, "if"@) || word(t, 0, "elif"@) || word(t, 0, "else"@) || word(t, 0, "endif"@) || word(
        t,
        0,
        "for"@,
    ) || word(t, 0, "endfor"@) || (word(t, 0, "set"@) && sign(t, 2, "="@))
}

/// Whether the tag at `k` can be rendered, after those before it.
pub open spec fn tag_fits(tags: Seq<TagView>, k: int) -> bool {
    &&& tags[k].block ==> statement_fits(tags[k].tokens)
    &&& tokens_fit(tags[k].tokens)
    &&& times(running(tags, k).0, tag_growth(tags[k].tokens)) <= MAX_GROWTH
}

/// Whether a template can be rendered in any context: it holds the statements, operators, filters
/// and tests that come to an end on every value, and not too many of them.
pub open spec fn engine_takes(source: Seq<char>) -> bool {
    source_fits(source) && (tags_of(source) matches Some(tags) && running(
        tags,
        tags.len() as int,
    ).2 <= MAX_ELIFS && running(tags, tags.len() as int).1 <= MAX_ASSIGNING && forall|k: int|
        0 <= k < tags.len() ==> #[trigger] tag_fits(tags, k))
}

/// Whether an expression by itself can be evaluated in any context.
pub open spec fn engine_takes_expr(source: Seq<char>) -> bool {
    let (tokens, end) = lex(source, 0, Close::Text, 0, Seq::empty());
    source_fits(source) && !(end is Unknown) && tokens_fit(tokens) && tag_growth(tokens)
        <= MAX_GROWTH
}

/// A template that can be rendered can be compiled.
pub proof fn what_is_taken_is_read(source: Seq<char>)
    requires
        engine_takes(source),
    ensures
        engine_reads(source),
{
    let tags = tags_of(source)->0;
    assert forall|k: int| 0 <= k < tags.len() implies #[trigger] tokens_readable(
        tags[k].tokens,
    ) by {
        assert(tag_fits(tags, k));
        let t = tags[k].tokens;
        assert forall|i: int| 0 <= i < t.len() implies #[trigger] token_readable(t, i) by {
            assert(token_fits(t, i));
            reveal_strlit("*");
            reveal_strlit("**");
            reveal_strlit("(");
            reveal_strlit(":");
            assert("*"@[0] != "("@[0] && "*"@[0] != ":"@[0]);
            assert("**"@.len() != "("@.len() && "**"@.len() != ":"@.len());
            assert("**"@.len() != "*"@.len());
            if t[i].kind == TokenKind::Sign && t[i].text == "**"@ {
                assert(false);
            }
            if t[i].kind == TokenKind::Sign && t[i].text == "*"@ {
                assert(times_few(t, i));
            }
            if t[i].kind == TokenKind::Sign && t[i].text == ":"@ {
                assert(":"@[0] != "("@[0]);
                assert(colon_fits(t, i));
            }
        }
    }
}

fn check_source(source: &str) -> (r: bool)
    ensures
        r == source_fits(source@),
{
    let s = chars_of(source);
    if s.len() > MAX_SOURCE {
        return false;
    }
    let mut i: usize = 0;
    let mut column: usize = 0;
    while i < s.len()
        invariant
            i <= s@.len(),
            s@ == source@,
            column <= i,
            lines_fit(s@, i as int, column as nat) == lines_fit(s@, 0, 0),
        decreases s.len() - i,
    {
        if s[i] == '\n' {
            column = 0;
        } else {
            if column >= MAX_LINE {
                return false;
            }
            column += 1;
        }
        i += 1;
    }
    true
}

/// Whether a template can be compiled.
pub fn can_read(source: &str) -> (r: bool)
    ensures
        r == engine_reads(source@),
{
    if !check_source(source) {
        return false;
    }
    let tags = match read_tags(source) {
        None => {
            return false;
        },
        Some(tags) => tags,
    };
    let ghost v = views(tags@);
    let mut elifs: u64 = 0;
    let mut k: usize = 0;
    while k < tags.len()
        invariant
            k <= tags@.len(),
            v == views(tags@),
            source_fits(source@),
            tags_of(source@) == Some(v),
            elifs <= k,
            elifs == running(v, k as int).2,
            forall|j: int| 0 <= j < k ==> #[trigger] tokens_readable(v[j].tokens),
        decreases tags.len() - k,
    {
        let tag = &tags[k];
        assert(v[k as int] == tag@);
        if !check_readable(&tag.tokens) {
            assert(!tokens_readable(v[k as int].tokens));
            return false;
        }
        if tag.block && word_at(&tag.tokens, 0, "elif") {
            elifs += 1;
        }
        k += 1;
    }
    elifs <= MAX_ELIFS
}

fn check_statement(t: &Vec<Token>) -> (r: bool)
    ensures
        r == statement_fits(views(t@)),
{
    word_at(t, 0, "if") || word_at(t, 0, "elif") || word_at(t, 0, "else") || word_at(t, 0, "endif")
        || word_at(t, 0, "for") || word_at(t, 0, "endfor") || (word_at(t, 0, "set") && sign_at(
        t,
        2,
        "=",
    ))
}

/// Whether a template can be rendered in any context.
pub fn can_take(source: &str) -> (r: bool)
    ensures
        r == engine_takes(source@),
{
    if !check_source(source) {
        return false;
    }
    let tags = match read_tags(source) {
        None => {
            return false;
        },
        Some(tags) => tags,
    };
    let ghost v = views(tags@);
    let mut growth: u64 = 1;
    let mut tokens: u64 = 0;
    let mut elifs: u64 = 0;
    let mut k: usize = 0;
    while k < tags.len()
        invariant
            k <= tags@.len(),
            v == views(tags@),
            growth <= MAX_GROWTH + 1,
            tokens <= MAX_ASSIGNING,
            elifs <= k,
            (growth as nat, tokens as nat, elifs as nat) == running(v, k as int),
            source_fits(source@),
            tags_of(source@) == Some(v),
            forall|j: int| 0 <= j < k ==> #[trigger] tag_fits(v, j),
        decreases tags.len() - k,
    {
        let tag = &tags[k];
        assert(v[k as int] == tag@);
        if (tag.block && !check_statement(&tag.tokens)) || !check_tokens(&tag.tokens) {
            assert(!tag_fits(v, k as int));
            return false;
        }
        let grown = capped(growth, growth_in(&tag.tokens));
        if grown > MAX_GROWTH {
            assert(!tag_fits(v, k as int));
            return false;
        }
        assert(tag_fits(v, k as int));
        if tag.block && (word_at(&tag.tokens, 0, "set") || word_at(&tag.tokens, 0, "for")) {
            growth = grown;
            tokens += tag.tokens.len() as u64;
        }
        if tag.block && word_at(&tag.tokens, 0, "elif") {
            elifs += 1;
        }
        k += 1;
        if tokens > MAX_ASSIGNING {
            proof {
                lemma_running_grows(v, k as int, v.len() as int);
            }
            return false;
        }
    }
    elifs <= MAX_ELIFS
}

proof fn lemma_running_grows(tags: Seq<TagView>, i: int, j: int)
    requires
        0 <= i <= j,
    ensures
        running(tags, i).1 <= running(tags, j).1,
    decreases j - i,
{
    if i < j {
        lemma_running_grows(tags, i, j - 1);
    }
}

/// Whether an expression by itself can be evaluated in any context.
pub fn can_take_expr(source: &str) -> (r: bool)
    ensures
        r == engine_takes_expr(source@),
{
    if !check_source(source) {
        return false;
    }
    let s = chars_of(source);
    let (tokens, end) = read_tokens(&s, 0, Close::Text);
    let known = match end {
        Ended::Unknown => false,
        _ => true,
    };
    known && check_tokens(&tokens) && growth_in(&tokens) <= MAX_GROWTH
}

proof fn lemma_no_tag(s: Seq<char>, i: int)
    requires
        !s.contains('{'),
        0 <= i,
    ensures
        crate::context::tokens::tag_start(s, i) is None,
    decreases s.len() - i,
{
    if i + 1 < s.len() {
        assert(s.contains(s[i]));
        lemma_no_tag(s, i + 1);
    }
}

/// A text without an opening brace holds no tags: it is compiled and rendered as long as its lines
/// can be counted.
pub proof fn plain_text_is_taken(s: Seq<char>)
    requires
        !s.contains('{'),
        source_fits(s),
    ensures
        engine_reads(s),
        engine_takes(s),
{
    lemma_no_tag(s, 0);
}

} // verus!
