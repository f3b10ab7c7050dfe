//! The tokens of a template, tag by tag.
//!
//! A template is text with tags in it: `{{ .. }}` holds an expression, `{% .. %}` a statement, and
//! `{# .. #}` a comment. What is read here is what the template engine reads, up to where it would
//! report a syntax error.

use super::scan::{ident_char, over_white};
use crate::names::views;
use crate::text::{
    chars_of, find_at, find_from, is_alpha, is_ascii_white, is_digit, is_ident_char, matches_at,
    occurs_at, text_eq, text_range,
};
use vstd::prelude::*;

verus! {

// ---------------------------------------------------------------------------------------------
// Tokens
// ---------------------------------------------------------------------------------------------
/// What a token is.
#[derive(Clone, Copy, Debug, PartialEq, Eq, Structural)]
pub enum TokenKind {
    /// An identifier or keyword.
    Name,
    /// A decimal integer.
    Int,
    /// A decimal fraction.
    Float,
    /// A string without escapes.
    Text,
    /// A string with escapes, as it is written.
    Escaped,
    /// An operator, a bracket or a separator.
    Sign,
}

/// A token of a tag.
#[derive(Debug)]
pub struct Token {
    pub kind: TokenKind,
    pub text: String,
}

/// The mathematical form of a [`Token`].
#[verifier::ext_equal]
pub struct TokenView {
    pub kind: TokenKind,
    pub text: Seq<char>,
}

impl View for Token {
    type V = TokenView;

    open spec fn view(&self) -> TokenView {
        TokenView { kind: self.kind, text: self.text@ }
    }
}

/// The first position at or after `i` that is no part of an identifier.
pub open spec fn over_ident(s: Seq<char>, i: int) -> int
    decreases s.len() - i,
{
    if 0 <= i < s.len() && is_ident_char(s[i]) {
        over_ident(s, i + 1)
    } else {
        i
    }
}

/// The first position at or after `i` that is no digit.
pub open spec fn over_digits(s: Seq<char>, i: int) -> int
    decreases s.len() - i,
{
    if 0 <= i < s.len() && is_digit(s[i]) {
        over_digits(s, i + 1)
    } else {
        i
    }
}

/// The position of the quote that ends a string, from `i` on; the length of the text when there
/// is none. A backslash keeps the character after it inside the string.
pub open spec fn string_end(s: Seq<char>, i: int, quote: char) -> int
    decreases s.len() - i,
{
    if i < 0 || i >= s.len() {
        s.len() as int
    } else if s[i] == '\\' {
        if i + 1 < s.len() {
            string_end(s, i + 2, quote)
        } else {
            s.len() as int
        }
    } else if s[i] == quote {
        i
    } else {
        string_end(s, i + 1, quote)
    }
}

/// What is read at a position.
pub enum Lexed {
    /// A token, and the position after it.
    Token(TokenView, int),
    /// Nothing that the language has: the engine reports a syntax error here.
    Broken,
    /// A form of number that is not looked into.
    Unknown,
}

/// Whether `c` can begin an identifier.
pub open spec fn begins_ident(c: char) -> bool {
    is_alpha(c) || c == '_'
}

/// Whether `c` is an operator, a bracket or a separator by itself.
pub open spec fn is_sign(c: char) -> bool {
    c == '+' || c == '-' || c == '*' || c == '/' || c == '%' || c == '.' || c == ',' || c == ':'
        || c == '~' || c == '|' || c == '=' || c == '>' || c == '<' || c == '(' || c == ')' || c
        == '[' || c == ']' || c == '{' || c == '}'
}

/// Whether two characters are one operator.
pub open spec fn is_double_sign(a: char, b: char) -> bool {
    (a == '/' && b == '/') || (a == '*' && b == '*') || (b == '=' && (a == '=' || a == '!' || a
        == '>' || a == '<'))
}

/// A token from `i` to `e`.
pub open spec fn token_of(kind: TokenKind, s: Seq<char>, i: int, e: int) -> Lexed {
    Lexed::Token(TokenView { kind, text: s.subrange(i, e) }, e)
}

/// The number at `i`.
pub open spec fn number_at(s: Seq<char>, i: int) -> Lexed {
    let e = over_digits(s, i);
    if e >= s.len() || (!is_ident_char(s[e]) && s[e] != '.') {
        token_of(TokenKind::Int, s, i, e)
    } else if s[e] != '.' || e + 1 >= s.len() {
        Lexed::Unknown
    } else if is_digit(s[e + 1]) {
        let f = over_digits(s, e + 1);
        if f >= s.len() || (!is_ident_char(s[f]) && s[f] != '.') {
            token_of(TokenKind::Float, s, i, f)
        } else {
            Lexed::Unknown
        }
    } else if begins_ident(s[e + 1]) && !((s[e + 1] == 'e' || s[e + 1] == 'E') && e + 2 < s.len()
        && (s[e + 2] == '+' || s[e + 2] == '-' || is_digit(s[e + 2]))) {
        token_of(TokenKind::Int, s, i, e)
    } else {
        Lexed::Unknown
    }
}

/// The string whose opening quote stands at `i`.
pub open spec fn string_at(s: Seq<char>, i: int) -> Lexed {
    let e = string_end(s, i + 1, s[i]);
    if e >= s.len() {
        Lexed::Broken
    } else {
        let text = s.subrange(i + 1, e);
        Lexed::Token(
            TokenView {
                kind: if text.contains('\\') {
                    TokenKind::Escaped
                } else {
                    TokenKind::Text
                },
                text,
            },
            e + 1,
        )
    }
}

/// What is read at `i`, which is not white space.
pub open spec fn token_at(s: Seq<char>, i: int) -> Lexed {
    let c = s[i];
    if begins_ident(c) {
        token_of(TokenKind::Name, s, i, over_ident(s, i))
    } else if is_digit(c) {
        number_at(s, i)
    } else if c == '\'' || c == '"' {
        string_at(s, i)
    } else if i + 1 < s.len() && is_double_sign(c, s[i + 1]) {
        token_of(TokenKind::Sign, s, i, i + 2)
    } else if is_sign(c) {
        token_of(TokenKind::Sign, s, i, i + 1)
    } else {
        Lexed::Broken
    }
}

/// What [`token_at`] reads, at run time.
enum Read {
    Token(Token, usize),
    Broken,
    Unknown,
}

spec fn read_view(r: Read) -> Lexed {
    match r {
        Read::Token(t, e) => Lexed::Token(t@, e as int),
        Read::Broken => Lexed::Broken,
        Read::Unknown => Lexed::Unknown,
    }
}

fn digit(c: char) -> (r: bool)
    ensures
        r == is_digit(c),
{
    '0' <= c && c <= '9'
}

fn ident_start(c: char) -> (r: bool)
    ensures
        r == begins_ident(c),
{
    ('a' <= c && c <= 'z') || ('A' <= c && c <= 'Z') || c == '_'
}

fn sign_char(c: char) -> (r: bool)
    ensures
        r == is_sign(c),
{
    c == '+' || c == '-' || c == '*' || c == '/' || c == '%' || c == '.' || c == ',' || c == ':'
        || c == '~' || c == '|' || c == '=' || c == '>' || c == '<' || c == '(' || c == ')' || c
        == '[' || c == ']' || c == '{' || c == '}'
}

fn skip_white(s: &Vec<char>, from: usize) -> (r: usize)
    requires
        from <= s@.len(),
    ensures
        r == over_white(s@, from as int),
        from <= r <= s@.len(),
        r < s@.len() ==> !is_ascii_white(s@[r as int]),
{
    let mut i: usize = from;
    while i < s.len() && (s[i] == ' ' || s[i] == '\t' || s[i] == '\n' || s[i] as u32 == 0xc || s[i]
        == '\r')
        invariant
            from <= i <= s@.len(),
            over_white(s@, i as int) == over_white(s@, from as int),
        decreases s.len() - i,
    {
        i += 1;
    }
    i
}

fn skip_digits(s: &Vec<char>, from: usize) -> (r: usize)
    requires
        from <= s@.len(),
    ensures
        r == over_digits(s@, from as int),
        from <= r <= s@.len(),
        from < s@.len() && is_digit(s@[from as int]) ==> from < r,
{
    let mut i: usize = from;
    while i < s.len() && digit(s[i])
        invariant
            from <= i <= s@.len(),
            over_digits(s@, i as int) == over_digits(s@, from as int),
            i > from || i == from,
        decreases s.len() - i,
    {
        i += 1;
    }
    i
}

fn skip_ident(s: &Vec<char>, from: usize) -> (r: usize)
    requires
        from <= s@.len(),
    ensures
        r == over_ident(s@, from as int),
        from <= r <= s@.len(),
        from < s@.len() && is_ident_char(s@[from as int]) ==> from < r,
{
    let mut i: usize = from;
    while i < s.len() && ident_char(s[i])
        invariant
            from <= i <= s@.len(),
            over_ident(s@, i as int) == over_ident(s@, from as int),
        decreases s.len() - i,
    {
        i += 1;
    }
    i
}

fn find_quote(s: &Vec<char>, from: usize, quote: char) -> (r: usize)
    requires
        from <= s@.len(),
    ensures
        r == string_end(s@, from as int, quote),
        from <= r <= s@.len(),
{
    let mut i: usize = from;
    while i < s.len()
        invariant
            from <= i <= s@.len(),
            string_end(s@, i as int, quote) == string_end(s@, from as int, quote),
        decreases s.len() - i,
    {
        if s[i] == '\\' {
            if s.len() - i < 2 {
                return s.len();
            }
            i += 2;
        } else if s[i] == quote {
            return i;
        } else {
            i += 1;
        }
    }
    i
}

fn make(kind: TokenKind, s: &Vec<char>, i: usize, e: usize) -> (r: Read)
    requires
        i <= e <= s@.len(),
    ensures
        read_view(r) == token_of(kind, s@, i as int, e as int),
{
    Read::Token(Token { kind, text: text_range(s, i, e) }, e)
}

fn read_number(s: &Vec<char>, i: usize) -> (r: Read)
    requires
        i < s@.len(),
        is_digit(s@[i as int]),
    ensures
        read_view(r) == number_at(s@, i as int),
        r matches Read::Token(_, e) ==> i < e <= s@.len(),
{
    let e = skip_digits(s, i);
    if e >= s.len() || (!ident_char(s[e]) && s[e] != '.') {
        make(TokenKind::Int, s, i, e)
    } else if s[e] != '.' || e + 1 >= s.len() {
        Read::Unknown
    } else if digit(s[e + 1]) {
        let f = skip_digits(s, e + 1);
        if f >= s.len() || (!ident_char(s[f]) && s[f] != '.') {
            make(TokenKind::Float, s, i, f)
        } else {
            Read::Unknown
        }
    } else if ident_start(s[e + 1]) && !((s[e + 1] == 'e' || s[e + 1] == 'E') && e + 2 < s.len()
        && (s[e + 2] == '+' || s[e + 2] == '-' || digit(s[e + 2]))) {
        make(TokenKind::Int, s, i, e)
    } else {
        Read::Unknown
    }
}

fn has_backslash(s: &Vec<char>, lo: usize, hi: usize) -> (r: bool)
    requires
        lo <= hi <= s@.len(),
    ensures
        r == s@.subrange(lo as int, hi as int).contains('\\'),
{
    let ghost part = s@.subrange(lo as int, hi as int);
    let mut i: usize = lo;
    while i < hi
        invariant
            lo <= i <= hi <= s@.len(),
            part == s@.subrange(lo as int, hi as int),
            forall|k: int| 0 <= k < i - lo ==> part[k] != '\\',
        decreases hi - i,
    {
        assert(part[i - lo] == s@[i as int]);
        if s[i] == '\\' {
            return true;
        }
        i += 1;
    }
    false
}

fn read_string(s: &Vec<char>, i: usize) -> (r: Read)
    requires
        i < s@.len(),
    ensures
        read_view(r) == string_at(s@, i as int),
        r matches Read::Token(_, e) ==> i < e <= s@.len(),
{
    let n = s.len();
    let e = find_quote(s, i + 1, s[i]);
    if e >= n {
        return Read::Broken;
    }
    let kind = if has_backslash(s, i + 1, e) {
        TokenKind::Escaped
    } else {
        TokenKind::Text
    };
    Read::Token(Token { kind, text: text_range(s, i + 1, e) }, e + 1)
}

fn read_token(s: &Vec<char>, i: usize) -> (r: Read)
    requires
        i < s@.len(),
    ensures
        read_view(r) == token_at(s@, i as int),
        r matches Read::Token(_, e) ==> i < e <= s@.len(),
{
    let n = s.len();
    let c = s[i];
    if ident_start(c) {
        let e = skip_ident(s, i);
        make(TokenKind::Name, s, i, e)
    } else if digit(c) {
        read_number(s, i)
    } else if c == '\'' || c == '"' {
        read_string(s, i)
    } else if n - i > 1 && ((c == '/' && s[i + 1] == '/') || (c == '*' && s[i + 1] == '*')
        || (s[i + 1] == '=' && (c == '=' || c == '!' || c == '>' || c == '<'))) {
        make(TokenKind::Sign, s, i, i + 2)
    } else if sign_char(c) {
        make(TokenKind::Sign, s, i, i + 1)
    } else {
        Read::Broken
    }
}

// ---------------------------------------------------------------------------------------------
// Tags
// ---------------------------------------------------------------------------------------------
/// What ends a run of tokens.
#[derive(Clone, Copy, Debug, PartialEq, Eq, Structural)]
pub enum Close {
    /// `}}`.
    Variable,
    /// `%}`.
    Block,
    /// The end of the text: the tokens are an expression by itself.
    Text,
}

/// How long the end marker at `i` is, with a white-space sign before it; none when there is none.
pub open spec fn close_len(s: Seq<char>, i: int, close: Close) -> int {
    let a = if close == Close::Block {
        '%'
    } else {
        '}'
    };
    if i + 1 < s.len() && s[i] == a && s[i + 1] == '}' {
        2
    } else if i + 2 < s.len() && (s[i] == '-' || s[i] == '+') && s[i + 1] == a && s[i + 2] == '}' {
        3
    } else {
        0
    }
}

/// Where a run of tokens ends.
pub enum LexEnd {
    /// Before this position, after its end marker.
    Closed(int),
    /// At the end of the text, or where the engine reports a syntax error.
    Open,
    /// At something that is not looked into.
    Unknown,
}

/// Whether a token opens a bracket.
pub open spec fn opens(t: TokenView) -> bool {
    t.kind == TokenKind::Sign && (t.text == "("@ || t.text == "["@ || t.text == "{"@)
}

/// Whether a token closes a bracket.
pub open spec fn shuts(t: TokenView) -> bool {
    t.kind == TokenKind::Sign && (t.text == ")"@ || t.text == "]"@ || t.text == "}"@)
}

/// How many brackets may be open at once.
pub const MAX_OPEN: usize = 30;

/// The tokens from `i` on, after those read so far, with so many brackets open; and where they
/// end.
pub open spec fn lex(
    s: Seq<char>,
    i: int,
    close: Close,
    open: nat,
    read: Seq<TokenView>,
) -> (Seq<TokenView>, LexEnd)
    decreases s.len() - i,
{
    let j = over_white(s, i);
    let n = close_len(s, j, close);
    if i < 0 || j < i || j >= s.len() {
        (read, LexEnd::Open)
    } else if open == 0 && n > 0 {
        (
            read,
            if close == Close::Text {
                LexEnd::Unknown
            } else {
                LexEnd::Closed(j + n)
            },
        )
    } else {
        match token_at(s, j) {
            Lexed::Broken => (read, LexEnd::Open),
            Lexed::Unknown => (read, LexEnd::Unknown),
            Lexed::Token(t, e) => if !(j < e <= s.len()) || (opens(t) && open >= MAX_OPEN) {
                (read, LexEnd::Unknown)
            } else if opens(t) {
                lex(s, e, close, open + 1, read.push(t))
            } else if !shuts(t) {
                lex(s, e, close, open, read.push(t))
            } else if open > 0 {
                lex(s, e, close, (open - 1) as nat, read.push(t))
            } else {
                (read, LexEnd::Open)
            },
        }
    }
}

pub(crate) fn is_text(t: &Token, kind: TokenKind, text: &str) -> (r: bool)
    ensures
        r == (t@.kind == kind && t@.text == text@),
{
    t.kind == kind && text_eq(&t.text, text)
}

fn closing(s: &Vec<char>, i: usize, close: Close) -> (r: usize)
    requires
        i < s@.len(),
    ensures
        r == close_len(s@, i as int, close),
        i + r <= s@.len(),
{
    let a = if close == Close::Block {
        '%'
    } else {
        '}'
    };
    let left = s.len() - i;
    if left > 1 && s[i] == a && s[i + 1] == '}' {
        2
    } else if left > 2 && (s[i] == '-' || s[i] == '+') && s[i + 1] == a && s[i + 2] == '}' {
        3
    } else {
        0
    }
}

/// Where [`lex`] ends, at run time.
pub(crate) enum Ended {
    Closed(usize),
    Open,
    Unknown,
}

pub(crate) open spec fn ended_view(e: Ended) -> LexEnd {
    match e {
        Ended::Closed(i) => LexEnd::Closed(i as int),
        Ended::Open => LexEnd::Open,
        Ended::Unknown => LexEnd::Unknown,
    }
}

pub(crate) fn read_tokens(s: &Vec<char>, from: usize, close: Close) -> (r: (Vec<Token>, Ended))
    requires
        from <= s@.len(),
    ensures
        (views(r.0@), ended_view(r.1)) == lex(s@, from as int, close, 0, Seq::empty()),
        r.1 matches Ended::Closed(e) ==> from < e <= s@.len(),
{
    let mut out: Vec<Token> = Vec::new();
    let mut open: usize = 0;
    let mut i: usize = from;
    assert(views(out@) =~= Seq::<TokenView>::empty());
    loop
        invariant
            from <= i <= s@.len(),
            open <= i,
            lex(s@, i as int, close, open as nat, views(out@)) == lex(
                s@,
                from as int,
                close,
                0,
                Seq::empty(),
            ),
        decreases s.len() - i,
    {
        let j = skip_white(s, i);
        if j >= s.len() {
            return (out, Ended::Open);
        }
        let n = closing(s, j, close);
        if open == 0 && n > 0 {
            return (
                out,
                if close == Close::Text {
                    Ended::Unknown
                } else {
                    Ended::Closed(j + n)
                },
            );
        }
        match read_token(s, j) {
            Read::Broken => {
                return (out, Ended::Open);
            },
            Read::Unknown => {
                return (out, Ended::Unknown);
            },
            Read::Token(t, e) => {
                let ghost tv = t@;
                let ghost was = out@;
                let sign = t.kind == TokenKind::Sign;
                let up = sign && (text_eq(&t.text, "(") || text_eq(&t.text, "[") || text_eq(
                    &t.text,
                    "{",
                ));
                let down = sign && (text_eq(&t.text, ")") || text_eq(&t.text, "]") || text_eq(
                    &t.text,
                    "}",
                ));
                assert(up == opens(tv));
                assert(down == shuts(tv));
                if up && open >= MAX_OPEN {
                    return (out, Ended::Unknown);
                }
                if !up && down && open == 0 {
                    return (out, Ended::Open);
                }
                out.push(t);
                assert(views(out@) =~= views(was).push(tv));
                if up {
                    open += 1;
                } else if down {
                    open -= 1;
                }
                i = e;
            },
        }
    }
}

/// A tag of a template.
#[derive(Debug)]
pub struct Tag {
    /// Whether it is a statement, not an expression.
    pub block: bool,
    pub tokens: Vec<Token>,
}

/// The mathematical form of a [`Tag`].
#[verifier::ext_equal]
pub struct TagView {
    pub block: bool,
    pub tokens: Seq<TokenView>,
}

impl View for Tag {
    type V = TagView;

    open spec fn view(&self) -> TagView {
        TagView { block: self.block, tokens: views(self.tokens@) }
    }
}

/// The first position at or after `i` where a tag or a comment begins.
pub open spec fn tag_start(s: Seq<char>, i: int) -> Option<int>
    decreases s.len() - i,
{
    if i < 0 || i + 1 >= s.len() {
        None
    } else if s[i] == '{' && (s[i + 1] == '{' || s[i + 1] == '%' || s[i + 1] == '#') {
        Some(i)
    } else {
        tag_start(s, i + 1)
    }
}

/// The position after a white-space sign at `i`, if there is one.
pub open spec fn past_sign(s: Seq<char>, i: int) -> int {
    if i < s.len() && (s[i] == '-' || s[i] == '+') {
        i + 1
    } else {
        i
    }
}

/// The position after a statement that is only `name`, from after its `{%` on, if it is that.
pub open spec fn lone_tag(s: Seq<char>, i: int, name: Seq<char>) -> Option<int> {
    let b = over_white(s, i);
    let d = past_sign(s, over_white(s, b + name.len()));
    if occurs_at(s, name, b) && occurs_at(s, "%}"@, d) {
        Some(d + 2)
    } else {
        None
    }
}

/// The position after the `endraw` of a raw text that begins at `i`.
pub open spec fn raw_end(s: Seq<char>, i: int) -> Option<int>
    decreases s.len() - i,
{
    match find_from(s, "{%"@, i) {
        None => None,
        Some(q) => if !(i <= q && q + 2 <= s.len()) {
            None
        } else {
            match lone_tag(s, past_sign(s, q + 2), "endraw"@) {
                Some(e) => Some(e),
                None => raw_end(s, q + 2),
            }
        },
    }
}

/// The tags of a template from `i` on, after those read so far; none when something in them is
/// not looked into. They end where the engine reports a syntax error.
pub open spec fn tags_from(s: Seq<char>, i: int, read: Seq<TagView>) -> Option<Seq<TagView>>
    decreases s.len() - i,
{
    match tag_start(s, i) {
        None => Some(read),
        Some(k) => {
            let body = past_sign(s, k + 2);
            if !(i <= k && k + 2 <= body <= s.len()) {
                None
            } else if s[k + 1] == '#' {
                match find_from(s, "#}"@, body) {
                    None => Some(read),
                    Some(e) => if body <= e && e + 2 <= s.len() {
                        tags_from(s, e + 2, read)
                    } else {
                        None
                    },
                }
            } else {
                let raw = if s[k + 1] == '%' {
                    lone_tag(s, body, "raw"@)
                } else {
                    None
                };
                match raw {
                    Some(p) => match raw_end(s, p) {
                        None => Some(read),
                        Some(e) => if i < e <= s.len() {
                            tags_from(s, e, read)
                        } else {
                            None
                        },
                    },
                    None => {
                        let block = s[k + 1] == '%';
                        let (tokens, end) = lex(
                            s,
                            body,
                            if block {
                                Close::Block
                            } else {
                                Close::Variable
                            },
                            0,
                            Seq::empty(),
                        );
                        let more = read.push(TagView { block, tokens });
                        match end {
                            LexEnd::Unknown => None,
                            LexEnd::Open => Some(more),
                            LexEnd::Closed(e) => if i < e <= s.len() {
                                tags_from(s, e, more)
                            } else {
                                None
                            },
                        }
                    },
                }
            }
        },
    }
}

/// The tags of a template.
pub open spec fn tags_of(s: Seq<char>) -> Option<Seq<TagView>> {
    tags_from(s, 0, Seq::empty())
}

fn find_tag(s: &Vec<char>, from: usize) -> (r: Option<usize>)
    requires
        from <= s@.len(),
    ensures
        match r {
            Some(k) => tag_start(s@, from as int) == Some(k as int) && from <= k && k + 1
                < s@.len(),
            None => tag_start(s@, from as int) is None,
        },
{
    let mut i: usize = from;
    while i < s.len() && s.len() - i > 1
        invariant
            from <= i <= s@.len(),
            tag_start(s@, i as int) == tag_start(s@, from as int),
        decreases s.len() - i,
    {
        if s[i] == '{' && (s[i + 1] == '{' || s[i + 1] == '%' || s[i + 1] == '#') {
            return Some(i);
        }
        i += 1;
    }
    None
}

fn after_sign(s: &Vec<char>, i: usize) -> (r: usize)
    requires
        i <= s@.len(),
    ensures
        r == past_sign(s@, i as int),
        i <= r <= s@.len(),
{
    if i < s.len() && (s[i] == '-' || s[i] == '+') {
        i + 1
    } else {
        i
    }
}

fn find_lone_tag(s: &Vec<char>, i: usize, name: &Vec<char>, end: &Vec<char>) -> (r: Option<usize>)
    requires
        i <= s@.len(),
        end@ == "%}"@,
        end@.len() == 2,
    ensures
        match r {
            Some(e) => lone_tag(s@, i as int, name@) == Some(e as int) && i < e <= s@.len(),
            None => lone_tag(s@, i as int, name@) is None,
        },
{
    let n = s.len();
    let b = skip_white(s, i);
    if !matches_at(s, name, b) {
        return None;
    }
    assert(b + name@.len() <= n);
    let c = skip_white(s, b + name.len());
    let d = after_sign(s, c);
    if matches_at(s, end, d) {
        assert(d + 2 <= n);
        Some(d + 2)
    } else {
        None
    }
}

fn find_raw_end(s: &Vec<char>, from: usize) -> (r: Option<usize>)
    requires
        from <= s@.len(),
    ensures
        match r {
            Some(e) => raw_end(s@, from as int) == Some(e as int) && from < e <= s@.len(),
            None => raw_end(s@, from as int) is None,
        },
{
    proof {
        reveal_strlit("{%");
        reveal_strlit("%}");
    }
    let start = chars_of("{%");
    let end = chars_of("%}");
    let name = chars_of("endraw");
    let mut i: usize = from;
    loop
        invariant
            from <= i <= s@.len(),
            start@ == "{%"@,
            start@.len() == 2,
            end@ == "%}"@,
            end@.len() == 2,
            name@ == "endraw"@,
            raw_end(s@, i as int) == raw_end(s@, from as int),
        decreases s.len() - i,
    {
        proof {
            crate::text::lemma_find_from(s@, "{%"@, i as int);
        }
        match find_at(s, &start, i) {
            None => {
                return None;
            },
            Some(q) => {
                let at = after_sign(s, q + 2);
                match find_lone_tag(s, at, &name, &end) {
                    Some(e) => {
                        return Some(e);
                    },
                    None => {
                        i = q + 2;
                    },
                }
            },
        }
    }
}

pub(crate) fn read_tags(source: &str) -> (r: Option<Vec<Tag>>)
    ensures
        match r {
            Some(v) => tags_of(source@) == Some(views(v@)),
            None => tags_of(source@) is None,
        },
{
    proof {
        reveal_strlit("#}");
        reveal_strlit("%}");
    }
    let s = chars_of(source);
    let comment_end = chars_of("#}");
    let block_end = chars_of("%}");
    let raw = chars_of("raw");
    let mut out: Vec<Tag> = Vec::new();
    let mut i: usize = 0;
    assert(views(out@) =~= Seq::<TagView>::empty());
    loop
        invariant
            s@ == source@,
            comment_end@ == "#}"@,
            comment_end@.len() == 2,
            block_end@ == "%}"@,
            block_end@.len() == 2,
            raw@ == "raw"@,
            i <= s@.len(),
            tags_from(s@, i as int, views(out@)) == tags_of(source@),
        decreases s.len() - i,
    {
        let k = match find_tag(&s, i) {
            None => {
                return Some(out);
            },
            Some(k) => k,
        };
        let body = after_sign(&s, k + 2);
        if s[k + 1] == '#' {
            proof {
                crate::text::lemma_find_from(s@, "#}"@, body as int);
            }
            match find_at(&s, &comment_end, body) {
                None => {
                    return Some(out);
                },
                Some(e) => {
                    i = e + 2;
                    continue;
                },
            }
        }
        let block = s[k + 1] == '%';
        let lone = if block {
            find_lone_tag(&s, body, &raw, &block_end)
        } else {
            None
        };
        if let Some(p) = lone {
            match find_raw_end(&s, p) {
                None => {
                    return Some(out);
                },
                Some(e) => {
                    i = e;
                    continue;
                },
            }
        }
        let (tokens, end) = read_tokens(
            &s,
            body,
            if block {
                Close::Block
            } else {
                Close::Variable
            },
        );
        let ghost tv = views(tokens@);
        let ghost was = out@;
        out.push(Tag { block, tokens });
        assert(views(out@) =~= views(was).push(TagView { block, tokens: tv }));
        match end {
            Ended::Unknown => {
                return None;
            },
            Ended::Open => {
                return Some(out);
            },
            Ended::Closed(e) => {
                i = e;
            },
        }
    }
}

} // verus!
