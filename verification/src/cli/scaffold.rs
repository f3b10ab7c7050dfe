//! Templates of recipes.
//!
//! A recipe opts in with a leading `# odin:template … # end` comment block that declares its
//! variables; its body then holds `@@VAR@@` markers. A recipe without the block is no template
//! and is copied as it is, and nothing but such markers is touched in a body.

use crate::names::{has_key, lookup, put, views, OrderedMap, Replicate};
use crate::text::{
    blank, chars_of, concat2, concat3, concat4, concat5, contains, contains_text, debug_quoted,
    find_at, find_from, is_blank, is_digit, is_ident_char, join, joined, lemma_find_from, less,
    lines, lines_of, matches_at, occurs_at, opt_text, quote_debug, starts_with, text_eq, text_less,
    text_of, text_range, texts, trim, trimmed, trimmed_start, whitespace,
};
use crate::yaml::{entry, find_entry, parse_yaml, untag, untagged, yaml_parsed, Yaml, YamlView};
use vstd::prelude::*;

verus! {

// ---------------------------------------------------------------------------------------------
// Variables
// ---------------------------------------------------------------------------------------------
/// A declared template variable.
#[derive(Debug)]
pub struct VarInfo {
    pub name: String,
    pub default: Option<String>,
    pub required: bool,
    pub description: Option<String>,
}

/// The mathematical form of a [`VarInfo`].
#[verifier::ext_equal]
pub struct VarView {
    pub name: Seq<char>,
    pub default: Option<Seq<char>>,
    pub required: bool,
    pub description: Option<Seq<char>>,
}

impl View for VarInfo {
    type V = VarView;

    open spec fn view(&self) -> VarView {
        VarView {
            name: self.name@,
            default: opt_text(self.default),
            required: self.required,
            description: opt_text(self.description),
        }
    }
}

impl Replicate for VarInfo {
    fn replicate(&self) -> (r: Self) {
        VarInfo {
            name: self.name.clone(),
            default: self.default.clone(),
            required: self.required,
            description: self.description.clone(),
        }
    }
}

/// The text of a scalar: a string, number or boolean.
pub open spec fn scalar_text(v: YamlView) -> Option<Seq<char>> {
    match v {
        YamlView::String(s) => Some(s),
        YamlView::Bool(b) => Some(
            if b {
                "true"@
            } else {
                "false"@
            },
        ),
        YamlView::Number(n) => Some(n),
        _ => None,
    }
}

/// The text of a scalar, for a default value.
pub fn scalar_string(v: &Yaml) -> (r: Option<String>)
    ensures
        opt_text(r) == scalar_text(v@),
{
    match v {
        Yaml::String(s) => Some(s.clone()),
        Yaml::Bool(b) => Some(
            if *b {
                "true".to_owned()
            } else {
                "false".to_owned()
            },
        ),
        Yaml::Number(n) => Some(n.clone()),
        _ => None,
    }
}

/// A variable as the values of its spec declare it. It is required when the spec says so, or when
/// it has no default and the spec does not say otherwise.
pub open spec fn declared_var(
    name: Seq<char>,
    default: Option<YamlView>,
    required: Option<YamlView>,
    description: Option<YamlView>,
) -> VarView {
    let d = match default {
        Some(v) => scalar_text(v),
        None => None,
    };
    VarView {
        name,
        default: d,
        required: match required {
            Some(v) => match untagged(v) {
                YamlView::Bool(b) => b,
                _ => d is None,
            },
            None => d is None,
        },
        description: match description {
            Some(v) => match untagged(v) {
                YamlView::String(s) => Some(s),
                _ => None,
            },
            None => None,
        },
    }
}

/// A variable as the values of its spec declare it.
pub fn declare(
    name: String,
    default: Option<Yaml>,
    required: Option<Yaml>,
    description: Option<Yaml>,
) -> (r: VarInfo)
    ensures
        r@ == declared_var(
            name@,
            crate::names::opt_view(default),
            crate::names::opt_view(required),
            crate::names::opt_view(description),
        ),
{
    let default = match default {
        Some(v) => scalar_string(&v),
        None => None,
    };
    let required = match required {
        Some(v) => match untag(v) {
            Yaml::Bool(b) => b,
            _ => default.is_none(),
        },
        None => default.is_none(),
    };
    let description = match description {
        Some(v) => match untag(v) {
            Yaml::String(s) => Some(s),
            _ => None,
        },
        None => None,
    };
    VarInfo { name, default, required, description }
}

/// A variable, from the YAML text of its spec.
pub open spec fn parsed_spec(name: Seq<char>, spec: Seq<char>) -> VarView {
    match yaml_parsed(spec) {
        Ok(v) => match untagged(v) {
            YamlView::Mapping(m) => declared_var(
                name,
                entry(m, "default"@, 0),
                entry(m, "required"@, 0),
                entry(m, "description"@, 0),
            ),
            _ => declared_var(name, None, None, None),
        },
        Err(_) => declared_var(name, None, None, None),
    }
}

fn parse_spec(name: String, spec: &str) -> (r: VarInfo)
    ensures
        r@ == parsed_spec(name@, spec@),
{
    match parse_yaml(spec) {
        Ok(v) => match untag(v) {
            Yaml::Mapping(m) => declare(
                name,
                find_entry(&m, "default"),
                find_entry(&m, "required"),
                find_entry(&m, "description"),
            ),
            _ => declare(name, None, None, None),
        },
        Err(_) => declare(name, None, None, None),
    }
}

/// The name a key declares, if it is a text.
pub open spec fn key_name(key: Seq<char>) -> Option<Seq<char>> {
    match yaml_parsed(key) {
        Ok(v) => match untagged(v) {
            YamlView::String(s) => Some(s),
            _ => None,
        },
        Err(_) => None,
    }
}

/// The variables of a header's entries, or why they are none.
pub open spec fn entries_vars(m: Seq<(Seq<char>, Seq<char>)>) -> Result<Seq<VarView>, Seq<char>>
    decreases m.len(),
{
    if m.len() == 0 {
        Ok(Seq::empty())
    } else {
        match entries_vars(m.drop_last()) {
            Err(e) => Err(e),
            Ok(before) => match key_name(m.last().0) {
                Some(name) => Ok(before.push(parsed_spec(name, m.last().1))),
                None => Err("a template variable name must be a string"@),
            },
        }
    }
}

/// The variables that a header declares, or why it is no header.
pub open spec fn header_vars(yaml: Seq<char>) -> Result<Seq<VarView>, Seq<char>> {
    match yaml_parsed(yaml) {
        Err(e) => Err("the `# odin:template` header is not valid YAML: "@ + e),
        Ok(v) => match untagged(v) {
            YamlView::Mapping(m) => entries_vars(m),
            _ => Err("the `# odin:template` header must map each variable name to a spec"@),
        },
    }
}

fn name_of_key(key: &str) -> (r: Option<String>)
    ensures
        opt_text(r) == key_name(key@),
{
    match parse_yaml(key) {
        Ok(v) => match untag(v) {
            Yaml::String(s) => Some(s),
            _ => None,
        },
        Err(_) => None,
    }
}

proof fn lemma_entries_fail_early(m: Seq<(Seq<char>, Seq<char>)>, k: int)
    requires
        0 <= k <= m.len(),
        entries_vars(m.take(k)) is Err,
    ensures
        entries_vars(m) == entries_vars(m.take(k)),
    decreases m.len() - k,
{
    if k < m.len() {
        assert(m.take(k + 1).drop_last() =~= m.take(k));
        lemma_entries_fail_early(m, k + 1);
    } else {
        assert(m.take(k) =~= m);
    }
}

/// The mathematical form of parsed variables.
pub open spec fn vars_view(r: Result<Vec<VarInfo>, String>) -> Result<Seq<VarView>, Seq<char>> {
    match r {
        Ok(v) => Ok(views(v@)),
        Err(e) => Err(e@),
    }
}

fn vars_of(m: &Vec<(String, String)>) -> (r: Result<Vec<VarInfo>, String>)
    ensures
        vars_view(r) == entries_vars(crate::json::members_view(m@)),
{
    let ghost mv = crate::json::members_view(m@);
    let mut out: Vec<VarInfo> = Vec::new();
    let mut i: usize = 0;
    assert(views(out@) =~= Seq::<VarView>::empty());
    assert(mv.take(0) =~= Seq::<(Seq<char>, Seq<char>)>::empty());
    while i < m.len()
        invariant
            i <= m.len(),
            mv == crate::json::members_view(m@),
            entries_vars(mv.take(i as int)) == Ok::<Seq<VarView>, Seq<char>>(views(out@)),
        decreases m.len() - i,
    {
        assert(mv.take(i + 1).drop_last() =~= mv.take(i as int));
        assert(mv[i as int] == (m@[i as int].0@, m@[i as int].1@));
        match name_of_key(&m[i].0) {
            Some(name) => {
                let ghost was = out@;
                let x = parse_spec(name, &m[i].1);
                let ghost xv = x@;
                out.push(x);
                assert(views(out@) =~= views(was).push(xv));
            },
            None => {
                proof {
                    lemma_entries_fail_early(mv, i + 1);
                }
                return Err("a template variable name must be a string".to_owned());
            },
        }
        i += 1;
    }
    assert(mv.take(i as int) =~= mv);
    Ok(out)
}

/// The variables that a header declares.
pub fn parse_vars(yaml: &str) -> (r: Result<Vec<VarInfo>, String>)
    ensures
        vars_view(r) == header_vars(yaml@),
{
    match parse_yaml(yaml) {
        Err(e) => Err(concat2("the `# odin:template` header is not valid YAML: ", &e)),
        Ok(v) => match untag(v) {
            Yaml::Mapping(m) => vars_of(&m),
            _ => Err(
                "the `# odin:template` header must map each variable name to a spec".to_owned(),
            ),
        },
    }
}

// ---------------------------------------------------------------------------------------------
// The header
// ---------------------------------------------------------------------------------------------
/// A recipe's template: its variables in the order of their declarations, and the body without
/// the header.
#[derive(Debug)]
pub struct Template {
    pub vars: Vec<VarInfo>,
    pub body: String,
}

/// The mathematical form of a [`Template`].
#[verifier::ext_equal]
pub struct TemplateView {
    pub vars: Seq<VarView>,
    pub body: Seq<char>,
}

impl View for Template {
    type V = TemplateView;

    open spec fn view(&self) -> TemplateView {
        TemplateView { vars: views(self.vars@), body: self.body@ }
    }
}

/// The first line at or after `from` that holds nothing but `what`; the number of lines when
/// there is none.
pub open spec fn marker_line(ls: Seq<Seq<char>>, what: Seq<char>, from: int) -> int
    decreases ls.len() - from,
{
    if from < 0 || from >= ls.len() {
        ls.len() as int
    } else if trimmed(ls[from]) == what {
        from
    } else {
        marker_line(ls, what, from + 1)
    }
}

/// A comment line without its `#` and one space behind it.
pub open spec fn uncommented(line: Seq<char>) -> Seq<char> {
    let t = trimmed_start(line);
    let rest = if t.len() > 0 && t[0] == '#' {
        t.drop_first()
    } else {
        t
    };
    if rest.len() > 0 && rest[0] == ' ' {
        rest.drop_first()
    } else {
        rest
    }
}

/// Comment lines without their `#`s.
pub open spec fn uncommented_lines(ls: Seq<Seq<char>>) -> Seq<Seq<char>> {
    Seq::new(ls.len(), |i: int| uncommented(ls[i]))
}

/// Whether a text ends with a line break.
pub open spec fn ends_in_newline(s: Seq<char>) -> bool {
    s.len() > 0 && s.last() == '\n'
}

/// A source without the lines from `start` to `end`.
pub open spec fn without_header(src: Seq<char>, start: int, end: int) -> Seq<char> {
    let ls = lines_of(src);
    let kept = joined(ls.take(start) + ls.skip(end + 1), "\n"@);
    if ends_in_newline(src) {
        kept + "\n"@
    } else {
        kept
    }
}

/// What a source is as a template: none when it has no header, and an error when its header does
/// not end or does not declare variables.
pub open spec fn parsed(src: Seq<char>) -> Result<Option<TemplateView>, Seq<char>> {
    let ls = lines_of(src);
    let start = marker_line(ls, "# odin:template"@, 0);
    if start >= ls.len() {
        Ok(None)
    } else {
        let end = marker_line(ls, "# end"@, start + 1);
        if end >= ls.len() {
            Err("`# odin:template` header has no closing `# end` line"@)
        } else {
            match header_vars(joined(uncommented_lines(ls.subrange(start + 1, end)), "\n"@)) {
                Err(e) => Err(e),
                Ok(vars) => Ok(Some(TemplateView { vars, body: without_header(src, start, end) })),
            }
        }
    }
}

fn find_line(ls: &Vec<String>, what: &str, from: usize) -> (r: usize)
    requires
        from <= ls@.len(),
    ensures
        r == marker_line(texts(ls@), what@, from as int),
        from <= r <= ls@.len(),
{
    let ghost t = texts(ls@);
    let mut i: usize = from;
    while i < ls.len()
        invariant
            from <= i <= ls.len(),
            t == texts(ls@),
            marker_line(t, what@, from as int) == marker_line(t, what@, i as int),
        decreases ls.len() - i,
    {
        let x = trim(&ls[i]);
        assert(t[i as int] == ls@[i as int]@);
        if text_eq(&x, what) {
            return i;
        }
        i += 1;
    }
    i
}

/// A comment line without its `#` and one space behind it.
pub fn decomment(line: &str) -> (r: String)
    ensures
        r@ == uncommented(line@),
{
    let v = chars_of(line);
    let mut i: usize = 0;
    assert(v@.skip(0) =~= line@);
    while i < v.len() && whitespace(v[i])
        invariant
            i <= v.len(),
            v@ == line@,
            trimmed_start(line@) == trimmed_start(v@.skip(i as int)),
        decreases v.len() - i,
    {
        assert(v@.skip(i as int).drop_first() =~= v@.skip(i + 1));
        i += 1;
    }
    let ghost t = trimmed_start(line@);
    assert(t =~= v@.skip(i as int));
    if i < v.len() && v[i] == '#' {
        assert(t.drop_first() =~= v@.skip(i + 1));
        i += 1;
    }
    if i < v.len() && v[i] == ' ' {
        assert(v@.skip(i as int).drop_first() =~= v@.skip(i + 1));
        i += 1;
    }
    assert(v@.subrange(i as int, v@.len() as int) =~= v@.skip(i as int));
    text_range(&v, i, v.len())
}

fn push_range(out: &mut Vec<String>, ls: &Vec<String>, lo: usize, hi: usize)
    requires
        lo <= hi <= ls@.len(),
    ensures
        texts(final(out)@) == texts(old(out)@) + texts(ls@).subrange(lo as int, hi as int),
{
    let ghost was = texts(out@);
    let ghost t = texts(ls@);
    let mut i: usize = lo;
    assert(was + t.subrange(lo as int, lo as int) =~= was);
    while i < hi
        invariant
            lo <= i <= hi <= ls@.len(),
            t == texts(ls@),
            texts(out@) == was + t.subrange(lo as int, i as int),
        decreases hi - i,
    {
        let ghost before = out@;
        let x = ls[i].clone();
        out.push(x);
        assert(texts(out@) =~= texts(before).push(x@));
        assert(was + t.subrange(lo as int, i + 1) =~= (was + t.subrange(lo as int, i as int)).push(
            t[i as int],
        ));
        i += 1;
    }
}

/// Parses the header of a recipe. None when it has none: the recipe is no template.
pub fn parse(src: &str) -> (r: Result<Option<Template>, String>)
    ensures
        match r {
            Ok(t) => parsed(src@) == Ok::<Option<TemplateView>, Seq<char>>(
                crate::names::opt_view(t),
            ),
            Err(e) => parsed(src@) == Err::<Option<TemplateView>, Seq<char>>(e@),
        },
{
    let ls = lines(src);
    let ghost t = texts(ls@);
    let start = find_line(&ls, "# odin:template", 0);
    if start >= ls.len() {
        return Ok(None);
    }
    let end = find_line(&ls, "# end", start + 1);
    if end >= ls.len() {
        return Err("`# odin:template` header has no closing `# end` line".to_owned());
    }
    let mut header: Vec<String> = Vec::new();
    let ghost block = t.subrange(start + 1, end as int);
    let mut i: usize = start + 1;
    assert(texts(header@) =~= uncommented_lines(block).take(0));
    while i < end
        invariant
            start + 1 <= i <= end,
            end < ls@.len(),
            t == texts(ls@),
            block == t.subrange(start + 1, end as int),
            texts(header@) == uncommented_lines(block).take(i - start - 1),
        decreases end - i,
    {
        let ghost was = header@;
        let x = decomment(&ls[i]);
        assert(t[i as int] == ls@[i as int]@);
        header.push(x);
        assert(texts(header@) =~= texts(was).push(x@));
        assert(uncommented_lines(block).take(i - start) =~= uncommented_lines(block).take(
            i - start - 1,
        ).push(uncommented(block[i - start - 1])));
        i += 1;
    }
    assert(uncommented_lines(block).take(end - start - 1) =~= uncommented_lines(block));
    let yaml = join(&header, "\n");
    let vars = match parse_vars(&yaml) {
        Ok(v) => v,
        Err(e) => {
            return Err(e);
        },
    };
    let mut kept: Vec<String> = Vec::new();
    push_range(&mut kept, &ls, 0, start);
    push_range(&mut kept, &ls, end + 1, ls.len());
    assert(texts(kept@) =~= t.take(start as int) + t.skip(end + 1));
    let mut body = join(&kept, "\n");
    let chars = chars_of(src);
    if chars.len() > 0 && chars[chars.len() - 1] == '\n' {
        body = concat2(&body, "\n");
    }
    Ok(Some(Template { vars, body }))
}

// ---------------------------------------------------------------------------------------------
// Filling in
// ---------------------------------------------------------------------------------------------
/// The names of variables.
pub open spec fn names_of(vars: Seq<VarView>) -> Seq<Seq<char>> {
    Seq::new(vars.len(), |i: int| vars[i].name)
}

/// Whether a variable still has to be given: it is required, has no default and is not set.
pub open spec fn is_missing(v: VarView, set: Seq<(Seq<char>, Seq<char>)>) -> bool {
    v.required && v.default is None && !has_key(set, v.name)
}

/// The variables that still have to be given, in the order of their declarations.
pub open spec fn missing_vars(vars: Seq<VarView>, set: Seq<(Seq<char>, Seq<char>)>) -> Seq<VarView>
    decreases vars.len(),
{
    if vars.len() == 0 {
        Seq::empty()
    } else {
        let before = missing_vars(vars.drop_last(), set);
        if is_missing(vars.last(), set) {
            before.push(vars.last())
        } else {
            before
        }
    }
}

/// The values of variables: what is set, else the default.
pub open spec fn var_values(vars: Seq<VarView>, set: Seq<(Seq<char>, Seq<char>)>) -> Seq<
    (Seq<char>, Seq<char>),
>
    decreases vars.len(),
{
    if vars.len() == 0 {
        Seq::empty()
    } else {
        let before = var_values(vars.drop_last(), set);
        let v = vars.last();
        if has_key(set, v.name) {
            put(before, v.name, lookup(set, v.name)->0)
        } else if v.default is Some {
            put(before, v.name, v.default->0)
        } else {
            before
        }
    }
}

/// The least name that is set but not declared, if there is one.
pub open spec fn least_undeclared(
    set: Seq<(Seq<char>, Seq<char>)>,
    names: Seq<Seq<char>>,
) -> Option<Seq<char>>
    decreases set.len(),
{
    if set.len() == 0 {
        None
    } else {
        let before = least_undeclared(set.drop_last(), names);
        let k = set.last().0;
        if names.contains(k) {
            before
        } else {
            match before {
                None => Some(k),
                Some(b) => if text_less(k, b) {
                    Some(k)
                } else {
                    Some(b)
                },
            }
        }
    }
}

/// The length of the run of letters, digits and underscores that a text begins with.
pub open spec fn word_run(s: Seq<char>) -> nat
    decreases s.len(),
{
    if s.len() > 0 && is_ident_char(s[0]) {
        1 + word_run(s.drop_first())
    } else {
        0
    }
}

/// The length of the identifier that a text begins with: zero when it begins with none.
pub open spec fn ident_len(s: Seq<char>) -> nat {
    if s.len() > 0 && !is_digit(s[0]) {
        word_run(s)
    } else {
        0
    }
}

/// A text put before what came of the rest, unless that failed.
pub open spec fn after(head: Seq<char>, rest: Result<Seq<char>, Seq<char>>) -> Result<
    Seq<char>,
    Seq<char>,
> {
    match rest {
        Ok(t) => Ok(head + t),
        Err(e) => Err(e),
    }
}

/// A body with every marker of a variable that has a value replaced by that value, as it is. A
/// marker of an undeclared variable is an error; any other `@@` stays.
pub open spec fn substituted(
    s: Seq<char>,
    names: Seq<Seq<char>>,
    values: Seq<(Seq<char>, Seq<char>)>,
) -> Result<Seq<char>, Seq<char>>
    decreases s.len(),
    via substituted_decreases
{
    match find_from(s, "@@"@, 0) {
        None => Ok(s),
        Some(pos) => {
            let tail = s.skip(pos + 2);
            let n = ident_len(tail);
            let ident = tail.take(n as int);
            if n > 0 && occurs_at(tail, "@@"@, n as int) && !names.contains(ident) {
                Err(
                    "template marker @@"@ + ident
                        + "@@ in the body is not declared in the `# odin:template` header"@,
                )
            } else if n > 0 && occurs_at(tail, "@@"@, n as int) && has_key(values, ident) {
                after(
                    s.take(pos) + lookup(values, ident)->0,
                    substituted(tail.skip(n as int + 2), names, values),
                )
            } else {
                after(s.take(pos) + "@@"@, substituted(tail, names, values))
            }
        },
    }
}

#[via_fn]
proof fn substituted_decreases(
    s: Seq<char>,
    names: Seq<Seq<char>>,
    values: Seq<(Seq<char>, Seq<char>)>,
) {
    reveal_strlit("@@");
    lemma_find_from(s, "@@"@, 0);
}

/// A template filled in, or why it cannot be.
pub open spec fn filled_in(t: TemplateView, set: Seq<(Seq<char>, Seq<char>)>) -> Result<
    Seq<char>,
    Seq<char>,
> {
    match least_undeclared(set, names_of(t.vars)) {
        Some(k) => Err(
            "--set "@ + debug_quoted(k) + " is not a declared template variable (declared: "@
                + joined(names_of(t.vars), ", "@) + ")"@,
        ),
        None => {
            let missing = missing_vars(t.vars, set);
            if missing.len() > 0 {
                Err(
                    "missing required template variable(s): "@ + joined(names_of(missing), ", "@)
                        + " (pass --set <name>=<value>)"@,
                )
            } else {
                match substituted(t.body, names_of(t.vars), var_values(t.vars, set)) {
                    Err(e) => Err(e),
                    Ok(body) => if contains_text(body, "@@"@) {
                        Err(
                            "a `@@…@@` marker remains after substitution — a malformed or mismatched placeholder"@,
                        )
                    } else {
                        Ok(body)
                    },
                }
            }
        },
    }
}

fn ident_end(v: &Vec<char>, from: usize) -> (r: usize)
    requires
        from <= v@.len(),
    ensures
        r == from + ident_len(v@.skip(from as int)),
        from <= r <= v@.len(),
{
    let ghost s = v@.skip(from as int);
    if from == v.len() || ('0' <= v[from] && v[from] <= '9') {
        return from;
    }
    let mut i: usize = from;
    while i < v.len() && crate::context::scan::ident_char(v[i])
        invariant
            from <= i <= v.len(),
            s == v@.skip(from as int),
            word_run(s) == i - from + word_run(v@.skip(i as int)),
        decreases v.len() - i,
    {
        assert(v@.skip(i as int).drop_first() =~= v@.skip(i + 1));
        i += 1;
    }
    assert(word_run(v@.skip(i as int)) == 0) by {
        if i < v@.len() {
            assert(v@.skip(i as int)[0] == v@[i as int]);
        }
    }
    i
}

fn is_name(names: &Vec<String>, k: &str) -> (r: bool)
    ensures
        r == texts(names@).contains(k@),
{
    let mut i: usize = 0;
    while i < names.len()
        invariant
            i <= names.len(),
            forall|j: int| 0 <= j < i ==> (#[trigger] texts(names@)[j]) != k@,
        decreases names.len() - i,
    {
        if text_eq(&names[i], k) {
            assert(texts(names@)[i as int] == k@);
            return true;
        }
        i += 1;
    }
    false
}

/// Reads the identifier that a text begins with, if it begins with one.
pub fn read_ident(s: &str) -> (r: Option<String>)
    ensures
        if ident_len(s@) > 0 {
            r matches Some(t) && t@ == s@.take(ident_len(s@) as int)
        } else {
            r is None
        },
{
    let v = chars_of(s);
    assert(v@.skip(0) =~= s@);
    let end = ident_end(&v, 0);
    if end == 0 {
        None
    } else {
        assert(v@.subrange(0, end as int) =~= s@.take(end as int));
        Some(text_range(&v, 0, end))
    }
}

fn substitute(body: &str, names: &Vec<String>, values: &OrderedMap<String>) -> (r: Result<
    String,
    String,
>)
    ensures
        match r {
            Ok(t) => substituted(body@, texts(names@), values@) == Ok::<Seq<char>, Seq<char>>(t@),
            Err(e) => substituted(body@, texts(names@), values@) == Err::<Seq<char>, Seq<char>>(e@),
        },
{
    let v = chars_of(body);
    let mark = chars_of("@@");
    proof {
        reveal_strlit("@@");
    }
    let ghost ns = texts(names@);
    let ghost vs = values@;
    let ghost all = substituted(body@, ns, vs);
    let mut out = String::new();
    let mut at: usize = 0;
    assert(v@.skip(0) =~= body@);
    assert(after(out@, substituted(v@.skip(0), ns, vs)) == all) by {
        match all {
            Ok(t) => {
                assert(out@ + t =~= t);
            },
            Err(_) => {},
        }
    }
    loop
        invariant
            at <= v@.len(),
            v@ == body@,
            mark@ == "@@"@,
            "@@"@.len() == 2,
            ns == texts(names@),
            vs == values@,
            all == substituted(body@, ns, vs),
            after(out@, substituted(v@.skip(at as int), ns, vs)) == all,
        decreases v@.len() - at,
    {
        let ghost s = v@.skip(at as int);
        proof {
            lemma_find_from(s, "@@"@, 0);
        }
        // The rest as characters of its own: positions count from its beginning.
        let rest = crate::text::slice_of(&v, at, v.len());
        assert(rest@ =~= s);
        match find_at(&rest, &mark, 0) {
            None => {
                let tail = text_of(&rest);
                return Ok(concat2(&out, &tail));
            },
            Some(pos) => {
                assert(occurs_at(s, "@@"@, pos as int));
                let head = text_range(&rest, 0, pos);
                assert(rest@.subrange(0, pos as int) =~= s.take(pos as int));
                let start = pos + 2;
                let ghost tail = s.skip(pos + 2);
                let end = ident_end(&rest, start);
                assert(rest@.skip(start as int) =~= tail);
                let ghost n = ident_len(tail);
                let ident = text_range(&rest, start, end);
                assert(rest@.subrange(start as int, end as int) =~= tail.take(n as int));
                let closed = end > start && crate::text::matches_at(&rest, &mark, end);
                assert(end + 2 <= rest@.len() ==> rest@.subrange(end as int, end + 2)
                    =~= tail.subrange(n as int, n as int + 2));
                assert(closed == (n > 0 && occurs_at(tail, "@@"@, n as int)));
                let ghost before = out@;
                if closed {
                    if !is_name(names, &ident) {
                        return Err(
                            concat3(
                                "template marker @@",
                                &ident,
                                "@@ in the body is not declared in the `# odin:template` header",
                            ),
                        );
                    }
                    if let Some(value) = values.get(&ident) {
                        out = concat3(&out, &head, value);
                        let ghost more = substituted(tail.skip(n as int + 2), ns, vs);
                        assert(v@.skip(at + end + 2) =~= tail.skip(n as int + 2));
                        assert(after(before, after(s.take(pos as int) + value@, more))
                            == after(out@, more)) by {
                            match more {
                                Ok(t) => {
                                    assert(before + (s.take(pos as int) + value@ + t)
                                        =~= before + s.take(pos as int) + value@ + t);
                                },
                                Err(_) => {},
                            }
                        }
                        at = at + end + 2;
                        continue;
                    }
                }
                out = concat3(&out, &head, "@@");
                let ghost more = substituted(tail, ns, vs);
                assert(v@.skip(at + start) =~= tail);
                assert(after(before, after(s.take(pos as int) + "@@"@, more)) == after(out@, more))
                    by {
                    match more {
                        Ok(t) => {
                            assert(before + (s.take(pos as int) + "@@"@ + t) =~= before + s.take(
                                pos as int,
                            ) + "@@"@ + t);
                        },
                        Err(_) => {},
                    }
                }
                at = at + start;
            },
        }
    }
}

impl Template {
    /// The names of the variables, in the order of their declarations.
    pub fn var_names(&self) -> (r: Vec<String>)
        ensures
            texts(r@) == names_of(self@.vars),
    {
        let mut out: Vec<String> = Vec::new();
        let mut i: usize = 0;
        assert(texts(out@) =~= names_of(self@.vars).take(0));
        while i < self.vars.len()
            invariant
                i <= self.vars.len(),
                texts(out@) == names_of(self@.vars).take(i as int),
            decreases self.vars.len() - i,
        {
            let ghost was = out@;
            let x = self.vars[i].name.clone();
            out.push(x);
            assert(texts(out@) =~= texts(was).push(x@));
            assert(names_of(self@.vars).take(i + 1) =~= names_of(self@.vars).take(i as int).push(
                self@.vars[i as int].name,
            ));
            i += 1;
        }
        assert(names_of(self@.vars).take(i as int) =~= names_of(self@.vars));
        out
    }

    /// The variables that still have to be given.
    pub fn missing_required(&self, set: &OrderedMap<String>) -> (r: Vec<VarInfo>)
        ensures
            views(r@) == missing_vars(self@.vars, set@),
    {
        let ghost all = self@.vars;
        let mut out: Vec<VarInfo> = Vec::new();
        let mut i: usize = 0;
        assert(views(out@) =~= missing_vars(all.take(0), set@));
        while i < self.vars.len()
            invariant
                i <= self.vars.len(),
                all == views(self.vars@),
                views(out@) == missing_vars(all.take(i as int), set@),
            decreases self.vars.len() - i,
        {
            assert(all.take(i + 1).drop_last() =~= all.take(i as int));
            let v = &self.vars[i];
            assert(all[i as int] == v@);
            if v.required && v.default.is_none() && !set.contains_key(&v.name) {
                let ghost was = out@;
                let x = v.replicate();
                let ghost xv = x@;
                out.push(x);
                assert(views(out@) =~= views(was).push(xv));
            }
            i += 1;
        }
        assert(all.take(i as int) =~= all);
        out
    }

    fn values(&self, set: &OrderedMap<String>) -> (r: OrderedMap<String>)
        ensures
            r@ == var_values(self@.vars, set@),
    {
        let ghost all = self@.vars;
        let mut out: OrderedMap<String> = OrderedMap::new();
        let mut i: usize = 0;
        assert(all.take(0) =~= Seq::<VarView>::empty());
        while i < self.vars.len()
            invariant
                i <= self.vars.len(),
                all == views(self.vars@),
                out@ == var_values(all.take(i as int), set@),
            decreases self.vars.len() - i,
        {
            assert(all.take(i + 1).drop_last() =~= all.take(i as int));
            let v = &self.vars[i];
            assert(all[i as int] == v@);
            match set.get(&v.name) {
                Some(x) => {
                    out.insert(v.name.clone(), x.clone());
                },
                None => {
                    if let Some(d) = &v.default {
                        out.insert(v.name.clone(), d.clone());
                    }
                },
            }
            i += 1;
        }
        assert(all.take(i as int) =~= all);
        out
    }

    /// Fills the template in: every marker gets its set value or its default. Refused when
    /// something is set that is not declared, when something required is missing, when the body
    /// holds a marker that is not declared, and when any `@@` is left.
    pub fn render(&self, set: &OrderedMap<String>) -> (r: Result<String, String>)
        ensures
            match r {
                Ok(t) => filled_in(self@, set@) == Ok::<Seq<char>, Seq<char>>(t@),
                Err(e) => filled_in(self@, set@) == Err::<Seq<char>, Seq<char>>(e@),
            },
    {
        let names = self.var_names();
        if let Some(k) = undeclared(set, &names) {
            let q = quote_debug(&k);
            let all = join(&names, ", ");
            return Err(
                concat5(
                    "--set ",
                    &q,
                    " is not a declared template variable (declared: ",
                    &all,
                    ")",
                ),
            );
        }
        let missing = self.missing_required(set);
        if missing.len() > 0 {
            let left = Template { vars: missing, body: String::new() };
            let which = left.var_names();
            let all = join(&which, ", ");
            return Err(
                concat3(
                    "missing required template variable(s): ",
                    &all,
                    " (pass --set <name>=<value>)",
                ),
            );
        }
        let values = self.values(set);
        let body = match substitute(&self.body, &names, &values) {
            Ok(b) => b,
            Err(e) => {
                return Err(e);
            },
        };
        let chars = chars_of(&body);
        let mark = chars_of("@@");
        if contains(&chars, &mark) {
            return Err(
                "a `@@…@@` marker remains after substitution — a malformed or mismatched placeholder".to_owned(),
            );
        }
        Ok(body)
    }
}

fn undeclared(set: &OrderedMap<String>, names: &Vec<String>) -> (r: Option<String>)
    ensures
        opt_text(r) == least_undeclared(set@, texts(names@)),
{
    let n = set.len();
    let mut best: Option<String> = None;
    let mut i: usize = 0;
    assert(set@.take(0) =~= Seq::<(Seq<char>, Seq<char>)>::empty());
    while i < n
        invariant
            i <= n,
            n == set@.len(),
            opt_text(best) == least_undeclared(set@.take(i as int), texts(names@)),
        decreases n - i,
    {
        assert(set@.take(i + 1).drop_last() =~= set@.take(i as int));
        let k = set.key_at(i);
        if !is_name(names, k) {
            let better = match &best {
                None => true,
                Some(b) => less(k, b),
            };
            if better {
                best = Some(k.clone());
            }
        }
        i += 1;
    }
    assert(set@.take(n as int) =~= set@);
    best
}

// ---------------------------------------------------------------------------------------------
// Asking
// ---------------------------------------------------------------------------------------------
/// Asks for values.
pub trait Prompter {
    /// The questions put so far, each with its answer or why none came. A verified prompter has to
    /// define this as what it has been asked, so that [`Prompter::ask`] can be shown to add to it;
    /// the value given here is no such definition. Nothing of it is there at run time.
    closed spec fn asked(&self) -> Seq<(Seq<char>, Result<Seq<char>, Seq<char>>)> {
        arbitrary()
    }

    /// Shows a prompt and gives the line that was entered.
    fn ask(&mut self, prompt: &str) -> (r: Result<String, String>)
        ensures
            final(self).asked() == old(self).asked().push((prompt@, reply_view(r))),
    ;
}

/// The texts of a reply.
pub open spec fn reply_view(r: Result<String, String>) -> Result<Seq<char>, Seq<char>> {
    match r {
        Ok(s) => Ok(s@),
        Err(e) => Err(e@),
    }
}

/// The text of a failure.
pub open spec fn failure_view(r: Result<(), String>) -> Result<(), Seq<char>> {
    match r {
        Ok(_) => Ok(()),
        Err(e) => Err(e@),
    }
}

/// What a variable is asked for with.
pub open spec fn prompt_text(v: VarView) -> Seq<char> {
    match v.description {
        Some(d) => v.name + " ("@ + d + "): "@,
        None => v.name + ": "@,
    }
}

/// What a variable is asked for with.
pub fn prompt_for(v: &VarInfo) -> (r: String)
    ensures
        r@ == prompt_text(v@),
{
    match &v.description {
        Some(d) => concat4(&v.name, " (", d, "): "),
        None => concat2(&v.name, ": "),
    }
}

/// What is set after an answer: a blank one sets nothing.
pub open spec fn answered(
    set: Seq<(Seq<char>, Seq<char>)>,
    name: Seq<char>,
    answer: Seq<char>,
) -> Seq<(Seq<char>, Seq<char>)> {
    if is_blank(answer) {
        set
    } else {
        put(set, name, answer)
    }
}

/// Takes in an answer; a blank one sets nothing.
pub fn take_answer(set: &mut OrderedMap<String>, name: &str, answer: String)
    ensures
        final(set)@ == answered(old(set)@, name@, answer@),
{
    if !blank(&answer) {
        set.insert(name.to_owned(), answer);
    }
}

/// What is set after the first so many variables were answered.
pub open spec fn all_answered(
    set: Seq<(Seq<char>, Seq<char>)>,
    vars: Seq<VarView>,
    answers: Seq<Seq<char>>,
) -> Seq<(Seq<char>, Seq<char>)>
    decreases answers.len(),
{
    if answers.len() == 0 {
        set
    } else {
        let k = answers.len() - 1;
        answered(all_answered(set, vars, answers.drop_last()), vars[k].name, answers.last())
    }
}

/// The questions for the first so many variables, with their answers.
pub open spec fn questions(vars: Seq<VarView>, answers: Seq<Seq<char>>) -> Seq<
    (Seq<char>, Result<Seq<char>, Seq<char>>),
> {
    Seq::new(answers.len(), |i: int| (prompt_text(vars[i]), Ok(answers[i])))
}

/// Whether asking for `vars` went as `answers` say: they were the answers to the first questions,
/// put in order, and no other question was put, except that the one after them failed when an
/// error came back. Exactly the answers that are not blank are set.
pub open spec fn filled(
    vars: Seq<VarView>,
    before: Seq<(Seq<char>, Seq<char>)>,
    after: Seq<(Seq<char>, Seq<char>)>,
    asked_before: Seq<(Seq<char>, Result<Seq<char>, Seq<char>>)>,
    asked_after: Seq<(Seq<char>, Result<Seq<char>, Seq<char>>)>,
    answers: Seq<Seq<char>>,
    r: Result<(), Seq<char>>,
) -> bool {
    &&& after == all_answered(before, vars, answers)
    &&& match r {
        Ok(_) => answers.len() == vars.len() && asked_after == asked_before + questions(
            vars,
            answers,
        ),
        Err(e) => answers.len() < vars.len() && asked_after == (asked_before + questions(
            vars,
            answers,
        )).push((prompt_text(vars[answers.len() as int]), Err(e))),
    }
}

/// Asks for each variable that still has to be given, in order, and sets what was answered. Ends
/// at the first question that cannot be asked.
pub fn fill_interactively<P: Prompter>(
    tpl: &Template,
    set: &mut OrderedMap<String>,
    prompter: &mut P,
) -> (r: Result<(), String>)
    ensures
        exists|answers: Seq<Seq<char>>| #[trigger]
            filled(
                missing_vars(tpl@.vars, old(set)@),
                old(set)@,
                final(set)@,
                old(prompter).asked(),
                final(prompter).asked(),
                answers,
                failure_view(r),
            ),
{
    let missing = tpl.missing_required(set);
    let ghost m = missing_vars(tpl@.vars, old(set)@);
    let ghost mut answers: Seq<Seq<char>> = Seq::empty();
    let mut i: usize = 0;
    assert(prompter.asked() =~= old(prompter).asked() + questions(m, answers));
    while i < missing.len()
        invariant
            i <= missing.len(),
            views(missing@) == m,
            m == missing_vars(tpl@.vars, old(set)@),
            answers.len() == i,
            all_answered(old(set)@, m, answers) == set@,
            prompter.asked() == old(prompter).asked() + questions(m, answers),
        decreases missing.len() - i,
    {
        let v = &missing[i];
        assert(m[i as int] == v@);
        let prompt = prompt_for(v);
        match prompter.ask(&prompt) {
            Ok(answer) => {
                let ghost av = answer@;
                take_answer(set, &v.name, answer);
                proof {
                    let longer = answers.push(av);
                    assert(longer.drop_last() =~= answers);
                    assert(prompter.asked() =~= old(prompter).asked() + questions(m, longer));
                    answers = longer;
                }
            },
            Err(e) => {
                assert(m.len() == missing@.len());
                assert(filled(
                    m,
                    old(set)@,
                    set@,
                    old(prompter).asked(),
                    prompter.asked(),
                    answers,
                    Err(e@),
                ));
                return Err(e);
            },
        }
        i += 1;
    }
    assert(m.len() == missing@.len());
    assert(filled(
        m,
        old(set)@,
        set@,
        old(prompter).asked(),
        prompter.asked(),
        answers,
        Ok(()),
    ));
    Ok(())
}

// ---------------------------------------------------------------------------------------------
// The name of a copied recipe
// ---------------------------------------------------------------------------------------------
/// Lines of a recipe with the first top-level `name:` replaced.
pub open spec fn renamed_lines(ls: Seq<Seq<char>>, name: Seq<char>) -> Seq<Seq<char>>
    decreases ls.len(),
{
    if ls.len() == 0 {
        Seq::empty()
    } else if starts_with(ls[0], "name:"@) {
        seq!["name: "@ + name] + ls.skip(1)
    } else {
        seq![ls[0]] + renamed_lines(ls.skip(1), name)
    }
}

/// A recipe under another name: its first top-level `name:` line says the new one.
pub fn renamed(src: &str, name: &str) -> (r: String)
    ensures
        r@ == joined(renamed_lines(lines_of(src@), name@), "\n"@) + "\n"@,
{
    let key = chars_of("name:");
    let ls = lines(src);
    let ghost all = texts(ls@);
    let mut out: Vec<String> = Vec::new();
    let mut found = false;
    let mut i: usize = 0;
    assert(all.skip(0) =~= all);
    assert(texts(out@) + renamed_lines(all, name@) =~= renamed_lines(all, name@));
    while i < ls.len()
        invariant
            i <= ls.len(),
            key@ == "name:"@,
            all == texts(ls@),
            !found ==> texts(out@) + renamed_lines(all.skip(i as int), name@) == renamed_lines(
                all,
                name@,
            ),
            found ==> texts(out@) + all.skip(i as int) == renamed_lines(all, name@),
        decreases ls.len() - i,
    {
        let ghost before = texts(out@);
        let ghost rest = all.skip(i as int);
        assert(rest.skip(1) =~= all.skip(i + 1));
        assert(rest[0] == ls@[i as int]@);
        let starts = matches_at(&chars_of(&ls[i]), &key, 0);
        let line = if !found && starts {
            concat2("name: ", name)
        } else {
            ls[i].clone()
        };
        let ghost said = line@;
        out.push(line);
        assert(texts(out@) =~= before.push(said));
        proof {
            if found {
                assert(rest =~= seq![rest[0]] + rest.skip(1));
                assert(before + rest =~= before.push(said) + rest.skip(1));
            } else if starts {
                assert(before + (seq![said] + rest.skip(1)) =~= before.push(said) + rest.skip(1));
            } else {
                let tail = renamed_lines(rest.skip(1), name@);
                assert(before + (seq![said] + tail) =~= before.push(said) + tail);
            }
        }
        found = found || starts;
        i += 1;
    }
    assert(all.skip(i as int) =~= Seq::<Seq<char>>::empty());
    assert(texts(out@) =~= renamed_lines(all, name@));
    let body = join(&out, "\n");
    concat2(&body, "\n")
}

// ---------------------------------------------------------------------------------------------
// Laws
// ---------------------------------------------------------------------------------------------
/// A text without `@@` is not touched.
pub proof fn a_text_without_markers_is_untouched(
    s: Seq<char>,
    names: Seq<Seq<char>>,
    values: Seq<(Seq<char>, Seq<char>)>,
)
    requires
        !contains_text(s, "@@"@),
    ensures
        substituted(s, names, values) == Ok::<Seq<char>, Seq<char>>(s),
{
    lemma_find_from(s, "@@"@, 0);
    if let Some(at) = find_from(s, "@@"@, 0) {
        assert(occurs_at(s, "@@"@, at));
    }
}

/// A template that was filled in holds no `@@` any more, and nothing required was missing.
pub proof fn a_filled_template_has_no_markers(t: TemplateView, set: Seq<(Seq<char>, Seq<char>)>)
    requires
        filled_in(t, set) is Ok,
    ensures
        !contains_text(filled_in(t, set)->Ok_0, "@@"@),
        missing_vars(t.vars, set).len() == 0,
        least_undeclared(set, names_of(t.vars)) is None,
{
}

/// A source in which no line is the header is no template.
pub proof fn no_header_no_template(src: Seq<char>)
    requires
        forall|i: int|
            0 <= i < lines_of(src).len() ==> trimmed(#[trigger] lines_of(src)[i])
                != "# odin:template"@,
    ensures
        parsed(src) == Ok::<Option<TemplateView>, Seq<char>>(None),
{
    lemma_no_marker(lines_of(src), "# odin:template"@, 0);
}

proof fn lemma_no_marker(ls: Seq<Seq<char>>, what: Seq<char>, from: int)
    requires
        0 <= from <= ls.len(),
        forall|i: int| 0 <= i < ls.len() ==> trimmed(#[trigger] ls[i]) != what,
    ensures
        marker_line(ls, what, from) == ls.len(),
    decreases ls.len() - from,
{
    if from < ls.len() {
        lemma_no_marker(ls, what, from + 1);
    }
}

proof fn lemma_var_values(vars: Seq<VarView>, set: Seq<(Seq<char>, Seq<char>)>, k: Seq<char>)
    ensures
        crate::names::unique_keys(var_values(vars, set)),
        has_key(set, k) && names_of(vars).contains(k) ==> lookup(var_values(vars, set), k)
            == lookup(set, k),
        !names_of(vars).contains(k) ==> lookup(var_values(vars, set), k) is None,
        !has_key(set, k) && lookup(var_values(vars, set), k) is Some ==> exists|i: int|
            0 <= i < vars.len() && (#[trigger] vars[i]).name == k && vars[i].default == lookup(
                var_values(vars, set),
                k,
            ),
        !has_key(set, k) && lookup(var_values(vars, set), k) is None ==> forall|i: int|
            0 <= i < vars.len() && (#[trigger] vars[i]).name == k ==> vars[i].default is None,
    decreases vars.len(),
{
    if vars.len() > 0 {
        let d = vars.drop_last();
        let v = vars.last();
        lemma_var_values(d, set, k);
        let before = var_values(d, set);
        if has_key(set, v.name) {
            crate::names::lemma_put_get(before, v.name, lookup(set, v.name)->0, k);
        } else if v.default is Some {
            crate::names::lemma_put_get(before, v.name, v.default->0, k);
        }
        assert(vars[vars.len() - 1] == v);
        if names_of(d).contains(k) {
            let i = choose|i: int| 0 <= i < names_of(d).len() && names_of(d)[i] == k;
            assert(names_of(vars)[i] == k);
        }
        assert(names_of(vars)[vars.len() - 1] == v.name);
        if names_of(vars).contains(k) && k != v.name {
            let i = choose|i: int| 0 <= i < names_of(vars).len() && names_of(vars)[i] == k;
            assert(names_of(d)[i] == k);
        }
        if !has_key(set, k) {
            if k != v.name {
                if lookup(before, k) is Some {
                    let i = choose|i: int|
                        0 <= i < d.len() && (#[trigger] d[i]).name == k && d[i].default == lookup(
                            before,
                            k,
                        );
                    assert(vars[i] == d[i]);
                } else {
                    assert forall|i: int| 0 <= i < vars.len() && (#[trigger] vars[i]).name
                        == k implies vars[i].default is None by {
                        assert(i < d.len());
                        assert(d[i] == vars[i]);
                    }
                }
            } else if v.default is None {
                if lookup(before, k) is Some {
                    let i = choose|i: int|
                        0 <= i < d.len() && (#[trigger] d[i]).name == k && d[i].default == lookup(
                            before,
                            k,
                        );
                    assert(vars[i] == d[i]);
                } else {
                    assert forall|i: int| 0 <= i < vars.len() && (#[trigger] vars[i]).name
                        == k implies vars[i].default is None by {
                        if i < d.len() {
                            assert(d[i] == vars[i]);
                        }
                    }
                }
            } else {
                assert(vars[vars.len() - 1].default == lookup(var_values(vars, set), k));
            }
        }
    }
}

/// A declared variable that is set has the value it is set to, whatever its default is.
pub proof fn a_set_value_wins(vars: Seq<VarView>, set: Seq<(Seq<char>, Seq<char>)>, i: int)
    requires
        0 <= i < vars.len(),
        has_key(set, vars[i].name),
    ensures
        lookup(var_values(vars, set), vars[i].name) == lookup(set, vars[i].name),
{
    assert(names_of(vars)[i] == vars[i].name);
    lemma_var_values(vars, set, vars[i].name);
}

/// A declared variable that is not set has its default, and no value without one.
pub proof fn a_default_fills_a_variable(
    vars: Seq<VarView>,
    set: Seq<(Seq<char>, Seq<char>)>,
    i: int,
)
    requires
        0 <= i < vars.len(),
        !has_key(set, vars[i].name),
        forall|j: int| 0 <= j < vars.len() && (#[trigger] vars[j]).name == vars[i].name ==> j == i,
    ensures
        lookup(var_values(vars, set), vars[i].name) == vars[i].default,
{
    lemma_var_values(vars, set, vars[i].name);
}

proof fn lemma_word_run(name: Seq<char>, rest: Seq<char>)
    requires
        forall|i: int| 0 <= i < name.len() ==> is_ident_char(name[i]),
        rest.len() > 0 ==> !is_ident_char(rest[0]),
    ensures
        word_run(name + rest) == name.len(),
    decreases name.len(),
{
    if name.len() > 0 {
        lemma_word_run(name.drop_first(), rest);
        assert((name + rest).drop_first() =~= name.drop_first() + rest);
        assert((name + rest)[0] == name[0]);
    } else {
        assert(name + rest =~= rest);
    }
}

/// Whether a text is a name that a marker can hold: letters, digits and underscores, and no digit
/// first.
pub open spec fn is_marker_name(name: Seq<char>) -> bool {
    &&& name.len() > 0
    &&& !('0' <= name[0] <= '9')
    &&& forall|i: int|
        0 <= i < name.len() ==> ('a' <= #[trigger] name[i] <= 'z') || ('A' <= name[i] <= 'Z') || (
        '0' <= name[i] <= '9') || name[i] == '_'
}

proof fn lemma_first_mark(pre: Seq<char>, rest: Seq<char>)
    requires
        forall|i: int| 0 <= i < pre.len() ==> pre[i] != '@',
    ensures
        find_from(pre + "@@"@ + rest, "@@"@, 0) == Some(pre.len() as int),
        (pre + "@@"@ + rest).take(pre.len() as int) == pre,
        (pre + "@@"@ + rest).skip(pre.len() as int + 2) == rest,
{
    reveal_strlit("@@");
    let m = "@@"@;
    let s = pre + m + rest;
    let k = pre.len() as int;
    assert(s.subrange(k, k + 2) =~= m);
    assert(occurs_at(s, m, k));
    lemma_find_from(s, m, 0);
    assert forall|j: int| 0 <= j < k implies !occurs_at(s, m, j) by {
        assert(s[j] == pre[j]);
        if occurs_at(s, m, j) {
            assert(s.subrange(j, j + 2)[0] == m[0]);
        }
    }
    assert(s.take(k) =~= pre);
    assert(s.skip(k + 2) =~= rest);
}

proof fn lemma_marker_name(name: Seq<char>, post: Seq<char>)
    requires
        is_marker_name(name),
    ensures
        ({
            let tail = name + "@@"@ + post;
            let n = name.len() as int;
            &&& ident_len(tail) == n
            &&& tail.take(n) == name
            &&& occurs_at(tail, "@@"@, n)
            &&& tail.skip(n + 2) == post
        }),
{
    reveal_strlit("@@");
    let m = "@@"@;
    let tail = name + m + post;
    let n = name.len() as int;
    assert(tail =~= name + (m + post));
    assert((m + post)[0] == '@');
    lemma_word_run(name, m + post);
    assert(tail[0] == name[0]);
    assert(tail.take(n) =~= name);
    assert(tail.subrange(n, n + 2) =~= m);
    assert(tail.skip(n + 2) =~= post);
}

/// The first marker of a body is replaced by the value of its variable, as it is; what stands
/// before it stays, and what follows is filled in by itself.
pub proof fn a_marker_becomes_its_value(
    pre: Seq<char>,
    name: Seq<char>,
    post: Seq<char>,
    names: Seq<Seq<char>>,
    values: Seq<(Seq<char>, Seq<char>)>,
    value: Seq<char>,
    rest: Seq<char>,
)
    requires
        is_marker_name(name),
        forall|i: int| 0 <= i < pre.len() ==> pre[i] != '@',
        names.contains(name),
        lookup(values, name) == Some(value),
        substituted(post, names, values) == Ok::<Seq<char>, Seq<char>>(rest),
    ensures
        substituted(pre + "@@"@ + name + "@@"@ + post, names, values) == Ok::<
            Seq<char>,
            Seq<char>,
        >(pre + value + rest),
{
    let tail = name + "@@"@ + post;
    lemma_first_mark(pre, tail);
    lemma_marker_name(name, post);
    assert(pre + "@@"@ + name + "@@"@ + post =~= pre + "@@"@ + tail);
}

/// A marker of a variable that is not declared is refused.
pub proof fn an_undeclared_marker_is_refused(
    pre: Seq<char>,
    name: Seq<char>,
    post: Seq<char>,
    names: Seq<Seq<char>>,
    values: Seq<(Seq<char>, Seq<char>)>,
)
    requires
        is_marker_name(name),
        forall|i: int| 0 <= i < pre.len() ==> pre[i] != '@',
        !names.contains(name),
    ensures
        substituted(pre + "@@"@ + name + "@@"@ + post, names, values) is Err,
{
    let tail = name + "@@"@ + post;
    lemma_first_mark(pre, tail);
    lemma_marker_name(name, post);
    assert(pre + "@@"@ + name + "@@"@ + post =~= pre + "@@"@ + tail);
}

/// In a template that was filled in, a marker was replaced by what its variable is set to, and by
/// the default only when the variable is not set.
pub proof fn a_filled_marker_holds_what_was_set(
    t: TemplateView,
    set: Seq<(Seq<char>, Seq<char>)>,
    i: int,
    pre: Seq<char>,
    post: Seq<char>,
)
    requires
        0 <= i < t.vars.len(),
        forall|j: int|
            0 <= j < t.vars.len() && (#[trigger] t.vars[j]).name == t.vars[i].name ==> j == i,
        is_marker_name(t.vars[i].name),
        forall|j: int| 0 <= j < pre.len() ==> pre[j] != '@',
        forall|j: int| 0 <= j < post.len() ==> post[j] != '@',
        t.body == pre + "@@"@ + t.vars[i].name + "@@"@ + post,
        filled_in(t, set) is Ok,
    ensures
        has_key(set, t.vars[i].name) ==> filled_in(t, set)->Ok_0 == pre + lookup(
            set,
            t.vars[i].name,
        )->0 + post,
        !has_key(set, t.vars[i].name) && t.vars[i].default is Some ==> filled_in(t, set)->Ok_0
            == pre + t.vars[i].default->0 + post,
{
    let name = t.vars[i].name;
    let values = var_values(t.vars, set);
    assert(names_of(t.vars)[i] == name);
    reveal_strlit("@@");
    if contains_text(post, "@@"@) {
        let at = choose|at: int| occurs_at(post, "@@"@, at);
        assert(post.subrange(at, at + 2)[0] == post[at]);
    }
    a_text_without_markers_is_untouched(post, names_of(t.vars), values);
    if has_key(set, name) {
        a_set_value_wins(t.vars, set, i);
    } else {
        a_default_fills_a_variable(t.vars, set, i);
    }
    if let Some(value) = lookup(values, name) {
        a_marker_becomes_its_value(pre, name, post, names_of(t.vars), values, value, post);
    }
}

proof fn lemma_missing(vars: Seq<VarView>, set: Seq<(Seq<char>, Seq<char>)>, v: VarView)
    ensures
        missing_vars(vars, set).contains(v) == (vars.contains(v) && v.required && v.default is None
            && !has_key(set, v.name)),
    decreases vars.len(),
{
    if vars.len() > 0 {
        let d = vars.drop_last();
        lemma_missing(d, set, v);
        let before = missing_vars(d, set);
        let all = missing_vars(vars, set);
        assert(vars =~= d.push(vars.last()));
        if before.contains(v) {
            let i = choose|i: int| 0 <= i < before.len() && before[i] == v;
            assert(all[i] == v);
        }
        if is_missing(vars.last(), set) {
            assert(all[before.len() as int] == vars.last());
        }
        if all.contains(v) {
            let i = choose|i: int| 0 <= i < all.len() && all[i] == v;
            if i < before.len() {
                assert(before[i] == v);
            }
        }
        if d.contains(v) {
            let i = choose|i: int| 0 <= i < d.len() && d[i] == v;
            assert(vars[i] == v);
        }
        if vars.contains(v) {
            let i = choose|i: int| 0 <= i < vars.len() && vars[i] == v;
            if i < d.len() {
                assert(d[i] == v);
            }
        }
        assert(vars[vars.len() - 1] == vars.last());
    }
}

/// A variable is asked for exactly when it is declared as required, has no default and is not set.
pub proof fn what_is_missing_is_required_and_unset(
    vars: Seq<VarView>,
    set: Seq<(Seq<char>, Seq<char>)>,
    v: VarView,
)
    ensures
        missing_vars(vars, set).contains(v) == (vars.contains(v) && v.required && v.default is None
            && !has_key(set, v.name)),
{
    lemma_missing(vars, set, v);
}

proof fn lemma_least_undeclared(
    set: Seq<(Seq<char>, Seq<char>)>,
    names: Seq<Seq<char>>,
    i: int,
)
    requires
        0 <= i < set.len(),
        !names.contains(set[i].0),
    ensures
        least_undeclared(set, names) is Some,
    decreases set.len(),
{
    if i < set.len() - 1 {
        lemma_least_undeclared(set.drop_last(), names, i);
    }
}

/// A template is filled in only when everything that is set is declared, and everything required
/// without a default is set.
pub proof fn only_declared_and_complete_values_fill_a_template(
    t: TemplateView,
    set: Seq<(Seq<char>, Seq<char>)>,
)
    requires
        filled_in(t, set) is Ok,
    ensures
        forall|i: int|
            0 <= i < set.len() ==> exists|j: int|
                0 <= j < t.vars.len() && (#[trigger] t.vars[j]).name == (#[trigger] set[i]).0,
        forall|j: int|
            0 <= j < t.vars.len() && (#[trigger] t.vars[j]).required && t.vars[j].default is None
                ==> has_key(set, t.vars[j].name),
{
    assert forall|i: int| 0 <= i < set.len() implies exists|j: int|
        0 <= j < t.vars.len() && (#[trigger] t.vars[j]).name == (#[trigger] set[i]).0 by {
        if !names_of(t.vars).contains(set[i].0) {
            lemma_least_undeclared(set, names_of(t.vars), i);
        }
        let j = choose|j: int|
            0 <= j < names_of(t.vars).len() && names_of(t.vars)[j] == set[i].0;
        assert(t.vars[j].name == set[i].0);
    }
    assert forall|j: int|
        0 <= j < t.vars.len() && (#[trigger] t.vars[j]).required && t.vars[j].default is None implies has_key(
        set,
        t.vars[j].name,
    ) by {
        lemma_missing(t.vars, set, t.vars[j]);
        if !has_key(set, t.vars[j].name) {
            assert(missing_vars(t.vars, set).contains(t.vars[j]));
        }
    }
}

proof fn lemma_renamed_len(ls: Seq<Seq<char>>, name: Seq<char>)
    ensures
        renamed_lines(ls, name).len() == ls.len(),
    decreases ls.len(),
{
    if ls.len() > 0 {
        lemma_renamed_len(ls.skip(1), name);
    }
}

/// Renaming a recipe changes one line at most: the first that begins with `name:`, which then says
/// the new name.
pub proof fn renaming_changes_the_first_name_line(ls: Seq<Seq<char>>, name: Seq<char>, i: int)
    requires
        0 <= i < ls.len(),
    ensures
        renamed_lines(ls, name).len() == ls.len(),
        renamed_lines(ls, name)[i] == (if starts_with(ls[i], "name:"@) && forall|j: int|
            0 <= j < i ==> !starts_with(#[trigger] ls[j], "name:"@) {
            "name: "@ + name
        } else {
            ls[i]
        }),
    decreases ls.len(),
{
    let r = renamed_lines(ls, name);
    lemma_renamed_len(ls, name);
    if starts_with(ls[0], "name:"@) {
        if i > 0 {
            assert(r[i] == ls.skip(1)[i - 1]);
            assert(!(forall|j: int| 0 <= j < i ==> !starts_with(#[trigger] ls[j], "name:"@)));
        }
    } else {
        let rest = ls.skip(1);
        if i > 0 {
            renaming_changes_the_first_name_line(rest, name, i - 1);
            assert(rest[i - 1] == ls[i]);
            assert((forall|j: int| 0 <= j < i ==> !starts_with(#[trigger] ls[j], "name:"@)) == (
            forall|j: int| 0 <= j < i - 1 ==> !starts_with(#[trigger] rest[j], "name:"@))) by {
                if forall|j: int| 0 <= j < i ==> !starts_with(#[trigger] ls[j], "name:"@) {
                    assert forall|j: int| 0 <= j < i - 1 implies !starts_with(
                        #[trigger] rest[j],
                        "name:"@,
                    ) by {
                        assert(rest[j] == ls[j + 1]);
                    }
                }
                if forall|j: int| 0 <= j < i - 1 ==> !starts_with(#[trigger] rest[j], "name:"@) {
                    assert forall|j: int| 0 <= j < i implies !starts_with(
                        #[trigger] ls[j],
                        "name:"@,
                    ) by {
                        if j > 0 {
                            assert(ls[j] == rest[j - 1]);
                        }
                    }
                }
            }
        }
    }
}

proof fn lemma_marker_line(ls: Seq<Seq<char>>, what: Seq<char>, from: int, at: int)
    requires
        0 <= from <= at <= ls.len(),
        forall|k: int| from <= k < at ==> trimmed(#[trigger] ls[k]) != what,
        at < ls.len() ==> trimmed(ls[at]) == what,
    ensures
        marker_line(ls, what, from) == at,
    decreases at - from,
{
    if from < at {
        lemma_marker_line(ls, what, from + 1, at);
    }
}

/// A source without a header line is no template. The header of a template goes up to the first end
/// line, declares the variables, and is not part of what is filled in; one without an end line is
/// refused.
pub proof fn a_template_is_read_from_its_header(src: Seq<char>, start: int, end: int)
    requires
        0 <= start <= lines_of(src).len(),
        start <= end <= lines_of(src).len(),
        forall|k: int|
            0 <= k < start ==> trimmed(#[trigger] lines_of(src)[k]) != "# odin:template"@,
        start < lines_of(src).len() ==> trimmed(lines_of(src)[start]) == "# odin:template"@ && start
            < end,
        forall|k: int| start < k < end ==> trimmed(#[trigger] lines_of(src)[k]) != "# end"@,
        end < lines_of(src).len() ==> trimmed(lines_of(src)[end]) == "# end"@,
    ensures
        ({
            let ls = lines_of(src);
            &&& start == ls.len() ==> parsed(src) == Ok::<Option<TemplateView>, Seq<char>>(None)
            &&& start < ls.len() && end == ls.len() ==> parsed(src) is Err
            &&& end < ls.len() ==> match header_vars(
                joined(uncommented_lines(ls.subrange(start + 1, end)), "\n"@),
            ) {
                Ok(vars) => parsed(src) matches Ok(Some(t)) && t.vars == vars && (src.last() == '\n'
                    ==> t.body == joined(ls.take(start) + ls.skip(end + 1), "\n"@) + "\n"@) && (
                src.last() != '\n' ==> t.body == joined(
                    ls.take(start) + ls.skip(end + 1),
                    "\n"@,
                )),
                Err(e) => parsed(src) == Err::<Option<TemplateView>, Seq<char>>(e),
            }
        }),
{
    let ls = lines_of(src);
    lemma_marker_line(ls, "# odin:template"@, 0, start);
    if start < ls.len() {
        lemma_marker_line(ls, "# end"@, start + 1, end);
        assert(src.len() > 0);
    }
}

/// What a comment line says is what stands behind its sign, without the one space between.
pub proof fn a_comment_says_what_stands_behind_its_sign(t: Seq<char>)
    ensures
        uncommented(seq!['#', ' '] + t) == t,
        t.len() == 0 || t[0] != ' ' ==> uncommented(seq!['#'] + t) == t,
        uncommented(seq![' ', '#', ' '] + t) == t,
{
    let a = seq!['#', ' '] + t;
    assert(trimmed_start(a) == a);
    assert(a.drop_first().drop_first() =~= t);
    let b = seq!['#'] + t;
    assert(trimmed_start(b) == b);
    assert(b.drop_first() =~= t);
    let c = seq![' ', '#', ' '] + t;
    assert(c.drop_first() =~= a);
    assert(trimmed_start(c) == trimmed_start(a));
}

/// A variable has to be given unless it has a default or its spec says otherwise.
pub proof fn a_variable_without_a_default_is_required(
    name: Seq<char>,
    default: Option<YamlView>,
    required: Option<YamlView>,
    description: Option<YamlView>,
    t: Seq<char>,
    b: bool,
)
    ensures
        ({
            let v = declared_var(name, default, required, description);
            &&& v.name == name
            &&& default is None ==> v.default is None
            &&& default == Some(YamlView::String(t)) ==> v.default == Some(t)
            &&& default == Some(YamlView::Number(t)) ==> v.default == Some(t)
            &&& default == Some(YamlView::Bool(true)) ==> v.default == Some("true"@)
            &&& default == Some(YamlView::Bool(false)) ==> v.default == Some("false"@)
            &&& required == Some(YamlView::Bool(b)) ==> v.required == b
            &&& required is None ==> v.required == (v.default is None)
            &&& description == Some(YamlView::String(t)) ==> v.description == Some(t)
            &&& description is None ==> v.description is None
        }),
{
}

/// Every entry of a header declares a variable, in the header's order.
pub proof fn every_entry_declares_a_variable(m: Seq<(Seq<char>, Seq<char>)>, i: int)
    ensures
        entries_vars(m) matches Ok(vars) ==> vars.len() == m.len() && (0 <= i < m.len() ==> (
        yaml_parsed(m[i].0) matches Ok(YamlView::String(name)) ==> vars[i].name == name)),
        0 <= i < m.len() && yaml_parsed(m[i].0) is Err ==> entries_vars(m) is Err,
        (forall|k: int|
            0 <= k < m.len() ==> (yaml_parsed((#[trigger] m[k]).0) matches Ok(v) && v is String))
            ==> entries_vars(m) is Ok,
    decreases m.len(),
{
    if m.len() > 0 {
        let d = m.drop_last();
        every_entry_declares_a_variable(d, i);
        assert(m[m.len() - 1] == m.last());
        assert forall|k: int| 0 <= k < d.len() implies d[k] == #[trigger] m[k] by {}
        if forall|k: int|
            0 <= k < m.len() ==> (yaml_parsed((#[trigger] m[k]).0) matches Ok(v) && v is String) {
            assert(yaml_parsed(m[m.len() - 1].0) is Ok);
        }
    }
}

proof fn lemma_answered_unique(
    set: Seq<(Seq<char>, Seq<char>)>,
    vars: Seq<VarView>,
    answers: Seq<Seq<char>>,
)
    requires
        crate::names::unique_keys(set),
    ensures
        crate::names::unique_keys(all_answered(set, vars, answers)),
    decreases answers.len(),
{
    if answers.len() > 0 {
        let k = answers.len() - 1;
        let before = all_answered(set, vars, answers.drop_last());
        lemma_answered_unique(set, vars, answers.drop_last());
        crate::names::lemma_put_get(before, vars[k].name, answers.last(), vars[k].name);
    }
}

/// What is answered is set under the name of the variable that was asked for, a blank answer
/// leaves it as it was, and nothing else changes.
pub proof fn an_answer_is_set(
    set: Seq<(Seq<char>, Seq<char>)>,
    vars: Seq<VarView>,
    answers: Seq<Seq<char>>,
    i: int,
    other: Seq<char>,
)
    requires
        crate::names::unique_keys(set),
        answers.len() <= vars.len(),
        forall|a: int, b: int|
            0 <= a < b < vars.len() ==> (#[trigger] vars[a]).name != (#[trigger] vars[b]).name,
    ensures
        0 <= i < answers.len() && !is_blank(answers[i]) ==> lookup(
            all_answered(set, vars, answers),
            vars[i].name,
        ) == Some(answers[i]),
        0 <= i < answers.len() && is_blank(answers[i]) ==> lookup(
            all_answered(set, vars, answers),
            vars[i].name,
        ) == lookup(set, vars[i].name),
        (forall|k: int| 0 <= k < answers.len() ==> (#[trigger] vars[k]).name != other) ==> lookup(
            all_answered(set, vars, answers),
            other,
        ) == lookup(set, other),
    decreases answers.len(),
{
    if answers.len() > 0 {
        let k = answers.len() - 1;
        let d = answers.drop_last();
        let before = all_answered(set, vars, d);
        lemma_answered_unique(set, vars, d);
        an_answer_is_set(set, vars, d, i, other);
        crate::names::lemma_put_get(before, vars[k].name, answers.last(), other);
        if 0 <= i < answers.len() {
            crate::names::lemma_put_get(before, vars[k].name, answers.last(), vars[i].name);
            if i < k {
                assert(d[i] == answers[i]);
                assert(vars[i].name != vars[k].name);
            } else {
                an_answer_is_set(set, vars, d, 0, vars[k].name);
                assert forall|j: int| 0 <= j < d.len() implies (#[trigger] vars[j]).name
                    != vars[k].name by {}
            }
        }
        if forall|j: int| 0 <= j < answers.len() ==> (#[trigger] vars[j]).name != other {
            assert(vars[k].name != other);
        }
    }
}

/// When every question was answered, each variable was asked for once, in order, and every answer
/// that is not blank is set under its variable's name.
pub proof fn every_question_is_put_and_its_answer_set(
    vars: Seq<VarView>,
    before: Seq<(Seq<char>, Seq<char>)>,
    set: Seq<(Seq<char>, Seq<char>)>,
    asked_before: Seq<(Seq<char>, Result<Seq<char>, Seq<char>>)>,
    asked: Seq<(Seq<char>, Result<Seq<char>, Seq<char>>)>,
    answers: Seq<Seq<char>>,
    i: int,
)
    requires
        crate::names::unique_keys(before),
        forall|a: int, b: int|
            0 <= a < b < vars.len() ==> (#[trigger] vars[a]).name != (#[trigger] vars[b]).name,
        filled(vars, before, set, asked_before, asked, answers, Ok(())),
        0 <= i < vars.len(),
    ensures
        answers.len() == vars.len(),
        asked.len() == asked_before.len() + vars.len(),
        asked[asked_before.len() + i] == (
            prompt_text(vars[i]),
            Ok::<Seq<char>, Seq<char>>(answers[i]),
        ),
        !is_blank(answers[i]) ==> lookup(set, vars[i].name) == Some(answers[i]),
        is_blank(answers[i]) ==> lookup(set, vars[i].name) == lookup(before, vars[i].name),
{
    an_answer_is_set(before, vars, answers, i, vars[i].name);
}

} // verus!
