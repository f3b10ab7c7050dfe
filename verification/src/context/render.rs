//! Rendering of templates and evaluation of guards at run time. An undefined reference is an
//! error.

use super::limits::{can_take, can_take_expr, engine_takes, engine_takes_expr};
use crate::error::Error;
use crate::json::{members_view, object_text, ObjectText, Value, ValueView};
use crate::names::{put, OrderedMap, Replicate};
use crate::text::{blank, chars_of, is_blank, is_ident_char};
use serde::Deserialize;
use vstd::prelude::*;

verus! {

/// A template context: the roots that templates refer to, each with the text of its JSON value.
#[derive(Debug)]
pub struct Context {
    roots: OrderedMap<String>,
}

impl View for Context {
    type V = Seq<(Seq<char>, Seq<char>)>;

    closed spec fn view(&self) -> Seq<(Seq<char>, Seq<char>)> {
        self.roots@
    }
}

impl Context {
    /// A context without roots.
    pub fn new() -> (r: Self)
        ensures
            r@ == Seq::<(Seq<char>, Seq<char>)>::empty(),
    {
        Context { roots: OrderedMap::new() }
    }

    /// The same context with a root set to a JSON value.
    pub fn with_root(self, name: &str, json: String) -> (r: Self)
        ensures
            r@ == put(self@, name@, json@),
    {
        let mut me = self;
        me.roots.insert(name.to_owned(), json);
        me
    }

    /// The text of the whole context as a JSON object.
    pub fn to_json(&self) -> (r: String)
        ensures
            r@ == object_text(self@),
    {
        let n = self.roots.len();
        let mut o = ObjectText::new();
        let mut i: usize = 0;
        assert(o@ =~= self.roots@.take(0));
        while i < n
            invariant
                i <= n,
                n == self.roots@.len(),
                o@ == self.roots@.take(i as int),
            decreases n - i,
        {
            o = o.with(self.roots.key_at(i), self.roots.value_at(i));
            assert(self.roots@.take(i as int).push(self.roots@[i as int]) =~= self.roots@.take(
                i + 1,
            ));
            i += 1;
        }
        assert(self.roots@.take(n as int) =~= self.roots@);
        o.text()
    }
}

impl Replicate for Context {
    fn replicate(&self) -> (r: Self) {
        Context { roots: self.roots.replicate() }
    }
}

/// The roots of a context after the members of a JSON object.
pub open spec fn roots_of(members: Seq<(Seq<char>, Seq<char>)>) -> Seq<(Seq<char>, Seq<char>)>
    decreases members.len(),
{
    if members.len() == 0 {
        Seq::empty()
    } else {
        put(roots_of(members.drop_last()), members.last().0, members.last().1)
    }
}

/// A context from a JSON value: its members are the roots; a value that is no object has none.
pub fn build_context(value: &Value) -> (r: Context)
    ensures
        r@ == (match value@ {
            ValueView::Object(o) => roots_of(o),
            _ => Seq::<(Seq<char>, Seq<char>)>::empty(),
        }),
{
    let mut c = Context::new();
    if let Value::Object(o) = value {
        let mut i: usize = 0;
        let ghost ov = members_view(o@);
        while i < o.len()
            invariant
                i <= o.len(),
                ov == members_view(o@),
                c@ == roots_of(ov.take(i as int)),
            decreases o.len() - i,
        {
            assert(ov.take(i + 1).drop_last() =~= ov.take(i as int));
            c = c.with_root(&o[i].0, o[i].1.clone());
            i += 1;
        }
        assert(ov.take(i as int) =~= ov);
    }
    c
}

// ---------------------------------------------------------------------------------------------
// Shell quoting
// ---------------------------------------------------------------------------------------------
/// One character between single quotes: a single quote leaves them, escaped, and comes back.
pub open spec fn sh_escape(c: char) -> Seq<char> {
    if c == '\'' {
        seq!['\'', '\\', '\'', '\'']
    } else {
        seq![c]
    }
}

/// What stands between the outer quotes.
pub open spec fn sh_inner(s: Seq<char>) -> Seq<char>
    decreases s.len(),
{
    if s.len() == 0 {
        Seq::empty()
    } else {
        sh_inner(s.drop_last()) + sh_escape(s.last())
    }
}

/// A text as one single-quoted shell word.
pub open spec fn shquoted(s: Seq<char>) -> Seq<char> {
    seq!['\''] + sh_inner(s) + seq!['\'']
}

/// Quotes a text as one shell word.
pub fn shquote(s: &str) -> (r: String)
    ensures
        r@ == shquoted(s@),
{
    let v = chars_of(s);
    let mut out = String::new();
    out.push('\'');
    let mut i: usize = 0;
    assert(out@ =~= seq!['\''] + sh_inner(v@.take(0)));
    while i < v.len()
        invariant
            i <= v.len(),
            out@ == seq!['\''] + sh_inner(v@.take(i as int)),
        decreases v.len() - i,
    {
        assert(v@.take(i + 1).drop_last() =~= v@.take(i as int));
        let ghost before = out@;
        if v[i] == '\'' {
            out.push('\'');
            out.push('\\');
            out.push('\'');
            out.push('\'');
        } else {
            out.push(v[i]);
        }
        assert(out@ =~= before + sh_escape(v@[i as int]));
        assert(out@ =~= seq!['\''] + sh_inner(v@.take(i + 1)));
        i += 1;
    }
    assert(v@.take(i as int) =~= v@);
    out.push('\'');
    assert(out@ =~= shquoted(s@));
    out
}

/// How a shell reads a word: characters between single quotes stand for themselves, a backslash
/// outside them makes the next character stand for itself, and outside both only identifier
/// characters are plain. The text the word stands for, or nothing when anything else occurs.
pub open spec fn sh_word(s: Seq<char>, quoted: bool) -> Option<Seq<char>>
    decreases s.len(),
{
    if s.len() == 0 {
        if quoted {
            None
        } else {
            Some(Seq::empty())
        }
    } else if s[0] == '\'' {
        sh_word(s.skip(1), !quoted)
    } else if quoted {
        match sh_word(s.skip(1), true) {
            Some(t) => Some(seq![s[0]] + t),
            None => None,
        }
    } else if s[0] == '\\' && s.len() > 1 {
        match sh_word(s.skip(2), false) {
            Some(t) => Some(seq![s[1]] + t),
            None => None,
        }
    } else if is_ident_char(s[0]) {
        match sh_word(s.skip(1), false) {
            Some(t) => Some(seq![s[0]] + t),
            None => None,
        }
    } else {
        None
    }
}

proof fn lemma_inner_front(s: Seq<char>)
    requires
        s.len() > 0,
    ensures
        sh_inner(s) == sh_escape(s[0]) + sh_inner(s.drop_first()),
    decreases s.len(),
{
    if s.len() == 1 {
        assert(s.drop_last() =~= Seq::<char>::empty());
        assert(s.drop_first() =~= Seq::<char>::empty());
        assert(sh_inner(s) =~= sh_escape(s[0]) + sh_inner(s.drop_first()));
    } else {
        lemma_inner_front(s.drop_last());
        let t = s.drop_first();
        assert(s.drop_last().drop_first() =~= t.drop_last());
        assert(sh_inner(s) =~= sh_escape(s[0]) + sh_inner(t));
    }
}

proof fn lemma_word_of_inner(s: Seq<char>)
    ensures
        sh_word(sh_inner(s) + seq!['\''], true) == Some(s),
    decreases s.len(),
{
    let end = seq!['\''];
    if s.len() == 0 {
        assert(sh_inner(s) + end =~= end);
        assert(end.skip(1) =~= Seq::<char>::empty());
        assert(sh_word(end.skip(1), false) == Some(Seq::<char>::empty()));
        assert(s =~= Seq::<char>::empty());
    } else {
        lemma_inner_front(s);
        let t = s.drop_first();
        lemma_word_of_inner(t);
        let rest = sh_inner(t) + end;
        let w = sh_inner(s) + end;
        assert(w =~= sh_escape(s[0]) + rest);
        assert(seq![s[0]] + t =~= s);
        if s[0] == '\'' {
            // ' closes, \' is one quote, ' opens again
            let a = w.skip(1);
            assert(w[0] == '\'');
            assert(a[0] == '\\');
            assert(a[1] == '\'');
            let b = a.skip(2);
            assert(b[0] == '\'');
            assert(b.skip(1) =~= rest);
            assert(sh_word(b, false) == Some(t));
            assert(sh_word(a, false) == Some(seq!['\''] + t));
        } else {
            assert(w[0] == s[0]);
            assert(w.skip(1) =~= rest);
        }
    }
}

/// A quoted text is one shell word that stands for the text itself, whatever it holds: nothing of
/// it is read as shell syntax.
pub proof fn a_quoted_text_is_one_inert_word(s: Seq<char>)
    ensures
        sh_word(shquoted(s), false) == Some(s),
{
    lemma_word_of_inner(s);
    let q = shquoted(s);
    assert(q[0] == '\'');
    assert(q.skip(1) =~= sh_inner(s) + seq!['\'']);
}

// ---------------------------------------------------------------------------------------------
// Rendering
// ---------------------------------------------------------------------------------------------
/// How deep the arrays and objects of a JSON text are nested, from position `i` on, where `open` of
/// them are open before it and `quoted` says whether it lies in a string.
pub open spec fn nesting_from(s: Seq<char>, i: int, open: nat, quoted: bool) -> nat
    decreases s.len() - i,
{
    if i < 0 || i >= s.len() {
        open
    } else if quoted {
        if s[i] == '\\' && i + 1 < s.len() {
            nesting_from(s, i + 2, open, true)
        } else {
            nesting_from(s, i + 1, open, s[i] != '"')
        }
    } else if s[i] == '[' || s[i] == '{' {
        nesting_from(s, i + 1, open + 1, false)
    } else if s[i] == ']' || s[i] == '}' {
        let left = if open > 0 {
            (open - 1) as nat
        } else {
            0
        };
        let rest = nesting_from(s, i + 1, left, false);
        if rest > open {
            rest
        } else {
            open
        }
    } else {
        nesting_from(s, i + 1, open, s[i] == '"')
    }
}

/// How deep the arrays and objects of a JSON text are nested.
pub open spec fn nesting(s: Seq<char>) -> nat {
    nesting_from(s, 0, 0, false)
}

/// How deep a context may be nested to be rendered: twice as deep as any document that is read.
pub const MAX_NESTING: usize = 256;

fn nesting_of(text: &str) -> (r: usize)
    ensures
        r == nesting(text@),
{
    let s = chars_of(text);
    let mut deepest: usize = 0;
    let mut open: usize = 0;
    let mut quoted = false;
    let mut i: usize = 0;
    while i < s.len()
        invariant
            i <= s.len(),
            open <= i,
            deepest <= i,
            s@ == text@,
            nesting(s@) == ({
                let rest = nesting_from(s@, i as int, open as nat, quoted);
                if rest > deepest {
                    rest
                } else {
                    deepest as nat
                }
            }),
        decreases s.len() - i,
    {
        let c = s[i];
        if quoted {
            if c == '\\' && i + 1 < s.len() {
                i += 1;
            } else {
                quoted = c != '"';
            }
        } else if c == '[' || c == '{' {
            open += 1;
        } else if c == ']' || c == '}' {
            if open > deepest {
                deepest = open;
            }
            if open > 0 {
                open -= 1;
            }
        } else {
            quoted = c == '"';
        }
        i += 1;
    }
    if open > deepest {
        open
    } else {
        deepest
    }
}

/// What is said of a context that is nested too deep.
pub open spec fn too_deep() -> Seq<char> {
    "the context is nested too deeply"@
}

/// What is said of a template that is not rendered, or an expression that is not evaluated.
pub open spec fn not_taken() -> Seq<char> {
    "the template uses what is not supported"@
}

/// How many instructions of the template engine a template or an expression may take.
pub const MAX_STEPS: u64 = 1_000_000;

/// What the template engine renders a template to in a context (a JSON document) with so many
/// instructions, or the message of the failure.
pub uninterp spec fn engine_rendered(template: Seq<char>, ctx: Seq<char>, steps: u64) -> Result<
    Seq<char>,
    Seq<char>,
>;

/// `minijinja`'s rendering of a template with strict undefined values, the filter `shquote` and so
/// much fuel: called [`engine_rendered`]. The engine takes a template whose constructs are among
/// those of [`engine_takes`]; others can make it panic or run on.
#[verifier::external_body]
pub(crate) fn render_with_engine(template: &str, ctx: &str, steps: u64) -> (r: Result<
    String,
    String,
>)
    requires
        engine_takes(template@),
        nesting(ctx@) <= MAX_NESTING,
        steps <= MAX_STEPS,
    ensures
        match r {
            Ok(s) => engine_rendered(template@, ctx@, steps) == Ok::<Seq<char>, Seq<char>>(s@),
            Err(e) => engine_rendered(template@, ctx@, steps) == Err::<Seq<char>, Seq<char>>(e@),
        },
{
    let mut env = minijinja::Environment::new();
    env.set_undefined_behavior(minijinja::UndefinedBehavior::Strict);
    env.set_fuel(Some(steps));
    env.add_filter("shquote", |v: minijinja::Value| shquote(&v.to_string()));
    env.add_template_owned("__odin_render", template.to_owned()).map_err(|e| e.to_string())?;
    let compiled = env.get_template("__odin_render").map_err(|e| e.to_string())?;
    let mut json = serde_json::Deserializer::from_str(ctx);
    json.disable_recursion_limit();
    let value = serde_json::Value::deserialize(&mut json).map_err(|e| e.to_string())?;
    json.end().map_err(|e| e.to_string())?;
    compiled.render(minijinja::Value::from_serialize(&value)).map_err(|e| e.to_string())
}

/// What a template renders to in a context (a JSON document), or the message of the failure.
pub open spec fn rendered(template: Seq<char>, ctx: Seq<char>) -> Result<Seq<char>, Seq<char>> {
    if !engine_takes(template) {
        Err(not_taken())
    } else if nesting(ctx) <= MAX_NESTING {
        engine_rendered(template, ctx, MAX_STEPS)
    } else {
        Err(too_deep())
    }
}

/// Whether the template engine finds an expression true in a context (a JSON document) with so
/// many instructions, or the message of the failure.
pub uninterp spec fn engine_evaluated(expr: Seq<char>, ctx: Seq<char>, steps: u64) -> Result<
    bool,
    Seq<char>,
>;

/// `minijinja`'s evaluation of an expression with strict undefined values, the filter `shquote`
/// and so much fuel, and the truth of its value: called [`engine_evaluated`]. The engine takes an
/// expression whose constructs are among those of [`engine_takes_expr`]; others can make it panic
/// or run on.
#[verifier::external_body]
pub(crate) fn evaluate_with_engine(expr: &str, ctx: &str, steps: u64) -> (r: Result<
    bool,
    String,
>)
    requires
        engine_takes_expr(expr@),
        nesting(ctx@) <= MAX_NESTING,
        steps <= MAX_STEPS,
    ensures
        match r {
            Ok(b) => engine_evaluated(expr@, ctx@, steps) == Ok::<bool, Seq<char>>(b),
            Err(e) => engine_evaluated(expr@, ctx@, steps) == Err::<bool, Seq<char>>(e@),
        },
{
    let mut env = minijinja::Environment::new();
    env.set_undefined_behavior(minijinja::UndefinedBehavior::Strict);
    env.set_fuel(Some(steps));
    env.add_filter("shquote", |v: minijinja::Value| shquote(&v.to_string()));
    let compiled = env.compile_expression(expr).map_err(|e| e.to_string())?;
    let mut json = serde_json::Deserializer::from_str(ctx);
    json.disable_recursion_limit();
    let value = serde_json::Value::deserialize(&mut json).map_err(|e| e.to_string())?;
    json.end().map_err(|e| e.to_string())?;
    let value = compiled.eval(minijinja::Value::from_serialize(&value));
    value.map(|v| v.is_true()).map_err(|e| e.to_string())
}

/// Whether an expression is true in a context (a JSON document), or the message of the failure.
pub open spec fn evaluated(expr: Seq<char>, ctx: Seq<char>) -> Result<bool, Seq<char>> {
    if !engine_takes_expr(expr) {
        Err(not_taken())
    } else if nesting(ctx) <= MAX_NESTING {
        engine_evaluated(expr, ctx, MAX_STEPS)
    } else {
        Err(too_deep())
    }
}

/// The failure of a template, with where it came from.
pub fn template_error(context: &str, source: String) -> (r: Error)
    ensures
        r == (Error::Template { context: r->context, source }),
        r->context@ == context@,
{
    Error::Template { context: context.to_owned(), source }
}

/// Renders a template in `ctx`. `what` says where the template came from, for the error.
pub fn render_template(tpl: &str, ctx: &Context, what: &str) -> (r: Result<String, Error>)
    ensures
        match r {
            Ok(s) => rendered(tpl@, object_text(ctx@)) == Ok::<Seq<char>, Seq<char>>(s@),
            Err(e) => e matches Error::Template { context, source } && context@ == what@
                && rendered(tpl@, object_text(ctx@)) == Err::<Seq<char>, Seq<char>>(source@),
        },
{
    if !can_take(tpl) {
        return Err(template_error(what, "the template uses what is not supported".to_owned()));
    }
    let json = ctx.to_json();
    if nesting_of(&json) > MAX_NESTING {
        return Err(template_error(what, "the context is nested too deeply".to_owned()));
    }
    match render_with_engine(tpl, &json, MAX_STEPS) {
        Ok(s) => Ok(s),
        Err(e) => Err(template_error(what, e)),
    }
}

/// The truth of a guard: an empty one is true.
pub open spec fn guard_holds(expr: Seq<char>, ctx: Seq<char>) -> Result<bool, Seq<char>> {
    if is_blank(expr) {
        Ok(true)
    } else {
        evaluated(expr, ctx)
    }
}

/// The message of a guard's failure.
pub open spec fn guard_error_text(source: Seq<char>) -> Seq<char> {
    "template error in "@ + "when"@ + ": "@ + source
}

/// Evaluates a guard in `ctx`: false, zero, empty and none are false, and an empty guard is true.
pub fn eval_when(expr: &str, ctx: &Context) -> (r: Result<bool, Error>)
    ensures
        match r {
            Ok(b) => guard_holds(expr@, object_text(ctx@)) == Ok::<bool, Seq<char>>(b),
            Err(e) => e matches Error::Template { context, source } && context@ == "when"@
                && guard_holds(expr@, object_text(ctx@)) == Err::<bool, Seq<char>>(source@),
        },
{
    if blank(expr) {
        return Ok(true);
    }
    if !can_take_expr(expr) {
        return Err(template_error("when", "the template uses what is not supported".to_owned()));
    }
    let json = ctx.to_json();
    if nesting_of(&json) > MAX_NESTING {
        return Err(template_error("when", "the context is nested too deeply".to_owned()));
    }
    match evaluate_with_engine(expr, &json, MAX_STEPS) {
        Ok(b) => Ok(b),
        Err(e) => Err(template_error("when", e)),
    }
}

/// Evaluates a guard, with a failure as its message.
pub fn guard(expr: &str, ctx: &Context) -> (r: Result<bool, String>)
    ensures
        match r {
            Ok(b) => guard_holds(expr@, object_text(ctx@)) == Ok::<bool, Seq<char>>(b),
            Err(m) => guard_holds(expr@, object_text(ctx@)) matches Err(source) && m@ == guard_error_text(
                source,
            ),
        },
{
    match eval_when(expr, ctx) {
        Ok(b) => Ok(b),
        Err(e) => Err(e.to_string()),
    }
}

/// The message of a template's failure.
pub open spec fn render_error_text(what: Seq<char>, source: Seq<char>) -> Seq<char> {
    "template error in "@ + what + ": "@ + source
}

/// Renders a template, with a failure as its message.
pub fn render(tpl: &str, ctx: &Context, what: &str) -> (r: Result<String, String>)
    ensures
        match r {
            Ok(s) => rendered(tpl@, object_text(ctx@)) == Ok::<Seq<char>, Seq<char>>(s@),
            Err(m) => rendered(tpl@, object_text(ctx@)) matches Err(source) && m@ == render_error_text(
                what@,
                source,
            ),
        },
{
    match render_template(tpl, ctx, what) {
        Ok(s) => Ok(s),
        Err(e) => Err(e.to_string()),
    }
}

/// A guard that is blank holds, and any other holds as the engine says it does.
pub proof fn a_blank_guard_holds(expr: Seq<char>, ctx: Seq<char>)
    ensures
        (forall|i: int| 0 <= i < expr.len() ==> #[trigger] expr[i] == ' ') ==> guard_holds(expr, ctx)
            == Ok::<bool, Seq<char>>(true),
        !is_blank(expr) && guard_holds(expr, ctx) is Ok ==> guard_holds(expr, ctx)
            == engine_evaluated(expr, ctx, MAX_STEPS),
        !is_blank(expr) && engine_takes_expr(expr) && nesting(ctx) <= 256 ==> guard_holds(expr, ctx)
            == engine_evaluated(expr, ctx, MAX_STEPS),
{
    crate::text::only_space_is_trimmed(expr);
    if (forall|i: int| 0 <= i < expr.len() ==> #[trigger] expr[i] == ' ') && !is_blank(expr) {
        let t = crate::text::trimmed(expr);
        let (lo, hi) = choose|lo: int, hi: int|
            0 <= lo <= hi <= expr.len() && t == #[trigger] expr.subrange(lo, hi) && (forall|i: int|
                (0 <= i < lo || hi <= i < expr.len()) ==> crate::text::is_white(
                    #[trigger] expr[i],
                ));
        assert(t[0] == expr[lo]);
    }
}

proof fn lemma_roots_unique(members: Seq<(Seq<char>, Seq<char>)>)
    ensures
        crate::names::unique_keys(roots_of(members)),
    decreases members.len(),
{
    if members.len() > 0 {
        lemma_roots_unique(members.drop_last());
        crate::names::lemma_put_get(
            roots_of(members.drop_last()),
            members.last().0,
            members.last().1,
            members.last().0,
        );
    }
}

/// Each member of an object is a root of the context, the last of its name.
pub proof fn every_member_is_a_root(members: Seq<(Seq<char>, Seq<char>)>, i: int)
    requires
        0 <= i < members.len(),
        forall|j: int| i < j < members.len() ==> (#[trigger] members[j]).0 != members[i].0,
    ensures
        crate::names::lookup(roots_of(members), members[i].0) == Some(members[i].1),
    decreases members.len(),
{
    let d = members.drop_last();
    lemma_roots_unique(d);
    crate::names::lemma_put_get(roots_of(d), members.last().0, members.last().1, members[i].0);
    if i < d.len() {
        assert forall|j: int| i < j < d.len() implies (#[trigger] d[j]).0 != d[i].0 by {
            assert(d[j] == members[j]);
        }
        every_member_is_a_root(d, i);
        assert(members[members.len() - 1].0 != members[i].0);
    }
}

proof fn lemma_nesting_flat(s: Seq<char>, i: int, quoted: bool)
    requires
        !s.contains('['),
        !s.contains('{'),
    ensures
        nesting_from(s, i, 0, quoted) == 0,
    decreases s.len() - i,
{
    if 0 <= i < s.len() {
        assert(s.contains(s[i]));
        lemma_nesting_flat(s, i + 1, false);
        lemma_nesting_flat(s, i + 1, true);
        if i + 1 < s.len() {
            lemma_nesting_flat(s, i + 2, true);
        }
    }
}

proof fn lemma_nesting_grows(s: Seq<char>, i: int, open: nat, quoted: bool)
    ensures
        nesting_from(s, i, open, quoted) >= open,
    decreases s.len() - i,
{
    if 0 <= i < s.len() {
        if quoted {
            if s[i] == '\\' && i + 1 < s.len() {
                lemma_nesting_grows(s, i + 2, open, true);
            } else {
                lemma_nesting_grows(s, i + 1, open, s[i] != '"');
            }
        } else if s[i] == '[' || s[i] == '{' {
            lemma_nesting_grows(s, i + 1, open + 1, false);
        } else if s[i] == ']' || s[i] == '}' {
        } else {
            lemma_nesting_grows(s, i + 1, open, s[i] == '"');
        }
    }
}

proof fn lemma_nesting_opened(s: Seq<char>, i: int, n: nat)
    requires
        0 <= i <= n <= s.len(),
        forall|k: int| i <= k < n ==> (#[trigger] s[k] == '[' || s[k] == '{'),
    ensures
        nesting_from(s, i, i as nat, false) >= n,
    decreases n - i,
{
    if i < n {
        lemma_nesting_opened(s, i + 1, n);
    } else {
        lemma_nesting_grows(s, i, i as nat, false);
    }
}

proof fn lemma_nesting_quoted(s: Seq<char>, i: int)
    requires
        1 <= i < s.len(),
        s.last() == '"',
        forall|k: int| i <= k < s.len() - 1 ==> (#[trigger] s[k] != '"' && s[k] != '\\'),
    ensures
        nesting_from(s, i, 0, true) == 0,
    decreases s.len() - i,
{
    if i < s.len() - 1 {
        lemma_nesting_quoted(s, i + 1);
    } else {
        assert(nesting_from(s, i + 1, 0, false) == 0);
    }
}

/// A text without opening brackets is not nested, one that begins with so many is nested at least
/// as deep, and brackets within quotes do not count.
pub proof fn brackets_make_the_nesting(s: Seq<char>, n: nat, b: Seq<char>)
    ensures
        !s.contains('[') && !s.contains('{') ==> nesting(s) == 0,
        n <= s.len() && (forall|k: int| 0 <= k < n ==> (#[trigger] s[k] == '[' || s[k] == '{'))
            ==> nesting(s) >= n,
        !b.contains('"') && !b.contains('\\') ==> nesting(seq!['"'] + b + seq!['"']) == 0,
{
    if !s.contains('[') && !s.contains('{') {
        lemma_nesting_flat(s, 0, false);
    }
    if n <= s.len() && (forall|k: int| 0 <= k < n ==> (#[trigger] s[k] == '[' || s[k] == '{')) {
        lemma_nesting_opened(s, 0, n);
    }
    if !b.contains('"') && !b.contains('\\') {
        let t = seq!['"'] + b + seq!['"'];
        assert forall|k: int| 1 <= k < t.len() - 1 implies (#[trigger] t[k] != '"' && t[k]
            != '\\') by {
            assert(b.contains(b[k - 1]));
        }
        lemma_nesting_quoted(t, 1);
    }
}

} // verus!
