//! JSON values, opened one level.
//!
//! The members of an array or object are kept as their compact JSON text and opened on demand, so
//! a value is plain data however deep the document is.

use crate::names::{opt_view, Replicate};
use crate::text::{concat3, joined, text_eq, texts};
use vstd::prelude::*;

verus! {

/// A JSON value. A number is its JSON text; the members of an array or object are compact JSON
/// texts.
#[derive(Debug, PartialEq)]
pub enum Value {
    Null,
    Bool(bool),
    Number(String),
    String(String),
    Array(Vec<String>),
    Object(Vec<(String, String)>),
}

/// The mathematical form of a [`Value`].
#[verifier::ext_equal]
pub enum ValueView {
    Null,
    Bool(bool),
    Number(Seq<char>),
    String(Seq<char>),
    Array(Seq<Seq<char>>),
    Object(Seq<(Seq<char>, Seq<char>)>),
}

/// The views of an object's members.
pub open spec fn members_view(v: Seq<(String, String)>) -> Seq<(Seq<char>, Seq<char>)> {
    Seq::new(v.len(), |i: int| (v[i].0@, v[i].1@))
}

impl View for Value {
    type V = ValueView;

    open spec fn view(&self) -> ValueView {
        match *self {
            Value::Null => ValueView::Null,
            Value::Bool(b) => ValueView::Bool(b),
            Value::Number(n) => ValueView::Number(n@),
            Value::String(s) => ValueView::String(s@),
            Value::Array(a) => ValueView::Array(texts(a@)),
            Value::Object(o) => ValueView::Object(members_view(o@)),
        }
    }
}

/// What a text is as a JSON document, if it is one.
pub uninterp spec fn json_parsed(text: Seq<char>) -> Option<ValueView>;

/// `serde_json::from_str`: the document, called [`json_parsed`]; nothing when the text is not one
/// JSON document. The members of an array or object come as their compact text.
#[verifier::external_body]
pub(crate) fn parse_json(text: &str) -> (r: Option<Value>)
    ensures
        opt_view(r) == json_parsed(text@),
{
    Some(match serde_json::from_str::<serde_json::Value>(text).ok()? {
        serde_json::Value::Null => Value::Null,
        serde_json::Value::Bool(b) => Value::Bool(b),
        serde_json::Value::Number(n) => Value::Number(n.to_string()),
        serde_json::Value::String(s) => Value::String(s),
        serde_json::Value::Array(a) => Value::Array(a.iter().map(|x| x.to_string()).collect()),
        serde_json::Value::Object(o) => Value::Object(
            o.into_iter().map(|(k, x)| (k, x.to_string())).collect(),
        ),
    })
}

/// The lower-case hexadecimal digit of a number below 16.
pub open spec fn hex_digit(n: int) -> char {
    if n < 10 {
        (n + '0' as u8) as char
    } else {
        (n - 10 + 'a' as u8) as char
    }
}

/// One character inside a JSON string.
pub open spec fn json_escape(c: char) -> Seq<char> {
    let u = c as u32;
    if c == '"' {
        seq!['\\', '"']
    } else if c == '\\' {
        seq!['\\', '\\']
    } else if u == 0x8 {
        seq!['\\', 'b']
    } else if u == 0x9 {
        seq!['\\', 't']
    } else if u == 0xa {
        seq!['\\', 'n']
    } else if u == 0xc {
        seq!['\\', 'f']
    } else if u == 0xd {
        seq!['\\', 'r']
    } else if u < 0x20 {
        seq!['\\', 'u', '0', '0', hex_digit(u as int / 16), hex_digit(u as int % 16)]
    } else {
        seq![c]
    }
}

/// The inside of a JSON string.
pub open spec fn json_escaped(s: Seq<char>) -> Seq<char>
    decreases s.len(),
{
    if s.len() == 0 {
        Seq::empty()
    } else {
        json_escaped(s.drop_last()) + json_escape(s.last())
    }
}

/// A text as a JSON string.
pub open spec fn json_string(s: Seq<char>) -> Seq<char> {
    seq!['"'] + json_escaped(s) + seq!['"']
}

/// `serde_json::to_string` on a text: the JSON string, which parses back to the same text.
#[verifier::external_body]
pub(crate) fn quote_json(s: &str) -> (r: String)
    ensures
        r@ == json_string(s@),
        json_parsed(r@) == Some(ValueView::String(s@)),
{
    serde_json::to_string(s).unwrap()
}

pub(crate) proof fn lemma_escape_is_some(c: char)
    ensures
        json_escape(c).len() >= 1,
{
}

/// An escaped text begins with the escape of its first character.
pub(crate) proof fn lemma_escaped_front(s: Seq<char>)
    requires
        s.len() > 0,
    ensures
        json_escaped(s) == json_escape(s[0]) + json_escaped(s.drop_first()),
    decreases s.len(),
{
    if s.len() == 1 {
        assert(s.drop_last() =~= Seq::<char>::empty());
        assert(s.drop_first() =~= Seq::<char>::empty());
        assert(json_escaped(s) =~= json_escape(s[0]) + json_escaped(s.drop_first()));
    } else {
        lemma_escaped_front(s.drop_last());
        assert(s.drop_first().drop_last() =~= s.drop_last().drop_first());
        assert(s.drop_first().last() == s.last());
        assert(json_escaped(s) =~= json_escape(s[0]) + json_escaped(s.drop_first()));
    }
}

proof fn lemma_same_code(a: char, b: char)
    requires
        a as u32 == b as u32,
    ensures
        a == b,
{
}

/// Where the escapes of two characters begin alike for as long as both are, the characters are
/// the same.
proof fn lemma_escapes_differ(a: char, b: char, x: Seq<char>, y: Seq<char>)
    requires
        json_escape(a) + x == json_escape(b) + y,
    ensures
        a == b,
{
    let p = json_escape(a) + x;
    let q = json_escape(b) + y;
    assert(p[0] == json_escape(a)[0] && q[0] == json_escape(b)[0]);
    if json_escape(a).len() >= 2 && json_escape(b).len() >= 2 {
        assert(p[1] == json_escape(a)[1] && q[1] == json_escape(b)[1]);
        if json_escape(a).len() == 6 && json_escape(b).len() == 6 {
            assert(p[4] == json_escape(a)[4] && q[4] == json_escape(b)[4]);
            assert(p[5] == json_escape(a)[5] && q[5] == json_escape(b)[5]);
            let u = a as u32 as int;
            let v = b as u32 as int;
            assert(hex_digit(u / 16) == hex_digit(v / 16));
            assert(hex_digit(u % 16) == hex_digit(v % 16));
            assert(u == v);
            lemma_same_code(a, b);
        } else if a as u32 == b as u32 {
            lemma_same_code(a, b);
        }
    }
}

proof fn lemma_escaped_texts_differ(a: Seq<char>, b: Seq<char>)
    requires
        json_escaped(a) == json_escaped(b),
    ensures
        a == b,
    decreases a.len(),
{
    if a.len() > 0 {
        lemma_escaped_front(a);
        lemma_escape_is_some(a[0]);
        assert(json_escaped(a).len() >= 1);
    }
    if b.len() > 0 {
        lemma_escaped_front(b);
        lemma_escape_is_some(b[0]);
        assert(json_escaped(b).len() >= 1);
    }
    if a.len() > 0 && b.len() > 0 {
        let x = json_escaped(a.drop_first());
        let y = json_escaped(b.drop_first());
        lemma_escapes_differ(a[0], b[0], x, y);
        let n = json_escape(a[0]).len() as int;
        assert(x =~= (json_escape(a[0]) + x).skip(n));
        assert(y =~= (json_escape(b[0]) + y).skip(n));
        lemma_escaped_texts_differ(a.drop_first(), b.drop_first());
        assert(a =~= seq![a[0]] + a.drop_first());
        assert(b =~= seq![b[0]] + b.drop_first());
    } else {
        assert(a =~= b);
    }
}

/// Different texts have different JSON strings.
pub proof fn different_texts_are_quoted_differently(a: Seq<char>, b: Seq<char>)
    requires
        a != b,
    ensures
        json_string(a) != json_string(b),
{
    if json_string(a) == json_string(b) {
        let n = json_escaped(a).len() as int;
        assert(json_string(a).len() == n + 2);
        assert(json_escaped(a) =~= json_string(a).subrange(1, n + 1));
        assert(json_escaped(b) =~= json_string(b).subrange(1, n + 1));
        lemma_escaped_texts_differ(a, b);
    }
}

/// `"k":v` for one object member.
pub open spec fn member_text(m: (Seq<char>, Seq<char>)) -> Seq<char> {
    json_string(m.0) + ":"@ + m.1
}

/// The texts of an object's members.
pub open spec fn member_texts(o: Seq<(Seq<char>, Seq<char>)>) -> Seq<Seq<char>> {
    Seq::new(o.len(), |i: int| member_text(o[i]))
}

/// The compact JSON text of an object.
pub open spec fn object_text(o: Seq<(Seq<char>, Seq<char>)>) -> Seq<char> {
    "{"@ + joined(member_texts(o), ","@) + "}"@
}

/// The compact JSON text of an array.
pub open spec fn array_text(a: Seq<Seq<char>>) -> Seq<char> {
    "["@ + joined(a, ","@) + "]"@
}

/// The compact JSON text of a value.
pub open spec fn json_text(v: ValueView) -> Seq<char> {
    match v {
        ValueView::Null => "null"@,
        ValueView::Bool(b) => if b {
            "true"@
        } else {
            "false"@
        },
        ValueView::Number(n) => n,
        ValueView::String(s) => json_string(s),
        ValueView::Array(a) => array_text(a),
        ValueView::Object(o) => object_text(o),
    }
}

/// The text under a key: that of the first member with it.
pub open spec fn member(o: Seq<(Seq<char>, Seq<char>)>, k: Seq<char>) -> Option<Seq<char>>
    decreases o.len(),
{
    if o.len() == 0 {
        None
    } else if o[0].0 == k {
        Some(o[0].1)
    } else {
        member(o.drop_first(), k)
    }
}

/// An object built up member by member, in the order the members are added.
pub struct ObjectText {
    parts: Vec<String>,
    members: Ghost<Seq<(Seq<char>, Seq<char>)>>,
}

impl View for ObjectText {
    type V = Seq<(Seq<char>, Seq<char>)>;

    closed spec fn view(&self) -> Seq<(Seq<char>, Seq<char>)> {
        self.members@
    }
}

impl ObjectText {
    #[verifier::type_invariant]
    spec fn inv(self) -> bool {
        texts(self.parts@) == member_texts(self.members@)
    }

    /// An object without members.
    pub fn new() -> (r: Self)
        ensures
            r@ == Seq::<(Seq<char>, Seq<char>)>::empty(),
    {
        let parts: Vec<String> = Vec::new();
        let ghost none = Seq::<(Seq<char>, Seq<char>)>::empty();
        assert(texts(parts@) =~= member_texts(none));
        ObjectText { parts, members: Ghost(none) }
    }

    /// Adds the member `k` with the compact JSON text `v`.
    pub fn with(self, k: &str, v: &str) -> (r: Self)
        ensures
            r@ == self@.push((k@, v@)),
    {
        proof {
            use_type_invariant(&self);
        }
        let ObjectText { parts, members } = self;
        let ghost before = members@;
        let mut parts = parts;
        let q = quote_json(k);
        let part = concat3(&q, ":", v);
        let ghost was = parts@;
        parts.push(part);
        let ghost now = before.push((k@, v@));
        assert(texts(parts@) =~= texts(was).push(part@));
        assert(member_texts(now) =~= member_texts(before).push(member_text((k@, v@))));
        ObjectText { parts, members: Ghost(now) }
    }

    /// The compact JSON text.
    pub fn text(&self) -> (r: String)
        ensures
            r@ == object_text(self@),
    {
        proof {
            use_type_invariant(self);
        }
        let inner = crate::text::join(&self.parts, ",");
        concat3("{", &inner, "}")
    }
}

impl Value {
    /// A string value.
    pub fn string(s: &str) -> (r: Self)
        ensures
            r@ == ValueView::String(s@),
    {
        Value::String(s.to_owned())
    }

    /// A whole-number value.
    pub fn number(n: u64) -> (r: Self)
        ensures
            r@ == ValueView::Number(crate::text::decimal(n as nat)),
    {
        Value::Number(crate::text::decimal_of(n as u128))
    }

    /// Whether this is a string.
    pub fn is_string(&self) -> (r: bool)
        ensures
            r == (self@ is String),
    {
        matches!(self, Value::String(_))
    }

    /// Whether this is a number.
    pub fn is_number(&self) -> (r: bool)
        ensures
            r == (self@ is Number),
    {
        matches!(self, Value::Number(_))
    }

    /// Whether this is a boolean.
    pub fn is_boolean(&self) -> (r: bool)
        ensures
            r == (self@ is Bool),
    {
        matches!(self, Value::Bool(_))
    }

    /// The text of a string value.
    pub fn as_str(&self) -> (r: Option<&str>)
        ensures
            match r {
                Some(s) => self@ == ValueView::String(s@),
                None => !(self@ is String),
            },
    {
        match self {
            Value::String(s) => Some(s.as_str()),
            _ => None,
        }
    }

    /// The compact JSON text.
    pub fn to_json(&self) -> (r: String)
        ensures
            r@ == json_text(self@),
    {
        match self {
            Value::Null => "null".to_owned(),
            Value::Bool(b) => if *b {
                "true".to_owned()
            } else {
                "false".to_owned()
            },
            Value::Number(n) => n.clone(),
            Value::String(s) => quote_json(s),
            Value::Array(a) => {
                let inner = crate::text::join(a, ",");
                concat3("[", &inner, "]")
            },
            Value::Object(o) => {
                let mut parts: Vec<String> = Vec::new();
                let mut i: usize = 0;
                while i < o.len()
                    invariant
                        i <= o.len(),
                        texts(parts@) == member_texts(members_view(o@)).subrange(0, i as int),
                    decreases o.len() - i,
                {
                    let q = quote_json(&o[i].0);
                    let part = concat3(&q, ":", &o[i].1);
                    let ghost was = parts@;
                    parts.push(part);
                    assert(texts(parts@) =~= texts(was).push(part@));
                    assert(member_texts(members_view(o@)).subrange(0, i as int).push(part@)
                        =~= member_texts(members_view(o@)).subrange(0, i + 1));
                    i += 1;
                }
                assert(member_texts(members_view(o@)).subrange(0, o@.len() as int)
                    =~= member_texts(members_view(o@)));
                let inner = crate::text::join(&parts, ",");
                concat3("{", &inner, "}")
            },
        }
    }

    /// The compact JSON text of the member `k` of an object.
    pub fn get(&self, k: &str) -> (r: Option<&String>)
        ensures
            match self@ {
                ValueView::Object(o) => match r {
                    Some(t) => member(o, k@) == Some(t@),
                    None => member(o, k@) is None,
                },
                _ => r is None,
            },
    {
        match self {
            Value::Object(o) => {
                let mut i: usize = 0;
                let ghost ov = members_view(o@);
                assert(ov.skip(0) =~= ov);
                while i < o.len()
                    invariant
                        i <= o.len(),
                        ov == members_view(o@),
                        self@ == ValueView::Object(ov),
                        member(ov, k@) == member(ov.skip(i as int), k@),
                    decreases o.len() - i,
                {
                    if text_eq(&o[i].0, k) {
                        assert(ov.skip(i as int)[0] == ov[i as int]);
                        return Some(&o[i].1);
                    }
                    assert(ov.skip(i as int).drop_first() =~= ov.skip(i + 1));
                    i += 1;
                }
                assert(ov.skip(i as int).len() == 0);
                None
            },
            _ => None,
        }
    }
}

impl Replicate for Value {
    fn replicate(&self) -> (r: Self) {
        match self {
            Value::Null => Value::Null,
            Value::Bool(b) => Value::Bool(*b),
            Value::Number(n) => Value::Number(n.clone()),
            Value::String(s) => Value::String(s.clone()),
            Value::Array(a) => {
                let c = copy_texts(a);
                Value::Array(c)
            },
            Value::Object(o) => {
                let mut out: Vec<(String, String)> = Vec::new();
                let mut i: usize = 0;
                while i < o.len()
                    invariant
                        i <= o.len(),
                        out@.len() == i,
                        forall|j: int|
                            0 <= j < i ==> (#[trigger] out@[j]).0@ == o@[j].0@ && out@[j].1@
                                == o@[j].1@,
                    decreases o.len() - i,
                {
                    out.push((o[i].0.clone(), o[i].1.clone()));
                    i += 1;
                }
                assert(members_view(out@) =~= members_view(o@));
                Value::Object(out)
            },
        }
    }
}

impl Clone for Value {
    fn clone(&self) -> (r: Self)
        ensures
            r@ == self@,
    {
        self.replicate()
    }
}

/// Copies a vector of texts.
pub fn copy_texts(v: &Vec<String>) -> (r: Vec<String>)
    ensures
        texts(r@) == texts(v@),
{
    let r = crate::names::replicate_all(v);
    assert(texts(r@) =~= crate::names::views(r@));
    assert(texts(v@) =~= crate::names::views(v@));
    r
}

/// A member is the first that has its name, and there is none exactly when no member has it.
pub proof fn a_member_is_the_first_of_its_name(o: Seq<(Seq<char>, Seq<char>)>, k: Seq<char>, i: int)
    requires
        0 <= i < o.len(),
    ensures
        o[i].0 == k && (forall|j: int| 0 <= j < i ==> (#[trigger] o[j]).0 != k) ==> member(o, k)
            == Some(o[i].1),
        member(o, k) is None ==> o[i].0 != k,
    decreases o.len(),
{
    if i > 0 {
        let d = o.drop_first();
        assert(d[i - 1] == o[i]);
        a_member_is_the_first_of_its_name(d, k, i - 1);
        if forall|j: int| 0 <= j < i ==> (#[trigger] o[j]).0 != k {
            assert forall|j: int| 0 <= j < i - 1 implies (#[trigger] d[j]).0 != k by {
                assert(d[j] == o[j + 1]);
            }
            assert(o[0].0 != k);
        }
    }
}

/// A character that JSON takes as it is stands for itself, a quote and a backslash stand behind a
/// backslash, and no control character is left.
pub proof fn only_what_must_be_is_escaped(s: Seq<char>, c: char)
    ensures
        json_string(s.push(c)) == seq!['"'] + json_escaped(s) + json_escape(c) + seq!['"'],
        c as u32 >= 0x20 && c != '"' && c != '\\' ==> json_escape(c) == seq![c],
        json_escape('"') == seq!['\\', '"'],
        json_escape('\\') == seq!['\\', '\\'],
        json_escape('\n') == seq!['\\', 'n'],
        json_escape('\t') == seq!['\\', 't'],
        json_escape('\r') == seq!['\\', 'r'],
        c as u32 != 0x8 && c as u32 != 0x9 && c as u32 != 0xa && c as u32 != 0xc && c as u32 != 0xd
            && (c as u32) < 0x20 ==> json_escape(c).len() == 6 && json_escape(c).take(4) == seq![
            '\\',
            'u',
            '0',
            '0',
        ],
{
    assert(s.push(c).drop_last() =~= s);
    assert(json_string(s.push(c)) =~= seq!['"'] + json_escaped(s) + json_escape(c) + seq!['"']);
    if c as u32 != 0x8 && c as u32 != 0x9 && c as u32 != 0xa && c as u32 != 0xc && c as u32 != 0xd
        && (c as u32) < 0x20 {
        assert(json_escape(c).take(4) =~= seq!['\\', 'u', '0', '0']);
    }
}

/// A value is written as what it is: a boolean by its name, a number by its digits, a text between
/// quotes.
pub proof fn a_value_is_written_as_what_it_is(t: Seq<char>)
    ensures
        json_text(ValueView::Null) == "null"@,
        json_text(ValueView::Bool(true)) == "true"@,
        json_text(ValueView::Bool(false)) == "false"@,
        json_text(ValueView::Number(t)) == t,
        json_text(ValueView::String(t)) == json_string(t),
{
}

} // verus!
