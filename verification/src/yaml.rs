//! YAML documents, one level at a time.

use serde_yaml_ng::{from_str, to_string, Error, Value};
use vstd::prelude::*;

verus! {

/// A YAML value. A number is its text; the keys and values of a mapping, and what stands behind a
/// tag, are YAML texts of their own.
#[derive(Debug)]
pub enum Yaml {
    Null,
    Bool(bool),
    Number(String),
    String(String),
    /// A sequence, whatever its items are.
    Sequence,
    Mapping(Vec<(String, String)>),
    Tagged(String),
}

/// The mathematical form of a [`Yaml`].
#[verifier::ext_equal]
pub enum YamlView {
    Null,
    Bool(bool),
    Number(Seq<char>),
    String(Seq<char>),
    Sequence,
    Mapping(Seq<(Seq<char>, Seq<char>)>),
    Tagged(Seq<char>),
}

impl View for Yaml {
    type V = YamlView;

    open spec fn view(&self) -> YamlView {
        match *self {
            Yaml::Null => YamlView::Null,
            Yaml::Bool(b) => YamlView::Bool(b),
            Yaml::Number(n) => YamlView::Number(n@),
            Yaml::String(s) => YamlView::String(s@),
            Yaml::Sequence => YamlView::Sequence,
            Yaml::Mapping(m) => YamlView::Mapping(crate::json::members_view(m@)),
            Yaml::Tagged(t) => YamlView::Tagged(t@),
        }
    }
}

/// What a text is as a YAML document, or why it is none.
pub uninterp spec fn yaml_parsed(text: Seq<char>) -> Result<YamlView, Seq<char>>;

/// `serde_yaml_ng::from_str`: the document, called [`yaml_parsed`], or the parser's message. What
/// a mapping or a tag holds comes as the text that `serde_yaml_ng::to_string` writes for it; a
/// document with something that has no such text fails with the writer's message.
#[verifier::external_body]
pub(crate) fn parse_yaml(text: &str) -> (r: Result<Yaml, String>)
    ensures
        match r {
            Ok(v) => yaml_parsed(text@) == Ok::<YamlView, Seq<char>>(v@),
            Err(e) => yaml_parsed(text@) == Err::<YamlView, Seq<char>>(e@),
        },
{
    let read = || -> Result<Yaml, Error> {
        let pair = |(k, v): (&Value, &Value)| Ok((to_string(k)?, to_string(v)?));
        Ok(match from_str(text)? {
            Value::Null => Yaml::Null,
            Value::Bool(b) => Yaml::Bool(b),
            Value::Number(n) => Yaml::Number(n.to_string()),
            Value::String(s) => Yaml::String(s),
            Value::Sequence(_) => Yaml::Sequence,
            Value::Mapping(m) => Yaml::Mapping(m.iter().map(pair).collect::<Result<_, Error>>()?),
            Value::Tagged(t) => Yaml::Tagged(to_string(&t.value)?),
        })
    };
    read().map_err(|e| e.to_string())
}

/// What a value is without its tag.
pub open spec fn untagged(v: YamlView) -> YamlView {
    match v {
        YamlView::Tagged(inner) => match yaml_parsed(inner) {
            Ok(x) => x,
            Err(_) => YamlView::Null,
        },
        _ => v,
    }
}

/// A value without its tag.
pub fn untag(v: Yaml) -> (r: Yaml)
    ensures
        r@ == untagged(v@),
{
    match v {
        Yaml::Tagged(inner) => match parse_yaml(&inner) {
            Ok(x) => x,
            Err(_) => Yaml::Null,
        },
        _ => v,
    }
}

/// The value under a key of a mapping's entries at or after `from`: that of the first entry whose
/// key is that very text.
pub open spec fn entry(m: Seq<(Seq<char>, Seq<char>)>, key: Seq<char>, from: int) -> Option<
    YamlView,
>
    decreases m.len() - from,
{
    if from < 0 || from >= m.len() {
        None
    } else if yaml_parsed(m[from].0) == Ok::<YamlView, Seq<char>>(YamlView::String(key)) {
        match yaml_parsed(m[from].1) {
            Ok(v) => Some(v),
            Err(_) => None,
        }
    } else {
        entry(m, key, from + 1)
    }
}

/// The value under a key of a mapping's entries.
pub fn find_entry(m: &Vec<(String, String)>, key: &str) -> (r: Option<Yaml>)
    ensures
        crate::names::opt_view(r) == entry(crate::json::members_view(m@), key@, 0),
{
    let ghost mv = crate::json::members_view(m@);
    let mut i: usize = 0;
    while i < m.len()
        invariant
            i <= m.len(),
            mv == crate::json::members_view(m@),
            entry(mv, key@, 0) == entry(mv, key@, i as int),
        decreases m.len() - i,
    {
        assert(mv[i as int] == (m@[i as int].0@, m@[i as int].1@));
        if let Ok(Yaml::String(k)) = parse_yaml(&m[i].0) {
            if crate::text::text_eq(&k, key) {
                return match parse_yaml(&m[i].1) {
                    Ok(v) => Some(v),
                    Err(_) => None,
                };
            }
        }
        i += 1;
    }
    None
}

/// What stands under a key is the value of the first entry that has it.
pub proof fn an_entry_is_the_first_of_its_key(
    m: Seq<(Seq<char>, Seq<char>)>,
    key: Seq<char>,
    i: int,
)
    requires
        0 <= i < m.len(),
        yaml_parsed(m[i].0) == Ok::<YamlView, Seq<char>>(YamlView::String(key)),
        forall|j: int|
            0 <= j < i ==> yaml_parsed((#[trigger] m[j]).0) != Ok::<YamlView, Seq<char>>(
                YamlView::String(key),
            ),
    ensures
        yaml_parsed(m[i].1) matches Ok(v) ==> entry(m, key, 0) == Some(v),
        yaml_parsed(m[i].1) is Err ==> entry(m, key, 0) is None,
{
    lemma_entry_from(m, key, 0, i);
}

proof fn lemma_entry_from(m: Seq<(Seq<char>, Seq<char>)>, key: Seq<char>, from: int, i: int)
    requires
        0 <= from <= i < m.len(),
        forall|j: int|
            from <= j < i ==> yaml_parsed((#[trigger] m[j]).0) != Ok::<YamlView, Seq<char>>(
                YamlView::String(key),
            ),
    ensures
        entry(m, key, from) == entry(m, key, i),
    decreases i - from,
{
    if from < i {
        lemma_entry_from(m, key, from + 1, i);
    }
}

} // verus!
