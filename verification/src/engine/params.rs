//! Resolution of a run's params against the workflow's declarations.

use crate::api::RunInput;
use crate::error::Error;
use crate::ir::params::{type_label, type_matches, ParamSpec, ParamSpecView};
use crate::ir::workflow::Workflow;
use crate::json::{json_text, Value, ValueView};
use crate::names::{
    has_key, key_pos, lemma_put_get, lookup, put, replicate_opt, unique_keys, OrderedMap,
    Replicate,
};
use crate::text::{concat2, concat5, debug_quoted, quote_debug};
use vstd::prelude::*;

verus! {

/// The value a declared param gets: what was given, else its default.
pub open spec fn param_value(
    name: Seq<char>,
    spec: ParamSpecView,
    given: Seq<(Seq<char>, ValueView)>,
) -> Option<ValueView> {
    if has_key(given, name) {
        lookup(given, name)
    } else {
        spec.default
    }
}

/// What is wrong with a declared param, if anything.
pub open spec fn param_problem(
    name: Seq<char>,
    spec: ParamSpecView,
    given: Seq<(Seq<char>, ValueView)>,
) -> Option<Seq<char>> {
    match param_value(name, spec, given) {
        Some(v) => if type_matches(spec.ty, v) {
            None
        } else {
            Some(
                "param "@ + debug_quoted(name) + " expects type "@ + type_label(spec.ty)
                    + " but got "@ + json_text(v),
            )
        },
        None => if spec.required {
            Some("missing required param "@ + debug_quoted(name))
        } else {
            None
        },
    }
}

/// The first problem at or after the declaration at `from`.
pub open spec fn first_problem(
    declared: Seq<(Seq<char>, ParamSpecView)>,
    given: Seq<(Seq<char>, ValueView)>,
    from: int,
) -> Option<Seq<char>>
    decreases declared.len() - from,
{
    if from < 0 || from >= declared.len() {
        None
    } else {
        match param_problem(declared[from].0, declared[from].1, given) {
            Some(p) => Some(p),
            None => first_problem(declared, given, from + 1),
        }
    }
}

/// The declared params that have a value, in the order of their declarations.
pub open spec fn declared_values(
    declared: Seq<(Seq<char>, ParamSpecView)>,
    given: Seq<(Seq<char>, ValueView)>,
) -> Seq<(Seq<char>, ValueView)>
    decreases declared.len(),
{
    if declared.len() == 0 {
        Seq::empty()
    } else {
        let before = declared_values(declared.drop_last(), given);
        match param_value(declared.last().0, declared.last().1, given) {
            Some(v) => put(before, declared.last().0, v),
            None => before,
        }
    }
}

/// Values with what else was given, in the order it was given.
pub open spec fn with_extras(
    values: Seq<(Seq<char>, ValueView)>,
    given: Seq<(Seq<char>, ValueView)>,
) -> Seq<(Seq<char>, ValueView)>
    decreases given.len(),
{
    if given.len() == 0 {
        values
    } else {
        let before = with_extras(values, given.drop_last());
        if has_key(before, given.last().0) {
            before
        } else {
            put(before, given.last().0, given.last().1)
        }
    }
}

/// The params a run gets.
pub open spec fn resolved(
    declared: Seq<(Seq<char>, ParamSpecView)>,
    given: Seq<(Seq<char>, ValueView)>,
) -> Seq<(Seq<char>, ValueView)> {
    with_extras(declared_values(declared, given), given)
}

fn value_for(name: &str, spec: &ParamSpec, given: &OrderedMap<Value>) -> (r: Option<Value>)
    ensures
        crate::names::opt_view(r) == param_value(name@, spec@, given@),
{
    match given.get(name) {
        Some(v) => Some(v.replicate()),
        None => replicate_opt(&spec.default),
    }
}

/// Resolves the declared params from the given values and the defaults, refusing a value of the
/// wrong type and a required param without a value. What else was given is passed on.
pub fn resolve_params(workflow: &Workflow, input: &RunInput) -> (r: Result<
    OrderedMap<Value>,
    Error,
>)
    ensures
        match first_problem(workflow.params@, input.params@, 0) {
            None => r matches Ok(m) && m@ == resolved(workflow.params@, input.params@),
            Some(p) => r matches Err(Error::Input(t)) && t@ == p,
        },
{
    let declared = &workflow.params;
    let given = &input.params;
    let n = declared.len();
    let mut out: OrderedMap<Value> = OrderedMap::new();
    let mut i: usize = 0;
    assert(declared@.take(0) =~= Seq::<(Seq<char>, ParamSpecView)>::empty());
    while i < n
        invariant
            i <= n,
            n == declared@.len(),
            *declared == workflow.params,
            *given == input.params,
            first_problem(declared@, given@, 0) == first_problem(declared@, given@, i as int),
            out@ == declared_values(declared@.take(i as int), given@),
        decreases n - i,
    {
        let name = declared.key_at(i);
        let spec = declared.value_at(i);
        assert(declared@.take(i + 1).drop_last() =~= declared@.take(i as int));
        match value_for(name, spec, given) {
            Some(v) => {
                if !spec.ty.matches(&v) {
                    let quoted = quote_debug(name);
                    let head = concat5("param ", &quoted, " expects type ", spec.ty.name(), " but got ");
                    let got = v.to_json();
                    return Err(Error::Input(concat2(&head, &got)));
                }
                out.insert(name.clone(), v);
            },
            None => {
                if spec.required {
                    let quoted = quote_debug(name);
                    return Err(Error::Input(concat2("missing required param ", &quoted)));
                }
            },
        }
        i += 1;
    }
    assert(declared@.take(n as int) =~= declared@);
    let ghost base = out@;
    let m = given.len();
    let mut j: usize = 0;
    assert(given@.take(0) =~= Seq::<(Seq<char>, ValueView)>::empty());
    while j < m
        invariant
            j <= m,
            m == given@.len(),
            out@ == with_extras(base, given@.take(j as int)),
        decreases m - j,
    {
        assert(given@.take(j + 1).drop_last() =~= given@.take(j as int));
        let k = given.key_at(j);
        if !out.contains_key(k) {
            out.insert(k.clone(), given.value_at(j).replicate());
        }
        j += 1;
    }
    assert(given@.take(m as int) =~= given@);
    Ok(out)
}

proof fn lemma_declared_values(
    declared: Seq<(Seq<char>, ParamSpecView)>,
    given: Seq<(Seq<char>, ValueView)>,
    k: Seq<char>,
)
    requires
        unique_keys(declared),
    ensures
        unique_keys(declared_values(declared, given)),
        lookup(declared_values(declared, given), k) == (if has_key(declared, k) {
            param_value(k, lookup(declared, k)->0, given)
        } else {
            None
        }),
    decreases declared.len(),
{
    if declared.len() > 0 {
        let d = declared.drop_last();
        let last = declared.last();
        assert forall|i: int, j: int|
            0 <= i < d.len() && 0 <= j < d.len() && (#[trigger] d[i]).0 == (#[trigger] d[j]).0 implies i
            == j by {
            assert(declared[i].0 == declared[j].0);
        }
        lemma_declared_values(d, given, k);
        let before = declared_values(d, given);
        if let Some(v) = param_value(last.0, last.1, given) {
            lemma_put_get(before, last.0, v, k);
        }
        if has_key(d, k) {
            let at = key_pos(d, k);
            assert(declared[at].0 == k);
            assert(key_pos(declared, k) == at);
            assert(last == declared[declared.len() - 1]);
            assert(last.0 != k);
        }
        if has_key(declared, k) {
            let at = key_pos(declared, k);
            if at < declared.len() - 1 {
                assert(d[at].0 == k);
            } else {
                assert(declared[at] == last);
                if has_key(d, k) {
                    assert(declared[key_pos(d, k)].0 == declared[at].0);
                }
            }
        }
        assert(declared[declared.len() - 1].0 == last.0);
    }
}

proof fn lemma_with_extras(
    values: Seq<(Seq<char>, ValueView)>,
    given: Seq<(Seq<char>, ValueView)>,
    k: Seq<char>,
)
    requires
        unique_keys(values),
        unique_keys(given),
    ensures
        unique_keys(with_extras(values, given)),
        lookup(with_extras(values, given), k) == (if has_key(values, k) {
            lookup(values, k)
        } else {
            lookup(given, k)
        }),
    decreases given.len(),
{
    if given.len() > 0 {
        let g = given.drop_last();
        let last = given.last();
        assert forall|i: int, j: int|
            0 <= i < g.len() && 0 <= j < g.len() && (#[trigger] g[i]).0 == (#[trigger] g[j]).0 implies i
            == j by {
            assert(given[i].0 == given[j].0);
        }
        lemma_with_extras(values, g, k);
        lemma_with_extras(values, g, last.0);
        let before = with_extras(values, g);
        lemma_put_get(before, last.0, last.1, k);
        assert(given[given.len() - 1] == last);
        if has_key(g, k) {
            let at = key_pos(g, k);
            assert(given[at].0 == k);
            assert(key_pos(given, k) == at);
        }
        if has_key(given, k) {
            let at = key_pos(given, k);
            if at < given.len() - 1 {
                assert(g[at].0 == k);
            }
        }
        if has_key(g, last.0) {
            assert(given[key_pos(g, last.0)].0 == last.0);
        }
    }
}

/// A value that was given is the value a param gets, whether the param is declared or not, and
/// whatever its default is.
pub proof fn a_given_value_wins(
    declared: Seq<(Seq<char>, ParamSpecView)>,
    given: Seq<(Seq<char>, ValueView)>,
    k: Seq<char>,
)
    requires
        unique_keys(declared),
        unique_keys(given),
        has_key(given, k),
    ensures
        lookup(resolved(declared, given), k) == lookup(given, k),
{
    params_have_their_values(declared, given, k);
}

/// A declared param that was not given gets the default of its declaration, and none when it has
/// none; what is neither declared nor given gets no value.
pub proof fn a_default_fills_in(
    declared: Seq<(Seq<char>, ParamSpecView)>,
    given: Seq<(Seq<char>, ValueView)>,
    k: Seq<char>,
)
    requires
        unique_keys(declared),
        unique_keys(given),
        !has_key(given, k),
    ensures
        lookup(resolved(declared, given), k) == (match lookup(declared, k) {
            Some(spec) => spec.default,
            None => None,
        }),
{
    params_have_their_values(declared, given, k);
}

/// Params are refused exactly when a required one has neither a given value nor a default, or when
/// a value that one would get is not of its declared type.
pub proof fn params_are_refused_for_cause(
    declared: Seq<(Seq<char>, ParamSpecView)>,
    given: Seq<(Seq<char>, ValueView)>,
)
    requires
        unique_keys(given),
    ensures
        (first_problem(declared, given, 0) is Some) == exists|i: int|
            0 <= i < declared.len() && ({
                let spec = (#[trigger] declared[i]).1;
                let v = if has_key(given, declared[i].0) {
                    lookup(given, declared[i].0)
                } else {
                    spec.default
                };
                match v {
                    Some(x) => !type_matches(spec.ty, x),
                    None => spec.required,
                }
            }),
{
    if first_problem(declared, given, 0) is Some {
        lemma_some_problem(declared, given, 0);
        let i = choose|i: int|
            0 <= i < declared.len() && param_problem(
                (#[trigger] declared[i]).0,
                declared[i].1,
                given,
            ) is Some;
        assert(declared[i].1 == declared[i].1);
    } else {
        assert forall|i: int| 0 <= i < declared.len() implies param_problem(
            (#[trigger] declared[i]).0,
            declared[i].1,
            given,
        ) is None by {
            lemma_no_problem(declared, given, 0, i);
        }
    }
}

proof fn lemma_some_problem(
    declared: Seq<(Seq<char>, ParamSpecView)>,
    given: Seq<(Seq<char>, ValueView)>,
    from: int,
)
    requires
        first_problem(declared, given, from) is Some,
    ensures
        exists|i: int|
            0 <= i < declared.len() && param_problem(
                (#[trigger] declared[i]).0,
                declared[i].1,
                given,
            ) is Some,
    decreases declared.len() - from,
{
    if 0 <= from < declared.len() {
        if param_problem(declared[from].0, declared[from].1, given) is None {
            lemma_some_problem(declared, given, from + 1);
        }
    }
}

/// Every param a run gets has the given value, or for a declared param that was not given its
/// default; what was given beyond the declarations is passed on.
pub proof fn params_have_their_values(
    declared: Seq<(Seq<char>, ParamSpecView)>,
    given: Seq<(Seq<char>, ValueView)>,
    k: Seq<char>,
)
    requires
        unique_keys(declared),
        unique_keys(given),
    ensures
        lookup(resolved(declared, given), k) == (if has_key(declared, k) {
            param_value(k, lookup(declared, k)->0, given)
        } else {
            lookup(given, k)
        }),
{
    lemma_declared_values(declared, given, k);
    lemma_with_extras(declared_values(declared, given), given, k);
}

proof fn lemma_no_problem(
    declared: Seq<(Seq<char>, ParamSpecView)>,
    given: Seq<(Seq<char>, ValueView)>,
    from: int,
    i: int,
)
    requires
        first_problem(declared, given, from) is None,
        0 <= from <= i < declared.len(),
    ensures
        param_problem(declared[i].0, declared[i].1, given) is None,
    decreases i - from,
{
    if from < i {
        lemma_no_problem(declared, given, from + 1, i);
    }
}

/// In accepted params every declared param that has a value has one of its type, and every
/// required one has a value.
pub proof fn accepted_params_are_typed(
    declared: Seq<(Seq<char>, ParamSpecView)>,
    given: Seq<(Seq<char>, ValueView)>,
    i: int,
)
    requires
        unique_keys(declared),
        unique_keys(given),
        first_problem(declared, given, 0) is None,
        0 <= i < declared.len(),
    ensures
        lookup(resolved(declared, given), declared[i].0) matches Some(v) ==> type_matches(
            declared[i].1.ty,
            v,
        ),
        declared[i].1.required ==> lookup(resolved(declared, given), declared[i].0) is Some,
{
    lemma_no_problem(declared, given, 0, i);
    params_have_their_values(declared, given, declared[i].0);
    assert(has_key(declared, declared[i].0));
    assert(key_pos(declared, declared[i].0) == i);
}

} // verus!
