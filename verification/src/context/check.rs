//! The reference check of a whole workflow: which templated strings there are, in which scope
//! each stands, and the params that none of them uses.

use super::refs::{
    analyze, analyzes, collect_templates, process_templates, scan_templates, step_ptr,
    every_finding_is_reported, template_source, templates_of, tpl, var_findings, Analysis,
    AnalysisView, Scan, ScanView, Scope, ScopeView, Templated, TemplatedView, scan_template, scan_vars, scan_roots, source_of,
    trigger_in_shell,
};
use super::scan::subscripted;
use super::shape::{add_ids, ids_of, keys_of, lemma_with_names, with_names, ContextShape};
use crate::ir::step::{LoopStep, Step, StepKind};
use crate::ir::workflow::Workflow;
use crate::names::{lookup, views, NameSet, OrderedMap, Replicate};
use crate::text::{
    concat2, concat3, concat4, debug_quoted, decimal, decimal_of, quote_debug, split_on,
};
use crate::validate::diagnostic::{plain, DiagCode, DiagView, Diagnostic};
use crate::validate::graph::{ancestors_of, upstream};
use vstd::prelude::*;

verus! {

/// Templated strings that share a scope.
#[derive(Debug)]
pub struct Unit {
    pub templates: Vec<Templated>,
    pub scope: Scope,
}

/// The mathematical form of a [`Unit`].
#[verifier::ext_equal]
pub struct UnitView {
    pub templates: Seq<TemplatedView>,
    pub scope: ScopeView,
}

impl View for Unit {
    type V = UnitView;

    open spec fn view(&self) -> UnitView {
        UnitView { templates: views(self.templates@), scope: self.scope@ }
    }
}

/// The pointer of a top-level step.
pub open spec fn pointer_of(i: int) -> Seq<char> {
    "steps["@ + decimal(i as nat) + "]"@
}

/// The artifacts a step requires.
pub open spec fn needs_of(s: Step) -> Set<Seq<char>> {
    views(s.artifacts.requires_@).to_set()
}

/// The ids recorded as upstream of a step.
pub open spec fn recorded_upstream(
    anc: Seq<(Seq<char>, Seq<Seq<char>>)>,
    id: Seq<char>,
) -> Set<Seq<char>> {
    match lookup(anc, id) {
        Some(s) => s.to_set(),
        None => Set::empty(),
    }
}

/// A step's templated strings in their scope.
pub open spec fn unit_of(
    ptr: Seq<char>,
    s: Step,
    params: Seq<Seq<char>>,
    steps: Seq<Seq<char>>,
    visible: Set<Seq<char>>,
) -> UnitView {
    UnitView {
        templates: templates_of(ptr, s),
        scope: ScopeView { params, steps, artifacts: needs_of(s), visible },
    }
}

/// The pointer of a step inside a loop.
pub open spec fn inner_pointer(i: int, j: int) -> Seq<char> {
    pointer_of(i) + ".loop.steps["@ + decimal(j as nat) + "]"@
}

/// A step of a loop body: it sees what ran before the loop and what it depends on in the body.
pub open spec fn inner_unit(
    i: int,
    j: int,
    l: LoopStep,
    params: Seq<Seq<char>>,
    steps: Seq<Seq<char>>,
    outer: Set<Seq<char>>,
) -> UnitView {
    unit_of(
        inner_pointer(i, j),
        l.steps@[j],
        params,
        with_names(steps, ids_of(l.steps@)),
        outer.union(Set::new(|x: Seq<char>| upstream(l.steps@, l.steps@[j].id@, x))),
    )
}

/// A loop's guard, which runs after the whole body and sees all of it.
pub open spec fn until_unit(
    i: int,
    l: LoopStep,
    params: Seq<Seq<char>>,
    steps: Seq<Seq<char>>,
    outer: Set<Seq<char>>,
) -> UnitView {
    UnitView {
        templates: seq![tpl(l.until@, pointer_of(i) + ".loop.until"@, true, false)],
        scope: ScopeView {
            params,
            steps: with_names(steps, ids_of(l.steps@)),
            artifacts: Set::empty(),
            visible: outer.union(ids_of(l.steps@).to_set()),
        },
    }
}

/// The units of a loop: one for each inner step, then the guard.
pub open spec fn loop_units(
    i: int,
    l: LoopStep,
    params: Seq<Seq<char>>,
    steps: Seq<Seq<char>>,
    outer: Set<Seq<char>>,
) -> Seq<UnitView> {
    Seq::new(
        l.steps@.len(),
        |j: int| inner_unit(i, j, l, params, steps, outer),
    ).push(until_unit(i, l, params, steps, outer))
}

/// The units of a top-level step.
pub open spec fn step_units(
    i: int,
    s: Step,
    params: Seq<Seq<char>>,
    steps: Seq<Seq<char>>,
    anc: Seq<(Seq<char>, Seq<Seq<char>>)>,
) -> Seq<UnitView> {
    let outer = recorded_upstream(anc, s.id@);
    seq![unit_of(pointer_of(i), s, params, steps, outer)] + (match s.kind {
        StepKind::Loop(l) => loop_units(i, l, params, steps, outer),
        _ => Seq::empty(),
    })
}

/// The units of steps, in order.
pub open spec fn units_of(
    all: Seq<Step>,
    params: Seq<Seq<char>>,
    steps: Seq<Seq<char>>,
    anc: Seq<(Seq<char>, Seq<Seq<char>>)>,
) -> Seq<UnitView>
    decreases all.len(),
{
    if all.len() == 0 {
        Seq::empty()
    } else {
        units_of(all.drop_last(), params, steps, anc) + step_units(
            all.len() - 1,
            all.last(),
            params,
            steps,
            anc,
        )
    }
}

/// The units of a workflow.
pub open spec fn workflow_units(wf: Workflow, anc: Seq<(Seq<char>, Seq<Seq<char>>)>) -> Seq<
    UnitView,
> {
    units_of(
        wf.steps@,
        with_names(Seq::empty(), keys_of(wf.params@)),
        with_names(Seq::empty(), ids_of(wf.steps@)),
        anc,
    )
}

/// Adds names to a set of names.
fn extend(out: &mut NameSet, more: &NameSet)
    ensures
        final(out)@ == with_names(old(out)@, more@),
{
    let n = more.len();
    let ghost start = out@;
    let mut i: usize = 0;
    while i < n
        invariant
            i <= n,
            n == more@.len(),
            out@ == with_names(start, more@.take(i as int)),
        decreases n - i,
    {
        assert(more@.take(i + 1).drop_last() =~= more@.take(i as int));
        let k = more.at(i).clone();
        let _ = out.insert(k);
        i += 1;
    }
    assert(more@.take(n as int) =~= more@);
}

/// A step's required artifacts as a set.
pub fn require_set(s: &Step) -> (r: NameSet)
    ensures
        r@.to_set() == needs_of(*s),
{
    let mut out = NameSet::new();
    let need = &s.artifacts.requires_;
    let mut i: usize = 0;
    while i < need.len()
        invariant
            i <= need.len(),
            *need == s.artifacts.requires_,
            out@ == with_names(Seq::empty(), views(need@).take(i as int)),
        decreases need.len() - i,
    {
        assert(views(need@).take(i + 1).drop_last() =~= views(need@).take(i as int));
        let k = need[i].to_string();
        let _ = out.insert(k);
        i += 1;
    }
    assert(views(need@).take(i as int) =~= views(need@));
    proof {
        assert forall|x: Seq<char>| #[trigger] out@.contains(x) == views(need@).contains(x) by {
            lemma_with_names(Seq::empty(), views(need@), x);
        }
        assert(out@.to_set() =~= needs_of(*s));
    }
    out
}

fn make_unit(
    ptr: &str,
    s: &Step,
    params: &NameSet,
    steps: &NameSet,
    visible: NameSet,
) -> (r: Unit)
    ensures
        r@ == unit_of(ptr@, *s, params@, steps@, visible@.to_set()),
{
    let templates = collect_templates(ptr, s);
    let artifacts = require_set(s);
    Unit {
        templates,
        scope: Scope {
            params: params.replicate(),
            steps: steps.replicate(),
            artifacts,
            visible,
        },
    }
}

/// The units of a loop body, checked against a scope of their own: the inner ids are known there,
/// an inner step sees what ran before the loop and its own upstream steps, and the guard sees
/// every inner step.
pub fn check_loop_body(
    i: usize,
    l: &LoopStep,
    params: &NameSet,
    steps: &NameSet,
    outer: &NameSet,
) -> (r: Vec<Unit>)
    ensures
        views(r@) == loop_units(i as int, *l, params@, steps@, outer@.to_set()),
{
    let mut scoped = steps.replicate();
    add_ids(&mut scoped, &l.steps);
    let top = step_ptr(i);
    let mut out: Vec<Unit> = Vec::new();
    let ghost want = Seq::new(
        l.steps@.len(),
        |j: int| inner_unit(i as int, j, *l, params@, steps@, outer@.to_set()),
    );
    assert(views(out@) =~= want.take(0));
    let mut j: usize = 0;
    while j < l.steps.len()
        invariant
            j <= l.steps.len(),
            top@ == pointer_of(i as int),
            scoped@ == with_names(steps@, ids_of(l.steps@)),
            want == Seq::new(
                l.steps@.len(),
                |j: int| inner_unit(i as int, j, *l, params@, steps@, outer@.to_set()),
            ),
            views(out@) == want.take(j as int),
        decreases l.steps.len() - j,
    {
        let inner = &l.steps[j];
        let own = ancestors_of(&l.steps, inner.id.as_str());
        let mut visible = outer.replicate();
        extend(&mut visible, &own);
        proof {
            let both = outer@.to_set().union(
                Set::new(|x: Seq<char>| upstream(l.steps@, l.steps@[j as int].id@, x)),
            );
            assert forall|x: Seq<char>| #[trigger] visible@.to_set().contains(x)
                == both.contains(x) by {
                lemma_with_names(outer@, own@, x);
                assert(own@.contains(x) == upstream(l.steps@, inner.id@, x));
            }
            assert(visible@.to_set() =~= both);
        }
        let n = decimal_of(j as u128);
        let ptr = concat4(&top, ".loop.steps[", &n, "]");
        let unit = make_unit(&ptr, inner, params, &scoped, visible);
        let ghost before = out@;
        out.push(unit);
        assert(unit@ == want[j as int]);
        assert(views(out@) =~= views(before).push(unit@));
        assert(want.take(j as int).push(want[j as int]) =~= want.take(j + 1));
        j += 1;
    }
    assert(want.take(j as int) =~= want);
    let mut visible = outer.replicate();
    add_ids(&mut visible, &l.steps);
    proof {
        let both = outer@.to_set().union(ids_of(l.steps@).to_set());
        assert forall|x: Seq<char>| #[trigger] visible@.to_set().contains(x) == both.contains(
            x,
        ) by {
            lemma_with_names(outer@, ids_of(l.steps@), x);
        }
        assert(visible@.to_set() =~= both);
    }
    let pointer = concat2(&top, ".loop.until");
    let mut templates: Vec<Templated> = Vec::new();
    templates.push(Templated { text: l.until.clone(), pointer, is_expr: true, shell: false });
    let artifacts = NameSet::new();
    assert(artifacts@.to_set() =~= Set::<Seq<char>>::empty());
    let unit = Unit {
        templates,
        scope: Scope { params: params.replicate(), steps: scoped, artifacts, visible },
    };
    assert(unit@ =~= until_unit(i as int, *l, params@, steps@, outer@.to_set())) by {
        assert(views(templates@) =~= seq![
            tpl(l.until@, pointer_of(i as int) + ".loop.until"@, true, false),
        ]);
    }
    let ghost before = out@;
    out.push(unit);
    assert(views(out@) =~= views(before).push(unit@));
    out
}

/// The templated strings of a workflow, each batch in its scope.
pub fn template_units(wf: &Workflow, ancestors: &OrderedMap<NameSet>) -> (r: Vec<Unit>)
    ensures
        views(r@) == workflow_units(*wf, ancestors@),
{
    let shape = ContextShape::of(wf);
    let mut out: Vec<Unit> = Vec::new();
    let mut i: usize = 0;
    assert(views(out@) =~= Seq::<UnitView>::empty());
    while i < wf.steps.len()
        invariant
            i <= wf.steps.len(),
            shape.params@ == with_names(Seq::empty(), keys_of(wf.params@)),
            shape.steps@ == with_names(Seq::empty(), ids_of(wf.steps@)),
            views(out@) == units_of(
                wf.steps@.take(i as int),
                shape.params@,
                shape.steps@,
                ancestors@,
            ),
        decreases wf.steps.len() - i,
    {
        assert(wf.steps@.take(i + 1).drop_last() =~= wf.steps@.take(i as int));
        let s = &wf.steps[i];
        let outer = match ancestors.get(s.id.as_str()) {
            Some(a) => a.replicate(),
            None => NameSet::new(),
        };
        let ghost seen = recorded_upstream(ancestors@, s.id@);
        assert(outer@.to_set() =~= seen);
        let ghost before = views(out@);
        let ptr = step_ptr(i);
        let unit = make_unit(&ptr, s, &shape.params, &shape.steps, outer.replicate());
        let ghost first = unit@;
        let ghost was = out@;
        out.push(unit);
        assert(views(out@) =~= views(was).push(first));
        if let StepKind::Loop(l) = &s.kind {
            let mut more = check_loop_body(i, l, &shape.params, &shape.steps, &outer);
            let ghost inner = views(more@);
            let ghost was = out@;
            let ghost added = more@;
            out.append(&mut more);
            assert(views(out@) =~= views(was) + inner);
            assert(views(out@) =~= before + step_units(
                i as int,
                *s,
                shape.params@,
                shape.steps@,
                ancestors@,
            ));
        } else {
            assert(views(out@) =~= before + step_units(
                i as int,
                *s,
                shape.params@,
                shape.steps@,
                ancestors@,
            ));
        }
        i += 1;
    }
    assert(wf.steps@.take(i as int) =~= wf.steps@);
    out
}

// ---------------------------------------------------------------------------------------------
// The findings
// ---------------------------------------------------------------------------------------------
/// The mathematical form of analyses by unit.
pub open spec fn grids(g: Seq<Vec<Analysis>>) -> Seq<Seq<AnalysisView>> {
    Seq::new(g.len(), |i: int| views(g[i]@))
}

/// Whether `g` has one outcome of compilation for each templated string of the units.
pub open spec fn fits(us: Seq<UnitView>, g: Seq<Seq<AnalysisView>>) -> bool {
    &&& us.len() == g.len()
    &&& forall|u: int| 0 <= u < us.len() ==> (#[trigger] us[u]).templates.len() == g[u].len()
    &&& forall|u: int, t: int|
        0 <= u < us.len() && 0 <= t < us[u].templates.len() ==> analyzes(
            source_of(#[trigger] us[u].templates[t]),
            g[u][t],
        )
}

/// Whether `g` has the shape of the units.
pub open spec fn same_shape(us: Seq<UnitView>, g: Seq<Seq<AnalysisView>>) -> bool {
    us.len() == g.len() && forall|u: int|
        0 <= u < us.len() ==> (#[trigger] us[u]).templates.len() == g[u].len()
}

/// A scan after units.
pub open spec fn scan_units(
    st: ScanView,
    us: Seq<UnitView>,
    g: Seq<Seq<AnalysisView>>,
) -> ScanView
    decreases us.len(),
{
    if us.len() == 0 {
        st
    } else {
        scan_templates(
            scan_units(st, us.drop_last(), g.drop_last()),
            us.last().templates,
            g.last(),
            us.last().scope,
        )
    }
}

/// The finding about a param nothing references.
pub open spec fn unused_finding(name: Seq<char>) -> DiagView {
    plain(
        DiagCode::UnusedParam,
        "params."@ + name,
        "param "@ + debug_quoted(name) + " is declared but never referenced"@,
    )
}

/// The findings about the declared params that nothing references.
pub open spec fn unused_findings(declared: Seq<Seq<char>>, used: Seq<Seq<char>>) -> Seq<DiagView>
    decreases declared.len(),
{
    if declared.len() == 0 {
        Seq::empty()
    } else {
        let before = unused_findings(declared.drop_last(), used);
        if used.contains(declared.last()) {
            before
        } else {
            before.push(unused_finding(declared.last()))
        }
    }
}

/// A scan that has seen nothing.
pub open spec fn nothing_seen() -> ScanView {
    ScanView { used: Seq::empty(), dynamic: false, found: Seq::empty() }
}

/// Everything the check finds, given what compiling each templated string showed: the findings
/// of the scan, and the unused params unless a subscript could use any of them.
pub open spec fn findings(
    us: Seq<UnitView>,
    g: Seq<Seq<AnalysisView>>,
    declared: Seq<Seq<char>>,
) -> Seq<DiagView> {
    let st = scan_units(nothing_seen(), us, g);
    st.found + (if st.dynamic {
        Seq::empty()
    } else {
        unused_findings(declared, st.used)
    })
}

/// Compiles every templated string of the units.
pub fn analyze_units(units: &Vec<Unit>) -> (r: Vec<Vec<Analysis>>)
    ensures
        fits(views(units@), grids(r@)),
{
    let mut out: Vec<Vec<Analysis>> = Vec::new();
    let mut u: usize = 0;
    while u < units.len()
        invariant
            u <= units.len(),
            out@.len() == u,
            forall|k: int| 0 <= k < u ==> (#[trigger] units@[k]).templates@.len() == out@[k]@.len(),
            forall|k: int, t: int|
                0 <= k < u && 0 <= t < units@[k].templates@.len() ==> analyzes(
                    source_of((#[trigger] units@[k].templates@[t])@),
                    out@[k]@[t]@,
                ),
        decreases units.len() - u,
    {
        let ts = &units[u].templates;
        let mut row: Vec<Analysis> = Vec::new();
        let mut t: usize = 0;
        while t < ts.len()
            invariant
                t <= ts.len(),
                row@.len() == t,
                forall|k: int|
                    0 <= k < t ==> analyzes(source_of((#[trigger] ts@[k])@), row@[k]@),
            decreases ts.len() - t,
        {
            let source = template_source(&ts[t]);
            row.push(analyze(&source));
            t += 1;
        }
        let ghost before = out@;
        out.push(row);
        proof {
            assert forall|k: int, t: int|
                0 <= k < u + 1 && 0 <= t < units@[k].templates@.len() implies analyzes(
                source_of((#[trigger] units@[k].templates@[t])@),
                out@[k]@[t]@,
            ) by {
                if k < u {
                    assert(out@[k] == before[k]);
                } else {
                    assert(units@[k].templates@[t] == ts@[t]);
                }
            }
        }
        u += 1;
    }
    proof {
        let us = views(units@);
        let g = grids(out@);
        assert forall|u: int| 0 <= u < us.len() implies (#[trigger] us[u]).templates.len()
            == g[u].len() by {
            assert(us[u].templates == views(units@[u].templates@));
            assert(units@[u].templates@.len() == out@[u]@.len());
        }
        assert forall|u: int, t: int|
            0 <= u < us.len() && 0 <= t < us[u].templates.len() implies analyzes(
            source_of(#[trigger] us[u].templates[t]),
            g[u][t],
        ) by {
            assert(us[u].templates[t] == units@[u].templates@[t]@);
            assert(units@[u].templates@.len() == out@[u]@.len());
            assert(g[u][t] == out@[u]@[t]@);
        }
    }
    out
}

/// Everything the check finds in a workflow, given what compiling each templated string showed.
pub fn report_units(
    wf: &Workflow,
    units: &Vec<Unit>,
    analyses: &Vec<Vec<Analysis>>,
) -> (r: Vec<Diagnostic>)
    requires
        same_shape(views(units@), grids(analyses@)),
    ensures
        views(r@) == findings(views(units@), grids(analyses@), keys_of(wf.params@)),
{
    let mut scan = Scan {
        used_params: NameSet::new(),
        params_subscripted: false,
        found: Vec::new(),
    };
    let ghost us = views(units@);
    let ghost g = grids(analyses@);
    assert(scan@ =~= nothing_seen());
    let mut u: usize = 0;
    while u < units.len()
        invariant
            u <= units.len(),
            us == views(units@),
            g == grids(analyses@),
            same_shape(us, g),
            scan@ == scan_units(nothing_seen(), us.take(u as int), g.take(u as int)),
        decreases units.len() - u,
    {
        assert(us.take(u + 1).drop_last() =~= us.take(u as int));
        assert(g.take(u + 1).drop_last() =~= g.take(u as int));
        assert(us[u as int].templates.len() == g[u as int].len());
        process_templates(&mut scan, &units[u].templates, &analyses[u], &units[u].scope);
        u += 1;
    }
    assert(us.take(u as int) =~= us);
    assert(g.take(u as int) =~= g);
    let mut out = scan.found;
    let ghost found = views(out@);
    if scan.params_subscripted {
        assert(found + Seq::<DiagView>::empty() =~= found);
        return out;
    }
    let n = wf.params.len();
    let ghost declared = keys_of(wf.params@);
    let ghost used = scan.used_params@;
    let mut i: usize = 0;
    assert(found + unused_findings(declared.take(0), used) =~= found);
    while i < n
        invariant
            i <= n,
            n == wf.params@.len(),
            declared == keys_of(wf.params@),
            used == scan.used_params@,
            views(out@) == found + unused_findings(declared.take(i as int), used),
        decreases n - i,
    {
        assert(declared.take(i + 1).drop_last() =~= declared.take(i as int));
        let name = wf.params.key_at(i);
        if !scan.used_params.contains(name) {
            let pointer = concat2("params.", name);
            let q = quote_debug(name);
            let m = concat3("param ", &q, " is declared but never referenced");
            let ghost was = out@;
            let d = Diagnostic::new(DiagCode::UnusedParam, pointer, m);
            out.push(d);
            assert(views(out@) =~= views(was).push(d@));
            assert(views(out@) =~= found + unused_findings(declared.take(i + 1), used));
        }
        i += 1;
    }
    assert(declared.take(n as int) =~= declared);
    out
}

/// Checks every template reference of a workflow and adds what it finds. `ancestors` holds each
/// step's upstream ids. Within one templated string the findings about its variable paths come in
/// no particular order.
pub fn check(wf: &Workflow, ancestors: &OrderedMap<NameSet>, d: &mut Vec<Diagnostic>)
    ensures
        exists|g: Seq<Seq<AnalysisView>>|
            fits(workflow_units(*wf, ancestors@), g) && #[trigger] findings(
                workflow_units(*wf, ancestors@),
                g,
                keys_of(wf.params@),
            ) == views(final(d)@).skip(old(d)@.len() as int) && views(final(d)@).take(
                old(d)@.len() as int,
            ) == views(old(d)@),
{
    let units = template_units(wf, ancestors);
    let analyses = analyze_units(&units);
    let mut more = report_units(wf, &units, &analyses);
    let ghost was = d@;
    let ghost found = views(more@);
    d.append(&mut more);
    proof {
        assert(views(d@) =~= views(was) + found);
        assert(views(d@).skip(was.len() as int) =~= found);
        assert(views(d@).take(was.len() as int) =~= views(was));
        let g = grids(analyses@);
        assert(findings(workflow_units(*wf, ancestors@), g, keys_of(wf.params@)) == found);
    }
}

// ---------------------------------------------------------------------------------------------
// Laws
// ---------------------------------------------------------------------------------------------
/// The captured diff can be referenced from any step, whatever it requires.
pub proof fn diff_is_always_referenceable(
    var: Seq<char>,
    sc: ScopeView,
    pointer: Seq<char>,
    shell: bool,
)
    requires
        split_on(var, '.').len() > 1,
        split_on(var, '.')[0] == "artifacts"@,
        split_on(var, '.')[1] == "DIFF"@,
    ensures
        var_findings(var, sc, pointer, shell) == Seq::<DiagView>::empty(),
{
    reveal_strlit("artifacts");
    reveal_strlit("params");
    reveal_strlit("steps");
    reveal_strlit("trigger");
    assert("artifacts"@.len() == 9);
    assert("params"@.len() == 6);
    assert("steps"@.len() == 5);
    assert("trigger"@.len() == 7);
    assert(var_findings(var, sc, pointer, shell) =~= Seq::<DiagView>::empty());
}

/// A trigger reference is never unknown: in a shell command it is a warning about trust, and
/// anywhere else it is nothing.
pub proof fn trigger_is_never_unknown(
    var: Seq<char>,
    sc: ScopeView,
    pointer: Seq<char>,
    shell: bool,
)
    requires
        split_on(var, '.')[0] == "trigger"@,
    ensures
        var_findings(var, sc, pointer, shell) == (if shell {
            seq![trigger_in_shell(pointer)]
        } else {
            Seq::<DiagView>::empty()
        }),
{
    reveal_strlit("artifacts");
    reveal_strlit("params");
    reveal_strlit("steps");
    reveal_strlit("trigger");
    assert("artifacts"@.len() == 9);
    assert("params"@.len() == 6);
    assert("steps"@.len() == 5);
    assert("trigger"@.len() == 7);
    assert(var_findings(var, sc, pointer, shell) =~= (if shell {
        seq![trigger_in_shell(pointer)]
    } else {
        Seq::<DiagView>::empty()
    }));
}

/// A param that some dotted path names is not reported as unused.
pub proof fn used_params_are_not_reported(
    declared: Seq<Seq<char>>,
    used: Seq<Seq<char>>,
    name: Seq<char>,
)
    requires
        used.contains(name),
    ensures
        !unused_findings(declared, used).contains(unused_finding(name)),
    decreases declared.len(),
{
    if declared.len() > 0 {
        let before = declared.drop_last();
        used_params_are_not_reported(before, used, name);
        let last = declared.last();
        if !used.contains(last) {
            let p = "params."@;
            if p + last == p + name {
                assert((p + last).skip(p.len() as int) =~= last);
                assert((p + name).skip(p.len() as int) =~= name);
            }
            let all = unused_findings(declared, used);
            if all.contains(unused_finding(name)) {
                let k = choose|k: int| 0 <= k < all.len() && all[k] == unused_finding(name);
                assert(unused_findings(before, used)[k] == unused_finding(name));
            }
        }
    }
}

/// A declared param that no dotted path names is reported as unused.
pub proof fn unused_params_are_reported(
    declared: Seq<Seq<char>>,
    used: Seq<Seq<char>>,
    name: Seq<char>,
)
    requires
        declared.contains(name),
        !used.contains(name),
    ensures
        unused_findings(declared, used).contains(unused_finding(name)),
    decreases declared.len(),
{
    let before = declared.drop_last();
    let all = unused_findings(declared, used);
    if declared.last() == name {
        assert(all.last() == unused_finding(name));
    } else {
        let k = choose|k: int| 0 <= k < declared.len() && declared[k] == name;
        assert(before[k] == name);
        unused_params_are_reported(before, used, name);
        let rest = unused_findings(before, used);
        let i = choose|i: int| 0 <= i < rest.len() && rest[i] == unused_finding(name);
        assert(all[i] == unused_finding(name));
    }
}

/// Once `params` is subscripted, no param is reported as unused: the findings are those of the
/// templated strings alone.
pub proof fn a_subscript_may_use_any_param(
    us: Seq<UnitView>,
    g: Seq<Seq<AnalysisView>>,
    declared: Seq<Seq<char>>,
)
    requires
        scan_units(nothing_seen(), us, g).dynamic,
    ensures
        findings(us, g, declared) == scan_units(nothing_seen(), us, g).found,
{
    assert(findings(us, g, declared) =~= scan_units(nothing_seen(), us, g).found);
}

proof fn lemma_roots_dynamic(st: ScanView, roots: Seq<Seq<char>>, pointer: Seq<char>)
    ensures
        scan_roots(st, roots, pointer).dynamic == (st.dynamic || roots.contains("params"@)),
    decreases roots.len(),
{
    if roots.len() > 0 {
        let before = roots.drop_last();
        lemma_roots_dynamic(st, before, pointer);
        if before.contains("params"@) {
            let k = choose|k: int| 0 <= k < before.len() && before[k] == "params"@;
            assert(roots[k] == "params"@);
        }
        if roots.contains("params"@) && roots.last() != "params"@ {
            let k = choose|k: int| 0 <= k < roots.len() && roots[k] == "params"@;
            assert(before[k] == "params"@);
        }
        if roots.last() == "params"@ {
            assert(roots[roots.len() - 1] == "params"@);
        }
    }
}

proof fn lemma_vars_dynamic(
    st: ScanView,
    vars: Seq<Seq<char>>,
    sc: ScopeView,
    pointer: Seq<char>,
    shell: bool,
)
    ensures
        scan_vars(st, vars, sc, pointer, shell).dynamic == st.dynamic,
    decreases vars.len(),
{
    if vars.len() > 0 {
        lemma_vars_dynamic(st, vars.drop_last(), sc, pointer, shell);
    }
}

/// A scan turns dynamic exactly on a templated string that subscripts `params`.
pub proof fn scan_turns_dynamic_on_a_params_subscript(
    st: ScanView,
    t: TemplatedView,
    a: AnalysisView,
    sc: ScopeView,
)
    ensures
        scan_template(st, t, a, sc).dynamic == (st.dynamic || subscripted(source_of(t)).contains(
            "params"@,
        )),
{
    if let AnalysisView::Vars(vars) = a {
        lemma_vars_dynamic(st, vars, sc, t.pointer, t.shell);
    }
    let analyzed = match a {
        AnalysisView::Syntax(e) => ScanView {
            found: st.found.push(
                plain(DiagCode::TemplateSyntax, t.pointer, "template syntax error: "@ + e),
            ),
            ..st
        },
        AnalysisView::Vars(vars) => scan_vars(st, vars, sc, t.pointer, t.shell),
    };
    lemma_roots_dynamic(analyzed, subscripted(source_of(t)), t.pointer);
}

proof fn lemma_scan_templates_keeps(
    st: ScanView,
    ts: Seq<TemplatedView>,
    asx: Seq<AnalysisView>,
    sc: ScopeView,
    d: DiagView,
)
    requires
        ts.len() == asx.len(),
        st.found.contains(d),
    ensures
        scan_templates(st, ts, asx, sc).found.contains(d),
    decreases ts.len(),
{
    if ts.len() > 0 {
        lemma_scan_templates_keeps(st, ts.drop_last(), asx.drop_last(), sc, d);
        every_finding_is_reported(
            scan_templates(st, ts.drop_last(), asx.drop_last(), sc),
            ts.last(),
            asx.last(),
            sc,
            0,
            d,
        );
    }
}

/// Whatever is wrong with a template is found, wherever it stands among the others of its scope.
proof fn lemma_scan_templates_finds(
    st: ScanView,
    ts: Seq<TemplatedView>,
    asx: Seq<AnalysisView>,
    sc: ScopeView,
    t: int,
    v: int,
    d: DiagView,
)
    requires
        ts.len() == asx.len(),
        0 <= t < ts.len(),
        is_wrong(ts[t], asx[t], sc, v, d),
    ensures
        scan_templates(st, ts, asx, sc).found.contains(d),
    decreases ts.len(),
{
    let before = scan_templates(st, ts.drop_last(), asx.drop_last(), sc);
    if t < ts.len() - 1 {
        assert(ts.drop_last()[t] == ts[t] && asx.drop_last()[t] == asx[t]);
        lemma_scan_templates_finds(st, ts.drop_last(), asx.drop_last(), sc, t, v, d);
        every_finding_is_reported(before, ts.last(), asx.last(), sc, 0, d);
    } else {
        every_finding_is_reported(before, ts.last(), asx.last(), sc, v, d);
    }
}

/// Whether a finding is about a template: its syntax error, or what is wrong with one of its
/// variables.
pub open spec fn is_wrong(
    t: TemplatedView,
    a: AnalysisView,
    sc: ScopeView,
    v: int,
    d: DiagView,
) -> bool {
    match a {
        AnalysisView::Syntax(e) => d == (DiagView {
            code: DiagCode::TemplateSyntax,
            pointer: t.pointer,
            message: "template syntax error: "@ + e,
            help: None,
        }),
        AnalysisView::Vars(vars) => 0 <= v < vars.len() && var_findings(
            vars[v],
            sc,
            t.pointer,
            t.shell,
        ).contains(d),
    }
}

proof fn lemma_scan_units_finds(
    st: ScanView,
    us: Seq<UnitView>,
    g: Seq<Seq<AnalysisView>>,
    u: int,
    t: int,
    v: int,
    d: DiagView,
)
    requires
        same_shape(us, g),
        0 <= u < us.len(),
        0 <= t < us[u].templates.len(),
        is_wrong(us[u].templates[t], g[u][t], us[u].scope, v, d),
    ensures
        scan_units(st, us, g).found.contains(d),
    decreases us.len(),
{
    let ud = us.drop_last();
    let gd = g.drop_last();
    assert(same_shape(ud, gd)) by {
        assert forall|k: int| 0 <= k < ud.len() implies (#[trigger] ud[k]).templates.len()
            == gd[k].len() by {
            assert(us[k].templates.len() == g[k].len());
        }
    }
    let before = scan_units(st, ud, gd);
    assert(us[us.len() - 1].templates.len() == g[us.len() - 1].len());
    if u < us.len() - 1 {
        assert(ud[u] == us[u] && gd[u] == g[u]);
        lemma_scan_units_finds(st, ud, gd, u, t, v, d);
        lemma_scan_templates_keeps(before, us.last().templates, g.last(), us.last().scope, d);
    } else {
        lemma_scan_templates_finds(
            before,
            us.last().templates,
            g.last(),
            us.last().scope,
            t,
            v,
            d,
        );
    }
}

/// Nothing that is wrong with a template of a workflow goes unreported.
pub proof fn whatever_is_wrong_is_reported(
    us: Seq<UnitView>,
    g: Seq<Seq<AnalysisView>>,
    declared: Seq<Seq<char>>,
    u: int,
    t: int,
    v: int,
    d: DiagView,
)
    requires
        same_shape(us, g),
        0 <= u < us.len(),
        0 <= t < us[u].templates.len(),
        is_wrong(us[u].templates[t], g[u][t], us[u].scope, v, d),
    ensures
        findings(us, g, declared).contains(d),
{
    lemma_scan_units_finds(nothing_seen(), us, g, u, t, v, d);
    let found = scan_units(nothing_seen(), us, g).found;
    let k = choose|k: int| 0 <= k < found.len() && found[k] == d;
    assert(findings(us, g, declared)[k] == d);
}

proof fn lemma_units_hold(
    all: Seq<Step>,
    params: Seq<Seq<char>>,
    steps: Seq<Seq<char>>,
    anc: Seq<(Seq<char>, Seq<Seq<char>>)>,
    i: int,
    u: UnitView,
)
    requires
        0 <= i < all.len(),
        step_units(i, all[i], params, steps, anc).contains(u),
    ensures
        units_of(all, params, steps, anc).contains(u),
    decreases all.len(),
{
    let before = units_of(all.drop_last(), params, steps, anc);
    let more = step_units(all.len() - 1, all.last(), params, steps, anc);
    let out = units_of(all, params, steps, anc);
    if i < all.len() - 1 {
        assert(all.drop_last()[i] == all[i]);
        lemma_units_hold(all.drop_last(), params, steps, anc, i, u);
        let k = choose|k: int| 0 <= k < before.len() && before[k] == u;
        assert(out[k] == u);
    } else {
        let k = choose|k: int| 0 <= k < more.len() && more[k] == u;
        assert(out[before.len() + k] == u);
    }
}

/// Every step of a workflow is checked in its own scope: it sees every declared param, the steps
/// upstream of it, and the artifacts it requires. A step of a loop sees the steps of the loop that
/// are upstream of it too, and the loop's condition all of them.
pub proof fn every_step_is_checked_in_its_scope(
    wf: Workflow,
    anc: Seq<(Seq<char>, Seq<Seq<char>>)>,
    i: int,
    j: int,
    name: Seq<char>,
)
    requires
        0 <= i < wf.steps@.len(),
    ensures
        exists|u: UnitView| #[trigger]
            workflow_units(wf, anc).contains(u) && u.templates == templates_of(
                "steps["@ + decimal(i as nat) + "]"@,
                wf.steps@[i],
            ) && u.scope.params.contains(name) == crate::names::has_key(wf.params@, name)
                && u.scope.steps.contains(name) == (exists|k: int|
                0 <= k < wf.steps@.len() && (#[trigger] wf.steps@[k]).id@ == name)
                && u.scope.visible.contains(name) == (lookup(anc, wf.steps@[i].id@) matches Some(
                up,
            ) && up.contains(name)) && u.scope.artifacts.contains(name) == (exists|k: int|
                0 <= k < wf.steps@[i].artifacts.requires_@.len()
                    && (#[trigger] wf.steps@[i].artifacts.requires_@[k])@ == name),
        wf.steps@[i].kind matches StepKind::Loop(l) ==> (0 <= j < l.steps@.len() ==> exists|
            u: UnitView,
        | #[trigger]
            workflow_units(wf, anc).contains(u) && u.templates == templates_of(
                "steps["@ + decimal(i as nat) + "]"@ + ".loop.steps["@ + decimal(j as nat) + "]"@,
                l.steps@[j],
            ) && u.scope.visible.contains(name) == ((lookup(
                anc,
                wf.steps@[i].id@,
            ) matches Some(up) && up.contains(name)) || upstream(
                l.steps@,
                l.steps@[j].id@,
                name,
            ))),
        wf.steps@[i].kind matches StepKind::Loop(l) ==> exists|u: UnitView| #[trigger]
            workflow_units(wf, anc).contains(u) && u.templates.len() == 1 && u.templates[0] == (
            TemplatedView {
                text: l.until@,
                pointer: "steps["@ + decimal(i as nat) + "]"@ + ".loop.until"@,
                is_expr: true,
                shell: false,
            }) && u.scope.visible.contains(name) == ((lookup(
                anc,
                wf.steps@[i].id@,
            ) matches Some(up) && up.contains(name)) || exists|k: int|
                0 <= k < l.steps@.len() && (#[trigger] l.steps@[k]).id@ == name),
{
    let s = wf.steps@[i];
    let params = with_names(Seq::empty(), keys_of(wf.params@));
    let steps = with_names(Seq::empty(), ids_of(wf.steps@));
    let outer = recorded_upstream(anc, s.id@);
    let us = step_units(i, s, params, steps, anc);
    let own = unit_of(pointer_of(i), s, params, steps, outer);
    lemma_with_names(Seq::empty(), keys_of(wf.params@), name);
    lemma_with_names(Seq::empty(), ids_of(wf.steps@), name);
    lemma_named(ids_of(wf.steps@), name);
    lemma_named(keys_of(wf.params@), name);
    let need = views(s.artifacts.requires_@);
    lemma_named(need, name);
    assert(params.contains(name) == crate::names::has_key(wf.params@, name)) by {
        let ks = keys_of(wf.params@);
        if ks.contains(name) {
            let k = choose|k: int| 0 <= k < ks.len() && ks[k] == name;
            assert(wf.params@[k].0 == name);
        }
        if crate::names::has_key(wf.params@, name) {
            let k = choose|k: int| 0 <= k < wf.params@.len() && (#[trigger] wf.params@[k]).0 == name;
            assert(ks[k] == name);
        }
    }
    assert(steps.contains(name) == (exists|k: int|
        0 <= k < wf.steps@.len() && (#[trigger] wf.steps@[k]).id@ == name)) by {
        let ids = ids_of(wf.steps@);
        if ids.contains(name) {
            let k = choose|k: int| 0 <= k < ids.len() && ids[k] == name;
            assert(wf.steps@[k].id@ == name);
        }
        if exists|k: int| 0 <= k < wf.steps@.len() && (#[trigger] wf.steps@[k]).id@ == name {
            let k = choose|k: int|
                0 <= k < wf.steps@.len() && (#[trigger] wf.steps@[k]).id@ == name;
            assert(ids[k] == name);
        }
    }
    assert(need.contains(name) == (exists|k: int|
        0 <= k < s.artifacts.requires_@.len() && (#[trigger] s.artifacts.requires_@[k])@ == name)) by {
        if need.contains(name) {
            let k = choose|k: int| 0 <= k < need.len() && need[k] == name;
            assert(s.artifacts.requires_@[k]@ == name);
        }
        if exists|k: int|
            0 <= k < s.artifacts.requires_@.len() && (#[trigger] s.artifacts.requires_@[k])@
                == name {
            let k = choose|k: int|
                0 <= k < s.artifacts.requires_@.len() && (#[trigger] s.artifacts.requires_@[k])@
                    == name;
            assert(need[k] == name);
        }
    }
    assert(us[0] == own);
    lemma_units_hold(wf.steps@, params, steps, anc, i, own);
    assert(workflow_units(wf, anc).contains(own));
    assert(own.scope.artifacts.contains(name) == need.contains(name));
    assert(own.scope.visible.contains(name) == (lookup(anc, s.id@) matches Some(up) && up.contains(
        name,
    ))) by {
        if let Some(up) = lookup(anc, s.id@) {
            lemma_named(up, name);
        }
    }
    if let StepKind::Loop(l) = s.kind {
        let body = loop_units(i, l, params, steps, outer);
        if 0 <= j < l.steps@.len() {
            let u = inner_unit(i, j, l, params, steps, outer);
            assert(body[j] == u);
            assert(us[j + 1] == u);
            lemma_units_hold(wf.steps@, params, steps, anc, i, u);
            assert(workflow_units(wf, anc).contains(u));
        }
        let u = until_unit(i, l, params, steps, outer);
        assert(body[l.steps@.len() as int] == u);
        assert(us[l.steps@.len() as int + 1] == u);
        lemma_units_hold(wf.steps@, params, steps, anc, i, u);
        assert(workflow_units(wf, anc).contains(u));
        let ids = ids_of(l.steps@);
        lemma_named(ids, name);
        assert(ids.contains(name) == (exists|k: int|
            0 <= k < l.steps@.len() && (#[trigger] l.steps@[k]).id@ == name)) by {
            if ids.contains(name) {
                let k = choose|k: int| 0 <= k < ids.len() && ids[k] == name;
                assert(l.steps@[k].id@ == name);
            }
            if exists|k: int| 0 <= k < l.steps@.len() && (#[trigger] l.steps@[k]).id@ == name {
                let k = choose|k: int|
                    0 <= k < l.steps@.len() && (#[trigger] l.steps@[k]).id@ == name;
                assert(ids[k] == name);
            }
        }
    }
}

proof fn lemma_named(s: Seq<Seq<char>>, name: Seq<char>)
    ensures
        s.to_set().contains(name) == s.contains(name),
{
}

} // verus!
