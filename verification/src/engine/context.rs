//! The template context of a step: what the run has produced so far.

use super::feedback::{feedback_text, retry_feedback};
use super::state::{StepState, StepStateView};
use crate::api::StepStatus;
use crate::context::render::Context;
use crate::ids::{uuid_text, RunId};
use crate::ir::step::FeedbackMode;
use crate::json::{
    json_string, json_text, member, object_text, quote_json, ObjectText, Value, ValueView,
};
use crate::names::{lookup, put, OrderedMap, Replicate};
use crate::text::{decimal, decimal_of, opt_text, signed_decimal, signed_decimal_of};
use vstd::prelude::*;

verus! {

/// The name of a step status in templates and on the wire.
pub open spec fn step_status_name(s: StepStatus) -> Seq<char> {
    match s {
        StepStatus::Pending => "pending"@,
        StepStatus::Running => "running"@,
        StepStatus::AwaitingApproval => "awaiting_approval"@,
        StepStatus::Passed => "passed"@,
        StepStatus::Failed => "failed"@,
        StepStatus::Skipped => "skipped"@,
    }
}

/// The name of a step status in templates and on the wire.
pub fn step_status_str(s: StepStatus) -> (r: &'static str)
    ensures
        r@ == step_status_name(s),
{
    match s {
        StepStatus::Pending => "pending",
        StepStatus::Running => "running",
        StepStatus::AwaitingApproval => "awaiting_approval",
        StepStatus::Passed => "passed",
        StepStatus::Failed => "failed",
        StepStatus::Skipped => "skipped",
    }
}

/// The members of a JSON object with the values of a map.
pub open spec fn value_members(m: Seq<(Seq<char>, ValueView)>) -> Seq<(Seq<char>, Seq<char>)> {
    Seq::new(m.len(), |i: int| (m[i].0, json_text(m[i].1)))
}

/// A map of values as a JSON object.
pub fn object_of(m: &OrderedMap<Value>) -> (r: String)
    ensures
        r@ == object_text(value_members(m@)),
{
    let n = m.len();
    let mut o = ObjectText::new();
    let mut i: usize = 0;
    assert(o@ =~= value_members(m@).take(0));
    while i < n
        invariant
            i <= n,
            n == m@.len(),
            o@ == value_members(m@).take(i as int),
        decreases n - i,
    {
        let v = m.value_at(i).to_json();
        o = o.with(m.key_at(i), &v);
        assert(value_members(m@).take(i as int).push(value_members(m@)[i as int])
            =~= value_members(m@).take(i + 1));
        i += 1;
    }
    assert(value_members(m@).take(n as int) =~= value_members(m@));
    o.text()
}

/// An optional exit code in JSON.
pub open spec fn exit_code_json(c: Option<i32>) -> Seq<char> {
    match c {
        Some(n) => signed_decimal(n as int),
        None => "null"@,
    }
}

/// What `steps.<id>` holds: the outputs, the exit code and the status.
pub open spec fn step_members(st: StepStateView) -> Seq<(Seq<char>, Seq<char>)> {
    Seq::empty().push(("outputs"@, object_text(value_members(st.outputs)))).push(
        ("exit_code"@, exit_code_json(st.exit_code)),
    ).push(("status"@, json_string(step_status_name(st.status))))
}

fn step_object(st: &StepState) -> (r: String)
    ensures
        r@ == object_text(step_members(st@)),
{
    let outputs = object_of(&st.outputs);
    let code = match st.exit_code {
        Some(n) => signed_decimal_of(n as i64),
        None => "null".to_owned(),
    };
    let status = quote_json(step_status_str(st.status));
    ObjectText::new().with("outputs", &outputs).with("exit_code", &code).with(
        "status",
        &status,
    ).text()
}

/// The members of the root `steps`.
pub open spec fn steps_members(steps: Seq<(Seq<char>, StepStateView)>) -> Seq<
    (Seq<char>, Seq<char>),
> {
    Seq::new(steps.len(), |i: int| (steps[i].0, object_text(step_members(steps[i].1))))
}

/// The steps so far as a JSON object.
pub fn steps_object(steps: &OrderedMap<StepState>) -> (r: String)
    ensures
        r@ == object_text(steps_members(steps@)),
{
    let n = steps.len();
    let mut o = ObjectText::new();
    let mut i: usize = 0;
    assert(o@ =~= steps_members(steps@).take(0));
    while i < n
        invariant
            i <= n,
            n == steps@.len(),
            o@ == steps_members(steps@).take(i as int),
        decreases n - i,
    {
        let v = step_object(steps.value_at(i));
        o = o.with(steps.key_at(i), &v);
        assert(steps_members(steps@).take(i as int).push(steps_members(steps@)[i as int])
            =~= steps_members(steps@).take(i + 1));
        i += 1;
    }
    assert(steps_members(steps@).take(n as int) =~= steps_members(steps@));
    o.text()
}

/// The root `artifacts`: the captured diff, if there is one.
pub open spec fn artifact_members(diff: Option<Seq<char>>) -> Seq<(Seq<char>, Seq<char>)> {
    match diff {
        Some(d) => Seq::empty().push(("DIFF"@, json_string(d))),
        None => Seq::empty(),
    }
}

/// The root `retry`: the attempt and what it is told.
pub open spec fn retry_members(attempt: nat, feedback: Seq<char>) -> Seq<(Seq<char>, Seq<char>)> {
    Seq::empty().push(("attempt"@, decimal(attempt))).push(("feedback"@, json_string(feedback)))
}

/// The root `loop`: the iteration and what it is told.
pub open spec fn loop_members(counter: nat, feedback: Seq<char>) -> Seq<(Seq<char>, Seq<char>)> {
    Seq::empty().push(("counter"@, decimal(counter))).push(("feedback"@, json_string(feedback)))
}

/// The root `run`: the run's id and its workflow.
pub open spec fn run_members(run_id: RunId, workflow: Seq<char>) -> Seq<(Seq<char>, Seq<char>)> {
    Seq::empty().push(("id"@, json_string(uuid_text(run_id.0)))).push(
        ("workflow"@, json_string(workflow)),
    )
}

/// A step's template context.
pub open spec fn context_roots(
    params: Seq<(Seq<char>, ValueView)>,
    trigger_payload: ValueView,
    steps: Seq<(Seq<char>, StepStateView)>,
    diff: Option<Seq<char>>,
    run_id: RunId,
    workflow: Seq<char>,
    loop_counter: nat,
    loop_feedback: Seq<char>,
) -> Seq<(Seq<char>, Seq<char>)> {
    let c = Seq::empty();
    let c = put(c, "params"@, object_text(value_members(params)));
    let c = put(c, "trigger"@, json_text(trigger_payload));
    let c = put(c, "steps"@, object_text(steps_members(steps)));
    let c = put(c, "artifacts"@, object_text(artifact_members(diff)));
    let c = put(c, "run"@, object_text(run_members(run_id, workflow)));
    let c = put(c, "retry"@, object_text(retry_members(1, Seq::empty())));
    put(c, "loop"@, object_text(loop_members(loop_counter, loop_feedback)))
}

/// A step's template context inside a loop: with the iteration and what it is told.
pub fn build_ctx_with(
    params: &OrderedMap<Value>,
    trigger_payload: &Value,
    steps: &OrderedMap<StepState>,
    diff: &Option<String>,
    run_id: RunId,
    workflow: &str,
    loop_counter: u32,
    loop_feedback: &str,
) -> (r: Context)
    ensures
        r@ == context_roots(
            params@,
            trigger_payload@,
            steps@,
            opt_text(*diff),
            run_id,
            workflow@,
            loop_counter as nat,
            loop_feedback@,
        ),
{
    let params_json = object_of(params);
    let trigger_json = trigger_payload.to_json();
    let steps_json = steps_object(steps);
    let artifacts = match diff {
        Some(d) => {
            let q = quote_json(d);
            ObjectText::new().with("DIFF", &q)
        },
        None => ObjectText::new(),
    };
    let id_text = run_id.to_string();
    let id = quote_json(&id_text);
    let name = quote_json(workflow);
    let run = ObjectText::new().with("id", &id).with("workflow", &name);
    let empty = quote_json("");
    proof {
        reveal_strlit("");
        assert(""@ =~= Seq::<char>::empty());
    }
    let one = decimal_of(1);
    let retry = ObjectText::new().with("attempt", &one).with("feedback", &empty);
    let counter = decimal_of(loop_counter as u128);
    let told = quote_json(loop_feedback);
    let looped = ObjectText::new().with("counter", &counter).with("feedback", &told);
    Context::new().with_root("params", params_json).with_root("trigger", trigger_json).with_root(
        "steps",
        steps_json,
    ).with_root("artifacts", artifacts.text()).with_root("run", run.text()).with_root(
        "retry",
        retry.text(),
    ).with_root("loop", looped.text())
}

/// A top-level step's template context: the loop root is at its first iteration.
pub fn build_ctx(
    params: &OrderedMap<Value>,
    trigger_payload: &Value,
    steps: &OrderedMap<StepState>,
    diff: &Option<String>,
    run_id: RunId,
    workflow: &str,
) -> (r: Context)
    ensures
        r@ == context_roots(
            params@,
            trigger_payload@,
            steps@,
            opt_text(*diff),
            run_id,
            workflow@,
            1,
            Seq::empty(),
        ),
{
    proof {
        reveal_strlit("");
        assert(""@ =~= Seq::<char>::empty());
    }
    build_ctx_with(params, trigger_payload, steps, diff, run_id, workflow, 1, "")
}

/// The context of one attempt of a step: `base` with its `retry` root replaced by the attempt and
/// what it is told of the failure before it.
pub fn attempt_context(
    base: &Context,
    feedback: FeedbackMode,
    attempt: u32,
    prior_error: &Option<String>,
) -> (r: Context)
    ensures
        r@ == put(
            base@,
            "retry"@,
            object_text(
                retry_members(attempt as nat, feedback_text(feedback, opt_text(*prior_error))),
            ),
        ),
{
    let told = retry_feedback(feedback, prior_error);
    let q = quote_json(&told);
    let n = decimal_of(attempt as u128);
    let retry = ObjectText::new().with("attempt", &n).with("feedback", &q);
    base.replicate().with_root("retry", retry.text())
}

// ---------------------------------------------------------------------------------------------
// Laws
// ---------------------------------------------------------------------------------------------
proof fn lemma_put_chain(
    c: Seq<(Seq<char>, Seq<char>)>,
    k: Seq<char>,
    v: Seq<char>,
)
    requires
        crate::names::unique_keys(c),
    ensures
        crate::names::unique_keys(put(c, k, v)),
        forall|q: Seq<char>| #[trigger]
            lookup(put(c, k, v), q) == (if q == k {
                Some(v)
            } else {
                lookup(c, q)
            }),
{
    assert forall|q: Seq<char>| #[trigger]
        lookup(put(c, k, v), q) == (if q == k {
            Some(v)
        } else {
            lookup(c, q)
        }) by {
        crate::names::lemma_put_get(c, k, v, q);
    }
    crate::names::lemma_put_get(c, k, v, k);
}

/// A template sees each thing under its own root: the params, the trigger's payload, the steps, the
/// artifacts, the run, the retry and the loop.
pub proof fn each_root_holds_its_own(
    params: Seq<(Seq<char>, ValueView)>,
    trigger_payload: ValueView,
    steps: Seq<(Seq<char>, StepStateView)>,
    diff: Option<Seq<char>>,
    run_id: RunId,
    workflow: Seq<char>,
    counter: nat,
    feedback: Seq<char>,
)
    ensures
        ({
            let c = context_roots(
                params,
                trigger_payload,
                steps,
                diff,
                run_id,
                workflow,
                counter,
                feedback,
            );
            &&& lookup(c, "params"@) == Some(object_text(value_members(params)))
            &&& lookup(c, "trigger"@) == Some(json_text(trigger_payload))
            &&& lookup(c, "steps"@) == Some(object_text(steps_members(steps)))
            &&& lookup(c, "artifacts"@) == Some(object_text(artifact_members(diff)))
            &&& lookup(c, "run"@) == Some(object_text(run_members(run_id, workflow)))
            &&& lookup(c, "retry"@) == Some(object_text(retry_members(1, Seq::empty())))
            &&& lookup(c, "loop"@) == Some(object_text(loop_members(counter, feedback)))
        }),
{
    reveal_strlit("params");
    reveal_strlit("trigger");
    reveal_strlit("steps");
    reveal_strlit("artifacts");
    reveal_strlit("run");
    reveal_strlit("retry");
    reveal_strlit("loop");
    assert("params"@.len() == 6 && "trigger"@.len() == 7 && "steps"@.len() == 5 && "artifacts"@.len()
        == 9 && "run"@.len() == 3 && "retry"@.len() == 5 && "loop"@.len() == 4);
    assert("steps"@[0] != "retry"@[0]);
    let c0 = Seq::<(Seq<char>, Seq<char>)>::empty();
    let v1 = object_text(value_members(params));
    let v2 = json_text(trigger_payload);
    let v3 = object_text(steps_members(steps));
    let v4 = object_text(artifact_members(diff));
    let v5 = object_text(run_members(run_id, workflow));
    let v6 = object_text(retry_members(1, Seq::empty()));
    let v7 = object_text(loop_members(counter, feedback));
    let c1 = put(c0, "params"@, v1);
    let c2 = put(c1, "trigger"@, v2);
    let c3 = put(c2, "steps"@, v3);
    let c4 = put(c3, "artifacts"@, v4);
    let c5 = put(c4, "run"@, v5);
    let c6 = put(c5, "retry"@, v6);
    lemma_put_chain(c0, "params"@, v1);
    lemma_put_chain(c1, "trigger"@, v2);
    lemma_put_chain(c2, "steps"@, v3);
    lemma_put_chain(c3, "artifacts"@, v4);
    lemma_put_chain(c4, "run"@, v5);
    lemma_put_chain(c5, "retry"@, v6);
    lemma_put_chain(c6, "loop"@, v7);
}

/// What a template sees of a step, a run, a retry and a loop, each under its own name.
pub proof fn members_hold_what_they_name(
    st: StepStateView,
    run_id: RunId,
    workflow: Seq<char>,
    n: nat,
    feedback: Seq<char>,
    diff: Seq<char>,
)
    ensures
        member(step_members(st), "outputs"@) == Some(object_text(value_members(st.outputs))),
        member(step_members(st), "exit_code"@) == Some(
            match st.exit_code {
                Some(c) => signed_decimal(c as int),
                None => "null"@,
            },
        ),
        member(step_members(st), "status"@) == Some(
            json_string(
                match st.status {
                    StepStatus::Pending => "pending"@,
                    StepStatus::Running => "running"@,
                    StepStatus::AwaitingApproval => "awaiting_approval"@,
                    StepStatus::Passed => "passed"@,
                    StepStatus::Failed => "failed"@,
                    StepStatus::Skipped => "skipped"@,
                },
            ),
        ),
        member(run_members(run_id, workflow), "id"@) == Some(json_string(uuid_text(run_id.0))),
        member(run_members(run_id, workflow), "workflow"@) == Some(json_string(workflow)),
        member(retry_members(n, feedback), "attempt"@) == Some(decimal(n)),
        member(retry_members(n, feedback), "feedback"@) == Some(json_string(feedback)),
        member(loop_members(n, feedback), "counter"@) == Some(decimal(n)),
        member(loop_members(n, feedback), "feedback"@) == Some(json_string(feedback)),
        member(artifact_members(Some(diff)), "DIFF"@) == Some(json_string(diff)),
        artifact_members(None).len() == 0,
{
    reveal_with_fuel(member, 4);
    reveal_strlit("outputs");
    reveal_strlit("exit_code");
    reveal_strlit("status");
    reveal_strlit("id");
    reveal_strlit("workflow");
    reveal_strlit("attempt");
    reveal_strlit("feedback");
    reveal_strlit("counter");
    assert("outputs"@.len() == 7 && "exit_code"@.len() == 9 && "status"@.len() == 6);
    assert("id"@.len() != "workflow"@.len());
    assert("attempt"@.len() != "feedback"@.len());
    assert("counter"@.len() != "feedback"@.len());
    let s = step_members(st);
    assert(s[0].0 == "outputs"@ && s[1].0 == "exit_code"@ && s[2].0 == "status"@);
    assert(s.drop_first()[0] == s[1]);
    assert(s.drop_first().drop_first()[0] == s[2]);
    let r = run_members(run_id, workflow);
    assert(r.drop_first()[0] == r[1]);
    let t = retry_members(n, feedback);
    assert(t.drop_first()[0] == t[1]);
    let l = loop_members(n, feedback);
    assert(l.drop_first()[0] == l[1]);
}

/// Every step a run records is seen under its id, and every param under its name, with its value.
pub proof fn steps_and_params_are_all_seen(
    steps: Seq<(Seq<char>, StepStateView)>,
    params: Seq<(Seq<char>, ValueView)>,
    i: int,
)
    ensures
        steps_members(steps).len() == steps.len(),
        value_members(params).len() == params.len(),
        0 <= i < steps.len() ==> steps_members(steps)[i].0 == steps[i].0 && steps_members(
            steps,
        )[i].1 == object_text(step_members(steps[i].1)),
        0 <= i < params.len() ==> value_members(params)[i] == (params[i].0, json_text(params[i].1)),
{
}

} // verus!
