//! The in-memory doubles, retention, listings and workspace sources.

use odin::api::{RunInput, RunStatus, StepStatus};
use odin::cli::prune::{build_policy, PrunePolicy};
use odin::cli::retention::{prune_report, select_pruned, StoredRun};
use odin::engine::builder::{workspace_source, Registry, WorkspaceSource};
use odin::engine::git::{leftover_scratch, scratch_name};
use odin::engine::recovery::is_unfinished;
use odin::engine::state::{RunState, StepState};
use odin::ids::{ProviderRef, RunId, WorkflowId};
use odin::ir::workspace::WorkspaceConfig;
use odin::json::Value;
use odin::mock::{EchoProvider, MemStore, NoopAction, ScriptedTrigger, TmpWorkspace};
use odin::names::OrderedMap;
use odin::time::Timestamp;
use odin::view::RunView;

fn s(x: &str) -> String {
    x.to_owned()
}

fn run_state(status: RunStatus) -> RunState {
    RunState {
        run_id: RunId::new(),
        workflow: WorkflowId::new("w"),
        schema_major: 1,
        status,
        error: None,
        steps: OrderedMap::new(),
        artifacts: OrderedMap::new(),
        provider_versions: OrderedMap::new(),
        approvals: OrderedMap::new(),
        input: RunInput::manual(),
        workspace: None,
        base_commit: None,
        snapshot: None,
        loop_state: OrderedMap::new(),
        created_at: Timestamp { secs: 1, nanos: 0 },
        updated_at: Timestamp { secs: 3, nanos: 500_000_000 },
    }
}

// The doubles.

#[test]
fn provider_is_object_safe_and_echoes() {
    let p = EchoProvider::new(ProviderRef::new("echo"));
    assert_eq!(p.id().as_str(), "echo");
    let out = p.invoke(Some(s("hello")));
    assert_eq!(out.stdout, "hello");
    assert_eq!(out.exit_code, 0);
    assert_eq!(p.invoke(None).stdout, "");
}

#[test]
fn store_round_trips_and_filters_incomplete() {
    let mut store = MemStore::new();
    let running = run_state(RunStatus::Running);
    let done = run_state(RunStatus::Succeeded);
    let running_id = running.run_id;
    store.checkpoint(&running);
    store.checkpoint(&done);

    let incomplete = store.load_incomplete();
    assert_eq!(incomplete.len(), 1);
    assert_eq!(incomplete[0].run_id, running_id);
    assert!(store.load_run(running_id).is_some());
}

#[test]
fn the_last_checkpoint_is_read_back() {
    let mut store = MemStore::new();
    let mut first = run_state(RunStatus::Running);
    let other = run_state(RunStatus::Pending);
    store.checkpoint(&first);
    store.checkpoint(&other);
    first.status = RunStatus::Failed;
    first.error = Some(s("boom"));
    store.checkpoint(&first);
    let read = store.load_run(first.run_id).unwrap();
    assert_eq!(read.status, RunStatus::Failed);
    assert_eq!(read.error.as_deref(), Some("boom"));
    assert_eq!(store.load_run(other.run_id).unwrap().status, RunStatus::Pending);
    assert!(store.load_run(RunId::new()).is_none());
    let left = store.load_incomplete();
    assert_eq!(left.len(), 1);
    assert_eq!(left[0].run_id, other.run_id);
}

#[test]
fn an_action_can_hand_its_arguments_back() {
    let a = NoopAction(s("noop"));
    assert_eq!(a.name(), "noop");
    let mut args: OrderedMap<Value> = OrderedMap::new();
    args.insert(s("k"), Value::string("v"));
    let out = a.run(args);
    assert_eq!(out.exit_code, 0);
    assert_eq!(out.outputs.get("k").and_then(|v| v.as_str()), Some("v"));
    assert!(out.side_effects.is_empty());
}

#[test]
fn a_script_is_played_in_order() {
    let mut t = ScriptedTrigger::new(vec![
        RunInput::manual().with_trigger("first", Value::Null),
        RunInput::manual().with_trigger("second", Value::Null),
    ]);
    assert_eq!(t.kind(), "scripted");
    assert_eq!(t.next_event().unwrap().trigger, "first");
    assert_eq!(t.next_event().unwrap().trigger, "second");
    assert!(t.next_event().is_none());
}

#[test]
fn a_fixed_directory_is_handed_out() {
    let w = TmpWorkspace(s("/tmp/here"));
    assert_eq!(w.kind(), "tmp");
    let id = RunId::new();
    let h = w.acquire(id);
    assert_eq!((h.run_id, h.path.as_str(), h.branch, h.token.as_str()), (id, "/tmp/here", None, ""));
}

// Workspaces.

#[test]
fn registered_workspace_overrides_the_builtin_kind() {
    let mut registry = Registry::with_builtins();
    let cfg = WorkspaceConfig::default();
    match workspace_source(&registry, &cfg) {
        WorkspaceSource::Shared(key) => assert_eq!(key, cfg.cache_key()),
        WorkspaceSource::Registered => panic!("nothing is registered"),
    }
    registry.register_workspace("worktree");
    assert!(
        matches!(workspace_source(&registry, &cfg), WorkspaceSource::Registered),
        "the registered workspace must override the built-in worktree kind"
    );
}

#[test]
fn only_a_runs_own_scratch_is_left_over() {
    let mine = RunId(7);
    let theirs = RunId(8);
    let names = vec![
        scratch_name(mine, "a", "1"),
        scratch_name(theirs, "a", "1"),
        s("something-else"),
        scratch_name(mine, "b", "2"),
    ];
    let found = leftover_scratch(&names, mine);
    assert_eq!(found, vec![names[0].clone(), names[3].clone()]);
}

// Retention.

fn stored(workflow: &str, status: RunStatus, at: i64, events: u64) -> StoredRun {
    StoredRun { workflow: s(workflow), status, updated_at: Timestamp { secs: at, nanos: 0 }, events }
}

fn history() -> Vec<StoredRun> {
    vec![
        stored("a", RunStatus::Succeeded, 10, 3),
        stored("a", RunStatus::Failed, 30, 4),
        stored("a", RunStatus::Running, 1, 5),
        stored("b", RunStatus::Cancelled, 20, 6),
        stored("a", RunStatus::Succeeded, 20, 7),
    ]
}

fn policy(age: Option<i64>, keep: Option<u32>, workflow: Option<&str>) -> PrunePolicy {
    PrunePolicy { max_age: age, keep_last: keep, workflow: workflow.map(WorkflowId::new) }
}

#[test]
fn the_newest_runs_of_each_workflow_are_kept() {
    let runs = history();
    let now = Timestamp { secs: 100, nanos: 0 };
    assert_eq!(select_pruned(&runs, &policy(None, Some(1), None), now), vec![0, 4]);
    assert_eq!(select_pruned(&runs, &policy(None, Some(2), None), now), vec![0]);
    assert_eq!(select_pruned(&runs, &policy(None, Some(0), None), now), vec![0, 1, 3, 4]);
    assert_eq!(select_pruned(&runs, &policy(None, Some(0), Some("b")), now), vec![3]);
}

#[test]
fn old_runs_are_pruned_by_age() {
    let runs = history();
    let now = Timestamp { secs: 100, nanos: 0 };
    assert_eq!(select_pruned(&runs, &policy(Some(75), None, None), now), vec![0, 3, 4]);
    assert_eq!(select_pruned(&runs, &policy(Some(80), None, None), now), vec![0]);
    let read = build_policy(&Some(s("80s")), None, &None).unwrap();
    assert_eq!(select_pruned(&runs, &read, now), vec![0]);
}

#[test]
fn runs_of_one_moment_are_kept_in_the_order_they_are_listed() {
    let runs = vec![
        stored("a", RunStatus::Succeeded, 5, 0),
        stored("a", RunStatus::Succeeded, 5, 0),
    ];
    assert_eq!(select_pruned(&runs, &policy(None, Some(1), None), Timestamp { secs: 0, nanos: 0 }), vec![1]);
}

#[test]
fn a_report_counts_what_was_pruned() {
    let runs = history();
    let r = prune_report(&runs, &vec![0, 3, 4], true);
    assert_eq!((r.runs_pruned, r.events_pruned, r.dry_run), (3, 16, true));
    let counts: Vec<(&str, &str, u64)> = r
        .per_workflow
        .iter()
        .map(|c| (c.workflow.as_str(), c.status.as_str(), c.count))
        .collect();
    assert_eq!(counts, vec![("a", "succeeded", 2), ("b", "cancelled", 1)]);
}

#[test]
fn a_waiting_run_is_not_unfinished() {
    assert!(is_unfinished(RunStatus::Pending));
    assert!(is_unfinished(RunStatus::Running));
    for over in [
        RunStatus::AwaitingApproval,
        RunStatus::Succeeded,
        RunStatus::Failed,
        RunStatus::Cancelled,
    ] {
        assert!(!is_unfinished(over), "{over:?}");
    }
}

// Listings.

#[test]
fn a_run_is_listed_with_its_steps_and_its_gate() {
    let mut st = run_state(RunStatus::AwaitingApproval);
    st.steps.insert(s("a"), StepState::bare(StepStatus::Passed, 1, OrderedMap::new()));
    let mut outputs: OrderedMap<Value> = OrderedMap::new();
    outputs.insert(s("message"), Value::string("ship it?"));
    st.steps.insert(s("ok"), StepState::bare(StepStatus::AwaitingApproval, 0, outputs));
    let v = RunView::project(&st).unwrap();
    assert_eq!(v.run_id, st.run_id.to_string());
    assert_eq!((v.workflow.as_str(), v.status.as_str()), ("w", "awaiting_approval"));
    assert_eq!(v.duration_ms, None);
    let steps: Vec<(&str, &str)> =
        v.steps.iter().map(|x| (x.id.as_str(), x.status.as_str())).collect();
    assert_eq!(steps, vec![("a", "passed"), ("ok", "awaiting_approval")]);
    let gate = v.gate.unwrap();
    assert_eq!((gate.step.as_str(), gate.message.as_deref()), ("ok", Some("ship it?")));
    assert_eq!(v.created_at, Timestamp { secs: 1, nanos: 0 }.to_rfc3339().unwrap());
}

#[test]
fn a_finished_run_is_listed_with_its_duration() {
    let st = run_state(RunStatus::Succeeded);
    let v = RunView::project(&st).unwrap();
    assert_eq!(v.duration_ms, Some(2500));
    assert_eq!(v.status, "succeeded");
    assert!(v.gate.is_none());
}
