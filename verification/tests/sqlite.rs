//! Bounded text columns and guarded pairs of current rows.

use y_harness::current_guard::{
    begin_guard, guard_stores, join_error, pair_currents, same_store, unannounced, GuardStep,
    LoadedTaskGraph, LoadedWorkflowRun, LockReply, SqliteStoreIdentity, TaskGraphSnapshot,
    WorkerEnd, WorkflowRunSnapshot,
};
use y_harness::error::HarnessError;
use y_harness::kernel::{ActorIdentity, AuthorityContext};
use y_harness::sqlite::{bounded_optional_text, bounded_text};

#[test]
fn rejects_text_before_materializing_an_oversized_column() {
    let connection = rusqlite::Connection::open_in_memory().expect("open memory database");
    let stored: i64 = connection
        .query_row("SELECT length(CAST(?1 AS BLOB)), ?1", ["four"], |row| row.get(0))
        .expect("stored length");
    let error = bounded_text(stored, 3, "fixture").expect_err("oversized text");
    assert!(error.contains("fixture exceeds 3 bytes"));
    assert!(bounded_text(stored, 4, "fixture").is_ok());
}

#[test]
fn reads_bounded_nullable_text() {
    let connection = rusqlite::Connection::open_in_memory().expect("open memory database");
    let present = connection
        .query_row("SELECT length(CAST(?1 AS BLOB)), ?1", ["name"], |row| {
            let stored: Option<i64> = row.get(0)?;
            if bounded_optional_text(stored, 4, "fixture").expect("bounded optional text") {
                row.get::<_, Option<String>>(1)
            } else {
                Ok(None)
            }
        })
        .expect("bounded optional text");
    assert_eq!(present.as_deref(), Some("name"));
    let absent = connection
        .query_row("SELECT NULL, NULL", [], |row| {
            let stored: Option<i64> = row.get(0)?;
            if bounded_optional_text(stored, 4, "fixture").expect("null optional text") {
                row.get::<_, Option<String>>(1)
            } else {
                Ok(None)
            }
        })
        .expect("null optional text");
    assert_eq!(absent, None);
}

#[test]
fn negative_and_oversized_lengths_are_refused() {
    assert!(bounded_text(-1, 3, "fixture").is_err());
    assert_eq!(
        bounded_optional_text(Some(5), 4, "fixture"),
        Err("fixture exceeds 4 bytes".to_owned())
    );
}

fn store(path: &str, file: u64) -> SqliteStoreIdentity {
    SqliteStoreIdentity { path: path.to_owned(), device: 1, file }
}

#[test]
fn two_names_of_one_file_are_one_store() {
    assert!(same_store(&store("/a", 1), &store("/b", 1)));
    assert!(!same_store(&store("/a", 1), &store("/b", 2)));
}

#[test]
fn guarding_needs_two_separate_local_stores() {
    let local = AuthorityContext::local_process();
    assert!(guard_stores(&local, Some(store("/a", 1)), Some(store("/b", 2))).is_ok());
    assert!(guard_stores(&local, Some(store("/a", 1)), Some(store("/b", 1))).is_err());
    assert!(guard_stores(&local, None, Some(store("/b", 2))).is_err());
    let broken = AuthorityContext::from_parts(
        ActorIdentity::Authenticated { authority: String::new(), subject: String::new() },
        None,
    );
    assert!(guard_stores(&broken, Some(store("/a", 1)), Some(store("/b", 2))).is_err());
}

fn task(graph_id: &str) -> LoadedTaskGraph {
    LoadedTaskGraph {
        snapshot: TaskGraphSnapshot {
            graph_id: graph_id.to_owned(),
            revision: 3,
            content: "{}".to_owned(),
        },
        digest: [1; 32],
    }
}

fn run(task_graph_id: &str) -> LoadedWorkflowRun {
    LoadedWorkflowRun {
        snapshot: WorkflowRunSnapshot {
            run_id: "run".to_owned(),
            task_graph_id: task_graph_id.to_owned(),
            revision: 4,
            content: "{}".to_owned(),
        },
        digest: [2; 32],
    }
}

#[test]
fn a_pair_has_to_be_linked() {
    let (graph, workflow) = pair_currents(Some(task("graph")), Some(run("graph")), "graph")
        .ok()
        .expect("linked pair");
    assert_eq!(graph.revision(), 3);
    assert_eq!(workflow.revision(), 4);
    assert_eq!(graph.digest().as_bytes(), &[1; 32]);
    assert_eq!(workflow.digest().as_bytes(), &[2; 32]);
    assert_eq!(graph.digest().redacted(), "SqliteCurrentDigest(<redacted>)");
    assert_eq!(graph.redacted(), "GuardedTaskGraphCurrent(<redacted>)");
    assert_eq!(workflow.redacted(), "GuardedWorkflowRunCurrent(<redacted>)");
    assert_eq!(graph.snapshot().graph_id, "graph");
    assert_eq!(workflow.snapshot().run_id, "run");
    assert!(pair_currents(Some(task("graph")), Some(run("other")), "graph").is_err());
    assert!(pair_currents(None, Some(run("graph")), "graph").is_err());
    assert!(pair_currents(Some(task("graph")), None, "graph").is_err());
}

#[test]
fn contention_on_the_second_store_frees_the_first_and_retries() {
    let GuardStep::BeginTask(waiting) = begin_guard(true) else { panic!("starts with the task store") };
    let GuardStep::CheckCaller(held) = waiting.replied(LockReply::Locked) else { panic!("locked") };
    let GuardStep::BeginWorkflow(second) = held.checked(true) else { panic!("caller waits") };
    let GuardStep::ReleaseTask(release) = second.replied(LockReply::Contended) else { panic!("contended") };
    let GuardStep::Pause(pause) = release.released(Ok(())) else { panic!("released") };
    assert!(matches!(pause.paused(true), GuardStep::BeginTask(_)));
}

#[test]
fn a_guarded_pair_is_held_until_it_is_released() {
    let GuardStep::BeginTask(waiting) = begin_guard(true) else { panic!("starts with the task store") };
    let GuardStep::CheckCaller(held) = waiting.replied(LockReply::Locked) else { panic!("locked") };
    let GuardStep::BeginWorkflow(second) = held.checked(true) else { panic!("caller waits") };
    let GuardStep::Load(both) = second.replied(LockReply::Locked) else { panic!("both locked") };
    let GuardStep::Hold(guarding) = both.announced(true, true) else { panic!("announced") };
    let GuardStep::ReleasePair(release) = guarding.released() else { panic!("released") };
    assert!(matches!(release.released(Ok(()), Ok(())), GuardStep::Finished(Ok(()))));
}

#[test]
fn lock_failures_end_the_guard() {
    let GuardStep::BeginTask(waiting) = begin_guard(true) else { panic!("starts with the task store") };
    match waiting.replied(LockReply::Failed("disk".to_owned())) {
        GuardStep::Finished(Err(HarnessError::Orchestration(message))) => assert!(message.contains("disk")),
        _ => panic!("a failed lock ends the guard"),
    }
    assert!(matches!(begin_guard(false), GuardStep::Finished(Ok(()))));
}

#[test]
fn worker_faults_are_reported() {
    assert!(matches!(join_error("lost"), HarnessError::Orchestration(message) if message.contains("lost")));
    assert_eq!(
        unannounced(WorkerEnd::Returned(Err(HarnessError::Orchestration("why".to_owned())))),
        HarnessError::Orchestration("why".to_owned())
    );
    assert!(matches!(
        unannounced(WorkerEnd::Lost("panic".to_owned())),
        HarnessError::Orchestration(message) if message.contains("panic")
    ));
}
