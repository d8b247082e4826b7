//! Caller-held current guard over one exact SQLite Task Graph and Workflow Run.
//!
//! SQLite has no row-level writer lock. The guard therefore holds short-lived
//! immediate transactions in the fixed Task-store, Workflow-store order. What
//! has to be done next is decided here; the transactions belong to the host.

use vstd::prelude::*;

use crate::error::{settles, ErrorView, HarnessError};
use crate::kernel::{AuthorityContext, AuthorityView};
use crate::text::{join2, join3, same_text};

verus! {

/// Domain-separated digest of one exact validated SQLite current row.
#[derive(Clone, Copy, PartialEq, Eq)]
pub struct SqliteCurrentDigest {
    bytes: [u8; 32],
}

impl View for SqliteCurrentDigest {
    type V = Seq<u8>;

    closed spec fn view(&self) -> Seq<u8> {
        self.bytes@
    }
}

impl SqliteCurrentDigest {
    /// Returns the exact 32-byte SHA-256 digest.
    pub fn as_bytes(&self) -> (bytes: &[u8; 32])
        ensures
            bytes@ == self@,
    {
        &self.bytes
    }

    /// Returns the text that stands for the digest in diagnostics.
    pub fn redacted(&self) -> (text: &'static str)
        ensures
            text@ == "SqliteCurrentDigest(<redacted>)"@,
    {
        "SqliteCurrentDigest(<redacted>)"
    }
}

/// Strictly hydrated Task Graph, as far as the guard looks at it.
#[derive(Debug, PartialEq, Eq)]
pub struct TaskGraphSnapshot {
    /// Identity of the graph.
    pub graph_id: String,
    /// Optimistic revision.
    pub revision: u64,
    /// Canonical content.
    pub content: String,
}

/// Strictly hydrated Workflow Run, as far as the guard looks at it.
#[derive(Debug, PartialEq, Eq)]
pub struct WorkflowRunSnapshot {
    /// Identity of the run.
    pub run_id: String,
    /// Task Graph that the run belongs to.
    pub task_graph_id: String,
    /// Optimistic revision.
    pub revision: u64,
    /// Canonical content.
    pub content: String,
}

/// Strict Task Graph current observed inside the held pair of write guards.
pub struct GuardedTaskGraphCurrent {
    snapshot: TaskGraphSnapshot,
    digest: SqliteCurrentDigest,
}

/// Strict Workflow Run current observed inside the held pair of write guards.
pub struct GuardedWorkflowRunCurrent {
    snapshot: WorkflowRunSnapshot,
    digest: SqliteCurrentDigest,
}

impl GuardedTaskGraphCurrent {
    /// Snapshot that was observed.
    pub closed spec fn observed(self) -> TaskGraphSnapshot {
        self.snapshot
    }

    /// Digest of the observed row.
    pub closed spec fn row_digest(self) -> SqliteCurrentDigest {
        self.digest
    }

    /// Returns the text that stands for a current in diagnostics.
    pub fn redacted(&self) -> (text: &'static str)
        ensures
            text@ == "GuardedTaskGraphCurrent(<redacted>)"@,
    {
        "GuardedTaskGraphCurrent(<redacted>)"
    }

    /// Returns the strictly hydrated current snapshot.
    pub fn snapshot(&self) -> (snapshot: &TaskGraphSnapshot)
        ensures
            *snapshot == self.observed(),
    {
        &self.snapshot
    }

    /// Returns the current optimistic revision bound into the digest.
    pub fn revision(&self) -> (revision: u64)
        ensures
            revision == self.observed().revision,
    {
        self.snapshot.revision
    }

    /// Returns the domain-separated digest of identity, revision, and raw row bytes.
    pub fn digest(&self) -> (digest: SqliteCurrentDigest)
        ensures
            digest == self.row_digest(),
    {
        self.digest
    }
}

impl GuardedWorkflowRunCurrent {
    /// Snapshot that was observed.
    pub closed spec fn observed(self) -> WorkflowRunSnapshot {
        self.snapshot
    }

    /// Digest of the observed row.
    pub closed spec fn row_digest(self) -> SqliteCurrentDigest {
        self.digest
    }

    /// Returns the text that stands for a current in diagnostics.
    pub fn redacted(&self) -> (text: &'static str)
        ensures
            text@ == "GuardedWorkflowRunCurrent(<redacted>)"@,
    {
        "GuardedWorkflowRunCurrent(<redacted>)"
    }

    /// Returns the strictly hydrated current snapshot.
    pub fn snapshot(&self) -> (snapshot: &WorkflowRunSnapshot)
        ensures
            *snapshot == self.observed(),
    {
        &self.snapshot
    }

    /// Returns the current optimistic revision bound into the digest.
    pub fn revision(&self) -> (revision: u64)
        ensures
            revision == self.observed().revision,
    {
        self.snapshot.revision
    }

    /// Returns the domain-separated digest of identity, revision, and raw row bytes.
    pub fn digest(&self) -> (digest: SqliteCurrentDigest)
        ensures
            digest == self.row_digest(),
    {
        self.digest
    }
}

/// Identity of a store file: where it is, and which file that is.
#[derive(Debug)]
pub struct SqliteStoreIdentity {
    /// Canonical path.
    pub path: String,
    /// Device of the file.
    pub device: u64,
    /// Number of the file on its device.
    pub file: u64,
}

/// Whether two stores are the same file, under whatever path.
pub open spec fn is_same_store(a: SqliteStoreIdentity, b: SqliteStoreIdentity) -> bool {
    a.device == b.device && a.file == b.file
}

/// Decides whether two stores are the same file, under whatever path.
pub fn same_store(task_store: &SqliteStoreIdentity, workflow_store: &SqliteStoreIdentity) -> (result: bool)
    ensures
        result == is_same_store(*task_store, *workflow_store),
{
    task_store.device == workflow_store.device && task_store.file == workflow_store.file
}

/// Error of a store that no current guard supports.
pub open spec fn unsupported() -> ErrorView {
    ErrorView::InvalidConfiguration("SQLite current guard requires a canonical file-backed store"@)
}

/// Current guards require durable file-backed SQLite stores.
pub fn unsupported_store() -> (error: HarnessError)
    ensures
        error@ == unsupported(),
{
    HarnessError::InvalidConfiguration("SQLite current guard requires a canonical file-backed store".to_owned())
}

/// Error of a pair of records that cannot be guarded.
pub open spec fn missing_pair() -> ErrorView {
    ErrorView::Orchestration("paired SQLite current guard record is absent or outside authority"@)
}

/// Missing and foreign records share one low-information rejection.
pub fn missing_guarded_pair() -> (error: HarnessError)
    ensures
        error@ == missing_pair(),
{
    HarnessError::Orchestration("paired SQLite current guard record is absent or outside authority".to_owned())
}

/// Error of a failed SQLite operation.
pub open spec fn sql_failure(operation: Seq<char>, error: Seq<char>) -> ErrorView {
    ErrorView::Orchestration(operation + " failed: "@ + error)
}

/// Keeps SQLite details inside the persistence boundary.
pub fn sql_error(operation: &str, error: &str) -> (result: HarnessError)
    ensures
        result@ == sql_failure(operation@, error@),
{
    HarnessError::Orchestration(join3(operation, " failed: ", error))
}

/// Outcome of choosing the stores that a guard holds.
pub open spec fn stores_check(
    authority: AuthorityView,
    task_store: Option<SqliteStoreIdentity>,
    workflow_store: Option<SqliteStoreIdentity>,
) -> Result<(SqliteStoreIdentity, SqliteStoreIdentity), ErrorView> {
    if authority.check("SQLite current guard authority"@) is Err {
        Err(authority.check("SQLite current guard authority"@)->Err_0)
    } else {
        match (task_store, workflow_store) {
            (Some(task), Some(workflow)) => if is_same_store(task, workflow) {
                Err(
                    ErrorView::InvalidConfiguration(
                        "Task and Workflow current guards require distinct SQLite files"@,
                    ),
                )
            } else {
                Ok((task, workflow))
            },
            _ => Err(unsupported()),
        }
    }
}

/// Chooses the stores that a guard holds: two durable files that are not the
/// same.
pub fn guard_stores(
    authority: &AuthorityContext,
    task_store: Option<SqliteStoreIdentity>,
    workflow_store: Option<SqliteStoreIdentity>,
) -> (result: Result<(SqliteStoreIdentity, SqliteStoreIdentity), HarnessError>)
    ensures
        settles(result, stores_check(authority@, task_store, workflow_store)),
{
    if let Err(error) = authority.validate_current("SQLite current guard authority") {
        return Err(error);
    }
    match (task_store, workflow_store) {
        (Some(task), Some(workflow)) => {
            if same_store(&task, &workflow) {
                return Err(
                    HarnessError::InvalidConfiguration(
                        "Task and Workflow current guards require distinct SQLite files".to_owned(),
                    ),
                );
            }
            Ok((task, workflow))
        },
        _ => Err(unsupported_store()),
    }
}

/// Task Graph record as it was read, with the digest of its row.
pub struct LoadedTaskGraph {
    /// Snapshot.
    pub snapshot: TaskGraphSnapshot,
    /// Digest of the row.
    pub digest: [u8; 32],
}

/// Workflow Run record as it was read, with the digest of its row.
pub struct LoadedWorkflowRun {
    /// Snapshot.
    pub snapshot: WorkflowRunSnapshot,
    /// Digest of the row.
    pub digest: [u8; 32],
}

/// Whether two observed records belong together.
pub open spec fn is_pair(task: Option<LoadedTaskGraph>, workflow: Option<LoadedWorkflowRun>, graph_id: Seq<char>) -> bool {
    task is Some && workflow is Some && workflow->0.snapshot.task_graph_id@ == graph_id
}

/// Takes two records that were observed while both stores were held.
pub fn pair_currents(task: Option<LoadedTaskGraph>, workflow: Option<LoadedWorkflowRun>, graph_id: &str) -> (result: Result<
    (GuardedTaskGraphCurrent, GuardedWorkflowRunCurrent),
    HarnessError,
>)
    ensures
        match result {
            Ok((guarded_task, guarded_workflow)) => is_pair(task, workflow, graph_id@) && guarded_task.observed()
                == task->0.snapshot && guarded_task.row_digest()@ == task->0.digest@ && guarded_workflow.observed()
                == workflow->0.snapshot && guarded_workflow.row_digest()@ == workflow->0.digest@,
            Err(error) => !is_pair(task, workflow, graph_id@) && error@ == missing_pair(),
        },
{
    match (task, workflow) {
        (Some(task), Some(workflow)) => {
            if !same_text(workflow.snapshot.task_graph_id.as_str(), graph_id) {
                return Err(missing_guarded_pair());
            }
            Ok(
                (
                    GuardedTaskGraphCurrent {
                        snapshot: task.snapshot,
                        digest: SqliteCurrentDigest { bytes: task.digest },
                    },
                    GuardedWorkflowRunCurrent {
                        snapshot: workflow.snapshot,
                        digest: SqliteCurrentDigest { bytes: workflow.digest },
                    },
                ),
            )
        },
        _ => Err(missing_guarded_pair()),
    }
}

/// Reply to beginning an immediate transaction.
pub enum LockReply {
    /// The write reservation is held.
    Locked,
    /// Another writer holds it for the moment.
    Contended,
    /// It cannot be had.
    Failed(String),
}

/// The Task store has to be reserved.
pub struct AwaitTaskLock {}

/// The Task store is held; the caller may have gone away meanwhile.
pub struct TaskHeld {}

/// The Workflow store has to be reserved; the Task store is held.
pub struct AwaitWorkflowLock {}

/// Why the Task store is given back.
pub enum TaskRelease {
    /// The caller has gone away.
    Abandoned,
    /// Both stores are tried again.
    Retry,
    /// The Workflow store cannot be had.
    Failure(String),
}

/// The Task store is being given back.
pub struct AwaitTaskRelease {
    cause: TaskRelease,
}

/// Neither store is held; both are tried again after a pause.
pub struct AwaitPause {}

/// Both stores are held and have to be read.
pub struct BothHeld {}

/// Both stores are held for the caller.
pub struct Guarding {}

/// Both stores are being given back.
pub struct AwaitPairRelease {}

/// What holding the pair needs next.
pub enum GuardStep {
    /// Reserve the Task store.
    BeginTask(AwaitTaskLock),
    /// Look whether the caller still waits.
    CheckCaller(TaskHeld),
    /// Reserve the Workflow store.
    BeginWorkflow(AwaitWorkflowLock),
    /// Give the Task store back.
    ReleaseTask(AwaitTaskRelease),
    /// Pause before the next attempt.
    Pause(AwaitPause),
    /// Read both records.
    Load(BothHeld),
    /// Hold both stores until the caller releases or abandons the guard.
    Hold(Guarding),
    /// Give both stores back, the Workflow store first.
    ReleasePair(AwaitPairRelease),
    /// Nothing is held any more.
    Finished(Result<(), HarnessError>),
}

/// Which write reservations are held.
pub struct Holdings {
    /// That of the Task store.
    pub task: bool,
    /// That of the Workflow store.
    pub workflow: bool,
}

/// Reservations that are held when a step is due.
pub open spec fn holdings(step: GuardStep) -> Holdings {
    match step {
        GuardStep::BeginTask(_) => Holdings { task: false, workflow: false },
        GuardStep::CheckCaller(_) => Holdings { task: true, workflow: false },
        GuardStep::BeginWorkflow(_) => Holdings { task: true, workflow: false },
        GuardStep::ReleaseTask(_) => Holdings { task: true, workflow: false },
        GuardStep::Pause(_) => Holdings { task: false, workflow: false },
        GuardStep::Load(_) => Holdings { task: true, workflow: true },
        GuardStep::Hold(_) => Holdings { task: true, workflow: true },
        GuardStep::ReleasePair(_) => Holdings { task: true, workflow: true },
        GuardStep::Finished(_) => Holdings { task: false, workflow: false },
    }
}

/// Begins an attempt, where the caller still waits.
pub fn begin_guard(caller_waits: bool) -> (step: GuardStep)
    ensures
        if caller_waits {
            step is BeginTask
        } else {
            step matches GuardStep::Finished(Ok(()))
        },
{
    if caller_waits {
        GuardStep::BeginTask(AwaitTaskLock {  })
    } else {
        GuardStep::Finished(Ok(()))
    }
}

impl AwaitTaskLock {
    /// Takes the reply of the Task store.
    pub fn replied(self, reply: LockReply) -> (step: GuardStep)
        ensures
            match reply {
                LockReply::Locked => step is CheckCaller,
                LockReply::Contended => step is Pause,
                LockReply::Failed(error) => step matches GuardStep::Finished(Err(reported)) && reported@ == sql_failure(
                    "Task current guard"@,
                    error@,
                ),
            },
            holdings(step) == (Holdings { task: reply is Locked, workflow: false }),
    {
        match reply {
            LockReply::Locked => GuardStep::CheckCaller(TaskHeld {  }),
            LockReply::Contended => GuardStep::Pause(AwaitPause {  }),
            LockReply::Failed(error) => GuardStep::Finished(Err(sql_error("Task current guard", error.as_str()))),
        }
    }
}

impl TaskHeld {
    /// Goes on to the Workflow store, where the caller still waits.
    pub fn checked(self, caller_waits: bool) -> (step: GuardStep)
        ensures
            if caller_waits {
                step is BeginWorkflow
            } else {
                step matches GuardStep::ReleaseTask(release) && release.cause() is Abandoned
            },
            holdings(step) == (Holdings { task: true, workflow: false }),
    {
        if caller_waits {
            GuardStep::BeginWorkflow(AwaitWorkflowLock {  })
        } else {
            GuardStep::ReleaseTask(AwaitTaskRelease { cause: TaskRelease::Abandoned })
        }
    }
}

impl AwaitTaskRelease {
    /// Why the Task store is given back.
    pub closed spec fn cause(self) -> TaskRelease {
        self.cause
    }

    /// Takes the reply of the Task store to being given back.
    pub fn released(self, result: Result<(), String>) -> (step: GuardStep)
        ensures
            match (self.cause(), result) {
                (TaskRelease::Abandoned, Ok(())) => step matches GuardStep::Finished(Ok(())),
                (TaskRelease::Abandoned, Err(error)) => step matches GuardStep::Finished(Err(reported)) && reported@
                    == sql_failure("Task current guard rollback"@, error@),
                (TaskRelease::Retry, Ok(())) => step is Pause,
                (TaskRelease::Retry, Err(error)) => step matches GuardStep::Finished(Err(reported)) && reported@
                    == sql_failure("Task current guard retry rollback"@, error@),
                (TaskRelease::Failure(failure), Ok(())) => step matches GuardStep::Finished(Err(reported)) && reported@
                    == sql_failure("Workflow current guard"@, failure@),
                (TaskRelease::Failure(_), Err(error)) => step matches GuardStep::Finished(Err(reported)) && reported@
                    == sql_failure("Task current guard failure rollback"@, error@),
            },
            holdings(step) == (Holdings { task: false, workflow: false }),
    {
        match (self.cause, result) {
            (TaskRelease::Abandoned, Ok(())) => GuardStep::Finished(Ok(())),
            (TaskRelease::Abandoned, Err(error)) => GuardStep::Finished(
                Err(sql_error("Task current guard rollback", error.as_str())),
            ),
            (TaskRelease::Retry, Ok(())) => GuardStep::Pause(AwaitPause {  }),
            (TaskRelease::Retry, Err(error)) => GuardStep::Finished(
                Err(sql_error("Task current guard retry rollback", error.as_str())),
            ),
            (TaskRelease::Failure(failure), Ok(())) => GuardStep::Finished(
                Err(sql_error("Workflow current guard", failure.as_str())),
            ),
            (TaskRelease::Failure(_), Err(error)) => GuardStep::Finished(
                Err(sql_error("Task current guard failure rollback", error.as_str())),
            ),
        }
    }
}

impl AwaitWorkflowLock {
    /// Takes the reply of the Workflow store. The Task store is never kept
    /// while the Workflow store cannot be had.
    pub fn replied(self, reply: LockReply) -> (step: GuardStep)
        ensures
            match reply {
                LockReply::Locked => step is Load,
                LockReply::Contended => step matches GuardStep::ReleaseTask(release) && release.cause() is Retry,
                LockReply::Failed(error) => step matches GuardStep::ReleaseTask(release) && release.cause()
                    == TaskRelease::Failure(error),
            },
            holdings(step) == (Holdings { task: true, workflow: reply is Locked }),
    {
        match reply {
            LockReply::Locked => GuardStep::Load(BothHeld {  }),
            LockReply::Contended => GuardStep::ReleaseTask(AwaitTaskRelease { cause: TaskRelease::Retry }),
            LockReply::Failed(error) => GuardStep::ReleaseTask(AwaitTaskRelease { cause: TaskRelease::Failure(error) }),
        }
    }
}

impl AwaitPause {
    /// Begins the next attempt, where the caller still waits.
    pub fn paused(self, caller_waits: bool) -> (step: GuardStep)
        ensures
            if caller_waits {
                step is BeginTask
            } else {
                step matches GuardStep::Finished(Ok(()))
            },
    {
        begin_guard(caller_waits)
    }
}

impl BothHeld {
    /// Goes on once the caller has been told: only records that were found and
    /// delivered are held.
    pub fn announced(self, found: bool, delivered: bool) -> (step: GuardStep)
        ensures
            if found && delivered {
                step is Hold
            } else {
                step is ReleasePair
            },
            holdings(step) == (Holdings { task: true, workflow: true }),
    {
        if found && delivered {
            GuardStep::Hold(Guarding {  })
        } else {
            GuardStep::ReleasePair(AwaitPairRelease {  })
        }
    }
}

impl Guarding {
    /// Gives both stores back once the caller is done.
    pub fn released(self) -> (step: GuardStep)
        ensures
            step is ReleasePair,
    {
        GuardStep::ReleasePair(AwaitPairRelease {  })
    }
}

impl AwaitPairRelease {
    /// Takes both replies: the Task store is given back whatever the Workflow
    /// store replied, and the reply of the Workflow store comes first.
    pub fn released(self, workflow: Result<(), String>, task: Result<(), String>) -> (step: GuardStep)
        ensures
            match (workflow, task) {
                (Err(error), _) => step matches GuardStep::Finished(Err(reported)) && reported@ == sql_failure(
                    "Workflow current guard rollback"@,
                    error@,
                ),
                (Ok(()), Err(error)) => step matches GuardStep::Finished(Err(reported)) && reported@ == sql_failure(
                    "Task current guard rollback"@,
                    error@,
                ),
                (Ok(()), Ok(())) => step matches GuardStep::Finished(Ok(())),
            },
            holdings(step) == (Holdings { task: false, workflow: false }),
    {
        match (workflow, task) {
            (Err(error), _) => GuardStep::Finished(Err(sql_error("Workflow current guard rollback", error.as_str()))),
            (Ok(()), Err(error)) => GuardStep::Finished(Err(sql_error("Task current guard rollback", error.as_str()))),
            (Ok(()), Ok(())) => GuardStep::Finished(Ok(())),
        }
    }
}

/// How the owner of the transactions ended before the caller was told
/// anything.
pub enum WorkerEnd {
    /// It returned.
    Returned(Result<(), HarnessError>),
    /// It was lost.
    Lost(String),
}

/// Error of an acquisition of which the caller was told nothing.
pub fn unannounced(end: WorkerEnd) -> (error: HarnessError)
    ensures
        match end {
            WorkerEnd::Returned(Err(fault)) => error == fault,
            WorkerEnd::Returned(Ok(())) => error@ == ErrorView::Orchestration(
                "SQLite current guard closed before acquisition"@,
            ),
            WorkerEnd::Lost(fault) => error@ == ErrorView::Orchestration("SQLite current guard task failed: "@ + fault@),
        },
{
    match end {
        WorkerEnd::Returned(Err(fault)) => fault,
        WorkerEnd::Returned(Ok(())) => HarnessError::Orchestration(
            "SQLite current guard closed before acquisition".to_owned(),
        ),
        WorkerEnd::Lost(fault) => join_error(fault.as_str()),
    }
}

/// Maps the loss of the owner without exposing snapshots or paths.
pub fn join_error(fault: &str) -> (error: HarnessError)
    ensures
        error@ == ErrorView::Orchestration("SQLite current guard task failed: "@ + fault@),
{
    HarnessError::Orchestration(join2("SQLite current guard task failed: ", fault))
}

/// Reservations are taken in one order: the Workflow store is never held
/// without the Task store, records are read only while both are held, and
/// nothing is held while a guard pauses or once it has ended.
pub proof fn law_reservations_are_taken_in_order(step: GuardStep)
    ensures
        holdings(step).workflow ==> holdings(step).task,
        step is Load || step is Hold ==> holdings(step).task && holdings(step).workflow,
        step is BeginWorkflow ==> holdings(step).task && !holdings(step).workflow,
        step is Pause || step is Finished ==> !holdings(step).task && !holdings(step).workflow,
{
}

/// A guard is taken over two stores that are there and are not the same file,
/// by whatever paths they are reached, for a valid authority.
pub proof fn law_guards_need_two_files(
    authority: AuthorityView,
    task_store: Option<SqliteStoreIdentity>,
    workflow_store: Option<SqliteStoreIdentity>,
)
    ensures
        stores_check(authority, task_store, workflow_store) is Ok <==> {
            &&& authority.check("SQLite current guard authority"@) is Ok
            &&& task_store is Some && workflow_store is Some
            &&& task_store->0.device != workflow_store->0.device || task_store->0.file != workflow_store->0.file
        },
        stores_check(authority, task_store, workflow_store) matches Ok(stores) ==> Some(stores.0) == task_store && Some(
            stores.1,
        ) == workflow_store,
{
}

/// A Workflow Run is paired with the Task Graph it belongs to.
pub proof fn law_pairs_belong_together(task: LoadedTaskGraph, workflow: LoadedWorkflowRun, graph_id: Seq<char>)
    ensures
        is_pair(Some(task), Some(workflow), graph_id) <==> workflow.snapshot.task_graph_id@ == graph_id,
        !is_pair(None, Some(workflow), graph_id),
        !is_pair(Some(task), None, graph_id),
{
}

} // verus!
