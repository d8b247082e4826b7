//! Ordered recording of a Turn: every write is settled before the next one,
//! and a failed write still ends the Turn.

use std::collections::VecDeque;

use vstd::prelude::*;

use crate::error::{ErrorView, HarnessError};
use crate::items::{ConnectorEvidence, Item, ItemKind, Thread, Turn, TurnStatus, TurnStopReason};
use crate::json::{error_object, JsonDocument};
use crate::runtime::steering::{
    application, law_replay_follows_application, pending_steering, ActiveTurnControl, PendingSteering,
};
use crate::runtime::validate::{bounded_diagnostic, bounded_runtime_error};
use crate::text::{join3, join5, same_text};

verus! {

/// Why a Turn is being finished.
pub enum FinishCause {
    /// An item could not be recorded.
    RecordFailed(HarnessError),
    /// A batch of calls could not be recorded.
    CallsFailed(HarnessError),
    /// The evidence of a settlement could not be recorded.
    EvidenceFailed(HarnessError),
    /// The evidence of a settlement is recorded.
    EvidenceRecorded,
}

/// Write that waits for the reply of the store.
pub enum StateWrite {
    /// One item is being appended.
    Recording {
        /// Item to append.
        item: Item,
    },
    /// A batch of calls is being appended at once.
    RecordingCalls {
        /// Calls to append.
        calls: Vec<Item>,
    },
    /// The evidence of a settlement is being appended.
    Settling {
        /// Evidence to append.
        item: Item,
        /// Status that the Turn will have.
        status: TurnStatus,
    },
    /// The Turn is being finished.
    Finishing {
        /// Status that the Turn will have.
        status: TurnStatus,
        /// Why it is being finished.
        cause: FinishCause,
    },
}

/// What has to be asked of the store.
pub enum StoreAction<'a> {
    /// Append one item.
    Append(&'a Item),
    /// Append a batch of calls at once.
    AppendCalls(&'a Vec<Item>),
    /// Finish the Turn.
    Finish(TurnStatus),
}

/// Progress of a write.
pub enum WriteStep {
    /// Another reply of the store is needed.
    Pending(StateWrite),
    /// The write is settled.
    Settled(Result<(), HarnessError>),
}

/// Error that reports two failures in a row.
pub open spec fn double_failure(what: Seq<char>, first: ErrorView, second: ErrorView) -> ErrorView {
    ErrorView::State(what + first.text() + "); terminal settlement also failed ("@ + second.text() + ")"@)
}

fn double_error(what: &str, first: &HarnessError, second: &HarnessError) -> (error: HarnessError)
    ensures
        error@ == double_failure(what@, first@, second@),
{
    let first = first.to_string();
    let second = second.to_string();
    HarnessError::State(
        join5(what, first.as_str(), "); terminal settlement also failed (", second.as_str(), ")"),
    )
}

/// Whether only status and items of a Turn may differ between two states.
pub open spec fn same_identity(a: Turn, b: Turn) -> bool {
    a.id == b.id && a.thread_id == b.thread_id
}

/// Effect of a reply of the store on a write and on the Turn.
pub open spec fn write_reply(
    write: StateWrite,
    before: Turn,
    reply: Result<(), HarnessError>,
    after: Turn,
    step: WriteStep,
) -> bool {
    &&& same_identity(before, after)
    &&& match (write, reply) {
        (StateWrite::Recording { item }, Ok(())) => {
            &&& after.items@ == before.items@.push(item)
            &&& after.status == before.status
            &&& step == WriteStep::Settled(Ok(()))
        },
        (StateWrite::Recording { .. }, Err(failure)) => {
            &&& after == before
            &&& step == WriteStep::Pending(
                StateWrite::Finishing { status: TurnStatus::Failed, cause: FinishCause::RecordFailed(failure) },
            )
        },
        (StateWrite::RecordingCalls { calls }, Ok(())) => {
            &&& after.items@ == before.items@ + calls@
            &&& after.status == before.status
            &&& step == WriteStep::Settled(Ok(()))
        },
        (StateWrite::RecordingCalls { .. }, Err(failure)) => {
            &&& after == before
            &&& step == WriteStep::Pending(
                StateWrite::Finishing { status: TurnStatus::Failed, cause: FinishCause::CallsFailed(failure) },
            )
        },
        (StateWrite::Settling { item, status }, Ok(())) => {
            &&& after.items@ == before.items@.push(item)
            &&& after.status == before.status
            &&& step == WriteStep::Pending(StateWrite::Finishing { status, cause: FinishCause::EvidenceRecorded })
        },
        (StateWrite::Settling { status, .. }, Err(failure)) => {
            &&& after == before
            &&& step == WriteStep::Pending(StateWrite::Finishing { status, cause: FinishCause::EvidenceFailed(failure) })
        },
        (StateWrite::Finishing { status, cause }, Ok(())) => {
            &&& after.items == before.items
            &&& after.status == status
            &&& match cause {
                FinishCause::RecordFailed(failure) => step == WriteStep::Settled(Err(failure)),
                FinishCause::CallsFailed(failure) => step == WriteStep::Settled(Err(failure)),
                FinishCause::EvidenceFailed(_) => step == WriteStep::Settled(Ok(())),
                FinishCause::EvidenceRecorded => step == WriteStep::Settled(Ok(())),
            }
        },
        (StateWrite::Finishing { cause, .. }, Err(failure)) => {
            &&& after == before
            &&& match cause {
                FinishCause::RecordFailed(first) => step matches WriteStep::Settled(Err(error)) && error@
                    == double_failure("State Item append failed ("@, first@, failure@),
                FinishCause::CallsFailed(first) => step matches WriteStep::Settled(Err(error)) && error@
                    == double_failure("State Tool-call batch append failed ("@, first@, failure@),
                FinishCause::EvidenceFailed(first) => step matches WriteStep::Settled(Err(error)) && error@
                    == double_failure("State settlement evidence failed ("@, first@, failure@),
                FinishCause::EvidenceRecorded => step == WriteStep::Settled(Err(failure)),
            }
        },
    }
}

impl StateWrite {
    /// Returns what has to be asked of the store.
    pub fn action(&self) -> (action: StoreAction<'_>)
        ensures
            match *self {
                StateWrite::Recording { item } => action == StoreAction::Append(&item),
                StateWrite::RecordingCalls { calls } => action == StoreAction::AppendCalls(&calls),
                StateWrite::Settling { item, .. } => action == StoreAction::Append(&item),
                StateWrite::Finishing { status, .. } => action == StoreAction::Finish(status),
            },
    {
        match self {
            StateWrite::Recording { item } => StoreAction::Append(item),
            StateWrite::RecordingCalls { calls } => StoreAction::AppendCalls(calls),
            StateWrite::Settling { item, .. } => StoreAction::Append(item),
            StateWrite::Finishing { status, .. } => StoreAction::Finish(*status),
        }
    }

    /// Takes the reply of the store.
    pub fn replied(self, turn: &mut Turn, reply: Result<(), HarnessError>) -> (step: WriteStep)
        ensures
            write_reply(self, *old(turn), reply, *final(turn), step),
    {
        match self {
            StateWrite::Recording { item } => match reply {
                Ok(()) => {
                    turn.items.push(item);
                    WriteStep::Settled(Ok(()))
                },
                Err(failure) => WriteStep::Pending(
                    StateWrite::Finishing { status: TurnStatus::Failed, cause: FinishCause::RecordFailed(failure) },
                ),
            },
            StateWrite::RecordingCalls { calls } => match reply {
                Ok(()) => {
                    let mut calls = calls;
                    turn.items.append(&mut calls);
                    WriteStep::Settled(Ok(()))
                },
                Err(failure) => WriteStep::Pending(
                    StateWrite::Finishing { status: TurnStatus::Failed, cause: FinishCause::CallsFailed(failure) },
                ),
            },
            StateWrite::Settling { item, status } => match reply {
                Ok(()) => {
                    turn.items.push(item);
                    WriteStep::Pending(StateWrite::Finishing { status, cause: FinishCause::EvidenceRecorded })
                },
                Err(failure) => WriteStep::Pending(
                    StateWrite::Finishing { status, cause: FinishCause::EvidenceFailed(failure) },
                ),
            },
            StateWrite::Finishing { status, cause } => match reply {
                Ok(()) => {
                    turn.status = status;
                    match cause {
                        FinishCause::RecordFailed(failure) => WriteStep::Settled(Err(failure)),
                        FinishCause::CallsFailed(failure) => WriteStep::Settled(Err(failure)),
                        FinishCause::EvidenceFailed(_) => WriteStep::Settled(Ok(())),
                        FinishCause::EvidenceRecorded => WriteStep::Settled(Ok(())),
                    }
                },
                Err(failure) => match cause {
                    FinishCause::RecordFailed(first) => WriteStep::Settled(
                        Err(double_error("State Item append failed (", &first, &failure)),
                    ),
                    FinishCause::CallsFailed(first) => WriteStep::Settled(
                        Err(double_error("State Tool-call batch append failed (", &first, &failure)),
                    ),
                    FinishCause::EvidenceFailed(first) => WriteStep::Settled(
                        Err(double_error("State settlement evidence failed (", &first, &failure)),
                    ),
                    FinishCause::EvidenceRecorded => WriteStep::Settled(Err(failure)),
                },
            },
        }
    }
}

/// Status that a Turn has after an error.
pub open spec fn status_after(error: ErrorView) -> TurnStatus {
    match error {
        ErrorView::Cancelled(_) => TurnStatus::Cancelled,
        ErrorView::TimedOut(_) => TurnStatus::TimedOut,
        _ => TurnStatus::Failed,
    }
}

/// Whether an item is the evidence of an error.
pub open spec fn is_evidence_of(kind: ItemKind, error: ErrorView) -> bool {
    match error {
        ErrorView::Cancelled(phase) => kind == (ItemKind::TurnStopped { reason: TurnStopReason::Cancelled, phase }),
        ErrorView::TimedOut(phase) => kind == (ItemKind::TurnStopped { reason: TurnStopReason::TimedOut, phase }),
        _ => kind matches ItemKind::RuntimeError { message } && message@ == bounded_diagnostic(error.text()),
    }
}

/// Begins to settle a Turn that ended with an error. No steering is accepted
/// any more.
pub fn settle_error(turn: &Turn, control: &mut ActiveTurnControl, error: &HarnessError) -> (result: Result<
    StateWrite,
    HarnessError,
>)
    ensures
        final(control).same_turn(*old(control)),
        final(control).pending() == old(control).pending(),
        if old(control).turn() == turn.id@ {
            result matches Ok(StateWrite::Settling { item, status }) && status == status_after(error@) && is_evidence_of(
                item.kind,
                error@,
            ) && item == (Item { kind: item.kind, replaces_reply: false }) && !final(control).accepting()
        } else {
            result matches Err(fault) && fault@ == ErrorView::State(
                "Turn control "@ + old(control).turn() + " does not match active turn "@ + turn.id@,
            ) && final(control).accepting() == old(control).accepting()
        },
{
    if let Err(fault) = control.require_turn(turn) {
        return Err(fault);
    }
    control.seal();
    let (kind, status) = match error {
        HarnessError::Cancelled { phase } => (
            ItemKind::TurnStopped { reason: TurnStopReason::Cancelled, phase: *phase },
            TurnStatus::Cancelled,
        ),
        HarnessError::TimedOut { phase } => (
            ItemKind::TurnStopped { reason: TurnStopReason::TimedOut, phase: *phase },
            TurnStatus::TimedOut,
        ),
        _ => {
            let text = error.to_string();
            (ItemKind::RuntimeError { message: bounded_runtime_error(text.as_str()) }, TurnStatus::Failed)
        },
    };
    Ok(StateWrite::Settling { item: Item::new(kind), status })
}

/// Whatever the store replies to the evidence of a settlement, the store is
/// asked next to finish the Turn with the status of the error.
pub proof fn law_settlement_always_finishes(
    item: Item,
    status: TurnStatus,
    before: Turn,
    reply: Result<(), HarnessError>,
    after: Turn,
    step: WriteStep,
)
    requires
        write_reply(StateWrite::Settling { item, status }, before, reply, after, step),
    ensures
        step matches WriteStep::Pending(StateWrite::Finishing { status: wanted, .. }) && wanted == status,
{
}

/// A write that cannot be recorded asks the store next to fail the Turn.
pub proof fn law_failed_write_fails_the_turn(
    write: StateWrite,
    failure: HarnessError,
    before: Turn,
    after: Turn,
    step: WriteStep,
)
    requires
        write is Recording || write is RecordingCalls,
        write_reply(write, before, Err(failure), after, step),
    ensures
        after == before,
        step matches WriteStep::Pending(StateWrite::Finishing { status, .. }) && status == TurnStatus::Failed,
{
}

/// The store is asked at most twice for one write.
pub proof fn law_write_settles_after_two_replies(
    write: StateWrite,
    before: Turn,
    first: Result<(), HarnessError>,
    middle: Turn,
    pending: StateWrite,
    second: Result<(), HarnessError>,
    after: Turn,
    step: WriteStep,
)
    requires
        write_reply(write, before, first, middle, WriteStep::Pending(pending)),
        write_reply(pending, middle, second, after, step),
    ensures
        step is Settled,
{
}

/// How a recording ended.
#[derive(Clone, Copy, PartialEq, Eq, Structural)]
pub struct JournalOutcome {
    /// Whether steering was applied in place of, or behind, the recording.
    pub superseded: bool,
    /// Model step whose provisional output is no longer current.
    pub invalidated_step: Option<u32>,
}

/// Recording that waits for the reply of the store.
pub struct Writing {
    write: StateWrite,
    rest: VecDeque<StateWrite>,
    application: bool,
    apply: bool,
    invalidate: Option<u32>,
}

/// Recording that waits for the Turn as the store has it.
pub struct Reloading {
    invalidate: Option<u32>,
}

/// Progress of a recording.
pub enum JournalStep {
    /// The store has to be asked to write.
    Write(Writing),
    /// The store has to be asked for the Thread.
    Reload(Reloading),
    /// The recording is settled.
    Done(Result<JournalOutcome, HarnessError>),
}

impl Writing {
    /// Write that waits for the reply of the store.
    pub closed spec fn write(self) -> StateWrite {
        self.write
    }

    /// Writes that follow.
    pub closed spec fn rest(self) -> Seq<StateWrite> {
        self.rest@
    }

    /// Whether the write makes waiting steering visible.
    pub closed spec fn is_application(self) -> bool {
        self.application
    }

    /// Whether waiting steering is applied behind the writes.
    pub closed spec fn applies(self) -> bool {
        self.apply
    }

    /// Model step whose provisional output is no longer current in the end.
    pub closed spec fn invalidates(self) -> Option<u32> {
        self.invalidate
    }

    /// Returns what has to be asked of the store.
    pub fn action(&self) -> (action: StoreAction<'_>)
        ensures
            match self.write() {
                StateWrite::Recording { item } => action == StoreAction::Append(&item),
                StateWrite::RecordingCalls { calls } => action == StoreAction::AppendCalls(&calls),
                StateWrite::Settling { item, .. } => action == StoreAction::Append(&item),
                StateWrite::Finishing { status, .. } => action == StoreAction::Finish(status),
            },
    {
        self.write.action()
    }
}

impl Reloading {
    /// Model step whose provisional output is no longer current in the end.
    pub closed spec fn invalidates(self) -> Option<u32> {
        self.invalidate
    }
}

/// What follows once all writes so far have succeeded: the next planned
/// write, then the waiting steering in order, then the Turn is read again.
/// Steering that overtakes a Model reply is written in its place.
pub open spec fn proceeds(
    rest: Seq<StateWrite>,
    apply: bool,
    invalidate: Option<u32>,
    overtakes: bool,
    pending: Seq<PendingSteering>,
    step: JournalStep,
) -> bool {
    if rest.len() > 0 {
        step matches JournalStep::Write(next) && next.write() == rest[0] && next.rest() == rest.drop_first()
            && !next.is_application() && next.applies() == apply && next.invalidates() == invalidate
    } else if !apply {
        step == JournalStep::Done(Ok(JournalOutcome { superseded: false, invalidated_step: None }))
    } else if pending.len() > 0 {
        step matches JournalStep::Write(next) && next.is_application() && next.rest().len() == 0 && next.applies()
            && next.invalidates() == invalidate && records_applied(next.write(), application(pending[0]), overtakes)
    } else {
        step matches JournalStep::Reload(next) && next.invalidates() == invalidate
    }
}

/// Whether a write appends one item of this kind.
pub open spec fn records(write: StateWrite, kind: ItemKind) -> bool {
    write == (StateWrite::Recording { item: Item { kind, replaces_reply: false } })
}

/// Whether a write appends one item of this kind, in place of a Model reply or
/// not.
pub open spec fn records_applied(write: StateWrite, kind: ItemKind, overtakes: bool) -> bool {
    write == (StateWrite::Recording { item: Item { kind, replaces_reply: overtakes } })
}

fn proceed(
    rest: VecDeque<StateWrite>,
    apply: bool,
    invalidate: Option<u32>,
    overtakes: bool,
    control: &ActiveTurnControl,
) -> (step: JournalStep)
    ensures
        proceeds(rest@, apply, invalidate, overtakes, control.pending(), step),
{
    let mut rest = rest;
    let ghost planned = rest@;
    match rest.pop_front() {
        Some(write) => {
            assert(rest@ =~= planned.drop_first());
            JournalStep::Write(Writing { write, rest, application: false, apply, invalidate })
        },
        None => {
            if !apply {
                return JournalStep::Done(Ok(JournalOutcome { superseded: false, invalidated_step: None }));
            }
            match control.next_application() {
                Some(kind) => JournalStep::Write(
                    Writing {
                        write: StateWrite::Recording {
                            item: if overtakes {
                                Item::replacing(kind)
                            } else {
                                Item::new(kind)
                            },
                        },
                        rest,
                        application: true,
                        apply,
                        invalidate,
                    },
                ),
                None => JournalStep::Reload(Reloading { invalidate }),
            }
        },
    }
}

/// Effect of a reply of the store on a recording, once its effect on the
/// single write is known. Every failure stops steering.
pub open spec fn recording_reply(
    writing: Writing,
    write_step: WriteStep,
    before: ActiveTurnControl,
    after: ActiveTurnControl,
    step: JournalStep,
) -> bool {
    match write_step {
        WriteStep::Pending(write) => {
            &&& after == before
            &&& step matches JournalStep::Write(next) && next.write() == write && next.rest() == writing.rest()
                && next.is_application() == writing.is_application() && next.applies() == writing.applies()
                && next.invalidates() == writing.invalidates()
        },
        WriteStep::Settled(Err(error)) => {
            &&& after.same_turn(before)
            &&& after.pending() == before.pending()
            &&& !after.accepting()
            &&& step == JournalStep::Done(Err(error))
        },
        WriteStep::Settled(Ok(())) => {
            &&& after.same_turn(before)
            &&& after.accepting() == before.accepting()
            &&& after.pending() == if writing.is_application() && before.pending().len() > 0 {
                before.pending().drop_first()
            } else {
                before.pending()
            }
            &&& proceeds(writing.rest(), writing.applies(), writing.invalidates(), false, after.pending(), step)
        },
    }
}

impl Writing {
    /// Takes the reply of the store.
    pub fn written(self, turn: &mut Turn, control: &mut ActiveTurnControl, reply: Result<(), HarnessError>) -> (step:
        JournalStep)
        ensures
            exists|write_step: WriteStep| #[trigger] write_reply(self.write(), *old(turn), reply, *final(turn), write_step)
                && recording_reply(self, write_step, *old(control), *final(control), step),
    {
        let Writing { write, rest, application, apply, invalidate } = self;
        let write_step = write.replied(turn, reply);
        let ghost settled = write_step;
        let step = match write_step {
            WriteStep::Pending(write) => JournalStep::Write(Writing { write, rest, application, apply, invalidate }),
            WriteStep::Settled(Err(error)) => {
                control.seal();
                JournalStep::Done(Err(error))
            },
            WriteStep::Settled(Ok(())) => {
                if application {
                    control.application_recorded();
                }
                proceed(rest, apply, invalidate, false, control)
            },
        };
        proof {
            assert(write_reply(self.write(), *old(turn), reply, *turn, settled));
            assert(recording_reply(self, settled, *old(control), *control, step));
        }
        step
    }
}

/// Index of the first Turn with this identity, from `n` on.
pub open spec fn turn_index(turns: Seq<Turn>, id: Seq<char>, n: int) -> Option<int>
    decreases turns.len() - n,
{
    if n < 0 || n >= turns.len() {
        None
    } else if turns[n].id@ == id {
        Some(n)
    } else {
        turn_index(turns, id, n + 1)
    }
}

pub(crate) fn find_turn(turns: &Vec<Turn>, id: &str) -> (index: Option<usize>)
    ensures
        match index {
            Some(index) => turn_index(turns@, id@, 0) == Some(index as int) && index < turns@.len(),
            None => turn_index(turns@, id@, 0) is None,
        },
{
    let mut n: usize = 0;
    while n < turns.len()
        invariant
            n <= turns@.len(),
            turn_index(turns@, id@, 0) == turn_index(turns@, id@, n as int),
        decreases turns@.len() - n,
    {
        if same_text(turns[n].id.as_str(), id) {
            return Some(n);
        }
        n += 1;
    }
    None
}

/// What reading a Turn again gives.
pub open spec fn reloaded_turn(reply: Result<Option<Thread>, HarnessError>, before: Turn) -> Result<Turn, ErrorView> {
    match reply {
        Err(error) => Err(error@),
        Ok(None) => Err(ErrorView::State("thread "@ + before.thread_id@ + " disappeared"@)),
        Ok(Some(thread)) => match turn_index(thread.turns@, before.id@, 0) {
            Some(index) => Ok(thread.turns@[index]),
            None => Err(ErrorView::State("turn "@ + before.id@ + " disappeared"@)),
        },
    }
}

/// Effect of reading a Turn again.
pub open spec fn reload_reply(
    reloading: Reloading,
    before: Turn,
    reply: Result<Option<Thread>, HarnessError>,
    after: Turn,
    control: ActiveTurnControl,
    next: ActiveTurnControl,
    step: JournalStep,
) -> bool {
    &&& next.same_turn(control)
    &&& next.pending() == control.pending()
    &&& match reloaded_turn(reply, before) {
        Ok(current) => after == current && next.accepting() == control.accepting() && step == JournalStep::Done(
            Ok(JournalOutcome { superseded: true, invalidated_step: reloading.invalidates() }),
        ),
        Err(fault) => step matches JournalStep::Done(Err(error)) && error@ == fault && after == before
            && !next.accepting(),
    }
}

impl Reloading {
    /// Takes the Thread as the store has it.
    pub fn reloaded(self, turn: &mut Turn, control: &mut ActiveTurnControl, reply: Result<Option<Thread>, HarnessError>) -> (step:
        JournalStep)
        ensures
            reload_reply(self, *old(turn), reply, *final(turn), *old(control), *final(control), step),
    {
        let thread = match reply {
            Ok(Some(thread)) => thread,
            Ok(None) => {
                control.seal();
                return JournalStep::Done(
                    Err(HarnessError::State(join3("thread ", turn.thread_id.as_str(), " disappeared"))),
                );
            },
            Err(error) => {
                control.seal();
                return JournalStep::Done(Err(error));
            },
        };
        match find_turn(&thread.turns, turn.id.as_str()) {
            Some(index) => {
                let mut turns = thread.turns;
                *turn = turns.swap_remove(index);
                JournalStep::Done(Ok(JournalOutcome { superseded: true, invalidated_step: self.invalidate }))
            },
            None => {
                control.seal();
                JournalStep::Done(Err(HarnessError::State(join3("turn ", turn.id.as_str(), " disappeared"))))
            },
        }
    }
}

/// Error of recording into a Turn that another control belongs to.
pub open spec fn foreign_control(control: ActiveTurnControl, turn: Turn) -> ErrorView {
    ErrorView::State("Turn control "@ + control.turn() + " does not match active turn "@ + turn.id@)
}

/// How recording one item begins.
pub open spec fn record_begins(turn: Turn, control: ActiveTurnControl, kind: ItemKind, step: JournalStep) -> bool {
    if control.turn() == turn.id@ {
        step matches JournalStep::Write(writing) && records(writing.write(), kind) && writing.rest().len() == 0
            && !writing.is_application() && !writing.applies()
    } else {
        step matches JournalStep::Done(Err(error)) && error@ == foreign_control(control, turn)
    }
}

/// Begins to record one item.
pub fn record(turn: &Turn, control: &ActiveTurnControl, kind: ItemKind) -> (step: JournalStep)
    ensures
        record_begins(*turn, *control, kind, step),
{
    if let Err(error) = control.require_turn(turn) {
        return JournalStep::Done(Err(error));
    }
    JournalStep::Write(
        Writing {
            write: StateWrite::Recording { item: Item::new(kind) },
            rest: VecDeque::new(),
            application: false,
            apply: false,
            invalidate: None,
        },
    )
}

/// How applying waiting steering begins.
pub open spec fn application_begins(
    turn: Turn,
    control: ActiveTurnControl,
    invalidated_model_step: Option<u32>,
    step: JournalStep,
) -> bool {
    if control.turn() != turn.id@ {
        step matches JournalStep::Done(Err(error)) && error@ == foreign_control(control, turn)
    } else if control.pending().len() == 0 {
        step == JournalStep::Done(Ok(JournalOutcome { superseded: false, invalidated_step: None }))
    } else {
        proceeds(Seq::empty(), true, invalidated_model_step, false, control.pending(), step)
    }
}

/// Begins to apply waiting steering. Where none waits, the Turn may be closed
/// to further steering.
pub fn apply_pending_steering(
    turn: &Turn,
    control: &mut ActiveTurnControl,
    seal_if_empty: bool,
    invalidated_model_step: Option<u32>,
) -> (step: JournalStep)
    ensures
        final(control).same_turn(*old(control)),
        final(control).pending() == old(control).pending(),
        final(control).accepting() == (old(control).accepting() && !(seal_if_empty && old(control).turn() == turn.id@ && old(
            control,
        ).pending().len() == 0)),
        application_begins(*turn, *old(control), invalidated_model_step, step),
{
    if let Err(error) = control.require_turn(turn) {
        return JournalStep::Done(Err(error));
    }
    if !control.has_pending() {
        if seal_if_empty {
            control.seal();
        }
        return JournalStep::Done(Ok(JournalOutcome { superseded: false, invalidated_step: None }));
    }
    let rest: VecDeque<StateWrite> = VecDeque::new();
    assert(rest@ =~= Seq::<StateWrite>::empty());
    proceed(rest, true, invalidated_model_step, false, control)
}

/// Output recorded for a call that steering overtook.
pub open spec fn superseded_output() -> Seq<char> {
    error_object("tool call superseded by user steering before execution"@)
}

/// Whether a write records that steering overtook a call.
pub open spec fn records_supersession(write: StateWrite, call_id: Seq<char>) -> bool {
    &&& write matches StateWrite::Recording { item }
    &&& !item.replaces_reply
    &&& item.kind matches ItemKind::ToolResult { call_id: id, output, is_error, connector_evidence }
    &&& id@ == call_id
    &&& output@ == superseded_output()
    &&& is_error
    &&& connector_evidence@.len() == 0
}

/// Whether writes record that steering overtook these calls, in order.
pub open spec fn supersession_writes(writes: Seq<StateWrite>, call_ids: Seq<&str>) -> bool {
    writes.len() == call_ids.len() && forall|k: int|
        0 <= k < writes.len() ==> records_supersession(#[trigger] writes[k], call_ids[k]@)
}

/// How giving up calls that have not run yet begins.
pub open spec fn supersession_begins(
    turn: Turn,
    control: ActiveTurnControl,
    call_ids: Seq<&str>,
    step: JournalStep,
) -> bool {
    if control.turn() != turn.id@ {
        step matches JournalStep::Done(Err(error)) && error@ == foreign_control(control, turn)
    } else if control.pending().len() == 0 {
        step == JournalStep::Done(Ok(JournalOutcome { superseded: false, invalidated_step: None }))
    } else {
        exists|writes: Seq<StateWrite>| #[trigger]
            proceeds(writes, true, None, false, control.pending(), step) && supersession_writes(writes, call_ids)
    }
}

/// Begins to give up calls that have not run yet, where steering waits: each
/// call gets an error result, in order, before the steering is applied.
pub fn supersede_tool_calls_before_effect(turn: &Turn, control: &ActiveTurnControl, call_ids: &Vec<&str>) -> (step: JournalStep)
    ensures
        supersession_begins(*turn, *control, call_ids@, step),
{
    if let Err(error) = control.require_turn(turn) {
        return JournalStep::Done(Err(error));
    }
    if !control.has_pending() {
        return JournalStep::Done(Ok(JournalOutcome { superseded: false, invalidated_step: None }));
    }
    let mut writes: VecDeque<StateWrite> = VecDeque::new();
    let mut i: usize = 0;
    while i < call_ids.len()
        invariant
            i <= call_ids@.len(),
            writes@.len() == i,
            forall|k: int| 0 <= k < i ==> records_supersession(#[trigger] writes@[k], call_ids@[k]@),
        decreases call_ids@.len() - i,
    {
        let ghost before = writes@;
        let output = JsonDocument::error("tool call superseded by user steering before execution");
        let connector_evidence: Vec<ConnectorEvidence> = Vec::new();
        writes.push_back(
            StateWrite::Recording {
                item: Item::new(
                    ItemKind::ToolResult { call_id: call_ids[i].to_owned(), output, is_error: true, connector_evidence },
                ),
            },
        );
        assert forall|k: int| 0 <= k < i + 1 implies records_supersession(#[trigger] writes@[k], call_ids@[k]@) by {
            if k < i {
                assert(writes@[k] == before[k]);
            }
        }
        i += 1;
    }
    let ghost planned = writes@;
    let step = proceed(writes, true, None, false, control);
    assert(proceeds(planned, true, None, false, control.pending(), step));
    step
}

/// Writes that record a decision of a Model behind its Provider state.
pub open spec fn decision_writes(continuation: Option<ItemKind>, writes: Seq<StateWrite>) -> bool {
    match continuation {
        Some(kind) => writes.len() == 2 && records(writes[0], kind),
        None => writes.len() == 1,
    }
}

fn planned_continuation(continuation: Option<ItemKind>) -> (writes: VecDeque<StateWrite>)
    ensures
        match continuation {
            Some(kind) => writes@.len() == 1 && records(writes@[0], kind),
            None => writes@.len() == 0,
        },
{
    let mut writes: VecDeque<StateWrite> = VecDeque::new();
    if let Some(kind) = continuation {
        writes.push_back(StateWrite::Recording { item: Item::new(kind) });
    }
    writes
}

/// How recording a decision of a Model begins.
pub open spec fn decision_begins(
    turn: Turn,
    control: ActiveTurnControl,
    model_step: u32,
    continuation: Option<ItemKind>,
    decision: ItemKind,
    step: JournalStep,
) -> bool {
    if control.turn() != turn.id@ {
        step matches JournalStep::Done(Err(error)) && error@ == foreign_control(control, turn)
    } else if control.pending().len() > 0 {
        proceeds(Seq::empty(), true, Some(model_step), true, control.pending(), step)
    } else {
        exists|writes: Seq<StateWrite>| #[trigger]
            proceeds(writes, false, None, false, control.pending(), step) && decision_writes(continuation, writes)
                && records(writes.last(), decision)
    }
}

/// Begins to record a decision of a Model, unless steering waits: then the
/// decision is dropped, the steering is applied in its place and the
/// provisional output of the step is no longer current.
pub fn record_model_decision_if_current(
    turn: &Turn,
    control: &ActiveTurnControl,
    model_step: u32,
    continuation: Option<ItemKind>,
    decision: ItemKind,
) -> (step: JournalStep)
    ensures
        decision_begins(*turn, *control, model_step, continuation, decision, step),
{
    if let Err(error) = control.require_turn(turn) {
        return JournalStep::Done(Err(error));
    }
    if control.has_pending() {
        let rest: VecDeque<StateWrite> = VecDeque::new();
        assert(rest@ =~= Seq::<StateWrite>::empty());
        return proceed(rest, true, Some(model_step), true, control);
    }
    let mut writes = planned_continuation(continuation);
    writes.push_back(StateWrite::Recording { item: Item::new(decision) });
    let ghost planned = writes@;
    let step = proceed(writes, false, None, false, control);
    assert(proceeds(planned, false, None, false, control.pending(), step));
    step
}

/// Whether a write appends items of these kinds at once.
pub open spec fn records_calls(write: StateWrite, kinds: Seq<ItemKind>) -> bool {
    write matches StateWrite::RecordingCalls { calls } && calls@.len() == kinds.len() && forall|k: int|
        0 <= k < kinds.len() ==> #[trigger] calls@[k] == (Item { kind: kinds[k], replaces_reply: false })
}

/// How recording a batch of calls of a Model begins.
pub open spec fn batch_begins(
    turn: Turn,
    control: ActiveTurnControl,
    model_step: u32,
    continuation: Option<ItemKind>,
    decisions: Seq<ItemKind>,
    step: JournalStep,
) -> bool {
    if control.turn() != turn.id@ {
        step matches JournalStep::Done(Err(error)) && error@ == foreign_control(control, turn)
    } else if control.pending().len() > 0 {
        proceeds(Seq::empty(), true, Some(model_step), true, control.pending(), step)
    } else {
        exists|writes: Seq<StateWrite>| #[trigger]
            proceeds(writes, false, None, false, control.pending(), step) && decision_writes(continuation, writes)
                && records_calls(writes.last(), decisions)
    }
}

/// Begins to record a batch of calls of a Model at once, unless steering
/// waits: then the calls are dropped and the steering is applied in their
/// place.
pub fn record_model_tool_batch_if_current(
    turn: &Turn,
    control: &ActiveTurnControl,
    model_step: u32,
    continuation: Option<ItemKind>,
    decisions: Vec<ItemKind>,
) -> (step: JournalStep)
    ensures
        batch_begins(*turn, *control, model_step, continuation, decisions@, step),
{
    if let Err(error) = control.require_turn(turn) {
        return JournalStep::Done(Err(error));
    }
    if control.has_pending() {
        let rest: VecDeque<StateWrite> = VecDeque::new();
        assert(rest@ =~= Seq::<StateWrite>::empty());
        return proceed(rest, true, Some(model_step), true, control);
    }
    let mut writes = planned_continuation(continuation);
    let ghost kinds = decisions@;
    let mut backwards: Vec<ItemKind> = decisions;
    let mut reversed: Vec<ItemKind> = Vec::new();
    let total: usize = backwards.len();
    let mut i: usize = 0;
    while i < total
        invariant
            i <= total == kinds.len(),
            backwards@ == kinds.take(total - i),
            reversed@.len() == i,
            forall|k: int| 0 <= k < i ==> #[trigger] reversed@[k] == kinds[total - 1 - k],
        decreases total - i,
    {
        if let Some(kind) = backwards.pop() {
            reversed.push(kind);
        }
        i += 1;
    }
    let mut calls: Vec<Item> = Vec::new();
    let mut n: usize = 0;
    while n < total
        invariant
            n <= total == kinds.len(),
            reversed@.len() == total - n,
            forall|k: int| 0 <= k < total - n ==> #[trigger] reversed@[k] == kinds[total - 1 - k],
            calls@.len() == n,
            forall|k: int| 0 <= k < n ==> #[trigger] calls@[k] == (Item { kind: kinds[k], replaces_reply: false }),
        decreases total - n,
    {
        if let Some(kind) = reversed.pop() {
            calls.push(Item::new(kind));
        }
        n += 1;
    }
    writes.push_back(StateWrite::RecordingCalls { calls });
    let ghost planned = writes@;
    let step = proceed(writes, false, None, false, control);
    assert(records_calls(planned.last(), kinds));
    assert(proceeds(planned, false, None, false, control.pending(), step));
    step
}

/// Applying steering keeps journal and queue in step: while the replay of the
/// journal is the queue, it still is after the next application is recorded.
pub proof fn law_application_keeps_queue_and_journal_in_step(
    writing: Writing,
    before: Turn,
    after: Turn,
    control: ActiveTurnControl,
    next: ActiveTurnControl,
    write_step: WriteStep,
    step: JournalStep,
    overtakes: bool,
)
    requires
        writing.is_application(),
        control.pending().len() > 0,
        records_applied(writing.write(), application(control.pending()[0]), overtakes),
        pending_steering(before.items@) == Ok::<Seq<PendingSteering>, ErrorView>(control.pending()),
        write_reply(writing.write(), before, Ok(()), after, write_step),
        recording_reply(writing, write_step, control, next, step),
    ensures
        pending_steering(after.items@) == Ok::<Seq<PendingSteering>, ErrorView>(next.pending()),
        next.pending() == control.pending().drop_first(),
{
    match writing.write() {
        StateWrite::Recording { item } => {
            law_replay_follows_application(before.items@, control.pending(), item);
        },
        _ => {},
    }
}

/// What the store accepts is in the journal, at its end and nowhere else, and
/// the Turn goes on as it was.
pub proof fn law_accepted_writes_are_kept(write: StateWrite, before: Turn, after: Turn, step: WriteStep)
    requires
        write_reply(write, before, Ok(()), after, step),
    ensures
        after.id == before.id && after.thread_id == before.thread_id,
        match write {
            StateWrite::Recording { item } => after.items@ == before.items@.push(item) && after.status == before.status && step
                == WriteStep::Settled(Ok(())),
            StateWrite::RecordingCalls { calls } => after.items@ == before.items@ + calls@ && after.status == before.status
                && step == WriteStep::Settled(Ok(())),
            StateWrite::Settling { item, .. } => after.items@ == before.items@.push(item) && after.status == before.status,
            StateWrite::Finishing { status, .. } => after.items@ == before.items@ && after.status == status,
        },
{
}

/// A record that the store refuses fails the Turn: the journal stays as it
/// was, the Turn ends as failed, and the refusal is what is reported. Where
/// that end is refused as well the Turn stays open, and both are reported.
pub proof fn law_refused_records_fail_the_turn(
    write: StateWrite,
    failure: HarnessError,
    before: Turn,
    middle: Turn,
    pending: StateWrite,
    second: Result<(), HarnessError>,
    after: Turn,
    step: WriteStep,
)
    requires
        write is Recording || write is RecordingCalls,
        write_reply(write, before, Err(failure), middle, WriteStep::Pending(pending)),
        write_reply(pending, middle, second, after, step),
    ensures
        after.items@ == before.items@,
        second is Ok ==> after.status == TurnStatus::Failed && step == WriteStep::Settled(Err(failure)),
        second is Err ==> after.status == before.status && (step matches WriteStep::Settled(Err(_))),
{
}

/// A Turn that ends takes the status it was to have, with its evidence in the
/// journal where the store took it, and without a fault as long as the end
/// itself is recorded.
pub proof fn law_ended_turns_have_their_status(
    item: Item,
    status: TurnStatus,
    before: Turn,
    first: Result<(), HarnessError>,
    middle: Turn,
    pending: StateWrite,
    after: Turn,
    step: WriteStep,
)
    requires
        write_reply(StateWrite::Settling { item, status }, before, first, middle, WriteStep::Pending(pending)),
        write_reply(pending, middle, Ok(()), after, step),
    ensures
        after.status == status,
        after.items@ == (if first is Ok {
            before.items@.push(item)
        } else {
            before.items@
        }),
        step == WriteStep::Settled(Ok(())),
{
}

/// A cancelled Turn ends as cancelled, one that ran out of time as timed out,
/// each with the phase it was stopped in; every other fault fails the Turn
/// with a bounded account of it.
pub proof fn law_faults_decide_the_status(error: ErrorView, kind: ItemKind)
    requires
        is_evidence_of(kind, error),
    ensures
        match error {
            ErrorView::Cancelled(phase) => status_after(error) == TurnStatus::Cancelled && kind == (ItemKind::TurnStopped {
                reason: TurnStopReason::Cancelled,
                phase,
            }),
            ErrorView::TimedOut(phase) => status_after(error) == TurnStatus::TimedOut && kind == (ItemKind::TurnStopped {
                reason: TurnStopReason::TimedOut,
                phase,
            }),
            _ => status_after(error) == TurnStatus::Failed && (kind matches ItemKind::RuntimeError { message } && message@.len()
                <= 4097 && (error.text().len() <= 4096 ==> message@ == error.text()) && (error.text().len() > 4096
                ==> message@.take(4096) == error.text().take(4096))),
        },
{
    reveal_strlit("\u{2026}");
    if error.text().len() > 4096 {
        assert(bounded_diagnostic(error.text()).take(4096) =~= error.text().take(4096));
    }
}

/// Where no steering waits, a decision of a Model is recorded: the Provider
/// state first, where there is some, then the decision, and nothing else.
pub proof fn law_current_decisions_are_recorded(
    turn: Turn,
    control: ActiveTurnControl,
    model_step: u32,
    continuation: Option<ItemKind>,
    decision: ItemKind,
    first: JournalStep,
    control_after: ActiveTurnControl,
    second: JournalStep,
    control_last: ActiveTurnControl,
    third: JournalStep,
)
    requires
        control.turn() == turn.id@,
        control.pending().len() == 0,
        decision_begins(turn, control, model_step, continuation, decision, first),
        first matches JournalStep::Write(writing) ==> recording_reply(
            writing,
            WriteStep::Settled(Ok(())),
            control,
            control_after,
            second,
        ),
        second matches JournalStep::Write(writing) ==> recording_reply(
            writing,
            WriteStep::Settled(Ok(())),
            control_after,
            control_last,
            third,
        ),
    ensures
        first is Write,
        match continuation {
            None => first->Write_0.write() == (StateWrite::Recording { item: Item { kind: decision, replaces_reply: false } })
                && second == JournalStep::Done(Ok(JournalOutcome { superseded: false, invalidated_step: None })),
            Some(state) => first->Write_0.write() == (StateWrite::Recording {
                item: Item { kind: state, replaces_reply: false },
            }) && (second matches JournalStep::Write(writing) && writing.write() == (StateWrite::Recording {
                item: Item { kind: decision, replaces_reply: false },
            })) && third == JournalStep::Done(Ok(JournalOutcome { superseded: false, invalidated_step: None })),
        },
{
    let writes = choose|writes: Seq<StateWrite>| #[trigger]
        proceeds(writes, false, None, false, control.pending(), first) && decision_writes(continuation, writes) && records(
            writes.last(),
            decision,
        );
    assert(writes.len() > 0);
    match continuation {
        None => {
            assert(writes.last() == writes[0]);
        },
        Some(_) => {
            assert(writes.drop_first()[0] == writes[1] && writes.last() == writes[1]);
        },
    }
}

/// Steering that waits overtakes a decision: in place of the reply its first
/// message is recorded as applied, and the step of the Model is given up. The
/// same holds for a batch.
pub proof fn law_waiting_steering_overtakes_decisions(
    turn: Turn,
    control: ActiveTurnControl,
    model_step: u32,
    continuation: Option<ItemKind>,
    decision: ItemKind,
    decisions: Seq<ItemKind>,
    step: JournalStep,
)
    requires
        control.turn() == turn.id@,
        control.pending().len() > 0,
        decision_begins(turn, control, model_step, continuation, decision, step) || batch_begins(
            turn,
            control,
            model_step,
            continuation,
            decisions,
            step,
        ),
    ensures
        step matches JournalStep::Write(writing) && writing.write() == (StateWrite::Recording {
            item: Item {
                kind: ItemKind::SteeringApplied {
                    steering_id: control.pending()[0].steering_id,
                    content: control.pending()[0].content,
                },
                replaces_reply: true,
            },
        }) && writing.is_application() && writing.rest().len() == 0 && writing.applies() && writing.invalidates() == Some(
            model_step,
        ),
{
}

/// Steering is applied to the last message, in the order in which it was
/// queued; then the Turn is read again and its step reported as superseded.
pub proof fn law_steering_is_applied_in_order(
    writing: Writing,
    control: ActiveTurnControl,
    after: ActiveTurnControl,
    step: JournalStep,
)
    requires
        writing.is_application(),
        writing.applies(),
        writing.rest().len() == 0,
        control.pending().len() > 0,
        recording_reply(writing, WriteStep::Settled(Ok(())), control, after, step),
    ensures
        after.pending() == control.pending().skip(1),
        control.pending().len() > 1 ==> (step matches JournalStep::Write(next) && next.write() == (StateWrite::Recording {
            item: Item {
                kind: ItemKind::SteeringApplied {
                    steering_id: control.pending()[1].steering_id,
                    content: control.pending()[1].content,
                },
                replaces_reply: false,
            },
        }) && next.is_application() && next.applies() && next.rest().len() == 0 && next.invalidates()
            == writing.invalidates()),
        control.pending().len() == 1 ==> (step matches JournalStep::Reload(next) && next.invalidates()
            == writing.invalidates()),
{
    assert(control.pending().drop_first() =~= control.pending().skip(1));
}

/// A Turn that is read again is the one with its identity in the Thread that
/// came back, and the step is then superseded.
pub proof fn law_reloaded_turns_are_current(
    reloading: Reloading,
    before: Turn,
    thread: Thread,
    at: int,
    after: Turn,
    control: ActiveTurnControl,
    next: ActiveTurnControl,
    step: JournalStep,
)
    requires
        0 <= at < thread.turns@.len(),
        thread.turns@[at].id@ == before.id@,
        forall|k: int| 0 <= k < at ==> (#[trigger] thread.turns@[k]).id@ != before.id@,
        reload_reply(reloading, before, Ok(Some(thread)), after, control, next, step),
    ensures
        after == thread.turns@[at],
        step == JournalStep::Done(
            Ok(JournalOutcome { superseded: true, invalidated_step: reloading.invalidates() }),
        ),
        next.pending() == control.pending(),
        next.accepting() == control.accepting(),
{
    lemma_turn_is_found(thread.turns@, before.id@, at, 0);
}

proof fn lemma_turn_is_found(turns: Seq<Turn>, id: Seq<char>, at: int, from: int)
    requires
        0 <= from <= at < turns.len(),
        turns[at].id@ == id,
        forall|k: int| 0 <= k < at ==> (#[trigger] turns[k]).id@ != id,
    ensures
        turn_index(turns, id, from) == Some(at),
    decreases at - from,
{
    if from < at {
        assert(turns[from].id@ != id);
        lemma_turn_is_found(turns, id, at, from + 1);
    }
}

/// Calls that steering overtakes before they run are settled first, each with
/// an error result under its own identity, in order; then the steering is
/// applied. Without steering nothing is given up.
pub proof fn law_overtaken_calls_are_settled(
    turn: Turn,
    control: ActiveTurnControl,
    call_ids: Seq<&str>,
    step: JournalStep,
)
    requires
        control.turn() == turn.id@,
        supersession_begins(turn, control, call_ids, step),
    ensures
        control.pending().len() == 0 ==> step == JournalStep::Done(
            Ok(JournalOutcome { superseded: false, invalidated_step: None }),
        ),
        control.pending().len() > 0 && call_ids.len() > 0 ==> (step matches JournalStep::Write(writing)
            && writing.applies() && !writing.is_application() && writing.invalidates() is None && writing.rest().len()
            == call_ids.len() - 1 && forall|k: int|
            0 <= k < call_ids.len() ==> {
                let write = if k == 0 {
                    writing.write()
                } else {
                    writing.rest()[k - 1]
                };
                &&& write matches StateWrite::Recording { item }
                &&& item.kind matches ItemKind::ToolResult { call_id, is_error, connector_evidence, .. }
                &&& call_id@ == (#[trigger] call_ids[k])@
                &&& is_error
                &&& connector_evidence@.len() == 0
            }),
        control.pending().len() > 0 && call_ids.len() == 0 ==> (step matches JournalStep::Write(writing)
            && writing.is_application() && writing.write() == (StateWrite::Recording {
            item: Item {
                kind: ItemKind::SteeringApplied {
                    steering_id: control.pending()[0].steering_id,
                    content: control.pending()[0].content,
                },
                replaces_reply: false,
            },
        })),
{
    if control.pending().len() > 0 {
        let writes = choose|writes: Seq<StateWrite>| #[trigger]
            proceeds(writes, true, None, false, control.pending(), step) && supersession_writes(writes, call_ids);
        assert forall|k: int| 0 <= k < call_ids.len() implies records_supersession(#[trigger] writes[k], call_ids[k]@) by {}
        if call_ids.len() > 0 {
            let writing = step->Write_0;
            assert forall|k: int| 0 <= k < call_ids.len() implies {
                let write = if k == 0 {
                    writing.write()
                } else {
                    writing.rest()[k - 1]
                };
                &&& write matches StateWrite::Recording { item }
                &&& item.kind matches ItemKind::ToolResult { call_id, is_error, connector_evidence, .. }
                &&& call_id@ == (#[trigger] call_ids[k])@
                &&& is_error
                &&& connector_evidence@.len() == 0
            } by {
                assert(records_supersession(writes[k], call_ids[k]@));
            }
        }
    }
}

/// A record of the Turn itself is one write, and only the control of that Turn
/// may make it.
pub proof fn law_records_belong_to_their_turn(turn: Turn, control: ActiveTurnControl, kind: ItemKind, step: JournalStep)
    requires
        record_begins(turn, control, kind, step),
    ensures
        control.turn() == turn.id@ <==> step is Write,
        step matches JournalStep::Write(writing) ==> writing.write() == (StateWrite::Recording {
            item: Item { kind, replaces_reply: false },
        }) && writing.rest().len() == 0 && !writing.applies(),
{
}

/// A Turn that cannot be read back ends the work on it: it is left as it was
/// known, takes no more steering, and the fault is reported.
pub proof fn law_lost_turns_are_reported(
    reloading: Reloading,
    before: Turn,
    reply: Result<Option<Thread>, HarnessError>,
    after: Turn,
    control: ActiveTurnControl,
    next: ActiveTurnControl,
    step: JournalStep,
)
    requires
        reload_reply(reloading, before, reply, after, control, next, step),
        match reply {
            Ok(Some(thread)) => forall|k: int| 0 <= k < thread.turns@.len() ==> (#[trigger] thread.turns@[k]).id@ != before.id@,
            _ => true,
        },
    ensures
        after == before,
        !next.accepting(),
        next.pending() == control.pending(),
        step matches JournalStep::Done(Err(error)) && (reply matches Err(fault) ==> error@ == fault@),
{
    if let Ok(Some(thread)) = reply {
        lemma_no_turn_index(thread.turns@, before.id@, 0);
    }
}

proof fn lemma_no_turn_index(turns: Seq<Turn>, id: Seq<char>, n: int)
    requires
        0 <= n,
        forall|k: int| 0 <= k < turns.len() ==> (#[trigger] turns[k]).id@ != id,
    ensures
        turn_index(turns, id, n) is None,
    decreases turns.len() - n,
{
    if n < turns.len() {
        lemma_no_turn_index(turns, id, n + 1);
    }
}

} // verus!
