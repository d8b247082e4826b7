//! Model calls of a whole Turn, over every worker that runs it.
//!
//! A Turn may lose its worker while it waits for an approval and be resumed by
//! another one. What both of them do is described here as a sequence of points
//! between which the other modules decide, and the calls are counted along it.

use vstd::prelude::*;

use crate::capability::{ContextBlock, ModelOutput, ModelRequest, MAX_TOOL_CALLS_PER_BATCH};
use crate::error::HarnessError;
use crate::items::{
    ApprovalDecision, ExecutionBinding, Item, ItemKind, PolicyDecision, Thread, Turn, VerificationOutcome,
};
use crate::kernel::{ActorIdentity, ApprovalId, ToolCallBatchId};
use crate::runtime::authorize::{
    approval_step, policy_outcome, policy_step, AuthorizeStep, AwaitApproval, AwaitPolicy, PolicyRecorded,
};
use crate::runtime::batch::{settlement_item, ToolCallSettlement};
use crate::runtime::harness::LimitsView;
use crate::runtime::journal::{
    application_begins, batch_begins, decision_begins, decision_writes, proceeds, record_begins, recording_reply, records,
    records_calls, reload_reply, supersession_begins, supersession_writes, write_reply, JournalOutcome, JournalStep,
    StateWrite, WriteStep,
};
use crate::runtime::resume::{consumed_steps, opens_decision, opens_step, reports, ApprovalResumeEvidence, ResumePoint};
use crate::runtime::route::ModelRoute;
use crate::runtime::routing::{
    attempt_reply, settles_attempt, step_begins, waited_step, ModelAttemptSettlement,
    ModelCallOutcome, RouteStep, SettledModelOutput,
};
use crate::runtime::start::{context_is_recorded, opening, ConversationShape, MemoryObservation};
use crate::runtime::steering::{ActiveTurnControl, PendingSteering};
use crate::runtime::turn::{
    advances, authorized_step, batch_authorized_step, batch_executed_step, batch_step, call_step, closed_step, digested_step,
    effect_step, enters, executed_step, judged_step, law_step_budget_falls, message_step, settled_step, steered_step,
    verified_step, AwaitOutput, TurnLoop, TurnStep,
};
use crate::runtime::validate::{output_check, summary_record};
use crate::time::Moment;

verus! {

/// One point of asking the Model route.
pub struct RoutePoint {
    /// What the step needs next.
    pub step: RouteStep,
    /// Route as it is then.
    pub route: ModelRoute,
}

/// Whether one point of asking the Model route leads to the next.
pub open spec fn route_moves(from: RoutePoint, to: RoutePoint) -> bool {
    match from.step {
        RouteStep::Call(attempt) => exists|
            outcome: ModelCallOutcome,
            settlement: ModelAttemptSettlement,
            delivered: u64,
            thread_id: Seq<char>,
            turn_id: Seq<char>,
            now: Moment,
        |
            #[trigger] settles_attempt(outcome, settlement) && #[trigger] attempt_reply(
                attempt,
                from.route,
                settlement,
                delivered,
                thread_id,
                turn_id,
                now,
                to.route,
                to.step,
            ),
        RouteStep::Wait(wait) => exists|outcome: Result<bool, HarnessError>, now: Moment| #[trigger]
            waited_step(wait, from.route, outcome, now, to.step),
        RouteStep::Settled(_, _) => false,
    }
}

/// Whether points are those of asking the Model route once, as far as it went.
pub open spec fn route_run(points: Seq<RoutePoint>, max_attempts: usize) -> bool {
    &&& points.len() > 0
    &&& exists|
        before: ModelRoute,
        request: ModelRequest,
        encoding: Option<Seq<char>>,
        turn_deadline: Option<Moment>,
        now: Moment,
    |
        #[trigger] step_begins(
            before,
            request,
            encoding,
            max_attempts,
            turn_deadline,
            now,
            points[0].route,
            points[0].step,
        )
    &&& forall|i: int| 0 < i < points.len() ==> route_moves(points[i - 1], #[trigger] points[i])
}

/// Model calls of asking the Model route.
pub open spec fn calls_made(points: Seq<RoutePoint>) -> nat
    decreases points.len(),
{
    if points.len() == 0 {
        0
    } else {
        calls_made(points.drop_last()) + if points.last().step is Call {
            1nat
        } else {
            0nat
        }
    }
}

/// Whether asking the Model route ended with this result.
pub open spec fn route_settles(points: Seq<RoutePoint>, result: Result<SettledModelOutput, HarnessError>) -> bool {
    points.last().step matches RouteStep::Settled(settled, _) && settled == result
}

spec fn route_accounts(step: RouteStep, calls: nat, max_attempts: nat) -> bool {
    match step {
        RouteStep::Call(attempt) => attempt.run().attempts() == calls <= max_attempts && attempt.run().max_attempts()
            == max_attempts,
        RouteStep::Wait(wait) => wait.run().attempts() == calls <= max_attempts && wait.run().max_attempts()
            == max_attempts,
        RouteStep::Settled(result, _) => calls <= max_attempts && (result matches Ok(settled) ==> output_check(
            settled.output,
        ) is Ok),
    }
}

proof fn lemma_route_move(from: RoutePoint, to: RoutePoint, calls: nat, max_attempts: nat)
    requires
        route_moves(from, to),
        route_accounts(from.step, calls, max_attempts),
    ensures
        route_accounts(
            to.step,
            calls + if to.step is Call {
                1nat
            } else {
                0nat
            },
            max_attempts,
        ),
{
    match from.step {
        RouteStep::Call(attempt) => {
            let (outcome, settlement, delivered, thread_id, turn_id, now) = choose|
                outcome: ModelCallOutcome,
                settlement: ModelAttemptSettlement,
                delivered: u64,
                thread_id: Seq<char>,
                turn_id: Seq<char>,
                now: Moment,
            |
                #[trigger] settles_attempt(outcome, settlement) && #[trigger] attempt_reply(
                    attempt,
                    from.route,
                    settlement,
                    delivered,
                    thread_id,
                    turn_id,
                    now,
                    to.route,
                    to.step,
                );
            assert(attempt_reply(
                attempt,
                from.route,
                settlement,
                delivered,
                thread_id,
                turn_id,
                now,
                to.route,
                to.step,
            ));
        },
        _ => {},
    }
}

proof fn lemma_route_calls(points: Seq<RoutePoint>, max_attempts: usize)
    requires
        route_run(points, max_attempts),
    ensures
        route_accounts(points.last().step, calls_made(points), max_attempts as nat),
    decreases points.len(),
{
    reveal_with_fuel(calls_made, 2);
    let last = points.last();
    if points.len() == 1 {
        assert(points.drop_last() =~= Seq::empty());
    } else {
        let earlier = points.drop_last();
        assert forall|i: int| 0 < i < earlier.len() implies route_moves(earlier[i - 1], #[trigger] earlier[i]) by {
            assert(route_moves(points[i - 1], points[i]));
        }
        assert(earlier[0] == points[0]);
        lemma_route_calls(earlier, max_attempts);
        let from = earlier.last();
        assert(route_moves(points[points.len() - 2], points[points.len() - 1]));
        lemma_route_move(from, last, calls_made(earlier), max_attempts as nat);
    }
}

/// Asking the Model route once makes no more calls than attempts are allowed
/// for a step, whatever the Models answer and however often one is retried.
pub proof fn law_step_keeps_the_call_bound(points: Seq<RoutePoint>, max_attempts: usize)
    requires
        route_run(points, max_attempts),
    ensures
        calls_made(points) <= max_attempts,
{
    lemma_route_calls(points, max_attempts);
}

/// One point of a journal operation.
pub struct JournalPoint {
    /// What the operation needs next.
    pub step: JournalStep,
    /// Turn as the worker has it.
    pub turn: Turn,
    /// Control of the Turn.
    pub control: ActiveTurnControl,
}

/// Entries that the worker of a Turn wrote: all but the steering submissions,
/// which come from outside.
pub open spec fn own_entries(items: Seq<Item>) -> Seq<Item>
    decreases items.len(),
{
    if items.len() == 0 {
        Seq::empty()
    } else if is_submission(items.last()) {
        own_entries(items.drop_last())
    } else {
        own_entries(items.drop_last()).push(items.last())
    }
}

/// Whether an entry is a steering submission.
pub open spec fn is_submission(item: Item) -> bool {
    item.kind is SteeringQueued && !item.replaces_reply
}

/// Whether one point of a journal operation leads to the next. The store keeps
/// what the worker wrote.
pub open spec fn journal_moves(from: JournalPoint, to: JournalPoint) -> bool {
    match from.step {
        JournalStep::Write(writing) => exists|reply: Result<(), HarnessError>, write_step: WriteStep| #[trigger]
            write_reply(writing.write(), from.turn, reply, to.turn, write_step) && #[trigger] recording_reply(
                writing,
                write_step,
                from.control,
                to.control,
                to.step,
            ),
        JournalStep::Reload(reloading) => exists|reply: Result<Option<Thread>, HarnessError>| #[trigger]
            reload_reply(reloading, from.turn, reply, to.turn, from.control, to.control, to.step) && own_entries(
                to.turn.items@,
            ) == own_entries(from.turn.items@),
        JournalStep::Done(_) => false,
    }
}

/// Whether points are those of a journal operation on a Turn.
pub open spec fn journal_run(points: Seq<JournalPoint>, first: JournalStep, turn: Turn) -> bool {
    &&& points.len() > 0
    &&& points[0].step == first
    &&& points[0].turn == turn
    &&& forall|i: int| 0 < i < points.len() ==> journal_moves(points[i - 1], #[trigger] points[i])
}

/// Whether a journal operation that begins so ends with this result, and
/// leaves the Turn so.
pub open spec fn journaled(
    first: JournalStep,
    before: Turn,
    result: Result<JournalOutcome, HarnessError>,
    after: Turn,
) -> bool {
    exists|points: Seq<JournalPoint>| #[trigger]
        journal_run(points, first, before) && points.last().step == JournalStep::Done(result) && points.last().turn == after
}

spec fn owed(write: StateWrite) -> nat {
    match write {
        StateWrite::Recording { item } => consumed_steps(seq![item]),
        StateWrite::RecordingCalls { calls } => consumed_steps(calls@),
        _ => 0,
    }
}

spec fn owed_all(writes: Seq<StateWrite>) -> nat
    decreases writes.len(),
{
    if writes.len() == 0 {
        0
    } else {
        owed(writes[0]) + owed_all(writes.drop_first())
    }
}

spec fn appends(write: StateWrite) -> bool {
    write is Recording || write is RecordingCalls
}

spec fn step_accounts(step: JournalStep, consumed: nat, total: nat) -> bool {
    match step {
        JournalStep::Write(writing) => {
            &&& forall|k: int| 0 <= k < writing.rest().len() ==> appends(#[trigger] writing.rest()[k])
            &&& match writing.write() {
                StateWrite::Finishing { cause, .. } => cause is RecordFailed || cause is CallsFailed,
                StateWrite::Settling { .. } => false,
                _ => consumed + owed(writing.write()) + owed_all(writing.rest()) == total,
            }
        },
        JournalStep::Reload(_) => consumed == total,
        JournalStep::Done(Ok(_)) => consumed == total,
        JournalStep::Done(Err(_)) => true,
    }
}

proof fn lemma_consumed_add(a: Seq<Item>, b: Seq<Item>)
    ensures
        consumed_steps(a + b) == consumed_steps(a) + consumed_steps(b),
    decreases b.len(),
{
    if b.len() == 0 {
        assert(a + b =~= a);
    } else {
        lemma_consumed_add(a, b.drop_last());
        assert((a + b).drop_last() =~= a + b.drop_last());
        assert((a + b).last() == b.last());
    }
}

proof fn lemma_consumed_one(item: Item)
    ensures
        consumed_steps(seq![item]) == if opens_step(item) {
            1nat
        } else {
            0nat
        },
{
    reveal_with_fuel(consumed_steps, 2);
    assert(seq![item].drop_last() =~= Seq::<Item>::empty());
    assert(seq![item].last() == item);
}

proof fn lemma_consumed_own(items: Seq<Item>)
    ensures
        consumed_steps(own_entries(items)) == consumed_steps(items),
    decreases items.len(),
{
    if items.len() > 0 {
        lemma_consumed_own(items.drop_last());
        if !is_submission(items.last()) {
            let earlier = own_entries(items.drop_last());
            assert(earlier.push(items.last()).drop_last() =~= earlier);
        }
    }
}

proof fn lemma_consumed_none(items: Seq<Item>)
    requires
        forall|k: int| 0 <= k < items.len() ==> !opens_step(#[trigger] items[k]),
    ensures
        consumed_steps(items) == 0,
    decreases items.len(),
{
    if items.len() > 0 {
        let earlier = items.drop_last();
        assert forall|k: int| 0 <= k < earlier.len() implies !opens_step(#[trigger] earlier[k]) by {
            assert(earlier[k] == items[k]);
        }
        lemma_consumed_none(earlier);
    }
}

proof fn lemma_proceeds(
    consumed: nat,
    rest: Seq<StateWrite>,
    apply: bool,
    invalidate: Option<u32>,
    overtakes: bool,
    pending: Seq<PendingSteering>,
    step: JournalStep,
)
    requires
        proceeds(rest, apply, invalidate, overtakes, pending, step),
        forall|k: int| 0 <= k < rest.len() ==> appends(#[trigger] rest[k]),
        overtakes ==> rest.len() == 0 && apply && pending.len() > 0,
    ensures
        step_accounts(
            step,
            consumed,
            consumed + owed_all(rest) + if overtakes {
                1nat
            } else {
                0nat
            },
        ),
{
    reveal_with_fuel(owed_all, 2);
    if rest.len() > 0 {
        let next = step->Write_0;
        assert(appends(rest[0]));
        assert forall|k: int| 0 <= k < next.rest().len() implies appends(#[trigger] next.rest()[k]) by {
            assert(next.rest()[k] == rest[k + 1]);
        }
    } else if apply && pending.len() > 0 {
        let next = step->Write_0;
        if let StateWrite::Recording { item } = next.write() {
            lemma_consumed_one(item);
        }
    }
}

proof fn lemma_journal_move(from: JournalPoint, to: JournalPoint, total: nat)
    requires
        journal_moves(from, to),
        step_accounts(from.step, consumed_steps(from.turn.items@), total),
    ensures
        step_accounts(to.step, consumed_steps(to.turn.items@), total),
{
    match from.step {
        JournalStep::Write(writing) => {
            let (reply, write_step) = choose|reply: Result<(), HarnessError>, write_step: WriteStep| #[trigger]
                write_reply(writing.write(), from.turn, reply, to.turn, write_step) && #[trigger] recording_reply(
                    writing,
                    write_step,
                    from.control,
                    to.control,
                    to.step,
                );
            match writing.write() {
                StateWrite::Recording { item } => {
                    if reply is Ok {
                        assert(from.turn.items@.push(item) =~= from.turn.items@ + seq![item]);
                        lemma_consumed_add(from.turn.items@, seq![item]);
                    }
                },
                StateWrite::RecordingCalls { calls } => {
                    lemma_consumed_add(from.turn.items@, calls@);
                },
                _ => {},
            }
            if write_step == WriteStep::Settled(Ok(())) {
                lemma_proceeds(
                    consumed_steps(to.turn.items@),
                    writing.rest(),
                    writing.applies(),
                    writing.invalidates(),
                    false,
                    to.control.pending(),
                    to.step,
                );
            }
        },
        JournalStep::Reload(reloading) => {
            lemma_consumed_own(from.turn.items@);
            lemma_consumed_own(to.turn.items@);
        },
        JournalStep::Done(_) => {},
    }
}

proof fn lemma_journal_run(points: Seq<JournalPoint>, first: JournalStep, turn: Turn, total: nat)
    requires
        journal_run(points, first, turn),
        step_accounts(first, consumed_steps(turn.items@), total),
    ensures
        step_accounts(points.last().step, consumed_steps(points.last().turn.items@), total),
    decreases points.len(),
{
    if points.len() > 1 {
        let earlier = points.drop_last();
        assert forall|i: int| 0 < i < earlier.len() implies journal_moves(earlier[i - 1], #[trigger] earlier[i]) by {
            assert(journal_moves(points[i - 1], points[i]));
        }
        lemma_journal_run(earlier, first, turn, total);
        assert(journal_moves(points[points.len() - 2], points[points.len() - 1]));
        lemma_journal_move(earlier.last(), points.last(), total);
    }
}

proof fn lemma_journaled(
    first: JournalStep,
    before: Turn,
    result: Result<JournalOutcome, HarnessError>,
    after: Turn,
    total: nat,
)
    requires
        journaled(first, before, result, after),
        step_accounts(first, consumed_steps(before.items@), total),
        result is Ok,
    ensures
        consumed_steps(after.items@) == total,
{
    let points = choose|points: Seq<JournalPoint>| #[trigger]
        journal_run(points, first, before) && points.last().step == JournalStep::Done(result) && points.last().turn == after;
    lemma_journal_run(points, first, before, total);
}

/// One point of the Agent Loop of a worker.
pub struct LoopPoint {
    /// What the Turn needs next.
    pub step: TurnStep,
    /// Turn as the worker has it.
    pub turn: Turn,
    /// Model calls that the worker has made.
    pub calls: nat,
}

/// Whether a journal grew by these entries of its worker alone.
pub open spec fn grows_by(before: Seq<Item>, entries: Seq<Item>, after: Seq<Item>) -> bool {
    own_entries(after) == own_entries(before) + entries
}

/// Whether a journal grew without beginning the outcome of a step, as it does
/// while calls are authorized and run.
pub open spec fn grows_quietly(before: Seq<Item>, after: Seq<Item>) -> bool {
    exists|entries: Seq<Item>| #[trigger]
        grows_by(before, entries, after) && forall|k: int| 0 <= k < entries.len() ==> !opens_step(#[trigger] entries[k])
}

/// Whether asking the Model leads from one point of the Agent Loop to the next.
pub open spec fn asks_model(
    from: LoopPoint,
    to: LoopPoint,
    points: Seq<RoutePoint>,
    result: Result<SettledModelOutput, HarnessError>,
    attempts_per_step: usize,
) -> bool {
    &&& route_run(points, attempts_per_step)
    &&& route_settles(points, result)
    &&& to.calls == from.calls + calls_made(points)
    &&& to.turn == from.turn
}

/// Whether one point of the Agent Loop leads to the next.
pub open spec fn loop_moves(from: LoopPoint, to: LoopPoint, attempts_per_step: usize) -> bool {
    &&& !(from.step is AskModel) ==> to.calls == from.calls
    &&& match from.step {
        TurnStep::ApplySteering(pending) => exists|
            control: ActiveTurnControl,
            first: JournalStep,
            result: Result<JournalOutcome, HarnessError>,
        |
            #[trigger] application_begins(from.turn, control, None, first) && journaled(first, from.turn, result, to.turn)
                && #[trigger] steered_step(pending, result, to.step),
        TurnStep::Request(pending) => to.turn == from.turn && exists|result: Result<String, HarnessError>| #[trigger]
            digested_step(pending, result, to.step),
        TurnStep::AskModel(pending) => exists|
            points: Seq<RoutePoint>,
            result: Result<SettledModelOutput, HarnessError>,
            batch_id: ToolCallBatchId,
        |
            #[trigger] asks_model(from, to, points, result, attempts_per_step) && #[trigger] settled_step(
                pending,
                result,
                batch_id,
                to.step,
            ),
        TurnStep::RecordMessage(continuation, item, pending) => exists|
            control: ActiveTurnControl,
            number: u32,
            first: JournalStep,
            result: Result<JournalOutcome, HarnessError>,
            items: Vec<Item>,
            verifiers: usize,
        |
            #[trigger] decision_begins(from.turn, control, number, continuation, item, first) && journaled(
                first,
                from.turn,
                result,
                to.turn,
            ) && #[trigger] message_step(pending, result, items, verifiers, to.step),
        TurnStep::Verify(pending) => to.turn == from.turn && exists|
            verifier: String,
            result: Result<VerificationOutcome, HarnessError>,
            outcome_check: Result<(), HarnessError>,
        |
            #[trigger] judged_step(pending, verifier, result, outcome_check, to.step),
        TurnStep::RecordVerification(item, pending) => exists|
            control: ActiveTurnControl,
            first: JournalStep,
            result: Result<JournalOutcome, HarnessError>,
        |
            #[trigger] record_begins(from.turn, control, item, first) && journaled(first, from.turn, result, to.turn)
                && #[trigger] verified_step(pending, result, to.step),
        TurnStep::CloseSteering(pending) => exists|
            control: ActiveTurnControl,
            number: u32,
            first: JournalStep,
            result: Result<JournalOutcome, HarnessError>,
        |
            #[trigger] application_begins(from.turn, control, Some(number), first) && journaled(
                first,
                from.turn,
                result,
                to.turn,
            ) && #[trigger] closed_step(pending, result, to.step),
        TurnStep::Finish(pending) => to.step is Fail || to.step is Completed,
        TurnStep::RecordCall(continuation, item, pending) => exists|
            control: ActiveTurnControl,
            number: u32,
            first: JournalStep,
            result: Result<JournalOutcome, HarnessError>,
        |
            #[trigger] decision_begins(from.turn, control, number, continuation, item, first) && journaled(
                first,
                from.turn,
                result,
                to.turn,
            ) && #[trigger] call_step(pending, result, to.step),
        TurnStep::Authorize(pending) => grows_quietly(from.turn.items@, to.turn.items@) && exists|
            result: Result<(), HarnessError>,
        |
            #[trigger] authorized_step(pending, result, to.step),
        TurnStep::BeforeEffect(pending) => exists|
            control: ActiveTurnControl,
            call_ids: Seq<&str>,
            first: JournalStep,
            result: Result<JournalOutcome, HarnessError>,
        |
            #[trigger] supersession_begins(from.turn, control, call_ids, first) && journaled(
                first,
                from.turn,
                result,
                to.turn,
            ) && #[trigger] effect_step(pending, result, to.step),
        TurnStep::Execute(pending) => grows_quietly(from.turn.items@, to.turn.items@) && exists|
            result: Result<(), HarnessError>,
        |
            #[trigger] executed_step(pending, result, to.step),
        TurnStep::RecordBatch(continuation, items, pending) => exists|
            control: ActiveTurnControl,
            number: u32,
            first: JournalStep,
            result: Result<JournalOutcome, HarnessError>,
        |
            #[trigger] batch_begins(from.turn, control, number, continuation, items@, first) && journaled(
                first,
                from.turn,
                result,
                to.turn,
            ) && #[trigger] batch_step(pending, result, to.step),
        TurnStep::AuthorizeNext(pending) => grows_quietly(from.turn.items@, to.turn.items@) && exists|
            result: Result<(), HarnessError>,
        |
            #[trigger] batch_authorized_step(pending, result, to.step),
        TurnStep::ExecuteBatch(pending) => grows_quietly(from.turn.items@, to.turn.items@) && exists|
            result: Result<bool, HarnessError>,
        |
            #[trigger] batch_executed_step(pending, result, to.step),
        TurnStep::Settle(_) => false,
        TurnStep::Fail(_) => false,
        TurnStep::Completed(_) => false,
    }
}

/// Whether points are those of one worker, from a step of the Turn on.
pub open spec fn loop_run(points: Seq<LoopPoint>, starting_step: nat, limits: LimitsView) -> bool {
    &&& points.len() > 0
    &&& points[0].calls == 0
    &&& exists|call_ids: Set<Seq<char>>| #[trigger] enters(starting_step, limits.steps as nat, call_ids, points[0].step)
    &&& forall|i: int|
        0 < i < points.len() ==> loop_moves(points[i - 1], #[trigger] points[i], limits.attempts_per_step)
}

/// Calls of a worker, those of an unfinished question to the Model route
/// included.
pub open spec fn made_by(points: Seq<LoopPoint>, open_question: Seq<RoutePoint>) -> nat {
    points.last().calls + calls_made(open_question)
}

/// Whether a worker may be in the middle of this question to the Model route.
pub open spec fn may_be_asking(points: Seq<LoopPoint>, open_question: Seq<RoutePoint>, limits: LimitsView) -> bool {
    open_question.len() > 0 ==> points.last().step is AskModel && route_run(open_question, limits.attempts_per_step)
}

/// Whether a worker waits inside the authorization of a call.
pub open spec fn is_authorizing(step: TurnStep) -> bool {
    step is Authorize || step is AuthorizeNext
}

spec fn one_step(kinds: Seq<ItemKind>) -> bool {
    kinds.len() > 0 && opens_decision(kinds[0]) && forall|k: int|
        0 < k < kinds.len() ==> !opens_decision(#[trigger] kinds[k])
}

spec fn no_step(continuation: Option<ItemKind>) -> bool {
    continuation matches Some(kind) ==> !opens_decision(kind)
}

spec fn stands(
    progress: TurnLoop,
    asked: nat,
    recorded: nat,
    point: LoopPoint,
    earlier: nat,
    limits: LimitsView,
) -> bool {
    &&& progress.max_steps() == limits.steps
    &&& progress.step() < limits.steps
    &&& consumed_steps(point.turn.items@) == progress.step() + recorded
    &&& earlier + point.calls <= (progress.step() + asked) * limits.attempts_per_step
}

spec fn accounts(point: LoopPoint, earlier: nat, limits: LimitsView) -> bool {
    match point.step {
        TurnStep::ApplySteering(next) => stands(next.progress(), 0, 0, point, earlier, limits),
        TurnStep::Request(next) => stands(next.progress(), 0, 0, point, earlier, limits),
        TurnStep::AskModel(next) => stands(next.progress(), 0, 0, point, earlier, limits),
        TurnStep::RecordMessage(continuation, item, next) => stands(next.progress(), 1, 0, point, earlier, limits)
            && no_step(continuation) && opens_decision(item),
        TurnStep::Verify(next) => stands(next.progress(), 1, 1, point, earlier, limits),
        TurnStep::RecordVerification(item, next) => stands(next.pending().progress(), 1, 1, point, earlier, limits)
            && !opens_decision(item),
        TurnStep::CloseSteering(next) => stands(next.progress(), 1, 1, point, earlier, limits),
        TurnStep::RecordCall(continuation, item, next) => stands(next.progress(), 1, 0, point, earlier, limits)
            && no_step(continuation) && opens_decision(item),
        TurnStep::Authorize(next) => stands(next.progress(), 1, 1, point, earlier, limits),
        TurnStep::BeforeEffect(next) => stands(next.progress(), 1, 1, point, earlier, limits),
        TurnStep::Execute(next) => stands(next.progress(), 1, 1, point, earlier, limits),
        TurnStep::RecordBatch(continuation, items, next) => stands(next.progress(), 1, 0, point, earlier, limits)
            && no_step(continuation) && one_step(items@),
        TurnStep::AuthorizeNext(next) => stands(next.progress(), 1, 1, point, earlier, limits),
        TurnStep::ExecuteBatch(next) => stands(next.progress(), 1, 1, point, earlier, limits),
        _ => earlier + point.calls <= limits.steps * limits.attempts_per_step,
    }
}

proof fn lemma_within(earlier: nat, calls: nat, steps: nat, limits: LimitsView)
    requires
        earlier + calls <= steps * limits.attempts_per_step,
        steps <= limits.steps,
    ensures
        earlier + calls <= limits.steps * limits.attempts_per_step,
{
    let attempts = limits.attempts_per_step as int;
    let most = limits.steps as int;
    assert(steps * attempts <= most * attempts) by (nonlinear_arith)
        requires
            steps <= most,
            0 <= attempts,
    ;
}

proof fn lemma_quiet(before: Seq<Item>, after: Seq<Item>)
    requires
        grows_quietly(before, after),
    ensures
        consumed_steps(after) == consumed_steps(before),
{
    let entries = choose|entries: Seq<Item>| #[trigger]
        grows_by(before, entries, after) && forall|k: int| 0 <= k < entries.len() ==> !opens_step(#[trigger] entries[k]);
    lemma_consumed_own(before);
    lemma_consumed_own(after);
    lemma_consumed_add(own_entries(before), entries);
    lemma_consumed_none(entries);
}

proof fn lemma_application_begins(turn: Turn, control: ActiveTurnControl, invalidated: Option<u32>, first: JournalStep)
    requires
        application_begins(turn, control, invalidated, first),
    ensures
        step_accounts(first, consumed_steps(turn.items@), consumed_steps(turn.items@)),
{
    if control.turn() == turn.id@ && control.pending().len() > 0 {
        lemma_proceeds(consumed_steps(turn.items@), Seq::empty(), true, invalidated, false, control.pending(), first);
    }
}

proof fn lemma_record_begins(turn: Turn, control: ActiveTurnControl, kind: ItemKind, first: JournalStep)
    requires
        record_begins(turn, control, kind, first),
        !opens_decision(kind),
    ensures
        step_accounts(first, consumed_steps(turn.items@), consumed_steps(turn.items@)),
{
    lemma_consumed_one(Item { kind, replaces_reply: false });
}

proof fn lemma_owed_nothing(writes: Seq<StateWrite>)
    requires
        forall|k: int| 0 <= k < writes.len() ==> appends(#[trigger] writes[k]) && owed(writes[k]) == 0,
    ensures
        owed_all(writes) == 0,
    decreases writes.len(),
{
    if writes.len() > 0 {
        let rest = writes.drop_first();
        assert forall|k: int| 0 <= k < rest.len() implies appends(#[trigger] rest[k]) && owed(rest[k]) == 0 by {
            assert(rest[k] == writes[k + 1]);
        }
        lemma_owed_nothing(rest);
        assert(appends(writes[0]) && owed(writes[0]) == 0);
    }
}

proof fn lemma_supersession_begins(turn: Turn, control: ActiveTurnControl, call_ids: Seq<&str>, first: JournalStep)
    requires
        supersession_begins(turn, control, call_ids, first),
    ensures
        step_accounts(first, consumed_steps(turn.items@), consumed_steps(turn.items@)),
{
    if control.turn() == turn.id@ && control.pending().len() > 0 {
        let writes = choose|writes: Seq<StateWrite>| #[trigger]
            proceeds(writes, true, None, false, control.pending(), first) && supersession_writes(writes, call_ids);
        assert forall|k: int| 0 <= k < writes.len() implies appends(#[trigger] writes[k]) && owed(writes[k]) == 0 by {
            if let StateWrite::Recording { item } = writes[k] {
                lemma_consumed_one(item);
            }
        }
        lemma_owed_nothing(writes);
        lemma_proceeds(consumed_steps(turn.items@), writes, true, None, false, control.pending(), first);
    }
}

proof fn lemma_decision_writes(continuation: Option<ItemKind>, writes: Seq<StateWrite>)
    requires
        decision_writes(continuation, writes),
        no_step(continuation),
        appends(writes.last()),
    ensures
        owed_all(writes) == owed(writes.last()),
        forall|k: int| 0 <= k < writes.len() ==> appends(#[trigger] writes[k]),
{
    reveal_with_fuel(owed_all, 3);
    if let Some(kind) = continuation {
        lemma_consumed_one(Item { kind, replaces_reply: false });
        assert(writes.drop_first()[0] == writes[1]);
        assert(writes.drop_first().drop_first() =~= Seq::empty());
    } else {
        assert(writes.drop_first() =~= Seq::empty());
    }
}

proof fn lemma_decision_begins(
    turn: Turn,
    control: ActiveTurnControl,
    number: u32,
    continuation: Option<ItemKind>,
    decision: ItemKind,
    first: JournalStep,
)
    requires
        decision_begins(turn, control, number, continuation, decision, first),
        no_step(continuation),
        opens_decision(decision),
    ensures
        step_accounts(first, consumed_steps(turn.items@), consumed_steps(turn.items@) + 1),
{
    let consumed = consumed_steps(turn.items@);
    if control.turn() == turn.id@ {
        if control.pending().len() > 0 {
            lemma_proceeds(consumed, Seq::empty(), true, Some(number), true, control.pending(), first);
        } else {
            let writes = choose|writes: Seq<StateWrite>| #[trigger]
                proceeds(writes, false, None, false, control.pending(), first) && decision_writes(continuation, writes)
                    && records(writes.last(), decision);
            lemma_decision_writes(continuation, writes);
            lemma_consumed_one(Item { kind: decision, replaces_reply: false });
            lemma_proceeds(consumed, writes, false, None, false, control.pending(), first);
        }
    }
}

proof fn lemma_batch_consumed(calls: Seq<Item>, kinds: Seq<ItemKind>)
    requires
        one_step(kinds),
        calls.len() == kinds.len(),
        forall|k: int| 0 <= k < kinds.len() ==> #[trigger] calls[k] == (Item { kind: kinds[k], replaces_reply: false }),
    ensures
        consumed_steps(calls) == 1,
{
    let rest = calls.drop_first();
    assert forall|k: int| 0 <= k < rest.len() implies !opens_step(#[trigger] rest[k]) by {
        assert(rest[k] == calls[k + 1]);
        assert(!opens_decision(kinds[k + 1]));
    }
    lemma_consumed_none(rest);
    lemma_consumed_one(calls[0]);
    assert(calls =~= seq![calls[0]] + rest);
    lemma_consumed_add(seq![calls[0]], rest);
}

proof fn lemma_batch_begins(
    turn: Turn,
    control: ActiveTurnControl,
    number: u32,
    continuation: Option<ItemKind>,
    kinds: Seq<ItemKind>,
    first: JournalStep,
)
    requires
        batch_begins(turn, control, number, continuation, kinds, first),
        no_step(continuation),
        one_step(kinds),
    ensures
        step_accounts(first, consumed_steps(turn.items@), consumed_steps(turn.items@) + 1),
{
    let consumed = consumed_steps(turn.items@);
    if control.turn() == turn.id@ {
        if control.pending().len() > 0 {
            lemma_proceeds(consumed, Seq::empty(), true, Some(number), true, control.pending(), first);
        } else {
            let writes = choose|writes: Seq<StateWrite>| #[trigger]
                proceeds(writes, false, None, false, control.pending(), first) && decision_writes(continuation, writes)
                    && records_calls(writes.last(), kinds);
            if let StateWrite::RecordingCalls { calls } = writes.last() {
                lemma_batch_consumed(calls@, kinds);
            }
            lemma_decision_writes(continuation, writes);
            lemma_proceeds(consumed, writes, false, None, false, control.pending(), first);
        }
    }
}

proof fn lemma_advances(progress: TurnLoop, from: LoopPoint, to: LoopPoint, earlier: nat, limits: LimitsView)
    requires
        stands(progress, 1, 1, LoopPoint { turn: to.turn, ..from }, earlier, limits),
        to.calls == from.calls,
        advances(progress, to.step),
    ensures
        accounts(to, earlier, limits),
{
    law_step_budget_falls(progress, to.step);
    lemma_within(earlier, from.calls, progress.step() + 1, limits);
}

proof fn lemma_stays_within(progress: TurnLoop, asked: nat, recorded: nat, from: LoopPoint, earlier: nat, limits: LimitsView)
    requires
        stands(progress, asked, recorded, from, earlier, limits),
        asked <= 1,
    ensures
        earlier + from.calls <= limits.steps * limits.attempts_per_step,
{
    lemma_within(earlier, from.calls, progress.step() + asked, limits);
}

proof fn lemma_asks_model(
    pending: AwaitOutput,
    from: LoopPoint,
    to: LoopPoint,
    points: Seq<RoutePoint>,
    result: Result<SettledModelOutput, HarnessError>,
    batch_id: ToolCallBatchId,
    earlier: nat,
    limits: LimitsView,
)
    requires
        from.step == TurnStep::AskModel(pending),
        accounts(from, earlier, limits),
        asks_model(from, to, points, result, limits.attempts_per_step),
        settled_step(pending, result, batch_id, to.step),
    ensures
        accounts(to, earlier, limits),
{
    let progress = pending.progress();
    let attempts = limits.attempts_per_step as int;
    let taken = progress.step() as int;
    lemma_route_calls(points, limits.attempts_per_step);
    assert(taken * attempts + attempts == (taken + 1) * attempts) by (nonlinear_arith);
    assert(earlier + to.calls <= (progress.step() + 1) * limits.attempts_per_step);
    lemma_within(earlier, to.calls, progress.step() + 1, limits);
    if let Ok(output) = result {
        if let ModelOutput::ToolCalls { calls } = output.output {
            assert(2 <= calls@.len() <= MAX_TOOL_CALLS_PER_BATCH);
            if let TurnStep::RecordBatch(_, items, _) = to.step {
                assert(opens_decision(items@[0]));
                assert forall|k: int| 0 < k < items@.len() implies !opens_decision(#[trigger] items@[k]) by {}
            }
        }
    }
}

proof fn lemma_loop_move(from: LoopPoint, to: LoopPoint, earlier: nat, limits: LimitsView)
    requires
        accounts(from, earlier, limits),
        loop_moves(from, to, limits.attempts_per_step),
    ensures
        accounts(to, earlier, limits),
{
    match from.step {
        TurnStep::ApplySteering(pending) => {
            lemma_stays_within(pending.progress(), 0, 0, from, earlier, limits);
            let (control, first, result) = choose|
                control: ActiveTurnControl,
                first: JournalStep,
                result: Result<JournalOutcome, HarnessError>,
            |
                #[trigger] application_begins(from.turn, control, None, first) && journaled(
                    first,
                    from.turn,
                    result,
                    to.turn,
                ) && #[trigger] steered_step(pending, result, to.step);
            if result is Ok {
                lemma_application_begins(from.turn, control, None, first);
                lemma_journaled(first, from.turn, result, to.turn, consumed_steps(from.turn.items@));
            }
        },
        TurnStep::Request(pending) => {
            lemma_stays_within(pending.progress(), 0, 0, from, earlier, limits);
        },
        TurnStep::AskModel(pending) => {
            let (points, result, batch_id) = choose|
                points: Seq<RoutePoint>,
                result: Result<SettledModelOutput, HarnessError>,
                batch_id: ToolCallBatchId,
            |
                #[trigger] asks_model(from, to, points, result, limits.attempts_per_step) && #[trigger] settled_step(
                    pending,
                    result,
                    batch_id,
                    to.step,
                );
            lemma_asks_model(pending, from, to, points, result, batch_id, earlier, limits);
        },
        TurnStep::RecordMessage(continuation, item, pending) => {
            lemma_stays_within(pending.progress(), 1, 0, from, earlier, limits);
            let (control, number, first, result, items, verifiers) = choose|
                control: ActiveTurnControl,
                number: u32,
                first: JournalStep,
                result: Result<JournalOutcome, HarnessError>,
                items: Vec<Item>,
                verifiers: usize,
            |
                #[trigger] decision_begins(from.turn, control, number, continuation, item, first) && journaled(
                    first,
                    from.turn,
                    result,
                    to.turn,
                ) && #[trigger] message_step(pending, result, items, verifiers, to.step);
            if let Ok(outcome) = result {
                lemma_decision_begins(from.turn, control, number, continuation, item, first);
                lemma_journaled(first, from.turn, result, to.turn, consumed_steps(from.turn.items@) + 1);
                if outcome.superseded {
                    lemma_advances(pending.progress(), from, to, earlier, limits);
                }
            }
        },
        TurnStep::Verify(pending) => {
            lemma_stays_within(pending.progress(), 1, 1, from, earlier, limits);
        },
        TurnStep::RecordVerification(item, pending) => {
            lemma_stays_within(pending.pending().progress(), 1, 1, from, earlier, limits);
            let (control, first, result) = choose|
                control: ActiveTurnControl,
                first: JournalStep,
                result: Result<JournalOutcome, HarnessError>,
            |
                #[trigger] record_begins(from.turn, control, item, first) && journaled(first, from.turn, result, to.turn)
                    && #[trigger] verified_step(pending, result, to.step);
            if result is Ok {
                lemma_record_begins(from.turn, control, item, first);
                lemma_journaled(first, from.turn, result, to.turn, consumed_steps(from.turn.items@));
            }
        },
        TurnStep::CloseSteering(pending) => {
            lemma_stays_within(pending.progress(), 1, 1, from, earlier, limits);
            let (control, number, first, result) = choose|
                control: ActiveTurnControl,
                number: u32,
                first: JournalStep,
                result: Result<JournalOutcome, HarnessError>,
            |
                #[trigger] application_begins(from.turn, control, Some(number), first) && journaled(
                    first,
                    from.turn,
                    result,
                    to.turn,
                ) && #[trigger] closed_step(pending, result, to.step);
            if let Ok(outcome) = result {
                lemma_application_begins(from.turn, control, Some(number), first);
                lemma_journaled(first, from.turn, result, to.turn, consumed_steps(from.turn.items@));
                if outcome.superseded || pending.retry() {
                    lemma_advances(pending.progress(), from, to, earlier, limits);
                }
            }
        },
        TurnStep::RecordCall(continuation, item, pending) => {
            lemma_stays_within(pending.progress(), 1, 0, from, earlier, limits);
            let (control, number, first, result) = choose|
                control: ActiveTurnControl,
                number: u32,
                first: JournalStep,
                result: Result<JournalOutcome, HarnessError>,
            |
                #[trigger] decision_begins(from.turn, control, number, continuation, item, first) && journaled(
                    first,
                    from.turn,
                    result,
                    to.turn,
                ) && #[trigger] call_step(pending, result, to.step);
            if let Ok(outcome) = result {
                lemma_decision_begins(from.turn, control, number, continuation, item, first);
                lemma_journaled(first, from.turn, result, to.turn, consumed_steps(from.turn.items@) + 1);
                if outcome.superseded {
                    lemma_advances(pending.progress(), from, to, earlier, limits);
                }
            }
        },
        TurnStep::Authorize(pending) => {
            lemma_stays_within(pending.progress(), 1, 1, from, earlier, limits);
            lemma_quiet(from.turn.items@, to.turn.items@);
        },
        TurnStep::BeforeEffect(pending) => {
            lemma_stays_within(pending.progress(), 1, 1, from, earlier, limits);
            let (control, call_ids, first, result) = choose|
                control: ActiveTurnControl,
                call_ids: Seq<&str>,
                first: JournalStep,
                result: Result<JournalOutcome, HarnessError>,
            |
                #[trigger] supersession_begins(from.turn, control, call_ids, first) && journaled(
                    first,
                    from.turn,
                    result,
                    to.turn,
                ) && #[trigger] effect_step(pending, result, to.step);
            if let Ok(outcome) = result {
                lemma_supersession_begins(from.turn, control, call_ids, first);
                lemma_journaled(first, from.turn, result, to.turn, consumed_steps(from.turn.items@));
                if outcome.superseded {
                    lemma_advances(pending.progress(), from, to, earlier, limits);
                }
            }
        },
        TurnStep::Execute(pending) => {
            lemma_stays_within(pending.progress(), 1, 1, from, earlier, limits);
            lemma_quiet(from.turn.items@, to.turn.items@);
            if !(to.step is Fail) {
                lemma_advances(pending.progress(), from, to, earlier, limits);
            }
        },
        TurnStep::RecordBatch(continuation, items, pending) => {
            lemma_stays_within(pending.progress(), 1, 0, from, earlier, limits);
            let (control, number, first, result) = choose|
                control: ActiveTurnControl,
                number: u32,
                first: JournalStep,
                result: Result<JournalOutcome, HarnessError>,
            |
                #[trigger] batch_begins(from.turn, control, number, continuation, items@, first) && journaled(
                    first,
                    from.turn,
                    result,
                    to.turn,
                ) && #[trigger] batch_step(pending, result, to.step);
            if let Ok(outcome) = result {
                lemma_batch_begins(from.turn, control, number, continuation, items@, first);
                lemma_journaled(first, from.turn, result, to.turn, consumed_steps(from.turn.items@) + 1);
                if outcome.superseded {
                    lemma_advances(pending.progress(), from, to, earlier, limits);
                }
            }
        },
        TurnStep::AuthorizeNext(pending) => {
            lemma_stays_within(pending.progress(), 1, 1, from, earlier, limits);
            lemma_quiet(from.turn.items@, to.turn.items@);
        },
        TurnStep::ExecuteBatch(pending) => {
            lemma_stays_within(pending.progress(), 1, 1, from, earlier, limits);
            lemma_quiet(from.turn.items@, to.turn.items@);
            if !(to.step is Fail) {
                lemma_advances(pending.progress(), from, to, earlier, limits);
            }
        },
        _ => {},
    }
}

proof fn lemma_loop_run(points: Seq<LoopPoint>, starting_step: nat, earlier: nat, limits: LimitsView)
    requires
        loop_run(points, starting_step, limits),
        consumed_steps(points[0].turn.items@) == starting_step,
        starting_step <= limits.steps,
        earlier <= starting_step * limits.attempts_per_step,
    ensures
        accounts(points.last(), earlier, limits),
    decreases points.len(),
{
    if points.len() == 1 {
        lemma_within(earlier, 0, starting_step, limits);
    } else {
        let before = points.drop_last();
        assert(before[0] == points[0]);
        assert forall|i: int| 0 < i < before.len() implies loop_moves(
            before[i - 1],
            #[trigger] before[i],
            limits.attempts_per_step,
        ) by {
            assert(loop_moves(points[i - 1], points[i], limits.attempts_per_step));
        }
        lemma_loop_run(before, starting_step, earlier, limits);
        assert(loop_moves(points[points.len() - 2], points[points.len() - 1], limits.attempts_per_step));
        lemma_loop_move(before.last(), points.last(), earlier, limits);
    }
}

/// A worker keeps to the bound of its Turn, whatever the calls of the workers
/// before it, as long as those were covered by the steps that the journal
/// records when it begins. Where it waits for an approval in its turn, its
/// own calls are covered by the steps that the journal records then, so that
/// the same holds of the worker behind it.
pub proof fn law_worker_keeps_the_call_bound(
    points: Seq<LoopPoint>,
    open_question: Seq<RoutePoint>,
    starting_step: nat,
    earlier: nat,
    limits: LimitsView,
)
    requires
        loop_run(points, starting_step, limits),
        may_be_asking(points, open_question, limits),
        consumed_steps(points[0].turn.items@) == starting_step,
        starting_step <= limits.steps,
        earlier <= starting_step * limits.attempts_per_step,
    ensures
        earlier + made_by(points, open_question) <= limits.steps * limits.attempts_per_step,
        is_authorizing(points.last().step) ==> {
            &&& earlier + made_by(points, open_question) <= consumed_steps(points.last().turn.items@)
                * limits.attempts_per_step
            &&& consumed_steps(points.last().turn.items@) <= limits.steps
        },
{
    lemma_loop_run(points, starting_step, earlier, limits);
    let last = points.last();
    match last.step {
        TurnStep::AskModel(pending) => {
            let attempts = limits.attempts_per_step as int;
            let taken = pending.progress().step() as int;
            if open_question.len() > 0 {
                lemma_route_calls(open_question, limits.attempts_per_step);
            }
            assert(taken * attempts + attempts == (taken + 1) * attempts) by (nonlinear_arith);
            lemma_within(earlier, made_by(points, open_question), pending.progress().step() + 1, limits);
        },
        TurnStep::ApplySteering(next) => {
            lemma_stays_within(next.progress(), 0, 0, last, earlier, limits);
        },
        TurnStep::Request(next) => {
            lemma_stays_within(next.progress(), 0, 0, last, earlier, limits);
        },
        TurnStep::RecordMessage(_, _, next) => {
            lemma_stays_within(next.progress(), 1, 0, last, earlier, limits);
        },
        TurnStep::Verify(next) => {
            lemma_stays_within(next.progress(), 1, 1, last, earlier, limits);
        },
        TurnStep::RecordVerification(_, next) => {
            lemma_stays_within(next.pending().progress(), 1, 1, last, earlier, limits);
        },
        TurnStep::CloseSteering(next) => {
            lemma_stays_within(next.progress(), 1, 1, last, earlier, limits);
        },
        TurnStep::RecordCall(_, _, next) => {
            lemma_stays_within(next.progress(), 1, 0, last, earlier, limits);
        },
        TurnStep::Authorize(next) => {
            lemma_stays_within(next.progress(), 1, 1, last, earlier, limits);
        },
        TurnStep::BeforeEffect(next) => {
            lemma_stays_within(next.progress(), 1, 1, last, earlier, limits);
        },
        TurnStep::Execute(next) => {
            lemma_stays_within(next.progress(), 1, 1, last, earlier, limits);
        },
        TurnStep::RecordBatch(_, _, next) => {
            lemma_stays_within(next.progress(), 1, 0, last, earlier, limits);
        },
        TurnStep::AuthorizeNext(next) => {
            lemma_stays_within(next.progress(), 1, 1, last, earlier, limits);
        },
        TurnStep::ExecuteBatch(next) => {
            lemma_stays_within(next.progress(), 1, 1, last, earlier, limits);
        },
        _ => {},
    }
}

/// The bound of a Turn holds over the worker that began it and the worker that
/// resumes it after an approval: together they never make more Model calls
/// than steps times attempts per step. Replies that steering overtook count.
pub proof fn law_resumed_turn_keeps_the_call_bound(
    limits: LimitsView,
    first: Seq<LoopPoint>,
    found: Turn,
    point: ResumePoint,
    evidence: ApprovalResumeEvidence,
    second: Seq<LoopPoint>,
    open_question: Seq<RoutePoint>,
)
    requires
        loop_run(first, 0, limits),
        consumed_steps(first[0].turn.items@) == 0,
        is_authorizing(first.last().step),
        grows_quietly(first.last().turn.items@, found.items@),
        reports(evidence, found.items@, point),
        loop_run(second, evidence.consumed_steps as nat, limits),
        grows_quietly(found.items@, second[0].turn.items@),
        may_be_asking(second, open_question, limits),
    ensures
        made_by(first, Seq::empty()) + made_by(second, open_question) <= limits.steps * limits.attempts_per_step,
{
    law_worker_keeps_the_call_bound(first, Seq::empty(), 0, 0, limits);
    lemma_quiet(first.last().turn.items@, found.items@);
    lemma_quiet(found.items@, second[0].turn.items@);
    law_worker_keeps_the_call_bound(
        second,
        open_question,
        evidence.consumed_steps as nat,
        made_by(first, Seq::empty()),
        limits,
    );
}

/// Authorizing a call writes no entry that begins the outcome of a step.
pub proof fn law_authorization_uses_no_step(
    asked: AwaitPolicy,
    policy_reply: Result<PolicyDecision, HarnessError>,
    recorded: PolicyRecorded,
    approval_id: ApprovalId,
    waiting: AwaitApproval,
    approval_reply: Result<ApprovalDecision, HarnessError>,
    step: AuthorizeStep,
)
    requires
        policy_step(asked, policy_reply, step) || policy_outcome(recorded, approval_id, step) || approval_step(
            waiting,
            approval_reply,
            step,
        ),
    ensures
        match step {
            AuthorizeStep::RecordPolicy(item, _) => !opens_decision(item),
            AuthorizeStep::AskApproval(item, _) => !opens_decision(item),
            AuthorizeStep::RecordApproval(item, _) => !opens_decision(item),
            _ => true,
        },
{
}

/// Running a call writes no entry that begins the outcome of a step.
pub proof fn law_execution_uses_no_step(settlement: ToolCallSettlement)
    ensures
        !opens_decision(settlement_item(settlement)),
{
}

/// The records that open a Turn, and those of its context, begin no step: a
/// Turn is started with its whole budget.
pub proof fn law_opening_uses_no_step(
    prompt: String,
    binding: Option<ExecutionBinding>,
    actor: ActorIdentity,
    conversation: ConversationShape,
    blocks: Seq<ContextBlock>,
    memory: Option<MemoryObservation>,
    block: ContextBlock,
    summary: Option<ItemKind>,
    records: Seq<ItemKind>,
    k: int,
)
    requires
        summary matches Some(kind) ==> summary_record(block, kind),
        context_is_recorded(records, summary, blocks, actor, memory),
    ensures
        0 <= k < opening(prompt, binding, actor, conversation).len() ==> !opens_decision(
            opening(prompt, binding, actor, conversation)[k],
        ),
        0 <= k < records.len() ==> !opens_decision(records[k]),
{
}

} // verus!
