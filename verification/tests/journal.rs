//! Ordered recording of a Turn and steering.

use y_harness::error::{ExecutionPhase, HarnessError};
use y_harness::items::{Item, ItemKind, Thread, Turn, TurnStatus, TurnStopReason};
use y_harness::kernel::{ActorIdentity, AuthorityContext, SteeringId, ThreadId, TurnId};
use y_harness::runtime::journal::{
    apply_pending_steering, record, record_model_decision_if_current, settle_error,
    supersede_tool_calls_before_effect, JournalOutcome, JournalStep, StateWrite, StoreAction,
    WriteStep,
};
use y_harness::runtime::steering::{
    claim_thread, pending_steering_from_items, register_turn_control, steering_record,
    turn_control, validate_steering, ActiveTurnControl, MAX_PENDING_STEERING,
};
use y_harness::table::Table;

fn turn(items: Vec<Item>) -> Turn {
    Turn {
        id: TurnId::from_text("turn"),
        thread_id: ThreadId::from_text("thread"),
        status: TurnStatus::Running,
        items,
    }
}

fn control(turn: &Turn) -> ActiveTurnControl {
    ActiveTurnControl::recover(turn, AuthorityContext::local_process()).ok().expect("control")
}

fn user(text: &str) -> ItemKind {
    ItemKind::UserMessage { content: text.to_owned() }
}

fn store_error() -> HarnessError {
    HarnessError::State("disk".to_owned())
}

/// Answers every write with success and returns what was written.
fn run(turn: &mut Turn, control: &mut ActiveTurnControl, step: JournalStep) -> (Result<JournalOutcome, HarnessError>, Vec<ItemKind>) {
    let mut step = step;
    let mut written = Vec::new();
    loop {
        step = match step {
            JournalStep::Write(write) => {
                match write.action() {
                    StoreAction::Append(item) => written.push(item.kind.clone()),
                    StoreAction::AppendCalls(items) => {
                        written.extend(items.iter().map(|item| item.kind.clone()))
                    }
                    StoreAction::Finish(_) => {}
                }
                write.written(turn, control, Ok(()))
            }
            JournalStep::Reload(reload) => {
                let thread = Thread { id: turn.thread_id.clone(), turns: vec![turn.clone()] };
                reload.reloaded(turn, control, Ok(Some(thread)))
            }
            JournalStep::Done(result) => return (result, written),
        };
    }
}

#[test]
fn a_recorded_item_joins_the_turn() {
    let mut turn = turn(Vec::new());
    let mut control = control(&turn);
    let step = record(&turn, &control, user("hello"));
    let (result, written) = run(&mut turn, &mut control, step);
    assert!(result.is_ok());
    assert_eq!(written, [user("hello")]);
    assert_eq!(turn.items, [Item::new(user("hello"))]);
}

#[test]
fn a_failed_append_finishes_the_turn_as_failed() {
    let mut turn = turn(Vec::new());
    let mut control = control(&turn);
    let JournalStep::Write(write) = record(&turn, &control, user("hello")) else { panic!("a write") };
    let JournalStep::Write(finish) = write.written(&mut turn, &mut control, Err(store_error())) else {
        panic!("a terminal write")
    };
    assert!(matches!(finish.action(), StoreAction::Finish(TurnStatus::Failed)));
    match finish.written(&mut turn, &mut control, Ok(())) {
        JournalStep::Done(Err(error)) => assert_eq!(error, store_error()),
        _ => panic!("the failure is reported"),
    }
    assert_eq!(turn.status, TurnStatus::Failed);
}

#[test]
fn two_failures_in_a_row_are_both_reported() {
    let mut turn = turn(Vec::new());
    let write = StateWrite::Recording { item: Item::new(user("hello")) };
    let WriteStep::Pending(finish) = write.replied(&mut turn, Err(store_error())) else { panic!("pending") };
    match finish.replied(&mut turn, Err(HarnessError::State("full".to_owned()))) {
        WriteStep::Settled(Err(HarnessError::State(text))) => {
            assert!(text.starts_with("State Item append failed ("));
            assert!(text.contains("disk") && text.contains("full"));
        }
        _ => panic!("both failures are reported"),
    }
    assert_eq!(turn.status, TurnStatus::Running);
}

#[test]
fn missing_evidence_does_not_change_the_terminal_status() {
    let mut turn = turn(Vec::new());
    let mut control = control(&turn);
    let stop = HarnessError::TimedOut { phase: ExecutionPhase::Model };
    let write = settle_error(&turn, &mut control, &stop).ok().expect("settlement");
    match write.action() {
        StoreAction::Append(item) => assert_eq!(
            item.kind,
            ItemKind::TurnStopped { reason: TurnStopReason::TimedOut, phase: ExecutionPhase::Model }
        ),
        _ => panic!("evidence comes first"),
    }
    let WriteStep::Pending(finish) = write.replied(&mut turn, Err(store_error())) else { panic!("pending") };
    assert!(matches!(finish.action(), StoreAction::Finish(TurnStatus::TimedOut)));
    assert!(matches!(finish.replied(&mut turn, Ok(())), WriteStep::Settled(Ok(()))));
    assert_eq!(turn.status, TurnStatus::TimedOut);
    assert!(control.check_admission(&TurnId::from_text("turn"), "late").is_err());
}

#[test]
fn accepted_steering_is_applied_in_order() {
    let mut turn = turn(Vec::new());
    let mut control = control(&turn);
    for (id, text) in [("s1", "one"), ("s2", "two")] {
        control.check_admission(&turn.id, text).expect("admission");
        let receipt = control.queue(SteeringId::from_text(id), text.to_owned()).expect("receipt");
        assert_eq!(receipt.turn_id, turn.id);
    }
    let step = apply_pending_steering(&turn, &mut control, false, Some(3));
    let (result, written) = run(&mut turn, &mut control, step);
    let outcome = result.expect("applied");
    assert!(outcome.superseded);
    assert_eq!(outcome.invalidated_step, Some(3));
    assert_eq!(
        written,
        [
            ItemKind::SteeringApplied { steering_id: SteeringId::from_text("s1"), content: "one".to_owned() },
            ItemKind::SteeringApplied { steering_id: SteeringId::from_text("s2"), content: "two".to_owned() },
        ]
    );
    assert!(!control.has_pending());
}

#[test]
fn an_empty_queue_can_be_sealed() {
    let mut turn = turn(Vec::new());
    let mut control = control(&turn);
    let step = apply_pending_steering(&turn, &mut control, true, None);
    let (result, written) = run(&mut turn, &mut control, step);
    assert!(!result.expect("nothing to apply").superseded);
    assert!(written.is_empty());
    assert!(control.check_admission(&turn.id, "late").is_err());
}

#[test]
fn a_crossed_model_decision_is_not_recorded() {
    let mut turn = turn(Vec::new());
    let mut control = control(&turn);
    control.queue(SteeringId::from_text("s1"), "instead".to_owned()).expect("receipt");
    let decision = ItemKind::AssistantMessage {
        model_id: None,
        model_origin: None,
        content: "stale".to_owned(),
    };
    let step = record_model_decision_if_current(&turn, &control, 2, None, decision);
    let (result, written) = run(&mut turn, &mut control, step);
    assert!(result.expect("steered").superseded);
    assert_eq!(
        written,
        [ItemKind::SteeringApplied { steering_id: SteeringId::from_text("s1"), content: "instead".to_owned() }]
    );
}

#[test]
fn steering_before_an_effect_answers_every_call() {
    let mut turn = turn(Vec::new());
    let mut control = control(&turn);
    control.queue(SteeringId::from_text("s1"), "instead".to_owned()).expect("receipt");
    let step = supersede_tool_calls_before_effect(&turn, &control, &vec!["a", "b"]);
    let (result, written) = run(&mut turn, &mut control, step);
    assert!(result.expect("steered").superseded);
    assert_eq!(written.len(), 3);
    assert!(matches!(&written[0], ItemKind::ToolResult { call_id, is_error: true, .. } if call_id == "a"));
    assert!(matches!(&written[1], ItemKind::ToolResult { call_id, is_error: true, .. } if call_id == "b"));
    assert!(matches!(&written[2], ItemKind::SteeringApplied { .. }));
}

#[test]
fn a_failed_application_keeps_the_queue() {
    let mut turn = turn(Vec::new());
    let mut control = control(&turn);
    control.queue(SteeringId::from_text("s1"), "keep".to_owned()).expect("receipt");
    let JournalStep::Write(write) = apply_pending_steering(&turn, &mut control, false, None) else {
        panic!("a write")
    };
    let step = write.written(&mut turn, &mut control, Err(store_error()));
    let (result, _) = run(&mut turn, &mut control, step);
    assert!(result.is_err());
    assert!(control.has_pending());
}

#[test]
fn steering_is_bounded_before_it_is_accepted() {
    let turn = turn(Vec::new());
    let mut control = control(&turn);
    assert!(validate_steering(" ").is_err());
    assert!(control.check_admission(&TurnId::from_text("other"), "text").is_err());
    for index in 0..MAX_PENDING_STEERING {
        control.check_admission(&turn.id, "text").expect("room");
        control
            .queue(SteeringId::from_text(&format!("s{index}")), "text".to_owned())
            .expect("receipt");
    }
    assert!(control.check_admission(&turn.id, "text").is_err());
}

#[test]
fn replay_restores_the_queue() {
    let queued = |id: &str, text: &str| {
        Item::new(ItemKind::SteeringQueued {
            steering_id: SteeringId::from_text(id),
            submitted_by: ActorIdentity::LocalProcess,
            content: text.to_owned(),
        })
    };
    let applied = |id: &str, text: &str| {
        Item::new(ItemKind::SteeringApplied {
            steering_id: SteeringId::from_text(id),
            content: text.to_owned(),
        })
    };
    let items = vec![queued("s1", "one"), queued("s2", "two"), applied("s1", "one")];
    let pending = pending_steering_from_items(&items).ok().expect("queue");
    assert_eq!(pending.len(), 1);
    assert_eq!(pending[0].content, "two");
    let wrong = vec![queued("s1", "one"), queued("s2", "two"), applied("s2", "two")];
    assert!(matches!(pending_steering_from_items(&wrong), Err(HarnessError::State(_))));
}

#[test]
fn steering_records_name_their_actor() {
    let turn = turn(Vec::new());
    let control = control(&turn);
    let authority = AuthorityContext::local_process();
    let record = steering_record(&control, &turn.id, &"go on".to_owned(), &SteeringId::from_text("s1"), &authority)
        .expect("record");
    assert_eq!(
        record,
        ItemKind::SteeringQueued {
            steering_id: SteeringId::from_text("s1"),
            submitted_by: ActorIdentity::LocalProcess,
            content: "go on".to_owned(),
        }
    );
}

#[test]
fn one_turn_runs_per_thread_and_the_limit_holds() {
    let mut active = Table::new();
    let first = ThreadId::from_text("first");
    let second = ThreadId::from_text("second");
    claim_thread(&mut active, &first, 1).expect("claimed");
    assert!(matches!(claim_thread(&mut active, &first, 2), Err(HarnessError::State(_))));
    assert_eq!(
        claim_thread(&mut active, &second, 1),
        Err(HarnessError::RuntimeOverloaded { limit: 1 })
    );
    let turn = turn(Vec::new());
    let mut controls = Table::new();
    register_turn_control(&mut controls, &turn, 7).expect("registered");
    assert!(register_turn_control(&mut controls, &turn, 8).is_err());
    assert_eq!(turn_control(&controls, &turn.thread_id).ok(), Some(&7));
    assert!(turn_control(&controls, &second).is_err());
}
