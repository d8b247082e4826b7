//! The Agent Loop: authorization, tool batches, verification and resumption.

use y_harness::capability::{
    ModelOutput, ModelRegistry, ModelResponse, ToolBatchExecution, ToolDescriptor, ToolRegistry,
};
use y_harness::error::{
    ExecutionPhase, HarnessError, ModelProviderFailure, ModelProviderFailureKind,
};
use y_harness::items::{
    ApprovalDecision, Item, ItemKind, ModelToolCall, PolicyDecision, RiskLevel, Thread,
    ToolCallBatch, Turn, TurnStatus, VerificationOutcome,
};
use y_harness::json::JsonDocument;
use y_harness::kernel::{
    ActorIdentity, ApprovalId, AuthorityContext, CapabilityOrigin, SteeringId, ThreadId, ToolCallBatchId, TurnId,
};
use y_harness::runtime::authorize::{abandoned, authorize_tool_call, AuthorizeStep};
use y_harness::runtime::batch::{
    next_segment, settle_tool_call, JoinedTask, ParallelResults, ToolCallSettlement,
    ToolExecutionResult,
};
use y_harness::runtime::control::TurnExecutionOptions;
use y_harness::runtime::journal::{
    apply_pending_steering, record_model_decision_if_current, JournalOutcome, JournalStep,
};
use y_harness::runtime::observe::{
    elapsed_micros, model_observation, phase_observation, skipped_observation,
};
use y_harness::runtime::resume::{approval_resume_evidence, turn_prompt};
use y_harness::runtime::resumption::{
    abandons_approvals, prepare_approval_resume, resumable_turn, without_turn, ResumeStep,
};
use y_harness::runtime::route::ModelRoute;
use y_harness::runtime::routing::SettledModelOutput;
use y_harness::runtime::start::{opening_records, prepare_turn, require_thread, ConversationShape};
use y_harness::runtime::steering::{steering_record, ActiveTurnControl};
use y_harness::runtime::tool_run::{run_from, BatchStep};
use y_harness::runtime::turn::{begin_loop, model_request, AwaitOutput, TurnStep};
use y_harness::runtime::validate::{ObservationOutcome, StateCapacity, StateCapacityLevel};
use y_harness::table::Table;
use y_harness::time::{Duration, Moment};

const KEPT: JournalOutcome = JournalOutcome { superseded: false, invalidated_step: None };
const STEERED: JournalOutcome = JournalOutcome { superseded: true, invalidated_step: None };

fn json(text: &str) -> JsonDocument {
    JsonDocument::parse(text).expect("valid JSON")
}

fn registry(tools: &[(&str, ToolBatchExecution)]) -> ToolRegistry {
    let mut registry = ToolRegistry::new();
    for (name, execution) in tools {
        registry
            .register(
                CapabilityOrigin::BuiltIn,
                ToolDescriptor {
                    name: (*name).to_owned(),
                    description: "fixture".to_owned(),
                    input_schema: json("{}"),
                },
                *execution,
                Duration::zero(),
            )
            .expect("register");
    }
    registry
}

fn call(id: &str, name: &str) -> ModelToolCall {
    ModelToolCall { call_id: id.to_owned(), name: name.to_owned(), input: json("{}") }
}

fn turn(items: Vec<Item>) -> Turn {
    Turn {
        id: TurnId::from_text("turn"),
        thread_id: ThreadId::from_text("thread"),
        status: TurnStatus::Running,
        items,
    }
}

fn decided(output: ModelOutput) -> SettledModelOutput {
    SettledModelOutput {
        model_id: "test/model".to_owned(),
        model_origin: CapabilityOrigin::BuiltIn,
        output,
        continuation: None,
    }
}

fn asked(step: TurnStep) -> AwaitOutput {
    let TurnStep::ApplySteering(before) = step else { panic!("steering is applied first") };
    let TurnStep::Request(request) = before.steered(Ok(KEPT)) else { panic!("a request is compiled") };
    let TurnStep::AskModel(output) = request.digested(Ok("a".repeat(64))) else { panic!("the model is asked") };
    output
}

fn batch_id() -> ToolCallBatchId {
    ToolCallBatchId::from_text("batch")
}

fn message(content: &str) -> SettledModelOutput {
    decided(ModelOutput::Message { content: content.to_owned() })
}

#[test]
fn a_message_without_verifiers_completes_the_turn() {
    let output = asked(begin_loop(0, 4, Table::new()));
    assert_eq!(output.number(), 1);
    let TurnStep::RecordMessage(continuation, item, next) = output.settled(Ok(message("done")), batch_id()) else {
        panic!("a message is recorded")
    };
    assert!(continuation.is_none());
    assert_eq!(
        item,
        ItemKind::AssistantMessage {
            model_id: Some("test/model".to_owned()),
            model_origin: Some(CapabilityOrigin::BuiltIn),
            content: "done".to_owned(),
        }
    );
    let TurnStep::CloseSteering(closing) = next.recorded(Ok(KEPT), Vec::new(), 0) else { panic!("steering is closed") };
    assert!(closing.seals());
    let TurnStep::Finish(finish) = closing.closed(Ok(KEPT)) else { panic!("the turn finishes") };
    let mut turn = turn(Vec::new());
    match finish.finished(&mut turn, Ok(())) {
        TurnStep::Completed(content) => assert_eq!(content, "done"),
        _ => panic!("completed"),
    }
    assert_eq!(turn.status, TurnStatus::Completed);
}

#[test]
fn late_steering_reopens_the_loop() {
    let output = asked(begin_loop(0, 4, Table::new()));
    let TurnStep::RecordMessage(_, _, next) = output.settled(Ok(message("done")), batch_id()) else {
        panic!("a message is recorded")
    };
    let TurnStep::CloseSteering(closing) = next.recorded(Ok(KEPT), Vec::new(), 0) else { panic!("steering is closed") };
    let second = asked(closing.closed(Ok(STEERED)));
    assert_eq!(second.number(), 2);
}

#[test]
fn the_step_limit_ends_the_loop() {
    assert!(matches!(begin_loop(4, 4, Table::new()), TurnStep::Settle(HarnessError::MaxSteps(4))));
    let output = asked(begin_loop(3, 4, Table::new()));
    let TurnStep::RecordMessage(_, _, next) = output.settled(Ok(message("done")), batch_id()) else {
        panic!("a message is recorded")
    };
    assert!(matches!(next.recorded(Ok(STEERED), Vec::new(), 0), TurnStep::Settle(HarnessError::MaxSteps(4))));
}

#[test]
fn a_retryable_verification_failure_returns_to_the_loop() {
    let output = asked(begin_loop(0, 4, Table::new()));
    let TurnStep::RecordMessage(_, _, next) = output.settled(Ok(message("draft")), batch_id()) else {
        panic!("a message is recorded")
    };
    let seen = vec![Item::new(ItemKind::UserMessage { content: "hello".to_owned() })];
    let TurnStep::Verify(check) = next.recorded(Ok(KEPT), seen.clone(), 2) else { panic!("verified") };
    assert_eq!(check.judge_index(), 0);
    assert_eq!(check.subject(), (&"draft".to_owned(), &seen));
    let passed = VerificationOutcome::Passed { summary: None };
    let TurnStep::RecordVerification(_, recorded) = check.judged(&"first".to_owned(), Ok(passed), Ok(())) else {
        panic!("recorded")
    };
    let TurnStep::Verify(check) = recorded.recorded(Ok(KEPT)) else { panic!("verified again") };
    assert_eq!(check.judge_index(), 1);
    assert_eq!(check.subject(), (&"draft".to_owned(), &seen));
    let outcome = VerificationOutcome::Failed { reason: "wrong".to_owned(), retryable: true };
    let TurnStep::RecordVerification(item, recorded) = check.judged(&"judge".to_owned(), Ok(outcome.clone()), Ok(())) else {
        panic!("recorded")
    };
    assert!(matches!(item, ItemKind::VerificationResult { verifier, outcome: kept, .. } if verifier == "judge" && kept == outcome));
    let TurnStep::CloseSteering(closing) = recorded.recorded(Ok(KEPT)) else { panic!("steering is applied") };
    assert!(!closing.seals());
    assert_eq!(asked(closing.closed(Ok(KEPT))).number(), 2);
}

#[test]
fn a_request_shows_earlier_turns_before_the_current_one() {
    let item = |text: &str| Item::new(ItemKind::UserMessage { content: text.to_owned() });
    let tools = registry(&[("zeta", ToolBatchExecution::Sequential), ("alpha", ToolBatchExecution::Sequential)]);
    let request = model_request(
        &ThreadId::from_text("thread"),
        &TurnId::from_text("turn"),
        &AuthorityContext::local_process(),
        vec![item("earlier")],
        vec![item("now")],
        Vec::new(),
        &tools,
    );
    assert_eq!(request.items, [item("earlier"), item("now")]);
    let names: Vec<&str> = request.tools.iter().map(|tool| tool.name.as_str()).collect();
    assert_eq!(names, ["alpha", "zeta"]);
}

#[test]
fn a_final_verification_failure_ends_the_turn() {
    let output = asked(begin_loop(0, 4, Table::new()));
    let TurnStep::RecordMessage(_, _, next) = output.settled(Ok(message("draft")), batch_id()) else {
        panic!("a message is recorded")
    };
    let TurnStep::Verify(check) = next.recorded(Ok(KEPT), Vec::new(), 1) else { panic!("verified") };
    let outcome = VerificationOutcome::Failed { reason: "wrong".to_owned(), retryable: false };
    let TurnStep::RecordVerification(_, recorded) = check.judged(&"judge".to_owned(), Ok(outcome), Ok(())) else {
        panic!("recorded")
    };
    assert!(matches!(recorded.recorded(Ok(KEPT)), TurnStep::Settle(HarnessError::Verification(_))));
}

#[test]
fn a_call_identity_is_used_once() {
    let output = asked(begin_loop(0, 4, Table::new()));
    let echo = || {
        decided(ModelOutput::ToolCall { call_id: "c1".to_owned(), name: "echo".to_owned(), input: json("{}") })
    };
    let TurnStep::RecordCall(_, _, next) = output.settled(Ok(echo()), batch_id()) else { panic!("recorded") };
    let TurnStep::Authorize(authorize) = next.recorded(Ok(KEPT)) else { panic!("authorized") };
    assert_eq!(authorize.subject().0.call_id, "c1");
    assert_eq!(authorize.subject().1, &"a".repeat(64));
    let TurnStep::BeforeEffect(effect) = authorize.authorized(Ok(())) else { panic!("effect") };
    let TurnStep::Execute(execute) = effect.checked(Ok(KEPT)) else { panic!("executed") };
    let again = asked(execute.executed(Ok(())));
    assert_eq!(again.number(), 2);
    assert!(matches!(again.settled(Ok(echo()), batch_id()), TurnStep::Settle(HarnessError::Model(_))));
}

#[test]
fn a_batch_is_authorized_before_it_runs() {
    let output = asked(begin_loop(0, 4, Table::new()));
    let calls = vec![call("a", "echo"), call("b", "echo")];
    let TurnStep::RecordBatch(_, items, next) =
        output.settled(Ok(decided(ModelOutput::ToolCalls { calls: calls.clone() })), batch_id())
    else {
        panic!("recorded")
    };
    assert_eq!(items.len(), 2);
    assert!(matches!(
        &items[1],
        ItemKind::ToolCall { call_id, batch: Some(ToolCallBatch { index: 1, size: 2, .. }), .. } if call_id == "b"
    ));
    let TurnStep::AuthorizeNext(first) = next.recorded(Ok(KEPT)) else { panic!("first") };
    assert_eq!(first.subject().0.call_id, "a");
    let TurnStep::AuthorizeNext(second) = first.authorized(Ok(())) else { panic!("second") };
    assert_eq!(second.subject().0.call_id, "b");
    let TurnStep::ExecuteBatch(run) = second.authorized(Ok(())) else { panic!("run") };
    assert_eq!(run.subject(), &calls);
    assert_eq!(asked(run.executed(Ok(true))).number(), 2);
}

#[test]
fn a_denied_call_of_a_batch_ends_the_turn() {
    let output = asked(begin_loop(0, 4, Table::new()));
    let calls = vec![call("a", "echo"), call("b", "echo")];
    let TurnStep::RecordBatch(_, _, next) =
        output.settled(Ok(decided(ModelOutput::ToolCalls { calls })), batch_id())
    else {
        panic!("recorded")
    };
    let TurnStep::AuthorizeNext(first) = next.recorded(Ok(KEPT)) else { panic!("first") };
    let denied = HarnessError::PolicyDenied { tool: "echo".to_owned(), reason: "no".to_owned() };
    assert!(matches!(first.authorized(Err(denied)), TurnStep::Fail(HarnessError::PolicyDenied { .. })));
}

#[test]
fn an_asked_call_waits_for_its_approval() {
    let tools = registry(&[("echo", ToolBatchExecution::Sequential)]);
    let current = turn(Vec::new());
    let digest = "d".repeat(64);
    let AuthorizeStep::AskPolicy(policy) =
        authorize_tool_call(&tools, &current, &call("c1", "echo"), &digest, &ActorIdentity::LocalProcess)
    else {
        panic!("policy is asked")
    };
    assert_eq!(policy.request().call_id, "c1");
    let ask = PolicyDecision::Ask { reason: "danger".to_owned(), risk: RiskLevel::High };
    let AuthorizeStep::RecordPolicy(item, recorded) = policy.policy_replied(Ok(ask.clone())) else {
        panic!("recorded")
    };
    assert_eq!(
        item,
        ItemKind::PolicyDecision {
            call_id: "c1".to_owned(),
            tool_origin: Some(CapabilityOrigin::BuiltIn),
            decision: ask,
        }
    );
    let AuthorizeStep::AskApproval(item, approval) = recorded.recorded(ApprovalId::from_text("approval")) else {
        panic!("approval is asked")
    };
    assert!(matches!(
        item,
        ItemKind::ApprovalRequested { model_request_sha256: Some(sha), risk: RiskLevel::High, .. } if sha == digest
    ));
    assert_eq!(approval.question().reason, "danger");
    let AuthorizeStep::RecordApproval(_, recorded) = approval.approval_replied(Ok(ApprovalDecision::Approve)) else {
        panic!("decision is recorded")
    };
    assert!(matches!(recorded.recorded(), AuthorizeStep::Granted));
}

#[test]
fn denials_settle_with_their_reason() {
    let tools = registry(&[("echo", ToolBatchExecution::Sequential)]);
    let current = turn(Vec::new());
    let digest = "d".repeat(64);
    let AuthorizeStep::AskPolicy(policy) =
        authorize_tool_call(&tools, &current, &call("c1", "echo"), &digest, &ActorIdentity::LocalProcess)
    else {
        panic!("policy is asked")
    };
    let deny = PolicyDecision::Deny { reason: "no".to_owned() };
    let AuthorizeStep::RecordPolicy(_, recorded) = policy.policy_replied(Ok(deny)) else { panic!("recorded") };
    match recorded.recorded(ApprovalId::from_text("approval")) {
        AuthorizeStep::Settle(error) => assert_eq!(
            error,
            HarnessError::PolicyDenied { tool: "echo".to_owned(), reason: "no".to_owned() }
        ),
        _ => panic!("denied"),
    }
    assert!(matches!(
        authorize_tool_call(&tools, &current, &call("c1", "gone"), &digest, &ActorIdentity::LocalProcess),
        AuthorizeStep::Settle(HarnessError::UnknownTool(name)) if name == "gone"
    ));
    let failed = abandoned(
        HarnessError::Approval("lost".to_owned()),
        Ok(()),
        Ok(()),
    );
    assert_eq!(failed, HarnessError::Approval("lost".to_owned()));
}

#[test]
fn sequential_calls_fence_parallel_runs() {
    let tools = registry(&[
        ("safe", ToolBatchExecution::ParallelSafe),
        ("fence", ToolBatchExecution::Sequential),
    ]);
    let calls = vec![call("a", "safe"), call("b", "safe"), call("c", "fence"), call("d", "safe")];
    let first = next_segment(&tools, &calls, 0, 4).expect("segment");
    assert_eq!((first.end, first.parallel), (2, true));
    let second = next_segment(&tools, &calls, 2, 4).expect("segment");
    assert_eq!((second.end, second.parallel), (3, false));
    let last = next_segment(&tools, &calls, 3, 4).expect("segment");
    assert_eq!((last.end, last.parallel), (4, false));
    assert!(!next_segment(&tools, &calls, 0, 1).expect("segment").parallel);

    let BatchStep::BeforeEffect(ready) = run_from(&tools, &calls, 0, 4) else { panic!("ready") };
    assert_eq!(ready.pending(), ["a", "b", "c", "d"]);
    let BatchStep::Execute(running) = ready.checked(Ok(KEPT)) else { panic!("running") };
    assert!(running.parallel());
    assert_eq!(running.members().len(), 2);
    let BatchStep::BeforeEffect(ready) = running.executed(&tools, 4, Ok(())) else { panic!("fence") };
    assert_eq!(ready.pending(), ["c", "d"]);
    let BatchStep::Finished(completed) = ready.checked(Ok(STEERED)) else { panic!("superseded") };
    let BatchStep::BeforeEffect(ready) = run_from(&tools, &calls, 3, 4) else { panic!("ready") };
    let BatchStep::Execute(running) = ready.checked(Ok(KEPT)) else { panic!("running") };
    let BatchStep::Finished(whole) = running.executed(&tools, 4, Ok(())) else { panic!("finished") };
    assert_ne!(completed, whole);
}

fn settlement(id: &str) -> ToolCallSettlement {
    ToolCallSettlement {
        call_id: id.to_owned(),
        output: json("{}"),
        is_error: false,
        connector_evidence: Vec::new(),
    }
}

#[test]
fn parallel_results_keep_the_order_of_their_calls() {
    let mut results = ParallelResults::new(3);
    results.joined(JoinedTask::Finished(2, Ok(settlement("c")))).expect("third");
    results.joined(JoinedTask::Finished(0, Ok(settlement("a")))).expect("first");
    let stop = HarnessError::TimedOut { phase: ExecutionPhase::Tool };
    results.joined(JoinedTask::Finished(1, Err(stop.clone()))).expect("second");
    let settled = results.settle();
    let ids: Vec<&str> = settled
        .records
        .iter()
        .map(|record| match record {
            ItemKind::ToolResult { call_id, .. } => call_id.as_str(),
            _ => panic!("only results are recorded"),
        })
        .collect();
    assert_eq!(ids, ["a", "c"]);
    assert_eq!(settled.stop, Some(stop));
}

#[test]
fn tool_failures_become_bounded_results() {
    let authority = AuthorityContext::local_process();
    let failed = settle_tool_call(
        &call("c1", "echo"),
        &CapabilityOrigin::BuiltIn,
        &authority,
        Err(HarnessError::Tool("broken \"pipe\"".to_owned())),
        Ok(()),
    )
    .ok()
    .expect("a failure is a result");
    assert!(failed.is_error);
    assert!(failed.output.as_str().starts_with("{\"error\":"));
    assert!(failed.output.as_str().contains("broken \\\"pipe\\\""));
    let stop = HarnessError::Cancelled { phase: ExecutionPhase::Tool };
    assert_eq!(
        settle_tool_call(&call("c1", "echo"), &CapabilityOrigin::BuiltIn, &authority, Err(stop.clone()), Ok(())).err(),
        Some(stop)
    );
    let oversized = settle_tool_call(
        &call("c1", "echo"),
        &CapabilityOrigin::BuiltIn,
        &authority,
        Ok(ToolExecutionResult { output: json(&format!("\"{}\"", "x".repeat(1_048_576))), claims: Vec::new() }),
        Ok(()),
    )
    .ok()
    .expect("an oversized output is a result");
    assert!(oversized.is_error);
    let claimed = settle_tool_call(
        &call("c1", "echo"),
        &CapabilityOrigin::BuiltIn,
        &authority,
        Ok(ToolExecutionResult { output: json("\"abc\""), claims: vec![json(r#"{"claim":1}"#)] }),
        Ok(()),
    )
    .ok()
    .expect("result");
    assert_eq!(claimed.connector_evidence.len(), 1);
    assert_eq!(claimed.connector_evidence[0].tool, "echo");
    assert_eq!(
        claimed.connector_evidence[0].output_sha256,
        "6cc43f858fbb763301637b5af970e2a46b46f461f27e5a0f41e009c59b827b25"
    );
    let refused = HarnessError::Tool("claim".to_owned());
    let with_claims = |claims| {
        settle_tool_call(
            &call("c1", "echo"),
            &CapabilityOrigin::BuiltIn,
            &authority,
            Ok(ToolExecutionResult { output: json("\"abc\""), claims }),
            Err(refused.clone()),
        )
    };
    assert_eq!(with_claims(vec![json("1")]).err(), Some(refused.clone()));
    assert!(with_claims(Vec::new()).is_ok());
}

fn paused_turn(digest: &str) -> Turn {
    turn(vec![
        Item::new(ItemKind::UserMessage { content: "please".to_owned() }),
        Item::new(ItemKind::ToolCall {
            model_id: Some("test/model".to_owned()),
            model_origin: Some(CapabilityOrigin::BuiltIn),
            call_id: "c1".to_owned(),
            name: "echo".to_owned(),
            input: json("{}"),
            batch: None,
        }),
        Item::new(ItemKind::PolicyDecision {
            call_id: "c1".to_owned(),
            tool_origin: Some(CapabilityOrigin::BuiltIn),
            decision: PolicyDecision::Ask { reason: "danger".to_owned(), risk: RiskLevel::High },
        }),
        Item::new(ItemKind::ApprovalRequested {
            approval_id: ApprovalId::from_text("approval"),
            call_id: "c1".to_owned(),
            tool: "echo".to_owned(),
            reason: "danger".to_owned(),
            risk: RiskLevel::High,
            requested_by: Some(ActorIdentity::LocalProcess),
            tool_origin: Some(CapabilityOrigin::BuiltIn),
            model_request_sha256: Some(digest.to_owned()),
        }),
    ])
}

fn capacity() -> StateCapacity {
    StateCapacity {
        used_events: 0,
        event_limit: 100,
        remaining_events: 100,
        general_events_remaining: 99,
        terminal_event_reserve: 1,
        used_recovery_bytes: 0,
        recovery_byte_limit: 1_000,
        remaining_recovery_bytes: 1_000,
        general_recovery_bytes_remaining: 900,
        terminal_recovery_byte_reserve: 100,
        level: StateCapacityLevel::Healthy,
    }
}

fn model_route() -> ModelRoute {
    let mut models = ModelRegistry::new();
    models.register(CapabilityOrigin::BuiltIn, "test/model".to_owned()).expect("register");
    ModelRoute::from_registry(&models, &["test/model"]).ok().expect("route")
}

#[test]
fn a_paused_turn_resumes_with_its_recorded_call() {
    let digest = "d".repeat(64);
    let paused = paused_turn(&digest);
    assert_eq!(turn_prompt(&paused).expect("prompt"), "please");
    let evidence = approval_resume_evidence(&paused, &ActorIdentity::LocalProcess).ok().expect("evidence");
    assert_eq!(evidence.call_id, "c1");
    assert_eq!(evidence.model_request_item_index, 1);
    assert_eq!(evidence.consumed_steps, 1);
    let thread = Thread { id: ThreadId::from_text("thread"), turns: vec![paused.clone()] };
    let tools = registry(&[("echo", ToolBatchExecution::Sequential)]);
    let plan = prepare_approval_resume(
        &thread,
        &thread.id,
        &paused.id,
        &capacity(),
        &None,
        &ActorIdentity::LocalProcess,
        &model_route(),
        &tools,
    )
    .ok()
    .expect("plan");
    assert_eq!(plan.index(), 0);
    assert_eq!(plan.request_items(), 1);
    assert!(plan.is_coherent());
    let waiting = plan.confirmed(Ok(digest), &thread.id, &paused.id).ok().expect("same request");
    assert_eq!(waiting.question().id, ApprovalId::from_text("approval"));
    let ResumeStep::RecordApproval(item, recorded) = waiting.decided(Ok(ApprovalDecision::Approve)) else {
        panic!("decision is recorded")
    };
    let mut resumed = paused;
    resumed.items.push(Item::new(item));
    let ResumeStep::ExecuteBatch(run) = recorded.recorded(&resumed, &tools, Ok(KEPT)) else {
        panic!("the call runs")
    };
    assert_eq!(run.subject(), &vec![call("c1", "echo")]);
    assert_eq!(asked(run.executed(4, Ok(true))).number(), 2);
}

/// Answers every write of a journal operation with success.
fn write_all(turn: &mut Turn, control: &mut ActiveTurnControl, first: JournalStep) -> Result<JournalOutcome, HarnessError> {
    let mut step = first;
    loop {
        step = match step {
            JournalStep::Write(write) => write.written(turn, control, Ok(())),
            JournalStep::Reload(reload) => {
                let thread = Thread { id: turn.thread_id.clone(), turns: vec![turn.clone()] };
                reload.reloaded(turn, control, Ok(Some(thread)))
            }
            JournalStep::Done(result) => return result,
        };
    }
}

#[test]
fn a_reply_that_steering_overtook_counts_when_the_turn_is_resumed() {
    let digest = "d".repeat(64);
    let mut running = turn(vec![Item::new(ItemKind::UserMessage { content: "please".to_owned() })]);
    let mut control =
        ActiveTurnControl::recover(&running, AuthorityContext::local_process()).ok().expect("control");
    let first = asked(begin_loop(0, 2, Table::new()));
    let queued = steering_record(
        &control,
        &running.id,
        &"instead".to_owned(),
        &SteeringId::from_text("s1"),
        &AuthorityContext::local_process(),
    )
    .expect("admitted");
    running.items.push(Item::new(queued));
    control.queue(SteeringId::from_text("s1"), "instead".to_owned()).expect("queued");
    let TurnStep::RecordMessage(continuation, item, pending) = first.settled(Ok(message("stale")), batch_id()) else {
        panic!("a message is recorded")
    };
    let begun = record_model_decision_if_current(&running, &control, pending.number(), continuation, item);
    let outcome = write_all(&mut running, &mut control, begun).expect("steered");
    assert_eq!(outcome.invalidated_step, Some(1));
    assert!(running.items.last().expect("applied").replaces_reply);

    let second = asked(pending.recorded(Ok(outcome), Vec::new(), 0));
    assert_eq!(second.number(), 2);
    let proposed = ModelOutput::ToolCall { call_id: "c1".to_owned(), name: "echo".to_owned(), input: json("{}") };
    let TurnStep::RecordCall(continuation, item, pending) = second.settled(Ok(decided(proposed)), batch_id()) else {
        panic!("a call is recorded")
    };
    let begun = record_model_decision_if_current(&running, &control, pending.number(), continuation, item);
    write_all(&mut running, &mut control, begun).expect("recorded");
    running.items.extend(paused_turn(&digest).items.into_iter().skip(2));

    let evidence = approval_resume_evidence(&running, &ActorIdentity::LocalProcess).ok().expect("evidence");
    assert_eq!(evidence.consumed_steps, 2);
    let thread = Thread { id: ThreadId::from_text("thread"), turns: vec![running.clone()] };
    let tools = registry(&[("echo", ToolBatchExecution::Sequential)]);
    let plan = prepare_approval_resume(
        &thread,
        &thread.id,
        &running.id,
        &capacity(),
        &None,
        &ActorIdentity::LocalProcess,
        &model_route(),
        &tools,
    )
    .ok()
    .expect("plan");
    let waiting = plan.confirmed(Ok(digest), &thread.id, &running.id).ok().expect("same request");
    let ResumeStep::RecordApproval(item, recorded) = waiting.decided(Ok(ApprovalDecision::Approve)) else {
        panic!("decision is recorded")
    };
    running.items.push(Item::new(item));
    let ResumeStep::ExecuteBatch(run) = recorded.recorded(&running, &tools, Ok(KEPT)) else {
        panic!("the call runs")
    };
    assert!(matches!(run.executed(2, Ok(false)), TurnStep::Settle(HarnessError::MaxSteps(2))));
}

#[test]
fn steering_between_steps_uses_no_step() {
    let mut running = turn(Vec::new());
    let mut control =
        ActiveTurnControl::recover(&running, AuthorityContext::local_process()).ok().expect("control");
    control.queue(SteeringId::from_text("s1"), "more".to_owned()).expect("queued");
    let begun = apply_pending_steering(&running, &mut control, false, None);
    write_all(&mut running, &mut control, begun).expect("applied");
    assert_eq!(running.items.len(), 1);
    assert!(!running.items[0].replaces_reply);
}

#[test]
fn a_changed_request_is_not_resumed() {
    let paused = paused_turn(&"d".repeat(64));
    let thread = Thread { id: ThreadId::from_text("thread"), turns: vec![paused.clone()] };
    let tools = registry(&[("echo", ToolBatchExecution::Sequential)]);
    let plan = prepare_approval_resume(
        &thread,
        &thread.id,
        &paused.id,
        &capacity(),
        &None,
        &ActorIdentity::LocalProcess,
        &model_route(),
        &tools,
    )
    .ok()
    .expect("plan");
    assert!(plan.confirmed(Ok("e".repeat(64)), &thread.id, &paused.id).is_err());
    let other = ActorIdentity::Authenticated { authority: "a".to_owned(), subject: "b".to_owned() };
    assert!(approval_resume_evidence(&paused, &other).is_err());
}

#[test]
fn a_turn_is_prepared_before_it_has_state() {
    let options = TurnExecutionOptions {
        timeout: Some(Duration::from_secs(1)),
        ..TurnExecutionOptions::default()
    };
    let prepared = prepare_turn(&model_route(), &options, Ok(()), Moment { nanos: 1 }).ok().expect("prepared");
    assert_eq!(prepared.deadline, Some(Moment { nanos: 1_000_000_001 }));
    assert!(prepared.execution_binding.is_none());
    assert!(prepare_turn(
        &model_route(),
        &options,
        Err(HarnessError::InvalidConfiguration("context".to_owned())),
        Moment { nanos: 1 }
    )
    .is_err());
    let missing: Option<u8> = None;
    assert!(matches!(
        require_thread(missing, &ThreadId::from_text("gone")),
        Err(HarnessError::State(text)) if text.contains("gone")
    ));
    let records = opening_records(
        &"hello".to_owned(),
        None,
        &ActorIdentity::LocalProcess,
        ConversationShape { included_turns: Vec::new(), dropped_turns: 0, serialized_bytes: 0 },
    );
    assert_eq!(records[0], ItemKind::UserMessage { content: "hello".to_owned() });
}

#[test]
fn a_refused_call_never_reaches_its_tool() {
    let output = asked(begin_loop(0, 4, Table::new()));
    let echo =
        decided(ModelOutput::ToolCall { call_id: "c1".to_owned(), name: "echo".to_owned(), input: json("{}") });
    let TurnStep::RecordCall(_, _, next) = output.settled(Ok(echo), batch_id()) else { panic!("recorded") };
    let TurnStep::Authorize(authorize) = next.recorded(Ok(KEPT)) else { panic!("authorized") };
    let denied = HarnessError::PolicyDenied { tool: "echo".to_owned(), reason: "no".to_owned() };
    assert!(matches!(authorize.authorized(Err(denied)), TurnStep::Fail(HarnessError::PolicyDenied { .. })));
}

#[test]
fn an_overtaken_call_never_reaches_its_tool() {
    let output = asked(begin_loop(0, 4, Table::new()));
    let echo =
        decided(ModelOutput::ToolCall { call_id: "c1".to_owned(), name: "echo".to_owned(), input: json("{}") });
    let TurnStep::RecordCall(_, _, next) = output.settled(Ok(echo), batch_id()) else { panic!("recorded") };
    let TurnStep::Authorize(authorize) = next.recorded(Ok(KEPT)) else { panic!("authorized") };
    let TurnStep::BeforeEffect(effect) = authorize.authorized(Ok(())) else { panic!("granted") };
    assert_eq!(asked(effect.checked(Ok(STEERED))).number(), 2);
}

#[test]
fn an_approver_without_a_decision_is_told_that_nobody_waits() {
    let tools = registry(&[("echo", ToolBatchExecution::Sequential)]);
    let AuthorizeStep::AskPolicy(policy) = authorize_tool_call(
        &tools,
        &turn(Vec::new()),
        &call("c1", "echo"),
        &"d".repeat(64),
        &ActorIdentity::LocalProcess,
    ) else {
        panic!("policy is asked")
    };
    let ask = PolicyDecision::Ask { reason: "danger".to_owned(), risk: RiskLevel::Low };
    let AuthorizeStep::RecordPolicy(_, recorded) = policy.policy_replied(Ok(ask)) else { panic!("recorded") };
    let AuthorizeStep::AskApproval(_, pending) = recorded.recorded(ApprovalId::from_text("approval")) else {
        panic!("approval is asked")
    };
    let stop = HarnessError::TimedOut { phase: ExecutionPhase::Approval };
    assert!(matches!(pending.approval_replied(Err(stop)), AuthorizeStep::Abandon(HarnessError::TimedOut { .. })));
}

#[test]
fn only_the_running_turn_is_resumed_and_left_out_of_its_own_history() {
    let mut finished = turn(Vec::new());
    finished.id = TurnId::from_text("earlier");
    finished.status = TurnStatus::Completed;
    let thread = Thread { id: ThreadId::from_text("thread"), turns: vec![finished.clone(), turn(Vec::new())] };
    assert_eq!(resumable_turn(&thread, &thread.id, &TurnId::from_text("turn")).ok(), Some(1));
    let missing = resumable_turn(&thread, &thread.id, &TurnId::from_text("earlier")).expect_err("not running");
    assert_eq!(
        missing,
        HarnessError::State("turn earlier is not the running turn in thread thread".to_owned())
    );
    let prior = without_turn(thread, &TurnId::from_text("turn"));
    assert_eq!(prior.turns, [finished]);
}

#[test]
fn interrupted_turns_abandon_their_approvals() {
    let mut interrupted = turn(Vec::new());
    interrupted.status = TurnStatus::Interrupted;
    let thread = Thread { id: ThreadId::from_text("thread"), turns: vec![interrupted] };
    assert!(abandons_approvals(&Some(thread), &TurnId::from_text("turn")));
    let running = Thread { id: ThreadId::from_text("thread"), turns: vec![turn(Vec::new())] };
    assert!(!abandons_approvals(&Some(running), &TurnId::from_text("turn")));
    assert!(!abandons_approvals(&None, &TurnId::from_text("turn")));
}

#[test]
fn observations_carry_metadata_and_no_content() {
    let (thread, turn) = (ThreadId::from_text("thread"), TurnId::from_text("turn"));
    let stopped: Result<(), HarnessError> = Err(HarnessError::Cancelled { phase: ExecutionPhase::Policy });
    let phase = phase_observation(&thread, &turn, ExecutionPhase::Policy, "policy-engine", 7, &stopped);
    assert_eq!(phase.outcome, ObservationOutcome::Cancelled);
    assert_eq!((phase.capability.as_str(), phase.duration_micros), ("policy-engine", 7));
    assert!(phase.model_retry_index.is_none());
    let failure = ModelProviderFailure::new(ModelProviderFailureKind::RateLimited, "secret text", Some(429), Some(5))
        .expect("failure");
    let failed = model_observation(&thread, &turn, "model", 9, 2, 3, &Err(HarnessError::ModelProvider(failure)));
    assert_eq!(failed.provider_failure_kind, Some(ModelProviderFailureKind::RateLimited));
    assert_eq!(failed.provider_status_code, Some(429));
    assert_eq!(failed.provider_retry_after_ms, Some(5));
    assert_eq!((failed.model_retry_index, failed.stream_events_dropped), (Some(2), 3));
    let answered = model_observation(
        &thread,
        &turn,
        "model",
        9,
        0,
        0,
        &Ok(ModelResponse {
            output: ModelOutput::Message { content: "answer".to_owned() },
            usage: None,
            provider_model: Some("provider/model".to_owned()),
            provider_request_id: Some("request".to_owned()),
            continuation: None,
        }),
    );
    assert_eq!(answered.outcome, ObservationOutcome::Success);
    assert_eq!(answered.provider_model.as_deref(), Some("provider/model"));
    assert_eq!(answered.provider_request_id.as_deref(), Some("request"));
    let skipped = skipped_observation(&thread, &turn, "model");
    assert_eq!(skipped.outcome, ObservationOutcome::Skipped);
    assert_eq!(skipped.duration_micros, 0);
    assert_eq!(elapsed_micros(5), 5);
    assert_eq!(elapsed_micros(u128::MAX), u64::MAX);
}

#[test]
fn a_judgement_that_fails_its_check_ends_the_turn() {
    let output = asked(begin_loop(0, 4, Table::new()));
    let TurnStep::RecordMessage(_, _, next) = output.settled(Ok(message("draft")), batch_id()) else {
        panic!("a message is recorded")
    };
    let TurnStep::Verify(check) = next.recorded(Ok(KEPT), Vec::new(), 1) else { panic!("verified") };
    let refused = HarnessError::Verification("judge: text".to_owned());
    let passed = VerificationOutcome::Passed { summary: None };
    let step = check.judged(&"judge".to_owned(), Ok(passed), Err(refused.clone()));
    assert!(matches!(step, TurnStep::Settle(error) if error == refused));
}

#[test]
fn steering_behind_an_approval_request_does_not_move_the_boundary() {
    let paused = paused_turn(&"d".repeat(64));
    let mut steered = paused.clone();
    for id in ["s1", "s2"] {
        steered.items.push(Item::new(ItemKind::SteeringQueued {
            steering_id: SteeringId::from_text(id),
            submitted_by: ActorIdentity::LocalProcess,
            content: "more".to_owned(),
        }));
    }
    let plain = approval_resume_evidence(&paused, &ActorIdentity::LocalProcess).ok().expect("evidence");
    let moved = approval_resume_evidence(&steered, &ActorIdentity::LocalProcess).ok().expect("evidence");
    assert_eq!(plain.call_id, moved.call_id);
    assert_eq!(plain.model_request_item_index, moved.model_request_item_index);
    assert_eq!(plain.consumed_steps, moved.consumed_steps);
    assert_eq!(plain.current_batch_index, moved.current_batch_index);
    assert_eq!(plain.batch_calls.len(), moved.batch_calls.len());
}

#[test]
fn only_applied_steering_counts_as_an_overtaken_reply() {
    let mut paused = paused_turn(&"d".repeat(64));
    paused.items[0] = Item::replacing(ItemKind::UserMessage { content: "please".to_owned() });
    let evidence = approval_resume_evidence(&paused, &ActorIdentity::LocalProcess).ok().expect("evidence");
    assert_eq!(evidence.consumed_steps, 1);
}
