//! One Agent Loop step over a route of Models.

use y_harness::capability::{ModelOutput, ModelRegistry, ModelRequest, ModelResponse};
use y_harness::error::{ExecutionPhase, HarnessError, ModelProviderFailure, ModelProviderFailureKind};
use y_harness::items::{Item, ItemKind, ModelContinuation};
use y_harness::json::JsonDocument;
use y_harness::kernel::{AuthorityContext, CapabilityOrigin, ThreadId, TurnId};
use y_harness::runtime::route::{ModelRetryPolicy, ModelRoute};
use y_harness::runtime::routing::{
    complete_model_routed, settle_model_attempt, Attempt, ModelAttemptControl,
    ModelAttemptSettlement, ModelCallOutcome, RouteStep,
};
use y_harness::time::{Duration, Moment};

const START: Moment = Moment { nanos: 1_000_000_000 };

fn route() -> ModelRoute {
    let mut models = ModelRegistry::new();
    for id in ["test/primary", "test/secondary"] {
        models.register(CapabilityOrigin::BuiltIn, id.to_owned()).expect("register");
    }
    ModelRoute::from_registry(&models, &["test/primary", "test/secondary"]).ok().expect("route")
}

fn request(items: Vec<Item>) -> ModelRequest {
    ModelRequest {
        thread_id: ThreadId::from_text("thread"),
        turn_id: TurnId::from_text("turn"),
        authority: AuthorityContext::local_process(),
        items,
        context: Vec::new(),
        tools: Vec::new(),
    }
}

fn start(route: &mut ModelRoute, attempts: usize) -> RouteStep {
    complete_model_routed(route, &request(Vec::new()), Some("{}"), attempts, None, START)
}

fn reply(attempt: Attempt, route: &mut ModelRoute, outcome: ModelCallOutcome, delivered: u64) -> RouteStep {
    attempt.replied(route, settle_model_attempt(outcome), delivered, "thread", "turn", START)
}

fn failure(text: &str) -> ModelCallOutcome {
    ModelCallOutcome::Replied(Err(HarnessError::Model(text.to_owned())))
}

fn overloaded() -> ModelCallOutcome {
    ModelCallOutcome::Replied(Err(HarnessError::ModelProvider(
        ModelProviderFailure::new(ModelProviderFailureKind::Overloaded, "busy", Some(503), None)
            .expect("failure"),
    )))
}

fn message(content: &str) -> ModelCallOutcome {
    ModelCallOutcome::Replied(Ok(ModelResponse {
        output: ModelOutput::Message { content: content.to_owned() },
        usage: None,
        provider_model: None,
        provider_request_id: None,
        continuation: None,
    }))
}

fn call(step: RouteStep) -> Attempt {
    match step {
        RouteStep::Call(attempt) => attempt,
        RouteStep::Wait(_) => panic!("expected a call, found a wait"),
        RouteStep::Settled(Err(error), _) => panic!("expected a call, found {error:?}"),
        RouteStep::Settled(Ok(_), _) => panic!("expected a call, found an output"),
    }
}

fn error(step: RouteStep) -> HarnessError {
    match step {
        RouteStep::Settled(Err(error), _) => error,
        _ => panic!("expected a failure"),
    }
}

#[test]
fn a_plain_failure_leads_to_the_next_model() {
    let mut route = route();
    let first = call(start(&mut route, 16));
    assert_eq!(first.entry(), Some(0));
    let second = call(reply(first, &mut route, failure("no"), 0));
    assert_eq!(second.entry(), Some(1));
    match reply(second, &mut route, message("done"), 0) {
        RouteStep::Settled(Ok(output), skipped) => {
            assert_eq!(output.model_id, "test/secondary");
            assert_eq!(output.output, ModelOutput::Message { content: "done".to_owned() });
            assert!(skipped.is_empty());
        }
        _ => panic!("expected an output"),
    }
}

#[test]
fn the_last_failure_is_reported() {
    let mut route = route();
    let first = call(start(&mut route, 16));
    let second = call(reply(first, &mut route, failure("first"), 0));
    assert_eq!(
        error(reply(second, &mut route, failure("second"), 0)),
        HarnessError::Model("second".to_owned())
    );
}

#[test]
fn delivered_output_suppresses_failover() {
    let mut route = route();
    let first = call(start(&mut route, 16));
    let stopped = error(reply(first, &mut route, failure("late"), 1));
    assert!(stopped.to_string().contains("failover was suppressed"));
}

#[test]
fn the_attempt_budget_ends_the_step() {
    let mut route = route();
    let first = call(start(&mut route, 1));
    assert_eq!(error(reply(first, &mut route, failure("no"), 0)), HarnessError::MaxModelAttempts(1));
}

#[test]
fn a_retry_waits_and_calls_the_same_model_again() {
    let mut route = route();
    route.retry_policy = Some(
        ModelRetryPolicy::new(1, Duration::from_millis(10), Duration::from_millis(10)).expect("policy"),
    );
    let first = call(start(&mut route, 16));
    assert_eq!(first.retry_number(), 0);
    let wait = match reply(first, &mut route, overloaded(), 0) {
        RouteStep::Wait(wait) => wait,
        _ => panic!("expected a wait"),
    };
    assert!(5 <= wait.length().as_millis() && wait.length().as_millis() <= 10);
    assert_eq!(wait.plan(START), Ok(true));
    let outcome = wait.slept(Ok(()));
    let again = call(wait.waited(&route, outcome, START));
    assert_eq!(again.entry(), Some(0));
    assert_eq!(again.retry_number(), 1);
    let next = call(reply(again, &mut route, overloaded(), 0));
    assert_eq!(next.entry(), Some(1));
}

#[test]
fn a_wait_that_cannot_fit_yields_to_the_next_model() {
    let mut route = route();
    route.attempt_timeout = Some(Duration::from_millis(4));
    route.retry_policy = Some(
        ModelRetryPolicy::new(1, Duration::from_millis(10), Duration::from_millis(10)).expect("policy"),
    );
    let first = call(start(&mut route, 16));
    assert_eq!(first.call_deadline(), Some(Moment { nanos: START.nanos + 4_000_000 }));
    let wait = match reply(first, &mut route, overloaded(), 0) {
        RouteStep::Wait(wait) => wait,
        _ => panic!("expected a wait"),
    };
    let outcome = wait.plan(START);
    assert_eq!(outcome, Ok(false));
    let next = call(wait.waited(&route, outcome, START));
    assert_eq!(next.entry(), Some(1));
}

#[test]
fn a_cancelled_wait_ends_the_step() {
    let mut route = route();
    route.retry_policy = Some(
        ModelRetryPolicy::new(1, Duration::from_millis(10), Duration::from_millis(10)).expect("policy"),
    );
    let first = call(start(&mut route, 16));
    let wait = match reply(first, &mut route, overloaded(), 0) {
        RouteStep::Wait(wait) => wait,
        _ => panic!("expected a wait"),
    };
    let cancelled = HarnessError::Cancelled { phase: ExecutionPhase::Model };
    let outcome = wait.slept(Err(cancelled.clone()));
    assert_eq!(error(wait.waited(&route, outcome, START)), cancelled);
}

#[test]
fn an_attempt_timeout_opens_the_cooldown() {
    let mut route = route();
    route.attempt_timeout = Some(Duration::from_millis(4));
    route.timeout_cooldown = Some(Duration::from_secs(60));
    let first = call(start(&mut route, 16));
    let timed_out = ModelCallOutcome::Stopped(HarnessError::TimedOut { phase: ExecutionPhase::Model });
    let second = call(reply(first, &mut route, timed_out, 0));
    assert_eq!(second.entry(), Some(1));
    let later = call(start(&mut route, 16));
    assert_eq!(later.entry(), Some(1));
    match reply(later, &mut route, message("done"), 0) {
        RouteStep::Settled(Ok(output), skipped) => {
            assert_eq!(output.model_id, "test/secondary");
            assert_eq!(skipped, [0]);
        }
        _ => panic!("expected an output"),
    }
    assert_eq!(route.timeout_cooldowns.len(), 1);
    let expired = Moment { nanos: START.nanos + 60_000_000_000 };
    let again = call(complete_model_routed(&mut route, &request(Vec::new()), Some("{}"), 16, None, expired));
    assert_eq!(again.entry(), Some(0));
    assert_eq!(route.timeout_cooldowns.len(), 0);
}

#[test]
fn the_turn_deadline_is_not_crossed_by_failover() {
    let mut route = route();
    let limit = Moment { nanos: START.nanos + 5 };
    let first = call(complete_model_routed(
        &mut route,
        &request(Vec::new()),
        Some("{}"),
        16,
        Some(limit),
        START,
    ));
    let timed_out = HarnessError::TimedOut { phase: ExecutionPhase::Model };
    assert_eq!(
        error(reply(first, &mut route, ModelCallOutcome::Stopped(timed_out.clone()), 0)),
        timed_out
    );
}

#[test]
fn a_pinned_chain_stays_with_its_model() {
    let mut route = route();
    let chain = |model: &str| {
        vec![
            Item::new(ItemKind::ProviderContinuation {
                model_id: model.to_owned(),
                model_origin: CapabilityOrigin::BuiltIn,
                continuation: ModelContinuation::new(
                    "format",
                    vec![JsonDocument::parse(r#"{"opaque":"x"}"#).expect("part")],
                )
                .expect("continuation"),
            }),
            Item::new(ItemKind::ToolCall {
                model_id: Some(model.to_owned()),
                model_origin: Some(CapabilityOrigin::BuiltIn),
                call_id: "call".to_owned(),
                name: "echo".to_owned(),
                input: JsonDocument::parse("{}").expect("input"),
                batch: None,
            }),
            Item::new(ItemKind::ToolResult {
                call_id: "call".to_owned(),
                output: JsonDocument::parse("{}").expect("output"),
                is_error: false,
                connector_evidence: Vec::new(),
            }),
        ]
    };
    let pinned = call(complete_model_routed(
        &mut route,
        &request(chain("test/secondary")),
        Some("{}"),
        16,
        None,
        START,
    ));
    assert_eq!(pinned.entry(), Some(1));
    let mut own = request(chain("test/secondary"));
    pinned.narrow(&route, &mut own).expect("own state");
    assert_eq!(own.items.len(), 3);
    let mut foreign = request(chain("test/primary"));
    pinned.narrow(&route, &mut foreign).expect("foreign state");
    assert_eq!(foreign.items.len(), 2);
    assert_eq!(
        error(reply(pinned, &mut route, failure("no"), 0)),
        HarnessError::Model("no".to_owned())
    );
    let unavailable = error(complete_model_routed(
        &mut route,
        &request(chain("test/gone")),
        Some("{}"),
        16,
        None,
        START,
    ));
    assert!(matches!(unavailable, HarnessError::State(text) if text.contains("test/gone")));
}

#[test]
fn oversized_answers_are_failures_of_the_attempt() {
    let settled: ModelAttemptSettlement = settle_model_attempt(message(&"x".repeat(1_048_577)));
    assert_eq!(settled.control, ModelAttemptControl::NoSignal);
    assert!(matches!(settled.result, Err(HarnessError::Model(_))));
    let cancelled = HarnessError::Cancelled { phase: ExecutionPhase::Model };
    let stopped = settle_model_attempt(ModelCallOutcome::Stopped(cancelled));
    assert_eq!(stopped.control, ModelAttemptControl::Cancelled);
}

#[test]
fn unencodable_requests_reach_no_model() {
    let mut route = route();
    assert!(matches!(
        error(complete_model_routed(&mut route, &request(Vec::new()), None, 16, None, START)),
        HarnessError::Model(_)
    ));
}

#[test]
fn a_route_that_lost_its_entries_ends_the_step() {
    let mut full = route();
    let mut empty = route();
    empty.entries.clear();
    let lost = HarnessError::InvalidConfiguration("Model route must contain at least one Model".to_owned());
    let attempt = call(start(&mut full, 16));
    let mut narrowed = request(Vec::new());
    assert_eq!(attempt.narrow(&empty, &mut narrowed), Err(lost.clone()));
    assert_eq!(error(reply(attempt, &mut empty, failure("no"), 0)), lost);
    full.retry_policy =
        Some(ModelRetryPolicy::new(1, Duration::from_millis(1), Duration::from_millis(1)).expect("policy"));
    let first = call(start(&mut full, 16));
    let RouteStep::Wait(wait) = reply(first, &mut full, overloaded(), 0) else { panic!("a retry waits") };
    assert_eq!(error(wait.waited(&empty, Ok(false), START)), lost);
}
