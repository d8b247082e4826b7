//! Validation, limits, routes and policies of the runtime.

use y_harness::capability::{
    ModelOutput, ModelRegistry, ModelRequest, ModelResponse, ToolAuthorization, ToolBatchExecution,
    ToolDescriptor, ToolRegistry, ApprovalRequest,
};
use y_harness::error::{HarnessError, ModelProviderFailure, ModelProviderFailureKind};
use y_harness::items::{
    ApprovalDecision, Item, ItemKind, ModelContinuation, ModelToolCall, PolicyDecision, RiskLevel,
};
use y_harness::json::{JsonDocument, MAX_JSON_DEPTH};
use y_harness::kernel::{
    ActorIdentity, ApprovalId, AuthorityContext, CapabilityOrigin, ThreadId, TurnId,
};
use y_harness::runtime::continuation::{
    pending_provider_continuation_target, retain_model_continuations,
};
use y_harness::runtime::harness::{
    HarnessRuntime, MAX_MODEL_ATTEMPTS_PER_STEP, MAX_PARALLEL_TOOL_CALLS,
};
use y_harness::runtime::policy::{AllowListPolicy, ApprovalHandler, DenyAllApprovals, PolicyEngine};
use y_harness::runtime::route::{
    stable_retry_hash, FrozenModelIdentity, ModelRetryPolicy, ModelRoute, MAX_MODEL_RETRIES,
    MAX_MODEL_TIMEOUT_COOLDOWN_MS,
};
use y_harness::runtime::validate::{
    bounded_runtime_error, encode_calls, model_request_sha256, observation_outcome,
    require_runtime_capacity, validate_approval_decision, validate_model_output,
    validate_model_request, validate_model_response, validate_model_tool_call,
    validate_model_tool_calls, validate_policy_decision, validate_prompt, validate_tool_output,
    ObservationOutcome, StateCapacity, StateCapacityLevel, MAX_POLICY_REASON_BYTES,
    MAX_PROVIDER_EVIDENCE_ID_BYTES,
};
use y_harness::time::{Duration, Moment};

fn json(text: &str) -> JsonDocument {
    JsonDocument::parse(text).expect("valid JSON")
}

fn message(content: &str) -> ModelResponse {
    ModelResponse {
        output: ModelOutput::Message { content: content.to_owned() },
        usage: None,
        provider_model: None,
        provider_request_id: None,
        continuation: None,
    }
}

fn echo() -> ToolDescriptor {
    ToolDescriptor {
        name: "echo".to_owned(),
        description: "Echoes text".to_owned(),
        input_schema: json(r#"{"type":"object"}"#),
    }
}

fn registry() -> ToolRegistry {
    let mut tools = ToolRegistry::new();
    tools
        .register(CapabilityOrigin::BuiltIn, echo(), ToolBatchExecution::Sequential, Duration::zero())
        .expect("register tool");
    tools
}

fn usage_models() -> ModelRegistry {
    let mut models = ModelRegistry::new();
    models
        .register(CapabilityOrigin::BuiltIn, "test/usage-model".to_owned())
        .expect("register model");
    models
}

fn route_models() -> ModelRegistry {
    let mut models = ModelRegistry::new();
    models
        .register(CapabilityOrigin::BuiltIn, "test/route-primary".to_owned())
        .expect("primary");
    models
        .register(CapabilityOrigin::BuiltIn, "test/route-secondary".to_owned())
        .expect("secondary");
    models
}

fn usage_runtime() -> HarnessRuntime {
    HarnessRuntime::new(
        FrozenModelIdentity::capture(Some("test/usage-model".to_owned())),
        ToolRegistry::new(),
    )
}

#[test]
fn policy_and_approval_reasons_are_bounded_before_state() {
    assert!(
        validate_policy_decision(&PolicyDecision::Ask {
            reason: "x".repeat(MAX_POLICY_REASON_BYTES + 1),
            risk: RiskLevel::High,
        })
        .is_err()
    );
    assert!(
        validate_approval_decision(&ApprovalDecision::Deny {
            reason: "\n".to_owned(),
        })
        .is_err()
    );
}

#[test]
fn runtime_turn_preflight_preserves_minimum_general_event_budget() {
    let limit: u64 = 67_108_864;
    let reserve: u64 = 65_536;
    let capacity = StateCapacity {
        used_events: 999_996,
        event_limit: 1_000_000,
        remaining_events: 4,
        general_events_remaining: 3,
        terminal_event_reserve: 1,
        used_recovery_bytes: 0,
        recovery_byte_limit: limit,
        remaining_recovery_bytes: limit,
        general_recovery_bytes_remaining: limit - reserve,
        terminal_recovery_byte_reserve: reserve,
        level: StateCapacityLevel::Critical,
    };
    assert!(require_runtime_capacity(&capacity).is_err());
    assert!(
        require_runtime_capacity(&StateCapacity {
            general_events_remaining: 4,
            ..capacity
        })
        .is_ok()
    );
}

#[test]
fn runtime_rejects_an_unbounded_parallel_tool_limit() {
    for limit in [0, MAX_PARALLEL_TOOL_CALLS + 1] {
        let runtime = HarnessRuntime::new(
            FrozenModelIdentity::capture(Some("test/echo-model".to_owned())),
            ToolRegistry::new(),
        );
        assert!(runtime.with_max_parallel_tool_calls(limit).is_err());
    }
}

#[test]
fn provider_continuation_rejects_tool_call_provenance_tampering() {
    let items = vec![
        Item::new(ItemKind::UserMessage { content: "tampered".to_owned() }),
        Item::new(ItemKind::ProviderContinuation {
            model_id: "test/continuation-model".to_owned(),
            model_origin: CapabilityOrigin::BuiltIn,
            continuation: ModelContinuation::new(
                "test.provider.reasoning.v1",
                vec![json(r#"{"opaque":"ciphertext"}"#)],
            )
            .expect("continuation"),
        }),
        Item::new(ItemKind::ToolCall {
            model_id: Some("test/other-model".to_owned()),
            model_origin: Some(CapabilityOrigin::BuiltIn),
            call_id: "tampered-call".to_owned(),
            name: "echo".to_owned(),
            input: json("{}"),
            batch: None,
        }),
        Item::new(ItemKind::ToolResult {
            call_id: "tampered-call".to_owned(),
            output: json(r#"{"ok":true}"#),
            is_error: false,
            connector_evidence: Vec::new(),
        }),
    ];

    let error = pending_provider_continuation_target(&items).expect_err("provenance mismatch");
    assert!(error.to_string().contains("provenance differ"));
}

fn completed_chain() -> Vec<Item> {
    vec![
        Item::new(ItemKind::UserMessage { content: "first turn".to_owned() }),
        Item::new(ItemKind::ProviderContinuation {
            model_id: "test/continuation-model".to_owned(),
            model_origin: CapabilityOrigin::BuiltIn,
            continuation: ModelContinuation::new(
                "test.provider.reasoning.v1",
                vec![json(r#"{"opaque":"ciphertext"}"#)],
            )
            .expect("continuation"),
        }),
        Item::new(ItemKind::ToolCall {
            model_id: Some("test/continuation-model".to_owned()),
            model_origin: Some(CapabilityOrigin::BuiltIn),
            call_id: "completed-call".to_owned(),
            name: "echo".to_owned(),
            input: json("{}"),
            batch: None,
        }),
        Item::new(ItemKind::ToolResult {
            call_id: "completed-call".to_owned(),
            output: json(r#"{"ok":true}"#),
            is_error: false,
            connector_evidence: Vec::new(),
        }),
        Item::new(ItemKind::AssistantMessage {
            model_id: Some("test/continuation-model".to_owned()),
            model_origin: Some(CapabilityOrigin::BuiltIn),
            content: "first turn complete".to_owned(),
        }),
        Item::new(ItemKind::UserMessage { content: "second turn".to_owned() }),
    ]
}

#[test]
fn provider_continuation_does_not_pin_a_later_user_turn() {
    let items = completed_chain();
    assert!(
        pending_provider_continuation_target(&items)
            .expect("completed chain")
            .is_none()
    );
}

#[test]
fn an_open_continuation_pins_its_model() {
    let mut items = completed_chain();
    items.truncate(4);
    let target = pending_provider_continuation_target(&items)
        .expect("open chain")
        .expect("pinned model");
    assert_eq!(target.model_id, "test/continuation-model");
    assert_eq!(target.model_origin, CapabilityOrigin::BuiltIn);
}

#[test]
fn continuations_reach_only_their_own_model() {
    let request = |items: Vec<Item>| ModelRequest {
        thread_id: ThreadId::from_text("thread-1"),
        turn_id: TurnId::from_text("turn-1"),
        authority: AuthorityContext::local_process(),
        items,
        context: Vec::new(),
        tools: Vec::new(),
    };
    let mut items = completed_chain();
    items.truncate(4);
    let mut own = request(items.clone());
    retain_model_continuations(&mut own, "test/continuation-model", &CapabilityOrigin::BuiltIn);
    assert_eq!(own.items, items);
    let mut other = request(items.clone());
    retain_model_continuations(&mut other, "test/other-model", &CapabilityOrigin::BuiltIn);
    items.remove(1);
    assert_eq!(other.items, items);
}

#[test]
fn provider_model_evidence_is_bounded_before_observation() {
    let mut response = message("unused");
    response.provider_model = Some("x".repeat(MAX_PROVIDER_EVIDENCE_ID_BYTES + 1));

    let error = validate_model_response(&response).expect_err("oversized provider model");
    assert!(error.to_string().contains("provider model"));
}

#[test]
fn model_tool_call_batch_rejects_duplicate_correlations() {
    let calls = vec![
        ModelToolCall {
            call_id: "duplicate".to_owned(),
            name: "echo".to_owned(),
            input: json(r#"{"text":"first"}"#),
        },
        ModelToolCall {
            call_id: "duplicate".to_owned(),
            name: "echo".to_owned(),
            input: json(r#"{"text":"second"}"#),
        },
    ];

    let error = validate_model_tool_calls(&calls).expect_err("duplicate correlation");
    assert!(error.to_string().contains("reused correlation"));
}

#[test]
fn model_failover_route_rejects_empty_duplicate_and_unknown_identities() {
    let models = usage_models();

    assert!(matches!(
        HarnessRuntime::from_model_registry_failover(&models, &[], ToolRegistry::new()),
        Err(HarnessError::InvalidConfiguration(_))
    ));
    assert!(matches!(
        HarnessRuntime::from_model_registry_failover(
            &models,
            &["test/usage-model", "test/usage-model"],
            ToolRegistry::new(),
        ),
        Err(HarnessError::InvalidConfiguration(_))
    ));
    assert!(matches!(
        HarnessRuntime::from_model_registry_failover(
            &models,
            &["test/missing-model"],
            ToolRegistry::new(),
        ),
        Err(HarnessError::UnknownModel(id)) if id == "test/missing-model"
    ));
    let runtime =
        HarnessRuntime::from_model_registry(&models, "test/usage-model", ToolRegistry::new())
            .ok()
            .expect("single Model route");
    assert!(matches!(
        runtime.with_model_attempt_timeout(Duration::zero()),
        Err(HarnessError::InvalidConfiguration(_))
    ));
    let single =
        HarnessRuntime::from_model_registry(&models, "test/usage-model", ToolRegistry::new())
            .ok()
            .expect("single Model route");
    assert!(matches!(
        single.with_model_timeout_cooldown(Duration::from_secs(1)),
        Err(HarnessError::InvalidConfiguration(_))
    ));
}

#[test]
fn model_timeout_cooldown_expires_and_never_removes_the_complete_route() {
    let models = route_models();
    for cooldown in [
        Duration::zero(),
        Duration::from_millis(MAX_MODEL_TIMEOUT_COOLDOWN_MS + 1),
    ] {
        let runtime = HarnessRuntime::from_model_registry_failover(
            &models,
            &["test/route-primary", "test/route-secondary"],
            ToolRegistry::new(),
        )
        .ok()
        .expect("route");
        assert!(matches!(
            runtime.with_model_timeout_cooldown(cooldown),
            Err(HarnessError::InvalidConfiguration(_))
        ));
    }
    let mut route =
        ModelRoute::from_registry(&models, &["test/route-primary", "test/route-secondary"])
            .ok()
            .expect("route");
    route.timeout_cooldown = Some(Duration::from_secs(1));
    let now = Moment { nanos: 5_000_000_000 };
    route
        .record_attempt_timeout("test/route-primary", now)
        .expect("record timeout");

    let (available, cooling) = route
        .partition_timeout_cooldown(vec![0, 1], now)
        .expect("partition");
    assert_eq!(
        route.entries[available[0]].identity.get().expect("identity"),
        "test/route-secondary"
    );
    assert_eq!(
        route.entries[cooling[0]].identity.get().expect("identity"),
        "test/route-primary"
    );

    let (available, cooling) = route
        .partition_timeout_cooldown(vec![0, 1], Moment { nanos: 6_000_000_000 })
        .expect("expired partition");
    assert_eq!(available.len(), 2);
    assert!(cooling.is_empty());

    route
        .record_attempt_timeout("test/route-primary", now)
        .expect("record primary timeout");
    route
        .record_attempt_timeout("test/route-secondary", now)
        .expect("record secondary timeout");
    let (available, cooling) = route
        .partition_timeout_cooldown(vec![0, 1], now)
        .expect("all cooling partition");
    assert_eq!(available.len(), 2);
    assert!(cooling.is_empty());
}

#[test]
fn model_retry_policy_rejects_unbounded_or_inverted_delays() {
    let policy =
        ModelRetryPolicy::new(2, Duration::from_millis(10), Duration::from_millis(100))
            .expect("retry policy");
    assert_eq!(policy.max_retries(), 2);
    assert_eq!(policy.initial_delay(), Duration::from_millis(10));
    assert_eq!(policy.max_delay(), Duration::from_millis(100));
    assert!(
        ModelRetryPolicy::new(0, Duration::from_millis(1), Duration::from_millis(1)).is_err()
    );
    assert!(
        ModelRetryPolicy::new(
            MAX_MODEL_RETRIES + 1,
            Duration::from_millis(1),
            Duration::from_millis(1)
        )
        .is_err()
    );
    assert!(ModelRetryPolicy::new(1, Duration::zero(), Duration::from_millis(1)).is_err());
    assert!(
        ModelRetryPolicy::new(1, Duration::from_millis(2), Duration::from_millis(1)).is_err()
    );
}

#[test]
fn model_attempt_budget_is_bounded_and_exposes_the_turn_ceiling() {
    let runtime = usage_runtime()
        .with_max_model_attempts_per_step(3)
        .ok()
        .expect("bounded attempt budget")
        .with_max_steps(4);

    assert_eq!(runtime.model_attempts_per_turn_bound(), 12);
    assert!(matches!(
        usage_runtime().with_max_model_attempts_per_step(0),
        Err(HarnessError::InvalidConfiguration(_))
    ));
    assert!(matches!(
        usage_runtime().with_max_model_attempts_per_step(MAX_MODEL_ATTEMPTS_PER_STEP + 1),
        Err(HarnessError::InvalidConfiguration(_))
    ));
}

#[test]
fn model_and_tool_json_shape_is_bounded_before_serialization() {
    let mut text = "null".to_owned();
    for _ in 0..=MAX_JSON_DEPTH {
        text = format!("[{text}]");
    }
    let nested = json(&text);
    assert!(matches!(
        validate_model_tool_call("call-1", "tool", &nested),
        Err(HarnessError::Model(_))
    ));
    assert!(matches!(
        validate_tool_output(&nested),
        Err(HarnessError::Tool(_))
    ));
    let request = ModelRequest {
        thread_id: ThreadId::from_text("thread-1"),
        turn_id: TurnId::from_text("turn-1"),
        authority: AuthorityContext::local_process(),
        items: vec![Item::new(ItemKind::ToolCall {
            model_id: Some("test/model".to_owned()),
            model_origin: Some(CapabilityOrigin::BuiltIn),
            call_id: "call-1".to_owned(),
            name: "tool".to_owned(),
            input: nested,
            batch: None,
        })],
        context: Vec::new(),
        tools: Vec::new(),
    };
    assert!(matches!(
        validate_model_request(&request, Some("{}")),
        Err(HarnessError::Model(_))
    ));
}

#[test]
fn a_request_digest_covers_its_encoding() {
    let request = ModelRequest {
        thread_id: ThreadId::from_text("thread-1"),
        turn_id: TurnId::from_text("turn-1"),
        authority: AuthorityContext::local_process(),
        items: Vec::new(),
        context: Vec::new(),
        tools: Vec::new(),
    };
    assert_eq!(
        model_request_sha256(&request, Some("abc")).expect("digest"),
        "ba7816bf8f01cfea414140de5dae2223b00361a396177a9cb410ff61f20015ad"
    );
    assert!(matches!(model_request_sha256(&request, None), Err(HarnessError::Model(_))));
}

#[test]
fn duplicate_tool_names_are_rejected() {
    let mut registry = registry();
    let error = registry
        .register(CapabilityOrigin::BuiltIn, echo(), ToolBatchExecution::Sequential, Duration::zero())
        .expect_err("duplicate must fail");
    assert_eq!(error, HarnessError::DuplicateCapability("echo".to_owned()));
}

fn approval_request() -> ApprovalRequest {
    ApprovalRequest {
        id: ApprovalId::from_text("approval"),
        requested_by: ActorIdentity::LocalProcess,
        authorization: ToolAuthorization {
            thread_id: ThreadId::from_text("thread"),
            turn_id: TurnId::from_text("turn"),
            call_id: "call".to_owned(),
            descriptor: ToolDescriptor {
                name: "fixture.tool".to_owned(),
                description: "fixture tool".to_owned(),
                input_schema: json("{\"type\":\"object\"}"),
            },
            origin: CapabilityOrigin::BuiltIn,
            input: json("{}"),
        },
        reason: "fixture approval".to_owned(),
        risk: RiskLevel::Low,
    }
}

#[test]
fn default_durable_wait_port_fails_closed_without_changing_blocking_decisions() {
    let handler = DenyAllApprovals;
    let request = approval_request();
    let authority = AuthorityContext::local_process();

    assert!(!handler.supports_durable_wait());
    assert!(matches!(
        handler.submit_wait_as(&request, &authority),
        Err(HarnessError::InvalidConfiguration(message))
            if message.contains("does not support durable waits")
    ));
    assert!(matches!(
        handler.get_wait_as(&request.id, &authority),
        Err(HarnessError::InvalidConfiguration(message))
            if message.contains("does not support durable waits")
    ));
    assert!(matches!(
        handler.decide_as(&request, &authority),
        Ok(ApprovalDecision::Deny { .. })
    ));
}

#[test]
fn an_allow_list_denies_what_it_does_not_name() {
    let authority = AuthorityContext::local_process();
    let request = approval_request().authorization;
    let closed = AllowListPolicy::deny_by_default();
    assert!(matches!(closed.authorize(&request, &authority), Ok(PolicyDecision::Deny { .. })));
    let open = AllowListPolicy::deny_by_default().allow("fixture.tool");
    assert_eq!(open.authorize(&request, &authority), Ok(PolicyDecision::Allow));
}

#[test]
fn retry_hashes_depend_on_every_part() {
    let hash = stable_retry_hash("thread", "turn", "model", 1);
    assert_eq!(hash, stable_retry_hash("thread", "turn", "model", 1));
    assert_ne!(hash, stable_retry_hash("thread", "turn", "model", 2));
    assert_ne!(hash, stable_retry_hash("thread", "turn", "other", 1));
    assert_ne!(hash, stable_retry_hash("threadt", "urn", "model", 1));
}

#[test]
fn retry_delays_stay_between_half_and_whole_backoff() {
    let mut route = ModelRoute::from_registry(&usage_models(), &["test/usage-model"]).ok().expect("route");
    route.retry_policy = Some(
        ModelRetryPolicy::new(3, Duration::from_millis(100), Duration::from_millis(300)).expect("policy"),
    );
    let overloaded = HarnessError::ModelProvider(
        ModelProviderFailure::new(ModelProviderFailureKind::Overloaded, "busy", None, None).expect("failure"),
    );
    for (retry, backoff) in [(1, 100), (2, 200), (3, 300)] {
        let delay = route
            .retry_delay(&overloaded, retry, "thread", "turn", "test/usage-model")
            .expect("retryable")
            .as_millis();
        assert!(backoff / 2 <= delay && delay <= backoff, "{retry}: {delay}");
    }
    assert!(route.retry_delay(&overloaded, 4, "thread", "turn", "test/usage-model").is_none());
    let refused = HarnessError::ModelProvider(
        ModelProviderFailure::new(ModelProviderFailureKind::Authentication, "no", None, None).expect("failure"),
    );
    assert!(route.retry_delay(&refused, 1, "thread", "turn", "test/usage-model").is_none());
    let hinted = HarnessError::ModelProvider(
        ModelProviderFailure::new(ModelProviderFailureKind::RateLimited, "wait", Some(429), Some(301))
            .expect("failure"),
    );
    assert!(route.retry_delay(&hinted, 1, "thread", "turn", "test/usage-model").is_none());
}

#[test]
fn frozen_identities_report_why_they_are_unusable() {
    assert_eq!(FrozenModelIdentity::capture(None), FrozenModelIdentity::Panicked);
    assert_eq!(FrozenModelIdentity::capture(Some(String::new())), FrozenModelIdentity::Invalid);
    assert!(FrozenModelIdentity::Panicked.get().is_err());
    assert!(FrozenModelIdentity::Invalid.get().is_err());
    assert_eq!(FrozenModelIdentity::capture(Some("m".to_owned())).get(), Ok("m"));
}

#[test]
fn prompts_and_outputs_have_to_say_something() {
    assert!(validate_prompt("  ").is_err());
    assert!(validate_prompt("hello").is_ok());
    assert!(matches!(
        validate_model_output(&ModelOutput::Message { content: "x".repeat(1_048_577) }),
        Err(HarnessError::Model(_))
    ));
    assert!(validate_model_output(&ModelOutput::Message { content: "x".repeat(1_048_576) }).is_ok());
    assert!(matches!(
        validate_model_output(&ModelOutput::ToolCalls { calls: Vec::new() }),
        Err(HarnessError::Model(_))
    ));
    assert!(matches!(validate_model_tool_call("", "echo", &json("{}")), Err(HarnessError::Model(_))));
}

#[test]
fn calls_are_encoded_as_compact_json() {
    let calls = vec![ModelToolCall {
        call_id: "call\n1".to_owned(),
        name: "echo".to_owned(),
        input: json(r#"{"b":1,"a":[true]}"#),
    }];
    let text = encode_calls(&calls);
    let value: serde_json::Value = serde_json::from_str(&text).expect("valid JSON");
    assert_eq!(value[0]["call_id"], "call\n1");
    assert_eq!(value[0]["name"], "echo");
    assert_eq!(value[0]["input"]["b"], 1);
    assert_eq!(text.matches(' ').count(), 0);
}

#[test]
fn runtime_diagnostics_keep_at_most_their_limit() {
    assert_eq!(bounded_runtime_error("short"), "short");
    let long = "é".repeat(5_000);
    let bounded = bounded_runtime_error(&long);
    assert_eq!(bounded, format!("{}…", "é".repeat(4_096)));
    assert_eq!(bounded_runtime_error(&"é".repeat(4_096)), "é".repeat(4_096));
}

#[test]
fn observations_name_the_kind_of_ending() {
    let cancelled: Result<(), HarnessError> =
        Err(HarnessError::Cancelled { phase: y_harness::error::ExecutionPhase::Model });
    assert_eq!(observation_outcome(&cancelled), ObservationOutcome::Cancelled);
    let timed_out: Result<(), HarnessError> =
        Err(HarnessError::TimedOut { phase: y_harness::error::ExecutionPhase::Tool });
    assert_eq!(observation_outcome(&timed_out), ObservationOutcome::TimedOut);
    let failed: Result<(), HarnessError> = Err(HarnessError::Model("no".to_owned()));
    assert_eq!(observation_outcome(&failed), ObservationOutcome::Error);
    assert_eq!(observation_outcome(&Ok(())), ObservationOutcome::Success);
}
