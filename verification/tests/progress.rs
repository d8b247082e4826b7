//! Detection of repeated failing tool cycles.

use y_harness::error::HarnessError;
use y_harness::items::{Item, ItemKind, ToolCallBatch, VerificationOutcome};
use y_harness::json::JsonDocument;
use y_harness::kernel::{CapabilityOrigin, SteeringId, ToolCallBatchId};
use y_harness::runtime::progress::{
    repeated_suffix_period, ProgressGovernor, ProgressPolicy, ProgressVerdict,
};

fn json(text: &str) -> JsonDocument {
    JsonDocument::parse(text).expect("valid JSON")
}

fn append_cycle(
    items: &mut Vec<Item>,
    id: usize,
    input: &str,
    output: JsonDocument,
    is_error: bool,
) {
    let call_id = format!("call-{id}");
    items.push(Item::new(ItemKind::ToolCall {
        model_id: Some("test/model".to_owned()),
        model_origin: Some(CapabilityOrigin::BuiltIn),
        call_id: call_id.clone(),
        name: "probe".to_owned(),
        input: json(&format!("{{\"value\":\"{input}\"}}")),
        batch: None,
    }));
    items.push(Item::new(ItemKind::ToolResult {
        call_id,
        output,
        is_error,
        connector_evidence: Vec::new(),
    }));
}

fn append_mixed_batch(items: &mut Vec<Item>, id: usize) {
    let batch_id = ToolCallBatchId::from_text(&format!("batch-{id}"));
    let success_id = format!("success-{id}");
    let failure_id = format!("failure-{id}");
    for (index, call_id, input) in [
        (0, success_id.clone(), "success"),
        (1, failure_id.clone(), "failure"),
    ] {
        items.push(Item::new(ItemKind::ToolCall {
            model_id: Some("test/model".to_owned()),
            model_origin: Some(CapabilityOrigin::BuiltIn),
            call_id,
            name: "probe".to_owned(),
            input: json(&format!("{{\"value\":\"{input}\"}}")),
            batch: Some(ToolCallBatch {
                id: batch_id.clone(),
                index,
                size: 2,
            }),
        }));
    }
    items.push(Item::new(ItemKind::ToolResult {
        call_id: success_id,
        output: json(r#"{"value":"fixed"}"#),
        is_error: false,
        connector_evidence: Vec::new(),
    }));
    items.push(Item::new(ItemKind::ToolResult {
        call_id: failure_id,
        output: json(r#"{"error":"fixed"}"#),
        is_error: true,
        connector_evidence: Vec::new(),
    }));
}

#[test]
fn exact_repeated_failure_stops_at_the_configured_boundary() {
    let mut items = vec![Item::new(ItemKind::UserMessage {
        content: "start".to_owned(),
    })];
    let mut governor = ProgressGovernor::from_items(ProgressPolicy::default(), &items)
        .expect("create governor");

    for id in 1..5 {
        append_cycle(&mut items, id, "same", json(r#"{"error":"same"}"#), true);
        assert_eq!(
            governor.advance(&items).expect("below stop boundary"),
            ProgressVerdict::Continue
        );
    }
    append_cycle(&mut items, 5, "same", json(r#"{"error":"same"}"#), true);
    assert_eq!(
        governor.advance(&items).expect("governance verdict"),
        ProgressVerdict::Stop {
            cycle_period: 1,
            repetitions: 5
        }
    );
}

#[test]
fn alternating_failure_cycle_is_detected() {
    let mut items = vec![Item::new(ItemKind::UserMessage {
        content: "start".to_owned(),
    })];
    let mut governor =
        ProgressGovernor::from_items(ProgressPolicy::new(3).expect("policy"), &items)
            .expect("create governor");
    for id in 0..5 {
        let input = if id % 2 == 0 { "a" } else { "b" };
        append_cycle(&mut items, id, input, json(&format!("{{\"error\":\"{input}\"}}")), true);
        assert_eq!(
            governor.advance(&items).expect("cycle is incomplete"),
            ProgressVerdict::Continue
        );
    }
    append_cycle(&mut items, 5, "b", json(r#"{"error":"b"}"#), true);
    assert_eq!(
        governor.advance(&items).expect("governance verdict"),
        ProgressVerdict::Stop {
            cycle_period: 2,
            repetitions: 3
        }
    );
}

#[test]
fn successful_observation_resets_failure_history() {
    let mut items = vec![Item::new(ItemKind::UserMessage {
        content: "start".to_owned(),
    })];
    let mut governor = ProgressGovernor::from_items(ProgressPolicy::default(), &items)
        .expect("create governor");
    for id in 1..5 {
        append_cycle(&mut items, id, "same", json(r#"{"error":"same"}"#), true);
        assert_eq!(
            governor.advance(&items).expect("failure below boundary"),
            ProgressVerdict::Continue
        );
    }
    append_cycle(&mut items, 5, "same", json(r#"{"value":"ready"}"#), false);
    assert_eq!(
        governor.advance(&items).expect("successful reset"),
        ProgressVerdict::Continue
    );
    for id in 6..10 {
        append_cycle(&mut items, id, "same", json(r#"{"error":"same"}"#), true);
        assert_eq!(
            governor
                .advance(&items)
                .expect("new failure epoch below boundary"),
            ProgressVerdict::Continue
        );
    }
}

#[test]
fn applied_user_steering_resets_failure_history() {
    let mut items = vec![Item::new(ItemKind::UserMessage {
        content: "start".to_owned(),
    })];
    let mut governor = ProgressGovernor::from_items(ProgressPolicy::default(), &items)
        .expect("create governor");
    for id in 1..5 {
        append_cycle(&mut items, id, "same", json(r#"{"error":"same"}"#), true);
        assert_eq!(
            governor.advance(&items).expect("failure below boundary"),
            ProgressVerdict::Continue
        );
    }
    items.push(Item::new(ItemKind::SteeringApplied {
        steering_id: SteeringId::from_text("steering-1"),
        content: "new evidence".to_owned(),
    }));
    assert_eq!(
        governor.advance(&items).expect("steering reset"),
        ProgressVerdict::Continue
    );
    for id in 5..9 {
        append_cycle(&mut items, id, "same", json(r#"{"error":"same"}"#), true);
        assert_eq!(
            governor
                .advance(&items)
                .expect("new failure epoch below boundary"),
            ProgressVerdict::Continue
        );
    }
}

#[test]
fn repeated_success_is_never_a_no_progress_failure() {
    let mut items = vec![Item::new(ItemKind::UserMessage {
        content: "start".to_owned(),
    })];
    let mut governor = ProgressGovernor::from_items(ProgressPolicy::default(), &items)
        .expect("create governor");
    for id in 0..32 {
        append_cycle(&mut items, id, "same", json(r#"{"value":"same"}"#), false);
        assert_eq!(
            governor.advance(&items).expect("successful polling"),
            ProgressVerdict::Continue
        );
    }
}

#[test]
fn mixed_batch_failure_is_governed_and_fresh_ids_do_not_hide_the_cycle() {
    let mut items = vec![Item::new(ItemKind::UserMessage {
        content: "start".to_owned(),
    })];
    let policy = ProgressPolicy::new(2).expect("policy");
    let mut governor = ProgressGovernor::from_items(policy, &items).expect("governor");
    append_mixed_batch(&mut items, 1);
    assert_eq!(
        governor.advance(&items).expect("first batch"),
        ProgressVerdict::Continue
    );
    append_mixed_batch(&mut items, 2);
    assert_eq!(
        governor.advance(&items).expect("second batch"),
        ProgressVerdict::Stop {
            cycle_period: 1,
            repetitions: 2
        }
    );
    assert_eq!(governor.cursor(), items.len());

    let consumed_cursor = governor.cursor();
    assert_eq!(
        governor.advance(&items).expect("same consumed input"),
        ProgressVerdict::Stop {
            cycle_period: 1,
            repetitions: 2
        }
    );
    assert_eq!(governor.cursor(), consumed_cursor);
    items.push(Item::new(ItemKind::SteeringApplied {
        steering_id: SteeringId::from_text("steering-1"),
        content: "override".to_owned(),
    }));
    assert_eq!(
        governor.advance(&items).expect("steering reset"),
        ProgressVerdict::Continue
    );
}

#[test]
fn replay_preserves_a_reached_stop_verdict() {
    let mut items = vec![Item::new(ItemKind::UserMessage {
        content: "start".to_owned(),
    })];
    for id in 1..=5 {
        append_cycle(&mut items, id, "same", json(r#"{"error":"same"}"#), true);
    }

    let mut governor = ProgressGovernor::from_items(ProgressPolicy::default(), &items)
        .expect("replay durable items");
    assert_eq!(governor.cursor(), items.len());
    assert_eq!(
        governor.advance(&items).expect("replayed verdict"),
        ProgressVerdict::Stop {
            cycle_period: 1,
            repetitions: 5
        }
    );
    assert_eq!(governor.cursor(), items.len());
}

#[test]
fn invalid_progress_policy_is_rejected() {
    for limit in [0, 1, 17, u8::MAX] {
        assert!(ProgressPolicy::new(limit).is_err());
    }
    assert_eq!(
        ProgressPolicy::new(2)
            .expect("minimum")
            .max_failure_cycle_repetitions(),
        2
    );
}

#[test]
fn verification_cannot_interrupt_an_unsettled_tool_decision() {
    let items = vec![
        Item::new(ItemKind::UserMessage {
            content: "start".to_owned(),
        }),
        Item::new(ItemKind::ToolCall {
            model_id: Some("test/model".to_owned()),
            model_origin: Some(CapabilityOrigin::BuiltIn),
            call_id: "pending".to_owned(),
            name: "probe".to_owned(),
            input: json(r#"{"value":"same"}"#),
            batch: None,
        }),
        Item::new(ItemKind::VerificationResult {
            verifier: "test/verifier".to_owned(),
            candidate_item_id: None,
            verifier_origin: None,
            verifier_binding_sha256: None,
            outcome: VerificationOutcome::Passed { summary: None },
        }),
    ];

    let error = ProgressGovernor::from_items(ProgressPolicy::default(), &items)
        .err()
        .expect("verification cannot split a Tool decision");
    assert!(matches!(error, HarnessError::State(_)));
}

#[test]
fn the_shortest_repeated_suffix_is_found() {
    let history = |names: &[&str]| names.iter().map(|name| (*name).to_owned()).collect();
    assert_eq!(repeated_suffix_period(&history(&["a", "b", "b"]), 2), Some(1));
    assert_eq!(repeated_suffix_period(&history(&["a", "b", "a", "b"]), 2), Some(2));
    assert_eq!(repeated_suffix_period(&history(&["a", "b", "c", "a", "b", "c"]), 2), Some(3));
    assert_eq!(repeated_suffix_period(&history(&["a", "b", "a"]), 2), None);
    assert_eq!(repeated_suffix_period(&history(&[]), usize::MAX), None);
    assert_eq!(repeated_suffix_period(&history(&[]), 0), Some(1));
}

#[test]
fn a_replayed_governor_equals_an_incremental_one() {
    let mut items = vec![Item::new(ItemKind::UserMessage { content: "start".to_owned() })];
    let mut incremental = ProgressGovernor::from_items(ProgressPolicy::default(), &items).expect("governor");
    for id in 1..=5 {
        append_cycle(&mut items, id, "same", json(r#"{"error":"same"}"#), true);
        let step = incremental.advance(&items).expect("incremental verdict");
        let mut replayed =
            ProgressGovernor::from_items(ProgressPolicy::default(), &items).expect("replayed governor");
        assert_eq!(replayed.advance(&items).expect("replayed verdict"), step);
        assert_eq!(replayed.cursor(), incremental.cursor());
    }
}

#[test]
fn a_governor_refuses_records_that_shrank() {
    let items = vec![
        Item::new(ItemKind::UserMessage { content: "start".to_owned() }),
        Item::new(ItemKind::UserMessage { content: "again".to_owned() }),
    ];
    let mut governor = ProgressGovernor::from_items(ProgressPolicy::default(), &items).expect("governor");
    assert!(matches!(governor.advance(&items[..1].to_vec()), Err(HarnessError::State(_))));
}
