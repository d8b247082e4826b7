//! Text, tables, digests, documents and identities.

use y_harness::digest::{hex_text, sha256_form, sha256_text};
use y_harness::error::{
    ExecutionPhase, HarnessError, ModelProviderFailure, ModelProviderFailureKind,
};
use y_harness::items::{ExecutionBinding, ModelContinuation};
use y_harness::json::{
    bounded_serialized_sha256, bounded_serialized_size, BoundedJsonError, JsonDocument,
    MAX_JSON_DEPTH,
};
use y_harness::kernel::{
    validate_capability_name, validate_model_id, validate_registry_growth,
    ActorIdentity, AuthorityContext, MAX_REGISTRY_ENTRIES,
};
use y_harness::table::{rank, Rank, Table};
use y_harness::text::{blank, byte_len, contains_control, decimal_text, portable_name};
use y_harness::time::{epoch_millis, Duration, Moment};

#[test]
fn text_is_measured_in_bytes_and_characters() {
    assert_eq!(byte_len("né"), 3);
    assert!(blank(" \t\u{2003}"));
    assert!(!blank(" x "));
    assert!(contains_control("a\u{7}"));
    assert!(portable_name("tool-1.2_x", 64));
    assert!(!portable_name("-tool", 64));
    assert_eq!(decimal_text(0), "0");
    assert_eq!(decimal_text(u64::MAX), "18446744073709551615");
}

#[test]
fn tables_are_ordered_by_key() {
    let mut table = Table::new();
    for key in ["b", "a", "c", "a"] {
        table.insert(key.to_owned(), key.len());
    }
    assert_eq!(table.keys(), ["a", "b", "c"]);
    assert_eq!(table.get("b"), Some(&1));
    assert_eq!(table.remove("b"), Some(1));
    assert!(!table.contains("b"));
    assert_eq!(table.len(), 2);
    assert!(matches!(rank("a", "ab"), Rank::Before));
    assert!(matches!(rank("é", "z"), Rank::After));
}

#[test]
fn digests_are_lowercase_sha256() {
    let empty = "e3b0c44298fc1c149afbf4c8996fb92427ae41e4649b934ca495991b7852b855";
    assert_eq!(sha256_text(b""), empty);
    assert!(sha256_form(empty));
    assert!(!sha256_form(&empty.to_uppercase()));
    assert_eq!(hex_text(&[0, 15, 255]), "000fff");
}

#[test]
fn documents_are_canonical_and_bounded() {
    let document = JsonDocument::parse(" { \"b\" : 1 , \"a\" : [ true , null ] } ").expect("document");
    assert_eq!(document.as_str(), r#"{"a":[true,null],"b":1}"#);
    assert_eq!(JsonDocument::parse("{"), Err(BoundedJsonError::CannotEncode));
    assert_eq!(JsonDocument::error("a\"b\n").as_str(), "{\"error\":\"a\\\"b\\n\"}");
    assert_eq!(document.bounded_size(23), Ok(23));
    assert_eq!(document.bounded_size(22), Err(BoundedJsonError::LimitExceeded));
    let deep = format!("{}{}", "[".repeat(MAX_JSON_DEPTH), "]".repeat(MAX_JSON_DEPTH));
    assert!(JsonDocument::parse(&deep).expect("deep").shape_is_bounded());
    let deeper = format!("[{deep}]");
    assert!(!JsonDocument::parse(&deeper).expect("deeper").shape_is_bounded());
    assert_eq!(bounded_serialized_size("abc", 3), Ok(3));
    assert_eq!(bounded_serialized_size("abc", 2), Err(BoundedJsonError::LimitExceeded));
    assert_eq!(
        bounded_serialized_sha256("abc", 3).expect("digest"),
        "ba7816bf8f01cfea414140de5dae2223b00361a396177a9cb410ff61f20015ad"
    );
}

#[test]
fn brackets_inside_strings_do_not_count() {
    let text = format!("\"{}\"", "[".repeat(100));
    assert!(JsonDocument::parse(&text).expect("string").shape_is_bounded());
}

#[test]
fn identities_follow_their_grammars() {
    assert!(validate_capability_name("tool", "echo").is_ok());
    assert!(matches!(validate_capability_name("tool", "a b"), Err(HarnessError::InvalidCapability(_))));
    assert!(validate_model_id("test/model").is_ok());
    assert!(validate_model_id("").is_err());
    assert!(AuthorityContext::validate_tenant("tenant-a").is_ok());
    assert!(AuthorityContext::validate_tenant("../tenant").is_err());
    assert!(validate_registry_growth("tool", MAX_REGISTRY_ENTRIES - 1, 1).is_ok());
    assert!(validate_registry_growth("tool", MAX_REGISTRY_ENTRIES, 1).is_err());
    let empty = ActorIdentity::Authenticated { authority: String::new(), subject: "s".to_owned() };
    assert!(matches!(AuthorityContext::new(empty, None), Err(HarnessError::Approval(_))));
}

#[test]
fn spans_and_moments_do_not_overflow() {
    assert_eq!(Duration::from_secs(2).as_millis(), 2_000);
    assert_eq!(Duration::from_nanos(5).expect("span").as_nanos(), 5);
    assert!(Duration::from_nanos(u128::MAX).is_none());
    assert!(Duration::zero().is_zero());
    assert!(Moment { nanos: 1 }.checked_add(Duration::max()).is_none());
    assert_eq!(
        Moment { nanos: 1 }.checked_add(Duration::from_millis(1)),
        Some(Moment { nanos: 1_000_001 })
    );
}

#[test]
fn provider_failures_are_bounded() {
    let failure = ModelProviderFailure::new(ModelProviderFailureKind::Server, "oops", Some(500), Some(10))
        .expect("failure");
    assert_eq!(failure.kind(), ModelProviderFailureKind::Server);
    assert_eq!(failure.message(), "oops");
    assert_eq!(failure.http_status(), Some(500));
    assert_eq!(failure.retry_after_ms(), Some(10));
    assert!(ModelProviderFailure::new(ModelProviderFailureKind::Server, " ", None, None).is_err());
    assert!(
        ModelProviderFailure::new(ModelProviderFailureKind::Server, "x", None, Some(86_400_001)).is_err()
    );
}

#[test]
fn continuations_and_bindings_are_validated() {
    let part = || JsonDocument::parse("{}").expect("part");
    assert!(ModelContinuation::new("format", vec![part()]).is_ok());
    assert!(ModelContinuation::new("format", Vec::new()).is_err());
    assert!(ModelContinuation::new("", vec![part()]).is_err());
    let digest = "a".repeat(64);
    assert!(ExecutionBinding::new("agent", "n", "1", digest.clone(), digest.clone(), 1, None).is_ok());
    assert!(ExecutionBinding::new("agent", "n", "1", "short".to_owned(), digest, 1, None).is_err());
}

#[test]
fn errors_show_their_phase() {
    assert_eq!(ExecutionPhase::Verification.as_str(), "Verification");
    let text = HarnessError::Cancelled { phase: ExecutionPhase::Tool }.to_string();
    assert!(text.contains("Tool"));
}

#[test]
fn clock_readings_stay_in_range() {
    assert_eq!(epoch_millis(Some(1_700_000_000_123)), 1_700_000_000_123);
    assert_eq!(epoch_millis(Some(u128::from(u64::MAX))), u64::MAX);
    assert_eq!(epoch_millis(Some(u128::from(u64::MAX) + 1)), u64::MAX);
    assert_eq!(epoch_millis(None), 0);
}

#[test]
fn string_literals_escape_what_json_requires() {
    let shown = JsonDocument::error("a\"b\\c\u{8}\t\n\u{c}\r\u{1}\u{1f}\u{7f}é/");
    assert_eq!(shown.as_str(), "{\"error\":\"a\\\"b\\\\c\\b\\t\\n\\f\\r\\u0001\\u001f\u{7f}é/\"}");
    assert_eq!(JsonDocument::error("plain text").as_str(), "{\"error\":\"plain text\"}");
}
