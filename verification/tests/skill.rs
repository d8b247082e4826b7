//! Skill packages, their trust and their resolution.

use ed25519_dalek::{Signer, SigningKey};
use sha2::{Digest, Sha256};
use y_harness::capability::{ContextSource, ToolBatchExecution, ToolDescriptor, ToolRegistry};
use y_harness::error::HarnessError;
use y_harness::json::JsonDocument;
use y_harness::kernel::CapabilityOrigin;
use y_harness::skill::engine::SkillEngine;
use y_harness::skill::package::{
    canonical_text, SkillDependency, SkillManifest, SkillPackage, MAX_RESOURCE_BYTES,
    SKILL_API_VERSION,
};
use y_harness::skill::path::normal_path;
use y_harness::skill::registry::{SkillRegistry, MAX_SKILL_REGISTRY_CONTENT_BYTES};
use y_harness::skill::state::install_revocation;
use y_harness::skill::store::{SkillTrustStates, SkillTrustStore};
use y_harness::skill::trust::{
    skill_signing_bytes, SignedSkillPackage, SkillKeyRevocation, SkillPublisherPolicy, SkillSignature,
    SkillTransparencyReceipt, SkillTransparencyRequirement,
};
use y_harness::skill::version::{SkillId, Version};
use y_harness::table::{Rank, Table};
use y_harness::time::Duration;

/// Time at which these tests look at keys that have no window of their own.
const NOW: u64 = 1_700_000_000_000;

fn version(text: &str) -> Version {
    Version::parse(text).expect("version")
}

fn package(
    name: &str,
    package_version: &str,
    dependencies: Vec<(&str, &str)>,
    required_tools: &[&str],
    estimated_tokens: usize,
) -> SkillPackage {
    let mut tools = Table::new();
    for tool in required_tools {
        tools.insert((*tool).to_owned(), ());
    }
    let mut resources = Table::new();
    resources.insert("references/guide.md".to_owned(), "guide".to_owned());
    SkillPackage::seal(
        SkillManifest {
            api_version: SKILL_API_VERSION.to_owned(),
            name: name.to_owned(),
            version: version(package_version),
            description: format!("{name} description"),
            estimated_tokens,
            dependencies: dependencies
                .into_iter()
                .map(|(name, dependency)| SkillDependency {
                    name: name.to_owned(),
                    version: version(dependency),
                })
                .collect(),
            required_tools: tools,
        },
        format!("instructions for {name}"),
        resources,
    )
    .ok()
    .expect("seal")
}

fn id(name: &str) -> SkillId {
    SkillId {
        name: name.to_owned(),
        version: version("1.0.0"),
    }
}

#[test]
fn skill_registry_capacity_rejection_is_failure_atomic() {
    let mut registry =
        SkillRegistry::sharing_budget(MAX_SKILL_REGISTRY_CONTENT_BYTES).expect("spent budget");
    let candidate = package("capacity", "1.0.0", Vec::new(), &[], 1);
    let candidate_id = candidate.id();

    assert!(
        registry
            .register(CapabilityOrigin::BuiltIn, candidate)
            .is_err()
    );
    assert!(registry.get(&candidate_id).is_none());
    assert_eq!(registry.content_bytes(), MAX_SKILL_REGISTRY_CONTENT_BYTES);
}

fn signed_package(
    package: SkillPackage,
    key_id: &str,
    signing_key: &SigningKey,
) -> SignedSkillPackage {
    let signature = signing_key.sign(
        &package
            .publisher_signing_bytes()
            .expect("publisher signing material"),
    );
    SignedSkillPackage {
        package,
        signature: SkillSignature {
            key_id: key_id.to_owned(),
            ed25519: signature.to_bytes().to_vec(),
        },
        transparency: None,
    }
}

fn add_transparency(
    mut signed: SignedSkillPackage,
    log_id: &str,
    entry_id: &str,
    integrated_at_ms: u64,
    log_key: &SigningKey,
) -> SignedSkillPackage {
    signed.transparency = Some(SkillTransparencyReceipt {
        log_id: log_id.to_owned(),
        entry_id: entry_id.to_owned(),
        integrated_at_ms,
        ed25519: Vec::new(),
    });
    let signature = log_key.sign(
        &signed
            .transparency_signing_bytes()
            .expect("transparency signing material"),
    );
    signed.transparency.as_mut().expect("receipt").ed25519 = signature.to_bytes().to_vec();
    signed
}

#[test]
fn external_skills_require_a_trusted_strict_signature() {
    let signing_key = SigningKey::from_bytes(&[7_u8; 32]);
    let mut states = SkillTrustStates::new();
    let trust = SkillTrustStore::new(&mut states);
    trust
        .trust(&mut states, "publisher".to_owned(), signing_key.verifying_key().to_bytes())
        .expect("trust publisher");
    let signed_package = package("signed", "1.0.0", vec![], &[], 10);
    let signature = signing_key.sign(&skill_signing_bytes(&signed_package));
    let signed = SignedSkillPackage {
        package: signed_package,
        signature: SkillSignature {
            key_id: "publisher".to_owned(),
            ed25519: signature.to_bytes().to_vec(),
        },
        transparency: None,
    };
    let mut registry = SkillRegistry::new();
    registry
        .register_signed(
            CapabilityOrigin::External {
                id: "fixture-source".to_owned(),
            },
            signed,
            &trust,
            &states,
        )
        .expect("register signed package");
    assert_eq!(
        registry
            .get(&id("signed"))
            .expect("registered")
            .publisher_key_id
            .as_deref(),
        Some("publisher")
    );

    let unsigned = registry.register(
        CapabilityOrigin::External {
            id: "unsigned-source".to_owned(),
        },
        package("unsigned", "1.0.0", vec![], &[], 10),
    );
    assert!(matches!(unsigned, Err(HarnessError::Skill(_))));
}

#[test]
fn signature_cannot_be_reused_for_different_skill_content() {
    let signing_key = SigningKey::from_bytes(&[9_u8; 32]);
    let mut states = SkillTrustStates::new();
    let trust = SkillTrustStore::new(&mut states);
    trust
        .trust(&mut states, "publisher".to_owned(), signing_key.verifying_key().to_bytes())
        .expect("trust publisher");
    let original = package("original", "1.0.0", vec![], &[], 10);
    let signature = signing_key.sign(&skill_signing_bytes(&original));
    let substituted = SignedSkillPackage {
        package: package("substituted", "1.0.0", vec![], &[], 10),
        signature: SkillSignature {
            key_id: "publisher".to_owned(),
            ed25519: signature.to_bytes().to_vec(),
        },
        transparency: None,
    };
    let mut registry = SkillRegistry::new();
    let error = registry
        .register_signed(
            CapabilityOrigin::External {
                id: "fixture-source".to_owned(),
            },
            substituted,
            &trust,
            &states,
        )
        .expect_err("signature substitution must fail");
    assert!(matches!(error, HarnessError::Skill(_)));
}

#[test]
fn publisher_validity_and_live_revocation_fail_closed() {
    let signing_key = SigningKey::from_bytes(&[11_u8; 32]);
    let mut states = SkillTrustStates::new();
    let trust = SkillTrustStore::new(&mut states);
    trust
        .trust_with_policy(
            &mut states,
            "publisher".to_owned(),
            signing_key.verifying_key().to_bytes(),
            SkillPublisherPolicy {
                not_before_ms: Some(100),
                not_after_ms: Some(u64::MAX),
                transparency: SkillTransparencyRequirement::Optional,
            },
        )
        .expect("trust publisher");
    let signed = signed_package(
        package("windowed", "1.0.0", vec![], &[], 10),
        "publisher",
        &signing_key,
    );
    let origin = CapabilityOrigin::External {
        id: "fixture-source".to_owned(),
    };
    assert!(
        SkillRegistry::new()
            .register_signed_at(origin.clone(), signed.clone(), &trust, &states, 99)
            .is_err()
    );
    let mut registry = SkillRegistry::new();
    registry
        .register_signed_at(origin, signed, &trust, &states, 100)
        .expect("key is valid at inclusive start");

    let expiring_trust = SkillTrustStore::new(&mut states);
    expiring_trust
        .trust_with_policy(
            &mut states,
            "expiring".to_owned(),
            signing_key.verifying_key().to_bytes(),
            SkillPublisherPolicy {
                not_before_ms: Some(100),
                not_after_ms: Some(200),
                transparency: SkillTransparencyRequirement::Optional,
            },
        )
        .expect("trust expiring publisher");
    let expiring = signed_package(
        package("expired", "1.0.0", vec![], &[], 10),
        "expiring",
        &signing_key,
    );
    let mut expiring_registry = SkillRegistry::new();
    expiring_registry
        .register_signed_at(
            CapabilityOrigin::External {
                id: "fixture-source".to_owned(),
            },
            expiring.clone(),
            &expiring_trust,
            &states,
            199,
        )
        .expect("register before expiry");
    assert!(
        SkillEngine::new(expiring_registry)
            .resolve(&[id("expired")], &ToolRegistry::new(), 10, &states)
            .is_err()
    );
    assert!(
        SkillRegistry::new()
            .register_signed_at(
                CapabilityOrigin::External {
                    id: "fixture-source".to_owned(),
                },
                expiring,
                &expiring_trust,
                &states,
                200,
            )
            .is_err()
    );

    trust
        .revoke_publisher(&mut states, "publisher", 1, "compromised".to_owned())
        .expect("revoke publisher");
    trust
        .revoke_publisher(&mut states, "publisher", 1, "compromised".to_owned())
        .expect("exact revocation is idempotent");
    assert!(
        trust
            .revoke_publisher(&mut states, "publisher", 2, "superseded".to_owned())
            .is_err()
    );
    assert_eq!(
        trust
            .publisher_revocation(&states, "publisher")
            .expect("revocation")
            .expect("present")
            .reason_code,
        "compromised"
    );
    let error = SkillEngine::new(registry)
        .resolve(&[id("windowed")], &ToolRegistry::new(), 10, &states)
        .err()
        .expect("live revocation blocks already registered package");
    assert!(error.to_string().contains("revoked"));
}

#[test]
fn required_transparency_is_signed_preserved_and_live_revocable() {
    let publisher_key = SigningKey::from_bytes(&[12_u8; 32]);
    let log_key = SigningKey::from_bytes(&[13_u8; 32]);
    let mut states = SkillTrustStates::new();
    let trust = SkillTrustStore::new(&mut states);
    trust
        .trust_with_policy(
            &mut states,
            "publisher".to_owned(),
            publisher_key.verifying_key().to_bytes(),
            SkillPublisherPolicy {
                not_before_ms: None,
                not_after_ms: None,
                transparency: SkillTransparencyRequirement::Required,
            },
        )
        .expect("trust publisher");
    trust
        .trust_transparency_log(&mut states, "audit-log".to_owned(), log_key.verifying_key().to_bytes())
        .expect("trust log");

    let unsigned_receipt = signed_package(
        package("transparent", "1.0.0", vec![], &[], 10),
        "publisher",
        &publisher_key,
    );
    let origin = CapabilityOrigin::External {
        id: "fixture-source".to_owned(),
    };
    assert!(
        SkillRegistry::new()
            .register_signed_at(origin.clone(), unsigned_receipt.clone(), &trust, &states, 1_000)
            .is_err()
    );

    let future_receipt = add_transparency(
        unsigned_receipt.clone(),
        "audit-log",
        "entry-future",
        301_001,
        &log_key,
    );
    assert!(
        SkillRegistry::new()
            .register_signed_at(origin.clone(), future_receipt, &trust, &states, 1_000)
            .is_err()
    );

    let signed = add_transparency(unsigned_receipt, "audit-log", "entry-0001", 900, &log_key);
    let mut tampered = signed.clone();
    tampered.transparency.as_mut().expect("receipt").entry_id = "entry-0002".to_owned();
    assert!(
        SkillRegistry::new()
            .register_signed_at(origin.clone(), tampered, &trust, &states, 1_000)
            .is_err()
    );

    let mut registry = SkillRegistry::new();
    registry
        .register_signed_at(origin, signed, &trust, &states, 1_000)
        .expect("valid signed transparency receipt");
    let evidence = registry
        .get(&id("transparent"))
        .expect("registered")
        .transparency
        .as_ref()
        .expect("transparency evidence");
    assert_eq!(evidence.log_id, "audit-log");
    assert_eq!(evidence.entry_id, "entry-0001");
    let engine = SkillEngine::new(registry);
    let resolved = engine
        .resolve(&[id("transparent")], &ToolRegistry::new(), 10, &states)
        .expect("resolve before revocation");

    trust
        .revoke_transparency_log(&mut states, "audit-log", 1, "log_compromised".to_owned())
        .expect("revoke log");
    assert_eq!(
        trust
            .transparency_log_revocation(&states, "audit-log")
            .expect("revocation")
            .expect("present")
            .reason_code,
        "log_compromised"
    );
    let error = engine
        .resolve(&[id("transparent")], &ToolRegistry::new(), 10, &states)
        .err()
        .expect("live log revocation blocks resolution");
    assert!(error.to_string().contains("revoked"));
    assert!(
        engine
            .read_resource(&id("transparent"), "references/guide.md", &states)
            .is_err()
    );
    assert!(resolved.trust_checks[0].validate(&states, NOW).is_err());
}

#[test]
fn resolves_exact_dependencies_before_dependants() {
    let mut registry = SkillRegistry::new();
    registry
        .register(
            CapabilityOrigin::BuiltIn,
            package("base", "1.0.0", vec![], &[], 10),
        )
        .expect("base");
    registry
        .register(
            CapabilityOrigin::BuiltIn,
            package("review", "1.0.0", vec![("base", "1.0.0")], &[], 20),
        )
        .expect("review");
    let engine = SkillEngine::new(registry);

    let resolved = engine
        .resolve(&[id("review")], &ToolRegistry::new(), 30, &SkillTrustStates::new())
        .expect("resolve");

    assert_eq!(
        resolved
            .skills
            .iter()
            .map(|skill| skill.id.name.as_str())
            .collect::<Vec<_>>(),
        ["base", "review"]
    );
    assert_eq!(resolved.estimated_tokens, 30);
    assert!(matches!(
        &resolved.context[1].source,
        ContextSource::Skill { name, .. } if name == "review"
    ));
    assert_eq!(
        engine
            .read_resource(&id("review"), "references/guide.md", &SkillTrustStates::new())
            .expect("resource"),
        "guide"
    );
}

#[test]
fn resolved_instructions_enter_context_in_dependency_order() {
    let mut registry = SkillRegistry::new();
    registry
        .register(
            CapabilityOrigin::BuiltIn,
            package("base", "1.0.0", vec![], &[], 10),
        )
        .expect("base");
    registry
        .register(
            CapabilityOrigin::BuiltIn,
            package("review", "1.0.0", vec![("base", "1.0.0")], &[], 20),
        )
        .expect("review");
    let resolved = SkillEngine::new(registry)
        .resolve(&[id("review")], &ToolRegistry::new(), 30, &SkillTrustStates::new())
        .expect("resolve");

    assert_eq!(
        resolved
            .context
            .iter()
            .map(|block| block.text.as_str())
            .collect::<Vec<_>>(),
        ["instructions for base", "instructions for review"]
    );
}

#[test]
fn rejects_content_tampering_after_seal() {
    let mut package = package("review", "1.0.0", vec![], &[], 20);
    package.instructions.push_str(" tampered");
    let error = SkillRegistry::new()
        .register(CapabilityOrigin::BuiltIn, package)
        .expect_err("digest mismatch");
    assert!(error.to_string().contains("digest does not match"));
}

#[test]
fn rejects_aggregate_package_growth_before_canonical_allocation() {
    let mut resources = Table::new();
    for index in 0..3 {
        resources.insert(format!("references/{index}.txt"), "x".repeat(MAX_RESOURCE_BYTES));
    }
    let error = SkillPackage::seal(
        SkillManifest {
            api_version: SKILL_API_VERSION.to_owned(),
            name: "oversized".to_owned(),
            version: version("1.0.0"),
            description: "aggregate bound".to_owned(),
            estimated_tokens: 10,
            dependencies: Vec::new(),
            required_tools: Table::new(),
        },
        "instructions".to_owned(),
        resources,
    )
    .err()
    .expect("aggregate package must be bounded");
    assert!(error.to_string().contains("content exceeds"));
}

#[test]
fn detects_exact_dependency_cycles() {
    let mut registry = SkillRegistry::new();
    registry
        .register(
            CapabilityOrigin::BuiltIn,
            package("alpha", "1.0.0", vec![("beta", "1.0.0")], &[], 10),
        )
        .expect("alpha");
    registry
        .register(
            CapabilityOrigin::BuiltIn,
            package("beta", "1.0.0", vec![("alpha", "1.0.0")], &[], 10),
        )
        .expect("beta");
    let error = SkillEngine::new(registry)
        .resolve(&[id("alpha")], &ToolRegistry::new(), 100, &SkillTrustStates::new())
        .err()
        .expect("cycle");
    assert!(error.to_string().contains("dependency cycle"));
}

#[test]
fn rejects_missing_tools_and_whole_package_budget_overflow() {
    let required_package = package("review", "1.0.0", vec![], &["browser"], 20);
    let mut registry = SkillRegistry::new();
    registry
        .register(CapabilityOrigin::BuiltIn, required_package)
        .expect("register");
    let engine = SkillEngine::new(registry);
    let missing = engine
        .resolve(&[id("review")], &ToolRegistry::new(), 20, &SkillTrustStates::new())
        .err()
        .expect("missing tool");
    assert!(missing.to_string().contains("missing tool browser"));

    let mut registry = SkillRegistry::new();
    registry
        .register(
            CapabilityOrigin::BuiltIn,
            package("review", "1.0.0", vec![], &[], 20),
        )
        .expect("register");
    let budget = SkillEngine::new(registry)
        .resolve(&[id("review")], &ToolRegistry::new(), 19, &SkillTrustStates::new())
        .err()
        .expect("whole package budget");
    assert!(matches!(budget, HarnessError::Skill(_)));
}

#[test]
fn a_package_digest_covers_its_canonical_text() {
    let sealed = package("review", "1.0.0", vec![("base", "1.0.0")], &["browser"], 20);
    let expected = concat_parts(&[
        r#"{"manifest":{"api_version":"1","name":"review","version":"1.0.0","#,
        r#""description":"review description","estimated_tokens":20,"#,
        r#""dependencies":[{"name":"base","version":"1.0.0"}],"required_tools":["browser"]},"#,
        r#""instructions":"instructions for review","#,
        r#""resources":{"references/guide.md":"guide"}}"#,
    ]);
    assert_eq!(
        canonical_text(&sealed.manifest, &sealed.instructions, &sealed.resources),
        expected
    );
    let digest: String = Sha256::digest(expected.as_bytes())
        .iter()
        .map(|byte| format!("{byte:02x}"))
        .collect();
    assert_eq!(sealed.content_sha256, digest);
    assert_eq!(sealed.computed_sha256().expect("digest"), digest);
}

fn concat_parts(parts: &[&str]) -> String {
    parts.concat()
}

#[test]
fn versions_follow_semantic_order() {
    assert!(Version::parse("1.0").is_none());
    assert!(Version::parse("01.0.0").is_none());
    let at = |text: &str| SkillId { name: "same".to_owned(), version: version(text) };
    assert!(matches!(at("1.9.0").rank(&at("1.10.0")), Rank::Before));
    assert!(matches!(at("1.10.0").rank(&at("1.9.0")), Rank::After));
    assert!(matches!(at("1.0.0-alpha").rank(&at("1.0.0")), Rank::Before));
    assert!(matches!(at("1.0.0").rank(&at("1.0.0")), Rank::Same));
    assert!(matches!(id("alpha").rank(&id("beta")), Rank::Before));
    assert_eq!(id("alpha").shown(), "alpha@1.0.0");
}

#[test]
fn weak_and_malformed_keys_are_not_trusted() {
    let mut states = SkillTrustStates::new();
    let trust = SkillTrustStore::new(&mut states);
    let mut identity_point = [0_u8; 32];
    identity_point[0] = 1;
    assert!(trust.trust(&mut states, "weak".to_owned(), identity_point).is_err());
    let mut no_point = [0_u8; 32];
    no_point[0] = 2;
    assert!(trust.trust(&mut states, "malformed".to_owned(), no_point).is_err());
    let key = SigningKey::from_bytes(&[3_u8; 32]).verifying_key().to_bytes();
    assert!(trust.trust(&mut states, "good".to_owned(), key).is_ok());
    assert!(matches!(trust.trust(&mut states, "good".to_owned(), key), Err(HarnessError::DuplicateCapability(_))));
}

#[test]
fn a_signature_of_another_key_is_refused() {
    let signing_key = SigningKey::from_bytes(&[21_u8; 32]);
    let other_key = SigningKey::from_bytes(&[22_u8; 32]);
    let mut states = SkillTrustStates::new();
    let trust = SkillTrustStore::new(&mut states);
    trust
        .trust(&mut states, "publisher".to_owned(), signing_key.verifying_key().to_bytes())
        .expect("trust publisher");
    let own = signed_package(package("own", "1.0.0", vec![], &[], 10), "publisher", &signing_key);
    assert_eq!(trust.verify(&states, &own, NOW), Ok(None));
    let foreign = signed_package(package("own", "1.0.0", vec![], &[], 10), "publisher", &other_key);
    assert!(trust.verify(&states, &foreign, NOW).is_err());
    let unknown = signed_package(package("own", "1.0.0", vec![], &[], 10), "stranger", &signing_key);
    assert!(trust.verify(&states, &unknown, NOW).is_err());
    let mut short = signed_package(package("own", "1.0.0", vec![], &[], 10), "publisher", &signing_key);
    short.signature.ed25519.pop();
    assert!(trust.verify(&states, &short, NOW).is_err());
}

#[test]
fn signing_domains_are_separate() {
    let signing_key = SigningKey::from_bytes(&[23_u8; 32]);
    let signed = add_transparency(
        signed_package(package("own", "1.0.0", vec![], &[], 10), "publisher", &signing_key),
        "log",
        "entry",
        1,
        &signing_key,
    );
    assert_ne!(
        skill_signing_bytes(&signed.package),
        signed.transparency_signing_bytes().expect("receipt bytes")
    );
}

#[test]
fn a_signed_skill_stays_under_the_store_that_verified_it() {
    let signing_key = SigningKey::from_bytes(&[24_u8; 32]);
    let mut states = SkillTrustStates::new();
    let trust = SkillTrustStore::new(&mut states);
    let other = SkillTrustStore::new(&mut states);
    assert!(trust != other);
    for store in [&trust, &other] {
        store
            .trust(&mut states, "publisher".to_owned(), signing_key.verifying_key().to_bytes())
            .expect("trust publisher");
    }
    let signed = signed_package(package("own", "1.0.0", vec![], &[], 10), "publisher", &signing_key);
    let mut registry = SkillRegistry::new();
    registry
        .register_signed(CapabilityOrigin::External { id: "source".to_owned() }, signed, &trust, &states)
        .expect("register");
    let engine = SkillEngine::new(registry);
    let tools = ToolRegistry::new();
    other.revoke_publisher(&mut states, "publisher", 1, "compromised".to_owned()).expect("revoke elsewhere");
    assert!(engine.resolve(&[id("own")], &tools, 10, &states).is_ok());
    assert_eq!(trust.publisher_revocation(&states, "publisher"), Ok(None));
    let copy = trust.clone();
    copy.revoke_publisher(&mut states, "publisher", 1, "compromised".to_owned()).expect("revoke");
    assert!(engine.resolve(&[id("own")], &tools, 10, &states).is_err());
    assert!(engine.read_resource(&id("own"), "references/guide.md", &states).is_err());
}

#[test]
fn a_store_that_holds_nothing_trusts_nobody() {
    let mut elsewhere = SkillTrustStates::new();
    let trust = SkillTrustStore::new(&mut elsewhere);
    let mut states = SkillTrustStates::new();
    assert!(matches!(trust.publisher_revocation(&states, "publisher"), Err(HarnessError::Skill(_))));
    let key = SigningKey::from_bytes(&[26_u8; 32]).verifying_key().to_bytes();
    trust.trust(&mut states, "publisher".to_owned(), key).expect("trust publisher");
    assert_eq!(trust.publisher_revocation(&states, "publisher"), Ok(None));
    assert!(trust.publisher_revocation(&elsewhere, "publisher").is_err());
}

#[test]
fn resolutions_are_compared_without_their_trust_checks() {
    let signing_key = SigningKey::from_bytes(&[25_u8; 32]);
    let mut states = SkillTrustStates::new();
    let mut resolve = |name: &str| {
        let trust = SkillTrustStore::new(&mut states);
        trust
            .trust(&mut states, "publisher".to_owned(), signing_key.verifying_key().to_bytes())
            .expect("trust publisher");
        let signed = signed_package(package(name, "1.0.0", vec![], &[], 10), "publisher", &signing_key);
        let mut registry = SkillRegistry::new();
        registry
            .register_signed(CapabilityOrigin::External { id: "source".to_owned() }, signed, &trust, &states)
            .expect("register");
        SkillEngine::new(registry)
            .resolve(&[id(name)], &ToolRegistry::new(), 10, &states)
            .expect("resolve")
    };
    let (first, second) = (resolve("own"), resolve("own"));
    assert!(first.trust_checks != second.trust_checks);
    assert!(first == second);
    assert!(first != resolve("other"));
}

#[test]
fn a_required_tool_that_is_registered_is_enough() {
    let mut registry = SkillRegistry::new();
    registry
        .register(CapabilityOrigin::BuiltIn, package("review", "1.0.0", vec![], &["browser"], 20))
        .expect("register");
    let mut tools = ToolRegistry::new();
    tools
        .register(
            CapabilityOrigin::BuiltIn,
            ToolDescriptor {
                name: "browser".to_owned(),
                description: "Browses".to_owned(),
                input_schema: JsonDocument::parse("{}").expect("schema"),
            },
            ToolBatchExecution::Sequential,
            Duration::zero(),
        )
        .expect("tool");
    let resolved = SkillEngine::new(registry)
        .resolve(&[id("review"), id("review")], &tools, 20, &SkillTrustStates::new())
        .ok()
        .expect("resolve");
    assert_eq!(resolved.skills.len(), 1);
}

#[test]
fn unknown_and_duplicate_skills_are_refused() {
    let mut registry = SkillRegistry::new();
    registry
        .register(CapabilityOrigin::BuiltIn, package("review", "1.0.0", vec![], &[], 20))
        .expect("register");
    assert!(matches!(
        registry.register(CapabilityOrigin::BuiltIn, package("review", "1.0.0", vec![], &[], 20)),
        Err(HarnessError::DuplicateCapability(_))
    ));
    let engine = SkillEngine::new(registry);
    let missing = engine
        .resolve(&[id("other")], &ToolRegistry::new(), 20, &SkillTrustStates::new())
        .err()
        .expect("unknown skill");
    assert!(missing.to_string().contains("other@1.0.0"));
    assert!(matches!(
        engine.read_resource(&id("review"), "references/none.md", &SkillTrustStates::new()),
        Err(HarnessError::Skill(_))
    ));
    assert!(matches!(
        engine.read_resource(&id("review"), "../guide.md", &SkillTrustStates::new()),
        Err(HarnessError::Skill(_))
    ));
}

#[test]
fn resource_paths_stay_inside_their_package() {
    assert!(normal_path("references/guide.md"));
    assert!(!normal_path("/references/guide.md"));
    assert!(!normal_path("references/../guide.md"));
}

#[test]
fn dependencies_have_to_be_sorted_and_unique() {
    let sealed = |dependencies: Vec<(&str, &str)>| {
        let base = package("review", "1.0.0", vec![], &[], 20);
        let mut manifest = base.manifest.clone();
        manifest.dependencies = dependencies
            .into_iter()
            .map(|(name, dependency)| SkillDependency { name: name.to_owned(), version: version(dependency) })
            .collect();
        SkillPackage::seal(manifest, base.instructions, base.resources)
    };
    assert!(sealed(vec![("alpha", "1.0.0"), ("beta", "1.0.0")]).is_ok());
    assert!(sealed(vec![("alpha", "1.9.0"), ("alpha", "1.10.0")]).is_ok());
    assert!(sealed(vec![("beta", "1.0.0"), ("alpha", "1.0.0")]).is_err());
    assert!(sealed(vec![("alpha", "1.0.0"), ("alpha", "1.0.0")]).is_err());
    assert!(sealed(vec![("review", "1.0.0")]).is_ok());
}

fn diamond() -> SkillEngine {
    let mut registry = SkillRegistry::new();
    for (name, dependencies) in [
        ("base", vec![]),
        ("left", vec![("base", "1.0.0")]),
        ("right", vec![("base", "1.0.0")]),
        ("unasked", vec![("base", "1.0.0")]),
    ] {
        registry
            .register(CapabilityOrigin::BuiltIn, package(name, "1.0.0", dependencies, &[], 10))
            .expect("register");
    }
    SkillEngine::new(registry)
}

#[test]
fn a_resolved_set_is_the_closure_of_its_request() {
    let engine = diamond();
    let resolved = engine
        .resolve_at(&[id("right"), id("left")], &ToolRegistry::new(), 30, &SkillTrustStates::new(), NOW)
        .ok()
        .expect("resolved");
    let names: Vec<&str> = resolved.skills.iter().map(|skill| skill.id.name.as_str()).collect();
    assert_eq!(names, ["base", "left", "right"]);
    assert_eq!(resolved.context.len(), 3);
    assert_eq!(resolved.estimated_tokens, 30);
}

#[test]
fn the_order_of_a_request_does_not_matter() {
    let engine = diamond();
    let tools = ToolRegistry::new();
    let once = engine.resolve_at(&[id("left"), id("right")], &tools, 30, &SkillTrustStates::new(), NOW).ok().expect("resolved");
    let again = engine
        .resolve_at(&[id("right"), id("left"), id("right"), id("base")], &tools, 30, &SkillTrustStates::new(), NOW)
        .ok()
        .expect("resolved");
    assert!(once == again);
}

#[test]
fn a_recorded_revocation_stays_as_it_is() {
    let first = SkillKeyRevocation { revoked_at_ms: 5, reason_code: "compromised".to_owned() };
    let mut recorded = None;
    install_revocation(&mut recorded, first.clone(), "publisher key", "publisher").expect("recorded");
    assert!(recorded == Some(first.clone()));
    install_revocation(&mut recorded, first.clone(), "publisher key", "publisher").expect("recorded again");
    assert!(recorded == Some(first.clone()));
    let later = SkillKeyRevocation { revoked_at_ms: 6, reason_code: "compromised".to_owned() };
    assert_eq!(
        install_revocation(&mut recorded, later, "publisher key", "publisher"),
        Err(HarnessError::Skill(
            "publisher key publisher already has a different immutable revocation".to_owned()
        ))
    );
    assert!(recorded == Some(first));
}

#[test]
fn trusting_further_keys_keeps_a_revocation() {
    let key = SigningKey::from_bytes(&[22_u8; 32]).verifying_key().to_bytes();
    let mut states = SkillTrustStates::new();
    let trust = SkillTrustStore::new(&mut states);
    trust.trust(&mut states, "old".to_owned(), key).expect("trust");
    trust.revoke_publisher(&mut states, "old", 7, "retired".to_owned()).expect("revoke");
    assert!(trust.trust(&mut states, "old".to_owned(), key).is_err());
    trust.trust(&mut states, "new".to_owned(), key).expect("trust");
    trust.trust_transparency_log(&mut states, "log".to_owned(), key).expect("trust log");
    trust.revoke_transparency_log(&mut states, "log", 8, "retired".to_owned()).expect("revoke log");
    let kept = trust.publisher_revocation(&states, "old").expect("trusted").expect("revoked");
    assert_eq!((kept.revoked_at_ms, kept.reason_code.as_str()), (7, "retired"));
}
