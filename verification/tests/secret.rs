//! Credentials and the providers that resolve them.

use y_harness::error::HarnessError;
use y_harness::kernel::{ActorIdentity, AuthorityContext, CapabilityOrigin, ThreadId, TurnId};
use y_harness::secret::{
    environment_value, require_unscoped, valid_environment_name, EnvironmentSecretProvider,
    SecretMappings, SecretProviderDescriptor, SecretReference, SecretRegistry, SecretRequest,
    SecretUseContext, SecretValue, TenantEnvironmentSecretProvider, TenantMappings,
    SECRET_API_VERSION,
};

fn fixed() -> SecretProviderDescriptor {
    SecretProviderDescriptor {
        name: "fixed".to_owned(),
        description: "Test-only fixed credential resolver".to_owned(),
        api_version: SECRET_API_VERSION,
    }
}

fn request(reference: &str) -> SecretRequest {
    SecretRequest {
        reference: SecretReference::new(reference.to_owned()).expect("reference"),
        consumer: "provider/model".to_owned(),
        use_context: SecretUseContext::AgentTurn {
            thread_id: ThreadId::from_text("thread"),
            turn_id: TurnId::from_text("turn"),
        },
    }
}

fn authority(tenant_id: &str) -> AuthorityContext {
    AuthorityContext::new(
        ActorIdentity::Authenticated {
            authority: "test".to_owned(),
            subject: "secret-test".to_owned(),
        },
        Some(tenant_id.to_owned()),
    )
    .expect("authority")
}

#[test]
fn values_are_non_serializable_and_debug_redacted() {
    let value = SecretValue::new(b"do-not-print".to_vec()).expect("secret");
    assert_eq!(value.redacted(), "SecretValue([REDACTED])");
    assert_eq!(value.expose_bytes(), b"do-not-print");
    let debug = format!("{value:?}");
    assert!(!debug.contains("do-not-print"));
    assert!(!debug.contains("100, 111"));
}

#[test]
fn registry_is_versioned_ordered_and_collision_safe() {
    let mut registry = SecretRegistry::new();
    registry
        .register(CapabilityOrigin::BuiltIn, Ok(fixed()))
        .expect("provider");
    assert_eq!(registry.names(), ["fixed"]);
    assert!(matches!(
        registry.register(CapabilityOrigin::BuiltIn, Ok(fixed())),
        Err(HarnessError::DuplicateCapability(_))
    ));
}

#[test]
fn a_registry_refuses_other_versions_and_failing_providers() {
    let mut registry = SecretRegistry::new();
    let old = SecretProviderDescriptor { api_version: SECRET_API_VERSION - 1, ..fixed() };
    assert!(matches!(
        registry.register(CapabilityOrigin::BuiltIn, Ok(old)),
        Err(HarnessError::InvalidCapability(_))
    ));
    let failure = HarnessError::InvalidCapability("descriptor panicked".to_owned());
    assert_eq!(registry.register(CapabilityOrigin::BuiltIn, Err(failure.clone())), Err(failure));
    assert!(registry.names().is_empty());
}

#[test]
fn environment_provider_reads_only_explicit_mappings() {
    let reference = SecretReference::new("model/gateway".to_owned()).expect("reference");
    let mut mappings = SecretMappings::new();
    mappings.insert(&reference, "YH_TEST_DELIBERATELY_MISSING".to_owned());
    let provider = EnvironmentSecretProvider::new("environment".to_owned(), mappings)
        .ok()
        .expect("provider");
    assert_eq!(
        provider.variable(&request("model/gateway")).expect("mapped"),
        "YH_TEST_DELIBERATELY_MISSING"
    );
    assert!(matches!(provider.variable(&request("model/other")), Err(HarnessError::Secret(_))));
    let error = environment_value(None).err().expect("missing value");
    assert_eq!(
        error,
        HarnessError::Secret(
            "mapped environment credential is unavailable or not Unicode".to_owned()
        )
    );
}

#[test]
fn legacy_provider_fails_closed_for_tenant_authority() {
    let error = require_unscoped(&authority("tenant-a")).expect_err("legacy tenant resolution");
    assert_eq!(
        error,
        HarnessError::Secret(
            "secret provider does not support tenant-scoped resolution".to_owned()
        )
    );
    assert!(require_unscoped(&AuthorityContext::local_process()).is_ok());
}

#[test]
fn tenant_environment_provider_never_falls_back_across_tenants() {
    let reference = SecretReference::new("model/gateway".to_owned()).expect("reference");
    let mut own = SecretMappings::new();
    own.insert(&reference, "YH_TEST_DELIBERATELY_MISSING_TENANT_A".to_owned());
    let mut tenants = TenantMappings::new();
    tenants.insert("tenant-a".to_owned(), own);
    let provider = TenantEnvironmentSecretProvider::new("tenant-environment".to_owned(), tenants)
        .ok()
        .expect("provider");
    assert_eq!(
        provider
            .variable_as(&request("model/gateway"), &authority("tenant-a"))
            .expect("mapped variable"),
        "YH_TEST_DELIBERATELY_MISSING_TENANT_A"
    );
    let mapped = environment_value(None).err().expect("mapped variable is deliberately absent");
    assert!(mapped.to_string().contains("unavailable"));
    let hidden = provider
        .variable_as(&request("model/gateway"), &authority("tenant-b"))
        .expect_err("cross-tenant mapping");
    assert!(hidden.to_string().contains("not mapped for this tenant"));
    let unscoped = provider.refuse_unscoped();
    assert!(unscoped.to_string().contains("requires tenant authority"));
    let local = provider
        .variable_as(&request("model/gateway"), &AuthorityContext::local_process())
        .expect_err("unscoped authority");
    assert!(local.to_string().contains("requires tenant authority"));
}

#[test]
fn credentials_are_bounded_and_text_only_where_they_are_utf8() {
    assert!(matches!(SecretValue::new(Vec::new()), Err(HarnessError::Secret(_))));
    assert!(matches!(SecretValue::new(vec![0; 65_537]), Err(HarnessError::Secret(_))));
    let text = SecretValue::new("clé".as_bytes().to_vec()).expect("text");
    assert_eq!(text.expose_str(), Ok("clé"));
    assert_eq!(text.len(), 4);
    let bytes = SecretValue::new(vec![0xff, 0xfe]).expect("bytes");
    assert!(matches!(bytes.expose_str(), Err(HarnessError::Secret(_))));
    assert_eq!(environment_value(Some("token".to_owned())).expect("value").expose_bytes(), b"token");
}

#[test]
fn references_and_variables_follow_their_grammars() {
    assert!(SecretReference::new("model/gateway".to_owned()).is_ok());
    assert!(SecretReference::new(String::new()).is_err());
    assert!(SecretReference::new("a b".to_owned()).is_err());
    assert!(SecretReference::new("x".repeat(257)).is_err());
    assert!(valid_environment_name("_TOKEN_1"));
    assert!(!valid_environment_name("1TOKEN"));
    assert!(!valid_environment_name("A-B"));
    assert!(!valid_environment_name(""));
}

fn tenants_with(sizes: &[(&str, usize)]) -> TenantMappings {
    let mut tenants = TenantMappings::new();
    for (tenant, size) in sizes {
        let mut mappings = SecretMappings::new();
        for index in 0..*size {
            let reference = SecretReference::new(format!("entry/{index}")).expect("reference");
            mappings.insert(&reference, format!("VARIABLE_{index}"));
        }
        tenants.insert((*tenant).to_owned(), mappings);
    }
    tenants
}

fn tenant_resolver(tenants: TenantMappings) -> Result<(), String> {
    TenantEnvironmentSecretProvider::new("tenant-environment".to_owned(), tenants)
        .map(|_| ())
        .map_err(|error| error.to_string())
}

#[test]
fn tenant_mappings_are_counted_together() {
    assert!(tenant_resolver(tenants_with(&[("tenant-a", 1_000), ("tenant-b", 24)])).is_ok());
    for refused in [
        tenants_with(&[]),
        tenants_with(&[("tenant-a", 1_000), ("tenant-b", 25)]),
        tenants_with(&[("tenant-a", 3), ("tenant-b", 0)]),
    ] {
        assert!(tenant_resolver(refused).expect_err("count").contains("1-1024 total entries"));
    }
    assert!(tenant_resolver(tenants_with(&[("../tenant", 1)])).is_err());
    let mut invalid = SecretMappings::new();
    invalid.insert(&SecretReference::new("entry".to_owned()).expect("reference"), "1BAD".to_owned());
    let mut tenants = tenants_with(&[("tenant-a", 1)]);
    tenants.insert("tenant-b".to_owned(), invalid);
    assert!(tenant_resolver(tenants).expect_err("variable").contains("invalid variable name"));
}

#[test]
fn environment_values_are_utf8_bytes() {
    let value = environment_value(Some("clé".to_owned())).expect("value");
    assert_eq!(value.expose_bytes(), [0x63, 0x6c, 0xc3, 0xa9]);
    assert!(environment_value(Some(String::new())).is_err());
}
