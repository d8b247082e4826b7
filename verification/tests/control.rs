//! Options of a Turn, and waits under cancellation and deadlines.

use y_harness::error::{ExecutionPhase, HarnessError};
use y_harness::items::ExecutionBinding;
use y_harness::kernel::{ActorIdentity, AuthorityContext};
use y_harness::runtime::control::{
    controlled, deadline, CleanUp, ControlStep, MemoryScope, TurnExecutionOptions, WaitEnd,
};
use y_harness::time::{Duration, Moment};

fn authenticated() -> ActorIdentity {
    ActorIdentity::Authenticated { authority: "test-auth".to_owned(), subject: "user-1".to_owned() }
}

fn scope(tenant: &str) -> MemoryScope {
    MemoryScope { tenant_id: Some(tenant.to_owned()), ..MemoryScope::default() }
}

#[test]
fn trusted_tenant_is_injected_and_cannot_be_overridden() {
    let authority = AuthorityContext::new(authenticated(), Some("tenant-a".to_owned())).expect("authority");
    let options = TurnExecutionOptions { authority: authority.clone(), ..TurnExecutionOptions::default() };
    assert_eq!(
        options.validated_memory_scope().expect("trusted scope").tenant_id.as_deref(),
        Some("tenant-a")
    );

    let conflicting = TurnExecutionOptions {
        authority,
        memory_scope: scope("tenant-b"),
        ..TurnExecutionOptions::default()
    };
    assert!(matches!(conflicting.validated_memory_scope(), Err(HarnessError::InvalidConfiguration(_))));
}

#[test]
fn unscoped_remote_actor_cannot_select_a_memory_tenant() {
    let options = TurnExecutionOptions {
        authority: AuthorityContext::new(authenticated(), None).expect("authority"),
        memory_scope: scope("tenant-a"),
        ..TurnExecutionOptions::default()
    };
    assert!(matches!(options.validated_memory_scope(), Err(HarnessError::InvalidConfiguration(_))));
}

#[test]
fn trusted_local_process_retains_explicit_embedded_scope() {
    let options = TurnExecutionOptions { memory_scope: scope("tenant-a"), ..TurnExecutionOptions::default() };
    assert_eq!(
        options.validated_memory_scope().expect("trusted embedded scope").tenant_id.as_deref(),
        Some("tenant-a")
    );
}

#[test]
fn embedded_memory_tenant_still_requires_a_canonical_identity() {
    let options = TurnExecutionOptions { memory_scope: scope("../tenant"), ..TurnExecutionOptions::default() };
    assert!(matches!(options.validated_memory_scope(), Err(HarnessError::InvalidConfiguration(_))));
}

#[test]
fn rejects_a_timeout_outside_the_runtime_clock_range() {
    let now = Moment { nanos: 1 };
    assert!(matches!(deadline(Some(Duration::max()), now), Err(HarnessError::InvalidConfiguration(_))));
}

#[test]
fn a_timeout_inside_the_clock_range_becomes_a_deadline() {
    let now = Moment { nanos: 5 };
    let found = deadline(Some(Duration::from_millis(2)), now).expect("deadline").expect("some deadline");
    assert_eq!(found.nanos, 2_000_005);
    assert!(deadline(None, now).expect("no deadline").is_none());
}

fn binding(tenant: Option<&str>) -> ExecutionBinding {
    ExecutionBinding::new(
        "agent",
        "fixture",
        "1.0.0",
        "a".repeat(64),
        "b".repeat(64),
        1,
        tenant.map(str::to_owned),
    )
    .expect("binding")
}

#[test]
fn a_binding_has_to_belong_to_the_tenant_of_the_authority() {
    let authority = AuthorityContext::new(authenticated(), Some("tenant-a".to_owned())).expect("authority");
    let own = TurnExecutionOptions {
        authority: authority.clone(),
        execution_binding: Some(binding(Some("tenant-a"))),
        ..TurnExecutionOptions::default()
    };
    assert!(own.validated_execution_binding().expect("own tenant").is_some());
    let foreign = TurnExecutionOptions {
        authority,
        execution_binding: Some(binding(Some("tenant-b"))),
        ..TurnExecutionOptions::default()
    };
    assert_eq!(
        foreign.validated_execution_binding().err(),
        Some(HarnessError::InvalidConfiguration(
            "execution binding tenant does not match the trusted Turn authority".to_owned()
        ))
    );
}

#[test]
fn a_stop_signal_settles_at_once_without_grace() {
    let end: WaitEnd<&str> = WaitEnd::Cancelled;
    match controlled(end, ExecutionPhase::Model, Duration::zero()) {
        ControlStep::Stop(stopped) => {
            assert!(stopped.clean_up_time().is_none());
            let result: Result<&str, HarnessError> = stopped.settle(CleanUp::Unfinished);
            assert_eq!(result, Err(HarnessError::Cancelled { phase: ExecutionPhase::Model }));
        }
        ControlStep::Settled(_) => panic!("a stop is not a settlement"),
    }
}

#[test]
fn a_failed_clean_up_replaces_the_stop() {
    let end: WaitEnd<()> = WaitEnd::Cancelled;
    match controlled(end, ExecutionPhase::Tool, Duration::from_millis(100)) {
        ControlStep::Stop(stopped) => {
            assert_eq!(stopped.clean_up_time().map(|grace| grace.as_millis()), Some(100));
            let result: Result<(), HarnessError> =
                stopped.settle(CleanUp::Replied(Err(HarnessError::Mcp("cleanup failed".to_owned()))));
            assert_eq!(result, Err(HarnessError::Mcp("cleanup failed".to_owned())));
        }
        ControlStep::Settled(_) => panic!("a stop is not a settlement"),
    }
}

#[test]
fn a_panic_is_reported_without_its_content() {
    let end: WaitEnd<()> = WaitEnd::Panicked;
    match controlled(end, ExecutionPhase::Policy, Duration::zero()) {
        ControlStep::Settled(Err(error)) => {
            assert_eq!(error, HarnessError::CapabilityPanicked { phase: ExecutionPhase::Policy });
        }
        _ => panic!("a panic settles the operation"),
    }
}
