//! Policy evaluation and approval settlement ports.

use vstd::prelude::*;

use crate::capability::{ApprovalRequest, ToolAuthorization};
use crate::error::{ErrorView, HarnessError};
use crate::items::{ApprovalDecision, PolicyDecision};
use crate::kernel::{ApprovalId, AuthorityContext, ThreadId, TurnId};
use crate::runtime::route::invalid_configuration;
use crate::table::Table;

verus! {

/// Authorization boundary evaluated before tool execution.
pub trait PolicyEngine {
    /// Returns allow, deny, or ask for one proposed tool call.
    fn authorize(&self, request: &ToolAuthorization, authority: &AuthorityContext) -> Result<PolicyDecision, HarnessError>;
}

/// Durable state of one approval request.
#[derive(Debug, PartialEq, Eq)]
pub struct ApprovalRecord {
    /// Question to the approver.
    pub request: ApprovalRequest,
    /// Decision, once there is one.
    pub decision: Option<ApprovalDecision>,
}

/// Error of a tenant-scoped request to a handler that knows no tenants.
pub open spec fn tenant_unaware() -> ErrorView {
    ErrorView::InvalidConfiguration("tenant-scoped approvals require a tenant-aware approval handler"@)
}

/// Error of a durable wait at a handler that has none.
pub open spec fn no_durable_wait() -> ErrorView {
    ErrorView::InvalidConfiguration("approval handler does not support durable waits"@)
}

/// Settlement boundary for policy decisions that require approval.
///
/// A handler that only decides is safe outside tenants alone: what it does not
/// override fails closed.
pub trait ApprovalHandler {
    /// Approves or denies one fully correlated request.
    fn decide(&self, request: &ApprovalRequest) -> Result<ApprovalDecision, HarnessError>;

    /// Decides one request under trusted tenant authority.
    fn decide_as(&self, request: &ApprovalRequest, authority: &AuthorityContext) -> (result: Result<
        ApprovalDecision,
        HarnessError,
    >)
        default_ensures
            if authority@.tenant_id is Some {
                result matches Err(error) && error@ == tenant_unaware()
            } else {
                call_ensures(Self::decide, (self, request), result)
            },
    {
        if authority.tenant_id().is_some() {
            return Err(
                invalid_configuration("tenant-scoped approvals require a tenant-aware approval handler"),
            );
        }
        self.decide(request)
    }

    /// Returns whether this handler can submit and reload a durable wait
    /// without retaining a polling worker.
    fn supports_durable_wait(&self) -> (result: bool)
        default_ensures
            !result,
    {
        false
    }

    /// Idempotently submits one durable wait under trusted tenant authority.
    fn submit_wait_as(&self, request: &ApprovalRequest, authority: &AuthorityContext) -> (result: Result<
        ApprovalRecord,
        HarnessError,
    >)
        default_ensures
            result matches Err(error) && error@ == no_durable_wait(),
    {
        Err(invalid_configuration("approval handler does not support durable waits"))
    }

    /// Reloads one durable wait inside the exact trusted tenant boundary.
    fn get_wait_as(&self, approval_id: &ApprovalId, authority: &AuthorityContext) -> (result: Result<
        Option<ApprovalRecord>,
        HarnessError,
    >)
        default_ensures
            result matches Err(error) && error@ == no_durable_wait(),
    {
        Err(invalid_configuration("approval handler does not support durable waits"))
    }

    /// Marks pending requests from a Turn that can no longer consume settlement.
    fn abandon_turn(&self, thread_id: &ThreadId, turn_id: &TurnId, reason: &str) -> (result: Result<(), HarnessError>)
        default_ensures
            result is Ok,
    {
        Ok(())
    }

    /// Marks abandoned requests under trusted tenant authority.
    fn abandon_turn_as(
        &self,
        thread_id: &ThreadId,
        turn_id: &TurnId,
        reason: &str,
        authority: &AuthorityContext,
    ) -> (result: Result<(), HarnessError>)
        default_ensures
            if authority@.tenant_id is Some {
                result matches Err(error) && error@ == tenant_unaware()
            } else {
                call_ensures(Self::abandon_turn, (self, thread_id, turn_id, reason), result)
            },
    {
        if authority.tenant_id().is_some() {
            return Err(
                invalid_configuration("tenant-scoped approvals require a tenant-aware approval handler"),
            );
        }
        self.abandon_turn(thread_id, turn_id, reason)
    }
}

/// Deny-by-default tool policy backed by an explicit name allow-list.
pub struct AllowListPolicy {
    allowed: Table<()>,
}

impl AllowListPolicy {
    /// Names of the allowed tools.
    pub closed spec fn allowed(self) -> Set<Seq<char>> {
        self.allowed@.dom()
    }

    /// Creates a policy that initially denies every tool.
    pub fn deny_by_default() -> (policy: Self)
        ensures
            policy.allowed() == Set::<Seq<char>>::empty(),
    {
        let policy = AllowListPolicy { allowed: Table::new() };
        assert(policy.allowed() =~= Set::<Seq<char>>::empty());
        policy
    }

    /// Adds one allowed tool name.
    pub fn allow(self, tool_name: &str) -> (policy: Self)
        ensures
            policy.allowed() == self.allowed().insert(tool_name@),
    {
        let mut policy = self;
        policy.allowed.insert(tool_name.to_owned(), ());
        assert(policy.allowed() =~= self.allowed().insert(tool_name@));
        policy
    }
}

impl Default for AllowListPolicy {
    fn default() -> (policy: Self)
        ensures
            policy.allowed() == Set::<Seq<char>>::empty(),
    {
        AllowListPolicy::deny_by_default()
    }
}

impl PolicyEngine for AllowListPolicy {
    fn authorize(&self, request: &ToolAuthorization, authority: &AuthorityContext) -> (result: Result<
        PolicyDecision,
        HarnessError,
    >)
        ensures
            if self.allowed().contains(request.descriptor.name@) {
                result == Ok::<PolicyDecision, HarnessError>(PolicyDecision::Allow)
            } else {
                result matches Ok(PolicyDecision::Deny { reason }) && reason@
                    == "tool is not present in the runtime allow list"@
            },
    {
        if self.allowed.contains(request.descriptor.name.as_str()) {
            Ok(PolicyDecision::Allow)
        } else {
            Ok(PolicyDecision::Deny { reason: "tool is not present in the runtime allow list".to_owned() })
        }
    }
}

/// Safe default used when no interactive or delegated approver is installed.
pub struct DenyAllApprovals;

impl ApprovalHandler for DenyAllApprovals {
    fn decide(&self, request: &ApprovalRequest) -> (result: Result<ApprovalDecision, HarnessError>)
        ensures
            result matches Ok(ApprovalDecision::Deny { reason }) && reason@ == "no approval handler is configured"@,
    {
        Ok(ApprovalDecision::Deny { reason: "no approval handler is configured".to_owned() })
    }

    fn decide_as(&self, request: &ApprovalRequest, authority: &AuthorityContext) -> (result: Result<
        ApprovalDecision,
        HarnessError,
    >)
        ensures
            result matches Ok(ApprovalDecision::Deny { reason }) && reason@ == "no approval handler is configured"@,
    {
        self.decide(request)
    }
}

} // verus!
