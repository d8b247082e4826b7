//! Authorization of one Tool call: Policy, then an approver where Policy asks.

use vstd::prelude::*;

use crate::capability::{ApprovalRequest, RegisteredTool, ToolAuthorization, ToolRegistry};
use crate::error::{ErrorView, HarnessError};
use crate::items::{ApprovalDecision, ItemKind, ModelToolCall, PolicyDecision, Turn};
use crate::kernel::{ActorIdentity, ApprovalId};
use crate::runtime::validate::{
    approval_decision_check, policy_decision_check, validate_approval_decision, validate_policy_decision,
};

verus! {

/// Reason given to the approver when a wait ends without a decision.
pub open spec fn abandonment_reason() -> Seq<char> {
    "approval wait ended without a settlement"@
}

/// Returns the reason given to the approver when a wait ends without a
/// decision.
pub fn abandonment_text() -> (reason: &'static str)
    ensures
        reason@ == abandonment_reason(),
{
    "approval wait ended without a settlement"
}

/// Call that waits for Policy.
pub struct AwaitPolicy {
    authorization: ToolAuthorization,
    tool: String,
    model_request_sha256: String,
    requested_by: ActorIdentity,
}

/// Call whose Policy decision is being recorded.
pub struct PolicyRecorded {
    pending: AwaitPolicy,
    decision: PolicyDecision,
}

/// Call that waits for an approver.
pub struct AwaitApproval {
    request: ApprovalRequest,
    tool: String,
}

/// Call whose approver decision is being recorded.
pub struct ApprovalRecorded {
    tool: String,
    decision: ApprovalDecision,
}

/// Progress of an authorization.
pub enum AuthorizeStep {
    /// Policy has to decide.
    AskPolicy(AwaitPolicy),
    /// The decision of Policy has to be recorded.
    RecordPolicy(ItemKind, PolicyRecorded),
    /// The request for an approval has to be recorded, then the approver has
    /// to decide.
    AskApproval(ItemKind, AwaitApproval),
    /// The approver has to be told that nobody waits any more; then the Turn
    /// is settled with the error.
    Abandon(HarnessError),
    /// The decision of the approver has to be recorded.
    RecordApproval(ItemKind, ApprovalRecorded),
    /// The Turn has to be settled with the error.
    Settle(HarnessError),
    /// The call may run.
    Granted,
}

impl AwaitPolicy {
    /// Proposed call.
    pub closed spec fn authorization(self) -> ToolAuthorization {
        self.authorization
    }

    /// Name of the Tool, as the Model gave it.
    pub closed spec fn tool(self) -> String {
        self.tool
    }

    /// Digest of the Model request that led to the call.
    pub closed spec fn model_request_sha256(self) -> String {
        self.model_request_sha256
    }

    /// Party for which the call is made.
    pub closed spec fn requested_by(self) -> ActorIdentity {
        self.requested_by
    }

    /// Returns the proposed call.
    pub fn request(&self) -> (authorization: &ToolAuthorization)
        ensures
            *authorization == self.authorization(),
    {
        &self.authorization
    }
}

impl PolicyRecorded {
    /// Call that Policy decided on.
    pub closed spec fn pending(self) -> AwaitPolicy {
        self.pending
    }

    /// Decision of Policy.
    pub closed spec fn decision(self) -> PolicyDecision {
        self.decision
    }
}

impl AwaitApproval {
    /// Question to the approver.
    pub closed spec fn request(self) -> ApprovalRequest {
        self.request
    }

    /// Name of the Tool, as the Model gave it.
    pub closed spec fn tool(self) -> String {
        self.tool
    }

    /// Returns the question to the approver.
    pub fn question(&self) -> (request: &ApprovalRequest)
        ensures
            *request == self.request(),
    {
        &self.request
    }
}

impl ApprovalRecorded {
    /// Name of the Tool, as the Model gave it.
    pub closed spec fn tool(self) -> String {
        self.tool
    }

    /// Decision of the approver.
    pub closed spec fn decision(self) -> ApprovalDecision {
        self.decision
    }
}

/// Proposed call, as Policy sees it.
pub open spec fn proposed(turn: Turn, call: ModelToolCall, tool: RegisteredTool) -> ToolAuthorization {
    ToolAuthorization {
        thread_id: turn.thread_id,
        turn_id: turn.id,
        call_id: call.call_id,
        descriptor: tool.descriptor,
        origin: tool.origin,
        input: call.input,
    }
}

/// Begins to authorize a call of a registered Tool.
pub fn authorize_tool_call(
    tools: &ToolRegistry,
    turn: &Turn,
    call: &ModelToolCall,
    model_request_sha256: &String,
    requested_by: &ActorIdentity,
) -> (step: AuthorizeStep)
    ensures
        if tools@.contains_key(call.name@) {
            step matches AuthorizeStep::AskPolicy(pending) && pending.authorization() == proposed(
                *turn,
                *call,
                tools@[call.name@],
            ) && pending.tool() == call.name && pending.model_request_sha256() == *model_request_sha256
                && pending.requested_by() == *requested_by
        } else {
            step matches AuthorizeStep::Settle(error) && error@ == ErrorView::UnknownTool(call.name@)
        },
{
    match tools.get(call.name.as_str()) {
        None => AuthorizeStep::Settle(HarnessError::UnknownTool(call.name.clone())),
        Some(registered) => AuthorizeStep::AskPolicy(
            AwaitPolicy {
                authorization: ToolAuthorization {
                    thread_id: turn.thread_id.clone(),
                    turn_id: turn.id.clone(),
                    call_id: call.call_id.clone(),
                    descriptor: registered.descriptor.clone(),
                    origin: registered.origin.clone(),
                    input: call.input.clone(),
                },
                tool: call.name.clone(),
                model_request_sha256: model_request_sha256.clone(),
                requested_by: requested_by.clone(),
            },
        ),
    }
}

/// What follows the reply of Policy: a decision that is well formed is recorded
/// for the call.
pub open spec fn policy_step(
    pending: AwaitPolicy,
    reply: Result<PolicyDecision, HarnessError>,
    step: AuthorizeStep,
) -> bool {
    match reply {
        Err(error) => step == AuthorizeStep::Settle(error),
        Ok(decision) => match policy_decision_check(decision) {
            Err(fault) => step matches AuthorizeStep::Settle(error) && error@ == fault,
            Ok(()) => step matches AuthorizeStep::RecordPolicy(item, recorded) && item == (ItemKind::PolicyDecision {
                call_id: pending.authorization().call_id,
                tool_origin: Some(pending.authorization().origin),
                decision,
            }) && recorded.pending() == pending && recorded.decision() == decision,
        },
    }
}

/// What follows a recorded decision of Policy.
pub open spec fn policy_outcome(recorded: PolicyRecorded, approval_id: ApprovalId, step: AuthorizeStep) -> bool {
    let asked = recorded.pending();
    match recorded.decision() {
        PolicyDecision::Allow => step == AuthorizeStep::Granted,
        PolicyDecision::Deny { reason } => step == AuthorizeStep::Settle(
            HarnessError::PolicyDenied { tool: asked.tool(), reason },
        ),
        PolicyDecision::Ask { reason, risk } => step matches AuthorizeStep::AskApproval(item, pending)
            && pending.request() == (ApprovalRequest {
            id: approval_id,
            requested_by: asked.requested_by(),
            authorization: asked.authorization(),
            reason,
            risk,
        }) && pending.tool() == asked.tool() && item == (ItemKind::ApprovalRequested {
            approval_id,
            call_id: asked.authorization().call_id,
            tool: asked.tool(),
            reason,
            risk,
            requested_by: Some(asked.requested_by()),
            tool_origin: Some(asked.authorization().origin),
            model_request_sha256: Some(asked.model_request_sha256()),
        }),
    }
}

/// What follows the reply of the approver: a decision that is well formed is
/// recorded for the call, and a request without one is abandoned.
pub open spec fn approval_step(
    pending: AwaitApproval,
    reply: Result<ApprovalDecision, HarnessError>,
    step: AuthorizeStep,
) -> bool {
    match reply {
        Err(error) => step == AuthorizeStep::Abandon(error),
        Ok(decision) => match approval_decision_check(decision) {
            Err(fault) => step matches AuthorizeStep::Settle(error) && error@ == fault,
            Ok(()) => step matches AuthorizeStep::RecordApproval(item, recorded) && item == (ItemKind::ApprovalDecision {
                approval_id: pending.request().id,
                call_id: pending.request().authorization.call_id,
                decision,
            }) && recorded.tool() == pending.tool() && recorded.decision() == decision,
        },
    }
}

/// What follows a recorded decision of the approver.
pub open spec fn approval_outcome(recorded: ApprovalRecorded, step: AuthorizeStep) -> bool {
    match recorded.decision() {
        ApprovalDecision::Approve => step == AuthorizeStep::Granted,
        ApprovalDecision::Deny { reason } => step == AuthorizeStep::Settle(
            HarnessError::ApprovalDenied { tool: recorded.tool(), reason },
        ),
    }
}

impl AwaitPolicy {
    /// Takes the decision of Policy: it is recorded where it is well formed.
    pub fn policy_replied(self, reply: Result<PolicyDecision, HarnessError>) -> (step: AuthorizeStep)
        ensures
            policy_step(self, reply, step),
    {
        let decision = match reply {
            Ok(decision) => decision,
            Err(error) => {
                return AuthorizeStep::Settle(error);
            },
        };
        if let Err(error) = validate_policy_decision(&decision) {
            return AuthorizeStep::Settle(error);
        }
        let item = ItemKind::PolicyDecision {
            call_id: self.authorization.call_id.clone(),
            tool_origin: Some(self.authorization.origin.clone()),
            decision: decision.clone(),
        };
        AuthorizeStep::RecordPolicy(item, PolicyRecorded { pending: self, decision })
    }
}

impl PolicyRecorded {
    /// Goes on once the decision of Policy is recorded.
    pub fn recorded(self, approval_id: ApprovalId) -> (step: AuthorizeStep)
        ensures
            policy_outcome(self, approval_id, step),
    {
        let AwaitPolicy { authorization, tool, model_request_sha256, requested_by } = self.pending;
        match self.decision {
            PolicyDecision::Allow => AuthorizeStep::Granted,
            PolicyDecision::Deny { reason } => AuthorizeStep::Settle(HarnessError::PolicyDenied { tool, reason }),
            PolicyDecision::Ask { reason, risk } => {
                let item = ItemKind::ApprovalRequested {
                    approval_id: approval_id.clone(),
                    call_id: authorization.call_id.clone(),
                    tool: tool.clone(),
                    reason: reason.clone(),
                    risk,
                    requested_by: Some(requested_by.clone()),
                    tool_origin: Some(authorization.origin.clone()),
                    model_request_sha256: Some(model_request_sha256),
                };
                let request = ApprovalRequest { id: approval_id, requested_by, authorization, reason, risk };
                AuthorizeStep::AskApproval(item, AwaitApproval { request, tool })
            },
        }
    }
}

impl AwaitApproval {
    /// Takes the decision of the approver: it is recorded where it is well
    /// formed, and the request is abandoned where there is none.
    pub fn approval_replied(self, reply: Result<ApprovalDecision, HarnessError>) -> (step: AuthorizeStep)
        ensures
            approval_step(self, reply, step),
    {
        let decision = match reply {
            Ok(decision) => decision,
            Err(error) => {
                return AuthorizeStep::Abandon(error);
            },
        };
        if let Err(error) = validate_approval_decision(&decision) {
            return AuthorizeStep::Settle(error);
        }
        let item = ItemKind::ApprovalDecision {
            approval_id: self.request.id.clone(),
            call_id: self.request.authorization.call_id.clone(),
            decision: decision.clone(),
        };
        AuthorizeStep::RecordApproval(item, ApprovalRecorded { tool: self.tool, decision })
    }
}

impl ApprovalRecorded {
    /// Goes on once the decision of the approver is recorded.
    pub fn recorded(self) -> (step: AuthorizeStep)
        ensures
            approval_outcome(self, step),
    {
        match self.decision {
            ApprovalDecision::Approve => AuthorizeStep::Granted,
            ApprovalDecision::Deny { reason } => AuthorizeStep::Settle(
                HarnessError::ApprovalDenied { tool: self.tool, reason },
            ),
        }
    }
}

/// Error of an abandoned approval: a failed settlement comes before a failed
/// abandonment, and both before the error that led to them.
pub fn abandoned(
    error: HarnessError,
    abandonment: Result<(), HarnessError>,
    settlement: Result<(), HarnessError>,
) -> (reported: HarnessError)
    ensures
        reported == match settlement {
            Err(fault) => fault,
            Ok(()) => match abandonment {
                Err(fault) => fault,
                Ok(()) => error,
            },
        },
{
    match settlement {
        Err(fault) => fault,
        Ok(()) => match abandonment {
            Err(fault) => fault,
            Ok(()) => error,
        },
    }
}

/// Where no approver was asked, a call is granted only because Policy allowed
/// it, and only after that was recorded for the call.
pub proof fn law_policy_grants_only_what_it_allows(
    asked: AwaitPolicy,
    reply: Result<PolicyDecision, HarnessError>,
    item: ItemKind,
    recorded: PolicyRecorded,
    approval_id: ApprovalId,
    last: AuthorizeStep,
)
    requires
        policy_step(asked, reply, AuthorizeStep::RecordPolicy(item, recorded)),
        policy_outcome(recorded, approval_id, last),
        last is Granted,
    ensures
        reply == Ok::<PolicyDecision, HarnessError>(PolicyDecision::Allow),
        item == (ItemKind::PolicyDecision {
            call_id: asked.authorization().call_id,
            tool_origin: Some(asked.authorization().origin),
            decision: PolicyDecision::Allow,
        }),
{
}

/// Where Policy asked, a call is granted only because the approver approved
/// the very call that Policy was asked about, and only after question and
/// answer were recorded for it.
pub proof fn law_approver_grants_only_what_it_approves(
    asked: AwaitPolicy,
    recorded: PolicyRecorded,
    approval_id: ApprovalId,
    question: ItemKind,
    pending: AwaitApproval,
    reply: Result<ApprovalDecision, HarnessError>,
    answer: ItemKind,
    decided: ApprovalRecorded,
    last: AuthorizeStep,
)
    requires
        recorded.pending() == asked,
        policy_outcome(recorded, approval_id, AuthorizeStep::AskApproval(question, pending)),
        approval_step(pending, reply, AuthorizeStep::RecordApproval(answer, decided)),
        approval_outcome(decided, last),
        last is Granted,
    ensures
        recorded.decision() is Ask,
        pending.request().authorization == asked.authorization(),
        question is ApprovalRequested,
        reply == Ok::<ApprovalDecision, HarnessError>(ApprovalDecision::Approve),
        answer == (ItemKind::ApprovalDecision {
            approval_id,
            call_id: asked.authorization().call_id,
            decision: ApprovalDecision::Approve,
        }),
{
}

/// What Policy decides is recorded and then done: a permission grants the
/// call, a refusal ends it with the reason, and a question becomes a request
/// for approval that carries the call, its Tool, the reason, the risk and the
/// requester. A decision without a proper reason is refused instead.
pub proof fn law_policy_decisions_are_followed(
    asked: AwaitPolicy,
    decision: PolicyDecision,
    first: AuthorizeStep,
    approval_id: ApprovalId,
    second: AuthorizeStep,
)
    requires
        policy_step(asked, Ok(decision), first),
        first matches AuthorizeStep::RecordPolicy(_, recorded) ==> policy_outcome(recorded, approval_id, second),
    ensures
        policy_decision_check(decision) is Err ==> first is Settle,
        policy_decision_check(decision) is Ok ==> {
            &&& first matches AuthorizeStep::RecordPolicy(item, _) && item == (ItemKind::PolicyDecision {
                call_id: asked.authorization().call_id,
                tool_origin: Some(asked.authorization().origin),
                decision,
            })
            &&& match decision {
                PolicyDecision::Allow => second is Granted,
                PolicyDecision::Deny { reason } => second == AuthorizeStep::Settle(
                    HarnessError::PolicyDenied { tool: asked.tool(), reason },
                ),
                PolicyDecision::Ask { reason, risk } => second matches AuthorizeStep::AskApproval(question, pending) && question
                    == (ItemKind::ApprovalRequested {
                    approval_id,
                    call_id: asked.authorization().call_id,
                    tool: asked.tool(),
                    reason,
                    risk,
                    requested_by: Some(asked.requested_by()),
                    tool_origin: Some(asked.authorization().origin),
                    model_request_sha256: Some(asked.model_request_sha256()),
                }) && pending.request().id == approval_id && pending.request().requested_by == asked.requested_by()
                    && pending.request().authorization == asked.authorization() && pending.request().reason == reason
                    && pending.request().risk == risk && pending.tool() == asked.tool(),
            }
        },
{
}

/// A Policy that fails settles the call with its own fault.
pub proof fn law_policy_faults_are_reported(asked: AwaitPolicy, error: HarnessError, step: AuthorizeStep)
    requires
        policy_step(asked, Err(error), step),
    ensures
        step == AuthorizeStep::Settle(error),
{
}

/// What an approver decides is recorded under the request that it answers and
/// then done: an approval grants the call, a refusal ends it with the reason.
/// An approver that fails leaves the request to be abandoned.
pub proof fn law_approvals_are_followed(
    pending: AwaitApproval,
    reply: Result<ApprovalDecision, HarnessError>,
    first: AuthorizeStep,
    second: AuthorizeStep,
)
    requires
        approval_step(pending, reply, first),
        first matches AuthorizeStep::RecordApproval(_, recorded) ==> approval_outcome(recorded, second),
    ensures
        reply matches Err(error) ==> first == AuthorizeStep::Abandon(error),
        reply matches Ok(decision) ==> {
            &&& approval_decision_check(decision) is Err ==> first is Settle
            &&& approval_decision_check(decision) is Ok ==> {
                &&& first matches AuthorizeStep::RecordApproval(item, _) && item == (ItemKind::ApprovalDecision {
                    approval_id: pending.request().id,
                    call_id: pending.request().authorization.call_id,
                    decision,
                })
                &&& match decision {
                    ApprovalDecision::Approve => second is Granted,
                    ApprovalDecision::Deny { reason } => second == AuthorizeStep::Settle(
                        HarnessError::ApprovalDenied { tool: pending.tool(), reason },
                    ),
                }
            }
        },
{
}

/// A call is put to Policy as it was proposed: under the identity of its Turn,
/// with the input of the call and the Tool that is registered under its name.
pub proof fn law_calls_are_put_as_proposed(turn: Turn, call: ModelToolCall, tool: RegisteredTool)
    ensures
        proposed(turn, call, tool).thread_id == turn.thread_id,
        proposed(turn, call, tool).turn_id == turn.id,
        proposed(turn, call, tool).call_id == call.call_id,
        proposed(turn, call, tool).input == call.input,
        proposed(turn, call, tool).descriptor == tool.descriptor,
        proposed(turn, call, tool).origin == tool.origin,
{
}

/// Policy is asked about every call of a registered Tool, and about no other
/// call.
pub proof fn law_unknown_tools_are_not_authorized(
    tools: ToolRegistry,
    turn: Turn,
    call: ModelToolCall,
    model_request_sha256: String,
    requested_by: ActorIdentity,
    step: AuthorizeStep,
)
    requires
        call_ensures(authorize_tool_call, (&tools, &turn, &call, &model_request_sha256, &requested_by), step),
    ensures
        step is AskPolicy <==> tools@.contains_key(call.name@),
        step is Settle <==> !tools@.contains_key(call.name@),
        step matches AuthorizeStep::AskPolicy(asked) ==> asked.authorization().call_id == call.call_id
            && asked.authorization().input == call.input && asked.authorization().descriptor
            == tools@[call.name@].descriptor && asked.tool() == call.name && asked.requested_by() == requested_by,
{
}

/// A wait that ended without a settlement ends with its own error, unless
/// giving it up failed.
pub proof fn law_abandoned_waits_report_their_error(
    error: HarnessError,
    abandonment: Result<(), HarnessError>,
    settlement: Result<(), HarnessError>,
    reported: HarnessError,
)
    requires
        call_ensures(abandoned, (error, abandonment, settlement), reported),
    ensures
        abandonment is Ok && settlement is Ok ==> reported == error,
        settlement matches Err(fault) ==> reported == fault,
        settlement is Ok ==> (abandonment matches Err(fault) ==> reported == fault),
{
}

} // verus!
