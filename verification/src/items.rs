//! Durable records of Threads, Turns and their ordered items.

use vstd::prelude::*;

use crate::digest::{is_sha256_text, sha256_form};
use crate::error::{settles, ErrorView, ExecutionPhase, HarnessError};
use crate::json::{shape_is_bounded, JsonDocument};
use crate::kernel::{
    invalid_tenant, optional_text, tenant_is_valid, ActorIdentity, ApprovalId, AuthorityContext, CapabilityOrigin,
    SteeringId, ThreadId, ToolCallBatchId, TurnId,
};
use crate::text::{byte_len, is_label, is_portable_name, label_text, portable_name, same_text, utf8_len};

verus! {

/// Position of one Tool call inside the batch that one Model response opened.
#[derive(Debug, PartialEq, Eq)]
pub struct ToolCallBatch {
    /// Identity shared by every call of the batch.
    pub id: ToolCallBatchId,
    /// Position of the call in the batch.
    pub index: usize,
    /// Number of calls in the batch.
    pub size: usize,
}

impl Clone for ToolCallBatch {
    fn clone(&self) -> (result: Self)
        ensures
            result == *self,
    {
        ToolCallBatch { id: self.id.clone(), index: self.index, size: self.size }
    }
}

/// One Tool call that a Model proposed.
#[derive(Debug, PartialEq, Eq)]
pub struct ModelToolCall {
    /// Correlation identity chosen by the Model.
    pub call_id: String,
    /// Name of the Tool.
    pub name: String,
    /// Input of the Tool.
    pub input: JsonDocument,
}

impl Clone for ModelToolCall {
    fn clone(&self) -> (result: Self)
        ensures
            result == *self,
    {
        ModelToolCall { call_id: self.call_id.clone(), name: self.name.clone(), input: self.input.clone() }
    }
}

/// Risk that Policy attaches to a call it does not decide itself.
#[derive(Clone, Copy, Debug, PartialEq, Eq, Structural)]
pub enum RiskLevel {
    /// Little harm is possible.
    Low,
    /// Some harm is possible.
    Medium,
    /// Serious harm is possible.
    High,
}

/// Decision of Policy on one Tool call.
#[derive(Debug, PartialEq, Eq)]
pub enum PolicyDecision {
    /// The call may run.
    Allow,
    /// The call may not run.
    Deny {
        /// Why it may not.
        reason: String,
    },
    /// An approver has to decide.
    Ask {
        /// Why an approver has to.
        reason: String,
        /// Risk of the call.
        risk: RiskLevel,
    },
}

impl Clone for PolicyDecision {
    fn clone(&self) -> (result: Self)
        ensures
            result == *self,
    {
        match self {
            PolicyDecision::Allow => PolicyDecision::Allow,
            PolicyDecision::Deny { reason } => PolicyDecision::Deny { reason: reason.clone() },
            PolicyDecision::Ask { reason, risk } => PolicyDecision::Ask { reason: reason.clone(), risk: *risk },
        }
    }
}

/// Decision of an approver on one Tool call.
#[derive(Debug, PartialEq, Eq)]
pub enum ApprovalDecision {
    /// The call may run.
    Approve,
    /// The call may not run.
    Deny {
        /// Why it may not.
        reason: String,
    },
}

impl Clone for ApprovalDecision {
    fn clone(&self) -> (result: Self)
        ensures
            result == *self,
    {
        match self {
            ApprovalDecision::Approve => ApprovalDecision::Approve,
            ApprovalDecision::Deny { reason } => ApprovalDecision::Deny { reason: reason.clone() },
        }
    }
}

/// Judgement of one completion verifier.
#[derive(Debug, PartialEq, Eq)]
pub enum VerificationOutcome {
    /// The candidate is acceptable.
    Passed {
        /// Optional remark.
        summary: Option<String>,
    },
    /// The candidate is not acceptable.
    Failed {
        /// Why it is not.
        reason: String,
        /// Whether another candidate may be tried.
        retryable: bool,
    },
}

impl Clone for VerificationOutcome {
    fn clone(&self) -> (result: Self)
        ensures
            result == *self,
    {
        match self {
            VerificationOutcome::Passed { summary } => VerificationOutcome::Passed {
                summary: match summary {
                    Some(summary) => Some(summary.clone()),
                    None => None,
                },
            },
            VerificationOutcome::Failed { reason, retryable } => VerificationOutcome::Failed {
                reason: reason.clone(),
                retryable: *retryable,
            },
        }
    }
}

/// Why a Turn stopped without failing.
#[derive(Clone, Copy, Debug, PartialEq, Eq, Structural)]
pub enum TurnStopReason {
    /// The caller cancelled it.
    Cancelled,
    /// Its deadline passed.
    TimedOut,
}

/// Whether long-term memory was available to a Turn.
#[derive(Clone, Copy, Debug, PartialEq, Eq, Structural)]
pub enum MemoryContextStatus {
    /// Memory was loaded.
    Loaded,
    /// Memory was partly unavailable.
    Degraded,
}

/// Recorded form of a [`MemoryContextStatus`].
#[derive(Clone, Copy, Debug, PartialEq, Eq, Structural)]
pub enum MemoryContextRecordStatus {
    /// Memory was loaded.
    Loaded,
    /// Memory was partly unavailable.
    Degraded,
}

/// Longest accepted format name of a Provider continuation, in bytes.
pub const MAX_CONTINUATION_FORMAT_BYTES: usize = 128;

/// Most parts of one Provider continuation.
pub const MAX_CONTINUATION_PARTS: usize = 64;

/// Longest accepted Provider continuation, in encoded bytes.
pub const MAX_CONTINUATION_BYTES: usize = 1_048_576;

/// Opaque Provider state that has to be handed back to the same Model.
#[derive(Debug, PartialEq, Eq, Clone)]
pub struct ModelContinuation {
    format: String,
    parts: Vec<JsonDocument>,
}

/// Encoded bytes of a sequence of documents.
pub open spec fn documents_len(documents: Seq<JsonDocument>) -> nat
    decreases documents.len(),
{
    if documents.len() == 0 {
        0
    } else {
        documents_len(documents.drop_last()) + utf8_len(documents.last()@)
    }
}

/// Error reported for a Provider continuation outside its bounds.
pub open spec fn invalid_continuation() -> ErrorView {
    ErrorView::Model("provider continuation is outside its supported bounds"@)
}

impl ModelContinuation {
    /// Name of the Provider format.
    pub closed spec fn format(self) -> Seq<char> {
        self.format@
    }

    /// Opaque parts, in Provider order.
    pub closed spec fn parts(self) -> Seq<JsonDocument> {
        self.parts@
    }

    /// Whether format, number of parts, shapes and total size are bounded.
    pub open spec fn is_bounded(self) -> bool {
        &&& is_portable_name(self.format(), MAX_CONTINUATION_FORMAT_BYTES as nat)
        &&& 1 <= self.parts().len() <= MAX_CONTINUATION_PARTS
        &&& forall|i: int| 0 <= i < self.parts().len() ==> shape_is_bounded(#[trigger] self.parts()[i]@)
        &&& documents_len(self.parts()) <= MAX_CONTINUATION_BYTES
    }

    /// Returns the name of the Provider format.
    pub fn format_name(&self) -> (name: &str)
        ensures
            name@ == self.format(),
    {
        self.format.as_str()
    }

    /// Returns the opaque parts, in Provider order.
    pub fn documents(&self) -> (parts: &Vec<JsonDocument>)
        ensures
            parts@ == self.parts(),
    {
        &self.parts
    }

    /// Creates a continuation after checking its bounds.
    pub fn new(format: &str, parts: Vec<JsonDocument>) -> (result: Result<Self, HarnessError>)
        ensures
            match result {
                Ok(continuation) => continuation.is_bounded() && continuation.format() == format@
                    && continuation.parts() == parts@,
                Err(error) => error@ == invalid_continuation()
                    && forall|wanted: ModelContinuation| #![auto]
                        wanted.format() == format@ && wanted.parts() == parts@ ==> !wanted.is_bounded(),
            },
    {
        let continuation = ModelContinuation { format: String::from_str(format), parts };
        match continuation.validate() {
            Ok(()) => Ok(continuation),
            Err(error) => Err(error),
        }
    }

    /// Checks the bounds of a continuation that was decoded rather than built.
    pub fn validate(&self) -> (result: Result<(), HarnessError>)
        ensures
            result is Ok <==> self.is_bounded(),
            result matches Err(error) ==> error@ == invalid_continuation(),
    {
        if self.within_bounds() {
            Ok(())
        } else {
            Err(HarnessError::Model("provider continuation is outside its supported bounds".to_owned()))
        }
    }

    fn within_bounds(&self) -> (result: bool)
        ensures
            result == self.is_bounded(),
    {
        if !portable_name(self.format.as_str(), MAX_CONTINUATION_FORMAT_BYTES) || self.parts.len() < 1
            || self.parts.len() > MAX_CONTINUATION_PARTS {
            return false;
        }
        let mut total: usize = 0;
        let mut i: usize = 0;
        while i < self.parts.len()
            invariant
                i <= self.parts@.len(),
                total == documents_len(self.parts@.take(i as int)),
                total <= MAX_CONTINUATION_BYTES,
                forall|k: int| 0 <= k < i ==> shape_is_bounded(#[trigger] self.parts@[k]@),
            decreases self.parts@.len() - i,
        {
            proof {
                let longer = self.parts@.take(i + 1);
                assert(longer.drop_last() =~= self.parts@.take(i as int));
                assert(longer.last() == self.parts@[i as int]);
                lemma_documents_len_monotonic(self.parts@, i + 1);
            }
            if !self.parts[i].shape_is_bounded() {
                return false;
            }
            let size: usize = byte_len(self.parts[i].as_str());
            if size > MAX_CONTINUATION_BYTES - total {
                return false;
            }
            total = total + size;
            i += 1;
        }
        assert(self.parts@.take(i as int) =~= self.parts@);
        true
    }
}

proof fn lemma_documents_len_monotonic(documents: Seq<JsonDocument>, n: int)
    requires
        0 <= n <= documents.len(),
    ensures
        documents_len(documents.take(n)) <= documents_len(documents),
    decreases documents.len() - n,
{
    if n == documents.len() {
        assert(documents.take(n) =~= documents);
    } else {
        lemma_documents_len_monotonic(documents, n + 1);
        assert(documents.take(n + 1).drop_last() =~= documents.take(n));
    }
}

/// Claim of a connector, bound to the Tool output it belongs to.
#[derive(Debug, PartialEq, Eq)]
pub struct ConnectorEvidence {
    /// Name of the Tool.
    pub tool: String,
    /// Provenance of the Tool.
    pub origin: CapabilityOrigin,
    /// Authority under which the Tool ran.
    pub authority: AuthorityContext,
    /// Digest of the Tool output.
    pub output_sha256: String,
    /// Claim itself.
    pub claim: JsonDocument,
}

impl Clone for ConnectorEvidence {
    fn clone(&self) -> (result: Self)
        ensures
            result == *self,
    {
        ConnectorEvidence {
            tool: self.tool.clone(),
            origin: self.origin.clone(),
            authority: self.authority.clone(),
            output_sha256: self.output_sha256.clone(),
            claim: self.claim.clone(),
        }
    }
}

impl ConnectorEvidence {
    /// Binds a checked claim to the output of one Tool call.
    pub fn bind(
        tool: String,
        origin: CapabilityOrigin,
        authority: AuthorityContext,
        output_sha256: String,
        claim: JsonDocument,
    ) -> (evidence: Self)
        ensures
            evidence == (ConnectorEvidence { tool, origin, authority, output_sha256, claim }),
    {
        ConnectorEvidence { tool, origin, authority, output_sha256, claim }
    }
}

/// Longest accepted field of an execution binding, in bytes.
pub const MAX_BINDING_FIELD_BYTES: usize = 128;

/// Immutable deployment and environment evidence of a Turn.
#[derive(Debug, PartialEq, Eq)]
pub struct ExecutionBinding {
    kind: String,
    name: String,
    version: String,
    definition_sha256: String,
    environment_sha256: String,
    revision: u64,
    tenant_id: Option<String>,
}

/// Mathematical content of an [`ExecutionBinding`].
#[verifier::ext_equal]
pub struct BindingView {
    /// Kind of the bound deployment.
    pub kind: Seq<char>,
    /// Name of the bound deployment.
    pub name: Seq<char>,
    /// Version of the bound deployment.
    pub version: Seq<char>,
    /// Digest of the definition.
    pub definition_sha256: Seq<char>,
    /// Digest of the environment.
    pub environment_sha256: Seq<char>,
    /// Revision of the release.
    pub revision: u64,
    /// Tenant boundary, where there is one.
    pub tenant_id: Option<Seq<char>>,
}

impl View for ExecutionBinding {
    type V = BindingView;

    closed spec fn view(&self) -> BindingView {
        BindingView {
            kind: self.kind@,
            name: self.name@,
            version: self.version@,
            definition_sha256: self.definition_sha256@,
            environment_sha256: self.environment_sha256@,
            revision: self.revision,
            tenant_id: optional_text(self.tenant_id),
        }
    }
}

impl Clone for ExecutionBinding {
    fn clone(&self) -> (result: Self)
        ensures
            result == *self,
    {
        ExecutionBinding {
            kind: self.kind.clone(),
            name: self.name.clone(),
            version: self.version.clone(),
            definition_sha256: self.definition_sha256.clone(),
            environment_sha256: self.environment_sha256.clone(),
            revision: self.revision,
            tenant_id: match &self.tenant_id {
                Some(tenant) => Some(tenant.clone()),
                None => None,
            },
        }
    }
}

/// Error reported for a malformed execution binding.
pub open spec fn invalid_binding() -> ErrorView {
    ErrorView::InvalidConfiguration("execution binding must use bounded identities, digests and a positive revision"@)
}

impl BindingView {
    /// Outcome of checking a binding: its own fields before the tenant.
    pub open spec fn check(self) -> Result<(), ErrorView> {
        if is_label(self.kind, MAX_BINDING_FIELD_BYTES as nat) && is_label(self.name, MAX_BINDING_FIELD_BYTES as nat)
            && is_label(self.version, MAX_BINDING_FIELD_BYTES as nat) && is_sha256_text(self.definition_sha256)
            && is_sha256_text(self.environment_sha256) && self.revision > 0 {
            if self.tenant_id matches Some(tenant) && !tenant_is_valid(tenant) {
                Err(invalid_tenant())
            } else {
                Ok(())
            }
        } else {
            Err(invalid_binding())
        }
    }
}

fn same_optional_text(a: &Option<String>, b: &Option<String>) -> (result: bool)
    ensures
        result == (optional_text(*a) == optional_text(*b)),
{
    match (a, b) {
        (Some(a), Some(b)) => same_text(a.as_str(), b.as_str()),
        (None, None) => true,
        _ => false,
    }
}

impl ExecutionBinding {
    /// Creates a binding after checking every field.
    pub fn new(
        kind: &str,
        name: &str,
        version: &str,
        definition_sha256: String,
        environment_sha256: String,
        revision: u64,
        tenant_id: Option<String>,
    ) -> (result: Result<Self, HarnessError>)
        ensures
            ({
                let wanted = (BindingView {
                    kind: kind@,
                    name: name@,
                    version: version@,
                    definition_sha256: definition_sha256@,
                    environment_sha256: environment_sha256@,
                    revision,
                    tenant_id: optional_text(tenant_id),
                });
                match result {
                    Ok(binding) => binding@ == wanted && wanted.check() is Ok,
                    Err(error) => wanted.check() == Err::<(), ErrorView>(error@),
                }
            }),
    {
        let binding = ExecutionBinding {
            kind: String::from_str(kind),
            name: String::from_str(name),
            version: String::from_str(version),
            definition_sha256,
            environment_sha256,
            revision,
            tenant_id,
        };
        match binding.validate() {
            Ok(()) => Ok(binding),
            Err(error) => Err(error),
        }
    }

    /// Checks the fields of a binding that was decoded rather than built.
    pub fn validate(&self) -> (result: Result<(), HarnessError>)
        ensures
            settles(result, self@.check()),
    {
        let valid = label_text(self.kind.as_str(), MAX_BINDING_FIELD_BYTES) && label_text(
            self.name.as_str(),
            MAX_BINDING_FIELD_BYTES,
        ) && label_text(self.version.as_str(), MAX_BINDING_FIELD_BYTES) && sha256_form(self.definition_sha256.as_str())
            && sha256_form(self.environment_sha256.as_str()) && self.revision > 0;
        if !valid {
            return Err(
                HarnessError::InvalidConfiguration(
                    "execution binding must use bounded identities, digests and a positive revision".to_owned(),
                ),
            );
        }
        match &self.tenant_id {
            Some(tenant) => AuthorityContext::validate_tenant(tenant.as_str()),
            None => Ok(()),
        }
    }

    /// Returns the kind of what is bound.
    pub fn kind(&self) -> (text: &str)
        ensures
            text@ == self@.kind,
    {
        self.kind.as_str()
    }

    /// Returns the name of what is bound.
    pub fn name(&self) -> (text: &str)
        ensures
            text@ == self@.name,
    {
        self.name.as_str()
    }

    /// Returns the version of what is bound.
    pub fn version(&self) -> (text: &str)
        ensures
            text@ == self@.version,
    {
        self.version.as_str()
    }

    /// Returns the digest of the definition.
    pub fn definition_sha256(&self) -> (text: &str)
        ensures
            text@ == self@.definition_sha256,
    {
        self.definition_sha256.as_str()
    }

    /// Returns the digest of the environment.
    pub fn environment_sha256(&self) -> (text: &str)
        ensures
            text@ == self@.environment_sha256,
    {
        self.environment_sha256.as_str()
    }

    /// Returns the revision that was bound.
    pub fn revision(&self) -> (revision: u64)
        ensures
            revision == self@.revision,
    {
        self.revision
    }

    /// Returns the tenant boundary, where there is one.
    pub fn tenant_id(&self) -> (tenant: Option<&str>)
        ensures
            match tenant {
                Some(tenant) => self@.tenant_id == Some(tenant@),
                None => self@.tenant_id is None,
            },
    {
        match &self.tenant_id {
            Some(tenant) => Some(tenant.as_str()),
            None => None,
        }
    }

    /// Decides whether two bindings hold the same evidence.
    pub fn same(&self, other: &Self) -> (result: bool)
        ensures
            result == (self@ == other@),
    {
        same_text(self.kind.as_str(), other.kind.as_str()) && same_text(self.name.as_str(), other.name.as_str())
            && same_text(self.version.as_str(), other.version.as_str()) && same_text(
            self.definition_sha256.as_str(),
            other.definition_sha256.as_str(),
        ) && same_text(self.environment_sha256.as_str(), other.environment_sha256.as_str())
            && self.revision == other.revision && same_optional_text(&self.tenant_id, &other.tenant_id)
    }
}

/// Provenance and size of one context block that a caller supplied.
#[derive(Debug, PartialEq, Eq)]
pub struct InvocationContextEvidence {
    /// Source that supplied the block.
    pub source: String,
    /// Reference inside the source.
    pub reference: String,
    /// Digest of the referenced material.
    pub source_sha256: String,
    /// Digest of the block.
    pub content_sha256: String,
    /// Estimated size in tokens.
    pub estimated_tokens: usize,
    /// Size in bytes.
    pub serialized_bytes: usize,
}

impl Clone for InvocationContextEvidence {
    fn clone(&self) -> (result: Self)
        ensures
            result == *self,
    {
        InvocationContextEvidence {
            source: self.source.clone(),
            reference: self.reference.clone(),
            source_sha256: self.source_sha256.clone(),
            content_sha256: self.content_sha256.clone(),
            estimated_tokens: self.estimated_tokens,
            serialized_bytes: self.serialized_bytes,
        }
    }
}

/// One durable record of a Turn.
#[allow(inconsistent_fields)]
#[derive(Debug, PartialEq, Eq, Clone)]
pub enum ItemKind {
    /// Prompt of the Turn.
    UserMessage {
        /// Text of the prompt.
        content: String,
    },
    /// Candidate answer of a Model.
    AssistantMessage {
        /// Model that answered.
        model_id: Option<String>,
        /// Provenance of the Model.
        model_origin: Option<CapabilityOrigin>,
        /// Text of the answer.
        content: String,
    },
    /// Tool call that a Model proposed.
    ToolCall {
        /// Model that proposed it.
        model_id: Option<String>,
        /// Provenance of the Model.
        model_origin: Option<CapabilityOrigin>,
        /// Correlation identity.
        call_id: String,
        /// Name of the Tool.
        name: String,
        /// Input of the Tool.
        input: JsonDocument,
        /// Batch membership, where the call belongs to a batch.
        batch: Option<ToolCallBatch>,
    },
    /// Result of a Tool call.
    ToolResult {
        /// Correlation identity.
        call_id: String,
        /// Output of the Tool.
        output: JsonDocument,
        /// Whether the output reports a failure.
        is_error: bool,
        /// Claims bound to the output.
        connector_evidence: Vec<ConnectorEvidence>,
    },
    /// Decision of Policy on a Tool call.
    PolicyDecision {
        /// Correlation identity.
        call_id: String,
        /// Provenance of the Tool.
        tool_origin: Option<CapabilityOrigin>,
        /// Decision itself.
        decision: PolicyDecision,
    },
    /// Request for an approval.
    ApprovalRequested {
        /// Identity of the request.
        approval_id: ApprovalId,
        /// Correlation identity.
        call_id: String,
        /// Name of the Tool.
        tool: String,
        /// Reason given by Policy.
        reason: String,
        /// Risk given by Policy.
        risk: RiskLevel,
        /// Party that requested the approval.
        requested_by: Option<ActorIdentity>,
        /// Provenance of the Tool.
        tool_origin: Option<CapabilityOrigin>,
        /// Digest of the Model request that led to the call.
        model_request_sha256: Option<String>,
    },
    /// Decision of an approver.
    ApprovalDecision {
        /// Identity of the request.
        approval_id: ApprovalId,
        /// Correlation identity.
        call_id: String,
        /// Decision itself.
        decision: ApprovalDecision,
    },
    /// Provider state behind a Model decision.
    ProviderContinuation {
        /// Model that produced it.
        model_id: String,
        /// Provenance of the Model.
        model_origin: CapabilityOrigin,
        /// State itself.
        continuation: ModelContinuation,
    },
    /// Steering accepted for the Turn.
    SteeringQueued {
        /// Identity of the submission.
        steering_id: SteeringId,
        /// Party that submitted it.
        submitted_by: ActorIdentity,
        /// Text of the steering.
        content: String,
    },
    /// Steering made visible to the Model.
    SteeringApplied {
        /// Identity of the submission.
        steering_id: SteeringId,
        /// Text of the steering.
        content: String,
    },
    /// Deployment evidence of the Turn.
    ExecutionBinding {
        /// Party that bound it.
        bound_by: ActorIdentity,
        /// Evidence itself.
        binding: ExecutionBinding,
    },
    /// Earlier Turns that the Model sees.
    ConversationContext {
        /// Turns that are shown.
        included_turns: Vec<TurnId>,
        /// Number of Turns that are left out.
        dropped_turns: usize,
        /// Estimated size in tokens.
        estimated_tokens: usize,
    },
    /// Summary of earlier Turns.
    ConversationSummary {
        /// Compactor that wrote it.
        compactor: String,
        /// Turns that it covers.
        covered_turns: Vec<TurnId>,
        /// Number of older Turns that it leaves out.
        older_omitted_turns: usize,
        /// Digest of the summarized material.
        source_sha256: String,
        /// Digest of the summary.
        content_sha256: String,
        /// Estimated size in tokens.
        estimated_tokens: usize,
        /// Size in bytes.
        serialized_bytes: usize,
    },
    /// Context that the caller supplied.
    InvocationContext {
        /// Party that supplied it.
        submitted_by: ActorIdentity,
        /// Evidence of each block.
        blocks: Vec<InvocationContextEvidence>,
    },
    /// Context from long-term memory.
    MemoryContext {
        /// Memory provider.
        provider: String,
        /// Availability of memory.
        status: MemoryContextRecordStatus,
        /// References of the loaded memories.
        references: Vec<String>,
        /// Size in tokens.
        packed_tokens: usize,
        /// Provider warnings.
        warnings: Vec<String>,
    },
    /// Judgement of a completion verifier.
    VerificationResult {
        /// Name of the verifier.
        verifier: String,
        /// Item that was judged.
        candidate_item_id: Option<String>,
        /// Provenance of the verifier.
        verifier_origin: Option<CapabilityOrigin>,
        /// Digest of the verifier binding.
        verifier_binding_sha256: Option<String>,
        /// Judgement itself.
        outcome: VerificationOutcome,
    },
    /// Turn stopped without failing.
    TurnStopped {
        /// Why it stopped.
        reason: TurnStopReason,
        /// Phase that was stopped.
        phase: ExecutionPhase,
    },
    /// Turn failed.
    RuntimeError {
        /// Bounded diagnostic.
        message: String,
    },
}

/// Entry of a Turn journal.
#[derive(Debug, PartialEq, Eq, Clone)]
pub struct Item {
    /// Content of the entry.
    pub kind: ItemKind,
    /// Whether the entry was written in place of a Model reply that steering
    /// overtook. The step of that reply is used up all the same.
    pub replaces_reply: bool,
}

impl Item {
    /// Creates an entry.
    pub fn new(kind: ItemKind) -> (item: Item)
        ensures
            item == (Item { kind, replaces_reply: false }),
    {
        Item { kind, replaces_reply: false }
    }

    /// Creates an entry that is written in place of a Model reply.
    pub fn replacing(kind: ItemKind) -> (item: Item)
        ensures
            item == (Item { kind, replaces_reply: true }),
    {
        Item { kind, replaces_reply: true }
    }
}

/// Progress of a Turn.
#[derive(Clone, Copy, Debug, PartialEq, Eq, Structural)]
pub enum TurnStatus {
    /// Work is going on.
    Running,
    /// The final answer was accepted.
    Completed,
    /// Work failed.
    Failed,
    /// The caller cancelled it.
    Cancelled,
    /// Its deadline passed.
    TimedOut,
    /// Its worker was lost.
    Interrupted,
}

/// One exchange of a Thread.
#[derive(Debug, PartialEq, Eq, Clone)]
pub struct Turn {
    /// Identity of the Turn.
    pub id: TurnId,
    /// Thread that it belongs to.
    pub thread_id: ThreadId,
    /// Progress.
    pub status: TurnStatus,
    /// Ordered journal.
    pub items: Vec<Item>,
}

/// Durable conversation.
#[derive(Debug, PartialEq, Eq, Clone)]
pub struct Thread {
    /// Identity of the Thread.
    pub id: ThreadId,
    /// Turns in order.
    pub turns: Vec<Turn>,
}

} // verus!
