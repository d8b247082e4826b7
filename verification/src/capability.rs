//! Tools and Models that a host registers, and the requests made of them.

use vstd::prelude::*;

use crate::error::{settles, ErrorView, HarnessError};
use crate::items::{Item, ModelContinuation, ModelToolCall, RiskLevel};
use crate::json::{shape_is_bounded, JsonDocument};
use crate::kernel::{
    capability_name_is_valid, invalid_model_id, invalid_name, invalid_origin, model_id_is_valid, origin_is_valid,
    registry_full, validate_capability_name, validate_capability_origin, validate_model_id, validate_registry_growth,
    ActorIdentity, ApprovalId, AuthorityContext, CapabilityOrigin, ThreadId, TurnId, MAX_REGISTRY_ENTRIES,
};
use crate::table::{lists_keys, text_before, Table};
use crate::text::{byte_len, is_blank, join3, utf8_len};
use crate::time::Duration;

verus! {

/// Most calls that one Model response may propose together.
pub const MAX_TOOL_CALLS_PER_BATCH: usize = 128;

/// Whether calls of one batch may run at the same time.
#[derive(Clone, Copy, Debug, PartialEq, Eq, Structural)]
pub enum ToolBatchExecution {
    /// The call is a fence: it runs alone.
    Sequential,
    /// The call may run beside other such calls.
    ParallelSafe,
}

/// Description of a Tool.
#[derive(Debug, PartialEq, Eq)]
pub struct ToolDescriptor {
    /// Stable name.
    pub name: String,
    /// Purpose, for the Model.
    pub description: String,
    /// Schema of the input.
    pub input_schema: JsonDocument,
}

impl Clone for ToolDescriptor {
    fn clone(&self) -> (result: Self)
        ensures
            result == *self,
    {
        ToolDescriptor {
            name: self.name.clone(),
            description: self.description.clone(),
            input_schema: self.input_schema.clone(),
        }
    }
}

/// Tool together with what the operator assigned to it.
#[derive(Debug, PartialEq, Eq)]
pub struct RegisteredTool {
    /// Description of the Tool.
    pub descriptor: ToolDescriptor,
    /// Provenance.
    pub origin: CapabilityOrigin,
    /// Behaviour inside a batch.
    pub batch_execution: ToolBatchExecution,
    /// Time granted for clean-up after a stop.
    pub cancellation_settlement_timeout: Duration,
}

/// Longest accepted Tool description, in bytes.
pub const MAX_TOOL_DESCRIPTION_BYTES: usize = 16_384;

/// Tools by name.
pub struct ToolRegistry {
    tools: Table<RegisteredTool>,
}

impl View for ToolRegistry {
    type V = Map<Seq<char>, RegisteredTool>;

    closed spec fn view(&self) -> Map<Seq<char>, RegisteredTool> {
        self.tools@
    }
}

/// Whether a Tool description is bounded.
pub open spec fn tool_is_bounded(descriptor: ToolDescriptor) -> bool {
    &&& !is_blank(descriptor.description@)
    &&& utf8_len(descriptor.description@) <= MAX_TOOL_DESCRIPTION_BYTES
    &&& shape_is_bounded(descriptor.input_schema@)
}

/// Error reported for a Tool whose description is not bounded.
pub open spec fn invalid_tool(name: Seq<char>) -> ErrorView {
    ErrorView::InvalidCapability("tool "@ + name + " needs a bounded description and input schema"@)
}

/// Outcome of registering a Tool.
pub open spec fn tool_registration(
    tools: Map<Seq<char>, RegisteredTool>,
    origin: CapabilityOrigin,
    descriptor: ToolDescriptor,
) -> Result<(), ErrorView> {
    if !origin_is_valid(origin@) {
        Err(invalid_origin())
    } else if tools.len() + 1 > MAX_REGISTRY_ENTRIES {
        Err(registry_full("tool"@))
    } else if !capability_name_is_valid(descriptor.name@) {
        Err(invalid_name("tool"@))
    } else if !tool_is_bounded(descriptor) {
        Err(invalid_tool(descriptor.name@))
    } else if tools.contains_key(descriptor.name@) {
        Err(ErrorView::DuplicateCapability(descriptor.name@))
    } else {
        Ok(())
    }
}

impl ToolRegistry {
    /// Creates an empty registry.
    pub fn new() -> (registry: Self)
        ensures
            registry@ == Map::<Seq<char>, RegisteredTool>::empty(),
    {
        ToolRegistry { tools: Table::new() }
    }

    /// Registers a Tool without replacing another one.
    pub fn register(
        &mut self,
        origin: CapabilityOrigin,
        descriptor: ToolDescriptor,
        batch_execution: ToolBatchExecution,
        cancellation_settlement_timeout: Duration,
    ) -> (result: Result<(), HarnessError>)
        ensures
            settles(result, tool_registration(old(self)@, origin, descriptor)),
            final(self)@ == if result is Ok {
                old(self)@.insert(
                    descriptor.name@,
                    RegisteredTool { descriptor, origin, batch_execution, cancellation_settlement_timeout },
                )
            } else {
                old(self)@
            },
    {
        if let Err(error) = validate_capability_origin(&origin) {
            return Err(error);
        }
        if let Err(error) = validate_registry_growth("tool", self.tools.len(), 1) {
            return Err(error);
        }
        if let Err(error) = validate_capability_name("tool", descriptor.name.as_str()) {
            return Err(error);
        }
        let bounded = !crate::text::blank(descriptor.description.as_str()) && byte_len(descriptor.description.as_str())
            <= MAX_TOOL_DESCRIPTION_BYTES && descriptor.input_schema.shape_is_bounded();
        if !bounded {
            return Err(
                HarnessError::InvalidCapability(
                    join3("tool ", descriptor.name.as_str(), " needs a bounded description and input schema"),
                ),
            );
        }
        if self.tools.contains(descriptor.name.as_str()) {
            return Err(HarnessError::DuplicateCapability(descriptor.name));
        }
        let name = descriptor.name.clone();
        self.tools.insert(
            name,
            RegisteredTool { descriptor, origin, batch_execution, cancellation_settlement_timeout },
        );
        Ok(())
    }

    /// Looks a Tool up.
    pub fn get(&self, name: &str) -> (tool: Option<&RegisteredTool>)
        ensures
            match tool {
                Some(tool) => self@.contains_key(name@) && *tool == self@[name@],
                None => !self@.contains_key(name@),
            },
    {
        self.tools.get(name)
    }

    /// Returns the descriptions of the Tools in name order.
    pub fn descriptors(&self) -> (descriptors: Vec<ToolDescriptor>)
        ensures
            lists_tools(descriptors@, self@),
    {
        let names = self.tools.keys();
        let mut descriptors: Vec<ToolDescriptor> = Vec::new();
        let mut k: usize = 0;
        while k < names.len()
            invariant
                k <= names@.len(),
                lists_keys(names@, self.tools@),
                descriptors@.len() == k,
                forall|j: int| 0 <= j < k ==> descriptors@[j] == self.tools@[(#[trigger] names@[j])@].descriptor,
            decreases names@.len() - k,
        {
            assert(self.tools@.contains_key(names@[k as int]@));
            if let Some(tool) = self.tools.get(names[k].as_str()) {
                descriptors.push(tool.descriptor.clone());
            }
            k += 1;
        }
        descriptors
    }
}

/// Whether a list holds the description of every Tool once, in name order.
pub open spec fn lists_tools(descriptors: Seq<ToolDescriptor>, tools: Map<Seq<char>, RegisteredTool>) -> bool {
    exists|names: Seq<String>| #[trigger]
        lists_keys(names, tools) && descriptors.len() == names.len() && forall|k: int|
            0 <= k < names.len() ==> descriptors[k] == tools[(#[trigger] names[k])@].descriptor
}

/// Model identity together with its operator-assigned provenance.
#[derive(Debug, PartialEq, Eq)]
pub struct RegisteredModel {
    /// Identity of the Model.
    pub id: String,
    /// Provenance.
    pub origin: CapabilityOrigin,
}

/// Models by identity.
pub struct ModelRegistry {
    models: Table<RegisteredModel>,
}

impl View for ModelRegistry {
    type V = Map<Seq<char>, RegisteredModel>;

    closed spec fn view(&self) -> Map<Seq<char>, RegisteredModel> {
        self.models@
    }
}

/// Outcome of registering a Model.
pub open spec fn model_registration(models: Map<Seq<char>, RegisteredModel>, origin: CapabilityOrigin, id: Seq<char>) -> Result<
    (),
    ErrorView,
> {
    if !origin_is_valid(origin@) {
        Err(invalid_origin())
    } else if models.len() + 1 > MAX_REGISTRY_ENTRIES {
        Err(registry_full("model"@))
    } else if !model_id_is_valid(id) {
        Err(invalid_model_id())
    } else if models.contains_key(id) {
        Err(ErrorView::DuplicateCapability(id))
    } else {
        Ok(())
    }
}

impl ModelRegistry {
    /// Creates an empty registry.
    pub fn new() -> (registry: Self)
        ensures
            registry@ == Map::<Seq<char>, RegisteredModel>::empty(),
    {
        ModelRegistry { models: Table::new() }
    }

    /// Registers a Model without replacing another one.
    pub fn register(&mut self, origin: CapabilityOrigin, id: String) -> (result: Result<(), HarnessError>)
        ensures
            settles(result, model_registration(old(self)@, origin, id@)),
            final(self)@ == if result is Ok {
                old(self)@.insert(id@, RegisteredModel { id, origin })
            } else {
                old(self)@
            },
    {
        if let Err(error) = validate_capability_origin(&origin) {
            return Err(error);
        }
        if let Err(error) = validate_registry_growth("model", self.models.len(), 1) {
            return Err(error);
        }
        if let Err(error) = validate_model_id(id.as_str()) {
            return Err(error);
        }
        if self.models.contains(id.as_str()) {
            return Err(HarnessError::DuplicateCapability(id));
        }
        let key = id.clone();
        self.models.insert(key, RegisteredModel { id, origin });
        Ok(())
    }

    /// Looks a Model up.
    pub fn get(&self, id: &str) -> (model: Option<&RegisteredModel>)
        ensures
            match model {
                Some(model) => self@.contains_key(id@) && *model == self@[id@],
                None => !self@.contains_key(id@),
            },
    {
        self.models.get(id)
    }
}

/// Origin and kind of one context block.
#[derive(Debug, PartialEq, Eq, Clone)]
#[allow(inconsistent_fields)]
pub enum ContextSource {
    /// Summary of earlier Turns.
    ConversationSummary {
        /// Compactor that wrote it.
        compactor: String,
        /// Turns that it covers.
        covered_turns: Vec<TurnId>,
        /// Number of older Turns that it leaves out.
        older_omitted_turns: usize,
        /// Digest of the summarized material.
        source_sha256: String,
        /// Digest of the summary.
        content_sha256: String,
    },
    /// Material that the caller supplied.
    Invocation {
        /// Source that supplied it.
        source: String,
        /// Reference inside the source.
        reference: String,
        /// Digest of the referenced material.
        source_sha256: String,
        /// Digest of the block.
        content_sha256: String,
    },
    /// Instructions of a Skill.
    Skill {
        /// Name of the Skill.
        name: String,
        /// Version of the Skill.
        version: String,
        /// Digest of the Skill content.
        content_sha256: String,
    },
    /// Long-term memory.
    Memory {
        /// Memory provider.
        provider: String,
    },
}

/// Bounded text that accompanies a Model request.
#[derive(Debug, PartialEq, Eq, Clone)]
pub struct ContextBlock {
    /// Origin of the text.
    pub source: ContextSource,
    /// Text itself.
    pub text: String,
    /// Estimated size in tokens.
    pub estimated_tokens: usize,
}

/// Request made of a Model.
#[derive(Debug, PartialEq, Eq, Clone)]
pub struct ModelRequest {
    /// Thread of the Turn.
    pub thread_id: ThreadId,
    /// Turn that makes the request.
    pub turn_id: TurnId,
    /// Authority of the Turn.
    pub authority: AuthorityContext,
    /// Items that the Model sees.
    pub items: Vec<Item>,
    /// Context that the Model sees.
    pub context: Vec<ContextBlock>,
    /// Tools that the Model may call.
    pub tools: Vec<ToolDescriptor>,
}

/// Decision of a Model.
#[derive(Debug, PartialEq, Eq, Clone)]
pub enum ModelOutput {
    /// Candidate answer.
    Message {
        /// Text of the answer.
        content: String,
    },
    /// One Tool call.
    ToolCall {
        /// Correlation identity.
        call_id: String,
        /// Name of the Tool.
        name: String,
        /// Input of the Tool.
        input: JsonDocument,
    },
    /// Several Tool calls at once.
    ToolCalls {
        /// Calls in source order.
        calls: Vec<ModelToolCall>,
    },
}

/// Resources that a Model call used.
#[derive(Clone, Copy, Debug, PartialEq, Eq, Structural)]
pub struct ModelUsage {
    /// Tokens that were read.
    pub input_tokens: u64,
    /// Tokens that were written.
    pub output_tokens: u64,
    /// Tokens that were read from a cache.
    pub cached_input_tokens: u64,
    /// Tokens spent on reasoning.
    pub reasoning_tokens: u64,
    /// Price, where the Provider gave one.
    pub cost_usd_ticks: Option<u64>,
}

/// Settled response of a Model.
#[derive(Debug, PartialEq, Eq, Clone)]
pub struct ModelResponse {
    /// Decision of the Model.
    pub output: ModelOutput,
    /// Resources that were used.
    pub usage: Option<ModelUsage>,
    /// Model that the Provider reports.
    pub provider_model: Option<String>,
    /// Request identity that the Provider reports.
    pub provider_request_id: Option<String>,
    /// Provider state to hand back.
    pub continuation: Option<ModelContinuation>,
}

/// Proposed Tool call, as Policy and approvers see it.
#[derive(Debug, PartialEq, Eq)]
pub struct ToolAuthorization {
    /// Thread of the Turn.
    pub thread_id: ThreadId,
    /// Turn that proposes the call.
    pub turn_id: TurnId,
    /// Correlation identity.
    pub call_id: String,
    /// Description of the Tool.
    pub descriptor: ToolDescriptor,
    /// Provenance of the Tool.
    pub origin: CapabilityOrigin,
    /// Input of the Tool.
    pub input: JsonDocument,
}

impl Clone for ToolAuthorization {
    fn clone(&self) -> (result: Self)
        ensures
            result == *self,
    {
        ToolAuthorization {
            thread_id: self.thread_id.clone(),
            turn_id: self.turn_id.clone(),
            call_id: self.call_id.clone(),
            descriptor: self.descriptor.clone(),
            origin: self.origin.clone(),
            input: self.input.clone(),
        }
    }
}

/// Question to an approver.
#[derive(Debug, PartialEq, Eq)]
pub struct ApprovalRequest {
    /// Identity of the request.
    pub id: ApprovalId,
    /// Party that asks.
    pub requested_by: ActorIdentity,
    /// Proposed call.
    pub authorization: ToolAuthorization,
    /// Reason given by Policy.
    pub reason: String,
    /// Risk given by Policy.
    pub risk: RiskLevel,
}

impl Clone for ApprovalRequest {
    fn clone(&self) -> (result: Self)
        ensures
            result == *self,
    {
        ApprovalRequest {
            id: self.id.clone(),
            requested_by: self.requested_by.clone(),
            authorization: self.authorization.clone(),
            reason: self.reason.clone(),
            risk: self.risk,
        }
    }
}

/// A list of descriptors holds the descriptor of every registered Tool once,
/// in the order of the names.
pub proof fn law_registered_tools_are_listed(descriptors: Seq<ToolDescriptor>, tools: Map<Seq<char>, RegisteredTool>)
    requires
        lists_tools(descriptors, tools),
        forall|name: Seq<char>| #[trigger] tools.contains_key(name) ==> tools[name].descriptor.name@ == name,
    ensures
        forall|name: Seq<char>| #[trigger]
            tools.contains_key(name) ==> exists|k: int|
                0 <= k < descriptors.len() && #[trigger] descriptors[k] == tools[name].descriptor,
        forall|k: int|
            0 <= k < descriptors.len() ==> tools.contains_key((#[trigger] descriptors[k]).name@) && descriptors[k]
                == tools[descriptors[k].name@].descriptor,
        forall|i: int, j: int|
            0 <= i < j < descriptors.len() ==> text_before((#[trigger] descriptors[i]).name@, (#[trigger] descriptors[j]).name@),
{
    let names = choose|names: Seq<String>| #[trigger]
        lists_keys(names, tools) && descriptors.len() == names.len() && forall|k: int|
            0 <= k < names.len() ==> descriptors[k] == tools[(#[trigger] names[k])@].descriptor;
    assert forall|k: int| 0 <= k < descriptors.len() implies tools.contains_key((#[trigger] descriptors[k]).name@)
        && descriptors[k] == tools[descriptors[k].name@].descriptor && descriptors[k].name@ == names[k]@ by {
        assert(tools.contains_key(names[k]@));
    }
    assert forall|name: Seq<char>| #[trigger] tools.contains_key(name) implies exists|k: int|
        0 <= k < descriptors.len() && #[trigger] descriptors[k] == tools[name].descriptor by {
        let k = choose|k: int| 0 <= k < names.len() && #[trigger] names[k]@ == name;
        assert(descriptors[k] == tools[name].descriptor);
    }
    assert forall|i: int, j: int| 0 <= i < j < descriptors.len() implies text_before(
        (#[trigger] descriptors[i]).name@,
        (#[trigger] descriptors[j]).name@,
    ) by {
        assert(text_before(names[i]@, names[j]@));
    }
}

} // verus!
