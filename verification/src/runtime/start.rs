//! Checks before a Turn, and the records that open it.

use vstd::prelude::*;

use crate::capability::ContextBlock;
use crate::error::{ErrorView, HarnessError};
use crate::items::{ExecutionBinding, ItemKind, MemoryContextRecordStatus, MemoryContextStatus};
use crate::kernel::{optional_text, ActorIdentity, ThreadId, TurnId};
use crate::runtime::control::{binding_for, deadline, deadline_at, memory_tenant, MemoryScope, TurnExecutionOptions};
use crate::runtime::route::{route_is_usable, ModelRoute};
use crate::runtime::validate::{invocation_context_record, invocation_evidences, memory_record_status};
use crate::text::join3;
use crate::time::Moment;

verus! {

/// What the options of a Turn come to.
pub struct Preparation {
    /// Binding under which the Turn runs.
    pub execution_binding: Option<ExecutionBinding>,
    /// Scope of its memory.
    pub memory_scope: MemoryScope,
    /// Point of time at which its external work ends.
    pub deadline: Option<Moment>,
}

/// Outcome of preparing a Turn: the first check that fails decides.
pub open spec fn prepared(
    route: ModelRoute,
    options: TurnExecutionOptions,
    context_check: Result<(), HarnessError>,
    now: Moment,
    result: Result<Preparation, HarnessError>,
) -> bool {
    let tenant = memory_tenant(options.authority@, optional_text(options.memory_scope.tenant_id));
    match (
        route_is_usable(route.entries@),
        binding_for(options.authority@, options.execution_binding),
        tenant,
        context_check,
        deadline_at(options.timeout, now),
    ) {
        (Err(fault), _, _, _, _) => result matches Err(error) && error@ == fault,
        (_, Err(fault), _, _, _) => result matches Err(error) && error@ == fault,
        (_, _, Err(fault), _, _) => result matches Err(error) && error@ == fault,
        (_, _, _, Err(fault), _) => result == Err::<Preparation, HarnessError>(fault),
        (_, _, _, _, Err(fault)) => result matches Err(error) && error@ == fault,
        (Ok(()), Ok(binding), Ok(tenant), Ok(()), Ok(end)) => result matches Ok(preparation)
            && preparation.execution_binding == binding && optional_text(preparation.memory_scope.tenant_id) == tenant
            && preparation.memory_scope.user_id == options.memory_scope.user_id && preparation.memory_scope.workspace_id
            == options.memory_scope.workspace_id && preparation.deadline == end,
    }
}

/// Checks route and options before a Turn touches any state.
///
/// `context_check` is the outcome of checking the supplied reference context.
pub fn prepare_turn(
    route: &ModelRoute,
    options: &TurnExecutionOptions,
    context_check: Result<(), HarnessError>,
    now: Moment,
) -> (result: Result<Preparation, HarnessError>)
    ensures
        prepared(*route, *options, context_check, now, result),
{
    if let Err(error) = route.validate() {
        return Err(error);
    }
    let execution_binding = match options.validated_execution_binding() {
        Ok(binding) => binding,
        Err(error) => {
            return Err(error);
        },
    };
    let memory_scope = match options.validated_memory_scope() {
        Ok(scope) => scope,
        Err(error) => {
            return Err(error);
        },
    };
    if let Err(error) = context_check {
        return Err(error);
    }
    match deadline(options.timeout, now) {
        Ok(deadline) => Ok(Preparation { execution_binding, memory_scope, deadline }),
        Err(error) => Err(error),
    }
}

/// Error of a Thread that does not exist.
pub open spec fn missing_thread(thread_id: Seq<char>) -> ErrorView {
    ErrorView::State("thread "@ + thread_id + " does not exist"@)
}

/// Takes what the store returned for a Thread.
pub fn require_thread<T>(found: Option<T>, thread_id: &ThreadId) -> (result: Result<T, HarnessError>)
    ensures
        match found {
            Some(value) => result == Ok::<T, HarnessError>(value),
            None => result matches Err(error) && error@ == missing_thread(thread_id@),
        },
{
    match found {
        Some(value) => Ok(value),
        None => Err(HarnessError::State(join3("thread ", thread_id.as_str(), " does not exist"))),
    }
}

/// What the conversation of a Thread comes to.
pub struct ConversationShape {
    /// Turns that are shown.
    pub included_turns: Vec<TurnId>,
    /// Number of Turns that are left out.
    pub dropped_turns: usize,
    /// Size in bytes.
    pub serialized_bytes: usize,
}

/// Records that open a Turn.
pub open spec fn opening(
    prompt: String,
    binding: Option<ExecutionBinding>,
    actor: ActorIdentity,
    conversation: ConversationShape,
) -> Seq<ItemKind> {
    let message = seq![ItemKind::UserMessage { content: prompt }];
    let bound = match binding {
        Some(binding) => seq![ItemKind::ExecutionBinding { bound_by: actor, binding }],
        None => Seq::empty(),
    };
    message + bound + seq![
        ItemKind::ConversationContext {
            included_turns: conversation.included_turns,
            dropped_turns: conversation.dropped_turns,
            estimated_tokens: conversation.serialized_bytes,
        },
    ]
}

/// Makes the records that open a Turn, in the order in which they are written.
pub fn opening_records(
    prompt: &String,
    binding: Option<ExecutionBinding>,
    actor: &ActorIdentity,
    conversation: ConversationShape,
) -> (records: Vec<ItemKind>)
    ensures
        records@ == opening(*prompt, binding, *actor, conversation),
{
    let mut records: Vec<ItemKind> = Vec::new();
    records.push(ItemKind::UserMessage { content: prompt.clone() });
    if let Some(binding) = binding {
        records.push(ItemKind::ExecutionBinding { bound_by: actor.clone(), binding });
    }
    records.push(
        ItemKind::ConversationContext {
            included_turns: conversation.included_turns,
            dropped_turns: conversation.dropped_turns,
            estimated_tokens: conversation.serialized_bytes,
        },
    );
    assert(records@ =~= opening(*prompt, binding, *actor, conversation));
    records
}

/// What long-term memory supplied for a Turn.
pub struct MemoryObservation {
    /// Memory provider.
    pub provider: String,
    /// Availability of memory.
    pub status: MemoryContextStatus,
    /// References of the loaded memories.
    pub references: Vec<String>,
    /// Size in tokens.
    pub packed_tokens: usize,
    /// Provider warnings.
    pub warnings: Vec<String>,
}

/// Record of what long-term memory supplied.
pub open spec fn memory_item(observation: MemoryObservation) -> ItemKind {
    ItemKind::MemoryContext {
        provider: observation.provider,
        status: match observation.status {
            MemoryContextStatus::Loaded => MemoryContextRecordStatus::Loaded,
            MemoryContextStatus::Degraded => MemoryContextRecordStatus::Degraded,
        },
        references: observation.references,
        packed_tokens: observation.packed_tokens,
        warnings: observation.warnings,
    }
}

/// Whether records stand for the compiled context of a Turn: the summary, the
/// context that the caller supplied, and what memory supplied, each where
/// there is one.
pub open spec fn context_is_recorded(
    records: Seq<ItemKind>,
    summary: Option<ItemKind>,
    blocks: Seq<ContextBlock>,
    actor: ActorIdentity,
    memory: Option<MemoryObservation>,
) -> bool {
    let first: int = if summary is Some {
        1
    } else {
        0
    };
    let supplied: int = if invocation_evidences(blocks).len() > 0 {
        1
    } else {
        0
    };
    let last: int = if memory is Some {
        1
    } else {
        0
    };
    &&& records.len() == first + supplied + last
    &&& summary is Some ==> records[0] == summary->0
    &&& supplied == 1 ==> (records[first] matches ItemKind::InvocationContext { submitted_by, blocks: evidence }
        && submitted_by == actor && evidence@ == invocation_evidences(blocks))
    &&& memory is Some ==> records[first + supplied] == memory_item(memory->0)
}

/// Makes the records of the compiled context, in the order in which they are
/// written.
pub fn context_records(
    summary: Option<ItemKind>,
    blocks: &Vec<ContextBlock>,
    actor: &ActorIdentity,
    memory: Option<MemoryObservation>,
) -> (records: Vec<ItemKind>)
    ensures
        context_is_recorded(records@, summary, blocks@, *actor, memory),
{
    let mut records: Vec<ItemKind> = Vec::new();
    if let Some(record) = summary {
        records.push(record);
    }
    if let Some(record) = invocation_context_record(blocks, actor.clone()) {
        records.push(record);
    }
    if let Some(observation) = memory {
        records.push(
            ItemKind::MemoryContext {
                provider: observation.provider,
                status: memory_record_status(observation.status),
                references: observation.references,
                packed_tokens: observation.packed_tokens,
                warnings: observation.warnings,
            },
        );
    }
    records
}

/// A Turn is prepared where its route is usable, its binding and its memory
/// belong to its authority, its context is accepted and its deadline is within
/// the range of the clock; then it runs under just these.
pub proof fn law_sound_options_prepare_a_turn(
    route: ModelRoute,
    options: TurnExecutionOptions,
    context_check: Result<(), HarnessError>,
    now: Moment,
    result: Result<Preparation, HarnessError>,
)
    requires
        prepared(route, options, context_check, now, result),
    ensures
        result is Ok <==> {
            &&& route_is_usable(route.entries@) is Ok
            &&& binding_for(options.authority@, options.execution_binding) is Ok
            &&& memory_tenant(options.authority@, optional_text(options.memory_scope.tenant_id)) is Ok
            &&& context_check is Ok
            &&& options.timeout matches Some(timeout) ==> now.nanos + timeout.nanos()
                <= 9_223_372_036_854_775_807_999_999_999
        },
        result matches Ok(preparation) ==> {
            &&& preparation.execution_binding == options.execution_binding
            &&& optional_text(preparation.memory_scope.tenant_id) == memory_tenant(
                options.authority@,
                optional_text(options.memory_scope.tenant_id),
            )->Ok_0
            &&& preparation.memory_scope.user_id == options.memory_scope.user_id
            &&& preparation.memory_scope.workspace_id == options.memory_scope.workspace_id
            &&& match options.timeout {
                None => preparation.deadline is None,
                Some(timeout) => preparation.deadline matches Some(end) && end.nanos == now.nanos + timeout.nanos(),
            }
        },
{
}

/// A Turn opens with its prompt, then its binding, where it has one, then what
/// was taken over of the conversation.
pub proof fn law_turns_open_with_their_prompt(
    prompt: String,
    binding: Option<ExecutionBinding>,
    actor: ActorIdentity,
    conversation: ConversationShape,
)
    ensures
        ({
            let records = opening(prompt, binding, actor, conversation);
            let shape = ItemKind::ConversationContext {
                included_turns: conversation.included_turns,
                dropped_turns: conversation.dropped_turns,
                estimated_tokens: conversation.serialized_bytes,
            };
            &&& records[0] == (ItemKind::UserMessage { content: prompt })
            &&& records.last() == shape
            &&& match binding {
                None => records.len() == 2,
                Some(bound) => records.len() == 3 && records[1] == (ItemKind::ExecutionBinding { bound_by: actor, binding: bound }),
            }
        }),
{
}

/// Context is recorded as it was supplied: the summary first, then the blocks
/// of the invocation under the party that submitted them, then the memory, and
/// of these only what there is.
pub proof fn law_context_is_recorded_as_supplied(
    records: Seq<ItemKind>,
    summary: Option<ItemKind>,
    blocks: Seq<ContextBlock>,
    actor: ActorIdentity,
    memory: Option<MemoryObservation>,
)
    requires
        context_is_recorded(records, summary, blocks, actor, memory),
    ensures
        summary matches Some(item) ==> records.len() > 0 && records[0] == item,
        memory matches Some(observed) ==> records.len() > 0 && (records.last() matches ItemKind::MemoryContext {
            provider,
            status,
            references,
            packed_tokens,
            warnings,
        } && provider == observed.provider && (status is Loaded <==> observed.status is Loaded) && references
            == observed.references && packed_tokens == observed.packed_tokens && warnings == observed.warnings),
        summary is None && memory is None && invocation_evidences(blocks).len() == 0 ==> records.len() == 0,
        invocation_evidences(blocks).len() > 0 ==> {
            let at: int = if summary is Some {
                1
            } else {
                0
            };
            at < records.len() && (records[at] matches ItemKind::InvocationContext { submitted_by, blocks: evidence }
                && submitted_by == actor && evidence@ == invocation_evidences(blocks))
        },
{
}

} // verus!
