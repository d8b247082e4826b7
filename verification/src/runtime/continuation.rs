//! Provider state that pins a Tool chain to the Model that began it.

use vstd::prelude::*;

use crate::capability::ModelRequest;
use crate::error::{settles, ErrorView, HarnessError};
use crate::items::{Item, ItemKind};
use crate::kernel::{CapabilityOrigin, OriginView};
use crate::runtime::resume::state_error;
use crate::text::same_text;

verus! {

/// Model to which a pending Tool chain has to return.
#[derive(Debug, PartialEq, Eq)]
pub struct ProviderContinuationTarget {
    /// Identity of the Model.
    pub model_id: String,
    /// Provenance of the Model.
    pub model_origin: CapabilityOrigin,
}

/// Whether an item is a message of the user or of a Model.
pub open spec fn is_message(item: Item) -> bool {
    item.kind is UserMessage || item.kind is AssistantMessage
}

/// Whether an item is the result of the call with this identity.
pub open spec fn is_result_of(item: Item, call_id: Seq<char>) -> bool {
    item.kind matches ItemKind::ToolResult { call_id: id, .. } && id@ == call_id
}

/// Index of the last Tool call before `end`.
pub open spec fn last_tool_call(items: Seq<Item>, end: int) -> Option<int>
    decreases end,
{
    if end <= 0 {
        None
    } else if items[end - 1].kind is ToolCall {
        Some(end - 1)
    } else {
        last_tool_call(items, end - 1)
    }
}

/// Index of the last Provider state before `end` that no message separates
/// from `end`.
pub open spec fn chain_continuation(items: Seq<Item>, end: int) -> Option<int>
    decreases end,
{
    if end <= 0 || is_message(items[end - 1]) {
        None
    } else if items[end - 1].kind is ProviderContinuation {
        Some(end - 1)
    } else {
        chain_continuation(items, end - 1)
    }
}

/// Whether the result of a call stands behind it and no message follows the
/// call, so that the next request continues its chain.
pub open spec fn chain_is_pending(items: Seq<Item>, call: int, call_id: Seq<char>) -> bool {
    &&& exists|j: int| call < j < items.len() && is_result_of(#[trigger] items[j], call_id)
    &&& forall|j: int| call < j < items.len() ==> !is_message(#[trigger] items[j])
}

/// Model to which the pending chain of a request has to return: none where the
/// last call is not pending or began without Provider state, an error where
/// the recorded provenance of call and state differ.
pub open spec fn continuation_target(items: Seq<Item>) -> Result<Option<ProviderContinuationTarget>, ErrorView> {
    match last_tool_call(items, items.len() as int) {
        None => Ok(None),
        Some(call) => match items[call].kind {
            ItemKind::ToolCall { call_id, model_id, model_origin, .. } => if !chain_is_pending(items, call, call_id@) {
                Ok(None)
            } else {
                match chain_continuation(items, call) {
                    None => Ok(None),
                    Some(state) => match items[state].kind {
                        ItemKind::ProviderContinuation { model_id: id, model_origin: origin, .. } => if model_id is None
                            || model_origin is None {
                            Err(ErrorView::State("provider continuation Tool call has no recorded Model provenance"@))
                        } else if model_id->0@ != id@ || model_origin->0@ != origin@ {
                            Err(ErrorView::State("provider continuation and Tool call Model provenance differ"@))
                        } else {
                            Ok(Some(ProviderContinuationTarget { model_id: id, model_origin: origin }))
                        },
                        _ => Ok(None),
                    },
                }
            },
            _ => Ok(None),
        },
    }
}

fn message(item: &Item) -> (result: bool)
    ensures
        result == is_message(*item),
{
    matches!(item.kind, ItemKind::UserMessage { .. } | ItemKind::AssistantMessage { .. })
}

fn find_tool_call(items: &Vec<Item>) -> (index: Option<usize>)
    ensures
        match index {
            Some(index) => last_tool_call(items@, items@.len() as int) == Some(index as int) && index < items@.len()
                && items@[index as int].kind is ToolCall,
            None => last_tool_call(items@, items@.len() as int) is None,
        },
{
    let mut end: usize = items.len();
    while end > 0
        invariant
            end <= items@.len(),
            last_tool_call(items@, end as int) == last_tool_call(items@, items@.len() as int),
        decreases end,
    {
        if matches!(items[end - 1].kind, ItemKind::ToolCall { .. }) {
            return Some(end - 1);
        }
        end = end - 1;
    }
    None
}

fn find_continuation(items: &Vec<Item>, before: usize) -> (index: Option<usize>)
    requires
        before <= items@.len(),
    ensures
        match index {
            Some(index) => chain_continuation(items@, before as int) == Some(index as int) && index < before
                && items@[index as int].kind is ProviderContinuation,
            None => chain_continuation(items@, before as int) is None,
        },
{
    let mut end: usize = before;
    while end > 0
        invariant
            end <= before <= items@.len(),
            chain_continuation(items@, end as int) == chain_continuation(items@, before as int),
        decreases end,
    {
        if message(&items[end - 1]) {
            return None;
        }
        if matches!(items[end - 1].kind, ItemKind::ProviderContinuation { .. }) {
            return Some(end - 1);
        }
        end = end - 1;
    }
    None
}

fn pending_chain(items: &Vec<Item>, call: usize, call_id: &str) -> (result: bool)
    requires
        call < items@.len(),
    ensures
        result == chain_is_pending(items@, call as int, call_id@),
{
    let total: usize = items.len();
    let mut settled: bool = false;
    let mut j: usize = call + 1;
    while j < total
        invariant
            call < j <= total == items@.len(),
            settled == exists|k: int| call < k < j && is_result_of(#[trigger] items@[k], call_id@),
            forall|k: int| call < k < j ==> !is_message(#[trigger] items@[k]),
        decreases items@.len() - j,
    {
        if message(&items[j]) {
            assert(is_message(items@[j as int]));
            return false;
        }
        if let ItemKind::ToolResult { call_id: id, .. } = &items[j].kind {
            if same_text(id.as_str(), call_id) {
                assert(is_result_of(items@[j as int], call_id@));
                settled = true;
            }
        }
        j += 1;
    }
    settled
}

/// Finds the Model to which the pending chain of a request has to return.
pub fn pending_provider_continuation_target(items: &Vec<Item>) -> (result: Result<
    Option<ProviderContinuationTarget>,
    HarnessError,
>)
    ensures
        settles(result, continuation_target(items@)),
{
    let call: usize = match find_tool_call(items) {
        Some(call) => call,
        None => {
            return Ok(None);
        },
    };
    if let ItemKind::ToolCall { call_id, model_id, model_origin, .. } = &items[call].kind {
        if !pending_chain(items, call, call_id.as_str()) {
            return Ok(None);
        }
        let state: usize = match find_continuation(items, call) {
            Some(state) => state,
            None => {
                return Ok(None);
            },
        };
        if let ItemKind::ProviderContinuation { model_id: id, model_origin: origin, .. } = &items[state].kind {
            return match (model_id, model_origin) {
                (Some(model_id), Some(model_origin)) => if !same_text(model_id.as_str(), id.as_str())
                    || !model_origin.same(origin) {
                    Err(state_error("provider continuation and Tool call Model provenance differ"))
                } else {
                    Ok(Some(ProviderContinuationTarget { model_id: id.clone(), model_origin: origin.clone() }))
                },
                _ => Err(state_error("provider continuation Tool call has no recorded Model provenance")),
            };
        }
    }
    Ok(None)
}

/// Whether an item may be shown to one Model: anything but the Provider state
/// of another Model.
pub open spec fn is_visible_to(item: Item, model_id: Seq<char>, origin: OriginView) -> bool {
    item.kind matches ItemKind::ProviderContinuation { model_id: id, model_origin, .. } ==> id@ == model_id && model_origin@
        == origin
}

fn visible_to(item: &Item, model_id: &str, origin: &CapabilityOrigin) -> (result: bool)
    ensures
        result == is_visible_to(*item, model_id@, origin@),
{
    match &item.kind {
        ItemKind::ProviderContinuation { model_id: id, model_origin, .. } => same_text(id.as_str(), model_id)
            && model_origin.same(origin),
        _ => true,
    }
}

/// Drops the Provider state of other Models from a request, keeping every
/// other item in order.
pub fn retain_model_continuations(request: &mut ModelRequest, model_id: &str, model_origin: &CapabilityOrigin)
    ensures
        final(request).items@ == old(request).items@.filter(|item: Item| is_visible_to(item, model_id@, model_origin@)),
        final(request).thread_id == old(request).thread_id,
        final(request).turn_id == old(request).turn_id,
        final(request).authority == old(request).authority,
        final(request).context == old(request).context,
        final(request).tools == old(request).tools,
{
    let ghost all = request.items@;
    let ghost keeps = |item: Item| is_visible_to(item, model_id@, model_origin@);
    let mut rest: Vec<Item> = Vec::new();
    std::mem::swap(&mut rest, &mut request.items);
    let total: usize = rest.len();
    let mut backwards: Vec<Item> = Vec::new();
    let mut done: usize = 0;
    while done < total
        invariant
            done <= total == all.len(),
            rest@ == all.take(total - done),
            backwards@.len() == done,
            forall|k: int| 0 <= k < done ==> #[trigger] backwards@[k] == all[total - 1 - k],
        decreases total - done,
    {
        if let Some(item) = rest.pop() {
            backwards.push(item);
        }
        done += 1;
    }
    let mut kept: Vec<Item> = Vec::new();
    let mut seen: usize = 0;
    assert(all.take(0).filter(keeps) =~= Seq::empty());
    while seen < total
        invariant
            seen <= total == all.len(),
            keeps == (|item: Item| is_visible_to(item, model_id@, model_origin@)),
            backwards@.len() == total - seen,
            forall|k: int| 0 <= k < total - seen ==> #[trigger] backwards@[k] == all[total - 1 - k],
            kept@ == all.take(seen as int).filter(keeps),
        decreases total - seen,
    {
        proof {
            assert(all.take(seen + 1).drop_last() =~= all.take(seen as int));
            assert(all.take(seen + 1).last() == all[seen as int]);
            reveal(Seq::filter);
        }
        if let Some(item) = backwards.pop() {
            assert(item == all[seen as int]);
            if visible_to(&item, model_id, model_origin) {
                kept.push(item);
            }
        }
        seen += 1;
    }
    assert(all.take(total as int) =~= all);
    request.items = kept;
}

/// A pending chain is pinned to the Model that its last call records.
pub proof fn law_target_is_the_recorded_model(items: Seq<Item>)
    ensures
        continuation_target(items) matches Ok(Some(target)) ==> {
            let call = last_tool_call(items, items.len() as int)->0;
            &&& 0 <= call < items.len()
            &&& items[call].kind matches ItemKind::ToolCall { model_id: Some(id), model_origin: Some(origin), .. } && id@
                == target.model_id@ && origin@ == target.model_origin@
        },
{
    lemma_last_tool_call(items, items.len() as int);
}

proof fn lemma_last_tool_call(items: Seq<Item>, end: int)
    requires
        0 <= end <= items.len(),
    ensures
        last_tool_call(items, end) matches Some(call) ==> 0 <= call < end && items[call].kind is ToolCall,
    decreases end,
{
    if end > 0 && !(items[end - 1].kind is ToolCall) {
        lemma_last_tool_call(items, end - 1);
    }
}

/// A later message of the user releases a Tool chain: the next request may go
/// to any Model.
pub proof fn law_message_releases_the_chain(items: Seq<Item>, at: int)
    requires
        0 <= at < items.len(),
        is_message(items[at]),
        forall|j: int| at < j < items.len() ==> !(#[trigger] items[j].kind is ToolCall),
    ensures
        continuation_target(items) == Ok::<Option<ProviderContinuationTarget>, ErrorView>(None),
{
    lemma_no_call_behind(items, items.len() as int, at);
    lemma_last_tool_call(items, items.len() as int);
    if last_tool_call(items, items.len() as int) is Some {
        assert(is_message(items[at]));
    }
}

proof fn lemma_no_call_behind(items: Seq<Item>, end: int, at: int)
    requires
        at < end <= items.len(),
        0 <= at,
        is_message(items[at]),
        forall|j: int| at < j < items.len() ==> !(#[trigger] items[j].kind is ToolCall),
    ensures
        last_tool_call(items, end) matches Some(call) ==> call < at,
    decreases end,
{
    if end - 1 > at {
        lemma_no_call_behind(items, end - 1, at);
    } else {
        lemma_last_tool_call(items, at);
    }
}

/// What is kept for a Model holds no Provider state of another Model.
pub proof fn law_retained_items_are_visible(items: Seq<Item>, model_id: Seq<char>, origin: OriginView, i: int)
    requires
        0 <= i < items.filter(|item: Item| is_visible_to(item, model_id, origin)).len(),
    ensures
        is_visible_to(items.filter(|item: Item| is_visible_to(item, model_id, origin))[i], model_id, origin),
{
    items.lemma_filter_pred(|item: Item| is_visible_to(item, model_id, origin), i);
}

/// A chain returns to the Model that began it: where Provider state was
/// recorded, then Tool calls without a message or other Provider state between
/// them, the last of them by the same Model, and then its result, still without
/// a message, the next request is for that Model.
pub proof fn law_pending_chains_return_to_their_model(
    items: Seq<Item>,
    state: int,
    call: int,
    result: int,
    target: ProviderContinuationTarget,
    called_by: String,
    called_from: CapabilityOrigin,
)
    requires
        0 <= state < call < result < items.len(),
        items[state].kind matches ItemKind::ProviderContinuation { model_id, model_origin, .. } && model_id == target.model_id
            && model_origin == target.model_origin,
        items[call].kind matches ItemKind::ToolCall { call_id, model_id, model_origin, .. } && model_id == Some(called_by)
            && model_origin == Some(called_from) && (items[result].kind matches ItemKind::ToolResult { call_id: settled, .. }
            && settled@ == call_id@),
        forall|j: int|
            state < j < items.len() ==> !((#[trigger] items[j]).kind is UserMessage || items[j].kind is AssistantMessage),
        forall|j: int| state < j < call ==> !((#[trigger] items[j]).kind is ProviderContinuation),
        forall|j: int| call < j < items.len() ==> !((#[trigger] items[j]).kind is ToolCall),
    ensures
        called_by@ == target.model_id@ && called_from@ == target.model_origin@ ==> continuation_target(items) == Ok::<
            Option<ProviderContinuationTarget>,
            ErrorView,
        >(Some(target)),
        !(called_by@ == target.model_id@ && called_from@ == target.model_origin@) ==> continuation_target(items) is Err,
{
    lemma_last_call_found(items, call, items.len() as int);
    lemma_state_found(items, state, call);
    if let ItemKind::ToolCall { call_id, .. } = items[call].kind {
        assert(is_result_of(items[result], call_id@));
        assert forall|j: int| call < j < items.len() implies !is_message(#[trigger] items[j]) by {}
        assert(chain_is_pending(items, call, call_id@));
    }
}

proof fn lemma_last_call_found(items: Seq<Item>, call: int, end: int)
    requires
        0 <= call < end <= items.len(),
        items[call].kind is ToolCall,
        forall|j: int| call < j < items.len() ==> !((#[trigger] items[j]).kind is ToolCall),
    ensures
        last_tool_call(items, end) == Some(call),
    decreases end,
{
    if end - 1 > call {
        assert(!(items[end - 1].kind is ToolCall));
        lemma_last_call_found(items, call, end - 1);
    }
}

proof fn lemma_state_found(items: Seq<Item>, state: int, end: int)
    requires
        0 <= state < end <= items.len(),
        items[state].kind is ProviderContinuation,
        forall|j: int|
            state < j < end ==> !((#[trigger] items[j]).kind is UserMessage || items[j].kind is AssistantMessage
                || items[j].kind is ProviderContinuation),
    ensures
        chain_continuation(items, end) == Some(state),
    decreases end,
{
    if end - 1 > state {
        assert(!is_message(items[end - 1]));
        lemma_state_found(items, state, end - 1);
    }
}

/// A journal without Provider state pins nothing, and neither does one whose
/// last call has no result yet.
pub proof fn law_open_chains_pin_nothing(items: Seq<Item>, call: int)
    requires
        (forall|j: int| 0 <= j < items.len() ==> !((#[trigger] items[j]).kind is ProviderContinuation)) || (0 <= call
            < items.len() && items[call].kind is ToolCall && forall|j: int|
            call < j < items.len() ==> !((#[trigger] items[j]).kind is ToolCall) && !(items[j].kind is ToolResult)),
    ensures
        continuation_target(items) == Ok::<Option<ProviderContinuationTarget>, ErrorView>(None),
{
    lemma_some_call(items, items.len() as int);
    if forall|j: int| 0 <= j < items.len() ==> !((#[trigger] items[j]).kind is ProviderContinuation) {
        if let Some(last) = last_tool_call(items, items.len() as int) {
            lemma_no_state(items, last);
        }
    } else {
        lemma_last_call_found(items, call, items.len() as int);
        if let ItemKind::ToolCall { call_id, .. } = items[call].kind {
            if chain_is_pending(items, call, call_id@) {
                let j = choose|j: int| call < j < items.len() && is_result_of(#[trigger] items[j], call_id@);
                assert(items[j].kind is ToolResult);
            }
        }
    }
}

proof fn lemma_some_call(items: Seq<Item>, end: int)
    requires
        end <= items.len(),
    ensures
        last_tool_call(items, end) matches Some(call) ==> 0 <= call < end && items[call].kind is ToolCall,
    decreases end,
{
    if end > 0 {
        lemma_some_call(items, end - 1);
    }
}

proof fn lemma_no_state(items: Seq<Item>, end: int)
    requires
        end <= items.len(),
        forall|j: int| 0 <= j < items.len() ==> !((#[trigger] items[j]).kind is ProviderContinuation),
    ensures
        chain_continuation(items, end) is None,
    decreases end,
{
    if end > 0 && !is_message(items[end - 1]) {
        lemma_no_state(items, end - 1);
    }
}

/// A Model is shown everything but the Provider state of other Models.
pub proof fn law_models_see_all_but_foreign_state(item: Item, model_id: Seq<char>, origin: OriginView)
    ensures
        is_visible_to(item, model_id, origin) <==> match item.kind {
            ItemKind::ProviderContinuation { model_id: id, model_origin, .. } => id@ == model_id && model_origin@ == origin,
            _ => true,
        },
{
}

/// A message also cuts a chain off from what came before it: a call that no
/// continuation precedes since the last message pins nothing.
pub proof fn law_messages_cut_chains_off(items: Seq<Item>, message: int, call: int)
    requires
        0 <= message < call < items.len(),
        items[message].kind is UserMessage || items[message].kind is AssistantMessage,
        items[call].kind is ToolCall,
        forall|j: int| message < j < call ==> !((#[trigger] items[j]).kind is ProviderContinuation),
        forall|j: int| call < j < items.len() ==> !((#[trigger] items[j]).kind is ToolCall),
    ensures
        continuation_target(items) == Ok::<Option<ProviderContinuationTarget>, ErrorView>(None),
{
    lemma_last_call_is(items, call, items.len() as int);
    lemma_cut_off(items, message, call);
}

proof fn lemma_last_call_is(items: Seq<Item>, call: int, end: int)
    requires
        0 <= call < end <= items.len(),
        items[call].kind is ToolCall,
        forall|j: int| call < j < items.len() ==> !((#[trigger] items[j]).kind is ToolCall),
    ensures
        last_tool_call(items, end) == Some(call),
    decreases end,
{
    if end - 1 > call {
        lemma_last_call_is(items, call, end - 1);
    }
}

proof fn lemma_cut_off(items: Seq<Item>, message: int, end: int)
    requires
        0 <= message < end <= items.len(),
        items[message].kind is UserMessage || items[message].kind is AssistantMessage,
        forall|j: int| message < j < end ==> !((#[trigger] items[j]).kind is ProviderContinuation),
    ensures
        chain_continuation(items, end) is None,
    decreases end,
{
    if end - 1 > message && !is_message(items[end - 1]) {
        lemma_cut_off(items, message, end - 1);
    }
}

} // verus!
