//! What the Agent Loop records at a pause is what it is resumed from.

use vstd::prelude::*;

use crate::error::ErrorView;
use crate::items::{Item, ItemKind, ModelToolCall, PolicyDecision, ToolCallBatch};
use crate::kernel::{model_id_is_valid, ActorView, CapabilityOrigin, OriginView, ToolCallBatchId};
use crate::runtime::resume::{
    batch_fault,
    boundary_end,
    consumed_steps,
    is_call,
    law_queued_steering_keeps_the_approval_boundary,
    last_call,
    reports,
    resume_point,
    reuses_call_id,
    used_call_ids,
    ApprovalResumeEvidence,
    ResumePoint,
};

verus! {

/// Correlation identity of a recorded call.
pub open spec fn recorded_identity(item: Item) -> Option<Seq<char>> {
    match item.kind {
        ItemKind::ToolCall { call_id, .. } => Some(call_id@),
        _ => None,
    }
}

/// Whether the calls of a journal have different identities.
pub open spec fn identities_differ(items: Seq<Item>) -> bool {
    forall|i: int, j: int|
        0 <= i < j < items.len() && recorded_identity(#[trigger] items[i]) is Some ==> recorded_identity(items[i])
            != recorded_identity(#[trigger] items[j])
}

/// Whether an item records a call that a Model proposed.
pub open spec fn proposal_is_recorded(
    item: Item,
    call: ModelToolCall,
    model_id: String,
    origin: CapabilityOrigin,
    batch: Option<ToolCallBatch>,
) -> bool {
    item.kind == (ItemKind::ToolCall {
        model_id: Some(model_id),
        model_origin: Some(origin),
        call_id: call.call_id,
        name: call.name,
        input: call.input,
        batch,
    })
}

/// Whether two items record that Policy asks about a call and that an approval
/// of it was requested by one party.
pub open spec fn pause_is_recorded(ask: Item, request: Item, call: ModelToolCall, requester: ActorView) -> bool {
    &&& ask.kind matches ItemKind::PolicyDecision {
        call_id: asked_id,
        tool_origin: asked_origin,
        decision: PolicyDecision::Ask { reason: asked_reason, risk: asked_risk },
    }
    &&& request.kind matches ItemKind::ApprovalRequested {
        call_id,
        tool,
        reason,
        risk,
        requested_by: Some(requested_by),
        tool_origin: Some(origin),
        model_request_sha256: Some(_),
        ..
    }
    &&& asked_id@ == call.call_id@
    &&& call_id@ == call.call_id@
    &&& tool@ == call.name@
    &&& reason@ == asked_reason@
    &&& risk == asked_risk
    &&& requested_by@ == requester
    &&& asked_origin matches Some(asked_origin) ==> asked_origin@ == origin@
}

/// Whether evidence carries what was recorded at a pause.
pub open spec fn evidence_carries(
    evidence: ApprovalResumeEvidence,
    earlier: Seq<Item>,
    ask: Item,
    request: Item,
    calls: Seq<ModelToolCall>,
    at: int,
    model_id: String,
    origin: CapabilityOrigin,
) -> bool {
    &&& ask.kind matches ItemKind::PolicyDecision { decision: PolicyDecision::Ask { reason, risk }, .. }
    &&& request.kind matches ItemKind::ApprovalRequested {
        approval_id,
        tool,
        requested_by: Some(requested_by),
        tool_origin: Some(tool_origin),
        model_request_sha256: Some(model_request_sha256),
        ..
    }
    &&& evidence.approval_id == approval_id
    &&& evidence.call_id == calls[at].call_id
    &&& evidence.tool == tool
    &&& evidence.input == calls[at].input
    &&& evidence.reason == reason
    &&& evidence.risk == risk
    &&& evidence.requested_by == requested_by
    &&& evidence.tool_origin == tool_origin
    &&& evidence.model_id == model_id
    &&& evidence.model_origin == origin
    &&& evidence.model_request_sha256 == model_request_sha256
    &&& evidence.batch_calls@ == calls
    &&& evidence.current_batch_index == at
    &&& evidence.model_request_item_index == if earlier.len() > 0 && (earlier.last().kind matches ItemKind::ProviderContinuation {
        model_id: continued,
        model_origin,
        ..
    } && continued@ == model_id@ && model_origin@ == origin@) {
        earlier.len() - 1
    } else {
        earlier.len() as int
    }
}

proof fn lemma_identities(items: Seq<Item>)
    requires
        identities_differ(items),
    ensures
        !reuses_call_id(items),
{
    if reuses_call_id(items) {
        let (i, j, id) = choose|i: int, j: int, id: Seq<char>|
            0 <= i < j < items.len() && #[trigger] is_call(items[i], id) && #[trigger] is_call(items[j], id);
        assert(recorded_identity(items[i]) == Some(id) && recorded_identity(items[j]) == Some(id));
    }
}

proof fn lemma_found(items: Seq<Item>, at: int, end: int, call_id: Seq<char>)
    requires
        identities_differ(items),
        0 <= at < end <= items.len(),
        is_call(items[at], call_id),
    ensures
        last_call(items, end, call_id) == Some(at),
    decreases end - at,
{
    if end - 1 > at {
        assert(recorded_identity(items[at]) == Some(call_id));
        assert(recorded_identity(items[at]) != recorded_identity(items[end - 1]));
        assert(!is_call(items[end - 1], call_id));
        lemma_found(items, at, end - 1, call_id);
    }
}

/// Whether items record the calls of one batch in source order.
pub open spec fn batch_is_recorded(
    items: Seq<Item>,
    calls: Seq<ModelToolCall>,
    model_id: String,
    origin: CapabilityOrigin,
    batch_id: ToolCallBatchId,
) -> bool {
    &&& items.len() == calls.len()
    &&& forall|i: int|
        0 <= i < calls.len() ==> proposal_is_recorded(
            #[trigger] items[i],
            calls[i],
            model_id,
            origin,
            Some(ToolCallBatch { id: batch_id, index: i as usize, size: calls.len() as usize }),
        )
}

proof fn lemma_members(
    items: Seq<Item>,
    start: int,
    calls: Seq<ModelToolCall>,
    k: int,
    batch: ToolCallBatch,
    model_id: String,
    origin: CapabilityOrigin,
)
    requires
        0 <= start,
        0 <= k <= calls.len(),
        start + calls.len() <= items.len(),
        calls.len() <= usize::MAX,
        batch.size == calls.len(),
        batch_is_recorded(items.subrange(start, start + calls.len()), calls, model_id, origin, batch.id),
    ensures
        batch_fault(items, start, k, batch, model_id@, origin@) is None,
    decreases calls.len() - k,
{
    if k < calls.len() {
        assert(items.subrange(start, start + calls.len())[k] == items[start + k]);
        lemma_members(items, start, calls, k + 1, batch, model_id, origin);
    }
}

/// What the Agent Loop records can be resumed. The journal holds any earlier
/// items, the calls of one batch in source order, whatever was recorded behind
/// them up to the question of Policy about one of them, the request for its
/// approval, and any steering queued since; the calls have different
/// identities. Then the requester can resume, whichever call of the batch is
/// the paused one, with the calls in order and that call as the current one.
pub proof fn law_paused_batches_can_be_resumed(
    earlier: Seq<Item>,
    batch: Seq<Item>,
    between: Seq<Item>,
    ask: Item,
    request: Item,
    queued: Seq<Item>,
    calls: Seq<ModelToolCall>,
    at: int,
    model_id: String,
    origin: CapabilityOrigin,
    batch_id: ToolCallBatchId,
    requester: ActorView,
    evidence: ApprovalResumeEvidence,
)
    requires
        0 <= at < calls.len(),
        earlier.len() + calls.len() <= usize::MAX,
        model_id_is_valid(model_id@),
        batch_is_recorded(batch, calls, model_id, origin, batch_id),
        forall|i: int| 0 <= i < between.len() ==> !((#[trigger] between[i]).kind is ToolCall),
        pause_is_recorded(ask, request, calls[at], requester),
        forall|i: int| 0 <= i < queued.len() ==> (#[trigger] queued[i]).kind is SteeringQueued,
        identities_differ(earlier + batch),
    ensures
        ({
            let journal = earlier + batch + between + seq![ask, request] + queued;
            let point = ResumePoint {
                approval: (earlier.len() + batch.len() + between.len() + 1) as int,
                call: earlier.len() + at,
                start: earlier.len() as int,
                size: calls.len() as int,
            };
            &&& resume_point(journal, requester) == Ok::<ResumePoint, ErrorView>(point)
            &&& reports(evidence, journal, point) ==> evidence_carries(
                evidence,
                earlier,
                ask,
                request,
                calls,
                at,
                model_id,
                origin,
            )
        }),
{
    let items = earlier + batch + between + seq![ask, request];
    let start = earlier.len() as int;
    let size = calls.len() as int;
    let approval = start + size + between.len() + 1;
    let call = start + at;
    law_queued_steering_keeps_the_approval_boundary(items, queued, requester, evidence);
    assert(items.len() == approval + 1);
    assert(items.last() == request && items[approval] == request && items[approval - 1] == ask);
    assert(boundary_end(items) == items.len());
    assert(items[call] == batch[at]);
    assert(identities_differ(items)) by {
        let calls_only = earlier + batch;
        assert forall|i: int, j: int|
            0 <= i < j < items.len() && recorded_identity(#[trigger] items[i]) is Some implies recorded_identity(items[i])
            != recorded_identity(#[trigger] items[j]) by {
            if i >= start + size && i < approval - 1 {
                assert(items[i] == between[i - start - size]);
            }
            assert(items[i] == calls_only[i]);
            if j >= start + size {
                if j < approval - 1 {
                    assert(items[j] == between[j - start - size]);
                }
                assert(recorded_identity(items[j]) is None);
            } else {
                assert(items[j] == calls_only[j]);
            }
        }
    }
    lemma_identities(items);
    assert(is_call(items[call], calls[at].call_id@));
    lemma_found(items, call, approval - 1, calls[at].call_id@);
    let members = ToolCallBatch { id: batch_id, index: at as usize, size: calls.len() as usize };
    assert(items.subrange(start, start + size) =~= batch);
    lemma_members(items, start, calls, 0, members, model_id, origin);
    let point = ResumePoint { approval, call, start, size };
    assert(resume_point(items, requester) == Ok::<ResumePoint, ErrorView>(point));
    if reports(evidence, items, point) {
        assert forall|i: int| 0 <= i < size implies #[trigger] evidence.batch_calls@[i] == calls[i] by {
            assert(items[start + i] == batch[i]);
        }
        assert(evidence.batch_calls@ =~= calls);
        if start > 0 {
            assert(items[start - 1] == earlier.last());
        }
    }
}

/// A call that the Model proposed alone can be resumed in the same way, where
/// Policy asked about it right behind it.
pub proof fn law_paused_calls_can_be_resumed(
    earlier: Seq<Item>,
    proposal: Item,
    ask: Item,
    request: Item,
    queued: Seq<Item>,
    call: ModelToolCall,
    model_id: String,
    origin: CapabilityOrigin,
    requester: ActorView,
    evidence: ApprovalResumeEvidence,
)
    requires
        model_id_is_valid(model_id@),
        proposal_is_recorded(proposal, call, model_id, origin, None),
        pause_is_recorded(ask, request, call, requester),
        forall|i: int| 0 <= i < queued.len() ==> (#[trigger] queued[i]).kind is SteeringQueued,
        identities_differ(earlier.push(proposal)),
    ensures
        ({
            let journal = earlier + seq![proposal, ask, request] + queued;
            let start = earlier.len() as int;
            let point = ResumePoint { approval: start + 2, call: start, start, size: 1 };
            &&& resume_point(journal, requester) == Ok::<ResumePoint, ErrorView>(point)
            &&& reports(evidence, journal, point) ==> evidence_carries(
                evidence,
                earlier,
                ask,
                request,
                seq![call],
                0,
                model_id,
                origin,
            )
        }),
{
    let items = earlier + seq![proposal, ask, request];
    let start = earlier.len() as int;
    law_queued_steering_keeps_the_approval_boundary(items, queued, requester, evidence);
    assert(items.last() == request && items[start + 2] == request && items[start + 1] == ask && items[start] == proposal);
    assert(boundary_end(items) == items.len());
    assert(identities_differ(items)) by {
        let calls_only = earlier.push(proposal);
        assert forall|i: int, j: int|
            0 <= i < j < items.len() && recorded_identity(#[trigger] items[i]) is Some implies recorded_identity(items[i])
            != recorded_identity(#[trigger] items[j]) by {
            assert(items[i] == calls_only[i]);
            if j <= start {
                assert(items[j] == calls_only[j]);
            } else {
                assert(recorded_identity(items[j]) is None);
            }
        }
    }
    lemma_identities(items);
    assert(is_call(items[start], call.call_id@));
    lemma_found(items, start, start + 1, call.call_id@);
    let point = ResumePoint { approval: start + 2, call: start, start, size: 1 };
    assert(resume_point(items, requester) == Ok::<ResumePoint, ErrorView>(point));
    if reports(evidence, items, point) {
        assert(items[start + 0] == proposal);
        assert(evidence.batch_calls@ =~= seq![call]);
        if start > 0 {
            assert(items[start - 1] == earlier.last());
        }
    }
}

/// A resumed Turn has used one step for every answer, for every call that was
/// proposed alone or first in its batch, and for every reply that steering
/// replaced; and every identity of a recorded call is used up.
pub proof fn law_resumed_turns_have_used_their_steps(items: Seq<Item>, evidence: ApprovalResumeEvidence, point: ResumePoint)
    requires
        reports(evidence, items, point),
    ensures
        evidence.consumed_steps == items.filter(
            |item: Item|
                match item.kind {
                    ItemKind::AssistantMessage { .. } => true,
                    ItemKind::ToolCall { batch: None, .. } => true,
                    ItemKind::ToolCall { batch: Some(batch), .. } => batch.index == 0,
                    ItemKind::SteeringApplied { .. } => item.replaces_reply,
                    _ => false,
                },
        ).len(),
        forall|id: Seq<char>|
            #[trigger] evidence.tool_call_ids@.contains_key(id) <==> exists|i: int|
                0 <= i < items.len() && recorded_identity(#[trigger] items[i]) == Some(id),
{
    lemma_steps(items);
    assert forall|id: Seq<char>| #[trigger] evidence.tool_call_ids@.contains_key(id) <==> exists|i: int|
        0 <= i < items.len() && recorded_identity(#[trigger] items[i]) == Some(id) by {
        assert(evidence.tool_call_ids@.dom().contains(id) == used_call_ids(items).contains(id));
        if used_call_ids(items).contains(id) {
            let i = choose|i: int| 0 <= i < items.len() && is_call(#[trigger] items[i], id);
            assert(recorded_identity(items[i]) == Some(id));
        }
        if exists|i: int| 0 <= i < items.len() && recorded_identity(#[trigger] items[i]) == Some(id) {
            let i = choose|i: int| 0 <= i < items.len() && recorded_identity(#[trigger] items[i]) == Some(id);
            assert(is_call(items[i], id));
        }
    }
}

proof fn lemma_steps(items: Seq<Item>)
    ensures
        consumed_steps(items) == items.filter(
            |item: Item|
                match item.kind {
                    ItemKind::AssistantMessage { .. } => true,
                    ItemKind::ToolCall { batch: None, .. } => true,
                    ItemKind::ToolCall { batch: Some(batch), .. } => batch.index == 0,
                    ItemKind::SteeringApplied { .. } => item.replaces_reply,
                    _ => false,
                },
        ).len(),
    decreases items.len(),
{
    reveal(Seq::filter);
    if items.len() > 0 {
        lemma_steps(items.drop_last());
    }
}

/// Only what was recorded is resumed. Where a Turn can be resumed, the last
/// item but for queued steering is an approval request by the very party that
/// resumes, right behind the question of Policy that it repeats; the call in
/// question stands before them with a valid Model identity, and is the only
/// one with its identity.
pub proof fn law_only_recorded_pauses_are_resumed(items: Seq<Item>, requester: ActorView)
    requires
        resume_point(items, requester) is Ok,
    ensures
        ({
            let point = resume_point(items, requester)->Ok_0;
            &&& 0 <= point.start <= point.call < point.approval - 1
            &&& point.start + point.size < point.approval < items.len()
            &&& forall|i: int| point.approval < i < items.len() ==> (#[trigger] items[i]).kind is SteeringQueued
            &&& identities_differ(items)
            &&& items[point.call].kind matches ItemKind::ToolCall {
                model_id: Some(model_id),
                model_origin: Some(model_origin),
                call_id,
                name,
                input,
                batch,
            } && model_id_is_valid(model_id@) && pause_is_recorded(
                items[point.approval - 1],
                items[point.approval],
                ModelToolCall { call_id, name, input },
                requester,
            ) && match batch {
                None => point.start == point.call && point.size == 1 && point.approval == point.call + 2,
                Some(batch) => point.start == point.call - batch.index && point.size == batch.size && forall|k: int|
                    0 <= k < point.size ==> ((#[trigger] items[point.start + k]).kind matches ItemKind::ToolCall {
                        model_id: Some(member_model),
                        model_origin: Some(member_origin),
                        batch: Some(member),
                        ..
                    } && member.id@ == batch.id@ && member.index == k && member.size == batch.size && member_model@
                        == model_id@ && member_origin@ == model_origin@),
            }
        }),
{
    let approval = boundary_end(items) - 1;
    lemma_trailing(items);
    match items[approval].kind {
        ItemKind::ApprovalRequested { call_id, .. } => {
            lemma_last(items, approval - 1, call_id@);
            let call = last_call(items, approval - 1, call_id@)->0;
            match items[call].kind {
                ItemKind::ToolCall { model_id: Some(model_id), model_origin: Some(origin), batch: Some(batch), .. } => {
                    let start = call - batch.index;
                    lemma_faultless(items, start, 0, batch, model_id@, origin@);
                },
                _ => {},
            }
        },
        _ => {},
    }
    lemma_reuse(items);
}

proof fn lemma_trailing(items: Seq<Item>)
    ensures
        0 <= boundary_end(items) <= items.len(),
        forall|i: int| boundary_end(items) <= i < items.len() ==> (#[trigger] items[i]).kind is SteeringQueued,
    decreases items.len(),
{
    if items.len() > 0 && items.last().kind is SteeringQueued {
        lemma_trailing(items.drop_last());
        assert forall|i: int| boundary_end(items) <= i < items.len() implies (#[trigger] items[i]).kind is SteeringQueued by {
            if i < items.len() - 1 {
                assert(items.drop_last()[i].kind is SteeringQueued);
            }
        }
    }
}

proof fn lemma_last(items: Seq<Item>, end: int, call_id: Seq<char>)
    ensures
        last_call(items, end, call_id) matches Some(at) ==> 0 <= at < end && is_call(items[at], call_id),
    decreases end,
{
    if end > 0 {
        lemma_last(items, end - 1, call_id);
    }
}

proof fn lemma_faultless(
    items: Seq<Item>,
    start: int,
    from: int,
    batch: ToolCallBatch,
    model_id: Seq<char>,
    origin: OriginView,
)
    requires
        0 <= from,
        batch_fault(items, start, from, batch, model_id, origin) is None,
    ensures
        forall|k: int|
            from <= k < batch.size ==> ((#[trigger] items[start + k]).kind matches ItemKind::ToolCall {
                model_id: Some(member_model),
                model_origin: Some(member_origin),
                batch: Some(member),
                ..
            } && member.id@ == batch.id@ && member.index == k && member.size == batch.size && member_model@ == model_id
                && member_origin@ == origin),
    decreases batch.size - from,
{
    if from < batch.size {
        lemma_faultless(items, start, from + 1, batch, model_id, origin);
    }
}

proof fn lemma_reuse(items: Seq<Item>)
    requires
        !reuses_call_id(items),
    ensures
        identities_differ(items),
{
    assert forall|i: int, j: int|
        0 <= i < j < items.len() && recorded_identity(#[trigger] items[i]) is Some implies recorded_identity(items[i])
        != recorded_identity(#[trigger] items[j]) by {
        let id = recorded_identity(items[i])->0;
        assert(is_call(items[i], id));
        if recorded_identity(items[j]) == Some(id) {
            assert(is_call(items[j], id));
        }
    }
}

} // verus!
