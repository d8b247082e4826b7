//! Evidence for resuming a Turn that waits for an approval.

use vstd::prelude::*;

use crate::capability::{RegisteredTool, ToolRegistry};
use crate::error::{settles, ErrorView, HarnessError};
use crate::items::{
    ApprovalDecision, ExecutionBinding, Item, ItemKind, ModelToolCall, PolicyDecision, RiskLevel, ToolCallBatch, Turn,
};
use crate::json::JsonDocument;
use crate::kernel::{
    model_id_is_valid, validate_model_id, ActorIdentity, ActorView, ApprovalId, CapabilityOrigin, OriginView,
};
use crate::table::Table;
use crate::text::{join3, same_text};

verus! {

/// Everything that is known of the call for which a Turn is paused.
pub struct ApprovalResumeEvidence {
    /// Identity of the approval request.
    pub approval_id: ApprovalId,
    /// Correlation identity of the call.
    pub call_id: String,
    /// Name of the Tool.
    pub tool: String,
    /// Input of the Tool.
    pub input: JsonDocument,
    /// Reason given by Policy.
    pub reason: String,
    /// Risk given by Policy.
    pub risk: RiskLevel,
    /// Party that requested the approval.
    pub requested_by: ActorIdentity,
    /// Provenance of the Tool.
    pub tool_origin: CapabilityOrigin,
    /// Model that proposed the call.
    pub model_id: String,
    /// Provenance of the Model.
    pub model_origin: CapabilityOrigin,
    /// Digest of the Model request that led to the call.
    pub model_request_sha256: String,
    /// Number of items that the Model had seen.
    pub model_request_item_index: usize,
    /// Calls that the Model proposed together.
    pub batch_calls: Vec<ModelToolCall>,
    /// Position of the paused call among them.
    pub current_batch_index: usize,
    /// Agent Loop steps that the Turn has used.
    pub consumed_steps: usize,
    /// Correlation identities that the Turn has used.
    pub tool_call_ids: Table<()>,
}

/// Where the pieces of a paused call stand in a journal.
pub struct ResumePoint {
    /// Index of the approval request; the decision of Policy stands before it.
    pub approval: int,
    /// Index of the paused call.
    pub call: int,
    /// Index of the first call of its batch.
    pub start: int,
    /// Number of calls in its batch.
    pub size: int,
}

/// Number of items before the trailing steering submissions.
pub open spec fn boundary_end(items: Seq<Item>) -> int
    decreases items.len(),
{
    if items.len() == 0 {
        0
    } else if items.last().kind is SteeringQueued {
        boundary_end(items.drop_last())
    } else {
        items.len() as int
    }
}

/// Whether an item is the call with this correlation identity.
pub open spec fn is_call(item: Item, call_id: Seq<char>) -> bool {
    item.kind matches ItemKind::ToolCall { call_id: id, .. } && id@ == call_id
}

/// Index of the last call with this correlation identity before `end`.
pub open spec fn last_call(items: Seq<Item>, end: int, call_id: Seq<char>) -> Option<int>
    decreases end,
{
    if end <= 0 {
        None
    } else if is_call(items[end - 1], call_id) {
        Some(end - 1)
    } else {
        last_call(items, end - 1, call_id)
    }
}

/// Whether an item is Provider state of one Model.
pub open spec fn is_continuation_of(item: Item, model_id: Seq<char>, origin: OriginView) -> bool {
    item.kind matches ItemKind::ProviderContinuation { model_id: id, model_origin, .. } && id@ == model_id
        && model_origin@ == origin
}

/// Number of items that a Model had seen before a decision that begins at
/// `decision_start`: a continuation of the same Model belongs to the decision.
pub open spec fn request_boundary(items: Seq<Item>, decision_start: int, model_id: Seq<char>, origin: OriginView) -> int {
    if decision_start > 0 && is_continuation_of(items[decision_start - 1], model_id, origin) {
        decision_start - 1
    } else {
        decision_start
    }
}

/// Agent Loop steps that a journal records: every answer, every call that
/// opens a decision of its own, and every reply that steering overtook.
pub open spec fn consumed_steps(items: Seq<Item>) -> nat
    decreases items.len(),
{
    if items.len() == 0 {
        0
    } else {
        consumed_steps(items.drop_last()) + if opens_step(items.last()) {
            1nat
        } else {
            0nat
        }
    }
}

/// Whether an item begins the outcome of one Agent Loop step.
pub open spec fn opens_step(item: Item) -> bool {
    (item.replaces_reply && item.kind is SteeringApplied) || opens_decision(item.kind)
}

/// Whether a record begins a decision of a Model.
pub open spec fn opens_decision(kind: ItemKind) -> bool {
    match kind {
        ItemKind::AssistantMessage { .. } => true,
        ItemKind::ToolCall { batch, .. } => batch is None || batch->0.index == 0,
        _ => false,
    }
}

/// Correlation identities of the calls in a journal.
pub open spec fn used_call_ids(items: Seq<Item>) -> Set<Seq<char>> {
    Set::new(|id: Seq<char>| exists|i: int| 0 <= i < items.len() && is_call(#[trigger] items[i], id))
}

/// Whether two calls of a journal share a correlation identity.
pub open spec fn reuses_call_id(items: Seq<Item>) -> bool {
    exists|i: int, j: int, id: Seq<char>|
        0 <= i < j < items.len() && #[trigger] is_call(items[i], id) && #[trigger] is_call(items[j], id)
}

/// Whether an item is a batch call with complete provenance.
pub open spec fn is_batch_call(item: Item) -> bool {
    item.kind matches ItemKind::ToolCall { model_id: Some(_), model_origin: Some(_), batch: Some(_), .. }
}

/// Whether a complete batch call is member `k` of the batch of one Model.
pub open spec fn is_member(item: Item, k: int, batch: ToolCallBatch, model_id: Seq<char>, origin: OriginView) -> bool {
    item.kind matches ItemKind::ToolCall { model_id: Some(id), model_origin: Some(from), batch: Some(own), .. }
        && own.id@ == batch.id@ && own.index == k && own.size == batch.size && id@ == model_id && from@ == origin
}

/// First fault among the members of a batch, from member `k` on.
pub open spec fn batch_fault(
    items: Seq<Item>,
    start: int,
    k: int,
    batch: ToolCallBatch,
    model_id: Seq<char>,
    origin: OriginView,
) -> Option<ErrorView>
    decreases batch.size - k,
{
    if k >= batch.size {
        None
    } else if !is_batch_call(items[start + k]) {
        Some(ErrorView::State("approval continuation Tool-call batch is incomplete"@))
    } else if !is_member(items[start + k], k, batch, model_id, origin) {
        Some(ErrorView::State("approval continuation Tool-call batch evidence is inconsistent"@))
    } else {
        batch_fault(items, start, k + 1, batch, model_id, origin)
    }
}

/// Where the batch of a paused call stands, or why it is unusable.
pub open spec fn batch_point(
    items: Seq<Item>,
    approval: int,
    call: int,
    batch: Option<ToolCallBatch>,
    model_id: Seq<char>,
    origin: OriginView,
) -> Result<ResumePoint, ErrorView> {
    match batch {
        Some(batch) => {
            let start = call - batch.index;
            if start < 0 {
                Err(ErrorView::State("approval continuation Tool-call batch starts before the Turn"@))
            } else if start + batch.size > usize::MAX {
                Err(ErrorView::State("approval continuation Tool-call batch size overflow"@))
            } else if start + batch.size > approval - 1 {
                Err(ErrorView::State("approval continuation Tool-call batch overlaps Policy evidence"@))
            } else {
                match batch_fault(items, start, 0, batch, model_id, origin) {
                    Some(fault) => Err(fault),
                    None => Ok(ResumePoint { approval, call, start, size: batch.size as int }),
                }
            }
        },
        None => if approval - 1 != call + 1 {
            Err(ErrorView::State("single approval continuation is not adjacent to its Tool call"@))
        } else {
            Ok(ResumePoint { approval, call, start: call, size: 1 })
        },
    }
}

/// Where the pieces of a paused call stand once the call is known, or why the
/// call cannot be resumed.
pub open spec fn call_point(items: Seq<Item>, requester: ActorView, approval: int, call: int) -> Result<ResumePoint, ErrorView> {
    match (items[approval].kind, items[approval - 1].kind, items[call].kind) {
        (
            ItemKind::ApprovalRequested { tool, requested_by, tool_origin, model_request_sha256, .. },
            ItemKind::PolicyDecision { tool_origin: policy_origin, .. },
            ItemKind::ToolCall { model_id, model_origin, name, batch, .. },
        ) => {
            if model_id is None {
                Err(ErrorView::State("legacy approval continuation has no recorded Model identity"@))
            } else if !model_id_is_valid(model_id->0@) {
                Err(ErrorView::State("approval continuation contains an invalid Model identity"@))
            } else if model_origin is None {
                Err(ErrorView::State("legacy approval continuation has no recorded Model origin"@))
            } else if tool@ != name@ {
                Err(ErrorView::State("approval continuation correlation evidence is inconsistent"@))
            } else if requested_by is None {
                Err(ErrorView::State("legacy approval request has no resumable requester evidence"@))
            } else if tool_origin is None {
                Err(ErrorView::State("legacy approval request has no resumable Tool origin"@))
            } else if policy_origin is Some && policy_origin->0@ != tool_origin->0@ {
                Err(ErrorView::State("approval continuation Policy and request Tool origins differ"@))
            } else if model_request_sha256 is None {
                Err(ErrorView::State("legacy approval request has no resumable Model request fingerprint"@))
            } else if requested_by->0@ != requester {
                Err(ErrorView::Approval("approval continuation requester differs from the original Turn actor"@))
            } else {
                match batch_point(items, approval, call, batch, model_id->0@, model_origin->0@) {
                    Err(fault) => Err(fault),
                    Ok(point) => if reuses_call_id(items) {
                        Err(ErrorView::State("approval continuation contains duplicate Tool call identities"@))
                    } else {
                        Ok(point)
                    },
                }
            }
        },
        _ => Err(ErrorView::State("approval continuation has no correlated Tool call"@)),
    }
}

/// Where the pieces of a paused call stand in a journal, or why the journal
/// is not paused at a resumable approval.
pub open spec fn resume_point(items: Seq<Item>, requester: ActorView) -> Result<ResumePoint, ErrorView> {
    let approval = boundary_end(items) - 1;
    if approval < 1 {
        Err(ErrorView::State("running Turn has no complete pre-Tool approval continuation boundary"@))
    } else {
        match items[approval].kind {
            ItemKind::ApprovalRequested { call_id, reason, risk, .. } => match items[approval - 1].kind {
                ItemKind::PolicyDecision {
                    call_id: policy_call_id,
                    decision: PolicyDecision::Ask { reason: ask_reason, risk: ask_risk },
                    ..
                } => if policy_call_id@ != call_id@ || reason@ != ask_reason@ || risk != ask_risk {
                    Err(ErrorView::State("approval continuation Policy and request evidence is inconsistent"@))
                } else {
                    match last_call(items, approval - 1, call_id@) {
                        None => Err(ErrorView::State("approval continuation has no correlated Tool call"@)),
                        Some(call) => call_point(items, requester, approval, call),
                    }
                },
                _ => Err(ErrorView::State("approval continuation has no immediately preceding Ask decision"@)),
            },
            _ => Err(ErrorView::State("running Turn is not paused at an approval request"@)),
        }
    }
}

/// Whether a proposed call is the one that an item records.
pub open spec fn records_call(item: Item, call: ModelToolCall) -> bool {
    item.kind matches ItemKind::ToolCall { call_id, name, input, .. } && call == (ModelToolCall { call_id, name, input })
}

/// Whether evidence reports what stands at a resume point.
pub open spec fn reports(evidence: ApprovalResumeEvidence, items: Seq<Item>, point: ResumePoint) -> bool {
    &&& items[point.approval].kind matches ItemKind::ApprovalRequested {
        approval_id,
        tool,
        requested_by,
        tool_origin,
        model_request_sha256,
        ..
    } && evidence.approval_id == approval_id && evidence.tool == tool && Some(evidence.requested_by) == requested_by
        && Some(evidence.tool_origin) == tool_origin && Some(evidence.model_request_sha256) == model_request_sha256
    &&& items[point.approval - 1].kind matches ItemKind::PolicyDecision { decision: PolicyDecision::Ask { reason, risk }, .. }
        && evidence.reason == reason && evidence.risk == risk
    &&& items[point.call].kind matches ItemKind::ToolCall { model_id, model_origin, call_id, input, .. }
        && evidence.call_id == call_id && evidence.input == input && Some(evidence.model_id) == model_id && Some(
        evidence.model_origin,
    ) == model_origin
    &&& evidence.model_request_item_index == request_boundary(
        items,
        point.start,
        evidence.model_id@,
        evidence.model_origin@,
    )
    &&& evidence.batch_calls@.len() == point.size
    &&& forall|k: int|
        0 <= k < point.size ==> records_call(#[trigger] items[point.start + k], evidence.batch_calls@[k])
    &&& evidence.current_batch_index == point.call - point.start
    &&& evidence.consumed_steps == consumed_steps(items)
    &&& evidence.tool_call_ids@.dom() == used_call_ids(items)
}

pub(crate) fn state_error(message: &str) -> (error: HarnessError)
    ensures
        error@ == ErrorView::State(message@),
{
    HarnessError::State(message.to_owned())
}

fn boundary(items: &Vec<Item>) -> (end: usize)
    ensures
        end == boundary_end(items@),
        end <= items@.len(),
{
    let mut end: usize = items.len();
    assert(items@.take(end as int) =~= items@);
    while end > 0 && matches!(items[end - 1].kind, ItemKind::SteeringQueued { .. })
        invariant
            end <= items@.len(),
            boundary_end(items@.take(end as int)) == boundary_end(items@),
        decreases end,
    {
        proof {
            assert(items@.take(end as int).drop_last() =~= items@.take(end - 1));
        }
        end = end - 1;
    }
    end
}

fn find_call(items: &Vec<Item>, end: usize, call_id: &str) -> (index: Option<usize>)
    requires
        end <= items@.len(),
    ensures
        match index {
            Some(index) => last_call(items@, end as int, call_id@) == Some(index as int) && index < end && is_call(
                items@[index as int],
                call_id@,
            ),
            None => last_call(items@, end as int, call_id@) is None,
        },
{
    let mut at: usize = end;
    while at > 0
        invariant
            at <= end <= items@.len(),
            last_call(items@, at as int, call_id@) == last_call(items@, end as int, call_id@),
        decreases at,
    {
        if let ItemKind::ToolCall { call_id: id, .. } = &items[at - 1].kind {
            if same_text(id.as_str(), call_id) {
                return Some(at - 1);
            }
        }
        at = at - 1;
    }
    None
}

/// Finds the number of items that a Model had seen before a decision.
pub fn model_request_boundary(
    items: &Vec<Item>,
    decision_start: usize,
    model_id: &str,
    model_origin: &CapabilityOrigin,
) -> (boundary: usize)
    requires
        decision_start <= items@.len(),
    ensures
        boundary == request_boundary(items@, decision_start as int, model_id@, model_origin@),
{
    if decision_start > 0 {
        if let ItemKind::ProviderContinuation { model_id: id, model_origin: origin, .. } = &items[decision_start - 1].kind {
            if same_text(id.as_str(), model_id) && origin.same(model_origin) {
                return decision_start - 1;
            }
        }
    }
    decision_start
}

fn batch_members(
    items: &Vec<Item>,
    start: usize,
    batch: &ToolCallBatch,
    model_id: &str,
    model_origin: &CapabilityOrigin,
) -> (result: Result<Vec<ModelToolCall>, HarnessError>)
    requires
        start + batch.size <= items@.len(),
    ensures
        match result {
            Ok(calls) => batch_fault(items@, start as int, 0, *batch, model_id@, model_origin@) is None
                && calls@.len() == batch.size && forall|k: int|
                0 <= k < batch.size ==> records_call(#[trigger] items@[start + k], calls@[k]),
            Err(error) => batch_fault(items@, start as int, 0, *batch, model_id@, model_origin@) == Some(error@),
        },
{
    let total: usize = items.len();
    let mut calls: Vec<ModelToolCall> = Vec::new();
    let mut k: usize = 0;
    while k < batch.size
        invariant
            k <= batch.size,
            total == items@.len(),
            start + batch.size <= total,
            calls@.len() == k,
            forall|j: int| 0 <= j < k ==> records_call(#[trigger] items@[start + j], calls@[j]),
            batch_fault(items@, start as int, 0, *batch, model_id@, model_origin@) == batch_fault(
                items@,
                start as int,
                k as int,
                *batch,
                model_id@,
                model_origin@,
            ),
        decreases batch.size - k,
    {
        match &items[start + k].kind {
            ItemKind::ToolCall {
                model_id: Some(candidate_model_id),
                model_origin: Some(candidate_model_origin),
                call_id,
                name,
                input,
                batch: Some(candidate_batch),
            } => {
                if !candidate_batch.id.same(&batch.id) || candidate_batch.index != k || candidate_batch.size != batch.size
                    || !same_text(candidate_model_id.as_str(), model_id) || !candidate_model_origin.same(model_origin) {
                    return Err(state_error("approval continuation Tool-call batch evidence is inconsistent"));
                }
                let ghost before = calls@;
                calls.push(ModelToolCall { call_id: call_id.clone(), name: name.clone(), input: input.clone() });
                proof {
                    assert forall|j: int| 0 <= j < k + 1 implies records_call(#[trigger] items@[start + j], calls@[j]) by {
                        if j < k {
                            assert(calls@[j] == before[j]);
                        }
                    }
                }
            },
            _ => {
                return Err(state_error("approval continuation Tool-call batch is incomplete"));
            },
        }
        k = k + 1;
    }
    Ok(calls)
}

fn begins_step(item: &Item) -> (result: bool)
    ensures
        result == opens_step(*item),
{
    match &item.kind {
        ItemKind::SteeringApplied { .. } => item.replaces_reply,
        ItemKind::AssistantMessage { .. } => true,
        ItemKind::ToolCall { batch: Some(batch), .. } => batch.index == 0,
        ItemKind::ToolCall { batch: None, .. } => true,
        _ => false,
    }
}

fn used_calls(items: &Vec<Item>) -> (result: Result<(usize, Table<()>), HarnessError>)
    ensures
        match result {
            Ok((steps, ids)) => !reuses_call_id(items@) && steps == consumed_steps(items@) && ids@.dom() == used_call_ids(
                items@,
            ),
            Err(error) => reuses_call_id(items@) && error@ == ErrorView::State(
                "approval continuation contains duplicate Tool call identities"@,
            ),
        },
{
    let mut steps: usize = 0;
    let mut ids: Table<()> = Table::new();
    assert(ids@.dom() =~= used_call_ids(items@.take(0)));
    let mut i: usize = 0;
    while i < items.len()
        invariant
            i <= items@.len(),
            steps <= i,
            steps == consumed_steps(items@.take(i as int)),
            ids@.dom() == used_call_ids(items@.take(i as int)),
            !reuses_call_id(items@.take(i as int)),
        decreases items@.len() - i,
    {
        let ghost shorter = items@.take(i as int);
        let ghost longer = items@.take(i + 1);
        let ghost item = items@[i as int];
        proof {
            assert(longer.drop_last() =~= shorter);
            assert(longer.last() == item);
            assert forall|k: int| 0 <= k < i implies longer[k] == shorter[k] by {}
        }
        if begins_step(&items[i]) {
            steps = steps + 1;
        }
        match &items[i].kind {
            ItemKind::ToolCall { call_id, .. } => {
                if ids.contains(call_id.as_str()) {
                    proof {
                        let j = choose|j: int| 0 <= j < shorter.len() && is_call(#[trigger] shorter[j], call_id@);
                        assert(is_call(items@[j], call_id@) && is_call(items@[i as int], call_id@));
                    }
                    return Err(state_error("approval continuation contains duplicate Tool call identities"));
                }
                ids.insert(call_id.clone(), ());
                proof {
                    lemma_new_call(items@, i as int, call_id@);
                }
            },
            _ => {
                proof {
                    lemma_no_call(items@, i as int);
                }
            },
        }
        i += 1;
    }
    assert(items@.take(i as int) =~= items@);
    Ok((steps, ids))
}

proof fn lemma_no_call(items: Seq<Item>, i: int)
    requires
        0 <= i < items.len(),
        !(items[i].kind is ToolCall),
    ensures
        used_call_ids(items.take(i + 1)) == used_call_ids(items.take(i)),
        reuses_call_id(items.take(i + 1)) == reuses_call_id(items.take(i)),
{
    let (shorter, longer) = (items.take(i), items.take(i + 1));
    assert forall|id: Seq<char>| used_call_ids(longer).contains(id) == used_call_ids(shorter).contains(id) by {
        if used_call_ids(longer).contains(id) {
            let k = choose|k: int| 0 <= k < longer.len() && is_call(#[trigger] longer[k], id);
            assert(is_call(shorter[k], id));
        }
        if used_call_ids(shorter).contains(id) {
            let k = choose|k: int| 0 <= k < shorter.len() && is_call(#[trigger] shorter[k], id);
            assert(is_call(longer[k], id));
        }
    }
    assert(used_call_ids(longer) =~= used_call_ids(shorter));
    if reuses_call_id(longer) {
        let (a, b, id) = choose|a: int, b: int, id: Seq<char>|
            0 <= a < b < longer.len() && #[trigger] is_call(longer[a], id) && #[trigger] is_call(longer[b], id);
        assert(is_call(shorter[a], id) && is_call(shorter[b], id));
    }
    if reuses_call_id(shorter) {
        let (a, b, id) = choose|a: int, b: int, id: Seq<char>|
            0 <= a < b < shorter.len() && #[trigger] is_call(shorter[a], id) && #[trigger] is_call(shorter[b], id);
        assert(is_call(longer[a], id) && is_call(longer[b], id));
    }
}

proof fn lemma_new_call(items: Seq<Item>, i: int, new_id: Seq<char>)
    requires
        0 <= i < items.len(),
        is_call(items[i], new_id),
        !used_call_ids(items.take(i)).contains(new_id),
        !reuses_call_id(items.take(i)),
    ensures
        used_call_ids(items.take(i + 1)) == used_call_ids(items.take(i)).insert(new_id),
        !reuses_call_id(items.take(i + 1)),
{
    let (shorter, longer) = (items.take(i), items.take(i + 1));
    assert forall|id: Seq<char>|
        used_call_ids(longer).contains(id) == (used_call_ids(shorter).contains(id) || id == new_id) by {
        if used_call_ids(longer).contains(id) {
            let k = choose|k: int| 0 <= k < longer.len() && is_call(#[trigger] longer[k], id);
            if k < i {
                assert(is_call(shorter[k], id));
            }
        }
        if used_call_ids(shorter).contains(id) {
            let k = choose|k: int| 0 <= k < shorter.len() && is_call(#[trigger] shorter[k], id);
            assert(is_call(longer[k], id));
        }
        assert(is_call(longer[i], new_id));
    }
    assert(used_call_ids(longer) =~= used_call_ids(shorter).insert(new_id));
    if reuses_call_id(longer) {
        let (a, b, id) = choose|a: int, b: int, id: Seq<char>|
            0 <= a < b < longer.len() && #[trigger] is_call(longer[a], id) && #[trigger] is_call(longer[b], id);
        assert(is_call(shorter[a], id));
        if b < i {
            assert(is_call(shorter[b], id));
        }
    }
}

/// Collects the evidence for resuming a paused Turn.
///
/// Steering that was queued after the approval request does not move the
/// boundary. Every identity, origin and digest has to be recorded, and the
/// party that resumes has to be the one that asked.
pub fn approval_resume_evidence(turn: &Turn, expected_requester: &ActorIdentity) -> (result: Result<
    ApprovalResumeEvidence,
    HarnessError,
>)
    ensures
        match result {
            Ok(evidence) => resume_point(turn.items@, expected_requester@) matches Ok(point) && reports(
                evidence,
                turn.items@,
                point,
            ),
            Err(error) => resume_point(turn.items@, expected_requester@) == Err::<ResumePoint, ErrorView>(error@),
        },
{
    let items = &turn.items;
    let end: usize = boundary(items);
    if end < 2 {
        return Err(state_error("running Turn has no complete pre-Tool approval continuation boundary"));
    }
    let approval: usize = end - 1;
    let policy: usize = approval - 1;
    match (&items[approval].kind, &items[policy].kind) {
        (
            ItemKind::ApprovalRequested {
                approval_id,
                call_id: approval_call_id,
                tool,
                reason: approval_reason,
                risk: approval_risk,
                requested_by,
                tool_origin,
                model_request_sha256,
            },
            ItemKind::PolicyDecision {
                call_id: policy_call_id,
                tool_origin: policy_tool_origin,
                decision: PolicyDecision::Ask { reason, risk },
            },
        ) => {
            if !same_text(policy_call_id.as_str(), approval_call_id.as_str()) || !same_text(
                approval_reason.as_str(),
                reason.as_str(),
            ) || *approval_risk != *risk {
                return Err(state_error("approval continuation Policy and request evidence is inconsistent"));
            }
            let call: usize = match find_call(items, policy, approval_call_id.as_str()) {
                Some(call) => call,
                None => {
                    return Err(state_error("approval continuation has no correlated Tool call"));
                },
            };
            match &items[call].kind {
                ItemKind::ToolCall { model_id, model_origin, call_id, name, input, batch } => {
                    let model_id = match model_id {
                        Some(model_id) => model_id,
                        None => {
                            return Err(state_error("legacy approval continuation has no recorded Model identity"));
                        },
                    };
                    if validate_model_id(model_id.as_str()).is_err() {
                        return Err(state_error("approval continuation contains an invalid Model identity"));
                    }
                    let model_origin = match model_origin {
                        Some(model_origin) => model_origin,
                        None => {
                            return Err(state_error("legacy approval continuation has no recorded Model origin"));
                        },
                    };
                    if !same_text(tool.as_str(), name.as_str()) {
                        return Err(state_error("approval continuation correlation evidence is inconsistent"));
                    }
                    let requested_by = match requested_by {
                        Some(requested_by) => requested_by,
                        None => {
                            return Err(state_error("legacy approval request has no resumable requester evidence"));
                        },
                    };
                    let tool_origin = match tool_origin {
                        Some(tool_origin) => tool_origin,
                        None => {
                            return Err(state_error("legacy approval request has no resumable Tool origin"));
                        },
                    };
                    if let Some(origin) = policy_tool_origin {
                        if !origin.same(tool_origin) {
                            return Err(state_error("approval continuation Policy and request Tool origins differ"));
                        }
                    }
                    let model_request_sha256 = match model_request_sha256 {
                        Some(model_request_sha256) => model_request_sha256,
                        None => {
                            return Err(
                                state_error("legacy approval request has no resumable Model request fingerprint"),
                            );
                        },
                    };
                    if !requested_by.same(expected_requester) {
                        return Err(
                            HarnessError::Approval(
                                "approval continuation requester differs from the original Turn actor".to_owned(),
                            ),
                        );
                    }
                    let (start, batch_calls): (usize, Vec<ModelToolCall>) = match batch {
                        Some(batch) => {
                            if call < batch.index {
                                return Err(
                                    state_error("approval continuation Tool-call batch starts before the Turn"),
                                );
                            }
                            let start: usize = call - batch.index;
                            let end: usize = match start.checked_add(batch.size) {
                                Some(end) => end,
                                None => {
                                    return Err(state_error("approval continuation Tool-call batch size overflow"));
                                },
                            };
                            if end > policy {
                                return Err(
                                    state_error("approval continuation Tool-call batch overlaps Policy evidence"),
                                );
                            }
                            match batch_members(items, start, batch, model_id.as_str(), model_origin) {
                                Ok(calls) => (start, calls),
                                Err(error) => {
                                    return Err(error);
                                },
                            }
                        },
                        None => {
                            if policy != call + 1 {
                                return Err(
                                    state_error("single approval continuation is not adjacent to its Tool call"),
                                );
                            }
                            let mut calls: Vec<ModelToolCall> = Vec::new();
                            calls.push(
                                ModelToolCall { call_id: call_id.clone(), name: name.clone(), input: input.clone() },
                            );
                            (call, calls)
                        },
                    };
                    let (consumed, tool_call_ids): (usize, Table<()>) = match used_calls(items) {
                        Ok(used) => used,
                        Err(error) => {
                            return Err(error);
                        },
                    };
                    Ok(
                        ApprovalResumeEvidence {
                            approval_id: approval_id.clone(),
                            call_id: call_id.clone(),
                            tool: tool.clone(),
                            input: input.clone(),
                            reason: reason.clone(),
                            risk: *risk,
                            requested_by: requested_by.clone(),
                            tool_origin: tool_origin.clone(),
                            model_id: model_id.clone(),
                            model_origin: model_origin.clone(),
                            model_request_sha256: model_request_sha256.clone(),
                            model_request_item_index: model_request_boundary(
                                items,
                                start,
                                model_id.as_str(),
                                model_origin,
                            ),
                            batch_calls,
                            current_batch_index: call - start,
                            consumed_steps: consumed,
                            tool_call_ids,
                        },
                    )
                },
                _ => Err(state_error("approval continuation has no correlated Tool call")),
            }
        },
        (ItemKind::ApprovalRequested { .. }, _) => Err(
            state_error("approval continuation has no immediately preceding Ask decision"),
        ),
        _ => Err(state_error("running Turn is not paused at an approval request")),
    }
}

proof fn lemma_last_call(items: Seq<Item>, longer: Seq<Item>, end: int, call_id: Seq<char>)
    requires
        0 <= end <= items.len() <= longer.len(),
        forall|i: int| 0 <= i < items.len() ==> (#[trigger] longer[i]) == items[i],
    ensures
        last_call(longer, end, call_id) == last_call(items, end, call_id),
        last_call(items, end, call_id) matches Some(call) ==> 0 <= call < end,
    decreases end,
{
    if end > 0 {
        lemma_last_call(items, longer, end - 1, call_id);
        assert(longer[end - 1] == items[end - 1]);
    }
}

proof fn lemma_batch_fault(
    items: Seq<Item>,
    longer: Seq<Item>,
    start: int,
    k: int,
    batch: ToolCallBatch,
    model_id: Seq<char>,
    origin: OriginView,
)
    requires
        0 <= start,
        0 <= k,
        start + batch.size <= items.len() <= longer.len(),
        forall|i: int| 0 <= i < items.len() ==> (#[trigger] longer[i]) == items[i],
    ensures
        batch_fault(longer, start, k, batch, model_id, origin) == batch_fault(items, start, k, batch, model_id, origin),
    decreases batch.size - k,
{
    if k < batch.size {
        assert(longer[start + k] == items[start + k]);
        lemma_batch_fault(items, longer, start, k + 1, batch, model_id, origin);
    }
}

proof fn lemma_call_point(items: Seq<Item>, longer: Seq<Item>, requester: ActorView, approval: int, call: int)
    requires
        0 <= call < approval - 1,
        approval < items.len() <= longer.len(),
        forall|i: int| 0 <= i < items.len() ==> (#[trigger] longer[i]) == items[i],
        reuses_call_id(longer) == reuses_call_id(items),
    ensures
        call_point(longer, requester, approval, call) == call_point(items, requester, approval, call),
        call_point(items, requester, approval, call) matches Ok(point) ==> point.approval == approval && point.call == call
            && 0 <= point.start && 0 <= point.size && point.start + point.size < approval && point.start <= call,
{
    assert(longer[approval] == items[approval]);
    assert(longer[approval - 1] == items[approval - 1]);
    assert(longer[call] == items[call]);
    if let ItemKind::ToolCall { model_id: Some(model_id), model_origin: Some(origin), batch: Some(batch), .. } =
        items[call].kind {
        let start = call - batch.index;
        if 0 <= start && start + batch.size <= approval - 1 {
            lemma_batch_fault(items, longer, start, 0, batch, model_id@, origin@);
        }
    }
}

proof fn lemma_one_submission(items: Seq<Item>, queued: Item, requester: ActorView, evidence: ApprovalResumeEvidence)
    requires
        queued.kind is SteeringQueued,
    ensures
        resume_point(items.push(queued), requester) == resume_point(items, requester),
        resume_point(items, requester) matches Ok(point) ==> reports(evidence, items.push(queued), point) == reports(
            evidence,
            items,
            point,
        ),
{
    let longer = items.push(queued);
    let approval = boundary_end(items) - 1;
    assert(longer.drop_last() =~= items);
    lemma_boundary_end(items);
    assert(longer.take(items.len() as int) =~= items);
    assert(longer.take(longer.len() as int) =~= longer);
    lemma_no_call(longer, items.len() as int);
    assert(consumed_steps(longer) == consumed_steps(items));
    if approval >= 1 {
        assert(longer[approval] == items[approval]);
        assert(longer[approval - 1] == items[approval - 1]);
        if let ItemKind::ApprovalRequested { call_id, .. } = items[approval].kind {
            lemma_last_call(items, longer, approval - 1, call_id@);
            if let Some(call) = last_call(items, approval - 1, call_id@) {
                lemma_call_point(items, longer, requester, approval, call);
            }
        }
    }
    if let Ok(point) = resume_point(items, requester) {
        assert(longer[point.call] == items[point.call]);
        if point.start > 0 {
            assert(longer[point.start - 1] == items[point.start - 1]);
        }
        assert forall|k: int| 0 <= k < point.size implies #[trigger] longer[point.start + k] == items[point.start + k] by {}
        assert(reports(evidence, longer, point) ==> reports(evidence, items, point));
    }
}

proof fn lemma_boundary_end(items: Seq<Item>)
    ensures
        0 <= boundary_end(items) <= items.len(),
    decreases items.len(),
{
    if items.len() > 0 && items.last().kind is SteeringQueued {
        lemma_boundary_end(items.drop_last());
    }
}

/// Steering that is queued behind an approval request does not move the
/// boundary: whether the Turn can be resumed, why not, and the evidence for it
/// are those of the journal without it.
pub proof fn law_queued_steering_keeps_the_approval_boundary(
    items: Seq<Item>,
    queued: Seq<Item>,
    requester: ActorView,
    evidence: ApprovalResumeEvidence,
)
    requires
        forall|k: int| 0 <= k < queued.len() ==> (#[trigger] queued[k]).kind is SteeringQueued,
    ensures
        resume_point(items + queued, requester) == resume_point(items, requester),
        resume_point(items, requester) matches Ok(point) ==> reports(evidence, items + queued, point) == reports(
            evidence,
            items,
            point,
        ),
    decreases queued.len(),
{
    if queued.len() == 0 {
        assert(items + queued =~= items);
    } else {
        let fewer = queued.drop_last();
        assert forall|k: int| 0 <= k < fewer.len() implies (#[trigger] fewer[k]).kind is SteeringQueued by {
            assert(fewer[k] == queued[k]);
        }
        law_queued_steering_keeps_the_approval_boundary(items, fewer, requester, evidence);
        assert(queued.last() == queued[queued.len() - 1]);
        lemma_one_submission(items + fewer, queued.last(), requester, evidence);
        assert((items + fewer).push(queued.last()) =~= items + queued);
    }
}

/// Execution bindings that a journal records.
pub open spec fn recorded_bindings(items: Seq<Item>) -> Seq<ExecutionBinding>
    decreases items.len(),
{
    if items.len() == 0 {
        Seq::empty()
    } else {
        let earlier = recorded_bindings(items.drop_last());
        match items.last().kind {
            ItemKind::ExecutionBinding { binding, .. } => earlier.push(binding),
            _ => earlier,
        }
    }
}

/// Outcome of holding a recorded Turn against an expected binding.
pub open spec fn binding_check(items: Seq<Item>, expected: Option<ExecutionBinding>) -> Result<(), ErrorView> {
    let recorded = recorded_bindings(items);
    if recorded.len() > 1 {
        Err(ErrorView::State("Turn contains multiple execution bindings"@))
    } else if match expected {
        Some(expected) => recorded.len() == 1 && recorded[0]@ == expected@,
        None => recorded.len() == 0,
    } {
        Ok(())
    } else {
        Err(ErrorView::State("approval continuation execution binding does not match the recorded Turn"@))
    }
}

/// Checks that a Turn is resumed under the binding it was started with.
pub fn require_execution_binding(turn: &Turn, expected: Option<&ExecutionBinding>) -> (result: Result<(), HarnessError>)
    ensures
        settles(
            result,
            binding_check(
                turn.items@,
                match expected {
                    Some(expected) => Some(*expected),
                    None => None,
                },
            ),
        ),
{
    let items = &turn.items;
    let mut actual: Option<&ExecutionBinding> = None;
    let mut many: bool = false;
    let mut i: usize = 0;
    assert(recorded_bindings(items@.take(0)) =~= Seq::empty());
    while i < items.len()
        invariant
            i <= items@.len(),
            ({
                let recorded = recorded_bindings(items@.take(i as int));
                match actual {
                    None => recorded.len() == 0 && !many,
                    Some(binding) => recorded.len() >= 1 && *binding == recorded[0] && many == (recorded.len() > 1),
                }
            }),
        decreases items@.len() - i,
    {
        proof {
            assert(items@.take(i + 1).drop_last() =~= items@.take(i as int));
        }
        if let ItemKind::ExecutionBinding { binding, .. } = &items[i].kind {
            if actual.is_none() {
                actual = Some(binding);
            } else {
                many = true;
            }
        }
        i += 1;
    }
    assert(items@.take(i as int) =~= items@);
    if many {
        return Err(state_error("Turn contains multiple execution bindings"));
    }
    let matching = match (actual, expected) {
        (Some(actual), Some(expected)) => actual.same(expected),
        (None, None) => true,
        _ => false,
    };
    if matching {
        Ok(())
    } else {
        Err(state_error("approval continuation execution binding does not match the recorded Turn"))
    }
}

/// Prompts that a journal records.
pub open spec fn recorded_prompts(items: Seq<Item>) -> Seq<String>
    decreases items.len(),
{
    if items.len() == 0 {
        Seq::empty()
    } else {
        let earlier = recorded_prompts(items.drop_last());
        match items.last().kind {
            ItemKind::UserMessage { content } => earlier.push(content),
            _ => earlier,
        }
    }
}

/// The only prompt among those recorded, or why there is no such prompt.
pub open spec fn single_prompt(prompts: Seq<String>) -> Result<String, ErrorView> {
    if prompts.len() == 0 {
        Err(ErrorView::State("approval continuation Turn has no user prompt"@))
    } else if prompts.len() > 1 {
        Err(ErrorView::State("approval continuation Turn has multiple user prompts"@))
    } else {
        Ok(prompts[0])
    }
}

/// Returns the single prompt of a Turn.
pub fn turn_prompt(turn: &Turn) -> (result: Result<String, HarnessError>)
    ensures
        settles(result, single_prompt(recorded_prompts(turn.items@))),
{
    let items = &turn.items;
    let mut prompt: Option<&String> = None;
    let mut many: bool = false;
    let mut i: usize = 0;
    assert(recorded_prompts(items@.take(0)) =~= Seq::empty());
    while i < items.len()
        invariant
            i <= items@.len(),
            ({
                let prompts = recorded_prompts(items@.take(i as int));
                match prompt {
                    None => prompts.len() == 0 && !many,
                    Some(content) => prompts.len() >= 1 && *content == prompts[0] && many == (prompts.len() > 1),
                }
            }),
        decreases items@.len() - i,
    {
        proof {
            assert(items@.take(i + 1).drop_last() =~= items@.take(i as int));
        }
        if let ItemKind::UserMessage { content } = &items[i].kind {
            if prompt.is_none() {
                prompt = Some(content);
            } else {
                many = true;
            }
        }
        i += 1;
    }
    assert(items@.take(i as int) =~= items@);
    match prompt {
        None => Err(state_error("approval continuation Turn has no user prompt")),
        Some(content) => if many {
            Err(state_error("approval continuation Turn has multiple user prompts"))
        } else {
            Ok(content.clone())
        },
    }
}

/// Decisions of Policy that a journal records for one call.
pub open spec fn policy_decisions(items: Seq<Item>, call_id: Seq<char>) -> Seq<(Option<CapabilityOrigin>, PolicyDecision)>
    decreases items.len(),
{
    if items.len() == 0 {
        Seq::empty()
    } else {
        let earlier = policy_decisions(items.drop_last(), call_id);
        match items.last().kind {
            ItemKind::PolicyDecision { call_id: id, tool_origin, decision } => if id@ == call_id {
                earlier.push((tool_origin, decision))
            } else {
                earlier
            },
            _ => earlier,
        }
    }
}

/// Decisions of approvers that a journal records for one call.
pub open spec fn approval_decisions(items: Seq<Item>, call_id: Seq<char>) -> Seq<ApprovalDecision>
    decreases items.len(),
{
    if items.len() == 0 {
        Seq::empty()
    } else {
        let earlier = approval_decisions(items.drop_last(), call_id);
        match items.last().kind {
            ItemKind::ApprovalDecision { call_id: id, decision, .. } => if id@ == call_id {
                earlier.push(decision)
            } else {
                earlier
            },
            _ => earlier,
        }
    }
}

/// Whether a journal grants one call: Policy decided exactly once, on the Tool
/// as it is registered now, and did not deny; where Policy asked, exactly one
/// approver decided, and approved.
pub open spec fn call_authority(items: Seq<Item>, call: ModelToolCall, tools: Map<Seq<char>, RegisteredTool>) -> Result<
    (),
    ErrorView,
> {
    let decisions = policy_decisions(items, call.call_id@);
    let approvals = approval_decisions(items, call.call_id@);
    if !tools.contains_key(call.name@) {
        Err(ErrorView::State("approval continuation Tool "@ + call.name@ + " is not registered"@))
    } else if decisions.len() == 0 {
        Err(ErrorView::State("approval continuation Tool call "@ + call.call_id@ + " has no Policy decision"@))
    } else if decisions.len() > 1 || decisions[0].0 is None || decisions[0].0->0@ != tools[call.name@].origin@
        || decisions[0].1 is Deny {
        Err(
            ErrorView::State(
                "approval continuation Tool call "@ + call.call_id@ + " has inconsistent Policy authority"@,
            ),
        )
    } else if decisions[0].1 is Ask && !(approvals.len() == 1 && approvals[0] is Approve) {
        Err(ErrorView::State("approval continuation Tool call "@ + call.call_id@ + " is not approved"@))
    } else {
        Ok(())
    }
}

/// First fault among the calls of a resumed batch.
pub open spec fn batch_authority(
    items: Seq<Item>,
    calls: Seq<ModelToolCall>,
    tools: Map<Seq<char>, RegisteredTool>,
) -> Result<(), ErrorView>
    decreases calls.len(),
{
    if calls.len() == 0 {
        Ok(())
    } else {
        match batch_authority(items, calls.drop_last(), tools) {
            Err(fault) => Err(fault),
            Ok(()) => call_authority(items, calls.last(), tools),
        }
    }
}

fn require_call_authority(turn: &Turn, call: &ModelToolCall, tools: &ToolRegistry) -> (result: Result<(), HarnessError>)
    ensures
        settles(result, call_authority(turn.items@, *call, tools@)),
{
    let registered = match tools.get(call.name.as_str()) {
        Some(registered) => registered,
        None => {
            return Err(
                HarnessError::State(join3("approval continuation Tool ", call.name.as_str(), " is not registered")),
            );
        },
    };
    let items = &turn.items;
    let mut first: Option<(&Option<CapabilityOrigin>, &PolicyDecision)> = None;
    let mut many_decisions: bool = false;
    let mut approval: Option<&ApprovalDecision> = None;
    let mut many_approvals: bool = false;
    let mut i: usize = 0;
    assert(policy_decisions(items@.take(0), call.call_id@) =~= Seq::empty());
    assert(approval_decisions(items@.take(0), call.call_id@) =~= Seq::empty());
    while i < items.len()
        invariant
            i <= items@.len(),
            ({
                let decisions = policy_decisions(items@.take(i as int), call.call_id@);
                match first {
                    None => decisions.len() == 0 && !many_decisions,
                    Some(decision) => decisions.len() >= 1 && *decision.0 == decisions[0].0 && *decision.1 == decisions[0].1
                        && many_decisions == (decisions.len() > 1),
                }
            }),
            ({
                let approvals = approval_decisions(items@.take(i as int), call.call_id@);
                match approval {
                    None => approvals.len() == 0 && !many_approvals,
                    Some(decision) => approvals.len() >= 1 && *decision == approvals[0] && many_approvals == (
                    approvals.len() > 1),
                }
            }),
        decreases items@.len() - i,
    {
        proof {
            assert(items@.take(i + 1).drop_last() =~= items@.take(i as int));
        }
        match &items[i].kind {
            ItemKind::PolicyDecision { call_id, tool_origin, decision } => {
                if same_text(call_id.as_str(), call.call_id.as_str()) {
                    if first.is_none() {
                        first = Some((tool_origin, decision));
                    } else {
                        many_decisions = true;
                    }
                }
            },
            ItemKind::ApprovalDecision { call_id, decision, .. } => {
                if same_text(call_id.as_str(), call.call_id.as_str()) {
                    if approval.is_none() {
                        approval = Some(decision);
                    } else {
                        many_approvals = true;
                    }
                }
            },
            _ => {},
        }
        i += 1;
    }
    assert(items@.take(i as int) =~= items@);
    let (origin, decision) = match first {
        Some(first) => first,
        None => {
            return Err(
                HarnessError::State(
                    join3("approval continuation Tool call ", call.call_id.as_str(), " has no Policy decision"),
                ),
            );
        },
    };
    let same_origin = match origin {
        Some(origin) => origin.same(&registered.origin),
        None => false,
    };
    if many_decisions || !same_origin || matches!(decision, PolicyDecision::Deny { .. }) {
        return Err(
            HarnessError::State(
                join3("approval continuation Tool call ", call.call_id.as_str(), " has inconsistent Policy authority"),
            ),
        );
    }
    if matches!(decision, PolicyDecision::Ask { .. }) {
        let approved = match approval {
            Some(ApprovalDecision::Approve) => !many_approvals,
            _ => false,
        };
        if !approved {
            return Err(
                HarnessError::State(
                    join3("approval continuation Tool call ", call.call_id.as_str(), " is not approved"),
                ),
            );
        }
    }
    Ok(())
}

/// Checks that a journal grants every one of the calls.
pub fn validate_resumed_batch_authority(turn: &Turn, calls: &[ModelToolCall], tools: &ToolRegistry) -> (result: Result<
    (),
    HarnessError,
>)
    ensures
        settles(result, batch_authority(turn.items@, calls@, tools@)),
{
    let mut i: usize = 0;
    while i < calls.len()
        invariant
            i <= calls@.len(),
            batch_authority(turn.items@, calls@.take(i as int), tools@) is Ok,
        decreases calls@.len() - i,
    {
        proof {
            assert(calls@.take(i + 1).drop_last() =~= calls@.take(i as int));
        }
        if let Err(error) = require_call_authority(turn, &calls[i], tools) {
            proof {
                lemma_authority_prefix(turn.items@, calls@, tools@, i + 1);
            }
            return Err(error);
        }
        i += 1;
    }
    assert(calls@.take(i as int) =~= calls@);
    Ok(())
}

proof fn lemma_authority_prefix(
    items: Seq<Item>,
    calls: Seq<ModelToolCall>,
    tools: Map<Seq<char>, RegisteredTool>,
    n: int,
)
    requires
        0 <= n <= calls.len(),
        batch_authority(items, calls.take(n), tools) is Err,
    ensures
        batch_authority(items, calls, tools) == batch_authority(items, calls.take(n), tools),
    decreases calls.len() - n,
{
    if n == calls.len() {
        assert(calls.take(n) =~= calls);
    } else {
        assert(calls.take(n + 1).drop_last() =~= calls.take(n));
        lemma_authority_prefix(items, calls, tools, n + 1);
    }
}

/// A resumed batch is granted exactly when every call of it is granted.
pub proof fn law_resumed_batch_grants_every_call(
    items: Seq<Item>,
    calls: Seq<ModelToolCall>,
    tools: Map<Seq<char>, RegisteredTool>,
)
    ensures
        batch_authority(items, calls, tools) is Ok <==> forall|k: int|
            0 <= k < calls.len() ==> call_authority(items, #[trigger] calls[k], tools) is Ok,
    decreases calls.len(),
{
    if calls.len() > 0 {
        let shorter = calls.drop_last();
        law_resumed_batch_grants_every_call(items, shorter, tools);
        assert forall|k: int| 0 <= k < shorter.len() implies shorter[k] == #[trigger] calls[k] by {}
        if batch_authority(items, calls, tools) is Ok {
            assert forall|k: int| 0 <= k < calls.len() implies call_authority(items, #[trigger] calls[k], tools) is Ok by {
                if k < shorter.len() {
                    assert(call_authority(items, shorter[k], tools) is Ok);
                }
            }
        } else if forall|k: int| 0 <= k < calls.len() ==> call_authority(items, #[trigger] calls[k], tools) is Ok {
            assert forall|k: int| 0 <= k < shorter.len() implies call_authority(items, #[trigger] shorter[k], tools) is Ok by {
                assert(call_authority(items, calls[k], tools) is Ok);
            }
            assert(call_authority(items, calls[calls.len() - 1], tools) is Ok);
        }
    }
}

proof fn lemma_decisions_push(items: Seq<Item>, item: Item, call_id: Seq<char>)
    ensures
        policy_decisions(items.push(item), call_id) == match item.kind {
            ItemKind::PolicyDecision { call_id: id, tool_origin, decision } => if id@ == call_id {
                policy_decisions(items, call_id).push((tool_origin, decision))
            } else {
                policy_decisions(items, call_id)
            },
            _ => policy_decisions(items, call_id),
        },
        approval_decisions(items.push(item), call_id) == match item.kind {
            ItemKind::ApprovalDecision { call_id: id, decision, .. } => if id@ == call_id {
                approval_decisions(items, call_id).push(decision)
            } else {
                approval_decisions(items, call_id)
            },
            _ => approval_decisions(items, call_id),
        },
{
    assert(items.push(item).drop_last() =~= items);
}

/// Item that records a decision of Policy on a registered Tool.
pub open spec fn policy_item(call: ModelToolCall, tool: RegisteredTool, decision: PolicyDecision) -> Item {
    Item {
        kind: ItemKind::PolicyDecision { call_id: call.call_id, tool_origin: Some(tool.origin), decision },
        replaces_reply: false,
    }
}

/// A call on which Policy decided once, and allowed it, has authority when it
/// is resumed; one that Policy denied has none.
pub proof fn law_policy_decision_carries_over(
    items: Seq<Item>,
    call: ModelToolCall,
    tools: Map<Seq<char>, RegisteredTool>,
    decision: PolicyDecision,
)
    requires
        tools.contains_key(call.name@),
        policy_decisions(items, call.call_id@).len() == 0,
        approval_decisions(items, call.call_id@).len() == 0,
    ensures
        call_authority(items.push(policy_item(call, tools[call.name@], decision)), call, tools) is Ok <==> decision is Allow,
{
    lemma_decisions_push(items, policy_item(call, tools[call.name@], decision), call.call_id@);
}

/// A call for which Policy asked has authority when it is resumed exactly
/// where the recorded decision of the approver is an approval.
pub proof fn law_approval_carries_over(
    items: Seq<Item>,
    call: ModelToolCall,
    tools: Map<Seq<char>, RegisteredTool>,
    reason: String,
    risk: RiskLevel,
    request: Item,
    approval_id: ApprovalId,
    decision: ApprovalDecision,
)
    requires
        tools.contains_key(call.name@),
        policy_decisions(items, call.call_id@).len() == 0,
        approval_decisions(items, call.call_id@).len() == 0,
        request.kind is ApprovalRequested,
    ensures
        ({
            let asked = items.push(policy_item(call, tools[call.name@], PolicyDecision::Ask { reason, risk })).push(request);
            let decided = asked.push(
                Item {
                    kind: ItemKind::ApprovalDecision { approval_id, call_id: call.call_id, decision },
                    replaces_reply: false,
                },
            );
            &&& call_authority(asked, call, tools) is Err
            &&& call_authority(decided, call, tools) is Ok <==> decision is Approve
        }),
{
    let policy = policy_item(call, tools[call.name@], PolicyDecision::Ask { reason, risk });
    let asked = items.push(policy).push(request);
    let approval = Item {
        kind: ItemKind::ApprovalDecision { approval_id, call_id: call.call_id, decision },
        replaces_reply: false,
    };
    lemma_decisions_push(items, policy, call.call_id@);
    lemma_decisions_push(items.push(policy), request, call.call_id@);
    lemma_decisions_push(asked, approval, call.call_id@);
}

/// Whether an item records an execution binding.
pub open spec fn binds_turn(item: Item) -> bool {
    item.kind is ExecutionBinding
}

/// Whether one item records an execution binding, and it alone.
pub open spec fn binds_alone(items: Seq<Item>, at: int) -> bool {
    &&& 0 <= at < items.len()
    &&& binds_turn(items[at])
    &&& forall|i: int| 0 <= i < items.len() && i != at ==> !binds_turn(#[trigger] items[i])
}

proof fn lemma_no_binding(items: Seq<Item>)
    ensures
        recorded_bindings(items).len() == 0 <==> forall|i: int| 0 <= i < items.len() ==> !binds_turn(#[trigger] items[i]),
    decreases items.len(),
{
    if items.len() > 0 {
        let earlier = items.drop_last();
        let n = items.len() - 1;
        lemma_no_binding(earlier);
        if recorded_bindings(items).len() == 0 {
            assert forall|i: int| 0 <= i < items.len() implies !binds_turn(#[trigger] items[i]) by {
                if i < n {
                    assert(!binds_turn(earlier[i]));
                }
            }
        }
        if forall|i: int| 0 <= i < items.len() ==> !binds_turn(#[trigger] items[i]) {
            assert forall|i: int| 0 <= i < n implies !binds_turn(#[trigger] earlier[i]) by {
                assert(!binds_turn(items[i]));
            }
            assert(!binds_turn(items[n]));
        }
    }
}

proof fn lemma_sole_binding(items: Seq<Item>)
    ensures
        recorded_bindings(items).len() == 1 <==> exists|at: int| #[trigger] binds_alone(items, at),
        forall|at: int| #[trigger]
            binds_alone(items, at) ==> (items[at].kind matches ItemKind::ExecutionBinding { binding, .. }
                && recorded_bindings(items) == seq![binding]),
    decreases items.len(),
{
    if items.len() > 0 {
        let earlier = items.drop_last();
        let n = items.len() - 1;
        lemma_sole_binding(earlier);
        lemma_no_binding(earlier);
        if recorded_bindings(items).len() == 1 {
            if binds_turn(items[n]) {
                assert forall|i: int| 0 <= i < items.len() && i != n implies !binds_turn(#[trigger] items[i]) by {
                    assert(!binds_turn(earlier[i]));
                }
                assert(binds_alone(items, n));
            } else {
                let at = choose|at: int| #[trigger] binds_alone(earlier, at);
                assert forall|i: int| 0 <= i < items.len() && i != at implies !binds_turn(#[trigger] items[i]) by {
                    if i < n {
                        assert(!binds_turn(earlier[i]));
                    }
                }
                assert(binds_alone(items, at));
            }
        }
        assert forall|at: int| #[trigger] binds_alone(items, at) implies (
        items[at].kind matches ItemKind::ExecutionBinding { binding, .. } && recorded_bindings(items) == seq![binding]) by {
            if at == n {
                assert forall|i: int| 0 <= i < n implies !binds_turn(#[trigger] earlier[i]) by {
                    assert(!binds_turn(items[i]));
                }
                assert(recorded_bindings(earlier) =~= Seq::empty());
            } else {
                assert forall|i: int| 0 <= i < n && i != at implies !binds_turn(#[trigger] earlier[i]) by {
                    assert(!binds_turn(items[i]));
                }
                assert(binds_alone(earlier, at));
                assert(!binds_turn(items[n]));
            }
        }
    }
}

/// A Turn is resumed under the very binding that it was started with: without
/// one where the journal records none, and else under the only one that it
/// records.
pub proof fn law_bindings_carry_over(items: Seq<Item>, expected: ExecutionBinding)
    ensures
        binding_check(items, None) is Ok <==> forall|i: int| 0 <= i < items.len() ==> !binds_turn(#[trigger] items[i]),
        binding_check(items, Some(expected)) is Ok <==> exists|at: int|
            #[trigger] binds_alone(items, at) && (items[at].kind matches ItemKind::ExecutionBinding { binding, .. }
                && binding@ == expected@),
{
    lemma_no_binding(items);
    lemma_sole_binding(items);
    if binding_check(items, Some(expected)) is Ok {
        let at = choose|at: int| #[trigger] binds_alone(items, at);
        assert(binds_alone(items, at));
    }
}

/// Whether an item is a decision of Policy on one call.
pub open spec fn decides_on(item: Item, call_id: Seq<char>) -> bool {
    item.kind matches ItemKind::PolicyDecision { call_id: id, .. } && id@ == call_id
}

/// Whether an item is the answer of an approver about one call.
pub open spec fn answers_about(item: Item, call_id: Seq<char>) -> bool {
    item.kind matches ItemKind::ApprovalDecision { call_id: id, .. } && id@ == call_id
}

/// Whether one item decides on a call, and it alone.
pub open spec fn decides_alone(items: Seq<Item>, call_id: Seq<char>, at: int) -> bool {
    &&& 0 <= at < items.len()
    &&& decides_on(items[at], call_id)
    &&& forall|i: int| 0 <= i < items.len() && i != at ==> !decides_on(#[trigger] items[i], call_id)
}

/// Whether one item answers about a call, and it alone.
pub open spec fn answers_alone(items: Seq<Item>, call_id: Seq<char>, at: int) -> bool {
    &&& 0 <= at < items.len()
    &&& answers_about(items[at], call_id)
    &&& forall|i: int| 0 <= i < items.len() && i != at ==> !answers_about(#[trigger] items[i], call_id)
}

proof fn lemma_no_decision(items: Seq<Item>, call_id: Seq<char>)
    ensures
        policy_decisions(items, call_id).len() == 0 <==> forall|i: int|
            0 <= i < items.len() ==> !decides_on(#[trigger] items[i], call_id),
        approval_decisions(items, call_id).len() == 0 <==> forall|i: int|
            0 <= i < items.len() ==> !answers_about(#[trigger] items[i], call_id),
    decreases items.len(),
{
    if items.len() > 0 {
        let earlier = items.drop_last();
        let n = items.len() - 1;
        lemma_no_decision(earlier, call_id);
        if policy_decisions(items, call_id).len() == 0 {
            assert forall|i: int| 0 <= i < items.len() implies !decides_on(#[trigger] items[i], call_id) by {
                if i < n {
                    assert(!decides_on(earlier[i], call_id));
                }
            }
        }
        if forall|i: int| 0 <= i < items.len() ==> !decides_on(#[trigger] items[i], call_id) {
            assert forall|i: int| 0 <= i < n implies !decides_on(#[trigger] earlier[i], call_id) by {
                assert(!decides_on(items[i], call_id));
            }
            assert(!decides_on(items[n], call_id));
        }
        if approval_decisions(items, call_id).len() == 0 {
            assert forall|i: int| 0 <= i < items.len() implies !answers_about(#[trigger] items[i], call_id) by {
                if i < n {
                    assert(!answers_about(earlier[i], call_id));
                }
            }
        }
        if forall|i: int| 0 <= i < items.len() ==> !answers_about(#[trigger] items[i], call_id) {
            assert forall|i: int| 0 <= i < n implies !answers_about(#[trigger] earlier[i], call_id) by {
                assert(!answers_about(items[i], call_id));
            }
            assert(!answers_about(items[n], call_id));
        }
    }
}

proof fn lemma_sole_decision(items: Seq<Item>, call_id: Seq<char>)
    ensures
        policy_decisions(items, call_id).len() == 1 <==> exists|at: int| #[trigger] decides_alone(items, call_id, at),
        forall|at: int| #[trigger]
            decides_alone(items, call_id, at) ==> (items[at].kind matches ItemKind::PolicyDecision {
                tool_origin,
                decision,
                ..
            } && policy_decisions(items, call_id) == seq![(tool_origin, decision)]),
    decreases items.len(),
{
    if items.len() > 0 {
        let earlier = items.drop_last();
        let n = items.len() - 1;
        lemma_sole_decision(earlier, call_id);
        lemma_no_decision(earlier, call_id);
        if policy_decisions(items, call_id).len() == 1 {
            if decides_on(items[n], call_id) {
                assert forall|i: int| 0 <= i < items.len() && i != n implies !decides_on(#[trigger] items[i], call_id) by {
                    assert(!decides_on(earlier[i], call_id));
                }
                assert(decides_alone(items, call_id, n));
            } else {
                let at = choose|at: int| #[trigger] decides_alone(earlier, call_id, at);
                assert forall|i: int| 0 <= i < items.len() && i != at implies !decides_on(#[trigger] items[i], call_id) by {
                    if i < n {
                        assert(!decides_on(earlier[i], call_id));
                    }
                }
                assert(decides_alone(items, call_id, at));
            }
        }
        assert forall|at: int| #[trigger] decides_alone(items, call_id, at) implies (
        items[at].kind matches ItemKind::PolicyDecision { tool_origin, decision, .. } && policy_decisions(items, call_id)
            == seq![(tool_origin, decision)]) by {
            if at == n {
                assert forall|i: int| 0 <= i < n implies !decides_on(#[trigger] earlier[i], call_id) by {
                    assert(!decides_on(items[i], call_id));
                }
                assert(policy_decisions(earlier, call_id) =~= Seq::empty());
            } else {
                assert forall|i: int| 0 <= i < n && i != at implies !decides_on(#[trigger] earlier[i], call_id) by {
                    assert(!decides_on(items[i], call_id));
                }
                assert(decides_alone(earlier, call_id, at));
                assert(!decides_on(items[n], call_id));
            }
        }
    }
}

proof fn lemma_sole_answer(items: Seq<Item>, call_id: Seq<char>)
    ensures
        approval_decisions(items, call_id).len() == 1 <==> exists|at: int| #[trigger] answers_alone(items, call_id, at),
        forall|at: int| #[trigger]
            answers_alone(items, call_id, at) ==> (items[at].kind matches ItemKind::ApprovalDecision { decision, .. }
                && approval_decisions(items, call_id) == seq![decision]),
    decreases items.len(),
{
    if items.len() > 0 {
        let earlier = items.drop_last();
        let n = items.len() - 1;
        lemma_sole_answer(earlier, call_id);
        lemma_no_decision(earlier, call_id);
        if approval_decisions(items, call_id).len() == 1 {
            if answers_about(items[n], call_id) {
                assert forall|i: int| 0 <= i < items.len() && i != n implies !answers_about(#[trigger] items[i], call_id) by {
                    assert(!answers_about(earlier[i], call_id));
                }
                assert(answers_alone(items, call_id, n));
            } else {
                let at = choose|at: int| #[trigger] answers_alone(earlier, call_id, at);
                assert forall|i: int| 0 <= i < items.len() && i != at implies !answers_about(#[trigger] items[i], call_id) by {
                    if i < n {
                        assert(!answers_about(earlier[i], call_id));
                    }
                }
                assert(answers_alone(items, call_id, at));
            }
        }
        assert forall|at: int| #[trigger] answers_alone(items, call_id, at) implies (
        items[at].kind matches ItemKind::ApprovalDecision { decision, .. } && approval_decisions(items, call_id)
            == seq![decision]) by {
            if at == n {
                assert forall|i: int| 0 <= i < n implies !answers_about(#[trigger] earlier[i], call_id) by {
                    assert(!answers_about(items[i], call_id));
                }
                assert(approval_decisions(earlier, call_id) =~= Seq::empty());
            } else {
                assert forall|i: int| 0 <= i < n && i != at implies !answers_about(#[trigger] earlier[i], call_id) by {
                    assert(!answers_about(items[i], call_id));
                }
                assert(answers_alone(earlier, call_id, at));
                assert(!answers_about(items[n], call_id));
            }
        }
    }
}

/// A resumed call has authority exactly where its Tool is registered, one
/// decision of Policy on it is recorded and no other, made on the Tool from the
/// origin that it still has, and that decision allows the call, or asks and one
/// answer of an approver is recorded and no other, and it is an approval.
pub proof fn law_authority_needs_one_decision(items: Seq<Item>, call: ModelToolCall, tools: Map<Seq<char>, RegisteredTool>)
    ensures
        call_authority(items, call, tools) is Ok <==> tools.contains_key(call.name@) && exists|at: int|
            #[trigger] decides_alone(items, call.call_id@, at) && (items[at].kind matches ItemKind::PolicyDecision {
                tool_origin: Some(origin),
                decision,
                ..
            } && origin@ == tools[call.name@].origin@ && (decision is Allow || (decision is Ask && exists|answer: int|
                #[trigger] answers_alone(items, call.call_id@, answer) && (
                items[answer].kind matches ItemKind::ApprovalDecision { decision: ApprovalDecision::Approve, .. })))),
{
    let id = call.call_id@;
    lemma_sole_decision(items, id);
    lemma_sole_answer(items, id);
    if call_authority(items, call, tools) is Ok {
        let at = choose|at: int| #[trigger] decides_alone(items, id, at);
        assert(decides_alone(items, id, at));
        if policy_decisions(items, id)[0].1 is Ask {
            let answer = choose|answer: int| #[trigger] answers_alone(items, id, answer);
            assert(answers_alone(items, id, answer));
        }
    }
    if tools.contains_key(call.name@) && exists|at: int|
        #[trigger] decides_alone(items, id, at) && (items[at].kind matches ItemKind::PolicyDecision {
            tool_origin: Some(origin),
            decision,
            ..
        } && origin@ == tools[call.name@].origin@ && (decision is Allow || (decision is Ask && exists|answer: int|
            #[trigger] answers_alone(items, id, answer) && (items[answer].kind matches ItemKind::ApprovalDecision {
                decision: ApprovalDecision::Approve,
                ..
            })))) {
        let at = choose|at: int|
            #[trigger] decides_alone(items, id, at) && (items[at].kind matches ItemKind::PolicyDecision {
                tool_origin: Some(origin),
                decision,
                ..
            } && origin@ == tools[call.name@].origin@ && (decision is Allow || (decision is Ask && exists|answer: int|
                #[trigger] answers_alone(items, id, answer) && (items[answer].kind matches ItemKind::ApprovalDecision {
                    decision: ApprovalDecision::Approve,
                    ..
                }))));
        assert(decides_alone(items, id, at));
        assert(policy_decisions(items, id).len() == 1);
    }
}

/// The prompt of a Turn is its only user message.
pub proof fn law_turns_have_one_prompt(items: Seq<Item>, at: int)
    requires
        0 <= at < items.len(),
        items[at].kind is UserMessage,
    ensures
        single_prompt(recorded_prompts(items)) is Ok <==> forall|i: int|
            0 <= i < items.len() && i != at ==> !((#[trigger] items[i]).kind is UserMessage),
        single_prompt(recorded_prompts(items)) matches Ok(prompt) ==> (items[at].kind matches ItemKind::UserMessage { content }
            && content == prompt),
{
    lemma_prompts(items, at);
}

proof fn lemma_prompts(items: Seq<Item>, at: int)
    ensures
        recorded_prompts(items).len() == 0 <==> forall|i: int|
            0 <= i < items.len() ==> !((#[trigger] items[i]).kind is UserMessage),
        0 <= at < items.len() && items[at].kind is UserMessage ==> {
            &&& recorded_prompts(items).len() == 1 <==> forall|i: int|
                0 <= i < items.len() && i != at ==> !((#[trigger] items[i]).kind is UserMessage)
            &&& recorded_prompts(items).len() == 1 ==> (items[at].kind matches ItemKind::UserMessage { content } && content
                == recorded_prompts(items)[0])
        },
    decreases items.len(),
{
    if items.len() > 0 {
        let earlier = items.drop_last();
        let n = items.len() - 1;
        lemma_prompts(earlier, at);
        assert forall|i: int| 0 <= i < n implies earlier[i] == #[trigger] items[i] by {}
        if recorded_prompts(items).len() == 0 {
            assert forall|i: int| 0 <= i < items.len() implies !((#[trigger] items[i]).kind is UserMessage) by {
                if i < n {
                    assert(!(earlier[i].kind is UserMessage));
                }
            }
        }
        if forall|i: int| 0 <= i < items.len() ==> !((#[trigger] items[i]).kind is UserMessage) {
            assert forall|i: int| 0 <= i < n implies !((#[trigger] earlier[i]).kind is UserMessage) by {
                assert(!(items[i].kind is UserMessage));
            }
            assert(!(items[n].kind is UserMessage));
        }
        if 0 <= at < items.len() && items[at].kind is UserMessage {
            if recorded_prompts(items).len() == 1 {
                assert forall|i: int| 0 <= i < items.len() && i != at implies !((#[trigger] items[i]).kind is UserMessage) by {
                    if i < n {
                        if at == n {
                            assert(!(earlier[i].kind is UserMessage));
                        } else {
                            assert(earlier[at].kind is UserMessage);
                            assert(recorded_prompts(earlier).len() > 0);
                            assert(!(earlier[i].kind is UserMessage));
                        }
                    } else {
                        assert(earlier[at].kind is UserMessage);
                        assert(recorded_prompts(earlier).len() > 0);
                    }
                }
            }
            if forall|i: int| 0 <= i < items.len() && i != at ==> !((#[trigger] items[i]).kind is UserMessage) {
                if at == n {
                    assert forall|i: int| 0 <= i < n implies !((#[trigger] earlier[i]).kind is UserMessage) by {
                        assert(!(items[i].kind is UserMessage));
                    }
                } else {
                    assert(!(items[n].kind is UserMessage));
                    assert(earlier[at].kind is UserMessage);
                    assert forall|i: int| 0 <= i < n && i != at implies !((#[trigger] earlier[i]).kind is UserMessage) by {
                        assert(!(items[i].kind is UserMessage));
                    }
                }
            }
        }
    }
}

} // verus!
