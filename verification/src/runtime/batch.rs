//! Execution of Tool calls: segments of a batch, settlement of each call and
//! ordered recording of parallel results.

use vstd::prelude::*;
use vstd::utf8::encode_utf8;

use crate::capability::{RegisteredTool, ToolBatchExecution, ToolRegistry};
use crate::digest::sha256_hex;
use crate::error::{settles, ErrorView, ExecutionPhase, HarnessError};
use crate::items::{ConnectorEvidence, ItemKind, ModelToolCall};
use crate::json::{error_object, JsonDocument};
use crate::kernel::{AuthorityContext, CapabilityOrigin};
use crate::runtime::resume::state_error;
use crate::runtime::validate::{
    bounded_diagnostic, bounded_runtime_error, tool_output_check, validate_tool_output, MAX_TOOL_OUTPUT_BYTES,
};

verus! {

/// Settled Tool call.
pub struct ToolCallSettlement {
    /// Correlation identity.
    pub call_id: String,
    /// Output to record.
    pub output: JsonDocument,
    /// Whether the output reports a failure.
    pub is_error: bool,
    /// Claims bound to the output.
    pub connector_evidence: Vec<ConnectorEvidence>,
}

/// What a Tool handed back.
pub struct ToolExecutionResult {
    /// Output of the Tool.
    pub output: JsonDocument,
    /// Claims of the connector behind the Tool.
    pub claims: Vec<JsonDocument>,
}

/// Run of consecutive calls that are executed together.
#[derive(Clone, Copy, Debug, PartialEq, Eq, Structural)]
pub struct Segment {
    /// Index behind the last call of the run.
    pub end: usize,
    /// Whether the calls run at the same time.
    pub parallel: bool,
}

/// Whether a call may run beside others.
pub open spec fn is_parallel_safe(tools: Map<Seq<char>, RegisteredTool>, call: ModelToolCall) -> bool {
    tools.contains_key(call.name@) && tools[call.name@].batch_execution == ToolBatchExecution::ParallelSafe
}

/// End of the run of parallel-safe calls that starts at `at`.
pub open spec fn parallel_end(tools: Map<Seq<char>, RegisteredTool>, calls: Seq<ModelToolCall>, at: int) -> int
    decreases calls.len() - at,
{
    if at < 0 || at >= calls.len() || !is_parallel_safe(tools, calls[at]) {
        at
    } else {
        parallel_end(tools, calls, at + 1)
    }
}

/// Segment of a batch that starts at `index`: one call, or the longest run of
/// parallel-safe calls. An unknown Tool ends the batch.
pub open spec fn segment_at(
    tools: Map<Seq<char>, RegisteredTool>,
    calls: Seq<ModelToolCall>,
    index: int,
    max_parallel: usize,
) -> Result<Segment, ErrorView> {
    if !tools.contains_key(calls[index].name@) {
        Err(ErrorView::UnknownTool(calls[index].name@))
    } else if max_parallel == 1 || !is_parallel_safe(tools, calls[index]) {
        Ok(Segment { end: (index + 1) as usize, parallel: false })
    } else {
        let end = parallel_end(tools, calls, index + 1);
        Ok(Segment { end: end as usize, parallel: end > index + 1 })
    }
}

/// Finds the segment of a batch that starts at an index.
pub fn next_segment(tools: &ToolRegistry, calls: &[ModelToolCall], index: usize, max_parallel: usize) -> (result: Result<
    Segment,
    HarnessError,
>)
    requires
        index < calls@.len(),
    ensures
        settles(result, segment_at(tools@, calls@, index as int, max_parallel)),
        result matches Ok(segment) ==> index < segment.end <= calls@.len(),
{
    let registered = match tools.get(calls[index].name.as_str()) {
        Some(registered) => registered,
        None => {
            return Err(HarnessError::UnknownTool(calls[index].name.clone()));
        },
    };
    if max_parallel == 1 || registered.batch_execution == ToolBatchExecution::Sequential {
        return Ok(Segment { end: index + 1, parallel: false });
    }
    let mut end: usize = index + 1;
    while end < calls.len()
        invariant
            index < end <= calls@.len(),
            parallel_end(tools@, calls@, index + 1) == parallel_end(tools@, calls@, end as int),
        ensures
            index < end <= calls@.len(),
            parallel_end(tools@, calls@, index + 1) == end,
        decreases calls@.len() - end,
    {
        let safe = match tools.get(calls[end].name.as_str()) {
            Some(tool) => tool.batch_execution == ToolBatchExecution::ParallelSafe,
            None => false,
        };
        if !safe {
            break;
        }
        end = end + 1;
    }
    Ok(Segment { end, parallel: end > index + 1 })
}

/// Correlation identities of the calls from an index on.
pub fn pending_call_ids<'a>(calls: &'a [ModelToolCall], index: usize) -> (ids: Vec<&'a str>)
    requires
        index <= calls@.len(),
    ensures
        ids@.len() == calls@.len() - index,
        forall|k: int| 0 <= k < ids@.len() ==> (#[trigger] ids@[k])@ == calls@[index + k].call_id@,
{
    let mut ids: Vec<&'a str> = Vec::new();
    let mut k: usize = index;
    while k < calls.len()
        invariant
            index <= k <= calls@.len(),
            ids@.len() == k - index,
            forall|j: int| 0 <= j < ids@.len() ==> (#[trigger] ids@[j])@ == calls@[index + j].call_id@,
        decreases calls@.len() - k,
    {
        ids.push(calls[k].call_id.as_str());
        k += 1;
    }
    ids
}

/// Segments that cover a batch from `index` on, where every Tool is known.
pub open spec fn segment_ends(
    tools: Map<Seq<char>, RegisteredTool>,
    calls: Seq<ModelToolCall>,
    index: int,
    max_parallel: usize,
) -> Seq<Segment>
    decreases calls.len() - index,
{
    if index < 0 || index >= calls.len() {
        Seq::empty()
    } else {
        match segment_at(tools, calls, index, max_parallel) {
            Err(_) => Seq::empty(),
            Ok(segment) => if index < segment.end <= calls.len() {
                seq![segment] + segment_ends(tools, calls, segment.end as int, max_parallel)
            } else {
                Seq::empty()
            },
        }
    }
}

proof fn lemma_parallel_run(tools: Map<Seq<char>, RegisteredTool>, calls: Seq<ModelToolCall>, at: int, k: int)
    requires
        0 <= at <= calls.len(),
    ensures
        at <= parallel_end(tools, calls, at) <= calls.len(),
        at <= k < parallel_end(tools, calls, at) ==> is_parallel_safe(tools, calls[k]),
    decreases calls.len() - at,
{
    if at < calls.len() && is_parallel_safe(tools, calls[at]) {
        lemma_parallel_run(tools, calls, at + 1, k);
    }
}

/// A call runs beside others only where its Tool is parallel safe and more
/// than one call may run at a time: every sequential call is a fence.
pub proof fn law_sequential_calls_are_fences(
    tools: Map<Seq<char>, RegisteredTool>,
    calls: Seq<ModelToolCall>,
    index: int,
    max_parallel: usize,
    k: int,
)
    requires
        0 <= index < calls.len() <= usize::MAX,
    ensures
        segment_at(tools, calls, index, max_parallel) matches Ok(segment) ==> {
            &&& index < segment.end <= calls.len()
            &&& segment.parallel ==> max_parallel != 1
            &&& segment.parallel && index <= k < segment.end ==> is_parallel_safe(tools, calls[k])
            &&& !segment.parallel ==> segment.end == index + 1
        },
{
    lemma_parallel_run(tools, calls, index + 1, k);
}

/// Segments of a batch follow each other without gap or overlap, in source
/// order.
pub proof fn law_segments_cover_the_batch(
    tools: Map<Seq<char>, RegisteredTool>,
    calls: Seq<ModelToolCall>,
    index: int,
    max_parallel: usize,
)
    requires
        0 <= index <= calls.len() <= usize::MAX,
        forall|k: int| 0 <= k < calls.len() ==> tools.contains_key(#[trigger] calls[k].name@),
    ensures
        index < calls.len() ==> ({
            let segments = segment_ends(tools, calls, index, max_parallel);
            &&& segments.len() > 0
            &&& segments.last().end == calls.len()
            &&& forall|i: int, j: int| 0 <= i < j < segments.len() ==> #[trigger] segments[i].end < #[trigger] segments[j].end
            &&& forall|i: int| 0 <= i < segments.len() ==> index < #[trigger] segments[i].end
        }),
    decreases calls.len() - index,
{
    if index < calls.len() {
        assert(tools.contains_key(calls[index].name@));
        law_sequential_calls_are_fences(tools, calls, index, max_parallel, index);
        let segment = segment_at(tools, calls, index, max_parallel)->Ok_0;
        law_segments_cover_the_batch(tools, calls, segment.end as int, max_parallel);
        let rest = segment_ends(tools, calls, segment.end as int, max_parallel);
        let segments = segment_ends(tools, calls, index, max_parallel);
        assert(segments =~= seq![segment] + rest);
        assert forall|i: int, j: int| 0 <= i < j < segments.len() implies #[trigger] segments[i].end
            < #[trigger] segments[j].end by {
            assert(segments[j] == rest[j - 1]);
            if i > 0 {
                assert(segments[i] == rest[i - 1]);
            }
        }
        assert forall|i: int| 0 <= i < segments.len() implies index < #[trigger] segments[i].end by {
            if i > 0 {
                assert(segments[i] == rest[i - 1]);
            }
        }
        if rest.len() > 0 {
            assert(segments.last() == rest.last());
        }
    }
}

/// Record of a settled call.
pub open spec fn settlement_item(settlement: ToolCallSettlement) -> ItemKind {
    ItemKind::ToolResult {
        call_id: settlement.call_id,
        output: settlement.output,
        is_error: settlement.is_error,
        connector_evidence: settlement.connector_evidence,
    }
}

/// Makes the record of a settled call.
pub fn tool_settlement_record(settlement: ToolCallSettlement) -> (item: ItemKind)
    ensures
        item == settlement_item(settlement),
{
    ItemKind::ToolResult {
        call_id: settlement.call_id,
        output: settlement.output,
        is_error: settlement.is_error,
        connector_evidence: settlement.connector_evidence,
    }
}

/// Claims of a connector, bound to an output.
pub open spec fn binds(
    evidence: Seq<ConnectorEvidence>,
    claims: Seq<JsonDocument>,
    tool: String,
    origin: CapabilityOrigin,
    authority: AuthorityContext,
    output: Seq<char>,
) -> bool {
    &&& evidence.len() == claims.len()
    &&& forall|k: int|
        0 <= k < claims.len() ==> (#[trigger] evidence[k]).claim == claims[k] && evidence[k].tool == tool && evidence[k].origin
            == origin && evidence[k].authority == authority && evidence[k].output_sha256@ == sha256_hex(encode_utf8(output))
}

/// Settlement of a call: an output inside its bounds is recorded with its
/// claims, any other output and any failure is recorded as an error, and only
/// an outside stop is passed on. Where there are claims, what checking them
/// came to decides whether they can be bound.
pub open spec fn call_settlement(
    call: ModelToolCall,
    origin: CapabilityOrigin,
    authority: AuthorityContext,
    result: Result<ToolExecutionResult, HarnessError>,
    claims_check: Result<(), HarnessError>,
    settled: Result<ToolCallSettlement, HarnessError>,
) -> bool {
    match result {
        Ok(result) => match tool_output_check(result.output@) {
            Ok(()) => if result.claims@.len() > 0 && claims_check is Err {
                settled == Err::<ToolCallSettlement, HarnessError>(claims_check->Err_0)
            } else {
                settled matches Ok(settlement) && settlement.call_id == call.call_id && settlement.output == result.output
                    && !settlement.is_error && binds(
                    settlement.connector_evidence@,
                    result.claims@,
                    call.name,
                    origin,
                    authority,
                    result.output@,
                )
            },
            Err(fault) => reports_failure(settled, call, fault),
        },
        Err(error) => if error@.is_stop() {
            settled == Err::<ToolCallSettlement, HarnessError>(error)
        } else {
            reports_failure(settled, call, error@)
        },
    }
}

/// Whether a settlement records a failure of the call.
pub open spec fn reports_failure(
    settled: Result<ToolCallSettlement, HarnessError>,
    call: ModelToolCall,
    fault: ErrorView,
) -> bool {
    settled matches Ok(settlement) && settlement.call_id == call.call_id && settlement.output@ == error_object(
        bounded_diagnostic(fault.text()),
    ) && settlement.is_error && settlement.connector_evidence@.len() == 0
}

fn failure_settlement(call_id: String, error: &HarnessError) -> (settlement: ToolCallSettlement)
    ensures
        settlement.call_id == call_id,
        settlement.output@ == error_object(bounded_diagnostic(error@.text())),
        settlement.is_error,
        settlement.connector_evidence@.len() == 0,
{
    let text = error.to_string();
    let message = bounded_runtime_error(text.as_str());
    ToolCallSettlement {
        call_id,
        output: JsonDocument::error(message.as_str()),
        is_error: true,
        connector_evidence: Vec::new(),
    }
}

/// Settles a Tool call whose wait has ended. `claims_check` is the outcome of
/// checking the connector claims that came with the output.
pub fn settle_tool_call(
    call: &ModelToolCall,
    origin: &CapabilityOrigin,
    authority: &AuthorityContext,
    result: Result<ToolExecutionResult, HarnessError>,
    claims_check: Result<(), HarnessError>,
) -> (settled: Result<ToolCallSettlement, HarnessError>)
    ensures
        call_settlement(*call, *origin, *authority, result, claims_check, settled),
{
    let ToolExecutionResult { output, claims } = match result {
        Ok(result) => result,
        Err(HarnessError::Cancelled { phase }) => {
            return Err(HarnessError::Cancelled { phase });
        },
        Err(HarnessError::TimedOut { phase }) => {
            return Err(HarnessError::TimedOut { phase });
        },
        Err(error) => {
            return Ok(failure_settlement(call.call_id.clone(), &error));
        },
    };
    if let Err(error) = validate_tool_output(&output) {
        return Ok(failure_settlement(call.call_id.clone(), &error));
    }
    let output_sha256 = match output.bounded_sha256(MAX_TOOL_OUTPUT_BYTES) {
        Ok(digest) => digest,
        Err(_) => {
            return Err(HarnessError::Tool("cannot digest validated Tool output".to_owned()));
        },
    };
    if claims.len() > 0 {
        if let Err(error) = claims_check {
            return Err(error);
        }
    }
    let mut connector_evidence: Vec<ConnectorEvidence> = Vec::new();
    let mut k: usize = 0;
    while k < claims.len()
        invariant
            k <= claims@.len(),
            connector_evidence@.len() == k,
            output_sha256@ == sha256_hex(encode_utf8(output@)),
            claims@.len() > 0 ==> claims_check is Ok,
            forall|j: int|
                0 <= j < k ==> (#[trigger] connector_evidence@[j]).claim == claims@[j] && connector_evidence@[j].tool
                    == call.name && connector_evidence@[j].origin == *origin && connector_evidence@[j].authority == *authority
                    && connector_evidence@[j].output_sha256@ == sha256_hex(encode_utf8(output@)),
            tool_output_check(output@) is Ok,
            result matches Ok(given) && given.output == output && given.claims == claims,
        decreases claims@.len() - k,
    {
        connector_evidence.push(
            ConnectorEvidence::bind(
                call.name.clone(),
                origin.clone(),
                authority.clone(),
                output_sha256.clone(),
                claims[k].clone(),
            ),
        );
        k += 1;
    }
    Ok(ToolCallSettlement { call_id: call.call_id.clone(), output, is_error: false, connector_evidence })
}

/// Result of one call of a parallel run, once it is there.
pub type ParallelSlot = Option<Result<ToolCallSettlement, HarnessError>>;

/// Results of a parallel run, in source order, however they come in.
pub struct ParallelResults {
    slots: Vec<ParallelSlot>,
}

/// Outcome of a task of a parallel run: the task panicked, or it hands back
/// the index and the result of its call.
pub enum JoinedTask {
    /// The task panicked.
    Panicked,
    /// The task finished.
    Finished(usize, Result<ToolCallSettlement, HarnessError>),
}

impl ParallelResults {
    /// Results so far.
    pub closed spec fn slots(self) -> Seq<ParallelSlot> {
        self.slots@
    }

    /// Prepares a run of a number of calls.
    pub fn new(calls: usize) -> (results: Self)
        ensures
            results.slots().len() == calls,
            forall|k: int| 0 <= k < calls ==> (#[trigger] results.slots()[k]) is None,
    {
        let mut slots: Vec<ParallelSlot> = Vec::new();
        let mut k: usize = 0;
        while k < calls
            invariant
                k <= calls,
                slots@.len() == k,
                forall|j: int| 0 <= j < k ==> (#[trigger] slots@[j]) is None,
            decreases calls - k,
        {
            slots.push(None);
            k += 1;
        }
        ParallelResults { slots }
    }

    /// Takes the outcome of one task. An error ends the whole run.
    pub fn joined(&mut self, task: JoinedTask) -> (result: Result<(), HarnessError>)
        ensures
            match task {
                JoinedTask::Panicked => *final(self) == *old(self) && (result matches Err(error) && error@
                    == ErrorView::CapabilityPanicked(ExecutionPhase::Tool)),
                JoinedTask::Finished(index, outcome) => if index >= old(self).slots().len() {
                    *final(self) == *old(self) && (result matches Err(error) && error@ == ErrorView::State(
                        "parallel Tool result index is invalid"@,
                    ))
                } else {
                    &&& final(self).slots() == old(self).slots().update(index as int, Some(outcome))
                    &&& if old(self).slots()[index as int] is Some {
                        result matches Err(error) && error@ == ErrorView::State("parallel Tool result index was reused"@)
                    } else {
                        result is Ok
                    }
                },
            },
    {
        match task {
            JoinedTask::Panicked => Err(HarnessError::CapabilityPanicked { phase: ExecutionPhase::Tool }),
            JoinedTask::Finished(index, outcome) => {
                if index >= self.slots.len() {
                    return Err(state_error("parallel Tool result index is invalid"));
                }
                let reused = self.slots[index].is_some();
                self.slots.set(index, Some(outcome));
                if reused {
                    return Err(state_error("parallel Tool result index was reused"));
                }
                Ok(())
            },
        }
    }
}

/// Records of a parallel run, in source order: every settled call up to the
/// first one without result.
pub open spec fn run_records(slots: Seq<ParallelSlot>) -> Seq<ItemKind>
    decreases slots.len(),
{
    if slots.len() == 0 {
        Seq::empty()
    } else {
        match slots[0] {
            None => Seq::empty(),
            Some(Ok(settlement)) => seq![settlement_item(settlement)] + run_records(slots.drop_first()),
            Some(Err(_)) => run_records(slots.drop_first()),
        }
    }
}

/// Error that ends a parallel run, once its records are written: a call
/// without result, else the first failure in source order.
pub open spec fn run_error(slots: Seq<ParallelSlot>) -> Option<ErrorView>
    decreases slots.len(),
{
    if slots.len() == 0 {
        None
    } else {
        match slots[0] {
            None => Some(missing_result()),
            Some(Ok(_)) => run_error(slots.drop_first()),
            Some(Err(error)) => if has_missing(slots.drop_first()) {
                Some(missing_result())
            } else {
                Some(error@)
            },
        }
    }
}

/// Whether a call of a run has no result.
pub open spec fn has_missing(slots: Seq<ParallelSlot>) -> bool {
    exists|k: int| 0 <= k < slots.len() && (#[trigger] slots[k]) is None
}

/// Error reported for a call without result.
pub open spec fn missing_result() -> ErrorView {
    ErrorView::State("parallel Tool result is missing"@)
}

/// Settlement of a parallel run.
pub struct ParallelSettlement {
    /// Records to write, in order.
    pub records: Vec<ItemKind>,
    /// Error to settle the Turn with, once they are written.
    pub stop: Option<HarnessError>,
}

impl ParallelResults {
    /// Settles a run whose tasks have all been joined.
    pub fn settle(self) -> (settlement: ParallelSettlement)
        ensures
            settlement.records@ == run_records(self.slots()),
            match settlement.stop {
                Some(error) => run_error(self.slots()) == Some(error@),
                None => run_error(self.slots()) is None,
            },
    {
        let ghost all = self.slots@;
        let mut slots = self.slots;
        let mut records: Vec<ItemKind> = Vec::new();
        let mut stop: Option<HarnessError> = None;
        assert(records@ + run_records(all) =~= run_records(all));
        while slots.len() > 0
            invariant
                all == self.slots(),
                records@ + run_records(slots@) == run_records(all),
                match stop {
                    None => run_error(all) == run_error(slots@),
                    Some(first) => run_error(all) == if has_missing(slots@) {
                        Some(missing_result())
                    } else {
                        Some(first@)
                    },
                },
            decreases slots@.len(),
        {
            let ghost before = slots@;
            let slot = slots.remove(0);
            assert(slots@ =~= before.drop_first());
            match slot {
                None => {
                    assert(before[0] is None);
                    assert(records@ + run_records(before) =~= records@);
                    return ParallelSettlement { records, stop: Some(state_error("parallel Tool result is missing")) };
                },
                Some(Ok(settlement)) => {
                    let ghost earlier = records@;
                    records.push(tool_settlement_record(settlement));
                    proof {
                        assert(run_records(before) == seq![settlement_item(settlement)] + run_records(slots@));
                        assert(records@ + run_records(slots@) =~= earlier + run_records(before));
                        lemma_missing_first(before);
                    }
                },
                Some(Err(error)) => {
                    proof {
                        lemma_missing_first(before);
                    }
                    if stop.is_none() {
                        stop = Some(error);
                    }
                },
            }
        }
        assert(records@ + run_records(slots@) =~= records@);
        ParallelSettlement { records, stop }
    }
}

proof fn lemma_missing_first(slots: Seq<ParallelSlot>)
    requires
        slots.len() > 0,
        slots[0] is Some,
    ensures
        has_missing(slots) == has_missing(slots.drop_first()),
{
    let rest = slots.drop_first();
    if has_missing(slots) {
        let k = choose|k: int| 0 <= k < slots.len() && (#[trigger] slots[k]) is None;
        assert(rest[k - 1] is None);
    }
    if has_missing(rest) {
        let k = choose|k: int| 0 <= k < rest.len() && (#[trigger] rest[k]) is None;
        assert(slots[k + 1] is None);
    }
}

/// Where every call of a run succeeded, the run records each of them once, in
/// source order, and ends without error, however the tasks came in.
pub proof fn law_parallel_results_keep_source_order(slots: Seq<ParallelSlot>)
    requires
        forall|k: int| 0 <= k < slots.len() ==> (#[trigger] slots[k]) matches Some(Ok(_)),
    ensures
        run_error(slots) is None,
        run_records(slots).len() == slots.len(),
        forall|k: int|
            0 <= k < slots.len() ==> #[trigger] run_records(slots)[k] == settlement_item(slots[k]->Some_0->Ok_0),
    decreases slots.len(),
{
    if slots.len() > 0 {
        let rest = slots.drop_first();
        assert forall|k: int| 0 <= k < rest.len() implies (#[trigger] rest[k]) matches Some(Ok(_)) by {
            assert(slots[k + 1] matches Some(Ok(_)));
        }
        law_parallel_results_keep_source_order(rest);
        assert(slots[0] matches Some(Ok(_)));
        assert forall|k: int| 0 <= k < slots.len() implies #[trigger] run_records(slots)[k] == settlement_item(
            slots[k]->Some_0->Ok_0,
        ) by {
            if k > 0 {
                assert(run_records(slots)[k] == run_records(rest)[k - 1]);
                assert(slots[k] == rest[k - 1]);
            }
        }
    }
}

/// Parallel runs are as long as they can be. From a call of a registered Tool
/// the next segment is that call alone where calls run one at a time or its
/// Tool is not safe to run in parallel; else it reaches up to the next call
/// whose Tool is not, or to the end. A call of an unknown Tool is a fault.
pub proof fn law_parallel_runs_are_maximal(
    tools: Map<Seq<char>, RegisteredTool>,
    calls: Seq<ModelToolCall>,
    index: int,
    max_parallel: usize,
)
    requires
        0 <= index < calls.len() <= usize::MAX,
    ensures
        segment_at(tools, calls, index, max_parallel) is Ok <==> tools.contains_key(calls[index].name@),
        segment_at(tools, calls, index, max_parallel) matches Err(fault) ==> fault == ErrorView::UnknownTool(
            calls[index].name@,
        ),
        segment_at(tools, calls, index, max_parallel) matches Ok(segment) ==> if max_parallel == 1
            || !(tools[calls[index].name@].batch_execution is ParallelSafe) {
            segment.end == index + 1 && !segment.parallel
        } else {
            &&& index < segment.end <= calls.len()
            &&& forall|k: int|
                index <= k < segment.end ==> tools.contains_key(#[trigger] calls[k].name@)
                    && tools[calls[k].name@].batch_execution is ParallelSafe
            &&& segment.end < calls.len() ==> !(tools.contains_key(calls[segment.end as int].name@)
                && tools[calls[segment.end as int].name@].batch_execution is ParallelSafe)
            &&& segment.parallel == (segment.end - index >= 2)
        },
{
    if tools.contains_key(calls[index].name@) {
        lemma_run_is_maximal(tools, calls, index + 1);
    }
}

proof fn lemma_run_is_maximal(tools: Map<Seq<char>, RegisteredTool>, calls: Seq<ModelToolCall>, at: int)
    requires
        0 <= at <= calls.len(),
    ensures
        at <= parallel_end(tools, calls, at) <= calls.len(),
        forall|k: int|
            at <= k < parallel_end(tools, calls, at) ==> tools.contains_key(#[trigger] calls[k].name@)
                && tools[calls[k].name@].batch_execution is ParallelSafe,
        parallel_end(tools, calls, at) < calls.len() ==> !(tools.contains_key(calls[parallel_end(tools, calls, at)].name@)
            && tools[calls[parallel_end(tools, calls, at)].name@].batch_execution is ParallelSafe),
    decreases calls.len() - at,
{
    if at < calls.len() && is_parallel_safe(tools, calls[at]) {
        lemma_run_is_maximal(tools, calls, at + 1);
    }
}

/// An output that fits is settled as the Tool gave it, with one piece of
/// evidence for each claim, in order: the claim itself, bound to the Tool, its
/// origin, the authority of the Turn and the digest of the output.
pub proof fn law_outputs_are_settled_as_given(
    call: ModelToolCall,
    origin: CapabilityOrigin,
    authority: AuthorityContext,
    result: ToolExecutionResult,
    settled: Result<ToolCallSettlement, HarnessError>,
)
    requires
        tool_output_check(result.output@) is Ok,
        call_settlement(call, origin, authority, Ok(result), Ok(()), settled),
    ensures
        settled matches Ok(settlement) && settlement.call_id == call.call_id && settlement.output == result.output
            && !settlement.is_error && settlement.connector_evidence@.len() == result.claims@.len() && forall|k: int|
            0 <= k < result.claims@.len() ==> (#[trigger] settlement.connector_evidence@[k]).claim == result.claims@[k]
                && settlement.connector_evidence@[k].tool == call.name && settlement.connector_evidence@[k].origin == origin
                && settlement.connector_evidence@[k].authority == authority
                && settlement.connector_evidence@[k].output_sha256@ == sha256_hex(encode_utf8(result.output@)),
{
}

/// A Tool that fails, or whose output does not fit, leaves an error result
/// under the identity of the call that tells what went wrong; only a
/// cancellation or a time-out ends the Turn. Claims that are refused end it too.
pub proof fn law_failures_become_error_results(
    call: ModelToolCall,
    origin: CapabilityOrigin,
    authority: AuthorityContext,
    result: Result<ToolExecutionResult, HarnessError>,
    claims_check: Result<(), HarnessError>,
    settled: Result<ToolCallSettlement, HarnessError>,
)
    requires
        call_settlement(call, origin, authority, result, claims_check, settled),
    ensures
        result matches Err(error) ==> if error@ is Cancelled || error@ is TimedOut {
            settled == Err::<ToolCallSettlement, HarnessError>(error)
        } else {
            settled matches Ok(settlement) && settlement.call_id == call.call_id && settlement.is_error
                && settlement.connector_evidence@.len() == 0 && settlement.output@ == error_object(
                bounded_diagnostic(error@.text()),
            )
        },
        result matches Ok(given) ==> (tool_output_check(given.output@) matches Err(fault) ==> (settled matches Ok(settlement)
            && settlement.call_id == call.call_id && settlement.is_error && settlement.connector_evidence@.len() == 0
            && settlement.output@ == error_object(bounded_diagnostic(fault.text())))),
        result matches Ok(given) ==> (tool_output_check(given.output@) is Ok && given.claims@.len() > 0 && claims_check is Err
            ==> settled == Err::<ToolCallSettlement, HarnessError>(claims_check->Err_0)),
{
}

/// Whether the call of a slot was settled.
pub open spec fn slot_is_settled(slot: ParallelSlot) -> bool {
    slot matches Some(Ok(_))
}

/// Result item of a settled slot.
pub open spec fn slot_result(slot: ParallelSlot) -> ItemKind {
    ItemKind::ToolResult {
        call_id: slot->Some_0->Ok_0.call_id,
        output: slot->Some_0->Ok_0.output,
        is_error: slot->Some_0->Ok_0.is_error,
        connector_evidence: slot->Some_0->Ok_0.connector_evidence,
    }
}

/// Results of a parallel run are recorded in source order, whatever became of
/// the others, and the first fault in source order is the one reported.
pub proof fn law_parallel_faults_keep_the_other_results(slots: Seq<ParallelSlot>, first: int)
    requires
        forall|k: int| 0 <= k < slots.len() ==> (#[trigger] slots[k]) is Some,
    ensures
        run_records(slots) == slots.filter(|slot: ParallelSlot| slot_is_settled(slot)).map_values(
            |slot: ParallelSlot| slot_result(slot),
        ),
        run_error(slots) is None <==> forall|k: int| 0 <= k < slots.len() ==> slot_is_settled(#[trigger] slots[k]),
        0 <= first < slots.len() && !slot_is_settled(slots[first]) && (forall|j: int|
            0 <= j < first ==> slot_is_settled(#[trigger] slots[j])) ==> run_error(slots) == Some(
            slots[first]->Some_0->Err_0@,
        ),
{
    lemma_run_records(slots);
    lemma_run_error(slots, first);
}

proof fn lemma_run_records(slots: Seq<ParallelSlot>)
    requires
        forall|k: int| 0 <= k < slots.len() ==> (#[trigger] slots[k]) is Some,
    ensures
        run_records(slots) == slots.filter(|slot: ParallelSlot| slot_is_settled(slot)).map_values(
            |slot: ParallelSlot| slot_result(slot),
        ),
    decreases slots.len(),
{
    let settled = |slot: ParallelSlot| slot_is_settled(slot);
    let result = |slot: ParallelSlot| slot_result(slot);
    if slots.len() == 0 {
        reveal(Seq::filter);
        assert(run_records(slots) =~= slots.filter(settled).map_values(result));
    } else {
        let rest = slots.drop_first();
        assert forall|k: int| 0 <= k < rest.len() implies (#[trigger] rest[k]) is Some by {
            assert(rest[k] == slots[k + 1]);
        }
        lemma_run_records(rest);
        lemma_filter_from_the_front(slots);
        assert(slots[0] is Some);
        if slot_is_settled(slots[0]) {
            assert((seq![slots[0]] + rest.filter(settled)).map_values(result) =~= seq![slot_result(slots[0])]
                + rest.filter(settled).map_values(result));
        } else {
            assert(Seq::<ParallelSlot>::empty() + rest.filter(settled) =~= rest.filter(settled));
        }
    }
}

proof fn lemma_run_error(slots: Seq<ParallelSlot>, first: int)
    requires
        forall|k: int| 0 <= k < slots.len() ==> (#[trigger] slots[k]) is Some,
    ensures
        run_error(slots) is None <==> forall|k: int| 0 <= k < slots.len() ==> slot_is_settled(#[trigger] slots[k]),
        0 <= first < slots.len() && !slot_is_settled(slots[first]) && (forall|j: int|
            0 <= j < first ==> slot_is_settled(#[trigger] slots[j])) ==> run_error(slots) == Some(
            slots[first]->Some_0->Err_0@,
        ),
    decreases slots.len(),
{
    if slots.len() > 0 {
        let rest = slots.drop_first();
        assert forall|k: int| 0 <= k < rest.len() implies (#[trigger] rest[k]) is Some by {
            assert(rest[k] == slots[k + 1]);
        }
        lemma_run_error(rest, first - 1);
        assert(!has_missing(rest));
        assert(slots[0] is Some);
        if slot_is_settled(slots[0]) {
            if forall|k: int| 0 <= k < slots.len() ==> slot_is_settled(#[trigger] slots[k]) {
                assert forall|k: int| 0 <= k < rest.len() implies slot_is_settled(#[trigger] rest[k]) by {
                    assert(rest[k] == slots[k + 1]);
                }
            }
            if run_error(slots) is None {
                assert forall|k: int| 0 <= k < slots.len() implies slot_is_settled(#[trigger] slots[k]) by {
                    if k > 0 {
                        assert(slot_is_settled(rest[k - 1]));
                    }
                }
            }
            if 0 < first < slots.len() && (forall|j: int| 0 <= j < first ==> slot_is_settled(#[trigger] slots[j])) {
                assert(rest[first - 1] == slots[first]);
                assert forall|j: int| 0 <= j < first - 1 implies slot_is_settled(#[trigger] rest[j]) by {
                    assert(rest[j] == slots[j + 1]);
                }
            }
        }
    }
}

proof fn lemma_filter_from_the_front(slots: Seq<ParallelSlot>)
    requires
        slots.len() > 0,
    ensures
        slots.filter(|slot: ParallelSlot| slot_is_settled(slot)) == (if slot_is_settled(slots[0]) {
            seq![slots[0]]
        } else {
            Seq::empty()
        }) + slots.drop_first().filter(|slot: ParallelSlot| slot_is_settled(slot)),
    decreases slots.len(),
{
    reveal(Seq::filter);
    let wanted = |slot: ParallelSlot| slot_is_settled(slot);
    if slots.len() == 1 {
        assert(slots.drop_last().filter(wanted) =~= Seq::empty());
        assert(slots.drop_first().filter(wanted) =~= Seq::empty());
    } else {
        let shorter = slots.drop_last();
        lemma_filter_from_the_front(shorter);
        assert(shorter.drop_first() =~= slots.drop_first().drop_last());
        assert(slots.drop_first().last() == slots.last());
    }
}

/// A result that is missing is reported before any fault of another call, and
/// nothing behind it is recorded.
pub proof fn law_missing_results_are_reported(slots: Seq<ParallelSlot>, missing: int)
    requires
        0 <= missing < slots.len(),
        slots[missing] is None,
        forall|k: int| 0 <= k < missing ==> (#[trigger] slots[k]) is Some,
    ensures
        run_error(slots) == Some(ErrorView::State("parallel Tool result is missing"@)),
        run_records(slots) == run_records(slots.take(missing)),
    decreases slots.len(),
{
    let rest = slots.drop_first();
    if missing > 0 {
        assert(rest[missing - 1] == slots[missing]);
        assert forall|k: int| 0 <= k < missing - 1 implies (#[trigger] rest[k]) is Some by {
            assert(slots[k + 1] is Some);
        }
        law_missing_results_are_reported(rest, missing - 1);
        assert(slots.take(missing).drop_first() =~= rest.take(missing - 1));
        assert(slots.take(missing)[0] == slots[0]);
    } else {
        assert(slots.take(missing) =~= Seq::<ParallelSlot>::empty());
    }
}

} // verus!
