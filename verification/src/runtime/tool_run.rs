//! Execution of an authorized batch of Tool calls, segment by segment.

use vstd::prelude::*;

use crate::capability::{RegisteredTool, ToolRegistry};
use crate::error::{ErrorView, HarnessError};
use crate::items::ModelToolCall;
use crate::runtime::batch::{law_parallel_runs_are_maximal, next_segment, pending_call_ids, segment_at, Segment};
use crate::runtime::journal::JournalOutcome;

verus! {

/// A segment is about to run, unless steering waits.
pub struct SegmentReady<'a> {
    calls: &'a [ModelToolCall],
    index: usize,
    segment: Segment,
}

/// A segment is running.
pub struct SegmentRunning<'a> {
    calls: &'a [ModelToolCall],
    index: usize,
    segment: Segment,
}

/// What a batch needs next.
pub enum BatchStep<'a> {
    /// Give up the calls that are left where steering waits.
    BeforeEffect(SegmentReady<'a>),
    /// Run the calls of the segment.
    Execute(SegmentRunning<'a>),
    /// The batch is settled; `true` where steering overtook the rest of it.
    Finished(bool),
    /// Report an error.
    Fail(HarnessError),
}

impl<'a> SegmentReady<'a> {
    /// Calls of the whole batch.
    pub closed spec fn calls(self) -> Seq<ModelToolCall> {
        self.calls@
    }

    /// Index of the first call of the segment.
    pub closed spec fn index(self) -> nat {
        self.index as nat
    }

    /// Segment itself.
    pub closed spec fn segment(self) -> Segment {
        self.segment
    }

    #[verifier::type_invariant]
    spec fn inside(self) -> bool {
        self.index < self.segment.end <= self.calls@.len()
    }

    /// Returns the identities of the calls that have not run.
    pub fn pending(&self) -> (ids: Vec<&'a str>)
        ensures
            ids@.len() == self.calls().len() - self.index(),
            forall|k: int| 0 <= k < ids@.len() ==> (#[trigger] ids@[k])@ == self.calls()[self.index() + k].call_id@,
    {
        proof {
            use_type_invariant(self);
        }
        pending_call_ids(self.calls, self.index)
    }
}

impl<'a> SegmentRunning<'a> {
    /// Calls of the whole batch.
    pub closed spec fn calls(self) -> Seq<ModelToolCall> {
        self.calls@
    }

    /// Index of the first call of the segment.
    pub closed spec fn index(self) -> nat {
        self.index as nat
    }

    /// Segment itself.
    pub closed spec fn segment(self) -> Segment {
        self.segment
    }

    #[verifier::type_invariant]
    spec fn inside(self) -> bool {
        self.index < self.segment.end <= self.calls@.len()
    }

    /// Returns whether the calls run at the same time.
    pub fn parallel(&self) -> (result: bool)
        ensures
            result == self.segment().parallel,
    {
        self.segment.parallel
    }

    /// Returns the calls of the segment.
    pub fn members(&self) -> (members: Vec<&'a ModelToolCall>)
        ensures
            self.index() < self.segment().end <= self.calls().len(),
            members@.len() == self.segment().end - self.index(),
            forall|k: int| 0 <= k < members@.len() ==> *(#[trigger] members@[k]) == self.calls()[self.index() + k],
    {
        proof {
            use_type_invariant(self);
        }
        let calls = self.calls;
        let start = self.index;
        let end = self.segment.end;
        let mut members: Vec<&'a ModelToolCall> = Vec::new();
        let mut k: usize = start;
        while k < end
            invariant
                start <= k <= end <= calls@.len(),
                members@.len() == k - start,
                forall|j: int| 0 <= j < members@.len() ==> *(#[trigger] members@[j]) == calls@[start + j],
            decreases end - k,
        {
            members.push(&calls[k]);
            k += 1;
        }
        members
    }
}

/// The next segment is prepared, or the batch is settled.
pub open spec fn prepares(
    tools: Map<Seq<char>, RegisteredTool>,
    calls: Seq<ModelToolCall>,
    index: int,
    max_parallel: usize,
    step: BatchStep<'_>,
) -> bool {
    if index >= calls.len() {
        step == BatchStep::Finished(false)
    } else {
        match segment_at(tools, calls, index, max_parallel) {
            Err(fault) => step matches BatchStep::Fail(error) && error@ == fault,
            Ok(segment) => step matches BatchStep::BeforeEffect(ready) && ready.calls() == calls && ready.index() == index
                && ready.segment() == segment,
        }
    }
}

/// Begins or continues a batch at a call.
pub fn run_from<'a>(tools: &ToolRegistry, calls: &'a [ModelToolCall], index: usize, max_parallel: usize) -> (step: BatchStep<
    'a,
>)
    ensures
        prepares(tools@, calls@, index as int, max_parallel, step),
{
    if index >= calls.len() {
        return BatchStep::Finished(false);
    }
    match next_segment(tools, calls, index, max_parallel) {
        Err(error) => BatchStep::Fail(error),
        Ok(segment) => BatchStep::BeforeEffect(SegmentReady { calls, index, segment }),
    }
}

impl<'a> SegmentReady<'a> {
    /// Runs the segment, unless steering has overtaken it.
    pub fn checked(self, result: Result<JournalOutcome, HarnessError>) -> (step: BatchStep<'a>)
        ensures
            match result {
                Err(error) => step == BatchStep::Fail(error),
                Ok(outcome) => if outcome.superseded {
                    step == BatchStep::Finished(true)
                } else {
                    step matches BatchStep::Execute(running) && running.calls() == self.calls() && running.index()
                        == self.index() && running.segment() == self.segment()
                },
            },
    {
        proof {
            use_type_invariant(&self);
        }
        match result {
            Err(error) => BatchStep::Fail(error),
            Ok(outcome) => {
                if outcome.superseded {
                    return BatchStep::Finished(true);
                }
                BatchStep::Execute(SegmentRunning { calls: self.calls, index: self.index, segment: self.segment })
            },
        }
    }
}

impl<'a> SegmentRunning<'a> {
    /// Goes on behind the segment once its calls are settled.
    pub fn executed(self, tools: &ToolRegistry, max_parallel: usize, result: Result<(), HarnessError>) -> (step: BatchStep<
        'a,
    >)
        ensures
            match result {
                Err(error) => step == BatchStep::Fail(error),
                Ok(()) => prepares(tools@, self.calls(), self.segment().end as int, max_parallel, step),
            },
    {
        match result {
            Err(error) => BatchStep::Fail(error),
            Ok(()) => run_from(tools, self.calls, self.segment.end, max_parallel),
        }
    }
}

/// The calls of a batch run from front to back: a run is finished when no call
/// is left, a call of an unknown Tool ends it, and else the next segment is
/// prepared from the first call that is left.
pub proof fn law_batches_run_to_their_end(
    tools: Map<Seq<char>, RegisteredTool>,
    calls: Seq<ModelToolCall>,
    index: int,
    max_parallel: usize,
    step: BatchStep<'_>,
)
    requires
        0 <= index <= calls.len() <= usize::MAX,
        prepares(tools, calls, index, max_parallel, step),
    ensures
        step is Finished <==> index == calls.len(),
        step matches BatchStep::Finished(superseded) ==> !superseded,
        step is Fail <==> index < calls.len() && !tools.contains_key(calls[index].name@),
        step matches BatchStep::BeforeEffect(ready) ==> ready.calls() == calls && ready.index() == index && Ok::<
            Segment,
            ErrorView,
        >(ready.segment()) == segment_at(tools, calls, index, max_parallel),
{
    if index < calls.len() {
        law_parallel_runs_are_maximal(tools, calls, index, max_parallel);
    }
}

/// No call of a batch runs once steering has overtaken it or its record could
/// not be written, and every call of a segment runs where it was recorded.
pub proof fn law_segments_run_as_recorded<'a>(
    ready: SegmentReady<'a>,
    written: Result<JournalOutcome, HarnessError>,
    step: BatchStep<'a>,
)
    requires
        call_ensures(SegmentReady::<'a>::checked, (ready, written), step),
    ensures
        step is Execute <==> written is Ok && !written->Ok_0.superseded,
        step is Fail <==> written is Err,
        written is Ok && written->Ok_0.superseded ==> step == BatchStep::<'a>::Finished(true),
        step matches BatchStep::Execute(running) ==> running.calls() == ready.calls() && running.index() == ready.index()
            && running.segment() == ready.segment(),
{
}

} // verus!
