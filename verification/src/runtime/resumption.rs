//! Resumption of a Turn that is paused before an approval.

use vstd::prelude::*;
use vstd::slice::slice_subrange;

use crate::capability::{ApprovalRequest, RegisteredTool, ToolAuthorization, ToolDescriptor, ToolRegistry};
use crate::error::{ErrorView, HarnessError};
use crate::items::{ApprovalDecision, ExecutionBinding, Item, ItemKind, ModelToolCall, Thread, Turn, TurnStatus};
use crate::kernel::{ActorIdentity, ActorView, CapabilityOrigin, ThreadId, TurnId};
use crate::runtime::journal::JournalOutcome;
use crate::runtime::resume::{
    approval_resume_evidence, batch_authority, call_authority, law_resumed_batch_grants_every_call, binding_check, consumed_steps, reports, require_execution_binding, resume_point,
    state_error, used_call_ids, validate_resumed_batch_authority, ApprovalResumeEvidence, ResumePoint,
};
use crate::runtime::route::{is_model, FrozenModelIdentity, ModelRoute, RuntimeModel};
use crate::runtime::turn::{begin_loop, enters, TurnStep};
use crate::runtime::validate::{
    approval_decision_check, capacity_check, require_runtime_capacity, validate_approval_decision, StateCapacity,
};
use crate::text::{join3, join4, same_text};

verus! {

/// Index of the first running Turn, from `n` on.
pub open spec fn first_running(turns: Seq<Turn>, n: int) -> Option<int>
    decreases turns.len() - n,
{
    if n < 0 || n >= turns.len() {
        None
    } else if turns[n].status == TurnStatus::Running {
        Some(n)
    } else {
        first_running(turns, n + 1)
    }
}

/// Error of a Turn that is not the one that runs.
pub open spec fn not_running(turn_id: Seq<char>, thread_id: Seq<char>) -> ErrorView {
    ErrorView::State("turn "@ + turn_id + " is not the running turn in thread "@ + thread_id)
}

/// Index of the Turn with this identity, where it is the only one that runs.
pub open spec fn running_turn(turns: Seq<Turn>, turn_id: Seq<char>, thread_id: Seq<char>) -> Result<int, ErrorView> {
    match first_running(turns, 0) {
        Some(index) => if turns[index].id@ != turn_id {
            Err(not_running(turn_id, thread_id))
        } else if first_running(turns, index + 1) is Some {
            Err(ErrorView::State("thread projection contains multiple running turns"@))
        } else {
            Ok(index)
        },
        None => Err(not_running(turn_id, thread_id)),
    }
}

fn find_running(turns: &Vec<Turn>, from: usize) -> (index: Option<usize>)
    ensures
        match index {
            Some(index) => first_running(turns@, from as int) == Some(index as int) && index < turns@.len(),
            None => first_running(turns@, from as int) is None,
        },
{
    let mut n: usize = from;
    while n < turns.len()
        invariant
            first_running(turns@, from as int) == first_running(turns@, n as int),
        decreases turns@.len() - n,
    {
        if turns[n].status == TurnStatus::Running {
            return Some(n);
        }
        n += 1;
    }
    None
}

fn require_running(turns: &Vec<Turn>, turn_id: &TurnId, thread_id: &ThreadId) -> (result: Result<usize, HarnessError>)
    ensures
        match result {
            Ok(index) => running_turn(turns@, turn_id@, thread_id@) == Ok::<int, ErrorView>(index as int) && index
                < turns@.len(),
            Err(error) => running_turn(turns@, turn_id@, thread_id@) == Err::<int, ErrorView>(error@),
        },
{
    let found = match find_running(turns, 0) {
        Some(index) => if turns[index].id.same(turn_id) {
            Some(index)
        } else {
            None
        },
        None => None,
    };
    match found {
        None => Err(
            HarnessError::State(
                join4("turn ", turn_id.as_str(), " is not the running turn in thread ", thread_id.as_str()),
            ),
        ),
        Some(index) => {
            let total: usize = turns.len();
            assert(index < total);
            if find_running(turns, index + 1).is_some() {
                return Err(state_error("thread projection contains multiple running turns"));
            }
            Ok(index)
        },
    }
}

/// Whether what a paused call rests on is still configured: its Model on the
/// route, and its Tool under the same provenance.
pub open spec fn configuration_check(
    entries: Seq<RuntimeModel>,
    tools: Map<Seq<char>, RegisteredTool>,
    evidence: ApprovalResumeEvidence,
) -> Result<(), ErrorView> {
    if !exists|k: int|
        0 <= k < entries.len() && is_model(#[trigger] entries[k], evidence.model_id@, evidence.model_origin@) {
        Err(
            ErrorView::State(
                "approval continuation Model identity or origin is absent from the configured route"@,
            ),
        )
    } else if !tools.contains_key(evidence.tool@) {
        Err(ErrorView::State("approval continuation Tool "@ + evidence.tool@ + " is not registered"@))
    } else if tools[evidence.tool@].origin@ != evidence.tool_origin@ {
        Err(ErrorView::State("approval continuation Tool origin changed after restart"@))
    } else {
        Ok(())
    }
}

/// A paused Turn that may be resumed, as far as its journal shows.
pub struct ResumePlan {
    turn_index: usize,
    evidence: ApprovalResumeEvidence,
    descriptor: ToolDescriptor,
    origin: CapabilityOrigin,
}

impl ResumePlan {
    /// Index of the Turn in its Thread.
    pub closed spec fn turn_index(self) -> nat {
        self.turn_index as nat
    }

    /// Evidence of the paused call.
    pub closed spec fn evidence(self) -> ApprovalResumeEvidence {
        self.evidence
    }

    /// Description of the Tool.
    pub closed spec fn descriptor(self) -> ToolDescriptor {
        self.descriptor
    }

    /// Provenance of the Tool.
    pub closed spec fn origin(self) -> CapabilityOrigin {
        self.origin
    }

    /// Returns the index of the Turn in its Thread.
    pub fn index(&self) -> (index: usize)
        ensures
            index == self.turn_index(),
    {
        self.turn_index
    }

    /// Returns the number of items of the Turn that the Model had seen.
    pub fn request_items(&self) -> (count: usize)
        ensures
            count == self.evidence().model_request_item_index,
    {
        self.evidence.model_request_item_index
    }

    /// Returns whether the paused call lies inside its recorded batch.
    pub fn is_coherent(&self) -> (result: bool)
        ensures
            result == coherent(self.evidence()),
    {
        self.evidence.current_batch_index < self.evidence.batch_calls.len()
    }
}

/// Whether the paused call lies inside its recorded batch.
pub open spec fn coherent(evidence: ApprovalResumeEvidence) -> bool {
    evidence.current_batch_index < evidence.batch_calls@.len()
}

/// Whether a plan is the one for a paused Turn.
pub open spec fn plans(
    plan: ResumePlan,
    turns: Seq<Turn>,
    index: int,
    point: ResumePoint,
    entries: Seq<RuntimeModel>,
    tools: Map<Seq<char>, RegisteredTool>,
) -> bool {
    &&& plan.turn_index() == index
    &&& reports(plan.evidence(), turns[index].items@, point)
    &&& configuration_check(entries, tools, plan.evidence()) is Ok
    &&& plan.descriptor() == tools[plan.evidence().tool@].descriptor
    &&& plan.origin() == tools[plan.evidence().tool@].origin
}

/// Outcome of the checks that come before any outside work.
pub open spec fn planned(
    turns: Seq<Turn>,
    thread_id: Seq<char>,
    turn_id: Seq<char>,
    capacity: StateCapacity,
    binding: Option<ExecutionBinding>,
    requester: ActorView,
    entries: Seq<RuntimeModel>,
    tools: Map<Seq<char>, RegisteredTool>,
    result: Result<ResumePlan, HarnessError>,
) -> bool {
    match capacity_check(capacity) {
        Err(fault) => result matches Err(error) && error@ == fault,
        Ok(()) => match running_turn(turns, turn_id, thread_id) {
            Err(fault) => result matches Err(error) && error@ == fault,
            Ok(index) => match binding_check(turns[index].items@, binding) {
                Err(fault) => result matches Err(error) && error@ == fault,
                Ok(()) => match resume_point(turns[index].items@, requester) {
                    Err(fault) => result matches Err(error) && error@ == fault,
                    Ok(point) => match result {
                        Ok(plan) => plans(plan, turns, index, point, entries, tools),
                        Err(error) => exists|evidence: ApprovalResumeEvidence| #[trigger]
                            reports(evidence, turns[index].items@, point) && configuration_check(entries, tools, evidence)
                                == Err::<(), ErrorView>(error@),
                    },
                },
            },
        },
    }
}

/// Checks that a paused Turn may be resumed: that it alone runs, under the
/// same binding and for the same party, and that what its call rests on is
/// still configured.
pub fn prepare_approval_resume(
    thread: &Thread,
    thread_id: &ThreadId,
    turn_id: &TurnId,
    capacity: &StateCapacity,
    binding: &Option<ExecutionBinding>,
    requester: &ActorIdentity,
    route: &ModelRoute,
    tools: &ToolRegistry,
) -> (result: Result<ResumePlan, HarnessError>)
    ensures
        planned(
            thread.turns@,
            thread_id@,
            turn_id@,
            *capacity,
            *binding,
            requester@,
            route.entries@,
            tools@,
            result,
        ),
{
    if let Err(error) = require_runtime_capacity(capacity) {
        return Err(error);
    }
    let index = match require_running(&thread.turns, turn_id, thread_id) {
        Ok(index) => index,
        Err(error) => {
            return Err(error);
        },
    };
    let turn = &thread.turns[index];
    if let Err(error) = require_execution_binding(turn, binding.as_ref()) {
        return Err(error);
    }
    let evidence = match approval_resume_evidence(turn, requester) {
        Ok(evidence) => evidence,
        Err(error) => {
            return Err(error);
        },
    };
    if !route.contains(evidence.model_id.as_str(), &evidence.model_origin) {
        return Err(
            state_error("approval continuation Model identity or origin is absent from the configured route"),
        );
    }
    let registered = match tools.get(evidence.tool.as_str()) {
        Some(registered) => registered,
        None => {
            return Err(
                HarnessError::State(
                    join3("approval continuation Tool ", evidence.tool.as_str(), " is not registered"),
                ),
            );
        },
    };
    if !registered.origin.same(&evidence.tool_origin) {
        return Err(state_error("approval continuation Tool origin changed after restart"));
    }
    Ok(
        ResumePlan {
            turn_index: index,
            descriptor: registered.descriptor.clone(),
            origin: registered.origin.clone(),
            evidence,
        },
    )
}

/// The approver has to be asked again.
pub struct AwaitResumedApproval {
    evidence: ApprovalResumeEvidence,
    request: ApprovalRequest,
}

/// The decision of the approver is being recorded.
pub struct ResumedApprovalRecorded {
    evidence: ApprovalResumeEvidence,
    decision: ApprovalDecision,
}

/// A later call of the batch is being authorized.
pub struct ResumedAuthorization {
    evidence: ApprovalResumeEvidence,
    index: usize,
}

/// The batch is running.
pub struct ResumedBatch {
    evidence: ApprovalResumeEvidence,
}

/// What a resumption needs next.
pub enum ResumeStep {
    /// Record the decision of the approver.
    RecordApproval(ItemKind, ResumedApprovalRecorded),
    /// Authorize a later call of the batch.
    Authorize(ResumedAuthorization),
    /// Run the batch.
    ExecuteBatch(ResumedBatch),
    /// Settle the Turn with the error, and report it.
    Settle(HarnessError),
    /// Report an error.
    Fail(HarnessError),
}

impl AwaitResumedApproval {
    /// Evidence of the paused call.
    pub closed spec fn evidence(self) -> ApprovalResumeEvidence {
        self.evidence
    }

    /// Question for the approver.
    pub closed spec fn request(self) -> ApprovalRequest {
        self.request
    }

    /// Returns the question for the approver.
    pub fn question(&self) -> (request: &ApprovalRequest)
        ensures
            *request == self.request(),
    {
        &self.request
    }
}

impl ResumedApprovalRecorded {
    /// Evidence of the paused call.
    pub closed spec fn evidence(self) -> ApprovalResumeEvidence {
        self.evidence
    }

    /// Decision of the approver.
    pub closed spec fn decision(self) -> ApprovalDecision {
        self.decision
    }
}

impl ResumedAuthorization {
    /// Evidence of the paused call.
    pub closed spec fn evidence(self) -> ApprovalResumeEvidence {
        self.evidence
    }

    /// Position of the call that is authorized.
    pub closed spec fn index(self) -> nat {
        self.index as nat
    }

    #[verifier::type_invariant]
    spec fn inside(self) -> bool {
        self.evidence.current_batch_index < self.index < self.evidence.batch_calls@.len()
    }

    /// Returns the call and the digest of the request that led to it.
    pub fn subject(&self) -> (subject: (&ModelToolCall, &String))
        ensures
            self.index() < self.evidence().batch_calls@.len(),
            *subject.0 == self.evidence().batch_calls@[self.index() as int],
            *subject.1 == self.evidence().model_request_sha256,
    {
        proof {
            use_type_invariant(self);
        }
        (&self.evidence.batch_calls[self.index], &self.evidence.model_request_sha256)
    }
}

impl ResumedBatch {
    /// Evidence of the paused call.
    pub closed spec fn evidence(self) -> ApprovalResumeEvidence {
        self.evidence
    }

    /// Returns the calls of the batch.
    pub fn subject(&self) -> (calls: &Vec<ModelToolCall>)
        ensures
            calls@ == self.evidence().batch_calls@,
    {
        &self.evidence.batch_calls
    }
}

/// Question for the approver of a paused call.
pub open spec fn resumed_request(plan: ResumePlan, thread_id: ThreadId, turn_id: TurnId) -> ApprovalRequest {
    ApprovalRequest {
        id: plan.evidence().approval_id,
        requested_by: plan.evidence().requested_by,
        authorization: ToolAuthorization {
            thread_id,
            turn_id,
            call_id: plan.evidence().call_id,
            descriptor: plan.descriptor(),
            origin: plan.origin(),
            input: plan.evidence().input,
        },
        reason: plan.evidence().reason,
        risk: plan.evidence().risk,
    }
}

impl ResumePlan {
    /// Goes on only where the rebuilt Model request has the recorded digest.
    pub fn confirmed(self, digest: Result<String, HarnessError>, thread_id: &ThreadId, turn_id: &TurnId) -> (result: Result<
        AwaitResumedApproval,
        HarnessError,
    >)
        ensures
            match digest {
                Err(fault) => result == Err::<AwaitResumedApproval, HarnessError>(fault),
                Ok(digest) => if digest@ != self.evidence().model_request_sha256@ {
                    result matches Err(error) && error@ == ErrorView::State(
                        "approval continuation Model request changed after restart"@,
                    )
                } else {
                    result matches Ok(next) && next.evidence() == self.evidence() && next.request() == resumed_request(
                        self,
                        *thread_id,
                        *turn_id,
                    )
                },
            },
    {
        let digest = match digest {
            Ok(digest) => digest,
            Err(error) => {
                return Err(error);
            },
        };
        if !same_text(digest.as_str(), self.evidence.model_request_sha256.as_str()) {
            return Err(state_error("approval continuation Model request changed after restart"));
        }
        let request = ApprovalRequest {
            id: self.evidence.approval_id.clone(),
            requested_by: self.evidence.requested_by.clone(),
            authorization: ToolAuthorization {
                thread_id: thread_id.clone(),
                turn_id: turn_id.clone(),
                call_id: self.evidence.call_id.clone(),
                descriptor: self.descriptor,
                origin: self.origin,
                input: self.evidence.input.clone(),
            },
            reason: self.evidence.reason.clone(),
            risk: self.evidence.risk,
        };
        Ok(AwaitResumedApproval { evidence: self.evidence, request })
    }
}

impl AwaitResumedApproval {
    /// Takes the decision of the approver. A faulty reply leaves the Turn
    /// paused.
    pub fn decided(self, reply: Result<ApprovalDecision, HarnessError>) -> (step: ResumeStep)
        ensures
            match reply {
                Err(error) => step == ResumeStep::Fail(error),
                Ok(decision) => match approval_decision_check(decision) {
                    Err(fault) => step matches ResumeStep::Fail(error) && error@ == fault,
                    Ok(()) => step matches ResumeStep::RecordApproval(item, next) && item == (ItemKind::ApprovalDecision {
                        approval_id: self.evidence().approval_id,
                        call_id: self.evidence().call_id,
                        decision,
                    }) && next.evidence() == self.evidence() && next.decision() == decision,
                },
            },
    {
        let decision = match reply {
            Ok(decision) => decision,
            Err(error) => {
                return ResumeStep::Fail(error);
            },
        };
        if let Err(error) = validate_approval_decision(&decision) {
            return ResumeStep::Fail(error);
        }
        let item = ItemKind::ApprovalDecision {
            approval_id: self.evidence.approval_id.clone(),
            call_id: self.evidence.call_id.clone(),
            decision: decision.clone(),
        };
        ResumeStep::RecordApproval(item, ResumedApprovalRecorded { evidence: self.evidence, decision })
    }
}

/// The next call of the batch is authorized. Behind the last one the batch
/// runs, where the journal grants every call up to the paused one.
pub open spec fn resumes_at(
    evidence: ApprovalResumeEvidence,
    index: int,
    items: Seq<Item>,
    tools: Map<Seq<char>, RegisteredTool>,
    step: ResumeStep,
) -> bool {
    if index < evidence.batch_calls@.len() {
        step matches ResumeStep::Authorize(next) && next.evidence() == evidence && next.index() == index
    } else {
        match batch_authority(items, evidence.batch_calls@.take(evidence.current_batch_index + 1), tools) {
            Err(fault) => step matches ResumeStep::Fail(error) && error@ == fault,
            Ok(()) => step matches ResumeStep::ExecuteBatch(next) && next.evidence() == evidence,
        }
    }
}

fn resume_at(evidence: ApprovalResumeEvidence, index: usize, turn: &Turn, tools: &ToolRegistry) -> (step: ResumeStep)
    requires
        coherent(evidence),
        evidence.current_batch_index < index,
    ensures
        resumes_at(evidence, index as int, turn.items@, tools@, step),
{
    let total: usize = evidence.batch_calls.len();
    if index < total {
        return ResumeStep::Authorize(ResumedAuthorization { evidence, index });
    }
    let granted = slice_subrange(evidence.batch_calls.as_slice(), 0, evidence.current_batch_index + 1);
    assert(granted@ =~= evidence.batch_calls@.take(evidence.current_batch_index + 1));
    if let Err(error) = validate_resumed_batch_authority(turn, granted, tools) {
        return ResumeStep::Fail(error);
    }
    ResumeStep::ExecuteBatch(ResumedBatch { evidence })
}

impl ResumedApprovalRecorded {
    /// Goes on once the decision is recorded: a denial settles the Turn.
    pub fn recorded(self, turn: &Turn, tools: &ToolRegistry, result: Result<JournalOutcome, HarnessError>) -> (step: ResumeStep)
        requires
            coherent(self.evidence()),
        ensures
            match result {
                Err(error) => step == ResumeStep::Fail(error),
                Ok(_) => match self.decision() {
                    ApprovalDecision::Deny { reason } => step == ResumeStep::Settle(
                        HarnessError::ApprovalDenied { tool: self.evidence().tool, reason },
                    ),
                    ApprovalDecision::Approve => resumes_at(
                        self.evidence(),
                        self.evidence().current_batch_index + 1,
                        turn.items@,
                        tools@,
                        step,
                    ),
                },
            },
    {
        if let Err(error) = result {
            return ResumeStep::Fail(error);
        }
        match self.decision {
            ApprovalDecision::Deny { reason } => ResumeStep::Settle(
                HarnessError::ApprovalDenied { tool: self.evidence.tool, reason },
            ),
            ApprovalDecision::Approve => {
                let total: usize = self.evidence.batch_calls.len();
                assert(self.evidence.current_batch_index < total);
                let next: usize = self.evidence.current_batch_index + 1;
                resume_at(self.evidence, next, turn, tools)
            },
        }
    }
}

impl ResumedAuthorization {
    /// Goes on once the call is granted.
    pub fn authorized(self, turn: &Turn, tools: &ToolRegistry, result: Result<(), HarnessError>) -> (step: ResumeStep)
        ensures
            match result {
                Err(error) => step == ResumeStep::Fail(error),
                Ok(()) => resumes_at(self.evidence(), self.index() as int + 1, turn.items@, tools@, step),
            },
    {
        proof {
            use_type_invariant(&self);
        }
        if let Err(error) = result {
            return ResumeStep::Fail(error);
        }
        let total: usize = self.evidence.batch_calls.len();
        assert(self.index < total);
        let next: usize = self.index + 1;
        resume_at(self.evidence, next, turn, tools)
    }
}

impl ResumedBatch {
    /// Continues the Agent Loop behind the batch, with the budget and the
    /// identities that the Turn had used.
    pub fn executed(self, max_steps: usize, result: Result<bool, HarnessError>) -> (step: TurnStep)
        ensures
            match result {
                Err(error) => step == TurnStep::Fail(error),
                Ok(_) => enters(
                    self.evidence().consumed_steps as nat,
                    max_steps as nat,
                    self.evidence().tool_call_ids@.dom(),
                    step,
                ),
            },
    {
        match result {
            Err(error) => TurnStep::Fail(error),
            Ok(_) => begin_loop(self.evidence.consumed_steps, max_steps, self.evidence.tool_call_ids),
        }
    }
}

/// A resumed Turn keeps to the budget that it was started with: the steps
/// that its journal records count against it.
pub proof fn law_resumed_turn_keeps_its_budget(
    turns: Seq<Turn>,
    index: int,
    point: ResumePoint,
    plan: ResumePlan,
    entries: Seq<RuntimeModel>,
    tools: Map<Seq<char>, RegisteredTool>,
    max_steps: nat,
    step: TurnStep,
)
    requires
        plans(plan, turns, index, point, entries, tools),
        enters(plan.evidence().consumed_steps as nat, max_steps, plan.evidence().tool_call_ids@.dom(), step),
    ensures
        match step {
            TurnStep::ApplySteering(before) => before.progress().step() == consumed_steps(
                turns[index].items@,
            ) < max_steps && before.progress().call_ids() == used_call_ids(turns[index].items@),
            TurnStep::Settle(error) => error@ == ErrorView::MaxSteps(max_steps)
                && consumed_steps(turns[index].items@) >= max_steps,
            _ => false,
        },
{
}

/// Index of the first Turn that has this identity and runs, from `n` on.
pub open spec fn running_with(turns: Seq<Turn>, turn_id: Seq<char>, n: int) -> Option<int>
    decreases turns.len() - n,
{
    if n < 0 || n >= turns.len() {
        None
    } else if turns[n].id@ == turn_id && turns[n].status == TurnStatus::Running {
        Some(n)
    } else {
        running_with(turns, turn_id, n + 1)
    }
}

/// Finds the running Turn that is to be resumed.
pub fn resumable_turn(thread: &Thread, thread_id: &ThreadId, turn_id: &TurnId) -> (result: Result<usize, HarnessError>)
    ensures
        match result {
            Ok(index) => running_with(thread.turns@, turn_id@, 0) == Some(index as int) && index < thread.turns@.len(),
            Err(error) => running_with(thread.turns@, turn_id@, 0) is None && error@ == not_running(turn_id@, thread_id@),
        },
{
    let turns = &thread.turns;
    let mut n: usize = 0;
    while n < turns.len()
        invariant
            *turns == thread.turns,
            running_with(turns@, turn_id@, 0) == running_with(turns@, turn_id@, n as int),
        decreases turns@.len() - n,
    {
        if turns[n].id.same(turn_id) && turns[n].status == TurnStatus::Running {
            return Ok(n);
        }
        n += 1;
    }
    Err(
        HarnessError::State(
            join4("turn ", turn_id.as_str(), " is not the running turn in thread ", thread_id.as_str()),
        ),
    )
}

/// Leaves out every Turn with one identity, keeping the others in order: the
/// conversation that the Turn itself was started with.
pub fn without_turn(thread: Thread, turn_id: &TurnId) -> (prior: Thread)
    ensures
        prior.id == thread.id,
        prior.turns@ == thread.turns@.filter(|turn: Turn| turn.id@ != turn_id@),
{
    let ghost all = thread.turns@;
    let ghost keeps = |turn: Turn| turn.id@ != turn_id@;
    let mut turns = thread.turns;
    let total: usize = turns.len();
    let mut seen: usize = 0;
    let mut kept: usize = 0;
    assert(all.take(0).filter(keeps) =~= Seq::empty());
    assert(turns@ =~= all.take(0).filter(keeps) + all.skip(0));
    while seen < total
        invariant
            seen <= total == all.len(),
            keeps == (|turn: Turn| turn.id@ != turn_id@),
            kept == all.take(seen as int).filter(keeps).len(),
            turns@ == all.take(seen as int).filter(keeps) + all.skip(seen as int),
        decreases total - seen,
    {
        let ghost before = all.take(seen as int).filter(keeps);
        proof {
            assert(all.take(seen + 1).drop_last() =~= all.take(seen as int));
            assert(all.take(seen + 1).last() == all[seen as int]);
            reveal(Seq::filter);
            assert(turns@[kept as int] == all[seen as int]);
        }
        if turns[kept].id.same(turn_id) {
            turns.remove(kept);
            assert(turns@ =~= before + all.skip(seen + 1));
        } else {
            kept += 1;
            assert(turns@ =~= before.push(all[seen as int]) + all.skip(seen + 1));
        }
        seen += 1;
    }
    assert(all.take(total as int) =~= all);
    assert(turns@ =~= all.filter(keeps));
    Thread { id: thread.id, turns }
}

/// Index of the first Turn with an identity.
pub open spec fn turn_with(turns: Seq<Turn>, turn_id: Seq<char>, n: int) -> Option<int>
    decreases turns.len() - n,
{
    if n < 0 || n >= turns.len() {
        None
    } else if turns[n].id@ == turn_id {
        Some(n)
    } else {
        turn_with(turns, turn_id, n + 1)
    }
}

/// Whether the approvals of a recovered Turn are abandoned: only where the
/// Turn was interrupted.
pub open spec fn abandons(recovered: Option<Thread>, turn_id: Seq<char>) -> bool {
    match recovered {
        None => false,
        Some(thread) => match turn_with(thread.turns@, turn_id, 0) {
            Some(index) => thread.turns@[index].status == TurnStatus::Interrupted,
            None => false,
        },
    }
}

/// Decides whether the approvals of a recovered Turn are abandoned.
pub fn abandons_approvals(recovered: &Option<Thread>, turn_id: &TurnId) -> (result: bool)
    ensures
        result == abandons(*recovered, turn_id@),
{
    let thread = match recovered {
        Some(thread) => thread,
        None => {
            return false;
        },
    };
    let turns = &thread.turns;
    let mut n: usize = 0;
    while n < turns.len()
        invariant
            turn_with(turns@, turn_id@, 0) == turn_with(turns@, turn_id@, n as int),
            *recovered == Some(*thread),
            *turns == thread.turns,
        decreases turns@.len() - n,
    {
        if turns[n].id.same(turn_id) {
            return turns[n].status == TurnStatus::Interrupted;
        }
        n += 1;
    }
    false
}

/// Reason given for abandoning the approvals of an interrupted Turn.
pub fn interruption_text() -> (reason: &'static str)
    ensures
        reason@ == "originating Turn was interrupted before approval settlement"@,
{
    "originating Turn was interrupted before approval settlement"
}

/// A Turn can be resumed where it is the one running Turn of its Thread.
pub proof fn law_the_only_running_turn_is_resumed(turns: Seq<Turn>, turn_id: Seq<char>, thread_id: Seq<char>, at: int)
    requires
        0 <= at < turns.len(),
        turns[at].status == TurnStatus::Running,
        forall|i: int| 0 <= i < turns.len() && i != at ==> (#[trigger] turns[i]).status != TurnStatus::Running,
    ensures
        turns[at].id@ == turn_id ==> running_turn(turns, turn_id, thread_id) == Ok::<int, ErrorView>(at),
        turns[at].id@ != turn_id ==> running_turn(turns, turn_id, thread_id) is Err,
{
    lemma_running_found(turns, at, 0);
    lemma_none_running(turns, at + 1);
}

/// A Thread without a running Turn, or with more than one, resumes nothing.
pub proof fn law_other_threads_resume_nothing(turns: Seq<Turn>, turn_id: Seq<char>, thread_id: Seq<char>)
    requires
        running_turn(turns, turn_id, thread_id) is Ok,
    ensures
        ({
            let at = running_turn(turns, turn_id, thread_id)->Ok_0;
            &&& 0 <= at < turns.len()
            &&& turns[at].status == TurnStatus::Running
            &&& turns[at].id@ == turn_id
            &&& forall|i: int| 0 <= i < turns.len() && i != at ==> (#[trigger] turns[i]).status != TurnStatus::Running
        }),
{
    lemma_first_running(turns, 0);
    let at = running_turn(turns, turn_id, thread_id)->Ok_0;
    lemma_first_running(turns, at + 1);
}

proof fn lemma_running_found(turns: Seq<Turn>, at: int, from: int)
    requires
        0 <= from <= at < turns.len(),
        turns[at].status == TurnStatus::Running,
        forall|i: int| 0 <= i < turns.len() && i != at ==> (#[trigger] turns[i]).status != TurnStatus::Running,
    ensures
        first_running(turns, from) == Some(at),
    decreases at - from,
{
    if from < at {
        assert(turns[from].status != TurnStatus::Running);
        lemma_running_found(turns, at, from + 1);
    }
}

proof fn lemma_none_running(turns: Seq<Turn>, from: int)
    requires
        0 <= from,
        forall|i: int| from <= i < turns.len() ==> (#[trigger] turns[i]).status != TurnStatus::Running,
    ensures
        first_running(turns, from) is None,
    decreases turns.len() - from,
{
    if from < turns.len() {
        assert(turns[from].status != TurnStatus::Running);
        lemma_none_running(turns, from + 1);
    }
}

proof fn lemma_first_running(turns: Seq<Turn>, from: int)
    requires
        0 <= from,
    ensures
        match first_running(turns, from) {
            Some(at) => from <= at < turns.len() && turns[at].status == TurnStatus::Running && forall|i: int|
                from <= i < at ==> (#[trigger] turns[i]).status != TurnStatus::Running,
            None => forall|i: int| from <= i < turns.len() ==> (#[trigger] turns[i]).status != TurnStatus::Running,
        },
    decreases turns.len() - from,
{
    if from < turns.len() {
        lemma_first_running(turns, from + 1);
    }
}

/// A paused Turn is planned for where the store has room for four events, the
/// Turn runs alone under the binding it was started with, its pause is
/// recorded, and the Model and the Tool of the paused call are still configured
/// as they were.
pub proof fn law_paused_turns_are_planned(
    turns: Seq<Turn>,
    thread_id: Seq<char>,
    turn_id: Seq<char>,
    capacity: StateCapacity,
    binding: Option<ExecutionBinding>,
    requester: ActorView,
    entries: Seq<RuntimeModel>,
    tools: Map<Seq<char>, RegisteredTool>,
    result: Result<ResumePlan, HarnessError>,
    at: int,
    entry: int,
)
    requires
        planned(turns, thread_id, turn_id, capacity, binding, requester, entries, tools, result),
        4 <= capacity.general_events_remaining,
        running_turn(turns, turn_id, thread_id) == Ok::<int, ErrorView>(at),
        binding_check(turns[at].items@, binding) is Ok,
        resume_point(turns[at].items@, requester) is Ok,
        ({
            let point = resume_point(turns[at].items@, requester)->Ok_0;
            &&& 0 <= entry < entries.len()
            &&& turns[at].items@[point.call].kind matches ItemKind::ToolCall {
                model_id: Some(model_id),
                model_origin: Some(model_origin),
                ..
            } && (entries[entry].identity matches FrozenModelIdentity::Valid(id) && id@ == model_id@ && entries[entry].origin@
                == model_origin@)
            &&& turns[at].items@[point.approval].kind matches ItemKind::ApprovalRequested {
                tool,
                tool_origin: Some(tool_origin),
                ..
            } && tools.contains_key(tool@) && tools[tool@].origin@ == tool_origin@
        }),
    ensures
        result matches Ok(plan) && plan.turn_index() == at && reports(
            plan.evidence(),
            turns[at].items@,
            resume_point(turns[at].items@, requester)->Ok_0,
        ) && plan.descriptor() == tools[plan.evidence().tool@].descriptor && plan.origin()
            == tools[plan.evidence().tool@].origin,
{
    let point = resume_point(turns[at].items@, requester)->Ok_0;
    if let Err(error) = result {
        let evidence = choose|evidence: ApprovalResumeEvidence| #[trigger]
            reports(evidence, turns[at].items@, point) && configuration_check(entries, tools, evidence) == Err::<
                (),
                ErrorView,
            >(error@);
        assert(is_model(entries[entry], evidence.model_id@, evidence.model_origin@));
    }
}

/// A resumed Turn asks the question that was recorded, under the identities of
/// the Turn, about the Tool as it is registered now.
pub proof fn law_the_recorded_question_is_asked(plan: ResumePlan, thread_id: ThreadId, turn_id: TurnId)
    ensures
        ({
            let request = resumed_request(plan, thread_id, turn_id);
            &&& request.id == plan.evidence().approval_id
            &&& request.requested_by == plan.evidence().requested_by
            &&& request.reason == plan.evidence().reason
            &&& request.risk == plan.evidence().risk
            &&& request.authorization.thread_id == thread_id
            &&& request.authorization.turn_id == turn_id
            &&& request.authorization.call_id == plan.evidence().call_id
            &&& request.authorization.input == plan.evidence().input
            &&& request.authorization.descriptor == plan.descriptor()
            &&& request.authorization.origin == plan.origin()
        }),
{
}

/// Behind an approval the calls behind the approved one are authorized one by
/// one; when none is left the whole batch runs, where each of the calls up to
/// the approved one has its authority in the journal.
pub proof fn law_the_rest_of_the_batch_is_authorized(
    evidence: ApprovalResumeEvidence,
    index: int,
    items: Seq<Item>,
    tools: Map<Seq<char>, RegisteredTool>,
    step: ResumeStep,
)
    requires
        evidence.current_batch_index < index,
        evidence.current_batch_index < evidence.batch_calls@.len(),
        resumes_at(evidence, index, items, tools, step),
    ensures
        index < evidence.batch_calls@.len() ==> (step matches ResumeStep::Authorize(next) && next.evidence() == evidence
            && next.index() == index),
        index >= evidence.batch_calls@.len() ==> (step is ExecuteBatch <==> forall|k: int|
            0 <= k <= evidence.current_batch_index ==> call_authority(items, #[trigger] evidence.batch_calls@[k], tools) is Ok),
        step matches ResumeStep::ExecuteBatch(next) ==> next.evidence() == evidence,
{
    let decided = evidence.batch_calls@.take(evidence.current_batch_index + 1);
    law_resumed_batch_grants_every_call(items, decided, tools);
    assert forall|k: int| 0 <= k < decided.len() implies decided[k] == #[trigger] evidence.batch_calls@[k] by {}
    if forall|k: int|
        0 <= k <= evidence.current_batch_index ==> call_authority(items, #[trigger] evidence.batch_calls@[k], tools) is Ok {
        assert forall|k: int| 0 <= k < decided.len() implies call_authority(items, #[trigger] decided[k], tools) is Ok by {
            assert(call_authority(items, evidence.batch_calls@[k], tools) is Ok);
        }
    }
    if forall|k: int| 0 <= k < decided.len() ==> call_authority(items, #[trigger] decided[k], tools) is Ok {
        assert forall|k: int| 0 <= k <= evidence.current_batch_index implies call_authority(
            items,
            #[trigger] evidence.batch_calls@[k],
            tools,
        ) is Ok by {
            assert(call_authority(items, decided[k], tools) is Ok);
        }
    }
}

/// Approvals are given up for a Turn that the recovered Thread records as
/// interrupted, and for no other.
pub proof fn law_interrupted_turns_give_up_approvals(thread: Thread, turn_id: Seq<char>, at: int)
    requires
        0 <= at < thread.turns@.len(),
        thread.turns@[at].id@ == turn_id,
        forall|i: int| 0 <= i < at ==> (#[trigger] thread.turns@[i]).id@ != turn_id,
    ensures
        abandons(Some(thread), turn_id) <==> thread.turns@[at].status == TurnStatus::Interrupted,
        !abandons(None, turn_id),
{
    lemma_turn_with(thread.turns@, turn_id, at, 0);
}

proof fn lemma_turn_with(turns: Seq<Turn>, turn_id: Seq<char>, at: int, from: int)
    requires
        0 <= from <= at < turns.len(),
        turns[at].id@ == turn_id,
        forall|i: int| 0 <= i < at ==> (#[trigger] turns[i]).id@ != turn_id,
    ensures
        turn_with(turns, turn_id, from) == Some(at),
    decreases at - from,
{
    if from < at {
        assert(turns[from].id@ != turn_id);
        lemma_turn_with(turns, turn_id, at, from + 1);
    }
}

/// A Turn can be resumed exactly where some Turn of its Thread has its identity
/// and is running, and it is the first of those.
pub proof fn law_running_turns_are_found(turns: Seq<Turn>, turn_id: Seq<char>, n: int)
    requires
        0 <= n,
    ensures
        match running_with(turns, turn_id, n) {
            Some(k) => n <= k < turns.len() && turns[k].id@ == turn_id && turns[k].status == TurnStatus::Running && forall|
                i: int,
            |
                n <= i < k ==> (#[trigger] turns[i]).id@ != turn_id || turns[i].status != TurnStatus::Running,
            None => forall|i: int|
                n <= i < turns.len() ==> (#[trigger] turns[i]).id@ != turn_id || turns[i].status != TurnStatus::Running,
        },
    decreases turns.len() - n,
{
    if n < turns.len() {
        law_running_turns_are_found(turns, turn_id, n + 1);
    }
}

/// A Turn is resumed only where the runtime still has the Model that proposed
/// the call and the Tool that was asked about, each from its recorded origin,
/// and where the Thread has room for the four events that a Turn needs.
pub proof fn law_resumed_turns_find_their_model_and_tool(
    turns: Seq<Turn>,
    thread_id: Seq<char>,
    turn_id: Seq<char>,
    capacity: StateCapacity,
    binding: Option<ExecutionBinding>,
    requester: ActorView,
    entries: Seq<RuntimeModel>,
    tools: Map<Seq<char>, RegisteredTool>,
    plan: ResumePlan,
)
    requires
        planned(turns, thread_id, turn_id, capacity, binding, requester, entries, tools, Ok(plan)),
    ensures
        4 <= capacity.general_events_remaining,
        running_turn(turns, turn_id, thread_id) is Ok,
        ({
            let items = turns[running_turn(turns, turn_id, thread_id)->Ok_0].items@;
            let point = resume_point(items, requester)->Ok_0;
            &&& binding_check(items, binding) is Ok
            &&& resume_point(items, requester) is Ok
            &&& items[point.call].kind matches ItemKind::ToolCall {
                model_id: Some(model_id),
                model_origin: Some(model_origin),
                ..
            } && exists|k: int|
                0 <= k < entries.len() && ((#[trigger] entries[k]).identity matches FrozenModelIdentity::Valid(id) && id@
                    == model_id@ && entries[k].origin@ == model_origin@)
            &&& items[point.approval].kind matches ItemKind::ApprovalRequested { tool, tool_origin: Some(tool_origin), .. }
                && tools.contains_key(tool@) && tools[tool@].origin@ == tool_origin@
        }),
{
    let items = turns[running_turn(turns, turn_id, thread_id)->Ok_0].items@;
    let k = choose|k: int|
        0 <= k < entries.len() && is_model(#[trigger] entries[k], plan.evidence().model_id@, plan.evidence().model_origin@);
    assert(entries[k].identity is Valid);
}

/// A paused Turn goes on exactly where the Model would be asked the same
/// question as before: the request to it has the recorded digest.
pub proof fn law_changed_requests_are_not_resumed(
    plan: ResumePlan,
    digest: Result<String, HarnessError>,
    thread_id: ThreadId,
    turn_id: TurnId,
    result: Result<AwaitResumedApproval, HarnessError>,
)
    requires
        call_ensures(ResumePlan::confirmed, (plan, digest, &thread_id, &turn_id), result),
    ensures
        result is Ok <==> digest is Ok && digest->Ok_0@ == plan.evidence().model_request_sha256@,
        result matches Ok(next) ==> next.evidence() == plan.evidence() && next.request().id == plan.evidence().approval_id
            && next.request().authorization.input == plan.evidence().input,
{
}

} // verus!
