//! The Agent Loop of one Turn, as a sequence of decisions between outside
//! operations.

use vstd::prelude::*;

use crate::capability::{lists_tools, ContextBlock, ModelOutput, ModelRequest, ToolRegistry};
use crate::error::{ErrorView, HarnessError};
use crate::items::{
    Item, ItemKind, ModelContinuation, ModelToolCall, ToolCallBatch, Turn, TurnStatus, VerificationOutcome,
};
use crate::kernel::{AuthorityContext, CapabilityOrigin, ThreadId, ToolCallBatchId, TurnId};
use crate::runtime::journal::JournalOutcome;
use crate::runtime::routing::SettledModelOutput;
use crate::table::Table;
use crate::text::{join3, quoted, quoted_text};

verus! {

/// Position of a Turn in its step budget, and the correlation identities that
/// it has used.
pub struct TurnLoop {
    step: usize,
    max_steps: usize,
    call_ids: Table<()>,
}

impl TurnLoop {
    /// Steps taken before the current one.
    pub closed spec fn step(self) -> nat {
        self.step as nat
    }

    /// Steps that the Turn may take.
    pub closed spec fn max_steps(self) -> nat {
        self.max_steps as nat
    }

    /// Correlation identities that the Turn has used.
    pub closed spec fn call_ids(self) -> Set<Seq<char>> {
        self.call_ids@.dom()
    }

    /// Number of the current step for observers, which count from one.
    pub open spec fn step_number(self) -> u32 {
        if self.step() + 1 <= u32::MAX {
            (self.step() + 1) as u32
        } else {
            u32::MAX
        }
    }

    /// Whether two states agree in everything.
    pub open spec fn same(self, other: Self) -> bool {
        self.step() == other.step() && self.max_steps() == other.max_steps() && self.call_ids() == other.call_ids()
    }

    /// Returns the number of the current step for observers.
    pub fn number(&self) -> (number: u32)
        ensures
            number == self.step_number(),
    {
        if self.step < u32::MAX as usize {
            (self.step + 1) as u32
        } else {
            u32::MAX
        }
    }
}

/// Steering that waits has to be applied before the next request.
pub struct BeforeRequest {
    progress: TurnLoop,
}

/// The next request has to be built and digested.
pub struct AwaitRequest {
    progress: TurnLoop,
}

/// The Model route has to be asked.
pub struct AwaitOutput {
    progress: TurnLoop,
    model_request_sha256: String,
}

/// An answer is being recorded.
pub struct AwaitMessage {
    progress: TurnLoop,
    content: String,
}

/// An answer is being verified.
pub struct AwaitVerification {
    progress: TurnLoop,
    content: String,
    items: Vec<Item>,
    index: usize,
    total: usize,
    retry: bool,
}

/// A judgement is being recorded.
pub struct VerificationRecorded {
    pending: AwaitVerification,
    verifier: String,
    outcome: VerificationOutcome,
}

/// Steering is being closed behind a verified answer.
pub struct AwaitClosing {
    progress: TurnLoop,
    content: String,
    retry: bool,
}

/// The Turn is being completed.
pub struct AwaitFinish {
    content: String,
}

/// A single call is being recorded.
pub struct AwaitCall {
    progress: TurnLoop,
    call: ModelToolCall,
    model_request_sha256: String,
}

/// A single call is being authorized.
pub struct AwaitAuthorization {
    progress: TurnLoop,
    call: ModelToolCall,
    model_request_sha256: String,
}

/// A single call is about to run, unless steering waits.
pub struct AwaitEffect {
    progress: TurnLoop,
    call: ModelToolCall,
}

/// A single call is running.
pub struct AwaitExecution {
    progress: TurnLoop,
    call: ModelToolCall,
}

/// A batch of calls is being recorded.
pub struct AwaitBatch {
    progress: TurnLoop,
    calls: Vec<ModelToolCall>,
    model_request_sha256: String,
}

/// A call of a batch is being authorized.
pub struct AwaitBatchAuthorization {
    progress: TurnLoop,
    calls: Vec<ModelToolCall>,
    index: usize,
    model_request_sha256: String,
}

/// A batch of calls is running.
pub struct AwaitBatchExecution {
    progress: TurnLoop,
    calls: Vec<ModelToolCall>,
}

/// What a Turn needs next.
pub enum TurnStep {
    /// Apply waiting steering.
    ApplySteering(BeforeRequest),
    /// Build and digest the next request.
    Request(AwaitRequest),
    /// Ask the Model route.
    AskModel(AwaitOutput),
    /// Record an answer behind its Provider state, unless steering waits.
    RecordMessage(Option<ItemKind>, ItemKind, AwaitMessage),
    /// Ask a verifier.
    Verify(AwaitVerification),
    /// Record a judgement.
    RecordVerification(ItemKind, VerificationRecorded),
    /// Apply waiting steering, or close the Turn to it.
    CloseSteering(AwaitClosing),
    /// Complete the Turn.
    Finish(AwaitFinish),
    /// Record a call behind its Provider state, unless steering waits.
    RecordCall(Option<ItemKind>, ItemKind, AwaitCall),
    /// Authorize a call.
    Authorize(AwaitAuthorization),
    /// Give the call up where steering waits.
    BeforeEffect(AwaitEffect),
    /// Run a call.
    Execute(AwaitExecution),
    /// Record a batch of calls behind its Provider state, unless steering
    /// waits.
    RecordBatch(Option<ItemKind>, Vec<ItemKind>, AwaitBatch),
    /// Authorize the next call of a batch.
    AuthorizeNext(AwaitBatchAuthorization),
    /// Run a batch of calls.
    ExecuteBatch(AwaitBatchExecution),
    /// Settle the Turn with the error, and report it.
    Settle(HarnessError),
    /// Report an error behind which the Turn is settled already.
    Fail(HarnessError),
    /// Report the final answer.
    Completed(String),
}

impl BeforeRequest {
    /// Position of the Turn.
    pub closed spec fn progress(self) -> TurnLoop {
        self.progress
    }
}

impl AwaitRequest {
    /// Position of the Turn.
    pub closed spec fn progress(self) -> TurnLoop {
        self.progress
    }
}

impl AwaitOutput {
    /// Position of the Turn.
    pub closed spec fn progress(self) -> TurnLoop {
        self.progress
    }

    /// Digest of the request.
    pub closed spec fn model_request_sha256(self) -> String {
        self.model_request_sha256
    }

    /// Returns the number of the current step for observers.
    pub fn number(&self) -> (number: u32)
        ensures
            number == self.progress().step_number(),
    {
        self.progress.number()
    }
}

impl AwaitMessage {
    /// Position of the Turn.
    pub closed spec fn progress(self) -> TurnLoop {
        self.progress
    }

    /// Answer.
    pub closed spec fn content(self) -> String {
        self.content
    }

    /// Returns the number of the current step for observers.
    pub fn number(&self) -> (number: u32)
        ensures
            number == self.progress().step_number(),
    {
        self.progress.number()
    }
}

impl AwaitVerification {
    /// Position of the Turn.
    pub closed spec fn progress(self) -> TurnLoop {
        self.progress
    }

    /// Answer.
    pub closed spec fn content(self) -> String {
        self.content
    }

    /// Journal that every verifier of the answer sees.
    pub closed spec fn items(self) -> Vec<Item> {
        self.items
    }

    /// Verifier that has to judge.
    pub closed spec fn index(self) -> nat {
        self.index as nat
    }

    /// Number of verifiers.
    pub closed spec fn total(self) -> nat {
        self.total as nat
    }

    /// Whether an earlier verifier asked for another candidate.
    pub closed spec fn retry(self) -> bool {
        self.retry
    }

    /// Returns the position of the verifier that has to judge.
    pub fn judge_index(&self) -> (index: usize)
        ensures
            index == self.index(),
    {
        self.index
    }

    /// Returns the answer and the journal behind which it is judged.
    pub fn subject(&self) -> (subject: (&String, &Vec<Item>))
        ensures
            *subject.0 == self.content(),
            *subject.1 == self.items(),
    {
        (&self.content, &self.items)
    }
}

impl VerificationRecorded {
    /// Verification that the judgement belongs to.
    pub closed spec fn pending(self) -> AwaitVerification {
        self.pending
    }

    /// Name of the verifier.
    pub closed spec fn judge(self) -> String {
        self.verifier
    }

    /// Judgement.
    pub closed spec fn outcome(self) -> VerificationOutcome {
        self.outcome
    }
}

impl AwaitClosing {
    /// Position of the Turn.
    pub closed spec fn progress(self) -> TurnLoop {
        self.progress
    }

    /// Answer.
    pub closed spec fn content(self) -> String {
        self.content
    }

    /// Whether a verifier asked for another candidate.
    pub closed spec fn retry(self) -> bool {
        self.retry
    }

    /// Returns whether the Turn is closed to steering where none waits.
    pub fn seals(&self) -> (seal: bool)
        ensures
            seal == !self.retry(),
    {
        !self.retry
    }

    /// Returns the number of the current step for observers.
    pub fn number(&self) -> (number: u32)
        ensures
            number == self.progress().step_number(),
    {
        self.progress.number()
    }
}

impl AwaitFinish {
    /// Answer.
    pub closed spec fn content(self) -> String {
        self.content
    }
}

impl AwaitCall {
    /// Position of the Turn.
    pub closed spec fn progress(self) -> TurnLoop {
        self.progress
    }

    /// Call.
    pub closed spec fn call(self) -> ModelToolCall {
        self.call
    }

    /// Digest of the request that led to the call.
    pub closed spec fn model_request_sha256(self) -> String {
        self.model_request_sha256
    }

    /// Returns the number of the current step for observers.
    pub fn number(&self) -> (number: u32)
        ensures
            number == self.progress().step_number(),
    {
        self.progress.number()
    }
}

impl AwaitAuthorization {
    /// Position of the Turn.
    pub closed spec fn progress(self) -> TurnLoop {
        self.progress
    }

    /// Call.
    pub closed spec fn call(self) -> ModelToolCall {
        self.call
    }

    /// Digest of the request that led to the call.
    pub closed spec fn model_request_sha256(self) -> String {
        self.model_request_sha256
    }

    /// Returns the call and the digest of the request that led to it.
    pub fn subject(&self) -> (subject: (&ModelToolCall, &String))
        ensures
            *subject.0 == self.call(),
            *subject.1 == self.model_request_sha256(),
    {
        (&self.call, &self.model_request_sha256)
    }
}

impl AwaitEffect {
    /// Position of the Turn.
    pub closed spec fn progress(self) -> TurnLoop {
        self.progress
    }

    /// Call.
    pub closed spec fn call(self) -> ModelToolCall {
        self.call
    }

    /// Returns the call.
    pub fn subject(&self) -> (call: &ModelToolCall)
        ensures
            *call == self.call(),
    {
        &self.call
    }
}

impl AwaitExecution {
    /// Position of the Turn.
    pub closed spec fn progress(self) -> TurnLoop {
        self.progress
    }

    /// Call.
    pub closed spec fn call(self) -> ModelToolCall {
        self.call
    }

    /// Returns the call.
    pub fn subject(&self) -> (call: &ModelToolCall)
        ensures
            *call == self.call(),
    {
        &self.call
    }
}

impl AwaitBatch {
    /// Position of the Turn.
    pub closed spec fn progress(self) -> TurnLoop {
        self.progress
    }

    /// Calls in source order.
    pub closed spec fn calls(self) -> Seq<ModelToolCall> {
        self.calls@
    }

    /// Digest of the request that led to the calls.
    pub closed spec fn model_request_sha256(self) -> String {
        self.model_request_sha256
    }

    /// Returns the number of the current step for observers.
    pub fn number(&self) -> (number: u32)
        ensures
            number == self.progress().step_number(),
    {
        self.progress.number()
    }
}

impl AwaitBatchAuthorization {
    /// Position of the Turn.
    pub closed spec fn progress(self) -> TurnLoop {
        self.progress
    }

    /// Calls in source order.
    pub closed spec fn calls(self) -> Seq<ModelToolCall> {
        self.calls@
    }

    /// Position of the call that is authorized.
    pub closed spec fn index(self) -> nat {
        self.index as nat
    }

    /// Digest of the request that led to the calls.
    pub closed spec fn model_request_sha256(self) -> String {
        self.model_request_sha256
    }

    #[verifier::type_invariant]
    spec fn inside(self) -> bool {
        self.index < self.calls@.len()
    }

    /// Returns the call and the digest of the request that led to it.
    pub fn subject(&self) -> (subject: (&ModelToolCall, &String))
        ensures
            self.index() < self.calls().len(),
            *subject.0 == self.calls()[self.index() as int],
            *subject.1 == self.model_request_sha256(),
    {
        proof {
            use_type_invariant(self);
        }
        (&self.calls[self.index], &self.model_request_sha256)
    }
}

impl AwaitBatchExecution {
    /// Position of the Turn.
    pub closed spec fn progress(self) -> TurnLoop {
        self.progress
    }

    /// Calls in source order.
    pub closed spec fn calls(self) -> Seq<ModelToolCall> {
        self.calls@
    }

    /// Returns the calls in source order.
    pub fn subject(&self) -> (calls: &Vec<ModelToolCall>)
        ensures
            calls@ == self.calls(),
    {
        &self.calls
    }
}

/// A step begins where the budget allows it; else the Turn is settled.
pub open spec fn enters(step_index: nat, max_steps: nat, call_ids: Set<Seq<char>>, step: TurnStep) -> bool {
    if step_index < max_steps {
        step matches TurnStep::ApplySteering(before) && before.progress().step() == step_index && before.progress().max_steps()
            == max_steps && before.progress().call_ids() == call_ids
    } else {
        step matches TurnStep::Settle(error) && error@ == ErrorView::MaxSteps(max_steps)
    }
}

/// The step behind the current one begins.
pub open spec fn advances(progress: TurnLoop, step: TurnStep) -> bool {
    enters(progress.step() + 1, progress.max_steps(), progress.call_ids(), step)
}

/// Whether a step reports this error as one that is settled already.
pub open spec fn fails(step: TurnStep, error: HarnessError) -> bool {
    step == TurnStep::Fail(error)
}

/// Begins the Agent Loop of a Turn at a step.
pub fn begin_loop(starting_step: usize, max_steps: usize, call_ids: Table<()>) -> (step: TurnStep)
    ensures
        enters(starting_step as nat, max_steps as nat, call_ids@.dom(), step),
{
    if starting_step < max_steps {
        TurnStep::ApplySteering(BeforeRequest { progress: TurnLoop { step: starting_step, max_steps, call_ids } })
    } else {
        TurnStep::Settle(HarnessError::MaxSteps(max_steps))
    }
}

fn advance(progress: TurnLoop) -> (step: TurnStep)
    ensures
        advances(progress, step),
{
    let TurnLoop { step, max_steps, call_ids } = progress;
    if step >= max_steps {
        return TurnStep::Settle(HarnessError::MaxSteps(max_steps));
    }
    begin_loop(step + 1, max_steps, call_ids)
}

/// Builds a Model request: the items of earlier Turns, then those of the
/// current one that a Model may see, with every registered Tool.
pub fn model_request(
    thread_id: &ThreadId,
    turn_id: &TurnId,
    authority: &AuthorityContext,
    conversation: Vec<Item>,
    visible: Vec<Item>,
    context: Vec<ContextBlock>,
    tools: &ToolRegistry,
) -> (request: ModelRequest)
    ensures
        request.thread_id == *thread_id,
        request.turn_id == *turn_id,
        request.authority == *authority,
        request.items@ == conversation@ + visible@,
        request.context == context,
        lists_tools(request.tools@, tools@),
{
    let mut items = conversation;
    let mut rest = visible;
    items.append(&mut rest);
    ModelRequest {
        thread_id: thread_id.clone(),
        turn_id: turn_id.clone(),
        authority: authority.clone(),
        items,
        context,
        tools: tools.descriptors(),
    }
}

/// What follows applying the steering that waits before a request.
pub open spec fn steered_step(pending: BeforeRequest, result: Result<JournalOutcome, HarnessError>, step: TurnStep) -> bool {
    match result {
        Err(error) => fails(step, error),
        Ok(_) => step matches TurnStep::Request(next) && next.progress().same(pending.progress()),
    }
}

impl BeforeRequest {
    /// Goes on once waiting steering is applied.
    pub fn steered(self, result: Result<JournalOutcome, HarnessError>) -> (step: TurnStep)
        ensures
            steered_step(self, result, step),
    {
        match result {
            Err(error) => TurnStep::Fail(error),
            Ok(_) => TurnStep::Request(AwaitRequest { progress: self.progress }),
        }
    }
}

/// What follows digesting a request.
pub open spec fn digested_step(pending: AwaitRequest, result: Result<String, HarnessError>, step: TurnStep) -> bool {
    match result {
        Err(error) => step == TurnStep::Settle(error),
        Ok(digest) => step matches TurnStep::AskModel(next) && next.progress().same(pending.progress())
            && next.model_request_sha256() == digest,
    }
}

impl AwaitRequest {
    /// Goes on once the request is digested.
    pub fn digested(self, result: Result<String, HarnessError>) -> (step: TurnStep)
        ensures
            digested_step(self, result, step),
    {
        match result {
            Err(error) => TurnStep::Settle(error),
            Ok(digest) => TurnStep::AskModel(AwaitOutput { progress: self.progress, model_request_sha256: digest }),
        }
    }
}

/// Provider state of a decision, as it is recorded.
pub open spec fn continuation_item(output: SettledModelOutput, item: Option<ItemKind>) -> bool {
    match output.continuation {
        None => item is None,
        Some(continuation) => item == Some(
            ItemKind::ProviderContinuation {
                model_id: output.model_id,
                model_origin: output.model_origin,
                continuation,
            },
        ),
    }
}

/// Error of a Model that reuses a correlation identity.
pub open spec fn reused_call_id(call_id: Seq<char>) -> ErrorView {
    ErrorView::Model("model reused Tool call id "@ + quoted(call_id) + " within one Turn"@)
}

/// First call of a batch whose identity is taken, from `n` on.
pub open spec fn first_reused(calls: Seq<ModelToolCall>, used: Set<Seq<char>>, n: int) -> Option<int>
    decreases calls.len() - n,
{
    if n < 0 || n >= calls.len() {
        None
    } else if used.contains(calls[n].call_id@) {
        Some(n)
    } else {
        first_reused(calls, used, n + 1)
    }
}

/// Whether items record the calls of a batch in source order.
pub open spec fn batch_items(
    items: Seq<ItemKind>,
    calls: Seq<ModelToolCall>,
    model_id: String,
    origin: CapabilityOrigin,
    batch_id: ToolCallBatchId,
) -> bool {
    &&& items.len() == calls.len()
    &&& forall|k: int|
        0 <= k < calls.len() ==> #[trigger] items[k] == (ItemKind::ToolCall {
            model_id: Some(model_id),
            model_origin: Some(origin),
            call_id: calls[k].call_id,
            name: calls[k].name,
            input: calls[k].input,
            batch: Some(ToolCallBatch { id: batch_id, index: k as usize, size: calls.len() as usize }),
        })
}

/// What follows a decision of a Model.
pub open spec fn output_step(
    progress: TurnLoop,
    sha256: String,
    output: SettledModelOutput,
    batch_id: ToolCallBatchId,
    step: TurnStep,
) -> bool {
    match output.output {
        ModelOutput::Message { content } => step matches TurnStep::RecordMessage(continuation, item, next)
            && continuation_item(output, continuation) && item == (ItemKind::AssistantMessage {
            model_id: Some(output.model_id),
            model_origin: Some(output.model_origin),
            content,
        }) && next.progress().same(progress) && next.content() == content,
        ModelOutput::ToolCall { call_id, name, input } => if progress.call_ids().contains(call_id@) {
            step matches TurnStep::Settle(error) && error@ == reused_call_id(call_id@)
        } else {
            step matches TurnStep::RecordCall(continuation, item, next) && continuation_item(output, continuation) && item
                == (ItemKind::ToolCall {
                model_id: Some(output.model_id),
                model_origin: Some(output.model_origin),
                call_id,
                name,
                input,
                batch: None,
            }) && next.progress().same(progress) && next.call() == (ModelToolCall { call_id, name, input })
                && next.model_request_sha256() == sha256
        },
        ModelOutput::ToolCalls { calls } => match first_reused(calls@, progress.call_ids(), 0) {
            Some(k) => step matches TurnStep::Settle(error) && error@ == reused_call_id(calls@[k].call_id@),
            None => step matches TurnStep::RecordBatch(continuation, items, next) && continuation_item(output, continuation)
                && batch_items(items@, calls@, output.model_id, output.model_origin, batch_id) && next.progress().same(
                progress,
            ) && next.calls() == calls@ && next.model_request_sha256() == sha256,
        },
    }
}

fn take_continuation(
    continuation: Option<ModelContinuation>,
    model_id: &String,
    model_origin: &CapabilityOrigin,
) -> (item: Option<ItemKind>)
    ensures
        match continuation {
            None => item is None,
            Some(continuation) => item == Some(
                ItemKind::ProviderContinuation { model_id: *model_id, model_origin: *model_origin, continuation },
            ),
        },
{
    match continuation {
        None => None,
        Some(continuation) => Some(
            ItemKind::ProviderContinuation {
                model_id: model_id.clone(),
                model_origin: model_origin.clone(),
                continuation,
            },
        ),
    }
}

fn batch_records(
    calls: &Vec<ModelToolCall>,
    model_id: &String,
    model_origin: &CapabilityOrigin,
    batch_id: &ToolCallBatchId,
) -> (items: Vec<ItemKind>)
    ensures
        batch_items(items@, calls@, *model_id, *model_origin, *batch_id),
{
    let size: usize = calls.len();
    let mut items: Vec<ItemKind> = Vec::new();
    let mut k: usize = 0;
    while k < size
        invariant
            k <= size == calls@.len(),
            items@.len() == k,
            forall|j: int|
                0 <= j < k ==> #[trigger] items@[j] == (ItemKind::ToolCall {
                    model_id: Some(*model_id),
                    model_origin: Some(*model_origin),
                    call_id: calls@[j].call_id,
                    name: calls@[j].name,
                    input: calls@[j].input,
                    batch: Some(ToolCallBatch { id: *batch_id, index: j as usize, size }),
                }),
        decreases size - k,
    {
        let call = calls[k].clone();
        items.push(
            ItemKind::ToolCall {
                model_id: Some(model_id.clone()),
                model_origin: Some(model_origin.clone()),
                call_id: call.call_id,
                name: call.name,
                input: call.input,
                batch: Some(ToolCallBatch { id: batch_id.clone(), index: k, size }),
            },
        );
        k += 1;
    }
    items
}

fn find_reused(calls: &Vec<ModelToolCall>, used: &Table<()>) -> (index: Option<usize>)
    ensures
        match index {
            Some(index) => first_reused(calls@, used@.dom(), 0) == Some(index as int) && index < calls@.len(),
            None => first_reused(calls@, used@.dom(), 0) is None,
        },
{
    let mut n: usize = 0;
    while n < calls.len()
        invariant
            n <= calls@.len(),
            first_reused(calls@, used@.dom(), 0) == first_reused(calls@, used@.dom(), n as int),
        decreases calls@.len() - n,
    {
        if used.contains(calls[n].call_id.as_str()) {
            return Some(n);
        }
        n += 1;
    }
    None
}

fn reuse_error(call_id: &str) -> (error: HarnessError)
    ensures
        error@ == reused_call_id(call_id@),
{
    let shown = quoted_text(call_id);
    HarnessError::Model(join3("model reused Tool call id ", shown.as_str(), " within one Turn"))
}

/// What follows asking the Model route.
pub open spec fn settled_step(
    pending: AwaitOutput,
    result: Result<SettledModelOutput, HarnessError>,
    batch_id: ToolCallBatchId,
    step: TurnStep,
) -> bool {
    match result {
        Err(error) => step == TurnStep::Settle(error),
        Ok(output) => output_step(pending.progress(), pending.model_request_sha256(), output, batch_id, step),
    }
}

impl AwaitOutput {
    /// Takes the decision of the Model.
    pub fn settled(self, result: Result<SettledModelOutput, HarnessError>, batch_id: ToolCallBatchId) -> (step: TurnStep)
        ensures
            settled_step(self, result, batch_id, step),
    {
        let SettledModelOutput { model_id, model_origin, output, continuation } = match result {
            Ok(output) => output,
            Err(error) => {
                return TurnStep::Settle(error);
            },
        };
        match output {
            ModelOutput::Message { content } => {
                let continuation = take_continuation(continuation, &model_id, &model_origin);
                let item = ItemKind::AssistantMessage {
                    model_id: Some(model_id),
                    model_origin: Some(model_origin),
                    content: content.clone(),
                };
                TurnStep::RecordMessage(continuation, item, AwaitMessage { progress: self.progress, content })
            },
            ModelOutput::ToolCall { call_id, name, input } => {
                if self.progress.call_ids.contains(call_id.as_str()) {
                    return TurnStep::Settle(reuse_error(call_id.as_str()));
                }
                let continuation = take_continuation(continuation, &model_id, &model_origin);
                let item = ItemKind::ToolCall {
                    model_id: Some(model_id),
                    model_origin: Some(model_origin),
                    call_id: call_id.clone(),
                    name: name.clone(),
                    input: input.clone(),
                    batch: None,
                };
                TurnStep::RecordCall(
                    continuation,
                    item,
                    AwaitCall {
                        progress: self.progress,
                        call: ModelToolCall { call_id, name, input },
                        model_request_sha256: self.model_request_sha256,
                    },
                )
            },
            ModelOutput::ToolCalls { calls } => {
                if let Some(k) = find_reused(&calls, &self.progress.call_ids) {
                    return TurnStep::Settle(reuse_error(calls[k].call_id.as_str()));
                }
                let items = batch_records(&calls, &model_id, &model_origin, &batch_id);
                let continuation = take_continuation(continuation, &model_id, &model_origin);
                TurnStep::RecordBatch(
                    continuation,
                    items,
                    AwaitBatch {
                        progress: self.progress,
                        calls,
                        model_request_sha256: self.model_request_sha256,
                    },
                )
            },
        }
    }
}

/// The next verifier judges, or steering is closed behind the last one.
pub open spec fn verifies(
    progress: TurnLoop,
    content: String,
    items: Vec<Item>,
    index: nat,
    total: nat,
    retry: bool,
    step: TurnStep,
) -> bool {
    if index < total {
        step matches TurnStep::Verify(next) && next.progress().same(progress) && next.content() == content && next.items()
            == items && next.index() == index && next.total() == total && next.retry() == retry
    } else {
        step matches TurnStep::CloseSteering(next) && next.progress().same(progress) && next.content() == content
            && next.retry() == retry
    }
}

fn verify_next(pending: AwaitVerification) -> (step: TurnStep)
    ensures
        verifies(
            pending.progress(),
            pending.content(),
            pending.items(),
            pending.index(),
            pending.total(),
            pending.retry(),
            step,
        ),
{
    if pending.index < pending.total {
        TurnStep::Verify(pending)
    } else {
        TurnStep::CloseSteering(
            AwaitClosing { progress: pending.progress, content: pending.content, retry: pending.retry },
        )
    }
}

/// What follows recording an answer.
pub open spec fn message_step(
    pending: AwaitMessage,
    result: Result<JournalOutcome, HarnessError>,
    items: Vec<Item>,
    verifiers: usize,
    step: TurnStep,
) -> bool {
    match result {
        Err(error) => fails(step, error),
        Ok(outcome) => if outcome.superseded {
            advances(pending.progress(), step)
        } else {
            verifies(pending.progress(), pending.content(), items, 0, verifiers as nat, false, step)
        },
    }
}

impl AwaitMessage {
    /// Goes on once the answer is recorded, or steering has overtaken it.
    /// Every verifier judges it behind the same journal.
    pub fn recorded(self, result: Result<JournalOutcome, HarnessError>, items: Vec<Item>, verifiers: usize) -> (step: TurnStep)
        ensures
            message_step(self, result, items, verifiers, step),
    {
        match result {
            Err(error) => TurnStep::Fail(error),
            Ok(outcome) => {
                if outcome.superseded {
                    return advance(self.progress);
                }
                verify_next(
                    AwaitVerification {
                        progress: self.progress,
                        content: self.content,
                        items,
                        index: 0,
                        total: verifiers,
                        retry: false,
                    },
                )
            },
        }
    }
}

/// What follows the reply of a verifier, and the outcome of checking it.
pub open spec fn judged_step(
    pending: AwaitVerification,
    verifier: String,
    result: Result<VerificationOutcome, HarnessError>,
    outcome_check: Result<(), HarnessError>,
    step: TurnStep,
) -> bool {
    match result {
        Err(error) => step matches TurnStep::Settle(reported) && if error@.is_stop() {
            reported == error
        } else {
            reported@ == ErrorView::Verification(verifier@ + ": "@ + error@.text())
        },
        Ok(outcome) => match outcome_check {
            Err(error) => step == TurnStep::Settle(error),
            Ok(()) => step matches TurnStep::RecordVerification(item, next) && item == (ItemKind::VerificationResult {
                verifier,
                candidate_item_id: None,
                verifier_origin: None,
                verifier_binding_sha256: None,
                outcome,
            }) && next.pending() == pending && next.judge() == verifier && next.outcome() == outcome,
        },
    }
}

impl AwaitVerification {
    /// Takes the reply of the verifier. `outcome_check` is the outcome of
    /// checking the judgement, where there is one.
    pub fn judged(
        self,
        verifier: &String,
        result: Result<VerificationOutcome, HarnessError>,
        outcome_check: Result<(), HarnessError>,
    ) -> (step: TurnStep)
        ensures
            judged_step(self, *verifier, result, outcome_check, step),
    {
        let outcome = match result {
            Ok(outcome) => outcome,
            Err(HarnessError::Cancelled { phase }) => {
                return TurnStep::Settle(HarnessError::Cancelled { phase });
            },
            Err(HarnessError::TimedOut { phase }) => {
                return TurnStep::Settle(HarnessError::TimedOut { phase });
            },
            Err(error) => {
                let text = error.to_string();
                return TurnStep::Settle(HarnessError::Verification(join3(verifier.as_str(), ": ", text.as_str())));
            },
        };
        if let Err(error) = outcome_check {
            return TurnStep::Settle(error);
        }
        let item = ItemKind::VerificationResult {
            verifier: verifier.clone(),
            candidate_item_id: None,
            verifier_origin: None,
            verifier_binding_sha256: None,
            outcome: outcome.clone(),
        };
        TurnStep::RecordVerification(
            item,
            VerificationRecorded { pending: self, verifier: verifier.clone(), outcome },
        )
    }
}

/// What follows a recorded judgement: the next verifier, with the answer marked
/// where it has to be given again, or the end of the Turn.
pub open spec fn verified_step(
    recorded: VerificationRecorded,
    result: Result<JournalOutcome, HarnessError>,
    step: TurnStep,
) -> bool {
    let judged = recorded.pending();
    match result {
        Err(error) => fails(step, error),
        Ok(_) => match recorded.outcome() {
            VerificationOutcome::Passed { .. } => verifies(
                judged.progress(),
                judged.content(),
                judged.items(),
                judged.index() + 1,
                judged.total(),
                judged.retry(),
                step,
            ),
            VerificationOutcome::Failed { reason, retryable } => if retryable {
                verifies(
                    judged.progress(),
                    judged.content(),
                    judged.items(),
                    judged.index() + 1,
                    judged.total(),
                    true,
                    step,
                )
            } else {
                step matches TurnStep::Settle(error) && error@ == ErrorView::Verification(
                    recorded.judge()@ + ": "@ + reason@,
                )
            },
        },
    }
}

impl VerificationRecorded {
    /// Goes on once the judgement is recorded.
    pub fn recorded(self, result: Result<JournalOutcome, HarnessError>) -> (step: TurnStep)
        ensures
            verified_step(self, result, step),
    {
        if let Err(error) = result {
            return TurnStep::Fail(error);
        }
        let AwaitVerification { progress, content, items, index, total, retry } = self.pending;
        let retry = match self.outcome {
            VerificationOutcome::Passed { .. } => retry,
            VerificationOutcome::Failed { reason, retryable } => {
                if !retryable {
                    return TurnStep::Settle(
                        HarnessError::Verification(join3(self.verifier.as_str(), ": ", reason.as_str())),
                    );
                }
                true
            },
        };
        if index >= total {
            return TurnStep::CloseSteering(AwaitClosing { progress, content, retry });
        }
        verify_next(AwaitVerification { progress, content, items, index: index + 1, total, retry })
    }
}

/// What follows closing steering behind an answer.
pub open spec fn closed_step(pending: AwaitClosing, result: Result<JournalOutcome, HarnessError>, step: TurnStep) -> bool {
    match result {
        Err(error) => fails(step, error),
        Ok(outcome) => if outcome.superseded || pending.retry() {
            advances(pending.progress(), step)
        } else {
            step matches TurnStep::Finish(next) && next.content() == pending.content()
        },
    }
}

impl AwaitClosing {
    /// Goes on once steering is closed, or waiting steering is applied: only
    /// an answer that no verifier faulted and no steering overtook completes
    /// the Turn.
    pub fn closed(self, result: Result<JournalOutcome, HarnessError>) -> (step: TurnStep)
        ensures
            closed_step(self, result, step),
    {
        match result {
            Err(error) => TurnStep::Fail(error),
            Ok(outcome) => {
                if outcome.superseded || self.retry {
                    return advance(self.progress);
                }
                TurnStep::Finish(AwaitFinish { content: self.content })
            },
        }
    }
}

impl AwaitFinish {
    /// Takes the reply of the store to completing the Turn.
    pub fn finished(self, turn: &mut Turn, result: Result<(), HarnessError>) -> (step: TurnStep)
        ensures
            final(turn).id == old(turn).id,
            final(turn).thread_id == old(turn).thread_id,
            final(turn).items == old(turn).items,
            match result {
                Err(error) => fails(step, error) && final(turn).status == old(turn).status,
                Ok(()) => step == TurnStep::Completed(self.content()) && final(turn).status == TurnStatus::Completed,
            },
    {
        match result {
            Err(error) => TurnStep::Fail(error),
            Ok(()) => {
                turn.status = TurnStatus::Completed;
                TurnStep::Completed(self.content)
            },
        }
    }
}

/// What follows recording a call.
pub open spec fn call_step(pending: AwaitCall, result: Result<JournalOutcome, HarnessError>, step: TurnStep) -> bool {
    match result {
        Err(error) => fails(step, error),
        Ok(outcome) => if outcome.superseded {
            advances(pending.progress(), step)
        } else {
            step matches TurnStep::Authorize(next) && next.progress().step() == pending.progress().step()
                && next.progress().max_steps() == pending.progress().max_steps() && next.progress().call_ids()
                == pending.progress().call_ids().insert(pending.call().call_id@) && next.call() == pending.call()
                && next.model_request_sha256() == pending.model_request_sha256()
        },
    }
}

impl AwaitCall {
    /// Goes on once the call is recorded, or steering has overtaken it. Its
    /// identity is taken from here on.
    pub fn recorded(self, result: Result<JournalOutcome, HarnessError>) -> (step: TurnStep)
        ensures
            call_step(self, result, step),
    {
        match result {
            Err(error) => TurnStep::Fail(error),
            Ok(outcome) => {
                if outcome.superseded {
                    return advance(self.progress);
                }
                let progress = take_id(self.progress, &self.call);
                TurnStep::Authorize(
                    AwaitAuthorization { progress, call: self.call, model_request_sha256: self.model_request_sha256 },
                )
            },
        }
    }
}

fn take_id(progress: TurnLoop, call: &ModelToolCall) -> (result: TurnLoop)
    ensures
        result.step() == progress.step(),
        result.max_steps() == progress.max_steps(),
        result.call_ids() == progress.call_ids().insert(call.call_id@),
{
    let TurnLoop { step, max_steps, mut call_ids } = progress;
    let ghost known = call_ids@;
    call_ids.insert(call.call_id.clone(), ());
    assert(call_ids@.dom() =~= known.dom().insert(call.call_id@));
    TurnLoop { step, max_steps, call_ids }
}

/// What follows the authorization of a call.
pub open spec fn authorized_step(pending: AwaitAuthorization, result: Result<(), HarnessError>, step: TurnStep) -> bool {
    match result {
        Err(error) => fails(step, error),
        Ok(()) => step matches TurnStep::BeforeEffect(next) && next.progress().same(pending.progress()) && next.call()
            == pending.call(),
    }
}

impl AwaitAuthorization {
    /// Goes on once the call is granted.
    pub fn authorized(self, result: Result<(), HarnessError>) -> (step: TurnStep)
        ensures
            authorized_step(self, result, step),
    {
        match result {
            Err(error) => TurnStep::Fail(error),
            Ok(()) => TurnStep::BeforeEffect(AwaitEffect { progress: self.progress, call: self.call }),
        }
    }
}

/// What follows the last look at steering before a call runs.
pub open spec fn effect_step(pending: AwaitEffect, result: Result<JournalOutcome, HarnessError>, step: TurnStep) -> bool {
    match result {
        Err(error) => fails(step, error),
        Ok(outcome) => if outcome.superseded {
            advances(pending.progress(), step)
        } else {
            step matches TurnStep::Execute(next) && next.progress().same(pending.progress()) && next.call()
                == pending.call()
        },
    }
}

impl AwaitEffect {
    /// Runs the call, unless steering has overtaken it.
    pub fn checked(self, result: Result<JournalOutcome, HarnessError>) -> (step: TurnStep)
        ensures
            effect_step(self, result, step),
    {
        match result {
            Err(error) => TurnStep::Fail(error),
            Ok(outcome) => {
                if outcome.superseded {
                    return advance(self.progress);
                }
                TurnStep::Execute(AwaitExecution { progress: self.progress, call: self.call })
            },
        }
    }
}

/// What follows running a call.
pub open spec fn executed_step(pending: AwaitExecution, result: Result<(), HarnessError>, step: TurnStep) -> bool {
    match result {
        Err(error) => fails(step, error),
        Ok(()) => advances(pending.progress(), step),
    }
}

impl AwaitExecution {
    /// Goes on once the call is settled.
    pub fn executed(self, result: Result<(), HarnessError>) -> (step: TurnStep)
        ensures
            executed_step(self, result, step),
    {
        match result {
            Err(error) => TurnStep::Fail(error),
            Ok(()) => advance(self.progress),
        }
    }
}

/// The next call of a batch is authorized, with its identity taken; behind the
/// last one the batch runs.
pub open spec fn authorizes_next(
    progress: TurnLoop,
    calls: Seq<ModelToolCall>,
    index: nat,
    sha256: String,
    step: TurnStep,
) -> bool {
    if index < calls.len() {
        step matches TurnStep::AuthorizeNext(next) && next.progress().step() == progress.step()
            && next.progress().max_steps() == progress.max_steps() && next.progress().call_ids()
            == progress.call_ids().insert(calls[index as int].call_id@) && next.calls() == calls && next.index() == index
            && next.model_request_sha256() == sha256
    } else {
        step matches TurnStep::ExecuteBatch(next) && next.progress().same(progress) && next.calls() == calls
    }
}

fn authorize_next(progress: TurnLoop, calls: Vec<ModelToolCall>, index: usize, sha256: String) -> (step: TurnStep)
    ensures
        authorizes_next(progress, calls@, index as nat, sha256, step),
{
    if index < calls.len() {
        let progress = take_id(progress, &calls[index]);
        TurnStep::AuthorizeNext(AwaitBatchAuthorization { progress, calls, index, model_request_sha256: sha256 })
    } else {
        TurnStep::ExecuteBatch(AwaitBatchExecution { progress, calls })
    }
}

/// What follows recording a batch of calls.
pub open spec fn batch_step(pending: AwaitBatch, result: Result<JournalOutcome, HarnessError>, step: TurnStep) -> bool {
    match result {
        Err(error) => fails(step, error),
        Ok(outcome) => if outcome.superseded {
            advances(pending.progress(), step)
        } else {
            authorizes_next(pending.progress(), pending.calls(), 0, pending.model_request_sha256(), step)
        },
    }
}

impl AwaitBatch {
    /// Goes on once the calls are recorded, or steering has overtaken them.
    pub fn recorded(self, result: Result<JournalOutcome, HarnessError>) -> (step: TurnStep)
        ensures
            batch_step(self, result, step),
    {
        match result {
            Err(error) => TurnStep::Fail(error),
            Ok(outcome) => {
                if outcome.superseded {
                    return advance(self.progress);
                }
                authorize_next(self.progress, self.calls, 0, self.model_request_sha256)
            },
        }
    }
}

/// What follows the authorization of one call of a batch.
pub open spec fn batch_authorized_step(
    pending: AwaitBatchAuthorization,
    result: Result<(), HarnessError>,
    step: TurnStep,
) -> bool {
    match result {
        Err(error) => fails(step, error),
        Ok(()) => authorizes_next(
            pending.progress(),
            pending.calls(),
            pending.index() + 1,
            pending.model_request_sha256(),
            step,
        ),
    }
}

impl AwaitBatchAuthorization {
    /// Goes on once the call is granted. No call of the batch runs before
    /// every one of them is granted.
    pub fn authorized(self, result: Result<(), HarnessError>) -> (step: TurnStep)
        ensures
            batch_authorized_step(self, result, step),
    {
        proof {
            use_type_invariant(&self);
        }
        let total: usize = self.calls.len();
        assert(self.index < total);
        match result {
            Err(error) => TurnStep::Fail(error),
            Ok(()) => authorize_next(self.progress, self.calls, self.index + 1, self.model_request_sha256),
        }
    }
}

/// What follows running a batch of calls.
pub open spec fn batch_executed_step(pending: AwaitBatchExecution, result: Result<bool, HarnessError>, step: TurnStep) -> bool {
    match result {
        Err(error) => fails(step, error),
        Ok(_) => advances(pending.progress(), step),
    }
}

impl AwaitBatchExecution {
    /// Goes on once the batch is settled, or steering has overtaken what was
    /// left of it.
    pub fn executed(self, result: Result<bool, HarnessError>) -> (step: TurnStep)
        ensures
            batch_executed_step(self, result, step),
    {
        match result {
            Err(error) => TurnStep::Fail(error),
            Ok(_) => advance(self.progress),
        }
    }
}

/// Every step of a Turn uses up one of its budget: from one step to the next
/// the number of steps that are left falls by one, and no step begins without
/// one.
pub proof fn law_step_budget_falls(progress: TurnLoop, step: TurnStep)
    requires
        progress.step() < progress.max_steps(),
        advances(progress, step),
    ensures
        match step {
            TurnStep::ApplySteering(before) => before.progress().max_steps() - before.progress().step()
                == progress.max_steps() - progress.step() - 1 && before.progress().step() < before.progress().max_steps(),
            TurnStep::Settle(error) => error@ == ErrorView::MaxSteps(progress.max_steps()) && progress.step() + 1
                == progress.max_steps(),
            _ => false,
        },
{
}

/// A Model cannot use a correlation identity twice in a Turn: a call whose
/// identity is taken is never recorded.
pub proof fn law_call_identities_are_used_once(
    progress: TurnLoop,
    sha256: String,
    output: SettledModelOutput,
    batch_id: ToolCallBatchId,
    step: TurnStep,
)
    requires
        output_step(progress, sha256, output, batch_id, step),
    ensures
        step matches TurnStep::RecordCall(_, _, next) ==> !progress.call_ids().contains(next.call().call_id@),
        step matches TurnStep::RecordBatch(_, _, next) ==> forall|k: int|
            0 <= k < next.calls().len() ==> !progress.call_ids().contains((#[trigger] next.calls()[k]).call_id@),
{
    if let ModelOutput::ToolCalls { calls } = output.output {
        if first_reused(calls@, progress.call_ids(), 0) is None {
            assert forall|k: int| 0 <= k < calls@.len() implies !progress.call_ids().contains(
                (#[trigger] calls@[k]).call_id@,
            ) by {
                lemma_none_reused(calls@, progress.call_ids(), 0, k);
            }
        }
    }
}

proof fn lemma_none_reused(calls: Seq<ModelToolCall>, used: Set<Seq<char>>, n: int, k: int)
    requires
        0 <= n <= k < calls.len(),
        first_reused(calls, used, n) is None,
    ensures
        !used.contains(calls[k].call_id@),
    decreases calls.len() - n,
{
    if n < k {
        lemma_none_reused(calls, used, n + 1, k);
    }
}

/// A call runs only where it was granted and no steering overtook it, and it
/// is the call that was granted.
pub proof fn law_effects_follow_grants(
    pending: AwaitAuthorization,
    grant: Result<(), HarnessError>,
    granted: AwaitEffect,
    look: Result<JournalOutcome, HarnessError>,
    step: TurnStep,
)
    requires
        authorized_step(pending, grant, TurnStep::BeforeEffect(granted)),
        effect_step(granted, look, step),
        step is Execute,
    ensures
        grant is Ok,
        look matches Ok(outcome) && !outcome.superseded,
        step matches TurnStep::Execute(run) && run.call() == pending.call(),
{
}

/// A batch runs only once its last call is granted: a refused call stops the
/// Turn, and every call before the last one leads to the next authorization.
pub proof fn law_batches_run_only_when_every_call_is_granted(
    pending: AwaitBatchAuthorization,
    grant: Result<(), HarnessError>,
    step: TurnStep,
)
    requires
        pending.index() < pending.calls().len(),
        batch_authorized_step(pending, grant, step),
    ensures
        grant is Err ==> step is Fail,
        step is ExecuteBatch ==> grant is Ok && pending.index() + 1 == pending.calls().len(),
        grant is Ok && pending.index() + 1 < pending.calls().len() ==> (step matches TurnStep::AuthorizeNext(next)
            && next.index() == pending.index() + 1 && next.calls() == pending.calls()),
{
}

/// Every verifier of an answer judges the same answer behind the same journal:
/// what earlier verifiers recorded is not shown to later ones.
pub proof fn law_verifiers_judge_the_same_candidate(
    recorded: VerificationRecorded,
    written: Result<JournalOutcome, HarnessError>,
    step: TurnStep,
)
    requires
        verified_step(recorded, written, step),
    ensures
        step matches TurnStep::Verify(next) ==> next.content() == recorded.pending().content() && next.items()
            == recorded.pending().items() && next.index() == recorded.pending().index() + 1,
{
}

/// An answer that a verifier faulted never completes the Turn: a final fault
/// ends it, and a retryable one marks the answer for good.
pub proof fn law_faulted_answers_do_not_complete(
    recorded: VerificationRecorded,
    written: Result<JournalOutcome, HarnessError>,
    step: TurnStep,
    closing: AwaitClosing,
    closed: Result<JournalOutcome, HarnessError>,
    last: TurnStep,
)
    requires
        verified_step(recorded, written, step),
        closed_step(closing, closed, last),
    ensures
        recorded.outcome() is Failed || recorded.pending().retry() ==> match step {
            TurnStep::Verify(next) => next.retry(),
            TurnStep::CloseSteering(next) => next.retry(),
            _ => true,
        },
        closing.retry() ==> !(last is Finish),
{
}

/// What a recorded judgement does to an answer: it is marked for another try
/// exactly where it was marked before or this verifier faulted it in a way that
/// can be mended, and the next verifier judges, or steering is closed behind
/// the last one. A fault that cannot be mended ends the Turn.
pub proof fn law_only_retryable_faults_mark_an_answer(
    recorded: VerificationRecorded,
    written: JournalOutcome,
    step: TurnStep,
)
    requires
        verified_step(recorded, Ok(written), step),
    ensures
        ({
            let judged = recorded.pending();
            let marked = judged.retry() || recorded.outcome() is Failed;
            if recorded.outcome() matches VerificationOutcome::Failed { retryable, .. } && !retryable {
                step is Settle
            } else if judged.index() + 1 < judged.total() {
                step matches TurnStep::Verify(next) && next.retry() == marked && next.index() == judged.index() + 1
                    && next.total() == judged.total() && next.content() == judged.content() && next.progress().same(
                    judged.progress(),
                )
            } else {
                step matches TurnStep::CloseSteering(next) && next.retry() == marked && next.content() == judged.content()
                    && next.progress().same(judged.progress())
            }
        }),
{
}

/// Whether one step of a verification leads to the next where its verifier
/// comes to this judgement.
pub open spec fn judges(from: TurnStep, outcome: VerificationOutcome, to: TurnStep) -> bool {
    from matches TurnStep::Verify(pending) ==> exists|
        verifier: String,
        item: ItemKind,
        recorded: VerificationRecorded,
        written: JournalOutcome,
    |
        #[trigger] judged_step(pending, verifier, Ok(outcome), Ok(()), TurnStep::RecordVerification(item, recorded))
            && #[trigger] verified_step(recorded, Ok(written), to)
}

proof fn lemma_judges(pending: AwaitVerification, outcome: VerificationOutcome, to: TurnStep)
    requires
        judges(TurnStep::Verify(pending), outcome, to),
        outcome is Passed || outcome->retryable,
    ensures
        verifies(
            pending.progress(),
            pending.content(),
            pending.items(),
            pending.index() + 1,
            pending.total(),
            pending.retry() || outcome is Failed,
            to,
        ),
{
    let (verifier, item, recorded, written) = choose|
        verifier: String,
        item: ItemKind,
        recorded: VerificationRecorded,
        written: JournalOutcome,
    |
        #[trigger] judged_step(pending, verifier, Ok(outcome), Ok(()), TurnStep::RecordVerification(item, recorded))
            && #[trigger] verified_step(recorded, Ok(written), to);
    assert(recorded.pending() == pending && recorded.outcome() == outcome);
}

spec fn any_faulted(outcomes: Seq<VerificationOutcome>, n: int) -> bool {
    exists|k: int| 0 <= k < n && (#[trigger] outcomes[k]) is Failed
}

proof fn lemma_judgements(
    message: AwaitMessage,
    items: Vec<Item>,
    verifiers: usize,
    outcomes: Seq<VerificationOutcome>,
    steps: Seq<TurnStep>,
    n: int,
)
    requires
        0 <= n <= outcomes.len() == verifiers,
        steps.len() == outcomes.len() + 1,
        verifies(message.progress(), message.content(), items, 0, verifiers as nat, false, steps[0]),
        forall|k: int| 0 <= k < outcomes.len() ==> judges(steps[k], #[trigger] outcomes[k], steps[k + 1]),
        forall|k: int| 0 <= k < outcomes.len() ==> (#[trigger] outcomes[k]) is Passed || outcomes[k]->retryable,
    ensures
        verifies(
            message.progress(),
            message.content(),
            items,
            n as nat,
            verifiers as nat,
            any_faulted(outcomes, n),
            steps[n],
        ),
    decreases n,
{
    if n > 0 {
        lemma_judgements(message, items, verifiers, outcomes, steps, n - 1);
        let outcome = outcomes[n - 1];
        assert(judges(steps[n - 1], outcomes[n - 1], steps[n - 1 + 1]));
        assert(steps[n - 1] is Verify);
        lemma_judges(steps[n - 1]->Verify_0, outcome, steps[n]);
        let before = any_faulted(outcomes, n - 1);
        assert(any_faulted(outcomes, n) == (before || outcome is Failed)) by {
            if before {
                let k = choose|k: int| 0 <= k < n - 1 && (#[trigger] outcomes[k]) is Failed;
                assert(0 <= k < n && outcomes[k] is Failed);
            }
        }
    } else {
        assert(!any_faulted(outcomes, 0));
    }
}

/// The verification of an answer is complete: every verifier judges it once,
/// in order, and behind the last judgement the Turn is finished with this
/// answer exactly where every verifier passed it and no steering overtook it.
/// Else the next step begins, or the Turn has used up its steps.
pub proof fn law_verified_answers_finish_the_turn(
    message: AwaitMessage,
    stored: JournalOutcome,
    items: Vec<Item>,
    verifiers: usize,
    outcomes: Seq<VerificationOutcome>,
    steps: Seq<TurnStep>,
    closing: AwaitClosing,
    looked: JournalOutcome,
    last: TurnStep,
)
    requires
        !stored.superseded,
        outcomes.len() == verifiers,
        steps.len() == outcomes.len() + 1,
        message_step(message, Ok(stored), items, verifiers, steps[0]),
        forall|k: int| 0 <= k < outcomes.len() ==> judges(steps[k], #[trigger] outcomes[k], steps[k + 1]),
        forall|k: int| 0 <= k < outcomes.len() ==> (#[trigger] outcomes[k]) is Passed || outcomes[k]->retryable,
        steps.last() == TurnStep::CloseSteering(closing) ==> closed_step(closing, Ok(looked), last),
    ensures
        steps.last() is CloseSteering,
        steps.last() == TurnStep::CloseSteering(closing) ==> {
            let passed = forall|k: int| 0 <= k < outcomes.len() ==> (#[trigger] outcomes[k]) is Passed;
            let progress = message.progress();
            if passed && !looked.superseded {
                last matches TurnStep::Finish(finish) && finish.content() == message.content()
            } else if progress.step() + 1 < progress.max_steps() {
                last matches TurnStep::ApplySteering(next) && next.progress().step() == progress.step() + 1
                    && next.progress().max_steps() == progress.max_steps() && next.progress().call_ids()
                    == progress.call_ids()
            } else {
                last matches TurnStep::Settle(error) && error@ == ErrorView::MaxSteps(progress.max_steps())
            }
        },
{
    lemma_judgements(message, items, verifiers, outcomes, steps, outcomes.len() as int);
    assert(steps.last() == steps[outcomes.len() as int]);
    if any_faulted(outcomes, outcomes.len() as int) {
        let k = choose|k: int| 0 <= k < outcomes.len() && (#[trigger] outcomes[k]) is Failed;
        assert(!(outcomes[k] is Passed));
    }
}

/// A Turn takes the steps of its budget and no more: it goes on with a step
/// exactly where it has one left, and is settled with the size of the budget
/// where it has none.
pub proof fn law_turns_take_their_whole_budget(step_index: nat, max_steps: nat, call_ids: Set<Seq<char>>, step: TurnStep)
    requires
        enters(step_index, max_steps, call_ids, step),
    ensures
        step_index < max_steps ==> (step matches TurnStep::ApplySteering(next) && next.progress().step() == step_index
            && next.progress().max_steps() == max_steps && next.progress().call_ids() == call_ids),
        step_index >= max_steps ==> (step matches TurnStep::Settle(error) && error@ == ErrorView::MaxSteps(max_steps)),
{
}

/// The way to the Model is straight: once waiting steering is applied the
/// request is built, and once it is digested the Model is asked, with its
/// digest and at the same position of the Turn.
pub proof fn law_requests_reach_the_model(
    before: BeforeRequest,
    applied: JournalOutcome,
    request: AwaitRequest,
    digest: String,
    steered: TurnStep,
    asked: TurnStep,
)
    requires
        steered_step(before, Ok(applied), steered),
        steered == TurnStep::Request(request) ==> digested_step(request, Ok(digest), asked),
    ensures
        steered is Request,
        steered == TurnStep::Request(request) ==> (asked matches TurnStep::AskModel(next) && next.progress().step()
            == before.progress().step() && next.progress().max_steps() == before.progress().max_steps()
            && next.progress().call_ids() == before.progress().call_ids() && next.model_request_sha256() == digest),
{
}

/// What a Model decides is recorded as it came: an answer as an answer, a call
/// and the calls of a batch with their own identity, name and input, all of
/// them with the Model that decided, and behind its Provider state.
pub proof fn law_decisions_are_recorded_as_made(
    pending: AwaitOutput,
    output: SettledModelOutput,
    batch_id: ToolCallBatchId,
    step: TurnStep,
)
    requires
        settled_step(pending, Ok(output), batch_id, step),
        output.output matches ModelOutput::ToolCall { call_id, .. } ==> !pending.progress().call_ids().contains(call_id@),
        output.output matches ModelOutput::ToolCalls { calls } ==> forall|k: int|
            0 <= k < calls@.len() ==> !pending.progress().call_ids().contains((#[trigger] calls@[k]).call_id@),
    ensures
        ({
            let state = match output.continuation {
                None => None,
                Some(continuation) => Some(
                    ItemKind::ProviderContinuation {
                        model_id: output.model_id,
                        model_origin: output.model_origin,
                        continuation,
                    },
                ),
            };
            match output.output {
                ModelOutput::Message { content } => step matches TurnStep::RecordMessage(behind, item, next) && behind == state
                    && item == (ItemKind::AssistantMessage {
                    model_id: Some(output.model_id),
                    model_origin: Some(output.model_origin),
                    content,
                }) && next.content() == content && next.progress().same(pending.progress()),
                ModelOutput::ToolCall { call_id, name, input } => step matches TurnStep::RecordCall(behind, item, next)
                    && behind == state && item == (ItemKind::ToolCall {
                    model_id: Some(output.model_id),
                    model_origin: Some(output.model_origin),
                    call_id,
                    name,
                    input,
                    batch: None,
                }) && next.call() == (ModelToolCall { call_id, name, input }) && next.model_request_sha256()
                    == pending.model_request_sha256() && next.progress().same(pending.progress()),
                ModelOutput::ToolCalls { calls } => step matches TurnStep::RecordBatch(behind, items, next) && behind == state
                    && items@.len() == calls@.len() && next.calls() == calls@ && next.model_request_sha256()
                    == pending.model_request_sha256() && next.progress().same(pending.progress()) && forall|k: int|
                    0 <= k < calls@.len() ==> #[trigger] items@[k] == (ItemKind::ToolCall {
                        model_id: Some(output.model_id),
                        model_origin: Some(output.model_origin),
                        call_id: calls@[k].call_id,
                        name: calls@[k].name,
                        input: calls@[k].input,
                        batch: Some(ToolCallBatch { id: batch_id, index: k as usize, size: calls@.len() as usize }),
                    }),
            }
        }),
{
    if let ModelOutput::ToolCalls { calls } = output.output {
        lemma_first_reused(calls@, pending.progress().call_ids(), 0);
    }
}

proof fn lemma_first_reused(calls: Seq<ModelToolCall>, used: Set<Seq<char>>, n: int)
    requires
        0 <= n <= calls.len(),
    ensures
        match first_reused(calls, used, n) {
            None => forall|k: int| n <= k < calls.len() ==> !used.contains((#[trigger] calls[k]).call_id@),
            Some(at) => n <= at < calls.len() && used.contains(calls[at].call_id@) && forall|k: int|
                n <= k < at ==> !used.contains((#[trigger] calls[k]).call_id@),
        },
    decreases calls.len() - n,
{
    if n < calls.len() {
        lemma_first_reused(calls, used, n + 1);
    }
}

/// A Model that uses a correlation identity a second time ends the Turn, with
/// the first such identity in the error; nothing is recorded.
pub proof fn law_reused_identities_end_the_turn(
    pending: AwaitOutput,
    output: SettledModelOutput,
    batch_id: ToolCallBatchId,
    step: TurnStep,
    call_id: Seq<char>,
)
    requires
        settled_step(pending, Ok(output), batch_id, step),
        pending.progress().call_ids().contains(call_id),
        match output.output {
            ModelOutput::Message { .. } => false,
            ModelOutput::ToolCall { call_id: own, .. } => own@ == call_id,
            ModelOutput::ToolCalls { calls } => exists|k: int|
                0 <= k < calls@.len() && (#[trigger] calls@[k]).call_id@ == call_id && forall|j: int|
                    0 <= j < k ==> !pending.progress().call_ids().contains((#[trigger] calls@[j]).call_id@),
        },
    ensures
        step matches TurnStep::Settle(error) && error@ == ErrorView::Model(
            "model reused Tool call id "@ + quoted(call_id) + " within one Turn"@,
        ),
{
    if let ModelOutput::ToolCalls { calls } = output.output {
        lemma_first_reused(calls@, pending.progress().call_ids(), 0);
        let k = choose|k: int|
            0 <= k < calls@.len() && (#[trigger] calls@[k]).call_id@ == call_id && forall|j: int|
                0 <= j < k ==> !pending.progress().call_ids().contains((#[trigger] calls@[j]).call_id@);
        let at = first_reused(calls@, pending.progress().call_ids(), 0);
        assert(at is Some);
        if at->0 < k {
            assert(!pending.progress().call_ids().contains(calls@[at->0].call_id@));
        }
    }
}

/// A single call goes its whole way: recorded, granted and not overtaken by
/// steering, this very call is authorized under the digest of its request and
/// runs; its identity is taken from then on; and behind it the next step
/// begins. Steering that overtakes it leads to the next step at once.
pub proof fn law_calls_run_once_granted(
    call: AwaitCall,
    stored: JournalOutcome,
    authorize: AwaitAuthorization,
    effect: AwaitEffect,
    looked: JournalOutcome,
    execution: AwaitExecution,
    steps: Seq<TurnStep>,
)
    requires
        steps.len() == 4,
        call_step(call, Ok(stored), steps[0]),
        steps[0] == TurnStep::Authorize(authorize) ==> authorized_step(authorize, Ok(()), steps[1]),
        steps[1] == TurnStep::BeforeEffect(effect) ==> effect_step(effect, Ok(looked), steps[2]),
        steps[2] == TurnStep::Execute(execution) ==> executed_step(execution, Ok(()), steps[3]),
    ensures
        stored.superseded ==> begins_behind(call.progress(), call.progress().call_ids(), steps[0]),
        !stored.superseded ==> steps[0] is Authorize,
        !stored.superseded && steps[0] == TurnStep::Authorize(authorize) ==> {
            let taken = call.progress().call_ids().insert(call.call().call_id@);
            &&& authorize.call() == call.call()
            &&& authorize.model_request_sha256() == call.model_request_sha256()
            &&& steps[1] is BeforeEffect
            &&& steps[1] == TurnStep::BeforeEffect(effect) ==> {
                &&& effect.call() == call.call()
                &&& looked.superseded ==> begins_behind(call.progress(), taken, steps[2])
                &&& !looked.superseded ==> steps[2] is Execute
                &&& !looked.superseded && steps[2] == TurnStep::Execute(execution) ==> execution.call() == call.call()
                    && begins_behind(call.progress(), taken, steps[3])
            }
        },
{
}

/// Whether a step is the one behind a position of the Turn: the next step with
/// these identities taken, or the end of the budget.
pub open spec fn begins_behind(progress: TurnLoop, taken: Set<Seq<char>>, step: TurnStep) -> bool {
    if progress.step() + 1 < progress.max_steps() {
        step matches TurnStep::ApplySteering(next) && next.progress().step() == progress.step() + 1
            && next.progress().max_steps() == progress.max_steps() && next.progress().call_ids() == taken
    } else {
        step matches TurnStep::Settle(error) && error@ == ErrorView::MaxSteps(progress.max_steps())
    }
}

/// A batch goes its whole way: its calls are authorized one by one from the
/// first to the last, every identity is taken when its turn comes, and behind
/// the last grant all of them run, in source order.
pub proof fn law_batches_are_authorized_in_order(
    batch: AwaitBatch,
    stored: JournalOutcome,
    steps: Seq<TurnStep>,
    grants: Seq<AwaitBatchAuthorization>,
    k: int,
)
    requires
        !stored.superseded,
        steps.len() == batch.calls().len() + 1,
        grants.len() == batch.calls().len(),
        batch_step(batch, Ok(stored), steps[0]),
        forall|j: int|
            0 <= j < grants.len() && steps[j] == TurnStep::AuthorizeNext(grants[j]) ==> batch_authorized_step(
                #[trigger] grants[j],
                Ok(()),
                steps[j + 1],
            ),
        0 <= k <= batch.calls().len(),
        forall|j: int| 0 <= j < k ==> steps[j] == TurnStep::AuthorizeNext(#[trigger] grants[j]),
    ensures
        k < batch.calls().len() ==> (steps[k] matches TurnStep::AuthorizeNext(next) && next.index() == k && next.calls()
            == batch.calls() && next.model_request_sha256() == batch.model_request_sha256() && next.progress().call_ids()
            == batch.progress().call_ids().union(ids_of(batch.calls().take(k + 1)))),
        k == batch.calls().len() ==> (steps[k] matches TurnStep::ExecuteBatch(next) && next.calls() == batch.calls()
            && next.progress().step() == batch.progress().step() && next.progress().max_steps() == batch.progress().max_steps()
            && next.progress().call_ids() == batch.progress().call_ids().union(ids_of(batch.calls()))),
{
    lemma_authorized(batch, stored, steps, grants, k);
}

/// Correlation identities of calls.
pub open spec fn ids_of(calls: Seq<ModelToolCall>) -> Set<Seq<char>> {
    Set::new(|id: Seq<char>| exists|k: int| 0 <= k < calls.len() && (#[trigger] calls[k]).call_id@ == id)
}

proof fn lemma_ids_push(calls: Seq<ModelToolCall>, k: int)
    requires
        0 <= k < calls.len(),
    ensures
        ids_of(calls.take(k + 1)) == ids_of(calls.take(k)).insert(calls[k].call_id@),
{
    let (shorter, longer) = (calls.take(k), calls.take(k + 1));
    assert forall|id: Seq<char>| ids_of(longer).contains(id) == ids_of(shorter).insert(calls[k].call_id@).contains(id) by {
        if ids_of(longer).contains(id) {
            let j = choose|j: int| 0 <= j < longer.len() && (#[trigger] longer[j]).call_id@ == id;
            if j < k {
                assert(shorter[j].call_id@ == id);
            }
        }
        if ids_of(shorter).contains(id) {
            let j = choose|j: int| 0 <= j < shorter.len() && (#[trigger] shorter[j]).call_id@ == id;
            assert(longer[j].call_id@ == id);
        }
        assert(longer[k].call_id@ == calls[k].call_id@);
    }
    assert(ids_of(longer) =~= ids_of(shorter).insert(calls[k].call_id@));
}

proof fn lemma_authorized(
    batch: AwaitBatch,
    stored: JournalOutcome,
    steps: Seq<TurnStep>,
    grants: Seq<AwaitBatchAuthorization>,
    k: int,
)
    requires
        !stored.superseded,
        steps.len() == batch.calls().len() + 1,
        grants.len() == batch.calls().len(),
        batch_step(batch, Ok(stored), steps[0]),
        forall|j: int|
            0 <= j < grants.len() && steps[j] == TurnStep::AuthorizeNext(grants[j]) ==> batch_authorized_step(
                #[trigger] grants[j],
                Ok(()),
                steps[j + 1],
            ),
        0 <= k <= batch.calls().len(),
        forall|j: int| 0 <= j < k ==> steps[j] == TurnStep::AuthorizeNext(#[trigger] grants[j]),
    ensures
        k < batch.calls().len() ==> (steps[k] matches TurnStep::AuthorizeNext(next) && next.index() == k && next.calls()
            == batch.calls() && next.model_request_sha256() == batch.model_request_sha256() && next.progress().step()
            == batch.progress().step() && next.progress().max_steps() == batch.progress().max_steps()
            && next.progress().call_ids() == batch.progress().call_ids().union(ids_of(batch.calls().take(k + 1)))),
        k == batch.calls().len() ==> (steps[k] matches TurnStep::ExecuteBatch(next) && next.calls() == batch.calls()
            && next.progress().step() == batch.progress().step() && next.progress().max_steps() == batch.progress().max_steps()
            && next.progress().call_ids() == batch.progress().call_ids().union(ids_of(batch.calls()))),
    decreases k,
{
    let calls = batch.calls();
    let used = batch.progress().call_ids();
    if k < calls.len() {
        lemma_ids_push(calls, k);
    }
    if k == 0 {
        assert(ids_of(calls.take(0)) =~= Set::empty());
        if calls.len() > 0 {
            assert(used.insert(calls[0].call_id@) =~= used.union(ids_of(calls.take(1))));
        } else {
            assert(calls.take(0) =~= calls);
            assert(used =~= used.union(ids_of(calls)));
        }
    } else {
        lemma_authorized(batch, stored, steps, grants, k - 1);
        assert(steps[k - 1] == TurnStep::AuthorizeNext(grants[k - 1]));
        assert(batch_authorized_step(grants[k - 1], Ok(()), steps[k - 1 + 1]));
        if k < calls.len() {
            assert(used.union(ids_of(calls.take(k))).insert(calls[k].call_id@) =~= used.union(ids_of(calls.take(k + 1))));
        } else {
            assert(calls.take(k) =~= calls);
        }
    }
}

/// A record that cannot be written ends the loop with its fault, wherever it
/// was to be made.
pub proof fn law_unwritten_records_end_the_loop(
    before: BeforeRequest,
    message: AwaitMessage,
    items: Vec<Item>,
    verifiers: usize,
    judged: VerificationRecorded,
    closing: AwaitClosing,
    call: AwaitCall,
    effect: AwaitEffect,
    batch: AwaitBatch,
    error: HarnessError,
    step: TurnStep,
)
    requires
        steered_step(before, Err(error), step) || message_step(message, Err(error), items, verifiers, step) || verified_step(
            judged,
            Err(error),
            step,
        ) || closed_step(closing, Err(error), step) || call_step(call, Err(error), step) || effect_step(
            effect,
            Err(error),
            step,
        ) || batch_step(batch, Err(error), step),
    ensures
        step == TurnStep::Fail(error),
{
}

/// What is refused or fails outside the journal ends the loop too: a refused
/// authorization and a failed execution with their fault as it is, a request
/// that cannot be digested and a Model that gives no answer by settling it.
pub proof fn law_outside_faults_end_the_loop(
    request: AwaitRequest,
    output: AwaitOutput,
    batch_id: ToolCallBatchId,
    authorization: AwaitAuthorization,
    execution: AwaitExecution,
    batch_authorization: AwaitBatchAuthorization,
    batch_execution: AwaitBatchExecution,
    error: HarnessError,
    step: TurnStep,
)
    ensures
        digested_step(request, Err(error), step) || settled_step(output, Err(error), batch_id, step) ==> step
            == TurnStep::Settle(error),
        authorized_step(authorization, Err(error), step) || executed_step(execution, Err(error), step)
            || batch_authorized_step(batch_authorization, Err(error), step) || batch_executed_step(
            batch_execution,
            Err(error),
            step,
        ) ==> step == TurnStep::Fail(error),
{
}

/// A judgement is recorded with the name of its verifier and as it was given.
/// A verifier that fails ends the Turn with its name and its fault, a stop with
/// the stop itself, and a judgement that is not acceptable with that fault.
pub proof fn law_judgements_are_recorded_as_given(
    pending: AwaitVerification,
    verifier: String,
    result: Result<VerificationOutcome, HarnessError>,
    outcome_check: Result<(), HarnessError>,
    step: TurnStep,
)
    requires
        judged_step(pending, verifier, result, outcome_check, step),
    ensures
        match result {
            Ok(outcome) => match outcome_check {
                Ok(()) => step matches TurnStep::RecordVerification(item, recorded) && item == (ItemKind::VerificationResult {
                    verifier,
                    candidate_item_id: None,
                    verifier_origin: None,
                    verifier_binding_sha256: None,
                    outcome,
                }) && recorded.outcome() == outcome && recorded.pending() == pending && recorded.judge() == verifier,
                Err(fault) => step == TurnStep::Settle(fault),
            },
            Err(error) => step matches TurnStep::Settle(reported) && if error@ is Cancelled || error@ is TimedOut {
                reported == error
            } else {
                reported@ == ErrorView::Verification(verifier@ + ": "@ + error@.text())
            },
        },
{
}

/// A judgement that rules the answer out for good ends the Turn with the name
/// of the verifier and its reason.
pub proof fn law_final_judgements_end_the_turn(recorded: VerificationRecorded, written: JournalOutcome, step: TurnStep)
    requires
        recorded.outcome() matches VerificationOutcome::Failed { retryable, .. } && !retryable,
        verified_step(recorded, Ok(written), step),
    ensures
        recorded.outcome() matches VerificationOutcome::Failed { reason, .. } && (step matches TurnStep::Settle(error) && error@
            == ErrorView::Verification(recorded.judge()@ + ": "@ + reason@)),
{
}

/// What steering overtook and what has run leads to the next step, with the
/// identities taken so far.
pub proof fn law_spent_steps_lead_to_the_next(
    message: AwaitMessage,
    items: Vec<Item>,
    verifiers: usize,
    batch: AwaitBatch,
    batch_execution: AwaitBatchExecution,
    overtaken: JournalOutcome,
    superseded: bool,
    step: TurnStep,
)
    requires
        overtaken.superseded,
    ensures
        message_step(message, Ok(overtaken), items, verifiers, step) ==> begins_behind(
            message.progress(),
            message.progress().call_ids(),
            step,
        ),
        batch_step(batch, Ok(overtaken), step) ==> begins_behind(batch.progress(), batch.progress().call_ids(), step),
        batch_executed_step(batch_execution, Ok(superseded), step) ==> begins_behind(
            batch_execution.progress(),
            batch_execution.progress().call_ids(),
            step,
        ),
{
}

/// Steps are numbered from 1 on.
pub proof fn law_steps_are_numbered_from_one(progress: TurnLoop)
    ensures
        progress.step() < 4_294_967_295 ==> progress.step_number() == progress.step() + 1,
        progress.step() >= 4_294_967_295 ==> progress.step_number() == 4_294_967_295,
{
}

} // verus!
