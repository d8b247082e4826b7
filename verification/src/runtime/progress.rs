//! Deterministic no-progress detection over durable Tool decisions and results.

use std::collections::VecDeque;

use vstd::prelude::*;
use vstd::utf8::encode_utf8;

use crate::digest::sha256_hex;
use crate::error::{ErrorView, HarnessError};
use crate::items::{Item, ItemKind, ToolCallBatch};
use crate::json::{bounded_serialized_sha256, json_string, json_string_text, JsonDocument};
use crate::kernel::{optional_text, ToolCallBatchId};
use crate::runtime::resume::state_error;
use crate::runtime::route::invalid_configuration;
use crate::text::{join5, same_text, utf8_len};

verus! {

/// Longest digested Tool value, in encoded bytes.
pub const MAX_PROGRESS_VALUE_BYTES: usize = 1_052_672;

/// Longest digested Tool cycle, in encoded bytes.
pub const MAX_PROGRESS_CYCLE_BYTES: usize = 16_384;

/// Longest cycle that is looked for.
pub const MAX_FAILURE_CYCLE_PERIOD: usize = 4;

/// Default repetition ceiling for one exact failure-bearing Tool cycle.
pub const DEFAULT_MAX_FAILURE_CYCLE_REPETITIONS: u8 = 5;

/// Largest configurable failure-bearing cycle repetition ceiling.
pub const MAX_FAILURE_CYCLE_REPETITIONS: u8 = 16;

/// Bounded deterministic policy for stopping an Agent Loop that repeats an
/// exact cycle containing at least one failed Tool observation.
#[derive(Clone, Copy, Debug, PartialEq, Eq, Structural)]
pub struct ProgressPolicy {
    max_failure_cycle_repetitions: u8,
}

impl ProgressPolicy {
    #[verifier::type_invariant]
    spec fn bounded(self) -> bool {
        2 <= self.max_failure_cycle_repetitions <= MAX_FAILURE_CYCLE_REPETITIONS
    }

    /// Repetitions at which the loop stops.
    pub closed spec fn repetitions(self) -> u8 {
        self.max_failure_cycle_repetitions
    }

    /// Creates a policy that stops after the exact suffix of a failure-bearing
    /// Tool cycle repeats this many times without external input.
    pub fn new(max_failure_cycle_repetitions: u8) -> (result: Result<Self, HarnessError>)
        ensures
            match result {
                Ok(policy) => 2 <= max_failure_cycle_repetitions <= MAX_FAILURE_CYCLE_REPETITIONS
                    && policy.repetitions() == max_failure_cycle_repetitions,
                Err(error) => !(2 <= max_failure_cycle_repetitions <= MAX_FAILURE_CYCLE_REPETITIONS) && error@
                    == ErrorView::InvalidConfiguration("failed Tool-cycle repetition limit must be 2-16"@),
            },
    {
        if !(2 <= max_failure_cycle_repetitions && max_failure_cycle_repetitions <= MAX_FAILURE_CYCLE_REPETITIONS) {
            return Err(invalid_configuration("failed Tool-cycle repetition limit must be 2-16"));
        }
        Ok(ProgressPolicy { max_failure_cycle_repetitions })
    }

    /// Returns the failure-bearing Tool-cycle repetition ceiling.
    pub fn max_failure_cycle_repetitions(self) -> (repetitions: u8)
        ensures
            repetitions == self.repetitions(),
            2 <= repetitions <= MAX_FAILURE_CYCLE_REPETITIONS,
    {
        proof {
            use_type_invariant(&self);
        }
        self.max_failure_cycle_repetitions
    }
}

impl Default for ProgressPolicy {
    fn default() -> (policy: Self)
        ensures
            policy.repetitions() == DEFAULT_MAX_FAILURE_CYCLE_REPETITIONS,
    {
        ProgressPolicy { max_failure_cycle_repetitions: DEFAULT_MAX_FAILURE_CYCLE_REPETITIONS }
    }
}

/// Whether the loop may go on.
#[derive(Clone, Copy, Debug, PartialEq, Eq, Structural)]
pub enum ProgressVerdict {
    /// It may.
    Continue,
    /// It repeats itself.
    Stop {
        /// Decisions in one cycle.
        cycle_period: u8,
        /// Repetitions of the cycle.
        repetitions: u8,
    },
}

/// One call of an open cycle.
pub struct PendingCall {
    call_id: String,
    proposal_sha256: String,
    result_sha256: Option<String>,
    is_error: Option<bool>,
}

impl Clone for PendingCall {
    fn clone(&self) -> (result: Self)
        ensures
            result == *self,
    {
        PendingCall {
            call_id: self.call_id.clone(),
            proposal_sha256: self.proposal_sha256.clone(),
            result_sha256: match &self.result_sha256 {
                Some(digest) => Some(digest.clone()),
                None => None,
            },
            is_error: self.is_error,
        }
    }
}

/// Decision of a Model whose calls are not all settled.
pub struct PendingCycle {
    batch_id: Option<ToolCallBatchId>,
    expected_calls: usize,
    calls: Vec<PendingCall>,
}

/// Incremental reducer over the authoritative ordered Turn journal.
///
/// Only bounded correlation metadata and digests are retained. Raw Tool
/// inputs/results, Model text, and hidden reasoning never enter the governor
/// state.
pub struct ProgressGovernor {
    policy: ProgressPolicy,
    cursor: usize,
    pending: Option<PendingCycle>,
    failed_cycles: VecDeque<String>,
}

/// Mathematical content of a [`PendingCall`].
#[verifier::ext_equal]
pub struct CallView {
    /// Correlation identity.
    pub call_id: Seq<char>,
    /// Digest of the proposal.
    pub proposal: Seq<char>,
    /// Digest of the result, once there is one.
    pub result: Option<Seq<char>>,
    /// Whether the result is a failure, once there is one.
    pub is_error: Option<bool>,
}

/// Mathematical content of a [`PendingCycle`].
#[verifier::ext_equal]
pub struct CycleView {
    /// Identity of the batch, where the decision is a batch.
    pub batch_id: Option<Seq<char>>,
    /// Calls of the decision.
    pub expected: nat,
    /// Calls so far.
    pub calls: Seq<CallView>,
}

/// Mathematical content of a [`ProgressGovernor`], but for its position.
#[verifier::ext_equal]
pub struct GovernorView {
    /// Open decision.
    pub pending: Option<CycleView>,
    /// Digests of the failed cycles since the last boundary, newest last.
    pub failed: Seq<Seq<char>>,
}

impl View for PendingCall {
    type V = CallView;

    closed spec fn view(&self) -> CallView {
        CallView {
            call_id: self.call_id@,
            proposal: self.proposal_sha256@,
            result: optional_text(self.result_sha256),
            is_error: self.is_error,
        }
    }
}

/// Contents of calls.
pub open spec fn call_views(calls: Seq<PendingCall>) -> Seq<CallView> {
    Seq::new(calls.len(), |i: int| calls[i]@)
}

/// Contents of texts.
pub open spec fn text_views(texts: Seq<String>) -> Seq<Seq<char>> {
    Seq::new(texts.len(), |i: int| texts[i]@)
}

impl View for PendingCycle {
    type V = CycleView;

    closed spec fn view(&self) -> CycleView {
        CycleView {
            batch_id: match self.batch_id {
                Some(id) => Some(id@),
                None => None,
            },
            expected: self.expected_calls as nat,
            calls: call_views(self.calls@),
        }
    }
}

impl View for ProgressGovernor {
    type V = GovernorView;

    closed spec fn view(&self) -> GovernorView {
        GovernorView {
            pending: match self.pending {
                Some(cycle) => Some(cycle@),
                None => None,
            },
            failed: text_views(self.failed_cycles@),
        }
    }
}

impl ProgressGovernor {
    /// Items observed so far.
    pub closed spec fn position(self) -> nat {
        self.cursor as nat
    }

    /// Repetitions at which the loop stops.
    pub closed spec fn repetitions(self) -> u8 {
        self.policy.repetitions()
    }
}

/// Encoding of a proposed call.
pub open spec fn proposal_encoding(name: Seq<char>, input: Seq<char>) -> Seq<char> {
    "{\"name\":"@ + json_string(name) + ",\"input\":"@ + input + "}"@
}

/// Encoding of a truth value.
pub open spec fn bool_encoding(value: bool) -> Seq<char> {
    if value {
        "true"@
    } else {
        "false"@
    }
}

/// Encoding of a result.
pub open spec fn observation_encoding(is_error: bool, output: Seq<char>) -> Seq<char> {
    "{\"is_error\":"@ + bool_encoding(is_error) + ",\"output\":"@ + output + "}"@
}

/// Encoding of one settled call of a cycle.
pub open spec fn settled_call_encoding(call: CallView) -> Seq<char> {
    "{\"proposal_sha256\":"@ + json_string(call.proposal) + ",\"result_sha256\":"@ + (match call.result {
        Some(digest) => json_string(digest),
        None => "null"@,
    }) + ",\"is_error\":"@ + (match call.is_error {
        Some(value) => bool_encoding(value),
        None => "null"@,
    }) + "}"@
}

/// Encodings of the settled calls of a cycle, separated by commas.
pub open spec fn settled_calls_encoding(calls: Seq<CallView>) -> Seq<char>
    decreases calls.len(),
{
    if calls.len() == 0 {
        Seq::empty()
    } else if calls.len() == 1 {
        settled_call_encoding(calls[0])
    } else {
        settled_calls_encoding(calls.drop_last()) + ","@ + settled_call_encoding(calls.last())
    }
}

/// Encoding of a settled cycle. Correlation identities are left out, so that
/// fresh ones do not hide a repetition.
pub open spec fn cycle_encoding(calls: Seq<CallView>) -> Seq<char> {
    "{\"calls\":["@ + settled_calls_encoding(calls) + "]}"@
}

/// Digest of an encoding of bounded length.
pub open spec fn bounded_digest(encoding: Seq<char>, maximum: usize) -> Result<Seq<char>, ErrorView> {
    if utf8_len(encoding) <= maximum {
        Ok(sha256_hex(encode_utf8(encoding)))
    } else {
        Err(ErrorView::State("Progress Governor could not digest bounded Tool evidence"@))
    }
}

/// Error of a decision that begins while another one is open.
pub open spec fn unsettled_decision() -> ErrorView {
    ErrorView::State("Progress Governor observed a new Tool decision before the previous decision settled"@)
}

/// Call of a cycle before its result.
pub open spec fn fresh_call(call_id: Seq<char>, proposal: Seq<char>) -> CallView {
    CallView { call_id, proposal, result: None, is_error: None }
}

/// Effect of a proposed call.
pub open spec fn observe_call(
    governor: GovernorView,
    call_id: Seq<char>,
    name: Seq<char>,
    input: Seq<char>,
    batch: Option<ToolCallBatch>,
) -> (GovernorView, Option<ErrorView>) {
    match bounded_digest(proposal_encoding(name, input), MAX_PROGRESS_VALUE_BYTES) {
        Err(fault) => (governor, Some(fault)),
        Ok(proposal) => {
            let call = fresh_call(call_id, proposal);
            match batch {
                None => if governor.pending is Some {
                    (governor, Some(unsettled_decision()))
                } else {
                    (
                        GovernorView {
                            pending: Some(CycleView { batch_id: None, expected: 1, calls: seq![call] }),
                            failed: governor.failed,
                        },
                        None,
                    )
                },
                Some(batch) => if batch.index == 0 {
                    if governor.pending is Some {
                        (governor, Some(unsettled_decision()))
                    } else {
                        (
                            GovernorView {
                                pending: Some(
                                    CycleView {
                                        batch_id: Some(batch.id@),
                                        expected: batch.size as nat,
                                        calls: seq![call],
                                    },
                                ),
                                failed: governor.failed,
                            },
                            None,
                        )
                    }
                } else {
                    match governor.pending {
                        None => (
                            governor,
                            Some(
                                ErrorView::State(
                                    "Progress Governor observed a non-initial Tool batch member without its batch"@,
                                ),
                            ),
                        ),
                        Some(cycle) => if cycle.batch_id != Some(batch.id@) || cycle.expected != batch.size
                            || cycle.calls.len() != batch.index {
                            (
                                governor,
                                Some(
                                    ErrorView::State("Progress Governor observed inconsistent Tool batch evidence"@),
                                ),
                            )
                        } else {
                            (
                                GovernorView {
                                    pending: Some(
                                        CycleView {
                                            batch_id: cycle.batch_id,
                                            expected: cycle.expected,
                                            calls: cycle.calls.push(call),
                                        },
                                    ),
                                    failed: governor.failed,
                                },
                                None,
                            )
                        },
                    }
                },
            }
        },
    }
}

/// Position of the first call with this identity, from `n` on.
pub open spec fn call_position(calls: Seq<CallView>, call_id: Seq<char>, n: int) -> Option<int>
    decreases calls.len() - n,
{
    if n < 0 || n >= calls.len() {
        None
    } else if calls[n].call_id == call_id {
        Some(n)
    } else {
        call_position(calls, call_id, n + 1)
    }
}

/// Call of a cycle with its result.
pub open spec fn settled_call(call: CallView, result: Seq<char>, is_error: Option<bool>) -> CallView {
    CallView { call_id: call.call_id, proposal: call.proposal, result: Some(result), is_error }
}

/// Whether every call of a cycle is there and has its result.
pub open spec fn cycle_is_complete(cycle: CycleView) -> bool {
    cycle.calls.len() == cycle.expected && forall|k: int|
        0 <= k < cycle.calls.len() ==> (#[trigger] cycle.calls[k]).result is Some
}

/// Whether every call of a cycle succeeded.
pub open spec fn cycle_succeeded(calls: Seq<CallView>) -> bool {
    forall|k: int| 0 <= k < calls.len() ==> (#[trigger] calls[k]).is_error == Some(false)
}

/// Newest entries of a history.
pub open spec fn newest(history: Seq<Seq<char>>, most: nat) -> Seq<Seq<char>> {
    if history.len() <= most {
        history
    } else {
        history.skip(history.len() - most)
    }
}

/// Entries that a history keeps.
pub open spec fn retained(repetitions: u8) -> nat {
    (MAX_FAILURE_CYCLE_PERIOD * repetitions) as nat
}

/// Effect of a completed cycle.
pub open spec fn complete_cycle(repetitions: u8, failed: Seq<Seq<char>>, calls: Seq<CallView>) -> (
    GovernorView,
    Option<ErrorView>,
) {
    if cycle_succeeded(calls) {
        (GovernorView { pending: None, failed: Seq::empty() }, None)
    } else {
        match bounded_digest(cycle_encoding(calls), MAX_PROGRESS_CYCLE_BYTES) {
            Err(fault) => (GovernorView { pending: None, failed }, Some(fault)),
            Ok(digest) => (
                GovernorView { pending: None, failed: newest(failed.push(digest), retained(repetitions)) },
                None,
            ),
        }
    }
}

/// Effect of a result.
pub open spec fn observe_result(
    repetitions: u8,
    governor: GovernorView,
    call_id: Seq<char>,
    output: Seq<char>,
    is_error: bool,
) -> (GovernorView, Option<ErrorView>) {
    match bounded_digest(observation_encoding(is_error, output), MAX_PROGRESS_VALUE_BYTES) {
        Err(fault) => (governor, Some(fault)),
        Ok(result) => match governor.pending {
            None => (
                governor,
                Some(ErrorView::State("Progress Governor observed a Tool result without a pending decision"@)),
            ),
            Some(cycle) => match call_position(cycle.calls, call_id, 0) {
                None => (
                    governor,
                    Some(ErrorView::State("Progress Governor observed a Tool result for a different decision"@)),
                ),
                Some(at) => {
                    let call = cycle.calls[at];
                    if call.result is Some {
                        (
                            GovernorView {
                                pending: Some(
                                    CycleView {
                                        batch_id: cycle.batch_id,
                                        expected: cycle.expected,
                                        calls: cycle.calls.update(at, settled_call(call, result, call.is_error)),
                                    },
                                ),
                                failed: governor.failed,
                            },
                            Some(ErrorView::State("Progress Governor observed duplicate Tool-result evidence"@)),
                        )
                    } else {
                        let settled = CycleView {
                            batch_id: cycle.batch_id,
                            expected: cycle.expected,
                            calls: cycle.calls.update(at, settled_call(call, result, Some(is_error))),
                        };
                        if cycle_is_complete(settled) {
                            complete_cycle(repetitions, governor.failed, settled.calls)
                        } else {
                            (GovernorView { pending: Some(settled), failed: governor.failed }, None)
                        }
                    }
                },
            },
        },
    }
}

/// Effect of one item of the journal: the state after it, and the fault where
/// there is one. Messages and applied steering begin a new history, and so
/// does a verification; none of them may split a decision.
pub open spec fn observe(repetitions: u8, governor: GovernorView, item: Item) -> (GovernorView, Option<ErrorView>) {
    match item.kind {
        ItemKind::UserMessage { .. } => observe_boundary(governor),
        ItemKind::SteeringApplied { .. } => observe_boundary(governor),
        ItemKind::AssistantMessage { .. } => observe_boundary(governor),
        ItemKind::VerificationResult { .. } => observe_boundary(governor),
        ItemKind::ToolCall { call_id, name, input, batch, .. } => observe_call(governor, call_id@, name@, input@, batch),
        ItemKind::ToolResult { call_id, output, is_error, .. } => observe_result(
            repetitions,
            governor,
            call_id@,
            output@,
            is_error,
        ),
        _ => (governor, None),
    }
}

/// Effect of an item that begins a new history.
pub open spec fn observe_boundary(governor: GovernorView) -> (GovernorView, Option<ErrorView>) {
    if governor.pending is Some {
        (governor, Some(unsettled_decision()))
    } else {
        (GovernorView { pending: None, failed: Seq::empty() }, None)
    }
}

/// Effect of items in order, up to the first fault.
pub open spec fn replay(repetitions: u8, governor: GovernorView, items: Seq<Item>) -> (GovernorView, Option<ErrorView>)
    decreases items.len(),
{
    if items.len() == 0 {
        (governor, None)
    } else {
        let (earlier, fault) = replay(repetitions, governor, items.drop_last());
        if fault is Some {
            (earlier, fault)
        } else {
            observe(repetitions, earlier, items.last())
        }
    }
}

/// Whether a history ends with a number of repetitions of its last `period`
/// entries.
pub open spec fn repeats(history: Seq<Seq<char>>, period: int, repetitions: int) -> bool {
    let start = history.len() - period * repetitions;
    &&& start >= 0
    &&& forall|i: int|
        start + period <= i < history.len() ==> #[trigger] history[i] == history[start + (i - start) % period]
}

/// Smallest period from `period` on with which a history repeats itself.
pub open spec fn smallest_period(history: Seq<Seq<char>>, period: int, repetitions: int) -> Option<int>
    decreases MAX_FAILURE_CYCLE_PERIOD + 1 - period,
{
    if period > MAX_FAILURE_CYCLE_PERIOD {
        None
    } else if repeats(history, period, repetitions) {
        Some(period)
    } else {
        smallest_period(history, period + 1, repetitions)
    }
}

/// Verdict on a history.
pub open spec fn verdict(history: Seq<Seq<char>>, repetitions: u8) -> ProgressVerdict {
    match smallest_period(history, 1, repetitions as int) {
        None => ProgressVerdict::Continue,
        Some(period) => ProgressVerdict::Stop { cycle_period: period as u8, repetitions },
    }
}

fn digest_progress_value(encoding: &str, maximum: usize) -> (result: Result<String, HarnessError>)
    ensures
        match result {
            Ok(digest) => bounded_digest(encoding@, maximum) == Ok::<Seq<char>, ErrorView>(digest@),
            Err(error) => bounded_digest(encoding@, maximum) == Err::<Seq<char>, ErrorView>(error@),
        },
{
    match bounded_serialized_sha256(encoding, maximum) {
        Ok(digest) => Ok(digest),
        Err(_) => Err(state_error("Progress Governor could not digest bounded Tool evidence")),
    }
}

fn bool_text(value: bool) -> (text: &'static str)
    ensures
        text@ == bool_encoding(value),
{
    if value {
        "true"
    } else {
        "false"
    }
}

fn append_settled_call(text: &mut String, call: &PendingCall)
    ensures
        final(text)@ == old(text)@ + settled_call_encoding(call@),
{
    let ghost before = text@;
    let proposal = json_string_text(call.proposal_sha256.as_str());
    text.append("{\"proposal_sha256\":");
    text.append(proposal.as_str());
    text.append(",\"result_sha256\":");
    match &call.result_sha256 {
        Some(digest) => {
            let literal = json_string_text(digest.as_str());
            text.append(literal.as_str());
        },
        None => {
            text.append("null");
        },
    }
    text.append(",\"is_error\":");
    match call.is_error {
        Some(value) => {
            text.append(bool_text(value));
        },
        None => {
            text.append("null");
        },
    }
    text.append("}");
    assert(text@ =~= before + settled_call_encoding(call@));
}

fn encode_cycle(calls: &Vec<PendingCall>) -> (text: String)
    ensures
        text@ == cycle_encoding(call_views(calls@)),
{
    let mut text = String::from_str("{\"calls\":[");
    let ghost views = call_views(calls@);
    let mut i: usize = 0;
    assert(text@ =~= "{\"calls\":["@ + settled_calls_encoding(views.take(0)));
    while i < calls.len()
        invariant
            i <= calls@.len(),
            views == call_views(calls@),
            text@ == "{\"calls\":["@ + settled_calls_encoding(views.take(i as int)),
        decreases calls@.len() - i,
    {
        proof {
            assert(views.take(i + 1).drop_last() =~= views.take(i as int));
            assert(views.take(i + 1).last() == calls@[i as int]@);
        }
        if i > 0 {
            text.append(",");
        }
        append_settled_call(&mut text, &calls[i]);
        assert(text@ =~= "{\"calls\":["@ + settled_calls_encoding(views.take(i + 1)));
        i += 1;
    }
    assert(views.take(i as int) =~= views);
    text.append("]}");
    text
}

fn repeated(history: &VecDeque<String>, period: usize, repetitions: usize) -> (result: bool)
    requires
        1 <= period <= MAX_FAILURE_CYCLE_PERIOD,
    ensures
        result == repeats(text_views(history@), period as int, repetitions as int),
{
    let total: usize = history.len();
    let required: usize = match period.checked_mul(repetitions) {
        Some(required) => required,
        None => {
            return false;
        },
    };
    let ghost views = text_views(history@);
    if total < required {
        return false;
    }
    let start: usize = total - required;
    if required < period {
        return true;
    }
    let mut i: usize = start + period;
    while i < total
        invariant
            1 <= period,
            start + period <= i <= total == history@.len(),
            views == text_views(history@),
            start == total - period * repetitions,
            forall|k: int| start + period <= k < i ==> #[trigger] views[k] == views[start + (k - start) % (period as int)],
        decreases total - i,
    {
        let offset: usize = (i - start) % period;
        proof {
            vstd::arithmetic::div_mod::lemma_mod_bound(i - start, period as int);
        }
        assert(offset < period);
        let same = same_text(history[i].as_str(), history[start + offset].as_str());
        assert(views[i as int] == history@[i as int]@);
        assert(views[start + offset] == history@[start + offset]@);
        if !same {
            return false;
        }
        i += 1;
    }
    true
}

/// Finds the smallest period with which a history repeats itself.
pub fn repeated_suffix_period(history: &VecDeque<String>, repetitions: usize) -> (period: Option<usize>)
    ensures
        match period {
            Some(period) => smallest_period(text_views(history@), 1, repetitions as int) == Some(period as int) && 1
                <= period <= MAX_FAILURE_CYCLE_PERIOD,
            None => smallest_period(text_views(history@), 1, repetitions as int) is None,
        },
{
    let mut period: usize = 1;
    while period <= MAX_FAILURE_CYCLE_PERIOD
        invariant
            1 <= period <= MAX_FAILURE_CYCLE_PERIOD + 1,
            smallest_period(text_views(history@), 1, repetitions as int) == smallest_period(
                text_views(history@),
                period as int,
                repetitions as int,
            ),
        decreases MAX_FAILURE_CYCLE_PERIOD + 1 - period,
    {
        if repeated(history, period, repetitions) {
            return Some(period);
        }
        period = period + 1;
    }
    None
}

impl PendingCall {
    fn new(call_id: &str, proposal_sha256: String) -> (call: Self)
        ensures
            call@ == fresh_call(call_id@, proposal_sha256@),
    {
        PendingCall { call_id: call_id.to_owned(), proposal_sha256, result_sha256: None, is_error: None }
    }
}

fn one_call(call: PendingCall) -> (calls: Vec<PendingCall>)
    ensures
        call_views(calls@) == seq![call@],
{
    let mut calls: Vec<PendingCall> = Vec::new();
    calls.push(call);
    assert(call_views(calls@) =~= seq![call@]);
    calls
}

impl ProgressGovernor {
    /// Creates a governor and replays a journal.
    pub fn from_items(policy: ProgressPolicy, items: &Vec<Item>) -> (result: Result<Self, HarnessError>)
        ensures
            ({
                let start = (GovernorView { pending: None, failed: Seq::empty() });
                let (state, fault) = replay(policy.repetitions(), start, items@);
                match result {
                    Ok(governor) => fault is None && governor@ == state && governor.position() == items@.len()
                        && governor.repetitions() == policy.repetitions(),
                    Err(error) => fault == Some(error@),
                }
            }),
    {
        let mut governor = ProgressGovernor { policy, cursor: 0, pending: None, failed_cycles: VecDeque::new() };
        assert(governor@.failed =~= Seq::empty());
        assert(items@.skip(0) =~= items@);
        match governor.advance(items) {
            Ok(_) => Ok(governor),
            Err(error) => Err(error),
        }
    }

    /// Returns the number of items observed so far.
    pub fn cursor(&self) -> (cursor: usize)
        ensures
            cursor == self.position(),
    {
        self.cursor
    }

    /// Observes the items of a journal that are new and judges the history.
    pub fn advance(&mut self, items: &Vec<Item>) -> (result: Result<ProgressVerdict, HarnessError>)
        ensures
            final(self).repetitions() == old(self).repetitions(),
            if old(self).position() > items@.len() {
                *final(self) == *old(self) && (result matches Err(error) && error@ == ErrorView::State(
                    "Progress Governor item cursor moved beyond the Turn"@,
                ))
            } else {
                let (state, fault) = replay(
                    old(self).repetitions(),
                    old(self)@,
                    items@.skip(old(self).position() as int),
                );
                &&& final(self)@ == state
                &&& match result {
                    Ok(judged) => fault is None && final(self).position() == items@.len() && judged == verdict(
                        state.failed,
                        old(self).repetitions(),
                    ),
                    Err(error) => fault == Some(error@) && final(self).position() == old(self).position(),
                }
            },
    {
        if self.cursor > items.len() {
            return Err(state_error("Progress Governor item cursor moved beyond the Turn"));
        }
        let ghost start = self@;
        let ghost from = self.cursor as int;
        let ghost fresh = items@.skip(from);
        let ghost repetitions = self.repetitions();
        let mut i: usize = self.cursor;
        while i < items.len()
            invariant
                from <= i <= items@.len(),
                from == old(self).position(),
                start == old(self)@,
                repetitions == old(self).repetitions(),
                fresh == items@.skip(from),
                self.cursor == from,
                self.repetitions() == repetitions,
                replay(repetitions, start, fresh.take(i - from)) == (self@, None::<ErrorView>),
            decreases items@.len() - i,
        {
            proof {
                assert(fresh.take(i + 1 - from).drop_last() =~= fresh.take(i - from));
                assert(fresh.take(i + 1 - from).last() == items@[i as int]);
            }
            if let Err(error) = self.observe(&items[i]) {
                proof {
                    lemma_replay_prefix(repetitions, start, fresh, i + 1 - from);
                }
                return Err(error);
            }
            i += 1;
        }
        assert(fresh.take(i - from) =~= fresh);
        self.cursor = items.len();
        Ok(self.judge())
    }

    fn judge(&self) -> (judged: ProgressVerdict)
        ensures
            judged == verdict(self@.failed, self.repetitions()),
    {
        let repetitions: u8 = self.policy.max_failure_cycle_repetitions();
        match repeated_suffix_period(&self.failed_cycles, repetitions as usize) {
            None => ProgressVerdict::Continue,
            Some(period) => ProgressVerdict::Stop { cycle_period: period as u8, repetitions },
        }
    }

    fn boundary(&mut self) -> (result: Result<(), HarnessError>)
        ensures
            final(self).position() == old(self).position(),
            final(self).repetitions() == old(self).repetitions(),
            final(self)@ == observe_boundary(old(self)@).0,
            match result {
                Ok(()) => observe_boundary(old(self)@).1 is None,
                Err(error) => observe_boundary(old(self)@).1 == Some(error@),
            },
    {
        if self.pending.is_some() {
            return Err(
                state_error(
                    "Progress Governor observed a new Tool decision before the previous decision settled",
                ),
            );
        }
        self.failed_cycles = VecDeque::new();
        assert(self@.failed =~= Seq::empty());
        Ok(())
    }

    fn observe(&mut self, item: &Item) -> (result: Result<(), HarnessError>)
        ensures
            final(self).position() == old(self).position(),
            final(self).repetitions() == old(self).repetitions(),
            final(self)@ == observe(old(self).repetitions(), old(self)@, *item).0,
            match result {
                Ok(()) => observe(old(self).repetitions(), old(self)@, *item).1 is None,
                Err(error) => observe(old(self).repetitions(), old(self)@, *item).1 == Some(error@),
            },
    {
        match &item.kind {
            ItemKind::UserMessage { .. } => self.boundary(),
            ItemKind::SteeringApplied { .. } => self.boundary(),
            ItemKind::AssistantMessage { .. } => self.boundary(),
            ItemKind::VerificationResult { .. } => self.boundary(),
            ItemKind::ToolCall { call_id, name, input, batch, .. } => self.observe_call(
                call_id.as_str(),
                name.as_str(),
                input,
                batch,
            ),
            ItemKind::ToolResult { call_id, output, is_error, .. } => self.observe_result(
                call_id.as_str(),
                output,
                *is_error,
            ),
            _ => Ok(()),
        }
    }

    fn observe_call(&mut self, call_id: &str, name: &str, input: &JsonDocument, batch: &Option<ToolCallBatch>) -> (result: Result<
        (),
        HarnessError,
    >)
        ensures
            final(self).position() == old(self).position(),
            final(self).repetitions() == old(self).repetitions(),
            final(self)@ == observe_call(old(self)@, call_id@, name@, input@, *batch).0,
            match result {
                Ok(()) => observe_call(old(self)@, call_id@, name@, input@, *batch).1 is None,
                Err(error) => observe_call(old(self)@, call_id@, name@, input@, *batch).1 == Some(error@),
            },
    {
        let literal = json_string_text(name);
        let encoding = join5("{\"name\":", literal.as_str(), ",\"input\":", input.as_str(), "}");
        let proposal_sha256 = match digest_progress_value(encoding.as_str(), MAX_PROGRESS_VALUE_BYTES) {
            Ok(digest) => digest,
            Err(error) => {
                return Err(error);
            },
        };
        let call = PendingCall::new(call_id, proposal_sha256);
        match batch {
            None => {
                if self.pending.is_some() {
                    return Err(
                        state_error(
                            "Progress Governor observed a new Tool decision before the previous decision settled",
                        ),
                    );
                }
                self.pending = Some(PendingCycle { batch_id: None, expected_calls: 1, calls: one_call(call) });
                Ok(())
            },
            Some(batch) => {
                if batch.index == 0 {
                    if self.pending.is_some() {
                        return Err(
                            state_error(
                                "Progress Governor observed a new Tool decision before the previous decision settled",
                            ),
                        );
                    }
                    self.pending = Some(
                        PendingCycle {
                            batch_id: Some(batch.id.clone()),
                            expected_calls: batch.size,
                            calls: one_call(call),
                        },
                    );
                    return Ok(());
                }
                let ghost before = self@;
                match self.pending.take() {
                    None => Err(
                        state_error("Progress Governor observed a non-initial Tool batch member without its batch"),
                    ),
                    Some(cycle) => {
                        let same_batch = match &cycle.batch_id {
                            Some(id) => id.same(&batch.id),
                            None => false,
                        };
                        let mut cycle = cycle;
                        if !same_batch || cycle.expected_calls != batch.size || cycle.calls.len() != batch.index {
                            self.pending = Some(cycle);
                            return Err(state_error("Progress Governor observed inconsistent Tool batch evidence"));
                        }
                        let ghost calls = cycle.calls@;
                        cycle.calls.push(call);
                        assert(call_views(cycle.calls@) =~= call_views(calls).push(call@));
                        self.pending = Some(cycle);
                        Ok(())
                    },
                }
            },
        }
    }

    fn observe_result(&mut self, call_id: &str, output: &JsonDocument, is_error: bool) -> (result: Result<(), HarnessError>)
        ensures
            final(self).position() == old(self).position(),
            final(self).repetitions() == old(self).repetitions(),
            final(self)@ == observe_result(old(self).repetitions(), old(self)@, call_id@, output@, is_error).0,
            match result {
                Ok(()) => observe_result(old(self).repetitions(), old(self)@, call_id@, output@, is_error).1 is None,
                Err(error) => observe_result(old(self).repetitions(), old(self)@, call_id@, output@, is_error).1 == Some(
                    error@,
                ),
            },
    {
        let encoding = join5("{\"is_error\":", bool_text(is_error), ",\"output\":", output.as_str(), "}");
        let result_sha256 = match digest_progress_value(encoding.as_str(), MAX_PROGRESS_VALUE_BYTES) {
            Ok(digest) => digest,
            Err(error) => {
                return Err(error);
            },
        };
        let mut cycle = match self.pending.take() {
            Some(cycle) => cycle,
            None => {
                return Err(state_error("Progress Governor observed a Tool result without a pending decision"));
            },
        };
        let at: usize = match find_pending_call(&cycle.calls, call_id) {
            Some(at) => at,
            None => {
                self.pending = Some(cycle);
                return Err(state_error("Progress Governor observed a Tool result for a different decision"));
            },
        };
        let ghost calls = cycle.calls@;
        let call = cycle.calls[at].clone();
        let duplicate = call.result_sha256.is_some();
        let settled = PendingCall {
            call_id: call.call_id,
            proposal_sha256: call.proposal_sha256,
            result_sha256: Some(result_sha256),
            is_error: if duplicate {
                call.is_error
            } else {
                Some(is_error)
            },
        };
        cycle.calls.set(at, settled);
        assert(call_views(cycle.calls@) =~= call_views(calls).update(at as int, settled@));
        if duplicate {
            self.pending = Some(cycle);
            return Err(state_error("Progress Governor observed duplicate Tool-result evidence"));
        }
        if !complete(&cycle) {
            self.pending = Some(cycle);
            return Ok(());
        }
        if succeeded(&cycle.calls) {
            self.failed_cycles = VecDeque::new();
            assert(self@.failed =~= Seq::empty());
            return Ok(());
        }
        let encoding = encode_cycle(&cycle.calls);
        let cycle_sha256 = match digest_progress_value(encoding.as_str(), MAX_PROGRESS_CYCLE_BYTES) {
            Ok(digest) => digest,
            Err(error) => {
                return Err(error);
            },
        };
        self.remember(cycle_sha256);
        Ok(())
    }

    fn remember(&mut self, cycle_sha256: String)
        ensures
            final(self).position() == old(self).position(),
            final(self).repetitions() == old(self).repetitions(),
            final(self)@ == (GovernorView {
                pending: old(self)@.pending,
                failed: newest(old(self)@.failed.push(cycle_sha256@), retained(old(self).repetitions())),
            }),
    {
        let ghost before = self@.failed;
        let ghost pending = self@.pending;
        let ghost all = before.push(cycle_sha256@);
        self.failed_cycles.push_back(cycle_sha256);
        assert(text_views(self.failed_cycles@) =~= all);
        let keep: usize = MAX_FAILURE_CYCLE_PERIOD * self.policy.max_failure_cycle_repetitions() as usize;
        assert(text_views(self.failed_cycles@) =~= all.skip(all.len() - self.failed_cycles@.len()));
        while self.failed_cycles.len() > keep
            invariant
                keep == retained(self.repetitions()),
                self.position() == old(self).position(),
                self.repetitions() == old(self).repetitions(),
                self@.pending == pending,
                self.failed_cycles@.len() <= all.len(),
                self.failed_cycles@.len() >= keep || self.failed_cycles@.len() == all.len(),
                text_views(self.failed_cycles@) == all.skip(all.len() - self.failed_cycles@.len()),
            decreases self.failed_cycles@.len(),
        {
            let ghost kept = self.failed_cycles@;
            let _ = self.failed_cycles.pop_front();
            assert(self.failed_cycles@ =~= kept.drop_first());
            assert(text_views(self.failed_cycles@) =~= all.skip(all.len() - self.failed_cycles@.len())) by {
                assert forall|k: int| 0 <= k < kept.len() - 1 implies text_views(kept.drop_first())[k] == all.skip(
                    all.len() - (kept.len() - 1),
                )[k] by {
                    assert(text_views(kept)[k + 1] == all.skip(all.len() - kept.len())[k + 1]);
                }
            }
        }
        assert(self@.failed =~= newest(all, keep as nat));
    }
}

fn find_pending_call(calls: &Vec<PendingCall>, call_id: &str) -> (at: Option<usize>)
    ensures
        match at {
            Some(at) => call_position(call_views(calls@), call_id@, 0) == Some(at as int) && at < calls@.len(),
            None => call_position(call_views(calls@), call_id@, 0) is None,
        },
{
    let mut n: usize = 0;
    while n < calls.len()
        invariant
            n <= calls@.len(),
            call_position(call_views(calls@), call_id@, 0) == call_position(call_views(calls@), call_id@, n as int),
        decreases calls@.len() - n,
    {
        assert(call_views(calls@)[n as int] == calls@[n as int]@);
        if same_text(calls[n].call_id.as_str(), call_id) {
            return Some(n);
        }
        n += 1;
    }
    None
}

fn complete(cycle: &PendingCycle) -> (result: bool)
    ensures
        result == cycle_is_complete(cycle@),
{
    if cycle.calls.len() != cycle.expected_calls {
        return false;
    }
    let mut n: usize = 0;
    while n < cycle.calls.len()
        invariant
            n <= cycle.calls@.len(),
            cycle.calls@.len() == cycle.expected_calls,
            forall|k: int| 0 <= k < n ==> (#[trigger] cycle@.calls[k]).result is Some,
        decreases cycle.calls@.len() - n,
    {
        assert(cycle@.calls[n as int] == cycle.calls@[n as int]@);
        if cycle.calls[n].result_sha256.is_none() {
            return false;
        }
        n += 1;
    }
    true
}

fn succeeded(calls: &Vec<PendingCall>) -> (result: bool)
    ensures
        result == cycle_succeeded(call_views(calls@)),
{
    let mut n: usize = 0;
    while n < calls.len()
        invariant
            n <= calls@.len(),
            forall|k: int| 0 <= k < n ==> (#[trigger] call_views(calls@)[k]).is_error == Some(false),
        decreases calls@.len() - n,
    {
        assert(call_views(calls@)[n as int] == calls@[n as int]@);
        let fine = match calls[n].is_error {
            Some(is_error) => !is_error,
            None => false,
        };
        if !fine {
            return false;
        }
        n += 1;
    }
    true
}

proof fn lemma_replay_prefix(repetitions: u8, governor: GovernorView, items: Seq<Item>, n: int)
    requires
        0 <= n <= items.len(),
        replay(repetitions, governor, items.take(n)).1 is Some,
    ensures
        replay(repetitions, governor, items) == replay(repetitions, governor, items.take(n)),
    decreases items.len() - n,
{
    if n == items.len() {
        assert(items.take(n) =~= items);
    } else {
        assert(items.take(n + 1).drop_last() =~= items.take(n));
        lemma_replay_prefix(repetitions, governor, items, n + 1);
    }
}

/// Observing a journal in pieces comes to the same as observing it at once.
pub proof fn law_replay_is_incremental(repetitions: u8, governor: GovernorView, first: Seq<Item>, second: Seq<Item>)
    ensures
        replay(repetitions, governor, first + second) == if replay(repetitions, governor, first).1 is Some {
            replay(repetitions, governor, first)
        } else {
            replay(repetitions, replay(repetitions, governor, first).0, second)
        },
    decreases second.len(),
{
    if second.len() == 0 {
        assert(first + second =~= first);
    } else {
        law_replay_is_incremental(repetitions, governor, first, second.drop_last());
        assert((first + second).drop_last() =~= first + second.drop_last());
        assert((first + second).last() == second.last());
    }
}

/// What a history no longer keeps has no influence on any verdict.
pub proof fn law_retained_history_decides(history: Seq<Seq<char>>, repetitions: u8)
    requires
        repetitions <= MAX_FAILURE_CYCLE_REPETITIONS,
    ensures
        verdict(newest(history, retained(repetitions)), repetitions) == verdict(history, repetitions),
{
    let kept = newest(history, retained(repetitions));
    assert forall|period: int| 1 <= period <= MAX_FAILURE_CYCLE_PERIOD implies #[trigger] repeats(
        kept,
        period,
        repetitions as int,
    ) == repeats(history, period, repetitions as int) by {
        lemma_repeats_suffix(history, kept, period, repetitions as int);
    }
    lemma_period_same(history, kept, 1, repetitions as int);
}

proof fn lemma_repeats_suffix(history: Seq<Seq<char>>, kept: Seq<Seq<char>>, period: int, repetitions: int)
    requires
        1 <= period <= MAX_FAILURE_CYCLE_PERIOD,
        0 <= repetitions <= MAX_FAILURE_CYCLE_REPETITIONS,
        kept == newest(history, (MAX_FAILURE_CYCLE_PERIOD * repetitions) as nat),
    ensures
        repeats(kept, period, repetitions) == repeats(history, period, repetitions),
{
    let required = period * repetitions;
    assert(required <= MAX_FAILURE_CYCLE_PERIOD * repetitions) by (nonlinear_arith)
        requires
            required == period * repetitions,
            period <= MAX_FAILURE_CYCLE_PERIOD,
            repetitions >= 0,
    ;
    assert(required >= 0) by (nonlinear_arith)
        requires
            required == period * repetitions,
            period >= 1,
            repetitions >= 0,
    ;
    let cut = history.len() - kept.len();
    assert forall|i: int| 0 <= i < kept.len() implies kept[i] == history[i + cut] by {}
    let start = history.len() - required;
    let kept_start = kept.len() - required;
    if start >= 0 {
        assert(kept_start == start - cut);
        assert(kept_start >= 0);
        if repeats(history, period, repetitions) {
            assert forall|i: int| kept_start + period <= i < kept.len() implies #[trigger] kept[i] == kept[kept_start + (i
                - kept_start) % period] by {
                let j = i + cut;
                assert(history[j] == history[start + (j - start) % period]);
                assert(j - start == i - kept_start);
                lemma_offset(i - kept_start, period, required);
            }
        }
        if repeats(kept, period, repetitions) {
            assert forall|j: int| start + period <= j < history.len() implies #[trigger] history[j] == history[start + (j
                - start) % period] by {
                let i = j - cut;
                assert(kept[i] == kept[kept_start + (i - kept_start) % period]);
                assert(j - start == i - kept_start);
                lemma_offset(j - start, period, required);
            }
        }
    }
}

proof fn lemma_offset(distance: int, period: int, required: int)
    requires
        1 <= period <= distance < required,
    ensures
        0 <= distance % period < period,
{
    vstd::arithmetic::div_mod::lemma_mod_bound(distance, period);
}

proof fn lemma_period_same(history: Seq<Seq<char>>, kept: Seq<Seq<char>>, period: int, repetitions: int)
    requires
        1 <= period,
        forall|p: int|
            1 <= p <= MAX_FAILURE_CYCLE_PERIOD ==> #[trigger] repeats(kept, p, repetitions) == repeats(
                history,
                p,
                repetitions,
            ),
    ensures
        smallest_period(kept, period, repetitions) == smallest_period(history, period, repetitions),
    decreases MAX_FAILURE_CYCLE_PERIOD + 1 - period,
{
    if period <= MAX_FAILURE_CYCLE_PERIOD {
        assert(repeats(kept, period, repetitions) == repeats(history, period, repetitions));
        lemma_period_same(history, kept, period + 1, repetitions);
    }
}

/// Success is never a lack of progress: behind a cycle in which every call
/// succeeded the history is empty, and an empty history never stops a loop.
pub proof fn law_success_resets_the_history(repetitions: u8, failed: Seq<Seq<char>>, calls: Seq<CallView>)
    requires
        cycle_succeeded(calls),
        1 <= repetitions,
    ensures
        complete_cycle(repetitions, failed, calls) == (GovernorView { pending: None, failed: Seq::empty() }, None::<ErrorView>),
        verdict(Seq::empty(), repetitions) == ProgressVerdict::Continue,
{
    lemma_empty_history(1, repetitions as int);
}

proof fn lemma_empty_history(period: int, repetitions: int)
    requires
        1 <= period,
        1 <= repetitions,
    ensures
        smallest_period(Seq::empty(), period, repetitions) is None,
    decreases MAX_FAILURE_CYCLE_PERIOD + 1 - period,
{
    if period <= MAX_FAILURE_CYCLE_PERIOD {
        assert(period * repetitions >= 1) by (nonlinear_arith)
            requires
                period >= 1,
                repetitions >= 1,
        ;
        lemma_empty_history(period + 1, repetitions);
    }
}

/// A message, applied steering and a verification begin a new history.
pub proof fn law_external_input_resets_the_history(repetitions: u8, governor: GovernorView, item: Item)
    requires
        governor.pending is None,
        item.kind is UserMessage || item.kind is SteeringApplied || item.kind is AssistantMessage
            || item.kind is VerificationResult,
    ensures
        observe(repetitions, governor, item) == (GovernorView { pending: None, failed: Seq::empty() }, None::<ErrorView>),
{
}

/// A loop is stopped exactly when the end of its history is one cycle of at
/// most four decisions, repeated as often as the policy says.
pub proof fn law_stop_means_repetition(history: Seq<Seq<char>>, repetitions: u8)
    ensures
        verdict(history, repetitions) is Stop <==> exists|period: int|
            1 <= period <= MAX_FAILURE_CYCLE_PERIOD && #[trigger] repeats(history, period, repetitions as int),
{
    lemma_smallest_period(history, 1, repetitions as int);
}

proof fn lemma_smallest_period(history: Seq<Seq<char>>, from: int, repetitions: int)
    requires
        1 <= from,
    ensures
        smallest_period(history, from, repetitions) is Some <==> exists|period: int|
            from <= period <= MAX_FAILURE_CYCLE_PERIOD && #[trigger] repeats(history, period, repetitions),
    decreases MAX_FAILURE_CYCLE_PERIOD + 1 - from,
{
    if from <= MAX_FAILURE_CYCLE_PERIOD {
        lemma_smallest_period(history, from + 1, repetitions);
        if smallest_period(history, from + 1, repetitions) is Some {
            let period = choose|period: int|
                from + 1 <= period <= MAX_FAILURE_CYCLE_PERIOD && #[trigger] repeats(history, period, repetitions);
            assert(repeats(history, period, repetitions));
        }
        if exists|period: int| from <= period <= MAX_FAILURE_CYCLE_PERIOD && #[trigger] repeats(history, period, repetitions) {
            let period = choose|period: int|
                from <= period <= MAX_FAILURE_CYCLE_PERIOD && #[trigger] repeats(history, period, repetitions);
            if period > from {
                assert(repeats(history, period, repetitions));
            }
        }
    }
}

/// Fresh correlation identities do not hide a repetition: cycles that differ
/// in them alone have the same digest.
pub proof fn law_identities_do_not_hide_a_cycle(a: Seq<CallView>, b: Seq<CallView>)
    requires
        a.len() == b.len(),
        forall|k: int|
            0 <= k < a.len() ==> (#[trigger] a[k]).proposal == b[k].proposal && a[k].result == b[k].result && a[k].is_error
                == b[k].is_error,
    ensures
        cycle_encoding(a) == cycle_encoding(b),
{
    lemma_same_encoding(a, b);
}

proof fn lemma_same_encoding(a: Seq<CallView>, b: Seq<CallView>)
    requires
        a.len() == b.len(),
        forall|k: int|
            0 <= k < a.len() ==> (#[trigger] a[k]).proposal == b[k].proposal && a[k].result == b[k].result && a[k].is_error
                == b[k].is_error,
    ensures
        settled_calls_encoding(a) == settled_calls_encoding(b),
    decreases a.len(),
{
    if a.len() > 0 {
        assert(a[a.len() - 1].proposal == b[a.len() - 1].proposal);
        assert(a[0].proposal == b[0].proposal);
        let (x, y) = (a.drop_last(), b.drop_last());
        assert forall|k: int| 0 <= k < x.len() implies (#[trigger] x[k]).proposal == y[k].proposal && x[k].result
            == y[k].result && x[k].is_error == y[k].is_error by {
            assert(a[k].proposal == b[k].proposal);
        }
        lemma_same_encoding(x, y);
    }
}

/// A cycle of failures may be repeated two to sixteen times before it is
/// stopped, and five times unless a policy says otherwise.
pub proof fn law_repetition_limits_are_taken_on(
    repetitions: u8,
    made: Result<ProgressPolicy, HarnessError>,
    plain: ProgressPolicy,
)
    requires
        call_ensures(ProgressPolicy::new, (repetitions,), made),
        call_ensures(ProgressPolicy::default, (), plain),
    ensures
        made is Ok <==> 2 <= repetitions <= 16,
        made matches Ok(policy) ==> policy.repetitions() == repetitions,
        plain.repetitions() == 5,
{
}

} // verus!
