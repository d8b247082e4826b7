//! Bounds on prompts, Model responses, Tool values and recorded diagnostics.

use vstd::prelude::*;
use vstd::utf8::encode_utf8;

use crate::capability::{
    ContextBlock, ContextSource, ModelOutput, ModelRequest, ModelResponse, ToolDescriptor, MAX_TOOL_CALLS_PER_BATCH,
};
use crate::digest::sha256_hex;
use crate::error::{settles, ErrorView, HarnessError};
use crate::items::{
    invalid_continuation, ApprovalDecision, InvocationContextEvidence, Item, ItemKind, MemoryContextRecordStatus,
    MemoryContextStatus, ModelToolCall, PolicyDecision,
};
use crate::json::{bounded_serialized_sha256, json_string, json_string_text, shape_is_bounded, JsonDocument};
use crate::kernel::{
    invalid_model_id, invalid_origin, model_id_is_valid, origin_is_valid, validate_capability_origin, validate_model_id,
    ActorIdentity, TurnId,
};
use crate::runtime::steering::{prompt_is_valid, MAX_PROMPT_BYTES};
use crate::text::{
    blank, byte_len, decimal, decimal_text, is_blank, is_label, join2, join3, join4, label_text, quoted, quoted_text,
    same_text, utf8_len,
};

verus! {

/// Longest accepted answer of a Model, in bytes.
pub const MAX_MODEL_TEXT_BYTES: usize = 1_048_576;

/// Longest accepted input of one Tool call, in encoded bytes.
pub const MAX_MODEL_TOOL_INPUT_BYTES: usize = 1_048_576;

/// Longest accepted batch of Tool calls, in encoded bytes.
pub const MAX_MODEL_TOOL_BATCH_BYTES: usize = 4_194_304;

/// Longest accepted Tool output, in encoded bytes.
pub const MAX_TOOL_OUTPUT_BYTES: usize = 1_048_576;

/// Longest accepted Model request, in encoded bytes.
pub const MAX_MODEL_REQUEST_BYTES: usize = 16_777_216;

/// Longest recorded diagnostic, in characters.
pub const MAX_RUNTIME_ERROR_CHARS: usize = 4_096;

/// Longest accepted correlation identity, in bytes.
pub const MAX_MODEL_CALL_ID_BYTES: usize = 256;

/// Longest accepted Provider evidence identity, in bytes.
pub const MAX_PROVIDER_EVIDENCE_ID_BYTES: usize = 256;

/// Longest accepted reason of Policy or an approver, in bytes.
pub const MAX_POLICY_REASON_BYTES: usize = 4_096;

/// General-purpose events that a Turn needs.
pub const MIN_RUNTIME_GENERAL_EVENTS: u64 = 4;

/// Which capability a bounded value belongs to.
#[derive(Clone, Copy, Debug, PartialEq, Eq, Structural)]
pub enum ValueOwner {
    /// A Model.
    Model,
    /// A Tool.
    Tool,
}

impl ValueOwner {
    /// Failure of the capability.
    pub open spec fn failure(self, message: Seq<char>) -> ErrorView {
        match self {
            ValueOwner::Model => ErrorView::Model(message),
            ValueOwner::Tool => ErrorView::Tool(message),
        }
    }

    fn error(self, message: String) -> (error: HarnessError)
        ensures
            error@ == self.failure(message@),
    {
        match self {
            ValueOwner::Model => HarnessError::Model(message),
            ValueOwner::Tool => HarnessError::Tool(message),
        }
    }
}

fn model_error(message: &str) -> (error: HarnessError)
    ensures
        error@ == ErrorView::Model(message@),
{
    HarnessError::Model(message.to_owned())
}

/// Outcome of checking a prompt.
pub open spec fn prompt_check(prompt: Seq<char>) -> Result<(), ErrorView> {
    if prompt_is_valid(prompt) {
        Ok(())
    } else {
        Err(ErrorView::InvalidConfiguration("prompt must be 1-1048576 bytes"@))
    }
}

/// Checks that a prompt is non-blank and bounded.
pub fn validate_prompt(prompt: &str) -> (result: Result<(), HarnessError>)
    ensures
        settles(result, prompt_check(prompt@)),
{
    if blank(prompt) || byte_len(prompt) > MAX_PROMPT_BYTES {
        return Err(HarnessError::InvalidConfiguration("prompt must be 1-1048576 bytes".to_owned()));
    }
    Ok(())
}

/// Outcome of checking the reason of a decision.
pub open spec fn reason_check(kind: Seq<char>, reason: Seq<char>) -> Result<(), ErrorView> {
    if is_label(reason, MAX_POLICY_REASON_BYTES as nat) {
        Ok(())
    } else {
        Err(ErrorView::InvalidCapability(kind + " reason must be 1-4096 non-control bytes"@))
    }
}

fn validate_decision_reason(kind: &str, reason: &str) -> (result: Result<(), HarnessError>)
    ensures
        settles(result, reason_check(kind@, reason@)),
{
    if !label_text(reason, MAX_POLICY_REASON_BYTES) {
        return Err(HarnessError::InvalidCapability(join2(kind, " reason must be 1-4096 non-control bytes")));
    }
    Ok(())
}

/// Outcome of checking a decision of Policy.
pub open spec fn policy_decision_check(decision: PolicyDecision) -> Result<(), ErrorView> {
    match decision {
        PolicyDecision::Allow => Ok(()),
        PolicyDecision::Deny { reason } => reason_check("Policy"@, reason@),
        PolicyDecision::Ask { reason, .. } => reason_check("Policy"@, reason@),
    }
}

/// Checks the reason of a decision of Policy.
pub fn validate_policy_decision(decision: &PolicyDecision) -> (result: Result<(), HarnessError>)
    ensures
        settles(result, policy_decision_check(*decision)),
{
    match decision {
        PolicyDecision::Allow => Ok(()),
        PolicyDecision::Deny { reason } => validate_decision_reason("Policy", reason.as_str()),
        PolicyDecision::Ask { reason, .. } => validate_decision_reason("Policy", reason.as_str()),
    }
}

/// Outcome of checking a decision of an approver.
pub open spec fn approval_decision_check(decision: ApprovalDecision) -> Result<(), ErrorView> {
    match decision {
        ApprovalDecision::Approve => Ok(()),
        ApprovalDecision::Deny { reason } => reason_check("approval"@, reason@),
    }
}

/// Checks the reason of a decision of an approver.
pub fn validate_approval_decision(decision: &ApprovalDecision) -> (result: Result<(), HarnessError>)
    ensures
        settles(result, approval_decision_check(*decision)),
{
    match decision {
        ApprovalDecision::Approve => Ok(()),
        ApprovalDecision::Deny { reason } => validate_decision_reason("approval", reason.as_str()),
    }
}

/// Outcome of checking the shape of a value.
pub open spec fn shape_check(kind: Seq<char>, value: Seq<char>, owner: ValueOwner) -> Result<(), ErrorView> {
    if shape_is_bounded(value) {
        Ok(())
    } else {
        Err(owner.failure(kind + " exceeds the supported JSON depth or node count"@))
    }
}

fn validate_runtime_json_shape(kind: &str, value: &JsonDocument, owner: ValueOwner) -> (result: Result<(), HarnessError>)
    ensures
        settles(result, shape_check(kind@, value@, owner)),
{
    if value.shape_is_bounded() {
        Ok(())
    } else {
        Err(owner.error(join2(kind, " exceeds the supported JSON depth or node count")))
    }
}

/// Outcome of checking shape and encoded size of a value.
pub open spec fn value_check(kind: Seq<char>, value: Seq<char>, maximum: nat, owner: ValueOwner) -> Result<(), ErrorView> {
    if shape_check(kind, value, owner) is Err {
        shape_check(kind, value, owner)
    } else if utf8_len(value) > maximum {
        Err(owner.failure(kind + " exceeds "@ + decimal(maximum) + " bytes"@))
    } else {
        Ok(())
    }
}

fn validate_runtime_json(kind: &str, value: &JsonDocument, maximum: usize, owner: ValueOwner) -> (result: Result<
    (),
    HarnessError,
>)
    ensures
        settles(result, value_check(kind@, value@, maximum as nat, owner)),
{
    if let Err(error) = validate_runtime_json_shape(kind, value, owner) {
        return Err(error);
    }
    match value.bounded_size(maximum) {
        Ok(_) => Ok(()),
        Err(_) => Err(owner.error(join4(kind, " exceeds ", decimal_text(maximum as u64).as_str(), " bytes"))),
    }
}

/// Outcome of checking a Tool output.
pub open spec fn tool_output_check(output: Seq<char>) -> Result<(), ErrorView> {
    value_check("tool output"@, output, MAX_TOOL_OUTPUT_BYTES as nat, ValueOwner::Tool)
}

/// Checks shape and size of a Tool output.
pub fn validate_tool_output(output: &JsonDocument) -> (result: Result<(), HarnessError>)
    ensures
        settles(result, tool_output_check(output@)),
{
    validate_runtime_json("tool output", output, MAX_TOOL_OUTPUT_BYTES, ValueOwner::Tool)
}

/// Outcome of checking an answer of a Model.
pub open spec fn message_check(content: Seq<char>) -> Result<(), ErrorView> {
    if !is_blank(content) && utf8_len(content) <= MAX_MODEL_TEXT_BYTES {
        Ok(())
    } else {
        Err(ErrorView::Model("assistant message must be 1-1048576 bytes"@))
    }
}

fn validate_model_message(content: &str) -> (result: Result<(), HarnessError>)
    ensures
        settles(result, message_check(content@)),
{
    if blank(content) || byte_len(content) > MAX_MODEL_TEXT_BYTES {
        return Err(model_error("assistant message must be 1-1048576 bytes"));
    }
    Ok(())
}

/// Outcome of checking one Tool call of a Model.
pub open spec fn tool_call_check(call_id: Seq<char>, name: Seq<char>, input: Seq<char>) -> Result<(), ErrorView> {
    if !is_label(call_id, MAX_MODEL_CALL_ID_BYTES as nat) {
        Err(ErrorView::Model("tool call id must be 1-256 non-control bytes"@))
    } else if name.len() == 0 || utf8_len(name) > 64 {
        Err(ErrorView::Model("tool name must be 1-64 bytes"@))
    } else {
        value_check("tool input"@, input, MAX_MODEL_TOOL_INPUT_BYTES as nat, ValueOwner::Model)
    }
}

/// Checks one Tool call of a Model.
pub fn validate_model_tool_call(call_id: &str, name: &str, input: &JsonDocument) -> (result: Result<(), HarnessError>)
    ensures
        settles(result, tool_call_check(call_id@, name@, input@)),
{
    if !label_text(call_id, MAX_MODEL_CALL_ID_BYTES) {
        return Err(model_error("tool call id must be 1-256 non-control bytes"));
    }
    if name.is_empty() || byte_len(name) > 64 {
        return Err(model_error("tool name must be 1-64 bytes"));
    }
    validate_runtime_json("tool input", input, MAX_MODEL_TOOL_INPUT_BYTES, ValueOwner::Model)
}

/// Encoding of one Tool call.
pub open spec fn call_encoding(call: ModelToolCall) -> Seq<char> {
    "{\"call_id\":"@ + json_string(call.call_id@) + ",\"name\":"@ + json_string(call.name@) + ",\"input\":"@ + call.input@
        + "}"@
}

/// Encodings of Tool calls, separated by commas.
pub open spec fn calls_encoding(calls: Seq<ModelToolCall>) -> Seq<char>
    decreases calls.len(),
{
    if calls.len() == 0 {
        Seq::empty()
    } else if calls.len() == 1 {
        call_encoding(calls[0])
    } else {
        calls_encoding(calls.drop_last()) + ","@ + call_encoding(calls.last())
    }
}

/// Encoding of a batch of Tool calls.
pub open spec fn batch_encoding(calls: Seq<ModelToolCall>) -> Seq<char> {
    "["@ + calls_encoding(calls) + "]"@
}

fn append_call(text: &mut String, call: &ModelToolCall)
    ensures
        final(text)@ == old(text)@ + call_encoding(*call),
{
    let call_id = json_string_text(call.call_id.as_str());
    let name = json_string_text(call.name.as_str());
    let ghost before = text@;
    text.append("{\"call_id\":");
    text.append(call_id.as_str());
    text.append(",\"name\":");
    text.append(name.as_str());
    text.append(",\"input\":");
    text.append(call.input.as_str());
    text.append("}");
    assert(text@ =~= before + call_encoding(*call));
}

/// Writes the encoding of a batch of Tool calls.
pub fn encode_calls(calls: &[ModelToolCall]) -> (text: String)
    ensures
        text@ == batch_encoding(calls@),
{
    let mut text = String::from_str("[");
    let mut i: usize = 0;
    assert(text@ =~= "["@ + calls_encoding(calls@.take(0)));
    while i < calls.len()
        invariant
            i <= calls@.len(),
            text@ == "["@ + calls_encoding(calls@.take(i as int)),
        decreases calls@.len() - i,
    {
        proof {
            assert(calls@.take(i + 1).drop_last() =~= calls@.take(i as int));
            assert(calls@.take(i + 1).last() == calls@[i as int]);
        }
        if i > 0 {
            text.append(",");
        }
        append_call(&mut text, &calls[i]);
        assert(text@ =~= "["@ + calls_encoding(calls@.take(i + 1)));
        i += 1;
    }
    assert(calls@.take(i as int) =~= calls@);
    text.append("]");
    text
}

/// First fault among the calls of a batch: each call is checked before its
/// correlation identity is compared with the earlier ones.
pub open spec fn calls_check(calls: Seq<ModelToolCall>, n: int) -> Result<(), ErrorView>
    decreases n,
{
    if n <= 0 {
        Ok(())
    } else {
        let call = calls[n - 1];
        match calls_check(calls, n - 1) {
            Err(fault) => Err(fault),
            Ok(()) => if tool_call_check(call.call_id@, call.name@, call.input@) is Err {
                tool_call_check(call.call_id@, call.name@, call.input@)
            } else if exists|k: int| 0 <= k < n - 1 && #[trigger] calls[k].call_id@ == call.call_id@ {
                Err(ErrorView::Model("tool-call batch reused correlation id "@ + quoted(call.call_id@)))
            } else {
                Ok(())
            },
        }
    }
}

/// Outcome of checking a batch of Tool calls.
pub open spec fn batch_check(calls: Seq<ModelToolCall>) -> Result<(), ErrorView> {
    if !(2 <= calls.len() <= MAX_TOOL_CALLS_PER_BATCH) {
        Err(ErrorView::Model("tool-call batch must contain 2-128 calls"@))
    } else if calls_check(calls, calls.len() as int) is Err {
        calls_check(calls, calls.len() as int)
    } else if utf8_len(batch_encoding(calls)) > MAX_MODEL_TOOL_BATCH_BYTES {
        Err(ErrorView::Model("tool-call batch exceeds 4194304 bytes"@))
    } else {
        Ok(())
    }
}

proof fn lemma_calls_prefix(calls: Seq<ModelToolCall>, n: int, m: int)
    requires
        0 <= n <= m,
        calls_check(calls, n) is Err,
    ensures
        calls_check(calls, m) == calls_check(calls, n),
    decreases m - n,
{
    if n < m {
        lemma_calls_prefix(calls, n, m - 1);
    }
}

/// Checks a batch of Tool calls of one Model response.
pub fn validate_model_tool_calls(calls: &[ModelToolCall]) -> (result: Result<(), HarnessError>)
    ensures
        settles(result, batch_check(calls@)),
{
    if !(2 <= calls.len() && calls.len() <= MAX_TOOL_CALLS_PER_BATCH) {
        return Err(model_error("tool-call batch must contain 2-128 calls"));
    }
    let mut n: usize = 0;
    while n < calls.len()
        invariant
            n <= calls@.len(),
            2 <= calls@.len() <= MAX_TOOL_CALLS_PER_BATCH,
            calls_check(calls@, n as int) is Ok,
        decreases calls@.len() - n,
    {
        let call = &calls[n];
        if let Err(error) = validate_model_tool_call(call.call_id.as_str(), call.name.as_str(), &call.input) {
            proof {
                lemma_calls_prefix(calls@, n + 1, calls@.len() as int);
            }
            return Err(error);
        }
        let mut k: usize = 0;
        while k < n
            invariant
                k <= n < calls@.len(),
                2 <= calls@.len() <= MAX_TOOL_CALLS_PER_BATCH,
                *call == calls@[n as int],
                calls_check(calls@, n as int) is Ok,
                tool_call_check(call.call_id@, call.name@, call.input@) is Ok,
                forall|j: int| 0 <= j < k ==> #[trigger] calls@[j].call_id@ != call.call_id@,
            decreases n - k,
        {
            if same_text(calls[k].call_id.as_str(), call.call_id.as_str()) {
                proof {
                    assert(calls@[k as int].call_id@ == calls@[n + 1 - 1].call_id@);
                    lemma_calls_prefix(calls@, n + 1, calls@.len() as int);
                }
                return Err(
                    HarnessError::Model(
                        join2("tool-call batch reused correlation id ", quoted_text(call.call_id.as_str()).as_str()),
                    ),
                );
            }
            k += 1;
        }
        n += 1;
    }
    let encoding = encode_calls(calls);
    if byte_len(encoding.as_str()) > MAX_MODEL_TOOL_BATCH_BYTES {
        return Err(model_error("tool-call batch exceeds 4194304 bytes"));
    }
    Ok(())
}

/// Outcome of checking the decision of a Model.
pub open spec fn output_check(output: ModelOutput) -> Result<(), ErrorView> {
    match output {
        ModelOutput::Message { content } => message_check(content@),
        ModelOutput::ToolCall { call_id, name, input } => tool_call_check(call_id@, name@, input@),
        ModelOutput::ToolCalls { calls } => batch_check(calls@),
    }
}

/// Checks the decision of a Model.
pub fn validate_model_output(output: &ModelOutput) -> (result: Result<(), HarnessError>)
    ensures
        settles(result, output_check(*output)),
{
    match output {
        ModelOutput::Message { content } => validate_model_message(content.as_str()),
        ModelOutput::ToolCall { call_id, name, input } => validate_model_tool_call(call_id.as_str(), name.as_str(), input),
        ModelOutput::ToolCalls { calls } => validate_model_tool_calls(calls.as_slice()),
    }
}

/// Whether optional Provider evidence is bounded.
pub open spec fn evidence_is_bounded(evidence: Option<String>) -> bool {
    evidence matches Some(id) ==> is_label(id@, MAX_PROVIDER_EVIDENCE_ID_BYTES as nat)
}

/// Outcome of checking a settled response of a Model.
pub open spec fn response_check(response: ModelResponse) -> Result<(), ErrorView> {
    if !evidence_is_bounded(response.provider_model) {
        Err(ErrorView::Model("provider model must be 1-256 non-control bytes"@))
    } else if !evidence_is_bounded(response.provider_request_id) {
        Err(ErrorView::Model("provider request id must be 1-256 non-control bytes"@))
    } else if response.continuation is Some && !response.continuation->0.is_bounded() {
        Err(invalid_continuation())
    } else {
        output_check(response.output)
    }
}

fn bounded_evidence(evidence: &Option<String>) -> (result: bool)
    ensures
        result == evidence_is_bounded(*evidence),
{
    match evidence {
        Some(id) => label_text(id.as_str(), MAX_PROVIDER_EVIDENCE_ID_BYTES),
        None => true,
    }
}

/// Checks a settled response of a Model.
pub fn validate_model_response(response: &ModelResponse) -> (result: Result<(), HarnessError>)
    ensures
        settles(result, response_check(*response)),
{
    if !bounded_evidence(&response.provider_model) {
        return Err(model_error("provider model must be 1-256 non-control bytes"));
    }
    if !bounded_evidence(&response.provider_request_id) {
        return Err(model_error("provider request id must be 1-256 non-control bytes"));
    }
    if let Some(continuation) = &response.continuation {
        if let Err(error) = continuation.validate() {
            return Err(error);
        }
    }
    validate_model_output(&response.output)
}

/// Outcome of checking one item of a Model request.
pub open spec fn request_item_check(item: Item) -> Result<(), ErrorView> {
    match item.kind {
        ItemKind::ProviderContinuation { model_id, model_origin, continuation } => if !model_id_is_valid(model_id@) {
            Err(ErrorView::Model(invalid_model_id().text()))
        } else if !origin_is_valid(model_origin@) {
            Err(ErrorView::Model(invalid_origin().text()))
        } else if !continuation.is_bounded() {
            Err(invalid_continuation())
        } else {
            Ok(())
        },
        ItemKind::ToolCall { input, .. } => shape_check("model request Item"@, input@, ValueOwner::Model),
        ItemKind::ToolResult { output, .. } => shape_check("model request Item"@, output@, ValueOwner::Model),
        _ => Ok(()),
    }
}

fn validate_request_item(item: &Item) -> (result: Result<(), HarnessError>)
    ensures
        settles(result, request_item_check(*item)),
{
    match &item.kind {
        ItemKind::ProviderContinuation { model_id, model_origin, continuation } => {
            if let Err(error) = validate_model_id(model_id.as_str()) {
                return Err(HarnessError::Model(error.to_string()));
            }
            if let Err(error) = validate_capability_origin(model_origin) {
                return Err(HarnessError::Model(error.to_string()));
            }
            continuation.validate()
        },
        ItemKind::ToolCall { input, .. } => validate_runtime_json_shape("model request Item", input, ValueOwner::Model),
        ItemKind::ToolResult { output, .. } => validate_runtime_json_shape("model request Item", output, ValueOwner::Model),
        _ => Ok(()),
    }
}

/// First fault among the items of a Model request.
pub open spec fn request_items_check(items: Seq<Item>) -> Result<(), ErrorView>
    decreases items.len(),
{
    if items.len() == 0 {
        Ok(())
    } else {
        match request_items_check(items.drop_last()) {
            Err(fault) => Err(fault),
            Ok(()) => request_item_check(items.last()),
        }
    }
}

/// First fault among the Tool schemas of a Model request.
pub open spec fn request_tools_check(tools: Seq<ToolDescriptor>) -> Result<(), ErrorView>
    decreases tools.len(),
{
    if tools.len() == 0 {
        Ok(())
    } else {
        match request_tools_check(tools.drop_last()) {
            Err(fault) => Err(fault),
            Ok(()) => shape_check("model request Tool schema"@, tools.last().input_schema@, ValueOwner::Model),
        }
    }
}

/// Outcome of checking the values inside a Model request.
pub open spec fn request_shapes_check(request: ModelRequest) -> Result<(), ErrorView> {
    if request_items_check(request.items@) is Err {
        request_items_check(request.items@)
    } else {
        request_tools_check(request.tools@)
    }
}

proof fn lemma_items_prefix(items: Seq<Item>, n: int)
    requires
        0 <= n <= items.len(),
        request_items_check(items.take(n)) is Err,
    ensures
        request_items_check(items) == request_items_check(items.take(n)),
    decreases items.len() - n,
{
    if n == items.len() {
        assert(items.take(n) =~= items);
    } else {
        assert(items.take(n + 1).drop_last() =~= items.take(n));
        lemma_items_prefix(items, n + 1);
    }
}

proof fn lemma_tools_prefix(tools: Seq<ToolDescriptor>, n: int)
    requires
        0 <= n <= tools.len(),
        request_tools_check(tools.take(n)) is Err,
    ensures
        request_tools_check(tools) == request_tools_check(tools.take(n)),
    decreases tools.len() - n,
{
    if n == tools.len() {
        assert(tools.take(n) =~= tools);
    } else {
        assert(tools.take(n + 1).drop_last() =~= tools.take(n));
        lemma_tools_prefix(tools, n + 1);
    }
}

/// Checks the values inside a Model request.
pub fn validate_model_request_json_shapes(request: &ModelRequest) -> (result: Result<(), HarnessError>)
    ensures
        settles(result, request_shapes_check(*request)),
{
    let items = &request.items;
    let mut i: usize = 0;
    while i < items.len()
        invariant
            i <= items@.len(),
            *items == request.items,
            request_items_check(items@.take(i as int)) is Ok,
        decreases items@.len() - i,
    {
        proof {
            assert(items@.take(i + 1).drop_last() =~= items@.take(i as int));
        }
        if let Err(error) = validate_request_item(&items[i]) {
            proof {
                lemma_items_prefix(items@, i + 1);
            }
            return Err(error);
        }
        i += 1;
    }
    assert(items@.take(i as int) =~= items@);
    let tools = &request.tools;
    let mut k: usize = 0;
    while k < tools.len()
        invariant
            k <= tools@.len(),
            *tools == request.tools,
            request_items_check(request.items@) is Ok,
            request_tools_check(tools@.take(k as int)) is Ok,
        decreases tools@.len() - k,
    {
        proof {
            assert(tools@.take(k + 1).drop_last() =~= tools@.take(k as int));
        }
        if let Err(error) = validate_runtime_json_shape(
            "model request Tool schema",
            &tools[k].input_schema,
            ValueOwner::Model,
        ) {
            proof {
                lemma_tools_prefix(tools@, k + 1);
            }
            return Err(error);
        }
        k += 1;
    }
    assert(tools@.take(k as int) =~= tools@);
    Ok(())
}

/// Outcome of measuring the encoding of a Model request; nothing stands for a
/// request without encoding.
pub open spec fn request_size_check(encoding: Option<Seq<char>>) -> Result<(), ErrorView> {
    match encoding {
        None => Err(ErrorView::Model("cannot encode model request"@)),
        Some(encoding) => if utf8_len(encoding) > MAX_MODEL_REQUEST_BYTES {
            Err(ErrorView::Model("model request exceeds 16777216 bytes"@))
        } else {
            Ok(())
        },
    }
}

/// Content of an optional encoding.
pub open spec fn encoding_view(encoding: Option<&str>) -> Option<Seq<char>> {
    match encoding {
        Some(encoding) => Some(encoding@),
        None => None,
    }
}

/// Outcome of checking a Model request with its encoding.
pub open spec fn request_check(request: ModelRequest, encoding: Option<Seq<char>>) -> Result<(), ErrorView> {
    if request.authority@.check("Model request authority"@) is Err {
        request.authority@.check("Model request authority"@)
    } else if request_shapes_check(request) is Err {
        request_shapes_check(request)
    } else {
        request_size_check(encoding)
    }
}

/// Checks a Model request with its encoding.
pub fn validate_model_request(request: &ModelRequest, encoding: Option<&str>) -> (result: Result<(), HarnessError>)
    ensures
        settles(result, request_check(*request, encoding_view(encoding))),
{
    if let Err(error) = request.authority.validate_current("Model request authority") {
        return Err(error);
    }
    if let Err(error) = validate_model_request_json_shapes(request) {
        return Err(error);
    }
    match encoding {
        None => Err(model_error("cannot encode model request")),
        Some(encoding) => if byte_len(encoding) > MAX_MODEL_REQUEST_BYTES {
            Err(model_error("model request exceeds 16777216 bytes"))
        } else {
            Ok(())
        },
    }
}

/// Digests the encoding of a Model request after checking its values.
pub fn model_request_sha256(request: &ModelRequest, encoding: Option<&str>) -> (result: Result<String, HarnessError>)
    ensures
        match result {
            Ok(digest) => request_shapes_check(*request) is Ok && request_size_check(encoding_view(encoding)) is Ok
                && digest@ == sha256_hex(encode_utf8(encoding_view(encoding)->0)),
            Err(error) => if request_shapes_check(*request) is Err {
                request_shapes_check(*request) == Err::<(), ErrorView>(error@)
            } else {
                request_size_check(encoding_view(encoding)) == Err::<(), ErrorView>(error@)
            },
        },
{
    if let Err(error) = validate_model_request_json_shapes(request) {
        return Err(error);
    }
    match encoding {
        None => Err(model_error("cannot encode model request")),
        Some(encoding) => match bounded_serialized_sha256(encoding, MAX_MODEL_REQUEST_BYTES) {
            Ok(digest) => Ok(digest),
            Err(_) => Err(model_error("model request exceeds 16777216 bytes")),
        },
    }
}

/// Pressure on the journal of a Thread.
#[derive(Clone, Copy, Debug, PartialEq, Eq, Structural)]
pub struct StateCapacity {
    /// Events that are used.
    pub used_events: u64,
    /// Events that may be used.
    pub event_limit: u64,
    /// Events that remain.
    pub remaining_events: u64,
    /// Events that remain for general purposes.
    pub general_events_remaining: u64,
    /// Events that are kept for settlement.
    pub terminal_event_reserve: u64,
    /// Recovery bytes that are used.
    pub used_recovery_bytes: u64,
    /// Recovery bytes that may be used.
    pub recovery_byte_limit: u64,
    /// Recovery bytes that remain.
    pub remaining_recovery_bytes: u64,
    /// Recovery bytes that remain for general purposes.
    pub general_recovery_bytes_remaining: u64,
    /// Recovery bytes that are kept for settlement.
    pub terminal_recovery_byte_reserve: u64,
    /// Severity of the pressure.
    pub level: StateCapacityLevel,
}

/// Severity of the pressure on a journal.
#[derive(Clone, Copy, Debug, PartialEq, Eq, Structural)]
pub enum StateCapacityLevel {
    /// Plenty of room.
    Healthy,
    /// Little room.
    Warning,
    /// Hardly any room.
    Critical,
}

/// Outcome of checking whether a journal has room for a Turn.
pub open spec fn capacity_check(capacity: StateCapacity) -> Result<(), ErrorView> {
    if capacity.general_events_remaining < MIN_RUNTIME_GENERAL_EVENTS {
        Err(
            ErrorView::State(
                "Thread needs at least 4 general-purpose events for Runtime execution; "@ + decimal(
                    capacity.general_events_remaining as nat,
                ) + " remain"@,
            ),
        )
    } else {
        Ok(())
    }
}

/// Checks that a journal has room for a Turn.
pub fn require_runtime_capacity(capacity: &StateCapacity) -> (result: Result<(), HarnessError>)
    ensures
        settles(result, capacity_check(*capacity)),
{
    if capacity.general_events_remaining < MIN_RUNTIME_GENERAL_EVENTS {
        return Err(
            HarnessError::State(
                join3(
                    "Thread needs at least 4 general-purpose events for Runtime execution; ",
                    decimal_text(capacity.general_events_remaining).as_str(),
                    " remain",
                ),
            ),
        );
    }
    Ok(())
}

/// Diagnostic as it is recorded: its first characters, marked where some were
/// left out.
pub open spec fn bounded_diagnostic(message: Seq<char>) -> Seq<char> {
    if message.len() <= MAX_RUNTIME_ERROR_CHARS {
        message
    } else {
        message.take(MAX_RUNTIME_ERROR_CHARS as int) + "\u{2026}"@
    }
}

/// Bounds a diagnostic.
pub fn bounded_runtime_error(message: &str) -> (text: String)
    ensures
        text@ == bounded_diagnostic(message@),
{
    if message.unicode_len() <= MAX_RUNTIME_ERROR_CHARS {
        message.to_owned()
    } else {
        join2(message.substring_char(0, MAX_RUNTIME_ERROR_CHARS), "\u{2026}")
    }
}

/// Record of a conversation summary, where a block holds one.
pub open spec fn summary_record(block: ContextBlock, record: ItemKind) -> bool {
    block.source matches ContextSource::ConversationSummary {
        compactor,
        covered_turns,
        older_omitted_turns,
        source_sha256,
        content_sha256,
    } && record matches ItemKind::ConversationSummary {
        compactor: by,
        covered_turns: covered,
        older_omitted_turns: omitted,
        source_sha256: source,
        content_sha256: content,
        estimated_tokens,
        serialized_bytes,
    } && by == compactor && covered@ == covered_turns@ && omitted == older_omitted_turns && source == source_sha256
        && content == content_sha256 && estimated_tokens == block.estimated_tokens && serialized_bytes == utf8_len(
        block.text@,
    )
}

/// Copies a list of Turn identities.
pub(crate) fn copy_turn_ids(ids: &Vec<TurnId>) -> (copy: Vec<TurnId>)
    ensures
        copy@ == ids@,
{
    let mut copy: Vec<TurnId> = Vec::new();
    let mut i: usize = 0;
    while i < ids.len()
        invariant
            i <= ids@.len(),
            copy@ == ids@.take(i as int),
        decreases ids@.len() - i,
    {
        copy.push(ids[i].clone());
        assert(ids@.take(i + 1) =~= ids@.take(i as int).push(ids@[i as int]));
        i += 1;
    }
    assert(ids@.take(i as int) =~= ids@);
    copy
}

/// Makes the record of a conversation summary.
pub fn conversation_summary_record(block: &ContextBlock) -> (result: Result<ItemKind, HarnessError>)
    ensures
        match result {
            Ok(record) => summary_record(*block, record),
            Err(error) => !(block.source is ConversationSummary) && error@ == ErrorView::InvalidConfiguration(
                "Context Engine returned an invalid conversation summary source"@,
            ),
        },
{
    match &block.source {
        ContextSource::ConversationSummary {
            compactor,
            covered_turns,
            older_omitted_turns,
            source_sha256,
            content_sha256,
        } => Ok(
            ItemKind::ConversationSummary {
                compactor: compactor.clone(),
                covered_turns: copy_turn_ids(covered_turns),
                older_omitted_turns: *older_omitted_turns,
                source_sha256: source_sha256.clone(),
                content_sha256: content_sha256.clone(),
                estimated_tokens: block.estimated_tokens,
                serialized_bytes: byte_len(block.text.as_str()),
            },
        ),
        _ => Err(
            HarnessError::InvalidConfiguration(
                "Context Engine returned an invalid conversation summary source".to_owned(),
            ),
        ),
    }
}

/// Evidence of a block that the caller supplied.
pub open spec fn invocation_evidence(block: ContextBlock) -> Option<InvocationContextEvidence> {
    match block.source {
        ContextSource::Invocation { source, reference, source_sha256, content_sha256 } => Some(
            InvocationContextEvidence {
                source,
                reference,
                source_sha256,
                content_sha256,
                estimated_tokens: block.estimated_tokens,
                serialized_bytes: utf8_len(block.text@) as usize,
            },
        ),
        _ => None,
    }
}

/// Evidence of every block that the caller supplied, in order.
pub open spec fn invocation_evidences(blocks: Seq<ContextBlock>) -> Seq<InvocationContextEvidence>
    decreases blocks.len(),
{
    if blocks.len() == 0 {
        Seq::empty()
    } else {
        let earlier = invocation_evidences(blocks.drop_last());
        match invocation_evidence(blocks.last()) {
            Some(evidence) => earlier.push(evidence),
            None => earlier,
        }
    }
}

/// Makes the record of the context that the caller supplied, where there is
/// any.
pub fn invocation_context_record(blocks: &Vec<ContextBlock>, submitted_by: ActorIdentity) -> (record: Option<ItemKind>)
    ensures
        match record {
            Some(record) => record matches ItemKind::InvocationContext { submitted_by: by, blocks: evidence } && by
                == submitted_by && evidence@ == invocation_evidences(blocks@) && evidence@.len() > 0,
            None => invocation_evidences(blocks@).len() == 0,
        },
{
    let mut evidence: Vec<InvocationContextEvidence> = Vec::new();
    let mut i: usize = 0;
    assert(evidence@ =~= invocation_evidences(blocks@.take(0)));
    while i < blocks.len()
        invariant
            i <= blocks@.len(),
            evidence@ == invocation_evidences(blocks@.take(i as int)),
        decreases blocks@.len() - i,
    {
        proof {
            assert(blocks@.take(i + 1).drop_last() =~= blocks@.take(i as int));
        }
        let block = &blocks[i];
        if let ContextSource::Invocation { source, reference, source_sha256, content_sha256 } = &block.source {
            evidence.push(
                InvocationContextEvidence {
                    source: source.clone(),
                    reference: reference.clone(),
                    source_sha256: source_sha256.clone(),
                    content_sha256: content_sha256.clone(),
                    estimated_tokens: block.estimated_tokens,
                    serialized_bytes: byte_len(block.text.as_str()),
                },
            );
        }
        i += 1;
    }
    assert(blocks@.take(i as int) =~= blocks@);
    if evidence.len() == 0 {
        None
    } else {
        Some(ItemKind::InvocationContext { submitted_by, blocks: evidence })
    }
}

/// Recorded form of the availability of memory.
pub fn memory_record_status(status: MemoryContextStatus) -> (record: MemoryContextRecordStatus)
    ensures
        record is Loaded <==> status is Loaded,
{
    match status {
        MemoryContextStatus::Loaded => MemoryContextRecordStatus::Loaded,
        MemoryContextStatus::Degraded => MemoryContextRecordStatus::Degraded,
    }
}

/// How a phase ended, for observers.
#[derive(Clone, Copy, Debug, PartialEq, Eq, Structural)]
pub enum ObservationOutcome {
    /// It succeeded.
    Success,
    /// It failed.
    Error,
    /// It was cancelled.
    Cancelled,
    /// Its deadline passed.
    TimedOut,
    /// It was not needed.
    Skipped,
}

/// How a phase with this result ended.
pub open spec fn outcome_of<T>(result: Result<T, HarnessError>) -> ObservationOutcome {
    match result {
        Ok(_) => ObservationOutcome::Success,
        Err(error) => match error@ {
            ErrorView::Cancelled(_) => ObservationOutcome::Cancelled,
            ErrorView::TimedOut(_) => ObservationOutcome::TimedOut,
            _ => ObservationOutcome::Error,
        },
    }
}

/// Reports how a phase with this result ended.
pub fn observation_outcome<T>(result: &Result<T, HarnessError>) -> (outcome: ObservationOutcome)
    ensures
        outcome == outcome_of(*result),
{
    match result {
        Ok(_) => ObservationOutcome::Success,
        Err(HarnessError::Cancelled { .. }) => ObservationOutcome::Cancelled,
        Err(HarnessError::TimedOut { .. }) => ObservationOutcome::TimedOut,
        Err(_) => ObservationOutcome::Error,
    }
}

/// Failure of a Model attempt as it is reported: typed Provider metadata only
/// where it is bounded.
pub open spec fn attempt_error(error: ErrorView) -> ErrorView {
    match error {
        ErrorView::ModelProvider(failure) => if failure.is_bounded() {
            error
        } else {
            ErrorView::InvalidCapability("Model returned invalid typed Provider failure metadata"@)
        },
        _ => error,
    }
}

/// Checks the metadata of a failed Model attempt.
pub fn validate_model_attempt_error(error: HarnessError) -> (reported: HarnessError)
    ensures
        reported@ == attempt_error(error@),
{
    match error {
        HarnessError::ModelProvider(failure) => match failure.validate() {
            Ok(()) => HarnessError::ModelProvider(failure),
            Err(_) => HarnessError::InvalidCapability(
                "Model returned invalid typed Provider failure metadata".to_owned(),
            ),
        },
        error => error,
    }
}

/// No recorded diagnostic is longer than the bound and its mark.
pub proof fn law_diagnostics_are_bounded(message: Seq<char>)
    ensures
        bounded_diagnostic(message).len() <= MAX_RUNTIME_ERROR_CHARS + 1,
        message.len() <= MAX_RUNTIME_ERROR_CHARS ==> bounded_diagnostic(message) == message,
{
    reveal_strlit("\u{2026}");
}

/// A long diagnostic keeps its first 4096 characters, and an ellipsis tells
/// that there were more.
pub proof fn law_long_diagnostics_are_cut(message: Seq<char>)
    ensures
        message.len() > 4096 ==> {
            let kept = bounded_diagnostic(message);
            &&& kept.len() == 4097
            &&& kept.last() == '\u{2026}'
            &&& forall|k: int| 0 <= k < 4096 ==> #[trigger] kept[k] == message[k]
        },
        message.len() <= 4096 ==> bounded_diagnostic(message) == message,
{
    reveal_strlit("\u{2026}");
}

/// Evidence is kept of every block of context that was supplied with the
/// request, in order, and of no other block.
pub proof fn law_supplied_blocks_are_evidenced(earlier: Seq<ContextBlock>, block: ContextBlock)
    ensures
        invocation_evidences(Seq::empty()) == Seq::<InvocationContextEvidence>::empty(),
        match block.source {
            ContextSource::Invocation { source, reference, source_sha256, content_sha256 } => {
                let kept = invocation_evidences(earlier.push(block));
                &&& kept.drop_last() == invocation_evidences(earlier)
                &&& kept.len() == invocation_evidences(earlier).len() + 1
                &&& kept.last().source == source
                &&& kept.last().reference == reference
                &&& kept.last().source_sha256 == source_sha256
                &&& kept.last().content_sha256 == content_sha256
                &&& kept.last().estimated_tokens == block.estimated_tokens
                &&& encode_utf8(block.text@).len() <= usize::MAX ==> kept.last().serialized_bytes == encode_utf8(
                    block.text@,
                ).len()
            },
            _ => invocation_evidences(earlier.push(block)) == invocation_evidences(earlier),
        },
{
    assert(earlier.push(block).drop_last() =~= earlier);
    let kept = invocation_evidences(earlier.push(block));
    if block.source is Invocation {
        assert(kept.drop_last() =~= invocation_evidences(earlier));
    }
}

/// A summary is recorded with what it covers and where it comes from, and with
/// the tokens and bytes of its text.
pub proof fn law_summaries_are_recorded(block: ContextBlock, record: ItemKind)
    requires
        summary_record(block, record),
    ensures
        block.source is ConversationSummary,
        record is ConversationSummary,
        record->ConversationSummary_compactor == block.source->ConversationSummary_compactor,
        record->ConversationSummary_covered_turns@ == block.source->ConversationSummary_covered_turns@,
        record->ConversationSummary_older_omitted_turns == block.source->ConversationSummary_older_omitted_turns,
        record->ConversationSummary_source_sha256 == block.source->ConversationSummary_source_sha256,
        record->ConversationSummary_content_sha256 == block.source->ConversationSummary_content_sha256,
        record->ConversationSummary_estimated_tokens == block.estimated_tokens,
        record->ConversationSummary_serialized_bytes == encode_utf8(block.text@).len(),
{
}

} // verus!
