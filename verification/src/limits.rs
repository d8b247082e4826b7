//! What the library accepts, in numbers and characters.
//!
//! The checks of the other modules are built from shared predicates and named
//! limits. The laws here say of each check what it accepts without either, so
//! that a reader has the whole condition in one place.

use vstd::prelude::*;
use vstd::utf8::encode_utf8;

use crate::capability::{
    model_registration, tool_registration, ModelOutput, ModelRequest, ModelResponse, RegisteredModel, RegisteredTool,
    ToolDescriptor,
};
use crate::error::{ErrorView, HarnessError, ProviderFailureView};
use crate::items::{
    documents_len, ApprovalDecision, BindingView, Item, ItemKind, ModelContinuation, ModelToolCall, PolicyDecision,
};
use crate::json::{json_depth, json_nodes, shape_is_bounded, JsonDocument};
use crate::kernel::{
    actor_is_valid, capability_name_is_valid, model_id_is_valid, origin_is_valid, tenant_is_valid, ActorView,
    AuthorityView, CapabilityOrigin, OriginView,
};
use crate::digest::is_sha256_text;
use crate::runtime::control::{binding_for, memory_tenant};
use crate::runtime::harness::{clamped_steps, LimitsView};
use crate::runtime::steering::{admission, prompt_is_valid, steering_bytes, submission, ActiveTurnControl, PendingSteering};
use crate::runtime::validate::{
    approval_decision_check, attempt_error, batch_check, batch_encoding, calls_check, capacity_check, message_check,
    outcome_of, output_check, policy_decision_check, prompt_check, request_check, request_items_check, request_tools_check,
    response_check, tool_call_check, tool_output_check, ObservationOutcome, StateCapacity,
};
use crate::text::{has_control, is_blank, is_label, is_plain_token, is_portable_identity, is_portable_name};

verus! {

/// Letters and digits of ASCII.
pub open spec fn is_letter_or_digit(c: char) -> bool {
    '0' <= c <= '9' || 'A' <= c <= 'Z' || 'a' <= c <= 'z'
}

/// Whether a text of at most `most` bytes begins with a letter or digit, and
/// goes on with letters, digits, dots, underscores and hyphens.
pub open spec fn reads_as_name(text: Seq<char>, most: int) -> bool {
    &&& 1 <= text.len()
    &&& encode_utf8(text).len() <= most
    &&& is_letter_or_digit(text[0])
    &&& forall|i: int|
        0 <= i < text.len() ==> is_letter_or_digit(#[trigger] text[i]) || text[i] == '.' || text[i] == '_' || text[i] == '-'
}

/// Whether a text of at most `most` bytes consists of letters, digits, dots,
/// underscores, hyphens, slashes and colons.
pub open spec fn reads_as_identity(text: Seq<char>, most: int) -> bool {
    &&& 1 <= text.len()
    &&& encode_utf8(text).len() <= most
    &&& forall|i: int|
        0 <= i < text.len() ==> is_letter_or_digit(#[trigger] text[i]) || text[i] == '.' || text[i] == '_' || text[i] == '-'
            || text[i] == '/' || text[i] == ':'
}

/// Characters that Unicode counts as white space.
pub open spec fn is_space(c: char) -> bool {
    c == ' ' || '\t' <= c <= '\r' || c == '\u{85}' || c == '\u{a0}' || c == '\u{1680}' || '\u{2000}' <= c <= '\u{200a}' || c
        == '\u{2028}' || c == '\u{2029}' || c == '\u{202f}' || c == '\u{205f}' || c == '\u{3000}'
}

/// Whether a text says anything: one of its characters is no white space.
pub open spec fn says_something(text: Seq<char>) -> bool {
    exists|i: int| 0 <= i < text.len() && !is_space(#[trigger] text[i])
}

/// Whether a text of at most `most` bytes says something without control
/// characters.
pub open spec fn reads_as_label(text: Seq<char>, most: int) -> bool {
    &&& says_something(text)
    &&& encode_utf8(text).len() <= most
    &&& forall|i: int| 0 <= i < text.len() ==> '\u{20}' <= #[trigger] text[i] && !('\u{7f}' <= text[i] <= '\u{9f}')
}

/// Whether a text is a digest: 64 lower-case hexadecimal digits.
pub open spec fn reads_as_digest(text: Seq<char>) -> bool {
    text.len() == 64 && forall|i: int| 0 <= i < 64 ==> ('0' <= #[trigger] text[i] <= '9' || 'a' <= text[i] <= 'f')
}

/// Whether a JSON document is neither nested too deeply nor made of too many
/// values.
pub open spec fn shape_is_modest(text: Seq<char>) -> bool {
    json_depth(text) <= 64 && json_nodes(text) <= 65_536
}

/// Blank texts consist of white space.
pub proof fn law_blank_texts_say_nothing(text: Seq<char>)
    ensures
        is_blank(text) <==> !says_something(text),
{
    if is_blank(text) {
        assert forall|i: int| 0 <= i < text.len() implies is_space(#[trigger] text[i]) by {}
    }
    if !says_something(text) {
        assert forall|i: int| 0 <= i < text.len() implies crate::text::is_whitespace(#[trigger] text[i]) by {
            assert(is_space(text[i]));
        }
    }
}

/// Labels say something, fit their limit and hold no control character.
pub proof fn law_labels_are_readable(text: Seq<char>, most: nat)
    ensures
        is_label(text, most) <==> reads_as_label(text, most as int),
{
    law_blank_texts_say_nothing(text);
    if !has_control(text) {
        assert forall|i: int| 0 <= i < text.len() implies '\u{20}' <= #[trigger] text[i] && !('\u{7f}' <= text[i]
            <= '\u{9f}') by {
            assert(!crate::text::is_control(text[i]));
        }
    }
    if has_control(text) {
        let i = choose|i: int| 0 <= i < text.len() && crate::text::is_control(#[trigger] text[i]);
        assert(!('\u{20}' <= text[i] && !('\u{7f}' <= text[i] <= '\u{9f}')));
    }
}

/// Names, tokens and identities are made of portable characters.
pub proof fn law_names_are_portable(text: Seq<char>, most: nat)
    ensures
        is_portable_name(text, most) <==> reads_as_name(text, most as int),
        is_portable_identity(text, most) <==> reads_as_identity(text, most as int),
        is_plain_token(text, most) <==> 1 <= text.len() && encode_utf8(text).len() <= most && forall|i: int|
            0 <= i < text.len() ==> is_letter_or_digit(#[trigger] text[i]) || text[i] == '.' || text[i] == '_' || text[i]
                == '-',
{
    assert forall|i: int| 0 <= i < text.len() implies crate::text::is_name_char(#[trigger] text[i]) == (is_letter_or_digit(
        text[i],
    ) || text[i] == '.' || text[i] == '_' || text[i] == '-') by {}
    assert forall|i: int| 0 <= i < text.len() implies crate::text::is_identity_char(#[trigger] text[i]) == (
    is_letter_or_digit(text[i]) || text[i] == '.' || text[i] == '_' || text[i] == '-' || text[i] == '/' || text[i] == ':') by {}
}

/// Digests have their form.
pub proof fn law_digests_have_their_form(text: Seq<char>)
    ensures
        is_sha256_text(text) <==> reads_as_digest(text),
{
    assert forall|i: int| 0 <= i < text.len() implies crate::digest::is_hex_digit(#[trigger] text[i]) == ('0' <= text[i]
        <= '9' || 'a' <= text[i] <= 'f') by {}
}

/// JSON documents may have 64 levels and 65536 values.
pub proof fn law_shapes_are_modest(text: Seq<char>)
    ensures
        shape_is_bounded(text) <==> shape_is_modest(text),
{
}

/// Model identities and the identities of extensions take up to 256 bytes,
/// capability names up to 64, tenants up to 128; an authenticated actor has a
/// label of up to 256 bytes for authority and subject each.
pub proof fn law_identities_fit(id: Seq<char>, origin: OriginView, actor: ActorView)
    ensures
        model_id_is_valid(id) <==> reads_as_identity(id, 256),
        capability_name_is_valid(id) <==> reads_as_name(id, 64),
        tenant_is_valid(id) <==> reads_as_name(id, 128),
        origin_is_valid(origin) <==> match origin {
            OriginView::BuiltIn => true,
            OriginView::TrustedExtension(name) => reads_as_identity(name, 256),
            OriginView::External(name) => reads_as_identity(name, 256),
        },
        actor_is_valid(actor) <==> match actor {
            ActorView::LocalProcess => true,
            ActorView::Authenticated { authority, subject } => reads_as_label(authority, 256) && reads_as_label(subject, 256),
        },
{
    law_names_are_portable(id, 256);
    law_names_are_portable(id, 64);
    law_names_are_portable(id, 128);
    match origin {
        OriginView::BuiltIn => {},
        OriginView::TrustedExtension(name) => {
            law_names_are_portable(name, 256);
        },
        OriginView::External(name) => {
            law_names_are_portable(name, 256);
        },
    }
    match actor {
        ActorView::LocalProcess => {},
        ActorView::Authenticated { authority, subject } => {
            law_labels_are_readable(authority, 256);
            law_labels_are_readable(subject, 256);
        },
    }
}

/// An authority is accepted for its actor and its tenant, whatever it is
/// called in the report.
pub proof fn law_authorities_fit(authority: AuthorityView, label: Seq<char>)
    ensures
        authority.check(label) is Ok <==> actor_is_valid(authority.actor) && (authority.tenant_id matches Some(tenant)
            ==> reads_as_name(tenant, 128)),
{
    if let Some(tenant) = authority.tenant_id {
        law_names_are_portable(tenant, 128);
    }
}

/// An execution binding names its definition in labels of up to 128 bytes, by
/// digests, with a revision from 1 on and a portable tenant.
pub proof fn law_bindings_fit(binding: BindingView)
    ensures
        binding.check() is Ok <==> {
            &&& reads_as_label(binding.kind, 128)
            &&& reads_as_label(binding.name, 128)
            &&& reads_as_label(binding.version, 128)
            &&& reads_as_digest(binding.definition_sha256)
            &&& reads_as_digest(binding.environment_sha256)
            &&& 1 <= binding.revision
            &&& binding.tenant_id matches Some(tenant) ==> reads_as_name(tenant, 128)
        },
{
    law_labels_are_readable(binding.kind, 128);
    law_labels_are_readable(binding.name, 128);
    law_labels_are_readable(binding.version, 128);
    law_digests_have_their_form(binding.definition_sha256);
    law_digests_have_their_form(binding.environment_sha256);
    if let Some(tenant) = binding.tenant_id {
        law_names_are_portable(tenant, 128);
    }
}

/// A binding is used exactly where it fits and belongs to the tenant of the
/// Turn, and as it is.
pub proof fn law_bindings_stay_with_their_tenant(authority: AuthorityView, binding: crate::items::ExecutionBinding)
    ensures
        binding_for(authority, None) == Ok::<Option<crate::items::ExecutionBinding>, ErrorView>(None),
        binding_for(authority, Some(binding)) is Ok <==> binding@.check() is Ok && binding@.tenant_id == authority.tenant_id,
        binding_for(authority, Some(binding)) matches Ok(used) ==> used == Some(binding),
{
}

/// A Turn reads the memory of its own tenant. One without a tenant may name
/// any valid tenant where it runs for the local process, and none where its
/// actor is authenticated.
pub proof fn law_memory_follows_the_authority(authority: AuthorityView, requested: Option<Seq<char>>)
    requires
        authority.check("Turn authority"@) is Ok,
    ensures
        memory_tenant(authority, requested) is Ok <==> match requested {
            None => true,
            Some(wanted) => reads_as_name(wanted, 128) && match authority.tenant_id {
                Some(own) => own == wanted,
                None => authority.actor is LocalProcess,
            },
        },
        memory_tenant(authority, requested) matches Ok(tenant) ==> tenant == match authority.tenant_id {
            Some(own) => Some(own),
            None => requested,
        },
{
    if let Some(wanted) = requested {
        law_names_are_portable(wanted, 128);
    }
}

/// Metadata of a Provider failure: a message of up to 4096 bytes, a status from
/// 100 to 599, a delay of up to a day.
pub proof fn law_provider_failures_fit(failure: ProviderFailureView)
    ensures
        failure.is_bounded() <==> {
            &&& reads_as_label(failure.message, 4096)
            &&& failure.http_status matches Some(status) ==> 100 <= status <= 599
            &&& failure.retry_after_ms matches Some(delay) ==> delay <= 86_400_000
        },
        attempt_error(ErrorView::ModelProvider(failure)) == (if failure.is_bounded() {
            ErrorView::ModelProvider(failure)
        } else {
            ErrorView::InvalidCapability("Model returned invalid typed Provider failure metadata"@)
        }),
{
    law_labels_are_readable(failure.message, 4096);
}

/// Faults of an attempt that are not typed Provider failures are reported as
/// they are.
pub proof fn law_other_faults_are_kept(error: ErrorView)
    requires
        !(error is ModelProvider),
    ensures
        attempt_error(error) == error,
{
}

/// A Tool is registered where its origin and name are valid, the registry has
/// room for it among 4096, its description says something in up to 16384 bytes,
/// its schema is modest, and no Tool has its name yet.
pub proof fn law_tools_are_registered(
    tools: Map<Seq<char>, RegisteredTool>,
    origin: CapabilityOrigin,
    descriptor: ToolDescriptor,
)
    ensures
        tool_registration(tools, origin, descriptor) is Ok <==> {
            &&& origin_is_valid(origin@)
            &&& tools.len() < 4096
            &&& reads_as_name(descriptor.name@, 64)
            &&& says_something(descriptor.description@)
            &&& encode_utf8(descriptor.description@).len() <= 16_384
            &&& shape_is_modest(descriptor.input_schema@)
            &&& !tools.contains_key(descriptor.name@)
        },
{
    law_names_are_portable(descriptor.name@, 64);
    law_blank_texts_say_nothing(descriptor.description@);
}

/// A Model is registered where its origin and identity are valid, the registry
/// has room for it among 4096, and no Model has its identity yet.
pub proof fn law_models_are_registered(models: Map<Seq<char>, RegisteredModel>, origin: CapabilityOrigin, id: Seq<char>)
    ensures
        model_registration(models, origin, id) is Ok <==> {
            &&& origin_is_valid(origin@)
            &&& models.len() < 4096
            &&& reads_as_identity(id, 256)
            &&& !models.contains_key(id)
        },
{
    law_names_are_portable(id, 256);
}

/// A prompt says something in up to 1048576 bytes, and so does an answer.
pub proof fn law_prompts_and_answers_fit(text: Seq<char>)
    ensures
        prompt_is_valid(text) <==> says_something(text) && encode_utf8(text).len() <= 1_048_576,
        prompt_check(text) is Ok <==> says_something(text) && encode_utf8(text).len() <= 1_048_576,
        message_check(text) is Ok <==> says_something(text) && encode_utf8(text).len() <= 1_048_576,
{
    law_blank_texts_say_nothing(text);
}

/// A refusal or a question gives its reason in up to 4096 bytes; a permission
/// needs none.
pub proof fn law_decisions_give_reasons(policy: PolicyDecision, approval: ApprovalDecision)
    ensures
        policy_decision_check(policy) is Ok <==> match policy {
            PolicyDecision::Allow => true,
            PolicyDecision::Deny { reason } => reads_as_label(reason@, 4096),
            PolicyDecision::Ask { reason, .. } => reads_as_label(reason@, 4096),
        },
        approval_decision_check(approval) is Ok <==> match approval {
            ApprovalDecision::Approve => true,
            ApprovalDecision::Deny { reason } => reads_as_label(reason@, 4096),
        },
{
    match policy {
        PolicyDecision::Allow => {},
        PolicyDecision::Deny { reason } => {
            law_labels_are_readable(reason@, 4096);
        },
        PolicyDecision::Ask { reason, .. } => {
            law_labels_are_readable(reason@, 4096);
        },
    }
    match approval {
        ApprovalDecision::Approve => {},
        ApprovalDecision::Deny { reason } => {
            law_labels_are_readable(reason@, 4096);
        },
    }
}

/// Whether a Tool call of a Model is acceptable: an identity of up to 256
/// bytes, a name of 1 to 64 bytes, and a modest input of up to 1048576 bytes.
pub open spec fn call_fits(call_id: Seq<char>, name: Seq<char>, input: Seq<char>) -> bool {
    &&& reads_as_label(call_id, 256)
    &&& 1 <= name.len()
    &&& encode_utf8(name).len() <= 64
    &&& shape_is_modest(input)
    &&& encode_utf8(input).len() <= 1_048_576
}

/// Tool calls and Tool outputs are accepted where they fit.
pub proof fn law_calls_and_outputs_fit(call_id: Seq<char>, name: Seq<char>, input: Seq<char>, output: Seq<char>)
    ensures
        tool_call_check(call_id, name, input) is Ok <==> call_fits(call_id, name, input),
        tool_output_check(output) is Ok <==> shape_is_modest(output) && encode_utf8(output).len() <= 1_048_576,
{
    law_labels_are_readable(call_id, 256);
}

proof fn lemma_calls(calls: Seq<ModelToolCall>, n: int)
    requires
        0 <= n <= calls.len(),
    ensures
        calls_check(calls, n) is Ok <==> {
            &&& forall|k: int| 0 <= k < n ==> call_fits((#[trigger] calls[k]).call_id@, calls[k].name@, calls[k].input@)
            &&& forall|i: int, j: int| 0 <= i < j < n ==> (#[trigger] calls[i]).call_id@ != (#[trigger] calls[j]).call_id@
        },
    decreases n,
{
    if n > 0 {
        let call = calls[n - 1];
        lemma_calls(calls, n - 1);
        law_calls_and_outputs_fit(call.call_id@, call.name@, call.input@, call.input@);
        if calls_check(calls, n) is Ok {
            assert forall|i: int, j: int| 0 <= i < j < n implies (#[trigger] calls[i]).call_id@ != (#[trigger] calls[j]).call_id@ by {
                if j == n - 1 {
                    assert(calls[i].call_id@ != call.call_id@);
                }
            }
        }
    }
}

/// A batch holds 2 to 128 acceptable calls with different identities, and its
/// encoding takes up to 4194304 bytes.
pub proof fn law_batches_fit(calls: Seq<ModelToolCall>)
    ensures
        batch_check(calls) is Ok <==> {
            &&& 2 <= calls.len() <= 128
            &&& forall|k: int|
                0 <= k < calls.len() ==> call_fits((#[trigger] calls[k]).call_id@, calls[k].name@, calls[k].input@)
            &&& forall|i: int, j: int|
                0 <= i < j < calls.len() ==> (#[trigger] calls[i]).call_id@ != (#[trigger] calls[j]).call_id@
            &&& encode_utf8(batch_encoding(calls)).len() <= 4_194_304
        },
{
    lemma_calls(calls, calls.len() as int);
}

/// An output of a Model is judged by what it is.
pub proof fn law_outputs_fit(output: ModelOutput)
    ensures
        output_check(output) is Ok <==> match output {
            ModelOutput::Message { content } => says_something(content@) && encode_utf8(content@).len() <= 1_048_576,
            ModelOutput::ToolCall { call_id, name, input } => call_fits(call_id@, name@, input@),
            ModelOutput::ToolCalls { calls } => batch_check(calls@) is Ok,
        },
{
    match output {
        ModelOutput::Message { content } => {
            law_prompts_and_answers_fit(content@);
        },
        ModelOutput::ToolCall { call_id, name, input } => {
            law_calls_and_outputs_fit(call_id@, name@, input@, input@);
        },
        ModelOutput::ToolCalls { .. } => {},
    }
}

/// Provider state has a portable format name of up to 128 bytes and 1 to 64
/// modest parts of up to 1048576 bytes in all.
pub proof fn law_continuations_fit(continuation: ModelContinuation)
    ensures
        continuation.is_bounded() <==> {
            &&& reads_as_name(continuation.format(), 128)
            &&& 1 <= continuation.parts().len() <= 64
            &&& forall|i: int| 0 <= i < continuation.parts().len() ==> shape_is_modest(#[trigger] continuation.parts()[i]@)
            &&& documents_len(continuation.parts()) <= 1_048_576
        },
{
    law_names_are_portable(continuation.format(), 128);
    assert forall|i: int| 0 <= i < continuation.parts().len() implies shape_is_bounded(
        #[trigger] continuation.parts()[i]@,
    ) == shape_is_modest(continuation.parts()[i]@) by {}
}

/// Documents together are as long as one by one.
pub proof fn law_documents_add_up(documents: Seq<JsonDocument>, other: Seq<JsonDocument>)
    ensures
        documents_len(documents + other) == documents_len(documents) + documents_len(other),
        documents.len() == 1 ==> documents_len(documents) == encode_utf8(documents[0]@).len(),
    decreases other.len(),
{
    if documents.len() == 1 {
        reveal_with_fuel(documents_len, 2);
    }
    if other.len() == 0 {
        assert(documents + other =~= documents);
    } else {
        law_documents_add_up(documents, other.drop_last());
        assert((documents + other).drop_last() =~= documents + other.drop_last());
    }
}

/// A response is accepted with labels of up to 256 bytes for what the Provider
/// says of itself, bounded Provider state, and an acceptable output.
pub proof fn law_responses_fit(response: ModelResponse)
    ensures
        response_check(response) is Ok <==> {
            &&& response.provider_model matches Some(id) ==> reads_as_label(id@, 256)
            &&& response.provider_request_id matches Some(id) ==> reads_as_label(id@, 256)
            &&& response.continuation matches Some(continuation) ==> continuation.is_bounded()
            &&& output_check(response.output) is Ok
        },
{
    if let Some(id) = response.provider_model {
        law_labels_are_readable(id@, 256);
    }
    if let Some(id) = response.provider_request_id {
        law_labels_are_readable(id@, 256);
    }
}

/// Whether a recorded item may be shown to a Model.
pub open spec fn item_may_be_shown(item: Item) -> bool {
    match item.kind {
        ItemKind::ProviderContinuation { model_id, model_origin, continuation } => reads_as_identity(model_id@, 256)
            && origin_is_valid(model_origin@) && continuation.is_bounded(),
        ItemKind::ToolCall { input, .. } => shape_is_modest(input@),
        ItemKind::ToolResult { output, .. } => shape_is_modest(output@),
        _ => true,
    }
}

proof fn lemma_request_items(items: Seq<Item>)
    ensures
        request_items_check(items) is Ok <==> forall|k: int| 0 <= k < items.len() ==> item_may_be_shown(#[trigger] items[k]),
    decreases items.len(),
{
    if items.len() > 0 {
        let shorter = items.drop_last();
        let last = items.last();
        lemma_request_items(shorter);
        if let ItemKind::ProviderContinuation { model_id, .. } = last.kind {
            law_names_are_portable(model_id@, 256);
        }
        assert(last == items[items.len() - 1]);
        assert forall|k: int| 0 <= k < shorter.len() implies shorter[k] == #[trigger] items[k] by {}
        if request_items_check(items) is Ok {
            assert forall|k: int| 0 <= k < items.len() implies item_may_be_shown(#[trigger] items[k]) by {
                if k < shorter.len() {
                    assert(item_may_be_shown(shorter[k]));
                }
            }
        }
        if forall|k: int| 0 <= k < items.len() ==> item_may_be_shown(#[trigger] items[k]) {
            assert forall|k: int| 0 <= k < shorter.len() implies item_may_be_shown(#[trigger] shorter[k]) by {
                assert(item_may_be_shown(items[k]));
            }
            assert(item_may_be_shown(items[items.len() - 1]));
        }
    }
}

proof fn lemma_request_tools(tools: Seq<ToolDescriptor>)
    ensures
        request_tools_check(tools) is Ok <==> forall|k: int|
            0 <= k < tools.len() ==> shape_is_modest((#[trigger] tools[k]).input_schema@),
    decreases tools.len(),
{
    if tools.len() > 0 {
        let shorter = tools.drop_last();
        lemma_request_tools(shorter);
        assert forall|k: int| 0 <= k < shorter.len() implies shorter[k] == #[trigger] tools[k] by {}
        if request_tools_check(tools) is Ok {
            assert forall|k: int| 0 <= k < tools.len() implies shape_is_modest((#[trigger] tools[k]).input_schema@) by {
                if k < shorter.len() {
                    assert(shape_is_modest(shorter[k].input_schema@));
                }
            }
        }
        if forall|k: int| 0 <= k < tools.len() ==> shape_is_modest((#[trigger] tools[k]).input_schema@) {
            assert forall|k: int| 0 <= k < shorter.len() implies shape_is_modest((#[trigger] shorter[k]).input_schema@) by {
                assert(shape_is_modest(tools[k].input_schema@));
            }
            assert(shape_is_modest(tools[tools.len() - 1].input_schema@));
        }
    }
}

/// A request is sent where its authority is valid, every item may be shown,
/// every schema is modest, and its encoding takes up to 16777216 bytes.
pub proof fn law_requests_fit(request: ModelRequest, encoding: Option<Seq<char>>)
    ensures
        request_check(request, encoding) is Ok <==> {
            &&& request.authority@.check("Model request authority"@) is Ok
            &&& forall|k: int| 0 <= k < request.items@.len() ==> item_may_be_shown(#[trigger] request.items@[k])
            &&& forall|k: int| 0 <= k < request.tools@.len() ==> shape_is_modest((#[trigger] request.tools@[k]).input_schema@)
            &&& encoding matches Some(text) && encode_utf8(text).len() <= 16_777_216
        },
{
    lemma_request_items(request.items@);
    lemma_request_tools(request.tools@);
}

/// A Thread needs four general events to go on.
pub proof fn law_turns_need_four_events(capacity: StateCapacity)
    ensures
        capacity_check(capacity) is Ok <==> 4 <= capacity.general_events_remaining,
{
}

/// Observed outcomes tell success, cancellation and time-out from every other
/// fault.
pub proof fn law_outcomes_tell_stops_apart(error: HarnessError)
    ensures
        outcome_of(Ok::<(), HarnessError>(())) == ObservationOutcome::Success,
        outcome_of(Err::<(), HarnessError>(error)) == (if error@ is Cancelled {
            ObservationOutcome::Cancelled
        } else if error@ is TimedOut {
            ObservationOutcome::TimedOut
        } else {
            ObservationOutcome::Error
        }),
        error@.is_stop() <==> error@ is Cancelled || error@ is TimedOut,
{
}

/// Limits of a runtime: 4096 Turns at once, 64 parallel calls, 144 attempts for
/// a step and 256 steps; a number of steps outside its range is moved to the
/// nearest inside.
pub proof fn law_runtime_limits_are_supported(limits: LimitsView, steps: usize)
    ensures
        limits.supported() <==> {
            &&& 1 <= limits.concurrent_turns <= 4096
            &&& 1 <= limits.parallel_tool_calls <= 64
            &&& 1 <= limits.attempts_per_step <= 144
            &&& 1 <= limits.steps <= 256
        },
        1 <= clamped_steps(steps) <= 256,
        1 <= steps <= 256 ==> clamped_steps(steps) == steps,
        steps > 256 ==> clamped_steps(steps) == 256,
        steps == 0 ==> clamped_steps(steps) == 1,
{
}

/// Steering is admitted to the Turn that it is meant for, while that Turn
/// accepts it, up to 64 messages and 1048576 bytes in all.
pub proof fn law_steering_is_admitted_while_it_fits(control: ActiveTurnControl, expected_turn: Seq<char>, content: Seq<char>)
    ensures
        admission(control, expected_turn, content) is Ok <==> {
            &&& control.turn() == expected_turn
            &&& control.accepting()
            &&& control.pending().len() < 64
            &&& steering_bytes(control.pending()) + encode_utf8(content).len() <= 1_048_576
        },
{
}

/// A submission is recorded where it says something in bounds, comes from a
/// valid authority and is admitted.
pub proof fn law_submissions_are_admitted(
    control: ActiveTurnControl,
    expected_turn: Seq<char>,
    content: Seq<char>,
    authority: AuthorityView,
)
    ensures
        submission(control, expected_turn, content, authority) is Ok <==> {
            &&& says_something(content)
            &&& encode_utf8(content).len() <= 1_048_576
            &&& authority.check("steering authority"@) is Ok
            &&& admission(control, expected_turn, content) is Ok
        },
{
    law_prompts_and_answers_fit(content);
}

/// Queued steering is as long as its messages together.
pub proof fn law_queued_bytes_add_up(pending: Seq<PendingSteering>, other: Seq<PendingSteering>)
    ensures
        steering_bytes(pending + other) == steering_bytes(pending) + steering_bytes(other),
        pending.len() == 1 ==> steering_bytes(pending) == encode_utf8(pending[0].content@).len(),
    decreases other.len(),
{
    if pending.len() == 1 {
        reveal_with_fuel(steering_bytes, 2);
    }
    if other.len() == 0 {
        assert(pending + other =~= pending);
    } else {
        law_queued_bytes_add_up(pending, other.drop_last());
        assert((pending + other).drop_last() =~= pending + other.drop_last());
    }
}

} // verus!
