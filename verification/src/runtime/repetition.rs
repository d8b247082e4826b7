//! What a repetition is a repetition of: the decisions behind the digests that
//! the Progress Governor compares.

use vstd::prelude::*;
use vstd::utf8::{encode_utf8, encode_utf8_decode_utf8, is_ascii_chars, is_ascii_chars_encode_utf8};

use crate::digest::{hex_digit, law_equal_digests_have_equal_bytes, sha256, sha256_collides, sha256_hex};
use crate::items::{Item, ItemKind};
use crate::json::{is_plain, json_string, law_plain_text_is_only_quoted, law_string_literals_are_read_back};
use crate::runtime::progress::{
    bool_encoding,
    cycle_encoding,
    observation_encoding,
    proposal_encoding,
    settled_call_encoding,
    settled_calls_encoding,
    CallView,
    CycleView,
    GovernorView,
    ProgressVerdict,
    call_position,
    law_identities_do_not_hide_a_cycle,
    law_replay_is_incremental,
    law_retained_history_decides,
    newest,
    observe,
    replay,
    repeats,
    retained,
    smallest_period,
    verdict,
};
use crate::text::{lemma_cancel, lemma_cancel_behind, utf8_len};

verus! {

/// What a proposal is digested from determines the proposal: equal encodings
/// have the same Tool name and the same input.
pub proof fn law_encoded_proposals_are_told_apart(name: Seq<char>, input: Seq<char>, other_name: Seq<char>, other_input: Seq<char>)
    requires
        proposal_encoding(name, input) == proposal_encoding(other_name, other_input),
    ensures
        name == other_name,
        input == other_input,
{
    let (open, middle, close) = ("{\"name\":"@, ",\"input\":"@, "}"@);
    let behind = middle + (input + close);
    let other_behind = middle + (other_input + close);
    assert(proposal_encoding(name, input) =~= open + (json_string(name) + behind));
    assert(proposal_encoding(other_name, other_input) =~= open + (json_string(other_name) + other_behind));
    lemma_cancel(open, json_string(name) + behind, json_string(other_name) + other_behind);
    law_string_literals_are_read_back(name, other_name, behind, other_behind);
    lemma_cancel(middle, input + close, other_input + close);
    lemma_cancel_behind(input, other_input, close);
}

proof fn lemma_bool_is_read_back(a: bool, b: bool, behind_a: Seq<char>, behind_b: Seq<char>)
    requires
        bool_encoding(a) + behind_a == bool_encoding(b) + behind_b,
    ensures
        a == b,
        behind_a == behind_b,
{
    reveal_strlit("true");
    reveal_strlit("false");
    let left = bool_encoding(a) + behind_a;
    let right = bool_encoding(b) + behind_b;
    assert(left[0] == bool_encoding(a)[0]);
    assert(right[0] == bool_encoding(b)[0]);
    lemma_cancel(bool_encoding(a), behind_a, behind_b);
}

/// What a result is digested from determines the result: equal encodings have
/// the same error mark and the same output.
pub proof fn law_encoded_results_are_told_apart(is_error: bool, output: Seq<char>, other_is_error: bool, other_output: Seq<char>)
    requires
        observation_encoding(is_error, output) == observation_encoding(other_is_error, other_output),
    ensures
        is_error == other_is_error,
        output == other_output,
{
    let (open, middle, close) = ("{\"is_error\":"@, ",\"output\":"@, "}"@);
    let behind = middle + (output + close);
    let other_behind = middle + (other_output + close);
    assert(observation_encoding(is_error, output) =~= open + (bool_encoding(is_error) + behind));
    assert(observation_encoding(other_is_error, other_output) =~= open + (bool_encoding(other_is_error) + other_behind));
    lemma_cancel(open, bool_encoding(is_error) + behind, bool_encoding(other_is_error) + other_behind);
    lemma_bool_is_read_back(is_error, other_is_error, behind, other_behind);
    lemma_cancel(middle, output + close, other_output + close);
    lemma_cancel_behind(output, other_output, close);
}

spec fn result_part(result: Option<Seq<char>>) -> Seq<char> {
    match result {
        Some(digest) => json_string(digest),
        None => "null"@,
    }
}

spec fn mark_part(is_error: Option<bool>) -> Seq<char> {
    match is_error {
        Some(value) => bool_encoding(value),
        None => "null"@,
    }
}

proof fn lemma_result_is_read_back(a: Option<Seq<char>>, b: Option<Seq<char>>, behind_a: Seq<char>, behind_b: Seq<char>)
    requires
        result_part(a) + behind_a == result_part(b) + behind_b,
    ensures
        a == b,
        behind_a == behind_b,
{
    reveal_strlit("null");
    let left = result_part(a) + behind_a;
    let right = result_part(b) + behind_b;
    assert(left[0] == result_part(a)[0]);
    assert(right[0] == result_part(b)[0]);
    if a is Some && b is Some {
        law_string_literals_are_read_back(a->0, b->0, behind_a, behind_b);
    } else {
        lemma_cancel("null"@, behind_a, behind_b);
    }
}

proof fn lemma_mark_is_read_back(a: Option<bool>, b: Option<bool>, behind_a: Seq<char>, behind_b: Seq<char>)
    requires
        mark_part(a) + behind_a == mark_part(b) + behind_b,
    ensures
        a == b,
        behind_a == behind_b,
{
    reveal_strlit("null");
    reveal_strlit("true");
    reveal_strlit("false");
    let left = mark_part(a) + behind_a;
    let right = mark_part(b) + behind_b;
    assert(left[0] == mark_part(a)[0]);
    assert(right[0] == mark_part(b)[0]);
    if a is Some && b is Some {
        lemma_bool_is_read_back(a->0, b->0, behind_a, behind_b);
    } else {
        lemma_cancel("null"@, behind_a, behind_b);
    }
}

/// Whether two calls of a cycle agree in everything but their identity.
spec fn calls_agree(a: CallView, b: CallView) -> bool {
    a.proposal == b.proposal && a.result == b.result && a.is_error == b.is_error
}

proof fn lemma_regroup(
    a: Seq<char>,
    b: Seq<char>,
    c: Seq<char>,
    d: Seq<char>,
    e: Seq<char>,
    f: Seq<char>,
    g: Seq<char>,
    behind: Seq<char>,
)
    ensures
        a + b + c + d + e + f + g + behind == a + (b + (c + (d + (e + (f + (g + behind)))))),
{
    assert(a + b + c + d + e + f + g + behind =~= a + b + c + d + e + f + (g + behind));
    assert(a + b + c + d + e + f + (g + behind) =~= a + b + c + d + e + (f + (g + behind)));
    assert(a + b + c + d + e + (f + (g + behind)) =~= a + b + c + d + (e + (f + (g + behind))));
    assert(a + b + c + d + (e + (f + (g + behind))) =~= a + b + c + (d + (e + (f + (g + behind)))));
    assert(a + b + c + (d + (e + (f + (g + behind)))) =~= a + b + (c + (d + (e + (f + (g + behind))))));
    assert(a + b + (c + (d + (e + (f + (g + behind))))) =~= a + (b + (c + (d + (e + (f + (g + behind)))))));
}

proof fn lemma_call_is_read_back(a: CallView, b: CallView, behind_a: Seq<char>, behind_b: Seq<char>)
    requires
        settled_call_encoding(a) + behind_a == settled_call_encoding(b) + behind_b,
    ensures
        calls_agree(a, b),
        behind_a == behind_b,
{
    let (open, second, third, close) = ("{\"proposal_sha256\":"@, ",\"result_sha256\":"@, ",\"is_error\":"@, "}"@);
    let (close_a, close_b) = (close + behind_a, close + behind_b);
    let (mark_a, mark_b) = (third + (mark_part(a.is_error) + close_a), third + (mark_part(b.is_error) + close_b));
    let (result_a, result_b) = (second + (result_part(a.result) + mark_a), second + (result_part(b.result) + mark_b));
    lemma_regroup(open, json_string(a.proposal), second, result_part(a.result), third, mark_part(a.is_error), close, behind_a);
    lemma_regroup(open, json_string(b.proposal), second, result_part(b.result), third, mark_part(b.is_error), close, behind_b);
    lemma_cancel(open, json_string(a.proposal) + result_a, json_string(b.proposal) + result_b);
    law_string_literals_are_read_back(a.proposal, b.proposal, result_a, result_b);
    lemma_cancel(second, result_part(a.result) + mark_a, result_part(b.result) + mark_b);
    lemma_result_is_read_back(a.result, b.result, mark_a, mark_b);
    lemma_cancel(third, mark_part(a.is_error) + close_a, mark_part(b.is_error) + close_b);
    lemma_mark_is_read_back(a.is_error, b.is_error, close_a, close_b);
    lemma_cancel(close, behind_a, behind_b);
}

proof fn lemma_calls_from_the_front(calls: Seq<CallView>)
    requires
        calls.len() >= 2,
    ensures
        settled_calls_encoding(calls) == settled_call_encoding(calls[0]) + ","@ + settled_calls_encoding(calls.drop_first()),
    decreases calls.len(),
{
    let shorter = calls.drop_last();
    let rest = calls.drop_first();
    assert(rest.last() == calls.last());
    assert(rest.drop_last() =~= shorter.drop_first());
    if calls.len() == 2 {
        assert(shorter[0] == calls[0] && rest[0] == calls[1]);
        assert(settled_calls_encoding(shorter) == settled_call_encoding(calls[0]));
        assert(settled_calls_encoding(rest) == settled_call_encoding(calls[1]));
    } else {
        lemma_calls_from_the_front(shorter);
        assert(settled_calls_encoding(calls) =~= settled_call_encoding(calls[0]) + ","@ + settled_calls_encoding(rest));
    }
}

/// What follows the first of the calls of a cycle.
spec fn behind_first_call(calls: Seq<CallView>) -> Seq<char> {
    if calls.len() == 1 {
        "]}"@
    } else {
        ","@ + (settled_calls_encoding(calls.drop_first()) + "]}"@)
    }
}

proof fn lemma_first_call(calls: Seq<CallView>)
    requires
        calls.len() > 0,
    ensures
        settled_calls_encoding(calls) + "]}"@ == settled_call_encoding(calls[0]) + behind_first_call(calls),
{
    if calls.len() > 1 {
        lemma_calls_from_the_front(calls);
        assert(settled_calls_encoding(calls) + "]}"@ =~= settled_call_encoding(calls[0]) + behind_first_call(calls));
    }
}

proof fn lemma_marks_of_calls(calls: Seq<CallView>)
    ensures
        (settled_calls_encoding(calls) + "]}"@).len() > 0,
        (settled_calls_encoding(calls) + "]}"@)[0] == (if calls.len() == 0 {
            ']'
        } else {
            '{'
        }),
        behind_first_call(calls).len() > 0,
        behind_first_call(calls)[0] == (if calls.len() == 1 {
            ']'
        } else {
            ','
        }),
{
    reveal_strlit("]}");
    reveal_strlit(",");
    reveal_strlit("{\"proposal_sha256\":");
    if calls.len() > 0 {
        lemma_first_call(calls);
        let call = settled_call_encoding(calls[0]);
        assert(call.len() > 0 && call[0] == '{');
    }
}

proof fn lemma_calls_are_read_back(a: Seq<CallView>, b: Seq<CallView>)
    requires
        settled_calls_encoding(a) + "]}"@ == settled_calls_encoding(b) + "]}"@,
    ensures
        a.len() == b.len(),
        forall|k: int| 0 <= k < a.len() ==> calls_agree(#[trigger] a[k], b[k]),
    decreases a.len(),
{
    lemma_marks_of_calls(a);
    lemma_marks_of_calls(b);
    if a.len() > 0 && b.len() > 0 {
        lemma_first_call(a);
        lemma_first_call(b);
        lemma_call_is_read_back(a[0], b[0], behind_first_call(a), behind_first_call(b));
        if a.len() > 1 {
            let (rest_a, rest_b) = (a.drop_first(), b.drop_first());
            lemma_cancel(","@, settled_calls_encoding(rest_a) + "]}"@, settled_calls_encoding(rest_b) + "]}"@);
            lemma_calls_are_read_back(rest_a, rest_b);
            assert forall|k: int| 0 <= k < a.len() implies calls_agree(#[trigger] a[k], b[k]) by {
                if k > 0 {
                    assert(calls_agree(rest_a[k - 1], rest_b[k - 1]));
                }
            }
        }
    }
}

/// What a cycle is digested from determines its calls: equal encodings have as
/// many calls, with the same digests of proposals and results and the same
/// error marks, in the same order.
pub proof fn law_encoded_cycles_are_told_apart(a: Seq<CallView>, b: Seq<CallView>)
    requires
        cycle_encoding(a) == cycle_encoding(b),
    ensures
        a.len() == b.len(),
        forall|k: int|
            0 <= k < a.len() ==> (#[trigger] a[k]).proposal == b[k].proposal && a[k].result == b[k].result && a[k].is_error
                == b[k].is_error,
{
    let open = "{\"calls\":["@;
    let close = "]}"@;
    assert(cycle_encoding(a) =~= open + (settled_calls_encoding(a) + close));
    assert(cycle_encoding(b) =~= open + (settled_calls_encoding(b) + close));
    lemma_cancel(open, settled_calls_encoding(a) + close, settled_calls_encoding(b) + close);
    lemma_calls_are_read_back(a, b);
    assert forall|k: int| 0 <= k < a.len() implies (#[trigger] a[k]).proposal == b[k].proposal && a[k].result
        == b[k].result && a[k].is_error == b[k].is_error by {
        assert(calls_agree(a[k], b[k]));
    }
}

proof fn lemma_same_digest(a: Seq<char>, b: Seq<char>)
    requires
        sha256_hex(encode_utf8(a)) == sha256_hex(encode_utf8(b)),
        !sha256_collides(),
    ensures
        a == b,
{
    law_equal_digests_have_equal_bytes(encode_utf8(a), encode_utf8(b));
    encode_utf8_decode_utf8(a);
    encode_utf8_decode_utf8(b);
}

/// One Tool call of a decision with its result.
#[verifier::ext_equal]
pub struct SettledTool {
    /// Correlation identity.
    pub call_id: Seq<char>,
    /// Name of the Tool.
    pub name: Seq<char>,
    /// Input of the Tool.
    pub input: Seq<char>,
    /// Output of the Tool.
    pub output: Seq<char>,
    /// Whether the output reports a failure.
    pub is_error: bool,
}

/// Batch that the first of some items names.
pub open spec fn first_batch(items: Seq<Item>) -> Option<Seq<char>> {
    match items[0].kind {
        ItemKind::ToolCall { batch: Some(batch), .. } => Some(batch.id@),
        _ => None,
    }
}

/// Whether an item records the call at a position of a decision.
pub open spec fn call_is_recorded(item: Item, tool: SettledTool, batch_id: Option<Seq<char>>, at: int, size: int) -> bool {
    &&& item.kind matches ItemKind::ToolCall { call_id, name, input, batch, .. }
    &&& call_id@ == tool.call_id
    &&& name@ == tool.name
    &&& input@ == tool.input
    &&& match batch {
        None => size == 1 && batch_id is None,
        Some(batch) => batch_id == Some(batch.id@) && batch.index == at && batch.size == size,
    }
}

/// Whether an item records the result of a call.
pub open spec fn result_is_recorded(item: Item, tool: SettledTool) -> bool {
    &&& item.kind matches ItemKind::ToolResult { call_id, output, is_error, .. }
    &&& call_id@ == tool.call_id
    &&& output@ == tool.output
    &&& is_error == tool.is_error
}

/// Whether items record one decision: its calls in source order, alone or as
/// the members of one batch, and then their results.
pub open spec fn decision_is_recorded(items: Seq<Item>, tools: Seq<SettledTool>) -> bool {
    &&& 1 <= tools.len()
    &&& items.len() == 2 * tools.len()
    &&& forall|k: int|
        0 <= k < tools.len() ==> call_is_recorded(
            #[trigger] items[k],
            tools[k],
            first_batch(items),
            k,
            tools.len() as int,
        )
    &&& forall|k: int| 0 <= k < tools.len() ==> result_is_recorded(items[tools.len() + k], #[trigger] tools[k])
    &&& forall|i: int, j: int|
        0 <= i < j < tools.len() ==> (#[trigger] tools[i]).call_id != (#[trigger] tools[j]).call_id
}

/// Whether items record decisions, one behind the other.
pub open spec fn decisions_are_recorded(items: Seq<Item>, decisions: Seq<Seq<SettledTool>>) -> bool
    decreases decisions.len(),
{
    if decisions.len() == 0 {
        items.len() == 0
    } else {
        let cut = items.len() - 2 * decisions.last().len();
        &&& 0 <= cut
        &&& decisions_are_recorded(items.take(cut), decisions.drop_last())
        &&& decision_is_recorded(items.skip(cut), decisions.last())
    }
}

/// Calls and results of a journal.
pub open spec fn tool_evidence(items: Seq<Item>) -> Seq<Item>
    decreases items.len(),
{
    if items.len() == 0 {
        Seq::empty()
    } else if items.last().kind is ToolCall || items.last().kind is ToolResult {
        tool_evidence(items.drop_last()).push(items.last())
    } else {
        tool_evidence(items.drop_last())
    }
}

/// Whether a journal holds no message, no applied steering and no judgement of
/// a verifier.
pub open spec fn is_undisturbed(items: Seq<Item>) -> bool {
    forall|i: int|
        0 <= i < items.len() ==> !((#[trigger] items[i]).kind is UserMessage || items[i].kind is SteeringApplied
            || items[i].kind is AssistantMessage || items[i].kind is VerificationResult)
}

/// Whether every call of a decision succeeded.
pub open spec fn all_succeeded(tools: Seq<SettledTool>) -> bool {
    forall|k: int| 0 <= k < tools.len() ==> !(#[trigger] tools[k]).is_error
}

/// Decisions behind the last one whose calls all succeeded.
pub open spec fn failures(decisions: Seq<Seq<SettledTool>>) -> Seq<Seq<SettledTool>>
    decreases decisions.len(),
{
    if decisions.len() == 0 || all_succeeded(decisions.last()) {
        Seq::empty()
    } else {
        failures(decisions.drop_last()).push(decisions.last())
    }
}

/// Whether two decisions call the same Tools with the same inputs in the same
/// order, and got the same outputs with the same error marks.
pub open spec fn same_decision(a: Seq<SettledTool>, b: Seq<SettledTool>) -> bool {
    a.len() == b.len() && forall|k: int|
        0 <= k < a.len() ==> (#[trigger] a[k]).name == b[k].name && a[k].input == b[k].input && a[k].output == b[k].output
            && a[k].is_error == b[k].is_error
}

/// Whether the last `period * times` decisions are `times` repetitions of the
/// same `period` decisions.
pub open spec fn decisions_repeat(decisions: Seq<Seq<SettledTool>>, period: int, times: int) -> bool {
    let start = decisions.len() - period * times;
    &&& 0 <= start
    &&& forall|i: int|
        start + period <= i < decisions.len() ==> same_decision(#[trigger] decisions[i], decisions[i - period])
}

/// Whether a decision is small enough to be digested.
pub open spec fn is_digestible(tools: Seq<SettledTool>) -> bool {
    &&& tools.len() <= 87
    &&& forall|k: int|
        0 <= k < tools.len() ==> utf8_len(json_string((#[trigger] tools[k]).name)) + utf8_len(tools[k].input) + 18
            <= 1_052_672 && utf8_len(tools[k].output) + 28 <= 1_052_672
}

spec fn proposed(tool: SettledTool) -> CallView {
    CallView {
        call_id: tool.call_id,
        proposal: sha256_hex(encode_utf8(proposal_encoding(tool.name, tool.input))),
        result: None,
        is_error: None,
    }
}

spec fn observed(tool: SettledTool) -> CallView {
    CallView {
        call_id: tool.call_id,
        proposal: sha256_hex(encode_utf8(proposal_encoding(tool.name, tool.input))),
        result: Some(sha256_hex(encode_utf8(observation_encoding(tool.is_error, tool.output)))),
        is_error: Some(tool.is_error),
    }
}

/// Calls of a decision of which the first `n` have their result.
spec fn partly_settled(tools: Seq<SettledTool>, n: int) -> Seq<CallView> {
    Seq::new(
        tools.len(),
        |i: int| if i < n {
            observed(tools[i])
        } else {
            proposed(tools[i])
        },
    )
}

spec fn decision_digest(tools: Seq<SettledTool>) -> Seq<char> {
    sha256_hex(encode_utf8(cycle_encoding(partly_settled(tools, tools.len() as int))))
}

proof fn lemma_utf8_concat(a: Seq<char>, b: Seq<char>)
    ensures
        utf8_len(a + b) == utf8_len(a) + utf8_len(b),
    decreases a.len(),
{
    if a.len() == 0 {
        assert(a + b =~= b);
    } else {
        assert((a + b).drop_first() =~= a.drop_first() + b);
        assert((a + b)[0] == a[0]);
        lemma_utf8_concat(a.drop_first(), b);
    }
}

proof fn lemma_ascii_len(a: Seq<char>)
    requires
        is_ascii_chars(a),
    ensures
        utf8_len(a) == a.len(),
{
    is_ascii_chars_encode_utf8(a);
}

proof fn lemma_proposal_size(name: Seq<char>, input: Seq<char>)
    ensures
        utf8_len(proposal_encoding(name, input)) == utf8_len(json_string(name)) + utf8_len(input) + 18,
{
    reveal_strlit("{\"name\":");
    reveal_strlit(",\"input\":");
    reveal_strlit("}");
    let (open, middle, close) = ("{\"name\":"@, ",\"input\":"@, "}"@);
    lemma_ascii_len(open);
    lemma_ascii_len(middle);
    lemma_ascii_len(close);
    lemma_utf8_concat(open, json_string(name));
    lemma_utf8_concat(open + json_string(name), middle);
    lemma_utf8_concat(open + json_string(name) + middle, input);
    lemma_utf8_concat(open + json_string(name) + middle + input, close);
}

proof fn lemma_result_size(is_error: bool, output: Seq<char>)
    ensures
        utf8_len(observation_encoding(is_error, output)) <= utf8_len(output) + 28,
{
    reveal_strlit("{\"is_error\":");
    reveal_strlit(",\"output\":");
    reveal_strlit("}");
    reveal_strlit("true");
    reveal_strlit("false");
    let (open, middle, close) = ("{\"is_error\":"@, ",\"output\":"@, "}"@);
    let mark = bool_encoding(is_error);
    lemma_ascii_len(open);
    lemma_ascii_len(middle);
    lemma_ascii_len(close);
    lemma_ascii_len(mark);
    lemma_utf8_concat(open, mark);
    lemma_utf8_concat(open + mark, middle);
    lemma_utf8_concat(open + mark + middle, output);
    lemma_utf8_concat(open + mark + middle + output, close);
}

proof fn lemma_calls_are_observed(repetitions: u8, governor: GovernorView, items: Seq<Item>, tools: Seq<SettledTool>, n: int)
    requires
        decision_is_recorded(items, tools),
        governor.pending is None,
        1 <= n <= tools.len(),
    ensures
        ({
            let (state, fault) = replay(repetitions, governor, items.take(n));
            &&& is_digestible(tools) ==> fault is None
            &&& fault is None ==> state == (GovernorView {
                pending: Some(
                    CycleView {
                        batch_id: first_batch(items),
                        expected: tools.len(),
                        calls: partly_settled(tools, 0).take(n),
                    },
                ),
                failed: governor.failed,
            })
        }),
    decreases n,
{
    let at = n - 1;
    assert(items.take(n).drop_last() =~= items.take(at));
    assert(items.take(n).last() == items[at]);
    assert(call_is_recorded(items[at], tools[at], first_batch(items), at, tools.len() as int));
    lemma_proposal_size(tools[at].name, tools[at].input);
    let calls = partly_settled(tools, 0);
    assert(calls[at] == proposed(tools[at]));
    if n > 1 {
        lemma_calls_are_observed(repetitions, governor, items, tools, at);
        assert(calls.take(at).push(calls[at]) =~= calls.take(n));
    } else {
        assert(items.take(0).len() == 0);
        assert(calls.take(1) =~= seq![calls[0]]);
    }
}

proof fn lemma_call_is_found(tools: Seq<SettledTool>, n: int, from: int)
    requires
        0 <= from <= n < tools.len(),
        forall|i: int, j: int|
            0 <= i < j < tools.len() ==> (#[trigger] tools[i]).call_id != (#[trigger] tools[j]).call_id,
    ensures
        call_position(partly_settled(tools, n), tools[n].call_id, from) == Some(n),
    decreases n - from,
{
    assert(partly_settled(tools, n)[from].call_id == tools[from].call_id);
    if from < n {
        assert(tools[from].call_id != tools[n].call_id);
        lemma_call_is_found(tools, n, from + 1);
    }
}

proof fn lemma_results_are_observed(repetitions: u8, governor: GovernorView, items: Seq<Item>, tools: Seq<SettledTool>, n: int)
    requires
        decision_is_recorded(items, tools),
        governor.pending is None,
        0 <= n < tools.len(),
    ensures
        ({
            let (state, fault) = replay(repetitions, governor, items.take(tools.len() + n));
            &&& is_digestible(tools) ==> fault is None
            &&& fault is None ==> state == (GovernorView {
                pending: Some(
                    CycleView {
                        batch_id: first_batch(items),
                        expected: tools.len(),
                        calls: partly_settled(tools, n),
                    },
                ),
                failed: governor.failed,
            })
        }),
    decreases n,
{
    if n == 0 {
        lemma_calls_are_observed(repetitions, governor, items, tools, tools.len() as int);
        assert(partly_settled(tools, 0).take(tools.len() as int) =~= partly_settled(tools, 0));
    } else {
        let at = n - 1;
        let end = tools.len() + n;
        assert(items.take(end).drop_last() =~= items.take(end - 1));
        assert(items.take(end).last() == items[tools.len() + at]);
        assert(result_is_recorded(items[tools.len() + at], tools[at]));
        lemma_results_are_observed(repetitions, governor, items, tools, at);
        lemma_result_size(tools[at].is_error, tools[at].output);
        lemma_call_is_found(tools, at, 0);
        let before = partly_settled(tools, at);
        let after = partly_settled(tools, n);
        assert(before[at] == proposed(tools[at]));
        assert(before.update(at, observed(tools[at])) =~= after);
        assert(after[n] == proposed(tools[n]));
    }
}

/// SHA-256 digests have 32 bytes.
pub open spec fn digests_are_full() -> bool {
    forall|bytes: Seq<u8>| (#[trigger] sha256(bytes)).len() == 32
}

proof fn lemma_digest_literal_size(bytes: Seq<u8>)
    requires
        sha256(bytes).len() == 32,
    ensures
        utf8_len(json_string(sha256_hex(bytes))) == 66,
{
    let digest = sha256_hex(bytes);
    assert(digest.len() == 64);
    assert forall|k: int| 0 <= k < digest.len() implies is_plain(#[trigger] digest[k]) && (digest[k] as u32) < 128 by {
        let byte = sha256(bytes)[k / 2];
        assert(digest[k] == hex_digit(
            if k % 2 == 0 {
                byte as int / 16
            } else {
                byte as int % 16
            },
        ));
    }
    law_plain_text_is_only_quoted(digest);
    let literal = json_string(digest);
    assert(is_ascii_chars(literal)) by {
        assert forall|k: int| 0 <= k < literal.len() implies (#[trigger] literal[k] as nat) < 128 by {
            if 0 < k < 65 {
                assert(literal[k] == digest[k - 1]);
                assert((digest[k - 1] as u32) < 128);
            }
        }
    }
    lemma_ascii_len(literal);
}

proof fn lemma_call_size(tool: SettledTool)
    requires
        digests_are_full(),
    ensures
        utf8_len(settled_call_encoding(observed(tool))) <= 186,
{
    let call = observed(tool);
    let proposal = encode_utf8(proposal_encoding(tool.name, tool.input));
    let result = encode_utf8(observation_encoding(tool.is_error, tool.output));
    assert(sha256(proposal).len() == 32 && sha256(result).len() == 32);
    lemma_digest_literal_size(proposal);
    lemma_digest_literal_size(result);
    reveal_strlit("{\"proposal_sha256\":");
    reveal_strlit(",\"result_sha256\":");
    reveal_strlit(",\"is_error\":");
    reveal_strlit("}");
    reveal_strlit("true");
    reveal_strlit("false");
    let (open, second, third, close) = ("{\"proposal_sha256\":"@, ",\"result_sha256\":"@, ",\"is_error\":"@, "}"@);
    let (a, b, c) = (json_string(sha256_hex(proposal)), json_string(sha256_hex(result)), bool_encoding(tool.is_error));
    lemma_ascii_len(open);
    lemma_ascii_len(second);
    lemma_ascii_len(third);
    lemma_ascii_len(close);
    lemma_ascii_len(c);
    lemma_utf8_concat(open, a);
    lemma_utf8_concat(open + a, second);
    lemma_utf8_concat(open + a + second, b);
    lemma_utf8_concat(open + a + second + b, third);
    lemma_utf8_concat(open + a + second + b + third, c);
    lemma_utf8_concat(open + a + second + b + third + c, close);
    assert(settled_call_encoding(call) == open + a + second + b + third + c + close);
}

proof fn lemma_calls_size(tools: Seq<SettledTool>, n: int)
    requires
        digests_are_full(),
        0 <= n <= tools.len(),
    ensures
        utf8_len(settled_calls_encoding(partly_settled(tools, tools.len() as int).take(n))) <= 187 * n,
    decreases n,
{
    let calls = partly_settled(tools, tools.len() as int);
    if n > 0 {
        lemma_calls_size(tools, n - 1);
        lemma_call_size(tools[n - 1]);
        assert(calls.take(n).drop_last() =~= calls.take(n - 1));
        assert(calls.take(n).last() == observed(tools[n - 1]));
        if n == 1 {
            assert(calls.take(n)[0] == observed(tools[0]));
        } else {
            reveal_strlit(",");
            lemma_ascii_len(","@);
            let shorter = settled_calls_encoding(calls.take(n - 1));
            lemma_utf8_concat(shorter, ","@);
            lemma_utf8_concat(shorter + ","@, settled_call_encoding(observed(tools[n - 1])));
        }
    } else {
        lemma_ascii_len(settled_calls_encoding(calls.take(0)));
    }
}

proof fn lemma_cycle_size(tools: Seq<SettledTool>)
    requires
        digests_are_full(),
    ensures
        utf8_len(cycle_encoding(partly_settled(tools, tools.len() as int))) <= 187 * tools.len() + 12,
{
    let calls = partly_settled(tools, tools.len() as int);
    lemma_calls_size(tools, tools.len() as int);
    assert(calls.take(tools.len() as int) =~= calls);
    reveal_strlit("{\"calls\":[");
    reveal_strlit("]}");
    let (open, close) = ("{\"calls\":["@, "]}"@);
    lemma_ascii_len(open);
    lemma_ascii_len(close);
    lemma_utf8_concat(open, settled_calls_encoding(calls));
    lemma_utf8_concat(open + settled_calls_encoding(calls), close);
}

proof fn lemma_decision_is_observed(repetitions: u8, governor: GovernorView, items: Seq<Item>, tools: Seq<SettledTool>)
    requires
        decision_is_recorded(items, tools),
        governor.pending is None,
    ensures
        ({
            let (state, fault) = replay(repetitions, governor, items);
            &&& is_digestible(tools) && digests_are_full() ==> fault is None
            &&& fault is None ==> state == (GovernorView {
                pending: None,
                failed: if all_succeeded(tools) {
                    Seq::empty()
                } else {
                    newest(governor.failed.push(decision_digest(tools)), retained(repetitions))
                },
            })
        }),
{
    let size = tools.len() as int;
    let at = size - 1;
    lemma_results_are_observed(repetitions, governor, items, tools, at);
    assert(items.take(2 * size) =~= items);
    assert(items.drop_last() =~= items.take(size + at));
    assert(items.last() == items[size + at]);
    assert(result_is_recorded(items[size + at], tools[at]));
    lemma_result_size(tools[at].is_error, tools[at].output);
    lemma_call_is_found(tools, at, 0);
    let before = partly_settled(tools, at);
    let after = partly_settled(tools, size);
    assert(before[at] == proposed(tools[at]));
    assert(before.update(at, observed(tools[at])) =~= after);
    assert forall|k: int| 0 <= k < after.len() implies (#[trigger] after[k]).result is Some by {
        assert(after[k] == observed(tools[k]));
    }
    if all_succeeded(tools) {
        assert forall|k: int| 0 <= k < after.len() implies (#[trigger] after[k]).is_error == Some(false) by {
            assert(!tools[k].is_error);
        }
    } else {
        let k = choose|k: int| 0 <= k < tools.len() && (#[trigger] tools[k]).is_error;
        assert(after[k].is_error == Some(true));
    }
    if is_digestible(tools) && digests_are_full() {
        lemma_cycle_size(tools);
    }
}

spec fn digests(decisions: Seq<Seq<SettledTool>>) -> Seq<Seq<char>> {
    Seq::new(decisions.len(), |i: int| decision_digest(decisions[i]))
}

proof fn lemma_newest_push(history: Seq<Seq<char>>, digest: Seq<char>, most: nat)
    ensures
        newest(newest(history, most).push(digest), most) == newest(history.push(digest), most),
{
    assert(newest(newest(history, most).push(digest), most) =~= newest(history.push(digest), most));
}

proof fn lemma_decisions_are_observed(repetitions: u8, items: Seq<Item>, decisions: Seq<Seq<SettledTool>>)
    requires
        decisions_are_recorded(items, decisions),
    ensures
        ({
            let (state, fault) = replay(repetitions, GovernorView { pending: None, failed: Seq::empty() }, items);
            &&& (forall|i: int| 0 <= i < decisions.len() ==> is_digestible(#[trigger] decisions[i])) && digests_are_full()
                ==> fault is None
            &&& fault is None ==> state.pending is None && state.failed == newest(
                digests(failures(decisions)),
                retained(repetitions),
            )
        }),
    decreases decisions.len(),
{
    let start = GovernorView { pending: None, failed: Seq::empty() };
    if decisions.len() == 0 {
        assert(digests(failures(decisions)) =~= Seq::empty());
    } else {
        let earlier = decisions.drop_last();
        let tools = decisions.last();
        let cut = items.len() - 2 * tools.len();
        let (first, second) = (items.take(cut), items.skip(cut));
        assert(first + second =~= items);
        lemma_decisions_are_observed(repetitions, first, earlier);
        law_replay_is_incremental(repetitions, start, first, second);
        let (state, fault) = replay(repetitions, start, first);
        if fault is None {
            lemma_decision_is_observed(repetitions, state, second, tools);
        }
        if forall|i: int| 0 <= i < decisions.len() ==> is_digestible(#[trigger] decisions[i]) {
            assert forall|i: int| 0 <= i < earlier.len() implies is_digestible(#[trigger] earlier[i]) by {
                assert(is_digestible(decisions[i]));
            }
            assert(is_digestible(decisions[decisions.len() - 1]));
        }
        let old_digests = digests(failures(earlier));
        lemma_newest_push(old_digests, decision_digest(tools), retained(repetitions));
        if all_succeeded(tools) {
            assert(digests(failures(decisions)) =~= Seq::empty());
        } else {
            assert(digests(failures(decisions)) =~= old_digests.push(decision_digest(tools)));
        }
    }
}

proof fn lemma_only_tools_count(repetitions: u8, governor: GovernorView, items: Seq<Item>)
    requires
        is_undisturbed(items),
    ensures
        replay(repetitions, governor, items) == replay(repetitions, governor, tool_evidence(items)),
    decreases items.len(),
{
    if items.len() > 0 {
        let shorter = items.drop_last();
        assert forall|i: int| 0 <= i < shorter.len() implies !((#[trigger] shorter[i]).kind is UserMessage
            || shorter[i].kind is SteeringApplied || shorter[i].kind is AssistantMessage
            || shorter[i].kind is VerificationResult) by {
            assert(shorter[i] == items[i]);
        }
        lemma_only_tools_count(repetitions, governor, shorter);
        let last = items.last();
        assert(last == items[items.len() - 1]);
        if last.kind is ToolCall || last.kind is ToolResult {
            assert(tool_evidence(items).drop_last() =~= tool_evidence(shorter));
        }
    }
}

/// What the journal of a Turn holds besides Tool calls and their results,
/// messages, applied steering and judgements of verifiers does not count: the
/// Progress Governor comes to the same state without it.
pub proof fn law_only_tool_evidence_counts(repetitions: u8, governor: GovernorView, items: Seq<Item>)
    requires
        is_undisturbed(items),
    ensures
        replay(repetitions, governor, items) == replay(repetitions, governor, tool_evidence(items)),
{
    lemma_only_tools_count(repetitions, governor, items);
}

/// Decisions recorded in order are observed without a fault, where they are
/// small enough: at most 87 calls, each with a bounded proposal and a bounded
/// result.
pub proof fn law_recorded_decisions_are_observed(repetitions: u8, items: Seq<Item>, decisions: Seq<Seq<SettledTool>>)
    requires
        is_undisturbed(items),
        decisions_are_recorded(tool_evidence(items), decisions),
        forall|i: int| 0 <= i < decisions.len() ==> is_digestible(#[trigger] decisions[i]),
        digests_are_full(),
    ensures
        ({
            let (state, fault) = replay(repetitions, GovernorView { pending: None, failed: Seq::empty() }, items);
            fault is None && state.pending is None
        }),
{
    lemma_only_tools_count(repetitions, GovernorView { pending: None, failed: Seq::empty() }, items);
    lemma_decisions_are_observed(repetitions, tool_evidence(items), decisions);
}

proof fn lemma_same_decision(a: Seq<SettledTool>, b: Seq<SettledTool>)
    ensures
        same_decision(a, b) ==> decision_digest(a) == decision_digest(b),
        decision_digest(a) == decision_digest(b) ==> same_decision(a, b) || sha256_collides(),
{
    let (x, y) = (partly_settled(a, a.len() as int), partly_settled(b, b.len() as int));
    if same_decision(a, b) {
        assert forall|k: int| 0 <= k < x.len() implies (#[trigger] x[k]).proposal == y[k].proposal && x[k].result
            == y[k].result && x[k].is_error == y[k].is_error by {
            assert(a[k].name == b[k].name);
        }
        law_identities_do_not_hide_a_cycle(x, y);
    }
    if decision_digest(a) == decision_digest(b) && !sha256_collides() {
        lemma_same_digest(cycle_encoding(x), cycle_encoding(y));
        law_encoded_cycles_are_told_apart(x, y);
        assert forall|k: int| 0 <= k < a.len() implies (#[trigger] a[k]).name == b[k].name && a[k].input == b[k].input
            && a[k].output == b[k].output && a[k].is_error == b[k].is_error by {
            assert(x[k].proposal == y[k].proposal && x[k].result == y[k].result);
            lemma_same_digest(proposal_encoding(a[k].name, a[k].input), proposal_encoding(b[k].name, b[k].input));
            law_encoded_proposals_are_told_apart(a[k].name, a[k].input, b[k].name, b[k].input);
            lemma_same_digest(
                observation_encoding(a[k].is_error, a[k].output),
                observation_encoding(b[k].is_error, b[k].output),
            );
            law_encoded_results_are_told_apart(a[k].is_error, a[k].output, b[k].is_error, b[k].output);
        }
    }
}

/// Whether every entry from `from` on equals the one a period earlier.
spec fn steps_back(history: Seq<Seq<char>>, from: int, period: int) -> bool {
    forall|i: int| from + period <= i < history.len() ==> #[trigger] history[i] == history[i - period]
}

proof fn lemma_step_offset(distance: int, period: int)
    requires
        1 <= period <= distance,
    ensures
        0 <= distance % period < period,
        (distance - period) % period == distance % period,
        distance < 2 * period ==> distance % period == distance - period,
{
    vstd::arithmetic::div_mod::lemma_mod_bound(distance, period);
    vstd::arithmetic::div_mod::lemma_mod_sub_multiples_vanish(distance, period);
    if distance < 2 * period {
        vstd::arithmetic::div_mod::lemma_small_mod((distance - period) as nat, period as nat);
    }
}

proof fn lemma_steps_reach_the_start(history: Seq<Seq<char>>, start: int, period: int, i: int)
    requires
        0 <= start,
        1 <= period,
        start + period <= i < history.len(),
        steps_back(history, start, period),
    ensures
        history[i] == history[start + (i - start) % period],
    decreases i,
{
    lemma_step_offset(i - start, period);
    assert(history[i] == history[i - period]);
    if i - period >= start + period {
        lemma_steps_reach_the_start(history, start, period, i - period);
    }
}

proof fn lemma_repeats_steps_back(history: Seq<Seq<char>>, period: int, times: int)
    requires
        1 <= period,
        0 <= times,
    ensures
        repeats(history, period, times) == (history.len() - period * times >= 0 && steps_back(
            history,
            history.len() - period * times,
            period,
        )),
{
    let start = history.len() - period * times;
    if start >= 0 {
        if repeats(history, period, times) {
            assert forall|i: int| start + period <= i < history.len() implies #[trigger] history[i] == history[i - period] by {
                lemma_step_offset(i - start, period);
                assert(history[i] == history[start + (i - start) % period]);
                if i - period >= start + period {
                    assert(history[i - period] == history[start + (i - period - start) % period]);
                }
            }
        }
        if steps_back(history, start, period) {
            assert forall|i: int| start + period <= i < history.len() implies #[trigger] history[i] == history[start + (i
                - start) % period] by {
                lemma_steps_reach_the_start(history, start, period, i);
            }
        }
    }
}

proof fn lemma_repeats_decisions(decisions: Seq<Seq<SettledTool>>, period: int, times: int)
    requires
        1 <= period,
        0 <= times,
    ensures
        decisions_repeat(decisions, period, times) ==> repeats(digests(decisions), period, times),
        repeats(digests(decisions), period, times) ==> decisions_repeat(decisions, period, times) || sha256_collides(),
{
    let history = digests(decisions);
    let start = decisions.len() - period * times;
    lemma_repeats_steps_back(history, period, times);
    if decisions_repeat(decisions, period, times) {
        assert forall|i: int| start + period <= i < history.len() implies #[trigger] history[i] == history[i - period] by {
            assert(same_decision(decisions[i], decisions[i - period]));
            lemma_same_decision(decisions[i], decisions[i - period]);
        }
    }
    if repeats(history, period, times) && !sha256_collides() {
        assert(start >= 0);
        assert forall|i: int| start + period <= i < decisions.len() implies same_decision(
            #[trigger] decisions[i],
            decisions[i - period],
        ) by {
            assert(i >= period) by (nonlinear_arith)
                requires
                    start + period <= i,
                    start >= 0,
            ;
            assert(history[i] == history[i - period]);
            lemma_same_decision(decisions[i], decisions[i - period]);
        }
    }
}

proof fn lemma_smallest(history: Seq<Seq<char>>, from: int, times: int)
    requires
        1 <= from,
    ensures
        match smallest_period(history, from, times) {
            Some(period) => from <= period <= 4 && repeats(history, period, times) && forall|other: int|
                from <= other < period ==> !#[trigger] repeats(history, other, times),
            None => forall|other: int| from <= other <= 4 ==> !#[trigger] repeats(history, other, times),
        },
    decreases 5 - from,
{
    if from <= 4 {
        lemma_smallest(history, from + 1, times);
    }
}

/// A loop is stopped over its own repetition and nothing else. Behind a journal
/// that records decisions, `Stop` says that the last `cycle_period *
/// repetitions` decisions since the last wholly successful one repeat the same
/// names, inputs, outputs and error marks with that period, up to a collision
/// of SHA-256. And wherever the decisions so repeat themselves with a period of
/// at most four, the loop is stopped, with no larger a period.
pub proof fn law_stop_repeats_the_same_decisions(repetitions: u8, items: Seq<Item>, decisions: Seq<Seq<SettledTool>>)
    requires
        2 <= repetitions <= 16,
        is_undisturbed(items),
        decisions_are_recorded(tool_evidence(items), decisions),
        replay(repetitions, GovernorView { pending: None, failed: Seq::empty() }, items).1 is None,
    ensures
        ({
            let state = replay(repetitions, GovernorView { pending: None, failed: Seq::empty() }, items).0;
            let judged = verdict(state.failed, repetitions);
            &&& judged matches ProgressVerdict::Stop { cycle_period, repetitions: times } ==> {
                &&& times == repetitions
                &&& 1 <= cycle_period <= 4
                &&& decisions_repeat(failures(decisions), cycle_period as int, times as int) || sha256_collides()
            }
            &&& forall|period: int|
                1 <= period <= 4 && #[trigger] decisions_repeat(failures(decisions), period, repetitions as int)
                    ==> judged is Stop && judged->cycle_period <= period
        }),
{
    let start = GovernorView { pending: None, failed: Seq::empty() };
    lemma_only_tools_count(repetitions, start, items);
    lemma_decisions_are_observed(repetitions, tool_evidence(items), decisions);
    let recent = failures(decisions);
    let history = digests(recent);
    law_retained_history_decides(history, repetitions);
    lemma_smallest(history, 1, repetitions as int);
    match smallest_period(history, 1, repetitions as int) {
        Some(period) => {
            lemma_repeats_decisions(recent, period, repetitions as int);
        },
        None => {},
    }
    assert forall|period: int| 1 <= period <= 4 && #[trigger] decisions_repeat(recent, period, repetitions as int) implies verdict(
        history,
        repetitions,
    ) is Stop && verdict(history, repetitions)->cycle_period <= period by {
        lemma_repeats_decisions(recent, period, repetitions as int);
        assert(repeats(history, period, repetitions as int));
    }
}

/// Evidence that does not fit is a fault: an open decision takes on only the
/// next member of its own batch and the missing results of its calls, and
/// where no decision is open there is no result and no later member of a batch.
pub proof fn law_open_decisions_are_not_split(repetitions: u8, governor: GovernorView, item: Item)
    requires
        observe(repetitions, governor, item).1 is None,
    ensures
        match item.kind {
            ItemKind::UserMessage { .. } | ItemKind::SteeringApplied { .. } | ItemKind::AssistantMessage { .. }
            | ItemKind::VerificationResult { .. } => governor.pending is None,
            ItemKind::ToolCall { batch: None, .. } => governor.pending is None,
            ItemKind::ToolCall { batch: Some(batch), .. } => if batch.index == 0 {
                governor.pending is None
            } else {
                governor.pending matches Some(cycle) && cycle.batch_id == Some(batch.id@) && cycle.calls.len() == batch.index
                    && cycle.expected == batch.size
            },
            ItemKind::ToolResult { call_id, .. } => governor.pending matches Some(cycle) && exists|k: int|
                0 <= k < cycle.calls.len() && (#[trigger] cycle.calls[k]).call_id == call_id@ && cycle.calls[k].result is None,
            _ => observe(repetitions, governor, item).0 == governor,
        },
{
    match item.kind {
        ItemKind::ToolResult { call_id, .. } => {
            match governor.pending {
                Some(cycle) => {
                    lemma_found_call(cycle.calls, call_id@, 0);
                },
                None => {},
            }
        },
        _ => {},
    }
}

proof fn lemma_found_call(calls: Seq<CallView>, call_id: Seq<char>, from: int)
    requires
        0 <= from,
    ensures
        call_position(calls, call_id, from) matches Some(at) ==> from <= at < calls.len() && calls[at].call_id == call_id,
    decreases calls.len() - from,
{
    if from < calls.len() {
        lemma_found_call(calls, call_id, from + 1);
    }
}

} // verus!
