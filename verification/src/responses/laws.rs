//! What holds of every conversion between Responses and Chat Completions.
use vstd::prelude::*;
use vstd::string::*;

use crate::chat::{calls_in, message, tool_call, tool_message};
use crate::folds::{joined, lemma_joined_append, lemma_joined_contains, lemma_joined_singles, pick};
use crate::json::{either, field, list_field, text_field, text_or_empty, Json};
use crate::responses::input::{
    answer_id, answered, blank_calls, block_text, call_id, calling_message, final_id,
    input_messages, is_call, is_output, item_messages, item_runs, item_text, resolved,
};
use crate::responses::request::{
    function_of, function_tools, instructions, nested_function, object_schema, request_messages,
};
use crate::responses::response::{
    call_item, call_items, completion, message_item, output_items, responses_response, IdTexts,
};

verus! {

// ---------------------------------------------------------------------------
// Requests
// ---------------------------------------------------------------------------

/// Whether one of the messages is the answer of a tool to the call of this id.
pub open spec fn has_answer(messages: Seq<Json>, id: Seq<char>) -> bool {
    exists|content: Seq<char>| messages.contains(#[trigger] tool_message(id, content))
}

/// Whether one of the items is an output that has this id in the chat messages.
pub open spec fn has_output(items: Seq<Json>, id: Seq<char>) -> bool {
    exists|i: int|
        0 <= i < items.len() && is_output(#[trigger] items[i]) && final_id(items, items[i]) == id
}

/// Whether an id only seems answered: an output without an id counted as its answer when it came,
/// a later call without an id then took that output over, and no other output has the id.
pub open spec fn answer_taken_over(items: Seq<Json>, id: Seq<char>) -> bool {
    &&& exists|i: int|
        0 <= i < items.len() && is_output(#[trigger] items[i]) && call_id(items[i]).len() == 0
            && answer_id(items, i) == id
    &&& id != resolved(Seq::empty(), blank_calls(items))
    &&& !has_output(items, id)
}

/// Every function call is answered: the chat messages hold a tool message with the id that its
/// tool call has, unless its answer was taken over by a later call.
pub proof fn lemma_every_call_answered(items: Seq<Json>, i: int)
    requires
        0 <= i < items.len(),
        is_call(items[i]),
        !answer_taken_over(items, final_id(items, items[i])),
    ensures
        has_answer(input_messages(Json::List(items)), final_id(items, items[i])),
{
    let id = final_id(items, items[i]);
    let runs = item_runs(items);
    if answered(items, id) {
        let k = choose|k: int|
            0 <= k < items.len() && is_output(#[trigger] items[k]) && answer_id(items, k) == id;
        if call_id(items[k]).len() > 0 {
            assert(final_id(items, items[k]) == id);
        } else {
            assert(call_id(items[k]) =~= Seq::<char>::empty());
            if call_id(items[i]).len() == 0 {
                assert(call_id(items[i]) =~= Seq::<char>::empty());
            }
        }
        assert(has_output(items, id));
        let k = choose|k: int|
            0 <= k < items.len() && is_output(#[trigger] items[k]) && final_id(items, items[k])
                == id;
        let answer = tool_message(id, text_or_empty(items[k], "output"@));
        assert(runs[k] == seq![answer]);
        assert(runs[k][0] == answer);
        lemma_joined_contains(runs, k, answer);
    } else {
        let answer = tool_message(id, Seq::empty());
        assert(runs[i][1] == answer);
        lemma_joined_contains(runs, i, answer);
    }
}

/// Instructions come first, as a system message.
pub proof fn lemma_instructions_first(body: Json)
    ensures
        request_messages(body).take(instructions(body).len() as int) == instructions(body),
        instructions(body).len() <= 1,
{
    assert(request_messages(body).take(instructions(body).len() as int) =~= instructions(body));
}

/// The schema of a function's parameters is always a record that names a type.
pub proof fn lemma_schema_has_type(parameters: Option<Json>)
    ensures
        field(object_schema(parameters), "type"@) is Some,
{
}

/// Whether a tool is a function tool with its function nested.
pub open spec fn is_nested_function(tool: Json) -> bool {
    text_field(tool, "type"@) == Some("function"@) && field(tool, "function"@) is Some
}

proof fn lemma_nested(tool: Json)
    ensures
        nested_function(tool) matches Some(nested) ==> is_nested_function(nested),
{
    reveal_strlit("type");
    reveal_strlit("function");
    assert("type"@.len() == 4 && "function"@.len() == 8);
}

proof fn lemma_picked_nested(tools: Seq<Json>)
    ensures
        forall|i: int|
            0 <= i < pick(tools, function_of()).len() ==> is_nested_function(
                #[trigger] pick(tools, function_of())[i],
            ),
    decreases tools.len(),
{
    if tools.len() > 0 {
        lemma_picked_nested(tools.drop_last());
        lemma_nested(tools.last());
        let before = pick(tools.drop_last(), function_of());
        let after = pick(tools, function_of());
        assert forall|i: int| 0 <= i < after.len() implies is_nested_function(#[trigger] after[i]) by {
            if i < before.len() {
                assert(after[i] == before[i]);
            }
        }
    }
}

/// Only function tools go on, each with its function nested; a tool that the provider has built
/// in never does.
pub proof fn lemma_function_tools_only(body: Json, i: int)
    ensures
        function_tools(body) matches Some(Json::List(tools)) ==> tools.len() > 0 && (0 <= i
            < tools.len() ==> is_nested_function(tools[i])),
{
    if list_field(body, "tools"@) is Some {
        lemma_picked_nested(list_field(body, "tools"@)->Some_0);
    }
}

/// A tool that has been nested stays as it is: nesting it again changes nothing.
pub proof fn lemma_nesting_is_stable(tool: Json)
    ensures
        nested_function(tool) matches Some(nested) ==> nested_function(nested) == Some(nested),
{
    lemma_nested(tool);
}

/// Whether an item neither calls a function nor answers a call.
pub open spec fn is_plain_item(item: Json) -> bool {
    !is_call(item) && !is_output(item)
}

/// Whether what becomes of the calls and the outputs in a part is the same within the whole: they
/// keep their ids there, and the same calls are answered.
pub open spec fn stands_alone(part: Seq<Json>, whole: Seq<Json>) -> bool {
    forall|i: int|
        0 <= i < part.len() && !is_plain_item(#[trigger] part[i]) ==> {
            let id = final_id(part, part[i]);
            &&& final_id(whole, part[i]) == id
            &&& is_call(part[i]) ==> answered(whole, id) == answered(part, id)
        }
}

/// An input converts part by part, where the calls and outputs of each part stand alone.
pub proof fn lemma_input_by_parts(first: Seq<Json>, second: Seq<Json>)
    requires
        stands_alone(first, first + second),
        stands_alone(second, first + second),
    ensures
        input_messages(Json::List(first + second)) == input_messages(Json::List(first))
            + input_messages(Json::List(second)),
{
    let whole = first + second;
    assert forall|i: int| 0 <= i < whole.len() implies item_runs(whole)[i] == (item_runs(first)
        + item_runs(second))[i] by {
        if i < first.len() {
            assert(whole[i] == first[i]);
        } else {
            assert(whole[i] == second[i - first.len()]);
        }
    }
    assert(item_runs(whole) =~= item_runs(first) + item_runs(second));
    lemma_joined_append(item_runs(first), item_runs(second));
}

proof fn lemma_blank_calls_append(first: Seq<Json>, second: Seq<Json>)
    ensures
        blank_calls(first + second) == blank_calls(first) + blank_calls(second),
    decreases second.len(),
{
    if second.len() == 0 {
        assert(first + second =~= first);
    } else {
        lemma_blank_calls_append(first, second.drop_last());
        assert((first + second).drop_last() =~= first + second.drop_last());
    }
}

proof fn lemma_no_blank_calls(items: Seq<Json>)
    requires
        forall|i: int| 0 <= i < items.len() ==> is_plain_item(#[trigger] items[i]),
    ensures
        blank_calls(items) == 0,
    decreases items.len(),
{
    if items.len() > 0 {
        let shorter = items.drop_last();
        assert forall|i: int| 0 <= i < shorter.len() implies is_plain_item(#[trigger] shorter[i]) by {
            assert(shorter[i] == items[i]);
        }
        lemma_no_blank_calls(shorter);
        assert(is_plain_item(items[items.len() - 1]));
    }
}

/// Plain items may stand before or after anything: an input converts part by part where one of
/// the two parts neither calls a function nor answers a call.
pub proof fn lemma_plain_items_apart(first: Seq<Json>, second: Seq<Json>)
    requires
        (forall|i: int| 0 <= i < first.len() ==> is_plain_item(#[trigger] first[i])) || (forall|
            i: int,
        | 0 <= i < second.len() ==> is_plain_item(#[trigger] second[i])),
    ensures
        input_messages(Json::List(first + second)) == input_messages(Json::List(first))
            + input_messages(Json::List(second)),
{
    let whole = first + second;
    lemma_blank_calls_append(first, second);
    if forall|i: int| 0 <= i < second.len() ==> is_plain_item(#[trigger] second[i]) {
        lemma_no_blank_calls(second);
        assert forall|id: Seq<char>| answered(whole, id) == answered(first, id) by {
            if answered(whole, id) {
                let k = choose|k: int|
                    0 <= k < whole.len() && is_output(#[trigger] whole[k]) && answer_id(whole, k)
                        == id;
                if k >= first.len() {
                    assert(is_plain_item(second[k - first.len()]));
                }
                assert(whole.take(k) =~= first.take(k));
                assert(is_output(first[k]) && answer_id(first, k) == id);
            }
            if answered(first, id) {
                let k = choose|k: int|
                    0 <= k < first.len() && is_output(#[trigger] first[k]) && answer_id(first, k)
                        == id;
                assert(whole.take(k) =~= first.take(k));
                assert(is_output(whole[k]) && answer_id(whole, k) == id);
            }
        }
    } else {
        lemma_no_blank_calls(first);
        assert forall|id: Seq<char>| answered(whole, id) == answered(second, id) by {
            if answered(whole, id) {
                let k = choose|k: int|
                    0 <= k < whole.len() && is_output(#[trigger] whole[k]) && answer_id(whole, k)
                        == id;
                if k < first.len() {
                    assert(is_plain_item(first[k]));
                }
                let j = k - first.len();
                assert(whole.take(k) =~= first + second.take(j));
                lemma_blank_calls_append(first, second.take(j));
                assert(is_output(second[j]) && answer_id(second, j) == id);
            }
            if answered(second, id) {
                let j = choose|j: int|
                    0 <= j < second.len() && is_output(#[trigger] second[j]) && answer_id(second, j)
                        == id;
                let k = first.len() + j;
                assert(whole.take(k) =~= first + second.take(j));
                lemma_blank_calls_append(first, second.take(j));
                assert(is_output(whole[k]) && answer_id(whole, k) == id);
            }
        }
    }
    lemma_input_by_parts(first, second);
}

/// Whether a message is a chat message of some role with a text. `developer` is no role of a chat
/// message.
pub open spec fn is_chat_message(msg: Json) -> bool {
    exists|role: Seq<char>, text: Seq<char>|
        role != "developer"@ && msg == #[trigger] message(role, Json::Text(text))
}

/// Chat messages stay as they are: an input of plain chat messages converts to those messages, the
/// first time and every time after.
pub proof fn lemma_chat_messages_unchanged(messages: Seq<Json>)
    requires
        forall|i: int| 0 <= i < messages.len() ==> is_chat_message(#[trigger] messages[i]),
    ensures
        input_messages(Json::List(messages)) == messages,
{
    let singles = messages.map_values(|msg: Json| seq![msg]);
    reveal_strlit("role");
    reveal_strlit("content");
    reveal_strlit("type");
    reveal_strlit("function_call");
    reveal_strlit("function_call_output");
    assert("role"@.len() == 4 && "role"@[0] == 'r' && "content"@.len() == 7);
    assert("type"@.len() == 4 && "type"@[0] == 't');
    assert("function_call"@.len() == 13 && "function_call_output"@.len() == 20);
    assert forall|i: int| 0 <= i < messages.len() implies item_runs(messages)[i] == #[trigger] singles[i] by {
        let msg = messages[i];
        assert(is_chat_message(msg));
        let (role, text) = choose|role: Seq<char>, text: Seq<char>|
            role != "developer"@ && msg == #[trigger] message(role, Json::Text(text));
        assert(field(msg, "role"@) == Some(Json::Text(role)));
        assert(field(msg, "content"@) == Some(Json::Text(text)));
        assert(field(msg, "type"@) is None);
        assert(item_messages(messages, msg) =~= seq![msg]);
    }
    assert(item_runs(messages) =~= singles);
    lemma_joined_singles(messages);
}

// ---------------------------------------------------------------------------
// Responses
// ---------------------------------------------------------------------------

/// A response is never without an output item, and its function calls come first, one for each
/// tool call, with the call's own id.
pub proof fn lemma_output(message: Json, ids: IdTexts, i: int)
    requires
        ids.calls.len() == calls_in(message).len(),
    ensures
        output_items(message, ids).len() > 0,
        0 <= i < calls_in(message).len() ==> text_field(output_items(message, ids)[i], "call_id"@)
            == Some(text_or_empty(calls_in(message)[i], "id"@)),
{
    reveal_strlit("call_id");
    reveal_strlit("name");
    reveal_strlit("arguments");
    reveal_strlit("status");
    assert("call_id"@.len() == 7 && "name"@.len() == 4 && "arguments"@.len() == 9
        && "status"@.len() == 6);
    if 0 <= i < calls_in(message).len() {
        assert(output_items(message, ids)[i] == call_items(calls_in(message), ids.calls)[i]);
    }
}

/// A fresh id only stands in for the response's where the chat response has none.
pub proof fn lemma_own_id_kept(
    resp: Json,
    model: Seq<char>,
    ids: IdTexts,
    other: Seq<char>,
    now: int,
)
    requires
        field(resp, "id"@) is Some,
    ensures
        responses_response(resp, model, ids, now) == responses_response(
            resp,
            model,
            IdTexts { response: other, ..ids },
            now,
        ),
{
    let changed = IdTexts { response: other, ..ids };
    assert(output_items(completion(resp), ids) == output_items(completion(resp), changed));
}

/// The chat messages for a tool call of a response: the call, under the id that it has among the
/// items, and an empty answer.
pub open spec fn call_again(items: Seq<Json>, call: Json) -> Seq<Json> {
    let function = either(field(call, "function"@), Json::Null);
    let id = resolved(text_or_empty(call, "id"@), blank_calls(items));
    seq![
        calling_message(
            tool_call(
                id,
                text_or_empty(function, "name"@),
                text_or_empty(function, "arguments"@),
            ),
        ),
        tool_message(id, Seq::empty()),
    ]
}

/// The chat messages for the tool calls of a response.
pub open spec fn calls_again(items: Seq<Json>, calls: Seq<Json>) -> Seq<Seq<Json>> {
    Seq::new(calls.len(), |i: int| call_again(items, calls[i]))
}

proof fn lemma_call_item_members(call: Json, id: Seq<char>)
    ensures
        is_call(call_item(call, id)),
        call_id(call_item(call, id)) == text_or_empty(call, "id"@),
        text_or_empty(call_item(call, id), "name"@) == text_or_empty(
            either(field(call, "function"@), Json::Null),
            "name"@,
        ),
        text_or_empty(call_item(call, id), "arguments"@) == text_or_empty(
            either(field(call, "function"@), Json::Null),
            "arguments"@,
        ),
{
    reveal_strlit("type");
    reveal_strlit("id");
    reveal_strlit("call_id");
    reveal_strlit("name");
    reveal_strlit("arguments");
    reveal_strlit("status");
    assert("type"@.len() == 4 && "type"@[0] == 't' && "id"@.len() == 2 && "call_id"@.len() == 7);
    assert("name"@.len() == 4 && "name"@[0] == 'n' && "arguments"@.len() == 9);
    assert("status"@.len() == 6);
}

proof fn lemma_message_item_members(id: Seq<char>, text: Seq<char>, items: Seq<Json>)
    ensures
        is_plain_item(message_item(id, text)),
        item_messages(items, message_item(id, text)) == seq![
            message("assistant"@, Json::Text(text)),
        ],
{
    reveal_strlit("type");
    reveal_strlit("id");
    reveal_strlit("role");
    reveal_strlit("content");
    reveal_strlit("status");
    reveal_strlit("text");
    reveal_strlit("message");
    reveal_strlit("function_call");
    reveal_strlit("function_call_output");
    reveal_strlit("developer");
    reveal_strlit("assistant");
    assert("type"@.len() == 4 && "type"@[0] == 't' && "id"@.len() == 2);
    assert("type"@[1] == 'y' && "text"@.len() == 4 && "text"@[1] == 'e');
    assert("role"@.len() == 4 && "role"@[0] == 'r' && "content"@.len() == 7);
    assert("status"@.len() == 6 && "message"@.len() == 7);
    assert("function_call"@.len() == 13 && "function_call_output"@.len() == 20);
    assert("developer"@.len() == 9 && "developer"@[0] == 'd');
    assert("assistant"@.len() == 9 && "assistant"@[0] == 'a');
    let item = message_item(id, text);
    let part = Json::Record(
        map!["type"@ => Json::Text("output_text"@), "text"@ => Json::Text(text)],
    );
    assert(field(item, "type"@) == Some(Json::Text("message"@)));
    assert(field(item, "role"@) == Some(Json::Text("assistant"@)));
    assert(list_field(item, "content"@) == Some(seq![part]));
    assert(text_field(part, "text"@) == Some(text));
    let blocks = seq![part];
    reveal_with_fuel(pick, 2);
    reveal_with_fuel(joined, 2);
    assert(blocks.drop_last() =~= Seq::<Json>::empty());
    assert(pick(blocks, block_text()) =~= seq![text]);
    assert(seq![text].drop_last() =~= Seq::<Seq<char>>::empty());
    assert(Seq::<char>::empty() + text =~= text);
    assert(item_text(item) == text);
}

/// The output of a response converts back to the chat messages that it says: each tool call with
/// its id, name and arguments, and then the text as an assistant message. The calls are answered
/// by empty tool messages, since a response holds no outputs.
pub proof fn lemma_output_converts_back(reply: Json, ids: IdTexts)
    requires
        ids.calls.len() == calls_in(reply).len(),
    ensures
        ({
            let items = output_items(reply, ids);
            let text = text_or_empty(reply, "content"@);
            let calls = joined(calls_again(items, calls_in(reply)));
            input_messages(Json::List(items)) == if text.len() > 0 || calls_in(reply).len() == 0 {
                calls.push(message("assistant"@, Json::Text(text)))
            } else {
                calls
            }
        }),
{
    let items = output_items(reply, ids);
    let text = text_or_empty(reply, "content"@);
    let made = calls_in(reply);
    let again = calls_again(items, made);
    let runs = item_runs(items);
    assert forall|i: int| 0 <= i < items.len() implies !is_output(#[trigger] items[i]) by {
        if i < made.len() {
            assert(items[i] == call_item(made[i], ids.calls[i]));
            lemma_call_item_members(made[i], ids.calls[i]);
        } else {
            lemma_message_item_members(ids.message, text, items);
        }
    }
    assert(forall|id: Seq<char>| !answered(items, id));
    assert forall|i: int| 0 <= i < made.len() implies runs[i] == again[i] by {
        assert(items[i] == call_item(made[i], ids.calls[i]));
        lemma_call_item_members(made[i], ids.calls[i]);
    }
    if text.len() > 0 || made.len() == 0 {
        lemma_message_item_members(ids.message, text, items);
        let last = seq![message("assistant"@, Json::Text(text))];
        assert(items[made.len() as int] == message_item(ids.message, text));
        assert(runs =~= again.push(last));
        assert(runs.drop_last() =~= again);
        assert(joined(again) + last =~= joined(again).push(last[0]));
    } else {
        assert(runs =~= again);
    }
}

} // verus!
