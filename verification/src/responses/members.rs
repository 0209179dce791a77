//! What converted Responses requests and responses hold, member by member.
use vstd::prelude::*;
use vstd::string::*;

use crate::chat::calls_in;
use crate::folds::{joined, pick};
use crate::json::{count_in, field, list_field, text_field, text_or_empty, Json, JsonNumber};
use crate::names::lemma_names;
use crate::responses::input::{
    answer_id, answered, blank_calls, block_text, call_id, input_messages, is_output, item_messages,
    item_runs,
};
use crate::responses::request::{chat_request, function_of, has_responses_shape, nested_function};
use crate::responses::response::{
    call_item, completion, fresh_ids, may_be, output_items, responses_response, IdTexts,
};
use crate::text::decimal;

verus! {

// ---------------------------------------------------------------------------
// Requests
// ---------------------------------------------------------------------------

/// A request is for the Responses API exactly where it has an input and no messages.
pub proof fn lemma_shape(body: Json)
    ensures
        has_responses_shape(body) <==> (field(body, "input"@) is Some && !(field(body, "messages"@)
            is Some)),
{
}

/// The chat request has the model, the limit, the stream flag, the sampling and the tool choice of
/// the request: each as it is, whatever kind of value it is, and missing where it is missing. A
/// limit that is missing or no count is 4096.
pub proof fn lemma_request_members(body: Json)
    ensures
        ({
            let request = chat_request(body);
            &&& text_field(request, "model"@) == Some(text_or_empty(body, "model"@))
            &&& count_in(field(request, "max_tokens"@)) == (match count_in(
                field(body, "max_output_tokens"@),
            ) {
                Some(n) => Some(n),
                None => Some(4096),
            })
            &&& field(request, "stream"@) == Some(
                Json::Bool(field(body, "stream"@) == Some(Json::Bool(true))),
            )
            &&& field(request, "temperature"@) == field(body, "temperature"@)
            &&& field(request, "top_p"@) == field(body, "top_p"@)
            &&& field(request, "tool_choice"@) == field(body, "tool_choice"@)
        }),
{
    lemma_names();
}

/// The members that a chat request can have.
pub open spec fn is_request_member(key: Seq<char>) -> bool {
    key == "model"@ || key == "messages"@ || key == "max_tokens"@ || key == "stream"@ || key
        == "temperature"@ || key == "top_p"@ || key == "tools"@ || key == "tool_choice"@
}

/// A chat request has no members but those: what a request holds beyond them is dropped.
pub proof fn lemma_known_members_only(body: Json, key: Seq<char>)
    ensures
        field(chat_request(body), key) is Some ==> is_request_member(key),
{
}

/// The messages of a chat request are a system message with the instructions, where there are any,
/// and then those of the input.
pub proof fn lemma_request_messages(body: Json)
    ensures
        list_field(chat_request(body), "messages"@) matches Some(messages) && ({
            let instructed = text_or_empty(body, "instructions"@).len() > 0;
            let n: int = if instructed {
                1
            } else {
                0
            };
            &&& messages.len() >= n
            &&& messages.skip(n) == (match field(body, "input"@) {
                Some(input) => input_messages(input),
                None => Seq::empty(),
            })
            &&& instructed ==> text_field(messages[0], "role"@) == Some("system"@) && text_field(
                messages[0],
                "content"@,
            ) == text_field(body, "instructions"@)
        }),
{
    lemma_names();
    let messages = list_field(chat_request(body), "messages"@)->Some_0;
    let input = match field(body, "input"@) {
        Some(input) => input_messages(input),
        None => Seq::empty(),
    };
    if text_or_empty(body, "instructions"@).len() > 0 {
        assert(messages.skip(1) =~= input);
    } else {
        assert(messages.skip(0) =~= input);
    }
}

/// The function tools among some tools, in order.
pub open spec fn functions_in(tools: Seq<Json>) -> Seq<Json>
    decreases tools.len(),
{
    if tools.len() == 0 {
        Seq::empty()
    } else {
        let before = functions_in(tools.drop_last());
        if text_field(tools.last(), "type"@) == Some("function"@) {
            before.push(tools.last())
        } else {
            before
        }
    }
}

/// Whether a tool of a chat request is a function tool: the same tool where its function is
/// nested already, and else its name, description, strictness and parameters within its function.
/// The parameters are a schema of an object: the same one, with a type where it names none, or the
/// schema of an object without properties.
pub open spec fn is_same_function(nested: Json, tool: Json) -> bool {
    if field(tool, "function"@) is Some {
        nested == tool
    } else {
        &&& text_field(nested, "type"@) == Some("function"@)
        &&& field(nested, "function"@) matches Some(function) && ({
            &&& field(function, "name"@) == (match field(tool, "name"@) {
                Some(name) => Some(name),
                None => Some(Json::Null),
            })
            &&& field(function, "description"@) == field(tool, "description"@)
            &&& field(function, "strict"@) == field(tool, "strict"@)
            &&& field(function, "parameters"@) matches Some(Json::Record(schema)) && match field(
                tool,
                "parameters"@,
            ) {
                Some(Json::Record(given)) => {
                    &&& forall|key: Seq<char>|
                        given.contains_key(key) ==> #[trigger] schema.contains_key(key)
                            && schema[key] == given[key]
                    &&& forall|key: Seq<char>|
                        #[trigger] schema.contains_key(key) && key != "type"@
                            ==> given.contains_key(key)
                    &&& !given.contains_key("type"@) ==> schema.contains_key("type"@)
                        && schema["type"@] == Json::Text("object"@)
                },
                _ => {
                    &&& text_field(Json::Record(schema), "type"@) == Some("object"@)
                    &&& field(Json::Record(schema), "properties"@) == Some(
                        Json::Record(Map::empty()),
                    )
                },
            }
        })
    }
}

/// Whether tools are the function tools, one for each, in order.
pub open spec fn are_same_functions(nested: Seq<Json>, functions: Seq<Json>) -> bool {
    nested.len() == functions.len() && forall|i: int|
        0 <= i < nested.len() ==> is_same_function(#[trigger] nested[i], functions[i])
}

proof fn lemma_one_function(tool: Json)
    ensures
        nested_function(tool) is Some <==> text_field(tool, "type"@) == Some("function"@),
        nested_function(tool) matches Some(nested) ==> is_same_function(nested, tool),
{
    lemma_names();
}

proof fn lemma_functions(tools: Seq<Json>)
    ensures
        are_same_functions(pick(tools, function_of()), functions_in(tools)),
    decreases tools.len(),
{
    if tools.len() > 0 {
        lemma_functions(tools.drop_last());
        lemma_one_function(tools.last());
        let before = pick(tools.drop_last(), function_of());
        let functions = functions_in(tools.drop_last());
        if nested_function(tools.last()) is Some {
            let nested = nested_function(tools.last())->Some_0;
            assert forall|i: int| 0 <= i < before.push(nested).len() implies is_same_function(
                #[trigger] before.push(nested)[i],
                functions.push(tools.last())[i],
            ) by {
                if i < before.len() {
                    assert(is_same_function(before[i], functions[i]));
                }
            }
        }
    }
}

/// The tools of a chat request are all the function tools of the request, in order, and it has
/// none where the request has none.
pub proof fn lemma_request_tools(body: Json)
    ensures
        ({
            let functions = match field(body, "tools"@) {
                Some(Json::List(tools)) => functions_in(tools),
                _ => Seq::empty(),
            };
            if functions.len() == 0 {
                field(chat_request(body), "tools"@) is None
            } else {
                field(chat_request(body), "tools"@) matches Some(Json::List(nested))
                    && are_same_functions(nested, functions)
            }
        }),
{
    lemma_names();
    if list_field(body, "tools"@) is Some {
        lemma_functions(list_field(body, "tools"@)->Some_0);
    }
}

// ---------------------------------------------------------------------------
// Input items
// ---------------------------------------------------------------------------

/// Whether an item is of this type.
pub open spec fn is_of_type(item: Json, kind: Seq<char>) -> bool {
    field(item, "type"@) == Some(Json::Text(kind))
}

/// Whether an item has no call id that is a text with a character.
pub open spec fn lacks_id(item: Json) -> bool {
    !(field(item, "call_id"@) matches Some(Json::Text(id)) && id.len() > 0)
}

/// How many of the items are function calls that lack an id.
pub open spec fn calls_without_id(items: Seq<Json>) -> nat
    decreases items.len(),
{
    if items.len() == 0 {
        0
    } else {
        let before = calls_without_id(items.drop_last());
        if is_of_type(items.last(), "function_call"@) && lacks_id(items.last()) {
            before + 1
        } else {
            before
        }
    }
}

/// The id of an item among items: its own, or else the one that stands in after `count` calls
/// without one, where there is any.
pub open spec fn id_after(item: Json, count: nat) -> Seq<char> {
    if !lacks_id(item) {
        text_or_empty(item, "call_id"@)
    } else if count == 0 {
        Seq::empty()
    } else {
        "call_"@ + decimal((count - 1) as nat)
    }
}

/// Whether an output among the items answers the call of an id, at the point where it stands.
pub open spec fn is_answered(items: Seq<Json>, id: Seq<char>) -> bool {
    exists|k: int|
        0 <= k < items.len() && is_of_type(#[trigger] items[k], "function_call_output"@)
            && id_after(items[k], calls_without_id(items.take(k))) == id
}

/// The texts of all blocks, one after the other.
pub open spec fn texts_in(blocks: Seq<Json>) -> Seq<char>
    decreases blocks.len(),
{
    if blocks.len() == 0 {
        Seq::empty()
    } else {
        let before = texts_in(blocks.drop_last());
        match field(blocks.last(), "text"@) {
            Some(Json::Text(text)) => before + text,
            _ => before,
        }
    }
}

proof fn lemma_counts(items: Seq<Json>)
    ensures
        blank_calls(items) == calls_without_id(items),
    decreases items.len(),
{
    lemma_names();
    if items.len() > 0 {
        lemma_counts(items.drop_last());
    }
}

proof fn lemma_answers(items: Seq<Json>, id: Seq<char>)
    ensures
        answered(items, id) == is_answered(items, id),
{
    lemma_names();
    if answered(items, id) {
        let k = choose|k: int|
            0 <= k < items.len() && is_output(#[trigger] items[k]) && answer_id(items, k) == id;
        lemma_counts(items.take(k));
        if lacks_id(items[k]) {
            assert(call_id(items[k]) =~= Seq::<char>::empty());
        }
        assert(is_of_type(items[k], "function_call_output"@));
    }
    if is_answered(items, id) {
        let k = choose|k: int|
            0 <= k < items.len() && is_of_type(#[trigger] items[k], "function_call_output"@)
                && id_after(items[k], calls_without_id(items.take(k))) == id;
        lemma_counts(items.take(k));
        if lacks_id(items[k]) {
            assert(call_id(items[k]) =~= Seq::<char>::empty());
        }
        assert(is_output(items[k]) && answer_id(items, k) == id);
    }
}

proof fn lemma_texts(blocks: Seq<Json>)
    ensures
        joined(pick(blocks, block_text())) == texts_in(blocks),
    decreases blocks.len(),
{
    if blocks.len() > 0 {
        lemma_texts(blocks.drop_last());
        let before = pick(blocks.drop_last(), block_text());
        if text_field(blocks.last(), "text"@) is Some {
            let text = text_field(blocks.last(), "text"@)->Some_0;
            assert(before.push(text).drop_last() =~= before);
        }
    }
}

/// Whether a chat message of an assistant makes one tool call, for a function call item of an id.
pub open spec fn makes_call(chat: Json, id: Seq<char>, item: Json) -> bool {
    &&& text_field(chat, "role"@) == Some("assistant"@)
    &&& field(chat, "content"@) == Some(Json::Null)
    &&& field(chat, "tool_calls"@) matches Some(Json::List(calls)) && calls.len() == 1
        && text_field(calls[0], "id"@) == Some(id) && text_field(calls[0], "type"@) == Some(
        "function"@,
    ) && (field(calls[0], "function"@) matches Some(function) && text_field(function, "name"@)
        == Some(text_or_empty(item, "name"@)) && text_field(function, "arguments"@) == Some(
        text_or_empty(item, "arguments"@),
    ))
}

/// Whether a chat message is the answer of a tool.
pub open spec fn is_answer(chat: Json, id: Seq<char>, content: Seq<char>) -> bool {
    &&& text_field(chat, "role"@) == Some("tool"@)
    &&& text_field(chat, "tool_call_id"@) == Some(id)
    &&& text_field(chat, "content"@) == Some(content)
}

/// A function call becomes a tool call under its own id, or under the one that stands in for it,
/// with an empty answer where no output answers it; an output becomes the answer under its id.
pub proof fn lemma_tool_items(items: Seq<Json>, item: Json)
    ensures
        is_of_type(item, "function_call"@) ==> ({
            let id = id_after(item, calls_without_id(items));
            let chats = item_messages(items, item);
            &&& chats.len() == if is_answered(items, id) {
                1
            } else {
                2int
            }
            &&& makes_call(chats[0], id, item)
            &&& chats.len() == 2 ==> is_answer(chats[1], id, Seq::empty())
        }),
        is_of_type(item, "function_call_output"@) ==> ({
            let chats = item_messages(items, item);
            chats.len() == 1 && is_answer(
                chats[0],
                id_after(item, calls_without_id(items)),
                text_or_empty(item, "output"@),
            )
        }),
{
    lemma_names();
    lemma_counts(items);
    if lacks_id(item) {
        assert(call_id(item) =~= Seq::<char>::empty());
    }
    lemma_answers(items, id_after(item, calls_without_id(items)));
}

/// Whether a chat message has this role and this text.
pub open spec fn has_role_and_text(chat: Json, role: Seq<char>, text: Seq<char>) -> bool {
    text_field(chat, "role"@) == Some(role) && text_field(chat, "content"@) == Some(text)
}

/// An item with a role becomes a message of that role, where `developer` means `system` and a role
/// that is no text means `user`, with the texts of all its blocks or with its text. Without a role
/// an item with a text, or one that is a text, is the user's; any other item says nothing.
pub proof fn lemma_plain_items(items: Seq<Json>, item: Json)
    requires
        !is_of_type(item, "function_call"@),
        !is_of_type(item, "function_call_output"@),
    ensures
        ({
            let chats = item_messages(items, item);
            if field(item, "role"@) is Some {
                let role = text_field(item, "role"@);
                &&& chats.len() == 1
                &&& has_role_and_text(
                    chats[0],
                    if role is None {
                        "user"@
                    } else if role == Some("developer"@) {
                        "system"@
                    } else {
                        role->Some_0
                    },
                    match field(item, "content"@) {
                        Some(Json::List(blocks)) => texts_in(blocks),
                        Some(Json::Text(text)) => text,
                        _ => Seq::empty(),
                    },
                )
            } else if field(item, "text"@) is Some {
                chats.len() == 1 && has_role_and_text(
                    chats[0],
                    "user"@,
                    text_or_empty(item, "text"@),
                )
            } else if item is Text {
                chats.len() == 1 && has_role_and_text(chats[0], "user"@, item->Text_0)
            } else {
                chats.len() == 0
            }
        }),
{
    lemma_names();
    if list_field(item, "content"@) is Some {
        lemma_texts(list_field(item, "content"@)->Some_0);
    }
}

/// The messages of an input are those of its items, one after the other, none left out; a text is
/// one message of the user, and anything else says nothing.
pub proof fn lemma_input_says(input: Json)
    ensures
        input matches Json::List(items) ==> input_messages(input) == joined(
            Seq::new(items.len(), |i: int| item_messages(items, items[i])),
        ),
        input matches Json::Text(text) ==> input_messages(input).len() == 1 && has_role_and_text(
            input_messages(input)[0],
            "user"@,
            text,
        ),
        !(input is List) && !(input is Text) ==> input_messages(input).len() == 0,
{
    lemma_names();
    if input is List {
        let items = input->List_0;
        assert(item_runs(items) =~= Seq::new(items.len(), |i: int| item_messages(items, items[i])));
    }
}

// ---------------------------------------------------------------------------
// Responses
// ---------------------------------------------------------------------------

/// The first choice of a chat response.
pub open spec fn choice_of(resp: Json) -> Json {
    match field(resp, "choices"@) {
        Some(Json::List(choices)) => if choices.len() > 0 {
            choices[0]
        } else {
            Json::Null
        },
        _ => Json::Null,
    }
}

/// The message of the first choice.
pub open spec fn reply_of(resp: Json) -> Json {
    match field(choice_of(resp), "message"@) {
        Some(reply) => reply,
        None => Json::Null,
    }
}

/// The tool calls of a reply.
pub open spec fn calls_of(reply: Json) -> Seq<Json> {
    match field(reply, "tool_calls"@) {
        Some(Json::List(calls)) => calls,
        _ => Seq::empty(),
    }
}

/// A token count of a chat response, or 0.
pub open spec fn tokens_of(resp: Json, key: Seq<char>) -> int {
    match field(resp, "usage"@) {
        Some(usage) => match count_in(field(usage, key)) {
            Some(n) => n as int,
            None => 0,
        },
        None => 0,
    }
}

/// Whether an integer stands under a member.
pub open spec fn has_integer(value: Json, key: Seq<char>, n: int) -> bool {
    field(value, key) == Some(Json::Number(JsonNumber::Integer(n)))
}

/// Whether an output item is the function call for a tool call, under a fresh id.
pub open spec fn is_call_item(item: Json, call: Json, id: Seq<char>) -> bool {
    let function = match field(call, "function"@) {
        Some(function) => function,
        None => Json::Null,
    };
    &&& text_field(item, "type"@) == Some("function_call"@)
    &&& text_field(item, "id"@) == Some(id)
    &&& text_field(item, "call_id"@) == Some(text_or_empty(call, "id"@))
    &&& text_field(item, "name"@) == Some(text_or_empty(function, "name"@))
    &&& text_field(item, "arguments"@) == Some(text_or_empty(function, "arguments"@))
    &&& text_field(item, "status"@) == Some("completed"@)
}

/// Whether an output item is a message of the assistant with one text, under a fresh id.
pub open spec fn is_message_item(item: Json, text: Seq<char>, id: Seq<char>) -> bool {
    &&& text_field(item, "type"@) == Some("message"@)
    &&& text_field(item, "id"@) == Some(id)
    &&& text_field(item, "role"@) == Some("assistant"@)
    &&& text_field(item, "status"@) == Some("completed"@)
    &&& field(item, "content"@) matches Some(Json::List(parts)) && parts.len() == 1 && text_field(
        parts[0],
        "type"@,
    ) == Some("output_text"@) && text_field(parts[0], "text"@) == Some(text)
}

/// Whether output is what a reply says: a function call for each tool call, in order, and then the
/// text, where there is any or nothing else.
pub open spec fn says_reply(output: Seq<Json>, reply: Json, ids: IdTexts) -> bool {
    let calls = calls_of(reply);
    let text = text_or_empty(reply, "content"@);
    &&& output.len() == calls.len() + (if text.len() > 0 || calls.len() == 0 {
        1int
    } else {
        0int
    })
    &&& forall|i: int|
        0 <= i < calls.len() ==> is_call_item(output[i], #[trigger] calls[i], ids.calls[i])
    &&& output.len() > calls.len() ==> is_message_item(
        output[calls.len() as int],
        text,
        ids.message,
    )
}

/// A response names the model that it was made for, whatever the chat response names; it has the id
/// of the chat response, or else the fresh one; it says what the reply says, and its token counts,
/// with their sum, and why it finished follow the chat response.
pub proof fn lemma_response_members(resp: Json, model: Seq<char>, ids: IdTexts, now: int)
    requires
        ids.calls.len() == calls_of(reply_of(resp)).len(),
    ensures
        ({
            let response = responses_response(resp, model, ids, now);
            let prompt = tokens_of(resp, "prompt_tokens"@);
            let completed = tokens_of(resp, "completion_tokens"@);
            &&& text_field(response, "model"@) == Some(model)
            &&& field(response, "id"@) == (match field(resp, "id"@) {
                Some(id) => Some(id),
                None => Some(Json::Text(ids.response)),
            })
            &&& text_field(response, "object"@) == Some("response"@)
            &&& has_integer(response, "created_at"@, now)
            &&& text_field(response, "status"@) == Some("completed"@)
            &&& text_field(response, "finish_reason"@) == (match field(
                choice_of(resp),
                "finish_reason"@,
            ) {
                Some(Json::Text(reason)) => Some(reason),
                _ => Some("stop"@),
            })
            &&& field(response, "usage"@) matches Some(usage) && has_integer(
                usage,
                "input_tokens"@,
                prompt,
            ) && has_integer(usage, "output_tokens"@, completed) && has_integer(
                usage,
                "total_tokens"@,
                prompt + completed,
            )
            &&& list_field(response, "output"@) matches Some(output) && says_reply(
                output,
                reply_of(resp),
                ids,
            )
        }),
{
    lemma_names();
    let reply = reply_of(resp);
    let calls = calls_of(reply);
    assert(completion(resp) == reply);
    assert(calls_in(reply) == calls);
    let output = output_items(reply, ids);
    assert forall|i: int| 0 <= i < calls.len() implies is_call_item(
        output[i],
        #[trigger] calls[i],
        ids.calls[i],
    ) by {
        assert(output[i] == call_item(calls[i], ids.calls[i]));
    }
}

/// Fresh ids have their prefixes, and there is one for each tool call.
pub proof fn lemma_fresh_ids(ids: IdTexts, calls: nat, i: int)
    requires
        fresh_ids(ids, calls),
    ensures
        ids.calls.len() == calls,
        0 <= i < calls ==> "fc_"@.is_prefix_of(ids.calls[i]) && ids.calls[i].len() == 35,
        "msg_"@.is_prefix_of(ids.message) && ids.message.len() == 36,
        "resp_"@.is_prefix_of(ids.response) && ids.response.len() == 41,
{
    reveal_strlit("fc_");
    reveal_strlit("msg_");
    reveal_strlit("resp_");
    assert("fc_"@.len() == 3 && "msg_"@.len() == 4 && "resp_"@.len() == 5);
    if 0 <= i < calls {
        let text = ids.calls[i];
        assert(text.subrange(0, 3) =~= "fc_"@);
    }
    assert(ids.message.subrange(0, 4) =~= "msg_"@);
    assert(ids.response.subrange(0, 5) =~= "resp_"@);
}

/// What can come out of a chat response has the members that it should have, with a time that is
/// not negative.
pub proof fn lemma_outcome(result: Json, resp: Json, model: Seq<char>, ids: IdTexts, now: i64)
    requires
        may_be(result, resp, model, ids, now),
    ensures
        text_field(result, "model"@) == Some(model),
        now >= 0 && has_integer(result, "created_at"@, now as int),
        list_field(result, "output"@) matches Some(output) && says_reply(
            output,
            reply_of(resp),
            ids,
        ),
{
    assert(completion(resp) == reply_of(resp));
    assert(calls_in(completion(resp)) == calls_of(reply_of(resp)));
    lemma_response_members(resp, model, ids, now as int);
}

} // verus!
