//! What converted requests and responses hold, member by member.
use vstd::prelude::*;
use vstd::string::*;

use crate::anthropic::blocks::system_text;
use crate::anthropic::meaning::{all_of_kinds, has_text, lemma_system_says};
use crate::anthropic::messages::{chat_messages, message_run, run};
use crate::anthropic::request::{
    chat_request, chat_tool, reasoning_effort, stream_options, tool_choice, tool_of,
};
use crate::anthropic::response::{
    all_blocks, call_readings, messages_response, paired, reasoning, response_calls, spoken_blocks,
    text_block, thinking_block, tool_use_blocks, tool_use_of,
};
use crate::folds::{lemma_try_all_each, try_all};
use crate::json::{count_in, field, list_field, parsed, text_field, text_or_empty, Json, JsonNumber};
use crate::names::lemma_names;
use crate::text::{ascii_lower, lemma_blank_trims_away, trimmed};
use crate::thinking::level_for;

verus! {

// ---------------------------------------------------------------------------
// Requests
// ---------------------------------------------------------------------------

/// A chat request has the model, the limit, the stream flag and the sampling of the request: each
/// as it is, whatever kind of value it is, and missing where it is missing. A limit that is missing
/// or no count is 4096.
pub proof fn lemma_request_members(body: Json)
    ensures
        chat_request(body) matches Ok(request) ==> {
            &&& text_field(request, "model"@) == Some(text_or_empty(body, "model"@))
            &&& count_in(field(request, "max_tokens"@)) == (match count_in(
                field(body, "max_tokens"@),
            ) {
                Some(n) => Some(n),
                None => Some(4096),
            })
            &&& field(request, "stream"@) == Some(
                Json::Bool(field(body, "stream"@) == Some(Json::Bool(true))),
            )
            &&& field(request, "temperature"@) == field(body, "temperature"@)
            &&& field(request, "top_p"@) == field(body, "top_p"@)
            &&& field(request, "top_k"@) == field(body, "top_k"@)
            &&& field(request, "stop"@) == field(body, "stop_sequences"@)
        },
{
    lemma_names();
}

/// The messages of a chat request are those of the conversation, behind the system prompt.
pub proof fn lemma_request_messages(body: Json)
    ensures
        chat_request(body) matches Ok(request) ==> {
            let conversation = match field(body, "messages"@) {
                Some(messages) => messages,
                None => Json::List(Seq::empty()),
            };
            let system = match field(body, "system"@) {
                Some(system) => Some(system_text(system)->Ok_0),
                None => None,
            };
            &&& field(body, "system"@) matches Some(s) ==> system_text(s) is Ok
            &&& chat_messages(conversation, system) matches Ok(chats) && field(
                request,
                "messages"@,
            ) == Some(Json::List(chats))
        },
{
    lemma_names();
}

/// Stream options go with a stream and with nothing else. They are those of the request, of which
/// only the late usage is set.
pub proof fn lemma_request_stream_options(body: Json, key: Seq<char>)
    ensures
        chat_request(body) matches Ok(request) ==> {
            let given = field(body, "stream_options"@);
            if field(body, "stream"@) == Some(Json::Bool(true)) {
                &&& given is None || given->Some_0 is Record
                &&& field(request, "stream_options"@) matches Some(options) && field(
                    options,
                    "include_usage"@,
                ) == Some(Json::Bool(true)) && (key != "include_usage"@ ==> field(options, key) == (
                match given {
                    Some(g) => field(g, key),
                    None => None,
                }))
            } else {
                field(request, "stream_options"@) is None
            }
        },
{
    lemma_names();
}

/// Whether a tool can be sent on: it is a custom one, has a name and a schema.
pub open spec fn is_custom_tool(tool: Json) -> bool {
    &&& text_field(tool, "type"@) matches Some(kind) ==> kind == "custom"@ || kind.len() == 0
    &&& has_text(tool, "name"@)
    &&& field(tool, "input_schema"@) is Some
}

/// Whether a function tool of a chat request is a custom tool: the same name, the same
/// description, and the schema as its parameters.
pub open spec fn is_same_tool(function: Json, tool: Json) -> bool {
    &&& text_field(function, "type"@) == Some("function"@)
    &&& field(function, "function"@) matches Some(inner) && text_field(inner, "name"@)
        == text_field(tool, "name"@) && text_field(inner, "description"@) == Some(
        text_or_empty(tool, "description"@),
    ) && field(inner, "parameters"@) == field(tool, "input_schema"@)
}

proof fn lemma_one_tool(tool: Json)
    ensures
        chat_tool(tool) is Ok <==> is_custom_tool(tool),
        chat_tool(tool) matches Ok(function) ==> is_same_tool(function, tool),
{
    lemma_names();
}

proof fn lemma_tools_accepted(tools: Seq<Json>)
    ensures
        try_all(tools, tool_of()) is Ok <==> forall|i: int|
            0 <= i < tools.len() ==> is_custom_tool(#[trigger] tools[i]),
    decreases tools.len(),
{
    if tools.len() > 0 {
        let shorter = tools.drop_last();
        lemma_tools_accepted(shorter);
        lemma_one_tool(tools.last());
        if forall|i: int| 0 <= i < tools.len() ==> is_custom_tool(#[trigger] tools[i]) {
            assert forall|i: int| 0 <= i < shorter.len() implies is_custom_tool(
                #[trigger] shorter[i],
            ) by {
                assert(shorter[i] == tools[i]);
            }
            assert(is_custom_tool(tools[tools.len() - 1]));
        }
        if try_all(tools, tool_of()) is Ok {
            assert forall|i: int| 0 <= i < tools.len() implies is_custom_tool(
                #[trigger] tools[i],
            ) by {
                if i < shorter.len() {
                    assert(tools[i] == shorter[i]);
                }
            }
        }
    }
}

/// Whether function tools are the custom tools, one for each, in order.
pub open spec fn are_same_tools(functions: Seq<Json>, tools: Seq<Json>) -> bool {
    functions.len() == tools.len() && forall|i: int|
        0 <= i < functions.len() ==> is_same_tool(#[trigger] functions[i], tools[i])
}

/// The tools of a chat request are all the tools of the request, in order, and it has none where
/// the request has none.
pub proof fn lemma_request_tools(body: Json)
    ensures
        chat_request(body) matches Ok(request) ==> match list_field(body, "tools"@) {
            Some(tools) => if tools.len() == 0 {
                field(request, "tools"@) is None
            } else {
                field(request, "tools"@) matches Some(Json::List(functions)) && are_same_tools(
                    functions,
                    tools,
                )
            },
            None => field(request, "tools"@) is None,
        },
{
    lemma_names();
    if chat_request(body) is Ok && list_field(body, "tools"@) is Some {
        let tools = list_field(body, "tools"@)->Some_0;
        let functions = try_all(tools, tool_of())->Ok_0;
        lemma_try_all_each(tools, tool_of());
        assert forall|i: int| 0 <= i < functions.len() implies is_same_tool(
            #[trigger] functions[i],
            tools[i],
        ) by {
            assert(tool_of()(tools[i]) == Ok::<Json, Seq<char>>(functions[i]));
            lemma_one_tool(tools[i]);
        }
    }
}

/// Whether a tool choice can be sent on: `auto` or `any`, as a word or as the type of an object,
/// or a tool by its name.
pub open spec fn is_choice(choice: Json) -> bool {
    match text_field(choice, "type"@) {
        Some(kind) => kind == "auto"@ || kind == "any"@ || (kind == "tool"@ && has_text(
            choice,
            "name"@,
        )),
        None => choice == Json::Text("auto"@) || choice == Json::Text("any"@),
    }
}

/// The word of a tool choice.
pub open spec fn choice_word(choice: Json) -> Seq<char> {
    match text_field(choice, "type"@) {
        Some(kind) => kind,
        None => match choice {
            Json::Text(word) => word,
            _ => Seq::empty(),
        },
    }
}

/// `auto` stays `auto`, `any` becomes `required`, and a tool becomes the function of its name. A
/// request without a choice gives none, and parallel calls are ruled out exactly where the choice
/// rules them out.
pub proof fn lemma_request_choice(body: Json)
    ensures
        chat_request(body) matches Ok(request) ==> match field(body, "tool_choice"@) {
            None => field(request, "tool_choice"@) is None && field(request, "parallel_tool_calls"@)
                is None,
            Some(choice) => {
                &&& is_choice(choice)
                &&& choice_word(choice) == "auto"@ ==> field(request, "tool_choice"@) == Some(
                    Json::Text("auto"@),
                )
                &&& choice_word(choice) == "any"@ ==> field(request, "tool_choice"@) == Some(
                    Json::Text("required"@),
                )
                &&& choice_word(choice) == "tool"@ ==> (field(request, "tool_choice"@) matches Some(
                    chosen,
                ) && text_field(chosen, "type"@) == Some("function"@) && (field(
                    chosen,
                    "function"@,
                ) matches Some(function) && text_field(function, "name"@) == text_field(
                    choice,
                    "name"@,
                )))
                &&& field(request, "parallel_tool_calls"@) == (if field(
                    choice,
                    "disable_parallel_tool_use"@,
                ) == Some(Json::Bool(true)) {
                    Some(Json::Bool(false))
                } else {
                    None
                })
            },
        },
{
    lemma_names();
}

/// The reasoning effort follows the thinking that a request asks for: the level of its budget, or
/// `auto` without one; the configured effort, in lower case and without surrounding white space, or
/// `xhigh` without one; `none` where it is disabled; and nothing otherwise.
pub proof fn lemma_request_effort(body: Json)
    ensures
        chat_request(body) matches Ok(request) ==> {
            let effort = field(request, "reasoning_effort"@);
            let kind = match field(body, "thinking"@) {
                Some(thinking) => text_field(thinking, "type"@),
                None => None,
            };
            let budget = match field(body, "thinking"@) {
                Some(thinking) => field(thinking, "budget_tokens"@),
                None => None,
            };
            let configured = match field(body, "output_config"@) {
                Some(config) => trimmed(text_or_empty(config, "effort"@)),
                None => Seq::empty(),
            };
            &&& kind == Some("enabled"@) ==> (match budget {
                Some(Json::Number(JsonNumber::Integer(n))) => effort == (if i64::MIN <= n
                    <= i64::MAX {
                    match level_for(n) {
                        Some(level) => Some(Json::Text(level)),
                        None => None,
                    }
                } else {
                    Some(Json::Text("auto"@))
                }),
                _ => effort == Some(Json::Text("auto"@)),
            })
            &&& kind == Some("adaptive"@) || kind == Some("auto"@) ==> effort == Some(
                Json::Text(
                    if configured.len() > 0 {
                        configured.map_values(|c: char| ascii_lower(c))
                    } else {
                        "xhigh"@
                    },
                ),
            )
            &&& kind == Some("disabled"@) ==> effort == Some(Json::Text("none"@))
            &&& kind != Some("enabled"@) && kind != Some("adaptive"@) && kind != Some("auto"@)
                && kind != Some("disabled"@) ==> effort is None
        },
{
    lemma_names();
    let configured = match field(body, "output_config"@) {
        Some(config) => text_field(config, "effort"@),
        None => None,
    };
    if configured is None {
        assert(trimmed(Seq::<char>::empty()).len() == 0) by {
            lemma_blank_trims_away(Seq::empty());
        }
    }
}

/// Bigger budgets never get a lower level than smaller ones, a budget of 1024 is low, and none is
/// without a level but one below -1.
pub proof fn lemma_levels(budget: int)
    ensures
        level_for(1024) == Some("low"@),
        level_for(0) == Some("none"@),
        level_for(-1) == Some("auto"@),
        budget < -1 <==> level_for(budget) is None,
        0 < budget <= 512 <==> level_for(budget) == Some("minimal"@),
        512 < budget <= 1024 <==> level_for(budget) == Some("low"@),
        1024 < budget <= 8192 <==> level_for(budget) == Some("medium"@),
        8192 < budget <= 24576 <==> level_for(budget) == Some("high"@),
        24576 < budget <==> level_for(budget) == Some("xhigh"@),
{
    lemma_names();
}

proof fn lemma_runs_accepted(items: Seq<Json>)
    ensures
        try_all(items, run()) is Ok <==> forall|i: int|
            0 <= i < items.len() ==> message_run(#[trigger] items[i]) is Ok,
    decreases items.len(),
{
    if items.len() > 0 {
        let shorter = items.drop_last();
        lemma_runs_accepted(shorter);
        if forall|i: int| 0 <= i < items.len() ==> message_run(#[trigger] items[i]) is Ok {
            assert forall|i: int| 0 <= i < shorter.len() implies message_run(#[trigger] shorter[i])
                is Ok by {
                assert(shorter[i] == items[i]);
            }
            assert(message_run(items[items.len() - 1]) is Ok);
        }
        if try_all(items, run()) is Ok {
            assert forall|i: int| 0 <= i < items.len() implies message_run(#[trigger] items[i])
                is Ok by {
                if i < shorter.len() {
                    assert(items[i] == shorter[i]);
                }
            }
        }
    }
}

/// Whether a request can be sent on: its system prompt, each of its messages, its stream options
/// where it streams, each of its tools, and its tool choice.
pub open spec fn is_acceptable(body: Json) -> bool {
    &&& field(body, "system"@) matches Some(system) ==> system is Text || (system is List
        && all_of_kinds(system->List_0, "text"@, "thinking"@))
    &&& field(body, "messages"@) matches Some(messages) ==> (messages matches Json::List(items)
        && forall|i: int| 0 <= i < items.len() ==> message_run(#[trigger] items[i]) is Ok)
    &&& field(body, "stream"@) == Some(Json::Bool(true)) ==> (field(body, "stream_options"@) matches Some(
        options,
    ) ==> options is Record)
    &&& list_field(body, "tools"@) matches Some(tools) ==> forall|i: int|
        0 <= i < tools.len() ==> is_custom_tool(#[trigger] tools[i])
    &&& field(body, "tool_choice"@) matches Some(choice) ==> is_choice(choice)
}

/// A request is accepted exactly where all of it can be sent on.
pub proof fn lemma_request_accepted(body: Json)
    ensures
        chat_request(body) is Ok <==> is_acceptable(body),
{
    lemma_names();
    if field(body, "system"@) is Some {
        lemma_system_says(field(body, "system"@)->Some_0);
    }
    if list_field(body, "messages"@) is Some {
        lemma_runs_accepted(list_field(body, "messages"@)->Some_0);
    }
    lemma_runs_accepted(Seq::empty());
    if list_field(body, "tools"@) is Some {
        lemma_tools_accepted(list_field(body, "tools"@)->Some_0);
    }
}

// ---------------------------------------------------------------------------
// Responses
// ---------------------------------------------------------------------------

/// The message of the first choice of a chat response.
pub open spec fn reply_of(resp: Json) -> Option<Json> {
    match field(resp, "choices"@) {
        Some(Json::List(choices)) => if choices.len() > 0 {
            field(choices[0], "message"@)
        } else {
            None
        },
        _ => None,
    }
}

/// Why the first choice of a chat response finished, or the empty text.
pub open spec fn finish_of(resp: Json) -> Seq<char> {
    match field(resp, "choices"@) {
        Some(Json::List(choices)) => if choices.len() > 0 {
            text_or_empty(choices[0], "finish_reason"@)
        } else {
            Seq::empty()
        },
        _ => Seq::empty(),
    }
}

/// The tool calls of a reply.
pub open spec fn calls_of(reply: Json) -> Seq<Json> {
    match field(reply, "tool_calls"@) {
        Some(Json::List(calls)) => calls,
        _ => Seq::empty(),
    }
}

/// The reasoning that a value holds: a text, or the text of a member of a record.
pub open spec fn thought_in(value: Option<Json>, member: Seq<char>) -> Option<Seq<char>> {
    match value {
        Some(Json::Text(text)) => if text.len() > 0 {
            Some(text)
        } else {
            None
        },
        Some(Json::Record(record)) => if has_text(Json::Record(record), member) {
            text_field(Json::Record(record), member)
        } else {
            None
        },
        _ => None,
    }
}

/// The reasoning of a reply: its reasoning content, or else its thinking.
pub open spec fn thought_of(reply: Json) -> Option<Seq<char>> {
    match thought_in(field(reply, "reasoning_content"@), "text"@) {
        Some(text) => Some(text),
        None => {
            let thinking = field(reply, "thinking"@);
            let member = if thinking is Some && field(thinking->Some_0, "thinking"@) is Some {
                "thinking"@
            } else {
                "text"@
            };
            thought_in(thinking, member)
        },
    }
}

/// The text of a reply.
pub open spec fn text_of_reply(reply: Json) -> Seq<char> {
    text_or_empty(reply, "content"@)
}

/// A token count of a chat response, or 0.
pub open spec fn tokens_of(resp: Json, key: Seq<char>) -> u64 {
    match field(resp, "usage"@) {
        Some(usage) => match count_in(field(usage, key)) {
            Some(n) => n,
            None => 0,
        },
        None => 0,
    }
}

/// Whether a block is a tool use for a tool call, with this input.
pub open spec fn uses_tool(block: Json, call: Json, input: Json) -> bool {
    &&& text_field(block, "type"@) == Some("tool_use"@)
    &&& text_field(block, "id"@) == text_field(call, "id"@)
    &&& field(call, "function"@) matches Some(function) && text_field(block, "name"@) == text_field(
        function,
        "name"@,
    )
    &&& field(block, "input"@) == Some(input)
}

/// Whether content is what a reply says: its reasoning, its text and a tool use for each of its
/// tool calls with the input that was read for it, in this order; and an empty text where it says
/// nothing.
pub open spec fn says_reply(
    content: Seq<Json>,
    reply: Json,
    readings: Seq<Option<Result<Json, Seq<char>>>>,
) -> bool {
    let calls = calls_of(reply);
    let text = text_of_reply(reply);
    let thoughts: int = if thought_of(reply) is Some {
        1
    } else {
        0
    };
    let texts: int = if text.len() > 0 || (thoughts == 0 && calls.len() == 0) {
        1
    } else {
        0
    };
    &&& content.len() == thoughts + texts + calls.len()
    &&& thoughts > 0 ==> text_field(content[0], "type"@) == Some("thinking"@) && text_field(
        content[0],
        "thinking"@,
    ) == thought_of(reply)
    &&& texts > 0 ==> text_field(content[thoughts], "type"@) == Some("text"@) && text_field(
        content[thoughts],
        "text"@,
    ) == Some(text)
    &&& forall|i: int|
        0 <= i < calls.len() ==> uses_tool(
            content[thoughts + texts + i],
            #[trigger] calls[i],
            readings[i]->Some_0->Ok_0,
        )
}

/// Why a Messages response stopped, given why the reply finished and what it holds.
pub open spec fn stop_for(finish: Seq<char>, reply: Json) -> Seq<char> {
    if finish == "stop"@ {
        "end_turn"@
    } else if finish == "length"@ {
        "max_tokens"@
    } else if finish == "tool_calls"@ {
        "tool_use"@
    } else if finish == "content_filter"@ || field(reply, "refusal"@) is Some {
        "refusal"@
    } else if calls_of(reply).len() > 0 {
        "tool_use"@
    } else {
        "end_turn"@
    }
}

/// A Messages response names the model that it was made for, whatever the chat response names; it
/// has the id of the chat response, or else the fresh one; it says what the reply says, and why it
/// stopped and how many tokens it took follow the chat response.
pub proof fn lemma_response_members(
    resp: Json,
    model: Seq<char>,
    readings: Seq<Option<Result<Json, Seq<char>>>>,
    fresh: Seq<char>,
)
    requires
        reply_of(resp) matches Some(reply) ==> readings.len() == calls_of(reply).len(),
    ensures
        messages_response(resp, model, readings, fresh) matches Ok(response) ==> {
            &&& reply_of(resp) is Some
            &&& text_field(response, "model"@) == Some(model)
            &&& field(response, "id"@) == (match field(resp, "id"@) {
                Some(id) => Some(id),
                None => Some(Json::Text(fresh)),
            })
            &&& text_field(response, "type"@) == Some("message"@)
            &&& text_field(response, "role"@) == Some("assistant"@)
            &&& field(response, "stop_sequence"@) == Some(Json::Null)
            &&& text_field(response, "stop_reason"@) == Some(
                stop_for(finish_of(resp), reply_of(resp)->Some_0),
            )
            &&& field(response, "usage"@) matches Some(usage) && count_in(
                field(usage, "input_tokens"@),
            ) == Some(tokens_of(resp, "prompt_tokens"@)) && count_in(field(usage, "output_tokens"@))
                == Some(tokens_of(resp, "completion_tokens"@))
            &&& list_field(response, "content"@) matches Some(content) && says_reply(
                content,
                reply_of(resp)->Some_0,
                readings,
            )
        },
{
    lemma_names();
    if messages_response(resp, model, readings, fresh) is Ok {
        let reply = reply_of(resp)->Some_0;
        let calls = calls_of(reply);
        let pairs = paired(calls, readings);
        lemma_try_all_each(pairs, tool_use_of());
        let used = tool_use_blocks(calls, readings)->Ok_0;
        assert forall|i: int| 0 <= i < calls.len() implies uses_tool(
            used[i],
            #[trigger] calls[i],
            readings[i]->Some_0->Ok_0,
        ) by {
            assert(tool_use_of()(pairs[i]) == Ok::<Json, Seq<char>>(used[i]));
        }
        let response = messages_response(resp, model, readings, fresh)->Ok_0;
        let content = list_field(response, "content"@)->Some_0;
        let text = text_of_reply(reply);
        assert(reasoning(reply) == thought_of(reply));
        let spoken = spoken_blocks(thought_of(reply), text);
        assert(content == all_blocks(spoken, used));
        assert(used.len() == calls.len());
        if spoken.len() + used.len() > 0 {
            assert forall|i: int| 0 <= i < calls.len() implies uses_tool(
                content[spoken.len() + i],
                #[trigger] calls[i],
                readings[i]->Some_0->Ok_0,
            ) by {
                assert(content[spoken.len() + i] == used[i]);
            }
            if spoken.len() > 0 {
                assert(content[0] == spoken[0]);
                if spoken.len() > 1 {
                    assert(content[1] == spoken[1]);
                }
            }
        }
        let thoughts: int = if thought_of(reply) is Some {
            1
        } else {
            0
        };
        let texts: int = if text.len() > 0 || (thoughts == 0 && calls.len() == 0) {
            1
        } else {
            0
        };
        if spoken.len() + used.len() > 0 {
            assert(spoken.len() == thoughts + texts);
        }
        assert(content.len() == thoughts + texts + calls.len());
        assert(thoughts > 0 ==> content[0] == thinking_block(thought_of(reply)->Some_0));
        assert(texts > 0 ==> content[thoughts] == text_block(text)) by {
            if text.len() == 0 {
                assert(text =~= Seq::<char>::empty());
            }
        }
        assert forall|i: int| 0 <= i < calls.len() implies uses_tool(
            content[thoughts + texts + i],
            #[trigger] calls[i],
            readings[i]->Some_0->Ok_0,
        ) by {
            assert(content[spoken.len() + i] == used[i]);
        }
    }
}

/// Whether a tool call can be sent on, given what was read of its arguments.
pub open spec fn is_whole_call(call: Json, reading: Option<Result<Json, Seq<char>>>) -> bool {
    &&& has_text(call, "id"@)
    &&& field(call, "function"@) matches Some(function) && has_text(function, "name"@)
    &&& reading matches Some(Ok(Json::Record(_)))
}

proof fn lemma_calls_accepted(
    calls: Seq<Json>,
    readings: Seq<Option<Result<Json, Seq<char>>>>,
    n: int,
)
    requires
        readings.len() == calls.len(),
        0 <= n <= calls.len(),
    ensures
        try_all(paired(calls, readings).take(n), tool_use_of()) is Ok <==> forall|i: int|
            0 <= i < n ==> is_whole_call(#[trigger] calls[i], readings[i]),
    decreases n,
{
    let pairs = paired(calls, readings);
    if n > 0 {
        lemma_calls_accepted(calls, readings, n - 1);
        assert(pairs.take(n).drop_last() =~= pairs.take(n - 1));
        assert(pairs.take(n).last() == (calls[n - 1], readings[n - 1]));
        if forall|i: int| 0 <= i < n ==> is_whole_call(#[trigger] calls[i], readings[i]) {
            assert(is_whole_call(calls[n - 1], readings[n - 1]));
        }
    }
}

/// A chat response is accepted exactly where its first choice has a message, whose content is
/// nothing or a text and whose tool calls all have an id, a name and arguments that were read as a
/// record.
pub proof fn lemma_response_accepted(
    resp: Json,
    model: Seq<char>,
    readings: Seq<Option<Result<Json, Seq<char>>>>,
    fresh: Seq<char>,
)
    requires
        reply_of(resp) matches Some(reply) ==> readings.len() == calls_of(reply).len(),
    ensures
        messages_response(resp, model, readings, fresh) is Ok <==> (reply_of(resp) matches Some(
            reply,
        ) && (field(reply, "content"@) matches Some(content) ==> content is Null || content is Text)
            && forall|i: int|
            0 <= i < readings.len() ==> is_whole_call(
                #[trigger] calls_of(reply)[i],
                readings[i],
            )),
{
    lemma_names();
    if reply_of(resp) is Some {
        let calls = calls_of(reply_of(resp)->Some_0);
        let pairs = paired(calls, readings);
        lemma_calls_accepted(calls, readings, calls.len() as int);
        assert(pairs.take(calls.len() as int) =~= pairs);
    }
}

/// What is read of the arguments of a tool call is what parsing their text gives, for each call in
/// order, and nothing where they are no text.
pub proof fn lemma_readings(calls: Seq<Json>, i: int)
    requires
        0 <= i < calls.len(),
    ensures
        call_readings(calls).len() == calls.len(),
        field(calls[i], "function"@) matches Some(function) && text_field(function, "arguments"@)
            is Some ==> call_readings(calls)[i] == Some(
            parsed(text_field(field(calls[i], "function"@)->Some_0, "arguments"@)->Some_0),
        ),
        !(field(calls[i], "function"@) matches Some(function) && text_field(function, "arguments"@)
            is Some) ==> call_readings(calls)[i] is None,
{
}

/// The tool calls that are read are those of the reply.
pub proof fn lemma_calls_read(resp: Json)
    ensures
        reply_of(resp) matches Some(reply) ==> response_calls(resp) == calls_of(reply),
        reply_of(resp) is None ==> response_calls(resp).len() == 0,
{
}

} // verus!
