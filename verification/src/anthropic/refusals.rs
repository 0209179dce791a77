//! Why a request or a response is refused: what is wrong, and which of several things comes first.
use vstd::prelude::*;
use vstd::string::*;

use crate::anthropic::blocks::{
    block_piece, result_item, system_block, system_text, tool_result_text,
};
use crate::anthropic::meaning::{
    all_of_kinds, all_sendable, all_texts, has_text, is_sendable, lemma_block_accepted,
};
use crate::anthropic::members::{calls_of, is_choice, is_custom_tool, is_whole_call, reply_of};
use crate::anthropic::messages::{block_of, chat_messages, message_run, run};
use crate::anthropic::request::{chat_choice, chat_request, chat_tool, tool_of};
use crate::anthropic::response::{messages_response, paired, tool_use_block, tool_use_of};
use crate::folds::{lemma_take_next, lemma_try_all_stops, try_all};
use crate::json::{field, list_field, text_field, text_or_empty, Json};
use crate::names::lemma_names;

verus! {

proof fn lemma_first_refused<A, B>(
    items: Seq<A>,
    convert: spec_fn(A) -> Result<B, Seq<char>>,
    i: int,
)
    requires
        0 <= i < items.len(),
        forall|j: int| 0 <= j < i ==> convert(#[trigger] items[j]) is Ok,
        convert(items[i]) is Err,
    ensures
        try_all(items, convert) == Err::<Seq<B>, Seq<char>>(convert(items[i])->Err_0),
{
    lemma_all_before(items, convert, i);
    lemma_take_next(items, i);
    lemma_try_all_stops(items, convert, i + 1);
}

proof fn lemma_all_before<A, B>(
    items: Seq<A>,
    convert: spec_fn(A) -> Result<B, Seq<char>>,
    i: int,
)
    requires
        0 <= i <= items.len(),
        forall|j: int| 0 <= j < i ==> convert(#[trigger] items[j]) is Ok,
    ensures
        try_all(items.take(i), convert) is Ok,
    decreases i,
{
    if i > 0 {
        lemma_all_before(items, convert, i - 1);
        lemma_take_next(items, i - 1);
        assert(convert(items[i - 1]) is Ok);
    } else {
        assert(items.take(i) =~= Seq::<A>::empty());
    }
}

/// The first block of a system prompt that is neither text nor thinking decides why the prompt is
/// refused.
pub proof fn lemma_system_refusals(blocks: Seq<Json>, i: int)
    requires
        0 <= i < blocks.len(),
        all_of_kinds(blocks.take(i), "text"@, "thinking"@),
        text_field(blocks[i], "type"@) != Some("text"@),
        text_field(blocks[i], "type"@) != Some("thinking"@),
    ensures
        system_text(Json::List(blocks)) == Err::<Seq<char>, Seq<char>>(
            if text_field(blocks[i], "type"@) == Some("cache_control"@) {
                "system cache_control blocks require a native Anthropic Messages channel"@
            } else {
                "unsupported non-text system content requires a native Anthropic Messages channel"@
            },
        ),
{
    lemma_names();
    assert forall|j: int| 0 <= j < i implies system_block()(#[trigger] blocks[j]) is Ok by {
        assert(blocks.take(i)[j] == blocks[j]);
    }
    lemma_first_refused(blocks, system_block(), i);
}

/// The first item of a tool result that is no text decides why the result is refused.
pub proof fn lemma_result_refusals(block: Json, items: Seq<Json>, i: int)
    requires
        field(block, "content"@) == Some(Json::List(items)),
        0 <= i < items.len(),
        all_texts(items.take(i)),
        text_field(items[i], "type"@) != Some("text"@),
    ensures
        tool_result_text(block) == Err::<Seq<char>, Seq<char>>(
            if text_field(items[i], "type"@) == Some("image"@) {
                "tool_result images require a native Anthropic Messages channel"@
            } else {
                "unsupported tool_result content requires a native Anthropic Messages channel"@
            },
        ),
{
    lemma_names();
    assert forall|j: int| 0 <= j < i implies result_item()(#[trigger] items[j]) is Ok by {
        assert(items.take(i)[j] == items[j]);
    }
    lemma_first_refused(items, result_item(), i);
}

/// A system prompt, a conversation and the content of a tool result that are of no kind that they
/// can be are refused as such.
pub proof fn lemma_kind_refusals(value: Json, block: Json, system: Option<Seq<char>>)
    ensures
        !(value is Text) && !(value is List) ==> system_text(value) == Err::<Seq<char>, Seq<char>>(
            "system must be text or an array of text blocks"@,
        ),
        !(value is List) ==> chat_messages(value, system) == Err::<Seq<Json>, Seq<char>>(
            "Anthropic messages must be an array"@,
        ),
        field(block, "content"@) matches Some(content) && !(content is Text) && !(content is List)
            && !(content is Null) ==> tool_result_text(block) == Err::<Seq<char>, Seq<char>>(
            "tool_result content must be text or text blocks"@,
        ),
{
}

/// Why a tool use is refused.
pub open spec fn use_fault(role: Seq<char>, block: Json) -> Seq<char> {
    if role != "assistant"@ {
        "tool_use blocks must be in an assistant message"@
    } else if !has_text(block, "id"@) {
        "tool_use is missing id"@
    } else if !has_text(block, "name"@) {
        "tool_use is missing name"@
    } else if field(block, "input"@) is None {
        "tool_use is missing input"@
    } else {
        "tool_use input must be a JSON object"@
    }
}

/// Why an image is refused.
pub open spec fn image_fault(role: Seq<char>, block: Json) -> Seq<char> {
    if role != "user"@ {
        "OpenAI Chat Completions cannot safely encode assistant image blocks"@
    } else {
        match field(block, "source"@) {
            None => "Anthropic image block is missing source"@,
            Some(source) => {
                let kind = text_or_empty(source, "type"@);
                if kind == "url"@ {
                    "Anthropic image URL source is missing url"@
                } else if kind != "base64"@ {
                    "unsupported Anthropic image source requires a native channel"@
                } else if text_field(source, "media_type"@) is None {
                    "Anthropic base64 image is missing media_type"@
                } else {
                    "Anthropic base64 image is missing data"@
                }
            },
        }
    }
}

/// A content block that is refused is refused for what is wrong with it.
pub proof fn lemma_block_refusals(role: Seq<char>, block: Json)
    ensures
        block_piece(role, block) matches Err(why) ==> {
            let kind = text_or_empty(block, "type"@);
            &&& kind == "tool_use"@ ==> why == use_fault(role, block)
            &&& kind == "image"@ ==> why == image_fault(role, block)
            &&& kind == "tool_result"@ ==> why == (if role != "user"@ {
                "tool_result blocks must be in a user message"@
            } else if !has_text(block, "tool_use_id"@) {
                "tool_result is missing tool_use_id"@
            } else {
                tool_result_text(block)->Err_0
            })
            &&& kind == "cache_control"@ ==> why
                == "Anthropic cache controls require a native Anthropic Messages channel"@
            &&& kind != "tool_use"@ && kind != "image"@ && kind != "tool_result"@ && kind
                != "cache_control"@ ==> why
                == "unsupported Anthropic content block requires a native Anthropic Messages channel"@
        },
{
    lemma_names();
}

/// A message that is refused is refused for its role, for a missing content, for the first of its
/// blocks that is refused, or because it says nothing.
pub proof fn lemma_message_refusals(msg: Json)
    ensures
        text_field(msg, "role"@) is None ==> message_run(msg) == Err::<Seq<Json>, Seq<char>>(
            "Anthropic message is missing role"@,
        ),
        text_field(msg, "role"@) matches Some(role) && role != "user"@ && role != "assistant"@
            && role != "system"@ ==> message_run(msg) == Err::<Seq<Json>, Seq<char>>(
            "only user, assistant, and system Anthropic messages can be sent to OpenAI Chat Completions"@,
        ),
        text_field(msg, "role"@) == Some("system"@) && field(msg, "content"@) is None
            ==> message_run(msg) == Err::<Seq<Json>, Seq<char>>("system message is missing content"@),
        text_field(msg, "role"@) == Some("system"@) && (field(msg, "content"@) matches Some(content)
            && system_text(content) is Err) ==> message_run(msg) == Err::<Seq<Json>, Seq<char>>(
            system_text(field(msg, "content"@)->Some_0)->Err_0,
        ),
        text_field(msg, "role"@) == Some("assistant"@) && (list_field(msg, "content"@) matches Some(
            blocks,
        ) && all_sendable("assistant"@, blocks)) && message_run(msg) is Err ==> message_run(msg)
            == Err::<Seq<Json>, Seq<char>>("assistant message is empty"@),
{
    lemma_names();
    if text_field(msg, "role"@) == Some("assistant"@) && list_field(msg, "content"@) is Some {
        let blocks = list_field(msg, "content"@)->Some_0;
        if all_sendable("assistant"@, blocks) {
            assert forall|j: int| 0 <= j < blocks.len() implies block_of("assistant"@)(
                #[trigger] blocks[j],
            ) is Ok by {
                lemma_block_accepted("assistant"@, blocks[j]);
            }
            lemma_all_before(blocks, block_of("assistant"@), blocks.len() as int);
            assert(blocks.take(blocks.len() as int) =~= blocks);
        }
    }
}

/// The first block of a message that is refused decides why the message is.
pub proof fn lemma_first_block_refused(msg: Json, role: Seq<char>, blocks: Seq<Json>, i: int)
    requires
        role == "user"@ || role == "assistant"@,
        text_field(msg, "role"@) == Some(role),
        field(msg, "content"@) == Some(Json::List(blocks)),
        0 <= i < blocks.len(),
        all_sendable(role, blocks.take(i)),
        !is_sendable(role, blocks[i]),
    ensures
        block_piece(role, blocks[i]) matches Err(why) && message_run(msg) == Err::<
            Seq<Json>,
            Seq<char>,
        >(why),
{
    lemma_names();
    lemma_block_accepted(role, blocks[i]);
    assert forall|j: int| 0 <= j < i implies block_of(role)(#[trigger] blocks[j]) is Ok by {
        assert(blocks.take(i)[j] == blocks[j]);
        lemma_block_accepted(role, blocks[j]);
    }
    lemma_first_refused(blocks, block_of(role), i);
}

/// The first message of a conversation that is refused decides why the conversation is.
pub proof fn lemma_first_message_refused(
    messages: Seq<Json>,
    system: Option<Seq<char>>,
    i: int,
)
    requires
        0 <= i < messages.len(),
        forall|j: int| 0 <= j < i ==> message_run(#[trigger] messages[j]) is Ok,
        message_run(messages[i]) is Err,
    ensures
        chat_messages(Json::List(messages), system) == Err::<Seq<Json>, Seq<char>>(
            message_run(messages[i])->Err_0,
        ),
{
    assert forall|j: int| 0 <= j < i implies run()(#[trigger] messages[j]) is Ok by {
        assert(message_run(messages[j]) is Ok);
    }
    lemma_first_refused(messages, run(), i);
}

/// A tool that is refused is built in, or without a name, or, under its name, without a schema.
pub proof fn lemma_tool_refusals(tool: Json)
    ensures
        chat_tool(tool) matches Err(why) ==> {
            let kind = text_field(tool, "type"@);
            let custom = kind is None || kind == Some("custom"@) || kind->Some_0.len() == 0;
            &&& !custom ==> why
                == "Anthropic built-in tools require a native Anthropic Messages channel"@
            &&& custom && !has_text(tool, "name"@) ==> why == "Anthropic tool is missing its name"@
            &&& custom && has_text(tool, "name"@) ==> field(tool, "input_schema"@) is None && why
                == "Anthropic tool '"@ + text_or_empty(tool, "name"@)
                + "' is missing input_schema"@
        },
{
    lemma_names();
}

/// A tool choice that is refused lacks the name of its tool, or is of no kind that is known.
pub proof fn lemma_choice_refusals(choice: Json)
    ensures
        chat_choice(choice) is Err <==> !is_choice(choice),
        chat_choice(choice) matches Err(why) ==> why == (if text_field(choice, "type"@) == Some(
            "tool"@,
        ) {
            "Anthropic tool_choice type 'tool' is missing a name"@
        } else if text_field(choice, "type"@) is None && choice == Json::Text("tool"@) {
            "Anthropic tool_choice 'tool' requires a name"@
        } else {
            "unsupported Anthropic tool_choice requires a native Anthropic Messages channel"@
        }),
{
    lemma_names();
}

/// A request is refused for the first thing in it that is: its system prompt, its conversation, its
/// stream options, one of its tools and its tool choice, in this order.
pub proof fn lemma_request_refusals(body: Json)
    ensures
        chat_request(body) matches Err(why) ==> {
            let conversation = match field(body, "messages"@) {
                Some(messages) => messages,
                None => Json::List(Seq::empty()),
            };
            if field(body, "system"@) is Some && system_text(field(body, "system"@)->Some_0)
                is Err {
                why == system_text(field(body, "system"@)->Some_0)->Err_0
            } else if chat_messages(conversation, None) is Err {
                why == chat_messages(conversation, None)->Err_0
            } else if field(body, "stream"@) == Some(Json::Bool(true)) && (field(
                body,
                "stream_options"@,
            ) matches Some(options) && !(options is Record)) {
                why == "stream_options must be an object"@
            } else if list_field(body, "tools"@) matches Some(tools) && !all_custom(tools) {
                exists|i: int|
                    0 <= i < list_field(body, "tools"@)->Some_0.len() && (forall|j: int|
                        0 <= j < i ==> is_custom_tool(
                            #[trigger] list_field(body, "tools"@)->Some_0[j],
                        )) && chat_tool(#[trigger] list_field(body, "tools"@)->Some_0[i]) == Err::<
                        Json,
                        Seq<char>,
                    >(why)
            } else {
                field(body, "tool_choice"@) matches Some(choice) && chat_choice(choice) == Err::<
                    Json,
                    Seq<char>,
                >(why)
            }
        },
{
    lemma_names();
    match field(body, "system"@) {
        Some(system) => {},
        None => {},
    }
    if list_field(body, "tools"@) is Some {
        let tools = list_field(body, "tools"@)->Some_0;
        if all_custom(tools) {
            assert forall|j: int| 0 <= j < tools.len() implies tool_of()(#[trigger] tools[j])
                is Ok by {
                assert(is_custom_tool(tools[j]));
            }
            lemma_all_before(tools, tool_of(), tools.len() as int);
            assert(tools.take(tools.len() as int) =~= tools);
        } else {
            let i = lemma_first_odd_tool(tools, 0);
            lemma_first_refused(tools, tool_of(), i);
            assert(chat_tool(tools[i]) is Err);
        }
    }
}

/// Whether all tools are custom tools with a name and a schema.
pub open spec fn all_custom(tools: Seq<Json>) -> bool {
    forall|i: int| 0 <= i < tools.len() ==> is_custom_tool(#[trigger] tools[i])
}

proof fn lemma_first_odd_tool(tools: Seq<Json>, at: int) -> (i: int)
    requires
        0 <= at <= tools.len(),
        forall|j: int| 0 <= j < at ==> is_custom_tool(#[trigger] tools[j]),
        !all_custom(tools),
    ensures
        at <= i < tools.len(),
        forall|j: int| 0 <= j < i ==> is_custom_tool(#[trigger] tools[j]),
        forall|j: int| 0 <= j < i ==> tool_of()(#[trigger] tools[j]) is Ok,
        !is_custom_tool(tools[i]),
        tool_of()(tools[i]) is Err,
    decreases tools.len() - at,
{
    lemma_names();
    if at < tools.len() && is_custom_tool(tools[at]) {
        lemma_first_odd_tool(tools, at + 1)
    } else {
        at
    }
}

/// Why a tool call of a chat response is refused, given what parsing its arguments gave.
pub open spec fn call_fault(call: Json, reading: Option<Result<Json, Seq<char>>>) -> Seq<char> {
    let name = match field(call, "function"@) {
        Some(function) => text_or_empty(function, "name"@),
        None => Seq::empty(),
    };
    if !has_text(call, "id"@) {
        "OpenAI response tool call is missing its id"@
    } else if name.len() == 0 {
        "OpenAI response tool call is missing its function name"@
    } else {
        match reading {
            None => "OpenAI response tool call is missing function arguments"@,
            Some(Err(why)) => "OpenAI response contained invalid tool arguments: "@ + why,
            Some(Ok(_)) => "OpenAI response tool arguments must decode to a JSON object"@,
        }
    }
}

/// A chat response is refused where it has no message, for a content that is no text, or for the
/// first of its tool calls that is not whole, in this order.
pub proof fn lemma_response_refusals(
    resp: Json,
    model: Seq<char>,
    readings: Seq<Option<Result<Json, Seq<char>>>>,
    fresh: Seq<char>,
    i: int,
)
    requires
        reply_of(resp) matches Some(reply) ==> readings.len() == calls_of(reply).len(),
    ensures
        reply_of(resp) is None ==> messages_response(resp, model, readings, fresh) == Err::<
            Json,
            Seq<char>,
        >("OpenAI response does not contain a completion message"@),
        reply_of(resp) matches Some(reply) ==> {
            let content = field(reply, "content"@);
            let calls = calls_of(reply);
            if content is Some && !(content->Some_0 is Null) && !(content->Some_0 is Text) {
                messages_response(resp, model, readings, fresh) == Err::<Json, Seq<char>>(
                    "OpenAI response has unsupported non-text message content"@,
                )
            } else {
                0 <= i < calls.len() && !is_whole_call(calls[i], readings[i]) && (forall|j: int|
                    0 <= j < i ==> is_whole_call(#[trigger] calls[j], readings[j]))
                    ==> messages_response(resp, model, readings, fresh) == Err::<Json, Seq<char>>(
                    call_fault(calls[i], readings[i]),
                )
            }
        },
{
    lemma_names();
    if reply_of(resp) is Some {
        let calls = calls_of(reply_of(resp)->Some_0);
        if 0 <= i < calls.len() && !is_whole_call(calls[i], readings[i]) && (forall|j: int|
            0 <= j < i ==> is_whole_call(#[trigger] calls[j], readings[j])) {
            let pairs = paired(calls, readings);
            assert forall|j: int| 0 <= j < i implies tool_use_of()(#[trigger] pairs[j]) is Ok by {
                assert(is_whole_call(calls[j], readings[j]));
            }
            assert(tool_use_block(calls[i], readings[i]) == Err::<Json, Seq<char>>(
                call_fault(calls[i], readings[i]),
            ));
            lemma_first_refused(pairs, tool_use_of(), i);
        }
    }
}

} // verus!
