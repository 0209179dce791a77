//! What holds of every conversion between Messages and Chat Completions.
use vstd::prelude::*;
use vstd::string::*;

use crate::anthropic::blocks::{
    block_piece, input_comes_back, result_item, system_block, system_block_text, system_text,
    tool_result_text, Piece,
};
use crate::anthropic::messages::{
    all_come_back, assistant_message, block_of, calls, chat_messages, closed_off,
    conversation_comes_back, inputs_come_back, message_run, opening, run, thoughts, user_progress,
    words,
};
use crate::anthropic::request::{
    chat_request, chat_tool, chat_tools, parallel_calls, prompt, reasoning_effort, stream_options,
    streams, tool_choice, tool_of,
};
use crate::anthropic::response::{
    call_reading, call_readings, content_text, messages_response, paired, reasoning, response_calls,
    spoken_blocks, text_block, thinking_block, tool_use, tool_use_block, tool_use_blocks,
    tool_use_of,
};
use crate::chat::{calls_in, field_of, first_choice, message, tool_call};
use crate::folds::{
    joined, lemma_joined_append, lemma_joined_singles, lemma_pick_append, lemma_try_all_append,
    lemma_try_all_each, lemma_try_all_gives, lemma_try_all_same, pick, try_all,
};
use crate::json::{
    either, field, fits, flag_in, gives, list_field, list_in, parsed, printed, put_some, text_field,
    text_in, text_or_empty, Json,
};

verus! {

// ---------------------------------------------------------------------------
// Requests
// ---------------------------------------------------------------------------

/// The members that a chat request can have.
pub open spec fn is_request_member(key: Seq<char>) -> bool {
    key == "model"@ || key == "messages"@ || key == "max_tokens"@ || key == "stream"@ || key
        == "temperature"@ || key == "top_p"@ || key == "top_k"@ || key == "stop"@ || key
        == "stream_options"@ || key == "tools"@ || key == "tool_choice"@ || key
        == "parallel_tool_calls"@ || key == "reasoning_effort"@
}

/// A chat request has no members but those that a chat request can have: what a Messages request
/// holds beyond them is dropped.
pub proof fn lemma_known_members_only(body: Json, key: Seq<char>)
    ensures
        chat_request(body) matches Ok(request) ==> (field(request, key) is Some
            ==> is_request_member(key)),
{
}

proof fn lemma_dropped_names()
    ensures
        !is_request_member("container"@),
        !is_request_member("context_management"@),
        !is_request_member("thinking"@),
        !is_request_member("output_config"@),
{
    reveal_strlit("model");
    reveal_strlit("messages");
    reveal_strlit("max_tokens");
    reveal_strlit("stream");
    reveal_strlit("temperature");
    reveal_strlit("top_p");
    reveal_strlit("top_k");
    reveal_strlit("stop");
    reveal_strlit("stream_options");
    reveal_strlit("tools");
    reveal_strlit("tool_choice");
    reveal_strlit("parallel_tool_calls");
    reveal_strlit("reasoning_effort");
    reveal_strlit("container");
    reveal_strlit("context_management");
    reveal_strlit("thinking");
    reveal_strlit("output_config");
    assert("model"@.len() == 5 && "messages"@.len() == 8 && "messages"@[0] == 'm');
    assert("max_tokens"@.len() == 10 && "stream"@.len() == 6 && "temperature"@.len() == 11);
    assert("top_p"@.len() == 5 && "top_k"@.len() == 5 && "stop"@.len() == 4);
    assert("stream_options"@.len() == 14 && "tools"@.len() == 5 && "tool_choice"@.len() == 11);
    assert("parallel_tool_calls"@.len() == 19 && "reasoning_effort"@.len() == 16);
    assert("container"@.len() == 9 && "context_management"@.len() == 18);
    assert("thinking"@.len() == 8 && "thinking"@[0] == 't' && "output_config"@.len() == 13);
}

/// The container and the context management of a request are dropped, and so are the members
/// that configure thinking: none of them stands in the chat request.
pub proof fn lemma_dropped_members(body: Json)
    ensures
        chat_request(body) matches Ok(request) ==> field(request, "container"@) is None && field(
            request,
            "context_management"@,
        ) is None && field(request, "thinking"@) is None && field(request, "output_config"@)
            is None,
{
    lemma_dropped_names();
    lemma_known_members_only(body, "container"@);
    lemma_known_members_only(body, "context_management"@);
    lemma_known_members_only(body, "thinking"@);
    lemma_known_members_only(body, "output_config"@);
}

/// Whether two bodies have the same members but for one.
pub open spec fn same_but_for(a: Json, b: Json, key: Seq<char>) -> bool {
    forall|other: Seq<char>| other != key ==> #[trigger] field(a, other) == field(b, other)
}

proof fn lemma_read_names(key: Seq<char>)
    requires
        key == "container"@ || key == "context_management"@ || key == "thinking"@ || key
            == "output_config"@,
    ensures
        key != "model"@,
        key != "messages"@,
        key != "max_tokens"@,
        key != "stream"@,
        key != "temperature"@,
        key != "top_p"@,
        key != "top_k"@,
        key != "stop_sequences"@,
        key != "stream_options"@,
        key != "tools"@,
        key != "tool_choice"@,
        key != "system"@,
        key == "container"@ || key == "context_management"@ ==> key != "thinking"@ && key
            != "output_config"@,
{
    lemma_dropped_names();
    reveal_strlit("stop_sequences");
    reveal_strlit("system");
    reveal_strlit("container");
    reveal_strlit("context_management");
    reveal_strlit("thinking");
    reveal_strlit("output_config");
    assert("stop_sequences"@.len() == 14 && "system"@.len() == 6);
    assert("container"@.len() == 9 && "context_management"@.len() == 18);
    assert("thinking"@.len() == 8 && "output_config"@.len() == 13);
}

/// Thinking is never a reason to refuse a request. Two requests that differ only in how they
/// configure thinking, or in their container or context management, are both accepted or both
/// refused with the same message; where both are accepted, the chat requests differ in the
/// reasoning effort at most.
pub proof fn lemma_thinking_never_refused(a: Json, b: Json, key: Seq<char>)
    requires
        key == "thinking"@ || key == "output_config"@ || key == "container"@ || key
            == "context_management"@,
        same_but_for(a, b, key),
    ensures
        chat_request(a) is Ok <==> chat_request(b) is Ok,
        chat_request(a) is Err ==> chat_request(a) == chat_request(b),
        chat_request(a) is Ok ==> same_but_for(
            chat_request(a)->Ok_0,
            chat_request(b)->Ok_0,
            "reasoning_effort"@,
        ),
        (key == "container"@ || key == "context_management"@) ==> chat_request(a) == chat_request(
            b,
        ),
{
    lemma_read_names(key);
    assert(field(a, "model"@) == field(b, "model"@));
    assert(field(a, "messages"@) == field(b, "messages"@));
    assert(field(a, "max_tokens"@) == field(b, "max_tokens"@));
    assert(field(a, "stream"@) == field(b, "stream"@));
    assert(field(a, "temperature"@) == field(b, "temperature"@));
    assert(field(a, "top_p"@) == field(b, "top_p"@));
    assert(field(a, "top_k"@) == field(b, "top_k"@));
    assert(field(a, "stop_sequences"@) == field(b, "stop_sequences"@));
    assert(field(a, "stream_options"@) == field(b, "stream_options"@));
    assert(field(a, "tools"@) == field(b, "tools"@));
    assert(field(a, "tool_choice"@) == field(b, "tool_choice"@));
    assert(field(a, "system"@) == field(b, "system"@));
    assert(prompt(a) == prompt(b));
    assert(stream_options(a) == stream_options(b));
    assert(chat_tools(a) == chat_tools(b));
    assert(tool_choice(a) == tool_choice(b));
    assert(parallel_calls(a) == parallel_calls(b));
    if key == "container"@ || key == "context_management"@ {
        assert(field(a, "thinking"@) == field(b, "thinking"@));
        assert(field(a, "output_config"@) == field(b, "output_config"@));
        assert(reasoning_effort(a) == reasoning_effort(b));
    }
}

/// A streaming chat request always asks for the late usage, whatever the request said of it, and
/// keeps every other option.
pub proof fn lemma_late_usage(body: Json, option: Seq<char>)
    requires
        streams(body),
        chat_request(body) is Ok,
    ensures
        flag_in(field_of(field(chat_request(body)->Ok_0, "stream_options"@), "include_usage"@))
            == Some(true),
        option != "include_usage"@ ==> field_of(
            field(chat_request(body)->Ok_0, "stream_options"@),
            option,
        ) == field_of(field(body, "stream_options"@), option),
{
    lemma_request_keys();
}

/// A chat request that does not stream has no stream options.
pub proof fn lemma_no_stream_options(body: Json)
    requires
        !streams(body),
        chat_request(body) is Ok,
    ensures
        field(chat_request(body)->Ok_0, "stream_options"@) is None,
{
    lemma_request_keys();
}

proof fn lemma_request_keys()
    ensures
        "stream_options"@ != "model"@,
        "stream_options"@ != "messages"@,
        "stream_options"@ != "max_tokens"@,
        "stream_options"@ != "stream"@,
        "stream_options"@ != "temperature"@,
        "stream_options"@ != "top_p"@,
        "stream_options"@ != "top_k"@,
        "stream_options"@ != "stop"@,
        "stream_options"@ != "tools"@,
        "stream_options"@ != "tool_choice"@,
        "stream_options"@ != "parallel_tool_calls"@,
        "stream_options"@ != "reasoning_effort"@,
{
    reveal_strlit("model");
    reveal_strlit("messages");
    reveal_strlit("max_tokens");
    reveal_strlit("stream");
    reveal_strlit("temperature");
    reveal_strlit("top_p");
    reveal_strlit("top_k");
    reveal_strlit("stop");
    reveal_strlit("stream_options");
    reveal_strlit("tools");
    reveal_strlit("tool_choice");
    reveal_strlit("parallel_tool_calls");
    reveal_strlit("reasoning_effort");
    assert("stream_options"@.len() == 14);
    assert("model"@.len() == 5 && "messages"@.len() == 8 && "max_tokens"@.len() == 10);
    assert("stream"@.len() == 6 && "temperature"@.len() == 11 && "top_p"@.len() == 5);
    assert("top_k"@.len() == 5 && "stop"@.len() == 4 && "tools"@.len() == 5);
    assert("tool_choice"@.len() == 11 && "parallel_tool_calls"@.len() == 19);
    assert("reasoning_effort"@.len() == 16);
}

// ---------------------------------------------------------------------------
// Cache controls
// ---------------------------------------------------------------------------

proof fn lemma_not_annotations()
    ensures
        "type"@ != "cache_control"@,
        "text"@ != "cache_control"@,
        "source"@ != "cache_control"@,
        "id"@ != "cache_control"@,
        "name"@ != "cache_control"@,
        "input"@ != "cache_control"@,
        "tool_use_id"@ != "cache_control"@,
        "content"@ != "cache_control"@,
        "is_error"@ != "cache_control"@,
        "thinking"@ != "cache_control"@,
        "description"@ != "cache_control"@,
        "input_schema"@ != "cache_control"@,
{
    reveal_strlit("cache_control");
    reveal_strlit("type");
    reveal_strlit("text");
    reveal_strlit("source");
    reveal_strlit("id");
    reveal_strlit("name");
    reveal_strlit("input");
    reveal_strlit("tool_use_id");
    reveal_strlit("content");
    reveal_strlit("is_error");
    reveal_strlit("thinking");
    reveal_strlit("description");
    reveal_strlit("input_schema");
    assert("cache_control"@.len() == 13);
    assert("type"@.len() == 4 && "text"@.len() == 4 && "source"@.len() == 6 && "id"@.len() == 2);
    assert("name"@.len() == 4 && "input"@.len() == 5 && "tool_use_id"@.len() == 11);
    assert("content"@.len() == 7 && "is_error"@.len() == 8 && "thinking"@.len() == 8);
    assert("description"@.len() == 11 && "input_schema"@.len() == 12);
}

/// A cache control on a content block, a system block or a tool changes nothing in what becomes
/// of it.
pub proof fn lemma_annotation_not_read(a: Json, b: Json, role: Seq<char>)
    requires
        same_but_for(a, b, "cache_control"@),
    ensures
        block_piece(role, a) == block_piece(role, b),
        system_block_text(a) == system_block_text(b),
        chat_tool(a) == chat_tool(b),
{
    lemma_not_annotations();
    assert(field(a, "type"@) == field(b, "type"@));
    assert(field(a, "text"@) == field(b, "text"@));
    assert(field(a, "source"@) == field(b, "source"@));
    assert(field(a, "id"@) == field(b, "id"@));
    assert(field(a, "name"@) == field(b, "name"@));
    assert(field(a, "input"@) == field(b, "input"@));
    assert(field(a, "tool_use_id"@) == field(b, "tool_use_id"@));
    assert(field(a, "content"@) == field(b, "content"@));
    assert(field(a, "is_error"@) == field(b, "is_error"@));
    assert(field(a, "thinking"@) == field(b, "thinking"@));
    assert(field(a, "description"@) == field(b, "description"@));
    assert(field(a, "input_schema"@) == field(b, "input_schema"@));
    assert(tool_result_text(a) == tool_result_text(b));
}

/// Whether two values are the same, or are lists whose items differ in their cache controls only.
pub open spec fn same_but_for_caching(a: Option<Json>, b: Option<Json>) -> bool {
    a == b || (list_in(a) is Some && list_in(b) is Some && list_in(a)->Some_0.len() == list_in(
        b,
    )->Some_0.len() && forall|i: int|
        0 <= i < list_in(a)->Some_0.len() ==> same_but_for(
            #[trigger] list_in(a)->Some_0[i],
            list_in(b)->Some_0[i],
            "cache_control"@,
        ))
}

/// Whether two content blocks are the same but for their cache controls, and for those of the
/// items in their content, which a tool result has.
pub open spec fn same_block(a: Json, b: Json) -> bool {
    &&& forall|key: Seq<char>|
        key != "cache_control"@ && key != "content"@ ==> #[trigger] field(a, key) == field(b, key)
    &&& same_but_for_caching(field(a, "content"@), field(b, "content"@))
}

/// Whether two contents are the same, or are lists of blocks that are the same but for caching.
pub open spec fn same_blocks(a: Option<Json>, b: Option<Json>) -> bool {
    a == b || (list_in(a) is Some && list_in(b) is Some && list_in(a)->Some_0.len() == list_in(
        b,
    )->Some_0.len() && forall|i: int|
        0 <= i < list_in(a)->Some_0.len() ==> same_block(
            #[trigger] list_in(a)->Some_0[i],
            list_in(b)->Some_0[i],
        ))
}

/// Whether two messages are the same but for the cache controls of their content blocks, and of
/// the items in the content of their tool results.
pub open spec fn same_message(a: Json, b: Json) -> bool {
    same_but_for(a, b, "content"@) && same_blocks(field(a, "content"@), field(b, "content"@))
}

/// Whether two conversations are the same but for the cache controls of their content blocks, and
/// of the items in the content of their tool results.
pub open spec fn same_conversation(a: Option<Json>, b: Option<Json>) -> bool {
    a == b || (list_in(a) is Some && list_in(b) is Some && list_in(a)->Some_0.len() == list_in(
        b,
    )->Some_0.len() && forall|i: int|
        0 <= i < list_in(a)->Some_0.len() ==> same_message(
            #[trigger] list_in(a)->Some_0[i],
            list_in(b)->Some_0[i],
        ))
}

proof fn lemma_result_caching(a: Json, b: Json)
    requires
        same_but_for_caching(field(a, "content"@), field(b, "content"@)),
    ensures
        tool_result_text(a) == tool_result_text(b),
{
    lemma_not_annotations();
    if field(a, "content"@) != field(b, "content"@) {
        let x = list_field(a, "content"@)->Some_0;
        let y = list_field(b, "content"@)->Some_0;
        assert forall|i: int| 0 <= i < x.len() implies result_item()(#[trigger] x[i])
            == result_item()(y[i]) by {
            assert(same_but_for(x[i], y[i], "cache_control"@));
            assert(field(x[i], "type"@) == field(y[i], "type"@));
            assert(field(x[i], "text"@) == field(y[i], "text"@));
        }
        lemma_try_all_same(x, y, result_item());
    }
}

/// The cache controls of a content block, and of the items in its content, change nothing in what
/// becomes of it.
pub proof fn lemma_block_caching(a: Json, b: Json, role: Seq<char>)
    requires
        same_block(a, b),
    ensures
        block_piece(role, a) == block_piece(role, b),
        system_block_text(a) == system_block_text(b),
{
    lemma_not_annotations();
    lemma_not_content();
    assert(field(a, "type"@) == field(b, "type"@));
    assert(field(a, "text"@) == field(b, "text"@));
    assert(field(a, "source"@) == field(b, "source"@));
    assert(field(a, "id"@) == field(b, "id"@));
    assert(field(a, "name"@) == field(b, "name"@));
    assert(field(a, "input"@) == field(b, "input"@));
    assert(field(a, "tool_use_id"@) == field(b, "tool_use_id"@));
    assert(field(a, "is_error"@) == field(b, "is_error"@));
    assert(field(a, "thinking"@) == field(b, "thinking"@));
    lemma_result_caching(a, b);
}

proof fn lemma_not_content()
    ensures
        "type"@ != "content"@,
        "text"@ != "content"@,
        "source"@ != "content"@,
        "id"@ != "content"@,
        "name"@ != "content"@,
        "input"@ != "content"@,
        "tool_use_id"@ != "content"@,
        "is_error"@ != "content"@,
        "thinking"@ != "content"@,
{
    reveal_strlit("content");
    reveal_strlit("type");
    reveal_strlit("text");
    reveal_strlit("source");
    reveal_strlit("id");
    reveal_strlit("name");
    reveal_strlit("input");
    reveal_strlit("tool_use_id");
    reveal_strlit("is_error");
    reveal_strlit("thinking");
    assert("content"@.len() == 7);
    assert("type"@.len() == 4 && "text"@.len() == 4 && "source"@.len() == 6 && "id"@.len() == 2);
    assert("name"@.len() == 4 && "input"@.len() == 5 && "tool_use_id"@.len() == 11);
    assert("is_error"@.len() == 8 && "thinking"@.len() == 8);
}

proof fn lemma_system_caching(a: Json, b: Json)
    requires
        same_but_for_caching(Some(a), Some(b)),
    ensures
        system_text(a) == system_text(b),
{
    if a != b {
        let x = list_in(Some(a))->Some_0;
        let y = list_in(Some(b))->Some_0;
        assert forall|i: int| 0 <= i < x.len() implies system_block()(#[trigger] x[i])
            == system_block()(y[i]) by {
            lemma_annotation_not_read(x[i], y[i], Seq::empty());
        }
        lemma_try_all_same(x, y, system_block());
    }
}

proof fn lemma_message_caching(a: Json, b: Json)
    requires
        same_message(a, b),
    ensures
        message_run(a) == message_run(b),
{
    reveal_strlit("role");
    reveal_strlit("content");
    assert("role"@.len() == 4 && "content"@.len() == 7);
    assert(field(a, "role"@) == field(b, "role"@));
    let x = field(a, "content"@);
    let y = field(b, "content"@);
    if x != y {
        let role = text_field(a, "role"@)->Some_0;
        let p = list_in(x)->Some_0;
        let q = list_in(y)->Some_0;
        assert forall|i: int| 0 <= i < p.len() implies block_of(role)(#[trigger] p[i]) == block_of(
            role,
        )(q[i]) by {
            lemma_block_caching(p[i], q[i], role);
        }
        lemma_try_all_same(p, q, block_of(role));
        assert forall|i: int| 0 <= i < p.len() implies system_block()(#[trigger] p[i])
            == system_block()(q[i]) by {
            lemma_block_caching(p[i], q[i], role);
        }
        lemma_try_all_same(p, q, system_block());
    }
}

/// Cache controls are stripped: two requests that differ only in the cache controls of their
/// system blocks, their tools, the content blocks of their messages and the items in the content
/// of tool results give the same chat request, or the same refusal.
pub proof fn lemma_cache_controls_stripped(a: Json, b: Json)
    requires
        forall|key: Seq<char>|
            key != "system"@ && key != "tools"@ && key != "messages"@ ==> #[trigger] field(a, key)
                == field(b, key),
        same_but_for_caching(field(a, "system"@), field(b, "system"@)),
        same_but_for_caching(field(a, "tools"@), field(b, "tools"@)),
        same_conversation(field(a, "messages"@), field(b, "messages"@)),
    ensures
        chat_request(a) == chat_request(b),
{
    lemma_other_names();
    assert(field(a, "model"@) == field(b, "model"@));
    assert(field(a, "max_tokens"@) == field(b, "max_tokens"@));
    assert(field(a, "stream"@) == field(b, "stream"@));
    assert(field(a, "temperature"@) == field(b, "temperature"@));
    assert(field(a, "top_p"@) == field(b, "top_p"@));
    assert(field(a, "top_k"@) == field(b, "top_k"@));
    assert(field(a, "stop_sequences"@) == field(b, "stop_sequences"@));
    assert(field(a, "stream_options"@) == field(b, "stream_options"@));
    assert(field(a, "tool_choice"@) == field(b, "tool_choice"@));
    assert(field(a, "thinking"@) == field(b, "thinking"@));
    assert(field(a, "output_config"@) == field(b, "output_config"@));
    if field(a, "system"@) != field(b, "system"@) {
        lemma_system_caching(field(a, "system"@)->Some_0, field(b, "system"@)->Some_0);
    }
    assert(prompt(a) == prompt(b));
    if field(a, "tools"@) != field(b, "tools"@) {
        let x = list_field(a, "tools"@)->Some_0;
        let y = list_field(b, "tools"@)->Some_0;
        assert forall|i: int| 0 <= i < x.len() implies tool_of()(#[trigger] x[i]) == tool_of()(
            y[i],
        ) by {
            lemma_annotation_not_read(x[i], y[i], Seq::empty());
        }
        lemma_try_all_same(x, y, tool_of());
    }
    assert(chat_tools(a) == chat_tools(b));
    if field(a, "messages"@) != field(b, "messages"@) {
        let x = list_field(a, "messages"@)->Some_0;
        let y = list_field(b, "messages"@)->Some_0;
        assert forall|i: int| 0 <= i < x.len() implies run()(#[trigger] x[i]) == run()(y[i]) by {
            lemma_message_caching(x[i], y[i]);
        }
        lemma_try_all_same(x, y, run());
    }
    assert(stream_options(a) == stream_options(b));
    assert(tool_choice(a) == tool_choice(b));
    assert(parallel_calls(a) == parallel_calls(b));
    assert(reasoning_effort(a) == reasoning_effort(b));
}

/// A member that is neither the system prompt, nor the tools, nor the messages.
spec fn is_other_name(key: Seq<char>) -> bool {
    key != "system"@ && key != "tools"@ && key != "messages"@
}

proof fn lemma_other_names()
    ensures
        is_other_name("model"@),
        is_other_name("max_tokens"@),
        is_other_name("stream"@),
        is_other_name("temperature"@),
        is_other_name("top_p"@),
        is_other_name("top_k"@),
        is_other_name("stop_sequences"@),
        is_other_name("stream_options"@),
        is_other_name("tool_choice"@),
        is_other_name("thinking"@),
        is_other_name("output_config"@),
{
    reveal_strlit("system");
    reveal_strlit("tools");
    reveal_strlit("messages");
    reveal_strlit("model");
    reveal_strlit("max_tokens");
    reveal_strlit("stream");
    reveal_strlit("temperature");
    reveal_strlit("top_p");
    reveal_strlit("top_k");
    reveal_strlit("stop_sequences");
    reveal_strlit("stream_options");
    reveal_strlit("tool_choice");
    reveal_strlit("thinking");
    reveal_strlit("output_config");
    assert("system"@.len() == 6 && "system"@[1] == 'y');
    assert("tools"@.len() == 5 && "tools"@[2] == 'o');
    assert("messages"@.len() == 8 && "messages"@[0] == 'm');
    assert("model"@.len() == 5 && "model"@[2] == 'd');
    assert("max_tokens"@.len() == 10 && "stream"@.len() == 6 && "stream"@[1] == 't');
    assert("temperature"@.len() == 11);
    assert("top_p"@.len() == 5 && "top_p"@[2] == 'p' && "top_k"@.len() == 5 && "top_k"@[2] == 'p');
    assert("stop_sequences"@.len() == 14 && "stream_options"@.len() == 14);
    assert("tool_choice"@.len() == 11 && "thinking"@.len() == 8 && "thinking"@[0] == 't');
    assert("output_config"@.len() == 13);
}

// ---------------------------------------------------------------------------
// Messages
// ---------------------------------------------------------------------------

/// The system prompt is the first message.
pub proof fn lemma_system_first(messages: Json, system: Seq<char>)
    ensures
        chat_messages(messages, Some(system)) matches Ok(converted) ==> converted.len() > 0
            && converted[0] == message("system"@, Json::Text(system)),
{
}

/// Whether none of the messages carries reasoning.
pub open spec fn without_reasoning(messages: Seq<Json>) -> bool {
    forall|i: int|
        0 <= i < messages.len() ==> field(#[trigger] messages[i], "reasoning_content"@) is None
}

proof fn lemma_user_progress(pieces: Seq<Piece>)
    requires
        forall|i: int|
            0 <= i < pieces.len() ==> (#[trigger] pieces[i] matches Piece::Answer(answer) ==> field(
                answer,
                "reasoning_content"@,
            ) is None),
    ensures
        without_reasoning(user_progress(pieces).0),
    decreases pieces.len(),
{
    if pieces.len() > 0 {
        let shorter = pieces.drop_last();
        assert forall|i: int| 0 <= i < shorter.len() implies (#[trigger] shorter[i] matches Piece::Answer(
            answer,
        ) ==> field(answer, "reasoning_content"@) is None) by {
            assert(shorter[i] == pieces[i]);
        }
        lemma_user_progress(shorter);
        let (done, parts) = user_progress(shorter);
        lemma_closed_off(done, parts);
        assert(pieces.last() == pieces[pieces.len() - 1]);
    }
}

proof fn lemma_closed_off(done: Seq<Json>, parts: Seq<Json>)
    requires
        without_reasoning(done),
    ensures
        without_reasoning(closed_off(done, parts)),
{
    reveal_strlit("role");
    reveal_strlit("content");
    reveal_strlit("reasoning_content");
    assert("role"@.len() == 4 && "content"@.len() == 7 && "reasoning_content"@.len() == 17);
}

/// Reasoning never enters a channel of the user or of the system: no message that comes of a
/// user or system message carries any.
pub proof fn lemma_reasoning_stays_with_assistant(msg: Json)
    requires
        text_field(msg, "role"@) != Some("assistant"@),
    ensures
        message_run(msg) matches Ok(messages) ==> without_reasoning(messages),
{
    reveal_strlit("role");
    reveal_strlit("content");
    reveal_strlit("tool_call_id");
    reveal_strlit("reasoning_content");
    assert("role"@.len() == 4 && "content"@.len() == 7 && "tool_call_id"@.len() == 12);
    assert("reasoning_content"@.len() == 17);
    if message_run(msg) is Ok {
        let role = text_field(msg, "role"@)->Some_0;
        if role != "system"@ && list_field(msg, "content"@) is Some {
            let blocks = list_field(msg, "content"@)->Some_0;
            let pieces = try_all(blocks, block_of(role))->Ok_0;
            lemma_try_all_each(blocks, block_of(role));
            assert forall|i: int| 0 <= i < pieces.len() implies (#[trigger] pieces[i] matches Piece::Answer(
                answer,
            ) ==> field(answer, "reasoning_content"@) is None) by {
                assert(block_of(role)(blocks[i]) == Ok::<Piece, Seq<char>>(pieces[i]));
            }
            lemma_user_progress(pieces);
            lemma_closed_off(user_progress(pieces).0, user_progress(pieces).1);
        }
    }
}

// ---------------------------------------------------------------------------
// Responses
// ---------------------------------------------------------------------------

/// The content blocks of a Messages response.
pub open spec fn content_of(response: Json) -> Seq<Json> {
    either(list_field(response, "content"@), Seq::empty())
}

proof fn lemma_response_keys()
    ensures
        "content"@ != "stop_reason"@,
        "content"@ != "stop_sequence"@,
        "content"@ != "usage"@,
{
    reveal_strlit("content");
    reveal_strlit("stop_reason");
    reveal_strlit("stop_sequence");
    reveal_strlit("usage");
    assert("content"@.len() == 7 && "stop_reason"@.len() == 11 && "stop_sequence"@.len() == 13);
    assert("usage"@.len() == 5);
}

/// Tool input is never made up. Where the arguments of a tool call did not parse to a record,
/// there is no response. Where there is one, it ends with a block for each tool call, in their
/// order, whose input is what the arguments parsed to.
pub proof fn lemma_input_not_invented(
    resp: Json,
    model: Seq<char>,
    readings: Seq<Option<Result<Json, Seq<char>>>>,
    fresh: Seq<char>,
    i: int,
)
    requires
        readings.len() == response_calls(resp).len(),
        0 <= i < readings.len(),
    ensures
        !(readings[i] matches Some(Ok(input)) && input is Record) ==> messages_response(
            resp,
            model,
            readings,
            fresh,
        ) is Err,
        messages_response(resp, model, readings, fresh) matches Ok(response) ==> ({
            let content = content_of(response);
            let call = response_calls(resp)[i];
            &&& content.len() >= readings.len()
            &&& content[content.len() - readings.len() + i] == tool_use(
                text_or_empty(call, "id"@),
                either(text_in(field_of(field(call, "function"@), "name"@)), Seq::empty()),
                readings[i]->Some_0->Ok_0,
            )
        }),
{
    lemma_response_keys();
    if messages_response(resp, model, readings, fresh) is Ok {
        let calls = response_calls(resp);
        let pairs = paired(calls, readings);
        lemma_try_all_each(pairs, tool_use_of());
        let used = tool_use_blocks(calls, readings)->Ok_0;
        assert(tool_use_of()(pairs[i]) == Ok::<Json, Seq<char>>(used[i]));
        let message = field_of(first_choice(resp), "message"@)->Some_0;
        let spoken = spoken_blocks(
            reasoning(message),
            match field(message, "content"@) {
                Some(Json::Text(text)) => text,
                _ => Seq::empty(),
            },
        );
        let response = messages_response(resp, model, readings, fresh)->Ok_0;
        assert(content_of(response) == spoken + used);
    }
}

/// A response is never without a content block, and reasoning is always kept: it is the first
/// block, also where there is text.
pub proof fn lemma_reasoning_kept_first(
    resp: Json,
    model: Seq<char>,
    readings: Seq<Option<Result<Json, Seq<char>>>>,
    fresh: Seq<char>,
)
    ensures
        messages_response(resp, model, readings, fresh) matches Ok(response) ==> ({
            let thought = reasoning(field_of(first_choice(resp), "message"@)->Some_0);
            &&& content_of(response).len() > 0
            &&& thought is Some ==> content_of(response)[0] == thinking_block(thought->Some_0)
        }),
{
    lemma_response_keys();
}

/// A fresh id only stands in where the chat response has none.
pub proof fn lemma_own_id_kept(
    resp: Json,
    model: Seq<char>,
    readings: Seq<Option<Result<Json, Seq<char>>>>,
    fresh: Seq<char>,
    other: Seq<char>,
)
    requires
        field(resp, "id"@) is Some,
    ensures
        messages_response(resp, model, readings, fresh) == messages_response(
            resp,
            model,
            readings,
            other,
        ),
{
}

/// Tool input survives the way to a chat request and back: the tool call that a tool use block
/// becomes turns into that block again, where parsing gives back the input that was printed.
pub proof fn lemma_tool_use_round_trip(id: Seq<char>, name: Seq<char>, input: Json)
    requires
        id.len() > 0,
        name.len() > 0,
        input is Record,
    ensures
        block_piece("assistant"@, tool_use(id, name, input)) == Ok::<Piece, Seq<char>>(
            Piece::Call(tool_call(id, name, printed(input))),
        ),
        gives(parsed(printed(input)), input) ==> tool_use_block(
            tool_call(id, name, printed(input)),
            call_reading(tool_call(id, name, printed(input))),
        ) == Ok::<Json, Seq<char>>(tool_use(id, name, input)),
{
    reveal_strlit("type");
    reveal_strlit("id");
    reveal_strlit("name");
    reveal_strlit("input");
    reveal_strlit("function");
    reveal_strlit("arguments");
    reveal_strlit("text");
    reveal_strlit("image");
    reveal_strlit("tool_use");
    assert("type"@.len() == 4 && "type"@[0] == 't' && "id"@.len() == 2 && "name"@.len() == 4
        && "name"@[0] == 'n' && "input"@.len() == 5 && "function"@.len() == 8
        && "arguments"@.len() == 9);
    assert("text"@.len() == 4 && "image"@.len() == 5 && "tool_use"@.len() == 8);
}

/// What a tool use block says.
pub struct ToolUse {
    pub id: Seq<char>,
    pub name: Seq<char>,
    pub input: Json,
}

/// Whether a tool use names its call and its tool, and its input is a record.
pub open spec fn is_whole(used: ToolUse) -> bool {
    used.id.len() > 0 && used.name.len() > 0 && used.input is Record
}

/// The blocks for tool uses.
pub open spec fn use_blocks(uses: Seq<ToolUse>) -> Seq<Json> {
    uses.map_values(|used: ToolUse| tool_use(used.id, used.name, used.input))
}

/// The tool calls for tool uses.
pub open spec fn use_calls(uses: Seq<ToolUse>) -> Seq<Json> {
    uses.map_values(|used: ToolUse| tool_call(used.id, used.name, printed(used.input)))
}

/// The content of an assistant message: its reasoning, its text and its tool uses, where it has
/// them.
pub open spec fn assistant_content(
    thought: Option<Seq<char>>,
    text: Option<Seq<char>>,
    uses: Seq<ToolUse>,
) -> Seq<Json> {
    spoken_blocks(thought, either(text, Seq::empty())) + use_blocks(uses)
}

/// An assistant message with this content.
pub open spec fn assistant(content: Seq<Json>) -> Json {
    Json::Record(map!["role"@ => Json::Text("assistant"@), "content"@ => Json::List(content)])
}

/// A chat response whose one choice holds a message and nothing else.
pub open spec fn bare_response(message: Json) -> Json {
    Json::Record(
        map!["choices"@ => Json::List(seq![Json::Record(map!["message"@ => message])])],
    )
}

spec fn spoken_pieces(thought: Option<Seq<char>>, text: Option<Seq<char>>) -> Seq<Piece> {
    let opening = match thought {
        Some(t) => seq![Piece::Thought(t)],
        None => Seq::empty(),
    };
    match text {
        Some(t) => opening.push(Piece::Words(t)),
        None => opening,
    }
}

spec fn call_pieces(uses: Seq<ToolUse>) -> Seq<Piece> {
    uses.map_values(
        |used: ToolUse| Piece::Call(tool_call(used.id, used.name, printed(used.input))),
    )
}

proof fn lemma_call_picks(uses: Seq<ToolUse>)
    ensures
        pick(call_pieces(uses), calls()) == use_calls(uses),
        pick(call_pieces(uses), words()) == Seq::<Seq<char>>::empty(),
        pick(call_pieces(uses), thoughts()) == Seq::<Seq<char>>::empty(),
    decreases uses.len(),
{
    if uses.len() > 0 {
        lemma_call_picks(uses.drop_last());
        assert(call_pieces(uses).drop_last() =~= call_pieces(uses.drop_last()));
        assert(use_calls(uses) =~= use_calls(uses.drop_last()).push(use_calls(uses).last()));
    } else {
        assert(use_calls(uses) =~= Seq::<Json>::empty());
    }
}

proof fn lemma_spoken_picks(thought: Option<Seq<char>>, text: Option<Seq<char>>)
    ensures
        pick(spoken_pieces(thought, text), calls()) == Seq::<Json>::empty(),
        pick(spoken_pieces(thought, text), words()) == (match text {
            Some(t) => seq![t],
            None => Seq::empty(),
        }),
        pick(spoken_pieces(thought, text), thoughts()) == (match thought {
            Some(t) => seq![t],
            None => Seq::empty(),
        }),
{
    reveal_with_fuel(pick, 3);
    let pieces = spoken_pieces(thought, text);
    let opening = spoken_pieces(thought, None);
    if thought is Some {
        assert(opening.drop_last() =~= Seq::<Piece>::empty());
    }
    if text is Some {
        assert(pieces.drop_last() =~= opening);
    }
    assert(pick(pieces, words()) =~= (match text {
        Some(t) => seq![t],
        None => Seq::empty(),
    }));
    assert(pick(pieces, thoughts()) =~= (match thought {
        Some(t) => seq![t],
        None => Seq::empty(),
    }));
}

proof fn lemma_joined_one(parts: Seq<Seq<char>>)
    ensures
        parts.len() == 0 ==> joined(parts) == Seq::<char>::empty(),
        parts.len() == 1 ==> joined(parts) == parts[0],
{
    reveal_with_fuel(joined, 2);
    if parts.len() == 1 {
        assert(parts.drop_last() =~= Seq::<Seq<char>>::empty());
        assert(Seq::<char>::empty() + parts[0] =~= parts[0]);
    }
}

/// The chat message for an assistant message with reasoning, text and tool uses.
pub open spec fn chat_assistant(
    thought: Option<Seq<char>>,
    text: Option<Seq<char>>,
    uses: Seq<ToolUse>,
) -> Json {
    Json::Record(
        put_some(
            put_some(
                map![
                    "role"@ => Json::Text("assistant"@),
                    "content"@ => match text {
                        Some(t) => Json::Text(t),
                        None => Json::Null,
                    },
                ],
                "reasoning_content"@,
                match thought {
                    Some(t) => Some(Json::Text(t)),
                    None => None,
                },
            ),
            "tool_calls"@,
            if uses.len() == 0 {
                None
            } else {
                Some(Json::List(use_calls(uses)))
            },
        ),
    )
}

proof fn lemma_block_kinds(text: Seq<char>)
    ensures
        block_piece("assistant"@, text_block(text)) == Ok::<Piece, Seq<char>>(Piece::Words(text)),
        block_piece("assistant"@, thinking_block(text)) == Ok::<Piece, Seq<char>>(
            Piece::Thought(text),
        ),
{
    reveal_strlit("type");
    reveal_strlit("text");
    reveal_strlit("thinking");
    reveal_strlit("image");
    reveal_strlit("tool_use");
    reveal_strlit("tool_result");
    assert("type"@.len() == 4 && "type"@[1] == 'y' && "text"@.len() == 4 && "text"@[1] == 'e');
    assert("thinking"@.len() == 8 && "thinking"@[1] == 'h');
    assert("image"@.len() == 5 && "tool_use"@.len() == 8 && "tool_use"@[1] == 'o');
    assert("tool_result"@.len() == 11);
}

/// An assistant message with reasoning, text and tool uses becomes one chat message that says the
/// same.
pub proof fn lemma_assistant_there(
    thought: Option<Seq<char>>,
    text: Option<Seq<char>>,
    uses: Seq<ToolUse>,
)
    requires
        thought is Some || text is Some || uses.len() > 0,
        thought matches Some(t) ==> t.len() > 0,
        text matches Some(t) ==> t.len() > 0,
        forall|i: int| 0 <= i < uses.len() ==> is_whole(#[trigger] uses[i]),
    ensures
        message_run(assistant(assistant_content(thought, text, uses))) == Ok::<
            Seq<Json>,
            Seq<char>,
        >(seq![chat_assistant(thought, text, uses)]),
        chat_messages(
            Json::List(seq![assistant(assistant_content(thought, text, uses))]),
            None,
        ) == Ok::<Seq<Json>, Seq<char>>(seq![chat_assistant(thought, text, uses)]),
{
    let content = assistant_content(thought, text, uses);
    let spoken = spoken_blocks(thought, either(text, Seq::empty()));
    let first = spoken_pieces(thought, text);
    let second = call_pieces(uses);
    let pieces = first + second;
    let role = "assistant"@;
    reveal_strlit("role");
    reveal_strlit("content");
    reveal_strlit("assistant");
    reveal_strlit("system");
    assert("role"@.len() == 4 && "content"@.len() == 7);
    assert("assistant"@.len() == 9 && "system"@.len() == 6);
    assert forall|i: int| 0 <= i < content.len() implies block_of(role)(#[trigger] content[i])
        == Ok::<Piece, Seq<char>>(pieces[i]) by {
        if i < spoken.len() {
            lemma_block_kinds(either(thought, Seq::empty()));
            lemma_block_kinds(either(text, Seq::empty()));
        } else {
            let used = uses[i - spoken.len()];
            assert(is_whole(used));
            lemma_tool_use_round_trip(used.id, used.name, used.input);
        }
    }
    lemma_try_all_gives(content, block_of(role), pieces);
    lemma_pick_append(first, second, calls());
    lemma_pick_append(first, second, words());
    lemma_pick_append(first, second, thoughts());
    lemma_call_picks(uses);
    lemma_spoken_picks(thought, text);
    assert(pick(pieces, words()) =~= pick(first, words()));
    assert(pick(pieces, thoughts()) =~= pick(first, thoughts()));
    assert(pick(pieces, calls()) =~= use_calls(uses));
    lemma_joined_one(pick(pieces, words()));
    lemma_joined_one(pick(pieces, thoughts()));
    let single = chat_assistant(thought, text, uses);
    assert(assistant_message(pieces) == Ok::<Json, Seq<char>>(single));
    let msg = assistant(content);
    let items = seq![msg];
    let runs = seq![seq![single]];
    assert(message_run(msg) == Ok::<Seq<Json>, Seq<char>>(seq![single]));
    lemma_try_all_gives(items, run(), runs);
    reveal_with_fuel(joined, 2);
    assert(runs.drop_last() =~= Seq::<Seq<Json>>::empty());
    assert(Seq::<Json>::empty() + (Seq::<Json>::empty() + seq![single]) =~= seq![single]);
}

proof fn lemma_chat_assistant_members(
    thought: Option<Seq<char>>,
    text: Option<Seq<char>>,
    uses: Seq<ToolUse>,
)
    requires
        thought matches Some(t) ==> t.len() > 0,
    ensures
        reasoning(chat_assistant(thought, text, uses)) == thought,
        content_text(chat_assistant(thought, text, uses)) == Ok::<Seq<char>, Seq<char>>(
            either(text, Seq::empty()),
        ),
        calls_in(chat_assistant(thought, text, uses)) == use_calls(uses),
        field(chat_assistant(thought, text, uses), "refusal"@) is None,
{
    reveal_strlit("role");
    reveal_strlit("content");
    reveal_strlit("reasoning_content");
    reveal_strlit("tool_calls");
    reveal_strlit("thinking");
    reveal_strlit("refusal");
    assert("role"@.len() == 4 && "content"@.len() == 7 && "content"@[0] == 'c');
    assert("reasoning_content"@.len() == 17 && "tool_calls"@.len() == 10);
    assert("thinking"@.len() == 8 && "refusal"@.len() == 7 && "refusal"@[0] == 'r');
    if uses.len() == 0 {
        assert(use_calls(uses) =~= Seq::<Json>::empty());
    }
}

/// Whether parsing gives back the input of every tool use once it is printed.
pub open spec fn inputs_parse_back(uses: Seq<ToolUse>) -> bool {
    forall|i: int|
        0 <= i < uses.len() ==> gives(
            parsed(printed((#[trigger] uses[i]).input)),
            uses[i].input,
        )
}

/// Whether a response holds this content and this stop reason.
pub open spec fn says(
    response: Result<Json, Seq<char>>,
    content: Seq<Json>,
    reason: Seq<char>,
) -> bool {
    response matches Ok(value) && content_of(value) == content && text_field(
        value,
        "stop_reason"@,
    ) == Some(reason)
}

proof fn lemma_assistant_back(
    thought: Option<Seq<char>>,
    text: Option<Seq<char>>,
    uses: Seq<ToolUse>,
    model: Seq<char>,
    fresh: Seq<char>,
)
    requires
        thought is Some || text is Some || uses.len() > 0,
        thought matches Some(t) ==> t.len() > 0,
        text matches Some(t) ==> t.len() > 0,
        forall|i: int| 0 <= i < uses.len() ==> is_whole(#[trigger] uses[i]),
        inputs_parse_back(uses),
    ensures
        ({
            let resp = bare_response(chat_assistant(thought, text, uses));
            says(
                messages_response(resp, model, call_readings(response_calls(resp)), fresh),
                assistant_content(thought, text, uses),
                if uses.len() > 0 {
                    "tool_use"@
                } else {
                    "end_turn"@
                },
            )
        }),
{
    let message = chat_assistant(thought, text, uses);
    let resp = bare_response(message);
    lemma_chat_assistant_members(thought, text, uses);
    reveal_strlit("message");
    reveal_strlit("finish_reason");
    assert("message"@.len() == 7 && "finish_reason"@.len() == 13);
    assert(first_choice(resp) == Some(Json::Record(map!["message"@ => message])));
    assert(field_of(first_choice(resp), "message"@) == Some(message));
    assert(field_of(first_choice(resp), "finish_reason"@) is None);
    let made = use_calls(uses);
    let readings = call_readings(made);
    let pairs = paired(made, readings);
    let blocks = use_blocks(uses);
    assert forall|i: int| 0 <= i < pairs.len() implies tool_use_of()(#[trigger] pairs[i]) == Ok::<
        Json,
        Seq<char>,
    >(blocks[i]) by {
        let used = uses[i];
        assert(is_whole(used));
        lemma_tool_use_round_trip(used.id, used.name, used.input);
        assert(gives(parsed(printed(used.input)), used.input));
        assert(made[i] == tool_call(used.id, used.name, printed(used.input)));
        assert(readings[i] == call_reading(made[i]));
    }
    lemma_try_all_gives(pairs, tool_use_of(), blocks);
    reveal_strlit("stop");
    reveal_strlit("length");
    reveal_strlit("tool_calls");
    reveal_strlit("content_filter");
    assert("stop"@.len() == 4 && "length"@.len() == 6 && "tool_calls"@.len() == 10);
    assert("content_filter"@.len() == 14);
    assert(made.len() == uses.len());
    lemma_response_keys();
    reveal_strlit("stop_reason");
    reveal_strlit("stop_sequence");
    reveal_strlit("usage");
    assert("stop_reason"@.len() == 11 && "stop_sequence"@.len() == 13 && "usage"@.len() == 5);
    let spoken = spoken_blocks(thought, either(text, Seq::empty()));
    assert(spoken.len() + blocks.len() > 0);
}

/// An assistant message comes back as it was sent. Its reasoning, its text and its tool uses,
/// where it has them, become one chat message; a chat response that holds this message becomes a
/// response with the same content, block for block, and it stopped for its tool uses where it has
/// any, and else at the end of its turn. Parsing has to give back the inputs that were printed: it
/// does of a conversation that was converted, where they hold no number but integers and nest no
/// deeper than the parser allows.
pub proof fn lemma_assistant_round_trip(
    thought: Option<Seq<char>>,
    text: Option<Seq<char>>,
    uses: Seq<ToolUse>,
    model: Seq<char>,
    fresh: Seq<char>,
)
    requires
        thought is Some || text is Some || uses.len() > 0,
        thought matches Some(t) ==> t.len() > 0,
        text matches Some(t) ==> t.len() > 0,
        forall|i: int| 0 <= i < uses.len() ==> is_whole(#[trigger] uses[i]),
    ensures
        ({
            let content = assistant_content(thought, text, uses);
            let conversation = Json::List(seq![assistant(content)]);
            let sent = chat_messages(conversation, None);
            let resp = bare_response(sent->Ok_0[0]);
            &&& sent is Ok && sent->Ok_0.len() == 1
            &&& inputs_parse_back(uses) || (conversation_comes_back(conversation) && forall|i: int|
                0 <= i < uses.len() ==> fits((#[trigger] uses[i]).input, 127)) ==> says(
                messages_response(resp, model, call_readings(response_calls(resp)), fresh),
                content,
                if uses.len() > 0 {
                    "tool_use"@
                } else {
                    "end_turn"@
                },
            )
        }),
{
    let content = assistant_content(thought, text, uses);
    let msg = assistant(content);
    let conversation = Json::List(seq![msg]);
    lemma_assistant_there(thought, text, uses);
    if conversation_comes_back(conversation) && forall|i: int|
        0 <= i < uses.len() ==> fits((#[trigger] uses[i]).input, 127) {
        let spoken = spoken_blocks(thought, either(text, Seq::empty()));
        reveal_strlit("role");
        reveal_strlit("content");
        reveal_strlit("type");
        reveal_strlit("id");
        reveal_strlit("name");
        reveal_strlit("input");
        assert("role"@.len() == 4 && "content"@.len() == 7);
        assert("type"@.len() == 4 && "type"@[0] == 't' && "id"@.len() == 2);
        assert("name"@.len() == 4 && "name"@[0] == 'n' && "input"@.len() == 5);
        assert(seq![msg][0] == msg);
        assert(inputs_come_back(seq![msg][0]));
        assert(list_field(msg, "content"@) == Some(content));
        assert(all_come_back(content));
        assert forall|i: int| 0 <= i < uses.len() implies gives(
            parsed(printed((#[trigger] uses[i]).input)),
            uses[i].input,
        ) by {
            assert(input_comes_back(content[spoken.len() + i]));
            assert(content[spoken.len() + i] == tool_use(
                uses[i].id,
                uses[i].name,
                uses[i].input,
            ));
        }
        assert(inputs_parse_back(uses));
    }
    if inputs_parse_back(uses) {
        lemma_assistant_back(thought, text, uses, model, fresh);
    }
}

// ---------------------------------------------------------------------------
// Conversations, part by part
// ---------------------------------------------------------------------------

/// A conversation converts part by part: the chat messages of two parts, one after the other, are
/// those of the whole, and the first part that is refused decides.
pub proof fn lemma_conversation_by_parts(
    first: Seq<Json>,
    second: Seq<Json>,
    system: Option<Seq<char>>,
)
    ensures
        chat_messages(Json::List(first + second), system) == (match chat_messages(
            Json::List(first),
            system,
        ) {
            Ok(x) => match chat_messages(Json::List(second), None) {
                Ok(y) => Ok(x + y),
                Err(error) => Err(error),
            },
            Err(error) => Err(error),
        }),
{
    lemma_try_all_append(first, second, run());
    if try_all(first, run()) is Ok && try_all(second, run()) is Ok {
        let x = try_all(first, run())->Ok_0;
        let y = try_all(second, run())->Ok_0;
        lemma_joined_append(x, y);
        assert(opening(None) + joined(y) =~= joined(y));
        assert(opening(system) + (joined(x) + joined(y)) =~= opening(system) + joined(x)
            + joined(y));
    }
}

/// Whether a message is plain: it has one of the three roles, and a text.
pub open spec fn is_plain(msg: Json) -> bool {
    exists|role: Seq<char>, text: Seq<char>|
        (role == "user"@ || role == "assistant"@ || role == "system"@) && msg == #[trigger] message(
            role,
            Json::Text(text),
        )
}

/// Plain messages are chat messages already: converting them changes nothing, the first time and
/// every time after.
pub proof fn lemma_plain_unchanged(messages: Seq<Json>)
    requires
        forall|i: int| 0 <= i < messages.len() ==> is_plain(#[trigger] messages[i]),
    ensures
        chat_messages(Json::List(messages), None) == Ok::<Seq<Json>, Seq<char>>(messages),
{
    let runs = messages.map_values(|msg: Json| seq![msg]);
    reveal_strlit("role");
    reveal_strlit("content");
    assert("role"@.len() == 4 && "content"@.len() == 7);
    assert forall|i: int| 0 <= i < messages.len() implies run()(#[trigger] messages[i]) == Ok::<
        Seq<Json>,
        Seq<char>,
    >(runs[i]) by {
        let msg = messages[i];
        assert(is_plain(msg));
        let (role, text) = choose|role: Seq<char>, text: Seq<char>|
            (role == "user"@ || role == "assistant"@ || role == "system"@) && msg
                == #[trigger] message(role, Json::Text(text));
        assert(field(msg, "role"@) == Some(Json::Text(role)));
        assert(field(msg, "content"@) == Some(Json::Text(text)));
    }
    lemma_try_all_gives(messages, run(), runs);
    lemma_joined_singles(messages);
    assert(Seq::<Json>::empty() + messages =~= messages);
}

} // verus!
