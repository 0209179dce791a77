//! The names of members and of kinds, told apart.
use vstd::prelude::*;
use vstd::string::*;

verus! {

/// The length of a name, its first two characters, the one in its middle and its last. No two of
/// the names below have the same.
pub closed spec fn mark(name: Seq<char>) -> (nat, char, char, char, char) {
    (name.len(), name[0], name[1], name[name.len() as int / 2], name.last())
}

/// Names with different marks are different names.
pub proof fn lemma_names()
    ensures
        mark(Seq::<char>::empty()).0 == 0,
        mark("adaptive"@) == ((8 as nat), 'a', 'd', 't', 'e'),
        mark("any"@) == ((3 as nat), 'a', 'n', 'n', 'y'),
        mark("arguments"@) == ((9 as nat), 'a', 'r', 'm', 's'),
        mark("assistant"@) == ((9 as nat), 'a', 's', 's', 't'),
        mark("authorization"@) == ((13 as nat), 'a', 'u', 'i', 'n'),
        mark("auto"@) == ((4 as nat), 'a', 'u', 't', 'o'),
        mark("base64"@) == ((6 as nat), 'b', 'a', 'e', '4'),
        mark("budget_tokens"@) == ((13 as nat), 'b', 'u', '_', 's'),
        mark("cache_control"@) == ((13 as nat), 'c', 'a', 'c', 'l'),
        mark("call_"@) == ((5 as nat), 'c', 'a', 'l', '_'),
        mark("call_id"@) == ((7 as nat), 'c', 'a', 'l', 'd'),
        mark("chat.completion.chunk"@) == ((21 as nat), 'c', 'h', 'e', 'k'),
        mark("choices"@) == ((7 as nat), 'c', 'h', 'i', 's'),
        mark("completed"@) == ((9 as nat), 'c', 'o', 'l', 'd'),
        mark("completion_tokens"@) == ((17 as nat), 'c', 'o', 'o', 's'),
        mark("container"@) == ((9 as nat), 'c', 'o', 'a', 'r'),
        mark("content"@) == ((7 as nat), 'c', 'o', 't', 't'),
        mark("content_block"@) == ((13 as nat), 'c', 'o', 't', 'k'),
        mark("content_block_delta"@) == ((19 as nat), 'c', 'o', 'l', 'a'),
        mark("content_block_start"@) == ((19 as nat), 'c', 'o', 'l', 't'),
        mark("content_block_stop"@) == ((18 as nat), 'c', 'o', 'l', 'p'),
        mark("content_filter"@) == ((14 as nat), 'c', 'o', '_', 'r'),
        mark("context_management"@) == ((18 as nat), 'c', 'o', 'a', 't'),
        mark("created_at"@) == ((10 as nat), 'c', 'r', 'e', 't'),
        mark("custom"@) == ((6 as nat), 'c', 'u', 't', 'm'),
        mark("data"@) == ((4 as nat), 'd', 'a', 't', 'a'),
        mark("delta"@) == ((5 as nat), 'd', 'e', 'l', 'a'),
        mark("description"@) == ((11 as nat), 'd', 'e', 'i', 'n'),
        mark("developer"@) == ((9 as nat), 'd', 'e', 'l', 'r'),
        mark("disable_parallel_tool_use"@) == ((25 as nat), 'd', 'i', 'l', 'e'),
        mark("disabled"@) == ((8 as nat), 'd', 'i', 'b', 'd'),
        mark("effort"@) == ((6 as nat), 'e', 'f', 'o', 't'),
        mark("enabled"@) == ((7 as nat), 'e', 'n', 'b', 'd'),
        mark("end_turn"@) == ((8 as nat), 'e', 'n', 't', 'n'),
        mark("fc_"@) == ((3 as nat), 'f', 'c', 'c', '_'),
        mark("finish_reason"@) == ((13 as nat), 'f', 'i', '_', 'n'),
        mark("function"@) == ((8 as nat), 'f', 'u', 't', 'n'),
        mark("function_call"@) == ((13 as nat), 'f', 'u', 'o', 'l'),
        mark("function_call_output"@) == ((20 as nat), 'f', 'u', 'a', 't'),
        mark("high"@) == ((4 as nat), 'h', 'i', 'g', 'h'),
        mark("id"@) == ((2 as nat), 'i', 'd', 'd', 'd'),
        mark("image"@) == ((5 as nat), 'i', 'm', 'a', 'e'),
        mark("image_url"@) == ((9 as nat), 'i', 'm', 'e', 'l'),
        mark("include_usage"@) == ((13 as nat), 'i', 'n', 'e', 'e'),
        mark("index"@) == ((5 as nat), 'i', 'n', 'd', 'x'),
        mark("input"@) == ((5 as nat), 'i', 'n', 'p', 't'),
        mark("input_json_delta"@) == ((16 as nat), 'i', 'n', 'o', 'a'),
        mark("input_schema"@) == ((12 as nat), 'i', 'n', 's', 'a'),
        mark("input_tokens"@) == ((12 as nat), 'i', 'n', 't', 's'),
        mark("instructions"@) == ((12 as nat), 'i', 'n', 'c', 's'),
        mark("is_error"@) == ((8 as nat), 'i', 's', 'r', 'r'),
        mark("length"@) == ((6 as nat), 'l', 'e', 'g', 'h'),
        mark("low"@) == ((3 as nat), 'l', 'o', 'o', 'w'),
        mark("max_output_tokens"@) == ((17 as nat), 'm', 'a', 'u', 's'),
        mark("max_tokens"@) == ((10 as nat), 'm', 'a', 'o', 's'),
        mark("media_type"@) == ((10 as nat), 'm', 'e', '_', 'e'),
        mark("medium"@) == ((6 as nat), 'm', 'e', 'i', 'm'),
        mark("message"@) == ((7 as nat), 'm', 'e', 's', 'e'),
        mark("message_delta"@) == ((13 as nat), 'm', 'e', 'e', 'a'),
        mark("message_start"@) == ((13 as nat), 'm', 'e', 'e', 't'),
        mark("message_stop"@) == ((12 as nat), 'm', 'e', 'e', 'p'),
        mark("messages"@) == ((8 as nat), 'm', 'e', 'a', 's'),
        mark("minimal"@) == ((7 as nat), 'm', 'i', 'i', 'l'),
        mark("model"@) == ((5 as nat), 'm', 'o', 'd', 'l'),
        mark("msg_"@) == ((4 as nat), 'm', 's', 'g', '_'),
        mark("name"@) == ((4 as nat), 'n', 'a', 'm', 'e'),
        mark("none"@) == ((4 as nat), 'n', 'o', 'n', 'e'),
        mark("object"@) == ((6 as nat), 'o', 'b', 'e', 't'),
        mark("output"@) == ((6 as nat), 'o', 'u', 'p', 't'),
        mark("output_config"@) == ((13 as nat), 'o', 'u', '_', 'g'),
        mark("output_text"@) == ((11 as nat), 'o', 'u', 't', 't'),
        mark("output_tokens"@) == ((13 as nat), 'o', 'u', '_', 's'),
        mark("parallel_tool_calls"@) == ((19 as nat), 'p', 'a', 't', 's'),
        mark("parameters"@) == ((10 as nat), 'p', 'a', 'e', 's'),
        mark("partial_json"@) == ((12 as nat), 'p', 'a', 'l', 'n'),
        mark("ping"@) == ((4 as nat), 'p', 'i', 'n', 'g'),
        mark("prompt_tokens"@) == ((13 as nat), 'p', 'r', '_', 's'),
        mark("properties"@) == ((10 as nat), 'p', 'r', 'r', 's'),
        mark("reasoning_content"@) == ((17 as nat), 'r', 'e', 'g', 't'),
        mark("reasoning_effort"@) == ((16 as nat), 'r', 'e', 'g', 't'),
        mark("redacted_thinking"@) == ((17 as nat), 'r', 'e', '_', 'g'),
        mark("refusal"@) == ((7 as nat), 'r', 'e', 'u', 'l'),
        mark("required"@) == ((8 as nat), 'r', 'e', 'i', 'd'),
        mark("resp_"@) == ((5 as nat), 'r', 'e', 's', '_'),
        mark("response"@) == ((8 as nat), 'r', 'e', 'o', 'e'),
        mark("role"@) == ((4 as nat), 'r', 'o', 'l', 'e'),
        mark("signature_delta"@) == ((15 as nat), 's', 'i', 'r', 'a'),
        mark("source"@) == ((6 as nat), 's', 'o', 'r', 'e'),
        mark("status"@) == ((6 as nat), 's', 't', 't', 's'),
        mark("stop"@) == ((4 as nat), 's', 't', 'o', 'p'),
        mark("stop_reason"@) == ((11 as nat), 's', 't', 'r', 'n'),
        mark("stop_sequence"@) == ((13 as nat), 's', 't', 'e', 'e'),
        mark("stop_sequences"@) == ((14 as nat), 's', 't', 'q', 's'),
        mark("stream"@) == ((6 as nat), 's', 't', 'e', 'm'),
        mark("stream_options"@) == ((14 as nat), 's', 't', 'o', 's'),
        mark("strict"@) == ((6 as nat), 's', 't', 'i', 't'),
        mark("system"@) == ((6 as nat), 's', 'y', 't', 'm'),
        mark("temperature"@) == ((11 as nat), 't', 'e', 'r', 'e'),
        mark("text"@) == ((4 as nat), 't', 'e', 'x', 't'),
        mark("text_delta"@) == ((10 as nat), 't', 'e', 'd', 'a'),
        mark("thinking"@) == ((8 as nat), 't', 'h', 'k', 'g'),
        mark("thinking_delta"@) == ((14 as nat), 't', 'h', 'g', 'a'),
        mark("tool"@) == ((4 as nat), 't', 'o', 'o', 'l'),
        mark("tool_call_id"@) == ((12 as nat), 't', 'o', 'a', 'd'),
        mark("tool_calls"@) == ((10 as nat), 't', 'o', 'c', 's'),
        mark("tool_choice"@) == ((11 as nat), 't', 'o', 'c', 'e'),
        mark("tool_result"@) == ((11 as nat), 't', 'o', 'r', 't'),
        mark("tool_use"@) == ((8 as nat), 't', 'o', '_', 'e'),
        mark("tool_use_id"@) == ((11 as nat), 't', 'o', 'u', 'd'),
        mark("tools"@) == ((5 as nat), 't', 'o', 'o', 's'),
        mark("top_k"@) == ((5 as nat), 't', 'o', 'p', 'k'),
        mark("top_p"@) == ((5 as nat), 't', 'o', 'p', 'p'),
        mark("total_tokens"@) == ((12 as nat), 't', 'o', 't', 's'),
        mark("type"@) == ((4 as nat), 't', 'y', 'p', 'e'),
        mark("url"@) == ((3 as nat), 'u', 'r', 'r', 'l'),
        mark("usage"@) == ((5 as nat), 'u', 's', 'a', 'e'),
        mark("user"@) == ((4 as nat), 'u', 's', 'e', 'r'),
        mark("xhigh"@) == ((5 as nat), 'x', 'h', 'i', 'h'),
{
    reveal_strlit("adaptive");
    reveal_strlit("any");
    reveal_strlit("arguments");
    reveal_strlit("assistant");
    reveal_strlit("authorization");
    reveal_strlit("auto");
    reveal_strlit("base64");
    reveal_strlit("budget_tokens");
    reveal_strlit("cache_control");
    reveal_strlit("call_");
    reveal_strlit("call_id");
    reveal_strlit("chat.completion.chunk");
    reveal_strlit("choices");
    reveal_strlit("completed");
    reveal_strlit("completion_tokens");
    reveal_strlit("container");
    reveal_strlit("content");
    reveal_strlit("content_block");
    reveal_strlit("content_block_delta");
    reveal_strlit("content_block_start");
    reveal_strlit("content_block_stop");
    reveal_strlit("content_filter");
    reveal_strlit("context_management");
    reveal_strlit("created_at");
    reveal_strlit("custom");
    reveal_strlit("data");
    reveal_strlit("delta");
    reveal_strlit("description");
    reveal_strlit("developer");
    reveal_strlit("disable_parallel_tool_use");
    reveal_strlit("disabled");
    reveal_strlit("effort");
    reveal_strlit("enabled");
    reveal_strlit("end_turn");
    reveal_strlit("fc_");
    reveal_strlit("finish_reason");
    reveal_strlit("function");
    reveal_strlit("function_call");
    reveal_strlit("function_call_output");
    reveal_strlit("high");
    reveal_strlit("id");
    reveal_strlit("image");
    reveal_strlit("image_url");
    reveal_strlit("include_usage");
    reveal_strlit("index");
    reveal_strlit("input");
    reveal_strlit("input_json_delta");
    reveal_strlit("input_schema");
    reveal_strlit("input_tokens");
    reveal_strlit("instructions");
    reveal_strlit("is_error");
    reveal_strlit("length");
    reveal_strlit("low");
    reveal_strlit("max_output_tokens");
    reveal_strlit("max_tokens");
    reveal_strlit("media_type");
    reveal_strlit("medium");
    reveal_strlit("message");
    reveal_strlit("message_delta");
    reveal_strlit("message_start");
    reveal_strlit("message_stop");
    reveal_strlit("messages");
    reveal_strlit("minimal");
    reveal_strlit("model");
    reveal_strlit("msg_");
    reveal_strlit("name");
    reveal_strlit("none");
    reveal_strlit("object");
    reveal_strlit("output");
    reveal_strlit("output_config");
    reveal_strlit("output_text");
    reveal_strlit("output_tokens");
    reveal_strlit("parallel_tool_calls");
    reveal_strlit("parameters");
    reveal_strlit("partial_json");
    reveal_strlit("ping");
    reveal_strlit("prompt_tokens");
    reveal_strlit("properties");
    reveal_strlit("reasoning_content");
    reveal_strlit("reasoning_effort");
    reveal_strlit("redacted_thinking");
    reveal_strlit("refusal");
    reveal_strlit("required");
    reveal_strlit("resp_");
    reveal_strlit("response");
    reveal_strlit("role");
    reveal_strlit("signature_delta");
    reveal_strlit("source");
    reveal_strlit("status");
    reveal_strlit("stop");
    reveal_strlit("stop_reason");
    reveal_strlit("stop_sequence");
    reveal_strlit("stop_sequences");
    reveal_strlit("stream");
    reveal_strlit("stream_options");
    reveal_strlit("strict");
    reveal_strlit("system");
    reveal_strlit("temperature");
    reveal_strlit("text");
    reveal_strlit("text_delta");
    reveal_strlit("thinking");
    reveal_strlit("thinking_delta");
    reveal_strlit("tool");
    reveal_strlit("tool_call_id");
    reveal_strlit("tool_calls");
    reveal_strlit("tool_choice");
    reveal_strlit("tool_result");
    reveal_strlit("tool_use");
    reveal_strlit("tool_use_id");
    reveal_strlit("tools");
    reveal_strlit("top_k");
    reveal_strlit("top_p");
    reveal_strlit("total_tokens");
    reveal_strlit("type");
    reveal_strlit("url");
    reveal_strlit("usage");
    reveal_strlit("user");
    reveal_strlit("xhigh");
}

} // verus!
