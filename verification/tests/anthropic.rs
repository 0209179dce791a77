//! Conversions between Messages and Chat Completions.
use chat_bridge::anthropic::messages::convert_anthropic_messages_to_openai;
use chat_bridge::anthropic::tokens::estimate_fits;
use chat_bridge::json::{parse_json, print_json, JsonValue};
use chat_bridge::{anthropic_to_openai, estimate_anthropic_input_tokens, openai_to_anthropic};
use serde_json::Value;

fn json(text: &str) -> JsonValue {
    parse_json(text).unwrap()
}

fn value(json: &JsonValue) -> Value {
    serde_json::from_str(&print_json(json).unwrap()).unwrap()
}

fn to_chat(text: &str) -> Result<Value, String> {
    anthropic_to_openai(&json(text)).map(|request| value(&request))
}

fn to_messages(text: &str) -> Result<Value, String> {
    openai_to_anthropic(&json(text), "model").map(|response| value(&response))
}

#[test]
fn counts_structured_anthropic_input() {
    let body = json(
        r#"{
            "model": "test-model",
            "system": [{"type": "text", "text": "system prompt"}],
            "tools": [{"name": "read", "input_schema": {"type": "object"}}],
            "messages": [{"role": "user", "content": [{"type": "text", "text": "hello"}]}]
        }"#,
    );
    assert!(estimate_anthropic_input_tokens(&body) > 1);
    // "text" 1, "system prompt" 4, "read" 1, "object" 2, "user" 1, "text" 1, "hello" 2.
    assert_eq!(estimate_anthropic_input_tokens(&body), 12);
}

#[test]
fn maps_tools_parallel_control_and_mixed_tool_results() {
    let converted = to_chat(
        r#"{
            "model": "compatible",
            "max_tokens": 32,
            "system": [{"type":"text", "text":"be concise"}],
            "tools": [{"name":"weather", "description":"weather", "input_schema":{"type":"object"}}],
            "tool_choice": {"type":"any", "disable_parallel_tool_use":true},
            "messages": [
                {"role":"assistant", "content":[{"type":"text","text":"checking"},{"type":"tool_use","id":"call_1","name":"weather","input":{"city":"Paris"}}]},
                {"role":"user", "content":[{"type":"tool_result","tool_use_id":"call_1","content":"sunny"},{"type":"text","text":"thanks"}]}
            ]
        }"#,
    )
    .unwrap();
    assert_eq!(converted["parallel_tool_calls"], false);
    assert_eq!(converted["tool_choice"], "required");
    assert_eq!(
        converted["tools"][0]["function"]["parameters"]["type"],
        "object"
    );
    assert_eq!(
        converted["messages"][1]["tool_calls"][0]["function"]["arguments"],
        "{\"city\":\"Paris\"}"
    );
    assert_eq!(converted["messages"][2]["role"], "tool");
    assert_eq!(converted["messages"][3]["content"][0]["text"], "thanks");
}

#[test]
fn maps_mid_conversation_system_messages_to_chat_system_role() {
    let converted = to_chat(
        r#"{
            "model": "compatible",
            "messages": [
                {"role":"user", "content":"use the strict profile"},
                {"role":"system", "content":[{"type":"text", "text":"strict profile active", "cache_control":{"type":"ephemeral"}}]},
                {"role":"assistant", "content":[{"type":"text", "text":"ack"}]}
            ]
        }"#,
    )
    .unwrap();
    assert_eq!(converted["messages"][0]["role"], "user");
    assert_eq!(converted["messages"][1]["role"], "system");
    assert_eq!(converted["messages"][1]["content"], "strict profile active");
    assert_eq!(converted["messages"][2]["role"], "assistant");
}

#[test]
fn legacy_tool_choice_strings_map_or_reject() {
    for (input, expected) in [("auto", "auto"), ("any", "required")] {
        let request = format!(
            r#"{{"model":"model","messages":[{{"role":"user","content":"hi"}}],"tool_choice":"{}"}}"#,
            input
        );
        let converted = to_chat(&request).unwrap();
        assert_eq!(converted["tool_choice"], expected);
    }

    let request = r#"{
        "model": "model",
        "messages": [{"role":"user", "content":"hi"}],
        "tool_choice": "tool"
    }"#;
    assert!(to_chat(request).is_err());

    let request = r#"{
        "model": "model",
        "messages": [{"role":"user", "content":"hi"}],
        "tool_choice": "bogus"
    }"#;
    assert!(to_chat(request).is_err());
}

#[test]
fn legacy_tool_use_requires_input_not_fabricated() {
    let request = r#"{
        "model": "model",
        "messages": [{"role":"assistant", "content":[{"type":"tool_use", "id":"call_1", "name":"run"}]}]
    }"#;
    assert!(to_chat(request).is_err());

    let request = r#"{
        "model": "model",
        "messages": [{"role":"assistant", "content":[{"type":"tool_use", "id":"call_1", "name":"run", "input":[]}]}]
    }"#;
    assert!(to_chat(request).is_err());

    let request = r#"{
        "model": "model",
        "messages": [{"role":"assistant", "content":[{"type":"tool_use", "id":"call_1", "name":"run", "input":{}}]}]
    }"#;
    let converted = to_chat(request).unwrap();
    assert_eq!(
        converted["messages"][0]["tool_calls"][0]["function"]["arguments"],
        "{}"
    );
}

#[test]
fn rejects_invalid_openai_tool_arguments_without_inventing_input() {
    let response = r#"{"choices":[{"finish_reason":"tool_calls", "message":{"role":"assistant", "content":null, "tool_calls":[{"id":"call_1", "function":{"name":"run", "arguments":"{bad"}}]}}]}"#;
    assert!(to_messages(response).is_err());
}

#[test]
fn rejects_non_object_openai_tool_arguments_and_strips_cache_controls() {
    let response = r#"{"choices":[{"message":{"role":"assistant", "tool_calls":[{"id":"call_1", "function":{"name":"run", "arguments":"[]"}}]}}]}"#;
    assert!(to_messages(response).is_err());

    let cache_in_system = r#"{"model":"model", "system":[{"type":"text", "text":"cached", "cache_control":{"type":"ephemeral"}}], "messages":[]}"#;
    assert_eq!(
        to_chat(cache_in_system).unwrap()["messages"][0]["content"],
        "cached"
    );
    let cache_in_message = r#"{"model":"model", "messages":[{"role":"user", "content":[{"type":"text", "text":"cached", "cache_control":{"type":"ephemeral"}}]}]}"#;
    assert_eq!(
        to_chat(cache_in_message).unwrap()["messages"][0]["content"][0]["text"],
        "cached"
    );
}

#[test]
fn preserves_anthropic_response_shape_for_refusals_and_implicit_tools() {
    let refusal = r#"{"choices":[{"finish_reason":"content_filter", "message":{"role":"assistant", "content":null, "refusal":"no"}}]}"#;
    let converted = to_messages(refusal).unwrap();
    assert_eq!(converted["stop_reason"], "refusal");
    assert!(converted.get("stop_sequence").is_some());

    let implicit_tool = r#"{"choices":[{"finish_reason":null, "message":{"role":"assistant", "content":null, "tool_calls":[{"id":"call_1", "function":{"name":"run", "arguments":"{}"}}]}}]}"#;
    assert_eq!(
        to_messages(implicit_tool).unwrap()["stop_reason"],
        "tool_use"
    );
}

#[test]
fn streaming_openai_requests_always_request_late_usage() {
    let request = r#"{"model":"model", "stream":true, "stream_options":{"include_usage":false, "custom":true}, "messages":[]}"#;
    let converted = to_chat(request).unwrap();
    assert_eq!(converted["stream_options"]["include_usage"], true);
    assert_eq!(converted["stream_options"]["custom"], true);
}

#[test]
fn anthropic_to_openai_maps_thinking_fail_open() {
    let converted = to_chat(
        r#"{
            "model": "m",
            "messages": [{"role": "user", "content": "u"}],
            "thinking": {"type": "enabled", "budget_tokens": 1024}
        }"#,
    )
    .unwrap();
    assert_eq!(converted["reasoning_effort"], "low");

    let converted = to_chat(
        r#"{
            "model": "m",
            "messages": [{"role": "user", "content": "u"}],
            "thinking": {"type": "adaptive"},
            "output_config": {"effort": "HIGH"}
        }"#,
    )
    .unwrap();
    assert_eq!(converted["reasoning_effort"], "high");

    let converted = to_chat(
        r#"{
            "model": "m",
            "messages": [{"role": "user", "content": "u"}],
            "container": {"type": "super_container"},
            "context_management": {"turns": 4}
        }"#,
    )
    .unwrap();
    assert!(converted.get("container").is_none());
    assert!(converted.get("context_management").is_none());

    let converted = to_chat(
        r#"{
            "model": "m",
            "system": [{"type": "thinking", "thinking": "instruct"}],
            "messages": []
        }"#,
    )
    .unwrap();
    assert_eq!(converted["messages"][0]["content"], "");

    let converted = to_chat(
        r#"{
            "model": "m",
            "messages": [{"role": "assistant", "content": [
                {"type": "thinking", "thinking": "chain"},
                {"type": "redacted_thinking", "data": "sig"},
                {"type": "text", "text": "answer"}
            ]}]
        }"#,
    )
    .unwrap();
    assert_eq!(converted["messages"][0]["reasoning_content"], "chain");
    assert_eq!(converted["messages"][0]["content"], "answer");
}

#[test]
fn openai_to_anthropic_maps_reasoning_fail_open() {
    let converted = to_messages(
        r#"{"choices":[{"finish_reason":"stop", "message":{"role":"assistant", "reasoning_content":"chain", "content":"answer"}}]}"#,
    )
    .unwrap();
    assert_eq!(converted["content"][0]["type"], "thinking");
    assert_eq!(converted["content"][0]["thinking"], "chain");
    assert_eq!(converted["content"][1]["type"], "text");
    assert_eq!(converted["content"][1]["text"], "answer");
}

#[test]
fn a_whole_request_converts_exactly() {
    let converted = to_chat(
        r#"{
            "model": "m", "max_tokens": 7, "temperature": 0.5, "top_p": 0.25, "top_k": 3,
            "stop_sequences": ["END"], "metadata": {"user_id": "u"},
            "system": "sys",
            "messages": [{"role": "user", "content": [
                {"type": "text", "text": "look"},
                {"type": "image", "source": {"type": "base64", "media_type": "image/png", "data": "aGk="}},
                {"type": "image", "source": {"type": "url", "url": "https://x/y.png"}},
                {"type": "tool_result", "tool_use_id": "c", "is_error": true, "content": [{"type": "text", "text": "bo"}, {"type": "text", "text": "om"}]}
            ]}],
            "tools": [{"type": "custom", "name": "n", "input_schema": {}}],
            "tool_choice": {"type": "tool", "name": "n"}
        }"#,
    )
    .unwrap();
    let expected: Value = serde_json::from_str(
        r#"{
            "model": "m", "max_tokens": 7, "stream": false, "temperature": 0.5, "top_p": 0.25,
            "top_k": 3, "stop": ["END"],
            "messages": [
                {"role": "system", "content": "sys"},
                {"role": "user", "content": [
                    {"type": "text", "text": "look"},
                    {"type": "image_url", "image_url": {"url": "data:image/png;base64,aGk="}},
                    {"type": "image_url", "image_url": {"url": "https://x/y.png"}}
                ]},
                {"role": "tool", "tool_call_id": "c", "content": "Tool execution error:\nboom"}
            ],
            "tools": [{"type": "function", "function": {"name": "n", "description": "", "parameters": {}}}],
            "tool_choice": {"type": "function", "function": {"name": "n"}}
        }"#,
    )
    .unwrap();
    assert_eq!(converted, expected);
}

#[test]
fn a_bare_request_gets_the_defaults() {
    let expected: Value = serde_json::from_str(
        r#"{"model": "", "messages": [], "max_tokens": 4096, "stream": false}"#,
    )
    .unwrap();
    assert_eq!(to_chat("{}").unwrap(), expected);
}

#[test]
fn each_refusal_of_a_request_has_its_message() {
    let cases = [
        (r#"{"system": 1}"#, "system must be text or an array of text blocks"),
        (r#"{"system": [{"type": "cache_control"}]}"#, "system cache_control blocks require a native Anthropic Messages channel"),
        (r#"{"system": [{"type": "image"}]}"#, "unsupported non-text system content requires a native Anthropic Messages channel"),
        (r#"{"messages": {}}"#, "Anthropic messages must be an array"),
        (r#"{"messages": [{}]}"#, "Anthropic message is missing role"),
        (r#"{"messages": [{"role": "tool"}]}"#, "only user, assistant, and system Anthropic messages can be sent to OpenAI Chat Completions"),
        (r#"{"messages": [{"role": "system"}]}"#, "system message is missing content"),
        (r#"{"messages": [{"role": "assistant", "content": []}]}"#, "assistant message is empty"),
        (r#"{"messages": [{"role": "assistant", "content": [{"type": "image"}]}]}"#, "OpenAI Chat Completions cannot safely encode assistant image blocks"),
        (r#"{"messages": [{"role": "user", "content": [{"type": "image"}]}]}"#, "Anthropic image block is missing source"),
        (r#"{"messages": [{"role": "user", "content": [{"type": "image", "source": {"type": "url"}}]}]}"#, "Anthropic image URL source is missing url"),
        (r#"{"messages": [{"role": "user", "content": [{"type": "image", "source": {"type": "base64"}}]}]}"#, "Anthropic base64 image is missing media_type"),
        (r#"{"messages": [{"role": "user", "content": [{"type": "image", "source": {"type": "base64", "media_type": "a/b"}}]}]}"#, "Anthropic base64 image is missing data"),
        (r#"{"messages": [{"role": "user", "content": [{"type": "image", "source": {"type": "file"}}]}]}"#, "unsupported Anthropic image source requires a native channel"),
        (r#"{"messages": [{"role": "user", "content": [{"type": "tool_use"}]}]}"#, "tool_use blocks must be in an assistant message"),
        (r#"{"messages": [{"role": "assistant", "content": [{"type": "tool_use", "id": ""}]}]}"#, "tool_use is missing id"),
        (r#"{"messages": [{"role": "assistant", "content": [{"type": "tool_use", "id": "c"}]}]}"#, "tool_use is missing name"),
        (r#"{"messages": [{"role": "assistant", "content": [{"type": "tool_use", "id": "c", "name": "n"}]}]}"#, "tool_use is missing input"),
        (r#"{"messages": [{"role": "assistant", "content": [{"type": "tool_use", "id": "c", "name": "n", "input": 1}]}]}"#, "tool_use input must be a JSON object"),
        (r#"{"messages": [{"role": "assistant", "content": [{"type": "tool_result"}]}]}"#, "tool_result blocks must be in a user message"),
        (r#"{"messages": [{"role": "user", "content": [{"type": "tool_result"}]}]}"#, "tool_result is missing tool_use_id"),
        (r#"{"messages": [{"role": "user", "content": [{"type": "tool_result", "tool_use_id": "c", "content": [{"type": "image"}]}]}]}"#, "tool_result images require a native Anthropic Messages channel"),
        (r#"{"messages": [{"role": "user", "content": [{"type": "tool_result", "tool_use_id": "c", "content": [{}]}]}]}"#, "unsupported tool_result content requires a native Anthropic Messages channel"),
        (r#"{"messages": [{"role": "user", "content": [{"type": "tool_result", "tool_use_id": "c", "content": 1}]}]}"#, "tool_result content must be text or text blocks"),
        (r#"{"messages": [{"role": "user", "content": [{"type": "cache_control"}]}]}"#, "Anthropic cache controls require a native Anthropic Messages channel"),
        (r#"{"messages": [{"role": "user", "content": [{"type": "document"}]}]}"#, "unsupported Anthropic content block requires a native Anthropic Messages channel"),
        (r#"{"stream": true, "stream_options": 1}"#, "stream_options must be an object"),
        (r#"{"tools": [{"type": "web_search"}]}"#, "Anthropic built-in tools require a native Anthropic Messages channel"),
        (r#"{"tools": [{}]}"#, "Anthropic tool is missing its name"),
        (r#"{"tools": [{"type": "", "name": "n"}]}"#, "Anthropic tool 'n' is missing input_schema"),
        (r#"{"tool_choice": {"type": "tool"}}"#, "Anthropic tool_choice type 'tool' is missing a name"),
        (r#"{"tool_choice": {"type": "none"}}"#, "unsupported Anthropic tool_choice requires a native Anthropic Messages channel"),
        (r#"{"tool_choice": "tool"}"#, "Anthropic tool_choice 'tool' requires a name"),
        (r#"{"tool_choice": 1}"#, "unsupported Anthropic tool_choice requires a native Anthropic Messages channel"),
    ];
    for (request, message) in cases {
        assert_eq!(to_chat(request).unwrap_err(), message, "{}", request);
    }
}

#[test]
fn each_refusal_of_a_response_has_its_message() {
    let call = |call: &str| {
        format!(
            r#"{{"choices":[{{"message":{{"tool_calls":[{}]}}}}]}}"#,
            call
        )
    };
    let cases = [
        ("{}".to_string(), "OpenAI response does not contain a completion message"),
        (r#"{"choices":[]}"#.to_string(), "OpenAI response does not contain a completion message"),
        (
            r#"{"choices":[{"message":{"content":[]}}]}"#.to_string(),
            "OpenAI response has unsupported non-text message content",
        ),
        (call("{}"), "OpenAI response tool call is missing its id"),
        (call(r#"{"id":"c"}"#), "OpenAI response tool call is missing its function name"),
        (
            call(r#"{"id":"c","function":{"name":"n"}}"#),
            "OpenAI response tool call is missing function arguments",
        ),
        (
            call(r#"{"id":"c","function":{"name":"n","arguments":"[]"}}"#),
            "OpenAI response tool arguments must decode to a JSON object",
        ),
        (
            call(r#"{"id":"c","function":{"name":"n","arguments":"{bad"}}"#),
            "OpenAI response contained invalid tool arguments: key must be a string at line 1 column 2",
        ),
    ];
    for (response, message) in cases {
        assert_eq!(to_messages(&response).unwrap_err(), message, "{}", response);
    }
}

#[test]
fn a_whole_response_converts_exactly() {
    let converted = to_messages(
        r#"{
            "id": "chatcmpl-1",
            "choices": [{"finish_reason": "length", "message": {
                "thinking": {"text": "hm"}, "content": "hi",
                "tool_calls": [{"id": "c", "function": {"name": "n", "arguments": "{\"a\": 1}"}}]
            }}],
            "usage": {"prompt_tokens": 7, "completion_tokens": 3}
        }"#,
    )
    .unwrap();
    let expected: Value = serde_json::from_str(
        r#"{
            "id": "chatcmpl-1", "type": "message", "role": "assistant", "model": "model",
            "content": [
                {"type": "thinking", "thinking": "hm"},
                {"type": "text", "text": "hi"},
                {"type": "tool_use", "id": "c", "name": "n", "input": {"a": 1}}
            ],
            "stop_reason": "max_tokens", "stop_sequence": null,
            "usage": {"input_tokens": 7, "output_tokens": 3}
        }"#,
    )
    .unwrap();
    assert_eq!(converted, expected);
}

#[test]
fn a_response_without_an_id_or_content_gets_both() {
    let first = to_messages(r#"{"choices":[{"message":{}}]}"#).unwrap();
    let second = to_messages(r#"{"choices":[{"message":{}}]}"#).unwrap();
    assert_eq!(first["content"][0]["text"], "");
    assert_eq!(first["stop_reason"], "end_turn");
    let id = first["id"].as_str().unwrap();
    assert_eq!(id.len(), 4 + 32);
    assert!(id.starts_with("msg_"));
    assert!(id[4..].chars().all(|c| c.is_ascii_digit() || ('a'..='f').contains(&c)));
    assert_eq!(&id[16..17], "4");
    assert!("89ab".contains(&id[20..21]));
    assert_ne!(first["id"], second["id"]);
}

#[test]
fn reasoning_is_found_in_each_of_its_places() {
    let thought = |message: &str| {
        let response = format!(r#"{{"choices":[{{"message":{}}}]}}"#, message);
        to_messages(&response).unwrap()["content"][0].clone()
    };
    assert_eq!(thought(r#"{"reasoning_content":{"text":"a"}}"#)["thinking"], "a");
    assert_eq!(thought(r#"{"reasoning_content":"","thinking":"b"}"#)["thinking"], "b");
    assert_eq!(thought(r#"{"thinking":{"thinking":"c","text":"d"}}"#)["thinking"], "c");
    assert_eq!(thought(r#"{"thinking":{"text":"d"}}"#)["thinking"], "d");
    assert_eq!(thought(r#"{"thinking":{"thinking":1,"text":"d"}}"#)["type"], "text");
    assert_eq!(thought(r#"{"reasoning_content":1}"#)["type"], "text");
}

#[test]
fn stop_reasons_map_or_follow_from_the_message() {
    let reason = |choice: &str| {
        let response = format!(r#"{{"choices":[{}]}}"#, choice);
        to_messages(&response).unwrap()["stop_reason"].clone()
    };
    assert_eq!(reason(r#"{"finish_reason":"stop","message":{"refusal":"no"}}"#), "end_turn");
    assert_eq!(reason(r#"{"finish_reason":"length","message":{}}"#), "max_tokens");
    assert_eq!(reason(r#"{"finish_reason":"tool_calls","message":{}}"#), "tool_use");
    assert_eq!(reason(r#"{"finish_reason":"content_filter","message":{}}"#), "refusal");
    assert_eq!(reason(r#"{"finish_reason":"odd","message":{"refusal":null}}"#), "refusal");
    assert_eq!(reason(r#"{"finish_reason":"odd","message":{}}"#), "end_turn");
}

#[test]
fn thinking_budgets_have_their_levels() {
    let effort = |thinking: &str| {
        to_chat(&format!(r#"{{"thinking":{}}}"#, thinking)).unwrap()["reasoning_effort"].clone()
    };
    let budget = |n: i64| effort(&format!(r#"{{"type":"enabled","budget_tokens":{}}}"#, n));
    assert_eq!(budget(-2), Value::Null);
    assert_eq!(budget(-1), "auto");
    assert_eq!(budget(0), "none");
    assert_eq!(budget(1), "minimal");
    assert_eq!(budget(512), "minimal");
    assert_eq!(budget(513), "low");
    assert_eq!(budget(1025), "medium");
    assert_eq!(budget(8193), "high");
    assert_eq!(budget(24577), "xhigh");
    assert_eq!(effort(r#"{"type":"enabled"}"#), "auto");
    assert_eq!(effort(r#"{"type":"enabled","budget_tokens":1.5}"#), "auto");
    assert_eq!(effort(r#"{"type":"auto"}"#), "xhigh");
    assert_eq!(effort(r#"{"type":"disabled"}"#), "none");
    assert_eq!(effort(r#"{"type":"odd"}"#), Value::Null);
    assert_eq!(effort(r#""enabled""#), Value::Null);
}

#[test]
fn a_configured_effort_is_trimmed_and_lowered() {
    let effort = |text: &str| {
        let body = format!(
            r#"{{"thinking":{{"type":"adaptive"}},"output_config":{{"effort":"{}"}}}}"#,
            text
        );
        to_chat(&body).unwrap()["reasoning_effort"].clone()
    };
    assert_eq!(effort("\u{3000} HiGH\u{85} "), "high");
    assert_eq!(effort("\u{c9}T"), "\u{c9}t");
    assert_eq!(effort(" \u{a0}"), "xhigh");
}

#[test]
fn estimates_are_exact() {
    let estimate = |text: &str| estimate_anthropic_input_tokens(&json(text));
    assert_eq!(estimate("{}"), 1);
    assert_eq!(estimate("null"), 1);
    assert_eq!(estimate(r#""abcd""#), 1);
    assert_eq!(estimate(r#""abcde""#), 2);
    assert_eq!(estimate("\"\u{e9}\u{e9}\u{e9}\u{e9}\""), 1);
    assert_eq!(estimate(r#"["a","a",["a",{"x":"abcdefghi","y":7}]]"#), 6);
}

#[test]
fn the_model_the_stream_flag_and_image_data_do_not_count() {
    let estimate = |text: &str| estimate_anthropic_input_tokens(&json(text));
    assert_eq!(estimate(r#"{"x":"abcd","y":"abcd"}"#), 2);
    assert_eq!(
        estimate(r#"{"x":"abcd","y":"abcd","model":"abcdefgh","stream":"abcdefgh","data":"abcdefgh"}"#),
        2
    );
    assert_eq!(estimate(r#"{"model":"abcdefgh"}"#), 1);
    assert_eq!(
        estimate(r#"[{"x":[{"data":"abcdefgh","y":"abcde"}],"stream":["abcd"]},{"model":{"x":"abcd"}}]"#),
        estimate(r#"[{"x":[{"y":"abcde"}]},{"data":7}]"#)
    );
    assert!(estimate_fits(&json(r#"{"x":"abcd"}"#)));
}

#[test]
fn thinking_and_containers_are_never_a_reason_to_refuse() {
    let plain = to_chat(r#"{"messages":[{"role":"user","content":"u"}]}"#).unwrap();
    let mut thoughtful = to_chat(
        r#"{"messages":[{"role":"user","content":"u"}],"thinking":{"type":"disabled"},"output_config":7,"container":[],"context_management":"x"}"#,
    )
    .unwrap();
    assert_eq!(thoughtful["reasoning_effort"], "none");
    thoughtful.as_object_mut().unwrap().remove("reasoning_effort");
    assert_eq!(thoughtful, plain);
    assert_eq!(
        to_chat(r#"{"messages":1,"thinking":7,"container":7}"#).unwrap_err(),
        to_chat(r#"{"messages":1}"#).unwrap_err()
    );
}

#[test]
fn cache_controls_change_nothing() {
    let request = |note: &str| {
        to_chat(&format!(
            r#"{{"system":[{{"type":"text","text":"s"{note}}}],
                "tools":[{{"name":"n","input_schema":{{}}{note}}}],
                "messages":[
                    {{"role":"assistant","content":[{{"type":"tool_use","id":"c","name":"n","input":{{}}{note}}}]}},
                    {{"role":"user","content":[{{"type":"tool_result","tool_use_id":"c","content":[{{"type":"text","text":"r"{note}}}]{note}}}]}},
                    {{"role":"system","content":[{{"type":"text","text":"t"{note}}}]}}
                ]}}"#
        ))
        .unwrap()
    };
    assert_eq!(request(r#","cache_control":{"type":"ephemeral"}"#), request(""));
}

#[test]
fn a_user_never_carries_reasoning() {
    let converted = to_chat(
        r#"{"messages":[{"role":"user","content":[{"type":"thinking","thinking":"x"},{"type":"text","text":"t"}]}]}"#,
    )
    .unwrap();
    assert!(converted["messages"][0].get("reasoning_content").is_none());
    assert_eq!(converted["messages"].as_array().unwrap().len(), 1);
    let silent = to_chat(
        r#"{"messages":[{"role":"user","content":[{"type":"thinking","thinking":"x"}]}]}"#,
    )
    .unwrap();
    assert_eq!(silent["messages"].as_array().unwrap().len(), 0);
}

#[test]
fn tool_input_survives_the_way_there_and_back() {
    let input = r#"{"a":[1,-2,{"b":"\"\\é"}],"c":null,"d":18446744073709551615}"#;
    let there = to_chat(&format!(
        r#"{{"messages":[{{"role":"assistant","content":[{{"type":"tool_use","id":"c","name":"n","input":{}}}]}}]}}"#,
        input
    ))
    .unwrap();
    let message = serde_json::to_string(&there["messages"][0]).unwrap();
    let back = to_messages(&format!(r#"{{"choices":[{{"message":{}}}]}}"#, message)).unwrap();
    let expected: Value = serde_json::from_str(input).unwrap();
    assert_eq!(back["content"][0]["input"], expected);
    assert_eq!(back["content"][0]["id"], "c");
    assert_eq!(back["content"][0]["name"], "n");
}

#[test]
fn content_that_is_neither_blocks_nor_text_goes_on_as_it_is() {
    let converted = to_chat(
        r#"{"messages":[{"role":"user","content":{"a":1}},{"role":"user","content":null},{"role":"user"}]}"#,
    )
    .unwrap();
    assert_eq!(converted["messages"][0]["content"]["a"], 1);
    assert_eq!(converted["messages"][1]["content"], Value::Null);
    assert_eq!(converted["messages"][2]["content"], "");
}

#[test]
fn an_assistant_message_comes_back_block_for_block() {
    let blocks = [
        r#"{"type":"thinking","thinking":"t"}"#,
        r#"{"type":"text","text":"s"}"#,
        r#"{"type":"tool_use","id":"i","name":"n","input":{"a":[{"b":-1}]}}"#,
    ];
    for chosen in 1..8 {
        let some: Vec<&str> = (0..3).filter(|i| chosen & (1 << i) != 0).map(|i| blocks[i]).collect();
        let content = format!("[{}]", some.join(","));
        let there = to_chat(&format!(
            r#"{{"messages":[{{"role":"assistant","content":{}}}]}}"#,
            content
        ))
        .unwrap();
        let back = to_messages(&format!(r#"{{"choices":[{{"message":{}}}]}}"#, there["messages"][0]))
            .unwrap();
        let expected: Value = serde_json::from_str(&content).unwrap();
        assert_eq!(back["content"], expected);
        let reason = if chosen >= 4 { "tool_use" } else { "end_turn" };
        assert_eq!(back["stop_reason"], reason);
    }
}

#[test]
fn a_conversation_converts_part_by_part() {
    let convert = |messages: &str, system: Option<&str>| {
        convert_anthropic_messages_to_openai(&json(messages), system.map(String::from))
            .map(|converted| value(&converted).as_array().unwrap().clone())
    };
    let first = r#"{"role":"user","content":[{"type":"text","text":"a"}]}"#;
    let second = r#"{"role":"assistant","content":"b"}"#;
    let whole = convert(&format!("[{},{}]", first, second), Some("s")).unwrap();
    let mut parts = convert(&format!("[{}]", first), Some("s")).unwrap();
    parts.extend(convert(&format!("[{}]", second), None).unwrap());
    assert_eq!(whole, parts);
    assert_eq!(
        convert(&format!("[{},{{}},1]", first), None).unwrap_err(),
        convert("[{}]", None).unwrap_err()
    );
}

#[test]
fn plain_messages_stay_as_they_are() {
    let plain = r#"[{"content":"a","role":"user"},{"content":"b","role":"system"},{"content":"","role":"assistant"}]"#;
    let once = convert_anthropic_messages_to_openai(&json(plain), None).unwrap();
    assert_eq!(print_json(&once).unwrap(), plain);
}
