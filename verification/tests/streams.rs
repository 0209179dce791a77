//! Streams through the decoders, from bytes to bytes.
use chat_bridge::codec::chat;
use chat_bridge::codec::error::{reject_features, FeatureKind};
use chat_bridge::codec::messages;

#[test]
fn chat_stream_arbitrary_fragmentation_and_tool_accumulation() {
    let mut state = chat::ChatSseState::default();
    let parts = [
        b"data: {\"choices\":[{\"delta\":{\"content\":\"h".as_slice(),
        "\u{00e9}".as_bytes(),
        b"\"}}]}\r\n\r\ndata: {\"choices\":[{\"delta\":{\"tool_calls\":[{\"index\":1,\"id\":\"b\",\"function\":{\"name\":\"two\",\"arguments\":\"{\\\"b\\\":2}\"}},{\"index\":0,\"id\":\"a\",\"function\":{\"name\":\"one\",\"arguments\":\"{\\\"a\\\":1}\"}}]}}]}\r\n\r\n".as_slice(),
        b"data: {\"choices\":[{\"finish_reason\":\"tool_calls\"}]}\n\ndata: {\"usage\":{\"prompt_tokens\":7,\"completion_tokens\":3}}\n\ndata: [DONE]\n\n".as_slice(),
    ];
    let mut output = Vec::new();
    for part in parts {
        output.extend(state.feed(part).unwrap());
    }
    output.extend(state.finish().unwrap());
    let output = output.join("");
    assert!(output.contains("hé"));
    assert!(output.contains("\"id\":\"a\""));
    assert!(output.contains("\"id\":\"b\""));
    assert!(output.contains("\"input_tokens\":7"));
    assert!(output.contains("\"stop_sequence\":null"));
    let text_stop = output.find("content_block_stop").unwrap();
    let first_tool = output.find("\"type\":\"tool_use\"").unwrap();
    assert!(
        text_stop < first_tool,
        "text must stop before a tool block starts"
    );
    assert!(output.find("\"id\":\"a\"").unwrap() < output.find("\"id\":\"b\"").unwrap());
    assert_eq!(output.matches("event: message_stop").count(), 1);
}

#[test]
fn chat_stream_incomplete_tool_arguments_are_rejected() {
    let mut state = chat::ChatSseState::default();
    state.feed(b"data: {\"choices\":[{\"delta\":{\"tool_calls\":[{\"index\":0,\"id\":\"c\",\"function\":{\"name\":\"run\",\"arguments\":\"{bad\"}}]}}]}\n\n").unwrap();
    let e = state.finish().unwrap_err();
    assert!(reject_features(&e)
        .iter()
        .any(|c| c.contains("invalid_tool_arguments")));
}

#[test]
fn chat_stream_unknown_finish_reason_rejected_at_finalize() {
    let mut state = chat::ChatSseState::default();
    state
        .feed(b"data: {\"choices\":[{\"delta\":{\"content\":\"x\"}}]}\n\n")
        .unwrap();
    state
        .feed(b"data: {\"choices\":[{\"finish_reason\":\"bizarre\"}]}\n\n")
        .unwrap();
    let e = state.finish().unwrap_err();
    assert!(reject_features(&e)
        .iter()
        .any(|c| c.contains("finish_reason")));
}

#[test]
fn chat_stream_first_frame_invalid_is_a_codec_error() {
    let mut state = chat::ChatSseState::default();
    let e = state.feed(b"data: {not-json}\n\n").unwrap_err();
    assert!(reject_features(&e)
        .iter()
        .any(|c| c.contains("unknown_event")));
}

#[test]
fn chat_stream_termination_exactly_once() {
    let mut state = chat::ChatSseState::default();
    state
        .feed(
            b"data: {\"choices\":[{\"delta\":{\"content\":\"x\"},\"finish_reason\":\"stop\"}]}\n\n",
        )
        .unwrap();
    let first = state.finish().unwrap();
    assert_eq!(
        first.iter().filter(|e| e.contains("message_stop")).count(),
        1
    );
    let second = state.finish().unwrap();
    assert!(second.is_empty());
}

#[test]
fn chat_stream_empty_stream_is_a_codec_error_not_an_empty_success() {
    let mut state = chat::ChatSseState::default();
    state.feed(b"").unwrap();
    let e = state.finish().unwrap_err();
    assert!(reject_features(&e)
        .iter()
        .any(|c| c.contains("unknown_event")));

    let mut state = chat::ChatSseState::default();
    state.feed(b"data: [DONE]\n\n").unwrap();
    let e = state.finish().unwrap_err();
    assert!(reject_features(&e)
        .iter()
        .any(|c| c.contains("unknown_event")));
}

#[test]
fn chat_stream_emits_prepared_model_and_request_id() {
    let mut state = chat::ChatSseState::new("upstream-model-9", "req-42");
    let events = state
        .feed(
            b"data: {\"choices\":[{\"delta\":{\"content\":\"x\"},\"finish_reason\":\"stop\"}]}\n\n",
        )
        .unwrap();
    let joined = events.join("");
    assert!(joined.contains("\"model\":\"upstream-model-9\""));
    assert!(joined.contains("\"id\":\"req-42\""));
    state.finish().unwrap();
}

#[test]
fn chat_stream_reasoning_fail_open_to_thinking_block() {
    let mut state = chat::ChatSseState::new("up-model", "msg_1");
    let mut events = Vec::new();
    events.extend(state.feed(b"data: {\"choices\":[{\"delta\":{\"reasoning_content\":\"se\"}}]}\n\n").unwrap());
    events.extend(state.feed(b"data: {\"choices\":[{\"delta\":{\"reasoning_content\":\"cret\"}}]}\n\n").unwrap());
    events.extend(state.feed(b"data: {\"choices\":[{\"delta\":{\"content\":\"hi\"}}]}\n\n").unwrap());
    events.extend(state.feed(b"data: {\"choices\":[{\"delta\":{},\"finish_reason\":\"stop\"}],\"usage\":{\"prompt_tokens\":1,\"completion_tokens\":1,\"total_tokens\":2}}\n\n").unwrap());
    events.extend(state.finish().unwrap());
    let joined = events.join("");
    assert!(joined.contains("\"type\":\"thinking\""));
    assert!(joined.contains("\"thinking\":\"se\""));
    assert!(joined.contains("\"thinking\":\"cret\""));
    assert!(joined.contains("\"text\":\"hi\""));
    assert_eq!(
        events.iter().filter(|e| e.contains("content_block_stop")).count(),
        2,
        "thinking + text blocks both stop"
    );
}

#[test]
fn messages_stream_text_and_tool_deltas() {
    let mut state = messages::MessagesSseState::default();
    let mut events = Vec::new();
    events.extend(state.feed(b"event: message_start\ndata: {\"type\":\"message_start\",\"message\":{\"id\":\"msg_1\",\"usage\":{\"input_tokens\":5}}}\n\n").unwrap());
    events.extend(state.feed(b"event: content_block_start\ndata: {\"type\":\"content_block_start\",\"index\":0,\"content_block\":{\"type\":\"text\",\"text\":\"\"}}\n\n").unwrap());
    events.extend(state.feed(b"event: content_block_delta\ndata: {\"type\":\"content_block_delta\",\"index\":0,\"delta\":{\"type\":\"text_delta\",\"text\":\"hel\"}}\n\n").unwrap());
    events.extend(state.feed(b"event: content_block_delta\ndata: {\"type\":\"content_block_delta\",\"index\":0,\"delta\":{\"type\":\"text_delta\",\"text\":\"lo\"}}\n\n").unwrap());
    events.extend(state.feed(b"event: content_block_stop\ndata: {\"type\":\"content_block_stop\",\"index\":0}\n\n").unwrap());
    events.extend(state.feed(b"event: message_delta\ndata: {\"type\":\"message_delta\",\"delta\":{\"stop_reason\":\"end_turn\"},\"usage\":{\"output_tokens\":2}}\n\n").unwrap());
    events.extend(
        state
            .feed(b"event: message_stop\ndata: {\"type\":\"message_stop\"}\n\n")
            .unwrap(),
    );
    events.extend(state.finish().unwrap());
    let joined = events.join("");
    assert!(joined.contains("\"role\":\"assistant\""));
    assert!(joined.contains("\"content\":\"hel\""));
    assert!(joined.contains("\"content\":\"lo\""));
    assert!(joined.contains("\"finish_reason\":\"stop\""));
    assert!(joined.contains("\"prompt_tokens\":5"));
    assert!(joined.contains("\"completion_tokens\":2"));
    assert_eq!(events.iter().filter(|e| e.contains("[DONE]")).count(), 1);
}

#[test]
fn messages_stream_thinking_fail_open_to_reasoning_content() {
    let mut state = messages::MessagesSseState::default();
    let mut events = Vec::new();
    events.extend(state.feed(b"event: message_start\ndata: {\"type\":\"message_start\",\"message\":{\"id\":\"msg_1\",\"usage\":{\"input_tokens\":5}}}\n\n").unwrap());
    events.extend(state.feed(b"event: content_block_start\ndata: {\"type\":\"content_block_start\",\"index\":0,\"content_block\":{\"type\":\"thinking\",\"thinking\":\"\"}}\n\n").unwrap());
    events.extend(state.feed(b"event: content_block_delta\ndata: {\"type\":\"content_block_delta\",\"index\":0,\"delta\":{\"type\":\"thinking_delta\",\"thinking\":\"se\"}}\n\n").unwrap());
    events.extend(state.feed(b"event: content_block_delta\ndata: {\"type\":\"content_block_delta\",\"index\":0,\"delta\":{\"type\":\"thinking_delta\",\"thinking\":\"cret\"}}\n\n").unwrap());
    events.extend(state.feed(b"event: content_block_delta\ndata: {\"type\":\"content_block_delta\",\"index\":0,\"delta\":{\"type\":\"signature_delta\",\"signature\":\"abc\"}}\n\n").unwrap());
    events.extend(state.feed(b"event: content_block_stop\ndata: {\"type\":\"content_block_stop\",\"index\":0}\n\n").unwrap());
    events.extend(state.feed(b"event: message_delta\ndata: {\"type\":\"message_delta\",\"delta\":{\"stop_reason\":\"end_turn\"},\"usage\":{\"output_tokens\":2}}\n\n").unwrap());
    events.extend(state.feed(b"event: message_stop\ndata: {\"type\":\"message_stop\"}\n\n").unwrap());
    events.extend(state.finish().unwrap());
    let joined = events.join("");
    assert!(joined.contains("\"reasoning_content\":\"se\""));
    assert!(joined.contains("\"reasoning_content\":\"cret\""));
    assert!(joined.contains("\"finish_reason\":\"stop\""));
    assert!(!joined.contains("\"content\":\"se\"") || joined.contains("\"reasoning_content\""));
}

#[test]
fn messages_stream_tool_calls_accumulate_by_index() {
    let mut state = messages::MessagesSseState::default();
    let mut events = Vec::new();
    events.extend(state.feed(b"event: message_start\ndata: {\"type\":\"message_start\",\"message\":{\"id\":\"m\",\"usage\":{}}}\n\n").unwrap());
    events.extend(state.feed(b"event: content_block_start\ndata: {\"type\":\"content_block_start\",\"index\":0,\"content_block\":{\"type\":\"tool_use\",\"id\":\"call_a\",\"name\":\"one\",\"input\":{}}}\n\n").unwrap());
    events.extend(state.feed(b"event: content_block_delta\ndata: {\"type\":\"content_block_delta\",\"index\":0,\"delta\":{\"type\":\"input_json_delta\",\"partial_json\":\"{\\\"a\\\"\"}}\n\n").unwrap());
    events.extend(state.feed(b"event: content_block_start\ndata: {\"type\":\"content_block_start\",\"index\":1,\"content_block\":{\"type\":\"tool_use\",\"id\":\"call_b\",\"name\":\"two\",\"input\":{}}}\n\n").unwrap());
    events.extend(state.feed(b"event: content_block_delta\ndata: {\"type\":\"content_block_delta\",\"index\":1,\"delta\":{\"type\":\"input_json_delta\",\"partial_json\":\"{\\\"b\\\":2}\"}}\n\n").unwrap());
    events.extend(state.feed(b"event: content_block_delta\ndata: {\"type\":\"content_block_delta\",\"index\":0,\"delta\":{\"type\":\"input_json_delta\",\"partial_json\":\":1}\"}}\n\n").unwrap());
    events.extend(state.feed(b"event: content_block_stop\ndata: {\"type\":\"content_block_stop\",\"index\":0}\n\n").unwrap());
    events.extend(state.feed(b"event: content_block_stop\ndata: {\"type\":\"content_block_stop\",\"index\":1}\n\n").unwrap());
    events.extend(state.feed(b"event: message_delta\ndata: {\"type\":\"message_delta\",\"delta\":{\"stop_reason\":\"tool_use\"},\"usage\":{}}\n\n").unwrap());
    events.extend(
        state
            .feed(b"event: message_stop\ndata: {\"type\":\"message_stop\"}\n\n")
            .unwrap(),
    );
    events.extend(state.finish().unwrap());
    let joined = events.join("");
    assert!(joined.contains("\"id\":\"call_a\""));
    assert!(joined.contains("\"name\":\"one\""));
    assert!(joined.contains("\"id\":\"call_b\""));
    assert!(joined.contains("\"name\":\"two\""));
    assert!(joined.contains("\"arguments\":\"{\\\"a\\\":1}\""));
    assert!(joined.contains("\"arguments\":\"{\\\"b\\\":2}\""));
    assert!(joined.contains("\"finish_reason\":\"tool_calls\""));
    assert_eq!(events.iter().filter(|e| e.contains("[DONE]")).count(), 1);
}

#[test]
fn messages_stream_invalid_tool_json_is_rejected() {
    let mut state = messages::MessagesSseState::default();
    state.feed(b"event: message_start\ndata: {\"type\":\"message_start\",\"message\":{\"id\":\"m\",\"usage\":{}}}\n\n").unwrap();
    state.feed(b"event: content_block_start\ndata: {\"type\":\"content_block_start\",\"index\":0,\"content_block\":{\"type\":\"tool_use\",\"id\":\"c\",\"name\":\"run\",\"input\":{}}}\n\n").unwrap();
    state.feed(b"event: content_block_delta\ndata: {\"type\":\"content_block_delta\",\"index\":0,\"delta\":{\"type\":\"input_json_delta\",\"partial_json\":\"{bad\"}}\n\n").unwrap();
    let e = state
        .feed(b"event: content_block_stop\ndata: {\"type\":\"content_block_stop\",\"index\":0}\n\n")
        .unwrap_err();
    assert!(reject_features(&e)
        .iter()
        .any(|c| c.contains("invalid_tool_arguments")));
}

#[test]
fn messages_stream_unknown_event_is_a_codec_error() {
    let mut state = messages::MessagesSseState::default();
    let e = state
        .feed(b"event: wat\ndata: {\"type\":\"wat\"}\n\n")
        .unwrap_err();
    assert!(reject_features(&e)
        .iter()
        .any(|c| c.contains("unknown_event")));
}

#[test]
fn messages_stream_fragmented_utf8_and_crlf() {
    let mut state = messages::MessagesSseState::default();
    let mut events = Vec::new();
    let payload = "event: message_start\ndata: {\"type\":\"message_start\",\"message\":{\"id\":\"m\",\"usage\":{}}}\r\n\r\n";
    for chunk in payload.as_bytes().chunks(5) {
        events.extend(state.feed(chunk).unwrap());
    }
    events.extend(state.feed("event: content_block_start\ndata: {\"type\":\"content_block_start\",\"index\":0,\"content_block\":{\"type\":\"text\",\"text\":\"\"}}\r\n\r\nevent: content_block_delta\ndata: {\"type\":\"content_block_delta\",\"index\":0,\"delta\":{\"type\":\"text_delta\",\"text\":\"h\u{00e9}\"}}\r\n\r\nevent: content_block_stop\ndata: {\"type\":\"content_block_stop\",\"index\":0}\r\n\r\nevent: message_delta\ndata: {\"type\":\"message_delta\",\"delta\":{\"stop_reason\":\"end_turn\"},\"usage\":{}}\r\n\r\nevent: message_stop\ndata: {\"type\":\"message_stop\"}\r\n\r\n".as_bytes()).unwrap());
    events.extend(state.finish().unwrap());
    assert!(events.join("").contains("h\u{00e9}"));
}

#[test]
fn messages_stream_empty_stream_is_a_codec_error_not_an_empty_success() {
    let mut state = messages::MessagesSseState::default();
    state.feed(b"").unwrap();
    let e = state.finish().unwrap_err();
    assert!(reject_features(&e)
        .iter()
        .any(|c| c.contains("unknown_event")));

    let mut state = messages::MessagesSseState::default();
    state
        .feed(b"event: ping\ndata: {\"type\":\"ping\"}\n\n")
        .unwrap();
    let e = state.finish().unwrap_err();
    assert!(reject_features(&e)
        .iter()
        .any(|c| c.contains("unknown_event")));
}

#[test]
fn messages_stream_emits_prepared_model() {
    let mut state = messages::MessagesSseState::new("upstream-model-9");
    let mut events = Vec::new();
    events.extend(state.feed(b"event: message_start\ndata: {\"type\":\"message_start\",\"message\":{\"id\":\"m\",\"usage\":{}}}\n\n").unwrap());
    events.extend(state.feed(b"event: content_block_start\ndata: {\"type\":\"content_block_start\",\"index\":0,\"content_block\":{\"type\":\"text\",\"text\":\"\"}}\n\n").unwrap());
    events.extend(state.feed(b"event: content_block_delta\ndata: {\"type\":\"content_block_delta\",\"index\":0,\"delta\":{\"type\":\"text_delta\",\"text\":\"hi\"}}\n\n").unwrap());
    events.extend(state.feed(b"event: content_block_stop\ndata: {\"type\":\"content_block_stop\",\"index\":0}\n\n").unwrap());
    events.extend(state.feed(b"event: message_delta\ndata: {\"type\":\"message_delta\",\"delta\":{\"stop_reason\":\"end_turn\"},\"usage\":{}}\n\n").unwrap());
    events.extend(
        state
            .feed(b"event: message_stop\ndata: {\"type\":\"message_stop\"}\n\n")
            .unwrap(),
    );
    events.extend(state.finish().unwrap());
    let joined = events.join("");
    assert!(joined.contains("\"model\":\"upstream-model-9\""));
}

#[test]
fn feature_kind_stable_codes() {
    assert_eq!(FeatureKind::Thinking.code(), "unsupported_feature.thinking");
    assert_eq!(
        FeatureKind::StructuredOutput.code(),
        "unsupported_feature.structured_output"
    );
    assert_eq!(
        FeatureKind::BuiltinTool.code(),
        "unsupported_feature.builtin_tool"
    );
    assert_eq!(FeatureKind::Document.code(), "unsupported_feature.document");
    assert_eq!(
        FeatureKind::PromptCache.code(),
        "unsupported_feature.prompt_cache"
    );
    assert_eq!(
        FeatureKind::UnknownRole.code(),
        "unsupported_feature.unknown_role"
    );
    assert_eq!(
        FeatureKind::UnknownBlock.code(),
        "unsupported_feature.unknown_block"
    );
    assert_eq!(
        FeatureKind::UnknownEvent.code(),
        "unsupported_feature.unknown_event"
    );
    assert_eq!(
        FeatureKind::UnknownFinishReason.code(),
        "unsupported_feature.finish_reason"
    );
    assert_eq!(
        FeatureKind::InvalidToolArguments.code(),
        "unsupported_feature.invalid_tool_arguments"
    );
    assert_eq!(
        FeatureKind::MissingToolField.code(),
        "unsupported_feature.missing_tool_field"
    );
    assert_eq!(FeatureKind::Media.code(), "unsupported_media");
}
