//! The decoders, frame by frame and refusal by refusal.
use chat_bridge::codec::chat::{find_draft_fault, ChatSseState, ToolDraft};
use chat_bridge::codec::error::UnsupportedFeatures;
use chat_bridge::codec::framing::{classify, read_frame, Frame, Framing};
use chat_bridge::codec::messages::MessagesSseState;
use chat_bridge::json::{parse_json, print_json, JsonValue};

fn json(text: &str) -> JsonValue {
    parse_json(text).unwrap()
}

fn texts(values: &[JsonValue]) -> Vec<String> {
    values.iter().map(|v| print_json(v).unwrap()).collect()
}

fn frame(data: &str) -> Vec<u8> {
    format!("data: {}\n\n", data).into_bytes()
}

fn code(refused: &UnsupportedFeatures) -> (String, String) {
    assert_eq!(refused.features.len(), 1);
    assert_eq!(refused.json_pointers.len(), 1);
    (refused.features[0].clone(), refused.json_pointers[0].clone())
}

fn refusal(kind: &str, pointer: &str) -> (String, String) {
    (format!("unsupported_feature.{}", kind), pointer.to_string())
}

fn frames(bytes: &[u8]) -> Vec<String> {
    let mut framing = Framing::new();
    let mut out = Vec::new();
    for byte in bytes {
        if let Some(data) = framing.take(*byte) {
            out.push(String::from_utf8(data).unwrap());
        }
    }
    out
}

#[test]
fn frames_come_out_of_lines() {
    assert_eq!(frames(b"data: a\n\n"), vec!["a"]);
    assert_eq!(frames(b"data:a\r\n\r\n"), vec!["a"]);
    assert_eq!(frames(b"data:  a\n\n"), vec![" a"]);
    assert_eq!(frames(b": note\nevent: x\ndata: a\nid: 7\ndata: b\n\n"), vec!["a\nb"]);
    assert_eq!(frames(b"data:\n\n"), vec![""]);
    assert_eq!(frames(b"event: x\n\n\n\n"), Vec::<String>::new());
    assert_eq!(frames(b"data: a\n"), Vec::<String>::new());
    assert_eq!(frames(b"data: a\n\ndata: b\n\ndata: c"), vec!["a", "b"]);
}

#[test]
fn data_is_the_end_an_event_or_neither() {
    assert!(matches!(read_frame(b"[DONE]".to_vec()), Frame::Done));
    assert!(matches!(read_frame(b"{}".to_vec()), Frame::Event(_)));
    assert!(matches!(read_frame(b"[]".to_vec()), Frame::Bad));
    assert!(matches!(read_frame(b"{".to_vec()), Frame::Bad));
    assert!(matches!(read_frame(vec![0xff]), Frame::Bad));
    assert!(matches!(classify("x", Err("no".to_string())), Frame::Bad));
    assert!(matches!(classify("x", Ok(json("{}"))), Frame::Event(_)));
    assert!(matches!(classify("[DONE]", Ok(json("{}"))), Frame::Done));
}

#[test]
fn any_cut_of_a_chat_stream_gives_the_same() {
    let mut bytes = Vec::new();
    for data in [
        r#"{"choices":[{"delta":{"reasoning_content":"é"}}]}"#,
        r#"{"choices":[{"delta":{"content":"ü","tool_calls":[{"index":3,"id":"c","function":{"name":"n","arguments":"{"}}]}}]}"#,
        r#"{"choices":[{"delta":{"tool_calls":[{"index":3,"function":{"arguments":"}"}}]},"finish_reason":"tool_calls"}]}"#,
        "[DONE]",
    ] {
        bytes.extend(frame(data));
    }
    let mut whole = ChatSseState::new("m", "i");
    let mut expected = whole.feed(&bytes).unwrap();
    expected.extend(whole.finish().unwrap());
    for cut in 0..bytes.len() {
        let mut state = ChatSseState::new("m", "i");
        let mut output = state.feed(&bytes[..cut]).unwrap();
        output.extend(state.feed(&bytes[cut..]).unwrap());
        output.extend(state.finish().unwrap());
        assert_eq!(output, expected);
    }
}

#[test]
fn any_cut_before_a_refusal_gives_the_same_refusal() {
    let mut bytes = frame(r#"{"type":"message_start","message":{}}"#);
    bytes.extend(frame("{bad"));
    bytes.extend(frame(r#"{"type":"ping"}"#));
    let mut whole = MessagesSseState::default();
    let expected = code(&whole.feed(&bytes).unwrap_err());
    assert_eq!(expected, refusal("unknown_event", ""));
    let bad = bytes.len() - frame(r#"{"type":"ping"}"#).len();
    for cut in 0..bad {
        let mut state = MessagesSseState::default();
        state.feed(&bytes[..cut]).unwrap();
        assert_eq!(code(&state.feed(&bytes[cut..]).unwrap_err()), expected);
    }
}

#[test]
fn a_chat_stream_goes_out_event_by_event() {
    let mut state = ChatSseState::new("m", "i");
    let started = state
        .feed(&frame(r#"{"choices":[{"delta":{"content":"x"}}],"usage":{"prompt_tokens":4}}"#))
        .unwrap();
    assert_eq!(
        started,
        vec![
            "event: message_start\ndata: {\"message\":{\"content\":[],\"id\":\"i\",\"model\":\"m\",\"role\":\"assistant\",\"stop_reason\":null,\"stop_sequence\":null,\"type\":\"message\",\"usage\":{\"input_tokens\":4,\"output_tokens\":0}},\"type\":\"message_start\"}\n\n",
            "event: content_block_start\ndata: {\"content_block\":{\"text\":\"\",\"type\":\"text\"},\"index\":0,\"type\":\"content_block_start\"}\n\n",
            "event: content_block_delta\ndata: {\"delta\":{\"text\":\"x\",\"type\":\"text_delta\"},\"index\":0,\"type\":\"content_block_delta\"}\n\n",
        ]
    );
    let thought = state
        .feed(&frame(r#"{"choices":[{"delta":{"reasoning_content":"y"},"finish_reason":"length"}]}"#))
        .unwrap();
    assert_eq!(
        thought,
        vec![
            "event: content_block_stop\ndata: {\"index\":0,\"type\":\"content_block_stop\"}\n\n",
            "event: content_block_start\ndata: {\"content_block\":{\"thinking\":\"\",\"type\":\"thinking\"},\"index\":1,\"type\":\"content_block_start\"}\n\n",
            "event: content_block_delta\ndata: {\"delta\":{\"thinking\":\"y\",\"type\":\"thinking_delta\"},\"index\":1,\"type\":\"content_block_delta\"}\n\n",
        ]
    );
    let ended = state.finish().unwrap();
    assert_eq!(
        ended,
        vec![
            "event: content_block_stop\ndata: {\"index\":1,\"type\":\"content_block_stop\"}\n\n",
            "event: message_delta\ndata: {\"delta\":{\"stop_reason\":\"max_tokens\",\"stop_sequence\":null},\"type\":\"message_delta\",\"usage\":{\"input_tokens\":4,\"output_tokens\":0}}\n\n",
            "event: message_stop\ndata: {\"type\":\"message_stop\"}\n\n",
        ]
    );
    assert!(state.finish().unwrap().is_empty());
    assert!(state.feed(&frame("{bad")).unwrap().is_empty());
}

#[test]
fn tool_calls_go_out_in_the_order_of_their_indices() {
    let mut state = ChatSseState::default();
    let chunk = json(
        r#"{"choices":[{"delta":{"tool_calls":[
            {"index":9,"id":"z","function":{"name":"late","arguments":"{}"}},
            {"index":2,"id":"y","function":{"name":"early","arguments":"{\"a\""}},
            {"index":2,"id":"x","function":{"name":"","arguments":":1}"}},
            {"id":"w","function":{"name":"placed","arguments":"{}"}}
        ]}}]}"#,
    );
    state.absorb(&chunk);
    let readings = vec![Ok(json(r#"{"a":1}"#)), Ok(json("{}")), Ok(json("{}"))];
    let events = texts(&state.conclude(&readings).unwrap());
    assert_eq!(events.len(), 11);
    assert!(events[0].contains("\"id\":\"x\"") && events[0].contains("\"name\":\"early\""));
    assert!(events[1].contains("\"partial_json\":\"{\\\"a\\\":1}\""));
    assert!(events[3].contains("\"id\":\"w\"") && events[3].contains("\"index\":1"));
    assert!(events[6].contains("\"id\":\"z\"") && events[6].contains("\"index\":2"));
    assert!(events[9].contains("\"stop_reason\":\"tool_use\""));
}

#[test]
fn a_tool_call_at_fault_is_refused_where_it_stands() {
    let draft = |id: &str, name: &str| ToolDraft {
        index: 12,
        id: id.to_string(),
        name: name.to_string(),
        arguments: "{}".to_string(),
    };
    let fault = |draft: &ToolDraft, reading: Result<JsonValue, String>| {
        find_draft_fault(draft, &reading).map(|refused| code(&refused))
    };
    let place = "/choices/0/delta/tool_calls/12";
    assert_eq!(
        fault(&draft("", "n"), Ok(json("{}"))),
        Some(refusal("missing_tool_field", &format!("{}/id", place)))
    );
    assert_eq!(
        fault(&draft("c", ""), Ok(json("{}"))),
        Some(refusal("missing_tool_field", &format!("{}/function/name", place)))
    );
    assert_eq!(
        fault(&draft("c", "n"), Ok(json("[]"))),
        Some(refusal("invalid_tool_arguments", &format!("{}/function/arguments", place)))
    );
    assert_eq!(
        fault(&draft("c", "n"), Err("no".to_string())),
        Some(refusal("invalid_tool_arguments", &format!("{}/function/arguments", place)))
    );
    assert_eq!(fault(&draft("c", "n"), Ok(json("{}"))), None);
}

#[test]
fn a_refused_end_leaves_a_chat_stream_as_it_was() {
    let mut state = ChatSseState::default();
    assert_eq!(code(&state.finish().unwrap_err()), refusal("unknown_event", ""));
    state.feed(&frame(r#"{"choices":[{"delta":{"content":"x"}}]}"#)).unwrap();
    let missing = refusal("finish_reason", "/choices/0/finish_reason");
    assert_eq!(code(&state.finish().unwrap_err()), missing);
    state.feed(&frame(r#"{"choices":[{"finish_reason":"content_filter"}]}"#)).unwrap();
    let events = state.finish().unwrap();
    assert!(events[1].contains("\"stop_reason\":\"refusal\""));
}

#[test]
fn a_messages_stream_goes_out_chunk_by_chunk() {
    let mut state = MessagesSseState::new("m");
    let role = state
        .feed(&frame(r#"{"type":"message_start","message":{"id":"i","usage":{"input_tokens":4,"output_tokens":1}}}"#))
        .unwrap();
    assert_eq!(
        role,
        vec!["data: {\"choices\":[{\"delta\":{\"role\":\"assistant\"},\"finish_reason\":null,\"index\":0}],\"id\":\"i\",\"model\":\"m\",\"object\":\"chat.completion.chunk\"}\n\n"]
    );
    let text = state
        .feed(&frame(r#"{"type":"content_block_start","index":0,"content_block":{"type":"text","text":"x"}}"#))
        .unwrap();
    assert_eq!(
        text,
        vec!["data: {\"choices\":[{\"delta\":{\"content\":\"x\"},\"finish_reason\":null,\"index\":0}],\"id\":\"i\",\"model\":\"m\",\"object\":\"chat.completion.chunk\"}\n\n"]
    );
    state.feed(&frame(r#"{"type":"message_delta","delta":{"stop_reason":"stop_sequence"},"usage":{"output_tokens":6}}"#)).unwrap();
    assert_eq!(
        state.finish().unwrap(),
        vec![
            "data: {\"choices\":[{\"delta\":{},\"finish_reason\":\"stop\",\"index\":0}],\"id\":\"i\",\"model\":\"m\",\"object\":\"chat.completion.chunk\",\"usage\":{\"completion_tokens\":6,\"prompt_tokens\":4}}\n\n",
            "data: [DONE]\n\n",
        ]
    );
    assert!(state.finish().unwrap().is_empty());
    assert!(state.feed(&frame("{bad")).unwrap().is_empty());
}

#[test]
fn each_refusal_of_a_messages_stream_has_its_place() {
    let none: Result<JsonValue, String> = Err(String::new());
    let refused = |events: &[&str]| {
        let mut state = MessagesSseState::default();
        let (last, before) = events.split_last().unwrap();
        for event in before {
            state.take_event(&json(event), &none).unwrap();
        }
        code(&state.take_event(&json(last), &none).unwrap_err())
    };
    let start = r#"{"type":"message_start"}"#;
    let tool = r#"{"type":"content_block_start","index":1,"content_block":{"type":"tool_use","id":"c","name":"n"}}"#;
    let event = refusal("unknown_event", "/type");
    assert_eq!(refused(&[r#"{"type":"error"}"#]), event);
    assert_eq!(refused(&[tool]), event);
    assert_eq!(refused(&[start, start]), event);
    assert_eq!(refused(&[start, "{}"]), event);
    assert_eq!(
        refused(&[start, r#"{"type":"content_block_start","content_block":{"type":"document"}}"#]),
        refusal("unknown_block", "/content_block/type")
    );
    assert_eq!(
        refused(&[start, r#"{"type":"content_block_start","content_block":{"type":"tool_use","id":""}}"#]),
        refusal("missing_tool_field", "/content_block/id")
    );
    assert_eq!(
        refused(&[start, r#"{"type":"content_block_start","content_block":{"type":"tool_use","id":"c"}}"#]),
        refusal("missing_tool_field", "/content_block/name")
    );
    assert_eq!(refused(&[start, tool, tool]), refusal("unknown_event", "/index"));
    assert_eq!(
        refused(&[start, r#"{"type":"content_block_delta","delta":{"type":"odd"}}"#]),
        refusal("unknown_event", "/delta/type")
    );
    assert_eq!(
        refused(&[start, r#"{"type":"content_block_delta","index":1,"delta":{"type":"input_json_delta"}}"#]),
        refusal("unknown_event", "/index")
    );
    assert_eq!(
        refused(&[start, tool, r#"{"type":"content_block_stop","index":1}"#]),
        refusal("invalid_tool_arguments", "/delta/partial_json")
    );
}

#[test]
fn a_tool_block_comes_out_with_the_input_that_was_gathered() {
    let none: Result<JsonValue, String> = Err(String::new());
    let mut state = MessagesSseState::default();
    for event in [
        r#"{"type":"message_start"}"#,
        r#"{"type":"content_block_start","index":1,"content_block":{"type":"tool_use","id":"c","name":"n"}}"#,
        r#"{"type":"content_block_delta","index":1,"delta":{"type":"input_json_delta","partial_json":"{ "}}"#,
        r#"{"type":"content_block_delta","index":1,"delta":{"type":"input_json_delta","partial_json":" }"}}"#,
    ] {
        state.take_event(&json(event), &none).unwrap();
    }
    assert_eq!(
        code(&state.conclude().unwrap_err()),
        refusal("invalid_tool_arguments", "/delta/partial_json")
    );
    let chunks = state
        .take_event(&json(r#"{"type":"content_block_stop","index":1}"#), &Ok(json("{}")))
        .unwrap();
    assert_eq!(
        texts(&chunks),
        vec![r#"{"choices":[{"delta":{"tool_calls":[{"function":{"arguments":"{  }","name":"n"},"id":"c","index":0,"type":"function"}]},"finish_reason":null,"index":0}],"id":"","model":"","object":"chat.completion.chunk"}"#]
    );
    let quiet = state
        .take_event(&json(r#"{"type":"content_block_stop","index":1}"#), &none)
        .unwrap();
    assert!(quiet.is_empty());
}

#[test]
fn a_messages_stream_without_a_known_reason_is_refused() {
    let none: Result<JsonValue, String> = Err(String::new());
    for event in [
        r#"{"type":"message_stop"}"#,
        r#"{"type":"message_delta","delta":{"stop_reason":"pause_turn"}}"#,
    ] {
        let mut state = MessagesSseState::default();
        state.take_event(&json(r#"{"type":"message_start"}"#), &none).unwrap();
        state.take_event(&json(event), &none).unwrap();
        assert_eq!(
            code(&state.finish().unwrap_err()),
            refusal("finish_reason", "/delta/stop_reason")
        );
    }
    for (stop, finish) in [
        ("end_turn", "stop"),
        ("max_tokens", "length"),
        ("tool_use", "tool_calls"),
        ("refusal", "content_filter"),
    ] {
        let mut state = MessagesSseState::default();
        state.take_event(&json(r#"{"type":"message_start"}"#), &none).unwrap();
        let event = format!(r#"{{"type":"message_delta","delta":{{"stop_reason":"{}"}}}}"#, stop);
        state.take_event(&json(&event), &none).unwrap();
        let last = state.finish().unwrap();
        assert!(last[0].contains(&format!("\"finish_reason\":\"{}\"", finish)));
    }
}
