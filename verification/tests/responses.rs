//! Conversions between Responses and Chat Completions.
use chat_bridge::json::{parse_json, print_json, JsonValue};
use chat_bridge::responses::input::{convert_responses_input_to_messages, is_numberable};
use chat_bridge::responses::response::{make_responses_response, ResponseIds};
use chat_bridge::{is_responses_request, openai_to_responses, responses_to_openai};
use serde_json::Value;

fn json(text: &str) -> JsonValue {
    parse_json(text).unwrap()
}

fn value(json: &JsonValue) -> Value {
    serde_json::from_str(&print_json(json).unwrap()).unwrap()
}

fn parse(text: &str) -> Value {
    serde_json::from_str(text).unwrap()
}

fn messages(input: &str) -> Value {
    value(&convert_responses_input_to_messages(&json(input)))
}

#[test]
fn a_responses_request_has_input_and_no_messages() {
    assert!(is_responses_request(&json(r#"{"input":null}"#)));
    assert!(!is_responses_request(&json(r#"{"input":"x","messages":[]}"#)));
    assert!(!is_responses_request(&json(r#"{"messages":[]}"#)));
    assert!(!is_responses_request(&json(r#"["input"]"#)));
}

#[test]
fn a_text_or_nothing_as_input() {
    assert_eq!(messages(r#""hi""#), parse(r#"[{"role":"user","content":"hi"}]"#));
    assert_eq!(messages("7"), parse("[]"));
    assert_eq!(messages("[]"), parse("[]"));
}

#[test]
fn each_kind_of_item_becomes_its_message() {
    let converted = messages(
        r#"[
            {"type":"message","role":"developer","content":[{"type":"input_text","text":"a"},{"text":1},{"text":"b"}]},
            {"role":"assistant","content":"c"},
            {"role":7,"content":7},
            {"type":"message"},
            {"text":"d"},
            {"text":7},
            "e",
            8,
            {"type":"function_call","call_id":"x","name":"n","arguments":"{}"},
            {"type":"function_call_output","call_id":"x","output":"o"},
            {"type":"function_call","call_id":"y","role":"user"}
        ]"#,
    );
    let expected = parse(
        r#"[
            {"role":"system","content":"ab"},
            {"role":"assistant","content":"c"},
            {"role":"user","content":""},
            {"role":"user","content":"d"},
            {"role":"user","content":""},
            {"role":"user","content":"e"},
            {"role":"assistant","content":null,"tool_calls":[{"id":"x","type":"function","function":{"name":"n","arguments":"{}"}}]},
            {"role":"tool","tool_call_id":"x","content":"o"},
            {"role":"assistant","content":null,"tool_calls":[{"id":"y","type":"function","function":{"name":"","arguments":""}}]},
            {"role":"tool","tool_call_id":"y","content":""}
        ]"#,
    );
    assert_eq!(converted, expected);
}

#[test]
fn calls_without_an_id_get_one_and_every_call_is_answered() {
    let converted = messages(
        r#"[
            {"type":"function_call","name":"n"},
            {"type":"function_call_output","output":"o"},
            {"type":"function_call","name":"m"}
        ]"#,
    );
    let items = converted.as_array().unwrap();
    assert_eq!(items.len(), 5);
    assert_eq!(items[0]["tool_calls"][0]["id"], "call_1");
    assert_eq!(items[1], parse(r#"{"role":"tool","tool_call_id":"call_1","content":""}"#));
    assert_eq!(items[2], parse(r#"{"role":"tool","tool_call_id":"call_1","content":"o"}"#));
    assert_eq!(items[3]["tool_calls"][0]["id"], "call_1");
    assert_eq!(items[4]["tool_call_id"], "call_1");

    let answered = messages(
        r#"[{"type":"function_call","name":"n"},{"type":"function_call_output","output":"o"}]"#,
    );
    assert_eq!(answered.as_array().unwrap().len(), 2);
    assert_eq!(answered[0]["tool_calls"][0]["id"], "call_0");
    assert_eq!(answered[1]["tool_call_id"], "call_0");

    let orphan = messages(r#"[{"type":"function_call_output","output":"o"}]"#);
    assert_eq!(orphan[0]["tool_call_id"], "");
}

#[test]
fn an_answer_can_be_taken_over_by_a_later_call() {
    let converted = messages(
        r#"[
            {"type":"function_call","call_id":"call_0","name":"n"},
            {"type":"function_call"},
            {"type":"function_call_output","output":"o"},
            {"type":"function_call"}
        ]"#,
    );
    let items = converted.as_array().unwrap();
    assert_eq!(items[0]["tool_calls"][0]["id"], "call_0");
    assert!(!items.iter().any(|item| item["tool_call_id"] == "call_0"));
}

#[test]
fn a_whole_request_becomes_a_chat_request() {
    let converted = value(&responses_to_openai(&json(
        r#"{
            "model": "m", "input": "hi", "instructions": "be brief", "max_output_tokens": 9,
            "stream": true, "temperature": 0.5, "top_p": 1, "tool_choice": "auto", "store": false,
            "tools": [
                {"type": "web_search"},
                {"type": "function", "name": "f", "description": "d", "strict": true},
                {"type": "function", "name": "g", "parameters": {"properties": {"x": {}}}},
                {"type": "function", "parameters": {"type": "string"}},
                {"type": "function", "function": {"name": "h"}}
            ]
        }"#,
    )));
    let expected = parse(
        r#"{
            "model": "m", "max_tokens": 9, "stream": true, "temperature": 0.5, "top_p": 1,
            "tool_choice": "auto",
            "messages": [{"role": "system", "content": "be brief"}, {"role": "user", "content": "hi"}],
            "tools": [
                {"type": "function", "function": {"name": "f", "description": "d", "strict": true, "parameters": {"type": "object", "properties": {}}}},
                {"type": "function", "function": {"name": "g", "parameters": {"type": "object", "properties": {"x": {}}}}},
                {"type": "function", "function": {"name": null, "parameters": {"type": "string"}}},
                {"type": "function", "function": {"name": "h"}}
            ]
        }"#,
    );
    assert_eq!(converted, expected);
}

#[test]
fn only_nested_functions_go_on_and_they_stay_as_they_are() {
    let once = value(&responses_to_openai(&json(
        r#"{"tools":[{"type":"file_search"},{"type":"function","name":"f","parameters":7}]}"#,
    )));
    let again = format!(r#"{{"tools":{}}}"#, once["tools"]);
    assert_eq!(once["tools"][0]["function"]["parameters"]["type"], "object");
    assert_eq!(once["tools"].as_array().unwrap().len(), 1);
    assert_eq!(value(&responses_to_openai(&json(&again)))["tools"], once["tools"]);
}

#[test]
fn a_bare_request_becomes_a_bare_chat_request() {
    let expected = parse(r#"{"model": "", "messages": [], "max_tokens": 4096, "stream": false}"#);
    assert_eq!(value(&responses_to_openai(&json("{}"))), expected);
    let converted = responses_to_openai(&json(r#"{"instructions":"","tools":[{"type":"web_search"}]}"#));
    assert_eq!(value(&converted), expected);
}

#[test]
fn a_response_with_given_ids_and_time_is_exact() {
    let ids = ResponseIds {
        calls: vec!["fc_1".to_string(), "fc_2".to_string()],
        message: "msg_1".to_string(),
        response: "resp_1".to_string(),
    };
    let response = json(
        r#"{
            "choices": [{"finish_reason": "tool_calls", "message": {"content": "hi", "tool_calls": [
                {"id": "a", "function": {"name": "n", "arguments": "{}"}}, {}
            ]}}],
            "usage": {"prompt_tokens": 2, "completion_tokens": 3}
        }"#,
    );
    let converted = value(&make_responses_response(&response, "m", &ids, 77));
    let expected = parse(
        r#"{
            "id": "resp_1", "object": "response", "created_at": 77, "model": "m",
            "output": [
                {"id": "fc_1", "type": "function_call", "call_id": "a", "name": "n", "arguments": "{}", "status": "completed"},
                {"id": "fc_2", "type": "function_call", "call_id": "", "name": "", "arguments": "", "status": "completed"},
                {"id": "msg_1", "type": "message", "role": "assistant", "content": [{"type": "output_text", "text": "hi"}], "status": "completed"}
            ],
            "usage": {"input_tokens": 2, "output_tokens": 3, "total_tokens": 5},
            "status": "completed", "finish_reason": "tool_calls"
        }"#,
    );
    assert_eq!(converted, expected);
}

#[test]
fn a_response_gets_fresh_ids_and_the_current_time() {
    let body = json(r#"{"choices":[{"message":{"tool_calls":[{"id":"a"},{"id":"b"}]}}]}"#);
    let converted = value(&openai_to_responses(&body, "m"));
    let id = converted["id"].as_str().unwrap();
    assert!(id.starts_with("resp_"));
    assert_eq!(id.len(), 5 + 36);
    let dashes: Vec<usize> = id.match_indices('-').map(|(at, _)| at - 5).collect();
    assert_eq!(dashes, vec![8, 13, 18, 23]);
    assert_eq!(&id[5 + 14..5 + 15], "4");
    let output = converted["output"].as_array().unwrap();
    assert_eq!(output.len(), 2);
    assert_ne!(output[0]["id"], output[1]["id"]);
    assert!(output[0]["id"].as_str().unwrap().starts_with("fc_"));
    assert_eq!(output[1]["call_id"], "b");
    assert!(converted["created_at"].as_i64().unwrap() > 1_600_000_000);
    assert_eq!(converted["finish_reason"], "stop");
}

#[test]
fn a_response_is_never_without_an_item() {
    let converted = value(&openai_to_responses(&json(r#"{"id":7}"#), "m"));
    assert_eq!(converted["id"], 7);
    let output = converted["output"].as_array().unwrap();
    assert_eq!(output.len(), 1);
    assert_eq!(output[0]["type"], "message");
    assert_eq!(output[0]["content"][0]["text"], "");
    assert_eq!(converted["usage"]["total_tokens"], 0);
}

#[test]
fn an_input_converts_part_by_part() {
    let plain = r#"{"role":"user","content":"a"},"b""#;
    let tools = r#"{"type":"function_call","name":"n"},{"type":"function_call_output","output":"o"}"#;
    let list = |items: &str| messages(&format!("[{}]", items)).as_array().unwrap().clone();
    let mut after = list(plain);
    after.extend(list(tools));
    assert_eq!(list(&format!("{},{}", plain, tools)), after);
    let mut before = list(tools);
    before.extend(list(plain));
    assert_eq!(list(&format!("{},{}", tools, plain)), before);
}

#[test]
fn chat_messages_as_input_stay_as_they_are() {
    let plain = r#"[{"role":"user","content":"a"},{"role":"odd","content":""}]"#;
    assert_eq!(messages(plain), parse(plain));
    assert!(is_numberable(&json(plain)));
    assert!(is_numberable(&json(r#"[{"type":"function_call"}]"#)));
    assert!(is_numberable(&json("7")));
}

#[test]
fn the_output_of_a_response_converts_back() {
    let response = json(
        r#"{"choices":[{"message":{"content":"hi","tool_calls":[{"id":"a","function":{"name":"n","arguments":"{}"}}]}}]}"#,
    );
    let output = value(&openai_to_responses(&response, "m"))["output"].to_string();
    let expected = parse(
        r#"[
            {"role":"assistant","content":null,"tool_calls":[{"id":"a","type":"function","function":{"name":"n","arguments":"{}"}}]},
            {"role":"tool","tool_call_id":"a","content":""},
            {"role":"assistant","content":"hi"}
        ]"#,
    );
    assert_eq!(messages(&output), expected);
}
