//! The shapes of Chat Completions messages and responses.
use vstd::prelude::*;
use vstd::string::*;

use crate::json::{count_in, either, field, list_field, list_model, seen, Json, JsonValue, Object};

verus! {

/// A chat message.
pub open spec fn message(role: Seq<char>, content: Json) -> Json {
    Json::Record(map!["role"@ => Json::Text(role), "content"@ => content])
}

/// Makes a chat message.
pub fn make_message(role: &str, content: JsonValue) -> (r: JsonValue)
    ensures
        r@ == message(role@, content@),
{
    JsonValue::Object(Object::new().with("role", JsonValue::text(role)).with("content", content))
}

/// A tool call of an assistant message.
pub open spec fn tool_call(id: Seq<char>, name: Seq<char>, arguments: Seq<char>) -> Json {
    Json::Record(
        map![
            "id"@ => Json::Text(id),
            "type"@ => Json::Text("function"@),
            "function"@ => Json::Record(
                map!["name"@ => Json::Text(name), "arguments"@ => Json::Text(arguments)],
            ),
        ],
    )
}

/// Makes a tool call of an assistant message. The arguments are a JSON text.
pub fn make_tool_call(id: &str, name: &str, arguments: &str) -> (r: JsonValue)
    ensures
        r@ == tool_call(id@, name@, arguments@),
{
    let function = Object::new().with("name", JsonValue::text(name)).with(
        "arguments",
        JsonValue::text(arguments),
    );
    JsonValue::Object(
        Object::new().with("id", JsonValue::text(id)).with("type", JsonValue::text("function")).with(
            "function",
            JsonValue::Object(function),
        ),
    )
}

/// A tool message, which answers a tool call.
pub open spec fn tool_message(id: Seq<char>, content: Seq<char>) -> Json {
    Json::Record(
        map![
            "role"@ => Json::Text("tool"@),
            "tool_call_id"@ => Json::Text(id),
            "content"@ => Json::Text(content),
        ],
    )
}

/// Makes a tool message, which answers a tool call.
pub fn make_tool_message(id: &str, content: &str) -> (r: JsonValue)
    ensures
        r@ == tool_message(id@, content@),
{
    JsonValue::Object(
        Object::new().with("role", JsonValue::text("tool")).with(
            "tool_call_id",
            JsonValue::text(id),
        ).with("content", JsonValue::text(content)),
    )
}

/// The first choice of a chat response.
pub open spec fn first_choice(resp: Json) -> Option<Json> {
    match list_field(resp, "choices"@) {
        Some(choices) => if choices.len() > 0 {
            Some(choices[0])
        } else {
            None
        },
        None => None,
    }
}

/// A member of a value that may be missing.
pub open spec fn field_of(value: Option<Json>, key: Seq<char>) -> Option<Json> {
    match value {
        Some(v) => field(v, key),
        None => None,
    }
}

/// The first choice of a chat response.
pub fn get_first_choice(resp: &JsonValue) -> (r: Option<&JsonValue>)
    ensures
        seen(r) == first_choice(resp@),
{
    match resp.get_array("choices") {
        Some(choices) => {
            assert(list_model(choices@).len() == choices@.len());
            if choices.len() > 0 {
                Some(&choices[0])
            } else {
                None
            }
        },
        None => None,
    }
}

/// A member of a value that may be missing.
pub fn get_of<'a>(value: Option<&'a JsonValue>, key: &str) -> (r: Option<&'a JsonValue>)
    ensures
        seen(r) == field_of(seen(value), key@),
{
    match value {
        Some(v) => v.get(key),
        None => None,
    }
}

/// A token count of a chat response, or 0.
pub open spec fn token_count(resp: Json, key: Seq<char>) -> u64 {
    either(count_in(field_of(field(resp, "usage"@), key)), 0)
}

/// A token count of a chat response, or 0.
pub fn get_token_count(resp: &JsonValue, key: &str) -> (r: u64)
    ensures
        r == token_count(resp@, key@),
{
    match get_of(resp.get("usage"), key) {
        Some(value) => match value.as_u64() {
            Some(n) => n,
            None => 0,
        },
        None => 0,
    }
}

/// The tool calls of a completion message.
pub open spec fn calls_in(message: Json) -> Seq<Json> {
    either(list_field(message, "tool_calls"@), Seq::empty())
}

} // verus!
