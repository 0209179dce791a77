//! Responses requests as Chat Completions requests.
use vstd::prelude::*;
use vstd::string::*;

use crate::chat::{make_message, message};
use crate::folds::{lemma_take_next, pick};
use crate::json::{
    count_in, duplicate_some, either, field, filled, flag_in, lemma_list_append, lemma_list_push,
    list_field, list_model, put_some, seen_owned, text_field, text_or_empty, Json, JsonNumber,
    JsonValue, Object,
};
use crate::responses::input::{convert_responses_input_to_messages, input_messages, numberable};
use crate::text::same_text;

verus! {

/// Whether a request is for the Responses API: it has an input in place of messages.
pub open spec fn has_responses_shape(body: Json) -> bool {
    field(body, "input"@) is Some && field(body, "messages"@) is None
}

/// Detects a request for the Responses API.
pub fn is_responses_request(body: &JsonValue) -> (r: bool)
    ensures
        r == has_responses_shape(body@),
{
    body.get("input").is_some() && body.get("messages").is_none()
}

/// The schema of a function's parameters, which a chat request needs to be that of an object.
pub open spec fn object_schema(parameters: Option<Json>) -> Json {
    match parameters {
        Some(Json::Record(schema)) => Json::Record(
            if schema.contains_key("type"@) {
                schema
            } else {
                schema.insert("type"@, Json::Text("object"@))
            },
        ),
        _ => Json::Record(
            map!["type"@ => Json::Text("object"@), "properties"@ => Json::Record(Map::empty())],
        ),
    }
}

/// A tool whose function stands beside its type, with the function nested in it.
pub open spec fn nested_tool(tool: Json) -> Json {
    let function = put_some(
        put_some(
            map![
                "name"@ => either(field(tool, "name"@), Json::Null),
                "parameters"@ => object_schema(field(tool, "parameters"@)),
            ],
            "description"@,
            field(tool, "description"@),
        ),
        "strict"@,
        field(tool, "strict"@),
    );
    Json::Record(
        map!["type"@ => Json::Text("function"@), "function"@ => Json::Record(function)],
    )
}

/// A tool of a chat request: a function tool, nested if it is not yet. A tool that the provider
/// has built in is left out.
pub open spec fn nested_function(tool: Json) -> Option<Json> {
    if text_or_empty(tool, "type"@) != "function"@ {
        None
    } else if field(tool, "function"@) is Some {
        Some(tool)
    } else {
        Some(nested_tool(tool))
    }
}

/// `nested_function` as a function value.
pub open spec fn function_of() -> spec_fn(Json) -> Option<Json> {
    |tool: Json| nested_function(tool)
}

/// The tools of a chat request, where the request names a function.
pub open spec fn function_tools(body: Json) -> Option<Json> {
    match list_field(body, "tools"@) {
        Some(tools) => {
            let functions = pick(tools, function_of());
            if functions.len() == 0 {
                None
            } else {
                Some(Json::List(functions))
            }
        },
        None => None,
    }
}

fn make_object_schema(parameters: Option<&JsonValue>) -> (r: JsonValue)
    ensures
        r@ == object_schema(match parameters {
            Some(p) => Some(p@),
            None => None,
        }),
{
    let schema = match parameters {
        Some(parameters) => match parameters {
            JsonValue::Object(schema) => Some(schema),
            _ => None,
        },
        None => None,
    };
    match schema {
        Some(schema) => if schema.get("type").is_some() {
            JsonValue::Object(schema.duplicate())
        } else {
            JsonValue::Object(schema.duplicate().with("type", JsonValue::text("object")))
        },
        None => JsonValue::Object(
            Object::new().with("type", JsonValue::text("object")).with(
                "properties",
                JsonValue::Object(Object::new()),
            ),
        ),
    }
}

/// Converts one tool, or leaves it out.
pub fn convert_function(tool: &JsonValue) -> (r: Option<JsonValue>)
    ensures
        seen_owned(r) == nested_function(tool@),
{
    let kind = tool.get_text_or_empty("type");
    if !same_text(kind.as_str(), "function") {
        return None;
    }
    if tool.get("function").is_some() {
        return Some(tool.duplicate());
    }
    let name = match tool.get("name") {
        Some(name) => name.duplicate(),
        None => JsonValue::Null,
    };
    let function = Object::new().with("name", name).with(
        "parameters",
        make_object_schema(tool.get("parameters")),
    ).with_some("description", duplicate_some(tool.get("description"))).with_some(
        "strict",
        duplicate_some(tool.get("strict")),
    );
    Some(
        JsonValue::Object(
            Object::new().with("type", JsonValue::text("function")).with(
                "function",
                JsonValue::Object(function),
            ),
        ),
    )
}

fn convert_functions(body: &JsonValue) -> (r: Option<JsonValue>)
    ensures
        seen_owned(r) == function_tools(body@),
{
    let tools = match body.get_array("tools") {
        Some(tools) => tools,
        None => return None,
    };
    let ghost models = list_model(tools@);
    let mut functions: Vec<JsonValue> = Vec::new();
    let mut i: usize = 0;
    assert(models.take(0) =~= Seq::<Json>::empty());
    assert(list_model(functions@) =~= Seq::<Json>::empty());
    while i < tools.len()
        invariant
            i <= tools@.len(),
            models == list_model(tools@),
            list_model(functions@) == pick(models.take(i as int), function_of()),
        decreases tools@.len() - i,
    {
        proof {
            lemma_take_next(models, i as int);
        }
        match convert_function(&tools[i]) {
            Some(function) => {
                proof {
                    lemma_list_push(functions@, function);
                }
                functions.push(function);
            },
            None => {},
        }
        i += 1;
    }
    assert(models.take(i as int) =~= models);
    assert(list_model(functions@).len() == functions@.len());
    if functions.len() == 0 {
        None
    } else {
        Some(JsonValue::Array(functions))
    }
}

/// The system message for the instructions of a request, where it has any.
pub open spec fn instructions(body: Json) -> Seq<Json> {
    match filled(text_field(body, "instructions"@)) {
        Some(text) => seq![message("system"@, Json::Text(text))],
        None => Seq::empty(),
    }
}

/// The messages of a request: its instructions, then its input.
pub open spec fn request_messages(body: Json) -> Seq<Json> {
    instructions(body) + match field(body, "input"@) {
        Some(input) => input_messages(input),
        None => Seq::empty(),
    }
}

/// The chat request for a Responses request.
pub open spec fn chat_request(body: Json) -> Json {
    let base = map![
        "model"@ => Json::Text(text_or_empty(body, "model"@)),
        "messages"@ => Json::List(request_messages(body)),
        "max_tokens"@ => Json::Number(
            JsonNumber::Integer(either(count_in(field(body, "max_output_tokens"@)), 4096) as int),
        ),
        "stream"@ => Json::Bool(flag_in(field(body, "stream"@)) == Some(true)),
    ];
    Json::Record(
        put_some(
            put_some(
                put_some(
                    put_some(base, "temperature"@, field(body, "temperature"@)),
                    "top_p"@,
                    field(body, "top_p"@),
                ),
                "tools"@,
                function_tools(body),
            ),
            "tool_choice"@,
            field(body, "tool_choice"@),
        ),
    )
}

/// Converts a Responses request to a Chat Completions request.
pub fn responses_to_openai(body: &JsonValue) -> (r: JsonValue)
    requires
        match field(body@, "input"@) {
            Some(input) => numberable(input),
            None => true,
        },
    ensures
        r@ == chat_request(body@),
{
    let model = body.get_text_or_empty("model");
    let mut messages: Vec<JsonValue> = Vec::new();
    assert(list_model(messages@) =~= Seq::<Json>::empty());
    match body.get_filled_text("instructions") {
        Some(text) => {
            let msg = make_message("system", JsonValue::text(text));
            messages.push(msg);
            assert(list_model(messages@) =~= seq![msg@]);
        },
        None => {},
    }
    assert(list_model(messages@) == instructions(body@));
    match body.get("input") {
        Some(input) => match convert_responses_input_to_messages(input) {
            JsonValue::Array(converted) => {
                let mut converted = converted;
                proof {
                    lemma_list_append(messages@, converted@);
                }
                messages.append(&mut converted);
            },
            _ => {},
        },
        None => {
            assert(instructions(body@) + Seq::<Json>::empty() =~= instructions(body@));
        },
    }
    let max_tokens = match body.get_u64("max_output_tokens") {
        Some(max_tokens) => max_tokens,
        None => 4096,
    };
    let stream = match body.get_bool("stream") {
        Some(flag) => flag,
        None => false,
    };
    let base = Object::new().with("model", JsonValue::String(model)).with(
        "messages",
        JsonValue::Array(messages),
    ).with("max_tokens", JsonValue::count(max_tokens)).with("stream", JsonValue::Bool(stream));
    JsonValue::Object(
        base.with_some("temperature", duplicate_some(body.get("temperature"))).with_some(
            "top_p",
            duplicate_some(body.get("top_p")),
        ).with_some("tools", convert_functions(body)).with_some(
            "tool_choice",
            duplicate_some(body.get("tool_choice")),
        ),
    )
}

} // verus!
