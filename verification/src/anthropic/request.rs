//! Anthropic Messages requests as Chat Completions requests.
use vstd::prelude::*;
use vstd::string::*;

use crate::anthropic::blocks::{anthropic_system_content_to_openai_text, system_text};
use crate::anthropic::messages::{
    chat_messages, conversation_comes_back, convert_anthropic_messages_to_openai,
};
use crate::folds::{lemma_take_next, lemma_try_all_stops, try_all};
use crate::json::{
    count_in, duplicate_some, either, field, filled, flag_in, lemma_list_push, list_field,
    list_model, outcome, put_some, seen_owned, seen_string, signed_in, text_field, text_or_empty,
    Json, JsonNumber, JsonValue, Object,
};
use crate::text::{ascii_lower, same_text, trim, trimmed};
use crate::thinking::{budget_to_level, level_for};

verus! {

/// A member that may be missing, as the outcome of a conversion.
pub open spec fn part_outcome(result: Result<Option<JsonValue>, String>) -> Result<
    Option<Json>,
    Seq<char>,
> {
    match result {
        Ok(part) => Ok(seen_owned(part)),
        Err(message) => Err(message@),
    }
}

/// The reasoning effort that a request asks for, or `None` where it asks for no thinking or for
/// a kind of thinking that is not known.
pub open spec fn reasoning_effort(body: Json) -> Option<Seq<char>> {
    match field(body, "thinking"@) {
        None => None,
        Some(thinking) => match text_field(thinking, "type"@) {
            None => None,
            Some(kind) => if kind == "enabled"@ {
                match signed_in(field(thinking, "budget_tokens"@)) {
                    Some(budget) => level_for(budget as int),
                    None => Some("auto"@),
                }
            } else if kind == "adaptive"@ || kind == "auto"@ {
                Some(adaptive_effort(body))
            } else if kind == "disabled"@ {
                Some("none"@)
            } else {
                None
            },
        },
    }
}

/// The effort that goes with adaptive thinking: the configured one, in lower case and without
/// surrounding white space, or the highest.
pub open spec fn adaptive_effort(body: Json) -> Seq<char> {
    let configured = match field(body, "output_config"@) {
        Some(config) => text_field(config, "effort"@),
        None => None,
    };
    match configured {
        Some(effort) => if trimmed(effort).len() > 0 {
            trimmed(effort).map_values(|c: char| ascii_lower(c))
        } else {
            "xhigh"@
        },
        None => "xhigh"@,
    }
}

fn read_adaptive_effort(body: &JsonValue) -> (r: String)
    ensures
        r@ == adaptive_effort(body@),
{
    let configured = match body.get("output_config") {
        Some(config) => config.get_text("effort"),
        None => None,
    };
    match configured {
        Some(effort) => {
            let effort = trim(effort);
            if effort.is_empty() {
                "xhigh".to_owned()
            } else {
                effort.to_ascii_lowercase()
            }
        },
        None => "xhigh".to_owned(),
    }
}

/// Maps the `thinking` configuration of a request to a reasoning effort.
pub fn anthropic_thinking_to_reasoning_effort(body: &JsonValue) -> (r: Option<String>)
    ensures
        seen_string(r) == reasoning_effort(body@),
{
    let thinking = match body.get("thinking") {
        Some(thinking) => thinking,
        None => return None,
    };
    let kind = match thinking.get_text("type") {
        Some(kind) => kind,
        None => return None,
    };
    if same_text(kind, "enabled") {
        let budget = match thinking.get("budget_tokens") {
            Some(budget) => budget.as_i64(),
            None => None,
        };
        match budget {
            Some(budget) => match budget_to_level(budget) {
                Some(level) => Some(level.to_owned()),
                None => None,
            },
            None => Some("auto".to_owned()),
        }
    } else if same_text(kind, "adaptive") || same_text(kind, "auto") {
        Some(read_adaptive_effort(body))
    } else if same_text(kind, "disabled") {
        Some("none".to_owned())
    } else {
        None
    }
}

/// A function tool of a chat request.
pub open spec fn function_tool(name: Seq<char>, description: Seq<char>, parameters: Json) -> Json {
    Json::Record(
        map![
            "type"@ => Json::Text("function"@),
            "function"@ => Json::Record(
                map![
                    "name"@ => Json::Text(name),
                    "description"@ => Json::Text(description),
                    "parameters"@ => parameters,
                ],
            ),
        ],
    )
}

/// A custom tool as a function tool. A tool that the provider has built in is refused; an
/// annotation on a tool is not read.
pub open spec fn chat_tool(tool: Json) -> Result<Json, Seq<char>> {
    let kind = either(text_field(tool, "type"@), "custom"@);
    if kind == "custom"@ || kind.len() == 0 {
        match filled(text_field(tool, "name"@)) {
            None => Err("Anthropic tool is missing its name"@),
            Some(name) => match field(tool, "input_schema"@) {
                None => Err("Anthropic tool '"@ + name + "' is missing input_schema"@),
                Some(parameters) => Ok(
                    function_tool(name, text_or_empty(tool, "description"@), parameters),
                ),
            },
        }
    } else {
        Err("Anthropic built-in tools require a native Anthropic Messages channel"@)
    }
}

/// `chat_tool` as a function value.
pub open spec fn tool_of() -> spec_fn(Json) -> Result<Json, Seq<char>> {
    |tool: Json| chat_tool(tool)
}

/// The tools of a chat request, where the request names any.
pub open spec fn chat_tools(body: Json) -> Result<Option<Json>, Seq<char>> {
    match list_field(body, "tools"@) {
        None => Ok(None),
        Some(tools) => match try_all(tools, tool_of()) {
            Ok(converted) => Ok(
                if converted.len() == 0 {
                    None
                } else {
                    Some(Json::List(converted))
                },
            ),
            Err(message) => Err(message),
        },
    }
}

/// Converts one tool.
pub fn convert_tool(tool: &JsonValue) -> (r: Result<JsonValue, String>)
    ensures
        outcome(r) == chat_tool(tool@),
{
    let kind = match tool.get_text("type") {
        Some(kind) => kind,
        None => "custom",
    };
    if !same_text(kind, "custom") && !kind.is_empty() {
        return Err(
            "Anthropic built-in tools require a native Anthropic Messages channel".to_owned(),
        );
    }
    let name = match tool.get_filled_text("name") {
        Some(name) => name,
        None => return Err("Anthropic tool is missing its name".to_owned()),
    };
    let description = tool.get_text_or_empty("description");
    let parameters = match tool.get("input_schema") {
        Some(parameters) => parameters.duplicate(),
        None => {
            let mut message = "Anthropic tool '".to_owned();
            message.append(name);
            message.append("' is missing input_schema");
            return Err(message);
        },
    };
    let function = Object::new().with("name", JsonValue::text(name)).with(
        "description",
        JsonValue::String(description),
    ).with("parameters", parameters);
    Ok(
        JsonValue::Object(
            Object::new().with("type", JsonValue::text("function")).with(
                "function",
                JsonValue::Object(function),
            ),
        ),
    )
}

fn convert_tools(body: &JsonValue) -> (r: Result<Option<JsonValue>, String>)
    ensures
        part_outcome(r) == chat_tools(body@),
{
    let tools = match body.get_array("tools") {
        Some(tools) => tools,
        None => return Ok(None),
    };
    let ghost models = list_model(tools@);
    let mut converted: Vec<JsonValue> = Vec::new();
    let mut i: usize = 0;
    assert(models.take(0) =~= Seq::<Json>::empty());
    assert(list_model(converted@) =~= Seq::<Json>::empty());
    while i < tools.len()
        invariant
            i <= tools@.len(),
            models == list_model(tools@),
            list_field(body@, "tools"@) == Some(models),
            try_all(models.take(i as int), tool_of()) == Ok::<Seq<Json>, Seq<char>>(
                list_model(converted@),
            ),
        decreases tools@.len() - i,
    {
        proof {
            lemma_take_next(models, i as int);
        }
        match convert_tool(&tools[i]) {
            Ok(tool) => {
                proof {
                    lemma_list_push(converted@, tool);
                }
                converted.push(tool);
            },
            Err(message) => {
                proof {
                    lemma_try_all_stops(models, tool_of(), i + 1);
                }
                return Err(message);
            },
        }
        i += 1;
    }
    assert(models.take(i as int) =~= models);
    assert(list_model(converted@).len() == converted@.len());
    if converted.len() == 0 {
        Ok(None)
    } else {
        Ok(Some(JsonValue::Array(converted)))
    }
}

/// The choice of one function by name.
pub open spec fn function_choice(name: Seq<char>) -> Json {
    Json::Record(
        map![
            "type"@ => Json::Text("function"@),
            "function"@ => Json::Record(map!["name"@ => Json::Text(name)]),
        ],
    )
}

/// The tool choice of a chat request: by the type of a choice object, or by a bare word.
pub open spec fn chat_choice(choice: Json) -> Result<Json, Seq<char>> {
    let unsupported =
        "unsupported Anthropic tool_choice requires a native Anthropic Messages channel"@;
    match text_field(choice, "type"@) {
        Some(kind) => if kind == "auto"@ {
            Ok(Json::Text("auto"@))
        } else if kind == "any"@ {
            Ok(Json::Text("required"@))
        } else if kind == "tool"@ {
            match filled(text_field(choice, "name"@)) {
                Some(name) => Ok(function_choice(name)),
                None => Err("Anthropic tool_choice type 'tool' is missing a name"@),
            }
        } else {
            Err(unsupported)
        },
        None => match choice {
            Json::Text(word) => if word == "auto"@ {
                Ok(Json::Text("auto"@))
            } else if word == "any"@ {
                Ok(Json::Text("required"@))
            } else if word == "tool"@ {
                Err("Anthropic tool_choice 'tool' requires a name"@)
            } else {
                Err(unsupported)
            },
            _ => Err(unsupported),
        },
    }
}

/// Converts a tool choice.
pub fn convert_choice(choice: &JsonValue) -> (r: Result<JsonValue, String>)
    ensures
        outcome(r) == chat_choice(choice@),
{
    let unsupported =
        "unsupported Anthropic tool_choice requires a native Anthropic Messages channel";
    match choice.get_text("type") {
        Some(kind) => if same_text(kind, "auto") {
            Ok(JsonValue::text("auto"))
        } else if same_text(kind, "any") {
            Ok(JsonValue::text("required"))
        } else if same_text(kind, "tool") {
            match choice.get_filled_text("name") {
                Some(name) => {
                    let function = Object::new().with("name", JsonValue::text(name));
                    Ok(
                        JsonValue::Object(
                            Object::new().with("type", JsonValue::text("function")).with(
                                "function",
                                JsonValue::Object(function),
                            ),
                        ),
                    )
                },
                None => Err("Anthropic tool_choice type 'tool' is missing a name".to_owned()),
            }
        } else {
            Err(unsupported.to_owned())
        },
        None => match choice.as_str() {
            Some(word) => if same_text(word, "auto") {
                Ok(JsonValue::text("auto"))
            } else if same_text(word, "any") {
                Ok(JsonValue::text("required"))
            } else if same_text(word, "tool") {
                Err("Anthropic tool_choice 'tool' requires a name".to_owned())
            } else {
                Err(unsupported.to_owned())
            },
            None => Err(unsupported.to_owned()),
        },
    }
}

/// Whether a request asks for a stream.
pub open spec fn streams(body: Json) -> bool {
    flag_in(field(body, "stream"@)) == Some(true)
}

/// The stream options of a chat request: those of the request, and always the late usage.
pub open spec fn stream_options(body: Json) -> Result<Option<Json>, Seq<char>> {
    if !streams(body) {
        Ok(None)
    } else {
        match either(field(body, "stream_options"@), Json::Record(Map::empty())) {
            Json::Record(options) => Ok(
                Some(Json::Record(options.insert("include_usage"@, Json::Bool(true)))),
            ),
            _ => Err("stream_options must be an object"@),
        }
    }
}

fn convert_stream_options(body: &JsonValue) -> (r: Result<Option<JsonValue>, String>)
    ensures
        part_outcome(r) == stream_options(body@),
{
    let stream = match body.get_bool("stream") {
        Some(flag) => flag,
        None => false,
    };
    if !stream {
        return Ok(None);
    }
    let options = match body.get("stream_options") {
        Some(options) => match options {
            JsonValue::Object(object) => object.duplicate(),
            _ => return Err("stream_options must be an object".to_owned()),
        },
        None => Object::new(),
    };
    Ok(Some(JsonValue::Object(options.with("include_usage", JsonValue::Bool(true)))))
}

/// The system prompt of a request.
pub open spec fn prompt(body: Json) -> Result<Option<Seq<char>>, Seq<char>> {
    match field(body, "system"@) {
        None => Ok(None),
        Some(system) => match system_text(system) {
            Ok(text) => Ok(Some(text)),
            Err(message) => Err(message),
        },
    }
}

/// The tool choice of a request, converted, where it has one.
pub open spec fn tool_choice(body: Json) -> Result<Option<Json>, Seq<char>> {
    match field(body, "tool_choice"@) {
        None => Ok(None),
        Some(choice) => match chat_choice(choice) {
            Ok(converted) => Ok(Some(converted)),
            Err(message) => Err(message),
        },
    }
}

/// `false` where the request rules out parallel tool calls.
pub open spec fn parallel_calls(body: Json) -> Option<Json> {
    match field(body, "tool_choice"@) {
        Some(choice) => if flag_in(field(choice, "disable_parallel_tool_use"@)) == Some(true) {
            Some(Json::Bool(false))
        } else {
            None
        },
        None => None,
    }
}

/// The members of the chat request, once all that can be refused has been converted.
pub open spec fn request_members(
    body: Json,
    messages: Seq<Json>,
    options: Option<Json>,
    tools: Option<Json>,
    choice: Option<Json>,
) -> Map<Seq<char>, Json> {
    let base = map![
        "model"@ => Json::Text(text_or_empty(body, "model"@)),
        "messages"@ => Json::List(messages),
        "max_tokens"@ => Json::Number(
            JsonNumber::Integer(either(count_in(field(body, "max_tokens"@)), 4096) as int),
        ),
        "stream"@ => Json::Bool(streams(body)),
    ];
    let sampled = put_some(
        put_some(
            put_some(
                put_some(base, "temperature"@, field(body, "temperature"@)),
                "top_p"@,
                field(body, "top_p"@),
            ),
            "top_k"@,
            field(body, "top_k"@),
        ),
        "stop"@,
        field(body, "stop_sequences"@),
    );
    let equipped = put_some(
        put_some(
            put_some(
                put_some(sampled, "stream_options"@, options),
                "tools"@,
                tools,
            ),
            "tool_choice"@,
            choice,
        ),
        "parallel_tool_calls"@,
        parallel_calls(body),
    );
    put_some(
        equipped,
        "reasoning_effort"@,
        match reasoning_effort(body) {
            Some(effort) => Some(Json::Text(effort)),
            None => None,
        },
    )
}

/// The chat request for a Messages request, or why it cannot be made.
pub open spec fn chat_request(body: Json) -> Result<Json, Seq<char>> {
    match prompt(body) {
        Err(message) => Err(message),
        Ok(system) => match chat_messages(
            either(field(body, "messages"@), Json::List(Seq::empty())),
            system,
        ) {
            Err(message) => Err(message),
            Ok(messages) => match stream_options(body) {
                Err(message) => Err(message),
                Ok(options) => match chat_tools(body) {
                    Err(message) => Err(message),
                    Ok(tools) => match tool_choice(body) {
                        Err(message) => Err(message),
                        Ok(choice) => Ok(
                            Json::Record(request_members(body, messages, options, tools, choice)),
                        ),
                    },
                },
            },
        },
    }
}

/// Converts a Messages request to a Chat Completions request. Only what a chat request can
/// express is accepted; thinking is mapped and never refused.
pub fn anthropic_to_openai(body: &JsonValue) -> (r: Result<JsonValue, String>)
    ensures
        outcome(r) == chat_request(body@),
        r is Ok ==> (field(body@, "messages"@) matches Some(messages)
            ==> conversation_comes_back(messages)),
{
    let model = body.get_text_or_empty("model");
    let max_tokens = match body.get_u64("max_tokens") {
        Some(max_tokens) => max_tokens,
        None => 4096,
    };
    let stream = match body.get_bool("stream") {
        Some(flag) => flag,
        None => false,
    };
    let system = match body.get("system") {
        Some(system) => match anthropic_system_content_to_openai_text(system) {
            Ok(text) => Some(text),
            Err(message) => return Err(message),
        },
        None => None,
    };
    let messages = match body.get("messages") {
        Some(messages) => convert_anthropic_messages_to_openai(messages, system),
        None => {
            let none = JsonValue::Array(Vec::new());
            assert(none@ == Json::List(Seq::empty())) by {
                assert(none->Array_0@ =~= Seq::<JsonValue>::empty());
                assert(list_model(none->Array_0@) =~= Seq::<Json>::empty());
            }
            convert_anthropic_messages_to_openai(&none, system)
        },
    };
    let messages = match messages {
        Ok(messages) => messages,
        Err(message) => return Err(message),
    };
    let options = match convert_stream_options(body) {
        Ok(options) => options,
        Err(message) => return Err(message),
    };
    let tools = match convert_tools(body) {
        Ok(tools) => tools,
        Err(message) => return Err(message),
    };
    let choice = match body.get("tool_choice") {
        Some(choice) => match convert_choice(choice) {
            Ok(converted) => Some(converted),
            Err(message) => return Err(message),
        },
        None => None,
    };
    let serial = match body.get("tool_choice") {
        Some(choice) => match choice.get_bool("disable_parallel_tool_use") {
            Some(flag) => flag,
            None => false,
        },
        None => false,
    };
    let parallel = if serial {
        Some(JsonValue::Bool(false))
    } else {
        None
    };
    let effort = match anthropic_thinking_to_reasoning_effort(body) {
        Some(effort) => Some(JsonValue::String(effort)),
        None => None,
    };
    let base = Object::new().with("model", JsonValue::String(model)).with("messages", messages).with(
        "max_tokens",
        JsonValue::count(max_tokens),
    ).with("stream", JsonValue::Bool(stream));
    let sampled = base.with_some("temperature", duplicate_some(body.get("temperature"))).with_some(
        "top_p",
        duplicate_some(body.get("top_p")),
    ).with_some("top_k", duplicate_some(body.get("top_k"))).with_some(
        "stop",
        duplicate_some(body.get("stop_sequences")),
    );
    let equipped = sampled.with_some("stream_options", options).with_some("tools", tools).with_some(
        "tool_choice",
        choice,
    ).with_some("parallel_tool_calls", parallel);
    Ok(JsonValue::Object(equipped.with_some("reasoning_effort", effort)))
}

} // verus!
