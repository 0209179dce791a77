//! Chat Completions responses as Anthropic Messages responses.
use vstd::prelude::*;
use vstd::string::*;

use crate::chat::{
    calls_in, field_of, first_choice, get_first_choice, get_of, get_token_count, token_count,
};
use crate::folds::{lemma_take_next, lemma_try_all_stops, try_all};
use crate::fresh::{is_v4, prefixed_simple, simple_form};
use crate::json::{
    either, field, filled, lemma_list_append, lemma_list_push, list_model, list_outcome, outcome,
    parse_json, parsed, seen_string, seen_text, text_field, text_in, Json, JsonNumber, JsonValue,
    Object,
};
use crate::text::same_text;

verus! {

/// The reasoning in the member `reasoning_content`: a text, or the text of an object.
pub open spec fn reasoning_content(message: Json) -> Option<Seq<char>> {
    match field(message, "reasoning_content"@) {
        Some(Json::Text(text)) => filled(Some(text)),
        Some(value) => filled(text_field(value, "text"@)),
        None => None,
    }
}

/// The reasoning in the member `thinking`: a text, or the thinking or text of an object.
pub open spec fn thinking_content(message: Json) -> Option<Seq<char>> {
    match field(message, "thinking"@) {
        Some(Json::Text(text)) => filled(Some(text)),
        Some(value) => filled(
            text_in(
                match field(value, "thinking"@) {
                    Some(inner) => Some(inner),
                    None => field(value, "text"@),
                },
            ),
        ),
        None => None,
    }
}

/// The reasoning of a completion message, where it has any.
pub open spec fn reasoning(message: Json) -> Option<Seq<char>> {
    match reasoning_content(message) {
        Some(text) => Some(text),
        None => thinking_content(message),
    }
}

fn fill(text: Option<&str>) -> (r: Option<String>)
    ensures
        seen_string(r) == filled(seen_text(text)),
{
    match text {
        Some(t) => if t.is_empty() {
            None
        } else {
            Some(t.to_owned())
        },
        None => None,
    }
}

fn get_reasoning(message: &JsonValue) -> (r: Option<String>)
    ensures
        seen_string(r) == reasoning(message@),
{
    let stated = match message.get("reasoning_content") {
        Some(value) => match value {
            JsonValue::String(text) => fill(Some(text.as_str())),
            _ => fill(value.get_text("text")),
        },
        None => None,
    };
    if stated.is_some() {
        return stated;
    }
    match message.get("thinking") {
        Some(value) => match value {
            JsonValue::String(text) => fill(Some(text.as_str())),
            _ => {
                let inner = match value.get("thinking") {
                    Some(inner) => Some(inner),
                    None => value.get("text"),
                };
                match inner {
                    Some(inner) => fill(inner.as_str()),
                    None => None,
                }
            },
        },
        None => None,
    }
}

/// The text of a completion message: nothing, or a text.
pub open spec fn content_text(message: Json) -> Result<Seq<char>, Seq<char>> {
    match field(message, "content"@) {
        None => Ok(Seq::empty()),
        Some(Json::Null) => Ok(Seq::empty()),
        Some(Json::Text(text)) => Ok(text),
        Some(_) => Err("OpenAI response has unsupported non-text message content"@),
    }
}

/// Why a message stopped. A tool call or a refusal in the message counts where the upstream
/// gives no reason that is known.
pub open spec fn stop_reason(finish: Seq<char>, message: Json) -> Seq<char> {
    if finish == "stop"@ {
        "end_turn"@
    } else if finish == "length"@ {
        "max_tokens"@
    } else if finish == "tool_calls"@ {
        "tool_use"@
    } else if finish == "content_filter"@ {
        "refusal"@
    } else if field(message, "refusal"@) is Some {
        "refusal"@
    } else if calls_in(message).len() > 0 {
        "tool_use"@
    } else {
        "end_turn"@
    }
}

fn find_stop_reason(finish: &str, message: &JsonValue) -> (r: &'static str)
    ensures
        r@ == stop_reason(finish@, message@),
{
    let called = match message.get_array("tool_calls") {
        Some(calls) => {
            assert(list_model(calls@).len() == calls@.len());
            calls.len() > 0
        },
        None => false,
    };
    if same_text(finish, "stop") {
        "end_turn"
    } else if same_text(finish, "length") {
        "max_tokens"
    } else if same_text(finish, "tool_calls") {
        "tool_use"
    } else if same_text(finish, "content_filter") {
        "refusal"
    } else if message.get("refusal").is_some() {
        "refusal"
    } else if called {
        "tool_use"
    } else {
        "end_turn"
    }
}

/// What parsing the arguments of a tool call gave: nothing where it has no arguments text, else
/// the value or the parser's message.
pub type Reading = Option<Result<JsonValue, String>>;

/// The model of a reading.
pub open spec fn reading_model(reading: Reading) -> Option<Result<Json, Seq<char>>> {
    match reading {
        Some(result) => Some(outcome(result)),
        None => None,
    }
}

/// The models of readings.
pub open spec fn readings_model(readings: Seq<Reading>) -> Seq<Option<Result<Json, Seq<char>>>> {
    Seq::new(readings.len(), |i: int| reading_model(readings[i]))
}

/// A `tool_use` block.
pub open spec fn tool_use(id: Seq<char>, name: Seq<char>, input: Json) -> Json {
    Json::Record(
        map![
            "type"@ => Json::Text("tool_use"@),
            "id"@ => Json::Text(id),
            "name"@ => Json::Text(name),
            "input"@ => input,
        ],
    )
}

/// The `tool_use` block for a tool call whose arguments have been parsed. The call has an id and
/// names its function, and its arguments are the text of a JSON object; no input is made up.
pub open spec fn tool_use_block(
    call: Json,
    reading: Option<Result<Json, Seq<char>>>,
) -> Result<Json, Seq<char>> {
    match filled(text_field(call, "id"@)) {
        None => Err("OpenAI response tool call is missing its id"@),
        Some(id) => match filled(text_in(field_of(field(call, "function"@), "name"@))) {
            None => Err("OpenAI response tool call is missing its function name"@),
            Some(name) => match reading {
                None => Err("OpenAI response tool call is missing function arguments"@),
                Some(Err(message)) => Err(
                    "OpenAI response contained invalid tool arguments: "@ + message,
                ),
                Some(Ok(input)) => if input is Record {
                    Ok(tool_use(id, name, input))
                } else {
                    Err("OpenAI response tool arguments must decode to a JSON object"@)
                },
            },
        },
    }
}

/// Makes the `tool_use` block for a tool call whose arguments have been parsed.
pub fn make_tool_use_block(call: &JsonValue, reading: &Reading) -> (r: Result<JsonValue, String>)
    ensures
        outcome(r) == tool_use_block(call@, reading_model(*reading)),
{
    let id = match call.get_filled_text("id") {
        Some(id) => id,
        None => return Err("OpenAI response tool call is missing its id".to_owned()),
    };
    let name = match get_of(call.get("function"), "name") {
        Some(name) => fill(name.as_str()),
        None => None,
    };
    let name = match name {
        Some(name) => name,
        None => return Err("OpenAI response tool call is missing its function name".to_owned()),
    };
    match reading {
        None => Err("OpenAI response tool call is missing function arguments".to_owned()),
        Some(result) => match result {
            Err(message) => {
                let mut report = "OpenAI response contained invalid tool arguments: ".to_owned();
                report.append(message.as_str());
                Err(report)
            },
            Ok(input) => if input.is_object() {
                Ok(
                    JsonValue::Object(
                        Object::new().with("type", JsonValue::text("tool_use")).with(
                            "id",
                            JsonValue::text(id),
                        ).with("name", JsonValue::String(name)).with("input", input.duplicate()),
                    ),
                )
            } else {
                Err("OpenAI response tool arguments must decode to a JSON object".to_owned())
            },
        },
    }
}

/// Calls and the readings of their arguments, in pairs.
pub open spec fn paired(
    calls: Seq<Json>,
    readings: Seq<Option<Result<Json, Seq<char>>>>,
) -> Seq<(Json, Option<Result<Json, Seq<char>>>)> {
    Seq::new(calls.len(), |i: int| (calls[i], readings[i]))
}

/// `tool_use_block` on a pair.
pub open spec fn tool_use_of() -> spec_fn((Json, Option<Result<Json, Seq<char>>>)) -> Result<
    Json,
    Seq<char>,
> {
    |pair: (Json, Option<Result<Json, Seq<char>>>)| tool_use_block(pair.0, pair.1)
}

/// The `tool_use` blocks for the tool calls of a message.
pub open spec fn tool_use_blocks(
    calls: Seq<Json>,
    readings: Seq<Option<Result<Json, Seq<char>>>>,
) -> Result<Seq<Json>, Seq<char>> {
    try_all(paired(calls, readings), tool_use_of())
}

fn make_tool_use_blocks(calls: &Vec<JsonValue>, readings: &Vec<Reading>) -> (r: Result<
    Vec<JsonValue>,
    String,
>)
    requires
        calls@.len() == readings@.len(),
    ensures
        list_outcome(r) == tool_use_blocks(list_model(calls@), readings_model(readings@)),
{
    let ghost pairs = paired(list_model(calls@), readings_model(readings@));
    let mut blocks: Vec<JsonValue> = Vec::new();
    let mut i: usize = 0;
    assert(pairs.take(0) =~= Seq::<(Json, Option<Result<Json, Seq<char>>>)>::empty());
    assert(list_model(blocks@) =~= Seq::<Json>::empty());
    while i < calls.len()
        invariant
            i <= calls@.len(),
            calls@.len() == readings@.len(),
            pairs == paired(list_model(calls@), readings_model(readings@)),
            try_all(pairs.take(i as int), tool_use_of()) == Ok::<Seq<Json>, Seq<char>>(
                list_model(blocks@),
            ),
        decreases calls@.len() - i,
    {
        proof {
            lemma_take_next(pairs, i as int);
        }
        match make_tool_use_block(&calls[i], &readings[i]) {
            Ok(block) => {
                proof {
                    lemma_list_push(blocks@, block);
                }
                blocks.push(block);
            },
            Err(message) => {
                proof {
                    lemma_try_all_stops(pairs, tool_use_of(), i + 1);
                }
                return Err(message);
            },
        }
        i += 1;
    }
    assert(pairs.take(i as int) =~= pairs);
    Ok(blocks)
}

/// A `thinking` block.
pub open spec fn thinking_block(text: Seq<char>) -> Json {
    Json::Record(map!["type"@ => Json::Text("thinking"@), "thinking"@ => Json::Text(text)])
}

/// A `text` block.
pub open spec fn text_block(text: Seq<char>) -> Json {
    Json::Record(map!["type"@ => Json::Text("text"@), "text"@ => Json::Text(text)])
}

/// The blocks before the tool use: the reasoning, where there is any, and the text, where there
/// is any.
pub open spec fn spoken_blocks(thought: Option<Seq<char>>, text: Seq<char>) -> Seq<Json> {
    let opening = match thought {
        Some(t) => seq![thinking_block(t)],
        None => Seq::empty(),
    };
    if text.len() > 0 {
        opening.push(text_block(text))
    } else {
        opening
    }
}

fn make_text_block(text: &str) -> (r: JsonValue)
    ensures
        r@ == text_block(text@),
{
    JsonValue::Object(
        Object::new().with("type", JsonValue::text("text")).with("text", JsonValue::text(text)),
    )
}

fn make_spoken_blocks(thought: Option<String>, text: &str) -> (r: Vec<JsonValue>)
    ensures
        list_model(r@) == spoken_blocks(seen_string(thought), text@),
{
    let mut blocks: Vec<JsonValue> = Vec::new();
    assert(list_model(blocks@) =~= Seq::<Json>::empty());
    match thought {
        Some(thought) => {
            let block = JsonValue::Object(
                Object::new().with("type", JsonValue::text("thinking")).with(
                    "thinking",
                    JsonValue::String(thought),
                ),
            );
            proof {
                lemma_list_push(blocks@, block);
            }
            blocks.push(block);
            assert(list_model(blocks@) =~= seq![block@]);
        },
        None => {},
    }
    if !text.is_empty() {
        let block = make_text_block(text);
        proof {
            lemma_list_push(blocks@, block);
        }
        blocks.push(block);
    }
    blocks
}

/// All blocks of the message; a message is never without one.
pub open spec fn all_blocks(spoken: Seq<Json>, used: Seq<Json>) -> Seq<Json> {
    if spoken.len() + used.len() == 0 {
        seq![text_block(Seq::empty())]
    } else {
        spoken + used
    }
}

/// The Messages response for a completion message.
pub open spec fn response_record(
    resp: Json,
    model: Seq<char>,
    blocks: Seq<Json>,
    stop: Seq<char>,
    fresh: Seq<char>,
) -> Json {
    Json::Record(
        map![
            "id"@ => either(field(resp, "id"@), Json::Text(fresh)),
            "type"@ => Json::Text("message"@),
            "role"@ => Json::Text("assistant"@),
            "model"@ => Json::Text(model),
            "content"@ => Json::List(blocks),
            "stop_reason"@ => Json::Text(stop),
            "stop_sequence"@ => Json::Null,
            "usage"@ => Json::Record(
                map![
                    "input_tokens"@ => Json::Number(
                        JsonNumber::Integer(token_count(resp, "prompt_tokens"@) as int),
                    ),
                    "output_tokens"@ => Json::Number(
                        JsonNumber::Integer(token_count(resp, "completion_tokens"@) as int),
                    ),
                ],
            ),
        ],
    )
}

/// The tool calls of a chat response.
pub open spec fn response_calls(resp: Json) -> Seq<Json> {
    match field_of(first_choice(resp), "message"@) {
        Some(message) => calls_in(message),
        None => Seq::empty(),
    }
}

/// The Messages response for a chat response, given what parsing the arguments of each of its
/// tool calls gave and an id for a response that has none; or why it cannot be made.
pub open spec fn messages_response(
    resp: Json,
    model: Seq<char>,
    readings: Seq<Option<Result<Json, Seq<char>>>>,
    fresh: Seq<char>,
) -> Result<Json, Seq<char>> {
    match field_of(first_choice(resp), "message"@) {
        None => Err("OpenAI response does not contain a completion message"@),
        Some(message) => match content_text(message) {
            Err(error) => Err(error),
            Ok(text) => match tool_use_blocks(calls_in(message), readings) {
                Err(error) => Err(error),
                Ok(used) => {
                    let finish = either(
                        text_in(field_of(first_choice(resp), "finish_reason"@)),
                        Seq::empty(),
                    );
                    Ok(
                        response_record(
                            resp,
                            model,
                            all_blocks(spoken_blocks(reasoning(message), text), used),
                            stop_reason(finish, message),
                            fresh,
                        ),
                    )
                },
            },
        },
    }
}

/// Makes the Messages response for a chat response, given what parsing the arguments of each of
/// its tool calls gave and an id for a response that has none.
pub fn make_messages_response(
    resp: &JsonValue,
    model: &str,
    readings: &Vec<Reading>,
    fresh: &str,
) -> (r: Result<JsonValue, String>)
    requires
        readings@.len() == response_calls(resp@).len(),
    ensures
        outcome(r) == messages_response(resp@, model@, readings_model(readings@), fresh@),
{
    let choice = get_first_choice(resp);
    let message = match get_of(choice, "message") {
        Some(message) => message,
        None => return Err("OpenAI response does not contain a completion message".to_owned()),
    };
    let text = match message.get("content") {
        None => String::new(),
        Some(content) => match content {
            JsonValue::Null => String::new(),
            JsonValue::String(text) => text.clone(),
            _ => return Err("OpenAI response has unsupported non-text message content".to_owned()),
        },
    };
    let used = match message.get_array("tool_calls") {
        Some(calls) => {
            assert(list_model(calls@).len() == calls@.len());
            make_tool_use_blocks(calls, readings)
        },
        None => {
            let none: Vec<JsonValue> = Vec::new();
            assert(list_model(none@) =~= Seq::<Json>::empty());
            make_tool_use_blocks(&none, readings)
        },
    };
    let used = match used {
        Ok(used) => used,
        Err(error) => return Err(error),
    };
    let finish = match get_of(choice, "finish_reason") {
        Some(finish) => match finish.as_str() {
            Some(finish) => finish,
            None => "",
        },
        None => "",
    };
    proof {
        reveal_strlit("");
        assert(""@ =~= Seq::<char>::empty());
    }
    let stop = find_stop_reason(finish, message);
    let mut used = used;
    let mut blocks = make_spoken_blocks(get_reasoning(message), text.as_str());
    assert(list_model(blocks@).len() == blocks@.len());
    assert(list_model(used@).len() == used@.len());
    let ghost expected = all_blocks(list_model(blocks@), list_model(used@));
    proof {
        lemma_list_append(blocks@, used@);
    }
    blocks.append(&mut used);
    if blocks.len() == 0 {
        let block = make_text_block("");
        proof {
            lemma_list_push(blocks@, block);
        }
        blocks.push(block);
        assert(list_model(blocks@) =~= seq![block@]);
    }
    assert(list_model(blocks@) == expected);
    let id = match resp.get("id") {
        Some(id) => id.duplicate(),
        None => JsonValue::text(fresh),
    };
    let usage = Object::new().with(
        "input_tokens",
        JsonValue::count(get_token_count(resp, "prompt_tokens")),
    ).with("output_tokens", JsonValue::count(get_token_count(resp, "completion_tokens")));
    Ok(
        JsonValue::Object(
            Object::new().with("id", id).with("type", JsonValue::text("message")).with(
                "role",
                JsonValue::text("assistant"),
            ).with("model", JsonValue::text(model)).with("content", JsonValue::Array(blocks)).with(
                "stop_reason",
                JsonValue::text(stop),
            ).with("stop_sequence", JsonValue::Null).with("usage", JsonValue::Object(usage)),
        ),
    )
}

/// The arguments text of a tool call.
pub open spec fn arguments_text(call: Json) -> Option<Seq<char>> {
    text_in(field_of(field(call, "function"@), "arguments"@))
}

/// What parsing the arguments of a tool call gives.
pub open spec fn call_reading(call: Json) -> Option<Result<Json, Seq<char>>> {
    match arguments_text(call) {
        Some(text) => Some(parsed(text)),
        None => None,
    }
}

/// What parsing the arguments of each tool call gives.
pub open spec fn call_readings(calls: Seq<Json>) -> Seq<Option<Result<Json, Seq<char>>>> {
    Seq::new(calls.len(), |i: int| call_reading(calls[i]))
}

fn read_arguments(calls: &Vec<JsonValue>) -> (r: Vec<Reading>)
    ensures
        readings_model(r@) == call_readings(list_model(calls@)),
{
    let mut readings: Vec<Reading> = Vec::new();
    let mut i: usize = 0;
    while i < calls.len()
        invariant
            i <= calls@.len(),
            readings@.len() == i,
            forall|j: int|
                0 <= j < i ==> reading_model(#[trigger] readings@[j]) == call_reading(calls@[j]@),
        decreases calls@.len() - i,
    {
        let text = match get_of(calls[i].get("function"), "arguments") {
            Some(arguments) => arguments.as_str(),
            None => None,
        };
        let reading: Reading = match text {
            Some(text) => Some(parse_json(text)),
            None => None,
        };
        readings.push(reading);
        i += 1;
    }
    assert(readings_model(readings@) =~= call_readings(list_model(calls@)));
    readings
}

/// Converts a chat response to a Messages response. It fails rather than make up the input of a
/// tool. A response without an id gets a fresh one.
pub fn openai_to_anthropic(openai_resp: &JsonValue, model: &str) -> (r: Result<JsonValue, String>)
    ensures
        exists|id: u128|
            #[trigger] is_v4(id) && outcome(r) == messages_response(
                openai_resp@,
                model@,
                call_readings(response_calls(openai_resp@)),
                "msg_"@ + simple_form(id),
            ),
{
    let calls = match get_of(get_first_choice(openai_resp), "message") {
        Some(message) => message.get_array("tool_calls"),
        None => None,
    };
    let readings = match calls {
        Some(calls) => read_arguments(calls),
        None => {
            let none: Vec<JsonValue> = Vec::new();
            assert(list_model(none@) =~= Seq::<Json>::empty());
            read_arguments(&none)
        },
    };
    assert(readings_model(readings@).len() == readings@.len());
    let fresh = prefixed_simple("msg_");
    make_messages_response(openai_resp, model, &readings, fresh.as_str())
}

} // verus!
