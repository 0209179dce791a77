//! Chat Completions responses as Responses API responses.
use vstd::prelude::*;
use vstd::string::*;

use crate::chat::{
    calls_in, field_of, first_choice, get_first_choice, get_of, get_token_count, token_count,
};
use crate::fresh::{
    current_time, hyphenated_form, is_v4, prefixed_hyphenated, prefixed_simple, simple_form,
};
use crate::json::{
    either, field, lemma_list_push, list_model, text_in, text_or_empty, Json, JsonNumber, JsonValue,
    Object,
};

verus! {

/// The ids that a response needs: one for each function call, one for its message, and one for
/// the response itself.
pub struct ResponseIds {
    pub calls: Vec<String>,
    pub message: String,
    pub response: String,
}

/// The mathematical model of the ids.
pub struct IdTexts {
    pub calls: Seq<Seq<char>>,
    pub message: Seq<char>,
    pub response: Seq<char>,
}

impl View for ResponseIds {
    type V = IdTexts;

    open spec fn view(&self) -> IdTexts {
        IdTexts {
            calls: Seq::new(self.calls@.len(), |i: int| self.calls@[i]@),
            message: self.message@,
            response: self.response@,
        }
    }
}

/// The completion message of a chat response.
pub open spec fn completion(resp: Json) -> Json {
    either(field_of(first_choice(resp), "message"@), Json::Null)
}

/// A function call item.
pub open spec fn call_item(call: Json, id: Seq<char>) -> Json {
    let function = either(field(call, "function"@), Json::Null);
    Json::Record(
        map![
            "id"@ => Json::Text(id),
            "type"@ => Json::Text("function_call"@),
            "call_id"@ => Json::Text(text_or_empty(call, "id"@)),
            "name"@ => Json::Text(text_or_empty(function, "name"@)),
            "arguments"@ => Json::Text(text_or_empty(function, "arguments"@)),
            "status"@ => Json::Text("completed"@),
        ],
    )
}

/// A message item with one text.
pub open spec fn message_item(id: Seq<char>, text: Seq<char>) -> Json {
    let part = Json::Record(
        map!["type"@ => Json::Text("output_text"@), "text"@ => Json::Text(text)],
    );
    Json::Record(
        map![
            "id"@ => Json::Text(id),
            "type"@ => Json::Text("message"@),
            "role"@ => Json::Text("assistant"@),
            "content"@ => Json::List(seq![part]),
            "status"@ => Json::Text("completed"@),
        ],
    )
}

/// The function call items of a response.
pub open spec fn call_items(calls: Seq<Json>, ids: Seq<Seq<char>>) -> Seq<Json> {
    Seq::new(calls.len(), |i: int| call_item(calls[i], ids[i]))
}

/// The output of a response: its function calls, then its text. There is always an item.
pub open spec fn output_items(message: Json, ids: IdTexts) -> Seq<Json> {
    let items = call_items(calls_in(message), ids.calls);
    let text = text_or_empty(message, "content"@);
    if text.len() > 0 || items.len() == 0 {
        items.push(message_item(ids.message, text))
    } else {
        items
    }
}

/// The Responses API response for a chat response, given the ids and the time.
pub open spec fn responses_response(
    resp: Json,
    model: Seq<char>,
    ids: IdTexts,
    created_at: int,
) -> Json {
    let prompt = token_count(resp, "prompt_tokens"@) as int;
    let completion_count = token_count(resp, "completion_tokens"@) as int;
    Json::Record(
        map![
            "id"@ => either(field(resp, "id"@), Json::Text(ids.response)),
            "object"@ => Json::Text("response"@),
            "created_at"@ => Json::Number(JsonNumber::Integer(created_at)),
            "model"@ => Json::Text(model),
            "output"@ => Json::List(output_items(completion(resp), ids)),
            "usage"@ => Json::Record(
                map![
                    "input_tokens"@ => Json::Number(JsonNumber::Integer(prompt)),
                    "output_tokens"@ => Json::Number(JsonNumber::Integer(completion_count)),
                    "total_tokens"@ => Json::Number(
                        JsonNumber::Integer(prompt + completion_count),
                    ),
                ],
            ),
            "status"@ => Json::Text("completed"@),
            "finish_reason"@ => Json::Text(
                either(text_in(field_of(first_choice(resp), "finish_reason"@)), "stop"@),
            ),
        ],
    )
}

/// Whether the token counts of a response have a sum that fits.
pub open spec fn usage_fits(resp: Json) -> bool {
    token_count(resp, "prompt_tokens"@) + token_count(resp, "completion_tokens"@) <= u64::MAX
}

fn text_at(value: Option<&JsonValue>, key: &str) -> (r: String)
    ensures
        r@ == text_or_empty(
            match value {
                Some(v) => v@,
                None => Json::Null,
            },
            key@,
        ),
{
    match value {
        Some(v) => v.get_text_or_empty(key),
        None => String::new(),
    }
}

/// Makes a function call item.
pub fn make_call_item(call: &JsonValue, id: &str) -> (r: JsonValue)
    ensures
        r@ == call_item(call@, id@),
{
    let function = call.get("function");
    JsonValue::Object(
        Object::new().with("id", JsonValue::text(id)).with(
            "type",
            JsonValue::text("function_call"),
        ).with("call_id", JsonValue::String(call.get_text_or_empty("id"))).with(
            "name",
            JsonValue::String(text_at(function, "name")),
        ).with("arguments", JsonValue::String(text_at(function, "arguments"))).with(
            "status",
            JsonValue::text("completed"),
        ),
    )
}

fn make_message_item(id: &str, text: &str) -> (r: JsonValue)
    ensures
        r@ == message_item(id@, text@),
{
    let part = JsonValue::Object(
        Object::new().with("type", JsonValue::text("output_text")).with(
            "text",
            JsonValue::text(text),
        ),
    );
    let parts = vec![part];
    assert(list_model(parts@) =~= seq![part@]);
    JsonValue::Object(
        Object::new().with("id", JsonValue::text(id)).with("type", JsonValue::text("message")).with(
            "role",
            JsonValue::text("assistant"),
        ).with("content", JsonValue::Array(parts)).with("status", JsonValue::text("completed")),
    )
}

fn make_output_items(message: Option<&JsonValue>, ids: &ResponseIds) -> (r: Vec<JsonValue>)
    requires
        ids.calls@.len() == calls_in(
            match message {
                Some(m) => m@,
                None => Json::Null,
            },
        ).len(),
    ensures
        list_model(r@) == output_items(
            match message {
                Some(m) => m@,
                None => Json::Null,
            },
            ids@,
        ),
{
    let ghost shape = match message {
        Some(m) => m@,
        None => Json::Null,
    };
    let mut items: Vec<JsonValue> = Vec::new();
    assert(list_model(items@) =~= Seq::<Json>::empty());
    let calls = match message {
        Some(m) => m.get_array("tool_calls"),
        None => None,
    };
    match calls {
        Some(calls) => {
            let ghost models = list_model(calls@);
            let mut i: usize = 0;
            while i < calls.len()
                invariant
                    i <= calls@.len(),
                    models == list_model(calls@),
                    models.len() == ids.calls@.len(),
                    list_model(items@) == call_items(models, ids@.calls).take(i as int),
                decreases calls@.len() - i,
            {
                let item = make_call_item(&calls[i], ids.calls[i].as_str());
                proof {
                    lemma_list_push(items@, item);
                    assert(call_items(models, ids@.calls).take(i + 1) =~= call_items(
                        models,
                        ids@.calls,
                    ).take(i as int).push(item@));
                }
                items.push(item);
                i += 1;
            }
            assert(call_items(models, ids@.calls).take(i as int) =~= call_items(models, ids@.calls));
        },
        None => {
            assert(call_items(Seq::<Json>::empty(), ids@.calls) =~= Seq::<Json>::empty());
        },
    }
    assert(list_model(items@) == call_items(calls_in(shape), ids@.calls));
    assert(list_model(items@).len() == items@.len());
    let text = text_at(message, "content");
    if !text.as_str().is_empty() || items.len() == 0 {
        let item = make_message_item(ids.message.as_str(), text.as_str());
        proof {
            lemma_list_push(items@, item);
        }
        items.push(item);
    }
    items
}

/// Makes the Responses API response for a chat response, given the ids and the time.
pub fn make_responses_response(
    resp: &JsonValue,
    model: &str,
    ids: &ResponseIds,
    created_at: i64,
) -> (r: JsonValue)
    requires
        ids.calls@.len() == calls_in(completion(resp@)).len(),
        usage_fits(resp@),
    ensures
        r@ == responses_response(resp@, model@, ids@, created_at as int),
{
    let choice = get_first_choice(resp);
    let output = make_output_items(get_of(choice, "message"), ids);
    let finish = match get_of(choice, "finish_reason") {
        Some(finish) => match finish.as_str() {
            Some(finish) => finish,
            None => "stop",
        },
        None => "stop",
    };
    let prompt = get_token_count(resp, "prompt_tokens");
    let completed = get_token_count(resp, "completion_tokens");
    let usage = Object::new().with("input_tokens", JsonValue::count(prompt)).with(
        "output_tokens",
        JsonValue::count(completed),
    ).with("total_tokens", JsonValue::count(prompt + completed));
    let id = match resp.get("id") {
        Some(id) => id.duplicate(),
        None => JsonValue::text(ids.response.as_str()),
    };
    JsonValue::Object(
        Object::new().with("id", id).with("object", JsonValue::text("response")).with(
            "created_at",
            JsonValue::signed(created_at),
        ).with("model", JsonValue::text(model)).with("output", JsonValue::Array(output)).with(
            "usage",
            JsonValue::Object(usage),
        ).with("status", JsonValue::text("completed")).with("finish_reason", JsonValue::text(finish)),
    )
}

/// Whether a text is a prefix and a fresh identifier in its simple form.
pub open spec fn simple_id(prefix: Seq<char>, text: Seq<char>) -> bool {
    exists|id: u128| #[trigger] is_v4(id) && text == prefix + simple_form(id)
}

/// Whether a text is a prefix and a fresh identifier in its hyphenated form.
pub open spec fn hyphenated_id(prefix: Seq<char>, text: Seq<char>) -> bool {
    exists|id: u128| #[trigger] is_v4(id) && text == prefix + hyphenated_form(id)
}

/// Whether ids are fresh ones for a response with this many function calls.
pub open spec fn fresh_ids(ids: IdTexts, calls: nat) -> bool {
    &&& ids.calls.len() == calls
    &&& forall|i: int| 0 <= i < calls ==> simple_id("fc_"@, #[trigger] ids.calls[i])
    &&& simple_id("msg_"@, ids.message)
    &&& hyphenated_id("resp_"@, ids.response)
}

fn make_fresh_ids(calls: usize) -> (r: ResponseIds)
    ensures
        fresh_ids(r@, calls as nat),
{
    let mut texts: Vec<String> = Vec::new();
    let mut i: usize = 0;
    while i < calls
        invariant
            i <= calls,
            texts@.len() == i,
            forall|j: int| 0 <= j < i ==> simple_id("fc_"@, #[trigger] texts@[j]@),
        decreases calls - i,
    {
        let text = prefixed_simple("fc_");
        texts.push(text);
        i += 1;
    }
    ResponseIds {
        calls: texts,
        message: prefixed_simple("msg_"),
        response: prefixed_hyphenated("resp_"),
    }
}

/// Whether the response can have come out: with some fresh ids and some time after 1970.
pub open spec fn may_be(result: Json, resp: Json, model: Seq<char>, ids: IdTexts, now: i64) -> bool {
    &&& fresh_ids(ids, calls_in(completion(resp)).len())
    &&& now >= 0
    &&& result == responses_response(resp, model, ids, now as int)
}

/// Converts a chat response to a Responses API response, with fresh ids and the current time.
pub fn openai_to_responses(openai_resp: &JsonValue, model: &str) -> (r: JsonValue)
    requires
        usage_fits(openai_resp@),
    ensures
        exists|ids: IdTexts, now: i64| may_be(r@, openai_resp@, model@, ids, now),
{
    let calls = match get_of(get_first_choice(openai_resp), "message") {
        Some(message) => match message.get_array("tool_calls") {
            Some(calls) => {
                assert(list_model(calls@).len() == calls@.len());
                calls.len()
            },
            None => 0,
        },
        None => 0,
    };
    let ids = make_fresh_ids(calls);
    let now = current_time();
    let r = make_responses_response(openai_resp, model, &ids, now);
    assert(may_be(r@, openai_resp@, model@, ids@, now));
    r
}

} // verus!
