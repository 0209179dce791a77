//! The input items of a Responses request as chat messages.
use vstd::prelude::*;
use vstd::string::*;

use crate::chat::{
    make_message, make_tool_call, make_tool_message, message, tool_call, tool_message,
};
use crate::folds::{joined, lemma_take_next, pick};
use crate::json::{
    either, field, lemma_list_append, lemma_list_push, list_field, list_model, text_field,
    text_or_empty, Json, JsonValue, Object,
};
use crate::text::{decimal, same_text, write_decimal};

verus! {

/// Whether an item is a function call.
pub open spec fn is_call(item: Json) -> bool {
    text_or_empty(item, "type"@) == "function_call"@
}

/// Whether an item is the output of a function call.
pub open spec fn is_output(item: Json) -> bool {
    !is_call(item) && text_or_empty(item, "type"@) == "function_call_output"@
}

/// The call id of an item, which may be empty.
pub open spec fn call_id(item: Json) -> Seq<char> {
    text_or_empty(item, "call_id"@)
}

/// How many of the items are function calls without a call id.
pub open spec fn blank_calls(items: Seq<Json>) -> nat
    decreases items.len(),
{
    if items.len() == 0 {
        0
    } else {
        blank_calls(items.drop_last()) + if is_call(items.last()) && call_id(items.last()).len()
            == 0 {
            1nat
        } else {
            0nat
        }
    }
}

/// The id that stands in for an empty one.
pub open spec fn stand_in(n: nat) -> Seq<char> {
    "call_"@ + decimal(n)
}

/// An id after `blank` function calls without one: an empty id is that of the latest of them.
pub open spec fn resolved(id: Seq<char>, blank: nat) -> Seq<char> {
    if id.len() == 0 && blank > 0 {
        stand_in((blank - 1) as nat)
    } else {
        id
    }
}

/// The id under which the output at position `i` counts as an answer: an empty id is resolved by
/// the calls before it.
pub open spec fn answer_id(items: Seq<Json>, i: int) -> Seq<char> {
    resolved(call_id(items[i]), blank_calls(items.take(i)))
}

/// Whether one of the items is an output for this id.
pub open spec fn answered(items: Seq<Json>, id: Seq<char>) -> bool {
    exists|i: int|
        0 <= i < items.len() && is_output(#[trigger] items[i]) && answer_id(items, i) == id
}

/// The id that an item has in the chat messages: an empty id is resolved by all calls.
pub open spec fn final_id(items: Seq<Json>, item: Json) -> Seq<char> {
    resolved(call_id(item), blank_calls(items))
}

/// An assistant message that makes one tool call.
pub open spec fn calling_message(call: Json) -> Json {
    Json::Record(
        map![
            "role"@ => Json::Text("assistant"@),
            "content"@ => Json::Null,
            "tool_calls"@ => Json::List(seq![call]),
        ],
    )
}

/// The text of a content block.
pub open spec fn block_text() -> spec_fn(Json) -> Option<Seq<char>> {
    |block: Json| text_field(block, "text"@)
}

/// The text of a message item: the texts of its blocks, joined, or its text.
pub open spec fn item_text(item: Json) -> Seq<char> {
    match list_field(item, "content"@) {
        Some(blocks) => joined(pick(blocks, block_text())),
        None => text_or_empty(item, "content"@),
    }
}

/// The role of a message item. `developer` is another word for `system`.
pub open spec fn item_role(item: Json) -> Seq<char> {
    let role = either(text_field(item, "role"@), "user"@);
    if role == "developer"@ {
        "system"@
    } else {
        role
    }
}

/// The chat messages for one of the items. A function call that no output answers gets an empty
/// answer.
pub open spec fn item_messages(items: Seq<Json>, item: Json) -> Seq<Json> {
    if is_call(item) {
        let id = final_id(items, item);
        let call = calling_message(
            tool_call(id, text_or_empty(item, "name"@), text_or_empty(item, "arguments"@)),
        );
        if answered(items, id) {
            seq![call]
        } else {
            seq![call, tool_message(id, Seq::empty())]
        }
    } else if is_output(item) {
        seq![tool_message(final_id(items, item), text_or_empty(item, "output"@))]
    } else if field(item, "role"@) is Some {
        seq![message(item_role(item), Json::Text(item_text(item)))]
    } else if field(item, "text"@) is Some {
        seq![message("user"@, Json::Text(text_or_empty(item, "text"@)))]
    } else {
        match item {
            Json::Text(text) => seq![message("user"@, Json::Text(text))],
            _ => Seq::empty(),
        }
    }
}

/// The chat messages for each of the items.
pub open spec fn item_runs(items: Seq<Json>) -> Seq<Seq<Json>> {
    Seq::new(items.len(), |i: int| item_messages(items, items[i]))
}

/// The chat messages for an input: a list of items, or one text.
pub open spec fn input_messages(input: Json) -> Seq<Json> {
    match input {
        Json::List(items) => joined(item_runs(items)),
        Json::Text(text) => seq![message("user"@, Json::Text(text))],
        _ => Seq::empty(),
    }
}

/// Whether the function calls without an id can be numbered.
pub open spec fn numberable(input: Json) -> bool {
    match input {
        Json::List(items) => blank_calls(items) <= u32::MAX,
        _ => true,
    }
}

/// Whether a text is among the texts.
pub open spec fn among(texts: Seq<String>, text: Seq<char>) -> bool {
    exists|j: int| 0 <= j < texts.len() && #[trigger] texts[j]@ == text
}

proof fn lemma_blank_calls_grow(items: Seq<Json>, i: int)
    requires
        0 <= i <= items.len(),
    ensures
        blank_calls(items.take(i)) <= blank_calls(items),
    decreases items.len() - i,
{
    if i < items.len() {
        lemma_take_next(items, i);
        lemma_blank_calls_grow(items, i + 1);
    } else {
        assert(items.take(i) =~= items);
    }
}

fn read_kind(item: &JsonValue) -> (r: (bool, bool))
    ensures
        r.0 == is_call(item@),
        r.1 == is_output(item@),
{
    let kind = item.get_text_or_empty("type");
    let called = same_text(kind.as_str(), "function_call");
    (called, !called && same_text(kind.as_str(), "function_call_output"))
}

fn resolve(id: String, blank: u32) -> (r: String)
    ensures
        r@ == resolved(id@, blank as nat),
{
    if id.as_str().is_empty() && blank > 0 {
        let mut text = "call_".to_owned();
        text.append(write_decimal((blank - 1) as u64).as_str());
        text
    } else {
        id
    }
}

// The number of calls without an id, and the ids that outputs answer.
fn survey(items: &Vec<JsonValue>) -> (r: (u32, Vec<String>))
    requires
        blank_calls(list_model(items@)) <= u32::MAX,
    ensures
        r.0 == blank_calls(list_model(items@)),
        forall|id: Seq<char>|
            #[trigger] answered(list_model(items@), id) == among(r.1@, id),
{
    let ghost models = list_model(items@);
    let mut blank: u32 = 0;
    let mut ids: Vec<String> = Vec::new();
    let ghost mut places: Seq<int> = Seq::empty();
    let mut i: usize = 0;
    assert(models.take(0) =~= Seq::<Json>::empty());
    while i < items.len()
        invariant
            i <= items@.len(),
            models == list_model(items@),
            blank_calls(models) <= u32::MAX,
            blank == blank_calls(models.take(i as int)),
            places.len() == ids@.len(),
            forall|j: int|
                0 <= j < ids@.len() ==> 0 <= #[trigger] places[j] < i && is_output(
                    models[places[j]],
                ) && answer_id(models, places[j]) == ids@[j]@,
            forall|k: int|
                0 <= k < i && is_output(#[trigger] models[k]) ==> exists|j: int|
                    0 <= j < places.len() && #[trigger] places[j] == k,
        decreases items@.len() - i,
    {
        let item = &items[i];
        proof {
            lemma_take_next(models, i as int);
            lemma_blank_calls_grow(models, i + 1);
        }
        let (called, output) = read_kind(item);
        if called {
            if item.get_text_or_empty("call_id").as_str().is_empty() {
                blank = blank + 1;
            }
        } else if output {
            let id = resolve(item.get_text_or_empty("call_id"), blank);
            let ghost before = places;
            proof {
                places = places.push(i as int);
                assert forall|k: int| 0 <= k < i + 1 && is_output(#[trigger] models[k]) implies exists|
                    j: int,
                | 0 <= j < places.len() && #[trigger] places[j] == k by {
                    if k < i {
                        let j = choose|j: int| 0 <= j < before.len() && #[trigger] before[j] == k;
                        assert(places[j] == k);
                    } else {
                        assert(places[before.len() as int] == k);
                    }
                }
            }
            ids.push(id);
        }
        i += 1;
    }
    proof {
        assert(models.take(i as int) =~= models);
        assert forall|id: Seq<char>| #[trigger] answered(models, id) == among(ids@, id) by {
            if answered(models, id) {
                let k = choose|k: int|
                    0 <= k < models.len() && is_output(#[trigger] models[k]) && answer_id(models, k)
                        == id;
                let j = choose|j: int| 0 <= j < places.len() && #[trigger] places[j] == k;
                assert(ids@[j]@ == id);
            }
            if among(ids@, id) {
                let j = choose|j: int| 0 <= j < ids@.len() && #[trigger] ids@[j]@ == id;
                assert(is_output(models[places[j]]));
            }
        }
    }
    (blank, ids)
}

fn contains_text(texts: &Vec<String>, text: &str) -> (r: bool)
    ensures
        r == among(texts@, text@),
{
    let mut i: usize = 0;
    while i < texts.len()
        invariant
            i <= texts@.len(),
            forall|j: int| 0 <= j < i ==> #[trigger] texts@[j]@ != text@,
        decreases texts@.len() - i,
    {
        if same_text(texts[i].as_str(), text) {
            assert(texts@[i as int]@ == text@);
            return true;
        }
        i += 1;
    }
    false
}

fn join_block_texts(blocks: &Vec<JsonValue>) -> (r: String)
    ensures
        r@ == joined(pick(list_model(blocks@), block_text())),
{
    let ghost models = list_model(blocks@);
    let mut text = String::new();
    let mut i: usize = 0;
    assert(models.take(0) =~= Seq::<Json>::empty());
    while i < blocks.len()
        invariant
            i <= blocks@.len(),
            models == list_model(blocks@),
            text@ == joined(pick(models.take(i as int), block_text())),
        decreases blocks@.len() - i,
    {
        proof {
            lemma_take_next(models, i as int);
        }
        match blocks[i].get_text("text") {
            Some(next) => {
                text.append(next);
                proof {
                    let before = pick(models.take(i as int), block_text());
                    assert(before.push(next@).drop_last() =~= before);
                }
            },
            None => {},
        }
        i += 1;
    }
    assert(models.take(i as int) =~= models);
    text
}

fn read_item_text(item: &JsonValue) -> (r: String)
    ensures
        r@ == item_text(item@),
{
    match item.get_array("content") {
        Some(blocks) => join_block_texts(blocks),
        None => item.get_text_or_empty("content"),
    }
}

fn read_item_role(item: &JsonValue) -> (r: String)
    ensures
        r@ == item_role(item@),
{
    let role = match item.get_text("role") {
        Some(role) => role,
        None => "user",
    };
    if same_text(role, "developer") {
        "system".to_owned()
    } else {
        role.to_owned()
    }
}

fn make_calling_message(call: JsonValue) -> (r: JsonValue)
    ensures
        r@ == calling_message(call@),
{
    let calls = vec![call];
    assert(list_model(calls@) =~= seq![call@]);
    JsonValue::Object(
        Object::new().with("role", JsonValue::text("assistant")).with(
            "content",
            JsonValue::Null,
        ).with("tool_calls", JsonValue::Array(calls)),
    )
}

fn convert_item(
    Ghost(items): Ghost<Seq<Json>>,
    item: &JsonValue,
    blank: u32,
    answers: &Vec<String>,
) -> (r: Vec<JsonValue>)
    requires
        blank == blank_calls(items),
        forall|id: Seq<char>|
            #[trigger] answered(items, id) == among(answers@, id),
    ensures
        list_model(r@) == item_messages(items, item@),
{
    let mut out: Vec<JsonValue> = Vec::new();
    assert(list_model(out@) =~= Seq::<Json>::empty());
    let (called, output) = read_kind(item);
    if called {
        let id = resolve(item.get_text_or_empty("call_id"), blank);
        let name = item.get_text_or_empty("name");
        let arguments = item.get_text_or_empty("arguments");
        let call = make_calling_message(
            make_tool_call(id.as_str(), name.as_str(), arguments.as_str()),
        );
        proof {
            lemma_list_push(out@, call);
        }
        out.push(call);
        assert(list_model(out@) =~= seq![call@]);
        if !contains_text(answers, id.as_str()) {
            let answer = make_tool_message(id.as_str(), "");
            proof {
                reveal_strlit("");
                assert(""@ =~= Seq::<char>::empty());
                lemma_list_push(out@, answer);
            }
            out.push(answer);
            assert(list_model(out@) =~= seq![call@, answer@]);
        }
    } else if output {
        let id = resolve(item.get_text_or_empty("call_id"), blank);
        let text = item.get_text_or_empty("output");
        let answer = make_tool_message(id.as_str(), text.as_str());
        out.push(answer);
        assert(list_model(out@) =~= seq![answer@]);
    } else if item.get("role").is_some() {
        let role = read_item_role(item);
        let msg = make_message(role.as_str(), JsonValue::String(read_item_text(item)));
        out.push(msg);
        assert(list_model(out@) =~= seq![msg@]);
    } else if item.get("text").is_some() {
        let msg = make_message("user", JsonValue::String(item.get_text_or_empty("text")));
        out.push(msg);
        assert(list_model(out@) =~= seq![msg@]);
    } else {
        match item.as_str() {
            Some(text) => {
                let msg = make_message("user", JsonValue::text(text));
                out.push(msg);
                assert(list_model(out@) =~= seq![msg@]);
            },
            None => {},
        }
    }
    out
}

/// Tells whether the function calls without an id can be numbered.
pub fn is_numberable(input: &JsonValue) -> (r: bool)
    ensures
        r == numberable(input@),
{
    match input {
        JsonValue::Array(items) => {
            let ghost models = list_model(items@);
            let mut blank: usize = 0;
            let mut i: usize = 0;
            assert(models.take(0) =~= Seq::<Json>::empty());
            while i < items.len()
                invariant
                    i <= items@.len(),
                    models == list_model(items@),
                    blank <= i,
                    blank == blank_calls(models.take(i as int)),
                decreases items@.len() - i,
            {
                proof {
                    lemma_take_next(models, i as int);
                }
                let (called, _) = read_kind(&items[i]);
                if called && items[i].get_text_or_empty("call_id").as_str().is_empty() {
                    blank = blank + 1;
                }
                i += 1;
            }
            assert(models.take(i as int) =~= models);
            blank as u64 <= u32::MAX as u64
        },
        _ => true,
    }
}

/// Converts the input of a Responses request to chat messages.
pub fn convert_responses_input_to_messages(input: &JsonValue) -> (r: JsonValue)
    requires
        numberable(input@),
    ensures
        r@ == Json::List(input_messages(input@)),
{
    let mut out: Vec<JsonValue> = Vec::new();
    assert(list_model(out@) =~= Seq::<Json>::empty());
    match input {
        JsonValue::Array(items) => {
            let ghost models = list_model(items@);
            let (blank, answers) = survey(items);
            let mut i: usize = 0;
            assert(item_runs(models).take(0) =~= Seq::<Seq<Json>>::empty());
            while i < items.len()
                invariant
                    i <= items@.len(),
                    models == list_model(items@),
                    blank == blank_calls(models),
                    forall|id: Seq<char>|
                        #[trigger] answered(models, id) == among(answers@, id),
                    list_model(out@) == joined(item_runs(models).take(i as int)),
                decreases items@.len() - i,
            {
                let mut next = convert_item(Ghost(models), &items[i], blank, &answers);
                proof {
                    lemma_take_next(item_runs(models), i as int);
                    lemma_list_append(out@, next@);
                }
                out.append(&mut next);
                i += 1;
            }
            assert(item_runs(models).take(i as int) =~= item_runs(models));
        },
        JsonValue::String(text) => {
            let msg = make_message("user", JsonValue::text(text.as_str()));
            out.push(msg);
            assert(list_model(out@) =~= seq![msg@]);
        },
        _ => {},
    }
    JsonValue::Array(out)
}

} // verus!
