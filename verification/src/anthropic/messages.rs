//! Anthropic messages as chat messages.
use vstd::prelude::*;
use vstd::string::*;

use crate::anthropic::blocks::{
    anthropic_system_content_to_openai_text, block_piece, input_comes_back, read_block, system_text,
    text_part, BlockPiece, Piece,
};
use crate::chat::{make_message, message};
use crate::folds::{joined, lemma_take_next, lemma_try_all_stops, pick, try_all};
use crate::json::{
    field, lemma_list_append, lemma_list_push, list_field, list_model, list_outcome, outcome,
    put_some, seen_string, text_field, Json, JsonValue, Object,
};
use crate::text::same_text;

verus! {

/// `block_piece` for a role.
pub open spec fn block_of(role: Seq<char>) -> spec_fn(Json) -> Result<Piece, Seq<char>> {
    |block: Json| block_piece(role, block)
}

/// The text of a piece.
pub open spec fn words() -> spec_fn(Piece) -> Option<Seq<char>> {
    |piece: Piece|
        match piece {
            Piece::Words(text) => Some(text),
            _ => None,
        }
}

/// The tool call of a piece.
pub open spec fn calls() -> spec_fn(Piece) -> Option<Json> {
    |piece: Piece|
        match piece {
            Piece::Call(call) => Some(call),
            _ => None,
        }
}

/// The reasoning of a piece.
pub open spec fn thoughts() -> spec_fn(Piece) -> Option<Seq<char>> {
    |piece: Piece|
        match piece {
            Piece::Thought(text) => Some(text),
            _ => None,
        }
}

/// The one message that an assistant's pieces make: its text, its reasoning and its tool calls.
/// A message without any of them is refused.
pub open spec fn assistant_message(pieces: Seq<Piece>) -> Result<Json, Seq<char>> {
    let texts = pick(pieces, words());
    let reasoning = joined(pick(pieces, thoughts()));
    let tool_calls = pick(pieces, calls());
    let content = if texts.len() == 0 {
        Json::Null
    } else {
        Json::Text(joined(texts))
    };
    if texts.len() == 0 && reasoning.len() == 0 && tool_calls.len() == 0 {
        Err("assistant message is empty"@)
    } else {
        Ok(
            Json::Record(
                put_some(
                    put_some(
                        map!["role"@ => Json::Text("assistant"@), "content"@ => content],
                        "reasoning_content"@,
                        if reasoning.len() == 0 {
                            None
                        } else {
                            Some(Json::Text(reasoning))
                        },
                    ),
                    "tool_calls"@,
                    if tool_calls.len() == 0 {
                        None
                    } else {
                        Some(Json::List(tool_calls))
                    },
                ),
            ),
        )
    }
}

/// Messages so far, with the parts gathered since closed into a user message.
pub open spec fn closed_off(done: Seq<Json>, parts: Seq<Json>) -> Seq<Json> {
    if parts.len() == 0 {
        done
    } else {
        done.push(message("user"@, Json::List(parts)))
    }
}

/// What a user's pieces make so far: finished messages, and the parts gathered since. A tool's
/// answer is a message of its own and closes off the parts before it.
pub open spec fn user_progress(pieces: Seq<Piece>) -> (Seq<Json>, Seq<Json>)
    decreases pieces.len(),
{
    if pieces.len() == 0 {
        (Seq::empty(), Seq::empty())
    } else {
        let (done, parts) = user_progress(pieces.drop_last());
        match pieces.last() {
            Piece::Words(text) => (done, parts.push(text_part(text))),
            Piece::Picture(part) => (done, parts.push(part)),
            Piece::Answer(answer) => (closed_off(done, parts).push(answer), Seq::empty()),
            _ => (done, parts),
        }
    }
}

/// The messages that a user's pieces make.
pub open spec fn user_messages(pieces: Seq<Piece>) -> Seq<Json> {
    let (done, parts) = user_progress(pieces);
    closed_off(done, parts)
}

/// The chat messages for the content blocks of a user or assistant message.
pub open spec fn block_messages(role: Seq<char>, blocks: Seq<Json>) -> Result<Seq<Json>, Seq<char>> {
    match try_all(blocks, block_of(role)) {
        Err(error) => Err(error),
        Ok(pieces) => if role == "assistant"@ {
            match assistant_message(pieces) {
                Ok(single) => Ok(seq![single]),
                Err(error) => Err(error),
            }
        } else {
            Ok(user_messages(pieces))
        },
    }
}

/// The chat messages for one Anthropic message.
pub open spec fn message_run(msg: Json) -> Result<Seq<Json>, Seq<char>> {
    match text_field(msg, "role"@) {
        None => Err("Anthropic message is missing role"@),
        Some(role) => if role != "user"@ && role != "assistant"@ && role != "system"@ {
            Err(
                "only user, assistant, and system Anthropic messages can be sent to OpenAI Chat Completions"@,
            )
        } else if role == "system"@ {
            match field(msg, "content"@) {
                None => Err("system message is missing content"@),
                Some(content) => match system_text(content) {
                    Ok(text) => Ok(seq![message("system"@, Json::Text(text))]),
                    Err(error) => Err(error),
                },
            }
        } else {
            match field(msg, "content"@) {
                Some(Json::List(blocks)) => block_messages(role, blocks),
                Some(content) => Ok(seq![message(role, content)]),
                None => Ok(seq![message(role, Json::Text(Seq::empty()))]),
            }
        },
    }
}

/// `message_run` as a function value.
pub open spec fn run() -> spec_fn(Json) -> Result<Seq<Json>, Seq<char>> {
    |msg: Json| message_run(msg)
}

/// The system message that opens a conversation, where there is a system prompt.
pub open spec fn opening(system: Option<Seq<char>>) -> Seq<Json> {
    match system {
        Some(text) => seq![message("system"@, Json::Text(text))],
        None => Seq::empty(),
    }
}

/// The chat messages for a conversation: the system prompt, then what each message makes.
pub open spec fn chat_messages(messages: Json, system: Option<Seq<char>>) -> Result<
    Seq<Json>,
    Seq<char>,
> {
    match messages {
        Json::List(items) => match try_all(items, run()) {
            Ok(runs) => Ok(opening(system) + joined(runs)),
            Err(error) => Err(error),
        },
        _ => Err("Anthropic messages must be an array"@),
    }
}

/// Whether the input of every tool use in an assistant message can be had back.
pub open spec fn inputs_come_back(msg: Json) -> bool {
    text_field(msg, "role"@) == Some("assistant"@) ==> (list_field(msg, "content"@) matches Some(
        blocks,
    ) ==> all_come_back(blocks))
}

/// Whether the input of every tool use among some blocks can be had back.
pub open spec fn all_come_back(blocks: Seq<Json>) -> bool {
    forall|i: int| 0 <= i < blocks.len() ==> input_comes_back(#[trigger] blocks[i])
}

/// Whether the input of every tool use in a conversation can be had back.
pub open spec fn conversation_comes_back(messages: Json) -> bool {
    messages matches Json::List(items) ==> forall|i: int|
        0 <= i < items.len() ==> inputs_come_back(#[trigger] items[i])
}

// Closes the parts off into a user message.
fn close_off(done: Vec<JsonValue>, parts: Vec<JsonValue>) -> (r: Vec<JsonValue>)
    ensures
        list_model(r@) == closed_off(list_model(done@), list_model(parts@)),
{
    if parts.len() == 0 {
        assert(list_model(parts@).len() == 0);
        return done;
    }
    assert(list_model(parts@).len() > 0);
    let mut done = done;
    let closing = make_message("user", JsonValue::Array(parts));
    proof {
        lemma_list_push(done@, closing);
    }
    done.push(closing);
    done
}

// A user message's blocks.
fn convert_user_blocks(role: &str, blocks: &Vec<JsonValue>) -> (r: Result<Vec<JsonValue>, String>)
    requires
        role@ != "assistant"@,
    ensures
        list_outcome(r) == block_messages(role@, list_model(blocks@)),
{
    let ghost models = list_model(blocks@);
    let ghost mut pieces: Seq<Piece> = Seq::empty();
    let mut done: Vec<JsonValue> = Vec::new();
    let mut parts: Vec<JsonValue> = Vec::new();
    let mut i: usize = 0;
    assert(models.take(0) =~= Seq::<Json>::empty());
    assert(list_model(done@) =~= Seq::<Json>::empty());
    while i < blocks.len()
        invariant
            i <= blocks@.len(),
            role@ != "assistant"@,
            models == list_model(blocks@),
            try_all(models.take(i as int), block_of(role@)) == Ok::<Seq<Piece>, Seq<char>>(pieces),
            (list_model(done@), list_model(parts@)) == user_progress(pieces),
        decreases blocks@.len() - i,
    {
        proof {
            lemma_take_next(models, i as int);
        }
        let piece = match read_block(role, &blocks[i]) {
            Ok(piece) => piece,
            Err(error) => {
                proof {
                    lemma_try_all_stops(models, block_of(role@), i + 1);
                }
                return Err(error);
            },
        };
        proof {
            assert(pieces.push(piece@).drop_last() =~= pieces);
            pieces = pieces.push(piece@);
        }
        match piece {
            BlockPiece::Words(text) => {
                let part = JsonValue::Object(
                    Object::new().with("type", JsonValue::text("text")).with(
                        "text",
                        JsonValue::String(text),
                    ),
                );
                proof {
                    lemma_list_push(parts@, part);
                }
                parts.push(part);
            },
            BlockPiece::Picture(part) => {
                proof {
                    lemma_list_push(parts@, part);
                }
                parts.push(part);
            },
            BlockPiece::Answer(answer) => {
                done = close_off(done, parts);
                proof {
                    lemma_list_push(done@, answer);
                }
                done.push(answer);
                parts = Vec::new();
                assert(list_model(parts@) =~= Seq::<Json>::empty());
            },
            BlockPiece::Call(_) => {},
            BlockPiece::Thought(_) => {},
            BlockPiece::Silent => {},
        }
        i += 1;
    }
    assert(models.take(i as int) =~= models);
    Ok(close_off(done, parts))
}

// An assistant message's blocks.
fn convert_assistant_blocks(blocks: &Vec<JsonValue>) -> (r: Result<JsonValue, String>)
    ensures
        (match outcome(r) {
            Ok(single) => Ok(seq![single]),
            Err(error) => Err(error),
        }) == block_messages("assistant"@, list_model(blocks@)),
        r is Ok ==> all_come_back(list_model(blocks@)),
{
    let role = "assistant";
    let ghost models = list_model(blocks@);
    let ghost mut pieces: Seq<Piece> = Seq::empty();
    let mut spoken = false;
    let mut content = String::new();
    let mut reasoning = String::new();
    let mut tool_calls: Vec<JsonValue> = Vec::new();
    let mut i: usize = 0;
    assert(models.take(0) =~= Seq::<Json>::empty());
    assert(list_model(tool_calls@) =~= Seq::<Json>::empty());
    while i < blocks.len()
        invariant
            i <= blocks@.len(),
            role@ == "assistant"@,
            models == list_model(blocks@),
            try_all(models.take(i as int), block_of(role@)) == Ok::<Seq<Piece>, Seq<char>>(pieces),
            spoken == (pick(pieces, words()).len() > 0),
            content@ == joined(pick(pieces, words())),
            reasoning@ == joined(pick(pieces, thoughts())),
            list_model(tool_calls@) == pick(pieces, calls()),
            all_come_back(models.take(i as int)),
        decreases blocks@.len() - i,
    {
        proof {
            lemma_take_next(models, i as int);
        }
        let piece = match read_block(role, &blocks[i]) {
            Ok(piece) => piece,
            Err(error) => {
                proof {
                    lemma_try_all_stops(models, block_of(role@), i + 1);
                }
                return Err(error);
            },
        };
        proof {
            assert(pieces.push(piece@).drop_last() =~= pieces);
            assert forall|j: int| 0 <= j < i + 1 implies input_comes_back(
                #[trigger] models.take(i + 1)[j],
            ) by {
                if j < i {
                    assert(models.take(i + 1)[j] == models.take(i as int)[j]);
                }
            }
        }
        let ghost before = pieces;
        proof {
            pieces = pieces.push(piece@);
        }
        match piece {
            BlockPiece::Words(text) => {
                content.append(text.as_str());
                spoken = true;
                assert(pick(pieces, words()).drop_last() =~= pick(before, words()));
            },
            BlockPiece::Thought(text) => {
                reasoning.append(text.as_str());
                assert(pick(pieces, thoughts()).drop_last() =~= pick(before, thoughts()));
            },
            BlockPiece::Call(call) => {
                proof {
                    lemma_list_push(tool_calls@, call);
                }
                tool_calls.push(call);
            },
            BlockPiece::Picture(_) => {},
            BlockPiece::Answer(_) => {},
            BlockPiece::Silent => {},
        }
        i += 1;
    }
    assert(models.take(i as int) =~= models);
    assert(list_model(tool_calls@).len() == tool_calls@.len());
    if !spoken && reasoning.as_str().is_empty() && tool_calls.len() == 0 {
        return Err("assistant message is empty".to_owned());
    }
    let content = if spoken {
        JsonValue::String(content)
    } else {
        JsonValue::Null
    };
    let reasoning = if reasoning.as_str().is_empty() {
        None
    } else {
        Some(JsonValue::String(reasoning))
    };
    let tool_calls = if tool_calls.len() == 0 {
        None
    } else {
        Some(JsonValue::Array(tool_calls))
    };
    Ok(
        JsonValue::Object(
            Object::new().with("role", JsonValue::text("assistant")).with(
                "content",
                content,
            ).with_some("reasoning_content", reasoning).with_some("tool_calls", tool_calls),
        ),
    )
}

fn single(item: JsonValue) -> (r: Vec<JsonValue>)
    ensures
        list_model(r@) == seq![item@],
{
    let r = vec![item];
    assert(list_model(r@) =~= seq![item@]);
    r
}

/// The chat messages for one Anthropic message.
pub fn convert_message(msg: &JsonValue) -> (r: Result<Vec<JsonValue>, String>)
    ensures
        list_outcome(r) == message_run(msg@),
        r is Ok ==> inputs_come_back(msg@),
{
    let role = match msg.get_text("role") {
        Some(role) => role,
        None => return Err("Anthropic message is missing role".to_owned()),
    };
    if !same_text(role, "user") && !same_text(role, "assistant") && !same_text(role, "system") {
        return Err(
            "only user, assistant, and system Anthropic messages can be sent to OpenAI Chat Completions".to_owned(),
        );
    }
    let content = msg.get("content");
    proof {
        reveal_strlit("system");
        reveal_strlit("assistant");
        assert("system"@.len() == 6 && "assistant"@.len() == 9);
    }
    if same_text(role, "system") {
        return match content {
            None => Err("system message is missing content".to_owned()),
            Some(content) => match anthropic_system_content_to_openai_text(content) {
                Ok(text) => Ok(single(make_message("system", JsonValue::String(text)))),
                Err(error) => Err(error),
            },
        };
    }
    match content {
        Some(content) => match content {
            JsonValue::Array(blocks) => if same_text(role, "assistant") {
                match convert_assistant_blocks(blocks) {
                    Ok(converted) => Ok(single(converted)),
                    Err(error) => Err(error),
                }
            } else {
                convert_user_blocks(role, blocks)
            },
            _ => Ok(single(make_message(role, content.duplicate()))),
        },
        None => Ok(single(make_message(role, JsonValue::String(String::new())))),
    }
}

/// The chat messages for a conversation, after an optional system prompt.
pub fn convert_anthropic_messages_to_openai(
    messages: &JsonValue,
    system: Option<String>,
) -> (r: Result<JsonValue, String>)
    ensures
        outcome(r) == (match chat_messages(messages@, seen_string(system)) {
            Ok(items) => Ok(Json::List(items)),
            Err(error) => Err(error),
        }),
        r is Ok ==> conversation_comes_back(messages@),
{
    let items = match messages.as_array() {
        Some(items) => items,
        None => return Err("Anthropic messages must be an array".to_owned()),
    };
    let ghost prompt = seen_string(system);
    let ghost models = list_model(items@);
    let mut out: Vec<JsonValue> = match system {
        Some(text) => single(make_message("system", JsonValue::String(text))),
        None => Vec::new(),
    };
    assert(list_model(out@) =~= opening(prompt));
    let ghost mut runs: Seq<Seq<Json>> = Seq::empty();
    let mut i: usize = 0;
    assert(models.take(0) =~= Seq::<Json>::empty());
    assert(opening(prompt) + joined(runs) =~= opening(prompt));
    while i < items.len()
        invariant
            i <= items@.len(),
            models == list_model(items@),
            messages@ == Json::List(models),
            try_all(models.take(i as int), run()) == Ok::<Seq<Seq<Json>>, Seq<char>>(runs),
            list_model(out@) == opening(prompt) + joined(runs),
            forall|j: int| 0 <= j < i ==> inputs_come_back(#[trigger] models[j]),
        decreases items@.len() - i,
    {
        proof {
            lemma_take_next(models, i as int);
        }
        match convert_message(&items[i]) {
            Ok(converted) => {
                let mut converted = converted;
                proof {
                    lemma_list_append(out@, converted@);
                    let next = list_model(converted@);
                    assert(runs.push(next).drop_last() =~= runs);
                    assert(opening(prompt) + joined(runs) + next =~= opening(prompt) + (joined(runs)
                        + next));
                    runs = runs.push(next);
                }
                out.append(&mut converted);
            },
            Err(error) => {
                proof {
                    lemma_try_all_stops(models, run(), i + 1);
                }
                return Err(error);
            },
        }
        i += 1;
    }
    assert(models.take(i as int) =~= models);
    Ok(JsonValue::Array(out))
}

} // verus!
