//! Content blocks of Anthropic messages.
use vstd::prelude::*;
use vstd::string::*;

use crate::chat::{make_tool_call, make_tool_message, tool_call, tool_message};
use crate::folds::{joined, lemma_take_next, lemma_try_all_stops, try_all};
use crate::json::{
    field, filled, flag_in, list_model, print_json, printed, prints_back, text_field, text_is,
    text_or_empty, text_outcome, Json, JsonValue, Object,
};
use crate::text::same_text;

verus! {

/// The text of one block of a system prompt. Reasoning has no counterpart in a chat request and
/// leaves nothing; an annotation on a text block is not read.
pub open spec fn system_block_text(block: Json) -> Result<Seq<char>, Seq<char>> {
    let kind = text_field(block, "type"@);
    if kind == Some("text"@) {
        Ok(text_or_empty(block, "text"@))
    } else if kind == Some("thinking"@) {
        Ok(Seq::empty())
    } else if kind == Some("cache_control"@) {
        Err("system cache_control blocks require a native Anthropic Messages channel"@)
    } else {
        Err("unsupported non-text system content requires a native Anthropic Messages channel"@)
    }
}

/// `system_block_text` as a function value.
pub open spec fn system_block() -> spec_fn(Json) -> Result<Seq<char>, Seq<char>> {
    |block: Json| system_block_text(block)
}

/// The text of a system prompt: a text, or the texts of an array of blocks, joined.
pub open spec fn system_text(value: Json) -> Result<Seq<char>, Seq<char>> {
    match value {
        Json::Text(text) => Ok(text),
        Json::List(blocks) => match try_all(blocks, system_block()) {
            Ok(texts) => Ok(joined(texts)),
            Err(message) => Err(message),
        },
        _ => Err("system must be text or an array of text blocks"@),
    }
}

fn read_system_block(block: &JsonValue) -> (r: Result<String, String>)
    ensures
        text_outcome(r) == system_block_text(block@),
{
    let kind = block.get_text("type");
    if text_is(kind, "text") {
        Ok(block.get_text_or_empty("text"))
    } else if text_is(kind, "thinking") {
        Ok(String::new())
    } else if text_is(kind, "cache_control") {
        Err("system cache_control blocks require a native Anthropic Messages channel".to_owned())
    } else {
        Err(
            "unsupported non-text system content requires a native Anthropic Messages channel".to_owned(),
        )
    }
}

/// Reads a system prompt as one text.
pub fn anthropic_system_content_to_openai_text(value: &JsonValue) -> (r: Result<String, String>)
    ensures
        text_outcome(r) == system_text(value@),
{
    match value {
        JsonValue::String(text) => Ok(text.clone()),
        JsonValue::Array(blocks) => {
            let ghost models = list_model(blocks@);
            let mut texts = String::new();
            let ghost mut done: Seq<Seq<char>> = Seq::empty();
            let mut i: usize = 0;
            assert(models.take(0) =~= Seq::<Json>::empty());
            while i < blocks.len()
                invariant
                    i <= blocks@.len(),
                    models == list_model(blocks@),
                    value@ == Json::List(models),
                    try_all(models.take(i as int), system_block()) == Ok::<
                        Seq<Seq<char>>,
                        Seq<char>,
                    >(done),
                    texts@ == joined(done),
                decreases blocks@.len() - i,
            {
                proof {
                    lemma_take_next(models, i as int);
                }
                match read_system_block(&blocks[i]) {
                    Ok(text) => {
                        texts.append(text.as_str());
                        proof {
                            assert(done.push(text@).drop_last() =~= done);
                            done = done.push(text@);
                        }
                    },
                    Err(message) => {
                        proof {
                            lemma_try_all_stops(models, system_block(), i + 1);
                        }
                        return Err(message);
                    },
                }
                i += 1;
            }
            assert(models.take(i as int) =~= models);
            Ok(texts)
        },
        _ => Err("system must be text or an array of text blocks".to_owned()),
    }
}

/// The text of one item of a tool result.
pub open spec fn result_item_text(item: Json) -> Result<Seq<char>, Seq<char>> {
    let kind = text_field(item, "type"@);
    if kind == Some("text"@) {
        Ok(text_or_empty(item, "text"@))
    } else if kind == Some("image"@) {
        Err("tool_result images require a native Anthropic Messages channel"@)
    } else {
        Err("unsupported tool_result content requires a native Anthropic Messages channel"@)
    }
}

/// What `tool_result_text` makes of one item.
pub open spec fn result_item() -> spec_fn(Json) -> Result<Seq<char>, Seq<char>> {
    |item: Json| result_item_text(item)
}

/// The text of a tool result: nothing, a text, or the texts of an array of text items, joined.
pub open spec fn tool_result_text(block: Json) -> Result<Seq<char>, Seq<char>> {
    match field(block, "content"@) {
        None => Ok(Seq::empty()),
        Some(Json::Null) => Ok(Seq::empty()),
        Some(Json::Text(text)) => Ok(text),
        Some(Json::List(items)) => match try_all(items, result_item()) {
            Ok(texts) => Ok(joined(texts)),
            Err(message) => Err(message),
        },
        Some(_) => Err("tool_result content must be text or text blocks"@),
    }
}

fn read_result_item(item: &JsonValue) -> (r: Result<String, String>)
    ensures
        text_outcome(r) == result_item_text(item@),
{
    let kind = item.get_text("type");
    if text_is(kind, "text") {
        Ok(item.get_text_or_empty("text"))
    } else if text_is(kind, "image") {
        Err("tool_result images require a native Anthropic Messages channel".to_owned())
    } else {
        Err(
            "unsupported tool_result content requires a native Anthropic Messages channel".to_owned(),
        )
    }
}

fn join_result_items(items: &Vec<JsonValue>) -> (r: Result<String, String>)
    ensures
        text_outcome(r) == (match try_all(list_model(items@), result_item()) {
            Ok(texts) => Ok(joined(texts)),
            Err(message) => Err(message),
        }),
{
    let ghost models = list_model(items@);
    let mut texts = String::new();
    let ghost mut done: Seq<Seq<char>> = Seq::empty();
    let mut i: usize = 0;
    assert(models.take(0) =~= Seq::<Json>::empty());
    while i < items.len()
        invariant
            i <= items@.len(),
            models == list_model(items@),
            try_all(models.take(i as int), result_item()) == Ok::<Seq<Seq<char>>, Seq<char>>(done),
            texts@ == joined(done),
        decreases items@.len() - i,
    {
        proof {
            lemma_take_next(models, i as int);
        }
        match read_result_item(&items[i]) {
            Ok(text) => {
                texts.append(text.as_str());
                proof {
                    assert(done.push(text@).drop_last() =~= done);
                    done = done.push(text@);
                }
            },
            Err(message) => {
                proof {
                    lemma_try_all_stops(models, result_item(), i + 1);
                }
                return Err(message);
            },
        }
        i += 1;
    }
    assert(models.take(i as int) =~= models);
    Ok(texts)
}

/// Reads a tool result as one text.
pub fn tool_result_to_openai_content(block: &JsonValue) -> (r: Result<String, String>)
    ensures
        text_outcome(r) == tool_result_text(block@),
{
    match block.get("content") {
        None => Ok(String::new()),
        Some(content) => match content {
            JsonValue::Null => Ok(String::new()),
            JsonValue::String(text) => Ok(text.clone()),
            JsonValue::Array(items) => join_result_items(items),
            _ => Err("tool_result content must be text or text blocks".to_owned()),
        },
    }
}

/// What one content block contributes to the chat messages.
pub enum Piece {
    Words(Seq<char>),
    Picture(Json),
    Call(Json),
    Answer(Json),
    Thought(Seq<char>),
    Silent,
}

/// What one content block contributes to the chat messages.
pub enum BlockPiece {
    Words(String),
    Picture(JsonValue),
    Call(JsonValue),
    Answer(JsonValue),
    Thought(String),
    Silent,
}

impl View for BlockPiece {
    type V = Piece;

    open spec fn view(&self) -> Piece {
        match self {
            BlockPiece::Words(text) => Piece::Words(text@),
            BlockPiece::Picture(part) => Piece::Picture(part@),
            BlockPiece::Call(call) => Piece::Call(call@),
            BlockPiece::Answer(answer) => Piece::Answer(answer@),
            BlockPiece::Thought(text) => Piece::Thought(text@),
            BlockPiece::Silent => Piece::Silent,
        }
    }
}

/// The models behind a block's conversion.
pub open spec fn piece_outcome(result: Result<BlockPiece, String>) -> Result<Piece, Seq<char>> {
    match result {
        Ok(piece) => Ok(piece@),
        Err(message) => Err(message@),
    }
}

/// The address of an image: a URL, or the data itself as a `data:` URL.
pub open spec fn image_url(source: Json) -> Result<Seq<char>, Seq<char>> {
    let kind = text_field(source, "type"@);
    if kind == Some("url"@) {
        match text_field(source, "url"@) {
            Some(url) => Ok(url),
            None => Err("Anthropic image URL source is missing url"@),
        }
    } else if kind == Some("base64"@) {
        match (text_field(source, "media_type"@), text_field(source, "data"@)) {
            (Some(media_type), Some(data)) => Ok("data:"@ + media_type + ";base64,"@ + data),
            (None, _) => Err("Anthropic base64 image is missing media_type"@),
            (_, None) => Err("Anthropic base64 image is missing data"@),
        }
    } else {
        Err("unsupported Anthropic image source requires a native channel"@)
    }
}

fn read_image_url(source: &JsonValue) -> (r: Result<String, String>)
    ensures
        text_outcome(r) == image_url(source@),
{
    let kind = source.get_text("type");
    if text_is(kind, "url") {
        match source.get_text("url") {
            Some(url) => Ok(url.to_owned()),
            None => Err("Anthropic image URL source is missing url".to_owned()),
        }
    } else if text_is(kind, "base64") {
        let media_type = match source.get_text("media_type") {
            Some(media_type) => media_type,
            None => return Err("Anthropic base64 image is missing media_type".to_owned()),
        };
        let data = match source.get_text("data") {
            Some(data) => data,
            None => return Err("Anthropic base64 image is missing data".to_owned()),
        };
        let mut url = "data:".to_owned();
        url.append(media_type);
        url.append(";base64,");
        url.append(data);
        Ok(url)
    } else {
        Err("unsupported Anthropic image source requires a native channel".to_owned())
    }
}

/// An image part of a user message.
pub open spec fn image_part(url: Seq<char>) -> Json {
    Json::Record(
        map![
            "type"@ => Json::Text("image_url"@),
            "image_url"@ => Json::Record(map!["url"@ => Json::Text(url)]),
        ],
    )
}

/// A text part of a user message.
pub open spec fn text_part(text: Seq<char>) -> Json {
    Json::Record(map!["type"@ => Json::Text("text"@), "text"@ => Json::Text(text)])
}

/// The image block of a message. Only a user may send one.
pub open spec fn image_piece(role: Seq<char>, block: Json) -> Result<Piece, Seq<char>> {
    if role != "user"@ {
        Err("OpenAI Chat Completions cannot safely encode assistant image blocks"@)
    } else {
        match field(block, "source"@) {
            Some(source) => match image_url(source) {
                Ok(url) => Ok(Piece::Picture(image_part(url))),
                Err(message) => Err(message),
            },
            None => Err("Anthropic image block is missing source"@),
        }
    }
}

fn read_image_block(role: &str, block: &JsonValue) -> (r: Result<BlockPiece, String>)
    ensures
        piece_outcome(r) == image_piece(role@, block@),
{
    if !same_text(role, "user") {
        return Err("OpenAI Chat Completions cannot safely encode assistant image blocks".to_owned());
    }
    match block.get("source") {
        Some(source) => match read_image_url(source) {
            Ok(url) => {
                let target = Object::new().with("url", JsonValue::String(url));
                Ok(
                    BlockPiece::Picture(
                        JsonValue::Object(
                            Object::new().with("type", JsonValue::text("image_url")).with(
                                "image_url",
                                JsonValue::Object(target),
                            ),
                        ),
                    ),
                )
            },
            Err(message) => Err(message),
        },
        None => Err("Anthropic image block is missing source".to_owned()),
    }
}

/// The tool use block of a message. Only an assistant may send one, it names the call and the
/// tool, and its input is an object, which is never made up.
pub open spec fn call_piece(role: Seq<char>, block: Json) -> Result<Piece, Seq<char>> {
    if role != "assistant"@ {
        Err("tool_use blocks must be in an assistant message"@)
    } else {
        match filled(text_field(block, "id"@)) {
            None => Err("tool_use is missing id"@),
            Some(id) => match filled(text_field(block, "name"@)) {
                None => Err("tool_use is missing name"@),
                Some(name) => match field(block, "input"@) {
                    None => Err("tool_use is missing input"@),
                    Some(input) => if input is Record {
                        Ok(Piece::Call(tool_call(id, name, printed(input))))
                    } else {
                        Err("tool_use input must be a JSON object"@)
                    },
                },
            },
        }
    }
}

/// Whether the input of a tool use block can be had back from the text that is sent on.
pub open spec fn input_comes_back(block: Json) -> bool {
    text_or_empty(block, "type"@) == "tool_use"@ ==> (field(block, "input"@) matches Some(input)
        ==> prints_back(input))
}

fn read_call_block(role: &str, block: &JsonValue) -> (r: Result<BlockPiece, String>)
    ensures
        piece_outcome(r) == call_piece(role@, block@),
        r is Ok ==> input_comes_back(block@),
{
    if !same_text(role, "assistant") {
        return Err("tool_use blocks must be in an assistant message".to_owned());
    }
    let id = match block.get_filled_text("id") {
        Some(id) => id,
        None => return Err("tool_use is missing id".to_owned()),
    };
    let name = match block.get_filled_text("name") {
        Some(name) => name,
        None => return Err("tool_use is missing name".to_owned()),
    };
    let input = match block.get("input") {
        Some(input) => input,
        None => return Err("tool_use is missing input".to_owned()),
    };
    if !input.is_object() {
        return Err("tool_use input must be a JSON object".to_owned());
    }
    match print_json(input) {
        Ok(arguments) => Ok(BlockPiece::Call(make_tool_call(id, name, arguments.as_str()))),
        Err(message) => Err(message),
    }
}

/// The tool result block of a message. Only a user may send one; a failed call is marked as such.
pub open spec fn answer_piece(role: Seq<char>, block: Json) -> Result<Piece, Seq<char>> {
    if role != "user"@ {
        Err("tool_result blocks must be in a user message"@)
    } else {
        match filled(text_field(block, "tool_use_id"@)) {
            None => Err("tool_result is missing tool_use_id"@),
            Some(id) => match tool_result_text(block) {
                Err(message) => Err(message),
                Ok(text) => Ok(
                    Piece::Answer(
                        tool_message(
                            id,
                            if flag_in(field(block, "is_error"@)) == Some(true) {
                                "Tool execution error:\n"@ + text
                            } else {
                                text
                            },
                        ),
                    ),
                ),
            },
        }
    }
}

fn read_answer_block(role: &str, block: &JsonValue) -> (r: Result<BlockPiece, String>)
    ensures
        piece_outcome(r) == answer_piece(role@, block@),
{
    if !same_text(role, "user") {
        return Err("tool_result blocks must be in a user message".to_owned());
    }
    let id = match block.get_filled_text("tool_use_id") {
        Some(id) => id,
        None => return Err("tool_result is missing tool_use_id".to_owned()),
    };
    let text = match tool_result_to_openai_content(block) {
        Ok(text) => text,
        Err(message) => return Err(message),
    };
    let failed = match block.get_bool("is_error") {
        Some(flag) => flag,
        None => false,
    };
    if failed {
        let mut report = "Tool execution error:\n".to_owned();
        report.append(text.as_str());
        Ok(BlockPiece::Answer(make_tool_message(id, report.as_str())))
    } else {
        Ok(BlockPiece::Answer(make_tool_message(id, text.as_str())))
    }
}

/// What a content block of a user or assistant message contributes. Reasoning is kept for an
/// assistant and dropped for a user; an annotation on a block is not read.
pub open spec fn block_piece(role: Seq<char>, block: Json) -> Result<Piece, Seq<char>> {
    let kind = text_or_empty(block, "type"@);
    if kind == "text"@ {
        Ok(Piece::Words(text_or_empty(block, "text"@)))
    } else if kind == "image"@ {
        image_piece(role, block)
    } else if kind == "tool_use"@ {
        call_piece(role, block)
    } else if kind == "tool_result"@ {
        answer_piece(role, block)
    } else if kind == "thinking"@ {
        match text_field(block, "thinking"@) {
            Some(text) => if role == "assistant"@ {
                Ok(Piece::Thought(text))
            } else {
                Ok(Piece::Silent)
            },
            None => Ok(Piece::Silent),
        }
    } else if kind == "redacted_thinking"@ {
        Ok(Piece::Silent)
    } else if kind == "cache_control"@ {
        Err("Anthropic cache controls require a native Anthropic Messages channel"@)
    } else {
        Err("unsupported Anthropic content block requires a native Anthropic Messages channel"@)
    }
}

/// Reads a content block of a user or assistant message.
pub fn read_block(role: &str, block: &JsonValue) -> (r: Result<BlockPiece, String>)
    ensures
        piece_outcome(r) == block_piece(role@, block@),
        r is Ok ==> input_comes_back(block@),
{
    proof {
        reveal_strlit("text");
        reveal_strlit("image");
        reveal_strlit("tool_use");
        assert("text"@.len() == 4 && "image"@.len() == 5 && "tool_use"@.len() == 8);
    }
    let kind = block.get_text_or_empty("type");
    let kind = kind.as_str();
    if same_text(kind, "text") {
        Ok(BlockPiece::Words(block.get_text_or_empty("text")))
    } else if same_text(kind, "image") {
        read_image_block(role, block)
    } else if same_text(kind, "tool_use") {
        read_call_block(role, block)
    } else if same_text(kind, "tool_result") {
        read_answer_block(role, block)
    } else if same_text(kind, "thinking") {
        match block.get_text("thinking") {
            Some(text) => if same_text(role, "assistant") {
                Ok(BlockPiece::Thought(text.to_owned()))
            } else {
                Ok(BlockPiece::Silent)
            },
            None => Ok(BlockPiece::Silent),
        }
    } else if same_text(kind, "redacted_thinking") {
        Ok(BlockPiece::Silent)
    } else if same_text(kind, "cache_control") {
        Err("Anthropic cache controls require a native Anthropic Messages channel".to_owned())
    } else {
        Err(
            "unsupported Anthropic content block requires a native Anthropic Messages channel".to_owned(),
        )
    }
}

} // verus!
