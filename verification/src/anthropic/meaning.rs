//! What the chat messages of a conversation say, against what the conversation said.
use vstd::prelude::*;
use vstd::string::*;

use crate::anthropic::blocks::{
    block_piece, result_item, system_block, system_text, text_part, tool_result_text, Piece,
};
use crate::anthropic::messages::{
    block_of, calls, chat_messages, closed_off, message_run, run, thoughts, user_progress, words,
};
use crate::chat::{message, tool_call};
use crate::folds::{
    joined, lemma_joined_append, lemma_joined_part, lemma_try_all_append, lemma_try_all_one, pick,
    try_all,
};
use crate::json::{field, list_field, printed, text_field, text_or_empty, Json};
use crate::names::lemma_names;

verus! {

// ---------------------------------------------------------------------------
// Texts
// ---------------------------------------------------------------------------

/// The texts under a member of all the blocks of a kind, one after the other.
pub open spec fn texts_of(blocks: Seq<Json>, kind: Seq<char>, member: Seq<char>) -> Seq<char>
    decreases blocks.len(),
{
    if blocks.len() == 0 {
        Seq::empty()
    } else {
        let before = texts_of(blocks.drop_last(), kind, member);
        if text_field(blocks.last(), "type"@) == Some(kind) {
            match field(blocks.last(), member) {
                Some(Json::Text(text)) => before + text,
                _ => before,
            }
        } else {
            before
        }
    }
}

/// Whether every block is of one of two kinds.
pub open spec fn all_of_kinds(blocks: Seq<Json>, kind: Seq<char>, other: Seq<char>) -> bool {
    forall|i: int|
        0 <= i < blocks.len() ==> text_field(#[trigger] blocks[i], "type"@) == Some(kind)
            || text_field(blocks[i], "type"@) == Some(other)
}

proof fn lemma_system_list(blocks: Seq<Json>)
    ensures
        try_all(blocks, system_block()) is Ok <==> all_of_kinds(blocks, "text"@, "thinking"@),
        try_all(blocks, system_block()) matches Ok(texts) ==> joined(texts) == texts_of(
            blocks,
            "text"@,
            "text"@,
        ),
    decreases blocks.len(),
{
    lemma_names();
    if blocks.len() > 0 {
        let shorter = blocks.drop_last();
        let last = blocks.last();
        lemma_system_list(shorter);
        if all_of_kinds(blocks, "text"@, "thinking"@) {
            assert forall|i: int| 0 <= i < shorter.len() implies text_field(
                #[trigger] shorter[i],
                "type"@,
            ) == Some("text"@) || text_field(shorter[i], "type"@) == Some("thinking"@) by {
                assert(shorter[i] == blocks[i]);
            }
            assert(blocks[blocks.len() - 1] == last);
        }
        if try_all(blocks, system_block()) is Ok {
            let texts = try_all(blocks, system_block())->Ok_0;
            assert(texts.drop_last() =~= try_all(shorter, system_block())->Ok_0);
            assert forall|i: int| 0 <= i < blocks.len() implies text_field(
                #[trigger] blocks[i],
                "type"@,
            ) == Some("text"@) || text_field(blocks[i], "type"@) == Some("thinking"@) by {
                if i < shorter.len() {
                    assert(blocks[i] == shorter[i]);
                }
            }
            let before = joined(texts.drop_last());
            assert(before + Seq::<char>::empty() =~= before);
        }
    }
}

/// A system prompt is a text, or a list of text and thinking blocks; its text is that text, or the
/// texts of all its text blocks, in order and without anything between.
pub proof fn lemma_system_says(system: Json)
    ensures
        system_text(system) is Ok <==> system is Text || (system is List && all_of_kinds(
            system->List_0,
            "text"@,
            "thinking"@,
        )),
        system matches Json::Text(text) ==> system_text(system) == Ok::<Seq<char>, Seq<char>>(text),
        system is List && system_text(system) is Ok ==> system_text(system)->Ok_0 == texts_of(
            system->List_0,
            "text"@,
            "text"@,
        ),
{
    if system is List {
        lemma_system_list(system->List_0);
    }
}

/// The text of a system prompt made of two lists of blocks is the text of the first and then that
/// of the second, and a single text block has its own text.
pub proof fn lemma_system_by_parts(first: Seq<Json>, second: Seq<Json>, block: Json)
    ensures
        system_text(Json::List(first)) is Ok && system_text(Json::List(second)) is Ok
            ==> system_text(Json::List(first + second)) == Ok::<Seq<char>, Seq<char>>(
            system_text(Json::List(first))->Ok_0 + system_text(Json::List(second))->Ok_0,
        ),
        system_text(Json::List(first)) matches Err(error) ==> system_text(
            Json::List(first + second),
        ) == Err::<Seq<char>, Seq<char>>(error),
        text_field(block, "type"@) == Some("text"@) ==> system_text(Json::List(seq![block]))
            == Ok::<Seq<char>, Seq<char>>(text_or_empty(block, "text"@)),
        text_field(block, "type"@) == Some("thinking"@) ==> system_text(Json::List(seq![block]))
            == Ok::<Seq<char>, Seq<char>>(Seq::empty()),
{
    lemma_names();
    lemma_try_all_append(first, second, system_block());
    if try_all(first, system_block()) is Ok && try_all(second, system_block()) is Ok {
        lemma_joined_append(
            try_all(first, system_block())->Ok_0,
            try_all(second, system_block())->Ok_0,
        );
    }
    lemma_try_all_one(block, system_block());
    lemma_joined_part(text_or_empty(block, "text"@));
    lemma_joined_part(Seq::<char>::empty());
}

/// Whether every item is a text item.
pub open spec fn all_texts(items: Seq<Json>) -> bool {
    forall|i: int|
        0 <= i < items.len() ==> text_field(#[trigger] items[i], "type"@) == Some("text"@)
}

proof fn lemma_result_list(items: Seq<Json>)
    ensures
        try_all(items, result_item()) is Ok <==> all_texts(items),
        try_all(items, result_item()) matches Ok(texts) ==> joined(texts) == texts_of(
            items,
            "text"@,
            "text"@,
        ),
    decreases items.len(),
{
    lemma_names();
    if items.len() > 0 {
        let shorter = items.drop_last();
        lemma_result_list(shorter);
        if all_texts(items) {
            assert forall|i: int| 0 <= i < shorter.len() implies text_field(
                #[trigger] shorter[i],
                "type"@,
            ) == Some("text"@) by {
                assert(shorter[i] == items[i]);
            }
            assert(items[items.len() - 1] == items.last());
        }
        if try_all(items, result_item()) is Ok {
            let texts = try_all(items, result_item())->Ok_0;
            assert(texts.drop_last() =~= try_all(shorter, result_item())->Ok_0);
            assert forall|i: int| 0 <= i < items.len() implies text_field(
                #[trigger] items[i],
                "type"@,
            ) == Some("text"@) by {
                if i < shorter.len() {
                    assert(items[i] == shorter[i]);
                }
            }
            let before = joined(texts.drop_last());
            assert(before + Seq::<char>::empty() =~= before);
        }
    }
}

/// Whether the content of a tool result can be sent on: nothing, a text, or a list of text items.
pub open spec fn is_result_content(content: Option<Json>) -> bool {
    match content {
        None => true,
        Some(Json::Null) => true,
        Some(Json::Text(_)) => true,
        Some(Json::List(items)) => all_texts(items),
        _ => false,
    }
}

/// What a tool result says: nothing, its text, or the texts of all its items in order.
pub open spec fn result_says(content: Option<Json>) -> Seq<char> {
    match content {
        Some(Json::Text(text)) => text,
        Some(Json::List(items)) => texts_of(items, "text"@, "text"@),
        _ => Seq::empty(),
    }
}

/// The text of a tool result is what it says, and it has one exactly where it can be sent on.
pub proof fn lemma_result_text(block: Json)
    ensures
        tool_result_text(block) is Ok <==> is_result_content(field(block, "content"@)),
        tool_result_text(block) matches Ok(text) ==> text == result_says(field(block, "content"@)),
{
    if list_field(block, "content"@) is Some {
        lemma_result_list(list_field(block, "content"@)->Some_0);
    }
}

// ---------------------------------------------------------------------------
// Blocks
// ---------------------------------------------------------------------------

/// Whether an image can be sent on: it has an address, or its media type and its data.
pub open spec fn is_image_source(source: Option<Json>) -> bool {
    source matches Some(s) && ((text_field(s, "type"@) == Some("url"@) && text_field(s, "url"@)
        is Some) || (text_field(s, "type"@) == Some("base64"@) && text_field(s, "media_type"@)
        is Some && text_field(s, "data"@) is Some))
}

/// Where an image is to be found: at its address, or in a `data:` address that holds its media
/// type and its data.
pub open spec fn address_of(source: Json) -> Seq<char> {
    if text_field(source, "type"@) == Some("url"@) {
        text_or_empty(source, "url"@)
    } else {
        "data:"@ + text_or_empty(source, "media_type"@) + ";base64,"@ + text_or_empty(
            source,
            "data"@,
        )
    }
}

/// Whether a member is a text that has a character.
pub open spec fn has_text(block: Json, member: Seq<char>) -> bool {
    field(block, member) matches Some(Json::Text(text)) && text.len() > 0
}

/// Whether a content block of a message of this role can be sent on.
pub open spec fn is_sendable(role: Seq<char>, block: Json) -> bool {
    match text_field(block, "type"@) {
        Some(kind) => {
            ||| kind == "text"@ || kind == "thinking"@ || kind == "redacted_thinking"@
            ||| kind == "image"@ && role == "user"@ && is_image_source(field(block, "source"@))
            ||| kind == "tool_use"@ && role == "assistant"@ && has_text(block, "id"@) && has_text(
                block,
                "name"@,
            ) && (field(block, "input"@) matches Some(Json::Record(_)))
            ||| kind == "tool_result"@ && role == "user"@ && has_text(block, "tool_use_id"@)
                && is_result_content(field(block, "content"@))
        },
        None => false,
    }
}

/// A content block is accepted exactly where it can be sent on.
pub proof fn lemma_block_accepted(role: Seq<char>, block: Json)
    ensures
        block_piece(role, block) is Ok <==> is_sendable(role, block),
{
    lemma_names();
    lemma_result_text(block);
}

/// Whether every block of a message of this role can be sent on.
pub open spec fn all_sendable(role: Seq<char>, blocks: Seq<Json>) -> bool {
    forall|i: int| 0 <= i < blocks.len() ==> is_sendable(role, #[trigger] blocks[i])
}

proof fn lemma_blocks_accepted(role: Seq<char>, blocks: Seq<Json>)
    ensures
        try_all(blocks, block_of(role)) is Ok <==> all_sendable(role, blocks),
    decreases blocks.len(),
{
    if blocks.len() > 0 {
        let shorter = blocks.drop_last();
        lemma_blocks_accepted(role, shorter);
        lemma_block_accepted(role, blocks.last());
        if all_sendable(role, blocks) {
            assert forall|i: int| 0 <= i < shorter.len() implies is_sendable(
                role,
                #[trigger] shorter[i],
            ) by {
                assert(shorter[i] == blocks[i]);
            }
            assert(is_sendable(role, blocks[blocks.len() - 1]));
        }
        if try_all(blocks, block_of(role)) is Ok {
            assert forall|i: int| 0 <= i < blocks.len() implies is_sendable(
                role,
                #[trigger] blocks[i],
            ) by {
                if i < shorter.len() {
                    assert(blocks[i] == shorter[i]);
                }
            }
        }
    }
}

// ---------------------------------------------------------------------------
// Assistants
// ---------------------------------------------------------------------------

/// The blocks of a kind, in order.
pub open spec fn blocks_of(blocks: Seq<Json>, kind: Seq<char>) -> Seq<Json>
    decreases blocks.len(),
{
    if blocks.len() == 0 {
        Seq::empty()
    } else {
        let before = blocks_of(blocks.drop_last(), kind);
        if text_field(blocks.last(), "type"@) == Some(kind) {
            before.push(blocks.last())
        } else {
            before
        }
    }
}

/// Whether a tool call of a chat message is the one that a tool use block asks for.
pub open spec fn calls_for(call: Json, block: Json) -> bool {
    &&& text_field(call, "id"@) == text_field(block, "id"@)
    &&& text_field(call, "type"@) == Some("function"@)
    &&& field(call, "function"@) matches Some(function) && text_field(function, "name"@)
        == text_field(block, "name"@) && (field(block, "input"@) matches Some(input) && text_field(
        function,
        "arguments"@,
    ) == Some(printed(input)))
}

/// Whether tool calls are those that tool use blocks ask for, one for each, in order.
pub open spec fn all_called_for(made: Seq<Json>, blocks: Seq<Json>) -> bool {
    made.len() == blocks.len() && forall|i: int|
        0 <= i < made.len() ==> calls_for(#[trigger] made[i], blocks[i])
}

proof fn lemma_assistant_pieces(blocks: Seq<Json>, pieces: Seq<Piece>)
    requires
        try_all(blocks, block_of("assistant"@)) == Ok::<Seq<Piece>, Seq<char>>(pieces),
    ensures
        joined(pick(pieces, words())) == texts_of(blocks, "text"@, "text"@),
        joined(pick(pieces, thoughts())) == texts_of(blocks, "thinking"@, "thinking"@),
        pick(pieces, words()).len() == blocks_of(blocks, "text"@).len(),
        all_called_for(pick(pieces, calls()), blocks_of(blocks, "tool_use"@)),
    decreases blocks.len(),
{
    lemma_names();
    if blocks.len() > 0 {
        let shorter = blocks.drop_last();
        let block = blocks.last();
        let before = try_all(shorter, block_of("assistant"@))->Ok_0;
        let piece = block_piece("assistant"@, block)->Ok_0;
        assert(pieces == before.push(piece));
        assert(pieces.drop_last() =~= before);
        lemma_assistant_pieces(shorter, before);
        lemma_block_accepted("assistant"@, block);
        let w = pick(before, words());
        let t = pick(before, thoughts());
        match piece {
            Piece::Words(text) => {
                assert(w.push(text).drop_last() =~= w);
                assert(joined(w) + Seq::<char>::empty() =~= joined(w));
            },
            Piece::Thought(text) => {
                assert(t.push(text).drop_last() =~= t);
            },
            Piece::Call(call) => {
                let made = pick(before, calls());
                let uses = blocks_of(shorter, "tool_use"@);
                let id = text_field(block, "id"@)->Some_0;
                let name = text_field(block, "name"@)->Some_0;
                assert(call == tool_call(id, name, printed(field(block, "input"@)->Some_0)));
                assert(calls_for(call, block));
                assert forall|i: int| 0 <= i < made.push(call).len() implies calls_for(
                    #[trigger] made.push(call)[i],
                    uses.push(block)[i],
                ) by {
                    if i < made.len() {
                        assert(calls_for(made[i], uses[i]));
                    }
                }
            },
            _ => {},
        }
    }
}

/// Whether a chat message says what the content blocks of an assistant say: all their text in
/// order, all their reasoning in order, and a tool call for each tool use in order; each of them is
/// missing where there is none.
pub open spec fn says_blocks(chat: Json, blocks: Seq<Json>) -> bool {
    let thought = texts_of(blocks, "thinking"@, "thinking"@);
    &&& text_field(chat, "role"@) == Some("assistant"@)
    &&& field(chat, "content"@) == Some(
        if blocks_of(blocks, "text"@).len() == 0 {
            Json::Null
        } else {
            Json::Text(texts_of(blocks, "text"@, "text"@))
        },
    )
    &&& field(chat, "reasoning_content"@) == (if thought.len() == 0 {
        None
    } else {
        Some(Json::Text(thought))
    })
    &&& if blocks_of(blocks, "tool_use"@).len() == 0 {
        field(chat, "tool_calls"@) is None
    } else {
        list_field(chat, "tool_calls"@) matches Some(made) && all_called_for(
            made,
            blocks_of(blocks, "tool_use"@),
        )
    }
}

/// An assistant message of content blocks becomes one chat message that says what the blocks say.
/// It is accepted exactly where every block can be sent on and one of them says something.
pub proof fn lemma_assistant_says(msg: Json, blocks: Seq<Json>)
    requires
        text_field(msg, "role"@) == Some("assistant"@),
        field(msg, "content"@) == Some(Json::List(blocks)),
    ensures
        message_run(msg) matches Ok(chats) ==> chats.len() == 1 && says_blocks(chats[0], blocks),
        message_run(msg) is Ok <==> all_sendable("assistant"@, blocks) && (blocks_of(
            blocks,
            "text"@,
        ).len() > 0 || blocks_of(blocks, "tool_use"@).len() > 0 || texts_of(
            blocks,
            "thinking"@,
            "thinking"@,
        ).len() > 0),
{
    lemma_names();
    lemma_blocks_accepted("assistant"@, blocks);
    if try_all(blocks, block_of("assistant"@)) is Ok {
        let pieces = try_all(blocks, block_of("assistant"@))->Ok_0;
        lemma_assistant_pieces(blocks, pieces);
    }
}

// ---------------------------------------------------------------------------
// Users
// ---------------------------------------------------------------------------

/// Something that a user says: a text, an image, or the answer of a tool.
pub enum Said {
    Text(Seq<char>),
    Image(Seq<char>),
    Answer { id: Seq<char>, content: Seq<char> },
}

/// What one content block of a user says, if anything.
pub open spec fn said_in_block(block: Json) -> Option<Said> {
    let kind = text_field(block, "type"@);
    if kind == Some("text"@) {
        Some(Said::Text(text_or_empty(block, "text"@)))
    } else if kind == Some("image"@) {
        match field(block, "source"@) {
            Some(source) => Some(Said::Image(address_of(source))),
            None => None,
        }
    } else if kind == Some("tool_result"@) {
        let says = result_says(field(block, "content"@));
        Some(
            Said::Answer {
                id: text_or_empty(block, "tool_use_id"@),
                content: if field(block, "is_error"@) == Some(Json::Bool(true)) {
                    "Tool execution error:\n"@ + says
                } else {
                    says
                },
            },
        )
    } else {
        None
    }
}

/// What the content blocks of a user say, in order.
pub open spec fn said_in_blocks(blocks: Seq<Json>) -> Seq<Said>
    decreases blocks.len(),
{
    if blocks.len() == 0 {
        Seq::empty()
    } else {
        let before = said_in_blocks(blocks.drop_last());
        match said_in_block(blocks.last()) {
            Some(said) => before.push(said),
            None => before,
        }
    }
}

/// What a part of a user's chat message says.
pub open spec fn said_in_part(part: Json) -> Said {
    if text_field(part, "type"@) == Some("image_url"@) {
        Said::Image(
            match field(part, "image_url"@) {
                Some(target) => text_or_empty(target, "url"@),
                None => Seq::empty(),
            },
        )
    } else {
        Said::Text(text_or_empty(part, "text"@))
    }
}

/// What the parts of a user's chat message say.
pub open spec fn said_in_parts(parts: Seq<Json>) -> Seq<Said> {
    parts.map_values(|part: Json| said_in_part(part))
}

/// What a chat message says: the parts of a user's message, or the answer of a tool.
pub open spec fn said_in_chat(chat: Json) -> Seq<Said> {
    if text_field(chat, "role"@) == Some("tool"@) {
        seq![
            Said::Answer {
                id: text_or_empty(chat, "tool_call_id"@),
                content: text_or_empty(chat, "content"@),
            },
        ]
    } else {
        match field(chat, "content"@) {
            Some(Json::List(parts)) => said_in_parts(parts),
            _ => Seq::empty(),
        }
    }
}

/// What chat messages say, one after the other.
pub open spec fn said_in_chats(chats: Seq<Json>) -> Seq<Said>
    decreases chats.len(),
{
    if chats.len() == 0 {
        Seq::empty()
    } else {
        said_in_chats(chats.drop_last()) + said_in_chat(chats.last())
    }
}

/// Whether a chat message is a user's, with at least one part.
pub open spec fn is_user_chat(chat: Json) -> bool {
    text_field(chat, "role"@) == Some("user"@) && (list_field(chat, "content"@) matches Some(parts)
        && parts.len() > 0)
}

/// Whether chat messages are those of a user and answers of tools, such that no two messages of
/// the user stand side by side.
pub open spec fn well_grouped(chats: Seq<Json>) -> bool {
    &&& forall|i: int|
        0 <= i < chats.len() ==> is_user_chat(#[trigger] chats[i]) || text_field(chats[i], "role"@)
            == Some("tool"@)
    &&& forall|i: int|
        0 < i < chats.len() ==> !(is_user_chat(#[trigger] chats[i]) && is_user_chat(chats[i - 1]))
}

proof fn lemma_closed_off_says(done: Seq<Json>, parts: Seq<Json>)
    requires
        well_grouped(done),
        done.len() > 0 ==> text_field(done.last(), "role"@) == Some("tool"@),
    ensures
        said_in_chats(closed_off(done, parts)) == said_in_chats(done) + said_in_parts(parts),
        well_grouped(closed_off(done, parts)),
{
    lemma_names();
    let chat = message("user"@, Json::List(parts));
    if parts.len() == 0 {
        assert(said_in_chats(done) + said_in_parts(parts) =~= said_in_chats(done));
    } else {
        assert(done.push(chat).drop_last() =~= done);
        assert(is_user_chat(chat));
        let chats = done.push(chat);
        assert forall|i: int| 0 <= i < chats.len() implies is_user_chat(#[trigger] chats[i])
            || text_field(chats[i], "role"@) == Some("tool"@) by {
            if i < done.len() {
                assert(chats[i] == done[i]);
            }
        }
        assert forall|i: int| 0 < i < chats.len() implies !(is_user_chat(#[trigger] chats[i])
            && is_user_chat(chats[i - 1])) by {
            if i < done.len() {
                assert(chats[i] == done[i] && chats[i - 1] == done[i - 1]);
            } else {
                assert(chats[i - 1] == done.last());
            }
        }
    }
}

proof fn lemma_user_progress_says(role: Seq<char>, blocks: Seq<Json>, pieces: Seq<Piece>)
    requires
        role != "assistant"@,
        try_all(blocks, block_of(role)) == Ok::<Seq<Piece>, Seq<char>>(pieces),
    ensures
        said_in_chats(user_progress(pieces).0) + said_in_parts(user_progress(pieces).1)
            == said_in_blocks(blocks),
        well_grouped(user_progress(pieces).0),
        user_progress(pieces).0.len() > 0 ==> text_field(user_progress(pieces).0.last(), "role"@)
            == Some("tool"@),
    decreases blocks.len(),
{
    lemma_names();
    if blocks.len() > 0 {
        let shorter = blocks.drop_last();
        let block = blocks.last();
        let before = try_all(shorter, block_of(role))->Ok_0;
        let piece = block_piece(role, block)->Ok_0;
        assert(pieces == before.push(piece));
        assert(pieces.drop_last() =~= before);
        lemma_user_progress_says(role, shorter, before);
        lemma_block_accepted(role, block);
        lemma_result_text(block);
        let (done, parts) = user_progress(before);
        match piece {
            Piece::Words(text) => {
                let part = text_part(text);
                assert(said_in_part(part) == Said::Text(text));
                assert(said_in_parts(parts.push(part)) =~= said_in_parts(parts).push(
                    Said::Text(text),
                ));
                assert(said_in_chats(done) + said_in_parts(parts.push(part))
                    =~= said_in_blocks(blocks));
            },
            Piece::Picture(part) => {
                let source = field(block, "source"@)->Some_0;
                assert(said_in_part(part) == Said::Image(address_of(source)));
                assert(said_in_parts(parts.push(part)) =~= said_in_parts(parts).push(
                    said_in_part(part),
                ));
                assert(said_in_chats(done) + said_in_parts(parts.push(part))
                    =~= said_in_blocks(blocks));
            },
            Piece::Answer(answer) => {
                lemma_closed_off_says(done, parts);
                let closed = closed_off(done, parts);
                let chats = closed.push(answer);
                assert(chats.drop_last() =~= closed);
                let said = said_in_block(block)->Some_0;
                assert(said_in_chat(answer) =~= seq![said]);
                assert(said_in_chats(chats) =~= said_in_blocks(shorter).push(said));
                assert(said_in_chats(chats) + said_in_parts(Seq::<Json>::empty())
                    =~= said_in_blocks(blocks));
                assert(!is_user_chat(answer));
                assert forall|i: int| 0 <= i < chats.len() implies is_user_chat(
                    #[trigger] chats[i],
                ) || text_field(chats[i], "role"@) == Some("tool"@) by {
                    if i < closed.len() {
                        assert(chats[i] == closed[i]);
                    }
                }
                assert forall|i: int| 0 < i < chats.len() implies !(is_user_chat(
                    #[trigger] chats[i],
                ) && is_user_chat(chats[i - 1])) by {
                    if i < closed.len() {
                        assert(chats[i] == closed[i] && chats[i - 1] == closed[i - 1]);
                    }
                }
            },
            _ => {},
        }
    } else {
        assert(said_in_chats(Seq::<Json>::empty()) + said_in_parts(Seq::<Json>::empty())
            =~= Seq::<Said>::empty());
    }
}

/// A user message of content blocks becomes chat messages that say what the blocks say, in the
/// same order: every text, every image and every answer of a tool, and nothing else. Answers are
/// messages of their own; what stands between them is gathered into one message each. It is
/// accepted exactly where every block can be sent on.
pub proof fn lemma_user_says(msg: Json, blocks: Seq<Json>)
    requires
        text_field(msg, "role"@) == Some("user"@),
        field(msg, "content"@) == Some(Json::List(blocks)),
    ensures
        message_run(msg) matches Ok(chats) ==> said_in_chats(chats) == said_in_blocks(blocks)
            && well_grouped(chats),
        message_run(msg) is Ok <==> all_sendable("user"@, blocks),
{
    lemma_names();
    lemma_blocks_accepted("user"@, blocks);
    if try_all(blocks, block_of("user"@)) is Ok {
        let pieces = try_all(blocks, block_of("user"@))->Ok_0;
        lemma_user_progress_says("user"@, blocks, pieces);
        lemma_closed_off_says(user_progress(pieces).0, user_progress(pieces).1);
    }
}

// ---------------------------------------------------------------------------
// Conversations
// ---------------------------------------------------------------------------

/// A message whose content is no list of blocks goes on with its role and its content, or with the
/// empty text where it has none; a system message becomes one with the text that it says.
pub proof fn lemma_other_messages(msg: Json, role: Seq<char>)
    requires
        text_field(msg, "role"@) == Some(role),
        role == "system"@ || list_field(msg, "content"@) is None,
        role == "user"@ || role == "assistant"@ || role == "system"@,
    ensures
        role != "system"@ ==> (message_run(msg) matches Ok(chats) && chats.len() == 1
            && text_field(chats[0], "role"@) == Some(role) && field(chats[0], "content"@) == Some(
            match field(msg, "content"@) {
                Some(content) => content,
                None => Json::Text(Seq::empty()),
            },
        )),
        role == "system"@ ==> (message_run(msg) is Ok <==> (field(msg, "content"@) matches Some(
            content,
        ) && system_text(content) is Ok)),
        role == "system"@ ==> (message_run(msg) matches Ok(chats) ==> chats.len() == 1
            && text_field(chats[0], "role"@) == Some("system"@) && text_field(chats[0], "content"@)
            == Some(system_text(field(msg, "content"@)->Some_0)->Ok_0)),
{
    lemma_names();
}

/// A message without a role, or with another role than the three, is refused.
pub proof fn lemma_unknown_roles_refused(msg: Json)
    requires
        text_field(msg, "role"@) != Some("user"@),
        text_field(msg, "role"@) != Some("assistant"@),
        text_field(msg, "role"@) != Some("system"@),
    ensures
        message_run(msg) is Err,
{
}

/// A conversation of one message is that message's, one of none is empty, and a system prompt
/// comes before all the rest and changes nothing of it.
pub proof fn lemma_conversation_says(
    msg: Json,
    messages: Json,
    system: Seq<char>,
)
    ensures
        chat_messages(Json::List(seq![msg]), None) == message_run(msg),
        chat_messages(Json::List(Seq::empty()), None) == Ok::<Seq<Json>, Seq<char>>(Seq::empty()),
        !(messages is List) ==> chat_messages(messages, Some(system)) is Err && chat_messages(
            messages,
            None,
        ) is Err,
        chat_messages(messages, None) is Err ==> chat_messages(messages, Some(system))
            == chat_messages(messages, None),
        chat_messages(messages, None) matches Ok(chats) ==> (chat_messages(messages, Some(system))
            matches Ok(all) && all.len() == chats.len() + 1 && all.skip(1) == chats && text_field(
            all[0],
            "role"@,
        ) == Some("system"@) && text_field(all[0], "content"@) == Some(system)),
{
    lemma_names();
    lemma_try_all_one(msg, run());
    if message_run(msg) is Ok {
        let chats = message_run(msg)->Ok_0;
        lemma_joined_part(chats);
        assert(Seq::<Json>::empty() + chats =~= chats);
    }
    lemma_joined_part(Seq::<Json>::empty());
    lemma_try_all_one(msg, run());
    assert(Seq::<Json>::empty() + Seq::<Json>::empty() =~= Seq::<Json>::empty());
    if chat_messages(messages, None) is Ok {
        let runs = try_all(messages->List_0, run())->Ok_0;
        let chats = chat_messages(messages, None)->Ok_0;
        assert(chats =~= joined(runs));
        let all = chat_messages(messages, Some(system))->Ok_0;
        assert(all.skip(1) =~= chats);
    }
}

} // verus!
