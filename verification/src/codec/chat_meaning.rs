//! What a client reads of the Messages events that a Chat Completions stream becomes, against what
//! the stream said.
use vstd::prelude::*;
use vstd::string::*;
use vstd::utf8::*;

use crate::codec::chat::{
    absorbed, advanced, all_gathered, begun, block_ended, block_start, chat_handler, concluded,
    draft_events, draft_readings, drafts_events, empty_block, fragment, frame_taken, fresh_stream,
    gathered, grown, message_delta, message_start, message_stop, text_added, text_shown,
    usage_noted, ChatStream, Draft, OpenBlock,
};
use crate::codec::chat_laws::{lemma_no_fault, ordered};
use crate::codec::framing::{frame_of, nothing, run};
use crate::codec::framing_laws::{
    event_in, frames_in, handled, is_end, lemma_frame_kinds, lemma_frames_are_few, lemma_nothing,
    lemma_run_is_frames,
};
use crate::json::{count_in, field, integer_of, parsed, text_field, Json};
use crate::names::lemma_names;

verus! {

// ---------------------------------------------------------------------------
// The client
// ---------------------------------------------------------------------------

/// A content block as a client has read it: its kind, its text, thinking or input so far, and the
/// id and the name of a tool.
pub struct ReadBlock {
    pub kind: Seq<char>,
    pub text: Seq<char>,
    pub id: Seq<char>,
    pub name: Seq<char>,
}

/// A message as a client has read it so far. Only the last block can be open.
pub struct Reader {
    pub begun: bool,
    pub model: Seq<char>,
    pub id: Seq<char>,
    pub blocks: Seq<ReadBlock>,
    pub open: bool,
    pub stop: Option<Seq<char>>,
    pub input: u64,
    pub output: u64,
    pub ended: bool,
}

/// A client that has read nothing.
pub open spec fn new_reader() -> Reader {
    Reader {
        begun: false,
        model: Seq::empty(),
        id: Seq::empty(),
        blocks: Seq::empty(),
        open: false,
        stop: None,
        input: 0,
        output: 0,
        ended: false,
    }
}

/// The member of a value that may be missing.
pub open spec fn inside(value: Option<Json>, key: Seq<char>) -> Option<Json> {
    match value {
        Some(v) => field(v, key),
        None => None,
    }
}

/// The text of a value that may be missing, or the empty text.
pub open spec fn text_at(value: Option<Json>) -> Seq<char> {
    match value {
        Some(Json::Text(text)) => text,
        _ => Seq::empty(),
    }
}

/// The count of a value that may be missing, or 0.
pub open spec fn count_at(value: Option<Json>) -> u64 {
    match count_in(value) {
        Some(n) => n,
        None => 0,
    }
}

/// The kind of addition that goes with a kind of block, and the member that holds it.
pub open spec fn addition_to(kind: Seq<char>) -> (Seq<char>, Seq<char>) {
    if kind == "text"@ {
        ("text_delta"@, "text"@)
    } else if kind == "thinking"@ {
        ("thinking_delta"@, "thinking"@)
    } else {
        ("input_json_delta"@, "partial_json"@)
    }
}

/// The message after one more event, or `None` where the event is out of place.
pub open spec fn read(reader: Reader, event: Json) -> Option<Reader> {
    let kind = text_at(field(event, "type"@));
    let index = integer_of(field(event, "index"@));
    if reader.ended {
        None
    } else if kind == "message_start"@ {
        let message = field(event, "message"@);
        if !reader.begun && text_at(inside(message, "role"@)) == "assistant"@ && text_at(
            inside(message, "type"@),
        ) == "message"@ && inside(message, "content"@) == Some(Json::List(Seq::empty())) && inside(
            message,
            "stop_reason"@,
        ) == Some(Json::Null) && inside(message, "stop_sequence"@) == Some(Json::Null) {
            Some(
                Reader {
                    begun: true,
                    model: text_at(inside(message, "model"@)),
                    id: text_at(inside(message, "id"@)),
                    input: count_at(inside(inside(message, "usage"@), "input_tokens"@)),
                    output: count_at(inside(inside(message, "usage"@), "output_tokens"@)),
                    ..reader
                },
            )
        } else {
            None
        }
    } else if !reader.begun || reader.stop is Some && kind != "message_stop"@ {
        None
    } else if kind == "content_block_start"@ {
        let block = field(event, "content_block"@);
        let sort = text_at(inside(block, "type"@));
        if !reader.open && index == Some(reader.blocks.len() as int) && ((sort == "text"@ && inside(
            block,
            "text"@,
        ) == Some(Json::Text(Seq::empty()))) || (sort == "thinking"@ && inside(block, "thinking"@)
            == Some(Json::Text(Seq::empty()))) || (sort == "tool_use"@ && inside(block, "input"@)
            == Some(Json::Record(Map::empty())))) {
            Some(
                Reader {
                    blocks: reader.blocks.push(
                        ReadBlock {
                            kind: sort,
                            text: Seq::empty(),
                            id: text_at(inside(block, "id"@)),
                            name: text_at(inside(block, "name"@)),
                        },
                    ),
                    open: true,
                    ..reader
                },
            )
        } else {
            None
        }
    } else if kind == "content_block_delta"@ {
        let delta = field(event, "delta"@);
        let last = reader.blocks.last();
        if reader.open && index == Some(reader.blocks.len() - 1) && text_at(inside(delta, "type"@))
            == addition_to(last.kind).0 {
            Some(
                Reader {
                    blocks: reader.blocks.drop_last().push(
                        ReadBlock {
                            text: last.text + text_at(inside(delta, addition_to(last.kind).1)),
                            ..last
                        },
                    ),
                    ..reader
                },
            )
        } else {
            None
        }
    } else if kind == "content_block_stop"@ {
        if reader.open && index == Some(reader.blocks.len() - 1) {
            Some(Reader { open: false, ..reader })
        } else {
            None
        }
    } else if kind == "message_delta"@ {
        let delta = field(event, "delta"@);
        if !reader.open && inside(delta, "stop_sequence"@) == Some(Json::Null) {
            Some(
                Reader {
                    stop: Some(text_at(inside(delta, "stop_reason"@))),
                    input: count_at(inside(field(event, "usage"@), "input_tokens"@)),
                    output: count_at(inside(field(event, "usage"@), "output_tokens"@)),
                    ..reader
                },
            )
        } else {
            None
        }
    } else if kind == "message_stop"@ {
        if reader.stop is Some {
            Some(Reader { ended: true, ..reader })
        } else {
            None
        }
    } else {
        None
    }
}

/// The message after some events, or `None` where one of them is out of place.
pub open spec fn read_all(reader: Reader, events: Seq<Json>) -> Option<Reader>
    decreases events.len(),
{
    if events.len() == 0 {
        Some(reader)
    } else {
        match read_all(reader, events.drop_last()) {
            Some(before) => read(before, events.last()),
            None => None,
        }
    }
}

proof fn lemma_read_append(reader: Reader, first: Seq<Json>, second: Seq<Json>)
    ensures
        read_all(reader, first + second) == (match read_all(reader, first) {
            Some(between) => read_all(between, second),
            None => None,
        }),
    decreases second.len(),
{
    if second.len() == 0 {
        assert(first + second =~= first);
    } else {
        lemma_read_append(reader, first, second.drop_last());
        assert((first + second).drop_last() =~= first + second.drop_last());
    }
}

proof fn lemma_read_push(reader: Reader, events: Seq<Json>, event: Json)
    ensures
        read_all(reader, events.push(event)) == (match read_all(reader, events) {
            Some(between) => read(between, event),
            None => None,
        }),
        read_all(reader, seq![event]) == read(reader, event),
{
    assert(events.push(event).drop_last() =~= events);
    assert(seq![event].drop_last() =~= Seq::<Json>::empty());
    reveal_with_fuel(read_all, 2);
}

/// What the blocks of a kind say, one after the other.
pub open spec fn said(blocks: Seq<ReadBlock>, kind: Seq<char>) -> Seq<char>
    decreases blocks.len(),
{
    if blocks.len() == 0 {
        Seq::empty()
    } else if blocks.last().kind == kind {
        said(blocks.drop_last(), kind) + blocks.last().text
    } else {
        said(blocks.drop_last(), kind)
    }
}

// ---------------------------------------------------------------------------
// The stream and the client
// ---------------------------------------------------------------------------

/// The kind of an open block.
pub open spec fn kind_of(block: OpenBlock) -> Seq<char> {
    if block == OpenBlock::Thinking {
        "thinking"@
    } else {
        "text"@
    }
}

/// Whether a client has read what a stream has sent so far.
pub open spec fn agrees(stream: ChatStream, reader: Reader) -> bool {
    &&& !reader.ended && reader.stop is None
    &&& reader.begun == stream.started
    &&& stream.started ==> reader.model == stream.model && reader.id == stream.id
    &&& reader.open == (stream.block != OpenBlock::Closed)
    &&& !stream.started ==> reader == new_reader()
    &&& reader.blocks.len() == stream.next + (if reader.open {
        1int
    } else {
        0int
    })
    &&& reader.open ==> reader.blocks.last().kind == kind_of(stream.block)
    &&& forall|i: int|
        0 <= i < reader.blocks.len() ==> (#[trigger] reader.blocks[i]).kind == "text"@
            || reader.blocks[i].kind == "thinking"@
}

proof fn lemma_read_ended(stream: ChatStream, reader: Reader)
    requires
        agrees(stream, reader),
        stream.started,
        block_ended(stream).0.next < u64::MAX,
    ensures
        read_all(reader, block_ended(stream).1) == Some(Reader { open: false, ..reader }),
        agrees(block_ended(stream).0, Reader { open: false, ..reader }),
        block_ended(stream).0.next >= stream.next,
{
    lemma_names();
    if stream.block != OpenBlock::Closed {
        lemma_read_push(reader, Seq::empty(), block_ended(stream).1[0]);
    } else {
        assert(read_all(reader, Seq::<Json>::empty()) == Some(reader));
    }
}

proof fn lemma_said_push(blocks: Seq<ReadBlock>, block: ReadBlock, kind: Seq<char>)
    ensures
        said(blocks.push(block), kind) == (if block.kind == kind {
            said(blocks, kind) + block.text
        } else {
            said(blocks, kind)
        }),
{
    assert(blocks.push(block).drop_last() =~= blocks);
}

proof fn lemma_read_shown(
    stream: ChatStream,
    reader: Reader,
    block: OpenBlock,
    text: Option<Seq<char>>,
)
    requires
        agrees(stream, reader),
        stream.started,
        block != OpenBlock::Closed,
        text_shown(stream, block, text).0.next < u64::MAX,
    ensures
        ({
            let (after, events) = text_shown(stream, block, text);
            let other = if block == OpenBlock::Thinking {
                "text"@
            } else {
                "thinking"@
            };
            &&& read_all(reader, events) matches Some(next) && agrees(after, next) && said(
                next.blocks,
                kind_of(block),
            ) == said(reader.blocks, kind_of(block)) + (match text {
                Some(t) => t,
                None => Seq::empty(),
            }) && said(next.blocks, other) == said(reader.blocks, other)
            &&& after.next >= stream.next
            &&& after.started
        }),
{
    lemma_names();
    let kind = kind_of(block);
    let other = if block == OpenBlock::Thinking {
        "text"@
    } else {
        "thinking"@
    };
    match text {
        None => {
            assert(said(reader.blocks, kind) + Seq::<char>::empty() =~= said(reader.blocks, kind));
            assert(read_all(reader, Seq::<Json>::empty()) == Some(reader));
        },
        Some(text) => {
            let (ended, closing) = block_ended(stream);
            let (between, begun_reader, events) = if stream.block == block {
                (stream, reader, Seq::<Json>::empty())
            } else {
                lemma_read_ended(stream, reader);
                let closed = Reader { open: false, ..reader };
                let start = block_start(ended.next, empty_block(block));
                lemma_read_push(reader, closing, start);
                let fresh = ReadBlock {
                    kind,
                    text: Seq::empty(),
                    id: Seq::empty(),
                    name: Seq::empty(),
                };
                let opened = Reader { blocks: closed.blocks.push(fresh), open: true, ..closed };
                assert(read(closed, start) == Some(opened));
                lemma_said_push(closed.blocks, fresh, kind);
                lemma_said_push(closed.blocks, fresh, other);
                assert(said(closed.blocks, kind) + Seq::<char>::empty() =~= said(
                    closed.blocks,
                    kind,
                ));
                let stream2 = ChatStream { block, ..ended };
                assert forall|i: int| 0 <= i < opened.blocks.len() implies (
                #[trigger] opened.blocks[i]).kind == "text"@ || opened.blocks[i].kind
                    == "thinking"@ by {
                    if i < reader.blocks.len() {
                        assert(opened.blocks[i] == reader.blocks[i]);
                    }
                }
                assert(agrees(stream2, opened));
                (stream2, opened, closing.push(start))
            };
            assert(read_all(reader, events) == Some(begun_reader));
            assert(agrees(between, begun_reader));
            let added = text_added(between.next, block, text);
            lemma_read_push(reader, events, added);
            let last = begun_reader.blocks.last();
            let grown_block = ReadBlock { text: last.text + text, ..last };
            let front = begun_reader.blocks.drop_last();
            let next = Reader { blocks: front.push(grown_block), ..begun_reader };
            assert(read(begun_reader, added) == Some(next));
            lemma_said_push(front, grown_block, kind);
            lemma_said_push(front, grown_block, other);
            assert(said(front, kind) + (last.text + text) =~= said(front, kind) + last.text + text);
            assert forall|i: int| 0 <= i < next.blocks.len() implies (#[trigger] next.blocks[i]).kind
                == "text"@ || next.blocks[i].kind == "thinking"@ by {
                assert(begun_reader.blocks[i].kind == "text"@ || begun_reader.blocks[i].kind
                    == "thinking"@);
            }
            if stream.block == block {
                assert(events.push(added) =~= seq![added]);
            }
        },
    }
}

/// The text under a member of the delta of a chunk's first choice.
pub open spec fn delta_text(chunk: Json, member: Seq<char>) -> Seq<char> {
    match field(chunk, "choices"@) {
        Some(Json::List(choices)) => if choices.len() > 0 {
            text_at(inside(field(choices[0], "delta"@), member))
        } else {
            Seq::empty()
        },
        _ => Seq::empty(),
    }
}

proof fn lemma_read_absorbed(stream: ChatStream, reader: Reader, chunk: Json)
    requires
        agrees(stream, reader),
        absorbed(stream, chunk).0.next < u64::MAX,
    ensures
        ({
            let (after, events) = absorbed(stream, chunk);
            &&& read_all(reader, events) matches Some(next) && agrees(after, next) && said(
                next.blocks,
                "text"@,
            ) == said(reader.blocks, "text"@) + delta_text(chunk, "content"@) && said(
                next.blocks,
                "thinking"@,
            ) == said(reader.blocks, "thinking"@) + delta_text(chunk, "reasoning_content"@)
            &&& after.next >= stream.next
            &&& after.started
        }),
{
    lemma_names();
    let noted = usage_noted(stream, chunk);
    let (s1, e1) = begun(noted);
    let choice = crate::chat::first_choice(chunk);
    let delta = crate::chat::field_of(choice, "delta"@);
    let thought = crate::json::filled(
        crate::json::text_in(crate::chat::field_of(delta, "reasoning_content"@)),
    );
    let content = crate::json::filled(
        crate::json::text_in(crate::chat::field_of(delta, "content"@)),
    );
    let (s2, e2) = text_shown(s1, OpenBlock::Thinking, thought);
    let (s3, e3) = text_shown(s2, OpenBlock::Text, content);
    let r1 = if stream.started {
        reader
    } else {
        let start = message_start(noted.model, noted.id, noted.input);
        lemma_read_push(reader, Seq::empty(), start);
        Reader {
            begun: true,
            model: noted.model,
            id: noted.id,
            input: noted.input,
            output: 0,
            ..reader
        }
    };
    if stream.started {
        assert(read_all(reader, Seq::<Json>::empty()) == Some(reader));
    }
    assert(read_all(reader, e1) == Some(r1));
    assert(agrees(s1, r1));
    assert(s3.next < u64::MAX);
    // The index never falls, so it is below the largest one all along.
    lemma_shown_grows(s1, OpenBlock::Thinking, thought);
    lemma_shown_grows(s2, OpenBlock::Text, content);
    lemma_read_shown(s1, r1, OpenBlock::Thinking, thought);
    let r2 = read_all(r1, e2)->Some_0;
    lemma_read_shown(s2, r2, OpenBlock::Text, content);
    let r3 = read_all(r2, e3)->Some_0;
    lemma_read_append(reader, e1, e2);
    lemma_read_append(reader, e1 + e2, e3);
    assert(delta_text(chunk, "content"@) == (match content {
        Some(t) => t,
        None => Seq::empty(),
    })) by {
        lemma_filled_delta(chunk, "content"@);
    }
    assert(delta_text(chunk, "reasoning_content"@) == (match thought {
        Some(t) => t,
        None => Seq::empty(),
    })) by {
        lemma_filled_delta(chunk, "reasoning_content"@);
    }
    let (after, events) = absorbed(stream, chunk);
    assert(agrees(after, r3));
}

proof fn lemma_filled_delta(chunk: Json, member: Seq<char>)
    ensures
        delta_text(chunk, member) == (match crate::json::filled(
            crate::json::text_in(
                crate::chat::field_of(
                    crate::chat::field_of(crate::chat::first_choice(chunk), "delta"@),
                    member,
                ),
            ),
        ) {
            Some(t) => t,
            None => Seq::empty(),
        }),
{
    let text = crate::json::text_in(
        crate::chat::field_of(
            crate::chat::field_of(crate::chat::first_choice(chunk), "delta"@),
            member,
        ),
    );
    if text is Some && text->Some_0.len() == 0 {
        assert(text->Some_0 =~= Seq::<char>::empty());
    }
}

proof fn lemma_shown_grows(stream: ChatStream, block: OpenBlock, text: Option<Seq<char>>)
    ensures
        text_shown(stream, block, text).0.next >= stream.next,
        text_shown(stream, block, text).0.started == stream.started,
{
}

/// Whether an event adds a text to a block of a kind, which is the one at an index.
pub open spec fn adds(event: Json, index: u64, kind: Seq<char>, text: Seq<char>) -> bool {
    &&& field(event, "type"@) == Some(Json::Text("content_block_delta"@))
    &&& integer_of(field(event, "index"@)) == Some(index as int)
    &&& inside(field(event, "delta"@), "type"@) == Some(Json::Text(addition_to(kind).0))
    &&& inside(field(event, "delta"@), addition_to(kind).1) == Some(Json::Text(text))
}

/// Whether an event begins a block of a kind at an index.
pub open spec fn begins(event: Json, index: u64, kind: Seq<char>) -> bool {
    &&& field(event, "type"@) == Some(Json::Text("content_block_start"@))
    &&& integer_of(field(event, "index"@)) == Some(index as int)
    &&& inside(field(event, "content_block"@), "type"@) == Some(Json::Text(kind))
}

proof fn lemma_shown_is_sent(stream: ChatStream, block: OpenBlock, text: Seq<char>)
    requires
        block != OpenBlock::Closed,
    ensures
        ({
            let (after, events) = text_shown(stream, block, Some(text));
            &&& events.len() > 0
            &&& after.block == block
            &&& adds(events.last(), after.next, kind_of(block), text)
            &&& stream.block == block || (events.len() > 1 && begins(
                events[events.len() - 2],
                after.next,
                kind_of(block),
            ))
        }),
{
    lemma_names();
}

/// Whatever a stream has sent before, the content of a chunk is sent at once, all of it, as an
/// addition to the text block that is then open; it has been begun just before where the block was
/// not open yet.
pub proof fn lemma_content_is_sent(stream: ChatStream, chunk: Json)
    requires
        !stream.finished,
        delta_text(chunk, "content"@).len() > 0,
    ensures
        ({
            let (after, events) = absorbed(stream, chunk);
            &&& events.len() > 0
            &&& after.block == OpenBlock::Text
            &&& adds(events.last(), after.next, "text"@, delta_text(chunk, "content"@))
            &&& stream.block != OpenBlock::Text ==> events.len() > 1 && begins(
                events[events.len() - 2],
                after.next,
                "text"@,
            )
        }),
{
    lemma_names();
    lemma_filled_delta(chunk, "content"@);
    let (s1, e1) = begun(usage_noted(stream, chunk));
    let choice = crate::chat::first_choice(chunk);
    let delta = crate::chat::field_of(choice, "delta"@);
    let thought = crate::json::filled(
        crate::json::text_in(crate::chat::field_of(delta, "reasoning_content"@)),
    );
    let (s2, e2) = text_shown(s1, OpenBlock::Thinking, thought);
    let text = delta_text(chunk, "content"@);
    let (s3, e3) = text_shown(s2, OpenBlock::Text, Some(text));
    lemma_shown_is_sent(s2, OpenBlock::Text, text);
    let events = absorbed(stream, chunk).1;
    assert(events == e1 + e2 + e3);
    assert(events.last() == e3.last());
    if stream.block != OpenBlock::Text {
        assert(s2.block != OpenBlock::Text);
        assert(events[events.len() - 2] == e3[e3.len() - 2]);
    }
}

/// Whatever a stream has sent before, the reasoning of a chunk is sent at once, all of it, as an
/// addition to a thinking block.
pub proof fn lemma_reasoning_is_sent(stream: ChatStream, chunk: Json)
    requires
        !stream.finished,
        delta_text(chunk, "reasoning_content"@).len() > 0,
    ensures
        exists|i: int, index: u64|
            0 <= i < absorbed(stream, chunk).1.len() && #[trigger] adds(
                absorbed(stream, chunk).1[i],
                index,
                "thinking"@,
                delta_text(chunk, "reasoning_content"@),
            ) && (stream.block == OpenBlock::Thinking || (i > 0 && begins(
                absorbed(stream, chunk).1[i - 1],
                index,
                "thinking"@,
            ))),
{
    lemma_names();
    lemma_filled_delta(chunk, "reasoning_content"@);
    let (s1, e1) = begun(usage_noted(stream, chunk));
    let choice = crate::chat::first_choice(chunk);
    let delta = crate::chat::field_of(choice, "delta"@);
    let content = crate::json::filled(
        crate::json::text_in(crate::chat::field_of(delta, "content"@)),
    );
    let text = delta_text(chunk, "reasoning_content"@);
    let (s2, e2) = text_shown(s1, OpenBlock::Thinking, Some(text));
    let (s3, e3) = text_shown(s2, OpenBlock::Text, content);
    lemma_shown_is_sent(s1, OpenBlock::Thinking, text);
    let events = absorbed(stream, chunk).1;
    assert(events == e1 + e2 + e3);
    let i = e1.len() + e2.len() - 1;
    assert(events[i] == e2.last());
    assert(adds(events[i], s2.next, "thinking"@, text));
    if stream.block != OpenBlock::Thinking {
        assert(events[i - 1] == e2[e2.len() - 2]);
    }
}

// ---------------------------------------------------------------------------
// Whole streams
// ---------------------------------------------------------------------------

/// The texts under a member of the deltas in all frames, one after the other.
pub open spec fn delta_texts(frames: Seq<Seq<u8>>, member: Seq<char>) -> Seq<char>
    decreases frames.len(),
{
    if frames.len() == 0 {
        Seq::empty()
    } else {
        let before = delta_texts(frames.drop_last(), member);
        match event_in(frames.last()) {
            Some(chunk) => before + delta_text(chunk, member),
            None => before,
        }
    }
}

/// Why the first choice of a chunk finished, where it says so.
pub open spec fn finish_in(chunk: Json) -> Option<Seq<char>> {
    match field(chunk, "choices"@) {
        Some(Json::List(choices)) => if choices.len() > 0 {
            text_field(choices[0], "finish_reason"@)
        } else {
            None
        },
        _ => None,
    }
}

/// The last reason to finish in all frames.
pub open spec fn last_finish(frames: Seq<Seq<u8>>) -> Option<Seq<char>>
    decreases frames.len(),
{
    if frames.len() == 0 {
        None
    } else {
        match event_in(frames.last()) {
            Some(chunk) => match finish_in(chunk) {
                Some(reason) => Some(reason),
                None => last_finish(frames.drop_last()),
            },
            None => last_finish(frames.drop_last()),
        }
    }
}

/// The last token count of a key in all frames, or 0.
pub open spec fn last_count(frames: Seq<Seq<u8>>, key: Seq<char>) -> u64
    decreases frames.len(),
{
    if frames.len() == 0 {
        0
    } else {
        match event_in(frames.last()) {
            Some(chunk) => match count_in(inside(field(chunk, "usage"@), key)) {
                Some(n) => n,
                None => last_count(frames.drop_last(), key),
            },
            None => last_count(frames.drop_last(), key),
        }
    }
}

/// A part of a tool call in a delta.
pub struct Part {
    pub index: u64,
    pub id: Seq<char>,
    pub name: Seq<char>,
    pub arguments: Seq<char>,
}

/// The part that an element of a delta's tool calls is. Without an index its place counts.
pub open spec fn part_of(call: Json, position: u64) -> Part {
    Part {
        index: match count_in(field(call, "index"@)) {
            Some(n) => n,
            None => position,
        },
        id: text_at(field(call, "id"@)),
        name: text_at(inside(field(call, "function"@), "name"@)),
        arguments: text_at(inside(field(call, "function"@), "arguments"@)),
    }
}

/// The parts of tool calls in a chunk.
pub open spec fn parts_in(chunk: Json) -> Seq<Part> {
    let calls = match field(chunk, "choices"@) {
        Some(Json::List(choices)) => if choices.len() > 0 {
            match inside(field(choices[0], "delta"@), "tool_calls"@) {
                Some(Json::List(calls)) => calls,
                _ => Seq::empty(),
            }
        } else {
            Seq::empty()
        },
        _ => Seq::empty(),
    };
    Seq::new(calls.len(), |i: int| part_of(calls[i], i as u64))
}

/// The parts of tool calls in all frames, in order.
pub open spec fn all_parts(frames: Seq<Seq<u8>>) -> Seq<Part>
    decreases frames.len(),
{
    if frames.len() == 0 {
        Seq::empty()
    } else {
        match event_in(frames.last()) {
            Some(chunk) => all_parts(frames.drop_last()) + parts_in(chunk),
            None => all_parts(frames.drop_last()),
        }
    }
}

/// Whether one of the parts has an index.
pub open spec fn occurs(parts: Seq<Part>, index: u64) -> bool {
    exists|i: int| 0 <= i < parts.len() && (#[trigger] parts[i]).index == index
}

/// The arguments in all parts of an index, one after the other.
pub open spec fn arguments_of(parts: Seq<Part>, index: u64) -> Seq<char>
    decreases parts.len(),
{
    if parts.len() == 0 {
        Seq::empty()
    } else if parts.last().index == index {
        arguments_of(parts.drop_last(), index) + parts.last().arguments
    } else {
        arguments_of(parts.drop_last(), index)
    }
}

/// The last id in the parts of an index that is not empty.
pub open spec fn id_of(parts: Seq<Part>, index: u64) -> Seq<char>
    decreases parts.len(),
{
    if parts.len() == 0 {
        Seq::empty()
    } else if parts.last().index == index && parts.last().id.len() > 0 {
        parts.last().id
    } else {
        id_of(parts.drop_last(), index)
    }
}

/// The last name in the parts of an index that is not empty.
pub open spec fn name_of(parts: Seq<Part>, index: u64) -> Seq<char>
    decreases parts.len(),
{
    if parts.len() == 0 {
        Seq::empty()
    } else if parts.last().index == index && parts.last().name.len() > 0 {
        parts.last().name
    } else {
        name_of(parts.drop_last(), index)
    }
}

spec fn find(drafts: Seq<Draft>, index: u64) -> Option<Draft>
    decreases drafts.len(),
{
    if drafts.len() == 0 {
        None
    } else if drafts.last().index == index {
        Some(drafts.last())
    } else {
        find(drafts.drop_last(), index)
    }
}

proof fn lemma_ordered_shorter(drafts: Seq<Draft>)
    requires
        ordered(drafts),
        drafts.len() > 0,
    ensures
        ordered(drafts.drop_last()),
{
    let shorter = drafts.drop_last();
    assert forall|i: int, j: int| 0 <= i < j < shorter.len() implies (#[trigger] shorter[i]).index
        < (#[trigger] shorter[j]).index by {
        assert(drafts[i].index < drafts[j].index);
    }
}

proof fn lemma_find(drafts: Seq<Draft>, index: u64)
    requires
        ordered(drafts),
    ensures
        find(drafts, index) matches Some(draft) ==> draft.index == index && exists|i: int|
            0 <= i < drafts.len() && #[trigger] drafts[i] == draft,
        forall|i: int|
            0 <= i < drafts.len() && (#[trigger] drafts[i]).index == index ==> find(drafts, index)
                == Some(drafts[i]),
        drafts.len() > 0 && drafts.last().index < index ==> find(drafts, index) is None,
    decreases drafts.len(),
{
    if drafts.len() > 0 {
        let shorter = drafts.drop_last();
        let last = drafts.len() - 1;
        lemma_ordered_shorter(drafts);
        lemma_find(shorter, index);
        if find(drafts, index) is Some {
            let draft = find(drafts, index)->Some_0;
            if drafts.last().index == index {
                assert(drafts[last] == draft);
            } else {
                let i = choose|i: int| 0 <= i < shorter.len() && #[trigger] shorter[i] == draft;
                assert(drafts[i] == draft);
                assert(drafts[i].index < drafts[last].index);
            }
        }
        assert forall|i: int| 0 <= i < drafts.len() && (#[trigger] drafts[i]).index
            == index implies find(drafts, index) == Some(drafts[i]) by {
            if i < last {
                assert(shorter[i] == drafts[i]);
                assert(drafts[i].index < drafts[last].index);
            }
        }
    }
}

proof fn lemma_find_gathered(drafts: Seq<Draft>, part: Draft, index: u64)
    requires
        ordered(drafts),
    ensures
        find(gathered(drafts, part), index) == (if index == part.index {
            match find(drafts, index) {
                Some(draft) => Some(grown(draft, part)),
                None => Some(part),
            }
        } else {
            find(drafts, index)
        }),
    decreases drafts.len(),
{
    reveal_with_fuel(find, 2);
    let after = gathered(drafts, part);
    if drafts.len() == 0 {
        assert(after.drop_last() =~= Seq::<Draft>::empty());
    } else {
        let shorter = drafts.drop_last();
        lemma_ordered_shorter(drafts);
        lemma_find(drafts, part.index);
        if drafts.last().index < part.index {
            assert(after.drop_last() =~= drafts);
        } else if drafts.last().index == part.index {
            assert(after.drop_last() =~= shorter);
        } else {
            lemma_find_gathered(shorter, part, index);
            assert(after.drop_last() =~= gathered(shorter, part));
        }
    }
}

proof fn lemma_gathered_len(drafts: Seq<Draft>, part: Draft)
    ensures
        gathered(drafts, part).len() <= drafts.len() + 1,
    decreases drafts.len(),
{
    if drafts.len() > 0 {
        lemma_gathered_len(drafts.drop_last(), part);
    }
}

spec fn as_draft(part: Part) -> Draft {
    Draft { index: part.index, id: part.id, name: part.name, arguments: part.arguments }
}

// Whether the drafts are what the parts come to.
spec fn come_to(parts: Seq<Part>, drafts: Seq<Draft>) -> bool {
    &&& ordered(drafts)
    &&& drafts.len() <= parts.len()
    &&& forall|index: u64|
        #[trigger] find(drafts, index) == (if occurs(parts, index) {
            Some(
                Draft {
                    index,
                    id: id_of(parts, index),
                    name: name_of(parts, index),
                    arguments: arguments_of(parts, index),
                },
            )
        } else {
            None
        })
}

proof fn lemma_none_of(parts: Seq<Part>, index: u64)
    requires
        !occurs(parts, index),
    ensures
        id_of(parts, index) == Seq::<char>::empty(),
        name_of(parts, index) == Seq::<char>::empty(),
        arguments_of(parts, index) == Seq::<char>::empty(),
    decreases parts.len(),
{
    if parts.len() > 0 {
        assert(parts[parts.len() - 1].index != index);
        if occurs(parts.drop_last(), index) {
            let i = choose|i: int|
                0 <= i < parts.drop_last().len() && (#[trigger] parts.drop_last()[i]).index
                    == index;
            assert(parts[i].index == index);
        }
        lemma_none_of(parts.drop_last(), index);
    }
}

proof fn lemma_one_part(parts: Seq<Part>, drafts: Seq<Draft>, part: Part)
    requires
        come_to(parts, drafts),
    ensures
        come_to(parts.push(part), gathered(drafts, as_draft(part))),
{
    let more = parts.push(part);
    assert(more.drop_last() =~= parts);
    crate::codec::chat_laws::lemma_gathered_ordered(drafts, as_draft(part));
    let after = gathered(drafts, as_draft(part));
    lemma_gathered_len(drafts, as_draft(part));
    assert forall|index: u64| #[trigger] find(after, index) == (if occurs(more, index) {
        Some(
            Draft {
                index,
                id: id_of(more, index),
                name: name_of(more, index),
                arguments: arguments_of(more, index),
            },
        )
    } else {
        None
    }) by {
        lemma_find_gathered(drafts, as_draft(part), index);
        assert(find(drafts, index) == find(drafts, index));
        if occurs(parts, index) {
            let i = choose|i: int| 0 <= i < parts.len() && (#[trigger] parts[i]).index == index;
            assert(more[i].index == index);
        } else {
            lemma_none_of(parts, index);
        }
        if part.index == index {
            assert(more[parts.len() as int].index == index);
            if !occurs(parts, index) {
                assert(Seq::<char>::empty() + part.arguments =~= part.arguments);
                if part.id.len() == 0 {
                    assert(part.id =~= Seq::<char>::empty());
                }
                if part.name.len() == 0 {
                    assert(part.name =~= Seq::<char>::empty());
                }
            }
        } else if occurs(more, index) {
            let i = choose|i: int| 0 <= i < more.len() && (#[trigger] more[i]).index == index;
            assert(parts[i].index == index);
        }
    }
}

proof fn lemma_more_parts(parts: Seq<Part>, drafts: Seq<Draft>, calls: Seq<Json>)
    requires
        come_to(parts, drafts),
    ensures
        come_to(
            parts + Seq::new(calls.len(), |i: int| part_of(calls[i], i as u64)),
            all_gathered(drafts, calls),
        ),
    decreases calls.len(),
{
    let new = Seq::new(calls.len(), |i: int| part_of(calls[i], i as u64));
    if calls.len() == 0 {
        assert(parts + new =~= parts);
    } else {
        let shorter = calls.drop_last();
        let before = Seq::new(shorter.len(), |i: int| part_of(shorter[i], i as u64));
        lemma_more_parts(parts, drafts, shorter);
        let last = part_of(calls.last(), (calls.len() - 1) as u64);
        assert(as_draft(last) == fragment(calls.last(), (calls.len() - 1) as u64));
        lemma_one_part(parts + before, all_gathered(drafts, shorter), last);
        assert((parts + before).push(last) =~= parts + new);
    }
}

/// Whether one of the tool calls of a stream has an index.
pub open spec fn has_index(drafts: Seq<Draft>, index: u64) -> bool {
    exists|i: int| 0 <= i < drafts.len() && (#[trigger] drafts[i]).index == index
}

/// Whether the tool calls of a stream are those of the parts: in the order of their indices, each
/// index of a part once and no other; and of each index all the arguments, one after the other, and
/// the last id and name.
pub open spec fn is_gathered_from(drafts: Seq<Draft>, parts: Seq<Part>) -> bool {
    &&& forall|i: int, j: int|
        0 <= i < j < drafts.len() ==> (#[trigger] drafts[i]).index < (#[trigger] drafts[j]).index
    &&& forall|i: int|
        0 <= i < drafts.len() ==> {
            let draft = #[trigger] drafts[i];
            &&& occurs(parts, draft.index)
            &&& draft.arguments == arguments_of(parts, draft.index)
            &&& draft.id == id_of(parts, draft.index)
            &&& draft.name == name_of(parts, draft.index)
        }
    &&& forall|k: int|
        0 <= k < parts.len() ==> has_index(drafts, (#[trigger] parts[k]).index)
}

proof fn lemma_gathered_from(parts: Seq<Part>, drafts: Seq<Draft>)
    requires
        come_to(parts, drafts),
    ensures
        is_gathered_from(drafts, parts),
{
    assert forall|i: int| 0 <= i < drafts.len() implies {
        let draft = #[trigger] drafts[i];
        &&& occurs(parts, draft.index)
        &&& draft.arguments == arguments_of(parts, draft.index)
        &&& draft.id == id_of(parts, draft.index)
        &&& draft.name == name_of(parts, draft.index)
    } by {
        lemma_find(drafts, drafts[i].index);
        assert(find(drafts, drafts[i].index) == Some(drafts[i]));
    }
    assert forall|k: int| 0 <= k < parts.len() implies has_index(
        drafts,
        (#[trigger] parts[k]).index,
    ) by {
        let index = parts[k].index;
        assert(occurs(parts, index));
        assert(find(drafts, index) is Some);
        lemma_find(drafts, index);
        let draft = find(drafts, index)->Some_0;
        let i = choose|i: int| 0 <= i < drafts.len() && #[trigger] drafts[i] == draft;
        assert(drafts[i].index == parts[k].index);
    }
}

/// Whether a stream and its client stand where some frames bring them.
pub open spec fn is_at(stream: ChatStream, frames: Seq<Seq<u8>>) -> bool {
    &&& stream.finish == last_finish(frames)
    &&& stream.input == last_count(frames, "prompt_tokens"@)
    &&& stream.output == last_count(frames, "completion_tokens"@)
    &&& is_gathered_from(stream.drafts, all_parts(frames))
    &&& stream.started == exists|i: int|
        0 <= i < frames.len() && event_in(#[trigger] frames[i]) is Some
}

/// Whether a client has read all that some frames say.
pub open spec fn has_read(reader: Reader, frames: Seq<Seq<u8>>) -> bool {
    &&& said(reader.blocks, "text"@) == delta_texts(frames, "content"@)
    &&& said(reader.blocks, "thinking"@) == delta_texts(frames, "reasoning_content"@)
}

proof fn lemma_handled(model: Seq<char>, id: Seq<char>, frames: Seq<Seq<u8>>)
    requires
        handled(chat_handler(), fresh_stream(model, id), frames).1 is Ok,
        2 * frames.len() < u64::MAX,
    ensures
        ({
            let (stream, events) = handled(chat_handler(), fresh_stream(model, id), frames);
            &&& stream.next <= 2 * frames.len()
            &&& stream.drafts.len() <= all_parts(frames).len()
            &&& read_all(new_reader(), events->Ok_0) matches Some(reader) && agrees(stream, reader)
                && has_read(reader, frames)
            &&& stream.finish == last_finish(frames)
            &&& stream.input == last_count(frames, "prompt_tokens"@)
            &&& stream.output == last_count(frames, "completion_tokens"@)
            &&& come_to(all_parts(frames), stream.drafts)
            &&& stream.started == exists|i: int|
                0 <= i < frames.len() && event_in(#[trigger] frames[i]) is Some
            &&& !stream.finished && stream.model == model && stream.id == id
        }),
    decreases frames.len(),
{
    lemma_names();
    let fresh = fresh_stream(model, id);
    if frames.len() == 0 {
        assert(come_to(Seq::<Part>::empty(), Seq::<Draft>::empty()));
        assert(agrees(fresh, new_reader()));
    } else {
        let shorter = frames.drop_last();
        let (at, done) = handled(chat_handler(), fresh, shorter);
        let data = frames.last();
        let (next, more) = frame_taken(at, frame_of(data));
        lemma_frame_kinds(data);
        lemma_frame_grows(at, data);
        lemma_handled(model, id, shorter);
        let reader = read_all(new_reader(), done->Ok_0)->Some_0;
        lemma_read_append(new_reader(), done->Ok_0, more->Ok_0);
        assert(stream_has_event(frames) == (stream_has_event(shorter) || event_in(data) is Some))
            by {
            if stream_has_event(shorter) {
                let i = choose|i: int|
                    0 <= i < shorter.len() && event_in(#[trigger] shorter[i]) is Some;
                assert(event_in(frames[i]) is Some);
            }
            if event_in(data) is Some {
                assert(event_in(frames[frames.len() - 1]) is Some);
            }
            if stream_has_event(frames) && event_in(data) is None {
                let i = choose|i: int|
                    0 <= i < frames.len() && event_in(#[trigger] frames[i]) is Some;
                assert(event_in(shorter[i]) is Some);
            }
        }
        match event_in(data) {
            Some(chunk) => {
                lemma_read_absorbed(at, reader, chunk);
                let calls = match field(chunk, "choices"@) {
                    Some(Json::List(choices)) => if choices.len() > 0 {
                        match inside(field(choices[0], "delta"@), "tool_calls"@) {
                            Some(Json::List(calls)) => calls,
                            _ => Seq::empty(),
                        }
                    } else {
                        Seq::empty()
                    },
                    _ => Seq::empty(),
                };
                lemma_more_parts(all_parts(shorter), at.drafts, calls);
                lemma_shown_keeps(at, chunk);
                assert(next.drafts == all_gathered(at.drafts, calls));
            },
            None => {
                assert(more->Ok_0 =~= Seq::<Json>::empty());
                assert(read_all(reader, Seq::<Json>::empty()) == Some(reader));
            },
        }
    }
}

spec fn stream_has_event(frames: Seq<Seq<u8>>) -> bool {
    exists|i: int| 0 <= i < frames.len() && event_in(#[trigger] frames[i]) is Some
}

proof fn lemma_frame_grows(stream: ChatStream, data: Seq<u8>)
    ensures
        stream.next <= frame_taken(stream, frame_of(data)).0.next <= stream.next + 2,
{
}

proof fn lemma_shown_keeps(stream: ChatStream, chunk: Json)
    ensures
        ({
            let after = absorbed(stream, chunk).0;
            &&& after.finished == stream.finished
            &&& after.model == stream.model && after.id == stream.id
            &&& after.finish == (match finish_in(chunk) {
                Some(reason) => Some(reason),
                None => stream.finish,
            })
            &&& after.input == (match count_in(inside(field(chunk, "usage"@), "prompt_tokens"@)) {
                Some(n) => n,
                None => stream.input,
            })
            &&& after.output == (match count_in(
                inside(field(chunk, "usage"@), "completion_tokens"@),
            ) {
                Some(n) => n,
                None => stream.output,
            })
        }),
{
}

/// However a chat stream is cut, a client that reads its events finds none out of place. The text
/// that it has read is the content of all chunks, and the thinking their reasoning content, all of
/// it, in order and nothing else; the message names the model and the id that the decoder was made
/// with. The tool calls, the reason to finish and the token counts that wait for the end are those
/// of the chunks.
pub proof fn lemma_stream_is_read(model: Seq<char>, id: Seq<char>, bytes: Seq<u8>)
    ensures
        ({
            let (pending, stream, events) = run(
                chat_handler(),
                nothing(),
                fresh_stream(model, id),
                bytes,
            );
            let frames = frames_in(nothing(), bytes).1;
            events is Ok && bytes.len() < u64::MAX ==> {
                &&& read_all(new_reader(), events->Ok_0) matches Some(reader) && agrees(
                    stream,
                    reader,
                ) && has_read(reader, frames)
                &&& is_at(stream, frames)
                &&& stream.model == model && stream.id == id && !stream.finished
            }
        }),
{
    let frames = frames_in(nothing(), bytes).1;
    let fresh = fresh_stream(model, id);
    lemma_run_is_frames(chat_handler(), nothing(), fresh, bytes);
    let (pending, stream, events) = run(chat_handler(), nothing(), fresh, bytes);
    if events is Ok && bytes.len() < u64::MAX {
        lemma_nothing();
        lemma_frames_are_few(None, bytes);
        lemma_handled(model, id, frames);
        lemma_gathered_from(all_parts(frames), stream.drafts);
    }
}

/// A chat stream is refused exactly where one of its frames is neither an event nor the mark that
/// ends a stream, and then as an unknown event.
pub proof fn lemma_stream_refused(model: Seq<char>, id: Seq<char>, bytes: Seq<u8>)
    ensures
        ({
            let events = run(chat_handler(), nothing(), fresh_stream(model, id), bytes).2;
            let frames = frames_in(nothing(), bytes).1;
            &&& events is Err <==> exists|i: int|
                0 <= i < frames.len() && !is_end(#[trigger] frames[i]) && event_in(frames[i])
                    is None
            &&& events matches Err(refused) ==> refused.features == seq![
                "unsupported_feature.unknown_event"@,
            ]
        }),
{
    let frames = frames_in(nothing(), bytes).1;
    let fresh = fresh_stream(model, id);
    lemma_run_is_frames(chat_handler(), nothing(), fresh, bytes);
    lemma_frames_refused(fresh, frames);
}

spec fn has_bad_frame(frames: Seq<Seq<u8>>) -> bool {
    exists|i: int|
        0 <= i < frames.len() && !is_end(#[trigger] frames[i]) && event_in(frames[i]) is None
}

proof fn lemma_frames_refused(stream: ChatStream, frames: Seq<Seq<u8>>)
    requires
        !stream.finished,
    ensures
        handled(chat_handler(), stream, frames).1 is Err <==> has_bad_frame(frames),
        handled(chat_handler(), stream, frames).1 matches Err(refused) ==> refused.features == seq![
            "unsupported_feature.unknown_event"@,
        ],
        !handled(chat_handler(), stream, frames).0.finished,
    decreases frames.len(),
{
    if frames.len() > 0 {
        let shorter = frames.drop_last();
        let data = frames.last();
        lemma_frames_refused(stream, shorter);
        lemma_frame_kinds(data);
        if has_bad_frame(shorter) {
            let i = choose|i: int|
                0 <= i < shorter.len() && !is_end(#[trigger] shorter[i]) && event_in(shorter[i])
                    is None;
            assert(!is_end(frames[i]) && event_in(frames[i]) is None);
        }
        if !is_end(data) && event_in(data) is None {
            assert(!is_end(frames[frames.len() - 1]) && event_in(frames[frames.len() - 1])
                is None);
        }
        if has_bad_frame(frames) {
            let i = choose|i: int|
                0 <= i < frames.len() && !is_end(#[trigger] frames[i]) && event_in(frames[i])
                    is None;
            if i < shorter.len() {
                assert(!is_end(shorter[i]) && event_in(shorter[i]) is None);
            }
        }
        let at = handled(chat_handler(), stream, shorter).0;
        if event_in(data) is Some {
            lemma_shown_keeps(at, event_in(data)->Some_0);
        }
    }
}

// ---------------------------------------------------------------------------
// The end
// ---------------------------------------------------------------------------

/// Why a message stopped, for the reasons to finish that are known.
pub open spec fn stop_for(finish: Option<Seq<char>>, called: bool) -> Option<Seq<char>> {
    if finish == Some("stop"@) {
        Some("end_turn"@)
    } else if finish == Some("length"@) {
        Some("max_tokens"@)
    } else if finish == Some("tool_calls"@) || (finish is None && called) {
        Some("tool_use"@)
    } else if finish == Some("content_filter"@) {
        Some("refusal"@)
    } else {
        None
    }
}

/// The block that a client reads of a tool call.
pub open spec fn tool_block(draft: Draft) -> ReadBlock {
    ReadBlock { kind: "tool_use"@, text: draft.arguments, id: draft.id, name: draft.name }
}

proof fn lemma_read_tool(reader: Reader, draft: Draft, index: u64)
    requires
        reader.begun && !reader.ended && reader.stop is None && !reader.open,
        reader.blocks.len() == index,
    ensures
        read_all(reader, draft_events(draft, index)) == Some(
            Reader { blocks: reader.blocks.push(tool_block(draft)), ..reader },
        ),
{
    lemma_names();
    let events = draft_events(draft, index);
    let none = Seq::<Json>::empty();
    lemma_read_push(reader, none, events[0]);
    lemma_read_push(reader, none.push(events[0]), events[1]);
    lemma_read_push(reader, none.push(events[0]).push(events[1]), events[2]);
    assert(none.push(events[0]).push(events[1]).push(events[2]) =~= events);
    assert(none.push(events[0]) =~= seq![events[0]]);
    let empty = ReadBlock {
        kind: "tool_use"@,
        text: Seq::empty(),
        id: draft.id,
        name: draft.name,
    };
    let r1 = Reader { blocks: reader.blocks.push(empty), open: true, ..reader };
    assert(read(reader, events[0]) == Some(r1));
    let r2 = Reader { blocks: reader.blocks.push(tool_block(draft)), open: true, ..reader };
    assert(r1.blocks.drop_last() =~= reader.blocks);
    assert(Seq::<char>::empty() + draft.arguments =~= draft.arguments);
    assert(read(r1, events[1]) == Some(r2));
    assert(read(r2, events[2]) == Some(Reader { open: false, ..r2 }));
}

proof fn lemma_read_tools(reader: Reader, drafts: Seq<Draft>, at: u64)
    requires
        reader.begun && !reader.ended && reader.stop is None && !reader.open,
        reader.blocks.len() == at,
        at + drafts.len() <= u64::MAX,
    ensures
        read_all(reader, drafts_events(drafts, at)) == Some(
            Reader {
                blocks: reader.blocks + drafts.map_values(|draft: Draft| tool_block(draft)),
                ..reader
            },
        ),
    decreases drafts.len(),
{
    let blocks = drafts.map_values(|draft: Draft| tool_block(draft));
    if drafts.len() == 0 {
        assert(reader.blocks + blocks =~= reader.blocks);
    } else {
        let shorter = drafts.drop_last();
        let before = shorter.map_values(|draft: Draft| tool_block(draft));
        lemma_read_tools(reader, shorter, at);
        let index = advanced(at, (drafts.len() - 1) as nat);
        let between = Reader { blocks: reader.blocks + before, ..reader };
        lemma_read_tool(between, drafts.last(), index);
        lemma_read_append(reader, drafts_events(shorter, at), draft_events(drafts.last(), index));
        assert(between.blocks.push(tool_block(drafts.last())) =~= reader.blocks + blocks);
    }
}

/// Whether the end of a message is what it should be: the client has read the end, no block is
/// open, behind the blocks that it knew stand the tool calls in order, and why the message stopped
/// and how many tokens it took are those of the stream.
pub open spec fn is_ended(done: Reader, before: Reader, stream: ChatStream) -> bool {
    &&& done.ended && !done.open
    &&& done.model == before.model && done.id == before.id
    &&& done.stop == stop_for(stream.finish, stream.drafts.len() > 0)
    &&& done.input == stream.input && done.output == stream.output
    &&& done.blocks.len() == before.blocks.len() + stream.drafts.len()
    &&& forall|i: int|
        0 <= i < before.blocks.len() ==> #[trigger] done.blocks[i] == before.blocks[i]
    &&& forall|i: int|
        0 <= i < stream.drafts.len() ==> done.blocks[before.blocks.len() + i] == tool_block(
            #[trigger] stream.drafts[i],
        )
}

/// A stream that ends well is read to its end by a client that has read it so far: the tool calls
/// come out whole and in order, and then why it stopped, the token counts and the end.
pub proof fn lemma_end_is_read(
    stream: ChatStream,
    reader: Reader,
    readings: Seq<Result<Json, Seq<char>>>,
)
    requires
        agrees(stream, reader),
        !stream.finished,
        stream.next + stream.drafts.len() + 1 < u64::MAX,
    ensures
        concluded(stream, readings).1 matches Ok(events) ==> (read_all(reader, events) matches Some(
            done,
        ) && is_ended(done, reader, stream)),
{
    lemma_names();
    if concluded(stream, readings).1 is Ok {
        let (ended, closing) = block_ended(stream);
        lemma_read_ended(stream, reader);
        let r1 = Reader { open: false, ..reader };
        let tools = drafts_events(stream.drafts, ended.next);
        lemma_read_tools(r1, stream.drafts, ended.next);
        let blocks = stream.drafts.map_values(|draft: Draft| tool_block(draft));
        let r2 = Reader { blocks: reader.blocks + blocks, ..r1 };
        lemma_read_append(reader, closing, tools);
        let reason = stop_for(stream.finish, stream.drafts.len() > 0)->Some_0;
        let delta = message_delta(reason, stream.input, stream.output);
        lemma_read_push(reader, closing + tools, delta);
        let r3 = Reader {
            stop: Some(reason),
            input: stream.input,
            output: stream.output,
            ..r2
        };
        assert(read(r2, delta) == Some(r3));
        lemma_read_push(reader, (closing + tools).push(delta), message_stop());
        assert(read(r3, message_stop()) == Some(Reader { ended: true, ..r3 }));
    }
}

/// A stream ends well exactly where it has begun, every tool call has an id and a name and
/// arguments that were read as a record, and the reason to finish is known.
pub proof fn lemma_end_accepted(stream: ChatStream, readings: Seq<Result<Json, Seq<char>>>)
    requires
        !stream.finished,
    ensures
        concluded(stream, readings).1 is Ok <==> stream.started && stop_for(
            stream.finish,
            stream.drafts.len() > 0,
        ) is Some && forall|i: int|
            0 <= i < stream.drafts.len() ==> (#[trigger] stream.drafts[i]).id.len() > 0
                && stream.drafts[i].name.len() > 0 && (readings[i] matches Ok(input) && input
                is Record),
{
    lemma_names();
    let drafts = stream.drafts;
    lemma_no_fault(drafts, readings);
    if forall|i: int|
        0 <= i < drafts.len() ==> (#[trigger] drafts[i]).id.len() > 0 && drafts[i].name.len() > 0
            && (readings[i] matches Ok(input) && input is Record) {
        assert forall|i: int| 0 <= i < drafts.len() implies crate::codec::chat::draft_fault(
            #[trigger] drafts[i],
            readings[i],
        ) is None by {
            assert(drafts[i].id.len() > 0);
        }
    }
    if crate::codec::chat::first_fault(drafts, readings) is None {
        assert forall|i: int| 0 <= i < drafts.len() implies (#[trigger] drafts[i]).id.len() > 0
            && drafts[i].name.len() > 0 && (readings[i] matches Ok(input) && input is Record) by {
            assert(crate::codec::chat::draft_fault(drafts[i], readings[i]) is None);
        }
    }
}

/// An index goes up by as much as it is moved on, and stays at the largest where there is no
/// greater one: it never wraps.
pub proof fn lemma_advanced(index: u64, by: nat)
    ensures
        index + by <= u64::MAX ==> advanced(index, by) == index + by,
        index + by > u64::MAX ==> advanced(index, by) == u64::MAX,
{
}

/// What is read of the arguments of each tool call is what parsing them gives.
pub proof fn lemma_draft_readings(drafts: Seq<Draft>, i: int)
    requires
        0 <= i < drafts.len(),
    ensures
        draft_readings(drafts).len() == drafts.len(),
        draft_readings(drafts)[i] == parsed(drafts[i].arguments),
{
}

/// A whole chat stream, however it is cut, is read as one whole message: the thinking and the text
/// are those of the chunks, and behind them stands a tool use for each tool call, in the order of
/// their indices, with all its arguments; the message has the model and the id that the decoder was
/// made with, stopped for the reason that the stream gave, and took the tokens that it counted.
pub proof fn lemma_whole_stream(model: Seq<char>, id: Seq<char>, bytes: Seq<u8>)
    ensures
        ({
            let (pending, stream, events) = run(
                chat_handler(),
                nothing(),
                fresh_stream(model, id),
                bytes,
            );
            let frames = frames_in(nothing(), bytes).1;
            let last = concluded(stream, draft_readings(stream.drafts)).1;
            events is Ok && last is Ok && bytes.len() + all_parts(frames).len() + 1 < u64::MAX ==> {
                &&& is_gathered_from(stream.drafts, all_parts(frames))
                &&& read_all(new_reader(), events->Ok_0 + last->Ok_0) matches Some(done) && ({
                    let n = done.blocks.len() - stream.drafts.len();
                    &&& done.ended && done.model == model && done.id == id
                    &&& said(done.blocks.take(n), "text"@) == delta_texts(frames, "content"@)
                    &&& said(done.blocks.take(n), "thinking"@) == delta_texts(
                        frames,
                        "reasoning_content"@,
                    )
                    &&& forall|i: int|
                        0 <= i < stream.drafts.len() ==> done.blocks[n + i] == tool_block(
                            #[trigger] stream.drafts[i],
                        )
                    &&& done.stop == stop_for(
                        last_finish(frames),
                        all_parts(frames).len() > 0,
                    )
                    &&& done.input == last_count(frames, "prompt_tokens"@)
                    &&& done.output == last_count(frames, "completion_tokens"@)
                })
            }
        }),
{
    let (pending, stream, events) = run(
        chat_handler(),
        nothing(),
        fresh_stream(model, id),
        bytes,
    );
    let frames = frames_in(nothing(), bytes).1;
    let readings = draft_readings(stream.drafts);
    let last = concluded(stream, readings).1;
    if events is Ok && last is Ok && bytes.len() + all_parts(frames).len() + 1 < u64::MAX {
        lemma_nothing();
        lemma_frames_are_few(None, bytes);
        lemma_run_is_frames(chat_handler(), nothing(), fresh_stream(model, id), bytes);
        lemma_handled(model, id, frames);
        lemma_stream_is_read(model, id, bytes);
        let reader = read_all(new_reader(), events->Ok_0)->Some_0;
        lemma_end_is_read(stream, reader, readings);
        lemma_end_accepted(stream, readings);
        lemma_read_append(new_reader(), events->Ok_0, last->Ok_0);
        let done = read_all(reader, last->Ok_0)->Some_0;
        let n = reader.blocks.len() as int;
        assert(done.blocks.take(n) =~= reader.blocks);
        let parts = all_parts(frames);
        if stream.drafts.len() > 0 {
            assert(occurs(parts, stream.drafts[0].index));
        }
        if parts.len() > 0 {
            assert(has_index(stream.drafts, parts[0].index));
        }
    }
}

} // verus!
