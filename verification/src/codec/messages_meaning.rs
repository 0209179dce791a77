//! What a client reads of the Chat Completions chunks that a Messages stream becomes, against what
//! the stream said.
use vstd::prelude::*;

use crate::codec::chat::Draft;
use crate::codec::chat_meaning::{count_at, inside, text_at};
use crate::codec::framing::{frame_of, nothing, run};
use crate::codec::framing_laws::{
    event_in, frames_in, handled, lemma_frame_kinds, lemma_frames_are_few, lemma_nothing,
    lemma_run_is_frames,
};
use crate::codec::messages::{
    begun, block_begun, block_ended, block_extended, call_chunk, chunk, concluded, ended_input,
    event_index, event_taken, frame_taken, fresh_stream, last_chunk, messages_handler, place,
    role_chunk, text_chunks, MessagesStream,
};
use crate::codec::messages_laws::lemma_place;
use crate::json::{count_in, field, integer_of, parsed, Json};
use crate::names::lemma_names;

verus! {

// ---------------------------------------------------------------------------
// The client
// ---------------------------------------------------------------------------

/// A tool call: its id, its name and its arguments.
pub struct ReadCall {
    pub id: Seq<char>,
    pub name: Seq<char>,
    pub arguments: Seq<char>,
}

/// A completion as a client has read it so far.
pub struct Reader {
    pub begun: bool,
    pub model: Seq<char>,
    pub id: Seq<char>,
    pub text: Seq<char>,
    pub thought: Seq<char>,
    pub calls: Seq<ReadCall>,
    pub finish: Option<Seq<char>>,
    pub input: u64,
    pub output: u64,
}

/// A client that has read nothing.
pub open spec fn new_reader() -> Reader {
    Reader {
        begun: false,
        model: Seq::empty(),
        id: Seq::empty(),
        text: Seq::empty(),
        thought: Seq::empty(),
        calls: Seq::empty(),
        finish: None,
        input: 0,
        output: 0,
    }
}

/// The only choice of a chunk.
pub open spec fn choice_in(chunk: Json) -> Option<Json> {
    match field(chunk, "choices"@) {
        Some(Json::List(choices)) => if choices.len() == 1 {
            Some(choices[0])
        } else {
            None
        },
        _ => None,
    }
}

/// The tool calls in a chunk.
pub open spec fn calls_in(chunk: Json) -> Seq<Json> {
    match inside(inside(choice_in(chunk), "delta"@), "tool_calls"@) {
        Some(Json::List(calls)) => calls,
        _ => Seq::empty(),
    }
}

/// The completion after one more chunk, or `None` where the chunk is out of place: another model or
/// id, another choice, a second role, a tool call whose index is not the next, or anything behind
/// the end.
pub open spec fn read(reader: Reader, chunk: Json) -> Option<Reader> {
    let choice = choice_in(chunk);
    let delta = inside(choice, "delta"@);
    let calls = calls_in(chunk);
    let finish = inside(choice, "finish_reason"@);
    let id = text_at(field(chunk, "id"@));
    let model = text_at(field(chunk, "model"@));
    if text_at(field(chunk, "object"@)) != "chat.completion.chunk"@ || integer_of(
        inside(choice, "index"@),
    ) != Some(0int) || reader.finish is Some || !(delta is Some) {
        None
    } else if reader.begun && (id != reader.id || model != reader.model || inside(delta, "role"@)
        is Some) {
        None
    } else if !reader.begun && inside(delta, "role"@) != Some(Json::Text("assistant"@)) {
        None
    } else if calls.len() > 1 || calls.len() == 1 && (integer_of(field(calls[0], "index"@)) != Some(
        reader.calls.len() as int,
    ) || field(calls[0], "type"@) != Some(Json::Text("function"@))) {
        None
    } else if !(finish matches Some(reason) && (reason is Null || reason is Text)) {
        None
    } else {
        let ended = finish->Some_0 is Text;
        Some(
            Reader {
                begun: true,
                model,
                id,
                text: reader.text + text_at(inside(delta, "content"@)),
                thought: reader.thought + text_at(inside(delta, "reasoning_content"@)),
                calls: if calls.len() == 1 {
                    reader.calls.push(
                        ReadCall {
                            id: text_at(field(calls[0], "id"@)),
                            name: text_at(inside(field(calls[0], "function"@), "name"@)),
                            arguments: text_at(inside(field(calls[0], "function"@), "arguments"@)),
                        },
                    )
                } else {
                    reader.calls
                },
                finish: if ended {
                    Some(text_at(finish))
                } else {
                    None
                },
                input: if ended {
                    count_at(inside(field(chunk, "usage"@), "prompt_tokens"@))
                } else {
                    reader.input
                },
                output: if ended {
                    count_at(inside(field(chunk, "usage"@), "completion_tokens"@))
                } else {
                    reader.output
                },
            },
        )
    }
}

/// The completion after some chunks, or `None` where one of them is out of place.
pub open spec fn read_all(reader: Reader, chunks: Seq<Json>) -> Option<Reader>
    decreases chunks.len(),
{
    if chunks.len() == 0 {
        Some(reader)
    } else {
        match read_all(reader, chunks.drop_last()) {
            Some(before) => read(before, chunks.last()),
            None => None,
        }
    }
}

proof fn lemma_read_append(reader: Reader, first: Seq<Json>, second: Seq<Json>)
    ensures
        read_all(reader, first + second) == (match read_all(reader, first) {
            Some(between) => read_all(between, second),
            None => None,
        }),
    decreases second.len(),
{
    if second.len() == 0 {
        assert(first + second =~= first);
    } else {
        lemma_read_append(reader, first, second.drop_last());
        assert((first + second).drop_last() =~= first + second.drop_last());
    }
}

proof fn lemma_read_one(reader: Reader, chunk: Json)
    ensures
        read_all(reader, seq![chunk]) == read(reader, chunk),
        read_all(reader, Seq::empty()) == Some(reader),
{
    assert(seq![chunk].drop_last() =~= Seq::<Json>::empty());
    reveal_with_fuel(read_all, 2);
}

/// The indices of all tool calls in some chunks, in order.
pub open spec fn call_indices(chunks: Seq<Json>) -> Seq<Option<int>>
    decreases chunks.len(),
{
    if chunks.len() == 0 {
        Seq::empty()
    } else {
        call_indices(chunks.drop_last()) + calls_in(chunks.last()).map_values(
            |call: Json| integer_of(field(call, "index"@)),
        )
    }
}

proof fn lemma_indices_read(chunks: Seq<Json>)
    requires
        read_all(new_reader(), chunks) is Some,
    ensures
        call_indices(chunks).len() == read_all(new_reader(), chunks)->Some_0.calls.len(),
        forall|k: int|
            0 <= k < call_indices(chunks).len() ==> #[trigger] call_indices(chunks)[k] == Some(k),
    decreases chunks.len(),
{
    if chunks.len() > 0 {
        lemma_indices_read(chunks.drop_last());
        let more = calls_in(chunks.last()).map_values(
            |call: Json| integer_of(field(call, "index"@)),
        );
        let before = call_indices(chunks.drop_last());
        assert(call_indices(chunks) == before + more);
        assert forall|k: int| 0 <= k < call_indices(chunks).len() implies
            #[trigger] call_indices(chunks)[k] == Some(k) by {
            if k < before.len() {
                assert(before[k] == Some(k));
            } else {
                assert(more[0] == integer_of(field(calls_in(chunks.last())[0], "index"@)));
            }
        }
    }
}

// ---------------------------------------------------------------------------
// What the events say
// ---------------------------------------------------------------------------

/// The kind of an event.
pub open spec fn kind_in(event: Json) -> Seq<char> {
    text_at(field(event, "type"@))
}

/// What an event adds to the blocks of a kind: what the start of such a block holds, and the
/// addition of the kind that goes with it. It stands under the kind's own name.
pub open spec fn said_in(event: Json, kind: Seq<char>, addition: Seq<char>) -> Seq<char> {
    let block = field(event, "content_block"@);
    let delta = field(event, "delta"@);
    if kind_in(event) == "content_block_start"@ && text_at(inside(block, "type"@)) == kind {
        text_at(inside(block, kind))
    } else if kind_in(event) == "content_block_delta"@ && text_at(inside(delta, "type"@))
        == addition {
        text_at(inside(delta, kind))
    } else {
        Seq::empty()
    }
}

/// What the events in all frames add to the blocks of a kind, one after the other.
pub open spec fn said(frames: Seq<Seq<u8>>, kind: Seq<char>, addition: Seq<char>) -> Seq<char>
    decreases frames.len(),
{
    if frames.len() == 0 {
        Seq::empty()
    } else {
        match event_in(frames.last()) {
            Some(event) => said(frames.drop_last(), kind, addition) + said_in(
                event,
                kind,
                addition,
            ),
            None => said(frames.drop_last(), kind, addition),
        }
    }
}

/// The tool blocks that events have begun and not ended, by index, and those that they have ended,
/// in the order in which they ended.
pub struct Tools {
    pub open: Map<u64, ReadCall>,
    pub done: Seq<ReadCall>,
}

/// The tool blocks after one more event.
pub open spec fn tools_after(tools: Tools, event: Json) -> Tools {
    let block = field(event, "content_block"@);
    let delta = field(event, "delta"@);
    let index = count_at(field(event, "index"@));
    if kind_in(event) == "content_block_start"@ && text_at(inside(block, "type"@))
        == "tool_use"@ {
        Tools {
            open: tools.open.insert(
                index,
                ReadCall {
                    id: text_at(inside(block, "id"@)),
                    name: text_at(inside(block, "name"@)),
                    arguments: Seq::empty(),
                },
            ),
            ..tools
        }
    } else if kind_in(event) == "content_block_delta"@ && text_at(inside(delta, "type"@))
        == "input_json_delta"@ {
        let call = tools.open[index];
        Tools {
            open: tools.open.insert(
                index,
                ReadCall {
                    arguments: call.arguments + text_at(inside(delta, "partial_json"@)),
                    ..call
                },
            ),
            ..tools
        }
    } else if kind_in(event) == "content_block_stop"@ && tools.open.contains_key(index) {
        Tools { open: tools.open.remove(index), done: tools.done.push(tools.open[index]) }
    } else {
        tools
    }
}

/// The tool blocks after the events in all frames.
pub open spec fn tools_in(frames: Seq<Seq<u8>>) -> Tools
    decreases frames.len(),
{
    if frames.len() == 0 {
        Tools { open: Map::empty(), done: Seq::empty() }
    } else {
        match event_in(frames.last()) {
            Some(event) => tools_after(tools_in(frames.drop_last()), event),
            None => tools_in(frames.drop_last()),
        }
    }
}

/// The last stop reason in all frames.
pub open spec fn last_stop(frames: Seq<Seq<u8>>) -> Option<Seq<char>>
    decreases frames.len(),
{
    if frames.len() == 0 {
        None
    } else {
        let before = last_stop(frames.drop_last());
        match event_in(frames.last()) {
            Some(event) => match inside(field(event, "delta"@), "stop_reason"@) {
                Some(Json::Text(reason)) => if kind_in(event) == "message_delta"@ {
                    Some(reason)
                } else {
                    before
                },
                _ => before,
            },
            None => before,
        }
    }
}

/// The usage that an event tells: that of the message where it begins one, its own where it says
/// why the message stopped.
pub open spec fn usage_in(event: Json) -> Option<Json> {
    if kind_in(event) == "message_start"@ {
        inside(field(event, "message"@), "usage"@)
    } else if kind_in(event) == "message_delta"@ {
        field(event, "usage"@)
    } else {
        None
    }
}

/// The last token count of a key in all frames, or 0.
pub open spec fn last_count(frames: Seq<Seq<u8>>, key: Seq<char>) -> u64
    decreases frames.len(),
{
    if frames.len() == 0 {
        0
    } else {
        match event_in(frames.last()) {
            Some(event) => match count_in(inside(usage_in(event), key)) {
                Some(n) => n,
                None => last_count(frames.drop_last(), key),
            },
            None => last_count(frames.drop_last(), key),
        }
    }
}

/// The id of the message that the events in the frames begin, or `None` where they begin none.
pub open spec fn message_id(frames: Seq<Seq<u8>>) -> Option<Seq<char>>
    decreases frames.len(),
{
    if frames.len() == 0 {
        None
    } else {
        match event_in(frames.last()) {
            Some(event) => if kind_in(event) == "message_start"@ {
                Some(text_at(inside(field(event, "message"@), "id"@)))
            } else {
                message_id(frames.drop_last())
            },
            None => message_id(frames.drop_last()),
        }
    }
}

// ---------------------------------------------------------------------------
// The stream and the client
// ---------------------------------------------------------------------------

/// Whether a client has read what a stream has sent so far.
pub open spec fn agrees(stream: MessagesStream, reader: Reader) -> bool {
    &&& reader.begun == stream.started
    &&& !stream.started ==> reader == new_reader()
    &&& stream.started ==> reader.model == stream.model && reader.id == stream.id
    &&& reader.finish is None
    &&& reader.calls.len() == stream.calls
}

spec fn as_call(draft: Draft) -> ReadCall {
    ReadCall { id: draft.id, name: draft.name, arguments: draft.arguments }
}

/// Whether the open tool blocks of a stream are these, each index once.
pub open spec fn are_open(drafts: Seq<Draft>, open: Map<u64, ReadCall>) -> bool {
    &&& forall|i: int, j: int|
        0 <= i < j < drafts.len() ==> (#[trigger] drafts[i]).index != (#[trigger] drafts[j]).index
    &&& forall|i: int|
        0 <= i < drafts.len() ==> {
            let draft = #[trigger] drafts[i];
            &&& open.contains_key(draft.index)
            &&& open[draft.index].id == draft.id
            &&& open[draft.index].name == draft.name
            &&& open[draft.index].arguments == draft.arguments
        }
    &&& forall|index: u64| #[trigger]
        open.contains_key(index) ==> exists|i: int|
            0 <= i < drafts.len() && (#[trigger] drafts[i]).index == index
}

proof fn lemma_read_text(stream: MessagesStream, reader: Reader, text: Option<Seq<char>>)
    requires
        agrees(stream, reader),
        stream.started,
        text matches Some(t) ==> t.len() > 0,
    ensures
        ({
            let t = match text {
                Some(t) => t,
                None => Seq::empty(),
            };
            &&& read_all(reader, text_chunks(stream, "content"@, text)) == Some(
                Reader { text: reader.text + t, ..reader },
            )
            &&& read_all(reader, text_chunks(stream, "reasoning_content"@, text)) == Some(
                Reader { thought: reader.thought + t, ..reader },
            )
        }),
{
    lemma_names();
    assert(reader.text + Seq::<char>::empty() =~= reader.text);
    assert(reader.thought + Seq::<char>::empty() =~= reader.thought);
    match text {
        None => {
            lemma_read_one(reader, Json::Null);
        },
        Some(t) => {
            let spoken = Json::Record(
                chunk(stream, map!["content"@ => Json::Text(t)], Json::Null),
            );
            let thought = Json::Record(
                chunk(stream, map!["reasoning_content"@ => Json::Text(t)], Json::Null),
            );
            lemma_read_one(reader, spoken);
            lemma_read_one(reader, thought);
        },
    }
}

proof fn lemma_read_call(stream: MessagesStream, reader: Reader, draft: Draft)
    requires
        agrees(stream, reader),
        stream.started,
    ensures
        read(reader, call_chunk(stream, draft)) == Some(
            Reader { calls: reader.calls.push(as_call(draft)), ..reader },
        ),
{
    lemma_names();
    assert(reader.text + Seq::<char>::empty() =~= reader.text);
    assert(reader.thought + Seq::<char>::empty() =~= reader.thought);
    let made = call_chunk(stream, draft);
    assert(calls_in(made).len() == 1);
}

proof fn lemma_read_role(stream: MessagesStream)
    requires
        stream.started,
    ensures
        read(new_reader(), role_chunk(stream)) == Some(
            Reader { begun: true, model: stream.model, id: stream.id, ..new_reader() },
        ),
{
    lemma_names();
    assert(Seq::<char>::empty() + Seq::<char>::empty() =~= Seq::<char>::empty());
}

proof fn lemma_filled_text(value: Option<Json>)
    ensures
        ({
            let text = crate::json::filled(crate::json::text_in(value));
            &&& text_at(value) == (match text {
                Some(t) => t,
                None => Seq::empty(),
            })
            &&& text matches Some(t) ==> t.len() > 0
        }),
{
    let text = crate::json::text_in(value);
    if text is Some && text->Some_0.len() == 0 {
        assert(text->Some_0 =~= Seq::<char>::empty());
    }
}

// What an event does to a client and to the tool blocks.
spec fn kept(
    before: MessagesStream,
    reader: Reader,
    tools: Tools,
    event: Json,
    after: MessagesStream,
    chunks: Seq<Json>,
) -> bool {
    &&& read_all(reader, chunks) matches Some(next) && agrees(after, next) && next.text
        == reader.text + said_in(event, "text"@, "text_delta"@) && next.thought == reader.thought
        + said_in(event, "thinking"@, "thinking_delta"@) && (reader.calls == tools.done
        ==> next.calls == tools_after(tools, event).done)
    &&& are_open(after.drafts, tools_after(tools, event).open)
    &&& after.calls >= before.calls
}

proof fn lemma_read_begun(stream: MessagesStream, reader: Reader, tools: Tools, event: Json)
    requires
        agrees(stream, reader),
        are_open(stream.drafts, tools.open),
        kind_in(event) == "message_start"@,
        begun(stream, event).1 is Ok,
    ensures
        kept(stream, reader, tools, event, begun(stream, event).0, begun(stream, event).1->Ok_0),
{
    lemma_names();
    let after = begun(stream, event).0;
    lemma_read_role(after);
    lemma_read_one(reader, role_chunk(after));
    assert(reader.text + Seq::<char>::empty() =~= reader.text);
    assert(reader.thought + Seq::<char>::empty() =~= reader.thought);
}

proof fn lemma_read_block(stream: MessagesStream, reader: Reader, tools: Tools, event: Json)
    requires
        agrees(stream, reader),
        stream.started,
        are_open(stream.drafts, tools.open),
        kind_in(event) == "content_block_start"@,
        block_begun(stream, event).1 is Ok,
    ensures
        kept(
            stream,
            reader,
            tools,
            event,
            block_begun(stream, event).0,
            block_begun(stream, event).1->Ok_0,
        ),
{
    lemma_names();
    let block = field(event, "content_block"@);
    let (after, chunks) = block_begun(stream, event);
    lemma_filled_text(inside(block, "text"@));
    lemma_filled_text(inside(block, "thinking"@));
    lemma_filled_text(inside(block, "id"@));
    lemma_filled_text(inside(block, "name"@));
    lemma_read_text(
        stream,
        reader,
        crate::json::filled(crate::json::text_in(inside(block, "text"@))),
    );
    lemma_read_text(
        stream,
        reader,
        crate::json::filled(crate::json::text_in(inside(block, "thinking"@))),
    );
    lemma_read_one(reader, Json::Null);
    assert(reader.text + Seq::<char>::empty() =~= reader.text);
    assert(reader.thought + Seq::<char>::empty() =~= reader.thought);
    if text_at(inside(block, "type"@)) == "tool_use"@ {
        let index = event_index(event);
        lemma_place(stream.drafts, index);
        let open = tools_after(tools, event).open;
        let drafts = after.drafts;
        let n = stream.drafts.len() as int;
        assert forall|i: int| 0 <= i < drafts.len() implies {
            let draft = #[trigger] drafts[i];
            &&& open.contains_key(draft.index)
            &&& open[draft.index].id == draft.id
            &&& open[draft.index].name == draft.name
            &&& open[draft.index].arguments == draft.arguments
        } by {
            if i < n {
                assert(drafts[i] == stream.drafts[i]);
            }
        }
        assert forall|k: u64| #[trigger] open.contains_key(k) implies exists|i: int|
            0 <= i < drafts.len() && (#[trigger] drafts[i]).index == k by {
            if k == index {
                assert(drafts[n].index == k);
            } else {
                assert(tools.open.contains_key(k));
                let i = choose|i: int|
                    0 <= i < stream.drafts.len() && (#[trigger] stream.drafts[i]).index == k;
                assert(drafts[i].index == k);
            }
        }
        assert forall|i: int, j: int| 0 <= i < j < drafts.len() implies (
        #[trigger] drafts[i]).index != (#[trigger] drafts[j]).index by {
            assert(stream.drafts[i].index != index);
            if j < n {
                assert(stream.drafts[i].index != stream.drafts[j].index);
            }
        }
    }
}

proof fn lemma_read_extended(stream: MessagesStream, reader: Reader, tools: Tools, event: Json)
    requires
        agrees(stream, reader),
        stream.started,
        are_open(stream.drafts, tools.open),
        kind_in(event) == "content_block_delta"@,
        block_extended(stream, event).1 is Ok,
    ensures
        kept(
            stream,
            reader,
            tools,
            event,
            block_extended(stream, event).0,
            block_extended(stream, event).1->Ok_0,
        ),
{
    lemma_names();
    let delta = field(event, "delta"@);
    let (after, chunks) = block_extended(stream, event);
    lemma_filled_text(inside(delta, "text"@));
    lemma_filled_text(inside(delta, "thinking"@));
    lemma_read_text(
        stream,
        reader,
        crate::json::filled(crate::json::text_in(inside(delta, "text"@))),
    );
    lemma_read_text(
        stream,
        reader,
        crate::json::filled(crate::json::text_in(inside(delta, "thinking"@))),
    );
    lemma_read_one(reader, Json::Null);
    assert(reader.text + Seq::<char>::empty() =~= reader.text);
    assert(reader.thought + Seq::<char>::empty() =~= reader.thought);
    if text_at(inside(delta, "type"@)) == "input_json_delta"@ {
        let index = event_index(event);
        lemma_place(stream.drafts, index);
        let at = place(stream.drafts, index);
        let open = tools_after(tools, event).open;
        let drafts = after.drafts;
        assert(stream.drafts[at].index == index);
        assert forall|i: int| 0 <= i < drafts.len() implies {
            let draft = #[trigger] drafts[i];
            &&& open.contains_key(draft.index)
            &&& open[draft.index].id == draft.id
            &&& open[draft.index].name == draft.name
            &&& open[draft.index].arguments == draft.arguments
        } by {
            assert(drafts[i].index == stream.drafts[i].index);
            if i < at {
                assert(stream.drafts[i].index != stream.drafts[at].index);
            } else if i > at {
                assert(stream.drafts[at].index != stream.drafts[i].index);
            }
        }
        assert forall|k: u64| #[trigger] open.contains_key(k) implies exists|i: int|
            0 <= i < drafts.len() && (#[trigger] drafts[i]).index == k by {
            assert(tools.open.contains_key(k));
            let i = choose|i: int|
                0 <= i < stream.drafts.len() && (#[trigger] stream.drafts[i]).index == k;
            assert(drafts[i].index == k);
        }
        assert forall|i: int, j: int| 0 <= i < j < drafts.len() implies (
        #[trigger] drafts[i]).index != (#[trigger] drafts[j]).index by {
            assert(stream.drafts[i].index != stream.drafts[j].index);
        }
    }
}

proof fn lemma_read_ended(
    stream: MessagesStream,
    reader: Reader,
    tools: Tools,
    event: Json,
    reading: Result<Json, Seq<char>>,
)
    requires
        agrees(stream, reader),
        stream.started,
        are_open(stream.drafts, tools.open),
        kind_in(event) == "content_block_stop"@,
        block_ended(stream, event, reading).1 is Ok,
        block_ended(stream, event, reading).0.calls < u64::MAX,
    ensures
        kept(
            stream,
            reader,
            tools,
            event,
            block_ended(stream, event, reading).0,
            block_ended(stream, event, reading).1->Ok_0,
        ),
{
    lemma_names();
    let (after, chunks) = block_ended(stream, event, reading);
    lemma_read_one(reader, Json::Null);
    assert(reader.text + Seq::<char>::empty() =~= reader.text);
    assert(reader.thought + Seq::<char>::empty() =~= reader.thought);
    let index = event_index(event);
    lemma_place(stream.drafts, index);
    let at = place(stream.drafts, index);
    if at < 0 {
        assert(!tools.open.contains_key(index));
    } else {
        let draft = stream.drafts[at];
        lemma_read_call(stream, reader, draft);
        lemma_read_one(reader, call_chunk(stream, draft));
        assert(draft.index == index);
        assert(tools.open[index] == as_call(draft));
        let open = tools.open.remove(index);
        let drafts = after.drafts;
        assert forall|i: int| 0 <= i < drafts.len() implies {
            let draft = #[trigger] drafts[i];
            &&& open.contains_key(draft.index)
            &&& open[draft.index].id == draft.id
            &&& open[draft.index].name == draft.name
            &&& open[draft.index].arguments == draft.arguments
        } by {
            if i < at {
                assert(drafts[i] == stream.drafts[i]);
                assert(stream.drafts[i].index != stream.drafts[at].index);
            } else {
                assert(drafts[i] == stream.drafts[i + 1]);
                assert(stream.drafts[at].index != stream.drafts[i + 1].index);
            }
        }
        assert forall|k: u64| #[trigger] open.contains_key(k) implies exists|i: int|
            0 <= i < drafts.len() && (#[trigger] drafts[i]).index == k by {
            assert(tools.open.contains_key(k));
            let i = choose|i: int|
                0 <= i < stream.drafts.len() && (#[trigger] stream.drafts[i]).index == k;
            if i < at {
                assert(drafts[i].index == k);
            } else {
                assert(drafts[i - 1].index == k);
            }
        }
        assert forall|i: int, j: int| 0 <= i < j < drafts.len() implies (
        #[trigger] drafts[i]).index != (#[trigger] drafts[j]).index by {
            let a = if i < at {
                i
            } else {
                i + 1
            };
            let b = if j < at {
                j
            } else {
                j + 1
            };
            assert(stream.drafts[a].index != stream.drafts[b].index);
        }
    }
}

proof fn lemma_read_event(
    stream: MessagesStream,
    reader: Reader,
    tools: Tools,
    event: Json,
    reading: Result<Json, Seq<char>>,
)
    requires
        agrees(stream, reader),
        are_open(stream.drafts, tools.open),
        event_taken(stream, event, reading).1 is Ok,
        event_taken(stream, event, reading).0.calls < u64::MAX,
    ensures
        kept(
            stream,
            reader,
            tools,
            event,
            event_taken(stream, event, reading).0,
            event_taken(stream, event, reading).1->Ok_0,
        ),
{
    lemma_names();
    let kind = kind_in(event);
    lemma_read_one(reader, Json::Null);
    assert(reader.text + Seq::<char>::empty() =~= reader.text);
    assert(reader.thought + Seq::<char>::empty() =~= reader.thought);
    if kind == "ping"@ {
    } else if kind == "message_start"@ {
        lemma_read_begun(stream, reader, tools, event);
    } else if kind == "content_block_start"@ {
        lemma_read_block(stream, reader, tools, event);
    } else if kind == "content_block_delta"@ {
        lemma_read_extended(stream, reader, tools, event);
    } else if kind == "content_block_stop"@ {
        lemma_read_ended(stream, reader, tools, event, reading);
    }
}

/// Whether a stream stands where some frames bring it.
pub open spec fn stands_at(stream: MessagesStream, frames: Seq<Seq<u8>>) -> bool {
    &&& stream.stop == last_stop(frames)
    &&& stream.input == last_count(frames, "input_tokens"@)
    &&& stream.output == last_count(frames, "output_tokens"@)
    &&& stream.started == (message_id(frames) is Some)
    &&& message_id(frames) matches Some(id) ==> stream.id == id
    &&& are_open(stream.drafts, tools_in(frames).open)
}

/// Whether a client has read all that some frames say: the text and the thinking, in order and
/// nothing else, and the tool calls that have ended, in the order in which they ended.
pub open spec fn has_read(reader: Reader, frames: Seq<Seq<u8>>) -> bool {
    &&& reader.text == said(frames, "text"@, "text_delta"@)
    &&& reader.thought == said(frames, "thinking"@, "thinking_delta"@)
    &&& reader.calls == tools_in(frames).done
}

proof fn lemma_event_noted(stream: MessagesStream, event: Json, reading: Result<Json, Seq<char>>)
    requires
        event_taken(stream, event, reading).1 is Ok,
    ensures
        ({
            let after = event_taken(stream, event, reading).0;
            let reason = inside(field(event, "delta"@), "stop_reason"@);
            &&& after.model == stream.model && after.finished == stream.finished
            &&& after.started == (stream.started || kind_in(event) == "message_start"@)
            &&& after.id == (if kind_in(event) == "message_start"@ {
                text_at(inside(field(event, "message"@), "id"@))
            } else {
                stream.id
            })
            &&& after.stop == (if kind_in(event) == "message_delta"@ && reason is Some
                && reason->Some_0 is Text {
                Some(text_at(reason))
            } else {
                stream.stop
            })
            &&& after.input == (match count_in(inside(usage_in(event), "input_tokens"@)) {
                Some(n) => n,
                None => stream.input,
            })
            &&& after.output == (match count_in(inside(usage_in(event), "output_tokens"@)) {
                Some(n) => n,
                None => stream.output,
            })
        }),
{
    lemma_names();
}

proof fn lemma_handled(model: Seq<char>, frames: Seq<Seq<u8>>)
    requires
        handled(messages_handler(), fresh_stream(model), frames).1 is Ok,
        frames.len() < u64::MAX,
    ensures
        ({
            let (stream, chunks) = handled(messages_handler(), fresh_stream(model), frames);
            &&& stream.calls <= frames.len()
            &&& read_all(new_reader(), chunks->Ok_0) matches Some(reader) && agrees(stream, reader)
                && has_read(reader, frames)
            &&& stands_at(stream, frames)
            &&& !stream.finished && stream.model == model
        }),
    decreases frames.len(),
{
    lemma_names();
    let fresh = fresh_stream(model);
    if frames.len() == 0 {
        lemma_read_one(new_reader(), Json::Null);
    } else {
        let shorter = frames.drop_last();
        let (at, done) = handled(messages_handler(), fresh, shorter);
        let data = frames.last();
        let (next, more) = frame_taken(at, frame_of(data));
        lemma_frame_kinds(data);
        lemma_calls_grow(at, data);
        lemma_handled(model, shorter);
        let reader = read_all(new_reader(), done->Ok_0)->Some_0;
        lemma_read_append(new_reader(), done->Ok_0, more->Ok_0);
        lemma_read_one(reader, Json::Null);
        match event_in(data) {
            Some(event) => {
                let reading = parsed(ended_input(at, event));
                lemma_read_event(at, reader, tools_in(shorter), event, reading);
                lemma_event_noted(at, event, reading);
            },
            None => {
                assert(more->Ok_0 =~= Seq::<Json>::empty());
            },
        }
    }
}

proof fn lemma_calls_grow(stream: MessagesStream, data: Seq<u8>)
    ensures
        stream.calls <= frame_taken(stream, frame_of(data)).0.calls <= stream.calls + 1,
{
}

/// However a Messages stream is cut, a client that reads its chunks finds none out of place. What
/// it has read is the text and the thinking of all events, in order and nothing else, and the tool
/// calls that have ended, each whole; all chunks name one model and the id of the message. Why the
/// message stopped, the token counts and the open tool blocks are those of the events.
pub proof fn lemma_stream_is_read(model: Seq<char>, bytes: Seq<u8>)
    ensures
        ({
            let (pending, stream, chunks) = run(
                messages_handler(),
                nothing(),
                fresh_stream(model),
                bytes,
            );
            let frames = frames_in(nothing(), bytes).1;
            chunks is Ok && bytes.len() < u64::MAX ==> {
                &&& read_all(new_reader(), chunks->Ok_0) matches Some(reader) && agrees(
                    stream,
                    reader,
                ) && has_read(reader, frames)
                &&& stands_at(stream, frames)
                &&& stream.model == model && !stream.finished
            }
        }),
{
    let frames = frames_in(nothing(), bytes).1;
    let fresh = fresh_stream(model);
    lemma_run_is_frames(messages_handler(), nothing(), fresh, bytes);
    let (pending, stream, chunks) = run(messages_handler(), nothing(), fresh, bytes);
    if chunks is Ok && bytes.len() < u64::MAX {
        lemma_nothing();
        lemma_frames_are_few(None, bytes);
        lemma_handled(model, frames);
    }
}

/// The tool calls of a stream are numbered from 0 on, in the order in which they come out: no two
/// of them have one index, and none is left out.
pub proof fn lemma_calls_are_numbered(model: Seq<char>, bytes: Seq<u8>)
    ensures
        ({
            let (pending, stream, chunks) = run(
                messages_handler(),
                nothing(),
                fresh_stream(model),
                bytes,
            );
            let frames = frames_in(nothing(), bytes).1;
            chunks is Ok && bytes.len() < u64::MAX ==> {
                &&& call_indices(chunks->Ok_0).len() == tools_in(frames).done.len()
                &&& forall|k: int|
                    0 <= k < call_indices(chunks->Ok_0).len() ==> #[trigger] call_indices(
                        chunks->Ok_0,
                    )[k] == Some(k)
            }
        }),
{
    lemma_stream_is_read(model, bytes);
    let (pending, stream, chunks) = run(
        messages_handler(),
        nothing(),
        fresh_stream(model),
        bytes,
    );
    if chunks is Ok && bytes.len() < u64::MAX {
        lemma_indices_read(chunks->Ok_0);
    }
}

/// Whether an event can be taken in, given what parsing the input of the tool block that it ends
/// gives: a ping always, the beginning of a message once, and all else behind it. A tool block
/// needs an id, a name and an index at which none is open; an addition to the input of a tool
/// needs one that is open; and the input of one that ends is the text of a record.
pub open spec fn is_acceptable(
    stream: MessagesStream,
    event: Json,
    reading: Result<Json, Seq<char>>,
) -> bool {
    let kind = kind_in(event);
    let block = field(event, "content_block"@);
    let sort = text_at(inside(block, "type"@));
    let addition = text_at(inside(field(event, "delta"@), "type"@));
    let is_open = exists|i: int|
        0 <= i < stream.drafts.len() && (#[trigger] stream.drafts[i]).index == count_at(
            field(event, "index"@),
        );
    if kind == "ping"@ {
        true
    } else if kind == "message_start"@ {
        !stream.started
    } else {
        stream.started && (if kind == "content_block_start"@ {
            sort == "text"@ || sort == "thinking"@ || sort == "redacted_thinking"@ || (sort
                == "tool_use"@ && text_at(inside(block, "id"@)).len() > 0 && text_at(
                inside(block, "name"@),
            ).len() > 0 && !is_open)
        } else if kind == "content_block_delta"@ {
            addition == "text_delta"@ || addition == "thinking_delta"@ || addition
                == "signature_delta"@ || (addition == "input_json_delta"@ && is_open)
        } else if kind == "content_block_stop"@ {
            !is_open || (reading matches Ok(input) && input is Record)
        } else {
            kind == "message_delta"@ || kind == "message_stop"@
        })
    }
}

/// An event is taken in exactly where it can be.
pub proof fn lemma_event_accepted(
    stream: MessagesStream,
    event: Json,
    reading: Result<Json, Seq<char>>,
)
    ensures
        event_taken(stream, event, reading).1 is Ok <==> is_acceptable(stream, event, reading),
{
    lemma_names();
    let index = event_index(event);
    lemma_place(stream.drafts, index);
    let at = place(stream.drafts, index);
    if at >= 0 {
        assert(stream.drafts[at].index == index);
    }
}

/// The input that is parsed where an event ends a tool block is all that was gathered for it.
pub proof fn lemma_input_is_parsed(stream: MessagesStream, event: Json, i: int)
    requires
        0 <= i < stream.drafts.len(),
        forall|j: int|
            0 <= j < stream.drafts.len() && j != i ==> (#[trigger] stream.drafts[j]).index
                != stream.drafts[i].index,
        kind_in(event) == "content_block_stop"@,
        count_at(field(event, "index"@)) == stream.drafts[i].index,
    ensures
        ended_input(stream, event) == stream.drafts[i].arguments,
{
    lemma_names();
    lemma_place(stream.drafts, event_index(event));
    let at = place(stream.drafts, event_index(event));
    if at != i && at >= 0 {
        assert(stream.drafts[at].index != stream.drafts[i].index);
    }
    if at < 0 {
        assert(stream.drafts[i].index != event_index(event));
    }
}

// ---------------------------------------------------------------------------
// The end
// ---------------------------------------------------------------------------

/// Why a completion finished, for the reasons to stop that are known.
pub open spec fn finish_for(stop: Option<Seq<char>>) -> Option<Seq<char>> {
    if stop == Some("end_turn"@) || stop == Some("stop_sequence"@) {
        Some("stop"@)
    } else if stop == Some("max_tokens"@) {
        Some("length"@)
    } else if stop == Some("tool_use"@) {
        Some("tool_calls"@)
    } else if stop == Some("refusal"@) {
        Some("content_filter"@)
    } else {
        None
    }
}

/// A stream that has begun ends well exactly where no tool block is open and the reason to stop is
/// known. Its last chunk is in place for a client that has read it so far, which then knows why it
/// finished and how many tokens it took, and has read nothing else.
pub proof fn lemma_end_is_read(stream: MessagesStream, reader: Reader)
    requires
        agrees(stream, reader),
        !stream.finished,
    ensures
        concluded(stream).1 is Ok <==> stream.started && stream.drafts.len() == 0 && finish_for(
            stream.stop,
        ) is Some,
        concluded(stream).1 matches Ok(last) ==> last is Some && read(reader, last->Some_0) == Some(
            Reader {
                finish: finish_for(stream.stop),
                input: stream.input,
                output: stream.output,
                ..reader
            },
        ),
{
    lemma_names();
    assert(reader.text + Seq::<char>::empty() =~= reader.text);
    assert(reader.thought + Seq::<char>::empty() =~= reader.thought);
    if concluded(stream).1 is Ok {
        let last = last_chunk(stream, finish_for(stream.stop)->Some_0);
        assert(concluded(stream).1 == Ok::<Option<Json>, crate::codec::error::Refusal>(Some(last)));
        assert(calls_in(last).len() == 0);
    }
}

/// A whole Messages stream, however it is cut, is read as one whole completion: the text, the
/// thinking and the tool calls are those of the events, no tool block is left open, and the
/// completion has the model that the decoder was made with, the id of the message, the reason to
/// stop that the stream gave and the tokens that it counted.
pub proof fn lemma_whole_stream(model: Seq<char>, bytes: Seq<u8>)
    ensures
        ({
            let (pending, stream, chunks) = run(
                messages_handler(),
                nothing(),
                fresh_stream(model),
                bytes,
            );
            let frames = frames_in(nothing(), bytes).1;
            let last = concluded(stream).1;
            chunks is Ok && last is Ok && bytes.len() < u64::MAX ==> {
                &&& last->Ok_0 is Some
                &&& read_all(new_reader(), chunks->Ok_0.push(last->Ok_0->Some_0)) matches Some(done)
                    && has_read(done, frames) && done.model == model && Some(done.id) == message_id(
                    frames,
                ) && done.finish is Some && done.finish == finish_for(last_stop(frames))
                    && done.input == last_count(frames, "input_tokens"@) && done.output
                    == last_count(frames, "output_tokens"@)
                &&& forall|index: u64| !(#[trigger] tools_in(frames).open.contains_key(index))
            }
        }),
{
    let (pending, stream, chunks) = run(
        messages_handler(),
        nothing(),
        fresh_stream(model),
        bytes,
    );
    let frames = frames_in(nothing(), bytes).1;
    let last = concluded(stream).1;
    if chunks is Ok && last is Ok && bytes.len() < u64::MAX {
        lemma_stream_is_read(model, bytes);
        let reader = read_all(new_reader(), chunks->Ok_0)->Some_0;
        lemma_end_is_read(stream, reader);
        let end = last->Ok_0->Some_0;
        assert(chunks->Ok_0.push(end).drop_last() =~= chunks->Ok_0);
    }
}

} // verus!
