//! What holds of every Messages stream.
use vstd::prelude::*;
use vstd::string::*;

use crate::chat::field_of;
use crate::codec::chat::{integer, Draft};
use crate::codec::error::{refusal, FeatureKind, Refusal};
use crate::codec::framing::{frame_of, nothing, run, take_byte, Pending};
use crate::codec::messages::{
    block_ended, block_extended, call_chunk, chunk, concluded, done_text, ended_input, ending,
    event_index, event_taken, finish_reason, frame_taken, fresh_stream, messages_handler, place,
    text_chunks, MessagesStream,
};
use crate::json::{either, field, filled, parsed, text_field, text_in, Json};

verus! {

/// Whether every chunk names this model.
pub open spec fn all_name(chunks: Seq<Json>, model: Seq<char>) -> bool {
    forall|i: int|
        0 <= i < chunks.len() ==> text_field(#[trigger] chunks[i], "model"@) == Some(model)
}

proof fn lemma_chunk_names(stream: MessagesStream, delta: Map<Seq<char>, Json>, finish: Json)
    ensures
        text_field(Json::Record(chunk(stream, delta, finish)), "model"@) == Some(stream.model),
        forall|usage: Json|
            text_field(
                Json::Record(#[trigger] chunk(stream, delta, finish).insert("usage"@, usage)),
                "model"@,
            ) == Some(stream.model),
{
    reveal_strlit("model");
    reveal_strlit("choices");
    reveal_strlit("usage");
    assert("model"@.len() == 5 && "model"@[0] == 'm');
    assert("choices"@.len() == 7);
    assert("usage"@.len() == 5 && "usage"@[0] == 'u');
}

/// What each event keeps: the model stays and every chunk names it, and the message begins with
/// the first chunk.
pub open spec fn in_step(
    before: MessagesStream,
    after: MessagesStream,
    chunks: Seq<Json>,
) -> bool {
    &&& after.model == before.model
    &&& after.finished == before.finished
    &&& all_name(chunks, before.model)
    &&& after.started ==> before.started || chunks.len() > 0
    &&& chunks.len() > 0 ==> after.started
    &&& before.started ==> after.started
}

/// An event that is let through keeps the model, and every chunk that comes out of it names it.
pub proof fn lemma_event_in_step(
    stream: MessagesStream,
    event: Json,
    reading: Result<Json, Seq<char>>,
)
    ensures
        event_taken(stream, event, reading).1 is Ok ==> in_step(
            stream,
            event_taken(stream, event, reading).0,
            event_taken(stream, event, reading).1->Ok_0,
        ),
{
    let (after, chunks) = event_taken(stream, event, reading);
    if chunks is Ok {
        let chunks = chunks->Ok_0;
        if chunks.len() > 0 {
            lemma_chunk_names(after, map!["role"@ => Json::Text("assistant"@)], Json::Null);
            let block = field(event, "content_block"@);
            let delta = field(event, "delta"@);
            lemma_text_chunks_name(stream, "content"@, filled(text_in(field_of(block, "text"@))));
            lemma_text_chunks_name(
                stream,
                "reasoning_content"@,
                filled(text_in(field_of(block, "thinking"@))),
            );
            lemma_text_chunks_name(stream, "content"@, filled(text_in(field_of(delta, "text"@))));
            lemma_text_chunks_name(
                stream,
                "reasoning_content"@,
                filled(text_in(field_of(delta, "thinking"@))),
            );
            let at = place(stream.drafts, event_index(event));
            lemma_call_chunk_names(stream, stream.drafts[at]);
        }
    }
}

proof fn lemma_text_chunks_name(
    stream: MessagesStream,
    member: Seq<char>,
    text: Option<Seq<char>>,
)
    ensures
        all_name(text_chunks(stream, member, text), stream.model),
{
    if text is Some {
        lemma_chunk_names(stream, map![member => Json::Text(text->Some_0)], Json::Null);
    }
}

proof fn lemma_call_chunk_names(stream: MessagesStream, draft: Draft)
    ensures
        text_field(call_chunk(stream, draft), "model"@) == Some(stream.model),
{
    let call = Json::Record(
        map![
            "index"@ => integer(stream.calls),
            "id"@ => Json::Text(draft.id),
            "type"@ => Json::Text("function"@),
            "function"@ => Json::Record(
                map!["name"@ => Json::Text(draft.name), "arguments"@ => Json::Text(draft.arguments)],
            ),
        ],
    );
    lemma_chunk_names(stream, map!["tool_calls"@ => Json::List(seq![call])], Json::Null);
}

/// However many bytes come in, every chunk names the model that the decoder was made with, and
/// the message has begun exactly where a chunk has come out.
pub proof fn lemma_run_in_step(pending: Pending, stream: MessagesStream, bytes: Seq<u8>)
    ensures
        run(messages_handler(), pending, stream, bytes).2 is Ok ==> in_step(
            stream,
            run(messages_handler(), pending, stream, bytes).1,
            run(messages_handler(), pending, stream, bytes).2->Ok_0,
        ),
    decreases bytes.len(),
{
    if bytes.len() > 0 {
        lemma_run_in_step(pending, stream, bytes.drop_last());
        let (before, at, chunks) = run(messages_handler(), pending, stream, bytes.drop_last());
        if chunks is Ok {
            let done = chunks->Ok_0;
            let (after, frame) = take_byte(before, bytes.last());
            if frame is Some {
                let read = frame_of(frame->Some_0);
                let (next, more) = frame_taken(at, read);
                if more is Ok {
                    if !at.finished && read is Event {
                        let event = read->Event_0;
                        lemma_event_in_step(at, event, parsed(ended_input(at, event)));
                    }
                    assert(in_step(at, next, more->Ok_0));
                    let all = done + more->Ok_0;
                    assert forall|i: int| 0 <= i < all.len() implies text_field(
                        #[trigger] all[i],
                        "model"@,
                    ) == Some(stream.model) by {
                        if i < done.len() {
                            assert(all[i] == done[i]);
                        } else {
                            assert(all[i] == more->Ok_0[i - done.len()]);
                        }
                    }
                }
            }
        }
    }
}

/// A stream that ends without having given a chunk is refused as an unknown event.
pub proof fn lemma_empty_stream_refused(model: Seq<char>, bytes: Seq<u8>)
    ensures
        run(messages_handler(), nothing(), fresh_stream(model), bytes).2 == Ok::<
            Seq<Json>,
            Refusal,
        >(Seq::empty()) ==> concluded(
            run(messages_handler(), nothing(), fresh_stream(model), bytes).1,
        ).1 == Err::<Option<Json>, Refusal>(refusal(FeatureKind::UnknownEvent, Seq::empty())),
{
    lemma_run_in_step(nothing(), fresh_stream(model), bytes);
}

/// A stream ends exactly once: where it ends well there is a last chunk, which names the model,
/// and ending it again gives nothing and changes nothing.
pub proof fn lemma_ends_once(stream: MessagesStream)
    requires
        !stream.finished,
        concluded(stream).1 is Ok,
    ensures
        concluded(stream).1->Ok_0 is Some,
        text_field(concluded(stream).1->Ok_0->Some_0, "model"@) == Some(stream.model),
        ending(concluded(stream).1)->Ok_0.last() == done_text(),
        concluded(concluded(stream).0) == (
            concluded(stream).0,
            Ok::<Option<Json>, Refusal>(None),
        ),
        ending(concluded(concluded(stream).0).1) == Ok::<Seq<Seq<char>>, Refusal>(Seq::empty()),
{
    let reason = finish_reason(stream.stop)->Some_0;
    lemma_chunk_names(stream, Map::empty(), Json::Text(reason));
}

/// A stream that has finished takes nothing in and gives nothing out.
pub proof fn lemma_finished_is_silent(pending: Pending, stream: MessagesStream, bytes: Seq<u8>)
    requires
        stream.finished,
    ensures
        run(messages_handler(), pending, stream, bytes).1 == stream,
        run(messages_handler(), pending, stream, bytes).2 == Ok::<Seq<Json>, Refusal>(
            Seq::empty(),
        ),
    decreases bytes.len(),
{
    if bytes.len() > 0 {
        lemma_finished_is_silent(pending, stream, bytes.drop_last());
        assert(Seq::<Json>::empty() + Seq::<Json>::empty() =~= Seq::<Json>::empty());
    }
}

/// A reason that is missing or not known is refused, and never becomes a normal stop.
pub proof fn lemma_unknown_reason_refused(stream: MessagesStream)
    requires
        !stream.finished,
    ensures
        stream.stop != Some("end_turn"@) && stream.stop != Some("stop_sequence"@) && stream.stop
            != Some("max_tokens"@) && stream.stop != Some("tool_use"@) && stream.stop != Some(
            "refusal"@,
        ) ==> concluded(stream).1 is Err,
        finish_reason(stream.stop) == Some("stop"@) <==> stream.stop == Some("end_turn"@)
            || stream.stop == Some("stop_sequence"@),
{
    reveal_strlit("stop");
    reveal_strlit("length");
    reveal_strlit("tool_calls");
    reveal_strlit("content_filter");
    assert("stop"@.len() == 4);
    assert("length"@.len() == 6);
    assert("tool_calls"@.len() == 10);
    assert("content_filter"@.len() == 14);
}

/// What has been gathered for the tool block of an index, where one is open.
pub open spec fn gathered_at(drafts: Seq<Draft>, index: u64) -> Option<Seq<char>> {
    if place(drafts, index) >= 0 {
        Some(drafts[place(drafts, index)].arguments)
    } else {
        None
    }
}

pub(crate) proof fn lemma_place(drafts: Seq<Draft>, index: u64)
    ensures
        -1 <= place(drafts, index) < drafts.len(),
        place(drafts, index) >= 0 ==> drafts[place(drafts, index)].index == index,
        place(drafts, index) < 0 ==> forall|i: int|
            0 <= i < drafts.len() ==> (#[trigger] drafts[i]).index != index,
    decreases drafts.len(),
{
    if drafts.len() > 0 && drafts.last().index != index {
        lemma_place(drafts.drop_last(), index);
        assert forall|i: int|
            place(drafts, index) < 0 && 0 <= i < drafts.len() implies (#[trigger] drafts[i]).index
            != index by {
            if i < drafts.len() - 1 {
                assert(drafts[i] == drafts.drop_last()[i]);
            }
        }
    }
}

proof fn lemma_place_update(drafts: Seq<Draft>, at: int, draft: Draft, index: u64)
    requires
        0 <= at < drafts.len(),
        draft.index == drafts[at].index,
    ensures
        place(drafts.update(at, draft), index) == place(drafts, index),
    decreases drafts.len(),
{
    let shorter = drafts.drop_last();
    let after = drafts.update(at, draft);
    if at < shorter.len() {
        assert(after.drop_last() =~= shorter.update(at, draft));
        lemma_place_update(shorter, at, draft, index);
    } else {
        assert(after.drop_last() =~= shorter);
    }
}

/// The input of a tool is gathered by index: a part goes to the tool block of its index, behind
/// what was there, and every other tool block keeps what it has.
pub proof fn lemma_input_by_index(stream: MessagesStream, event: Json, index: u64)
    requires
        text_in(field_of(field(event, "delta"@), "type"@)) == Some("input_json_delta"@),
        block_extended(stream, event).1 is Ok,
    ensures
        gathered_at(block_extended(stream, event).0.drafts, index) == (if index == event_index(
            event,
        ) {
            Some(
                gathered_at(stream.drafts, index)->Some_0 + either(
                    text_in(field_of(field(event, "delta"@), "partial_json"@)),
                    Seq::empty(),
                ),
            )
        } else {
            gathered_at(stream.drafts, index)
        }),
        gathered_at(stream.drafts, event_index(event)) is Some,
        block_extended(stream, event).1->Ok_0.len() == 0,
{
    reveal_strlit("input_json_delta");
    reveal_strlit("text_delta");
    reveal_strlit("thinking_delta");
    reveal_strlit("signature_delta");
    assert("input_json_delta"@.len() == 16);
    assert("text_delta"@.len() == 10);
    assert("thinking_delta"@.len() == 14);
    assert("signature_delta"@.len() == 15);
    let at = place(stream.drafts, event_index(event));
    let draft = stream.drafts[at];
    let grown = block_extended(stream, event).0.drafts[at];
    lemma_place(stream.drafts, event_index(event));
    lemma_place(stream.drafts, index);
    lemma_place_update(stream.drafts, at, grown, index);
}

/// Tool input is never rewritten: a tool block ends well only where its gathered input parses to
/// a record, and then that input comes out as it was gathered.
pub proof fn lemma_input_kept(
    stream: MessagesStream,
    event: Json,
    reading: Result<Json, Seq<char>>,
)
    requires
        gathered_at(stream.drafts, event_index(event)) is Some,
    ensures
        block_ended(stream, event, reading).1 is Ok <==> reading is Ok && reading->Ok_0 is Record,
        block_ended(stream, event, reading).1 is Ok ==> ({
            let draft = stream.drafts[place(stream.drafts, event_index(event))];
            &&& block_ended(stream, event, reading).1->Ok_0 == seq![call_chunk(stream, draft)]
            &&& draft.arguments == gathered_at(stream.drafts, event_index(event))->Some_0
        }),
        block_ended(stream, event, reading).1 is Err ==> block_ended(
            stream,
            event,
            reading,
        ).1->Err_0 == refusal(FeatureKind::InvalidToolArguments, "/delta/partial_json"@),
{
}

/// Thinking is never refused: it comes out as reasoning content.
pub proof fn lemma_thinking_shown(
    stream: MessagesStream,
    event: Json,
    reading: Result<Json, Seq<char>>,
    text: Seq<char>,
)
    requires
        stream.started,
        text_field(event, "type"@) == Some("content_block_delta"@),
        text_in(field_of(field(event, "delta"@), "type"@)) == Some("thinking_delta"@),
        filled(text_in(field_of(field(event, "delta"@), "thinking"@))) == Some(text),
    ensures
        event_taken(stream, event, reading) == (
            stream,
            Ok::<Seq<Json>, Refusal>(text_chunks(stream, "reasoning_content"@, Some(text))),
        ),
{
    reveal_strlit("content_block_delta");
    reveal_strlit("content_block_start");
    reveal_strlit("message_start");
    reveal_strlit("ping");
    reveal_strlit("text_delta");
    reveal_strlit("thinking_delta");
    assert("content_block_delta"@.len() == 19 && "content_block_delta"@[14] == 'd');
    assert("content_block_start"@.len() == 19 && "content_block_start"@[14] == 's');
    assert("message_start"@.len() == 13);
    assert("ping"@.len() == 4);
    assert("text_delta"@.len() == 10);
    assert("thinking_delta"@.len() == 14);
}

} // verus!
