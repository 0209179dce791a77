//! What holds of every Chat Completions stream.
use vstd::prelude::*;
use vstd::string::*;

use crate::chat::{field_of, first_choice};
use crate::codec::chat::{
    absorbed, advanced, all_gathered, begun, block_delta, block_ended, block_start, block_stop,
    chat_handler, concluded, draft_events, draft_fault, drafts_events, empty_block, first_fault,
    fragment, frame_taken, fresh_stream, gathered, message_delta, message_start, message_stop,
    stop_reason, text_added, text_shown, usage_noted, ChatStream, Draft, OpenBlock,
};
use crate::codec::error::{refusal, FeatureKind, Refusal};
use crate::codec::framing::{frame_of, nothing, run, take_byte, FrameModel, Pending};
use crate::json::{either, filled, list_in, text_field, text_in, Json};

verus! {

/// How many of the events are of this kind.
pub open spec fn occurrences(events: Seq<Json>, kind: Seq<char>) -> nat
    decreases events.len(),
{
    if events.len() == 0 {
        0
    } else {
        occurrences(events.drop_last(), kind) + (if text_field(events.last(), "type"@) == Some(
            kind,
        ) {
            1nat
        } else {
            0nat
        })
    }
}

proof fn lemma_occurrences_append(first: Seq<Json>, second: Seq<Json>, kind: Seq<char>)
    ensures
        occurrences(first + second, kind) == occurrences(first, kind) + occurrences(second, kind),
    decreases second.len(),
{
    if second.len() == 0 {
        assert(first + second =~= first);
    } else {
        lemma_occurrences_append(first, second.drop_last(), kind);
        assert((first + second).drop_last() =~= first + second.drop_last());
    }
}

proof fn lemma_occurrences_push(events: Seq<Json>, event: Json, kind: Seq<char>)
    ensures
        occurrences(events.push(event), kind) == occurrences(events, kind) + (if text_field(
            event,
            "type"@,
        ) == Some(kind) {
            1nat
        } else {
            0nat
        }),
{
    assert(events.push(event).drop_last() =~= events);
}

/// The kind of each event.
proof fn lemma_kinds(
    index: u64,
    block: Json,
    kind: Seq<char>,
    member: Seq<char>,
    text: Seq<char>,
    other: Seq<char>,
    input: u64,
    output: u64,
)
    ensures
        text_field(message_start(text, other, input), "type"@) == Some("message_start"@),
        text_field(block_start(index, block), "type"@) == Some("content_block_start"@),
        text_field(block_delta(index, kind, member, text), "type"@) == Some(
            "content_block_delta"@,
        ),
        text_field(block_stop(index), "type"@) == Some("content_block_stop"@),
        text_field(message_delta(text, input, output), "type"@) == Some("message_delta"@),
        text_field(message_stop(), "type"@) == Some("message_stop"@),
{
    reveal_strlit("type");
    reveal_strlit("message");
    reveal_strlit("index");
    reveal_strlit("content_block");
    reveal_strlit("delta");
    reveal_strlit("usage");
    assert("message"@.len() == 7);
    assert("type"@.len() == 4);
    assert("delta"@.len() == 5);
    assert("index"@.len() == 5);
    assert("usage"@.len() == 5);
    assert("content_block"@.len() == 13);
}

/// The kinds of events are different texts.
proof fn lemma_kinds_differ()
    ensures
        "message_start"@ != "content_block_start"@,
        "message_start"@ != "content_block_stop"@,
        "message_start"@ != "message_stop"@,
        "content_block_start"@ != "content_block_stop"@,
        "content_block_start"@ != "message_stop"@,
        "content_block_delta"@ != "content_block_start"@,
        "content_block_delta"@ != "content_block_stop"@,
        "content_block_delta"@ != "message_stop"@,
        "content_block_stop"@ != "message_stop"@,
        "message_delta"@ != "content_block_start"@,
        "message_delta"@ != "content_block_stop"@,
        "message_delta"@ != "message_stop"@,
{
    reveal_strlit("message_start");
    reveal_strlit("content_block_start");
    reveal_strlit("content_block_delta");
    reveal_strlit("content_block_stop");
    reveal_strlit("message_delta");
    reveal_strlit("message_stop");
    assert("message_start"@.len() == 13);
    assert("content_block_start"@.len() == 19);
    assert("content_block_delta"@.len() == 19);
    assert("content_block_delta"@[14] == 'd');
    assert("content_block_start"@[14] == 's');
    assert("content_block_stop"@.len() == 18);
    assert("message_delta"@.len() == 13);
    assert("message_stop"@.len() == 12);
}

/// One where a block is open.
pub open spec fn open_blocks(stream: ChatStream) -> int {
    if stream.block == OpenBlock::Closed {
        0
    } else {
        1
    }
}

/// What each step keeps: no event of it ends the message, a block that it begins is ended or
/// stays open, and a stream that has begun has given an event.
pub open spec fn in_step(before: ChatStream, after: ChatStream, events: Seq<Json>) -> bool {
    &&& occurrences(events, "message_stop"@) == 0
    &&& occurrences(events, "content_block_start"@) + open_blocks(before) == occurrences(
        events,
        "content_block_stop"@,
    ) + open_blocks(after)
    &&& after.finished == before.finished
    &&& after.started ==> before.started || events.len() > 0
}

proof fn lemma_steps(
    before: ChatStream,
    between: ChatStream,
    after: ChatStream,
    first: Seq<Json>,
    second: Seq<Json>,
)
    requires
        in_step(before, between, first),
        in_step(between, after, second),
    ensures
        in_step(before, after, first + second),
{
    lemma_occurrences_append(first, second, "message_stop"@);
    lemma_occurrences_append(first, second, "content_block_start"@);
    lemma_occurrences_append(first, second, "content_block_stop"@);
}

proof fn lemma_block_ended(stream: ChatStream)
    ensures
        in_step(stream, block_ended(stream).0, block_ended(stream).1),
{
    lemma_kinds(
        stream.next,
        Json::Null,
        Seq::empty(),
        Seq::empty(),
        Seq::empty(),
        Seq::empty(),
        0,
        0,
    );
    lemma_kinds_differ();
    let stop = block_stop(stream.next);
    let none = Seq::<Json>::empty();
    assert(none.push(stop) =~= seq![stop]);
    lemma_occurrences_push(none, stop, "message_stop"@);
    lemma_occurrences_push(none, stop, "content_block_start"@);
    lemma_occurrences_push(none, stop, "content_block_stop"@);
}

proof fn lemma_text_shown(stream: ChatStream, block: OpenBlock, text: Option<Seq<char>>)
    requires
        block != OpenBlock::Closed,
    ensures
        in_step(stream, text_shown(stream, block, text).0, text_shown(stream, block, text).1),
{
    if text is Some {
        let text = text->Some_0;
        lemma_block_ended(stream);
        lemma_kinds_differ();
        let (ended, events) = if stream.block == block {
            (stream, Seq::empty())
        } else {
            block_ended(stream)
        };
        let start = block_start(ended.next, empty_block(block));
        let added = text_added(ended.next, block, text);
        lemma_kinds(
            ended.next,
            empty_block(block),
            "thinking_delta"@,
            "thinking"@,
            text,
            Seq::empty(),
            0,
            0,
        );
        lemma_kinds(
            ended.next,
            empty_block(block),
            "text_delta"@,
            "text"@,
            text,
            Seq::empty(),
            0,
            0,
        );
        let begun = if stream.block == block {
            events
        } else {
            events.push(start)
        };
        lemma_occurrences_push(events, start, "message_stop"@);
        lemma_occurrences_push(events, start, "content_block_start"@);
        lemma_occurrences_push(events, start, "content_block_stop"@);
        lemma_occurrences_push(begun, added, "message_stop"@);
        lemma_occurrences_push(begun, added, "content_block_start"@);
        lemma_occurrences_push(begun, added, "content_block_stop"@);
        if stream.block == block {
            assert(events.push(added) =~= seq![added]);
        }
    }
}

/// A chunk never ends the message, and ends every block that it begins or leaves it open.
pub proof fn lemma_absorbed_in_step(stream: ChatStream, chunk: Json)
    ensures
        in_step(stream, absorbed(stream, chunk).0, absorbed(stream, chunk).1),
        absorbed(stream, chunk).0.started,
{
    let choice = first_choice(chunk);
    let delta = field_of(choice, "delta"@);
    let noted = usage_noted(stream, chunk);
    let (s1, e1) = begun(noted);
    let thought = filled(text_in(field_of(delta, "reasoning_content"@)));
    let (s2, e2) = text_shown(s1, OpenBlock::Thinking, thought);
    let said = filled(text_in(field_of(delta, "content"@)));
    let (s3, e3) = text_shown(s2, OpenBlock::Text, said);
    let start = message_start(noted.model, noted.id, noted.input);
    let none = Seq::<Json>::empty();
    lemma_kinds(0, Json::Null, Seq::empty(), Seq::empty(), noted.model, noted.id, noted.input, 0);
    lemma_kinds_differ();
    assert(none.push(start) =~= seq![start]);
    lemma_occurrences_push(none, start, "message_stop"@);
    lemma_occurrences_push(none, start, "content_block_start"@);
    lemma_occurrences_push(none, start, "content_block_stop"@);
    assert(in_step(stream, s1, e1));
    lemma_text_shown(s1, OpenBlock::Thinking, thought);
    lemma_steps(stream, s1, s2, e1, e2);
    lemma_text_shown(s2, OpenBlock::Text, said);
    lemma_steps(stream, s2, s3, e1 + e2, e3);
}

/// However many bytes come in, no event ends the message, every block that begins is ended or
/// is the one that is open, and a stream that has begun has given an event.
pub proof fn lemma_run_in_step(pending: Pending, stream: ChatStream, bytes: Seq<u8>)
    ensures
        run(chat_handler(), pending, stream, bytes).2 is Ok ==> in_step(
            stream,
            run(chat_handler(), pending, stream, bytes).1,
            run(chat_handler(), pending, stream, bytes).2->Ok_0,
        ),
    decreases bytes.len(),
{
    if bytes.len() > 0 {
        lemma_run_in_step(pending, stream, bytes.drop_last());
        let (before, at, events) = run(chat_handler(), pending, stream, bytes.drop_last());
        if events is Ok {
            let done = events->Ok_0;
            let (after, frame) = take_byte(before, bytes.last());
            if frame is Some {
                let read = frame_of(frame->Some_0);
                let (next, more) = frame_taken(at, read);
                if more is Ok {
                    if !at.finished && read is Event {
                        lemma_absorbed_in_step(at, read->Event_0);
                    } else {
                        assert(in_step(at, next, more->Ok_0));
                    }
                    lemma_steps(stream, at, next, done, more->Ok_0);
                }
            }
        }
    }
}

/// A stream that ends without having given an event is refused as an unknown event.
pub proof fn lemma_empty_stream_refused(
    model: Seq<char>,
    id: Seq<char>,
    bytes: Seq<u8>,
    readings: Seq<Result<Json, Seq<char>>>,
)
    ensures
        run(chat_handler(), nothing(), fresh_stream(model, id), bytes).2 == Ok::<
            Seq<Json>,
            Refusal,
        >(Seq::empty()) ==> concluded(
            run(chat_handler(), nothing(), fresh_stream(model, id), bytes).1,
            readings,
        ).1 == Err::<Seq<Json>, Refusal>(refusal(FeatureKind::UnknownEvent, Seq::empty())),
{
    lemma_run_in_step(nothing(), fresh_stream(model, id), bytes);
}

proof fn lemma_draft_events(draft: Draft, index: u64)
    ensures
        occurrences(draft_events(draft, index), "message_stop"@) == 0,
        occurrences(draft_events(draft, index), "content_block_start"@) == 1,
        occurrences(draft_events(draft, index), "content_block_stop"@) == 1,
{
    let events = draft_events(draft, index);
    lemma_kinds_differ();
    let none = Seq::<Json>::empty();
    lemma_kinds(
        index,
        Json::Record(
            map![
                "type"@ => Json::Text("tool_use"@),
                "id"@ => Json::Text(draft.id),
                "name"@ => Json::Text(draft.name),
                "input"@ => Json::Record(Map::empty()),
            ],
        ),
        "input_json_delta"@,
        "partial_json"@,
        draft.arguments,
        Seq::empty(),
        0,
        0,
    );
    assert(none.push(events[0]).push(events[1]).push(events[2]) =~= events);
    lemma_occurrences_push(none, events[0], "message_stop"@);
    lemma_occurrences_push(none, events[0], "content_block_start"@);
    lemma_occurrences_push(none, events[0], "content_block_stop"@);
    lemma_occurrences_push(none.push(events[0]), events[1], "message_stop"@);
    lemma_occurrences_push(none.push(events[0]), events[1], "content_block_start"@);
    lemma_occurrences_push(none.push(events[0]), events[1], "content_block_stop"@);
    lemma_occurrences_push(none.push(events[0]).push(events[1]), events[2], "message_stop"@);
    lemma_occurrences_push(none.push(events[0]).push(events[1]), events[2], "content_block_start"@);
    lemma_occurrences_push(none.push(events[0]).push(events[1]), events[2], "content_block_stop"@);
}

proof fn lemma_drafts_events(drafts: Seq<Draft>, at: u64)
    ensures
        occurrences(drafts_events(drafts, at), "message_stop"@) == 0,
        occurrences(drafts_events(drafts, at), "content_block_start"@) == occurrences(
            drafts_events(drafts, at),
            "content_block_stop"@,
        ),
        drafts_events(drafts, at).len() == 3 * drafts.len(),
        forall|i: int|
            0 <= i < drafts.len() ==> drafts_events(drafts, at).subrange(3 * i, 3 * i + 3)
                == #[trigger] draft_events(drafts[i], advanced(at, i as nat)),
    decreases drafts.len(),
{
    if drafts.len() > 0 {
        let shorter = drafts.drop_last();
        let last = drafts.len() - 1;
        let before = drafts_events(shorter, at);
        let new = draft_events(drafts.last(), advanced(at, last as nat));
        lemma_drafts_events(shorter, at);
        lemma_draft_events(drafts.last(), advanced(at, last as nat));
        lemma_occurrences_append(before, new, "message_stop"@);
        lemma_occurrences_append(before, new, "content_block_start"@);
        lemma_occurrences_append(before, new, "content_block_stop"@);
        assert forall|i: int| 0 <= i < drafts.len() implies drafts_events(drafts, at).subrange(
            3 * i,
            3 * i + 3,
        ) == #[trigger] draft_events(drafts[i], advanced(at, i as nat)) by {
            if i < last {
                assert(shorter[i] == drafts[i]);
                assert((before + new).subrange(3 * i, 3 * i + 3) =~= before.subrange(
                    3 * i,
                    3 * i + 3,
                ));
                assert(before.subrange(3 * i, 3 * i + 3) == draft_events(
                    shorter[i],
                    advanced(at, i as nat),
                ));
            } else {
                assert((before + new).subrange(3 * i, 3 * i + 3) =~= new);
            }
        }
    }
}

/// A message ends exactly once. The last events end every block, exactly one of them ends the
/// message, and it is the last; ending the stream again gives nothing and changes nothing.
pub proof fn lemma_ends_once(
    stream: ChatStream,
    readings: Seq<Result<Json, Seq<char>>>,
    again: Seq<Result<Json, Seq<char>>>,
)
    requires
        !stream.finished,
        concluded(stream, readings).1 is Ok,
    ensures
        occurrences(concluded(stream, readings).1->Ok_0, "message_stop"@) == 1,
        concluded(stream, readings).1->Ok_0.last() == message_stop(),
        occurrences(concluded(stream, readings).1->Ok_0, "content_block_start"@) + open_blocks(
            stream,
        ) == occurrences(concluded(stream, readings).1->Ok_0, "content_block_stop"@),
        concluded(stream, readings).0.finished,
        concluded(concluded(stream, readings).0, again) == (
            concluded(stream, readings).0,
            Ok::<Seq<Json>, Refusal>(Seq::empty()),
        ),
{
    let (ended, events) = block_ended(stream);
    let tools = drafts_events(stream.drafts, ended.next);
    let reason = stop_reason(stream.finish, stream.drafts.len() > 0)->Some_0;
    let delta = message_delta(reason, stream.input, stream.output);
    lemma_block_ended(stream);
    lemma_drafts_events(stream.drafts, ended.next);
    lemma_kinds_differ();
    lemma_kinds(
        0,
        Json::Null,
        Seq::empty(),
        Seq::empty(),
        reason,
        Seq::empty(),
        stream.input,
        stream.output,
    );
    lemma_occurrences_append(events, tools, "message_stop"@);
    lemma_occurrences_append(events, tools, "content_block_start"@);
    lemma_occurrences_append(events, tools, "content_block_stop"@);
    lemma_occurrences_push(events + tools, delta, "message_stop"@);
    lemma_occurrences_push(events + tools, delta, "content_block_start"@);
    lemma_occurrences_push(events + tools, delta, "content_block_stop"@);
    lemma_occurrences_push((events + tools).push(delta), message_stop(), "message_stop"@);
    lemma_occurrences_push((events + tools).push(delta), message_stop(), "content_block_start"@);
    lemma_occurrences_push((events + tools).push(delta), message_stop(), "content_block_stop"@);
}

/// A stream that has finished takes nothing in and gives nothing out.
pub proof fn lemma_finished_is_silent(pending: Pending, stream: ChatStream, bytes: Seq<u8>)
    requires
        stream.finished,
    ensures
        run(chat_handler(), pending, stream, bytes).1 == stream,
        run(chat_handler(), pending, stream, bytes).2 == Ok::<Seq<Json>, Refusal>(Seq::empty()),
    decreases bytes.len(),
{
    if bytes.len() > 0 {
        lemma_finished_is_silent(pending, stream, bytes.drop_last());
        assert(Seq::<Json>::empty() + Seq::<Json>::empty() =~= Seq::<Json>::empty());
    }
}

/// A reason that is not known is refused, whatever else the stream holds: it never becomes the
/// end of a turn. Only the reason `stop` does.
pub proof fn lemma_unknown_reason_refused(
    stream: ChatStream,
    readings: Seq<Result<Json, Seq<char>>>,
)
    requires
        !stream.finished,
    ensures
        stream.finish is Some && stream.finish != Some("stop"@) && stream.finish != Some(
            "length"@,
        ) && stream.finish != Some("tool_calls"@) && stream.finish != Some("content_filter"@)
            ==> concluded(stream, readings).1 is Err,
        stop_reason(stream.finish, stream.drafts.len() > 0) == Some("end_turn"@) <==> stream.finish
            == Some("stop"@),
        concluded(stream, readings).1 is Ok ==> ({
            let events = concluded(stream, readings).1->Ok_0;
            events[events.len() - 2] == message_delta(
                stop_reason(stream.finish, stream.drafts.len() > 0)->Some_0,
                stream.input,
                stream.output,
            )
        }),
{
    reveal_strlit("end_turn");
    reveal_strlit("max_tokens");
    reveal_strlit("tool_use");
    reveal_strlit("refusal");
    assert("end_turn"@.len() == 8 && "end_turn"@[0] == 'e');
    assert("max_tokens"@.len() == 10);
    assert("tool_use"@.len() == 8 && "tool_use"@[0] == 't');
    assert("refusal"@.len() == 7);
}

pub(crate) proof fn lemma_no_fault(drafts: Seq<Draft>, readings: Seq<Result<Json, Seq<char>>>)
    ensures
        first_fault(drafts, readings) is None <==> forall|i: int|
            0 <= i < drafts.len() ==> draft_fault(#[trigger] drafts[i], readings[i]) is None,
    decreases drafts.len(),
{
    if drafts.len() > 0 {
        let shorter = drafts.drop_last();
        lemma_no_fault(shorter, readings);
        if first_fault(drafts, readings) is None {
            assert forall|i: int| 0 <= i < drafts.len() implies draft_fault(
                #[trigger] drafts[i],
                readings[i],
            ) is None by {
                if i < shorter.len() {
                    assert(shorter[i] == drafts[i]);
                }
            }
        }
        if forall|i: int|
            0 <= i < drafts.len() ==> draft_fault(#[trigger] drafts[i], readings[i]) is None {
            assert forall|i: int| 0 <= i < shorter.len() implies draft_fault(
                #[trigger] shorter[i],
                readings[i],
            ) is None by {
                assert(shorter[i] == drafts[i]);
            }
            assert(draft_fault(drafts[drafts.len() - 1], readings[drafts.len() - 1]) is None);
        }
    }
}

/// Tool arguments are never rewritten. Where the stream ends well, the arguments of every tool
/// call parse to a record and go out as they came in, tool call by tool call, in the order of
/// their indices; where the arguments of one do not, the stream is refused.
pub proof fn lemma_arguments_kept(
    stream: ChatStream,
    readings: Seq<Result<Json, Seq<char>>>,
    i: int,
)
    requires
        !stream.finished,
        0 <= i < stream.drafts.len(),
    ensures
        !(readings[i] is Ok && readings[i]->Ok_0 is Record) ==> concluded(stream, readings).1 is Err,
        concluded(stream, readings).1 is Ok ==> ({
            let events = concluded(stream, readings).1->Ok_0;
            let (ended, closing) = block_ended(stream);
            events.subrange(closing.len() + 3 * i, closing.len() + 3 * i + 3) == draft_events(
                stream.drafts[i],
                advanced(ended.next, i as nat),
            )
        }),
{
    lemma_no_fault(stream.drafts, readings);
    let (ended, closing) = block_ended(stream);
    let tools = drafts_events(stream.drafts, ended.next);
    lemma_drafts_events(stream.drafts, ended.next);
    assert(tools.subrange(3 * i, 3 * i + 3) == draft_events(
        stream.drafts[i],
        advanced(ended.next, i as nat),
    ));
    if concluded(stream, readings).1 is Ok {
        let events = concluded(stream, readings).1->Ok_0;
        assert(events.subrange(closing.len() + 3 * i, closing.len() + 3 * i + 3)
            =~= tools.subrange(3 * i, 3 * i + 3));
    }
}

/// The tool calls stand in the order of their indices, and no index occurs twice.
pub open spec fn ordered(drafts: Seq<Draft>) -> bool {
    forall|i: int, j: int|
        0 <= i < j < drafts.len() ==> (#[trigger] drafts[i]).index < (#[trigger] drafts[j]).index
}

pub(crate) proof fn lemma_gathered_ordered(drafts: Seq<Draft>, part: Draft)
    requires
        ordered(drafts),
    ensures
        ordered(gathered(drafts, part)),
        forall|j: int|
            0 <= j < gathered(drafts, part).len() ==> (#[trigger] gathered(drafts, part)[j]).index
                == part.index || exists|k: int|
                0 <= k < drafts.len() && (#[trigger] drafts[k]).index == gathered(
                    drafts,
                    part,
                )[j].index,
    decreases drafts.len(),
{
    let after = gathered(drafts, part);
    if drafts.len() > 0 {
        let shorter = drafts.drop_last();
        let last = drafts.len() - 1;
        if drafts.last().index > part.index {
            lemma_gathered_ordered(shorter, part);
            let inner = gathered(shorter, part);
            assert forall|j: int| 0 <= j < after.len() implies (#[trigger] after[j]).index
                == part.index || exists|k: int|
                0 <= k < drafts.len() && (#[trigger] drafts[k]).index == after[j].index by {
                if j < inner.len() {
                    assert(after[j] == inner[j]);
                    if inner[j].index != part.index {
                        let k = choose|k: int|
                            0 <= k < shorter.len() && (#[trigger] shorter[k]).index
                                == inner[j].index;
                        assert(drafts[k].index == after[j].index);
                    }
                } else {
                    assert(drafts[last].index == after[j].index);
                }
            }
            assert forall|i: int, j: int| 0 <= i < j < after.len() implies (#[trigger] after[i]).index
                < (#[trigger] after[j]).index by {
                assert(after[i] == inner[i]);
                if j < inner.len() {
                    assert(after[j] == inner[j]);
                } else {
                    if inner[i].index != part.index {
                        let k = choose|k: int|
                            0 <= k < shorter.len() && (#[trigger] shorter[k]).index
                                == inner[i].index;
                        assert(drafts[k].index < drafts[last].index);
                    }
                }
            }
        } else {
            assert forall|j: int| 0 <= j < after.len() implies (#[trigger] after[j]).index
                == part.index || exists|k: int|
                0 <= k < drafts.len() && (#[trigger] drafts[k]).index == after[j].index by {
                if j < last {
                    assert(after[j] == drafts[j]);
                } else if j == last {
                    assert(drafts[last].index == after[j].index);
                }
            }
            assert forall|i: int, j: int| 0 <= i < j < after.len() implies (#[trigger] after[i]).index
                < (#[trigger] after[j]).index by {
                assert(after[i].index == drafts[i].index);
                if j < last {
                    assert(after[j] == drafts[j]);
                } else {
                    assert(drafts[i].index <= drafts[last].index);
                }
            }
        }
    }
}

proof fn lemma_all_gathered_ordered(drafts: Seq<Draft>, calls: Seq<Json>)
    requires
        ordered(drafts),
    ensures
        ordered(all_gathered(drafts, calls)),
    decreases calls.len(),
{
    if calls.len() > 0 {
        lemma_all_gathered_ordered(drafts, calls.drop_last());
        lemma_gathered_ordered(
            all_gathered(drafts, calls.drop_last()),
            fragment(calls.last(), (calls.len() - 1) as u64),
        );
    }
}

/// Whatever comes in, and in whatever order the parts of the tool calls come, the tool calls
/// stand in the order of their indices, each index once.
pub proof fn lemma_tools_stay_ordered(pending: Pending, stream: ChatStream, bytes: Seq<u8>)
    requires
        ordered(stream.drafts),
    ensures
        ordered(run(chat_handler(), pending, stream, bytes).1.drafts),
    decreases bytes.len(),
{
    if bytes.len() > 0 {
        lemma_tools_stay_ordered(pending, stream, bytes.drop_last());
        let (before, at, events) = run(chat_handler(), pending, stream, bytes.drop_last());
        if events is Ok {
            let (after, frame) = take_byte(before, bytes.last());
            if frame is Some {
                let read = frame_of(frame->Some_0);
                if read is Event {
                    let delta = field_of(first_choice(read->Event_0), "delta"@);
                    lemma_all_gathered_ordered(
                        at.drafts,
                        either(list_in(field_of(delta, "tool_calls"@)), Seq::empty()),
                    );
                }
            }
        }
    }
}

/// Whether the first of some events begins a message of this model and this id.
pub open spec fn begins_message(events: Seq<Json>, model: Seq<char>, id: Seq<char>) -> bool {
    events.len() > 0 && exists|input: u64| events[0] == #[trigger] message_start(model, id, input)
}

/// The first event that a stream gives begins the message, and names the model and the id that
/// the decoder was made with.
pub proof fn lemma_first_event(
    pending: Pending,
    model: Seq<char>,
    id: Seq<char>,
    bytes: Seq<u8>,
)
    ensures
        ({
            let (after, stream, events) = run(
                chat_handler(),
                pending,
                fresh_stream(model, id),
                bytes,
            );
            &&& stream.model == model && stream.id == id
            &&& events is Ok ==> !stream.started && events->Ok_0.len() == 0 || begins_message(
                events->Ok_0,
                model,
                id,
            )
        }),
    decreases bytes.len(),
{
    if bytes.len() > 0 {
        lemma_first_event(pending, model, id, bytes.drop_last());
        let (before, at, events) = run(
            chat_handler(),
            pending,
            fresh_stream(model, id),
            bytes.drop_last(),
        );
        if events is Ok {
            let done = events->Ok_0;
            let (after, frame) = take_byte(before, bytes.last());
            if frame is Some {
                let read = frame_of(frame->Some_0);
                let (next, more) = frame_taken(at, read);
                if more is Ok {
                    let all = done + more->Ok_0;
                    if done.len() > 0 {
                        let input = choose|input: u64|
                            done[0] == #[trigger] message_start(model, id, input);
                        assert(all[0] == message_start(model, id, input));
                    } else if !at.finished && read is Event {
                        let noted = usage_noted(at, read->Event_0);
                        assert(all[0] == message_start(model, id, noted.input));
                    }
                }
            }
        }
    }
}

/// A chunk is never refused, and its reasoning always comes out, in a thinking block.
pub proof fn lemma_reasoning_shown(stream: ChatStream, chunk: Json, text: Seq<char>)
    requires
        !stream.finished,
        filled(
            text_in(field_of(field_of(first_choice(chunk), "delta"@), "reasoning_content"@)),
        ) == Some(text),
    ensures
        frame_taken(stream, FrameModel::Event(chunk)).1 is Ok,
        exists|index: u64|
            frame_taken(stream, FrameModel::Event(chunk)).1->Ok_0.contains(
                #[trigger] text_added(index, OpenBlock::Thinking, text),
            ),
{
    let (s1, e1) = begun(usage_noted(stream, chunk));
    let (s2, e2) = text_shown(s1, OpenBlock::Thinking, Some(text));
    let added = text_added(s2.next, OpenBlock::Thinking, text);
    assert(e2.last() == added);
    let events = absorbed(stream, chunk).1;
    assert(events[e1.len() + e2.len() - 1] == added);
    assert(events.contains(added));
}

} // verus!
