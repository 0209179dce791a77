//! What goes out as server-sent events comes in again as the events that were sent.
use vstd::prelude::*;
use vstd::string::*;
use vstd::utf8::*;

use crate::codec::chat::{event_text, written};
use crate::codec::framing_laws::{
    between_lines, data_name, frames_in, is_end, lemma_frame, lemma_frames_by_parts,
    lemma_other_line, lemma_text_is_read, within_line,
};
use crate::codec::messages::{chunk_text, done_text, ending};
use crate::codec::messages_meaning::kind_in;
use crate::json::{printed, Json};

verus! {

proof fn lemma_encode_append(first: Seq<char>, second: Seq<char>)
    ensures
        encode_utf8(first + second) == encode_utf8(first) + encode_utf8(second),
    decreases first.len(),
{
    if first.len() == 0 {
        assert(first + second =~= second);
        assert(encode_utf8(first) + encode_utf8(second) =~= encode_utf8(second));
    } else {
        lemma_encode_append(first.drop_first(), second);
        assert((first + second).drop_first() =~= first.drop_first() + second);
        let head = encode_scalar(first[0] as u32);
        assert(head + (encode_utf8(first.drop_first()) + encode_utf8(second)) =~= (head
            + encode_utf8(first.drop_first())) + encode_utf8(second));
    }
}

proof fn lemma_scalar_has(scalar: u32, byte: u8)
    requires
        is_scalar(scalar),
        byte < 128,
        scalar != byte,
    ensures
        forall|i: int|
            0 <= i < encode_scalar(scalar).len() ==> #[trigger] encode_scalar(scalar)[i] != byte,
{
    assert(scalar <= 0x7F && byte < 128 && scalar != byte ==> (scalar & 0x7F) as u8 != byte)
        by (bit_vector);
    assert(0xC0u8 | ((scalar >> 6) & 0x1F) as u8 >= 128) by (bit_vector);
    assert(0xE0u8 | ((scalar >> 12) & 0x0F) as u8 >= 128) by (bit_vector);
    assert(0xF0u8 | ((scalar >> 18) & 0x7) as u8 >= 128) by (bit_vector);
    assert(0x80u8 | (scalar & 0x3F) as u8 >= 128) by (bit_vector);
    assert(0x80u8 | ((scalar >> 6) & 0x3F) as u8 >= 128) by (bit_vector);
    assert(0x80u8 | ((scalar >> 12) & 0x3F) as u8 >= 128) by (bit_vector);
}

proof fn lemma_encode_has(text: Seq<char>, byte: u8)
    requires
        byte < 128,
        forall|i: int| 0 <= i < text.len() ==> (#[trigger] text[i]) as u32 != byte,
    ensures
        forall|i: int|
            0 <= i < encode_utf8(text).len() ==> #[trigger] encode_utf8(text)[i] != byte,
    decreases text.len(),
{
    if text.len() > 0 {
        let rest = text.drop_first();
        assert forall|i: int| 0 <= i < rest.len() implies (#[trigger] rest[i]) as u32 != byte by {
            assert(rest[i] == text[i + 1]);
        }
        lemma_encode_has(rest, byte);
        char_is_scalar(text[0]);
        lemma_scalar_has(text[0] as u32, byte);
        let head = encode_scalar(text[0] as u32);
        assert forall|i: int| 0 <= i < encode_utf8(text).len() implies
            #[trigger] encode_utf8(text)[i] != byte by {
            if i < head.len() {
                assert(encode_utf8(text)[i] == head[i]);
            } else {
                assert(encode_utf8(text)[i] == encode_utf8(rest)[i - head.len()]);
            }
        }
    }
}

/// Whether a text is one line.
pub open spec fn is_one_line(text: Seq<char>) -> bool {
    forall|i: int| 0 <= i < text.len() ==> (#[trigger] text[i]) != '\n' && text[i] != '\r'
}

proof fn lemma_char(c: char)
    requires
        c != '\n' && c != '\r',
    ensures
        c as u32 != 10u8 && c as u32 != 13u8,
{
    char_u32_cast(c, c as u32);
}

proof fn lemma_one_line(text: Seq<char>)
    requires
        is_one_line(text),
    ensures
        within_line(encode_utf8(text)),
        encode_utf8(text).len() > 0 ==> encode_utf8(text).last() != 13,
{
    assert forall|i: int| 0 <= i < text.len() implies (#[trigger] text[i]) as u32 != 10u8 && text[i]
        as u32 != 13u8 by {
        lemma_char(text[i]);
    }
    lemma_encode_has(text, 10);
    lemma_encode_has(text, 13);
}

proof fn lemma_ascii(text: Seq<char>, bytes: Seq<u8>)
    requires
        text.len() == bytes.len(),
        forall|i: int| 0 <= i < text.len() ==> (#[trigger] text[i]) as u8 == bytes[i],
        is_ascii_chars(text),
    ensures
        encode_utf8(text) == bytes,
{
    is_ascii_chars_encode_utf8(text);
    assert(encode_utf8(text) =~= bytes);
}

/// The frames that a text comes to where it comes in.
pub open spec fn frames_of(text: Seq<char>) -> Seq<Seq<u8>> {
    frames_in(between_lines(None), encode_utf8(text)).1
}

/// Whether a text comes in as one frame with some data, and leaves nothing behind.
pub open spec fn carries(text: Seq<char>, data: Seq<char>) -> bool {
    frames_in(between_lines(None), encode_utf8(text)) == (
        between_lines(None),
        seq![encode_utf8(data)],
    )
}

proof fn lemma_data_text(data: Seq<char>)
    requires
        is_one_line(data),
    ensures
        carries("data: "@ + data + "\n\n"@, data),
        encode_utf8("data: "@ + data + "\n\n"@) == (data_name() + seq![32u8] + encode_utf8(
            data,
        )).push(10) + seq![10u8],
{
    reveal_strlit("data: ");
    reveal_strlit("\n\n");
    let name = data_name() + seq![32u8];
    lemma_ascii("data: "@, name);
    lemma_ascii("\n\n"@, seq![10u8, 10u8]);
    lemma_encode_append("data: "@ + data, "\n\n"@);
    lemma_encode_append("data: "@, data);
    lemma_one_line(data);
    lemma_frame(encode_utf8(data));
    assert(encode_utf8("data: "@ + data + "\n\n"@) =~= (name + encode_utf8(data)).push(10)
        + seq![10u8]);
}

/// A chunk goes out as one frame, which holds the chunk as JSON and nothing else.
pub proof fn lemma_chunk_is_framed(chunk: Json)
    ensures
        is_one_line(printed(chunk)) ==> carries(chunk_text(chunk), printed(chunk)),
{
    if is_one_line(printed(chunk)) {
        lemma_data_text(printed(chunk));
    }
}

/// The mark at the end goes out as one frame, which is read as the end.
pub proof fn lemma_done_is_framed()
    ensures
        frames_of(done_text()).len() == 1,
        is_end(frames_of(done_text())[0]),
{
    reveal_strlit("data: [DONE]\n\n");
    reveal_strlit("data: ");
    reveal_strlit("[DONE]");
    reveal_strlit("\n\n");
    assert(done_text() =~= "data: "@ + "[DONE]"@ + "\n\n"@);
    lemma_data_text("[DONE]"@);
    lemma_text_is_read("[DONE]"@);
}

/// An event goes out as one frame, which holds the event as JSON and nothing else, under a line
/// with its kind.
pub proof fn lemma_event_is_framed(event: Json)
    ensures
        ("event: "@ + kind_in(event) + "\n"@).is_prefix_of(event_text(event)),
        is_one_line(printed(event)) && is_one_line(kind_in(event)) ==> carries(
            event_text(event),
            printed(event),
        ),
{
    reveal_strlit("event: ");
    reveal_strlit("\n");
    reveal_strlit("\ndata: ");
    reveal_strlit("data: ");
    reveal_strlit("\n\n");
    let kind = kind_in(event);
    let json = printed(event);
    let head = "event: "@ + kind;
    let line = "data: "@ + json + "\n\n"@;
    assert(event_text(event) =~= head + "\n"@ + line);
    assert((head + "\n"@) =~= event_text(event).subrange(0, (head + "\n"@).len() as int));
    if is_one_line(json) && is_one_line(kind) {
        let mark = seq![101u8, 118u8, 101u8, 110u8, 116u8, 58u8, 32u8];
        lemma_ascii("event: "@, mark);
        lemma_ascii("\n"@, seq![10u8]);
        lemma_encode_append(head + "\n"@, line);
        lemma_encode_append(head, "\n"@);
        lemma_encode_append("event: "@, kind);
        lemma_one_line(kind);
        lemma_data_text(json);
        let first = mark + encode_utf8(kind);
        assert(encode_utf8(head + "\n"@) =~= first.push(10));
        assert forall|i: int| 0 <= i < first.len() implies #[trigger] first[i] != 10 by {
            if i >= 7 {
                assert(first[i] == encode_utf8(kind)[i - 7]);
            }
        }
        assert(first[0] == 101u8);
        if data_name().is_prefix_of(first) {
            assert(first.subrange(0, 5)[0] == data_name()[0]);
        }
        lemma_other_line(None, first);
        lemma_frames_by_parts(between_lines(None), first.push(10), encode_utf8(line));
        assert(Seq::<Seq<u8>>::empty() + seq![encode_utf8(json)] =~= seq![encode_utf8(json)]);
    }
}

/// Events go out one by one, in order, each as itself.
pub proof fn lemma_events_are_written(events: Seq<Json>)
    ensures
        written(Ok(events)) matches Ok(texts) && texts.len() == events.len() && forall|i: int|
            0 <= i < events.len() ==> #[trigger] texts[i] == event_text(events[i]),
{
}

/// Chunks go out one by one, in order, each as itself.
pub proof fn lemma_chunks_are_written(chunks: Seq<Json>)
    ensures
        crate::codec::messages::written(Ok(chunks)) matches Ok(texts) && texts.len() == chunks.len()
            && forall|i: int|
            0 <= i < chunks.len() ==> #[trigger] texts[i] == chunk_text(chunks[i]),
{
}

/// The last chunk of a stream goes out in front of the mark that ends it; a stream that has
/// finished sends nothing more.
pub proof fn lemma_ending(chunk: Json)
    ensures
        ending(Ok(Some(chunk))) matches Ok(texts) && texts.len() == 2 && texts[0] == chunk_text(
            chunk,
        ) && texts[1] == done_text(),
        ending(Ok(None)) == Ok::<Seq<Seq<char>>, crate::codec::error::Refusal>(Seq::empty()),
{
}

} // verus!
