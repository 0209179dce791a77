//! What the bytes of server-sent events come to, line by line and frame by frame.
use vstd::prelude::*;
use vstd::string::*;
use vstd::utf8::*;

use crate::codec::error::{refusal, FeatureKind, Refusal};
use crate::codec::framing::{
    data_mark, data_of, frame_of, nothing, run, take_byte, without_return, FrameModel, Pending,
};
use crate::json::{parsed, Json};

verus! {

/// The frames that bytes end, in order, and what is pending then.
pub open spec fn frames_in(pending: Pending, bytes: Seq<u8>) -> (Pending, Seq<Seq<u8>>)
    decreases bytes.len(),
{
    if bytes.len() == 0 {
        (pending, Seq::empty())
    } else {
        let (before, frames) = frames_in(pending, bytes.drop_last());
        let (after, frame) = take_byte(before, bytes.last());
        (
            after,
            match frame {
                Some(data) => frames.push(data),
                None => frames,
            },
        )
    }
}

/// What a decoder makes of frames, one after the other, until one is refused.
pub open spec fn handled<M, E>(
    handle: spec_fn(M, Seq<u8>) -> (M, Result<Seq<E>, Refusal>),
    state: M,
    frames: Seq<Seq<u8>>,
) -> (M, Result<Seq<E>, Refusal>)
    decreases frames.len(),
{
    if frames.len() == 0 {
        (state, Ok(Seq::empty()))
    } else {
        let (at, events) = handled(handle, state, frames.drop_last());
        match events {
            Err(refused) => (at, Err(refused)),
            Ok(done) => {
                let (next, more) = handle(at, frames.last());
                match more {
                    Ok(new) => (next, Ok(done + new)),
                    Err(refused) => (next, Err(refused)),
                }
            },
        }
    }
}

/// What a decoder makes of bytes is what it makes of the frames in them: every frame is handled,
/// in order, and nothing else is.
pub proof fn lemma_run_is_frames<M, E>(
    handle: spec_fn(M, Seq<u8>) -> (M, Result<Seq<E>, Refusal>),
    pending: Pending,
    state: M,
    bytes: Seq<u8>,
)
    ensures
        run(handle, pending, state, bytes).1 == handled(
            handle,
            state,
            frames_in(pending, bytes).1,
        ).0,
        run(handle, pending, state, bytes).2 == handled(
            handle,
            state,
            frames_in(pending, bytes).1,
        ).1,
        run(handle, pending, state, bytes).2 is Ok ==> run(handle, pending, state, bytes).0
            == frames_in(pending, bytes).0,
    decreases bytes.len(),
{
    if bytes.len() > 0 {
        lemma_run_is_frames(handle, pending, state, bytes.drop_last());
        let (before, frames) = frames_in(pending, bytes.drop_last());
        let (after, frame) = take_byte(before, bytes.last());
        if frame is Some {
            assert(frames.push(frame->Some_0).drop_last() =~= frames);
        }
    }
}

/// Frames are found byte by byte: those of two pieces, one after the other, are those of both.
pub proof fn lemma_frames_by_parts(pending: Pending, first: Seq<u8>, second: Seq<u8>)
    ensures
        frames_in(pending, first + second).0 == frames_in(
            frames_in(pending, first).0,
            second,
        ).0,
        frames_in(pending, first + second).1 == frames_in(pending, first).1 + frames_in(
            frames_in(pending, first).0,
            second,
        ).1,
    decreases second.len(),
{
    if second.len() == 0 {
        assert(first + second =~= first);
        assert(frames_in(pending, first).1 + Seq::<Seq<u8>>::empty() =~= frames_in(
            pending,
            first,
        ).1);
    } else {
        lemma_frames_by_parts(pending, first, second.drop_last());
        assert((first + second).drop_last() =~= first + second.drop_last());
        assert(frames_in(pending, first + second).1 =~= frames_in(pending, first).1 + frames_in(
            frames_in(pending, first).0,
            second,
        ).1);
    }
}

/// A frame takes at least two bytes.
pub proof fn lemma_frames_are_few(data: Option<Seq<u8>>, bytes: Seq<u8>)
    ensures
        data is None ==> 2 * frames_in(between_lines(data), bytes).1.len() <= bytes.len(),
        2 * frames_in(between_lines(data), bytes).1.len() + (if frames_in(
            between_lines(data),
            bytes,
        ).0.data is Some {
            1int
        } else {
            0int
        }) <= bytes.len() + (if data is Some {
            1int
        } else {
            0int
        }),
    decreases bytes.len(),
{
    if bytes.len() > 0 {
        lemma_frames_are_few(data, bytes.drop_last());
    }
}

/// Whether bytes are within one line.
pub open spec fn within_line(bytes: Seq<u8>) -> bool {
    forall|i: int| 0 <= i < bytes.len() ==> #[trigger] bytes[i] != 10
}

proof fn lemma_within_line(pending: Pending, bytes: Seq<u8>)
    requires
        within_line(bytes),
    ensures
        frames_in(pending, bytes).0 == (Pending { line: pending.line + bytes, data: pending.data }),
        frames_in(pending, bytes).1 == Seq::<Seq<u8>>::empty(),
    decreases bytes.len(),
{
    if bytes.len() == 0 {
        assert(pending.line + bytes =~= pending.line);
    } else {
        let shorter = bytes.drop_last();
        assert forall|i: int| 0 <= i < shorter.len() implies #[trigger] shorter[i] != 10 by {
            assert(shorter[i] == bytes[i]);
        }
        lemma_within_line(pending, shorter);
        assert(bytes[bytes.len() - 1] != 10);
        assert((pending.line + shorter).push(bytes.last()) =~= pending.line + bytes);
    }
}

/// What is pending between two lines.
pub open spec fn between_lines(data: Option<Seq<u8>>) -> Pending {
    Pending { line: Seq::empty(), data }
}

proof fn lemma_whole_line(data: Option<Seq<u8>>, line: Seq<u8>)
    requires
        within_line(line),
    ensures
        frames_in(between_lines(data), line.push(10)).0 == take_byte(
            Pending { line, data },
            10,
        ).0,
        frames_in(between_lines(data), line.push(10)).1 == (match take_byte(
            Pending { line, data },
            10,
        ).1 {
            Some(frame) => seq![frame],
            None => Seq::empty(),
        }),
{
    lemma_within_line(between_lines(data), line);
    assert(Seq::<u8>::empty() + line =~= line);
    assert(line.push(10).drop_last() =~= line);
    let end = take_byte(Pending { line, data }, 10);
    if end.1 is Some {
        assert(Seq::<Seq<u8>>::empty().push(end.1->Some_0) =~= seq![end.1->Some_0]);
    }
}

/// `data:` in bytes.
pub open spec fn data_name() -> Seq<u8> {
    seq![100u8, 97u8, 116u8, 97u8, 58u8]
}

/// The lines of data so far, with one more behind a line feed.
pub open spec fn with_line(data: Option<Seq<u8>>, line: Seq<u8>) -> Seq<u8> {
    match data {
        Some(before) => before + seq![10u8] + line,
        None => line,
    }
}

/// A line of data adds what stands behind `data:` and one space to the frame, all of it and
/// nothing else, behind a line feed where it is not the first; it ends no frame. The space may be
/// missing, where the data does not begin with one.
pub proof fn lemma_data_line(data: Option<Seq<u8>>, content: Seq<u8>)
    requires
        within_line(content),
        content.len() > 0 ==> content.last() != 13,
    ensures
        frames_in(between_lines(data), (data_name() + seq![32u8] + content).push(10)) == (
            between_lines(Some(with_line(data, content))),
            Seq::<Seq<u8>>::empty(),
        ),
        content.len() == 0 || content[0] != 32 ==> frames_in(
            between_lines(data),
            (data_name() + content).push(10),
        ) == (between_lines(Some(with_line(data, content))), Seq::<Seq<u8>>::empty()),
{
    let spaced = data_name() + seq![32u8] + content;
    let bare = data_name() + content;
    assert forall|i: int| 0 <= i < spaced.len() implies #[trigger] spaced[i] != 10 by {
        if i >= 6 {
            assert(spaced[i] == content[i - 6]);
        }
    }
    assert forall|i: int| 0 <= i < bare.len() implies #[trigger] bare[i] != 10 by {
        if i >= 5 {
            assert(bare[i] == content[i - 5]);
        }
    }
    lemma_whole_line(data, spaced);
    lemma_whole_line(data, bare);
    assert(without_return(spaced) == spaced) by {
        if content.len() > 0 {
            assert(spaced.last() == content.last());
        } else {
            assert(spaced.last() == 32);
        }
    }
    assert(without_return(bare) == bare) by {
        if content.len() > 0 {
            assert(bare.last() == content.last());
        } else {
            assert(bare.last() == 58);
        }
    }
    assert(spaced.take(5) =~= data_mark());
    assert(bare.take(5) =~= data_mark());
    assert(spaced.skip(6) =~= content);
    assert(bare.skip(5) =~= content);
    if content.len() > 0 && content[0] != 32 {
        assert(bare[5] == content[0]);
    }
    assert(data_of(spaced) == Some(content));
    if data is Some {
        assert(data->Some_0.push(10) + content =~= with_line(data, content));
    }
}

/// A decoder to which nothing has come in stands between two lines, without data.
pub proof fn lemma_nothing()
    ensures
        nothing() == between_lines(None),
{
}

/// An empty line ends the frame, which is the data of its lines; without data there is none.
pub proof fn lemma_blank_line(data: Option<Seq<u8>>)
    ensures
        frames_in(between_lines(data), seq![10u8]) == (
            between_lines(None),
            match data {
                Some(frame) => seq![frame],
                None => Seq::empty(),
            },
        ),
{
    lemma_whole_line(data, Seq::empty());
    assert(Seq::<u8>::empty().push(10) =~= seq![10u8]);
}

/// A line that does not begin with `data:` changes nothing.
pub proof fn lemma_other_line(data: Option<Seq<u8>>, line: Seq<u8>)
    requires
        within_line(line),
        line.len() > 0,
        line != seq![13u8],
        !data_name().is_prefix_of(line),
    ensures
        frames_in(between_lines(data), line.push(10)) == (
            between_lines(data),
            Seq::<Seq<u8>>::empty(),
        ),
{
    lemma_whole_line(data, line);
    let inside = without_return(line);
    if inside.len() == 0 {
        assert(line =~= seq![13u8]);
    }
    if inside.len() >= 5 && inside.take(5) == data_mark() {
        assert(line.subrange(0, 5) =~= data_mark());
        assert(line.subrange(0, 5) =~= data_name());
    }
}

/// A line may end in a carriage return and a line feed: the return is no part of the line.
pub proof fn lemma_carriage_return(data: Option<Seq<u8>>, line: Seq<u8>)
    requires
        within_line(line),
        line.len() > 0 ==> line.last() != 13,
    ensures
        frames_in(between_lines(data), line.push(13).push(10)) == frames_in(
            between_lines(data),
            line.push(10),
        ),
{
    let long = line.push(13);
    assert forall|i: int| 0 <= i < long.len() implies #[trigger] long[i] != 10 by {
        if i < line.len() {
            assert(long[i] == line[i]);
        }
    }
    lemma_whole_line(data, long);
    lemma_whole_line(data, line);
    assert(long.drop_last() =~= line);
}

/// A frame of one line of data comes out as that data, and leaves nothing behind.
pub proof fn lemma_frame(content: Seq<u8>)
    requires
        within_line(content),
        content.len() > 0 ==> content.last() != 13,
    ensures
        frames_in(
            between_lines(None),
            (data_name() + seq![32u8] + content).push(10) + seq![10u8],
        ) == (between_lines(None), seq![content]),
{
    let line = (data_name() + seq![32u8] + content).push(10);
    lemma_data_line(None, content);
    lemma_blank_line(Some(content));
    lemma_frames_by_parts(between_lines(None), line, seq![10u8]);
    assert(Seq::<Seq<u8>>::empty() + seq![content] =~= seq![content]);
}

/// The event that the data of a frame holds: it is the text of a JSON record, and not the mark
/// that ends a stream.
pub open spec fn event_in(data: Seq<u8>) -> Option<Json> {
    if valid_utf8(data) && decode_utf8(data) != "[DONE]"@ {
        match parsed(decode_utf8(data)) {
            Ok(Json::Record(record)) => Some(Json::Record(record)),
            _ => None,
        }
    } else {
        None
    }
}

/// Whether the data of a frame is the mark that ends a stream.
pub open spec fn is_end(data: Seq<u8>) -> bool {
    valid_utf8(data) && decode_utf8(data) == "[DONE]"@
}

/// The data of a frame is the mark, or an event, or it is bad.
pub proof fn lemma_frame_kinds(data: Seq<u8>)
    ensures
        is_end(data) ==> frame_of(data) is Done,
        event_in(data) matches Some(event) ==> frame_of(data) == FrameModel::Event(event),
        !is_end(data) && event_in(data) is None ==> frame_of(data) is Bad,
{
}

/// A text that is sent as UTF-8 is read as that text.
pub proof fn lemma_text_is_read(text: Seq<char>)
    ensures
        text == "[DONE]"@ ==> is_end(encode_utf8(text)),
        text != "[DONE]"@ ==> (parsed(text) matches Ok(value) && value is Record ==> event_in(
            encode_utf8(text),
        ) == Some(parsed(text)->Ok_0)),
        text != "[DONE]"@ && !(parsed(text) matches Ok(value) && value is Record) ==> event_in(
            encode_utf8(text),
        ) is None && !is_end(encode_utf8(text)),
{
    encode_utf8_valid_utf8(text);
    encode_utf8_decode_utf8(text);
}

/// A refusal says what it refuses and where: one code and one place.
pub proof fn lemma_refusal(kind: FeatureKind, pointer: Seq<char>)
    ensures
        refusal(kind, pointer).features == seq![kind.stable_code()],
        refusal(kind, pointer).json_pointers == seq![pointer],
{
}

} // verus!
