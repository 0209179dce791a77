//! Server-sent events: frames out of bytes, however the bytes are cut into pieces.
use vstd::prelude::*;
use vstd::string::*;
use vstd::utf8::*;

use crate::codec::error::Refusal;
use crate::json::{outcome, parse_json, parsed, seen_string, Json, JsonValue};
use crate::text::same_text;

verus! {

/// Trusted: `String::from_utf8` of std, which gives the text that the bytes encode, or an error
/// where they are not valid UTF-8.
#[verifier::external_body]
fn decode_text(bytes: Vec<u8>) -> (r: Option<String>)
    ensures
        seen_string(r) == (if valid_utf8(bytes@) {
            Some(decode_utf8(bytes@))
        } else {
            None
        }),
{
    String::from_utf8(bytes).ok()
}

/// What the data of a frame holds: the mark that ends a stream, an event, or neither.
pub enum FrameModel {
    Done,
    Bad,
    Event(Json),
}

/// What the data of a frame holds: the mark that ends a stream, an event, or neither.
#[derive(Debug)]
pub enum Frame {
    Done,
    Bad,
    Event(JsonValue),
}

impl View for Frame {
    type V = FrameModel;

    open spec fn view(&self) -> FrameModel {
        match self {
            Frame::Done => FrameModel::Done,
            Frame::Bad => FrameModel::Bad,
            Frame::Event(value) => FrameModel::Event(value@),
        }
    }
}

/// What a text holds, given what parsing it as JSON gives. An event is a record.
pub open spec fn classified(text: Seq<char>, reading: Result<Json, Seq<char>>) -> FrameModel {
    if text == "[DONE]"@ {
        FrameModel::Done
    } else {
        match reading {
            Ok(value) => if value is Record {
                FrameModel::Event(value)
            } else {
                FrameModel::Bad
            },
            Err(_) => FrameModel::Bad,
        }
    }
}

/// What the data of a frame holds.
pub open spec fn frame_of(data: Seq<u8>) -> FrameModel {
    if valid_utf8(data) {
        classified(decode_utf8(data), parsed(decode_utf8(data)))
    } else {
        FrameModel::Bad
    }
}

/// What a text holds, given what parsing it as JSON gave.
pub fn classify(text: &str, reading: Result<JsonValue, String>) -> (r: Frame)
    ensures
        r@ == classified(text@, outcome(reading)),
{
    if same_text(text, "[DONE]") {
        return Frame::Done;
    }
    match reading {
        Ok(value) => if value.is_object() {
            Frame::Event(value)
        } else {
            Frame::Bad
        },
        Err(_) => Frame::Bad,
    }
}

/// Reads the data of a frame.
pub fn read_frame(data: Vec<u8>) -> (r: Frame)
    ensures
        r@ == frame_of(data@),
{
    match decode_text(data) {
        Some(text) => {
            let reading = parse_json(text.as_str());
            classify(text.as_str(), reading)
        },
        None => Frame::Bad,
    }
}

/// What has come in since the last frame: the line that is not yet ended, and the data of the
/// frame that is not yet ended.
pub struct Pending {
    pub line: Seq<u8>,
    pub data: Option<Seq<u8>>,
}

/// The bytes of a line without the carriage return at its end.
pub open spec fn without_return(line: Seq<u8>) -> Seq<u8> {
    if line.len() > 0 && line.last() == 13 {
        line.drop_last()
    } else {
        line
    }
}

/// `data:`
pub open spec fn data_mark() -> Seq<u8> {
    seq![100u8, 97u8, 116u8, 97u8, 58u8]
}

/// What a data line carries, without the one space that may follow the mark; other lines carry
/// nothing.
pub open spec fn data_of(line: Seq<u8>) -> Option<Seq<u8>> {
    if line.len() >= 5 && line.take(5) == data_mark() {
        if line.len() >= 6 && line[5] == 32 {
            Some(line.skip(6))
        } else {
            Some(line.skip(5))
        }
    } else {
        None
    }
}

/// The data of a frame with one more line of it.
pub open spec fn joined_data(data: Option<Seq<u8>>, more: Option<Seq<u8>>) -> Option<Seq<u8>> {
    match (data, more) {
        (Some(before), Some(next)) => Some(before.push(10) + next),
        (None, next) => next,
        (before, None) => before,
    }
}

/// One byte more: what is then pending, and the frame that the byte ends, if it ends one that
/// has data.
pub open spec fn take_byte(pending: Pending, byte: u8) -> (Pending, Option<Seq<u8>>) {
    if byte != 10 {
        (Pending { line: pending.line.push(byte), data: pending.data }, None)
    } else {
        let line = without_return(pending.line);
        if line.len() == 0 {
            (Pending { line: Seq::empty(), data: None }, pending.data)
        } else {
            (
                Pending { line: Seq::empty(), data: joined_data(pending.data, data_of(line)) },
                None,
            )
        }
    }
}

/// Nothing pending.
pub open spec fn nothing() -> Pending {
    Pending { line: Seq::empty(), data: None }
}

/// What has come in since the last frame.
#[derive(Debug)]
pub struct Framing {
    line: Vec<u8>,
    data: Option<Vec<u8>>,
}

impl View for Framing {
    type V = Pending;

    closed spec fn view(&self) -> Pending {
        Pending {
            line: self.line@,
            data: match self.data {
                Some(data) => Some(data@),
                None => None,
            },
        }
    }
}

/// The bytes that may be missing.
pub open spec fn seen_bytes(bytes: Option<Vec<u8>>) -> Option<Seq<u8>> {
    match bytes {
        Some(b) => Some(b@),
        None => None,
    }
}

fn copy_from(bytes: &Vec<u8>, start: usize) -> (r: Vec<u8>)
    requires
        start <= bytes@.len(),
    ensures
        r@ == bytes@.skip(start as int),
{
    let mut out: Vec<u8> = Vec::new();
    let mut i: usize = start;
    while i < bytes.len()
        invariant
            start <= i <= bytes@.len(),
            out@ == bytes@.subrange(start as int, i as int),
        decreases bytes@.len() - i,
    {
        out.push(bytes[i]);
        i += 1;
    }
    assert(out@ =~= bytes@.skip(start as int));
    out
}

fn read_data(line: &Vec<u8>) -> (r: Option<Vec<u8>>)
    ensures
        seen_bytes(r) == data_of(line@),
{
    if line.len() >= 5 && line[0] == 100 && line[1] == 97 && line[2] == 116 && line[3] == 97
        && line[4] == 58 {
        assert(line@.take(5) =~= data_mark());
        if line.len() >= 6 && line[5] == 32 {
            Some(copy_from(line, 6))
        } else {
            Some(copy_from(line, 5))
        }
    } else {
        proof {
            if line@.len() >= 5 && line@.take(5) == data_mark() {
                let head = line@.take(5);
                assert(line@[0] == head[0] && line@[1] == head[1] && line@[2] == head[2] && line@[3]
                    == head[3] && line@[4] == head[4]);
            }
        }
        None
    }
}

impl Framing {
    /// Nothing has come in.
    pub fn new() -> (r: Framing)
        ensures
            r@ == nothing(),
    {
        let r = Framing { line: Vec::new(), data: None };
        assert(r@.line =~= Seq::<u8>::empty());
        r
    }

    /// Takes one byte in, and gives the frame that it ends.
    pub fn take(&mut self, byte: u8) -> (r: Option<Vec<u8>>)
        ensures
            (final(self)@, seen_bytes(r)) == take_byte(old(self)@, byte),
    {
        if byte != 10 {
            self.line.push(byte);
            return None;
        }
        let mut line: Vec<u8> = Vec::new();
        std::mem::swap(&mut line, &mut self.line);
        let ghost whole = line@;
        if line.len() > 0 && line[line.len() - 1] == 13 {
            line.pop();
            assert(line@ =~= whole.drop_last());
        }
        assert(self.line@ =~= Seq::<u8>::empty());
        if line.len() == 0 {
            let mut data: Option<Vec<u8>> = None;
            std::mem::swap(&mut data, &mut self.data);
            return data;
        }
        match read_data(&line) {
            Some(next) => {
                let mut next = next;
                let mut data: Option<Vec<u8>> = None;
                std::mem::swap(&mut data, &mut self.data);
                match data {
                    Some(before) => {
                        let mut before = before;
                        before.push(10);
                        before.append(&mut next);
                        self.data = Some(before);
                    },
                    None => {
                        self.data = Some(next);
                    },
                }
            },
            None => {},
        }
        None
    }
}

/// What a decoder makes of bytes: the frames go one by one to `handle`, until one is refused.
/// The result is what is pending then, the decoder's state then, and the events that came out.
pub open spec fn run<M, E>(
    handle: spec_fn(M, Seq<u8>) -> (M, Result<Seq<E>, Refusal>),
    pending: Pending,
    state: M,
    bytes: Seq<u8>,
) -> (Pending, M, Result<Seq<E>, Refusal>)
    decreases bytes.len(),
{
    if bytes.len() == 0 {
        (pending, state, Ok(Seq::empty()))
    } else {
        let (before, at, events) = run(handle, pending, state, bytes.drop_last());
        match events {
            Err(refused) => (before, at, Err(refused)),
            Ok(done) => {
                let (after, frame) = take_byte(before, bytes.last());
                match frame {
                    None => (after, at, Ok(done)),
                    Some(data) => {
                        let (next, more) = handle(at, data);
                        match more {
                            Ok(new) => (after, next, Ok(done + new)),
                            Err(refused) => (after, next, Err(refused)),
                        }
                    },
                }
            },
        }
    }
}

/// Bytes may be cut anywhere: two pieces, one after the other, have the effect of both at once.
pub proof fn lemma_fragmentation<M, E>(
    handle: spec_fn(M, Seq<u8>) -> (M, Result<Seq<E>, Refusal>),
    pending: Pending,
    state: M,
    first: Seq<u8>,
    second: Seq<u8>,
)
    ensures
        run(handle, pending, state, first + second) == ({
            let (between, at, events) = run(handle, pending, state, first);
            match events {
                Err(refused) => (between, at, Err(refused)),
                Ok(done) => {
                    let (after, next, more) = run(handle, between, at, second);
                    match more {
                        Ok(new) => (after, next, Ok(done + new)),
                        Err(refused) => (after, next, Err(refused)),
                    }
                },
            }
        }),
    decreases second.len(),
{
    let (between, at, events) = run(handle, pending, state, first);
    if second.len() == 0 {
        assert(first + second =~= first);
        if events is Ok {
            assert(events->Ok_0 + Seq::<E>::empty() =~= events->Ok_0);
        }
    } else {
        lemma_fragmentation(handle, pending, state, first, second.drop_last());
        assert((first + second).drop_last() =~= first + second.drop_last());
        assert((first + second).last() == second.last());
        if events is Ok {
            let done = events->Ok_0;
            let (after, next, more) = run(handle, between, at, second.drop_last());
            if more is Ok {
                let (after2, frame) = take_byte(after, second.last());
                if frame is Some {
                    let (next2, more2) = handle(next, frame->Some_0);
                    if more2 is Ok {
                        assert((done + more->Ok_0) + more2->Ok_0 =~= done + (more->Ok_0
                            + more2->Ok_0));
                    }
                }
            }
        }
    }
}

/// A carriage return before a line feed changes nothing.
pub proof fn lemma_line_endings(pending: Pending)
    requires
        pending.line.len() == 0 || pending.line.last() != 13,
    ensures
        take_byte(take_byte(pending, 13).0, 10) == take_byte(pending, 10),
        take_byte(pending, 13).1 is None,
{
    assert(pending.line.push(13).drop_last() =~= pending.line);
}

/// A refusal ends the stream: what comes after it is not looked at.
pub proof fn lemma_run_stops<M, E>(
    handle: spec_fn(M, Seq<u8>) -> (M, Result<Seq<E>, Refusal>),
    pending: Pending,
    state: M,
    bytes: Seq<u8>,
    i: int,
)
    requires
        0 <= i <= bytes.len(),
        run(handle, pending, state, bytes.take(i)).2 is Err,
    ensures
        run(handle, pending, state, bytes) == run(handle, pending, state, bytes.take(i)),
{
    assert(bytes.take(i) + bytes.skip(i) =~= bytes);
    lemma_fragmentation(handle, pending, state, bytes.take(i), bytes.skip(i));
}

} // verus!
