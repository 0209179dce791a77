//! A Chat Completions stream as a stream of Messages events.
use vstd::prelude::*;
use vstd::string::*;

use crate::chat::{field_of, first_choice, get_first_choice, get_of};
use crate::codec::error::{refusal, texts_model, FeatureKind, Refusal, UnsupportedFeatures};
use crate::codec::framing::{
    frame_of, lemma_run_stops, nothing, read_frame, run, Frame, FrameModel, Framing, Pending,
};
use crate::folds::lemma_take_next;
use crate::json::{
    count_in, either, field, filled, lemma_list_append, lemma_list_push, list_in, list_model,
    outcome, parse_json, parsed, print_json, printed, seen, seen_string, seen_text, text_field,
    text_in, Json, JsonNumber, JsonValue, Object,
};
use crate::text::{decimal, same_text, write_decimal};

verus! {

/// The content block that is open.
#[derive(Clone, Copy, Debug, PartialEq, Eq, Structural)]
pub enum OpenBlock {
    Closed,
    Thinking,
    Text,
}

/// What has come in of a tool call.
pub struct Draft {
    pub index: u64,
    pub id: Seq<char>,
    pub name: Seq<char>,
    pub arguments: Seq<char>,
}

/// The state of a stream: what it is called, which block is open, the index of that block or of
/// the next one, the tool calls so far in the order of their indices, why it stopped, the token
/// counts, and how far it has come.
pub struct ChatStream {
    pub model: Seq<char>,
    pub id: Seq<char>,
    pub started: bool,
    pub block: OpenBlock,
    pub next: u64,
    pub drafts: Seq<Draft>,
    pub finish: Option<Seq<char>>,
    pub input: u64,
    pub output: u64,
    pub finished: bool,
}

/// A stream of which nothing has come in.
pub open spec fn fresh_stream(model: Seq<char>, id: Seq<char>) -> ChatStream {
    ChatStream {
        model,
        id,
        started: false,
        block: OpenBlock::Closed,
        next: 0,
        drafts: Seq::empty(),
        finish: None,
        input: 0,
        output: 0,
        finished: false,
    }
}

// ---------------------------------------------------------------------------
// The events
// ---------------------------------------------------------------------------

/// An integer as JSON.
pub open spec fn integer(n: u64) -> Json {
    Json::Number(JsonNumber::Integer(n as int))
}

/// The event that begins a message.
pub open spec fn message_start(model: Seq<char>, id: Seq<char>, input: u64) -> Json {
    Json::Record(
        map![
            "type"@ => Json::Text("message_start"@),
            "message"@ => Json::Record(
                map![
                    "id"@ => Json::Text(id),
                    "type"@ => Json::Text("message"@),
                    "role"@ => Json::Text("assistant"@),
                    "model"@ => Json::Text(model),
                    "content"@ => Json::List(Seq::empty()),
                    "stop_reason"@ => Json::Null,
                    "stop_sequence"@ => Json::Null,
                    "usage"@ => Json::Record(
                        map!["input_tokens"@ => integer(input), "output_tokens"@ => integer(0)],
                    ),
                ],
            ),
        ],
    )
}

/// The event that begins a block.
pub open spec fn block_start(index: u64, block: Json) -> Json {
    Json::Record(
        map![
            "type"@ => Json::Text("content_block_start"@),
            "index"@ => integer(index),
            "content_block"@ => block,
        ],
    )
}

/// The event that adds to a block. The kind of the addition is `kind`, and it stands in `member`.
pub open spec fn block_delta(
    index: u64,
    kind: Seq<char>,
    member: Seq<char>,
    text: Seq<char>,
) -> Json {
    Json::Record(
        map![
            "type"@ => Json::Text("content_block_delta"@),
            "index"@ => integer(index),
            "delta"@ => Json::Record(map!["type"@ => Json::Text(kind), member => Json::Text(text)]),
        ],
    )
}

/// The event that ends a block.
pub open spec fn block_stop(index: u64) -> Json {
    Json::Record(
        map!["type"@ => Json::Text("content_block_stop"@), "index"@ => integer(index)],
    )
}

/// The event that says why a message stopped and how many tokens it took.
pub open spec fn message_delta(stop_reason: Seq<char>, input: u64, output: u64) -> Json {
    Json::Record(
        map![
            "type"@ => Json::Text("message_delta"@),
            "delta"@ => Json::Record(
                map!["stop_reason"@ => Json::Text(stop_reason), "stop_sequence"@ => Json::Null],
            ),
            "usage"@ => Json::Record(
                map!["input_tokens"@ => integer(input), "output_tokens"@ => integer(output)],
            ),
        ],
    )
}

/// The event that ends a message.
pub open spec fn message_stop() -> Json {
    Json::Record(map!["type"@ => Json::Text("message_stop"@)])
}

fn make_message_start(model: &str, id: &str, input: u64) -> (r: JsonValue)
    ensures
        r@ == message_start(model@, id@, input),
{
    let usage = Object::new().with("input_tokens", JsonValue::count(input)).with(
        "output_tokens",
        JsonValue::count(0),
    );
    let nothing: Vec<JsonValue> = Vec::new();
    assert(list_model(nothing@) =~= Seq::<Json>::empty());
    let message = Object::new().with("id", JsonValue::text(id)).with(
        "type",
        JsonValue::text("message"),
    ).with("role", JsonValue::text("assistant")).with("model", JsonValue::text(model)).with(
        "content",
        JsonValue::Array(nothing),
    ).with("stop_reason", JsonValue::Null).with("stop_sequence", JsonValue::Null).with(
        "usage",
        JsonValue::Object(usage),
    );
    JsonValue::Object(
        Object::new().with("type", JsonValue::text("message_start")).with(
            "message",
            JsonValue::Object(message),
        ),
    )
}

fn make_block_start(index: u64, block: JsonValue) -> (r: JsonValue)
    ensures
        r@ == block_start(index, block@),
{
    JsonValue::Object(
        Object::new().with("type", JsonValue::text("content_block_start")).with(
            "index",
            JsonValue::count(index),
        ).with("content_block", block),
    )
}

fn make_block_delta(index: u64, kind: &str, member: &str, text: &str) -> (r: JsonValue)
    ensures
        r@ == block_delta(index, kind@, member@, text@),
{
    let delta = Object::new().with("type", JsonValue::text(kind)).with(
        member,
        JsonValue::text(text),
    );
    JsonValue::Object(
        Object::new().with("type", JsonValue::text("content_block_delta")).with(
            "index",
            JsonValue::count(index),
        ).with("delta", JsonValue::Object(delta)),
    )
}

fn make_block_stop(index: u64) -> (r: JsonValue)
    ensures
        r@ == block_stop(index),
{
    JsonValue::Object(
        Object::new().with("type", JsonValue::text("content_block_stop")).with(
            "index",
            JsonValue::count(index),
        ),
    )
}

fn make_message_delta(stop_reason: &str, input: u64, output: u64) -> (r: JsonValue)
    ensures
        r@ == message_delta(stop_reason@, input, output),
{
    let delta = Object::new().with("stop_reason", JsonValue::text(stop_reason)).with(
        "stop_sequence",
        JsonValue::Null,
    );
    let usage = Object::new().with("input_tokens", JsonValue::count(input)).with(
        "output_tokens",
        JsonValue::count(output),
    );
    JsonValue::Object(
        Object::new().with("type", JsonValue::text("message_delta")).with(
            "delta",
            JsonValue::Object(delta),
        ).with("usage", JsonValue::Object(usage)),
    )
}

fn make_message_stop() -> (r: JsonValue)
    ensures
        r@ == message_stop(),
{
    JsonValue::Object(Object::new().with("type", JsonValue::text("message_stop")))
}

/// An event as it goes out: its kind, and the event as JSON.
pub open spec fn event_text(event: Json) -> Seq<char> {
    "event: "@ + either(text_field(event, "type"@), Seq::empty()) + "\ndata: "@ + printed(event)
        + "\n\n"@
}

/// Events as they go out.
pub open spec fn event_texts(events: Seq<Json>) -> Seq<Seq<char>> {
    events.map_values(|event: Json| event_text(event))
}

/// Writes events out.
pub fn write_events(events: &Vec<JsonValue>) -> (r: Vec<String>)
    ensures
        texts_model(r@) == event_texts(list_model(events@)),
{
    let mut texts: Vec<String> = Vec::new();
    let mut i: usize = 0;
    while i < events.len()
        invariant
            i <= events@.len(),
            texts@.len() == i,
            forall|j: int| 0 <= j < i ==> #[trigger] texts@[j]@ == event_text(events@[j]@),
        decreases events@.len() - i,
    {
        let mut text = "event: ".to_owned();
        text.append(events[i].get_text_or_empty("type").as_str());
        text.append("\ndata: ");
        if let Ok(json) = print_json(&events[i]) {
            text.append(json.as_str());
        }
        text.append("\n\n");
        texts.push(text);
        i += 1;
    }
    assert(texts_model(texts@) =~= event_texts(list_model(events@)));
    texts
}

// ---------------------------------------------------------------------------
// What comes in
// ---------------------------------------------------------------------------

/// The index that comes so many places later, up to the largest one.
pub open spec fn advanced(index: u64, by: nat) -> u64 {
    if index + by <= u64::MAX {
        (index + by) as u64
    } else {
        u64::MAX
    }
}

pub(crate) fn advance(index: u64, by: usize) -> (r: u64)
    ensures
        r == advanced(index, by as nat),
{
    if by as u64 <= u64::MAX - index {
        index + by as u64
    } else {
        u64::MAX
    }
}

/// The stream with its open block ended, and the event that says so.
pub open spec fn block_ended(stream: ChatStream) -> (ChatStream, Seq<Json>) {
    if stream.block == OpenBlock::Closed {
        (stream, Seq::empty())
    } else {
        (
            ChatStream { block: OpenBlock::Closed, next: advanced(stream.next, 1), ..stream },
            seq![block_stop(stream.next)],
        )
    }
}

/// An empty block.
pub open spec fn empty_block(block: OpenBlock) -> Json {
    if block == OpenBlock::Thinking {
        Json::Record(
            map!["type"@ => Json::Text("thinking"@), "thinking"@ => Json::Text(Seq::empty())],
        )
    } else {
        Json::Record(map!["type"@ => Json::Text("text"@), "text"@ => Json::Text(Seq::empty())])
    }
}

/// The event that adds text to a block.
pub open spec fn text_added(index: u64, block: OpenBlock, text: Seq<char>) -> Json {
    if block == OpenBlock::Thinking {
        block_delta(index, "thinking_delta"@, "thinking"@, text)
    } else {
        block_delta(index, "text_delta"@, "text"@, text)
    }
}

/// The stream with text added to a block of the given kind, and the events that say so. Another
/// block that is open ends first.
pub open spec fn text_shown(stream: ChatStream, block: OpenBlock, text: Option<Seq<char>>) -> (
    ChatStream,
    Seq<Json>,
) {
    match text {
        None => (stream, Seq::empty()),
        Some(text) => if stream.block == block {
            (stream, seq![text_added(stream.next, block, text)])
        } else {
            let (ended, events) = block_ended(stream);
            (
                ChatStream { block, ..ended },
                events.push(block_start(ended.next, empty_block(block))).push(
                    text_added(ended.next, block, text),
                ),
            )
        },
    }
}

/// A part of a tool call: its index, and what it says of the call's id, name and arguments.
pub open spec fn fragment(call: Json, position: u64) -> Draft {
    let function = field(call, "function"@);
    Draft {
        index: either(count_in(field(call, "index"@)), position),
        id: either(text_field(call, "id"@), Seq::empty()),
        name: either(text_in(field_of(function, "name"@)), Seq::empty()),
        arguments: either(text_in(field_of(function, "arguments"@)), Seq::empty()),
    }
}

/// A tool call with a part added: the arguments go on, a new id or name takes the place of the
/// one before.
pub open spec fn grown(draft: Draft, part: Draft) -> Draft {
    Draft {
        index: draft.index,
        id: if part.id.len() > 0 {
            part.id
        } else {
            draft.id
        },
        name: if part.name.len() > 0 {
            part.name
        } else {
            draft.name
        },
        arguments: draft.arguments + part.arguments,
    }
}

/// The tool calls with a part added to the one of its index, in the order of their indices.
pub open spec fn gathered(drafts: Seq<Draft>, part: Draft) -> Seq<Draft>
    decreases drafts.len(),
{
    if drafts.len() == 0 {
        seq![part]
    } else if drafts.last().index < part.index {
        drafts.push(part)
    } else if drafts.last().index == part.index {
        drafts.drop_last().push(grown(drafts.last(), part))
    } else {
        gathered(drafts.drop_last(), part).push(drafts.last())
    }
}

/// The tool calls with the parts of a delta added, one after the other.
pub open spec fn all_gathered(drafts: Seq<Draft>, calls: Seq<Json>) -> Seq<Draft>
    decreases calls.len(),
{
    if calls.len() == 0 {
        drafts
    } else {
        gathered(
            all_gathered(drafts, calls.drop_last()),
            fragment(calls.last(), (calls.len() - 1) as u64),
        )
    }
}

/// The stream with the token counts of a chunk.
pub open spec fn usage_noted(stream: ChatStream, chunk: Json) -> ChatStream {
    let usage = field(chunk, "usage"@);
    ChatStream {
        input: either(count_in(field_of(usage, "prompt_tokens"@)), stream.input),
        output: either(count_in(field_of(usage, "completion_tokens"@)), stream.output),
        ..stream
    }
}

/// The stream once it has begun, and the event that says so.
pub open spec fn begun(stream: ChatStream) -> (ChatStream, Seq<Json>) {
    if stream.started {
        (stream, Seq::empty())
    } else {
        (
            ChatStream { started: true, ..stream },
            seq![message_start(stream.model, stream.id, stream.input)],
        )
    }
}

/// The stream after a chunk, and the events that come out of it. The first chunk begins the
/// message; reasoning goes to a thinking block and content to a text block at once; tool calls
/// are gathered until the stream ends.
pub open spec fn absorbed(stream: ChatStream, chunk: Json) -> (ChatStream, Seq<Json>) {
    let choice = first_choice(chunk);
    let delta = field_of(choice, "delta"@);
    let (s1, e1) = begun(usage_noted(stream, chunk));
    let (s2, e2) = text_shown(
        s1,
        OpenBlock::Thinking,
        filled(text_in(field_of(delta, "reasoning_content"@))),
    );
    let (s3, e3) = text_shown(s2, OpenBlock::Text, filled(text_in(field_of(delta, "content"@))));
    (
        ChatStream {
            drafts: all_gathered(
                s3.drafts,
                either(list_in(field_of(delta, "tool_calls"@)), Seq::empty()),
            ),
            finish: match text_in(field_of(choice, "finish_reason"@)) {
                Some(reason) => Some(reason),
                None => s3.finish,
            },
            ..s3
        },
        e1 + e2 + e3,
    )
}

/// The stream after a frame, and the events that come out of it or the refusal. A stream that has
/// finished takes nothing more in.
pub open spec fn frame_taken(stream: ChatStream, frame: FrameModel) -> (
    ChatStream,
    Result<Seq<Json>, Refusal>,
) {
    if stream.finished {
        (stream, Ok(Seq::empty()))
    } else {
        match frame {
            FrameModel::Done => (stream, Ok(Seq::empty())),
            FrameModel::Bad => (stream, Err(refusal(FeatureKind::UnknownEvent, Seq::empty()))),
            FrameModel::Event(chunk) => {
                let (next, events) = absorbed(stream, chunk);
                (next, Ok(events))
            },
        }
    }
}

/// What a chat stream makes of the data of a frame.
pub open spec fn chat_handler() -> spec_fn(ChatStream, Seq<u8>) -> (
    ChatStream,
    Result<Seq<Json>, Refusal>,
) {
    |stream: ChatStream, data: Seq<u8>| frame_taken(stream, frame_of(data))
}

/// What has come in of a tool call.
#[derive(Debug)]
pub struct ToolDraft {
    pub index: u64,
    pub id: String,
    pub name: String,
    pub arguments: String,
}

impl View for ToolDraft {
    type V = Draft;

    open spec fn view(&self) -> Draft {
        Draft {
            index: self.index,
            id: self.id@,
            name: self.name@,
            arguments: self.arguments@,
        }
    }
}

/// The models of tool calls.
pub open spec fn drafts_model(drafts: Seq<ToolDraft>) -> Seq<Draft> {
    drafts.map_values(|draft: ToolDraft| draft@)
}

/// Decodes a Chat Completions stream.
#[derive(Debug)]
pub struct ChatSseState {
    framing: Framing,
    model: String,
    id: String,
    started: bool,
    block: OpenBlock,
    next: u64,
    drafts: Vec<ToolDraft>,
    finish_reason: Option<String>,
    input: u64,
    output: u64,
    finished: bool,
}

impl View for ChatSseState {
    type V = ChatStream;

    closed spec fn view(&self) -> ChatStream {
        ChatStream {
            model: self.model@,
            id: self.id@,
            started: self.started,
            block: self.block,
            next: self.next,
            drafts: drafts_model(self.drafts@),
            finish: seen_string(self.finish_reason),
            input: self.input,
            output: self.output,
            finished: self.finished,
        }
    }
}

fn make_empty_block(block: OpenBlock) -> (r: JsonValue)
    ensures
        r@ == empty_block(block),
{
    let empty = String::new();
    assert(empty@ =~= Seq::<char>::empty());
    if block == OpenBlock::Thinking {
        JsonValue::Object(
            Object::new().with("type", JsonValue::text("thinking")).with(
                "thinking",
                JsonValue::String(empty),
            ),
        )
    } else {
        JsonValue::Object(
            Object::new().with("type", JsonValue::text("text")).with(
                "text",
                JsonValue::String(empty),
            ),
        )
    }
}

fn make_text_added(index: u64, block: OpenBlock, text: &str) -> (r: JsonValue)
    ensures
        r@ == text_added(index, block, text@),
{
    if block == OpenBlock::Thinking {
        make_block_delta(index, "thinking_delta", "thinking", text)
    } else {
        make_block_delta(index, "text_delta", "text", text)
    }
}

pub(crate) fn text_of(value: Option<&JsonValue>) -> (r: String)
    ensures
        r@ == either(text_in(seen(value)), Seq::empty()),
{
    match value {
        Some(v) => match v.as_str() {
            Some(text) => text.to_owned(),
            None => String::new(),
        },
        None => String::new(),
    }
}

pub(crate) fn filled_of<'a>(value: Option<&'a JsonValue>) -> (r: Option<&'a str>)
    ensures
        seen_text(r) == filled(text_in(seen(value))),
{
    match value {
        Some(v) => match v.as_str() {
            Some(text) => if text.is_empty() {
                None
            } else {
                Some(text)
            },
            None => None,
        },
        None => None,
    }
}

fn read_fragment(call: &JsonValue, position: u64) -> (r: ToolDraft)
    ensures
        r@ == fragment(call@, position),
{
    let index: u64 = match call.get_u64("index") {
        Some(index) => index,
        None => position,
    };
    let function = call.get("function");
    ToolDraft {
        index,
        id: call.get_text_or_empty("id"),
        name: text_of(get_of(function, "name")),
        arguments: text_of(get_of(function, "arguments")),
    }
}

proof fn lemma_gathered(drafts: Seq<Draft>, part: Draft, i: int)
    requires
        0 <= i <= drafts.len(),
        forall|j: int| i <= j < drafts.len() ==> (#[trigger] drafts[j]).index > part.index,
        i > 0 ==> drafts[i - 1].index <= part.index,
    ensures
        gathered(drafts, part) == (if i > 0 && drafts[i - 1].index == part.index {
            drafts.update(i - 1, grown(drafts[i - 1], part))
        } else {
            drafts.insert(i, part)
        }),
    decreases drafts.len(),
{
    if i == drafts.len() {
        if i > 0 && drafts[i - 1].index == part.index {
            assert(drafts.drop_last().push(grown(drafts.last(), part)) =~= drafts.update(
                i - 1,
                grown(drafts[i - 1], part),
            ));
        } else {
            assert(drafts.insert(i, part) =~= drafts.push(part));
        }
    } else {
        let shorter = drafts.drop_last();
        assert(drafts.last().index > part.index);
        assert forall|j: int| i <= j < shorter.len() implies (#[trigger] shorter[j]).index
            > part.index by {
            assert(shorter[j] == drafts[j]);
        }
        lemma_gathered(shorter, part, i);
        if i > 0 && drafts[i - 1].index == part.index {
            assert(shorter.update(i - 1, grown(drafts[i - 1], part)).push(drafts.last())
                =~= drafts.update(i - 1, grown(drafts[i - 1], part)));
        } else {
            assert(shorter.insert(i, part).push(drafts.last()) =~= drafts.insert(i, part));
        }
    }
}

fn grow(draft: ToolDraft, part: ToolDraft) -> (r: ToolDraft)
    ensures
        r@ == grown(draft@, part@),
{
    let ToolDraft { index, id, name, arguments } = draft;
    let mut arguments = arguments;
    arguments.append(part.arguments.as_str());
    ToolDraft {
        index,
        id: if part.id.as_str().is_empty() {
            id
        } else {
            part.id
        },
        name: if part.name.as_str().is_empty() {
            name
        } else {
            part.name
        },
        arguments,
    }
}

fn gather(drafts: &mut Vec<ToolDraft>, part: ToolDraft)
    ensures
        drafts_model(final(drafts)@) == gathered(drafts_model(old(drafts)@), part@),
{
    let ghost before = drafts_model(drafts@);
    let mut i: usize = drafts.len();
    while i > 0 && drafts[i - 1].index > part.index
        invariant
            i <= drafts@.len(),
            drafts@ == old(drafts)@,
            forall|j: int| i <= j < drafts@.len() ==> (#[trigger] drafts@[j]).index > part.index,
        decreases i,
    {
        i -= 1;
    }
    proof {
        assert forall|j: int| i <= j < before.len() implies (#[trigger] before[j]).index
            > part.index by {
            assert(drafts@[j].index > part.index);
        }
        lemma_gathered(before, part@, i as int);
    }
    if i > 0 && drafts[i - 1].index == part.index {
        let draft = drafts.remove(i - 1);
        let whole = grow(draft, part);
        drafts.insert(i - 1, whole);
        assert(drafts_model(drafts@) =~= before.update(i - 1, whole@));
    } else {
        let ghost added = part@;
        drafts.insert(i, part);
        assert(drafts_model(drafts@) =~= before.insert(i as int, added));
    }
}

fn gather_all(drafts: &mut Vec<ToolDraft>, calls: &Vec<JsonValue>)
    ensures
        drafts_model(final(drafts)@) == all_gathered(
            drafts_model(old(drafts)@),
            list_model(calls@),
        ),
{
    let ghost before = drafts_model(drafts@);
    let ghost models = list_model(calls@);
    let mut i: usize = 0;
    assert(models.take(0) =~= Seq::<Json>::empty());
    while i < calls.len()
        invariant
            i <= calls@.len(),
            models == list_model(calls@),
            drafts_model(drafts@) == all_gathered(before, models.take(i as int)),
        decreases calls@.len() - i,
    {
        proof {
            lemma_take_next(models, i as int);
        }
        gather(drafts, read_fragment(&calls[i], i as u64));
        i += 1;
    }
    assert(models.take(i as int) =~= models);
}

impl ChatSseState {
    /// What has come in since the last frame.
    pub closed spec fn pending(&self) -> Pending {
        self.framing@
    }

    /// A decoder whose messages name this model and this id.
    pub fn new(model: &str, request_id: &str) -> (r: ChatSseState)
        ensures
            r@ == fresh_stream(model@, request_id@),
            r.pending() == nothing(),
    {
        let r = ChatSseState {
            framing: Framing::new(),
            model: model.to_owned(),
            id: request_id.to_owned(),
            started: false,
            block: OpenBlock::Closed,
            next: 0,
            drafts: Vec::new(),
            finish_reason: None,
            input: 0,
            output: 0,
            finished: false,
        };
        assert(r@.drafts =~= Seq::<Draft>::empty());
        r
    }

    fn end_block(&mut self, events: &mut Vec<JsonValue>)
        ensures
            final(self)@ == block_ended(old(self)@).0,
            list_model(final(events)@) == list_model(old(events)@) + block_ended(old(self)@).1,
            final(self).pending() == old(self).pending(),
    {
        let ghost before = list_model(events@);
        if self.block == OpenBlock::Closed {
            assert(before + Seq::<Json>::empty() =~= before);
        } else {
            let event = make_block_stop(self.next);
            proof {
                lemma_list_push(events@, event);
                assert(before.push(event@) =~= before + seq![event@]);
            }
            events.push(event);
            self.next = advance(self.next, 1);
            self.block = OpenBlock::Closed;
        }
    }

    fn show_text(&mut self, block: OpenBlock, text: Option<&str>, events: &mut Vec<JsonValue>)
        ensures
            final(self)@ == text_shown(old(self)@, block, seen_text(text)).0,
            list_model(final(events)@) == list_model(old(events)@) + text_shown(
                old(self)@,
                block,
                seen_text(text),
            ).1,
            final(self).pending() == old(self).pending(),
    {
        let ghost before = list_model(events@);
        match text {
            None => {
                assert(before + Seq::<Json>::empty() =~= before);
            },
            Some(text) => {
                if self.block != block {
                    self.end_block(events);
                    let start = make_block_start(self.next, make_empty_block(block));
                    proof {
                        lemma_list_push(events@, start);
                    }
                    events.push(start);
                    self.block = block;
                }
                let added = make_text_added(self.next, block, text);
                proof {
                    lemma_list_push(events@, added);
                }
                events.push(added);
                assert(list_model(events@) =~= before + text_shown(
                    old(self)@,
                    block,
                    Some(text@),
                ).1);
            },
        }
    }

    /// Takes a chunk in, and gives the events that come out of it.
    pub fn absorb(&mut self, chunk: &JsonValue) -> (r: Vec<JsonValue>)
        ensures
            (final(self)@, list_model(r@)) == absorbed(old(self)@, chunk@),
            final(self).pending() == old(self).pending(),
    {
        let mut events: Vec<JsonValue> = Vec::new();
        assert(list_model(events@) =~= Seq::<Json>::empty());
        let usage = chunk.get("usage");
        if let Some(value) = get_of(usage, "prompt_tokens") {
            if let Some(n) = value.as_u64() {
                self.input = n;
            }
        }
        if let Some(value) = get_of(usage, "completion_tokens") {
            if let Some(n) = value.as_u64() {
                self.output = n;
            }
        }
        assert(self@ == usage_noted(old(self)@, chunk@));
        let ghost noted = self@;
        if !self.started {
            let start = make_message_start(self.model.as_str(), self.id.as_str(), self.input);
            proof {
                lemma_list_push(events@, start);
            }
            events.push(start);
            self.started = true;
        }
        assert(self@ == begun(noted).0);
        assert(list_model(events@) =~= begun(noted).1);
        let choice = get_first_choice(chunk);
        let delta = get_of(choice, "delta");
        self.show_text(
            OpenBlock::Thinking,
            filled_of(get_of(delta, "reasoning_content")),
            &mut events,
        );
        self.show_text(OpenBlock::Text, filled_of(get_of(delta, "content")), &mut events);
        let ghost shown = self@;
        if let Some(value) = get_of(delta, "tool_calls") {
            if let Some(calls) = value.as_array() {
                gather_all(&mut self.drafts, calls);
            }
        }
        if let Some(value) = get_of(choice, "finish_reason") {
            if let Some(reason) = value.as_str() {
                self.finish_reason = Some(reason.to_owned());
            }
        }
        events
    }

    /// Takes a frame in, and gives the events that come out of it.
    pub fn take_frame(&mut self, frame: &Frame) -> (r: Result<Vec<JsonValue>, UnsupportedFeatures>)
        ensures
            (final(self)@, events_outcome(r)) == frame_taken(old(self)@, frame@),
            final(self).pending() == old(self).pending(),
    {
        let nothing: Vec<JsonValue> = Vec::new();
        assert(list_model(nothing@) =~= Seq::<Json>::empty());
        if self.finished {
            return Ok(nothing);
        }
        match frame {
            Frame::Done => Ok(nothing),
            Frame::Bad => {
                let place = String::new();
                assert(place@ =~= Seq::<char>::empty());
                Err(UnsupportedFeatures::single(FeatureKind::UnknownEvent, place.as_str()))
            },
            Frame::Event(chunk) => Ok(self.absorb(chunk)),
        }
    }
}

/// The models behind a decoder's result.
pub open spec fn events_outcome(result: Result<Vec<JsonValue>, UnsupportedFeatures>) -> Result<
    Seq<Json>,
    Refusal,
> {
    match result {
        Ok(events) => Ok(list_model(events@)),
        Err(refused) => Err(refused@),
    }
}

// ---------------------------------------------------------------------------
// How a stream ends
// ---------------------------------------------------------------------------

/// Where a member of a gathered tool call stands.
pub open spec fn tool_pointer(index: u64, member: Seq<char>) -> Seq<char> {
    "/choices/0/delta/tool_calls/"@ + decimal(index as nat) + member
}

/// Why a gathered tool call is refused, given what parsing its arguments gives. It has an id and
/// a name, and its arguments are the text of a JSON object; nothing is made up in their place.
pub open spec fn draft_fault(draft: Draft, reading: Result<Json, Seq<char>>) -> Option<Refusal> {
    if draft.id.len() == 0 {
        Some(refusal(FeatureKind::MissingToolField, tool_pointer(draft.index, "/id"@)))
    } else if draft.name.len() == 0 {
        Some(refusal(FeatureKind::MissingToolField, tool_pointer(draft.index, "/function/name"@)))
    } else if reading is Ok && reading->Ok_0 is Record {
        None
    } else {
        Some(
            refusal(
                FeatureKind::InvalidToolArguments,
                tool_pointer(draft.index, "/function/arguments"@),
            ),
        )
    }
}

/// Why the first tool call that is refused is refused.
pub open spec fn first_fault(
    drafts: Seq<Draft>,
    readings: Seq<Result<Json, Seq<char>>>,
) -> Option<Refusal>
    decreases drafts.len(),
{
    if drafts.len() == 0 {
        None
    } else {
        match first_fault(drafts.drop_last(), readings) {
            Some(refused) => Some(refused),
            None => draft_fault(drafts.last(), readings[drafts.len() - 1]),
        }
    }
}

/// Why a message stopped, for the reasons that are known. A stream that gives no reason stopped
/// for its tool calls, where it has any.
pub open spec fn stop_reason(finish: Option<Seq<char>>, called: bool) -> Option<Seq<char>> {
    match finish {
        Some(reason) => if reason == "stop"@ {
            Some("end_turn"@)
        } else if reason == "length"@ {
            Some("max_tokens"@)
        } else if reason == "tool_calls"@ {
            Some("tool_use"@)
        } else if reason == "content_filter"@ {
            Some("refusal"@)
        } else {
            None
        },
        None => if called {
            Some("tool_use"@)
        } else {
            None
        },
    }
}

/// The events for one tool call. Its arguments go out as they came in.
pub open spec fn draft_events(draft: Draft, index: u64) -> Seq<Json> {
    seq![
        block_start(
            index,
            Json::Record(
                map![
                    "type"@ => Json::Text("tool_use"@),
                    "id"@ => Json::Text(draft.id),
                    "name"@ => Json::Text(draft.name),
                    "input"@ => Json::Record(Map::empty()),
                ],
            ),
        ),
        block_delta(index, "input_json_delta"@, "partial_json"@, draft.arguments),
        block_stop(index),
    ]
}

/// The events for the tool calls, in the order of their indices.
pub open spec fn drafts_events(drafts: Seq<Draft>, at: u64) -> Seq<Json>
    decreases drafts.len(),
{
    if drafts.len() == 0 {
        Seq::empty()
    } else {
        drafts_events(drafts.drop_last(), at) + draft_events(
            drafts.last(),
            advanced(at, (drafts.len() - 1) as nat),
        )
    }
}

/// The stream once it has ended, and the last events or the refusal, given what parsing the
/// arguments of each tool call gives. A stream that never began, a tool call at fault and a reason
/// that is not known are refused, in this order, and leave the stream as it was. A stream that has
/// finished gives nothing more.
pub open spec fn concluded(stream: ChatStream, readings: Seq<Result<Json, Seq<char>>>) -> (
    ChatStream,
    Result<Seq<Json>, Refusal>,
) {
    if stream.finished {
        (stream, Ok(Seq::empty()))
    } else if !stream.started {
        (stream, Err(refusal(FeatureKind::UnknownEvent, Seq::empty())))
    } else {
        match first_fault(stream.drafts, readings) {
            Some(refused) => (stream, Err(refused)),
            None => match stop_reason(stream.finish, stream.drafts.len() > 0) {
                None => (
                    stream,
                    Err(refusal(FeatureKind::UnknownFinishReason, "/choices/0/finish_reason"@)),
                ),
                Some(reason) => {
                    let (ended, events) = block_ended(stream);
                    (
                        ChatStream { finished: true, ..ended },
                        Ok(
                            (events + drafts_events(stream.drafts, ended.next)).push(
                                message_delta(reason, stream.input, stream.output),
                            ).push(message_stop()),
                        ),
                    )
                },
            },
        }
    }
}

/// What parsing the arguments of each tool call gives.
pub open spec fn draft_readings(drafts: Seq<Draft>) -> Seq<Result<Json, Seq<char>>> {
    drafts.map_values(|draft: Draft| parsed(draft.arguments))
}

/// The models of what parsing gave.
pub open spec fn outcomes(readings: Seq<Result<JsonValue, String>>) -> Seq<
    Result<Json, Seq<char>>,
> {
    readings.map_values(|reading: Result<JsonValue, String>| outcome(reading))
}

/// Events as they go out, or the refusal.
pub open spec fn written(events: Result<Seq<Json>, Refusal>) -> Result<Seq<Seq<char>>, Refusal> {
    match events {
        Ok(done) => Ok(event_texts(done)),
        Err(refused) => Err(refused),
    }
}

/// The models behind a decoder's result.
pub open spec fn texts_outcome(result: Result<Vec<String>, UnsupportedFeatures>) -> Result<
    Seq<Seq<char>>,
    Refusal,
> {
    match result {
        Ok(texts) => Ok(texts_model(texts@)),
        Err(refused) => Err(refused@),
    }
}

fn write_tool_pointer(index: u64, member: &str) -> (r: String)
    ensures
        r@ == tool_pointer(index, member@),
{
    let mut text = "/choices/0/delta/tool_calls/".to_owned();
    text.append(write_decimal(index).as_str());
    text.append(member);
    text
}

/// Why a gathered tool call is refused, given what parsing its arguments gave.
pub fn find_draft_fault(draft: &ToolDraft, reading: &Result<JsonValue, String>) -> (r: Option<
    UnsupportedFeatures,
>)
    ensures
        draft_fault(draft@, outcome(*reading)) == (match r {
            Some(refused) => Some(refused@),
            None => None,
        }),
{
    if draft.id.as_str().is_empty() {
        let place = write_tool_pointer(draft.index, "/id");
        return Some(UnsupportedFeatures::single(FeatureKind::MissingToolField, place.as_str()));
    }
    if draft.name.as_str().is_empty() {
        let place = write_tool_pointer(draft.index, "/function/name");
        return Some(UnsupportedFeatures::single(FeatureKind::MissingToolField, place.as_str()));
    }
    let sound = match reading {
        Ok(value) => value.is_object(),
        Err(_) => false,
    };
    if sound {
        None
    } else {
        let place = write_tool_pointer(draft.index, "/function/arguments");
        Some(UnsupportedFeatures::single(FeatureKind::InvalidToolArguments, place.as_str()))
    }
}

proof fn lemma_fault_stands(drafts: Seq<Draft>, readings: Seq<Result<Json, Seq<char>>>, i: int)
    requires
        0 <= i <= drafts.len(),
        first_fault(drafts.take(i), readings) is Some,
    ensures
        first_fault(drafts, readings) == first_fault(drafts.take(i), readings),
    decreases drafts.len() - i,
{
    if i < drafts.len() {
        lemma_take_next(drafts, i);
        lemma_fault_stands(drafts, readings, i + 1);
    } else {
        assert(drafts.take(i) =~= drafts);
    }
}

fn find_first_fault(drafts: &Vec<ToolDraft>, readings: &Vec<Result<JsonValue, String>>) -> (r: Option<
    UnsupportedFeatures,
>)
    requires
        drafts@.len() == readings@.len(),
    ensures
        first_fault(drafts_model(drafts@), outcomes(readings@)) == (match r {
            Some(refused) => Some(refused@),
            None => None,
        }),
{
    let ghost models = drafts_model(drafts@);
    let ghost found = outcomes(readings@);
    let mut i: usize = 0;
    while i < drafts.len()
        invariant
            i <= drafts@.len(),
            drafts@.len() == readings@.len(),
            models == drafts_model(drafts@),
            found == outcomes(readings@),
            first_fault(models.take(i as int), found) is None,
        decreases drafts@.len() - i,
    {
        proof {
            lemma_take_next(models, i as int);
        }
        let fault = find_draft_fault(&drafts[i], &readings[i]);
        if fault.is_some() {
            proof {
                lemma_fault_stands(models, found, i + 1);
            }
            return fault;
        }
        i += 1;
    }
    assert(models.take(i as int) =~= models);
    None
}

fn find_stop_reason(finish: &Option<String>, called: bool) -> (r: Option<&'static str>)
    ensures
        seen_text(r) == stop_reason(seen_string(*finish), called),
{
    match finish {
        Some(reason) => {
            let reason = reason.as_str();
            if same_text(reason, "stop") {
                Some("end_turn")
            } else if same_text(reason, "length") {
                Some("max_tokens")
            } else if same_text(reason, "tool_calls") {
                Some("tool_use")
            } else if same_text(reason, "content_filter") {
                Some("refusal")
            } else {
                None
            }
        },
        None => if called {
            Some("tool_use")
        } else {
            None
        },
    }
}

fn push_draft_events(draft: &ToolDraft, index: u64, events: &mut Vec<JsonValue>)
    ensures
        list_model(final(events)@) == list_model(old(events)@) + draft_events(draft@, index),
{
    let ghost before = list_model(events@);
    let block = Object::new().with("type", JsonValue::text("tool_use")).with(
        "id",
        JsonValue::text(draft.id.as_str()),
    ).with("name", JsonValue::text(draft.name.as_str())).with(
        "input",
        JsonValue::Object(Object::new()),
    );
    let start = make_block_start(index, JsonValue::Object(block));
    let delta = make_block_delta(
        index,
        "input_json_delta",
        "partial_json",
        draft.arguments.as_str(),
    );
    let stop = make_block_stop(index);
    proof {
        lemma_list_push(events@, start);
        lemma_list_push(events@.push(start), delta);
        lemma_list_push(events@.push(start).push(delta), stop);
    }
    events.push(start);
    events.push(delta);
    events.push(stop);
    assert(list_model(events@) =~= before + draft_events(draft@, index));
}

fn push_drafts_events(drafts: &Vec<ToolDraft>, at: u64, events: &mut Vec<JsonValue>)
    ensures
        list_model(final(events)@) == list_model(old(events)@) + drafts_events(
            drafts_model(drafts@),
            at,
        ),
{
    let ghost before = list_model(events@);
    let ghost models = drafts_model(drafts@);
    let mut i: usize = 0;
    assert(before + drafts_events(models.take(0), at) =~= before);
    while i < drafts.len()
        invariant
            i <= drafts@.len(),
            models == drafts_model(drafts@),
            list_model(events@) == before + drafts_events(models.take(i as int), at),
        decreases drafts@.len() - i,
    {
        proof {
            lemma_take_next(models, i as int);
        }
        push_draft_events(&drafts[i], advance(at, i), events);
        assert(list_model(events@) =~= before + drafts_events(models.take(i + 1), at));
        i += 1;
    }
    assert(models.take(i as int) =~= models);
}

impl Default for ChatSseState {
    /// A decoder whose messages name no model and no id.
    fn default() -> (r: ChatSseState)
        ensures
            r@ == fresh_stream(Seq::empty(), Seq::empty()),
            r.pending() == nothing(),
    {
        let empty = String::new();
        assert(empty@ =~= Seq::<char>::empty());
        ChatSseState::new(empty.as_str(), empty.as_str())
    }
}

impl ChatSseState {
    /// Takes bytes in, and gives the events that come out of the frames that they end.
    pub fn feed(&mut self, bytes: &[u8]) -> (r: Result<Vec<String>, UnsupportedFeatures>)
        ensures
            (final(self).pending(), final(self)@, texts_outcome(r)) == ({
                let (pending, stream, events) = run(
                    chat_handler(),
                    old(self).pending(),
                    old(self)@,
                    bytes@,
                );
                (pending, stream, written(events))
            }),
    {
        let ghost handle = chat_handler();
        let ghost before = self.pending();
        let ghost at = self@;
        let mut events: Vec<JsonValue> = Vec::new();
        assert(list_model(events@) =~= Seq::<Json>::empty());
        let mut i: usize = 0;
        while i < bytes.len()
            invariant
                i <= bytes@.len(),
                handle == chat_handler(),
                before == old(self).pending(),
                at == old(self)@,
                run(handle, before, at, bytes@.take(i as int)) == (
                    self.pending(),
                    self@,
                    Ok::<Seq<Json>, Refusal>(list_model(events@)),
                ),
            decreases bytes@.len() - i,
        {
            proof {
                lemma_take_next(bytes@, i as int);
            }
            let ghost done = list_model(events@);
            let ghost stream = self@;
            let frame = self.framing.take(bytes[i]);
            assert(self@ == stream);
            if let Some(data) = frame {
                let frame = read_frame(data);
                match self.take_frame(&frame) {
                    Ok(more) => {
                        let mut more = more;
                        proof {
                            lemma_list_append(events@, more@);
                        }
                        events.append(&mut more);
                    },
                    Err(refused) => {
                        proof {
                            lemma_run_stops(handle, before, at, bytes@, i + 1);
                        }
                        return Err(refused);
                    },
                }
            }
            i += 1;
        }
        assert(bytes@.take(i as int) =~= bytes@);
        Ok(write_events(&events))
    }

    /// Ends the stream, given what parsing the arguments of each tool call gave.
    pub fn conclude(&mut self, readings: &Vec<Result<JsonValue, String>>) -> (r: Result<
        Vec<JsonValue>,
        UnsupportedFeatures,
    >)
        requires
            readings@.len() == old(self)@.drafts.len(),
        ensures
            (final(self)@, events_outcome(r)) == concluded(old(self)@, outcomes(readings@)),
            final(self).pending() == old(self).pending(),
    {
        let mut events: Vec<JsonValue> = Vec::new();
        assert(list_model(events@) =~= Seq::<Json>::empty());
        if self.finished {
            return Ok(events);
        }
        if !self.started {
            let place = String::new();
            assert(place@ =~= Seq::<char>::empty());
            return Err(UnsupportedFeatures::single(FeatureKind::UnknownEvent, place.as_str()));
        }
        if let Some(refused) = find_first_fault(&self.drafts, readings) {
            return Err(refused);
        }
        let reason = match find_stop_reason(&self.finish_reason, self.drafts.len() > 0) {
            Some(reason) => reason,
            None => {
                return Err(
                    UnsupportedFeatures::single(
                        FeatureKind::UnknownFinishReason,
                        "/choices/0/finish_reason",
                    ),
                );
            },
        };
        self.end_block(&mut events);
        push_drafts_events(&self.drafts, self.next, &mut events);
        let delta = make_message_delta(reason, self.input, self.output);
        let stop = make_message_stop();
        proof {
            lemma_list_push(events@, delta);
            lemma_list_push(events@.push(delta), stop);
        }
        events.push(delta);
        events.push(stop);
        self.finished = true;
        assert(list_model(events@) =~= concluded(old(self)@, outcomes(readings@)).1->Ok_0);
        Ok(events)
    }

    /// Ends the stream, and gives the last events. A second call gives none.
    pub fn finish(&mut self) -> (r: Result<Vec<String>, UnsupportedFeatures>)
        ensures
            (final(self)@, texts_outcome(r)) == ({
                let (stream, events) = concluded(
                    old(self)@,
                    draft_readings(old(self)@.drafts),
                );
                (stream, written(events))
            }),
            final(self).pending() == old(self).pending(),
    {
        let mut readings: Vec<Result<JsonValue, String>> = Vec::new();
        let mut i: usize = 0;
        while i < self.drafts.len()
            invariant
                i <= self.drafts@.len(),
                readings@.len() == i,
                *self == *old(self),
                forall|j: int|
                    0 <= j < i ==> outcome(#[trigger] readings@[j]) == parsed(
                        self.drafts@[j].arguments@,
                    ),
            decreases self.drafts@.len() - i,
        {
            readings.push(parse_json(self.drafts[i].arguments.as_str()));
            i += 1;
        }
        assert(outcomes(readings@) =~= draft_readings(old(self)@.drafts));
        match self.conclude(&readings) {
            Ok(events) => Ok(write_events(&events)),
            Err(refused) => Err(refused),
        }
    }
}

} // verus!
