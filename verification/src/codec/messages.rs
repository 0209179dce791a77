//! A stream of Messages events as a Chat Completions stream.
use vstd::prelude::*;
use vstd::string::*;

use crate::chat::{field_of, get_of};
use crate::codec::chat::{
    advance, advanced, drafts_model, events_outcome, filled_of, integer, text_of, texts_outcome,
    Draft, ToolDraft,
};
use crate::codec::error::{refusal, texts_model, FeatureKind, Refusal, UnsupportedFeatures};
use crate::codec::framing::{
    frame_of, lemma_run_stops, nothing, read_frame, run, Frame, FrameModel, Framing, Pending,
};
use crate::folds::lemma_take_next;
use crate::json::{
    count_in, either, field, filled, lemma_list_append, list_model, outcome, parse_json, parsed,
    print_json, printed, seen, seen_owned, seen_string, seen_text, text_field, text_in, text_is,
    Json, JsonValue, Object,
};
use crate::text::same_text;

verus! {

/// The state of a stream: the model and the message that it names, whether the message has
/// begun, the tool blocks that are open, how many tool calls have come out, why the message
/// stopped, the token counts, and whether the stream has finished.
pub struct MessagesStream {
    pub model: Seq<char>,
    pub id: Seq<char>,
    pub started: bool,
    pub drafts: Seq<Draft>,
    pub calls: u64,
    pub stop: Option<Seq<char>>,
    pub input: u64,
    pub output: u64,
    pub finished: bool,
}

/// A stream of which nothing has come in.
pub open spec fn fresh_stream(model: Seq<char>) -> MessagesStream {
    MessagesStream {
        model,
        id: Seq::empty(),
        started: false,
        drafts: Seq::empty(),
        calls: 0,
        stop: None,
        input: 0,
        output: 0,
        finished: false,
    }
}

// ---------------------------------------------------------------------------
// The chunks
// ---------------------------------------------------------------------------

/// A chunk with one choice.
pub open spec fn chunk(
    stream: MessagesStream,
    delta: Map<Seq<char>, Json>,
    finish: Json,
) -> Map<Seq<char>, Json> {
    map![
        "id"@ => Json::Text(stream.id),
        "object"@ => Json::Text("chat.completion.chunk"@),
        "model"@ => Json::Text(stream.model),
        "choices"@ => Json::List(
            seq![
                Json::Record(
                    map![
                        "index"@ => integer(0),
                        "delta"@ => Json::Record(delta),
                        "finish_reason"@ => finish,
                    ],
                ),
            ],
        ),
    ]
}

/// The chunk that names the role.
pub open spec fn role_chunk(stream: MessagesStream) -> Json {
    Json::Record(chunk(stream, map!["role"@ => Json::Text("assistant"@)], Json::Null))
}

/// The chunks that add a text under a member: none where there is no text.
pub open spec fn text_chunks(
    stream: MessagesStream,
    member: Seq<char>,
    text: Option<Seq<char>>,
) -> Seq<Json> {
    match text {
        Some(text) => seq![
            Json::Record(chunk(stream, map![member => Json::Text(text)], Json::Null)),
        ],
        None => Seq::empty(),
    }
}

/// The chunk that holds a tool call. Its arguments are the text that came in.
pub open spec fn call_chunk(stream: MessagesStream, draft: Draft) -> Json {
    let call = Json::Record(
        map![
            "index"@ => integer(stream.calls),
            "id"@ => Json::Text(draft.id),
            "type"@ => Json::Text("function"@),
            "function"@ => Json::Record(
                map!["name"@ => Json::Text(draft.name), "arguments"@ => Json::Text(draft.arguments)],
            ),
        ],
    );
    Json::Record(chunk(stream, map!["tool_calls"@ => Json::List(seq![call])], Json::Null))
}

/// The last chunk, which says why the message stopped and how many tokens it took.
pub open spec fn last_chunk(stream: MessagesStream, reason: Seq<char>) -> Json {
    Json::Record(
        chunk(stream, Map::empty(), Json::Text(reason)).insert(
            "usage"@,
            Json::Record(
                map![
                    "prompt_tokens"@ => integer(stream.input),
                    "completion_tokens"@ => integer(stream.output),
                ],
            ),
        ),
    )
}

/// A chunk as it goes out.
pub open spec fn chunk_text(chunk: Json) -> Seq<char> {
    "data: "@ + printed(chunk) + "\n\n"@
}

/// Chunks as they go out.
pub open spec fn chunk_texts(chunks: Seq<Json>) -> Seq<Seq<char>> {
    chunks.map_values(|chunk: Json| chunk_text(chunk))
}

/// The mark that ends a stream.
pub open spec fn done_text() -> Seq<char> {
    "data: [DONE]\n\n"@
}

fn write_chunk(chunk: &JsonValue) -> (r: String)
    ensures
        r@ == chunk_text(chunk@),
{
    let mut text = "data: ".to_owned();
    if let Ok(json) = print_json(chunk) {
        text.append(json.as_str());
    }
    text.append("\n\n");
    text
}

/// Writes chunks out.
pub fn write_chunks(chunks: &Vec<JsonValue>) -> (r: Vec<String>)
    ensures
        texts_model(r@) == chunk_texts(list_model(chunks@)),
{
    let mut texts: Vec<String> = Vec::new();
    let mut i: usize = 0;
    while i < chunks.len()
        invariant
            i <= chunks@.len(),
            texts@.len() == i,
            forall|j: int| 0 <= j < i ==> #[trigger] texts@[j]@ == chunk_text(chunks@[j]@),
        decreases chunks@.len() - i,
    {
        texts.push(write_chunk(&chunks[i]));
        i += 1;
    }
    assert(texts_model(texts@) =~= chunk_texts(list_model(chunks@)));
    texts
}

// ---------------------------------------------------------------------------
// What comes in
// ---------------------------------------------------------------------------

/// Where the open tool block of an index stands, or -1.
pub open spec fn place(drafts: Seq<Draft>, index: u64) -> int
    decreases drafts.len(),
{
    if drafts.len() == 0 {
        -1
    } else if drafts.last().index == index {
        drafts.len() - 1
    } else {
        place(drafts.drop_last(), index)
    }
}

/// The block index that an event names.
pub open spec fn event_index(event: Json) -> u64 {
    either(count_in(field(event, "index"@)), 0)
}

/// The stream once its message has begun, and the chunk that says so. A message begins once.
pub open spec fn begun(stream: MessagesStream, event: Json) -> (
    MessagesStream,
    Result<Seq<Json>, Refusal>,
) {
    if stream.started {
        (stream, Err(refusal(FeatureKind::UnknownEvent, "/type"@)))
    } else {
        let message = field(event, "message"@);
        let usage = field_of(message, "usage"@);
        let next = MessagesStream {
            id: either(text_in(field_of(message, "id"@)), Seq::empty()),
            started: true,
            input: either(count_in(field_of(usage, "input_tokens"@)), stream.input),
            output: either(count_in(field_of(usage, "output_tokens"@)), stream.output),
            ..stream
        };
        (next, Ok(seq![role_chunk(next)]))
    }
}

/// The stream after a block has begun. Text and thinking come out at once; a tool block needs an
/// id and a name, and an index at which no other tool block is open.
pub open spec fn block_begun(stream: MessagesStream, event: Json) -> (
    MessagesStream,
    Result<Seq<Json>, Refusal>,
) {
    let block = field(event, "content_block"@);
    let kind = text_in(field_of(block, "type"@));
    if kind == Some("text"@) {
        (
            stream,
            Ok(text_chunks(stream, "content"@, filled(text_in(field_of(block, "text"@))))),
        )
    } else if kind == Some("thinking"@) {
        (
            stream,
            Ok(
                text_chunks(
                    stream,
                    "reasoning_content"@,
                    filled(text_in(field_of(block, "thinking"@))),
                ),
            ),
        )
    } else if kind == Some("redacted_thinking"@) {
        (stream, Ok(Seq::empty()))
    } else if kind == Some("tool_use"@) {
        match filled(text_in(field_of(block, "id"@))) {
            None => (
                stream,
                Err(refusal(FeatureKind::MissingToolField, "/content_block/id"@)),
            ),
            Some(id) => match filled(text_in(field_of(block, "name"@))) {
                None => (
                    stream,
                    Err(refusal(FeatureKind::MissingToolField, "/content_block/name"@)),
                ),
                Some(name) => if place(stream.drafts, event_index(event)) >= 0 {
                    (stream, Err(refusal(FeatureKind::UnknownEvent, "/index"@)))
                } else {
                    (
                        MessagesStream {
                            drafts: stream.drafts.push(
                                Draft {
                                    index: event_index(event),
                                    id,
                                    name,
                                    arguments: Seq::empty(),
                                },
                            ),
                            ..stream
                        },
                        Ok(Seq::empty()),
                    )
                },
            },
        }
    } else {
        (stream, Err(refusal(FeatureKind::UnknownBlock, "/content_block/type"@)))
    }
}

/// The stream after an addition to a block. Text and thinking come out at once, a signature is
/// dropped, and the input of a tool is gathered.
pub open spec fn block_extended(stream: MessagesStream, event: Json) -> (
    MessagesStream,
    Result<Seq<Json>, Refusal>,
) {
    let delta = field(event, "delta"@);
    let kind = text_in(field_of(delta, "type"@));
    if kind == Some("text_delta"@) {
        (
            stream,
            Ok(text_chunks(stream, "content"@, filled(text_in(field_of(delta, "text"@))))),
        )
    } else if kind == Some("thinking_delta"@) {
        (
            stream,
            Ok(
                text_chunks(
                    stream,
                    "reasoning_content"@,
                    filled(text_in(field_of(delta, "thinking"@))),
                ),
            ),
        )
    } else if kind == Some("signature_delta"@) {
        (stream, Ok(Seq::empty()))
    } else if kind == Some("input_json_delta"@) {
        let at = place(stream.drafts, event_index(event));
        if at >= 0 {
            let draft = stream.drafts[at];
            (
                MessagesStream {
                    drafts: stream.drafts.update(
                        at,
                        Draft {
                            arguments: draft.arguments + either(
                                text_in(field_of(delta, "partial_json"@)),
                                Seq::empty(),
                            ),
                            ..draft
                        },
                    ),
                    ..stream
                },
                Ok(Seq::empty()),
            )
        } else {
            (stream, Err(refusal(FeatureKind::UnknownEvent, "/index"@)))
        }
    } else {
        (stream, Err(refusal(FeatureKind::UnknownEvent, "/delta/type"@)))
    }
}

/// The stream after a block has ended, given what parsing the gathered input of the tool block
/// gives. A tool call comes out where the input is the text of a JSON object; nothing is made up
/// in its place.
pub open spec fn block_ended(
    stream: MessagesStream,
    event: Json,
    reading: Result<Json, Seq<char>>,
) -> (MessagesStream, Result<Seq<Json>, Refusal>) {
    let at = place(stream.drafts, event_index(event));
    if at < 0 {
        (stream, Ok(Seq::empty()))
    } else if reading is Ok && reading->Ok_0 is Record {
        (
            MessagesStream {
                drafts: stream.drafts.remove(at),
                calls: advanced(stream.calls, 1),
                ..stream
            },
            Ok(seq![call_chunk(stream, stream.drafts[at])]),
        )
    } else {
        (stream, Err(refusal(FeatureKind::InvalidToolArguments, "/delta/partial_json"@)))
    }
}

/// The stream after it was told why the message stopped and how many tokens it took.
pub open spec fn stop_noted(stream: MessagesStream, event: Json) -> MessagesStream {
    let usage = field(event, "usage"@);
    MessagesStream {
        stop: match text_in(field_of(field(event, "delta"@), "stop_reason"@)) {
            Some(reason) => Some(reason),
            None => stream.stop,
        },
        input: either(count_in(field_of(usage, "input_tokens"@)), stream.input),
        output: either(count_in(field_of(usage, "output_tokens"@)), stream.output),
        ..stream
    }
}

/// The stream after an event, and the chunks that come out of it or the refusal, given what
/// parsing the input of the tool block that the event ends gives. Before the message has begun
/// only pings are let through; an event of another kind is refused.
pub open spec fn event_taken(
    stream: MessagesStream,
    event: Json,
    reading: Result<Json, Seq<char>>,
) -> (MessagesStream, Result<Seq<Json>, Refusal>) {
    let kind = text_field(event, "type"@);
    if kind == Some("ping"@) {
        (stream, Ok(Seq::empty()))
    } else if kind == Some("message_start"@) {
        begun(stream, event)
    } else if !stream.started {
        (stream, Err(refusal(FeatureKind::UnknownEvent, "/type"@)))
    } else if kind == Some("content_block_start"@) {
        block_begun(stream, event)
    } else if kind == Some("content_block_delta"@) {
        block_extended(stream, event)
    } else if kind == Some("content_block_stop"@) {
        block_ended(stream, event, reading)
    } else if kind == Some("message_delta"@) {
        (stop_noted(stream, event), Ok(Seq::empty()))
    } else if kind == Some("message_stop"@) {
        (stream, Ok(Seq::empty()))
    } else {
        (stream, Err(refusal(FeatureKind::UnknownEvent, "/type"@)))
    }
}

/// The gathered input of the tool block that an event ends, or the empty text.
pub open spec fn ended_input(stream: MessagesStream, event: Json) -> Seq<char> {
    if text_field(event, "type"@) == Some("content_block_stop"@) && place(
        stream.drafts,
        event_index(event),
    ) >= 0 {
        stream.drafts[place(stream.drafts, event_index(event))].arguments
    } else {
        Seq::empty()
    }
}

/// The stream after a frame, and the chunks that come out of it or the refusal. A stream that has
/// finished takes nothing more in.
pub open spec fn frame_taken(stream: MessagesStream, frame: FrameModel) -> (
    MessagesStream,
    Result<Seq<Json>, Refusal>,
) {
    if stream.finished {
        (stream, Ok(Seq::empty()))
    } else {
        match frame {
            FrameModel::Done => (stream, Ok(Seq::empty())),
            FrameModel::Bad => (stream, Err(refusal(FeatureKind::UnknownEvent, Seq::empty()))),
            FrameModel::Event(event) => event_taken(
                stream,
                event,
                parsed(ended_input(stream, event)),
            ),
        }
    }
}

/// What a Messages stream makes of the data of a frame.
pub open spec fn messages_handler() -> spec_fn(MessagesStream, Seq<u8>) -> (
    MessagesStream,
    Result<Seq<Json>, Refusal>,
) {
    |stream: MessagesStream, data: Seq<u8>| frame_taken(stream, frame_of(data))
}

/// Decodes a Messages stream.
#[derive(Debug)]
pub struct MessagesSseState {
    framing: Framing,
    model: String,
    id: String,
    started: bool,
    drafts: Vec<ToolDraft>,
    calls: u64,
    stop_reason: Option<String>,
    input: u64,
    output: u64,
    finished: bool,
}

impl View for MessagesSseState {
    type V = MessagesStream;

    closed spec fn view(&self) -> MessagesStream {
        MessagesStream {
            model: self.model@,
            id: self.id@,
            started: self.started,
            drafts: drafts_model(self.drafts@),
            calls: self.calls,
            stop: seen_string(self.stop_reason),
            input: self.input,
            output: self.output,
            finished: self.finished,
        }
    }
}

fn refused<T>(kind: FeatureKind, pointer: &str) -> (r: Result<T, UnsupportedFeatures>)
    ensures
        r matches Err(e) && e@ == refusal(kind, pointer@),
{
    Err(UnsupportedFeatures::single(kind, pointer))
}

fn no_chunks() -> (r: Vec<JsonValue>)
    ensures
        list_model(r@) == Seq::<Json>::empty(),
{
    let r: Vec<JsonValue> = Vec::new();
    assert(list_model(r@) =~= Seq::<Json>::empty());
    r
}

fn one_chunk(chunk: JsonValue) -> (r: Vec<JsonValue>)
    ensures
        list_model(r@) == seq![chunk@],
{
    let r = vec![chunk];
    assert(list_model(r@) =~= seq![chunk@]);
    r
}

fn count_of(value: Option<&JsonValue>, default: u64) -> (r: u64)
    ensures
        r == either(count_in(seen(value)), default),
{
    match value {
        Some(v) => match v.as_u64() {
            Some(n) => n,
            None => default,
        },
        None => default,
    }
}

fn kind_of<'a>(value: Option<&'a JsonValue>) -> (r: Option<&'a str>)
    ensures
        seen_text(r) == text_in(field_of(seen(value), "type"@)),
{
    match get_of(value, "type") {
        Some(kind) => kind.as_str(),
        None => None,
    }
}

fn find_place(drafts: &Vec<ToolDraft>, index: u64) -> (r: Option<usize>)
    ensures
        match r {
            Some(i) => i < drafts@.len() && place(drafts_model(drafts@), index) == i,
            None => place(drafts_model(drafts@), index) == -1,
        },
{
    let ghost models = drafts_model(drafts@);
    let mut i: usize = drafts.len();
    assert(models.take(i as int) =~= models);
    while i > 0
        invariant
            i <= drafts@.len(),
            models == drafts_model(drafts@),
            place(models, index) == place(models.take(i as int), index),
        decreases i,
    {
        proof {
            lemma_take_next(models, i - 1);
        }
        if drafts[i - 1].index == index {
            return Some(i - 1);
        }
        i -= 1;
    }
    None
}

impl MessagesSseState {
    /// What has come in since the last frame.
    pub closed spec fn pending(&self) -> Pending {
        self.framing@
    }

    /// A decoder whose chunks name this model.
    pub fn new(model: &str) -> (r: MessagesSseState)
        ensures
            r@ == fresh_stream(model@),
            r.pending() == nothing(),
    {
        let r = MessagesSseState {
            framing: Framing::new(),
            model: model.to_owned(),
            id: String::new(),
            started: false,
            drafts: Vec::new(),
            calls: 0,
            stop_reason: None,
            input: 0,
            output: 0,
            finished: false,
        };
        assert(r@.drafts =~= Seq::<Draft>::empty());
        assert(r@.id =~= Seq::<char>::empty());
        r
    }

    fn make_chunk(&self, delta: Object, finish: JsonValue) -> (r: Object)
        ensures
            r@ == chunk(self@, delta@, finish@),
    {
        let choice = JsonValue::Object(
            Object::new().with("index", JsonValue::count(0)).with(
                "delta",
                JsonValue::Object(delta),
            ).with("finish_reason", finish),
        );
        let choices = one_chunk(choice);
        Object::new().with("id", JsonValue::text(self.id.as_str())).with(
            "object",
            JsonValue::text("chat.completion.chunk"),
        ).with("model", JsonValue::text(self.model.as_str())).with(
            "choices",
            JsonValue::Array(choices),
        )
    }

    fn make_text_chunks(&self, member: &str, text: Option<&str>) -> (r: Vec<JsonValue>)
        ensures
            list_model(r@) == text_chunks(self@, member@, seen_text(text)),
    {
        match text {
            Some(text) => one_chunk(
                JsonValue::Object(
                    self.make_chunk(
                        Object::new().with(member, JsonValue::text(text)),
                        JsonValue::Null,
                    ),
                ),
            ),
            None => no_chunks(),
        }
    }

    fn make_call_chunk(&self, draft: &ToolDraft) -> (r: JsonValue)
        ensures
            r@ == call_chunk(self@, draft@),
    {
        let function = Object::new().with("name", JsonValue::text(draft.name.as_str())).with(
            "arguments",
            JsonValue::text(draft.arguments.as_str()),
        );
        let call = Object::new().with("index", JsonValue::count(self.calls)).with(
            "id",
            JsonValue::text(draft.id.as_str()),
        ).with("type", JsonValue::text("function")).with("function", JsonValue::Object(function));
        let calls = one_chunk(JsonValue::Object(call));
        JsonValue::Object(
            self.make_chunk(
                Object::new().with("tool_calls", JsonValue::Array(calls)),
                JsonValue::Null,
            ),
        )
    }

    fn begin(&mut self, event: &JsonValue) -> (r: Result<Vec<JsonValue>, UnsupportedFeatures>)
        ensures
            (final(self)@, events_outcome(r)) == begun(old(self)@, event@),
            final(self).pending() == old(self).pending(),
    {
        if self.started {
            return refused(FeatureKind::UnknownEvent, "/type");
        }
        let message = event.get("message");
        let usage = get_of(message, "usage");
        self.id = text_of(get_of(message, "id"));
        self.started = true;
        self.input = count_of(get_of(usage, "input_tokens"), self.input);
        self.output = count_of(get_of(usage, "output_tokens"), self.output);
        Ok(
            one_chunk(
                JsonValue::Object(
                    self.make_chunk(
                        Object::new().with("role", JsonValue::text("assistant")),
                        JsonValue::Null,
                    ),
                ),
            ),
        )
    }

    fn begin_block(&mut self, event: &JsonValue) -> (r: Result<
        Vec<JsonValue>,
        UnsupportedFeatures,
    >)
        ensures
            (final(self)@, events_outcome(r)) == block_begun(old(self)@, event@),
            final(self).pending() == old(self).pending(),
    {
        let block = event.get("content_block");
        let kind = kind_of(block);
        if text_is(kind, "text") {
            Ok(self.make_text_chunks("content", filled_of(get_of(block, "text"))))
        } else if text_is(kind, "thinking") {
            Ok(self.make_text_chunks("reasoning_content", filled_of(get_of(block, "thinking"))))
        } else if text_is(kind, "redacted_thinking") {
            Ok(no_chunks())
        } else if text_is(kind, "tool_use") {
            let id = match filled_of(get_of(block, "id")) {
                Some(id) => id,
                None => return refused(FeatureKind::MissingToolField, "/content_block/id"),
            };
            let name = match filled_of(get_of(block, "name")) {
                Some(name) => name,
                None => return refused(FeatureKind::MissingToolField, "/content_block/name"),
            };
            let index: u64 = count_of(event.get("index"), 0);
            if find_place(&self.drafts, index).is_some() {
                return refused(FeatureKind::UnknownEvent, "/index");
            }
            let draft = ToolDraft {
                index,
                id: id.to_owned(),
                name: name.to_owned(),
                arguments: String::new(),
            };
            assert(draft@.arguments =~= Seq::<char>::empty());
            self.drafts.push(draft);
            assert(drafts_model(self.drafts@) =~= drafts_model(old(self).drafts@).push(draft@));
            Ok(no_chunks())
        } else {
            refused(FeatureKind::UnknownBlock, "/content_block/type")
        }
    }

    fn extend_block(&mut self, event: &JsonValue) -> (r: Result<
        Vec<JsonValue>,
        UnsupportedFeatures,
    >)
        ensures
            (final(self)@, events_outcome(r)) == block_extended(old(self)@, event@),
            final(self).pending() == old(self).pending(),
    {
        let delta = event.get("delta");
        let kind = kind_of(delta);
        if text_is(kind, "text_delta") {
            Ok(self.make_text_chunks("content", filled_of(get_of(delta, "text"))))
        } else if text_is(kind, "thinking_delta") {
            Ok(self.make_text_chunks("reasoning_content", filled_of(get_of(delta, "thinking"))))
        } else if text_is(kind, "signature_delta") {
            Ok(no_chunks())
        } else if text_is(kind, "input_json_delta") {
            match find_place(&self.drafts, count_of(event.get("index"), 0)) {
                Some(at) => {
                    let ghost before = drafts_model(self.drafts@);
                    let ToolDraft { index, id, name, arguments } = self.drafts.remove(at);
                    let mut arguments = arguments;
                    arguments.append(text_of(get_of(delta, "partial_json")).as_str());
                    let draft = ToolDraft { index, id, name, arguments };
                    self.drafts.insert(at, draft);
                    assert(drafts_model(self.drafts@) =~= before.update(at as int, draft@));
                    Ok(no_chunks())
                },
                None => refused(FeatureKind::UnknownEvent, "/index"),
            }
        } else {
            refused(FeatureKind::UnknownEvent, "/delta/type")
        }
    }

    fn end_block(&mut self, event: &JsonValue, reading: &Result<JsonValue, String>) -> (r: Result<
        Vec<JsonValue>,
        UnsupportedFeatures,
    >)
        ensures
            (final(self)@, events_outcome(r)) == block_ended(
                old(self)@,
                event@,
                outcome(*reading),
            ),
            final(self).pending() == old(self).pending(),
    {
        let at: usize = match find_place(&self.drafts, count_of(event.get("index"), 0)) {
            Some(at) => at,
            None => return Ok(no_chunks()),
        };
        let sound = match reading {
            Ok(value) => value.is_object(),
            Err(_) => false,
        };
        if !sound {
            return refused(FeatureKind::InvalidToolArguments, "/delta/partial_json");
        }
        let chunk = self.make_call_chunk(&self.drafts[at]);
        let ghost before = drafts_model(self.drafts@);
        self.drafts.remove(at);
        assert(drafts_model(self.drafts@) =~= before.remove(at as int));
        self.calls = advance(self.calls, 1);
        Ok(one_chunk(chunk))
    }

    fn note_stop(&mut self, event: &JsonValue)
        ensures
            final(self)@ == stop_noted(old(self)@, event@),
            final(self).pending() == old(self).pending(),
    {
        let usage = event.get("usage");
        if let Some(value) = get_of(event.get("delta"), "stop_reason") {
            if let Some(reason) = value.as_str() {
                self.stop_reason = Some(reason.to_owned());
            }
        }
        self.input = count_of(get_of(usage, "input_tokens"), self.input);
        self.output = count_of(get_of(usage, "output_tokens"), self.output);
    }

    /// Takes an event in, given what parsing the input of the tool block that it ends gave.
    pub fn take_event(&mut self, event: &JsonValue, reading: &Result<JsonValue, String>) -> (r:
        Result<Vec<JsonValue>, UnsupportedFeatures>)
        ensures
            (final(self)@, events_outcome(r)) == event_taken(
                old(self)@,
                event@,
                outcome(*reading),
            ),
            final(self).pending() == old(self).pending(),
    {
        let kind = event.get_text("type");
        if text_is(kind, "ping") {
            Ok(no_chunks())
        } else if text_is(kind, "message_start") {
            self.begin(event)
        } else if !self.started {
            refused(FeatureKind::UnknownEvent, "/type")
        } else if text_is(kind, "content_block_start") {
            self.begin_block(event)
        } else if text_is(kind, "content_block_delta") {
            self.extend_block(event)
        } else if text_is(kind, "content_block_stop") {
            self.end_block(event, reading)
        } else if text_is(kind, "message_delta") {
            self.note_stop(event);
            Ok(no_chunks())
        } else if text_is(kind, "message_stop") {
            Ok(no_chunks())
        } else {
            refused(FeatureKind::UnknownEvent, "/type")
        }
    }

    fn get_ended_input(&self, event: &JsonValue) -> (r: String)
        ensures
            r@ == ended_input(self@, event@),
    {
        if text_is(event.get_text("type"), "content_block_stop") {
            if let Some(at) = find_place(&self.drafts, count_of(event.get("index"), 0)) {
                return self.drafts[at].arguments.clone();
            }
        }
        let empty = String::new();
        assert(empty@ =~= Seq::<char>::empty());
        empty
    }

    /// Takes a frame in, and gives the chunks that come out of it.
    pub fn take_frame(&mut self, frame: &Frame) -> (r: Result<Vec<JsonValue>, UnsupportedFeatures>)
        ensures
            (final(self)@, events_outcome(r)) == frame_taken(old(self)@, frame@),
            final(self).pending() == old(self).pending(),
    {
        if self.finished {
            return Ok(no_chunks());
        }
        match frame {
            Frame::Done => Ok(no_chunks()),
            Frame::Bad => {
                let place = String::new();
                assert(place@ =~= Seq::<char>::empty());
                refused(FeatureKind::UnknownEvent, place.as_str())
            },
            Frame::Event(event) => {
                let reading = parse_json(self.get_ended_input(event).as_str());
                self.take_event(event, &reading)
            },
        }
    }
}

// ---------------------------------------------------------------------------
// How a stream ends
// ---------------------------------------------------------------------------

/// Why a message stopped, for the reasons that are known.
pub open spec fn finish_reason(stop: Option<Seq<char>>) -> Option<Seq<char>> {
    match stop {
        Some(reason) => if reason == "end_turn"@ || reason == "stop_sequence"@ {
            Some("stop"@)
        } else if reason == "max_tokens"@ {
            Some("length"@)
        } else if reason == "tool_use"@ {
            Some("tool_calls"@)
        } else if reason == "refusal"@ {
            Some("content_filter"@)
        } else {
            None
        },
        None => None,
    }
}

/// The stream once it has ended, and the last chunk or the refusal. A stream whose message never
/// began, a tool block that is still open and a reason that is missing or not known are refused,
/// in this order, and leave the stream as it was. A stream that has finished gives nothing more.
pub open spec fn concluded(stream: MessagesStream) -> (
    MessagesStream,
    Result<Option<Json>, Refusal>,
) {
    if stream.finished {
        (stream, Ok(None))
    } else if !stream.started {
        (stream, Err(refusal(FeatureKind::UnknownEvent, Seq::empty())))
    } else if stream.drafts.len() > 0 {
        (stream, Err(refusal(FeatureKind::InvalidToolArguments, "/delta/partial_json"@)))
    } else {
        match finish_reason(stream.stop) {
            None => (
                stream,
                Err(refusal(FeatureKind::UnknownFinishReason, "/delta/stop_reason"@)),
            ),
            Some(reason) => (
                MessagesStream { finished: true, ..stream },
                Ok(Some(last_chunk(stream, reason))),
            ),
        }
    }
}

/// How a stream goes out at its end: the last chunk and the mark that ends a stream.
pub open spec fn ending(last: Result<Option<Json>, Refusal>) -> Result<Seq<Seq<char>>, Refusal> {
    match last {
        Ok(Some(chunk)) => Ok(seq![chunk_text(chunk), done_text()]),
        Ok(None) => Ok(Seq::empty()),
        Err(refused) => Err(refused),
    }
}

/// Chunks as they go out, or the refusal.
pub open spec fn written(chunks: Result<Seq<Json>, Refusal>) -> Result<Seq<Seq<char>>, Refusal> {
    match chunks {
        Ok(done) => Ok(chunk_texts(done)),
        Err(refused) => Err(refused),
    }
}

/// The models behind what ends a stream.
pub open spec fn last_outcome(result: Result<Option<JsonValue>, UnsupportedFeatures>) -> Result<
    Option<Json>,
    Refusal,
> {
    match result {
        Ok(last) => Ok(seen_owned(last)),
        Err(refused) => Err(refused@),
    }
}

fn find_finish_reason(stop: &Option<String>) -> (r: Option<&'static str>)
    ensures
        seen_text(r) == finish_reason(seen_string(*stop)),
{
    match stop {
        Some(reason) => {
            let reason = reason.as_str();
            if same_text(reason, "end_turn") || same_text(reason, "stop_sequence") {
                Some("stop")
            } else if same_text(reason, "max_tokens") {
                Some("length")
            } else if same_text(reason, "tool_use") {
                Some("tool_calls")
            } else if same_text(reason, "refusal") {
                Some("content_filter")
            } else {
                None
            }
        },
        None => None,
    }
}

impl Default for MessagesSseState {
    /// A decoder whose chunks name no model.
    fn default() -> (r: MessagesSseState)
        ensures
            r@ == fresh_stream(Seq::empty()),
            r.pending() == nothing(),
    {
        let empty = String::new();
        assert(empty@ =~= Seq::<char>::empty());
        MessagesSseState::new(empty.as_str())
    }
}

impl MessagesSseState {
    /// Takes bytes in, and gives the chunks that come out of the frames that they end.
    pub fn feed(&mut self, bytes: &[u8]) -> (r: Result<Vec<String>, UnsupportedFeatures>)
        ensures
            (final(self).pending(), final(self)@, texts_outcome(r)) == ({
                let (pending, stream, chunks) = run(
                    messages_handler(),
                    old(self).pending(),
                    old(self)@,
                    bytes@,
                );
                (pending, stream, written(chunks))
            }),
    {
        let ghost handle = messages_handler();
        let ghost before = self.pending();
        let ghost at = self@;
        let mut chunks = no_chunks();
        let mut i: usize = 0;
        while i < bytes.len()
            invariant
                i <= bytes@.len(),
                handle == messages_handler(),
                before == old(self).pending(),
                at == old(self)@,
                run(handle, before, at, bytes@.take(i as int)) == (
                    self.pending(),
                    self@,
                    Ok::<Seq<Json>, Refusal>(list_model(chunks@)),
                ),
            decreases bytes@.len() - i,
        {
            proof {
                lemma_take_next(bytes@, i as int);
            }
            let ghost stream = self@;
            let frame = self.framing.take(bytes[i]);
            assert(self@ == stream);
            if let Some(data) = frame {
                let frame = read_frame(data);
                match self.take_frame(&frame) {
                    Ok(more) => {
                        let mut more = more;
                        proof {
                            lemma_list_append(chunks@, more@);
                        }
                        chunks.append(&mut more);
                    },
                    Err(refused) => {
                        proof {
                            lemma_run_stops(handle, before, at, bytes@, i + 1);
                        }
                        return Err(refused);
                    },
                }
            }
            i += 1;
        }
        assert(bytes@.take(i as int) =~= bytes@);
        Ok(write_chunks(&chunks))
    }

    /// Ends the stream, and gives the last chunk.
    pub fn conclude(&mut self) -> (r: Result<Option<JsonValue>, UnsupportedFeatures>)
        ensures
            (final(self)@, last_outcome(r)) == concluded(old(self)@),
            final(self).pending() == old(self).pending(),
    {
        if self.finished {
            return Ok(None);
        }
        if !self.started {
            let place = String::new();
            assert(place@ =~= Seq::<char>::empty());
            return refused(FeatureKind::UnknownEvent, place.as_str());
        }
        if self.drafts.len() > 0 {
            return refused(FeatureKind::InvalidToolArguments, "/delta/partial_json");
        }
        let reason = match find_finish_reason(&self.stop_reason) {
            Some(reason) => reason,
            None => return refused(FeatureKind::UnknownFinishReason, "/delta/stop_reason"),
        };
        let usage = Object::new().with("prompt_tokens", JsonValue::count(self.input)).with(
            "completion_tokens",
            JsonValue::count(self.output),
        );
        let chunk = self.make_chunk(Object::new(), JsonValue::text(reason)).with(
            "usage",
            JsonValue::Object(usage),
        );
        self.finished = true;
        Ok(Some(JsonValue::Object(chunk)))
    }

    /// Ends the stream, and gives the last chunk and the mark that ends a stream. A second call
    /// gives nothing.
    pub fn finish(&mut self) -> (r: Result<Vec<String>, UnsupportedFeatures>)
        ensures
            (final(self)@, texts_outcome(r)) == ({
                let (stream, last) = concluded(old(self)@);
                (stream, ending(last))
            }),
            final(self).pending() == old(self).pending(),
    {
        match self.conclude() {
            Ok(last) => {
                let mut texts: Vec<String> = Vec::new();
                if let Some(chunk) = last {
                    texts.push(write_chunk(&chunk));
                    texts.push("data: [DONE]\n\n".to_owned());
                    assert(texts_model(texts@) =~= seq![chunk_text(chunk@), done_text()]);
                } else {
                    assert(texts_model(texts@) =~= Seq::<Seq<char>>::empty());
                }
                Ok(texts)
            },
            Err(refused) => Err(refused),
        }
    }
}

} // verus!
