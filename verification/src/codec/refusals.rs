//! Why a stream is refused: under which code, and where in the input.
use vstd::prelude::*;
use vstd::string::*;

use crate::codec::chat::{draft_fault, first_fault, ChatStream, Draft};
use crate::codec::chat_meaning::{inside, text_at};
use crate::codec::error::{FeatureKind, Refusal};
use crate::codec::framing::frame_of;
use crate::codec::framing_laws::{event_in, is_end, lemma_frame_kinds};
use crate::codec::messages::{event_taken, MessagesStream};
use crate::codec::messages_meaning::kind_in;
use crate::json::{field, Json};
use crate::names::lemma_names;
use crate::text::decimal;

verus! {

/// No two features have one code, and all codes say that something is not supported.
pub proof fn lemma_codes_are_distinct(a: FeatureKind, b: FeatureKind)
    ensures
        a.stable_code() == b.stable_code() <==> a == b,
        "unsupported_"@.is_prefix_of(a.stable_code()),
        a != FeatureKind::Media <==> "unsupported_feature."@.is_prefix_of(a.stable_code()),
{
    reveal_strlit("unsupported_");
    reveal_strlit("unsupported_feature.");
    reveal_strlit("unsupported_feature.thinking");
    reveal_strlit("unsupported_feature.structured_output");
    reveal_strlit("unsupported_feature.builtin_tool");
    reveal_strlit("unsupported_feature.document");
    reveal_strlit("unsupported_feature.prompt_cache");
    reveal_strlit("unsupported_feature.unknown_role");
    reveal_strlit("unsupported_feature.unknown_block");
    reveal_strlit("unsupported_feature.unknown_event");
    reveal_strlit("unsupported_feature.finish_reason");
    reveal_strlit("unsupported_feature.invalid_tool_arguments");
    reveal_strlit("unsupported_feature.missing_tool_field");
    reveal_strlit("unsupported_media");
    let x = a.stable_code();
    let y = b.stable_code();
    assert(x =~= y ==> x.len() == y.len() && x.last() == y.last() && x[20] == y[20] && x[28]
        == y[28]);
    assert("unsupported_"@ =~= x.subrange(0, 12));
    if a != FeatureKind::Media {
        assert("unsupported_feature."@ =~= x.subrange(0, 20));
    }
}

/// Whether a refusal is of one feature, under a code, at one place.
pub open spec fn is_for(refused: Refusal, code: Seq<char>, place: Seq<char>) -> bool {
    refused.features == seq![code] && refused.json_pointers == seq![place]
}

/// A frame that is neither an event nor the mark that ends a stream is refused as an unknown event,
/// at no place; the mark changes nothing and nothing comes out of it.
pub proof fn lemma_frame_refusals(chat: ChatStream, messages: MessagesStream, data: Seq<u8>)
    requires
        !chat.finished,
        !messages.finished,
    ensures
        ({
            let of_chat = crate::codec::chat::frame_taken(chat, frame_of(data));
            let of_messages = crate::codec::messages::frame_taken(messages, frame_of(data));
            if is_end(data) {
                of_chat == (chat, Ok::<Seq<Json>, Refusal>(Seq::empty())) && of_messages == (
                    messages,
                    Ok::<Seq<Json>, Refusal>(Seq::empty()),
                )
            } else if event_in(data) is None {
                &&& of_chat.0 == chat && of_messages.0 == messages
                &&& of_chat.1 matches Err(refused) && is_for(
                    refused,
                    "unsupported_feature.unknown_event"@,
                    Seq::empty(),
                )
                &&& of_messages.1 matches Err(refused) && is_for(
                    refused,
                    "unsupported_feature.unknown_event"@,
                    Seq::empty(),
                )
            } else {
                of_chat.1 is Ok
            }
        }),
{
    lemma_frame_kinds(data);
}

/// Where a Messages event is refused, and under which code.
pub open spec fn event_fault(stream: MessagesStream, event: Json) -> (Seq<char>, Seq<char>) {
    let kind = kind_in(event);
    let block = field(event, "content_block"@);
    let sort = text_at(inside(block, "type"@));
    let addition = text_at(inside(field(event, "delta"@), "type"@));
    if kind == "message_start"@ || !stream.started {
        ("unsupported_feature.unknown_event"@, "/type"@)
    } else if kind == "content_block_start"@ {
        if sort != "tool_use"@ {
            ("unsupported_feature.unknown_block"@, "/content_block/type"@)
        } else if text_at(inside(block, "id"@)).len() == 0 {
            ("unsupported_feature.missing_tool_field"@, "/content_block/id"@)
        } else if text_at(inside(block, "name"@)).len() == 0 {
            ("unsupported_feature.missing_tool_field"@, "/content_block/name"@)
        } else {
            ("unsupported_feature.unknown_event"@, "/index"@)
        }
    } else if kind == "content_block_delta"@ {
        if addition == "input_json_delta"@ {
            ("unsupported_feature.unknown_event"@, "/index"@)
        } else {
            ("unsupported_feature.unknown_event"@, "/delta/type"@)
        }
    } else if kind == "content_block_stop"@ {
        ("unsupported_feature.invalid_tool_arguments"@, "/delta/partial_json"@)
    } else {
        ("unsupported_feature.unknown_event"@, "/type"@)
    }
}

/// A Messages event that is refused is refused for what is wrong with it, and leaves the stream as
/// it was.
pub proof fn lemma_event_refusals(
    stream: MessagesStream,
    event: Json,
    reading: Result<Json, Seq<char>>,
)
    ensures
        event_taken(stream, event, reading).1 matches Err(refused) ==> is_for(
            refused,
            event_fault(stream, event).0,
            event_fault(stream, event).1,
        ) && event_taken(stream, event, reading).0 == stream,
{
    lemma_names();
}

/// A Messages stream that does not end well is refused because its message never began, because a
/// tool block is open, or for the reason to stop, in this order, and stays as it was.
pub proof fn lemma_messages_end_refusals(stream: MessagesStream)
    ensures
        crate::codec::messages::concluded(stream).1 matches Err(refused) ==> {
            &&& crate::codec::messages::concluded(stream).0 == stream
            &&& if !stream.started {
                is_for(refused, "unsupported_feature.unknown_event"@, Seq::empty())
            } else if stream.drafts.len() > 0 {
                is_for(
                    refused,
                    "unsupported_feature.invalid_tool_arguments"@,
                    "/delta/partial_json"@,
                )
            } else {
                is_for(refused, "unsupported_feature.finish_reason"@, "/delta/stop_reason"@)
            }
        },
{
}

/// Whether a tool call is whole, given what parsing its arguments gives.
pub open spec fn is_whole(draft: Draft, reading: Result<Json, Seq<char>>) -> bool {
    draft.id.len() > 0 && draft.name.len() > 0 && (reading matches Ok(input) && input is Record)
}

/// The place of a tool call in a chunk.
pub open spec fn call_place(draft: Draft) -> Seq<char> {
    "/choices/0/delta/tool_calls/"@ + decimal(draft.index as nat)
}

proof fn lemma_first_fault(
    drafts: Seq<Draft>,
    readings: Seq<Result<Json, Seq<char>>>,
    i: int,
)
    requires
        0 <= i < drafts.len(),
        forall|j: int| 0 <= j < i ==> is_whole(#[trigger] drafts[j], readings[j]),
        !is_whole(drafts[i], readings[i]),
    ensures
        first_fault(drafts, readings) == draft_fault(drafts[i], readings[i]),
    decreases drafts.len(),
{
    let shorter = drafts.drop_last();
    if i < shorter.len() {
        assert forall|j: int| 0 <= j < i implies is_whole(#[trigger] shorter[j], readings[j]) by {
            assert(is_whole(drafts[j], readings[j]));
        }
        lemma_first_fault(shorter, readings, i);
    } else {
        assert forall|j: int| 0 <= j < shorter.len() implies draft_fault(
            #[trigger] shorter[j],
            readings[j],
        ) is None by {
            assert(is_whole(drafts[j], readings[j]));
        }
        crate::codec::chat_laws::lemma_no_fault(shorter, readings);
    }
}

/// A chat stream that does not end well is refused because it never began, for the first of its
/// tool calls that is not whole, at the place of that call, or for the reason to finish, in this
/// order, and stays as it was.
pub proof fn lemma_chat_end_refusals(
    stream: ChatStream,
    readings: Seq<Result<Json, Seq<char>>>,
    i: int,
)
    ensures
        crate::codec::chat::concluded(stream, readings).1 matches Err(refused) ==> {
            let draft = stream.drafts[i];
            let first = 0 <= i < stream.drafts.len() && !is_whole(draft, readings[i]) && forall|
                j: int,
            |
                0 <= j < i ==> is_whole(#[trigger] stream.drafts[j], readings[j]);
            let all_whole = forall|j: int|
                0 <= j < stream.drafts.len() ==> is_whole(
                    #[trigger] stream.drafts[j],
                    readings[j],
                );
            &&& crate::codec::chat::concluded(stream, readings).0 == stream
            &&& !stream.started ==> is_for(
                refused,
                "unsupported_feature.unknown_event"@,
                Seq::empty(),
            )
            &&& stream.started && first && draft.id.len() == 0 ==> is_for(
                refused,
                "unsupported_feature.missing_tool_field"@,
                call_place(draft) + "/id"@,
            )
            &&& stream.started && first && draft.id.len() > 0 && draft.name.len() == 0 ==> is_for(
                refused,
                "unsupported_feature.missing_tool_field"@,
                call_place(draft) + "/function/name"@,
            )
            &&& stream.started && first && draft.id.len() > 0 && draft.name.len() > 0 ==> is_for(
                refused,
                "unsupported_feature.invalid_tool_arguments"@,
                call_place(draft) + "/function/arguments"@,
            )
            &&& stream.started && all_whole ==> is_for(
                refused,
                "unsupported_feature.finish_reason"@,
                "/choices/0/finish_reason"@,
            )
        },
{
    let drafts = stream.drafts;
    if 0 <= i < drafts.len() && !is_whole(drafts[i], readings[i]) && (forall|j: int|
        0 <= j < i ==> is_whole(#[trigger] drafts[j], readings[j])) {
        lemma_first_fault(drafts, readings, i);
    }
    if forall|j: int| 0 <= j < drafts.len() ==> is_whole(#[trigger] drafts[j], readings[j]) {
        assert forall|j: int| 0 <= j < drafts.len() implies draft_fault(
            #[trigger] drafts[j],
            readings[j],
        ) is None by {
            assert(is_whole(drafts[j], readings[j]));
        }
        crate::codec::chat_laws::lemma_no_fault(drafts, readings);
    }
}

} // verus!
