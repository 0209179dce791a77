//! What reading and building JSON values comes to.
use vstd::prelude::*;
use vstd::string::*;

use crate::chat::{calls_in, field_of, first_choice, message, token_count, tool_call, tool_message};
use crate::json::{
    count_in, either, field, filled, flag_in, integer_of, list_field, list_in, list_model, put_some,
    signed_in, text_field, text_in, text_or_empty, Json, JsonNumber, JsonValue,
};
use crate::names::lemma_names;

verus! {

/// A member that was set is read back, and setting it leaves every other member as it was.
pub proof fn lemma_set_then_read(
    record: Map<Seq<char>, Json>,
    key: Seq<char>,
    value: Json,
    other: Seq<char>,
)
    ensures
        field(Json::Record(record.insert(key, value)), key) == Some(value),
        field(Json::Record(record.remove(key)), key) is None,
        other != key ==> field(Json::Record(record.insert(key, value)), other) == field(
            Json::Record(record),
            other,
        ),
        put_some(record, key, Some(value)) == record.insert(key, value),
        put_some(record, key, None) == record,
{
}

/// Only a record has members.
pub proof fn lemma_members_of_records_only(value: Json, key: Seq<char>)
    ensures
        field(value, key) is Some ==> value is Record,
        field(Json::Record(Map::empty()), key) is None,
        field_of(None, key) is None,
        field_of(Some(value), key) == field(value, key),
{
}

/// A value is read as a text, a list or a truth value exactly where it is one, and as what it is.
pub proof fn lemma_read_by_kind(value: Json, text: Seq<char>, items: Seq<Json>, flag: bool)
    ensures
        text_in(Some(value)) == Some(text) <==> value == Json::Text(text),
        list_in(Some(value)) == Some(items) <==> value == Json::List(items),
        flag_in(Some(value)) == Some(flag) <==> value == Json::Bool(flag),
        text_in(None) is None,
        list_in(None) is None,
        flag_in(None) is None,
{
}

/// A number is read as a count or as a signed number exactly where it is an integer in that range.
pub proof fn lemma_read_numbers(value: Json, n: int)
    ensures
        0 <= n <= u64::MAX ==> (count_in(Some(value)) == Some(n as u64) <==> value == Json::Number(
            JsonNumber::Integer(n),
        )),
        i64::MIN <= n <= i64::MAX ==> (signed_in(Some(value)) == Some(n as i64) <==> value
            == Json::Number(JsonNumber::Integer(n))),
        integer_of(Some(value)) == Some(n) <==> value == Json::Number(JsonNumber::Integer(n)),
        !(0 <= n <= u64::MAX) ==> count_in(Some(Json::Number(JsonNumber::Integer(n)))) is None,
        !(i64::MIN <= n <= i64::MAX) ==> signed_in(Some(Json::Number(JsonNumber::Integer(n))))
            is None,
        count_in(None) is None,
        signed_in(None) is None,
{
}

/// A text counts as filled exactly where it has a character, and stays the text that it is.
pub proof fn lemma_filled_texts(text: Seq<char>, value: Json, key: Seq<char>)
    ensures
        text.len() > 0 ==> filled(Some(text)) == Some(text),
        text.len() == 0 ==> filled(Some(text)) is None,
        filled(None) is None,
        either(Some(text), Seq::empty()) == text,
        either(None, text) == text,
        text_field(value, key) == Some(text) <==> field(value, key) == Some(Json::Text(text)),
        field(value, key) == Some(Json::Text(text)) ==> text_or_empty(value, key) == text,
        text_field(value, key) is None ==> text_or_empty(value, key).len() == 0,
        list_field(value, key) is Some <==> field(value, key) is Some && field(value, key)->Some_0
            is List,
{
}

/// A list of values is modelled element by element.
pub proof fn lemma_list_elements(items: Seq<JsonValue>, i: int)
    ensures
        list_model(items).len() == items.len(),
        0 <= i < items.len() ==> list_model(items)[i] == items[i]@,
{
}

/// A chat message says what it was made of.
pub proof fn lemma_chat_shapes(
    role: Seq<char>,
    content: Json,
    id: Seq<char>,
    name: Seq<char>,
    text: Seq<char>,
)
    ensures
        text_field(message(role, content), "role"@) == Some(role),
        field(message(role, content), "content"@) == Some(content),
        text_field(tool_call(id, name, text), "id"@) == Some(id),
        text_field(tool_call(id, name, text), "type"@) == Some("function"@),
        field(tool_call(id, name, text), "function"@) matches Some(function) && text_field(
            function,
            "name"@,
        ) == Some(name) && text_field(function, "arguments"@) == Some(text),
        text_field(tool_message(id, text), "role"@) == Some("tool"@),
        text_field(tool_message(id, text), "tool_call_id"@) == Some(id),
        text_field(tool_message(id, text), "content"@) == Some(text),
{
    lemma_names();
}

/// Of a chat response the choice at the front counts, and its usage where it gives one.
pub proof fn lemma_chat_readings(resp: Json, key: Seq<char>, choices: Seq<Json>, n: int)
    ensures
        field(resp, "choices"@) == Some(Json::List(choices)) && choices.len() > 0 ==> first_choice(
            resp,
        ) == Some(choices[0]),
        field(resp, "choices"@) == Some(Json::List(choices)) && choices.len() == 0 ==> first_choice(
            resp,
        ) is None,
        list_field(resp, "choices"@) is None ==> first_choice(resp) is None,
        0 <= n <= u64::MAX && (field(resp, "usage"@) matches Some(usage) && field(usage, key)
            == Some(Json::Number(JsonNumber::Integer(n)))) ==> token_count(resp, key) == n,
        !(field(resp, "usage"@) matches Some(usage) && count_in(field(usage, key)) is Some)
            ==> token_count(resp, key) == 0,
        field(resp, "tool_calls"@) == Some(Json::List(choices)) ==> calls_in(resp) == choices,
        list_field(resp, "tool_calls"@) is None ==> calls_in(resp).len() == 0,
{
}

} // verus!
