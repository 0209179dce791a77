//! What the headers of a request say: the API key, and the protocol.
use vstd::prelude::*;
use vstd::string::*;

use crate::json::{seen_string, seen_text, JsonValue};
use crate::text::{
    has_prefix, is_blank, is_white_space, lemma_blank_trims_away, lemma_trimmed,
    lemma_trimmed_is_inside, strip_prefix, trim, trimmed,
};

verus! {

/// `axum::http::HeaderMap`, which holds the headers of a request.
#[verifier::external_type_specification]
#[verifier::external_body]
#[verifier::reject_recursive_types(T)]
pub struct ExHeaderMap<T>(axum::http::HeaderMap<T>);

/// `axum::http::HeaderValue`, the value of one header.
#[verifier::external_type_specification]
#[verifier::external_body]
pub struct ExHeaderValue(axum::http::HeaderValue);

/// The headers in a header map: the values of each name in lower case, in the order in which
/// they were added.
pub uninterp spec fn headers_in(headers: axum::http::HeaderMap) -> Map<Seq<char>, Seq<Seq<u8>>>;

/// The bytes of a header value.
pub uninterp spec fn bytes_in(value: axum::http::HeaderValue) -> Seq<u8>;

/// The headers that this library looks at.
pub open spec fn is_known_name(name: Seq<char>) -> bool {
    name == "authorization"@ || name == "x-api-key"@ || name == "anthropic-version"@
}

/// Whether a byte is visible ASCII, a space or a tab.
pub open spec fn is_visible(byte: u8) -> bool {
    32 <= byte < 127 || byte == 9
}

/// The text of a header value, which has one where all its bytes are visible ASCII.
pub open spec fn visible_text(bytes: Seq<u8>) -> Option<Seq<char>> {
    if forall|i: int| 0 <= i < bytes.len() ==> is_visible(#[trigger] bytes[i]) {
        Some(Seq::new(bytes.len(), |i: int| bytes[i] as char))
    } else {
        None
    }
}

/// Trusted: `HeaderMap::get` with a name in lower case gives the first value of that name.
#[verifier::external_body]
fn first_value<'a>(headers: &'a axum::http::HeaderMap, name: &str) -> (r: Option<
    &'a axum::http::HeaderValue,
>)
    requires
        is_known_name(name@),
    ensures
        r is Some == headers_in(*headers).contains_key(name@),
        r is Some ==> headers_in(*headers)[name@].len() > 0 && bytes_in(*r->Some_0) == headers_in(
            *headers,
        )[name@][0],
{
    headers.get(name)
}

/// Trusted: `HeaderMap::contains_key` with a name in lower case tells whether the name has a value.
#[verifier::external_body]
fn has_header(headers: &axum::http::HeaderMap, name: &str) -> (r: bool)
    requires
        is_known_name(name@),
    ensures
        r == headers_in(*headers).contains_key(name@),
{
    headers.contains_key(name)
}

/// Trusted: `HeaderValue::to_str` gives the bytes as text where all are visible ASCII, and an
/// error otherwise.
#[verifier::external_body]
fn value_text(value: &axum::http::HeaderValue) -> (r: Option<&str>)
    ensures
        seen_text(r) == visible_text(bytes_in(*value)),
{
    value.to_str().ok()
}

/// The text of the first header of a name.
pub open spec fn header_text(
    headers: Map<Seq<char>, Seq<Seq<u8>>>,
    name: Seq<char>,
) -> Option<Seq<char>> {
    if headers.contains_key(name) {
        visible_text(headers[name][0])
    } else {
        None
    }
}

fn get_header_text<'a>(headers: &'a axum::http::HeaderMap, name: &str) -> (r: Option<&'a str>)
    requires
        is_known_name(name@),
    ensures
        seen_text(r) == header_text(headers_in(*headers), name@),
{
    match first_value(headers, name) {
        Some(value) => value_text(value),
        None => None,
    }
}

/// A text without surrounding white space, where anything is left of it.
pub open spec fn trimmed_some(text: Seq<char>) -> Option<Seq<char>> {
    if trimmed(text).len() > 0 {
        Some(trimmed(text))
    } else {
        None
    }
}

/// The key in an `Authorization` header that names a bearer.
pub open spec fn bearer_key(authorization: Option<Seq<char>>) -> Option<Seq<char>> {
    match authorization {
        Some(text) => if has_prefix(text, "Bearer "@) {
            trimmed_some(text.skip("Bearer "@.len() as int))
        } else {
            None
        },
        None => None,
    }
}

/// The API key, given the texts of the two headers that may hold it: the bearer, or else the
/// `x-api-key` header.
pub open spec fn api_key(
    authorization: Option<Seq<char>>,
    x_api_key: Option<Seq<char>>,
) -> Option<Seq<char>> {
    match bearer_key(authorization) {
        Some(key) => Some(key),
        None => match x_api_key {
            Some(text) => trimmed_some(text),
            None => None,
        },
    }
}

fn trim_some(text: &str) -> (r: Option<String>)
    ensures
        seen_string(r) == trimmed_some(text@),
{
    let text = trim(text);
    if text.is_empty() {
        None
    } else {
        Some(text.to_owned())
    }
}

/// Chooses the API key from the texts of the two headers that may hold it.
pub fn choose_api_key(authorization: Option<&str>, x_api_key: Option<&str>) -> (r: Option<String>)
    ensures
        seen_string(r) == api_key(seen_text(authorization), seen_text(x_api_key)),
{
    let bearer = match authorization {
        Some(text) => match strip_prefix(text, "Bearer ") {
            Some(key) => trim_some(key),
            None => None,
        },
        None => None,
    };
    if bearer.is_some() {
        return bearer;
    }
    match x_api_key {
        Some(text) => trim_some(text),
        None => None,
    }
}

/// Extracts the API key from the headers of a request, `Authorization: Bearer` before
/// `x-api-key`.
pub fn extract_api_key(headers: &axum::http::HeaderMap) -> (r: Option<String>)
    ensures
        seen_string(r) == api_key(
            header_text(headers_in(*headers), "authorization"@),
            header_text(headers_in(*headers), "x-api-key"@),
        ),
{
    choose_api_key(get_header_text(headers, "authorization"), get_header_text(headers, "x-api-key"))
}

/// Whether headers are those of an Anthropic request: they name a version of its API, or they
/// carry an API key and no authorization.
pub open spec fn has_anthropic_headers(names: Set<Seq<char>>) -> bool {
    names.contains("anthropic-version"@) || (names.contains("x-api-key"@) && !names.contains(
        "authorization"@,
    ))
}

/// Detects an Anthropic request by its headers. The body does not matter.
pub fn is_anthropic_request(headers: &axum::http::HeaderMap, body: &JsonValue) -> (r: bool)
    ensures
        r == has_anthropic_headers(headers_in(*headers).dom()),
{
    let _ = body;
    has_header(headers, "anthropic-version") || (has_header(headers, "x-api-key") && !has_header(
        headers,
        "authorization",
    ))
}

/// A bearer goes before an `x-api-key` header, which counts only where there is no bearer.
pub proof fn lemma_bearer_first(authorization: Option<Seq<char>>, x_api_key: Option<Seq<char>>)
    ensures
        bearer_key(authorization) is Some ==> api_key(authorization, x_api_key) == bearer_key(
            authorization,
        ),
        bearer_key(authorization) is None ==> api_key(authorization, x_api_key) == api_key(
            None,
            x_api_key,
        ),
{
}

/// An API key is never blank, and white space never surrounds it.
pub proof fn lemma_key_is_trimmed(authorization: Option<Seq<char>>, x_api_key: Option<Seq<char>>)
    ensures
        api_key(authorization, x_api_key) matches Some(key) ==> key.len() > 0 && !is_white_space(
            key[0],
        ) && !is_white_space(key.last()),
{
    if authorization is Some {
        lemma_trimmed(authorization->Some_0.skip("Bearer "@.len() as int));
    }
    if x_api_key is Some {
        lemma_trimmed(x_api_key->Some_0);
    }
}

/// A bearer token is what stands behind `Bearer `, between blanks; it is the key whatever else the
/// headers hold.
pub proof fn lemma_bearer_token(
    before: Seq<char>,
    key: Seq<char>,
    after: Seq<char>,
    x_api_key: Option<Seq<char>>,
)
    requires
        is_blank(before),
        is_blank(after),
        key.len() > 0,
        !is_white_space(key[0]),
        !is_white_space(key.last()),
    ensures
        api_key(Some("Bearer "@ + (before + key + after)), x_api_key) == Some(key),
        api_key(None, Some(before + key + after)) == Some(key),
{
    let text = "Bearer "@ + (before + key + after);
    assert(text.take("Bearer "@.len() as int) =~= "Bearer "@);
    assert(text.skip("Bearer "@.len() as int) =~= before + key + after);
    lemma_trimmed_is_inside(before, key, after);
}

/// A header that does not begin with `Bearer `, and a bearer or a key that is blank, count for
/// nothing.
pub proof fn lemma_no_bearer(
    authorization: Seq<char>,
    blank: Seq<char>,
    x_api_key: Option<Seq<char>>,
)
    requires
        is_blank(blank),
    ensures
        !("Bearer "@.is_prefix_of(authorization)) ==> api_key(Some(authorization), x_api_key)
            == api_key(None, x_api_key),
        api_key(Some("Bearer "@ + blank), x_api_key) == api_key(None, x_api_key),
        api_key(None, Some(blank)) is None,
        api_key(None, None) is None,
{
    lemma_blank_trims_away(blank);
    let text = "Bearer "@ + blank;
    assert(text.take("Bearer "@.len() as int) =~= "Bearer "@);
    assert(text.skip("Bearer "@.len() as int) =~= blank);
    if has_prefix(authorization, "Bearer "@) {
        let prefix = "Bearer "@;
        assert(authorization.subrange(0, prefix.len() as int) =~= prefix);
    }
}

/// The text of a header is its bytes, one character for each, where all are visible, and no text
/// otherwise.
pub proof fn lemma_visible_text(bytes: Seq<u8>, i: int)
    ensures
        visible_text(bytes) matches Some(text) ==> text.len() == bytes.len() && (0 <= i
            < bytes.len() ==> text[i] as int == bytes[i] as int && (32 <= bytes[i] < 127 || bytes[i]
            == 9)),
        visible_text(bytes) is None ==> exists|j: int|
            0 <= j < bytes.len() && !(32 <= #[trigger] bytes[j] < 127 || bytes[j] == 9),
{
    if visible_text(bytes) is None {
        let j = choose|j: int| 0 <= j < bytes.len() && !is_visible(#[trigger] bytes[j]);
        assert(!(32 <= bytes[j] < 127 || bytes[j] == 9));
    } else if 0 <= i < bytes.len() {
        assert(is_visible(bytes[i]));
    }
}

/// The first header of a name counts, and a name without a header has no text.
pub proof fn lemma_first_header(
    headers: Map<Seq<char>, Seq<Seq<u8>>>,
    name: Seq<char>,
    values: Seq<Seq<u8>>,
)
    ensures
        values.len() > 0 ==> header_text(headers.insert(name, values), name) == visible_text(
            values[0],
        ),
        header_text(headers.remove(name), name) is None,
{
}

/// A version header is enough for an Anthropic request, an API key is where nothing authorizes,
/// and neither of them is needed for any other request.
pub proof fn lemma_anthropic_headers(names: Set<Seq<char>>)
    ensures
        names.contains("anthropic-version"@) ==> has_anthropic_headers(names),
        names.contains("x-api-key"@) && !names.contains("authorization"@) ==> has_anthropic_headers(
            names,
        ),
        !names.contains("anthropic-version"@) && names.contains("authorization"@)
            ==> !has_anthropic_headers(names),
        !names.contains("anthropic-version"@) && !names.contains("x-api-key"@)
            ==> !has_anthropic_headers(names),
{
}

} // verus!
