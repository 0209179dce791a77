//! What the headers of a request say.
use axum::http::{HeaderMap, HeaderName, HeaderValue};
use chat_bridge::headers::choose_api_key;
use chat_bridge::json::JsonValue;
use chat_bridge::{extract_api_key, is_anthropic_request};

fn headers(pairs: &[(&str, &str)]) -> HeaderMap {
    let mut map = HeaderMap::new();
    for (name, value) in pairs {
        map.append(
            HeaderName::from_bytes(name.as_bytes()).unwrap(),
            HeaderValue::from_bytes(value.as_bytes()).unwrap(),
        );
    }
    map
}

fn key(pairs: &[(&str, &str)]) -> Option<String> {
    extract_api_key(&headers(pairs))
}

#[test]
fn a_bearer_goes_before_an_api_key() {
    assert_eq!(key(&[("Authorization", "Bearer  one ")]), Some("one".to_string()));
    assert_eq!(key(&[("X-Api-Key", " two\t")]), Some("two".to_string()));
    assert_eq!(
        key(&[("x-api-key", "two"), ("authorization", "Bearer one")]),
        Some("one".to_string())
    );
}

#[test]
fn what_is_no_bearer_leaves_the_api_key() {
    for other in ["Basic one", "bearer one", "Bearer", "Bearer   ", ""] {
        assert_eq!(
            key(&[("authorization", other), ("x-api-key", "two")]),
            Some("two".to_string())
        );
    }
    assert_eq!(key(&[("authorization", "Basic one")]), None);
    assert_eq!(key(&[("x-api-key", " \t ")]), None);
    assert_eq!(key(&[]), None);
}

#[test]
fn the_first_header_of_a_name_counts_and_must_be_visible() {
    assert_eq!(
        key(&[("x-api-key", "one"), ("x-api-key", "two")]),
        Some("one".to_string())
    );
    assert_eq!(key(&[("x-api-key", "\u{e9}"), ("x-api-key", "two")]), None);
    assert_eq!(
        key(&[("authorization", "Bearer \u{e9}"), ("x-api-key", "two")]),
        Some("two".to_string())
    );
}

#[test]
fn a_key_is_chosen_from_two_texts() {
    assert_eq!(
        choose_api_key(Some("Bearer \u{3000}k\u{85}"), None),
        Some("k".to_string())
    );
    assert_eq!(choose_api_key(None, Some("")), None);
    assert_eq!(choose_api_key(None, None), None);
}

#[test]
fn an_anthropic_request_is_known_by_its_headers() {
    let body = JsonValue::Null;
    let ask = |pairs: &[(&str, &str)]| is_anthropic_request(&headers(pairs), &body);
    assert!(ask(&[("Anthropic-Version", "2023-06-01"), ("authorization", "Bearer k")]));
    assert!(ask(&[("x-api-key", "k")]));
    assert!(!ask(&[("x-api-key", "k"), ("authorization", "x")]));
    assert!(!ask(&[("authorization", "Bearer k")]));
    assert!(!ask(&[]));
}
