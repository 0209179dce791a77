//! JSON values and text helpers.
use chat_bridge::fresh::{prefixed_hyphenated, prefixed_simple};
use chat_bridge::json::{parse_json, print_json, JsonValue, Object};
use chat_bridge::text::{same_text, strip_prefix, trim, write_decimal};
use chat_bridge::thinking::budget_to_level;

fn json(text: &str) -> JsonValue {
    parse_json(text).unwrap()
}

#[test]
fn json_text_goes_in_and_out() {
    let text = r#"{"a":[null,true,-7,18446744073709551615,"\"é\n"],"b":{}}"#;
    assert_eq!(print_json(&json(text)).unwrap(), text);
    assert!(parse_json("{").is_err());
    assert_eq!(parse_json("").unwrap_err(), "EOF while parsing a value at line 1 column 0");
}

#[test]
fn the_nesting_that_parses_is_bounded() {
    let nested = |depth: usize| format!("{}{}", "[".repeat(depth), "]".repeat(depth));
    assert_eq!(print_json(&json(&nested(127))).unwrap(), nested(127));
    assert!(parse_json(&nested(128)).is_err());
}

#[test]
fn numbers_are_read_within_their_range() {
    assert_eq!(json("7").as_u64(), Some(7));
    assert_eq!(json("-7").as_u64(), None);
    assert_eq!(json("-7").as_i64(), Some(-7));
    assert_eq!(json("18446744073709551615").as_u64(), Some(u64::MAX));
    assert_eq!(json("18446744073709551615").as_i64(), None);
    assert_eq!(json("7.0").as_u64(), None);
    assert_eq!(json("7.0").as_i64(), None);
    assert_eq!(json("\"7\"").as_u64(), None);
    assert_eq!(print_json(&JsonValue::count(u64::MAX)).unwrap(), "18446744073709551615");
    assert_eq!(print_json(&JsonValue::signed(-3)).unwrap(), "-3");
    assert_eq!(print_json(&json("2.50").duplicate()).unwrap(), "2.5");
}

#[test]
fn the_last_value_of_a_key_counts() {
    let object = Object::new()
        .with("a", JsonValue::count(1))
        .with("b", JsonValue::Null)
        .with("a", JsonValue::count(2))
        .with_some("c", None);
    assert_eq!(object.entries().len(), 2);
    assert_eq!(object.get("a").unwrap().as_u64(), Some(2));
    assert!(object.get("c").is_none());
    assert_eq!(print_json(&JsonValue::Object(object)).unwrap(), r#"{"a":2,"b":null}"#);
    assert_eq!(json(r#"{"a":1,"a":2}"#).get_u64("a"), Some(2));
}

#[test]
fn text_is_trimmed_of_every_white_space() {
    assert_eq!(trim("\u{2003}\u{9} a b \u{2029}\u{1680}"), "a b");
    assert_eq!(trim(" \n"), "");
    assert_eq!(trim("\u{200b}a"), "\u{200b}a");
    assert_eq!(strip_prefix("Bearer x", "Bearer "), Some("x"));
    assert_eq!(strip_prefix("Bear", "Bearer "), None);
    assert!(same_text("\u{e9}", "\u{e9}"));
    assert!(!same_text("a", "b"));
    assert!(!same_text("a", "ab"));
    assert_eq!(write_decimal(0), "0");
    assert_eq!(write_decimal(u64::MAX), "18446744073709551615");
}

#[test]
fn identifiers_are_fresh() {
    let simple = prefixed_simple("a_");
    assert_eq!(simple.len(), 34);
    assert_ne!(simple, prefixed_simple("a_"));
    let hyphenated = prefixed_hyphenated("b_");
    assert_eq!(hyphenated.len(), 38);
    assert_ne!(hyphenated, prefixed_hyphenated("b_"));
}

#[test]
fn a_budget_has_a_level() {
    assert_eq!(budget_to_level(1024), Some("low"));
    assert_eq!(budget_to_level(8192), Some("medium"));
    assert_eq!(budget_to_level(24576), Some("high"));
    assert_eq!(budget_to_level(i64::MAX), Some("xhigh"));
    assert_eq!(budget_to_level(i64::MIN), None);
}
