//! Reading `gh` output as JSON.
use laba_core::error::Error;
use laba_core::json::{copy_all, parse_values, Json};
use laba_core::runs::parse_runs;

fn value(text: &str) -> Json {
    let mut all = parse_values(format!("[{}]", text).as_bytes()).unwrap();
    assert_eq!(all.len(), 1);
    all.pop().unwrap()
}

#[test]
fn every_kind_of_value_is_read() {
    assert!(matches!(value("null"), Json::Null));
    assert!(matches!(value("true"), Json::Bool(true)));
    assert!(matches!(value("-7"), Json::Number(Some(-7))));
    assert!(matches!(value("\"\\u00fc\""), Json::Text(s) if s == "ü"));
    match value("[1, [2], {}]") {
        Json::Array(items) => {
            assert_eq!(items.len(), 3);
            assert!(matches!(items[0], Json::Number(Some(1))));
            assert!(matches!(&items[1], Json::Array(inner) if inner.len() == 1));
            assert!(matches!(&items[2], Json::Object(fields) if fields.is_empty()));
        }
        other => panic!("{:?}", other),
    }
}

#[test]
fn numbers_that_are_no_i64_have_no_integer() {
    let v = value(
        r#"{"max": 9223372036854775807, "min": -9223372036854775808,
            "big": 9223372036854775808, "float": 1.5, "whole": 1.0, "text": "1"}"#,
    );
    assert_eq!(v.integer_at("max"), Some(i64::MAX));
    assert_eq!(v.integer_at("min"), Some(i64::MIN));
    assert_eq!(v.integer_at("big"), None);
    assert_eq!(v.integer_at("float"), None);
    assert_eq!(v.integer_at("whole"), None);
    assert_eq!(v.integer_at("text"), None);
    assert_eq!(v.integer_at("absent"), None);
}

#[test]
fn lookups_follow_the_kind_of_value() {
    let v = value(r#"{"a": {"b": "c"}, "s": "t", "y": false, "l": [1, 2]}"#);
    assert_eq!(v.str_within("a", "b"), Some("c"));
    assert_eq!(v.str_within("a", "x"), None);
    assert_eq!(v.str_within("s", "b"), None);
    assert_eq!(v.str_at("s"), Some("t"));
    assert_eq!(v.string_at("s"), Some("t".to_string()));
    assert_eq!(v.str_at("y"), None);
    assert_eq!(v.bool_at("y"), Some(false));
    assert_eq!(v.bool_at("s"), None);
    assert_eq!(v.array_at("l").map(Vec::len), Some(2));
    assert!(v.array_at("s").is_none());
    assert!(value("[]").get("a").is_none());
}

#[test]
fn the_last_of_equal_fields_counts() {
    let v = value(r#"{"a": 1, "b": 2, "a": 3}"#);
    assert_eq!(v.integer_at("a"), Some(3));
    assert_eq!(v.integer_at("b"), Some(2));
    let by_hand = Json::Object(vec![
        ("a".to_string(), Json::Number(Some(1))),
        ("a".to_string(), Json::Number(Some(3))),
    ]);
    assert_eq!(by_hand.integer_at("a"), Some(3));
}

#[test]
fn what_is_no_array_of_values_is_an_api_error() {
    for raw in ["", "{}", "[1,", "[1] x", "3", "gibberish"] {
        let expected = serde_json::from_slice::<Vec<serde_json::Value>>(raw.as_bytes())
            .unwrap_err()
            .to_string();
        assert_eq!(
            parse_values(raw.as_bytes()).unwrap_err(),
            Error::Api(format!("parse gh output: {}", expected))
        );
        assert!(parse_runs(raw.as_bytes()).is_none());
    }
    assert!(parse_values(b"[\"\xff\"]").is_err());
    assert_eq!(parse_runs(b"[{}, 1]").map(|r| r.len()), Some(2));
}

#[test]
fn copies_hold_the_same() {
    let all = parse_values(br#"[null, true, 1, 1.5, "s", [[]], {"a": {"b": [0]}}]"#).unwrap();
    assert_eq!(format!("{:?}", copy_all(&all)), format!("{:?}", all));
}
