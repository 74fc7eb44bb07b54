use structlog::fields::{FieldValue, RequiredFields};
use structlog::json::encode_fields;

#[test]
fn encode_empty_object() {
    let fields = RequiredFields::new();
    assert_eq!(encode_fields(&fields), "{}");
}

#[test]
fn encode_exact_number() {
    let mut fields = RequiredFields::new();
    fields.add("a", FieldValue::Number(-42));
    assert_eq!(encode_fields(&fields), "{\"a\":-42}");

    let mut zero = RequiredFields::new();
    zero.add("z", FieldValue::Number(0));
    assert_eq!(encode_fields(&zero), "{\"z\":0}");
}

#[test]
fn encode_exact_string_escapes() {
    let mut fields = RequiredFields::new();
    fields.add("s", FieldValue::String("a\"b\\c\nd".to_string()));
    assert_eq!(encode_fields(&fields), "{\"s\":\"a\\\"b\\\\c\\u000ad\"}");
}

#[test]
fn add_overwrites_and_keeps_one_entry() {
    let mut fields = RequiredFields::new();
    fields.add("k", FieldValue::Number(1));
    fields.add("k", FieldValue::Number(2));
    assert_eq!(encode_fields(&fields), "{\"k\":2}");
}

#[test]
fn data_is_an_independent_copy() {
    let mut fields = RequiredFields::new();
    fields.add("k", FieldValue::Number(1));
    let mut copy = fields.data();
    copy.add("k", FieldValue::Number(2));
    copy.add("extra", FieldValue::Number(3));
    assert_eq!(encode_fields(&fields), "{\"k\":1}");
    let parsed: serde_json::Value = serde_json::from_str(&encode_fields(&copy)).unwrap();
    assert_eq!(parsed["k"].as_i64(), Some(2));
    assert_eq!(parsed["extra"].as_i64(), Some(3));
}

#[test]
fn round_trip_decodes_to_the_mapping() {
    let mut fields = RequiredFields::new();
    fields.add("plain", FieldValue::String("orders".to_string()));
    fields.add("quote", FieldValue::String("a\"b".to_string()));
    fields.add("backslash", FieldValue::String("a\\b".to_string()));
    fields.add("control", FieldValue::String("a\tb\u{1}c".to_string()));
    fields.add("unicode", FieldValue::String("caf\u{e9} \u{1f600}".to_string()));
    fields.add("empty", FieldValue::String(String::new()));
    fields.add("min", FieldValue::Number(i64::MIN));
    fields.add("max", FieldValue::Number(i64::MAX));

    let text = encode_fields(&fields);
    let parsed: serde_json::Value = serde_json::from_str(&text).unwrap();
    let obj = parsed.as_object().unwrap();
    assert_eq!(obj.len(), 8);
    assert_eq!(obj["plain"].as_str(), Some("orders"));
    assert_eq!(obj["quote"].as_str(), Some("a\"b"));
    assert_eq!(obj["backslash"].as_str(), Some("a\\b"));
    assert_eq!(obj["control"].as_str(), Some("a\tb\u{1}c"));
    assert_eq!(obj["unicode"].as_str(), Some("caf\u{e9} \u{1f600}"));
    assert_eq!(obj["empty"].as_str(), Some(""));
    assert_eq!(obj["min"].as_i64(), Some(i64::MIN));
    assert_eq!(obj["max"].as_i64(), Some(i64::MAX));
}
