use structlog::builder::{Environment, LoggerBuilder};
use structlog::fields::{FieldValue, RequiredFields};
use structlog::{Level, Timestamp};

fn sample_time() -> Timestamp {
    Timestamp {
        secs: 1700000000,
        millis: 1700000000123,
        display: "2023-11-14 22:13:20.123 +00:00".to_string(),
    }
}

fn parse_fields(line: &str) -> serde_json::Value {
    let parts: Vec<&str> = line.split('\t').collect();
    assert_eq!(parts.len(), 4);
    serde_json::from_str(parts[3]).unwrap()
}

#[test]
fn environment_flags_exact() {
    let local = LoggerBuilder::new().as_local();
    assert!(local.has_color());
    assert!(local.show_debug());

    let test = LoggerBuilder::new().as_test();
    assert!(test.has_color());
    assert!(test.show_debug());

    let dev = LoggerBuilder::new().as_dev();
    assert!(!dev.has_color());
    assert!(!dev.show_debug());

    let prod = LoggerBuilder::new().as_prod();
    assert!(!prod.has_color());
    assert!(!prod.show_debug());

    let by_value = LoggerBuilder::new().with_env(Environment::Development);
    assert!(!by_value.has_color());
    assert!(!by_value.show_debug());
}

#[test]
fn production_info_line() {
    let log = LoggerBuilder::new()
        .as_prod()
        .with_field("service", FieldValue::String("orders".to_string()))
        .build();
    let now = sample_time();
    let line = log.render(Level::Info, "started", None, &now).unwrap();

    let parts: Vec<&str> = line.split('\t').collect();
    assert_eq!(parts.len(), 4);
    assert_eq!(parts[0], "2023-11-14 22:13:20.123 +00:00");
    assert_eq!(parts[1], "INFO");
    assert_eq!(parts[2], "started");

    let fields = parse_fields(&line);
    let obj = fields.as_object().unwrap();
    assert_eq!(obj.len(), 3);
    assert_eq!(obj["service"].as_str(), Some("orders"));
    assert_eq!(obj["local.ts"].as_i64(), Some(1700000000));
    assert_eq!(obj["local.ts_ms"].as_i64(), Some(1700000000123));

    log.info("started");
}

#[test]
fn local_debugf_line() {
    let log = LoggerBuilder::new()
        .as_local()
        .with_field("service", FieldValue::String("orders".to_string()))
        .build();
    let mut call = RequiredFields::new();
    call.add("count", FieldValue::Number(3));
    let now = sample_time();
    let line = log.render(Level::Debug, "loaded", Some(&call), &now).unwrap();

    let parts: Vec<&str> = line.split('\t').collect();
    assert_eq!(parts.len(), 4);
    assert!(parts[1] == "DEBUG" || parts[1] == "\u{1b}[32mDEBUG\u{1b}[0m");

    let fields = parse_fields(&line);
    let obj = fields.as_object().unwrap();
    assert_eq!(obj.len(), 4);
    assert_eq!(obj["count"].as_i64(), Some(3));
    assert_eq!(obj["service"].as_str(), Some("orders"));
    assert_eq!(obj["local.ts"].as_i64(), Some(1700000000));
    assert_eq!(obj["local.ts_ms"].as_i64(), Some(1700000000123));

    log.debugf("loaded", &call);
}

#[test]
fn production_debug_is_silent() {
    let log = LoggerBuilder::new().as_prod().build();
    let now = sample_time();
    assert!(log.render(Level::Debug, "x", None, &now).is_none());

    let mut call = RequiredFields::new();
    call.add("k", FieldValue::Number(1));
    assert!(log.render(Level::Debug, "x", Some(&call), &now).is_none());

    assert!(log.render(Level::Info, "x", None, &now).is_some());
    assert!(log.render(Level::Warn, "x", None, &now).is_some());
    assert!(log.render(Level::Error, "x", None, &now).is_some());

    log.debug("x");
}

#[test]
fn field_precedence() {
    let log = LoggerBuilder::new()
        .as_prod()
        .with_field("a", FieldValue::Number(1))
        .with_field("local.ts", FieldValue::String("shadowed".to_string()))
        .build();
    let now = sample_time();

    // The computed timestamp overrides the required field of the same name.
    let plain = log.render(Level::Info, "m", None, &now).unwrap();
    let obj1 = parse_fields(&plain);
    assert_eq!(obj1["local.ts"].as_i64(), Some(1700000000));
    assert_eq!(obj1["a"].as_i64(), Some(1));

    // Call-supplied fields override both required and computed fields.
    let mut call = RequiredFields::new();
    call.add("a", FieldValue::Number(2));
    call.add("local.ts_ms", FieldValue::String("call".to_string()));
    let line = log.render(Level::Info, "m", Some(&call), &now).unwrap();
    let obj2 = parse_fields(&line);
    assert_eq!(obj2["a"].as_i64(), Some(2));
    assert_eq!(obj2["local.ts_ms"].as_str(), Some("call"));
    assert_eq!(obj2["local.ts"].as_i64(), Some(1700000000));
}

#[test]
fn timestamp_field_names() {
    let now = sample_time();

    let plain = LoggerBuilder::new().as_prod();
    assert_eq!(plain.timestamp_second_field_name(), "local.ts");
    assert_eq!(plain.timestamp_millisecond_field_name(), "local.ts_ms");

    let named = LoggerBuilder::new().as_prod().with_timestamp_field_name("a", "b");
    assert_eq!(named.timestamp_second_field_name(), "a");
    assert_eq!(named.timestamp_millisecond_field_name(), "b");

    let log = named.build();
    let line = log.render(Level::Info, "m", None, &now).unwrap();
    let obj = parse_fields(&line);
    assert_eq!(obj["a"].as_i64(), Some(1700000000));
    assert_eq!(obj["b"].as_i64(), Some(1700000000123));
    assert!(obj.get("local.ts").is_none());
    assert!(obj.get("local.ts_ms").is_none());
}

#[test]
fn builder_reuse_keeps_built_loggers() {
    let now = sample_time();
    let first = LoggerBuilder::new().as_prod().with_field("x", FieldValue::Number(1));
    let log1 = first.build();
    let second = first.with_field("x", FieldValue::Number(2));
    let log2 = second.build();

    let obj1 = parse_fields(&log1.render(Level::Info, "m", None, &now).unwrap());
    let obj2 = parse_fields(&log2.render(Level::Info, "m", None, &now).unwrap());
    assert_eq!(obj1["x"].as_i64(), Some(1));
    assert_eq!(obj2["x"].as_i64(), Some(2));

    // The first logger still renders its own snapshot.
    let again = parse_fields(&log1.render(Level::Info, "m", None, &now).unwrap());
    assert_eq!(again["x"].as_i64(), Some(1));
}

#[test]
fn empty_message_and_empty_key() {
    let now = sample_time();
    let log = LoggerBuilder::new().as_prod().with_field("", FieldValue::Number(7)).build();
    let line = log.render(Level::Warn, "", None, &now).unwrap();
    let parts: Vec<&str> = line.split('\t').collect();
    assert_eq!(parts.len(), 4);
    assert_eq!(parts[1], "WARN");
    assert_eq!(parts[2], "");
    let obj = parse_fields(&line);
    assert_eq!(obj[""].as_i64(), Some(7));
}
