use structlog::builder::LoggerBuilder;
use structlog::fields::FieldValue;

#[test]
fn test_new_logger() {
    let log = LoggerBuilder::default().build();

    log.info("Hello world!");
    log.debug("Hello world!");
    log.error("Hello world!");
    log.warn("Hello world!");
}

#[test]
fn test_new_logger_with_fields() {
    let log = LoggerBuilder::default()
        .with_field("name", FieldValue::String("example".to_string()))
        .build();

    log.info("Hello world!");
    log.debug("Hello world!");
    log.error("Hello world!");
    log.warn("Hello world!");
}

#[test]
fn test_log_with_empty_messages() {}

#[test]
fn test_log_with_fields() {}

#[test]
fn test_log_successful() {}
