use logsink::dto::logs::{LogIngest, LogStreamQuery};
use logsink::errors::AppError;
use logsink::model::{JsonNumber, JsonValue, LogEntry, LogLevel, Timestamp};
use logsink::routes::log::{log_ingests_to_entries, matches_filters, validate_log_ingest};

fn ingest(message: &str, service: &str) -> LogIngest {
    LogIngest {
        message: message.to_string(),
        level: LogLevel::Info,
        service: service.to_string(),
        attributes: JsonValue::Object(vec![("k".to_string(), JsonValue::Number(JsonNumber::UInt(7)))]),
        trace_id: Some("t".to_string()),
        span_id: Some("s".to_string()),
    }
}

fn stored(level: LogLevel, service: &str) -> LogEntry {
    LogEntry {
        id: 1,
        timestamp: Timestamp { secs: 0, nanos: 0 },
        level,
        message: "m".to_string(),
        service: service.to_string(),
        attributes: JsonValue::Null,
        trace_id: None,
        span_id: None,
    }
}

#[test]
fn valid_log_passes() {
    assert_eq!(validate_log_ingest(&ingest("hello", "api")), Ok(()));
    assert_eq!(validate_log_ingest(&ingest("  padded  ", "\tapi\n")), Ok(()));
}

#[test]
fn blank_message_is_refused() {
    for message in ["", " ", "\t\n\r", "\u{3000}\u{2009}\u{a0}", "\u{85}"] {
        assert_eq!(
            validate_log_ingest(&ingest(message, "api")),
            Err(AppError::ValidationError("message cannot be empty".to_string())),
            "message {:?}",
            message
        );
    }
}

#[test]
fn blank_service_is_refused_after_message() {
    assert_eq!(
        validate_log_ingest(&ingest("hello", " \u{2028} ")),
        Err(AppError::ValidationError("service cannot be empty".to_string()))
    );
    assert_eq!(
        validate_log_ingest(&ingest(" ", " ")),
        Err(AppError::ValidationError("message cannot be empty".to_string()))
    );
}

#[test]
fn non_white_space_characters_count() {
    // U+200B (zero width space) has no White_Space property.
    assert_eq!(validate_log_ingest(&ingest("\u{200b}", "api")), Ok(()));
}

#[test]
fn ingested_logs_keep_their_fields() {
    let entries = log_ingests_to_entries(vec![ingest("one", "a"), ingest("two", "b")]).unwrap();
    assert_eq!(entries.len(), 2);
    assert_eq!(entries[0].message, "one");
    assert_eq!(entries[0].service, "a");
    assert_eq!(entries[1].message, "two");
    assert_eq!(entries[1].service, "b");
    for entry in &entries {
        assert_eq!(entry.level, LogLevel::Info);
        assert_eq!(
            entry.attributes,
            JsonValue::Object(vec![("k".to_string(), JsonValue::Number(JsonNumber::UInt(7)))])
        );
        assert_eq!(entry.trace_id, Some("t".to_string()));
        assert_eq!(entry.span_id, Some("s".to_string()));
        assert!(entry.timestamp.nanos < 1_000_000_000);
        assert!(entry.timestamp.secs > 1_600_000_000);
    }
    assert!(log_ingests_to_entries(vec![]).unwrap().is_empty());
}

#[test]
fn first_invalid_log_refuses_whole_request() {
    assert_eq!(
        log_ingests_to_entries(vec![ingest("ok", "a"), ingest("ok", ""), ingest("", "a")]),
        Err(AppError::ValidationError("service cannot be empty".to_string()))
    );
    assert_eq!(
        log_ingests_to_entries(vec![ingest("", "a"), ingest("ok", "")]),
        Err(AppError::ValidationError("message cannot be empty".to_string()))
    );
}

#[test]
fn stream_filters() {
    let entry = stored(LogLevel::Error, "api");
    assert!(matches_filters(&entry, &None, &None));
    assert!(matches_filters(&entry, &Some(LogLevel::Error), &None));
    assert!(matches_filters(&entry, &None, &Some("api".to_string())));
    assert!(matches_filters(&entry, &Some(LogLevel::Error), &Some("api".to_string())));
    assert!(!matches_filters(&entry, &Some(LogLevel::Info), &None));
    assert!(!matches_filters(&entry, &None, &Some("web".to_string())));
    assert!(!matches_filters(&entry, &Some(LogLevel::Error), &Some("API".to_string())));
    let query = LogStreamQuery { level: Some(LogLevel::Warn), service: None };
    assert!(matches_filters(&stored(LogLevel::Warn, "x"), &query.level, &query.service));
    assert!(!matches_filters(&stored(LogLevel::Debug, "x"), &query.level, &query.service));
}
