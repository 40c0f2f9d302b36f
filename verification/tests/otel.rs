use logsink::dto::otel::{AnyValue, KeyValue, LogRecord, OtelLogsRequest, Resource, ResourceLog, ScopeLog};
use logsink::model::{JsonNumber, JsonValue, LogLevel, Timestamp};
use logsink::otel::{
    attributes_to_json, extract_service, map_log_record, otel_int_to_level, otel_to_log_entries,
    record_timestamp,
};

fn kv(key: &str, value: AnyValue) -> KeyValue {
    KeyValue { key: key.to_string(), value }
}

fn string_value(s: &str) -> AnyValue {
    AnyValue::StringValue { string_value: s.to_string() }
}

fn record(time: &str, severity: i64, body: Option<AnyValue>, attributes: Vec<KeyValue>) -> LogRecord {
    LogRecord {
        time_unix_nano: time.to_string(),
        severity_number: severity,
        body,
        attributes,
        trace_id: Some("trace".to_string()),
        span_id: None,
    }
}

fn resource(attributes: Vec<KeyValue>, scopes: Vec<Vec<LogRecord>>) -> ResourceLog {
    ResourceLog {
        resource: Resource { attributes },
        scope_logs: scopes.into_iter().map(|log_records| ScopeLog { log_records }).collect(),
    }
}

#[test]
fn severity_ranges_map_to_levels() {
    let expected = [
        (i64::MIN, LogLevel::Error),
        (-1, LogLevel::Error),
        (0, LogLevel::Error),
        (1, LogLevel::Debug),
        (4, LogLevel::Debug),
        (5, LogLevel::Info),
        (8, LogLevel::Info),
        (9, LogLevel::Warn),
        (12, LogLevel::Warn),
        (13, LogLevel::Error),
        (24, LogLevel::Error),
        (i64::MAX, LogLevel::Error),
    ];
    for (severity, level) in expected {
        assert_eq!(otel_int_to_level(&severity), level, "severity {}", severity);
    }
}

#[test]
fn service_comes_from_first_service_name_attribute() {
    let r = resource(
        vec![
            kv("host.name", string_value("box")),
            kv("service.name", string_value("checkout")),
            kv("service.name", string_value("other")),
        ],
        vec![],
    );
    assert_eq!(extract_service(&r), Some("checkout".to_string()));
}

#[test]
fn service_name_that_is_no_string_gives_none() {
    let r = resource(
        vec![
            kv("service.name", AnyValue::IntValue { int_value: 3 }),
            kv("service.name", string_value("later")),
        ],
        vec![],
    );
    assert_eq!(extract_service(&r), None);
    let empty = resource(vec![kv("service", string_value("x"))], vec![]);
    assert_eq!(extract_service(&empty), None);
}

#[test]
fn attributes_become_json_object_with_last_value_winning() {
    let json = attributes_to_json(vec![
        kv("a", string_value("first")),
        kv("n", AnyValue::IntValue { int_value: -7 }),
        kv("b", AnyValue::BoolValue { bool_value: true }),
        kv("d", AnyValue::DoubleValue { double_bits: 1.5f64.to_bits() }),
        kv("a", string_value("second")),
        kv("nan", AnyValue::DoubleValue { double_bits: f64::NAN.to_bits() }),
        kv("inf", AnyValue::DoubleValue { double_bits: f64::INFINITY.to_bits() }),
    ]);
    assert_eq!(
        json,
        JsonValue::Object(vec![
            ("a".to_string(), JsonValue::String("second".to_string())),
            ("n".to_string(), JsonValue::Number(JsonNumber::Int(-7))),
            ("b".to_string(), JsonValue::Bool(true)),
            ("d".to_string(), JsonValue::Number(JsonNumber::Float(1.5f64.to_bits()))),
            ("nan".to_string(), JsonValue::Null),
            ("inf".to_string(), JsonValue::Null),
        ])
    );
    assert_eq!(attributes_to_json(vec![]), JsonValue::Object(vec![]));
}

#[test]
fn record_time_is_parsed_from_nanoseconds() {
    assert_eq!(record_timestamp(&"1500000000".to_string()), Timestamp { secs: 1, nanos: 500_000_000 });
    assert_eq!(record_timestamp(&"+42".to_string()), Timestamp { secs: 0, nanos: 42 });
    assert_eq!(record_timestamp(&"-1".to_string()), Timestamp { secs: -1, nanos: 999_999_999 });
    assert_eq!(
        record_timestamp(&"1700000000123456789".to_string()),
        Timestamp { secs: 1_700_000_000, nanos: 123_456_789 }
    );
    assert_eq!(
        record_timestamp(&i64::MIN.to_string()),
        Timestamp { secs: -9_223_372_037, nanos: 145_224_192 }
    );
}

#[test]
fn unparsable_record_time_falls_back_to_now() {
    for text in ["", "abc", "12a", " 12", "9223372036854775808", "-", "1.5"] {
        let t = record_timestamp(&text.to_string());
        assert!(t.nanos < 1_000_000_000);
        assert!(t.secs > 1_600_000_000, "text {:?} gave {:?}", text, t);
    }
}

#[test]
fn record_maps_to_entry() {
    let entry = map_log_record(
        record(
            "2000000000",
            10,
            Some(string_value("disk almost full")),
            vec![kv("disk", string_value("sda"))],
        ),
        &"storage".to_string(),
    );
    assert_eq!(entry.level, LogLevel::Warn);
    assert_eq!(entry.service, "storage");
    assert_eq!(entry.message, "disk almost full");
    assert_eq!(entry.timestamp, Timestamp { secs: 2, nanos: 0 });
    assert_eq!(
        entry.attributes,
        JsonValue::Object(vec![("disk".to_string(), JsonValue::String("sda".to_string()))])
    );
    assert_eq!(entry.trace_id, Some("trace".to_string()));
    assert_eq!(entry.span_id, None);
}

#[test]
fn record_without_string_body_gets_missing_message() {
    let no_body = map_log_record(record("0", 1, None, vec![]), &"s".to_string());
    assert_eq!(no_body.message, "missing");
    assert_eq!(no_body.level, LogLevel::Debug);
    let int_body =
        map_log_record(record("0", 1, Some(AnyValue::IntValue { int_value: 5 }), vec![]), &"s".to_string());
    assert_eq!(int_body.message, "missing");
}

#[test]
fn request_flattens_records_in_order_with_their_service() {
    let request = OtelLogsRequest {
        resource_logs: vec![
            resource(
                vec![kv("service.name", string_value("api"))],
                vec![
                    vec![record("1", 5, Some(string_value("a1")), vec![])],
                    vec![],
                    vec![
                        record("2", 9, Some(string_value("a2")), vec![]),
                        record("3", 17, Some(string_value("a3")), vec![]),
                    ],
                ],
            ),
            resource(vec![], vec![vec![record("4", 2, Some(string_value("b1")), vec![])]]),
            resource(vec![kv("service.name", string_value("empty"))], vec![]),
        ],
    };
    let entries = otel_to_log_entries(request);
    let summary: Vec<(String, String, LogLevel, i64, u32)> = entries
        .iter()
        .map(|e| (e.service.clone(), e.message.clone(), e.level.clone(), e.timestamp.secs, e.timestamp.nanos))
        .collect();
    assert_eq!(
        summary,
        vec![
            ("api".to_string(), "a1".to_string(), LogLevel::Info, 0, 1),
            ("api".to_string(), "a2".to_string(), LogLevel::Warn, 0, 2),
            ("api".to_string(), "a3".to_string(), LogLevel::Error, 0, 3),
            ("unkown".to_string(), "b1".to_string(), LogLevel::Debug, 0, 4),
        ]
    );
}

#[test]
fn empty_request_gives_no_entries() {
    assert!(otel_to_log_entries(OtelLogsRequest { resource_logs: vec![] }).is_empty());
}
