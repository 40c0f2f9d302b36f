//! The parts of an OpenTelemetry logs export (OTLP/JSON) that the service reads.

use vstd::prelude::*;

verus! {

/// An attribute or body value.
#[derive(Debug, PartialEq)]
pub enum AnyValue {
    StringValue { string_value: String },
    IntValue { int_value: i64 },
    BoolValue { bool_value: bool },
    /// A double, held as its IEEE-754 bit pattern.
    DoubleValue { double_bits: u64 },
}

/// A named attribute.
#[derive(Debug, PartialEq)]
pub struct KeyValue {
    pub key: String,
    pub value: AnyValue,
}

/// The entity that produced the logs.
#[derive(Debug, PartialEq)]
pub struct Resource {
    pub attributes: Vec<KeyValue>,
}

/// One log record.
#[derive(Debug, PartialEq)]
pub struct LogRecord {
    /// Nanoseconds since the Unix epoch, as decimal text.
    pub time_unix_nano: String,
    pub severity_number: i64,
    pub body: Option<AnyValue>,
    pub attributes: Vec<KeyValue>,
    pub trace_id: Option<String>,
    pub span_id: Option<String>,
}

/// The log records of one instrumentation scope.
#[derive(Debug, PartialEq)]
pub struct ScopeLog {
    pub log_records: Vec<LogRecord>,
}

/// The log records of one resource.
#[derive(Debug, PartialEq)]
pub struct ResourceLog {
    pub resource: Resource,
    pub scope_logs: Vec<ScopeLog>,
}

/// A logs export request.
#[derive(Debug, PartialEq)]
pub struct OtelLogsRequest {
    pub resource_logs: Vec<ResourceLog>,
}

} // verus!
