//! Log entries and their parts.

use vstd::prelude::*;

verus! {

/// Severity of a log entry.
#[derive(Clone, Debug, PartialEq, Eq, Structural)]
pub enum LogLevel {
    Info,
    Warn,
    Error,
    Debug,
}

/// A point in time in UTC: whole seconds since the Unix epoch and the
/// nanoseconds within that second.
#[derive(Clone, Copy, Debug, PartialEq, Eq, Structural)]
pub struct Timestamp {
    pub secs: i64,
    pub nanos: u32,
}

impl Timestamp {
    /// The nanoseconds within the second lie below one second.
    pub open spec fn well_formed(self) -> bool {
        self.nanos < 1_000_000_000
    }

    /// Nanoseconds since the Unix epoch.
    pub open spec fn total_nanos(self) -> int {
        self.secs * 1_000_000_000 + self.nanos
    }
}

/// A JSON number, as JSON text can hold it: an integer that fits in `i64`,
/// one that only fits in `u64`, or a finite floating-point number given by
/// its IEEE-754 bit pattern.
#[derive(Clone, Debug, PartialEq)]
pub enum JsonNumber {
    Int(i64),
    UInt(u64),
    Float(u64),
}

/// A JSON document. An object is a list of members whose keys are unique.
#[derive(Debug, PartialEq)]
pub enum JsonValue {
    Null,
    Bool(bool),
    Number(JsonNumber),
    String(String),
    Array(Vec<JsonValue>),
    Object(Vec<(String, JsonValue)>),
}

/// A stored log entry.
#[derive(Debug, PartialEq)]
pub struct LogEntry {
    /// The UUID of the entry, as a 128-bit integer.
    pub id: u128,
    pub timestamp: Timestamp,
    pub level: LogLevel,
    pub message: String,
    pub service: String,
    pub attributes: JsonValue,
    pub trace_id: Option<String>,
    pub span_id: Option<String>,
}

/// A log entry before it is stored.
#[derive(Debug, PartialEq)]
pub struct NewLogEntry {
    pub level: LogLevel,
    pub service: String,
    pub message: String,
    pub timestamp: Timestamp,
    pub attributes: JsonValue,
    pub trace_id: Option<String>,
    pub span_id: Option<String>,
}

} // verus!
