//! Bodies of the log ingestion and log stream endpoints.

use vstd::prelude::*;

use crate::model::{JsonValue, LogLevel};

verus! {

/// One log sent to the ingestion endpoint.
#[derive(Debug, PartialEq)]
pub struct LogIngest {
    pub message: String,
    pub level: LogLevel,
    pub service: String,
    pub attributes: JsonValue,
    pub trace_id: Option<String>,
    pub span_id: Option<String>,
}

/// Filters of the live log stream; an absent filter lets every entry pass.
#[derive(Debug, PartialEq)]
pub struct LogStreamQuery {
    pub level: Option<LogLevel>,
    pub service: Option<String>,
}

} // verus!
