//! Log collection service core: the data model of log entries, the
//! conversion of OpenTelemetry log exports into entries, the validation of
//! ingested logs and the filters of the live log stream.

pub mod dto;
pub mod errors;
pub mod model;
pub mod otel;
pub mod routes;
pub mod text;
pub mod time;
