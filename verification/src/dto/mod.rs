//! Request and response bodies.

pub mod logs;
pub mod otel;
pub mod services;
