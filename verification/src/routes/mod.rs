//! The decisions that the HTTP endpoints make.

pub mod log;
