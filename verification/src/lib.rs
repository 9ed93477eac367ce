//! A local collector for coding-assistant telemetry: the decisions and
//! the text behind ingesting OTLP metrics and reporting usage.

pub mod text;
pub mod duration;
pub mod table;
pub mod report;
pub mod otlp;
pub mod otel;
