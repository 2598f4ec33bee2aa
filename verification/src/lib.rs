//! A sink pipeline that turns telemetry events into bulk write requests.
//!
//! Events are transformed into documents, grouped into bounded batches per
//! partition, serialized into newline-delimited bulk payloads and tracked
//! through dispatch until every document has a final disposition.

pub mod batcher;
pub mod batcher_laws;
pub mod collector;
pub mod config;
pub mod decoder;
pub mod dispatch;
pub mod dispatch_laws;
pub mod document;
pub mod encoder;
pub mod encoding;
pub mod event;
pub mod fields;
pub mod json;
pub mod request;
pub mod sink;
pub mod template;
pub mod transform;
