//! The on-disk trace format: manifest, event records and the reader over both.

pub mod codec;
pub mod encoding;
pub mod error;
pub mod event;
pub mod manifest;
pub mod reader;
pub mod wire;
