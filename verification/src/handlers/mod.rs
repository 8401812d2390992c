//! The query operations: `events.get`, `spans.list` and `trace.info`.

pub mod cache;
pub mod events;
pub mod membership;
pub mod pairing;
pub mod paging;
pub mod spans;
pub mod trace_info;
