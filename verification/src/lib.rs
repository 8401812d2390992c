//! Query engine for recorded trace sessions.
//!
//! - [`atf`]: the session on disk. The manifest and its validation, the wire
//!   format of the event log with a decoder and an encoder that are proved
//!   to invert each other, and the reader with its single-pass cursor.
//! - [`handlers`]: the queries. Span reconstruction from call and return
//!   events, `events.get` and `spans.list` with filters, stable ordering,
//!   paging and projection, and `trace.info` with its cache.
//! - [`server`]: the JSON-RPC error object and the names of the operations.
//! - [`sorting`], [`text`]: stable sorting and text helpers that the above
//!   build on.
//! - [`cli`], [`symbols`], [`tracer`]: what the command line and the tracer
//!   front end decide without touching a file or a process.
//!
//! Every function states what it returns over mathematical models of its
//! arguments, and its body is verified against that contract.

pub mod atf;
pub mod cli;
pub mod handlers;
pub mod server;
pub mod sorting;
pub mod symbols;
pub mod text;
pub mod tracer;
