//! A verified core for an `nsupdate`-style DNS update tool.
//!
//! The library parses a small DSL (`add`, `delete`, `send` directives) into
//! batches of typed commands, translates them into provider-shaped requests,
//! and decides how a batch is reconciled against a snapshot of the provider's
//! current records.  All I/O (HTTP, files, logging) lives outside the library;
//! callers hand in plain values and get plain values back.

pub mod parser;
pub mod text;
pub mod update;
