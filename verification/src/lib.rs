//! Three small HTTP client programs, each of which makes one request through a
//! host and judges the answer: the echo of a megabyte, a greeting, and a report
//! of SHA-256 hashes.
//!
//! The host (sockets, streams, polling) lies outside. What the programs decide
//! stands here: which host call comes next after which reply, and whether the
//! bytes that came back are the right ones.

pub mod digest;
pub mod echo;
pub mod exchange;
pub mod handler;
pub mod hashes;
pub mod payload;
pub mod report;
pub mod run;
pub mod text;
pub mod wire;
