//! Encoder for the RESP wire format: a line-oriented, type-prefixed text
//! protocol in which every value starts with a one-character tag and ends
//! with a two-byte line terminator.
//!
//! `types` holds the tag table, `wire` the byte-level model of each token,
//! `ser` the writer that emits tokens into an in-memory buffer, and `value`
//! the recursive encoder for composite values (sequences, maps, records).

pub mod error;
pub mod ser;
pub mod types;
pub mod value;
pub mod wire;
