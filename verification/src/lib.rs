//! A client-side wire codec for resolving query-planning metadata from a
//! federated data source: schemas, tables, one table's layout, and its
//! splits.
//!
//! Every message is a tagged JSON envelope; a table's rows travel inside
//! it as two base64, size-prefixed binary messages (a column schema and a
//! record batch) that the `Block` codec reconstructs into a columnar
//! table. The JSON text itself, the binary framing, and every envelope
//! shape are read and written by verified code; only the base64 decoder
//! and a few string primitives of std are trusted. The transport that
//! carries the bytes to the remote function is the caller's.
//!
//! The decoders read everything the wire's encoders produce, unknown
//! members included; they refuse exactly two things that a lenient reader
//! would let through: base64 whose padding is out of alignment, the mark
//! of a payload cut short whose decode would silently shift the row data
//! (`b64::checked_decoding`), and a string map that binds one key twice
//! (`models::strpairs_of`).

pub mod api;
pub mod b64;
pub mod ipc;
pub mod json;
pub mod json_parse;
pub mod models;
pub mod requests;
pub mod text;

pub use api::Configuration;
