//! Binary row codec for an embedded analytical query engine.
//!
//! The engine hands back query results as a byte region in its positional
//! `RowBinary` encoding. This crate frames and checks those bytes: a cursor
//! over the region, the primitive and composite codecs, and a tree-shaped
//! value model with proofs that encoding and decoding are inverse to each
//! other.

pub mod arg;
pub mod error;
pub mod format;
pub mod log_level;
pub mod query_result;
pub mod rowbinary;
pub mod session;
