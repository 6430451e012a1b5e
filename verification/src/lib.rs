//! A small knowledge base for traditional-medicine records.
//!
//! Named records (materials, formulas, diagnostic patterns) live in an
//! in-memory store keyed by record name, backed by a file-based persistence
//! unit that tracks a dirty flag and writes only when something changed.
//! The store serializes itself to a line-oriented text form whose decoder
//! is proved to invert the encoder.

pub mod codec;
pub mod database;
pub mod medicine;
pub mod prescript;
pub mod text;
pub mod unit;
