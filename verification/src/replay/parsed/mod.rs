//! The `.aoe2record` decoder's typed output: a decoded replay narrowed to the store's
//! signed widths (with an error, never a silent truncation, where a value does not fit),
//! and the per-player summaries derived from its events.
pub mod ids;
pub mod types;
pub mod error;
pub mod parse;
pub mod derive;
