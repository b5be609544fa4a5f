//! Compiler and runtime loader for a read-only reference database of
//! per-country facts together with derived presentation assets (fixed-size
//! ASCII renderings of each country's flag and an extracted colour palette).
//!
//! The build side turns raw country records into a canonically ordered
//! sequence of compiled records, serialises them into a versioned binary
//! archive compressed as a whole, and derives a bijective identifier table.
//! The runtime side decompresses and validates that archive once and exposes
//! immutable lookups by identifier, 2-letter code and 3-letter code.

pub mod archive;
pub mod assets;
pub mod bytes_enc;
pub mod cache;
pub mod cli;
pub mod codegen;
pub mod color;
pub mod continent;
pub mod country;
pub mod extra;
pub mod fanout;
pub mod grid;
pub mod ident;
pub mod list_enc;
pub mod order;
pub mod pipeline;
pub mod record_enc;
pub mod strutil;
pub mod textops;
