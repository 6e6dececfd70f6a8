//! Hide, read back and remove text messages in the chunk stream of a PNG file.
//!
//! The crate models a PNG file as an eight-byte signature followed by an
//! ordered sequence of chunks, each one a length-prefixed, type-tagged record
//! protected by a CRC-32.
pub mod args;
pub mod chunk;
pub mod chunk_type;
pub mod error;
pub mod png;
pub mod utils;
