//! A PNG codec at the level of chunks: chunk types, checksummed chunks, and
//! whole files as a signature followed by an ordered list of chunks.

pub mod big_endian;
pub mod checksum;
pub mod chunk;
pub mod chunk_type;
pub mod commands;
pub mod error;
pub mod png;
pub mod text;
