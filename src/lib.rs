//! A codec for PNG chunks and an in-memory container of them: chunk types with their
//! property flags, length-prefixed and CRC-checked chunk records, and whole PNG streams.
pub mod bytes;
pub mod checksum;
pub mod chunk;
pub mod chunk_type;
pub mod error;
pub mod png;
pub mod text;
