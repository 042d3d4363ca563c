//! Byte-level input helpers: the zero-copy reader and the storage obfuscation.

pub mod buffer_reader;

pub use buffer_reader::BufferReader;
pub mod xor_decoder;
