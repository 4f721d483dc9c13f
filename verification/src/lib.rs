//! A seekable, readable, writable byte stream with endian-aware typed
//! value encoding and decoding, position pinning for nested reads, byte
//! surgery (splice, drain, insert, extend), and streaming digest and
//! checksum accumulation; backed by a growable in-memory buffer.

pub mod align;
pub mod bytes;
pub mod cpu;
pub mod crc32;
pub mod deflate;
pub mod endian;
pub mod error;
pub mod length;
pub mod hash;
pub mod pin;
pub mod vec;
pub mod stream;
