//! A verified library for a PNG-style binary container format: a fixed
//! 8-byte signature followed by length-prefixed, typed, CRC-checksummed
//! records ("chunks"), decoded from and re-encoded to bytes losslessly.

pub mod chunk;
pub mod chunk_type;
pub mod error;
pub mod ops;
pub mod png;
pub mod wire;
