//! A codec for the PNG chunk layout: four-byte type tags, length-prefixed
//! checksummed chunks, and the container that holds them in order.

pub mod checksum;
pub mod chunk;
pub mod chunk_type;
pub mod commands;
pub mod endian;
pub mod png;
pub mod text;
