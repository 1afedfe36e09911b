//! Reading, editing and writing the chunk structure of PNG files, with every
//! chunk's CRC-32 checked on the way in and computed on the way out.

pub mod chunk;
pub mod chunk_type;
pub mod error;
pub mod png;
pub mod render;
