//! Wire encoding for the play state of the game protocol: variable-length
//! integers, an append-only packet buffer, field directives, and the chunk
//! section compactor with its bit packing.

pub mod buffer;
pub mod chunk;
pub mod config;
pub mod field;
pub mod packet;
pub mod packing;
pub mod play;
pub mod receive;
pub mod section;
pub mod varint;
