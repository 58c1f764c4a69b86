//! Buffers that carry audio and control messages through a block.

pub mod audio;
pub mod message;
