//! The node abstraction: three flavours of processing node behind one entry
//! point, and what nodes of any kind share in how they work through a block.

pub mod block;
pub mod command;
pub mod envelope;
pub mod parameter;
pub mod raw;
pub mod voice;
