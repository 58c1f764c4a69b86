//! A modular real-time audio engine: ring-style stereo buffers, frame-ordered
//! control messages, and a graph of processing nodes scheduled block by block.
//!
//! The crate is verified with Verus. Two functions of the message collector
//! are not: they call the channel of the standard library, and nothing is
//! claimed of what they return. What a node of the user's does is not
//! verified either; the contracts say which of the node's methods are called,
//! on what, and what holds whatever the node did. The sample type is a
//! parameter of the engine, so contracts never depend on a number format.

pub mod buffer;
pub mod error;
pub mod graph;
pub mod message_collector;
pub mod node;
pub mod player;
pub mod sample;

pub use buffer::audio::{
    AudioBuffer, AudioBufferIter, AudioBufferIterMut, AudioBufferMut, AudioBufferRef,
};
pub use buffer::message::{
    ControlChange, EnumMessage, FloatMessage, Message, MessageBuffer, MessageBufferIter,
    MessageValue, MessageView, MidiMessage, NoteOff, NoteOn, PitchBend,
};
pub use error::{GraphError, GraphResult, LinkError, LinkResult, TapError, TapResult};
pub use graph::{Graph, Link, Operation, A_IN_NODE, A_OUT_NODE, MAX_BLOCK_FRAMES};
pub use message_collector::MessageCollector;
pub use node::parameter::{EnumRange, FloatRange, ParaRange, Parameter};
pub use node::raw::{
    AudioEffectDesc, AudioEffectNode, AudioSourceDesc, AudioSourceNode, MidiEffectDesc,
    MidiEffectNode, NodeType, RawDesc, RawNode,
};
pub use player::{GraphPlayer, PlayHead};
pub use sample::Sample;
