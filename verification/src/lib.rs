//! Bellow: the verified core of a real-time audio engine.

pub mod clock;
pub mod ringbuf;
pub mod frame;
pub mod sound_id;
pub mod error;
pub mod engine;
pub mod rpc;
pub mod devices;
pub mod mixer;
pub mod decode;
pub mod queue;
pub mod dsp;
pub mod graph;
pub mod planar;
pub mod dispatch;
