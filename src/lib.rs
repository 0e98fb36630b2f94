//! Alignment of an event-camera stream with a video stream: wire decoding of
//! event-array messages, compact packing of events, the frame/event
//! synchronizer and the binary layouts of the exported artifacts.

pub mod time;
pub mod bytes;
pub mod messages;
pub mod codec;
pub mod sync;
pub mod log;
pub mod frames;
pub mod export;
pub mod wire;
