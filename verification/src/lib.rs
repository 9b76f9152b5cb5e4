//! Capture of control-signal traffic from a class-compliant USB MIDI-style
//! device: device selection, endpoint resolution, a bounded transfer loop, a
//! byte-stream noise filter, and an order-preserving persistence pipeline.

pub mod device;
pub mod endpoint;
pub mod error;
pub mod filter;
pub mod hexfmt;
pub mod pipeline;
pub mod session;
