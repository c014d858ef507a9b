//! Networking: framing, wire messages and the node service.

pub mod codec;
pub mod error;
pub mod frame;
pub mod grpc;
pub mod timestamp;
