//! A minimal local inter-process channel: a JSON message codec for framed
//! requests and responses, the configuration logic of a filesystem-backed
//! listening socket, and the per-connection state machines of a streaming
//! server and its client.

pub mod codec;
pub mod message;
pub mod session;
pub mod socket;
