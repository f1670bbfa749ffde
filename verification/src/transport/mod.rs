//! TCP transport of raft messages: length-prefixed frames with a tag byte,
//! pooled connections per peer behind a circuit breaker, chunked snapshots.
//!
//! Sockets, timers and the resolver are outside; what stands here decides on
//! what they give.

pub mod client;
pub mod rpc;
pub mod snapshot;
pub mod wire;
