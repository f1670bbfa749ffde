//! Work distribution for partitioned batch processing: the replicated claim
//! state machine, the raft log, the transport framing, the key-value store
//! layout, the runner and the telemetry read side.

pub mod checkpoint;
pub mod consensus;
pub mod error;
pub mod inspector;
pub mod io;
pub mod ipc;
pub mod metrics;
pub mod order;
pub mod runner;
pub mod sort;
pub mod table;
pub mod text;
pub mod tikv;
pub mod transport;
