//! The replicated side: the claim state machine, the raft log it is fed from,
//! and the decisions of the raft driver.

pub mod codec;
pub mod driver;
pub mod effects;
pub mod laws;
pub mod log_store;
pub mod model;
pub mod state_machine;
pub mod storage;
pub mod touched;
pub mod types;
