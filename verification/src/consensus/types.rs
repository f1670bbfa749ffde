//! Commands the state machine accepts and the responses it gives.

use vstd::prelude::*;

verus! {

/// A uuid as its big-endian value; zero is the nil uuid.
pub type Uid = u128;

/// Largest payload a log entry may carry.
pub const MAX_LOG_ENTRY_BYTES: usize = 1_048_576;

/// Where one claim on a row range stands.
#[derive(Debug, Clone, Copy, PartialEq, Eq, Structural)]
pub enum ClaimStatus {
    /// Free to be claimed again.
    Pending,
    /// Held by an instance under a lease.
    Claimed,
    /// Processed; its rows are never handed out again.
    Completed,
}

/// One replicated command. Every time a handler needs is carried in the
/// command, filled in by the leader that proposed it.
#[derive(Debug, Clone, PartialEq, Eq)]
pub enum ConsensusCommand {
    RegisterMasterBatch {
        batch_id: u64,
        component: String,
        schema_id: u32,
        ipc_bytes: Vec<u8>,
        total_rows: u32,
        now_at_propose: u64,
    },
    ClaimRowRange {
        batch_id: u64,
        row_range_start: u32,
        row_range_end: u32,
        claim_id: Uid,
        instance_id: Uid,
        lease_ttl_millis: u64,
        now_at_propose: u64,
    },
    RenewClaim { claim_id: Uid, instance_id: Uid, lease_ttl_millis: u64, now_at_propose: u64 },
    AckClaim { claim_id: Uid, instance_id: Uid },
    ReleaseClaim { claim_id: Uid, instance_id: Uid },
    Checkpoint {
        claim_id: Uid,
        stage_idx: u32,
        ipc_bytes: Vec<u8>,
        schema_id: u32,
        now_at_propose: u64,
    },
    Heartbeat { instance_id: Uid, at: u64 },
    ReclaimExpired { now_at_propose: u64 },
    PoisonBatch { batch_id: u64, now_at_propose: u64 },
}

/// What the state machine answers to one command.
#[derive(Debug, Clone, PartialEq, Eq)]
pub enum ConsensusResponse {
    MasterBatchRegistered { batch_id: u64 },
    BatchClaimed {
        batch_id: u64,
        component: String,
        row_range_start: u32,
        row_range_end: u32,
        schema_id: u32,
        claim_id: Uid,
        instance_id: Uid,
        lease_expires_at: u64,
    },
    ClaimRenewed { expires_at: u64 },
    ClaimAcked,
    ClaimReleased,
    CheckpointWritten { checkpoint_id: u64 },
    HeartbeatRecorded,
    ExpiredReclaimed { reclaimed_count: u32 },
    BatchPoisoned { batch_id: u64, poisoned_at: u64 },
    /// The command was refused; nothing changed.
    Error { message: String },
}

/// The contents of a [`ConsensusCommand`].
pub ghost enum CommandView {
    RegisterMasterBatch {
        batch_id: u64,
        component: Seq<char>,
        schema_id: u32,
        ipc_bytes: Seq<u8>,
        total_rows: u32,
        now_at_propose: u64,
    },
    ClaimRowRange {
        batch_id: u64,
        row_range_start: u32,
        row_range_end: u32,
        claim_id: Uid,
        instance_id: Uid,
        lease_ttl_millis: u64,
        now_at_propose: u64,
    },
    RenewClaim { claim_id: Uid, instance_id: Uid, lease_ttl_millis: u64, now_at_propose: u64 },
    AckClaim { claim_id: Uid, instance_id: Uid },
    ReleaseClaim { claim_id: Uid, instance_id: Uid },
    Checkpoint {
        claim_id: Uid,
        stage_idx: u32,
        ipc_bytes: Seq<u8>,
        schema_id: u32,
        now_at_propose: u64,
    },
    Heartbeat { instance_id: Uid, at: u64 },
    ReclaimExpired { now_at_propose: u64 },
    PoisonBatch { batch_id: u64, now_at_propose: u64 },
}

/// The contents of a [`ConsensusResponse`].
pub ghost enum ResponseView {
    MasterBatchRegistered { batch_id: u64 },
    BatchClaimed {
        batch_id: u64,
        component: Seq<char>,
        row_range_start: u32,
        row_range_end: u32,
        schema_id: u32,
        claim_id: Uid,
        instance_id: Uid,
        lease_expires_at: u64,
    },
    ClaimRenewed { expires_at: u64 },
    ClaimAcked,
    ClaimReleased,
    CheckpointWritten { checkpoint_id: u64 },
    HeartbeatRecorded,
    ExpiredReclaimed { reclaimed_count: u32 },
    BatchPoisoned { batch_id: u64, poisoned_at: u64 },
    Error { message: Seq<char> },
}

impl View for ConsensusCommand {
    type V = CommandView;

    open spec fn view(&self) -> CommandView {
        match *self {
            ConsensusCommand::RegisterMasterBatch {
                batch_id,
                component,
                schema_id,
                ipc_bytes,
                total_rows,
                now_at_propose,
            } => CommandView::RegisterMasterBatch {
                batch_id,
                component: component@,
                schema_id,
                ipc_bytes: ipc_bytes@,
                total_rows,
                now_at_propose,
            },
            ConsensusCommand::ClaimRowRange {
                batch_id,
                row_range_start,
                row_range_end,
                claim_id,
                instance_id,
                lease_ttl_millis,
                now_at_propose,
            } => CommandView::ClaimRowRange {
                batch_id,
                row_range_start,
                row_range_end,
                claim_id,
                instance_id,
                lease_ttl_millis,
                now_at_propose,
            },
            ConsensusCommand::RenewClaim {
                claim_id,
                instance_id,
                lease_ttl_millis,
                now_at_propose,
            } => CommandView::RenewClaim {
                claim_id,
                instance_id,
                lease_ttl_millis,
                now_at_propose,
            },
            ConsensusCommand::AckClaim { claim_id, instance_id } => CommandView::AckClaim {
                claim_id,
                instance_id,
            },
            ConsensusCommand::ReleaseClaim { claim_id, instance_id } => CommandView::ReleaseClaim {
                claim_id,
                instance_id,
            },
            ConsensusCommand::Checkpoint {
                claim_id,
                stage_idx,
                ipc_bytes,
                schema_id,
                now_at_propose,
            } => CommandView::Checkpoint {
                claim_id,
                stage_idx,
                ipc_bytes: ipc_bytes@,
                schema_id,
                now_at_propose,
            },
            ConsensusCommand::Heartbeat { instance_id, at } => CommandView::Heartbeat {
                instance_id,
                at,
            },
            ConsensusCommand::ReclaimExpired { now_at_propose } => CommandView::ReclaimExpired {
                now_at_propose,
            },
            ConsensusCommand::PoisonBatch { batch_id, now_at_propose } => CommandView::PoisonBatch {
                batch_id,
                now_at_propose,
            },
        }
    }
}

impl View for ConsensusResponse {
    type V = ResponseView;

    open spec fn view(&self) -> ResponseView {
        match *self {
            ConsensusResponse::MasterBatchRegistered { batch_id } => ResponseView::MasterBatchRegistered {
                batch_id,
            },
            ConsensusResponse::BatchClaimed {
                batch_id,
                component,
                row_range_start,
                row_range_end,
                schema_id,
                claim_id,
                instance_id,
                lease_expires_at,
            } => ResponseView::BatchClaimed {
                batch_id,
                component: component@,
                row_range_start,
                row_range_end,
                schema_id,
                claim_id,
                instance_id,
                lease_expires_at,
            },
            ConsensusResponse::ClaimRenewed { expires_at } => ResponseView::ClaimRenewed {
                expires_at,
            },
            ConsensusResponse::ClaimAcked => ResponseView::ClaimAcked,
            ConsensusResponse::ClaimReleased => ResponseView::ClaimReleased,
            ConsensusResponse::CheckpointWritten { checkpoint_id } => ResponseView::CheckpointWritten {
                checkpoint_id,
            },
            ConsensusResponse::HeartbeatRecorded => ResponseView::HeartbeatRecorded,
            ConsensusResponse::ExpiredReclaimed { reclaimed_count } => ResponseView::ExpiredReclaimed {
                reclaimed_count,
            },
            ConsensusResponse::BatchPoisoned { batch_id, poisoned_at } => ResponseView::BatchPoisoned {
                batch_id,
                poisoned_at,
            },
            ConsensusResponse::Error { message } => ResponseView::Error { message: message@ },
        }
    }
}

} // verus!
