//! The claim state machine.

use pcs_service::consensus::codec::{
    claims_by_batch_value, decode_claims_by_batch_value,
};
use pcs_service::consensus::model::{
    BatchStatus, CheckpointRecord, ClaimRecord, IndexKey, MasterBatchRecord,
};
use pcs_service::consensus::state_machine::{self, is_in_range, DumpedState, Tables};
use pcs_service::consensus::touched::Touched;
use pcs_service::consensus::types::{
    ClaimStatus, ConsensusCommand, ConsensusResponse, MAX_LOG_ENTRY_BYTES,
};
use pcs_service::error::PcsError;

fn fresh_id() -> u128 {
    uuid::Uuid::new_v4().as_u128()
}

fn apply(db: &mut Tables, command: ConsensusCommand) -> Result<ConsensusResponse, PcsError> {
    Ok(state_machine::apply(db, command))
}

fn read_master_batch(db: &Tables, id: u64) -> Result<Option<MasterBatchRecord>, PcsError> {
    Ok(state_machine::read_master_batch(db, id))
}

fn read_claim(db: &Tables, id: u128) -> Result<Option<ClaimRecord>, PcsError> {
    Ok(state_machine::read_claim(db, id))
}

fn read_checkpoint(db: &Tables, id: u128, stage: u32) -> Result<Option<CheckpointRecord>, PcsError> {
    Ok(state_machine::read_checkpoint(db, id, stage))
}

fn find_first_pending_claim(db: &Tables, id: u64) -> Result<Option<(u32, u32)>, PcsError> {
    Ok(state_machine::find_first_pending_claim(db, id))
}

fn find_first_pending_batch(db: &Tables) -> Result<Option<(u64, (u32, u32))>, PcsError> {
    Ok(state_machine::find_first_pending_batch(db))
}

fn dump_state(db: &Tables) -> Result<DumpedState, PcsError> {
    Ok(state_machine::dump_state(db))
}

fn restore_state(
    db: &mut Tables,
    batches: Vec<MasterBatchRecord>,
    claims: Vec<(u128, ClaimRecord)>,
    checkpoints: Vec<([u8; 20], CheckpointRecord)>,
    instances: Vec<(u128, pcs_service::consensus::model::InstanceRecord)>,
    sm_meta: Option<(Vec<u8>, Vec<u8>)>,
) -> Result<(), PcsError> {
    state_machine::restore_state(db, batches, claims, checkpoints, instances, sm_meta);
    Ok(())
}

/// The index entry of a claim, as the bytes it is stored in.
fn index_value(db: &Tables, batch_id: u64, claim_id: u128) -> Option<[u8; 9]> {
    let entry = db.index.get(IndexKey { batch_id, claim_id })?;
    Some(claims_by_batch_value(entry.start, entry.end, entry.status))
}

fn small_ipc() -> Vec<u8> {
    vec![0xAB; 64]
}

#[test]
fn test_register_master_batch_succeeds() {
    let mut db = Tables::new();
    let resp = apply(
        &mut db,
        ConsensusCommand::RegisterMasterBatch {
            batch_id: 1,
            component: "orders".to_string(),
            schema_id: 1,
            ipc_bytes: small_ipc(),
            total_rows: 100,
            now_at_propose: 0,
        },
    )
    .unwrap();
    assert!(
        matches!(
            resp,
            ConsensusResponse::MasterBatchRegistered { batch_id: 1 }
        ),
        "{resp:?}"
    );
    let record = read_master_batch(&db, 1).unwrap().unwrap();
    assert_eq!(record.batch_id, 1);
    assert_eq!(record.component, "orders");
    assert_eq!(record.total_rows, 100);
}

#[test]
fn test_register_master_batch_oversize_rejected() {
    let mut db = Tables::new();
    let big_ipc = vec![0u8; MAX_LOG_ENTRY_BYTES]; // exactly at limit → rejected
    let resp = apply(
        &mut db,
        ConsensusCommand::RegisterMasterBatch {
            batch_id: 2,
            component: "x".to_string(),
            schema_id: 1,
            ipc_bytes: big_ipc,
            total_rows: 1,
            now_at_propose: 0,
        },
    )
    .unwrap();
    assert!(
        matches!(resp, ConsensusResponse::Error { .. }),
        "expected Error, got {resp:?}"
    );
}

#[test]
fn test_claim_row_range_happy_path() {
    let mut db = Tables::new();
    apply(
        &mut db,
        ConsensusCommand::RegisterMasterBatch {
            batch_id: 1,
            component: "items".to_string(),
            schema_id: 1,
            ipc_bytes: small_ipc(),
            total_rows: 200,
            now_at_propose: 0,
        },
    )
    .unwrap();

    let claim_id = fresh_id();
    let instance_id = fresh_id();
    let resp = apply(
        &mut db,
        ConsensusCommand::ClaimRowRange {
            batch_id: 1,
            row_range_start: 0,
            row_range_end: 50,
            claim_id,
            instance_id,
            lease_ttl_millis: 30_000,
            now_at_propose: 0,
        },
    )
    .unwrap();

    assert!(
        matches!(
            resp,
            ConsensusResponse::BatchClaimed {
                row_range_start: 0,
                row_range_end: 50,
                ..
            }
        ),
        "{resp:?}"
    );

    let record = read_claim(&db, claim_id).unwrap().unwrap();
    assert_eq!(record.row_range_start, 0);
    assert_eq!(record.row_range_end, 50);
    assert_eq!(record.status, ClaimStatus::Claimed);
}

#[test]
fn test_claim_overlap_rejected() {
    let mut db = Tables::new();
    apply(
        &mut db,
        ConsensusCommand::RegisterMasterBatch {
            batch_id: 1,
            component: "items".to_string(),
            schema_id: 1,
            ipc_bytes: small_ipc(),
            total_rows: 200,
            now_at_propose: 0,
        },
    )
    .unwrap();

    let c1 = fresh_id();
    let c2 = fresh_id();
    let inst = fresh_id();

    apply(
        &mut db,
        ConsensusCommand::ClaimRowRange {
            batch_id: 1,
            row_range_start: 0,
            row_range_end: 100,
            claim_id: c1,
            instance_id: inst,
            lease_ttl_millis: 30_000,
            now_at_propose: 0,
        },
    )
    .unwrap();

    // Overlapping range should fail.
    let resp = apply(
        &mut db,
        ConsensusCommand::ClaimRowRange {
            batch_id: 1,
            row_range_start: 50,
            row_range_end: 150,
            claim_id: c2,
            instance_id: inst,
            lease_ttl_millis: 30_000,
            now_at_propose: 0,
        },
    )
    .unwrap();
    assert!(
        matches!(resp, ConsensusResponse::Error { .. }),
        "expected Error for overlapping claim, got {resp:?}"
    );
}

#[test]
fn test_ack_claim_sets_completed() {
    let mut db = Tables::new();
    apply(
        &mut db,
        ConsensusCommand::RegisterMasterBatch {
            batch_id: 1,
            component: "x".to_string(),
            schema_id: 1,
            ipc_bytes: small_ipc(),
            total_rows: 100,
            now_at_propose: 0,
        },
    )
    .unwrap();
    let claim_id = fresh_id();
    let inst = fresh_id();
    apply(
        &mut db,
        ConsensusCommand::ClaimRowRange {
            batch_id: 1,
            row_range_start: 0,
            row_range_end: 100,
            claim_id,
            instance_id: inst,
            lease_ttl_millis: 30_000,
            now_at_propose: 0,
        },
    )
    .unwrap();

    let resp = apply(
        &mut db,
        ConsensusCommand::AckClaim {
            claim_id,
            instance_id: inst,
        },
    )
    .unwrap();
    assert!(matches!(resp, ConsensusResponse::ClaimAcked), "{resp:?}");

    let record = read_claim(&db, claim_id).unwrap().unwrap();
    assert_eq!(record.status, ClaimStatus::Completed);
}

#[test]
fn test_release_claim_returns_to_pending() {
    let mut db = Tables::new();
    apply(
        &mut db,
        ConsensusCommand::RegisterMasterBatch {
            batch_id: 1,
            component: "x".to_string(),
            schema_id: 1,
            ipc_bytes: small_ipc(),
            total_rows: 100,
            now_at_propose: 0,
        },
    )
    .unwrap();
    let claim_id = fresh_id();
    let inst = fresh_id();
    apply(
        &mut db,
        ConsensusCommand::ClaimRowRange {
            batch_id: 1,
            row_range_start: 0,
            row_range_end: 100,
            claim_id,
            instance_id: inst,
            lease_ttl_millis: 30_000,
            now_at_propose: 0,
        },
    )
    .unwrap();

    let resp = apply(
        &mut db,
        ConsensusCommand::ReleaseClaim {
            claim_id,
            instance_id: inst,
        },
    )
    .unwrap();
    assert!(matches!(resp, ConsensusResponse::ClaimReleased), "{resp:?}");
    let record = read_claim(&db, claim_id).unwrap().unwrap();
    assert_eq!(record.status, ClaimStatus::Pending);
}

#[test]
fn test_checkpoint_written_and_read() {
    let mut db = Tables::new();
    apply(
        &mut db,
        ConsensusCommand::RegisterMasterBatch {
            batch_id: 1,
            component: "x".to_string(),
            schema_id: 1,
            ipc_bytes: small_ipc(),
            total_rows: 100,
            now_at_propose: 0,
        },
    )
    .unwrap();
    let claim_id = fresh_id();
    let inst = fresh_id();
    apply(
        &mut db,
        ConsensusCommand::ClaimRowRange {
            batch_id: 1,
            row_range_start: 0,
            row_range_end: 100,
            claim_id,
            instance_id: inst,
            lease_ttl_millis: 30_000,
            now_at_propose: 0,
        },
    )
    .unwrap();

    let resp = apply(
        &mut db,
        ConsensusCommand::Checkpoint {
            claim_id,
            stage_idx: 2,
            ipc_bytes: vec![0xCA, 0xFE],
            schema_id: 1,
            now_at_propose: 0,
        },
    )
    .unwrap();
    assert!(
        matches!(resp, ConsensusResponse::CheckpointWritten { .. }),
        "{resp:?}"
    );

    let cp = read_checkpoint(&db, claim_id, 2).unwrap().unwrap();
    assert_eq!(cp.stage_idx, 2);
    assert_eq!(cp.ipc_bytes, vec![0xCA, 0xFE]);
}

#[test]
fn test_checkpoint_oversize_rejected() {
    let mut db = Tables::new();
    apply(
        &mut db,
        ConsensusCommand::RegisterMasterBatch {
            batch_id: 1,
            component: "x".to_string(),
            schema_id: 1,
            ipc_bytes: small_ipc(),
            total_rows: 100,
            now_at_propose: 0,
        },
    )
    .unwrap();
    let claim_id = fresh_id();
    let inst = fresh_id();
    apply(
        &mut db,
        ConsensusCommand::ClaimRowRange {
            batch_id: 1,
            row_range_start: 0,
            row_range_end: 100,
            claim_id,
            instance_id: inst,
            lease_ttl_millis: 30_000,
            now_at_propose: 0,
        },
    )
    .unwrap();

    let big = vec![0u8; MAX_LOG_ENTRY_BYTES]; // at limit → rejected
    let resp = apply(
        &mut db,
        ConsensusCommand::Checkpoint {
            claim_id,
            stage_idx: 0,
            ipc_bytes: big,
            schema_id: 1,
            now_at_propose: 0,
        },
    )
    .unwrap();
    assert!(matches!(resp, ConsensusResponse::Error { .. }), "{resp:?}");
}

#[test]
fn test_snapshot_dump_restore_round_trip() {
    let mut db = Tables::new();
    // Populate state.
    apply(
        &mut db,
        ConsensusCommand::RegisterMasterBatch {
            batch_id: 1,
            component: "orders".to_string(),
            schema_id: 1,
            ipc_bytes: small_ipc(),
            total_rows: 500,
            now_at_propose: 0,
        },
    )
    .unwrap();
    let claim_id = fresh_id();
    let inst = fresh_id();
    apply(
        &mut db,
        ConsensusCommand::ClaimRowRange {
            batch_id: 1,
            row_range_start: 0,
            row_range_end: 100,
            claim_id,
            instance_id: inst,
            lease_ttl_millis: 30_000,
            now_at_propose: 0,
        },
    )
    .unwrap();
    apply(
        &mut db,
        ConsensusCommand::Checkpoint {
            claim_id,
            stage_idx: 0,
            ipc_bytes: vec![1, 2, 3],
            schema_id: 1,
            now_at_propose: 0,
        },
    )
    .unwrap();
    apply(
        &mut db,
        ConsensusCommand::Heartbeat {
            instance_id: inst,
            at: 12345,
        },
    )
    .unwrap();

    // Dump.
    let (batches, claims, checkpoints, instances) = dump_state(&db).unwrap();
    assert_eq!(batches.len(), 1);
    assert_eq!(claims.len(), 1);
    assert_eq!(checkpoints.len(), 1);
    assert_eq!(instances.len(), 1);

    // Restore into fresh DB.
    let mut db2 = Tables::new();
    restore_state(&mut db2, batches, claims, checkpoints, instances, None).unwrap();

    // Verify.
    let batch = read_master_batch(&db2, 1).unwrap().unwrap();
    assert_eq!(batch.component, "orders");
    assert_eq!(batch.total_rows, 500);

    let claim = read_claim(&db2, claim_id).unwrap().unwrap();
    assert_eq!(claim.row_range_start, 0);
    assert_eq!(claim.row_range_end, 100);

    let cp = read_checkpoint(&db2, claim_id, 0).unwrap().unwrap();
    assert_eq!(cp.ipc_bytes, vec![1, 2, 3]);
}

#[test]
fn test_heartbeat_stores_instance() {
    let mut db = Tables::new();
    let inst = fresh_id();
    let resp = apply(
        &mut db,
        ConsensusCommand::Heartbeat {
            instance_id: inst,
            at: 99999,
        },
    )
    .unwrap();
    assert!(
        matches!(resp, ConsensusResponse::HeartbeatRecorded),
        "{resp:?}"
    );
}

#[test]
fn test_renew_claim_updates_expiry() {
    let mut db = Tables::new();
    apply(
        &mut db,
        ConsensusCommand::RegisterMasterBatch {
            batch_id: 1,
            component: "x".to_string(),
            schema_id: 1,
            ipc_bytes: small_ipc(),
            total_rows: 100,
            now_at_propose: 0,
        },
    )
    .unwrap();
    let claim_id = fresh_id();
    let inst = fresh_id();
    apply(
        &mut db,
        ConsensusCommand::ClaimRowRange {
            batch_id: 1,
            row_range_start: 0,
            row_range_end: 100,
            claim_id,
            instance_id: inst,
            lease_ttl_millis: 30_000,
            now_at_propose: 0,
        },
    )
    .unwrap();
    let original = read_claim(&db, claim_id).unwrap().unwrap().lease_expires_at;

    let resp = apply(
        &mut db,
        ConsensusCommand::RenewClaim {
            claim_id,
            instance_id: inst,
            lease_ttl_millis: 60_000,
            now_at_propose: 0,
        },
    )
    .unwrap();
    match resp {
        ConsensusResponse::ClaimRenewed { expires_at } => {
            assert!(expires_at >= original, "new expiry should be >= original");
        }
        _ => panic!("expected ClaimRenewed, got {resp:?}"),
    }
}

/// The same commands on two sets of tables give the same contents.
#[test]
fn test_state_machine_apply_is_deterministic_across_replicas() {
    let mut db_a = Tables::new();
    let mut db_b = Tables::new();

    // Fixed UUIDs so both replicas apply byte-identical input.
    let claim1 = 0x1111_1111_1111_1111_1111_1111_1111_1111u128;
    let claim2 = 0x2222_2222_2222_2222_2222_2222_2222_2222u128;
    let inst = 0xAAAA_AAAA_AAAA_AAAA_AAAA_AAAA_AAAA_AAAAu128;

    let cmds = vec![
        ConsensusCommand::RegisterMasterBatch {
            batch_id: 10,
            component: "alpha".to_string(),
            schema_id: 1,
            ipc_bytes: vec![0xA1; 32],
            total_rows: 300,
            now_at_propose: 1_700_000_000_000,
        },
        ConsensusCommand::RegisterMasterBatch {
            batch_id: 11,
            component: "beta".to_string(),
            schema_id: 2,
            ipc_bytes: vec![0xB2; 48],
            total_rows: 200,
            now_at_propose: 1_700_000_000_100,
        },
        ConsensusCommand::ClaimRowRange {
            batch_id: 10,
            row_range_start: 0,
            row_range_end: 150,
            claim_id: claim1,
            instance_id: inst,
            lease_ttl_millis: 30_000,
            now_at_propose: 1_700_000_000_200,
        },
        ConsensusCommand::ClaimRowRange {
            batch_id: 10,
            row_range_start: 150,
            row_range_end: 300,
            claim_id: claim2,
            instance_id: inst,
            lease_ttl_millis: 30_000,
            now_at_propose: 1_700_000_000_300,
        },
        ConsensusCommand::Checkpoint {
            claim_id: claim1,
            stage_idx: 0,
            ipc_bytes: vec![0xCA, 0xFE],
            schema_id: 1,
            now_at_propose: 1_700_000_000_400,
        },
        ConsensusCommand::Checkpoint {
            claim_id: claim1,
            stage_idx: 1,
            ipc_bytes: vec![0xDE, 0xAD],
            schema_id: 1,
            now_at_propose: 1_700_000_000_500,
        },
        ConsensusCommand::AckClaim {
            claim_id: claim1,
            instance_id: inst,
        },
        ConsensusCommand::RenewClaim {
            claim_id: claim2,
            instance_id: inst,
            lease_ttl_millis: 45_000,
            now_at_propose: 1_700_000_000_600,
        },
        ConsensusCommand::Heartbeat {
            instance_id: inst,
            at: 1_700_000_000_700,
        },
        ConsensusCommand::ReleaseClaim {
            claim_id: claim2,
            instance_id: inst,
        },
    ];

    for cmd in &cmds {
        apply(
&mut db_a, cmd.clone()).unwrap();
    }
    for cmd in &cmds {
        apply(
&mut db_b, cmd.clone()).unwrap();
    }

    let dump_a = dump_state(&db_a).unwrap();
    let dump_b = dump_state(&db_b).unwrap();

    assert_eq!(
        dump_a, dump_b,
        "state machine apply must be deterministic across replicas"
    );
}

/// Regression: `find_first_pending_claim` must treat Completed
/// as occupied, and `apply_claim_row_range` must reject overlaps with
/// Completed ranges.
#[test]
fn test_find_first_pending_claim_skips_completed_ranges() {
    let mut db = Tables::new();
    apply(
        &mut db,
        ConsensusCommand::RegisterMasterBatch {
            batch_id: 1,
            component: "x".to_string(),
            schema_id: 1,
            ipc_bytes: small_ipc(),
            total_rows: 100,
            now_at_propose: 0,
        },
    )
    .unwrap();

    let claim_id = fresh_id();
    let inst = fresh_id();
    apply(
        &mut db,
        ConsensusCommand::ClaimRowRange {
            batch_id: 1,
            row_range_start: 0,
            row_range_end: 100,
            claim_id,
            instance_id: inst,
            lease_ttl_millis: 30_000,
            now_at_propose: 0,
        },
    )
    .unwrap();

    // Ack the claim — status → Completed.
    apply(
        &mut db,
        ConsensusCommand::AckClaim {
            claim_id,
            instance_id: inst,
        },
    )
    .unwrap();
    let rec = read_claim(&db, claim_id).unwrap().unwrap();
    assert_eq!(rec.status, ClaimStatus::Completed);

    // No pending rows should be reported.
    let pending = find_first_pending_claim(&db, 1).unwrap();
    assert!(
        pending.is_none(),
        "Completed claim must not be reported as pending; got {pending:?}"
    );

    // A fresh claim on the same range must be rejected as overlapping.
    let c2 = fresh_id();
    let resp = apply(
        &mut db,
        ConsensusCommand::ClaimRowRange {
            batch_id: 1,
            row_range_start: 0,
            row_range_end: 100,
            claim_id: c2,
            instance_id: inst,
            lease_ttl_millis: 30_000,
            now_at_propose: 0,
        },
    )
    .unwrap();
    match resp {
        ConsensusResponse::Error { message } => {
            assert!(
                message.contains("overlaps"),
                "expected overlap error, got {message}"
            );
        }
        other => panic!("expected Error variant, got {other:?}"),
    }
}

/// Verify that `CLAIMS_BY_BATCH` secondary index is populated on claim
/// and correctly reflects status changes on ack/release.
#[test]
fn test_secondary_index_populated_and_updated() {
    let mut db = Tables::new();
    apply(
        &mut db,
        ConsensusCommand::RegisterMasterBatch {
            batch_id: 1,
            component: "x".to_string(),
            schema_id: 1,
            ipc_bytes: small_ipc(),
            total_rows: 200,
            now_at_propose: 0,
        },
    )
    .unwrap();

    let claim_id = fresh_id();
    let inst = fresh_id();
    apply(
        &mut db,
        ConsensusCommand::ClaimRowRange {
            batch_id: 1,
            row_range_start: 0,
            row_range_end: 100,
            claim_id,
            instance_id: inst,
            lease_ttl_millis: 30_000,
            now_at_propose: 0,
        },
    )
    .unwrap();

    // Read the secondary index directly and verify the entry.
    {
        let value = index_value(&db, 1, claim_id).expect("secondary index entry missing");
        let (start, end, status) = decode_claims_by_batch_value(&value).expect("decode secondary value");
        assert_eq!((start, end, status), (0, 100, ClaimStatus::Claimed));
    }

    // Ack → status must flip to Completed in secondary index.
    apply(
        &mut db,
        ConsensusCommand::AckClaim {
            claim_id,
            instance_id: inst,
        },
    )
    .unwrap();
    {
        let value = index_value(&db, 1, claim_id).expect("secondary index entry missing");
        let (_, _, status) = decode_claims_by_batch_value(&value).expect("decode secondary value");
        assert_eq!(status, ClaimStatus::Completed);
    }

    // Claim a second range.
    let claim2 = fresh_id();
    apply(
        &mut db,
        ConsensusCommand::ClaimRowRange {
            batch_id: 1,
            row_range_start: 100,
            row_range_end: 200,
            claim_id: claim2,
            instance_id: inst,
            lease_ttl_millis: 30_000,
            now_at_propose: 0,
        },
    )
    .unwrap();

    // Release second claim → status must flip to Pending in secondary index.
    apply(
        &mut db,
        ConsensusCommand::ReleaseClaim {
            claim_id: claim2,
            instance_id: inst,
        },
    )
    .unwrap();
    {
        let value = index_value(&db, 1, claim2).expect("secondary index entry missing");
        let (_, _, status) = decode_claims_by_batch_value(&value).expect("decode secondary value");
        assert_eq!(status, ClaimStatus::Pending);
    }
}

/// Verify that `restore_state` rebuilds the secondary index so that
/// overlap checks work correctly after a snapshot install (without having
/// to reply any commands).
#[test]
fn test_restore_state_rebuilds_secondary_index() {
    let mut db = Tables::new();
    apply(
        &mut db,
        ConsensusCommand::RegisterMasterBatch {
            batch_id: 1,
            component: "x".to_string(),
            schema_id: 1,
            ipc_bytes: small_ipc(),
            total_rows: 200,
            now_at_propose: 0,
        },
    )
    .unwrap();

    let claim_id = fresh_id();
    let inst = fresh_id();
    apply(
        &mut db,
        ConsensusCommand::ClaimRowRange {
            batch_id: 1,
            row_range_start: 0,
            row_range_end: 100,
            claim_id,
            instance_id: inst,
            lease_ttl_millis: 30_000,
            now_at_propose: 0,
        },
    )
    .unwrap();
    apply(
        &mut db,
        ConsensusCommand::AckClaim {
            claim_id,
            instance_id: inst,
        },
    )
    .unwrap();

    // Dump and restore into a fresh DB.
    let (batches, claims, checkpoints, instances) = dump_state(&db).unwrap();
    let mut db2 = Tables::new();
    restore_state(&mut db2, batches, claims, checkpoints, instances, None).unwrap();

    // The secondary index must be populated in db2.
    {
        let value = index_value(&db2, 1, claim_id).expect("secondary index must be rebuilt by restore_state");
        let (start, end, status) = decode_claims_by_batch_value(&value).expect("decode secondary value");
        assert_eq!((start, end, status), (0, 100, ClaimStatus::Completed));
    }

    // Overlap check should reject re-claiming the same range even after restore.
    let c2 = fresh_id();
    let resp = apply(
&mut db2,
        ConsensusCommand::ClaimRowRange {
            batch_id: 1,
            row_range_start: 0,
            row_range_end: 100,
            claim_id: c2,
            instance_id: inst,
            lease_ttl_millis: 30_000,
            now_at_propose: 0,
        },
    )
    .unwrap();
    match resp {
        ConsensusResponse::Error { message } => {
            assert!(
                message.contains("overlaps"),
                "expected overlap error after restore, got {message}"
            );
        }
        other => panic!("expected Error after restore, got {other:?}"),
    }
}

/// Verify that the secondary-index range scan correctly isolates claims
/// across multiple batches — a claim in batch 2 must not be visible when
/// scanning for batch 1.
#[test]
fn test_secondary_index_batch_isolation() {
    let mut db = Tables::new();
    let inst = fresh_id();

    for batch_id in 1u64..=3 {
        apply(
        &mut db,
            ConsensusCommand::RegisterMasterBatch {
                batch_id,
                component: format!("comp_{batch_id}"),
                schema_id: 1,
                ipc_bytes: small_ipc(),
                total_rows: 100,
                now_at_propose: 0,
            },
        )
        .unwrap();
    }

    // Claim rows 0..50 in batch 2.
    let c2 = fresh_id();
    apply(
        &mut db,
        ConsensusCommand::ClaimRowRange {
            batch_id: 2,
            row_range_start: 0,
            row_range_end: 50,
            claim_id: c2,
            instance_id: inst,
            lease_ttl_millis: 30_000,
            now_at_propose: 0,
        },
    )
    .unwrap();

    // Claiming the same rows in batch 1 must succeed (different batch).
    let c1 = fresh_id();
    let resp = apply(
        &mut db,
        ConsensusCommand::ClaimRowRange {
            batch_id: 1,
            row_range_start: 0,
            row_range_end: 50,
            claim_id: c1,
            instance_id: inst,
            lease_ttl_millis: 30_000,
            now_at_propose: 0,
        },
    )
    .unwrap();
    assert!(
        matches!(resp, ConsensusResponse::BatchClaimed { .. }),
        "batch isolation failed: expected BatchClaimed, got {resp:?}"
    );

    // Claiming the same rows in batch 2 must be rejected (overlap).
    let c2b = fresh_id();
    let resp2 = apply(
        &mut db,
        ConsensusCommand::ClaimRowRange {
            batch_id: 2,
            row_range_start: 0,
            row_range_end: 50,
            claim_id: c2b,
            instance_id: inst,
            lease_ttl_millis: 30_000,
            now_at_propose: 0,
        },
    )
    .unwrap();
    assert!(
        matches!(resp2, ConsensusResponse::Error { .. }),
        "expected overlap rejection within same batch, got {resp2:?}"
    );
}

/// Verify the secondary index value encoding/decoding round-trips correctly.
#[test]
fn test_secondary_index_encoding_round_trip() {
    for status in [
        ClaimStatus::Pending,
        ClaimStatus::Claimed,
        ClaimStatus::Completed,
    ] {
        let encoded = claims_by_batch_value(42, 84, status);
        let (start, end, decoded_status) =
            decode_claims_by_batch_value(&encoded).expect("decode must succeed");
        assert_eq!(start, 42);
        assert_eq!(end, 84);
        assert_eq!(decoded_status, status);
    }

    // Malformed (wrong length) must return None.
    assert!(decode_claims_by_batch_value(&[0u8; 8]).is_none());
    assert!(decode_claims_by_batch_value(&[0u8; 10]).is_none());
    assert!(decode_claims_by_batch_value(&[]).is_none());
}


#[test]
fn claim_row_range_replay_idempotent() {
    let mut db = Tables::new();
    apply(
        &mut db,
        ConsensusCommand::RegisterMasterBatch {
            batch_id: 1,
            component: "x".to_string(),
            schema_id: 1,
            ipc_bytes: small_ipc(),
            total_rows: 100,
            now_at_propose: 0,
        },
    )
    .unwrap();

    let claim_id = fresh_id();
    let inst = fresh_id();
    let cmd = ConsensusCommand::ClaimRowRange {
        batch_id: 1,
        row_range_start: 0,
        row_range_end: 50,
        claim_id,
        instance_id: inst,
        lease_ttl_millis: 30_000,
        now_at_propose: 1000,
    };

    let resp1 = apply(
        &mut db, cmd.clone()).unwrap();
    assert!(
        matches!(
            resp1,
            ConsensusResponse::BatchClaimed {
                row_range_start: 0,
                row_range_end: 50,
                ..
            }
        ),
        "first apply should succeed: {resp1:?}"
    );

    // Second apply of the same command — must succeed (idempotent replay).
    let resp2 = apply(
        &mut db, cmd).unwrap();
    assert!(
        matches!(
            resp2,
            ConsensusResponse::BatchClaimed {
                row_range_start: 0,
                row_range_end: 50,
                ..
            }
        ),
        "replay should be idempotent: {resp2:?}"
    );

    // There should be exactly one claim record.
    let record = read_claim(&db, claim_id).unwrap().unwrap();
    assert_eq!(record.status, ClaimStatus::Claimed);
    assert_eq!(record.row_range_start, 0);
    assert_eq!(record.row_range_end, 50);
}

#[test]
fn checkpoint_replay_idempotent() {
    let mut db = Tables::new();
    apply(
        &mut db,
        ConsensusCommand::RegisterMasterBatch {
            batch_id: 1,
            component: "x".to_string(),
            schema_id: 1,
            ipc_bytes: small_ipc(),
            total_rows: 100,
            now_at_propose: 0,
        },
    )
    .unwrap();
    let claim_id = fresh_id();
    let inst = fresh_id();
    apply(
        &mut db,
        ConsensusCommand::ClaimRowRange {
            batch_id: 1,
            row_range_start: 0,
            row_range_end: 100,
            claim_id,
            instance_id: inst,
            lease_ttl_millis: 30_000,
            now_at_propose: 0,
        },
    )
    .unwrap();

    let cp_cmd = ConsensusCommand::Checkpoint {
        claim_id,
        stage_idx: 0,
        ipc_bytes: vec![0xCA, 0xFE],
        schema_id: 1,
        now_at_propose: 999, // deterministic identity key
    };

    let resp1 = apply(
        &mut db, cp_cmd.clone()).unwrap();
    let ConsensusResponse::CheckpointWritten {
        checkpoint_id: seq1,
    } = resp1
    else {
        panic!("expected CheckpointWritten, got {resp1:?}");
    };

    // Replay — checkpoint_seq must NOT be double-incremented.
    let resp2 = apply(
        &mut db, cp_cmd).unwrap();
    let ConsensusResponse::CheckpointWritten {
        checkpoint_id: seq2,
    } = resp2
    else {
        panic!("expected CheckpointWritten on replay, got {resp2:?}");
    };
    assert_eq!(
        seq2, seq1,
        "checkpoint_seq must not increment on idempotent replay"
    );

    let batch = read_master_batch(&db, 1).unwrap().unwrap();
    assert_eq!(batch.checkpoint_seq, seq1, "master batch seq must be seq1");
}


#[test]
fn renew_claim_monotonic() {
    let mut db = Tables::new();
    apply(
        &mut db,
        ConsensusCommand::RegisterMasterBatch {
            batch_id: 1,
            component: "x".to_string(),
            schema_id: 1,
            ipc_bytes: small_ipc(),
            total_rows: 100,
            now_at_propose: 0,
        },
    )
    .unwrap();
    let claim_id = fresh_id();
    let inst = fresh_id();
    // Claim at t=1000, ttl=60_000 → expires at 61_000.
    apply(
        &mut db,
        ConsensusCommand::ClaimRowRange {
            batch_id: 1,
            row_range_start: 0,
            row_range_end: 100,
            claim_id,
            instance_id: inst,
            lease_ttl_millis: 60_000,
            now_at_propose: 1_000,
        },
    )
    .unwrap();

    // Renew with stale now_at_propose=500 (before the claim was even made).
    // new_expires = 500 + 60_000 = 60_500 < 61_000 → max() keeps 61_000.
    let resp = apply(
        &mut db,
        ConsensusCommand::RenewClaim {
            claim_id,
            instance_id: inst,
            lease_ttl_millis: 60_000,
            now_at_propose: 500,
        },
    )
    .unwrap();
    match resp {
        ConsensusResponse::ClaimRenewed { expires_at } => {
            assert_eq!(
                expires_at, 61_000,
                "stale renew must not move expiry backwards"
            );
        }
        ConsensusResponse::Error { message } => {
            // Also acceptable: rejected as stale (expired check: 61_000 >= 500)
            // The current impl checks lease_expires_at < now_at_propose to reject dead
            // leases. 61_000 < 500 is false so it doesn't reject — verify monotonicity.
            panic!("unexpected error: {message}");
        }
        other => panic!("unexpected response: {other:?}"),
    }

    let record = read_claim(&db, claim_id).unwrap().unwrap();
    assert_eq!(
        record.lease_expires_at, 61_000,
        "lease_expires_at must not regress"
    );
}


#[test]
fn reclaim_expired_frees_ranges() {
    let mut db = Tables::new();
    apply(
        &mut db,
        ConsensusCommand::RegisterMasterBatch {
            batch_id: 1,
            component: "x".to_string(),
            schema_id: 1,
            ipc_bytes: small_ipc(),
            total_rows: 100,
            now_at_propose: 0,
        },
    )
    .unwrap();
    let claim_id = fresh_id();
    let inst = fresh_id();
    // Claim at t=0 with ttl=100 → expires at 100.
    apply(
        &mut db,
        ConsensusCommand::ClaimRowRange {
            batch_id: 1,
            row_range_start: 0,
            row_range_end: 100,
            claim_id,
            instance_id: inst,
            lease_ttl_millis: 100,
            now_at_propose: 0,
        },
    )
    .unwrap();

    // Before expiry: the range is still blocked.
    let resp_before =
        apply(
        &mut db, ConsensusCommand::ReclaimExpired { now_at_propose: 50 }).unwrap();
    assert!(
        matches!(
            resp_before,
            ConsensusResponse::ExpiredReclaimed { reclaimed_count: 0 }
        ),
        "nothing should be reclaimed before expiry: {resp_before:?}"
    );
    let rec_before = read_claim(&db, claim_id).unwrap().unwrap();
    assert_eq!(rec_before.status, ClaimStatus::Claimed);

    // After expiry: sweep frees the range.
    let resp_after = apply(
        &mut db,
        ConsensusCommand::ReclaimExpired {
            now_at_propose: 200,
        },
    )
    .unwrap();
    assert!(
        matches!(
            resp_after,
            ConsensusResponse::ExpiredReclaimed { reclaimed_count: 1 }
        ),
        "one claim should be reclaimed: {resp_after:?}"
    );

    let rec_after = read_claim(&db, claim_id).unwrap().unwrap();
    assert_eq!(
        rec_after.status,
        ClaimStatus::Pending,
        "claim must be Pending after reclaim"
    );
    assert_eq!(rec_after.lease_expires_at, 0);

    // The range must now be claimable again by a different claim_id.
    let claim_id2 = fresh_id();
    let resp_reclaim = apply(
        &mut db,
        ConsensusCommand::ClaimRowRange {
            batch_id: 1,
            row_range_start: 0,
            row_range_end: 100,
            claim_id: claim_id2,
            instance_id: inst,
            lease_ttl_millis: 30_000,
            now_at_propose: 200,
        },
    )
    .unwrap();
    assert!(
        matches!(resp_reclaim, ConsensusResponse::BatchClaimed { .. }),
        "range should be claimable after reclaim: {resp_reclaim:?}"
    );
}


#[test]
fn install_snapshot_atomic_clear() {
    // db1 has {c1, c2} and {batch 1, 2}
    let mut db1 = Tables::new();
    for i in 1u64..=2 {
        apply(
&mut db1,
            ConsensusCommand::RegisterMasterBatch {
                batch_id: i,
                component: format!("comp_{i}"),
                schema_id: 1,
                ipc_bytes: small_ipc(),
                total_rows: 100,
                now_at_propose: 0,
            },
        )
        .unwrap();
    }
    let inst = fresh_id();
    let c1 = fresh_id();
    apply(
&mut db1,
        ConsensusCommand::ClaimRowRange {
            batch_id: 1,
            row_range_start: 0,
            row_range_end: 50,
            claim_id: c1,
            instance_id: inst,
            lease_ttl_millis: 30_000,
            now_at_propose: 0,
        },
    )
    .unwrap();

    // db2 has {c4, batch 3} — state that should be replaced by snapshot from db1.
    let mut db2 = Tables::new();
    apply(
&mut db2,
        ConsensusCommand::RegisterMasterBatch {
            batch_id: 3,
            component: "old_comp".to_string(),
            schema_id: 1,
            ipc_bytes: small_ipc(),
            total_rows: 50,
            now_at_propose: 0,
        },
    )
    .unwrap();
    let c4 = fresh_id();
    apply(
&mut db2,
        ConsensusCommand::ClaimRowRange {
            batch_id: 3,
            row_range_start: 0,
            row_range_end: 50,
            claim_id: c4,
            instance_id: inst,
            lease_ttl_millis: 30_000,
            now_at_propose: 0,
        },
    )
    .unwrap();

    // Dump db1 → restore into db2.
    let (batches, claims, checkpoints, instances) = dump_state(&db1).unwrap();
    restore_state(&mut db2, batches, claims, checkpoints, instances, None).unwrap();

    // db2 must contain exactly {batch 1, 2} and claim c1 — NOT batch 3 / c4.
    assert!(
        read_master_batch(&db2, 1).unwrap().is_some(),
        "batch 1 must be present"
    );
    assert!(
        read_master_batch(&db2, 2).unwrap().is_some(),
        "batch 2 must be present"
    );
    assert!(
        read_master_batch(&db2, 3).unwrap().is_none(),
        "old batch 3 must be purged by snapshot install"
    );
    assert!(
        read_claim(&db2, c1).unwrap().is_some(),
        "claim c1 must be present"
    );
    assert!(
        read_claim(&db2, c4).unwrap().is_none(),
        "old claim c4 must be purged by snapshot install"
    );
}


#[test]
fn test_ack_claim_rejects_pending_status() {
    let mut db = Tables::new();
    let (claim_id, instance_id) = seed_claimed_guard(&mut db);
    // Release the claim first — status → Pending.
    apply(
        &mut db,
        ConsensusCommand::ReleaseClaim {
            claim_id,
            instance_id,
        },
    )
    .unwrap();
    // Now try to ack a Pending claim — must be rejected.
    let resp = apply(
        &mut db,
        ConsensusCommand::AckClaim {
            claim_id,
            instance_id,
        },
    )
    .unwrap();
    assert!(
        matches!(resp, ConsensusResponse::Error { .. }),
        "ack of Pending claim must be rejected, got {resp:?}"
    );
    let rec = read_claim(&db, claim_id).unwrap().unwrap();
    assert_eq!(rec.status, ClaimStatus::Pending, "must remain Pending");
}

#[test]
fn test_release_claim_rejects_completed_status() {
    let mut db = Tables::new();
    let (claim_id, instance_id) = seed_claimed_guard(&mut db);
    // Ack to Completed first.
    apply(
        &mut db,
        ConsensusCommand::AckClaim {
            claim_id,
            instance_id,
        },
    )
    .unwrap();
    // Try to release a Completed claim — must be rejected.
    let resp = apply(
        &mut db,
        ConsensusCommand::ReleaseClaim {
            claim_id,
            instance_id,
        },
    )
    .unwrap();
    assert!(
        matches!(resp, ConsensusResponse::Error { .. }),
        "release of Completed claim must be rejected, got {resp:?}"
    );
    let rec = read_claim(&db, claim_id).unwrap().unwrap();
    assert_eq!(rec.status, ClaimStatus::Completed, "must remain Completed");
}

/// Regression guard for the status-guard invariant relied on by
/// the claim-level retry cap.
///
/// `apply_release_claim` MUST reject a claim that is already in
/// `ClaimStatus::Pending` (e.g. because `ReclaimExpired` raced the
/// runner and reclaimed the lease first). The retry-cap wiring adds a
/// `release_attempts` bump inside the successful release branch,
/// and that bump MUST NOT fire on this rejection path — otherwise
/// a late `ReleaseClaim` arriving after a reclaim would
/// double-count the attempt. This test fails if anyone hoists the
/// guard out of the success branch in a future refactor.
#[test]
fn test_release_claim_rejects_pending_status() {
    let mut db = Tables::new();
    let (claim_id, instance_id) = seed_claimed_guard(&mut db);
    // First release transitions the claim to Pending.
    apply(
        &mut db,
        ConsensusCommand::ReleaseClaim {
            claim_id,
            instance_id,
        },
    )
    .unwrap();
    let rec = read_claim(&db, claim_id).unwrap().unwrap();
    assert_eq!(rec.status, ClaimStatus::Pending);

    // A second release against the now-Pending claim must be
    // rejected by the status guard — no mutation, no error in
    // the redb transaction, just an Error response surfaced to
    // the caller.
    let resp = apply(
        &mut db,
        ConsensusCommand::ReleaseClaim {
            claim_id,
            instance_id,
        },
    )
    .unwrap();
    assert!(
        matches!(resp, ConsensusResponse::Error { .. }),
        "release of Pending claim must be rejected, got {resp:?}"
    );
    let rec = read_claim(&db, claim_id).unwrap().unwrap();
    assert_eq!(rec.status, ClaimStatus::Pending, "must remain Pending");
}

#[test]
fn test_claim_row_range_idempotency_wrong_instance_rejected() {
    let mut db = Tables::new();
    let batch_id = 77u64;
    let claim_id = fresh_id();
    let instance_a = fresh_id();
    let instance_b = fresh_id();
    apply(
        &mut db,
        ConsensusCommand::RegisterMasterBatch {
            batch_id,
            component: "idem_test".to_string(),
            schema_id: 1,
            ipc_bytes: vec![0x77; 64],
            total_rows: 100,
            now_at_propose: 0,
        },
    )
    .unwrap();
    // Instance A claims the range.
    apply(
        &mut db,
        ConsensusCommand::ClaimRowRange {
            batch_id,
            row_range_start: 0,
            row_range_end: 100,
            claim_id,
            instance_id: instance_a,
            lease_ttl_millis: 90_000,
            now_at_propose: 0,
        },
    )
    .unwrap();
    // Replay same claim_id but with instance_b — idempotency check must NOT
    // return success because instance_id doesn't match.
    let resp = apply(
        &mut db,
        ConsensusCommand::ClaimRowRange {
            batch_id,
            row_range_start: 0,
            row_range_end: 100,
            claim_id,
            instance_id: instance_b,
            lease_ttl_millis: 90_000,
            now_at_propose: 0,
        },
    )
    .unwrap();
    // Should NOT return BatchClaimed — must fall through to the overlap check
    // which rejects it.
    assert!(
        !matches!(resp, ConsensusResponse::BatchClaimed { instance_id, .. } if instance_id == instance_b),
        "wrong-instance idempotency replay must not mint a claim for instance_b, got {resp:?}"
    );
}

fn seed_claimed_guard(db: &mut Tables) -> (u128, u128) {
    let batch_id = 99u64;
    let claim_id = fresh_id();
    let instance_id = fresh_id();
    apply(
        db,
        ConsensusCommand::RegisterMasterBatch {
            batch_id,
            component: "guard_test".to_string(),
            schema_id: 1,
            ipc_bytes: vec![0xAB; 64],
            total_rows: 100,
            now_at_propose: 0,
        },
    )
    .unwrap();
    let resp = apply(
        db,
        ConsensusCommand::ClaimRowRange {
            batch_id,
            row_range_start: 0,
            row_range_end: 50,
            claim_id,
            instance_id,
            lease_ttl_millis: 90_000,
            now_at_propose: 1_000,
        },
    )
    .unwrap();
    assert!(
        matches!(resp, ConsensusResponse::BatchClaimed { .. }),
        "seed_claimed_guard failed: {resp:?}"
    );
    (claim_id, instance_id)
}

#[test]
fn test_ack_claim_wrong_instance_rejected() {
    let mut db = Tables::new();
    let (claim_id, _correct) = seed_claimed_guard(&mut db);
    let wrong_instance = fresh_id();
    let resp = apply(
        &mut db,
        ConsensusCommand::AckClaim {
            claim_id,
            instance_id: wrong_instance,
        },
    )
    .unwrap();
    assert!(
        matches!(resp, ConsensusResponse::Error { .. }),
        "expected Error for wrong instance_id, got {resp:?}"
    );
    let rec = read_claim(&db, claim_id).unwrap().unwrap();
    assert_eq!(
        rec.status,
        ClaimStatus::Claimed,
        "claim must remain Claimed"
    );
}

#[test]
fn test_release_claim_wrong_instance_rejected() {
    let mut db = Tables::new();
    let (claim_id, _correct) = seed_claimed_guard(&mut db);
    let wrong_instance = fresh_id();
    let resp = apply(
        &mut db,
        ConsensusCommand::ReleaseClaim {
            claim_id,
            instance_id: wrong_instance,
        },
    )
    .unwrap();
    assert!(
        matches!(resp, ConsensusResponse::Error { .. }),
        "expected Error for wrong instance_id, got {resp:?}"
    );
    let rec = read_claim(&db, claim_id).unwrap().unwrap();
    assert_eq!(
        rec.status,
        ClaimStatus::Claimed,
        "claim must remain Claimed"
    );
}

#[test]
fn test_ack_claim_correct_instance_succeeds() {
    let mut db = Tables::new();
    let (claim_id, instance_id) = seed_claimed_guard(&mut db);
    let resp = apply(
        &mut db,
        ConsensusCommand::AckClaim {
            claim_id,
            instance_id,
        },
    )
    .unwrap();
    assert!(
        matches!(resp, ConsensusResponse::ClaimAcked),
        "expected ClaimAcked, got {resp:?}"
    );
    let rec = read_claim(&db, claim_id).unwrap().unwrap();
    assert_eq!(rec.status, ClaimStatus::Completed);
}

#[test]
fn test_release_claim_correct_instance_succeeds() {
    let mut db = Tables::new();
    let (claim_id, instance_id) = seed_claimed_guard(&mut db);
    let resp = apply(
        &mut db,
        ConsensusCommand::ReleaseClaim {
            claim_id,
            instance_id,
        },
    )
    .unwrap();
    assert!(
        matches!(resp, ConsensusResponse::ClaimReleased),
        "expected ClaimReleased, got {resp:?}"
    );
    let rec = read_claim(&db, claim_id).unwrap().unwrap();
    assert_eq!(rec.status, ClaimStatus::Pending);
}

#[test]
fn test_late_ack_after_reclaim_rejected() {
    let mut db = Tables::new();
    let batch_id = 88u64;
    let claim_a = fresh_id();
    let instance_a = fresh_id();
    apply(
        &mut db,
        ConsensusCommand::RegisterMasterBatch {
            batch_id,
            component: "late_ack".to_string(),
            schema_id: 1,
            ipc_bytes: vec![0xAB; 64],
            total_rows: 100,
            now_at_propose: 0,
        },
    )
    .unwrap();
    apply(
        &mut db,
        ConsensusCommand::ClaimRowRange {
            batch_id,
            row_range_start: 0,
            row_range_end: 50,
            claim_id: claim_a,
            instance_id: instance_a,
            lease_ttl_millis: 1_000,
            now_at_propose: 0,
        },
    )
    .unwrap();
    let swept = apply(
        &mut db,
        ConsensusCommand::ReclaimExpired {
            now_at_propose: 2_000,
        },
    )
    .unwrap();
    assert!(
        matches!(
            swept,
            ConsensusResponse::ExpiredReclaimed { reclaimed_count: 1 }
        ),
        "{swept:?}"
    );
    let resp = apply(
        &mut db,
        ConsensusCommand::AckClaim {
            claim_id: claim_a,
            instance_id: instance_a,
        },
    )
    .unwrap();
    assert!(
        matches!(resp, ConsensusResponse::Error { .. }),
        "late ack must be rejected, got {resp:?}"
    );
    let rec = read_claim(&db, claim_a).unwrap().unwrap();
    assert_eq!(
        rec.status,
        ClaimStatus::Pending,
        "must remain Pending after late ack"
    );
}

#[test]
fn test_renew_claim_wrong_instance_rejected() {
    let mut db = Tables::new();
    let (claim_id, _correct) = seed_claimed_guard(&mut db);
    let wrong_instance = fresh_id();
    let resp = apply(
        &mut db,
        ConsensusCommand::RenewClaim {
            claim_id,
            instance_id: wrong_instance,
            lease_ttl_millis: 90_000,
            now_at_propose: 1_000,
        },
    )
    .unwrap();
    assert!(
        matches!(resp, ConsensusResponse::Error { .. }),
        "renew with wrong instance must be rejected, got {resp:?}"
    );
}

/// Applying the same checkpoint body twice (even with different
/// `now_at_propose`) must increment `checkpoint_seq` exactly once.
#[test]
fn test_checkpoint_replay_idempotent_across_retries() {
    let mut db = Tables::new();
    let instance = fresh_id();
    apply(
        &mut db,
        ConsensusCommand::RegisterMasterBatch {
            batch_id: 1,
            component: "comp".to_string(),
            schema_id: 1,
            ipc_bytes: small_ipc(),
            total_rows: 100,
            now_at_propose: 0,
        },
    )
    .unwrap();
    let claim_id = fresh_id();
    apply(
        &mut db,
        ConsensusCommand::ClaimRowRange {
            batch_id: 1,
            row_range_start: 0,
            row_range_end: 100,
            claim_id,
            instance_id: instance,
            lease_ttl_millis: 90_000,
            now_at_propose: 1_000,
        },
    )
    .unwrap();

    let checkpoint_body = vec![0xCC; 128];

    // First apply: new checkpoint, seq should be 1.
    let resp1 = apply(
        &mut db,
        ConsensusCommand::Checkpoint {
            claim_id,
            stage_idx: 0,
            ipc_bytes: checkpoint_body.clone(),
            schema_id: 1,
            now_at_propose: 1_000,
        },
    )
    .unwrap();
    let seq1 = match resp1 {
        ConsensusResponse::CheckpointWritten { checkpoint_id } => checkpoint_id,
        other => panic!("expected CheckpointWritten, got {other:?}"),
    };
    assert_eq!(seq1, 1, "first checkpoint must set seq to 1");

    // Second apply: same body, different now_at_propose (retry scenario).
    // checkpoint_seq must NOT increment again.
    let resp2 = apply(
        &mut db,
        ConsensusCommand::Checkpoint {
            claim_id,
            stage_idx: 0,
            ipc_bytes: checkpoint_body.clone(),
            schema_id: 1,
            now_at_propose: 99_999, // fresh timestamp — must be ignored
        },
    )
    .unwrap();
    let seq2 = match resp2 {
        ConsensusResponse::CheckpointWritten { checkpoint_id } => checkpoint_id,
        other => panic!("expected CheckpointWritten on retry, got {other:?}"),
    };
    assert_eq!(
        seq2, seq1,
        "retry with fresh now_at_propose must not increment checkpoint_seq"
    );
    let batch = read_master_batch(&db, 1).unwrap().unwrap();
    assert_eq!(
        batch.checkpoint_seq, 1,
        "checkpoint_seq must be exactly 1 after idempotent retry"
    );
}

/// Seeds N batches, completes N-1, asserts find_first_pending_batch
/// visits only the one remaining pending batch.
#[test]
fn test_pending_batches_index_skips_completed() {
    const N: u64 = 10;
    let mut db = Tables::new();
    let inst = fresh_id();
    let mut claim_ids = Vec::new();

    // Register N batches and claim+ack N-1.
    for batch_id in 0..N {
        apply(
        &mut db,
            ConsensusCommand::RegisterMasterBatch {
                batch_id,
                component: format!("comp_{batch_id}"),
                schema_id: 1,
                ipc_bytes: small_ipc(),
                total_rows: 10,
                now_at_propose: 0,
            },
        )
        .unwrap();

        let claim_id = fresh_id();
        claim_ids.push((batch_id, claim_id));
        apply(
        &mut db,
            ConsensusCommand::ClaimRowRange {
                batch_id,
                row_range_start: 0,
                row_range_end: 10,
                claim_id,
                instance_id: inst,
                lease_ttl_millis: 90_000,
                now_at_propose: 1_000,
            },
        )
        .unwrap();
    }

    // Ack all except batch 7 (keep that one pending by releasing it).
    for (batch_id, claim_id) in &claim_ids {
        if *batch_id == 7 {
            apply(
        &mut db,
                ConsensusCommand::ReleaseClaim {
                    claim_id: *claim_id,
                    instance_id: inst,
                },
            )
            .unwrap();
        } else {
            apply(
        &mut db,
                ConsensusCommand::AckClaim {
                    claim_id: *claim_id,
                    instance_id: inst,
                },
            )
            .unwrap();
        }
    }

    // find_first_pending_batch must find batch 7.
    let result = find_first_pending_batch(&db).unwrap();
    assert!(result.is_some(), "must find the pending batch");
    let (found_batch_id, _range) = result.unwrap();
    assert_eq!(
        found_batch_id, 7,
        "must find batch 7, got batch {found_batch_id}"
    );
}

/// `apply_release_claim` increments `release_attempts`.
#[test]
fn test_release_claim_increments_release_attempts() {
    let mut db = Tables::new();
    let (claim_id, instance_id) = seed_claimed_guard(&mut db);

    // Initial state: counter is zero.
    let batch = read_master_batch(&db, 99).unwrap().unwrap();
    assert_eq!(batch.release_attempts, 0);

    // Release the claim — counter bumps to 1.
    apply(
        &mut db,
        ConsensusCommand::ReleaseClaim {
            claim_id,
            instance_id,
        },
    )
    .unwrap();
    let batch = read_master_batch(&db, 99).unwrap().unwrap();
    assert_eq!(batch.release_attempts, 1);
}

/// `apply_ack_claim` resets `release_attempts` to 0.
#[test]
fn test_ack_claim_resets_release_attempts() {
    let mut db = Tables::new();
    let (claim_id, instance_id) = seed_claimed_guard(&mut db);

    // Release the claim a couple of times via release→reclaim cycle
    // to build up attempts.  Simulate by calling the helper directly
    // — easier than spawning expired reclaims in-test.
    db.increment_release_attempts(99);
    db.increment_release_attempts(99);
    db.increment_release_attempts(99);
    assert_eq!(
        read_master_batch(&db, 99)
            .unwrap()
            .unwrap()
            .release_attempts,
        3
    );

    // Now ack the original claim — counter resets.
    apply(
        &mut db,
        ConsensusCommand::AckClaim {
            claim_id,
            instance_id,
        },
    )
    .unwrap();
    let batch = read_master_batch(&db, 99).unwrap().unwrap();
    assert_eq!(batch.release_attempts, 0, "ack must reset counter");
}

/// `apply_reclaim_expired` increments `release_attempts`.
#[test]
fn test_reclaim_expired_increments_release_attempts() {
    let mut db = Tables::new();
    let (_claim_id, _instance_id) = seed_claimed_guard(&mut db);

    // The claim's `lease_expires_at` is `now_at_propose (1_000) +
    // lease_ttl (90_000)` = 91_000.  Propose ReclaimExpired at a
    // later time so the lease is visibly expired.
    apply(
        &mut db,
        ConsensusCommand::ReclaimExpired {
            now_at_propose: 200_000,
        },
    )
    .unwrap();
    let batch = read_master_batch(&db, 99).unwrap().unwrap();
    assert_eq!(
        batch.release_attempts, 1,
        "reclaim_expired must bump release_attempts just like an explicit release"
    );
}

/// late `ReleaseClaim` after `ReclaimExpired` does NOT bump
/// the counter (race-4 safety).  Guarded by the status check in
/// `apply_release_claim`; the retry-cap wiring is inside the
/// success branch so late deliveries hit the guard first.
#[test]
fn test_late_release_after_reclaim_does_not_double_count() {
    let mut db = Tables::new();
    let (claim_id, instance_id) = seed_claimed_guard(&mut db);

    // Reclaim the lease (bumps counter to 1).
    apply(
        &mut db,
        ConsensusCommand::ReclaimExpired {
            now_at_propose: 200_000,
        },
    )
    .unwrap();
    assert_eq!(
        read_master_batch(&db, 99)
            .unwrap()
            .unwrap()
            .release_attempts,
        1
    );

    // A late ReleaseClaim arrives for the same claim — it hits the
    // "not in Claimed state" guard in apply_release_claim and
    // returns Error without mutating.  Counter stays at 1.
    let resp = apply(
        &mut db,
        ConsensusCommand::ReleaseClaim {
            claim_id,
            instance_id,
        },
    )
    .unwrap();
    assert!(
        matches!(resp, ConsensusResponse::Error { .. }),
        "late release against Pending claim must be rejected"
    );
    assert_eq!(
        read_master_batch(&db, 99)
            .unwrap()
            .unwrap()
            .release_attempts,
        1,
        "release_attempts must NOT double-count on late ReleaseClaim after ReclaimExpired"
    );
}

/// `apply_poison_batch` marks status, stamps `poisoned_at`,
/// and removes the batch from `PENDING_BATCHES` so future
/// `claim_next_batch` calls never see it.
#[test]
fn test_poison_batch_marks_status_and_removes_from_pending() {
    let mut db = Tables::new();
    let _ = seed_claimed_guard(&mut db);

    // Poison the batch.
    let resp = apply(
        &mut db,
        ConsensusCommand::PoisonBatch {
            batch_id: 99,
            now_at_propose: 42_000,
        },
    )
    .unwrap();
    match resp {
        ConsensusResponse::BatchPoisoned {
            batch_id,
            poisoned_at,
        } => {
            assert_eq!(batch_id, 99);
            assert_eq!(poisoned_at, 42_000);
        }
        other => panic!("expected BatchPoisoned, got {other:?}"),
    }

    // Master batch record reflects the new state.
    let batch = read_master_batch(&db, 99).unwrap().unwrap();
    assert_eq!(batch.status, BatchStatus::Poisoned);
    assert_eq!(batch.poisoned_at, Some(42_000));

    // `find_first_pending_batch` no longer returns this batch.
    // (seed_claimed_guard only registered batch 99, so the result
    // must be None.)
    let result = find_first_pending_batch(&db).unwrap();
    assert!(
        result.is_none(),
        "poisoned batch must not be returned by find_first_pending_batch, got {result:?}"
    );
}

/// `PoisonBatch` is idempotent and preserves the first-writer
/// `poisoned_at` timestamp.  A concurrent second proposer must not
/// overwrite the first writer's timestamp — otherwise `/status`
/// would show "how long poisoned" jitter as Raft serialises races.
#[test]
fn test_poison_batch_idempotent_preserves_first_writer_timestamp() {
    let mut db = Tables::new();
    let _ = seed_claimed_guard(&mut db);

    // First poison — timestamp 100.
    apply(
        &mut db,
        ConsensusCommand::PoisonBatch {
            batch_id: 99,
            now_at_propose: 100,
        },
    )
    .unwrap();
    // Second poison — timestamp 200.  Must be a no-op.
    let resp = apply(
        &mut db,
        ConsensusCommand::PoisonBatch {
            batch_id: 99,
            now_at_propose: 200,
        },
    )
    .unwrap();
    match resp {
        ConsensusResponse::BatchPoisoned {
            batch_id,
            poisoned_at,
        } => {
            assert_eq!(batch_id, 99);
            assert_eq!(
                poisoned_at, 100,
                "second PoisonBatch must return first-writer poisoned_at"
            );
        }
        other => panic!("expected BatchPoisoned (idempotent), got {other:?}"),
    }
    let batch = read_master_batch(&db, 99).unwrap().unwrap();
    assert_eq!(
        batch.poisoned_at,
        Some(100),
        "first-writer timestamp must be preserved on double-poison"
    );
}

/// `PoisonBatch` against a non-existent batch returns Error.
#[test]
fn test_poison_batch_unknown_id_returns_error() {
    let mut db = Tables::new();
    let resp = apply(
        &mut db,
        ConsensusCommand::PoisonBatch {
            batch_id: 12345,
            now_at_propose: 100,
        },
    )
    .unwrap();
    assert!(
        matches!(resp, ConsensusResponse::Error { .. }),
        "PoisonBatch on unknown batch_id must return Error"
    );
}

/// N consecutive `ReleaseClaim`s accumulate `release_attempts`
/// without any ack in between.  Verifies the counter does not reset
/// unless an explicit ack arrives.
///
/// We need a fresh claim each iteration because `ReleaseClaim`
/// transitions the claim to Pending — re-claiming is what drives
/// the next cycle.
#[test]
fn test_n_releases_accumulate_release_attempts() {
    let mut db = Tables::new();
    let batch_id = 77u64;
    let instance_id = fresh_id();
    apply(
        &mut db,
        ConsensusCommand::RegisterMasterBatch {
            batch_id,
            component: "nrel".to_string(),
            schema_id: 1,
            ipc_bytes: vec![0x01; 64],
            total_rows: 100,
            now_at_propose: 0,
        },
    )
    .unwrap();

    for i in 0..5 {
        let claim_id = fresh_id();
        apply(
        &mut db,
            ConsensusCommand::ClaimRowRange {
                batch_id,
                row_range_start: 0,
                row_range_end: 50,
                claim_id,
                instance_id,
                lease_ttl_millis: 90_000,
                now_at_propose: 1_000,
            },
        )
        .unwrap();
        apply(
        &mut db,
            ConsensusCommand::ReleaseClaim {
                claim_id,
                instance_id,
            },
        )
        .unwrap();
        let batch = read_master_batch(&db, batch_id).unwrap().unwrap();
        assert_eq!(
            batch.release_attempts,
            (i + 1) as u32,
            "after {} releases counter must be {}",
            i + 1,
            i + 1
        );
    }
}

/// a claim that's acked after some failures doesn't leave
/// a stale counter — next failure starts from 1, not N+1.  This
/// test combines reset-on-ack with a subsequent failure to prove
/// the reset is real and not just a zero-check.
#[test]
fn test_reset_on_ack_then_new_failure_starts_from_one() {
    let mut db = Tables::new();
    let batch_id = 88u64;
    let instance_id = fresh_id();
    apply(
        &mut db,
        ConsensusCommand::RegisterMasterBatch {
            batch_id,
            component: "cycle".to_string(),
            schema_id: 1,
            ipc_bytes: vec![0x02; 64],
            total_rows: 100,
            now_at_propose: 0,
        },
    )
    .unwrap();

    // Three failures: claim → release × 3.
    for _ in 0..3 {
        let claim_id = fresh_id();
        apply(
        &mut db,
            ConsensusCommand::ClaimRowRange {
                batch_id,
                row_range_start: 0,
                row_range_end: 50,
                claim_id,
                instance_id,
                lease_ttl_millis: 90_000,
                now_at_propose: 1_000,
            },
        )
        .unwrap();
        apply(
        &mut db,
            ConsensusCommand::ReleaseClaim {
                claim_id,
                instance_id,
            },
        )
        .unwrap();
    }
    assert_eq!(
        read_master_batch(&db, batch_id)
            .unwrap()
            .unwrap()
            .release_attempts,
        3
    );

    // One success: claim → ack.
    let ok_claim = fresh_id();
    apply(
        &mut db,
        ConsensusCommand::ClaimRowRange {
            batch_id,
            row_range_start: 0,
            row_range_end: 50,
            claim_id: ok_claim,
            instance_id,
            lease_ttl_millis: 90_000,
            now_at_propose: 1_000,
        },
    )
    .unwrap();
    apply(
        &mut db,
        ConsensusCommand::AckClaim {
            claim_id: ok_claim,
            instance_id,
        },
    )
    .unwrap();
    assert_eq!(
        read_master_batch(&db, batch_id)
            .unwrap()
            .unwrap()
            .release_attempts,
        0,
        "ack resets counter"
    );

    // Note: row range [0,50) is now marked Completed on the secondary
    // index (via the successful ack).  Register a second batch to
    // exercise the new-failure path — we need a fresh (non-completed)
    // row range.  The test's point is that after a reset, a fresh
    // failure on a different batch starts from 1, which proves the
    // counter was zeroed, not that it carried a reset sentinel.
    let fresh_batch = 89u64;
    apply(
        &mut db,
        ConsensusCommand::RegisterMasterBatch {
            batch_id: fresh_batch,
            component: "cycle2".to_string(),
            schema_id: 1,
            ipc_bytes: vec![0x03; 64],
            total_rows: 100,
            now_at_propose: 0,
        },
    )
    .unwrap();
    let claim_id = fresh_id();
    apply(
        &mut db,
        ConsensusCommand::ClaimRowRange {
            batch_id: fresh_batch,
            row_range_start: 0,
            row_range_end: 50,
            claim_id,
            instance_id,
            lease_ttl_millis: 90_000,
            now_at_propose: 1_000,
        },
    )
    .unwrap();
    apply(
        &mut db,
        ConsensusCommand::ReleaseClaim {
            claim_id,
            instance_id,
        },
    )
    .unwrap();
    assert_eq!(
        read_master_batch(&db, fresh_batch)
            .unwrap()
            .unwrap()
            .release_attempts,
        1,
        "new batch starts from zero and counts its first failure as 1"
    );
}

fn register(batch_id: u64, total_rows: u32) -> ConsensusCommand {
    ConsensusCommand::RegisterMasterBatch {
        batch_id,
        component: "x".to_string(),
        schema_id: 1,
        ipc_bytes: small_ipc(),
        total_rows,
        now_at_propose: 0,
    }
}

fn claim(batch_id: u64, rows: (u32, u32), claim_id: u128, ttl: u64) -> ConsensusCommand {
    ConsensusCommand::ClaimRowRange {
        batch_id,
        row_range_start: rows.0,
        row_range_end: rows.1,
        claim_id,
        instance_id: 7,
        lease_ttl_millis: ttl,
        now_at_propose: 0,
    }
}

#[test]
fn a_refused_command_changes_no_row() {
    let mut db = Tables::new();
    apply(&mut db, register(1, 100)).unwrap();
    apply(&mut db, claim(1, (10, 20), 1, 50)).unwrap();
    let before = dump_state(&db).unwrap();
    let refused = vec![
        (
            claim(1, (5, 5), 2, 50),
            "invalid row_range: start 5 >= end 5",
        ),
        (claim(2, (0, 5), 2, 50), "batch_id 2 not found"),
        (
            claim(1, (90, 101), 2, 50),
            "row_range [90, 101) exceeds total_rows 100",
        ),
        (
            claim(1, (19, 25), 2, 50),
            "row_range [19, 25) overlaps an existing active claim",
        ),
        (
            ConsensusCommand::AckClaim {
                claim_id: 1,
                instance_id: 8,
            },
            "claim 00000000-0000-0000-0000-000000000001 held by different instance",
        ),
        (
            ConsensusCommand::RenewClaim {
                claim_id: 1,
                instance_id: 7,
                lease_ttl_millis: 50,
                now_at_propose: 51,
            },
            "claim 00000000-0000-0000-0000-000000000001 lease has already expired",
        ),
        (
            ConsensusCommand::PoisonBatch {
                batch_id: 9,
                now_at_propose: 0,
            },
            "PoisonBatch: batch_id 9 not found",
        ),
    ];
    for (command, expected) in refused {
        let response = apply(&mut db, command).unwrap();
        assert_eq!(
            response,
            ConsensusResponse::Error {
                message: expected.to_string()
            }
        );
        assert_eq!(dump_state(&db).unwrap(), before);
    }
}

#[test]
fn rows_found_pending_can_be_claimed() {
    let mut db = Tables::new();
    apply(&mut db, register(3, 100)).unwrap();
    apply(&mut db, claim(3, (0, 10), 1, 50)).unwrap();
    apply(&mut db, claim(3, (40, 60), 2, 50)).unwrap();

    let mut next_id = 3;
    let mut handed_out = Vec::new();
    while let Some((batch_id, rows)) = find_first_pending_batch(&db).unwrap() {
        let response = apply(&mut db, claim(batch_id, rows, next_id, 50)).unwrap();
        assert!(
            matches!(response, ConsensusResponse::BatchClaimed { .. }),
            "{response:?}"
        );
        handed_out.push((batch_id, rows));
        next_id += 1;
    }
    assert_eq!(handed_out, vec![(3, (10, 40)), (3, (60, 100))]);
}

#[test]
fn a_sweep_counts_every_claim_of_a_batch() {
    let mut db = Tables::new();
    apply(&mut db, register(1, 100)).unwrap();
    apply(&mut db, register(2, 100)).unwrap();
    apply(&mut db, claim(1, (0, 10), 1, 50)).unwrap();
    apply(&mut db, claim(1, (10, 20), 2, 50)).unwrap();
    apply(&mut db, claim(2, (0, 10), 3, 50)).unwrap();
    apply(&mut db, claim(2, (10, 20), 4, 500)).unwrap();

    let response = apply(
        &mut db,
        ConsensusCommand::ReclaimExpired {
            now_at_propose: 100,
        },
    )
    .unwrap();
    assert_eq!(
        response,
        ConsensusResponse::ExpiredReclaimed { reclaimed_count: 3 }
    );
    let attempts = |id: u64| read_master_batch(&db, id).unwrap().unwrap().release_attempts;
    assert_eq!(attempts(1), 2);
    assert_eq!(attempts(2), 1);
    assert_eq!(
        read_claim(&db, 4).unwrap().unwrap().status,
        ClaimStatus::Claimed
    );
}

#[test]
fn a_completed_claim_keeps_its_rows() {
    let mut db = Tables::new();
    apply(&mut db, register(1, 10)).unwrap();
    apply(&mut db, claim(1, (0, 10), 1, 50)).unwrap();
    apply(
        &mut db,
        ConsensusCommand::AckClaim {
            claim_id: 1,
            instance_id: 7,
        },
    )
    .unwrap();
    apply(
        &mut db,
        ConsensusCommand::ReclaimExpired {
            now_at_propose: 1000,
        },
    )
    .unwrap();
    assert_eq!(
        read_claim(&db, 1).unwrap().unwrap().status,
        ClaimStatus::Completed
    );
    let response = apply(&mut db, claim(1, (0, 1), 2, 50)).unwrap();
    assert_eq!(
        response,
        ConsensusResponse::Error {
            message: "row_range [0, 1) overlaps an existing active claim".to_string()
        }
    );
}

fn ack(claim_id: u128) -> ConsensusCommand {
    ConsensusCommand::AckClaim {
        claim_id,
        instance_id: 7,
    }
}

#[test]
fn rows_never_claimed_stay_pending_after_an_ack() {
    let mut db = Tables::new();
    apply(&mut db, register(99, 100)).unwrap();
    apply(&mut db, claim(99, (0, 50), 1, 90_000)).unwrap();
    apply(&mut db, ack(1)).unwrap();
    assert_eq!(find_first_pending_batch(&db).unwrap(), Some((99, (50, 100))));

    apply(&mut db, claim(99, (50, 100), 2, 90_000)).unwrap();
    apply(&mut db, ack(2)).unwrap();
    assert_eq!(find_first_pending_batch(&db).unwrap(), None);
    assert!(!db.pending.contains(99));
}

#[test]
fn a_poisoned_batch_stays_away_after_a_restore() {
    let mut db = Tables::new();
    apply(&mut db, register(98, 10)).unwrap();
    apply(&mut db, register(99, 100)).unwrap();
    apply(
        &mut db,
        ConsensusCommand::PoisonBatch {
            batch_id: 99,
            now_at_propose: 42_000,
        },
    )
    .unwrap();
    let (batches, claims, checkpoints, instances) = dump_state(&db).unwrap();
    let mut other = Tables::new();
    restore_state(&mut other, batches, claims, checkpoints, instances, None).unwrap();
    assert_eq!(find_first_pending_batch(&other).unwrap(), Some((98, (0, 10))));
    apply(&mut other, claim(98, (0, 10), 1, 50)).unwrap();
    assert_eq!(find_first_pending_batch(&other).unwrap(), None);
}

#[test]
fn the_id_of_a_completed_claim_is_not_used_again() {
    let mut db = Tables::new();
    apply(&mut db, register(1, 100)).unwrap();
    apply(&mut db, claim(1, (0, 50), 1, 30_000)).unwrap();
    apply(&mut db, ack(1)).unwrap();
    let before = dump_state(&db).unwrap();
    assert_eq!(
        apply(&mut db, claim(1, (50, 100), 1, 30_000)).unwrap(),
        ConsensusResponse::Error {
            message: "claim 00000000-0000-0000-0000-000000000001 already exists with other rows"
                .to_string()
        }
    );
    assert_eq!(dump_state(&db).unwrap(), before);
    let response = apply(&mut db, claim(1, (0, 50), 2, 30_000)).unwrap();
    assert!(
        matches!(response, ConsensusResponse::Error { .. }),
        "completed rows are never issued again: {response:?}"
    );
}

#[test]
fn a_released_claim_moves_with_its_index_entry() {
    let mut db = Tables::new();
    apply(&mut db, register(1, 100)).unwrap();
    apply(&mut db, register(2, 100)).unwrap();
    apply(&mut db, claim(1, (0, 50), 5, 30_000)).unwrap();
    apply(
        &mut db,
        ConsensusCommand::ReleaseClaim {
            claim_id: 5,
            instance_id: 7,
        },
    )
    .unwrap();
    let response = apply(&mut db, claim(2, (10, 20), 5, 30_000)).unwrap();
    assert!(
        matches!(response, ConsensusResponse::BatchClaimed { batch_id: 2, .. }),
        "{response:?}"
    );
    assert_eq!(index_value(&db, 1, 5), None);
    assert_eq!(
        index_value(&db, 2, 5),
        Some(claims_by_batch_value(10, 20, ClaimStatus::Claimed))
    );
    assert_eq!(db.index.len(), 1);
}

#[test]
fn the_rows_a_command_changes_are_listed() {
    let mut db = Tables::new();
    apply(&mut db, register(1, 100)).unwrap();
    apply(&mut db, claim(1, (0, 50), 5, 30_000)).unwrap();
    let t = Touched::of(&db, &ack(5));
    assert_eq!(t.batches, vec![1]);
    assert_eq!(t.claims, vec![5]);
    assert_eq!(
        t.index,
        vec![IndexKey {
            batch_id: 1,
            claim_id: 5
        }]
    );
    assert!(t.checkpoints.is_empty() && t.instances.is_empty());

    let all = Touched::all(&db).and(Touched::of(
        &db,
        &ConsensusCommand::Heartbeat {
            instance_id: 9,
            at: 1,
        },
    ));
    assert_eq!(all.claims, vec![5]);
    assert_eq!(all.instances, vec![9]);
    assert!(Touched::none().batches.is_empty());
}

fn poison(batch_id: u64, now_at_propose: u64) -> ConsensusCommand {
    ConsensusCommand::PoisonBatch {
        batch_id,
        now_at_propose,
    }
}

#[test]
fn poisoning_is_for_good() {
    let mut db = Tables::new();
    apply(&mut db, register(99, 100)).unwrap();
    let granted = apply(&mut db, claim(99, (0, 50), 1, 30_000)).unwrap();
    apply(&mut db, poison(99, 42_000)).unwrap();
    assert_eq!(
        apply(&mut db, claim(99, (50, 100), 2, 30_000)).unwrap(),
        ConsensusResponse::Error {
            message: "batch_id 99 is poisoned".to_string()
        }
    );
    assert_eq!(
        apply(&mut db, register(99, 100)).unwrap(),
        ConsensusResponse::Error {
            message: "RegisterMasterBatch: batch_id 99 is poisoned".to_string()
        }
    );
    assert_eq!(
        apply(&mut db, claim(99, (0, 50), 1, 30_000)).unwrap(),
        granted,
        "a claim that was granted before is answered as then"
    );
    let batch = read_master_batch(&db, 99).unwrap().unwrap();
    assert_eq!(batch.poisoned_at, Some(42_000));
    assert_eq!(find_first_pending_batch(&db).unwrap(), None);
}

#[test]
fn a_batch_registered_again_with_fewer_rows_offers_only_its_own() {
    let mut db = Tables::new();
    apply(&mut db, register(1, 100)).unwrap();
    apply(&mut db, claim(1, (50, 100), 1, 30_000)).unwrap();
    apply(&mut db, register(1, 10)).unwrap();
    assert_eq!(find_first_pending_claim(&db, 1).unwrap(), Some((0, 10)));
    apply(&mut db, claim(1, (0, 10), 2, 30_000)).unwrap();
    assert_eq!(find_first_pending_claim(&db, 1).unwrap(), None);
}

#[test]
fn only_what_would_be_granted_must_stay_in_range() {
    let mut db = Tables::new();
    apply(&mut db, register(1, 100)).unwrap();
    let far = |rows: (u32, u32)| ConsensusCommand::ClaimRowRange {
        batch_id: 1,
        row_range_start: rows.0,
        row_range_end: rows.1,
        claim_id: 9,
        instance_id: 7,
        lease_ttl_millis: u64::MAX,
        now_at_propose: 1,
    };
    assert!(!is_in_range(&db, &far((0, 50))));
    assert!(is_in_range(&db, &far((0, 101))), "refused, so not counted");
    assert!(is_in_range(&db, &far((50, 50))));
    apply(&mut db, claim(1, (0, 50), 1, 30_000)).unwrap();
    assert!(is_in_range(&db, &far((10, 20))), "the rows are taken");
    let renew = |claim_id, now_at_propose| ConsensusCommand::RenewClaim {
        claim_id,
        instance_id: 7,
        lease_ttl_millis: u64::MAX,
        now_at_propose,
    };
    assert!(!is_in_range(&db, &renew(1, 1)));
    assert!(is_in_range(&db, &renew(2, 1)));
    assert!(is_in_range(&db, &renew(1, u64::MAX)));
}

#[test]
fn a_held_claim_is_answered_again_with_its_stored_lease() {
    let mut db = Tables::new();
    apply(&mut db, register(1, 100)).unwrap();
    apply(&mut db, register(2, 10)).unwrap();
    let granted = apply(&mut db, claim(1, (0, 50), 1, 30_000)).unwrap();
    apply(&mut db, claim(2, (0, 10), 2, 10)).unwrap();
    let before = dump_state(&db).unwrap();
    assert_eq!(apply(&mut db, claim(1, (0, 50), 1, 77)).unwrap(), granted);
    let other = ConsensusCommand::ClaimRowRange {
        batch_id: 1,
        row_range_start: 0,
        row_range_end: 50,
        claim_id: 1,
        instance_id: 8,
        lease_ttl_millis: 30_000,
        now_at_propose: 0,
    };
    assert!(matches!(
        apply(&mut db, other).unwrap(),
        ConsensusResponse::Error { .. }
    ));
    assert_eq!(dump_state(&db).unwrap(), before);
}

#[test]
fn replicas_that_apply_the_same_log_agree() {
    let log = || {
        vec![
            register(2, 10),
            register(1, 100),
            claim(1, (0, 50), 5, 100),
            claim(1, (40, 60), 6, 100),
            claim(2, (0, 10), 3, 100),
            ConsensusCommand::AckClaim { claim_id: 3, instance_id: 7 },
            ConsensusCommand::ReleaseClaim { claim_id: 5, instance_id: 7 },
            claim(1, (0, 50), 5, 100),
        ]
    };
    let run = || {
        let mut db = Tables::new();
        let answers: Vec<ConsensusResponse> =
            log().into_iter().map(|c| apply(&mut db, c).unwrap()).collect();
        (answers, dump_state(&db).unwrap())
    };
    let (answers, dump) = run();
    assert_eq!(run(), (answers, dump));
}
