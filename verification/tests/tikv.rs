use pcs_service::checkpoint::default_max_checkpoint_bytes;
use pcs_service::consensus::types::MAX_LOG_ENTRY_BYTES;
use pcs_service::text::{hex_u32, hex_u64};
use pcs_service::tikv::keys::{
    all_rows_prefix, batch_key, batches_prefix, checkpoint_key, claim_key, config_key, cursor_key,
    hex_uuid, key_after, parse_hex_tail, prior_key, rows_key, rows_prefix, scan_end, scan_next,
    schema_id_key, ScanNext,
};
use pcs_service::tikv::store::{
    check_checkpoint, check_registration, checkpoint_record, completed_range, loaded_checkpoint,
    new_master_batch, plan_row_ranges, reclaim_range, release_outcome, released_range,
    renew_index, renew_outcome, renew_range, updates_schema_ledger, ClaimAsk, ClaimIndexRecord,
    ClaimScan, RowRangeRecord, RowRangeStatus, TIKV_MAX_CHECKPOINT_BYTES, TIKV_ROWS_PER_RANGE,
};

#[test]
fn test_hex_ordering_is_bytewise() {
    assert!(hex_u64(9) < hex_u64(10));
    assert!(hex_u32(0x00FF_FFFF) < hex_u32(0x0100_0000));
    assert_eq!(hex_u64(42).len(), 16);
    assert_eq!(hex_u32(42).len(), 8);
}

#[test]
fn test_key_layout_is_stable() {
    let claim = 0xDEAD_BEEF_u128;
    assert_eq!(batch_key("pcs", 1), "pcs/batch/0000000000000001");
    assert_eq!(rows_key("pcs", 1, 0), "pcs/rows/0000000000000001/00000000");
    assert_eq!(
        claim_key("pcs", claim),
        format!("pcs/claim/{:032x}", 0xDEAD_BEEF_u128)
    );
    assert_eq!(
        checkpoint_key("pcs", claim, 3),
        format!("pcs/checkpoint/{:032x}/00000003", 0xDEAD_BEEF_u128)
    );
    assert_eq!(schema_id_key("pcs"), "pcs/meta/schema_id");
}

#[test]
fn test_parse_hex_tail_round_trips() {
    assert_eq!(parse_hex_tail("pcs/batch/000000000000000A"), Some(10));
    assert_eq!(
        parse_hex_tail("pcs/rows/0000000000000001/00000020"),
        Some(0x20)
    );
    assert_eq!(parse_hex_tail("pcs/batch/"), None);
}

#[test]
fn test_tikv_checkpoint_cap_constant() {
    assert_eq!(TIKV_MAX_CHECKPOINT_BYTES, 4 * 1024 * 1024);
    assert_eq!(TIKV_ROWS_PER_RANGE, 512);
}

#[test]
fn test_key_after_appends_zero() {
    assert_eq!(key_after(b"abc"), b"abc\0");
}

#[test]
fn test_max_checkpoint_bytes_default_vs_override() {
    assert_eq!(
        default_max_checkpoint_bytes(),
        MAX_LOG_ENTRY_BYTES,
        "the trait default is the shared 1 MiB payload cap"
    );
    assert!(TIKV_MAX_CHECKPOINT_BYTES > default_max_checkpoint_bytes());
}

#[test]
fn batches_are_split_into_ranges() {
    let ranges = plan_row_ranges(1_300);
    let bounds: Vec<(u32, u32)> = ranges.iter().map(|(s, r)| (*s, r.end)).collect();
    assert_eq!(bounds, vec![(0, 512), (512, 1_024), (1_024, 1_300)]);
    assert!(ranges
        .iter()
        .all(|(_, r)| r.status == RowRangeStatus::Pending.code() && r.claim_id == 0));
    assert!(plan_row_ranges(0).is_empty());
    assert_eq!(plan_row_ranges(512).len(), 1);
    for row in 0..1_300u32 {
        assert_eq!(
            bounds.iter().filter(|(s, e)| *s <= row && row < *e).count(),
            1
        );
    }
}

#[test]
fn registrations_are_checked() {
    assert!(check_registration(3, MAX_LOG_ENTRY_BYTES - 1, false).is_ok());
    let err = check_registration(3, MAX_LOG_ENTRY_BYTES, true).unwrap_err();
    assert_eq!(err.category(), "configuration");
    assert_eq!(
        err.message(),
        "master batch 3: ipc payload 1048576 bytes exceeds the 1048576 byte limit"
    );
    let err = check_registration(3, 1, true).unwrap_err();
    assert_eq!(err.message(), "master batch 3 already registered");
    let batch = new_master_batch("orders".to_string(), 2, vec![7], 9, 11);
    assert!(!batch.poisoned);
    assert_eq!(batch.created_at_ms, 11);
}

fn pending(end: u32) -> RowRangeRecord {
    RowRangeRecord {
        end,
        status: RowRangeStatus::Pending.code(),
        claim_id: 0,
        instance_id: 0,
        lease_expires_at_ms: 0,
    }
}

fn claimed(end: u32, claim_id: u128, instance_id: u128, until: u64) -> RowRangeRecord {
    RowRangeRecord {
        end,
        status: RowRangeStatus::Claimed.code(),
        claim_id,
        instance_id,
        lease_expires_at_ms: until,
    }
}

#[test]
fn a_claim_scan_passes_over_what_cannot_be_claimed() {
    let keys = vec![
        "pcs/batch/no-number".to_string(),
        batch_key("pcs", 1),
        batch_key("pcs", 2),
    ];
    let mut scan = ClaimScan::new(keys, 70, 500);
    assert_eq!(*scan.ask(), ClaimAsk::DecodeBatch { at: 1, batch_id: 1 });
    scan.on_batch(true);
    assert_eq!(*scan.ask(), ClaimAsk::DecodeBatch { at: 2, batch_id: 2 });
    scan.on_batch(false);
    assert_eq!(*scan.ask(), ClaimAsk::ScanRows { batch_id: 2 });
    scan.on_rows(vec![
        rows_key("pcs", 2, 0),
        rows_key("pcs", 2, 512),
        rows_key("pcs", 2, 1024),
    ]);
    assert_eq!(*scan.ask(), ClaimAsk::DecodeRow { at: 0, start: 0 });
    scan.on_row(claimed(512, 5, 6, 7), 81, 1_000);
    assert_eq!(*scan.ask(), ClaimAsk::DecodeRow { at: 1, start: 512 });
    scan.on_row(pending(1024), 82, 1_000);
    assert_eq!(
        *scan.ask(),
        ClaimAsk::Swap {
            at: 1,
            claimed: claimed(1024, 82, 70, 1_500)
        }
    );
    scan.on_swapped(false);
    assert_eq!(*scan.ask(), ClaimAsk::DecodeRow { at: 2, start: 1024 });
    scan.on_row(pending(1100), 83, 2_000);
    scan.on_swapped(true);
    assert_eq!(
        *scan.ask(),
        ClaimAsk::PutIndex {
            claim_id: 83,
            index: ClaimIndexRecord {
                batch_id: 2,
                start: 1024
            }
        }
    );
    scan.on_index_put();
    assert_eq!(*scan.ask(), ClaimAsk::ReadMaster { batch_id: 2 });
    scan.on_master(Some(("orders".to_string(), 4))).unwrap();
    let claim = scan.into_claim().unwrap();
    assert_eq!((claim.batch_id, claim.schema_id), (2, 4));
    assert_eq!((claim.row_range_start, claim.row_range_end), (1024, 1100));
    assert_eq!((claim.claim_id, claim.instance_id), (83, 70));
    assert_eq!(claim.lease_expires_at, 2_500);
    assert_eq!(claim.component, "orders");
}

#[test]
fn a_claim_scan_ends_with_nothing_or_an_error() {
    let scan = ClaimScan::new(Vec::new(), 1, 1);
    assert_eq!(*scan.ask(), ClaimAsk::Nothing);
    assert!(scan.into_claim().is_none());

    let mut scan = ClaimScan::new(vec![batch_key("pcs", 7)], 1, 1);
    scan.on_batch(false);
    scan.on_rows(Vec::new());
    assert_eq!(*scan.ask(), ClaimAsk::Nothing);

    let mut scan = ClaimScan::new(vec![batch_key("pcs", 7)], 1, 1);
    scan.on_batch(false);
    scan.on_rows(vec![rows_key("pcs", 7, 0)]);
    scan.on_row(pending(3), 2, 0);
    scan.on_swapped(true);
    scan.on_index_put();
    let err = scan.on_master(None).unwrap_err();
    assert_eq!(err.message(), "tikv: master batch 7 missing after claim");
}

#[test]
fn only_a_live_lease_is_renewed() {
    let row = claimed(10, 1, 2, 100);
    let renewed = renew_range(1, 2, Some(row), 99, 99, 50).unwrap();
    assert_eq!(renewed, claimed(10, 1, 2, 149));
    assert_eq!(renew_outcome(1, renewed, true).unwrap(), 149);
    let id = "00000000-0000-0000-0000-000000000001";
    assert_eq!(
        renew_outcome(1, renewed, false).unwrap_err().message(),
        format!("tikv: renew lost a race for claim {id}")
    );
    assert_eq!(
        renew_range(1, 2, Some(row), 100, 100, 50).unwrap_err().message(),
        format!("tikv: claim {id} lease expired at 100; reclaiming requires reclaim_expired")
    );
    assert_eq!(
        renew_range(1, 3, Some(row), 99, 99, 50).unwrap_err().message(),
        format!(
            "tikv: claim {id} is no longer held by instance 00000000-0000-0000-0000-000000000003"
        )
    );
    assert_eq!(
        renew_range(1, 2, None, 99, 99, 50).unwrap_err().message(),
        format!("tikv: row range for claim {id} missing; cannot renew")
    );
    assert_eq!(
        renew_index(1, None).unwrap_err().message(),
        format!("tikv: claim {id} not found; cannot renew")
    );
    let index = ClaimIndexRecord {
        batch_id: 4,
        start: 5,
    };
    assert_eq!(renew_index(1, Some(index)).unwrap().start, 5);
}

#[test]
fn ranges_are_settled_and_swept() {
    let row = claimed(10, 1, 2, 100);
    assert_eq!(completed_range(row).status, RowRangeStatus::Completed.code());
    assert_eq!(completed_range(row).claim_id, 1);
    assert_eq!(released_range(row), pending(10));
    assert!(release_outcome(1, true).is_ok());
    assert_eq!(
        release_outcome(1, false).unwrap_err().message(),
        "tikv: release lost a race for claim 00000000-0000-0000-0000-000000000001"
    );
    assert_eq!(reclaim_range(row, 99), None);
    assert_eq!(reclaim_range(row, 100), Some((1, pending(10))));
    assert_eq!(reclaim_range(pending(10), 100), None);
}

#[test]
fn a_lease_is_either_renewable_or_swept() {
    let row = claimed(10, 1, 2, 100);
    for now in 90..110u64 {
        assert_ne!(
            renew_range(1, 2, Some(row), now, now, 5).is_ok(),
            reclaim_range(row, now).is_some()
        );
    }
}

#[test]
fn checkpoints_are_bounded_and_need_a_claim() {
    assert!(check_checkpoint(TIKV_MAX_CHECKPOINT_BYTES).is_ok());
    assert_eq!(
        check_checkpoint(TIKV_MAX_CHECKPOINT_BYTES + 1)
            .unwrap_err()
            .message(),
        "save_checkpoint: ipc_bytes (4194305 bytes) exceeds TIKV_MAX_CHECKPOINT_BYTES \
         (4194304). Split per component."
    );
    let err = checkpoint_record(1, None, 0, vec![], 1, 5).unwrap_err();
    assert_eq!(
        err.message(),
        "tikv: claim 00000000-0000-0000-0000-000000000001 not found; cannot save checkpoint"
    );
    let index = ClaimIndexRecord {
        batch_id: 4,
        start: 5,
    };
    let record = checkpoint_record(1, Some(index), 3, vec![8], 2, 5).unwrap();
    let loaded = loaded_checkpoint(record);
    assert_eq!((loaded.batch_id, loaded.stage_idx), (4, 3));
    assert_eq!((loaded.schema_id, loaded.created_at), (2, 5));
    assert_eq!(loaded.payload, vec![8]);
    assert!(updates_schema_ledger(u32::MAX - 2));
    assert!(!updates_schema_ledger(u32::MAX - 1));
    assert!(!updates_schema_ledger(u32::MAX));
}

#[test]
fn keys_are_kept_apart_by_their_prefix() {
    assert_eq!(batches_prefix("pcs"), "pcs/batch/");
    assert_eq!(all_rows_prefix("pcs"), "pcs/rows/");
    assert_eq!(rows_prefix("pcs", 1), "pcs/rows/0000000000000001");
    assert_eq!(config_key("pcs", "ttl"), "pcs/config/ttl");
    assert_eq!(prior_key("pcs", "w", "n"), "pcs/cursor/w/n/prior");
    assert_eq!(cursor_key("pcs", "w", "s"), "pcs/cursor/w/s/meta");
    assert_eq!(
        hex_uuid(0xDEAD_BEEF),
        "000000000000000000000000deadbeef"
    );
    assert!(key_after(b"abc").as_slice() > b"abc".as_slice());
    assert_eq!(scan_end(b"pcs/"), b"pcs0");
}

#[test]
fn a_full_page_is_followed_by_another() {
    assert_eq!(scan_next(0, None), ScanNext::Done);
    assert_eq!(scan_next(1023, Some(b"k")), ScanNext::Done);
    assert_eq!(
        scan_next(1024, Some(b"k")),
        ScanNext::Resume(b"k\0".to_vec())
    );
}
