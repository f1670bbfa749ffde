use pcs_service::consensus::state_machine::{read_master_batch, Tables};
use pcs_service::consensus::storage::{
    validate_store_consistency, AppEntry, AppStateMachine, ArrowRedbLogStore,
    ArrowRedbStateMachine, Bound, CommittedEntry, EntryData, EntryPayload, LogId, LogRow,
    SnapshotRows, Vote,
};
use pcs_service::consensus::types::{ConsensusCommand, ConsensusResponse};
use pcs_service::error::PcsError;

fn log_id(term: u64, index: u64) -> LogId {
    LogId {
        term,
        node_id: 1,
        index,
    }
}

fn blank_entry(index: u64) -> LogRow {
    LogRow {
        log_id: log_id(1, index),
        payload: Vec::new(),
    }
}

fn range(from: u64, to: u64) -> (Bound, Bound) {
    (Bound::Included(from), Bound::Excluded(to))
}

#[test]
fn storage_test_empty_state() {
    let store = ArrowRedbLogStore::new();
    let state = store.get_log_state();
    assert!(state.last_purged_log_id.is_none());
    assert!(state.last_log_id.is_none());
}

#[test]
fn test_vote_round_trip() {
    let mut store = ArrowRedbLogStore::new();
    let vote = Vote {
        term: 1,
        node_id: 2,
        committed: false,
    };
    store.save_vote(&vote);
    assert_eq!(store.read_vote(), Some(vote));
}

#[test]
fn test_append_and_read() {
    let mut store = ArrowRedbLogStore::new();
    store.append(&vec![blank_entry(1), blank_entry(2), blank_entry(3)]);
    let (a, b) = range(1, 4);
    let read = store.try_get_log_entries(a, b);
    assert_eq!(read.len(), 3);
    assert_eq!(read[0].log_id.index, 1);
}

#[test]
fn ranges_take_either_kind_of_bound() {
    let mut store = ArrowRedbLogStore::new();
    store.append(&vec![blank_entry(1), blank_entry(2), blank_entry(4)]);
    let indices = |rows: Vec<LogRow>| -> Vec<u64> { rows.iter().map(|r| r.log_id.index).collect() };
    assert_eq!(
        indices(store.try_get_log_entries(Bound::Unbounded, Bound::Unbounded)),
        vec![1, 2, 4]
    );
    assert_eq!(
        indices(store.try_get_log_entries(Bound::Excluded(1), Bound::Included(4))),
        vec![2, 4]
    );
    assert_eq!(
        indices(store.try_get_log_entries(Bound::Excluded(u64::MAX), Bound::Unbounded)),
        Vec::<u64>::new()
    );
}

#[test]
fn test_truncate() {
    let mut store = ArrowRedbLogStore::new();
    store.append(&vec![blank_entry(1), blank_entry(2), blank_entry(3)]);
    store.truncate_after(Some(log_id(1, 1)));
    let (a, b) = range(0, 10);
    assert_eq!(store.try_get_log_entries(a, b).len(), 1);
    store.truncate_after(None);
    assert_eq!(store.try_get_log_entries(a, b).len(), 0);
}

#[test]
fn test_purge() {
    let mut store = ArrowRedbLogStore::new();
    store.append(&vec![blank_entry(1), blank_entry(2), blank_entry(3)]);
    store.purge(log_id(1, 2));
    let state = store.get_log_state();
    assert_eq!(state.last_purged_log_id.unwrap().index, 2);
    assert_eq!(state.last_log_id.unwrap().index, 3);
    store.purge(log_id(1, 3));
    assert_eq!(store.get_log_state().last_log_id.unwrap().index, 3);
}

#[test]
fn truncate_after_removes_tail() {
    let mut store = ArrowRedbLogStore::new();
    store.append(&vec![
        blank_entry(1),
        blank_entry(2),
        blank_entry(3),
        blank_entry(4),
    ]);
    store.truncate_after(Some(log_id(1, 2)));
    let (a, b) = range(1, 10);
    let remaining = store.try_get_log_entries(a, b);
    assert_eq!(remaining.len(), 2, "only indices 1 and 2 should remain");
    assert_eq!(remaining[0].log_id.index, 1);
    assert_eq!(remaining[1].log_id.index, 2);
}

fn register(batch_id: u64, component: &str, total_rows: u32) -> ConsensusCommand {
    ConsensusCommand::RegisterMasterBatch {
        batch_id,
        component: component.to_string(),
        schema_id: 1,
        ipc_bytes: vec![0u8; 32],
        total_rows,
        now_at_propose: 0,
    }
}

fn open_machine(tables: Tables) -> ArrowRedbStateMachine<Vec<u64>> {
    ArrowRedbStateMachine::open(tables, None, Vec::new()).unwrap()
}

fn normal(term: u64, index: u64, cmd: ConsensusCommand) -> CommittedEntry<Vec<u64>> {
    CommittedEntry {
        log_id: log_id(term, index),
        payload: EntryPayload::Normal(cmd),
    }
}

#[test]
fn test_state_machine_apply_advances_last_applied_on_success() {
    let mut sm = open_machine(Tables::new());
    assert!(sm.last_applied.is_none(), "fresh SM: last_applied is None");
    let applied = sm.apply(vec![Ok(normal(1, 5, register(42, "task3", 10)))]);
    assert_eq!(applied.failure, None);
    assert_eq!(
        sm.last_applied.map(|l| l.index),
        Some(5),
        "last_applied must advance after successful apply"
    );
    let record =
        read_master_batch(&sm.db, 42).expect("master batch 42 must exist after apply");
    assert_eq!(record.component, "task3");
    assert_eq!(record.total_rows, 10);
}

#[test]
fn test_applied_state_returns_persisted_values_after_restart() {
    let mut sm = open_machine(Tables::new());
    let ack = ConsensusCommand::AckClaim {
        claim_id: 0,
        instance_id: 0,
    };
    let applied = sm.apply(vec![
        Ok(normal(1, 3, ack)),
        Ok(CommittedEntry {
            log_id: log_id(1, 4),
            payload: EntryPayload::Membership(vec![1, 2]),
        }),
    ]);
    assert_eq!(applied.failure, None);
    assert_eq!(applied.responses.len(), 2);
    assert_eq!(applied.responses[1], ConsensusResponse::ClaimAcked);
    sm.persist_sm_meta(vec![9, 9]).unwrap();
    assert_eq!(sm.db.last_membership, Some(vec![9, 9]));

    let reopened: ArrowRedbStateMachine<Vec<u64>> =
        ArrowRedbStateMachine::open(sm.db, sm.membership_log_id, sm.last_membership).unwrap();
    assert_eq!(reopened.last_applied.map(|l| l.index), Some(4));
    assert_eq!(reopened.membership_log_id.map(|l| l.index), Some(4));
    assert_eq!(reopened.last_membership, vec![1, 2]);
}

#[test]
fn test_get_current_snapshot_returns_snapshot_after_apply() {
    let mut sm = open_machine(Tables::new());
    assert!(
        sm.current_snapshot_id().is_none(),
        "fresh SM must return None snapshot"
    );
    sm.apply_entry(CommittedEntry {
        log_id: log_id(1, 1),
        payload: EntryPayload::Normal(register(99, "snap_comp", 3)),
    });
    assert_eq!(sm.current_snapshot_id().as_deref(), Some("arrow-snap-1"));
    assert_eq!(
        sm.last_applied.map(|l| l.index),
        Some(1),
        "snapshot last_log_id must match last applied"
    );
    let dumped = pcs_service::consensus::state_machine::dump_state(&sm.db);
    assert!(!dumped.0.is_empty(), "snapshot payload must be non-empty");
    assert_eq!(dumped.0[0].batch_id, 99);
}

#[test]
fn installing_a_snapshot_replaces_rows_and_watermark() {
    let mut sm = open_machine(Tables::new());
    sm.apply_entry(CommittedEntry {
        log_id: log_id(1, 1),
        payload: EntryPayload::Normal(register(1, "old", 3)),
    });
    let mut other = Tables::new();
    pcs_service::consensus::state_machine::apply(&mut other, register(2, "new", 4));
    let (batches, claims, checkpoints, instances) =
        pcs_service::consensus::state_machine::dump_state(&other);
    sm.install_snapshot(
        Some(log_id(2, 9)),
        Some(log_id(2, 8)),
        vec![1],
        vec![7],
        Some(SnapshotRows {
            batches,
            claims,
            checkpoints,
            instances,
        }),
    )
    .unwrap();
    assert_eq!(sm.last_applied, Some(log_id(2, 9)));
    assert!(read_master_batch(&sm.db, 1).is_none());
    assert_eq!(read_master_batch(&sm.db, 2).unwrap().component, "new");
    assert_eq!(sm.db.last_applied, Some(vec![1, 2, 1, 9]));
    assert_eq!(sm.db.last_membership, Some(vec![7]));

    sm.install_snapshot(None, None, vec![], vec![4], None).unwrap();
    assert_eq!(read_master_batch(&sm.db, 2).unwrap().component, "new");
    assert_eq!(sm.db.last_applied, Some(vec![0]));
    assert_eq!(sm.db.last_membership, Some(vec![4]));
}

#[test]
fn test_validate_store_consistency_both_none() {
    validate_store_consistency(None, None).expect("none/none is consistent");
}

#[test]
fn test_validate_store_consistency_no_purge() {
    let applied = Some(log_id(1, 5));
    validate_store_consistency(None, applied).expect("no purge, applied set: consistent");
}

#[test]
fn test_validate_store_consistency_applied_ahead() {
    let purged = Some(log_id(1, 3));
    let applied = Some(log_id(1, 10));
    validate_store_consistency(purged, applied).expect("applied > purged: consistent");
}

#[test]
fn test_validate_store_consistency_applied_equals_purged() {
    let lid = log_id(1, 5);
    validate_store_consistency(Some(lid), Some(lid)).expect("applied == purged: consistent");
}

#[test]
fn test_validate_store_consistency_applied_behind_purged() {
    let purged = Some(log_id(1, 10));
    let applied = Some(log_id(1, 3));
    let err = validate_store_consistency(purged, applied)
        .expect_err("applied < purged: must be an error");
    assert!(
        err.message().contains("state machine is behind"),
        "error message must explain the skew: {}",
        err.message()
    );
    assert_eq!(err.category(), "store");
    assert_eq!(
        err.message(),
        "store consistency violation: log store purged up to index 10 but state machine last_applied is index 3 \u{2014} state machine is behind. Do not mix log and state-machine redb files from different backups."
    );
}

#[test]
fn test_validate_store_consistency_purged_set_applied_none() {
    let purged = Some(log_id(1, 5));
    let err = validate_store_consistency(purged, None)
        .expect_err("purged set but applied None: must be an error");
    assert!(
        err.message()
            .contains("state machine last_applied is None"),
        "error message must identify missing last_applied: {}",
        err.message()
    );
}

fn data_entry(term: u64, index: u64, cmd: ConsensusCommand) -> AppEntry {
    AppEntry {
        term,
        index,
        data: EntryData::Command(cmd),
    }
}

fn blank_app_entry(term: u64, index: u64) -> AppEntry {
    AppEntry {
        term,
        index,
        data: EntryData::Blank,
    }
}

#[test]
fn test_persist_applied_survives_reopen() {
    let mut sm = AppStateMachine::open(Tables::new()).unwrap();
    let cmd = ConsensusCommand::AckClaim {
        claim_id: 0,
        instance_id: 0,
    };
    sm.apply_batch(vec![data_entry(2, 10, cmd)]).unwrap();
    sm.persist_applied().unwrap();

    let sm2 = AppStateMachine::open(sm.db).unwrap();
    assert_eq!(
        sm2.last_applied(),
        Some((2, 10)),
        "last_applied must persist across reopen"
    );
}

#[test]
fn test_apply_batch_advances_last_applied_and_returns_response() {
    let mut sm = AppStateMachine::open(Tables::new()).unwrap();
    assert_eq!(sm.last_applied(), None, "fresh SM: no watermark");

    let responses = sm
        .apply_batch(vec![data_entry(1, 5, register(42, "task3", 10))])
        .unwrap();
    assert_eq!(responses.len(), 1);
    assert_eq!(responses[0].0, 5);
    assert_eq!(sm.last_applied(), Some((1, 5)));

    let record =
        read_master_batch(&sm.db, 42).expect("master batch 42 must exist after apply");
    assert_eq!(record.component, "task3");
    assert_eq!(record.total_rows, 10);
}

#[test]
fn test_apply_batch_skips_blank_entries() {
    let mut sm = AppStateMachine::open(Tables::new()).unwrap();
    let cmd = ConsensusCommand::Heartbeat {
        instance_id: 0,
        at: 0,
    };
    let responses = sm
        .apply_batch(vec![blank_app_entry(1, 1), data_entry(1, 2, cmd)])
        .unwrap();
    assert_eq!(
        responses.len(),
        1,
        "blank entries yield no response, data entries one each"
    );
    assert_eq!(responses[0].0, 2);
    assert_eq!(sm.last_applied(), Some((1, 2)));
}

#[test]
fn test_apply_batch_err_halts_batch() {
    let mut sm = AppStateMachine::open(Tables::new()).unwrap();
    assert_eq!(sm.last_applied(), None);

    let bad = AppEntry {
        term: 1,
        index: 5,
        data: EntryData::Undecodable("unexpected end".to_string()),
    };
    let result = sm.apply_batch(vec![bad]);
    assert_eq!(
        result.unwrap_err().message(),
        "decode ConsensusCommand from entry: unexpected end",
        "apply must propagate decode errors"
    );
    assert_eq!(
        sm.last_applied(),
        None,
        "watermark must not advance on a failed apply"
    );
}

#[test]
fn what_was_applied_before_a_bad_entry_stays() {
    let mut sm = AppStateMachine::open(Tables::new()).unwrap();
    let result = sm.apply_batch(vec![
        data_entry(1, 1, register(7, "kept", 1)),
        AppEntry {
            term: 1,
            index: 2,
            data: EntryData::Undecodable("x".to_string()),
        },
        data_entry(1, 3, register(8, "never", 1)),
    ]);
    assert!(result.is_err());
    assert!(read_master_batch(&sm.db, 7).is_some());
    assert!(read_master_batch(&sm.db, 8).is_none());
    assert_eq!(sm.last_applied(), None);
    sm.set_last_applied(4, 4);
    assert_eq!(sm.last_applied(), Some((4, 4)));
}

#[test]
fn test_restart_restores_watermark() {
    let mut sm = AppStateMachine::open(Tables::new()).unwrap();
    sm.apply_batch(vec![data_entry(2, 10, register(7, "restart_comp", 5))])
        .unwrap();
    sm.persist_applied().unwrap();
    let index = sm.last_applied().unwrap().1;

    let sm2 = AppStateMachine::open(sm.db).unwrap();
    assert_eq!(sm2.last_applied().map(|(_, i)| i), Some(index));
}

#[test]
fn a_watermark_that_is_none_is_refused() {
    let mut tables = Tables::new();
    tables.last_applied = Some(vec![9]);
    match AppStateMachine::open(tables) {
        Err(e) => assert!(e.message().starts_with("postcard decode: ")),
        Ok(_) => panic!("nine is no option tag"),
    }
}

#[test]
fn test_postcard_log_id_round_trip() {
    let mut sm = open_machine(Tables::new());
    sm.last_applied = Some(log_id(2, 10));
    sm.persist_sm_meta(Vec::new()).unwrap();
    assert_eq!(sm.db.last_applied, Some(vec![1, 2, 1, 10]));
    let decoded = open_machine(sm.db).last_applied;
    assert_eq!(decoded.map(|l| l.index), Some(10));
}

#[test]
fn test_persist_sm_meta_survives_reopen() {
    let mut sm = open_machine(Tables::new());
    sm.last_applied = Some(log_id(2, 10));
    sm.persist_sm_meta(Vec::new()).unwrap();
    let sm2 = open_machine(sm.db);
    assert_eq!(
        sm2.last_applied.map(|l| l.index),
        Some(10),
        "last_applied must persist across reopen"
    );
    assert_eq!(sm2.last_applied, Some(log_id(2, 10)));
}

#[test]
fn test_state_machine_restart_restores_watermarks() {
    let mut sm = open_machine(Tables::new());
    let applied = sm.apply(vec![Ok(normal(2, 10, register(7, "restart_comp", 5)))]);
    assert_eq!(applied.failure, None);
    sm.persist_sm_meta(Vec::new()).unwrap();
    let last_applied_index = sm.last_applied.unwrap().index;
    assert_eq!(last_applied_index, 10);

    let sm2 = open_machine(sm.db);
    assert_eq!(
        sm2.last_applied.map(|l| l.index),
        Some(last_applied_index),
        "last_applied must be restored after restart"
    );
}

#[test]
fn sm_apply_err_halts_stream() {
    let mut sm = open_machine(Tables::new());
    assert!(
        sm.last_applied.is_none(),
        "initial last_applied must be None"
    );
    let failed = PcsError::Store("injected stream failure".to_string());
    let applied = sm.apply(vec![Err(failed.clone())]);
    assert_eq!(
        applied.failure,
        Some(failed),
        "apply must propagate stream Err"
    );
    assert!(
        sm.last_applied.is_none(),
        "last_applied must not advance when stream returns Err"
    );
}

#[test]
fn a_failed_entry_stops_the_batch_where_it_stands() {
    let mut sm = open_machine(Tables::new());
    let applied = sm.apply(vec![
        Ok(normal(1, 1, register(1, "a", 10))),
        Err(PcsError::Store("gone".to_string())),
        Ok(normal(1, 2, register(2, "b", 10))),
    ]);
    assert_eq!(
        applied.responses,
        vec![ConsensusResponse::MasterBatchRegistered { batch_id: 1 }]
    );
    assert_eq!(applied.failure, Some(PcsError::Store("gone".to_string())));
    assert_eq!(sm.last_applied, Some(log_id(1, 1)));
    assert!(read_master_batch(&sm.db, 2).is_none());
}

#[test]
fn a_position_that_was_not_read_is_reported() {
    let mut tables = Tables::new();
    tables.last_applied = Some(vec![1, 2]);
    let opened: Result<ArrowRedbStateMachine<Vec<u64>>, PcsError> =
        ArrowRedbStateMachine::open(tables, None, Vec::new());
    match opened {
        Err(e) => assert!(
            e.message().starts_with("postcard decode: "),
            "{}",
            e.message()
        ),
        Ok(_) => panic!("a position cut short must not be read"),
    }
    let opened: Result<ArrowRedbStateMachine<Vec<u64>>, PcsError> = ArrowRedbStateMachine::opened(
        Tables::new(),
        Some(Err("cut".to_string())),
        None,
        Vec::new(),
    );
    assert_eq!(
        opened.err(),
        Some(PcsError::Store("postcard decode: cut".to_string()))
    );
}

#[test]
fn watermarks_are_encoded_in_groups_of_seven_bits() {
    let mut sm = AppStateMachine::open(Tables::new()).unwrap();
    sm.persist_applied().unwrap();
    assert_eq!(sm.db.last_applied, Some(vec![0]));
    sm.set_last_applied(300, 128);
    sm.persist_applied().unwrap();
    assert_eq!(sm.db.last_applied, Some(vec![1, 0xAC, 0x02, 0x80, 0x01]));
    let reopened = AppStateMachine::open(sm.db).unwrap();
    assert_eq!(reopened.last_applied(), Some((300, 128)));

    let mut sm = AppStateMachine::open(Tables::new()).unwrap();
    sm.set_last_applied(u64::MAX, u64::MAX);
    sm.persist_applied().unwrap();
    let reopened = AppStateMachine::open(sm.db).unwrap();
    assert_eq!(reopened.last_applied(), Some((u64::MAX, u64::MAX)));
}

#[test]
fn opening_reports_a_watermark_that_was_not_read() {
    match AppStateMachine::opened(Tables::new(), Some(Err("bad option".to_string()))) {
        Err(e) => assert_eq!(e.message(), "postcard decode: bad option"),
        Ok(_) => panic!("the watermark was not read"),
    }
    let sm = AppStateMachine::opened(Tables::new(), Some(Ok(Some((4, 5))))).unwrap();
    assert_eq!(sm.last_applied(), Some((4, 5)));
}

#[test]
fn a_batch_is_applied_as_its_parts_are() {
    let entries = || {
        vec![
            data_entry(1, 1, register(1, "a", 10)),
            blank_app_entry(1, 2),
            data_entry(1, 3, register(2, "b", 20)),
        ]
    };
    let mut whole = AppStateMachine::open(Tables::new()).unwrap();
    let at_once = whole.apply_batch(entries()).unwrap();

    let mut parts = AppStateMachine::open(Tables::new()).unwrap();
    let mut one_by_one = Vec::new();
    for entry in entries() {
        one_by_one.extend(parts.apply_batch(vec![entry]).unwrap());
    }

    assert_eq!(at_once, one_by_one);
    assert_eq!(whole.last_applied(), parts.last_applied());
    assert_eq!(read_master_batch(&whole.db, 2), read_master_batch(&parts.db, 2));
}
