use pcs_service::consensus::log_store::{
    ConfState, Entry, HardState, RaftRedbLogStore, Snapshot, SnapshotMetadata, StorageError,
};

fn make_store() -> RaftRedbLogStore {
    RaftRedbLogStore::new()
}

fn blank_entry(index: u64) -> Entry {
    Entry {
        index,
        term: 1,
        encoded: vec![index as u8; 4],
    }
}

#[test]
fn log_store_test_empty_state() {
    let store = make_store();
    assert_eq!(store.first_index(), 1);
    assert_eq!(store.last_index(), 0);
    let state = store.initial_state();
    assert_eq!(state.hard_state, HardState::default());
    assert_eq!(state.conf_state, ConfState::default());
}

#[test]
fn test_append_and_read_entries() {
    let mut store = make_store();
    let n = store.append_entries(&vec![blank_entry(1), blank_entry(2), blank_entry(3)]);
    assert_eq!(n, 3);
    assert_eq!(store.last_index(), 3);
    let ents = store.entries(1, 4, None).unwrap();
    assert_eq!(ents.len(), 3);
    assert_eq!(ents[0].index, 1);
    assert_eq!(store.term(1).unwrap(), 1);
    assert!(
        store.term(99).is_err(),
        "term outside the log is unavailable"
    );
}

#[test]
fn test_hard_state_round_trip() {
    let mut store = make_store();
    let hs = HardState {
        term: 2,
        vote: 3,
        commit: 5,
    };
    store.persist_hard_state(&hs);
    assert_eq!(store.read_hard_state(), hs);
}

#[test]
fn test_conf_state_round_trip() {
    let mut store = make_store();
    let cs = ConfState {
        voters: vec![1, 2, 3],
        ..Default::default()
    };
    store.persist_conf_state(&cs);
    assert_eq!(store.read_conf_state(), cs);
    assert_eq!(store.initial_state().conf_state, cs);
}

#[test]
fn test_compact_and_snapshot() {
    let mut store = make_store();
    store.append_entries(&vec![blank_entry(1), blank_entry(2)]);
    let snap = Snapshot {
        data: b"pcs-snapshot".to_vec(),
        metadata: Some(SnapshotMetadata {
            index: 2,
            term: 1,
            conf_state: Some(ConfState {
                voters: vec![1],
                ..Default::default()
            }),
        }),
    };
    store.compact_to(2, &snap);
    assert_eq!(store.first_index(), 3);
    assert_eq!(store.last_index(), 2);
    assert!(
        store.entries(1, 2, None).is_err(),
        "compacted entries must be unavailable"
    );
    assert_eq!(store.term(2).unwrap(), 1);
    let served = store.snapshot(0).unwrap();
    assert_eq!(served.data, b"pcs-snapshot");
    assert_eq!(served, snap);
}

#[test]
fn ranges_outside_the_log_are_told_apart() {
    let mut store = make_store();
    store.append_entries(&vec![blank_entry(1), blank_entry(2)]);
    assert_eq!(store.entries(1, 4, None), Err(StorageError::Unavailable));
    assert_eq!(store.entries(0, 2, None), Err(StorageError::Compacted));
    assert_eq!(store.term(7), Err(StorageError::Unavailable));
    assert_eq!(store.term(0), Ok(0));
    assert_eq!(store.snapshot(9).unwrap(), Snapshot::default());
}

#[test]
fn a_page_holds_at_least_one_entry() {
    let mut store = make_store();
    store.append_entries(&vec![blank_entry(1), blank_entry(2), blank_entry(3)]);
    assert_eq!(store.entries(1, 4, Some(0)).unwrap().len(), 1);
    assert_eq!(store.entries(1, 4, Some(7)).unwrap().len(), 1);
    assert_eq!(store.entries(1, 4, Some(8)).unwrap().len(), 2);
    assert_eq!(store.entries(2, 4, Some(u64::MAX)).unwrap().len(), 2);
}

#[test]
fn an_old_snapshot_is_not_served() {
    let mut store = make_store();
    let snap = Snapshot {
        data: Vec::new(),
        metadata: Some(SnapshotMetadata {
            index: 4,
            term: 2,
            conf_state: None,
        }),
    };
    store.compact_to(4, &snap);
    assert_eq!(
        store.snapshot(5),
        Err(StorageError::SnapshotTemporarilyUnavailable)
    );
    assert_eq!(store.read_snapshot().unwrap().metadata.unwrap().index, 4);
    assert_eq!(store.term(4), Ok(2));
}
