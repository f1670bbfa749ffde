use pcs_service::consensus::driver::{
    compaction_base, current_metrics, initial_metrics, maybe_compact, persist_ready, raft_timing,
    seed_membership, ship_report, ArrowRaftDriverConfig, RaftNodeState, SnapshotStatus,
};
use pcs_service::consensus::log_store::{
    Entry, HardState, RaftRedbLogStore, Snapshot, SnapshotMetadata,
};

fn entry(index: u64, term: u64) -> Entry {
    Entry {
        index,
        term,
        encoded: vec![0; 2],
    }
}

#[test]
fn test_membership_persists_across_restart() {
    let mut store = RaftRedbLogStore::new();
    let peers = vec![
        (3u64, "127.0.0.1:2".to_string()),
        (2u64, "127.0.0.1:1".to_string()),
    ];
    seed_membership(&mut store, 1, &peers);
    assert_eq!(
        store.read_conf_state().voters,
        vec![1, 2, 3],
        "the seeded voter set must be persisted"
    );

    seed_membership(&mut store, 1, &Vec::new());
    assert_eq!(
        store.read_conf_state().voters,
        vec![1, 2, 3],
        "a restart must reuse the persisted voter set, not re-seed it"
    );
}

#[test]
fn a_node_its_peers_name_is_seeded_once() {
    let mut store = RaftRedbLogStore::new();
    let peers = vec![(1u64, "a".to_string()), (2u64, "b".to_string())];
    seed_membership(&mut store, 1, &peers);
    assert_eq!(store.read_conf_state().voters, vec![1, 2]);
}

#[test]
fn test_log_compaction_writes_metadata_only_snapshot() {
    let mut store = RaftRedbLogStore::new();
    seed_membership(&mut store, 1, &Vec::new());
    let mut last = compaction_base(&store);
    assert_eq!(last, 0);
    persist_ready(
        &mut store,
        &mut last,
        &Snapshot::default(),
        &vec![entry(1, 1)],
        Some(HardState {
            term: 1,
            vote: 1,
            commit: 1,
        }),
    );
    assert_eq!(store.read_hard_state().commit, 1);
    assert!(!maybe_compact(&mut store, &mut last, 0, 1));
    assert!(maybe_compact(&mut store, &mut last, 1, 1));

    let snap = store
        .read_snapshot()
        .expect("compaction must persist a snapshot");
    let meta = snap.metadata.as_ref().expect("snapshot metadata");
    assert!(meta.index >= 1, "snapshot index must name a real entry");
    assert!(
        snap.data.is_empty(),
        "the PCS raft holds no application state, so the payload stays empty"
    );
    assert_eq!(
        meta.conf_state.as_ref().expect("conf state").voters,
        vec![1],
        "the snapshot must carry the current membership"
    );
    assert_eq!(
        store.first_index(),
        meta.index + 1,
        "entries up to the snapshot index must be purged"
    );
    assert_eq!(last, 1);
    assert!(!maybe_compact(&mut store, &mut last, 1, 1));
}

#[test]
fn compaction_waits_for_the_interval_and_a_known_term() {
    let mut store = RaftRedbLogStore::new();
    let mut last = 0;
    persist_ready(
        &mut store,
        &mut last,
        &Snapshot::default(),
        &vec![entry(1, 1), entry(2, 1), entry(3, 2)],
        None,
    );
    assert!(!maybe_compact(&mut store, &mut last, 3, 4));
    assert!(!maybe_compact(&mut store, &mut last, 9, 4));
    assert!(maybe_compact(&mut store, &mut last, 3, 3));
    assert_eq!(store.term(3), Ok(2));
    assert_eq!(store.last_index(), 3);
}

#[test]
fn a_received_snapshot_becomes_the_base() {
    let mut store = RaftRedbLogStore::new();
    let mut last = 0;
    let snap = Snapshot {
        data: Vec::new(),
        metadata: Some(SnapshotMetadata {
            index: 10,
            term: 3,
            conf_state: None,
        }),
    };
    persist_ready(&mut store, &mut last, &snap, &vec![entry(11, 3)], None);
    assert_eq!(last, 10);
    assert_eq!(store.first_index(), 11);
    assert_eq!(store.last_index(), 11);
    assert_eq!(store.term(10), Ok(3));
}

#[test]
fn timing_is_at_least_one_tick() {
    let config = ArrowRaftDriverConfig::default();
    assert_eq!(config.node_id, 1);
    assert_eq!(config.listen_addr, "127.0.0.1:7101");
    assert_eq!(config.snapshot_log_interval, 10_000);
    let t = raft_timing(&config);
    assert_eq!(t.election_tick, 3);
    assert_eq!(t.heartbeat_tick, 1);
    assert_eq!(t.min_election_tick, 3);
    assert_eq!(t.max_election_tick, 4);
}

#[test]
fn leader_zero_is_no_leader() {
    let m = initial_metrics(7);
    assert_eq!(m.state, RaftNodeState::Follower);
    assert_eq!(m.last_log_index, 7);
    assert_eq!(m.leader_id, None);
    let m = current_metrics(RaftNodeState::Leader, 2, 0, 5, 7);
    assert_eq!(m.leader_id, None);
    let m = current_metrics(RaftNodeState::Leader, 2, 1, 5, 7);
    assert_eq!((m.leader_id, m.term, m.applied_index), (Some(1), 2, 5));
}

#[test]
fn what_was_shipped_is_reported() {
    assert!(!ship_report(true, false).unreachable);
    assert_eq!(ship_report(true, false).snapshot, None);
    assert_eq!(
        ship_report(true, true).snapshot,
        Some(SnapshotStatus::Finish)
    );
    assert!(ship_report(false, true).unreachable);
    assert_eq!(
        ship_report(false, true).snapshot,
        Some(SnapshotStatus::Failure)
    );
    assert_eq!(ship_report(false, false).snapshot, None);
}
