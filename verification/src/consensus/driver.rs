//! What the raft driver decides around the raft library: the membership it
//! seeds, the ticks it derives, what it persists of each ready state, when it
//! compacts the log, and what it reports.

use vstd::prelude::*;

use crate::consensus::log_store::{
    appended, empty_conf, entry_views, first_kept, record_of, served_from, ConfState, ConfView,
    Entry, HardState, LogView, RaftRedbLogStore, RecordView, Snapshot, SnapshotMetadata,
};
use crate::consensus::model::Marker;
use crate::table::{Key, Table};

verus! {

/// Tick interval of the drive loop, in milliseconds.
pub const TICK_INTERVAL_MS: u64 = 100;

/// Configuration of the raft driver.
#[derive(Debug, Clone)]
pub struct ArrowRaftDriverConfig {
    pub node_id: u64,
    /// `host:port` to listen on.
    pub listen_addr: String,
    /// Peers and their addresses, `host:port`.
    pub peers: Vec<(u64, String)>,
    pub heartbeat_interval_ms: u64,
    pub election_timeout_ms: u64,
    /// Compact the log every this many applied entries.
    pub snapshot_log_interval: u64,
}

impl Default for ArrowRaftDriverConfig {
    fn default() -> (r: Self)
        ensures
            r.node_id == 1,
            r.listen_addr@ == "127.0.0.1:7101"@,
            r.peers@.len() == 0,
            r.heartbeat_interval_ms == 50,
            r.election_timeout_ms == 300,
            r.snapshot_log_interval == 10_000,
    {
        ArrowRaftDriverConfig {
            node_id: 1,
            listen_addr: "127.0.0.1:7101".to_owned(),
            peers: Vec::new(),
            heartbeat_interval_ms: 50,
            election_timeout_ms: 300,
            snapshot_log_interval: 10_000,
        }
    }
}

/// The id is the node itself or one of its peers.
pub open spec fn is_member(node_id: u64, peers: Seq<(u64, String)>, id: u64) -> bool {
    id == node_id || exists|i: int| 0 <= i < peers.len() && (#[trigger] peers[i]).0 == id
}

/// The node and its peers, each once, in order.
pub open spec fn is_voter_list(
    node_id: u64,
    peers: Seq<(u64, String)>,
    voters: Seq<u64>,
) -> bool {
    &&& forall|i: int, j: int|
        0 <= i < j < voters.len() ==> #[trigger] voters[i] < #[trigger] voters[j]
    &&& forall|id: u64| #[trigger] voters.contains(id) <==> is_member(node_id, peers, id)
}

/// The voters of a cluster: the node itself, whether its peer list names it
/// or not, and its peers, in order.
pub fn seed_voters(node_id: u64, peers: &Vec<(u64, String)>) -> (r: Vec<u64>)
    ensures
        is_voter_list(node_id, peers@, r@),
{
    let mut members: Table<u64, Marker> = Table::new();
    members.insert(node_id, Marker);
    let mut i: usize = 0;
    while i < peers.len()
        invariant
            i <= peers@.len(),
            members.wf(),
            forall|id: u64| #[trigger]
                members@.contains_key(id) <==> is_member(node_id, peers@.take(i as int), id),
        decreases peers@.len() - i,
    {
        let ghost before = members@;
        members.insert(peers[i].0, Marker);
        proof {
            let a = peers@.take(i as int);
            let b = peers@.take(i as int + 1);
            assert forall|id: u64| #[trigger] members@.contains_key(id) <==> is_member(
                node_id,
                b,
                id,
            ) by {
                if is_member(node_id, a, id) && id != node_id {
                    let j = choose|j: int| 0 <= j < a.len() && (#[trigger] a[j]).0 == id;
                    assert(b[j].0 == id);
                }
                if is_member(node_id, b, id) && id != node_id {
                    let j = choose|j: int| 0 <= j < b.len() && (#[trigger] b[j]).0 == id;
                    if j < i {
                        assert(a[j].0 == id);
                    }
                }
                if id == peers@[i as int].0 {
                    assert(b[i as int].0 == id);
                }
            }
        }
        i += 1;
    }
    assert(peers@.take(i as int) =~= peers@);
    let mut out: Vec<u64> = Vec::new();
    let mut j: usize = 0;
    proof {
        members.lemma_keys();
    }
    while j < members.len()
        invariant
            j <= members.keys().len(),
            members.wf(),
            out@ == members.keys().take(j as int),
        decreases members.keys().len() - j,
    {
        out.push(members.key_at(j));
        assert(members.keys().take(j as int + 1) =~= members.keys().take(j as int).push(
            members.keys()[j as int],
        ));
        j += 1;
    }
    proof {
        assert(out@ =~= members.keys());
        assert forall|a: int, b: int| 0 <= a < b < out@.len() implies #[trigger] out@[a]
            < #[trigger] out@[b] by {
            assert(members.keys()[a].rank() < members.keys()[b].rank());
        }
        assert forall|id: u64| #[trigger] out@.contains(id) <==> is_member(node_id, peers@, id) by {
            if out@.contains(id) {
                let k = out@.index_of(id);
                assert(members@.contains_key(members.keys()[k]));
            }
            if members@.contains_key(id) {
                let k = choose|k: int|
                    0 <= k < members.keys().len() && #[trigger] members.keys()[k] == id;
                assert(out@[k] == id);
            }
        }
    }
    out
}

/// Seed the membership on first boot. One that is there is left as it is,
/// whatever the configuration says now.
pub fn seed_membership(log: &mut RaftRedbLogStore, node_id: u64, peers: &Vec<(u64, String)>)
    requires
        old(log).wf(),
    ensures
        final(log).wf(),
        ({
            let kept = match old(log)@.conf_state {
                Some(c) => c,
                None => empty_conf(),
            };
            if kept.voters.len() > 0 {
                final(log)@ == old(log)@
            } else {
                exists|voters: Seq<u64>| #[trigger]
                    is_voter_list(node_id, peers@, voters) && final(log)@ == (LogView {
                        conf_state: Some(ConfView { voters, ..empty_conf() }),
                        ..old(log)@
                    })
            }
        }),
{
    let kept = log.read_conf_state();
    if kept.voters.len() == 0 {
        let voters = seed_voters(node_id, peers);
        let conf = ConfState {
            voters,
            learners: Vec::new(),
            voters_outgoing: Vec::new(),
            learners_next: Vec::new(),
            auto_leave: false,
        };
        log.persist_conf_state(&conf);
        proof {
            assert(is_voter_list(node_id, peers@, conf.voters@));
            assert(conf@ == (ConfView { voters: conf.voters@, ..empty_conf() }));
        }
    }
}

/// A seeded cluster always has the node itself among its voters, so it is
/// never seeded twice.
pub proof fn law_membership_is_seeded_once(
    node_id: u64,
    peers: Seq<(u64, String)>,
    voters: Seq<u64>,
)
    requires
        is_voter_list(node_id, peers, voters),
    ensures
        voters.contains(node_id),
        voters.len() > 0,
{
    assert(is_member(node_id, peers, node_id));
    assert(voters.contains(node_id));
}

/// Two lists of the same cluster's voters are the same list.
pub proof fn law_voters_are_determined(
    node_id: u64,
    peers: Seq<(u64, String)>,
    a: Seq<u64>,
    b: Seq<u64>,
)
    requires
        is_voter_list(node_id, peers, a),
        is_voter_list(node_id, peers, b),
    ensures
        a == b,
{
    assert forall|id: u64| a.contains(id) <==> b.contains(id) by {
        assert(a.contains(id) <==> is_member(node_id, peers, id));
        assert(b.contains(id) <==> is_member(node_id, peers, id));
    }
    lemma_sorted_same(a, b);
}

proof fn lemma_sorted_same(a: Seq<u64>, b: Seq<u64>)
    requires
        forall|i: int, j: int| 0 <= i < j < a.len() ==> #[trigger] a[i] < #[trigger] a[j],
        forall|i: int, j: int| 0 <= i < j < b.len() ==> #[trigger] b[i] < #[trigger] b[j],
        forall|id: u64| #[trigger] a.contains(id) <==> b.contains(id),
    ensures
        a == b,
    decreases a.len(),
{
    if a.len() == 0 {
        if b.len() > 0 {
            assert(b.contains(b[0]));
            assert(a.contains(b[0]));
        }
        assert(a =~= b);
    } else {
        assert(a.contains(a.last()));
        assert(b.len() > 0);
        assert(b.contains(b.last()));
        assert(a.contains(b.last()));
        let i = a.index_of(b.last());
        let j = b.index_of(a.last());
        assert(a.last() == b.last()) by {
            if i < a.len() - 1 {
                assert(a[i] < a[a.len() - 1]);
            }
            if j < b.len() - 1 {
                assert(b[j] < b[b.len() - 1]);
            }
        }
        let x = a.drop_last();
        let y = b.drop_last();
        assert forall|id: u64| #[trigger] x.contains(id) <==> y.contains(id) by {
            if x.contains(id) {
                let p = x.index_of(id);
                assert(a[p] == id);
                assert(a.contains(id));
                assert(a[p] < a[a.len() - 1]);
                let q = b.index_of(id);
                assert(q != b.len() - 1);
                assert(y[q] == id);
            }
            if y.contains(id) {
                let q = y.index_of(id);
                assert(b[q] == id);
                assert(b.contains(id));
                assert(a.contains(id));
                assert(b[q] < b[b.len() - 1]);
                let p = a.index_of(id);
                assert(p != a.len() - 1);
                assert(x[p] == id);
            }
        }
        lemma_sorted_same(x, y);
        assert(a =~= x.push(a.last()));
        assert(b =~= y.push(b.last()));
    }
}

/// Ticks of a time span: at least one.
pub open spec fn ticks(ms: u64) -> u64 {
    if ms / TICK_INTERVAL_MS > 1 {
        ms / TICK_INTERVAL_MS
    } else {
        1
    }
}

fn ticks_from_ms(ms: u64) -> (r: u64)
    ensures
        r == ticks(ms),
{
    let n: u64 = ms / TICK_INTERVAL_MS;
    if n > 1 {
        n
    } else {
        1
    }
}

/// The timing the raft library is run with, in ticks.
#[derive(Debug, Clone, Copy, PartialEq, Eq, Structural)]
pub struct RaftTiming {
    pub election_tick: u64,
    pub heartbeat_tick: u64,
    pub min_election_tick: u64,
    pub max_election_tick: u64,
}

/// Derive the timing. The randomised part of an election is one tick.
pub fn raft_timing(config: &ArrowRaftDriverConfig) -> (r: RaftTiming)
    ensures
        r.election_tick == ticks(config.election_timeout_ms),
        r.heartbeat_tick == ticks(config.heartbeat_interval_ms),
        r.min_election_tick == r.election_tick,
        r.max_election_tick == r.election_tick + 1,
{
    let election_tick = ticks_from_ms(config.election_timeout_ms);
    RaftTiming {
        election_tick,
        heartbeat_tick: ticks_from_ms(config.heartbeat_interval_ms),
        min_election_tick: election_tick,
        max_election_tick: election_tick + 1,
    }
}

/// Where the log of a node that starts stands: an index it need not compact
/// to again.
pub fn compaction_base(log: &RaftRedbLogStore) -> (r: u64)
    requires
        log.wf(),
    ensures
        r == first_kept(log@) - 1,
{
    log.first_index() - 1
}

/// The snapshot is there: it is not the empty one.
pub open spec fn holds_snapshot(s: Snapshot) -> bool {
    s.data@.len() > 0 || s.metadata is Some
}

/// The log after what one ready state brings: a snapshot first, which becomes
/// the base, then entries, then the hard state.
pub open spec fn after_ready(
    l: LogView,
    snapshot: Snapshot,
    entries: Seq<Entry>,
    hard_state: Option<HardState>,
) -> LogView {
    let based = if holds_snapshot(snapshot) {
        LogView {
            entries: l.entries.restrict(Set::new(|k: u64| k > record_of(snapshot).index)),
            snapshot: Some(record_of(snapshot)),
            ..l
        }
    } else {
        l
    };
    let grown = LogView { entries: appended(based.entries, entry_views(entries)), ..based };
    match hard_state {
        Some(h) => LogView { hard_state: Some(h), ..grown },
        None => grown,
    }
}

/// Persist what one ready state brings. `last_snapshot_index` follows a
/// snapshot that was received.
pub fn persist_ready(
    log: &mut RaftRedbLogStore,
    last_snapshot_index: &mut u64,
    snapshot: &Snapshot,
    entries: &Vec<Entry>,
    hard_state: Option<HardState>,
)
    requires
        old(log).wf(),
        record_of(*snapshot).index < u64::MAX,
        forall|i: int| 0 <= i < entries@.len() ==> (#[trigger] entries@[i]).index < u64::MAX,
    ensures
        final(log).wf(),
        final(log)@ == after_ready(old(log)@, *snapshot, entries@, hard_state),
        *final(last_snapshot_index) == if holds_snapshot(*snapshot) {
            record_of(*snapshot).index
        } else {
            *old(last_snapshot_index)
        },
{
    if snapshot.data.len() > 0 || snapshot.metadata.is_some() {
        let index: u64 = match &snapshot.metadata {
            Some(m) => m.index,
            None => 0,
        };
        log.compact_to(index, snapshot);
        *last_snapshot_index = index;
    }
    if entries.len() > 0 {
        log.append_entries(entries);
    } else {
        assert(appended(log@.entries, entry_views(entries@)) == log@.entries);
    }
    match hard_state {
        Some(hs) => {
            log.persist_hard_state(&hs);
        },
        None => {},
    }
}

/// Enough was applied since the last compaction for another.
pub open spec fn due_for_compaction(applied: u64, last_snapshot_index: u64, interval: u64) -> bool {
    applied != 0 && (if applied >= last_snapshot_index {
        applied - last_snapshot_index
    } else {
        0
    }) >= interval
}

/// The term of an applied entry, where the log still knows it.
pub open spec fn known_term(l: LogView, idx: u64) -> Option<u64> {
    if idx == first_kept(l) - 1 {
        Some(
            match l.snapshot {
                Some(s) => s.term,
                None => 0,
            },
        )
    } else if l.entries.contains_key(idx) {
        Some(l.entries[idx].term)
    } else {
        None
    }
}

/// The log compacted at an applied entry: a snapshot without payload, at that
/// entry and the current membership, is the new base.
pub open spec fn compacted_at(l: LogView, applied: u64, term: u64) -> LogView {
    let conf = match l.conf_state {
        Some(c) => c,
        None => empty_conf(),
    };
    LogView {
        entries: l.entries.restrict(Set::new(|k: u64| k > applied)),
        snapshot: Some(
            RecordView {
                index: applied,
                term,
                voters: conf.voters,
                learners: conf.learners,
                data: Seq::empty(),
            },
        ),
        ..l
    }
}

/// Compact the log once `interval` entries were applied since the last
/// compaction. Returns whether it did.
pub fn maybe_compact(
    log: &mut RaftRedbLogStore,
    last_snapshot_index: &mut u64,
    applied: u64,
    interval: u64,
) -> (r: bool)
    requires
        old(log).wf(),
        applied < u64::MAX,
    ensures
        final(log).wf(),
        r == (due_for_compaction(applied, *old(last_snapshot_index), interval) && known_term(
            old(log)@,
            applied,
        ) is Some),
        final(log)@ == if r {
            compacted_at(old(log)@, applied, known_term(old(log)@, applied)->0)
        } else {
            old(log)@
        },
        *final(last_snapshot_index) == if r {
            applied
        } else {
            *old(last_snapshot_index)
        },
{
    if applied == 0 || applied.saturating_sub(*last_snapshot_index) < interval {
        return false;
    }
    let term: u64 = match log.term(applied) {
        Ok(t) => t,
        Err(_) => {
            return false;
        },
    };
    let conf_state = log.read_conf_state();
    let snap = Snapshot {
        data: Vec::new(),
        metadata: Some(SnapshotMetadata { index: applied, term, conf_state: Some(conf_state) }),
    };
    log.compact_to(applied, &snap);
    *last_snapshot_index = applied;
    true
}

/// A compacted log begins right after the applied entry, holds nothing up to
/// it, carries the membership and no payload, and is not due again until
/// `interval` more entries were applied.
pub proof fn law_compaction_is_metadata_only(
    l: LogView,
    applied: u64,
    term: u64,
    interval: u64,
    s: Snapshot,
    later: u64,
)
    requires
        applied < u64::MAX,
        served_from(s, compacted_at(l, applied, term).snapshot->0),
    ensures
        first_kept(compacted_at(l, applied, term)) == applied + 1,
        forall|k: u64| #[trigger]
            compacted_at(l, applied, term).entries.contains_key(k) ==> k > applied,
        s.data@.len() == 0,
        s.metadata->0.index == applied,
        s.metadata->0.term == term,
        l.conf_state matches Some(c) ==> (s.metadata->0.conf_state matches Some(d) && d.voters@
            == c.voters),
        known_term(compacted_at(l, applied, term), applied) == Some(term),
        applied <= later < applied + interval ==> !due_for_compaction(later, applied, interval),
{
}

/// What a node is in its cluster.
#[derive(Debug, Clone, Copy, PartialEq, Eq, Structural)]
pub enum RaftNodeState {
    Follower,
    Candidate,
    Leader,
    PreCandidate,
}

/// The consensus state of a node at one moment.
#[derive(Debug, Clone, Copy, PartialEq, Eq, Structural)]
pub struct ArrowRaftMetrics {
    pub state: RaftNodeState,
    pub term: u64,
    pub leader_id: Option<u64>,
    pub applied_index: u64,
    pub last_log_index: u64,
}

/// The metrics of a node that has not run yet.
pub fn initial_metrics(last_log_index: u64) -> (r: ArrowRaftMetrics)
    ensures
        r == (ArrowRaftMetrics {
            state: RaftNodeState::Follower,
            term: 0,
            leader_id: None,
            applied_index: 0,
            last_log_index,
        }),
{
    ArrowRaftMetrics {
        state: RaftNodeState::Follower,
        term: 0,
        leader_id: None,
        applied_index: 0,
        last_log_index,
    }
}

/// The metrics of a node with the given status. Leader zero is no leader.
pub fn current_metrics(
    state: RaftNodeState,
    term: u64,
    leader: u64,
    applied: u64,
    last_log_index: u64,
) -> (r: ArrowRaftMetrics)
    ensures
        r == (ArrowRaftMetrics {
            state,
            term,
            leader_id: if leader == 0 {
                None
            } else {
                Some(leader)
            },
            applied_index: applied,
            last_log_index,
        }),
{
    ArrowRaftMetrics {
        state,
        term,
        leader_id: if leader == 0 {
            None
        } else {
            Some(leader)
        },
        applied_index: applied,
        last_log_index,
    }
}

/// How a snapshot that was sent fared.
#[derive(Debug, Clone, Copy, PartialEq, Eq, Structural)]
pub enum SnapshotStatus {
    Finish,
    Failure,
}

/// What is reported to raft after a message was sent.
#[derive(Debug, Clone, Copy, PartialEq, Eq, Structural)]
pub struct ShipReport {
    /// The peer could not be reached.
    pub unreachable: bool,
    /// How the snapshot fared, where the message carried one.
    pub snapshot: Option<SnapshotStatus>,
}

/// What to report after sending a message, or failing to.
pub fn ship_report(sent: bool, is_snapshot: bool) -> (r: ShipReport)
    ensures
        r.unreachable == !sent,
        r.snapshot == if !is_snapshot {
            None
        } else if sent {
            Some(SnapshotStatus::Finish)
        } else {
            Some(SnapshotStatus::Failure)
        },
{
    ShipReport {
        unreachable: !sent,
        snapshot: if !is_snapshot {
            None
        } else if sent {
            Some(SnapshotStatus::Finish)
        } else {
            Some(SnapshotStatus::Failure)
        },
    }
}

/// A tick is a tenth of a second. A time span has as many as fit into it, and at least
/// one.
pub proof fn law_ticks_fit(ms: u64)
    ensures
        ticks(ms) >= 1,
        ms >= 100 ==> ticks(ms) * 100 <= ms < (ticks(ms) + 1) * 100,
        ms < 100 ==> ticks(ms) == 1,
{
}

/// The voters are the node and its peers and nobody else, each once, the lowest first.
pub proof fn law_voters_are_the_members(
    node_id: u64,
    peers: Seq<(u64, String)>,
    voters: Seq<u64>,
    id: u64,
    i: int,
)
    requires
        is_voter_list(node_id, peers, voters),
    ensures
        voters.contains(id) <==> id == node_id || exists|j: int|
            0 <= j < peers.len() && (#[trigger] peers[j]).0 == id,
        0 <= i && i + 1 < voters.len() ==> voters[i] < voters[i + 1],
{
    assert(voters.contains(id) <==> is_member(node_id, peers, id));
}

/// A ready state without a snapshot keeps what the log had; one with a snapshot keeps
/// what came after it, and the snapshot is the new base. Then the entries are there,
/// and the hard state where one came. The membership stays.
pub proof fn law_ready_state_is_persisted(
    l: LogView,
    snapshot: Snapshot,
    entries: Seq<Entry>,
    hard_state: Option<HardState>,
    k: u64,
)
    ensures
        ({
            let n = after_ready(l, snapshot, entries, hard_state);
            let bare = snapshot.data@.len() == 0 && snapshot.metadata is None;
            &&& hard_state is Some ==> n.hard_state == hard_state
            &&& hard_state is None ==> n.hard_state == l.hard_state
            &&& n.conf_state == l.conf_state
            &&& bare ==> n.snapshot == l.snapshot
            &&& !bare ==> n.snapshot == Some(record_of(snapshot))
            &&& bare ==> n.entries == appended(l.entries, entry_views(entries))
            &&& entries.len() == 0 && !bare ==> (n.entries.contains_key(k)
                <==> l.entries.contains_key(k) && record_of(snapshot).index < k)
            &&& entries.len() == 0 && n.entries.contains_key(k) ==> n.entries[k] == l.entries[k]
        }),
        ({
            let n = after_ready(l, snapshot, entries, hard_state);
            entries.len() > 0 ==> n.entries.contains_key(entries.last().index)
                && n.entries[entries.last().index] == entries.last()@
        }),
        ({
            let n = after_ready(l, snapshot, entries, hard_state);
            let before = after_ready(l, snapshot, entries.drop_last(), hard_state);
            entries.len() > 0 && k != entries.last().index ==> (n.entries.contains_key(k)
                <==> before.entries.contains_key(k)) && (n.entries.contains_key(k)
                ==> n.entries[k] == before.entries[k])
        }),
{
    if entries.len() > 0 {
        assert(entry_views(entries).drop_last() =~= entry_views(entries.drop_last()));
        assert(entry_views(entries).last() == entries.last()@);
    }
}

/// The log is compacted once something was applied and as many entries as asked for were
/// applied since the last time.
pub proof fn law_compaction_is_due(applied: u64, last_snapshot_index: u64, interval: u64)
    ensures
        due_for_compaction(applied, last_snapshot_index, interval) <==> applied > 0 && (applied
            >= last_snapshot_index + interval || interval == 0),
{
}

/// The term of an entry is known while the entry is kept, and that of the one before the
/// first is the snapshot's, or none at all.
pub proof fn law_known_terms(l: LogView, idx: u64)
    ensures
        l.snapshot matches Some(s) ==> (idx == s.index ==> known_term(l, idx) == Some(s.term)),
        l.snapshot is None && idx == 0 ==> known_term(l, idx) == Some(0u64),
        idx != first_kept(l) - 1 && l.entries.contains_key(idx) ==> known_term(l, idx) == Some(
            l.entries[idx].term,
        ),
        known_term(l, idx) is None <==> idx != first_kept(l) - 1 && !l.entries.contains_key(idx),
{
}

/// A compacted log keeps the entries after the applied one as they were, its hard state
/// and its membership; its base has the applied entry's position, voters and learners.
pub proof fn law_compacted_log(l: LogView, applied: u64, term: u64, k: u64)
    ensures
        ({
            let n = compacted_at(l, applied, term);
            &&& n.entries.contains_key(k) <==> l.entries.contains_key(k) && applied < k
            &&& n.entries.contains_key(k) ==> n.entries[k] == l.entries[k]
            &&& n.hard_state == l.hard_state
            &&& n.conf_state == l.conf_state
            &&& n.snapshot matches Some(s) && s.index == applied && s.term == term && s.data.len()
                == 0 && (l.conf_state matches Some(c) ==> s.voters == c.voters && s.learners
                == c.learners) && (l.conf_state is None ==> s.voters.len() == 0 && s.learners.len()
                == 0)
        }),
{
}

} // verus!
