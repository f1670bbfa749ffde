//! What holds of the state machine across commands.

use vstd::prelude::*;

use crate::consensus::model::{
    active_batches, batch_overlap, bumped, claim_accepted, dumped, empty_tables, entry_overlaps,
    expired, expired_claims, first_free_row, held_by, index_rows, installed, is_poisoned, next,
    occupied, on_batch, pending_batch_is, pending_range_is, restored, row_completed, row_taken,
    rows_completed, rows_of, swept, swept_key, swept_tables, taken_range_starts, unindexed,
    BatchStatus, BatchView, CheckpointKey, CheckpointView, ClaimRecord, IndexEntry, IndexKey,
    InstanceRecord, TablesView,
};
use crate::consensus::types::{ClaimStatus, CommandView, ResponseView, Uid};
use crate::table::Key;

verus! {

/// The tables after a series of commands.
pub open spec fn run(s: TablesView, commands: Seq<CommandView>) -> TablesView
    decreases commands.len(),
{
    if commands.len() == 0 {
        s
    } else {
        next(run(s, commands.drop_last()), commands.last()).0
    }
}

/// What the index should say of a claim.
pub open spec fn entry_of(c: ClaimRecord) -> IndexEntry {
    IndexEntry { start: c.row_range_start, end: c.row_range_end, status: c.status }
}

/// The index lists exactly the claims, each under its batch with its range and
/// status.
pub open spec fn index_in_step(s: TablesView) -> bool {
    &&& forall|k: IndexKey| #[trigger]
        s.index.contains_key(k) ==> s.claims.contains_key(k.claim_id)
            && s.claims[k.claim_id].batch_id == k.batch_id && s.index[k] == entry_of(
            s.claims[k.claim_id],
        )
    &&& forall|c: Uid| #[trigger]
        s.claims.contains_key(c) ==> s.index.contains_key(
            IndexKey { batch_id: s.claims[c].batch_id, claim_id: c },
        )
}

/// Every claim is on at least one row.
pub open spec fn claims_nonempty(s: TablesView) -> bool {
    forall|c: Uid| #[trigger]
        s.claims.contains_key(c) ==> s.claims[c].row_range_start < s.claims[c].row_range_end
}

/// No row of a batch is under two claimed or completed claims.
pub open spec fn claims_disjoint(s: TablesView) -> bool {
    forall|a: Uid, b: Uid|
        a != b && #[trigger] s.claims.contains_key(a) && #[trigger] s.claims.contains_key(b)
            && s.claims[a].batch_id == s.claims[b].batch_id && occupied(s.claims[a].status)
            && occupied(s.claims[b].status) ==> !entry_overlaps(
            entry_of(s.claims[a]),
            s.claims[b].row_range_start,
            s.claims[b].row_range_end,
        )
}

/// Batches and checkpoints stand under the keys their records name.
pub open spec fn records_keyed(s: TablesView) -> bool {
    &&& forall|b: u64| #[trigger] s.batches.contains_key(b) ==> s.batches[b].batch_id == b
    &&& forall|k: CheckpointKey| #[trigger]
        s.checkpoints.contains_key(k) ==> s.checkpoints[k].stage_idx == k.stage_idx
}

/// A poisoned batch is not pending.
pub open spec fn poisoned_not_pending(s: TablesView) -> bool {
    forall|b: u64| #[trigger]
        s.batches.contains_key(b) && s.batches[b].status == BatchStatus::Poisoned
            ==> !s.pending.contains_key(b)
}

/// An active batch with a row that no completed claim covers is pending.
pub open spec fn unfinished_pending(s: TablesView) -> bool {
    forall|b: u64| #[trigger]
        s.batches.contains_key(b) && s.batches[b].status == BatchStatus::Active && !rows_completed(
            s.index,
            b,
            rows_of(s.batches, b),
        ) ==> s.pending.contains_key(b)
}

/// Everything that holds between the tables.
pub open spec fn consistent(s: TablesView) -> bool {
    &&& index_in_step(s)
    &&& claims_nonempty(s)
    &&& claims_disjoint(s)
    &&& records_keyed(s)
    &&& poisoned_not_pending(s)
    &&& unfinished_pending(s)
}

/// Where every completed entry stays, completed rows stay completed.
proof fn lemma_completed_rows_stay(
    a: Map<IndexKey, IndexEntry>,
    b: Map<IndexKey, IndexEntry>,
    batch_id: u64,
    rows: int,
)
    requires
        forall|k: IndexKey| #[trigger]
            a.contains_key(k) && a[k].status == ClaimStatus::Completed ==> b.contains_key(k) && b[k]
                == a[k],
        rows_completed(a, batch_id, rows),
    ensures
        rows_completed(b, batch_id, rows),
{
    assert forall|r: int| 0 <= r < rows implies #[trigger] row_completed(b, batch_id, r) by {
        assert(row_completed(a, batch_id, r));
        let k = choose|k: IndexKey| #[trigger]
            a.contains_key(k) && k.batch_id == batch_id && a[k].status == ClaimStatus::Completed
                && a[k].start <= r < a[k].end;
        assert(b.contains_key(k));
    }
}

/// Where every completed entry stays, and every batch keeps its rows and its
/// status, unfinished active batches stay pending.
proof fn lemma_unfinished_stay_pending(s: TablesView, t: TablesView)
    requires
        unfinished_pending(s),
        forall|k: IndexKey| #[trigger]
            s.index.contains_key(k) && s.index[k].status == ClaimStatus::Completed
                ==> t.index.contains_key(k) && t.index[k] == s.index[k],
        forall|b: u64| #[trigger]
            t.batches.contains_key(b) ==> s.batches.contains_key(b) && s.batches[b].status
                == t.batches[b].status && s.batches[b].total_rows == t.batches[b].total_rows,
        forall|b: u64| #[trigger]
            s.pending.contains_key(b) && t.batches.contains_key(b) && !rows_completed(
                t.index,
                b,
                rows_of(t.batches, b),
            ) ==> t.pending.contains_key(b),
    ensures
        unfinished_pending(t),
{
    assert forall|b: u64| #[trigger]
        t.batches.contains_key(b) && t.batches[b].status == BatchStatus::Active && !rows_completed(
            t.index,
            b,
            rows_of(t.batches, b),
        ) implies t.pending.contains_key(b) by {
        assert(s.batches.contains_key(b));
        if rows_completed(s.index, b, rows_of(s.batches, b)) {
            lemma_completed_rows_stay(s.index, t.index, b, rows_of(s.batches, b));
        }
        assert(s.pending.contains_key(b));
    }
}

/// Writing a claim and its index entry keeps the index in step.
proof fn lemma_put_in_step(s: TablesView, id: Uid, c: ClaimRecord, t: TablesView)
    requires
        index_in_step(s),
        t.claims == s.claims.insert(id, c),
        t.index == unindexed(s, id).insert(
            IndexKey { batch_id: c.batch_id, claim_id: id },
            entry_of(c),
        ),
    ensures
        index_in_step(t),
{
    assert forall|k: IndexKey| #[trigger] t.index.contains_key(k) implies t.claims.contains_key(
        k.claim_id,
    ) && t.claims[k.claim_id].batch_id == k.batch_id && t.index[k] == entry_of(
        t.claims[k.claim_id],
    ) by {
        if k != (IndexKey { batch_id: c.batch_id, claim_id: id }) {
            assert(s.index.contains_key(k));
        }
    }
    assert forall|q: Uid| #[trigger] t.claims.contains_key(q) implies t.index.contains_key(
        IndexKey { batch_id: t.claims[q].batch_id, claim_id: q },
    ) by {
        if q != id {
            assert(s.claims.contains_key(q));
        }
    }
}

/// Writing a claim in place, with its index entry, keeps the index in step.
proof fn lemma_put_over(s: TablesView, id: Uid, c: ClaimRecord, t: TablesView)
    requires
        index_in_step(s),
        s.claims.contains_key(id),
        s.claims[id].batch_id == c.batch_id,
        t.claims == s.claims.insert(id, c),
        t.index == s.index.insert(IndexKey { batch_id: c.batch_id, claim_id: id }, entry_of(c)),
    ensures
        index_in_step(t),
{
    let k = IndexKey { batch_id: c.batch_id, claim_id: id };
    assert(t.index =~= unindexed(s, id).insert(k, entry_of(c)));
    lemma_put_in_step(s, id, c, t);
}

proof fn lemma_swept_consistent(s: TablesView, gone: Set<Uid>)
    requires
        consistent(s),
        forall|c: Uid| #[trigger]
            gone.contains(c) ==> s.claims.contains_key(c) && s.claims[c].status
                == ClaimStatus::Claimed,
    ensures
        consistent(swept_tables(s, gone)),
{
    let t = swept_tables(s, gone);
    assert forall|k: IndexKey| #[trigger] t.index.contains_key(k) implies t.claims.contains_key(
        k.claim_id,
    ) && t.claims[k.claim_id].batch_id == k.batch_id && t.index[k] == entry_of(
        t.claims[k.claim_id],
    ) by {
        if !swept_key(s, gone, k) {
            assert(s.index.contains_key(k));
            assert(!gone.contains(k.claim_id));
        }
    }
    assert forall|q: Uid| #[trigger] t.claims.contains_key(q) implies t.index.contains_key(
        IndexKey { batch_id: t.claims[q].batch_id, claim_id: q },
    ) by {
        assert(s.claims.contains_key(q));
    }
    assert forall|c: Uid| #[trigger] t.claims.contains_key(c) implies t.claims[c].row_range_start
        < t.claims[c].row_range_end by {
        assert(s.claims.contains_key(c));
    }
    assert forall|a: Uid, b: Uid|
        a != b && #[trigger] t.claims.contains_key(a) && #[trigger] t.claims.contains_key(b)
            && t.claims[a].batch_id == t.claims[b].batch_id && occupied(t.claims[a].status)
            && occupied(t.claims[b].status) implies !entry_overlaps(
        entry_of(t.claims[a]),
        t.claims[b].row_range_start,
        t.claims[b].row_range_end,
    ) by {
        assert(s.claims.contains_key(a) && s.claims.contains_key(b));
    }
    assert forall|b: u64| #[trigger] t.batches.contains_key(b) implies t.batches[b].batch_id == b
        && (t.batches[b].status == BatchStatus::Poisoned ==> !t.pending.contains_key(b)) by {
        assert(s.batches.contains_key(b));
    }
    assert forall|k: CheckpointKey| #[trigger]
        t.checkpoints.contains_key(k) implies t.checkpoints[k].stage_idx == k.stage_idx by {
        assert(s.checkpoints.contains_key(k));
    }
    assert forall|k: IndexKey| #[trigger]
        s.index.contains_key(k) && s.index[k].status
            == ClaimStatus::Completed implies t.index.contains_key(k) && t.index[k]
        == s.index[k] by {
        assert(s.claims.contains_key(k.claim_id));
    }
    lemma_unfinished_stay_pending(s, t);
}

/// Replacing a claim by one of the same rows that is not newly occupied keeps
/// the claims disjoint and nonempty.
proof fn lemma_replaced_disjoint(s: TablesView, id: Uid, c: ClaimRecord, t: TablesView)
    requires
        claims_disjoint(s),
        claims_nonempty(s),
        s.claims.contains_key(id),
        c.batch_id == s.claims[id].batch_id,
        c.row_range_start == s.claims[id].row_range_start,
        c.row_range_end == s.claims[id].row_range_end,
        occupied(c.status) ==> occupied(s.claims[id].status),
        t.claims == s.claims.insert(id, c),
    ensures
        claims_disjoint(t),
        claims_nonempty(t),
{
    assert forall|a: Uid, b: Uid|
        a != b && #[trigger] t.claims.contains_key(a) && #[trigger] t.claims.contains_key(b)
            && t.claims[a].batch_id == t.claims[b].batch_id && occupied(t.claims[a].status)
            && occupied(t.claims[b].status) implies !entry_overlaps(
        entry_of(t.claims[a]),
        t.claims[b].row_range_start,
        t.claims[b].row_range_end,
    ) by {
        assert(s.claims.contains_key(a) && s.claims.contains_key(b));
    }
    assert forall|q: Uid| #[trigger] t.claims.contains_key(q) implies t.claims[q].row_range_start
        < t.claims[q].row_range_end by {
        assert(s.claims.contains_key(q));
    }
}

/// Every command keeps the tables consistent: the index in step with the
/// claims, no row of a batch under two active claims, records under their own
/// keys, poisoned batches not pending, unfinished active batches pending.
#[verifier::rlimit(40)]
pub proof fn law_commands_keep_tables_consistent(s: TablesView, command: CommandView)
    requires
        consistent(s),
    ensures
        consistent(next(s, command).0),
{
    let t = next(s, command).0;
    match command {
        CommandView::ClaimRowRange {
            batch_id,
            row_range_start,
            row_range_end,
            claim_id,
            instance_id,
            lease_ttl_millis,
            now_at_propose,
        } => {
            if claim_accepted(
                s,
                batch_id,
                row_range_start,
                row_range_end,
                claim_id,
                instance_id,
            ) {
                let c = t.claims[claim_id];
                lemma_put_in_step(s, claim_id, c, t);
                assert forall|a: Uid, b: Uid|
                    a != b && #[trigger] t.claims.contains_key(a)
                        && #[trigger] t.claims.contains_key(b) && t.claims[a].batch_id
                        == t.claims[b].batch_id && occupied(t.claims[a].status) && occupied(
                        t.claims[b].status,
                    ) implies !entry_overlaps(
                    entry_of(t.claims[a]),
                    t.claims[b].row_range_start,
                    t.claims[b].row_range_end,
                ) by {
                    if a != claim_id {
                        assert(s.index.contains_key(
                            IndexKey { batch_id: s.claims[a].batch_id, claim_id: a },
                        ));
                    }
                    if b != claim_id {
                        assert(s.index.contains_key(
                            IndexKey { batch_id: s.claims[b].batch_id, claim_id: b },
                        ));
                    }
                }
                assert(claims_nonempty(t));
                assert(records_keyed(t));
                assert(poisoned_not_pending(t));
                assert forall|k: IndexKey| #[trigger]
                    s.index.contains_key(k) && s.index[k].status
                        == ClaimStatus::Completed implies t.index.contains_key(k) && t.index[k]
                    == s.index[k] by {
                    assert(s.claims.contains_key(k.claim_id));
                }
                lemma_unfinished_stay_pending(s, t);
            } else {
                assert(t == s);
            }
        },
        CommandView::RenewClaim { claim_id, instance_id, lease_ttl_millis, now_at_propose } => {
            if t.claims != s.claims {
                let c = t.claims[claim_id];
                lemma_replaced_disjoint(s, claim_id, c, t);
                assert(s.index =~= unindexed(s, claim_id).insert(
                    IndexKey { batch_id: c.batch_id, claim_id },
                    entry_of(c),
                )) by {
                    let k = IndexKey { batch_id: c.batch_id, claim_id };
                    assert(s.claims.contains_key(claim_id));
                    assert(s.index.contains_key(k));
                }
                lemma_put_in_step(s, claim_id, c, t);
            }
        },
        CommandView::AckClaim { claim_id, instance_id } => {
            if held_by(s, claim_id, instance_id) {
                let c = t.claims[claim_id];
                lemma_replaced_disjoint(s, claim_id, c, t);
                lemma_put_over(s, claim_id, c, t);
                assert(records_keyed(t));
                assert(poisoned_not_pending(t));
                assert forall|k: IndexKey| #[trigger]
                    s.index.contains_key(k) && s.index[k].status
                        == ClaimStatus::Completed implies t.index.contains_key(k) && t.index[k]
                    == s.index[k] by {
                    assert(s.claims.contains_key(k.claim_id));
                }
                lemma_unfinished_stay_pending(s, t);
            }
        },
        CommandView::ReleaseClaim { claim_id, instance_id } => {
            if held_by(s, claim_id, instance_id) {
                let c = t.claims[claim_id];
                lemma_replaced_disjoint(s, claim_id, c, t);
                lemma_put_over(s, claim_id, c, t);
                assert(records_keyed(t));
                assert(poisoned_not_pending(t));
                assert forall|k: IndexKey| #[trigger]
                    s.index.contains_key(k) && s.index[k].status
                        == ClaimStatus::Completed implies t.index.contains_key(k) && t.index[k]
                    == s.index[k] by {
                    assert(s.claims.contains_key(k.claim_id));
                }
                lemma_unfinished_stay_pending(s, t);
            }
        },
        CommandView::ReclaimExpired { now_at_propose } => {
            lemma_swept_consistent(s, expired_claims(s, now_at_propose));
        },
        CommandView::RegisterMasterBatch {
            batch_id,
            component,
            schema_id,
            ipc_bytes,
            total_rows,
            now_at_propose,
        } => {
            assert forall|b: u64| #[trigger]
                t.batches.contains_key(b) && t.batches[b].status == BatchStatus::Active
                    && !rows_completed(t.index, b, rows_of(t.batches, b)) implies t.pending.contains_key(
                b,
            ) by {
                if !t.pending.contains_key(b) {
                    assert(b != batch_id || t == s);
                    assert(s.batches.contains_key(b));
                }
            }
        },
        CommandView::PoisonBatch { batch_id, now_at_propose } => {
            assert forall|b: u64| #[trigger]
                t.batches.contains_key(b) && t.batches[b].status == BatchStatus::Active
                    && !rows_completed(t.index, b, rows_of(t.batches, b)) implies t.pending.contains_key(
                b,
            ) by {
                assert(s.batches.contains_key(b));
            }
        },
        CommandView::Checkpoint { claim_id, stage_idx, ipc_bytes, schema_id, now_at_propose } => {
            lemma_unfinished_stay_pending(s, t);
        },
        CommandView::Heartbeat { instance_id, at } => {},
    }
}

proof fn lemma_consistent_through(s: TablesView, commands: Seq<CommandView>)
    requires
        consistent(s),
    ensures
        consistent(run(s, commands)),
    decreases commands.len(),
{
    if commands.len() > 0 {
        let before = commands.drop_last();
        lemma_consistent_through(s, before);
        law_commands_keep_tables_consistent(run(s, before), commands.last());
    }
}

/// However the tables came about from empty ones, they are consistent.
pub proof fn law_reachable_tables_consistent(commands: Seq<CommandView>)
    ensures
        consistent(run(empty_tables(), commands)),
{
    lemma_consistent_through(empty_tables(), commands);
}

/// The responses to a series of commands, in order.
pub open spec fn responses(s: TablesView, commands: Seq<CommandView>) -> Seq<ResponseView>
    decreases commands.len(),
{
    if commands.len() == 0 {
        Seq::empty()
    } else {
        responses(s, commands.drop_last()).push(
            next(run(s, commands.drop_last()), commands.last()).1,
        )
    }
}

/// What a dump of the tables holds: the rows of each, in the order of their
/// keys.
pub open spec fn is_dump(
    s: TablesView,
    batches: Seq<BatchView>,
    claims: Seq<(Uid, ClaimRecord)>,
    checkpoints: Seq<(CheckpointKey, CheckpointView)>,
    instances: Seq<(Uid, InstanceRecord)>,
) -> bool {
    &&& exists|keys: Seq<u64>| #[trigger]
        keys.len() == batches.len() && dumped(
            s.batches,
            Seq::new(batches.len(), |i: int| (keys[i], batches[i])),
        )
    &&& dumped(s.claims, claims)
    &&& dumped(s.checkpoints, checkpoints)
    &&& dumped(s.instances, instances)
}

proof fn lemma_dumps_agree_up_to<K: Key, V>(
    table: Map<K, V>,
    a: Seq<(K, V)>,
    b: Seq<(K, V)>,
    n: int,
)
    requires
        dumped(table, a),
        dumped(table, b),
        0 <= n <= a.len(),
    ensures
        n <= b.len(),
        forall|i: int| 0 <= i < n ==> a[i] == b[i],
    decreases n,
{
    if n > 0 {
        let m = n - 1;
        lemma_dumps_agree_up_to(table, a, b, m);
        assert(table.contains_key(a[m].0));
        let i = choose|i: int| 0 <= i < b.len() && (#[trigger] b[i]).0 == a[m].0;
        if i < m {
            assert(a[i].0.rank() < a[m].0.rank());
            assert(a[i] == b[i]);
        }
        assert(m < b.len());
        assert(table.contains_key(b[m].0));
        let j = choose|j: int| 0 <= j < a.len() && (#[trigger] a[j]).0 == b[m].0;
        if j < m {
            assert(b[j].0.rank() < b[m].0.rank());
            assert(a[j] == b[j]);
        }
        if m < i {
            assert(b[m].0.rank() < b[i].0.rank());
        }
        if m < j {
            assert(a[m].0.rank() < a[j].0.rank());
        }
        K::rank_injective(a[m].0, b[m].0);
    }
}

/// A table has one dump.
pub proof fn law_dump_unique<K: Key, V>(table: Map<K, V>, a: Seq<(K, V)>, b: Seq<(K, V)>)
    requires
        dumped(table, a),
        dumped(table, b),
    ensures
        a == b,
{
    lemma_dumps_agree_up_to(table, a, b, a.len() as int);
    lemma_dumps_agree_up_to(table, b, a, b.len() as int);
    assert(a =~= b);
}

/// Replicas that start from the same tables and apply the same commands give
/// the same responses, hold the same tables, and give the same dump.
pub proof fn law_replicas_agree(
    a: TablesView,
    b: TablesView,
    commands: Seq<CommandView>,
    dump_a: (
        Seq<BatchView>,
        Seq<(Uid, ClaimRecord)>,
        Seq<(CheckpointKey, CheckpointView)>,
        Seq<(Uid, InstanceRecord)>,
    ),
    dump_b: (
        Seq<BatchView>,
        Seq<(Uid, ClaimRecord)>,
        Seq<(CheckpointKey, CheckpointView)>,
        Seq<(Uid, InstanceRecord)>,
    ),
)
    requires
        a == b,
        is_dump(run(a, commands), dump_a.0, dump_a.1, dump_a.2, dump_a.3),
        is_dump(run(b, commands), dump_b.0, dump_b.1, dump_b.2, dump_b.3),
    ensures
        run(a, commands) == run(b, commands),
        responses(a, commands) == responses(b, commands),
        dump_a == dump_b,
{
    let s = run(a, commands);
    let ka = choose|keys: Seq<u64>| #[trigger]
        keys.len() == dump_a.0.len() && dumped(
            s.batches,
            Seq::new(dump_a.0.len(), |i: int| (keys[i], dump_a.0[i])),
        );
    let kb = choose|keys: Seq<u64>| #[trigger]
        keys.len() == dump_b.0.len() && dumped(
            s.batches,
            Seq::new(dump_b.0.len(), |i: int| (keys[i], dump_b.0[i])),
        );
    let ra = Seq::new(dump_a.0.len(), |i: int| (ka[i], dump_a.0[i]));
    let rb = Seq::new(dump_b.0.len(), |i: int| (kb[i], dump_b.0[i]));
    law_dump_unique(s.batches, ra, rb);
    assert forall|i: int| 0 <= i < dump_a.0.len() implies dump_a.0[i] == dump_b.0[i] by {
        assert(ra[i] == rb[i]);
    }
    assert(dump_a.0 =~= dump_b.0);
    law_dump_unique(s.claims, dump_a.1, dump_b.1);
    law_dump_unique(s.checkpoints, dump_a.2, dump_b.2);
    law_dump_unique(s.instances, dump_a.3, dump_b.3);
}

/// The index stays in step with the claims under every command, whatever else
/// holds of the tables, also where a claim's id is stored under another batch.
pub proof fn law_index_stays_in_step(s: TablesView, command: CommandView)
    requires
        index_in_step(s),
    ensures
        index_in_step(next(s, command).0),
{
}

/// A refused command leaves every table as it was. (It may leave an empty
/// claims table where there was none.)
pub proof fn law_refused_changes_nothing(s: TablesView, command: CommandView)
    requires
        next(s, command).1 is Error,
    ensures
        next(s, command).0 == (TablesView {
            claims_table: next(s, command).0.claims_table,
            ..s
        }),
        s.claims_table ==> next(s, command).0 == s,
{
}

/// Claiming the same rows again under the same id, for the same instance, is
/// answered as the first time and changes nothing, whatever time and lease the
/// repeat carries.
pub proof fn law_claim_replay_idempotent(
    s: TablesView,
    batch_id: u64,
    start: u32,
    end: u32,
    claim_id: Uid,
    instance_id: Uid,
    ttl: u64,
    now: u64,
    ttl2: u64,
    now2: u64,
)
    requires
        claim_accepted(s, batch_id, start, end, claim_id, instance_id),
    ensures
        ({
            let first = next(
                s,
                CommandView::ClaimRowRange {
                    batch_id,
                    row_range_start: start,
                    row_range_end: end,
                    claim_id,
                    instance_id,
                    lease_ttl_millis: ttl,
                    now_at_propose: now,
                },
            );
            let again = next(
                first.0,
                CommandView::ClaimRowRange {
                    batch_id,
                    row_range_start: start,
                    row_range_end: end,
                    claim_id,
                    instance_id,
                    lease_ttl_millis: ttl2,
                    now_at_propose: now2,
                },
            );
            &&& first.1 is BatchClaimed
            &&& again == first
        }),
{
}

/// While a claim is held and its batch registered, the command that made it is
/// answered with the claim and the stored lease, and changes nothing, whatever
/// time and lease it carries. From another instance it is refused, and changes
/// nothing either.
pub proof fn law_held_claim_is_answered_again(
    s: TablesView,
    claim_id: Uid,
    other: Uid,
    ttl: u64,
    now: u64,
)
    requires
        consistent(s),
        s.claims.contains_key(claim_id),
        s.claims[claim_id].status == ClaimStatus::Claimed,
        s.batches.contains_key(s.claims[claim_id].batch_id),
        other != s.claims[claim_id].instance_id,
    ensures
        ({
            let c = s.claims[claim_id];
            let b = s.batches[c.batch_id];
            &&& next(
                s,
                CommandView::ClaimRowRange {
                    batch_id: c.batch_id,
                    row_range_start: c.row_range_start,
                    row_range_end: c.row_range_end,
                    claim_id,
                    instance_id: c.instance_id,
                    lease_ttl_millis: ttl,
                    now_at_propose: now,
                },
            ) == (
                s,
                ResponseView::BatchClaimed {
                    batch_id: c.batch_id,
                    component: b.component,
                    row_range_start: c.row_range_start,
                    row_range_end: c.row_range_end,
                    schema_id: b.schema_id,
                    claim_id,
                    instance_id: c.instance_id,
                    lease_expires_at: c.lease_expires_at,
                },
            )
            &&& ({
                let refused = next(
                    s,
                    CommandView::ClaimRowRange {
                        batch_id: c.batch_id,
                        row_range_start: c.row_range_start,
                        row_range_end: c.row_range_end,
                        claim_id,
                        instance_id: other,
                        lease_ttl_millis: ttl,
                        now_at_propose: now,
                    },
                );
                refused.1 is Error && refused.0 == s
            })
        }),
{
    let c = s.claims[claim_id];
    let k = IndexKey { batch_id: c.batch_id, claim_id };
    assert(s.index.contains_key(k));
    assert(entry_overlaps(s.index[k], c.row_range_start, c.row_range_end));
    assert(batch_overlap(s.index, c.batch_id, c.row_range_start, c.row_range_end));
}

/// Writing the same checkpoint again, under a fresh time, gives the same
/// checkpoint id and changes nothing.
pub proof fn law_checkpoint_replay_idempotent(
    s: TablesView,
    claim_id: Uid,
    stage_idx: u32,
    ipc_bytes: Seq<u8>,
    schema_id: u32,
    now: u64,
    now2: u64,
)
    requires
        next(
            s,
            CommandView::Checkpoint {
                claim_id,
                stage_idx,
                ipc_bytes,
                schema_id,
                now_at_propose: now,
            },
        ).1 is CheckpointWritten,
    ensures
        ({
            let first = next(
                s,
                CommandView::Checkpoint {
                    claim_id,
                    stage_idx,
                    ipc_bytes,
                    schema_id,
                    now_at_propose: now,
                },
            );
            let again = next(
                first.0,
                CommandView::Checkpoint {
                    claim_id,
                    stage_idx,
                    ipc_bytes,
                    schema_id,
                    now_at_propose: now2,
                },
            );
            again == first
        }),
{
}

/// Poisoning a batch twice keeps the first time, and the second call is
/// answered with it.
pub proof fn law_poison_first_writer_wins(s: TablesView, batch_id: u64, now: u64, now2: u64)
    requires
        s.batches.contains_key(batch_id),
        s.batches[batch_id].status == BatchStatus::Active,
    ensures
        ({
            let first = next(s, CommandView::PoisonBatch { batch_id, now_at_propose: now });
            let again = next(first.0, CommandView::PoisonBatch { batch_id, now_at_propose: now2 });
            &&& first.1 == (ResponseView::BatchPoisoned { batch_id, poisoned_at: now })
            &&& again == first
            &&& first.0.batches[batch_id].poisoned_at == Some(now)
            &&& !first.0.pending.contains_key(batch_id)
        }),
{
}

/// A renewal never shortens a lease and always reaches at least the time asked
/// for; its response says the new expiry.
pub proof fn law_renew_monotonic(
    s: TablesView,
    claim_id: Uid,
    instance_id: Uid,
    ttl: u64,
    now: u64,
)
    requires
        held_by(s, claim_id, instance_id),
        s.claims[claim_id].lease_expires_at >= now,
        now + ttl <= u64::MAX,
    ensures
        ({
            let after = next(
                s,
                CommandView::RenewClaim {
                    claim_id,
                    instance_id,
                    lease_ttl_millis: ttl,
                    now_at_propose: now,
                },
            );
            let lease = after.0.claims[claim_id].lease_expires_at;
            &&& after.1 == (ResponseView::ClaimRenewed { expires_at: lease })
            &&& lease >= s.claims[claim_id].lease_expires_at
            &&& lease >= now + ttl
        }),
{
}

/// Renewing, acknowledging or releasing a claim that the instance does not
/// hold is refused.
pub proof fn law_only_the_holder_acts(
    s: TablesView,
    claim_id: Uid,
    instance_id: Uid,
    ttl: u64,
    now: u64,
)
    requires
        !held_by(s, claim_id, instance_id),
    ensures
        next(s, CommandView::AckClaim { claim_id, instance_id }).1 is Error,
        next(s, CommandView::ReleaseClaim { claim_id, instance_id }).1 is Error,
        next(
            s,
            CommandView::RenewClaim {
                claim_id,
                instance_id,
                lease_ttl_millis: ttl,
                now_at_propose: now,
            },
        ).1 is Error,
{
}

/// Once a sweep took an expired claim back, the late ack or release of its
/// former holder is refused and the failed attempt is not counted twice.
pub proof fn law_late_holder_is_refused(s: TablesView, claim_id: Uid, instance_id: Uid, now: u64)
    requires
        held_by(s, claim_id, instance_id),
        expired(s.claims[claim_id], now),
    ensures
        ({
            let t = next(s, CommandView::ReclaimExpired { now_at_propose: now }).0;
            let ack = next(t, CommandView::AckClaim { claim_id, instance_id });
            let release = next(t, CommandView::ReleaseClaim { claim_id, instance_id });
            &&& t.claims[claim_id].status == ClaimStatus::Pending
            &&& ack.1 is Error
            &&& release.1 is Error
            &&& ack.0.claims == t.claims
            &&& release.0.claims == t.claims
            &&& release.0.batches == t.batches
        }),
{
    assert(expired_claims(s, now).contains(claim_id));
}

/// A release counts one failed attempt on the claim's batch, an ack sets the
/// count back to zero, and neither changes the count of another batch.
pub proof fn law_attempts_counted_and_reset(s: TablesView, claim_id: Uid, instance_id: Uid)
    requires
        held_by(s, claim_id, instance_id),
        s.batches.contains_key(s.claims[claim_id].batch_id),
    ensures
        ({
            let b = s.claims[claim_id].batch_id;
            let ack = next(s, CommandView::AckClaim { claim_id, instance_id }).0;
            let release = next(s, CommandView::ReleaseClaim { claim_id, instance_id }).0;
            &&& ack.batches[b].release_attempts == 0
            &&& release.batches[b].release_attempts == bumped(s.batches[b].release_attempts)
            &&& forall|o: u64|
                o != b && #[trigger] s.batches.contains_key(o) ==> ack.batches[o] == s.batches[o]
                    && release.batches[o] == s.batches[o]
        }),
{
}

/// A sweep counts one failed attempt for each claim it takes back from the
/// batch, and takes back exactly the held claims whose lease ran out.
pub proof fn law_sweep_counts_each_claim(s: TablesView, now: u64, c: Uid, b: u64)
    requires
        s.claims.contains_key(c),
        s.batches.contains_key(b),
        s.batches[b].release_attempts + on_batch(s, expired_claims(s, now), b).len() <= u32::MAX,
    ensures
        ({
            let t = next(s, CommandView::ReclaimExpired { now_at_propose: now }).0;
            &&& t.batches[b].release_attempts == s.batches[b].release_attempts + on_batch(
                s,
                expired_claims(s, now),
                b,
            ).len()
            &&& expired(s.claims[c], now) ==> t.claims[c] == swept(s.claims[c])
            &&& !expired(s.claims[c], now) ==> t.claims[c] == s.claims[c]
        }),
{
}

/// A claim is granted only on rows that no claimed or completed claim of the
/// batch takes.
pub proof fn law_granted_rows_were_free(
    s: TablesView,
    batch_id: u64,
    start: u32,
    end: u32,
    claim_id: Uid,
    instance_id: Uid,
    row: int,
)
    requires
        claim_accepted(s, batch_id, start, end, claim_id, instance_id),
        start <= row < end,
    ensures
        !row_taken(s.index, batch_id, row),
        row < s.batches[batch_id].total_rows,
{
    if row_taken(s.index, batch_id, row) {
        let k = choose|k: IndexKey| #[trigger]
            s.index.contains_key(k) && k.batch_id == batch_id && occupied(s.index[k].status)
                && s.index[k].start <= row < s.index[k].end;
        assert(entry_overlaps(s.index[k], start, end));
        assert(batch_overlap(s.index, batch_id, start, end));
    }
}

/// A completed claim stays completed, and its rows stay taken, under every
/// command.
pub proof fn law_completed_stays_completed(s: TablesView, command: CommandView, c: Uid)
    requires
        consistent(s),
        s.claims.contains_key(c),
        s.claims[c].status == ClaimStatus::Completed,
    ensures
        ({
            let t = next(s, command).0;
            &&& t.claims.contains_key(c)
            &&& t.claims[c] == s.claims[c]
            &&& forall|row: int|
                s.claims[c].row_range_start <= row < s.claims[c].row_range_end
                    ==> #[trigger] row_taken(t.index, s.claims[c].batch_id, row)
        }),
{
    let t = next(s, command).0;
    law_commands_keep_tables_consistent(s, command);
    assert(t.claims.contains_key(c) && t.claims[c] == s.claims[c]);
    let k = IndexKey { batch_id: t.claims[c].batch_id, claim_id: c };
    assert(t.index.contains_key(k));
    assert forall|row: int|
        s.claims[c].row_range_start <= row < s.claims[c].row_range_end implies #[trigger] row_taken(
        t.index,
        s.claims[c].batch_id,
        row,
    ) by {
        assert(t.index[k] == entry_of(t.claims[c]));
    }
}

/// The rows of an active batch that are offered as pending can be claimed: under
/// a fresh id the claim is granted.
pub proof fn law_pending_rows_can_be_claimed(
    s: TablesView,
    batch_id: u64,
    range: (u32, u32),
    claim_id: Uid,
    instance_id: Uid,
)
    requires
        consistent(s),
        pending_range_is(s, batch_id, Some(range)),
        s.batches[batch_id].status == BatchStatus::Active,
        !s.claims.contains_key(claim_id),
    ensures
        claim_accepted(s, batch_id, range.0, range.1, claim_id, instance_id),
{
    let a = choose|a: int| #[trigger]
        first_free_row(s.index, batch_id, a) && a < s.batches[batch_id].total_rows && range.0 == a
            && forall|b: int|
            a < b < range.1 ==> !#[trigger] taken_range_starts(s.index, batch_id, b);
    if batch_overlap(s.index, batch_id, range.0, range.1) {
        let k = choose|k: IndexKey| #[trigger]
            s.index.contains_key(k) && k.batch_id == batch_id && occupied(s.index[k].status)
                && entry_overlaps(s.index[k], range.0, range.1);
        assert(taken_range_starts(s.index, batch_id, s.index[k].start as int));
        if s.index[k].start <= a {
            assert(row_taken(s.index, batch_id, a));
        }
    }
}

/// A batch has one answer to which rows are pending.
pub proof fn law_pending_range_unique(
    s: TablesView,
    batch_id: u64,
    r1: Option<(u32, u32)>,
    r2: Option<(u32, u32)>,
)
    requires
        pending_range_is(s, batch_id, r1),
        pending_range_is(s, batch_id, r2),
    ensures
        r1 == r2,
{
    if s.batches.contains_key(batch_id) {
        assert forall|a: int, b: int|
            first_free_row(s.index, batch_id, a) && first_free_row(
                s.index,
                batch_id,
                b,
            ) implies a == b by {
            if a < b {
                assert(row_taken(s.index, batch_id, a));
            } else if b < a {
                assert(row_taken(s.index, batch_id, b));
            }
        }
    }
}

/// Claiming rows of one batch leaves the index entries of the other claims
/// alone, on that batch and on the others.
pub proof fn law_batches_are_isolated(s: TablesView, command: CommandView, k: IndexKey)
    requires
        command is ClaimRowRange,
        k.claim_id != command->ClaimRowRange_claim_id,
    ensures
        next(s, command).0.index.contains_key(k) <==> s.index.contains_key(k),
        next(s, command).0.index[k] == s.index[k],
{
}

/// The rows of a dump, installed in an empty table, give the table back.
proof fn lemma_dump_installs<K: Key, V>(table: Map<K, V>, rows: Seq<(K, V)>)
    requires
        dumped(table, rows),
    ensures
        installed(rows) == table,
{
    lemma_installed_rows(rows);
    let m = installed(rows);
    assert forall|k: K| #[trigger] m.contains_key(k) <==> table.contains_key(k) by {
        if table.contains_key(k) {
            let i = choose|i: int| 0 <= i < rows.len() && (#[trigger] rows[i]).0 == k;
            assert(m.contains_key(rows[i].0));
        }
    }
    assert forall|k: K| #[trigger] m.contains_key(k) implies m[k] == table[k] by {
        let i = choose|i: int| 0 <= i < rows.len() && (#[trigger] rows[i]).0 == k;
        assert(m[rows[i].0] == rows[i].1);
    }
    assert(m =~= table);
}

/// Rows of different keys all arrive.
proof fn lemma_installed_rows<K: Key, V>(rows: Seq<(K, V)>)
    requires
        forall|i: int, j: int|
            0 <= i < j < rows.len() ==> (#[trigger] rows[i]).0.rank() < (
            #[trigger] rows[j]).0.rank(),
    ensures
        forall|i: int|
            0 <= i < rows.len() ==> installed(rows).contains_key((#[trigger] rows[i]).0)
                && installed(rows)[rows[i].0] == rows[i].1,
        forall|k: K| #[trigger]
            installed(rows).contains_key(k) ==> exists|i: int|
                0 <= i < rows.len() && (#[trigger] rows[i]).0 == k,
    decreases rows.len(),
{
    if rows.len() > 0 {
        let front = rows.drop_last();
        assert forall|i: int, j: int| 0 <= i < j < front.len() implies (
        #[trigger] front[i]).0.rank() < (#[trigger] front[j]).0.rank() by {
            assert(rows[i].0.rank() < rows[j].0.rank());
        }
        lemma_installed_rows(front);
        let last = rows.len() - 1;
        assert forall|i: int| 0 <= i < rows.len() implies installed(rows).contains_key(
            (#[trigger] rows[i]).0,
        ) && installed(rows)[rows[i].0] == rows[i].1 by {
            if i < last {
                assert(front[i] == rows[i]);
                assert(rows[i].0.rank() < rows[last].0.rank());
            }
        }
        assert forall|k: K| #[trigger] installed(rows).contains_key(k) implies exists|i: int|
            0 <= i < rows.len() && (#[trigger] rows[i]).0 == k by {
            if k == rows.last().0 {
                assert(rows[last].0 == k);
            } else {
                assert(installed(front).contains_key(k));
                let i = choose|i: int| 0 <= i < front.len() && (#[trigger] front[i]).0 == k;
                assert(rows[i].0 == k);
            }
        }
    }
}

/// The index rows of a dump install to the index that lists the claims.
proof fn lemma_index_rows_install(rows: Seq<(Uid, ClaimRecord)>)
    requires
        forall|i: int, j: int|
            0 <= i < j < rows.len() ==> (#[trigger] rows[i]).0 != (#[trigger] rows[j]).0,
    ensures
        forall|i: int|
            0 <= i < rows.len() ==> {
                let k = IndexKey { batch_id: (#[trigger] rows[i]).1.batch_id, claim_id: rows[i].0 };
                installed(index_rows(rows)).contains_key(k) && installed(index_rows(rows))[k]
                    == entry_of(rows[i].1)
            },
        forall|k: IndexKey| #[trigger]
            installed(index_rows(rows)).contains_key(k) ==> exists|i: int|
                0 <= i < rows.len() && (#[trigger] rows[i]).0 == k.claim_id && rows[i].1.batch_id
                    == k.batch_id,
    decreases rows.len(),
{
    let idx = index_rows(rows);
    if rows.len() > 0 {
        let front = rows.drop_last();
        assert forall|i: int, j: int| 0 <= i < j < front.len() implies (#[trigger] front[i]).0 != (
        #[trigger] front[j]).0 by {
            assert(rows[i].0 != rows[j].0);
        }
        lemma_index_rows_install(front);
        assert(idx.drop_last() =~= index_rows(front));
        let last = rows.len() - 1;
        assert forall|i: int| 0 <= i < rows.len() implies {
            let k = IndexKey { batch_id: (#[trigger] rows[i]).1.batch_id, claim_id: rows[i].0 };
            installed(idx).contains_key(k) && installed(idx)[k] == entry_of(rows[i].1)
        } by {
            if i < last {
                assert(front[i] == rows[i]);
                assert(rows[i].0 != rows[last].0);
            }
        }
        assert forall|k: IndexKey| #[trigger] installed(idx).contains_key(k) implies exists|i: int|
            0 <= i < rows.len() && (#[trigger] rows[i]).0 == k.claim_id && rows[i].1.batch_id
                == k.batch_id by {
            if k == idx.last().0 {
                assert(rows[last].0 == k.claim_id);
            } else {
                assert(installed(index_rows(front)).contains_key(k));
                let i = choose|i: int|
                    0 <= i < front.len() && (#[trigger] front[i]).0 == k.claim_id
                        && front[i].1.batch_id == k.batch_id;
                assert(rows[i].0 == k.claim_id);
            }
        }
    }
}

/// Restoring a dump of consistent tables gives the same batches, claims,
/// index, checkpoints and instances back, has exactly the active batches
/// pending, and leaves the tables consistent.
pub proof fn law_dump_restore_round_trip(
    s: TablesView,
    other: TablesView,
    batches: Seq<BatchView>,
    keys: Seq<u64>,
    claims: Seq<(Uid, ClaimRecord)>,
    checkpoints: Seq<(CheckpointKey, CheckpointView)>,
    instances: Seq<(Uid, InstanceRecord)>,
    sm_meta: Option<(Seq<u8>, Seq<u8>)>,
)
    requires
        consistent(s),
        keys.len() == batches.len(),
        dumped(s.batches, Seq::new(batches.len(), |i: int| (keys[i], batches[i]))),
        dumped(s.claims, claims),
        dumped(s.checkpoints, checkpoints),
        dumped(s.instances, instances),
    ensures
        ({
            let t = restored(other, batches, claims, checkpoints, instances, sm_meta);
            &&& t.batches == s.batches
            &&& t.claims == s.claims
            &&& t.index == s.index
            &&& t.checkpoints == s.checkpoints
            &&& t.instances == s.instances
            &&& t.pending == active_batches(s.batches)
            &&& consistent(t)
        }),
{
    let t = restored(other, batches, claims, checkpoints, instances, sm_meta);
    let rows = Seq::new(batches.len(), |i: int| (keys[i], batches[i]));
    assert forall|i: int| 0 <= i < batches.len() implies batches[i].batch_id == keys[i] by {
        assert(rows[i].0 == keys[i]);
        assert(s.batches.contains_key(rows[i].0));
    }
    let own = batches.map_values(|b: BatchView| (b.batch_id, b));
    assert(own =~= rows);
    lemma_dump_installs(s.batches, rows);
    lemma_dump_installs(s.claims, claims);
    lemma_dump_installs(s.checkpoints, checkpoints);
    lemma_dump_installs(s.instances, instances);
    assert forall|i: int, j: int| 0 <= i < j < claims.len() implies (#[trigger] claims[i]).0 != (
    #[trigger] claims[j]).0 by {
        assert(claims[i].0.rank() < claims[j].0.rank());
    }
    lemma_index_rows_install(claims);
    assert forall|k: IndexKey| #[trigger] t.index.contains_key(k) <==> s.index.contains_key(k) by {
        if t.index.contains_key(k) {
            let i = choose|i: int|
                0 <= i < claims.len() && (#[trigger] claims[i]).0 == k.claim_id
                    && claims[i].1.batch_id == k.batch_id;
            assert(s.claims.contains_key(claims[i].0));
        }
        if s.index.contains_key(k) {
            let i = choose|i: int| 0 <= i < claims.len() && (#[trigger] claims[i]).0 == k.claim_id;
            assert(claims[i].1 == s.claims[k.claim_id]);
        }
    }
    assert forall|k: IndexKey| #[trigger] t.index.contains_key(k) implies t.index[k]
        == s.index[k] by {
        let i = choose|i: int|
            0 <= i < claims.len() && (#[trigger] claims[i]).0 == k.claim_id && claims[i].1.batch_id
                == k.batch_id;
        assert(s.index.contains_key(k));
        assert(k == (IndexKey { batch_id: claims[i].1.batch_id, claim_id: claims[i].0 }));
    }
    assert(t.index =~= s.index);
}

/// Whatever commands were applied to empty tables, restoring a dump of them
/// elsewhere gives the same batches, claims, index, checkpoints and instances
/// back.
pub proof fn law_reachable_tables_restore(
    commands: Seq<CommandView>,
    other: TablesView,
    batches: Seq<BatchView>,
    keys: Seq<u64>,
    claims: Seq<(Uid, ClaimRecord)>,
    checkpoints: Seq<(CheckpointKey, CheckpointView)>,
    instances: Seq<(Uid, InstanceRecord)>,
    sm_meta: Option<(Seq<u8>, Seq<u8>)>,
)
    requires
        ({
            let s = run(empty_tables(), commands);
            &&& keys.len() == batches.len()
            &&& dumped(s.batches, Seq::new(batches.len(), |i: int| (keys[i], batches[i])))
            &&& dumped(s.claims, claims)
            &&& dumped(s.checkpoints, checkpoints)
            &&& dumped(s.instances, instances)
        }),
    ensures
        ({
            let s = run(empty_tables(), commands);
            let t = restored(other, batches, claims, checkpoints, instances, sm_meta);
            &&& t.batches == s.batches
            &&& t.claims == s.claims
            &&& t.index == s.index
            &&& t.checkpoints == s.checkpoints
            &&& t.instances == s.instances
            &&& t.pending == active_batches(s.batches)
            &&& consistent(t)
        }),
{
    law_reachable_tables_consistent(commands);
    law_dump_restore_round_trip(
        run(empty_tables(), commands),
        other,
        batches,
        keys,
        claims,
        checkpoints,
        instances,
        sm_meta,
    );
}

/// A poisoned batch stays poisoned, from the time it was first poisoned, under
/// every command, and no claim on it is granted: one is answered only if it was
/// granted before.
pub proof fn law_poisoned_stays_poisoned(s: TablesView, command: CommandView, batch_id: u64)
    requires
        is_poisoned(s, batch_id),
    ensures
        is_poisoned(next(s, command).0, batch_id),
        next(s, command).0.batches[batch_id].poisoned_at == s.batches[batch_id].poisoned_at,
        next(s, command).1 matches ResponseView::BatchClaimed {
            batch_id: b,
            claim_id,
            ..
        } ==> b == batch_id ==> s.claims.contains_key(claim_id) && s.claims[claim_id].batch_id
            == batch_id && next(s, command).0 == s,
{
}

proof fn lemma_poisoned_through(s: TablesView, commands: Seq<CommandView>, batch_id: u64)
    requires
        is_poisoned(s, batch_id),
    ensures
        is_poisoned(run(s, commands), batch_id),
    decreases commands.len(),
{
    if commands.len() > 0 {
        lemma_poisoned_through(s, commands.drop_last(), batch_id);
        law_poisoned_stays_poisoned(
            run(s, commands.drop_last()),
            commands.last(),
            batch_id,
        );
    }
}

/// Once a batch is poisoned, it is never offered again, whatever commands
/// follow.
pub proof fn law_poisoned_never_offered(
    s: TablesView,
    commands: Seq<CommandView>,
    batch_id: u64,
    offered: Option<(u64, (u32, u32))>,
)
    requires
        consistent(s),
        is_poisoned(s, batch_id),
        pending_batch_is(run(s, commands), offered),
    ensures
        offered matches Some(o) ==> o.0 != batch_id,
{
    lemma_poisoned_through(s, commands, batch_id);
    lemma_consistent_through(s, commands);
}

/// Work is never lost: while an active batch has a row that no claimed or
/// completed claim takes, some batch is offered, and none after it.
pub proof fn law_free_rows_are_offered(
    s: TablesView,
    batch_id: u64,
    row: int,
    offered: Option<(u64, (u32, u32))>,
)
    requires
        consistent(s),
        s.batches.contains_key(batch_id),
        s.batches[batch_id].status == BatchStatus::Active,
        0 <= row < s.batches[batch_id].total_rows,
        !row_taken(s.index, batch_id, row),
        pending_batch_is(s, offered),
    ensures
        offered matches Some(o) && o.0 <= batch_id,
{
    if row_completed(s.index, batch_id, row) {
        let k = choose|k: IndexKey| #[trigger]
            s.index.contains_key(k) && k.batch_id == batch_id && s.index[k].status
                == ClaimStatus::Completed && s.index[k].start <= row < s.index[k].end;
        assert(row_taken(s.index, batch_id, row));
    }
    assert(s.pending.contains_key(batch_id));
    if !(offered matches Some(o) && o.0 <= batch_id) {
        assert(pending_range_is(s, batch_id, None));
        let a = choose|a: int| #[trigger]
            first_free_row(s.index, batch_id, a) && a >= s.batches[batch_id].total_rows;
        assert(row_taken(s.index, batch_id, row));
    }
}

} // verus!
