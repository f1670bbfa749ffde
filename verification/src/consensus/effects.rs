//! What each command does for those who send it, row by row: on which tables it
//! is answered, what is stored then, and what stays as it was.

use vstd::prelude::*;

use crate::consensus::codec::{content_hash, fnv1a};
use crate::consensus::laws::{
    claims_disjoint, consistent, law_commands_keep_tables_consistent, law_free_rows_are_offered,
};
use crate::consensus::model::{
    batch_overlap, completed_keys, dumped, empty_tables, entry_overlaps, expired_claims,
    first_free_row, in_range, index_rows, next, on_batch, oversize_text, pending_batch_is,
    pending_range_is, restored, row_completed, row_taken, rows_completed, rows_of, swept_key,
    taken_range_starts, BatchStatus, BatchView, CheckpointKey, CheckpointRecord, CheckpointView,
    ClaimRecord, IndexEntry, IndexKey, InstanceRecord, MasterBatchRecord, TablesView,
};
use crate::consensus::state_machine::{
    batch_views, batches_dumped, checkpoint_rows, keyed_batches, Tables,
};
use crate::consensus::types::{
    ClaimStatus, CommandView, ConsensusCommand, ConsensusResponse, ResponseView, Uid,
};
use crate::order::be_bytes;
use crate::table::Key;
use crate::text::{decimal_text, uuid_hyphenated};

verus! {

/// A registered batch is stored as it was sent, counts nothing yet and is
/// pending. It is refused where it is as long as a log entry may be or longer, or
/// where the batch is poisoned. No other row changes.
pub proof fn law_registered_batch_is_stored(
    s: TablesView,
    batch_id: u64,
    component: Seq<char>,
    schema_id: u32,
    ipc_bytes: Seq<u8>,
    total_rows: u32,
    now: u64,
)
    ensures
        ({
            let (t, r) = next(
                s,
                CommandView::RegisterMasterBatch {
                    batch_id,
                    component,
                    schema_id,
                    ipc_bytes,
                    total_rows,
                    now_at_propose: now,
                },
            );
            &&& r is Error <==> ipc_bytes.len() >= 1_048_576 || (s.batches.contains_key(batch_id)
                && s.batches[batch_id].status == BatchStatus::Poisoned)
            &&& r is Error ==> t == s
            &&& r !is Error ==> {
                &&& r == (ResponseView::MasterBatchRegistered { batch_id })
                &&& t.batches.contains_key(batch_id)
                &&& t.batches[batch_id].batch_id == batch_id
                &&& t.batches[batch_id].component == component
                &&& t.batches[batch_id].schema_id == schema_id
                &&& t.batches[batch_id].ipc_bytes == ipc_bytes
                &&& t.batches[batch_id].total_rows == total_rows
                &&& t.batches[batch_id].created_at == now
                &&& t.batches[batch_id].checkpoint_seq == 0
                &&& t.batches[batch_id].release_attempts == 0
                &&& t.batches[batch_id].status == BatchStatus::Active
                &&& t.batches[batch_id].poisoned_at is None
                &&& t.pending.contains_key(batch_id)
                &&& t.batches.remove(batch_id) == s.batches.remove(batch_id)
                &&& t.pending.remove(batch_id) == s.pending.remove(batch_id)
                &&& t.claims == s.claims
                &&& t.index == s.index
                &&& t.checkpoints == s.checkpoints
                &&& t.instances == s.instances
                &&& t.last_applied == s.last_applied
                &&& t.last_membership == s.last_membership
            }
        }),
{
    let t = next(
        s,
        CommandView::RegisterMasterBatch {
            batch_id,
            component,
            schema_id,
            ipc_bytes,
            total_rows,
            now_at_propose: now,
        },
    ).0;
    assert(t.batches.remove(batch_id) =~= s.batches.remove(batch_id));
    assert(t.pending.remove(batch_id) =~= s.pending.remove(batch_id));
}

/// Rows are claimed where there are some, the batch is known, not poisoned and
/// has them, no claimed or completed range of the batch lies across them, and the
/// claim's id is new or was given back. Then the claim is stored for the instance
/// until the lease runs out, the index lists it, and the answer tells all of it.
/// A claim that is stored already for these rows and this instance is answered as
/// it is stored. No other claim changes, and no batch, checkpoint or instance.
pub proof fn law_claim_takes_the_rows(
    s: TablesView,
    batch_id: u64,
    start: u32,
    end: u32,
    claim_id: Uid,
    instance_id: Uid,
    ttl: u64,
    now: u64,
)
    requires
        now + ttl <= u64::MAX,
    ensures
        ({
            let (t, r) = next(
                s,
                CommandView::ClaimRowRange {
                    batch_id,
                    row_range_start: start,
                    row_range_end: end,
                    claim_id,
                    instance_id,
                    lease_ttl_millis: ttl,
                    now_at_propose: now,
                },
            );
            let repeated = s.claims.contains_key(claim_id) && s.claims[claim_id].batch_id
                == batch_id && s.claims[claim_id].row_range_start == start
                && s.claims[claim_id].row_range_end == end && s.claims[claim_id].instance_id
                == instance_id;
            let open = s.batches.contains_key(batch_id) && s.batches[batch_id].status
                != BatchStatus::Poisoned && end <= s.batches[batch_id].total_rows && (
            s.claims.contains_key(claim_id) ==> s.claims[claim_id].status
                == ClaimStatus::Pending);
            let free = forall|k: IndexKey| #[trigger]
                s.index.contains_key(k) && k.batch_id == batch_id && (s.index[k].status
                    == ClaimStatus::Claimed || s.index[k].status == ClaimStatus::Completed)
                    ==> end <= s.index[k].start || s.index[k].end <= start;
            let lease = if repeated {
                s.claims[claim_id].lease_expires_at as int
            } else {
                now + ttl
            };
            &&& r is BatchClaimed || r is Error
            &&& r is BatchClaimed <==> start < end && if repeated {
                s.batches.contains_key(batch_id)
            } else {
                open && free
            }
            &&& r is BatchClaimed ==> {
                &&& r->BatchClaimed_batch_id == batch_id
                &&& r->BatchClaimed_component == s.batches[batch_id].component
                &&& r->BatchClaimed_row_range_start == start
                &&& r->BatchClaimed_row_range_end == end
                &&& r->BatchClaimed_schema_id == s.batches[batch_id].schema_id
                &&& r->BatchClaimed_claim_id == claim_id
                &&& r->BatchClaimed_instance_id == instance_id
                &&& r->BatchClaimed_lease_expires_at == lease
            }
            &&& r is Error || repeated ==> t.claims == s.claims && t.index == s.index
            &&& r is BatchClaimed && !repeated ==> {
                let own = IndexKey { batch_id, claim_id };
                &&& t.claims.contains_key(claim_id)
                &&& t.claims[claim_id].batch_id == batch_id
                &&& t.claims[claim_id].row_range_start == start
                &&& t.claims[claim_id].row_range_end == end
                &&& t.claims[claim_id].instance_id == instance_id
                &&& t.claims[claim_id].lease_expires_at == lease
                &&& t.claims[claim_id].status == ClaimStatus::Claimed
                &&& t.claims.remove(claim_id) == s.claims.remove(claim_id)
                &&& t.index.contains_key(own)
                &&& t.index[own].start == start
                &&& t.index[own].end == end
                &&& t.index[own].status == ClaimStatus::Claimed
                &&& forall|k: IndexKey|
                    k.claim_id != claim_id ==> (#[trigger] t.index.contains_key(k)
                        == s.index.contains_key(k)) && t.index[k] == s.index[k]
            }
            &&& t.batches == s.batches
            &&& t.checkpoints == s.checkpoints
            &&& t.instances == s.instances
            &&& t.pending == s.pending
            &&& t.last_applied == s.last_applied
            &&& t.last_membership == s.last_membership
        }),
{
    let t = next(
        s,
        CommandView::ClaimRowRange {
            batch_id,
            row_range_start: start,
            row_range_end: end,
            claim_id,
            instance_id,
            lease_ttl_millis: ttl,
            now_at_propose: now,
        },
    ).0;
    assert(t.claims.remove(claim_id) =~= s.claims.remove(claim_id));
    if batch_overlap(s.index, batch_id, start, end) {
        let k = choose|k: IndexKey| #[trigger]
            s.index.contains_key(k) && k.batch_id == batch_id && (s.index[k].status
                == ClaimStatus::Claimed || s.index[k].status == ClaimStatus::Completed)
                && entry_overlaps(s.index[k], start, end);
        assert(!(end <= s.index[k].start || s.index[k].end <= start));
    } else {
        assert forall|k: IndexKey| #[trigger]
            s.index.contains_key(k) && k.batch_id == batch_id && (s.index[k].status
                == ClaimStatus::Claimed || s.index[k].status == ClaimStatus::Completed) implies end
            <= s.index[k].start || s.index[k].end <= start by {
            assert(!entry_overlaps(s.index[k], start, end));
        }
    }
}

/// A lease is renewed for the instance that holds the claim, as long as it has
/// not run out: to the time asked for, or as it was where that is later. Nothing
/// else of the claim changes, and no other row.
pub proof fn law_renewal_extends_the_lease(
    s: TablesView,
    claim_id: Uid,
    instance_id: Uid,
    ttl: u64,
    now: u64,
)
    requires
        now + ttl <= u64::MAX,
    ensures
        ({
            let (t, r) = next(
                s,
                CommandView::RenewClaim {
                    claim_id,
                    instance_id,
                    lease_ttl_millis: ttl,
                    now_at_propose: now,
                },
            );
            let c = s.claims[claim_id];
            let d = t.claims[claim_id];
            &&& r is ClaimRenewed || r is Error
            &&& r is ClaimRenewed <==> s.claims.contains_key(claim_id) && c.status
                == ClaimStatus::Claimed && c.instance_id == instance_id && now
                <= c.lease_expires_at
            &&& r is Error ==> t.claims == s.claims
            &&& r is ClaimRenewed ==> {
                &&& t.claims.contains_key(claim_id)
                &&& d.lease_expires_at == r->ClaimRenewed_expires_at
                &&& d.lease_expires_at >= c.lease_expires_at
                &&& d.lease_expires_at >= now + ttl
                &&& d.lease_expires_at == c.lease_expires_at || d.lease_expires_at == now + ttl
                &&& d.batch_id == c.batch_id
                &&& d.row_range_start == c.row_range_start
                &&& d.row_range_end == c.row_range_end
                &&& d.instance_id == c.instance_id
                &&& d.status == ClaimStatus::Claimed
                &&& t.claims.remove(claim_id) == s.claims.remove(claim_id)
            }
            &&& t.batches == s.batches
            &&& t.index == s.index
            &&& t.checkpoints == s.checkpoints
            &&& t.instances == s.instances
            &&& t.pending == s.pending
            &&& t.last_applied == s.last_applied
            &&& t.last_membership == s.last_membership
        }),
{
    let t = next(
        s,
        CommandView::RenewClaim {
            claim_id,
            instance_id,
            lease_ttl_millis: ttl,
            now_at_propose: now,
        },
    ).0;
    assert(t.claims.remove(claim_id) =~= s.claims.remove(claim_id));
}

/// The instance that holds a claim settles it, and no other: an acknowledged
/// claim is completed, a released one is pending again and held by nobody. The
/// index says so too. The batch's failed attempts are forgotten, or count one
/// more. Nothing else of the batch changes, and no other claim or batch.
pub proof fn law_settling_a_claim(s: TablesView, claim_id: Uid, instance_id: Uid, done: bool)
    ensures
        ({
            let (t, r) = if done {
                next(s, CommandView::AckClaim { claim_id, instance_id })
            } else {
                next(s, CommandView::ReleaseClaim { claim_id, instance_id })
            };
            let c = s.claims[claim_id];
            let d = t.claims[claim_id];
            let own = IndexKey { batch_id: c.batch_id, claim_id };
            let a = s.batches[c.batch_id];
            let b = t.batches[c.batch_id];
            let settled = s.claims.contains_key(claim_id) && c.status == ClaimStatus::Claimed
                && c.instance_id == instance_id;
            &&& r is Error <==> !settled
            &&& settled ==> r == if done {
                ResponseView::ClaimAcked
            } else {
                ResponseView::ClaimReleased
            }
            &&& !settled ==> t.claims == s.claims && t.index == s.index && t.batches == s.batches
                && t.pending == s.pending
            &&& settled ==> {
                &&& t.claims.contains_key(claim_id)
                &&& done ==> d.status == ClaimStatus::Completed
                &&& done ==> d.instance_id == instance_id
                &&& !done ==> d.status == ClaimStatus::Pending
                &&& !done ==> d.instance_id == 0
                &&& d.lease_expires_at == 0
                &&& d.batch_id == c.batch_id
                &&& d.row_range_start == c.row_range_start
                &&& d.row_range_end == c.row_range_end
                &&& t.claims.remove(claim_id) == s.claims.remove(claim_id)
                &&& t.index.contains_key(own)
                &&& t.index[own].start == c.row_range_start
                &&& t.index[own].end == c.row_range_end
                &&& t.index[own].status == d.status
                &&& t.index.remove(own) == s.index.remove(own)
                &&& t.batches.contains_key(c.batch_id) == s.batches.contains_key(c.batch_id)
                &&& s.batches.contains_key(c.batch_id) ==> {
                    &&& done ==> b.release_attempts == 0
                    &&& !done && a.release_attempts < u32::MAX ==> b.release_attempts
                        == a.release_attempts + 1
                    &&& !done && a.release_attempts == u32::MAX ==> b.release_attempts == u32::MAX
                    &&& b.batch_id == a.batch_id
                    &&& b.component == a.component
                    &&& b.schema_id == a.schema_id
                    &&& b.ipc_bytes == a.ipc_bytes
                    &&& b.total_rows == a.total_rows
                    &&& b.created_at == a.created_at
                    &&& b.checkpoint_seq == a.checkpoint_seq
                    &&& b.status == a.status
                    &&& b.poisoned_at == a.poisoned_at
                }
                &&& t.batches.remove(c.batch_id) == s.batches.remove(c.batch_id)
                &&& t.pending.remove(c.batch_id) == s.pending.remove(c.batch_id)
                &&& !done ==> t.pending == s.pending
            }
            &&& t.checkpoints == s.checkpoints
            &&& t.instances == s.instances
            &&& t.last_applied == s.last_applied
            &&& t.last_membership == s.last_membership
        }),
{
    let t = if done {
        next(s, CommandView::AckClaim { claim_id, instance_id }).0
    } else {
        next(s, CommandView::ReleaseClaim { claim_id, instance_id }).0
    };
    let b = s.claims[claim_id].batch_id;
    let own = IndexKey { batch_id: b, claim_id };
    assert(t.claims.remove(claim_id) =~= s.claims.remove(claim_id));
    assert(t.index.remove(own) =~= s.index.remove(own));
    assert(t.batches.remove(b) =~= s.batches.remove(b));
    assert(t.pending.remove(b) =~= s.pending.remove(b));
}

/// A released claim is pending, and none of its rows is taken: they can be
/// claimed again at once, by anyone, under any id that is not held.
pub proof fn law_released_rows_are_free(
    s: TablesView,
    claim_id: Uid,
    instance_id: Uid,
    row: int,
    k: IndexKey,
)
    requires
        consistent(s),
        next(s, CommandView::ReleaseClaim { claim_id, instance_id }).1 is ClaimReleased,
        s.claims[claim_id].row_range_start <= row < s.claims[claim_id].row_range_end,
    ensures
        ({
            let t = next(s, CommandView::ReleaseClaim { claim_id, instance_id }).0;
            let b = s.claims[claim_id].batch_id;
            &&& t.claims[claim_id].status == ClaimStatus::Pending
            &&& !row_taken(t.index, b, row)
            &&& t.index.contains_key(k) && k.batch_id == b && t.index[k].start <= row
                < t.index[k].end ==> t.index[k].status == ClaimStatus::Pending
        }),
{
    let t = next(s, CommandView::ReleaseClaim { claim_id, instance_id }).0;
    let b = s.claims[claim_id].batch_id;
    assert forall|q: IndexKey| #[trigger]
        t.index.contains_key(q) && q.batch_id == b && t.index[q].start <= row
            < t.index[q].end implies t.index[q].status == ClaimStatus::Pending by {
        if q.claim_id != claim_id {
            lemma_others_apart(s, claim_id, q, row);
        }
    }
}

/// No row of a held claim lies in another taken range of its batch.
proof fn lemma_others_apart(s: TablesView, claim_id: Uid, q: IndexKey, row: int)
    requires
        consistent(s),
        s.claims.contains_key(claim_id),
        s.claims[claim_id].status == ClaimStatus::Claimed,
        s.claims[claim_id].row_range_start <= row < s.claims[claim_id].row_range_end,
        s.index.contains_key(q),
        q.batch_id == s.claims[claim_id].batch_id,
        q.claim_id != claim_id,
        s.index[q].start <= row < s.index[q].end,
    ensures
        s.index[q].status == ClaimStatus::Pending,
{
    assert(s.claims.contains_key(q.claim_id));
    assert(claims_disjoint(s));
}

/// The rows of a released claim of an active batch are offered again: that batch
/// is, or one before it.
pub proof fn law_released_rows_are_offered(
    s: TablesView,
    claim_id: Uid,
    instance_id: Uid,
    row: int,
    offered: Option<(u64, (u32, u32))>,
)
    requires
        consistent(s),
        next(s, CommandView::ReleaseClaim { claim_id, instance_id }).1 is ClaimReleased,
        s.claims[claim_id].row_range_start <= row < s.claims[claim_id].row_range_end,
        s.batches.contains_key(s.claims[claim_id].batch_id),
        s.batches[s.claims[claim_id].batch_id].status == BatchStatus::Active,
        row < s.batches[s.claims[claim_id].batch_id].total_rows,
        pending_batch_is(
            next(s, CommandView::ReleaseClaim { claim_id, instance_id }).0,
            offered,
        ),
    ensures
        offered matches Some(o) && o.0 <= s.claims[claim_id].batch_id,
{
    let t = next(s, CommandView::ReleaseClaim { claim_id, instance_id }).0;
    let b = s.claims[claim_id].batch_id;
    law_released_rows_are_free(
        s,
        claim_id,
        instance_id,
        row,
        IndexKey { batch_id: b, claim_id },
    );
    law_commands_keep_tables_consistent(s, CommandView::ReleaseClaim { claim_id, instance_id });
    law_free_rows_are_offered(t, b, row, offered);
}

/// A batch is no longer pending, once a claim of it is acknowledged, exactly where
/// completed claims cover all its rows.
pub proof fn law_finished_batch_is_not_pending(
    s: TablesView,
    claim_id: Uid,
    instance_id: Uid,
    row: int,
)
    requires
        next(s, CommandView::AckClaim { claim_id, instance_id }).1 is ClaimAcked,
        s.batches.contains_key(s.claims[claim_id].batch_id),
    ensures
        ({
            let t = next(s, CommandView::AckClaim { claim_id, instance_id }).0;
            let b = s.claims[claim_id].batch_id;
            let covered = forall|r: int|
                0 <= r < s.batches[b].total_rows ==> #[trigger] row_completed(t.index, b, r);
            &&& t.pending.contains_key(b) <==> s.pending.contains_key(b) && !covered
            &&& covered && 0 <= row < s.batches[b].total_rows ==> exists|k: IndexKey| #[trigger]
                t.index.contains_key(k) && k.batch_id == b && t.index[k].status
                    == ClaimStatus::Completed && t.index[k].start <= row < t.index[k].end
            &&& (exists|k: IndexKey| #[trigger]
                t.index.contains_key(k) && k.batch_id == b && t.index[k].status
                    == ClaimStatus::Completed && t.index[k].start <= row < t.index[k].end)
                ==> row_completed(t.index, b, row)
        }),
{
    let t = next(s, CommandView::AckClaim { claim_id, instance_id }).0;
    let b = s.claims[claim_id].batch_id;
    let covered = forall|r: int|
        0 <= r < s.batches[b].total_rows ==> #[trigger] row_completed(t.index, b, r);
    assert(covered == rows_completed(t.index, b, rows_of(s.batches, b)));
    if covered && 0 <= row < s.batches[b].total_rows {
        assert(row_completed(t.index, b, row));
    }
}

/// A checkpoint of a stored claim is written, unless it is as long as a log entry
/// may be or longer. The first of its claim and stage is stored as it was sent,
/// under the claim's batch, and so is one whose content has another hash than the
/// stored one; only one with the same hash leaves the stored one. What is written
/// takes the next number of its batch. No other row changes.
pub proof fn law_checkpoint_is_stored(
    s: TablesView,
    claim_id: Uid,
    stage_idx: u32,
    ipc_bytes: Seq<u8>,
    schema_id: u32,
    now: u64,
)
    requires
        forall|b: u64| #[trigger]
            s.batches.contains_key(b) ==> s.batches[b].checkpoint_seq < u64::MAX,
    ensures
        ({
            let (t, r) = next(
                s,
                CommandView::Checkpoint {
                    claim_id,
                    stage_idx,
                    ipc_bytes,
                    schema_id,
                    now_at_propose: now,
                },
            );
            let own = CheckpointKey { claim_id, stage_idx };
            let b = s.claims[claim_id].batch_id;
            let hash = content_hash(be_bytes(claim_id as nat, 16), stage_idx, ipc_bytes);
            let kept = s.checkpoints.contains_key(own) && s.checkpoints[own].content_hash == hash;
            &&& r is CheckpointWritten || r is Error
            &&& r is CheckpointWritten <==> ipc_bytes.len() < 1_048_576 && s.claims.contains_key(
                claim_id,
            )
            &&& r is Error || kept ==> t.checkpoints == s.checkpoints && t.batches == s.batches
            &&& r is CheckpointWritten && !kept ==> {
                &&& t.checkpoints.contains_key(own)
                &&& t.checkpoints[own].ipc_bytes == ipc_bytes
                &&& t.checkpoints[own].schema_id == schema_id
                &&& t.checkpoints[own].stage_idx == stage_idx
                &&& t.checkpoints[own].batch_id == b
                &&& t.checkpoints[own].created_at == now
                &&& t.checkpoints[own].content_hash == hash
                &&& t.checkpoints.remove(own) == s.checkpoints.remove(own)
                &&& t.batches.remove(b) == s.batches.remove(b)
                &&& t.batches.contains_key(b) == s.batches.contains_key(b)
                &&& s.batches.contains_key(b) ==> {
                    &&& t.batches[b].checkpoint_seq == s.batches[b].checkpoint_seq + 1
                    &&& t.batches[b].batch_id == s.batches[b].batch_id
                    &&& t.batches[b].component == s.batches[b].component
                    &&& t.batches[b].schema_id == s.batches[b].schema_id
                    &&& t.batches[b].ipc_bytes == s.batches[b].ipc_bytes
                    &&& t.batches[b].total_rows == s.batches[b].total_rows
                    &&& t.batches[b].created_at == s.batches[b].created_at
                    &&& t.batches[b].release_attempts == s.batches[b].release_attempts
                    &&& t.batches[b].status == s.batches[b].status
                    &&& t.batches[b].poisoned_at == s.batches[b].poisoned_at
                }
            }
            &&& r is CheckpointWritten ==> r->CheckpointWritten_checkpoint_id
                == if s.batches.contains_key(b) {
                t.batches[b].checkpoint_seq
            } else {
                0
            }
            &&& t.claims == s.claims
            &&& t.index == s.index
            &&& t.instances == s.instances
            &&& t.pending == s.pending
            &&& t.last_applied == s.last_applied
            &&& t.last_membership == s.last_membership
        }),
{
    let t = next(
        s,
        CommandView::Checkpoint {
            claim_id,
            stage_idx,
            ipc_bytes,
            schema_id,
            now_at_propose: now,
        },
    ).0;
    let own = CheckpointKey { claim_id, stage_idx };
    let b = s.claims[claim_id].batch_id;
    assert(t.checkpoints.remove(own) =~= s.checkpoints.remove(own));
    assert(t.batches.remove(b) =~= s.batches.remove(b));
}

/// The content of a checkpoint is the claim's sixteen bytes, the stage's four and
/// the payload, hashed byte by byte: each byte is mixed in, then the whole is
/// multiplied by the prime of the hash. One more byte of payload is one more such
/// step.
pub proof fn law_content_hash_takes_every_byte(
    claim_id: Uid,
    stage_idx: u32,
    ipc_bytes: Seq<u8>,
    b: u8,
)
    ensures
        ({
            let claim = be_bytes(claim_id as nat, 16);
            &&& content_hash(claim, stage_idx, ipc_bytes) == fnv1a(
                0xcbf2_9ce4_8422_2325,
                claim + be_bytes(stage_idx as nat, 4) + ipc_bytes,
            )
            &&& content_hash(claim, stage_idx, ipc_bytes.push(b)) == ((content_hash(
                claim,
                stage_idx,
                ipc_bytes,
            ) ^ (b as u64)) * 0x100_0000_01b3) as u64
            &&& fnv1a(0xcbf2_9ce4_8422_2325, Seq::empty()) == 0xcbf2_9ce4_8422_2325
        }),
{
    let claim = be_bytes(claim_id as nat, 16);
    let head = claim + be_bytes(stage_idx as nat, 4);
    let all = head + ipc_bytes;
    assert((head + ipc_bytes.push(b)) =~= all.push(b));
    assert(all.push(b).drop_last() =~= all);
}

/// A heartbeat is stored for its instance, and nothing else changes.
pub proof fn law_heartbeat_is_stored(s: TablesView, instance_id: Uid, at: u64)
    ensures
        ({
            let (t, r) = next(s, CommandView::Heartbeat { instance_id, at });
            &&& r == ResponseView::HeartbeatRecorded
            &&& t.instances.contains_key(instance_id)
            &&& t.instances[instance_id].last_heartbeat_at == at
            &&& t.instances.remove(instance_id) == s.instances.remove(instance_id)
            &&& t.batches == s.batches
            &&& t.claims == s.claims
            &&& t.index == s.index
            &&& t.checkpoints == s.checkpoints
            &&& t.pending == s.pending
            &&& t.last_applied == s.last_applied
            &&& t.last_membership == s.last_membership
        }),
{
    let t = next(s, CommandView::Heartbeat { instance_id, at }).0;
    assert(t.instances.remove(instance_id) =~= s.instances.remove(instance_id));
}

/// A sweep takes back every claim that is held under a lease that ran out before
/// the time of the sweep, and no other claim: it is pending again, with its rows,
/// and the index says so. The answer tells how many there were, and each batch
/// counts as many failed attempts more as it had such claims. Nothing else
/// changes.
pub proof fn law_sweep_takes_back_what_ran_out(
    s: TablesView,
    now: u64,
    c: Uid,
    b: u64,
    k: IndexKey,
)
    ensures
        ({
            let (t, r) = next(s, CommandView::ReclaimExpired { now_at_propose: now });
            let gone = s.claims.dom().filter(
                |id: Uid|
                    s.claims[id].status == ClaimStatus::Claimed && s.claims[id].lease_expires_at
                        < now,
            );
            let gone_here = gone.filter(|id: Uid| s.claims[id].batch_id == b);
            &&& r == (ResponseView::ExpiredReclaimed { reclaimed_count: gone.len() as u32 })
            &&& t.claims.dom() == s.claims.dom()
            &&& s.claims.contains_key(c) && s.claims[c].status == ClaimStatus::Claimed
                && s.claims[c].lease_expires_at < now ==> {
                let own = IndexKey { batch_id: s.claims[c].batch_id, claim_id: c };
                &&& t.claims[c].status == ClaimStatus::Pending
                &&& t.claims[c].lease_expires_at == 0
                &&& t.claims[c].batch_id == s.claims[c].batch_id
                &&& t.claims[c].row_range_start == s.claims[c].row_range_start
                &&& t.claims[c].row_range_end == s.claims[c].row_range_end
                &&& t.claims[c].instance_id == s.claims[c].instance_id
                &&& t.index.contains_key(own)
                &&& t.index[own].status == ClaimStatus::Pending
                &&& t.index[own].start == s.claims[c].row_range_start
                &&& t.index[own].end == s.claims[c].row_range_end
            }
            &&& s.claims.contains_key(c) && !(s.claims[c].status == ClaimStatus::Claimed
                && s.claims[c].lease_expires_at < now) ==> t.claims[c] == s.claims[c]
            &&& !(s.claims.contains_key(k.claim_id) && s.claims[k.claim_id].batch_id == k.batch_id
                && s.claims[k.claim_id].status == ClaimStatus::Claimed
                && s.claims[k.claim_id].lease_expires_at < now) ==> t.index.contains_key(k)
                == s.index.contains_key(k) && (s.index.contains_key(k) ==> t.index[k]
                == s.index[k])
            &&& t.batches.dom() == s.batches.dom()
            &&& s.batches.contains_key(b) ==> {
                &&& s.batches[b].release_attempts + gone_here.len() <= u32::MAX
                    ==> t.batches[b].release_attempts == s.batches[b].release_attempts
                    + gone_here.len()
                &&& s.batches[b].release_attempts + gone_here.len() > u32::MAX
                    ==> t.batches[b].release_attempts == u32::MAX
                &&& t.batches[b].batch_id == s.batches[b].batch_id
                &&& t.batches[b].component == s.batches[b].component
                &&& t.batches[b].schema_id == s.batches[b].schema_id
                &&& t.batches[b].ipc_bytes == s.batches[b].ipc_bytes
                &&& t.batches[b].total_rows == s.batches[b].total_rows
                &&& t.batches[b].created_at == s.batches[b].created_at
                &&& t.batches[b].checkpoint_seq == s.batches[b].checkpoint_seq
                &&& t.batches[b].status == s.batches[b].status
                &&& t.batches[b].poisoned_at == s.batches[b].poisoned_at
            }
            &&& t.checkpoints == s.checkpoints
            &&& t.instances == s.instances
            &&& t.pending == s.pending
            &&& t.last_applied == s.last_applied
            &&& t.last_membership == s.last_membership
        }),
{
    let t = next(s, CommandView::ReclaimExpired { now_at_propose: now }).0;
    let gone = s.claims.dom().filter(
        |id: Uid|
            s.claims[id].status == ClaimStatus::Claimed && s.claims[id].lease_expires_at < now,
    );
    let gone_here = gone.filter(|id: Uid| s.claims[id].batch_id == b);
    assert(gone =~= expired_claims(s, now));
    assert(gone_here =~= on_batch(s, expired_claims(s, now), b));
    assert(t.claims.dom() =~= s.claims.dom());
    assert(t.batches.dom() =~= s.batches.dom());
    if s.claims.contains_key(c) && s.claims[c].status == ClaimStatus::Claimed
        && s.claims[c].lease_expires_at < now {
        assert(gone.contains(c));
        assert(swept_key(s, gone, IndexKey { batch_id: s.claims[c].batch_id, claim_id: c }));
    }
}

/// The rows of a claim that a sweep took back are not taken any more.
pub proof fn law_swept_rows_are_free(s: TablesView, now: u64, c: Uid, row: int)
    requires
        consistent(s),
        s.claims.contains_key(c),
        s.claims[c].status == ClaimStatus::Claimed,
        s.claims[c].lease_expires_at < now,
        s.claims[c].row_range_start <= row < s.claims[c].row_range_end,
    ensures
        !row_taken(
            next(s, CommandView::ReclaimExpired { now_at_propose: now }).0.index,
            s.claims[c].batch_id,
            row,
        ),
{
    let t = next(s, CommandView::ReclaimExpired { now_at_propose: now }).0;
    let b = s.claims[c].batch_id;
    assert(expired_claims(s, now).contains(c));
    assert forall|q: IndexKey| #[trigger]
        t.index.contains_key(q) && q.batch_id == b && t.index[q].start <= row
            < t.index[q].end implies t.index[q].status == ClaimStatus::Pending by {
        if !swept_key(s, expired_claims(s, now), q) {
            assert(s.index.contains_key(q));
            if q.claim_id != c {
                lemma_others_apart(s, c, q, row);
            }
        }
    }
}

/// A known batch is poisoned for good at the time of the first command that says
/// so, and is pending no more; the answer tells that time. An unknown one is
/// refused. Nothing else changes.
pub proof fn law_poisoned_batch_is_marked(s: TablesView, batch_id: u64, now: u64)
    ensures
        ({
            let (t, r) = next(s, CommandView::PoisonBatch { batch_id, now_at_propose: now });
            let a = s.batches[batch_id];
            let b = t.batches[batch_id];
            &&& r is Error <==> !s.batches.contains_key(batch_id)
            &&& r is Error ==> t == s
            &&& s.batches.contains_key(batch_id) ==> {
                &&& r is BatchPoisoned
                &&& r->BatchPoisoned_batch_id == batch_id
                &&& a.status != BatchStatus::Poisoned ==> r->BatchPoisoned_poisoned_at == now
                    && b.poisoned_at == Some(now) && !t.pending.contains_key(batch_id)
                &&& a.status == BatchStatus::Poisoned ==> t == s
                &&& a.status == BatchStatus::Poisoned && a.poisoned_at is Some
                    ==> r->BatchPoisoned_poisoned_at == a.poisoned_at->0
                &&& t.batches.contains_key(batch_id)
                &&& b.status == BatchStatus::Poisoned
                &&& b.batch_id == a.batch_id
                &&& b.component == a.component
                &&& b.schema_id == a.schema_id
                &&& b.ipc_bytes == a.ipc_bytes
                &&& b.total_rows == a.total_rows
                &&& b.created_at == a.created_at
                &&& b.checkpoint_seq == a.checkpoint_seq
                &&& b.release_attempts == a.release_attempts
                &&& t.batches.remove(batch_id) == s.batches.remove(batch_id)
                &&& t.pending.remove(batch_id) == s.pending.remove(batch_id)
            }
            &&& t.claims == s.claims
            &&& t.index == s.index
            &&& t.checkpoints == s.checkpoints
            &&& t.instances == s.instances
            &&& t.last_applied == s.last_applied
            &&& t.last_membership == s.last_membership
        }),
{
    let t = next(s, CommandView::PoisonBatch { batch_id, now_at_propose: now }).0;
    assert(t.batches.remove(batch_id) =~= s.batches.remove(batch_id));
    assert(t.pending.remove(batch_id) =~= s.pending.remove(batch_id));
}

/// A command is ready to be applied unless a lease would end after the last
/// moment there is, or a batch has no number left for a checkpoint.
pub proof fn law_ordinary_commands_are_in_range(s: TablesView, command: CommandView)
    requires
        forall|b: u64| #[trigger]
            s.batches.contains_key(b) ==> s.batches[b].checkpoint_seq < u64::MAX,
        command is ClaimRowRange ==> command->ClaimRowRange_now_at_propose
            + command->ClaimRowRange_lease_ttl_millis <= u64::MAX,
        command is RenewClaim ==> command->RenewClaim_now_at_propose
            + command->RenewClaim_lease_ttl_millis <= u64::MAX,
    ensures
        in_range(s, command),
{
}

/// A row is taken where a claimed or completed range of its batch holds it, and
/// completed where a completed one does.
pub proof fn law_taken_rows(index: Map<IndexKey, IndexEntry>, batch_id: u64, row: int)
    ensures
        row_taken(index, batch_id, row) <==> exists|k: IndexKey| #[trigger]
            index.contains_key(k) && k.batch_id == batch_id && (index[k].status
                == ClaimStatus::Claimed || index[k].status == ClaimStatus::Completed)
                && index[k].start <= row < index[k].end,
        row_completed(index, batch_id, row) <==> exists|k: IndexKey| #[trigger]
            index.contains_key(k) && k.batch_id == batch_id && index[k].status
                == ClaimStatus::Completed && index[k].start <= row < index[k].end,
{
    if exists|k: IndexKey| #[trigger]
        index.contains_key(k) && k.batch_id == batch_id && (index[k].status == ClaimStatus::Claimed
            || index[k].status == ClaimStatus::Completed) && index[k].start <= row
            < index[k].end {
        let k = choose|k: IndexKey| #[trigger]
            index.contains_key(k) && k.batch_id == batch_id && (index[k].status
                == ClaimStatus::Claimed || index[k].status == ClaimStatus::Completed)
                && index[k].start <= row < index[k].end;
        assert(index.contains_key(k));
        assert(row_taken(index, batch_id, row));
    }
}

/// Offered rows are rows of a known batch that no claimed or completed range
/// holds, from the first such row on, as far as they go: up to the batch's end or
/// up to a taken range. Where a known batch offers none, all its rows are taken.
pub proof fn law_offered_rows(
    s: TablesView,
    batch_id: u64,
    r: Option<(u32, u32)>,
    k: IndexKey,
    row: int,
)
    requires
        pending_range_is(s, batch_id, r),
        forall|q: IndexKey| #[trigger]
            s.index.contains_key(q) ==> s.index[q].start < s.index[q].end,
    ensures
        !s.batches.contains_key(batch_id) ==> r is None,
        r matches Some(range) ==> {
            &&& s.batches.contains_key(batch_id)
            &&& range.0 < range.1 <= s.batches[batch_id].total_rows
            &&& s.index.contains_key(k) && k.batch_id == batch_id && (s.index[k].status
                == ClaimStatus::Claimed || s.index[k].status == ClaimStatus::Completed)
                ==> range.1 <= s.index[k].start || s.index[k].end <= range.0
            &&& 0 <= row < range.0 ==> exists|q: IndexKey| #[trigger]
                s.index.contains_key(q) && q.batch_id == batch_id && (s.index[q].status
                    == ClaimStatus::Claimed || s.index[q].status == ClaimStatus::Completed)
                    && s.index[q].start <= row < s.index[q].end
            &&& range.1 < s.batches[batch_id].total_rows ==> exists|q: IndexKey| #[trigger]
                s.index.contains_key(q) && q.batch_id == batch_id && (s.index[q].status
                    == ClaimStatus::Claimed || s.index[q].status == ClaimStatus::Completed)
                    && s.index[q].start == range.1
        },
        r is None && s.batches.contains_key(batch_id) && 0 <= row
            < s.batches[batch_id].total_rows ==> exists|q: IndexKey| #[trigger]
            s.index.contains_key(q) && q.batch_id == batch_id && (s.index[q].status
                == ClaimStatus::Claimed || s.index[q].status == ClaimStatus::Completed)
                && s.index[q].start <= row < s.index[q].end,
{
    if s.batches.contains_key(batch_id) {
        let total = s.batches[batch_id].total_rows;
        let a = choose|a: int| #[trigger]
            first_free_row(s.index, batch_id, a) && if a < total {
                r matches Some(range) && range.0 == a && a < range.1 <= total && (range.1 == total
                    || taken_range_starts(s.index, batch_id, range.1 as int)) && forall|b: int|
                    a < b < range.1 ==> !#[trigger] taken_range_starts(s.index, batch_id, b)
            } else {
                r is None
            };
        law_taken_rows(s.index, batch_id, row);
        if 0 <= row < a {
            assert(row_taken(s.index, batch_id, row));
        }
        if r is Some {
            let range = r->0;
            if s.index.contains_key(k) && k.batch_id == batch_id && (s.index[k].status
                == ClaimStatus::Claimed || s.index[k].status == ClaimStatus::Completed) && !(range.1
                <= s.index[k].start || s.index[k].end <= range.0) {
                if s.index[k].start <= a {
                    assert(row_taken(s.index, batch_id, a));
                } else {
                    assert(taken_range_starts(s.index, batch_id, s.index[k].start as int));
                }
            }
            if range.1 < total {
                assert(taken_range_starts(s.index, batch_id, range.1 as int));
                let q = choose|q: IndexKey| #[trigger]
                    s.index.contains_key(q) && q.batch_id == batch_id && (s.index[q].status
                        == ClaimStatus::Claimed || s.index[q].status == ClaimStatus::Completed)
                        && s.index[q].start == range.1;
                assert(s.index.contains_key(q));
            }
        }
    }
}

/// The batch that is offered is the lowest pending one that has rows to offer, with
/// those rows; none is offered only where no pending batch has any.
pub proof fn law_offered_batch_is_the_lowest(
    s: TablesView,
    offered: Option<(u64, (u32, u32))>,
    other: u64,
    rows: (u32, u32),
)
    requires
        pending_batch_is(s, offered),
    ensures
        offered matches Some(o) ==> s.pending.contains_key(o.0) && pending_range_is(
            s,
            o.0,
            Some(o.1),
        ),
        s.pending.contains_key(other) && pending_range_is(s, other, Some(rows)) ==> (
        offered matches Some(o) && o.0 <= other),
{
    if s.pending.contains_key(other) && pending_range_is(s, other, Some(rows)) && !(
    offered matches Some(o) && o.0 <= other) {
        assert(pending_range_is(s, other, None));
        crate::consensus::laws::law_pending_range_unique(s, other, None, Some(rows));
    }
}

/// The claims counted as completed are those whose index entry says so.
pub proof fn law_completed_claims(index: Map<IndexKey, IndexEntry>, k: IndexKey)
    ensures
        completed_keys(index).contains(k) <==> index.contains_key(k) && index[k].status
            == ClaimStatus::Completed,
{
}

/// A snapshot replaces what the tables held: afterwards a batch is pending exactly
/// if the snapshot has it active, and the watermark and the membership are those
/// that came with it, where they did.
pub proof fn law_restored_tables(
    s: TablesView,
    batches: Seq<BatchView>,
    claims: Seq<(Uid, ClaimRecord)>,
    checkpoints: Seq<(CheckpointKey, CheckpointView)>,
    instances: Seq<(Uid, InstanceRecord)>,
    sm_meta: Option<(Seq<u8>, Seq<u8>)>,
    b: u64,
)
    ensures
        ({
            let t = restored(s, batches, claims, checkpoints, instances, sm_meta);
            &&& t.pending.contains_key(b) <==> t.batches.contains_key(b) && t.batches[b].status
                == BatchStatus::Active
            &&& sm_meta matches Some(m) ==> t.last_applied == Some(m.0) && t.last_membership
                == Some(m.1)
            &&& sm_meta is None ==> t.last_applied == s.last_applied && t.last_membership
                == s.last_membership
            &&& t.claims_table
        }),
{
}

/// What is said of a stored batch, a stored checkpoint, a command or an answer is
/// said of every field of it.
pub proof fn law_records_are_seen_whole(
    b: MasterBatchRecord,
    c: CheckpointRecord,
    command: ConsensusCommand,
    answer: ConsensusResponse,
)
    ensures
        b@.batch_id == b.batch_id && b@.component == b.component@ && b@.schema_id == b.schema_id
            && b@.ipc_bytes == b.ipc_bytes@ && b@.total_rows == b.total_rows && b@.created_at
            == b.created_at && b@.checkpoint_seq == b.checkpoint_seq && b@.release_attempts
            == b.release_attempts && b@.status == b.status && b@.poisoned_at == b.poisoned_at,
        c@.batch_id == c.batch_id && c@.stage_idx == c.stage_idx && c@.ipc_bytes == c.ipc_bytes@
            && c@.schema_id == c.schema_id && c@.created_at == c.created_at && c@.content_hash
            == c.content_hash,
        command matches ConsensusCommand::RegisterMasterBatch {
            batch_id,
            component,
            schema_id,
            ipc_bytes,
            total_rows,
            now_at_propose,
        } ==> command@ == (CommandView::RegisterMasterBatch {
            batch_id,
            component: component@,
            schema_id,
            ipc_bytes: ipc_bytes@,
            total_rows,
            now_at_propose,
        }),
        command matches ConsensusCommand::ClaimRowRange {
            batch_id,
            row_range_start,
            row_range_end,
            claim_id,
            instance_id,
            lease_ttl_millis,
            now_at_propose,
        } ==> command@ == (CommandView::ClaimRowRange {
            batch_id,
            row_range_start,
            row_range_end,
            claim_id,
            instance_id,
            lease_ttl_millis,
            now_at_propose,
        }),
        command matches ConsensusCommand::RenewClaim {
            claim_id,
            instance_id,
            lease_ttl_millis,
            now_at_propose,
        } ==> command@ == (CommandView::RenewClaim {
            claim_id,
            instance_id,
            lease_ttl_millis,
            now_at_propose,
        }),
        command matches ConsensusCommand::AckClaim { claim_id, instance_id } ==> command@ == (
        CommandView::AckClaim { claim_id, instance_id }),
        command matches ConsensusCommand::ReleaseClaim { claim_id, instance_id } ==> command@ == (
        CommandView::ReleaseClaim { claim_id, instance_id }),
        command matches ConsensusCommand::Checkpoint {
            claim_id,
            stage_idx,
            ipc_bytes,
            schema_id,
            now_at_propose,
        } ==> command@ == (CommandView::Checkpoint {
            claim_id,
            stage_idx,
            ipc_bytes: ipc_bytes@,
            schema_id,
            now_at_propose,
        }),
        command matches ConsensusCommand::Heartbeat { instance_id, at } ==> command@ == (
        CommandView::Heartbeat { instance_id, at }),
        command matches ConsensusCommand::ReclaimExpired { now_at_propose } ==> command@ == (
        CommandView::ReclaimExpired { now_at_propose }),
        command matches ConsensusCommand::PoisonBatch { batch_id, now_at_propose } ==> command@
            == (CommandView::PoisonBatch { batch_id, now_at_propose }),
        answer matches ConsensusResponse::MasterBatchRegistered { batch_id } ==> answer@ == (
        ResponseView::MasterBatchRegistered { batch_id }),
        answer matches ConsensusResponse::BatchClaimed {
            batch_id,
            component,
            row_range_start,
            row_range_end,
            schema_id,
            claim_id,
            instance_id,
            lease_expires_at,
        } ==> answer@ == (ResponseView::BatchClaimed {
            batch_id,
            component: component@,
            row_range_start,
            row_range_end,
            schema_id,
            claim_id,
            instance_id,
            lease_expires_at,
        }),
        answer matches ConsensusResponse::ClaimRenewed { expires_at } ==> answer@ == (
        ResponseView::ClaimRenewed { expires_at }),
        answer is ClaimAcked ==> answer@ is ClaimAcked,
        answer is ClaimReleased ==> answer@ is ClaimReleased,
        answer matches ConsensusResponse::CheckpointWritten { checkpoint_id } ==> answer@ == (
        ResponseView::CheckpointWritten { checkpoint_id }),
        answer is HeartbeatRecorded ==> answer@ is HeartbeatRecorded,
        answer matches ConsensusResponse::ExpiredReclaimed { reclaimed_count } ==> answer@ == (
        ResponseView::ExpiredReclaimed { reclaimed_count }),
        answer matches ConsensusResponse::BatchPoisoned { batch_id, poisoned_at } ==> answer@ == (
        ResponseView::BatchPoisoned { batch_id, poisoned_at }),
        answer matches ConsensusResponse::Error { message } ==> answer@ == (ResponseView::Error {
            message: message@,
        }),
{
}

/// Index rows come by batch, then by claim; checkpoints by claim, then by stage.
pub proof fn law_keys_rank_by_their_parts(
    a: IndexKey,
    b: IndexKey,
    c: CheckpointKey,
    d: CheckpointKey,
)
    ensures
        a.rank() < b.rank() <==> a.batch_id < b.batch_id || (a.batch_id == b.batch_id && a.claim_id
            < b.claim_id),
        c.rank() < d.rank() <==> c.claim_id < d.claim_id || (c.claim_id == d.claim_id
            && c.stage_idx < d.stage_idx),
{
}

/// Rows are claimed or the claim is refused with the first reason of these: they are
/// none, the batch is not known, it is poisoned, it does not have them, a claimed or
/// completed range lies across them, the id is of a claim that is held or completed.
pub proof fn law_refused_claims_are_told(
    s: TablesView,
    batch_id: u64,
    start: u32,
    end: u32,
    claim_id: Uid,
    instance_id: Uid,
    ttl: u64,
    now: u64,
)
    ensures
        ({
            let (t, r) = next(
                s,
                CommandView::ClaimRowRange {
                    batch_id,
                    row_range_start: start,
                    row_range_end: end,
                    claim_id,
                    instance_id,
                    lease_ttl_millis: ttl,
                    now_at_propose: now,
                },
            );
            let repeated = s.claims.contains_key(claim_id) && s.claims[claim_id].batch_id
                == batch_id && s.claims[claim_id].row_range_start == start
                && s.claims[claim_id].row_range_end == end && s.claims[claim_id].instance_id
                == instance_id;
            let known = s.batches.contains_key(batch_id);
            let b = s.batches[batch_id];
            let range = "row_range ["@ + decimal_text(start as nat) + ", "@ + decimal_text(
                end as nat,
            ) + ")"@;
            let id = decimal_text(batch_id as nat);
            &&& r is Error || repeated ==> t == s
            &&& r is BatchClaimed && !repeated ==> t.claims_table
            &&& start >= end ==> r == (ResponseView::Error {
                message: "invalid row_range: start "@ + decimal_text(start as nat) + " >= end "@
                    + decimal_text(end as nat),
            })
            &&& start < end && repeated && !known ==> r == (ResponseView::Error {
                message: "batch_id "@ + id + " not found on idempotent replay"@,
            })
            &&& start < end && !repeated && !known ==> r == (ResponseView::Error {
                message: "batch_id "@ + id + " not found"@,
            })
            &&& start < end && !repeated && known && b.status == BatchStatus::Poisoned ==> r == (
            ResponseView::Error { message: "batch_id "@ + id + " is poisoned"@ })
            &&& start < end && !repeated && known && b.status != BatchStatus::Poisoned && end
                > b.total_rows ==> r == (ResponseView::Error {
                message: range + (" exceeds total_rows "@ + decimal_text(b.total_rows as nat)),
            })
        }),
{
}

/// Of the last two reasons, rows that are taken come before an id that is.
pub proof fn law_taken_claims_are_told(
    s: TablesView,
    batch_id: u64,
    start: u32,
    end: u32,
    claim_id: Uid,
    instance_id: Uid,
    ttl: u64,
    now: u64,
    k: IndexKey,
)
    requires
        start < end,
        s.batches.contains_key(batch_id),
        s.batches[batch_id].status != BatchStatus::Poisoned,
        end <= s.batches[batch_id].total_rows,
        !(s.claims.contains_key(claim_id) && s.claims[claim_id].batch_id == batch_id
            && s.claims[claim_id].row_range_start == start && s.claims[claim_id].row_range_end
            == end && s.claims[claim_id].instance_id == instance_id),
    ensures
        ({
            let (t, r) = next(
                s,
                CommandView::ClaimRowRange {
                    batch_id,
                    row_range_start: start,
                    row_range_end: end,
                    claim_id,
                    instance_id,
                    lease_ttl_millis: ttl,
                    now_at_propose: now,
                },
            );
            let across = forall|q: IndexKey| #[trigger]
                s.index.contains_key(q) && q.batch_id == batch_id && (s.index[q].status
                    == ClaimStatus::Claimed || s.index[q].status == ClaimStatus::Completed)
                    ==> end <= s.index[q].start || s.index[q].end <= start;
            let old_key = IndexKey { batch_id: s.claims[claim_id].batch_id, claim_id };
            &&& s.index.contains_key(k) && k.batch_id == batch_id && (s.index[k].status
                == ClaimStatus::Claimed || s.index[k].status == ClaimStatus::Completed)
                && s.index[k].start < end && start < s.index[k].end ==> r == (ResponseView::Error {
                message: "row_range ["@ + decimal_text(start as nat) + ", "@ + decimal_text(
                    end as nat,
                ) + ")"@ + " overlaps an existing active claim"@,
            })
            &&& across && s.claims.contains_key(claim_id) && s.claims[claim_id].status
                != ClaimStatus::Pending ==> r == (ResponseView::Error {
                message: "claim "@ + uuid_hyphenated(claim_id) + " already exists with other rows"@,
            })
            &&& r is BatchClaimed && s.claims.contains_key(claim_id) && old_key.batch_id
                != batch_id ==> !t.index.contains_key(old_key)
        }),
{
    if s.index.contains_key(k) && k.batch_id == batch_id && (s.index[k].status
        == ClaimStatus::Claimed || s.index[k].status == ClaimStatus::Completed)
        && s.index[k].start < end && start < s.index[k].end {
        assert(entry_overlaps(s.index[k], start, end));
        assert(batch_overlap(s.index, batch_id, start, end));
    }
}

/// A command on a claim that the instance does not hold is refused, and the reason is
/// told: the claim is not there, it is not claimed, or another holds it. A lease that
/// ran out is not renewed.
pub proof fn law_claims_not_held_are_told(
    s: TablesView,
    claim_id: Uid,
    instance_id: Uid,
    ttl: u64,
    now: u64,
)
    ensures
        ({
            let renewed = next(
                s,
                CommandView::RenewClaim {
                    claim_id,
                    instance_id,
                    lease_ttl_millis: ttl,
                    now_at_propose: now,
                },
            );
            let acked = next(s, CommandView::AckClaim { claim_id, instance_id });
            let released = next(s, CommandView::ReleaseClaim { claim_id, instance_id });
            let known = s.claims.contains_key(claim_id);
            let c = s.claims[claim_id];
            let claim = "claim "@ + uuid_hyphenated(claim_id);
            let held = known && c.status == ClaimStatus::Claimed && c.instance_id == instance_id;
            &&& renewed.0.claims_table && acked.0.claims_table && released.0.claims_table
            &&& !known ==> renewed.1 == (ResponseView::Error { message: claim + " not found"@ })
                && acked.1 == renewed.1 && released.1 == renewed.1
            &&& known && c.status != ClaimStatus::Claimed ==> renewed.1 == (ResponseView::Error {
                message: claim + " is not in Claimed state"@,
            }) && acked.1 == (ResponseView::Error { message: claim + " not in Claimed state"@ })
                && released.1 == acked.1
            &&& known && c.status == ClaimStatus::Claimed && c.instance_id != instance_id
                ==> renewed.1 == (ResponseView::Error {
                message: claim + " held by different instance"@,
            }) && acked.1 == renewed.1 && released.1 == renewed.1
            &&& held && c.lease_expires_at < now ==> renewed.1 == (ResponseView::Error {
                message: claim + " lease has already expired"@,
            })
        }),
{
}

/// The words in which a batch or a checkpoint is refused. Only commands on claims make
/// the table of claims.
pub proof fn law_refused_contents_are_told(
    s: TablesView,
    batch_id: u64,
    component: Seq<char>,
    schema_id: u32,
    ipc_bytes: Seq<u8>,
    total_rows: u32,
    claim_id: Uid,
    stage_idx: u32,
    now: u64,
)
    ensures
        ({
            let registered = next(
                s,
                CommandView::RegisterMasterBatch {
                    batch_id,
                    component,
                    schema_id,
                    ipc_bytes,
                    total_rows,
                    now_at_propose: now,
                },
            );
            let written = next(
                s,
                CommandView::Checkpoint {
                    claim_id,
                    stage_idx,
                    ipc_bytes,
                    schema_id,
                    now_at_propose: now,
                },
            );
            let poisoned = next(s, CommandView::PoisonBatch { batch_id, now_at_propose: now });
            let swept = next(s, CommandView::ReclaimExpired { now_at_propose: now });
            let beat = next(s, CommandView::Heartbeat { instance_id: claim_id, at: now });
            let size = " ("@ + decimal_text(ipc_bytes.len())
                + " bytes) exceeds MAX_LOG_ENTRY_BYTES ("@ + decimal_text(1_048_576) + ")"@;
            let known = s.batches.contains_key(batch_id);
            &&& registered.0.claims_table == s.claims_table && written.0.claims_table
                == s.claims_table && poisoned.0.claims_table == s.claims_table
                && swept.0.claims_table == s.claims_table && beat.0.claims_table
                == s.claims_table
            &&& ipc_bytes.len() >= 1_048_576 ==> registered.1 == (ResponseView::Error {
                message: "RegisterMasterBatch: ipc_bytes"@ + size,
            }) && written.1 == (ResponseView::Error { message: "Checkpoint ipc_bytes"@ + size })
            &&& ipc_bytes.len() < 1_048_576 && known && s.batches[batch_id].status
                == BatchStatus::Poisoned ==> registered.1 == (ResponseView::Error {
                message: "RegisterMasterBatch: batch_id "@ + decimal_text(batch_id as nat)
                    + " is poisoned"@,
            })
            &&& ipc_bytes.len() < 1_048_576 && !s.claims.contains_key(claim_id)
                && s.claims_table ==> written.1 == (ResponseView::Error {
                message: "claim_id "@ + uuid_hyphenated(claim_id) + " not found"@,
            })
            &&& ipc_bytes.len() < 1_048_576 && !s.claims.contains_key(claim_id)
                && !s.claims_table ==> written.1 == (ResponseView::Error {
                message: "claim_id "@ + uuid_hyphenated(claim_id) + " not found (table missing)"@,
            })
            &&& !known ==> poisoned.1 == (ResponseView::Error {
                message: "PoisonBatch: batch_id "@ + decimal_text(batch_id as nat) + " not found"@,
            })
            &&& known && s.batches[batch_id].status == BatchStatus::Poisoned
                && s.batches[batch_id].poisoned_at is None ==> poisoned.1 == (
            ResponseView::BatchPoisoned { batch_id, poisoned_at: now })
        }),
{
    let size = " ("@ + decimal_text(ipc_bytes.len()) + " bytes) exceeds MAX_LOG_ENTRY_BYTES ("@
        + decimal_text(1_048_576) + ")"@;
    let a = "RegisterMasterBatch: ipc_bytes"@;
    let b = "Checkpoint ipc_bytes"@;
    assert(oversize_text(a, ipc_bytes.len()) =~= a + size);
    assert(oversize_text(b, ipc_bytes.len()) =~= b + size);
}

/// A row of a snapshot is in the restored tables as it is, in place of one of the same
/// key before it, and a claim's row is in the index too. Every other row is as without
/// it, and without rows the tables are empty.
pub proof fn law_snapshot_rows_are_restored(
    s: TablesView,
    batches: Seq<BatchView>,
    claims: Seq<(Uid, ClaimRecord)>,
    checkpoints: Seq<(CheckpointKey, CheckpointView)>,
    instances: Seq<(Uid, InstanceRecord)>,
    m: Option<(Seq<u8>, Seq<u8>)>,
    b: BatchView,
    c: (Uid, ClaimRecord),
    p: (CheckpointKey, CheckpointView),
    i: (Uid, InstanceRecord),
)
    ensures
        ({
            let t = restored(s, batches, claims, checkpoints, instances, m);
            let n = restored(
                s,
                batches.push(b),
                claims.push(c),
                checkpoints.push(p),
                instances.push(i),
                m,
            );
            &&& n.batches == t.batches.insert(b.batch_id, b)
            &&& n.claims == t.claims.insert(c.0, c.1)
            &&& n.checkpoints == t.checkpoints.insert(p.0, p.1)
            &&& n.instances == t.instances.insert(i.0, i.1)
            &&& n.index == t.index.insert(
                IndexKey { batch_id: c.1.batch_id, claim_id: c.0 },
                IndexEntry {
                    start: c.1.row_range_start,
                    end: c.1.row_range_end,
                    status: c.1.status,
                },
            )
        }),
        ({
            let e = restored(s, Seq::empty(), Seq::empty(), Seq::empty(), Seq::empty(), m);
            &&& e.batches == Map::<u64, BatchView>::empty()
            &&& e.claims == Map::<Uid, ClaimRecord>::empty()
            &&& e.index == Map::<IndexKey, IndexEntry>::empty()
            &&& e.checkpoints == Map::<CheckpointKey, CheckpointView>::empty()
            &&& e.instances == Map::<Uid, InstanceRecord>::empty()
        }),
{
    let f = |x: BatchView| (x.batch_id, x);
    assert(batches.push(b).map_values(f).drop_last() =~= batches.map_values(f));
    assert(claims.push(c).drop_last() =~= claims);
    assert(checkpoints.push(p).drop_last() =~= checkpoints);
    assert(instances.push(i).drop_last() =~= instances);
    assert(index_rows(claims.push(c)).drop_last() =~= index_rows(claims));
    let none = Seq::<BatchView>::empty();
    assert(none.map_values(f) =~= Seq::empty());
    assert(index_rows(Seq::empty()) =~= Seq::empty());
}

/// The dump of a table holds each of its rows once, from the lowest key up.
pub proof fn law_dump_is_the_table(
    claims: Map<Uid, ClaimRecord>,
    rows: Seq<(Uid, ClaimRecord)>,
    i: int,
    j: int,
    id: Uid,
)
    requires
        dumped(claims, rows),
        0 <= i < j < rows.len(),
    ensures
        rows[i].0 < rows[j].0,
        claims.contains_key(rows[i].0) && claims[rows[i].0] == rows[i].1,
        claims.contains_key(rows[j].0) && claims[rows[j].0] == rows[j].1,
        claims.contains_key(id) ==> exists|k: int|
            0 <= k < rows.len() && (#[trigger] rows[k]).0 == id && rows[k].1 == claims[id],
{
    if claims.contains_key(id) {
        let k = choose|k: int| 0 <= k < rows.len() && (#[trigger] rows[k]).0 == id;
        assert(rows[k].1 == claims[id]);
    }
}

/// A dumped batch is one of the table, each of the table is dumped, and they come from
/// the lowest id up.
pub proof fn law_dumped_batches(
    batches: Map<u64, BatchView>,
    v: Seq<MasterBatchRecord>,
    i: int,
    id: u64,
)
    requires
        batches_dumped(batches, v),
        forall|b: u64| #[trigger] batches.contains_key(b) ==> batches[b].batch_id == b,
    ensures
        0 <= i < v.len() ==> batches.contains_key(v[i].batch_id) && batches[v[i].batch_id] == v[i]@,
        0 <= i && i + 1 < v.len() ==> v[i].batch_id < v[i + 1].batch_id,
        batches.contains_key(id) ==> exists|k: int|
            0 <= k < v.len() && (#[trigger] v[k]).batch_id == id,
        batch_views(v).len() == v.len(),
        0 <= i < v.len() ==> batch_views(v)[i] == v[i]@,
{
    let keys = choose|keys: Seq<u64>|
        keys.len() == v.len() && dumped(batches, #[trigger] keyed_batches(keys, v));
    let rows = keyed_batches(keys, v);
    assert forall|k: int| 0 <= k < v.len() implies (#[trigger] rows[k]).0 == v[k].batch_id
        && batches.contains_key(v[k].batch_id) && batches[v[k].batch_id] == v[k]@ by {
        assert(batches.contains_key(rows[k].0) && batches[rows[k].0] == rows[k].1);
    }
    if 0 <= i < v.len() {
        assert(rows[i].0 == v[i].batch_id);
    }
    if 0 <= i && i + 1 < v.len() {
        assert(rows[i + 1].0 == v[i + 1].batch_id);
        assert(rows[i].0.rank() < rows[i + 1].0.rank());
    }
    if batches.contains_key(id) {
        let k = choose|k: int| 0 <= k < rows.len() && (#[trigger] rows[k]).0 == id;
        assert(rows[k].0 == v[k].batch_id);
    }
}

/// A dumped checkpoint is told by its claim's sixteen bytes and its stage's four.
pub proof fn law_dumped_checkpoints(
    v: Seq<([u8; 20], CheckpointRecord)>,
    rows: Seq<(CheckpointKey, CheckpointView)>,
    i: int,
)
    requires
        checkpoint_rows(v, rows),
        0 <= i < v.len(),
    ensures
        rows.len() == v.len(),
        v[i].0@ == be_bytes(rows[i].0.claim_id as nat, 16) + be_bytes(
            rows[i].0.stage_idx as nat,
            4,
        ),
        v[i].1@ == rows[i].1,
{
}

/// The tables are seen as their rows and the marks kept beside them.
pub proof fn law_tables_are_seen_whole(db: Tables)
    ensures
        db@.batches == db.batches@ && db@.claims == db.claims@ && db@.index == db.index@,
        db@.checkpoints == db.checkpoints@ && db@.instances == db.instances@ && db@.pending
            == db.pending@,
        db@.claims_table == db.claims_table,
        db.last_applied is None ==> db@.last_applied is None,
        db.last_applied matches Some(b) ==> db@.last_applied == Some(b@),
        db.last_membership is None ==> db@.last_membership is None,
        db.last_membership matches Some(b) ==> db@.last_membership == Some(b@),
{
}

/// Tables to which nothing was applied hold no row and no mark.
pub proof fn law_new_tables_are_empty(batch_id: u64, id: Uid, k: IndexKey, p: CheckpointKey)
    ensures
        ({
            let e = empty_tables();
            &&& !e.batches.contains_key(batch_id) && !e.pending.contains_key(batch_id)
            &&& !e.claims.contains_key(id) && !e.instances.contains_key(id)
            &&& !e.index.contains_key(k) && !e.checkpoints.contains_key(p)
            &&& !e.claims_table && e.last_applied is None && e.last_membership is None
        }),
{
}

} // verus!
