//! What the state machine holds and what each command does to it.
//!
//! The tables are seen as maps. Each command is a function from the tables to
//! the tables after it and the response; nothing else goes in, so replicas that
//! apply the same commands hold the same tables.

use vstd::prelude::*;

use crate::consensus::codec::content_hash;
use crate::consensus::types::{ClaimStatus, CommandView, ResponseView, Uid, MAX_LOG_ENTRY_BYTES};
use crate::order::be_bytes;
use crate::table::Key;
use crate::text::{decimal_text, uuid_hyphenated};

verus! {

/// Eligibility status of a master batch.
#[derive(Debug, Clone, Copy, PartialEq, Eq, Structural)]
pub enum BatchStatus {
    /// Eligible for claiming.
    Active,
    /// Permanently disqualified; never handed out as pending work again.
    Poisoned,
}

impl Default for BatchStatus {
    fn default() -> (r: Self)
        ensures
            r == BatchStatus::Active,
    {
        BatchStatus::Active
    }
}

/// Stored master batch record.
#[derive(Debug, PartialEq, Eq)]
pub struct MasterBatchRecord {
    pub batch_id: u64,
    pub component: String,
    pub schema_id: u32,
    /// Arrow IPC bytes for the full master record batch.
    pub ipc_bytes: Vec<u8>,
    pub total_rows: u32,
    pub created_at: u64,
    /// Counts the checkpoints written under this batch.
    pub checkpoint_seq: u64,
    /// Releases and lease expiries since the last ack.
    pub release_attempts: u32,
    pub status: BatchStatus,
    /// When the batch was poisoned, in unix milliseconds.
    pub poisoned_at: Option<u64>,
}

/// Stored claim record.
#[derive(Debug, Clone, Copy, PartialEq, Eq, Structural)]
pub struct ClaimRecord {
    pub batch_id: u64,
    pub row_range_start: u32,
    pub row_range_end: u32,
    pub instance_id: Uid,
    pub lease_expires_at: u64,
    pub status: ClaimStatus,
}

/// Stored checkpoint record.
#[derive(Debug, PartialEq, Eq)]
pub struct CheckpointRecord {
    pub batch_id: u64,
    pub stage_idx: u32,
    pub ipc_bytes: Vec<u8>,
    pub schema_id: u32,
    pub created_at: u64,
    /// Hash of claim, stage and payload: a repeat of the same checkpoint under
    /// a fresh timestamp has the same hash.
    pub content_hash: u64,
}

/// Per-instance heartbeat record.
#[derive(Debug, Clone, Copy, PartialEq, Eq, Structural)]
pub struct InstanceRecord {
    pub last_heartbeat_at: u64,
}

/// Key of the per-batch claim index.
#[derive(Debug, Clone, Copy, PartialEq, Eq, Structural)]
pub struct IndexKey {
    pub batch_id: u64,
    pub claim_id: Uid,
}

/// What the per-batch claim index says of one claim.
#[derive(Debug, Clone, Copy, PartialEq, Eq, Structural)]
pub struct IndexEntry {
    pub start: u32,
    pub end: u32,
    pub status: ClaimStatus,
}

/// Key of the checkpoint table.
#[derive(Debug, Clone, Copy, PartialEq, Eq, Structural)]
pub struct CheckpointKey {
    pub claim_id: Uid,
    pub stage_idx: u32,
}

/// A row that says only that its key is there.
#[derive(Debug, Clone, Copy, PartialEq, Eq, Structural)]
pub struct Marker;

impl Key for IndexKey {
    /// By batch, then by claim.
    open spec fn rank(self) -> int {
        self.batch_id as int * 0x1_0000_0000_0000_0000_0000_0000_0000_0000 + self.claim_id as int
    }

    proof fn rank_injective(a: Self, b: Self) {
    }

    fn is_before(&self, other: &Self) -> (r: bool) {
        self.batch_id < other.batch_id || (self.batch_id == other.batch_id && self.claim_id
            < other.claim_id)
    }
}

impl Key for CheckpointKey {
    /// By claim, then by stage.
    open spec fn rank(self) -> int {
        self.claim_id as int * 0x1_0000_0000 + self.stage_idx as int
    }

    proof fn rank_injective(a: Self, b: Self) {
    }

    fn is_before(&self, other: &Self) -> (r: bool) {
        self.claim_id < other.claim_id || (self.claim_id == other.claim_id && self.stage_idx
            < other.stage_idx)
    }
}

/// The contents of a [`MasterBatchRecord`].
pub ghost struct BatchView {
    pub batch_id: u64,
    pub component: Seq<char>,
    pub schema_id: u32,
    pub ipc_bytes: Seq<u8>,
    pub total_rows: u32,
    pub created_at: u64,
    pub checkpoint_seq: u64,
    pub release_attempts: u32,
    pub status: BatchStatus,
    pub poisoned_at: Option<u64>,
}

/// The contents of a [`CheckpointRecord`].
pub ghost struct CheckpointView {
    pub batch_id: u64,
    pub stage_idx: u32,
    pub ipc_bytes: Seq<u8>,
    pub schema_id: u32,
    pub created_at: u64,
    pub content_hash: u64,
}

impl View for MasterBatchRecord {
    type V = BatchView;

    open spec fn view(&self) -> BatchView {
        BatchView {
            batch_id: self.batch_id,
            component: self.component@,
            schema_id: self.schema_id,
            ipc_bytes: self.ipc_bytes@,
            total_rows: self.total_rows,
            created_at: self.created_at,
            checkpoint_seq: self.checkpoint_seq,
            release_attempts: self.release_attempts,
            status: self.status,
            poisoned_at: self.poisoned_at,
        }
    }
}

impl View for CheckpointRecord {
    type V = CheckpointView;

    open spec fn view(&self) -> CheckpointView {
        CheckpointView {
            batch_id: self.batch_id,
            stage_idx: self.stage_idx,
            ipc_bytes: self.ipc_bytes@,
            schema_id: self.schema_id,
            created_at: self.created_at,
            content_hash: self.content_hash,
        }
    }
}

impl Clone for MasterBatchRecord {
    fn clone(&self) -> (r: Self)
        ensures
            r@ == self@,
    {
        let ipc_bytes = self.ipc_bytes.clone();
        assert(ipc_bytes@ =~= self.ipc_bytes@);
        MasterBatchRecord {
            batch_id: self.batch_id,
            component: self.component.clone(),
            schema_id: self.schema_id,
            ipc_bytes,
            total_rows: self.total_rows,
            created_at: self.created_at,
            checkpoint_seq: self.checkpoint_seq,
            release_attempts: self.release_attempts,
            status: self.status,
            poisoned_at: self.poisoned_at,
        }
    }
}

impl Clone for CheckpointRecord {
    fn clone(&self) -> (r: Self)
        ensures
            r@ == self@,
    {
        let ipc_bytes = self.ipc_bytes.clone();
        assert(ipc_bytes@ =~= self.ipc_bytes@);
        CheckpointRecord {
            batch_id: self.batch_id,
            stage_idx: self.stage_idx,
            ipc_bytes,
            schema_id: self.schema_id,
            created_at: self.created_at,
            content_hash: self.content_hash,
        }
    }
}

impl View for ClaimRecord {
    type V = ClaimRecord;

    open spec fn view(&self) -> ClaimRecord {
        *self
    }
}

impl View for InstanceRecord {
    type V = InstanceRecord;

    open spec fn view(&self) -> InstanceRecord {
        *self
    }
}

impl View for IndexEntry {
    type V = IndexEntry;

    open spec fn view(&self) -> IndexEntry {
        *self
    }
}

impl View for Marker {
    type V = Marker;

    open spec fn view(&self) -> Marker {
        *self
    }
}

/// The contents of all tables.
#[verifier::ext_equal]
pub ghost struct TablesView {
    pub batches: Map<u64, BatchView>,
    pub claims: Map<Uid, ClaimRecord>,
    /// The claims of each batch, with range and status.
    pub index: Map<IndexKey, IndexEntry>,
    pub checkpoints: Map<CheckpointKey, CheckpointView>,
    pub instances: Map<Uid, InstanceRecord>,
    /// Batches that may still have rows to hand out.
    pub pending: Map<u64, Marker>,
    /// Whether the claims table has been created.
    pub claims_table: bool,
    /// The encoded watermark of the last applied entry.
    pub last_applied: Option<Seq<u8>>,
    /// The encoded membership last seen.
    pub last_membership: Option<Seq<u8>>,
}

/// Tables nothing was ever applied to.
pub open spec fn empty_tables() -> TablesView {
    TablesView {
        batches: Map::empty(),
        claims: Map::empty(),
        index: Map::empty(),
        checkpoints: Map::empty(),
        instances: Map::empty(),
        pending: Map::empty(),
        claims_table: false,
        last_applied: None,
        last_membership: None,
    }
}

/// Rows under a claim of this status are taken.
pub open spec fn occupied(status: ClaimStatus) -> bool {
    status == ClaimStatus::Claimed || status == ClaimStatus::Completed
}

/// `[a, b)` and the entry's range share a row.
pub open spec fn entry_overlaps(e: IndexEntry, a: u32, b: u32) -> bool {
    a < e.end && b > e.start
}

/// Some taken range of the batch shares a row with `[a, b)`.
pub open spec fn batch_overlap(
    index: Map<IndexKey, IndexEntry>,
    batch_id: u64,
    a: u32,
    b: u32,
) -> bool {
    exists|k: IndexKey| #[trigger]
        index.contains_key(k) && k.batch_id == batch_id && occupied(index[k].status)
            && entry_overlaps(index[k], a, b)
}

/// Row `r` lies in a completed claim of the batch.
pub open spec fn row_completed(index: Map<IndexKey, IndexEntry>, batch_id: u64, r: int) -> bool {
    exists|k: IndexKey| #[trigger]
        index.contains_key(k) && k.batch_id == batch_id && index[k].status
            == ClaimStatus::Completed && index[k].start <= r < index[k].end
}

/// The first `total_rows` rows of the batch all lie in completed claims.
pub open spec fn rows_completed(
    index: Map<IndexKey, IndexEntry>,
    batch_id: u64,
    total_rows: int,
) -> bool {
    forall|r: int| 0 <= r < total_rows ==> #[trigger] row_completed(index, batch_id, r)
}

/// How many rows the batch has; none where it is unknown.
pub open spec fn rows_of(batches: Map<u64, BatchView>, batch_id: u64) -> int {
    if batches.contains_key(batch_id) {
        batches[batch_id].total_rows as int
    } else {
        0
    }
}

/// `"claim <id><rest>"`.
pub open spec fn claim_text(id: Uid, rest: Seq<char>) -> Seq<char> {
    "claim "@ + uuid_hyphenated(id) + rest
}

/// `"claim_id <id><rest>"`.
pub open spec fn claim_id_text(id: Uid, rest: Seq<char>) -> Seq<char> {
    "claim_id "@ + uuid_hyphenated(id) + rest
}

/// `"<head><batch_id><rest>"`.
pub open spec fn batch_text(head: Seq<char>, batch_id: u64, rest: Seq<char>) -> Seq<char> {
    head + decimal_text(batch_id as nat) + rest
}

/// `"row_range [<a>, <b>)<rest>"`.
pub open spec fn range_text(a: u32, b: u32, rest: Seq<char>) -> Seq<char> {
    "row_range ["@ + decimal_text(a as nat) + ", "@ + decimal_text(b as nat) + ")"@ + rest
}

/// `"<head> (<len> bytes) exceeds MAX_LOG_ENTRY_BYTES (1048576)"`.
pub open spec fn oversize_text(head: Seq<char>, len: nat) -> Seq<char> {
    head + " ("@ + decimal_text(len) + " bytes) exceeds MAX_LOG_ENTRY_BYTES ("@ + decimal_text(
        MAX_LOG_ENTRY_BYTES as nat,
    ) + ")"@
}

/// The command is refused with `message`.
pub open spec fn refused(s: TablesView, message: Seq<char>) -> (TablesView, ResponseView) {
    (s, ResponseView::Error { message })
}

/// The batch was disqualified. That is for good: neither can it be registered
/// again nor can its rows be claimed.
pub open spec fn is_poisoned(s: TablesView, batch_id: u64) -> bool {
    s.batches.contains_key(batch_id) && s.batches[batch_id].status == BatchStatus::Poisoned
}

pub open spec fn register_next(
    s: TablesView,
    batch_id: u64,
    component: Seq<char>,
    schema_id: u32,
    ipc_bytes: Seq<u8>,
    total_rows: u32,
    now: u64,
) -> (TablesView, ResponseView) {
    if ipc_bytes.len() >= MAX_LOG_ENTRY_BYTES {
        refused(s, oversize_text("RegisterMasterBatch: ipc_bytes"@, ipc_bytes.len()))
    } else if is_poisoned(s, batch_id) {
        refused(s, batch_text("RegisterMasterBatch: batch_id "@, batch_id, " is poisoned"@))
    } else {
        let record = BatchView {
            batch_id,
            component,
            schema_id,
            ipc_bytes,
            total_rows,
            created_at: now,
            checkpoint_seq: 0,
            release_attempts: 0,
            status: BatchStatus::Active,
            poisoned_at: None,
        };
        (
            TablesView {
                batches: s.batches.insert(batch_id, record),
                pending: s.pending.insert(batch_id, Marker),
                ..s
            },
            ResponseView::MasterBatchRegistered { batch_id },
        )
    }
}

/// The claim exists already, for the same rows and instance.
pub open spec fn claim_replayed(
    s: TablesView,
    batch_id: u64,
    start: u32,
    end: u32,
    claim_id: Uid,
    instance_id: Uid,
) -> bool {
    s.claims.contains_key(claim_id) && {
        let c = s.claims[claim_id];
        &&& c.batch_id == batch_id
        &&& c.row_range_start == start
        &&& c.row_range_end == end
        &&& c.instance_id == instance_id
    }
}

/// The id names no claim, or one that was given back.
pub open spec fn claim_id_free(s: TablesView, claim_id: Uid) -> bool {
    s.claims.contains_key(claim_id) ==> s.claims[claim_id].status == ClaimStatus::Pending
}

/// The index without the entry of the claim.
pub open spec fn unindexed(s: TablesView, claim_id: Uid) -> Map<IndexKey, IndexEntry> {
    if s.claims.contains_key(claim_id) {
        s.index.remove(IndexKey { batch_id: s.claims[claim_id].batch_id, claim_id })
    } else {
        s.index
    }
}

/// The claim is a new one, or one that was given back, on free rows of a known
/// batch that is not poisoned.
pub open spec fn claim_accepted(
    s: TablesView,
    batch_id: u64,
    start: u32,
    end: u32,
    claim_id: Uid,
    instance_id: Uid,
) -> bool {
    &&& start < end
    &&& !claim_replayed(s, batch_id, start, end, claim_id, instance_id)
    &&& s.batches.contains_key(batch_id)
    &&& !is_poisoned(s, batch_id)
    &&& end <= s.batches[batch_id].total_rows
    &&& !batch_overlap(s.index, batch_id, start, end)
    &&& claim_id_free(s, claim_id)
}

pub open spec fn claim_next(
    s: TablesView,
    batch_id: u64,
    start: u32,
    end: u32,
    claim_id: Uid,
    instance_id: Uid,
    ttl: u64,
    now: u64,
) -> (TablesView, ResponseView) {
    if start >= end {
        refused(
            s,
            "invalid row_range: start "@ + decimal_text(start as nat) + " >= end "@ + decimal_text(
                end as nat,
            ),
        )
    } else if claim_replayed(s, batch_id, start, end, claim_id, instance_id) {
        if !s.batches.contains_key(batch_id) {
            refused(s, batch_text("batch_id "@, batch_id, " not found on idempotent replay"@))
        } else {
            (
                s,
                ResponseView::BatchClaimed {
                    batch_id,
                    component: s.batches[batch_id].component,
                    row_range_start: start,
                    row_range_end: end,
                    schema_id: s.batches[batch_id].schema_id,
                    claim_id,
                    instance_id,
                    lease_expires_at: s.claims[claim_id].lease_expires_at,
                },
            )
        }
    } else if !s.batches.contains_key(batch_id) {
        refused(s, batch_text("batch_id "@, batch_id, " not found"@))
    } else if is_poisoned(s, batch_id) {
        refused(s, batch_text("batch_id "@, batch_id, " is poisoned"@))
    } else if end > s.batches[batch_id].total_rows {
        refused(
            s,
            range_text(
                start,
                end,
                " exceeds total_rows "@ + decimal_text(s.batches[batch_id].total_rows as nat),
            ),
        )
    } else if batch_overlap(s.index, batch_id, start, end) {
        refused(s, range_text(start, end, " overlaps an existing active claim"@))
    } else if !claim_id_free(s, claim_id) {
        refused(s, claim_text(claim_id, " already exists with other rows"@))
    } else {
        let lease = (now + ttl) as u64;
        let record = ClaimRecord {
            batch_id,
            row_range_start: start,
            row_range_end: end,
            instance_id,
            lease_expires_at: lease,
            status: ClaimStatus::Claimed,
        };
        (
            TablesView {
                claims: s.claims.insert(claim_id, record),
                index: unindexed(s, claim_id).insert(
                    IndexKey { batch_id, claim_id },
                    IndexEntry { start, end, status: ClaimStatus::Claimed },
                ),
                claims_table: true,
                ..s
            },
            ResponseView::BatchClaimed {
                batch_id,
                component: s.batches[batch_id].component,
                row_range_start: start,
                row_range_end: end,
                schema_id: s.batches[batch_id].schema_id,
                claim_id,
                instance_id,
                lease_expires_at: lease,
            },
        )
    }
}

/// The instance holds the claim.
pub open spec fn held_by(s: TablesView, claim_id: Uid, instance_id: Uid) -> bool {
    &&& s.claims.contains_key(claim_id)
    &&& s.claims[claim_id].status == ClaimStatus::Claimed
    &&& s.claims[claim_id].instance_id == instance_id
}

/// The instance holds the claim under a lease that has not run out.
pub open spec fn renewable(s: TablesView, claim_id: Uid, instance_id: Uid, now: u64) -> bool {
    held_by(s, claim_id, instance_id) && s.claims[claim_id].lease_expires_at >= now
}

/// Why a command on a claim is refused when the instance does not hold it.
pub open spec fn not_held_text(
    s: TablesView,
    claim_id: Uid,
    instance_id: Uid,
    wrong_state: Seq<char>,
) -> Seq<char> {
    if !s.claims.contains_key(claim_id) {
        claim_text(claim_id, " not found"@)
    } else if s.claims[claim_id].status != ClaimStatus::Claimed {
        claim_text(claim_id, wrong_state)
    } else {
        claim_text(claim_id, " held by different instance"@)
    }
}

pub open spec fn renew_next(
    s0: TablesView,
    claim_id: Uid,
    instance_id: Uid,
    ttl: u64,
    now: u64,
) -> (TablesView, ResponseView) {
    let s = TablesView { claims_table: true, ..s0 };
    if !held_by(s, claim_id, instance_id) {
        refused(s, not_held_text(s, claim_id, instance_id, " is not in Claimed state"@))
    } else if s.claims[claim_id].lease_expires_at < now {
        refused(s, claim_text(claim_id, " lease has already expired"@))
    } else {
        let c = s.claims[claim_id];
        let wanted = (now + ttl) as u64;
        let lease = if c.lease_expires_at >= wanted {
            c.lease_expires_at
        } else {
            wanted
        };
        (
            TablesView {
                claims: s.claims.insert(claim_id, ClaimRecord { lease_expires_at: lease, ..c }),
                ..s
            },
            ResponseView::ClaimRenewed { expires_at: lease },
        )
    }
}

/// The batch with its count of failed attempts set to `n`.
pub open spec fn with_attempts(b: BatchView, n: u32) -> BatchView {
    BatchView { release_attempts: n, ..b }
}

/// One more, staying at the largest value.
pub open spec fn bumped(n: u32) -> u32 {
    if n == u32::MAX {
        n
    } else {
        (n + 1) as u32
    }
}

/// The index after the claim's entry was written anew.
pub open spec fn reindexed(
    index: Map<IndexKey, IndexEntry>,
    claim_id: Uid,
    c: ClaimRecord,
) -> Map<IndexKey, IndexEntry> {
    index.insert(
        IndexKey { batch_id: c.batch_id, claim_id },
        IndexEntry { start: c.row_range_start, end: c.row_range_end, status: c.status },
    )
}

pub open spec fn ack_next(s0: TablesView, claim_id: Uid, instance_id: Uid) -> (
    TablesView,
    ResponseView,
) {
    let s = TablesView { claims_table: true, ..s0 };
    if !held_by(s, claim_id, instance_id) {
        refused(s, not_held_text(s, claim_id, instance_id, " not in Claimed state"@))
    } else {
        let c = ClaimRecord {
            status: ClaimStatus::Completed,
            lease_expires_at: 0,
            ..s.claims[claim_id]
        };
        let index = reindexed(s.index, claim_id, c);
        let b = c.batch_id;
        (
            TablesView {
                claims: s.claims.insert(claim_id, c),
                index,
                pending: if rows_completed(index, b, rows_of(s.batches, b)) {
                    s.pending.remove(b)
                } else {
                    s.pending
                },
                batches: if s.batches.contains_key(b) {
                    s.batches.insert(b, with_attempts(s.batches[b], 0))
                } else {
                    s.batches
                },
                ..s
            },
            ResponseView::ClaimAcked,
        )
    }
}

/// The batch, if it is known, with one more failed attempt.
pub open spec fn attempt_counted(batches: Map<u64, BatchView>, b: u64) -> Map<u64, BatchView> {
    if batches.contains_key(b) {
        batches.insert(b, with_attempts(batches[b], bumped(batches[b].release_attempts)))
    } else {
        batches
    }
}

pub open spec fn release_next(s0: TablesView, claim_id: Uid, instance_id: Uid) -> (
    TablesView,
    ResponseView,
) {
    let s = TablesView { claims_table: true, ..s0 };
    if !held_by(s, claim_id, instance_id) {
        refused(s, not_held_text(s, claim_id, instance_id, " not in Claimed state"@))
    } else {
        let c = ClaimRecord {
            status: ClaimStatus::Pending,
            lease_expires_at: 0,
            instance_id: 0,
            ..s.claims[claim_id]
        };
        (
            TablesView {
                claims: s.claims.insert(claim_id, c),
                index: reindexed(s.index, claim_id, c),
                batches: attempt_counted(s.batches, c.batch_id),
                ..s
            },
            ResponseView::ClaimReleased,
        )
    }
}

/// The stored checkpoint of the claim and stage has this hash.
pub open spec fn checkpoint_repeated(
    s: TablesView,
    claim_id: Uid,
    stage_idx: u32,
    hash: u64,
) -> bool {
    let k = CheckpointKey { claim_id, stage_idx };
    s.checkpoints.contains_key(k) && s.checkpoints[k].content_hash == hash
}

/// The hash a checkpoint of the claim and stage is stored under.
pub open spec fn checkpoint_hash(claim_id: Uid, stage_idx: u32, ipc_bytes: Seq<u8>) -> u64 {
    content_hash(be_bytes(claim_id as nat, 16), stage_idx, ipc_bytes)
}

/// The checkpoint is written, and its batch is known and counts it.
pub open spec fn checkpoint_counted(
    s: TablesView,
    claim_id: Uid,
    stage_idx: u32,
    ipc_bytes: Seq<u8>,
) -> bool {
    &&& ipc_bytes.len() < MAX_LOG_ENTRY_BYTES
    &&& s.claims.contains_key(claim_id)
    &&& !checkpoint_repeated(
        s,
        claim_id,
        stage_idx,
        checkpoint_hash(claim_id, stage_idx, ipc_bytes),
    )
    &&& s.batches.contains_key(s.claims[claim_id].batch_id)
}

pub open spec fn checkpoint_next(
    s: TablesView,
    claim_id: Uid,
    stage_idx: u32,
    ipc_bytes: Seq<u8>,
    schema_id: u32,
    now: u64,
) -> (TablesView, ResponseView) {
    if ipc_bytes.len() >= MAX_LOG_ENTRY_BYTES {
        refused(s, oversize_text("Checkpoint ipc_bytes"@, ipc_bytes.len()))
    } else if !s.claims.contains_key(claim_id) {
        refused(
            s,
            claim_id_text(
                claim_id,
                if s.claims_table {
                    " not found"@
                } else {
                    " not found (table missing)"@
                },
            ),
        )
    } else {
        let b = s.claims[claim_id].batch_id;
        let hash = checkpoint_hash(claim_id, stage_idx, ipc_bytes);
        let seq = if s.batches.contains_key(b) {
            s.batches[b].checkpoint_seq
        } else {
            0
        };
        if checkpoint_repeated(s, claim_id, stage_idx, hash) {
            (s, ResponseView::CheckpointWritten { checkpoint_id: seq })
        } else {
            let k = CheckpointKey { claim_id, stage_idx };
            let record = CheckpointView {
                batch_id: b,
                stage_idx,
                ipc_bytes,
                schema_id,
                created_at: now,
                content_hash: hash,
            };
            let written = TablesView { checkpoints: s.checkpoints.insert(k, record), ..s };
            if s.batches.contains_key(b) {
                let next = (seq + 1) as u64;
                (
                    TablesView {
                        batches: s.batches.insert(
                            b,
                            BatchView { checkpoint_seq: next, ..s.batches[b] },
                        ),
                        ..written
                    },
                    ResponseView::CheckpointWritten { checkpoint_id: next },
                )
            } else {
                (written, ResponseView::CheckpointWritten { checkpoint_id: 0 })
            }
        }
    }
}

pub open spec fn heartbeat_next(s: TablesView, instance_id: Uid, at: u64) -> (
    TablesView,
    ResponseView,
) {
    (
        TablesView {
            instances: s.instances.insert(instance_id, InstanceRecord { last_heartbeat_at: at }),
            ..s
        },
        ResponseView::HeartbeatRecorded,
    )
}

/// The claim is held and its lease ran out before `now`.
pub open spec fn expired(c: ClaimRecord, now: u64) -> bool {
    c.status == ClaimStatus::Claimed && c.lease_expires_at < now
}

/// The claims whose lease ran out before `now`.
pub open spec fn expired_claims(s: TablesView, now: u64) -> Set<Uid> {
    Set::new(|c: Uid| s.claims.contains_key(c) && expired(s.claims[c], now))
}

/// Those of `gone` that are on `batch_id`.
pub open spec fn on_batch(s: TablesView, gone: Set<Uid>, batch_id: u64) -> Set<Uid> {
    gone.filter(|c: Uid| s.claims[c].batch_id == batch_id)
}

/// The claim after its lease was swept.
pub open spec fn swept(c: ClaimRecord) -> ClaimRecord {
    ClaimRecord { status: ClaimStatus::Pending, lease_expires_at: 0, ..c }
}

/// `n + more`, staying at the largest value.
pub open spec fn bumped_by(n: u32, more: nat) -> u32 {
    if n + more > u32::MAX {
        u32::MAX
    } else {
        (n + more) as u32
    }
}

/// The index key belongs to a claim of `gone`.
pub open spec fn swept_key(s: TablesView, gone: Set<Uid>, k: IndexKey) -> bool {
    gone.contains(k.claim_id) && s.claims[k.claim_id].batch_id == k.batch_id
}

/// The tables after the claims of `gone` were swept: each is pending again,
/// the index says so, and its batch counts one more failed attempt for it.
pub open spec fn swept_tables(s: TablesView, gone: Set<Uid>) -> TablesView {
    TablesView {
        claims: Map::new(
            |c: Uid| s.claims.contains_key(c),
            |c: Uid|
                if gone.contains(c) {
                    swept(s.claims[c])
                } else {
                    s.claims[c]
                },
        ),
        index: Map::new(
            |k: IndexKey| s.index.contains_key(k) || swept_key(s, gone, k),
            |k: IndexKey|
                if swept_key(s, gone, k) {
                    IndexEntry {
                        start: s.claims[k.claim_id].row_range_start,
                        end: s.claims[k.claim_id].row_range_end,
                        status: ClaimStatus::Pending,
                    }
                } else {
                    s.index[k]
                },
        ),
        batches: Map::new(
            |b: u64| s.batches.contains_key(b),
            |b: u64|
                with_attempts(
                    s.batches[b],
                    bumped_by(s.batches[b].release_attempts, on_batch(s, gone, b).len()),
                ),
        ),
        ..s
    }
}

pub open spec fn reclaim_next(s: TablesView, now: u64) -> (TablesView, ResponseView) {
    let gone = expired_claims(s, now);
    (
        swept_tables(s, gone),
        ResponseView::ExpiredReclaimed { reclaimed_count: gone.len() as u32 },
    )
}

pub open spec fn poison_next(s: TablesView, batch_id: u64, now: u64) -> (TablesView, ResponseView) {
    if !s.batches.contains_key(batch_id) {
        refused(s, batch_text("PoisonBatch: batch_id "@, batch_id, " not found"@))
    } else {
        let b = s.batches[batch_id];
        if b.status == BatchStatus::Poisoned {
            (
                s,
                ResponseView::BatchPoisoned {
                    batch_id,
                    poisoned_at: match b.poisoned_at {
                        Some(at) => at,
                        None => now,
                    },
                },
            )
        } else {
            (
                TablesView {
                    batches: s.batches.insert(
                        batch_id,
                        BatchView {
                            status: BatchStatus::Poisoned,
                            poisoned_at: Some(now),
                            ..b
                        },
                    ),
                    pending: s.pending.remove(batch_id),
                    ..s
                },
                ResponseView::BatchPoisoned { batch_id, poisoned_at: now },
            )
        }
    }
}

/// Row `r` is taken by some claim of the batch.
pub open spec fn row_taken(index: Map<IndexKey, IndexEntry>, batch_id: u64, r: int) -> bool {
    exists|k: IndexKey| #[trigger]
        index.contains_key(k) && k.batch_id == batch_id && occupied(index[k].status)
            && index[k].start <= r < index[k].end
}

/// `a` is the first row of the batch that no claim takes.
pub open spec fn first_free_row(
    index: Map<IndexKey, IndexEntry>,
    batch_id: u64,
    a: int,
) -> bool {
    &&& 0 <= a
    &&& !row_taken(index, batch_id, a)
    &&& forall|r: int| 0 <= r < a ==> row_taken(index, batch_id, r)
}

/// A taken range of the batch starts at `at`.
pub open spec fn taken_range_starts(
    index: Map<IndexKey, IndexEntry>,
    batch_id: u64,
    at: int,
) -> bool {
    exists|k: IndexKey| #[trigger]
        index.contains_key(k) && k.batch_id == batch_id && occupied(index[k].status)
            && index[k].start == at
}

/// The batch's next rows to hand out: from the first free row up to the next
/// taken range or the batch's end, whichever comes first. There are none where
/// the batch is unknown or every row up to its end is taken.
pub open spec fn pending_range_is(s: TablesView, batch_id: u64, r: Option<(u32, u32)>) -> bool {
    if !s.batches.contains_key(batch_id) {
        r is None
    } else {
        exists|a: int| #[trigger]
            first_free_row(s.index, batch_id, a) && if a < s.batches[batch_id].total_rows {
                r matches Some(range) && range.0 == a && a < range.1
                    <= s.batches[batch_id].total_rows && (range.1 == s.batches[batch_id].total_rows
                    || taken_range_starts(s.index, batch_id, range.1 as int)) && forall|b: int|
                    a < b < range.1 ==> !#[trigger] taken_range_starts(s.index, batch_id, b)
            } else {
                r is None
            }
    }
}

/// The lowest pending batch with rows to hand out, and those rows.
pub open spec fn pending_batch_is(s: TablesView, r: Option<(u64, (u32, u32))>) -> bool {
    match r {
        Some((id, range)) => {
            &&& s.pending.contains_key(id)
            &&& pending_range_is(s, id, Some(range))
            &&& forall|b: u64| #[trigger]
                s.pending.contains_key(b) && b < id ==> pending_range_is(s, b, None)
        },
        None => forall|b: u64| #[trigger]
            s.pending.contains_key(b) ==> pending_range_is(s, b, None),
    }
}

/// The index keys of the completed claims.
pub open spec fn completed_keys(index: Map<IndexKey, IndexEntry>) -> Set<IndexKey> {
    index.dom().filter(|k: IndexKey| index[k].status == ClaimStatus::Completed)
}

/// `rows` put into an empty table one after the other; of two rows with one
/// key the later stays.
pub open spec fn installed<K, V>(rows: Seq<(K, V)>) -> Map<K, V>
    decreases rows.len(),
{
    if rows.len() == 0 {
        Map::empty()
    } else {
        installed(rows.drop_last()).insert(rows.last().0, rows.last().1)
    }
}

/// `rows` are the rows of `table`, in the order of their keys.
pub open spec fn dumped<K: Key, V>(table: Map<K, V>, rows: Seq<(K, V)>) -> bool {
    &&& forall|i: int, j: int|
        0 <= i < j < rows.len() ==> (#[trigger] rows[i]).0.rank() < (#[trigger] rows[j]).0.rank()
    &&& forall|i: int|
        0 <= i < rows.len() ==> table.contains_key((#[trigger] rows[i]).0) && table[rows[i].0]
            == rows[i].1
    &&& forall|k: K| #[trigger]
        table.contains_key(k) ==> exists|i: int|
            0 <= i < rows.len() && (#[trigger] rows[i]).0 == k
}

/// The index rows of `claims`.
pub open spec fn index_rows(claims: Seq<(Uid, ClaimRecord)>) -> Seq<(IndexKey, IndexEntry)> {
    claims.map_values(
        |r: (Uid, ClaimRecord)|
            (
                IndexKey { batch_id: r.1.batch_id, claim_id: r.0 },
                IndexEntry {
                    start: r.1.row_range_start,
                    end: r.1.row_range_end,
                    status: r.1.status,
                },
            ),
    )
}

/// The active ones of the batches.
pub open spec fn active_batches(batches: Map<u64, BatchView>) -> Map<u64, Marker> {
    Map::new(
        |b: u64| batches.contains_key(b) && batches[b].status == BatchStatus::Active,
        |b: u64| Marker,
    )
}

/// The tables after a snapshot replaced their contents. Every active batch of
/// the snapshot is pending, the index is built from its claims.
pub open spec fn restored(
    s: TablesView,
    batches: Seq<BatchView>,
    claims: Seq<(Uid, ClaimRecord)>,
    checkpoints: Seq<(CheckpointKey, CheckpointView)>,
    instances: Seq<(Uid, InstanceRecord)>,
    sm_meta: Option<(Seq<u8>, Seq<u8>)>,
) -> TablesView {
    TablesView {
        batches: installed(batches.map_values(|b: BatchView| (b.batch_id, b))),
        claims: installed(claims),
        index: installed(index_rows(claims)),
        checkpoints: installed(checkpoints),
        instances: installed(instances),
        pending: active_batches(installed(batches.map_values(|b: BatchView| (b.batch_id, b)))),
        claims_table: true,
        last_applied: match sm_meta {
            Some(m) => Some(m.0),
            None => s.last_applied,
        },
        last_membership: match sm_meta {
            Some(m) => Some(m.1),
            None => s.last_membership,
        },
    }
}

/// The tables after a command, and the response to it.
pub open spec fn next(s: TablesView, command: CommandView) -> (TablesView, ResponseView) {
    match command {
        CommandView::RegisterMasterBatch {
            batch_id,
            component,
            schema_id,
            ipc_bytes,
            total_rows,
            now_at_propose,
        } => register_next(
            s,
            batch_id,
            component,
            schema_id,
            ipc_bytes,
            total_rows,
            now_at_propose,
        ),
        CommandView::ClaimRowRange {
            batch_id,
            row_range_start,
            row_range_end,
            claim_id,
            instance_id,
            lease_ttl_millis,
            now_at_propose,
        } => claim_next(
            s,
            batch_id,
            row_range_start,
            row_range_end,
            claim_id,
            instance_id,
            lease_ttl_millis,
            now_at_propose,
        ),
        CommandView::RenewClaim { claim_id, instance_id, lease_ttl_millis, now_at_propose } =>
        renew_next(s, claim_id, instance_id, lease_ttl_millis, now_at_propose),
        CommandView::AckClaim { claim_id, instance_id } => ack_next(s, claim_id, instance_id),
        CommandView::ReleaseClaim { claim_id, instance_id } => release_next(
            s,
            claim_id,
            instance_id,
        ),
        CommandView::Checkpoint { claim_id, stage_idx, ipc_bytes, schema_id, now_at_propose } =>
        checkpoint_next(s, claim_id, stage_idx, ipc_bytes, schema_id, now_at_propose),
        CommandView::Heartbeat { instance_id, at } => heartbeat_next(s, instance_id, at),
        CommandView::ReclaimExpired { now_at_propose } => reclaim_next(s, now_at_propose),
        CommandView::PoisonBatch { batch_id, now_at_propose } => poison_next(
            s,
            batch_id,
            now_at_propose,
        ),
    }
}

/// No counter or time the command computes leaves its type's range.
pub open spec fn in_range(s: TablesView, command: CommandView) -> bool {
    match command {
        CommandView::ClaimRowRange {
            batch_id,
            row_range_start,
            row_range_end,
            claim_id,
            instance_id,
            lease_ttl_millis,
            now_at_propose,
        } => claim_accepted(
            s,
            batch_id,
            row_range_start,
            row_range_end,
            claim_id,
            instance_id,
        ) ==> now_at_propose + lease_ttl_millis <= u64::MAX,
        CommandView::RenewClaim { claim_id, instance_id, lease_ttl_millis, now_at_propose } =>
        renewable(s, claim_id, instance_id, now_at_propose) ==> now_at_propose + lease_ttl_millis
            <= u64::MAX,
        CommandView::Checkpoint { claim_id, stage_idx, ipc_bytes, schema_id, now_at_propose } =>
        checkpoint_counted(s, claim_id, stage_idx, ipc_bytes)
            ==> s.batches[s.claims[claim_id].batch_id].checkpoint_seq < u64::MAX,
        _ => true,
    }
}

} // verus!
