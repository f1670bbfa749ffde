//! The state machine: the tables, the command handlers and the reads.
//!
//! The handlers read no clock and no random numbers. A refusal for a reason of
//! the application (an unknown batch, rows that are taken) is a response, not
//! a failure.

use vstd::prelude::*;

use crate::consensus::codec::{
    checkpoint_content_hash, checkpoint_key, checkpoint_key_bytes, decode_checkpoint_key,
    law_composite_keys_order, uuid_bytes,
};
use crate::consensus::model::{
    ack_next, active_batches, attempt_counted, batch_overlap, batch_text, checkpoint_counted,
    checkpoint_next, claim_accepted, claim_next, claim_text, completed_keys, dumped, empty_tables,
    entry_overlaps, expired, expired_claims, first_free_row, heartbeat_next, held_by, in_range,
    index_rows, installed, is_poisoned, next, not_held_text, occupied, on_batch, oversize_text,
    pending_batch_is, pending_range_is, poison_next, range_text, reclaim_next, register_next,
    reindexed, release_next, renew_next, renewable, restored, row_completed, row_taken,
    rows_completed, swept, swept_tables, taken_range_starts, unindexed, with_attempts,
    BatchStatus, BatchView, CheckpointKey, CheckpointRecord, CheckpointView, ClaimRecord,
    IndexEntry, IndexKey, InstanceRecord, Marker, MasterBatchRecord, TablesView,
};
use crate::consensus::types::{
    ClaimStatus, ConsensusCommand, ConsensusResponse, Uid, MAX_LOG_ENTRY_BYTES,
};
use crate::order::{be_bytes, law_lex_irreflexive, octets};
use crate::table::{Key, Table};
use crate::text::{decimal, uuid_text};

verus! {

/// The tables of the state machine.
pub struct Tables {
    pub batches: Table<u64, MasterBatchRecord>,
    pub claims: Table<Uid, ClaimRecord>,
    /// Every claim again, ordered by batch, so that one batch's claims are read
    /// without touching the others.
    pub index: Table<IndexKey, IndexEntry>,
    pub checkpoints: Table<CheckpointKey, CheckpointRecord>,
    pub instances: Table<Uid, InstanceRecord>,
    /// Batches that may still have rows to hand out.
    pub pending: Table<u64, Marker>,
    /// Whether the claims table has been created.
    pub claims_table: bool,
    /// The encoded watermark of the last applied entry.
    pub last_applied: Option<Vec<u8>>,
    /// The encoded membership last seen.
    pub last_membership: Option<Vec<u8>>,
}

/// The bytes of an optional value.
pub open spec fn bytes_view(v: Option<Vec<u8>>) -> Option<Seq<u8>> {
    match v {
        Some(b) => Some(b@),
        None => None,
    }
}

impl View for Tables {
    type V = TablesView;

    open spec fn view(&self) -> TablesView {
        TablesView {
            batches: self.batches@,
            claims: self.claims@,
            index: self.index@,
            checkpoints: self.checkpoints@,
            instances: self.instances@,
            pending: self.pending@,
            claims_table: self.claims_table,
            last_applied: bytes_view(self.last_applied),
            last_membership: bytes_view(self.last_membership),
        }
    }
}

/// `"claim <id><rest>"`.
fn claim_message(id: Uid, rest: &str) -> (r: String)
    ensures
        r@ == claim_text(id, rest@),
{
    let mut m = "claim ".to_owned();
    m.append(uuid_text(id).as_str());
    m.append(rest);
    m
}

/// `"<head><batch_id><rest>"`.
fn batch_message(head: &str, batch_id: u64, rest: &str) -> (r: String)
    ensures
        r@ == batch_text(head@, batch_id, rest@),
{
    let mut m = head.to_owned();
    m.append(decimal(batch_id).as_str());
    m.append(rest);
    m
}

/// `"row_range [<a>, <b>)<rest>"`.
fn range_message(a: u32, b: u32, rest: &str) -> (r: String)
    ensures
        r@ == range_text(a, b, rest@),
{
    let mut m = "row_range [".to_owned();
    m.append(decimal(a as u64).as_str());
    m.append(", ");
    m.append(decimal(b as u64).as_str());
    m.append(")");
    m.append(rest);
    m
}

/// The message for a payload over the cap.
fn oversize_message(head: &str, len: usize) -> (r: String)
    ensures
        r@ == oversize_text(head@, len as nat),
{
    let mut m = head.to_owned();
    m.append(" (");
    m.append(decimal(len as u64).as_str());
    m.append(" bytes) exceeds MAX_LOG_ENTRY_BYTES (");
    m.append(decimal(MAX_LOG_ENTRY_BYTES as u64).as_str());
    m.append(")");
    m
}

fn refuse(message: String) -> (r: ConsensusResponse)
    ensures
        r@ == (crate::consensus::types::ResponseView::Error { message: message@ }),
{
    ConsensusResponse::Error { message }
}

/// The first position of the batch's claims in the index.
fn batch_start(index: &Table<IndexKey, IndexEntry>, batch_id: u64) -> (r: usize)
    requires
        index.wf(),
    ensures
        r <= index.keys().len(),
        forall|i: int| 0 <= i < r ==> (#[trigger] index.keys()[i]).batch_id < batch_id,
        forall|i: int|
            r <= i < index.keys().len() ==> (#[trigger] index.keys()[i]).batch_id >= batch_id,
{
    let k = IndexKey { batch_id, claim_id: 0 };
    let r = index.seek(k);
    assert forall|i: int| 0 <= i < r implies (#[trigger] index.keys()[i]).batch_id < batch_id by {
        assert(index.keys()[i].rank() < k.rank());
    }
    assert forall|i: int| r <= i < index.keys().len() implies (
    #[trigger] index.keys()[i]).batch_id >= batch_id by {
        assert(index.keys()[i].rank() >= k.rank());
    }
    r
}

/// Where the scan of a batch stands: everything of the batch lies in
/// `[from, i)` or at `i` and after.
spec fn scanning(index: Table<IndexKey, IndexEntry>, batch_id: u64, from: int, i: int) -> bool {
    &&& index.wf()
    &&& 0 <= from <= i <= index.keys().len()
    &&& forall|j: int| 0 <= j < from ==> (#[trigger] index.keys()[j]).batch_id < batch_id
    &&& forall|j: int| from <= j < i ==> (#[trigger] index.keys()[j]).batch_id == batch_id
    &&& forall|j: int|
        from <= j < index.keys().len() ==> (#[trigger] index.keys()[j]).batch_id >= batch_id
}

/// When the scan stops, every entry of the batch was passed.
proof fn lemma_scanned(index: Table<IndexKey, IndexEntry>, batch_id: u64, from: int, i: int)
    requires
        scanning(index, batch_id, from, i),
        i < index.keys().len() ==> index.keys()[i].batch_id != batch_id,
    ensures
        forall|k: IndexKey| #[trigger]
            index@.contains_key(k) && k.batch_id == batch_id ==> exists|j: int|
                from <= j < i && #[trigger] index.keys()[j] == k,
{
    index.lemma_keys();
    assert forall|k: IndexKey| #[trigger]
        index@.contains_key(k) && k.batch_id == batch_id implies exists|j: int|
        from <= j < i && #[trigger] index.keys()[j] == k by {
        let j = choose|j: int| 0 <= j < index.keys().len() && #[trigger] index.keys()[j] == k;
        if j >= i {
            assert(index.keys()[i].batch_id > batch_id);
            if j > i {
                assert(index.keys()[i].rank() < index.keys()[j].rank());
            }
        }
    }
}

/// Whether `[row_range_start, row_range_end)` shares a row with a claimed or
/// completed range of the batch. Reads that batch's index entries only.
pub fn has_batch_overlap(
    index: &Table<IndexKey, IndexEntry>,
    batch_id: u64,
    row_range_start: u32,
    row_range_end: u32,
) -> (r: bool)
    requires
        index.wf(),
    ensures
        r == batch_overlap(index@, batch_id, row_range_start, row_range_end),
{
    let from = batch_start(index, batch_id);
    let mut i: usize = from;
    while i < index.len() && index.key_at(i).batch_id == batch_id
        invariant
            scanning(*index, batch_id, from as int, i as int),
            forall|j: int|
                from <= j < i ==> {
                    let e = index@[#[trigger] index.keys()[j]];
                    !(occupied(e.status) && entry_overlaps(e, row_range_start, row_range_end))
                },
        decreases index.keys().len() - i,
    {
        let e = index.value_at(i);
        let taken = match e.status {
            ClaimStatus::Pending => false,
            _ => true,
        };
        if taken && row_range_start < e.end && row_range_end > e.start {
            assert(index@.contains_key(index.keys()[i as int]));
            return true;
        }
        i = i + 1;
    }
    proof {
        lemma_scanned(*index, batch_id, from as int, i as int);
    }
    false
}

proof fn lemma_nothing_swept(s: TablesView)
    ensures
        swept_tables(s, Set::empty()) == s,
{
    let t = swept_tables(s, Set::empty());
    assert(t.claims =~= s.claims);
    assert(t.index =~= s.index);
    assert forall|b: u64| s.batches.contains_key(b) implies t.batches[b] == s.batches[b] by {
        assert(on_batch(s, Set::empty(), b) =~= Set::<Uid>::empty());
    }
    assert(t.batches =~= s.batches);
}

/// Sweeping one more claim is writing it as pending and counting one more
/// failed attempt on its batch.
proof fn lemma_one_more_swept(s: TablesView, done: Set<Uid>, id: Uid)
    requires
        done.finite(),
        !done.contains(id),
        s.claims.contains_key(id),
    ensures
        ({
            let t = swept_tables(s, done);
            let c = swept(s.claims[id]);
            swept_tables(s, done.insert(id)) == (TablesView {
                claims: t.claims.insert(id, c),
                index: reindexed(t.index, id, c),
                batches: attempt_counted(t.batches, c.batch_id),
                ..t
            })
        }),
{
    let t = swept_tables(s, done);
    let c = swept(s.claims[id]);
    let more = done.insert(id);
    let u = swept_tables(s, more);
    assert(u.claims =~= t.claims.insert(id, c));
    assert(u.index =~= reindexed(t.index, id, c));
    assert forall|b: u64| s.batches.contains_key(b) implies u.batches[b] == attempt_counted(
        t.batches,
        c.batch_id,
    )[b] by {
        let was = on_batch(s, done, b);
        let now = on_batch(s, more, b);
        vstd::set_lib::lemma_len_subset(was, done);
        if b == c.batch_id {
            assert(now =~= was.insert(id));
            assert(!was.contains(id));
        } else {
            assert(now =~= was);
        }
    }
    assert(u.batches =~= attempt_counted(t.batches, c.batch_id));
}

impl Tables {
    /// Every table is well formed.
    pub open spec fn wf(self) -> bool {
        &&& self.batches.wf()
        &&& self.claims.wf()
        &&& self.index.wf()
        &&& self.checkpoints.wf()
        &&& self.instances.wf()
        &&& self.pending.wf()
    }

    /// Tables nothing was ever applied to.
    pub fn new() -> (r: Self)
        ensures
            r.wf(),
            r@ == empty_tables(),
    {
        Tables {
            batches: Table::new(),
            claims: Table::new(),
            index: Table::new(),
            checkpoints: Table::new(),
            instances: Table::new(),
            pending: Table::new(),
            claims_table: false,
            last_applied: None,
            last_membership: None,
        }
    }

    fn is_batch_poisoned(&self, batch_id: u64) -> (r: bool)
        requires
            self.wf(),
        ensures
            r == is_poisoned(self@, batch_id),
    {
        match self.batches.get(batch_id) {
            None => false,
            Some(batch) => match batch.status {
                BatchStatus::Active => false,
                BatchStatus::Poisoned => true,
            },
        }
    }

    /// Whether the claim would be granted anew.
    fn is_claim_accepted(
        &self,
        batch_id: u64,
        start: u32,
        end: u32,
        claim_id: Uid,
        instance_id: Uid,
    ) -> (r: bool)
        requires
            self.wf(),
        ensures
            r == claim_accepted(self@, batch_id, start, end, claim_id, instance_id),
    {
        if start >= end || self.is_batch_poisoned(batch_id) {
            return false;
        }
        if let Some(c) = self.claims.get(claim_id) {
            if c.batch_id == batch_id && c.row_range_start == start && c.row_range_end == end
                && c.instance_id == instance_id {
                return false;
            }
            match c.status {
                ClaimStatus::Pending => {},
                _ => {
                    return false;
                },
            }
        }
        match self.batches.get(batch_id) {
            None => false,
            Some(b) => end <= b.total_rows && !has_batch_overlap(&self.index, batch_id, start, end),
        }
    }

    fn apply_register_master_batch(
        &mut self,
        batch_id: u64,
        component: String,
        schema_id: u32,
        ipc_bytes: Vec<u8>,
        total_rows: u32,
        now_at_propose: u64,
    ) -> (r: ConsensusResponse)
        requires
            old(self).wf(),
        ensures
            final(self).wf(),
            (final(self)@, r@) == register_next(
                old(self)@,
                batch_id,
                component@,
                schema_id,
                ipc_bytes@,
                total_rows,
                now_at_propose,
            ),
    {
        if ipc_bytes.len() >= MAX_LOG_ENTRY_BYTES {
            return refuse(oversize_message("RegisterMasterBatch: ipc_bytes", ipc_bytes.len()));
        }
        if self.is_batch_poisoned(batch_id) {
            return refuse(
                batch_message("RegisterMasterBatch: batch_id ", batch_id, " is poisoned"),
            );
        }
        let record = MasterBatchRecord {
            batch_id,
            component,
            schema_id,
            ipc_bytes,
            total_rows,
            created_at: now_at_propose,
            checkpoint_seq: 0,
            release_attempts: 0,
            status: BatchStatus::Active,
            poisoned_at: None,
        };
        self.batches.insert(batch_id, record);
        self.pending.insert(batch_id, Marker);
        ConsensusResponse::MasterBatchRegistered { batch_id }
    }

    fn apply_claim_row_range(
        &mut self,
        batch_id: u64,
        row_range_start: u32,
        row_range_end: u32,
        claim_id: Uid,
        instance_id: Uid,
        lease_ttl_millis: u64,
        now_at_propose: u64,
    ) -> (r: ConsensusResponse)
        requires
            old(self).wf(),
            claim_accepted(
                old(self)@,
                batch_id,
                row_range_start,
                row_range_end,
                claim_id,
                instance_id,
            ) ==> now_at_propose + lease_ttl_millis <= u64::MAX,
        ensures
            final(self).wf(),
            (final(self)@, r@) == claim_next(
                old(self)@,
                batch_id,
                row_range_start,
                row_range_end,
                claim_id,
                instance_id,
                lease_ttl_millis,
                now_at_propose,
            ),
    {
        if row_range_start >= row_range_end {
            let mut m = "invalid row_range: start ".to_owned();
            m.append(decimal(row_range_start as u64).as_str());
            m.append(" >= end ");
            m.append(decimal(row_range_end as u64).as_str());
            return refuse(m);
        }
        // A claim that was applied before is answered as it was then.
        if let Some(existing) = self.claims.get(claim_id) {
            if existing.batch_id == batch_id && existing.row_range_start == row_range_start
                && existing.row_range_end == row_range_end && existing.instance_id == instance_id {
                return match self.batches.get(batch_id) {
                    None => refuse(
                        batch_message("batch_id ", batch_id, " not found on idempotent replay"),
                    ),
                    Some(batch) => ConsensusResponse::BatchClaimed {
                        batch_id,
                        component: batch.component.clone(),
                        row_range_start,
                        row_range_end,
                        schema_id: batch.schema_id,
                        claim_id,
                        instance_id,
                        lease_expires_at: existing.lease_expires_at,
                    },
                };
            }
        }
        if self.is_batch_poisoned(batch_id) {
            return refuse(batch_message("batch_id ", batch_id, " is poisoned"));
        }
        let (component, schema_id) = match self.batches.get(batch_id) {
            None => {
                return refuse(batch_message("batch_id ", batch_id, " not found"));
            },
            Some(batch) => {
                if row_range_end > batch.total_rows {
                    let mut rest = " exceeds total_rows ".to_owned();
                    rest.append(decimal(batch.total_rows as u64).as_str());
                    return refuse(range_message(row_range_start, row_range_end, rest.as_str()));
                }
                (batch.component.clone(), batch.schema_id)
            },
        };
        if has_batch_overlap(&self.index, batch_id, row_range_start, row_range_end) {
            return refuse(
                range_message(
                    row_range_start,
                    row_range_end,
                    " overlaps an existing active claim",
                ),
            );
        }
        let earlier = match self.claims.get(claim_id) {
            None => None,
            Some(c) => Some(*c),
        };
        if let Some(c) = earlier {
            match c.status {
                ClaimStatus::Pending => {},
                _ => {
                    return refuse(claim_message(claim_id, " already exists with other rows"));
                },
            }
        }
        let lease_expires_at: u64 = now_at_propose + lease_ttl_millis;
        let record = ClaimRecord {
            batch_id,
            row_range_start,
            row_range_end,
            instance_id,
            lease_expires_at,
            status: ClaimStatus::Claimed,
        };
        self.claims_table = true;
        if let Some(c) = earlier {
            let _ = self.index.remove(IndexKey { batch_id: c.batch_id, claim_id });
        }
        assert(self@.index =~= unindexed(old(self)@, claim_id));
        self.put_claim(claim_id, record);
        ConsensusResponse::BatchClaimed {
            batch_id,
            component,
            row_range_start,
            row_range_end,
            schema_id,
            claim_id,
            instance_id,
            lease_expires_at,
        }
    }

    /// The claim, if the instance holds it; otherwise why not.
    fn held_claim(&self, claim_id: Uid, instance_id: Uid, wrong_state: &str) -> (r: Result<
        ClaimRecord,
        String,
    >)
        requires
            self.wf(),
        ensures
            r is Ok <==> held_by(self@, claim_id, instance_id),
            r matches Ok(c) ==> c == self@.claims[claim_id],
            r matches Err(m) ==> m@ == not_held_text(self@, claim_id, instance_id, wrong_state@),
    {
        match self.claims.get(claim_id) {
            None => Err(claim_message(claim_id, " not found")),
            Some(c) => match c.status {
                ClaimStatus::Claimed => {
                    if c.instance_id != instance_id {
                        Err(claim_message(claim_id, " held by different instance"))
                    } else {
                        Ok(*c)
                    }
                },
                _ => Err(claim_message(claim_id, wrong_state)),
            },
        }
    }

    fn apply_renew_claim(
        &mut self,
        claim_id: Uid,
        instance_id: Uid,
        lease_ttl_millis: u64,
        now_at_propose: u64,
    ) -> (r: ConsensusResponse)
        requires
            old(self).wf(),
            renewable(old(self)@, claim_id, instance_id, now_at_propose) ==> now_at_propose
                + lease_ttl_millis <= u64::MAX,
        ensures
            final(self).wf(),
            (final(self)@, r@) == renew_next(
                old(self)@,
                claim_id,
                instance_id,
                lease_ttl_millis,
                now_at_propose,
            ),
    {
        self.claims_table = true;
        match self.held_claim(claim_id, instance_id, " is not in Claimed state") {
            Err(m) => refuse(m),
            Ok(mut record) => {
                if record.lease_expires_at < now_at_propose {
                    return refuse(claim_message(claim_id, " lease has already expired"));
                }
                let wanted: u64 = now_at_propose + lease_ttl_millis;
                // A late proposal never shortens a lease.
                if record.lease_expires_at < wanted {
                    record.lease_expires_at = wanted;
                }
                let expires_at: u64 = record.lease_expires_at;
                self.claims.insert(claim_id, record);
                ConsensusResponse::ClaimRenewed { expires_at }
            },
        }
    }

    /// Write the claim and its index entry.
    fn put_claim(&mut self, claim_id: Uid, record: ClaimRecord)
        requires
            old(self).wf(),
        ensures
            final(self).wf(),
            final(self)@ == (TablesView {
                claims: old(self)@.claims.insert(claim_id, record),
                index: reindexed(old(self)@.index, claim_id, record),
                ..old(self)@
            }),
    {
        self.claims.insert(claim_id, record);
        self.index.insert(
            IndexKey { batch_id: record.batch_id, claim_id },
            IndexEntry {
                start: record.row_range_start,
                end: record.row_range_end,
                status: record.status,
            },
        );
    }

    fn apply_ack_claim(&mut self, claim_id: Uid, instance_id: Uid) -> (r: ConsensusResponse)
        requires
            old(self).wf(),
        ensures
            final(self).wf(),
            (final(self)@, r@) == ack_next(old(self)@, claim_id, instance_id),
    {
        self.claims_table = true;
        match self.held_claim(claim_id, instance_id, " not in Claimed state") {
            Err(m) => refuse(m),
            Ok(mut record) => {
                record.status = ClaimStatus::Completed;
                record.lease_expires_at = 0;
                self.put_claim(claim_id, record);
                let total_rows: u32 = match self.batches.get(record.batch_id) {
                    None => 0,
                    Some(b) => b.total_rows,
                };
                if is_batch_completed(&self.index, record.batch_id, total_rows) {
                    let _ = self.pending.remove(record.batch_id);
                }
                self.reset_release_attempts(record.batch_id);
                ConsensusResponse::ClaimAcked
            },
        }
    }

    fn apply_release_claim(&mut self, claim_id: Uid, instance_id: Uid) -> (r: ConsensusResponse)
        requires
            old(self).wf(),
        ensures
            final(self).wf(),
            (final(self)@, r@) == release_next(old(self)@, claim_id, instance_id),
    {
        self.claims_table = true;
        match self.held_claim(claim_id, instance_id, " not in Claimed state") {
            Err(m) => refuse(m),
            Ok(mut record) => {
                record.status = ClaimStatus::Pending;
                record.lease_expires_at = 0;
                record.instance_id = 0;
                self.put_claim(claim_id, record);
                self.increment_release_attempts(record.batch_id);
                ConsensusResponse::ClaimReleased
            },
        }
    }

    fn apply_checkpoint(
        &mut self,
        claim_id: Uid,
        stage_idx: u32,
        ipc_bytes: Vec<u8>,
        schema_id: u32,
        now_at_propose: u64,
    ) -> (r: ConsensusResponse)
        requires
            old(self).wf(),
            checkpoint_counted(old(self)@, claim_id, stage_idx, ipc_bytes@)
                ==> old(self)@.batches[old(self)@.claims[claim_id].batch_id].checkpoint_seq
                < u64::MAX,
        ensures
            final(self).wf(),
            (final(self)@, r@) == checkpoint_next(
                old(self)@,
                claim_id,
                stage_idx,
                ipc_bytes@,
                schema_id,
                now_at_propose,
            ),
    {
        if ipc_bytes.len() >= MAX_LOG_ENTRY_BYTES {
            return refuse(oversize_message("Checkpoint ipc_bytes", ipc_bytes.len()));
        }
        let batch_id: u64 = match self.claims.get(claim_id) {
            None => {
                let mut m = "claim_id ".to_owned();
                m.append(uuid_text(claim_id).as_str());
                if self.claims_table {
                    m.append(" not found");
                } else {
                    m.append(" not found (table missing)");
                }
                return refuse(m);
            },
            Some(c) => c.batch_id,
        };
        let content_hash = checkpoint_content_hash(
            &uuid_bytes(claim_id),
            stage_idx,
            ipc_bytes.as_slice(),
        );
        let key = CheckpointKey { claim_id, stage_idx };
        let repeated = match self.checkpoints.get(key) {
            None => false,
            Some(existing) => existing.content_hash == content_hash,
        };
        if repeated {
            let checkpoint_id: u64 = match self.batches.get(batch_id) {
                None => 0,
                Some(b) => b.checkpoint_seq,
            };
            return ConsensusResponse::CheckpointWritten { checkpoint_id };
        }
        let checkpoint_id: u64 = match self.batches.remove(batch_id) {
            None => {
                assert(self@.batches =~= old(self)@.batches);
                0
            },
            Some(mut b) => {
                b.checkpoint_seq = b.checkpoint_seq + 1;
                let seq: u64 = b.checkpoint_seq;
                self.batches.insert(batch_id, b);
                assert(self@.batches =~= old(self)@.batches.insert(batch_id, b@));
                seq
            },
        };
        let record = CheckpointRecord {
            batch_id,
            stage_idx,
            ipc_bytes,
            schema_id,
            created_at: now_at_propose,
            content_hash,
        };
        self.checkpoints.insert(key, record);
        ConsensusResponse::CheckpointWritten { checkpoint_id }
    }

    fn apply_heartbeat(&mut self, instance_id: Uid, at: u64) -> (r: ConsensusResponse)
        requires
            old(self).wf(),
        ensures
            final(self).wf(),
            (final(self)@, r@) == heartbeat_next(old(self)@, instance_id, at),
    {
        self.instances.insert(instance_id, InstanceRecord { last_heartbeat_at: at });
        ConsensusResponse::HeartbeatRecorded
    }

    /// The claims whose lease ran out before `now`, in the order of their ids.
    fn expired(&self, now: u64) -> (r: Vec<(Uid, ClaimRecord)>)
        requires
            self.wf(),
        ensures
            forall|i: int|
                0 <= i < r@.len() ==> {
                    &&& expired_claims(self@, now).contains((#[trigger] r@[i]).0)
                    &&& r@[i].1 == self@.claims[r@[i].0]
                },
            forall|i: int, j: int|
                0 <= i < j < r@.len() ==> (#[trigger] r@[i]).0 != (#[trigger] r@[j]).0,
            forall|c: Uid| #[trigger]
                expired_claims(self@, now).contains(c) ==> exists|i: int|
                    0 <= i < r@.len() && (#[trigger] r@[i]).0 == c,
    {
        let mut out: Vec<(Uid, ClaimRecord)> = Vec::new();
        let mut i: usize = 0;
        proof {
            self.claims.lemma_keys();
        }
        while i < self.claims.len()
            invariant
                self.wf(),
                0 <= i <= self.claims.keys().len(),
                forall|a: int, b: int|
                    0 <= a < b < self.claims.keys().len() ==> (
                    #[trigger] self.claims.keys()[a]).rank() < (
                    #[trigger] self.claims.keys()[b]).rank(),
                forall|a: int|
                    0 <= a < out@.len() ==> {
                        &&& expired_claims(self@, now).contains((#[trigger] out@[a]).0)
                        &&& out@[a].1 == self@.claims[out@[a].0]
                        &&& exists|b: int|
                            0 <= b < i && #[trigger] self.claims.keys()[b] == out@[a].0
                    },
                forall|a: int, b: int|
                    0 <= a < b < out@.len() ==> (#[trigger] out@[a]).0 != (#[trigger] out@[b]).0,
                forall|b: int|
                    0 <= b < i && expired(
                        self@.claims[#[trigger] self.claims.keys()[b]],
                        now,
                    ) ==> exists|a: int|
                        0 <= a < out@.len() && (#[trigger] out@[a]).0 == self.claims.keys()[b],
            decreases self.claims.keys().len() - i,
        {
            let id = self.claims.key_at(i);
            let c = *self.claims.value_at(i);
            let ghost before = out@;
            let held = match c.status {
                ClaimStatus::Claimed => true,
                _ => false,
            };
            if held && c.lease_expires_at < now {
                proof {
                    assert(self.claims.keys()[i as int] == id);
                    assert forall|a: int| 0 <= a < before.len() implies (#[trigger] before[a]).0
                        != id by {
                        let b = choose|b: int|
                            0 <= b < i && #[trigger] self.claims.keys()[b] == before[a].0;
                        assert(self.claims.keys()[b].rank() < self.claims.keys()[i as int].rank());
                    }
                }
                out.push((id, c));
                proof {
                    assert(out@[before.len() as int].0 == id);
                    assert forall|b: int|
                        0 <= b < i + 1 && expired(
                            self@.claims[#[trigger] self.claims.keys()[b]],
                            now,
                        ) implies exists|a: int|
                        0 <= a < out@.len() && (#[trigger] out@[a]).0 == self.claims.keys()[b] by {
                        if b < i {
                            let a = choose|a: int|
                                0 <= a < before.len() && (#[trigger] before[a]).0
                                    == self.claims.keys()[b];
                            assert(out@[a].0 == self.claims.keys()[b]);
                        }
                    }
                }
            }
            i = i + 1;
        }
        proof {
            self.claims.lemma_keys();
            assert forall|c: Uid| #[trigger] expired_claims(self@, now).contains(c) implies exists|
                a: int,
            | 0 <= a < out@.len() && (#[trigger] out@[a]).0 == c by {
                let b = choose|b: int|
                    0 <= b < self.claims.keys().len() && #[trigger] self.claims.keys()[b] == c;
                assert(expired(self@.claims[self.claims.keys()[b]], now));
            }
        }
        out
    }

    /// Sweep expired leases: every held claim whose lease ran out before
    /// `now_at_propose` is pending again, and each counts as a failed attempt
    /// on its batch.
    fn apply_reclaim_expired(&mut self, now_at_propose: u64) -> (r: ConsensusResponse)
        requires
            old(self).wf(),
        ensures
            final(self).wf(),
            (final(self)@, r@) == reclaim_next(old(self)@, now_at_propose),
    {
        let gone = self.expired(now_at_propose);
        let ghost before = self@;
        let ghost mut done: Set<Uid> = Set::empty();
        let mut i: usize = 0;
        proof {
            lemma_nothing_swept(before);
        }
        while i < gone.len()
            invariant
                self.wf(),
                0 <= i <= gone@.len(),
                forall|a: int|
                    0 <= a < gone@.len() ==> {
                        &&& before.claims.contains_key((#[trigger] gone@[a]).0)
                        &&& gone@[a].1 == before.claims[gone@[a].0]
                    },
                forall|a: int, b: int|
                    0 <= a < b < gone@.len() ==> (#[trigger] gone@[a]).0 != (
                    #[trigger] gone@[b]).0,
                forall|c: Uid| #[trigger]
                    done.contains(c) <==> exists|a: int|
                        0 <= a < i && (#[trigger] gone@[a]).0 == c,
                done.finite(),
                done.len() == i,
                self@ == swept_tables(before, done),
            decreases gone@.len() - i,
        {
            let id = gone[i].0;
            let mut record = gone[i].1;
            record.status = ClaimStatus::Pending;
            record.lease_expires_at = 0;
            proof {
                assert(gone@[i as int].0 == id);
                assert(!done.contains(id));
                lemma_one_more_swept(before, done, id);
            }
            self.put_claim(id, record);
            self.increment_release_attempts(record.batch_id);
            proof {
                let was = done;
                done = done.insert(id);
                assert forall|c: Uid| #[trigger] done.contains(c) <==> exists|a: int|
                    0 <= a < i + 1 && (#[trigger] gone@[a]).0 == c by {
                    if was.contains(c) {
                        let a = choose|a: int| 0 <= a < i && (#[trigger] gone@[a]).0 == c;
                        assert(gone@[a].0 == c);
                    }
                    if exists|a: int| 0 <= a < i + 1 && (#[trigger] gone@[a]).0 == c {
                        let a = choose|a: int| 0 <= a < i + 1 && (#[trigger] gone@[a]).0 == c;
                        if a < i {
                            assert(was.contains(c));
                        }
                    }
                }
            }
            i = i + 1;
        }
        assert(done =~= expired_claims(before, now_at_propose));
        ConsensusResponse::ExpiredReclaimed { reclaimed_count: gone.len() as u32 }
    }

    fn apply_poison_batch(&mut self, batch_id: u64, now_at_propose: u64) -> (r: ConsensusResponse)
        requires
            old(self).wf(),
        ensures
            final(self).wf(),
            (final(self)@, r@) == poison_next(old(self)@, batch_id, now_at_propose),
    {
        match self.batches.get(batch_id) {
            None => {
                return refuse(batch_message("PoisonBatch: batch_id ", batch_id, " not found"));
            },
            Some(b) => match b.status {
                BatchStatus::Poisoned => {
                    return ConsensusResponse::BatchPoisoned {
                        batch_id,
                        poisoned_at: match b.poisoned_at {
                            Some(at) => at,
                            None => now_at_propose,
                        },
                    };
                },
                BatchStatus::Active => {},
            },
        }
        match self.batches.remove(batch_id) {
            None => {},
            Some(mut b) => {
                b.status = BatchStatus::Poisoned;
                b.poisoned_at = Some(now_at_propose);
                self.batches.insert(batch_id, b);
                assert(self@.batches =~= old(self)@.batches.insert(batch_id, b@));
            },
        }
        let _ = self.pending.remove(batch_id);
        ConsensusResponse::BatchPoisoned { batch_id, poisoned_at: now_at_propose }
    }

    /// Count one more failed attempt on the batch; an unknown batch is left
    /// alone.
    pub fn increment_release_attempts(&mut self, batch_id: u64)
        requires
            old(self).wf(),
        ensures
            final(self).wf(),
            final(self)@ == (TablesView {
                batches: attempt_counted(old(self)@.batches, batch_id),
                ..old(self)@
            }),
    {
        match self.batches.remove(batch_id) {
            None => {
                assert(self@.batches =~= old(self)@.batches);
            },
            Some(mut b) => {
                b.release_attempts = b.release_attempts.saturating_add(1);
                self.batches.insert(batch_id, b);
                assert(self@.batches =~= old(self)@.batches.insert(batch_id, b@));
            },
        }
    }

    /// Start counting failed attempts from zero again; an unknown batch is left
    /// alone.
    fn reset_release_attempts(&mut self, batch_id: u64)
        requires
            old(self).wf(),
        ensures
            final(self).wf(),
            final(self)@ == (TablesView {
                batches: if old(self)@.batches.contains_key(batch_id) {
                    old(self)@.batches.insert(
                        batch_id,
                        with_attempts(old(self)@.batches[batch_id], 0),
                    )
                } else {
                    old(self)@.batches
                },
                ..old(self)@
            }),
    {
        match self.batches.remove(batch_id) {
            None => {
                assert(self@.batches =~= old(self)@.batches);
            },
            Some(mut b) => {
                b.release_attempts = 0;
                self.batches.insert(batch_id, b);
                assert(self@.batches =~= old(self)@.batches.insert(batch_id, b@));
            },
        }
    }
}

/// Whether no counter or time that the command computes leaves its range.
pub fn is_in_range(db: &Tables, command: &ConsensusCommand) -> (r: bool)
    requires
        db.wf(),
    ensures
        r == in_range(db@, command@),
{
    match command {
        ConsensusCommand::ClaimRowRange {
            batch_id,
            row_range_start,
            row_range_end,
            claim_id,
            instance_id,
            lease_ttl_millis,
            now_at_propose,
        } => *lease_ttl_millis <= u64::MAX - *now_at_propose || !db.is_claim_accepted(
            *batch_id,
            *row_range_start,
            *row_range_end,
            *claim_id,
            *instance_id,
        ),
        ConsensusCommand::RenewClaim { claim_id, instance_id, lease_ttl_millis, now_at_propose } =>
        *lease_ttl_millis <= u64::MAX - *now_at_propose || match db.held_claim(
            *claim_id,
            *instance_id,
            "",
        ) {
            Ok(c) => c.lease_expires_at < *now_at_propose,
            Err(_) => true,
        },
        ConsensusCommand::Checkpoint {
            claim_id,
            stage_idx,
            ipc_bytes,
            schema_id,
            now_at_propose,
        } => {
            let batch_id: u64 = match db.claims.get(*claim_id) {
                None => {
                    return true;
                },
                Some(c) => c.batch_id,
            };
            match db.batches.get(batch_id) {
                None => true,
                Some(b) => b.checkpoint_seq < u64::MAX || ipc_bytes.len() >= MAX_LOG_ENTRY_BYTES
                    || match db.checkpoints.get(
                    CheckpointKey { claim_id: *claim_id, stage_idx: *stage_idx },
                ) {
                    None => false,
                    Some(existing) => existing.content_hash == checkpoint_content_hash(
                        &uuid_bytes(*claim_id),
                        *stage_idx,
                        ipc_bytes.as_slice(),
                    ),
                },
            }
        },
        _ => true,
    }
}

/// Apply a committed command to the tables.
///
/// The same commands on the same tables always give the same tables and the
/// same responses.
pub fn apply(db: &mut Tables, command: ConsensusCommand) -> (r: ConsensusResponse)
    requires
        old(db).wf(),
        in_range(old(db)@, command@),
    ensures
        final(db).wf(),
        (final(db)@, r@) == next(old(db)@, command@),
{
    match command {
        ConsensusCommand::RegisterMasterBatch {
            batch_id,
            component,
            schema_id,
            ipc_bytes,
            total_rows,
            now_at_propose,
        } => db.apply_register_master_batch(
            batch_id,
            component,
            schema_id,
            ipc_bytes,
            total_rows,
            now_at_propose,
        ),
        ConsensusCommand::ClaimRowRange {
            batch_id,
            row_range_start,
            row_range_end,
            claim_id,
            instance_id,
            lease_ttl_millis,
            now_at_propose,
        } => db.apply_claim_row_range(
            batch_id,
            row_range_start,
            row_range_end,
            claim_id,
            instance_id,
            lease_ttl_millis,
            now_at_propose,
        ),
        ConsensusCommand::RenewClaim { claim_id, instance_id, lease_ttl_millis, now_at_propose } =>
        db.apply_renew_claim(claim_id, instance_id, lease_ttl_millis, now_at_propose),
        ConsensusCommand::AckClaim { claim_id, instance_id } => db.apply_ack_claim(
            claim_id,
            instance_id,
        ),
        ConsensusCommand::ReleaseClaim { claim_id, instance_id } => db.apply_release_claim(
            claim_id,
            instance_id,
        ),
        ConsensusCommand::Checkpoint {
            claim_id,
            stage_idx,
            ipc_bytes,
            schema_id,
            now_at_propose,
        } => db.apply_checkpoint(claim_id, stage_idx, ipc_bytes, schema_id, now_at_propose),
        ConsensusCommand::Heartbeat { instance_id, at } => db.apply_heartbeat(instance_id, at),
        ConsensusCommand::ReclaimExpired { now_at_propose } => db.apply_reclaim_expired(
            now_at_propose,
        ),
        ConsensusCommand::PoisonBatch { batch_id, now_at_propose } => db.apply_poison_batch(
            batch_id,
            now_at_propose,
        ),
    }
}

/// Read a [`MasterBatchRecord`] by `batch_id`; `None` if absent.
pub fn read_master_batch(db: &Tables, batch_id: u64) -> (r: Option<MasterBatchRecord>)
    requires
        db.wf(),
    ensures
        r is Some <==> db@.batches.contains_key(batch_id),
        r matches Some(b) ==> b@ == db@.batches[batch_id],
{
    match db.batches.get(batch_id) {
        None => None,
        Some(b) => Some(b.clone()),
    }
}

/// Read a [`ClaimRecord`] by `claim_id`; `None` if absent.
pub fn read_claim(db: &Tables, claim_id: Uid) -> (r: Option<ClaimRecord>)
    requires
        db.wf(),
    ensures
        r is Some <==> db@.claims.contains_key(claim_id),
        r matches Some(c) ==> c == db@.claims[claim_id],
{
    match db.claims.get(claim_id) {
        None => None,
        Some(c) => Some(*c),
    }
}

/// Read a [`CheckpointRecord`] by claim and stage; `None` if absent.
pub fn read_checkpoint(db: &Tables, claim_id: Uid, stage_idx: u32) -> (r: Option<CheckpointRecord>)
    requires
        db.wf(),
    ensures
        ({
            let k = CheckpointKey { claim_id, stage_idx };
            &&& r is Some <==> db@.checkpoints.contains_key(k)
            &&& r matches Some(c) ==> c@ == db@.checkpoints[k]
        }),
{
    match db.checkpoints.get(CheckpointKey { claim_id, stage_idx }) {
        None => None,
        Some(c) => Some(c.clone()),
    }
}

/// The claim is completed, or, where `claimed` says so, at least claimed.
spec fn counted(status: ClaimStatus, claimed: bool) -> bool {
    status == ClaimStatus::Completed || (claimed && occupied(status))
}

/// The ranges of the batch's completed claims, and of its claimed ones where
/// `claimed` says so, ordered by their start.
fn ranges_of(index: &Table<IndexKey, IndexEntry>, batch_id: u64, claimed: bool) -> (r: Vec<
    (u32, u32),
>)
    requires
        index.wf(),
    ensures
        forall|i: int, j: int|
            0 <= i < j < r@.len() ==> (#[trigger] r@[i]).0 <= (#[trigger] r@[j]).0,
        forall|i: int| 0 <= i < r@.len() ==> counted_entry(index@, batch_id, claimed, #[trigger] r@[i]),
        forall|k: IndexKey| #[trigger]
            index@.contains_key(k) && k.batch_id == batch_id && counted(index@[k].status, claimed)
                ==> r@.contains((index@[k].start, index@[k].end)),
{
    let from = batch_start(index, batch_id);
    let mut i: usize = from;
    let mut out: Vec<(u32, u32)> = Vec::new();
    while i < index.len() && index.key_at(i).batch_id == batch_id
        invariant
            scanning(*index, batch_id, from as int, i as int),
            forall|a: int, b: int|
                0 <= a < b < out@.len() ==> (#[trigger] out@[a]).0 <= (#[trigger] out@[b]).0,
            forall|a: int|
                0 <= a < out@.len() ==> counted_entry(index@, batch_id, claimed, #[trigger] out@[a]),
            forall|j: int|
                from <= j < i && counted(index@[#[trigger] index.keys()[j]].status, claimed)
                    ==> out@.contains((index@[index.keys()[j]].start, index@[index.keys()[j]].end)),
        decreases index.keys().len() - i,
    {
        let e = *index.value_at(i);
        let taken = match e.status {
            ClaimStatus::Pending => false,
            ClaimStatus::Claimed => claimed,
            ClaimStatus::Completed => true,
        };
        if taken {
            let mut at: usize = out.len();
            while at > 0 && out[at - 1].0 > e.start
                invariant
                    0 <= at <= out@.len(),
                    forall|a: int| at <= a < out@.len() ==> (#[trigger] out@[a]).0 > e.start,
                decreases at,
            {
                at = at - 1;
            }
            let ghost before = out@;
            proof {
                if at > 0 {
                    assert forall|a: int| 0 <= a < at implies (#[trigger] before[a]).0
                        <= e.start by {
                        if a < at - 1 {
                            assert(before[a].0 <= before[at - 1].0);
                        }
                    }
                }
            }
            out.insert(at, (e.start, e.end));
            proof {
                assert(out@ =~= before.insert(at as int, (e.start, e.end)));
                assert(out@[at as int] == (e.start, e.end));
                assert forall|a: int| 0 <= a < out@.len() implies counted_entry(
                    index@,
                    batch_id,
                    claimed,
                    #[trigger] out@[a],
                ) by {
                    if a < at {
                        assert(out@[a] == before[a]);
                    } else if a > at {
                        assert(out@[a] == before[a - 1]);
                    } else {
                        assert(index@.contains_key(index.keys()[i as int]));
                    }
                }
                assert forall|a: int, b: int| 0 <= a < b < out@.len() implies (
                #[trigger] out@[a]).0 <= (#[trigger] out@[b]).0 by {
                    let oa = if a < at { a } else { a - 1 };
                    let ob = if b < at { b } else { b - 1 };
                    if a != at && b != at {
                        assert(before[oa].0 <= before[ob].0);
                    } else if a == at {
                        assert(before[ob].0 > e.start);
                    } else {
                        assert(before[oa].0 <= e.start);
                    }
                }
                assert forall|j: int|
                    from <= j < i + 1 && counted(
                        index@[#[trigger] index.keys()[j]].status,
                        claimed,
                    ) implies out@.contains(
                    (index@[index.keys()[j]].start, index@[index.keys()[j]].end),
                ) by {
                    if j < i {
                        let p = (index@[index.keys()[j]].start, index@[index.keys()[j]].end);
                        let a = choose|a: int| 0 <= a < before.len() && #[trigger] before[a] == p;
                        let b = if a < at { a } else { a + 1 };
                        assert(out@[b] == p);
                    }
                }
            }
        }
        i = i + 1;
    }
    proof {
        lemma_scanned(*index, batch_id, from as int, i as int);
    }
    out
}

/// `range` is the range of a counted claim of the batch.
spec fn counted_entry(
    index: Map<IndexKey, IndexEntry>,
    batch_id: u64,
    claimed: bool,
    range: (u32, u32),
) -> bool {
    exists|k: IndexKey| #[trigger]
        index.contains_key(k) && k.batch_id == batch_id && counted(index[k].status, claimed)
            && index[k].start == range.0 && index[k].end == range.1
}

/// Whether the first `total_rows` rows of the batch all lie in completed
/// claims.
fn is_batch_completed(
    index: &Table<IndexKey, IndexEntry>,
    batch_id: u64,
    total_rows: u32,
) -> (r: bool)
    requires
        index.wf(),
    ensures
        r == rows_completed(index@, batch_id, total_rows as int),
{
    let done = ranges_of(index, batch_id, false);
    let mut cursor: u32 = 0;
    let mut i: usize = 0;
    while i < done.len()
        invariant
            0 <= i <= done@.len(),
            forall|a: int, b: int|
                0 <= a < b < done@.len() ==> (#[trigger] done@[a]).0 <= (#[trigger] done@[b]).0,
            forall|a: int|
                0 <= a < done@.len() ==> counted_entry(index@, batch_id, false, #[trigger] done@[a]),
            forall|k: IndexKey| #[trigger]
                index@.contains_key(k) && k.batch_id == batch_id && counted(index@[k].status, false)
                    ==> done@.contains((index@[k].start, index@[k].end)),
            forall|a: int| 0 <= a < i ==> (#[trigger] done@[a]).1 <= cursor,
            forall|row: int| 0 <= row < cursor ==> #[trigger] row_completed(index@, batch_id, row),
        decreases done@.len() - i,
    {
        let start: u32 = done[i].0;
        let end: u32 = done[i].1;
        assert(counted_entry(index@, batch_id, false, done@[i as int]));
        if cursor < start {
            proof {
                assert(!row_completed(index@, batch_id, cursor as int)) by {
                    assert forall|k: IndexKey| #[trigger]
                        index@.contains_key(k) && k.batch_id == batch_id && index@[k].status
                            == ClaimStatus::Completed implies !(index@[k].start <= cursor
                        < index@[k].end) by {
                        let p = (index@[k].start, index@[k].end);
                        let a = choose|a: int| 0 <= a < done@.len() && #[trigger] done@[a] == p;
                        if a > i {
                            assert(done@[i as int].0 <= done@[a].0);
                        }
                    }
                }
            }
            return cursor >= total_rows;
        }
        if end > cursor {
            proof {
                let k = choose|k: IndexKey| #[trigger]
                    index@.contains_key(k) && k.batch_id == batch_id && counted(
                        index@[k].status,
                        false,
                    ) && index@[k].start == start && index@[k].end == end;
                assert forall|row: int| 0 <= row < end implies #[trigger] row_completed(
                    index@,
                    batch_id,
                    row,
                ) by {
                    if row >= cursor {
                        assert(index@.contains_key(k) && index@[k].start <= row < index@[k].end);
                    }
                }
            }
            cursor = end;
        }
        i = i + 1;
    }
    proof {
        if cursor < total_rows {
            assert(!row_completed(index@, batch_id, cursor as int)) by {
                assert forall|k: IndexKey| #[trigger]
                    index@.contains_key(k) && k.batch_id == batch_id && index@[k].status
                        == ClaimStatus::Completed implies index@[k].end <= cursor by {
                    let p = (index@[k].start, index@[k].end);
                    let a = choose|a: int| 0 <= a < done@.len() && #[trigger] done@[a] == p;
                }
            }
        }
    }
    cursor >= total_rows
}

/// Find the first pending (unclaimed) row range for `batch_id`.
///
/// Completed rows are as taken as claimed ones: they are never handed out
/// again.
pub fn find_first_pending_claim(db: &Tables, batch_id: u64) -> (r: Option<(u32, u32)>)
    requires
        db.wf(),
    ensures
        pending_range_is(db@, batch_id, r),
{
    let total_rows: u32 = match db.batches.get(batch_id) {
        None => {
            return None;
        },
        Some(b) => b.total_rows,
    };
    let ghost index = db@.index;
    let taken = ranges_of(&db.index, batch_id, true);
    let mut cursor: u32 = 0;
    let mut i: usize = 0;
    while i < taken.len()
        invariant
            index == db@.index,
            0 <= i <= taken@.len(),
            db@.batches.contains_key(batch_id),
            total_rows == db@.batches[batch_id].total_rows,
            forall|a: int, b: int|
                0 <= a < b < taken@.len() ==> (#[trigger] taken@[a]).0 <= (#[trigger] taken@[b]).0,
            forall|a: int|
                0 <= a < taken@.len() ==> counted_entry(index, batch_id, true, #[trigger] taken@[a]),
            forall|k: IndexKey| #[trigger]
                index.contains_key(k) && k.batch_id == batch_id && occupied(index[k].status)
                    ==> taken@.contains((index[k].start, index[k].end)),
            forall|a: int|
                0 <= a < i ==> (#[trigger] taken@[a]).0 <= cursor && taken@[a].1 <= cursor,
            forall|row: int| 0 <= row < cursor ==> row_taken(index, batch_id, row),
        decreases taken@.len() - i,
    {
        let start: u32 = taken[i].0;
        let end: u32 = taken[i].1;
        proof {
            assert(counted_entry(index, batch_id, true, taken@[i as int]));
        }
        if cursor < start {
            proof {
                assert forall|k: IndexKey| #[trigger]
                    index.contains_key(k) && k.batch_id == batch_id && occupied(
                        index[k].status,
                    ) implies !(index[k].start <= cursor < index[k].end) && !(cursor
                    < index[k].start < start) by {
                    let p = (index[k].start, index[k].end);
                    let a = choose|a: int| 0 <= a < taken@.len() && #[trigger] taken@[a] == p;
                    if a > i {
                        assert(taken@[i as int].0 <= taken@[a].0);
                    }
                }
                assert(first_free_row(index, batch_id, cursor as int));
                assert(taken_range_starts(index, batch_id, start as int));
            }
            return if cursor >= total_rows {
                None
            } else if start < total_rows {
                Some((cursor, start))
            } else {
                Some((cursor, total_rows))
            };
        }
        if end > cursor {
            proof {
                let k = choose|k: IndexKey| #[trigger]
                    index.contains_key(k) && k.batch_id == batch_id && occupied(index[k].status)
                        && index[k].start == start && index[k].end == end;
                assert forall|row: int| 0 <= row < end implies row_taken(
                    index,
                    batch_id,
                    row,
                ) by {
                    if row >= cursor {
                        assert(index.contains_key(k) && index[k].start <= row < index[k].end);
                    }
                }
            }
            cursor = end;
        }
        i = i + 1;
    }
    proof {
        assert forall|k: IndexKey| #[trigger]
            index.contains_key(k) && k.batch_id == batch_id && occupied(
                index[k].status,
            ) implies index[k].end <= cursor && index[k].start <= cursor by {
            let p = (index[k].start, index[k].end);
            let a = choose|a: int| 0 <= a < taken@.len() && #[trigger] taken@[a] == p;
        }
        assert(first_free_row(index, batch_id, cursor as int));
        assert(forall|b: int|
            b > cursor ==> !#[trigger] taken_range_starts(index, batch_id, b));
    }
    if cursor < total_rows {
        Some((cursor, total_rows))
    } else {
        None
    }
}

/// Count the completed claims of the index.
pub fn count_completed_claims(db: &Tables) -> (r: usize)
    requires
        db.wf(),
    ensures
        completed_keys(db@.index).finite(),
        r == completed_keys(db@.index).len(),
{
    let ghost mut seen: Set<IndexKey> = Set::empty();
    let mut n: usize = 0;
    let mut i: usize = 0;
    proof {
        db.index.lemma_keys();
    }
    while i < db.index.len()
        invariant
            db.wf(),
            n <= i <= db.index.keys().len(),
            seen.finite(),
            n == seen.len(),
            forall|a: int, b: int|
                0 <= a < b < db.index.keys().len() ==> (#[trigger] db.index.keys()[a]).rank() < (
                #[trigger] db.index.keys()[b]).rank(),
            forall|k: IndexKey| #[trigger]
                seen.contains(k) ==> completed_keys(db@.index).contains(k) && exists|a: int|
                    0 <= a < i && #[trigger] db.index.keys()[a] == k,
            forall|a: int|
                0 <= a < i && completed_keys(db@.index).contains(
                    #[trigger] db.index.keys()[a],
                ) ==> seen.contains(db.index.keys()[a]),
        decreases db.index.keys().len() - i,
    {
        let e = db.index.value_at(i);
        let ghost k = db.index.keys()[i as int];
        match e.status {
            ClaimStatus::Completed => {
                proof {
                    if seen.contains(k) {
                        let a = choose|a: int| 0 <= a < i && #[trigger] db.index.keys()[a] == k;
                        assert(db.index.keys()[a].rank() < db.index.keys()[i as int].rank());
                    }
                    let was = seen;
                    seen = seen.insert(k);
                    assert forall|q: IndexKey| #[trigger] seen.contains(q) implies completed_keys(
                        db@.index,
                    ).contains(q) && exists|a: int|
                        0 <= a < i + 1 && #[trigger] db.index.keys()[a] == q by {
                        if q == k {
                            assert(db.index.keys()[i as int] == q);
                        } else {
                            assert(was.contains(q));
                            let a = choose|a: int| 0 <= a < i && #[trigger] db.index.keys()[a] == q;
                            assert(db.index.keys()[a] == q);
                        }
                    }
                }
                n = n + 1;
            },
            _ => {},
        }
        i = i + 1;
    }
    proof {
        db.index.lemma_keys();
        assert(seen =~= completed_keys(db@.index));
    }
    n
}

/// Find the lowest pending batch with rows to hand out, and those rows. A
/// pending batch whose rows are all taken is passed over.
pub fn find_first_pending_batch(db: &Tables) -> (r: Option<(u64, (u32, u32))>)
    requires
        db.wf(),
    ensures
        pending_batch_is(db@, r),
{
    let mut i: usize = 0;
    proof {
        db.pending.lemma_keys();
    }
    while i < db.pending.len()
        invariant
            db.wf(),
            0 <= i <= db.pending.keys().len(),
            forall|a: int|
                0 <= a < i ==> pending_range_is(db@, #[trigger] db.pending.keys()[a], None),
        decreases db.pending.keys().len() - i,
    {
        let batch_id = db.pending.key_at(i);
        if let Some(range) = find_first_pending_claim(db, batch_id) {
            proof {
                db.pending.lemma_keys();
                assert(db.pending.keys()[i as int] == batch_id);
                assert forall|b: u64| #[trigger]
                    db@.pending.contains_key(b) && b < batch_id implies pending_range_is(
                    db@,
                    b,
                    None,
                ) by {
                    let a = choose|a: int|
                        0 <= a < db.pending.keys().len() && #[trigger] db.pending.keys()[a] == b;
                    if a > i {
                        assert(db.pending.keys()[i as int].rank() < db.pending.keys()[a].rank());
                    }
                }
            }
            return Some((batch_id, range));
        }
        i = i + 1;
    }
    proof {
        db.pending.lemma_keys();
    }
    None
}

/// Full contents of the tables, as a snapshot carries them:
/// `(master_batches, claims, checkpoints, instances)`.
pub type DumpedState = (
    Vec<MasterBatchRecord>,
    Vec<(Uid, ClaimRecord)>,
    Vec<([u8; 20], CheckpointRecord)>,
    Vec<(Uid, InstanceRecord)>,
);

/// The contents of the dumped batches.
pub open spec fn batch_views(v: Seq<MasterBatchRecord>) -> Seq<BatchView> {
    v.map_values(|b: MasterBatchRecord| b@)
}

/// The contents of `rows`, with the key a 20-byte checkpoint key stands for.
pub open spec fn checkpoint_rows(
    v: Seq<([u8; 20], CheckpointRecord)>,
    rows: Seq<(CheckpointKey, CheckpointView)>,
) -> bool {
    &&& v.len() == rows.len()
    &&& forall|i: int|
        0 <= i < v.len() ==> {
            &&& (#[trigger] v[i]).0@ == checkpoint_key_bytes(
                be_bytes(rows[i].0.claim_id as nat, 16),
                rows[i].0.stage_idx,
            )
            &&& v[i].1@ == rows[i].1
        }
}

/// The contents of the batches beside their keys.
pub open spec fn keyed_batches(
    keys: Seq<u64>,
    v: Seq<MasterBatchRecord>,
) -> Seq<(u64, BatchView)> {
    Seq::new(v.len(), |i: int| (keys[i], v[i]@))
}

/// The batches in the order of their ids.
pub open spec fn batches_dumped(
    batches: Map<u64, BatchView>,
    v: Seq<MasterBatchRecord>,
) -> bool {
    exists|keys: Seq<u64>|
        keys.len() == v.len() && dumped(batches, #[trigger] keyed_batches(keys, v))
}

/// Dump all tables, each in the order of its keys.
pub fn dump_state(db: &Tables) -> (r: DumpedState)
    requires
        db.wf(),
    ensures
        batches_dumped(db@.batches, r.0@),
        dumped(db@.claims, r.1@),
        exists|rows: Seq<(CheckpointKey, CheckpointView)>| #[trigger]
            checkpoint_rows(r.2@, rows) && dumped(db@.checkpoints, rows),
        dumped(db@.instances, r.3@),
{
    let mut batches: Vec<MasterBatchRecord> = Vec::new();
    let mut i: usize = 0;
    while i < db.batches.len()
        invariant
            db.wf(),
            0 <= i <= db.batches.keys().len(),
            batches@.len() == i,
            forall|a: int|
                0 <= a < i ==> (#[trigger] batches@[a])@ == db@.batches[db.batches.keys()[a]],
        decreases db.batches.keys().len() - i,
    {
        batches.push(db.batches.value_at(i).clone());
        i = i + 1;
    }
    let mut claims: Vec<(Uid, ClaimRecord)> = Vec::new();
    i = 0;
    while i < db.claims.len()
        invariant
            db.wf(),
            0 <= i <= db.claims.keys().len(),
            claims@.len() == i,
            forall|a: int|
                0 <= a < i ==> (#[trigger] claims@[a]).0 == db.claims.keys()[a] && claims@[a].1
                    == db@.claims[db.claims.keys()[a]],
        decreases db.claims.keys().len() - i,
    {
        claims.push((db.claims.key_at(i), *db.claims.value_at(i)));
        i = i + 1;
    }
    let mut checkpoints: Vec<([u8; 20], CheckpointRecord)> = Vec::new();
    i = 0;
    while i < db.checkpoints.len()
        invariant
            db.wf(),
            0 <= i <= db.checkpoints.keys().len(),
            checkpoints@.len() == i,
            forall|a: int|
                0 <= a < i ==> {
                    let k = db.checkpoints.keys()[a];
                    &&& (#[trigger] checkpoints@[a]).0@ == checkpoint_key_bytes(
                        be_bytes(k.claim_id as nat, 16),
                        k.stage_idx,
                    )
                    &&& checkpoints@[a].1@ == db@.checkpoints[k]
                },
        decreases db.checkpoints.keys().len() - i,
    {
        let k = db.checkpoints.key_at(i);
        checkpoints.push(
            (
                checkpoint_key(&uuid_bytes(k.claim_id), k.stage_idx),
                db.checkpoints.value_at(i).clone(),
            ),
        );
        i = i + 1;
    }
    let mut instances: Vec<(Uid, InstanceRecord)> = Vec::new();
    i = 0;
    while i < db.instances.len()
        invariant
            db.wf(),
            0 <= i <= db.instances.keys().len(),
            instances@.len() == i,
            forall|a: int|
                0 <= a < i ==> (#[trigger] instances@[a]).0 == db.instances.keys()[a]
                    && instances@[a].1 == db@.instances[db.instances.keys()[a]],
        decreases db.instances.keys().len() - i,
    {
        instances.push((db.instances.key_at(i), *db.instances.value_at(i)));
        i = i + 1;
    }
    proof {
        let keys = db.batches.keys();
        lemma_dumped(db.batches, keyed_batches(keys, batches@));
        lemma_dumped(db.claims, claims@);
        lemma_dumped(db.instances, instances@);
        let ck = db.checkpoints.keys();
        let rows = Seq::new(ck.len(), |a: int| (ck[a], checkpoints@[a].1@));
        lemma_dumped(db.checkpoints, rows);
        assert(checkpoint_rows(checkpoints@, rows));
        assert(dumped(db@.checkpoints, rows));
        let r: DumpedState = (batches, claims, checkpoints, instances);
        assert(checkpoint_rows(r.2@, rows));
    }
    (batches, claims, checkpoints, instances)
}

/// Rows listed in the table's own order are a dump of it.
proof fn lemma_dumped<K: Key, V: View>(t: Table<K, V>, rows: Seq<(K, V::V)>)
    requires
        t.wf(),
        rows.len() == t.keys().len(),
        forall|a: int|
            0 <= a < rows.len() ==> (#[trigger] rows[a]).0 == t.keys()[a] && rows[a].1
                == t@[t.keys()[a]],
    ensures
        dumped(t@, rows),
{
    t.lemma_keys();
    assert forall|i: int, j: int| 0 <= i < j < rows.len() implies (#[trigger] rows[i]).0.rank() < (
    #[trigger] rows[j]).0.rank() by {
        assert(t.keys()[i].rank() < t.keys()[j].rank());
    }
    assert forall|k: K| #[trigger] t@.contains_key(k) implies exists|i: int|
        0 <= i < rows.len() && (#[trigger] rows[i]).0 == k by {
        let i = choose|i: int| 0 <= i < t.keys().len() && #[trigger] t.keys()[i] == k;
        assert(rows[i].0 == k);
    }
    assert forall|i: int| 0 <= i < rows.len() implies t@.contains_key((#[trigger] rows[i]).0)
        && t@[rows[i].0] == rows[i].1 by {
        assert(t@.contains_key(t.keys()[i]));
    }
}

/// The keys the checkpoint rows stand for are determined by their bytes.
pub proof fn law_checkpoint_rows_unique(
    v: Seq<([u8; 20], CheckpointRecord)>,
    a: Seq<(CheckpointKey, CheckpointView)>,
    b: Seq<(CheckpointKey, CheckpointView)>,
)
    requires
        checkpoint_rows(v, a),
        checkpoint_rows(v, b),
    ensures
        a == b,
{
    assert forall|i: int| 0 <= i < a.len() implies a[i] == b[i] by {
        let _ = v[i];
        law_composite_keys_order(
            0,
            a[i].0.claim_id,
            0,
            b[i].0.claim_id,
            a[i].0.stage_idx,
            b[i].0.stage_idx,
        );
        law_composite_keys_order(
            0,
            b[i].0.claim_id,
            0,
            a[i].0.claim_id,
            b[i].0.stage_idx,
            a[i].0.stage_idx,
        );
        law_lex_irreflexive(octets(v[i].0@));
    }
    assert(a =~= b);
}

/// Replace the contents of all tables with a dump.
///
/// Every active batch of the dump is pending, the index is built from its
/// claims, and the watermarks are written together with the rest where they are given.
pub fn restore_state(
    db: &mut Tables,
    batches: Vec<MasterBatchRecord>,
    claims: Vec<(Uid, ClaimRecord)>,
    checkpoints: Vec<([u8; 20], CheckpointRecord)>,
    instances: Vec<(Uid, InstanceRecord)>,
    sm_meta: Option<(Vec<u8>, Vec<u8>)>,
)
    ensures
        final(db).wf(),
        exists|rows: Seq<(CheckpointKey, CheckpointView)>| #[trigger]
            checkpoint_rows(checkpoints@, rows) && final(db)@ == restored(
                old(db)@,
                batch_views(batches@),
                claims@,
                rows,
                instances@,
                match sm_meta {
                    Some(m) => Some((m.0@, m.1@)),
                    None => None,
                },
            ),
{
    let mut batch_table: Table<u64, MasterBatchRecord> = Table::new();
    let mut pending_table: Table<u64, Marker> = Table::new();
    let ghost views = batch_views(batches@);
    let ghost batch_rows = views.map_values(|b: BatchView| (b.batch_id, b));
    assert(pending_table@ =~= active_batches(batch_table@));
    let mut i: usize = 0;
    while i < batches.len()
        invariant
            0 <= i <= batches@.len(),
            batch_table.wf(),
            pending_table.wf(),
            views == batch_views(batches@),
            batch_rows == views.map_values(|b: BatchView| (b.batch_id, b)),
            batch_table@ == installed(batch_rows.take(i as int)),
            pending_table@ == active_batches(batch_table@),
        decreases batches@.len() - i,
    {
        proof {
            lemma_installed_step(batch_rows, i as int);
        }
        let record = batches[i].clone();
        let id = record.batch_id;
        match record.status {
            BatchStatus::Active => pending_table.insert(id, Marker),
            BatchStatus::Poisoned => {
                let _ = pending_table.remove(id);
            },
        }
        batch_table.insert(id, record);
        assert(pending_table@ =~= active_batches(batch_table@));
        i = i + 1;
    }
    let mut claim_table: Table<Uid, ClaimRecord> = Table::new();
    let mut idx_table: Table<IndexKey, IndexEntry> = Table::new();
    let ghost idx_rows = index_rows(claims@);
    i = 0;
    while i < claims.len()
        invariant
            0 <= i <= claims@.len(),
            claim_table.wf(),
            idx_table.wf(),
            idx_rows == index_rows(claims@),
            claim_table@ == installed(claims@.take(i as int)),
            idx_table@ == installed(idx_rows.take(i as int)),
        decreases claims@.len() - i,
    {
        proof {
            lemma_installed_step(claims@, i as int);
            lemma_installed_step(idx_rows, i as int);
        }
        let id = claims[i].0;
        let record = claims[i].1;
        claim_table.insert(id, record);
        idx_table.insert(
            IndexKey { batch_id: record.batch_id, claim_id: id },
            IndexEntry {
                start: record.row_range_start,
                end: record.row_range_end,
                status: record.status,
            },
        );
        i = i + 1;
    }
    let mut cp_table: Table<CheckpointKey, CheckpointRecord> = Table::new();
    let ghost mut cp_rows: Seq<(CheckpointKey, CheckpointView)> = Seq::empty();
    i = 0;
    while i < checkpoints.len()
        invariant
            0 <= i <= checkpoints@.len(),
            cp_table.wf(),
            checkpoint_rows(checkpoints@.take(i as int), cp_rows),
            cp_table@ == installed(cp_rows),
        decreases checkpoints@.len() - i,
    {
        let (claim_id, stage_idx) = decode_checkpoint_key(&checkpoints[i].0);
        let record = checkpoints[i].1.clone();
        proof {
            let row = (CheckpointKey { claim_id, stage_idx }, record@);
            assert(cp_rows.push(row).drop_last() =~= cp_rows);
            assert(checkpoints@.take(i + 1) =~= checkpoints@.take(i as int).push(
                checkpoints@[i as int],
            ));
            cp_rows = cp_rows.push(row);
        }
        cp_table.insert(CheckpointKey { claim_id, stage_idx }, record);
        i = i + 1;
    }
    let mut inst_table: Table<Uid, InstanceRecord> = Table::new();
    i = 0;
    while i < instances.len()
        invariant
            0 <= i <= instances@.len(),
            inst_table.wf(),
            inst_table@ == installed(instances@.take(i as int)),
        decreases instances@.len() - i,
    {
        proof {
            lemma_installed_step(instances@, i as int);
        }
        inst_table.insert(instances[i].0, instances[i].1);
        i = i + 1;
    }
    proof {
        assert(batch_rows.take(batches@.len() as int) =~= batch_rows);
        assert(claims@.take(claims@.len() as int) =~= claims@);
        assert(idx_rows.take(claims@.len() as int) =~= idx_rows);
        assert(checkpoints@.take(checkpoints@.len() as int) =~= checkpoints@);
        assert(instances@.take(instances@.len() as int) =~= instances@);
    }
    db.batches = batch_table;
    db.claims = claim_table;
    db.index = idx_table;
    db.checkpoints = cp_table;
    db.instances = inst_table;
    db.pending = pending_table;
    db.claims_table = true;
    if let Some((applied, membership)) = sm_meta {
        db.last_applied = Some(applied);
        db.last_membership = Some(membership);
    }
}

proof fn lemma_installed_step<K, V>(rows: Seq<(K, V)>, i: int)
    requires
        0 <= i < rows.len(),
    ensures
        installed(rows.take(i + 1)) == installed(rows.take(i)).insert(rows[i].0, rows[i].1),
{
    assert(rows.take(i + 1).drop_last() =~= rows.take(i));
}

} // verus!
