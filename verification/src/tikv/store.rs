//! Records of the shared store and what its operations decide.
//!
//! The store's calls (get, put, compare-and-swap, delete, scan) happen outside;
//! each decision takes what the last call gave and says what to do next.

use vstd::prelude::*;

use crate::checkpoint::Checkpoint;
use crate::consensus::types::{Uid, MAX_LOG_ENTRY_BYTES};
use crate::error::{ErrorView, PcsError};
use crate::order::{codes, lex_lt};
use crate::text::{decimal, decimal_text, uuid_hyphenated, uuid_text};
use crate::tikv::keys::{
    batch_key_text, last_segment, law_scan_order_is_numeric, parse_hex_tail, rows_key_text,
    segment_value,
};

verus! {

/// Resolved connection options of the shared store.
#[derive(Debug, Clone, PartialEq, Eq)]
pub struct TikvStoreConfig {
    /// Placement driver endpoints, `host:port` strings.
    pub pd_endpoints: Vec<String>,
    /// Key prefix for every key this store writes.
    pub key_prefix: String,
    /// Per-operation timeout, in milliseconds.
    pub timeout_millis: u64,
    /// Claim lease TTL in milliseconds.
    pub lease_ttl_millis: u64,
}

/// Largest `ipc_bytes` a checkpoint accepts: 4 MiB.
pub const TIKV_MAX_CHECKPOINT_BYTES: usize = 4_194_304;

/// Rows per claimable row range.
pub const TIKV_ROWS_PER_RANGE: u32 = 512;

/// The master batch: one row-range source of work per batch id.
#[derive(Debug, PartialEq, Eq)]
pub struct MasterBatchRecord {
    /// Arrow component name for the batch's rows.
    pub component: String,
    /// Schema version of the IPC bytes.
    pub schema_id: u32,
    /// Arrow IPC bytes of the master record batch.
    pub ipc_bytes: Vec<u8>,
    /// Total rows in the master batch; every row range lies within it.
    pub total_rows: u32,
    /// Unix milliseconds when the batch was registered.
    pub created_at_ms: u64,
    /// Poisoned batches are passed over when work is claimed.
    pub poisoned: bool,
}

/// Status of one row range of a master batch.
#[derive(Debug, Clone, Copy, PartialEq, Eq, Structural)]
pub enum RowRangeStatus {
    /// Available to be claimed.
    Pending,
    /// Claimed; the claim fields are populated.
    Claimed,
    /// Processed; never reclaimed.
    Completed,
}

/// The byte a status is stored as.
pub open spec fn range_status_code(s: RowRangeStatus) -> u8 {
    match s {
        RowRangeStatus::Pending => 0,
        RowRangeStatus::Claimed => 1,
        RowRangeStatus::Completed => 2,
    }
}

impl RowRangeStatus {
    /// The byte a status is stored as.
    pub fn code(self) -> (r: u8)
        ensures
            r == range_status_code(self),
    {
        match self {
            RowRangeStatus::Pending => 0,
            RowRangeStatus::Claimed => 1,
            RowRangeStatus::Completed => 2,
        }
    }
}

/// One row range of a master batch and its claim state.
#[derive(Debug, Clone, Copy, PartialEq, Eq, Structural)]
pub struct RowRangeRecord {
    /// Exclusive end of the half-open range (`start` is in the key).
    pub end: u32,
    /// [`RowRangeStatus`] as its raw byte.
    pub status: u8,
    /// The claim, zero while pending.
    pub claim_id: Uid,
    /// Instance that holds the claim, zero while pending.
    pub instance_id: Uid,
    /// Lease expiry in unix milliseconds, zero while pending.
    pub lease_expires_at_ms: u64,
}

/// Index from a claim id back to its row range.
#[derive(Debug, Clone, Copy, PartialEq, Eq, Structural)]
pub struct ClaimIndexRecord {
    /// Master batch the claim belongs to.
    pub batch_id: u64,
    /// Inclusive start of the claimed row range.
    pub start: u32,
}

/// A persisted per-stage pipeline checkpoint.
#[derive(Debug, PartialEq, Eq)]
pub struct CheckpointRecord {
    /// Master batch the checkpoint belongs to.
    pub batch_id: u64,
    /// Stage index after which this checkpoint was taken.
    pub stage_idx: u32,
    /// Arrow IPC bytes of the intermediate state.
    pub ipc_bytes: Vec<u8>,
    /// Schema version of the IPC bytes.
    pub schema_id: u32,
    /// Unix milliseconds when the checkpoint was created.
    pub created_at_ms: u64,
}

/// A granted claim on a row range.
#[derive(Debug, PartialEq, Eq)]
pub struct BatchClaim {
    pub batch_id: u64,
    pub component: String,
    pub row_range_start: u32,
    pub row_range_end: u32,
    pub schema_id: u32,
    pub claim_id: Uid,
    pub instance_id: Uid,
    pub lease_expires_at: u64,
    pub lease_ttl_millis: u64,
}

/// A range nobody holds.
pub open spec fn pending_record(end: u32) -> RowRangeRecord {
    RowRangeRecord {
        end,
        status: range_status_code(RowRangeStatus::Pending),
        claim_id: 0,
        instance_id: 0,
        lease_expires_at_ms: 0,
    }
}

/// `"<head><id><tail>"` for a claim id.
pub open spec fn about_claim(head: Seq<char>, id: Uid, tail: Seq<char>) -> Seq<char> {
    head + uuid_hyphenated(id) + tail
}

fn claim_message(head: &str, id: Uid, tail: &str) -> (r: String)
    ensures
        r@ == about_claim(head@, id, tail@),
{
    let mut m = head.to_owned();
    m.append(uuid_text(id).as_str());
    m.append(tail);
    m
}

/// `"master batch <id><tail>"`.
pub open spec fn about_batch(id: u64, tail: Seq<char>) -> Seq<char> {
    "master batch "@ + decimal_text(id as nat) + tail
}

/// Whether a payload may be registered under the batch id: it must stay under
/// the cap, and nothing may be registered there yet.
pub fn check_registration(batch_id: u64, payload_len: usize, exists: bool) -> (r: Result<
    (),
    PcsError,
>)
    ensures
        r is Ok <==> payload_len < MAX_LOG_ENTRY_BYTES && !exists,
        r matches Err(e) ==> e@ == ErrorView::Configuration(
            about_batch(
                batch_id,
                if payload_len >= MAX_LOG_ENTRY_BYTES {
                    ": ipc payload "@ + decimal_text(payload_len as nat)
                        + " bytes exceeds the "@ + decimal_text(MAX_LOG_ENTRY_BYTES as nat)
                        + " byte limit"@
                } else {
                    " already registered"@
                },
            ),
        ),
{
    let mut m = "master batch ".to_owned();
    m.append(decimal(batch_id).as_str());
    if payload_len >= MAX_LOG_ENTRY_BYTES {
        let mut tail = ": ipc payload ".to_owned();
        tail.append(decimal(payload_len as u64).as_str());
        tail.append(" bytes exceeds the ");
        tail.append(decimal(MAX_LOG_ENTRY_BYTES as u64).as_str());
        tail.append(" byte limit");
        m.append(tail.as_str());
        return Err(PcsError::Configuration(m));
    }
    if exists {
        m.append(" already registered");
        return Err(PcsError::Configuration(m));
    }
    Ok(())
}

/// The end of the range that starts at `start`.
pub open spec fn range_end(start: int, total_rows: int) -> int {
    if start + TIKV_ROWS_PER_RANGE <= total_rows {
        start + TIKV_ROWS_PER_RANGE
    } else {
        total_rows
    }
}

/// The `i`-th range of a batch of `total_rows` rows.
pub open spec fn planned_range(total_rows: u32, i: int) -> (u32, RowRangeRecord) {
    let start = i * TIKV_ROWS_PER_RANGE;
    (start as u32, pending_record(range_end(start, total_rows as int) as u32))
}

/// How many ranges a batch is split into.
pub open spec fn planned_len(total_rows: u32) -> int {
    (total_rows + TIKV_ROWS_PER_RANGE - 1) / (TIKV_ROWS_PER_RANGE as int)
}

/// The claimable row ranges of a fresh batch, each with its start: pieces of
/// [`TIKV_ROWS_PER_RANGE`] rows, the last one shorter where they do not divide
/// the batch.
pub fn plan_row_ranges(total_rows: u32) -> (r: Vec<(u32, RowRangeRecord)>)
    ensures
        r@.len() == planned_len(total_rows),
        forall|i: int| 0 <= i < r@.len() ==> #[trigger] r@[i] == planned_range(total_rows, i),
{
    let mut out: Vec<(u32, RowRangeRecord)> = Vec::new();
    let mut start: u32 = 0;
    while start < total_rows
        invariant
            start <= total_rows,
            start == out@.len() * TIKV_ROWS_PER_RANGE || (start == total_rows && out@.len()
                == planned_len(total_rows)),
            start < total_rows ==> start == out@.len() * TIKV_ROWS_PER_RANGE,
            start == total_rows ==> out@.len() == planned_len(total_rows),
            forall|i: int|
                0 <= i < out@.len() ==> #[trigger] out@[i] == planned_range(total_rows, i),
        decreases total_rows - start,
    {
        let end: u32 = if TIKV_ROWS_PER_RANGE < total_rows - start {
            start + TIKV_ROWS_PER_RANGE
        } else {
            total_rows
        };
        out.push(
            (
                start,
                RowRangeRecord {
                    end,
                    status: RowRangeStatus::Pending.code(),
                    claim_id: 0,
                    instance_id: 0,
                    lease_expires_at_ms: 0,
                },
            ),
        );
        start = end;
    }
    out
}

/// The ranges a batch is split into cover each of its rows exactly once.
pub proof fn law_planned_ranges_partition(total_rows: u32, row: u32)
    requires
        row < total_rows,
    ensures
        ({
            let i = row as int / TIKV_ROWS_PER_RANGE as int;
            &&& 0 <= i < planned_len(total_rows)
            &&& planned_range(total_rows, i).0 <= row < planned_range(total_rows, i).1.end
            &&& planned_range(total_rows, i).1.end <= total_rows
            &&& forall|j: int|
                0 <= j < planned_len(total_rows) && j != i ==> !((#[trigger] planned_range(
                    total_rows,
                    j,
                )).0 <= row < planned_range(total_rows, j).1.end)
        }),
{
}

/// The record of a newly registered batch.
pub fn new_master_batch(
    component: String,
    schema_id: u32,
    ipc_bytes: Vec<u8>,
    total_rows: u32,
    now_ms: u64,
) -> (r: MasterBatchRecord)
    ensures
        r == (MasterBatchRecord {
            component,
            schema_id,
            ipc_bytes,
            total_rows,
            created_at_ms: now_ms,
            poisoned: false,
        }),
{
    MasterBatchRecord {
        component,
        schema_id,
        ipc_bytes,
        total_rows,
        created_at_ms: now_ms,
        poisoned: false,
    }
}

/// The first key at `from` or after that ends in an integer segment, with its
/// position and that integer.
pub open spec fn next_numbered(keys: Seq<String>, from: int) -> Option<(int, u64)>
    decreases keys.len() - from,
{
    if from < 0 || from >= keys.len() {
        None
    } else {
        match segment_value(last_segment(keys[from]@)) {
            Some(v) => Some((from, v)),
            None => next_numbered(keys, from + 1),
        }
    }
}

fn find_numbered(keys: &Vec<String>, from: usize) -> (r: Option<(usize, u64)>)
    ensures
        match r {
            Some(p) => next_numbered(keys@, from as int) == Some((p.0 as int, p.1)) && p.0
                < keys@.len() && p.0 < usize::MAX,
            None => next_numbered(keys@, from as int) is None,
        },
{
    let mut i: usize = from;
    while i < keys.len()
        invariant
            next_numbered(keys@, from as int) == next_numbered(keys@, i as int),
        decreases keys@.len() - i,
    {
        if let Some(v) = parse_hex_tail(keys[i].as_str()) {
            return Some((i, v));
        }
        i = i + 1;
    }
    None
}

/// What a scan for claimable work needs next.
#[derive(Debug, PartialEq, Eq)]
pub enum ClaimAsk {
    /// Decode the record of the scanned batch at this position.
    DecodeBatch { at: usize, batch_id: u64 },
    /// List the row ranges of the batch.
    ScanRows { batch_id: u64 },
    /// Decode the scanned row range at this position.
    DecodeRow { at: usize, start: u32 },
    /// Swap the row range at this position for `claimed`.
    Swap { at: usize, claimed: RowRangeRecord },
    /// Write the claim index.
    PutIndex { claim_id: Uid, index: ClaimIndexRecord },
    /// Read the master batch.
    ReadMaster { batch_id: u64 },
    /// The claim was granted.
    Claimed(BatchClaim),
    /// There is nothing to claim.
    Nothing,
}

/// A scan for claimable work: batches in the order of their keys, and the row
/// ranges of each batch in the order of theirs.
pub struct ClaimScan {
    instance_id: Uid,
    lease_ttl_millis: u64,
    batch_keys: Vec<String>,
    row_keys: Vec<String>,
    /// The batch under the scan.
    batch_at: usize,
    batch_id: u64,
    /// The row range under the scan.
    row_at: usize,
    start: u32,
    claimed: RowRangeRecord,
    ask: ClaimAsk,
}

/// What is asked once the batches before `from` are done with.
pub open spec fn ask_batch(batch_keys: Seq<String>, from: int) -> ClaimAsk {
    match next_numbered(batch_keys, from) {
        Some((at, batch_id)) => ClaimAsk::DecodeBatch { at: at as usize, batch_id },
        None => ClaimAsk::Nothing,
    }
}

/// What is asked once the row ranges before `from` are done with.
pub open spec fn ask_row(
    batch_keys: Seq<String>,
    batch_at: int,
    row_keys: Seq<String>,
    from: int,
) -> ClaimAsk {
    match next_numbered(row_keys, from) {
        Some((at, start)) => ClaimAsk::DecodeRow { at: at as usize, start: start as u32 },
        None => ask_batch(batch_keys, batch_at + 1),
    }
}

impl ClaimScan {
    pub closed spec fn instance(self) -> Uid {
        self.instance_id
    }

    pub closed spec fn ttl(self) -> u64 {
        self.lease_ttl_millis
    }

    pub closed spec fn batches(self) -> Seq<String> {
        self.batch_keys@
    }

    pub closed spec fn rows(self) -> Seq<String> {
        self.row_keys@
    }

    /// The position and id of the batch under the scan.
    pub closed spec fn batch(self) -> (usize, u64) {
        (self.batch_at, self.batch_id)
    }

    /// The position and start of the row range under the scan.
    pub closed spec fn row(self) -> (usize, u32) {
        (self.row_at, self.start)
    }

    /// The record that was to be swapped in.
    pub closed spec fn swapped_in(self) -> RowRangeRecord {
        self.claimed
    }

    /// What the scan needs next.
    pub closed spec fn asked(self) -> ClaimAsk {
        self.ask
    }

    /// The request agrees with where the scan stands.
    pub closed spec fn wf(self) -> bool {
        &&& self.batch_at < usize::MAX
        &&& self.row_at < usize::MAX
        &&& match self.ask {
            ClaimAsk::DecodeBatch { at, batch_id } => at == self.batch_at && batch_id
                == self.batch_id,
            ClaimAsk::ScanRows { batch_id } => batch_id == self.batch_id,
            ClaimAsk::DecodeRow { at, start } => at == self.row_at && start == self.start,
            ClaimAsk::Swap { at, claimed } => at == self.row_at && claimed == self.claimed,
            ClaimAsk::PutIndex { claim_id, index } => claim_id == self.claimed.claim_id && index
                == (ClaimIndexRecord { batch_id: self.batch_id, start: self.start }),
            ClaimAsk::ReadMaster { batch_id } => batch_id == self.batch_id,
            _ => true,
        }
    }

    /// What never changes while a scan goes on.
    pub open spec fn same_scan(self, other: ClaimScan) -> bool {
        &&& self.instance() == other.instance()
        &&& self.ttl() == other.ttl()
        &&& self.batches() == other.batches()
    }

    /// `next` is this scan once the batch it asks for was decoded.
    pub open spec fn batch_answered(self, next: ClaimScan, poisoned: bool) -> bool {
        &&& next.same_scan(self)
        &&& next.asked() == if poisoned {
            ask_batch(self.batches(), self.asked()->DecodeBatch_at + 1)
        } else {
            ClaimAsk::ScanRows { batch_id: self.asked()->DecodeBatch_batch_id }
        }
        &&& !poisoned ==> next.batch() == (
            self.asked()->DecodeBatch_at,
            self.asked()->DecodeBatch_batch_id,
        )
    }

    /// `next` is this scan once the row ranges it asks for were listed.
    pub open spec fn rows_answered(self, next: ClaimScan, row_keys: Seq<String>) -> bool {
        &&& next.same_scan(self)
        &&& next.rows() == row_keys
        &&& next.asked() is DecodeRow ==> next.batch() == self.batch()
        &&& next.asked() == ask_row(self.batches(), self.batch().0 as int, row_keys, 0)
    }

    /// `next` is this scan once the row range it asks for was decoded.
    pub open spec fn row_answered(
        self,
        next: ClaimScan,
        record: RowRangeRecord,
        claim_id: Uid,
        now: u64,
    ) -> bool {
        &&& next.same_scan(self)
        &&& next.rows() == self.rows()
        &&& next.asked() is DecodeRow || next.asked() is Swap ==> next.batch() == self.batch()
        &&& next.asked() is Swap ==> next.row() == self.row()
        &&& next.asked() == if record.status == range_status_code(RowRangeStatus::Pending) {
            ClaimAsk::Swap {
                at: self.asked()->DecodeRow_at,
                claimed: RowRangeRecord {
                    end: record.end,
                    status: range_status_code(RowRangeStatus::Claimed),
                    claim_id,
                    instance_id: self.instance(),
                    lease_expires_at_ms: (now + self.ttl()) as u64,
                },
            }
        } else {
            ask_row(
                self.batches(),
                self.batch().0 as int,
                self.rows(),
                self.asked()->DecodeRow_at + 1,
            )
        }
    }

    /// `next` is this scan once the swap it asks for was tried.
    pub open spec fn swap_answered(self, next: ClaimScan, swapped: bool) -> bool {
        &&& next.same_scan(self)
        &&& next.rows() == self.rows()
        &&& swapped || next.asked() is DecodeRow ==> next.batch() == self.batch()
        &&& swapped ==> next.row() == self.row() && next.swapped_in()
            == self.asked()->Swap_claimed
        &&& next.asked() == if swapped {
            ClaimAsk::PutIndex {
                claim_id: self.asked()->Swap_claimed.claim_id,
                index: ClaimIndexRecord { batch_id: self.batch().1, start: self.row().1 },
            }
        } else {
            ask_row(
                self.batches(),
                self.batch().0 as int,
                self.rows(),
                self.asked()->Swap_at + 1,
            )
        }
    }

    /// `next` is this scan once the claim index was written.
    pub open spec fn index_answered(self, next: ClaimScan) -> bool {
        &&& next.same_scan(self)
        &&& next.batch() == self.batch()
        &&& next.row() == self.row()
        &&& next.swapped_in() == self.swapped_in()
        &&& next.asked() == (ClaimAsk::ReadMaster { batch_id: self.batch().1 })
    }

    /// `next` is this scan once the master batch was read.
    pub open spec fn master_answered(self, next: ClaimScan, master: (String, u32)) -> bool {
        &&& next.same_scan(self)
        &&& next.asked() == ClaimAsk::Claimed(
            BatchClaim {
                batch_id: self.batch().1,
                component: master.0,
                row_range_start: self.row().1,
                row_range_end: self.swapped_in().end,
                schema_id: master.1,
                claim_id: self.swapped_in().claim_id,
                instance_id: self.instance(),
                lease_expires_at: self.swapped_in().lease_expires_at_ms,
                lease_ttl_millis: self.ttl(),
            },
        )
    }

    /// Start a scan over the batch keys the store listed.
    pub fn new(batch_keys: Vec<String>, instance_id: Uid, lease_ttl_millis: u64) -> (r: Self)
        ensures
            r.wf(),
            r.instance() == instance_id,
            r.ttl() == lease_ttl_millis,
            r.batches() == batch_keys@,
            r.asked() == ask_batch(batch_keys@, 0),
    {
        let mut r = ClaimScan {
            instance_id,
            lease_ttl_millis,
            batch_keys,
            row_keys: Vec::new(),
            batch_at: 0,
            batch_id: 0,
            row_at: 0,
            start: 0,
            claimed: RowRangeRecord {
                end: 0,
                status: 0,
                claim_id: 0,
                instance_id: 0,
                lease_expires_at_ms: 0,
            },
            ask: ClaimAsk::Nothing,
        };
        r.seek_batch(0);
        r
    }

    /// What the scan needs next.
    pub fn ask(&self) -> (r: &ClaimAsk)
        ensures
            *r == self.asked(),
    {
        &self.ask
    }

    fn seek_batch(&mut self, from: usize)
        requires
            old(self).row_at < usize::MAX,
            old(self).batch_at < usize::MAX,
        ensures
            final(self).wf(),
            final(self).same_scan(*old(self)),
            final(self).rows() == old(self).rows(),
            final(self).asked() == ask_batch(old(self).batches(), from as int),
    {
        match find_numbered(&self.batch_keys, from) {
            Some((at, batch_id)) => {
                self.batch_at = at;
                self.batch_id = batch_id;
                self.ask = ClaimAsk::DecodeBatch { at, batch_id };
            },
            None => {
                self.ask = ClaimAsk::Nothing;
            },
        }
    }

    fn seek_row(&mut self, from: usize)
        requires
            old(self).batch_at < usize::MAX,
            old(self).row_at < usize::MAX,
        ensures
            final(self).wf(),
            final(self).same_scan(*old(self)),
            final(self).rows() == old(self).rows(),
            final(self).asked() is DecodeRow ==> final(self).batch() == old(self).batch(),
            final(self).asked() == ask_row(
                old(self).batches(),
                old(self).batch().0 as int,
                old(self).rows(),
                from as int,
            ),
    {
        match find_numbered(&self.row_keys, from) {
            Some((at, start)) => {
                self.row_at = at;
                let start: u32 = start as u32;
                self.start = start;
                self.ask = ClaimAsk::DecodeRow { at, start };
            },
            None => {
                let next: usize = self.batch_at + 1;
                self.seek_batch(next);
            },
        }
    }

    /// The batch's record was decoded. A poisoned batch is passed over.
    pub fn on_batch(&mut self, poisoned: bool)
        requires
            old(self).wf(),
            old(self).asked() is DecodeBatch,
        ensures
            final(self).wf(),
            old(self).batch_answered(*final(self), poisoned),
    {
        if poisoned {
            let next: usize = self.batch_at + 1;
            self.seek_batch(next);
        } else {
            self.ask = ClaimAsk::ScanRows { batch_id: self.batch_id };
        }
    }

    /// The batch's row ranges were listed.
    pub fn on_rows(&mut self, row_keys: Vec<String>)
        requires
            old(self).wf(),
            old(self).asked() is ScanRows,
        ensures
            final(self).wf(),
            old(self).rows_answered(*final(self), row_keys@),
    {
        self.row_keys = row_keys;
        self.seek_row(0);
    }

    /// A row range was decoded. A range that is not pending is passed over;
    /// otherwise it is to be swapped for one claimed under `claim_id` until
    /// `now` plus the lease.
    pub fn on_row(&mut self, record: RowRangeRecord, claim_id: Uid, now: u64)
        requires
            old(self).wf(),
            old(self).asked() is DecodeRow,
            record.status == range_status_code(RowRangeStatus::Pending) ==> now + old(
                self,
            ).ttl() <= u64::MAX,
        ensures
            final(self).wf(),
            old(self).row_answered(*final(self), record, claim_id, now),
    {
        if record.status != RowRangeStatus::Pending.code() {
            let next: usize = self.row_at + 1;
            self.seek_row(next);
            return ;
        }
        self.claimed = RowRangeRecord {
            end: record.end,
            status: RowRangeStatus::Claimed.code(),
            claim_id,
            instance_id: self.instance_id,
            lease_expires_at_ms: now + self.lease_ttl_millis,
        };
        self.ask = ClaimAsk::Swap { at: self.row_at, claimed: self.claimed };
    }

    /// The swap took place, or another instance was faster. A lost race moves
    /// the scan to the next range.
    pub fn on_swapped(&mut self, swapped: bool)
        requires
            old(self).wf(),
            old(self).asked() is Swap,
        ensures
            final(self).wf(),
            old(self).swap_answered(*final(self), swapped),
    {
        if swapped {
            self.ask = ClaimAsk::PutIndex {
                claim_id: self.claimed.claim_id,
                index: ClaimIndexRecord { batch_id: self.batch_id, start: self.start },
            };
        } else {
            let next: usize = self.row_at + 1;
            self.seek_row(next);
        }
    }

    /// The claim index was written.
    pub fn on_index_put(&mut self)
        requires
            old(self).wf(),
            old(self).asked() is PutIndex,
        ensures
            final(self).wf(),
            old(self).index_answered(*final(self)),
    {
        self.ask = ClaimAsk::ReadMaster { batch_id: self.batch_id };
    }

    /// The master batch was read again, for the claim's component and schema.
    pub fn on_master(&mut self, master: Option<(String, u32)>) -> (r: Result<(), PcsError>)
        requires
            old(self).wf(),
            old(self).asked() is ReadMaster,
        ensures
            final(self).wf(),
            r is Ok <==> master is Some,
            r matches Err(e) ==> e@ == ErrorView::Store(
                "tikv: master batch "@ + decimal_text(old(self).batch().1 as nat)
                    + " missing after claim"@,
            ),
            master matches Some(m) ==> old(self).master_answered(*final(self), m),
            master is None ==> *final(self) == *old(self),
    {
        match master {
            None => {
                let mut m = "tikv: master batch ".to_owned();
                m.append(decimal(self.batch_id).as_str());
                m.append(" missing after claim");
                Err(PcsError::Store(m))
            },
            Some((component, schema_id)) => {
                self.ask = ClaimAsk::Claimed(
                    BatchClaim {
                        batch_id: self.batch_id,
                        component,
                        row_range_start: self.start,
                        row_range_end: self.claimed.end,
                        schema_id,
                        claim_id: self.claimed.claim_id,
                        instance_id: self.instance_id,
                        lease_expires_at: self.claimed.lease_expires_at_ms,
                        lease_ttl_millis: self.lease_ttl_millis,
                    },
                );
                Ok(())
            },
        }
    }

    /// The claim the scan ended in, if it ended in one.
    pub fn into_claim(self) -> (r: Option<BatchClaim>)
        ensures
            r == match self.asked() {
                ClaimAsk::Claimed(c) => Some(c),
                _ => None,
            },
    {
        match self.ask {
            ClaimAsk::Claimed(c) => Some(c),
            _ => None,
        }
    }
}

/// What a scan for claimable work meets in the store: the batches in the order
/// of their keys, the row ranges of each batch in the order of theirs, and
/// which swaps no other instance is faster at.
pub struct Listing {
    pub batches: Seq<String>,
    pub poisoned: Seq<bool>,
    pub rows: Map<u64, Seq<String>>,
    pub ranges: Map<u64, Seq<RowRangeRecord>>,
    pub won: Map<u64, Seq<bool>>,
}

/// The number that the key at this position ends in.
pub open spec fn number_at(keys: Seq<String>, i: int) -> Option<u64> {
    segment_value(last_segment(keys[i]@))
}

/// The keys come in the order of their bytes.
pub open spec fn in_key_order(keys: Seq<String>) -> bool {
    forall|i: int, j: int|
        0 <= i < j < keys.len() ==> lex_lt(codes(#[trigger] keys[i]@), codes(#[trigger] keys[j]@))
}

impl Listing {
    /// The store lists keys in their order, and every numbered key is that of
    /// a batch, or of a row range of its batch.
    pub open spec fn wf(self, prefix: Seq<char>) -> bool {
        &&& self.poisoned.len() == self.batches.len()
        &&& in_key_order(self.batches)
        &&& forall|i: int|
            0 <= i < self.batches.len() && (#[trigger] number_at(self.batches, i)) is Some
                ==> self.batches[i]@ == batch_key_text(prefix, number_at(self.batches, i)->0)
                && self.rows_wf(prefix, number_at(self.batches, i)->0)
    }

    /// The row ranges of one batch are listed as `wf` says.
    pub open spec fn rows_wf(self, prefix: Seq<char>, batch_id: u64) -> bool {
        let keys = self.rows[batch_id];
        &&& self.ranges[batch_id].len() == keys.len()
        &&& self.won[batch_id].len() == keys.len()
        &&& in_key_order(keys)
        &&& forall|j: int|
            0 <= j < keys.len() && (#[trigger] number_at(keys, j)) is Some ==> number_at(keys, j)->0
                <= u32::MAX && keys[j]@ == rows_key_text(
                prefix,
                batch_id,
                (number_at(keys, j)->0) as u32,
            )
    }

    /// The row range at `j` of the batch at `i` is free, of a batch that is
    /// not poisoned, and no other instance takes it first.
    pub open spec fn claimable_at(self, i: int, j: int) -> bool {
        &&& 0 <= i < self.batches.len()
        &&& !self.poisoned[i]
        &&& number_at(self.batches, i) matches Some(b) && 0 <= j < self.rows[b].len() && number_at(
            self.rows[b],
            j,
        ) is Some && self.ranges[b][j].status == range_status_code(RowRangeStatus::Pending)
            && self.won[b][j]
    }

    /// The batch has a range to claim that starts at this row.
    pub open spec fn claimable(self, batch_id: u64, start: u32) -> bool {
        exists|i: int, j: int| #[trigger]
            self.claimable_at(i, j) && number_at(self.batches, i) == Some(batch_id) && number_at(
                self.rows[batch_id],
                j,
            ) == Some(start as u64)
    }

    /// The batch and start are the first there are to claim: no batch with a
    /// lower id has a range to claim, nor has this batch one that starts
    /// earlier.
    pub open spec fn first_claimable(self, batch_id: u64, start: u32) -> bool {
        &&& self.claimable(batch_id, start)
        &&& forall|b: u64, s: u32| #[trigger]
            self.claimable(b, s) ==> batch_id < b || (batch_id == b && start <= s)
    }

    /// `next` is the scan after it got from this store what it asked for.
    pub open spec fn answers(self, scan: ClaimScan, next: ClaimScan) -> bool {
        &&& next.wf()
        &&& match scan.asked() {
            ClaimAsk::DecodeBatch { at, .. } => scan.batch_answered(
                next,
                self.poisoned[at as int],
            ),
            ClaimAsk::ScanRows { batch_id } => scan.rows_answered(next, self.rows[batch_id]),
            ClaimAsk::DecodeRow { at, .. } => exists|claim_id: Uid, now: u64| #[trigger]
                scan.row_answered(next, self.ranges[scan.batch().1][at as int], claim_id, now),
            ClaimAsk::Swap { at, .. } => scan.swap_answered(
                next,
                self.won[scan.batch().1][at as int],
            ),
            ClaimAsk::PutIndex { .. } => scan.index_answered(next),
            ClaimAsk::ReadMaster { .. } => exists|master: (String, u32)| #[trigger]
                scan.master_answered(next, master),
            ClaimAsk::Claimed(_) => false,
            ClaimAsk::Nothing => false,
        }
    }

    /// Nothing is claimable in the batches before `i`.
    spec fn none_before(self, i: int) -> bool {
        forall|i2: int, j: int| i2 < i ==> !(#[trigger] self.claimable_at(i2, j))
    }

    /// The scan stands at the batch at `i`, and passed over nothing claimable.
    spec fn at_batch(self, i: int, batch_id: u64) -> bool {
        &&& 0 <= i < self.batches.len()
        &&& number_at(self.batches, i) == Some(batch_id)
        &&& self.none_before(i)
    }

    /// The scan stands at the row range at `j` of the batch at `i`, and passed
    /// over nothing claimable.
    spec fn at_row(self, i: int, batch_id: u64, j: int, start: u32) -> bool {
        &&& self.at_batch(i, batch_id)
        &&& !self.poisoned[i]
        &&& 0 <= j < self.rows[batch_id].len()
        &&& number_at(self.rows[batch_id], j) == Some(start as u64)
        &&& forall|j2: int| j2 < j ==> !(#[trigger] self.claimable_at(i, j2))
    }

    /// Where a scan stands that passed over nothing claimable.
    spec fn passed_nothing(self, scan: ClaimScan) -> bool {
        let (i, b) = scan.batch();
        let (j, start) = scan.row();
        &&& scan.wf()
        &&& scan.batches() == self.batches
        &&& match scan.asked() {
            ClaimAsk::DecodeBatch { .. } => self.at_batch(i as int, b),
            ClaimAsk::ScanRows { .. } => self.at_batch(i as int, b) && !self.poisoned[i as int],
            ClaimAsk::DecodeRow { .. } => scan.rows() == self.rows[b] && self.at_row(
                i as int,
                b,
                j as int,
                start,
            ),
            ClaimAsk::Swap { .. } => scan.rows() == self.rows[b] && self.at_row(
                i as int,
                b,
                j as int,
                start,
            ) && self.ranges[b][j as int].status == range_status_code(RowRangeStatus::Pending),
            ClaimAsk::PutIndex { .. } | ClaimAsk::ReadMaster { .. } => self.at_row(
                i as int,
                b,
                j as int,
                start,
            ) && self.claimable_at(i as int, j as int),
            ClaimAsk::Claimed(c) => exists|i2: int, j2: int| #[trigger]
                self.claimable_at(i2, j2) && self.at_row(i2, c.batch_id, j2, c.row_range_start),
            ClaimAsk::Nothing => self.none_before(self.batches.len() as int),
        }
    }
}

proof fn lemma_next_numbered(keys: Seq<String>, from: int)
    requires
        0 <= from,
    ensures
        match next_numbered(keys, from) {
            Some((at, v)) => from <= at < keys.len() && number_at(keys, at) == Some(v) && forall|
                k: int,
            |
                from <= k < at ==> (#[trigger] number_at(keys, k)) is None,
            None => forall|k: int|
                from <= k < keys.len() ==> (#[trigger] number_at(keys, k)) is None,
        },
    decreases keys.len() - from,
{
    if from < keys.len() && number_at(keys, from) is None {
        lemma_next_numbered(keys, from + 1);
    }
}

proof fn lemma_to_next_batch(l: Listing, from: int, next: ClaimScan)
    requires
        0 <= from,
        next.wf(),
        next.batches() == l.batches,
        l.none_before(from),
        next.asked() == ask_batch(l.batches, from),
    ensures
        l.passed_nothing(next),
{
    lemma_next_numbered(l.batches, from);
    assert(next.batch_keys.len() == l.batches.len());
    assert forall|i: int, j: int|
        i < (match next_numbered(l.batches, from) {
            Some((at, _)) => at,
            None => l.batches.len() as int,
        }) implies !(#[trigger] l.claimable_at(i, j)) by {
        if i >= from && i >= 0 {
            assert(number_at(l.batches, i) is None);
        }
    }
}

proof fn lemma_to_next_row(l: Listing, prefix: Seq<char>, scan: ClaimScan, from: int, next: ClaimScan)
    requires
        l.wf(prefix),
        0 <= from,
        next.wf(),
        next.batches() == l.batches,
        next.rows() == l.rows[scan.batch().1],
        l.at_batch(scan.batch().0 as int, scan.batch().1),
        !l.poisoned[scan.batch().0 as int],
        forall|j: int| j < from ==> !(#[trigger] l.claimable_at(scan.batch().0 as int, j)),
        next.asked() is DecodeRow ==> next.batch() == scan.batch(),
        next.asked() == ask_row(
            l.batches,
            scan.batch().0 as int,
            l.rows[scan.batch().1],
            from,
        ),
    ensures
        l.passed_nothing(next),
{
    let (i, b) = scan.batch();
    let keys = l.rows[b];
    lemma_next_numbered(keys, from);
    assert(next.row_keys.len() == keys.len());
    assert forall|j: int|
        j < (match next_numbered(keys, from) {
            Some((at, _)) => at,
            None => keys.len() as int,
        }) implies !(#[trigger] l.claimable_at(i as int, j)) by {
        if j >= from && j >= 0 {
            assert(number_at(keys, j) is None);
        }
    }
    if next_numbered(keys, from) is None {
        assert(l.none_before(i + 1)) by {
            assert forall|i2: int, j: int| i2 < i + 1 implies !(#[trigger] l.claimable_at(
                i2,
                j,
            )) by {
                if i2 == i && j >= keys.len() {
                    assert(!l.claimable_at(i2, j));
                }
            }
        }
        lemma_to_next_batch(l, i + 1, next);
    }
}

proof fn lemma_answer_passes_nothing(l: Listing, prefix: Seq<char>, scan: ClaimScan, next: ClaimScan)
    requires
        l.wf(prefix),
        l.passed_nothing(scan),
        l.answers(scan, next),
    ensures
        l.passed_nothing(next),
{
    let (i, b) = scan.batch();
    let (j, start) = scan.row();
    match scan.asked() {
        ClaimAsk::DecodeBatch { at, batch_id } => {
            if l.poisoned[at as int] {
                assert(l.none_before(at + 1));
                lemma_to_next_batch(l, at + 1, next);
            }
        },
        ClaimAsk::ScanRows { batch_id } => {
            lemma_to_next_row(l, prefix, scan, 0, next);
        },
        ClaimAsk::DecodeRow { at, start: s } => {
            let record = l.ranges[b][at as int];
            if record.status != range_status_code(RowRangeStatus::Pending) {
                assert(!l.claimable_at(i as int, at as int));
                lemma_to_next_row(l, prefix, scan, at + 1, next);
            }
        },
        ClaimAsk::Swap { at, claimed } => {
            if !l.won[b][at as int] {
                assert(!l.claimable_at(i as int, at as int));
                lemma_to_next_row(l, prefix, scan, at + 1, next);
            }
        },
        ClaimAsk::ReadMaster { .. } => {
            assert(l.claimable_at(i as int, j as int) && l.at_row(i as int, b, j as int, start));
        },
        _ => {},
    }
}

proof fn lemma_trail_passes_nothing(l: Listing, prefix: Seq<char>, trail: Seq<ClaimScan>, k: int)
    requires
        l.wf(prefix),
        0 <= k < trail.len(),
        trail[0].wf(),
        trail[0].batches() == l.batches,
        trail[0].asked() == ask_batch(l.batches, 0),
        forall|m: int| 0 <= m < trail.len() - 1 ==> l.answers(#[trigger] trail[m], trail[m + 1]),
    ensures
        l.passed_nothing(trail[k]),
    decreases k,
{
    if k == 0 {
        assert(l.none_before(0));
        lemma_to_next_batch(l, 0, trail[0]);
    } else {
        lemma_trail_passes_nothing(l, prefix, trail, k - 1);
        assert(l.answers(trail[k - 1], trail[k - 1 + 1]));
        lemma_answer_passes_nothing(l, prefix, trail[k - 1], trail[k]);
    }
}

proof fn lemma_first_claimable(l: Listing, prefix: Seq<char>, i: int, j: int, b: u64, start: u32)
    requires
        l.wf(prefix),
        l.at_row(i, b, j, start),
        l.claimable_at(i, j),
    ensures
        l.first_claimable(b, start),
{
    assert forall|b2: u64, s2: u32| #[trigger] l.claimable(b2, s2) implies b < b2 || (b == b2
        && start <= s2) by {
        let (i2, j2) = choose|i2: int, j2: int| #[trigger]
            l.claimable_at(i2, j2) && number_at(l.batches, i2) == Some(b2) && number_at(
                l.rows[b2],
                j2,
            ) == Some(s2 as u64);
        law_scan_order_is_numeric(prefix, b, start, b2, s2);
        if i < i2 {
            assert(lex_lt(codes(l.batches[i]@), codes(l.batches[i2]@)));
        } else {
            assert(i2 == i);
            assert(j <= j2);
            if j < j2 {
                let keys = l.rows[b];
                assert(in_key_order(keys));
                assert(lex_lt(codes(keys[j]@), codes(keys[j2]@)));
            }
        }
    }
}

/// A whole scan, from its start through any number of answers of one store,
/// claims the first free range there is: of the batches that are not poisoned
/// and have a range to claim that with the lowest id, and its range with the
/// lowest start. Where it ends with nothing, there is nothing to claim. A range
/// that another instance swaps first counts as none to claim.
pub proof fn law_scan_claims_the_first(l: Listing, prefix: Seq<char>, trail: Seq<ClaimScan>)
    requires
        l.wf(prefix),
        trail.len() > 0,
        trail[0].wf(),
        trail[0].batches() == l.batches,
        trail[0].asked() == ask_batch(l.batches, 0),
        forall|m: int| 0 <= m < trail.len() - 1 ==> l.answers(#[trigger] trail[m], trail[m + 1]),
    ensures
        match trail.last().asked() {
            ClaimAsk::PutIndex { index, .. } => l.first_claimable(index.batch_id, index.start),
            ClaimAsk::Claimed(c) => l.first_claimable(c.batch_id, c.row_range_start),
            ClaimAsk::Nothing => forall|b: u64, s: u32| !(#[trigger] l.claimable(b, s)),
            _ => true,
        },
{
    let scan = trail.last();
    lemma_trail_passes_nothing(l, prefix, trail, trail.len() - 1);
    match scan.asked() {
        ClaimAsk::PutIndex { index, .. } => {
            lemma_first_claimable(
                l,
                prefix,
                scan.batch().0 as int,
                scan.row().0 as int,
                scan.batch().1,
                scan.row().1,
            );
        },
        ClaimAsk::Claimed(c) => {
            let (i, j) = choose|i: int, j: int| #[trigger]
                l.claimable_at(i, j) && l.at_row(i, c.batch_id, j, c.row_range_start);
            lemma_first_claimable(l, prefix, i, j, c.batch_id, c.row_range_start);
        },
        _ => {},
    }
}

impl Listing {
    /// How many row ranges the batch at this position has.
    pub open spec fn range_count(self, i: int) -> nat {
        match number_at(self.batches, i) {
            Some(b) => self.rows[b].len(),
            None => 0,
        }
    }

    /// How many answers are spent at most on the batches from this position on:
    /// three on each, and two on each of its row ranges.
    pub open spec fn answers_from(self, i: int) -> nat
        decreases self.batches.len() - i,
    {
        if i < 0 || i >= self.batches.len() {
            0
        } else {
            3 + 2 * self.range_count(i) + self.answers_from(i + 1)
        }
    }

    /// More answers than a scan that stands here can still take.
    spec fn ahead(self, scan: ClaimScan) -> int {
        let (i, b) = scan.batch();
        let (j, _) = scan.row();
        match scan.asked() {
            ClaimAsk::DecodeBatch { .. } => self.answers_from(i as int) as int + 3,
            ClaimAsk::ScanRows { .. } => self.answers_from(i + 1) as int + 2 * self.rows[b].len() + 5,
            ClaimAsk::DecodeRow { .. } => self.answers_from(i + 1) + 2 * (self.rows[b].len() - j)
                + 4,
            ClaimAsk::Swap { .. } => self.answers_from(i + 1) + 2 * (self.rows[b].len() - j) + 3,
            ClaimAsk::PutIndex { .. } => 2,
            ClaimAsk::ReadMaster { .. } => 1,
            ClaimAsk::Claimed(_) | ClaimAsk::Nothing => 0,
        }
    }
}

proof fn lemma_fewer_answers_later(l: Listing, i: int, j: int)
    requires
        0 <= i <= j,
    ensures
        l.answers_from(j) <= l.answers_from(i),
    decreases j - i,
{
    if i < j {
        lemma_fewer_answers_later(l, i + 1, j);
    }
}

proof fn lemma_ahead_of_batch(l: Listing, from: int, next: ClaimScan)
    requires
        0 <= from,
        next.wf(),
        next.batches() == l.batches,
        next.asked() == ask_batch(l.batches, from),
    ensures
        0 <= l.ahead(next) <= l.answers_from(from) + 3,
{
    lemma_next_numbered(l.batches, from);
    assert(next.batch_keys.len() == l.batches.len());
    if let Some((at, _)) = next_numbered(l.batches, from) {
        lemma_fewer_answers_later(l, from, at);
    }
}

proof fn lemma_ahead_of_row(l: Listing, scan: ClaimScan, from: int, next: ClaimScan)
    requires
        0 <= from <= l.rows[scan.batch().1].len(),
        next.wf(),
        next.batches() == l.batches,
        next.rows() == l.rows[scan.batch().1],
        next.asked() is DecodeRow ==> next.batch() == scan.batch(),
        next.asked() == ask_row(
            l.batches,
            scan.batch().0 as int,
            l.rows[scan.batch().1],
            from,
        ),
    ensures
        0 <= l.ahead(next) <= l.answers_from(scan.batch().0 + 1) + 2 * (
        l.rows[scan.batch().1].len() - from) + 4,
{
    let keys = l.rows[scan.batch().1];
    lemma_next_numbered(keys, from);
    assert(next.row_keys.len() == keys.len());
    if next_numbered(keys, from) is None {
        lemma_ahead_of_batch(l, scan.batch().0 + 1, next);
    }
}

proof fn lemma_answer_leaves_fewer(l: Listing, scan: ClaimScan, next: ClaimScan)
    requires
        l.passed_nothing(scan),
        l.answers(scan, next),
    ensures
        0 <= l.ahead(next) < l.ahead(scan),
{
    let (i, b) = scan.batch();
    match scan.asked() {
        ClaimAsk::DecodeBatch { at, batch_id } => {
            if l.poisoned[at as int] {
                lemma_ahead_of_batch(l, at + 1, next);
            }
        },
        ClaimAsk::ScanRows { batch_id } => {
            lemma_ahead_of_row(l, scan, 0, next);
        },
        ClaimAsk::DecodeRow { at, start } => {
            if l.ranges[b][at as int].status != range_status_code(RowRangeStatus::Pending) {
                lemma_ahead_of_row(l, scan, at + 1, next);
            }
        },
        ClaimAsk::Swap { at, claimed } => {
            if !l.won[b][at as int] {
                lemma_ahead_of_row(l, scan, at + 1, next);
            }
        },
        _ => {},
    }
}

proof fn lemma_trail_shortens(l: Listing, prefix: Seq<char>, trail: Seq<ClaimScan>, k: int)
    requires
        l.wf(prefix),
        0 <= k < trail.len(),
        trail[0].wf(),
        trail[0].batches() == l.batches,
        trail[0].asked() == ask_batch(l.batches, 0),
        forall|m: int| 0 <= m < trail.len() - 1 ==> l.answers(#[trigger] trail[m], trail[m + 1]),
    ensures
        0 <= l.ahead(trail[k]) <= l.answers_from(0) + 3 - k,
    decreases k,
{
    if k == 0 {
        lemma_ahead_of_batch(l, 0, trail[0]);
    } else {
        lemma_trail_shortens(l, prefix, trail, k - 1);
        lemma_trail_passes_nothing(l, prefix, trail, k - 1);
        assert(l.answers(trail[k - 1], trail[k - 1 + 1]));
        lemma_answer_leaves_fewer(l, trail[k - 1], trail[k]);
    }
}

/// Every scan ends: it takes no more answers than [`Listing::answers_from`]
/// counts over all batches, and three.
pub proof fn law_scan_ends(l: Listing, prefix: Seq<char>, trail: Seq<ClaimScan>)
    requires
        l.wf(prefix),
        trail.len() > 0,
        trail[0].wf(),
        trail[0].batches() == l.batches,
        trail[0].asked() == ask_batch(l.batches, 0),
        forall|m: int| 0 <= m < trail.len() - 1 ==> l.answers(#[trigger] trail[m], trail[m + 1]),
    ensures
        trail.len() - 1 <= l.answers_from(0) + 3,
{
    lemma_trail_shortens(l, prefix, trail, trail.len() - 1);
}

/// No numbered key is skipped: between `from` and the key a scan goes to next
/// there is none.
pub proof fn law_scan_skips_no_numbered_key(keys: Seq<String>, from: int, j: int)
    requires
        0 <= from <= j < keys.len(),
        segment_value(last_segment(keys[j]@)) is Some,
    ensures
        next_numbered(keys, from) is Some,
        (next_numbered(keys, from)->0).0 <= j,
        from <= (next_numbered(keys, from)->0).0 < keys.len(),
        segment_value(last_segment(keys[(next_numbered(keys, from)->0).0]@)) == Some(
            (next_numbered(keys, from)->0).1,
        ),
    decreases j - from,
{
    if segment_value(last_segment(keys[from]@)) is None {
        law_scan_skips_no_numbered_key(keys, from + 1, j);
    }
}

/// The claim's index record, which a renewal needs.
pub fn renew_index(claim_id: Uid, index: Option<ClaimIndexRecord>) -> (r: Result<
    ClaimIndexRecord,
    PcsError,
>)
    ensures
        match index {
            Some(i) => r == Ok::<ClaimIndexRecord, PcsError>(i),
            None => r is Err && r->Err_0@ == ErrorView::Store(
                about_claim("tikv: claim "@, claim_id, " not found; cannot renew"@),
            ),
        },
{
    match index {
        Some(i) => Ok(i),
        None => Err(
            PcsError::Store(claim_message("tikv: claim ", claim_id, " not found; cannot renew")),
        ),
    }
}

/// The range is under this claim, held by this instance.
pub open spec fn range_held(row: RowRangeRecord, claim_id: Uid, instance_id: Uid) -> bool {
    &&& row.status == range_status_code(RowRangeStatus::Claimed)
    &&& row.claim_id == claim_id
    &&& row.instance_id == instance_id
}

/// Why a renewal is refused.
pub open spec fn renew_refusal(
    claim_id: Uid,
    instance_id: Uid,
    row: Option<RowRangeRecord>,
) -> Seq<char> {
    match row {
        None => about_claim("tikv: row range for claim "@, claim_id, " missing; cannot renew"@),
        Some(r) => if !range_held(r, claim_id, instance_id) {
            about_claim("tikv: claim "@, claim_id, " is no longer held by instance "@)
                + uuid_hyphenated(instance_id)
        } else {
            about_claim("tikv: claim "@, claim_id, " lease expired at "@) + decimal_text(
                r.lease_expires_at_ms as nat,
            ) + "; reclaiming requires reclaim_expired"@
        },
    }
}

/// The range as it stands after a renewal, or why the claim cannot be renewed:
/// a lost claim must stop its runner, and an expired lease is a lost claim.
/// `checked_at` is the time the lease is held against, `renewed_at` the time
/// the new lease runs from.
pub fn renew_range(
    claim_id: Uid,
    instance_id: Uid,
    row: Option<RowRangeRecord>,
    checked_at: u64,
    renewed_at: u64,
    lease_ttl_millis: u64,
) -> (r: Result<RowRangeRecord, PcsError>)
    requires
        renewed_at + lease_ttl_millis <= u64::MAX,
    ensures
        r is Ok <==> row is Some && range_held(row->0, claim_id, instance_id)
            && row->0.lease_expires_at_ms > checked_at,
        r matches Ok(n) ==> n == (RowRangeRecord {
            lease_expires_at_ms: (renewed_at + lease_ttl_millis) as u64,
            ..row->0
        }),
        r matches Err(e) ==> e@ == ErrorView::Store(renew_refusal(claim_id, instance_id, row)),
{
    let row = match row {
        None => {
            return Err(
                PcsError::Store(
                    claim_message(
                        "tikv: row range for claim ",
                        claim_id,
                        " missing; cannot renew",
                    ),
                ),
            );
        },
        Some(r) => r,
    };
    if row.status != RowRangeStatus::Claimed.code() || row.claim_id != claim_id || row.instance_id
        != instance_id {
        let mut m = claim_message("tikv: claim ", claim_id, " is no longer held by instance ");
        m.append(uuid_text(instance_id).as_str());
        return Err(PcsError::Store(m));
    }
    if row.lease_expires_at_ms <= checked_at {
        let mut m = claim_message("tikv: claim ", claim_id, " lease expired at ");
        m.append(decimal(row.lease_expires_at_ms).as_str());
        m.append("; reclaiming requires reclaim_expired");
        return Err(PcsError::Store(m));
    }
    let mut renewed = row;
    renewed.lease_expires_at_ms = renewed_at + lease_ttl_millis;
    Ok(renewed)
}

/// The renewal's outcome once the swap was tried.
pub fn renew_outcome(claim_id: Uid, renewed: RowRangeRecord, swapped: bool) -> (r: Result<
    u64,
    PcsError,
>)
    ensures
        if swapped {
            r == Ok::<u64, PcsError>(renewed.lease_expires_at_ms)
        } else {
            r is Err && r->Err_0@ == ErrorView::Store(
                about_claim("tikv: renew lost a race for claim "@, claim_id, ""@),
            )
        },
{
    if swapped {
        Ok(renewed.lease_expires_at_ms)
    } else {
        Err(PcsError::Store(claim_message("tikv: renew lost a race for claim ", claim_id, "")))
    }
}

/// The range as it stands after an ack.
pub fn completed_range(row: RowRangeRecord) -> (r: RowRangeRecord)
    ensures
        r == (RowRangeRecord { status: range_status_code(RowRangeStatus::Completed), ..row }),
{
    let mut completed = row;
    completed.status = RowRangeStatus::Completed.code();
    completed
}

/// The range as it stands after it was given back.
pub fn released_range(row: RowRangeRecord) -> (r: RowRangeRecord)
    ensures
        r == pending_record(row.end),
{
    RowRangeRecord {
        end: row.end,
        status: RowRangeStatus::Pending.code(),
        claim_id: 0,
        instance_id: 0,
        lease_expires_at_ms: 0,
    }
}

/// The release's outcome once the swap was tried; on success the claim index
/// goes.
pub fn release_outcome(claim_id: Uid, swapped: bool) -> (r: Result<(), PcsError>)
    ensures
        r is Ok <==> swapped,
        r matches Err(e) ==> e@ == ErrorView::Store(
            about_claim("tikv: release lost a race for claim "@, claim_id, ""@),
        ),
{
    if swapped {
        Ok(())
    } else {
        Err(PcsError::Store(claim_message("tikv: release lost a race for claim ", claim_id, "")))
    }
}

/// The range is claimed and its lease has run out at `now`.
pub open spec fn lease_lost(row: RowRangeRecord, now: u64) -> bool {
    row.status == range_status_code(RowRangeStatus::Claimed) && row.lease_expires_at_ms <= now
}

/// What a sweep does with a range: where its lease has run out, the claim it
/// was under and the range to swap in.
pub fn reclaim_range(row: RowRangeRecord, now_millis: u64) -> (r: Option<(Uid, RowRangeRecord)>)
    ensures
        r == if lease_lost(row, now_millis) {
            Some((row.claim_id, pending_record(row.end)))
        } else {
            None
        },
{
    if row.status != RowRangeStatus::Claimed.code() || row.lease_expires_at_ms > now_millis {
        return None;
    }
    Some((row.claim_id, released_range(row)))
}

/// A range is renewable at most until the moment a sweep may take it: at no
/// time do a renewal and a sweep both accept the same record.
pub proof fn law_renewal_and_sweep_exclude(
    row: RowRangeRecord,
    claim_id: Uid,
    instance_id: Uid,
    now: u64,
)
    requires
        range_held(row, claim_id, instance_id),
    ensures
        lease_lost(row, now) <==> !(row.lease_expires_at_ms > now),
{
}

/// The payload fits a checkpoint, or why it is not saved.
pub fn check_checkpoint(payload_len: usize) -> (r: Result<(), PcsError>)
    ensures
        r is Ok <==> payload_len <= TIKV_MAX_CHECKPOINT_BYTES,
        r matches Err(e) ==> e@ == ErrorView::Configuration(
            "save_checkpoint: ipc_bytes ("@ + decimal_text(payload_len as nat)
                + " bytes) exceeds TIKV_MAX_CHECKPOINT_BYTES ("@ + decimal_text(
                TIKV_MAX_CHECKPOINT_BYTES as nat,
            ) + "). Split per component."@,
        ),
{
    if payload_len > TIKV_MAX_CHECKPOINT_BYTES {
        let mut m = "save_checkpoint: ipc_bytes (".to_owned();
        m.append(decimal(payload_len as u64).as_str());
        m.append(" bytes) exceeds TIKV_MAX_CHECKPOINT_BYTES (");
        m.append(decimal(TIKV_MAX_CHECKPOINT_BYTES as u64).as_str());
        m.append("). Split per component.");
        return Err(PcsError::Configuration(m));
    }
    Ok(())
}

/// The record to write for a checkpoint of a live claim.
pub fn checkpoint_record(
    claim_id: Uid,
    index: Option<ClaimIndexRecord>,
    stage_idx: u32,
    ipc_bytes: Vec<u8>,
    schema_id: u32,
    now_ms: u64,
) -> (r: Result<CheckpointRecord, PcsError>)
    ensures
        match index {
            Some(i) => r == Ok::<CheckpointRecord, PcsError>(
                CheckpointRecord {
                    batch_id: i.batch_id,
                    stage_idx,
                    ipc_bytes,
                    schema_id,
                    created_at_ms: now_ms,
                },
            ),
            None => r is Err && r->Err_0@ == ErrorView::Store(
                about_claim("tikv: claim "@, claim_id, " not found; cannot save checkpoint"@),
            ),
        },
{
    match index {
        Some(i) => Ok(
            CheckpointRecord {
                batch_id: i.batch_id,
                stage_idx,
                ipc_bytes,
                schema_id,
                created_at_ms: now_ms,
            },
        ),
        None => Err(
            PcsError::Store(
                claim_message("tikv: claim ", claim_id, " not found; cannot save checkpoint"),
            ),
        ),
    }
}

/// Whether a checkpoint of this stage updates the schema-id ledger: every data
/// stage does, the two sentinel stages at the top do not.
pub fn updates_schema_ledger(stage_idx: u32) -> (r: bool)
    ensures
        r == (stage_idx < u32::MAX - 1),
{
    stage_idx < u32::MAX - 1
}

/// The checkpoint a stored record stands for.
pub fn loaded_checkpoint(record: CheckpointRecord) -> (r: Checkpoint)
    ensures
        r == (Checkpoint {
            batch_id: record.batch_id,
            stage_idx: record.stage_idx,
            payload: record.ipc_bytes,
            schema_id: record.schema_id,
            created_at: record.created_at_ms,
        }),
{
    Checkpoint {
        batch_id: record.batch_id,
        stage_idx: record.stage_idx,
        payload: record.ipc_bytes,
        schema_id: record.schema_id,
        created_at: record.created_at_ms,
    }
}

/// A range is stored as free, claimed or completed by the bytes zero, one and two.
/// A free one has its end and nothing else.
pub proof fn law_range_states(end: u32, s: RowRangeStatus)
    ensures
        range_status_code(RowRangeStatus::Pending) == 0,
        range_status_code(RowRangeStatus::Claimed) == 1,
        range_status_code(RowRangeStatus::Completed) == 2,
        pending_record(end).end == end,
        pending_record(end).status == 0,
        pending_record(end).claim_id == 0,
        pending_record(end).instance_id == 0,
        pending_record(end).lease_expires_at_ms == 0,
{
}

/// The ranges of a fresh batch are free, follow each other without a gap from its
/// first row to its last, and have five hundred and twelve rows each, the last one
/// what is left.
pub proof fn law_fresh_ranges_are_free(total_rows: u32, i: int)
    requires
        0 <= i < planned_len(total_rows),
    ensures
        planned_range(total_rows, i).0 == i * 512,
        planned_range(total_rows, i).1 == pending_record(planned_range(total_rows, i).1.end),
        i + 1 < planned_len(total_rows) ==> planned_range(total_rows, i).1.end == (i + 1) * 512,
        i + 1 == planned_len(total_rows) ==> planned_range(total_rows, i).1.end == total_rows
            && total_rows - i * 512 <= 512,
        i * 512 < total_rows,
{
}

/// An instance holds a range that is claimed under its claim and by it. Its lease is
/// lost once the time is reached at which it ends.
pub proof fn law_held_ranges(row: RowRangeRecord, claim_id: Uid, instance_id: Uid, now: u64)
    ensures
        range_held(row, claim_id, instance_id) <==> row.status == 1 && row.claim_id == claim_id
            && row.instance_id == instance_id,
        lease_lost(row, now) <==> row.status == 1 && row.lease_expires_at_ms <= now,
{
}

/// A scan goes into a batch that is not poisoned, and passes one that is for a later
/// one, or ends where there is none.
pub proof fn law_scan_passes_poisoned_batches(scan: ClaimScan, next: ClaimScan, poisoned: bool)
    requires
        scan.asked() is DecodeBatch,
        scan.batch_answered(next, poisoned),
        scan.batches().len() <= usize::MAX,
    ensures
        !poisoned ==> next.asked() == (ClaimAsk::ScanRows {
            batch_id: scan.asked()->DecodeBatch_batch_id,
        }) && next.batch().1 == scan.asked()->DecodeBatch_batch_id,
        poisoned ==> next.asked() is Nothing || (next.asked() is DecodeBatch
            && next.asked()->DecodeBatch_at > scan.asked()->DecodeBatch_at),
        next.instance() == scan.instance() && next.ttl() == scan.ttl() && next.batches()
            == scan.batches(),
{
    if poisoned && next.asked() is DecodeBatch {
        lemma_next_is_ahead(scan.batches(), scan.asked()->DecodeBatch_at + 1);
    }
}

proof fn lemma_next_is_ahead(keys: Seq<String>, from: int)
    requires
        next_numbered(keys, from) is Some,
    ensures
        from <= (next_numbered(keys, from)->0).0 < keys.len(),
    decreases keys.len() - from,
{
    if segment_value(last_segment(keys[from]@)) is None {
        lemma_next_is_ahead(keys, from + 1);
    }
}

/// A free range is claimed as it is, for the instance of the scan, under the claim
/// given, until the lease of the scan has run from now on. Any other range is passed.
pub proof fn law_scan_claims_free_ranges(
    scan: ClaimScan,
    next: ClaimScan,
    record: RowRangeRecord,
    claim_id: Uid,
    now: u64,
)
    requires
        scan.asked() is DecodeRow,
        scan.row_answered(next, record, claim_id, now),
        now + scan.ttl() <= u64::MAX,
    ensures
        next.asked() is Swap <==> record.status == 0,
        next.asked() is Swap ==> {
            let c = next.asked()->Swap_claimed;
            &&& next.asked()->Swap_at == scan.asked()->DecodeRow_at
            &&& c.end == record.end
            &&& c.status == 1
            &&& c.claim_id == claim_id
            &&& c.instance_id == scan.instance()
            &&& c.lease_expires_at_ms == now + scan.ttl()
            &&& next.batch() == scan.batch()
            &&& next.row() == scan.row()
        },
        record.status != 0 ==> next.asked() is DecodeRow || next.asked() is DecodeBatch
            || next.asked() is Nothing,
        next.instance() == scan.instance() && next.ttl() == scan.ttl() && next.batches()
            == scan.batches(),
{
}

/// Once a range is swapped in, it is entered under its claim, the master batch is
/// read, and the claim that is told is that of the range: its batch, its rows, its
/// lease, its holder, with the component and schema of the batch. A swap that was
/// lost enters nothing.
pub proof fn law_claim_tells_what_was_swapped_in(
    scan: ClaimScan,
    swapped: ClaimScan,
    entered: ClaimScan,
    told: ClaimScan,
    lost: ClaimScan,
    master: (String, u32),
)
    requires
        scan.asked() is Swap,
        scan.swap_answered(swapped, true),
        swapped.index_answered(entered),
        entered.master_answered(told, master),
        scan.swap_answered(lost, false),
    ensures
        ({
            let c = scan.asked()->Swap_claimed;
            &&& swapped.asked() is PutIndex
            &&& swapped.asked()->PutIndex_claim_id == c.claim_id
            &&& swapped.asked()->PutIndex_index.batch_id == scan.batch().1
            &&& swapped.asked()->PutIndex_index.start == scan.row().1
            &&& entered.asked() == (ClaimAsk::ReadMaster { batch_id: scan.batch().1 })
            &&& told.asked() matches ClaimAsk::Claimed(b) && b.batch_id == scan.batch().1
                && b.component == master.0 && b.row_range_start == scan.row().1 && b.row_range_end
                == c.end && b.schema_id == master.1 && b.claim_id == c.claim_id && b.instance_id
                == scan.instance() && b.lease_expires_at == c.lease_expires_at_ms
                && b.lease_ttl_millis == scan.ttl()
            &&& lost.asked() is DecodeRow || lost.asked() is DecodeBatch || lost.asked() is Nothing
        }),
{
}

/// A range can be claimed where its batch is listed and not poisoned, it is listed
/// under that batch by its number, it is free, and nobody is faster.
pub proof fn law_claimable_ranges(l: Listing, i: int, j: int)
    ensures
        l.claimable_at(i, j) <==> 0 <= i < l.batches.len() && !l.poisoned[i] && (
        number_at(l.batches, i) matches Some(b) && 0 <= j < l.rows[b].len() && number_at(
            l.rows[b],
            j,
        ) is Some && l.ranges[b][j].status == 0 && l.won[b][j]),
{
}

/// A scan meets the keys in the order in which they are listed, and passes those that do
/// not end in a number.
pub proof fn law_numbered_keys_are_met_in_order(keys: Seq<String>, from: int)
    ensures
        from >= keys.len() ==> next_numbered(keys, from) is None && ask_batch(keys, from)
            is Nothing,
        0 <= from < keys.len() ==> (segment_value(last_segment(keys[from]@)) matches Some(v)
            ==> next_numbered(keys, from) == Some((from, v))),
        0 <= from < keys.len() && segment_value(last_segment(keys[from]@)) is None
            ==> next_numbered(keys, from) == next_numbered(keys, from + 1) && ask_batch(keys, from)
            == ask_batch(keys, from + 1),
        0 <= from < keys.len() <= usize::MAX ==> (segment_value(last_segment(keys[from]@)) matches Some(
            v,
        ) ==> (ask_batch(keys, from) matches ClaimAsk::DecodeBatch { at, batch_id } && at == from
            && batch_id == v)),
{
}

/// The ranges of a batch are met from the first on whose key ends in a number, of at most
/// thirty-two bits.
pub proof fn law_ranges_are_met_in_order(
    scan: ClaimScan,
    next: ClaimScan,
    row_keys: Seq<String>,
    k: int,
    v: u64,
)
    requires
        0 <= k < row_keys.len() <= usize::MAX,
        v <= u32::MAX,
        segment_value(last_segment(row_keys[k]@)) == Some(v),
        forall|j: int|
            0 <= j < k ==> segment_value(last_segment((#[trigger] row_keys[j])@)) is None,
    ensures
        scan.rows_answered(next, row_keys) ==> (next.asked() matches ClaimAsk::DecodeRow {
            at,
            start,
        } && at == k && start == v) && next.rows() == row_keys && next.batch() == scan.batch()
            && next.instance() == scan.instance() && next.ttl() == scan.ttl() && next.batches()
            == scan.batches(),
{
    lemma_numbered_from_the_start(row_keys, 0, k, v);
}

proof fn lemma_numbered_from_the_start(keys: Seq<String>, from: int, k: int, v: u64)
    requires
        0 <= from <= k < keys.len(),
        segment_value(last_segment(keys[k]@)) == Some(v),
        forall|j: int| from <= j < k ==> segment_value(last_segment((#[trigger] keys[j])@)) is None,
    ensures
        next_numbered(keys, from) == Some((k, v)),
    decreases k - from,
{
    if from < k {
        assert(segment_value(last_segment(keys[from]@)) is None);
        lemma_numbered_from_the_start(keys, from + 1, k, v);
    }
}

/// A range that is not free, and one that another was faster on, is left for the next
/// numbered one of its batch, and a batch without one for the next batch.
pub proof fn law_lost_range_is_passed(
    scan: ClaimScan,
    passed: ClaimScan,
    record: RowRangeRecord,
    claim_id: Uid,
    now: u64,
    at: usize,
    k: int,
    v: u64,
)
    requires
        record.status != 0,
        scan.asked() is DecodeRow || scan.asked() is Swap,
        scan.asked() is DecodeRow ==> scan.asked()->DecodeRow_at == at && scan.row_answered(
            passed,
            record,
            claim_id,
            now,
        ),
        scan.asked() is Swap ==> scan.asked()->Swap_at == at && scan.swap_answered(passed, false),
        at < k <= scan.rows().len() <= usize::MAX,
        forall|j: int|
            at < j < k ==> segment_value(last_segment((#[trigger] scan.rows()[j])@)) is None,
        k < scan.rows().len() ==> v <= u32::MAX && segment_value(last_segment(scan.rows()[k]@))
            == Some(v),
    ensures
        k < scan.rows().len() ==> (passed.asked() matches ClaimAsk::DecodeRow { at: next, start }
            && next == k && start == v) && passed.batch() == scan.batch() && passed.rows()
            == scan.rows(),
        k == scan.rows().len() ==> passed.asked() == ask_batch(
            scan.batches(),
            scan.batch().0 + 1,
        ),
        passed.instance() == scan.instance() && passed.ttl() == scan.ttl() && passed.batches()
            == scan.batches(),
{
    if k < scan.rows().len() {
        lemma_numbered_from_the_start(scan.rows(), at + 1, k, v);
    } else {
        lemma_none_numbered(scan.rows(), at + 1);
    }
}

proof fn lemma_none_numbered(keys: Seq<String>, from: int)
    requires
        0 <= from,
        forall|j: int|
            from <= j < keys.len() ==> segment_value(last_segment((#[trigger] keys[j])@)) is None,
    ensures
        next_numbered(keys, from) is None,
    decreases keys.len() - from,
{
    if from < keys.len() {
        assert(segment_value(last_segment(keys[from]@)) is None);
        lemma_none_numbered(keys, from + 1);
    }
}

/// The words in which a batch or a claim is refused.
pub proof fn law_store_words(
    head: Seq<char>,
    tail: Seq<char>,
    batch_id: u64,
    claim_id: Uid,
    instance_id: Uid,
    row: RowRangeRecord,
)
    ensures
        about_claim(head, claim_id, tail) == head + uuid_hyphenated(claim_id) + tail,
        about_batch(batch_id, tail) == "master batch "@ + decimal_text(batch_id as nat) + tail,
        renew_refusal(claim_id, instance_id, None) == "tikv: row range for claim "@
            + uuid_hyphenated(claim_id) + " missing; cannot renew"@,
        row.status != 1 || row.claim_id != claim_id || row.instance_id != instance_id
            ==> renew_refusal(claim_id, instance_id, Some(row)) == "tikv: claim "@
            + uuid_hyphenated(claim_id) + " is no longer held by instance "@ + uuid_hyphenated(
            instance_id,
        ),
        row.status == 1 && row.claim_id == claim_id && row.instance_id == instance_id
            ==> renew_refusal(claim_id, instance_id, Some(row)) == "tikv: claim "@
            + uuid_hyphenated(claim_id) + " lease expired at "@ + decimal_text(
            row.lease_expires_at_ms as nat,
        ) + "; reclaiming requires reclaim_expired"@,
{
}

} // verus!
