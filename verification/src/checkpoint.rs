//! Checkpoints of a claim's intermediate state, and the sizes they may have.

use vstd::prelude::*;

use crate::consensus::types::MAX_LOG_ENTRY_BYTES;
use crate::error::{ErrorView, PcsError};
use crate::text::{decimal, decimal_text};

verus! {

/// The stage index window-accumulator checkpoints are stored under, so that
/// they never collide with those of a data stage.
pub const ACCUMULATOR_STAGE_SENTINEL: u32 = u32::MAX;

/// A persisted per-stage pipeline checkpoint.
#[derive(Debug, PartialEq, Eq)]
pub struct Checkpoint {
    /// Master batch the checkpoint belongs to.
    pub batch_id: u64,
    /// Stage index after which this checkpoint was taken.
    pub stage_idx: u32,
    /// Arrow IPC bytes of the intermediate state.
    pub payload: Vec<u8>,
    /// Schema version of the payload.
    pub schema_id: u32,
    /// Unix milliseconds when the checkpoint was created.
    pub created_at: u64,
}

impl Clone for Checkpoint {
    fn clone(&self) -> (r: Self)
        ensures
            r.batch_id == self.batch_id,
            r.stage_idx == self.stage_idx,
            r.payload@ == self.payload@,
            r.schema_id == self.schema_id,
            r.created_at == self.created_at,
    {
        let payload = self.payload.clone();
        assert(payload@ =~= self.payload@);
        Checkpoint {
            batch_id: self.batch_id,
            stage_idx: self.stage_idx,
            payload,
            schema_id: self.schema_id,
            created_at: self.created_at,
        }
    }
}

/// Largest payload a checkpoint store accepts unless it says otherwise.
pub fn default_max_checkpoint_bytes() -> (r: usize)
    ensures
        r == MAX_LOG_ENTRY_BYTES,
{
    MAX_LOG_ENTRY_BYTES
}

/// `"<what> size <len> bytes exceeds MAX_LOG_ENTRY_BYTES 1048576 — <advice>"`.
pub open spec fn size_refusal(what: Seq<char>, len: nat, advice: Seq<char>) -> Seq<char> {
    what + " size "@ + decimal_text(len) + " bytes exceeds MAX_LOG_ENTRY_BYTES "@ + decimal_text(
        MAX_LOG_ENTRY_BYTES as nat,
    ) + advice
}

fn size_error(what: &str, len: usize, advice: &str) -> (r: PcsError)
    ensures
        r@ == ErrorView::Configuration(size_refusal(what@, len as nat, advice@)),
{
    let mut m = what.to_owned();
    m.append(" size ");
    m.append(decimal(len as u64).as_str());
    m.append(" bytes exceeds MAX_LOG_ENTRY_BYTES ");
    m.append(decimal(MAX_LOG_ENTRY_BYTES as u64).as_str());
    m.append(advice);
    PcsError::Configuration(m)
}

/// A dataset checkpoint must fit a log entry; one that does not is refused,
/// never cut.
pub fn check_dataset_size(len: usize) -> (r: Result<(), PcsError>)
    ensures
        r is Ok <==> len <= MAX_LOG_ENTRY_BYTES,
        r matches Err(e) ==> e@ == ErrorView::Configuration(
            size_refusal(
                "checkpoint dataset"@,
                len as nat,
                " — reduce pipeline state or shorten batches"@,
            ),
        ),
{
    if len > MAX_LOG_ENTRY_BYTES {
        return Err(
            size_error("checkpoint dataset", len, " — reduce pipeline state or shorten batches"),
        );
    }
    Ok(())
}

/// A window-accumulator checkpoint must stay below the log-entry cap.
pub fn check_accumulator_size(len: usize) -> (r: Result<(), PcsError>)
    ensures
        r is Ok <==> len < MAX_LOG_ENTRY_BYTES,
        r matches Err(e) ==> e@ == ErrorView::Configuration(
            size_refusal(
                "accumulator checkpoint"@,
                len as nat,
                " — reduce the number of open windows or split the pipeline"@,
            ),
        ),
{
    if len >= MAX_LOG_ENTRY_BYTES {
        return Err(
            size_error(
                "accumulator checkpoint",
                len,
                " — reduce the number of open windows or split the pipeline",
            ),
        );
    }
    Ok(())
}

/// What a loaded accumulator checkpoint is worth: the stored rows, with the
/// schema version they were written under, are used only where the payload is
/// there and holds rows. A checkpoint without a version was written under the
/// first.
pub fn usable_accumulator(
    payload_len: Option<usize>,
    rows: Option<usize>,
    version: Option<u32>,
) -> (r: Option<u32>)
    ensures
        r is Some <==> payload_len is Some && payload_len->0 > 0 && rows is Some && rows->0 > 0,
        r matches Some(v) ==> v == match version {
            Some(w) => w,
            None => 1,
        },
{
    match payload_len {
        None => None,
        Some(len) => {
            if len == 0 {
                return None;
            }
            match rows {
                None => None,
                Some(n) => if n == 0 {
                    None
                } else {
                    match version {
                        Some(v) => Some(v),
                        None => Some(1),
                    }
                },
            }
        },
    }
}

/// A refusal says what was too large, by how much, and what may be done: the cap is one
/// mebibyte.
pub proof fn law_size_refusals_name_the_cap(what: Seq<char>, len: nat, advice: Seq<char>)
    ensures
        MAX_LOG_ENTRY_BYTES == 1_048_576,
        size_refusal(what, len, advice) == what + " size "@ + decimal_text(len)
            + " bytes exceeds MAX_LOG_ENTRY_BYTES "@ + decimal_text(1_048_576) + advice,
        ACCUMULATOR_STAGE_SENTINEL == 0xFFFF_FFFF,
{
}

} // verus!
