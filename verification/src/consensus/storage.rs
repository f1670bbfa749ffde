//! The two stores of a node: the replicated log and the state machine it is
//! applied to, with the watermark up to which it has been applied.
//!
//! A watermark moves only past an entry that was applied.

use vstd::prelude::*;

use crate::consensus::model::{
    in_range, next, restored, CheckpointKey, CheckpointRecord, CheckpointView, ClaimRecord,
    InstanceRecord, MasterBatchRecord, TablesView,
};
use crate::consensus::state_machine::{apply, batch_views, checkpoint_rows, restore_state, Tables};
use crate::consensus::types::{CommandView, ConsensusCommand, ConsensusResponse, ResponseView, Uid};
use crate::error::{ErrorView, PcsError};
use crate::table::{lemma_span_gap, span, Key, Table};
use crate::text::{decimal, decimal_text};

verus! {

/// Where in the log an entry stands.
#[derive(Debug, Clone, Copy, PartialEq, Eq, Structural)]
pub struct LogId {
    pub term: u64,
    pub node_id: u64,
    pub index: u64,
}

/// Whom a node votes for.
#[derive(Debug, Clone, Copy, PartialEq, Eq, Structural)]
pub struct Vote {
    pub term: u64,
    pub node_id: u64,
    pub committed: bool,
}

/// One end of a range of indices.
#[derive(Debug, Clone, Copy, PartialEq, Eq, Structural)]
pub enum Bound {
    Included(u64),
    Excluded(u64),
    Unbounded,
}

/// The first index of a range.
pub open spec fn range_start(b: Bound) -> int {
    match b {
        Bound::Included(v) => v as int,
        Bound::Excluded(v) => v + 1,
        Bound::Unbounded => 0,
    }
}

/// The index after the last of a range.
pub open spec fn range_end(b: Bound) -> int {
    match b {
        Bound::Included(v) => v + 1,
        Bound::Excluded(v) => v as int,
        Bound::Unbounded => u64::MAX + 1,
    }
}

fn within_end(k: u64, b: Bound) -> (r: bool)
    ensures
        r == (k < range_end(b)),
{
    match b {
        Bound::Included(v) => k <= v,
        Bound::Excluded(v) => k < v,
        Bound::Unbounded => true,
    }
}

/// One entry of the log, with its encoded payload.
#[derive(Debug, PartialEq, Eq)]
pub struct LogRow {
    pub log_id: LogId,
    pub payload: Vec<u8>,
}

/// The contents of a [`LogRow`].
pub ghost struct RowView {
    pub log_id: LogId,
    pub payload: Seq<u8>,
}

impl View for LogRow {
    type V = RowView;

    open spec fn view(&self) -> RowView {
        RowView { log_id: self.log_id, payload: self.payload@ }
    }
}

impl Clone for LogRow {
    fn clone(&self) -> (r: Self)
        ensures
            r@ == self@,
    {
        let mut payload: Vec<u8> = Vec::new();
        payload.extend_from_slice(self.payload.as_slice());
        assert(payload@ =~= self.payload@);
        LogRow { log_id: self.log_id, payload }
    }
}

/// First and last position of the log.
#[derive(Debug, Clone, Copy, PartialEq, Eq, Structural)]
pub struct LogState {
    pub last_purged_log_id: Option<LogId>,
    pub last_log_id: Option<LogId>,
}

/// The replicated log: vote, entries, and how far it was purged.
pub struct ArrowRedbLogStore {
    vote: Option<Vote>,
    purged: Option<LogId>,
    entries: Table<u64, LogRow>,
}

/// The contents of an [`ArrowRedbLogStore`].
pub ghost struct StoreView {
    pub vote: Option<Vote>,
    pub purged: Option<LogId>,
    pub entries: Map<u64, RowView>,
}

impl View for ArrowRedbLogStore {
    type V = StoreView;

    closed spec fn view(&self) -> StoreView {
        StoreView { vote: self.vote, purged: self.purged, entries: self.entries@ }
    }
}

/// The contents of each row.
pub open spec fn row_views(rows: Seq<LogRow>) -> Seq<RowView> {
    rows.map_values(|e: LogRow| e@)
}

/// The log with rows put in, in order.
pub open spec fn rows_appended(m: Map<u64, RowView>, rows: Seq<RowView>) -> Map<u64, RowView>
    decreases rows.len(),
{
    if rows.len() == 0 {
        m
    } else {
        rows_appended(m, rows.drop_last()).insert(rows.last().log_id.index, rows.last())
    }
}

/// The position of the entry with the largest index.
pub open spec fn is_last_row(m: Map<u64, RowView>, r: Option<LogId>) -> bool {
    match r {
        None => m =~= Map::<u64, RowView>::empty(),
        Some(id) => exists|k: u64| #[trigger]
            m.contains_key(k) && m[k].log_id == id && forall|q: u64| #[trigger]
                m.contains_key(q) ==> q <= k,
    }
}

impl ArrowRedbLogStore {
    pub closed spec fn wf(self) -> bool {
        self.entries.wf()
    }

    /// An empty log.
    pub fn new() -> (r: Self)
        ensures
            r.wf(),
            r@ == (StoreView { vote: None, purged: None, entries: Map::empty() }),
    {
        ArrowRedbLogStore { vote: None, purged: None, entries: Table::new() }
    }

    /// The entries in the range, by index.
    pub fn try_get_log_entries(&self, start: Bound, end: Bound) -> (r: Vec<LogRow>)
        requires
            self.wf(),
        ensures
            row_views(r@) == span(self@.entries, range_start(start), range_end(end)),
    {
        let mut out: Vec<LogRow> = Vec::new();
        let ghost m = self.entries@;
        let ghost low = range_start(start);
        let ghost high = range_end(end);
        let mut i: usize = match start {
            Bound::Included(v) => self.entries.seek(v),
            Bound::Excluded(v) => if v == u64::MAX {
                self.entries.len()
            } else {
                self.entries.seek(v + 1)
            },
            Bound::Unbounded => 0,
        };
        let ghost mut cur: int = low;
        proof {
            self.entries.lemma_keys();
            assert(row_views(out@) + span(m, low, high) =~= span(m, low, high));
        }
        while i < self.entries.len() && within_end(self.entries.key_at(i), end)
            invariant
                i <= self.entries.keys().len(),
                self.wf(),
                m == self.entries@,
                low == range_start(start),
                high == range_end(end),
                0 <= low <= cur,
                cur <= high || cur == low,
                span(m, low, high) == row_views(out@) + span(m, cur, high),
                forall|j: int| 0 <= j < i ==> (#[trigger] self.entries.keys()[j]) < cur,
                forall|j: int|
                    i <= j < self.entries.keys().len() ==> (#[trigger] self.entries.keys()[j])
                        >= cur,
            decreases self.entries.keys().len() - i,
        {
            let k: u64 = self.entries.key_at(i);
            let row = self.entries.value_at(i);
            let ghost before = out@;
            proof {
                self.entries.lemma_keys();
                assert forall|q: u64| cur <= q < k implies !#[trigger] m.contains_key(q) by {
                    if m.contains_key(q) {
                        let j = choose|j: int|
                            0 <= j < self.entries.keys().len() && #[trigger] self.entries.keys()[j]
                                == q;
                        if j > i {
                            assert(self.entries.keys()[i as int].rank()
                                < self.entries.keys()[j].rank());
                        }
                    }
                }
                lemma_span_gap(m, cur, k as int, high);
            }
            out.push(row.clone());
            proof {
                let rest = span(m, k + 1, high);
                assert(row_views(out@) =~= row_views(before).push(m[k]));
                assert(row_views(before) + (seq![m[k]] + rest) =~= row_views(out@) + rest);
                cur = k as int + 1;
                assert forall|j: int| 0 <= j < i + 1 implies (#[trigger] self.entries.keys()[j])
                    < cur by {
                    if j < i {
                        assert(self.entries.keys()[j].rank()
                            < self.entries.keys()[i as int].rank());
                    }
                }
                assert forall|j: int| i + 1 <= j < self.entries.keys().len() implies (
                #[trigger] self.entries.keys()[j]) >= cur by {
                    assert(self.entries.keys()[i as int].rank() < self.entries.keys()[j].rank());
                }
            }
            i += 1;
        }
        proof {
            self.entries.lemma_keys();
            assert forall|q: u64| cur <= q < high implies !#[trigger] m.contains_key(q) by {
                if m.contains_key(q) {
                    let j = choose|j: int|
                        0 <= j < self.entries.keys().len() && #[trigger] self.entries.keys()[j]
                            == q;
                    assert(j >= i);
                    if j > i {
                        assert(self.entries.keys()[i as int].rank()
                            < self.entries.keys()[j].rank());
                    }
                }
            }
            if cur <= high {
                lemma_span_gap(m, cur, high, high);
            }
            assert(row_views(out@) + Seq::<RowView>::empty() =~= row_views(out@));
        }
        out
    }

    /// The vote kept.
    pub fn read_vote(&self) -> (r: Option<Vote>)
        ensures
            r == self@.vote,
    {
        self.vote
    }

    /// Keep a vote, in place of the one before.
    pub fn save_vote(&mut self, vote: &Vote)
        requires
            old(self).wf(),
        ensures
            final(self).wf(),
            final(self)@ == (StoreView { vote: Some(*vote), ..old(self)@ }),
    {
        self.vote = Some(*vote);
    }

    /// How far the log was purged, and its last entry; a log purged to the
    /// end ends where it was purged.
    pub fn get_log_state(&self) -> (r: LogState)
        requires
            self.wf(),
        ensures
            r.last_purged_log_id == self@.purged,
            exists|last: Option<LogId>| #[trigger]
                is_last_row(self@.entries, last) && r.last_log_id == if last is Some {
                    last
                } else {
                    self@.purged
                },
    {
        let n = self.entries.len();
        proof {
            self.entries.lemma_keys();
        }
        if n == 0 {
            assert(self.entries@ =~= Map::<u64, RowView>::empty());
            assert(is_last_row(self@.entries, None));
            return LogState { last_purged_log_id: self.purged, last_log_id: self.purged };
        }
        let id = self.entries.value_at(n - 1).log_id;
        proof {
            let k = self.entries.keys()[n - 1];
            assert forall|q: u64| #[trigger] self.entries@.contains_key(q) implies q <= k by {
                let i = choose|i: int|
                    0 <= i < self.entries.keys().len() && #[trigger] self.entries.keys()[i] == q;
                if i < n - 1 {
                    assert(self.entries.keys()[i].rank() < k.rank());
                }
            }
            assert(self@.entries.contains_key(k));
            assert(is_last_row(self@.entries, Some(id)));
        }
        LogState { last_purged_log_id: self.purged, last_log_id: Some(id) }
    }

    /// Keep entries under their indices.
    pub fn append(&mut self, rows: &Vec<LogRow>)
        requires
            old(self).wf(),
        ensures
            final(self).wf(),
            final(self)@ == (StoreView {
                entries: rows_appended(old(self)@.entries, row_views(rows@)),
                ..old(self)@
            }),
    {
        let mut i: usize = 0;
        let ghost views = row_views(rows@);
        assert(views.take(0) =~= Seq::<RowView>::empty());
        while i < rows.len()
            invariant
                i <= rows@.len(),
                views == row_views(rows@),
                self.wf(),
                self@ == (StoreView {
                    entries: rows_appended(old(self)@.entries, views.take(i as int)),
                    ..old(self)@
                }),
            decreases rows@.len() - i,
        {
            self.entries.insert(rows[i].log_id.index, rows[i].clone());
            proof {
                assert(views.take(i as int + 1).drop_last() =~= views.take(i as int));
                assert(views.take(i as int + 1).last() == rows@[i as int]@);
            }
            i += 1;
        }
        assert(views.take(i as int) =~= views);
    }

    /// Drop every entry after `last`, or all where there is none.
    pub fn truncate_after(&mut self, last: Option<LogId>)
        requires
            old(self).wf(),
            last matches Some(id) ==> id.index < u64::MAX,
        ensures
            final(self).wf(),
            final(self)@ == (StoreView {
                entries: match last {
                    Some(id) => old(self)@.entries.restrict(Set::new(|k: u64| k <= id.index)),
                    None => Map::empty(),
                },
                ..old(self)@
            }),
    {
        let from: u64 = match last {
            Some(id) => id.index + 1,
            None => 0,
        };
        self.entries.remove_from(from);
        proof {
            match last {
                Some(id) => {
                    assert(self.entries@ =~= old(self).entries@.restrict(
                        Set::new(|k: u64| k <= id.index),
                    ));
                },
                None => {
                    assert(self.entries@ =~= Map::<u64, RowView>::empty());
                },
            }
        }
    }

    /// Drop every entry up to and with `log_id`, and remember that position.
    pub fn purge(&mut self, log_id: LogId)
        requires
            old(self).wf(),
        ensures
            final(self).wf(),
            final(self)@ == (StoreView {
                purged: Some(log_id),
                entries: old(self)@.entries.restrict(Set::new(|k: u64| k > log_id.index)),
                ..old(self)@
            }),
    {
        self.purged = Some(log_id);
        self.entries.remove_up_to(log_id.index);
    }
}

/// What a committed entry asks of the state machine.
pub enum EntryPayload<M> {
    /// Nothing; a new leader's first entry.
    Blank,
    Normal(ConsensusCommand),
    /// A change of the membership.
    Membership(M),
}

/// A committed entry.
pub struct CommittedEntry<M> {
    pub log_id: LogId,
    pub payload: EntryPayload<M>,
}

/// The state machine with its watermark and the last membership seen.
pub struct ArrowRedbStateMachine<M> {
    pub db: Tables,
    pub last_applied: Option<LogId>,
    /// The entry that set the membership.
    pub membership_log_id: Option<LogId>,
    pub last_membership: M,
}

/// The contents of an [`ArrowRedbStateMachine`].
pub ghost struct MachineView<M> {
    pub tables: TablesView,
    pub last_applied: Option<LogId>,
    pub membership_log_id: Option<LogId>,
    pub last_membership: M,
}

/// The command in range on these tables, where the entry holds one.
pub open spec fn entry_in_range<M>(t: TablesView, e: CommittedEntry<M>) -> bool {
    e.payload matches EntryPayload::Normal(c) ==> in_range(t, c@)
}

/// The response to an entry on these tables.
pub open spec fn entry_answer<M>(t: TablesView, e: CommittedEntry<M>) -> ResponseView {
    match e.payload {
        EntryPayload::Normal(c) => next(t, c@).1,
        _ => ResponseView::ClaimAcked,
    }
}

/// The state machine after an entry: the tables follow the command, the
/// watermark moves to the entry, a change of membership is remembered.
pub open spec fn entry_next<M>(v: MachineView<M>, e: CommittedEntry<M>) -> MachineView<M> {
    let moved = MachineView { last_applied: Some(e.log_id), ..v };
    match e.payload {
        EntryPayload::Blank => moved,
        EntryPayload::Normal(c) => MachineView { tables: next(v.tables, c@).0, ..moved },
        EntryPayload::Membership(m) => MachineView {
            membership_log_id: Some(e.log_id),
            last_membership: m,
            ..moved
        },
    }
}

/// The state machine after the entries up to the first that failed to arrive.
pub open spec fn entries_next<M>(
    v: MachineView<M>,
    items: Seq<Result<CommittedEntry<M>, PcsError>>,
) -> MachineView<M>
    decreases items.len(),
{
    if items.len() == 0 || items[0] is Err {
        v
    } else {
        entries_next(entry_next(v, items[0]->Ok_0), items.drop_first())
    }
}

/// The responses to the entries up to the first that failed to arrive, one
/// for each, in order.
pub open spec fn entries_answers<M>(
    v: MachineView<M>,
    items: Seq<Result<CommittedEntry<M>, PcsError>>,
) -> Seq<ResponseView>
    decreases items.len(),
{
    if items.len() == 0 || items[0] is Err {
        Seq::empty()
    } else {
        let e = items[0]->Ok_0;
        seq![entry_answer(v.tables, e)] + entries_answers(entry_next(v, e), items.drop_first())
    }
}

/// Every command comes on tables on which it is in range.
pub open spec fn entries_in_range<M>(
    v: MachineView<M>,
    items: Seq<Result<CommittedEntry<M>, PcsError>>,
) -> bool
    decreases items.len(),
{
    items.len() == 0 || items[0] is Err || {
        let e = items[0]->Ok_0;
        entry_in_range(v.tables, e) && entries_in_range(entry_next(v, e), items.drop_first())
    }
}

/// Why the first entry that failed to arrive did so.
pub open spec fn first_failure<M>(
    items: Seq<Result<CommittedEntry<M>, PcsError>>,
) -> Option<ErrorView>
    decreases items.len(),
{
    if items.len() == 0 {
        None
    } else {
        match items[0] {
            Err(e) => Some(e@),
            Ok(_) => first_failure(items.drop_first()),
        }
    }
}

/// The contents of each response.
pub open spec fn answer_views(v: Seq<ConsensusResponse>) -> Seq<ResponseView> {
    v.map_values(|r: ConsensusResponse| r@)
}

/// What became of a batch of entries.
pub struct Applied {
    /// The responses to the entries that were applied, in order.
    pub responses: Vec<ConsensusResponse>,
    /// Why the rest was not.
    pub failure: Option<PcsError>,
}

/// The encoded form of a position in the log: a byte that says whether there
/// is one, then the term, the leader and the index.
pub open spec fn log_id_bytes(id: Option<LogId>) -> Seq<u8> {
    match id {
        None => seq![0u8],
        Some(id) => seq![1u8] + varint(id.term as nat) + varint(id.node_id as nat) + varint(
            id.index as nat,
        ),
    }
}

/// Encode an `openraft::LogId` with `postcard::to_allocvec`, which writes an
/// option as a byte and its value, a struct as its fields in order, and each
/// integer as a varint. Into memory it never fails.
#[verifier::external_body]
fn encode_log_id(id: Option<LogId>) -> (r: Result<Vec<u8>, String>)
    ensures
        r is Ok,
        r->Ok_0@ == log_id_bytes(id),
{
    let id: Option<openraft::LogId<u64>> = match id {
        Some(i) => Some(
            openraft::LogId::new(openraft::CommittedLeaderId::new(i.term, i.node_id), i.index),
        ),
        None => None,
    };
    postcard::to_allocvec(&id).map_err(|e| e.to_string())
}

/// What `postcard::from_bytes` reads as an `openraft::LogId`, or the text of
/// its error.
pub uninterp spec fn log_id_read(b: Seq<u8>) -> Result<Option<LogId>, Seq<char>>;

/// A position that was read, or the text of why it was not.
pub open spec fn log_id_view(r: Result<Option<LogId>, String>) -> Result<
    Option<LogId>,
    Seq<char>,
> {
    match r {
        Ok(id) => Ok(id),
        Err(e) => Err(e@),
    }
}

/// The encoded form of a position is read as that position.
pub open spec fn reads_log_id(b: Seq<u8>, r: Result<Option<LogId>, String>) -> bool {
    forall|id: Option<LogId>|
        b == #[trigger] log_id_bytes(id) ==> (r matches Ok(v) && v == id)
}

/// Decode an `openraft::LogId` with `postcard::from_bytes`. What comes is a
/// function of the bytes, and what was encoded is read back.
#[verifier::external_body]
fn decode_log_id(b: &[u8]) -> (r: Result<Option<LogId>, String>)
    ensures
        log_id_view(r) == log_id_read(b@),
        reads_log_id(b@, r),
{
    let id: Result<Option<openraft::LogId<u64>>, postcard::Error> = postcard::from_bytes(b);
    match id {
        Ok(Some(i)) => Ok(
            Some(LogId { term: i.leader_id.term, node_id: i.leader_id.node_id, index: i.index }),
        ),
        Ok(None) => Ok(None),
        Err(e) => Err(e.to_string()),
    }
}

impl<M> ArrowRedbStateMachine<M> {
    /// The contents of the machine.
    pub open spec fn machine(self) -> MachineView<M> {
        MachineView {
            tables: self.db@,
            last_applied: self.last_applied,
            membership_log_id: self.membership_log_id,
            last_membership: self.last_membership,
        }
    }

    /// Open a state machine over its tables with the watermark that was read
    /// beside them, if one was kept. One that could not be read is an error.
    pub fn opened(
        db: Tables,
        read: Option<Result<Option<LogId>, String>>,
        membership_log_id: Option<LogId>,
        last_membership: M,
    ) -> (r: Result<Self, PcsError>)
        ensures
            match read {
                None => r == Ok::<Self, PcsError>(
                    ArrowRedbStateMachine {
                        db,
                        last_applied: None,
                        membership_log_id,
                        last_membership,
                    },
                ),
                Some(Ok(w)) => r == Ok::<Self, PcsError>(
                    ArrowRedbStateMachine {
                        db,
                        last_applied: w,
                        membership_log_id,
                        last_membership,
                    },
                ),
                Some(Err(m)) => r is Err && r->Err_0@ == ErrorView::Store(
                    "postcard decode: "@ + m@,
                ),
            },
    {
        let last_applied = match read {
            None => None,
            Some(Ok(w)) => w,
            Some(Err(e)) => {
                let mut m = "postcard decode: ".to_owned();
                m.append(e.as_str());
                return Err(PcsError::Store(m));
            },
        };
        Ok(ArrowRedbStateMachine { db, last_applied, membership_log_id, last_membership })
    }

    /// Open a state machine over its tables and the membership kept with
    /// them; the watermark is the one kept in them, none where none was kept.
    /// A watermark that was kept is read back as it was.
    pub fn open(db: Tables, membership_log_id: Option<LogId>, last_membership: M) -> (r: Result<
        Self,
        PcsError,
    >)
        requires
            db.wf(),
        ensures
            match db@.last_applied {
                None => r == Ok::<Self, PcsError>(
                    ArrowRedbStateMachine {
                        db,
                        last_applied: None,
                        membership_log_id,
                        last_membership,
                    },
                ),
                Some(b) => match log_id_read(b) {
                    Ok(w) => r == Ok::<Self, PcsError>(
                        ArrowRedbStateMachine {
                            db,
                            last_applied: w,
                            membership_log_id,
                            last_membership,
                        },
                    ),
                    Err(m) => r is Err && r->Err_0@ == ErrorView::Store("postcard decode: "@ + m),
                },
            },
            forall|w: Option<LogId>|
                db@.last_applied == Some(#[trigger] log_id_bytes(w)) ==> r == Ok::<Self, PcsError>(
                    ArrowRedbStateMachine {
                        db,
                        last_applied: w,
                        membership_log_id,
                        last_membership,
                    },
                ),
    {
        let read = match &db.last_applied {
            None => None,
            Some(b) => Some(decode_log_id(b.as_slice())),
        };
        Self::opened(db, read, membership_log_id, last_membership)
    }

    /// Apply one committed entry: the tables follow the command, the
    /// watermark moves to the entry, a change of membership is remembered.
    pub fn apply_entry(&mut self, entry: CommittedEntry<M>) -> (r: ConsensusResponse)
        requires
            old(self).db.wf(),
            entry_in_range(old(self).db@, entry),
        ensures
            final(self).db.wf(),
            final(self).machine() == entry_next(old(self).machine(), entry),
            r@ == entry_answer(old(self).db@, entry),
    {
        let log_id = entry.log_id;
        match entry.payload {
            EntryPayload::Blank => {
                self.last_applied = Some(log_id);
                ConsensusResponse::ClaimAcked
            },
            EntryPayload::Normal(cmd) => {
                let response = apply(&mut self.db, cmd);
                self.last_applied = Some(log_id);
                response
            },
            EntryPayload::Membership(mem) => {
                self.last_applied = Some(log_id);
                self.membership_log_id = Some(log_id);
                self.last_membership = mem;
                ConsensusResponse::ClaimAcked
            },
        }
    }

    /// Apply committed entries as they arrive, with one response for each.
    /// One that failed to arrive stops the batch: what was applied before it
    /// stays, and the watermark does not move past it.
    pub fn apply(&mut self, entries: Vec<Result<CommittedEntry<M>, PcsError>>) -> (r: Applied)
        requires
            old(self).db.wf(),
            entries_in_range(old(self).machine(), entries@),
        ensures
            final(self).db.wf(),
            final(self).machine() == entries_next(old(self).machine(), entries@),
            answer_views(r.responses@) == entries_answers(old(self).machine(), entries@),
            match first_failure(entries@) {
                None => r.failure is None,
                Some(e) => r.failure is Some && r.failure->0@ == e,
            },
    {
        let mut responses: Vec<ConsensusResponse> = Vec::new();
        let mut rest = entries;
        let ghost start = self.machine();
        proof {
            assert(answer_views(responses@) + entries_answers(start, entries@)
                =~= entries_answers(start, entries@));
        }
        while rest.len() > 0
            invariant
                self.db.wf(),
                start == old(self).machine(),
                entries_in_range(self.machine(), rest@),
                entries_next(start, entries@) == entries_next(self.machine(), rest@),
                first_failure(entries@) == first_failure(rest@),
                entries_answers(start, entries@) == answer_views(responses@) + entries_answers(
                    self.machine(),
                    rest@,
                ),
            decreases rest@.len(),
        {
            let ghost before = rest@;
            let item = rest.remove(0);
            assert(before.drop_first() =~= rest@);
            match item {
                Err(e) => {
                    assert(answer_views(responses@) + Seq::<ResponseView>::empty()
                        =~= answer_views(responses@));
                    return Applied { responses, failure: Some(e) };
                },
                Ok(entry) => {
                    let response = self.apply_entry(entry);
                    let ghost had = responses@;
                    responses.push(response);
                    proof {
                        let tail = entries_answers(self.machine(), rest@);
                        assert(answer_views(responses@) =~= answer_views(had).push(response@));
                        assert(answer_views(had) + (seq![response@] + tail) =~= answer_views(
                            responses@,
                        ) + tail);
                    }
                },
            }
        }
        assert(answer_views(responses@) + Seq::<ResponseView>::empty() =~= answer_views(
            responses@,
        ));
        Applied { responses, failure: None }
    }

    /// Keep the watermark and the encoded membership with the tables.
    pub fn persist_sm_meta(&mut self, membership: Vec<u8>) -> (r: Result<(), PcsError>)
        requires
            old(self).db.wf(),
        ensures
            final(self).db.wf(),
            r is Ok,
            final(self).machine() == (MachineView {
                tables: TablesView {
                    last_applied: Some(log_id_bytes(old(self).last_applied)),
                    last_membership: Some(membership@),
                    ..old(self).db@
                },
                ..old(self).machine()
            }),
    {
        match encode_log_id(self.last_applied) {
            Ok(b) => {
                self.db.last_applied = Some(b);
                self.db.last_membership = Some(membership);
                Ok(())
            },
            Err(e) => {
                let mut m = "postcard encode: ".to_owned();
                m.append(e.as_str());
                Err(PcsError::Store(m))
            },
        }
    }

    /// Install a snapshot: the watermark and the membership are the
    /// snapshot's, and so are the tables where it holds any. Both are kept
    /// with the tables.
    pub fn install_snapshot(
        &mut self,
        last_log_id: Option<LogId>,
        membership_log_id: Option<LogId>,
        membership: M,
        membership_bytes: Vec<u8>,
        rows: Option<SnapshotRows>,
    ) -> (r: Result<(), PcsError>)
        requires
            old(self).db.wf(),
        ensures
            final(self).db.wf(),
            r is Ok,
            final(self).last_applied == last_log_id,
            final(self).membership_log_id == membership_log_id,
            final(self).last_membership == membership,
            match rows {
                None => final(self).db@ == (TablesView {
                    last_applied: Some(log_id_bytes(last_log_id)),
                    last_membership: Some(membership_bytes@),
                    ..old(self).db@
                }),
                Some(s) => exists|cps: Seq<(CheckpointKey, CheckpointView)>| #[trigger]
                    checkpoint_rows(s.checkpoints@, cps) && final(self).db@ == restored(
                        old(self).db@,
                        batch_views(s.batches@),
                        s.claims@,
                        cps,
                        s.instances@,
                        Some((log_id_bytes(last_log_id), membership_bytes@)),
                    ),
            },
    {
        self.last_applied = last_log_id;
        self.membership_log_id = membership_log_id;
        self.last_membership = membership;
        match rows {
            Some(s) => {
                let applied_bytes = match encode_log_id(last_log_id) {
                    Ok(b) => b,
                    Err(e) => {
                        let mut m = "postcard encode: ".to_owned();
                        m.append(e.as_str());
                        return Err(PcsError::Store(m));
                    },
                };
                restore_state(
                    &mut self.db,
                    s.batches,
                    s.claims,
                    s.checkpoints,
                    s.instances,
                    Some((applied_bytes, membership_bytes)),
                );
                Ok(())
            },
            None => self.persist_sm_meta(membership_bytes),
        }
    }

    /// The name of the current snapshot; none before anything was applied.
    pub fn current_snapshot_id(&self) -> (r: Option<String>)
        ensures
            match self.last_applied {
                None => r is None,
                Some(id) => r matches Some(s) && s@ == "arrow-snap-"@ + decimal_text(
                    id.index as nat,
                ),
            },
    {
        match self.last_applied {
            None => None,
            Some(id) => {
                let mut s = "arrow-snap-".to_owned();
                s.append(decimal(id.index).as_str());
                Some(s)
            },
        }
    }
}

/// The rows a snapshot holds.
pub struct SnapshotRows {
    pub batches: Vec<MasterBatchRecord>,
    pub claims: Vec<(Uid, ClaimRecord)>,
    pub checkpoints: Vec<([u8; 20], CheckpointRecord)>,
    pub instances: Vec<(Uid, InstanceRecord)>,
}

/// The message for a log purged before anything was applied.
pub open spec fn never_applied_text(purged: u64) -> Seq<char> {
    "store consistency violation: log store has purged up to index "@ + decimal_text(
        purged as nat,
    )
        + " but state machine last_applied is None — state machine is behind. Do not mix log and state-machine redb files from different backups."@
}

/// The message for a log purged further than was applied.
pub open spec fn behind_text(purged: u64, applied: u64) -> Seq<char> {
    "store consistency violation: log store purged up to index "@ + decimal_text(purged as nat)
        + " but state machine last_applied is index "@ + decimal_text(applied as nat)
        + " — state machine is behind. Do not mix log and state-machine redb files from different backups."@
}

/// Check that the state machine is not behind what the log has purged. What
/// is missing could never be applied any more.
pub fn validate_store_consistency(last_purged: Option<LogId>, last_applied: Option<LogId>) -> (r:
    Result<(), PcsError>)
    ensures
        match (last_purged, last_applied) {
            (Some(p), None) => r matches Err(e) && e@ == ErrorView::Store(
                never_applied_text(p.index),
            ),
            (Some(p), Some(a)) => if a.index < p.index {
                r matches Err(e) && e@ == ErrorView::Store(behind_text(p.index, a.index))
            } else {
                r is Ok
            },
            (None, _) => r is Ok,
        },
{
    match (last_purged, last_applied) {
        (Some(p), None) => {
            let mut m = "store consistency violation: log store has purged up to index ".to_owned();
            m.append(decimal(p.index).as_str());
            m.append(
                " but state machine last_applied is None — state machine is behind. Do not mix log and state-machine redb files from different backups.",
            );
            Err(PcsError::Store(m))
        },
        (Some(p), Some(a)) => {
            if a.index < p.index {
                let mut m = "store consistency violation: log store purged up to index ".to_owned();
                m.append(decimal(p.index).as_str());
                m.append(" but state machine last_applied is index ");
                m.append(decimal(a.index).as_str());
                m.append(
                    " — state machine is behind. Do not mix log and state-machine redb files from different backups.",
                );
                Err(PcsError::Store(m))
            } else {
                Ok(())
            }
        },
        (None, _) => Ok(()),
    }
}

/// A number in groups of seven bits, the lowest first, each in a byte whose
/// top bit says that another follows.
pub open spec fn varint(n: nat) -> Seq<u8>
    decreases n,
{
    if n < 128 {
        seq![n as u8]
    } else {
        seq![(n % 128 + 128) as u8] + varint(n / 128)
    }
}

/// The encoded form of a watermark: a byte that says whether there is one,
/// then its term and its index.
pub open spec fn watermark_bytes(w: Option<(u64, u64)>) -> Seq<u8> {
    match w {
        None => seq![0u8],
        Some((term, index)) => seq![1u8] + varint(term as nat) + varint(index as nat),
    }
}

/// Encode a watermark with `postcard::to_allocvec`, which writes an option as
/// a byte and its value, and each integer as a varint. Into memory it never
/// fails.
#[verifier::external_body]
fn encode_watermark(w: Option<(u64, u64)>) -> (r: Result<Vec<u8>, String>)
    ensures
        r is Ok,
        r->Ok_0@ == watermark_bytes(w),
{
    postcard::to_allocvec(&w).map_err(|e| e.to_string())
}

/// What `postcard::from_bytes` reads as a watermark, or the text of its error.
pub uninterp spec fn watermark_read(b: Seq<u8>) -> Result<Option<(u64, u64)>, Seq<char>>;

/// A watermark that was read, or the text of why it was not.
pub open spec fn read_view(r: Result<Option<(u64, u64)>, String>) -> Result<
    Option<(u64, u64)>,
    Seq<char>,
> {
    match r {
        Ok(w) => Ok(w),
        Err(e) => Err(e@),
    }
}

/// The encoded form of a watermark is read as that watermark.
pub open spec fn reads_watermark(b: Seq<u8>, r: Result<Option<(u64, u64)>, String>) -> bool {
    forall|w: Option<(u64, u64)>|
        b == #[trigger] watermark_bytes(w) ==> (r matches Ok(v) && v == w)
}

/// Decode a watermark with `postcard::from_bytes`. What comes is a function of
/// the bytes, and the encoded form of a watermark gives that watermark back.
#[verifier::external_body]
fn decode_watermark(b: &[u8]) -> (r: Result<Option<(u64, u64)>, String>)
    ensures
        read_view(r) == watermark_read(b@),
        reads_watermark(b@, r),
{
    postcard::from_bytes(b).map_err(|e| e.to_string())
}

/// What a committed entry carries for the application.
pub enum EntryData {
    /// Nothing; a new leader's first entry.
    Blank,
    Command(ConsensusCommand),
    /// Data that is no command, with the decoder's text.
    Undecodable(String),
}

/// A committed entry, as the application sees it.
pub struct AppEntry {
    pub term: u64,
    pub index: u64,
    pub data: EntryData,
}

/// The contents of an [`AppEntry`].
pub ghost struct AppEntryView {
    pub term: u64,
    pub index: u64,
    /// The command, or why there is none.
    pub command: Option<CommandView>,
    pub undecodable: Option<Seq<char>>,
}

impl View for AppEntry {
    type V = AppEntryView;

    open spec fn view(&self) -> AppEntryView {
        AppEntryView {
            term: self.term,
            index: self.index,
            command: match self.data {
                EntryData::Command(c) => Some(c@),
                _ => None,
            },
            undecodable: match self.data {
                EntryData::Undecodable(m) => Some(m@),
                _ => None,
            },
        }
    }
}

/// The contents of each entry.
pub open spec fn app_views(entries: Seq<AppEntry>) -> Seq<AppEntryView> {
    entries.map_values(|e: AppEntry| e@)
}

/// The tables after the entries up to the first undecodable one.
pub open spec fn tables_after(t: TablesView, entries: Seq<AppEntryView>) -> TablesView
    decreases entries.len(),
{
    if entries.len() == 0 || entries[0].undecodable is Some {
        t
    } else {
        tables_after(
            match entries[0].command {
                Some(c) => next(t, c).0,
                None => t,
            },
            entries.drop_first(),
        )
    }
}

/// The responses of the entries up to the first undecodable one: one for each
/// that holds a command, with its index, in order.
pub open spec fn responses_of(t: TablesView, entries: Seq<AppEntryView>) -> Seq<(u64, ResponseView)>
    decreases entries.len(),
{
    if entries.len() == 0 || entries[0].undecodable is Some {
        Seq::empty()
    } else {
        match entries[0].command {
            Some(c) => seq![(entries[0].index, next(t, c).1)] + responses_of(
                next(t, c).0,
                entries.drop_first(),
            ),
            None => responses_of(t, entries.drop_first()),
        }
    }
}

/// Every command comes on tables on which it is in range.
pub open spec fn batch_in_range(t: TablesView, entries: Seq<AppEntryView>) -> bool
    decreases entries.len(),
{
    if entries.len() == 0 || entries[0].undecodable is Some {
        true
    } else {
        match entries[0].command {
            Some(c) => in_range(t, c) && batch_in_range(next(t, c).0, entries.drop_first()),
            None => batch_in_range(t, entries.drop_first()),
        }
    }
}

/// The text of the first undecodable entry.
pub open spec fn first_undecodable(entries: Seq<AppEntryView>) -> Option<Seq<char>>
    decreases entries.len(),
{
    if entries.len() == 0 {
        None
    } else if entries[0].undecodable is Some {
        entries[0].undecodable
    } else {
        first_undecodable(entries.drop_first())
    }
}

/// The contents of each response.
pub open spec fn response_views(v: Seq<(u64, ConsensusResponse)>) -> Seq<(u64, ResponseView)> {
    v.map_values(|r: (u64, ConsensusResponse)| (r.0, r.1@))
}

/// The application's state machine with the watermark it has been applied up
/// to.
pub struct AppStateMachine {
    pub db: Tables,
    /// Term and index of the last applied entry.
    pub last_applied: Option<(u64, u64)>,
}

impl AppStateMachine {
    pub open spec fn wf(self) -> bool {
        self.db.wf()
    }

    /// Open a state machine over its tables with the watermark that was read
    /// beside them, if one was kept. One that could not be read is an error.
    pub fn opened(db: Tables, read: Option<Result<Option<(u64, u64)>, String>>) -> (r: Result<
        Self,
        PcsError,
    >)
        ensures
            match read {
                None => r == Ok::<Self, PcsError>(AppStateMachine { db, last_applied: None }),
                Some(Ok(w)) => r == Ok::<Self, PcsError>(AppStateMachine { db, last_applied: w }),
                Some(Err(m)) => r is Err && r->Err_0@ == ErrorView::Store(
                    "postcard decode: "@ + m@,
                ),
            },
    {
        match read {
            None => Ok(AppStateMachine { db, last_applied: None }),
            Some(Ok(w)) => Ok(AppStateMachine { db, last_applied: w }),
            Some(Err(e)) => {
                let mut m = "postcard decode: ".to_owned();
                m.append(e.as_str());
                Err(PcsError::Store(m))
            },
        }
    }

    /// Open a state machine over its tables; the watermark is the one kept in
    /// them, none where none was kept. A watermark that was kept is read back
    /// as it was.
    pub fn open(db: Tables) -> (r: Result<Self, PcsError>)
        requires
            db.wf(),
        ensures
            match db@.last_applied {
                None => r == Ok::<Self, PcsError>(AppStateMachine { db, last_applied: None }),
                Some(b) => match watermark_read(b) {
                    Ok(w) => r == Ok::<Self, PcsError>(AppStateMachine { db, last_applied: w }),
                    Err(m) => r is Err && r->Err_0@ == ErrorView::Store("postcard decode: "@ + m),
                },
            },
            forall|w: Option<(u64, u64)>|
                db@.last_applied == Some(#[trigger] watermark_bytes(w)) ==> r == Ok::<
                    Self,
                    PcsError,
                >(AppStateMachine { db, last_applied: w }),
    {
        let read = match &db.last_applied {
            None => None,
            Some(b) => Some(decode_watermark(b.as_slice())),
        };
        Self::opened(db, read)
    }

    /// Term and index of the last applied entry.
    pub fn last_applied(&self) -> (r: Option<(u64, u64)>)
        ensures
            r == self.last_applied,
    {
        self.last_applied
    }

    /// Move the watermark, after a snapshot was installed.
    pub fn set_last_applied(&mut self, term: u64, index: u64)
        ensures
            final(self).last_applied == Some((term, index)),
            final(self).db == old(self).db,
    {
        self.last_applied = Some((term, index));
    }

    /// Apply a batch of committed entries; one response for each that holds a
    /// command, in order. Blank entries only move the watermark. An
    /// undecodable entry stops the batch with an error: what was applied
    /// before it stays, the watermark does not move.
    pub fn apply_batch(&mut self, entries: Vec<AppEntry>) -> (r: Result<
        Vec<(u64, ConsensusResponse)>,
        PcsError,
    >)
        requires
            old(self).wf(),
            batch_in_range(old(self).db@, app_views(entries@)),
        ensures
            final(self).wf(),
            final(self).db@ == tables_after(old(self).db@, app_views(entries@)),
            match first_undecodable(app_views(entries@)) {
                Some(m) => {
                    &&& r matches Err(e) && e@ == ErrorView::Store(
                        "decode ConsensusCommand from entry: "@ + m,
                    )
                    &&& final(self).last_applied == old(self).last_applied
                },
                None => {
                    &&& r matches Ok(v) && response_views(v@) == responses_of(
                        old(self).db@,
                        app_views(entries@),
                    )
                    &&& final(self).last_applied == if entries@.len() == 0 {
                        old(self).last_applied
                    } else {
                        Some((entries@.last().term, entries@.last().index))
                    }
                },
            },
    {
        let mut responses: Vec<(u64, ConsensusResponse)> = Vec::new();
        let mut applied = self.last_applied;
        let mut rest = entries;
        let ghost views = app_views(entries@);
        let ghost start = self.db@;
        proof {
            assert(response_views(responses@) + responses_of(start, views) =~= responses_of(
                start,
                views,
            ));
        }
        while rest.len() > 0
            invariant
                self.db.wf(),
                self.last_applied == old(self).last_applied,
                start == old(self).db@,
                views == app_views(entries@),
                rest@.len() <= entries@.len(),
                rest@ == entries@.skip(entries@.len() - rest@.len()),
                batch_in_range(self.db@, app_views(rest@)),
                tables_after(start, views) == tables_after(self.db@, app_views(rest@)),
                first_undecodable(views) == first_undecodable(app_views(rest@)),
                responses_of(start, views) == response_views(responses@) + responses_of(
                    self.db@,
                    app_views(rest@),
                ),
                applied == if rest@.len() == entries@.len() {
                    old(self).last_applied
                } else {
                    Some(
                        (
                            entries@[entries@.len() - rest@.len() - 1].term,
                            entries@[entries@.len() - rest@.len() - 1].index,
                        ),
                    )
                },
            decreases rest@.len(),
        {
            let ghost before = rest@;
            let ghost t = self.db@;
            let entry = rest.remove(0);
            proof {
                assert(app_views(before)[0] == entry@);
                assert(app_views(before).drop_first() =~= app_views(rest@));
                assert(rest@ =~= entries@.skip(entries@.len() - rest@.len()));
                assert(entry == entries@[entries@.len() - rest@.len() - 1]);
            }
            let term = entry.term;
            let index = entry.index;
            match entry.data {
                EntryData::Blank => {},
                EntryData::Undecodable(e) => {
                    let mut m = "decode ConsensusCommand from entry: ".to_owned();
                    m.append(e.as_str());
                    return Err(PcsError::Store(m));
                },
                EntryData::Command(cmd) => {
                    let response = apply(&mut self.db, cmd);
                    let ghost had = responses@;
                    responses.push((index, response));
                    proof {
                        let tail = responses_of(self.db@, app_views(rest@));
                        assert(response_views(responses@) =~= response_views(had).push(
                            (index, response@),
                        ));
                        assert(response_views(had) + (seq![(index, response@)] + tail)
                            =~= response_views(responses@) + tail);
                    }
                },
            }
            applied = Some((term, index));
        }
        self.last_applied = applied;
        assert(response_views(responses@) + Seq::<(u64, ResponseView)>::empty() =~= response_views(
            responses@,
        ));
        Ok(responses)
    }

    /// Keep the watermark with the tables.
    pub fn persist_applied(&mut self) -> (r: Result<(), PcsError>)
        requires
            old(self).wf(),
        ensures
            final(self).wf(),
            final(self).last_applied == old(self).last_applied,
            r is Ok,
            final(self).db@ == (TablesView {
                last_applied: Some(watermark_bytes(old(self).last_applied)),
                ..old(self).db@
            }),
    {
        match encode_watermark(self.last_applied) {
            Ok(b) => {
                self.db.last_applied = Some(b);
                Ok(())
            },
            Err(e) => {
                let mut m = "encode last_applied: ".to_owned();
                m.append(e.as_str());
                Err(PcsError::Store(m))
            },
        }
    }
}

/// A batch applied in two parts leaves the same tables and gives the same
/// responses as the batch applied at once.
pub proof fn law_batches_compose(t: TablesView, a: Seq<AppEntryView>, b: Seq<AppEntryView>)
    requires
        first_undecodable(a) is None,
    ensures
        tables_after(t, a + b) == tables_after(tables_after(t, a), b),
        responses_of(t, a + b) == responses_of(t, a) + responses_of(tables_after(t, a), b),
    decreases a.len(),
{
    if a.len() == 0 {
        assert(a + b =~= b);
        assert(responses_of(t, a) + responses_of(t, b) =~= responses_of(t, b));
    } else {
        assert((a + b).drop_first() =~= a.drop_first() + b);
        let t2 = match a[0].command {
            Some(c) => next(t, c).0,
            None => t,
        };
        law_batches_compose(t2, a.drop_first(), b);
        match a[0].command {
            Some(c) => {
                let head = seq![(a[0].index, next(t, c).1)];
                assert((head + responses_of(t2, a.drop_first())) + responses_of(
                    tables_after(t2, a.drop_first()),
                    b,
                ) =~= head + (responses_of(t2, a.drop_first()) + responses_of(
                    tables_after(t2, a.drop_first()),
                    b,
                )));
            },
            None => {},
        }
    }
}

/// Entries applied in two batches leave the same state machine and get the
/// same responses as the entries applied in one.
pub proof fn law_entry_batches_compose<M>(
    v: MachineView<M>,
    a: Seq<Result<CommittedEntry<M>, PcsError>>,
    b: Seq<Result<CommittedEntry<M>, PcsError>>,
)
    requires
        first_failure(a) is None,
    ensures
        entries_next(v, a + b) == entries_next(entries_next(v, a), b),
        entries_answers(v, a + b) == entries_answers(v, a) + entries_answers(
            entries_next(v, a),
            b,
        ),
    decreases a.len(),
{
    if a.len() == 0 {
        assert(a + b =~= b);
        assert(entries_answers(v, a) + entries_answers(v, b) =~= entries_answers(v, b));
    } else {
        assert((a + b).drop_first() =~= a.drop_first() + b);
        let w = entry_next(v, a[0]->Ok_0);
        law_entry_batches_compose(w, a.drop_first(), b);
        let head = seq![entry_answer(v.tables, a[0]->Ok_0)];
        let mid = entries_answers(w, a.drop_first());
        let tail = entries_answers(entries_next(w, a.drop_first()), b);
        assert((head + mid) + tail =~= head + (mid + tail));
    }
}

/// A batch that stops at an entry which failed to arrive leaves what the
/// entries before it leave: nothing behind the failure has any effect.
pub proof fn law_failed_entry_stops_the_batch<M>(
    v: MachineView<M>,
    a: Seq<Result<CommittedEntry<M>, PcsError>>,
    failed: PcsError,
    b: Seq<Result<CommittedEntry<M>, PcsError>>,
)
    requires
        first_failure(a) is None,
    ensures
        entries_next(v, a.push(Err(failed)) + b) == entries_next(v, a),
        entries_answers(v, a.push(Err(failed)) + b) == entries_answers(v, a),
        first_failure(a.push(Err(failed)) + b) == Some(failed@),
    decreases a.len(),
{
    let all = a.push(Err(failed)) + b;
    if a.len() > 0 {
        assert(all.drop_first() =~= a.drop_first().push(Err(failed)) + b);
        law_failed_entry_stops_the_batch(entry_next(v, a[0]->Ok_0), a.drop_first(), failed, b);
    }
}

/// An included end belongs to its range, an excluded one does not, and without an end
/// the range runs through every index.
pub proof fn law_range_ends(v: u64, k: u64)
    ensures
        range_start(Bound::Included(v)) <= k <==> v <= k,
        range_start(Bound::Excluded(v)) <= k <==> v < k,
        range_start(Bound::Unbounded) <= k,
        k < range_end(Bound::Included(v)) <==> k <= v,
        k < range_end(Bound::Excluded(v)) <==> k < v,
        k < range_end(Bound::Unbounded),
        range_start(Bound::Unbounded) >= 0,
{
}

/// An appended row is kept under its index as it is, in place of one there before; every
/// other index keeps what it had.
pub proof fn law_appended_row_is_kept(
    m: Map<u64, RowView>,
    rows: Seq<RowView>,
    row: RowView,
    k: u64,
)
    ensures
        rows_appended(m, Seq::empty()) == m,
        rows_appended(m, rows.push(row)).contains_key(row.log_id.index),
        rows_appended(m, rows.push(row))[row.log_id.index] == row,
        k != row.log_id.index ==> (rows_appended(m, rows.push(row)).contains_key(k)
            <==> rows_appended(m, rows).contains_key(k)),
        k != row.log_id.index && rows_appended(m, rows).contains_key(k) ==> rows_appended(
            m,
            rows.push(row),
        )[k] == rows_appended(m, rows)[k],
{
    assert(rows.push(row).drop_last() =~= rows);
}

/// The last row is the one with the largest index; a log without rows has none.
pub proof fn law_last_row(m: Map<u64, RowView>, r: Option<LogId>, k: u64)
    requires
        is_last_row(m, r),
        m.contains_key(k),
        forall|q: u64| #[trigger] m.contains_key(q) ==> q <= k,
    ensures
        r == Some(m[k].log_id),
{
    match r {
        None => {
            assert(!Map::<u64, RowView>::empty().contains_key(k));
        },
        Some(id) => {
            let j = choose|j: u64| #[trigger]
                m.contains_key(j) && m[j].log_id == id && forall|q: u64| #[trigger]
                    m.contains_key(q) ==> q <= j;
            assert(j == k);
        },
    }
}

/// A command is carried out on the tables and answered as they answer it; anything else
/// leaves them and is acknowledged. Either way the watermark is at the entry. The
/// membership is that of the last entry that changed it.
pub proof fn law_entry_is_applied<M>(v: MachineView<M>, e: CommittedEntry<M>)
    ensures
        entry_next(v, e).last_applied == Some(e.log_id),
        e.payload matches EntryPayload::Normal(c) ==> entry_next(v, e).tables == next(
            v.tables,
            c@,
        ).0 && entry_answer(v.tables, e) == next(v.tables, c@).1,
        !(e.payload is Normal) ==> entry_next(v, e).tables == v.tables && entry_answer(
            v.tables,
            e,
        ) is ClaimAcked,
        e.payload matches EntryPayload::Membership(m) ==> entry_next(v, e).last_membership == m
            && entry_next(v, e).membership_log_id == Some(e.log_id),
        !(e.payload is Membership) ==> entry_next(v, e).last_membership == v.last_membership
            && entry_next(v, e).membership_log_id == v.membership_log_id,
        entry_in_range(v.tables, e) <==> (e.payload matches EntryPayload::Normal(c) ==> in_range(
            v.tables,
            c@,
        )),
{
}

/// A batch is applied entry by entry: one more entry that arrived is applied to what the
/// others left, and its answer comes after theirs.
pub proof fn law_entries_are_applied_in_turn<M>(
    v: MachineView<M>,
    a: Seq<Result<CommittedEntry<M>, PcsError>>,
    e: CommittedEntry<M>,
)
    requires
        first_failure(a) is None,
    ensures
        entries_next(v, Seq::empty()) == v,
        entries_answers(v, Seq::empty()).len() == 0,
        entries_in_range(v, Seq::empty()),
        first_failure(Seq::<Result<CommittedEntry<M>, PcsError>>::empty()) is None,
        entries_next(v, a.push(Ok(e))) == entry_next(entries_next(v, a), e),
        entries_answers(v, a.push(Ok(e))) == entries_answers(v, a).push(
            entry_answer(entries_next(v, a).tables, e),
        ),
        entries_in_range(v, a.push(Ok(e))) <==> entries_in_range(v, a) && entry_in_range(
            entries_next(v, a).tables,
            e,
        ),
        first_failure(a.push(Ok(e))) is None,
    decreases a.len(),
{
    let all = a.push(Ok(e));
    reveal_with_fuel(entries_next, 2);
    reveal_with_fuel(entries_answers, 2);
    reveal_with_fuel(entries_in_range, 2);
    reveal_with_fuel(first_failure, 2);
    if a.len() == 0 {
        assert(all.drop_first() =~= Seq::empty());
        assert(entries_answers(v, all) =~= entries_answers(v, a).push(entry_answer(v.tables, e)));
    } else {
        assert(all.drop_first() =~= a.drop_first().push(Ok(e)));
        let w = entry_next(v, a[0]->Ok_0);
        law_entries_are_applied_in_turn(w, a.drop_first(), e);
        let last = entry_answer(entries_next(v, a).tables, e);
        assert(seq![entry_answer(v.tables, a[0]->Ok_0)] + entries_answers(
            w,
            a.drop_first(),
        ).push(last) =~= (seq![entry_answer(v.tables, a[0]->Ok_0)] + entries_answers(
            w,
            a.drop_first(),
        )).push(last));
    }
}

/// A batch of the application is applied entry by entry: a command to what the entries
/// before it left, with its answer under its index after theirs. An entry without one
/// changes nothing and gets no answer. The first that cannot be read ends the batch
/// where it stands.
pub proof fn law_commands_are_applied_in_turn(
    t: TablesView,
    a: Seq<AppEntryView>,
    e: AppEntryView,
    b: Seq<AppEntryView>,
)
    requires
        first_undecodable(a) is None,
    ensures
        tables_after(t, Seq::empty()) == t,
        responses_of(t, Seq::empty()).len() == 0,
        batch_in_range(t, Seq::empty()),
        first_undecodable(Seq::empty()) is None,
        e.undecodable is None ==> first_undecodable(a.push(e)) is None,
        e.undecodable is None && e.command is None ==> tables_after(t, a.push(e)) == tables_after(
            t,
            a,
        ) && responses_of(t, a.push(e)) == responses_of(t, a) && (batch_in_range(t, a.push(e))
            <==> batch_in_range(t, a)),
        e.undecodable is None ==> (e.command matches Some(c) ==> tables_after(t, a.push(e)) == next(
            tables_after(t, a),
            c,
        ).0 && responses_of(t, a.push(e)) == responses_of(t, a).push(
            (e.index, next(tables_after(t, a), c).1),
        ) && (batch_in_range(t, a.push(e)) <==> batch_in_range(t, a) && in_range(
            tables_after(t, a),
            c,
        ))),
        e.undecodable is Some ==> tables_after(t, a.push(e) + b) == tables_after(t, a)
            && responses_of(t, a.push(e) + b) == responses_of(t, a) && first_undecodable(
            a.push(e) + b,
        ) == e.undecodable && (batch_in_range(t, a.push(e) + b) <==> batch_in_range(t, a)),
    decreases a.len(),
{
    let one = a.push(e);
    let all = a.push(e) + b;
    reveal_with_fuel(tables_after, 2);
    reveal_with_fuel(responses_of, 2);
    reveal_with_fuel(batch_in_range, 2);
    reveal_with_fuel(first_undecodable, 2);
    if a.len() == 0 {
        assert(one.drop_first() =~= Seq::empty());
        assert(all[0] == e);
        if e.command is Some {
            let c = e.command->0;
            assert(responses_of(t, one) == seq![(e.index, next(t, c).1)] + responses_of(
                next(t, c).0,
                one.drop_first(),
            ) || e.undecodable is Some);
            assert(seq![(e.index, next(t, c).1)] + Seq::<(u64, ResponseView)>::empty() =~= Seq::<
                (u64, ResponseView),
            >::empty().push((e.index, next(t, c).1)));
        }
    } else {
        let t2 = match a[0].command {
            Some(c) => next(t, c).0,
            None => t,
        };
        assert(one.drop_first() =~= a.drop_first().push(e));
        assert(all.drop_first() =~= a.drop_first().push(e) + b);
        assert(all[0] == a[0] && one[0] == a[0]);
        law_commands_are_applied_in_turn(t2, a.drop_first(), e, b);
        if a[0].command is Some && e.command is Some && e.undecodable is None {
            let head = seq![(a[0].index, next(t, a[0].command->0).1)];
            let mid = responses_of(t2, a.drop_first());
            let last = (e.index, next(tables_after(t, a), e.command->0).1);
            assert(head + mid.push(last) =~= (head + mid).push(last));
        }
    }
}

/// The refusals of stores that do not fit together name how far the log was purged, and
/// how far the state machine got.
pub proof fn law_store_refusals(purged: u64, applied: u64)
    ensures
        never_applied_text(purged)
            == "store consistency violation: log store has purged up to index "@ + decimal_text(
            purged as nat,
        )
            + " but state machine last_applied is None — state machine is behind. Do not mix log and state-machine redb files from different backups."@,
        behind_text(purged, applied)
            == "store consistency violation: log store purged up to index "@ + decimal_text(
            purged as nat,
        ) + " but state machine last_applied is index "@ + decimal_text(applied as nat)
            + " — state machine is behind. Do not mix log and state-machine redb files from different backups."@,
{
}

/// What is said of a row, an entry or a machine is said of each of its parts, and of
/// each of many in order.
pub proof fn law_store_records_are_seen_whole<M>(
    row: LogRow,
    e: AppEntry,
    m: ArrowRedbStateMachine<M>,
    rows: Seq<LogRow>,
    entries: Seq<AppEntry>,
    answers: Seq<ConsensusResponse>,
    indexed: Seq<(u64, ConsensusResponse)>,
    i: int,
)
    ensures
        row@.log_id == row.log_id && row@.payload == row.payload@,
        e@.term == e.term && e@.index == e.index,
        e.data matches EntryData::Command(c) ==> e@.command == Some(c@) && e@.undecodable is None,
        e.data is Blank ==> e@.command is None && e@.undecodable is None,
        e.data matches EntryData::Undecodable(t) ==> e@.command is None && e@.undecodable == Some(
            t@,
        ),
        m.machine().tables == m.db@ && m.machine().last_applied == m.last_applied
            && m.machine().membership_log_id == m.membership_log_id && m.machine().last_membership
            == m.last_membership,
        row_views(rows).len() == rows.len(),
        app_views(entries).len() == entries.len(),
        answer_views(answers).len() == answers.len(),
        response_views(indexed).len() == indexed.len(),
        0 <= i < rows.len() ==> row_views(rows)[i] == rows[i]@,
        0 <= i < entries.len() ==> app_views(entries)[i] == entries[i]@,
        0 <= i < answers.len() ==> answer_views(answers)[i] == answers[i]@,
        0 <= i < indexed.len() ==> response_views(indexed)[i] == (indexed[i].0, indexed[i].1@),
{
}

} // verus!
