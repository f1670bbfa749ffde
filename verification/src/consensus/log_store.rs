//! The raft log: hard state, membership, entries and the latest snapshot.
//!
//! The entries carry their encoded bytes; what is in them is the concern of
//! the raft library that encoded them. Putting the rows on disk is outside.

use vstd::prelude::*;

use crate::table::{Key, Table};

verus! {

/// Term, vote and commit index of a node.
#[derive(Debug, Clone, Copy, PartialEq, Eq, Structural)]
pub struct HardState {
    pub term: u64,
    pub vote: u64,
    pub commit: u64,
}

impl Default for HardState {
    fn default() -> (r: Self)
        ensures
            r == (HardState { term: 0, vote: 0, commit: 0 }),
    {
        HardState { term: 0, vote: 0, commit: 0 }
    }
}

/// Who belongs to the cluster.
#[derive(Debug, PartialEq, Eq)]
pub struct ConfState {
    pub voters: Vec<u64>,
    pub learners: Vec<u64>,
    pub voters_outgoing: Vec<u64>,
    pub learners_next: Vec<u64>,
    pub auto_leave: bool,
}

/// The contents of a [`ConfState`].
pub ghost struct ConfView {
    pub voters: Seq<u64>,
    pub learners: Seq<u64>,
    pub voters_outgoing: Seq<u64>,
    pub learners_next: Seq<u64>,
    pub auto_leave: bool,
}

impl View for ConfState {
    type V = ConfView;

    open spec fn view(&self) -> ConfView {
        ConfView {
            voters: self.voters@,
            learners: self.learners@,
            voters_outgoing: self.voters_outgoing@,
            learners_next: self.learners_next@,
            auto_leave: self.auto_leave,
        }
    }
}

/// A cluster of nobody.
pub open spec fn empty_conf() -> ConfView {
    ConfView {
        voters: Seq::empty(),
        learners: Seq::empty(),
        voters_outgoing: Seq::empty(),
        learners_next: Seq::empty(),
        auto_leave: false,
    }
}

fn copied<T: Copy>(v: &Vec<T>) -> (r: Vec<T>)
    ensures
        r@ == v@,
{
    let mut out: Vec<T> = Vec::new();
    let mut i: usize = 0;
    while i < v.len()
        invariant
            i <= v@.len(),
            out@ == v@.take(i as int),
        decreases v@.len() - i,
    {
        out.push(v[i]);
        assert(v@.take(i as int + 1) =~= v@.take(i as int).push(v@[i as int]));
        i += 1;
    }
    assert(v@.take(i as int) =~= v@);
    out
}

impl Clone for ConfState {
    fn clone(&self) -> (r: Self)
        ensures
            r@ == self@,
    {
        ConfState {
            voters: copied(&self.voters),
            learners: copied(&self.learners),
            voters_outgoing: copied(&self.voters_outgoing),
            learners_next: copied(&self.learners_next),
            auto_leave: self.auto_leave,
        }
    }
}

impl Default for ConfState {
    fn default() -> (r: Self)
        ensures
            r@ == empty_conf(),
    {
        ConfState {
            voters: Vec::new(),
            learners: Vec::new(),
            voters_outgoing: Vec::new(),
            learners_next: Vec::new(),
            auto_leave: false,
        }
    }
}

/// One log entry.
#[derive(Debug, PartialEq, Eq)]
pub struct Entry {
    pub index: u64,
    pub term: u64,
    /// The whole entry, encoded.
    pub encoded: Vec<u8>,
}

/// The contents of an [`Entry`].
pub ghost struct EntryView {
    pub index: u64,
    pub term: u64,
    pub encoded: Seq<u8>,
}

impl View for Entry {
    type V = EntryView;

    open spec fn view(&self) -> EntryView {
        EntryView { index: self.index, term: self.term, encoded: self.encoded@ }
    }
}

impl Clone for Entry {
    fn clone(&self) -> (r: Self)
        ensures
            r@ == self@,
    {
        Entry { index: self.index, term: self.term, encoded: copied(&self.encoded) }
    }
}

/// Index, term and membership that a snapshot stands at.
#[derive(Debug, PartialEq, Eq)]
pub struct SnapshotMetadata {
    pub index: u64,
    pub term: u64,
    pub conf_state: Option<ConfState>,
}

/// A snapshot, as raft exchanges it.
#[derive(Debug, PartialEq, Eq)]
pub struct Snapshot {
    pub data: Vec<u8>,
    pub metadata: Option<SnapshotMetadata>,
}

impl Default for Snapshot {
    fn default() -> (r: Self)
        ensures
            r.data@ == Seq::<u8>::empty(),
            r.metadata is None,
    {
        Snapshot { data: Vec::new(), metadata: None }
    }
}

/// A stored snapshot: its bytes and what the log needs to serve it.
#[derive(Debug)]
pub struct SnapshotRecord {
    pub index: u64,
    pub term: u64,
    pub voters: Vec<u64>,
    pub learners: Vec<u64>,
    pub data: Vec<u8>,
}

/// The contents of a [`SnapshotRecord`].
pub ghost struct RecordView {
    pub index: u64,
    pub term: u64,
    pub voters: Seq<u64>,
    pub learners: Seq<u64>,
    pub data: Seq<u8>,
}

impl View for SnapshotRecord {
    type V = RecordView;

    open spec fn view(&self) -> RecordView {
        RecordView {
            index: self.index,
            term: self.term,
            voters: self.voters@,
            learners: self.learners@,
            data: self.data@,
        }
    }
}

/// What is stored of a snapshot. What it lacks counts as zero or nobody.
pub open spec fn record_of(s: Snapshot) -> RecordView {
    RecordView {
        index: match s.metadata {
            Some(m) => m.index,
            None => 0,
        },
        term: match s.metadata {
            Some(m) => m.term,
            None => 0,
        },
        voters: match s.metadata {
            Some(m) => match m.conf_state {
                Some(c) => c.voters@,
                None => Seq::empty(),
            },
            None => Seq::empty(),
        },
        learners: match s.metadata {
            Some(m) => match m.conf_state {
                Some(c) => c.learners@,
                None => Seq::empty(),
            },
            None => Seq::empty(),
        },
        data: s.data@,
    }
}

/// The snapshot is the one the record was stored from, as far as it is
/// stored.
pub open spec fn served_from(s: Snapshot, rec: RecordView) -> bool {
    &&& s.data@ == rec.data
    &&& s.metadata matches Some(m) && {
        &&& m.index == rec.index
        &&& m.term == rec.term
        &&& m.conf_state matches Some(c) && c@ == (ConfView {
            voters: rec.voters,
            learners: rec.learners,
            ..empty_conf()
        })
    }
}

impl SnapshotRecord {
    /// What is stored of a snapshot.
    pub fn of(s: &Snapshot) -> (r: Self)
        ensures
            r@ == record_of(*s),
    {
        let data = copied(&s.data);
        match &s.metadata {
            None => SnapshotRecord {
                index: 0,
                term: 0,
                voters: Vec::new(),
                learners: Vec::new(),
                data,
            },
            Some(m) => match &m.conf_state {
                None => SnapshotRecord {
                    index: m.index,
                    term: m.term,
                    voters: Vec::new(),
                    learners: Vec::new(),
                    data,
                },
                Some(c) => SnapshotRecord {
                    index: m.index,
                    term: m.term,
                    voters: copied(&c.voters),
                    learners: copied(&c.learners),
                    data,
                },
            },
        }
    }

    /// The snapshot the record was stored from.
    pub fn to_snapshot(&self) -> (r: Snapshot)
        ensures
            served_from(r, self@),
    {
        Snapshot {
            data: copied(&self.data),
            metadata: Some(
                SnapshotMetadata {
                    index: self.index,
                    term: self.term,
                    conf_state: Some(
                        ConfState {
                            voters: copied(&self.voters),
                            learners: copied(&self.learners),
                            voters_outgoing: Vec::new(),
                            learners_next: Vec::new(),
                            auto_leave: false,
                        },
                    ),
                },
            ),
        }
    }
}

/// Why the log cannot serve a read.
#[derive(Debug, Clone, Copy, PartialEq, Eq, Structural)]
pub enum StorageError {
    /// The entries were compacted away.
    Compacted,
    /// The entries are not in the log.
    Unavailable,
    /// The snapshot is older than asked for.
    SnapshotTemporarilyUnavailable,
}

/// The log of one node.
pub struct RaftRedbLogStore {
    hard_state: Option<HardState>,
    conf_state: Option<ConfState>,
    entries: Table<u64, Entry>,
    snapshot: Option<SnapshotRecord>,
}

/// The contents of a [`RaftRedbLogStore`].
pub ghost struct LogView {
    pub hard_state: Option<HardState>,
    pub conf_state: Option<ConfView>,
    pub entries: Map<u64, EntryView>,
    pub snapshot: Option<RecordView>,
}

impl View for RaftRedbLogStore {
    type V = LogView;

    closed spec fn view(&self) -> LogView {
        LogView {
            hard_state: self.hard_state,
            conf_state: match self.conf_state {
                Some(c) => Some(c@),
                None => None,
            },
            entries: self.entries@,
            snapshot: match self.snapshot {
                Some(s) => Some(s@),
                None => None,
            },
        }
    }
}

/// Index of the first entry the log keeps.
pub open spec fn first_kept(l: LogView) -> int {
    match l.snapshot {
        Some(s) => s.index + 1,
        None => 1,
    }
}

/// `i` is the largest index with an entry, or the one before the first where
/// there is none.
pub open spec fn is_last_index(l: LogView, i: int) -> bool {
    if l.entries =~= Map::<u64, EntryView>::empty() {
        i == first_kept(l) - 1
    } else {
        &&& 0 <= i <= u64::MAX
        &&& l.entries.contains_key(i as u64)
        &&& forall|k: u64| #[trigger] l.entries.contains_key(k) ==> k <= i
    }
}

/// The entries of `low..high` by index, the first in any case, then as long
/// as their encoded sizes together with `used` stay within `max`.
pub open spec fn page(
    m: Map<u64, EntryView>,
    low: int,
    high: int,
    max: nat,
    used: nat,
    first: bool,
) -> Seq<EntryView>
    decreases high - low,
{
    if low >= high {
        Seq::empty()
    } else if !(0 <= low <= u64::MAX && m.contains_key(low as u64)) {
        page(m, low + 1, high, max, used, first)
    } else if !first && used + m[low as u64].encoded.len() > max {
        Seq::empty()
    } else {
        seq![m[low as u64]] + page(
            m,
            low + 1,
            high,
            max,
            used + m[low as u64].encoded.len(),
            false,
        )
    }
}

proof fn lemma_page_gap(
    m: Map<u64, EntryView>,
    low: int,
    mid: int,
    high: int,
    max: nat,
    used: nat,
    first: bool,
)
    requires
        0 <= low <= mid <= high,
        forall|k: u64| low <= k < mid ==> !#[trigger] m.contains_key(k),
    ensures
        page(m, low, high, max, used, first) == page(m, mid, high, max, used, first),
    decreases mid - low,
{
    if low < mid {
        lemma_page_gap(m, low + 1, mid, high, max, used, first);
    }
}

/// The log with entries put in, in order.
pub open spec fn appended(m: Map<u64, EntryView>, entries: Seq<EntryView>) -> Map<u64, EntryView>
    decreases entries.len(),
{
    if entries.len() == 0 {
        m
    } else {
        appended(m, entries.drop_last()).insert(entries.last().index, entries.last())
    }
}

/// The contents of each entry.
pub open spec fn entry_views(entries: Seq<Entry>) -> Seq<EntryView> {
    entries.map_values(|e: Entry| e@)
}

/// Hard state and membership a node starts from.
pub struct RaftState {
    pub hard_state: HardState,
    pub conf_state: ConfState,
}

impl RaftRedbLogStore {
    /// No index is the largest there is, so that the one after it exists.
    pub closed spec fn wf(self) -> bool {
        &&& self.entries.wf()
        &&& !self.entries@.contains_key(u64::MAX)
        &&& self.snapshot matches Some(s) ==> s.index < u64::MAX
    }

    /// An empty log.
    pub fn new() -> (r: Self)
        ensures
            r.wf(),
            r@ == (LogView {
                hard_state: None,
                conf_state: None,
                entries: Map::empty(),
                snapshot: None,
            }),
    {
        RaftRedbLogStore {
            hard_state: None,
            conf_state: None,
            entries: Table::new(),
            snapshot: None,
        }
    }

    /// Keep the hard state, in place of the one before.
    pub fn persist_hard_state(&mut self, hs: &HardState)
        requires
            old(self).wf(),
        ensures
            final(self).wf(),
            final(self)@ == (LogView { hard_state: Some(*hs), ..old(self)@ }),
    {
        self.hard_state = Some(*hs);
    }

    /// Keep the membership, in place of the one before.
    pub fn persist_conf_state(&mut self, cs: &ConfState)
        requires
            old(self).wf(),
        ensures
            final(self).wf(),
            final(self)@ == (LogView { conf_state: Some(cs@), ..old(self)@ }),
    {
        self.conf_state = Some(cs.clone());
    }

    /// Keep log entries under their indices; returns how many.
    pub fn append_entries(&mut self, entries: &Vec<Entry>) -> (r: usize)
        requires
            old(self).wf(),
            forall|i: int| 0 <= i < entries@.len() ==> (#[trigger] entries@[i]).index < u64::MAX,
        ensures
            final(self).wf(),
            final(self)@ == (LogView {
                entries: appended(old(self)@.entries, entry_views(entries@)),
                ..old(self)@
            }),
            r == entries@.len(),
    {
        let mut i: usize = 0;
        let ghost views = entry_views(entries@);
        assert(views.take(0) =~= Seq::<EntryView>::empty());
        while i < entries.len()
            invariant
                i <= entries@.len(),
                views == entry_views(entries@),
                forall|j: int|
                    0 <= j < entries@.len() ==> (#[trigger] entries@[j]).index < u64::MAX,
                self.wf(),
                self@ == (LogView {
                    entries: appended(old(self)@.entries, views.take(i as int)),
                    ..old(self)@
                }),
            decreases entries@.len() - i,
        {
            self.entries.insert(entries[i].index, entries[i].clone());
            proof {
                assert(views.take(i as int + 1).drop_last() =~= views.take(i as int));
                assert(views.take(i as int + 1).last() == entries@[i as int]@);
            }
            i += 1;
        }
        assert(views.take(i as int) =~= views);
        entries.len()
    }

    /// The hard state kept, or an empty one.
    pub fn read_hard_state(&self) -> (r: HardState)
        ensures
            r == match self@.hard_state {
                Some(h) => h,
                None => HardState { term: 0, vote: 0, commit: 0 },
            },
    {
        match self.hard_state {
            Some(h) => h,
            None => HardState::default(),
        }
    }

    /// The membership kept, or an empty one.
    pub fn read_conf_state(&self) -> (r: ConfState)
        ensures
            r@ == match self@.conf_state {
                Some(c) => c,
                None => empty_conf(),
            },
    {
        match &self.conf_state {
            Some(c) => c.clone(),
            None => ConfState::default(),
        }
    }

    /// What a node starts from.
    pub fn initial_state(&self) -> (r: RaftState)
        ensures
            r.hard_state == match self@.hard_state {
                Some(h) => h,
                None => HardState { term: 0, vote: 0, commit: 0 },
            },
            r.conf_state@ == match self@.conf_state {
                Some(c) => c,
                None => empty_conf(),
            },
    {
        RaftState { hard_state: self.read_hard_state(), conf_state: self.read_conf_state() }
    }

    /// Compact the log: drop the entries up to `index` and keep `snapshot` as
    /// the new base.
    pub fn compact_to(&mut self, index: u64, snapshot: &Snapshot)
        requires
            old(self).wf(),
            record_of(*snapshot).index < u64::MAX,
        ensures
            final(self).wf(),
            final(self)@ == (LogView {
                entries: old(self)@.entries.restrict(Set::new(|k: u64| k > index)),
                snapshot: Some(record_of(*snapshot)),
                ..old(self)@
            }),
    {
        self.snapshot = Some(SnapshotRecord::of(snapshot));
        self.entries.remove_up_to(index);
    }

    /// The latest snapshot.
    pub fn read_snapshot(&self) -> (r: Option<Snapshot>)
        ensures
            match self@.snapshot {
                None => r is None,
                Some(rec) => r matches Some(s) && served_from(s, rec),
            },
    {
        match &self.snapshot {
            Some(rec) => Some(rec.to_snapshot()),
            None => None,
        }
    }

    /// Index of the first entry kept: the one after the snapshot, else one.
    pub fn first_index(&self) -> (r: u64)
        requires
            self.wf(),
        ensures
            r == first_kept(self@),
    {
        match &self.snapshot {
            Some(s) => s.index + 1,
            None => 1,
        }
    }

    /// Index of the last entry, or the one before the first where there is
    /// none.
    pub fn last_index(&self) -> (r: u64)
        requires
            self.wf(),
        ensures
            is_last_index(self@, r as int),
            r < u64::MAX,
    {
        let first = self.first_index();
        let n = self.entries.len();
        proof {
            self.entries.lemma_keys();
        }
        if n == 0 {
            assert(self.entries@ =~= Map::<u64, EntryView>::empty());
            first - 1
        } else {
            let k = self.entries.key_at(n - 1);
            proof {
                assert(self.entries@.contains_key(self.entries.keys()[n - 1]));
                assert forall|q: u64| #[trigger] self.entries@.contains_key(q) implies q <= k by {
                    let i = choose|i: int|
                        0 <= i < self.entries.keys().len() && #[trigger] self.entries.keys()[i]
                            == q;
                    if i < n - 1 {
                        assert(self.entries.keys()[i].rank() < self.entries.keys()[n - 1].rank());
                    }
                }
            }
            k
        }
    }

    /// The entries of `low..high`, as many as `max_size` bytes allow but at
    /// least one. A range that begins before the log is compacted, one that
    /// ends past it is unavailable.
    pub fn entries(&self, low: u64, high: u64, max_size: Option<u64>) -> (r: Result<
        Vec<Entry>,
        StorageError,
    >)
        requires
            self.wf(),
        ensures
            match r {
                Err(e) => if low < first_kept(self@) {
                    e == StorageError::Compacted
                } else {
                    e == StorageError::Unavailable && exists|last: int| #[trigger]
                        is_last_index(self@, last) && high > last + 1
                },
                Ok(v) => {
                    &&& low >= first_kept(self@)
                    &&& exists|last: int| #[trigger] is_last_index(self@, last) && high <= last + 1
                    &&& entry_views(v@) == page(
                        self@.entries,
                        low as int,
                        high as int,
                        match max_size {
                            Some(m) => m as nat,
                            None => u64::MAX as nat,
                        },
                        0,
                        true,
                    )
                },
            },
    {
        if low < self.first_index() {
            return Err(StorageError::Compacted);
        }
        let last = self.last_index();
        assert(is_last_index(self@, last as int));
        if high > last + 1 {
            return Err(StorageError::Unavailable);
        }
        let max: u64 = match max_size {
            Some(m) => m,
            None => u64::MAX,
        };
        let ghost m = self.entries@;
        let ghost whole = page(m, low as int, high as int, max as nat, 0, true);
        let mut out: Vec<Entry> = Vec::new();
        let mut size: u64 = 0;
        let mut i: usize = self.entries.seek(low);
        let ghost mut cur: int = low as int;
        proof {
            self.entries.lemma_keys();
            assert(entry_views(out@) + whole =~= whole);
        }
        while i < self.entries.len() && self.entries.key_at(i) < high
            invariant
                i <= self.entries.keys().len(),
                self.wf(),
                m == self.entries@,
                low <= cur,
                cur <= high || cur == low,
                whole == entry_views(out@) + page(
                    m,
                    cur,
                    high as int,
                    max as nat,
                    size as nat,
                    out@.len() == 0,
                ),
                out@.len() == 0 ==> size == 0,
                forall|j: int| 0 <= j < i ==> (#[trigger] self.entries.keys()[j]) < cur,
                forall|j: int|
                    i <= j < self.entries.keys().len() ==> (#[trigger] self.entries.keys()[j])
                        >= cur,
                whole == page(m, low as int, high as int, max as nat, 0, true),
                is_last_index(self@, last as int),
                high <= last + 1,
                low >= first_kept(self@),
                max == match max_size {
                    Some(b) => b,
                    None => u64::MAX,
                },
            decreases self.entries.keys().len() - i,
        {
            let k: u64 = self.entries.key_at(i);
            let entry = self.entries.value_at(i);
            let len: u64 = entry.encoded.len() as u64;
            proof {
                self.entries.lemma_keys();
                assert forall|q: u64| cur <= q < k implies !#[trigger] m.contains_key(q) by {
                    if m.contains_key(q) {
                        let j = choose|j: int|
                            0 <= j < self.entries.keys().len() && #[trigger] self.entries.keys()[j]
                                == q;
                        if j > i {
                            assert(self.entries.keys()[i as int].rank()
                                < self.entries.keys()[j].rank());
                        }
                    }
                }
                lemma_page_gap(
                    m,
                    cur,
                    k as int,
                    high as int,
                    max as nat,
                    size as nat,
                    out@.len() == 0,
                );
            }
            if out.len() > 0 && (size > max || len > max - size) {
                proof {
                    assert(entry_views(out@) + Seq::<EntryView>::empty() =~= entry_views(out@));
                }
                return Ok(out);
            }
            let ghost before = out@;
            let ghost used = size;
            size = size + len;
            out.push(entry.clone());
            proof {
                let rest = page(m, k + 1, high as int, max as nat, size as nat, false);
                assert(entry_views(out@) =~= entry_views(before).push(m[k]));
                assert(entry_views(before) + (seq![m[k]] + rest) =~= entry_views(out@) + rest);
                cur = k as int + 1;
                assert forall|j: int| 0 <= j < i + 1 implies (#[trigger] self.entries.keys()[j])
                    < cur by {
                    if j < i {
                        assert(self.entries.keys()[j].rank()
                            < self.entries.keys()[i as int].rank());
                    }
                }
                assert forall|j: int| i + 1 <= j < self.entries.keys().len() implies (
                #[trigger] self.entries.keys()[j]) >= cur by {
                    assert(self.entries.keys()[i as int].rank() < self.entries.keys()[j].rank());
                }
            }
            i += 1;
        }
        proof {
            self.entries.lemma_keys();
            assert forall|q: u64| cur <= q < high implies !#[trigger] m.contains_key(q) by {
                if m.contains_key(q) {
                    let j = choose|j: int|
                        0 <= j < self.entries.keys().len() && #[trigger] self.entries.keys()[j]
                            == q;
                    assert(j >= i);
                    if j > i {
                        assert(self.entries.keys()[i as int].rank()
                            < self.entries.keys()[j].rank());
                    }
                }
            }
            if cur <= high {
                lemma_page_gap(
                    m,
                    cur,
                    high as int,
                    high as int,
                    max as nat,
                    size as nat,
                    out@.len() == 0,
                );
            }
            assert(entry_views(out@) + Seq::<EntryView>::empty() =~= entry_views(out@));
        }
        Ok(out)
    }

    /// The term of the entry at `idx`. That of the entry before the first
    /// kept is the snapshot's.
    pub fn term(&self, idx: u64) -> (r: Result<u64, StorageError>)
        requires
            self.wf(),
        ensures
            r == if idx == first_kept(self@) - 1 {
                Ok::<u64, StorageError>(
                    match self@.snapshot {
                        Some(s) => s.term,
                        None => 0,
                    },
                )
            } else if self@.entries.contains_key(idx) {
                Ok::<u64, StorageError>(self@.entries[idx].term)
            } else {
                Err::<u64, StorageError>(StorageError::Unavailable)
            },
    {
        if idx == self.first_index() - 1 {
            return match &self.snapshot {
                Some(s) => Ok(s.term),
                None => Ok(0),
            };
        }
        match self.entries.get(idx) {
            Some(e) => Ok(e.term),
            None => Err(StorageError::Unavailable),
        }
    }

    /// The latest snapshot, if it is as recent as asked for; an empty one
    /// where none was taken.
    pub fn snapshot(&self, request_index: u64) -> (r: Result<Snapshot, StorageError>)
        ensures
            match self@.snapshot {
                None => r matches Ok(s) && s.data@ == Seq::<u8>::empty() && s.metadata is None,
                Some(rec) => if rec.index >= request_index {
                    r matches Ok(s) && served_from(s, rec)
                } else {
                    r == Err::<Snapshot, StorageError>(StorageError::SnapshotTemporarilyUnavailable)
                },
            },
    {
        match &self.snapshot {
            Some(rec) => {
                if rec.index >= request_index {
                    Ok(rec.to_snapshot())
                } else {
                    Err(StorageError::SnapshotTemporarilyUnavailable)
                }
            },
            None => Ok(Snapshot::default()),
        }
    }
}

/// A log compacted at a snapshot has nothing left up to its index, begins
/// right after it, and keeps its term and what came after.
pub proof fn law_compaction_keeps_the_tail(l: LogView, s: Snapshot, k: u64)
    requires
        record_of(s).index < u64::MAX,
    ensures
        ({
            let after = LogView {
                entries: l.entries.restrict(Set::new(|q: u64| q > record_of(s).index)),
                snapshot: Some(record_of(s)),
                ..l
            };
            &&& first_kept(after) == record_of(s).index + 1
            &&& k < first_kept(after) ==> !after.entries.contains_key(k)
            &&& k >= first_kept(after) ==> (after.entries.contains_key(k)
                <==> l.entries.contains_key(k))
            &&& after.entries.contains_key(k) ==> after.entries[k] == l.entries[k]
            &&& after.snapshot->0.term == record_of(s).term
            &&& after.hard_state == l.hard_state
            &&& after.conf_state == l.conf_state
        }),
{
}

/// The sizes of the encoded entries, together.
pub open spec fn total_size(entries: Seq<EntryView>) -> nat
    decreases entries.len(),
{
    if entries.len() == 0 {
        0
    } else {
        total_size(entries.drop_last()) + entries.last().encoded.len()
    }
}

/// Entries appended one after the other are read back as they were, as long
/// as their sizes allow.
pub proof fn law_append_then_read(
    m: Map<u64, EntryView>,
    entries: Seq<EntryView>,
    low: u64,
    max: nat,
)
    requires
        forall|i: int| 0 <= i < entries.len() ==> (#[trigger] entries[i]).index == low + i,
        low + entries.len() <= u64::MAX,
        total_size(entries) <= max,
    ensures
        page(appended(m, entries), low as int, low + entries.len(), max, 0, true) == entries,
{
    lemma_appended(m, entries, low);
    assert(entries.take(0) =~= Seq::<EntryView>::empty());
    assert(entries.skip(0) =~= entries);
    lemma_page_of(appended(m, entries), entries, low, max, 0);
}

proof fn lemma_appended(m: Map<u64, EntryView>, entries: Seq<EntryView>, low: u64)
    requires
        forall|i: int| 0 <= i < entries.len() ==> (#[trigger] entries[i]).index == low + i,
        low + entries.len() <= u64::MAX,
    ensures
        forall|i: int|
            0 <= i < entries.len() ==> appended(m, entries).contains_key(
                (#[trigger] entries[i]).index,
            ) && appended(m, entries)[entries[i].index] == entries[i],
    decreases entries.len(),
{
    if entries.len() > 0 {
        lemma_appended(m, entries.drop_last(), low);
        assert forall|i: int| 0 <= i < entries.len() implies appended(m, entries).contains_key(
            (#[trigger] entries[i]).index,
        ) && appended(m, entries)[entries[i].index] == entries[i] by {
            if i < entries.len() - 1 {
                assert(entries.drop_last()[i] == entries[i]);
            }
        }
    }
}

proof fn lemma_total_take(entries: Seq<EntryView>, n: int)
    requires
        0 <= n <= entries.len(),
    ensures
        total_size(entries.take(n)) <= total_size(entries),
    decreases entries.len() - n,
{
    if n < entries.len() {
        lemma_total_take(entries, n + 1);
        assert(entries.take(n + 1).drop_last() =~= entries.take(n));
    } else {
        assert(entries.take(n) =~= entries);
    }
}

proof fn lemma_page_of(m: Map<u64, EntryView>, entries: Seq<EntryView>, low: u64, max: nat, n: int)
    requires
        0 <= n <= entries.len(),
        forall|i: int| 0 <= i < entries.len() ==> (#[trigger] entries[i]).index == low + i,
        forall|i: int|
            0 <= i < entries.len() ==> m.contains_key((#[trigger] entries[i]).index)
                && m[entries[i].index] == entries[i],
        low + entries.len() <= u64::MAX,
        total_size(entries) <= max,
    ensures
        page(m, low + n, low + entries.len(), max, total_size(entries.take(n)), n == 0)
            == entries.skip(n),
    decreases entries.len() - n,
{
    if n < entries.len() {
        lemma_page_of(m, entries, low, max, n + 1);
        lemma_total_take(entries, n + 1);
        assert(entries.take(n + 1).drop_last() =~= entries.take(n));
        assert(entries.take(n + 1).last() == entries[n]);
        assert(entries[n].index == low + n);
        assert(entries.skip(n) =~= seq![entries[n]] + entries.skip(n + 1));
    } else {
        assert(entries.skip(n) =~= Seq::<EntryView>::empty());
    }
}

/// An appended entry is kept under its index as it is, in place of one there before;
/// every other index keeps what it had.
pub proof fn law_appended_entry_is_kept(
    m: Map<u64, EntryView>,
    entries: Seq<EntryView>,
    e: EntryView,
    k: u64,
)
    ensures
        appended(m, Seq::empty()) == m,
        appended(m, entries.push(e)).contains_key(e.index),
        appended(m, entries.push(e))[e.index] == e,
        k != e.index ==> (appended(m, entries.push(e)).contains_key(k) <==> appended(
            m,
            entries,
        ).contains_key(k)),
        k != e.index && appended(m, entries).contains_key(k) ==> appended(m, entries.push(e))[k]
            == appended(m, entries)[k],
{
    assert(entries.push(e).drop_last() =~= entries);
}

/// A page is read index by index. The first entry found is always in it, whatever its
/// size; a later one as long as all so far fit together; the first that does not ends
/// the page. An index without an entry is passed over.
pub proof fn law_page_is_read_in_order(
    m: Map<u64, EntryView>,
    low: u64,
    high: int,
    max: nat,
    used: nat,
    first: bool,
)
    ensures
        low >= high ==> page(m, low as int, high, max, used, first).len() == 0,
        low < high && !m.contains_key(low) ==> page(m, low as int, high, max, used, first) == page(
            m,
            low + 1,
            high,
            max,
            used,
            first,
        ),
        low < high && m.contains_key(low) ==> ({
            let p = page(m, low as int, high, max, used, first);
            &&& first || used + m[low].encoded.len() <= max ==> p.len() > 0 && p[0] == m[low]
                && p.drop_first() == page(
                m,
                low + 1,
                high,
                max,
                used + m[low].encoded.len(),
                false,
            )
            &&& !first && used + m[low].encoded.len() > max ==> p.len() == 0
        }),
{
    if low < high && m.contains_key(low) && (first || used + m[low].encoded.len() <= max) {
        let rest = page(m, low + 1, high, max, used + m[low].encoded.len(), false);
        assert((seq![m[low]] + rest).drop_first() =~= rest);
    }
}

/// The log begins right after its snapshot, else at one. Its last index is the largest
/// that has an entry, else the one before its first.
pub proof fn law_ends_of_the_log(l: LogView, i: int, k: u64)
    ensures
        l.snapshot is None ==> first_kept(l) == 1,
        l.snapshot matches Some(s) ==> first_kept(l) == s.index + 1,
        is_last_index(l, i) && l.entries.contains_key(k) ==> k <= i && l.entries.contains_key(
            i as u64,
        ) && 0 <= i <= u64::MAX,
        (forall|q: u64| !#[trigger] l.entries.contains_key(q)) ==> (is_last_index(l, i) <==> i
            == first_kept(l) - 1),
        l.entries.contains_key(k) && (forall|q: u64| #[trigger]
            l.entries.contains_key(q) ==> q <= k) ==> is_last_index(l, k as int),
{
    if forall|q: u64| !#[trigger] l.entries.contains_key(q) {
        assert(l.entries =~= Map::<u64, EntryView>::empty());
    }
    if l.entries.contains_key(k) {
        assert(!(l.entries =~= Map::<u64, EntryView>::empty()));
    }
}

/// A snapshot is stored with its bytes, index, term, voters and learners, and served
/// back with the same: nobody is leaving or joining in it.
pub proof fn law_snapshot_is_served_as_stored(
    s: Snapshot,
    m: SnapshotMetadata,
    c: ConfState,
    back: Snapshot,
)
    requires
        s.metadata == Some(m),
        m.conf_state == Some(c),
        served_from(back, record_of(s)),
    ensures
        record_of(s).index == m.index && record_of(s).term == m.term,
        record_of(s).voters == c.voters@ && record_of(s).learners == c.learners@,
        record_of(s).data == s.data@,
        back.data@ == s.data@,
        back.metadata matches Some(b) && b.index == m.index && b.term == m.term && (
        b.conf_state matches Some(d) && d.voters@ == c.voters@ && d.learners@ == c.learners@
            && d.voters_outgoing@.len() == 0 && d.learners_next@.len() == 0 && !d.auto_leave),
{
}

/// A snapshot that says nothing of where it stands is stored at zero, with nobody.
pub proof fn law_bare_snapshot_is_stored_at_zero(s: Snapshot)
    ensures
        s.metadata is None ==> record_of(s).index == 0 && record_of(s).term == 0,
        (s.metadata matches Some(m) ==> m.conf_state is None) ==> record_of(s).voters.len() == 0
            && record_of(s).learners.len() == 0,
        s.metadata matches Some(m) ==> record_of(s).index == m.index && record_of(s).term == m.term,
        record_of(s).data == s.data@,
        empty_conf().voters.len() == 0 && empty_conf().learners.len() == 0
            && empty_conf().voters_outgoing.len() == 0 && empty_conf().learners_next.len() == 0
            && !empty_conf().auto_leave,
{
}

/// What is said of an entry, a membership or a stored snapshot is said of each of its
/// fields.
pub proof fn law_log_records_are_seen_whole(
    e: Entry,
    c: ConfState,
    r: SnapshotRecord,
    entries: Seq<Entry>,
    i: int,
)
    requires
        0 <= i < entries.len(),
    ensures
        e@.index == e.index && e@.term == e.term && e@.encoded == e.encoded@,
        c@.voters == c.voters@ && c@.learners == c.learners@ && c@.voters_outgoing
            == c.voters_outgoing@ && c@.learners_next == c.learners_next@ && c@.auto_leave
            == c.auto_leave,
        r@.index == r.index && r@.term == r.term && r@.voters == r.voters@ && r@.learners
            == r.learners@ && r@.data == r.data@,
        entry_views(entries).len() == entries.len(),
        entry_views(entries)[i] == entries[i]@,
{
}

/// The size of entries together is the sum of their encoded sizes.
pub proof fn law_sizes_add_up(entries: Seq<EntryView>, e: EntryView)
    ensures
        total_size(Seq::empty()) == 0,
        total_size(entries.push(e)) == total_size(entries) + e.encoded.len(),
{
    assert(entries.push(e).drop_last() =~= entries);
}

} // verus!
