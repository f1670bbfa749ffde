//! Which rows of the tables a command may change, so that only those are
//! written where the tables are kept.

use vstd::prelude::*;

use crate::consensus::model::{
    expired_claims, next, on_batch, CheckpointKey, IndexKey, TablesView,
};
use crate::consensus::state_machine::Tables;
use crate::consensus::types::{ConsensusCommand, Uid};
use crate::table::{Key, Table};

verus! {

/// The keys of rows. A batch stands for its pending mark too.
#[derive(Debug)]
pub struct Touched {
    pub batches: Vec<u64>,
    pub claims: Vec<Uid>,
    pub index: Vec<IndexKey>,
    pub checkpoints: Vec<CheckpointKey>,
    pub instances: Vec<Uid>,
}

/// The contents of a [`Touched`].
pub ghost struct TouchedView {
    pub batches: Seq<u64>,
    pub claims: Seq<Uid>,
    pub index: Seq<IndexKey>,
    pub checkpoints: Seq<CheckpointKey>,
    pub instances: Seq<Uid>,
}

impl View for Touched {
    type V = TouchedView;

    open spec fn view(&self) -> TouchedView {
        TouchedView {
            batches: self.batches@,
            claims: self.claims@,
            index: self.index@,
            checkpoints: self.checkpoints@,
            instances: self.instances@,
        }
    }
}

/// The two tables hold the same under the key.
pub open spec fn same_at<K, V>(a: Map<K, V>, b: Map<K, V>, k: K) -> bool {
    &&& a.contains_key(k) == b.contains_key(k)
    &&& a.contains_key(k) ==> a[k] == b[k]
}

/// The tables differ at most in the listed rows.
pub open spec fn differ_within(a: TablesView, b: TablesView, listed: TouchedView) -> bool {
    &&& forall|k: u64|
        !listed.batches.contains(k) ==> #[trigger] same_at(a.batches, b.batches, k) && same_at(
            a.pending,
            b.pending,
            k,
        )
    &&& forall|k: Uid|
        !listed.claims.contains(k) ==> #[trigger] same_at(a.claims, b.claims, k)
    &&& forall|k: IndexKey|
        !listed.index.contains(k) ==> #[trigger] same_at(a.index, b.index, k)
    &&& forall|k: CheckpointKey|
        !listed.checkpoints.contains(k) ==> #[trigger] same_at(a.checkpoints, b.checkpoints, k)
    &&& forall|k: Uid|
        !listed.instances.contains(k) ==> #[trigger] same_at(a.instances, b.instances, k)
}

/// The claim's own rows, and those of the batch it is on, are listed.
pub open spec fn lists_claim(listed: TouchedView, s: TablesView, claim_id: Uid) -> bool {
    &&& listed.claims.contains(claim_id)
    &&& s.claims.contains_key(claim_id) ==> {
        let b = s.claims[claim_id].batch_id;
        listed.batches.contains(b) && listed.index.contains(IndexKey { batch_id: b, claim_id })
    }
}

/// Everything the one lists, the other lists too.
pub open spec fn lists_all_of(a: TouchedView, b: TouchedView) -> bool {
    &&& forall|k: u64| #[trigger] b.batches.contains(k) ==> a.batches.contains(k)
    &&& forall|k: Uid| #[trigger] b.claims.contains(k) ==> a.claims.contains(k)
    &&& forall|k: IndexKey| #[trigger] b.index.contains(k) ==> a.index.contains(k)
    &&& forall|k: CheckpointKey| #[trigger]
        b.checkpoints.contains(k) ==> a.checkpoints.contains(k)
    &&& forall|k: Uid| #[trigger] b.instances.contains(k) ==> a.instances.contains(k)
}

/// Every row of the tables is listed.
pub open spec fn lists_every_row(listed: TouchedView, s: TablesView) -> bool {
    &&& forall|k: u64| #[trigger] s.batches.contains_key(k) ==> listed.batches.contains(k)
    &&& forall|k: u64| #[trigger] s.pending.contains_key(k) ==> listed.batches.contains(k)
    &&& forall|k: Uid| #[trigger] s.claims.contains_key(k) ==> listed.claims.contains(k)
    &&& forall|k: IndexKey| #[trigger] s.index.contains_key(k) ==> listed.index.contains(k)
    &&& forall|k: CheckpointKey| #[trigger]
        s.checkpoints.contains_key(k) ==> listed.checkpoints.contains(k)
    &&& forall|k: Uid| #[trigger] s.instances.contains_key(k) ==> listed.instances.contains(k)
}

/// The keys of a table.
fn keys_of<K: Key + Copy, V: View>(table: &Table<K, V>) -> (r: Vec<K>)
    requires
        table.wf(),
    ensures
        r@ == table.keys(),
        forall|k: K| #[trigger] table@.contains_key(k) ==> r@.contains(k),
{
    let mut out: Vec<K> = Vec::new();
    let mut i: usize = 0;
    while i < table.len()
        invariant
            table.wf(),
            0 <= i <= table.keys().len(),
            out@ == table.keys().take(i as int),
        decreases table.keys().len() - i,
    {
        out.push(table.key_at(i));
        assert(table.keys().take(i + 1) =~= table.keys().take(i as int).push(
            table.keys()[i as int],
        ));
        i = i + 1;
    }
    proof {
        assert(table.keys().take(i as int) =~= table.keys());
        table.lemma_keys();
        assert forall|k: K| #[trigger] table@.contains_key(k) implies out@.contains(k) by {
            let j = choose|j: int|
                0 <= j < table.keys().len() && #[trigger] table.keys()[j] == k;
            assert(out@[j] == k);
        }
    }
    out
}

impl Touched {
    /// No row.
    pub fn none() -> (r: Self)
        ensures
            r@ == (TouchedView {
                batches: Seq::empty(),
                claims: Seq::empty(),
                index: Seq::empty(),
                checkpoints: Seq::empty(),
                instances: Seq::empty(),
            }),
    {
        Touched {
            batches: Vec::new(),
            claims: Vec::new(),
            index: Vec::new(),
            checkpoints: Vec::new(),
            instances: Vec::new(),
        }
    }

    fn put_batch(&mut self, id: u64)
        ensures
            final(self)@ == (TouchedView { batches: old(self)@.batches.push(id), ..old(self)@ }),
    {
        self.batches.push(id);
    }

    /// List the claim's own rows and those of the batch it is on.
    fn put_claim(&mut self, db: &Tables, claim_id: Uid)
        requires
            db.wf(),
        ensures
            lists_claim(final(self)@, db@, claim_id),
            lists_all_of(final(self)@, old(self)@),
    {
        let ghost before = self@;
        self.claims.push(claim_id);
        proof {
            lemma_pushed(before.claims, claim_id);
        }
        if let Some(c) = db.claims.get(claim_id) {
            self.batches.push(c.batch_id);
            self.index.push(IndexKey { batch_id: c.batch_id, claim_id });
            proof {
                lemma_pushed(before.batches, c.batch_id);
                lemma_pushed(before.index, IndexKey { batch_id: c.batch_id, claim_id });
            }
        }
    }

    /// The rows the command may change. Every other row is the same after the
    /// command as before it.
    pub fn of(db: &Tables, command: &ConsensusCommand) -> (r: Self)
        requires
            db.wf(),
        ensures
            differ_within(db@, next(db@, command@).0, r@),
    {
        let mut t = Touched::none();
        let ghost s = db@;
        let ghost n = next(db@, command@).0;
        match command {
            ConsensusCommand::RegisterMasterBatch { batch_id, .. } => {
                t.put_batch(*batch_id);
                proof {
                    lemma_pushed(Seq::<u64>::empty(), *batch_id);
                }
            },
            ConsensusCommand::PoisonBatch { batch_id, .. } => {
                t.put_batch(*batch_id);
                proof {
                    lemma_pushed(Seq::<u64>::empty(), *batch_id);
                }
            },
            ConsensusCommand::ClaimRowRange { batch_id, claim_id, .. } => {
                t.put_claim(db, *claim_id);
                let ghost before = t@;
                let k = IndexKey { batch_id: *batch_id, claim_id: *claim_id };
                t.batches.push(*batch_id);
                t.index.push(k);
                proof {
                    lemma_pushed(before.batches, *batch_id);
                    lemma_pushed(before.index, k);
                }
            },
            ConsensusCommand::RenewClaim { claim_id, .. } => t.put_claim(db, *claim_id),
            ConsensusCommand::AckClaim { claim_id, .. } => t.put_claim(db, *claim_id),
            ConsensusCommand::ReleaseClaim { claim_id, .. } => t.put_claim(db, *claim_id),
            ConsensusCommand::Checkpoint { claim_id, stage_idx, .. } => {
                t.put_claim(db, *claim_id);
                let ghost before = t@;
                let k = CheckpointKey { claim_id: *claim_id, stage_idx: *stage_idx };
                t.checkpoints.push(k);
                proof {
                    lemma_pushed(before.checkpoints, k);
                }
            },
            ConsensusCommand::Heartbeat { instance_id, .. } => {
                t.instances.push(*instance_id);
                proof {
                    lemma_pushed(Seq::<Uid>::empty(), *instance_id);
                }
            },
            ConsensusCommand::ReclaimExpired { now_at_propose } => {
                let mut i: usize = 0;
                while i < db.claims.len()
                    invariant
                        db.wf(),
                        s == db@,
                        0 <= i <= db.claims.keys().len(),
                        forall|j: int|
                            0 <= j < i ==> lists_claim(t@, s, #[trigger] db.claims.keys()[j]),
                    decreases db.claims.keys().len() - i,
                {
                    let ghost before = t@;
                    let id = db.claims.key_at(i);
                    t.put_claim(db, id);
                    i = i + 1;
                }
                proof {
                    db.claims.lemma_keys();
                    assert forall|c: Uid| #[trigger] s.claims.contains_key(c) implies lists_claim(
                        t@,
                        s,
                        c,
                    ) by {
                        let j = choose|j: int|
                            0 <= j < db.claims.keys().len() && #[trigger] db.claims.keys()[j] == c;
                        assert(lists_claim(t@, s, db.claims.keys()[j]));
                    }
                    let gone = expired_claims(s, *now_at_propose);
                    assert forall|b: u64| !t@.batches.contains(b) implies #[trigger] same_at(
                        s.batches,
                        n.batches,
                        b,
                    ) && same_at(s.pending, n.pending, b) by {
                        assert(on_batch(s, gone, b) =~= Set::<Uid>::empty());
                    }
                    assert forall|k: IndexKey| !t@.index.contains(k) implies #[trigger] same_at(
                        s.index,
                        n.index,
                        k,
                    ) by {
                        assert(s.claims.contains_key(k.claim_id) ==> lists_claim(
                            t@,
                            s,
                            k.claim_id,
                        ));
                    }
                }
            },
        }
        t
    }

    /// These rows and those.
    pub fn and(self, other: Touched) -> (r: Self)
        ensures
            lists_all_of(r@, self@),
            lists_all_of(r@, other@),
    {
        let mut r = self;
        let mut o = other;
        r.batches.append(&mut o.batches);
        r.claims.append(&mut o.claims);
        r.index.append(&mut o.index);
        r.checkpoints.append(&mut o.checkpoints);
        r.instances.append(&mut o.instances);
        proof {
            lemma_joined(self@.batches, other@.batches);
            lemma_joined(self@.claims, other@.claims);
            lemma_joined(self@.index, other@.index);
            lemma_joined(self@.checkpoints, other@.checkpoints);
            lemma_joined(self@.instances, other@.instances);
        }
        r
    }

    /// Every row of the tables.
    pub fn all(db: &Tables) -> (r: Self)
        requires
            db.wf(),
        ensures
            lists_every_row(r@, db@),
    {
        let mut batches = keys_of(&db.batches);
        let mut pending = keys_of(&db.pending);
        proof {
            lemma_joined(db.batches.keys(), db.pending.keys());
        }
        batches.append(&mut pending);
        Touched {
            batches,
            claims: keys_of(&db.claims),
            index: keys_of(&db.index),
            checkpoints: keys_of(&db.checkpoints),
            instances: keys_of(&db.instances),
        }
    }
}

proof fn lemma_pushed<T>(s: Seq<T>, x: T)
    ensures
        s.push(x).contains(x),
        forall|y: T| #[trigger] s.contains(y) ==> s.push(x).contains(y),
{
    assert(s.push(x)[s.len() as int] == x);
    assert forall|y: T| #[trigger] s.contains(y) implies s.push(x).contains(y) by {
        let i = choose|i: int| 0 <= i < s.len() && s[i] == y;
        assert(s.push(x)[i] == y);
    }
}

proof fn lemma_joined<T>(a: Seq<T>, b: Seq<T>)
    ensures
        forall|y: T| #[trigger] a.contains(y) ==> (a + b).contains(y),
        forall|y: T| #[trigger] b.contains(y) ==> (a + b).contains(y),
{
    assert forall|y: T| #[trigger] a.contains(y) implies (a + b).contains(y) by {
        let i = choose|i: int| 0 <= i < a.len() && a[i] == y;
        assert((a + b)[i] == y);
    }
    assert forall|y: T| #[trigger] b.contains(y) implies (a + b).contains(y) by {
        let i = choose|i: int| 0 <= i < b.len() && b[i] == y;
        assert((a + b)[a.len() + i] == y);
    }
}

/// Whatever replaced the tables, they differ at most in the rows that the old
/// or the new ones hold.
pub proof fn law_every_row_covers_a_replacement(
    a: TablesView,
    b: TablesView,
    before: TouchedView,
    after: TouchedView,
    both: TouchedView,
)
    requires
        lists_every_row(before, a),
        lists_every_row(after, b),
        lists_all_of(both, before),
        lists_all_of(both, after),
    ensures
        differ_within(a, b, both),
{
}

/// A row that is not listed is the same in both tables: there in both or in neither,
/// with the same contents.
pub proof fn law_unlisted_rows_are_the_same(
    a: TablesView,
    b: TablesView,
    listed: TouchedView,
    batch_id: u64,
    claim_id: Uid,
    index: IndexKey,
    checkpoint: CheckpointKey,
    instance_id: Uid,
)
    requires
        differ_within(a, b, listed),
    ensures
        !listed.batches.contains(batch_id) ==> (a.batches.contains_key(batch_id)
            <==> b.batches.contains_key(batch_id)) && (a.batches.contains_key(batch_id)
            ==> a.batches[batch_id] == b.batches[batch_id]) && (a.pending.contains_key(batch_id)
            <==> b.pending.contains_key(batch_id)) && (a.pending.contains_key(batch_id)
            ==> a.pending[batch_id] == b.pending[batch_id]),
        !listed.claims.contains(claim_id) ==> (a.claims.contains_key(claim_id)
            <==> b.claims.contains_key(claim_id)) && (a.claims.contains_key(claim_id)
            ==> a.claims[claim_id] == b.claims[claim_id]),
        !listed.index.contains(index) ==> (a.index.contains_key(index) <==> b.index.contains_key(
            index,
        )) && (a.index.contains_key(index) ==> a.index[index] == b.index[index]),
        !listed.checkpoints.contains(checkpoint) ==> (a.checkpoints.contains_key(checkpoint)
            <==> b.checkpoints.contains_key(checkpoint)) && (a.checkpoints.contains_key(checkpoint)
            ==> a.checkpoints[checkpoint] == b.checkpoints[checkpoint]),
        !listed.instances.contains(instance_id) ==> (a.instances.contains_key(instance_id)
            <==> b.instances.contains_key(instance_id)) && (a.instances.contains_key(instance_id)
            ==> a.instances[instance_id] == b.instances[instance_id]),
{
    assert(!listed.batches.contains(batch_id) ==> same_at(a.batches, b.batches, batch_id));
    assert(!listed.claims.contains(claim_id) ==> same_at(a.claims, b.claims, claim_id));
    assert(!listed.index.contains(index) ==> same_at(a.index, b.index, index));
    assert(!listed.checkpoints.contains(checkpoint) ==> same_at(
        a.checkpoints,
        b.checkpoints,
        checkpoint,
    ));
    assert(!listed.instances.contains(instance_id) ==> same_at(
        a.instances,
        b.instances,
        instance_id,
    ));
}

/// What is listed in a part is listed in the whole, and every row of the tables is in a
/// list of all of them.
pub proof fn law_lists_hold_their_parts(
    whole: TouchedView,
    part: TouchedView,
    s: TablesView,
    batch_id: u64,
    claim_id: Uid,
    index: IndexKey,
    checkpoint: CheckpointKey,
    instance_id: Uid,
)
    ensures
        lists_all_of(whole, part) ==> (part.batches.contains(batch_id) ==> whole.batches.contains(
            batch_id,
        )) && (part.claims.contains(claim_id) ==> whole.claims.contains(claim_id)) && (
        part.index.contains(index) ==> whole.index.contains(index)) && (part.checkpoints.contains(
            checkpoint,
        ) ==> whole.checkpoints.contains(checkpoint)) && (part.instances.contains(instance_id)
            ==> whole.instances.contains(instance_id)),
        lists_every_row(whole, s) ==> (s.batches.contains_key(batch_id) || s.pending.contains_key(
            batch_id,
        ) ==> whole.batches.contains(batch_id)) && (s.claims.contains_key(claim_id)
            ==> whole.claims.contains(claim_id)) && (s.index.contains_key(index)
            ==> whole.index.contains(index)) && (s.checkpoints.contains_key(checkpoint)
            ==> whole.checkpoints.contains(checkpoint)) && (s.instances.contains_key(instance_id)
            ==> whole.instances.contains(instance_id)),
{
}

/// The contents of a list are its five parts.
pub proof fn law_touched_is_seen_whole(t: Touched)
    ensures
        t@.batches == t.batches@,
        t@.claims == t.claims@,
        t@.index == t.index@,
        t@.checkpoints == t.checkpoints@,
        t@.instances == t.instances@,
{
}

} // verus!
