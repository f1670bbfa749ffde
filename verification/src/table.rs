//! An ordered table: rows kept sorted by key, one row per key.

use vstd::prelude::*;

verus! {

/// A table key: a value whose order is the order of an integer rank.
pub trait Key: Sized + Copy {
    /// Where the key stands among all keys of its type.
    spec fn rank(self) -> int;

    /// Different keys have different ranks.
    proof fn rank_injective(a: Self, b: Self)
        ensures
            a.rank() == b.rank() ==> a == b,
    ;

    /// Whether this key comes before `other`.
    fn is_before(&self, other: &Self) -> (r: bool)
        ensures
            r == (self.rank() < other.rank()),
    ;
}

impl Key for u64 {
    open spec fn rank(self) -> int {
        self as int
    }

    proof fn rank_injective(a: Self, b: Self) {
    }

    fn is_before(&self, other: &Self) -> (r: bool) {
        *self < *other
    }
}

impl Key for u128 {
    open spec fn rank(self) -> int {
        self as int
    }

    proof fn rank_injective(a: Self, b: Self) {
    }

    fn is_before(&self, other: &Self) -> (r: bool) {
        *self < *other
    }
}

/// The keys of `rows`, in order.
pub open spec fn row_keys<K, V>(rows: Seq<(K, V)>) -> Seq<K> {
    rows.map_values(|r: (K, V)| r.0)
}

/// What `rows` holds, as a map from key to contents.
pub open spec fn row_map<K, V: View>(rows: Seq<(K, V)>) -> Map<K, V::V> {
    Map::new(
        |k: K| row_keys(rows).contains(k),
        |k: K| rows[row_keys(rows).index_of(k)].1@,
    )
}

/// The keys strictly increase.
pub open spec fn rows_sorted<K: Key, V>(rows: Seq<(K, V)>) -> bool {
    forall|i: int, j: int|
        0 <= i < j < rows.len() ==> (#[trigger] rows[i]).0.rank() < (#[trigger] rows[j]).0.rank()
}

/// Rows kept sorted by key, at most one per key.
#[derive(Debug, Clone)]
pub struct Table<K, V> {
    rows: Vec<(K, V)>,
}

impl<K: Key, V: View> View for Table<K, V> {
    type V = Map<K, V::V>;

    closed spec fn view(&self) -> Map<K, V::V> {
        row_map(self.rows@)
    }
}

proof fn lemma_rows<K: Key, V: View>(rows: Seq<(K, V)>)
    requires
        rows_sorted(rows),
    ensures
        forall|i: int|
            0 <= i < rows.len() ==> {
                &&& row_map(rows).contains_key((#[trigger] rows[i]).0)
                &&& row_map(rows)[rows[i].0] == rows[i].1@
            },
        forall|k: K| #[trigger]
            row_map(rows).contains_key(k) ==> exists|i: int|
                0 <= i < rows.len() && (#[trigger] rows[i]).0 == k,
{
    let keys = row_keys(rows);
    assert forall|i: int| 0 <= i < rows.len() implies {
        &&& row_map(rows).contains_key((#[trigger] rows[i]).0)
        &&& row_map(rows)[rows[i].0] == rows[i].1@
    } by {
        let k = rows[i].0;
        assert(keys[i] == k);
        assert(keys.contains(k));
        let j = keys.index_of(k);
        assert(keys[j] == k && rows[j].0 == k);
        if j < i {
            assert(rows[j].0.rank() < rows[i].0.rank());
        } else if i < j {
            assert(rows[i].0.rank() < rows[j].0.rank());
        }
        assert(i == j);
    }
    assert forall|k: K| #[trigger] row_map(rows).contains_key(k) implies exists|i: int|
        0 <= i < rows.len() && (#[trigger] rows[i]).0 == k by {
        let j = keys.index_of(k);
        assert(keys[j] == k);
        assert(rows[j].0 == k);
    }
}

impl<K: Key, V: View> Table<K, V> {
    /// The rows are sorted.
    pub closed spec fn wf(self) -> bool {
        rows_sorted(self.rows@)
    }

    /// The keys, in order.
    pub closed spec fn keys(self) -> Seq<K> {
        row_keys(self.rows@)
    }

    /// The keys strictly increase, and are those of the map.
    pub proof fn lemma_keys(self)
        requires
            self.wf(),
        ensures
            forall|i: int, j: int|
                0 <= i < j < self.keys().len() ==> (#[trigger] self.keys()[i]).rank() < (
                #[trigger] self.keys()[j]).rank(),
            forall|i: int|
                0 <= i < self.keys().len() ==> self@.contains_key(#[trigger] self.keys()[i]),
            forall|k: K|
                self@.contains_key(k) ==> exists|i: int|
                    0 <= i < self.keys().len() && #[trigger] self.keys()[i] == k,
    {
        lemma_rows(self.rows@);
        let rows = self.rows@;
        assert forall|i: int, j: int| 0 <= i < j < self.keys().len() implies (
        #[trigger] self.keys()[i]).rank() < (#[trigger] self.keys()[j]).rank() by {
            assert(rows[i].0.rank() < rows[j].0.rank());
        }
        assert forall|i: int| 0 <= i < self.keys().len() implies self@.contains_key(
            #[trigger] self.keys()[i],
        ) by {
            assert(rows[i].0 == self.keys()[i]);
        }
        assert forall|k: K| self@.contains_key(k) implies exists|i: int|
            0 <= i < self.keys().len() && #[trigger] self.keys()[i] == k by {
            let i = choose|i: int| 0 <= i < rows.len() && (#[trigger] rows[i]).0 == k;
            assert(self.keys()[i] == k);
        }
    }

    /// There are as many rows as keys of the map.
    pub proof fn lemma_len(self)
        requires
            self.wf(),
        ensures
            self@.dom().finite(),
            self@.dom().len() == self.keys().len(),
    {
        self.lemma_keys();
        let keys = self.keys();
        assert(keys.no_duplicates()) by {
            assert forall|i: int, j: int| 0 <= i < keys.len() && 0 <= j < keys.len() && i
                != j implies keys[i] != keys[j] by {
                if i < j {
                    assert(keys[i].rank() < keys[j].rank());
                } else {
                    assert(keys[j].rank() < keys[i].rank());
                }
            }
        }
        keys.unique_seq_to_set();
        assert(self@.dom() =~= keys.to_set()) by {
            assert forall|k: K| self@.dom().contains(k) <==> keys.to_set().contains(k) by {
                if self@.contains_key(k) {
                    let i = choose|i: int| 0 <= i < keys.len() && keys[i] == k;
                    assert(keys.contains(k));
                }
                if keys.contains(k) {
                    let i = choose|i: int| 0 <= i < keys.len() && keys[i] == k;
                    assert(self@.contains_key(keys[i]));
                }
            }
        }
    }

    /// An empty table.
    pub fn new() -> (r: Self)
        ensures
            r.wf(),
            r@ == Map::<K, V::V>::empty(),
            r.keys().len() == 0,
    {
        let r = Table { rows: Vec::new() };
        proof {
            lemma_rows(r.rows@);
            assert(r@ =~= Map::<K, V::V>::empty());
        }
        r
    }

    /// How many rows there are.
    pub fn len(&self) -> (r: usize)
        ensures
            r == self.keys().len(),
    {
        self.rows.len()
    }

    /// The key of the `i`-th row.
    pub fn key_at(&self, i: usize) -> (r: K)
        requires
            i < self.keys().len(),
        ensures
            r == self.keys()[i as int],
    {
        self.rows[i].0
    }

    /// The contents of the `i`-th row.
    pub fn value_at(&self, i: usize) -> (r: &V)
        requires
            self.wf(),
            i < self.keys().len(),
        ensures
            self@.contains_key(self.keys()[i as int]),
            r@ == self@[self.keys()[i as int]],
    {
        proof {
            lemma_rows(self.rows@);
            assert(self.rows@[i as int].0 == self.keys()[i as int]);
        }
        &self.rows[i].1
    }

    /// The first position whose key is not before `k`.
    pub fn seek(&self, k: K) -> (r: usize)
        requires
            self.wf(),
        ensures
            r <= self.keys().len(),
            forall|i: int| 0 <= i < r ==> (#[trigger] self.keys()[i]).rank() < k.rank(),
            forall|i: int|
                r <= i < self.keys().len() ==> (#[trigger] self.keys()[i]).rank() >= k.rank(),
    {
        let mut lo: usize = 0;
        let mut hi: usize = self.rows.len();
        while lo < hi
            invariant
                lo <= hi <= self.rows@.len(),
                self.wf(),
                forall|i: int| 0 <= i < lo ==> (#[trigger] self.rows@[i]).0.rank() < k.rank(),
                forall|i: int|
                    hi <= i < self.rows@.len() ==> (#[trigger] self.rows@[i]).0.rank() >= k.rank(),
            decreases hi - lo,
        {
            let mid: usize = lo + (hi - lo) / 2;
            if self.rows[mid].0.is_before(&k) {
                assert forall|i: int| 0 <= i <= mid implies (#[trigger] self.rows@[i]).0.rank()
                    < k.rank() by {
                    if i < mid {
                        assert(self.rows@[i].0.rank() < self.rows@[mid as int].0.rank());
                    }
                }
                lo = mid + 1;
            } else {
                assert forall|i: int| mid <= i < self.rows@.len() implies (
                #[trigger] self.rows@[i]).0.rank() >= k.rank() by {
                    if mid < i {
                        assert(self.rows@[mid as int].0.rank() < self.rows@[i].0.rank());
                    }
                }
                hi = mid;
            }
        }
        proof {
            assert forall|i: int| 0 <= i < lo implies (#[trigger] self.keys()[i]).rank()
                < k.rank() by {
                assert(self.rows@[i].0 == self.keys()[i]);
            }
            assert forall|i: int| lo <= i < self.keys().len() implies (
            #[trigger] self.keys()[i]).rank() >= k.rank() by {
                assert(self.rows@[i].0 == self.keys()[i]);
            }
        }
        lo
    }

    /// The position of `k`, if it is in the table.
    fn position(&self, k: K) -> (r: Option<usize>)
        requires
            self.wf(),
        ensures
            r matches Some(i) ==> i < self.rows@.len() && self.rows@[i as int].0 == k,
            r is None ==> !self@.contains_key(k),
            r is Some <==> self@.contains_key(k),
    {
        let i = self.seek(k);
        proof {
            lemma_rows(self.rows@);
        }
        if i < self.rows.len() && !k.is_before(&self.rows[i].0) {
            proof {
                assert(self.keys()[i as int] == self.rows@[i as int].0);
                K::rank_injective(self.rows@[i as int].0, k);
            }
            Some(i)
        } else {
            proof {
                if self@.contains_key(k) {
                    let j = choose|j: int|
                        0 <= j < self.rows@.len() && (#[trigger] self.rows@[j]).0 == k;
                    assert(self.keys()[j] == k);
                    if j > i {
                        assert(self.rows@[i as int].0.rank() < self.rows@[j].0.rank());
                    }
                }
            }
            None
        }
    }

    /// The contents under `k`.
    pub fn get(&self, k: K) -> (r: Option<&V>)
        requires
            self.wf(),
        ensures
            r is Some <==> self@.contains_key(k),
            r matches Some(v) ==> v@ == self@[k],
    {
        match self.position(k) {
            None => None,
            Some(i) => {
                proof {
                    lemma_rows(self.rows@);
                }
                Some(&self.rows[i].1)
            },
        }
    }

    /// Whether `k` has a row.
    pub fn contains(&self, k: K) -> (r: bool)
        requires
            self.wf(),
        ensures
            r == self@.contains_key(k),
    {
        self.position(k).is_some()
    }

    /// Put `v` under `k`, replacing what was there.
    pub fn insert(&mut self, k: K, v: V)
        requires
            old(self).wf(),
        ensures
            final(self).wf(),
            final(self)@ == old(self)@.insert(k, v@),
    {
        let ghost before = self.rows@;
        let i = self.seek(k);
        let ghost pos = i as int;
        proof {
            assert forall|a: int| 0 <= a < pos implies (#[trigger] before[a]).0.rank()
                < k.rank() by {
                assert(self.keys()[a] == before[a].0);
            }
            assert forall|a: int| pos <= a < before.len() implies (#[trigger] before[a]).0.rank()
                >= k.rank() by {
                assert(self.keys()[a] == before[a].0);
            }
        }
        if i < self.rows.len() && !k.is_before(&self.rows[i].0) {
            proof {
                K::rank_injective(before[pos].0, k);
            }
            self.rows[i] = (k, v);
            proof {
                assert(self.rows@ =~= before.update(pos, (k, v)));
                assert(rows_sorted(self.rows@));
                lemma_rows(self.rows@);
                lemma_rows(before);
                lemma_insert_map(before, self.rows@, k, v, pos, true);
            }
        } else {
            self.rows.insert(i, (k, v));
            proof {
                assert(self.rows@ =~= before.insert(pos, (k, v)));
                assert forall|a: int, b: int| 0 <= a < b < self.rows@.len() implies (
                #[trigger] self.rows@[a]).0.rank() < (#[trigger] self.rows@[b]).0.rank() by {
                    let oa = if a < pos { a } else { a - 1 };
                    let ob = if b < pos { b } else { b - 1 };
                    if a != pos && b != pos {
                        assert(before[oa].0.rank() < before[ob].0.rank());
                        assert(self.rows@[a] == before[oa]);
                        assert(self.rows@[b] == before[ob]);
                    } else if a == pos {
                        assert(self.rows@[b] == before[ob]);
                        assert(before[pos].0.rank() > k.rank());
                        if ob > pos {
                            assert(before[pos].0.rank() < before[ob].0.rank());
                        }
                    } else {
                        assert(self.rows@[a] == before[oa]);
                    }
                }
                lemma_insert_map(before, self.rows@, k, v, pos, false);
            }
        }
    }

    /// Take out the row under `k`.
    pub fn remove(&mut self, k: K) -> (r: Option<V>)
        requires
            old(self).wf(),
        ensures
            final(self).wf(),
            final(self)@ == old(self)@.remove(k),
            r is Some <==> old(self)@.contains_key(k),
            r matches Some(v) ==> v@ == old(self)@[k],
    {
        let ghost before = self.rows@;
        match self.position(k) {
            None => {
                proof {
                    assert(self@ =~= old(self)@.remove(k));
                }
                None
            },
            Some(i) => {
                let row = self.rows.remove(i);
                proof {
                    let pos = i as int;
                    let after = self.rows@;
                    assert(after =~= before.remove(pos));
                    assert forall|a: int, b: int| 0 <= a < b < after.len() implies (
                    #[trigger] after[a]).0.rank() < (#[trigger] after[b]).0.rank() by {
                        let oa = if a < pos { a } else { a + 1 };
                        let ob = if b < pos { b } else { b + 1 };
                        assert(before[oa].0.rank() < before[ob].0.rank());
                    }
                    lemma_rows(before);
                    lemma_rows(after);
                    assert(row_map(after) =~= row_map(before).remove(k)) by {
                        assert forall|q: K| row_map(after).contains_key(q) <==> row_map(
                            before,
                        ).remove(k).contains_key(q) by {
                            if row_map(after).contains_key(q) {
                                let a = choose|a: int|
                                    0 <= a < after.len() && (#[trigger] after[a]).0 == q;
                                let oa = if a < pos { a } else { a + 1 };
                                assert(before[oa] == after[a]);
                                if oa < pos {
                                    assert(before[oa].0.rank() < before[pos].0.rank());
                                } else {
                                    assert(before[pos].0.rank() < before[oa].0.rank());
                                }
                            }
                            if row_map(before).remove(k).contains_key(q) {
                                assert(row_map(before).contains_key(q));
                                let oa = choose|a: int|
                                    0 <= a < before.len() && (#[trigger] before[a]).0 == q;
                                let a = if oa < pos { oa } else { oa - 1 };
                                assert(after[a] == before[oa]);
                            }
                        }
                        assert forall|q: K| row_map(after).contains_key(q) implies row_map(after)[q]
                            == row_map(before).remove(k)[q] by {
                            let a = choose|a: int|
                                0 <= a < after.len() && (#[trigger] after[a]).0 == q;
                            let oa = if a < pos { a } else { a + 1 };
                            assert(before[oa] == after[a]);
                        }
                    }
                }
                Some(row.1)
            },
        }
    }
}

/// The values of `m` whose keys lie in `low..high`, by key.
pub open spec fn span<V>(m: Map<u64, V>, low: int, high: int) -> Seq<V>
    decreases high - low,
{
    if low >= high {
        Seq::empty()
    } else if 0 <= low <= u64::MAX && m.contains_key(low as u64) {
        seq![m[low as u64]] + span(m, low + 1, high)
    } else {
        span(m, low + 1, high)
    }
}

/// Nothing is found where there is no key.
pub proof fn lemma_span_gap<V>(m: Map<u64, V>, low: int, mid: int, high: int)
    requires
        0 <= low <= mid <= high,
        forall|k: u64| low <= k < mid ==> !#[trigger] m.contains_key(k),
    ensures
        span(m, low, high) == span(m, mid, high),
    decreases mid - low,
{
    if low < mid {
        lemma_span_gap(m, low + 1, mid, high);
    }
}

impl<V: View> Table<u64, V> {
    /// Take out every row from `k` on.
    pub fn remove_from(&mut self, k: u64)
        requires
            old(self).wf(),
        ensures
            final(self).wf(),
            final(self)@ == old(self)@.restrict(Set::new(|q: u64| q < k)),
    {
        while self.len() > 0 && self.key_at(self.len() - 1) >= k
            invariant
                self.wf(),
                forall|q: u64| #[trigger]
                    self@.contains_key(q) ==> old(self)@.contains_key(q) && self@[q] == old(
                        self,
                    )@[q],
                forall|q: u64| #[trigger]
                    old(self)@.contains_key(q) && q < k ==> self@.contains_key(q),
            decreases self.keys().len(),
        {
            let ghost before = *self;
            let last = self.key_at(self.len() - 1);
            self.remove(last);
            proof {
                before.lemma_len();
                before.lemma_keys();
                self.lemma_len();
                assert(self@.dom() =~= before@.dom().remove(last));
            }
        }
        proof {
            self.lemma_keys();
            assert forall|q: u64| #[trigger] self@.contains_key(q) implies q < k by {
                let i = choose|i: int| 0 <= i < self.keys().len() && #[trigger] self.keys()[i] == q;
                if i < self.keys().len() - 1 {
                    assert(self.keys()[i].rank() < self.keys()[self.keys().len() - 1].rank());
                }
            }
            assert(self@ =~= old(self)@.restrict(Set::new(|q: u64| q < k)));
        }
    }

    /// Take out every row up to and with `k`.
    pub fn remove_up_to(&mut self, k: u64)
        requires
            old(self).wf(),
        ensures
            final(self).wf(),
            final(self)@ == old(self)@.restrict(Set::new(|q: u64| q > k)),
    {
        while self.len() > 0 && self.key_at(0) <= k
            invariant
                self.wf(),
                forall|q: u64| #[trigger]
                    self@.contains_key(q) ==> old(self)@.contains_key(q) && self@[q] == old(
                        self,
                    )@[q],
                forall|q: u64| #[trigger]
                    old(self)@.contains_key(q) && q > k ==> self@.contains_key(q),
            decreases self.keys().len(),
        {
            let ghost before = *self;
            let first = self.key_at(0);
            self.remove(first);
            proof {
                before.lemma_len();
                before.lemma_keys();
                self.lemma_len();
                assert(self@.dom() =~= before@.dom().remove(first));
            }
        }
        proof {
            self.lemma_keys();
            assert forall|q: u64| #[trigger] self@.contains_key(q) implies q > k by {
                let i = choose|i: int| 0 <= i < self.keys().len() && #[trigger] self.keys()[i] == q;
                if i > 0 {
                    assert(self.keys()[0].rank() < self.keys()[i].rank());
                }
            }
            assert(self@ =~= old(self)@.restrict(Set::new(|q: u64| q > k)));
        }
    }
}

proof fn lemma_insert_map<K: Key, V: View>(
    before: Seq<(K, V)>,
    after: Seq<(K, V)>,
    k: K,
    v: V,
    pos: int,
    replaced: bool,
)
    requires
        rows_sorted(before),
        rows_sorted(after),
        0 <= pos <= before.len(),
        replaced ==> pos < before.len() && before[pos].0 == k && after == before.update(
            pos,
            (k, v),
        ),
        !replaced ==> after == before.insert(pos, (k, v)),
    ensures
        row_map(after) == row_map(before).insert(k, v@),
{
    lemma_rows(before);
    lemma_rows(after);
    assert(after[pos] == (k, v));
    let goal = row_map(before).insert(k, v@);
    assert forall|q: K| #[trigger] row_map(after).contains_key(q) <==> goal.contains_key(q) by {
        if row_map(after).contains_key(q) && q != k {
            let a = choose|a: int| 0 <= a < after.len() && (#[trigger] after[a]).0 == q;
            let oa = if replaced || a < pos { a } else { a - 1 };
            assert(before[oa] == after[a]);
        }
        if row_map(before).contains_key(q) {
            let oa = choose|a: int| 0 <= a < before.len() && (#[trigger] before[a]).0 == q;
            let a = if replaced || oa < pos { oa } else { oa + 1 };
            if !(replaced && oa == pos) {
                assert(after[a] == before[oa]);
            }
        }
    }
    assert forall|q: K| #[trigger] row_map(after).contains_key(q) implies row_map(after)[q]
        == goal[q] by {
        let a = choose|a: int| 0 <= a < after.len() && (#[trigger] after[a]).0 == q;
        if a != pos {
            let oa = if replaced || a < pos { a } else { a - 1 };
            assert(before[oa] == after[a]);
            if a < pos {
                assert(after[a].0.rank() < after[pos].0.rank());
            } else {
                assert(after[pos].0.rank() < after[a].0.rank());
            }
        }
    }
    assert(row_map(after) =~= goal);
}

/// Numbers rank as numbers do, so that a table meets its rows from the lowest key up.
pub proof fn law_numbers_rank_as_they_are(a: u64, b: u64, c: u128, d: u128)
    ensures
        a.rank() < b.rank() <==> a < b,
        c.rank() < d.rank() <==> c < d,
{
}

/// A span is read key by key: what stands under a key of it is there, in order; a key
/// without a row is passed over.
pub proof fn law_span_is_read_in_order<V>(m: Map<u64, V>, low: u64, high: int)
    ensures
        low >= high ==> span(m, low as int, high).len() == 0,
        low < high && !m.contains_key(low) ==> span(m, low as int, high) == span(m, low + 1, high),
        low < high && m.contains_key(low) ==> span(m, low as int, high).len() > 0 && span(
            m,
            low as int,
            high,
        )[0] == m[low] && span(m, low as int, high).drop_first() == span(m, low + 1, high),
{
    if low < high && m.contains_key(low) {
        assert((seq![m[low]] + span(m, low + 1, high)).drop_first() =~= span(m, low + 1, high));
    }
}

} // verus!
