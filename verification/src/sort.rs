//! Sorting by rank. A rank is a sequence of integers, compared
//! lexicographically, so that times, texts and lists of texts are all ranked
//! alike.

use vstd::prelude::*;

use crate::order::{
    codes, law_first_difference_decides, law_lex_irreflexive, law_lex_total, law_lex_transitive,
    lex_lt,
};

verus! {

/// A value with a place in an order.
pub trait Ranked: Sized {
    spec fn rank(&self) -> Seq<int>;

    /// Whether this value comes strictly before the other.
    fn is_before(&self, other: &Self) -> (r: bool)
        ensures
            r == lex_lt(self.rank(), other.rank()),
    ;
}

/// No element comes before one that stands ahead of it.
pub open spec fn is_sorted<T: Ranked>(s: Seq<T>) -> bool {
    forall|i: int, j: int|
        0 <= i < j < s.len() ==> !lex_lt((#[trigger] s[j]).rank(), (#[trigger] s[i]).rank())
}

/// `r` holds what `v` holds, sorted.
pub open spec fn is_sorting_of<T: Ranked>(v: Seq<T>, r: Seq<T>) -> bool {
    &&& is_sorted(r)
    &&& r.to_multiset() == v.to_multiset()
    &&& r.len() == v.len()
}

/// Those that have this rank.
pub open spec fn has_rank<T: Ranked>(rank: Seq<int>) -> spec_fn(T) -> bool {
    |x: T| x.rank() == rank
}

/// The elements of this rank, in order.
pub open spec fn of_rank<T: Ranked>(s: Seq<T>, rank: Seq<int>) -> Seq<T> {
    s.filter(has_rank::<T>(rank))
}

/// Sort by rank; equal ranks keep their order.
pub fn sort<T: Ranked>(v: Vec<T>) -> (r: Vec<T>)
    ensures
        is_sorting_of(v@, r@),
        forall|rank: Seq<int>| #[trigger] of_rank(r@, rank) == of_rank(v@, rank),
{
    let mut out: Vec<T> = Vec::new();
    let mut rest = v;
    let ghost all = v@;
    proof {
        assert(all.skip(0) =~= all);
        vstd::seq_lib::to_multiset_len(out@);
        assert(out@.to_multiset() =~= vstd::multiset::Multiset::<T>::empty());
        assert(out@.to_multiset().add(rest@.to_multiset()) =~= all.to_multiset());
        reveal(Seq::filter);
        assert forall|rank: Seq<int>| of_rank(out@, rank) + #[trigger] of_rank(rest@, rank)
            == of_rank(all, rank) by {
            assert(of_rank(out@, rank) =~= Seq::<T>::empty());
        }
    }
    while rest.len() > 0
        invariant
            is_sorted(out@),
            out@.to_multiset().add(rest@.to_multiset()) == all.to_multiset(),
            out@.len() + rest@.len() == all.len(),
            forall|rank: Seq<int>|
                of_rank(out@, rank) + #[trigger] of_rank(rest@, rank) == of_rank(all, rank),
        decreases rest@.len(),
    {
        let ghost waiting = rest@;
        let ghost placed = out@;
        let x = rest.remove(0);
        let mut i: usize = 0;
        while i < out.len() && !x.is_before(&out[i])
            invariant
                i <= out@.len(),
                out@ == placed,
                forall|k: int| 0 <= k < i ==> !lex_lt(x.rank(), (#[trigger] out@[k]).rank()),
            decreases out@.len() - i,
        {
            i += 1;
        }
        out.insert(i, x);
        proof {
            let at = i as int;
            if at < placed.len() {
                assert(lex_lt(x.rank(), placed[at].rank()));
            }
            assert forall|a: int, b: int| 0 <= a < b < out@.len() implies !lex_lt(
                (#[trigger] out@[b]).rank(),
                (#[trigger] out@[a]).rank(),
            ) by {
                if b < at {
                    assert(out@[a] == placed[a] && out@[b] == placed[b]);
                } else if b == at {
                    assert(out@[a] == placed[a] && out@[b] == x);
                    if lex_lt(x.rank(), placed[a].rank()) {
                        assert(!lex_lt(x.rank(), placed[a].rank()));
                    }
                } else if a < at {
                    assert(out@[a] == placed[a] && out@[b] == placed[b - 1]);
                } else if a == at {
                    assert(out@[a] == x && out@[b] == placed[b - 1]);
                    if lex_lt(placed[b - 1].rank(), x.rank()) {
                        law_lex_transitive(placed[b - 1].rank(), x.rank(), placed[at].rank());
                        if b - 1 > at {
                            assert(!lex_lt(placed[b - 1].rank(), placed[at].rank()));
                        } else {
                            crate::order::law_lex_irreflexive(placed[at].rank());
                        }
                    }
                } else {
                    assert(out@[a] == placed[a - 1] && out@[b] == placed[b - 1]);
                }
            }
            assert forall|rank: Seq<int>| of_rank(out@, rank) + #[trigger] of_rank(rest@, rank)
                == of_rank(all, rank) by {
                assert(out@ =~= placed.take(at) + seq![x] + placed.skip(at));
                assert(placed =~= placed.take(at) + placed.skip(at));
                assert(waiting =~= seq![x] + rest@);
                assert forall|k: int| 0 <= k < placed.skip(at).len() implies lex_lt(
                    x.rank(),
                    (#[trigger] placed.skip(at)[k]).rank(),
                ) by {
                    let y = placed[at + k];
                    law_lex_total(placed[at].rank(), y.rank());
                    if k > 0 {
                        assert(!lex_lt(y.rank(), placed[at].rank()));
                        if lex_lt(placed[at].rank(), y.rank()) {
                            law_lex_transitive(x.rank(), placed[at].rank(), y.rank());
                        }
                    }
                }
                lemma_insert_behind_equals(placed.take(at), x, placed.skip(at), rest@, rank);
            }
            assert(out@.remove(at) =~= placed);
            vstd::seq_lib::to_multiset_remove(out@, at);
            assert(waiting.remove(0) =~= rest@);
            vstd::seq_lib::to_multiset_remove(waiting, 0);
            assert(out@.contains(out@[at]));
            assert(waiting.contains(waiting[0]));
            vstd::seq_lib::to_multiset_contains(out@, x);
            vstd::seq_lib::to_multiset_contains(waiting, x);
            assert(out@.to_multiset() =~= placed.to_multiset().insert(x));
            assert(waiting.to_multiset() =~= rest@.to_multiset().insert(x));
            assert(out@.to_multiset().add(rest@.to_multiset()) =~= placed.to_multiset().add(
                waiting.to_multiset(),
            ));
        }
    }
    proof {
        vstd::seq_lib::to_multiset_len(rest@);
        assert(rest@.to_multiset() =~= vstd::multiset::Multiset::<T>::empty());
        assert(out@.to_multiset().add(rest@.to_multiset()) =~= out@.to_multiset());
        reveal(Seq::filter);
        assert forall|rank: Seq<int>| #[trigger] of_rank(out@, rank) == of_rank(all, rank) by {
            assert(of_rank(rest@, rank) =~= Seq::<T>::empty());
            assert(of_rank(out@, rank) + of_rank(rest@, rank) =~= of_rank(out@, rank));
        }
    }
    out
}

/// An element put behind all that are not after it keeps its place among its equals.
proof fn lemma_insert_behind_equals<T: Ranked>(
    before: Seq<T>,
    x: T,
    after: Seq<T>,
    rest: Seq<T>,
    rank: Seq<int>,
)
    requires
        forall|k: int| 0 <= k < after.len() ==> lex_lt(x.rank(), (#[trigger] after[k]).rank()),
    ensures
        of_rank(before + seq![x] + after, rank) + of_rank(rest, rank) == of_rank(
            before + after,
            rank,
        ) + of_rank(seq![x] + rest, rank),
{
    let p = has_rank::<T>(rank);
    Seq::filter_distributes_over_add(before + seq![x], after, p);
    Seq::filter_distributes_over_add(before, seq![x], p);
    Seq::filter_distributes_over_add(before, after, p);
    Seq::filter_distributes_over_add(seq![x], rest, p);
    let b = before.filter(p);
    let m = seq![x].filter(p);
    let a = after.filter(p);
    let r = rest.filter(p);
    if x.rank() == rank {
        lemma_none_of_rank(after, rank);
        law_lex_irreflexive(rank);
        assert(a =~= Seq::empty());
    } else {
        reveal_with_fuel(Seq::filter, 2);
        let one = seq![x];
        assert(one.drop_last() =~= Seq::<T>::empty());
        assert(one.last() == x && !p(x));
        assert(m =~= Seq::<T>::empty());
    }
    assert((b + m + a) + r =~= (b + a) + (m + r));
}

proof fn lemma_none_of_rank<T: Ranked>(s: Seq<T>, rank: Seq<int>)
    requires
        forall|k: int| 0 <= k < s.len() ==> lex_lt(rank, (#[trigger] s[k]).rank()),
    ensures
        of_rank(s, rank).len() == 0,
    decreases s.len(),
{
    reveal(Seq::filter);
    if s.len() > 0 {
        law_lex_irreflexive(rank);
        assert(lex_lt(rank, s[s.len() - 1].rank()));
        lemma_none_of_rank(s.drop_last(), rank);
    }
}

impl Ranked for u64 {
    open spec fn rank(&self) -> Seq<int> {
        seq![*self as int]
    }

    fn is_before(&self, other: &Self) -> (r: bool) {
        proof {
            lemma_single(*self as int, *other as int);
        }
        *self < *other
    }
}

/// Single integers are ordered as integers.
pub proof fn lemma_single(a: int, b: int)
    ensures
        lex_lt(seq![a], seq![b]) == (a < b),
{
    assert(seq![a].drop_first() =~= Seq::<int>::empty());
    assert(seq![b].drop_first() =~= Seq::<int>::empty());
    reveal_with_fuel(lex_lt, 2);
}

/// The words as integers.
pub open spec fn words(s: Seq<u32>) -> Seq<int> {
    s.map_values(|w: u32| w as int)
}

/// Whether the words of `a` come strictly before those of `b`.
pub fn words_before(a: &Vec<u32>, b: &Vec<u32>) -> (r: bool)
    ensures
        r == lex_lt(words(a@), words(b@)),
{
    let mut i: usize = 0;
    assert(words(a@).skip(0) =~= words(a@));
    assert(words(b@).skip(0) =~= words(b@));
    loop
        invariant
            i <= a@.len(),
            i <= b@.len(),
            lex_lt(words(a@), words(b@)) == lex_lt(
                words(a@).skip(i as int),
                words(b@).skip(i as int),
            ),
        decreases a@.len() - i,
    {
        if i == b.len() {
            return false;
        }
        if i == a.len() {
            return true;
        }
        proof {
            let x = words(a@).skip(i as int);
            let y = words(b@).skip(i as int);
            assert(x[0] == a@[i as int] as int);
            assert(y[0] == b@[i as int] as int);
            assert(x.drop_first() =~= words(a@).skip(i as int + 1));
            assert(y.drop_first() =~= words(b@).skip(i as int + 1));
        }
        if a[i] != b[i] {
            return a[i] < b[i];
        }
        i += 1;
    }
}

/// The rank of a text that others may follow: its characters, each one up,
/// and a zero behind them, so that a text comes before all it begins.
pub open spec fn text_rank(s: Seq<char>) -> Seq<int> {
    codes(s).map_values(|c: int| c + 1).push(0)
}

/// Put the rank of a text behind `out`.
pub fn push_text_rank(out: &mut Vec<u32>, s: &String)
    ensures
        words(final(out)@) == words(old(out)@) + text_rank(s@),
{
    let n = s.as_str().unicode_len();
    let ghost before = words(out@);
    let ghost goal = codes(s@).map_values(|c: int| c + 1);
    let mut i: usize = 0;
    assert(before + goal.take(0) =~= before);
    while i < n
        invariant
            i <= n,
            n == s@.len(),
            goal == codes(s@).map_values(|c: int| c + 1),
            words(out@) == before + goal.take(i as int),
        decreases n - i,
    {
        let c = s.as_str().get_char(i);
        let w: u32 = c as u32;
        let ghost had = out@;
        out.push(w + 1);
        proof {
            assert(words(out@) =~= words(had).push(w as int + 1));
            assert(goal[i as int] == w as int + 1);
            assert(before + goal.take(i as int + 1) =~= (before + goal.take(i as int)).push(
                goal[i as int],
            ));
        }
        i += 1;
    }
    let ghost had = out@;
    out.push(0);
    proof {
        assert(goal.take(i as int) =~= goal);
        assert(words(out@) =~= words(had).push(0));
        assert(before + goal.push(0) =~= (before + goal).push(0));
    }
}

proof fn lemma_code(c: char)
    ensures
        c as int >= 0,
{
}

/// Where a text ends can be told from its rank, so texts put one behind the
/// other are told apart.
pub proof fn law_text_ranks_are_prefix_free(a: Seq<char>, x: Seq<int>, b: Seq<char>, y: Seq<int>)
    requires
        text_rank(a) + x == text_rank(b) + y,
    ensures
        a == b,
        x == y,
{
    let l = text_rank(a) + x;
    let r = text_rank(b) + y;
    if a.len() < b.len() {
        assert(l[a.len() as int] == 0);
        assert(r[a.len() as int] == b[a.len() as int] as int + 1);
        lemma_code(b[a.len() as int]);
    }
    if b.len() < a.len() {
        assert(r[b.len() as int] == 0);
        assert(l[b.len() as int] == a[b.len() as int] as int + 1);
        lemma_code(a[b.len() as int]);
    }
    assert(a.len() == b.len());
    assert forall|i: int| 0 <= i < a.len() implies a[i] == b[i] by {
        assert(l[i] == a[i] as int + 1);
        assert(text_rank(b)[i] == b[i] as int + 1);
        assert(r[i] == b[i] as int + 1);
    }
    assert(a =~= b);
    let n = a.len() as int + 1;
    assert(x =~= l.skip(n));
    assert(y =~= r.skip(n));
}

/// Sorting neither drops nor repeats anything.
pub proof fn lemma_sorted_same_elements<T>(v: Seq<T>, r: Seq<T>)
    requires
        v.to_multiset() == r.to_multiset(),
        v.no_duplicates(),
    ensures
        r.no_duplicates(),
        forall|x: T| #[trigger] r.contains(x) <==> v.contains(x),
{
    v.lemma_multiset_has_no_duplicates();
    r.lemma_multiset_has_no_duplicates_conv();
    assert forall|x: T| #[trigger] r.contains(x) <==> v.contains(x) by {
        vstd::seq_lib::to_multiset_contains(v, x);
        vstd::seq_lib::to_multiset_contains(r, x);
    }
}

/// A text comes before another where the first character in which they differ has
/// the lower code, or where it ends first, whatever follows them.
pub proof fn law_texts_are_ordered_by_their_codes(
    a: Seq<char>,
    x: Seq<int>,
    b: Seq<char>,
    y: Seq<int>,
    i: int,
)
    requires
        0 <= i <= a.len(),
        i < b.len(),
        forall|j: int| 0 <= j < i ==> #[trigger] a[j] == b[j],
        i == a.len() || (a[i] as int) < (b[i] as int),
    ensures
        lex_lt(text_rank(a) + x, text_rank(b) + y),
        !lex_lt(text_rank(b) + y, text_rank(a) + x),
{
    let l = text_rank(a) + x;
    let r = text_rank(b) + y;
    assert forall|j: int| 0 <= j < i implies #[trigger] l[j] == r[j] by {
        assert(a[j] == b[j]);
    }
    lemma_code(b[i]);
    assert(l[i] < r[i]);
    law_first_difference_decides(l, r, i);
}

/// Sorted values stand in the order of their ranks, and are those that were
/// there, each as often.
pub proof fn law_sorting_reorders<T: Ranked>(v: Seq<T>, r: Seq<T>, i: int, j: int, x: T)
    requires
        is_sorting_of(v, r),
        0 <= i < j < r.len(),
    ensures
        !lex_lt(r[j].rank(), r[i].rank()),
        r.len() == v.len(),
        r.to_multiset().count(x) == v.to_multiset().count(x),
        r.contains(x) <==> v.contains(x),
{
    vstd::seq_lib::to_multiset_contains(v, x);
    vstd::seq_lib::to_multiset_contains(r, x);
}

} // verus!
