//! Series folded from metric samples: one per name and attributes, with its
//! newest value, its rate and a thinned history.

use vstd::prelude::*;

use crate::order::lex_lt;
use crate::sort::{
    is_sorted, law_text_ranks_are_prefix_free, law_texts_are_ordered_by_their_codes,
    lemma_sorted_same_elements, push_text_rank, sort, text_rank, words, words_before, Ranked,
};

verus! {

/// What a series measures.
#[derive(Debug, Clone, Copy, PartialEq, Eq, Structural)]
pub enum SeriesKind {
    Counter,
    Gauge,
    Histogram,
}

/// One point of one series in a sample. The value is the bits of its number.
#[derive(Debug, Clone)]
pub struct SeriesPoint {
    pub name: String,
    pub kind: SeriesKind,
    pub attrs: Vec<(String, String)>,
    pub value: u64,
    pub count: u64,
}

/// All series at one moment.
#[derive(Debug, Clone)]
pub struct MetricSample {
    pub at_unix_ms: u64,
    pub series: Vec<SeriesPoint>,
}

/// A value at a moment. The value is the bits of its number.
#[derive(Debug, Clone, Copy, PartialEq, Eq, Structural)]
pub struct PointAt {
    pub t: u64,
    pub v: u64,
}

/// A rate per second, by what it is computed from.
#[derive(Debug, Clone, Copy, PartialEq, Eq, Structural)]
pub enum Rate {
    /// The value itself.
    Level(u64),
    /// Nothing to compute a rate from: zero.
    Still,
    /// The change from one value to another over a time; a change downward
    /// counts as zero.
    Change { from: u64, to: u64, over_ms: u64 },
}

/// Name and attributes of a series.
pub ghost struct SeriesKey {
    pub name: Seq<char>,
    pub attrs: Seq<(Seq<char>, Seq<char>)>,
}

/// The texts of attributes.
pub open spec fn attr_views(attrs: Seq<(String, String)>) -> Seq<(Seq<char>, Seq<char>)> {
    attrs.map_values(|p: (String, String)| (p.0@, p.1@))
}

/// One point with its moment.
pub ghost struct Observation {
    pub t: u64,
    pub key: SeriesKey,
    pub kind: SeriesKind,
    pub value: u64,
    pub count: u64,
}

/// A point of a sample, with its moment.
pub open spec fn observed(t: u64, p: SeriesPoint) -> Observation {
    Observation {
        t,
        key: SeriesKey { name: p.name@, attrs: attr_views(p.attrs@) },
        kind: p.kind,
        value: p.value,
        count: p.count,
    }
}

/// The points of one sample.
pub open spec fn sample_points(s: MetricSample) -> Seq<Observation> {
    s.series@.map_values(|p: SeriesPoint| observed(s.at_unix_ms, p))
}

/// The points of all samples, in order.
pub open spec fn observations(samples: Seq<MetricSample>) -> Seq<Observation>
    decreases samples.len(),
{
    if samples.len() == 0 {
        Seq::empty()
    } else {
        observations(samples.drop_last()) + sample_points(samples.last())
    }
}

/// The values of one series over time.
pub open spec fn history(obs: Seq<Observation>, key: SeriesKey) -> Seq<PointAt>
    decreases obs.len(),
{
    if obs.len() == 0 {
        Seq::empty()
    } else if obs.last().key == key {
        history(obs.drop_last(), key).push(PointAt { t: obs.last().t, v: obs.last().value })
    } else {
        history(obs.drop_last(), key)
    }
}

/// The kind a series first came with.
pub open spec fn first_kind(obs: Seq<Observation>, key: SeriesKey) -> Option<SeriesKind>
    decreases obs.len(),
{
    if obs.len() == 0 {
        None
    } else if first_kind(obs.drop_last(), key) is Some {
        first_kind(obs.drop_last(), key)
    } else if obs.last().key == key {
        Some(obs.last().kind)
    } else {
        None
    }
}

/// The count a series last came with.
pub open spec fn last_count(obs: Seq<Observation>, key: SeriesKey) -> u64
    decreases obs.len(),
{
    if obs.len() == 0 {
        0
    } else if obs.last().key == key {
        obs.last().count
    } else {
        last_count(obs.drop_last(), key)
    }
}

/// The series was sampled.
pub open spec fn sampled(obs: Seq<Observation>, key: SeriesKey) -> bool {
    exists|i: int| 0 <= i < obs.len() && (#[trigger] obs[i]).key == key
}

/// The change between the two newest points, where there are two at
/// different times.
pub open spec fn newest_change(h: Seq<PointAt>) -> Rate {
    if h.len() < 2 || h[h.len() - 1].t <= h[h.len() - 2].t {
        Rate::Still
    } else {
        Rate::Change {
            from: h[h.len() - 2].v,
            to: h[h.len() - 1].v,
            over_ms: (h[h.len() - 1].t - h[h.len() - 2].t) as u64,
        }
    }
}

/// The rate of a series by its kind: a gauge's is its value, any other's the
/// newest change.
pub open spec fn series_rate(kind: SeriesKind, h: Seq<PointAt>) -> Rate {
    match kind {
        SeriesKind::Gauge => Rate::Level(h.last().v),
        _ => newest_change(h),
    }
}

/// `a` by `b`, rounded up.
pub open spec fn rounded_up(a: int, b: int) -> int {
    (a + b - 1) / b
}

/// Every `stride`-th point, from the first.
pub open spec fn every_nth(h: Seq<PointAt>, stride: int) -> Seq<PointAt> {
    Seq::new(rounded_up(h.len() as int, stride) as nat, |i: int| h[i * stride])
}

/// A history thinned to at most `max` points, the newest among them: where the
/// newest is none of those taken at regular distances, it is added, or takes
/// the place of the last of them where there is no room.
pub open spec fn thinned(h: Seq<PointAt>, max: int) -> Seq<PointAt> {
    if h.len() <= max {
        h
    } else {
        let stride = rounded_up(h.len() as int, max);
        let some = every_nth(h, stride);
        if (some.len() - 1) * stride == h.len() - 1 {
            some
        } else if some.len() < max {
            some.push(h.last())
        } else {
            some.update(some.len() - 1, h.last())
        }
    }
}

proof fn lemma_rounded_up(a: int, b: int)
    requires
        a > 0,
        b > 0,
    ensures
        rounded_up(a, b) * b >= a,
        (rounded_up(a, b) - 1) * b < a,
        rounded_up(a, b) >= 1,
{
    let n = a + b - 1;
    let q = n / b;
    let rem = n % b;
    assert(n == q * b + rem && 0 <= rem < b) by (nonlinear_arith)
        requires
            q == n / b,
            rem == n % b,
            b > 0,
    ;
    assert((q - 1) * b == q * b - b) by (nonlinear_arith);
    assert(q >= 1) by (nonlinear_arith)
        requires
            q * b + rem == n,
            rem < b,
            n >= b,
            b > 0,
    ;
}

/// A thinned history has at most as many points as asked for, ends with the
/// newest, and holds only points of the history.
pub proof fn law_thinning_keeps_the_newest(h: Seq<PointAt>, max: int)
    requires
        h.len() > 0,
        max > 0,
    ensures
        0 < thinned(h, max).len() <= max,
        thinned(h, max).last() == h.last(),
        forall|i: int| 0 <= i < thinned(h, max).len() ==> h.contains(#[trigger] thinned(h, max)[i]),
{
    let n = h.len() as int;
    if n > max {
        let stride = rounded_up(n, max);
        lemma_rounded_up(n, max);
        lemma_rounded_up(n, stride);
        let k = rounded_up(n, stride);
        assert(k <= max) by (nonlinear_arith)
            requires
                (k - 1) * stride < n,
                stride * max >= n,
                stride >= 1,
        ;
        let some = every_nth(h, stride);
        assert forall|i: int| 0 <= i < some.len() implies h.contains(#[trigger] some[i]) by {
            assert(0 <= i * stride < n) by (nonlinear_arith)
                requires
                    0 <= i < k,
                    (k - 1) * stride < n,
                    stride >= 1,
            ;
            assert(h[i * stride] == some[i]);
        }
        assert(h.contains(h.last()));
        let r = thinned(h, max);
        assert forall|i: int| 0 <= i < r.len() implies h.contains(#[trigger] r[i]) by {
            if i < some.len() && r[i] != h.last() {
                assert(r[i] == some[i]);
            }
        }
        assert(some.last() == h[(k - 1) * stride]);
    } else {
        assert forall|i: int| 0 <= i < h.len() implies h.contains(#[trigger] h[i]) by {}
    }
}

/// Thin a history to at most `max_points` entries, keeping the newest.
pub fn decimate(history: &Vec<PointAt>, max_points: usize) -> (r: Vec<PointAt>)
    requires
        max_points > 0,
    ensures
        r@ == thinned(history@, max_points as int),
        r@.len() <= max_points,
        history@.len() > 0 ==> r@.last() == history@.last(),
{
    proof {
        if history@.len() > 0 {
            law_thinning_keeps_the_newest(history@, max_points as int);
        }
    }
    let n = history.len();
    let mut out: Vec<PointAt> = Vec::new();
    if n <= max_points {
        let mut i: usize = 0;
        while i < n
            invariant
                n == history@.len(),
                i <= n,
                out@ == history@.take(i as int),
            decreases n - i,
        {
            out.push(history[i]);
            assert(history@.take(i as int + 1) =~= history@.take(i as int).push(
                history@[i as int],
            ));
            i += 1;
        }
        assert(history@.take(i as int) =~= history@);
        return out;
    }
    let stride: usize = (n - 1) / max_points + 1;
    proof {
        assert(stride == rounded_up(n as int, max_points as int)) by (nonlinear_arith)
            requires
                stride == (n - 1) / (max_points as int) + 1,
                max_points > 0,
                n > max_points,
        ;
        lemma_rounded_up(n as int, max_points as int);
        lemma_rounded_up(n as int, stride as int);
    }
    let ghost some = every_nth(history@, stride as int);
    let ghost k = rounded_up(n as int, stride as int);
    let mut i: usize = 0;
    let ghost mut taken: int = 0;
    assert(some.take(0) =~= Seq::<PointAt>::empty());
    loop
        invariant_except_break
            i < n,
            0 <= taken < k,
            i == taken * stride,
            out@ == some.take(taken),
        invariant
            n == history@.len(),
            stride >= 1,
            k == rounded_up(n as int, stride as int),
            some == every_nth(history@, stride as int),
            k * stride >= n,
            (k - 1) * stride < n,
        ensures
            out@ == some,
            i == (k - 1) * stride,
        decreases n - i,
    {
        out.push(history[i]);
        proof {
            assert(some[taken] == history@[taken * stride]);
            assert(some.take(taken + 1) =~= some.take(taken).push(some[taken]));
            assert((taken + 1) * stride == taken * stride + stride) by (nonlinear_arith);
        }
        if stride >= n - i {
            proof {
                assert(taken + 1 >= k) by (nonlinear_arith)
                    requires
                        (taken + 1) * stride >= n,
                        (k - 1) * stride < n,
                        stride >= 1,
                ;
                assert(some.take(taken + 1) =~= some);
                assert(taken == k - 1);
            }
            break;
        }
        proof {
            assert(taken + 1 < k) by (nonlinear_arith)
                requires
                    (taken + 1) * stride < n,
                    k * stride >= n,
                    stride >= 1,
            ;
            taken = taken + 1;
        }
        i = i + stride;
    }
    if i != n - 1 {
        let newest = history[n - 1];
        if out.len() < max_points {
            out.push(newest);
        } else {
            let last: usize = out.len() - 1;
            out.set(last, newest);
        }
    }
    out
}

/// The rate across the two newest points of a history.
pub fn rate_of(history: &Vec<PointAt>) -> (r: Rate)
    ensures
        r == newest_change(history@),
{
    let n = history.len();
    if n < 2 {
        return Rate::Still;
    }
    let newest = history[n - 1];
    let previous = history[n - 2];
    if newest.t <= previous.t {
        return Rate::Still;
    }
    Rate::Change { from: previous.v, to: newest.v, over_ms: newest.t - previous.t }
}

/// One series over the samples.
#[derive(Debug)]
pub struct SeriesSummary {
    pub name: String,
    pub kind: SeriesKind,
    pub attrs: Vec<(String, String)>,
    /// The newest value.
    pub value: u64,
    pub count: u64,
    pub rate_per_sec: Rate,
    pub points: Vec<PointAt>,
}

/// The contents of a [`SeriesSummary`].
pub ghost struct SummaryView {
    pub key: SeriesKey,
    pub kind: SeriesKind,
    pub value: u64,
    pub count: u64,
    pub rate: Rate,
    pub points: Seq<PointAt>,
}

impl View for SeriesSummary {
    type V = SummaryView;

    open spec fn view(&self) -> SummaryView {
        SummaryView {
            key: SeriesKey { name: self.name@, attrs: attr_views(self.attrs@) },
            kind: self.kind,
            value: self.value,
            count: self.count,
            rate: self.rate_per_sec,
            points: self.points@,
        }
    }
}

/// What the samples say of one series.
pub open spec fn summary_of(obs: Seq<Observation>, key: SeriesKey, max_points: int) -> SummaryView {
    let h = history(obs, key);
    let kind = first_kind(obs, key)->0;
    SummaryView {
        key,
        kind,
        value: h.last().v,
        count: last_count(obs, key),
        rate: series_rate(kind, h),
        points: thinned(h, max_points),
    }
}

/// The rank of a list of attributes: by the first, then by the next.
pub open spec fn attrs_rank(attrs: Seq<(Seq<char>, Seq<char>)>) -> Seq<int>
    decreases attrs.len(),
{
    if attrs.len() == 0 {
        Seq::empty()
    } else {
        text_rank(attrs[0].0) + text_rank(attrs[0].1) + attrs_rank(attrs.drop_first())
    }
}

/// The rank of a series: by name, then by attributes.
pub open spec fn key_rank(key: SeriesKey) -> Seq<int> {
    text_rank(key.name) + attrs_rank(key.attrs)
}

proof fn lemma_attrs_rank_push(attrs: Seq<(Seq<char>, Seq<char>)>, p: (Seq<char>, Seq<char>))
    ensures
        attrs_rank(attrs.push(p)) == attrs_rank(attrs) + (text_rank(p.0) + text_rank(p.1)),
    decreases attrs.len(),
{
    let longer = attrs.push(p);
    let tail = text_rank(p.0) + text_rank(p.1);
    if attrs.len() == 0 {
        assert(longer.drop_first() =~= Seq::<(Seq<char>, Seq<char>)>::empty());
        assert(longer[0] == p);
        assert(attrs_rank(longer.drop_first()) =~= Seq::<int>::empty());
        assert(attrs_rank(longer) =~= tail);
        assert(attrs_rank(attrs) + tail =~= tail);
    } else {
        assert(longer.drop_first() =~= attrs.drop_first().push(p));
        lemma_attrs_rank_push(attrs.drop_first(), p);
        let head = text_rank(attrs[0].0) + text_rank(attrs[0].1);
        assert(head + (attrs_rank(attrs.drop_first()) + tail) =~= (head + attrs_rank(
            attrs.drop_first(),
        )) + tail);
    }
}

proof fn lemma_attrs_rank_injective(a: Seq<(Seq<char>, Seq<char>)>, b: Seq<(Seq<char>, Seq<char>)>)
    requires
        attrs_rank(a) == attrs_rank(b),
    ensures
        a == b,
    decreases a.len(),
{
    if a.len() == 0 {
        if b.len() > 0 {
            assert(attrs_rank(b).len() > 0);
        }
        assert(a =~= b);
    } else if b.len() == 0 {
        assert(attrs_rank(a).len() > 0);
    } else {
        let x = text_rank(a[0].1) + attrs_rank(a.drop_first());
        let y = text_rank(b[0].1) + attrs_rank(b.drop_first());
        assert(attrs_rank(a) =~= text_rank(a[0].0) + x);
        assert(attrs_rank(b) =~= text_rank(b[0].0) + y);
        law_text_ranks_are_prefix_free(a[0].0, x, b[0].0, y);
        law_text_ranks_are_prefix_free(
            a[0].1,
            attrs_rank(a.drop_first()),
            b[0].1,
            attrs_rank(b.drop_first()),
        );
        lemma_attrs_rank_injective(a.drop_first(), b.drop_first());
        assert(a =~= seq![a[0]] + a.drop_first());
        assert(b =~= seq![b[0]] + b.drop_first());
    }
}

/// Different series have different ranks, so their order leaves no choice.
pub proof fn law_series_order_leaves_no_choice(a: SeriesKey, b: SeriesKey)
    requires
        key_rank(a) == key_rank(b),
    ensures
        a == b,
{
    law_text_ranks_are_prefix_free(a.name, attrs_rank(a.attrs), b.name, attrs_rank(b.attrs));
    lemma_attrs_rank_injective(a.attrs, b.attrs);
}

fn rank_words(name: &String, attrs: &Vec<(String, String)>) -> (r: Vec<u32>)
    ensures
        words(r@) == key_rank(SeriesKey { name: name@, attrs: attr_views(attrs@) }),
{
    let mut out: Vec<u32> = Vec::new();
    push_text_rank(&mut out, name);
    let ghost views = attr_views(attrs@);
    proof {
        assert(words(Seq::<u32>::empty()) + text_rank(name@) =~= text_rank(name@));
        assert(views.take(0) =~= Seq::<(Seq<char>, Seq<char>)>::empty());
        assert(text_rank(name@) + attrs_rank(views.take(0)) =~= text_rank(name@));
    }
    let mut i: usize = 0;
    while i < attrs.len()
        invariant
            i <= attrs@.len(),
            views == attr_views(attrs@),
            words(out@) == text_rank(name@) + attrs_rank(views.take(i as int)),
        decreases attrs@.len() - i,
    {
        let ghost had = words(out@);
        push_text_rank(&mut out, &attrs[i].0);
        push_text_rank(&mut out, &attrs[i].1);
        proof {
            let p = views[i as int];
            assert(views.take(i as int + 1) =~= views.take(i as int).push(p));
            lemma_attrs_rank_push(views.take(i as int), p);
            assert(words(out@) =~= text_rank(name@) + (attrs_rank(views.take(i as int)) + (
            text_rank(p.0) + text_rank(p.1))));
        }
        i += 1;
    }
    assert(views.take(i as int) =~= views);
    out
}

impl Ranked for SeriesSummary {
    open spec fn rank(&self) -> Seq<int> {
        key_rank(self@.key)
    }

    fn is_before(&self, other: &Self) -> (r: bool) {
        let a = rank_words(&self.name, &self.attrs);
        let b = rank_words(&other.name, &other.attrs);
        words_before(&a, &b)
    }
}

fn same_attrs(a: &Vec<(String, String)>, b: &Vec<(String, String)>) -> (r: bool)
    ensures
        r == (attr_views(a@) == attr_views(b@)),
{
    if a.len() != b.len() {
        assert(attr_views(a@).len() != attr_views(b@).len());
        return false;
    }
    let mut i: usize = 0;
    while i < a.len()
        invariant
            a@.len() == b@.len(),
            i <= a@.len(),
            forall|j: int| 0 <= j < i ==> #[trigger] attr_views(a@)[j] == attr_views(b@)[j],
        decreases a@.len() - i,
    {
        let same = a[i].0 == b[i].0 && a[i].1 == b[i].1;
        if !same {
            assert(attr_views(a@)[i as int] != attr_views(b@)[i as int]);
            return false;
        }
        assert(attr_views(a@)[i as int] == attr_views(b@)[i as int]);
        i += 1;
    }
    assert(attr_views(a@) =~= attr_views(b@));
    true
}

pub(crate) fn copy_attrs(a: &Vec<(String, String)>) -> (r: Vec<(String, String)>)
    ensures
        attr_views(r@) == attr_views(a@),
{
    let mut out: Vec<(String, String)> = Vec::new();
    let mut i: usize = 0;
    while i < a.len()
        invariant
            i <= a@.len(),
            attr_views(out@) == attr_views(a@).take(i as int),
        decreases a@.len() - i,
    {
        let ghost had = out@;
        out.push((a[i].0.clone(), a[i].1.clone()));
        proof {
            assert(attr_views(out@) =~= attr_views(had).push(attr_views(a@)[i as int]));
            assert(attr_views(a@).take(i as int + 1) =~= attr_views(a@).take(i as int).push(
                attr_views(a@)[i as int],
            ));
        }
        i += 1;
    }
    assert(attr_views(a@).take(i as int) =~= attr_views(a@));
    out
}

struct Group {
    name: String,
    attrs: Vec<(String, String)>,
    kind: SeriesKind,
    count: u64,
    points: Vec<PointAt>,
}

spec fn group_key(g: Group) -> SeriesKey {
    SeriesKey { name: g.name@, attrs: attr_views(g.attrs@) }
}

spec fn group_is(g: Group, obs: Seq<Observation>) -> bool {
    &&& g.points@ == history(obs, group_key(g))
    &&& g.points@.len() > 0
    &&& first_kind(obs, group_key(g)) == Some(g.kind)
    &&& g.count == last_count(obs, group_key(g))
}

spec fn grouped(groups: Seq<Group>, obs: Seq<Observation>) -> bool {
    &&& forall|a: int| 0 <= a < groups.len() ==> group_is(#[trigger] groups[a], obs)
    &&& forall|a: int, b: int|
        0 <= a < b < groups.len() ==> group_key(#[trigger] groups[a]) != group_key(
            #[trigger] groups[b],
        )
    &&& forall|i: int|
        0 <= i < obs.len() ==> exists|a: int|
            0 <= a < groups.len() && group_key(#[trigger] groups[a]) == (#[trigger] obs[i]).key
}

proof fn lemma_unsampled(obs: Seq<Observation>, key: SeriesKey)
    requires
        forall|i: int| 0 <= i < obs.len() ==> (#[trigger] obs[i]).key != key,
    ensures
        history(obs, key).len() == 0,
        first_kind(obs, key) is None,
    decreases obs.len(),
{
    if obs.len() > 0 {
        assert(obs[obs.len() - 1].key != key);
        lemma_unsampled(obs.drop_last(), key);
    }
}

fn find_group(groups: &Vec<Group>, point: &SeriesPoint) -> (r: Option<usize>)
    ensures
        match r {
            Some(a) => a < groups@.len() && group_key(groups@[a as int]) == (SeriesKey {
                name: point.name@,
                attrs: attr_views(point.attrs@),
            }),
            None => forall|a: int|
                0 <= a < groups@.len() ==> group_key(#[trigger] groups@[a]) != (SeriesKey {
                    name: point.name@,
                    attrs: attr_views(point.attrs@),
                }),
        },
{
    let mut a: usize = 0;
    while a < groups.len()
        invariant
            a <= groups@.len(),
            forall|b: int|
                0 <= b < a ==> group_key(#[trigger] groups@[b]) != (SeriesKey {
                    name: point.name@,
                    attrs: attr_views(point.attrs@),
                }),
        decreases groups@.len() - a,
    {
        if groups[a].name == point.name && same_attrs(&groups[a].attrs, &point.attrs) {
            return Some(a);
        }
        a += 1;
    }
    None
}

fn add_point(groups: Vec<Group>, t: u64, point: &SeriesPoint, Ghost(obs): Ghost<Seq<Observation>>) -> (r:
    Vec<Group>)
    requires
        grouped(groups@, obs),
    ensures
        grouped(r@, obs.push(observed(t, *point))),
{
    let mut groups = groups;
    let ghost o = observed(t, *point);
    let ghost key = o.key;
    let ghost now = obs.push(o);
    let ghost before = groups@;
    proof {
        assert(now.drop_last() =~= obs);
    }
    match find_group(&groups, point) {
        Some(a) => {
            let mut g = groups.remove(a);
            g.count = point.count;
            g.points.push(PointAt { t, v: point.value });
            groups.insert(a, g);
            proof {
                assert(groups@ =~= before.update(a as int, g));
                assert(group_key(g) == key);
                assert(group_is(before[a as int], obs));
                assert forall|b: int| 0 <= b < groups@.len() implies group_is(
                    #[trigger] groups@[b],
                    now,
                ) by {
                    if b != a {
                        assert(groups@[b] == before[b]);
                        assert(group_key(before[b]) != key) by {
                            if b < a {
                                assert(group_key(before[b]) != group_key(before[a as int]));
                            } else {
                                assert(group_key(before[a as int]) != group_key(before[b]));
                            }
                        }
                    }
                }
                assert forall|b: int, c: int| 0 <= b < c < groups@.len() implies group_key(
                    #[trigger] groups@[b],
                ) != group_key(#[trigger] groups@[c]) by {
                    assert(group_key(before[b]) != group_key(before[c]));
                    assert(group_key(groups@[b]) == group_key(before[b]));
                    assert(group_key(groups@[c]) == group_key(before[c]));
                }
                assert forall|i: int| 0 <= i < now.len() implies exists|b: int|
                    0 <= b < groups@.len() && group_key(#[trigger] groups@[b]) == (
                    #[trigger] now[i]).key by {
                    if i < obs.len() {
                        assert(now[i] == obs[i]);
                        let b = choose|b: int|
                            0 <= b < before.len() && group_key(#[trigger] before[b]) == obs[i].key;
                        assert(group_key(groups@[b]) == now[i].key);
                    } else {
                        assert(group_key(groups@[a as int]) == now[i].key);
                    }
                }
            }
        },
        None => {
            let mut points: Vec<PointAt> = Vec::new();
            points.push(PointAt { t, v: point.value });
            let g = Group {
                name: point.name.clone(),
                attrs: copy_attrs(&point.attrs),
                kind: point.kind,
                count: point.count,
                points,
            };
            groups.push(g);
            proof {
                assert(group_key(g) == key);
                assert forall|i: int| 0 <= i < obs.len() implies (#[trigger] obs[i]).key != key by {
                    let b = choose|b: int|
                        0 <= b < before.len() && group_key(#[trigger] before[b]) == obs[i].key;
                    assert(group_key(before[b]) != key);
                }
                lemma_unsampled(obs, key);
                assert(history(now, key) =~= g.points@);
                assert forall|b: int| 0 <= b < groups@.len() implies group_is(
                    #[trigger] groups@[b],
                    now,
                ) by {
                    if b < before.len() {
                        assert(groups@[b] == before[b]);
                    }
                }
                assert forall|b: int, c: int| 0 <= b < c < groups@.len() implies group_key(
                    #[trigger] groups@[b],
                ) != group_key(#[trigger] groups@[c]) by {
                    assert(groups@[b] == before[b]);
                    if c < before.len() {
                        assert(groups@[c] == before[c]);
                    }
                }
                assert forall|i: int| 0 <= i < now.len() implies exists|b: int|
                    0 <= b < groups@.len() && group_key(#[trigger] groups@[b]) == (
                    #[trigger] now[i]).key by {
                    if i < obs.len() {
                        assert(now[i] == obs[i]);
                        let b = choose|b: int|
                            0 <= b < before.len() && group_key(#[trigger] before[b]) == obs[i].key;
                        assert(group_key(groups@[b]) == now[i].key);
                    } else {
                        assert(group_key(groups@[before.len() as int]) == now[i].key);
                    }
                }
            }
        },
    }
    groups
}

/// The series the samples hold: each once, in order, with what the samples
/// say of it.
pub open spec fn is_summary(
    r: Seq<SeriesSummary>,
    obs: Seq<Observation>,
    max_points: int,
) -> bool {
    &&& is_sorted(r)
    &&& forall|i: int|
        0 <= i < r.len() ==> sampled(obs, (#[trigger] r[i])@.key) && r[i]@ == summary_of(
            obs,
            r[i]@.key,
            max_points,
        )
    &&& forall|i: int, j: int|
        0 <= i < j < r.len() ==> (#[trigger] r[i])@.key != (#[trigger] r[j])@.key
    &&& forall|key: SeriesKey| #[trigger]
        sampled(obs, key) ==> exists|i: int| 0 <= i < r.len() && (#[trigger] r[i])@.key == key
}

proof fn lemma_history_sampled(obs: Seq<Observation>, key: SeriesKey)
    requires
        history(obs, key).len() > 0,
    ensures
        sampled(obs, key),
{
    if !sampled(obs, key) {
        assert forall|i: int| 0 <= i < obs.len() implies (#[trigger] obs[i]).key != key by {}
        lemma_unsampled(obs, key);
    }
}

/// Fold every sample into one summary per name and attributes.
pub fn summarize_series(samples: &Vec<MetricSample>, max_points: usize) -> (r: Vec<SeriesSummary>)
    requires
        max_points > 0,
    ensures
        is_summary(r@, observations(samples@), max_points as int),
{
    let mut groups: Vec<Group> = Vec::new();
    let mut i: usize = 0;
    let ghost mut obs: Seq<Observation> = Seq::empty();
    assert(samples@.take(0) =~= Seq::<MetricSample>::empty());
    while i < samples.len()
        invariant
            i <= samples@.len(),
            obs == observations(samples@.take(i as int)),
            grouped(groups@, obs),
        decreases samples@.len() - i,
    {
        let sample = &samples[i];
        let ghost before = obs;
        let ghost pts = sample_points(*sample);
        let mut j: usize = 0;
        assert(before + pts.take(0) =~= before);
        while j < sample.series.len()
            invariant
                j <= sample.series@.len(),
                pts == sample_points(*sample),
                obs == before + pts.take(j as int),
                grouped(groups@, obs),
            decreases sample.series@.len() - j,
        {
            groups = add_point(groups, sample.at_unix_ms, &sample.series[j], Ghost(obs));
            proof {
                assert(pts.take(j as int + 1) =~= pts.take(j as int).push(pts[j as int]));
                assert(before + pts.take(j as int + 1) =~= obs.push(pts[j as int]));
                obs = before + pts.take(j as int + 1);
            }
            j += 1;
        }
        proof {
            assert(pts.take(j as int) =~= pts);
            assert(samples@.take(i as int + 1).drop_last() =~= samples@.take(i as int));
            assert(samples@.take(i as int + 1).last() == *sample);
        }
        i += 1;
    }
    assert(samples@.take(i as int) =~= samples@);
    let ghost all = groups@;
    let mut out: Vec<SeriesSummary> = Vec::new();
    while groups.len() > 0
        invariant
            max_points > 0,
            grouped(all, obs),
            groups@.len() <= all.len(),
            groups@ == all.skip(all.len() - groups@.len()),
            out@.len() == all.len() - groups@.len(),
            forall|a: int|
                0 <= a < out@.len() ==> (#[trigger] out@[a])@ == summary_of(
                    obs,
                    group_key(all[a]),
                    max_points as int,
                ),
        decreases groups@.len(),
    {
        let ghost waiting = groups@;
        let g = groups.remove(0);
        proof {
            assert(g == all[out@.len() as int]);
            assert(group_is(all[out@.len() as int], obs));
            assert(groups@ =~= all.skip(all.len() - groups@.len()));
        }
        let newest = g.points[g.points.len() - 1];
        let rate = match g.kind {
            SeriesKind::Gauge => Rate::Level(newest.v),
            _ => rate_of(&g.points),
        };
        let points = decimate(&g.points, max_points);
        out.push(
            SeriesSummary {
                name: g.name,
                kind: g.kind,
                attrs: g.attrs,
                value: newest.v,
                count: g.count,
                rate_per_sec: rate,
                points,
            },
        );
    }
    let ghost unsorted = out@;
    let sorted = sort(out);
    proof {
        assert forall|a: int| 0 <= a < unsorted.len() implies (#[trigger] unsorted[a])@.key
            == group_key(all[a]) by {}
        assert(unsorted.no_duplicates()) by {
            assert forall|a: int, b: int|
                0 <= a < unsorted.len() && 0 <= b < unsorted.len() && a != b implies unsorted[a]
                != unsorted[b] by {
                assert(unsorted[a]@.key == group_key(all[a]));
                assert(unsorted[b]@.key == group_key(all[b]));
                if a < b {
                    assert(group_key(all[a]) != group_key(all[b]));
                } else {
                    assert(group_key(all[b]) != group_key(all[a]));
                }
            }
        }
        lemma_sorted_same_elements(unsorted, sorted@);
        assert forall|k: int| 0 <= k < sorted@.len() implies sampled(
            obs,
            (#[trigger] sorted@[k])@.key,
        ) && sorted@[k]@ == summary_of(obs, sorted@[k]@.key, max_points as int) by {
            assert(sorted@.contains(sorted@[k]));
            assert(unsorted.contains(sorted@[k]));
            let a = unsorted.index_of(sorted@[k]);
            assert(unsorted[a]@ == summary_of(obs, group_key(all[a]), max_points as int));
            assert(group_is(all[a], obs));
            lemma_history_sampled(obs, group_key(all[a]));
        }
        assert forall|k: int, l: int| 0 <= k < l < sorted@.len() implies (
        #[trigger] sorted@[k])@.key != (#[trigger] sorted@[l])@.key by {
            assert(sorted@.contains(sorted@[k]) && sorted@.contains(sorted@[l]));
            assert(unsorted.contains(sorted@[k]) && unsorted.contains(sorted@[l]));
            let a = unsorted.index_of(sorted@[k]);
            let b = unsorted.index_of(sorted@[l]);
            assert(sorted@[k] != sorted@[l]);
            assert(a != b);
            assert(unsorted[a]@.key == group_key(all[a]));
            assert(unsorted[b]@.key == group_key(all[b]));
            if a < b {
                assert(group_key(all[a]) != group_key(all[b]));
            } else {
                assert(group_key(all[b]) != group_key(all[a]));
            }
        }
        assert forall|key: SeriesKey| #[trigger] sampled(obs, key) implies exists|k: int|
            0 <= k < sorted@.len() && (#[trigger] sorted@[k])@.key == key by {
            let i2 = choose|i2: int| 0 <= i2 < obs.len() && (#[trigger] obs[i2]).key == key;
            let a = choose|a: int| 0 <= a < all.len() && group_key(#[trigger] all[a]) == obs[i2].key;
            assert(unsorted.contains(unsorted[a]));
            assert(sorted@.contains(unsorted[a]));
            let k = sorted@.index_of(unsorted[a]);
            assert(sorted@[k]@.key == key);
        }
    }
    sorted
}

/// The samples since `cutoff`, in order.
pub open spec fn since(samples: Seq<MetricSample>, cutoff: u64) -> Seq<MetricSample> {
    samples.filter(|s: MetricSample| s.at_unix_ms >= cutoff)
}

/// Keep the samples since `cutoff`.
pub fn recent_samples(samples: Vec<MetricSample>, cutoff: u64) -> (r: Vec<MetricSample>)
    ensures
        r@ == since(samples@, cutoff),
{
    let mut rest = samples;
    let ghost all = samples@;
    let ghost keep = |s: MetricSample| s.at_unix_ms >= cutoff;
    let mut out: Vec<MetricSample> = Vec::new();
    proof {
        reveal(Seq::filter);
        assert(all.take(0) =~= Seq::<MetricSample>::empty());
    }
    while rest.len() > 0
        invariant
            keep == (|s: MetricSample| s.at_unix_ms >= cutoff),
            rest@.len() <= all.len(),
            rest@ == all.skip(all.len() - rest@.len()),
            out@ == all.take(all.len() - rest@.len()).filter(keep),
        decreases rest@.len(),
    {
        let ghost at = all.len() - rest@.len();
        let s = rest.remove(0);
        proof {
            reveal(Seq::filter);
            assert(s == all[at]);
            assert(rest@ =~= all.skip(all.len() - rest@.len()));
            assert(all.take(at + 1).drop_last() =~= all.take(at));
            assert(all.take(at + 1).last() == s);
        }
        if s.at_unix_ms >= cutoff {
            out.push(s);
        }
    }
    assert(all.take(all.len() as int) =~= all);
    out
}

/// The rate of a history is told by its two newest points alone: how far the value
/// went from one to the other, over the time between them. Points of one moment,
/// or a single point, tell none.
pub proof fn law_rate_is_of_the_two_newest(h: Seq<PointAt>, p: PointAt, q: PointAt)
    ensures
        newest_change(h.push(p).push(q)) == newest_change(seq![p, q]),
        q.t > p.t ==> newest_change(h.push(p).push(q)) == (Rate::Change {
            from: p.v,
            to: q.v,
            over_ms: (q.t - p.t) as u64,
        }),
        q.t <= p.t ==> newest_change(h.push(p).push(q)) == Rate::Still,
        newest_change(seq![p]) == Rate::Still,
        newest_change(Seq::empty()) == Rate::Still,
{
}

/// The rate of a gauge is the value it has; that of anything else is its newest
/// change.
pub proof fn law_rate_by_kind(h: Seq<PointAt>, p: PointAt)
    ensures
        series_rate(SeriesKind::Gauge, h.push(p)) == Rate::Level(p.v),
        series_rate(SeriesKind::Counter, h) == newest_change(h),
        series_rate(SeriesKind::Histogram, h) == newest_change(h),
{
}

/// A point read of a series joins the history of that series, at its moment and
/// with its value, and no other history. The series keeps the kind it came with
/// first, and has the count it came with last.
pub proof fn law_point_joins_its_series(obs: Seq<Observation>, o: Observation, other: SeriesKey)
    requires
        other != o.key,
    ensures
        history(obs.push(o), o.key) == history(obs, o.key).push(PointAt { t: o.t, v: o.value }),
        history(obs.push(o), other) == history(obs, other),
        last_count(obs.push(o), o.key) == o.count,
        last_count(obs.push(o), other) == last_count(obs, other),
        first_kind(obs.push(o), o.key) == if sampled(obs, o.key) {
            first_kind(obs, o.key)
        } else {
            Some(o.kind)
        },
        first_kind(obs.push(o), other) == first_kind(obs, other),
        history(Seq::empty(), other) == Seq::<PointAt>::empty(),
        last_count(Seq::empty(), other) == 0,
{
    assert(obs.push(o).drop_last() =~= obs);
    lemma_first_kind_sampled(obs, o.key);
}

proof fn lemma_first_kind_sampled(obs: Seq<Observation>, key: SeriesKey)
    ensures
        first_kind(obs, key) is Some <==> sampled(obs, key),
    decreases obs.len(),
{
    if obs.len() > 0 {
        let front = obs.drop_last();
        lemma_first_kind_sampled(front, key);
        if sampled(front, key) {
            let i = choose|i: int| 0 <= i < front.len() && (#[trigger] front[i]).key == key;
            assert(obs[i].key == key);
        }
        if obs.last().key == key {
            assert(obs[obs.len() - 1].key == key);
        }
        if sampled(obs, key) && obs.last().key != key {
            let i = choose|i: int| 0 <= i < obs.len() && (#[trigger] obs[i]).key == key;
            assert(front[i].key == key);
        }
    }
}

/// The points of a sample are read one by one, each at the moment of the sample,
/// with its name, attributes, kind, value and count; those of later samples
/// follow.
pub proof fn law_samples_are_read_in_order(
    samples: Seq<MetricSample>,
    s: MetricSample,
    i: int,
    a: int,
)
    requires
        0 <= i < s.series@.len(),
    ensures
        ({
            let obs = observations(samples.push(s));
            let o = obs[observations(samples).len() + i];
            let p = s.series@[i];
            &&& obs.len() == observations(samples).len() + s.series@.len()
            &&& obs.take(observations(samples).len() as int) == observations(samples)
            &&& o.t == s.at_unix_ms
            &&& o.key.name == p.name@
            &&& o.key.attrs.len() == p.attrs@.len()
            &&& 0 <= a < p.attrs@.len() ==> o.key.attrs[a] == (p.attrs@[a].0@, p.attrs@[a].1@)
            &&& o.kind == p.kind
            &&& o.value == p.value
            &&& o.count == p.count
            &&& observations(Seq::empty()) == Seq::<Observation>::empty()
        }),
{
    let all = samples.push(s);
    assert(all.drop_last() =~= samples);
    assert(observations(all) == observations(samples) + sample_points(s));
    assert(observations(all).take(observations(samples).len() as int) =~= observations(samples));
}

/// Of each series that was sampled there is one summary, with its newest value and
/// count, its first kind, the rate of its history and its thinned history. The
/// summaries stand in the order of their names and attributes.
pub proof fn law_every_series_is_summed_up(
    r: Seq<SeriesSummary>,
    obs: Seq<Observation>,
    o: Observation,
    max_points: int,
    i: int,
    j: int,
)
    requires
        is_summary(r, obs.push(o), max_points),
        max_points > 0,
        0 <= i < r.len(),
    ensures
        exists|k: int| 0 <= k < r.len() && (#[trigger] r[k])@.key == o.key,
        i < j < r.len() ==> r[i]@.key != r[j]@.key && !lex_lt(
            key_rank(r[j]@.key),
            key_rank(r[i]@.key),
        ),
        sampled(obs.push(o), r[i]@.key),
        r[i]@.key == o.key ==> {
            &&& r[i].value == o.value
            &&& r[i].count == o.count
            &&& r[i].points@.last() == (PointAt { t: o.t, v: o.value })
        },
        ({
            let h = history(obs.push(o), r[i]@.key);
            &&& Some(r[i].kind) == first_kind(obs.push(o), r[i]@.key)
            &&& r[i].value == h.last().v
            &&& r[i].count == last_count(obs.push(o), r[i]@.key)
            &&& r[i].kind == SeriesKind::Gauge ==> r[i].rate_per_sec == Rate::Level(h.last().v)
            &&& r[i].kind != SeriesKind::Gauge ==> r[i].rate_per_sec == newest_change(h)
            &&& r[i].points@ == thinned(h, max_points)
        }),
{
    let all = obs.push(o);
    assert(all.drop_last() =~= obs);
    assert(all[all.len() - 1].key == o.key);
    assert(sampled(all, o.key));
    assert(r[i]@ == summary_of(all, r[i]@.key, max_points));
    lemma_first_kind_sampled(all, r[i]@.key);
    if r[i]@.key == o.key {
        law_thinning_keeps_the_newest(history(all, o.key), max_points);
    }
    if i < j < r.len() {
        assert(r[j].rank() == key_rank(r[j]@.key));
        assert(r[i].rank() == key_rank(r[i]@.key));
    }
}

/// A summary is known by its name and its attributes, in order.
pub proof fn law_summary_is_seen_whole(r: SeriesSummary, a: int)
    ensures
        r@.key.name == r.name@,
        r@.key.attrs.len() == r.attrs@.len(),
        0 <= a < r.attrs@.len() ==> r@.key.attrs[a] == (r.attrs@[a].0@, r.attrs@[a].1@),
        r@.kind == r.kind && r@.value == r.value && r@.count == r.count && r@.rate
            == r.rate_per_sec && r@.points == r.points@,
{
}

/// Series are ordered by name first: by the first character in which the names
/// differ.
pub proof fn law_series_are_ordered_by_name(a: SeriesKey, b: SeriesKey, i: int)
    requires
        0 <= i <= a.name.len(),
        i < b.name.len(),
        forall|j: int| 0 <= j < i ==> #[trigger] a.name[j] == b.name[j],
        i == a.name.len() || (a.name[i] as int) < (b.name[i] as int),
    ensures
        lex_lt(key_rank(a), key_rank(b)),
        !lex_lt(key_rank(b), key_rank(a)),
{
    law_texts_are_ordered_by_their_codes(
        a.name,
        attrs_rank(a.attrs),
        b.name,
        attrs_rank(b.attrs),
        i,
    );
}

/// A history that is short enough is shown whole. Of a longer one, all points but
/// the newest lie at one distance from each other, from the first on: the
/// shortest at which there are not too many.
pub proof fn law_thinning_is_even(h: Seq<PointAt>, max: int, distance: int, i: int)
    requires
        max > 0,
        h.len() > max,
        (distance - 1) * max < h.len() <= distance * max,
        0 <= i < thinned(h, max).len() - 1,
    ensures
        thinned(h, max)[i] == h[i * distance],
        thinned(h.take(max), max) == h.take(max),
        thinned(h, max).len() * distance >= h.len(),
{
    let n = h.len() as int;
    let stride = rounded_up(n, max);
    lemma_rounded_up(n, max);
    assert(stride == distance) by (nonlinear_arith)
        requires
            (distance - 1) * max < n,
            n <= distance * max,
            stride * max >= n,
            (stride - 1) * max < n,
            max > 0,
    ;
    lemma_rounded_up(n, stride);
    let some = every_nth(h, stride);
    let k = rounded_up(n, stride);
    assert(some.len() == k);
    assert(some[i] == h[i * stride]);
    assert(thinned(h, max).len() >= k);
    let m = thinned(h, max).len() as int;
    assert(m * distance >= n) by (nonlinear_arith)
        requires
            m >= k,
            k * stride >= n,
            stride == distance,
            stride >= 1,
    ;
}

/// A sample is kept where it is from the cutoff or later, in its place.
pub proof fn law_recent_samples_are_kept(
    samples: Seq<MetricSample>,
    s: MetricSample,
    cutoff: u64,
)
    ensures
        since(samples.push(s), cutoff) == if s.at_unix_ms >= cutoff {
            since(samples, cutoff).push(s)
        } else {
            since(samples, cutoff)
        },
        since(Seq::empty(), cutoff) == Seq::<MetricSample>::empty(),
{
    reveal(Seq::filter);
    assert(samples.push(s).drop_last() =~= samples);
}

} // verus!
