//! Traces, logs and span groups, read from the retained records.

use vstd::prelude::*;

use crate::inspector::series::attr_views;
use crate::order::{lemma_lex_append, lex_lt};
use crate::sort::{
    is_sorted, is_sorting_of, law_texts_are_ordered_by_their_codes, lemma_single, lemma_sorted_same_elements, push_text_rank, sort,
    text_rank, words, words_before, Ranked,
};

verus! {

/// Span that times one stage of a pipeline.
pub const STAGE_SPAN: &'static str = "pipeline.stage";

/// Span that times one system of a stage.
pub const SYSTEM_SPAN: &'static str = "system.execute";

/// A finished span.
#[derive(Debug, Clone)]
pub struct SpanRecord {
    pub trace_id: u64,
    pub span_id: u64,
    pub parent_id: Option<u64>,
    pub name: String,
    pub target: String,
    pub started_unix_ms: u64,
    pub duration_us: u64,
    pub fields: Vec<(String, String)>,
}

/// A log line.
#[derive(Debug, Clone)]
pub struct LogRecord {
    pub level: String,
    pub target: String,
    pub message: String,
    pub at_unix_ms: u64,
    pub span_id: Option<u64>,
    pub trace_id: Option<u64>,
    pub fields: Vec<(String, String)>,
}

/// A trace, by its root span.
#[derive(Debug)]
pub struct TraceSummary {
    pub trace_id: u64,
    pub name: String,
    pub started_unix_ms: u64,
    pub duration_us: u64,
    pub span_count: usize,
    /// An error was logged in it.
    pub error: bool,
}

/// The contents of a [`TraceSummary`].
pub ghost struct TraceView {
    pub trace_id: u64,
    pub name: Seq<char>,
    pub started_unix_ms: u64,
    pub duration_us: u64,
    pub span_count: int,
    pub error: bool,
}

impl View for TraceSummary {
    type V = TraceView;

    open spec fn view(&self) -> TraceView {
        TraceView {
            trace_id: self.trace_id,
            name: self.name@,
            started_unix_ms: self.started_unix_ms,
            duration_us: self.duration_us,
            span_count: self.span_count as int,
            error: self.error,
        }
    }
}

/// Traces are ordered by their start, the newest first.
impl Ranked for TraceSummary {
    open spec fn rank(&self) -> Seq<int> {
        seq![-(self.started_unix_ms as int)]
    }

    fn is_before(&self, other: &Self) -> (r: bool) {
        proof {
            lemma_single(-(self.started_unix_ms as int), -(other.started_unix_ms as int));
        }
        self.started_unix_ms > other.started_unix_ms
    }
}

/// Spans are ordered by their start, the oldest first.
impl Ranked for SpanRecord {
    open spec fn rank(&self) -> Seq<int> {
        seq![self.started_unix_ms as int]
    }

    fn is_before(&self, other: &Self) -> (r: bool) {
        proof {
            lemma_single(self.started_unix_ms as int, other.started_unix_ms as int);
        }
        self.started_unix_ms < other.started_unix_ms
    }
}

/// Log lines are ordered by time, the oldest first.
impl Ranked for LogRecord {
    open spec fn rank(&self) -> Seq<int> {
        seq![self.at_unix_ms as int]
    }

    fn is_before(&self, other: &Self) -> (r: bool) {
        proof {
            lemma_single(self.at_unix_ms as int, other.at_unix_ms as int);
        }
        self.at_unix_ms < other.at_unix_ms
    }
}

/// How many spans a trace has.
pub open spec fn span_count(spans: Seq<SpanRecord>, trace_id: u64) -> int
    decreases spans.len(),
{
    if spans.len() == 0 {
        0
    } else {
        span_count(spans.drop_last(), trace_id) + if spans.last().trace_id == trace_id {
            1int
        } else {
            0int
        }
    }
}

/// An error was logged in the trace.
pub open spec fn has_error(logs: Seq<LogRecord>, trace_id: u64) -> bool {
    exists|i: int|
        0 <= i < logs.len() && (#[trigger] logs[i]).level@ == "ERROR"@ && logs[i].trace_id == Some(
            trace_id,
        )
}

/// What is shown of the trace of a root span.
pub open spec fn trace_of(
    root: SpanRecord,
    spans: Seq<SpanRecord>,
    logs: Seq<LogRecord>,
) -> TraceView {
    TraceView {
        trace_id: root.trace_id,
        name: root.name@,
        started_unix_ms: root.started_unix_ms,
        duration_us: root.duration_us,
        span_count: span_count(spans, root.trace_id),
        error: has_error(logs, root.trace_id),
    }
}

/// The traces of the root spans among the first ones, in their order.
pub open spec fn root_traces(
    first: Seq<SpanRecord>,
    spans: Seq<SpanRecord>,
    logs: Seq<LogRecord>,
) -> Seq<TraceView>
    decreases first.len(),
{
    if first.len() == 0 {
        Seq::empty()
    } else if first.last().parent_id is None {
        root_traces(first.drop_last(), spans, logs).push(trace_of(first.last(), spans, logs))
    } else {
        root_traces(first.drop_last(), spans, logs)
    }
}

/// The contents of each trace.
pub open spec fn trace_views(v: Seq<TraceSummary>) -> Seq<TraceView> {
    v.map_values(|t: TraceSummary| t@)
}

/// The `limit` newest of the given traces, the newest first. Which of two
/// that began at once comes first is open.
pub open spec fn is_newest(r: Seq<TraceSummary>, traces: Seq<TraceView>, limit: int) -> bool {
    exists|some: Seq<TraceSummary>, all: Seq<TraceSummary>| #[trigger]
        is_sorting_of(some, all) && trace_views(some) == traces && r == all.take(
            if limit < all.len() {
                limit
            } else {
                all.len() as int
            },
        )
}

fn count_spans(spans: &Vec<SpanRecord>, trace_id: u64) -> (r: usize)
    ensures
        r == span_count(spans@, trace_id),
{
    let mut n: usize = 0;
    let mut i: usize = 0;
    assert(spans@.take(0) =~= Seq::<SpanRecord>::empty());
    while i < spans.len()
        invariant
            i <= spans@.len(),
            n <= i,
            n == span_count(spans@.take(i as int), trace_id),
        decreases spans@.len() - i,
    {
        assert(spans@.take(i as int + 1).drop_last() =~= spans@.take(i as int));
        if spans[i].trace_id == trace_id {
            n += 1;
        }
        i += 1;
    }
    assert(spans@.take(i as int) =~= spans@);
    n
}

fn logged_error(logs: &Vec<LogRecord>, trace_id: u64) -> (r: bool)
    ensures
        r == has_error(logs@, trace_id),
{
    let error = "ERROR".to_owned();
    let mut i: usize = 0;
    while i < logs.len()
        invariant
            i <= logs@.len(),
            error@ == "ERROR"@,
            forall|j: int|
                0 <= j < i ==> !((#[trigger] logs@[j]).level@ == "ERROR"@ && logs@[j].trace_id
                    == Some(trace_id)),
        decreases logs@.len() - i,
    {
        let here = match logs[i].trace_id {
            Some(t) => t == trace_id,
            None => false,
        };
        if here && logs[i].level == error {
            return true;
        }
        i += 1;
    }
    false
}

/// The newest traces, at most `limit`.
pub fn traces(spans: &Vec<SpanRecord>, logs: &Vec<LogRecord>, limit: usize) -> (r: Vec<
    TraceSummary,
>)
    ensures
        is_newest(r@, root_traces(spans@, spans@, logs@), limit as int),
{
    let mut roots: Vec<TraceSummary> = Vec::new();
    let mut i: usize = 0;
    assert(spans@.take(0) =~= Seq::<SpanRecord>::empty());
    assert(trace_views(roots@) =~= Seq::<TraceView>::empty());
    while i < spans.len()
        invariant
            i <= spans@.len(),
            trace_views(roots@) == root_traces(spans@.take(i as int), spans@, logs@),
        decreases spans@.len() - i,
    {
        let ghost had = roots@;
        assert(spans@.take(i as int + 1).drop_last() =~= spans@.take(i as int));
        if spans[i].parent_id.is_none() {
            let root = &spans[i];
            let t = TraceSummary {
                trace_id: root.trace_id,
                name: root.name.clone(),
                started_unix_ms: root.started_unix_ms,
                duration_us: root.duration_us,
                span_count: count_spans(spans, root.trace_id),
                error: logged_error(logs, root.trace_id),
            };
            roots.push(t);
            assert(trace_views(roots@) =~= trace_views(had).push(t@));
        }
        i += 1;
    }
    assert(spans@.take(i as int) =~= spans@);
    let ghost some = roots@;
    let mut sorted = sort(roots);
    let ghost all = sorted@;
    assert(is_sorting_of(some, all));
    if limit < sorted.len() {
        sorted.truncate(limit);
    }
    assert(sorted@ =~= all.take(
        if limit < all.len() {
            limit as int
        } else {
            all.len() as int
        },
    ));
    sorted
}

/// The spans and log lines of one trace.
pub struct TraceDetail {
    pub spans: Vec<SpanRecord>,
    pub logs: Vec<LogRecord>,
}

/// The spans of one trace, as they were recorded.
pub open spec fn spans_of(spans: Seq<SpanRecord>, trace_id: u64) -> Seq<SpanRecord> {
    spans.filter(|s: SpanRecord| s.trace_id == trace_id)
}

/// The log lines of one trace, as they were recorded.
pub open spec fn logs_of(logs: Seq<LogRecord>, trace_id: u64) -> Seq<LogRecord> {
    logs.filter(|l: LogRecord| l.trace_id == Some(trace_id))
}

fn keep_spans(spans: Vec<SpanRecord>, trace_id: u64) -> (r: Vec<SpanRecord>)
    ensures
        r@ == spans_of(spans@, trace_id),
{
    let mut rest = spans;
    let ghost all = spans@;
    let ghost keep = |s: SpanRecord| s.trace_id == trace_id;
    let mut out: Vec<SpanRecord> = Vec::new();
    proof {
        reveal(Seq::filter);
        assert(all.take(0) =~= Seq::<SpanRecord>::empty());
    }
    while rest.len() > 0
        invariant
            keep == (|s: SpanRecord| s.trace_id == trace_id),
            rest@.len() <= all.len(),
            rest@ == all.skip(all.len() - rest@.len()),
            out@ == all.take(all.len() - rest@.len()).filter(keep),
        decreases rest@.len(),
    {
        let ghost at = all.len() - rest@.len();
        let s = rest.remove(0);
        proof {
            reveal(Seq::filter);
            assert(s == all[at]);
            assert(rest@ =~= all.skip(all.len() - rest@.len()));
            assert(all.take(at + 1).drop_last() =~= all.take(at));
            assert(all.take(at + 1).last() == s);
        }
        if s.trace_id == trace_id {
            out.push(s);
        }
    }
    assert(all.take(all.len() as int) =~= all);
    out
}

fn keep_logs(logs: Vec<LogRecord>, trace_id: u64) -> (r: Vec<LogRecord>)
    ensures
        r@ == logs_of(logs@, trace_id),
{
    let mut rest = logs;
    let ghost all = logs@;
    let ghost keep = |l: LogRecord| l.trace_id == Some(trace_id);
    let mut out: Vec<LogRecord> = Vec::new();
    proof {
        reveal(Seq::filter);
        assert(all.take(0) =~= Seq::<LogRecord>::empty());
    }
    while rest.len() > 0
        invariant
            keep == (|l: LogRecord| l.trace_id == Some(trace_id)),
            rest@.len() <= all.len(),
            rest@ == all.skip(all.len() - rest@.len()),
            out@ == all.take(all.len() - rest@.len()).filter(keep),
        decreases rest@.len(),
    {
        let ghost at = all.len() - rest@.len();
        let l = rest.remove(0);
        proof {
            reveal(Seq::filter);
            assert(l == all[at]);
            assert(rest@ =~= all.skip(all.len() - rest@.len()));
            assert(all.take(at + 1).drop_last() =~= all.take(at));
            assert(all.take(at + 1).last() == l);
        }
        let here = match l.trace_id {
            Some(t) => t == trace_id,
            None => false,
        };
        if here {
            out.push(l);
        }
    }
    assert(all.take(all.len() as int) =~= all);
    out
}

/// Every retained span and log line of one trace, each by time. A trace
/// without a span has aged out, or never was.
pub fn trace(spans: Vec<SpanRecord>, logs: Vec<LogRecord>, trace_id: u64) -> (r: Option<
    TraceDetail,
>)
    ensures
        r is None <==> spans_of(spans@, trace_id).len() == 0,
        r matches Some(d) ==> is_sorting_of(spans_of(spans@, trace_id), d.spans@) && is_sorting_of(
            logs_of(logs@, trace_id),
            d.logs@,
        ),
{
    let own = keep_spans(spans, trace_id);
    if own.len() == 0 {
        return None;
    }
    Some(TraceDetail { spans: sort(own), logs: sort(keep_logs(logs, trace_id)) })
}

/// The rank of a level: the more severe, the smaller. A name that is none of
/// the four ranks last.
pub open spec fn rank_of(level: Seq<char>) -> u8 {
    if level == "ERROR"@ {
        0
    } else if level == "WARN"@ {
        1
    } else if level == "INFO"@ {
        2
    } else if level == "DEBUG"@ {
        3
    } else {
        4
    }
}

/// The rank of a level: the more severe, the smaller.
pub fn level_rank(level: &String) -> (r: u8)
    ensures
        r == rank_of(level@),
{
    if *level == "ERROR".to_owned() {
        0
    } else if *level == "WARN".to_owned() {
        1
    } else if *level == "INFO".to_owned() {
        2
    } else if *level == "DEBUG".to_owned() {
        3
    } else {
        4
    }
}

/// The log lines at the level or above.
pub open spec fn severe(logs: Seq<LogRecord>, min_level: Option<Seq<char>>) -> Seq<LogRecord> {
    match min_level {
        None => logs,
        Some(level) => logs.filter(|l: LogRecord| rank_of(l.level@) <= rank_of(level)),
    }
}

/// The first `limit` of a list.
pub open spec fn first_of<T>(s: Seq<T>, limit: int) -> Seq<T> {
    s.take(
        if limit < s.len() {
            limit
        } else {
            s.len() as int
        },
    )
}

/// Of the log lines, given newest first, the first `limit` at the level or
/// above.
pub fn logs(newest_first: Vec<LogRecord>, limit: usize, min_level: Option<String>) -> (r: Vec<
    LogRecord,
>)
    ensures
        r@ == first_of(
            severe(
                newest_first@,
                match min_level {
                    Some(level) => Some(level@),
                    None => None,
                },
            ),
            limit as int,
        ),
{
    let mut rest = newest_first;
    let ghost all = newest_first@;
    let max: u8 = match &min_level {
        Some(level) => level_rank(level),
        None => {
            if limit < rest.len() {
                rest.truncate(limit);
            }
            assert(rest@ =~= first_of(all, limit as int));
            return rest;
        },
    };
    let ghost keep = |l: LogRecord| rank_of(l.level@) <= max;
    let mut out: Vec<LogRecord> = Vec::new();
    proof {
        reveal(Seq::filter);
        assert(all.take(0) =~= Seq::<LogRecord>::empty());
    }
    while rest.len() > 0
        invariant
            keep == (|l: LogRecord| rank_of(l.level@) <= max),
            rest@.len() <= all.len(),
            rest@ == all.skip(all.len() - rest@.len()),
            out@ == all.take(all.len() - rest@.len()).filter(keep),
        decreases rest@.len(),
    {
        let ghost at = all.len() - rest@.len();
        let l = rest.remove(0);
        proof {
            reveal(Seq::filter);
            assert(l == all[at]);
            assert(rest@ =~= all.skip(all.len() - rest@.len()));
            assert(all.take(at + 1).drop_last() =~= all.take(at));
            assert(all.take(at + 1).last() == l);
        }
        if level_rank(&l.level) <= max {
            out.push(l);
        }
    }
    proof {
        assert(all.take(all.len() as int) =~= all);
        assert(keep =~= (|l: LogRecord| rank_of(l.level@) <= rank_of(min_level->0@)));
        assert(out@ == severe(all, Some(min_level->0@)));
    }
    let ghost kept = out@;
    if limit < out.len() {
        out.truncate(limit);
    }
    assert(out@ =~= first_of(kept, limit as int));
    out
}

/// What a grouped span times.
#[derive(Debug, Clone, Copy, PartialEq, Eq, Structural)]
pub enum SpanKind {
    Stage,
    System,
}

impl SpanKind {
    /// The name of the span.
    pub fn span_name(self) -> (r: &'static str)
        ensures
            r@ == kind_name(self),
    {
        match self {
            SpanKind::Stage => STAGE_SPAN,
            SpanKind::System => SYSTEM_SPAN,
        }
    }
}

/// The name of a grouped span.
pub open spec fn kind_name(k: SpanKind) -> Seq<char> {
    match k {
        SpanKind::Stage => STAGE_SPAN@,
        SpanKind::System => SYSTEM_SPAN@,
    }
}

/// The value of the first field of that name.
pub open spec fn field(fields: Seq<(Seq<char>, Seq<char>)>, name: Seq<char>) -> Option<Seq<char>>
    decreases fields.len(),
{
    if fields.len() == 0 {
        None
    } else if fields[0].0 == name {
        Some(fields[0].1)
    } else {
        field(fields.drop_first(), name)
    }
}

/// The stages and systems of spans.
pub ghost struct SpanKey {
    pub kind: SpanKind,
    pub key: Seq<char>,
}

/// The stage or system a span times, by the field that names it.
pub open spec fn timed(s: SpanRecord) -> Option<SpanKey> {
    if s.name@ == STAGE_SPAN@ {
        match field(attr_views(s.fields@), "stage"@) {
            Some(key) => Some(SpanKey { kind: SpanKind::Stage, key }),
            None => None,
        }
    } else if s.name@ == SYSTEM_SPAN@ {
        match field(attr_views(s.fields@), "system"@) {
            Some(key) => Some(SpanKey { kind: SpanKind::System, key }),
            None => None,
        }
    } else {
        None
    }
}

/// How long one stage or system took each time since `cutoff`.
pub open spec fn durations_of(spans: Seq<SpanRecord>, cutoff: u64, key: SpanKey) -> Seq<u64>
    decreases spans.len(),
{
    if spans.len() == 0 {
        Seq::empty()
    } else if spans.last().started_unix_ms >= cutoff && timed(spans.last()) == Some(key) {
        durations_of(spans.drop_last(), cutoff, key).push(spans.last().duration_us)
    } else {
        durations_of(spans.drop_last(), cutoff, key)
    }
}

/// One stage or system with how long it took, the shortest first.
#[derive(Debug)]
pub struct SpanGroup {
    pub kind: SpanKind,
    pub key: String,
    pub durations: Vec<u64>,
}

impl SpanGroup {
    pub open spec fn id(self) -> SpanKey {
        SpanKey { kind: self.kind, key: self.key@ }
    }
}

/// The position, counted from one, of the value that so many percent of `n`
/// values come up to.
pub open spec fn nearest_rank(n: int, percent: int) -> int {
    (percent * n + 99) / 100
}

/// The nearest-rank percentile of sorted values; zero where there are none.
pub fn percentile(sorted: &Vec<u64>, percent: u64) -> (r: u64)
    requires
        1 <= percent <= 100,
    ensures
        r == if sorted@.len() == 0 {
            0
        } else {
            sorted@[nearest_rank(sorted@.len() as int, percent as int) - 1]
        },
{
    let n: usize = sorted.len();
    if n == 0 {
        return 0;
    }
    proof {
        law_percentile_is_nearest_rank(sorted@.len() as int, percent as int);
        assert(percent * n <= 100 * 0xFFFF_FFFF_FFFF_FFFF) by (nonlinear_arith)
            requires
                1 <= percent <= 100,
                0 <= n <= 0xFFFF_FFFF_FFFF_FFFF,
        ;
    }
    let rank: u128 = (percent as u128 * n as u128 + 99) / 100;
    sorted[(rank - 1) as usize]
}

/// Of any number of values, so many percent stand at the nearest rank or
/// before it, and at no rank before that.
pub proof fn law_percentile_is_nearest_rank(n: int, percent: int)
    requires
        0 < n,
        1 <= percent <= 100,
    ensures
        1 <= nearest_rank(n, percent) <= n,
        100 * nearest_rank(n, percent) >= percent * n,
        100 * (nearest_rank(n, percent) - 1) < percent * n,
{
    assert(1 <= percent * n <= 100 * n) by (nonlinear_arith)
        requires
            0 < n,
            1 <= percent <= 100,
    ;
}

/// The rank of a group: by the name of its span, then by its key.
pub open spec fn group_rank(id: SpanKey) -> Seq<int> {
    text_rank(kind_name(id.kind)) + text_rank(id.key)
}

impl Ranked for SpanGroup {
    open spec fn rank(&self) -> Seq<int> {
        group_rank(self.id())
    }

    fn is_before(&self, other: &Self) -> (r: bool) {
        let mut a: Vec<u32> = Vec::new();
        push_text_rank(&mut a, &self.kind.span_name().to_owned());
        push_text_rank(&mut a, &self.key);
        let mut b: Vec<u32> = Vec::new();
        push_text_rank(&mut b, &other.kind.span_name().to_owned());
        push_text_rank(&mut b, &other.key);
        proof {
            assert(words(a@) =~= self.rank());
            assert(words(b@) =~= other.rank());
        }
        words_before(&a, &b)
    }
}

fn find_field(fields: &Vec<(String, String)>, name: &str) -> (r: Option<String>)
    ensures
        match field(attr_views(fields@), name@) {
            Some(v) => r matches Some(s) && s@ == v,
            None => r is None,
        },
{
    let wanted = name.to_owned();
    let ghost views = attr_views(fields@);
    let mut i: usize = 0;
    assert(views.skip(0) =~= views);
    while i < fields.len()
        invariant
            i <= fields@.len(),
            wanted@ == name@,
            views == attr_views(fields@),
            field(views, name@) == field(views.skip(i as int), name@),
        decreases fields@.len() - i,
    {
        assert(views.skip(i as int).drop_first() =~= views.skip(i as int + 1));
        assert(views.skip(i as int)[0] == views[i as int]);
        if fields[i].0 == wanted {
            return Some(fields[i].1.clone());
        }
        i += 1;
    }
    None
}

fn timed_by(s: &SpanRecord) -> (r: Option<(SpanKind, String)>)
    ensures
        match timed(*s) {
            Some(id) => r matches Some(p) && p.0 == id.kind && p.1@ == id.key,
            None => r is None,
        },
{
    if s.name == STAGE_SPAN.to_owned() {
        match find_field(&s.fields, "stage") {
            Some(key) => Some((SpanKind::Stage, key)),
            None => None,
        }
    } else if s.name == SYSTEM_SPAN.to_owned() {
        match find_field(&s.fields, "system") {
            Some(key) => Some((SpanKind::System, key)),
            None => None,
        }
    } else {
        None
    }
}

spec fn spans_grouped(groups: Seq<SpanGroup>, spans: Seq<SpanRecord>, cutoff: u64) -> bool {
    &&& forall|a: int|
        0 <= a < groups.len() ==> (#[trigger] groups[a]).durations@ == durations_of(
            spans,
            cutoff,
            groups[a].id(),
        ) && groups[a].durations@.len() > 0
    &&& forall|a: int, b: int|
        0 <= a < b < groups.len() ==> (#[trigger] groups[a]).id() != (#[trigger] groups[b]).id()
    &&& forall|id: SpanKey|
        (#[trigger] durations_of(spans, cutoff, id)).len() > 0 ==> exists|a: int|
            0 <= a < groups.len() && (#[trigger] groups[a]).id() == id
}

/// The groups are those of the spans since `cutoff`: each once, in order,
/// with its durations in order.
pub open spec fn is_span_grouping(
    r: Seq<SpanGroup>,
    spans: Seq<SpanRecord>,
    cutoff: u64,
) -> bool {
    &&& is_sorted(r)
    &&& forall|a: int|
        0 <= a < r.len() ==> is_sorting_of(
            durations_of(spans, cutoff, (#[trigger] r[a]).id()),
            r[a].durations@,
        ) && r[a].durations@.len() > 0
    &&& forall|a: int, b: int|
        0 <= a < b < r.len() ==> (#[trigger] r[a]).id() != (#[trigger] r[b]).id()
    &&& forall|id: SpanKey|
        (#[trigger] durations_of(spans, cutoff, id)).len() > 0 ==> exists|a: int|
            0 <= a < r.len() && (#[trigger] r[a]).id() == id
}

fn find_span_group(groups: &Vec<SpanGroup>, kind: SpanKind, key: &String) -> (r: Option<usize>)
    ensures
        match r {
            Some(a) => a < groups@.len() && groups@[a as int].id() == (SpanKey { kind, key: key@ }),
            None => forall|a: int|
                0 <= a < groups@.len() ==> (#[trigger] groups@[a]).id() != (SpanKey {
                    kind,
                    key: key@,
                }),
        },
{
    let mut a: usize = 0;
    while a < groups.len()
        invariant
            a <= groups@.len(),
            forall|b: int|
                0 <= b < a ==> (#[trigger] groups@[b]).id() != (SpanKey { kind, key: key@ }),
        decreases groups@.len() - a,
    {
        if groups[a].kind == kind && groups[a].key == *key {
            return Some(a);
        }
        a += 1;
    }
    None
}

fn add_span(
    groups: Vec<SpanGroup>,
    span: &SpanRecord,
    cutoff: u64,
    Ghost(before): Ghost<Seq<SpanRecord>>,
) -> (r: Vec<SpanGroup>)
    requires
        spans_grouped(groups@, before, cutoff),
    ensures
        spans_grouped(r@, before.push(*span), cutoff),
{
    let mut groups = groups;
    let ghost had = groups@;
    let ghost now = before.push(*span);
    proof {
        assert(now.drop_last() =~= before);
    }
    if span.started_unix_ms < cutoff {
        proof {
            assert forall|id: SpanKey| #[trigger] durations_of(now, cutoff, id) == durations_of(
                before,
                cutoff,
                id,
            ) by {}
            assert(spans_grouped(groups@, now, cutoff));
        }
        return groups;
    }
    let (kind, key) = match timed_by(span) {
        Some(p) => p,
        None => {
            proof {
                assert forall|id: SpanKey| #[trigger] durations_of(now, cutoff, id)
                    == durations_of(before, cutoff, id) by {}
                assert(spans_grouped(groups@, now, cutoff));
            }
            return groups;
        },
    };
    let ghost id = SpanKey { kind, key: key@ };
    proof {
        assert forall|other: SpanKey| other != id implies #[trigger] durations_of(now, cutoff, other)
            == durations_of(before, cutoff, other) by {}
        assert(durations_of(now, cutoff, id) == durations_of(before, cutoff, id).push(
            span.duration_us,
        ));
    }
    match find_span_group(&groups, kind, &key) {
        Some(a) => {
            let mut g = groups.remove(a);
            g.durations.push(span.duration_us);
            groups.insert(a, g);
            proof {
                assert(groups@ =~= had.update(a as int, g));
                assert forall|b: int| 0 <= b < groups@.len() implies (
                #[trigger] groups@[b]).durations@ == durations_of(now, cutoff, groups@[b].id())
                    && groups@[b].durations@.len() > 0 by {
                    if b != a {
                        assert(groups@[b] == had[b]);
                        if b < a {
                            assert(had[b].id() != had[a as int].id());
                        } else {
                            assert(had[a as int].id() != had[b].id());
                        }
                    }
                }
                assert forall|b: int, c: int| 0 <= b < c < groups@.len() implies (
                #[trigger] groups@[b]).id() != (#[trigger] groups@[c]).id() by {
                    assert(had[b].id() != had[c].id());
                    assert(groups@[b].id() == had[b].id());
                    assert(groups@[c].id() == had[c].id());
                }
                assert forall|k: SpanKey|
                    (#[trigger] durations_of(now, cutoff, k)).len() > 0 implies exists|b: int|
                    0 <= b < groups@.len() && (#[trigger] groups@[b]).id() == k by {
                    if k == id {
                        assert(groups@[a as int].id() == k);
                    } else {
                        assert(durations_of(before, cutoff, k).len() > 0);
                        let b = choose|b: int| 0 <= b < had.len() && (#[trigger] had[b]).id() == k;
                        assert(groups@[b].id() == k);
                    }
                }
            }
        },
        None => {
            let mut durations: Vec<u64> = Vec::new();
            durations.push(span.duration_us);
            let g = SpanGroup { kind, key, durations };
            groups.push(g);
            proof {
                if durations_of(before, cutoff, id).len() > 0 {
                    let b = choose|b: int| 0 <= b < had.len() && (#[trigger] had[b]).id() == id;
                    assert(had[b].id() != id);
                }
                assert(durations_of(before, cutoff, id) =~= Seq::<u64>::empty());
                assert(g.durations@ =~= durations_of(now, cutoff, id));
                assert forall|b: int| 0 <= b < groups@.len() implies (
                #[trigger] groups@[b]).durations@ == durations_of(now, cutoff, groups@[b].id())
                    && groups@[b].durations@.len() > 0 by {
                    if b < had.len() {
                        assert(groups@[b] == had[b]);
                        assert(had[b].id() != id);
                    }
                }
                assert forall|b: int, c: int| 0 <= b < c < groups@.len() implies (
                #[trigger] groups@[b]).id() != (#[trigger] groups@[c]).id() by {
                    assert(groups@[b] == had[b]);
                    if c < had.len() {
                        assert(groups@[c] == had[c]);
                    }
                }
                assert forall|k: SpanKey|
                    (#[trigger] durations_of(now, cutoff, k)).len() > 0 implies exists|b: int|
                    0 <= b < groups@.len() && (#[trigger] groups@[b]).id() == k by {
                    if k == id {
                        assert(groups@[had.len() as int].id() == k);
                    } else {
                        assert(durations_of(before, cutoff, k).len() > 0);
                        let b = choose|b: int| 0 <= b < had.len() && (#[trigger] had[b]).id() == k;
                        assert(groups@[b].id() == k);
                    }
                }
            }
        },
    }
    groups
}

/// Group the spans of stages and systems since `cutoff`.
pub fn span_groups(spans: &Vec<SpanRecord>, cutoff: u64) -> (r: Vec<SpanGroup>)
    ensures
        is_span_grouping(r@, spans@, cutoff),
{
    let mut groups: Vec<SpanGroup> = Vec::new();
    let mut i: usize = 0;
    assert(spans@.take(0) =~= Seq::<SpanRecord>::empty());
    while i < spans.len()
        invariant
            i <= spans@.len(),
            spans_grouped(groups@, spans@.take(i as int), cutoff),
        decreases spans@.len() - i,
    {
        groups = add_span(groups, &spans[i], cutoff, Ghost(spans@.take(i as int)));
        assert(spans@.take(i as int + 1) =~= spans@.take(i as int).push(spans@[i as int]));
        i += 1;
    }
    assert(spans@.take(i as int) =~= spans@);
    let ghost all = groups@;
    let mut out: Vec<SpanGroup> = Vec::new();
    while groups.len() > 0
        invariant
            spans_grouped(all, spans@, cutoff),
            groups@.len() <= all.len(),
            groups@ == all.skip(all.len() - groups@.len()),
            out@.len() == all.len() - groups@.len(),
            forall|a: int|
                0 <= a < out@.len() ==> (#[trigger] out@[a]).id() == all[a].id() && is_sorting_of(
                    all[a].durations@,
                    out@[a].durations@,
                ),
        decreases groups@.len(),
    {
        let g = groups.remove(0);
        proof {
            assert(g == all[out@.len() as int]);
            assert(groups@ =~= all.skip(all.len() - groups@.len()));
        }
        out.push(SpanGroup { kind: g.kind, key: g.key, durations: sort(g.durations) });
    }
    let ghost unsorted = out@;
    let sorted = sort(out);
    proof {
        assert(unsorted.no_duplicates()) by {
            assert forall|a: int, b: int|
                0 <= a < unsorted.len() && 0 <= b < unsorted.len() && a != b implies unsorted[a]
                != unsorted[b] by {
                assert(unsorted[a].id() == all[a].id());
                assert(unsorted[b].id() == all[b].id());
                if a < b {
                    assert(all[a].id() != all[b].id());
                } else {
                    assert(all[b].id() != all[a].id());
                }
            }
        }
        lemma_sorted_same_elements(unsorted, sorted@);
        assert forall|k: int| 0 <= k < sorted@.len() implies is_sorting_of(
            durations_of(spans@, cutoff, (#[trigger] sorted@[k]).id()),
            sorted@[k].durations@,
        ) && sorted@[k].durations@.len() > 0 by {
            assert(sorted@.contains(sorted@[k]));
            assert(unsorted.contains(sorted@[k]));
            let a = unsorted.index_of(sorted@[k]);
            assert(unsorted[a].id() == all[a].id());
            assert(all[a].durations@.len() > 0);
        }
        assert forall|k: int, l: int| 0 <= k < l < sorted@.len() implies (#[trigger] sorted@[k]).id()
            != (#[trigger] sorted@[l]).id() by {
            assert(sorted@.contains(sorted@[k]) && sorted@.contains(sorted@[l]));
            assert(unsorted.contains(sorted@[k]) && unsorted.contains(sorted@[l]));
            let a = unsorted.index_of(sorted@[k]);
            let b = unsorted.index_of(sorted@[l]);
            assert(sorted@[k] != sorted@[l]);
            assert(unsorted[a].id() == all[a].id());
            assert(unsorted[b].id() == all[b].id());
            if a < b {
                assert(all[a].id() != all[b].id());
            } else {
                assert(all[b].id() != all[a].id());
            }
        }
        assert forall|id: SpanKey|
            (#[trigger] durations_of(spans@, cutoff, id)).len() > 0 implies exists|k: int|
            0 <= k < sorted@.len() && (#[trigger] sorted@[k]).id() == id by {
            let a = choose|a: int| 0 <= a < all.len() && (#[trigger] all[a]).id() == id;
            assert(unsorted[a].id() == id);
            assert(unsorted.contains(unsorted[a]));
            assert(sorted@.contains(unsorted[a]));
            let k = sorted@.index_of(unsorted[a]);
            assert(sorted@[k].id() == id);
        }
    }
    sorted
}

/// A trace has as many spans as were recorded in it, whatever their order.
pub proof fn law_spans_are_counted(spans: Seq<SpanRecord>, s: SpanRecord, trace_id: u64)
    ensures
        span_count(spans.push(s), trace_id) == span_count(spans, trace_id) + if s.trace_id
            == trace_id {
            1int
        } else {
            0int
        },
        span_count(Seq::empty(), trace_id) == 0,
{
    assert(spans.push(s).drop_last() =~= spans);
}

/// A trace failed where a line of it was logged as an error.
pub proof fn law_error_marks_its_trace(logs: Seq<LogRecord>, i: int, trace_id: u64)
    requires
        0 <= i < logs.len(),
    ensures
        logs[i].level@ == "ERROR"@ && logs[i].trace_id == Some(trace_id) ==> has_error(
            logs,
            trace_id,
        ),
        has_error(logs, trace_id) ==> exists|j: int|
            0 <= j < logs.len() && (#[trigger] logs[j]).level@ == "ERROR"@ && logs[j].trace_id
                == Some(trace_id),
{
}

/// Each span without a parent is shown as a trace, with its id, name, start and
/// duration, the spans of the trace and whether one of its lines is an error. No
/// other span is.
pub proof fn law_roots_are_shown(
    first: Seq<SpanRecord>,
    s: SpanRecord,
    spans: Seq<SpanRecord>,
    logs: Seq<LogRecord>,
)
    ensures
        s.parent_id is Some ==> root_traces(first.push(s), spans, logs) == root_traces(
            first,
            spans,
            logs,
        ),
        s.parent_id is None ==> {
            let t = root_traces(first.push(s), spans, logs);
            &&& t.drop_last() == root_traces(first, spans, logs)
            &&& t.len() > 0
            &&& t.last().trace_id == s.trace_id
            &&& t.last().name == s.name@
            &&& t.last().started_unix_ms == s.started_unix_ms
            &&& t.last().duration_us == s.duration_us
            &&& t.last().span_count == span_count(spans, s.trace_id)
            &&& t.last().error == has_error(logs, s.trace_id)
        },
        root_traces(Seq::empty(), spans, logs) == Seq::<TraceView>::empty(),
{
    assert(first.push(s).drop_last() =~= first);
    if s.parent_id is None {
        assert(root_traces(first.push(s), spans, logs).drop_last() =~= root_traces(
            first,
            spans,
            logs,
        ));
    }
}

/// The traces shown are of those there are, the newest first, as many as asked
/// for where there are so many; none that is left out is newer than one shown.
pub proof fn law_newest_traces_are_shown(
    r: Seq<TraceSummary>,
    traces: Seq<TraceView>,
    limit: int,
    i: int,
    j: int,
)
    requires
        is_newest(r, traces, limit),
        0 <= limit,
    ensures
        r.len() == if limit < traces.len() {
            limit
        } else {
            traces.len() as int
        },
        0 <= i < r.len() ==> traces.contains(r[i]@),
        0 <= i < j < r.len() ==> r[i].started_unix_ms >= r[j].started_unix_ms,
        0 <= i < traces.len() ==> (exists|k: int| 0 <= k < r.len() && (#[trigger] r[k])@ == traces[i])
            || (forall|k: int|
            0 <= k < r.len() ==> (#[trigger] r[k]).started_unix_ms >= traces[i].started_unix_ms),
{
    let (some, all) = choose|some: Seq<TraceSummary>, all: Seq<TraceSummary>| #[trigger]
        is_sorting_of(some, all) && trace_views(some) == traces && r == all.take(
            if limit < all.len() {
                limit
            } else {
                all.len() as int
            },
        );
    assert(some.len() == traces.len());
    if 0 <= i < r.len() {
        vstd::seq_lib::to_multiset_contains(some, all[i]);
        vstd::seq_lib::to_multiset_contains(all, all[i]);
        assert(all.contains(all[i]));
        let a = some.index_of(all[i]);
        assert(trace_views(some)[a] == r[i]@);
    }
    if 0 <= i < j < r.len() {
        lemma_single(-(all[j].started_unix_ms as int), -(all[i].started_unix_ms as int));
        assert(!lex_lt(all[j].rank(), all[i].rank()));
    }
    if 0 <= i < traces.len() {
        vstd::seq_lib::to_multiset_contains(some, some[i]);
        vstd::seq_lib::to_multiset_contains(all, some[i]);
        assert(some.contains(some[i]));
        let b = all.index_of(some[i]);
        assert(trace_views(some)[i] == some[i]@);
        if b < r.len() {
            assert(r[b]@ == traces[i]);
        } else {
            assert forall|k: int| 0 <= k < r.len() implies (#[trigger] r[k]).started_unix_ms
                >= traces[i].started_unix_ms by {
                assert(!lex_lt(all[b].rank(), all[k].rank()));
                lemma_single(-(all[b].started_unix_ms as int), -(all[k].started_unix_ms as int));
            }
        }
    }
}

/// Spans and log lines are ordered by time, the oldest first.
pub proof fn law_oldest_comes_first(a: SpanRecord, b: SpanRecord, x: LogRecord, y: LogRecord)
    ensures
        lex_lt(a.rank(), b.rank()) <==> a.started_unix_ms < b.started_unix_ms,
        lex_lt(x.rank(), y.rank()) <==> x.at_unix_ms < y.at_unix_ms,
{
    lemma_single(a.started_unix_ms as int, b.started_unix_ms as int);
    lemma_single(x.at_unix_ms as int, y.at_unix_ms as int);
}

/// The spans and the lines of a trace are those recorded with its id, all of them.
pub proof fn law_trace_holds_its_own(
    spans: Seq<SpanRecord>,
    s: SpanRecord,
    logs: Seq<LogRecord>,
    l: LogRecord,
    trace_id: u64,
)
    ensures
        spans_of(spans.push(s), trace_id) == if s.trace_id == trace_id {
            spans_of(spans, trace_id).push(s)
        } else {
            spans_of(spans, trace_id)
        },
        logs_of(logs.push(l), trace_id) == if l.trace_id == Some(trace_id) {
            logs_of(logs, trace_id).push(l)
        } else {
            logs_of(logs, trace_id)
        },
        spans_of(Seq::empty(), trace_id) == Seq::<SpanRecord>::empty(),
        logs_of(Seq::empty(), trace_id) == Seq::<LogRecord>::empty(),
{
    reveal(Seq::filter);
    assert(spans.push(s).drop_last() =~= spans);
    assert(logs.push(l).drop_last() =~= logs);
}

/// Errors are more severe than warnings, those than information, that than what
/// helps debugging, and that than anything else.
pub proof fn law_levels_are_ranked(other: Seq<char>)
    requires
        other != "ERROR"@,
        other != "WARN"@,
        other != "INFO"@,
        other != "DEBUG"@,
    ensures
        rank_of("ERROR"@) < rank_of("WARN"@) < rank_of("INFO"@) < rank_of("DEBUG"@) < rank_of(
            other,
        ),
        rank_of("ERROR"@) == 0,
        rank_of(other) == 4,
{
    reveal_strlit("ERROR");
    reveal_strlit("WARN");
    reveal_strlit("INFO");
    reveal_strlit("DEBUG");
    assert("ERROR"@.len() == 5 && "DEBUG"@.len() == 5 && "WARN"@.len() == 4 && "INFO"@.len() == 4);
    assert("ERROR"@[0] == 'E' && "DEBUG"@[0] == 'D' && "WARN"@[0] == 'W' && "INFO"@[0] == 'I');
}

/// A line is shown where it is as severe as asked for or more, in its place, up to
/// as many as asked for; where no level is asked for, every line is.
pub proof fn law_severe_lines_are_shown(
    logs: Seq<LogRecord>,
    l: LogRecord,
    level: Seq<char>,
    limit: int,
)
    requires
        0 <= limit,
    ensures
        severe(logs.push(l), Some(level)) == if rank_of(l.level@) <= rank_of(level) {
            severe(logs, Some(level)).push(l)
        } else {
            severe(logs, Some(level))
        },
        severe(Seq::empty(), Some(level)) == Seq::<LogRecord>::empty(),
        severe(logs, None) == logs,
        first_of(logs, limit).len() == if limit < logs.len() {
            limit
        } else {
            logs.len() as int
        },
        forall|i: int| 0 <= i < limit && i < logs.len() ==> first_of(logs, limit)[i] == logs[i],
{
    reveal(Seq::filter);
    assert(logs.push(l).drop_last() =~= logs);
}

/// A span of a stage times the stage that its field names, one of a system that
/// system; no other span is grouped.
pub proof fn law_spans_time_what_they_name(s: SpanRecord)
    ensures
        s.name@ == "pipeline.stage"@ ==> match timed(s) {
            Some(k) => k.kind == SpanKind::Stage && field(attr_views(s.fields@), "stage"@) == Some(
                k.key,
            ),
            None => field(attr_views(s.fields@), "stage"@) is None,
        },
        s.name@ == "system.execute"@ ==> match timed(s) {
            Some(k) => k.kind == SpanKind::System && field(attr_views(s.fields@), "system"@)
                == Some(k.key),
            None => field(attr_views(s.fields@), "system"@) is None,
        },
        s.name@ != "pipeline.stage"@ && s.name@ != "system.execute"@ ==> timed(s) is None,
{
    reveal_strlit("pipeline.stage");
    reveal_strlit("system.execute");
    assert("pipeline.stage"@[0] == 'p' && "system.execute"@[0] == 's');
}

/// A field is that of the first pair with its name.
pub proof fn law_first_field_counts(
    fields: Seq<(Seq<char>, Seq<char>)>,
    name: Seq<char>,
    i: int,
)
    requires
        0 <= i <= fields.len(),
        forall|j: int| 0 <= j < i ==> (#[trigger] fields[j]).0 != name,
    ensures
        i < fields.len() && fields[i].0 == name ==> field(fields, name) == Some(fields[i].1),
        i == fields.len() ==> field(fields, name) is None,
    decreases i,
{
    if i > 0 {
        assert(fields[0].0 != name);
        let rest = fields.drop_first();
        assert forall|j: int| 0 <= j < i - 1 implies (#[trigger] rest[j]).0 != name by {
            assert(fields[j + 1].0 != name);
        }
        law_first_field_counts(rest, name, i - 1);
    }
}

/// The durations of a stage or system are those of its spans from the cutoff on.
pub proof fn law_durations_are_of_recent_spans(
    spans: Seq<SpanRecord>,
    s: SpanRecord,
    cutoff: u64,
    key: SpanKey,
)
    ensures
        durations_of(spans.push(s), cutoff, key) == if s.started_unix_ms >= cutoff && timed(s)
            == Some(key) {
            durations_of(spans, cutoff, key).push(s.duration_us)
        } else {
            durations_of(spans, cutoff, key)
        },
        durations_of(Seq::empty(), cutoff, key) == Seq::<u64>::empty(),
{
    assert(spans.push(s).drop_last() =~= spans);
}

/// Each stage or system that ran since the cutoff is grouped once, with all its
/// durations, the shortest first.
pub proof fn law_groups_hold_all_durations(
    r: Seq<SpanGroup>,
    spans: Seq<SpanRecord>,
    cutoff: u64,
    id: SpanKey,
    d: u64,
    a: int,
    b: int,
    i: int,
    j: int,
)
    requires
        is_span_grouping(r, spans, cutoff),
    ensures
        durations_of(spans, cutoff, id).len() > 0 ==> exists|k: int|
            0 <= k < r.len() && (#[trigger] r[k]).id() == id,
        0 <= a < b < r.len() ==> r[a].id() != r[b].id(),
        0 <= a < r.len() ==> {
            &&& r[a].durations@.to_multiset() == durations_of(
                spans,
                cutoff,
                SpanKey { kind: r[a].kind, key: r[a].key@ },
            ).to_multiset()
            &&& 0 <= i < j < r[a].durations@.len() ==> r[a].durations@[i] <= r[a].durations@[j]
            &&& r[a].durations@.len() > 0
        },
{
    if 0 <= a < r.len() && 0 <= i < j < r[a].durations@.len() {
        let v = r[a].durations@;
        assert(is_sorting_of(durations_of(spans, cutoff, r[a].id()), v));
        assert(!lex_lt(v[j].rank(), v[i].rank()));
        lemma_single(v[j] as int, v[i] as int);
    }
}

/// Groups are ordered by what they time, stages before systems, then by key.
pub proof fn law_groups_are_ordered(a: SpanKey, b: SpanKey, i: int)
    requires
        0 <= i <= a.key.len(),
        i < b.key.len(),
        forall|j: int| 0 <= j < i ==> #[trigger] a.key[j] == b.key[j],
        i == a.key.len() || (a.key[i] as int) < (b.key[i] as int),
    ensures
        a.kind == b.kind ==> lex_lt(group_rank(a), group_rank(b)),
        a.kind == SpanKind::Stage && b.kind == SpanKind::System ==> lex_lt(
            group_rank(a),
            group_rank(b),
        ) && !lex_lt(group_rank(b), group_rank(a)),
        kind_name(SpanKind::Stage) == "pipeline.stage"@,
        kind_name(SpanKind::System) == "system.execute"@,
{
    if a.kind == b.kind {
        let head = text_rank(kind_name(a.kind));
        law_texts_are_ordered_by_their_codes(a.key, Seq::empty(), b.key, Seq::empty(), i);
        assert(text_rank(a.key) + Seq::<int>::empty() =~= text_rank(a.key));
        assert(text_rank(b.key) + Seq::<int>::empty() =~= text_rank(b.key));
        lemma_lex_append(head, text_rank(a.key), head, text_rank(b.key));
    } else {
        reveal_strlit("pipeline.stage");
        reveal_strlit("system.execute");
        if a.kind == SpanKind::Stage {
            law_texts_are_ordered_by_their_codes(
                kind_name(a.kind),
                text_rank(a.key),
                kind_name(b.kind),
                text_rank(b.key),
                0,
            );
        }
    }
}

} // verus!
