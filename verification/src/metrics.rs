//! The service's own metric series: which instruments there are, and what
//! each event writes into them.
//!
//! Attribution is additive: a value is written once without attributes, which
//! is the process-wide total, and once more under the id of the node or
//! workflow it belongs to. Adding both forms up counts twice.

use vstd::prelude::*;

use crate::inspector::edges::{BRANCH_ATTR, PROCESSOR_ATTR, SINK_ATTR, SOURCE_ATTR};
use crate::inspector::series::attr_views;

verus! {

/// Attribute that names the workflow a series belongs to.
pub const WORKFLOW_ATTR: &'static str = "workflow";

/// Attribute that names a processor-defined metric.
pub const METRIC_ATTR: &'static str = "metric";

/// Upper bound on distinct processor-chosen metric names. Every new name adds
/// a permanent entry to the aggregation store.
pub const MAX_PROCESSOR_METRIC_NAMES: usize = 256;

/// The instruments of the service.
#[derive(Debug, Clone, Copy, PartialEq, Eq, Structural)]
pub enum Instrument {
    WorkflowRuns,
    WorkflowErrors,
    StageDuration,
    SourceBatches,
    SinkBatches,
    RowsProcessed,
    Liveness,
    Ready,
    Uptime,
    RaftCommitIndex,
    RaftTerm,
    RaftLeaderId,
    ProcessorBatchDuration,
    ProcessorRowsIn,
    ProcessorRowsOut,
    ProcessorSystemsRun,
    ProcessorRetries,
    ProcessorMetric,
    WindowWatermark,
}

/// How an instrument aggregates.
#[derive(Debug, Clone, Copy, PartialEq, Eq, Structural)]
pub enum InstrumentKind {
    Counter,
    Histogram,
    Gauge,
}

/// The name of an instrument's series.
pub open spec fn instrument_name(i: Instrument) -> Seq<char> {
    match i {
        Instrument::WorkflowRuns => "pcs_workflow_runs_total"@,
        Instrument::WorkflowErrors => "pcs_workflow_errors_total"@,
        Instrument::StageDuration => "pcs_stage_duration_seconds"@,
        Instrument::SourceBatches => "pcs_source_batches_drained_total"@,
        Instrument::SinkBatches => "pcs_sink_batches_written_total"@,
        Instrument::RowsProcessed => "pcs_rows_processed_total"@,
        Instrument::Liveness => "pcs_liveness_counter"@,
        Instrument::Ready => "pcs_ready"@,
        Instrument::Uptime => "pcs_uptime_seconds"@,
        Instrument::RaftCommitIndex => "pcs_raft_commit_index"@,
        Instrument::RaftTerm => "pcs_raft_term"@,
        Instrument::RaftLeaderId => "pcs_raft_leader_id"@,
        Instrument::ProcessorBatchDuration => "pcs_processor_batch_duration_seconds"@,
        Instrument::ProcessorRowsIn => "pcs_processor_rows_in_total"@,
        Instrument::ProcessorRowsOut => "pcs_processor_rows_out_total"@,
        Instrument::ProcessorSystemsRun => "pcs_processor_systems_run_total"@,
        Instrument::ProcessorRetries => "pcs_processor_retries_total"@,
        Instrument::ProcessorMetric => "pcs_processor_metric"@,
        Instrument::WindowWatermark => "pcs_window_watermark_seconds"@,
    }
}

/// What an instrument measures, in words.
pub open spec fn instrument_description(i: Instrument) -> Seq<char> {
    match i {
        Instrument::WorkflowRuns => "Total number of workflow runs"@,
        Instrument::WorkflowErrors => "Total number of workflow run errors"@,
        Instrument::StageDuration => "Stage execution duration in seconds"@,
        Instrument::SourceBatches => "Total source batches drained"@,
        Instrument::SinkBatches => "Total sink batches written"@,
        Instrument::RowsProcessed => "Total rows processed through the pipeline"@,
        Instrument::Liveness => "Watchdog liveness counter"@,
        Instrument::Ready => "Service ready state (1=ready)"@,
        Instrument::Uptime => "Service uptime in seconds"@,
        Instrument::RaftCommitIndex => "Raft commit index"@,
        Instrument::RaftTerm => "Current Raft term"@,
        Instrument::RaftLeaderId => "Current Raft leader node ID"@,
        Instrument::ProcessorBatchDuration => "Processor run-batch wall time in seconds"@,
        Instrument::ProcessorRowsIn => "Total rows handed to the processor"@,
        Instrument::ProcessorRowsOut => "Total rows returned by the processor"@,
        Instrument::ProcessorSystemsRun => "Total systems the processor executed"@,
        Instrument::ProcessorRetries => "Total system retries inside the processor"@,
        Instrument::ProcessorMetric => "Values reported by processor code through host-io::metric"@,
        Instrument::WindowWatermark => "Event-time watermark of a windowed processor node, in epoch seconds"@,
    }
}

/// How an instrument aggregates.
pub open spec fn instrument_kind(i: Instrument) -> InstrumentKind {
    match i {
        Instrument::StageDuration | Instrument::ProcessorBatchDuration
        | Instrument::ProcessorMetric => InstrumentKind::Histogram,
        Instrument::Liveness | Instrument::Ready | Instrument::Uptime | Instrument::RaftCommitIndex
        | Instrument::RaftTerm | Instrument::RaftLeaderId | Instrument::WindowWatermark => InstrumentKind::Gauge,
        _ => InstrumentKind::Counter,
    }
}

impl Instrument {
    /// Every instrument, each once.
    pub fn all() -> (r: Vec<Instrument>)
        ensures
            forall|i: Instrument| #[trigger] r@.contains(i),
            r@.no_duplicates(),
    {
        let r: Vec<Instrument> = vec![
            Instrument::WorkflowRuns,
            Instrument::WorkflowErrors,
            Instrument::StageDuration,
            Instrument::SourceBatches,
            Instrument::SinkBatches,
            Instrument::RowsProcessed,
            Instrument::Liveness,
            Instrument::Ready,
            Instrument::Uptime,
            Instrument::RaftCommitIndex,
            Instrument::RaftTerm,
            Instrument::RaftLeaderId,
            Instrument::ProcessorBatchDuration,
            Instrument::ProcessorRowsIn,
            Instrument::ProcessorRowsOut,
            Instrument::ProcessorSystemsRun,
            Instrument::ProcessorRetries,
            Instrument::ProcessorMetric,
            Instrument::WindowWatermark,
        ];
        proof {
            assert forall|i: Instrument| #[trigger] r@.contains(i) by {
                let k: int = match i {
                    Instrument::WorkflowRuns => 0,
                    Instrument::WorkflowErrors => 1,
                    Instrument::StageDuration => 2,
                    Instrument::SourceBatches => 3,
                    Instrument::SinkBatches => 4,
                    Instrument::RowsProcessed => 5,
                    Instrument::Liveness => 6,
                    Instrument::Ready => 7,
                    Instrument::Uptime => 8,
                    Instrument::RaftCommitIndex => 9,
                    Instrument::RaftTerm => 10,
                    Instrument::RaftLeaderId => 11,
                    Instrument::ProcessorBatchDuration => 12,
                    Instrument::ProcessorRowsIn => 13,
                    Instrument::ProcessorRowsOut => 14,
                    Instrument::ProcessorSystemsRun => 15,
                    Instrument::ProcessorRetries => 16,
                    Instrument::ProcessorMetric => 17,
                    Instrument::WindowWatermark => 18,
                };
                assert(r@[k] == i);
            }
        }
        r
    }

    /// The name of the instrument's series.
    pub fn name(self) -> (r: &'static str)
        ensures
            r@ == instrument_name(self),
    {
        match self {
            Instrument::WorkflowRuns => "pcs_workflow_runs_total",
            Instrument::WorkflowErrors => "pcs_workflow_errors_total",
            Instrument::StageDuration => "pcs_stage_duration_seconds",
            Instrument::SourceBatches => "pcs_source_batches_drained_total",
            Instrument::SinkBatches => "pcs_sink_batches_written_total",
            Instrument::RowsProcessed => "pcs_rows_processed_total",
            Instrument::Liveness => "pcs_liveness_counter",
            Instrument::Ready => "pcs_ready",
            Instrument::Uptime => "pcs_uptime_seconds",
            Instrument::RaftCommitIndex => "pcs_raft_commit_index",
            Instrument::RaftTerm => "pcs_raft_term",
            Instrument::RaftLeaderId => "pcs_raft_leader_id",
            Instrument::ProcessorBatchDuration => "pcs_processor_batch_duration_seconds",
            Instrument::ProcessorRowsIn => "pcs_processor_rows_in_total",
            Instrument::ProcessorRowsOut => "pcs_processor_rows_out_total",
            Instrument::ProcessorSystemsRun => "pcs_processor_systems_run_total",
            Instrument::ProcessorRetries => "pcs_processor_retries_total",
            Instrument::ProcessorMetric => "pcs_processor_metric",
            Instrument::WindowWatermark => "pcs_window_watermark_seconds",
        }
    }

    /// What the instrument measures, in words.
    pub fn description(self) -> (r: &'static str)
        ensures
            r@ == instrument_description(self),
    {
        match self {
            Instrument::WorkflowRuns => "Total number of workflow runs",
            Instrument::WorkflowErrors => "Total number of workflow run errors",
            Instrument::StageDuration => "Stage execution duration in seconds",
            Instrument::SourceBatches => "Total source batches drained",
            Instrument::SinkBatches => "Total sink batches written",
            Instrument::RowsProcessed => "Total rows processed through the pipeline",
            Instrument::Liveness => "Watchdog liveness counter",
            Instrument::Ready => "Service ready state (1=ready)",
            Instrument::Uptime => "Service uptime in seconds",
            Instrument::RaftCommitIndex => "Raft commit index",
            Instrument::RaftTerm => "Current Raft term",
            Instrument::RaftLeaderId => "Current Raft leader node ID",
            Instrument::ProcessorBatchDuration => "Processor run-batch wall time in seconds",
            Instrument::ProcessorRowsIn => "Total rows handed to the processor",
            Instrument::ProcessorRowsOut => "Total rows returned by the processor",
            Instrument::ProcessorSystemsRun => "Total systems the processor executed",
            Instrument::ProcessorRetries => "Total system retries inside the processor",
            Instrument::ProcessorMetric => "Values reported by processor code through host-io::metric",
            Instrument::WindowWatermark => "Event-time watermark of a windowed processor node, in epoch seconds",
        }
    }

    /// How the instrument aggregates.
    pub fn kind(self) -> (r: InstrumentKind)
        ensures
            r == instrument_kind(self),
    {
        match self {
            Instrument::StageDuration | Instrument::ProcessorBatchDuration
            | Instrument::ProcessorMetric => InstrumentKind::Histogram,
            Instrument::Liveness | Instrument::Ready | Instrument::Uptime
            | Instrument::RaftCommitIndex | Instrument::RaftTerm | Instrument::RaftLeaderId
            | Instrument::WindowWatermark => InstrumentKind::Gauge,
            _ => InstrumentKind::Counter,
        }
    }
}

/// A value to write.
#[derive(Debug, Clone, Copy, PartialEq, Eq, Structural)]
pub enum Amount {
    /// So many.
    Count(u64),
    /// So many nanoseconds, in seconds.
    Nanos(u64),
    /// One where it holds, else zero.
    Flag(bool),
    /// Minus one.
    Absent,
    /// The number with these bits.
    Bits(u64),
}

/// One value written into one series.
#[derive(Debug)]
pub struct MetricWrite {
    pub instrument: Instrument,
    pub attrs: Vec<(String, String)>,
    pub amount: Amount,
}

/// The contents of a [`MetricWrite`].
pub ghost struct WriteView {
    pub instrument: Instrument,
    pub attrs: Seq<(Seq<char>, Seq<char>)>,
    pub amount: Amount,
}

impl View for MetricWrite {
    type V = WriteView;

    open spec fn view(&self) -> WriteView {
        WriteView {
            instrument: self.instrument,
            attrs: attr_views(self.attrs@),
            amount: self.amount,
        }
    }
}

/// The contents of each write.
pub open spec fn write_views(v: Seq<MetricWrite>) -> Seq<WriteView> {
    v.map_values(|w: MetricWrite| w@)
}

/// A value in the process-wide series.
pub open spec fn total(instrument: Instrument, amount: Amount) -> WriteView {
    WriteView { instrument, attrs: Seq::empty(), amount }
}

/// A value in the series of one node or workflow.
pub open spec fn under(
    instrument: Instrument,
    key: Seq<char>,
    id: Seq<char>,
    amount: Amount,
) -> WriteView {
    WriteView { instrument, attrs: seq![(key, id)], amount }
}

/// A value in both.
pub open spec fn both(
    instrument: Instrument,
    key: Seq<char>,
    id: Seq<char>,
    amount: Amount,
) -> Seq<WriteView> {
    seq![total(instrument, amount), under(instrument, key, id, amount)]
}

fn plain(instrument: Instrument, amount: Amount) -> (r: MetricWrite)
    ensures
        r@ == total(instrument, amount),
{
    let r = MetricWrite { instrument, attrs: Vec::new(), amount };
    assert(attr_views(r.attrs@) =~= Seq::<(Seq<char>, Seq<char>)>::empty());
    r
}

fn labelled(instrument: Instrument, key: &str, id: &str, amount: Amount) -> (r: MetricWrite)
    ensures
        r@ == under(instrument, key@, id@, amount),
{
    let mut attrs: Vec<(String, String)> = Vec::new();
    attrs.push((key.to_owned(), id.to_owned()));
    assert(attr_views(attrs@) =~= seq![(key@, id@)]);
    MetricWrite { instrument, attrs, amount }
}

fn in_both(instrument: Instrument, key: &str, id: &str, amount: Amount) -> (r: Vec<MetricWrite>)
    ensures
        write_views(r@) == both(instrument, key@, id@, amount),
{
    let mut r: Vec<MetricWrite> = Vec::new();
    r.push(plain(instrument, amount));
    r.push(labelled(instrument, key, id, amount));
    assert(write_views(r@) =~= both(instrument, key@, id@, amount));
    r
}

/// One completed run of a workflow.
pub fn workflow_run(workflow: &str) -> (r: Vec<MetricWrite>)
    ensures
        write_views(r@) == both(
            Instrument::WorkflowRuns,
            WORKFLOW_ATTR@,
            workflow@,
            Amount::Count(1),
        ),
{
    in_both(Instrument::WorkflowRuns, WORKFLOW_ATTR, workflow, Amount::Count(1))
}

/// One run of a workflow that ended in an error.
pub fn workflow_error(workflow: &str) -> (r: Vec<MetricWrite>)
    ensures
        write_views(r@) == both(
            Instrument::WorkflowErrors,
            WORKFLOW_ATTR@,
            workflow@,
            Amount::Count(1),
        ),
{
    in_both(Instrument::WorkflowErrors, WORKFLOW_ATTR, workflow, Amount::Count(1))
}

/// One stage, with the bits of the seconds it took. It belongs to no node.
pub fn stage_duration(seconds: u64) -> (r: MetricWrite)
    ensures
        r@ == total(Instrument::StageDuration, Amount::Bits(seconds)),
{
    plain(Instrument::StageDuration, Amount::Bits(seconds))
}

/// One non-empty drain from a source.
pub fn source_batch(source: &str) -> (r: Vec<MetricWrite>)
    ensures
        write_views(r@) == both(
            Instrument::SourceBatches,
            SOURCE_ATTR@,
            source@,
            Amount::Count(1),
        ),
{
    in_both(Instrument::SourceBatches, SOURCE_ATTR, source, Amount::Count(1))
}

/// One non-empty write to a sink.
pub fn sink_batch(sink: &str) -> (r: Vec<MetricWrite>)
    ensures
        write_views(r@) == both(Instrument::SinkBatches, SINK_ATTR@, sink@, Amount::Count(1)),
{
    in_both(Instrument::SinkBatches, SINK_ATTR, sink, Amount::Count(1))
}

/// Rows drained from a source.
pub fn rows(source: &str, n: u64) -> (r: Vec<MetricWrite>)
    ensures
        write_views(r@) == both(Instrument::RowsProcessed, SOURCE_ATTR@, source@, Amount::Count(n)),
{
    in_both(Instrument::RowsProcessed, SOURCE_ATTR, source, Amount::Count(n))
}

/// The watchdog's counter, the readiness and the bits of the uptime in
/// seconds.
pub fn service_gauges(liveness: u64, ready: bool, uptime_seconds: u64) -> (r: Vec<MetricWrite>)
    ensures
        write_views(r@) == seq![
            total(Instrument::Liveness, Amount::Count(liveness)),
            total(Instrument::Ready, Amount::Flag(ready)),
            total(Instrument::Uptime, Amount::Bits(uptime_seconds)),
        ],
{
    let mut r: Vec<MetricWrite> = Vec::new();
    r.push(plain(Instrument::Liveness, Amount::Count(liveness)));
    r.push(plain(Instrument::Ready, Amount::Flag(ready)));
    r.push(plain(Instrument::Uptime, Amount::Bits(uptime_seconds)));
    assert(write_views(r@) =~= seq![
        total(Instrument::Liveness, Amount::Count(liveness)),
        total(Instrument::Ready, Amount::Flag(ready)),
        total(Instrument::Uptime, Amount::Bits(uptime_seconds)),
    ]);
    r
}

/// The raft state. A missing leader is written as such: a gauge keeps its
/// last value, and to write nothing would leave a leader that was lost.
pub fn raft(commit_index: u64, term: u64, leader_id: Option<u64>) -> (r: Vec<MetricWrite>)
    ensures
        write_views(r@) == seq![
            total(Instrument::RaftCommitIndex, Amount::Count(commit_index)),
            total(Instrument::RaftTerm, Amount::Count(term)),
            total(
                Instrument::RaftLeaderId,
                match leader_id {
                    Some(id) => Amount::Count(id),
                    None => Amount::Absent,
                },
            ),
        ],
{
    let leader = match leader_id {
        Some(id) => Amount::Count(id),
        None => Amount::Absent,
    };
    let mut r: Vec<MetricWrite> = Vec::new();
    r.push(plain(Instrument::RaftCommitIndex, Amount::Count(commit_index)));
    r.push(plain(Instrument::RaftTerm, Amount::Count(term)));
    r.push(plain(Instrument::RaftLeaderId, leader));
    assert(write_views(r@) =~= seq![
        total(Instrument::RaftCommitIndex, Amount::Count(commit_index)),
        total(Instrument::RaftTerm, Amount::Count(term)),
        total(Instrument::RaftLeaderId, leader),
    ]);
    r
}

/// What one batch of a processor is measured by.
pub open spec fn batch_amounts(
    wall_ns: u64,
    rows_in: u64,
    rows_out: u64,
    systems_run: u32,
    retries: u32,
) -> Seq<(Instrument, Amount)> {
    seq![
        (Instrument::ProcessorBatchDuration, Amount::Nanos(wall_ns)),
        (Instrument::ProcessorRowsIn, Amount::Count(rows_in)),
        (Instrument::ProcessorRowsOut, Amount::Count(rows_out)),
        (Instrument::ProcessorSystemsRun, Amount::Count(systems_run as u64)),
        (Instrument::ProcessorRetries, Amount::Count(retries as u64)),
    ]
}

/// One batch of a processor: first the totals, then the same under its id.
pub fn processor_batch(
    processor: &str,
    wall_ns: u64,
    rows_in: u64,
    rows_out: u64,
    systems_run: u32,
    retries: u32,
) -> (r: Vec<MetricWrite>)
    ensures
        write_views(r@) == batch_amounts(
            wall_ns,
            rows_in,
            rows_out,
            systems_run,
            retries,
        ).map_values(|p: (Instrument, Amount)| total(p.0, p.1)) + batch_amounts(
            wall_ns,
            rows_in,
            rows_out,
            systems_run,
            retries,
        ).map_values(|p: (Instrument, Amount)| under(p.0, PROCESSOR_ATTR@, processor@, p.1)),
{
    let seconds = Amount::Nanos(wall_ns);
    let rows_in_n = Amount::Count(rows_in);
    let rows_out_n = Amount::Count(rows_out);
    let systems_n = Amount::Count(systems_run as u64);
    let retries_n = Amount::Count(retries as u64);
    let mut r: Vec<MetricWrite> = Vec::new();
    r.push(plain(Instrument::ProcessorBatchDuration, seconds));
    r.push(plain(Instrument::ProcessorRowsIn, rows_in_n));
    r.push(plain(Instrument::ProcessorRowsOut, rows_out_n));
    r.push(plain(Instrument::ProcessorSystemsRun, systems_n));
    r.push(plain(Instrument::ProcessorRetries, retries_n));
    r.push(labelled(Instrument::ProcessorBatchDuration, PROCESSOR_ATTR, processor, seconds));
    r.push(labelled(Instrument::ProcessorRowsIn, PROCESSOR_ATTR, processor, rows_in_n));
    r.push(labelled(Instrument::ProcessorRowsOut, PROCESSOR_ATTR, processor, rows_out_n));
    r.push(labelled(Instrument::ProcessorSystemsRun, PROCESSOR_ATTR, processor, systems_n));
    r.push(labelled(Instrument::ProcessorRetries, PROCESSOR_ATTR, processor, retries_n));
    proof {
        let amounts = batch_amounts(wall_ns, rows_in, rows_out, systems_run, retries);
        assert(write_views(r@) =~= amounts.map_values(
            |p: (Instrument, Amount)| total(p.0, p.1),
        ) + amounts.map_values(
            |p: (Instrument, Amount)| under(p.0, PROCESSOR_ATTR@, processor@, p.1),
        ));
    }
    r
}

/// Rows a processor gave out along one labelled edge.
pub fn processor_branch_rows(processor: &str, branch: &str, n: u64) -> (r: MetricWrite)
    ensures
        r@ == (WriteView {
            instrument: Instrument::ProcessorRowsOut,
            attrs: seq![(PROCESSOR_ATTR@, processor@), (BRANCH_ATTR@, branch@)],
            amount: Amount::Count(n),
        }),
{
    let mut attrs: Vec<(String, String)> = Vec::new();
    attrs.push((PROCESSOR_ATTR.to_owned(), processor.to_owned()));
    attrs.push((BRANCH_ATTR.to_owned(), branch.to_owned()));
    assert(attr_views(attrs@) =~= seq![(PROCESSOR_ATTR@, processor@), (BRANCH_ATTR@, branch@)]);
    MetricWrite {
        instrument: Instrument::ProcessorRowsOut,
        attrs,
        amount: Amount::Count(n),
    }
}

/// The watermark of one windowed node, by the bits of its epoch seconds.
/// There is no total: watermarks of different nodes do not add up.
pub fn window_watermark(processor: &str, seconds: u64) -> (r: MetricWrite)
    ensures
        r@ == under(
            Instrument::WindowWatermark,
            PROCESSOR_ATTR@,
            processor@,
            Amount::Bits(seconds),
        ),
{
    labelled(Instrument::WindowWatermark, PROCESSOR_ATTR, processor, Amount::Bits(seconds))
}

/// The processor-chosen metric names seen so far, up to a cap.
pub struct MetricNames {
    names: Vec<String>,
    warned: bool,
}

/// What reporting a processor metric comes to.
pub enum Reported {
    Written(Vec<MetricWrite>),
    /// The name is one too many. The first such name is worth a warning.
    Dropped { warn: bool },
}

impl MetricNames {
    /// The names admitted.
    pub closed spec fn names(self) -> Set<Seq<char>> {
        self.names@.map_values(|s: String| s@).to_set()
    }

    pub closed spec fn warned(self) -> bool {
        self.warned
    }

    /// No more names than the cap, each once.
    pub closed spec fn wf(self) -> bool {
        &&& self.names@.map_values(|s: String| s@).no_duplicates()
        &&& self.names@.len() <= MAX_PROCESSOR_METRIC_NAMES
    }

    pub fn new() -> (r: Self)
        ensures
            r.wf(),
            r.names() == Set::<Seq<char>>::empty(),
            !r.warned(),
    {
        let r = MetricNames { names: Vec::new(), warned: false };
        proof {
            assert(r.names@.map_values(|s: String| s@) =~= Seq::<Seq<char>>::empty());
            assert(r.names() =~= Set::<Seq<char>>::empty());
        }
        r
    }

    /// There are never more names than the cap.
    pub proof fn law_names_stay_capped(self)
        requires
            self.wf(),
        ensures
            self.names().finite(),
            self.names().len() <= MAX_PROCESSOR_METRIC_NAMES,
    {
        self.names@.map_values(|s: String| s@).unique_seq_to_set();
    }

    fn take_name(&mut self, name: &str) -> (r: bool)
        requires
            old(self).wf(),
        ensures
            final(self).wf(),
            final(self).warned() == old(self).warned(),
            r == (old(self).names().contains(name@) || old(self).names().len()
                < MAX_PROCESSOR_METRIC_NAMES),
            final(self).names() == if r {
                old(self).names().insert(name@)
            } else {
                old(self).names()
            },
    {
        let ghost views = self.names@.map_values(|s: String| s@);
        proof {
            views.unique_seq_to_set();
        }
        let wanted = name.to_owned();
        let mut i: usize = 0;
        while i < self.names.len()
            invariant
                i <= self.names@.len(),
                *self == *old(self),
                self.wf(),
                wanted@ == name@,
                views == self.names@.map_values(|s: String| s@),
                forall|j: int| 0 <= j < i ==> #[trigger] views[j] != name@,
            decreases self.names@.len() - i,
        {
            if self.names[i] == wanted {
                proof {
                    assert(views[i as int] == name@);
                    assert(views.contains(name@));
                    assert(self.names() =~= self.names().insert(name@));
                }
                return true;
            }
            assert(views[i as int] != name@);
            i += 1;
        }
        assert(!views.contains(name@));
        if self.names.len() < MAX_PROCESSOR_METRIC_NAMES {
            self.names.push(wanted);
            proof {
                let now = self.names@.map_values(|s: String| s@);
                assert(now =~= views.push(name@));
                assert(now.to_set() =~= views.to_set().insert(name@)) by {
                    assert forall|x: Seq<char>| now.to_set().contains(x) <==> views.to_set().insert(
                        name@,
                    ).contains(x) by {
                        if now.contains(x) {
                            let k = now.index_of(x);
                            if k < views.len() {
                                assert(views[k] == x);
                            }
                        }
                        if views.contains(x) {
                            assert(now[views.index_of(x)] == x);
                        }
                        assert(now[views.len() as int] == name@);
                    }
                }
            }
            true
        } else {
            false
        }
    }

    /// One value a processor reports under a name of its own choice, by its
    /// bits. A name past the cap is dropped. The cap counts names, whichever
    /// processors report them.
    pub fn processor_metric(&mut self, processor: &str, name: &str, value: u64) -> (r: Reported)
        requires
            old(self).wf(),
        ensures
            final(self).wf(),
            ({
                let admitted = old(self).names().contains(name@) || old(self).names().len()
                    < MAX_PROCESSOR_METRIC_NAMES;
                if admitted {
                    &&& r matches Reported::Written(w) && write_views(w@) == seq![
                        under(
                            Instrument::ProcessorMetric,
                            METRIC_ATTR@,
                            name@,
                            Amount::Bits(value),
                        ),
                        WriteView {
                            instrument: Instrument::ProcessorMetric,
                            attrs: seq![(METRIC_ATTR@, name@), (PROCESSOR_ATTR@, processor@)],
                            amount: Amount::Bits(value),
                        },
                    ]
                    &&& final(self).names() == old(self).names().insert(name@)
                    &&& final(self).warned() == old(self).warned()
                } else {
                    &&& r == (Reported::Dropped { warn: !old(self).warned() })
                    &&& final(self).names() == old(self).names()
                    &&& final(self).warned()
                }
            }),
    {
        if !self.take_name(name) {
            let warn = !self.warned;
            self.warned = true;
            return Reported::Dropped { warn };
        }
        let mut attrs: Vec<(String, String)> = Vec::new();
        attrs.push((METRIC_ATTR.to_owned(), name.to_owned()));
        attrs.push((PROCESSOR_ATTR.to_owned(), processor.to_owned()));
        assert(attr_views(attrs@) =~= seq![(METRIC_ATTR@, name@), (PROCESSOR_ATTR@, processor@)]);
        let mut w: Vec<MetricWrite> = Vec::new();
        w.push(labelled(Instrument::ProcessorMetric, METRIC_ATTR, name, Amount::Bits(value)));
        w.push(
            MetricWrite {
                instrument: Instrument::ProcessorMetric,
                attrs,
                amount: Amount::Bits(value),
            },
        );
        assert(write_views(w@) =~= seq![
            under(Instrument::ProcessorMetric, METRIC_ATTR@, name@, Amount::Bits(value)),
            WriteView {
                instrument: Instrument::ProcessorMetric,
                attrs: seq![(METRIC_ATTR@, name@), (PROCESSOR_ATTR@, processor@)],
                amount: Amount::Bits(value),
            },
        ]);
        Reported::Written(w)
    }
}

/// The values a series of that name and those attributes gets.
pub open spec fn amounts_in(
    writes: Seq<WriteView>,
    instrument: Instrument,
    attrs: Seq<(Seq<char>, Seq<char>)>,
) -> Seq<Amount>
    decreases writes.len(),
{
    if writes.len() == 0 {
        Seq::empty()
    } else {
        let before = amounts_in(writes.drop_last(), instrument, attrs);
        let w = writes.last();
        if w.instrument == instrument && w.attrs == attrs {
            before.push(w.amount)
        } else {
            before
        }
    }
}

/// Attribution takes nothing from the total: of a value written in both
/// forms, the series without attributes and the one under the id get the same.
pub proof fn law_attribution_is_additive(
    instrument: Instrument,
    key: Seq<char>,
    id: Seq<char>,
    amount: Amount,
)
    ensures
        amounts_in(both(instrument, key, id, amount), instrument, Seq::empty()) == seq![amount],
        amounts_in(both(instrument, key, id, amount), instrument, seq![(key, id)]) == seq![amount],
{
    let w = both(instrument, key, id, amount);
    let none = Seq::<(Seq<char>, Seq<char>)>::empty();
    let one = seq![(key, id)];
    assert(one.len() == 1 && none.len() == 0);
    assert(w.drop_last() =~= seq![total(instrument, amount)]);
    assert(w.drop_last().drop_last() =~= Seq::<WriteView>::empty());
    reveal_with_fuel(amounts_in, 3);
    assert(amounts_in(w.drop_last().drop_last(), instrument, none) =~= Seq::<Amount>::empty());
    assert(amounts_in(w.drop_last().drop_last(), instrument, one) =~= Seq::<Amount>::empty());
    assert(amounts_in(w, instrument, none) =~= seq![amount]);
    assert(amounts_in(w, instrument, one) =~= seq![amount]);
}

/// The names under which the instruments are scraped.
pub proof fn law_instruments_are_named()
    ensures
        instrument_name(Instrument::WorkflowRuns) == "pcs_workflow_runs_total"@,
        instrument_name(Instrument::WorkflowErrors) == "pcs_workflow_errors_total"@,
        instrument_name(Instrument::StageDuration) == "pcs_stage_duration_seconds"@,
        instrument_name(Instrument::SourceBatches) == "pcs_source_batches_drained_total"@,
        instrument_name(Instrument::SinkBatches) == "pcs_sink_batches_written_total"@,
        instrument_name(Instrument::RowsProcessed) == "pcs_rows_processed_total"@,
        instrument_name(Instrument::Liveness) == "pcs_liveness_counter"@,
        instrument_name(Instrument::Ready) == "pcs_ready"@,
        instrument_name(Instrument::Uptime) == "pcs_uptime_seconds"@,
        instrument_name(Instrument::RaftCommitIndex) == "pcs_raft_commit_index"@,
        instrument_name(Instrument::RaftTerm) == "pcs_raft_term"@,
        instrument_name(Instrument::RaftLeaderId) == "pcs_raft_leader_id"@,
        instrument_name(Instrument::ProcessorBatchDuration) == "pcs_processor_batch_duration_seconds"@,
        instrument_name(Instrument::ProcessorRowsIn) == "pcs_processor_rows_in_total"@,
        instrument_name(Instrument::ProcessorRowsOut) == "pcs_processor_rows_out_total"@,
        instrument_name(Instrument::ProcessorSystemsRun) == "pcs_processor_systems_run_total"@,
        instrument_name(Instrument::ProcessorRetries) == "pcs_processor_retries_total"@,
        instrument_name(Instrument::ProcessorMetric) == "pcs_processor_metric"@,
        instrument_name(Instrument::WindowWatermark) == "pcs_window_watermark_seconds"@,
{
}

/// What is said of each instrument.
pub proof fn law_instruments_are_described()
    ensures
        instrument_description(Instrument::WorkflowRuns)
            == "Total number of workflow runs"@,
        instrument_description(Instrument::WorkflowErrors)
            == "Total number of workflow run errors"@,
        instrument_description(Instrument::StageDuration)
            == "Stage execution duration in seconds"@,
        instrument_description(Instrument::SourceBatches)
            == "Total source batches drained"@,
        instrument_description(Instrument::SinkBatches)
            == "Total sink batches written"@,
        instrument_description(Instrument::RowsProcessed)
            == "Total rows processed through the pipeline"@,
        instrument_description(Instrument::Liveness)
            == "Watchdog liveness counter"@,
        instrument_description(Instrument::Ready)
            == "Service ready state (1=ready)"@,
        instrument_description(Instrument::Uptime)
            == "Service uptime in seconds"@,
        instrument_description(Instrument::RaftCommitIndex)
            == "Raft commit index"@,
        instrument_description(Instrument::RaftTerm)
            == "Current Raft term"@,
        instrument_description(Instrument::RaftLeaderId)
            == "Current Raft leader node ID"@,
        instrument_description(Instrument::ProcessorBatchDuration)
            == "Processor run-batch wall time in seconds"@,
        instrument_description(Instrument::ProcessorRowsIn)
            == "Total rows handed to the processor"@,
        instrument_description(Instrument::ProcessorRowsOut)
            == "Total rows returned by the processor"@,
        instrument_description(Instrument::ProcessorSystemsRun)
            == "Total systems the processor executed"@,
        instrument_description(Instrument::ProcessorRetries)
            == "Total system retries inside the processor"@,
        instrument_description(Instrument::ProcessorMetric)
            == "Values reported by processor code through host-io::metric"@,
        instrument_description(Instrument::WindowWatermark)
            == "Event-time watermark of a windowed processor node, in epoch seconds"@,
{
}

/// Durations and the values processors report are spread out; what stands at a level is
/// a gauge; the rest counts up, and says so at the end of its name.
pub proof fn law_instruments_by_kind(i: Instrument)
    ensures
        instrument_kind(i) is Histogram <==> i is StageDuration || i is ProcessorBatchDuration || i
            is ProcessorMetric,
        instrument_kind(i) is Gauge <==> i is Liveness || i is Ready || i is Uptime || i
            is RaftCommitIndex || i is RaftTerm || i is RaftLeaderId || i is WindowWatermark,
        instrument_kind(i) is Counter <==> i is WorkflowRuns || i is WorkflowErrors || i
            is SourceBatches || i is SinkBatches || i is RowsProcessed || i is ProcessorRowsIn || i
            is ProcessorRowsOut || i is ProcessorSystemsRun || i is ProcessorRetries,
{
}

/// A value in both forms is written twice: first without an attribute, then under the
/// one id, each time the whole of it into the same instrument.
pub proof fn law_value_is_written_twice(
    instrument: Instrument,
    key: Seq<char>,
    id: Seq<char>,
    amount: Amount,
)
    ensures
        ({
            let w = both(instrument, key, id, amount);
            &&& w.len() == 2
            &&& w[0].instrument == instrument && w[1].instrument == instrument
            &&& w[0].amount == amount && w[1].amount == amount
            &&& w[0].attrs.len() == 0
            &&& w[1].attrs.len() == 1 && w[1].attrs[0].0 == key && w[1].attrs[0].1 == id
            &&& w[0] == total(instrument, amount) && w[1] == under(instrument, key, id, amount)
        }),
{
}

/// A batch is measured by the time it took, the rows it was handed and returned, the
/// systems it ran and the retries it made, each in its own instrument.
pub proof fn law_batch_is_measured(
    wall_ns: u64,
    rows_in: u64,
    rows_out: u64,
    systems_run: u32,
    retries: u32,
)
    ensures
        ({
            let a = batch_amounts(wall_ns, rows_in, rows_out, systems_run, retries);
            &&& a.len() == 5
            &&& a[0] == (Instrument::ProcessorBatchDuration, Amount::Nanos(wall_ns))
            &&& a[1] == (Instrument::ProcessorRowsIn, Amount::Count(rows_in))
            &&& a[2] == (Instrument::ProcessorRowsOut, Amount::Count(rows_out))
            &&& a[3].0 is ProcessorSystemsRun && (a[3].1 matches Amount::Count(n) && n
                == systems_run)
            &&& a[4].0 is ProcessorRetries && (a[4].1 matches Amount::Count(n) && n == retries)
        }),
{
}

/// A series gets the values written into its instrument under its attributes, in order,
/// and no other.
pub proof fn law_series_gets_its_own(
    writes: Seq<WriteView>,
    w: WriteView,
    instrument: Instrument,
    attrs: Seq<(Seq<char>, Seq<char>)>,
)
    ensures
        amounts_in(Seq::empty(), instrument, attrs).len() == 0,
        w.instrument == instrument && w.attrs == attrs ==> amounts_in(
            writes.push(w),
            instrument,
            attrs,
        ) == amounts_in(writes, instrument, attrs).push(w.amount),
        w.instrument != instrument || w.attrs != attrs ==> amounts_in(
            writes.push(w),
            instrument,
            attrs,
        ) == amounts_in(writes, instrument, attrs),
{
    assert(writes.push(w).drop_last() =~= writes);
}

/// Attributes that name what a series belongs to, and how many names processors may
/// choose. A write is seen by its instrument, its attributes and its value.
pub proof fn law_writes_are_seen_whole(w: MetricWrite, v: Seq<MetricWrite>, i: int)
    requires
        0 <= i < v.len(),
    ensures
        WORKFLOW_ATTR@ == "workflow"@,
        METRIC_ATTR@ == "metric"@,
        SOURCE_ATTR@ == "source"@,
        PROCESSOR_ATTR@ == "processor"@,
        SINK_ATTR@ == "sink"@,
        BRANCH_ATTR@ == "branch"@,
        MAX_PROCESSOR_METRIC_NAMES == 256,
        w@.instrument == w.instrument,
        w@.amount == w.amount,
        w@.attrs.len() == w.attrs@.len(),
        forall|j: int|
            0 <= j < w.attrs@.len() ==> #[trigger] w@.attrs[j] == (w.attrs@[j].0@, w.attrs@[j].1@),
        write_views(v).len() == v.len(),
        write_views(v)[i] == v[i]@,
{
}

} // verus!
