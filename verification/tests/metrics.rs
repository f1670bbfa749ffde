use pcs_service::metrics::{
    processor_batch, processor_branch_rows, raft, rows, service_gauges, sink_batch, source_batch,
    stage_duration, window_watermark, workflow_error, workflow_run, Amount, Instrument,
    InstrumentKind, MetricNames, MetricWrite, Reported, MAX_PROCESSOR_METRIC_NAMES,
};

fn attr(w: &MetricWrite, key: &str) -> Option<String> {
    w.attrs
        .iter()
        .find(|(k, _)| k == key)
        .map(|(_, v)| v.clone())
}

fn lines_for<'a>(writes: &'a [MetricWrite], series: &str) -> Vec<&'a MetricWrite> {
    writes
        .iter()
        .filter(|w| w.instrument.name() == series)
        .collect()
}

#[test]
fn a_processor_writes_both_the_unattributed_and_the_attributed_series() {
    let writes = processor_batch("proc-7", 1_500_000, 16, 16, 1, 0);
    for series in [
        "pcs_processor_rows_in_total",
        "pcs_processor_rows_out_total",
        "pcs_processor_systems_run_total",
        "pcs_processor_retries_total",
        "pcs_processor_batch_duration_seconds",
    ] {
        let lines = lines_for(&writes, series);
        assert!(
            lines
                .iter()
                .any(|w| attr(w, "processor").as_deref() == Some("proc-7")),
            "{series} must carry the processor attribute"
        );
        assert!(
            lines.iter().any(|w| w.attrs.is_empty()),
            "{series} must keep its unattributed form"
        );
        assert_eq!(lines.len(), 2);
        assert_eq!(lines[0].amount, lines[1].amount);
    }
    assert_eq!(writes[0].amount, Amount::Nanos(1_500_000));
    assert_eq!(writes[1].amount, Amount::Count(16));
    assert_eq!(writes[3].amount, Amount::Count(1));
}

#[test]
fn a_workflow_writes_both_the_unattributed_and_the_attributed_counters() {
    let mut writes = workflow_run("alpha");
    writes.extend(workflow_error("alpha"));
    for series in ["pcs_workflow_runs_total", "pcs_workflow_errors_total"] {
        let lines = lines_for(&writes, series);
        assert!(
            lines
                .iter()
                .any(|w| attr(w, "workflow").as_deref() == Some("alpha")),
            "{series} must carry the workflow attribute"
        );
        assert!(
            lines.iter().any(|w| attr(w, "workflow").is_none()),
            "{series} must keep its unattributed form"
        );
    }
}

#[test]
fn sources_and_sinks_are_attributed() {
    let w = source_batch("in");
    assert_eq!(attr(&w[1], "source").as_deref(), Some("in"));
    let w = sink_batch("out");
    assert_eq!(attr(&w[1], "sink").as_deref(), Some("out"));
    let w = rows("in", 12);
    assert_eq!(w[0].amount, Amount::Count(12));
    assert_eq!(w[1].amount, Amount::Count(12));
    let w = processor_branch_rows("p", "high", 3);
    assert_eq!(
        w.attrs,
        vec![
            ("processor".to_string(), "p".to_string()),
            ("branch".to_string(), "high".to_string())
        ]
    );
    let w = window_watermark("p", 9);
    assert_eq!(w.attrs.len(), 1);
    assert_eq!(stage_duration(1).attrs.len(), 0);
}

#[test]
fn gauges_are_written_even_without_a_leader() {
    let w = raft(4, 2, None);
    assert_eq!(w[2].instrument, Instrument::RaftLeaderId);
    assert_eq!(w[2].amount, Amount::Absent);
    assert_eq!(raft(4, 2, Some(3))[2].amount, Amount::Count(3));
    let w = service_gauges(1, true, 7);
    assert_eq!(w[1].amount, Amount::Flag(true));
    assert_eq!(w.len(), 3);
}

#[test]
fn there_are_nineteen_instruments_with_names_of_their_own() {
    let all = Instrument::all();
    assert_eq!(all.len(), 19);
    let mut names: Vec<&str> = all.iter().map(|i| i.name()).collect();
    names.sort();
    names.dedup();
    assert_eq!(names.len(), 19);
    assert_eq!(
        all.iter()
            .filter(|i| i.kind() == InstrumentKind::Counter)
            .count(),
        9
    );
    assert_eq!(
        all.iter()
            .filter(|i| i.kind() == InstrumentKind::Histogram)
            .count(),
        3
    );
    assert_eq!(Instrument::Ready.description(), "Service ready state (1=ready)");
}

#[test]
fn processor_metric_names_are_capped_with_one_warning() {
    let mut names = MetricNames::new();
    for i in 0..MAX_PROCESSOR_METRIC_NAMES {
        match names.processor_metric("p", &format!("m{i}"), 1) {
            Reported::Written(w) => {
                assert_eq!(w.len(), 2);
                assert_eq!(
                    w[1].attrs,
                    vec![
                        ("metric".to_string(), format!("m{i}")),
                        ("processor".to_string(), "p".to_string())
                    ]
                );
            }
            Reported::Dropped { .. } => panic!("below the cap"),
        }
    }
    assert!(matches!(
        names.processor_metric("p", "one more", 1),
        Reported::Dropped { warn: true }
    ));
    assert!(matches!(
        names.processor_metric("p", "and another", 1),
        Reported::Dropped { warn: false }
    ));
    assert!(matches!(
        names.processor_metric("q", "m0", 1),
        Reported::Written(_)
    ));
}
