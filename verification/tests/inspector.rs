use core::time::Duration;
use pcs_service::inspector::config::{window_start, InspectorConfig, Published};
use pcs_service::inspector::edges::{
    edge_rates, BridgeEdge, EdgeRate, TopoEdge, TopoNode, Topology, WorkflowTopology, BRANCH_ATTR,
    PROCESSOR_ATTR, PROCESSOR_ROWS_OUT, ROWS_PROCESSED, SINK_ATTR, SINK_BATCHES, SOURCE_ATTR,
};
use pcs_service::inspector::series::{
    decimate, rate_of, recent_samples, MetricSample, PointAt, Rate, SeriesKind, SeriesPoint,
    SeriesSummary,
};
use pcs_service::inspector::traces::{
    level_rank, logs, percentile, span_groups, trace, traces, LogRecord, SpanKind, SpanRecord,
    STAGE_SPAN, SYSTEM_SPAN,
};

const MAX_POINTS: usize = 120;

fn summarize_series(samples: &Vec<MetricSample>) -> Vec<SeriesSummary> {
    pcs_service::inspector::series::summarize_series(samples, MAX_POINTS)
}

/// The number of a rate.
fn number(rate: Rate) -> f64 {
    match rate {
        Rate::Level(v) => f64::from_bits(v),
        Rate::Still => 0.0,
        Rate::Change { from, to, over_ms } => {
            let delta = f64::from_bits(to) - f64::from_bits(from);
            if delta < 0.0 {
                0.0
            } else {
                delta / (over_ms as f64 / 1000.0)
            }
        }
    }
}

fn per_sec(edge: &EdgeRate) -> f64 {
    number(edge.rate_per_sec)
}

fn point(name: &str, kind: SeriesKind, attrs: &[(&str, &str)], value: f64) -> SeriesPoint {
    SeriesPoint {
        name: name.to_string(),
        kind,
        attrs: attrs
            .iter()
            .map(|(k, v)| (k.to_string(), v.to_string()))
            .collect(),
        value: value.to_bits(),
        count: 0,
    }
}

fn counter_sample(at: u64, name: &str, value: f64) -> MetricSample {
    MetricSample {
        at_unix_ms: at,
        series: vec![point(name, SeriesKind::Counter, &[], value)],
    }
}

fn attributed_counter_sample(
    at: u64,
    name: &str,
    key: &str,
    value_attr: &str,
    value: f64,
) -> MetricSample {
    MetricSample {
        at_unix_ms: at,
        series: vec![point(name, SeriesKind::Counter, &[(key, value_attr)], value)],
    }
}

fn branch_counter_sample(
    at: u64,
    name: &str,
    key1: &str,
    value1: &str,
    key2: &str,
    value2: &str,
    value: f64,
) -> MetricSample {
    MetricSample {
        at_unix_ms: at,
        series: vec![point(
            name,
            SeriesKind::Counter,
            &[(key1, value1), (key2, value2)],
            value,
        )],
    }
}

fn topo_node(id: &str, kind: &str) -> TopoNode {
    TopoNode {
        id: id.to_string(),
        kind: kind.to_string(),
    }
}

/// A one-processor workflow: every named source feeds `"p"`, which feeds
fn topology_with(sources: &[&str], sinks: &[&str]) -> Topology {
    let mut nodes = vec![topo_node("p", "processor")];
    let mut edges = Vec::new();
    for name in sources {
        nodes.push(topo_node(name, "source"));
        edges.push(TopoEdge {
            from: (*name).to_string(),
            to: "p".to_string(),
            branch: None,
        });
    }
    for name in sinks {
        nodes.push(topo_node(name, "sink"));
        edges.push(TopoEdge {
            from: "p".to_string(),
            to: (*name).to_string(),
            branch: None,
        });
    }
    Topology {
        version: 1,
        workflows: vec![WorkflowTopology {
            id: "quickstart".to_string(),
            nodes,
            edges,
        }],
        bridges: Vec::new(),
    }
}

fn two_processor_topology() -> Topology {
    let nodes = vec![
        topo_node("orders-in", "source"),
        topo_node("validate", "processor"),
        topo_node("settle", "processor"),
        topo_node("settlements", "sink"),
    ];
    let edges = vec![
        TopoEdge {
            from: "orders-in".to_string(),
            to: "validate".to_string(),
            branch: None,
        },
        TopoEdge {
            from: "validate".to_string(),
            to: "settle".to_string(),
            branch: None,
        },
        TopoEdge {
            from: "settle".to_string(),
            to: "settlements".to_string(),
            branch: None,
        },
    ];
    Topology {
        version: 1,
        workflows: vec![WorkflowTopology {
            id: "quickstart".to_string(),
            nodes,
            edges,
        }],
        bridges: Vec::new(),
    }
}

#[test]
fn counter_rate_is_the_derivative_of_the_two_newest_points() {
    let samples = vec![
        counter_sample(1_000, ROWS_PROCESSED, 100.0),
        counter_sample(2_000, ROWS_PROCESSED, 250.0),
    ];
    let series = summarize_series(&samples);
    assert_eq!(series.len(), 1);
    assert!((number(series[0].rate_per_sec) - 150.0).abs() < 1e-9);
    assert!((f64::from_bits(series[0].value) - 250.0).abs() < f64::EPSILON);
    assert_eq!(series[0].points.len(), 2);
}

#[test]
fn counter_reset_reports_zero_not_a_negative_rate() {
    let samples = vec![
        counter_sample(1_000, ROWS_PROCESSED, 900.0),
        counter_sample(2_000, ROWS_PROCESSED, 5.0),
    ];
    let series = summarize_series(&samples);
    assert!((number(series[0].rate_per_sec) - 0.0).abs() < f64::EPSILON);
}

#[test]
fn gauge_rate_is_the_value_itself() {
    let samples = vec![MetricSample {
        at_unix_ms: 1_000,
        series: vec![point("pcs_uptime_seconds", SeriesKind::Gauge, &[], 42.0)],
    }];
    let series = summarize_series(&samples);
    assert!((number(series[0].rate_per_sec) - 42.0).abs() < f64::EPSILON);
}

#[test]
fn history_is_decimated_to_the_cap_and_keeps_the_newest_point() {
    let history: Vec<PointAt> = (0..1000u32)
        .map(|i| PointAt {
            t: 1000 + u64::from(i),
            v: f64::from(i).to_bits(),
        })
        .collect();
    let thinned = decimate(&history, MAX_POINTS);
    assert!(thinned.len() <= MAX_POINTS + 1, "got {}", thinned.len());
    assert_eq!(thinned.last().expect("non-empty").t, 1999);
}

#[test]
fn source_edge_reads_its_own_attributed_rate() {
    let topology = topology_with(&["orders-in"], &["settlements"]);
    let series = summarize_series(&vec![
        attributed_counter_sample(1_000, ROWS_PROCESSED, SOURCE_ATTR, "orders-in", 0.0),
        attributed_counter_sample(2_000, ROWS_PROCESSED, SOURCE_ATTR, "orders-in", 12.0),
    ]);
    let edges = edge_rates(&topology, &series);
    let inbound = edges.iter().find(|e| e.to == "p").expect("source edge");
    assert_eq!(inbound.unit, "rows");
    assert!((per_sec(inbound) - 12.0).abs() < 1e-9);
}

#[test]
fn two_sources_read_independent_attributed_rates() {
    let topology = topology_with(&["a", "b"], &["settlements"]);
    let series = summarize_series(&vec![
        attributed_counter_sample(1_000, ROWS_PROCESSED, SOURCE_ATTR, "a", 0.0),
        attributed_counter_sample(2_000, ROWS_PROCESSED, SOURCE_ATTR, "a", 20.0),
        attributed_counter_sample(1_000, ROWS_PROCESSED, SOURCE_ATTR, "b", 0.0),
        attributed_counter_sample(2_000, ROWS_PROCESSED, SOURCE_ATTR, "b", 5.0),
    ]);
    let edges = edge_rates(&topology, &series);
    let a = edges.iter().find(|e| e.from == "a").expect("a edge");
    let b = edges.iter().find(|e| e.from == "b").expect("b edge");
    assert!((per_sec(a) - 20.0).abs() < 1e-9);
    assert!((per_sec(b) - 5.0).abs() < 1e-9);
}

#[test]
fn sink_edge_falls_back_to_batches_when_no_processor_rows_exist() {
    let topology = topology_with(&["orders-in"], &["settlements"]);
    let series = summarize_series(&vec![
        attributed_counter_sample(1_000, SINK_BATCHES, SINK_ATTR, "settlements", 0.0),
        attributed_counter_sample(2_000, SINK_BATCHES, SINK_ATTR, "settlements", 3.0),
    ]);
    let edges = edge_rates(&topology, &series);
    let outbound = edges.iter().find(|e| e.from == "p").expect("sink edge");
    assert_eq!(outbound.unit, "batches");
    assert!((per_sec(outbound) - 3.0).abs() < 1e-9);
}

#[test]
fn sink_edge_prefers_processor_rows_when_present() {
    let topology = topology_with(&["orders-in"], &["settlements"]);
    let series = summarize_series(&vec![
        attributed_counter_sample(1_000, PROCESSOR_ROWS_OUT, PROCESSOR_ATTR, "p", 0.0),
        attributed_counter_sample(2_000, PROCESSOR_ROWS_OUT, PROCESSOR_ATTR, "p", 40.0),
    ]);
    let edges = edge_rates(&topology, &series);
    let outbound = edges.iter().find(|e| e.from == "p").expect("sink edge");
    assert_eq!(outbound.unit, "rows");
    assert!((per_sec(outbound) - 40.0).abs() < 1e-9);
}

#[test]
fn labelled_edge_reads_its_own_branch_series() {
    let topology = Topology {
        version: 1,
        workflows: vec![WorkflowTopology {
            id: "w".to_string(),
            nodes: vec![
                topo_node("validate", "processor"),
                topo_node("out_high", "sink"),
                topo_node("out_plain", "sink"),
            ],
            edges: vec![
                TopoEdge {
                    from: "validate".to_string(),
                    to: "out_high".to_string(),
                    branch: Some("high".to_string()),
                },
                TopoEdge {
                    from: "validate".to_string(),
                    to: "out_plain".to_string(),
                    branch: None,
                },
            ],
        }],
        bridges: Vec::new(),
    };
    let series = summarize_series(&vec![
        branch_counter_sample(
            1_000,
            PROCESSOR_ROWS_OUT,
            PROCESSOR_ATTR,
            "validate",
            BRANCH_ATTR,
            "high",
            0.0,
        ),
        branch_counter_sample(
            2_000,
            PROCESSOR_ROWS_OUT,
            PROCESSOR_ATTR,
            "validate",
            BRANCH_ATTR,
            "high",
            30.0,
        ),
        attributed_counter_sample(1_000, PROCESSOR_ROWS_OUT, PROCESSOR_ATTR, "validate", 0.0),
        attributed_counter_sample(2_000, PROCESSOR_ROWS_OUT, PROCESSOR_ATTR, "validate", 40.0),
    ]);
    let edges = edge_rates(&topology, &series);

    let high = edges
        .iter()
        .find(|e| e.to == "out_high")
        .expect("labelled edge");
    assert_eq!(high.unit, "rows");
    assert!((per_sec(high) - 30.0).abs() < 1e-9);

    let plain = edges
        .iter()
        .find(|e| e.to == "out_plain")
        .expect("unlabelled edge");
    assert!((per_sec(plain) - 40.0).abs() < 1e-9);
}

#[test]
fn labelled_edge_is_omitted_when_its_branch_has_no_sample() {
    let topology = Topology {
        version: 1,
        workflows: vec![WorkflowTopology {
            id: "w".to_string(),
            nodes: vec![
                topo_node("validate", "processor"),
                topo_node("out_high", "sink"),
            ],
            edges: vec![TopoEdge {
                from: "validate".to_string(),
                to: "out_high".to_string(),
                branch: Some("high".to_string()),
            }],
        }],
        bridges: Vec::new(),
    };
    let series = summarize_series(&vec![
        attributed_counter_sample(1_000, SINK_BATCHES, SINK_ATTR, "out_high", 0.0),
        attributed_counter_sample(2_000, SINK_BATCHES, SINK_ATTR, "out_high", 5.0),
    ]);
    let edges = edge_rates(&topology, &series);

    assert!(
        edges
            .iter()
            .all(|e| !(e.from == "validate" && e.to == "out_high")),
        "an unchosen branch must be omitted, not given the sink's batch rate: {edges:?}"
    );
}

#[test]
fn processor_edge_is_omitted_when_the_upstream_has_no_attributed_sample() {
    let topology = two_processor_topology();
    let series = summarize_series(&vec![
        attributed_counter_sample(1_000, ROWS_PROCESSED, SOURCE_ATTR, "orders-in", 0.0),
        attributed_counter_sample(2_000, ROWS_PROCESSED, SOURCE_ATTR, "orders-in", 12.0),
    ]);
    let edges = edge_rates(&topology, &series);

    let inbound = edges
        .iter()
        .find(|e| e.from == "orders-in" && e.to == "validate")
        .expect("source edge");
    assert!((per_sec(inbound) - 12.0).abs() < 1e-9);
    assert!(
        edges
            .iter()
            .all(|e| !(e.from == "validate" && e.to == "settle")),
        "the inter-processor edge must be omitted, not given a stand-in rate: {edges:?}"
    );
}

#[test]
fn processor_edge_uses_the_upstream_processors_own_rows_out() {
    let topology = two_processor_topology();
    let series = summarize_series(&vec![
        attributed_counter_sample(1_000, PROCESSOR_ROWS_OUT, PROCESSOR_ATTR, "validate", 0.0),
        attributed_counter_sample(2_000, PROCESSOR_ROWS_OUT, PROCESSOR_ATTR, "validate", 30.0),
    ]);
    let edges = edge_rates(&topology, &series);

    let between = edges
        .iter()
        .find(|e| e.from == "validate" && e.to == "settle")
        .expect("inter-processor edge");
    assert!((per_sec(between) - 30.0).abs() < 1e-9);
    assert_eq!(between.unit, "rows");
}

#[test]
fn sink_edge_uses_the_last_processors_own_rows_out_not_the_process_wide_sum() {
    let topology = two_processor_topology();
    let series = summarize_series(&vec![
        attributed_counter_sample(1_000, PROCESSOR_ROWS_OUT, PROCESSOR_ATTR, "validate", 0.0),
        attributed_counter_sample(2_000, PROCESSOR_ROWS_OUT, PROCESSOR_ATTR, "validate", 30.0),
        attributed_counter_sample(1_000, PROCESSOR_ROWS_OUT, PROCESSOR_ATTR, "settle", 0.0),
        attributed_counter_sample(2_000, PROCESSOR_ROWS_OUT, PROCESSOR_ATTR, "settle", 20.0),
        counter_sample(1_000, PROCESSOR_ROWS_OUT, 0.0),
        counter_sample(2_000, PROCESSOR_ROWS_OUT, 50.0),
    ]);
    let edges = edge_rates(&topology, &series);

    let outbound = edges
        .iter()
        .find(|e| e.to == "settlements")
        .expect("sink edge");
    assert!(
        (per_sec(outbound) - 20.0).abs() < 1e-9,
        "expected settle's own 20 rows/s, not the 50 the two processors sum to: {outbound:?}"
    );
    assert_eq!(outbound.unit, "rows");
}

fn bridged_topology() -> Topology {
    Topology {
        version: 1,
        workflows: vec![
            WorkflowTopology {
                id: "producer".to_string(),
                nodes: vec![
                    topo_node("orders_in", "source"),
                    topo_node("bridge_out", "sink"),
                ],
                edges: vec![TopoEdge {
                    from: "orders_in".to_string(),
                    to: "bridge_out".to_string(),
                    branch: None,
                }],
            },
            WorkflowTopology {
                id: "consumer".to_string(),
                nodes: vec![
                    topo_node("bridge_in", "source"),
                    topo_node("orders_out", "sink"),
                ],
                edges: vec![TopoEdge {
                    from: "bridge_in".to_string(),
                    to: "orders_out".to_string(),
                    branch: None,
                }],
            },
        ],
        bridges: vec![BridgeEdge {
            channel: "bridge".to_string(),
            from: "bridge_out".to_string(),
            to: "bridge_in".to_string(),
        }],
    }
}

#[test]
fn bridge_prefers_the_consumer_source_rows() {
    let topology = bridged_topology();
    let series = summarize_series(&vec![
        attributed_counter_sample(1_000, ROWS_PROCESSED, SOURCE_ATTR, "bridge_in", 0.0),
        attributed_counter_sample(2_000, ROWS_PROCESSED, SOURCE_ATTR, "bridge_in", 7.0),
        attributed_counter_sample(1_000, SINK_BATCHES, SINK_ATTR, "bridge_out", 0.0),
        attributed_counter_sample(2_000, SINK_BATCHES, SINK_ATTR, "bridge_out", 2.0),
    ]);
    let edges = edge_rates(&topology, &series);
    let bridge = edges
        .iter()
        .find(|e| e.from == "bridge_out" && e.to == "bridge_in")
        .expect("bridge edge");
    assert_eq!(bridge.unit, "rows");
    assert!((per_sec(bridge) - 7.0).abs() < 1e-9);
}

#[test]
fn bridge_falls_back_to_the_producer_sink_batches() {
    let topology = bridged_topology();
    let series = summarize_series(&vec![
        attributed_counter_sample(1_000, SINK_BATCHES, SINK_ATTR, "bridge_out", 0.0),
        attributed_counter_sample(2_000, SINK_BATCHES, SINK_ATTR, "bridge_out", 2.0),
    ]);
    let edges = edge_rates(&topology, &series);
    let bridge = edges
        .iter()
        .find(|e| e.from == "bridge_out" && e.to == "bridge_in")
        .expect("bridge edge");
    assert_eq!(bridge.unit, "batches");
    assert!((per_sec(bridge) - 2.0).abs() < 1e-9);
}

#[test]
fn unsampled_bridge_is_omitted() {
    let topology = bridged_topology();
    let edges = edge_rates(&topology, &Vec::new());
    assert!(
        edges
            .iter()
            .find(|e| e.from == "bridge_out" && e.to == "bridge_in")
            .is_none()
    );
}

#[test]
fn edges_from_each_workflow_are_rated() {
    let topology = bridged_topology();
    let series = summarize_series(&vec![
        attributed_counter_sample(1_000, ROWS_PROCESSED, SOURCE_ATTR, "orders_in", 0.0),
        attributed_counter_sample(2_000, ROWS_PROCESSED, SOURCE_ATTR, "orders_in", 10.0),
        attributed_counter_sample(1_000, ROWS_PROCESSED, SOURCE_ATTR, "bridge_in", 0.0),
        attributed_counter_sample(2_000, ROWS_PROCESSED, SOURCE_ATTR, "bridge_in", 5.0),
    ]);
    let edges = edge_rates(&topology, &series);
    let producer = edges
        .iter()
        .find(|e| e.to == "bridge_out")
        .expect("producer edge");
    let consumer = edges
        .iter()
        .find(|e| e.to == "orders_out")
        .expect("consumer edge");
    assert!((per_sec(producer) - 10.0).abs() < 1e-9);
    assert!((per_sec(consumer) - 5.0).abs() < 1e-9);
}

#[test]
fn snapshot_reports_buffer_occupancy_and_topology_version() {
    let mut slot: Published<Topology> = Published::new();
    assert!(slot.read().is_none());
    assert!(slot.publish(topology_with(&["orders-in"], &["settlements"])));
    let mut second = topology_with(&[], &[]);
    second.version = 2;
    assert!(!slot.publish(second), "only the first publication counts");
    let topology = slot.read().unwrap();
    assert_eq!(topology.version, 1);
    assert_eq!(
        edge_rates(topology, &summarize_series(&Vec::new())).len(),
        0,
        "no metric sample exists yet, so every edge is omitted rather than reported as zero"
    );
}

fn span(trace_id: u64, span_id: u64, parent_id: Option<u64>, started: u64) -> SpanRecord {
    SpanRecord {
        trace_id,
        span_id,
        parent_id,
        name: "pipeline.run".to_string(),
        target: "pcs_core".to_string(),
        started_unix_ms: started,
        duration_us: 5,
        fields: Vec::new(),
    }
}

fn stage(name: &str, field: &str, key: &str, started: u64, duration_us: u64) -> SpanRecord {
    SpanRecord {
        trace_id: 1,
        span_id: 2,
        parent_id: Some(1),
        name: name.to_string(),
        target: "pcs_core::pipeline::execution".to_string(),
        started_unix_ms: started,
        duration_us,
        fields: vec![(field.to_string(), key.to_string())],
    }
}

fn log_line(level: &str, at: u64, trace_id: Option<u64>) -> LogRecord {
    LogRecord {
        level: level.to_string(),
        target: "pcs_service".to_string(),
        message: "boom".to_string(),
        at_unix_ms: at,
        span_id: trace_id,
        trace_id,
        fields: Vec::new(),
    }
}

#[test]
fn span_stats_group_stage_records_by_stage_field() {
    let spans: Vec<SpanRecord> = vec![("0", 100u64), ("0", 300), ("1", 900)]
        .into_iter()
        .map(|(key, duration)| stage(STAGE_SPAN, "stage", key, 50, duration))
        .collect();
    let stats = span_groups(&spans, 0);
    assert_eq!(stats.len(), 2, "one entry per stage index: {stats:?}");
    let first = stats.iter().find(|s| s.key == "0").expect("stage 0");
    assert_eq!(first.durations.len(), 2);
    assert_eq!(first.durations.last(), Some(&300));
    let second = stats.iter().find(|s| s.key == "1").expect("stage 1");
    assert_eq!(second.durations, vec![900]);
}

#[test]
fn span_groups_are_ordered_and_bounded_by_the_cutoff() {
    let spans = vec![
        stage(SYSTEM_SPAN, "system", "b", 60, 7),
        stage(STAGE_SPAN, "stage", "1", 60, 3),
        stage(SYSTEM_SPAN, "system", "a", 60, 9),
        stage(SYSTEM_SPAN, "system", "a", 60, 2),
        stage(SYSTEM_SPAN, "system", "a", 10, 1),
        stage(SYSTEM_SPAN, "stage", "a", 60, 1),
        stage("other", "stage", "a", 60, 1),
    ];
    let stats = span_groups(&spans, 50);
    let shown: Vec<(SpanKind, &str, &[u64])> = stats
        .iter()
        .map(|s| (s.kind, s.key.as_str(), s.durations.as_slice()))
        .collect();
    assert_eq!(
        shown,
        vec![
            (SpanKind::Stage, "1", &[3][..]),
            (SpanKind::System, "a", &[2, 9][..]),
            (SpanKind::System, "b", &[7][..]),
        ]
    );
    assert_eq!(SpanKind::Stage.span_name(), "pipeline.stage");
    assert_eq!(SpanKind::System.span_name(), "system.execute");
}

#[test]
fn traces_are_newest_first_and_flag_errors() {
    let base = 1_000u64;
    let spans = || -> Vec<SpanRecord> {
        vec![
            span(10, 10, None, base),
            span(11, 11, None, base + 50),
            span(11, 12, Some(11), base + 51),
        ]
    };
    let lines = || -> Vec<LogRecord> { vec![log_line("ERROR", base, Some(10))] };

    let list = traces(&spans(), &lines(), 10);
    assert_eq!(list.len(), 2);
    assert_eq!(list[0].trace_id, 11, "newest first");
    assert_eq!(list[0].span_count, 2);
    assert!(!list[0].error);
    assert!(list[1].error, "trace 10 has an ERROR log");
    assert_eq!(traces(&spans(), &lines(), 1).len(), 1);

    let detail = trace(spans(), lines(), 10).expect("trace 10 retained");
    assert_eq!(detail.spans.len(), 1);
    assert_eq!(detail.logs.len(), 1);
    assert!(trace(spans(), lines(), 999).is_none());
}

#[test]
fn a_trace_is_shown_by_time() {
    let spans = vec![span(1, 3, Some(1), 30), span(1, 1, None, 10), span(2, 9, None, 5)];
    let lines = vec![
        log_line("INFO", 40, Some(1)),
        log_line("INFO", 20, Some(1)),
        log_line("INFO", 1, None),
    ];
    let detail = trace(spans, lines, 1).unwrap();
    let ids: Vec<u64> = detail.spans.iter().map(|s| s.span_id).collect();
    assert_eq!(ids, vec![1, 3]);
    let at: Vec<u64> = detail.logs.iter().map(|l| l.at_unix_ms).collect();
    assert_eq!(at, vec![20, 40]);
}

#[test]
fn logs_filter_at_or_above_the_requested_level() {
    let lines = || -> Vec<LogRecord> {
        vec!["ERROR", "WARN", "INFO", "DEBUG"]
            .into_iter()
            .rev()
            .map(|level| log_line(level, 1, None))
            .collect()
    };
    let warn_and_above = logs(lines(), 100, Some("WARN".to_string()));
    assert_eq!(warn_and_above.len(), 2);
    assert_eq!(warn_and_above[0].level, "WARN");
    assert_eq!(logs(lines(), 100, None).len(), 4);
    assert_eq!(logs(lines(), 1, None).len(), 1);
    assert_eq!(logs(lines(), 1, Some("INFO".to_string()))[0].level, "INFO");
}

#[test]
fn defaults_match_the_documented_config() {
    let cfg = InspectorConfig::default();
    assert!(cfg.enabled);
    assert!(cfg.ui);
    assert_eq!(cfg.retention_secs, 3600);
    assert_eq!(cfg.sample_interval(), Duration::from_secs(1));
    assert_eq!(
        InspectorConfig {
            sample_interval_secs: 0,
            ..InspectorConfig::default()
        }
        .sample_interval(),
        Duration::from_secs(1),
        "a zero interval must not make the reader spin"
    );
    assert_eq!(cfg.retention(), Duration::from_secs(3600));
    assert_eq!(
        InspectorConfig {
            sample_interval_secs: 7,
            ..InspectorConfig::default()
        }
        .sample_interval(),
        Duration::from_secs(7)
    );
}

#[test]
fn series_are_folded_in_order() {
    let samples = vec![
        MetricSample {
            at_unix_ms: 1,
            series: vec![
                point("b", SeriesKind::Counter, &[], 1.0),
                point("a", SeriesKind::Counter, &[("k", "2")], 1.0),
                point("a", SeriesKind::Counter, &[("k", "1")], 1.0),
                point("a", SeriesKind::Counter, &[], 1.0),
            ],
        },
        counter_sample(2, "b", 4.0),
        counter_sample(2, "ab", 4.0),
    ];
    let series = summarize_series(&samples);
    let keys: Vec<(String, usize)> = series
        .iter()
        .map(|s| (s.name.clone(), s.attrs.len()))
        .collect();
    assert_eq!(
        keys,
        vec![
            ("a".to_string(), 0),
            ("a".to_string(), 1),
            ("a".to_string(), 1),
            ("ab".to_string(), 0),
            ("b".to_string(), 0),
        ]
    );
    assert_eq!(series[1].attrs[0].1, "1");
    assert_eq!(series[4].points.len(), 2);
    assert_eq!(
        series[4].rate_per_sec,
        Rate::Change {
            from: 1.0f64.to_bits(),
            to: 4.0f64.to_bits(),
            over_ms: 1
        }
    );
    assert_eq!(series[3].rate_per_sec, Rate::Still);
}

#[test]
fn a_rate_needs_two_moments() {
    assert_eq!(rate_of(&vec![]), Rate::Still);
    assert_eq!(
        rate_of(&vec![PointAt { t: 5, v: 1 }, PointAt { t: 5, v: 2 }]),
        Rate::Still
    );
    assert_eq!(
        rate_of(&vec![PointAt { t: 5, v: 1 }, PointAt { t: 8, v: 2 }]),
        Rate::Change {
            from: 1,
            to: 2,
            over_ms: 3
        }
    );
}

#[test]
fn short_histories_are_kept_whole() {
    let history: Vec<PointAt> = (0..5u64).map(|t| PointAt { t, v: t }).collect();
    assert_eq!(decimate(&history, 5), history);
    let times = |max: usize| -> Vec<u64> {
        decimate(&history, max).iter().map(|p| p.t).collect()
    };
    assert_eq!(times(2), vec![0, 4]);
    assert_eq!(times(3), vec![0, 2, 4]);
    assert_eq!(times(4), vec![0, 2, 4]);
    assert_eq!(times(1), vec![4]);
}

#[test]
fn the_newest_point_is_kept_among_points_of_one_time() {
    let history: Vec<PointAt> = (0..4u64).map(|v| PointAt { t: 7, v }).collect();
    let kept: Vec<u64> = decimate(&history, 2).iter().map(|p| p.v).collect();
    assert_eq!(kept, vec![0, 3]);
}

#[test]
fn an_unlabelled_edge_passes_over_the_branches() {
    let sample = |at: u64, labelled: f64, plain: f64| {
        vec![
            branch_counter_sample(
                at,
                PROCESSOR_ROWS_OUT,
                BRANCH_ATTR,
                "high",
                PROCESSOR_ATTR,
                "p",
                labelled,
            ),
            attributed_counter_sample(at, PROCESSOR_ROWS_OUT, PROCESSOR_ATTR, "p", plain),
        ]
    };
    let mut samples = sample(1_000, 0.0, 0.0);
    samples.extend(sample(2_000, 30.0, 40.0));
    let topology = topology_with(&[], &["settlements"]);
    let edges = edge_rates(&topology, &summarize_series(&samples));
    let out = edges.iter().find(|e| e.to == "settlements").expect("sink edge");
    assert_eq!(out.unit, "rows");
    assert!((per_sec(out) - 40.0).abs() < 1e-9);
}

#[test]
fn a_window_bounds_the_samples() {
    assert_eq!(window_start(100, 30), 70);
    assert_eq!(window_start(10, 30), 0);
    let kept = recent_samples(
        vec![
            counter_sample(69, "a", 0.0),
            counter_sample(70, "a", 0.0),
            counter_sample(99, "a", 0.0),
        ],
        70,
    );
    assert_eq!(kept.len(), 2);
    assert_eq!(kept[0].at_unix_ms, 70);
}

#[test]
fn levels_rank_by_severity() {
    let ranks: Vec<u8> = ["ERROR", "WARN", "INFO", "DEBUG", "TRACE"]
        .iter()
        .map(|level| level_rank(&level.to_string()))
        .collect();
    assert_eq!(ranks, vec![0, 1, 2, 3, 4]);
}

#[test]
fn a_percentile_is_the_nearest_rank() {
    assert_eq!(percentile(&vec![], 50), 0);
    assert_eq!(percentile(&vec![900], 50), 900);
    assert_eq!(percentile(&vec![100, 300], 50), 100);
    assert_eq!(percentile(&vec![100, 300], 95), 300);
    let hundred: Vec<u64> = (1..=100).collect();
    assert_eq!(percentile(&hundred, 50), 50);
    assert_eq!(percentile(&hundred, 95), 95);
    assert_eq!(percentile(&hundred, 100), 100);
    assert_eq!(percentile(&hundred, 1), 1);
}
