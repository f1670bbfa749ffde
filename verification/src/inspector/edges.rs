//! Rates of the topology's edges, each read from the series of the node it
//! leaves.

use vstd::prelude::*;

use crate::inspector::series::{attr_views, Rate, SeriesSummary};

verus! {

/// Attribute that names the source a series belongs to.
pub const SOURCE_ATTR: &'static str = "source";

/// Attribute that names the processor a series belongs to.
pub const PROCESSOR_ATTR: &'static str = "processor";

/// Attribute that names the sink a series belongs to.
pub const SINK_ATTR: &'static str = "sink";

/// Attribute that names the branch a series belongs to.
pub const BRANCH_ATTR: &'static str = "branch";

/// Rows drained from sources.
pub const ROWS_PROCESSED: &'static str = "pcs_rows_processed_total";

/// Rows leaving processors.
pub const PROCESSOR_ROWS_OUT: &'static str = "pcs_processor_rows_out_total";

/// Batches written by sinks.
pub const SINK_BATCHES: &'static str = "pcs_sink_batches_written_total";

/// A node of a workflow. Its kind is `source`, `processor` or `sink`.
#[derive(Debug, Clone)]
pub struct TopoNode {
    pub id: String,
    pub kind: String,
}

/// An edge between two nodes of a workflow, labelled where it is a branch.
#[derive(Debug, Clone)]
pub struct TopoEdge {
    pub from: String,
    pub to: String,
    pub branch: Option<String>,
}

/// A channel from a sink of one workflow to a source of another.
#[derive(Debug, Clone)]
pub struct BridgeEdge {
    pub channel: String,
    pub from: String,
    pub to: String,
}

/// The nodes and edges of one workflow.
#[derive(Debug, Clone)]
pub struct WorkflowTopology {
    pub id: String,
    pub nodes: Vec<TopoNode>,
    pub edges: Vec<TopoEdge>,
}

/// All workflows of a process and the channels between them.
#[derive(Debug, Clone)]
pub struct Topology {
    pub version: u64,
    pub workflows: Vec<WorkflowTopology>,
    pub bridges: Vec<BridgeEdge>,
}

/// The rate of one edge.
#[derive(Debug)]
pub struct EdgeRate {
    pub from: String,
    pub to: String,
    pub rate_per_sec: Rate,
    /// `rows` or `batches`.
    pub unit: String,
}

/// The contents of an [`EdgeRate`].
pub ghost struct EdgeView {
    pub from: Seq<char>,
    pub to: Seq<char>,
    pub rate: Rate,
    pub unit: Seq<char>,
}

impl View for EdgeRate {
    type V = EdgeView;

    open spec fn view(&self) -> EdgeView {
        EdgeView { from: self.from@, to: self.to@, rate: self.rate_per_sec, unit: self.unit@ }
    }
}

/// The contents of each rate.
pub open spec fn edge_views(v: Seq<EdgeRate>) -> Seq<EdgeView> {
    v.map_values(|e: EdgeRate| e@)
}

/// The nodes of all workflows.
pub open spec fn all_nodes(workflows: Seq<WorkflowTopology>) -> Seq<TopoNode>
    decreases workflows.len(),
{
    if workflows.len() == 0 {
        Seq::empty()
    } else {
        all_nodes(workflows.drop_last()) + workflows.last().nodes@
    }
}

/// The kind of a node; of two nodes with one id the later counts.
pub open spec fn node_kind(nodes: Seq<TopoNode>, id: Seq<char>) -> Option<Seq<char>>
    decreases nodes.len(),
{
    if nodes.len() == 0 {
        None
    } else if nodes.last().id@ == id {
        Some(nodes.last().kind@)
    } else {
        node_kind(nodes.drop_last(), id)
    }
}

/// The series carries the attribute.
pub open spec fn carries(s: SeriesSummary, key: Seq<char>, value: Seq<char>) -> bool {
    attr_views(s.attrs@).contains((key, value))
}

/// The rate of the first series of that name with the attribute.
pub open spec fn rate_with(
    series: Seq<SeriesSummary>,
    name: Seq<char>,
    key: Seq<char>,
    value: Seq<char>,
) -> Option<Rate>
    decreases series.len(),
{
    if series.len() == 0 {
        None
    } else if series[0].name@ == name && carries(series[0], key, value) {
        Some(series[0].rate_per_sec)
    } else {
        rate_with(series.drop_first(), name, key, value)
    }
}

/// The series carries some value of the attribute.
pub open spec fn labelled_by(s: SeriesSummary, key: Seq<char>) -> bool {
    exists|value: Seq<char>| #[trigger] carries(s, key, value)
}

/// The rate of the first series of that name with the attribute and without
/// the other one.
pub open spec fn rate_without(
    series: Seq<SeriesSummary>,
    name: Seq<char>,
    key: Seq<char>,
    value: Seq<char>,
    without: Seq<char>,
) -> Option<Rate>
    decreases series.len(),
{
    if series.len() == 0 {
        None
    } else if series[0].name@ == name && carries(series[0], key, value) && !labelled_by(
        series[0],
        without,
    ) {
        Some(series[0].rate_per_sec)
    } else {
        rate_without(series.drop_first(), name, key, value, without)
    }
}

/// The rate of the first series of that name with both attributes.
pub open spec fn rate_with_both(
    series: Seq<SeriesSummary>,
    name: Seq<char>,
    key1: Seq<char>,
    value1: Seq<char>,
    key2: Seq<char>,
    value2: Seq<char>,
) -> Option<Rate>
    decreases series.len(),
{
    if series.len() == 0 {
        None
    } else if series[0].name@ == name && carries(series[0], key1, value1) && carries(
        series[0],
        key2,
        value2,
    ) {
        Some(series[0].rate_per_sec)
    } else {
        rate_with_both(series.drop_first(), name, key1, value1, key2, value2)
    }
}

fn has_attr(s: &SeriesSummary, key: &String, value: &String) -> (r: bool)
    ensures
        r == carries(*s, key@, value@),
{
    let ghost views = attr_views(s.attrs@);
    let mut i: usize = 0;
    while i < s.attrs.len()
        invariant
            i <= s.attrs@.len(),
            views == attr_views(s.attrs@),
            forall|j: int| 0 <= j < i ==> #[trigger] views[j] != (key@, value@),
        decreases s.attrs@.len() - i,
    {
        if s.attrs[i].0 == *key && s.attrs[i].1 == *value {
            assert(views[i as int] == (key@, value@));
            return true;
        }
        i += 1;
    }
    false
}

/// The rate of the first series of that name with the attribute.
pub fn attributed_rate(series: &Vec<SeriesSummary>, name: &str, key: &str, value: &String) -> (r:
    Option<Rate>)
    ensures
        r == rate_with(series@, name@, key@, value@),
{
    let wanted = name.to_owned();
    let attr = key.to_owned();
    let mut i: usize = 0;
    assert(series@.skip(0) =~= series@);
    while i < series.len()
        invariant
            i <= series@.len(),
            wanted@ == name@,
            attr@ == key@,
            rate_with(series@, name@, key@, value@) == rate_with(
                series@.skip(i as int),
                name@,
                key@,
                value@,
            ),
        decreases series@.len() - i,
    {
        assert(series@.skip(i as int).drop_first() =~= series@.skip(i as int + 1));
        if series[i].name == wanted && has_attr(&series[i], &attr, value) {
            return Some(series[i].rate_per_sec);
        }
        i += 1;
    }
    None
}

fn has_label(s: &SeriesSummary, key: &String) -> (r: bool)
    ensures
        r == labelled_by(*s, key@),
{
    let ghost views = attr_views(s.attrs@);
    let mut i: usize = 0;
    while i < s.attrs.len()
        invariant
            i <= s.attrs@.len(),
            views == attr_views(s.attrs@),
            forall|j: int| 0 <= j < i ==> (#[trigger] views[j]).0 != key@,
        decreases s.attrs@.len() - i,
    {
        if s.attrs[i].0 == *key {
            proof {
                assert(views[i as int] == (key@, s.attrs@[i as int].1@));
                assert(carries(*s, key@, s.attrs@[i as int].1@));
            }
            return true;
        }
        i += 1;
    }
    false
}

/// The rate of the first series of that name with the attribute and without
/// the other one.
fn unlabelled_rate(
    series: &Vec<SeriesSummary>,
    name: &str,
    key: &str,
    value: &String,
    without: &str,
) -> (r: Option<Rate>)
    ensures
        r == rate_without(series@, name@, key@, value@, without@),
{
    let wanted = name.to_owned();
    let attr = key.to_owned();
    let label = without.to_owned();
    let mut i: usize = 0;
    assert(series@.skip(0) =~= series@);
    while i < series.len()
        invariant
            i <= series@.len(),
            wanted@ == name@,
            attr@ == key@,
            label@ == without@,
            rate_without(series@, name@, key@, value@, without@) == rate_without(
                series@.skip(i as int),
                name@,
                key@,
                value@,
                without@,
            ),
        decreases series@.len() - i,
    {
        assert(series@.skip(i as int).drop_first() =~= series@.skip(i as int + 1));
        if series[i].name == wanted && has_attr(&series[i], &attr, value) && !has_label(
            &series[i],
            &label,
        ) {
            return Some(series[i].rate_per_sec);
        }
        i += 1;
    }
    None
}

/// The rate of the first series of that name with both attributes.
pub fn attributed_rate_branch(
    series: &Vec<SeriesSummary>,
    name: &str,
    key1: &str,
    value1: &String,
    key2: &str,
    value2: &String,
) -> (r: Option<Rate>)
    ensures
        r == rate_with_both(series@, name@, key1@, value1@, key2@, value2@),
{
    let wanted = name.to_owned();
    let attr1 = key1.to_owned();
    let attr2 = key2.to_owned();
    let mut i: usize = 0;
    assert(series@.skip(0) =~= series@);
    while i < series.len()
        invariant
            i <= series@.len(),
            wanted@ == name@,
            attr1@ == key1@,
            attr2@ == key2@,
            rate_with_both(series@, name@, key1@, value1@, key2@, value2@) == rate_with_both(
                series@.skip(i as int),
                name@,
                key1@,
                value1@,
                key2@,
                value2@,
            ),
        decreases series@.len() - i,
    {
        assert(series@.skip(i as int).drop_first() =~= series@.skip(i as int + 1));
        if series[i].name == wanted && has_attr(&series[i], &attr1, value1) && has_attr(
            &series[i],
            &attr2,
            value2,
        ) {
            return Some(series[i].rate_per_sec);
        }
        i += 1;
    }
    None
}

/// The rate and unit of an edge: of a source, its rows; of a processor, the
/// rows it gives out, those of the branch where the edge is labelled and those
/// of no branch where it is not; of a processor without a series of no branch
/// in front of a sink, the batches the sink writes.
/// Anything else has no rate.
pub open spec fn edge_rate(
    e: TopoEdge,
    nodes: Seq<TopoNode>,
    series: Seq<SeriesSummary>,
) -> Option<(Rate, Seq<char>)> {
    let kind = node_kind(nodes, e.from@);
    if kind == Some("source"@) {
        match rate_with(series, ROWS_PROCESSED@, SOURCE_ATTR@, e.from@) {
            Some(rate) => Some((rate, "rows"@)),
            None => None,
        }
    } else if kind == Some("processor"@) {
        match e.branch {
            Some(b) => match rate_with_both(
                series,
                PROCESSOR_ROWS_OUT@,
                PROCESSOR_ATTR@,
                e.from@,
                BRANCH_ATTR@,
                b@,
            ) {
                Some(rate) => Some((rate, "rows"@)),
                None => None,
            },
            None => match rate_without(
                series,
                PROCESSOR_ROWS_OUT@,
                PROCESSOR_ATTR@,
                e.from@,
                BRANCH_ATTR@,
            ) {
                Some(rate) => Some((rate, "rows"@)),
                None => if node_kind(nodes, e.to@) == Some("sink"@) {
                    match rate_with(series, SINK_BATCHES@, SINK_ATTR@, e.to@) {
                        Some(rate) => Some((rate, "batches"@)),
                        None => None,
                    }
                } else {
                    None
                },
            },
        }
    } else {
        None
    }
}

/// The rate and unit of a bridge: the rows of the source it ends in, else the
/// batches of the sink it begins in.
pub open spec fn bridge_rate(b: BridgeEdge, series: Seq<SeriesSummary>) -> Option<
    (Rate, Seq<char>),
> {
    match rate_with(series, ROWS_PROCESSED@, SOURCE_ATTR@, b.to@) {
        Some(rate) => Some((rate, "rows"@)),
        None => match rate_with(series, SINK_BATCHES@, SINK_ATTR@, b.from@) {
            Some(rate) => Some((rate, "batches"@)),
            None => None,
        },
    }
}

/// The rated edges, in order; those without a rate are left out.
pub open spec fn edges_rated(
    edges: Seq<TopoEdge>,
    nodes: Seq<TopoNode>,
    series: Seq<SeriesSummary>,
) -> Seq<EdgeView>
    decreases edges.len(),
{
    if edges.len() == 0 {
        Seq::empty()
    } else {
        let before = edges_rated(edges.drop_last(), nodes, series);
        let e = edges.last();
        match edge_rate(e, nodes, series) {
            Some((rate, unit)) => before.push(EdgeView { from: e.from@, to: e.to@, rate, unit }),
            None => before,
        }
    }
}

/// The rated edges of all workflows.
pub open spec fn workflow_edges_rated(
    workflows: Seq<WorkflowTopology>,
    nodes: Seq<TopoNode>,
    series: Seq<SeriesSummary>,
) -> Seq<EdgeView>
    decreases workflows.len(),
{
    if workflows.len() == 0 {
        Seq::empty()
    } else {
        workflow_edges_rated(workflows.drop_last(), nodes, series) + edges_rated(
            workflows.last().edges@,
            nodes,
            series,
        )
    }
}

/// The rated bridges, in order.
pub open spec fn bridges_rated(bridges: Seq<BridgeEdge>, series: Seq<SeriesSummary>) -> Seq<
    EdgeView,
>
    decreases bridges.len(),
{
    if bridges.len() == 0 {
        Seq::empty()
    } else {
        let before = bridges_rated(bridges.drop_last(), series);
        let b = bridges.last();
        match bridge_rate(b, series) {
            Some((rate, unit)) => before.push(EdgeView { from: b.from@, to: b.to@, rate, unit }),
            None => before,
        }
    }
}

fn find_kind(topology: &Topology, id: &String) -> (r: Option<String>)
    ensures
        match node_kind(all_nodes(topology.workflows@), id@) {
            Some(k) => r matches Some(s) && s@ == k,
            None => r is None,
        },
{
    let mut found: Option<String> = None;
    let mut i: usize = 0;
    assert(topology.workflows@.take(0) =~= Seq::<WorkflowTopology>::empty());
    while i < topology.workflows.len()
        invariant
            i <= topology.workflows@.len(),
            match node_kind(all_nodes(topology.workflows@.take(i as int)), id@) {
                Some(k) => found matches Some(s) && s@ == k,
                None => found is None,
            },
        decreases topology.workflows@.len() - i,
    {
        let w = &topology.workflows[i];
        let ghost before = all_nodes(topology.workflows@.take(i as int));
        let mut j: usize = 0;
        assert(before + w.nodes@.take(0) =~= before);
        while j < w.nodes.len()
            invariant
                j <= w.nodes@.len(),
                match node_kind(before + w.nodes@.take(j as int), id@) {
                    Some(k) => found matches Some(s) && s@ == k,
                    None => found is None,
                },
            decreases w.nodes@.len() - j,
        {
            proof {
                let longer = before + w.nodes@.take(j as int + 1);
                assert(longer.drop_last() =~= before + w.nodes@.take(j as int));
                assert(longer.last() == w.nodes@[j as int]);
            }
            if w.nodes[j].id == *id {
                found = Some(w.nodes[j].kind.clone());
            }
            j += 1;
        }
        proof {
            assert(w.nodes@.take(j as int) =~= w.nodes@);
            assert(topology.workflows@.take(i as int + 1).drop_last() =~= topology.workflows@.take(
                i as int,
            ));
            assert(topology.workflows@.take(i as int + 1).last() == *w);
        }
        i += 1;
    }
    assert(topology.workflows@.take(i as int) =~= topology.workflows@);
    found
}

fn is_kind(kind: &Option<String>, what: &str) -> (r: bool)
    ensures
        r == (kind is Some && kind->0@ == what@),
{
    match kind {
        Some(k) => *k == what.to_owned(),
        None => false,
    }
}

fn rate_edge(topology: &Topology, edge: &TopoEdge, series: &Vec<SeriesSummary>) -> (r: Option<
    EdgeRate,
>)
    ensures
        match edge_rate(*edge, all_nodes(topology.workflows@), series@) {
            Some((rate, unit)) => r matches Some(e) && e@ == (EdgeView {
                from: edge.from@,
                to: edge.to@,
                rate,
                unit,
            }),
            None => r is None,
        },
{
    let kind = find_kind(topology, &edge.from);
    let found: Option<(Rate, String)> = if is_kind(&kind, "source") {
        match attributed_rate(series, ROWS_PROCESSED, SOURCE_ATTR, &edge.from) {
            Some(rate) => Some((rate, "rows".to_owned())),
            None => None,
        }
    } else if is_kind(&kind, "processor") {
        match &edge.branch {
            Some(branch) => match attributed_rate_branch(
                series,
                PROCESSOR_ROWS_OUT,
                PROCESSOR_ATTR,
                &edge.from,
                BRANCH_ATTR,
                branch,
            ) {
                Some(rate) => Some((rate, "rows".to_owned())),
                None => None,
            },
            None => match unlabelled_rate(
                series,
                PROCESSOR_ROWS_OUT,
                PROCESSOR_ATTR,
                &edge.from,
                BRANCH_ATTR,
            ) {
                Some(rate) => Some((rate, "rows".to_owned())),
                None => {
                    let to_kind = find_kind(topology, &edge.to);
                    if is_kind(&to_kind, "sink") {
                        match attributed_rate(series, SINK_BATCHES, SINK_ATTR, &edge.to) {
                            Some(rate) => Some((rate, "batches".to_owned())),
                            None => None,
                        }
                    } else {
                        None
                    }
                },
            },
        }
    } else {
        None
    };
    match found {
        Some((rate, unit)) => Some(
            EdgeRate { from: edge.from.clone(), to: edge.to.clone(), rate_per_sec: rate, unit },
        ),
        None => None,
    }
}

fn rate_bridge(bridge: &BridgeEdge, series: &Vec<SeriesSummary>) -> (r: Option<EdgeRate>)
    ensures
        match bridge_rate(*bridge, series@) {
            Some((rate, unit)) => r matches Some(e) && e@ == (EdgeView {
                from: bridge.from@,
                to: bridge.to@,
                rate,
                unit,
            }),
            None => r is None,
        },
{
    let found: Option<(Rate, String)> = match attributed_rate(
        series,
        ROWS_PROCESSED,
        SOURCE_ATTR,
        &bridge.to,
    ) {
        Some(rate) => Some((rate, "rows".to_owned())),
        None => match attributed_rate(series, SINK_BATCHES, SINK_ATTR, &bridge.from) {
            Some(rate) => Some((rate, "batches".to_owned())),
            None => None,
        },
    };
    match found {
        Some((rate, unit)) => Some(
            EdgeRate { from: bridge.from.clone(), to: bridge.to.clone(), rate_per_sec: rate, unit },
        ),
        None => None,
    }
}

/// Attach a rate to every edge and every bridge that has one. An edge whose
/// series was not sampled yet is left out, not reported as zero.
pub fn edge_rates(topology: &Topology, series: &Vec<SeriesSummary>) -> (r: Vec<EdgeRate>)
    ensures
        edge_views(r@) == workflow_edges_rated(
            topology.workflows@,
            all_nodes(topology.workflows@),
            series@,
        ) + bridges_rated(topology.bridges@, series@),
{
    let ghost nodes = all_nodes(topology.workflows@);
    let mut out: Vec<EdgeRate> = Vec::new();
    let mut i: usize = 0;
    assert(topology.workflows@.take(0) =~= Seq::<WorkflowTopology>::empty());
    assert(edge_views(out@) =~= Seq::<EdgeView>::empty());
    while i < topology.workflows.len()
        invariant
            i <= topology.workflows@.len(),
            nodes == all_nodes(topology.workflows@),
            edge_views(out@) == workflow_edges_rated(
                topology.workflows@.take(i as int),
                nodes,
                series@,
            ),
        decreases topology.workflows@.len() - i,
    {
        let w = &topology.workflows[i];
        let ghost before = edge_views(out@);
        let mut j: usize = 0;
        assert(w.edges@.take(0) =~= Seq::<TopoEdge>::empty());
        assert(before + edges_rated(w.edges@.take(0), nodes, series@) =~= before);
        while j < w.edges.len()
            invariant
                j <= w.edges@.len(),
                nodes == all_nodes(topology.workflows@),
                edge_views(out@) == before + edges_rated(w.edges@.take(j as int), nodes, series@),
            decreases w.edges@.len() - j,
        {
            let ghost had = out@;
            proof {
                assert(w.edges@.take(j as int + 1).drop_last() =~= w.edges@.take(j as int));
                assert(w.edges@.take(j as int + 1).last() == w.edges@[j as int]);
            }
            match rate_edge(topology, &w.edges[j], series) {
                Some(e) => {
                    out.push(e);
                    proof {
                        let some = edges_rated(w.edges@.take(j as int), nodes, series@);
                        assert(edge_views(out@) =~= edge_views(had).push(e@));
                        assert(before + some.push(e@) =~= (before + some).push(e@));
                    }
                },
                None => {},
            }
            j += 1;
        }
        proof {
            assert(w.edges@.take(j as int) =~= w.edges@);
            assert(topology.workflows@.take(i as int + 1).drop_last() =~= topology.workflows@.take(
                i as int,
            ));
            assert(topology.workflows@.take(i as int + 1).last() == *w);
        }
        i += 1;
    }
    assert(topology.workflows@.take(i as int) =~= topology.workflows@);
    let ghost edges = edge_views(out@);
    let mut k: usize = 0;
    assert(topology.bridges@.take(0) =~= Seq::<BridgeEdge>::empty());
    assert(edges + bridges_rated(topology.bridges@.take(0), series@) =~= edges);
    while k < topology.bridges.len()
        invariant
            k <= topology.bridges@.len(),
            edge_views(out@) == edges + bridges_rated(topology.bridges@.take(k as int), series@),
        decreases topology.bridges@.len() - k,
    {
        let ghost had = out@;
        proof {
            assert(topology.bridges@.take(k as int + 1).drop_last() =~= topology.bridges@.take(
                k as int,
            ));
            assert(topology.bridges@.take(k as int + 1).last() == topology.bridges@[k as int]);
        }
        match rate_bridge(&topology.bridges[k], series) {
            Some(e) => {
                out.push(e);
                proof {
                    let some = bridges_rated(topology.bridges@.take(k as int), series@);
                    assert(edge_views(out@) =~= edge_views(had).push(e@));
                    assert(edges + some.push(e@) =~= (edges + some).push(e@));
                }
            },
            None => {},
        }
        k += 1;
    }
    assert(topology.bridges@.take(k as int) =~= topology.bridges@);
    out
}

/// Nothing stands in for a series that was not sampled: without any series no
/// edge and no bridge has a rate.
pub proof fn law_unsampled_edges_are_left_out(
    edges: Seq<TopoEdge>,
    nodes: Seq<TopoNode>,
    bridges: Seq<BridgeEdge>,
)
    ensures
        edges_rated(edges, nodes, Seq::empty()) == Seq::<EdgeView>::empty(),
        bridges_rated(bridges, Seq::empty()) == Seq::<EdgeView>::empty(),
    decreases edges.len() + bridges.len(),
{
    if edges.len() > 0 {
        law_unsampled_edges_are_left_out(edges.drop_last(), nodes, bridges);
    }
    if bridges.len() > 0 {
        law_unsampled_edges_are_left_out(edges, nodes, bridges.drop_last());
    }
}

/// A labelled edge reads the series of its own branch or none: what its sink
/// wrote never stands in for it.
pub proof fn law_branch_never_reads_the_sink(
    e: TopoEdge,
    nodes: Seq<TopoNode>,
    series: Seq<SeriesSummary>,
)
    requires
        node_kind(nodes, e.from@) == Some("processor"@),
        e.branch is Some,
    ensures
        edge_rate(e, nodes, series) == match rate_with_both(
            series,
            PROCESSOR_ROWS_OUT@,
            PROCESSOR_ATTR@,
            e.from@,
            BRANCH_ATTR@,
            e.branch->0@,
        ) {
            Some(rate) => Some((rate, "rows"@)),
            None => None,
        },
{
    reveal_strlit("processor");
    reveal_strlit("source");
    assert("processor"@.len() != "source"@.len());
}

/// A series carries an attribute where one of its pairs is that name with that
/// value, and is labelled where one of them has that name.
pub proof fn law_attributes_are_pairs(s: SeriesSummary, key: Seq<char>, value: Seq<char>, i: int)
    requires
        0 <= i < s.attrs@.len(),
    ensures
        s.attrs@[i].0@ == key && s.attrs@[i].1@ == value ==> carries(s, key, value),
        s.attrs@[i].0@ == key ==> labelled_by(s, key),
        carries(s, key, value) ==> exists|j: int|
            0 <= j < s.attrs@.len() && (#[trigger] s.attrs@[j]).0@ == key && s.attrs@[j].1@
                == value,
        labelled_by(s, key) ==> exists|j: int|
            0 <= j < s.attrs@.len() && (#[trigger] s.attrs@[j]).0@ == key,
{
    let views = attr_views(s.attrs@);
    if s.attrs@[i].0@ == key {
        assert(views[i] == (key, s.attrs@[i].1@));
        assert(carries(s, key, s.attrs@[i].1@));
    }
    if carries(s, key, value) {
        let j = choose|j: int| 0 <= j < views.len() && views[j] == (key, value);
        assert(s.attrs@[j].0@ == key);
    }
    if labelled_by(s, key) {
        let v = choose|v: Seq<char>| #[trigger] carries(s, key, v);
        let j = choose|j: int| 0 <= j < views.len() && views[j] == (key, v);
        assert(s.attrs@[j].0@ == key);
    }
}

/// The rate that is read is that of the first series that fits: of the name asked
/// for, with the attributes asked for, and without the one that is not wanted.
/// Where none fits there is none.
pub proof fn law_first_fitting_series_is_read(
    series: Seq<SeriesSummary>,
    name: Seq<char>,
    key: Seq<char>,
    value: Seq<char>,
    key2: Seq<char>,
    value2: Seq<char>,
    i: int,
)
    requires
        0 <= i <= series.len(),
    ensures
        (forall|j: int|
            0 <= j < i ==> !((#[trigger] series[j]).name@ == name && carries(
                series[j],
                key,
                value,
            ))) ==> rate_with(series, name, key, value) == if i == series.len() {
            None
        } else if series[i].name@ == name && carries(series[i], key, value) {
            Some(series[i].rate_per_sec)
        } else {
            rate_with(series, name, key, value)
        },
        (forall|j: int|
            0 <= j < i ==> !((#[trigger] series[j]).name@ == name && carries(
                series[j],
                key,
                value,
            ) && !labelled_by(series[j], key2))) ==> rate_without(series, name, key, value, key2)
            == if i == series.len() {
            None
        } else if series[i].name@ == name && carries(series[i], key, value) && !labelled_by(
            series[i],
            key2,
        ) {
            Some(series[i].rate_per_sec)
        } else {
            rate_without(series, name, key, value, key2)
        },
        (forall|j: int|
            0 <= j < i ==> !((#[trigger] series[j]).name@ == name && carries(
                series[j],
                key,
                value,
            ) && carries(series[j], key2, value2))) ==> rate_with_both(
            series,
            name,
            key,
            value,
            key2,
            value2,
        ) == if i == series.len() {
            None
        } else if series[i].name@ == name && carries(series[i], key, value) && carries(
            series[i],
            key2,
            value2,
        ) {
            Some(series[i].rate_per_sec)
        } else {
            rate_with_both(series, name, key, value, key2, value2)
        },
    decreases i,
{
    if i > 0 {
        let rest = series.drop_first();
        law_first_fitting_series_is_read(rest, name, key, value, key2, value2, i - 1);
        assert forall|j: int| 0 <= j < i - 1 implies #[trigger] rest[j] == series[j + 1] by {}
        assert(series[0].name@ == series[0].name@);
    }
}

/// A node is of the kind it was last listed with.
pub proof fn law_last_listed_kind_counts(nodes: Seq<TopoNode>, id: Seq<char>, i: int)
    requires
        0 <= i < nodes.len(),
        forall|j: int| i < j < nodes.len() ==> (#[trigger] nodes[j]).id@ != id,
    ensures
        nodes[i].id@ == id ==> node_kind(nodes, id) == Some(nodes[i].kind@),
        i == 0 && nodes[0].id@ != id ==> node_kind(nodes, id) is None,
    decreases nodes.len(),
{
    if i < nodes.len() - 1 {
        assert(nodes[nodes.len() - 1].id@ != id);
        let front = nodes.drop_last();
        assert forall|j: int| i < j < front.len() implies (#[trigger] front[j]).id@ != id by {
            assert(nodes[j].id@ != id);
        }
        law_last_listed_kind_counts(front, id, i);
    } else if i == 0 {
        reveal_with_fuel(node_kind, 2);
        assert(nodes.drop_last() =~= Seq::<TopoNode>::empty());
    }
}

/// An edge out of a source carries the rows read from that source. One out of a
/// processor carries the rows it gives to that branch; without a branch, the rows
/// it gives to none; and where those were not sampled and it leads to a sink, the
/// batches written there. Out of anything else nothing is known.
pub proof fn law_edge_carries_what_its_node_gives(
    e: TopoEdge,
    nodes: Seq<TopoNode>,
    series: Seq<SeriesSummary>,
)
    ensures
        ({
            let from = node_kind(nodes, e.from@);
            let read = rate_with(series, "pcs_rows_processed_total"@, "source"@, e.from@);
            let given = rate_without(
                series,
                "pcs_processor_rows_out_total"@,
                "processor"@,
                e.from@,
                "branch"@,
            );
            let written = rate_with(series, "pcs_sink_batches_written_total"@, "sink"@, e.to@);
            &&& from == Some("source"@) ==> match edge_rate(e, nodes, series) {
                Some((rate, unit)) => read == Some(rate) && unit == "rows"@,
                None => read is None,
            }
            &&& from == Some("processor"@) && e.branch is Some ==> match edge_rate(
                e,
                nodes,
                series,
            ) {
                Some((rate, unit)) => rate_with_both(
                    series,
                    "pcs_processor_rows_out_total"@,
                    "processor"@,
                    e.from@,
                    "branch"@,
                    e.branch->0@,
                ) == Some(rate) && unit == "rows"@,
                None => rate_with_both(
                    series,
                    "pcs_processor_rows_out_total"@,
                    "processor"@,
                    e.from@,
                    "branch"@,
                    e.branch->0@,
                ) is None,
            }
            &&& from == Some("processor"@) && e.branch is None ==> match edge_rate(
                e,
                nodes,
                series,
            ) {
                Some((rate, unit)) => if given is Some {
                    given == Some(rate) && unit == "rows"@
                } else {
                    node_kind(nodes, e.to@) == Some("sink"@) && written == Some(rate) && unit
                        == "batches"@
                },
                None => given is None && (node_kind(nodes, e.to@) == Some("sink"@)
                    ==> written is None),
            }
            &&& from != Some("source"@) && from != Some("processor"@) ==> edge_rate(
                e,
                nodes,
                series,
            ) is None
        }),
{
    reveal_strlit("processor");
    reveal_strlit("source");
    assert("processor"@.len() != "source"@.len());
}

/// A bridge carries the rows of the source it ends in, or, where those were not
/// sampled, the batches of the sink it begins in.
pub proof fn law_bridge_carries_what_arrives(b: BridgeEdge, series: Seq<SeriesSummary>)
    ensures
        ({
            let arrived = rate_with(series, "pcs_rows_processed_total"@, "source"@, b.to@);
            let sent = rate_with(series, "pcs_sink_batches_written_total"@, "sink"@, b.from@);
            match bridge_rate(b, series) {
                Some((rate, unit)) => if arrived is Some {
                    arrived == Some(rate) && unit == "rows"@
                } else {
                    sent == Some(rate) && unit == "batches"@
                },
                None => arrived is None && sent is None,
            }
        }),
{
}

/// Each edge and each bridge that has a rate is listed once, in its place, with
/// its ends, its rate and its unit; the others are left out.
pub proof fn law_rated_edges_are_listed(
    edges: Seq<TopoEdge>,
    e: TopoEdge,
    bridges: Seq<BridgeEdge>,
    b: BridgeEdge,
    workflows: Seq<WorkflowTopology>,
    w: WorkflowTopology,
    nodes: Seq<TopoNode>,
    series: Seq<SeriesSummary>,
)
    ensures
        match edge_rate(e, nodes, series) {
            Some((rate, unit)) => edges_rated(edges.push(e), nodes, series) == edges_rated(
                edges,
                nodes,
                series,
            ).push(EdgeView { from: e.from@, to: e.to@, rate, unit }),
            None => edges_rated(edges.push(e), nodes, series) == edges_rated(edges, nodes, series),
        },
        match bridge_rate(b, series) {
            Some((rate, unit)) => bridges_rated(bridges.push(b), series) == bridges_rated(
                bridges,
                series,
            ).push(EdgeView { from: b.from@, to: b.to@, rate, unit }),
            None => bridges_rated(bridges.push(b), series) == bridges_rated(bridges, series),
        },
        workflow_edges_rated(workflows.push(w), nodes, series) == workflow_edges_rated(
            workflows,
            nodes,
            series,
        ) + edges_rated(w.edges@, nodes, series),
        all_nodes(workflows.push(w)) == all_nodes(workflows) + w.nodes@,
        edges_rated(Seq::empty(), nodes, series) == Seq::<EdgeView>::empty(),
        bridges_rated(Seq::empty(), series) == Seq::<EdgeView>::empty(),
        workflow_edges_rated(Seq::empty(), nodes, series) == Seq::<EdgeView>::empty(),
        all_nodes(Seq::empty()) == Seq::<TopoNode>::empty(),
{
    assert(edges.push(e).drop_last() =~= edges);
    assert(bridges.push(b).drop_last() =~= bridges);
    assert(workflows.push(w).drop_last() =~= workflows);
}

/// What is said of a listed rate is said of every field of it.
pub proof fn law_edge_rate_is_seen_whole(v: Seq<EdgeRate>, i: int)
    requires
        0 <= i < v.len(),
    ensures
        edge_views(v).len() == v.len(),
        edge_views(v)[i].from == v[i].from@,
        edge_views(v)[i].to == v[i].to@,
        edge_views(v)[i].rate == v[i].rate_per_sec,
        edge_views(v)[i].unit == v[i].unit@,
{
}

} // verus!
