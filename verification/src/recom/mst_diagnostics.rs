//! Reports on spanning trees that could not be drawn.

use vstd::prelude::*;
use crate::graph::Edge;
use crate::partition::Partition;
use crate::recom::merge::SubgraphBuffer;
use crate::recom::proposal::RecomVariant;
use crate::spanning_tree::SpanningTreeError;
use crate::{json, text, vectors};

verus! {

/// The environment variable that names the directory for diagnostics.
pub const MST_DEBUG_DIR_ENV: &'static str = "RUSTRECOM_MST_DEBUG_DIR";

/// The name of a chain variant.
pub open spec fn name_of(variant: RecomVariant) -> Seq<char> {
    match variant {
        RecomVariant::Reversible => "reversible"@,
        RecomVariant::CutEdgesUST => "cut-edges-ust"@,
        RecomVariant::DistrictPairsUST => "district-pairs-ust"@,
        RecomVariant::CutEdgesRMST => "cut-edges-mst"@,
        RecomVariant::DistrictPairsRMST => "district-pairs-mst"@,
        RecomVariant::CutEdgesRegionAware => "cut-edges-region-aware"@,
        RecomVariant::DistrictPairsRegionAware => "district-pairs-region-aware"@,
    }
}

/// The name of a chain variant.
pub fn variant_name(variant: RecomVariant) -> (r: &'static str)
    ensures
        r@ == name_of(variant),
{
    match variant {
        RecomVariant::Reversible => "reversible",
        RecomVariant::CutEdgesUST => "cut-edges-ust",
        RecomVariant::DistrictPairsUST => "district-pairs-ust",
        RecomVariant::CutEdgesRMST => "cut-edges-mst",
        RecomVariant::DistrictPairsRMST => "district-pairs-mst",
        RecomVariant::CutEdgesRegionAware => "cut-edges-region-aware",
        RecomVariant::DistrictPairsRegionAware => "district-pairs-region-aware",
    }
}

/// What became of the diagnostic of a failure.
#[derive(Debug)]
pub enum Report {
    /// No directory was named.
    NotAsked,
    /// The diagnostic was written to a file.
    Written(String),
    /// The diagnostic could not be written to a directory, for a reason.
    Unwritten(String, String),
}

/// The message of a failure.
pub open spec fn failure_text(error: SpanningTreeError, report: Report) -> Seq<char> {
    error.text() + match report {
        Report::NotAsked => " Set RUSTRECOM_MST_DEBUG_DIR to a directory to write a diagnostic JSON file."@,
        Report::Written(path) => " Diagnostic written to '"@ + path@ + "'."@,
        Report::Unwritten(directory, reason) => " Could not write the requested diagnostic to '"@
            + directory@ + "': "@ + reason@ + "."@,
    }
}

/// The message of a failure: the error, and what became of its diagnostic.
pub fn failure_message(error: &SpanningTreeError, report: &Report) -> (r: String)
    ensures
        r@ == failure_text(*error, *report),
{
    let mut out: String = error.message();
    match report {
        Report::NotAsked => {
            out.append(
                " Set RUSTRECOM_MST_DEBUG_DIR to a directory to write a diagnostic JSON file.",
            );
        },
        Report::Written(path) => {
            out.append(" Diagnostic written to '");
            out.append(path.as_str());
            out.append("'.");
        },
        Report::Unwritten(directory, reason) => {
            out.append(" Could not write the requested diagnostic to '");
            out.append(directory.as_str());
            out.append("': ");
            out.append(reason.as_str());
            out.append(".");
        },
    }
    assert(out@ =~= failure_text(*error, *report));
    out
}

/// Why a worker gave up.
#[derive(Debug)]
pub enum Failure {
    /// No tree of the two districts could be drawn.
    Tree(SpanningTreeError, usize, usize),
    Other(String),
}

impl Failure {
    /// The message where no diagnostic was asked for.
    pub open spec fn text(self) -> Seq<char> {
        match self {
            Failure::Tree(error, _, _) => failure_text(error, Report::NotAsked),
            Failure::Other(message) => message@,
        }
    }

    /// The message where no diagnostic was asked for.
    pub fn message(&self) -> (r: String)
        ensures
            r@ == self.text(),
    {
        match self {
            Failure::Tree(error, _, _) => failure_message(error, &Report::NotAsked),
            Failure::Other(message) => message.as_str().to_string(),
        }
    }
}

/// The kind of an error and its numbers, as fields of a JSON object.
pub open spec fn error_fields(error: SpanningTreeError) -> Seq<char> {
    match error {
        SpanningTreeError::Disconnected {
            node_count,
            graph_edge_count,
            expected_tree_edges,
            actual_tree_edges,
        } => "\"kind\":\"disconnected\",\"node_count\":"@ + text::decimal(node_count as nat)
            + ",\"graph_edge_count\":"@ + text::decimal(graph_edge_count as nat)
            + ",\"expected_tree_edges\":"@ + text::decimal(expected_tree_edges as nat)
            + ",\"actual_tree_edges\":"@ + text::decimal(actual_tree_edges as nat),
        SpanningTreeError::Unordered => "\"kind\":\"unordered\""@,
    }
}

fn push_error_fields(out: &mut String, error: &SpanningTreeError)
    ensures
        final(out)@ == old(out)@ + error_fields(*error),
{
    let ghost start = out@;
    match *error {
        SpanningTreeError::Disconnected {
            node_count,
            graph_edge_count,
            expected_tree_edges,
            actual_tree_edges,
        } => {
            out.append("\"kind\":\"disconnected\",\"node_count\":");
            text::push_number(out, node_count as u64);
            out.append(",\"graph_edge_count\":");
            text::push_number(out, graph_edge_count as u64);
            out.append(",\"expected_tree_edges\":");
            text::push_number(out, expected_tree_edges as u64);
            out.append(",\"actual_tree_edges\":");
            text::push_number(out, actual_tree_edges as u64);
        },
        SpanningTreeError::Unordered => {
            out.append("\"kind\":\"unordered\"");
        },
    }
    assert(out@ =~= start + error_fields(*error));
}

/// Lists of node indices, separated by commas.
pub open spec fn joined_lists(lists: Seq<Seq<usize>>) -> Seq<char>
    decreases lists.len(),
{
    if lists.len() == 0 {
        Seq::empty()
    } else if lists.len() == 1 {
        text::bracketed(text::index_numbers(lists[0]))
    } else {
        joined_lists(lists.drop_last()) + ","@ + text::bracketed(text::index_numbers(lists.last()))
    }
}

/// The nodes of the whole graph that nodes of a subgraph stand for.
pub open spec fn raw(raw_nodes: Seq<usize>, nodes: Seq<usize>) -> Seq<usize> {
    Seq::new(nodes.len(), |i: int| raw_nodes[nodes[i] as int])
}

/// The nodes of the whole graph that the ends of edges stand for.
pub open spec fn raw_edges(raw_nodes: Seq<usize>, edges: Seq<Edge>) -> Seq<Seq<usize>> {
    Seq::new(edges.len(), |i: int| raw(raw_nodes, seq![edges[i].0, edges[i].1]))
}

/// The nodes of the whole graph that neighbors stand for.
pub open spec fn raw_lists(raw_nodes: Seq<usize>, lists: Seq<Seq<usize>>) -> Seq<Seq<usize>> {
    Seq::new(lists.len(), |i: int| raw(raw_nodes, lists[i]))
}

fn push_lists(out: &mut String, lists: &Vec<Vec<usize>>)
    ensures
        final(out)@ == old(out)@ + joined_lists(vectors::nested(lists@)),
{
    let ghost start = out@;
    let ghost all = vectors::nested(lists@);
    let mut i: usize = 0;
    assert(out@ =~= start + joined_lists(all.take(0)));
    while i < lists.len()
        invariant
            i <= lists.len(),
            all == vectors::nested(lists@),
            out@ == start + joined_lists(all.take(i as int)),
        decreases lists.len() - i,
    {
        if i > 0 {
            out.append(",");
        }
        text::push_indices(out, &lists[i]);
        i += 1;
        assert(all.take(i as int).drop_last() =~= all.take(i - 1));
        assert(out@ =~= start + joined_lists(all.take(i as int)));
    }
    assert(all.take(i as int) =~= all);
}

fn raw_of(raw_nodes: &Vec<usize>, nodes: &Vec<usize>) -> (r: Vec<usize>)
    requires
        forall|i: int| 0 <= i < nodes.len() ==> (#[trigger] nodes[i]) < raw_nodes.len(),
    ensures
        r@ == raw(raw_nodes@, nodes@),
{
    let mut out: Vec<usize> = Vec::new();
    let mut i: usize = 0;
    while i < nodes.len()
        invariant
            i <= nodes.len(),
            forall|j: int| 0 <= j < nodes.len() ==> (#[trigger] nodes[j]) < raw_nodes.len(),
            out@ == raw(raw_nodes@, nodes@.take(i as int)),
        decreases nodes.len() - i,
    {
        out.push(raw_nodes[nodes[i]]);
        i += 1;
        assert(out@ =~= raw(raw_nodes@, nodes@.take(i as int)));
    }
    assert(nodes@.take(i as int) =~= nodes@);
    out
}

/// Whether each node of a subgraph stands for a node of the whole graph.
pub open spec fn placed(sub: &SubgraphBuffer) -> bool {
    &&& sub.graph.sound()
    &&& sub.raw_nodes@.len() == sub.graph.order()
}

/// What a diagnostic tells of the attempt that failed.
#[derive(Debug)]
pub struct Attempt {
    /// The command that ran.
    pub runner: String,
    pub worker_index: usize,
    pub rng_seed: u64,
    pub variant: RecomVariant,
    pub error: SpanningTreeError,
    /// The districts of the nodes before the last accepted step, if there was
    /// one.
    pub previous_assignment: Option<Vec<u32>>,
    pub dist_a: usize,
    pub dist_b: usize,
}

/// The diagnostic of a failed attempt, as a JSON document.
pub open spec fn diagnostic_text(
    attempt: Attempt,
    assignments: Seq<u32>,
    sub: &SubgraphBuffer,
) -> Seq<char> {
    "{\"schema_version\":1,\"failure\":{\"error\":{"@ + error_fields(attempt.error)
        + "},\"message\":"@ + json::json_quoted(attempt.error.text())
        + ",\"stage\":\"before spanning-tree split; no candidate partition exists\"},\"runner\":"@
        + json::json_quoted(attempt.runner@) + ",\"worker_index\":"@ + text::decimal(
        attempt.worker_index as nat,
    ) + ",\"rng_seed\":"@ + text::decimal(attempt.rng_seed as nat) + ",\"recom_variant\":\""@
        + name_of(attempt.variant) + "\",\"attempted_districts\":{\"a\":"@ + text::decimal(
        attempt.dist_a as nat,
    ) + ",\"b\":"@ + text::decimal(attempt.dist_b as nat)
        + ",\"indexing\":\"internal zero-based\"},\"previous_partition\":"@ + (
    match attempt.previous_assignment {
        Some(labels) => "{\"assignments\":"@ + text::bracketed(text::label_numbers(labels@)) + "}"@,
        None => "null"@,
    }) + ",\"current_partition\":{\"assignments\":"@ + text::bracketed(
        text::label_numbers(assignments),
    ) + "},\"candidate_partition\":null,\"merged_subgraph\":{\"node_count\":"@ + text::decimal(
        sub.graph.pops@.len(),
    ) + ",\"edge_count\":"@ + text::decimal(sub.graph.edges@.len())
        + ",\"parent_graph_node_indices\":"@ + text::bracketed(
        text::index_numbers(sub.raw_nodes@),
    ) + ",\"parent_graph_edges\":["@ + joined_lists(raw_edges(sub.raw_nodes@, sub.graph.edges@))
        + "],\"parent_graph_adjacency\":["@ + joined_lists(
        raw_lists(sub.raw_nodes@, vectors::nested(sub.graph.neighbors@)),
    ) + "]}}"@
}

/// The first part of a diagnostic: the failure and the attempt.
spec fn attempt_text(attempt: Attempt) -> Seq<char> {
    "{\"schema_version\":1,\"failure\":{\"error\":{"@ + error_fields(attempt.error)
        + "},\"message\":"@ + json::json_quoted(attempt.error.text())
        + ",\"stage\":\"before spanning-tree split; no candidate partition exists\"},\"runner\":"@
        + json::json_quoted(attempt.runner@) + ",\"worker_index\":"@ + text::decimal(
        attempt.worker_index as nat,
    ) + ",\"rng_seed\":"@ + text::decimal(attempt.rng_seed as nat) + ",\"recom_variant\":\""@
        + name_of(attempt.variant) + "\",\"attempted_districts\":{\"a\":"@ + text::decimal(
        attempt.dist_a as nat,
    ) + ",\"b\":"@ + text::decimal(attempt.dist_b as nat)
        + ",\"indexing\":\"internal zero-based\"},\"previous_partition\":"@ + (
    match attempt.previous_assignment {
        Some(labels) => "{\"assignments\":"@ + text::bracketed(text::label_numbers(labels@)) + "}"@,
        None => "null"@,
    })
}

fn attempt_part(attempt: &Attempt) -> (out: String)
    ensures
        out@ == attempt_text(*attempt),
{
    let mut out: String = "{\"schema_version\":1,\"failure\":{\"error\":{".to_string();
    push_error_fields(&mut out, &attempt.error);
    out.append("},\"message\":");
    let message: String = attempt.error.message();
    out.append(json::quoted(message.as_str()).as_str());
    out.append(
        ",\"stage\":\"before spanning-tree split; no candidate partition exists\"},\"runner\":",
    );
    out.append(json::quoted(attempt.runner.as_str()).as_str());
    out.append(",\"worker_index\":");
    text::push_number(&mut out, attempt.worker_index as u64);
    out.append(",\"rng_seed\":");
    text::push_number(&mut out, attempt.rng_seed);
    out.append(",\"recom_variant\":\"");
    out.append(variant_name(attempt.variant));
    out.append("\",\"attempted_districts\":{\"a\":");
    text::push_number(&mut out, attempt.dist_a as u64);
    out.append(",\"b\":");
    text::push_number(&mut out, attempt.dist_b as u64);
    out.append(",\"indexing\":\"internal zero-based\"},\"previous_partition\":");
    let ghost lead = out@;
    match &attempt.previous_assignment {
        Some(labels) => {
            out.append("{\"assignments\":");
            text::push_labels(&mut out, labels);
            out.append("}");
            assert(out@ =~= lead + ("{\"assignments\":"@ + text::bracketed(
                text::label_numbers(labels@),
            ) + "}"@));
        },
        None => {
            out.append("null");
        },
    }
    out
}

/// The diagnostic of a failed attempt on the districts that `sub` joins, as a
/// JSON document.
pub fn diagnostic(attempt: &Attempt, partition: &Partition, sub: &SubgraphBuffer) -> (out: String)
    requires
        placed(sub),
    ensures
        out@ == diagnostic_text(*attempt, partition@.assignments, sub),
{
    let mut edges: Vec<Vec<usize>> = Vec::new();
    let mut i: usize = 0;
    while i < sub.graph.edges.len()
        invariant
            i <= sub.graph.edges.len(),
            placed(sub),
            vectors::nested(edges@) == raw_edges(
                sub.raw_nodes@,
                sub.graph.edges@.take(i as int),
            ),
        decreases sub.graph.edges.len() - i,
    {
        let e: Edge = sub.graph.edges[i];
        assert(sub.graph.edges@[i as int].0 < sub.graph.edges@[i as int].1 < sub.graph.order());
        let pair: Vec<usize> = vec![sub.raw_nodes[e.0], sub.raw_nodes[e.1]];
        assert(pair@ =~= raw(sub.raw_nodes@, seq![e.0, e.1]));
        let ghost before = vectors::nested(edges@);
        edges.push(pair);
        i += 1;
        assert(vectors::nested(edges@) =~= before.push(pair@));
        assert(vectors::nested(edges@) =~= raw_edges(
            sub.raw_nodes@,
            sub.graph.edges@.take(i as int),
        ));
    }
    assert(sub.graph.edges@.take(i as int) =~= sub.graph.edges@);
    let mut lists: Vec<Vec<usize>> = Vec::new();
    let ghost neighbors = vectors::nested(sub.graph.neighbors@);
    i = 0;
    while i < sub.graph.neighbors.len()
        invariant
            i <= sub.graph.neighbors.len(),
            placed(sub),
            neighbors == vectors::nested(sub.graph.neighbors@),
            vectors::nested(lists@) == raw_lists(sub.raw_nodes@, neighbors.take(i as int)),
        decreases sub.graph.neighbors.len() - i,
    {
        assert forall|j: int| 0 <= j < sub.graph.neighbors@[i as int]@.len() implies (
        #[trigger] sub.graph.neighbors@[i as int]@[j]) < sub.raw_nodes.len() by {
            let w = sub.graph.neighbors@[i as int]@[j];
            assert(sub.graph.neighbors@[i as int]@.contains(w));
        }
        let list: Vec<usize> = raw_of(&sub.raw_nodes, &sub.graph.neighbors[i]);
        assert(list@ == raw(sub.raw_nodes@, neighbors[i as int]));
        let ghost before = vectors::nested(lists@);
        lists.push(list);
        i += 1;
        assert(vectors::nested(lists@) =~= before.push(list@));
        assert(vectors::nested(lists@) =~= raw_lists(sub.raw_nodes@, neighbors.take(i as int)));
    }
    assert(neighbors.take(i as int) =~= neighbors);
    let mut out: String = attempt_part(attempt);
    out.append(",\"current_partition\":{\"assignments\":");
    text::push_labels(&mut out, &partition.assignments);
    out.append("},\"candidate_partition\":null,\"merged_subgraph\":{\"node_count\":");
    text::push_number(&mut out, sub.graph.pops.len() as u64);
    out.append(",\"edge_count\":");
    text::push_number(&mut out, sub.graph.edges.len() as u64);
    out.append(",\"parent_graph_node_indices\":");
    text::push_indices(&mut out, &sub.raw_nodes);
    out.append(",\"parent_graph_edges\":[");
    push_lists(&mut out, &edges);
    out.append("],\"parent_graph_adjacency\":[");
    push_lists(&mut out, &lists);
    out.append("]}}");
    out
}

} // verus!
