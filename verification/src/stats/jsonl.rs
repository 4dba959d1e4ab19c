//! JSON lines with summary statistics of each accepted proposal.

use vstd::prelude::*;
use crate::columns::Columns;
use crate::graph::{Edge, Graph};
use crate::partition::{Partition, Plan};
use crate::recom::pairs;
use crate::recom::proposal::{RecomProposal, Redraw};
use crate::stats::counts::{SelfLoopCounts, SelfLoopReason};
use crate::stats::records::{Entry, Record};
use crate::stats::writers::StatsWriter;
use crate::stats::{records, sums};
use crate::{columns, graph, json, text, vectors};

verus! {

/// Integers in decimal, separated by commas.
pub open spec fn signed_list(values: Seq<int>) -> Seq<char>
    decreases values.len(),
{
    if values.len() == 0 {
        Seq::empty()
    } else if values.len() == 1 {
        text::signed(values[0])
    } else {
        signed_list(values.drop_last()) + ","@ + text::signed(values.last())
    }
}

/// The self-loop counts as a JSON object.
pub open spec fn counts_json(counts: SelfLoopCounts) -> Seq<char> {
    "{\"constraint_violation\":"@ + text::decimal(counts.constraint_violation as nat)
        + ",\"no_split\":"@ + text::decimal(counts.no_split as nat) + ",\"non_adjacent\":"@
        + text::decimal(counts.non_adjacent as nat) + ",\"seam_length\":"@ + text::decimal(
        counts.seam_length as nat,
    ) + ",\"tilted_rejection\":"@ + text::decimal(counts.tilted_rejection as nat) + "}"@
}

/// The names of a graph's text columns, in the order of texts.
pub open spec fn column_listing(attr: Map<Seq<char>, Seq<String>>) -> Seq<Seq<char>> {
    choose|names: Seq<Seq<char>>|
        columns::texts_ascend(names) && forall|x: Seq<char>| #[trigger]
            names.contains(x) <==> attr.contains_key(x)
}

proof fn ascending_texts_agree(a: Seq<Seq<char>>, b: Seq<Seq<char>>)
    requires
        columns::texts_ascend(a),
        columns::texts_ascend(b),
        forall|x: Seq<char>| #[trigger] a.contains(x) <==> b.contains(x),
    ensures
        a == b,
    decreases a.len(),
{
    if a.len() == 0 {
        if b.len() > 0 {
            assert(b.contains(b[0]) && a.contains(b[0]));
        }
        assert(a =~= b);
    } else {
        assert(a.contains(a[0]));
        let n = a.len() - 1;
        let m = b.len() - 1;
        assert(a.contains(a[n]));
        let i = choose|i: int| 0 <= i < b.len() && b[i] == a[n];
        assert(b.contains(b[m]) && a.contains(b[m]));
        let j = choose|j: int| 0 <= j < a.len() && a[j] == b[m];
        assert(a[n] == b[m]) by {
            if i < m && j < n {
                assert(text::text_before(b[i], b[m]));
                assert(text::text_before(a[j], a[n]));
                text::texts_are_ordered(a[n], b[m]);
            }
        }
        let p = a.drop_last();
        let q = b.drop_last();
        assert forall|x: Seq<char>| #[trigger] p.contains(x) <==> q.contains(x) by {
            if p.contains(x) {
                let k = choose|k: int| 0 <= k < p.len() && p[k] == x;
                assert(text::text_before(a[k], a[n]));
                text::texts_are_ordered(x, a[n]);
                assert(a[k] == x && a.contains(x));
                let l = choose|l: int| 0 <= l < b.len() && b[l] == x;
                assert(q[l] == x);
            }
            if q.contains(x) {
                let k = choose|k: int| 0 <= k < q.len() && q[k] == x;
                assert(text::text_before(b[k], b[m]));
                text::texts_are_ordered(x, b[m]);
                assert(b[k] == x && b.contains(x) && a.contains(x));
                let l = choose|l: int| 0 <= l < a.len() && a[l] == x;
                assert(p[l] == x);
            }
        }
        assert forall|k: int, l: int| 0 <= k < l < p.len() implies text::text_before(
            #[trigger] p[k],
            #[trigger] p[l],
        ) by {
            assert(text::text_before(a[k], a[l]));
        }
        assert forall|k: int, l: int| 0 <= k < l < q.len() implies text::text_before(
            #[trigger] q[k],
            #[trigger] q[l],
        ) by {
            assert(text::text_before(b[k], b[l]));
        }
        ascending_texts_agree(p, q);
        assert(a =~= p.push(a[n]));
        assert(b =~= q.push(b[m]));
    }
}

/// The sums of one column over lists of nodes, behind the column's name.
pub open spec fn column_sums(
    name: Seq<char>,
    attr: Map<Seq<char>, Seq<String>>,
    lists: Seq<Seq<usize>>,
) -> Seq<char> {
    json::json_quoted(name) + ":["@ + signed_list(
        sums::district_totals(graph::column_integers(attr[name]), lists),
    ) + "]"@
}

/// The sums of the named columns, separated by commas.
pub open spec fn named_sums(
    names: Seq<Seq<char>>,
    attr: Map<Seq<char>, Seq<String>>,
    lists: Seq<Seq<usize>>,
) -> Seq<char>
    decreases names.len(),
{
    if names.len() == 0 {
        Seq::empty()
    } else if names.len() == 1 {
        column_sums(names[0], attr, lists)
    } else {
        named_sums(names.drop_last(), attr, lists) + ","@ + column_sums(names.last(), attr, lists)
    }
}

/// The sums of a graph's columns over lists of nodes, as a JSON object.
pub open spec fn sums_json(attr: Map<Seq<char>, Seq<String>>, lists: Seq<Seq<usize>>) -> Seq<char> {
    "{"@ + named_sums(column_listing(attr), attr, lists) + "}"@
}

/// Every column of a graph holds integers, one for each listed node.
pub open spec fn summable(attr: Map<Seq<char>, Seq<String>>, lists: Seq<Seq<usize>>) -> bool {
    forall|name: Seq<char>| #[trigger]
        attr.contains_key(name) ==> graph::integer_column(attr, name) && sums::districts_within(
            lists,
            attr[name].len(),
        )
}

/// Every column of a graph holds integers, one for each of `n` nodes.
pub open spec fn tabled(attr: Map<Seq<char>, Seq<String>>, n: nat) -> bool {
    forall|name: Seq<char>| #[trigger]
        attr.contains_key(name) ==> graph::integer_column(attr, name) && attr[name].len() == n
}

/// The number of edges below `k` between different districts.
pub open spec fn cut_edges(edges: Seq<Edge>, assignments: Seq<u32>, k: int) -> int
    decreases k,
{
    if k <= 0 {
        0
    } else {
        cut_edges(edges, assignments, k - 1) + (if assignments[edges[k - 1].0 as int]
            != assignments[edges[k - 1].1 as int] {
            1int
        } else {
            0
        })
    }
}

/// Counts the edges between different districts.
pub fn cut_edge_count(graph: &Graph, partition: &Partition) -> (r: usize)
    requires
        graph.sound(),
        partition@.assignments.len() == graph.order(),
    ensures
        r == cut_edges(graph.edges@, partition@.assignments, graph.edges@.len() as int),
{
    let mut r: usize = 0;
    let mut k: usize = 0;
    while k < graph.edges.len()
        invariant
            k <= graph.edges.len(),
            graph.sound(),
            partition@.assignments.len() == graph.order(),
            r <= k,
            r == cut_edges(graph.edges@, partition@.assignments, k as int),
        decreases graph.edges.len() - k,
    {
        let edge: Edge = graph.edges[k];
        if partition.assignments[edge.0] != partition.assignments[edge.1] {
            r += 1;
        }
        k += 1;
    }
    r
}

fn push_signed_list(out: &mut String, values: &Vec<i64>)
    requires
        forall|i: int| 0 <= i < values.len() ==> (#[trigger] values[i]) > i64::MIN,
    ensures
        final(out)@ == old(out)@ + signed_list(Seq::new(values@.len(), |i: int| values[i] as int)),
{
    let ghost start = out@;
    let ghost numbers = Seq::new(values@.len(), |i: int| values[i] as int);
    let mut i: usize = 0;
    assert(out@ =~= start + signed_list(numbers.take(0)));
    while i < values.len()
        invariant
            i <= values.len(),
            numbers == Seq::new(values@.len(), |i: int| values[i] as int),
            forall|j: int| 0 <= j < values.len() ==> (#[trigger] values[j]) > i64::MIN,
            out@ == start + signed_list(numbers.take(i as int)),
        decreases values.len() - i,
    {
        if i > 0 {
            out.append(",");
        }
        text::push_signed(out, values[i]);
        i += 1;
        assert(numbers.take(i as int).drop_last() =~= numbers.take(i - 1));
        assert(out@ =~= start + signed_list(numbers.take(i as int)));
    }
    assert(numbers.take(i as int) =~= numbers);
}

fn push_column_sums(out: &mut String, name: &str, graph: &Graph, lists: &Vec<Vec<usize>>)
    requires
        graph.attr.valid(),
        graph.attr@.contains_key(name@),
        summable(graph.attr@, vectors::nested(lists@)),
    ensures
        final(out)@ == old(out)@ + column_sums(name@, graph.attr@, vectors::nested(lists@)),
{
    let ghost start = out@;
    let label: String = json::quoted(name);
    out.append(label.as_str());
    out.append(":[");
    assert(graph::integer_column(graph.attr@, name@));
    if let Some(texts) = graph.attr.get(name) {
        if let Some(values) = sums::read_column(texts) {
            let totals: Vec<i64> = sums::district_sums(&values, lists);
            assert forall|d: int| 0 <= d < totals.len() implies (#[trigger] totals[d]) > i64::MIN by {
                assert(vectors::nested(lists@)[d] == lists[d]@);
                sums::node_total_bounds(values@, lists[d]@);
            }
            push_signed_list(out, &totals);
            assert(Seq::new(totals@.len(), |i: int| totals[i] as int) =~= sums::district_totals(
                values@,
                vectors::nested(lists@),
            ));
        }
    }
    out.append("]");
    assert(out@ =~= start + column_sums(name@, graph.attr@, vectors::nested(lists@)));
}

fn push_sums(out: &mut String, graph: &Graph, lists: &Vec<Vec<usize>>)
    requires
        graph.attr.valid(),
        summable(graph.attr@, vectors::nested(lists@)),
    ensures
        final(out)@ == old(out)@ + sums_json(graph.attr@, vectors::nested(lists@)),
{
    let ghost start = out@;
    let ghost nodes = vectors::nested(lists@);
    let sorted: Vec<String> = graph.attr.sorted_names();
    let ghost names = vectors::texts(sorted@);
    proof {
        ascending_texts_agree(names, column_listing(graph.attr@));
    }
    out.append("{");
    let mut i: usize = 0;
    assert(out@ =~= start + ("{"@ + named_sums(names.take(0), graph.attr@, nodes)));
    while i < sorted.len()
        invariant
            i <= sorted.len(),
            graph.attr.valid(),
            nodes == vectors::nested(lists@),
            summable(graph.attr@, nodes),
            names == vectors::texts(sorted@),
            forall|x: Seq<char>| #[trigger] names.contains(x) <==> graph.attr@.contains_key(x),
            out@ == start + ("{"@ + named_sums(names.take(i as int), graph.attr@, nodes)),
        decreases sorted.len() - i,
    {
        if i > 0 {
            out.append(",");
        }
        assert(names[i as int] == sorted[i as int]@);
        assert(names.contains(names[i as int]));
        push_column_sums(out, sorted[i].as_str(), graph, lists);
        i += 1;
        assert(names.take(i as int).drop_last() =~= names.take(i - 1));
        assert(out@ =~= start + ("{"@ + named_sums(names.take(i as int), graph.attr@, nodes)));
    }
    assert(names.take(i as int) =~= names);
    out.append("}");
    assert(out@ =~= start + sums_json(graph.attr@, nodes));
}

fn push_counts(out: &mut String, counts: &SelfLoopCounts)
    ensures
        final(out)@ == old(out)@ + counts_json(*counts),
{
    let ghost start = out@;
    out.append("{\"constraint_violation\":");
    text::push_number(out, counts.constraint_violation as u64);
    out.append(",\"no_split\":");
    text::push_number(out, counts.no_split as u64);
    out.append(",\"non_adjacent\":");
    text::push_number(out, counts.non_adjacent as u64);
    out.append(",\"seam_length\":");
    text::push_number(out, counts.seam_length as u64);
    out.append(",\"tilted_rejection\":");
    text::push_number(out, counts.tilted_rejection as u64);
    out.append("}");
    assert(out@ =~= start + counts_json(*counts));
}

/// Node indices in decimal, separated by commas.
fn push_tight_indices(out: &mut String, nodes: &Vec<usize>)
    ensures
        final(out)@ == old(out)@ + records::tight_list(text::index_numbers(nodes@)),
{
    let ghost start = out@;
    let ghost numbers = text::index_numbers(nodes@);
    proof {
        reveal_strlit(",");
    }
    let mut i: usize = 0;
    assert(out@ =~= start + records::tight_list(numbers.take(0)));
    while i < nodes.len()
        invariant
            i <= nodes.len(),
            numbers == text::index_numbers(nodes@),
            ","@ == seq![','],
            out@ == start + records::tight_list(numbers.take(i as int)),
        decreases nodes.len() - i,
    {
        if i > 0 {
            out.append(",");
        }
        text::push_number(out, nodes[i] as u64);
        i += 1;
        assert(numbers.take(i as int).drop_last() =~= numbers.take(i - 1));
        assert(out@ =~= start + records::tight_list(numbers.take(i as int)));
    }
    assert(numbers.take(i as int) =~= numbers);
}

/// Writes a JSON object per accepted proposal.
#[derive(Debug)]
pub struct JSONLWriter {
    nodes: bool,
    spanning_tree_counts: bool,
    cut_edges_count: bool,
}

/// The record of the seed plan.
pub open spec fn init_line(
    attr: Map<Seq<char>, Seq<String>>,
    plan: Plan,
    cut: Option<int>,
) -> Seq<char> {
    let cut_text = match cut {
        Some(n) => "\"num_cut_edges\":"@ + text::decimal(n as nat) + ","@,
        None => Seq::empty(),
    };
    "{\"init\":{"@ + cut_text + "\"num_dists\":"@ + text::decimal(plan.num_dists)
        + ",\"populations\":["@ + records::tight_list(text::label_numbers(plan.dist_pops))
        + "],\"sums\":"@ + sums_json(attr, plan.dist_nodes) + "}}\n"@
}

/// The recombined nodes of a step, where they are listed.
pub open spec fn nodes_text(nodes: bool, p: Redraw) -> Seq<char> {
    if nodes {
        ",\"nodes\":[["@ + records::tight_list(text::index_numbers(p.a_nodes)) + "],["@
            + records::tight_list(text::index_numbers(p.b_nodes)) + "]]"@
    } else {
        Seq::empty()
    }
}

/// The number of cut edges of a step, where it is stated.
pub open spec fn cut_field(cut: Option<int>) -> Seq<char> {
    match cut {
        Some(n) => ",\"num_cut_edges\":"@ + text::decimal(n as nat),
        None => Seq::empty(),
    }
}

/// A number of cut edges, if it is stated.
pub open spec fn cut_number(cut: Option<usize>) -> Option<int> {
    match cut {
        Some(n) => Some(n as int),
        None => None,
    }
}

fn push_nodes_text(out: &mut String, nodes: bool, proposal: &RecomProposal)
    ensures
        final(out)@ == old(out)@ + nodes_text(nodes, proposal@),
{
    let ghost start = out@;
    if nodes {
        out.append(",\"nodes\":[[");
        push_tight_indices(out, &proposal.a_nodes);
        out.append("],[");
        push_tight_indices(out, &proposal.b_nodes);
        out.append("]]");
    }
    assert(out@ =~= start + nodes_text(nodes, proposal@));
}

fn push_cut_field(out: &mut String, cut: Option<usize>)
    ensures
        final(out)@ == old(out)@ + cut_field(cut_number(cut)),
{
    let ghost start = out@;
    if let Some(n) = cut {
        out.append(",\"num_cut_edges\":");
        text::push_number(out, n as u64);
    }
    assert(out@ =~= start + cut_field(cut_number(cut)));
}

/// The record of an accepted proposal.
pub open spec fn step_line(
    step: int,
    attr: Map<Seq<char>, Seq<String>>,
    p: Redraw,
    counts: SelfLoopCounts,
    nodes: bool,
    cut: Option<int>,
) -> Seq<char> {
    let node_text = nodes_text(nodes, p);
    let cut_text = cut_field(cut);
    "{\"step\":{\"counts\":"@ + counts_json(counts) + ",\"dists\":["@ + text::decimal(p.a_label)
        + ","@ + text::decimal(p.b_label) + "]"@ + node_text + cut_text + ",\"populations\":["@
        + text::decimal(p.a_pop) + ","@ + text::decimal(p.b_pop) + "],\"step\":"@ + text::decimal(
        step as nat,
    ) + ",\"sums\":"@ + sums_json(attr, seq![p.a_nodes, p.b_nodes]) + "}}\n"@
}

/// The record of trailing self-loops: they have no proposal, so the record has
/// a key of its own.
pub open spec fn loop_line(step: int, counts: SelfLoopCounts) -> Seq<char> {
    "{\"self_loop\":{\"counts\":"@ + counts_json(counts) + ",\"step\":"@ + text::decimal(
        step as nat,
    ) + "}}\n"@
}

impl JSONLWriter {
    /// Whether each step lists the recombined nodes.
    pub closed spec fn lists_nodes(&self) -> bool {
        self.nodes
    }

    /// Whether each record counts the cut edges.
    pub closed spec fn counts_cut_edges(&self) -> bool {
        self.cut_edges_count
    }

    /// The number of cut edges that a record states, if it does.
    pub open spec fn cut(&self, graph: &Graph, plan: Plan) -> Option<int> {
        if self.counts_cut_edges() {
            Some(cut_edges(graph.edges@, plan.assignments, graph.edges@.len() as int))
        } else {
            None
        }
    }

    /// A writer with the given options. Spanning tree counts are accepted as
    /// an option and not recorded.
    pub fn new(nodes: bool, spanning_tree_counts: bool, cut_edges_count: bool) -> (r: JSONLWriter)
        ensures
            r.lists_nodes() == nodes,
            r.counts_cut_edges() == cut_edges_count,
    {
        JSONLWriter { nodes, spanning_tree_counts, cut_edges_count }
    }
}

impl StatsWriter for JSONLWriter {
    open spec fn starts(&self, graph: &Graph, partition: &Partition) -> bool {
        &&& graph.sound()
        &&& partition@.assignments.len() == graph.order()
        &&& partition@.valid()
        &&& tabled(graph.attr@, graph.order())
    }

    open spec fn steps(
        &self,
        step: u64,
        graph: &Graph,
        partition: &Partition,
        proposal: &RecomProposal,
        counts: &SelfLoopCounts,
    ) -> bool {
        &&& graph.sound()
        &&& partition@.assignments.len() == graph.order()
        &&& summable(graph.attr@, seq![proposal@.a_nodes, proposal@.b_nodes])
    }

    open spec fn loops(
        &self,
        step: u64,
        graph: &Graph,
        partition: &Partition,
        counts: &SelfLoopCounts,
    ) -> bool {
        true
    }

    open spec fn closes(&self) -> bool {
        true
    }

    open spec fn stands(&self, graph: &Graph, plan: Plan, last: int) -> bool {
        tabled(graph.attr@, graph.order())
    }

    open spec fn begun(&self, graph: &Graph, plan: Plan, next: &Self) -> bool {
        next == self
    }

    open spec fn stepped(
        &self,
        step: int,
        graph: &Graph,
        plan: Plan,
        p: Redraw,
        counts: SelfLoopCounts,
        next: &Self,
    ) -> bool {
        next == self
    }

    open spec fn waited(
        &self,
        step: int,
        graph: &Graph,
        plan: Plan,
        counts: SelfLoopCounts,
        next: &Self,
    ) -> bool {
        next == self
    }

    open spec fn ended(&self, next: &Self) -> bool {
        self == next
    }

    open spec fn seed_entries(&self, graph: &Graph, plan: Plan) -> Seq<Entry> {
        seq![Entry::Text(init_line(graph.attr@, plan, self.cut(graph, plan)))]
    }

    open spec fn step_entries(
        &self,
        step: int,
        graph: &Graph,
        plan: Plan,
        p: Redraw,
        counts: SelfLoopCounts,
    ) -> Seq<Entry> {
        seq![
            Entry::Text(
                step_line(
                    step,
                    graph.attr@,
                    p,
                    counts,
                    self.lists_nodes(),
                    self.cut(graph, plan),
                ),
            ),
        ]
    }

    open spec fn loop_entries(
        &self,
        step: int,
        graph: &Graph,
        plan: Plan,
        counts: SelfLoopCounts,
    ) -> Seq<Entry> {
        seq![Entry::Text(loop_line(step, counts))]
    }

    open spec fn close_entries(&self) -> Seq<Entry> {
        Seq::empty()
    }

    proof fn ready_to_step(
        &self,
        graph: &Graph,
        before: Plan,
        last: int,
        step: u64,
        partition: &Partition,
        proposal: &RecomProposal,
        counts: &SelfLoopCounts,
    ) {
    }

    proof fn ready_to_wait(
        &self,
        graph: &Graph,
        partition: &Partition,
        last: int,
        step: u64,
        counts: &SelfLoopCounts,
    ) {
    }

    proof fn ready_to_close(&self, graph: &Graph, plan: Plan, last: int) {
    }

    fn init(&mut self, graph: &Graph, partition: &Partition) -> (r: Vec<Record>)
        ensures
            records::entries(r@) == seq![
                Entry::Text(init_line(graph.attr@, partition@, old(self).cut(graph, partition@))),
            ],
            *final(self) == *old(self),
    {
        proof {
            sums::valid_districts_are_within(partition@, graph.order());
        }
        let mut out: String = "{\"init\":{".to_string();
        if self.cut_edges_count {
            out.append("\"num_cut_edges\":");
            text::push_number(&mut out, cut_edge_count(graph, partition) as u64);
            out.append(",");
        }
        out.append("\"num_dists\":");
        text::push_number(&mut out, partition.num_dists as u64);
        out.append(",\"populations\":[");
        records::push_tight_labels(&mut out, &partition.dist_pops);
        out.append("],\"sums\":");
        push_sums(&mut out, graph, &partition.dist_nodes);
        out.append("}}\n");
        assert(out@ =~= init_line(graph.attr@, partition@, self.cut(graph, partition@)));
        let mut r: Vec<Record> = Vec::new();
        let record: Record = Record::Text(out);
        r.push(record);
        assert(records::entries(r@) =~= seq![record@]);
        r
    }

    fn step(
        &mut self,
        step: u64,
        graph: &Graph,
        partition: &Partition,
        proposal: &RecomProposal,
        counts: &SelfLoopCounts,
    ) -> (r: Vec<Record>)
        ensures
            records::entries(r@) == seq![
                Entry::Text(
                    step_line(
                        step as int,
                        graph.attr@,
                        proposal@,
                        *counts,
                        old(self).lists_nodes(),
                        old(self).cut(graph, partition@),
                    ),
                ),
            ],
            *final(self) == *old(self),
    {
        let mut lists: Vec<Vec<usize>> = Vec::new();
        lists.push(vectors::copied(&proposal.a_nodes));
        lists.push(vectors::copied(&proposal.b_nodes));
        assert(vectors::nested(lists@) =~= seq![proposal@.a_nodes, proposal@.b_nodes]);
        let mut out: String = "{\"step\":{\"counts\":".to_string();
        push_counts(&mut out, counts);
        out.append(",\"dists\":[");
        text::push_number(&mut out, proposal.a_label as u64);
        out.append(",");
        text::push_number(&mut out, proposal.b_label as u64);
        out.append("]");
        push_nodes_text(&mut out, self.nodes, proposal);
        let cut: Option<usize> = if self.cut_edges_count {
            Some(cut_edge_count(graph, partition))
        } else {
            None
        };
        push_cut_field(&mut out, cut);
        out.append(",\"populations\":[");
        text::push_number(&mut out, proposal.a_pop as u64);
        out.append(",");
        text::push_number(&mut out, proposal.b_pop as u64);
        out.append("],\"step\":");
        text::push_number(&mut out, step);
        out.append(",\"sums\":");
        push_sums(&mut out, graph, &lists);
        out.append("}}\n");
        assert(out@ == step_line(
            step as int,
            graph.attr@,
            proposal@,
            *counts,
            self.lists_nodes(),
            self.cut(graph, partition@),
        ));
        let mut r: Vec<Record> = Vec::new();
        let record: Record = Record::Text(out);
        r.push(record);
        assert(records::entries(r@) =~= seq![record@]);
        r
    }

    fn self_loop(
        &mut self,
        step: u64,
        graph: &Graph,
        partition: &Partition,
        counts: &SelfLoopCounts,
    ) -> (r: Vec<Record>)
        ensures
            records::entries(r@) == seq![Entry::Text(loop_line(step as int, *counts))],
            *final(self) == *old(self),
    {
        let mut out: String = "{\"self_loop\":{\"counts\":".to_string();
        push_counts(&mut out, counts);
        out.append(",\"step\":");
        text::push_number(&mut out, step);
        out.append("}}\n");
        assert(out@ =~= loop_line(step as int, *counts));
        let mut r: Vec<Record> = Vec::new();
        let record: Record = Record::Text(out);
        r.push(record);
        assert(records::entries(r@) =~= seq![record@]);
        r
    }

    fn close(&mut self) -> (r: Vec<Record>)
        ensures
            records::entries(r@) == Seq::<Entry>::empty(),
    {
        let r: Vec<Record> = Vec::new();
        assert(records::entries(r@) =~= Seq::<Entry>::empty());
        r
    }
}

/// The edges that join different districts.
pub open spec fn crossing(edges: Seq<Edge>, assignments: Seq<u32>) -> Set<int> {
    Set::new(
        |e: int|
            0 <= e < edges.len() && assignments[edges[e].0 as int] != assignments[edges[e].1 as int],
    )
}

/// The stated number of cut edges is the number of edges whose ends lie in
/// different districts. These are the edges by which districts are paired, and
/// a plan with one district has none.
pub proof fn cut_edges_join_different_districts(edges: Seq<Edge>, assignments: Seq<u32>)
    ensures
        crossing(edges, assignments).finite(),
        cut_edges(edges, assignments, edges.len() as int) == crossing(edges, assignments).len(),
        cut_edges(edges, assignments, edges.len() as int) == pairs::cut_places(
            edges,
            assignments,
            edges.len() as int,
        ).len(),
        (forall|u: int, v: int|
            0 <= u < assignments.len() && 0 <= v < assignments.len() ==> #[trigger] assignments[u]
                == #[trigger] assignments[v]) && (forall|e: int|
            0 <= e < edges.len() ==> (#[trigger] edges[e]).0 < assignments.len() && edges[e].1
                < assignments.len()) ==> cut_edges(edges, assignments, edges.len() as int) == 0,
    decreases edges.len(),
{
    let n = edges.len() as int;
    if n == 0 {
        assert(crossing(edges, assignments) =~= Set::<int>::empty());
    } else {
        let init = edges.drop_last();
        cut_edges_join_different_districts(init, assignments);
        fewer_edges_are_cut_alike(edges, assignments, n - 1);
        if assignments[edges[n - 1].0 as int] != assignments[edges[n - 1].1 as int] {
            assert(crossing(edges, assignments) =~= crossing(init, assignments).insert(n - 1));
        } else {
            assert(crossing(edges, assignments) =~= crossing(init, assignments));
        }
        if forall|e: int|
            0 <= e < edges.len() ==> (#[trigger] edges[e]).0 < assignments.len() && edges[e].1
                < assignments.len() {
            assert forall|e: int| 0 <= e < init.len() implies (#[trigger] init[e]).0
                < assignments.len() && init[e].1 < assignments.len() by {
                assert(init[e] == edges[e]);
            }
            assert(edges[n - 1].0 < assignments.len());
        }
    }
}

proof fn fewer_edges_are_cut_alike(edges: Seq<Edge>, assignments: Seq<u32>, k: int)
    requires
        0 <= k < edges.len(),
    ensures
        cut_edges(edges.drop_last(), assignments, k) == cut_edges(edges, assignments, k),
        pairs::cut_places(edges.drop_last(), assignments, k) == pairs::cut_places(
            edges,
            assignments,
            k,
        ),
    decreases k,
{
    if k > 0 {
        fewer_edges_are_cut_alike(edges, assignments, k - 1);
        assert(edges.drop_last()[k - 1] == edges[k - 1]);
    }
}

/// What a key maps to, as it stands in a JSON object.
pub open spec fn member(key: Seq<char>, value: Seq<char>) -> Seq<char> {
    seq!['"'] + key + seq!['"', ':'] + value
}

/// The members of the counts: how often each reason came up, under its name.
pub open spec fn count_members(counts: SelfLoopCounts) -> Seq<Seq<char>> {
    seq![
        member(
            "constraint_violation"@,
            text::decimal(counts.count(SelfLoopReason::ConstraintViolation) as nat),
        ),
        member("no_split"@, text::decimal(counts.count(SelfLoopReason::NoSplit) as nat)),
        member("non_adjacent"@, text::decimal(counts.count(SelfLoopReason::NonAdjacent) as nat)),
        member("seam_length"@, text::decimal(counts.count(SelfLoopReason::SeamLength) as nat)),
        member(
            "tilted_rejection"@,
            text::decimal(counts.count(SelfLoopReason::TiltedRejection) as nat),
        ),
    ]
}

/// Two values as a JSON array.
pub open spec fn array_of_two(a: Seq<char>, b: Seq<char>) -> Seq<char> {
    seq!['['] + a + seq![','] + b + seq![']']
}

/// The members of the record of an accepted proposal, by key: the counts, and of
/// the two districts of the plan that it leads to the labels, the nodes where
/// they are asked for, the populations and the sums, beside the number of cut
/// edges of that plan where it is asked for, and the step.
pub open spec fn step_members(
    step: int,
    attr: Map<Seq<char>, Seq<String>>,
    after: Plan,
    a: int,
    b: int,
    counts: SelfLoopCounts,
    nodes: bool,
    cut: Option<int>,
) -> Seq<Seq<char>> {
    let first = seq![
        member("counts"@, counts_json(counts)),
        member("dists"@, array_of_two(text::decimal(a as nat), text::decimal(b as nat))),
    ];
    let listed = if nodes {
        first.push(
            member(
                "nodes"@,
                array_of_two(
                    seq!['['] + records::tight_list(text::index_numbers(after.dist_nodes[a]))
                        + seq![']'],
                    seq!['['] + records::tight_list(text::index_numbers(after.dist_nodes[b]))
                        + seq![']'],
                ),
            ),
        )
    } else {
        first
    };
    let counted = match cut {
        Some(n) => listed.push(member("num_cut_edges"@, text::decimal(n as nat))),
        None => listed,
    };
    counted.push(
        member(
            "populations"@,
            array_of_two(
                text::decimal(after.dist_pops[a] as nat),
                text::decimal(after.dist_pops[b] as nat),
            ),
        ),
    ).push(member("step"@, text::decimal(step as nat))).push(
        member("sums"@, sums_json(attr, seq![after.dist_nodes[a], after.dist_nodes[b]])),
    )
}

proof fn member_follows(front: Seq<char>, members: Seq<Seq<char>>, key: Seq<char>, value: Seq<char>)
    requires
        members.len() > 0,
    ensures
        front + text::joined(members.push(member(key, value)), seq![',']) == front + text::joined(
            members,
            seq![','],
        ) + (seq![',', '"'] + key + seq!['"', ':']) + value,
{
    let comma = seq![','];
    let before = text::joined(members, comma);
    let m = member(key, value);
    text::joined_with_one_more(members, m, comma);
    text::follow_on(front, before + comma, m);
    text::follow_on(front, before, comma);
    let name = seq!['"'] + key + seq!['"', ':'];
    let whole = front + before;
    text::follow_on(whole + comma, name, value);
    text::follow_on(whole, comma, name);
    assert(comma + name =~= seq![',', '"'] + key + seq!['"', ':']);
}

proof fn pair_follows(front: Seq<char>, name: Seq<char>, a: Seq<char>, b: Seq<char>)
    ensures
        front + name + array_of_two(a, b) == front + (name + seq!['[']) + a + seq![','] + b
            + seq![']'],
{
    let open = seq!['['];
    let comma = seq![','];
    let close = seq![']'];
    text::follow_on(front + name, open + a + comma + b, close);
    text::follow_on(front + name, open + a + comma, b);
    text::follow_on(front + name, open + a, comma);
    text::follow_on(front + name, open, a);
    text::follow_on(front, name, open);
}

/// The counts are an object with a member for each reason.
pub proof fn counts_name_each_reason(counts: SelfLoopCounts)
    ensures
        counts_json(counts) == seq!['{'] + text::joined(count_members(counts), seq![','])
            + seq!['}'],
{
    reveal_strlit("constraint_violation");
    reveal_strlit("no_split");
    reveal_strlit("non_adjacent");
    reveal_strlit("seam_length");
    reveal_strlit("tilted_rejection");
    reveal_strlit("{\"constraint_violation\":");
    reveal_strlit(",\"no_split\":");
    reveal_strlit(",\"non_adjacent\":");
    reveal_strlit(",\"seam_length\":");
    reveal_strlit(",\"tilted_rejection\":");
    reveal_strlit("}");
    let m = count_members(counts);
    let open = seq!['{'];
    let comma = seq![','];
    let cv = text::decimal(counts.constraint_violation as nat);
    let ns = text::decimal(counts.no_split as nat);
    let na = text::decimal(counts.non_adjacent as nat);
    let sl = text::decimal(counts.seam_length as nat);
    let tr = text::decimal(counts.tilted_rejection as nat);
    let one = seq![m[0]];
    text::joined_with_one_more(Seq::empty(), m[0], comma);
    assert(Seq::<Seq<char>>::empty().push(m[0]) =~= one);
    text::follow_on(open, seq!['"'] + "constraint_violation"@ + seq!['"', ':'], cv);
    assert(open + (seq!['"'] + "constraint_violation"@ + seq!['"', ':'])
        =~= "{\"constraint_violation\":"@);
    let two = one.push(m[1]);
    member_follows(open, one, "no_split"@, ns);
    assert(seq![',', '"'] + "no_split"@ + seq!['"', ':'] =~= ",\"no_split\":"@);
    let three = two.push(m[2]);
    member_follows(open, two, "non_adjacent"@, na);
    assert(seq![',', '"'] + "non_adjacent"@ + seq!['"', ':'] =~= ",\"non_adjacent\":"@);
    let four = three.push(m[3]);
    member_follows(open, three, "seam_length"@, sl);
    assert(seq![',', '"'] + "seam_length"@ + seq!['"', ':'] =~= ",\"seam_length\":"@);
    let five = four.push(m[4]);
    member_follows(open, four, "tilted_rejection"@, tr);
    assert(seq![',', '"'] + "tilted_rejection"@ + seq!['"', ':'] =~= ",\"tilted_rejection\":"@);
    assert(five =~= m);
    assert("}"@ =~= seq!['}']);
}

proof fn lists_follow(front: Seq<char>, name: Seq<char>, a: Seq<char>, b: Seq<char>)
    ensures
        front + name + array_of_two(seq!['['] + a + seq![']'], seq!['['] + b + seq![']']) == front
            + (name + seq!['[', '['] + a + seq![']', ',', '['] + b + seq![']', ']']),
{
    let left = array_of_two(seq!['['] + a + seq![']'], seq!['['] + b + seq![']']);
    let right = seq!['[', '['] + a + seq![']', ',', '['] + b + seq![']', ']'];
    assert(left =~= right);
    text::follow_on(front, name, right);
    text::follow_on(name, seq!['[', '['] + a + seq![']', ',', '['] + b, seq![']', ']']);
    text::follow_on(name, seq!['[', '['] + a + seq![']', ',', '['], b);
    text::follow_on(name, seq!['[', '['] + a, seq![']', ',', '[']);
    text::follow_on(name, seq!['[', '['], a);
}

proof fn names_as_printed()
    ensures
        seq![',', '"'] + "dists"@ + seq!['"', ':'] + seq!['['] == ",\"dists\":["@,
        seq![',', '"'] + "nodes"@ + seq!['"', ':'] + seq!['[', '['] == ",\"nodes\":[["@,
        seq![']', ',', '['] == "],["@,
        seq![']', ']'] == "]]"@,
        seq![',', '"'] + "num_cut_edges"@ + seq!['"', ':'] == ",\"num_cut_edges\":"@,
        seq![',', '"'] + "populations"@ + seq!['"', ':'] + seq!['['] == ",\"populations\":["@,
        seq![']'] + (seq![',', '"'] + "step"@ + seq!['"', ':']) == "],\"step\":"@,
        seq![',', '"'] + "sums"@ + seq!['"', ':'] == ",\"sums\":"@,
        "{\"step\":{"@ + (seq!['"'] + "counts"@ + seq!['"', ':']) == "{\"step\":{\"counts\":"@,
        seq![','] == ","@,
        seq![']'] == "]"@,
{
    reveal_strlit("counts");
    reveal_strlit("dists");
    reveal_strlit("nodes");
    reveal_strlit("num_cut_edges");
    reveal_strlit("populations");
    reveal_strlit("step");
    reveal_strlit("sums");
    reveal_strlit("{\"step\":{");
    reveal_strlit("{\"step\":{\"counts\":");
    reveal_strlit(",\"dists\":[");
    reveal_strlit(",");
    reveal_strlit("]");
    reveal_strlit(",\"nodes\":[[");
    reveal_strlit("],[");
    reveal_strlit("]]");
    reveal_strlit(",\"num_cut_edges\":");
    reveal_strlit(",\"populations\":[");
    reveal_strlit("],\"step\":");
    reveal_strlit(",\"sums\":");
    assert(seq![',', '"'] + "dists"@ + seq!['"', ':'] + seq!['['] =~= ",\"dists\":["@);
    assert(seq![',', '"'] + "nodes"@ + seq!['"', ':'] + seq!['[', '['] =~= ",\"nodes\":[["@);
    assert(seq![']', ',', '['] =~= "],["@);
    assert(seq![']', ']'] =~= "]]"@);
    assert(seq![',', '"'] + "num_cut_edges"@ + seq!['"', ':'] =~= ",\"num_cut_edges\":"@);
    assert(seq![',', '"'] + "populations"@ + seq!['"', ':'] + seq!['['] =~= ",\"populations\":["@);
    assert(seq![']'] + (seq![',', '"'] + "step"@ + seq!['"', ':']) =~= "],\"step\":"@);
    assert(seq![',', '"'] + "sums"@ + seq!['"', ':'] =~= ",\"sums\":"@);
    assert("{\"step\":{"@ + (seq!['"'] + "counts"@ + seq!['"', ':']) =~= "{\"step\":{\"counts\":"@);
    assert(seq![','] =~= ","@);
    assert(seq![']'] =~= "]"@);
}

/// The record of an accepted proposal is an object under `step` whose members
/// tell of the plan that the proposal leads to.
pub proof fn step_records_tell_of_the_redrawn_plan(
    step: int,
    attr: Map<Seq<char>, Seq<String>>,
    plan: Plan,
    p: Redraw,
    counts: SelfLoopCounts,
    nodes: bool,
    cut: Option<int>,
)
    requires
        plan.valid(),
        plan.admits(p),
        0 < plan.assignments.len() <= usize::MAX,
    ensures
        step_line(step, attr, p, counts, nodes, cut) == "{\"step\":{"@ + text::joined(
            step_members(
                step,
                attr,
                plan.redrawn(p),
                p.a_label as int,
                p.b_label as int,
                counts,
                nodes,
                cut,
            ),
            seq![','],
        ) + "}}\n"@,
{
    crate::partition::redrawing_moves_two_districts_only(plan, p, 0, 0);
    names_as_printed();
    let open = "{\"step\":{"@;
    let comma = seq![','];
    let a = text::decimal(p.a_label);
    let b = text::decimal(p.b_label);
    let c = counts_json(counts);
    let m0 = member("counts"@, c);
    let one = seq![m0];
    text::joined_with_one_more(Seq::empty(), m0, comma);
    assert(Seq::<Seq<char>>::empty().push(m0) =~= one);
    text::follow_on(open, seq!['"'] + "counts"@ + seq!['"', ':'], c);
    let line0 = "{\"step\":{\"counts\":"@ + c;
    member_follows(open, one, "dists"@, array_of_two(a, b));
    let name = seq![',', '"'] + "dists"@ + seq!['"', ':'];
    pair_follows(line0, name, a, b);
    let two = one.push(member("dists"@, array_of_two(a, b)));
    assert(two =~= seq![m0, member("dists"@, array_of_two(a, b))]);
    let line1 = line0 + ",\"dists\":["@ + a + ","@ + b + "]"@;
    assert(open + text::joined(two, comma) == line1);
    let x = records::tight_list(text::index_numbers(p.a_nodes));
    let y = records::tight_list(text::index_numbers(p.b_nodes));
    let lists = array_of_two(seq!['['] + x + seq![']'], seq!['['] + y + seq![']']);
    let three = if nodes {
        two.push(member("nodes"@, lists))
    } else {
        two
    };
    let line2 = line1 + nodes_text(nodes, p);
    if nodes {
        member_follows(open, two, "nodes"@, lists);
        let name = seq![',', '"'] + "nodes"@ + seq!['"', ':'];
        lists_follow(line1, name, x, y);
    } else {
        assert(line2 =~= line1);
    }
    assert(open + text::joined(three, comma) == line2);
    let four = match cut {
        Some(n) => three.push(member("num_cut_edges"@, text::decimal(n as nat))),
        None => three,
    };
    let line3 = line2 + cut_field(cut);
    match cut {
        Some(n) => {
            member_follows(open, three, "num_cut_edges"@, text::decimal(n as nat));
            let name = seq![',', '"'] + "num_cut_edges"@ + seq!['"', ':'];
            text::follow_on(line2, name, text::decimal(n as nat));
        },
        None => {
            assert(line3 =~= line2);
        },
    }
    assert(open + text::joined(four, comma) == line3);
    let pa = text::decimal(p.a_pop);
    let pb = text::decimal(p.b_pop);
    let five = four.push(member("populations"@, array_of_two(pa, pb)));
    member_follows(open, four, "populations"@, array_of_two(pa, pb));
    let name = seq![',', '"'] + "populations"@ + seq!['"', ':'];
    pair_follows(line3, name, pa, pb);
    let line4 = line3 + ",\"populations\":["@ + pa + ","@ + pb;
    assert(open + text::joined(five, comma) == line4 + seq![']']);
    let s = text::decimal(step as nat);
    let six = five.push(member("step"@, s));
    member_follows(open, five, "step"@, s);
    let name = seq![',', '"'] + "step"@ + seq!['"', ':'];
    text::follow_on(line4, seq![']'], name);
    let line5 = line4 + "],\"step\":"@ + s;
    assert(open + text::joined(six, comma) == line5);
    let u = sums_json(attr, seq![p.a_nodes, p.b_nodes]);
    let seven = six.push(member("sums"@, u));
    member_follows(open, six, "sums"@, u);
    let name = seq![',', '"'] + "sums"@ + seq!['"', ':'];
    assert(open + text::joined(seven, comma) == line5 + ",\"sums\":"@ + u);
    assert(seven == step_members(
        step,
        attr,
        plan.redrawn(p),
        p.a_label as int,
        p.b_label as int,
        counts,
        nodes,
        cut,
    ));
}

/// The record of trailing self-loops is an object under `self_loop` with the
/// counts and the step.
pub proof fn loop_records_tell_the_counts(step: int, counts: SelfLoopCounts)
    ensures
        loop_line(step, counts) == "{\"self_loop\":{"@ + text::joined(
            seq![
                member("counts"@, counts_json(counts)),
                member("step"@, text::decimal(step as nat)),
            ],
            seq![','],
        ) + "}}\n"@,
{
    reveal_strlit("counts");
    reveal_strlit("step");
    reveal_strlit("{\"self_loop\":{");
    reveal_strlit("{\"self_loop\":{\"counts\":");
    reveal_strlit(",\"step\":");
    let open = "{\"self_loop\":{"@;
    let comma = seq![','];
    let c = counts_json(counts);
    let s = text::decimal(step as nat);
    let m0 = member("counts"@, c);
    let one = seq![m0];
    text::joined_with_one_more(Seq::empty(), m0, comma);
    assert(Seq::<Seq<char>>::empty().push(m0) =~= one);
    text::follow_on(open, seq!['"'] + "counts"@ + seq!['"', ':'], c);
    assert(open + (seq!['"'] + "counts"@ + seq!['"', ':']) =~= "{\"self_loop\":{\"counts\":"@);
    member_follows(open, one, "step"@, s);
    assert(seq![',', '"'] + "step"@ + seq!['"', ':'] =~= ",\"step\":"@);
    assert(one.push(member("step"@, s)) =~= seq![m0, member("step"@, s)]);
}

/// The members of the record of the seed plan, by key: the number of cut edges
/// where it is asked for, the number of districts, their populations and their
/// sums.
pub open spec fn init_members(
    attr: Map<Seq<char>, Seq<String>>,
    plan: Plan,
    cut: Option<int>,
) -> Seq<Seq<char>> {
    let first = match cut {
        Some(n) => seq![
            member("num_cut_edges"@, text::decimal(n as nat)),
            member("num_dists"@, text::decimal(plan.num_dists)),
        ],
        None => seq![member("num_dists"@, text::decimal(plan.num_dists))],
    };
    first.push(
        member(
            "populations"@,
            seq!['['] + records::tight_list(text::label_numbers(plan.dist_pops)) + seq![']'],
        ),
    ).push(member("sums"@, sums_json(attr, plan.dist_nodes)))
}

/// The record of the seed plan is an object under `init` whose members tell of
/// the plan.
pub proof fn init_records_tell_of_the_seed_plan(
    attr: Map<Seq<char>, Seq<String>>,
    plan: Plan,
    cut: Option<int>,
)
    ensures
        init_line(attr, plan, cut) == "{\"init\":{"@ + text::joined(
            init_members(attr, plan, cut),
            seq![','],
        ) + "}}\n"@,
{
    reveal_strlit("num_cut_edges");
    reveal_strlit("num_dists");
    reveal_strlit("populations");
    reveal_strlit("sums");
    reveal_strlit("{\"init\":{");
    reveal_strlit("\"num_cut_edges\":");
    reveal_strlit(",");
    reveal_strlit("\"num_dists\":");
    reveal_strlit(",\"populations\":[");
    reveal_strlit("],\"sums\":");
    let open = "{\"init\":{"@;
    let comma = seq![','];
    let n = text::decimal(plan.num_dists);
    let pops = records::tight_list(text::label_numbers(plan.dist_pops));
    let u = sums_json(attr, plan.dist_nodes);
    let dists = member("num_dists"@, n);
    assert(","@ =~= comma);
    assert(seq!['"'] + "num_dists"@ + seq!['"', ':'] =~= "\"num_dists\":"@);
    let cut_text = match cut {
        Some(k) => "\"num_cut_edges\":"@ + text::decimal(k as nat) + ","@,
        None => Seq::empty(),
    };
    let first = match cut {
        Some(k) => seq![member("num_cut_edges"@, text::decimal(k as nat)), dists],
        None => seq![dists],
    };
    let line0 = open + cut_text + "\"num_dists\":"@ + n;
    match cut {
        Some(k) => {
            let m0 = member("num_cut_edges"@, text::decimal(k as nat));
            assert(seq!['"'] + "num_cut_edges"@ + seq!['"', ':'] =~= "\"num_cut_edges\":"@);
            text::joined_with_one_more(Seq::empty(), m0, comma);
            assert(Seq::<Seq<char>>::empty().push(m0) =~= seq![m0]);
            text::joined_with_one_more(seq![m0], dists, comma);
            assert(seq![m0].push(dists) =~= first);
            text::follow_on(open, m0 + comma, dists);
            text::follow_on(open + cut_text, "\"num_dists\":"@, n);
        },
        None => {
            text::joined_with_one_more(Seq::empty(), dists, comma);
            assert(Seq::<Seq<char>>::empty().push(dists) =~= first);
            assert(open + cut_text =~= open);
            text::follow_on(open, "\"num_dists\":"@, n);
        },
    }
    assert(open + text::joined(first, comma) == line0);
    let list = seq!['['] + pops + seq![']'];
    member_follows(open, first, "populations"@, list);
    let name = seq![',', '"'] + "populations"@ + seq!['"', ':'];
    text::follow_on(line0 + name, seq!['['] + pops, seq![']']);
    text::follow_on(line0 + name, seq!['['], pops);
    text::follow_on(line0, name, seq!['[']);
    assert(name + seq!['['] =~= ",\"populations\":["@);
    let line1 = line0 + ",\"populations\":["@ + pops;
    let second = first.push(member("populations"@, list));
    assert(open + text::joined(second, comma) == line1 + seq![']']);
    member_follows(open, second, "sums"@, u);
    let name = seq![',', '"'] + "sums"@ + seq!['"', ':'];
    text::follow_on(line1, seq![']'], name);
    assert(seq![']'] + name =~= "],\"sums\":"@);
}

} // verus!
