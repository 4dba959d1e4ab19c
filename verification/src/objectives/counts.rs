//! Integer columns over districts, and shares of them.

use vstd::prelude::*;
use crate::double::{Arithmetic, Double, Op};
use crate::graph::Graph;
use crate::partition::{Partition, Plan};
use crate::recom::proposal::Redraw;
use crate::stats::sums;
use crate::{double, graph, vectors};

verus! {

/// Whether a node column holds an integer for each node.
pub open spec fn readable(graph: &Graph, name: Seq<char>) -> bool {
    graph::integer_column(graph.attr@, name) && graph.attr@[name].len() == graph.order()
}

/// The integers of a node column.
pub open spec fn values(graph: &Graph, name: Seq<char>) -> Seq<i32> {
    graph::column_integers(graph.attr@[name])
}

/// Whether the integers of a node column were read.
pub open spec fn cached(graph: &Graph, name: Seq<char>) -> bool {
    &&& readable(graph, name)
    &&& graph.int_attr@.contains_key(name)
    &&& graph.int_attr@[name] == values(graph, name)
}

/// The sum of a column over the listed nodes.
pub open spec fn total(graph: &Graph, name: Seq<char>, nodes: Seq<usize>) -> int {
    sums::node_total(values(graph, name), nodes)
}

/// The sum of a column over each district.
pub open spec fn totals(graph: &Graph, name: Seq<char>, plan: Plan) -> Seq<int> {
    Seq::new(plan.dist_nodes.len(), |d: int| total(graph, name, plan.dist_nodes[d]))
}

/// Redrawing replaces the sums of the two redrawn districts.
pub proof fn redrawn_totals(graph: &Graph, name: Seq<char>, plan: Plan, p: Redraw)
    requires
        plan.valid(),
        plan.admits(p),
    ensures
        totals(graph, name, plan.redrawn(p)) == totals(graph, name, plan).update(
            p.a_label as int,
            total(graph, name, p.a_nodes),
        ).update(p.b_label as int, total(graph, name, p.b_nodes)),
{
    assert(totals(graph, name, plan.redrawn(p)) =~= totals(graph, name, plan).update(
        p.a_label as int,
        total(graph, name, p.a_nodes),
    ).update(p.b_label as int, total(graph, name, p.b_nodes)));
}

/// The values of a vector as integers.
pub open spec fn ints(v: Seq<i64>) -> Seq<int> {
    Seq::new(v.len(), |i: int| v[i] as int)
}

/// Adds up a column over each district, reading it from its text.
pub fn partition_attr_sums(graph: &Graph, partition: &Partition, name: &str) -> (r: Vec<i64>)
    requires
        graph.sound(),
        readable(graph, name@),
        partition@.valid(),
        partition@.assignments.len() == graph.order(),
    ensures
        ints(r@) == totals(graph, name@, partition@),
{
    proof {
        sums::valid_districts_are_within(partition@, graph.order());
    }
    if let Some(texts) = graph.attr.get(name) {
        if let Some(column) = sums::read_column(texts) {
            let r: Vec<i64> = sums::district_sums(&column, &partition.dist_nodes);
            assert(ints(r@) =~= totals(graph, name@, partition@));
            return r;
        }
        proof {
            let i = choose|i: int|
                0 <= i < texts.len() && crate::text::parse_integer((#[trigger] texts[i])@) is None;
            assert(crate::text::parse_integer(graph.attr@[name@][i]@) is Some);
        }
    }
    Vec::new()
}

/// Adds up a column of integers that was read over the listed nodes.
pub fn sum_attr_over(graph: &Graph, name: &str, nodes: &Vec<usize>) -> (r: i64)
    requires
        graph.sound(),
        graph.int_attr@.contains_key(name@),
        sums::nodes_within(nodes@, graph.int_attr@[name@].len()),
    ensures
        r == sums::node_total(graph.int_attr@[name@], nodes@),
{
    match graph.int_attr.get(name) {
        Some(column) => sums::sum_over(column, nodes),
        None => 0,
    }
}

/// The share of one count in another.
pub open spec fn share_of<F: Fn(Op, Double, Double) -> Double>(
    numbers: Arithmetic<F>,
    part: int,
    whole: int,
) -> Double {
    numbers.quotient(numbers.integer(part), numbers.integer(whole))
}

/// The share of one count in another.
pub fn district_share<F: Fn(Op, Double, Double) -> Double>(
    numbers: &Arithmetic<F>,
    part: i64,
    whole: i64,
) -> (r: Double)
    requires
        numbers.valid(),
    ensures
        r == share_of(*numbers, part as int, whole as int),
{
    numbers.over(numbers.of_int(part), numbers.of_int(whole))
}

/// The share of each district.
pub open spec fn shares_of<F: Fn(Op, Double, Double) -> Double>(
    numbers: Arithmetic<F>,
    parts: Seq<int>,
    wholes: Seq<int>,
) -> Seq<Double> {
    Seq::new(parts.len(), |d: int| share_of(numbers, parts[d], wholes[d]))
}

/// The share of each district, zero where there is nothing to share.
pub open spec fn shares_or_zero<F: Fn(Op, Double, Double) -> Double>(
    numbers: Arithmetic<F>,
    parts: Seq<int>,
    wholes: Seq<int>,
) -> Seq<Double> {
    Seq::new(
        parts.len(),
        |d: int|
            if wholes[d] == 0 {
                crate::double::zero()
            } else {
                share_of(numbers, parts[d], wholes[d])
            },
    )
}

/// The share of each district, zero where there is nothing to share.
pub fn district_shares<F: Fn(Op, Double, Double) -> Double>(
    numbers: &Arithmetic<F>,
    parts: &Vec<i64>,
    wholes: &Vec<i64>,
) -> (r: Vec<Double>)
    requires
        numbers.valid(),
        parts.len() == wholes.len(),
    ensures
        r@ == shares_or_zero(*numbers, ints(parts@), ints(wholes@)),
{
    let mut r: Vec<Double> = Vec::new();
    let mut d: usize = 0;
    while d < parts.len()
        invariant
            d <= parts.len(),
            numbers.valid(),
            parts.len() == wholes.len(),
            r.len() == d,
            forall|e: int|
                0 <= e < d ==> #[trigger] r[e] == shares_or_zero(
                    *numbers,
                    ints(parts@),
                    ints(wholes@),
                )[e],
        decreases parts.len() - d,
    {
        if wholes[d] == 0 {
            r.push(crate::double::zero());
        } else {
            r.push(district_share(numbers, parts[d], wholes[d]));
        }
        d += 1;
    }
    assert(r@ =~= shares_or_zero(*numbers, ints(parts@), ints(wholes@)));
    r
}

/// A share is the part over the whole: nothing of a whole is zero, all of it is
/// one, a part of it lies between, and a larger part is no smaller a share.
pub proof fn shares_are_proportions<F: Fn(Op, Double, Double) -> Double>(
    numbers: Arithmetic<F>,
    part: int,
    larger: int,
    whole: int,
)
    requires
        numbers.counts(),
        numbers.orderly(),
        0 <= part <= larger <= whole <= double::WHOLE,
        0 < whole,
    ensures
        share_of(numbers, 0, whole) == double::zero(),
        share_of(numbers, whole, whole) == double::one(),
        double::zero().at_most(share_of(numbers, part, whole)),
        share_of(numbers, part, whole).at_most(share_of(numbers, larger, whole)),
        share_of(numbers, larger, whole).at_most(double::one()),
        larger < whole ==> share_of(numbers, larger, whole).below(double::one()),
{
    numbers.whole_results(0, whole);
    numbers.whole_results(0, part);
    numbers.whole_results(part, larger);
    numbers.whole_results(larger, whole);
    let w = numbers.integer(whole);
    numbers.ordered_quotients(numbers.integer(part), numbers.integer(larger), w, w);
    numbers.ordered_quotients(numbers.integer(larger), w, w, w);
}

/// The share of the same part falls as the whole grows: a share of twice the
/// whole is no larger.
pub proof fn shares_fall_with_the_whole<F: Fn(Op, Double, Double) -> Double>(
    numbers: Arithmetic<F>,
    part: int,
    whole: int,
    larger: int,
)
    requires
        numbers.counts(),
        numbers.orderly(),
        0 <= part <= double::WHOLE,
        0 < whole <= larger <= double::WHOLE,
    ensures
        share_of(numbers, part, larger).at_most(share_of(numbers, part, whole)),
        part * whole <= double::WHOLE ==> share_of(numbers, part * whole, whole) == numbers.integer(
            part,
        ),
{
    numbers.whole_results(0, part);
    numbers.whole_results(0, whole);
    numbers.whole_results(whole, larger);
    numbers.whole_results(part, whole);
    let p = numbers.integer(part);
    numbers.ordered_quotients(p, p, numbers.integer(whole), numbers.integer(larger));
}

} // verus!
