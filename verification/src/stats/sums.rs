//! Sums of node attributes over districts.

use vstd::prelude::*;
use crate::columns::Columns;
use crate::graph::Graph;
use crate::partition::Partition;
use crate::{graph, text};

verus! {

/// The values of the listed nodes added up.
pub open spec fn node_total(values: Seq<i32>, nodes: Seq<usize>) -> int
    decreases nodes.len(),
{
    if nodes.len() == 0 {
        0
    } else {
        node_total(values, nodes.drop_last()) + values[nodes.last() as int]
    }
}

/// The values of each district's nodes added up.
pub open spec fn district_totals(values: Seq<i32>, districts: Seq<Seq<usize>>) -> Seq<int> {
    Seq::new(districts.len(), |d: int| node_total(values, districts[d]))
}

/// Whether every listed node has a value, and sums fit in 64 bits.
pub open spec fn nodes_within(nodes: Seq<usize>, len: nat) -> bool {
    &&& nodes.len() <= u32::MAX
    &&& forall|i: int| 0 <= i < nodes.len() ==> (#[trigger] nodes[i]) < len
}

/// A sum is bounded by the number of nodes.
pub proof fn node_total_bounds(values: Seq<i32>, nodes: Seq<usize>)
    requires
        nodes_within(nodes, values.len()),
    ensures
        -0x8000_0000 * nodes.len() <= node_total(values, nodes) <= 0x8000_0000 * nodes.len(),
    decreases nodes.len(),
{
    if nodes.len() > 0 {
        let init = nodes.drop_last();
        assert forall|i: int| 0 <= i < init.len() implies (#[trigger] init[i]) < values.len() by {
            assert(init[i] == nodes[i]);
        }
        node_total_bounds(values, init);
    }
}

/// Adds up the values of the listed nodes.
pub fn sum_over(values: &Vec<i32>, nodes: &Vec<usize>) -> (r: i64)
    requires
        nodes_within(nodes@, values@.len()),
    ensures
        r == node_total(values@, nodes@),
        -0x8000_0000_0000_0000 < r < 0x8000_0000_0000_0000,
{
    let mut acc: i64 = 0;
    let mut i: usize = 0;
    while i < nodes.len()
        invariant
            i <= nodes.len(),
            nodes_within(nodes@, values@.len()),
            acc == node_total(values@, nodes@.take(i as int)),
            -0x8000_0000 * i <= acc <= 0x8000_0000 * i,
        decreases nodes.len() - i,
    {
        assert(nodes@.take(i + 1).drop_last() =~= nodes@.take(i as int));
        acc = acc + values[nodes[i]] as i64;
        i += 1;
    }
    assert(nodes@.take(i as int) =~= nodes@);
    acc
}

/// The districts' nodes all have values.
pub open spec fn districts_within(districts: Seq<Seq<usize>>, len: nat) -> bool {
    forall|d: int| 0 <= d < districts.len() ==> nodes_within(#[trigger] districts[d], len)
}

/// A list without duplicates of indices below `n` has at most `n` of them.
pub proof fn distinct_indices_are_few(nodes: Seq<usize>, n: nat)
    requires
        nodes.no_duplicates(),
        forall|i: int| 0 <= i < nodes.len() ==> (#[trigger] nodes[i]) < n,
    ensures
        nodes.len() <= n,
{
    let ints = nodes.map_values(|x: usize| x as int);
    let all = vstd::set_lib::set_int_range(0, n as int);
    vstd::set_lib::lemma_int_range(0, n as int);
    assert(ints.no_duplicates());
    ints.unique_seq_to_set();
    assert forall|x: int| ints.to_set().contains(x) implies all.contains(x) by {
        let i = choose|i: int| 0 <= i < ints.len() && ints[i] == x;
        assert(nodes[i] < n);
    }
    vstd::set_lib::lemma_len_subset(ints.to_set(), all);
}

/// The districts of a valid plan have values where every node has one.
pub proof fn valid_districts_are_within(plan: crate::partition::Plan, len: nat)
    requires
        plan.valid(),
        plan.assignments.len() <= len,
        plan.assignments.len() <= u32::MAX,
    ensures
        districts_within(plan.dist_nodes, len),
{
    assert forall|d: int| 0 <= d < plan.dist_nodes.len() implies nodes_within(
        #[trigger] plan.dist_nodes[d],
        len,
    ) by {
        let nodes = plan.dist_nodes[d];
        assert forall|i: int| 0 <= i < nodes.len() implies (#[trigger] nodes[i])
            < plan.assignments.len() by {
            assert(nodes.contains(nodes[i]));
        }
        distinct_indices_are_few(nodes, plan.assignments.len());
    }
}

/// Adds up the values of each district's nodes.
pub fn district_sums(values: &Vec<i32>, districts: &Vec<Vec<usize>>) -> (r: Vec<i64>)
    requires
        districts_within(crate::vectors::nested(districts@), values@.len()),
    ensures
        r.len() == districts.len(),
        forall|d: int|
            0 <= d < r.len() ==> (#[trigger] r[d]) == node_total(values@, districts[d]@),
{
    let mut r: Vec<i64> = Vec::new();
    let mut d: usize = 0;
    while d < districts.len()
        invariant
            d <= districts.len(),
            r.len() == d,
            districts_within(crate::vectors::nested(districts@), values@.len()),
            forall|e: int| 0 <= e < d ==> (#[trigger] r[e]) == node_total(values@, districts[e]@),
        decreases districts.len() - d,
    {
        assert(crate::vectors::nested(districts@)[d as int] == districts[d as int]@);
        r.push(sum_over(values, &districts[d]));
        d += 1;
    }
    r
}

/// Reads a column of integers.
pub fn read_column(texts: &Vec<String>) -> (r: Option<Vec<i32>>)
    ensures
        match r {
            Some(v) => v@ == graph::column_integers(texts@) && forall|i: int|
                0 <= i < texts.len() ==> text::parse_integer((#[trigger] texts[i])@) is Some,
            None => exists|i: int|
                0 <= i < texts.len() && text::parse_integer((#[trigger] texts[i])@) is None,
        },
{
    let mut r: Vec<i32> = Vec::new();
    let mut i: usize = 0;
    while i < texts.len()
        invariant
            i <= texts.len(),
            r.len() == i,
            forall|j: int| 0 <= j < i ==> text::parse_integer((#[trigger] texts[j])@) is Some,
            forall|j: int|
                0 <= j < i ==> (#[trigger] r[j]) == text::parse_integer(texts[j]@).unwrap(),
        decreases texts.len() - i,
    {
        match text::read_integer(texts[i].as_str()) {
            Some(v) => {
                r.push(v);
            },
            None => {
                return None;
            },
        }
        i += 1;
    }
    assert(r@ =~= graph::column_integers(texts@));
    Some(r)
}

/// A node counts once wherever it is listed: a sum over two lists is the sum of
/// their sums, and a sum over one node is its value.
pub proof fn sums_take_each_node_once(values: Seq<i32>, a: Seq<usize>, b: Seq<usize>, v: usize)
    ensures
        node_total(values, a + b) == node_total(values, a) + node_total(values, b),
        node_total(values, seq![v]) == values[v as int],
        node_total(values, Seq::<usize>::empty()) == 0,
    decreases b.len(),
{
    assert(seq![v].drop_last() =~= Seq::<usize>::empty());
    assert(node_total(values, seq![v].drop_last()) == 0);
    if b.len() == 0 {
        assert(a + b =~= a);
    } else {
        assert((a + b).drop_last() =~= a + b.drop_last());
        sums_take_each_node_once(values, a, b.drop_last(), v);
    }
}

/// The sum over a district is its place among the district sums.
pub proof fn district_sums_are_in_place(
    values: Seq<i32>,
    districts: Seq<Seq<usize>>,
    d: int,
    a: Seq<usize>,
    v: usize,
)
    requires
        0 <= d < districts.len(),
        districts[d] == a.push(v),
    ensures
        district_totals(values, districts).len() == districts.len(),
        district_totals(values, districts)[d] == node_total(values, a) + values[v as int],
{
    assert(a.push(v).drop_last() =~= a);
}

} // verus!
