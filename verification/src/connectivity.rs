//! Connectedness of nodes through a list of edges.

use vstd::prelude::*;
use crate::graph::Edge;
use crate::graph;

verus! {

/// Whether a list of nodes walks along the edges.
pub open spec fn walk(edges: Seq<Edge>, path: Seq<int>) -> bool {
    forall|i: int|
        0 <= i < path.len() - 1 ==> graph::joined(edges, #[trigger] path[i], path[i + 1])
}

/// Whether a walk along the edges leads from one node to another.
pub open spec fn connected(edges: Seq<Edge>, u: int, v: int) -> bool {
    exists|path: Seq<int>|
        path.len() > 0 && path[0] == u && path.last() == v && #[trigger] walk(edges, path)
}

/// Whether the edges connect all nodes below `n`.
pub open spec fn all_connected(edges: Seq<Edge>, n: int) -> bool {
    forall|u: int, v: int| 0 <= u < n && 0 <= v < n ==> #[trigger] connected(edges, u, v)
}

pub proof fn connected_to_itself(edges: Seq<Edge>, u: int)
    ensures
        connected(edges, u, u),
{
    assert(walk(edges, seq![u]));
}

pub proof fn joined_is_connected(edges: Seq<Edge>, u: int, v: int)
    requires
        graph::joined(edges, u, v),
    ensures
        connected(edges, u, v),
{
    let path = seq![u, v];
    assert(path.last() == v);
    assert(walk(edges, path));
}

pub proof fn connected_both_ways(edges: Seq<Edge>, u: int, v: int)
    requires
        connected(edges, u, v),
    ensures
        connected(edges, v, u),
{
    let path = choose|path: Seq<int>|
        path.len() > 0 && path[0] == u && path.last() == v && #[trigger] walk(edges, path);
    let back = path.reverse();
    assert forall|i: int| 0 <= i < back.len() - 1 implies graph::joined(
        edges,
        #[trigger] back[i],
        back[i + 1],
    ) by {
        let j = path.len() - 2 - i;
        assert(graph::joined(edges, path[j], path[j + 1]));
        let e = choose|e: int|
            0 <= e < edges.len() && (((#[trigger] edges[e]).0 == path[j] && edges[e].1 == path[j
                + 1]) || (edges[e].0 == path[j + 1] && edges[e].1 == path[j]));
        assert(edges[e].0 == edges[e].0);
    }
    assert(back[0] == v && back.last() == u);
    assert(walk(edges, back));
}

pub proof fn connected_in_turn(edges: Seq<Edge>, u: int, v: int, w: int)
    requires
        connected(edges, u, v),
        connected(edges, v, w),
    ensures
        connected(edges, u, w),
{
    let p = choose|path: Seq<int>|
        path.len() > 0 && path[0] == u && path.last() == v && #[trigger] walk(edges, path);
    let q = choose|path: Seq<int>|
        path.len() > 0 && path[0] == v && path.last() == w && #[trigger] walk(edges, path);
    let r = p.drop_last() + q;
    assert forall|i: int| 0 <= i < r.len() - 1 implies graph::joined(edges, #[trigger] r[i], r[i + 1]) by {
        if i + 1 < p.len() {
            assert(graph::joined(edges, p[i], p[i + 1]));
        } else {
            let j = i - (p.len() - 1);
            assert(graph::joined(edges, q[j], q[j + 1]));
        }
    }
    assert(r[0] == u);
    assert(r.last() == w);
    assert(walk(edges, r));
}

/// What is connected stays connected through more edges.
pub proof fn connected_through_more(small: Seq<Edge>, large: Seq<Edge>, u: int, v: int)
    requires
        connected(small, u, v),
        forall|x: int, y: int| #[trigger] graph::joined(small, x, y) ==> connected(large, x, y),
    ensures
        connected(large, u, v),
{
    let p = choose|path: Seq<int>|
        path.len() > 0 && path[0] == u && path.last() == v && #[trigger] walk(small, path);
    walk_is_connected(small, large, p);
}

proof fn walk_is_connected(small: Seq<Edge>, large: Seq<Edge>, p: Seq<int>)
    requires
        p.len() > 0,
        walk(small, p),
        forall|x: int, y: int| #[trigger] graph::joined(small, x, y) ==> connected(large, x, y),
    ensures
        connected(large, p[0], p.last()),
    decreases p.len(),
{
    if p.len() == 1 {
        connected_to_itself(large, p[0]);
    } else {
        let q = p.drop_last();
        assert forall|i: int| 0 <= i < q.len() - 1 implies graph::joined(
            small,
            #[trigger] q[i],
            q[i + 1],
        ) by {
            assert(graph::joined(small, p[i], p[i + 1]));
        }
        walk_is_connected(small, large, q);
        let k = p.len() - 2;
        assert(graph::joined(small, p[k], p[k + 1]));
        connected_in_turn(large, p[0], p[k], p.last());
    }
}

/// How one more edge connects nodes.
pub open spec fn bridged(edges: Seq<Edge>, e: Edge, u: int, v: int) -> bool {
    ||| connected(edges, u, v)
    ||| connected(edges, u, e.0 as int) && connected(edges, e.1 as int, v)
    ||| connected(edges, u, e.1 as int) && connected(edges, e.0 as int, v)
}

pub proof fn connected_with_one_more(edges: Seq<Edge>, e: Edge, u: int, v: int)
    ensures
        connected(edges.push(e), u, v) <==> bridged(edges, e, u, v),
{
    let more = edges.push(e);
    assert forall|x: int, y: int| #[trigger] graph::joined(edges, x, y) implies connected(
        more,
        x,
        y,
    ) by {
        let k = choose|k: int|
            0 <= k < edges.len() && (((#[trigger] edges[k]).0 == x && edges[k].1 == y) || (
            edges[k].0 == y && edges[k].1 == x));
        assert(more[k] == edges[k]);
        joined_is_connected(more, x, y);
    }
    assert(more[edges.len() as int] == e);
    assert(graph::joined(more, e.0 as int, e.1 as int));
    assert(graph::joined(more, e.1 as int, e.0 as int));
    joined_is_connected(more, e.0 as int, e.1 as int);
    joined_is_connected(more, e.1 as int, e.0 as int);
    if bridged(edges, e, u, v) {
        if connected(edges, u, v) {
            connected_through_more(edges, more, u, v);
        } else if connected(edges, u, e.0 as int) && connected(edges, e.1 as int, v) {
            connected_through_more(edges, more, u, e.0 as int);
            connected_through_more(edges, more, e.1 as int, v);
            connected_in_turn(more, u, e.0 as int, e.1 as int);
            connected_in_turn(more, u, e.1 as int, v);
        } else {
            connected_through_more(edges, more, u, e.1 as int);
            connected_through_more(edges, more, e.0 as int, v);
            connected_in_turn(more, u, e.1 as int, e.0 as int);
            connected_in_turn(more, u, e.0 as int, v);
        }
    }
    if connected(more, u, v) {
        let p = choose|path: Seq<int>|
            path.len() > 0 && path[0] == u && path.last() == v && #[trigger] walk(more, path);
        walk_is_bridged(edges, e, p);
    }
}

proof fn walk_is_bridged(edges: Seq<Edge>, e: Edge, p: Seq<int>)
    requires
        p.len() > 0,
        walk(edges.push(e), p),
    ensures
        bridged(edges, e, p[0], p.last()),
    decreases p.len(),
{
    let more = edges.push(e);
    let a = e.0 as int;
    let b = e.1 as int;
    connected_to_itself(edges, p[0]);
    connected_to_itself(edges, a);
    connected_to_itself(edges, b);
    if p.len() > 1 {
        let q = p.drop_last();
        assert forall|i: int| 0 <= i < q.len() - 1 implies graph::joined(
            more,
            #[trigger] q[i],
            q[i + 1],
        ) by {
            assert(graph::joined(more, p[i], p[i + 1]));
        }
        walk_is_bridged(edges, e, q);
        let k = p.len() - 2;
        let x = p[k];
        let y = p[k + 1];
        let u = p[0];
        assert(graph::joined(more, x, y));
        let f = choose|f: int|
            0 <= f < more.len() && (((#[trigger] more[f]).0 == x && more[f].1 == y) || (more[f].0
                == y && more[f].1 == x));
        if f < edges.len() {
            assert(edges[f] == more[f]);
            assert(graph::joined(edges, x, y));
            joined_is_connected(edges, x, y);
            if connected(edges, u, x) {
                connected_in_turn(edges, u, x, y);
            } else if connected(edges, u, a) && connected(edges, b, x) {
                connected_in_turn(edges, b, x, y);
            } else {
                connected_in_turn(edges, a, x, y);
            }
        } else {
            assert((x == a && y == b) || (x == b && y == a));
            if connected(edges, u, x) {
            } else if connected(edges, u, a) && connected(edges, b, x) {
                if y == a {
                } else {
                    assert(connected(edges, b, a));
                    connected_both_ways(edges, b, a);
                    connected_in_turn(edges, u, a, b);
                }
            } else {
                if y == b {
                } else {
                    assert(connected(edges, a, b));
                    connected_both_ways(edges, a, b);
                    connected_in_turn(edges, u, b, a);
                }
            }
        }
    }
}

/// The edges of a list that join parts which the taken ones before them leave
/// apart.
pub open spec fn taken(order: Seq<Edge>, k: int) -> Seq<Edge>
    decreases k,
{
    if k <= 0 {
        Seq::empty()
    } else {
        let before = taken(order, k - 1);
        if connected(before, order[k - 1].0 as int, order[k - 1].1 as int) {
            before
        } else {
            before.push(order[k - 1])
        }
    }
}

/// The taken edges connect what the list connects.
pub proof fn taken_connects_alike(order: Seq<Edge>, k: int, u: int, v: int)
    requires
        0 <= k <= order.len(),
    ensures
        connected(taken(order, k), u, v) <==> connected(order.take(k), u, v),
    decreases k,
{
    if k == 0 {
        assert(order.take(0) =~= taken(order, 0));
    } else {
        let t = taken(order, k - 1);
        let all = order.take(k - 1);
        let e = order[k - 1];
        let a = e.0 as int;
        let b = e.1 as int;
        assert(order.take(k) =~= all.push(e));
        connected_with_one_more(t, e, u, v);
        connected_with_one_more(all, e, u, v);
        taken_connects_alike(order, k - 1, u, v);
        taken_connects_alike(order, k - 1, u, a);
        taken_connects_alike(order, k - 1, u, b);
        taken_connects_alike(order, k - 1, a, v);
        taken_connects_alike(order, k - 1, b, v);
        if connected(t, a, b) {
            taken_connects_alike(order, k - 1, a, b);
            connected_both_ways(t, a, b);
            if bridged(t, e, u, v) {
                if connected(t, u, a) && connected(t, b, v) {
                    connected_in_turn(t, u, a, b);
                    connected_in_turn(t, u, b, v);
                } else if connected(t, u, b) && connected(t, a, v) {
                    connected_in_turn(t, u, b, a);
                    connected_in_turn(t, u, a, v);
                }
            }
        }
    }
}

/// Whether no earlier position has the same label.
pub open spec fn leads(labels: Seq<int>, i: int) -> bool {
    forall|j: int| 0 <= j < i ==> #[trigger] labels[j] != labels[i]
}

/// The number of labels that occur among the first `k`.
pub open spec fn leaders(labels: Seq<int>, k: int) -> int
    decreases k,
{
    if k <= 0 {
        0
    } else {
        leaders(labels, k - 1) + (if leads(labels, k - 1) {
            1int
        } else {
            0
        })
    }
}

/// Labels after two classes were merged.
pub open spec fn merged(before: Seq<int>, after: Seq<int>, x: int, y: int) -> bool {
    &&& after.len() == before.len()
    &&& forall|i: int, j: int|
        #![trigger after[i], after[j]]
        0 <= i < before.len() && 0 <= j < before.len() ==> (after[i] == after[j] <==> {
            ||| before[i] == before[j]
            ||| before[i] == before[x] && before[j] == before[y]
            ||| before[i] == before[y] && before[j] == before[x]
        })
}

proof fn first_with_label(labels: Seq<int>, x: int) -> (m: int)
    requires
        0 <= x < labels.len(),
    ensures
        0 <= m <= x,
        labels[m] == labels[x],
        leads(labels, m),
    decreases x,
{
    if leads(labels, x) {
        x
    } else {
        let j = choose|j: int| 0 <= j < x && labels[j] == labels[x];
        first_with_label(labels, j)
    }
}

/// Merging two classes leaves one label fewer.
pub proof fn merging_loses_one_leader(before: Seq<int>, after: Seq<int>, x: int, y: int)
    requires
        0 <= x < before.len(),
        0 <= y < before.len(),
        before[x] != before[y],
        merged(before, after, x, y),
    ensures
        leaders(after, after.len() as int) == leaders(before, before.len() as int) - 1,
{
    let p = first_with_label(before, x);
    let q = first_with_label(before, y);
    let (low, high) = if p < q {
        (p, q)
    } else {
        (q, p)
    };
    leaders_differ_at(before, after, x, y, low, high, before.len() as int);
}

proof fn leaders_differ_at(
    before: Seq<int>,
    after: Seq<int>,
    x: int,
    y: int,
    low: int,
    high: int,
    k: int,
)
    requires
        0 <= x < before.len(),
        0 <= y < before.len(),
        before[x] != before[y],
        merged(before, after, x, y),
        0 <= low < high < before.len(),
        leads(before, low),
        leads(before, high),
        (before[low] == before[x] && before[high] == before[y]) || (before[low] == before[y]
            && before[high] == before[x]),
        0 <= k <= before.len(),
    ensures
        leaders(after, k) == leaders(before, k) - (if k > high {
            1int
        } else {
            0
        }),
    decreases k,
{
    if k > 0 {
        leaders_differ_at(before, after, x, y, low, high, k - 1);
        let i = k - 1;
        if i == high {
            assert(after[low] == after[high]);
            assert(!leads(after, high));
        } else {
            if leads(before, i) && !leads(after, i) {
                let j = choose|j: int| 0 <= j < i && after[j] == after[i];
                assert(after[j] == after[i]);
                assert(before[j] != before[i]);
                if before[i] == before[high] {
                    if i < high {
                        assert(before[i] != before[high]);
                    } else {
                        assert(before[high] != before[i]);
                    }
                }
                assert(before[i] == before[low]);
                if i < low {
                    assert(before[i] != before[low]);
                } else if i > low {
                    assert(before[low] != before[i]);
                }
                assert(i == low);
                assert(before[j] == before[high]);
                assert(before[j] != before[high]);
            }
            if !leads(before, i) {
                let j = choose|j: int| 0 <= j < i && before[j] == before[i];
                assert(after[j] == after[i]);
            }
        }
    }
}

/// Labels that all differ lead at every position.
pub proof fn distinct_labels_all_lead(labels: Seq<int>, k: int)
    requires
        0 <= k <= labels.len(),
        forall|i: int, j: int| 0 <= i < j < labels.len() ==> labels[i] != labels[j],
    ensures
        leaders(labels, k) == k,
    decreases k,
{
    if k > 0 {
        distinct_labels_all_lead(labels, k - 1);
        assert(leads(labels, k - 1));
    }
}

/// The number of labels is one exactly where all labels agree.
pub proof fn one_leader_means_one_label(labels: Seq<int>, k: int)
    requires
        0 < k <= labels.len(),
    ensures
        leaders(labels, k) >= 1,
        leaders(labels, k) == 1 <==> forall|i: int| 0 <= i < k ==> #[trigger] labels[i] == labels[0],
    decreases k,
{
    if k == 1 {
        assert(leads(labels, 0));
        assert(leaders(labels, 0) == 0);
    } else {
        one_leader_means_one_label(labels, k - 1);
        if leaders(labels, k - 1) == 1 {
            if leads(labels, k - 1) {
                assert(labels[0] != labels[k - 1]);
            } else {
                let j = choose|j: int| 0 <= j < k - 1 && #[trigger] labels[j] == labels[k - 1];
                assert(labels[j] == labels[0]);
            }
        }
    }
}

} // verus!
