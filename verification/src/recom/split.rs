//! Cuts of a spanning tree into two parts of balanced population.

use rand::rngs::SmallRng;
use vstd::prelude::*;
use crate::graph::{Edge, Graph};
use crate::random::Pick;
use crate::recom::merge::SubgraphBuffer;
use crate::recom::proposal::RecomProposal;
use crate::spanning_tree::SpanningTreeBuffer;
use crate::{connectivity, graph, random, recom, spanning_tree, vectors};

verus! {

/// The nodes of a tree in an order in which each but the first comes behind
/// its parent, and the place of each node's parent.
pub struct Rooted {
    pub order: Vec<usize>,
    pub parent: Vec<usize>,
}

/// Whether the places of parents come before those of their children.
pub open spec fn parents_first(parent: Seq<usize>) -> bool {
    forall|k: int| 0 < k < parent.len() ==> (#[trigger] parent[k]) < k
}

impl Rooted {
    /// The order lists each node below `n` once, and every node but the first
    /// is a tree neighbor of its parent.
    pub open spec fn roots(&self, st: Seq<Vec<usize>>, n: nat) -> bool {
        &&& self.order.len() == n
        &&& self.parent.len() == n
        &&& self.order@.no_duplicates()
        &&& forall|k: int| 0 <= k < n ==> (#[trigger] self.order[k]) < n
        &&& parents_first(self.parent@)
        &&& forall|k: int|
            0 < k < n ==> st[self.order[self.parent[k] as int] as int]@.contains(
                #[trigger] self.order[k],
            )
    }
}

/// Whether a list of nodes moves along neighbor lists.
pub open spec fn follows(lists: Seq<Vec<usize>>, path: Seq<usize>) -> bool {
    forall|i: int|
        0 <= i < path.len() - 1 ==> lists[(#[trigger] path[i]) as int]@.contains(path[i + 1])
}

/// Whether moves along neighbor lists lead from node 0 to a node.
pub open spec fn reached(lists: Seq<Vec<usize>>, v: usize) -> bool {
    exists|path: Seq<usize>|
        path.len() > 0 && path[0] == 0 && path.last() == v && #[trigger] follows(lists, path)
}

/// Whether moves along neighbor lists lead from node 0 to every node below `n`.
pub open spec fn reaches_all(lists: Seq<Vec<usize>>, n: nat) -> bool {
    forall|v: usize| v < n ==> #[trigger] reached(lists, v)
}

proof fn path_stays_listed(lists: Seq<Vec<usize>>, order: Seq<usize>, path: Seq<usize>, k: int)
    requires
        order.len() > 0,
        order[0] == 0,
        forall|i: int, w: usize|
            0 <= i < order.len() && #[trigger] lists[order[i] as int]@.contains(w)
                ==> order.contains(w),
        path.len() > 0,
        path[0] == 0,
        follows(lists, path),
        0 <= k < path.len(),
    ensures
        order.contains(path[k]),
    decreases k,
{
    if k == 0 {
        assert(order.contains(order[0]));
    } else {
        path_stays_listed(lists, order, path, k - 1);
        let i = choose|i: int| 0 <= i < order.len() && order[i] == path[k - 1];
        assert(lists[path[k - 1] as int]@.contains(path[k - 1 + 1]));
        assert(lists[order[i] as int]@.contains(path[k]));
    }
}

proof fn listed_is_reached(lists: Seq<Vec<usize>>, order: Seq<usize>, parent: Seq<usize>, k: int)
    requires
        0 <= k < order.len() == parent.len(),
        order[0] == 0,
        parents_first(parent),
        forall|j: int|
            0 < j < order.len() ==> lists[order[parent[j] as int] as int]@.contains(
                #[trigger] order[j],
            ),
    ensures
        reached(lists, order[k]),
    decreases k,
{
    if k == 0 {
        let path = seq![0usize];
        assert(follows(lists, path));
        assert(path.last() == order[0]);
    } else {
        let p = parent[k] as int;
        assert(p < k);
        listed_is_reached(lists, order, parent, p);
        let path = choose|path: Seq<usize>|
            path.len() > 0 && path[0] == 0 && path.last() == order[p] && #[trigger] follows(
                lists,
                path,
            );
        let longer = path.push(order[k]);
        assert forall|i: int| 0 <= i < longer.len() - 1 implies lists[(
        #[trigger] longer[i]) as int]@.contains(longer[i + 1]) by {
            if i < path.len() - 1 {
                assert(longer[i] == path[i] && longer[i + 1] == path[i + 1]);
                assert(lists[path[i] as int]@.contains(path[i + 1]));
            } else {
                assert(longer[i] == order[p]);
                assert(lists[order[parent[k] as int] as int]@.contains(order[k]));
            }
        }
        assert(longer.last() == order[k]);
        assert(follows(lists, longer));
    }
}

/// Lists the nodes of a graph or tree from node 0 outward, if its neighbor
/// lists lead to all of them.
pub fn root_tree(lists: &Vec<Vec<usize>>, n: usize) -> (r: Option<Rooted>)
    requires
        lists.len() >= n,
        n > 0,
        forall|v: int, w: usize| 0 <= v < n && #[trigger] lists[v]@.contains(w) ==> w < n,
    ensures
        r matches Some(t) ==> t.roots(lists@, n as nat),
        r is Some <==> reaches_all(lists@, n as nat),
{
    let mut order: Vec<usize> = Vec::new();
    let mut parent: Vec<usize> = Vec::new();
    let mut seen: Vec<bool> = Vec::new();
    let mut v: usize = 0;
    while v < n
        invariant
            v <= n,
            seen.len() == v,
            forall|u: int| 0 <= u < v ==> !(#[trigger] seen[u]),
        decreases n - v,
    {
        seen.push(false);
        v += 1;
    }
    order.push(0);
    parent.push(0);
    seen.set(0, true);
    let mut head: usize = 0;
    proof {
        assert(order@[0] == 0);
        assert forall|w: usize| w < n implies (#[trigger] seen[w as int] <==> order@.contains(
            w,
        )) by {}
    }
    while head < order.len()
        invariant
            head <= order.len(),
            0 < order.len() <= n,
            order[0] == 0,
            parent.len() == order.len(),
            seen.len() == n,
            lists.len() >= n,
            forall|v: int, w: usize| 0 <= v < n && #[trigger] lists[v]@.contains(w) ==> w < n,
            order@.no_duplicates(),
            forall|k: int| 0 <= k < order.len() ==> (#[trigger] order[k]) < n,
            forall|w: usize| w < n ==> (#[trigger] seen[w as int] <==> order@.contains(w)),
            parents_first(parent@),
            forall|k: int|
                0 < k < order.len() ==> lists[order[parent[k] as int] as int]@.contains(
                    #[trigger] order[k],
                ),
            forall|k: int, w: usize|
                0 <= k < head && #[trigger] lists[order[k] as int]@.contains(w) ==> order@.contains(
                    w,
                ),
        decreases n - head,
    {
        let u: usize = order[head];
        let mut k: usize = 0;
        while k < lists[u].len()
            invariant
                head < order.len(),
                u == order[head as int],
                u < n,
                k <= lists[u as int].len(),
                0 < order.len() <= n,
                order[0] == 0,
                parent.len() == order.len(),
                seen.len() == n,
                lists.len() >= n,
                forall|v: int, w: usize| 0 <= v < n && #[trigger] lists[v]@.contains(w) ==> w < n,
                order@.no_duplicates(),
                forall|k: int| 0 <= k < order.len() ==> (#[trigger] order[k]) < n,
                forall|w: usize| w < n ==> (#[trigger] seen[w as int] <==> order@.contains(w)),
                parents_first(parent@),
                forall|k: int|
                    0 < k < order.len() ==> lists[order[parent[k] as int] as int]@.contains(
                        #[trigger] order[k],
                    ),
                forall|k: int, w: usize|
                    0 <= k < head && #[trigger] lists[order[k] as int]@.contains(w)
                        ==> order@.contains(w),
                forall|j: int| 0 <= j < k ==> order@.contains(#[trigger] lists[u as int][j]),
            decreases lists[u as int].len() - k,
        {
            let w: usize = lists[u][k];
            assert(lists[u as int]@.contains(w));
            if !seen[w] {
                let ghost before = order@;
                let ghost before_parent = parent@;
                seen.set(w, true);
                order.push(w);
                parent.push(head);
                proof {
                    assert forall|x: usize| before.contains(x) implies order@.contains(x) by {
                        vectors::contains_pushed(before, w, x);
                    }
                    assert forall|x: usize| x < n implies (#[trigger] seen[x as int]
                        <==> order@.contains(x)) by {
                        vectors::contains_pushed(before, w, x);
                    }
                    fresh_keeps_distinct(before, w);
                    crate::stats::sums::distinct_indices_are_few(order@, n as nat);
                    assert forall|j: int| 0 < j < order.len() implies lists[order[
                    parent[j] as int] as int]@.contains(#[trigger] order[j]) by {
                        if j < before.len() {
                            assert(order@[j] == before[j]);
                            assert(parent@[j] == before_parent[j]);
                            assert(before_parent[j] < j);
                        }
                    }
                    assert forall|j: int, x: usize|
                        0 <= j < head && #[trigger] lists[order[j] as int]@.contains(
                            x,
                        ) implies order@.contains(x) by {
                        assert(order@[j] == before[j]);
                        assert(lists[before[j] as int]@.contains(x));
                        assert(before.contains(x));
                    }
                    assert(order@[before.len() as int] == w);
                }
            }
            assert(order@.contains(w));
            k += 1;
        }
        proof {
            assert forall|j: int, w: usize|
                0 <= j < head + 1 && #[trigger] lists[order[j] as int]@.contains(
                    w,
                ) implies order@.contains(w) by {
                if j == head {
                    let i = choose|i: int|
                        0 <= i < lists[u as int].len() && lists[u as int][i] == w;
                    assert(order@.contains(lists[u as int][i]));
                }
            }
        }
        head += 1;
    }
    if order.len() == n {
        proof {
            assert forall|v: usize| v < n implies #[trigger] reached(lists@, v) by {
                every_place_is_listed(order@, n as nat, v);
                let k = choose|k: int| 0 <= k < n && order@[k] == v;
                listed_is_reached(lists@, order@, parent@, k);
            }
        }
        Some(Rooted { order, parent })
    } else {
        proof {
            if reaches_all(lists@, n as nat) {
                assert forall|v: usize| v < n implies order@.contains(v) by {
                    assert(reached(lists@, v));
                    let path = choose|path: Seq<usize>|
                        path.len() > 0 && path[0] == 0 && path.last() == v && #[trigger] follows(
                            lists@,
                            path,
                        );
                    path_stays_listed(lists@, order@, path, path.len() - 1);
                }
                too_few_places(order@, n as nat);
            }
        }
        None
    }
}

/// A list of fewer than `n` numbers misses one of those below `n`.
proof fn too_few_places(order: Seq<usize>, n: nat)
    requires
        order.len() < n <= usize::MAX,
    ensures
        exists|v: usize| v < n && !#[trigger] order.contains(v),
{
    if forall|v: usize| v < n ==> #[trigger] order.contains(v) {
        let ints = order.map_values(|x: usize| x as int);
        let all = vstd::set_lib::set_int_range(0, n as int);
        vstd::set_lib::lemma_int_range(0, n as int);
        assert forall|x: int| all.contains(x) implies ints.to_set().contains(x) by {
            assert(order.contains(x as usize));
            let i = choose|i: int| 0 <= i < order.len() && order[i] == x as usize;
            assert(ints[i] == x);
        }
        ints.lemma_cardinality_of_set();
        vstd::set_lib::lemma_len_subset(all, ints.to_set());
    }
}

/// The neighbor lists of a spanning tree lead to all nodes.
pub proof fn spanning_tree_reaches_all(buf: &SpanningTreeBuffer, tree: Seq<Edge>, n: nat)
    requires
        buf.holds(tree),
        buf.st.len() >= n,
        graph::edges_within(tree, n as int),
        connectivity::all_connected(tree, n as int),
        n > 0,
        n <= usize::MAX,
    ensures
        reaches_all(buf.st@, n),
        forall|v: int, w: usize|
            0 <= v < n && #[trigger] buf.st[v]@.contains(w) ==> w < n && graph::joined(
                tree,
                v,
                w as int,
            ),
{
    assert forall|v: int, w: usize| 0 <= v < n && #[trigger] buf.st[v]@.contains(w) implies w < n
        && graph::joined(tree, v, w as int) by {
        neighbors_are_joined(tree, v, w);
        let e = choose|e: int|
            0 <= e < tree.len() && (((#[trigger] tree[e]).0 == v && tree[e].1 == w) || (tree[e].0
                == w && tree[e].1 == v));
        assert(tree[e].0 < tree[e].1 < n);
    }
    assert forall|v: usize| v < n implies #[trigger] reached(buf.st@, v) by {
        assert(connectivity::connected(tree, 0, v as int));
        let path = choose|path: Seq<int>|
            path.len() > 0 && path[0] == 0 && path.last() == v && #[trigger] connectivity::walk(
                tree,
                path,
            );
        walk_is_followed(buf, tree, n, path, path.len() - 1);
    }
}

proof fn walk_is_followed(
    buf: &SpanningTreeBuffer,
    tree: Seq<Edge>,
    n: nat,
    path: Seq<int>,
    k: int,
)
    requires
        buf.holds(tree),
        buf.st.len() >= n,
        graph::edges_within(tree, n as int),
        connectivity::walk(tree, path),
        path.len() > 0,
        path[0] == 0,
        0 < n <= usize::MAX,
        0 <= k < path.len(),
    ensures
        0 <= path[k] < n,
        reached(buf.st@, path[k] as usize),
    decreases k,
{
    if k == 0 {
        let start = seq![0usize];
        assert(follows(buf.st@, start));
        assert(start.last() == 0usize);
    } else {
        walk_is_followed(buf, tree, n, path, k - 1);
        assert(graph::joined(tree, path[k - 1], path[k - 1 + 1]));
        let e = choose|e: int|
            0 <= e < tree.len() && (((#[trigger] tree[e]).0 == path[k - 1] && tree[e].1 == path[k])
                || (tree[e].0 == path[k] && tree[e].1 == path[k - 1]));
        assert(tree[e].0 < tree[e].1 < n);
        joined_are_neighbors(tree, e);
        let u = path[k - 1] as usize;
        let v = path[k] as usize;
        assert(buf.st[u as int]@ == tree_neighbors_of(tree, u as int));
        let before = choose|p: Seq<usize>|
            p.len() > 0 && p[0] == 0 && p.last() == u && #[trigger] follows(buf.st@, p);
        let longer = before.push(v);
        assert forall|i: int| 0 <= i < longer.len() - 1 implies buf.st[(
        #[trigger] longer[i]) as int]@.contains(longer[i + 1]) by {
            if i < before.len() - 1 {
                assert(longer[i] == before[i] && longer[i + 1] == before[i + 1]);
                assert(buf.st@[before[i] as int]@.contains(before[i + 1]));
            } else {
                assert(longer[i] == u);
            }
        }
        assert(longer.last() == v);
        assert(follows(buf.st@, longer));
    }
}

spec fn tree_neighbors_of(tree: Seq<Edge>, v: int) -> Seq<usize> {
    spanning_tree::tree_neighbors(tree, v)
}

proof fn neighbors_are_joined(tree: Seq<Edge>, v: int, w: usize)
    requires
        spanning_tree::tree_neighbors(tree, v).contains(w),
    ensures
        graph::joined(tree, v, w as int),
    decreases tree.len(),
{
    if tree.len() > 0 {
        let init = tree.drop_last();
        let e = tree.last();
        let before = spanning_tree::tree_neighbors(init, v);
        vectors::contains_pushed(before, e.1, w);
        vectors::contains_pushed(before, e.0, w);
        vectors::contains_pushed(before.push(e.1), e.0, w);
        if before.contains(w) {
            neighbors_are_joined(init, v, w);
            let k = choose|k: int|
                0 <= k < init.len() && (((#[trigger] init[k]).0 == v && init[k].1 == w) || (
                init[k].0 == w && init[k].1 == v));
            assert(tree[k] == init[k]);
        } else {
            assert(tree[tree.len() - 1] == e);
        }
    }
}

proof fn joined_are_neighbors(tree: Seq<Edge>, k: int)
    requires
        0 <= k < tree.len(),
    ensures
        spanning_tree::tree_neighbors(tree, tree[k].0 as int).contains(tree[k].1),
        spanning_tree::tree_neighbors(tree, tree[k].1 as int).contains(tree[k].0),
    decreases tree.len(),
{
    let init = tree.drop_last();
    let e = tree.last();
    let x = tree[k];
    let low = spanning_tree::tree_neighbors(init, x.0 as int);
    let high = spanning_tree::tree_neighbors(init, x.1 as int);
    if k < tree.len() - 1 {
        joined_are_neighbors(init, k);
    }
    vectors::contains_pushed(low, e.1, x.1);
    vectors::contains_pushed(low, e.0, x.1);
    vectors::contains_pushed(low.push(e.1), e.0, x.1);
    vectors::contains_pushed(high, e.1, x.0);
    vectors::contains_pushed(high, e.0, x.0);
    vectors::contains_pushed(high.push(e.1), e.0, x.0);
}

/// Whether the way from place `u` toward the root leads to place `v` while it
/// only leaves places behind `i`.
pub open spec fn leads_to(parent: Seq<usize>, u: int, v: int, i: int) -> bool
    decreases u,
{
    u == v || (0 <= i < u && 0 <= parent[u] < u && leads_to(parent, parent[u] as int, v, i))
}

/// Whether place `u` lies in the part that hangs from place `v`.
pub open spec fn hangs_from(parent: Seq<usize>, u: int, v: int) -> bool {
    leads_to(parent, u, v, 0)
}

/// The weights below place `k` of the places that lead to `v`, added up.
pub open spec fn led_weight(weights: Seq<u32>, parent: Seq<usize>, v: int, i: int, k: int) -> int
    decreases k,
{
    if k <= 0 {
        0
    } else {
        led_weight(weights, parent, v, i, k - 1) + (if leads_to(parent, k - 1, v, i) {
            weights[k - 1] as int
        } else {
            0
        })
    }
}

/// The population of the part that hangs from place `v`.
pub open spec fn hanging_population(weights: Seq<u32>, parent: Seq<usize>, v: int) -> int {
    led_weight(weights, parent, v, 0, weights.len() as int)
}

proof fn leads_to_step(parent: Seq<usize>, u: int, v: int, i: int)
    requires
        parents_first(parent),
        0 < i < parent.len(),
        0 <= u < parent.len(),
    ensures
        v == parent[i] ==> (leads_to(parent, u, v, i - 1) <==> leads_to(parent, u, v, i)
            || leads_to(parent, u, i, i)),
        v == parent[i] ==> !(leads_to(parent, u, v, i) && leads_to(parent, u, i, i)),
        v != parent[i] ==> (leads_to(parent, u, v, i - 1) <==> leads_to(parent, u, v, i)),
    decreases u,
{
    assert(parent[i] < i);
    if u > i {
        assert(parent[u] < u);
        leads_to_step(parent, parent[u] as int, v, i);
    } else if u == i {
        reveal_with_fuel(leads_to, 3);
    } else {
        reveal_with_fuel(leads_to, 2);
    }
}

proof fn led_weight_step(weights: Seq<u32>, parent: Seq<usize>, v: int, i: int, k: int)
    requires
        parents_first(parent),
        weights.len() == parent.len(),
        0 < i < parent.len(),
        0 <= k <= parent.len(),
    ensures
        led_weight(weights, parent, v, i - 1, k) == led_weight(weights, parent, v, i, k) + (if v
            == parent[i] {
            led_weight(weights, parent, i, i, k)
        } else {
            0
        }),
    decreases k,
{
    if k > 0 {
        led_weight_step(weights, parent, v, i, k - 1);
        leads_to_step(parent, k - 1, v, i);
    }
}

proof fn led_weight_alone(weights: Seq<u32>, parent: Seq<usize>, v: int, k: int)
    requires
        parents_first(parent),
        weights.len() == parent.len(),
        0 <= v < parent.len(),
        0 <= k <= parent.len(),
    ensures
        led_weight(weights, parent, v, parent.len() - 1, k) == (if k > v {
            weights[v] as int
        } else {
            0
        }),
    decreases k,
{
    if k > 0 {
        led_weight_alone(weights, parent, v, k - 1);
    }
}

proof fn led_weight_bounds(weights: Seq<u32>, parent: Seq<usize>, v: int, i: int, k: int)
    requires
        0 <= k <= weights.len(),
    ensures
        0 <= led_weight(weights, parent, v, i, k) <= k * u32::MAX,
        led_weight(weights, parent, v, i, k) <= graph::population(weights.take(k)),
    decreases k,
{
    if k > 0 {
        led_weight_bounds(weights, parent, v, i, k - 1);
        assert(weights.take(k).drop_last() =~= weights.take(k - 1));
        assert(k * u32::MAX == (k - 1) * u32::MAX + u32::MAX) by (nonlinear_arith);
    }
}

/// The populations of a tree's nodes, in the tree's order.
pub open spec fn ordered_pops(pops: Seq<u32>, order: Seq<usize>) -> Seq<u32> {
    Seq::new(order.len(), |k: int| pops[order[k] as int])
}

/// Adds up the population that hangs from each place.
fn hanging_populations(weights: &Vec<u32>, parent: &Vec<usize>) -> (r: Vec<u64>)
    requires
        weights.len() == parent.len(),
        0 < weights.len() <= u32::MAX,
        parents_first(parent@),
    ensures
        r.len() == weights.len(),
        forall|v: int|
            0 <= v < r.len() ==> (#[trigger] r[v]) == hanging_population(weights@, parent@, v),
{
    let n: usize = weights.len();
    let mut r: Vec<u64> = Vec::new();
    let mut k: usize = 0;
    while k < n
        invariant
            k <= n == weights.len(),
            r.len() == k,
            forall|v: int| 0 <= v < k ==> (#[trigger] r[v]) == weights[v],
        decreases n - k,
    {
        r.push(weights[k] as u64);
        k += 1;
    }
    let mut i: usize = n - 1;
    proof {
        assert forall|v: int| 0 <= v < n implies (#[trigger] r[v]) == led_weight(
            weights@,
            parent@,
            v,
            n - 1,
            n as int,
        ) by {
            led_weight_alone(weights@, parent@, v, n as int);
        }
    }
    while i > 0
        invariant
            i < n,
            n == weights.len() == parent.len(),
            0 < n <= u32::MAX,
            r.len() == n,
            parents_first(parent@),
            forall|v: int|
                0 <= v < n ==> (#[trigger] r[v]) == led_weight(
                    weights@,
                    parent@,
                    v,
                    i as int,
                    n as int,
                ),
        decreases i,
    {
        let p: usize = parent[i];
        proof {
            assert(parent@[i as int] < i);
            assert forall|v: int| 0 <= v < n implies led_weight(
                weights@,
                parent@,
                v,
                i - 1,
                n as int,
            ) == led_weight(weights@, parent@, v, i as int, n as int) + (if v == p {
                led_weight(weights@, parent@, i as int, i as int, n as int)
            } else {
                0
            }) by {
                led_weight_step(weights@, parent@, v, i as int, n as int);
            }
            led_weight_bounds(weights@, parent@, p as int, i - 1, n as int);
            assert(n * u32::MAX <= u32::MAX * u32::MAX) by (nonlinear_arith)
                requires
                    n <= u32::MAX,
            ;
        }
        let sum: u64 = r[p] + r[i];
        r.set(p, sum);
        i = i - 1;
    }
    r
}

/// Whether a part and the rest are both within the population bounds.
pub open spec fn balanced(part: int, whole: int, min_pop: int, max_pop: int) -> bool {
    min_pop <= part <= max_pop && min_pop <= whole - part <= max_pop
}

/// The places below `k`, other than the root, from which a balanced part
/// hangs.
pub open spec fn balanced_places(
    weights: Seq<u32>,
    parent: Seq<usize>,
    min_pop: int,
    max_pop: int,
    k: int,
) -> Seq<usize>
    decreases k,
{
    if k <= 1 {
        Seq::empty()
    } else {
        let before = balanced_places(weights, parent, min_pop, max_pop, k - 1);
        if balanced(
            hanging_population(weights, parent, k - 1),
            graph::population(weights),
            min_pop,
            max_pop,
        ) {
            before.push((k - 1) as usize)
        } else {
            before
        }
    }
}

proof fn balanced_places_are_balanced(
    weights: Seq<u32>,
    parent: Seq<usize>,
    min_pop: int,
    max_pop: int,
    k: int,
)
    requires
        0 <= k <= weights.len() <= usize::MAX,
    ensures
        forall|i: int|
            0 <= i < balanced_places(weights, parent, min_pop, max_pop, k).len() ==> {
                let v = #[trigger] balanced_places(weights, parent, min_pop, max_pop, k)[i];
                0 < v < k && balanced(
                    hanging_population(weights, parent, v as int),
                    graph::population(weights),
                    min_pop,
                    max_pop,
                )
            },
    decreases k,
{
    if k > 1 {
        balanced_places_are_balanced(weights, parent, min_pop, max_pop, k - 1);
        let before = balanced_places(weights, parent, min_pop, max_pop, k - 1);
        let after = balanced_places(weights, parent, min_pop, max_pop, k);
        assert forall|i: int| 0 <= i < after.len() implies {
            let v = #[trigger] after[i];
            0 < v < k && balanced(
                hanging_population(weights, parent, v as int),
                graph::population(weights),
                min_pop,
                max_pop,
            )
        } by {
            if i < before.len() {
                assert(after[i] == before[i]);
            }
        }
    }
}

/// Whether a proposal cuts the tree above place `v`: its first district takes
/// the nodes that hang from there and its second the others.
pub open spec fn cuts_at(
    sub: &SubgraphBuffer,
    tree: &Rooted,
    proposal: &RecomProposal,
    v: int,
) -> bool {
    let n = tree.order.len() as int;
    &&& forall|k: int|
        0 <= k < n ==> if hangs_from(tree.parent@, k, v) {
            proposal.a_nodes@.contains(#[trigger] sub.raw_nodes[tree.order[k] as int])
        } else {
            proposal.b_nodes@.contains(sub.raw_nodes[tree.order[k] as int])
        }
    &&& forall|x: usize| #[trigger]
        proposal.a_nodes@.contains(x) ==> exists|k: int|
            0 <= k < n && hangs_from(tree.parent@, k, v) && #[trigger] sub.raw_nodes[tree.order[k] as int]
                == x
    &&& forall|x: usize| #[trigger]
        proposal.b_nodes@.contains(x) ==> exists|k: int|
            0 <= k < n && !hangs_from(tree.parent@, k, v)
                && #[trigger] sub.raw_nodes[tree.order[k] as int] == x
    &&& proposal.a_nodes@.no_duplicates()
    &&& proposal.b_nodes@.no_duplicates()
    &&& proposal.a_pop == hanging_population(
        ordered_pops(sub.graph.pops@, tree.order@),
        tree.parent@,
        v,
    )
    &&& proposal.b_pop == graph::population(ordered_pops(sub.graph.pops@, tree.order@))
        - hanging_population(ordered_pops(sub.graph.pops@, tree.order@), tree.parent@, v)
}

/// The proposal that cuts a tree above a place.
fn cut_tree(
    sub: &SubgraphBuffer,
    tree: &Rooted,
    v: usize,
    a: usize,
    b: usize,
    st: Ghost<Seq<Vec<usize>>>,
) -> (r: RecomProposal)
    requires
        sub.graph.sound(),
        sub.raw_nodes.len() == sub.graph.order(),
        sub.raw_nodes@.no_duplicates(),
        tree.roots(st@, sub.graph.order()),
        v < sub.graph.order(),
        graph::population(ordered_pops(sub.graph.pops@, tree.order@)) <= 2 * u32::MAX,
        hanging_population(
            ordered_pops(sub.graph.pops@, tree.order@),
            tree.parent@,
            v as int,
        ) <= u32::MAX,
        graph::population(ordered_pops(sub.graph.pops@, tree.order@)) - hanging_population(
            ordered_pops(sub.graph.pops@, tree.order@),
            tree.parent@,
            v as int,
        ) <= u32::MAX,
    ensures
        r.a_label == a,
        r.b_label == b,
        cuts_at(sub, tree, &r, v as int),
{
    let n: usize = tree.order.len();
    let ghost weights = ordered_pops(sub.graph.pops@, tree.order@);
    let ghost parent = tree.parent@;
    let mut inside: Vec<bool> = Vec::new();
    let mut a_nodes: Vec<usize> = Vec::new();
    let mut b_nodes: Vec<usize> = Vec::new();
    let mut a_pop: u64 = 0;
    let mut b_pop: u64 = 0;
    let mut k: usize = 0;
    while k < n
        invariant
            k <= n,
            n == tree.order.len() == tree.parent.len() == sub.graph.order(),
            n <= u32::MAX,
            v < n,
            sub.graph.sound(),
            sub.raw_nodes.len() == n,
            sub.raw_nodes@.no_duplicates(),
            tree.roots(st@, n as nat),
            parent == tree.parent@,
            weights == ordered_pops(sub.graph.pops@, tree.order@),
            inside.len() == k,
            forall|j: int| 0 <= j < k ==> (#[trigger] inside[j] <==> hangs_from(parent, j, v as int)),
            a_pop == led_weight(weights, parent, v as int, 0, k as int),
            a_pop + b_pop == graph::population(weights.take(k as int)),
            forall|j: int|
                0 <= j < k ==> if hangs_from(parent, j, v as int) {
                    a_nodes@.contains(#[trigger] sub.raw_nodes[tree.order[j] as int])
                } else {
                    b_nodes@.contains(sub.raw_nodes[tree.order[j] as int])
                },
            forall|x: usize| #[trigger]
                a_nodes@.contains(x) ==> exists|j: int|
                    0 <= j < k && hangs_from(parent, j, v as int)
                        && #[trigger] sub.raw_nodes[tree.order[j] as int] == x,
            forall|x: usize| #[trigger]
                b_nodes@.contains(x) ==> exists|j: int|
                    0 <= j < k && !hangs_from(parent, j, v as int)
                        && #[trigger] sub.raw_nodes[tree.order[j] as int] == x,
            a_nodes@.no_duplicates(),
            b_nodes@.no_duplicates(),
        decreases n - k,
    {
        let u: usize = tree.order[k];
        assert(tree.order@[k as int] == u);
        let raw: usize = sub.raw_nodes[u];
        let hangs: bool = if k == v {
            true
        } else if k == 0 {
            false
        } else {
            let p: usize = tree.parent[k];
            assert(parent[k as int] < k);
            inside[p]
        };
        let pop: u64 = sub.graph.pops[u] as u64;
        let ghost a_before = a_nodes@;
        let ghost b_before = b_nodes@;
        proof {
            reveal_with_fuel(leads_to, 2);
            assert(hangs == hangs_from(parent, k as int, v as int));
            assert(weights[k as int] == pop);
            assert(weights.take(k + 1).drop_last() =~= weights.take(k as int));
            graph::population_bounds(weights.take(k + 1));
            assert((k + 1) * u32::MAX <= u32::MAX * u32::MAX) by (nonlinear_arith)
                requires
                    k + 1 <= u32::MAX,
            ;
            assert forall|j: int| 0 <= j < k implies sub.raw_nodes@[tree.order@[j] as int]
                != raw by {
                assert(tree.order@[j] != tree.order@[k as int]);
            }
            led_weight_bounds(weights, parent, v as int, 0, k as int);
        }
        inside.push(hangs);
        if hangs {
            a_nodes.push(raw);
            a_pop = a_pop + pop;
        } else {
            b_nodes.push(raw);
            b_pop = b_pop + pop;
        }
        k += 1;
        proof {
            assert forall|j: int| 0 <= j < k implies if hangs_from(parent, j, v as int) {
                a_nodes@.contains(#[trigger] sub.raw_nodes[tree.order[j] as int])
            } else {
                b_nodes@.contains(sub.raw_nodes[tree.order[j] as int])
            } by {
                let x = sub.raw_nodes[tree.order[j] as int];
                vectors::contains_pushed(a_before, raw, x);
                vectors::contains_pushed(b_before, raw, x);
            }
            assert forall|x: usize| #[trigger] a_nodes@.contains(x) implies exists|j: int|
                0 <= j < k && hangs_from(parent, j, v as int)
                    && #[trigger] sub.raw_nodes[tree.order[j] as int] == x by {
                vectors::contains_pushed(a_before, raw, x);
                if a_before.contains(x) {
                    let j = choose|j: int|
                        0 <= j < k - 1 && hangs_from(parent, j, v as int)
                            && #[trigger] sub.raw_nodes[tree.order[j] as int] == x;
                    assert(sub.raw_nodes[tree.order[j] as int] == x);
                } else {
                    assert(sub.raw_nodes[tree.order[k - 1] as int] == x);
                }
            }
            assert forall|x: usize| #[trigger] b_nodes@.contains(x) implies exists|j: int|
                0 <= j < k && !hangs_from(parent, j, v as int)
                    && #[trigger] sub.raw_nodes[tree.order[j] as int] == x by {
                vectors::contains_pushed(b_before, raw, x);
                if b_before.contains(x) {
                    let j = choose|j: int|
                        0 <= j < k - 1 && !hangs_from(parent, j, v as int)
                            && #[trigger] sub.raw_nodes[tree.order[j] as int] == x;
                    assert(sub.raw_nodes[tree.order[j] as int] == x);
                } else {
                    assert(sub.raw_nodes[tree.order[k - 1] as int] == x);
                }
            }
            if hangs {
                assert(!a_before.contains(raw)) by {
                    if a_before.contains(raw) {
                        let j = choose|j: int|
                            0 <= j < k - 1 && hangs_from(parent, j, v as int)
                                && #[trigger] sub.raw_nodes[tree.order[j] as int] == raw;
                        assert(sub.raw_nodes@[tree.order@[j] as int] != raw);
                    }
                }
                fresh_keeps_distinct(a_before, raw);
            } else {
                assert(!b_before.contains(raw)) by {
                    if b_before.contains(raw) {
                        let j = choose|j: int|
                            0 <= j < k - 1 && !hangs_from(parent, j, v as int)
                                && #[trigger] sub.raw_nodes[tree.order[j] as int] == raw;
                        assert(sub.raw_nodes@[tree.order@[j] as int] != raw);
                    }
                }
                fresh_keeps_distinct(b_before, raw);
            }
        }
    }
    assert(weights.take(n as int) =~= weights);
    RecomProposal {
        a_label: a,
        b_label: b,
        a_pop: a_pop as u32,
        b_pop: b_pop as u32,
        a_nodes,
        b_nodes,
    }
}

proof fn fresh_keeps_distinct(s: Seq<usize>, x: usize)
    requires
        s.no_duplicates(),
        !s.contains(x),
    ensures
        s.push(x).no_duplicates(),
{
    assert forall|i: int, j: int|
        0 <= i < s.push(x).len() && 0 <= j < s.push(x).len() && i != j implies s.push(x)[i]
        != s.push(x)[j] by {
        if i == s.len() {
            assert(s.contains(s[j]));
        } else if j == s.len() {
            assert(s.contains(s[i]));
        }
    }
}

/// What a split of a merged subgraph promises: the new districts divide its
/// nodes and both populations are within bounds.
pub open spec fn divides(
    sub: &SubgraphBuffer,
    proposal: &RecomProposal,
    min_pop: u32,
    max_pop: u32,
) -> bool {
    &&& min_pop <= proposal.a_pop <= max_pop
    &&& min_pop <= proposal.b_pop <= max_pop
    &&& proposal.a_nodes@.no_duplicates()
    &&& proposal.b_nodes@.no_duplicates()
    &&& forall|x: usize|
        {
            &&& !(#[trigger] proposal.a_nodes@.contains(x) && proposal.b_nodes@.contains(x))
            &&& proposal.a_nodes@.contains(x) || proposal.b_nodes@.contains(x)
                <==> sub.raw_nodes@.contains(x)
        }
}

proof fn cut_divides(
    sub: &SubgraphBuffer,
    tree: &Rooted,
    proposal: &RecomProposal,
    v: int,
    st: Seq<Vec<usize>>,
)
    requires
        sub.raw_nodes.len() == sub.graph.order(),
        sub.raw_nodes@.no_duplicates(),
        tree.roots(st, sub.graph.order()),
        cuts_at(sub, tree, proposal, v),
    ensures
        forall|x: usize|
            {
                &&& !(#[trigger] proposal.a_nodes@.contains(x) && proposal.b_nodes@.contains(x))
                &&& proposal.a_nodes@.contains(x) || proposal.b_nodes@.contains(x)
                    <==> sub.raw_nodes@.contains(x)
            },
{
    let n = sub.graph.order() as int;
    assert forall|x: usize|
        {
            &&& !(#[trigger] proposal.a_nodes@.contains(x) && proposal.b_nodes@.contains(x))
            &&& proposal.a_nodes@.contains(x) || proposal.b_nodes@.contains(x)
                <==> sub.raw_nodes@.contains(x)
        } by {
        if proposal.a_nodes@.contains(x) {
            let k = choose|k: int|
                0 <= k < n && hangs_from(tree.parent@, k, v)
                    && #[trigger] sub.raw_nodes[tree.order[k] as int] == x;
            assert(sub.raw_nodes@.contains(x));
            if proposal.b_nodes@.contains(x) {
                let j = choose|j: int|
                    0 <= j < n && !hangs_from(tree.parent@, j, v)
                        && #[trigger] sub.raw_nodes[tree.order[j] as int] == x;
                assert(sub.raw_nodes@[tree.order@[k] as int] == sub.raw_nodes@[
                tree.order@[j] as int]);
                assert(tree.order@[k] == tree.order@[j]);
                assert(k == j);
            }
        }
        if proposal.b_nodes@.contains(x) {
            let j = choose|j: int|
                0 <= j < n && !hangs_from(tree.parent@, j, v)
                    && #[trigger] sub.raw_nodes[tree.order[j] as int] == x;
            assert(sub.raw_nodes@.contains(x));
        }
        if sub.raw_nodes@.contains(x) {
            let i = choose|i: int| 0 <= i < sub.raw_nodes.len() && sub.raw_nodes[i] == x;
            every_place_is_listed(tree.order@, n as nat, i as usize);
            let k = choose|k: int| 0 <= k < n && tree.order@[k] == i as usize;
            assert(sub.raw_nodes[tree.order[k] as int] == x);
        }
    }
}

/// A list of `n` distinct numbers below `n` holds each of them.
pub proof fn every_place_is_listed(order: Seq<usize>, n: nat, x: usize)
    requires
        order.len() == n,
        order.no_duplicates(),
        forall|k: int| 0 <= k < n ==> (#[trigger] order[k]) < n,
        x < n,
    ensures
        order.contains(x),
{
    if !order.contains(x) {
        let longer = order.push(x);
        fresh_keeps_distinct(order, x);
        assert forall|i: int| 0 <= i < longer.len() implies (#[trigger] longer[i]) < n by {
            if i < order.len() {
                assert(longer[i] == order[i]);
            }
        }
        crate::stats::sums::distinct_indices_are_few(longer, n);
    }
}

/// The places of a rooted tree from which balanced parts hang.
fn balanced_cuts(sub: &SubgraphBuffer, tree: &Rooted, min_pop: u32, max_pop: u32) -> (r: Vec<
    usize,
>)
    requires
        sub.graph.sound(),
        sub.graph.order() > 0,
        tree.order.len() == sub.graph.order(),
        tree.parent.len() == sub.graph.order(),
        forall|k: int| 0 <= k < tree.order.len() ==> (#[trigger] tree.order[k])
            < sub.graph.order(),
        parents_first(tree.parent@),
    ensures
        r@ == balanced_places(
            ordered_pops(sub.graph.pops@, tree.order@),
            tree.parent@,
            min_pop as int,
            max_pop as int,
            sub.graph.order() as int,
        ),
{
    let n: usize = tree.order.len();
    let mut weights: Vec<u32> = Vec::new();
    let mut k: usize = 0;
    while k < n
        invariant
            k <= n == tree.order.len(),
            weights.len() == k,
            n == sub.graph.order(),
            forall|j: int| 0 <= j < n ==> (#[trigger] tree.order[j]) < sub.graph.order(),
            forall|j: int| 0 <= j < k ==> (#[trigger] weights[j]) == sub.graph.pops[tree.order[j] as int],
        decreases n - k,
    {
        weights.push(sub.graph.pops[tree.order[k]]);
        k += 1;
    }
    assert(weights@ =~= ordered_pops(sub.graph.pops@, tree.order@));
    let whole: u64 = graph::add_population(&weights);
    let parts: Vec<u64> = hanging_populations(&weights, &tree.parent);
    let mut r: Vec<usize> = Vec::new();
    let mut v: usize = 1;
    while v < n
        invariant
            1 <= v <= n || n == 0,
            n == parts.len() == weights.len(),
            whole == graph::population(weights@),
            forall|u: int|
                0 <= u < n ==> (#[trigger] parts[u]) == hanging_population(
                    weights@,
                    tree.parent@,
                    u,
                ),
            r@ == balanced_places(
                weights@,
                tree.parent@,
                min_pop as int,
                max_pop as int,
                v as int,
            ),
        decreases n - v,
    {
        let part: u64 = parts[v];
        proof {
            led_weight_bounds(weights@, tree.parent@, v as int, 0, n as int);
            assert(weights@.take(n as int) =~= weights@);
        }
        let rest: u64 = whole - part;
        if min_pop as u64 <= part && part <= max_pop as u64 && min_pop as u64 <= rest && rest
            <= max_pop as u64 {
            r.push(v);
        }
        v += 1;
    }
    r
}

/// Whether a cut is what a generator gives next: the one at the place that it
/// picks among all.
pub open spec fn split_comes(
    sub: &SubgraphBuffer,
    tree: &Rooted,
    places: Seq<usize>,
    before: SmallRng,
    r: Option<(usize, RecomProposal)>,
    after: SmallRng,
) -> bool {
    match r {
        None => places.len() == 0 && after == before,
        Some((_, p)) => exists|pick: Pick| #[trigger]
            random::picks(before, places.len() as usize, pick, after) && cuts_at(
                sub,
                tree,
                &p,
                places[pick.value as int] as int,
            ),
    }
}

/// Cuts a spanning tree of a merged subgraph at a balanced place, chosen at
/// random: the number of balanced places and the proposal of the chosen one.
/// There is none where no cut is balanced.
pub fn random_split(
    sub: &SubgraphBuffer,
    buf: &SpanningTreeBuffer,
    a: usize,
    b: usize,
    min_pop: u32,
    max_pop: u32,
    rng: &mut SmallRng,
) -> (r: Option<(usize, RecomProposal)>)
    requires
        sub.graph.sound(),
        sub.graph.order() > 0,
        sub.raw_nodes.len() == sub.graph.order(),
        sub.raw_nodes@.no_duplicates(),
        buf.st.len() >= sub.graph.order(),
        forall|v: int, w: usize|
            0 <= v < sub.graph.order() && #[trigger] buf.st[v]@.contains(w) ==> w
                < sub.graph.order(),
        reaches_all(buf.st@, sub.graph.order()),
    ensures
        exists|tree: Rooted|
            {
                let places = balanced_places(
                    ordered_pops(sub.graph.pops@, tree.order@),
                    tree.parent@,
                    min_pop as int,
                    max_pop as int,
                    sub.graph.order() as int,
                );
                &&& #[trigger] tree.roots(buf.st@, sub.graph.order())
                &&& r is Some <==> places.len() > 0
                &&& r matches Some((n, p)) ==> n == places.len() && exists|v: usize| #[trigger]
                    places.contains(v) && cuts_at(sub, &tree, &p, v as int)
                &&& split_comes(sub, &tree, places, *old(rng), r, *final(rng))
            },
        r matches Some((n, p)) ==> {
            &&& p.a_label == a
            &&& p.b_label == b
            &&& divides(sub, &p, min_pop, max_pop)
        },
{
    let n: usize = sub.graph.pops.len();
    match root_tree(&buf.st, n) {
        None => None,
        Some(tree) => {
            let places: Vec<usize> = balanced_cuts(sub, &tree, min_pop, max_pop);
            if places.len() == 0 {
                assert(tree.roots(buf.st@, sub.graph.order()));
                return None;
            }
            let pick: Pick = random::draw_below(rng, places.len());
            let v: usize = *random::chosen(&places, pick);
            proof {
                balanced_places_are_balanced(
                    ordered_pops(sub.graph.pops@, tree.order@),
                    tree.parent@,
                    min_pop as int,
                    max_pop as int,
                    n as int,
                );
                assert(places@[pick.value as int] == v);
                assert(places@.contains(v));
            }
            let proposal: RecomProposal = cut_tree(sub, &tree, v, a, b, Ghost(buf.st@));
            proof {
                cut_divides(sub, &tree, &proposal, v as int, buf.st@);
                assert(tree.roots(buf.st@, sub.graph.order()));
                assert(random::picks(*old(rng), places@.len() as usize, pick, *rng));
            }
            Some((places.len(), proposal))
        },
    }
}

/// The places at which a tree falls into two parts that are both within the
/// bounds, the bounds included.
pub open spec fn places_to_cut(
    weights: Seq<u32>,
    parent: Seq<usize>,
    min_pop: int,
    max_pop: int,
    k: int,
) -> Set<int> {
    Set::new(
        |v: int|
            {
                let part = hanging_population(weights, parent, v);
                let rest = graph::population(weights) - part;
                0 < v < k && min_pop <= part && part <= max_pop && min_pop <= rest && rest
                    <= max_pop
            },
    )
}

/// The balanced places are all places other than the root at which both parts
/// are within the bounds, each once, so their number is that of the ways to cut
/// the tree.
pub proof fn all_balanced_places_are_counted(
    weights: Seq<u32>,
    parent: Seq<usize>,
    min_pop: int,
    max_pop: int,
    k: int,
)
    requires
        0 <= k <= usize::MAX,
    ensures
        places_to_cut(weights, parent, min_pop, max_pop, k).finite(),
        balanced_places(weights, parent, min_pop, max_pop, k).len() == places_to_cut(
            weights,
            parent,
            min_pop,
            max_pop,
            k,
        ).len(),
        forall|v: usize|
            #![trigger balanced_places(weights, parent, min_pop, max_pop, k).contains(v)]
            balanced_places(weights, parent, min_pop, max_pop, k).contains(v) <==> places_to_cut(
                weights,
                parent,
                min_pop,
                max_pop,
                k,
            ).contains(v as int),
    decreases k,
{
    let cuts = places_to_cut(weights, parent, min_pop, max_pop, k);
    if k <= 1 {
        assert(cuts =~= Set::<int>::empty());
    } else {
        all_balanced_places_are_counted(weights, parent, min_pop, max_pop, k - 1);
        let fewer = places_to_cut(weights, parent, min_pop, max_pop, k - 1);
        let before = balanced_places(weights, parent, min_pop, max_pop, k - 1);
        if cuts.contains(k - 1) {
            assert(cuts =~= fewer.insert(k - 1));
            assert forall|v: usize|
                #![trigger balanced_places(weights, parent, min_pop, max_pop, k).contains(v)]
                balanced_places(weights, parent, min_pop, max_pop, k).contains(v)
                    <==> cuts.contains(v as int) by {
                vectors::contains_pushed(before, (k - 1) as usize, v);
            }
        } else {
            assert(cuts =~= fewer);
        }
    }
}

/// Whichever side of a cut is looked at, the cut is balanced or not, and a
/// balanced one leaves both sides within the bounds.
pub proof fn balance_is_mutual(part: int, whole: int, min_pop: int, max_pop: int)
    ensures
        balanced(part, whole, min_pop, max_pop) == balanced(whole - part, whole, min_pop, max_pop),
        balanced(part, whole, min_pop, max_pop) ==> min_pop <= part <= max_pop && 2 * min_pop
            <= whole <= 2 * max_pop,
        min_pop <= part <= max_pop && whole == 2 * part ==> balanced(
            part,
            whole,
            min_pop,
            max_pop,
        ),
{
}

} // verus!
