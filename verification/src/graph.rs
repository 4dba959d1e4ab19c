//! Graphs with node populations and named node and edge attributes.

use vstd::prelude::*;
use crate::columns::Columns;
use crate::double;
use crate::double::Double;
use crate::sorting;
use crate::text;
use crate::vectors;

verus! {

/// An edge between two nodes, the lower node first.
#[derive(Clone, Copy, Debug, PartialEq, Eq, Structural)]
pub struct Edge(pub usize, pub usize);

/// An undirected graph. Nodes are numbered from 0.
#[derive(Clone, Debug)]
pub struct Graph {
    /// The edges, by lower node and then by upper node.
    pub edges: Vec<Edge>,
    /// The population of each node.
    pub pops: Vec<u32>,
    /// The neighbors of each node.
    pub neighbors: Vec<Vec<usize>>,
    /// For each node, the number of edges whose lower node comes before it.
    pub edges_start: Vec<usize>,
    pub total_pop: u32,
    /// Node attributes as text.
    pub attr: Columns<String>,
    /// Edge attributes, in the order of `edges`.
    pub edge_attr: Columns<Double>,
    /// Integer node attributes that were read from `attr`.
    pub int_attr: Columns<i32>,
    /// Numeric node attributes that were read from `attr`.
    pub float_attr: Columns<Double>,
}

/// The populations added up.
pub open spec fn population(pops: Seq<u32>) -> int
    decreases pops.len(),
{
    if pops.len() == 0 {
        0
    } else {
        population(pops.drop_last()) + pops.last()
    }
}

/// Whether the edges ascend by lower node and then by upper node.
pub open spec fn edges_ascend(edges: Seq<Edge>) -> bool {
    forall|i: int, j: int|
        0 <= i < j < edges.len() ==> {
            ||| (#[trigger] edges[i]).0 < (#[trigger] edges[j]).0
            ||| edges[i].0 == edges[j].0 && edges[i].1 < edges[j].1
        }
}

/// Whether each edge joins a lower node to an upper one below `n`.
pub open spec fn edges_within(edges: Seq<Edge>, n: int) -> bool {
    forall|i: int| 0 <= i < edges.len() ==> (#[trigger] edges[i]).0 < edges[i].1 < n
}

/// Whether `starts[v]` counts the edges whose lower node comes before `v`.
pub open spec fn starts_match(edges: Seq<Edge>, starts: Seq<usize>) -> bool {
    &&& forall|v: int| 0 <= v < starts.len() ==> (#[trigger] starts[v]) <= edges.len()
    &&& forall|v: int, e: int|
        0 <= v < starts.len() && 0 <= e < edges.len() ==> (e < #[trigger] starts[v] <==> (
        #[trigger] edges[e]).0 < v)
}

/// Whether two nodes are joined by one of the edges.
pub open spec fn joined(edges: Seq<Edge>, u: int, v: int) -> bool {
    exists|e: int|
        0 <= e < edges.len() && (((#[trigger] edges[e]).0 == u && edges[e].1 == v) || (edges[e].0
            == v && edges[e].1 == u))
}

/// Whether each list holds the nodes that its node is joined to.
pub open spec fn neighbors_match(edges: Seq<Edge>, neighbors: Seq<Vec<usize>>) -> bool {
    forall|u: int, v: usize|
        0 <= u < neighbors.len() ==> (#[trigger] neighbors[u]@.contains(v) <==> joined(
            edges,
            u,
            v as int,
        ))
}

/// Whether the lists hold nodes below `n`.
pub open spec fn neighbors_within(neighbors: Seq<Vec<usize>>, n: int) -> bool {
    forall|u: int, v: usize|
        0 <= u < neighbors.len() && #[trigger] neighbors[u]@.contains(v) ==> v < n
}

impl Graph {
    /// The number of nodes.
    pub open spec fn order(&self) -> nat {
        self.pops@.len()
    }

    /// Nodes, edges and attributes are within range and in order.
    pub open spec fn sound(&self) -> bool {
        &&& self.order() <= u32::MAX
        &&& self.neighbors.len() == self.order()
        &&& self.edges_start.len() == self.order()
        &&& edges_within(self.edges@, self.order() as int)
        &&& edges_ascend(self.edges@)
        &&& starts_match(self.edges@, self.edges_start@)
        &&& neighbors_within(self.neighbors@, self.order() as int)
        &&& self.total_pop == population(self.pops@)
        &&& self.attr.valid()
        &&& self.edge_attr.valid()
        &&& self.int_attr.valid()
        &&& self.float_attr.valid()
    }

    /// The graph is sound and its neighbor lists agree with its edges.
    pub open spec fn valid(&self) -> bool {
        self.sound() && neighbors_match(self.edges@, self.neighbors@)
    }

    /// The index of the edge between two nodes, lower node first.
    pub fn find_edge(&self, a: usize, b: usize) -> (r: Option<usize>)
        requires
            self.sound(),
            a < self.order(),
        ensures
            match r {
                Some(e) => e < self.edges.len() && self.edges[e as int] == Edge(a, b),
                None => !self.edges@.contains(Edge(a, b)),
            },
    {
        let mut e: usize = self.edges_start[a];
        while e < self.edges.len() && self.edges[e].0 == a
            invariant
                self.sound(),
                a < self.order(),
                self.edges_start[a as int] <= e <= self.edges.len(),
                forall|f: int|
                    self.edges_start[a as int] <= f < e ==> (#[trigger] self.edges[f]) != Edge(
                        a,
                        b,
                    ),
            decreases self.edges.len() - e,
        {
            if self.edges[e].1 == b {
                return Some(e);
            }
            e += 1;
        }
        assert forall|f: int| 0 <= f < self.edges.len() implies (#[trigger] self.edges[f])
            != Edge(a, b) by {
            if f >= e {
                assert(self.edges[e as int].0 != a);
                if f > e {
                    assert(self.edges[e as int].0 <= self.edges[f].0);
                }
                assert(!(self.edges[e as int].0 < a));
            }
        }
        None
    }

    /// Reads an integer node column from its text into `int_attr`. Fails where
    /// the column is missing or an entry is no integer of 32 bits, and then
    /// changes nothing.
    pub fn cache_int_col(&mut self, name: &str) -> (r: Result<(), String>)
        requires
            old(self).sound(),
        ensures
            final(self).sound(),
            old(self).valid() ==> final(self).valid(),
            r is Ok == integer_column(old(self).attr@, name@),
            r is Err ==> *final(self) == *old(self),
            r is Ok ==> {
                &&& final(self).int_attr@ == old(self).int_attr@.insert(
                    name@,
                    column_integers(old(self).attr@[name@]),
                )
                &&& final(self).edges == old(self).edges
                &&& final(self).pops == old(self).pops
                &&& final(self).neighbors == old(self).neighbors
                &&& final(self).edges_start == old(self).edges_start
                &&& final(self).total_pop == old(self).total_pop
                &&& final(self).attr == old(self).attr
                &&& final(self).edge_attr == old(self).edge_attr
                &&& final(self).float_attr == old(self).float_attr
            },
    {
        let mut values: Vec<i32> = Vec::new();
        match self.attr.get(name) {
            None => {
                return Err(missing_column(name));
            },
            Some(texts) => {
                let mut i: usize = 0;
                while i < texts.len()
                    invariant
                        i <= texts.len(),
                        old(self).sound(),
                        *self == *old(self),
                        old(self).attr@.contains_key(name@),
                        texts@ == old(self).attr@[name@],
                        values@ == column_integers(texts@.take(i as int)),
                        forall|j: int|
                            0 <= j < i ==> text::parse_integer((#[trigger] texts[j])@) is Some,
                    decreases texts.len() - i,
                {
                    match text::read_integer(texts[i].as_str()) {
                        Some(v) => {
                            values.push(v);
                        },
                        None => {
                            assert(text::parse_integer(old(self).attr@[name@][i as int]@) is None);
                            return Err(missing_column(name));
                        },
                    }
                    i += 1;
                    assert(values@ =~= column_integers(texts@.take(i as int)));
                }
                assert(texts@.take(i as int) =~= texts@);
            },
        }
        self.int_attr.insert(name.to_string(), values);
        Ok(())
    }

    /// Reads a numeric node column from its text into `float_attr`, by the
    /// given reader of numbers. Fails where the column is missing or an entry
    /// is no number, and then changes nothing.
    pub fn cache_float_col<P: Fn(&String) -> Option<Double>>(&mut self, name: &str, read: &P) -> (r:
        Result<(), String>)
        requires
            old(self).sound(),
            forall|s: &String| #[trigger] call_requires(*read, (s,)),
        ensures
            final(self).sound(),
            old(self).valid() ==> final(self).valid(),
            r is Err ==> *final(self) == *old(self),
            !old(self).attr@.contains_key(name@) ==> r is Err,
            r matches Err(e) ==> unreadable(*read, old(self).attr@, name@) && e@
                == unreadable_text(name@),
            r is Ok ==> {
                &&& final(self).float_attr@.contains_key(name@)
                &&& final(self).float_attr@ == old(self).float_attr@.insert(
                    name@,
                    final(self).float_attr@[name@],
                )
                &&& final(self).float_attr@[name@].len() == old(self).attr@[name@].len()
                &&& forall|i: int|
                    0 <= i < old(self).attr@[name@].len() ==> call_ensures(
                        *read,
                        (&#[trigger] old(self).attr@[name@][i],),
                        Some(final(self).float_attr@[name@][i]),
                    )
                &&& final(self).edges == old(self).edges
                &&& final(self).pops == old(self).pops
                &&& final(self).neighbors == old(self).neighbors
                &&& final(self).edges_start == old(self).edges_start
                &&& final(self).total_pop == old(self).total_pop
                &&& final(self).attr == old(self).attr
                &&& final(self).edge_attr == old(self).edge_attr
                &&& final(self).int_attr == old(self).int_attr
            },
    {
        let mut values: Vec<Double> = Vec::new();
        match self.attr.get(name) {
            None => {
                return Err(unreadable_column(name));
            },
            Some(texts) => {
                let mut i: usize = 0;
                while i < texts.len()
                    invariant
                        i <= texts.len(),
                        old(self).sound(),
                        *self == *old(self),
                        old(self).attr@.contains_key(name@),
                        texts@ == old(self).attr@[name@],
                        values.len() == i,
                        forall|s: &String| #[trigger] call_requires(*read, (s,)),
                        forall|j: int|
                            0 <= j < i ==> call_ensures(
                                *read,
                                (&#[trigger] texts[j],),
                                Some(values[j]),
                            ),
                    decreases texts.len() - i,
                {
                    match read(&texts[i]) {
                        Some(v) => {
                            values.push(v);
                        },
                        None => {
                            assert(call_ensures(
                                *read,
                                (&old(self).attr@[name@][i as int],),
                                None,
                            ));
                            return Err(unreadable_column(name));
                        },
                    }
                    i += 1;
                }
            },
        }
        let ghost numbers = values@;
        self.float_attr.insert(name.to_string(), values);
        assert(self.float_attr@ =~= old(self).float_attr@.insert(name@, self.float_attr@[name@]));
        Ok(())
    }

    /// Reads a numeric node column from its text into `float_attr`, by the
    /// given reader of numbers; what is no number counts as zero. Fails where
    /// the column is missing, and then changes nothing.
    pub fn cache_float_col_or_zero<P: Fn(&String) -> Option<Double>>(
        &mut self,
        name: &str,
        read: &P,
    ) -> (r: Result<(), String>)
        requires
            old(self).sound(),
            forall|s: &String| #[trigger] call_requires(*read, (s,)),
        ensures
            final(self).sound(),
            old(self).valid() ==> final(self).valid(),
            r is Ok == old(self).attr@.contains_key(name@),
            r matches Err(e) ==> *final(self) == *old(self) && e@ == "Missing node attribute '"@
                + name@ + "'"@,
            r is Ok ==> {
                &&& final(self).float_attr@.contains_key(name@)
                &&& final(self).float_attr@ == old(self).float_attr@.insert(
                    name@,
                    final(self).float_attr@[name@],
                )
                &&& reads_as(*read, old(self).attr@[name@], final(self).float_attr@[name@])
                &&& final(self).edges == old(self).edges
                &&& final(self).pops == old(self).pops
                &&& final(self).neighbors == old(self).neighbors
                &&& final(self).edges_start == old(self).edges_start
                &&& final(self).total_pop == old(self).total_pop
                &&& final(self).attr == old(self).attr
                &&& final(self).edge_attr == old(self).edge_attr
                &&& final(self).int_attr == old(self).int_attr
            },
    {
        let values: Vec<Double> = match self.attr.get(name) {
            None => {
                let mut out: String = "Missing node attribute '".to_string();
                out.append(name);
                out.append("'");
                return Err(out);
            },
            Some(texts) => read_or_zero(texts, read),
        };
        self.float_attr.insert(name.to_string(), values);
        assert(self.float_attr@ =~= old(self).float_attr@.insert(name@, self.float_attr@[name@]));
        Ok(())
    }

    /// A graph with the given populations and edges, each edge kept once with
    /// its lower node first. There is none where an edge leaves the nodes or
    /// joins a node to itself, or where the populations do not fit.
    pub fn from_edges(pops: Vec<u32>, edges: Vec<Edge>) -> (r: Option<Graph>)
        ensures
            r is Some == (pops.len() <= u32::MAX && population(pops@) <= u32::MAX && (forall|i: int|
                0 <= i < edges.len() ==> (#[trigger] edges[i]).0 != edges[i].1 && edges[i].0
                    < pops.len() && edges[i].1 < pops.len())),
            r matches Some(g) ==> {
                &&& g.valid()
                &&& g.pops@ == pops@
                &&& forall|u: int, v: int| joined(g.edges@, u, v) == joined(edges@, u, v)
                &&& g.attr@ == Map::<Seq<char>, Seq<String>>::empty()
                &&& g.edge_attr@ == Map::<Seq<char>, Seq<Double>>::empty()
                &&& g.int_attr@ == Map::<Seq<char>, Seq<i32>>::empty()
                &&& g.float_attr@ == Map::<Seq<char>, Seq<Double>>::empty()
            },
    {
        let n: usize = pops.len();
        if n > u32::MAX as usize {
            return None;
        }
        let total: u64 = add_population(&pops);
        if total > u32::MAX as u64 {
            return None;
        }
        let mut i: usize = 0;
        while i < edges.len()
            invariant
                i <= edges.len(),
                n == pops.len(),
                forall|j: int|
                    0 <= j < i ==> (#[trigger] edges[j]).0 != edges[j].1 && edges[j].0 < n
                        && edges[j].1 < n,
            decreases edges.len() - i,
        {
            if edges[i].0 == edges[i].1 || edges[i].0 >= n || edges[i].1 >= n {
                return None;
            }
            i += 1;
        }
        let sorted: Vec<Edge> = sort_edges(&edges, n);
        let starts: Vec<usize> = count_starts(&sorted, n);
        let neighbors: Vec<Vec<usize>> = list_neighbors(&sorted, n);
        assert(neighbors_within(neighbors@, n as int)) by {
            assert forall|u: int, v: usize|
                0 <= u < neighbors.len() && #[trigger] neighbors@[u]@.contains(v) implies v < n by {
                assert(joined(sorted@, u, v as int));
                let e = choose|e: int|
                    0 <= e < sorted.len() && (((#[trigger] sorted@[e]).0 == u && sorted@[e].1 == v)
                        || (sorted@[e].0 == v && sorted@[e].1 == u));
                assert(sorted@[e].1 < n);
            }
        }
        Some(
            Graph {
                edges: sorted,
                pops,
                neighbors,
                edges_start: starts,
                total_pop: total as u32,
                attr: Columns::new(),
                edge_attr: Columns::new(),
                int_attr: Columns::new(),
                float_attr: Columns::new(),
            },
        )
    }

    /// A graph with the given populations and neighbor lists. Its edges join a
    /// node to the higher nodes in its list; the lists need not agree with one
    /// another. There is none where a list leaves the nodes, or where the
    /// populations do not fit.
    pub fn from_adjacency(pops: Vec<u32>, neighbors: Vec<Vec<usize>>) -> (r: Option<Graph>)
        ensures
            r is Some == (neighbors.len() == pops.len() && pops.len() <= u32::MAX && population(
                pops@,
            ) <= u32::MAX && neighbors_within(neighbors@, pops.len() as int)),
            r matches Some(g) ==> {
                &&& g.sound()
                &&& g.pops@ == pops@
                &&& g.neighbors == neighbors
                &&& forall|u: usize, v: usize| #[trigger]
                    g.edges@.contains(Edge(u, v)) <==> lists_upward(neighbors@, u, v)
                &&& g.attr@ == Map::<Seq<char>, Seq<String>>::empty()
                &&& g.edge_attr@ == Map::<Seq<char>, Seq<Double>>::empty()
                &&& g.int_attr@ == Map::<Seq<char>, Seq<i32>>::empty()
                &&& g.float_attr@ == Map::<Seq<char>, Seq<Double>>::empty()
            },
    {
        let n: usize = pops.len();
        if neighbors.len() != n || n > u32::MAX as usize {
            return None;
        }
        let total: u64 = add_population(&pops);
        if total > u32::MAX as u64 {
            return None;
        }
        let upward: Vec<Edge> = match list_upward_edges(&neighbors, n) {
            Some(edges) => edges,
            None => {
                return None;
            },
        };
        let sorted: Vec<Edge> = sort_edges(&upward, n);
        let starts: Vec<usize> = count_starts(&sorted, n);
        proof {
            assert forall|u: usize, v: usize| #[trigger]
                sorted@.contains(Edge(u, v)) <==> lists_upward(neighbors@, u, v) by {
                assert(joined(sorted@, u as int, v as int) == joined(
                    upward@,
                    u as int,
                    v as int,
                ));
                if sorted@.contains(Edge(u, v)) {
                    let e = choose|e: int| 0 <= e < sorted.len() && sorted@[e] == Edge(u, v);
                    assert(sorted@[e].0 < sorted@[e].1);
                    assert(joined(sorted@, u as int, v as int));
                    let f = choose|f: int|
                        0 <= f < upward.len() && (((#[trigger] upward@[f]).0 == u && upward@[f].1
                            == v) || (upward@[f].0 == v && upward@[f].1 == u));
                    assert(upward@.contains(upward@[f]));
                    assert(lists_upward(neighbors@, upward@[f].0, upward@[f].1));
                }
                if lists_upward(neighbors@, u, v) {
                    assert(upward@.contains(Edge(u, v)));
                    let f = choose|f: int| 0 <= f < upward.len() && upward@[f] == Edge(u, v);
                    assert(upward@[f].0 == u);
                    assert(joined(upward@, u as int, v as int));
                    let e = choose|e: int|
                        0 <= e < sorted.len() && (((#[trigger] sorted@[e]).0 == u && sorted@[e].1
                            == v) || (sorted@[e].0 == v && sorted@[e].1 == u));
                    assert(sorted@[e].0 < sorted@[e].1);
                    assert(sorted@[e] == Edge(u, v));
                }
            }
        }
        Some(
            Graph {
                edges: sorted,
                pops,
                neighbors,
                edges_start: starts,
                total_pop: total as u32,
                attr: Columns::new(),
                edge_attr: Columns::new(),
                int_attr: Columns::new(),
                float_attr: Columns::new(),
            },
        )
    }
}

/// Whether a node's list holds a higher node.
pub open spec fn lists_upward(neighbors: Seq<Vec<usize>>, u: usize, v: usize) -> bool {
    u < v && u < neighbors.len() && neighbors[u as int]@.contains(v)
}

/// The edges from each node to the higher nodes in its list, unless a list
/// leaves the nodes.
fn list_upward_edges(neighbors: &Vec<Vec<usize>>, n: usize) -> (r: Option<Vec<Edge>>)
    requires
        neighbors.len() == n,
    ensures
        r is Some == neighbors_within(neighbors@, n as int),
        r matches Some(edges) ==> {
            &&& forall|i: int|
                0 <= i < edges.len() ==> (#[trigger] edges[i]).0 != edges[i].1 && edges[i].0 < n
                    && edges[i].1 < n
            &&& forall|u: usize, v: usize| #[trigger]
                edges@.contains(Edge(u, v)) <==> lists_upward(neighbors@, u, v)
        },
{
    let mut edges: Vec<Edge> = Vec::new();
    let mut u: usize = 0;
    while u < n
        invariant
            u <= n,
            n == neighbors.len(),
            neighbors_within(neighbors@.take(u as int), n as int),
            forall|i: int|
                0 <= i < edges.len() ==> (#[trigger] edges[i]).0 != edges[i].1 && edges[i].0 < n
                    && edges[i].1 < n,
            forall|a: usize, v: usize| #[trigger]
                edges@.contains(Edge(a, v)) <==> a < u && lists_upward(neighbors@, a, v),
        decreases n - u,
    {
        let list: &Vec<usize> = &neighbors[u];
        let mut i: usize = 0;
        while i < list.len()
            invariant
                i <= list.len(),
                u < n,
                n == neighbors.len(),
                list@ == neighbors@[u as int]@,
                forall|j: int| 0 <= j < i ==> (#[trigger] list@[j]) < n,
                forall|j: int|
                    0 <= j < edges.len() ==> (#[trigger] edges[j]).0 != edges[j].1 && edges[j].0
                        < n && edges[j].1 < n,
                forall|a: usize, v: usize| #[trigger]
                    edges@.contains(Edge(a, v)) <==> (a < u && lists_upward(neighbors@, a, v)) || (
                    a == u && u < v && list@.take(i as int).contains(v)),
            decreases list.len() - i,
        {
            let v: usize = list[i];
            if v >= n {
                assert(neighbors@[u as int]@.contains(v));
                return None;
            }
            let ghost before = edges@;
            if u < v {
                edges.push(Edge(u, v));
            }
            i += 1;
            assert forall|a: usize, w: usize| #[trigger]
                edges@.contains(Edge(a, w)) <==> (a < u && lists_upward(neighbors@, a, w)) || (a
                    == u && u < w && list@.take(i as int).contains(w)) by {
                assert(list@.take(i as int) =~= list@.take(i - 1).push(v));
                vectors::contains_pushed(list@.take(i - 1), v, w);
                assert(before.contains(Edge(a, w)) <==> (a < u && lists_upward(neighbors@, a, w))
                    || (a == u && u < w && list@.take(i - 1).contains(w)));
                if u < v {
                    vectors::contains_pushed(before, Edge(u, v), Edge(a, w));
                }
            }
        }
        u += 1;
        assert(list@.take(i as int) =~= list@);
        assert forall|a: int, v: usize|
            0 <= a < neighbors@.take(u as int).len() && #[trigger] neighbors@.take(
                u as int,
            )[a]@.contains(v) implies v < n by {
            if a < u - 1 {
                assert(neighbors@.take(u - 1)[a]@.contains(v));
            } else {
                let j = choose|j: int| 0 <= j < list@.len() && list@[j] == v;
                assert(list@[j] < n);
            }
        }
    }
    assert(neighbors@.take(u as int) =~= neighbors@);
    Some(edges)
}

/// Whether a column is there and every entry reads as an integer.
pub open spec fn integer_column(attr: Map<Seq<char>, Seq<String>>, name: Seq<char>) -> bool {
    attr.contains_key(name) && forall|i: int|
        0 <= i < attr[name].len() ==> text::parse_integer((#[trigger] attr[name][i])@) is Some
}

/// The integers that the entries of a column read as.
pub open spec fn column_integers(texts: Seq<String>) -> Seq<i32> {
    Seq::new(texts.len(), |i: int| text::parse_integer(texts[i]@).unwrap() as i32)
}

/// Whether numbers are what texts read as, zero for what is no number.
pub open spec fn reads_as<P: Fn(&String) -> Option<Double>>(
    read: P,
    texts: Seq<String>,
    numbers: Seq<Double>,
) -> bool {
    &&& numbers.len() == texts.len()
    &&& forall|i: int|
        0 <= i < texts.len() ==> call_ensures(
            read,
            (&#[trigger] texts[i],),
            Some(numbers[i]),
        ) || (call_ensures(read, (&texts[i],), None) && numbers[i] == double::zero())
}

/// Reads numbers from texts, zero for what is no number.
pub fn read_or_zero<P: Fn(&String) -> Option<Double>>(texts: &Vec<String>, read: &P) -> (r: Vec<
    Double,
>)
    requires
        forall|s: &String| #[trigger] call_requires(*read, (s,)),
    ensures
        reads_as(*read, texts@, r@),
{
    let mut values: Vec<Double> = Vec::new();
    let mut i: usize = 0;
    while i < texts.len()
        invariant
            i <= texts.len(),
            values.len() == i,
            forall|s: &String| #[trigger] call_requires(*read, (s,)),
            forall|j: int|
                0 <= j < i ==> call_ensures(*read, (&#[trigger] texts[j],), Some(values[j])) || (
                call_ensures(*read, (&texts[j],), None) && values[j] == double::zero()),
        decreases texts.len() - i,
    {
        match read(&texts[i]) {
            Some(v) => {
                values.push(v);
            },
            None => {
                values.push(double::zero());
            },
        }
        i += 1;
    }
    values
}

fn missing_column(name: &str) -> (r: String)
    ensures
        r@ == "Column '"@ + name@ + "' is missing or holds a non-integer value"@,
{
    let mut out: String = "Column '".to_string();
    out.append(name);
    out.append("' is missing or holds a non-integer value");
    out
}

/// Whether a column is missing or holds an entry that is read as no number.
pub open spec fn unreadable<P: Fn(&String) -> Option<Double>>(
    read: P,
    attr: Map<Seq<char>, Seq<String>>,
    name: Seq<char>,
) -> bool {
    attr.contains_key(name) ==> exists|i: int|
        0 <= i < attr[name].len() && call_ensures(read, (&#[trigger] attr[name][i],), None)
}

/// Whether a column is there and numbers are those that its entries are read
/// as.
pub open spec fn read_from<P: Fn(&String) -> Option<Double>>(
    read: P,
    attr: Map<Seq<char>, Seq<String>>,
    name: Seq<char>,
    numbers: Seq<Double>,
) -> bool {
    &&& attr.contains_key(name)
    &&& numbers.len() == attr[name].len()
    &&& forall|i: int|
        0 <= i < attr[name].len() ==> call_ensures(
            read,
            (&#[trigger] attr[name][i],),
            Some(numbers[i]),
        )
}

/// The message about a column without numbers.
pub open spec fn unreadable_text(name: Seq<char>) -> Seq<char> {
    "Column '"@ + name + "' is missing or holds a non-numeric value"@
}

fn unreadable_column(name: &str) -> (r: String)
    ensures
        r@ == unreadable_text(name@),
{
    let mut out: String = "Column '".to_string();
    out.append(name);
    out.append("' is missing or holds a non-numeric value");
    out
}

pub proof fn population_bounds(pops: Seq<u32>)
    ensures
        0 <= population(pops) <= pops.len() * u32::MAX,
    decreases pops.len(),
{
    if pops.len() > 0 {
        population_bounds(pops.drop_last());
        assert(pops.len() * u32::MAX == (pops.len() - 1) * u32::MAX + u32::MAX)
            by (nonlinear_arith);
    }
}

/// The populations added up.
pub(crate) fn add_population(pops: &Vec<u32>) -> (r: u64)
    requires
        pops.len() <= u32::MAX,
    ensures
        r == population(pops@),
{
    let mut acc: u64 = 0;
    let mut i: usize = 0;
    while i < pops.len()
        invariant
            i <= pops.len() <= u32::MAX,
            acc == population(pops@.take(i as int)),
        decreases pops.len() - i,
    {
        proof {
            population_bounds(pops@.take(i as int));
            assert(i * u32::MAX <= u32::MAX * u32::MAX) by (nonlinear_arith)
                requires
                    i <= u32::MAX,
            ;
        }
        assert(pops@.take(i + 1).drop_last() =~= pops@.take(i as int));
        acc = acc + pops[i] as u64;
        i += 1;
    }
    assert(pops@.take(i as int) =~= pops@);
    acc
}

/// A key that orders edges by lower node and then by upper node.
pub open spec fn edge_key(low: int, high: int) -> int {
    low * 0x1_0000_0000 + high
}

spec fn lower(e: Edge) -> usize {
    if e.0 < e.1 {
        e.0
    } else {
        e.1
    }
}

spec fn upper(e: Edge) -> usize {
    if e.0 < e.1 {
        e.1
    } else {
        e.0
    }
}

proof fn edge_keys_order(a: int, b: int, c: int, d: int)
    requires
        0 <= b < 0x1_0000_0000,
        0 <= d < 0x1_0000_0000,
    ensures
        edge_key(a, b) < edge_key(c, d) <==> a < c || (a == c && b < d),
        edge_key(a, b) == edge_key(c, d) <==> a == c && b == d,
{
}

pub(crate) fn sort_edges(edges: &Vec<Edge>, n: usize) -> (sorted: Vec<Edge>)
    requires
        n <= u32::MAX,
        forall|i: int|
            0 <= i < edges.len() ==> (#[trigger] edges[i]).0 != edges[i].1 && edges[i].0 < n
                && edges[i].1 < n,
    ensures
        edges_within(sorted@, n as int),
        edges_ascend(sorted@),
        forall|u: int, v: int| joined(sorted@, u, v) == joined(edges@, u, v),
{
    let mut keys: Vec<u64> = Vec::new();
    let mut i: usize = 0;
    while i < edges.len()
        invariant
            i <= edges.len(),
            keys.len() == i,
            n <= u32::MAX,
            forall|j: int|
                0 <= j < edges.len() ==> (#[trigger] edges[j]).0 != edges[j].1 && edges[j].0 < n
                    && edges[j].1 < n,
            forall|j: int|
                0 <= j < i ==> (#[trigger] keys[j]) == edge_key(
                    lower(edges[j]) as int,
                    upper(edges[j]) as int,
                ),
        decreases edges.len() - i,
    {
        let e: Edge = edges[i];
        let (low, high): (usize, usize) = if e.0 < e.1 {
            (e.0, e.1)
        } else {
            (e.1, e.0)
        };
        keys.push((low as u64) * 0x1_0000_0000 + (high as u64));
        i += 1;
    }
    let order: Vec<usize> = sorting::stable_order(&keys);
    let mut sorted: Vec<Edge> = Vec::new();
    let mut k: usize = 0;
    while k < order.len()
        invariant
            k <= order.len(),
            order.len() == edges.len() == keys.len(),
            n <= u32::MAX,
            sorting::stable_order_of(keys@, order@),
            forall|j: int|
                0 <= j < edges.len() ==> (#[trigger] edges[j]).0 != edges[j].1 && edges[j].0 < n
                    && edges[j].1 < n,
            forall|j: int|
                0 <= j < keys.len() ==> (#[trigger] keys[j]) == edge_key(
                    lower(edges[j]) as int,
                    upper(edges[j]) as int,
                ),
            edges_within(sorted@, n as int),
            edges_ascend(sorted@),
            sorted.len() == 0 <==> k == 0,
            k > 0 ==> sorted@.last() == Edge(
                lower(edges[order[k - 1] as int]),
                upper(edges[order[k - 1] as int]),
            ),
            forall|j: int|
                0 <= j < sorted.len() ==> edges@.contains(#[trigger] sorted[j]) || edges@.contains(
                    Edge(sorted[j].1, sorted[j].0),
                ),
            forall|j: int|
                0 <= j < k ==> sorted@.contains(
                    Edge(
                        lower(edges[(#[trigger] order[j]) as int]),
                        upper(edges[order[j] as int]),
                    ),
                ),
        decreases order.len() - k,
    {
        proof {
            assert(order@.contains(order[k as int]));
        }
        let e: Edge = edges[order[k]];
        assert(edges@.contains(e));
        let (low, high): (usize, usize) = if e.0 < e.1 {
            (e.0, e.1)
        } else {
            (e.1, e.0)
        };
        let fresh: bool = if k == 0 {
            true
        } else {
            let last: Edge = sorted[sorted.len() - 1];
            last.0 != low || last.1 != high
        };
        let ghost prior = sorted@;
        proof {
            if k > 0 {
                let p = order[k - 1];
                assert(order@.contains(p));
                assert(sorting::precedes(keys@, p, order[k as int]));
                edge_keys_order(
                    lower(edges[p as int]) as int,
                    upper(edges[p as int]) as int,
                    low as int,
                    high as int,
                );
                assert(keys@[p as int] <= keys@[order[k as int] as int]);
                assert(edges[p as int].0 < n && edges[p as int].1 < n);
            }
        }
        if fresh {
            sorted.push(Edge(low, high));
            assert(edges_ascend(sorted@)) by {
                assert forall|i: int, j: int| 0 <= i < j < sorted.len() implies {
                    ||| (#[trigger] sorted@[i]).0 < (#[trigger] sorted@[j]).0
                    ||| sorted@[i].0 == sorted@[j].0 && sorted@[i].1 < sorted@[j].1
                } by {
                    if j == prior.len() {
                        assert(sorted@[i] == prior[i]);
                        if i < prior.len() - 1 {
                            assert(prior[i].0 < prior[prior.len() - 1].0 || (prior[i].0
                                == prior[prior.len() - 1].0 && prior[i].1 < prior[prior.len()
                                - 1].1));
                        }
                    } else {
                        assert(sorted@[i] == prior[i] && sorted@[j] == prior[j]);
                    }
                }
            }
        }
        assert(sorted@.contains(Edge(low, high))) by {
            assert(sorted@[sorted@.len() - 1] == Edge(low, high));
        }
        assert forall|x: Edge| prior.contains(x) implies sorted@.contains(x) by {
            let j = choose|j: int| 0 <= j < prior.len() && prior[j] == x;
            assert(sorted@[j] == x);
        }
        k += 1;
    }
    assert forall|u: int, v: int| joined(sorted@, u, v) == joined(edges@, u, v) by {
        if joined(sorted@, u, v) {
            let e = choose|e: int|
                0 <= e < sorted.len() && (((#[trigger] sorted[e]).0 == u && sorted[e].1 == v) || (
                sorted[e].0 == v && sorted[e].1 == u));
            let x = sorted[e];
            if edges@.contains(x) {
                let f = choose|f: int| 0 <= f < edges.len() && edges[f] == x;
                assert(edges[f] == x);
            } else {
                let y = Edge(x.1, x.0);
                let f = choose|f: int| 0 <= f < edges.len() && edges[f] == y;
                assert(edges[f] == y);
            }
        }
        if joined(edges@, u, v) {
            let f = choose|f: int|
                0 <= f < edges.len() && (((#[trigger] edges[f]).0 == u && edges[f].1 == v) || (
                edges[f].0 == v && edges[f].1 == u));
            assert(order@.contains(f as usize));
            let j = choose|j: int| 0 <= j < order.len() && order[j] == f as usize;
            let x = Edge(lower(edges[order[j] as int]), upper(edges[order[j] as int]));
            assert(sorted@.contains(x));
            let e = choose|e: int| 0 <= e < sorted.len() && sorted[e] == x;
            assert(sorted[e] == x);
        }
    }
    sorted
}

pub(crate) fn count_starts(edges: &Vec<Edge>, n: usize) -> (starts: Vec<usize>)
    requires
        edges_ascend(edges@),
    ensures
        starts.len() == n,
        starts_match(edges@, starts@),
{
    let mut starts: Vec<usize> = Vec::new();
    let mut v: usize = 0;
    let mut e: usize = 0;
    while v < n
        invariant
            v <= n,
            starts.len() == v,
            e <= edges.len(),
            edges_ascend(edges@),
            starts_match(edges@, starts@),
            forall|f: int| 0 <= f < e ==> (#[trigger] edges[f]).0 < v,
        decreases n - v,
    {
        while e < edges.len() && edges[e].0 < v
            invariant
                e <= edges.len(),
                forall|f: int| 0 <= f < e ==> (#[trigger] edges[f]).0 < v,
            decreases edges.len() - e,
        {
            e += 1;
        }
        let ghost prior = starts@;
        starts.push(e);
        assert(starts_match(edges@, starts@)) by {
            assert forall|w: int, f: int|
                0 <= w < starts.len() && 0 <= f < edges.len() implies (f < #[trigger] starts@[w]
                <==> (#[trigger] edges@[f]).0 < w) by {
                if w < prior.len() {
                    assert(starts@[w] == prior[w]);
                } else if f > e {
                    assert(edges@[e as int].0 <= edges@[f].0);
                }
            }
            assert forall|w: int| 0 <= w < starts.len() implies (#[trigger] starts@[w])
                <= edges.len() by {
                if w < prior.len() {
                    assert(starts@[w] == prior[w]);
                }
            }
        }
        v += 1;
    }
    starts
}

fn list_neighbors(edges: &Vec<Edge>, n: usize) -> (neighbors: Vec<Vec<usize>>)
    requires
        edges_within(edges@, n as int),
    ensures
        neighbors.len() == n,
        neighbors_match(edges@, neighbors@),
{
    let mut neighbors: Vec<Vec<usize>> = Vec::new();
    let mut v: usize = 0;
    while v < n
        invariant
            v <= n,
            neighbors.len() == v,
            forall|u: int| 0 <= u < v ==> (#[trigger] neighbors[u])@.len() == 0,
        decreases n - v,
    {
        neighbors.push(Vec::new());
        v += 1;
    }
    let mut e: usize = 0;
    assert(neighbors_match(edges@.take(0), neighbors@));
    while e < edges.len()
        invariant
            e <= edges.len(),
            neighbors.len() == n,
            edges_within(edges@, n as int),
            neighbors_match(edges@.take(e as int), neighbors@),
        decreases edges.len() - e,
    {
        let edge: Edge = edges[e];
        let ghost prior = neighbors@;
        push_at(&mut neighbors, edge.0, edge.1);
        let ghost middle = neighbors@;
        push_at(&mut neighbors, edge.1, edge.0);
        e += 1;
        assert forall|u: int, v: usize|
            0 <= u < neighbors.len() implies (#[trigger] neighbors@[u]@.contains(v) <==> joined(
            edges@.take(e as int),
            u,
            v as int,
        )) by {
            let small = edges@.take(e - 1);
            let large = edges@.take(e as int);
            assert(prior[u]@.contains(v) <==> joined(small, u, v as int));
            vectors::contains_pushed(prior[u]@, edge.1, v);
            vectors::contains_pushed(middle[u]@, edge.0, v);
            assert(large[e - 1] == edge);
            if joined(small, u, v as int) {
                let f = choose|f: int|
                    0 <= f < small.len() && (((#[trigger] small[f]).0 == u && small[f].1 == v) || (
                    small[f].0 == v && small[f].1 == u));
                assert(large[f] == small[f]);
            }
            if joined(large, u, v as int) {
                let f = choose|f: int|
                    0 <= f < large.len() && (((#[trigger] large[f]).0 == u && large[f].1 == v) || (
                    large[f].0 == v && large[f].1 == u));
                if f < small.len() {
                    assert(small[f] == large[f]);
                }
            }
        }
    }
    assert(edges@.take(e as int) =~= edges@);
    neighbors
}

/// Appends a value to one of a list of vectors.
pub fn push_at(lists: &mut Vec<Vec<usize>>, i: usize, value: usize)
    requires
        i < old(lists).len(),
    ensures
        final(lists).len() == old(lists).len(),
        final(lists)[i as int]@ == old(lists)[i as int]@.push(value),
        forall|j: int| 0 <= j < old(lists).len() && j != i ==> final(lists)[j] == old(lists)[j],
{
    let mut list: Vec<usize> = Vec::new();
    list = replace_at(lists, i, list);
    list.push(value);
    lists.set(i, list);
}

fn replace_at(lists: &mut Vec<Vec<usize>>, i: usize, value: Vec<usize>) -> (r: Vec<usize>)
    requires
        i < old(lists).len(),
    ensures
        r == old(lists)[i as int],
        final(lists)@ == old(lists)@.update(i as int, value),
{
    let mut other: Vec<usize> = value;
    std::mem::swap(&mut lists[i], &mut other);
    other
}

/// The population of two lots of nodes is the sum of theirs.
pub proof fn populations_add_up(a: Seq<u32>, b: Seq<u32>)
    ensures
        population(a + b) == population(a) + population(b),
        b.len() == 1 ==> population(b) == b[0],
    decreases b.len(),
{
    if b.len() == 0 {
        assert(a + b =~= a);
    } else {
        populations_add_up(a, b.drop_last());
        assert((a + b).drop_last() =~= a + b.drop_last());
        if b.len() == 1 {
            assert(b.drop_last() =~= Seq::<u32>::empty());
        }
    }
}

} // verus!
