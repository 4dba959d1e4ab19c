//! Graphs and plans of JSON documents.

use serde_json::Value;
use vstd::hash_map::StringHashMap;
use vstd::prelude::*;
use crate::columns::Columns;
use crate::double::Double;
use crate::graph::{Edge, Graph};
use crate::json::{Leaf, Node};
use crate::partition::{Partition, Plan};
use crate::{assignments, bendl, double, graph, json, text};

verus! {

/// The columns to load.
#[derive(Debug)]
pub struct GraphColumns {
    pub population: String,
    pub assignment: String,
    /// Node columns that every node has.
    pub whole: Vec<String>,
    /// Node columns that count as zero where they are missing.
    pub partial: Vec<String>,
    pub edges: Vec<String>,
}

/// Why a document makes no graph and plan.
#[derive(Debug, PartialEq, Eq)]
pub enum DocumentError {
    /// A list is missing.
    NoList(String),
    /// A node's attribute is no whole number.
    NoCount(String, usize),
    /// The neighbors of a node are no list.
    NoNeighbors(usize),
    /// An entry of a node's neighbors is no node.
    UnknownNeighbor(usize, usize),
    /// The neighbor lists and populations make no graph.
    NoGraph,
    /// A node lacks an attribute.
    NoAttribute(String, usize),
    /// No edge has an attribute.
    NoEdgeValue(String),
    /// The labels make no plan.
    NoPlan(String),
}

impl DocumentError {
    /// The message of an error.
    pub open spec fn text(self) -> Seq<char> {
        match self {
            DocumentError::NoList(key) => "missing list '"@ + key@ + "'"@,
            DocumentError::NoCount(key, i) => "attribute '"@ + key@ + "' of node "@ + text::decimal(
                i as nat,
            ) + " is no whole number"@,
            DocumentError::NoNeighbors(u) => "the neighbors of node "@ + text::decimal(u as nat)
                + " are no list"@,
            DocumentError::UnknownNeighbor(u, k) => "neighbor "@ + text::decimal(k as nat)
                + " of node "@ + text::decimal(u as nat) + " is unknown"@,
            DocumentError::NoGraph =>
                "the graph has no nodes for its adjacency, or too great a population"@,
            DocumentError::NoAttribute(key, i) => "missing attribute '"@ + key@ + "' of node "@
                + text::decimal(i as nat),
            DocumentError::NoEdgeValue(key) => "no edge has the attribute '"@ + key@ + "'"@,
            DocumentError::NoPlan(reason) => reason@,
        }
    }

    /// The message of an error.
    pub fn message(&self) -> (r: String)
        ensures
            r@ == self.text(),
    {
        let mut out: String = String::new();
        match self {
            DocumentError::NoList(key) => {
                out.append("missing list '");
                out.append(key.as_str());
                out.append("'");
            },
            DocumentError::NoCount(key, i) => {
                out.append("attribute '");
                out.append(key.as_str());
                out.append("' of node ");
                text::push_number(&mut out, *i as u64);
                out.append(" is no whole number");
            },
            DocumentError::NoNeighbors(u) => {
                out.append("the neighbors of node ");
                text::push_number(&mut out, *u as u64);
                out.append(" are no list");
            },
            DocumentError::UnknownNeighbor(u, k) => {
                out.append("neighbor ");
                text::push_number(&mut out, *k as u64);
                out.append(" of node ");
                text::push_number(&mut out, *u as u64);
                out.append(" is unknown");
            },
            DocumentError::NoGraph => {
                out.append("the graph has no nodes for its adjacency, or too great a population");
            },
            DocumentError::NoAttribute(key, i) => {
                out.append("missing attribute '");
                out.append(key.as_str());
                out.append("' of node ");
                text::push_number(&mut out, *i as u64);
            },
            DocumentError::NoEdgeValue(key) => {
                out.append("no edge has the attribute '");
                out.append(key.as_str());
                out.append("'");
            },
            DocumentError::NoPlan(reason) => {
                out.append(reason.as_str());
            },
        }
        assert(out@ =~= self.text());
        out
    }
}

/// Whether `count` may read a place of a document as a whole number.
pub open spec fn counts_as<W: Fn(&Node) -> Option<u32>>(
    document: Value,
    count: W,
    place: Seq<char>,
    r: Option<u32>,
) -> bool {
    if json::places(document).contains_key(place) {
        exists|node: Node|
            node@ == json::places(document)[place] && #[trigger] call_ensures(count, (&node,), r)
    } else {
        r is None
    }
}

/// Whether numbers are those of an attribute of the first nodes.
pub open spec fn counted<W: Fn(&Node) -> Option<u32>>(
    document: Value,
    count: W,
    name: Seq<char>,
    values: Seq<u32>,
) -> bool {
    forall|i: int|
        0 <= i < values.len() ==> counts_as(
            document,
            count,
            bendl::node_field(i as nat, name),
            Some(#[trigger] values[i]),
        )
}

fn read_counts<W: Fn(&Node) -> Option<u32>>(document: &Value, n: usize, name: &str, count: &W) -> (r:
    Result<Vec<u32>, DocumentError>)
    requires
        forall|node: &Node| #[trigger] call_requires(*count, (node,)),
    ensures
        match r {
            Ok(values) => values.len() == n && counted(*document, *count, name@, values@),
            Err(e) => e matches DocumentError::NoCount(key, i) && key@ == name@ && i < n
                && counts_as(*document, *count, bendl::node_field(i as nat, name@), None),
        },
{
    let mut values: Vec<u32> = Vec::new();
    let mut i: usize = 0;
    while i < n
        invariant
            i <= n,
            forall|node: &Node| #[trigger] call_requires(*count, (node,)),
            values.len() == i,
            counted(*document, *count, name@, values@),
        decreases n - i,
    {
        let place: String = bendl::field_pointer(i, name);
        let value: Option<u32> = match json::find(document, place.as_str()) {
            Some(node) => {
                let value: Option<u32> = count(&node);
                assert(call_ensures(*count, (&node,), value));
                value
            },
            None => None,
        };
        match value {
            Some(x) => {
                values.push(x);
            },
            None => {
                return Err(DocumentError::NoCount(name.to_string(), i));
            },
        }
        i += 1;
    }
    Ok(values)
}

/// A field of a place.
pub open spec fn field_of(place: Seq<char>, name: Seq<char>) -> Seq<char> {
    place + "/"@ + json::escaped(name)
}

fn field_pointer_of(place: &str, name: &str) -> (r: String)
    ensures
        r@ == field_of(place@, name@),
{
    let mut out: String = place.to_string();
    out.append("/");
    json::push_escaped(&mut out, name);
    out
}

/// The id of a node or of a neighbor: its JSON text.
pub open spec fn id_at(document: Value, place: Seq<char>) -> Seq<char> {
    if json::places(document).contains_key(field_of(place, "id"@)) {
        json::rendered(document)[field_of(place, "id"@)]
    } else {
        "null"@
    }
}

fn read_id(document: &Value, place: &str) -> (r: String)
    ensures
        r@ == id_at(*document, place@),
{
    let field: String = field_pointer_of(place, "id");
    match json::render(document, field.as_str()) {
        Some(id) => id,
        None => "null".to_string(),
    }
}

/// The ids of the first `n` nodes.
pub open spec fn node_ids(document: Value, n: nat) -> Seq<Seq<char>> {
    Seq::new(n, |i: int| id_at(document, json::item("/nodes"@, i as nat)))
}

/// The last place of an id in a list.
pub open spec fn place_of(ids: Seq<Seq<char>>, id: Seq<char>) -> Option<int>
    decreases ids.len(),
{
    if ids.len() == 0 {
        None
    } else if ids.last() == id {
        Some(ids.len() - 1)
    } else {
        place_of(ids.drop_last(), id)
    }
}

/// Whether a map leads from ids to their last places.
spec fn indexes(map: Map<Seq<char>, usize>, ids: Seq<Seq<char>>) -> bool {
    forall|id: Seq<char>|
        #![trigger map.contains_key(id)]
        #![trigger place_of(ids, id)]
        match place_of(ids, id) {
            Some(i) => map.contains_key(id) && map[id] == i && 0 <= i < ids.len(),
            None => !map.contains_key(id),
        }
}

fn index_ids(document: &Value, n: usize) -> (r: StringHashMap<usize>)
    ensures
        indexes(r@, node_ids(*document, n as nat)),
{
    let mut index: StringHashMap<usize> = StringHashMap::new();
    let mut i: usize = 0;
    while i < n
        invariant
            i <= n,
            indexes(index@, node_ids(*document, i as nat)),
        decreases n - i,
    {
        let place: String = json::item_pointer("/nodes", i);
        let id: String = read_id(document, place.as_str());
        let ghost before = index@;
        let ghost ids = node_ids(*document, i as nat);
        let ghost key = id@;
        index.insert(id, i);
        i += 1;
        proof {
            let more = node_ids(*document, i as nat);
            assert(more =~= ids.push(key));
            assert(more.drop_last() =~= ids);
            assert forall|x: Seq<char>|
                #![trigger index@.contains_key(x)]
                #![trigger place_of(more, x)]
                match place_of(more, x) {
                    Some(p) => index@.contains_key(x) && index@[x] == p && 0 <= p < more.len(),
                    None => !index@.contains_key(x),
                } by {
                assert(before.contains_key(x) || !before.contains_key(x));
                assert(match place_of(ids, x) {
                    Some(p) => before.contains_key(x) && before[x] == p && 0 <= p < ids.len(),
                    None => !before.contains_key(x),
                });
            }
        }
    }
    index
}

/// An entry in the neighbors of a node.
pub open spec fn entry(u: nat, k: nat) -> Seq<char> {
    json::item(json::item("/adjacency"@, u), k)
}

/// Whether a list holds the neighbors of a node.
pub open spec fn leads_from(document: Value, n: nat, u: nat, list: Seq<usize>) -> bool {
    &&& json::list_at(document, json::item("/adjacency"@, u)) == Some(list.len())
    &&& forall|k: int|
        0 <= k < list.len() ==> place_of(node_ids(document, n), id_at(document, entry(u, k as nat)))
            == Some((#[trigger] list[k]) as int)
}

/// Whether lists hold the neighbors of the nodes.
pub open spec fn leads(document: Value, n: nat, lists: Seq<Vec<usize>>) -> bool {
    forall|u: int|
        0 <= u < lists.len() ==> leads_from(document, n, u as nat, (#[trigger] lists[u])@)
}

fn read_list(document: &Value, n: usize, u: usize, index: &StringHashMap<usize>) -> (r: Result<
    Vec<usize>,
    DocumentError,
>)
    requires
        indexes(index@, node_ids(*document, n as nat)),
    ensures
        match r {
            Ok(list) => leads_from(*document, n as nat, u as nat, list@),
            Err(DocumentError::NoNeighbors(v)) => v == u && json::list_at(
                *document,
                json::item("/adjacency"@, u as nat),
            ) is None,
            Err(DocumentError::UnknownNeighbor(v, k)) => v == u && (json::list_at(
                *document,
                json::item("/adjacency"@, u as nat),
            ) matches Some(len) && k < len) && place_of(
                node_ids(*document, n as nat),
                id_at(*document, entry(u as nat, k as nat)),
            ) is None,
            Err(_) => false,
        },
{
    let row: String = json::item_pointer("/adjacency", u);
    let len: usize = match json::find_list(document, row.as_str()) {
        Some(len) => len,
        None => {
            return Err(DocumentError::NoNeighbors(u));
        },
    };
    let mut list: Vec<usize> = Vec::new();
    let mut k: usize = 0;
    while k < len
        invariant
            k <= len,
            row@ == json::item("/adjacency"@, u as nat),
            json::list_at(*document, row@) == Some(len as nat),
            indexes(index@, node_ids(*document, n as nat)),
            list.len() == k,
            forall|j: int|
                0 <= j < k ==> place_of(
                    node_ids(*document, n as nat),
                    id_at(*document, entry(u as nat, j as nat)),
                ) == Some((#[trigger] list[j]) as int),
        decreases len - k,
    {
        let place: String = json::item_pointer(row.as_str(), k);
        let id: String = read_id(document, place.as_str());
        assert(place@ == entry(u as nat, k as nat));
        match index.get(id.as_str()) {
            Some(v) => {
                assert(index@.contains_key(id@));
                list.push(*v);
            },
            None => {
                assert(!index@.contains_key(id@));
                assert(place_of(node_ids(*document, n as nat), id@) is None);
                return Err(DocumentError::UnknownNeighbor(u, k));
            },
        }
        k += 1;
    }
    Ok(list)
}

/// The text of a value in a column: a text as it is, other values as JSON.
pub open spec fn text_at(document: Value, place: Seq<char>) -> Seq<char> {
    match json::places(document)[place] {
        Leaf::Text(s) => s,
        _ => json::rendered(document)[place],
    }
}

/// The text of a value that counts as zero where it is missing or is no single
/// value.
pub open spec fn text_or_zero(document: Value, place: Seq<char>) -> Seq<char> {
    if json::places(document).contains_key(place) {
        match json::places(document)[place] {
            Leaf::Text(_) | Leaf::Number(_, _) | Leaf::Bool(_) => text_at(document, place),
            _ => "0"@,
        }
    } else {
        "0"@
    }
}

/// The text of a node's attribute.
pub open spec fn column_text(document: Value, i: nat, name: Seq<char>, partial: bool) -> Seq<char> {
    if partial {
        text_or_zero(document, bendl::node_field(i, name))
    } else {
        text_at(document, bendl::node_field(i, name))
    }
}

fn read_text(document: &Value, place: &str, partial: bool) -> (r: Option<String>)
    ensures
        partial ==> r is Some,
        !partial ==> (r is Some <==> json::places(*document).contains_key(place@)),
        r matches Some(text) ==> text@ == (if partial {
            text_or_zero(*document, place@)
        } else {
            text_at(*document, place@)
        }),
{
    match json::find(document, place) {
        None => {
            if partial {
                Some("0".to_string())
            } else {
                None
            }
        },
        Some(Node::Text(s)) => Some(s),
        Some(Node::Number(_, _)) => json::render(document, place),
        Some(Node::Bool(_)) => json::render(document, place),
        Some(_) => {
            if partial {
                Some("0".to_string())
            } else {
                json::render(document, place)
            }
        },
    }
}

fn read_column(document: &Value, n: usize, name: &str, partial: bool) -> (r: Result<
    Vec<String>,
    DocumentError,
>)
    ensures
        match r {
            Ok(values) => values.len() == n && forall|i: int|
                0 <= i < n ==> (#[trigger] values[i])@ == column_text(
                    *document,
                    i as nat,
                    name@,
                    partial,
                ),
            Err(e) => !partial && (e matches DocumentError::NoAttribute(key, i) && key@ == name@
                && i < n && !json::places(*document).contains_key(
                bendl::node_field(i as nat, name@),
            )),
        },
{
    let mut values: Vec<String> = Vec::new();
    let mut i: usize = 0;
    while i < n
        invariant
            i <= n,
            values.len() == i,
            forall|j: int|
                0 <= j < i ==> (#[trigger] values[j])@ == column_text(
                    *document,
                    j as nat,
                    name@,
                    partial,
                ),
        decreases n - i,
    {
        let place: String = bendl::field_pointer(i, name);
        match read_text(document, place.as_str(), partial) {
            Some(text) => {
                values.push(text);
            },
            None => {
                return Err(DocumentError::NoAttribute(name.to_string(), i));
            },
        }
        i += 1;
    }
    Ok(values)
}

/// The number that an entry of the neighbors of `u` gives to the edge between
/// two nodes, if it leads from one to the other and carries one.
pub open spec fn entry_value(
    document: Value,
    name: Seq<char>,
    lists: Seq<Vec<usize>>,
    u: int,
    k: int,
    e: Edge,
) -> Option<Double> {
    let v = lists[u][k] as int;
    let place = field_of(entry(u as nat, k as nat), name);
    if ((u == e.0 && v == e.1) || (u == e.1 && v == e.0)) && json::places(document).contains_key(
        place,
    ) {
        match json::places(document)[place] {
            Leaf::Number(_, x) => Some(x),
            _ => None,
        }
    } else {
        None
    }
}

/// The last number that the first `k` neighbors of `u` give to an edge.
pub open spec fn row_value(
    document: Value,
    name: Seq<char>,
    lists: Seq<Vec<usize>>,
    u: int,
    k: int,
    e: Edge,
) -> Option<Double>
    decreases k,
{
    if k <= 0 {
        None
    } else {
        match entry_value(document, name, lists, u, k - 1, e) {
            Some(x) => Some(x),
            None => row_value(document, name, lists, u, k - 1, e),
        }
    }
}

/// The last number that the neighbors of the first `u` nodes give to an edge.
pub open spec fn edge_value(
    document: Value,
    name: Seq<char>,
    lists: Seq<Vec<usize>>,
    u: int,
    e: Edge,
) -> Option<Double>
    decreases u,
{
    if u <= 0 {
        None
    } else {
        match row_value(document, name, lists, u - 1, lists[u - 1].len() as int, e) {
            Some(x) => Some(x),
            None => edge_value(document, name, lists, u - 1, e),
        }
    }
}

/// The last number so far: of the first `k` neighbors of `u`, or of the nodes
/// before.
spec fn value_upto(
    document: Value,
    name: Seq<char>,
    lists: Seq<Vec<usize>>,
    u: int,
    k: int,
    e: Edge,
) -> Option<Double> {
    match row_value(document, name, lists, u, k, e) {
        Some(x) => Some(x),
        None => edge_value(document, name, lists, u, e),
    }
}

spec fn or_zero(x: Option<Double>) -> Double {
    match x {
        Some(x) => x,
        None => double::zero(),
    }
}

/// Whether numbers are the values of an edge column, zero where an edge has
/// none.
pub open spec fn edge_column(
    document: Value,
    name: Seq<char>,
    graph: &Graph,
    values: Seq<Double>,
) -> bool {
    &&& values.len() == graph.edges@.len()
    &&& forall|e: int|
        0 <= e < values.len() ==> #[trigger] values[e] == (match edge_value(
            document,
            name,
            graph.neighbors@,
            graph.order() as int,
            graph.edges@[e],
        ) {
            Some(x) => x,
            None => double::zero(),
        })
}

/// Whether no edge has a value.
pub open spec fn no_edge_value(document: Value, name: Seq<char>, graph: &Graph) -> bool {
    forall|e: int|
        0 <= e < graph.edges@.len() ==> edge_value(
            document,
            name,
            graph.neighbors@,
            graph.order() as int,
            #[trigger] graph.edges@[e],
        ) is None
}

fn read_edges(document: &Value, graph: &Graph, name: &str) -> (r: Result<Vec<Double>, DocumentError>)
    requires
        graph.sound(),
    ensures
        match r {
            Ok(values) => edge_column(*document, name@, graph, values@) && (graph.edges@.len() > 0
                ==> !no_edge_value(*document, name@, graph)),
            Err(e) => e matches DocumentError::NoEdgeValue(key) && key@ == name@
                && graph.edges@.len() > 0 && no_edge_value(*document, name@, graph),
        },
{
    let n: usize = graph.pops.len();
    let m: usize = graph.edges.len();
    let ghost lists = graph.neighbors@;
    let ghost edges = graph.edges@;
    let mut values: Vec<Double> = Vec::new();
    let mut found: bool = false;
    let mut i: usize = 0;
    while i < m
        invariant
            i <= m,
            values.len() == i,
            forall|e: int| 0 <= e < i ==> #[trigger] values[e] == double::zero(),
        decreases m - i,
    {
        values.push(double::zero());
        i += 1;
    }
    let mut u: usize = 0;
    while u < n
        invariant
            u <= n,
            n == graph.order(),
            m == graph.edges@.len(),
            graph.sound(),
            lists == graph.neighbors@,
            edges == graph.edges@,
            values.len() == m,
            forall|e: int|
                0 <= e < m ==> #[trigger] values[e] == or_zero(
                    edge_value(*document, name@, lists, u as int, edges[e]),
                ),
            found <==> exists|e: int|
                0 <= e < m && edge_value(
                    *document,
                    name@,
                    lists,
                    u as int,
                    #[trigger] edges[e],
                ) is Some,
        decreases n - u,
    {
        let row: String = json::item_pointer("/adjacency", u);
        let len: usize = graph.neighbors[u].len();
        let mut k: usize = 0;
        proof {
            assert forall|e: int| 0 <= e < m implies value_upto(
                *document,
                name@,
                lists,
                u as int,
                0,
                #[trigger] edges[e],
            ) == edge_value(*document, name@, lists, u as int, edges[e]) by {}
        }
        while k < len
            invariant
                u < n,
                k <= len,
                len == lists[u as int].len(),
                n == graph.order(),
                m == graph.edges@.len(),
                graph.sound(),
                lists == graph.neighbors@,
                edges == graph.edges@,
                row@ == json::item("/adjacency"@, u as nat),
                values.len() == m,
                forall|e: int|
                    0 <= e < m ==> #[trigger] values[e] == or_zero(
                        value_upto(*document, name@, lists, u as int, k as int, edges[e]),
                    ),
                found <==> exists|e: int|
                    0 <= e < m && value_upto(
                        *document,
                        name@,
                        lists,
                        u as int,
                        k as int,
                        #[trigger] edges[e],
                    ) is Some,
            decreases len - k,
        {
            let v: usize = graph.neighbors[u][k];
            assert(lists[u as int]@.contains(lists[u as int]@[k as int]));
            let (low, high): (usize, usize) = if u < v {
                (u, v)
            } else {
                (v, u)
            };
            let item: String = json::item_pointer(row.as_str(), k);
            let place: String = field_pointer_of(item.as_str(), name);
            let number: Option<Double> = match json::find(document, place.as_str()) {
                Some(Node::Number(_, x)) => Some(x),
                _ => None,
            };
            let ghost before = values@;
            let ghost found_before = found;
            let at: Option<usize> = graph.find_edge(low, high);
            if let (Some(x), Some(e)) = (number, at) {
                values.set(e, x);
                found = true;
            }
            proof {
                assert forall|e: int| 0 <= e < m implies (#[trigger] entry_value(
                    *document,
                    name@,
                    lists,
                    u as int,
                    k as int,
                    edges[e],
                )) == (if at == Some(e as usize) {
                    number
                } else {
                    None
                }) by {
                    let edge = edges[e];
                    assert(edge.0 < edge.1);
                    if let Some(p) = at {
                        assert(edges[p as int] == Edge(low, high));
                        if p < e {
                            assert(edges[p as int].0 < edges[e].0 || (edges[p as int].0
                                == edges[e].0 && edges[p as int].1 < edges[e].1));
                        }
                        if e < p {
                            assert(edges[e].0 < edges[p as int].0 || (edges[e].0
                                == edges[p as int].0 && edges[e].1 < edges[p as int].1));
                        }
                    } else {
                        if edge == Edge(low, high) {
                            assert(edges.contains(edges[e]));
                        }
                    }
                }
                assert forall|e: int| 0 <= e < m implies #[trigger] values[e] == or_zero(
                    value_upto(*document, name@, lists, u as int, k + 1, edges[e]),
                ) by {
                    let now = entry_value(*document, name@, lists, u as int, k as int, edges[e]);
                    assert(before[e] == or_zero(
                        value_upto(*document, name@, lists, u as int, k as int, edges[e]),
                    ));
                }
                if exists|e: int|
                    0 <= e < m && value_upto(
                        *document,
                        name@,
                        lists,
                        u as int,
                        k + 1,
                        #[trigger] edges[e],
                    ) is Some {
                    let e = choose|e: int|
                        0 <= e < m && value_upto(
                            *document,
                            name@,
                            lists,
                            u as int,
                            k + 1,
                            #[trigger] edges[e],
                        ) is Some;
                    let now = entry_value(*document, name@, lists, u as int, k as int, edges[e]);
                    if now is None {
                        assert(value_upto(
                            *document,
                            name@,
                            lists,
                            u as int,
                            k as int,
                            edges[e],
                        ) is Some);
                    }
                }
                if found {
                    if found_before {
                        let e = choose|e: int|
                            0 <= e < m && value_upto(
                                *document,
                                name@,
                                lists,
                                u as int,
                                k as int,
                                #[trigger] edges[e],
                            ) is Some;
                        let now = entry_value(
                            *document,
                            name@,
                            lists,
                            u as int,
                            k as int,
                            edges[e],
                        );
                        assert(value_upto(
                            *document,
                            name@,
                            lists,
                            u as int,
                            k + 1,
                            edges[e],
                        ) is Some);
                    } else {
                        let e = at->0 as int;
                        let now = entry_value(
                            *document,
                            name@,
                            lists,
                            u as int,
                            k as int,
                            edges[e],
                        );
                        assert(value_upto(
                            *document,
                            name@,
                            lists,
                            u as int,
                            k + 1,
                            edges[e],
                        ) is Some);
                    }
                }
            }
            k += 1;
        }
        proof {
            assert forall|e: int| 0 <= e < m implies value_upto(
                *document,
                name@,
                lists,
                u as int,
                len as int,
                #[trigger] edges[e],
            ) == edge_value(*document, name@, lists, u + 1, edges[e]) by {}
        }
        u += 1;
    }
    if !found && m > 0 {
        return Err(DocumentError::NoEdgeValue(name.to_string()));
    }
    Ok(values)
}

/// Whether a name is among others.
pub open spec fn named(names: Seq<String>, name: Seq<char>) -> bool {
    exists|j: int| 0 <= j < names.len() && (#[trigger] names[j])@ == name
}

proof fn named_once_more(names: Seq<String>, k: int)
    requires
        0 <= k < names.len(),
    ensures
        forall|name: Seq<char>| #[trigger]
            named(names.take(k + 1), name) <==> named(names.take(k), name) || names[k]@ == name,
{
    assert forall|name: Seq<char>| #[trigger]
        named(names.take(k + 1), name) <==> named(names.take(k), name) || names[k]@ == name by {
        if named(names.take(k + 1), name) {
            let j = choose|j: int|
                0 <= j < names.take(k + 1).len() && (#[trigger] names.take(k + 1)[j])@ == name;
            if j < k {
                assert(names.take(k)[j]@ == name);
            }
        }
        if named(names.take(k), name) {
            let j = choose|j: int|
                0 <= j < names.take(k).len() && (#[trigger] names.take(k)[j])@ == name;
            assert(names.take(k + 1)[j]@ == name);
        }
        if names[k]@ == name {
            assert(names.take(k + 1)[k]@ == name);
        }
    }
}

/// Whether texts are a column of a document.
pub open spec fn text_column(
    document: Value,
    n: nat,
    name: Seq<char>,
    partial: bool,
    values: Seq<String>,
) -> bool {
    values.len() == n && forall|i: int|
        0 <= i < n ==> (#[trigger] values[i])@ == column_text(document, i as nat, name, partial)
}

/// Whether columns hold those of a document beside, and in place of, the
/// columns before.
spec fn texts_added(
    document: Value,
    n: nat,
    names: Seq<String>,
    partial: bool,
    before: Map<Seq<char>, Seq<String>>,
    after: Map<Seq<char>, Seq<String>>,
) -> bool {
    forall|name: Seq<char>|
        #![trigger after.contains_key(name)]
        #![trigger named(names, name)]
        if named(names, name) {
            after.contains_key(name) && text_column(document, n, name, partial, after[name])
        } else {
            after.contains_key(name) == before.contains_key(name) && (before.contains_key(name)
                ==> after[name] == before[name])
        }
}

fn read_texts(
    document: &Value,
    n: usize,
    names: &Vec<String>,
    partial: bool,
    attr: &mut Columns<String>,
) -> (r: Result<(), DocumentError>)
    requires
        old(attr).valid(),
    ensures
        final(attr).valid(),
        match r {
            Ok(_) => texts_added(*document, n as nat, names@, partial, old(attr)@, final(attr)@),
            Err(e) => !partial && (e matches DocumentError::NoAttribute(key, i) && named(
                names@,
                key@,
            ) && i < n && !json::places(*document).contains_key(
                bendl::node_field(i as nat, key@),
            )),
        },
{
    let ghost before = attr@;
    let mut k: usize = 0;
    while k < names.len()
        invariant
            k <= names.len(),
            attr.valid(),
            texts_added(*document, n as nat, names@.take(k as int), partial, before, attr@),
        decreases names.len() - k,
    {
        let name: &String = &names[k];
        let values: Vec<String> = match read_column(document, n, name.as_str(), partial) {
            Ok(values) => values,
            Err(e) => {
                assert(named(names@, names[k as int]@));
                return Err(e);
            },
        };
        let ghost held = attr@;
        let ghost list = values@;
        attr.insert(name.as_str().to_string(), values);
        proof {
            named_once_more(names@, k as int);
            assert(text_column(*document, n as nat, name@, partial, list));
            assert forall|other: Seq<char>|
                #![trigger attr@.contains_key(other)]
                #![trigger named(names@.take(k + 1), other)]
                if named(names@.take(k + 1), other) {
                    attr@.contains_key(other) && text_column(
                        *document,
                        n as nat,
                        other,
                        partial,
                        attr@[other],
                    )
                } else {
                    attr@.contains_key(other) == before.contains_key(other)
                        && (before.contains_key(other) ==> attr@[other] == before[other])
                } by {
                assert(named(names@.take(k + 1), other) <==> named(names@.take(k as int), other)
                    || name@ == other);
                assert(held.contains_key(other) || !held.contains_key(other));
            }
        }
        k += 1;
    }
    assert(names@.take(k as int) =~= names@);
    Ok(())
}

/// Whether the text columns of a graph are those of a document. A column that
/// may be missing stands in place of one of the same name that may not.
pub open spec fn texts_read(document: Value, columns: &GraphColumns, graph: &Graph) -> bool {
    forall|name: Seq<char>|
        #![trigger graph.attr@.contains_key(name)]
        {
            &&& graph.attr@.contains_key(name) <==> named(columns.whole@, name) || named(
                columns.partial@,
                name,
            )
            &&& graph.attr@.contains_key(name) ==> text_column(
                document,
                graph.order(),
                name,
                named(columns.partial@, name),
                graph.attr@[name],
            )
        }
}

/// Whether columns are the named edge columns of a document.
pub open spec fn edges_read(
    document: Value,
    graph: &Graph,
    names: Seq<String>,
    columns: Map<Seq<char>, Seq<Double>>,
) -> bool {
    forall|name: Seq<char>|
        #![trigger columns.contains_key(name)]
        #![trigger named(names, name)]
        {
            &&& columns.contains_key(name) <==> named(names, name)
            &&& columns.contains_key(name) ==> edge_column(document, name, graph, columns[name])
        }
}

fn read_edge_columns(document: &Value, graph: &Graph, names: &Vec<String>) -> (r: Result<
    Columns<Double>,
    DocumentError,
>)
    requires
        graph.sound(),
    ensures
        match r {
            Ok(columns) => columns.valid() && edges_read(*document, graph, names@, columns@),
            Err(e) => e matches DocumentError::NoEdgeValue(key) && named(names@, key@)
                && graph.edges@.len() > 0 && no_edge_value(*document, key@, graph),
        },
{
    let mut columns: Columns<Double> = Columns::new();
    let mut k: usize = 0;
    while k < names.len()
        invariant
            k <= names.len(),
            graph.sound(),
            columns.valid(),
            edges_read(*document, graph, names@.take(k as int), columns@),
        decreases names.len() - k,
    {
        let name: &String = &names[k];
        let values: Vec<Double> = match read_edges(document, graph, name.as_str()) {
            Ok(values) => values,
            Err(e) => {
                assert(named(names@, names[k as int]@));
                return Err(e);
            },
        };
        let ghost held = columns@;
        columns.insert(name.as_str().to_string(), values);
        proof {
            named_once_more(names@, k as int);
            assert forall|other: Seq<char>|
                #![trigger columns@.contains_key(other)]
                #![trigger named(names@.take(k + 1), other)]
                (columns@.contains_key(other) <==> named(names@.take(k + 1), other)) && (
                columns@.contains_key(other) ==> edge_column(
                    *document,
                    other,
                    graph,
                    columns@[other],
                )) by {
                assert(named(names@.take(k + 1), other) <==> named(names@.take(k as int), other)
                    || name@ == other);
                assert(held.contains_key(other) || !held.contains_key(other));
            }
        }
        k += 1;
    }
    assert(names@.take(k as int) =~= names@);
    Ok(columns)
}

/// Whether a graph has the populations, the neighbors and the edges of a
/// document.
pub open spec fn laid_out<W: Fn(&Node) -> Option<u32>>(
    document: Value,
    columns: &GraphColumns,
    count: W,
    graph: &Graph,
) -> bool {
    &&& graph.sound()
    &&& json::list_at(document, "/nodes"@) == Some(graph.order())
    &&& json::list_at(document, "/adjacency"@) == Some(graph.order())
    &&& counted(document, count, columns.population@, graph.pops@)
    &&& leads(document, graph.order(), graph.neighbors@)
    &&& forall|u: usize, v: usize| #[trigger]
        graph.edges@.contains(Edge(u, v)) <==> graph::lists_upward(graph.neighbors@, u, v)
}

/// Whether a graph and a plan are those of a document.
pub open spec fn built<W: Fn(&Node) -> Option<u32>>(
    document: Value,
    columns: &GraphColumns,
    count: W,
    graph: &Graph,
    plan: Plan,
) -> bool {
    &&& laid_out(document, columns, count, graph)
    &&& texts_read(document, columns, graph)
    &&& edges_read(document, graph, columns.edges@, graph.edge_attr@)
    &&& graph.int_attr@ == Map::<Seq<char>, Seq<i32>>::empty()
    &&& graph.float_attr@ == Map::<Seq<char>, Seq<Double>>::empty()
    &&& exists|labels: Seq<u32>| #[trigger]
        counted(document, count, columns.assignment@, labels) && assignments::refusal(graph, labels)
            is None && assignments::assigned(graph, labels, plan)
}

/// Whether an error tells why a document makes no graph and plan.
pub open spec fn unbuilt<W: Fn(&Node) -> Option<u32>>(
    document: Value,
    columns: &GraphColumns,
    count: W,
    e: DocumentError,
) -> bool {
    match e {
        DocumentError::NoList(key) => {
            ||| key@ == "nodes"@ && json::list_at(document, "/nodes"@) is None
            ||| key@ == "adjacency"@ && json::list_at(document, "/adjacency"@) is None
        },
        DocumentError::NoCount(key, i) => {
            &&& key@ == columns.population@ || key@ == columns.assignment@
            &&& json::list_at(document, "/nodes"@) matches Some(n) && i < n
            &&& counts_as(document, count, bendl::node_field(i as nat, key@), None)
        },
        DocumentError::NoNeighbors(u) => {
            &&& json::list_at(document, "/adjacency"@) matches Some(m) && u < m
            &&& json::list_at(document, json::item("/adjacency"@, u as nat)) is None
        },
        DocumentError::UnknownNeighbor(u, k) => {
            &&& json::list_at(document, json::item("/adjacency"@, u as nat)) matches Some(m) && k
                < m
            &&& json::list_at(document, "/nodes"@) matches Some(n) && place_of(
                node_ids(document, n),
                id_at(document, entry(u as nat, k as nat)),
            ) is None
        },
        DocumentError::NoGraph => json::list_at(document, "/nodes"@) matches Some(n) && {
            ||| json::list_at(document, "/adjacency"@) != Some(n)
            ||| n > u32::MAX
            ||| exists|pops: Seq<u32>| #[trigger]
                counted(document, count, columns.population@, pops) && pops.len() == n
                    && graph::population(pops) > u32::MAX
        },
        DocumentError::NoAttribute(key, i) => {
            &&& named(columns.whole@, key@)
            &&& json::list_at(document, "/nodes"@) matches Some(n) && i < n
            &&& !json::places(document).contains_key(bendl::node_field(i as nat, key@))
        },
        DocumentError::NoEdgeValue(key) => {
            &&& named(columns.edges@, key@)
            &&& exists|graph: Graph| #[trigger]
                laid_out(document, columns, count, &graph) && graph.edges@.len() > 0
                    && no_edge_value(document, key@, &graph)
        },
        DocumentError::NoPlan(reason) => exists|graph: Graph, labels: Seq<u32>|
            {
                &&& #[trigger] laid_out(document, columns, count, &graph)
                &&& #[trigger] counted(document, count, columns.assignment@, labels)
                &&& labels.len() == graph.order()
                &&& assignments::refusal(&graph, labels) == Some(reason@)
            },
    }
}

/// The neighbors of the nodes.
fn read_neighbors(document: &Value, n: usize, m: usize) -> (r: Result<Vec<Vec<usize>>, DocumentError>)
    ensures
        match r {
            Ok(lists) => lists.len() == m && leads(*document, n as nat, lists@),
            Err(DocumentError::NoNeighbors(u)) => u < m && json::list_at(
                *document,
                json::item("/adjacency"@, u as nat),
            ) is None,
            Err(DocumentError::UnknownNeighbor(u, k)) => (json::list_at(
                *document,
                json::item("/adjacency"@, u as nat),
            ) matches Some(len) && k < len) && place_of(
                node_ids(*document, n as nat),
                id_at(*document, entry(u as nat, k as nat)),
            ) is None,
            Err(_) => false,
        },
{
    let index: StringHashMap<usize> = index_ids(document, n);
    let mut lists: Vec<Vec<usize>> = Vec::new();
    let mut u: usize = 0;
    while u < m
        invariant
            u <= m,
            indexes(index@, node_ids(*document, n as nat)),
            lists.len() == u,
            leads(*document, n as nat, lists@),
        decreases m - u,
    {
        match read_list(document, n, u, &index) {
            Ok(list) => {
                lists.push(list);
            },
            Err(e) => {
                return Err(e);
            },
        }
        u += 1;
    }
    Ok(lists)
}

/// The places that ids lead to are nodes.
proof fn places_are_nodes(ids: Seq<Seq<char>>, id: Seq<char>)
    ensures
        place_of(ids, id) matches Some(i) ==> 0 <= i < ids.len(),
    decreases ids.len(),
{
    if ids.len() > 0 && ids.last() != id {
        places_are_nodes(ids.drop_last(), id);
    }
}

proof fn neighbors_are_nodes(document: Value, n: nat, lists: Seq<Vec<usize>>)
    requires
        leads(document, n, lists),
    ensures
        graph::neighbors_within(lists, n as int),
{
    assert forall|u: int, v: usize|
        0 <= u < lists.len() && #[trigger] lists[u]@.contains(v) implies v < n by {
        let k = choose|k: int| 0 <= k < lists[u]@.len() && lists[u]@[k] == v;
        assert(leads_from(document, n, u as nat, lists[u]@));
        places_are_nodes(node_ids(document, n), id_at(document, entry(u as nat, k as nat)));
    }
}

/// The graph and the plan of a document. Nodes are known by the JSON text of
/// their ids; `count` reads a whole number.
pub fn from_networkx_value<W: Fn(&Node) -> Option<u32>>(
    document: &Value,
    columns: &GraphColumns,
    count: &W,
) -> (r: Result<(Graph, Partition), DocumentError>)
    requires
        forall|node: &Node| #[trigger] call_requires(*count, (node,)),
    ensures
        match r {
            Ok((graph, partition)) => built(*document, columns, *count, &graph, partition@)
                && partition@.valid(),
            Err(e) => unbuilt(*document, columns, *count, e),
        },
{
    let n: usize = match json::find_list(document, "/nodes") {
        Some(n) => n,
        None => {
            return Err(DocumentError::NoList("nodes".to_string()));
        },
    };
    let m: usize = match json::find_list(document, "/adjacency") {
        Some(m) => m,
        None => {
            return Err(DocumentError::NoList("adjacency".to_string()));
        },
    };
    let pops: Vec<u32> = match read_counts(document, n, columns.population.as_str(), count) {
        Ok(pops) => pops,
        Err(e) => {
            return Err(e);
        },
    };
    let labels: Vec<u32> = match read_counts(document, n, columns.assignment.as_str(), count) {
        Ok(labels) => labels,
        Err(e) => {
            return Err(e);
        },
    };
    let neighbors: Vec<Vec<usize>> = match read_neighbors(document, n, m) {
        Ok(neighbors) => neighbors,
        Err(e) => {
            return Err(e);
        },
    };
    proof {
        neighbors_are_nodes(*document, n as nat, neighbors@);
    }
    let ghost counts = pops@;
    let mut graph: Graph = match Graph::from_adjacency(pops, neighbors) {
        Some(graph) => graph,
        None => {
            assert(counted(*document, *count, columns.population@, counts));
            return Err(DocumentError::NoGraph);
        },
    };
    assert(laid_out(*document, columns, *count, &graph));
    let mut attr: Columns<String> = Columns::new();
    if let Err(e) = read_texts(document, n, &columns.whole, false, &mut attr) {
        return Err(e);
    }
    let ghost whole = attr@;
    if let Err(e) = read_texts(document, n, &columns.partial, true, &mut attr) {
        return Err(e);
    }
    let edge_attr: Columns<Double> = match read_edge_columns(document, &graph, &columns.edges) {
        Ok(edge_attr) => edge_attr,
        Err(e) => {
            return Err(e);
        },
    };
    let partition: Partition = match Partition::from_assignments(&graph, &labels) {
        Ok(partition) => partition,
        Err(reason) => {
            assert(counted(*document, *count, columns.assignment@, labels@));
            return Err(DocumentError::NoPlan(reason));
        },
    };
    let ghost plain = graph;
    graph.attr = attr;
    graph.edge_attr = edge_attr;
    proof {
        assert(texts_read(*document, columns, &graph)) by {
            assert forall|name: Seq<char>| #[trigger] graph.attr@.contains_key(name) implies named(
                columns.whole@,
                name,
            ) || named(columns.partial@, name) by {
                assert(whole.contains_key(name) || !whole.contains_key(name));
            }
            assert forall|name: Seq<char>|
                #![trigger graph.attr@.contains_key(name)]
                {
                    &&& graph.attr@.contains_key(name) <==> named(columns.whole@, name) || named(
                        columns.partial@,
                        name,
                    )
                    &&& graph.attr@.contains_key(name) ==> text_column(
                        *document,
                        graph.order(),
                        name,
                        named(columns.partial@, name),
                        graph.attr@[name],
                    )
                } by {
                assert(whole.contains_key(name) || !whole.contains_key(name));
            }
        }
        assert(edges_read(*document, &graph, columns.edges@, graph.edge_attr@)) by {
            assert forall|name: Seq<char>|
                #![trigger graph.edge_attr@.contains_key(name)]
                #![trigger named(columns.edges@, name)]
                {
                    &&& graph.edge_attr@.contains_key(name) <==> named(columns.edges@, name)
                    &&& graph.edge_attr@.contains_key(name) ==> edge_column(
                        *document,
                        name,
                        &graph,
                        graph.edge_attr@[name],
                    )
                } by {
                assert(graph.edge_attr@.contains_key(name) ==> edge_column(
                    *document,
                    name,
                    &plain,
                    graph.edge_attr@[name],
                ));
            }
        }
        assert(counted(*document, *count, columns.assignment@, labels@));
        assert(assignments::assigned(&graph, labels@, partition@));
    }
    Ok((graph, partition))
}

} // verus!
