//! Reordering of the graph that a bundle embeds. The chain runs on the
//! reordered graph, so plans line up with the embedded nodes.

use binary_ensemble::json::graph::{
    sort_json_file_by_key, sort_json_file_by_ordering, GraphOrderingMethod,
};
use serde_json::Value;
use vstd::prelude::*;
use crate::json::{Leaf, Node};
use crate::numerals::Reading;
use crate::{columns, json, numerals, text};

verus! {

/// The order of the nodes of the embedded graph.
#[derive(Clone, Debug, PartialEq, Eq)]
pub enum BendlGraphOrder {
    /// The embedded graph is the input verbatim.
    Verbatim,
    /// The reverse Cuthill-McKee order.
    Rcm,
    /// The multilevel cluster order.
    Mlc,
    /// The order of a node attribute.
    Key(String),
}

/// The contents of an order.
pub enum NodeOrder {
    Verbatim,
    Rcm,
    Mlc,
    Key(Seq<char>),
}

impl View for BendlGraphOrder {
    type V = NodeOrder;

    open spec fn view(&self) -> NodeOrder {
        match self {
            BendlGraphOrder::Verbatim => NodeOrder::Verbatim,
            BendlGraphOrder::Rcm => NodeOrder::Rcm,
            BendlGraphOrder::Mlc => NodeOrder::Mlc,
            BendlGraphOrder::Key(attr) => NodeOrder::Key(attr@),
        }
    }
}

/// The label of an order.
pub open spec fn label_of(order: NodeOrder) -> Seq<char> {
    match order {
        NodeOrder::Verbatim => "none"@,
        NodeOrder::Rcm => "rcm"@,
        NodeOrder::Mlc => "mlc"@,
        NodeOrder::Key(attr) => "key:"@ + attr,
    }
}

/// What is said of a text that is no order.
pub open spec fn order_error(value: Seq<char>) -> Seq<char> {
    if value == "key:"@ {
        "--bendl-graph-order 'key:' requires an attribute name, e.g. 'key:GEOID'"@
    } else {
        "invalid --bendl-graph-order '"@ + value + "': expected one of none, rcm, mlc, key:<attr>"@
    }
}

/// Whether a text asks for an order.
pub open spec fn asks_for_order(value: Seq<char>) -> bool {
    exists|order: NodeOrder| #[trigger] label_of(order) == value && is_order(order)
}

/// Whether an order can be asked for: a key has a name.
pub open spec fn is_order(order: NodeOrder) -> bool {
    order matches NodeOrder::Key(attr) ==> attr.len() > 0
}

/// Reading a label gives back its order: a text is the label of one order at
/// most.
pub proof fn labels_tell_orders_apart(a: NodeOrder, b: NodeOrder)
    requires
        label_of(a) == label_of(b),
    ensures
        a == b,
{
    reveal_strlit("none");
    reveal_strlit("rcm");
    reveal_strlit("mlc");
    reveal_strlit("key:");
    assert("none"@[0] == 'n' && "rcm"@[0] == 'r' && "mlc"@[0] == 'm' && "key:"@[0] == 'k');
    assert(label_of(a)[0] == label_of(b)[0]);
    assert(a matches NodeOrder::Key(x) ==> label_of(a)[0] == 'k');
    assert(b matches NodeOrder::Key(x) ==> label_of(b)[0] == 'k');
    match (a, b) {
        (NodeOrder::Key(x), NodeOrder::Key(y)) => {
            assert(label_of(a).skip(4) =~= x);
            assert(label_of(b).skip(4) =~= y);
        },
        _ => {},
    }
}

impl BendlGraphOrder {
    /// Reads an order: `none`, `rcm`, `mlc` or `key:` and an attribute.
    pub fn parse(value: &str) -> (r: Result<BendlGraphOrder, String>)
        ensures
            r is Ok <==> asks_for_order(value@),
            r matches Ok(order) ==> label_of(order@) == value@ && is_order(order@),
            r matches Err(message) ==> message@ == order_error(value@),
    {
        proof {
            reveal_strlit("none");
            reveal_strlit("rcm");
            reveal_strlit("mlc");
            reveal_strlit("key:");
        }
        if columns::str_eq(value, "none") {
            assert(label_of(NodeOrder::Verbatim) == value@);
            return Ok(BendlGraphOrder::Verbatim);
        }
        if columns::str_eq(value, "rcm") {
            assert(label_of(NodeOrder::Rcm) == value@);
            return Ok(BendlGraphOrder::Rcm);
        }
        if columns::str_eq(value, "mlc") {
            assert(label_of(NodeOrder::Mlc) == value@);
            return Ok(BendlGraphOrder::Mlc);
        }
        let n: usize = value.unicode_len();
        if n >= 4 && columns::str_eq(value.substring_char(0, 4), "key:") {
            if n == 4 {
                assert(value@ =~= "key:"@);
                return Err(
                    "--bendl-graph-order 'key:' requires an attribute name, e.g. 'key:GEOID'".to_string(),
                );
            }
            let attr: String = value.substring_char(4, n).to_string();
            proof {
                assert(value@ =~= "key:"@ + attr@);
                assert(label_of(NodeOrder::Key(attr@)) == value@);
            }
            return Ok(BendlGraphOrder::Key(attr));
        }
        proof {
            assert forall|order: NodeOrder| #[trigger] label_of(order) == value@ implies false by {
                if let NodeOrder::Key(attr) = order {
                    assert(value@.subrange(0, 4) =~= "key:"@);
                }
            }
            if value@ == "key:"@ {
                assert(value@.subrange(0, 4) =~= "key:"@);
            }
        }
        let mut out: String = "invalid --bendl-graph-order '".to_string();
        out.append(value);
        out.append("': expected one of none, rcm, mlc, key:<attr>");
        Err(out)
    }

    /// Whether no reordering is asked for.
    pub fn is_none(&self) -> (r: bool)
        ensures
            r == (self@ is Verbatim),
    {
        match self {
            BendlGraphOrder::Verbatim => true,
            _ => false,
        }
    }

    /// The label of the order.
    pub fn label(&self) -> (r: String)
        ensures
            r@ == label_of(self@),
    {
        match self {
            BendlGraphOrder::Verbatim => "none".to_string(),
            BendlGraphOrder::Rcm => "rcm".to_string(),
            BendlGraphOrder::Mlc => "mlc".to_string(),
            BendlGraphOrder::Key(attr) => {
                let mut out: String = "key:".to_string();
                out.append(attr.as_str());
                out
            },
        }
    }
}

/// Why a graph could not be reordered.
#[derive(Debug, PartialEq, Eq)]
pub enum ReorderError {
    /// The graph is no JSON document.
    NotJson(String),
    /// The document has no list of nodes.
    NoNodes,
    /// A node lacks the attribute to sort by.
    MissingKey(String, usize),
    /// The graph could not be sorted.
    Unsorted(String),
}

impl ReorderError {
    /// The message of an error.
    pub open spec fn text(self) -> Seq<char> {
        match self {
            ReorderError::NotJson(reason) => reason@,
            ReorderError::NoNodes => "graph JSON has no 'nodes' array to reorder"@,
            ReorderError::MissingKey(attr, index) => "--bendl-graph-order 'key:"@ + attr@
                + "' requires attribute '"@ + attr@ + "' on every node, but node "@ + text::decimal(
                index as nat,
            ) + " is missing it"@,
            ReorderError::Unsorted(reason) => reason@,
        }
    }

    /// The message of an error.
    pub fn message(&self) -> (r: String)
        ensures
            r@ == self.text(),
    {
        match self {
            ReorderError::NotJson(reason) => reason.as_str().to_string(),
            ReorderError::NoNodes => "graph JSON has no 'nodes' array to reorder".to_string(),
            ReorderError::MissingKey(attr, index) => {
                let mut out: String = "--bendl-graph-order 'key:".to_string();
                out.append(attr.as_str());
                out.append("' requires attribute '");
                out.append(attr.as_str());
                out.append("' on every node, but node ");
                text::push_number(&mut out, *index as u64);
                out.append(" is missing it");
                out
            },
            ReorderError::Unsorted(reason) => reason.as_str().to_string(),
        }
    }
}

/// The pointer to an attribute of a node.
pub open spec fn node_field(i: nat, attr: Seq<char>) -> Seq<char> {
    json::item("/nodes"@, i) + "/"@ + json::escaped(attr)
}

/// The number of nodes of a document, if it has a list of nodes.
pub open spec fn node_count(places: Map<Seq<char>, Leaf>) -> Option<nat> {
    if places.contains_key("/nodes"@) {
        match places["/nodes"@] {
            Leaf::List(n) => Some(n),
            _ => None,
        }
    } else {
        None
    }
}

/// Whether a node is an object that carries an attribute.
pub open spec fn carries(places: Map<Seq<char>, Leaf>, i: nat, attr: Seq<char>) -> bool {
    &&& places.contains_key(json::item("/nodes"@, i))
    &&& places[json::item("/nodes"@, i)] is Object
    &&& places.contains_key(node_field(i, attr))
}

/// What is wrong with sorting a graph by an attribute, if anything is.
pub open spec fn key_outcome(
    places: Option<Map<Seq<char>, Leaf>>,
    attr: Seq<char>,
    r: Result<(), ReorderError>,
) -> bool {
    match places {
        None => r matches Err(ReorderError::NotJson(_)),
        Some(places) => match node_count(places) {
            None => r matches Err(ReorderError::NoNodes),
            Some(n) => match r {
                Ok(()) => forall|i: nat| i < n ==> #[trigger] carries(places, i, attr),
                Err(ReorderError::MissingKey(key, index)) => {
                    &&& key@ == attr
                    &&& index < n
                    &&& !carries(places, index as nat, attr)
                    &&& forall|i: nat| i < index ==> #[trigger] carries(places, i, attr)
                },
                Err(_) => false,
            },
        },
    }
}

pub(crate) fn field_pointer(i: usize, attr: &str) -> (r: String)
    ensures
        r@ == node_field(i as nat, attr@),
{
    let mut out: String = json::item_pointer("/nodes", i);
    out.append("/");
    json::push_escaped(&mut out, attr);
    out
}

/// Checks that every node of a graph carries an attribute.
pub fn prevalidate_key(graph_bytes: &Vec<u8>, attr: &str) -> (r: Result<(), ReorderError>)
    ensures
        key_outcome(json::sliced_places(graph_bytes@), attr@, r),
{
    let document: Value = match json::parse_bytes(graph_bytes) {
        Ok(document) => document,
        Err(reason) => {
            return Err(ReorderError::NotJson(reason));
        },
    };
    let ghost places = json::places(document);
    let n: usize = match json::find_list(&document, "/nodes") {
        Some(n) => n,
        None => {
            return Err(ReorderError::NoNodes);
        },
    };
    let mut i: usize = 0;
    while i < n
        invariant
            i <= n,
            places == json::places(document),
            json::sliced_places(graph_bytes@) == Some(places),
            node_count(places) == Some(n as nat),
            forall|j: nat| j < i ==> #[trigger] carries(places, j, attr@),
        decreases n - i,
    {
        let node: String = json::item_pointer("/nodes", i);
        let is_object: bool = match json::find(&document, node.as_str()) {
            Some(Node::Object(_)) => true,
            _ => false,
        };
        let field: String = field_pointer(i, attr);
        if !is_object || json::find(&document, field.as_str()).is_none() {
            assert(!carries(places, i as nat, attr@));
            return Err(ReorderError::MissingKey(attr.to_string(), i));
        }
        i += 1;
        assert(carries(places, (i - 1) as nat, attr@));
    }
    Ok(())
}

/// The attribute whose values are compared to sort by a key: one name stands
/// for the node id.
pub open spec fn sorted_field(key: Seq<char>) -> Seq<char> {
    if key == "__networkx_id__"@ {
        "id"@
    } else {
        key
    }
}

/// How a value is compared: as a number or by its text.
pub open spec fn value_reading(places: Map<Seq<char>, Leaf>, i: nat, attr: Seq<char>) -> Reading {
    let place = node_field(i, attr);
    if places.contains_key(place) {
        match places[place] {
            Leaf::Number(_, _) => Reading::Number,
            Leaf::Text(s) => numerals::reading(s),
            _ => Reading::Word,
        }
    } else {
        Reading::Word
    }
}

/// Whether the values of an attribute can be ordered: all are numbers, or all
/// are compared by their text.
pub open spec fn comparable(places: Map<Seq<char>, Leaf>, attr: Seq<char>) -> bool {
    node_count(places) matches Some(n) ==> {
        ||| forall|i: nat| i < n ==> #[trigger] value_reading(places, i, attr) is Number
        ||| forall|i: nat| i < n ==> #[trigger] value_reading(places, i, attr) is Word
    }
}

/// Whether a document may be read as a directed graph: it says so, or it is a
/// list whose first item may say so.
pub open spec fn directed(places: Map<Seq<char>, Leaf>) -> bool {
    ||| places.contains_key("/directed"@) && places["/directed"@] == Leaf::Bool(true)
    ||| places.contains_key(""@) && places[""@] is List
}

/// Whether a document's nodes and edges can be numbered by 32 bits: each takes
/// eight bytes or more.
pub open spec fn numbered(bytes: Seq<u8>) -> bool {
    bytes.len() < 8 * u32::MAX
}

/// The document that `binary_ensemble::json::graph::sort_json_file_by_key`
/// writes for a graph and an attribute, if it writes one.
pub uninterp spec fn sorted_by_key(bytes: Seq<u8>, key: Seq<char>) -> Option<Seq<u8>>;

/// Calls `sort_json_file_by_key` of `binary_ensemble::json::graph`. What it
/// writes depends on the bytes and the attribute alone. Values that mix numbers
/// and words have no order, and sorting by them may panic; a document whose
/// values cannot be told, since it is no JSON as a whole or is a list, is left
/// out. Nothing is claimed of the wording of an error.
#[verifier::external_body]
fn sort_by_key(bytes: &Vec<u8>, key: &str) -> (r: Result<Vec<u8>, String>)
    requires
        numbered(bytes@),
        json::sliced_places(bytes@) matches Some(places) && node_count(places) is Some
            && comparable(places, sorted_field(key@)),
    ensures
        match r {
            Ok(out) => sorted_by_key(bytes@, key@) == Some(out@),
            Err(_) => sorted_by_key(bytes@, key@) is None,
        },
{
    let mut out: Vec<u8> = Vec::new();
    match sort_json_file_by_key(bytes.as_slice(), &mut out, key) {
        Ok(_) => Ok(out),
        Err(e) => Err(e.to_string()),
    }
}

/// The document that `binary_ensemble::json::graph::sort_json_file_by_ordering`
/// writes for a graph in the multilevel cluster order or in the reverse
/// Cuthill-McKee order, if it writes one.
pub uninterp spec fn sorted_by_method(bytes: Seq<u8>, multilevel: bool) -> Option<Seq<u8>>;

/// Calls `sort_json_file_by_ordering` of `binary_ensemble::json::graph`. What
/// it writes depends on the bytes and the method alone. The multilevel method
/// may panic on a directed graph or never end; a document that is no JSON as a
/// whole may still be read as a directed graph, and is left out. Nothing is
/// claimed of the wording of an error.
#[verifier::external_body]
fn sort_by_method(bytes: &Vec<u8>, multilevel: bool) -> (r: Result<Vec<u8>, String>)
    requires
        numbered(bytes@),
        multilevel ==> (json::sliced_places(bytes@) matches Some(places) && !directed(places)),
    ensures
        match r {
            Ok(out) => sorted_by_method(bytes@, multilevel) == Some(out@),
            Err(_) => sorted_by_method(bytes@, multilevel) is None,
        },
{
    let mut out: Vec<u8> = Vec::new();
    let method = match multilevel {
        true => GraphOrderingMethod::MultiLevelCluster,
        false => GraphOrderingMethod::ReverseCuthillMckee,
    };
    match sort_json_file_by_ordering(bytes.as_slice(), &mut out, method) {
        Ok(_) => Ok(out),
        Err(e) => Err(e.to_string()),
    }
}

/// Whether a graph can be put in an order, or is refused before it comes to
/// that: values of a key are compared only where every node carries it.
pub open spec fn orderable(bytes: Seq<u8>, order: NodeOrder) -> bool {
    match order {
        NodeOrder::Verbatim => true,
        NodeOrder::Rcm => numbered(bytes),
        NodeOrder::Mlc => numbered(bytes) && (json::sliced_places(bytes) matches Some(places)
            && !directed(places)),
        NodeOrder::Key(attr) => key_outcome(json::sliced_places(bytes), attr, Ok(()))
            ==> numbered(bytes) && (json::sliced_places(bytes) matches Some(places) && comparable(
            places,
            sorted_field(attr),
        )),
    }
}

/// What comes of putting a graph in an order: the input verbatim where no
/// order is asked for; for a key the graph sorted by it, where every node
/// carries the key; else the graph in the order of a method.
pub open spec fn reorder_outcome(
    bytes: Seq<u8>,
    order: NodeOrder,
    r: Result<Vec<u8>, ReorderError>,
) -> bool {
    match order {
        NodeOrder::Verbatim => r matches Ok(out) && out@ == bytes,
        NodeOrder::Rcm => sorted_outcome(sorted_by_method(bytes, false), r),
        NodeOrder::Mlc => sorted_outcome(sorted_by_method(bytes, true), r),
        NodeOrder::Key(attr) => {
            ||| key_outcome(json::sliced_places(bytes), attr, Ok(())) && sorted_outcome(
                sorted_by_key(bytes, attr),
                r,
            )
            ||| r matches Err(e) && key_outcome(json::sliced_places(bytes), attr, Err(e))
        },
    }
}

/// What comes of a sort.
pub open spec fn sorted_outcome(
    sorted: Option<Seq<u8>>,
    r: Result<Vec<u8>, ReorderError>,
) -> bool {
    match sorted {
        Some(out) => r matches Ok(bytes) && bytes@ == out,
        None => r matches Err(ReorderError::Unsorted(_)),
    }
}

/// Puts the nodes of a graph document in an order.
pub fn reorder_graph_json(graph_bytes: &Vec<u8>, order: &BendlGraphOrder) -> (r: Result<
    Vec<u8>,
    ReorderError,
>)
    requires
        orderable(graph_bytes@, order@),
    ensures
        reorder_outcome(graph_bytes@, order@, r),
{
    let sorted: Result<Vec<u8>, String> = match order {
        BendlGraphOrder::Verbatim => {
            return Ok(crate::vectors::copied(graph_bytes));
        },
        BendlGraphOrder::Rcm => sort_by_method(graph_bytes, false),
        BendlGraphOrder::Mlc => sort_by_method(graph_bytes, true),
        BendlGraphOrder::Key(attr) => {
            match prevalidate_key(graph_bytes, attr.as_str()) {
                Ok(()) => {},
                Err(e) => {
                    return Err(e);
                },
            }
            sort_by_key(graph_bytes, attr.as_str())
        },
    };
    match sorted {
        Ok(out) => Ok(out),
        Err(reason) => Err(ReorderError::Unsorted(reason)),
    }
}

fn read_value(document: &Value, i: usize, attr: &str) -> (r: Reading)
    ensures
        r == value_reading(json::places(*document), i as nat, attr@),
{
    let field: String = field_pointer(i, attr);
    match json::find(document, field.as_str()) {
        Some(Node::Number(_, _)) => Reading::Number,
        Some(Node::Text(s)) => numerals::read(s.as_str()),
        _ => Reading::Word,
    }
}

fn all_read_as(document: &Value, n: usize, attr: &str, reading: Reading) -> (r: bool)
    ensures
        r == (forall|i: nat|
            i < n ==> #[trigger] value_reading(json::places(*document), i, attr@) == reading),
{
    let mut i: usize = 0;
    while i < n
        invariant
            i <= n,
            forall|j: nat|
                j < i ==> #[trigger] value_reading(json::places(*document), j, attr@) == reading,
        decreases n - i,
    {
        if read_value(document, i, attr) != reading {
            assert(value_reading(json::places(*document), i as nat, attr@) != reading);
            return false;
        }
        i += 1;
    }
    true
}

fn is_orderable(graph_bytes: &Vec<u8>, order: &BendlGraphOrder) -> (r: bool)
    ensures
        r == orderable(graph_bytes@, order@),
{
    if let BendlGraphOrder::Verbatim = order {
        return true;
    }
    if let BendlGraphOrder::Key(attr) = order {
        if prevalidate_key(graph_bytes, attr.as_str()).is_err() {
            return true;
        }
    }
    if graph_bytes.len() as u64 >= 8 * (u32::MAX as u64) {
        return false;
    }
    if let BendlGraphOrder::Rcm = order {
        return true;
    }
    let document: Value = match json::parse_bytes(graph_bytes) {
        Ok(document) => document,
        Err(_) => {
            return false;
        },
    };
    match order {
        BendlGraphOrder::Key(attr) => {
            let key: &str = if columns::str_eq(attr.as_str(), "__networkx_id__") {
                "id"
            } else {
                attr.as_str()
            };
            match json::find_list(&document, "/nodes") {
                Some(n) => all_read_as(&document, n, key, Reading::Number) || all_read_as(
                    &document,
                    n,
                    key,
                    Reading::Word,
                ),
                None => true,
            }
        },
        _ => {
            let says_so: bool = match json::find(&document, "/directed") {
                Some(Node::Bool(true)) => true,
                _ => false,
            };
            let is_list: bool = match json::find(&document, "") {
                Some(Node::List(_)) => true,
                _ => false,
            };
            !says_so && !is_list
        },
    }
}

/// Puts the nodes of a graph document in an order, where it can be ordered.
/// Gives nothing where every node carries the key but its values mix numbers and
/// words, where the multilevel order is asked of a directed graph, of a list or
/// of what is no JSON, or where the document is too long for its nodes to be
/// numbered.
pub fn try_reorder_graph_json(graph_bytes: &Vec<u8>, order: &BendlGraphOrder) -> (r: Option<
    Result<Vec<u8>, ReorderError>,
>)
    ensures
        r is Some <==> orderable(graph_bytes@, order@),
        r matches Some(outcome) ==> reorder_outcome(graph_bytes@, order@, outcome),
{
    if is_orderable(graph_bytes, order) {
        Some(reorder_graph_json(graph_bytes, order))
    } else {
        None
    }
}

} // verus!
