//! Where a run comes from: graph hashes and metadata records.

use serde_json::Value;
use sha3::{Digest, Sha3_256};
use vstd::prelude::*;
use crate::bendl;
use crate::bendl::{BendlGraphOrder, ReorderError};
use crate::cli::document::{DocumentError, GraphColumns};
use crate::cli::writer::Writer;
use crate::cli::{document, writer};
use crate::columns;
use crate::graph::Graph;
use crate::json::Node;
use crate::partition::Partition;
use crate::stats::scores::ScoresWriter;
use crate::{json, text, vectors};

verus! {

/// The SHA3-256 hash of bytes.
pub uninterp spec fn sha3_256(bytes: Seq<u8>) -> Seq<u8>;

/// Calls `sha3::Digest::digest` of `sha3::Sha3_256`: the hash has 32 bytes and
/// depends on the input alone.
#[verifier::external_body]
fn digest(bytes: &Vec<u8>) -> (r: Vec<u8>)
    ensures
        r@ == sha3_256(bytes@),
        r@.len() == 32,
{
    Sha3_256::digest(bytes.as_slice()).to_vec()
}

/// Bytes in hexadecimal, two digits each.
pub open spec fn hex(bytes: Seq<u8>) -> Seq<char>
    decreases bytes.len(),
{
    if bytes.len() == 0 {
        Seq::empty()
    } else {
        hex(bytes.drop_last()) + seq![
            text::hex_digit((bytes.last() / 16) as nat),
            text::hex_digit((bytes.last() % 16) as nat),
        ]
    }
}

fn hex_piece(d: u8) -> (r: &'static str)
    requires
        d < 16,
    ensures
        r@ == seq![text::hex_digit(d as nat)],
{
    proof {
        reveal_strlit("0");
        reveal_strlit("1");
        reveal_strlit("2");
        reveal_strlit("3");
        reveal_strlit("4");
        reveal_strlit("5");
        reveal_strlit("6");
        reveal_strlit("7");
        reveal_strlit("8");
        reveal_strlit("9");
        reveal_strlit("a");
        reveal_strlit("b");
        reveal_strlit("c");
        reveal_strlit("d");
        reveal_strlit("e");
        reveal_strlit("f");
    }
    let r: &'static str = match d {
        0 => "0",
        1 => "1",
        2 => "2",
        3 => "3",
        4 => "4",
        5 => "5",
        6 => "6",
        7 => "7",
        8 => "8",
        9 => "9",
        10 => "a",
        11 => "b",
        12 => "c",
        13 => "d",
        14 => "e",
        _ => "f",
    };
    assert(r@ =~= seq![text::hex_digit(d as nat)]);
    r
}

/// The SHA3-256 hash of bytes, in hexadecimal.
pub fn sha3_hex(bytes: &Vec<u8>) -> (r: String)
    ensures
        r@ == hex(sha3_256(bytes@)),
{
    let hash: Vec<u8> = digest(bytes);
    let mut out: String = String::new();
    let mut i: usize = 0;
    assert(out@ =~= hex(hash@.take(0)));
    while i < hash.len()
        invariant
            i <= hash.len(),
            out@ == hex(hash@.take(i as int)),
        decreases hash.len() - i,
    {
        let b: u8 = hash[i];
        out.append(hex_piece(b / 16));
        out.append(hex_piece(b % 16));
        i += 1;
        assert(hash@.take(i as int).drop_last() =~= hash@.take(i - 1));
        assert(out@ =~= hex(hash@.take(i as int)));
    }
    assert(hash@.take(i as int) =~= hash@);
    out
}

/// The bytes that a graph is read from, and their hashes.
#[derive(Debug)]
pub struct GraphBytes {
    /// The bytes to embed, for a bundle.
    pub embed_bytes: Option<Vec<u8>>,
    pub source_graph_sha3: String,
    /// The hash of the embedded bytes, for a bundle.
    pub embedded_graph_sha3: Option<String>,
}

/// Whether a graph's bytes are prepared: hashed, and for a bundle put in order.
pub open spec fn prepared(
    source: Seq<u8>,
    is_bendl: bool,
    order: bendl::NodeOrder,
    r: Result<GraphBytes, ReorderError>,
) -> bool {
    match r {
        Ok(bytes) => {
            &&& bytes.source_graph_sha3@ == hex(sha3_256(source))
            &&& match bytes.embed_bytes {
                Some(embed) => {
                    &&& is_bendl
                    &&& bendl::reorder_outcome(source, order, Ok(embed))
                    &&& json::opt_text(bytes.embedded_graph_sha3) == Some(hex(sha3_256(embed@)))
                },
                None => !is_bendl && bytes.embedded_graph_sha3 is None,
            }
        },
        Err(e) => is_bendl && bendl::reorder_outcome(source, order, Err(e)),
    }
}

/// Prepares the bytes of a graph: for a bundle they are put in order. Gives
/// nothing where the graph has no such order.
pub fn load_graph_bytes(source_bytes: &Vec<u8>, is_bendl: bool, order: &BendlGraphOrder) -> (r:
    Option<Result<GraphBytes, ReorderError>>)
    ensures
        r is Some <==> !is_bendl || bendl::orderable(source_bytes@, order@),
        r matches Some(outcome) ==> prepared(source_bytes@, is_bendl, order@, outcome),
{
    let source_graph_sha3: String = sha3_hex(source_bytes);
    if !is_bendl {
        return Some(
            Ok(GraphBytes { embed_bytes: None, source_graph_sha3, embedded_graph_sha3: None }),
        );
    }
    match bendl::try_reorder_graph_json(source_bytes, order) {
        None => None,
        Some(Err(e)) => Some(Err(e)),
        Some(Ok(embed)) => {
            let hash: String = sha3_hex(&embed);
            Some(
                Ok(
                    GraphBytes {
                        embed_bytes: Some(embed),
                        source_graph_sha3,
                        embedded_graph_sha3: Some(hash),
                    },
                ),
            )
        },
    }
}

/// Without a reordering the embedded graph is the source graph, and so are the
/// hashes.
pub proof fn verbatim_hashes_are_equal(source: Seq<u8>, bytes: GraphBytes)
    requires
        prepared(source, true, bendl::NodeOrder::Verbatim, Ok(bytes)),
    ensures
        bytes.embed_bytes->0@ == source,
        json::opt_text(bytes.embedded_graph_sha3) == Some(bytes.source_graph_sha3@),
{
}

/// A graph and a plan, and where they come from.
#[derive(Debug)]
pub struct LoadedGraph {
    pub graph: Graph,
    pub partition: Partition,
    pub embed_bytes: Option<Vec<u8>>,
    pub source_graph_sha3: String,
    pub embedded_graph_sha3: Option<String>,
}

/// Why a graph could not be loaded.
#[derive(Debug, PartialEq, Eq)]
pub enum LoadError {
    /// The graph could not be put in order.
    Reorder(ReorderError),
    /// The bytes are no JSON.
    NotJson(String),
    /// The document makes no graph and plan.
    Unbuilt(DocumentError),
}

impl LoadError {
    /// The message of an error.
    pub open spec fn text(self) -> Seq<char> {
        match self {
            LoadError::Reorder(e) => "Could not reorder graph for BENDL: "@ + e.text(),
            LoadError::NotJson(reason) => "Could not parse graph JSON: "@ + reason@,
            LoadError::Unbuilt(e) => "Could not load graph and partition: "@ + e.text(),
        }
    }

    /// The message of an error.
    pub fn message(&self) -> (r: String)
        ensures
            r@ == self.text(),
    {
        match self {
            LoadError::Reorder(e) => {
                let mut out: String = "Could not reorder graph for BENDL: ".to_string();
                out.append(e.message().as_str());
                out
            },
            LoadError::NotJson(reason) => {
                let mut out: String = "Could not parse graph JSON: ".to_string();
                out.append(reason.as_str());
                out
            },
            LoadError::Unbuilt(e) => {
                let mut out: String = "Could not load graph and partition: ".to_string();
                out.append(e.message().as_str());
                out
            },
        }
    }
}

/// The bytes that a run reads its graph from: those to embed, or the source.
pub open spec fn read_bytes(source: Seq<u8>, bytes: GraphBytes) -> Seq<u8> {
    match bytes.embed_bytes {
        Some(embed) => embed@,
        None => source,
    }
}

/// Prepares the bytes of a graph and reads the document that the run is built
/// from: the very bytes that are embedded. Gives nothing where the graph has no
/// such order.
pub fn load_graph_document(source: &Vec<u8>, is_bendl: bool, order: &BendlGraphOrder) -> (r: Option<
    Result<(GraphBytes, Value), LoadError>,
>)
    ensures
        r is Some <==> !is_bendl || bendl::orderable(source@, order@),
        r matches Some(Ok((bytes, document))) ==> {
            &&& prepared(source@, is_bendl, order@, Ok(bytes))
            &&& json::sliced(read_bytes(source@, bytes)) == Some(document)
        },
        r matches Some(Err(e)) ==> match e {
            LoadError::Reorder(cause) => prepared(source@, is_bendl, order@, Err(cause)),
            LoadError::NotJson(_) => exists|bytes: GraphBytes| #[trigger]
                prepared(source@, is_bendl, order@, Ok(bytes)) && json::sliced(
                    read_bytes(source@, bytes),
                ) is None,
            LoadError::Unbuilt(_) => false,
        },
{
    let bytes: GraphBytes = match load_graph_bytes(source, is_bendl, order) {
        None => {
            return None;
        },
        Some(Err(e)) => {
            return Some(Err(LoadError::Reorder(e)));
        },
        Some(Ok(bytes)) => bytes,
    };
    let parsed: Result<Value, String> = match &bytes.embed_bytes {
        Some(embed) => json::parse_bytes(embed),
        None => json::parse_bytes(source),
    };
    match parsed {
        Ok(document) => Some(Ok((bytes, document))),
        Err(reason) => {
            assert(prepared(source@, is_bendl, order@, Ok(bytes)));
            Some(Err(LoadError::NotJson(reason)))
        },
    }
}

/// Whether a loaded graph and plan are those of the document that the run
/// reads: of the very bytes that are embedded.
pub open spec fn loaded_from<W: Fn(&Node) -> Option<u32>>(
    source: Seq<u8>,
    is_bendl: bool,
    order: bendl::NodeOrder,
    columns: &GraphColumns,
    count: W,
    loaded: LoadedGraph,
) -> bool {
    let bytes = GraphBytes {
        embed_bytes: loaded.embed_bytes,
        source_graph_sha3: loaded.source_graph_sha3,
        embedded_graph_sha3: loaded.embedded_graph_sha3,
    };
    &&& prepared(source, is_bendl, order, Ok(bytes))
    &&& json::sliced(read_bytes(source, bytes)) matches Some(document) && document::built(
        document,
        columns,
        count,
        &loaded.graph,
        loaded.partition@,
    )
    &&& loaded.partition@.valid()
}

/// Loads a graph and its plan from the bytes of a document and tells where they
/// come from; `count` reads a whole number. Gives nothing where the graph has
/// no such order.
pub fn load_graph_with_provenance<W: Fn(&Node) -> Option<u32>>(
    source: &Vec<u8>,
    is_bendl: bool,
    order: &BendlGraphOrder,
    columns: &GraphColumns,
    count: &W,
) -> (r: Option<Result<LoadedGraph, LoadError>>)
    requires
        forall|node: &Node| #[trigger] call_requires(*count, (node,)),
    ensures
        r is Some <==> !is_bendl || bendl::orderable(source@, order@),
        r matches Some(Ok(loaded)) ==> loaded_from(
            source@,
            is_bendl,
            order@,
            columns,
            *count,
            loaded,
        ),
        r matches Some(Err(e)) ==> match e {
            LoadError::Reorder(cause) => prepared(source@, is_bendl, order@, Err(cause)),
            LoadError::NotJson(_) => exists|bytes: GraphBytes| #[trigger]
                prepared(source@, is_bendl, order@, Ok(bytes)) && json::sliced(
                    read_bytes(source@, bytes),
                ) is None,
            LoadError::Unbuilt(cause) => exists|bytes: GraphBytes| #[trigger]
                prepared(source@, is_bendl, order@, Ok(bytes)) && (json::sliced(
                    read_bytes(source@, bytes),
                ) matches Some(document) && document::unbuilt(document, columns, *count, cause)),
        },
{
    match load_graph_document(source, is_bendl, order) {
        None => None,
        Some(Err(e)) => Some(Err(e)),
        Some(Ok((bytes, data))) => match document::from_networkx_value(&data, columns, count) {
            Err(cause) => {
                assert(prepared(source@, is_bendl, order@, Ok(bytes)));
                Some(Err(LoadError::Unbuilt(cause)))
            },
            Ok((graph, partition)) => Some(
                Ok(
                    LoadedGraph {
                        graph,
                        partition,
                        embed_bytes: bytes.embed_bytes,
                        source_graph_sha3: bytes.source_graph_sha3,
                        embedded_graph_sha3: bytes.embedded_graph_sha3,
                    },
                ),
            ),
        },
    }
}

/// The graph of a run and the embedded graph cannot diverge: for a bundle the
/// graph is built from the document of the embedded bytes, whose hash is
/// recorded.
pub proof fn run_and_embedded_graph_agree<W: Fn(&Node) -> Option<u32>>(
    source: Seq<u8>,
    order: bendl::NodeOrder,
    columns: &GraphColumns,
    count: W,
    loaded: LoadedGraph,
)
    requires
        loaded_from(source, true, order, columns, count, loaded),
    ensures
        loaded.embed_bytes matches Some(embed) && json::opt_text(loaded.embedded_graph_sha3)
            == Some(hex(sha3_256(embed@))) && (json::sliced(embed@) matches Some(document)
            && document::built(document, columns, count, &loaded.graph, loaded.partition@)),
{
}

/// A field of a metadata record: its key, and its value as JSON.
#[derive(Debug)]
pub struct MetaField {
    pub key: String,
    pub value: String,
}

/// A metadata record.
#[derive(Debug)]
pub struct Meta {
    fields: Vec<MetaField>,
}

/// The fields of a record as JSON, separated by commas.
pub open spec fn joined_fields(fields: Seq<(Seq<char>, Seq<char>)>) -> Seq<char>
    decreases fields.len(),
{
    if fields.len() == 0 {
        Seq::empty()
    } else {
        let last = json::json_quoted(fields.last().0) + ":"@ + fields.last().1;
        if fields.len() == 1 {
            last
        } else {
            joined_fields(fields.drop_last()) + ","@ + last
        }
    }
}

/// Sorted fields with one more, which goes behind those whose key does not come
/// after its own.
pub open spec fn placed(
    sorted: Seq<(Seq<char>, Seq<char>)>,
    field: (Seq<char>, Seq<char>),
) -> Seq<(Seq<char>, Seq<char>)>
    decreases sorted.len(),
{
    if sorted.len() > 0 && text::text_before(field.0, sorted.last().0) {
        placed(sorted.drop_last(), field).push(sorted.last())
    } else {
        sorted.push(field)
    }
}

/// Fields in the order of their keys.
pub open spec fn by_key(fields: Seq<(Seq<char>, Seq<char>)>) -> Seq<(Seq<char>, Seq<char>)>
    decreases fields.len(),
{
    if fields.len() == 0 {
        Seq::empty()
    } else {
        placed(by_key(fields.drop_last()), fields.last())
    }
}

/// Fields as a JSON object.
pub open spec fn rendered(fields: Seq<(Seq<char>, Seq<char>)>) -> Seq<char> {
    "{"@ + joined_fields(by_key(fields)) + "}"@
}

/// Whether no key comes before that of an earlier field.
pub open spec fn keys_ascend(fields: Seq<(Seq<char>, Seq<char>)>) -> bool {
    forall|i: int, j: int|
        0 <= i < j < fields.len() ==> !text::text_before(
            (#[trigger] fields[j]).0,
            (#[trigger] fields[i]).0,
        )
}

proof fn placing_keeps_the_order(
    sorted: Seq<(Seq<char>, Seq<char>)>,
    field: (Seq<char>, Seq<char>),
)
    requires
        keys_ascend(sorted),
    ensures
        keys_ascend(placed(sorted, field)),
        placed(sorted, field).to_multiset() == sorted.to_multiset().insert(field),
        forall|x: (Seq<char>, Seq<char>)| #[trigger]
            placed(sorted, field).contains(x) <==> sorted.contains(x) || x == field,
    decreases sorted.len(),
{
    broadcast use vstd::seq_lib::group_to_multiset_ensures;

    let all = placed(sorted, field);
    if sorted.len() > 0 && text::text_before(field.0, sorted.last().0) {
        let init = sorted.drop_last();
        let head = placed(init, field);
        assert(sorted =~= init.push(sorted.last()));
        placing_keeps_the_order(init, field);
        assert forall|x: (Seq<char>, Seq<char>)| #[trigger]
            all.contains(x) <==> sorted.contains(x) || x == field by {
            crate::vectors::contains_pushed(head, sorted.last(), x);
            crate::vectors::contains_pushed(init, sorted.last(), x);
        }
        assert forall|i: int, j: int| 0 <= i < j < all.len() implies !text::text_before(
            (#[trigger] all[j]).0,
            (#[trigger] all[i]).0,
        ) by {
            if j == head.len() {
                assert(head.contains(head[i]));
                if head[i] == field {
                    text::texts_are_ordered(field.0, sorted.last().0);
                } else {
                    let k = choose|k: int| 0 <= k < init.len() && init[k] == head[i];
                    assert(init.contains(head[i]));
                    assert(sorted[k] == head[i]);
                }
            } else {
                assert(all[i] == head[i] && all[j] == head[j]);
            }
        }
        assert(all.to_multiset() =~= sorted.to_multiset().insert(field));
    } else {
        assert forall|x: (Seq<char>, Seq<char>)| #[trigger]
            all.contains(x) <==> sorted.contains(x) || x == field by {
            crate::vectors::contains_pushed(sorted, field, x);
        }
        assert forall|i: int, j: int| 0 <= i < j < all.len() implies !text::text_before(
            (#[trigger] all[j]).0,
            (#[trigger] all[i]).0,
        ) by {
            if j == sorted.len() {
                if i < sorted.len() - 1 && text::text_before(field.0, sorted[i].0) {
                    let last = sorted.last();
                    assert(!text::text_before(last.0, sorted[i].0));
                    text::texts_are_ordered(last.0, sorted[i].0);
                    if last.0 != sorted[i].0 {
                        text::text_order_is_transitive(field.0, sorted[i].0, last.0);
                    }
                }
            } else {
                assert(all[i] == sorted[i] && all[j] == sorted[j]);
            }
        }
    }
}

/// A record lists its fields in the order of their keys, each field once.
pub proof fn records_list_fields_by_key(fields: Seq<(Seq<char>, Seq<char>)>)
    ensures
        keys_ascend(by_key(fields)),
        by_key(fields).to_multiset() == fields.to_multiset(),
    decreases fields.len(),
{
    broadcast use vstd::seq_lib::group_to_multiset_ensures;

    if fields.len() > 0 {
        let init = fields.drop_last();
        records_list_fields_by_key(init);
        placing_keeps_the_order(by_key(init), fields.last());
        assert(fields =~= init.push(fields.last()));
    }
}

/// The fields whose key is another one.
pub open spec fn without_key(fields: Seq<(Seq<char>, Seq<char>)>, key: Seq<char>) -> Seq<
    (Seq<char>, Seq<char>),
>
    decreases fields.len(),
{
    if fields.len() == 0 {
        Seq::empty()
    } else {
        let before = without_key(fields.drop_last(), key);
        if fields.last().0 == key {
            before
        } else {
            before.push(fields.last())
        }
    }
}

impl Meta {
    /// The keys and values, in order.
    pub closed spec fn view(&self) -> Seq<(Seq<char>, Seq<char>)> {
        Seq::new(self.fields.len() as nat, |i: int| (self.fields[i].key@, self.fields[i].value@))
    }

    pub fn new() -> (r: Meta)
        ensures
            r@ == Seq::<(Seq<char>, Seq<char>)>::empty(),
    {
        let r: Meta = Meta { fields: Vec::new() };
        assert(r@ =~= Seq::<(Seq<char>, Seq<char>)>::empty());
        r
    }

    /// Adds a field whose value is JSON already.
    pub fn put(&mut self, key: &str, value: String)
        ensures
            final(self)@ == old(self)@.push((key@, value@)),
    {
        let ghost before = self@;
        self.fields.push(MetaField { key: key.to_string(), value });
        assert(self@ =~= before.push((key@, value@)));
    }

    pub fn put_text(&mut self, key: &str, value: &str)
        ensures
            final(self)@ == old(self)@.push((key@, json::json_quoted(value@))),
    {
        self.put(key, json::quoted(value));
    }

    pub fn put_number(&mut self, key: &str, value: u64)
        ensures
            final(self)@ == old(self)@.push((key@, text::decimal(value as nat))),
    {
        let mut out: String = String::new();
        text::push_number(&mut out, value);
        assert(out@ =~= text::decimal(value as nat));
        self.put(key, out);
    }

    pub fn put_flag(&mut self, key: &str, value: bool)
        ensures
            final(self)@ == old(self)@.push(
                (
                    key@,
                    if value {
                        "true"@
                    } else {
                        "false"@
                    },
                ),
            ),
    {
        if value {
            self.put(key, "true".to_string());
        } else {
            self.put(key, "false".to_string());
        }
    }

    /// Drops the fields with a key.
    pub fn drop_key(&mut self, key: &str)
        ensures
            final(self)@ == without_key(old(self)@, key@),
    {
        let ghost all = self@;
        let mut kept: Meta = Meta::new();
        let mut i: usize = 0;
        assert(kept@ =~= without_key(all.take(0), key@));
        while i < self.fields.len()
            invariant
                i <= self.fields.len(),
                all == self@,
                kept@ == without_key(all.take(i as int), key@),
            decreases self.fields.len() - i,
        {
            let field: &MetaField = &self.fields[i];
            assert(all.take(i + 1).drop_last() =~= all.take(i as int));
            assert(all.take(i + 1).last() == (field.key@, field.value@));
            if !columns::string_eq(&field.key, key) {
                kept.put(field.key.as_str(), field.value.as_str().to_string());
            }
            i += 1;
        }
        assert(all.take(i as int) =~= all);
        *self = kept;
    }

    /// Adds a field behind those whose key comes before its own.
    fn place(&mut self, field: MetaField)
        ensures
            final(self)@ == placed(old(self)@, (field.key@, field.value@)),
    {
        let ghost all = self@;
        let ghost new = (field.key@, field.value@);
        let mut p: usize = self.fields.len();
        assert(all.take(p as int) =~= all);
        assert(placed(all, new) =~= placed(all.take(p as int), new) + all.skip(p as int));
        while p > 0 && text::is_before(field.key.as_str(), self.fields[p - 1].key.as_str())
            invariant
                p <= self.fields.len(),
                all == self@,
                new == (field.key@, field.value@),
                placed(all, new) == placed(all.take(p as int), new) + all.skip(p as int),
            decreases p,
        {
            let ghost head = all.take(p as int);
            assert(head.drop_last() =~= all.take(p - 1));
            assert(head.last() == all[p - 1]);
            p -= 1;
            assert(placed(head, new) + all.skip(p + 1) =~= placed(all.take(p as int), new)
                + all.skip(p as int));
        }
        assert(placed(all.take(p as int), new) =~= all.take(p as int).push(new)) by {
            if p > 0 {
                assert(all.take(p as int).last() == all[p - 1]);
            }
        }
        self.fields.insert(p, field);
        assert(self@ =~= all.take(p as int).push(new) + all.skip(p as int));
    }

    /// The record with its fields in the order of their keys.
    fn sorted(&self) -> (r: Meta)
        ensures
            r@ == by_key(self@),
    {
        let ghost all = self@;
        let mut r: Meta = Meta::new();
        let mut i: usize = 0;
        assert(r@ =~= by_key(all.take(0)));
        while i < self.fields.len()
            invariant
                i <= self.fields.len(),
                all == self@,
                r@ == by_key(all.take(i as int)),
            decreases self.fields.len() - i,
        {
            let field: &MetaField = &self.fields[i];
            assert(all.take(i + 1).drop_last() =~= all.take(i as int));
            assert(all.take(i + 1).last() == (field.key@, field.value@));
            r.place(
                MetaField {
                    key: field.key.as_str().to_string(),
                    value: field.value.as_str().to_string(),
                },
            );
            i += 1;
        }
        assert(all.take(i as int) =~= all);
        r
    }

    /// The record as a JSON object, its fields in the order of their keys.
    pub fn render(&self) -> (r: String)
        ensures
            r@ == rendered(self@),
    {
        let sorted: Meta = self.sorted();
        let mut out: String = "{".to_string();
        let ghost all = sorted@;
        let mut i: usize = 0;
        assert(out@ =~= "{"@ + joined_fields(all.take(0)));
        while i < sorted.fields.len()
            invariant
                i <= sorted.fields.len(),
                all == sorted@,
                out@ == "{"@ + joined_fields(all.take(i as int)),
            decreases sorted.fields.len() - i,
        {
            let field: &MetaField = &sorted.fields[i];
            assert(all.take(i + 1).drop_last() =~= all.take(i as int));
            assert(all.take(i + 1).last() == (field.key@, field.value@));
            if i > 0 {
                out.append(",");
            }
            out.append(json::quoted(field.key.as_str()).as_str());
            out.append(":");
            out.append(field.value.as_str());
            i += 1;
            assert(out@ =~= "{"@ + joined_fields(all.take(i as int)));
        }
        assert(all.take(i as int) =~= all);
        out.append("}");
        out
    }
}

/// Replaces the graph hash of a record by what a bundle tells of its graph: the
/// hashes of the source and of the embedded graph, and the order.
pub fn enrich_bendl_meta(
    meta: &mut Meta,
    source_graph_sha3: &str,
    embedded_graph_sha3: &str,
    bendl_order: &BendlGraphOrder,
)
    ensures
        final(meta)@ == without_key(old(meta)@, "graph_sha3"@).push(
            ("source_graph_sha3"@, json::json_quoted(source_graph_sha3@)),
        ).push(("embedded_graph_sha3"@, json::json_quoted(embedded_graph_sha3@))).push(
            ("bendl_graph_order"@, json::json_quoted(bendl::label_of(bendl_order@))),
        ),
{
    meta.drop_key("graph_sha3");
    meta.put_text("source_graph_sha3", source_graph_sha3);
    meta.put_text("embedded_graph_sha3", embedded_graph_sha3);
    meta.put_text("bendl_graph_order", bendl_order.label().as_str());
}

/// The line of a metadata record.
pub fn meta_line(meta: &Meta) -> (r: String)
    ensures
        r@ == "{\"meta\":"@ + rendered(meta@) + "}\n"@,
{
    let mut out: String = "{\"meta\":".to_string();
    out.append(meta.render().as_str());
    out.append("}\n");
    out
}

/// The metadata line of a run from a configuration: the exact text that it was
/// read from.
pub fn config_line(raw: &str) -> (r: String)
    ensures
        r@ == "{\"meta\":{\"config\":"@ + json::json_quoted(raw@) + "}}\n"@,
{
    let mut out: String = "{\"meta\":{\"config\":".to_string();
    out.append(json::quoted(raw).as_str());
    out.append("}}\n");
    out
}

/// The contents of a metadata file beside the output: the exact configuration
/// where there is one, or else the record.
pub open spec fn sidecar_of(
    raw_config: Option<Seq<char>>,
    fields: Seq<(Seq<char>, Seq<char>)>,
) -> Seq<char> {
    match raw_config {
        Some(raw) => raw + "\n"@,
        None => "{\"meta\":"@ + rendered(fields) + "}\n"@,
    }
}

/// The contents of a metadata file beside the output.
pub fn sidecar_text(raw_config: Option<&str>, meta: &Meta) -> (r: String)
    ensures
        r@ == sidecar_of(crate::cli::paths::opt_view(raw_config), meta@),
{
    match raw_config {
        Some(raw) => {
            let mut out: String = raw.to_string();
            out.append("\n");
            out
        },
        None => meta_line(meta),
    }
}

/// The metadata that a bundle holds: the exact configuration where there is
/// one, or else the record.
pub fn bundle_metadata(raw_config: Option<&str>, meta: &Meta) -> (r: String)
    ensures
        r@ == match raw_config {
            Some(raw) => raw@,
            None => rendered(meta@),
        },
{
    match raw_config {
        Some(raw) => raw.to_string(),
        None => meta.render(),
    }
}

/// The writers of an optimizer run.
#[derive(Debug)]
pub struct OptimizerWriters {
    pub stats: Option<Writer>,
    pub scores: Option<ScoresWriter>,
}

/// The writers of an optimizer run: plans are written where there is an output
/// file, and scores where there is a file for them. A writer of plans other
/// than the default needs an output file.
pub fn build_optimizer_writers(
    has_output: bool,
    has_scores: bool,
    is_bendl: bool,
    writer_str: &str,
) -> (r: Result<OptimizerWriters, String>)
    requires
        is_bendl ==> has_output,
    ensures
        match r {
            Ok(writers) => {
                &&& writers.stats is Some <==> has_output
                &&& writers.scores is Some <==> has_scores
                &&& writers.scores matches Some(w) ==> w.pending() == Seq::<char>::empty()
                &&& writers.stats matches Some(w) ==> if is_bendl {
                    writer::is_stream(1, w)
                } else {
                    writer::is_writer(writer_str@) && writer::is_named(writer_str@, false, 1, w)
                }
                &&& !has_output ==> writer_str@ == "assignments"@
            },
            Err(e) => {
                ||| has_output && !is_bendl && !writer::is_writer(writer_str@) && e@
                    == "Parameter error: invalid writer '"@ + writer_str@ + "'"@
                ||| !has_output && writer_str@ != "assignments"@ && e@
                    == "Parameter error: '--writer' requires '--output-file'."@
            },
        },
{
    let stats: Option<Writer> = if is_bendl {
        Some(writer::make_bundle_writer(1))
    } else if has_output {
        match writer::make_stats_writer(writer_str, false, false, 1) {
            Ok(w) => Some(w),
            Err(e) => {
                return Err(e);
            },
        }
    } else {
        if !columns::str_eq(writer_str, "assignments") {
            return Err("Parameter error: '--writer' requires '--output-file'.".to_string());
        }
        None
    };
    let scores: Option<ScoresWriter> = if has_scores {
        Some(ScoresWriter::new())
    } else {
        None
    };
    Ok(OptimizerWriters { stats, scores })
}

/// A byte takes two digits, the higher one first, in the place of the byte.
pub proof fn bytes_take_two_digits(bytes: Seq<u8>, i: int)
    requires
        0 <= i < bytes.len(),
    ensures
        hex(bytes).len() == 2 * bytes.len(),
        exists|high: nat, low: nat|
            #![trigger text::hex_digit(high), text::hex_digit(low)]
            high < 16 && low < 16 && bytes[i] == 16 * high + low && hex(bytes)[2 * i]
                == text::hex_digit(high) && hex(bytes)[2 * i + 1] == text::hex_digit(low),
    decreases bytes.len(),
{
    let fewer = bytes.drop_last();
    if i < fewer.len() {
        bytes_take_two_digits(fewer, i);
        let (high, low) = choose|high: nat, low: nat|
            #![trigger text::hex_digit(high), text::hex_digit(low)]
            high < 16 && low < 16 && fewer[i] == 16 * high + low && hex(fewer)[2 * i]
                == text::hex_digit(high) && hex(fewer)[2 * i + 1] == text::hex_digit(low);
        assert(hex(bytes)[2 * i] == text::hex_digit(high));
        assert(hex(bytes)[2 * i + 1] == text::hex_digit(low));
    } else {
        if fewer.len() > 0 {
            bytes_take_two_digits(fewer, 0);
        } else {
            assert(hex(fewer).len() == 0);
        }
        let high = (bytes[i] / 16) as nat;
        let low = (bytes[i] % 16) as nat;
        assert(hex(bytes)[2 * i] == text::hex_digit(high));
        assert(hex(bytes)[2 * i + 1] == text::hex_digit(low));
    }
}

} // verus!
