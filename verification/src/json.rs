//! JSON documents and pieces of JSON text.

use serde_json::Value;
use vstd::prelude::*;
use crate::double::Double;
use crate::text;

verus! {

/// What stands for a character in a JSON string literal: quotes, backslashes
/// and the characters below the space are escaped.
pub open spec fn quoted_char(c: char) -> Seq<char> {
    let code = c as u32 as nat;
    if c == '"' || c == '\\' {
        seq!['\\', c]
    } else if code == 8 {
        seq!['\\', 'b']
    } else if code == 9 {
        seq!['\\', 't']
    } else if code == 10 {
        seq!['\\', 'n']
    } else if code == 12 {
        seq!['\\', 'f']
    } else if code == 13 {
        seq!['\\', 'r']
    } else if code < 32 {
        seq!['\\', 'u', '0', '0', text::hex_digit(code / 16), text::hex_digit(code % 16)]
    } else {
        seq![c]
    }
}

/// The JSON string literal of a text.
pub open spec fn json_quoted(text: Seq<char>) -> Seq<char> {
    seq!['"'] + quoted_text(text) + seq!['"']
}

/// A text with its characters escaped.
pub open spec fn quoted_text(text: Seq<char>) -> Seq<char>
    decreases text.len(),
{
    if text.len() == 0 {
        Seq::empty()
    } else {
        quoted_text(text.drop_last()) + quoted_char(text.last())
    }
}

/// Calls `serde_json::to_string` on a text: it writes the text between quotes
/// and escapes characters as `quoted_char` says.
#[verifier::external_body]
pub(crate) fn quoted(text: &str) -> (r: String)
    ensures
        r@ == json_quoted(text@),
{
    serde_json::to_string(text).unwrap()
}

/// A parsed document, `serde_json::Value`, kept behind the functions below.
#[verifier::external_type_specification]
#[verifier::external_body]
pub struct ExValue(Value);

/// One place of a document: what stands there, by itself.
#[derive(Clone, Debug, PartialEq, Eq)]
pub enum Node {
    Null,
    Bool(bool),
    /// A number: its value where it is a nonnegative integer of 64 bits, and
    /// the double nearest to it.
    Number(Option<u64>, Double),
    Text(String),
    /// A list and its length.
    List(usize),
    /// An object and its number of fields.
    Object(usize),
}

/// The contents of a place.
pub enum Leaf {
    Null,
    Bool(bool),
    Number(Option<u64>, Double),
    Text(Seq<char>),
    List(nat),
    Object(nat),
}

impl View for Node {
    type V = Leaf;

    open spec fn view(&self) -> Leaf {
        match self {
            Node::Null => Leaf::Null,
            Node::Bool(b) => Leaf::Bool(*b),
            Node::Number(n, x) => Leaf::Number(*n, *x),
            Node::Text(s) => Leaf::Text(s@),
            Node::List(n) => Leaf::List(*n as nat),
            Node::Object(n) => Leaf::Object(*n as nat),
        }
    }
}

/// The places of a document, by JSON pointer.
pub uninterp spec fn places(document: Value) -> Map<Seq<char>, Leaf>;

/// The places of the document that `serde_json::from_str` reads from a text,
/// if it reads one.
pub uninterp spec fn parsed_places(text: Seq<char>) -> Option<Map<Seq<char>, Leaf>>;

/// Calls `serde_json::from_str`: the places of what it reads depend on the
/// text alone. Nothing is claimed of the wording of an error.
#[verifier::external_body]
pub(crate) fn parse(text: &str) -> (r: Result<Value, String>)
    ensures
        r matches Ok(v) ==> parsed_places(text@) == Some(places(v)),
        r is Err ==> parsed_places(text@) is None,
{
    serde_json::from_str::<Value>(text).map_err(|e| e.to_string())
}

/// The document that `serde_json::from_slice` reads from bytes, if it reads
/// one.
pub uninterp spec fn sliced(bytes: Seq<u8>) -> Option<Value>;

/// The places of the document that bytes hold, if they hold one.
pub open spec fn sliced_places(bytes: Seq<u8>) -> Option<Map<Seq<char>, Leaf>> {
    match sliced(bytes) {
        Some(document) => Some(places(document)),
        None => None,
    }
}

/// Calls `serde_json::from_slice`: what it reads depends on the bytes alone.
/// Nothing is claimed of the wording of an error.
#[verifier::external_body]
pub(crate) fn parse_bytes(bytes: &Vec<u8>) -> (r: Result<Value, String>)
    ensures
        r matches Ok(v) ==> sliced(bytes@) == Some(v),
        r is Err ==> sliced(bytes@) is None,
{
    serde_json::from_slice::<Value>(bytes).map_err(|e| e.to_string())
}

/// Calls `serde_json::Value::pointer`: what stands at a place of the document,
/// if there is one.
#[verifier::external_body]
pub(crate) fn find(document: &Value, pointer: &str) -> (r: Option<Node>)
    ensures
        r is Some <==> places(*document).contains_key(pointer@),
        r matches Some(node) ==> node@ == places(*document)[pointer@],
{
    Some(match document.pointer(pointer)? {
        Value::Null => Node::Null,
        Value::Bool(b) => Node::Bool(*b),
        Value::Number(n) => {
            Node::Number(n.as_u64(), Double { bits: n.as_f64().unwrap().to_bits() })
        },
        Value::String(s) => Node::Text(s.clone()),
        Value::Array(items) => Node::List(items.len()),
        Value::Object(fields) => Node::Object(fields.len()),
    })
}

/// The JSON text of each place of a document, as `serde_json` prints it.
pub uninterp spec fn rendered(document: Value) -> Map<Seq<char>, Seq<char>>;

/// Calls `to_string` of `serde_json::Value` on what `Value::pointer` finds. The
/// text is named, and nothing else is claimed of it.
#[verifier::external_body]
pub(crate) fn render(document: &Value, pointer: &str) -> (r: Option<String>)
    ensures
        r is Some <==> places(*document).contains_key(pointer@),
        r matches Some(text) ==> text@ == rendered(*document)[pointer@],
{
    document.pointer(pointer).map(|value| value.to_string())
}

/// Calls `serde_json::Map::keys` on an object: its keys, each once, in an order
/// that is left open.
#[verifier::external_body]
pub(crate) fn field_names(document: &Value, pointer: &str) -> (r: Option<Vec<String>>)
    ensures
        r is Some <==> object_at(*document, pointer@),
        r matches Some(names) ==> {
            &&& places(*document)[pointer@] == Leaf::Object(names@.len())
            &&& crate::vectors::texts(names@).no_duplicates()
            &&& forall|name: Seq<char>| #[trigger]
                crate::vectors::texts(names@).contains(name) <==> places(*document).contains_key(
                    pointer@ + "/"@ + escaped(name),
                )
        },
{
    match document.pointer(pointer) {
        Some(Value::Object(fields)) => Some(fields.keys().cloned().collect()),
        _ => None,
    }
}

/// Calls `serde_json::Value::pointer`: the document at a place. Its places are
/// those of the whole document from there on.
#[verifier::external_body]
pub(crate) fn subdocument(document: &Value, pointer: &str) -> (r: Option<Value>)
    ensures
        r is Some <==> places(*document).contains_key(pointer@),
        r matches Some(part) ==> forall|rest: Seq<char>|
            rest.len() == 0 || rest[0] == '/' ==> {
                &&& #[trigger] places(part).contains_key(rest) <==> places(
                    *document,
                ).contains_key(pointer@ + rest)
                &&& places(part).contains_key(rest) ==> places(part)[rest] == places(
                    *document,
                )[pointer@ + rest]
            },
{
    document.pointer(pointer).cloned()
}

/// Whether an object stands at a place of a document.
pub open spec fn object_at(document: Value, pointer: Seq<char>) -> bool {
    places(document).contains_key(pointer) && places(document)[pointer] is Object
}

/// The text at a place of a document, if a text stands there.
pub open spec fn text_at(document: Value, pointer: Seq<char>) -> Option<Seq<char>> {
    if places(document).contains_key(pointer) {
        match places(document)[pointer] {
            Leaf::Text(s) => Some(s),
            _ => None,
        }
    } else {
        None
    }
}

/// The number at a place of a document, if a number stands there.
pub open spec fn number_at(document: Value, pointer: Seq<char>) -> Option<Double> {
    if places(document).contains_key(pointer) {
        match places(document)[pointer] {
            Leaf::Number(_, x) => Some(x),
            _ => None,
        }
    } else {
        None
    }
}

/// The nonnegative integer at a place of a document, if one stands there.
pub open spec fn integer_at(document: Value, pointer: Seq<char>) -> Option<u64> {
    if places(document).contains_key(pointer) {
        match places(document)[pointer] {
            Leaf::Number(n, _) => n,
            _ => None,
        }
    } else {
        None
    }
}

/// The length of the list at a place of a document, if a list stands there.
pub open spec fn list_at(document: Value, pointer: Seq<char>) -> Option<nat> {
    if places(document).contains_key(pointer) {
        match places(document)[pointer] {
            Leaf::List(n) => Some(n),
            _ => None,
        }
    } else {
        None
    }
}

/// The text of an optional string.
pub open spec fn opt_text(s: Option<String>) -> Option<Seq<char>> {
    match s {
        Some(s) => Some(s@),
        None => None,
    }
}

pub(crate) fn find_text(document: &Value, pointer: &str) -> (r: Option<String>)
    ensures
        opt_text(r) == text_at(*document, pointer@),
{
    match find(document, pointer) {
        Some(Node::Text(s)) => Some(s),
        _ => None,
    }
}

pub(crate) fn find_number(document: &Value, pointer: &str) -> (r: Option<Double>)
    ensures
        r == number_at(*document, pointer@),
{
    match find(document, pointer) {
        Some(Node::Number(_, x)) => Some(x),
        _ => None,
    }
}

pub(crate) fn find_integer(document: &Value, pointer: &str) -> (r: Option<u64>)
    ensures
        r == integer_at(*document, pointer@),
{
    match find(document, pointer) {
        Some(Node::Number(n, _)) => n,
        _ => None,
    }
}

pub(crate) fn find_list(document: &Value, pointer: &str) -> (r: Option<usize>)
    ensures
        match r {
            Some(n) => list_at(*document, pointer@) == Some(n as nat),
            None => list_at(*document, pointer@) is None,
        },
{
    match find(document, pointer) {
        Some(Node::List(n)) => Some(n),
        _ => None,
    }
}

/// The pointer to an item of a list.
pub open spec fn item(list: Seq<char>, i: nat) -> Seq<char> {
    list + "/"@ + crate::text::decimal(i)
}

/// A character of a key as JSON pointers write it.
pub open spec fn escaped_char(c: char) -> Seq<char> {
    if c == '~' {
        "~0"@
    } else if c == '/' {
        "~1"@
    } else {
        seq![c]
    }
}

/// A key as JSON pointers write it.
pub open spec fn escaped(key: Seq<char>) -> Seq<char>
    decreases key.len(),
{
    if key.len() == 0 {
        Seq::empty()
    } else {
        escaped(key.drop_last()) + escaped_char(key.last())
    }
}

/// Appends a key as JSON pointers write it.
pub(crate) fn push_escaped(out: &mut String, key: &str)
    ensures
        final(out)@ == old(out)@ + escaped(key@),
{
    let ghost start = out@;
    let n: usize = key.unicode_len();
    let mut i: usize = 0;
    assert(out@ =~= start + escaped(key@.take(0)));
    while i < n
        invariant
            i <= n,
            n == key@.len(),
            out@ == start + escaped(key@.take(i as int)),
        decreases n - i,
    {
        let c: char = key.get_char(i);
        if c == '~' {
            out.append("~0");
        } else if c == '/' {
            out.append("~1");
        } else {
            let piece: &str = key.substring_char(i, i + 1);
            assert(piece@ =~= seq![c]);
            out.append(piece);
        }
        i += 1;
        assert(key@.take(i as int).drop_last() =~= key@.take(i - 1));
        assert(out@ =~= start + escaped(key@.take(i as int)));
    }
    assert(key@.take(i as int) =~= key@);
}

/// The pointer to a field of an item of a list.
pub open spec fn item_field(list: Seq<char>, i: nat, field: Seq<char>) -> Seq<char> {
    item(list, i) + field
}

pub(crate) fn item_pointer(list: &str, i: usize) -> (r: String)
    ensures
        r@ == item(list@, i as nat),
{
    let mut out: String = list.to_string();
    out.append("/");
    crate::text::push_number(&mut out, i as u64);
    out
}

} // verus!
