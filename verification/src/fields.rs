//! Fields of JSON objects: which are required, what they may hold, and what
//! they default to.

use serde_json::Value;
use vstd::prelude::*;
use crate::double::Double;
use crate::json::{Leaf, Node};
use crate::{columns, json, vectors};

verus! {

/// What a field may hold.
#[derive(Clone, Copy, Debug, PartialEq, Eq, Structural)]
pub enum FieldKind {
    Text,
    /// A text, or null.
    MaybeText,
    /// An integer of 64 bits without a sign.
    Natural,
    /// Such an integer, or null.
    MaybeNatural,
    /// An integer of 32 bits without a sign.
    Small,
    /// An integer that counts things in memory.
    Size,
    Number,
    /// A number, or null.
    MaybeNumber,
    Flag,
    /// A list of texts.
    Texts,
    /// An object of numbers.
    Weights,
    Anything,
}

/// A field of an object.
#[derive(Debug)]
pub struct FieldRule {
    pub name: &'static str,
    pub kind: FieldKind,
    pub required: bool,
}

/// The contents of a field rule.
pub struct Rule {
    pub name: Seq<char>,
    pub kind: FieldKind,
    pub required: bool,
}

impl View for FieldRule {
    type V = Rule;

    open spec fn view(&self) -> Rule {
        Rule { name: self.name@, kind: self.kind, required: self.required }
    }
}

/// The contents of field rules.
pub open spec fn rules_of(table: Seq<FieldRule>) -> Seq<Rule> {
    Seq::new(table.len(), |i: int| table[i]@)
}

/// The pointer to a field of the outermost object. The names of rules have no
/// characters that pointers escape.
pub open spec fn at(name: Seq<char>) -> Seq<char> {
    "/"@ + name
}

/// Whether a list at a place holds texts only.
pub open spec fn texts_at(places: Map<Seq<char>, Leaf>, place: Seq<char>) -> bool {
    places[place] matches Leaf::List(n) && forall|i: nat|
        i < n ==> {
            &&& places.contains_key(#[trigger] json::item(place, i))
            &&& places[json::item(place, i)] is Text
        }
}

/// Whether an object at a place holds numbers only.
pub open spec fn weights_at(places: Map<Seq<char>, Leaf>, place: Seq<char>) -> bool {
    &&& places[place] is Object
    &&& forall|key: Seq<char>|
        places.contains_key(#[trigger] (place + "/"@ + json::escaped(key))) ==> places[place + "/"@
            + json::escaped(key)] is Number
}

/// Whether a place holds what a kind asks for.
pub open spec fn holds(places: Map<Seq<char>, Leaf>, place: Seq<char>, kind: FieldKind) -> bool {
    let leaf = places[place];
    match kind {
        FieldKind::Text => leaf is Text,
        FieldKind::MaybeText => leaf is Text || leaf is Null,
        FieldKind::Natural => leaf matches Leaf::Number(Some(_), _),
        FieldKind::MaybeNatural => leaf is Null || leaf matches Leaf::Number(Some(_), _),
        FieldKind::Small => leaf matches Leaf::Number(Some(n), _) && n <= u32::MAX,
        FieldKind::Size => leaf matches Leaf::Number(Some(n), _) && n <= usize::MAX,
        FieldKind::Number => leaf is Number,
        FieldKind::MaybeNumber => leaf is Number || leaf is Null,
        FieldKind::Flag => leaf is Bool,
        FieldKind::Texts => texts_at(places, place),
        FieldKind::Weights => weights_at(places, place),
        FieldKind::Anything => true,
    }
}

/// What is wrong with a field, if anything is.
pub open spec fn problem(places: Map<Seq<char>, Leaf>, rule: Rule) -> Option<Seq<char>> {
    if !places.contains_key(at(rule.name)) {
        if rule.required {
            Some("missing field `"@ + rule.name + "`"@)
        } else {
            None
        }
    } else if holds(places, at(rule.name), rule.kind) {
        None
    } else {
        Some("invalid value for field `"@ + rule.name + "`"@)
    }
}

/// What is wrong with the first of the rules, from `i` on, that a document
/// breaks.
pub open spec fn first_problem(
    places: Map<Seq<char>, Leaf>,
    rules: Seq<Rule>,
    i: int,
) -> Option<Seq<char>>
    decreases rules.len() - i,
{
    if i >= rules.len() {
        None
    } else if problem(places, rules[i]) is Some {
        problem(places, rules[i])
    } else {
        first_problem(places, rules, i + 1)
    }
}

/// Whether a rule speaks of a field.
pub open spec fn is_known(rules: Seq<Rule>, name: Seq<char>) -> bool {
    exists|i: int| 0 <= i < rules.len() && (#[trigger] rules[i]).name == name
}

/// Whether a document has no fields but those of the rules.
pub open spec fn all_known(places: Map<Seq<char>, Leaf>, rules: Seq<Rule>) -> bool {
    forall|name: Seq<char>|
        places.contains_key(#[trigger] (""@ + "/"@ + json::escaped(name))) ==> is_known(rules, name)
}

fn pointer(name: &str) -> (r: String)
    ensures
        r@ == at(name@),
{
    let mut out: String = "/".to_string();
    out.append(name);
    out
}

fn list_of_texts(document: &Value, place: &str, n: usize) -> (r: bool)
    requires
        json::places(*document)[place@] == Leaf::List(n as nat),
    ensures
        r == texts_at(json::places(*document), place@),
{
    let ghost places = json::places(*document);
    let mut i: usize = 0;
    while i < n
        invariant
            i <= n,
            places == json::places(*document),
            places[place@] == Leaf::List(n as nat),
            forall|j: nat|
                j < i ==> {
                    &&& places.contains_key(#[trigger] json::item(place@, j))
                    &&& places[json::item(place@, j)] is Text
                },
        decreases n - i,
    {
        let item: String = json::item_pointer(place, i);
        match json::find(document, item.as_str()) {
            Some(Node::Text(_)) => {},
            _ => {
                assert(!(places.contains_key(json::item(place@, i as nat)) && places[json::item(
                    place@,
                    i as nat,
                )] is Text));
                return false;
            },
        }
        i += 1;
    }
    true
}

fn key_pointer(place: &str, key: &str) -> (r: String)
    ensures
        r@ == place@ + "/"@ + json::escaped(key@),
{
    let mut out: String = place.to_string();
    out.append("/");
    json::push_escaped(&mut out, key);
    out
}

pub(crate) fn object_of_numbers(document: &Value, place: &str) -> (r: bool)
    requires
        json::places(*document).contains_key(place@),
    ensures
        r == weights_at(json::places(*document), place@),
{
    let ghost places = json::places(*document);
    let names: Vec<String> = match json::field_names(document, place) {
        Some(names) => names,
        None => {
            return false;
        },
    };
    let ghost texts = vectors::texts(names@);
    let mut i: usize = 0;
    while i < names.len()
        invariant
            i <= names.len(),
            places == json::places(*document),
            places.contains_key(place@),
            places[place@] is Object,
            texts == vectors::texts(names@),
            forall|name: Seq<char>| #[trigger]
                texts.contains(name) <==> places.contains_key(place@ + "/"@ + json::escaped(name)),
            forall|j: int|
                0 <= j < i ==> places[place@ + "/"@ + json::escaped(#[trigger] texts[j])] is Number,
        decreases names.len() - i,
    {
        let key: String = key_pointer(place, names[i].as_str());
        assert(texts.contains(texts[i as int]));
        match json::find(document, key.as_str()) {
            Some(Node::Number(_, _)) => {},
            _ => {
                assert(!(places[place@ + "/"@ + json::escaped(texts[i as int])] is Number));
                return false;
            },
        }
        i += 1;
    }
    proof {
        assert forall|key: Seq<char>|
            places.contains_key(
                #[trigger] (place@ + "/"@ + json::escaped(key)),
            ) implies places[place@ + "/"@ + json::escaped(key)] is Number by {
            assert(texts.contains(key));
            let j = choose|j: int| 0 <= j < texts.len() && texts[j] == key;
            assert(places[place@ + "/"@ + json::escaped(texts[j])] is Number);
        }
    }
    true
}

fn field_holds(document: &Value, place: &str, node: &Node, kind: FieldKind) -> (r: bool)
    requires
        json::places(*document).contains_key(place@),
        json::places(*document)[place@] == node@,
    ensures
        r == holds(json::places(*document), place@, kind),
{
    match kind {
        FieldKind::Text => matches!(node, Node::Text(_)),
        FieldKind::MaybeText => matches!(node, Node::Text(_)) || matches!(node, Node::Null),
        FieldKind::Natural => matches!(node, Node::Number(Some(_), _)),
        FieldKind::MaybeNatural => matches!(node, Node::Null) || matches!(
            node,
            Node::Number(Some(_), _)
        ),
        FieldKind::Small => match node {
            Node::Number(Some(n), _) => *n <= u32::MAX as u64,
            _ => false,
        },
        FieldKind::Size => match node {
            Node::Number(Some(n), _) => *n <= usize::MAX as u64,
            _ => false,
        },
        FieldKind::Number => matches!(node, Node::Number(_, _)),
        FieldKind::MaybeNumber => matches!(node, Node::Number(_, _)) || matches!(node, Node::Null),
        FieldKind::Flag => matches!(node, Node::Bool(_)),
        FieldKind::Texts => match node {
            Node::List(n) => list_of_texts(document, place, *n),
            _ => false,
        },
        FieldKind::Weights => object_of_numbers(document, place),
        FieldKind::Anything => true,
    }
}

fn field_problem(document: &Value, rule: &FieldRule) -> (r: Option<String>)
    ensures
        match problem(json::places(*document), rule@) {
            Some(message) => r matches Some(text) && text@ == message,
            None => r is None,
        },
{
    let place: String = pointer(rule.name);
    let mut out: String = match json::find(document, place.as_str()) {
        None => {
            if !rule.required {
                return None;
            }
            "missing field `".to_string()
        },
        Some(node) => {
            if field_holds(document, place.as_str(), &node, rule.kind) {
                return None;
            }
            "invalid value for field `".to_string()
        },
    };
    out.append(rule.name);
    out.append("`");
    Some(out)
}

fn knows(table: &Vec<FieldRule>, name: &str) -> (r: bool)
    ensures
        r == is_known(rules_of(table@), name@),
{
    let ghost rules = rules_of(table@);
    let mut i: usize = 0;
    while i < table.len()
        invariant
            i <= table.len(),
            rules == rules_of(table@),
            forall|j: int| 0 <= j < i ==> (#[trigger] rules[j]).name != name@,
        decreases table.len() - i,
    {
        if columns::str_eq(table[i].name, name) {
            assert(rules[i as int].name == name@);
            return true;
        }
        i += 1;
    }
    false
}

/// Whether a document breaks rules, and how that is said: the first rule that
/// is broken, or else a field that no rule knows.
pub open spec fn checked(
    places: Map<Seq<char>, Leaf>,
    rules: Seq<Rule>,
    r: Result<(), String>,
) -> bool {
    match first_problem(places, rules, 0) {
        Some(message) => r matches Err(e) && e@ == message,
        None => match r {
            Ok(()) => all_known(places, rules),
            Err(e) => exists|name: Seq<char>|
                places.contains_key(#[trigger] (""@ + "/"@ + json::escaped(name))) && !is_known(
                    rules,
                    name,
                ) && e@ == "unknown field `"@ + name + "`"@,
        },
    }
}

/// Holds a document to rules.
pub(crate) fn check_fields(document: &Value, table: &Vec<FieldRule>) -> (r: Result<(), String>)
    requires
        json::object_at(*document, ""@),
    ensures
        checked(json::places(*document), rules_of(table@), r),
{
    let ghost places = json::places(*document);
    let ghost rules = rules_of(table@);
    let mut i: usize = 0;
    while i < table.len()
        invariant
            i <= table.len(),
            places == json::places(*document),
            rules == rules_of(table@),
            first_problem(places, rules, 0) == first_problem(places, rules, i as int),
        decreases table.len() - i,
    {
        if let Some(message) = field_problem(document, &table[i]) {
            assert(rules[i as int] == table@[i as int]@);
            return Err(message);
        }
        assert(rules[i as int] == table@[i as int]@);
        i += 1;
    }
    let names: Vec<String> = match json::field_names(document, "") {
        Some(names) => names,
        None => Vec::new(),
    };
    let ghost texts = vectors::texts(names@);
    let mut j: usize = 0;
    while j < names.len()
        invariant
            j <= names.len(),
            places == json::places(*document),
            rules == rules_of(table@),
            first_problem(places, rules, 0) is None,
            texts == vectors::texts(names@),
            forall|name: Seq<char>| #[trigger]
                texts.contains(name) <==> places.contains_key(""@ + "/"@ + json::escaped(name)),
            forall|k: int| 0 <= k < j ==> is_known(rules, #[trigger] texts[k]),
        decreases names.len() - j,
    {
        if !knows(table, names[j].as_str()) {
            let mut out: String = "unknown field `".to_string();
            out.append(names[j].as_str());
            out.append("`");
            proof {
                let name = texts[j as int];
                assert(texts.contains(name));
                assert(places.contains_key(""@ + "/"@ + json::escaped(name)));
            }
            return Err(out);
        }
        j += 1;
    }
    proof {
        assert forall|name: Seq<char>|
            places.contains_key(#[trigger] (""@ + "/"@ + json::escaped(name))) implies is_known(
            rules,
            name,
        ) by {
            assert(texts.contains(name));
            let k = choose|k: int| 0 <= k < texts.len() && texts[k] == name;
            assert(is_known(rules, texts[k]));
        }
    }
    Ok(())
}

/// A document that breaks no rule keeps each of them.
pub proof fn kept_rules(places: Map<Seq<char>, Leaf>, rules: Seq<Rule>, from: int, i: int)
    requires
        first_problem(places, rules, from) is None,
        0 <= from <= i < rules.len(),
    ensures
        problem(places, rules[i]) is None,
    decreases i - from,
{
    if from < i {
        kept_rules(places, rules, from + 1, i);
    }
}

/// The text of a field, or a default where the field is missing.
pub open spec fn text_or(
    places: Map<Seq<char>, Leaf>,
    name: Seq<char>,
    default: Seq<char>,
) -> Seq<char> {
    if places.contains_key(at(name)) {
        match places[at(name)] {
            Leaf::Text(s) => s,
            _ => default,
        }
    } else {
        default
    }
}

/// The text of a field, if it has one.
pub open spec fn maybe_text(places: Map<Seq<char>, Leaf>, name: Seq<char>) -> Option<Seq<char>> {
    if places.contains_key(at(name)) {
        match places[at(name)] {
            Leaf::Text(s) => Some(s),
            _ => None,
        }
    } else {
        None
    }
}

/// The integer of a field, if it has one.
pub open spec fn maybe_natural(places: Map<Seq<char>, Leaf>, name: Seq<char>) -> Option<u64> {
    if places.contains_key(at(name)) {
        match places[at(name)] {
            Leaf::Number(n, _) => n,
            _ => None,
        }
    } else {
        None
    }
}

/// The integer of a field, or a default.
pub open spec fn natural_or(places: Map<Seq<char>, Leaf>, name: Seq<char>, default: u64) -> u64 {
    match maybe_natural(places, name) {
        Some(n) => n,
        None => default,
    }
}

/// The number of a field, if it has one.
pub open spec fn maybe_number(places: Map<Seq<char>, Leaf>, name: Seq<char>) -> Option<Double> {
    if places.contains_key(at(name)) {
        match places[at(name)] {
            Leaf::Number(_, x) => Some(x),
            _ => None,
        }
    } else {
        None
    }
}

/// The flag of a field, or a default.
pub open spec fn flag_or(places: Map<Seq<char>, Leaf>, name: Seq<char>, default: bool) -> bool {
    if places.contains_key(at(name)) {
        match places[at(name)] {
            Leaf::Bool(b) => b,
            _ => default,
        }
    } else {
        default
    }
}

/// The text at a place.
pub open spec fn text_in(places: Map<Seq<char>, Leaf>, place: Seq<char>) -> Seq<char> {
    match places[place] {
        Leaf::Text(s) => s,
        _ => Seq::empty(),
    }
}

/// The texts of a field: none where the field is missing.
pub open spec fn texts_or_none(places: Map<Seq<char>, Leaf>, name: Seq<char>) -> Seq<Seq<char>> {
    if places.contains_key(at(name)) {
        match places[at(name)] {
            Leaf::List(n) => Seq::new(n, |i: int| text_in(places, json::item(at(name), i as nat))),
            _ => Seq::empty(),
        }
    } else {
        Seq::empty()
    }
}

/// The number at a place, if a number stands there.
pub open spec fn number_in(places: Map<Seq<char>, Leaf>, place: Seq<char>) -> Option<Double> {
    match places[place] {
        Leaf::Number(_, x) => Some(x),
        _ => None,
    }
}

/// The names of weights.
pub open spec fn weight_names(weights: Seq<(String, Double)>) -> Seq<Seq<char>> {
    Seq::new(weights.len(), |i: int| weights[i].0@)
}

/// Whether weights are those of an object at a place, each once.
pub open spec fn weights_listed(
    places: Map<Seq<char>, Leaf>,
    place: Seq<char>,
    weights: Seq<(String, Double)>,
) -> bool {
    let names = weight_names(weights);
    &&& names.no_duplicates()
    &&& forall|key: Seq<char>| #[trigger]
        names.contains(key) <==> places.contains_key(place + "/"@ + json::escaped(key))
    &&& forall|i: int|
        0 <= i < weights.len() ==> number_in(
            places,
            place + "/"@ + json::escaped(#[trigger] names[i]),
        ) == Some(weights[i].1)
}

/// Whether weights are those of a field: none where the field is missing.
pub open spec fn weights_or_none(
    places: Map<Seq<char>, Leaf>,
    name: Seq<char>,
    weights: Seq<(String, Double)>,
) -> bool {
    if places.contains_key(at(name)) {
        weights_listed(places, at(name), weights)
    } else {
        weights.len() == 0
    }
}

pub(crate) fn get_text_or(document: &Value, name: &str, default: String) -> (r: String)
    ensures
        r@ == text_or(json::places(*document), name@, default@),
{
    match json::find(document, pointer(name).as_str()) {
        Some(Node::Text(s)) => s,
        _ => default,
    }
}

pub(crate) fn get_maybe_text(document: &Value, name: &str) -> (r: Option<String>)
    ensures
        json::opt_text(r) == maybe_text(json::places(*document), name@),
{
    match json::find(document, pointer(name).as_str()) {
        Some(Node::Text(s)) => Some(s),
        _ => None,
    }
}

pub(crate) fn get_maybe_natural(document: &Value, name: &str) -> (r: Option<u64>)
    ensures
        r == maybe_natural(json::places(*document), name@),
{
    match json::find(document, pointer(name).as_str()) {
        Some(Node::Number(n, _)) => n,
        _ => None,
    }
}

pub(crate) fn get_natural_or(document: &Value, name: &str, default: u64) -> (r: u64)
    ensures
        r == natural_or(json::places(*document), name@, default),
{
    match get_maybe_natural(document, name) {
        Some(n) => n,
        None => default,
    }
}

pub(crate) fn get_maybe_number(document: &Value, name: &str) -> (r: Option<Double>)
    ensures
        r == maybe_number(json::places(*document), name@),
{
    match json::find(document, pointer(name).as_str()) {
        Some(Node::Number(_, x)) => Some(x),
        _ => None,
    }
}

pub(crate) fn get_flag_or(document: &Value, name: &str, default: bool) -> (r: bool)
    ensures
        r == flag_or(json::places(*document), name@, default),
{
    match json::find(document, pointer(name).as_str()) {
        Some(Node::Bool(b)) => b,
        _ => default,
    }
}

pub(crate) fn get_texts(document: &Value, name: &str) -> (r: Vec<String>)
    requires
        json::places(*document).contains_key(at(name@)) ==> texts_at(
            json::places(*document),
            at(name@),
        ),
    ensures
        vectors::texts(r@) == texts_or_none(json::places(*document), name@),
{
    let ghost places = json::places(*document);
    let place: String = pointer(name);
    let mut out: Vec<String> = Vec::new();
    let n: usize = match json::find(document, place.as_str()) {
        Some(Node::List(n)) => n,
        _ => {
            assert(vectors::texts(out@) =~= texts_or_none(places, name@));
            return out;
        },
    };
    let ghost all = texts_or_none(places, name@);
    let mut i: usize = 0;
    while i < n
        invariant
            i <= n,
            places == json::places(*document),
            place@ == at(name@),
            texts_at(places, at(name@)),
            places[at(name@)] == Leaf::List(n as nat),
            all == texts_or_none(places, name@),
            all.len() == n,
            forall|j: int|
                0 <= j < n ==> #[trigger] all[j] == text_in(
                    places,
                    json::item(at(name@), j as nat),
                ),
            out.len() == i,
            forall|j: int| 0 <= j < i ==> (#[trigger] out[j])@ == all[j],
        decreases n - i,
    {
        let item: String = json::item_pointer(place.as_str(), i);
        assert(places.contains_key(json::item(at(name@), i as nat)));
        assert(all[i as int] == text_in(places, json::item(at(name@), i as nat)));
        match json::find(document, item.as_str()) {
            Some(Node::Text(s)) => {
                out.push(s);
            },
            _ => {
                out.push(String::new());
            },
        }
        i += 1;
    }
    assert(vectors::texts(out@) =~= all);
    out
}

pub(crate) fn list_weights(document: &Value, place: &str) -> (r: Vec<(String, Double)>)
    requires
        json::places(*document).contains_key(place@),
        weights_at(json::places(*document), place@),
    ensures
        weights_listed(json::places(*document), place@, r@),
{
    let ghost places = json::places(*document);
    let names: Vec<String> = match json::field_names(document, place) {
        Some(names) => names,
        None => Vec::new(),
    };
    let ghost texts = vectors::texts(names@);
    let mut out: Vec<(String, Double)> = Vec::new();
    let mut i: usize = 0;
    while i < names.len()
        invariant
            i <= names.len(),
            places == json::places(*document),
            weights_at(places, place@),
            texts == vectors::texts(names@),
            forall|name: Seq<char>| #[trigger]
                texts.contains(name) <==> places.contains_key(place@ + "/"@ + json::escaped(name)),
            out.len() == i,
            forall|j: int| 0 <= j < i ==> (#[trigger] out[j]).0@ == texts[j],
            forall|j: int|
                0 <= j < i ==> number_in(places, place@ + "/"@ + json::escaped(texts[j])) == Some(
                    (#[trigger] out[j]).1,
                ),
        decreases names.len() - i,
    {
        let key: String = key_pointer(place, names[i].as_str());
        assert(texts.contains(texts[i as int]));
        assert(places.contains_key(place@ + "/"@ + json::escaped(texts[i as int])));
        let value: Double = match json::find(document, key.as_str()) {
            Some(Node::Number(_, x)) => x,
            _ => crate::double::zero(),
        };
        out.push((names[i].as_str().to_string(), value));
        i += 1;
    }
    assert(weight_names(out@) =~= texts);
    out
}

pub(crate) fn get_weights(document: &Value, name: &str) -> (r: Vec<(String, Double)>)
    requires
        json::places(*document).contains_key(at(name@)) ==> weights_at(
            json::places(*document),
            at(name@),
        ),
    ensures
        weights_or_none(json::places(*document), name@, r@),
{
    let place: String = pointer(name);
    match json::find(document, place.as_str()) {
        Some(_) => list_weights(document, place.as_str()),
        None => Vec::new(),
    }
}

} // verus!
