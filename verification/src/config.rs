//! Run configurations: JSON documents whose fields mirror the command line.
//!
//! An envelope of a version and a command is checked first. Only the arguments
//! that the command line requires are required, every other field defaults as
//! its flag does, and unknown fields are rejected.

use serde_json::Value;
use vstd::prelude::*;
use crate::double::Double;
use crate::fields::{FieldKind, FieldRule, Rule};
use crate::json::{Leaf, Node};
use crate::{columns, fields, json, sorting, text, vectors};

verus! {

/// The version of the configuration format.
pub const CONFIG_VERSION: u64 = 1;

pub fn default_one_usize() -> (r: usize)
    ensures
        r == 1,
{
    1
}

pub fn default_writer() -> (r: String)
    ensures
        r@ == "jsonl"@,
{
    "jsonl".to_string()
}

pub fn default_bendl_graph_order() -> (r: String)
    ensures
        r@ == "none"@,
{
    "none".to_string()
}

pub fn default_true() -> (r: bool)
    ensures
        r,
{
    true
}

pub fn default_optimizer_variant() -> (r: String)
    ensures
        r@ == "district-pairs-rmst"@,
{
    "district-pairs-rmst".to_string()
}

pub fn default_optimizer_writer() -> (r: String)
    ensures
        r@ == "assignments"@,
{
    "assignments".to_string()
}

pub fn default_accept_rule() -> (r: String)
    ensures
        r@ == "linear"@,
{
    "linear".to_string()
}

/// Whether a message says that a configuration is no JSON. What follows the
/// colon is the reader's own account.
pub open spec fn bad_json(message: Seq<char>) -> bool {
    exists|reason: Seq<char>| message == #[trigger] ("Invalid config JSON: "@ + reason)
}

/// What is wrong with the envelope of a document, if anything is.
pub open spec fn envelope_error(
    places: Map<Seq<char>, Leaf>,
    command: Seq<char>,
) -> Option<Seq<char>> {
    if !(places.contains_key(""@) && places[""@] is Object) {
        Some("config must be a JSON object"@)
    } else {
        match (fields::maybe_natural(places, "version"@), fields::maybe_text(places, "command"@)) {
            (Some(version), Some(name)) => if version != CONFIG_VERSION {
                Some("Unsupported config version "@ + text::decimal(version as nat))
            } else if name != command {
                Some("Expected command '"@ + command + "', got '"@ + name + "'"@)
            } else {
                None
            },
            _ => Some("config must carry integer 'version' and string 'command' fields"@),
        }
    }
}

/// Reads a configuration as JSON and checks its version and command.
pub fn checked_config_value(raw: &str, command: &str) -> (r: Result<Value, String>)
    ensures
        match json::parsed_places(raw@) {
            None => r matches Err(e) && bad_json(e@),
            Some(places) => match envelope_error(places, command@) {
                Some(message) => r matches Err(e) && e@ == message,
                None => r matches Ok(value) && json::places(value) == places,
            },
        },
{
    let value: Value = match json::parse(raw) {
        Ok(value) => value,
        Err(reason) => {
            let mut out: String = "Invalid config JSON: ".to_string();
            out.append(reason.as_str());
            return Err(out);
        },
    };
    match json::find(&value, "") {
        Some(Node::Object(_)) => {},
        _ => {
            return Err("config must be a JSON object".to_string());
        },
    }
    let version: u64 = match fields::get_maybe_natural(&value, "version") {
        Some(version) => version,
        None => {
            return Err(
                "config must carry integer 'version' and string 'command' fields".to_string(),
            );
        },
    };
    let name: String = match fields::get_maybe_text(&value, "command") {
        Some(name) => name,
        None => {
            return Err(
                "config must carry integer 'version' and string 'command' fields".to_string(),
            );
        },
    };
    if version != CONFIG_VERSION {
        let mut out: String = "Unsupported config version ".to_string();
        text::push_number(&mut out, version);
        return Err(out);
    }
    if !columns::string_eq(&name, command) {
        let mut out: String = "Expected command '".to_string();
        out.append(command);
        out.append("', got '");
        out.append(name.as_str());
        out.append("'");
        return Err(out);
    }
    Ok(value)
}

/// Whether a document is the part of another that stands in a field.
pub open spec fn is_part(places: Map<Seq<char>, Leaf>, name: Seq<char>, part: Value) -> bool {
    forall|rest: Seq<char>|
        rest.len() == 0 || rest[0] == '/' ==> {
            &&& #[trigger] json::places(part).contains_key(rest) <==> places.contains_key(
                fields::at(name) + rest,
            )
            &&& json::places(part).contains_key(rest) ==> json::places(part)[rest]
                == places[fields::at(name) + rest]
        }
}

/// Whether a field that is neither missing nor null holds a document.
pub open spec fn is_maybe_part(
    places: Map<Seq<char>, Leaf>,
    name: Seq<char>,
    part: Option<Value>,
) -> bool {
    if places.contains_key(fields::at(name)) && !(places[fields::at(name)] is Null) {
        part matches Some(part) && is_part(places, name, part)
    } else {
        part is None
    }
}

fn required_part(document: &Value, name: &str) -> (r: Value)
    requires
        json::places(*document).contains_key(fields::at(name@)),
    ensures
        is_part(json::places(*document), name@, r),
{
    let mut place: String = "/".to_string();
    place.append(name);
    match json::subdocument(document, place.as_str()) {
        Some(part) => part,
        None => {
            assert(false);
            vstd::pervasive::unreached()
        },
    }
}

fn maybe_part(document: &Value, name: &str) -> (r: Option<Value>)
    ensures
        is_maybe_part(json::places(*document), name@, r),
{
    let mut place: String = "/".to_string();
    place.append(name);
    match json::find(document, place.as_str()) {
        None => None,
        Some(Node::Null) => None,
        Some(_) => json::subdocument(document, place.as_str()),
    }
}

fn required_number(document: &Value, name: &str) -> (r: Double)
    requires
        fields::maybe_number(json::places(*document), name@) is Some,
    ensures
        fields::maybe_number(json::places(*document), name@) == Some(r),
{
    match fields::get_maybe_number(document, name) {
        Some(x) => x,
        None => crate::double::zero(),
    }
}

/// A run configuration of the `chain` command. Fields and defaults are those of
/// the command line.
#[derive(Debug)]
pub struct ChainV1Config {
    pub version: u64,
    pub command: String,
    pub graph_json: String,
    /// The number of output records.
    pub n_steps: u64,
    /// The relative population tolerance.
    pub tol: Double,
    pub pop_col: String,
    pub assignment_col: String,
    pub rng_seed: u64,
    pub variant: String,
    pub target_pop: Option<u64>,
    pub balance_ub: u32,
    pub n_threads: usize,
    pub batch_size: usize,
    pub writer: String,
    pub sum_cols: Vec<String>,
    /// The surcharge of each region column.
    pub region_weights: Vec<(String, Double)>,
    pub edge_weight_keys: Vec<String>,
    pub cut_edges_count: bool,
    pub output_file: Option<String>,
    pub bendl_graph_order: String,
    pub show_progress: bool,
    /// Only positions that are multiples of this are recorded.
    pub sample_interval: u64,
    /// The constraint, as a document of its own, if there is one.
    pub constraint: Option<Value>,
}

/// The rules for the fields of a `chain` configuration.
pub open spec fn chain_rules() -> Seq<Rule> {
    seq![
        Rule { name: "version"@, kind: FieldKind::Natural, required: true },
        Rule { name: "command"@, kind: FieldKind::Text, required: true },
        Rule { name: "graph_json"@, kind: FieldKind::Text, required: true },
        Rule { name: "n_steps"@, kind: FieldKind::Natural, required: true },
        Rule { name: "tol"@, kind: FieldKind::Number, required: true },
        Rule { name: "pop_col"@, kind: FieldKind::Text, required: true },
        Rule { name: "assignment_col"@, kind: FieldKind::Text, required: true },
        Rule { name: "rng_seed"@, kind: FieldKind::Natural, required: true },
        Rule { name: "variant"@, kind: FieldKind::Text, required: true },
        Rule { name: "target_pop"@, kind: FieldKind::MaybeNatural, required: false },
        Rule { name: "balance_ub"@, kind: FieldKind::Small, required: false },
        Rule { name: "n_threads"@, kind: FieldKind::Size, required: false },
        Rule { name: "batch_size"@, kind: FieldKind::Size, required: false },
        Rule { name: "writer"@, kind: FieldKind::Text, required: false },
        Rule { name: "sum_cols"@, kind: FieldKind::Texts, required: false },
        Rule { name: "region_weights"@, kind: FieldKind::Weights, required: false },
        Rule { name: "edge_weight_keys"@, kind: FieldKind::Texts, required: false },
        Rule { name: "cut_edges_count"@, kind: FieldKind::Flag, required: false },
        Rule { name: "output_file"@, kind: FieldKind::MaybeText, required: false },
        Rule { name: "bendl_graph_order"@, kind: FieldKind::Text, required: false },
        Rule { name: "show_progress"@, kind: FieldKind::Flag, required: false },
        Rule { name: "sample_interval"@, kind: FieldKind::Natural, required: false },
        Rule { name: "constraint"@, kind: FieldKind::Anything, required: false },
    ]
}

fn chain_table() -> (r: Vec<FieldRule>)
    ensures
        fields::rules_of(r@) == chain_rules(),
{
    let r: Vec<FieldRule> = vec![
        FieldRule { name: "version", kind: FieldKind::Natural, required: true },
        FieldRule { name: "command", kind: FieldKind::Text, required: true },
        FieldRule { name: "graph_json", kind: FieldKind::Text, required: true },
        FieldRule { name: "n_steps", kind: FieldKind::Natural, required: true },
        FieldRule { name: "tol", kind: FieldKind::Number, required: true },
        FieldRule { name: "pop_col", kind: FieldKind::Text, required: true },
        FieldRule { name: "assignment_col", kind: FieldKind::Text, required: true },
        FieldRule { name: "rng_seed", kind: FieldKind::Natural, required: true },
        FieldRule { name: "variant", kind: FieldKind::Text, required: true },
        FieldRule { name: "target_pop", kind: FieldKind::MaybeNatural, required: false },
        FieldRule { name: "balance_ub", kind: FieldKind::Small, required: false },
        FieldRule { name: "n_threads", kind: FieldKind::Size, required: false },
        FieldRule { name: "batch_size", kind: FieldKind::Size, required: false },
        FieldRule { name: "writer", kind: FieldKind::Text, required: false },
        FieldRule { name: "sum_cols", kind: FieldKind::Texts, required: false },
        FieldRule { name: "region_weights", kind: FieldKind::Weights, required: false },
        FieldRule { name: "edge_weight_keys", kind: FieldKind::Texts, required: false },
        FieldRule { name: "cut_edges_count", kind: FieldKind::Flag, required: false },
        FieldRule { name: "output_file", kind: FieldKind::MaybeText, required: false },
        FieldRule { name: "bendl_graph_order", kind: FieldKind::Text, required: false },
        FieldRule { name: "show_progress", kind: FieldKind::Flag, required: false },
        FieldRule { name: "sample_interval", kind: FieldKind::Natural, required: false },
        FieldRule { name: "constraint", kind: FieldKind::Anything, required: false },
    ];
    assert(fields::rules_of(r@) =~= chain_rules());
    r
}

/// Whether a configuration holds the fields of a document, and defaults for those
/// that it lacks.
pub open spec fn chain_document(places: Map<Seq<char>, Leaf>, document: ChainV1Config) -> bool {
    &&& document.version == fields::natural_or(places, "version"@, 0)
    &&& document.command@ == fields::text_or(places, "command"@, ""@)
    &&& document.graph_json@ == fields::text_or(places, "graph_json"@, ""@)
    &&& document.n_steps == fields::natural_or(places, "n_steps"@, 0)
    &&& fields::maybe_number(places, "tol"@) == Some(document.tol)
    &&& document.pop_col@ == fields::text_or(places, "pop_col"@, ""@)
    &&& document.assignment_col@ == fields::text_or(places, "assignment_col"@, ""@)
    &&& document.rng_seed == fields::natural_or(places, "rng_seed"@, 0)
    &&& document.variant@ == fields::text_or(places, "variant"@, ""@)
    &&& document.target_pop == fields::maybe_natural(places, "target_pop"@)
    &&& document.balance_ub == fields::natural_or(places, "balance_ub"@, 0)
    &&& document.n_threads == fields::natural_or(places, "n_threads"@, 1)
    &&& document.batch_size == fields::natural_or(places, "batch_size"@, 1)
    &&& document.writer@ == fields::text_or(places, "writer"@, "jsonl"@)
    &&& vectors::texts(document.sum_cols@) == fields::texts_or_none(places, "sum_cols"@)
    &&& fields::weights_or_none(places, "region_weights"@, document.region_weights@)
    &&& vectors::texts(document.edge_weight_keys@) == fields::texts_or_none(places, "edge_weight_keys"@)
    &&& document.cut_edges_count == fields::flag_or(places, "cut_edges_count"@, false)
    &&& json::opt_text(document.output_file) == fields::maybe_text(places, "output_file"@)
    &&& document.bendl_graph_order@ == fields::text_or(places, "bendl_graph_order"@, "none"@)
    &&& document.show_progress == fields::flag_or(places, "show_progress"@, false)
    &&& document.sample_interval == fields::natural_or(places, "sample_interval"@, 1)
    &&& is_maybe_part(places, "constraint"@, document.constraint)
}

/// A configuration together with the exact text that it was read from.
#[derive(Debug)]
pub struct LoadedChainConfig {
    pub raw: String,
    pub document: ChainV1Config,
}

/// Reads a `chain` configuration. It is read where the envelope is right,
/// every field holds what it should, and no field is unknown.
pub fn parse_chain_config(raw: &str) -> (r: Result<LoadedChainConfig, String>)
    ensures
        match json::parsed_places(raw@) {
            None => r matches Err(e) && bad_json(e@),
            Some(places) => match envelope_error(places, "chain"@) {
                Some(message) => r matches Err(e) && e@ == message,
                None => match r {
                    Ok(loaded) => {
                        &&& fields::checked(places, chain_rules(), Ok(()))
                        &&& loaded.raw@ == raw@
                        &&& chain_document(places, loaded.document)
                    },
                    Err(e) => exists|reason: String|
                        e@ == "Invalid chain config: "@ + #[trigger] reason@ && fields::checked(
                            places,
                            chain_rules(),
                            Err(reason),
                        ),
                },
            },
        },
{
    let value: Value = match checked_config_value(raw, "chain") {
        Ok(value) => value,
        Err(e) => {
            return Err(e);
        },
    };
    let ghost places = json::places(value);
    let table: Vec<FieldRule> = chain_table();
    match fields::check_fields(&value, &table) {
        Ok(()) => {},
        Err(reason) => {
            let mut out: String = "Invalid chain config: ".to_string();
            out.append(reason.as_str());
            return Err(out);
        },
    }
    proof {
        assert(chain_rules().len() == 23);
        chain_keeps(places, 0);
        chain_keeps(places, 1);
        chain_keeps(places, 2);
        chain_keeps(places, 3);
        chain_keeps(places, 4);
        chain_keeps(places, 5);
        chain_keeps(places, 6);
        chain_keeps(places, 7);
        chain_keeps(places, 8);
        chain_keeps(places, 10);
        chain_keeps(places, 11);
        chain_keeps(places, 12);
        chain_keeps(places, 14);
        chain_keeps(places, 15);
        chain_keeps(places, 16);
    }
    let document: ChainV1Config = ChainV1Config {
        version: fields::get_natural_or(&value, "version", 0),
        command: fields::get_text_or(&value, "command", String::new()),
        graph_json: fields::get_text_or(&value, "graph_json", String::new()),
        n_steps: fields::get_natural_or(&value, "n_steps", 0),
        tol: required_number(&value, "tol"),
        pop_col: fields::get_text_or(&value, "pop_col", String::new()),
        assignment_col: fields::get_text_or(&value, "assignment_col", String::new()),
        rng_seed: fields::get_natural_or(&value, "rng_seed", 0),
        variant: fields::get_text_or(&value, "variant", String::new()),
        target_pop: fields::get_maybe_natural(&value, "target_pop"),
        balance_ub: fields::get_natural_or(&value, "balance_ub", 0) as u32,
        n_threads: fields::get_natural_or(&value, "n_threads", default_one_usize() as u64) as usize,
        batch_size: fields::get_natural_or(&value, "batch_size", default_one_usize() as u64) as usize,
        writer: fields::get_text_or(&value, "writer", default_writer()),
        sum_cols: fields::get_texts(&value, "sum_cols"),
        region_weights: fields::get_weights(&value, "region_weights"),
        edge_weight_keys: fields::get_texts(&value, "edge_weight_keys"),
        cut_edges_count: fields::get_flag_or(&value, "cut_edges_count", false),
        output_file: fields::get_maybe_text(&value, "output_file"),
        bendl_graph_order: fields::get_text_or(&value, "bendl_graph_order", default_bendl_graph_order()),
        show_progress: fields::get_flag_or(&value, "show_progress", false),
        sample_interval: fields::get_natural_or(&value, "sample_interval", 1),
        constraint: maybe_part(&value, "constraint"),
    };
    Ok(LoadedChainConfig { raw: raw.to_string(), document })
}

proof fn chain_keeps(places: Map<Seq<char>, Leaf>, i: int)
    requires
        fields::checked(places, chain_rules(), Ok(())),
        0 <= i < chain_rules().len(),
    ensures
        fields::problem(places, chain_rules()[i]) is None,
{
    fields::kept_rules(places, chain_rules(), 0, i);
}

/// A run configuration of the `short-bursts` command. Fields and defaults are those of
/// the command line.
#[derive(Debug)]
pub struct ShortBurstsV1Config {
    pub version: u64,
    pub command: String,
    pub graph_json: String,
    /// The number of output records.
    pub n_steps: u64,
    /// The relative population tolerance.
    pub tol: Double,
    pub pop_col: String,
    pub assignment_col: String,
    pub rng_seed: u64,
    pub burst_length: usize,
    /// The objective, as a document of its own.
    pub objective: Value,
    pub maximize: bool,
    pub n_threads: usize,
    pub variant: String,
    pub writer: String,
    pub sum_cols: Vec<String>,
    pub partial_sum_cols: Vec<String>,
    /// The surcharge of each region column.
    pub region_weights: Vec<(String, Double)>,
    pub edge_weight_keys: Vec<String>,
    pub output_file: Option<String>,
    pub scores_output_file: Option<String>,
    pub bendl_graph_order: String,
    pub show_progress: bool,
    pub write_improved_scores_only: bool,
}

/// The rules for the fields of a `short-bursts` configuration.
pub open spec fn short_bursts_rules() -> Seq<Rule> {
    seq![
        Rule { name: "version"@, kind: FieldKind::Natural, required: true },
        Rule { name: "command"@, kind: FieldKind::Text, required: true },
        Rule { name: "graph_json"@, kind: FieldKind::Text, required: true },
        Rule { name: "n_steps"@, kind: FieldKind::Natural, required: true },
        Rule { name: "tol"@, kind: FieldKind::Number, required: true },
        Rule { name: "pop_col"@, kind: FieldKind::Text, required: true },
        Rule { name: "assignment_col"@, kind: FieldKind::Text, required: true },
        Rule { name: "rng_seed"@, kind: FieldKind::Natural, required: true },
        Rule { name: "burst_length"@, kind: FieldKind::Size, required: true },
        Rule { name: "objective"@, kind: FieldKind::Anything, required: true },
        Rule { name: "maximize"@, kind: FieldKind::Flag, required: false },
        Rule { name: "n_threads"@, kind: FieldKind::Size, required: false },
        Rule { name: "variant"@, kind: FieldKind::Text, required: false },
        Rule { name: "writer"@, kind: FieldKind::Text, required: false },
        Rule { name: "sum_cols"@, kind: FieldKind::Texts, required: false },
        Rule { name: "partial_sum_cols"@, kind: FieldKind::Texts, required: false },
        Rule { name: "region_weights"@, kind: FieldKind::Weights, required: false },
        Rule { name: "edge_weight_keys"@, kind: FieldKind::Texts, required: false },
        Rule { name: "output_file"@, kind: FieldKind::MaybeText, required: false },
        Rule { name: "scores_output_file"@, kind: FieldKind::MaybeText, required: false },
        Rule { name: "bendl_graph_order"@, kind: FieldKind::Text, required: false },
        Rule { name: "show_progress"@, kind: FieldKind::Flag, required: false },
        Rule { name: "write_improved_scores_only"@, kind: FieldKind::Flag, required: false },
    ]
}

fn short_bursts_table() -> (r: Vec<FieldRule>)
    ensures
        fields::rules_of(r@) == short_bursts_rules(),
{
    let r: Vec<FieldRule> = vec![
        FieldRule { name: "version", kind: FieldKind::Natural, required: true },
        FieldRule { name: "command", kind: FieldKind::Text, required: true },
        FieldRule { name: "graph_json", kind: FieldKind::Text, required: true },
        FieldRule { name: "n_steps", kind: FieldKind::Natural, required: true },
        FieldRule { name: "tol", kind: FieldKind::Number, required: true },
        FieldRule { name: "pop_col", kind: FieldKind::Text, required: true },
        FieldRule { name: "assignment_col", kind: FieldKind::Text, required: true },
        FieldRule { name: "rng_seed", kind: FieldKind::Natural, required: true },
        FieldRule { name: "burst_length", kind: FieldKind::Size, required: true },
        FieldRule { name: "objective", kind: FieldKind::Anything, required: true },
        FieldRule { name: "maximize", kind: FieldKind::Flag, required: false },
        FieldRule { name: "n_threads", kind: FieldKind::Size, required: false },
        FieldRule { name: "variant", kind: FieldKind::Text, required: false },
        FieldRule { name: "writer", kind: FieldKind::Text, required: false },
        FieldRule { name: "sum_cols", kind: FieldKind::Texts, required: false },
        FieldRule { name: "partial_sum_cols", kind: FieldKind::Texts, required: false },
        FieldRule { name: "region_weights", kind: FieldKind::Weights, required: false },
        FieldRule { name: "edge_weight_keys", kind: FieldKind::Texts, required: false },
        FieldRule { name: "output_file", kind: FieldKind::MaybeText, required: false },
        FieldRule { name: "scores_output_file", kind: FieldKind::MaybeText, required: false },
        FieldRule { name: "bendl_graph_order", kind: FieldKind::Text, required: false },
        FieldRule { name: "show_progress", kind: FieldKind::Flag, required: false },
        FieldRule { name: "write_improved_scores_only", kind: FieldKind::Flag, required: false },
    ];
    assert(fields::rules_of(r@) =~= short_bursts_rules());
    r
}

/// Whether a configuration holds the fields of a document, and defaults for those
/// that it lacks.
pub open spec fn short_bursts_document(places: Map<Seq<char>, Leaf>, document: ShortBurstsV1Config) -> bool {
    &&& document.version == fields::natural_or(places, "version"@, 0)
    &&& document.command@ == fields::text_or(places, "command"@, ""@)
    &&& document.graph_json@ == fields::text_or(places, "graph_json"@, ""@)
    &&& document.n_steps == fields::natural_or(places, "n_steps"@, 0)
    &&& fields::maybe_number(places, "tol"@) == Some(document.tol)
    &&& document.pop_col@ == fields::text_or(places, "pop_col"@, ""@)
    &&& document.assignment_col@ == fields::text_or(places, "assignment_col"@, ""@)
    &&& document.rng_seed == fields::natural_or(places, "rng_seed"@, 0)
    &&& document.burst_length == fields::natural_or(places, "burst_length"@, 0)
    &&& is_part(places, "objective"@, document.objective)
    &&& document.maximize == fields::flag_or(places, "maximize"@, true)
    &&& document.n_threads == fields::natural_or(places, "n_threads"@, 1)
    &&& document.variant@ == fields::text_or(places, "variant"@, "district-pairs-rmst"@)
    &&& document.writer@ == fields::text_or(places, "writer"@, "assignments"@)
    &&& vectors::texts(document.sum_cols@) == fields::texts_or_none(places, "sum_cols"@)
    &&& vectors::texts(document.partial_sum_cols@) == fields::texts_or_none(places, "partial_sum_cols"@)
    &&& fields::weights_or_none(places, "region_weights"@, document.region_weights@)
    &&& vectors::texts(document.edge_weight_keys@) == fields::texts_or_none(places, "edge_weight_keys"@)
    &&& json::opt_text(document.output_file) == fields::maybe_text(places, "output_file"@)
    &&& json::opt_text(document.scores_output_file) == fields::maybe_text(places, "scores_output_file"@)
    &&& document.bendl_graph_order@ == fields::text_or(places, "bendl_graph_order"@, "none"@)
    &&& document.show_progress == fields::flag_or(places, "show_progress"@, false)
    &&& document.write_improved_scores_only == fields::flag_or(places, "write_improved_scores_only"@, false)
}

/// A configuration together with the exact text that it was read from.
#[derive(Debug)]
pub struct LoadedShortBurstsConfig {
    pub raw: String,
    pub document: ShortBurstsV1Config,
}

/// Reads a `short-bursts` configuration. It is read where the envelope is right,
/// every field holds what it should, and no field is unknown.
pub fn parse_short_bursts_config(raw: &str) -> (r: Result<LoadedShortBurstsConfig, String>)
    ensures
        match json::parsed_places(raw@) {
            None => r matches Err(e) && bad_json(e@),
            Some(places) => match envelope_error(places, "short-bursts"@) {
                Some(message) => r matches Err(e) && e@ == message,
                None => match r {
                    Ok(loaded) => {
                        &&& fields::checked(places, short_bursts_rules(), Ok(()))
                        &&& loaded.raw@ == raw@
                        &&& short_bursts_document(places, loaded.document)
                    },
                    Err(e) => exists|reason: String|
                        e@ == "Invalid short-bursts config: "@ + #[trigger] reason@ && fields::checked(
                            places,
                            short_bursts_rules(),
                            Err(reason),
                        ),
                },
            },
        },
{
    let value: Value = match checked_config_value(raw, "short-bursts") {
        Ok(value) => value,
        Err(e) => {
            return Err(e);
        },
    };
    let ghost places = json::places(value);
    let table: Vec<FieldRule> = short_bursts_table();
    match fields::check_fields(&value, &table) {
        Ok(()) => {},
        Err(reason) => {
            let mut out: String = "Invalid short-bursts config: ".to_string();
            out.append(reason.as_str());
            return Err(out);
        },
    }
    proof {
        assert(short_bursts_rules().len() == 23);
        short_bursts_keeps(places, 0);
        short_bursts_keeps(places, 1);
        short_bursts_keeps(places, 2);
        short_bursts_keeps(places, 3);
        short_bursts_keeps(places, 4);
        short_bursts_keeps(places, 5);
        short_bursts_keeps(places, 6);
        short_bursts_keeps(places, 7);
        short_bursts_keeps(places, 8);
        short_bursts_keeps(places, 9);
        short_bursts_keeps(places, 11);
        short_bursts_keeps(places, 14);
        short_bursts_keeps(places, 15);
        short_bursts_keeps(places, 16);
        short_bursts_keeps(places, 17);
    }
    let document: ShortBurstsV1Config = ShortBurstsV1Config {
        version: fields::get_natural_or(&value, "version", 0),
        command: fields::get_text_or(&value, "command", String::new()),
        graph_json: fields::get_text_or(&value, "graph_json", String::new()),
        n_steps: fields::get_natural_or(&value, "n_steps", 0),
        tol: required_number(&value, "tol"),
        pop_col: fields::get_text_or(&value, "pop_col", String::new()),
        assignment_col: fields::get_text_or(&value, "assignment_col", String::new()),
        rng_seed: fields::get_natural_or(&value, "rng_seed", 0),
        burst_length: fields::get_natural_or(&value, "burst_length", 0) as usize,
        objective: required_part(&value, "objective"),
        maximize: fields::get_flag_or(&value, "maximize", default_true()),
        n_threads: fields::get_natural_or(&value, "n_threads", default_one_usize() as u64) as usize,
        variant: fields::get_text_or(&value, "variant", default_optimizer_variant()),
        writer: fields::get_text_or(&value, "writer", default_optimizer_writer()),
        sum_cols: fields::get_texts(&value, "sum_cols"),
        partial_sum_cols: fields::get_texts(&value, "partial_sum_cols"),
        region_weights: fields::get_weights(&value, "region_weights"),
        edge_weight_keys: fields::get_texts(&value, "edge_weight_keys"),
        output_file: fields::get_maybe_text(&value, "output_file"),
        scores_output_file: fields::get_maybe_text(&value, "scores_output_file"),
        bendl_graph_order: fields::get_text_or(&value, "bendl_graph_order", default_bendl_graph_order()),
        show_progress: fields::get_flag_or(&value, "show_progress", false),
        write_improved_scores_only: fields::get_flag_or(&value, "write_improved_scores_only", false),
    };
    Ok(LoadedShortBurstsConfig { raw: raw.to_string(), document })
}

proof fn short_bursts_keeps(places: Map<Seq<char>, Leaf>, i: int)
    requires
        fields::checked(places, short_bursts_rules(), Ok(())),
        0 <= i < short_bursts_rules().len(),
    ensures
        fields::problem(places, short_bursts_rules()[i]) is None,
{
    fields::kept_rules(places, short_bursts_rules(), 0, i);
}

/// A run configuration of the `tilted` command. Fields and defaults are those of
/// the command line.
#[derive(Debug)]
pub struct TiltedV1Config {
    pub version: u64,
    pub command: String,
    pub graph_json: String,
    /// The number of output records.
    pub n_steps: u64,
    /// The relative population tolerance.
    pub tol: Double,
    pub pop_col: String,
    pub assignment_col: String,
    pub rng_seed: u64,
    /// The objective, as a document of its own.
    pub objective: Value,
    pub accept_rule: String,
    pub accept_worse_prob: Option<Double>,
    pub acceptance_beta: Option<Double>,
    pub maximize: bool,
    pub n_threads: usize,
    pub variant: String,
    pub writer: String,
    pub sum_cols: Vec<String>,
    pub partial_sum_cols: Vec<String>,
    /// The surcharge of each region column.
    pub region_weights: Vec<(String, Double)>,
    pub edge_weight_keys: Vec<String>,
    pub output_file: Option<String>,
    pub scores_output_file: Option<String>,
    pub bendl_graph_order: String,
    pub show_progress: bool,
    pub write_improved_scores_only: bool,
}

/// The rules for the fields of a `tilted` configuration.
pub open spec fn tilted_rules() -> Seq<Rule> {
    seq![
        Rule { name: "version"@, kind: FieldKind::Natural, required: true },
        Rule { name: "command"@, kind: FieldKind::Text, required: true },
        Rule { name: "graph_json"@, kind: FieldKind::Text, required: true },
        Rule { name: "n_steps"@, kind: FieldKind::Natural, required: true },
        Rule { name: "tol"@, kind: FieldKind::Number, required: true },
        Rule { name: "pop_col"@, kind: FieldKind::Text, required: true },
        Rule { name: "assignment_col"@, kind: FieldKind::Text, required: true },
        Rule { name: "rng_seed"@, kind: FieldKind::Natural, required: true },
        Rule { name: "objective"@, kind: FieldKind::Anything, required: true },
        Rule { name: "accept_rule"@, kind: FieldKind::Text, required: false },
        Rule { name: "accept_worse_prob"@, kind: FieldKind::MaybeNumber, required: false },
        Rule { name: "acceptance_beta"@, kind: FieldKind::MaybeNumber, required: false },
        Rule { name: "maximize"@, kind: FieldKind::Flag, required: false },
        Rule { name: "n_threads"@, kind: FieldKind::Size, required: false },
        Rule { name: "variant"@, kind: FieldKind::Text, required: false },
        Rule { name: "writer"@, kind: FieldKind::Text, required: false },
        Rule { name: "sum_cols"@, kind: FieldKind::Texts, required: false },
        Rule { name: "partial_sum_cols"@, kind: FieldKind::Texts, required: false },
        Rule { name: "region_weights"@, kind: FieldKind::Weights, required: false },
        Rule { name: "edge_weight_keys"@, kind: FieldKind::Texts, required: false },
        Rule { name: "output_file"@, kind: FieldKind::MaybeText, required: false },
        Rule { name: "scores_output_file"@, kind: FieldKind::MaybeText, required: false },
        Rule { name: "bendl_graph_order"@, kind: FieldKind::Text, required: false },
        Rule { name: "show_progress"@, kind: FieldKind::Flag, required: false },
        Rule { name: "write_improved_scores_only"@, kind: FieldKind::Flag, required: false },
    ]
}

fn tilted_table() -> (r: Vec<FieldRule>)
    ensures
        fields::rules_of(r@) == tilted_rules(),
{
    let r: Vec<FieldRule> = vec![
        FieldRule { name: "version", kind: FieldKind::Natural, required: true },
        FieldRule { name: "command", kind: FieldKind::Text, required: true },
        FieldRule { name: "graph_json", kind: FieldKind::Text, required: true },
        FieldRule { name: "n_steps", kind: FieldKind::Natural, required: true },
        FieldRule { name: "tol", kind: FieldKind::Number, required: true },
        FieldRule { name: "pop_col", kind: FieldKind::Text, required: true },
        FieldRule { name: "assignment_col", kind: FieldKind::Text, required: true },
        FieldRule { name: "rng_seed", kind: FieldKind::Natural, required: true },
        FieldRule { name: "objective", kind: FieldKind::Anything, required: true },
        FieldRule { name: "accept_rule", kind: FieldKind::Text, required: false },
        FieldRule { name: "accept_worse_prob", kind: FieldKind::MaybeNumber, required: false },
        FieldRule { name: "acceptance_beta", kind: FieldKind::MaybeNumber, required: false },
        FieldRule { name: "maximize", kind: FieldKind::Flag, required: false },
        FieldRule { name: "n_threads", kind: FieldKind::Size, required: false },
        FieldRule { name: "variant", kind: FieldKind::Text, required: false },
        FieldRule { name: "writer", kind: FieldKind::Text, required: false },
        FieldRule { name: "sum_cols", kind: FieldKind::Texts, required: false },
        FieldRule { name: "partial_sum_cols", kind: FieldKind::Texts, required: false },
        FieldRule { name: "region_weights", kind: FieldKind::Weights, required: false },
        FieldRule { name: "edge_weight_keys", kind: FieldKind::Texts, required: false },
        FieldRule { name: "output_file", kind: FieldKind::MaybeText, required: false },
        FieldRule { name: "scores_output_file", kind: FieldKind::MaybeText, required: false },
        FieldRule { name: "bendl_graph_order", kind: FieldKind::Text, required: false },
        FieldRule { name: "show_progress", kind: FieldKind::Flag, required: false },
        FieldRule { name: "write_improved_scores_only", kind: FieldKind::Flag, required: false },
    ];
    assert(fields::rules_of(r@) =~= tilted_rules());
    r
}

/// Whether a configuration holds the fields of a document, and defaults for those
/// that it lacks.
pub open spec fn tilted_document(places: Map<Seq<char>, Leaf>, document: TiltedV1Config) -> bool {
    &&& document.version == fields::natural_or(places, "version"@, 0)
    &&& document.command@ == fields::text_or(places, "command"@, ""@)
    &&& document.graph_json@ == fields::text_or(places, "graph_json"@, ""@)
    &&& document.n_steps == fields::natural_or(places, "n_steps"@, 0)
    &&& fields::maybe_number(places, "tol"@) == Some(document.tol)
    &&& document.pop_col@ == fields::text_or(places, "pop_col"@, ""@)
    &&& document.assignment_col@ == fields::text_or(places, "assignment_col"@, ""@)
    &&& document.rng_seed == fields::natural_or(places, "rng_seed"@, 0)
    &&& is_part(places, "objective"@, document.objective)
    &&& document.accept_rule@ == fields::text_or(places, "accept_rule"@, "linear"@)
    &&& document.accept_worse_prob == fields::maybe_number(places, "accept_worse_prob"@)
    &&& document.acceptance_beta == fields::maybe_number(places, "acceptance_beta"@)
    &&& document.maximize == fields::flag_or(places, "maximize"@, true)
    &&& document.n_threads == fields::natural_or(places, "n_threads"@, 1)
    &&& document.variant@ == fields::text_or(places, "variant"@, "district-pairs-rmst"@)
    &&& document.writer@ == fields::text_or(places, "writer"@, "assignments"@)
    &&& vectors::texts(document.sum_cols@) == fields::texts_or_none(places, "sum_cols"@)
    &&& vectors::texts(document.partial_sum_cols@) == fields::texts_or_none(places, "partial_sum_cols"@)
    &&& fields::weights_or_none(places, "region_weights"@, document.region_weights@)
    &&& vectors::texts(document.edge_weight_keys@) == fields::texts_or_none(places, "edge_weight_keys"@)
    &&& json::opt_text(document.output_file) == fields::maybe_text(places, "output_file"@)
    &&& json::opt_text(document.scores_output_file) == fields::maybe_text(places, "scores_output_file"@)
    &&& document.bendl_graph_order@ == fields::text_or(places, "bendl_graph_order"@, "none"@)
    &&& document.show_progress == fields::flag_or(places, "show_progress"@, false)
    &&& document.write_improved_scores_only == fields::flag_or(places, "write_improved_scores_only"@, false)
}

/// A configuration together with the exact text that it was read from.
#[derive(Debug)]
pub struct LoadedTiltedConfig {
    pub raw: String,
    pub document: TiltedV1Config,
}

/// Reads a `tilted` configuration. It is read where the envelope is right,
/// every field holds what it should, and no field is unknown.
pub fn parse_tilted_config(raw: &str) -> (r: Result<LoadedTiltedConfig, String>)
    ensures
        match json::parsed_places(raw@) {
            None => r matches Err(e) && bad_json(e@),
            Some(places) => match envelope_error(places, "tilted"@) {
                Some(message) => r matches Err(e) && e@ == message,
                None => match r {
                    Ok(loaded) => {
                        &&& fields::checked(places, tilted_rules(), Ok(()))
                        &&& loaded.raw@ == raw@
                        &&& tilted_document(places, loaded.document)
                    },
                    Err(e) => exists|reason: String|
                        e@ == "Invalid tilted config: "@ + #[trigger] reason@ && fields::checked(
                            places,
                            tilted_rules(),
                            Err(reason),
                        ),
                },
            },
        },
{
    let value: Value = match checked_config_value(raw, "tilted") {
        Ok(value) => value,
        Err(e) => {
            return Err(e);
        },
    };
    let ghost places = json::places(value);
    let table: Vec<FieldRule> = tilted_table();
    match fields::check_fields(&value, &table) {
        Ok(()) => {},
        Err(reason) => {
            let mut out: String = "Invalid tilted config: ".to_string();
            out.append(reason.as_str());
            return Err(out);
        },
    }
    proof {
        assert(tilted_rules().len() == 25);
        tilted_keeps(places, 0);
        tilted_keeps(places, 1);
        tilted_keeps(places, 2);
        tilted_keeps(places, 3);
        tilted_keeps(places, 4);
        tilted_keeps(places, 5);
        tilted_keeps(places, 6);
        tilted_keeps(places, 7);
        tilted_keeps(places, 8);
        tilted_keeps(places, 13);
        tilted_keeps(places, 16);
        tilted_keeps(places, 17);
        tilted_keeps(places, 18);
        tilted_keeps(places, 19);
    }
    let document: TiltedV1Config = TiltedV1Config {
        version: fields::get_natural_or(&value, "version", 0),
        command: fields::get_text_or(&value, "command", String::new()),
        graph_json: fields::get_text_or(&value, "graph_json", String::new()),
        n_steps: fields::get_natural_or(&value, "n_steps", 0),
        tol: required_number(&value, "tol"),
        pop_col: fields::get_text_or(&value, "pop_col", String::new()),
        assignment_col: fields::get_text_or(&value, "assignment_col", String::new()),
        rng_seed: fields::get_natural_or(&value, "rng_seed", 0),
        objective: required_part(&value, "objective"),
        accept_rule: fields::get_text_or(&value, "accept_rule", default_accept_rule()),
        accept_worse_prob: fields::get_maybe_number(&value, "accept_worse_prob"),
        acceptance_beta: fields::get_maybe_number(&value, "acceptance_beta"),
        maximize: fields::get_flag_or(&value, "maximize", default_true()),
        n_threads: fields::get_natural_or(&value, "n_threads", default_one_usize() as u64) as usize,
        variant: fields::get_text_or(&value, "variant", default_optimizer_variant()),
        writer: fields::get_text_or(&value, "writer", default_optimizer_writer()),
        sum_cols: fields::get_texts(&value, "sum_cols"),
        partial_sum_cols: fields::get_texts(&value, "partial_sum_cols"),
        region_weights: fields::get_weights(&value, "region_weights"),
        edge_weight_keys: fields::get_texts(&value, "edge_weight_keys"),
        output_file: fields::get_maybe_text(&value, "output_file"),
        scores_output_file: fields::get_maybe_text(&value, "scores_output_file"),
        bendl_graph_order: fields::get_text_or(&value, "bendl_graph_order", default_bendl_graph_order()),
        show_progress: fields::get_flag_or(&value, "show_progress", false),
        write_improved_scores_only: fields::get_flag_or(&value, "write_improved_scores_only", false),
    };
    Ok(LoadedTiltedConfig { raw: raw.to_string(), document })
}

proof fn tilted_keeps(places: Map<Seq<char>, Leaf>, i: int)
    requires
        fields::checked(places, tilted_rules(), Ok(())),
        0 <= i < tilted_rules().len(),
    ensures
        fields::problem(places, tilted_rules()[i]) is None,
{
    fields::kept_rules(places, tilted_rules(), 0, i);
}

/// The keys by which weights are sorted: larger weights have smaller keys.
pub open spec fn weight_keys(weights: Seq<(String, Double)>) -> Seq<u64> {
    Seq::new(
        weights.len(),
        |i: int| (u64::MAX - weights[i].1.total_position()) as u64,
    )
}

/// Region weights by falling weight, in the total order of doubles. Weights
/// that are equal keep their places.
pub open spec fn by_falling_weight(
    weights: Seq<(String, Double)>,
    sorted: Seq<(String, Double)>,
) -> bool {
    exists|order: Seq<usize>| #[trigger]
        sorting::stable_order_of(weight_keys(weights), order) && sorted.len() == weights.len()
            && forall|i: int|
            0 <= i < sorted.len() ==> {
                &&& (#[trigger] sorted[i]).0@ == weights[order[i] as int].0@
                &&& sorted[i].1 == weights[order[i] as int].1
            }
}

/// Region weights by falling weight, if there are any.
pub fn region_weights_from_map(weights: &Vec<(String, Double)>) -> (r: Option<
    Vec<(String, Double)>,
>)
    ensures
        match r {
            None => weights.len() == 0,
            Some(sorted) => weights.len() > 0 && by_falling_weight(weights@, sorted@),
        },
{
    if weights.len() == 0 {
        return None;
    }
    let mut keys: Vec<u64> = Vec::new();
    let mut i: usize = 0;
    while i < weights.len()
        invariant
            i <= weights.len(),
            keys@ == weight_keys(weights@).take(i as int),
        decreases weights.len() - i,
    {
        let x: Double = weights[i].1;
        keys.push(u64::MAX - x.total_key());
        i += 1;
        assert(keys@ =~= weight_keys(weights@).take(i as int));
    }
    assert(keys@ =~= weight_keys(weights@));
    let order: Vec<usize> = sorting::stable_order(&keys);
    let mut sorted: Vec<(String, Double)> = Vec::new();
    i = 0;
    while i < order.len()
        invariant
            i <= order.len(),
            sorting::stable_order_of(weight_keys(weights@), order@),
            sorted.len() == i,
            forall|j: int|
                0 <= j < i ==> {
                    &&& (#[trigger] sorted[j]).0@ == weights[order[j] as int].0@
                    &&& sorted[j].1 == weights[order[j] as int].1
                },
        decreases order.len() - i,
    {
        assert(order@.contains(order@[i as int]));
        let entry: &(String, Double) = &weights[order[i]];
        sorted.push((entry.0.as_str().to_string(), entry.1));
        i += 1;
    }
    Some(sorted)
}

/// Reads region weights from a JSON object, by falling weight. An empty text
/// gives none.
pub fn parse_region_weights_config(region_weights_raw: &str) -> (r: Result<
    Option<Vec<(String, Double)>>,
    String,
>)
    ensures
        region_weights_raw@.len() == 0 ==> r matches Ok(None),
        region_weights_raw@.len() > 0 ==> match json::parsed_places(region_weights_raw@) {
            Some(places) => if places.contains_key(""@) && fields::weights_at(places, ""@) {
                exists|weights: Seq<(String, Double)>| #[trigger]
                    fields::weights_listed(places, ""@, weights) && match r {
                        Ok(Some(sorted)) => weights.len() > 0 && by_falling_weight(
                            weights,
                            sorted@,
                        ),
                        Ok(None) => weights.len() == 0,
                        Err(_) => false,
                    }
            } else {
                r is Err
            },
            None => r is Err,
        },
{
    if region_weights_raw.unicode_len() == 0 {
        return Ok(None);
    }
    let document: Value = match json::parse(region_weights_raw) {
        Ok(document) => document,
        Err(reason) => {
            let mut out: String = "Invalid region weights: ".to_string();
            out.append(reason.as_str());
            return Err(out);
        },
    };
    if json::find(&document, "").is_none() || !fields::object_of_numbers(&document, "") {
        return Err("Invalid region weights: expected an object of numbers".to_string());
    }
    let weights: Vec<(String, Double)> = fields::list_weights(&document, "");
    Ok(region_weights_from_map(&weights))
}

/// No weight comes before a heavier one, and each weight comes once.
pub proof fn heavier_weights_come_first(
    weights: Seq<(String, Double)>,
    sorted: Seq<(String, Double)>,
    i: int,
    j: int,
)
    requires
        by_falling_weight(weights, sorted),
        weights.len() <= usize::MAX,
        0 <= i < j < sorted.len(),
    ensures
        sorted[j].1.total_position() <= sorted[i].1.total_position(),
        exists|k: int, l: int|
            #![trigger weights[k], weights[l]]
            0 <= k < weights.len() && 0 <= l < weights.len() && k != l && weights[k].1
                == sorted[i].1 && weights[k].0@ == sorted[i].0@ && weights[l].1 == sorted[j].1
                && weights[l].0@ == sorted[j].0@,
{
    let keys = weight_keys(weights);
    let order = choose|order: Seq<usize>| #[trigger]
        sorting::stable_order_of(keys, order) && sorted.len() == weights.len() && forall|n: int|
            0 <= n < sorted.len() ==> {
                &&& (#[trigger] sorted[n]).0@ == weights[order[n] as int].0@
                &&& sorted[n].1 == weights[order[n] as int].1
            };
    assert(sorting::precedes(keys, order[i], order[j]));
    assert(order.contains(order[i]) && order.contains(order[j]));
    assert(weights[order[i] as int].1 == sorted[i].1);
    assert(weights[order[j] as int].1 == sorted[j].1);
}

} // verus!
