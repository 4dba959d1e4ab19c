//! The arguments of a chain run, and what follows from them.

use vstd::prelude::*;
use crate::bendl;
use crate::bendl::BendlGraphOrder;
use crate::cli::provenance::Meta;
use crate::cli::{inputs, paths, variants, writer};
use crate::columns;
use crate::config;
use crate::config::{ChainV1Config, LoadedChainConfig};
use crate::constraints;
use crate::constraints::{ConstraintConfig, FloorFields};
use crate::double;
use crate::double::{Arithmetic, Double, Op};
use crate::recom::proposal::RecomVariant;
use crate::{json, text, vectors};

verus! {

/// The arguments of a chain run, from the command line or a configuration.
pub struct ResolvedChainArgs<F> {
    pub graph_path: String,
    pub n_steps: u64,
    pub target_pop: Option<u64>,
    pub tol: Double,
    pub pop_col: String,
    pub assignment_col: String,
    pub rng_seed: u64,
    pub balance_ub: u32,
    pub n_threads: usize,
    pub batch_size: usize,
    pub variant: String,
    pub writer: String,
    pub sum_cols: Vec<String>,
    pub constraint: ConstraintConfig<F>,
    /// The constraint as the command line has it, if it has one.
    pub cli_constraint_json: Option<String>,
    pub region_weights: Option<Vec<(String, Double)>>,
    pub edge_weight_keys: Vec<String>,
    pub cut_edges_count: bool,
    pub output_file: Option<String>,
    pub bendl_graph_order: String,
    pub show_progress: bool,
    pub st_counts: bool,
    pub sample_interval: u64,
    /// The exact text of the configuration, if there is one.
    pub raw_config: Option<String>,
}

/// Whether a constraint is the one that an optional document configures.
pub open spec fn is_constraint<F: Fn(Op, Double, Double) -> Double>(
    document: Option<serde_json::Value>,
    arithmetic: Arithmetic<F>,
    constraint: ConstraintConfig<F>,
) -> bool {
    match document {
        None => constraint is Unconstrained,
        Some(document) => constraint matches ConstraintConfig::DistrictShareFloor(c)
            && constraints::constraint_outcome(document) == Ok::<FloorFields, Seq<char>>(
            (FloorFields {
                numerator: c.numerator(),
                denominators: c.denominators(),
                threshold: c.floor(),
            }),
        ) && c.numbers() == arithmetic,
    }
}

/// Whether region weights are those of a configuration, by falling weight.
pub open spec fn are_weights(
    given: Seq<(String, Double)>,
    weights: Option<Vec<(String, Double)>>,
) -> bool {
    match weights {
        None => given.len() == 0,
        Some(sorted) => given.len() > 0 && config::by_falling_weight(given, sorted@),
    }
}

/// Whether arguments are those of a configuration.
pub open spec fn from_document<F: Fn(Op, Double, Double) -> Double>(
    raw: Seq<char>,
    document: ChainV1Config,
    arithmetic: Arithmetic<F>,
    args: ResolvedChainArgs<F>,
) -> bool {
    &&& args.graph_path == document.graph_json
    &&& args.n_steps == document.n_steps
    &&& args.target_pop == document.target_pop
    &&& args.tol == document.tol
    &&& args.pop_col == document.pop_col
    &&& args.assignment_col == document.assignment_col
    &&& args.rng_seed == document.rng_seed
    &&& args.balance_ub == document.balance_ub
    &&& args.n_threads == document.n_threads
    &&& args.batch_size == document.batch_size
    &&& args.variant == document.variant
    &&& args.writer == document.writer
    &&& args.sum_cols == document.sum_cols
    &&& is_constraint(document.constraint, arithmetic, args.constraint)
    &&& args.cli_constraint_json is None
    &&& are_weights(document.region_weights@, args.region_weights)
    &&& args.edge_weight_keys == document.edge_weight_keys
    &&& args.cut_edges_count == document.cut_edges_count
    &&& args.output_file == document.output_file
    &&& args.bendl_graph_order == document.bendl_graph_order
    &&& args.show_progress == document.show_progress
    &&& !args.st_counts
    &&& args.sample_interval == document.sample_interval
    &&& json::opt_text(args.raw_config) == Some(raw)
}

impl<F: Fn(Op, Double, Double) -> Double> ResolvedChainArgs<F> {
    /// The arguments of a configuration. Fails where its constraint does.
    pub fn from_config(loaded: LoadedChainConfig, arithmetic: Arithmetic<F>) -> (r: Result<
        ResolvedChainArgs<F>,
        String,
    >)
        ensures
            match r {
                Ok(args) => from_document(loaded.raw@, loaded.document, arithmetic, args),
                Err(e) => loaded.document.constraint matches Some(document)
                    && constraints::constraint_outcome(document) == Err::<FloorFields, Seq<char>>(
                    e@,
                ),
            },
    {
        let document: ChainV1Config = loaded.document;
        let constraint: ConstraintConfig<F> = match &document.constraint {
            Some(value) => match constraints::make_constraint_value(value, arithmetic) {
                Ok(constraint) => constraint,
                Err(e) => {
                    return Err(e);
                },
            },
            None => ConstraintConfig::Unconstrained,
        };
        let region_weights: Option<Vec<(String, Double)>> = config::region_weights_from_map(
            &document.region_weights,
        );
        Ok(
            ResolvedChainArgs {
                graph_path: document.graph_json,
                n_steps: document.n_steps,
                target_pop: document.target_pop,
                tol: document.tol,
                pop_col: document.pop_col,
                assignment_col: document.assignment_col,
                rng_seed: document.rng_seed,
                balance_ub: document.balance_ub,
                n_threads: document.n_threads,
                batch_size: document.batch_size,
                variant: document.variant,
                writer: document.writer,
                sum_cols: document.sum_cols,
                constraint,
                cli_constraint_json: None,
                region_weights,
                edge_weight_keys: document.edge_weight_keys,
                cut_edges_count: document.cut_edges_count,
                output_file: document.output_file,
                bendl_graph_order: document.bendl_graph_order,
                show_progress: document.show_progress,
                st_counts: false,
                sample_interval: document.sample_interval,
                raw_config: Some(loaded.raw),
            },
        )
    }
}

/// Where a chain's output goes, and which variant runs.
#[derive(Debug)]
pub struct ChainOutput {
    pub variant: RecomVariant,
    pub is_bendl: bool,
    pub bendl_order: BendlGraphOrder,
    /// The file beside the output that takes the configuration, if one does.
    pub metadata_file: Option<String>,
}

/// Whether a writer holds the metadata of a run itself.
pub open spec fn holds_metadata(writer: Seq<char>) -> bool {
    writer == "jsonl"@ || writer == "jsonl-full"@ || writer == "bendl"@
}

/// The file beside the output that takes the configuration: there is one where
/// there is a configuration and an output file, and the writer does not hold
/// the metadata itself.
pub open spec fn config_sidecar(
    has_config: bool,
    output_file: Option<Seq<char>>,
    writer: Seq<char>,
) -> Option<Seq<char>> {
    match output_file {
        Some(path) => if has_config && !holds_metadata(writer) {
            Some(paths::metadata_of(path))
        } else {
            None
        },
        None => None,
    }
}

/// Whether an error is one about the variant, the bundle options, the sample
/// interval or the output path of a chain.
pub open spec fn output_error<F>(args: &ResolvedChainArgs<F>, e: Seq<char>) -> bool {
    let weighted = args.region_weights is Some;
    let is_bendl = args.writer@ == "bendl"@;
    match variants::chain_outcome(args.variant@, weighted) {
        Err(message) => e == message,
        Ok(_) => if !bendl::asks_for_order(args.bendl_graph_order@) {
            e == "Parameter error: "@ + bendl::order_error(args.bendl_graph_order@)
        } else {
            exists|order: bendl::NodeOrder| #[trigger]
                bendl::label_of(order) == args.bendl_graph_order@ && bendl::is_order(order) && match inputs::bundle_error(
                    is_bendl,
                    order is Verbatim,
                    args.output_file is Some,
                ) {
                    Some(message) => e == message,
                    None => match writer::interval_error(args.writer@, args.sample_interval) {
                        Some(message) => e == message,
                        None => args.output_file matches Some(path) && args.raw_config is Some
                            && !holds_metadata(args.writer@) && !paths::names_a_file(path@) && e
                            == "Output path must have a valid UTF-8 file name."@,
                    },
                }
        },
    }
}

/// Resolves the variant and the output of a chain.
pub fn resolve_chain_output<F>(args: &ResolvedChainArgs<F>) -> (r: Result<ChainOutput, String>)
    ensures
        match r {
            Ok(output) => {
                &&& variants::chain_outcome(args.variant@, args.region_weights is Some) == Ok::<
                    RecomVariant,
                    Seq<char>,
                >(output.variant)
                &&& output.is_bendl == (args.writer@ == "bendl"@)
                &&& bendl::label_of(output.bendl_order@) == args.bendl_graph_order@
                &&& inputs::bundle_error(
                    output.is_bendl,
                    output.bendl_order@ is Verbatim,
                    args.output_file is Some,
                ) is None
                &&& writer::interval_error(args.writer@, args.sample_interval) is None
                &&& json::opt_text(output.metadata_file) == config_sidecar(
                    args.raw_config is Some,
                    json::opt_text(args.output_file),
                    args.writer@,
                )
            },
            Err(e) => output_error(args, e@),
        },
{
    let variant: RecomVariant = match variants::chain_variant(
        args.variant.as_str(),
        args.region_weights.is_some(),
    ) {
        Ok(variant) => variant,
        Err(e) => {
            return Err(e);
        },
    };
    let (is_bendl, bendl_order): (bool, BendlGraphOrder) = match inputs::resolve_bendl_options(
        args.writer.as_str(),
        args.bendl_graph_order.as_str(),
        args.output_file.is_some(),
    ) {
        Ok(options) => options,
        Err(e) => {
            return Err(e);
        },
    };
    assert(bendl::label_of(bendl_order@) == args.bendl_graph_order@);
    match writer::check_sample_interval(args.writer.as_str(), args.sample_interval) {
        Ok(()) => {},
        Err(e) => {
            return Err(e);
        },
    }
    let held: bool = is_bendl || columns::string_eq(&args.writer, "jsonl") || columns::string_eq(
        &args.writer,
        "jsonl-full",
    );
    let metadata_file: Option<String> = match &args.output_file {
        Some(path) => {
            if args.raw_config.is_some() && !held {
                if !paths::is_file_path(path.as_str()) {
                    return Err("Output path must have a valid UTF-8 file name.".to_string());
                }
                Some(paths::metadata_path(path.as_str()))
            } else {
                None
            }
        },
        None => None,
    };
    Ok(ChainOutput { variant, is_bendl, bendl_order, metadata_file })
}

/// What is wrong with the numbers of a chain, if anything is.
pub open spec fn numbers_error(
    variant: RecomVariant,
    balance_ub: u32,
    tol: Double,
) -> Option<Seq<char>> {
    if variant == RecomVariant::Reversible && balance_ub == 0 {
        Some("For reversible ReCom, specify M > 0."@)
    } else if tol.below(double::zero()) || double::one().below(tol) {
        Some("Parameter error: '--tol' must be between 0 and 1."@)
    } else {
        None
    }
}

/// Checks the numbers of a chain: a reversible one needs a bound, and the
/// tolerance is a share.
pub fn check_chain_numbers(variant: RecomVariant, balance_ub: u32, tol: Double) -> (r: Result<
    (),
    String,
>)
    ensures
        match numbers_error(variant, balance_ub, tol) {
            Some(message) => r matches Err(e) && e@ == message,
            None => r is Ok,
        },
{
    if let RecomVariant::Reversible = variant {
        if balance_ub == 0 {
            return Err("For reversible ReCom, specify M > 0.".to_string());
        }
    }
    inputs::check_tolerance(tol)
}

/// The metadata of a chain run. Numbers and lists that are not texts come as
/// JSON.
pub open spec fn chain_fields<F>(
    args: &ResolvedChainArgs<F>,
    graph_json: Seq<char>,
    graph_sha3: Seq<char>,
    tol: Seq<char>,
    region_weights: Option<Seq<char>>,
    overwrite_output: bool,
    reversible: bool,
) -> Seq<(Seq<char>, Seq<char>)> {
    let base = seq![
        ("assignment_col"@, json::json_quoted(args.assignment_col@)),
        ("tol"@, tol),
        ("pop_col"@, json::json_quoted(args.pop_col@)),
        ("graph_path"@, json::json_quoted(graph_json)),
        ("graph_sha3"@, json::json_quoted(graph_sha3)),
        ("batch_size"@, text::decimal(args.batch_size as nat)),
        ("rng_seed"@, text::decimal(args.rng_seed as nat)),
        ("num_threads"@, text::decimal(args.n_threads as nat)),
        ("num_steps"@, text::decimal(args.n_steps as nat)),
        ("parallel"@, "true"@),
        ("graph_json"@, json::json_quoted(graph_json)),
        ("chain_variant"@, json::json_quoted(args.variant@)),
    ];
    let output = match args.output_file {
        Some(path) => base.push(("output_file"@, json::json_quoted(path@))).push(
            (
                "overwrite_output"@,
                if overwrite_output {
                    "true"@
                } else {
                    "false"@
                },
            ),
        ),
        None => base,
    };
    let bound = if reversible {
        output.push(("balance_ub"@, text::decimal(args.balance_ub as nat)))
    } else {
        output
    };
    let weights = match region_weights {
        Some(list) => bound.push(("region_weights"@, list)),
        None => bound,
    };
    let constraint = match args.cli_constraint_json {
        Some(config) => weights.push(("constraint"@, json::json_quoted(config@))),
        None => weights,
    };
    if args.sample_interval != 1 {
        constraint.push(("sample_interval"@, text::decimal(args.sample_interval as nat)))
    } else {
        constraint
    }
}

/// The metadata of a chain run. `tol` and `region_weights` are JSON.
pub fn chain_meta<F>(
    args: &ResolvedChainArgs<F>,
    graph_json: &str,
    graph_sha3: &str,
    tol: &str,
    region_weights: Option<&str>,
    overwrite_output: bool,
    reversible: bool,
) -> (r: Meta)
    ensures
        r@ == chain_fields(
            args,
            graph_json@,
            graph_sha3@,
            tol@,
            paths::opt_view(region_weights),
            overwrite_output,
            reversible,
        ),
{
    let mut meta: Meta = Meta::new();
    meta.put_text("assignment_col", args.assignment_col.as_str());
    meta.put("tol", tol.to_string());
    meta.put_text("pop_col", args.pop_col.as_str());
    meta.put_text("graph_path", graph_json);
    meta.put_text("graph_sha3", graph_sha3);
    meta.put_number("batch_size", args.batch_size as u64);
    meta.put_number("rng_seed", args.rng_seed);
    meta.put_number("num_threads", args.n_threads as u64);
    meta.put_number("num_steps", args.n_steps);
    meta.put_flag("parallel", true);
    meta.put_text("graph_json", graph_json);
    meta.put_text("chain_variant", args.variant.as_str());
    assert(meta@ =~= seq![
        ("assignment_col"@, json::json_quoted(args.assignment_col@)),
        ("tol"@, tol@),
        ("pop_col"@, json::json_quoted(args.pop_col@)),
        ("graph_path"@, json::json_quoted(graph_json@)),
        ("graph_sha3"@, json::json_quoted(graph_sha3@)),
        ("batch_size"@, text::decimal(args.batch_size as nat)),
        ("rng_seed"@, text::decimal(args.rng_seed as nat)),
        ("num_threads"@, text::decimal(args.n_threads as nat)),
        ("num_steps"@, text::decimal(args.n_steps as nat)),
        ("parallel"@, "true"@),
        ("graph_json"@, json::json_quoted(graph_json@)),
        ("chain_variant"@, json::json_quoted(args.variant@)),
    ]);
    if let Some(path) = &args.output_file {
        meta.put_text("output_file", path.as_str());
        meta.put_flag("overwrite_output", overwrite_output);
    }
    if reversible {
        meta.put_number("balance_ub", args.balance_ub as u64);
    }
    if let Some(list) = region_weights {
        meta.put("region_weights", list.to_string());
    }
    if let Some(config) = &args.cli_constraint_json {
        meta.put_text("constraint", config.as_str());
    }
    if args.sample_interval != 1 {
        meta.put_number("sample_interval", args.sample_interval);
    }
    meta
}

} // verus!
