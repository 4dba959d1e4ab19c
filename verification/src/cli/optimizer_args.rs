//! The arguments of optimizer runs, and what follows from them.

use serde_json::Value;
use vstd::prelude::*;
use crate::bendl;
use crate::bendl::BendlGraphOrder;
use crate::cli::inputs::OptimizerInputs;
use crate::cli::provenance::Meta;
use crate::cli::{chain_args, inputs, paths};
use crate::columns;
use crate::config;
use crate::config::{
    LoadedShortBurstsConfig, LoadedTiltedConfig, ShortBurstsV1Config, TiltedV1Config,
};
use crate::double;
use crate::double::Double;
use crate::{json, text, vectors};

verus! {

/// The arguments of a short bursts run, from the command line or a configuration.
pub struct ResolvedShortBurstsArgs {
    pub n_steps: u64,
    pub n_threads: usize,
    pub rng_seed: u64,
    pub tol: Double,
    pub burst_length: usize,
    pub maximize: bool,
    pub variant: String,
    pub writer: String,
    pub show_progress: bool,
    pub write_improved_scores_only: bool,
    pub output_file: Option<String>,
    pub scores_output_file: Option<String>,
    pub bendl_graph_order: String,
    /// The objective, as a document of its own.
    pub objective: Value,
    pub inputs: OptimizerInputs,
    /// The exact text of the configuration, if there is one.
    pub raw_config: Option<String>,
}

/// Whether arguments are those of a configuration.
pub open spec fn bursts_from_document(raw: Seq<char>, document: ShortBurstsV1Config, args: ResolvedShortBurstsArgs) -> bool {
    &&& args.n_steps == document.n_steps
    &&& args.n_threads == document.n_threads
    &&& args.rng_seed == document.rng_seed
    &&& args.tol == document.tol
    &&& args.burst_length == document.burst_length
    &&& args.maximize == document.maximize
    &&& args.variant == document.variant
    &&& args.writer == document.writer
    &&& args.show_progress == document.show_progress
    &&& args.write_improved_scores_only == document.write_improved_scores_only
    &&& args.output_file == document.output_file
    &&& args.scores_output_file == document.scores_output_file
    &&& args.bendl_graph_order == document.bendl_graph_order
    &&& args.objective == document.objective
    &&& args.inputs.graph_json == document.graph_json
    &&& args.inputs.pop_col == document.pop_col
    &&& args.inputs.assignment_col == document.assignment_col
    &&& chain_args::are_weights(document.region_weights@, args.inputs.region_weights)
    &&& vectors::texts(args.inputs.sum_cols@) == inputs::with_new(
        vectors::texts(document.sum_cols@),
        inputs::region_names(args.inputs.region_weights),
    )
    &&& args.inputs.partial_cols == document.partial_sum_cols
    &&& args.inputs.edge_weight_keys == document.edge_weight_keys
    &&& json::opt_text(args.raw_config) == Some(raw)
}

impl ResolvedShortBurstsArgs {
    /// The arguments of a configuration.
    pub fn from_config(loaded: LoadedShortBurstsConfig) -> (r: ResolvedShortBurstsArgs)
        ensures
            bursts_from_document(loaded.raw@, loaded.document, r),
    {
        let document: ShortBurstsV1Config = loaded.document;
        let region_weights: Option<Vec<(String, Double)>> = config::region_weights_from_map(
            &document.region_weights,
        );
        let inputs: OptimizerInputs = OptimizerInputs::from_config_values(
            document.graph_json,
            document.pop_col,
            document.assignment_col,
            document.sum_cols,
            document.partial_sum_cols,
            document.edge_weight_keys,
            region_weights,
        );
        ResolvedShortBurstsArgs {
            n_steps: document.n_steps,
            n_threads: document.n_threads,
            rng_seed: document.rng_seed,
            tol: document.tol,
            burst_length: document.burst_length,
            maximize: document.maximize,
            variant: document.variant,
            writer: document.writer,
            show_progress: document.show_progress,
            write_improved_scores_only: document.write_improved_scores_only,
            output_file: document.output_file,
            scores_output_file: document.scores_output_file,
            bendl_graph_order: document.bendl_graph_order,
            objective: document.objective,
            inputs,
            raw_config: Some(loaded.raw),
        }
    }
}

/// The arguments of a tilted run, from the command line or a configuration.
pub struct ResolvedTiltedArgs {
    pub n_steps: u64,
    pub n_threads: usize,
    pub rng_seed: u64,
    pub tol: Double,
    pub accept_rule: String,
    pub accept_worse_prob: Option<Double>,
    pub acceptance_beta: Option<Double>,
    pub maximize: bool,
    pub variant: String,
    pub writer: String,
    pub show_progress: bool,
    pub write_improved_scores_only: bool,
    pub output_file: Option<String>,
    pub scores_output_file: Option<String>,
    pub bendl_graph_order: String,
    /// The objective, as a document of its own.
    pub objective: Value,
    pub inputs: OptimizerInputs,
    /// The exact text of the configuration, if there is one.
    pub raw_config: Option<String>,
}

/// Whether arguments are those of a configuration.
pub open spec fn tilted_from_document(raw: Seq<char>, document: TiltedV1Config, args: ResolvedTiltedArgs) -> bool {
    &&& args.n_steps == document.n_steps
    &&& args.n_threads == document.n_threads
    &&& args.rng_seed == document.rng_seed
    &&& args.tol == document.tol
    &&& args.accept_rule == document.accept_rule
    &&& args.accept_worse_prob == document.accept_worse_prob
    &&& args.acceptance_beta == document.acceptance_beta
    &&& args.maximize == document.maximize
    &&& args.variant == document.variant
    &&& args.writer == document.writer
    &&& args.show_progress == document.show_progress
    &&& args.write_improved_scores_only == document.write_improved_scores_only
    &&& args.output_file == document.output_file
    &&& args.scores_output_file == document.scores_output_file
    &&& args.bendl_graph_order == document.bendl_graph_order
    &&& args.objective == document.objective
    &&& args.inputs.graph_json == document.graph_json
    &&& args.inputs.pop_col == document.pop_col
    &&& args.inputs.assignment_col == document.assignment_col
    &&& chain_args::are_weights(document.region_weights@, args.inputs.region_weights)
    &&& vectors::texts(args.inputs.sum_cols@) == inputs::with_new(
        vectors::texts(document.sum_cols@),
        inputs::region_names(args.inputs.region_weights),
    )
    &&& args.inputs.partial_cols == document.partial_sum_cols
    &&& args.inputs.edge_weight_keys == document.edge_weight_keys
    &&& json::opt_text(args.raw_config) == Some(raw)
}

impl ResolvedTiltedArgs {
    /// The arguments of a configuration.
    pub fn from_config(loaded: LoadedTiltedConfig) -> (r: ResolvedTiltedArgs)
        ensures
            tilted_from_document(loaded.raw@, loaded.document, r),
    {
        let document: TiltedV1Config = loaded.document;
        let region_weights: Option<Vec<(String, Double)>> = config::region_weights_from_map(
            &document.region_weights,
        );
        let inputs: OptimizerInputs = OptimizerInputs::from_config_values(
            document.graph_json,
            document.pop_col,
            document.assignment_col,
            document.sum_cols,
            document.partial_sum_cols,
            document.edge_weight_keys,
            region_weights,
        );
        ResolvedTiltedArgs {
            n_steps: document.n_steps,
            n_threads: document.n_threads,
            rng_seed: document.rng_seed,
            tol: document.tol,
            accept_rule: document.accept_rule,
            accept_worse_prob: document.accept_worse_prob,
            acceptance_beta: document.acceptance_beta,
            maximize: document.maximize,
            variant: document.variant,
            writer: document.writer,
            show_progress: document.show_progress,
            write_improved_scores_only: document.write_improved_scores_only,
            output_file: document.output_file,
            scores_output_file: document.scores_output_file,
            bendl_graph_order: document.bendl_graph_order,
            objective: document.objective,
            inputs,
            raw_config: Some(loaded.raw),
        }
    }
}

/// The first fields of the metadata of a short bursts run.
pub open spec fn bursts_base_fields(
    args: &ResolvedShortBurstsArgs,
    graph_sha3: Seq<char>,
    tol: Seq<char>,
    overwrite_output: bool,
) -> Seq<(Seq<char>, Seq<char>)> {
    seq![
        ("assignment_col"@, json::json_quoted(args.inputs.assignment_col@)),
        ("tol"@, tol),
        ("pop_col"@, json::json_quoted(args.inputs.pop_col@)),
        ("graph_path"@, json::json_quoted(args.inputs.graph_json@)),
        ("graph_sha3"@, json::json_quoted(graph_sha3)),
        ("rng_seed"@, text::decimal(args.rng_seed as nat)),
        ("num_threads"@, text::decimal(args.n_threads as nat)),
        ("num_steps"@, text::decimal(args.n_steps as nat)),
        ("type"@, "\"short_bursts\""@),
        ("burst_length"@, text::decimal(args.burst_length as nat)),
        ("maximize"@, flag_text(args.maximize)),
        ("variant"@, json::json_quoted(args.variant@)),
        ("overwrite_output"@, flag_text(overwrite_output)),
        ("show_progress"@, flag_text(args.show_progress)),
        ("write_improved_scores_only"@, flag_text(args.write_improved_scores_only)),
        ("graph_json"@, json::json_quoted(args.inputs.graph_json@)),
    ]
}

/// The metadata of a short bursts run. Numbers and lists that are not texts come as JSON.
pub open spec fn bursts_fields(
    args: &ResolvedShortBurstsArgs,
    graph_sha3: Seq<char>,
    tol: Seq<char>,
    overwrite_output: bool,
    metadata_file: Option<Seq<char>>,
    region_weights: Option<Seq<char>>,
) -> Seq<(Seq<char>, Seq<char>)> {
    let base = bursts_base_fields(args, graph_sha3, tol, overwrite_output);
    let output = match args.output_file {
        Some(path) => base.push(("output_file"@, json::json_quoted(path@))).push(
            ("writer"@, json::json_quoted(args.writer@)),
        ),
        None => base,
    };
    let scores = match args.scores_output_file {
        Some(path) => output.push(("scores_output_file"@, json::json_quoted(path@))),
        None => output,
    };
    let metadata = match metadata_file {
        Some(path) => scores.push(("metadata_file"@, json::json_quoted(path))),
        None => scores,
    };
    match region_weights {
        Some(list) => metadata.push(("region_weights"@, list)),
        None => metadata,
    }
}

/// The metadata of a short bursts run. `tol` and `region_weights` are JSON.
pub fn bursts_meta(
    args: &ResolvedShortBurstsArgs,
    graph_sha3: &str,
    tol: &str,
    overwrite_output: bool,
    metadata_file: Option<&str>,
    region_weights: Option<&str>,
) -> (r: Meta)
    ensures
        r@ == bursts_fields(
            args,
            graph_sha3@,
            tol@,
            overwrite_output,
            paths::opt_view(metadata_file),
            paths::opt_view(region_weights),
        ),
{
    let mut meta: Meta = Meta::new();
    meta.put_text("assignment_col", args.inputs.assignment_col.as_str());
    meta.put("tol", tol.to_string());
    meta.put_text("pop_col", args.inputs.pop_col.as_str());
    meta.put_text("graph_path", args.inputs.graph_json.as_str());
    meta.put_text("graph_sha3", graph_sha3);
    meta.put_number("rng_seed", args.rng_seed);
    meta.put_number("num_threads", args.n_threads as u64);
    meta.put_number("num_steps", args.n_steps);
    meta.put("type", "\"short_bursts\"".to_string());
    meta.put_number("burst_length", args.burst_length as u64);
    meta.put_flag("maximize", args.maximize);
    meta.put_text("variant", args.variant.as_str());
    meta.put_flag("overwrite_output", overwrite_output);
    meta.put_flag("show_progress", args.show_progress);
    meta.put_flag("write_improved_scores_only", args.write_improved_scores_only);
    meta.put_text("graph_json", args.inputs.graph_json.as_str());
    assert(meta@ =~= bursts_base_fields(args, graph_sha3@, tol@, overwrite_output));
    if let Some(path) = &args.output_file {
        meta.put_text("output_file", path.as_str());
        meta.put_text("writer", args.writer.as_str());
    }
    if let Some(path) = &args.scores_output_file {
        meta.put_text("scores_output_file", path.as_str());
    }
    if let Some(path) = metadata_file {
        meta.put_text("metadata_file", path);
    }
    if let Some(list) = region_weights {
        meta.put("region_weights", list.to_string());
    }
    meta
}

/// The first fields of the metadata of a tilted run.
pub open spec fn tilted_base_fields(
    args: &ResolvedTiltedArgs,
    graph_sha3: Seq<char>,
    tol: Seq<char>,
    overwrite_output: bool,
) -> Seq<(Seq<char>, Seq<char>)> {
    seq![
        ("assignment_col"@, json::json_quoted(args.inputs.assignment_col@)),
        ("tol"@, tol),
        ("pop_col"@, json::json_quoted(args.inputs.pop_col@)),
        ("graph_path"@, json::json_quoted(args.inputs.graph_json@)),
        ("graph_sha3"@, json::json_quoted(graph_sha3)),
        ("rng_seed"@, text::decimal(args.rng_seed as nat)),
        ("num_threads"@, text::decimal(args.n_threads as nat)),
        ("num_steps"@, text::decimal(args.n_steps as nat)),
        ("type"@, "\"tilted_run\""@),
        ("accept_rule"@, json::json_quoted(args.accept_rule@)),
        ("maximize"@, flag_text(args.maximize)),
        ("overwrite_output"@, flag_text(overwrite_output)),
        ("show_progress"@, flag_text(args.show_progress)),
        ("write_improved_scores_only"@, flag_text(args.write_improved_scores_only)),
        ("graph_json"@, json::json_quoted(args.inputs.graph_json@)),
    ]
}

/// The metadata of a tilted run. Numbers and lists that are not texts come as JSON; a rule has one number at most.
pub open spec fn tilted_fields(
    args: &ResolvedTiltedArgs,
    graph_sha3: Seq<char>,
    tol: Seq<char>,
    overwrite_output: bool,
    metadata_file: Option<Seq<char>>,
    region_weights: Option<Seq<char>>,
    rule_number: Option<Seq<char>>,
) -> Seq<(Seq<char>, Seq<char>)> {
    let base = tilted_base_fields(args, graph_sha3, tol, overwrite_output);
    let ruled = match rule_number {
        Some(number) => if args.accept_rule@ == "fixed"@ {
            base.push(("accept_worse_prob"@, number))
        } else {
            base.push(("acceptance_beta"@, number))
        },
        None => base,
    };
    let output = match args.output_file {
        Some(path) => ruled.push(("output_file"@, json::json_quoted(path@))).push(
            ("writer"@, json::json_quoted(args.writer@)),
        ),
        None => ruled,
    };
    let scores = match args.scores_output_file {
        Some(path) => output.push(("scores_output_file"@, json::json_quoted(path@))),
        None => output,
    };
    let metadata = match metadata_file {
        Some(path) => scores.push(("metadata_file"@, json::json_quoted(path))),
        None => scores,
    };
    match region_weights {
        Some(list) => metadata.push(("region_weights"@, list)),
        None => metadata,
    }
}

/// The metadata of a tilted run. `tol`, `rule_number` and `region_weights` are JSON.
pub fn tilted_meta(
    args: &ResolvedTiltedArgs,
    graph_sha3: &str,
    tol: &str,
    overwrite_output: bool,
    metadata_file: Option<&str>,
    region_weights: Option<&str>,
    rule_number: Option<&str>,
) -> (r: Meta)
    ensures
        r@ == tilted_fields(
            args,
            graph_sha3@,
            tol@,
            overwrite_output,
            paths::opt_view(metadata_file),
            paths::opt_view(region_weights),
            paths::opt_view(rule_number),
        ),
{
    let mut meta: Meta = Meta::new();
    meta.put_text("assignment_col", args.inputs.assignment_col.as_str());
    meta.put("tol", tol.to_string());
    meta.put_text("pop_col", args.inputs.pop_col.as_str());
    meta.put_text("graph_path", args.inputs.graph_json.as_str());
    meta.put_text("graph_sha3", graph_sha3);
    meta.put_number("rng_seed", args.rng_seed);
    meta.put_number("num_threads", args.n_threads as u64);
    meta.put_number("num_steps", args.n_steps);
    meta.put("type", "\"tilted_run\"".to_string());
    meta.put_text("accept_rule", args.accept_rule.as_str());
    meta.put_flag("maximize", args.maximize);
    meta.put_flag("overwrite_output", overwrite_output);
    meta.put_flag("show_progress", args.show_progress);
    meta.put_flag("write_improved_scores_only", args.write_improved_scores_only);
    meta.put_text("graph_json", args.inputs.graph_json.as_str());
    assert(meta@ =~= tilted_base_fields(args, graph_sha3@, tol@, overwrite_output));
    if let Some(number) = rule_number {
        if columns::string_eq(&args.accept_rule, "fixed") {
            meta.put("accept_worse_prob", number.to_string());
        } else {
            meta.put("acceptance_beta", number.to_string());
        }
    }
    if let Some(path) = &args.output_file {
        meta.put_text("output_file", path.as_str());
        meta.put_text("writer", args.writer.as_str());
    }
    if let Some(path) = &args.scores_output_file {
        meta.put_text("scores_output_file", path.as_str());
    }
    if let Some(path) = metadata_file {
        meta.put_text("metadata_file", path);
    }
    if let Some(list) = region_weights {
        meta.put("region_weights", list.to_string());
    }
    meta
}

/// A flag as JSON.
pub open spec fn flag_text(value: bool) -> Seq<char> {
    if value {
        "true"@
    } else {
        "false"@
    }
}

/// Where an optimizer's output goes.
#[derive(Debug)]
pub struct OptimizerOutput {
    pub is_bendl: bool,
    pub bendl_order: BendlGraphOrder,
    /// The file that takes the metadata, if one does.
    pub metadata_path: Option<String>,
}

/// Whether an optional path is missing or can be that of a file.
pub open spec fn may_be_file(path: Option<Seq<char>>) -> bool {
    path matches Some(path) ==> paths::names_a_file(path)
}

/// Whether an error is one about the bundle options or the output paths of an
/// optimizer.
pub open spec fn optimizer_output_error(
    writer: Seq<char>,
    bendl_graph_order: Seq<char>,
    output_file: Option<Seq<char>>,
    scores_output_file: Option<Seq<char>>,
    e: Seq<char>,
) -> bool {
    let is_bendl = writer == "bendl"@;
    if !bendl::asks_for_order(bendl_graph_order) {
        e == "Parameter error: "@ + bendl::order_error(bendl_graph_order)
    } else {
        exists|order: bendl::NodeOrder| #[trigger]
            bendl::label_of(order) == bendl_graph_order && bendl::is_order(order)
                && match inputs::bundle_error(is_bendl, order is Verbatim, output_file is Some) {
                Some(message) => e == message,
                None => if !(may_be_file(output_file) && may_be_file(scores_output_file)) {
                    e == "Output path must have a valid UTF-8 file name."@
                } else {
                    paths::paths_error(output_file, scores_output_file, is_bendl) == Some(e)
                },
            }
    }
}

fn optional_file(path: Option<&str>) -> (r: bool)
    ensures
        r == may_be_file(paths::opt_view(path)),
{
    match path {
        Some(path) => paths::is_file_path(path),
        None => true,
    }
}

/// Resolves the output of an optimizer.
pub fn resolve_optimizer_output(
    writer: &str,
    bendl_graph_order: &str,
    output_file: Option<&str>,
    scores_output_file: Option<&str>,
) -> (r: Result<OptimizerOutput, String>)
    ensures
        match r {
            Ok(output) => {
                let plans = paths::opt_view(output_file);
                let scores = paths::opt_view(scores_output_file);
                &&& output.is_bendl == (writer@ == "bendl"@)
                &&& bendl::label_of(output.bendl_order@) == bendl_graph_order@
                &&& inputs::bundle_error(
                    output.is_bendl,
                    output.bendl_order@ is Verbatim,
                    output_file is Some,
                ) is None
                &&& paths::paths_error(plans, scores, output.is_bendl) is None
                &&& json::opt_text(output.metadata_path) == paths::metadata_base(
                    plans,
                    scores,
                    output.is_bendl,
                )
            },
            Err(e) => optimizer_output_error(
                writer@,
                bendl_graph_order@,
                paths::opt_view(output_file),
                paths::opt_view(scores_output_file),
                e@,
            ),
        },
{
    let (is_bendl, bendl_order): (bool, BendlGraphOrder) = match inputs::resolve_bendl_options(
        writer,
        bendl_graph_order,
        output_file.is_some(),
    ) {
        Ok(options) => options,
        Err(e) => {
            return Err(e);
        },
    };
    assert(bendl::label_of(bendl_order@) == bendl_graph_order@);
    if !optional_file(output_file) || !optional_file(scores_output_file) {
        return Err("Output path must have a valid UTF-8 file name.".to_string());
    }
    match paths::plan_optimizer_output_paths(output_file, scores_output_file, is_bendl) {
        Ok(metadata_path) => Ok(OptimizerOutput { is_bendl, bendl_order, metadata_path }),
        Err(e) => Err(e),
    }
}

/// What is wrong with the numbers of an optimizer, if anything is.
pub open spec fn optimizer_numbers_error(tol: Double, n_threads: usize) -> Option<Seq<char>> {
    if tol.below(double::zero()) || double::one().below(tol) {
        Some("Parameter error: '--tol' must be between 0 and 1."@)
    } else if n_threads == 0 {
        Some("Parameter error: '--n-threads' must be at least 1."@)
    } else {
        None
    }
}

/// Checks the numbers of an optimizer.
pub fn check_optimizer_numbers(tol: Double, n_threads: usize) -> (r: Result<(), String>)
    ensures
        match optimizer_numbers_error(tol, n_threads) {
            Some(message) => r matches Err(e) && e@ == message,
            None => r is Ok,
        },
{
    match inputs::check_tolerance(tol) {
        Ok(()) => {},
        Err(e) => {
            return Err(e);
        },
    }
    if n_threads == 0 {
        return Err("Parameter error: '--n-threads' must be at least 1.".to_string());
    }
    Ok(())
}

} // verus!
