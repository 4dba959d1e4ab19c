use rustrecom::bendl::{BendlGraphOrder, ReorderError};
use rustrecom::cli::chain_args::{
    chain_meta, check_chain_numbers, resolve_chain_output, ResolvedChainArgs,
};
use rustrecom::cli::document::{from_networkx_value, DocumentError, GraphColumns};
use rustrecom::cli::inputs::{
    check_config_alone, check_tolerance, holds_json, plan_chain_columns, prepare_objective,
    resolve_bendl_options, OptimizerInputs,
};
use rustrecom::cli::optimizer_args::{
    bursts_meta, check_optimizer_numbers, resolve_optimizer_output, tilted_meta,
    ResolvedShortBurstsArgs, ResolvedTiltedArgs,
};
use rustrecom::cli::paths::{
    assert_can_write_output, is_file_path, metadata_path, plan_optimizer_output_paths, same_path,
};
use rustrecom::cli::program::{invoked_name, program_warning, with_default_subcommand};
use rustrecom::cli::provenance::{
    build_optimizer_writers, bundle_metadata, config_line, enrich_bendl_meta, load_graph_bytes,
    load_graph_with_provenance, meta_line, sha3_hex, sidecar_text, LoadError, Meta,
};
use rustrecom::cli::variants::{
    chain_variant, check_weight_keys, current_variant_name, optimizer_variant, variant_warning,
};
use rustrecom::cli::writer::{
    check_sample_interval, is_assignment_writer, make_stats_writer,
};
use rustrecom::config::{parse_chain_config, parse_short_bursts_config, parse_tilted_config};
use rustrecom::constraints::ConstraintConfig;
use rustrecom::double::{Arithmetic, Double, Op};
use rustrecom::graph::{Edge, Graph};
use rustrecom::json::Node;
use rustrecom::partition::Partition;
use rustrecom::recom::chain::multi_chain_with_constraint;
use rustrecom::recom::proposal::{RecomParams, RecomVariant};
use rustrecom::recom::tilted::{acceptance_config, AcceptanceConfig};
use rustrecom::stats::records::Record;
use serde_json::Value;

type Calc = fn(Op, Double, Double) -> Double;

fn d(x: f64) -> Double {
    Double { bits: x.to_bits() }
}

fn f(x: Double) -> f64 {
    f64::from_bits(x.bits)
}

fn eval(op: Op, x: Double, y: Double) -> Double {
    d(match op {
        Op::Add => f(x) + f(y),
        Op::Sub => f(x) - f(y),
        Op::Mul => f(x) * f(y),
        Op::Div => f(x) / f(y),
        Op::OfInt(n) => n as f64,
    })
}

fn numbers() -> Arithmetic<Calc> {
    Arithmetic { eval: eval as Calc }
}

fn read(s: &String) -> Option<Double> {
    s.parse::<f64>().ok().map(d)
}

fn parsed(text: &str) -> Value {
    serde_json::from_str(text).unwrap()
}

fn strings(values: &[&str]) -> Vec<String> {
    values.iter().map(|s| s.to_string()).collect()
}

/// A grid of six columns of six nodes of population 1, each column a district.
fn six_by_six() -> (Graph, Partition) {
    let mut edges = vec![];
    for node in 0..36 {
        if node % 6 + 1 < 6 {
            edges.push(Edge(node, node + 1));
        }
        if node / 6 + 1 < 6 {
            edges.push(Edge(node, node + 6));
        }
    }
    let mut graph = Graph::from_edges(vec![1; 36], edges).unwrap();
    graph
        .attr
        .insert("population".to_string(), vec!["1".to_string(); 36]);
    let labels = (0..36).map(|node| node / 6 + 1).collect();
    let partition = Partition::from_assignments(&graph, &labels).unwrap();
    (graph, partition)
}

/// The arguments that the command line gives for the base run.
fn base_args() -> ResolvedChainArgs<Calc> {
    ResolvedChainArgs {
        graph_path: "6x6.json".to_string(),
        n_steps: 25,
        target_pop: None,
        tol: d(0.25),
        pop_col: "population".to_string(),
        assignment_col: "district".to_string(),
        rng_seed: 17,
        balance_ub: 0,
        n_threads: 1,
        batch_size: 1,
        variant: "district-pairs-mst".to_string(),
        writer: "canonical".to_string(),
        sum_cols: vec![],
        constraint: ConstraintConfig::Unconstrained,
        cli_constraint_json: None,
        region_weights: None,
        edge_weight_keys: vec![],
        cut_edges_count: false,
        output_file: None,
        bendl_graph_order: "none".to_string(),
        show_progress: false,
        st_counts: false,
        sample_interval: 1,
        raw_config: None,
    }
}

fn config(writer: &str, output: Option<&str>, constraint: Option<Value>) -> String {
    let mut document = parsed(
        r#"{"version":1,"command":"chain","graph_json":"6x6.json","n_steps":25,"tol":0.25,
            "pop_col":"population","assignment_col":"district","rng_seed":17,
            "variant":"district-pairs-mst"}"#,
    );
    document["writer"] = Value::from(writer);
    if let Some(path) = output {
        document["output_file"] = Value::from(path);
    }
    if let Some(spec) = constraint {
        document["constraint"] = spec;
    }
    document.to_string()
}

/// Runs a chain on the grid as its arguments say. Returns its output.
fn run_args(args: ResolvedChainArgs<Calc>) -> Result<String, String> {
    let output = resolve_chain_output(&args)?;
    check_chain_numbers(output.variant, args.balance_ub, args.tol)?;
    let (mut graph, partition) = six_by_six();
    args.constraint.cache_graph_cols(&mut graph, &read)?;
    let mean = graph.total_pop as f64 / partition.num_dists as f64;
    let params = RecomParams {
        min_pop: ((1.0 - f(args.tol)) * mean).ceil() as u32,
        max_pop: ((1.0 + f(args.tol)) * mean).floor() as u32,
        num_steps: args.n_steps,
        rng_seed: args.rng_seed,
        balance_ub: args.balance_ub,
        variant: output.variant,
        region_weights: args.region_weights.unwrap_or_default(),
        edge_weight_keys: args.edge_weight_keys,
    };
    let mut writer = make_stats_writer(
        &args.writer,
        args.st_counts,
        args.cut_edges_count,
        args.sample_interval,
    )?;
    let mut out = vec![];
    multi_chain_with_constraint(
        &graph,
        &partition,
        &mut writer,
        &params,
        args.n_threads,
        args.batch_size,
        &args.constraint,
        numbers(),
        &mut out,
    )?;
    Ok(out
        .iter()
        .map(|record| match record {
            Record::Text(s) => s.as_str(),
            _ => panic!("expected text"),
        })
        .collect())
}

fn run_config(raw: &str) -> Result<String, String> {
    run_args(ResolvedChainArgs::from_config(parse_chain_config(raw)?, numbers())?)
}

#[test]
fn config_mode_matches_cli_stdout() {
    let from_config = run_config(&config("canonical", None, None)).unwrap();
    assert_eq!(from_config, run_args(base_args()).unwrap());
    assert_eq!(from_config.lines().count(), 25);
}

#[test]
fn default_metadata_does_not_claim_subsampling() {
    let meta = chain_meta(&base_args(), "6x6.json", "00", "0.25", None, false, false);
    let record = parsed(&meta_line(&meta));
    assert!(record["meta"].get("sample_interval").is_none());

    let mut args = base_args();
    args.sample_interval = 7;
    let meta = chain_meta(&args, "6x6.json", "00", "0.25", None, false, false);
    assert_eq!(parsed(&meta_line(&meta))["meta"]["sample_interval"], 7);
}

fn sample_numbers(output: &str) -> Vec<u64> {
    output
        .lines()
        .map(|line| parsed(line)["sample"].as_u64().unwrap())
        .collect()
}

#[test]
fn sample_interval_keeps_seed_and_original_sample_numbers() {
    let mut args = base_args();
    args.sample_interval = 7;
    let output = run_args(args).unwrap();
    assert_eq!(sample_numbers(&output), vec![1, 8, 15, 22]);
}

#[test]
fn config_sample_interval_matches_cli() {
    let mut document = parsed(&config("canonical", None, None));
    document["sample_interval"] = Value::from(7);
    let mut args = base_args();
    args.sample_interval = 7;
    assert_eq!(
        run_config(&document.to_string()).unwrap(),
        run_args(args).unwrap()
    );
}

#[test]
fn sample_interval_rejects_invalid_values_and_writers() {
    let mut document = parsed(&config("jsonl", None, None));
    document["sample_interval"] = Value::from(2);
    assert!(run_config(&document.to_string())
        .unwrap_err()
        .contains("only supported by assignment-producing writers"));

    let mut document = parsed(&config("canonical", None, None));
    document["sample_interval"] = Value::from(0);
    assert!(run_config(&document.to_string())
        .unwrap_err()
        .contains("must be at least 1"));
    assert!(check_sample_interval("ben", 3).is_ok());
    assert!(check_sample_interval("tsv", 1).is_ok());
}

#[test]
fn config_mode_rejects_cli_arguments() {
    assert!(check_config_alone(&strings(&["writer"]))
        .unwrap_err()
        .contains("cannot be combined with CLI arguments: writer"));
    assert!(check_config_alone(&vec![]).is_ok());
}

#[test]
fn optimizer_config_mode_rejects_cli_arguments() {
    assert!(check_config_alone(&strings(&["burst_length"]))
        .unwrap_err()
        .contains("cannot be combined with CLI arguments: burst_length"));
    assert!(check_config_alone(&strings(&["a", "b", "c"]))
        .unwrap_err()
        .ends_with(": a, b, c"));
}

#[test]
fn config_mode_rejects_unknown_fields_and_wrong_envelopes() {
    let mut document = parsed(&config("canonical", None, None));
    document["pop_tol"] = Value::from(0.25);
    assert!(run_config(&document.to_string())
        .unwrap_err()
        .contains("unknown field `pop_tol`"));

    let mut document = parsed(&config("canonical", None, None));
    document["command"] = Value::from("short-bursts");
    assert!(run_config(&document.to_string())
        .unwrap_err()
        .contains("Expected command 'chain'"));
}

#[test]
fn config_mode_writes_exact_sidecar_for_canonical_output() {
    let raw = config("canonical", Some("out/plans.jsonl"), None);
    let args =
        ResolvedChainArgs::from_config(parse_chain_config(&raw).unwrap(), numbers()).unwrap();
    let output = resolve_chain_output(&args).unwrap();
    assert_eq!(
        output.metadata_file.unwrap(),
        "out/plans_metadata.jsonl".to_string()
    );
    assert_eq!(
        sidecar_text(args.raw_config.as_deref(), &Meta::new()),
        format!("{raw}\n")
    );
}

#[test]
fn configurations_are_quoted_character_by_character() {
    assert_eq!(
        config_line("a\"b\\c/\n\r\t\u{8}\u{c}\u{1}\u{1f}\u{7f}\u{e9} "),
        "{\"meta\":{\"config\":\"a\\\"b\\\\c/\\n\\r\\t\\b\\f\\u0001\\u001f\u{7f}\u{e9} \"}}\n"
    );
}

#[test]
fn config_mode_embeds_exact_config_in_jsonl_metadata() {
    let raw = config("jsonl", Some("out/plans.jsonl"), None);
    let args =
        ResolvedChainArgs::from_config(parse_chain_config(&raw).unwrap(), numbers()).unwrap();
    assert!(resolve_chain_output(&args).unwrap().metadata_file.is_none());
    assert_eq!(parsed(&config_line(&raw))["meta"]["config"], raw);
}

#[test]
fn config_mode_embeds_exact_config_in_bendl_metadata() {
    let raw = config("bendl", Some("out/plans.bendl"), None);
    let args =
        ResolvedChainArgs::from_config(parse_chain_config(&raw).unwrap(), numbers()).unwrap();
    let output = resolve_chain_output(&args).unwrap();
    assert!(output.is_bendl);
    assert!(output.metadata_file.is_none());
    assert_eq!(bundle_metadata(args.raw_config.as_deref(), &Meta::new()), raw);
}

#[test]
fn config_mode_runs_a_single_constraint() {
    let constraint = parsed(
        r#"{"constraint":"district_share_floor","numerator_col":"population",
            "denominator_cols":["population"],"threshold":0.5}"#,
    );
    let raw = config("canonical", None, Some(constraint));
    assert_eq!(
        run_config(&raw).unwrap(),
        run_config(&config("canonical", None, None)).unwrap()
    );

    let mut document = parsed(&config("canonical", None, None));
    document["constraints"] = Value::Array(vec![]);
    assert!(run_config(&document.to_string())
        .unwrap_err()
        .contains("unknown field `constraints`"));
}

fn shown(program: &str, args: &[&str]) -> Vec<String> {
    let mut all = vec![program.to_string()];
    all.extend(strings(args));
    with_default_subcommand(program, all)
}

#[test]
fn no_arguments_selects_chain_and_reports_chain_required_arguments() {
    assert_eq!(shown("frcw", &[]), strings(&["frcw", "chain"]));
    assert_eq!(shown("rustrecom", &[]), strings(&["rustrecom", "chain"]));
}

#[test]
fn legacy_bare_chain_arguments_still_run_the_chain() {
    assert_eq!(
        shown("frcw", &["--graph-json", "x"]),
        strings(&["frcw", "chain", "--graph-json", "x"])
    );
    let mut args = base_args();
    args.writer = "jsonl".to_string();
    let meta = chain_meta(&args, "6x6.json", "00", "0.25", None, false, false);
    assert_eq!(
        parsed(&meta_line(&meta))["meta"]["chain_variant"],
        "district-pairs-mst"
    );
    let output = run_args(args).unwrap();
    assert!(parsed(output.lines().next().unwrap()).get("init").is_some());
}

#[test]
fn deprecated_rmst_variants_still_run_and_warn() {
    for (old, new) in [
        ("cut-edges-rmst", "cut-edges-mst"),
        ("district-pairs-rmst", "district-pairs-mst"),
    ] {
        let mut args = base_args();
        args.variant = old.to_string();
        let mut current = base_args();
        current.variant = new.to_string();
        assert_eq!(run_args(args).unwrap(), run_args(current).unwrap());
        let warning = variant_warning(old).unwrap();
        assert!(
            warning.contains(&format!("`{old}` is deprecated"))
                && warning.contains(&format!("use `{new}` instead")),
            "{warning}"
        );
        assert_eq!(current_variant_name(old), new);
        assert_eq!(current_variant_name(new), new);
        assert!(variant_warning(new).is_none());
    }
}

#[test]
fn explicit_chain_subcommand_matches_bare_form() {
    assert_eq!(
        shown("frcw", &["chain", "--tol", "0"]),
        strings(&["frcw", "chain", "--tol", "0"])
    );
    assert_eq!(
        shown("frcw", &["--tol", "0"]),
        shown("frcw", &["chain", "--tol", "0"])
    );
}

#[test]
fn unknown_first_token_is_an_unrecognized_subcommand() {
    assert_eq!(shown("frcw", &["nonsense"]), strings(&["frcw", "nonsense"]));
}

#[test]
fn help_lists_all_three_subcommands() {
    assert_eq!(shown("frcw", &["--help"]), strings(&["frcw", "--help"]));
}

#[test]
fn version_propagates_to_subcommands_and_survives_legacy_options() {
    assert_eq!(shown("frcw", &["--version"]), strings(&["frcw", "--version"]));
    assert_eq!(
        shown("frcw", &["tilted", "--version"]),
        strings(&["frcw", "tilted", "--version"])
    );
    assert_eq!(
        shown("frcw", &["--graph-json", "x", "--version"]),
        strings(&["frcw", "chain", "--graph-json", "x", "--version"])
    );
}

#[test]
fn each_binary_name_reports_itself_in_version_and_usage() {
    assert_eq!(invoked_name(Some("/usr/bin/rustrecom")), "rustrecom");
    assert_eq!(invoked_name(Some("bin/frcw")), "frcw");
    assert_eq!(invoked_name(Some("frcw_tilted")), "frcw_tilted");
    assert_eq!(invoked_name(None), "rustrecom");
}

#[test]
fn frcw_warns_about_deprecation_but_rustrecom_does_not() {
    let warning = program_warning("frcw").unwrap();
    assert!(
        warning.contains("`frcw` binary is deprecated")
            && warning.contains("use `rustrecom` instead"),
        "{warning}"
    );
    assert!(program_warning("rustrecom").is_none());
}

#[test]
fn frcw_short_bursts_shim_forwards_legacy_invocations_and_warns() {
    let warning = program_warning("frcw_short_bursts").unwrap();
    assert!(
        warning.contains("`frcw_short_bursts` binary is deprecated")
            && warning.contains("use `rustrecom short-bursts` instead"),
        "{warning}"
    );
    assert_eq!(
        shown("frcw_short_bursts", &["--tol", "0"]),
        strings(&["frcw_short_bursts", "short-bursts", "--tol", "0"])
    );
}

#[test]
fn frcw_tilted_shim_forwards_help_and_keeps_top_level_version() {
    assert_eq!(
        shown("frcw_tilted", &["--help"]),
        strings(&["frcw_tilted", "tilted", "--help"])
    );
    assert_eq!(
        shown("frcw_tilted", &["--version"]),
        strings(&["frcw_tilted", "--version"])
    );
    assert!(program_warning("frcw_tilted")
        .unwrap()
        .contains("use `rustrecom tilted` instead"));
}

fn objective() -> Value {
    parsed(r#"{"objective":"gingles_partial","threshold":0.5,"min_pop":"a","total_pop":"population"}"#)
}

fn optimizer_config(command: &str) -> Value {
    let mut document = parsed(
        r#"{"version":1,"graph_json":"6x6.json","n_steps":20,"tol":0.25,"pop_col":"population",
            "assignment_col":"district","rng_seed":17}"#,
    );
    document["command"] = Value::from(command);
    document["objective"] = objective();
    document
}

fn bursts_args(output: Option<&str>) -> ResolvedShortBurstsArgs {
    let mut document = optimizer_config("short-bursts");
    document["burst_length"] = Value::from(5);
    document["scores_output_file"] = Value::from("scores.csv");
    if let Some(path) = output {
        document["output_file"] = Value::from(path);
    }
    ResolvedShortBurstsArgs::from_config(parse_short_bursts_config(&document.to_string()).unwrap())
}

#[test]
fn short_bursts_writes_records_scores_and_metadata() {
    let args = bursts_args(Some("plans.jsonl"));
    let output = resolve_optimizer_output(
        "canonical",
        "none",
        args.output_file.as_deref(),
        args.scores_output_file.as_deref(),
    )
    .unwrap();
    assert_eq!(output.metadata_path.as_deref(), Some("plans_metadata.jsonl"));
    let meta = bursts_meta(
        &args,
        "00",
        "0.25",
        false,
        output.metadata_path.as_deref(),
        None,
    );
    let record = parsed(&meta_line(&meta));
    assert_eq!(record["meta"]["type"], "short_bursts");
    assert_eq!(record["meta"]["burst_length"], 5);
}

#[test]
fn score_only_short_bursts_run_still_writes_metadata_sidecar() {
    let args = bursts_args(None);
    let output =
        resolve_optimizer_output("assignments", "none", None, args.scores_output_file.as_deref())
            .unwrap();
    assert_eq!(output.metadata_path.as_deref(), Some("scores_metadata.jsonl"));
    let meta = bursts_meta(
        &args,
        "00",
        "0.25",
        false,
        output.metadata_path.as_deref(),
        None,
    );
    let record = parsed(&sidecar_text(None, &meta));
    assert_eq!(record["meta"]["type"], "short_bursts");
    assert!(record["meta"].get("output_file").is_none());
}

#[test]
fn colliding_output_and_scores_paths_are_rejected() {
    assert!(
        plan_optimizer_output_paths(Some("a/x.csv"), Some("a/x.csv"), false)
            .unwrap_err()
            .contains("'--output-file' and '--scores-output-file' must be different")
    );
    assert!(plan_optimizer_output_paths(Some("a/x_metadata.jsonl"), Some("a/x.csv"), false).is_ok());
    assert!(plan_optimizer_output_paths(Some("a/x.csv"), Some("a/x_metadata.jsonl"), false).is_err());
}

#[test]
fn tilted_rejects_reversible_without_creating_output_files() {
    assert_eq!(
        optimizer_variant(
            "reversible",
            false,
            "Reversible ReCom is not supported by the tilted run optimizer."
        )
        .unwrap_err(),
        "Reversible ReCom is not supported by the tilted run optimizer."
    );
}

#[test]
fn optimizer_config_mode_rejects_wrong_command_and_unknown_fields() {
    let mut document = optimizer_config("tilted");
    document["burst_length"] = Value::from(5);
    assert!(parse_short_bursts_config(&document.to_string())
        .err()
        .unwrap()
        .contains("Expected command 'short-bursts'"));

    document["command"] = Value::from("short-bursts");
    document["pop_tol"] = Value::from(0.25);
    assert!(parse_short_bursts_config(&document.to_string())
        .err()
        .unwrap()
        .contains("unknown field `pop_tol`"));

    let mut document = optimizer_config("tilted");
    document["accept_rule"] = Value::from("metropolis");
    let args =
        ResolvedTiltedArgs::from_config(parse_tilted_config(&document.to_string()).unwrap());
    assert!(
        acceptance_config(&args.accept_rule, args.accept_worse_prob, args.acceptance_beta)
            .unwrap_err()
            .contains("unknown acceptance rule 'metropolis'")
    );
}

fn tilted_record(rule: &str, prob: Option<f64>, beta: Option<f64>) -> Value {
    let mut document = optimizer_config("tilted");
    document["accept_rule"] = Value::from(rule);
    document["maximize"] = Value::from(false);
    if let Some(p) = prob {
        document["accept_worse_prob"] = Value::from(p);
    }
    if let Some(b) = beta {
        document["acceptance_beta"] = Value::from(b);
    }
    let args =
        ResolvedTiltedArgs::from_config(parse_tilted_config(&document.to_string()).unwrap());
    let number = prob.or(beta).map(|x| Value::from(x).to_string());
    let meta = tilted_meta(&args, "00", "0.25", false, None, None, number.as_deref());
    parsed(&meta_line(&meta))["meta"].clone()
}

#[test]
fn default_accept_rule_is_linear_and_metadata_tracks_l1_minimization() {
    let meta = tilted_record("linear", None, None);
    assert_eq!(meta["accept_rule"].as_str(), Some("linear"));
    assert_eq!(meta["maximize"].as_bool(), Some(false));
    assert!(meta.get("acceptance_beta").is_none());
    assert!(matches!(
        acceptance_config("linear", None, None).unwrap(),
        AcceptanceConfig::Linear(rule) if f(rule.beta) == 1.0
    ));
}

#[test]
fn linear_acceptance_beta_is_user_visible_and_scores_stay_finite() {
    let meta = tilted_record("linear", None, Some(10.0));
    assert_eq!(meta["accept_rule"].as_str(), Some("linear"));
    assert_eq!(meta["acceptance_beta"].as_f64(), Some(10.0));
}

#[test]
fn exponential_uses_shared_acceptance_beta() {
    let meta = tilted_record("exponential", None, Some(3.5));
    assert_eq!(meta["accept_rule"].as_str(), Some("exponential"));
    assert_eq!(meta["acceptance_beta"].as_f64(), Some(3.5));
}

#[test]
fn fixed_acceptance_rejects_shared_beta_to_avoid_ambiguous_configuration() {
    let message = acceptance_config("fixed", Some(d(0.5)), Some(d(2.0))).unwrap_err();
    assert!(
        message.contains("--acceptance-beta") && message.contains("--accept-rule linear"),
        "{message}"
    );
    assert!(acceptance_config("fixed", None, None).is_err());
    assert!(acceptance_config("fixed", Some(d(1.5)), None).is_err());
    assert!(matches!(
        acceptance_config("fixed", Some(d(0.5)), None).unwrap(),
        AcceptanceConfig::Fixed(p) if f(p) == 0.5
    ));
}

#[test]
fn linear_acceptance_beta_must_be_positive() {
    for beta in [0.0, -0.1] {
        let message = acceptance_config("linear", None, Some(d(beta))).unwrap_err();
        assert!(
            message.contains("--acceptance-beta") && message.contains("positive"),
            "{message}"
        );
    }
}

#[test]
fn exponential_acceptance_beta_allows_zero_but_not_negative() {
    assert!(matches!(
        acceptance_config("exponential", None, Some(d(0.0))).unwrap(),
        AcceptanceConfig::Exponential(beta) if f(beta) == 0.0
    ));
    assert!(acceptance_config("exponential", None, Some(d(-0.1)))
        .unwrap_err()
        .contains("--acceptance-beta"));
}

fn square_json() -> Vec<u8> {
    br#"{"directed":false,"multigraph":false,"graph":[],"nodes":[
        {"id":0,"k":3},{"id":1,"k":1},{"id":2,"k":2}],
        "adjacency":[[{"id":1}],[{"id":0},{"id":2}],[{"id":1}]]}"#
        .to_vec()
}

#[test]
fn provenance_via_rustrecom_binary() {
    let source = square_json();
    let plain = load_graph_bytes(&source, true, &BendlGraphOrder::Verbatim)
        .unwrap()
        .unwrap();
    assert_eq!(
        plain.embedded_graph_sha3.as_deref(),
        Some(plain.source_graph_sha3.as_str()),
        "order=none: hashes equal"
    );
    assert_eq!(plain.embed_bytes.unwrap(), source);

    let order = BendlGraphOrder::Key("k".to_string());
    let sorted = load_graph_bytes(&source, true, &order).unwrap().unwrap();
    let embedded = sorted.embedded_graph_sha3.unwrap();
    assert_ne!(sorted.source_graph_sha3, embedded);
    assert_eq!(embedded, sha3_hex(&sorted.embed_bytes.unwrap()));

    let mut meta = chain_meta(&base_args(), "6x6.json", "00", "0.25", None, false, false);
    enrich_bendl_meta(&mut meta, &sorted.source_graph_sha3, &embedded, &order);
    let record = parsed(&bundle_metadata(None, &meta));
    assert_eq!(record["source_graph_sha3"], sorted.source_graph_sha3);
    assert_eq!(record["embedded_graph_sha3"], embedded);
    assert_eq!(record["bendl_graph_order"], "key:k");
    assert!(
        record.get("graph_sha3").is_none(),
        "graph_sha3 replaced for bendl"
    );
}

fn whole_number(node: &Node) -> Option<u32> {
    match node {
        Node::Number(Some(n), _) => u32::try_from(*n).ok(),
        Node::Text(s) => s.trim().parse::<u32>().ok(),
        _ => None,
    }
}

fn graph_columns(whole: &[&str], partial: &[&str], edges: &[&str]) -> GraphColumns {
    let owned = |names: &[&str]| names.iter().map(|name| name.to_string()).collect();
    GraphColumns {
        population: "pop".to_string(),
        assignment: "district".to_string(),
        whole: owned(whole),
        partial: owned(partial),
        edges: owned(edges),
    }
}

#[test]
fn runs_are_built_from_the_embedded_bytes() {
    let source = square_json();
    let order = BendlGraphOrder::Key("k".to_string());
    let mut columns = graph_columns(&[], &[], &[]);
    columns.population = "k".to_string();
    columns.assignment = "k".to_string();
    let load = |source: &Vec<u8>, is_bendl: bool, order: &BendlGraphOrder| {
        load_graph_with_provenance(source, is_bendl, order, &columns, &whole_number).unwrap()
    };
    let sorted = load(&source, true, &order).unwrap();
    let plain = load(&source, false, &order).unwrap();
    assert_eq!(plain.graph.pops, vec![3, 1, 2]);
    assert_eq!(plain.graph.edges, vec![Edge(0, 1), Edge(1, 2)]);
    assert_eq!(plain.partition.assignments, vec![2, 0, 1]);
    assert!(plain.embed_bytes.is_none());
    assert_eq!(sorted.graph.pops, vec![1, 2, 3]);
    assert_eq!(sorted.graph.edges, vec![Edge(0, 1), Edge(0, 2)]);
    let embedded: Value = serde_json::from_slice(sorted.embed_bytes.as_ref().unwrap()).unwrap();
    let (graph, partition) = from_networkx_value(&embedded, &columns, &whole_number).unwrap();
    assert_eq!(graph.pops, sorted.graph.pops);
    assert_eq!(graph.edges, sorted.graph.edges);
    assert_eq!(partition.assignments, sorted.partition.assignments);

    let unnamed = graph_columns(&[], &[], &[]);
    let failed = load_graph_with_provenance(&source, true, &order, &unnamed, &whole_number);
    assert_eq!(
        failed.unwrap().unwrap_err().message(),
        "Could not load graph and partition: attribute 'pop' of node 0 is no whole number"
    );
    let unread = load(&b"{".to_vec(), false, &order);
    assert!(matches!(unread.unwrap_err(), LoadError::NotJson(_)));
    let missing = BendlGraphOrder::Key("absent".to_string());
    let error = load(&source, true, &missing).unwrap_err();
    assert!(matches!(&error, LoadError::Reorder(ReorderError::MissingKey(_, 0))));
    assert!(error.message().starts_with("Could not reorder graph for BENDL: "));
}

#[test]
fn documents_hold_graphs_columns_and_plans() {
    let document: Value = serde_json::from_str(
        r#"{"nodes":[
            {"id":"a","pop":"4","district":2,"x":7,"y/z":"t","w":true},
            {"id":"b","pop":5,"district":1,"x":7.50,"y/z":null},
            {"id":2,"pop":6,"district":2,"x":"q","y/z":[1, "u"],"w":[1]}],
            "adjacency":[[{"id":"b","len":1.5},{"id":2}],
                [{"id":"a","len":2.5}],
                [{"id":"a"}]]}"#,
    )
    .unwrap();
    let columns = graph_columns(&["x", "y/z", "w"], &["w"], &["len"]);
    let missing = from_networkx_value(&document, &columns, &whole_number).unwrap_err();
    assert_eq!(missing, DocumentError::NoAttribute("w".to_string(), 1));

    let columns = graph_columns(&["x", "y/z"], &["w"], &["len"]);
    let (graph, partition) = from_networkx_value(&document, &columns, &whole_number).unwrap();
    assert_eq!(graph.pops, vec![4, 5, 6]);
    assert_eq!(graph.neighbors, vec![vec![1, 2], vec![0], vec![0]]);
    assert_eq!(graph.edges, vec![Edge(0, 1), Edge(0, 2)]);
    assert_eq!(graph.attr.get("x").unwrap(), &vec!["7", "7.5", "q"]);
    assert_eq!(graph.attr.get("y/z").unwrap(), &vec!["t", "null", "[1,\"u\"]"]);
    assert_eq!(graph.attr.get("w").unwrap(), &vec!["true", "0", "0"]);
    assert_eq!(graph.edge_attr.get("len").unwrap(), &vec![d(2.5), d(0.0)]);
    assert!(graph.attr.get("pop").is_none());
    assert_eq!(partition.assignments, vec![1, 0, 1]);
    assert_eq!(partition.dist_nodes, vec![vec![1], vec![0, 2]]);
}

#[test]
fn the_last_node_of_an_id_is_meant() {
    let document: Value = serde_json::from_str(
        r#"{"nodes":[{"pop":1,"district":0},{"id":null,"pop":1,"district":0},
            {"id":"null","pop":1,"district":0}],
            "adjacency":[[{}],[],[{"id":"null"}]]}"#,
    )
    .unwrap();
    let columns = graph_columns(&[], &[], &[]);
    let (graph, _) = from_networkx_value(&document, &columns, &whole_number).unwrap();
    assert_eq!(graph.neighbors, vec![vec![1], vec![], vec![2]]);
    assert_eq!(graph.edges, vec![Edge(0, 1)]);
}

#[test]
fn documents_without_a_graph_are_refused() {
    let refusal = |text: &str, edges: &[&str]| {
        let document: Value = serde_json::from_str(text).unwrap();
        let columns = graph_columns(&[], &[], edges);
        from_networkx_value(&document, &columns, &whole_number).unwrap_err()
    };
    let one = r#"{"id":0,"pop":1,"district":1}"#;
    let two = r#"{"id":1,"pop":1,"district":3}"#;

    let error = refusal("[]", &[]);
    assert_eq!(error, DocumentError::NoList("nodes".to_string()));
    assert_eq!(error.message(), "missing list 'nodes'");
    assert_eq!(
        refusal(r#"{"nodes":[]}"#, &[]),
        DocumentError::NoList("adjacency".to_string())
    );
    let error = refusal(r#"{"nodes":[{"pop":1,"district":-1}],"adjacency":[]}"#, &[]);
    assert_eq!(error, DocumentError::NoCount("district".to_string(), 0));
    let error = refusal(&format!(r#"{{"nodes":[{one}],"adjacency":[7]}}"#), &[]);
    assert_eq!(error, DocumentError::NoNeighbors(0));
    assert_eq!(error.message(), "the neighbors of node 0 are no list");
    let error = refusal(&format!(r#"{{"nodes":[{one}],"adjacency":[[{{"id":0}},{{"id":"0"}}]]}}"#), &[]);
    assert_eq!(error, DocumentError::UnknownNeighbor(0, 1));
    assert_eq!(error.message(), "neighbor 1 of node 0 is unknown");
    let error = refusal(&format!(r#"{{"nodes":[{one}],"adjacency":[]}}"#), &[]);
    assert_eq!(error, DocumentError::NoGraph);
    let error = refusal(&format!(r#"{{"nodes":[{one},{two}],"adjacency":[[],[]]}}"#), &[]);
    assert_eq!(error.message(), "Every district must have at least one node.");
    assert!(matches!(error, DocumentError::NoPlan(_)));
    let joined = format!(r#"{{"nodes":[{one},{two}],"adjacency":[[{{"id":1,"len":"2"}}],[]]}}"#);
    let error = refusal(&joined, &["len"]);
    assert_eq!(error, DocumentError::NoEdgeValue("len".to_string()));
    assert_eq!(error.message(), "no edge has the attribute 'len'");
}

#[test]
fn bendl_writer_without_output_file_is_rejected_by_binary() {
    let mut args = base_args();
    args.writer = "bendl".to_string();
    assert!(resolve_chain_output(&args)
        .unwrap_err()
        .contains("requires '--output-file'"));
    assert!(resolve_bendl_options("jsonl", "mlc", true).is_err());
    assert!(resolve_bendl_options("bendl", "mlc", true).unwrap().0);
}

#[test]
fn hashes_are_those_of_the_standard() {
    assert_eq!(
        sha3_hex(&vec![]),
        "a7ffc6f8bf1ed76651c14756a061d662f580ff4de43b49fa82d80a4b80f8434a"
    );
    assert_eq!(
        sha3_hex(&b"abc".to_vec()),
        "3a985da74fe225b2045c172d6bd390bd855f086e3e9d525b46bfe24511431532"
    );
}

#[test]
fn metadata_paths_stand_beside_the_output() {
    assert_eq!(metadata_path("a/b/plans.tar.gz"), "a/b/plans.tar_metadata.jsonl");
    assert_eq!(metadata_path("plans"), "plans_metadata.jsonl");
    assert_eq!(metadata_path("a/out/"), "a/out_metadata.jsonl");
    assert_eq!(metadata_path("out.x/./"), "out_metadata.jsonl");
    assert!(!is_file_path("/"));
    assert!(!is_file_path("./."));
    assert!(is_file_path("a/b.json"));
    assert!(!is_file_path(".."));
    assert!(same_path("a//b", "a/./b"));
    assert!(!same_path("a/b", "a/c"));
    assert!(assert_can_write_output(true, false).is_err());
    assert!(assert_can_write_output(true, true).is_ok());
    assert!(assert_can_write_output(false, false).is_ok());
}

#[test]
fn variants_and_weights_are_held_together() {
    let pairs = chain_variant("district-pairs-mst", false).unwrap();
    assert_eq!(pairs, RecomVariant::DistrictPairsRMST);
    let weighted = chain_variant("district-pairs-mst", true);
    assert!(match weighted {
        Ok(variant) => variant == RecomVariant::DistrictPairsRegionAware,
        Err(_) => true,
    });
    assert!(chain_variant("sideways", false).is_err());
    assert_eq!(
        optimizer_variant("cut-edges-ust", false, "").unwrap(),
        RecomVariant::CutEdgesUST
    );
}

#[test]
fn edge_weights_need_a_variant_that_weighs_edges() {
    let keys = strings(&["barrier"]);
    assert!(check_weight_keys(RecomVariant::DistrictPairsRMST, &keys).is_ok());
    assert!(check_weight_keys(RecomVariant::CutEdgesRegionAware, &keys).is_ok());
    assert!(check_weight_keys(RecomVariant::CutEdgesUST, &keys).is_err());
    assert!(check_weight_keys(RecomVariant::Reversible, &keys).is_err());
    assert!(check_weight_keys(RecomVariant::CutEdgesUST, &vec![]).is_ok());
}

#[test]
fn numbers_out_of_range_are_refused() {
    assert_eq!(
        check_chain_numbers(RecomVariant::Reversible, 0, d(0.1)).unwrap_err(),
        "For reversible ReCom, specify M > 0."
    );
    assert!(check_chain_numbers(RecomVariant::Reversible, 5, d(0.1)).is_ok());
    assert!(check_chain_numbers(RecomVariant::CutEdgesUST, 0, d(1.5)).is_err());
    assert!(check_tolerance(d(-0.1)).is_err());
    assert!(check_tolerance(d(1.0)).is_ok());
    assert!(check_optimizer_numbers(d(0.1), 0).is_err());
    assert!(check_optimizer_numbers(d(0.1), 1).is_ok());
}

#[test]
fn inline_json_is_told_from_paths() {
    assert!(holds_json(r#" {"a":1}"#));
    assert!(!holds_json("config.json"));
}

#[test]
fn columns_are_merged_once() {
    let floor = rustrecom::constraints::make_constraint(
        r#"{"constraint":"district_share_floor","numerator_col":"x","denominator_cols":["x","y"],"threshold":0.5}"#,
        numbers(),
    )
    .unwrap();
    let weights = Some(vec![("county".to_string(), d(1.0)), ("y".to_string(), d(0.5))]);
    let columns = plan_chain_columns(strings(&["a", "county"]), &weights, &floor);
    assert_eq!(columns.loaded, strings(&["a", "county", "y", "x"]));
    assert_eq!(columns.constraint_only, strings(&["x"]));
}

#[test]
fn objectives_bring_their_columns() {
    let mut inputs = OptimizerInputs::from_config_values(
        "g".to_string(),
        "pop".to_string(),
        "dist".to_string(),
        strings(&["bvap"]),
        vec![],
        strings(&["barrier"]),
        None,
    );
    let (_, edge_columns) = prepare_objective(
        r#"{"objective":"polsby_popper","area_col":"area","perim_col":"perim","shared_perim_col":"shared","aggregation":"mean"}"#,
        &mut inputs,
        numbers(),
    )
    .unwrap();
    assert_eq!(inputs.sum_cols, strings(&["bvap", "area", "perim"]));
    assert!(edge_columns.contains(&"shared".to_string()));
    assert!(edge_columns.contains(&"barrier".to_string()));
    assert_eq!(inputs.edge_weight_keys, strings(&["barrier"]));
}

#[test]
fn writers_are_made_by_name() {
    for name in ["canonical", "assignments", "ben", "pcompress", "canonicalized-assignments"] {
        assert!(is_assignment_writer(name), "{name}");
        assert!(make_stats_writer(name, false, false, 1).is_ok(), "{name}");
    }
    for name in ["tsv", "jsonl", "jsonl-full"] {
        assert!(!is_assignment_writer(name), "{name}");
        assert!(make_stats_writer(name, false, false, 1).is_ok(), "{name}");
    }
    assert_eq!(
        make_stats_writer("xml", false, false, 1).err().unwrap(),
        "Parameter error: invalid writer 'xml'"
    );
    assert!(build_optimizer_writers(false, true, false, "canonical").is_err());
    let writers = build_optimizer_writers(true, false, false, "canonical").unwrap();
    assert!(writers.stats.is_some() && writers.scores.is_none());
}

#[test]
fn records_hold_their_fields_as_json() {
    let mut meta = Meta::new();
    meta.put_text("name", "a \"b\"\n");
    meta.put_number("n", 3);
    meta.put_flag("yes", true);
    meta.put("list", "[1,2]".to_string());
    meta.put_number("gone", 9);
    meta.drop_key("gone");
    let record = parsed(&meta.render());
    assert_eq!(record["name"], "a \"b\"\n");
    assert_eq!(record["n"], 3);
    assert_eq!(record["yes"], true);
    assert_eq!(record["list"][1], 2);
    assert!(record.get("gone").is_none());
}

#[test]
fn metadata_fields_are_ordered_by_key() {
    let mut meta = Meta::new();
    meta.put_number("tol", 1);
    meta.put_text("graph", "a\"b");
    meta.put_flag("maximize", false);
    meta.put_flag("graph_path", true);
    assert_eq!(
        meta.render(),
        "{\"graph\":\"a\\\"b\",\"graph_path\":true,\"maximize\":false,\"tol\":1}"
    );
    assert_eq!(Meta::new().render(), "{}");
}
