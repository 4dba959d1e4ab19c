use rustrecom::config::{
    parse_chain_config, parse_region_weights_config, parse_short_bursts_config,
    parse_tilted_config, region_weights_from_map,
};
use rustrecom::double::Double;
use serde_json::Value;

fn d(x: f64) -> Double {
    Double { bits: x.to_bits() }
}

fn f(x: Double) -> f64 {
    f64::from_bits(x.bits)
}

fn parsed(text: &str) -> Value {
    serde_json::from_str(text).unwrap()
}

fn minimal_config() -> Value {
    parsed(
        r#"{"version":1,"command":"chain","graph_json":"/graph.json","n_steps":10,"tol":0.05,
            "pop_col":"TOTPOP","assignment_col":"district","rng_seed":42,
            "variant":"district-pairs-rmst"}"#,
    )
}

fn minimal_optimizer_config(command: &str) -> Value {
    let mut config = parsed(
        r#"{"version":1,"graph_json":"/graph.json","n_steps":10,"tol":0.05,
            "pop_col":"TOTPOP","assignment_col":"district","rng_seed":42,
            "objective":{"objective":"gingles_partial","threshold":0.5,"min_pop":"a","total_pop":"b"}}"#,
    );
    config["command"] = Value::from(command);
    config
}

#[test]
fn minimal_config_takes_cli_defaults() {
    let raw = minimal_config().to_string();
    let loaded = parse_chain_config(&raw).unwrap();
    assert_eq!(loaded.raw, raw);
    let document = loaded.document;
    assert_eq!(document.variant, "district-pairs-rmst");
    assert_eq!(document.n_threads, 1);
    assert_eq!(document.batch_size, 1);
    assert_eq!(document.writer, "jsonl");
    assert_eq!(document.bendl_graph_order, "none");
    assert_eq!(document.balance_ub, 0);
    assert_eq!(document.target_pop, None);
    assert_eq!(document.output_file, None);
    assert_eq!(document.constraint, None);
    assert!(document.sum_cols.is_empty());
    assert!(!document.cut_edges_count);
    assert!(!document.show_progress);
    assert_eq!(document.sample_interval, 1);
    assert_eq!(document.n_steps, 10);
    assert_eq!(document.rng_seed, 42);
    assert_eq!(f(document.tol), 0.05);
}

#[test]
fn rejects_invalid_envelopes() {
    assert!(parse_chain_config("not json")
        .err()
        .unwrap()
        .contains("Invalid config JSON"));
    assert!(parse_chain_config("[]")
        .err()
        .unwrap()
        .contains("JSON object"));

    let mut config = minimal_config();
    config["version"] = Value::from(1.5);
    assert!(parse_chain_config(&config.to_string())
        .err()
        .unwrap()
        .contains("'version'"));
    config["version"] = Value::from(2);
    assert!(parse_chain_config(&config.to_string())
        .err()
        .unwrap()
        .contains("Unsupported config version 2"));
    config["version"] = Value::from(1);
    config["command"] = Value::from("tilted");
    assert!(parse_chain_config(&config.to_string())
        .err()
        .unwrap()
        .contains("Expected command 'chain'"));
}

#[test]
fn rejects_missing_required_and_unknown_fields() {
    let mut config = minimal_config();
    config.as_object_mut().unwrap().remove("pop_col");
    assert!(parse_chain_config(&config.to_string())
        .err()
        .unwrap()
        .contains("missing field `pop_col`"));

    let mut config = minimal_config();
    config["pop_tol"] = Value::from(0.05);
    assert!(parse_chain_config(&config.to_string())
        .err()
        .unwrap()
        .contains("unknown field `pop_tol`"));
}

#[test]
fn sorts_region_weights_by_priority() {
    let weights = vec![
        ("county".to_string(), d(2.0)),
        ("municipality".to_string(), d(5.0)),
    ];
    let sorted: Vec<(String, f64)> = region_weights_from_map(&weights)
        .unwrap()
        .into_iter()
        .map(|(name, w)| (name, f(w)))
        .collect();
    assert_eq!(
        sorted,
        vec![
            ("municipality".to_string(), 5.0),
            ("county".to_string(), 2.0),
        ]
    );
    assert!(region_weights_from_map(&vec![]).is_none());
}

#[test]
fn region_weights_are_read_from_text() {
    assert!(parse_region_weights_config("").unwrap().is_none());
    assert!(parse_region_weights_config("{}").unwrap().is_none());
    let sorted: Vec<(String, f64)> = parse_region_weights_config(r#"{"a":1,"b":3,"c":2.5}"#)
        .unwrap()
        .unwrap()
        .into_iter()
        .map(|(name, w)| (name, f(w)))
        .collect();
    assert_eq!(
        sorted,
        vec![
            ("b".to_string(), 3.0),
            ("c".to_string(), 2.5),
            ("a".to_string(), 1.0)
        ]
    );
    assert!(parse_region_weights_config("[1]").is_err());
    assert!(parse_region_weights_config(r#"{"a":"x"}"#).is_err());
}

#[test]
fn short_bursts_config_takes_defaults() {
    let mut config = minimal_optimizer_config("short-bursts");
    config["burst_length"] = Value::from(5);
    let raw = config.to_string();
    let loaded = parse_short_bursts_config(&raw).unwrap();
    assert_eq!(loaded.raw, raw);
    let document = loaded.document;
    assert_eq!(document.burst_length, 5);
    assert!(document.maximize);
    assert_eq!(document.n_threads, 1);
    assert_eq!(document.output_file, None);
    assert_eq!(document.scores_output_file, None);
    assert!(!document.write_improved_scores_only);
    assert_eq!(document.objective["threshold"], Value::from(0.5));
}

#[test]
fn short_bursts_config_needs_its_command_and_length() {
    let config = minimal_optimizer_config("short-bursts");
    assert!(parse_short_bursts_config(&config.to_string())
        .err()
        .unwrap()
        .contains("missing field `burst_length`"));
    let config = minimal_optimizer_config("chain");
    assert!(parse_short_bursts_config(&config.to_string())
        .err()
        .unwrap()
        .contains("Expected command 'short-bursts'"));
}

#[test]
fn tilted_config_takes_defaults() {
    let mut config = minimal_optimizer_config("tilted");
    let loaded = parse_tilted_config(&config.to_string()).unwrap();
    assert_eq!(loaded.document.accept_rule, "linear");
    assert!(loaded.document.accept_worse_prob.is_none());
    assert!(loaded.document.acceptance_beta.is_none());

    config["acceptance_beta"] = Value::from(2.5);
    let loaded = parse_tilted_config(&config.to_string()).unwrap();
    assert_eq!(f(loaded.document.acceptance_beta.unwrap()), 2.5);

    config["burst_length"] = Value::from(5);
    assert!(parse_tilted_config(&config.to_string())
        .err()
        .unwrap()
        .contains("unknown field `burst_length`"));
}

#[test]
fn fields_of_the_wrong_kind_are_refused() {
    for (name, value) in [
        ("n_steps", Value::from(-1)),
        ("n_steps", Value::from("ten")),
        ("tol", Value::from("small")),
        ("pop_col", Value::from(3)),
        ("show_progress", Value::from(1)),
        ("sum_cols", Value::from("a")),
        ("rng_seed", Value::from(1.5)),
    ] {
        let mut config = minimal_config();
        config[name] = value;
        assert!(parse_chain_config(&config.to_string()).is_err(), "{name}");
    }
}
