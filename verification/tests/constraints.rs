use rustrecom::constraints::{
    make_constraint, ChainConstraint, ConstraintConfig, ConstraintState,
};
use rustrecom::double::{Arithmetic, Double, Op};
use rustrecom::graph::{Edge, Graph};
use rustrecom::partition::Partition;
use rustrecom::recom::chain::{multi_chain_with_constraint, run_chain};
use rustrecom::recom::proposal::{RecomParams, RecomProposal, RecomVariant};
use rustrecom::stats::counts::SelfLoopReason;
use rustrecom::stats::records::Record;
use rustrecom::stats::writers::AssignmentsOnlyWriter;

type Calc = fn(Op, Double, Double) -> Double;

fn d(x: f64) -> Double {
    Double { bits: x.to_bits() }
}

fn f(x: Double) -> f64 {
    f64::from_bits(x.bits)
}

fn eval(op: Op, x: Double, y: Double) -> Double {
    d(match op {
        Op::Add => f(x) + f(y),
        Op::Sub => f(x) - f(y),
        Op::Mul => f(x) * f(y),
        Op::Div => f(x) / f(y),
        Op::OfInt(n) => n as f64,
    })
}

fn numbers() -> Arithmetic<Calc> {
    Arithmetic { eval: eval as Calc }
}

fn read(s: &String) -> Option<Double> {
    s.parse::<f64>().ok().map(d)
}

fn path_graph_with_attrs(rep: Vec<&str>, dem: Vec<&str>) -> (Graph, Partition) {
    let mut graph =
        Graph::from_edges(vec![1; 4], vec![Edge(0, 1), Edge(1, 2), Edge(2, 3)]).unwrap();
    graph.attr.insert(
        "rep".to_string(),
        rep.into_iter().map(|value| value.to_string()).collect(),
    );
    graph.attr.insert(
        "dem".to_string(),
        dem.into_iter().map(|value| value.to_string()).collect(),
    );
    let partition = Partition::from_assignments(&graph, &vec![1, 1, 2, 2]).unwrap();
    (graph, partition)
}

fn rep_floor(threshold: f64) -> ConstraintConfig<Calc> {
    make_constraint(
        &format!(
            r#"{{"constraint":"district_share_floor","numerator_col":"rep","denominator_cols":["rep","dem"],"threshold":{threshold}}}"#
        ),
        numbers(),
    )
    .unwrap()
}

/// A grid of six columns of six nodes of population 1. Each column is a
/// district, and half of its nodes vote for each side.
fn six_by_six() -> (Graph, Partition) {
    let mut edges = vec![];
    for node in 0..36 {
        if node % 6 + 1 < 6 {
            edges.push(Edge(node, node + 1));
        }
        if node / 6 + 1 < 6 {
            edges.push(Edge(node, node + 6));
        }
    }
    let mut graph = Graph::from_edges(vec![1; 36], edges).unwrap();
    graph.attr.insert(
        "a_share".to_string(),
        (0..36).map(|node| (node % 2).to_string()).collect(),
    );
    graph.attr.insert(
        "b_share".to_string(),
        (0..36).map(|node| (1 - node % 2).to_string()).collect(),
    );
    let labels = (0..36).map(|node| node / 6 + 1).collect();
    let partition = Partition::from_assignments(&graph, &labels).unwrap();
    (graph, partition)
}

/// The labels in a line of the form `[step,[label, ..]]`.
fn labels_of(record: &Record) -> Vec<u32> {
    match record {
        Record::Text(line) => line
            .split(|c: char| !c.is_ascii_digit())
            .filter(|part| !part.is_empty())
            .skip(1)
            .map(|part| part.parse().unwrap())
            .collect(),
        _ => panic!("expected a line of text"),
    }
}

fn sums(state: &ConstraintState) -> (Vec<f64>, Vec<f64>) {
    match state {
        ConstraintState::DistrictShareFloor(s) => (
            s.numerators.iter().map(|&x| f(x)).collect(),
            s.denominators.iter().map(|&x| f(x)).collect(),
        ),
        ConstraintState::Unconstrained => panic!("expected sums"),
    }
}

#[test]
fn district_share_floor_accepts_integer_columns() {
    let (mut graph, partition) =
        path_graph_with_attrs(vec!["6", "6", "7", "7"], vec!["4", "4", "3", "3"]);
    let constraint = rep_floor(0.6);
    constraint.cache_graph_cols(&mut graph, &read).unwrap();
    let state = constraint.init(&graph, &partition);
    assert!(constraint.is_valid_state(&state));
}

#[test]
fn district_share_floor_accepts_float_columns() {
    let (mut graph, partition) = path_graph_with_attrs(
        vec!["0.25", "0.25", "0.40", "0.40"],
        vec!["0.25", "0.25", "0.10", "0.10"],
    );
    let constraint = rep_floor(0.5);
    constraint.cache_graph_cols(&mut graph, &read).unwrap();
    let state = constraint.init(&graph, &partition);
    assert!(constraint.is_valid_state(&state));
}

#[test]
fn district_share_floor_rejects_invalid_seed() {
    let (mut graph, partition) =
        path_graph_with_attrs(vec!["6", "6", "7", "7"], vec!["4", "4", "3", "3"]);
    let constraint = rep_floor(0.65);
    constraint.cache_graph_cols(&mut graph, &read).unwrap();
    let state = constraint.init(&graph, &partition);
    assert!(!constraint.is_valid_state(&state));
}

#[test]
fn district_share_floor_checks_changed_proposal_districts() {
    let (mut graph, partition) =
        path_graph_with_attrs(vec!["10", "2", "7", "7"], vec!["0", "8", "3", "3"]);
    let constraint = rep_floor(0.6);
    constraint.cache_graph_cols(&mut graph, &read).unwrap();
    let state = constraint.init(&graph, &partition);

    let valid = RecomProposal {
        a_label: 0,
        b_label: 1,
        a_pop: 2,
        b_pop: 2,
        a_nodes: vec![0, 1],
        b_nodes: vec![2, 3],
    };
    assert!(constraint.proposal_valid(&graph, &state, &valid));

    let invalid = RecomProposal {
        a_label: 0,
        b_label: 1,
        a_pop: 2,
        b_pop: 2,
        a_nodes: vec![1, 2],
        b_nodes: vec![0, 3],
    };
    assert!(!constraint.proposal_valid(&graph, &state, &invalid));
}

#[test]
fn district_share_floor_apply_matches_reinit() {
    let (mut graph, mut partition) =
        path_graph_with_attrs(vec!["6", "6", "7", "7"], vec!["4", "4", "3", "3"]);
    let constraint = rep_floor(0.6);
    constraint.cache_graph_cols(&mut graph, &read).unwrap();
    let mut state = constraint.init(&graph, &partition);
    let proposal = RecomProposal {
        a_label: 0,
        b_label: 1,
        a_pop: 2,
        b_pop: 2,
        a_nodes: vec![0, 2],
        b_nodes: vec![1, 3],
    };

    constraint.apply_proposal(&graph, &mut state, &proposal);
    partition.update(&proposal);
    let rebuilt = constraint.init(&graph, &partition);

    assert_eq!(sums(&state), sums(&rebuilt));
}

#[test]
fn constrained_runner_rejects_invalid_seed_before_starting() {
    let (mut graph, partition) =
        path_graph_with_attrs(vec!["6", "6", "7", "7"], vec!["4", "4", "3", "3"]);
    let constraint = rep_floor(0.65);
    constraint.cache_graph_cols(&mut graph, &read).unwrap();
    let params = RecomParams {
        min_pop: 1,
        max_pop: 3,
        balance_ub: 0,
        num_steps: 10,
        rng_seed: 17,
        variant: RecomVariant::DistrictPairsRMST,
        region_weights: vec![],
        edge_weight_keys: vec![],
    };
    let mut out = vec![];

    let result = multi_chain_with_constraint(
        &graph,
        &partition,
        &mut AssignmentsOnlyWriter::new(false),
        &params,
        1,
        1,
        &constraint,
        numbers(),
        &mut out,
    );

    assert_eq!(
        result.unwrap_err(),
        "Initial partition does not satisfy the chain constraint"
    );
    assert!(out.is_empty());
}

#[test]
fn constrained_runner_only_emits_valid_plans_and_self_loops() {
    let (mut graph, partition) = six_by_six();
    let floor = r#"{"constraint":"district_share_floor","numerator_col":"a_share","denominator_cols":["a_share","b_share"],"threshold":0.5}"#;
    let constraint = make_constraint(floor, numbers()).unwrap();
    constraint.cache_graph_cols(&mut graph, &read).unwrap();

    let params = RecomParams {
        min_pop: 4,
        max_pop: 8,
        balance_ub: 0,
        num_steps: 2000,
        rng_seed: 781234,
        variant: RecomVariant::DistrictPairsRMST,
        region_weights: vec![],
        edge_weight_keys: vec![],
    };
    let mut out = vec![];
    let result = multi_chain_with_constraint(
        &graph,
        &partition,
        &mut AssignmentsOnlyWriter::new(false),
        &params,
        4,
        1,
        &constraint,
        numbers(),
        &mut out,
    );
    assert!(result.is_ok(), "chain run failed: {:?}", result);
    assert_eq!(out.len(), 2000);
    for (step, record) in out.iter().enumerate() {
        let emitted = Partition::from_assignments(&graph, &labels_of(record)).unwrap();
        let state = constraint.init(&graph, &emitted);
        assert!(
            constraint.is_valid_state(&state),
            "constraint was violated by an emitted plan at step {step}"
        );
    }

    let log = run_chain(&graph, &partition, &params, 4, 1, &constraint, numbers());
    let constraint_loops: usize = log
        .packets
        .iter()
        .map(|packet| packet.counts.get(SelfLoopReason::ConstraintViolation))
        .sum();
    assert!(
        constraint_loops > 0,
        "expected at least one constraint self-loop under a 0.5 floor"
    );
    for packet in &log.packets {
        assert_eq!(
            packet.counts.sum(),
            packet.counts.get(SelfLoopReason::ConstraintViolation)
        );
    }
}

#[test]
fn constraint_columns_are_named_once() {
    assert_eq!(
        rep_floor(0.5).required_node_cols(),
        vec!["rep".to_string(), "dem".to_string()]
    );
}

#[test]
fn malformed_constraints_are_refused() {
    for text in [
        "nonsense",
        r#"{"constraint":"other"}"#,
        r#"{"constraint":"district_share_floor","denominator_cols":["rep"],"threshold":0.5}"#,
        r#"{"constraint":"district_share_floor","numerator_col":"rep","denominator_cols":[],"threshold":0.5}"#,
        r#"{"constraint":"district_share_floor","numerator_col":"rep","denominator_cols":["rep"],"threshold":1.5}"#,
    ] {
        assert!(make_constraint(text, numbers()).is_err(), "{text}");
    }
}

#[test]
fn the_first_column_without_numbers_is_named() {
    let (mut graph, _) = path_graph_with_attrs(vec!["6", "6", "7", "7"], vec!["4", "x", "3", "3"]);
    let constraint = rep_floor(0.6);
    assert_eq!(
        constraint.cache_graph_cols(&mut graph, &read).unwrap_err(),
        "Column 'dem' is missing or holds a non-numeric value"
    );
    graph.attr.remove("rep");
    assert_eq!(
        constraint.cache_graph_cols(&mut graph, &read).unwrap_err(),
        "Column 'rep' is missing or holds a non-numeric value"
    );
}
