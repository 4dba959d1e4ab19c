use rustrecom::constraints::NoConstraint;
use rustrecom::double::{Arithmetic, Double, Op};
use rustrecom::graph::{Edge, Graph};
use rustrecom::partition::Partition;
use rustrecom::recom::chain::run_chain;
use rustrecom::recom::merge::merged_subgraph;
use rustrecom::recom::mst_diagnostics::{
    diagnostic, failure_message, variant_name, Attempt, Failure, Report, MST_DEBUG_DIR_ENV,
};
use rustrecom::recom::proposal::{RecomParams, RecomVariant};
use rustrecom::recom::worker::{JobPacket, Worker};
use rustrecom::spanning_tree::SpanningTreeError;
use serde_json::Value;

type Calc = fn(Op, Double, Double) -> Double;

fn d(x: f64) -> Double {
    Double { bits: x.to_bits() }
}

fn f(x: Double) -> f64 {
    f64::from_bits(x.bits)
}

fn eval(op: Op, x: Double, y: Double) -> Double {
    d(match op {
        Op::Add => f(x) + f(y),
        Op::Sub => f(x) - f(y),
        Op::Mul => f(x) * f(y),
        Op::Div => f(x) / f(y),
        Op::OfInt(n) => n as f64,
    })
}

fn numbers() -> Arithmetic<Calc> {
    Arithmetic { eval: eval as Calc }
}

fn broken() -> SpanningTreeError {
    SpanningTreeError::Disconnected {
        node_count: 4,
        graph_edge_count: 2,
        expected_tree_edges: 3,
        actual_tree_edges: 2,
    }
}

#[test]
fn diagnostic_includes_previous_and_current_partitions() {
    let graph = Graph::from_edges(
        vec![1; 4],
        vec![Edge(0, 1), Edge(0, 2), Edge(1, 3), Edge(2, 3)],
    )
    .unwrap();
    let partition = Partition::from_assignments(&graph, &vec![0, 0, 1, 1]).unwrap();
    let subgraph = merged_subgraph(&graph, &partition, 0, 1);
    let previous: Vec<u32> = vec![0, 1, 0, 1];
    let attempt = Attempt {
        runner: "test".to_string(),
        worker_index: 2,
        rng_seed: 99,
        variant: RecomVariant::CutEdgesRMST,
        error: broken(),
        previous_assignment: Some(previous.clone()),
        dist_a: 0,
        dist_b: 1,
    };

    let text = diagnostic(&attempt, &partition, &subgraph);
    let document: Value = serde_json::from_str(&text).unwrap();
    assert_eq!(
        document["previous_partition"]["assignments"],
        Value::from(previous)
    );
    assert_eq!(
        document["current_partition"]["assignments"],
        Value::from(vec![0, 0, 1, 1])
    );

    let message = failure_message(&broken(), &Report::Written("/tmp/x.json".to_string()));
    assert!(message.contains("Diagnostic written to"));
}

#[test]
fn mst_failure_reports_context_and_writes_debug_artifact() {
    // Every node is reached from node 0 along the neighbor lists, but the list
    // of edges is one edge short.
    let graph =
        Graph::from_adjacency(vec![1; 4], vec![vec![2, 3], vec![0], vec![1], vec![0]]).unwrap();
    let partition = Partition::from_assignments(&graph, &vec![1, 1, 1, 2]).unwrap();
    let params = RecomParams {
        min_pop: 0,
        max_pop: 4,
        num_steps: 2,
        rng_seed: 17,
        balance_ub: 0,
        variant: RecomVariant::CutEdgesRMST,
        region_weights: vec![],
        edge_weight_keys: vec![],
    };

    let log = run_chain(&graph, &partition, &params, 1, 1, &NoConstraint, numbers());
    assert!(log.failed);
    let message = log.result.unwrap_err();
    assert!(message.contains("Cannot construct a spanning tree"));
    assert!(message.contains("found 2 of 3 required tree edges"));

    let mut worker = Worker::new(&graph, &partition, &params, &NoConstraint, 18, numbers());
    let job = JobPacket {
        n_steps: 1,
        diff: None,
    };
    let (error, dist_a, dist_b) =
        match worker.run_job(&graph, &params, &NoConstraint, &numbers(), &job) {
            Err(Failure::Tree(error, a, b)) => (error, a, b),
            _ => panic!("expected a failed draw"),
        };
    let subgraph = merged_subgraph(&graph, &partition, dist_a, dist_b);
    let attempt = Attempt {
        runner: "chain".to_string(),
        worker_index: 0,
        rng_seed: 18,
        variant: params.variant,
        error,
        previous_assignment: None,
        dist_a,
        dist_b,
    };
    let document: Value =
        serde_json::from_str(&diagnostic(&attempt, &partition, &subgraph)).unwrap();
    assert_eq!(document["failure"]["error"]["kind"], "disconnected");
    assert_eq!(document["runner"], "chain");
    assert_eq!(document["worker_index"], 0);
    assert_eq!(document["rng_seed"], 18);
    assert_eq!(document["previous_partition"], Value::Null);
    assert_eq!(
        document["current_partition"]["assignments"],
        Value::from(vec![0, 0, 0, 1])
    );
    assert_eq!(document["attempted_districts"]["a"], 0);
    assert_eq!(document["attempted_districts"]["b"], 1);
    assert_eq!(
        document["attempted_districts"]["indexing"],
        "internal zero-based"
    );
    assert_eq!(document["candidate_partition"], Value::Null);
    assert_eq!(document["merged_subgraph"]["node_count"], 4);
    assert_eq!(document["merged_subgraph"]["edge_count"], 2);
}

#[test]
fn failures_say_where_the_diagnostic_went() {
    let tree = broken().message();
    assert_eq!(
        failure_message(&broken(), &Report::NotAsked),
        format!("{tree} Set {MST_DEBUG_DIR_ENV} to a directory to write a diagnostic JSON file.")
    );
    assert_eq!(
        failure_message(&broken(), &Report::Written("d/x.json".to_string())),
        format!("{tree} Diagnostic written to 'd/x.json'.")
    );
    assert_eq!(
        failure_message(
            &broken(),
            &Report::Unwritten("d".to_string(), "no space".to_string())
        ),
        format!("{tree} Could not write the requested diagnostic to 'd': no space.")
    );
    assert_eq!(
        Failure::Tree(broken(), 0, 1).message(),
        failure_message(&broken(), &Report::NotAsked)
    );
    assert_eq!(Failure::Other("odd".to_string()).message(), "odd");
}

#[test]
fn variants_have_names() {
    assert_eq!(variant_name(RecomVariant::Reversible), "reversible");
    assert_eq!(variant_name(RecomVariant::CutEdgesRMST), "cut-edges-mst");
    assert_eq!(
        variant_name(RecomVariant::DistrictPairsRegionAware),
        "district-pairs-region-aware"
    );
}
