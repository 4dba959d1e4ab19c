use rustrecom::double::{Arithmetic, Double, Op};
use rustrecom::graph::{Edge, Graph};
use rustrecom::objectives::config::ObjectiveConfig;
use rustrecom::objectives::incremental::IncrementalObjective;
use rustrecom::objectives::parse::make_objective;
use rustrecom::partition::Partition;
use rustrecom::random::Pick;
use rustrecom::recom::burst_output::multi_short_bursts_with_writer;
use rustrecom::recom::burst_run::{place_by_id, run_bursts};
use rustrecom::recom::proposal::{RecomParams, RecomProposal, RecomVariant};
use rustrecom::recom::rescore::FullRescoreBackend;
use rustrecom::recom::short_bursts::{is_better, ScoredProposal};
use rustrecom::stats::records::Record;
use rustrecom::stats::scores::ScoresWriter;
use rustrecom::stats::writers::AssignmentsOnlyWriter;

const RNG_SEED: u64 = 153434375;
const WINS: &str = r#"{"objective":"election_wins","elections":[{"votes_a":"a_share","votes_b":"b_share"}],"target":"a","aggregation":"mean"}"#;

type Calc = fn(Op, Double, Double) -> Double;

fn d(x: f64) -> Double {
    Double { bits: x.to_bits() }
}

fn f(x: Double) -> f64 {
    f64::from_bits(x.bits)
}

fn eval(op: Op, x: Double, y: Double) -> Double {
    d(match op {
        Op::Add => f(x) + f(y),
        Op::Sub => f(x) - f(y),
        Op::Mul => f(x) * f(y),
        Op::Div => f(x) / f(y),
        Op::OfInt(n) => n as f64,
    })
}

fn numbers() -> Arithmetic<Calc> {
    Arithmetic { eval: eval as Calc }
}

fn read(s: &String) -> Option<Double> {
    s.parse::<f64>().ok().map(d)
}

fn show(x: Double) -> String {
    format!("{}", f(x))
}

/// A grid of six columns of six nodes of population 1, each column a district.
/// Votes follow no pattern that lines up with the columns.
fn six_by_six() -> (Graph, Partition) {
    let mut edges = vec![];
    for node in 0..36 {
        if node % 6 + 1 < 6 {
            edges.push(Edge(node, node + 1));
        }
        if node / 6 + 1 < 6 {
            edges.push(Edge(node, node + 6));
        }
    }
    let mut graph = Graph::from_edges(vec![1; 36], edges).unwrap();
    let a_votes = |node: usize| (node * 7 + node / 6) % 5;
    let column = |value: &dyn Fn(usize) -> usize| (0..36).map(|n| value(n).to_string()).collect();
    graph.attr.insert("a_share".to_string(), column(&a_votes));
    graph
        .attr
        .insert("b_share".to_string(), column(&|node| 4 - a_votes(node)));
    graph.attr.insert("population".to_string(), column(&|_| 4));
    let labels = (0..36).map(|node| node / 6 + 1).collect();
    let partition = Partition::from_assignments(&graph, &labels).unwrap();
    (graph, partition)
}

fn make_params(num_steps: u64) -> RecomParams {
    RecomParams {
        min_pop: 5,
        max_pop: 7,
        num_steps,
        rng_seed: RNG_SEED,
        balance_ub: 0,
        variant: RecomVariant::DistrictPairsRMST,
        region_weights: vec![],
        edge_weight_keys: vec![],
    }
}

fn prepared(config: &str) -> (Graph, Partition, ObjectiveConfig<Calc>) {
    let (mut graph, partition) = six_by_six();
    let objective = make_objective(config, numbers()).unwrap();
    objective.cache_graph_cols(&mut graph, &read).unwrap();
    (graph, partition, objective)
}

struct Run {
    best: Partition,
    /// The step and the labels of each row of the plan output.
    rows: Vec<(u64, Vec<u32>)>,
    scores: String,
}

fn run(
    graph: &Graph,
    partition: &Partition,
    params: &RecomParams,
    objective: &impl IncrementalObjective,
    maximize: bool,
    burst_length: usize,
    improved_only: bool,
) -> Run {
    let mut writer = Some(AssignmentsOnlyWriter::new(false));
    let mut scores = Some(ScoresWriter::new());
    let mut out = vec![];
    let best = multi_short_bursts_with_writer(
        graph,
        partition,
        params,
        1,
        objective,
        maximize,
        burst_length,
        &mut writer,
        &mut scores,
        improved_only,
        numbers(),
        &show,
        &mut out,
    )
    .unwrap();
    let rows = out
        .iter()
        .map(|record| match record {
            Record::Text(line) => {
                let (step, labels) = line.trim_end().split_once(',').unwrap();
                (step.parse().unwrap(), serde_json::from_str(labels).unwrap())
            }
            _ => panic!("expected a line of text"),
        })
        .collect();
    Run {
        best,
        rows,
        scores: scores.unwrap().close(),
    }
}

#[test]
fn test_short_bursts_returns_partition_matching_claimed_best_score() {
    let (graph, partition) = six_by_six();
    let initial = partition.assignments.clone();
    let seed = initial.clone();
    let obj_fn = move |_graph: &Graph, p: &Partition| -> Double {
        if p.assignments == seed {
            d(1.0)
        } else {
            d(0.0)
        }
    };
    let result = run(
        &graph,
        &partition,
        &make_params(30),
        &FullRescoreBackend { obj_fn },
        true,
        5,
        false,
    );
    assert_eq!(result.best.assignments, initial);
}

#[test]
fn test_short_bursts_writer_records_every_accepted_step() {
    let (graph, partition, objective) = prepared(WINS);
    let params = make_params(50);
    let result = run(&graph, &partition, &params, &objective, true, 5, false);
    for (i, (step, _)) in result.rows.iter().enumerate() {
        assert_eq!(*step, i as u64);
    }
    assert_eq!(result.rows[0].1, partition.assignments);
    assert_eq!(result.rows.len() as u64 - 1, params.num_steps - 1);
}

#[test]
fn test_short_bursts_improved_scores_only_does_not_filter_output_writer() {
    let (graph, partition, objective) = prepared(WINS);
    let params = make_params(50);
    let result = run(&graph, &partition, &params, &objective, true, 10, true);
    for (i, (step, _)) in result.rows.iter().enumerate() {
        assert_eq!(*step, i as u64, "non-sequential sample number at index {i}");
    }
    assert_eq!(result.rows.len() as u64 - 1, params.num_steps - 1);
}

#[test]
fn test_short_bursts_improved_scores_only_cross_validation() {
    let (graph, partition, objective) = prepared(WINS);
    let params = make_params(200);
    let all = run(&graph, &partition, &params, &objective, true, 5, false);
    let improved = run(&graph, &partition, &params, &objective, true, 5, true);

    assert_eq!(
        improved.rows.len(),
        all.rows.len(),
        "score filtering must not affect --output-file/stat records"
    );

    let scores_lines: Vec<&str> = all.scores.lines().collect();
    let data_rows = scores_lines.len().saturating_sub(2);
    assert_eq!(data_rows, all.rows.len() - 1);

    assert_eq!(scores_lines[0], "step,score");
    for (offset, line) in scores_lines.iter().skip(1).enumerate() {
        let fields: Vec<&str> = line.split(',').collect();
        assert_eq!(fields.len(), 2);
        assert_eq!(fields[0].parse::<u64>().unwrap(), offset as u64);
        fields[1].parse::<f64>().unwrap();
    }

    let best_scores_lines: Vec<&str> = improved.scores.lines().collect();
    assert_eq!(best_scores_lines[0], "step,score");

    let parse_row = |line: &str| {
        let fields: Vec<&str> = line.split(',').collect();
        (
            fields[0].parse::<u64>().unwrap(),
            fields[1].parse::<f64>().unwrap(),
        )
    };
    let all_rows: Vec<(u64, f64)> = scores_lines
        .iter()
        .skip(1)
        .map(|line| parse_row(line))
        .collect();
    let mut expected_rows = vec![all_rows[0]];
    let mut best = all_rows[0].1;
    for &row in all_rows.iter().skip(1) {
        if row.1 > best {
            expected_rows.push(row);
            best = row.1;
        }
    }
    let best_rows: Vec<(u64, f64)> = best_scores_lines
        .iter()
        .skip(1)
        .map(|line| parse_row(line))
        .collect();
    assert_eq!(best_rows, expected_rows);
    assert!(best_rows.len() > 1, "the run should improve on its seed");

    let mut prev_step = 0;
    let mut prev_score = best_rows[0].1;
    for &(step, score) in best_rows.iter().skip(1) {
        assert!(step > prev_step, "improved-only score steps must increase");
        assert!(
            score > prev_score,
            "improved-only score rows must strictly improve"
        );
        prev_step = step;
        prev_score = score;
    }
}

#[test]
fn test_short_bursts_scores_district_vector_tracks_each_step() {
    let (graph, partition, objective) = prepared(
        r#"{"objective":"gingles_partial","threshold":0.5,"min_pop":"a_share","total_pop":"population"}"#,
    );
    let result = run(&graph, &partition, &make_params(80), &objective, true, 5, false);

    let recompute = |labels: &Vec<u32>| -> Vec<f64> {
        let plan = Partition::from_assignments(&graph, labels).unwrap();
        let state = objective.init(&graph, &plan);
        objective.district_scores(&state).into_iter().map(f).collect()
    };
    let parse_districts = |line: &str| -> Vec<f64> {
        line.split(',')
            .skip(2)
            .map(|field| field.parse::<f64>().unwrap())
            .collect()
    };

    let scores_lines: Vec<&str> = result.scores.lines().collect();
    assert!(
        scores_lines[0].starts_with("step,score,d_0"),
        "expected per-district header, got: {}",
        scores_lines[0]
    );

    let data_lines: Vec<&str> = scores_lines[1..].to_vec();
    assert_eq!(data_lines.len(), result.rows.len());

    let seed_vec = parse_districts(data_lines[0]);
    let mut saw_change = false;
    for (line, (_, labels)) in data_lines.iter().zip(&result.rows) {
        let csv_vec = parse_districts(line);
        let expected = recompute(labels);
        assert_eq!(csv_vec.len(), expected.len());
        for (got, want) in csv_vec.iter().zip(&expected) {
            assert!((got - want).abs() < 1e-9, "csv={got} recomputed={want}");
        }
        if csv_vec != seed_vec {
            saw_change = true;
        }
    }
    assert!(
        saw_change,
        "expected the per-district vector to change across steps"
    );
}

#[test]
fn test_short_bursts_hill_climbing_maximize() {
    let (graph, partition, objective) = prepared(WINS);
    let initial_score = f(objective.score(&graph, &partition));
    let result = run(&graph, &partition, &make_params(1000), &objective, true, 10, false);
    let final_score = f(objective.score(&graph, &result.best));
    assert!(
        final_score >= initial_score,
        "Hill-climbing maximize: final score {} < initial score {}",
        final_score,
        initial_score
    );
}

#[test]
fn test_short_bursts_backend_parity_election_wins() {
    let params = make_params(200);
    let burst_length = 5;
    let (graph, partition, objective) = prepared(WINS);
    let inc_final = run(&graph, &partition, &params, &objective, true, burst_length, false);

    let (graph, partition, objective) = prepared(WINS);
    let obj_fn = move |g: &Graph, p: &Partition| -> Double { objective.score(g, p) };
    let full_final = run(
        &graph,
        &partition,
        &params,
        &FullRescoreBackend { obj_fn },
        true,
        burst_length,
        false,
    );
    assert_eq!(
        inc_final.best.assignments, full_final.best.assignments,
        "incremental and full scoring produced different final partitions under the same seed"
    );
}

#[test]
fn scores_of_a_run_are_the_scores_of_its_plans() {
    let (graph, partition, objective) = prepared(WINS);
    let params = make_params(200);
    let log = run_bursts(&graph, &partition, &params, 1, &objective, true, 5, numbers());
    assert_eq!(log.records.len() as u64, params.num_steps - 1);

    let mut best = (f(objective.score(&graph, &partition)), partition.assignments.clone());
    assert_eq!(f(log.seed_score), best.0);
    for record in &log.records {
        let full = f(objective.score(&graph, &record.partition));
        assert_eq!(f(record.score), full);
        assert_eq!(record.improved, full > best.0);
        if full >= best.0 {
            best = (full, record.partition.assignments.clone());
        }
    }
    assert_eq!(f(objective.score(&graph, &log.best)), best.0);
}

#[test]
fn refused_runs_write_nothing() {
    let (graph, partition, objective) = prepared(WINS);
    for (n_threads, variant, burst_length, message) in [
        (0, RecomVariant::DistrictPairsRMST, 5, "n_threads must be at least 1"),
        (1, RecomVariant::DistrictPairsRMST, 0, "burst_length must be at least 1"),
        (
            1,
            RecomVariant::Reversible,
            5,
            "Reversible ReCom is not supported by the short bursts optimizer.",
        ),
    ] {
        let mut params = make_params(10);
        params.variant = variant;
        let mut writer = Some(AssignmentsOnlyWriter::new(false));
        let mut scores = Some(ScoresWriter::new());
        let mut out = vec![];
        let result = multi_short_bursts_with_writer(
            &graph,
            &partition,
            &params,
            n_threads,
            &objective,
            true,
            burst_length,
            &mut writer,
            &mut scores,
            false,
            numbers(),
            &show,
            &mut out,
        );
        assert_eq!(result.err().unwrap(), message);
        assert!(out.is_empty());
        assert_eq!(scores.unwrap().close(), "");
    }
}

#[test]
fn better_is_strict_and_one_sided() {
    assert!(is_better(d(2.0), d(1.0), true));
    assert!(!is_better(d(1.0), d(2.0), true));
    assert!(is_better(d(1.0), d(2.0), false));
    assert!(!is_better(d(2.0), d(1.0), false));
    assert!(!is_better(d(f64::NAN), d(1.0), true));
}

#[test]
fn proposals_are_chosen_by_their_numbers() {
    let scored = |id: u64| ScoredProposal {
        id,
        proposal: RecomProposal {
            a_label: 0,
            b_label: 1,
            a_pop: 1,
            b_pop: 1,
            a_nodes: vec![],
            b_nodes: vec![],
        },
        score: d(0.0),
    };
    let drawn = vec![scored(30), scored(10), scored(20), scored(10)];
    let place = |value: usize| place_by_id(&drawn, Pick { value, bound: 4 });
    assert_eq!([place(0), place(1), place(2), place(3)], [1, 3, 2, 0]);
}
