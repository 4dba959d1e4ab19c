use rustrecom::double::{Arithmetic, Double, Op};
use rustrecom::graph::{Edge, Graph};
use rustrecom::objectives::aggregation::Aggregation;
use rustrecom::objectives::banded_gingles_partial::BandedGinglesPartial;
use rustrecom::objectives::by_district_abs_deviation::{AbsDevTotal, ByDistrictAbsDeviation};
use rustrecom::objectives::config::{ObjectiveConfig, ObjectiveState};
use rustrecom::objectives::election_wins::ElectionWins;
use rustrecom::objectives::gingles_partial::GinglesPartial;
use rustrecom::objectives::incremental::IncrementalObjective;
use rustrecom::objectives::matching::by_district_abs_dev_score;
use rustrecom::objectives::parse::{
    make_objective, partial_node_cols, polsby_popper_autoderive, required_edge_cols,
    required_node_cols,
};
use rustrecom::objectives::polsby_popper::{
    ensure_derived_perim_column, polsby_popper_score, PolsbyPopper,
};
use rustrecom::partition::Partition;
use rustrecom::recom::proposal::RecomProposal;

type Calc = fn(Op, Double, Double) -> Double;

fn d(x: f64) -> Double {
    Double { bits: x.to_bits() }
}

fn f(x: Double) -> f64 {
    f64::from_bits(x.bits)
}

fn eval(op: Op, x: Double, y: Double) -> Double {
    d(match op {
        Op::Add => f(x) + f(y),
        Op::Sub => f(x) - f(y),
        Op::Mul => f(x) * f(y),
        Op::Div => f(x) / f(y),
        Op::OfInt(n) => n as f64,
    })
}

fn numbers() -> Arithmetic<Calc> {
    Arithmetic { eval: eval as Calc }
}

fn read(s: &String) -> Option<Double> {
    s.parse::<f64>().ok().map(d)
}

fn show(x: Double) -> String {
    format!("{}", f(x))
}

/// A grid of `w` columns of `h` nodes, numbered column by column.
fn rect_grid(w: usize, h: usize, pops: Vec<u32>) -> Graph {
    let mut edges = vec![];
    for node in 0..w * h {
        if node % h + 1 < h {
            edges.push(Edge(node, node + 1));
        }
        if node / h + 1 < w {
            edges.push(Edge(node, node + h));
        }
    }
    Graph::from_edges(pops, edges).unwrap()
}

/// A path of `n` nodes of population 1.
fn path(n: usize) -> Graph {
    let edges = (0..n - 1).map(|i| Edge(i, i + 1)).collect();
    Graph::from_edges(vec![1; n], edges).unwrap()
}

fn texts(values: &[&str]) -> Vec<String> {
    values.iter().map(|s| s.to_string()).collect()
}

fn make_test_graph_and_partition() -> (Graph, Partition) {
    let n = 16;
    let mut graph = rect_grid(4, 4, (0..n).map(|i| (i + 1) as u32 * 10).collect());

    let dem = (0..n).map(|i| ((i * 7) % 50 + 10).to_string()).collect();
    let rep = (0..n).map(|i| ((i * 11) % 55 + 5).to_string()).collect();
    let bvap = (0..n).map(|i| ((i * 5) % 20 + 1).to_string()).collect();
    let vap = (0..n).map(|i| ((i * 13) % 40 + 30).to_string()).collect();
    let area = (0..n).map(|i| format!("{}", (i + 1) as f64 * 1.5)).collect();
    let perim = (0..n).map(|i| format!("{}", (i + 3) as f64 * 2.25)).collect();
    graph.attr.insert("dem".to_string(), dem);
    graph.attr.insert("rep".to_string(), rep);
    graph.attr.insert("bvap".to_string(), bvap);
    graph.attr.insert("vap".to_string(), vap);
    graph.attr.insert("area".to_string(), area);
    graph.attr.insert("perim".to_string(), perim);

    let shared_perim = (0..graph.edges.len())
        .map(|i| d(0.5 + (i as f64) * 0.1))
        .collect();
    graph
        .edge_attr
        .insert("shared_perim".to_string(), shared_perim);

    let mut assignments = vec![0u32; n];
    for node in [0, 1, 4, 5] {
        assignments[node] = 1;
    }
    for node in [2, 3, 6, 7] {
        assignments[node] = 2;
    }
    for node in [8, 9, 12, 13] {
        assignments[node] = 3;
    }
    for node in [10, 11, 14, 15] {
        assignments[node] = 4;
    }
    let partition = Partition::from_assignments(&graph, &assignments).unwrap();
    (graph, partition)
}

fn boundary_swap_proposal(
    partition: &Partition,
    dist_take: usize,
    dist_give: usize,
    node_to_move: usize,
) -> RecomProposal {
    let mut a_nodes = partition.dist_nodes[dist_take].clone();
    a_nodes.retain(|&n| n != node_to_move);
    let mut b_nodes = partition.dist_nodes[dist_give].clone();
    b_nodes.push(node_to_move);
    RecomProposal {
        a_label: dist_take,
        b_label: dist_give,
        a_pop: 0,
        b_pop: 0,
        a_nodes,
        b_nodes,
    }
}

fn election_config(
    pairs: &[(&str, &str)],
    target_a: bool,
    aggregation: Aggregation,
) -> ObjectiveConfig<Calc> {
    ObjectiveConfig::ElectionWins(ElectionWins {
        elections: pairs
            .iter()
            .map(|(a, b)| (a.to_string(), b.to_string()))
            .collect(),
        target_a,
        aggregation,
        arithmetic: numbers(),
    })
}

fn gingles_config(threshold: f64) -> ObjectiveConfig<Calc> {
    ObjectiveConfig::GinglesPartial(GinglesPartial {
        threshold: d(threshold),
        min_pop_col: "bvap".to_string(),
        total_pop_col: "vap".to_string(),
        arithmetic: numbers(),
    })
}

fn banded_config(lower: f64, upper: f64) -> ObjectiveConfig<Calc> {
    ObjectiveConfig::BandedGinglesPartial(BandedGinglesPartial {
        lower: d(lower),
        upper: d(upper),
        min_pop_col: "bvap".to_string(),
        total_pop_col: "vap".to_string(),
        arithmetic: numbers(),
    })
}

fn by_district_config(targets: &[f64], total: AbsDevTotal) -> ObjectiveConfig<Calc> {
    ObjectiveConfig::ByDistrictAbsDeviation(ByDistrictAbsDeviation {
        target_values: targets.iter().map(|&t| d(t)).collect(),
        pov_counts_col: "bvap".to_string(),
        total,
        arithmetic: numbers(),
    })
}

fn by_vap() -> AbsDevTotal {
    AbsDevTotal::Column("vap".to_string())
}

fn polsby_popper_config(aggregation: Aggregation) -> ObjectiveConfig<Calc> {
    ObjectiveConfig::PolsbyPopper(PolsbyPopper {
        area_col: "area".to_string(),
        perim_col: "perim".to_string(),
        shared_perim_col: "shared_perim".to_string(),
        boundary_perim_col: None,
        aggregation,
        arithmetic: numbers(),
    })
}

fn assert_close(lhs: f64, rhs: f64, label: &str) {
    let tol = 1e-9 * (1.0 + lhs.abs() + rhs.abs());
    assert!(
        (lhs - rhs).abs() <= tol,
        "{}: {} vs {} (diff {})",
        label,
        lhs,
        rhs,
        (lhs - rhs).abs()
    );
}

fn run_equivalence_suite(obj: ObjectiveConfig<Calc>) {
    let (mut graph, partition) = make_test_graph_and_partition();
    obj.cache_graph_cols(&mut graph, &read).unwrap();

    let state = obj.init(&graph, &partition);
    let cached_initial = f(obj.score_state(&state));
    let full_initial = f(obj.score(&graph, &partition));
    assert_close(cached_initial, full_initial, "init_score");

    let swaps: &[(usize, usize, usize)] = &[
        (1, 0, 2),
        (0, 1, 1),
        (2, 0, 8),
        (0, 2, 4),
        (3, 1, 10),
        (3, 2, 11),
    ];

    for &(take, give, node) in swaps {
        let proposal = boundary_swap_proposal(&partition, take, give, node);

        let mut applied = partition.clone();
        applied.update(&proposal);
        let full_after = f(obj.score(&graph, &applied));

        let score_proposal = f(obj.score_proposal(&graph, &state, &proposal));
        assert_close(score_proposal, full_after, "score_proposal");

        let mut mut_state = obj.init(&graph, &partition);
        obj.apply_proposal(&graph, &mut mut_state, &proposal);
        assert_close(f(obj.score_state(&mut_state)), full_after, "apply_then_score");

        let fresh_state = obj.init(&graph, &applied);
        assert_close(
            f(obj.score_state(&fresh_state)),
            f(obj.score_state(&mut_state)),
            "apply_matches_fresh",
        );
    }

    let chain: &[(usize, usize, usize)] = &[(1, 0, 2), (0, 1, 5), (2, 0, 8)];
    let mut chain_part = partition.clone();
    let mut chain_state = state;
    for &(take, give, node) in chain {
        let proposal = boundary_swap_proposal(&chain_part, take, give, node);
        obj.apply_proposal(&graph, &mut chain_state, &proposal);
        chain_part.update(&proposal);
    }
    let chain_full = f(obj.score(&graph, &chain_part));
    assert_close(f(obj.score_state(&chain_state)), chain_full, "chain_score");
}

#[test]
fn by_district_abs_deviation_general_incremental_matches_full_score() {
    run_equivalence_suite(by_district_config(&[0.1, 0.25, 0.5], by_vap()));
}

#[test]
fn by_district_abs_deviation_full_bijection_incremental_matches_full_score() {
    run_equivalence_suite(by_district_config(&[0.05, 0.10, 0.20, 0.30], by_vap()));
}

#[test]
fn by_district_abs_deviation_uniform_incremental_matches_full_score() {
    run_equivalence_suite(by_district_config(&[0.2, 0.2], by_vap()));
}

#[test]
fn by_district_abs_deviation_constant_total_incremental_matches_full_score() {
    run_equivalence_suite(by_district_config(
        &[0.05, 0.15, 0.25],
        AbsDevTotal::Constant(d(100.0)),
    ));
}

/// The score of a path with one node per district, where a district's share is
/// its `bvap` over 100.
fn by_district_full_score(bvap: &[u32], targets: &[f64]) -> f64 {
    let n = bvap.len();
    let mut graph = path(n);
    graph.attr.insert(
        "bvap".to_string(),
        bvap.iter().map(|v| v.to_string()).collect(),
    );
    graph
        .attr
        .insert("vap".to_string(), (0..n).map(|_| "100".to_string()).collect());
    let assignments: Vec<u32> = (1..=n as u32).collect();
    let partition = Partition::from_assignments(&graph, &assignments).unwrap();

    let mut sorted = targets.to_vec();
    sorted.sort_by(|a, b| a.partial_cmp(b).unwrap());
    f(by_district_config(&sorted, by_vap()).score(&graph, &partition))
}

#[test]
fn by_district_abs_deviation_worked_examples() {
    assert_close(
        by_district_full_score(&[30, 50, 60], &[0.1, 0.4, 0.6]),
        0.3,
        "full bijection",
    );
    assert_close(
        by_district_full_score(&[10, 50, 90], &[0.45, 0.85]),
        0.10,
        "subset assignment",
    );
    assert_close(
        by_district_full_score(&[10, 50, 90], &[0.45, 0.45]),
        0.05 + 0.35,
        "uniform (k nearest)",
    );
}

#[test]
fn by_district_abs_deviation_shorthand_matches_explicit() {
    let shorthand = make_objective(
        r#"{"objective":"abs_deviation","target":0.3,"n_target_districts":3,
            "pov_counts_col":"bvap","total_counts_col":"vap"}"#,
        numbers(),
    )
    .unwrap();
    match &shorthand {
        ObjectiveConfig::ByDistrictAbsDeviation(o) => {
            let values: Vec<f64> = o.target_values.iter().map(|&t| f(t)).collect();
            assert_eq!(values, vec![0.3, 0.3, 0.3]);
        }
        _ => panic!("expected ByDistrictAbsDeviation"),
    }

    let (graph, partition) = make_test_graph_and_partition();
    let explicit = make_objective(
        r#"{"objective":"by_district_abs_deviation","target_values":[0.3,0.3,0.3],
            "pov_counts_col":"bvap","total_counts_col":"vap"}"#,
        numbers(),
    )
    .unwrap();
    assert_close(
        f(shorthand.score(&graph, &partition)),
        f(explicit.score(&graph, &partition)),
        "shorthand vs explicit",
    );
}

#[test]
fn by_district_abs_deviation_total_count_parses_and_scores() {
    let obj = make_objective(
        r#"{"objective":"by_district_abs_deviation","target_values":[0.05,0.15,0.25],
            "pov_counts_col":"bvap","total_count":100}"#,
        numbers(),
    )
    .unwrap();
    match &obj {
        ObjectiveConfig::ByDistrictAbsDeviation(o) => {
            assert!(
                matches!(&o.total, AbsDevTotal::Constant(t) if (f(*t) - 100.0).abs() < 1e-12)
            );
        }
        _ => panic!("expected ByDistrictAbsDeviation"),
    }

    let cols = required_node_cols(
        r#"{"objective":"by_district_abs_deviation","target_values":[0.05,0.15,0.25],
            "pov_counts_col":"bvap","total_count":100}"#,
    )
    .unwrap();
    assert_eq!(cols, vec!["bvap".to_string()]);

    let mut graph = path(3);
    graph
        .attr
        .insert("bvap".to_string(), texts(&["10", "30", "50"]));
    let partition = Partition::from_assignments(&graph, &vec![1u32, 2, 3]).unwrap();
    assert_close(
        f(obj.score(&graph, &partition)),
        0.45,
        "constant total worked example",
    );

    obj.cache_graph_cols(&mut graph, &read).unwrap();
    assert_close(
        f(obj.score_partition(&graph, &partition)),
        0.45,
        "constant total worked example (incremental)",
    );
}

#[test]
fn election_wins_incremental_matches_full_score() {
    run_equivalence_suite(election_config(&[("dem", "rep")], true, Aggregation::Mean));
}

#[test]
fn gingles_partial_incremental_matches_full_score() {
    run_equivalence_suite(gingles_config(0.5));
}

#[test]
fn banded_gingles_partial_incremental_matches_full_score() {
    run_equivalence_suite(banded_config(0.10, 0.24));
}

#[test]
fn gingles_partial_zero_total_pop_district_stays_finite() {
    let mut graph = path(3);
    graph
        .attr
        .insert("bvap".to_string(), texts(&["0", "30", "60"]));
    graph
        .attr
        .insert("vap".to_string(), texts(&["0", "100", "100"]));
    let partition = Partition::from_assignments(&graph, &vec![1u32, 2, 3]).unwrap();
    let obj = gingles_config(0.5);

    let full = f(obj.score(&graph, &partition));
    assert_close(full, 1.6, "gingles zero-total-pop full");

    obj.cache_graph_cols(&mut graph, &read).unwrap();
    let cached = f(obj.score_partition(&graph, &partition));
    assert_close(cached, full, "gingles zero-total-pop incremental");
}

#[test]
fn banded_gingles_partial_zero_total_pop_district_stays_finite() {
    let mut graph = path(3);
    graph
        .attr
        .insert("bvap".to_string(), texts(&["0", "30", "60"]));
    graph
        .attr
        .insert("vap".to_string(), texts(&["0", "100", "100"]));
    let partition = Partition::from_assignments(&graph, &vec![1u32, 2, 3]).unwrap();
    let obj = banded_config(0.4, 0.7);

    let expected = 1.0 + 0.3 / 0.4;
    let full = f(obj.score(&graph, &partition));
    assert_close(full, expected, "banded zero-total-pop full");

    obj.cache_graph_cols(&mut graph, &read).unwrap();
    let cached = f(obj.score_partition(&graph, &partition));
    assert_close(cached, full, "banded zero-total-pop incremental");
}

#[test]
fn banded_gingles_partial_matches_worked_example() {
    let mut graph = path(6);
    graph.attr.insert(
        "bvap".to_string(),
        texts(&["43", "51", "58", "63", "70", "73"]),
    );
    graph
        .attr
        .insert("vap".to_string(), (0..6).map(|_| "100".to_string()).collect());
    let partition = Partition::from_assignments(&graph, &vec![1, 2, 3, 4, 5, 6]).unwrap();
    let obj = banded_config(0.55, 0.65);

    let expected = 2.0 + 0.51 / 0.55 + 0.65 / 0.70 + 0.65 / 0.73;
    let full = f(obj.score(&graph, &partition));
    assert_close(full, expected, "banded worked example (full)");

    obj.cache_graph_cols(&mut graph, &read).unwrap();
    let cached = f(obj.score_partition(&graph, &partition));
    assert_close(cached, expected, "banded worked example (incremental)");
}

#[test]
fn polsby_popper_incremental_matches_full_score() {
    run_equivalence_suite(polsby_popper_config(Aggregation::Mean));
}

#[test]
fn election_wins_min_aggregation() {
    run_equivalence_suite(election_config(&[("dem", "rep")], false, Aggregation::Min));
}

#[test]
fn polsby_popper_min_aggregation() {
    run_equivalence_suite(polsby_popper_config(Aggregation::Min));
}

#[test]
fn ensure_derived_perim_column_matches_hand_computation() {
    let mut graph = rect_grid(2, 2, vec![1; 4]);
    let boundary: Vec<String> = (0..graph.pops.len()).map(|_| "1".to_string()).collect();
    graph.attr.insert("boundary_perim".to_string(), boundary);
    let shared: Vec<Double> = vec![d(2.0), d(3.0), d(4.0), d(5.0)];
    graph.edge_attr.insert("shared_perim".to_string(), shared);

    ensure_derived_perim_column(
        &mut graph,
        "perim",
        "boundary_perim",
        "shared_perim",
        &numbers(),
        &read,
        &show,
    )
    .unwrap();

    let perim: Vec<f64> = graph
        .attr
        .get("perim")
        .unwrap()
        .iter()
        .map(|s| s.parse::<f64>().unwrap())
        .collect();
    assert_close(perim[0], 6.0, "perim[0]");
    assert_close(perim[1], 7.0, "perim[1]");
    assert_close(perim[2], 9.0, "perim[2]");
    assert_close(perim[3], 10.0, "perim[3]");
}

#[test]
fn polsby_popper_district_scores_match_state() {
    let (mut graph, partition) = make_test_graph_and_partition();
    let obj = polsby_popper_config(Aggregation::Mean);
    obj.cache_graph_cols(&mut graph, &read).unwrap();
    let state = obj.init(&graph, &partition);
    let scores = obj.district_scores(&state);

    if let ObjectiveState::PolsbyPopper(s) = &state {
        assert_eq!(scores.len(), s.district_scores.len());
        for (i, &got) in scores.iter().enumerate() {
            assert_close(f(got), f(s.district_scores[i]), "district_scores[i]");
            assert_close(
                f(got),
                f(polsby_popper_score(&numbers(), s.areas[i], s.perimeters[i])),
                "score of area and perimeter",
            );
        }
        let mean = scores.iter().map(|&x| f(x)).sum::<f64>() / scores.len() as f64;
        assert_close(mean, f(s.score), "mean == aggregate");
    } else {
        panic!("wrong state variant");
    }
}

#[test]
fn election_wins_multi_election() {
    run_equivalence_suite(election_config(
        &[("dem", "rep"), ("bvap", "vap")],
        true,
        Aggregation::Mean,
    ));
}

/// Sums of bit patterns, which are exact, in place of sums of numbers.
fn eval_exactly(op: Op, x: Double, y: Double) -> Double {
    match op {
        Op::Add => Double { bits: x.bits.wrapping_add(y.bits) },
        Op::Sub => Double { bits: x.bits.wrapping_sub(y.bits) },
        Op::Mul if f(x) == 2.0 => Double { bits: y.bits.wrapping_mul(2) },
        _ => eval(op, x, y),
    }
}

#[test]
fn exact_sums_keep_states_as_built_from_scratch() {
    let exact = || Arithmetic { eval: eval_exactly as Calc };
    let banded = ObjectiveConfig::BandedGinglesPartial(BandedGinglesPartial {
        lower: d(0.1),
        upper: d(0.15),
        min_pop_col: "bvap".to_string(),
        total_pop_col: "vap".to_string(),
        arithmetic: exact(),
    });
    let polsby = ObjectiveConfig::PolsbyPopper(PolsbyPopper {
        area_col: "area".to_string(),
        perim_col: "perim".to_string(),
        shared_perim_col: "shared_perim".to_string(),
        boundary_perim_col: None,
        aggregation: Aggregation::Sum,
        arithmetic: exact(),
    });
    for obj in [banded, polsby] {
        let (mut graph, mut partition) = make_test_graph_and_partition();
        obj.cache_graph_cols(&mut graph, &read).unwrap();
        let mut state = obj.init(&graph, &partition);
        for (take, give, node) in [(1, 0, 2), (0, 1, 5), (2, 0, 8)] {
            let proposal = boundary_swap_proposal(&partition, take, give, node);
            let proposed = obj.score_proposal(&graph, &state, &proposal);
            obj.apply_proposal(&graph, &mut state, &proposal);
            partition.update(&proposal);
            let scratch = obj.score(&graph, &partition);
            assert_eq!(proposed.bits, scratch.bits);
            assert_eq!(obj.score_state(&state).bits, scratch.bits);
        }
    }
}

#[test]
fn updates_are_exact_on_powers_of_two() {
    let mut graph = path(6);
    graph.attr.insert("bvap".to_string(), texts(&["4", "4", "2", "2", "4", "0"]));
    graph.attr.insert("vap".to_string(), texts(&["4", "4", "4", "4", "4", "4"]));
    let mut partition = Partition::from_assignments(&graph, &vec![1, 1, 2, 2, 3, 3]).unwrap();
    let obj = banded_config(0.125, 0.25);
    obj.cache_graph_cols(&mut graph, &read).unwrap();
    let mut state = obj.init(&graph, &partition);
    assert_eq!(f(obj.score_state(&state)), 0.25 + 0.5 + 0.5);
    for (take, give, node) in [(1, 2, 3), (2, 1, 3)] {
        let proposal = boundary_swap_proposal(&partition, take, give, node);
        obj.apply_proposal(&graph, &mut state, &proposal);
        partition.update(&proposal);
    }
    let scratch = obj.score(&graph, &partition);
    assert_eq!(obj.score_state(&state).bits, scratch.bits);
}

#[test]
fn the_total_distance_is_the_least_over_all_assignments() {
    let shares = [0.75, 0.25, 0.5];
    for targets in [vec![0.25, 0.5], vec![0.5, 0.5], vec![0.125, 0.5, 0.625]] {
        let total = f(by_district_abs_dev_score(
            &numbers(),
            &shares.iter().map(|&x| d(x)).collect(),
            &targets.iter().map(|&x| d(x)).collect(),
        ));
        let mut least = f64::INFINITY;
        for a in 0..3 {
            for b in 0..3 {
                for c in 0..3 {
                    let places = [a, b, c];
                    let used = &places[..targets.len()];
                    if (1..used.len()).any(|i| used[..i].contains(&used[i])) {
                        continue;
                    }
                    let cost: f64 = used
                        .iter()
                        .zip(&targets)
                        .map(|(&place, t)| (shares[place] - t).abs())
                        .sum();
                    least = least.min(cost);
                }
            }
        }
        assert_eq!(total, least);
    }
}

#[test]
fn a_tie_counts_less_than_a_win() {
    let mut graph = path(3);
    graph.attr.insert("a".to_string(), texts(&["10", "4", "0"]));
    graph.attr.insert("b".to_string(), texts(&["0", "4", "3"]));
    let partition = Partition::from_assignments(&graph, &vec![1, 2, 3]).unwrap();
    let obj = election_config(&[("a", "b")], true, Aggregation::Sum);
    obj.cache_graph_cols(&mut graph, &read).unwrap();
    let score = f(obj.score(&graph, &partition));
    assert!(1.0 < score && score < 2.0);
    assert_eq!(score, f64::from_bits(2.0f64.to_bits() - 1));
    let state = obj.init(&graph, &partition);
    assert_eq!(f(obj.score_state(&state)), score);
    assert_eq!(f(obj.score_partition(&graph, &partition)), score);

    // Without a win the tie stands alone.
    let other = election_config(&[("b", "a")], true, Aggregation::Sum);
    let lost = Partition::from_assignments(&graph, &vec![1, 2, 1]).unwrap();
    assert_eq!(f(other.score(&graph, &lost)), f64::from_bits(1.0f64.to_bits() - 1));
}

#[test]
fn a_built_state_has_the_score_of_its_plan() {
    let (mut graph, partition) = make_test_graph_and_partition();
    for obj in [
        banded_config(0.2, 0.3),
        gingles_config(0.5),
        polsby_popper_config(Aggregation::Mean),
        election_config(&[("dem", "rep")], true, Aggregation::Mean),
        by_district_config(&[0.5], by_vap()),
    ] {
        obj.cache_graph_cols(&mut graph, &read).unwrap();
        let state = obj.init(&graph, &partition);
        let score = f(obj.score(&graph, &partition));
        assert_eq!(f(obj.score_state(&state)), score);
        assert_eq!(f(obj.score_partition(&graph, &partition)), score);
    }
}

#[test]
fn aggregations_are_read_by_name() {
    assert_eq!(Aggregation::from_str("mean").unwrap(), Aggregation::Mean);
    assert_eq!(Aggregation::from_str("min").unwrap(), Aggregation::Min);
    assert_eq!(Aggregation::from_str("sum").unwrap(), Aggregation::Sum);
    assert!(Aggregation::from_str("max").is_err());
}

#[test]
fn aggregations_of_three_numbers() {
    let values = vec![d(4.0), d(1.5), d(3.5)];
    assert_eq!(f(Aggregation::Mean.apply(&numbers(), &values)), 3.0);
    assert_eq!(f(Aggregation::Min.apply(&numbers(), &values)), 1.5);
    assert_eq!(f(Aggregation::Sum.apply(&numbers(), &values)), 9.0);
}

#[test]
fn a_square_scores_a_quarter_of_pi() {
    let score = f(polsby_popper_score(&numbers(), d(1.0), d(4.0)));
    assert_close(score, std::f64::consts::PI / 4.0, "unit square");
    assert_eq!(f(polsby_popper_score(&numbers(), d(1.0), d(0.0))), 0.0);
}

#[test]
fn unknown_objectives_are_refused() {
    let message = make_objective(r#"{"objective":"luck"}"#, numbers())
        .err()
        .unwrap();
    assert!(message.contains("luck"), "{message}");
    assert!(make_objective("not json", numbers()).is_err());
    assert!(make_objective(
        r#"{"objective":"gingles_partial","min_pop":"bvap","total_pop":"vap","threshold":1.5}"#,
        numbers()
    )
    .is_err());
}

#[test]
fn target_lists_longer_than_the_plan_are_refused() {
    if let ObjectiveConfig::ByDistrictAbsDeviation(o) =
        by_district_config(&[0.1, 0.2, 0.3], by_vap())
    {
        assert!(o.check_target_len(3).is_ok());
        assert!(o.check_target_len(2).is_err());
    } else {
        panic!("expected ByDistrictAbsDeviation");
    }
}

#[test]
fn columns_that_do_not_read_as_integers_are_refused() {
    let mut graph = path(2);
    graph.attr.insert("bvap".to_string(), texts(&["1", "x"]));
    graph.attr.insert("vap".to_string(), texts(&["1", "2"]));
    assert!(gingles_config(0.5).cache_graph_cols(&mut graph, &read).is_err());
    graph.attr.remove("bvap");
    assert!(gingles_config(0.5).cache_graph_cols(&mut graph, &read).is_err());
}

#[test]
fn perimeters_need_both_columns() {
    let mut graph = rect_grid(2, 2, vec![1; 4]);
    assert!(ensure_derived_perim_column(
        &mut graph,
        "perim",
        "boundary_perim",
        "shared_perim",
        &numbers(),
        &read,
        &show
    )
    .is_err());
}

#[test]
fn configurations_name_their_columns() {
    let full = r#"{"objective": "polsby_popper", "area_col": "area", "perim_col": "perim",
        "shared_perim_col": "shared", "boundary_perim_col": "boundary",
        "aggregation": "mean"}"#;
    let plain = r#"{"objective": "polsby_popper", "area_col": "area", "perim_col": "perim",
        "shared_perim_col": "shared", "aggregation": "mean"}"#;
    let gingles =
        r#"{"objective": "gingles_partial", "threshold": 0.5, "min_pop": "m", "total_pop": "t"}"#;
    assert_eq!(partial_node_cols(full), vec!["boundary"]);
    assert!(partial_node_cols(plain).is_empty());
    assert!(partial_node_cols(gingles).is_empty());
    assert!(partial_node_cols("no document").is_empty());
    assert_eq!(required_edge_cols(full).unwrap(), vec!["shared"]);
    assert!(required_edge_cols(gingles).unwrap().is_empty());
    assert!(required_edge_cols("no document").is_err());
    assert_eq!(required_node_cols(gingles).unwrap(), vec!["m", "t"]);
    assert_eq!(
        polsby_popper_autoderive(full),
        Some((
            "perim".to_string(),
            "boundary".to_string(),
            "shared".to_string()
        ))
    );
    assert_eq!(polsby_popper_autoderive(plain), None);
    assert_eq!(polsby_popper_autoderive("no document"), None);
}
