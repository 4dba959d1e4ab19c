use rand::rngs::SmallRng;
use rand::{Rng, SeedableRng};
use rustrecom::constraints::NoConstraint;
use rustrecom::double::{Arithmetic, Double, Op};
use rustrecom::graph::{Edge, Graph};
use rustrecom::numerals::{self, Reading};
use rustrecom::objectives::matching::{by_district_abs_dev_score, sort_doubles};
use rustrecom::partition::Partition;
use rustrecom::random::{worker_seed, Pick};
use rustrecom::recom::chain::{multi_chain, run_chain};
use rustrecom::recom::draw::{draw_proposal, make_sampler, Draw, Sampler};
use rustrecom::recom::merge::merged_subgraph;
use rustrecom::recom::pairs::{are_adjacent, cut_edges, pair_of_edge, pair_of_labels};
use rustrecom::recom::proposal::{RecomParams, RecomProposal, RecomVariant};
use rustrecom::recom::run::{gather, ChainRun};
use rustrecom::recom::split::root_tree;
use rustrecom::recom::tilted::{accepts_with, LinearAcceptance, TiltedRun, Trial};
use rustrecom::recom::worker::{acceptance, decide, passes, Event, ResultPacket};
use rustrecom::samplers::SpanningTreeSampler;
use rustrecom::sorting::stable_order;
use rustrecom::spanning_tree::SpanningTreeBuffer;
use rustrecom::stats::canonical::canonicalize;
use rustrecom::stats::counts::{SelfLoopCounts, SelfLoopReason};
use rustrecom::stats::writers::AssignmentsOnlyWriter;
use rustrecom::text::{is_before, push_number, push_signed, read_integer};

type Calc = fn(Op, Double, Double) -> Double;

fn d(x: f64) -> Double {
    Double { bits: x.to_bits() }
}

fn f(x: Double) -> f64 {
    f64::from_bits(x.bits)
}

fn eval(op: Op, x: Double, y: Double) -> Double {
    d(match op {
        Op::Add => f(x) + f(y),
        Op::Sub => f(x) - f(y),
        Op::Mul => f(x) * f(y),
        Op::Div => f(x) / f(y),
        Op::OfInt(n) => n as f64,
    })
}

fn numbers() -> Arithmetic<Calc> {
    Arithmetic { eval: eval as Calc }
}

/// A grid of `w` columns of `h` nodes of population 1.
fn grid(w: usize, h: usize) -> Graph {
    let mut edges = vec![];
    for node in 0..w * h {
        if node % h + 1 < h {
            edges.push(Edge(node, node + 1));
        }
        if node / h + 1 < w {
            edges.push(Edge(node, node + h));
        }
    }
    Graph::from_edges(vec![1; w * h], edges).unwrap()
}

fn columns_of(graph: &Graph, w: usize, h: usize) -> Partition {
    let labels = (0..w * h).map(|node| (node / h) as u32).collect();
    Partition::from_assignments(graph, &labels).unwrap()
}

fn params(num_steps: u64, variant: RecomVariant) -> RecomParams {
    RecomParams {
        min_pop: 4,
        max_pop: 6,
        num_steps,
        rng_seed: 99,
        balance_ub: 30,
        variant,
        region_weights: vec![],
        edge_weight_keys: vec![],
    }
}

fn is_connected(graph: &Graph, nodes: &[usize]) -> bool {
    let mut seen = vec![nodes[0]];
    let mut next = 0;
    while next < seen.len() {
        for &w in &graph.neighbors[seen[next]] {
            if nodes.contains(&w) && !seen.contains(&w) {
                seen.push(w);
            }
        }
        next += 1;
    }
    seen.len() == nodes.len()
}

#[test]
fn graphs_know_their_edges() {
    let graph = grid(2, 3);
    let e = graph.find_edge(0, 3).unwrap();
    assert_eq!((graph.edges[e].0, graph.edges[e].1), (0, 3));
    assert!(graph.find_edge(0, 5).is_none());
    assert_eq!(graph.total_pop, 6);
    assert!(Graph::from_edges(vec![1; 2], vec![Edge(0, 2)]).is_none());
    assert!(Graph::from_edges(vec![1; 2], vec![Edge(1, 1)]).is_none());
    assert!(Graph::from_edges(vec![u32::MAX, 1], vec![]).is_none());
}

#[test]
fn graphs_are_read_from_neighbor_lists() {
    let lists = vec![vec![2, 1], vec![0], vec![0, 1]];
    let graph = Graph::from_adjacency(vec![1, 2, 3], lists.clone()).unwrap();
    assert_eq!(graph.neighbors, lists);
    let edges: Vec<(usize, usize)> = graph.edges.iter().map(|e| (e.0, e.1)).collect();
    assert_eq!(edges, vec![(0, 1), (0, 2)]);
    assert_eq!(graph.edges_start, vec![0, 2, 2]);
    assert_eq!(graph.total_pop, 6);
    assert!(Graph::from_adjacency(vec![1], vec![vec![1]]).is_none());
    assert!(Graph::from_adjacency(vec![1], vec![]).is_none());
}

#[test]
fn labels_may_start_anywhere() {
    let graph = grid(2, 2);
    let from_zero = Partition::from_assignments(&graph, &vec![0, 0, 1, 1]).unwrap();
    let from_one = Partition::from_assignments(&graph, &vec![1, 1, 2, 2]).unwrap();
    assert_eq!(from_zero.assignments, from_one.assignments);
    assert_eq!(from_zero.num_dists, 2);
    assert_eq!(from_zero.dist_pops, vec![2, 2]);
    assert_eq!(from_zero.dist_nodes, vec![vec![0, 1], vec![2, 3]]);
}

#[test]
fn labels_that_make_no_plan_are_refused() {
    let graph = grid(2, 2);
    for labels in [vec![0, 0, 1], vec![0, 0, 2, 2], vec![0, 0, 0, 0, 0]] {
        assert!(Partition::from_assignments(&graph, &labels).is_err());
    }
    let empty = Graph::from_edges(vec![], vec![]).unwrap();
    assert!(Partition::from_assignments(&empty, &vec![]).is_err());
}

#[test]
fn updates_redraw_two_districts() {
    let graph = grid(3, 2);
    let mut partition = columns_of(&graph, 3, 2);
    let proposal = RecomProposal {
        a_label: 0,
        b_label: 1,
        a_pop: 3,
        b_pop: 1,
        a_nodes: vec![0, 1, 2],
        b_nodes: vec![3],
    };
    partition.update(&proposal);
    assert_eq!(partition.assignments, vec![0, 0, 0, 1, 2, 2]);
    assert_eq!(partition.dist_pops, vec![3, 1, 2]);
    assert_eq!(partition.dist_nodes[2], vec![4, 5]);
}

fn pick(value: usize, bound: usize) -> Pick {
    Pick { value, bound }
}

#[test]
fn district_pairs_share_an_edge() {
    let graph = grid(3, 2);
    let partition = columns_of(&graph, 3, 2);
    assert!(are_adjacent(&graph, &partition, 0, 1));
    assert!(!are_adjacent(&graph, &partition, 0, 2));
    assert_eq!(pair_of_labels(&graph, &partition, pick(0, 3), pick(1, 3)), Some((0, 1)));
    assert_eq!(pair_of_labels(&graph, &partition, pick(0, 3), pick(2, 3)), None);
    assert_eq!(pair_of_labels(&graph, &partition, pick(1, 3), pick(1, 3)), None);
    let cut = cut_edges(&graph, &partition);
    assert_eq!(cut.len(), 4);
    for e in cut {
        let (a, b) = pair_of_edge(&graph, &partition, e);
        assert_eq!(b, a + 1);
    }
}

#[test]
fn merged_districts_keep_their_edges() {
    let graph = grid(3, 2);
    let partition = columns_of(&graph, 3, 2);
    let sub = merged_subgraph(&graph, &partition, 1, 2);
    assert_eq!(sub.raw_nodes, vec![2, 3, 4, 5]);
    let mut edges: Vec<(usize, usize)> = sub.graph.edges.iter().map(|e| (e.0, e.1)).collect();
    edges.sort();
    assert_eq!(edges, vec![(0, 1), (0, 2), (1, 3), (2, 3)]);
}

#[test]
fn trees_are_rooted_or_refused() {
    let rooted = root_tree(&vec![vec![1], vec![0, 2], vec![1]], 3).unwrap();
    assert_eq!(rooted.order.len(), 3);
    assert!(root_tree(&vec![vec![1], vec![0], vec![]], 3).is_none());
}

#[test]
fn every_variant_draws_balanced_connected_districts() {
    let graph = grid(4, 5);
    let partition = columns_of(&graph, 4, 5);
    for variant in [
        RecomVariant::Reversible,
        RecomVariant::CutEdgesUST,
        RecomVariant::DistrictPairsUST,
        RecomVariant::CutEdgesRMST,
        RecomVariant::DistrictPairsRMST,
        RecomVariant::CutEdgesRegionAware,
        RecomVariant::DistrictPairsRegionAware,
    ] {
        let params = params(10, variant);
        let mut sampler = make_sampler(&params, 20, numbers());
        let mut buf = SpanningTreeBuffer::new(20);
        let mut rng = SmallRng::seed_from_u64(5);
        let mut drawn = 0;
        for _ in 0..200 {
            match draw_proposal(&graph, &partition, &params, &mut sampler, &mut buf, &mut rng) {
                Draw::Proposal(n_splits, p) => {
                    drawn += 1;
                    assert!(n_splits > 0);
                    for (pop, nodes) in [(p.a_pop, &p.a_nodes), (p.b_pop, &p.b_nodes)] {
                        assert!((4..=6).contains(&pop));
                        assert_eq!(nodes.len(), pop as usize);
                        assert!(is_connected(&graph, nodes));
                    }
                    let mut merged = [p.a_nodes.clone(), p.b_nodes.clone()].concat();
                    merged.sort();
                    let mut before = [
                        partition.dist_nodes[p.a_label].clone(),
                        partition.dist_nodes[p.b_label].clone(),
                    ]
                    .concat();
                    before.sort();
                    assert_eq!(merged, before);
                }
                Draw::NoPair | Draw::NoSplit => {}
                Draw::Failed(error, _, _) => panic!("{}", error.message()),
            }
        }
        assert!(drawn > 0, "{variant:?}");
    }
}

#[test]
fn edge_weights_go_into_random_weight_trees() {
    let mut params = params(10, RecomVariant::DistrictPairsRMST);
    assert!(matches!(
        make_sampler(&params, 3, numbers()),
        Sampler::RandomWeight(_)
    ));
    params.edge_weight_keys = vec!["barrier".to_string()];
    let mut sampler = make_sampler(&params, 3, numbers());
    assert!(matches!(sampler, Sampler::RegionAware(_)));

    let mut graph =
        Graph::from_edges(vec![1; 3], vec![Edge(0, 1), Edge(0, 2), Edge(1, 2)]).unwrap();
    graph
        .edge_attr
        .insert("barrier".to_string(), vec![d(0.0), d(1e6), d(0.0)]);
    let mut buf = SpanningTreeBuffer::new(3);
    let mut rng = SmallRng::seed_from_u64(7);
    for _ in 0..20 {
        sampler
            .random_spanning_tree_with_parent(&graph, &graph, &vec![0, 1, 2], &mut buf, &mut rng)
            .unwrap();
        assert!(!buf.st[0].contains(&2));
    }
}

#[test]
fn runs_have_the_asked_length() {
    let graph = grid(4, 5);
    let partition = columns_of(&graph, 4, 5);
    for (n_steps, n_threads, batch_size) in [(1, 1, 1), (2, 1, 1), (60, 1, 4), (60, 3, 2)] {
        for variant in [RecomVariant::CutEdgesUST, RecomVariant::Reversible] {
            let mut out = vec![];
            let _ = multi_chain(
                &graph,
                &partition,
                &mut AssignmentsOnlyWriter::new(true),
                &params(n_steps, variant),
                n_threads,
                batch_size,
                numbers(),
                &mut out,
            );
            assert_eq!(out.len() as u64, n_steps);
        }
    }
}

#[test]
fn districts_stay_connected_and_balanced() {
    let graph = grid(4, 5);
    let mut partition = columns_of(&graph, 4, 5);
    let log = run_chain(
        &graph,
        &partition,
        &params(200, RecomVariant::DistrictPairsRMST),
        2,
        1,
        &NoConstraint,
        numbers(),
    );
    assert!(log.result.is_ok());
    let mut position = 0;
    for packet in &log.packets {
        position += packet.counts.sum() as u64;
        if let Some(proposal) = &packet.proposal {
            position += 1;
            partition.update(proposal);
        }
        assert_eq!(packet.step, position);
        assert_eq!(partition.dist_pops.iter().sum::<u32>(), 20);
        for nodes in &partition.dist_nodes {
            assert!(is_connected(&graph, nodes));
            assert!((4..=6).contains(&nodes.len()));
        }
    }
    assert_eq!(position, 199);
}

#[test]
fn runs_repeat_with_the_same_seed() {
    let graph = grid(4, 5);
    let partition = columns_of(&graph, 4, 5);
    let params = params(50, RecomVariant::CutEdgesRMST);
    let mut outputs = vec![];
    for _ in 0..2 {
        let mut out = vec![];
        multi_chain(
            &graph,
            &partition,
            &mut AssignmentsOnlyWriter::new(false),
            &params,
            2,
            2,
            numbers(),
            &mut out,
        )
        .unwrap();
        outputs.push(out);
    }
    assert_eq!(outputs[0], outputs[1]);
}

#[test]
fn disconnected_pairs_are_self_loops_of_reversible_chains() {
    let graph = Graph::from_edges(vec![1; 4], vec![Edge(0, 2), Edge(1, 3)]).unwrap();
    let partition = Partition::from_assignments(&graph, &vec![0, 0, 1, 1]).unwrap();
    let mut params = params(10, RecomVariant::Reversible);
    params.min_pop = 1;
    params.max_pop = 3;
    let log = run_chain(&graph, &partition, &params, 1, 1, &NoConstraint, numbers());
    assert!(!log.failed);
    assert!(log.result.is_err());
    assert_eq!(log.packets.len(), 1);
    let counts = &log.packets[0].counts;
    assert_eq!(
        counts.get(SelfLoopReason::NoSplit) + counts.get(SelfLoopReason::NonAdjacent),
        9
    );
}

fn loops(reason: SelfLoopReason, n: usize) -> SelfLoopCounts {
    let mut counts = SelfLoopCounts::default();
    counts.inc_by(reason, n);
    counts
}

#[test]
fn rounds_gather_their_candidates_by_number() {
    let proposal = |label: usize| RecomProposal {
        a_label: label,
        b_label: label + 1,
        a_pop: 1,
        b_pop: 1,
        a_nodes: vec![],
        b_nodes: vec![],
    };
    let first = || ResultPacket {
        counts: loops(SelfLoopReason::NoSplit, 2),
        proposals: vec![(7, proposal(0)), (3, proposal(1))],
    };
    let second = || ResultPacket {
        counts: loops(SelfLoopReason::NoSplit, 1),
        proposals: vec![(5, proposal(2))],
    };
    for round in [gather(&vec![first(), second()]), gather(&vec![second(), first()])] {
        assert_eq!(round.counts.get(SelfLoopReason::NoSplit), 3);
        let order: Vec<(u64, usize)> = round
            .proposals
            .iter()
            .map(|(id, p)| (*id, p.a_label))
            .collect();
        assert_eq!(order, vec![(3, 1), (5, 2), (7, 0)]);
    }
}

#[test]
fn drawn_events_are_taken_by_index() {
    let proposal = |label: usize| RecomProposal {
        a_label: label,
        b_label: label + 1,
        a_pop: 1,
        b_pop: 1,
        a_nodes: vec![],
        b_nodes: vec![],
    };
    let proposals = vec![(3, proposal(1)), (5, proposal(2))];
    let mut left = loops(SelfLoopReason::SeamLength, 2);
    let mut run = ChainRun::new(9);
    assert!(run.take_event(&mut left, &proposals, pick(1, 4), pick(1, 4)).is_none());
    assert_eq!(left.get(SelfLoopReason::SeamLength), 1);
    let packet = run.take_event(&mut left, &proposals, pick(1, 3), pick(1, 2)).unwrap();
    assert_eq!(packet.step, 2);
    assert_eq!(packet.counts.get(SelfLoopReason::SeamLength), 1);
    assert_eq!(packet.proposal.unwrap().a_label, 2);
    assert_eq!(left.get(SelfLoopReason::SeamLength), 1);
}

#[test]
fn draws_are_decided_by_their_bits() {
    let graph = grid(2, 2);
    let drawn = || {
        Draw::Proposal(
            1,
            RecomProposal {
                a_label: 0,
                b_label: 1,
                a_pop: 2,
                b_pop: 2,
                a_nodes: vec![0, 1],
                b_nodes: vec![2, 3],
            },
        )
    };
    let mut reversible = params(10, RecomVariant::Reversible);
    reversible.balance_ub = 1;
    // One cut and a seam of two edges: accepted with probability one half.
    let low = decide(&numbers(), &graph, &reversible, drawn(), true, 0);
    assert!(low.is_ok());
    let high = decide(&numbers(), &graph, &reversible, drawn(), true, u64::MAX);
    assert!(matches!(high, Err(Event::Loop(SelfLoopReason::SeamLength))));
    let banned = decide(&numbers(), &graph, &reversible, drawn(), false, 0);
    assert!(matches!(banned, Err(Event::Loop(SelfLoopReason::ConstraintViolation))));
    for (draw, reason) in [
        (Draw::NoPair, SelfLoopReason::NonAdjacent),
        (Draw::NoSplit, SelfLoopReason::NoSplit),
    ] {
        match decide(&numbers(), &graph, &reversible, draw, true, 0) {
            Err(Event::Loop(found)) => assert_eq!(found, reason),
            _ => panic!("expected a self-loop"),
        }
    }
    let other = params(10, RecomVariant::CutEdgesRMST);
    assert!(decide(&numbers(), &graph, &other, drawn(), true, u64::MAX).is_ok());
    assert!(matches!(
        decide(&numbers(), &graph, &other, Draw::NoSplit, true, 0),
        Err(Event::Retry)
    ));
    reversible.balance_ub = 0;
    assert!(matches!(
        decide(&numbers(), &graph, &reversible, drawn(), true, 0),
        Err(Event::Failed(_))
    ));
}

#[test]
fn workers_have_seeds_of_their_own() {
    assert_eq!(worker_seed(7, 0), 8);
    assert_eq!(worker_seed(7, 3), 11);
}

#[test]
fn rounds_without_candidates_are_waits() {
    let mut run = ChainRun::new(6);
    let mut rng = SmallRng::seed_from_u64(0);
    let round = ResultPacket {
        counts: loops(SelfLoopReason::NonAdjacent, 9),
        proposals: vec![],
    };
    assert!(run.absorb(&round, &mut rng).is_none());
    assert!(run.done());
    assert_eq!(run.position_reached(), 5);
    let (trailing, result) = run.finish();
    let trailing = trailing.unwrap();
    assert_eq!(trailing.step, 5);
    assert_eq!(trailing.counts.get(SelfLoopReason::NonAdjacent), 5);
    assert!(result.unwrap_err().starts_with("No proposals were accepted"));
}

#[test]
fn self_loops_are_taken_out_by_index() {
    let mut counts = loops(SelfLoopReason::NoSplit, 2);
    counts.inc(SelfLoopReason::ConstraintViolation);
    assert_eq!(counts.index_and_dec(1), Some(SelfLoopReason::NoSplit));
    assert_eq!(
        counts.index_and_dec(1),
        Some(SelfLoopReason::ConstraintViolation)
    );
    assert_eq!(counts.index_and_dec(1), None);
    assert_eq!(counts.sum(), 1);
    assert_eq!(counts.plus(&counts).sum(), 2);
}

#[test]
fn reversible_chains_accept_by_the_seam() {
    assert_eq!(f(acceptance(&numbers(), 3, 4, 2).unwrap()), 0.375);
    assert!(acceptance(&numbers(), 9, 4, 2).is_none());
    assert!(passes(&numbers(), d(0.5), 0));
    assert!(!passes(&numbers(), d(0.5), u64::MAX));
}

#[test]
fn linear_acceptance_falls_with_the_loss() {
    let rule = LinearAcceptance { beta: d(2.0) };
    assert!(rule.accepts(&numbers(), d(1.0), d(0.75), true, 0));
    assert!(!rule.accepts(&numbers(), d(1.0), d(0.75), true, u64::MAX));
    assert!(!rule.accepts(&numbers(), d(1.0), d(0.5), true, 0));
    assert!(!rule.accepts(&numbers(), d(0.5), d(1.0), false, 0));
    let mut rng = SmallRng::seed_from_u64(3);
    let taken = (0..1000)
        .filter(|_| rule.accept_worse(&numbers(), d(1.0), d(0.75), true, &mut rng))
        .count();
    assert!((400..600).contains(&taken), "{taken}");
}

#[test]
fn fixed_acceptance_compares_with_a_share() {
    assert!(accepts_with(&numbers(), d(0.5), 0));
    assert!(!accepts_with(&numbers(), d(0.5), u64::MAX));
    assert!(accepts_with(&numbers(), d(1.0), u64::MAX));
    assert!(!accepts_with(&numbers(), d(0.0), 0));
}

fn trial(score: f64, chance: bool) -> Trial {
    Trial {
        score: d(score),
        chance,
    }
}

#[test]
fn tilted_walks_record_or_count_every_trial() {
    let mut run = TiltedRun::new(d(1.0), 7, true);
    let trials = [
        trial(0.5, false),
        trial(2.0, false),
        trial(1.5, true),
        trial(1.75, false),
        trial(0.0, false),
        trial(1.0, false),
    ];
    let mut shown = vec![];
    for t in trials {
        assert!(!run.done());
        let taken = run.consider(t);
        shown.push((
            taken.step,
            taken.accepted,
            taken.improved,
            taken.counts.get(SelfLoopReason::TiltedRejection),
            f(run.current_score()),
        ));
    }
    assert!(run.done());
    assert_eq!(
        shown,
        vec![
            (1, false, false, 0, 1.0),
            (2, true, true, 1, 2.0),
            (3, true, false, 0, 1.5),
            (4, true, false, 0, 1.75),
            (5, false, false, 0, 1.75),
            (6, false, false, 0, 1.75),
        ]
    );
    assert_eq!(run.finish().get(SelfLoopReason::TiltedRejection), 2);
    assert_eq!(run.finish().sum(), 2);
}

#[test]
fn write_improved_scores_only_records_strict_improvements() {
    let mut rng = SmallRng::seed_from_u64(17);
    let mut run = TiltedRun::new(d(0.5), 200, false);
    let mut rows = vec![(0, 0.5)];
    while !run.done() {
        let taken = run.consider(trial(rng.random::<f64>(), rng.random::<bool>()));
        if taken.improved {
            rows.push((taken.step, f(run.current_score())));
        }
    }
    assert!(rows.len() > 2);
    for pair in rows.windows(2) {
        assert!(pair[1].0 > pair[0].0, "improved-only score steps must increase");
        assert!(
            pair[1].1 < pair[0].1,
            "minimizing improved-only scores must strictly decrease"
        );
    }
}

#[test]
fn tilted_walks_minimize_too() {
    let mut run = TiltedRun::new(d(1.0), 3, false);
    assert!(run.improves(d(0.5)) && !run.improves(d(1.0)) && !run.improves(d(2.0)));
    assert!(run.consider(trial(0.5, false)).improved);
    assert!(!run.consider(trial(0.75, false)).accepted);
    assert!(run.done());
    assert!(TiltedRun::new(d(1.0), 0, true).done());
    assert!(TiltedRun::new(d(1.0), 1, true).done());
}

#[test]
fn canonical_labels_follow_their_appearance() {
    assert_eq!(canonicalize(&vec![2, 0, 2, 1], 3), vec![0, 1, 0, 2]);
    assert_eq!(
        canonicalize(&canonicalize(&vec![2, 0, 2, 1], 3), 3),
        canonicalize(&vec![2, 0, 2, 1], 3)
    );
}

#[test]
fn orders_are_stable() {
    assert_eq!(stable_order(&vec![5, 1, 5, 0]), vec![3, 1, 0, 2]);
    let sorted: Vec<f64> = sort_doubles(&vec![d(2.0), d(-1.0), d(0.5)])
        .into_iter()
        .map(f)
        .collect();
    assert_eq!(sorted, vec![-1.0, 0.5, 2.0]);
}

#[test]
fn targets_match_distinct_districts() {
    let shares = vec![d(0.5), d(0.5), d(0.0)];
    let score = f(by_district_abs_dev_score(
        &numbers(),
        &shares,
        &vec![d(0.25), d(0.5)],
    ));
    assert_eq!(score, 0.25);
}

#[test]
fn numbers_are_told_from_words() {
    for text in ["1", "-1.5", "+.5", "2.", "1e9", "-3E-2", "inf", "-Infinity"] {
        assert!(matches!(numerals::read(text), Reading::Number), "{text}");
    }
    for text in ["nan", "NaN", "-nan"] {
        assert!(matches!(numerals::read(text), Reading::NotANumber), "{text}");
    }
    for text in ["", ".", "1e", "e1", "1 ", "0x1", "infinit", "--1"] {
        assert!(matches!(numerals::read(text), Reading::Word), "{text}");
        assert!(text.parse::<f64>().is_err(), "{text}");
    }
}

#[test]
fn integers_are_written_and_read() {
    let mut out = String::new();
    push_number(&mut out, 0);
    push_signed(&mut out, -120);
    push_number(&mut out, u64::MAX);
    assert_eq!(out, "0-12018446744073709551615");
    assert_eq!(read_integer("-42"), Some(-42));
    assert_eq!(read_integer("+7"), Some(7));
    assert_eq!(read_integer("2147483648"), None);
    assert_eq!(read_integer("-2147483648"), Some(i32::MIN));
    assert_eq!(read_integer("1.0"), None);
    assert_eq!(read_integer(""), None);
    assert!(is_before("a", "ab") && is_before("Z", "a") && !is_before("b", "b"));
}
