use rand::rngs::SmallRng;
use rand::SeedableRng;
use rustrecom::double::{Arithmetic, Double, Op};
use rustrecom::graph::{Edge, Graph};
use rustrecom::region_sampler::{lightest_tree, RegionAwareSampler};
use rustrecom::samplers::{RMSTSampler, SpanningTreeSampler};
use rustrecom::spanning_tree::{greedy_spanning_tree, SpanningTreeBuffer, SpanningTreeError};
use rustrecom::uniform_sampler::{USTBuffer, USTSampler};

type Calc = fn(Op, Double, Double) -> Double;

fn d(x: f64) -> Double {
    Double { bits: x.to_bits() }
}

fn f(x: Double) -> f64 {
    f64::from_bits(x.bits)
}

fn eval(op: Op, x: Double, y: Double) -> Double {
    d(match op {
        Op::Add => f(x) + f(y),
        Op::Sub => f(x) - f(y),
        Op::Mul => f(x) * f(y),
        Op::Div => f(x) / f(y),
        Op::OfInt(n) => n as f64,
    })
}

fn numbers() -> Arithmetic<Calc> {
    Arithmetic { eval: eval as Calc }
}

fn triangle(barrier: [f64; 3]) -> Graph {
    let mut graph =
        Graph::from_edges(vec![1; 3], vec![Edge(0, 1), Edge(0, 2), Edge(1, 2)]).unwrap();
    graph.edge_attr.insert(
        "barrier".to_string(),
        barrier.iter().map(|&x| d(x)).collect(),
    );
    graph
}

fn tree_has_edge(buf: &SpanningTreeBuffer, u: usize, v: usize) -> bool {
    buf.st[u].contains(&v)
}

fn tree_edges(buf: &SpanningTreeBuffer) -> usize {
    buf.st.iter().map(|a| a.len()).sum::<usize>() / 2
}

#[test]
fn edge_weight_key_forces_high_weight_edge_out_of_tree() {
    let graph = triangle([0.0, 0.0, 1e6]);
    let mut sampler = RegionAwareSampler::new(
        graph.pops.len(),
        vec![],
        vec!["barrier".to_string()],
        numbers(),
    );
    let mut buf = SpanningTreeBuffer::new(graph.pops.len());
    for seed in 0..64u64 {
        let mut rng = SmallRng::seed_from_u64(seed);
        sampler
            .random_spanning_tree(&graph, &mut buf, &mut rng)
            .unwrap();
        assert!(
            !tree_has_edge(&buf, 1, 2),
            "edge (1,2) should be excluded (seed {})",
            seed
        );
        assert_eq!(tree_edges(&buf), 2, "expected a spanning tree of 2 edges");
    }
}

#[test]
fn without_edge_weight_key_every_edge_can_appear() {
    let graph = triangle([0.0, 0.0, 0.0]);
    let mut sampler = RegionAwareSampler::new(graph.pops.len(), vec![], vec![], numbers());
    let mut buf = SpanningTreeBuffer::new(graph.pops.len());
    let mut seen = false;
    for seed in 0..64u64 {
        let mut rng = SmallRng::seed_from_u64(seed);
        sampler
            .random_spanning_tree(&graph, &mut buf, &mut rng)
            .unwrap();
        if tree_has_edge(&buf, 1, 2) {
            seen = true;
            break;
        }
    }
    assert!(
        seen,
        "edge (1,2) should sometimes appear without an edge weight key"
    );
}

#[test]
fn edge_weight_key_maps_subgraph_edge_to_parent_index() {
    let mut parent = Graph::from_edges(
        vec![1; 4],
        vec![Edge(0, 1), Edge(1, 2), Edge(1, 3), Edge(2, 3)],
    )
    .unwrap();
    parent.edge_attr.insert(
        "barrier".to_string(),
        vec![d(0.0), d(0.0), d(0.0), d(1e6)],
    );
    let subgraph = triangle([0.0, 0.0, 0.0]);
    let raw_nodes = vec![1usize, 2, 3];
    let mut sampler =
        RegionAwareSampler::new(3, vec![], vec!["barrier".to_string()], numbers());
    let mut buf = SpanningTreeBuffer::new(3);
    for seed in 0..64u64 {
        let mut rng = SmallRng::seed_from_u64(seed);
        sampler
            .random_spanning_tree_with_parent(&subgraph, &parent, &raw_nodes, &mut buf, &mut rng)
            .unwrap();
        assert!(
            !tree_has_edge(&buf, 1, 2),
            "subgraph edge (1,2) -> parent (2,3) should be excluded (seed {})",
            seed
        );
    }
}

#[test]
fn region_surcharges_keep_regions_together() {
    let mut graph = Graph::from_edges(
        vec![1; 4],
        vec![Edge(0, 1), Edge(0, 2), Edge(1, 3), Edge(2, 3)],
    )
    .unwrap();
    graph.attr.insert(
        "county".to_string(),
        vec!["a".into(), "a".into(), "b".into(), "b".into()],
    );
    let mut sampler =
        RegionAwareSampler::new(4, vec![("county".to_string(), d(10.0))], vec![], numbers());
    let mut buf = SpanningTreeBuffer::new(4);
    for seed in 0..32u64 {
        let mut rng = SmallRng::seed_from_u64(seed);
        sampler
            .random_spanning_tree(&graph, &mut buf, &mut rng)
            .unwrap();
        assert!(tree_has_edge(&buf, 0, 1) && tree_has_edge(&buf, 2, 3));
        assert_ne!(tree_has_edge(&buf, 0, 2), tree_has_edge(&buf, 1, 3));
    }
}

#[test]
fn the_lightest_tree_leaves_out_the_heaviest_edge() {
    let graph = triangle([0.0; 3]);
    let mut buf = SpanningTreeBuffer::new(3);
    lightest_tree(&graph, &vec![d(3.0), d(1.0), d(2.0)], &mut buf).unwrap();
    assert!(!tree_has_edge(&buf, 0, 1));
    assert!(tree_has_edge(&buf, 0, 2) && tree_has_edge(&buf, 1, 2));
    assert_eq!(
        lightest_tree(&graph, &vec![d(3.0), d(f64::NAN), d(2.0)], &mut buf),
        Err(SpanningTreeError::Unordered)
    );
}

#[test]
fn disconnected_graphs_have_no_spanning_tree() {
    let graph = Graph::from_edges(vec![1; 4], vec![Edge(0, 1), Edge(2, 3)]).unwrap();
    let mut buf = SpanningTreeBuffer::new(4);
    let error = greedy_spanning_tree(&graph, &mut buf, &graph.edges).unwrap_err();
    assert_eq!(
        error,
        SpanningTreeError::Disconnected {
            node_count: 4,
            graph_edge_count: 2,
            expected_tree_edges: 3,
            actual_tree_edges: 2,
        }
    );
    assert_eq!(
        error.message(),
        "Cannot construct a spanning tree of a disconnected graph with 4 nodes and 2 edges: \
         found 2 of 3 required tree edges."
    );

    let mut rng = SmallRng::seed_from_u64(1);
    assert_eq!(
        RMSTSampler::new(4).random_spanning_tree(&graph, &mut buf, &mut rng),
        Err(error)
    );
}

#[test]
fn walks_are_taken_without_their_loops() {
    let mut buf = USTBuffer::new(6);
    buf.in_tree[5] = true;
    buf.take_walk(&vec![0, 1, 2, 1, 3, 0, 4, 5]);
    assert_eq!(buf.in_tree, vec![true, false, false, false, true, true]);
    assert_eq!((buf.next[0], buf.next[4]), (4, 5));
    buf.take_walk(&vec![2, 1, 2, 3, 4]);
    assert_eq!(buf.in_tree, vec![true, false, true, true, true, true]);
    assert_eq!((buf.next[2], buf.next[3]), (3, 4));
}

#[test]
fn walks_give_up_where_the_graph_is_disconnected() {
    let graph = Graph::from_edges(vec![1; 3], vec![]).unwrap();
    let mut buf = SpanningTreeBuffer::new(3);
    for seed in 0..8 {
        let mut rng = SmallRng::seed_from_u64(seed);
        let failure = USTSampler::new(3).random_spanning_tree(&graph, &mut buf, &mut rng);
        assert_eq!(
            failure,
            Err(SpanningTreeError::Disconnected {
                node_count: 3,
                graph_edge_count: 0,
                expected_tree_edges: 2,
                actual_tree_edges: 0,
            })
        );
    }
}

#[test]
fn uniform_trees_span_and_vary() {
    let graph = triangle([0.0; 3]);
    let mut sampler = USTSampler::new(3);
    let mut buf = SpanningTreeBuffer::new(3);
    let mut missing = [0usize; 3];
    for seed in 0..300u64 {
        let mut rng = SmallRng::seed_from_u64(seed);
        sampler
            .random_spanning_tree(&graph, &mut buf, &mut rng)
            .unwrap();
        assert_eq!(tree_edges(&buf), 2);
        for (e, (u, v)) in [(0, 1), (0, 2), (1, 2)].into_iter().enumerate() {
            if !tree_has_edge(&buf, u, v) {
                missing[e] += 1;
            }
        }
    }
    assert!(missing.iter().all(|&n| n > 50), "{missing:?}");
}

#[test]
fn random_weight_trees_span() {
    let graph = triangle([0.0; 3]);
    let mut sampler = RMSTSampler::new(3);
    let mut buf = SpanningTreeBuffer::new(3);
    for seed in 0..16u64 {
        let mut rng = SmallRng::seed_from_u64(seed);
        sampler
            .random_spanning_tree(&graph, &mut buf, &mut rng)
            .unwrap();
        assert_eq!(tree_edges(&buf), 2);
    }
}
