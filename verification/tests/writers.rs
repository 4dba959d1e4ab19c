use std::io::{BufReader, BufWriter, Cursor};

use binary_ensemble::io::bundle::BendlReader;
use binary_ensemble::io::reader::BenStreamReader;
use rustrecom::bendl::{reorder_graph_json, BendlGraphOrder};
use rustrecom::double::{Arithmetic, Double, Op};
use rustrecom::graph::{Edge, Graph};
use rustrecom::partition::Partition;
use rustrecom::recom::chain::multi_chain;
use rustrecom::recom::proposal::{RecomParams, RecomProposal, RecomVariant};
use rustrecom::stats::ben::{make_bundle, BenStream};
use rustrecom::stats::bundle::BendlBenStreamWriter;
use rustrecom::stats::counts::{SelfLoopCounts, SelfLoopReason};
use rustrecom::stats::jsonl::JSONLWriter;
use rustrecom::stats::moves::PcompressWriter;
use rustrecom::stats::records::Record;
use rustrecom::stats::sampling::{sampled_step_count, sampled_steps};
use rustrecom::stats::writers::{
    AssignmentsOnlyWriter, BenWriter, CanonicalWriter, StatsWriter, TSVWriter,
};
use serde_json::Value;

const NODE_COUNT: usize = 36;
const NUM_DISTS: u16 = 6;
const RNG_SEED: u64 = 8675309;

type Calc = fn(Op, Double, Double) -> Double;

fn d(x: f64) -> Double {
    Double { bits: x.to_bits() }
}

fn f(x: Double) -> f64 {
    f64::from_bits(x.bits)
}

fn eval(op: Op, x: Double, y: Double) -> Double {
    d(match op {
        Op::Add => f(x) + f(y),
        Op::Sub => f(x) - f(y),
        Op::Mul => f(x) * f(y),
        Op::Div => f(x) / f(y),
        Op::OfInt(n) => n as f64,
    })
}

fn numbers() -> Arithmetic<Calc> {
    Arithmetic { eval: eval as Calc }
}

/// A grid of six columns of six nodes, each column a district.
fn grid_json() -> Vec<u8> {
    let mut nodes = vec![];
    let mut adjacency = vec![];
    for id in 0..NODE_COUNT {
        let (x, y) = (id / 6, id % 6);
        nodes.push(format!(
            r#"{{"id":{id},"x":{x},"y":{y},"population":1,"district":{}}}"#,
            x + 1
        ));
        let mut around = vec![];
        if x > 0 {
            around.push(format!(r#"{{"id":{}}}"#, id - 6));
        }
        if y > 0 {
            around.push(format!(r#"{{"id":{}}}"#, id - 1));
        }
        if y < 5 {
            around.push(format!(r#"{{"id":{}}}"#, id + 1));
        }
        if x < 5 {
            around.push(format!(r#"{{"id":{}}}"#, id + 6));
        }
        adjacency.push(format!("[{}]", around.join(",")));
    }
    format!(
        r#"{{"directed":false,"multigraph":false,"graph":[],"nodes":[{}],"adjacency":[{}]}}"#,
        nodes.join(","),
        adjacency.join(",")
    )
    .into_bytes()
}

fn graph_of(json: &[u8]) -> (Graph, Partition) {
    let data: Value = serde_json::from_slice(json).unwrap();
    let mut edges = vec![];
    for (i, around) in data["adjacency"].as_array().unwrap().iter().enumerate() {
        let mut ids: Vec<usize> = around
            .as_array()
            .unwrap()
            .iter()
            .map(|n| n["id"].as_u64().unwrap() as usize)
            .collect();
        ids.sort();
        edges.extend(ids.into_iter().filter(|&j| i < j).map(|j| Edge(i, j)));
    }
    let nodes = data["nodes"].as_array().unwrap();
    let graph = Graph::from_edges(vec![1; nodes.len()], edges).unwrap();
    let labels = nodes
        .iter()
        .map(|n| n["district"].as_u64().unwrap() as u32)
        .collect();
    let partition = Partition::from_assignments(&graph, &labels).unwrap();
    (graph, partition)
}

fn load_grid() -> (Graph, Partition) {
    graph_of(&grid_json())
}

fn grid_params(num_steps: u64) -> RecomParams {
    RecomParams {
        min_pop: 5,
        max_pop: 7,
        num_steps,
        rng_seed: RNG_SEED,
        balance_ub: 0,
        variant: RecomVariant::DistrictPairsRMST,
        region_weights: vec![],
        edge_weight_keys: vec![],
    }
}

/// Bounds that no district meets, so that every proposal is turned down.
fn hopeless_params(num_steps: u64) -> RecomParams {
    RecomParams {
        min_pop: 100,
        max_pop: 100,
        num_steps,
        rng_seed: RNG_SEED,
        balance_ub: 10,
        variant: RecomVariant::Reversible,
        region_weights: vec![],
        edge_weight_keys: vec![],
    }
}

fn text_of(records: &[Record]) -> String {
    records
        .iter()
        .map(|record| match record {
            Record::Text(s) => s.as_str(),
            _ => panic!("expected text"),
        })
        .collect()
}

fn bytes_of(records: &[Record]) -> Vec<u8> {
    let mut bytes = vec![];
    for record in records {
        match record {
            Record::Bytes(b) => bytes.extend_from_slice(b),
            _ => panic!("expected bytes"),
        }
    }
    bytes
}

fn ben_of(records: &Vec<Record>) -> Vec<u8> {
    let mut stream = BenStream::new().unwrap();
    stream.write(records).unwrap();
    stream.finish().unwrap()
}

fn frames_of(ben: Vec<u8>) -> Vec<(Vec<u16>, u16)> {
    let mut reader = BenStreamReader::from_ben(Cursor::new(ben)).unwrap();
    let mut frames = vec![];
    reader
        .for_each_assignment(|assignment, count| {
            frames.push((assignment.to_vec(), count));
            Ok(true)
        })
        .unwrap();
    frames
}

fn decode_ben(ben: Vec<u8>) -> Vec<Vec<u32>> {
    let mut assignments = vec![];
    for (assignment, count) in frames_of(ben) {
        for _ in 0..count {
            assignments.push(assignment.iter().map(|&label| label as u32).collect());
        }
    }
    assignments
}

fn decode_pcompress(bytes: Vec<u8>) -> Vec<Vec<u32>> {
    let mut reader = BufReader::new(Cursor::new(bytes));
    let mut decoded = vec![];
    {
        let mut output = BufWriter::new(&mut decoded);
        pcompress::decode::decode(&mut reader, &mut output, 0, false);
    }
    String::from_utf8(decoded)
        .unwrap()
        .lines()
        .map(|line| serde_json::from_str::<Vec<u32>>(line).unwrap())
        .collect()
}

fn run_ben(params: &RecomParams) -> (Result<(), String>, Vec<(Vec<u16>, u16)>) {
    let (graph, partition) = load_grid();
    let mut out = vec![];
    let result = multi_chain(
        &graph,
        &partition,
        &mut BenWriter::new(),
        params,
        1,
        1,
        numbers(),
        &mut out,
    );
    (result, frames_of(ben_of(&out)))
}

#[test]
fn standard_run_decodes_to_num_steps() {
    let num_steps = 300u64;
    let (result, frames) = run_ben(&grid_params(num_steps));
    assert!(result.is_ok(), "accepting run should succeed: {:?}", result);
    let total: u64 = frames.iter().map(|(_, c)| *c as u64).sum();
    assert_eq!(total, num_steps);
}

#[test]
fn all_rejection_run_emits_full_length_then_errors() {
    let (_, seed_partition) = load_grid();
    let expected_seed: Vec<u16> = seed_partition
        .assignments
        .iter()
        .map(|&x| x as u16)
        .collect();
    assert_eq!(expected_seed.len(), NODE_COUNT);

    let num_steps = 100u64;
    let (result, frames) = run_ben(&hopeless_params(num_steps));
    assert!(
        result.is_err(),
        "all-rejection run should report no accepted proposals"
    );

    let total: u64 = frames.iter().map(|(_, c)| *c as u64).sum();
    assert_eq!(total, num_steps, "full chain length recorded");
    for (assignment, _) in &frames {
        assert_eq!(assignment, &expected_seed, "every record is the seed plan");
    }
}

#[test]
fn pcompress_all_rejection_run_preserves_terminal_tail() {
    let (graph, partition) = load_grid();
    let num_steps = 25u64;
    let mut out = vec![];
    let result = multi_chain(
        &graph,
        &partition,
        &mut PcompressWriter::new(),
        &hopeless_params(num_steps),
        1,
        1,
        numbers(),
        &mut out,
    );
    assert!(
        result.is_err(),
        "all-rejection run should report no accepted proposals"
    );

    let samples = decode_pcompress(bytes_of(&out));
    assert_eq!(
        samples.len() as u64,
        num_steps,
        "full chain length recorded"
    );
    for sample in &samples {
        assert_eq!(
            sample, &partition.assignments,
            "every record is the seed plan"
        );
    }
}

#[test]
fn tsv_writes_constraint_and_terminal_self_loop_rows() {
    let (graph, partition) = load_grid();
    let mut writer = TSVWriter::new();
    let mut out = writer.init(&graph, &partition);

    let proposal = RecomProposal {
        a_label: 0,
        b_label: 1,
        a_pop: 6,
        b_pop: 6,
        a_nodes: vec![0, 1],
        b_nodes: vec![2, 3],
    };
    let mut step_counts = SelfLoopCounts::default();
    step_counts.inc(SelfLoopReason::NoSplit);
    step_counts.inc_by(SelfLoopReason::ConstraintViolation, 2);
    out.extend(writer.step(4, &graph, &partition, &proposal, &step_counts));

    let mut tail_counts = SelfLoopCounts::default();
    tail_counts.inc_by(SelfLoopReason::ConstraintViolation, 3);
    out.extend(writer.self_loop(7, &graph, &partition, &tail_counts));
    out.extend(writer.close());

    let contents = text_of(&out);
    let rows: Vec<Vec<&str>> = contents.lines().map(|l| l.split('\t').collect()).collect();
    assert_eq!(rows.len(), 3, "header, accepted row, terminal row");
    assert_eq!(
        rows[0],
        vec![
            "step",
            "non_adjacent",
            "no_split",
            "seam_length",
            "tilted_rejection",
            "a_label",
            "b_label",
            "a_pop",
            "b_pop",
            "a_nodes",
            "b_nodes",
            "constraint_violation",
        ]
    );

    assert_eq!(rows[1].len(), 12);
    assert_eq!(rows[1][0], "4");
    assert_eq!(rows[1][2], "1", "no_split count");
    assert_eq!(rows[1][5], "0", "a_label");
    assert_eq!(rows[1][8], "6", "b_pop");
    assert_eq!(rows[1][11], "2", "accepted-row constraint count");

    assert_eq!(rows[2].len(), 12);
    assert_eq!(rows[2][0], "7");
    assert!(rows[2][5..11].iter().all(|cell| cell.is_empty()));
    assert_eq!(rows[2][11], "3", "terminal constraint count");
}

#[test]
fn jsonl_emits_terminal_self_loop_record() {
    let (graph, partition) = load_grid();
    let mut writer = JSONLWriter::new(false, false, false);
    let mut out = writer.init(&graph, &partition);

    let mut counts = SelfLoopCounts::default();
    counts.inc(SelfLoopReason::NonAdjacent);
    counts.inc_by(SelfLoopReason::ConstraintViolation, 4);
    out.extend(writer.self_loop(99, &graph, &partition, &counts));
    out.extend(writer.close());

    let lines: Vec<Value> = text_of(&out)
        .lines()
        .map(|line| serde_json::from_str(line).unwrap())
        .collect();
    assert_eq!(lines.len(), 2, "init record plus terminal record");
    assert!(lines[0].get("init").is_some());

    let record = lines[1]
        .get("self_loop")
        .expect("terminal record uses a distinct top-level key");
    assert!(
        lines[1].get("step").is_none(),
        "terminal record must not masquerade as an accepted step"
    );
    assert_eq!(record["step"], 99);
    assert_eq!(record["counts"]["non_adjacent"], 1);
    assert_eq!(record["counts"]["constraint_violation"], 4);
}

fn loops(count: usize) -> SelfLoopCounts {
    let mut counts = SelfLoopCounts::default();
    counts.inc_by(SelfLoopReason::NoSplit, count);
    counts
}

/// Drives a writer to position 12. Returns what it wrote and the plans at the
/// positions 0, 4, 8 and 12.
fn drive_writer<W: StatsWriter>(writer: &mut W) -> (Vec<Record>, Vec<Vec<u32>>) {
    let graph = Graph::from_edges(
        vec![1; 4],
        vec![Edge(0, 1), Edge(0, 2), Edge(1, 3), Edge(2, 3)],
    )
    .unwrap();
    let plans = [
        vec![0, 0, 1, 1],
        vec![0, 1, 0, 1],
        vec![0, 1, 1, 0],
        vec![1, 0, 0, 1],
    ];
    let partitions = plans
        .iter()
        .map(|assignment| Partition::from_assignments(&graph, assignment).unwrap())
        .collect::<Vec<_>>();
    let proposal = RecomProposal {
        a_label: 0,
        b_label: 1,
        a_pop: 2,
        b_pop: 2,
        a_nodes: vec![],
        b_nodes: vec![],
    };

    let mut out = writer.init(&graph, &partitions[0]);
    out.extend(writer.step(3, &graph, &partitions[1], &proposal, &loops(2)));
    out.extend(writer.step(4, &graph, &partitions[2], &proposal, &loops(0)));
    out.extend(writer.step(8, &graph, &partitions[3], &proposal, &loops(3)));
    out.extend(writer.self_loop(12, &graph, &partitions[3], &loops(4)));
    out.extend(writer.close());

    let expected = vec![
        plans[0].clone(),
        plans[2].clone(),
        plans[3].clone(),
        plans[3].clone(),
    ];
    (out, expected)
}

#[test]
fn text_writers_keep_original_sample_positions() {
    let (out, expected) =
        drive_writer(&mut AssignmentsOnlyWriter::new(false).with_sample_interval(4));
    let output = text_of(&out);
    let rows = output
        .lines()
        .map(|line| {
            let (step, assignment) = line.split_once(',').unwrap();
            (
                step.parse::<u64>().unwrap(),
                serde_json::from_str::<Vec<u32>>(assignment).unwrap(),
            )
        })
        .collect::<Vec<_>>();
    assert_eq!(
        rows.iter().map(|(step, _)| *step).collect::<Vec<_>>(),
        vec![0, 4, 8, 12]
    );
    assert_eq!(
        rows.into_iter()
            .map(|(_, assignment)| assignment)
            .collect::<Vec<_>>(),
        expected
    );

    let (out, expected) = drive_writer(&mut CanonicalWriter::new().with_sample_interval(4));
    let output = text_of(&out);
    let rows = output
        .lines()
        .map(|line| serde_json::from_str::<Value>(line).unwrap())
        .collect::<Vec<_>>();
    assert_eq!(
        rows.iter()
            .map(|row| row["sample"].as_u64().unwrap())
            .collect::<Vec<_>>(),
        vec![1, 5, 9, 13]
    );
    assert_eq!(
        rows.into_iter()
            .map(|row| {
                row["assignment"]
                    .as_array()
                    .unwrap()
                    .iter()
                    .map(|label| label.as_u64().unwrap() as u32)
                    .collect::<Vec<_>>()
            })
            .collect::<Vec<_>>(),
        expected
    );
}

#[test]
fn compressed_writers_emit_only_selected_plans() {
    let (out, expected) = drive_writer(&mut BenWriter::new().with_sample_interval(4));
    assert_eq!(decode_ben(ben_of(&out)), expected);

    let (out, expected) = drive_writer(&mut PcompressWriter::new().with_sample_interval(4));
    assert_eq!(decode_pcompress(bytes_of(&out)), expected);
}

#[test]
fn bendl_header_counts_subsampled_stream() {
    let mut writer =
        BendlBenStreamWriter::new(b"{}".to_vec(), b"{}".to_vec()).with_sample_interval(4);
    let (out, expected) = drive_writer(&mut writer);
    let bytes = writer.bundle(&ben_of(&out)).unwrap();

    let mut bundle = BendlReader::open(Cursor::new(bytes)).unwrap();
    assert_eq!(bundle.sample_count(), Some(expected.len() as i64));
    let stream = bundle.assignment_stream_reader_unverified().unwrap();
    let mut reader = BenStreamReader::from_ben(stream).unwrap();
    let mut assignments: Vec<Vec<u32>> = Vec::new();
    reader
        .for_each_assignment(|assignment, count| {
            for _ in 0..count {
                assignments.push(assignment.iter().map(|&label| label as u32).collect());
            }
            Ok(true)
        })
        .unwrap();
    assert_eq!(assignments, expected);
}

/// Reorders a graph, runs a chain on it and bundles the run. Returns the
/// bundle and the embedded graph.
fn write_bundle(
    original: &Vec<u8>,
    order: &BendlGraphOrder,
    params: &RecomParams,
) -> (Vec<u8>, Vec<u8>) {
    let embed = reorder_graph_json(original, order).unwrap();
    let (graph, partition) = graph_of(&embed);
    let mut writer = BendlBenStreamWriter::new(embed.clone(), b"{}".to_vec());
    let mut out = vec![];
    multi_chain(
        &graph,
        &partition,
        &mut writer,
        params,
        1,
        1,
        numbers(),
        &mut out,
    )
    .unwrap();
    (writer.bundle(&ben_of(&out)).unwrap(), embed)
}

struct Decoded {
    sample_count: i64,
    total_records: u64,
    frames: Vec<(Vec<u16>, u16)>,
    graph_asset: Vec<u8>,
    metadata_asset: Vec<u8>,
}

fn decode_bundle(bytes: Vec<u8>) -> Decoded {
    let mut reader = BendlReader::open(Cursor::new(bytes)).unwrap();
    let sample_count = reader.sample_count().unwrap();
    let graph_entry = reader.find_asset_by_name("graph.json").unwrap().clone();
    let metadata_entry = reader.find_asset_by_name("metadata.json").unwrap().clone();
    let graph_asset = reader.asset_bytes(&graph_entry).unwrap();
    let metadata_asset = reader.asset_bytes(&metadata_entry).unwrap();
    reader.verify_stream_checksum().unwrap();
    reader.verify_all_asset_checksums().unwrap();

    let raw = reader.assignment_stream_reader_unverified().unwrap();
    let mut ben = BenStreamReader::from_ben(raw).unwrap();
    let mut frames: Vec<(Vec<u16>, u16)> = Vec::new();
    ben.for_each_assignment(|assignment, count| {
        frames.push((assignment.to_vec(), count));
        Ok(true)
    })
    .unwrap();
    let total_records = frames.iter().map(|(_, c)| *c as u64).sum();
    Decoded {
        sample_count,
        total_records,
        frames,
        graph_asset,
        metadata_asset,
    }
}

#[test]
fn bundle_roundtrip_assets_present_and_valid() {
    let (bytes, _) = write_bundle(&grid_json(), &BendlGraphOrder::Verbatim, &grid_params(150));
    let decoded = decode_bundle(bytes);
    let graph: Value = serde_json::from_slice(&decoded.graph_asset).unwrap();
    assert_eq!(graph["nodes"].as_array().unwrap().len(), NODE_COUNT);
    let _: Value = serde_json::from_slice(&decoded.metadata_asset).unwrap();
}

#[test]
fn absolute_sample_count_triple_identity() {
    let num_steps = 250u64;
    let (bytes, _) = write_bundle(
        &grid_json(),
        &BendlGraphOrder::Verbatim,
        &grid_params(num_steps),
    );
    let decoded = decode_bundle(bytes);
    assert_eq!(decoded.sample_count, num_steps as i64);
    assert_eq!(decoded.total_records, num_steps);
}

#[test]
fn mlc_reorder_roundtrip_aligns_stream_to_embedded_graph() {
    let grid = grid_json();
    let reordered = reorder_graph_json(&grid, &BendlGraphOrder::Mlc).unwrap();
    assert_ne!(reordered, grid, "mlc should reorder the 6x6 grid");

    let (bytes, embed) = write_bundle(&grid, &BendlGraphOrder::Mlc, &grid_params(150));
    let decoded = decode_bundle(bytes);
    assert_eq!(decoded.graph_asset, embed);
    assert_eq!(decoded.graph_asset, reordered);

    let original: Value = serde_json::from_slice(&grid).unwrap();
    let embedded: Value = serde_json::from_slice(&decoded.graph_asset).unwrap();
    let embedded_ids: Vec<i64> = embedded["nodes"]
        .as_array()
        .unwrap()
        .iter()
        .map(|n| n["id"].as_i64().unwrap())
        .collect();
    assert_eq!(
        embedded_ids,
        (0..NODE_COUNT as i64).collect::<Vec<_>>(),
        "ids are renumbered to positional indices"
    );
    let coords = |g: &Value| -> Vec<(i64, i64)> {
        let mut c: Vec<(i64, i64)> = g["nodes"]
            .as_array()
            .unwrap()
            .iter()
            .map(|n| (n["x"].as_i64().unwrap(), n["y"].as_i64().unwrap()))
            .collect();
        c.sort_unstable();
        c
    };
    assert_eq!(
        coords(&original),
        coords(&embedded),
        "node data preserved (coordinate multiset unchanged)"
    );

    for (assignment, _) in &decoded.frames {
        assert_eq!(assignment.len(), NODE_COUNT);
        assert!(assignment.iter().all(|&d| d < NUM_DISTS));
    }
}

#[test]
fn determinism_external_reorder_equals_internal_mlc() {
    let grid = grid_json();
    let reordered = reorder_graph_json(&grid, &BendlGraphOrder::Mlc).unwrap();
    let external = decode_bundle(
        write_bundle(&reordered, &BendlGraphOrder::Verbatim, &grid_params(200)).0,
    );
    let internal = decode_bundle(write_bundle(&grid, &BendlGraphOrder::Mlc, &grid_params(200)).0);
    assert_eq!(external.graph_asset, internal.graph_asset);
    assert_eq!(external.sample_count, internal.sample_count);
    assert_eq!(external.frames, internal.frames);
}

#[test]
fn bundles_refuse_counts_beyond_the_header() {
    assert_eq!(
        make_bundle(&vec![], &vec![], &vec![], 1 << 63).unwrap_err(),
        "BENDL sample count exceeds the i64 header field"
    );
}

#[test]
fn frames_of_unequal_length_are_refused() {
    let mut stream = BenStream::new().unwrap();
    let records = vec![Record::Frame(vec![0, 1], 1), Record::Frame(vec![0], 1)];
    assert!(stream.write(&records).is_err());
}

#[test]
fn records_without_frames_leave_a_stream_as_it_is() {
    let mut stream = BenStream::new().unwrap();
    stream.write(&vec![Record::Frame(vec![0, 1], 2)]).unwrap();
    let records = vec![Record::Text("x".to_string()), Record::Frame(vec![0], 0)];
    stream.write(&records).unwrap();
    stream.write(&vec![]).unwrap();
    let mut plain = BenStream::new().unwrap();
    plain.write(&vec![Record::Frame(vec![0, 1], 2)]).unwrap();
    assert_eq!(stream.finish().unwrap(), plain.finish().unwrap());
}

#[test]
fn samples_are_the_multiples_of_the_interval() {
    assert_eq!(sampled_steps(0, 12, 4), vec![0, 4, 8, 12]);
    assert_eq!(sampled_steps(5, 7, 4), Vec::<u64>::new());
    assert_eq!(sampled_step_count(0, 12, 4), 4);
    assert_eq!(sampled_step_count(5, 7, 4), 0);
    assert_eq!(sampled_step_count(3, 3, 1), 1);
    assert_eq!(sampled_step_count(1, u64::MAX, 1), u64::MAX);
    assert_eq!(
        sampled_step_count(0, u64::MAX, 2),
        sampled_step_count(0, 99, 2) + sampled_step_count(100, u64::MAX, 2)
    );
}

#[test]
fn long_waits_are_split_over_frames() {
    let graph = Graph::from_edges(vec![1; 2], vec![Edge(0, 1)]).unwrap();
    let partition = Partition::from_assignments(&graph, &vec![0, 1]).unwrap();
    let mut writer = BenWriter::new();
    let mut out = writer.init(&graph, &partition);
    out.extend(writer.self_loop(70000, &graph, &partition, &loops(70000)));
    out.extend(writer.close());
    assert_eq!(
        out,
        vec![
            Record::Frame(vec![0, 1], 65535),
            Record::Frame(vec![0, 1], 4466)
        ]
    );
    assert_eq!(decode_ben(ben_of(&out)).len(), 70001);
}

#[test]
fn every_writer_tells_the_same_history() {
    let (graph, partition) = load_grid();
    let params = grid_params(40);
    let mut lines = vec![];
    multi_chain(
        &graph,
        &partition,
        &mut AssignmentsOnlyWriter::new(false),
        &params,
        2,
        1,
        numbers(),
        &mut lines,
    )
    .unwrap();
    let history: Vec<Vec<u32>> = text_of(&lines)
        .lines()
        .map(|line| serde_json::from_str(line.split_once(',').unwrap().1).unwrap())
        .collect();
    assert_eq!(history.len(), 40);
    assert_eq!(history[0], partition.assignments);

    let mut frames = vec![];
    multi_chain(
        &graph,
        &partition,
        &mut BenWriter::new(),
        &params,
        2,
        1,
        numbers(),
        &mut frames,
    )
    .unwrap();
    assert_eq!(decode_ben(ben_of(&frames)), history);

    let mut moves = vec![];
    multi_chain(
        &graph,
        &partition,
        &mut PcompressWriter::new(),
        &params,
        2,
        1,
        numbers(),
        &mut moves,
    )
    .unwrap();
    assert_eq!(decode_pcompress(bytes_of(&moves)), history);
}
