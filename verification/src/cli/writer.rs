//! The writers that a name can ask for.

use vstd::prelude::*;
use crate::columns;
use crate::graph::Graph;
use crate::partition::{Partition, Plan};
use crate::recom::proposal::{RecomProposal, Redraw};
use crate::stats::counts::SelfLoopCounts;
use crate::stats::jsonl::JSONLWriter;
use crate::stats::moves::PcompressWriter;
use crate::stats::records::{Entry, Record};
use crate::stats::writers::{
    AssignmentsOnlyWriter, BenWriter, CanonicalWriter, StatsWriter, TSVWriter,
};

verus! {

/// A writer of one of the output formats.
#[derive(Debug)]
pub enum Writer {
    Tsv(TSVWriter),
    Jsonl(JSONLWriter),
    Pcompress(PcompressWriter),
    Assignments(AssignmentsOnlyWriter),
    Canonical(CanonicalWriter),
    Ben(BenWriter),
}

impl StatsWriter for Writer {
    open spec fn starts(&self, graph: &Graph, partition: &Partition) -> bool {
        match self {
            Writer::Tsv(w) => w.starts(graph, partition),
            Writer::Jsonl(w) => w.starts(graph, partition),
            Writer::Pcompress(w) => w.starts(graph, partition),
            Writer::Assignments(w) => w.starts(graph, partition),
            Writer::Canonical(w) => w.starts(graph, partition),
            Writer::Ben(w) => w.starts(graph, partition),
        }
    }

    open spec fn steps(
        &self,
        step: u64,
        graph: &Graph,
        partition: &Partition,
        proposal: &RecomProposal,
        counts: &SelfLoopCounts,
    ) -> bool {
        match self {
            Writer::Tsv(w) => w.steps(step, graph, partition, proposal, counts),
            Writer::Jsonl(w) => w.steps(step, graph, partition, proposal, counts),
            Writer::Pcompress(w) => w.steps(step, graph, partition, proposal, counts),
            Writer::Assignments(w) => w.steps(step, graph, partition, proposal, counts),
            Writer::Canonical(w) => w.steps(step, graph, partition, proposal, counts),
            Writer::Ben(w) => w.steps(step, graph, partition, proposal, counts),
        }
    }

    open spec fn loops(
        &self,
        step: u64,
        graph: &Graph,
        partition: &Partition,
        counts: &SelfLoopCounts,
    ) -> bool {
        match self {
            Writer::Tsv(w) => w.loops(step, graph, partition, counts),
            Writer::Jsonl(w) => w.loops(step, graph, partition, counts),
            Writer::Pcompress(w) => w.loops(step, graph, partition, counts),
            Writer::Assignments(w) => w.loops(step, graph, partition, counts),
            Writer::Canonical(w) => w.loops(step, graph, partition, counts),
            Writer::Ben(w) => w.loops(step, graph, partition, counts),
        }
    }

    open spec fn closes(&self) -> bool {
        match self {
            Writer::Tsv(w) => w.closes(),
            Writer::Jsonl(w) => w.closes(),
            Writer::Pcompress(w) => w.closes(),
            Writer::Assignments(w) => w.closes(),
            Writer::Canonical(w) => w.closes(),
            Writer::Ben(w) => w.closes(),
        }
    }

    open spec fn stands(&self, graph: &Graph, plan: Plan, last: int) -> bool {
        match self {
            Writer::Tsv(w) => w.stands(graph, plan, last),
            Writer::Jsonl(w) => w.stands(graph, plan, last),
            Writer::Pcompress(w) => w.stands(graph, plan, last),
            Writer::Assignments(w) => w.stands(graph, plan, last),
            Writer::Canonical(w) => w.stands(graph, plan, last),
            Writer::Ben(w) => w.stands(graph, plan, last),
        }
    }

    open spec fn begun(&self, graph: &Graph, plan: Plan, next: &Self) -> bool {
        match (self, next) {
            (Writer::Tsv(w), Writer::Tsv(n)) => w.begun(graph, plan, n),
            (Writer::Jsonl(w), Writer::Jsonl(n)) => w.begun(graph, plan, n),
            (Writer::Pcompress(w), Writer::Pcompress(n)) => w.begun(graph, plan, n),
            (Writer::Assignments(w), Writer::Assignments(n)) => w.begun(graph, plan, n),
            (Writer::Canonical(w), Writer::Canonical(n)) => w.begun(graph, plan, n),
            (Writer::Ben(w), Writer::Ben(n)) => w.begun(graph, plan, n),
            _ => false,
        }
    }

    open spec fn stepped(
        &self,
        step: int,
        graph: &Graph,
        plan: Plan,
        p: Redraw,
        counts: SelfLoopCounts,
        next: &Self,
    ) -> bool {
        match (self, next) {
            (Writer::Tsv(w), Writer::Tsv(n)) => w.stepped(step, graph, plan, p, counts, n),
            (Writer::Jsonl(w), Writer::Jsonl(n)) => w.stepped(step, graph, plan, p, counts, n),
            (Writer::Pcompress(w), Writer::Pcompress(n)) => w.stepped(step, graph, plan, p, counts, n),
            (Writer::Assignments(w), Writer::Assignments(n)) => w.stepped(step, graph, plan, p, counts, n),
            (Writer::Canonical(w), Writer::Canonical(n)) => w.stepped(step, graph, plan, p, counts, n),
            (Writer::Ben(w), Writer::Ben(n)) => w.stepped(step, graph, plan, p, counts, n),
            _ => false,
        }
    }

    open spec fn waited(
        &self,
        step: int,
        graph: &Graph,
        plan: Plan,
        counts: SelfLoopCounts,
        next: &Self,
    ) -> bool {
        match (self, next) {
            (Writer::Tsv(w), Writer::Tsv(n)) => w.waited(step, graph, plan, counts, n),
            (Writer::Jsonl(w), Writer::Jsonl(n)) => w.waited(step, graph, plan, counts, n),
            (Writer::Pcompress(w), Writer::Pcompress(n)) => w.waited(step, graph, plan, counts, n),
            (Writer::Assignments(w), Writer::Assignments(n)) => w.waited(step, graph, plan, counts, n),
            (Writer::Canonical(w), Writer::Canonical(n)) => w.waited(step, graph, plan, counts, n),
            (Writer::Ben(w), Writer::Ben(n)) => w.waited(step, graph, plan, counts, n),
            _ => false,
        }
    }

    open spec fn ended(&self, next: &Self) -> bool {
        match (self, next) {
            (Writer::Tsv(w), Writer::Tsv(n)) => w.ended(n),
            (Writer::Jsonl(w), Writer::Jsonl(n)) => w.ended(n),
            (Writer::Pcompress(w), Writer::Pcompress(n)) => w.ended(n),
            (Writer::Assignments(w), Writer::Assignments(n)) => w.ended(n),
            (Writer::Canonical(w), Writer::Canonical(n)) => w.ended(n),
            (Writer::Ben(w), Writer::Ben(n)) => w.ended(n),
            _ => false,
        }
    }

    open spec fn seed_entries(&self, graph: &Graph, plan: Plan) -> Seq<Entry> {
        match self {
            Writer::Tsv(w) => w.seed_entries(graph, plan),
            Writer::Jsonl(w) => w.seed_entries(graph, plan),
            Writer::Pcompress(w) => w.seed_entries(graph, plan),
            Writer::Assignments(w) => w.seed_entries(graph, plan),
            Writer::Canonical(w) => w.seed_entries(graph, plan),
            Writer::Ben(w) => w.seed_entries(graph, plan),
        }
    }

    open spec fn step_entries(
        &self,
        step: int,
        graph: &Graph,
        plan: Plan,
        p: Redraw,
        counts: SelfLoopCounts,
    ) -> Seq<Entry> {
        match self {
            Writer::Tsv(w) => w.step_entries(step, graph, plan, p, counts),
            Writer::Jsonl(w) => w.step_entries(step, graph, plan, p, counts),
            Writer::Pcompress(w) => w.step_entries(step, graph, plan, p, counts),
            Writer::Assignments(w) => w.step_entries(step, graph, plan, p, counts),
            Writer::Canonical(w) => w.step_entries(step, graph, plan, p, counts),
            Writer::Ben(w) => w.step_entries(step, graph, plan, p, counts),
        }
    }

    open spec fn loop_entries(
        &self,
        step: int,
        graph: &Graph,
        plan: Plan,
        counts: SelfLoopCounts,
    ) -> Seq<Entry> {
        match self {
            Writer::Tsv(w) => w.loop_entries(step, graph, plan, counts),
            Writer::Jsonl(w) => w.loop_entries(step, graph, plan, counts),
            Writer::Pcompress(w) => w.loop_entries(step, graph, plan, counts),
            Writer::Assignments(w) => w.loop_entries(step, graph, plan, counts),
            Writer::Canonical(w) => w.loop_entries(step, graph, plan, counts),
            Writer::Ben(w) => w.loop_entries(step, graph, plan, counts),
        }
    }

    open spec fn close_entries(&self) -> Seq<Entry> {
        match self {
            Writer::Tsv(w) => w.close_entries(),
            Writer::Jsonl(w) => w.close_entries(),
            Writer::Pcompress(w) => w.close_entries(),
            Writer::Assignments(w) => w.close_entries(),
            Writer::Canonical(w) => w.close_entries(),
            Writer::Ben(w) => w.close_entries(),
        }
    }

    proof fn ready_to_step(
        &self,
        graph: &Graph,
        before: Plan,
        last: int,
        step: u64,
        partition: &Partition,
        proposal: &RecomProposal,
        counts: &SelfLoopCounts,
    ) {
        match self {
            Writer::Tsv(w) => w.ready_to_step(graph, before, last, step, partition, proposal, counts),
            Writer::Jsonl(w) => w.ready_to_step(graph, before, last, step, partition, proposal, counts),
            Writer::Pcompress(w) => w.ready_to_step(graph, before, last, step, partition, proposal, counts),
            Writer::Assignments(w) => w.ready_to_step(graph, before, last, step, partition, proposal, counts),
            Writer::Canonical(w) => w.ready_to_step(graph, before, last, step, partition, proposal, counts),
            Writer::Ben(w) => w.ready_to_step(graph, before, last, step, partition, proposal, counts),
        }
    }

    proof fn ready_to_wait(
        &self,
        graph: &Graph,
        partition: &Partition,
        last: int,
        step: u64,
        counts: &SelfLoopCounts,
    ) {
        match self {
            Writer::Tsv(w) => w.ready_to_wait(graph, partition, last, step, counts),
            Writer::Jsonl(w) => w.ready_to_wait(graph, partition, last, step, counts),
            Writer::Pcompress(w) => w.ready_to_wait(graph, partition, last, step, counts),
            Writer::Assignments(w) => w.ready_to_wait(graph, partition, last, step, counts),
            Writer::Canonical(w) => w.ready_to_wait(graph, partition, last, step, counts),
            Writer::Ben(w) => w.ready_to_wait(graph, partition, last, step, counts),
        }
    }

    proof fn ready_to_close(&self, graph: &Graph, plan: Plan, last: int) {
        match self {
            Writer::Tsv(w) => w.ready_to_close(graph, plan, last),
            Writer::Jsonl(w) => w.ready_to_close(graph, plan, last),
            Writer::Pcompress(w) => w.ready_to_close(graph, plan, last),
            Writer::Assignments(w) => w.ready_to_close(graph, plan, last),
            Writer::Canonical(w) => w.ready_to_close(graph, plan, last),
            Writer::Ben(w) => w.ready_to_close(graph, plan, last),
        }
    }

    fn init(&mut self, graph: &Graph, partition: &Partition) -> (r: Vec<Record>) {
        match self {
            Writer::Tsv(w) => w.init(graph, partition),
            Writer::Jsonl(w) => w.init(graph, partition),
            Writer::Pcompress(w) => w.init(graph, partition),
            Writer::Assignments(w) => w.init(graph, partition),
            Writer::Canonical(w) => w.init(graph, partition),
            Writer::Ben(w) => w.init(graph, partition),
        }
    }

    fn step(
        &mut self,
        step: u64,
        graph: &Graph,
        partition: &Partition,
        proposal: &RecomProposal,
        counts: &SelfLoopCounts,
    ) -> (r: Vec<Record>) {
        match self {
            Writer::Tsv(w) => w.step(step, graph, partition, proposal, counts),
            Writer::Jsonl(w) => w.step(step, graph, partition, proposal, counts),
            Writer::Pcompress(w) => w.step(step, graph, partition, proposal, counts),
            Writer::Assignments(w) => w.step(step, graph, partition, proposal, counts),
            Writer::Canonical(w) => w.step(step, graph, partition, proposal, counts),
            Writer::Ben(w) => w.step(step, graph, partition, proposal, counts),
        }
    }

    fn self_loop(
        &mut self,
        step: u64,
        graph: &Graph,
        partition: &Partition,
        counts: &SelfLoopCounts,
    ) -> (r: Vec<Record>) {
        match self {
            Writer::Tsv(w) => w.self_loop(step, graph, partition, counts),
            Writer::Jsonl(w) => w.self_loop(step, graph, partition, counts),
            Writer::Pcompress(w) => w.self_loop(step, graph, partition, counts),
            Writer::Assignments(w) => w.self_loop(step, graph, partition, counts),
            Writer::Canonical(w) => w.self_loop(step, graph, partition, counts),
            Writer::Ben(w) => w.self_loop(step, graph, partition, counts),
        }
    }

    fn close(&mut self) -> (r: Vec<Record>) {
        match self {
            Writer::Tsv(w) => w.close(),
            Writer::Jsonl(w) => w.close(),
            Writer::Pcompress(w) => w.close(),
            Writer::Assignments(w) => w.close(),
            Writer::Canonical(w) => w.close(),
            Writer::Ben(w) => w.close(),
        }
    }
}

/// Whether a name asks for a writer of assignments, which can be subsampled.
pub open spec fn writes_assignments(name: Seq<char>) -> bool {
    name == "pcompress"@ || name == "assignments"@ || name == "canonicalized-assignments"@ || name
        == "canonical"@ || name == "ben"@ || name == "bendl"@
}

/// Whether a name asks for a writer of assignments, which can be subsampled.
pub fn is_assignment_writer(name: &str) -> (r: bool)
    ensures
        r == writes_assignments(name@),
{
    columns::str_eq(name, "pcompress") || columns::str_eq(name, "assignments") || columns::str_eq(
        name,
        "canonicalized-assignments",
    ) || columns::str_eq(name, "canonical") || columns::str_eq(name, "ben") || columns::str_eq(
        name,
        "bendl",
    )
}

/// What is wrong with a sample interval for a writer, if anything is.
pub open spec fn interval_error(name: Seq<char>, sample_interval: u64) -> Option<Seq<char>> {
    if sample_interval == 0 {
        Some("Parameter error: '--sample-interval' must be at least 1."@)
    } else if sample_interval > 1 && !writes_assignments(name) {
        Some(
            "Parameter error: '--sample-interval' is only supported by assignment-producing writers."@,
        )
    } else {
        None
    }
}

/// Checks a sample interval for a writer.
pub fn check_sample_interval(name: &str, sample_interval: u64) -> (r: Result<(), String>)
    ensures
        match interval_error(name@, sample_interval) {
            Some(message) => r matches Err(e) && e@ == message,
            None => r is Ok,
        },
{
    if sample_interval == 0 {
        return Err("Parameter error: '--sample-interval' must be at least 1.".to_string());
    }
    if sample_interval > 1 && !is_assignment_writer(name) {
        return Err(
            "Parameter error: '--sample-interval' is only supported by assignment-producing writers.".to_string(),
        );
    }
    Ok(())
}

/// Whether a writer is the one that a name asks for, at its start.
pub open spec fn is_named(
    name: Seq<char>,
    cut_edges_count: bool,
    sample_interval: u64,
    writer: Writer,
) -> bool {
    if name == "tsv"@ {
        writer is Tsv
    } else if name == "jsonl"@ || name == "jsonl-full"@ {
        writer matches Writer::Jsonl(w) && w.lists_nodes() == (name == "jsonl-full"@)
            && w.counts_cut_edges() == cut_edges_count
    } else if name == "pcompress"@ {
        writer matches Writer::Pcompress(w) && w.interval() == sample_interval && w.last() == 0
    } else if name == "assignments"@ || name == "canonicalized-assignments"@ {
        writer matches Writer::Assignments(w) && w.interval() == sample_interval && w.last() == 0
            && w.renumbers() == (name == "canonicalized-assignments"@)
    } else if name == "canonical"@ {
        writer matches Writer::Canonical(w) && w.interval() == sample_interval && w.last() == 0
    } else {
        is_stream(sample_interval, writer)
    }
}

/// Whether a writer writes a stream of frames, at its start.
pub open spec fn is_stream(sample_interval: u64, writer: Writer) -> bool {
    writer matches Writer::Ben(w) && w.frames.interval() == sample_interval && w.frames.last() == 0
        && w.frames.samples() == 0
}

/// Whether a name is that of a writer to one file. A bundle is no such file.
pub open spec fn is_writer(name: Seq<char>) -> bool {
    name != "bendl"@ && (name == "tsv"@ || name == "jsonl"@ || name == "jsonl-full"@
        || writes_assignments(name))
}

/// The writer of the stream inside a bundle.
pub fn make_bundle_writer(sample_interval: u64) -> (r: Writer)
    requires
        sample_interval > 0,
    ensures
        is_stream(sample_interval, r),
{
    Writer::Ben(BenWriter::new().with_sample_interval(sample_interval))
}

/// The writer that a name asks for.
pub fn make_stats_writer(
    writer_str: &str,
    st_counts: bool,
    cut_edges_count: bool,
    sample_interval: u64,
) -> (r: Result<Writer, String>)
    requires
        sample_interval > 0,
    ensures
        is_writer(writer_str@) ==> (r matches Ok(writer) && is_named(
            writer_str@,
            cut_edges_count,
            sample_interval,
            writer,
        )),
        !is_writer(writer_str@) ==> (r matches Err(e) && e@ == "Parameter error: invalid writer '"@
            + writer_str@ + "'"@),
{
    proof {
        reveal_strlit("tsv");
        reveal_strlit("jsonl");
        reveal_strlit("jsonl-full");
        reveal_strlit("pcompress");
        reveal_strlit("assignments");
        reveal_strlit("canonicalized-assignments");
        reveal_strlit("canonical");
        reveal_strlit("ben");
        reveal_strlit("bendl");
        assert("jsonl"@.len() == 5 && "jsonl-full"@.len() == 10 && "pcompress"@.len() == 9);
        assert("assignments"@.len() == 11 && "canonicalized-assignments"@.len() == 25);
        assert("canonical"@.len() == 9 && "bendl"@.len() == 5);
        assert("jsonl"@[0] == 'j' && "bendl"@[0] == 'b');
        assert("ben"@.len() == 3 && "tsv"@.len() == 3 && "ben"@[0] == 'b' && "tsv"@[0] == 't');
    }
    if columns::str_eq(writer_str, "tsv") {
        return Ok(Writer::Tsv(TSVWriter::new()));
    }
    if columns::str_eq(writer_str, "jsonl") {
        return Ok(Writer::Jsonl(JSONLWriter::new(false, st_counts, cut_edges_count)));
    }
    if columns::str_eq(writer_str, "jsonl-full") {
        return Ok(Writer::Jsonl(JSONLWriter::new(true, st_counts, cut_edges_count)));
    }
    if columns::str_eq(writer_str, "pcompress") {
        return Ok(
            Writer::Pcompress(PcompressWriter::new().with_sample_interval(sample_interval)),
        );
    }
    if columns::str_eq(writer_str, "assignments") {
        return Ok(
            Writer::Assignments(
                AssignmentsOnlyWriter::new(false).with_sample_interval(sample_interval),
            ),
        );
    }
    if columns::str_eq(writer_str, "canonicalized-assignments") {
        return Ok(
            Writer::Assignments(
                AssignmentsOnlyWriter::new(true).with_sample_interval(sample_interval),
            ),
        );
    }
    if columns::str_eq(writer_str, "canonical") {
        return Ok(Writer::Canonical(CanonicalWriter::new().with_sample_interval(sample_interval)));
    }
    if columns::str_eq(writer_str, "ben") {
        return Ok(make_bundle_writer(sample_interval));
    }
    let mut out: String = "Parameter error: invalid writer '".to_string();
    out.append(writer_str);
    out.append("'");
    Err(out)
}

} // verus!
