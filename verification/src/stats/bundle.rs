//! Bundles: a stream of frames together with its graph and metadata.

use vstd::prelude::*;
use crate::graph::Graph;
use crate::partition::{Partition, Plan};
use crate::recom::proposal::{RecomProposal, Redraw};
use crate::stats::ben;
use crate::stats::counts::SelfLoopCounts;
use crate::stats::records::{Entry, Record};
use crate::stats::writers::{BenWriter, StatsWriter};

verus! {

/// Writes the stream of a bundle. The graph and the metadata are written before
/// it, and the number of samples behind it.
#[derive(Debug)]
pub struct BendlBenStreamWriter {
    pub stream: BenWriter,
    pub graph_bytes: Vec<u8>,
    pub metadata: Vec<u8>,
}

impl BendlBenStreamWriter {
    /// The bytes of the graph.
    pub open spec fn graph(&self) -> Seq<u8> {
        self.graph_bytes@
    }

    /// The bytes of the metadata.
    pub open spec fn meta(&self) -> Seq<u8> {
        self.metadata@
    }

    pub fn new(graph_bytes: Vec<u8>, metadata: Vec<u8>) -> (r: BendlBenStreamWriter)
        ensures
            r.graph() == graph_bytes@,
            r.meta() == metadata@,
            r.stream.frames.valid(),
            r.stream.frames.pending() == Seq::<u16>::empty(),
            r.stream.frames.since() == 0,
            r.stream.frames.last() == 0,
            r.stream.frames.interval() == 1,
            r.stream.frames.samples() == 0,
    {
        BendlBenStreamWriter { stream: BenWriter::new(), graph_bytes, metadata }
    }

    pub fn with_sample_interval(self, sample_interval: u64) -> (r: BendlBenStreamWriter)
        requires
            sample_interval > 0,
        ensures
            r.graph() == self.graph(),
            r.meta() == self.meta(),
            r.stream.frames.interval() == sample_interval,
            r.stream.frames.pending() == self.stream.frames.pending(),
            r.stream.frames.since() == self.stream.frames.since(),
            r.stream.frames.last() == self.stream.frames.last(),
            r.stream.frames.samples() == self.stream.frames.samples(),
    {
        BendlBenStreamWriter {
            stream: self.stream.with_sample_interval(sample_interval),
            graph_bytes: self.graph_bytes,
            metadata: self.metadata,
        }
    }

    /// The number of samples in the frames so far; after the end that of the
    /// whole stream.
    pub fn sample_count(&self) -> (r: u64)
        ensures
            r == self.stream.frames.samples(),
    {
        self.stream.frames.total_samples()
    }

    /// The bytes of the bundle, from those of the stream of frames. The number
    /// of samples must fit the header.
    pub fn bundle(&self, stream: &Vec<u8>) -> (r: Result<Vec<u8>, String>)
        ensures
            self.stream.frames.samples() > i64::MAX ==> (r matches Err(e) && e@
                == "BENDL sample count exceeds the i64 header field"@),
            self.stream.frames.samples() <= i64::MAX ==> match r {
                Ok(bytes) => ben::bundle_of(
                    self.graph(),
                    self.meta(),
                    stream@,
                    self.stream.frames.samples() as i64,
                ) == Some(bytes@),
                Err(_) => ben::bundle_of(
                    self.graph(),
                    self.meta(),
                    stream@,
                    self.stream.frames.samples() as i64,
                ) is None,
            },
    {
        ben::make_bundle(&self.graph_bytes, &self.metadata, stream, self.sample_count())
    }
}

impl StatsWriter for BendlBenStreamWriter {
    open spec fn starts(&self, graph: &Graph, partition: &Partition) -> bool {
        self.stream.starts(graph, partition)
    }

    open spec fn steps(
        &self,
        step: u64,
        graph: &Graph,
        partition: &Partition,
        proposal: &RecomProposal,
        counts: &SelfLoopCounts,
    ) -> bool {
        self.stream.steps(step, graph, partition, proposal, counts)
    }

    open spec fn loops(
        &self,
        step: u64,
        graph: &Graph,
        partition: &Partition,
        counts: &SelfLoopCounts,
    ) -> bool {
        self.stream.loops(step, graph, partition, counts)
    }

    open spec fn closes(&self) -> bool {
        self.stream.closes()
    }

    open spec fn stands(&self, graph: &Graph, plan: Plan, last: int) -> bool {
        self.stream.stands(graph, plan, last)
    }

    open spec fn begun(&self, graph: &Graph, plan: Plan, next: &Self) -> bool {
        &&& self.stream.begun(graph, plan, &next.stream)
        &&& next.graph() == self.graph()
        &&& next.meta() == self.meta()
    }

    open spec fn stepped(
        &self,
        step: int,
        graph: &Graph,
        plan: Plan,
        p: Redraw,
        counts: SelfLoopCounts,
        next: &Self,
    ) -> bool {
        &&& self.stream.stepped(step, graph, plan, p, counts, &next.stream)
        &&& next.graph() == self.graph()
        &&& next.meta() == self.meta()
    }

    open spec fn waited(
        &self,
        step: int,
        graph: &Graph,
        plan: Plan,
        counts: SelfLoopCounts,
        next: &Self,
    ) -> bool {
        &&& self.stream.waited(step, graph, plan, counts, &next.stream)
        &&& next.graph() == self.graph()
        &&& next.meta() == self.meta()
    }

    open spec fn ended(&self, next: &Self) -> bool {
        &&& self.stream.ended(&next.stream)
        &&& next.graph() == self.graph()
        &&& next.meta() == self.meta()
    }

    open spec fn seed_entries(&self, graph: &Graph, plan: Plan) -> Seq<Entry> {
        self.stream.seed_entries(graph, plan)
    }

    open spec fn step_entries(
        &self,
        step: int,
        graph: &Graph,
        plan: Plan,
        p: Redraw,
        counts: SelfLoopCounts,
    ) -> Seq<Entry> {
        self.stream.step_entries(step, graph, plan, p, counts)
    }

    open spec fn loop_entries(
        &self,
        step: int,
        graph: &Graph,
        plan: Plan,
        counts: SelfLoopCounts,
    ) -> Seq<Entry> {
        self.stream.loop_entries(step, graph, plan, counts)
    }

    open spec fn close_entries(&self) -> Seq<Entry> {
        self.stream.close_entries()
    }

    proof fn ready_to_step(
        &self,
        graph: &Graph,
        before: Plan,
        last: int,
        step: u64,
        partition: &Partition,
        proposal: &RecomProposal,
        counts: &SelfLoopCounts,
    ) {
        self.stream.ready_to_step(graph, before, last, step, partition, proposal, counts);
    }

    proof fn ready_to_wait(
        &self,
        graph: &Graph,
        partition: &Partition,
        last: int,
        step: u64,
        counts: &SelfLoopCounts,
    ) {
        self.stream.ready_to_wait(graph, partition, last, step, counts);
    }

    proof fn ready_to_close(&self, graph: &Graph, plan: Plan, last: int) {
        self.stream.ready_to_close(graph, plan, last);
    }

    fn init(&mut self, graph: &Graph, partition: &Partition) -> (r: Vec<Record>) {
        self.stream.init(graph, partition)
    }

    fn step(
        &mut self,
        step: u64,
        graph: &Graph,
        partition: &Partition,
        proposal: &RecomProposal,
        counts: &SelfLoopCounts,
    ) -> (r: Vec<Record>) {
        self.stream.step(step, graph, partition, proposal, counts)
    }

    fn self_loop(
        &mut self,
        step: u64,
        graph: &Graph,
        partition: &Partition,
        counts: &SelfLoopCounts,
    ) -> (r: Vec<Record>) {
        self.stream.self_loop(step, graph, partition, counts)
    }

    fn close(&mut self) -> (r: Vec<Record>) {
        self.stream.close()
    }
}

} // verus!
