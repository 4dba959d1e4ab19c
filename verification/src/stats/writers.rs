//! Writers: what each output format records of a chain.

use vstd::prelude::*;
use crate::graph::Graph;
use crate::partition::{Partition, Plan};
use crate::recom::proposal::{RecomProposal, Redraw};
use crate::stats::counts::{SelfLoopCounts, SelfLoopReason};
use crate::stats::frames::TwoDeltaFrameBuffer;
use crate::stats::records::{Entry, Record, Row};
use crate::stats::{canonical, frames, records, sampling, sums};
use crate::text;
use crate::vectors;

verus! {

/// What an output format records of a chain.
pub trait StatsWriter {
    /// Whether the writer can be started on a plan.
    spec fn starts(&self, graph: &Graph, partition: &Partition) -> bool;

    /// Whether an accepted step follows what the writer has seen.
    spec fn steps(
        &self,
        step: u64,
        graph: &Graph,
        partition: &Partition,
        proposal: &RecomProposal,
        counts: &SelfLoopCounts,
    ) -> bool;

    /// Whether trailing self-loops follow what the writer has seen.
    spec fn loops(
        &self,
        step: u64,
        graph: &Graph,
        partition: &Partition,
        counts: &SelfLoopCounts,
    ) -> bool;

    /// Whether the writer can be closed.
    spec fn closes(&self) -> bool;

    /// Whether the writer has recorded the positions up to `last`, where the
    /// chain is at a plan.
    spec fn stands(&self, graph: &Graph, plan: Plan, last: int) -> bool;

    /// Whether the writer becomes another when it records the seed plan.
    spec fn begun(&self, graph: &Graph, plan: Plan, next: &Self) -> bool;

    /// Whether the writer becomes another when it records an accepted proposal
    /// that led to a plan.
    spec fn stepped(
        &self,
        step: int,
        graph: &Graph,
        plan: Plan,
        p: Redraw,
        counts: SelfLoopCounts,
        next: &Self,
    ) -> bool;

    /// Whether the writer becomes another when it records trailing self-loops.
    spec fn waited(
        &self,
        step: int,
        graph: &Graph,
        plan: Plan,
        counts: SelfLoopCounts,
        next: &Self,
    ) -> bool;

    /// Whether the writer becomes another at the end of the output.
    spec fn ended(&self, next: &Self) -> bool;

    /// What is recorded of the seed plan.
    spec fn seed_entries(&self, graph: &Graph, plan: Plan) -> Seq<Entry>;

    /// What is recorded of an accepted proposal that led to a plan.
    spec fn step_entries(
        &self,
        step: int,
        graph: &Graph,
        plan: Plan,
        p: Redraw,
        counts: SelfLoopCounts,
    ) -> Seq<Entry>;

    /// What is recorded of trailing self-loops.
    spec fn loop_entries(
        &self,
        step: int,
        graph: &Graph,
        plan: Plan,
        counts: SelfLoopCounts,
    ) -> Seq<Entry>;

    /// What is recorded at the end.
    spec fn close_entries(&self) -> Seq<Entry>;

    /// A writer that stands at a plan takes the next accepted step.
    proof fn ready_to_step(
        &self,
        graph: &Graph,
        before: Plan,
        last: int,
        step: u64,
        partition: &Partition,
        proposal: &RecomProposal,
        counts: &SelfLoopCounts,
    )
        requires
            self.stands(graph, before, last),
            next_step(graph, before, partition@, last, step, *counts),
            sums::nodes_within(proposal@.a_nodes, graph.order()),
            sums::nodes_within(proposal@.b_nodes, graph.order()),
        ensures
            self.steps(step, graph, partition, proposal, counts),
    ;

    /// A writer that stands at a plan takes trailing self-loops.
    proof fn ready_to_wait(
        &self,
        graph: &Graph,
        partition: &Partition,
        last: int,
        step: u64,
        counts: &SelfLoopCounts,
    )
        requires
            self.stands(graph, partition@, last),
            next_loops(graph, partition@, last, step, *counts),
        ensures
            self.loops(step, graph, partition, counts),
    ;

    /// A writer that stands at a plan can be closed.
    proof fn ready_to_close(&self, graph: &Graph, plan: Plan, last: int)
        requires
            self.stands(graph, plan, last),
        ensures
            self.closes(),
    ;

    /// The records of the seed plan.
    fn init(&mut self, graph: &Graph, partition: &Partition) -> (r: Vec<Record>)
        requires
            old(self).starts(graph, partition),
        ensures
            records::entries(r@) == old(self).seed_entries(graph, partition@),
            old(self).begun(graph, partition@, final(self)),
            final(self).stands(graph, partition@, 0),
    ;

    /// The records of an accepted proposal that was applied to `partition`.
    fn step(
        &mut self,
        step: u64,
        graph: &Graph,
        partition: &Partition,
        proposal: &RecomProposal,
        counts: &SelfLoopCounts,
    ) -> (r: Vec<Record>)
        requires
            old(self).steps(step, graph, partition, proposal, counts),
        ensures
            records::entries(r@) == old(self).step_entries(
                step as int,
                graph,
                partition@,
                proposal@,
                *counts,
            ),
            old(self).stepped(
                step as int,
                graph,
                partition@,
                proposal@,
                *counts,
                final(self),
            ),
            forall|before: Plan, last: int| #[trigger]
                old(self).stands(graph, before, last) && next_step(
                    graph,
                    before,
                    partition@,
                    last,
                    step,
                    *counts,
                ) ==> final(self).stands(graph, partition@, step as int),
    ;

    /// The records of the self-loops after the last accepted proposal.
    fn self_loop(
        &mut self,
        step: u64,
        graph: &Graph,
        partition: &Partition,
        counts: &SelfLoopCounts,
    ) -> (r: Vec<Record>)
        requires
            old(self).loops(step, graph, partition, counts),
        ensures
            records::entries(r@) == old(self).loop_entries(
                step as int,
                graph,
                partition@,
                *counts,
            ),
            old(self).waited(step as int, graph, partition@, *counts, final(self)),
            forall|last: int| #[trigger]
                old(self).stands(graph, partition@, last) && next_loops(
                    graph,
                    partition@,
                    last,
                    step,
                    *counts,
                ) ==> final(self).stands(graph, partition@, step as int),
    ;

    /// The records that end the output.
    fn close(&mut self) -> (r: Vec<Record>)
        requires
            old(self).closes(),
        ensures
            records::entries(r@) == old(self).close_entries(),
            old(self).ended(final(self)),
    ;
}

/// An accepted step at a position takes a chain from one plan to another,
/// after the counted self-loops.
pub open spec fn next_step(
    graph: &Graph,
    before: Plan,
    after: Plan,
    last: int,
    step: u64,
    counts: SelfLoopCounts,
) -> bool {
    &&& graph.sound()
    &&& before.valid()
    &&& after.valid()
    &&& before.assignments.len() == graph.order()
    &&& after.assignments.len() == graph.order()
    &&& before.num_dists == after.num_dists
    &&& counts.total() <= usize::MAX
    &&& step < u64::MAX
    &&& step == last + counts.total() + 1
}

/// A chain stays at a plan for the counted self-loops, up to a position.
pub open spec fn next_loops(
    graph: &Graph,
    plan: Plan,
    last: int,
    step: u64,
    counts: SelfLoopCounts,
) -> bool {
    &&& graph.sound()
    &&& plan.valid()
    &&& plan.assignments.len() == graph.order()
    &&& counts.total() <= usize::MAX
    &&& step < u64::MAX
    &&& step == last + counts.total()
}

/// Writes one line per accepted proposal, in tab-separated columns.
#[derive(Debug)]
pub struct TSVWriter {}

/// The header line of the tab-separated format.
pub open spec fn tsv_header() -> Seq<char> {
    "step\tnon_adjacent\tno_split\tseam_length\ttilted_rejection\ta_label\tb_label\ta_pop\tb_pop\ta_nodes\tb_nodes\tconstraint_violation\n"@
}

/// The step and the counts that stand before the proposal columns.
pub open spec fn tsv_counts(step: int, counts: SelfLoopCounts) -> Seq<char> {
    text::decimal(step as nat) + "\t"@ + text::decimal(counts.non_adjacent as nat) + "\t"@
        + text::decimal(counts.no_split as nat) + "\t"@ + text::decimal(counts.seam_length as nat)
        + "\t"@ + text::decimal(counts.tilted_rejection as nat) + "\t"@
}

/// The line of an accepted proposal.
pub open spec fn tsv_step(step: int, p: Redraw, counts: SelfLoopCounts) -> Seq<char> {
    tsv_counts(step, counts) + text::decimal(p.a_label) + "\t"@ + text::decimal(p.b_label) + "\t"@
        + text::decimal(p.a_pop) + "\t"@ + text::decimal(p.b_pop) + "\t"@ + text::bracketed(
        text::index_numbers(p.a_nodes),
    ) + "\t"@ + text::bracketed(text::index_numbers(p.b_nodes)) + "\t"@ + text::decimal(
        counts.constraint_violation as nat,
    ) + "\n"@
}

/// The line of trailing self-loops: the six proposal columns are blank.
pub open spec fn tsv_loop(step: int, counts: SelfLoopCounts) -> Seq<char> {
    tsv_counts(step, counts) + "\t\t\t\t\t\t"@ + text::decimal(counts.constraint_violation as nat)
        + "\n"@
}

fn push_tsv_counts(out: &mut String, step: u64, counts: &SelfLoopCounts)
    ensures
        final(out)@ == old(out)@ + tsv_counts(step as int, *counts),
{
    let ghost start = out@;
    text::push_number(out, step);
    out.append("\t");
    text::push_number(out, counts.non_adjacent as u64);
    out.append("\t");
    text::push_number(out, counts.no_split as u64);
    out.append("\t");
    text::push_number(out, counts.seam_length as u64);
    out.append("\t");
    text::push_number(out, counts.tilted_rejection as u64);
    out.append("\t");
    assert(out@ =~= start + tsv_counts(step as int, *counts));
}

fn only(record: Record) -> (r: Vec<Record>)
    ensures
        records::entries(r@) == seq![record@],
{
    let mut r: Vec<Record> = Vec::new();
    r.push(record);
    assert(records::entries(r@) =~= seq![record@]);
    r
}

fn nothing() -> (r: Vec<Record>)
    ensures
        records::entries(r@) == Seq::<Entry>::empty(),
{
    let r: Vec<Record> = Vec::new();
    assert(records::entries(r@) =~= Seq::<Entry>::empty());
    r
}

impl TSVWriter {
    pub fn new() -> (r: TSVWriter)
        ensures
            r == (TSVWriter {  }),
    {
        TSVWriter {  }
    }
}

impl StatsWriter for TSVWriter {
    open spec fn starts(&self, graph: &Graph, partition: &Partition) -> bool {
        true
    }

    open spec fn steps(
        &self,
        step: u64,
        graph: &Graph,
        partition: &Partition,
        proposal: &RecomProposal,
        counts: &SelfLoopCounts,
    ) -> bool {
        true
    }

    open spec fn loops(
        &self,
        step: u64,
        graph: &Graph,
        partition: &Partition,
        counts: &SelfLoopCounts,
    ) -> bool {
        true
    }

    open spec fn closes(&self) -> bool {
        true
    }

    open spec fn stands(&self, graph: &Graph, plan: Plan, last: int) -> bool {
        true
    }

    open spec fn begun(&self, graph: &Graph, plan: Plan, next: &Self) -> bool {
        next == self
    }

    open spec fn stepped(
        &self,
        step: int,
        graph: &Graph,
        plan: Plan,
        p: Redraw,
        counts: SelfLoopCounts,
        next: &Self,
    ) -> bool {
        next == self
    }

    open spec fn waited(
        &self,
        step: int,
        graph: &Graph,
        plan: Plan,
        counts: SelfLoopCounts,
        next: &Self,
    ) -> bool {
        next == self
    }

    open spec fn ended(&self, next: &Self) -> bool {
        self == next
    }

    open spec fn seed_entries(&self, graph: &Graph, plan: Plan) -> Seq<Entry> {
        seq![Entry::Text(tsv_header())]
    }

    open spec fn step_entries(
        &self,
        step: int,
        graph: &Graph,
        plan: Plan,
        p: Redraw,
        counts: SelfLoopCounts,
    ) -> Seq<Entry> {
        seq![Entry::Text(tsv_step(step, p, counts))]
    }

    open spec fn loop_entries(
        &self,
        step: int,
        graph: &Graph,
        plan: Plan,
        counts: SelfLoopCounts,
    ) -> Seq<Entry> {
        seq![Entry::Text(tsv_loop(step, counts))]
    }

    open spec fn close_entries(&self) -> Seq<Entry> {
        Seq::empty()
    }

    proof fn ready_to_step(
        &self,
        graph: &Graph,
        before: Plan,
        last: int,
        step: u64,
        partition: &Partition,
        proposal: &RecomProposal,
        counts: &SelfLoopCounts,
    ) {
    }

    proof fn ready_to_wait(
        &self,
        graph: &Graph,
        partition: &Partition,
        last: int,
        step: u64,
        counts: &SelfLoopCounts,
    ) {
    }

    proof fn ready_to_close(&self, graph: &Graph, plan: Plan, last: int) {
    }

    fn init(&mut self, graph: &Graph, partition: &Partition) -> (r: Vec<Record>)
        ensures
            records::entries(r@) == seq![Entry::Text(tsv_header())],
    {
        only(
            Record::Text(
                "step\tnon_adjacent\tno_split\tseam_length\ttilted_rejection\ta_label\tb_label\ta_pop\tb_pop\ta_nodes\tb_nodes\tconstraint_violation\n".to_string(),
            ),
        )
    }

    fn step(
        &mut self,
        step: u64,
        graph: &Graph,
        partition: &Partition,
        proposal: &RecomProposal,
        counts: &SelfLoopCounts,
    ) -> (r: Vec<Record>)
        ensures
            records::entries(r@) == seq![Entry::Text(tsv_step(step as int, proposal@, *counts))],
    {
        let mut out: String = String::new();
        push_tsv_counts(&mut out, step, counts);
        text::push_number(&mut out, proposal.a_label as u64);
        out.append("\t");
        text::push_number(&mut out, proposal.b_label as u64);
        out.append("\t");
        text::push_number(&mut out, proposal.a_pop as u64);
        out.append("\t");
        text::push_number(&mut out, proposal.b_pop as u64);
        out.append("\t");
        text::push_indices(&mut out, &proposal.a_nodes);
        out.append("\t");
        text::push_indices(&mut out, &proposal.b_nodes);
        out.append("\t");
        text::push_number(&mut out, counts.constraint_violation as u64);
        out.append("\n");
        assert(out@ =~= tsv_step(step as int, proposal@, *counts));
        only(Record::Text(out))
    }

    fn self_loop(
        &mut self,
        step: u64,
        graph: &Graph,
        partition: &Partition,
        counts: &SelfLoopCounts,
    ) -> (r: Vec<Record>)
        ensures
            records::entries(r@) == seq![Entry::Text(tsv_loop(step as int, *counts))],
    {
        let mut out: String = String::new();
        push_tsv_counts(&mut out, step, counts);
        out.append("\t\t\t\t\t\t");
        text::push_number(&mut out, counts.constraint_violation as u64);
        out.append("\n");
        assert(out@ =~= tsv_loop(step as int, *counts));
        only(Record::Text(out))
    }

    fn close(&mut self) -> (r: Vec<Record>)
        ensures
            records::entries(r@) == Seq::<Entry>::empty(),
    {
        nothing()
    }
}

/// Writes the position and the labels of every sampled plan.
#[derive(Debug)]
pub struct AssignmentsOnlyWriter {
    canonicalize: bool,
    previous_assignment: Vec<u32>,
    last_step: u64,
    sample_interval: u64,
}

impl AssignmentsOnlyWriter {
    pub closed spec fn renumbers(&self) -> bool {
        self.canonicalize
    }

    /// The labels last written or waiting to be.
    pub closed spec fn previous(&self) -> Seq<u32> {
        self.previous_assignment@
    }

    /// The last position covered.
    pub closed spec fn last(&self) -> int {
        self.last_step as int
    }

    pub closed spec fn interval(&self) -> int {
        self.sample_interval as int
    }

    /// The labels that are written for a plan.
    pub open spec fn labels(&self, assignments: Seq<u32>) -> Seq<u32> {
        if self.renumbers() {
            canonical::canonical(assignments)
        } else {
            assignments
        }
    }

    pub fn new(canonicalize: bool) -> (r: AssignmentsOnlyWriter)
        ensures
            r.renumbers() == canonicalize,
            r.previous() == Seq::<u32>::empty(),
            r.last() == 0,
            r.interval() == 1,
    {
        AssignmentsOnlyWriter {
            canonicalize,
            previous_assignment: Vec::new(),
            last_step: 0,
            sample_interval: 1,
        }
    }

    pub fn with_sample_interval(self, sample_interval: u64) -> (r: AssignmentsOnlyWriter)
        requires
            sample_interval > 0,
        ensures
            r.interval() == sample_interval,
            r.renumbers() == self.renumbers(),
            r.previous() == self.previous(),
            r.last() == self.last(),
    {
        AssignmentsOnlyWriter {
            canonicalize: self.canonicalize,
            previous_assignment: self.previous_assignment,
            last_step: self.last_step,
            sample_interval,
        }
    }

    /// The labels of a plan, renumbered by order of appearance.
    pub fn canonicalize_assignments(&self, partition: &Partition) -> (r: Vec<u32>)
        requires
            partition@.valid(),
        ensures
            r@ == canonical::canonical(partition@.assignments),
    {
        canonical::canonicalize(&partition.assignments, partition.num_dists)
    }

    /// The labels that are written for a plan.
    pub fn assignment(&self, partition: &Partition) -> (r: Vec<u32>)
        requires
            partition@.valid(),
        ensures
            r@ == self.labels(partition@.assignments),
    {
        if self.canonicalize {
            self.canonicalize_assignments(partition)
        } else {
            vectors::copied(&partition.assignments)
        }
    }

    /// The record of a plan's labels at a position.
    pub fn write_assignment(&self, step: u64, assignment: &Vec<u32>) -> (r: Record)
        ensures
            r@ == Entry::Text(records::assignment_line((step as int, assignment@))),
    {
        records::assignment_record(step, assignment)
    }

    /// The records of the last plan at the sampled positions of a range.
    fn repeat(&self, from: u64, to: u64) -> (r: Vec<Record>)
        requires
            self.interval() > 0,
        ensures
            records::entries(r@) == records::assignment_lines(
                records::rows_at(
                    sampling::sampled(from as int, to as int, self.interval()),
                    self.previous(),
                ),
            ),
    {
        let positions: Vec<u64> = sampling::sampled_steps(from, to, self.sample_interval);
        let mut r: Vec<Record> = Vec::new();
        let ghost rows = records::rows_at(
            sampling::sampled(from as int, to as int, self.interval()),
            self.previous(),
        );
        let mut i: usize = 0;
        while i < positions.len()
            invariant
                i <= positions.len(),
                positions.len() == rows.len(),
                r.len() == i,
                forall|j: int|
                    0 <= j < positions.len() ==> rows[j] == ((#[trigger] positions[j]) as int, self.previous()),
                forall|j: int|
                    0 <= j < i ==> (#[trigger] r[j])@ == Entry::Text(
                        records::assignment_line(rows[j]),
                    ),
            decreases positions.len() - i,
        {
            r.push(self.write_assignment(positions[i], &self.previous_assignment));
            i += 1;
        }
        assert(records::entries(r@) =~= records::assignment_lines(rows));
        r
    }
}

impl StatsWriter for AssignmentsOnlyWriter {
    open spec fn starts(&self, graph: &Graph, partition: &Partition) -> bool {
        &&& partition@.valid()
        &&& self.interval() > 0
    }

    open spec fn steps(
        &self,
        step: u64,
        graph: &Graph,
        partition: &Partition,
        proposal: &RecomProposal,
        counts: &SelfLoopCounts,
    ) -> bool {
        &&& partition@.valid()
        &&& self.interval() > 0
        &&& step == self.last() + counts.total() + 1
    }

    open spec fn loops(
        &self,
        step: u64,
        graph: &Graph,
        partition: &Partition,
        counts: &SelfLoopCounts,
    ) -> bool {
        &&& self.interval() > 0
        &&& self.last() < u64::MAX
        &&& step == self.last() + counts.total()
    }

    open spec fn closes(&self) -> bool {
        true
    }

    open spec fn stands(&self, graph: &Graph, plan: Plan, last: int) -> bool {
        &&& self.interval() > 0
        &&& self.last() == last
        &&& self.previous() == self.labels(plan.assignments)
    }

    open spec fn begun(&self, graph: &Graph, plan: Plan, next: &Self) -> bool {
        &&& next.previous() == self.labels(plan.assignments)
        &&& next.last() == 0
        &&& next.renumbers() == self.renumbers()
        &&& next.interval() == self.interval()
    }

    open spec fn stepped(
        &self,
        step: int,
        graph: &Graph,
        plan: Plan,
        p: Redraw,
        counts: SelfLoopCounts,
        next: &Self,
    ) -> bool {
        &&& next.previous() == self.labels(plan.assignments)
        &&& next.last() == step
        &&& next.renumbers() == self.renumbers()
        &&& next.interval() == self.interval()
    }

    open spec fn waited(
        &self,
        step: int,
        graph: &Graph,
        plan: Plan,
        counts: SelfLoopCounts,
        next: &Self,
    ) -> bool {
        &&& next.previous() == self.previous()
        &&& next.last() == step
        &&& next.renumbers() == self.renumbers()
        &&& next.interval() == self.interval()
    }

    open spec fn ended(&self, next: &Self) -> bool {
        self == next
    }

    open spec fn seed_entries(&self, graph: &Graph, plan: Plan) -> Seq<Entry> {
        records::assignment_lines(seq![(0int, self.labels(plan.assignments))])
    }

    open spec fn step_entries(
        &self,
        step: int,
        graph: &Graph,
        plan: Plan,
        p: Redraw,
        counts: SelfLoopCounts,
    ) -> Seq<Entry> {
        records::assignment_lines(
            records::step_rows(
                self.previous(),
                self.last(),
                step,
                self.labels(plan.assignments),
                self.interval(),
            ),
        )
    }

    open spec fn loop_entries(
        &self,
        step: int,
        graph: &Graph,
        plan: Plan,
        counts: SelfLoopCounts,
    ) -> Seq<Entry> {
        records::assignment_lines(
            records::loop_rows(self.previous(), self.last(), step, self.interval()),
        )
    }

    open spec fn close_entries(&self) -> Seq<Entry> {
        Seq::empty()
    }

    proof fn ready_to_step(
        &self,
        graph: &Graph,
        before: Plan,
        last: int,
        step: u64,
        partition: &Partition,
        proposal: &RecomProposal,
        counts: &SelfLoopCounts,
    ) {
    }

    proof fn ready_to_wait(
        &self,
        graph: &Graph,
        partition: &Partition,
        last: int,
        step: u64,
        counts: &SelfLoopCounts,
    ) {
    }

    proof fn ready_to_close(&self, graph: &Graph, plan: Plan, last: int) {
    }

    fn init(&mut self, graph: &Graph, partition: &Partition) -> (r: Vec<Record>)
        ensures
            records::entries(r@) == records::assignment_lines(
                seq![(0int, old(self).labels(partition@.assignments))],
            ),
            final(self).previous() == old(self).labels(partition@.assignments),
            final(self).last() == 0,
            final(self).renumbers() == old(self).renumbers(),
            final(self).interval() == old(self).interval(),
    {
        let assignment: Vec<u32> = self.assignment(partition);
        let r: Vec<Record> = only(self.write_assignment(0, &assignment));
        assert(records::entries(r@) =~= records::assignment_lines(seq![(0int, assignment@)]));
        self.previous_assignment = assignment;
        self.last_step = 0;
        r
    }

    fn step(
        &mut self,
        step: u64,
        graph: &Graph,
        partition: &Partition,
        proposal: &RecomProposal,
        counts: &SelfLoopCounts,
    ) -> (r: Vec<Record>)
        ensures
            records::entries(r@) == records::assignment_lines(
                records::step_rows(
                    old(self).previous(),
                    old(self).last(),
                    step as int,
                    old(self).labels(partition@.assignments),
                    old(self).interval(),
                ),
            ),
            final(self).previous() == old(self).labels(partition@.assignments),
            final(self).last() == step,
            final(self).renumbers() == old(self).renumbers(),
            final(self).interval() == old(self).interval(),
    {
        let mut r: Vec<Record> = self.repeat(self.last_step + 1, step - 1);
        let assignment: Vec<u32> = self.assignment(partition);
        if step % self.sample_interval == 0 {
            let ghost before = r@;
            let line: Record = self.write_assignment(step, &assignment);
            r.push(line);
            proof {
                records::entries_pushed(before, line);
            }
        }
        assert(records::entries(r@) =~= records::assignment_lines(
            records::step_rows(
                self.previous(),
                self.last(),
                step as int,
                assignment@,
                self.interval(),
            ),
        ));
        self.previous_assignment = assignment;
        self.last_step = step;
        r
    }

    fn self_loop(
        &mut self,
        step: u64,
        graph: &Graph,
        partition: &Partition,
        counts: &SelfLoopCounts,
    ) -> (r: Vec<Record>)
        ensures
            records::entries(r@) == records::assignment_lines(
                records::loop_rows(
                    old(self).previous(),
                    old(self).last(),
                    step as int,
                    old(self).interval(),
                ),
            ),
            final(self).previous() == old(self).previous(),
            final(self).last() == step,
            final(self).renumbers() == old(self).renumbers(),
            final(self).interval() == old(self).interval(),
    {
        let r: Vec<Record> = self.repeat(self.last_step + 1, step);
        self.last_step = step;
        r
    }

    fn close(&mut self) -> (r: Vec<Record>)
        ensures
            records::entries(r@) == Seq::<Entry>::empty(),
    {
        nothing()
    }
}

/// Writes every sampled plan as a JSON object with its sample number, counted
/// from 1.
#[derive(Debug)]
pub struct CanonicalWriter {
    previous_assignment: Vec<u32>,
    last_step: u64,
    sample_interval: u64,
}

impl CanonicalWriter {
    pub closed spec fn previous(&self) -> Seq<u32> {
        self.previous_assignment@
    }

    pub closed spec fn last(&self) -> int {
        self.last_step as int
    }

    pub closed spec fn interval(&self) -> int {
        self.sample_interval as int
    }

    pub fn new() -> (r: CanonicalWriter)
        ensures
            r.previous() == Seq::<u32>::empty(),
            r.last() == 0,
            r.interval() == 1,
    {
        CanonicalWriter { previous_assignment: Vec::new(), last_step: 0, sample_interval: 1 }
    }

    pub fn with_sample_interval(self, sample_interval: u64) -> (r: CanonicalWriter)
        requires
            sample_interval > 0,
        ensures
            r.interval() == sample_interval,
            r.previous() == self.previous(),
            r.last() == self.last(),
    {
        CanonicalWriter {
            previous_assignment: self.previous_assignment,
            last_step: self.last_step,
            sample_interval,
        }
    }

    /// The record of a plan at a chain position.
    pub fn write_sample(&self, chain_step: u64, assignment: &Vec<u32>) -> (r: Record)
        requires
            chain_step < u64::MAX,
        ensures
            r@ == Entry::Text(records::sample_line((chain_step as int, assignment@))),
    {
        records::sample_record(chain_step, assignment)
    }

    fn repeat(&self, from: u64, to: u64) -> (r: Vec<Record>)
        requires
            self.interval() > 0,
            to < u64::MAX,
        ensures
            records::entries(r@) == records::sample_lines(
                records::rows_at(
                    sampling::sampled(from as int, to as int, self.interval()),
                    self.previous(),
                ),
            ),
    {
        let positions: Vec<u64> = sampling::sampled_steps(from, to, self.sample_interval);
        let mut r: Vec<Record> = Vec::new();
        let ghost range = sampling::sampled(from as int, to as int, self.interval());
        let ghost rows = records::rows_at(range, self.previous());
        proof {
            sampling::sampled_are_the_multiples(from as int, to as int, self.interval());
        }
        let mut i: usize = 0;
        while i < positions.len()
            invariant
                i <= positions.len(),
                positions.len() == rows.len(),
                positions.len() == range.len(),
                to < u64::MAX,
                forall|x: int| #[trigger] range.contains(x) ==> x <= to,
                r.len() == i,
                forall|j: int| 0 <= j < positions.len() ==> (#[trigger] positions[j]) == range[j],
                forall|j: int|
                    0 <= j < positions.len() ==> #[trigger] rows[j] == (range[j], self.previous()),
                forall|j: int|
                    0 <= j < i ==> (#[trigger] r[j])@ == Entry::Text(records::sample_line(rows[j])),
            decreases positions.len() - i,
        {
            assert(range.contains(range[i as int]));
            r.push(self.write_sample(positions[i], &self.previous_assignment));
            i += 1;
        }
        assert(records::entries(r@) =~= records::sample_lines(rows));
        r
    }
}

impl StatsWriter for CanonicalWriter {
    open spec fn starts(&self, graph: &Graph, partition: &Partition) -> bool {
        self.interval() > 0
    }

    open spec fn steps(
        &self,
        step: u64,
        graph: &Graph,
        partition: &Partition,
        proposal: &RecomProposal,
        counts: &SelfLoopCounts,
    ) -> bool {
        &&& self.interval() > 0
        &&& step < u64::MAX
        &&& step == self.last() + counts.total() + 1
    }

    open spec fn loops(
        &self,
        step: u64,
        graph: &Graph,
        partition: &Partition,
        counts: &SelfLoopCounts,
    ) -> bool {
        &&& self.interval() > 0
        &&& step < u64::MAX
        &&& step == self.last() + counts.total()
    }

    open spec fn closes(&self) -> bool {
        true
    }

    open spec fn stands(&self, graph: &Graph, plan: Plan, last: int) -> bool {
        &&& self.interval() > 0
        &&& self.last() == last
        &&& self.previous() == plan.assignments
    }

    open spec fn begun(&self, graph: &Graph, plan: Plan, next: &Self) -> bool {
        &&& next.previous() == plan.assignments
        &&& next.last() == 0
        &&& next.interval() == self.interval()
    }

    open spec fn stepped(
        &self,
        step: int,
        graph: &Graph,
        plan: Plan,
        p: Redraw,
        counts: SelfLoopCounts,
        next: &Self,
    ) -> bool {
        &&& next.previous() == plan.assignments
        &&& next.last() == step
        &&& next.interval() == self.interval()
    }

    open spec fn waited(
        &self,
        step: int,
        graph: &Graph,
        plan: Plan,
        counts: SelfLoopCounts,
        next: &Self,
    ) -> bool {
        &&& next.previous() == self.previous()
        &&& next.last() == step
        &&& next.interval() == self.interval()
    }

    open spec fn ended(&self, next: &Self) -> bool {
        self == next
    }

    open spec fn seed_entries(&self, graph: &Graph, plan: Plan) -> Seq<Entry> {
        records::sample_lines(seq![(0int, plan.assignments)])
    }

    open spec fn step_entries(
        &self,
        step: int,
        graph: &Graph,
        plan: Plan,
        p: Redraw,
        counts: SelfLoopCounts,
    ) -> Seq<Entry> {
        records::sample_lines(
            records::step_rows(
                self.previous(),
                self.last(),
                step,
                plan.assignments,
                self.interval(),
            ),
        )
    }

    open spec fn loop_entries(
        &self,
        step: int,
        graph: &Graph,
        plan: Plan,
        counts: SelfLoopCounts,
    ) -> Seq<Entry> {
        records::sample_lines(
            records::loop_rows(self.previous(), self.last(), step, self.interval()),
        )
    }

    open spec fn close_entries(&self) -> Seq<Entry> {
        Seq::empty()
    }

    proof fn ready_to_step(
        &self,
        graph: &Graph,
        before: Plan,
        last: int,
        step: u64,
        partition: &Partition,
        proposal: &RecomProposal,
        counts: &SelfLoopCounts,
    ) {
    }

    proof fn ready_to_wait(
        &self,
        graph: &Graph,
        partition: &Partition,
        last: int,
        step: u64,
        counts: &SelfLoopCounts,
    ) {
    }

    proof fn ready_to_close(&self, graph: &Graph, plan: Plan, last: int) {
    }

    fn init(&mut self, graph: &Graph, partition: &Partition) -> (r: Vec<Record>)
        ensures
            records::entries(r@) == records::sample_lines(seq![(0int, partition@.assignments)]),
            final(self).previous() == partition@.assignments,
            final(self).last() == 0,
            final(self).interval() == old(self).interval(),
    {
        let assignment: Vec<u32> = vectors::copied(&partition.assignments);
        let r: Vec<Record> = only(self.write_sample(0, &assignment));
        assert(records::entries(r@) =~= records::sample_lines(seq![(0int, assignment@)]));
        self.previous_assignment = assignment;
        self.last_step = 0;
        r
    }

    fn step(
        &mut self,
        step: u64,
        graph: &Graph,
        partition: &Partition,
        proposal: &RecomProposal,
        counts: &SelfLoopCounts,
    ) -> (r: Vec<Record>)
        ensures
            records::entries(r@) == records::sample_lines(
                records::step_rows(
                    old(self).previous(),
                    old(self).last(),
                    step as int,
                    partition@.assignments,
                    old(self).interval(),
                ),
            ),
            final(self).previous() == partition@.assignments,
            final(self).last() == step,
            final(self).interval() == old(self).interval(),
    {
        let mut r: Vec<Record> = self.repeat(self.last_step + 1, step - 1);
        let assignment: Vec<u32> = vectors::copied(&partition.assignments);
        if step % self.sample_interval == 0 {
            let ghost before = r@;
            let line: Record = self.write_sample(step, &assignment);
            r.push(line);
            proof {
                records::entries_pushed(before, line);
            }
        }
        assert(records::entries(r@) =~= records::sample_lines(
            records::step_rows(
                self.previous(),
                self.last(),
                step as int,
                assignment@,
                self.interval(),
            ),
        ));
        self.previous_assignment = assignment;
        self.last_step = step;
        r
    }

    fn self_loop(
        &mut self,
        step: u64,
        graph: &Graph,
        partition: &Partition,
        counts: &SelfLoopCounts,
    ) -> (r: Vec<Record>)
        ensures
            records::entries(r@) == records::sample_lines(
                records::loop_rows(
                    old(self).previous(),
                    old(self).last(),
                    step as int,
                    old(self).interval(),
                ),
            ),
            final(self).previous() == old(self).previous(),
            final(self).last() == step,
            final(self).interval() == old(self).interval(),
    {
        let r: Vec<Record> = self.repeat(self.last_step + 1, step);
        self.last_step = step;
        r
    }

    fn close(&mut self) -> (r: Vec<Record>)
        ensures
            records::entries(r@) == Seq::<Entry>::empty(),
    {
        nothing()
    }
}

/// Writes run-length frames of the sampled plans.
#[derive(Debug)]
pub struct BenWriter {
    pub frames: TwoDeltaFrameBuffer,
}

impl BenWriter {
    pub fn new() -> (r: BenWriter)
        ensures
            r.frames.valid(),
            r.frames.pending() == Seq::<u16>::empty(),
            r.frames.since() == 0,
            r.frames.last() == 0,
            r.frames.interval() == 1,
            r.frames.samples() == 0,
    {
        BenWriter { frames: TwoDeltaFrameBuffer::new() }
    }

    pub fn with_sample_interval(self, sample_interval: u64) -> (r: BenWriter)
        requires
            sample_interval > 0,
        ensures
            r.frames.interval() == sample_interval,
            r.frames.pending() == self.frames.pending(),
            r.frames.since() == self.frames.since(),
            r.frames.last() == self.frames.last(),
            r.frames.samples() == self.frames.samples(),
    {
        let mut frames: TwoDeltaFrameBuffer = self.frames;
        frames.set_sample_interval(sample_interval);
        BenWriter { frames }
    }
}

impl StatsWriter for BenWriter {
    open spec fn starts(&self, graph: &Graph, partition: &Partition) -> bool {
        self.frames.valid() && self.frames.last() == 0
    }

    open spec fn steps(
        &self,
        step: u64,
        graph: &Graph,
        partition: &Partition,
        proposal: &RecomProposal,
        counts: &SelfLoopCounts,
    ) -> bool {
        &&& self.frames.valid()
        &&& counts.total() <= usize::MAX
        &&& step < u64::MAX
        &&& step == self.frames.last() + counts.total() + 1
    }

    open spec fn loops(
        &self,
        step: u64,
        graph: &Graph,
        partition: &Partition,
        counts: &SelfLoopCounts,
    ) -> bool {
        &&& self.frames.valid()
        &&& counts.total() <= usize::MAX
        &&& step < u64::MAX
        &&& step == self.frames.last() + counts.total()
    }

    open spec fn closes(&self) -> bool {
        self.frames.valid()
    }

    open spec fn stands(&self, graph: &Graph, plan: Plan, last: int) -> bool {
        &&& self.frames.valid()
        &&& self.frames.last() == last
        &&& self.frames.pending() == frames::packed(plan.assignments)
    }

    open spec fn begun(&self, graph: &Graph, plan: Plan, next: &Self) -> bool {
        &&& next.frames.pending() == frames::packed(plan.assignments)
        &&& next.frames.since() == self.frames.since()
        &&& next.frames.last() == self.frames.last()
        &&& next.frames.interval() == self.frames.interval()
        &&& next.frames.samples() == self.frames.samples()
    }

    open spec fn stepped(
        &self,
        step: int,
        graph: &Graph,
        plan: Plan,
        p: Redraw,
        counts: SelfLoopCounts,
        next: &Self,
    ) -> bool {
        &&& next.frames.pending() == frames::packed(plan.assignments)
        &&& next.frames.since() == step
        &&& next.frames.last() == step
        &&& next.frames.interval() == self.frames.interval()
        &&& next.frames.samples() == self.frames.samples() + self.frames.waiting(step - 1)
    }

    open spec fn waited(
        &self,
        step: int,
        graph: &Graph,
        plan: Plan,
        counts: SelfLoopCounts,
        next: &Self,
    ) -> bool {
        &&& next.frames.pending() == self.frames.pending()
        &&& next.frames.since() == self.frames.since()
        &&& next.frames.last() == step
        &&& next.frames.interval() == self.frames.interval()
        &&& next.frames.samples() == self.frames.samples()
    }

    open spec fn ended(&self, next: &Self) -> bool {
        &&& next.frames.pending() == Seq::<u16>::empty()
        &&& next.frames.since() == self.frames.since()
        &&& next.frames.last() == self.frames.last()
        &&& next.frames.interval() == self.frames.interval()
        &&& next.frames.samples() == self.frames.samples() + self.frames.waiting(
            self.frames.last(),
        )
    }

    open spec fn seed_entries(&self, graph: &Graph, plan: Plan) -> Seq<Entry> {
        Seq::empty()
    }

    open spec fn step_entries(
        &self,
        step: int,
        graph: &Graph,
        plan: Plan,
        p: Redraw,
        counts: SelfLoopCounts,
    ) -> Seq<Entry> {
        frames::frames_of(self.frames.pending(), self.frames.waiting(step - 1))
    }

    open spec fn loop_entries(
        &self,
        step: int,
        graph: &Graph,
        plan: Plan,
        counts: SelfLoopCounts,
    ) -> Seq<Entry> {
        Seq::empty()
    }

    open spec fn close_entries(&self) -> Seq<Entry> {
        frames::frames_of(self.frames.pending(), self.frames.waiting(self.frames.last()))
    }

    proof fn ready_to_step(
        &self,
        graph: &Graph,
        before: Plan,
        last: int,
        step: u64,
        partition: &Partition,
        proposal: &RecomProposal,
        counts: &SelfLoopCounts,
    ) {
    }

    proof fn ready_to_wait(
        &self,
        graph: &Graph,
        partition: &Partition,
        last: int,
        step: u64,
        counts: &SelfLoopCounts,
    ) {
    }

    proof fn ready_to_close(&self, graph: &Graph, plan: Plan, last: int) {
    }

    fn init(&mut self, graph: &Graph, partition: &Partition) -> (r: Vec<Record>)
        ensures
            records::entries(r@) == Seq::<Entry>::empty(),
            final(self).frames.valid(),
            final(self).frames.pending() == frames::packed(partition@.assignments),
            final(self).frames.since() == old(self).frames.since(),
            final(self).frames.last() == old(self).frames.last(),
            final(self).frames.interval() == old(self).frames.interval(),
            final(self).frames.samples() == old(self).frames.samples(),
    {
        let packed: Vec<u16> = frames::pack(&partition.assignments);
        self.frames.set_initial(packed);
        nothing()
    }

    fn step(
        &mut self,
        step: u64,
        graph: &Graph,
        partition: &Partition,
        proposal: &RecomProposal,
        counts: &SelfLoopCounts,
    ) -> (r: Vec<Record>)
        ensures
            records::entries(r@) == frames::frames_of(
                old(self).frames.pending(),
                old(self).frames.waiting(step - 1),
            ),
            final(self).frames.valid(),
            final(self).frames.pending() == frames::packed(partition@.assignments),
            final(self).frames.since() == step,
            final(self).frames.last() == step,
            final(self).frames.interval() == old(self).frames.interval(),
            final(self).frames.samples() == old(self).frames.samples() + old(self).frames.waiting(
                step - 1,
            ),
    {
        let packed: Vec<u16> = frames::pack(&partition.assignments);
        self.frames.push_step(step, packed, counts.sum() as u64)
    }

    fn self_loop(
        &mut self,
        step: u64,
        graph: &Graph,
        partition: &Partition,
        counts: &SelfLoopCounts,
    ) -> (r: Vec<Record>)
        ensures
            records::entries(r@) == Seq::<Entry>::empty(),
            final(self).frames.valid(),
            final(self).frames.pending() == old(self).frames.pending(),
            final(self).frames.since() == old(self).frames.since(),
            final(self).frames.last() == step,
            final(self).frames.interval() == old(self).frames.interval(),
            final(self).frames.samples() == old(self).frames.samples(),
    {
        self.frames.add_self_loops(step, counts.sum() as u64);
        nothing()
    }

    fn close(&mut self) -> (r: Vec<Record>)
        ensures
            records::entries(r@) == frames::frames_of(
                old(self).frames.pending(),
                old(self).frames.waiting(old(self).frames.last()),
            ),
    {
        self.frames.flush_final()
    }
}

/// The cells of a line that tell the step and how often each reason came up, up
/// to the proposal.
pub open spec fn count_cells(step: int, counts: SelfLoopCounts) -> Seq<Seq<char>> {
    seq![
        text::decimal(step as nat),
        text::decimal(counts.count(SelfLoopReason::NonAdjacent) as nat),
        text::decimal(counts.count(SelfLoopReason::NoSplit) as nat),
        text::decimal(counts.count(SelfLoopReason::SeamLength) as nat),
        text::decimal(counts.count(SelfLoopReason::TiltedRejection) as nat),
    ]
}

proof fn cells_joined_by_tabs(cells: Seq<Seq<char>>, more: Seq<Seq<char>>, tab: Seq<char>)
    requires
        cells.len() > 0,
    ensures
        more.len() == 0 ==> text::joined(cells + more, tab) == text::joined(cells, tab),
        more.len() > 0 ==> text::joined(cells + more, tab) == text::joined(cells, tab) + tab
            + text::joined(more, tab),
    decreases more.len(),
{
    if more.len() == 0 {
        assert(cells + more =~= cells);
    } else {
        let init = more.drop_last();
        cells_joined_by_tabs(cells, init, tab);
        assert(cells + more =~= (cells + init).push(more.last()));
        assert(more =~= init.push(more.last()));
        text::joined_with_one_more(cells + init, more.last(), tab);
        text::joined_with_one_more(init, more.last(), tab);
        if init.len() > 0 {
            assert(text::joined(cells, tab) + tab + text::joined(init, tab) + tab + more.last()
                =~= text::joined(cells, tab) + tab + (text::joined(init, tab) + tab
                + more.last()));
        }
    }
}

proof fn five_joined(a: Seq<char>, b: Seq<char>, c: Seq<char>, d: Seq<char>, e: Seq<char>, tab: Seq<
    char,
>)
    ensures
        text::joined(seq![a, b, c, d, e], tab) == a + tab + b + tab + c + tab + d + tab + e,
        text::joined(seq![a, b, c, d], tab) == a + tab + b + tab + c + tab + d,
        text::joined(seq![a, b, c], tab) == a + tab + b + tab + c,
{
    text::joined_with_one_more(seq![a], b, tab);
    assert(seq![a].push(b) =~= seq![a, b]);
    text::joined_with_one_more(seq![a, b], c, tab);
    assert(seq![a, b].push(c) =~= seq![a, b, c]);
    text::joined_with_one_more(seq![a, b, c], d, tab);
    assert(seq![a, b, c].push(d) =~= seq![a, b, c, d]);
    text::joined_with_one_more(seq![a, b, c, d], e, tab);
    assert(seq![a, b, c, d].push(e) =~= seq![a, b, c, d, e]);
}

/// The line of an accepted proposal has twelve cells between tabs, in the order
/// of the header: the step, how often four reasons came up, the labels, the
/// populations and the nodes of the two districts of the plan that the proposal
/// leads to, and how often the constraint was violated.
pub proof fn step_lines_list_the_redrawn_districts(
    step: int,
    plan: Plan,
    p: Redraw,
    counts: SelfLoopCounts,
)
    requires
        plan.valid(),
        plan.admits(p),
        0 < plan.assignments.len() <= usize::MAX,
        0 <= step,
    ensures
        ({
            let after = plan.redrawn(p);
            let cells = count_cells(step, counts) + seq![
                text::decimal(p.a_label),
                text::decimal(p.b_label),
                text::decimal(after.dist_pops[p.a_label as int] as nat),
                text::decimal(after.dist_pops[p.b_label as int] as nat),
            ] + seq![
                text::bracketed(text::index_numbers(after.dist_nodes[p.a_label as int])),
                text::bracketed(text::index_numbers(after.dist_nodes[p.b_label as int])),
                text::decimal(counts.count(SelfLoopReason::ConstraintViolation) as nat),
            ];
            tsv_step(step, p, counts) == text::joined(cells, "\t"@) + "\n"@
        }),
{
    let after = plan.redrawn(p);
    let tab = "\t"@;
    let first = count_cells(step, counts);
    let second = seq![
        text::decimal(p.a_label),
        text::decimal(p.b_label),
        text::decimal(after.dist_pops[p.a_label as int] as nat),
        text::decimal(after.dist_pops[p.b_label as int] as nat),
    ];
    let third = seq![
        text::bracketed(text::index_numbers(after.dist_nodes[p.a_label as int])),
        text::bracketed(text::index_numbers(after.dist_nodes[p.b_label as int])),
        text::decimal(counts.count(SelfLoopReason::ConstraintViolation) as nat),
    ];
    cells_joined_by_tabs(first, second, tab);
    cells_joined_by_tabs(first + second, third, tab);
    five_joined(first[0], first[1], first[2], first[3], first[4], tab);
    five_joined(second[0], second[1], second[2], second[3], second[3], tab);
    five_joined(third[0], third[1], third[2], third[2], third[2], tab);
    assert(first =~= seq![first[0], first[1], first[2], first[3], first[4]]);
    assert(second =~= seq![second[0], second[1], second[2], second[3]]);
    assert(third =~= seq![third[0], third[1], third[2]]);
    seven_more(
        tsv_counts(step, counts),
        second[0],
        second[1],
        second[2],
        second[3],
        third[0],
        third[1],
        third[2],
        tab,
    );
    crate::partition::redrawing_moves_two_districts_only(plan, p, 0, 0);
}

proof fn seven_more(
    head: Seq<char>,
    a: Seq<char>,
    b: Seq<char>,
    c: Seq<char>,
    d: Seq<char>,
    e: Seq<char>,
    f: Seq<char>,
    g: Seq<char>,
    tab: Seq<char>,
)
    ensures
        head + (a + tab + b + tab + c + tab + d) + tab + (e + tab + f + tab + g) == head + a + tab
            + b + tab + c + tab + d + tab + e + tab + f + tab + g,
{
    text::follow_on(head, a + tab + b + tab + c + tab, d);
    text::follow_on(head, a + tab + b + tab + c, tab);
    text::follow_on(head, a + tab + b + tab, c);
    text::follow_on(head, a + tab + b, tab);
    text::follow_on(head, a + tab, b);
    text::follow_on(head, a, tab);
    let front = head + a + tab + b + tab + c + tab + d + tab;
    text::follow_on(front, e + tab + f + tab, g);
    text::follow_on(front, e + tab + f, tab);
    text::follow_on(front, e + tab, f);
    text::follow_on(front, e, tab);
}

/// The line of trailing self-loops has as many cells as that of a proposal, with
/// the six of the proposal left empty.
pub proof fn loop_lines_leave_proposals_empty(step: int, counts: SelfLoopCounts)
    requires
        0 <= step,
    ensures
        ({
            let none = Seq::<char>::empty();
            let cells = count_cells(step, counts) + seq![none, none, none, none] + seq![
                none,
                none,
                text::decimal(counts.count(SelfLoopReason::ConstraintViolation) as nat),
            ];
            tsv_loop(step, counts) == text::joined(cells, "\t"@) + "\n"@
        }),
{
    let none = Seq::<char>::empty();
    let tab = "\t"@;
    reveal_strlit("\t");
    reveal_strlit("\t\t\t\t\t\t");
    let first = count_cells(step, counts);
    let second = seq![none, none, none, none];
    let third = seq![
        none,
        none,
        text::decimal(counts.count(SelfLoopReason::ConstraintViolation) as nat),
    ];
    cells_joined_by_tabs(first, second, tab);
    cells_joined_by_tabs(first + second, third, tab);
    five_joined(first[0], first[1], first[2], first[3], first[4], tab);
    five_joined(none, none, none, none, none, tab);
    five_joined(none, none, third[2], none, none, tab);
    assert(first =~= seq![first[0], first[1], first[2], first[3], first[4]]);
    assert(third =~= seq![none, none, third[2]]);
    let head = tsv_counts(step, counts);
    assert(text::joined(first, tab) + tab =~= head);
    assert(text::joined(second, tab) =~= seq!['\t', '\t', '\t']);
    assert("\t\t\t\t\t\t"@ =~= seq!['\t', '\t', '\t', '\t', '\t', '\t']);
    assert(text::joined(third, tab) =~= seq!['\t', '\t'] + third[2]);
    assert(text::joined(first + second, tab) =~= head + seq!['\t', '\t', '\t']);
    assert(head + seq!['\t', '\t', '\t'] + tab + (seq!['\t', '\t'] + third[2]) =~= head
        + "\t\t\t\t\t\t"@ + third[2]);
}

} // verus!
