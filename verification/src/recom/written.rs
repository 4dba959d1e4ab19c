//! What the output of a chain holds: one sample for each position.

use vstd::prelude::*;
use crate::constraints::ChainConstraint;
use crate::graph::Graph;
use crate::partition::Plan;
use crate::recom::burst_run::BurstRecord;
use crate::recom::{burst_output, chain};
use crate::recom::proposal::RecomParams;
use crate::recom::run::StepPacket;
use crate::stats::bundle::BendlBenStreamWriter;
use crate::stats::moves::PcompressWriter;
use crate::stats::records::Entry;
use crate::stats::writers::{AssignmentsOnlyWriter, BenWriter, CanonicalWriter, StatsWriter};
use crate::stats::{frames, moves, records};

verus! {

/// The labels of the plan at each position that the first `k` packets of a log
/// account for.
pub open spec fn history(seed: Plan, packets: Seq<StepPacket>, k: int) -> Seq<Seq<u32>>
    decreases k,
{
    if k <= 0 {
        seq![seed.assignments]
    } else {
        let before = records::waited(
            history(seed, packets, k - 1),
            packets[k - 1].counts.total() as nat,
        );
        if packets[k - 1].proposal is Some {
            before.push(chain::plan_at(seed, packets, k).assignments)
        } else {
            before
        }
    }
}

/// A history has one more position than its log accounts for, the seed plan's,
/// and ends at the plan of the log.
pub proof fn history_covers_the_log<C: ChainConstraint>(
    graph: &Graph,
    seed: Plan,
    params: &RecomParams,
    constraint: &C,
    packets: Seq<StepPacket>,
    k: int,
)
    requires
        chain::logs(graph, seed, params, constraint, packets),
        0 <= k <= packets.len(),
    ensures
        history(seed, packets, k).len() == chain::covered(packets, k) + 1,
        history(seed, packets, k).len() > 0,
        history(seed, packets, k).last() == chain::plan_at(seed, packets, k).assignments,
    decreases k,
{
    if k > 0 {
        history_covers_the_log(graph, seed, params, constraint, packets, k - 1);
        assert(chain::follows(graph, seed, params, constraint, packets, k - 1));
    }
}

/// A run without failed draws has as many positions as it was asked to record.
pub proof fn runs_have_the_asked_length<C: ChainConstraint>(
    graph: &Graph,
    seed: Plan,
    params: &RecomParams,
    constraint: &C,
    packets: Seq<StepPacket>,
)
    requires
        chain::logs(graph, seed, params, constraint, packets),
        chain::covered(packets, packets.len() as int) == chain::run_length(params.num_steps),
        params.num_steps > 0,
    ensures
        history(seed, packets, packets.len() as int).len() == params.num_steps,
{
    history_covers_the_log(graph, seed, params, constraint, packets, packets.len() as int);
}

/// The samples that the canonical writer writes are those of the history, at
/// the sampled positions.
pub proof fn canonical_output_is_the_history<C: ChainConstraint>(
    graph: &Graph,
    seed: Plan,
    params: &RecomParams,
    constraint: &C,
    packets: Seq<StepPacket>,
    states: Seq<CanonicalWriter>,
    k: int,
)
    requires
        chain::logs(graph, seed, params, constraint, packets),
        states.len() == packets.len() + 2,
        states[0].interval() > 0,
        chain::states_follow(states, graph, seed, packets),
        0 <= k <= packets.len(),
    ensures
        chain::output_upto(states, graph, seed, packets, k) == records::sample_lines(
            records::history_rows(history(seed, packets, k), states[0].interval()),
        ),
        states[k + 1].interval() == states[0].interval(),
    decreases k,
{
    let interval = states[0].interval();
    if k == 0 {
        records::seed_row_is_the_history(seed.assignments, interval);
    } else {
        canonical_output_is_the_history(graph, seed, params, constraint, packets, states, k - 1);
        history_covers_the_log(graph, seed, params, constraint, packets, k - 1);
        assert(chain::follows(graph, seed, params, constraint, packets, k - 1));
        let earlier = history(seed, packets, k - 1);
        let loops = packets[k - 1].counts.total() as nat;
        let w = states[(k - 1) + 1];
        assert(w.stands(
            graph,
            chain::plan_at(seed, packets, k - 1),
            chain::covered(packets, k - 1),
        ));
        let next = states[(k - 1) + 2];
        assert(chain::packet_recorded(
            w,
            graph,
            chain::plan_at(seed, packets, k),
            packets[k - 1],
            next,
        ));
        let more = if packets[k - 1].proposal is Some {
            records::step_rows_extend_the_history(
                earlier,
                loops,
                chain::plan_at(seed, packets, k).assignments,
                interval,
            );
            records::step_rows(
                w.previous(),
                w.last(),
                packets[k - 1].step as int,
                chain::plan_at(seed, packets, k).assignments,
                interval,
            )
        } else {
            records::loop_rows_extend_the_history(earlier, loops, interval);
            records::loop_rows(w.previous(), w.last(), packets[k - 1].step as int, interval)
        };
        assert(records::sample_lines(records::history_rows(earlier, interval) + more)
            =~= records::sample_lines(records::history_rows(earlier, interval))
            + records::sample_lines(more));
    }
}

/// The labels that a writer writes for each position of a history.
pub open spec fn labelled(writer: AssignmentsOnlyWriter, history: Seq<Seq<u32>>) -> Seq<Seq<u32>> {
    Seq::new(history.len(), |i: int| writer.labels(history[i]))
}

/// The lines that the assignments writer writes are those of the history, at
/// the sampled positions.
pub proof fn assignments_output_is_the_history<C: ChainConstraint>(
    graph: &Graph,
    seed: Plan,
    params: &RecomParams,
    constraint: &C,
    packets: Seq<StepPacket>,
    states: Seq<AssignmentsOnlyWriter>,
    k: int,
)
    requires
        chain::logs(graph, seed, params, constraint, packets),
        states.len() == packets.len() + 2,
        states[0].interval() > 0,
        chain::states_follow(states, graph, seed, packets),
        0 <= k <= packets.len(),
    ensures
        chain::output_upto(states, graph, seed, packets, k) == records::assignment_lines(
            records::history_rows(
                labelled(states[0], history(seed, packets, k)),
                states[0].interval(),
            ),
        ),
        states[k + 1].interval() == states[0].interval(),
        states[k + 1].renumbers() == states[0].renumbers(),
    decreases k,
{
    let first = states[0];
    let interval = first.interval();
    let all = labelled(first, history(seed, packets, k));
    if k == 0 {
        records::seed_row_is_the_history(first.labels(seed.assignments), interval);
        assert(all =~= seq![first.labels(seed.assignments)]);
    } else {
        assignments_output_is_the_history(graph, seed, params, constraint, packets, states, k - 1);
        history_covers_the_log(graph, seed, params, constraint, packets, k - 1);
        assert(chain::follows(graph, seed, params, constraint, packets, k - 1));
        let earlier = labelled(first, history(seed, packets, k - 1));
        let loops = packets[k - 1].counts.total() as nat;
        let w = states[(k - 1) + 1];
        assert(w.stands(
            graph,
            chain::plan_at(seed, packets, k - 1),
            chain::covered(packets, k - 1),
        ));
        let next = states[(k - 1) + 2];
        assert(chain::packet_recorded(
            w,
            graph,
            chain::plan_at(seed, packets, k),
            packets[k - 1],
            next,
        ));
        let labels = first.labels(chain::plan_at(seed, packets, k).assignments);
        let more = if packets[k - 1].proposal is Some {
            assert(all =~= records::waited(earlier, loops).push(labels));
            records::step_rows_extend_the_history(earlier, loops, labels, interval);
            records::step_rows(
                w.previous(),
                w.last(),
                packets[k - 1].step as int,
                labels,
                interval,
            )
        } else {
            assert(all =~= records::waited(earlier, loops));
            records::loop_rows_extend_the_history(earlier, loops, interval);
            records::loop_rows(w.previous(), w.last(), packets[k - 1].step as int, interval)
        };
        assert(records::assignment_lines(records::history_rows(earlier, interval) + more)
            =~= records::assignment_lines(records::history_rows(earlier, interval))
            + records::assignment_lines(more));
    }
}

/// The frames of a stream follow the history of the run.
proof fn stream_follows_the_history<C: ChainConstraint>(
    graph: &Graph,
    seed: Plan,
    params: &RecomParams,
    constraint: &C,
    packets: Seq<StepPacket>,
    states: Seq<BenWriter>,
    k: int,
)
    requires
        chain::logs(graph, seed, params, constraint, packets),
        states.len() == packets.len() + 2,
        states[0].frames.valid(),
        states[0].frames.since() == 0,
        states[0].frames.last() == 0,
        states[0].frames.samples() == 0,
        chain::states_follow(states, graph, seed, packets),
        0 <= k <= packets.len(),
    ensures
        states[k + 1].frames.follows(
            history(seed, packets, k),
            chain::output_upto(states, graph, seed, packets, k),
        ),
        states[k + 1].frames.interval() == states[0].frames.interval(),
    decreases k,
{
    let out = chain::output_upto(states, graph, seed, packets, k);
    let w = states[k + 1];
    assert(w.stands(graph, chain::plan_at(seed, packets, k), chain::covered(packets, k)));
    if k == 0 {
        let none = Seq::<Seq<u32>>::empty();
        assert(history(seed, packets, 0).take(0) =~= none);
        assert(out =~= Seq::<Entry>::empty());
        assert(frames::decoded(out) =~= frames::packed_samples(none, w.frames.interval()));
    } else {
        stream_follows_the_history(graph, seed, params, constraint, packets, states, k - 1);
        history_covers_the_log(graph, seed, params, constraint, packets, k - 1);
        assert(chain::follows(graph, seed, params, constraint, packets, k - 1));
        let earlier = history(seed, packets, k - 1);
        let loops = packets[k - 1].counts.total() as nat;
        let before = states[(k - 1) + 1];
        let next = states[(k - 1) + 2];
        assert(chain::packet_recorded(
            before,
            graph,
            chain::plan_at(seed, packets, k),
            packets[k - 1],
            next,
        ));
        let prior = chain::output_upto(states, graph, seed, packets, k - 1);
        if packets[k - 1].proposal is Some {
            frames::push_step_follows(
                before.frames,
                w.frames,
                earlier,
                prior,
                loops,
                chain::plan_at(seed, packets, k).assignments,
            );
        } else {
            frames::add_self_loops_follows(before.frames, w.frames, earlier, prior, loops);
            assert(prior + Seq::<Entry>::empty() =~= prior);
        }
    }
}

/// The frames of a whole run decode to the samples of its history, and the
/// number of samples that the writer counts is theirs.
pub proof fn stream_output_is_the_history<C: ChainConstraint>(
    graph: &Graph,
    seed: Plan,
    params: &RecomParams,
    constraint: &C,
    packets: Seq<StepPacket>,
    states: Seq<BenWriter>,
)
    requires
        chain::logs(graph, seed, params, constraint, packets),
        states.len() == packets.len() + 2,
        states[0].frames.valid(),
        states[0].frames.since() == 0,
        states[0].frames.last() == 0,
        states[0].frames.samples() == 0,
        chain::states_follow(states, graph, seed, packets),
    ensures
        ({
            let whole = history(seed, packets, packets.len() as int);
            let last = states.last();
            &&& frames::decoded(
                chain::output_upto(states, graph, seed, packets, packets.len() as int)
                    + last.close_entries(),
            ) == frames::packed_samples(whole, states[0].frames.interval())
            &&& last.frames.samples() + last.frames.waiting(last.frames.last())
                == frames::packed_samples(whole, states[0].frames.interval()).len()
        }),
{
    let k = packets.len() as int;
    stream_follows_the_history(graph, seed, params, constraint, packets, states, k);
    frames::flushed_frames_decode_to_the_history(
        states[k + 1].frames,
        history(seed, packets, k),
        chain::output_upto(states, graph, seed, packets, k),
    );
}

/// The streams of bundle writers.
pub open spec fn streams_of(states: Seq<BendlBenStreamWriter>) -> Seq<BenWriter> {
    Seq::new(states.len(), |i: int| states[i].stream)
}

/// The stream of a bundle is written as a stream of its own, beside the graph
/// and the metadata.
proof fn bundle_writes_its_stream(
    graph: &Graph,
    seed: Plan,
    packets: Seq<StepPacket>,
    states: Seq<BendlBenStreamWriter>,
    k: int,
)
    requires
        states.len() == packets.len() + 2,
        chain::states_follow(states, graph, seed, packets),
        0 <= k <= packets.len(),
    ensures
        chain::output_upto(states, graph, seed, packets, k) == chain::output_upto(
            streams_of(states),
            graph,
            seed,
            packets,
            k,
        ),
        states[k + 1].graph() == states[0].graph(),
        states[k + 1].meta() == states[0].meta(),
    decreases k,
{
    if k > 0 {
        bundle_writes_its_stream(graph, seed, packets, states, k - 1);
        let next = states[(k - 1) + 2];
        assert(chain::packet_recorded(
            states[(k - 1) + 1],
            graph,
            chain::plan_at(seed, packets, k),
            packets[k - 1],
            next,
        ));
    }
}

/// The frames of a bundle decode to the samples of the run's history, and the
/// bundle's sample count is their number. The graph and the metadata stay as
/// they were given.
pub proof fn bundles_hold_the_history<C: ChainConstraint>(
    graph: &Graph,
    seed: Plan,
    params: &RecomParams,
    constraint: &C,
    packets: Seq<StepPacket>,
    states: Seq<BendlBenStreamWriter>,
    after: BendlBenStreamWriter,
)
    requires
        chain::logs(graph, seed, params, constraint, packets),
        states.len() == packets.len() + 2,
        states[0].stream.frames.valid(),
        states[0].stream.frames.since() == 0,
        states[0].stream.frames.last() == 0,
        states[0].stream.frames.samples() == 0,
        chain::states_follow(states, graph, seed, packets),
        states.last().ended(&after),
    ensures
        ({
            let samples = frames::packed_samples(
                history(seed, packets, packets.len() as int),
                states[0].stream.frames.interval(),
            );
            &&& frames::decoded(
                chain::output_upto(states, graph, seed, packets, packets.len() as int)
                    + states.last().close_entries(),
            ) == samples
            &&& after.stream.frames.samples() == samples.len()
            &&& after.graph() == states[0].graph()
            &&& after.meta() == states[0].meta()
        }),
{
    let k = packets.len() as int;
    let streams = streams_of(states);
    assert(chain::states_follow(streams, graph, seed, packets)) by {
        assert forall|j: int|
            #![trigger streams[j + 2]]
            0 <= j < streams.len() - 2 implies chain::packet_recorded(
            streams[j + 1],
            graph,
            chain::plan_at(seed, packets, j + 1),
            packets[j],
            streams[j + 2],
        ) by {
            let next = states[j + 2];
        }
        assert forall|j: int|
            #![trigger streams[j + 1]]
            0 <= j < streams.len() - 1 implies streams[j + 1].stands(
            graph,
            chain::plan_at(seed, packets, j),
            chain::covered(packets, j),
        ) by {
            assert(states[j + 1].stands(
                graph,
                chain::plan_at(seed, packets, j),
                chain::covered(packets, j),
            ));
        }
    }
    bundle_writes_its_stream(graph, seed, packets, states, k);
    stream_output_is_the_history(graph, seed, params, constraint, packets, streams);
    assert(streams.last() == states.last().stream);
    assert(states[k + 1] == states.last());
}

/// The records of moves that a run's output holds tell the samples of its
/// history: one who knows the plan of a record reads the plan of the next one
/// from its moves.
pub proof fn moves_output_is_the_history<C: ChainConstraint>(
    graph: &Graph,
    seed: Plan,
    params: &RecomParams,
    constraint: &C,
    packets: Seq<StepPacket>,
    states: Seq<PcompressWriter>,
    k: int,
)
    requires
        seed.valid(),
        seed.assignments.len() == graph.order(),
        chain::logs(graph, seed, params, constraint, packets),
        states.len() == packets.len() + 2,
        states[0].interval() > 0,
        states[0].emitted().len() == 0,
        chain::states_follow(states, graph, seed, packets),
        0 <= k <= packets.len(),
    ensures
        ({
            let none = Seq::<u32>::empty();
            let rows = records::history_rows(history(seed, packets, k), states[0].interval());
            &&& moves::tell(chain::output_upto(states, graph, seed, packets, k), none, rows)
            &&& states[k + 1].emitted() == moves::last_plan(none, rows)
            &&& states[k + 1].previous() == chain::plan_at(seed, packets, k).assignments
            &&& states[k + 1].interval() == states[0].interval()
        }),
    decreases k,
{
    let none = Seq::<u32>::empty();
    let interval = states[0].interval();
    let rows = records::history_rows(history(seed, packets, k), interval);
    assert(graph.pops.len() == graph.order());
    if k == 0 {
        records::seed_row_is_the_history(seed.assignments, interval);
        assert(states[0].emitted() =~= none);
        moves::seed_record_tells(seed.assignments, seed.num_dists);
    } else {
        moves_output_is_the_history(graph, seed, params, constraint, packets, states, k - 1);
        history_covers_the_log(graph, seed, params, constraint, packets, k - 1);
        chain::logged_plans_are_valid(graph, seed, params, constraint, packets, k - 1);
        assert(chain::follows(graph, seed, params, constraint, packets, k - 1));
        let earlier = history(seed, packets, k - 1);
        let before = records::history_rows(earlier, interval);
        let loops = packets[k - 1].counts.total() as nat;
        let plan = chain::plan_at(seed, packets, k - 1);
        let w = states[(k - 1) + 1];
        assert(w.stands(graph, plan, chain::covered(packets, k - 1)));
        let next = states[(k - 1) + 2];
        assert(chain::packet_recorded(
            w,
            graph,
            chain::plan_at(seed, packets, k),
            packets[k - 1],
            next,
        ));
        let prior = chain::output_upto(states, graph, seed, packets, k - 1);
        let step = packets[k - 1].step as int;
        match packets[k - 1].proposal {
            Some(p) => {
                if interval == 1 {
                    records::unthinned_rows_are_the_history(earlier);
                }
                let after = plan.redrawn(p@).assignments;
                records::step_rows_extend_the_history(earlier, loops, after, interval);
                moves::step_records_tell(w, step, plan, p@, loops);
                moves::told_in_turn(
                    prior,
                    moves::moved_step(w, step, after, plan.num_dists, p@, loops),
                    none,
                    before,
                    records::step_rows(w.previous(), w.last(), step, after, interval),
                );
            },
            None => {
                records::loop_rows_extend_the_history(earlier, loops, interval);
                moves::loop_records_tell(w, step, plan.num_dists);
                moves::told_in_turn(
                    prior,
                    w.loop_entries(step, graph, plan, packets[k - 1].counts),
                    none,
                    before,
                    records::loop_rows(w.previous(), w.last(), step, interval),
                );
            },
        }
    }
}

/// The labels of the seed plan and of the first `k` steps of an optimizer run.
pub open spec fn burst_history(seed: Plan, steps: Seq<BurstRecord>, k: int) -> Seq<Seq<u32>> {
    Seq::new((k + 1) as nat, |i: int| burst_output::plan_of(seed, steps, i).assignments)
}

/// The lines that the assignments writer writes of an optimizer run are those
/// of the seed plan and of every step.
pub proof fn burst_output_is_the_history(
    graph: &Graph,
    seed: Plan,
    steps: Seq<BurstRecord>,
    states: Seq<AssignmentsOnlyWriter>,
    k: int,
)
    requires
        states.len() == steps.len() + 2,
        states[0].interval() > 0,
        burst_output::states_stand(states, graph, seed, steps),
        0 <= k <= steps.len(),
    ensures
        burst_output::plans_upto(states, graph, seed, steps, k) == records::assignment_lines(
            records::history_rows(
                labelled(states[0], burst_history(seed, steps, k)),
                states[0].interval(),
            ),
        ),
        states[k + 1].interval() == states[0].interval(),
        states[k + 1].renumbers() == states[0].renumbers(),
    decreases k,
{
    let first = states[0];
    let interval = first.interval();
    let all = labelled(first, burst_history(seed, steps, k));
    if k == 0 {
        records::seed_row_is_the_history(first.labels(seed.assignments), interval);
        assert(all =~= seq![first.labels(seed.assignments)]);
    } else {
        burst_output_is_the_history(graph, seed, steps, states, k - 1);
        let earlier = labelled(first, burst_history(seed, steps, k - 1));
        let w = states[(k - 1) + 1];
        assert(w.stands(graph, burst_output::plan_of(seed, steps, k - 1), k - 1));
        let next = states[(k - 1) + 2];
        let labels = first.labels(burst_output::plan_of(seed, steps, k).assignments);
        assert(all =~= records::waited(earlier, 0).push(labels));
        records::step_rows_extend_the_history(earlier, 0, labels, interval);
        let more = records::step_rows(w.previous(), w.last(), k, labels, interval);
        assert(records::assignment_lines(records::history_rows(earlier, interval) + more)
            =~= records::assignment_lines(records::history_rows(earlier, interval))
            + records::assignment_lines(more));
    }
}

/// A history whose every position is recorded has as many rows as positions.
pub proof fn every_position_is_recorded(history: Seq<Seq<u32>>)
    ensures
        records::history_rows(history, 1).len() == history.len(),
        frames::packed_samples(history, 1).len() == history.len(),
{
    records::unthinned_rows_are_the_history(history);
}

} // verus!
