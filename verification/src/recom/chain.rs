//! Whole chains: the log of a run and what writers make of it.

use rand::rngs::SmallRng;
use vstd::prelude::*;
use crate::constraints::{ChainConstraint, NoConstraint};
use crate::double::{Arithmetic, Double, Op};
use crate::graph::Graph;
use crate::partition::{Partition, Plan};
use crate::recom::draw::Sampler;
use crate::recom::mst_diagnostics::Failure;
use crate::recom::proposal::{RecomParams, RecomProposal, RecomVariant, Redraw};
use crate::recom::run::{ChainRun, StepPacket};
use crate::recom::worker::{JobPacket, ResultPacket, Worker};
use crate::recom::{contiguity, draw, populations, run, worker};
use crate::stats::counts::{SelfLoopCounts, SelfLoopReason};
use crate::stats::records::{Entry, Record};
use crate::stats::writers::StatsWriter;
use crate::stats::{records, writers};
use crate::{constraints, partition, random};

verus! {

/// The plan after the first `k` packets of a log.
pub open spec fn plan_at(seed: Plan, packets: Seq<StepPacket>, k: int) -> Plan
    decreases k,
{
    if k <= 0 {
        seed
    } else {
        worker::moved(plan_at(seed, packets, k - 1), packets[k - 1].proposal)
    }
}

/// The chain positions that the first `k` packets account for.
pub open spec fn covered(packets: Seq<StepPacket>, k: int) -> int
    decreases k,
{
    if k <= 0 {
        0
    } else {
        covered(packets, k - 1) + packets[k - 1].counts.total() + (if packets[k - 1].proposal is Some {
            1int
        } else {
            0
        })
    }
}

/// Whether a packet follows the first `k` packets of a log.
pub open spec fn follows<C: ChainConstraint>(
    graph: &Graph,
    seed: Plan,
    params: &RecomParams,
    constraint: &C,
    packets: Seq<StepPacket>,
    k: int,
) -> bool {
    &&& packets[k].step == covered(packets, k + 1)
    &&& packets[k].step < u64::MAX
    &&& packets[k].counts.total() <= usize::MAX
    &&& worker::may_count(
        graph,
        plan_at(seed, packets, k),
        params,
        constraint,
        packets[k].counts,
    )
    &&& match packets[k].proposal {
        Some(p) => draw::proposes(graph, plan_at(seed, packets, k), params, p@)
            && constraint.allows_redraw(graph, p@),
        None => k == packets.len() - 1 && packets[k].counts.total() > 0,
    }
}

/// Whether packets log a chain: each accepted step redraws the plan before it
/// as the chain may, and positions count up through self-loops and steps.
pub open spec fn logs<C: ChainConstraint>(
    graph: &Graph,
    seed: Plan,
    params: &RecomParams,
    constraint: &C,
    packets: Seq<StepPacket>,
) -> bool {
    forall|k: int|
        0 <= k < packets.len() ==> #[trigger] follows(graph, seed, params, constraint, packets, k)
}

/// Whether every accepted step of a log comes from a tree that the chain may
/// draw, by the weights that its parameters give to edges where they give any,
/// and chance let it pass.
pub open spec fn cut_from_trees<F: Fn(Op, Double, Double) -> Double>(
    arithmetic: Arithmetic<F>,
    graph: &Graph,
    seed: Plan,
    params: &RecomParams,
    packets: Seq<StepPacket>,
) -> bool {
    forall|k: int|
        0 <= k < packets.len() ==> ((#[trigger] packets[k]).proposal matches Some(p)
            ==> worker::accepted_for(arithmetic, graph, plan_at(seed, packets, k), params, p@))
}

proof fn cut_from_trees_extended<F: Fn(Op, Double, Double) -> Double>(
    arithmetic: Arithmetic<F>,
    graph: &Graph,
    seed: Plan,
    params: &RecomParams,
    packets: Seq<StepPacket>,
    packet: StepPacket,
)
    requires
        cut_from_trees(arithmetic, graph, seed, params, packets),
        packet.proposal matches Some(p) ==> worker::accepted_for(
            arithmetic,
            graph,
            plan_at(seed, packets, packets.len() as int),
            params,
            p@,
        ),
    ensures
        cut_from_trees(arithmetic, graph, seed, params, packets.push(packet)),
{
    let more = packets.push(packet);
    assert(more.take(packets.len() as int) =~= packets);
    assert forall|k: int| 0 <= k < more.len() implies ((#[trigger] more[k]).proposal matches Some(p)
        ==> worker::accepted_for(arithmetic, graph, plan_at(seed, more, k), params, p@)) by {
        plan_at_prefix(seed, packets, more, k);
        if k < packets.len() {
            assert(more[k] == packets[k]);
        }
    }
}

proof fn plan_at_prefix(seed: Plan, packets: Seq<StepPacket>, more: Seq<StepPacket>, k: int)
    requires
        0 <= k <= packets.len() <= more.len(),
        more.take(packets.len() as int) == packets,
    ensures
        plan_at(seed, more, k) == plan_at(seed, packets, k),
        covered(more, k) == covered(packets, k),
    decreases k,
{
    if k > 0 {
        plan_at_prefix(seed, packets, more, k - 1);
        assert(more[k - 1] == more.take(packets.len() as int)[k - 1]);
    }
}

proof fn log_extended<C: ChainConstraint>(
    graph: &Graph,
    seed: Plan,
    params: &RecomParams,
    constraint: &C,
    packets: Seq<StepPacket>,
    packet: StepPacket,
)
    requires
        logs(graph, seed, params, constraint, packets),
        forall|k: int| 0 <= k < packets.len() ==> (#[trigger] packets[k]).proposal is Some,
        packet.step == covered(packets, packets.len() as int) + packet.counts.total() + (
        if packet.proposal is Some {
            1int
        } else {
            0
        }),
        packet.step < u64::MAX,
        packet.counts.total() <= usize::MAX,
        worker::may_count(
            graph,
            plan_at(seed, packets, packets.len() as int),
            params,
            constraint,
            packet.counts,
        ),
        match packet.proposal {
            Some(p) => draw::proposes(
                graph,
                plan_at(seed, packets, packets.len() as int),
                params,
                p@,
            ) && constraint.allows_redraw(graph, p@),
            None => packet.counts.total() > 0,
        },
    ensures
        logs(graph, seed, params, constraint, packets.push(packet)),
        covered(packets.push(packet), packets.len() as int + 1) == packet.step,
        plan_at(seed, packets.push(packet), packets.len() as int + 1) == worker::moved(
            plan_at(seed, packets, packets.len() as int),
            packet.proposal,
        ),
{
    let more = packets.push(packet);
    assert(more.take(packets.len() as int) =~= packets);
    plan_at_prefix(seed, packets, more, packets.len() as int);
    assert forall|k: int| 0 <= k < more.len() implies #[trigger] follows(
        graph,
        seed,
        params,
        constraint,
        more,
        k,
    ) by {
        plan_at_prefix(seed, packets, more, k);
        if k < packets.len() {
            plan_at_prefix(seed, packets, more, k + 1);
            assert(more[k] == packets[k]);
            assert(follows(graph, seed, params, constraint, packets, k));
        }
    }
}

/// Every plan of a logged chain is valid, with the same nodes and districts as
/// the seed plan.
pub proof fn logged_plans_are_valid<C: ChainConstraint>(
    graph: &Graph,
    seed: Plan,
    params: &RecomParams,
    constraint: &C,
    packets: Seq<StepPacket>,
    k: int,
)
    requires
        seed.valid(),
        logs(graph, seed, params, constraint, packets),
        0 <= k <= packets.len(),
    ensures
        plan_at(seed, packets, k).valid(),
        plan_at(seed, packets, k).assignments.len() == seed.assignments.len(),
        plan_at(seed, packets, k).num_dists == seed.num_dists,
    decreases k,
{
    if k > 0 {
        logged_plans_are_valid(graph, seed, params, constraint, packets, k - 1);
        assert(follows(graph, seed, params, constraint, packets, k - 1));
        if let Some(p) = packets[k - 1].proposal {
            partition::redrawn_is_valid(plan_at(seed, packets, k - 1), p@);
        }
    }
}

/// A chain whose seed plan satisfies the constraint only visits plans that do.
pub proof fn logged_plans_are_allowed<C: ChainConstraint>(
    graph: &Graph,
    seed: Plan,
    params: &RecomParams,
    constraint: &C,
    packets: Seq<StepPacket>,
    k: int,
)
    requires
        seed.valid(),
        constraint.applies(graph),
        constraint.allows(graph, seed),
        logs(graph, seed, params, constraint, packets),
        0 <= k <= packets.len(),
    ensures
        constraint.allows(graph, plan_at(seed, packets, k)),
    decreases k,
{
    if k > 0 {
        logged_plans_are_allowed(graph, seed, params, constraint, packets, k - 1);
        logged_plans_are_valid(graph, seed, params, constraint, packets, k - 1);
        assert(follows(graph, seed, params, constraint, packets, k - 1));
        if let Some(p) = packets[k - 1].proposal {
            constraint.redraw_stays_allowed(graph, plan_at(seed, packets, k - 1), p@);
        }
    }
}

/// Whether every district is contiguous.
pub open spec fn all_contiguous(graph: &Graph, plan: Plan) -> bool {
    forall|d: int|
        0 <= d < plan.dist_nodes.len() ==> contiguity::contiguous(
            graph.edges@,
            #[trigger] plan.dist_nodes[d],
        )
}

/// Whether every district's population is within bounds.
pub open spec fn all_balanced(plan: Plan, min_pop: u32, max_pop: u32) -> bool {
    forall|d: int|
        0 <= d < plan.dist_pops.len() ==> min_pop <= #[trigger] plan.dist_pops[d] <= max_pop
}

/// A chain keeps districts contiguous, populations within bounds, and recorded
/// populations those of the nodes, where the seed plan has them so.
pub proof fn logged_plans_keep_their_shape<C: ChainConstraint>(
    graph: &Graph,
    seed: Plan,
    params: &RecomParams,
    constraint: &C,
    packets: Seq<StepPacket>,
    k: int,
)
    requires
        seed.valid(),
        logs(graph, seed, params, constraint, packets),
        0 <= k <= packets.len(),
    ensures
        all_contiguous(graph, seed) ==> all_contiguous(graph, plan_at(seed, packets, k)),
        all_balanced(seed, params.min_pop, params.max_pop) ==> all_balanced(
            plan_at(seed, packets, k),
            params.min_pop,
            params.max_pop,
        ),
        populations::populated(graph.pops@, seed) ==> populations::populated(
            graph.pops@,
            plan_at(seed, packets, k),
        ),
    decreases k,
{
    if k > 0 {
        logged_plans_keep_their_shape(graph, seed, params, constraint, packets, k - 1);
        logged_plans_are_valid(graph, seed, params, constraint, packets, k - 1);
        assert(follows(graph, seed, params, constraint, packets, k - 1));
        if let Some(p) = packets[k - 1].proposal {
            let before = plan_at(seed, packets, k - 1);
            let after = plan_at(seed, packets, k);
            if populations::populated(graph.pops@, seed) {
                populations::redrawn_is_populated(graph.pops@, before, p@);
            }
            if all_contiguous(graph, seed) {
                assert forall|d: int| 0 <= d < after.dist_nodes.len() implies contiguity::contiguous(
                    graph.edges@,
                    #[trigger] after.dist_nodes[d],
                ) by {
                    if d != p@.a_label && d != p@.b_label {
                        assert(after.dist_nodes[d] == before.dist_nodes[d]);
                    }
                }
            }
            if all_balanced(seed, params.min_pop, params.max_pop) {
                assert forall|d: int| 0 <= d < after.dist_pops.len() implies params.min_pop
                    <= #[trigger] after.dist_pops[d] <= params.max_pop by {
                    if d != p@.a_label && d != p@.b_label {
                        assert(after.dist_pops[d] == before.dist_pops[d]);
                    }
                }
            }
        }
    }
}

/// The log of a run.
pub struct ChainLog {
    pub packets: Vec<StepPacket>,
    /// Whether the run went well: a step was accepted and nothing failed.
    pub result: Result<(), String>,
    /// Whether a draw failed, which cuts the run short.
    pub failed: bool,
}

/// The positions of a run with the given number of output records.
pub open spec fn run_length(num_steps: u64) -> int {
    if num_steps == 0 {
        0
    } else {
        num_steps - 1
    }
}

/// Whether the numbers of a run fit: there is work to hand out, and seeds and
/// counts stay within range.
pub open spec fn run_fits(params: &RecomParams, n_threads: usize, batch_size: usize) -> bool {
    &&& params.num_steps <= usize::MAX
    &&& params.num_steps > 1 ==> n_threads > 0 && batch_size > 0
    &&& n_threads * batch_size <= usize::MAX
    &&& params.rng_seed + n_threads <= u64::MAX
}

/// Whether a message tells why a worker that draws as the parameters ask may
/// give up at a plan.
pub open spec fn cut_short<C: ChainConstraint, F: Fn(Op, Double, Double) -> Double>(
    numbers: Arithmetic<F>,
    graph: &Graph,
    plan: Plan,
    params: &RecomParams,
    constraint: &C,
    message: Seq<char>,
) -> bool {
    exists|sampler: Sampler<F>, failure: Failure|
        {
            &&& draw::made_for(sampler, params, numbers)
            &&& #[trigger] worker::gives_up(
                sampler,
                numbers,
                graph,
                plan,
                params,
                constraint,
                failure,
            )
            &&& message == failure.text()
        }
}

/// Lets each worker do a unit of work. Fails where a worker gives up, with the
/// message of the first that does.
fn work_round<C: ChainConstraint, F: Fn(Op, Double, Double) -> Double>(
    graph: &Graph,
    params: &RecomParams,
    constraint: &C,
    numbers: &Arithmetic<F>,
    workers: &mut Vec<Worker<C, F>>,
    batch_size: usize,
    diff: &Option<RecomProposal>,
    before: Ghost<Plan>,
) -> (r: Result<Vec<ResultPacket>, String>)
    requires
        worker::runs(graph, before@, params, constraint),
        numbers.valid(),
        *diff matches Some(p) ==> before@.admits(p@),
        forall|i: int|
            0 <= i < old(workers).len() ==> (#[trigger] old(workers)[i]).valid(graph, constraint)
                && old(workers)[i].plan() == before@ && draw::made_for(
                old(workers)[i].draws_by(),
                params,
                *numbers,
            ),
        old(workers).len() * batch_size <= usize::MAX,
    ensures
        final(workers).len() == old(workers).len(),
        r is Ok ==> forall|i: int|
            0 <= i < final(workers).len() ==> (#[trigger] final(workers)[i]).valid(
                graph,
                constraint,
            ) && final(workers)[i].plan() == worker::moved(before@, *diff) && draw::made_for(
                final(workers)[i].draws_by(),
                params,
                *numbers,
            ),
        old(workers).len() == 0 || batch_size == 0 ==> r is Ok,
        r matches Err(e) ==> cut_short(
            *numbers,
            graph,
            worker::moved(before@, *diff),
            params,
            constraint,
            e@,
        ),
        r matches Ok(packets) ==> {
            &&& packets.len() == old(workers).len()
            &&& run::event_count(packets@, packets@.len() as int) == packets.len() * batch_size
            &&& forall|i: int|
                0 <= i < packets.len() ==> worker::batch_of(
                    graph,
                    worker::moved(before@, *diff),
                    params,
                    constraint,
                    #[trigger] packets[i],
                    batch_size as nat,
                ) && worker::batch_cut(
                    *numbers,
                    graph,
                    worker::moved(before@, *diff),
                    params,
                    packets[i],
                )
        },
{
    let job: JobPacket = JobPacket {
        n_steps: batch_size,
        diff: match diff {
            Some(p) => Some(p.clone()),
            None => None,
        },
    };
    let ghost after = worker::moved(before@, *diff);
    let mut packets: Vec<ResultPacket> = Vec::new();
    let mut i: usize = 0;
    while i < workers.len()
        invariant
            i <= workers.len(),
            workers.len() == old(workers).len(),
            worker::runs(graph, before@, params, constraint),
            numbers.valid(),
            job.n_steps == batch_size,
            job.diff matches Some(p) ==> before@.admits(p@),
            after == worker::moved(before@, job.diff),
            after == worker::moved(before@, *diff),
            forall|j: int|
                i <= j < workers.len() ==> (#[trigger] workers[j]).valid(graph, constraint)
                    && workers[j].plan() == before@ && draw::made_for(
                    workers[j].draws_by(),
                    params,
                    *numbers,
                ),
            forall|j: int|
                0 <= j < i ==> (#[trigger] workers[j]).valid(graph, constraint)
                    && workers[j].plan() == after && draw::made_for(
                    workers[j].draws_by(),
                    params,
                    *numbers,
                ),
            packets.len() == i,
            run::event_count(packets@, i as int) == i * batch_size,
            forall|j: int|
                0 <= j < i ==> worker::batch_of(
                    graph,
                    after,
                    params,
                    constraint,
                    #[trigger] packets[j],
                    batch_size as nat,
                ) && worker::batch_cut(*numbers, graph, after, params, packets[j]),
        decreases workers.len() - i,
    {
        let ghost earlier = packets@;
        let ghost sampler = workers[i as int].draws_by();
        match workers[i].run_job(graph, params, constraint, numbers, &job) {
            Ok(packet) => {
                assert(worker::batch_cut(*numbers, graph, after, params, packet));
                packets.push(packet);
                proof {
                    counts_of_prefix(earlier, packets@, i as int);
                    assert((i + 1) * batch_size == i * batch_size + batch_size)
                        by (nonlinear_arith);
                }
            },
            Err(failure) => {
                assert(worker::gives_up(
                    sampler,
                    *numbers,
                    graph,
                    after,
                    params,
                    constraint,
                    failure,
                ));
                return Err(failure.message());
            },
        }
        i += 1;
    }
    Ok(packets)
}

proof fn counts_of_prefix(a: Seq<ResultPacket>, b: Seq<ResultPacket>, k: int)
    requires
        0 <= k <= a.len() <= b.len(),
        forall|i: int| 0 <= i < a.len() ==> a[i] == #[trigger] b[i],
    ensures
        run::event_count(a, k) == run::event_count(b, k),
    decreases k,
{
    if k > 0 {
        counts_of_prefix(a, b, k - 1);
    }
}

proof fn grown_may_count<C: ChainConstraint>(
    graph: &Graph,
    plan: Plan,
    params: &RecomParams,
    constraint: &C,
    before: SelfLoopCounts,
    after: SelfLoopCounts,
    round: SelfLoopCounts,
)
    requires
        run::grown(before, after, round),
        worker::may_count(graph, plan, params, constraint, before),
        worker::may_count(graph, plan, params, constraint, round),
    ensures
        worker::may_count(graph, plan, params, constraint, after),
{
    assert forall|reason: SelfLoopReason| #[trigger]
        after.count(reason) > 0 implies worker::may_loop(
        graph,
        plan,
        params,
        constraint,
        reason,
    ) by {
        assert(before.count(reason) > 0 || round.count(reason) > 0);
    }
}

/// Every self-loop of a gathered round was drawn by a worker.
proof fn gathered_may_count<C: ChainConstraint>(
    graph: &Graph,
    plan: Plan,
    params: &RecomParams,
    constraint: &C,
    packets: Seq<ResultPacket>,
    reason: SelfLoopReason,
    k: int,
    n: nat,
)
    requires
        0 <= k <= packets.len(),
        forall|i: int|
            0 <= i < packets.len() ==> worker::batch_of(
                graph,
                plan,
                params,
                constraint,
                #[trigger] packets[i],
                n,
            ),
        run::joined_count(packets, reason, k) > 0,
    ensures
        worker::may_loop(graph, plan, params, constraint, reason),
    decreases k,
{
    if k > 0 {
        assert(worker::batch_of(graph, plan, params, constraint, packets[k - 1], n));
        if packets[k - 1].counts.count(reason) == 0 {
            gathered_may_count(graph, plan, params, constraint, packets, reason, k - 1, n);
        }
    }
}

/// On a valid graph a chain that is not reversible and weighs no edges is cut
/// short only at a plan whose districts do not adjoin or may not be split.
pub proof fn runs_are_cut_short_without_splits<
    C: ChainConstraint,
    F: Fn(Op, Double, Double) -> Double,
>(
    arithmetic: Arithmetic<F>,
    graph: &Graph,
    plan: Plan,
    params: &RecomParams,
    constraint: &C,
    message: Seq<char>,
)
    requires
        graph.valid(),
        !draw::weighs_edges(params),
        params.variant != RecomVariant::Reversible,
        cut_short(arithmetic, graph, plan, params, constraint, message),
    ensures
        draw::draws_fail(graph, plan, params),
{
    let (sampler, failure) = choose|sampler: Sampler<F>, failure: Failure|
        {
            &&& draw::made_for(sampler, params, arithmetic)
            &&& #[trigger] worker::gives_up(
                sampler,
                arithmetic,
                graph,
                plan,
                params,
                constraint,
                failure,
            )
            &&& message == failure.text()
        };
    if let Failure::Tree(e, a, b) = failure {
        draw::valid_graphs_have_trees(sampler, graph, plan, e, a as int, b as int);
    }
}

/// Self-loops of a chain that is not reversible are violations of its
/// constraint: each stands for a proposal that the constraint does not allow.
pub proof fn loops_of_other_chains_are_violations<C: ChainConstraint>(
    graph: &Graph,
    seed: Plan,
    params: &RecomParams,
    constraint: &C,
    packets: Seq<StepPacket>,
    k: int,
)
    requires
        logs(graph, seed, params, constraint, packets),
        0 <= k < packets.len(),
        params.variant != RecomVariant::Reversible,
    ensures
        packets[k].counts.total() == packets[k].counts.count(SelfLoopReason::ConstraintViolation),
        packets[k].counts.total() > 0 ==> exists|p: Redraw| #[trigger]
            draw::proposes(graph, plan_at(seed, packets, k), params, p)
                && !constraint.allows_redraw(graph, p),
{
    assert(follows(graph, seed, params, constraint, packets, k));
    let counts = packets[k].counts;
    assert(counts.count(SelfLoopReason::NonAdjacent) == 0);
    assert(counts.count(SelfLoopReason::NoSplit) == 0);
    assert(counts.count(SelfLoopReason::SeamLength) == 0);
    assert(counts.count(SelfLoopReason::TiltedRejection) == 0);
    assert(counts.count(SelfLoopReason::ConstraintViolation) >= 0);
}

/// Every candidate of a gathered round was drawn by a worker.
proof fn gathered_are_drawn<C: ChainConstraint>(
    graph: &Graph,
    plan: Plan,
    params: &RecomParams,
    constraint: &C,
    packets: Seq<ResultPacket>,
    k: int,
    n: nat,
)
    requires
        0 <= k <= packets.len(),
        forall|i: int|
            0 <= i < packets.len() ==> worker::batch_of(
                graph,
                plan,
                params,
                constraint,
                #[trigger] packets[i],
                n,
            ),
    ensures
        forall|i: int|
            0 <= i < run::joined_candidates(packets, k).len() ==> {
                let p = (#[trigger] run::joined_candidates(packets, k)[i]).1;
                draw::proposes(graph, plan, params, p) && constraint.allows_redraw(graph, p)
            },
    decreases k,
{
    if k > 0 {
        gathered_are_drawn(graph, plan, params, constraint, packets, k - 1, n);
        let before = run::joined_candidates(packets, k - 1);
        let all = run::joined_candidates(packets, k);
        assert(worker::batch_of(graph, plan, params, constraint, packets[k - 1], n));
        assert forall|i: int| 0 <= i < all.len() implies {
            let p = (#[trigger] all[i]).1;
            draw::proposes(graph, plan, params, p) && constraint.allows_redraw(graph, p)
        } by {
            if i < before.len() {
                assert(all[i] == before[i]);
            } else {
                let j = i - before.len();
                assert(all[i].1 == packets[k - 1].proposals[j].1@);
            }
        }
    }
}

/// Every candidate of a gathered round comes from a tree.
proof fn gathered_are_cut<F: Fn(Op, Double, Double) -> Double>(
    arithmetic: Arithmetic<F>,
    graph: &Graph,
    plan: Plan,
    params: &RecomParams,
    packets: Seq<ResultPacket>,
    k: int,
)
    requires
        0 <= k <= packets.len(),
        forall|i: int|
            0 <= i < packets.len() ==> worker::batch_cut(
                arithmetic,
                graph,
                plan,
                params,
                #[trigger] packets[i],
            ),
    ensures
        forall|i: int|
            0 <= i < run::joined_candidates(packets, k).len() ==> worker::accepted_for(
                arithmetic,
                graph,
                plan,
                params,
                (#[trigger] run::joined_candidates(packets, k)[i]).1,
            ),
    decreases k,
{
    if k > 0 {
        gathered_are_cut(arithmetic, graph, plan, params, packets, k - 1);
        let before = run::joined_candidates(packets, k - 1);
        let all = run::joined_candidates(packets, k);
        assert(worker::batch_cut(arithmetic, graph, plan, params, packets[k - 1]));
        assert forall|i: int| 0 <= i < all.len() implies worker::accepted_for(
            arithmetic,
            graph,
            plan,
            params,
            (#[trigger] all[i]).1,
        ) by {
            if i < before.len() {
                assert(all[i] == before[i]);
            } else {
                let j = i - before.len();
                assert(all[i].1 == packets[k - 1].proposals[j].1@);
            }
        }
    }
}

/// Runs a chain from a plan: in each round the workers draw a batch of events
/// each at the current plan, and the run absorbs them, until it reaches its
/// length. The log covers every position of the run unless a draw failed, and
/// the run went well if and only if a step was accepted and no draw failed.
pub fn run_chain<C: ChainConstraint, F: Fn(Op, Double, Double) -> Double + Copy>(
    graph: &Graph,
    partition: &Partition,
    params: &RecomParams,
    n_threads: usize,
    batch_size: usize,
    constraint: &C,
    arithmetic: Arithmetic<F>,
) -> (r: ChainLog)
    requires
        worker::runs(graph, partition@, params, constraint),
        run_fits(params, n_threads, batch_size),
        arithmetic.valid(),
    ensures
        logs(graph, partition@, params, constraint, r.packets@),
        cut_from_trees(arithmetic, graph, partition@, params, r.packets@),
        !r.failed ==> covered(r.packets@, r.packets@.len() as int) == run_length(params.num_steps),
        !r.failed ==> (r.result is Ok <==> exists|k: int|
            0 <= k < r.packets.len() && (#[trigger] r.packets[k]).proposal is Some),
        !r.failed && r.result is Err ==> r.result->Err_0@ == run::nothing_accepted(),
        r.failed ==> covered(r.packets@, r.packets@.len() as int) < run_length(params.num_steps),
        r.failed ==> (r.result matches Err(e) && cut_short(
            arithmetic,
            graph,
            plan_at(partition@, r.packets@, r.packets@.len() as int),
            params,
            constraint,
            e@,
        )),
{
    let mut workers: Vec<Worker<C, F>> = worker::make_workers(
        graph,
        partition,
        params,
        constraint,
        n_threads,
        arithmetic,
    );
    let mut rng: SmallRng = random::seeded(params.rng_seed).rng;
    let mut chain: ChainRun = ChainRun::new(params.num_steps);
    let mut packets: Vec<StepPacket> = Vec::new();
    let mut diff: Option<RecomProposal> = None;
    let ghost mut before = partition@;
    while !chain.done()
        invariant
            run_fits(params, n_threads, batch_size),
            arithmetic.valid(),
            worker::runs(graph, partition@, params, constraint),
            chain.valid(),
            chain.target() == run_length(params.num_steps),
            logs(graph, partition@, params, constraint, packets@),
            cut_from_trees(arithmetic, graph, partition@, params, packets@),
            forall|k: int| 0 <= k < packets.len() ==> (#[trigger] packets[k]).proposal is Some,
            chain.moved() <==> packets.len() > 0,
            covered(packets@, packets@.len() as int) == chain.position()
                - chain.waiting().total(),
            worker::may_count(
                graph,
                plan_at(partition@, packets@, packets@.len() as int),
                params,
                constraint,
                chain.waiting(),
            ),
            workers.len() == n_threads,
            diff matches Some(p) ==> before.admits(p@),
            before.valid(),
            before.assignments.len() == graph.order(),
            worker::moved(before, diff) == plan_at(partition@, packets@, packets@.len() as int),
            forall|j: int|
                0 <= j < workers.len() ==> (#[trigger] workers[j]).valid(graph, constraint)
                    && workers[j].plan() == before && draw::made_for(
                    workers[j].draws_by(),
                    params,
                    arithmetic,
                ),
        decreases chain.target() - chain.position(),
    {
        let ghost plan = plan_at(partition@, packets@, packets@.len() as int);
        let round: Vec<ResultPacket> = match work_round(
            graph,
            params,
            constraint,
            &arithmetic,
            &mut workers,
            batch_size,
            &diff,
            Ghost(before),
        ) {
            Ok(round) => round,
            Err(e) => {
                return ChainLog { packets, result: Err(e), failed: true };
            },
        };
        proof {
            logged_plans_are_valid(
                graph,
                partition@,
                params,
                constraint,
                packets@,
                packets@.len() as int,
            );
            before = plan;
        }
        let events: ResultPacket = run::gather(&round);
        proof {
            gathered_are_drawn(
                graph,
                plan,
                params,
                constraint,
                round@,
                round@.len() as int,
                batch_size as nat,
            );
            gathered_are_cut(arithmetic, graph, plan, params, round@, round@.len() as int);
            assert(n_threads * batch_size > 0) by (nonlinear_arith)
                requires
                    n_threads > 0,
                    batch_size > 0,
            ;
        }
        let ghost earlier = packets@;
        let ghost start = chain;
        proof {
            assert forall|reason: SelfLoopReason| #[trigger]
                events.counts.count(reason) > 0 implies worker::may_loop(
                graph,
                plan,
                params,
                constraint,
                reason,
            ) by {
                gathered_may_count(
                    graph,
                    plan,
                    params,
                    constraint,
                    round@,
                    reason,
                    round@.len() as int,
                    batch_size as nat,
                );
            }
        }
        match chain.absorb(&events, &mut rng) {
            Some(packet) => {
                proof {
                    grown_may_count(
                        graph,
                        plan,
                        params,
                        constraint,
                        start.waiting(),
                        packet.counts,
                        events.counts,
                    );
                    let p = packet.proposal->0@;
                    let i = choose|i: int|
                        0 <= i < events.proposals.len() && (#[trigger] events.proposals[i]).1@ == p;
                    let items = run::joined_candidates(round@, round@.len() as int);
                    let order = choose|order: Seq<usize>| #[trigger]
                        crate::sorting::stable_order_of(run::ids(items), order) && run::candidates(
                            events.proposals@,
                        ) == Seq::new(order.len(), |i: int| items[order[i] as int]);
                    assert(run::candidates(events.proposals@)[i].1 == p);
                    assert(run::candidates(events.proposals@).len() == order.len());
                    assert(order.contains(order[i]));
                    assert(items[order[i] as int].1 == p);
                    assert(draw::proposes(graph, plan, params, p));
                    run::grown_in_total(start.waiting(), packet.counts, events.counts);
                    log_extended(graph, partition@, params, constraint, earlier, packet);
                    cut_from_trees_extended(
                        arithmetic,
                        graph,
                        partition@,
                        params,
                        earlier,
                        packet,
                    );
                }
                diff = match &packet.proposal {
                    Some(p) => Some(p.clone()),
                    None => None,
                };
                packets.push(packet);
            },
            None => {
                proof {
                    grown_may_count(
                        graph,
                        plan,
                        params,
                        constraint,
                        start.waiting(),
                        chain.waiting(),
                        events.counts,
                    );
                    run::grown_in_total(start.waiting(), chain.waiting(), events.counts);
                }
                diff = None;
            },
        }
    }
    let (trailing, result): (Option<StepPacket>, Result<(), String>) = chain.finish();
    let ghost earlier = packets@;
    match trailing {
        Some(packet) => {
            proof {
                cut_from_trees_extended(
                    arithmetic,
                    graph,
                    partition@,
                    params,
                    earlier,
                    packet,
                );
                log_extended(graph, partition@, params, constraint, earlier, packet);
            }
            packets.push(packet);
        },
        None => {},
    }
    proof {
        if earlier.len() > 0 {
            assert(packets@[0].proposal is Some);
        }
    }
    ChainLog { packets, result, failed: false }
}

/// What a packet adds to the output.
pub open spec fn packet_entries<W: StatsWriter>(
    writer: W,
    graph: &Graph,
    plan: Plan,
    packet: StepPacket,
) -> Seq<Entry> {
    match packet.proposal {
        Some(p) => writer.step_entries(packet.step as int, graph, plan, p@, packet.counts),
        None => writer.loop_entries(packet.step as int, graph, plan, packet.counts),
    }
}

/// The output after the seed plan and the first `k` packets, where `states`
/// are the writer's states before the seed plan and after each record.
pub open spec fn output_upto<W: StatsWriter>(
    states: Seq<W>,
    graph: &Graph,
    seed: Plan,
    packets: Seq<StepPacket>,
    k: int,
) -> Seq<Entry>
    decreases k,
{
    if k <= 0 {
        states[0].seed_entries(graph, seed)
    } else {
        output_upto(states, graph, seed, packets, k - 1) + packet_entries(
            states[k],
            graph,
            plan_at(seed, packets, k),
            packets[k - 1],
        )
    }
}

/// Whether a writer becomes another when it records a packet that led to a plan.
pub open spec fn packet_recorded<W: StatsWriter>(
    writer: W,
    graph: &Graph,
    plan: Plan,
    packet: StepPacket,
    next: W,
) -> bool {
    match packet.proposal {
        Some(p) => writer.stepped(packet.step as int, graph, plan, p@, packet.counts, &next),
        None => writer.waited(packet.step as int, graph, plan, packet.counts, &next),
    }
}

/// Whether writer states follow a log: each comes from the one before it, and
/// stands at the plan and position of the log.
pub open spec fn states_follow<W: StatsWriter>(
    states: Seq<W>,
    graph: &Graph,
    seed: Plan,
    packets: Seq<StepPacket>,
) -> bool {
    &&& states[0].begun(graph, seed, &states[1])
    &&& forall|k: int|
        #![trigger states[k + 2]]
        0 <= k < states.len() - 2 ==> packet_recorded(
            states[k + 1],
            graph,
            plan_at(seed, packets, k + 1),
            packets[k],
            states[k + 2],
        )
    &&& forall|k: int|
        #![trigger states[k + 1]]
        0 <= k < states.len() - 1 ==> states[k + 1].stands(
            graph,
            plan_at(seed, packets, k),
            covered(packets, k),
        )
}

proof fn output_of_prefix<W: StatsWriter>(
    a: Seq<W>,
    b: Seq<W>,
    graph: &Graph,
    seed: Plan,
    packets: Seq<StepPacket>,
    k: int,
)
    requires
        0 <= k < a.len() <= b.len(),
        forall|i: int| 0 <= i < a.len() ==> a[i] == #[trigger] b[i],
    ensures
        output_upto(a, graph, seed, packets, k) == output_upto(b, graph, seed, packets, k),
    decreases k,
{
    assert(a[0] == b[0]);
    if k > 0 {
        output_of_prefix(a, b, graph, seed, packets, k - 1);
        assert(a[k] == b[k]);
    }
}

pub(crate) fn append(out: &mut Vec<Record>, more: Vec<Record>)
    ensures
        records::entries(final(out)@) == records::entries(old(out)@) + records::entries(more@),
{
    let mut rest: Vec<Record> = more;
    let ghost whole = out@ + rest@;
    out.append(&mut rest);
    assert(out@ =~= whole);
    assert(records::entries(out@) =~= records::entries(old(out)@) + records::entries(more@));
}

/// Writes the log of a chain: the seed plan, then each packet with the plan
/// that it leads to, then the end.
pub fn write_log<C: ChainConstraint, W: StatsWriter>(
    graph: &Graph,
    partition: &Partition,
    params: &RecomParams,
    constraint: &C,
    writer: &mut W,
    packets: &Vec<StepPacket>,
) -> (r: Vec<Record>)
    requires
        graph.sound(),
        partition@.valid(),
        partition@.assignments.len() == graph.order(),
        logs(graph, partition@, params, constraint, packets@),
        old(writer).starts(graph, partition),
    ensures
        exists|states: Seq<W>|
            {
                &&& states.len() == packets.len() + 2
                &&& states[0] == *old(writer)
                &&& #[trigger] states_follow(states, graph, partition@, packets@)
                &&& records::entries(r@) == output_upto(
                    states,
                    graph,
                    partition@,
                    packets@,
                    packets@.len() as int,
                ) + states.last().close_entries()
                &&& states.last().ended(final(writer))
            },
{
    let ghost mut states: Seq<W> = seq![*writer];
    let mut out: Vec<Record> = writer.init(graph, partition);
    let mut current: Partition = partition.clone();
    proof {
        let old_states = states;
        states = states.push(*writer);
        assert(states[0] == old_states[0]);
    }
    let ghost seed = partition@;
    let mut k: usize = 0;
    while k < packets.len()
        invariant
            k <= packets.len(),
            graph.sound(),
            seed == partition@,
            seed.valid(),
            seed.assignments.len() == graph.order(),
            logs(graph, seed, params, constraint, packets@),
            states.len() == k + 2,
            states[0] == *old(writer),
            states.last() == *writer,
            states_follow(states, graph, seed, packets@),
            current@ == plan_at(seed, packets@, k as int),
            records::entries(out@) == output_upto(states, graph, seed, packets@, k as int),
        decreases packets.len() - k,
    {
        let packet: &StepPacket = &packets[k];
        let ghost before = current@;
        let ghost last = covered(packets@, k as int);
        let ghost old_states = states;
        proof {
            assert(follows(graph, seed, params, constraint, packets@, k as int));
            logged_plans_are_valid(graph, seed, params, constraint, packets@, k as int);
            logged_plans_are_valid(graph, seed, params, constraint, packets@, k + 1);
            assert(states[k + 1].stands(graph, before, last));
        }
        match &packet.proposal {
            Some(proposal) => {
                current.update(proposal);
                proof {
                    constraints::redrawn_nodes_are_within(before, proposal@);
                    assert(writers::next_step(
                        graph,
                        before,
                        current@,
                        last,
                        packet.step,
                        packet.counts,
                    ));
                    writer.ready_to_step(
                        graph,
                        before,
                        last,
                        packet.step,
                        &current,
                        proposal,
                        &packet.counts,
                    );
                }
                let more: Vec<Record> = writer.step(
                    packet.step,
                    graph,
                    &current,
                    proposal,
                    &packet.counts,
                );
                append(&mut out, more);
            },
            None => {
                proof {
                    assert(writers::next_loops(
                        graph,
                        current@,
                        last,
                        packet.step,
                        packet.counts,
                    ));
                    writer.ready_to_wait(graph, &current, last, packet.step, &packet.counts);
                }
                let more: Vec<Record> = writer.self_loop(
                    packet.step,
                    graph,
                    &current,
                    &packet.counts,
                );
                append(&mut out, more);
            },
        }
        proof {
            states = states.push(*writer);
            assert(states[0] == old_states[0] && states[1] == old_states[1]);
            assert forall|j: int|
                #![trigger states[j + 2]]
                0 <= j < states.len() - 2 implies packet_recorded(
                states[j + 1],
                graph,
                plan_at(seed, packets@, j + 1),
                packets@[j],
                states[j + 2],
            ) by {
                assert(states[j + 1] == old_states[j + 1]);
                if j < k {
                    assert(states[j + 2] == old_states[j + 2]);
                }
            }
            output_of_prefix(old_states, states, graph, seed, packets@, k as int);
            assert(states[k + 1] == old_states[k + 1]);
            assert forall|j: int|
                #![trigger states[j + 1]]
                0 <= j < states.len() - 1 implies states[j + 1].stands(
                graph,
                plan_at(seed, packets@, j),
                covered(packets@, j),
            ) by {
                if j < k + 1 {
                    assert(states[j + 1] == old_states[j + 1]);
                }
            }
        }
        k += 1;
    }
    proof {
        assert(states[k + 1].stands(
            graph,
            plan_at(seed, packets@, k as int),
            covered(packets@, k as int),
        ));
        writer.ready_to_close(graph, current@, covered(packets@, k as int));
    }
    let more: Vec<Record> = writer.close();
    append(&mut out, more);
    assert(states_follow(states, graph, partition@, packets@));
    out
}

/// Whether records are those of a chain run that a writer wrote, and what the
/// writer became.
pub open spec fn written_run<
    C: ChainConstraint,
    W: StatsWriter,
    F: Fn(Op, Double, Double) -> Double,
>(
    arithmetic: Arithmetic<F>,
    graph: &Graph,
    seed: Plan,
    params: &RecomParams,
    constraint: &C,
    writer: W,
    log: ChainLog,
    out: Seq<Entry>,
    after: W,
) -> bool {
    &&& logs(graph, seed, params, constraint, log.packets@)
    &&& cut_from_trees(arithmetic, graph, seed, params, log.packets@)
    &&& !log.failed ==> covered(log.packets@, log.packets@.len() as int) == run_length(
        params.num_steps,
    )
    &&& !log.failed ==> (log.result is Ok <==> exists|k: int|
        0 <= k < log.packets.len() && (#[trigger] log.packets[k]).proposal is Some)
    &&& !log.failed && log.result is Err ==> log.result->Err_0@ == run::nothing_accepted()
    &&& log.failed ==> covered(log.packets@, log.packets@.len() as int) < run_length(
        params.num_steps,
    )
    &&& log.failed ==> (log.result matches Err(e) && cut_short(
        arithmetic,
        graph,
        plan_at(seed, log.packets@, log.packets@.len() as int),
        params,
        constraint,
        e@,
    ))
    &&& exists|states: Seq<W>|
        {
            &&& states.len() == log.packets.len() + 2
            &&& states[0] == writer
            &&& #[trigger] states_follow(states, graph, seed, log.packets@)
            &&& out == output_upto(
                states,
                graph,
                seed,
                log.packets@,
                log.packets@.len() as int,
            ) + states.last().close_entries()
            &&& states.last().ended(&after)
        }
}

/// Runs a chain under a constraint and writes it. The output goes to `out`.
/// Where the seed plan violates the constraint nothing is run or written.
pub fn multi_chain_with_constraint<
    C: ChainConstraint,
    W: StatsWriter,
    F: Fn(Op, Double, Double) -> Double + Copy,
>(
    graph: &Graph,
    partition: &Partition,
    writer: &mut W,
    params: &RecomParams,
    n_threads: usize,
    batch_size: usize,
    constraint: &C,
    arithmetic: Arithmetic<F>,
    out: &mut Vec<Record>,
) -> (r: Result<(), String>)
    requires
        worker::runs(graph, partition@, params, constraint),
        run_fits(params, n_threads, batch_size),
        arithmetic.valid(),
        old(writer).starts(graph, partition),
    ensures
        !constraint.allows(graph, partition@) ==> {
            &&& r matches Err(e) && e@ == "Initial partition does not satisfy the chain constraint"@
            &&& final(out)@ == old(out)@
            &&& *final(writer) == *old(writer)
        },
        constraint.allows(graph, partition@) ==> exists|log: ChainLog, more: Seq<Entry>|
            {
                &&& #[trigger] written_run(
                    arithmetic,
                    graph,
                    partition@,
                    params,
                    constraint,
                    *old(writer),
                    log,
                    more,
                    *final(writer),
                )
                &&& records::entries(final(out)@) == records::entries(old(out)@) + more
                &&& log.result == r
            },
{
    let state: C::State = constraint.init(graph, partition);
    if !constraint.is_valid_state(&state) {
        return Err("Initial partition does not satisfy the chain constraint".to_string());
    }
    let log: ChainLog = run_chain(
        graph,
        partition,
        params,
        n_threads,
        batch_size,
        constraint,
        arithmetic,
    );
    let records: Vec<Record> = write_log(
        graph,
        partition,
        params,
        constraint,
        writer,
        &log.packets,
    );
    let ghost more = records::entries(records@);
    let ghost whole = log;
    append(out, records);
    assert(written_run(
        arithmetic,
        graph,
        partition@,
        params,
        constraint,
        *old(writer),
        whole,
        more,
        *writer,
    ));
    log.result
}

/// Runs a chain without a constraint and writes it. The output goes to `out`.
pub fn multi_chain<W: StatsWriter, F: Fn(Op, Double, Double) -> Double + Copy>(
    graph: &Graph,
    partition: &Partition,
    writer: &mut W,
    params: &RecomParams,
    n_threads: usize,
    batch_size: usize,
    arithmetic: Arithmetic<F>,
    out: &mut Vec<Record>,
) -> (r: Result<(), String>)
    requires
        worker::runs(graph, partition@, params, &NoConstraint),
        run_fits(params, n_threads, batch_size),
        arithmetic.valid(),
        old(writer).starts(graph, partition),
    ensures
        exists|log: ChainLog, more: Seq<Entry>|
            {
                &&& #[trigger] written_run(
                    arithmetic,
                    graph,
                    partition@,
                    params,
                    &NoConstraint,
                    *old(writer),
                    log,
                    more,
                    *final(writer),
                )
                &&& records::entries(final(out)@) == records::entries(old(out)@) + more
                &&& log.result == r
            },
{
    multi_chain_with_constraint(
        graph,
        partition,
        writer,
        params,
        n_threads,
        batch_size,
        &NoConstraint,
        arithmetic,
        out,
    )
}

} // verus!
