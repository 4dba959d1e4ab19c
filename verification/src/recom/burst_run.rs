//! Runs of short bursts: workers draw and score proposals, and the walk takes
//! one of them in each round.

use rand::rngs::SmallRng;
use vstd::prelude::*;
use crate::double::{Arithmetic, Double, Op};
use crate::graph::Graph;
use crate::objectives::config::{ObjectiveConfig, ObjectiveState};
use crate::objectives::incremental;
use crate::objectives::incremental::IncrementalObjective;
use crate::partition::{Partition, Plan};
use crate::random::{Pick, SeededRng};
use crate::recom::draw::{Draw, Sampler};
use crate::recom::mst_diagnostics::Failure;
use crate::recom::proposal::{RecomParams, RecomProposal, Redraw};
use crate::recom::short_bursts::{BurstDiff, ScoredProposal, Standing, Visit};
use crate::recom::{chain, draw, pairs, short_bursts};
use crate::spanning_tree::SpanningTreeBuffer;
use crate::{partition, random, sorting};

verus! {

/// Whether a number is the score of the last of some plans: that of a plan from
/// scratch, or what the redrawings from the first plan on lead to.
pub open spec fn rated<O: IncrementalObjective>(
    objective: &O,
    graph: &Graph,
    trail: Seq<Plan>,
    score: Double,
) -> bool {
    exists|state: O::State|
        {
            &&& #[trigger] incremental::arises(objective, graph, trail, state)
            &&& objective.tracks(graph, trail.last(), state)
            &&& score == objective.state_score(state)
        }
}

/// Whether numbers are the district scores of the last of some plans.
pub open spec fn districts_rated<O: IncrementalObjective>(
    objective: &O,
    graph: &Graph,
    trail: Seq<Plan>,
    values: Seq<Double>,
) -> bool {
    exists|state: O::State|
        {
            &&& #[trigger] incremental::arises(objective, graph, trail, state)
            &&& objective.tracks(graph, trail.last(), state)
            &&& values == objective.state_district_scores(state)
        }
}

/// The score of a run's first plan is the score from scratch.
pub proof fn first_plan_is_rated_from_scratch<O: IncrementalObjective>(
    objective: &O,
    graph: &Graph,
    plan: Plan,
    score: Double,
)
    requires
        rated(objective, graph, seq![plan], score),
    ensures
        objective.rates(graph, plan, score),
{
    let trail = seq![plan];
    let state = choose|state: O::State|
        {
            &&& #[trigger] incremental::arises(objective, graph, trail, state)
            &&& objective.tracks(graph, trail.last(), state)
            &&& score == objective.state_score(state)
        };
    objective.fresh_state_rates(graph, plan, state);
}

/// A state that arises along plans has the sums of the last plan as from
/// scratch, whatever the number of redrawings, where the arithmetic is exact on
/// the sums of each plan.
pub proof fn arisen_state_sums_up<F: Fn(Op, Double, Double) -> Double>(
    objective: &ObjectiveConfig<F>,
    scale: spec_fn(Double) -> Option<int>,
    bound: int,
    graph: &Graph,
    trail: Seq<Plan>,
    state: ObjectiveState,
)
    requires
        forall|i: int|
            0 <= i < trail.len() ==> objective.exact_at(scale, bound, graph, #[trigger] trail[i]),
        graph.sound(),
        objective.prepared(graph),
        objective.measures(graph, trail[0]),
        trail[0].valid(),
        trail[0].assignments.len() == graph.order(),
        incremental::arises(objective, graph, trail, state),
    ensures
        objective.sums_up(graph, trail.last(), state),
        trail.last().valid(),
        trail.last().assignments.len() == graph.order(),
        objective.measures(graph, trail.last()),
    decreases trail.len(),
{
    if trail.len() <= 1 {
        objective.fresh_state_sums_up(graph, trail[0], state);
    } else {
        let earlier = trail.drop_last();
        let (before, p) = choose|before: ObjectiveState, p: Redraw|
            {
                &&& #[trigger] objective.applied(graph, before, p, state)
                &&& incremental::arises(objective, graph, earlier, before)
                &&& earlier.last().admits(p)
                &&& trail.last() == earlier.last().redrawn(p)
            };
        assert forall|i: int| 0 <= i < earlier.len() implies objective.exact_at(
            scale,
            bound,
            graph,
            #[trigger] earlier[i],
        ) by {
            assert(earlier[i] == trail[i]);
        }
        arisen_state_sums_up(objective, scale, bound, graph, earlier, before);
        assert(objective.exact_at(scale, bound, graph, trail[trail.len() - 1]));
        assert(objective.exact_at(scale, bound, graph, trail[trail.len() - 2]));
        objective.applied_state_rates(scale, bound, graph, earlier.last(), before, p, state);
        partition::redrawn_is_valid(earlier.last(), p);
        objective.redrawn_is_measured(graph, earlier.last(), p);
    }
}

/// Every score of a run is the score of its plan from scratch, where the
/// arithmetic is exact on the sums of each plan.
pub proof fn rated_from_scratch<F: Fn(Op, Double, Double) -> Double>(
    objective: &ObjectiveConfig<F>,
    scale: spec_fn(Double) -> Option<int>,
    bound: int,
    graph: &Graph,
    trail: Seq<Plan>,
    score: Double,
)
    requires
        forall|i: int|
            0 <= i < trail.len() ==> objective.exact_at(scale, bound, graph, #[trigger] trail[i]),
        objective.zeros_agree(graph, trail.last()),
        graph.sound(),
        objective.prepared(graph),
        objective.measures(graph, trail[0]),
        trail[0].valid(),
        trail[0].assignments.len() == graph.order(),
        rated(objective, graph, trail, score),
    ensures
        objective.scores(graph, trail.last(), score),
{
    let state = choose|state: ObjectiveState|
        {
            &&& #[trigger] incremental::arises(objective, graph, trail, state)
            &&& objective.tracks(graph, trail.last(), state)
            &&& score == objective.state_score(state)
        };
    arisen_state_sums_up(objective, scale, bound, graph, trail, state);
    objective.summed_state_rates(graph, trail.last(), state);
}

/// Whether short bursts can run on a graph from a plan.
pub open spec fn bursts_run<O: IncrementalObjective>(
    graph: &Graph,
    plan: Plan,
    params: &RecomParams,
    objective: &O,
) -> bool {
    &&& graph.sound()
    &&& 0 < graph.order()
    &&& 8 * graph.order() <= usize::MAX
    &&& plan.valid()
    &&& plan.assignments.len() == graph.order()
    &&& draw::supports(graph, params)
    &&& objective.prepared(graph)
    &&& objective.measures(graph, plan)
}

/// Why a worker may give up at a plan: no tree of two districts can be drawn,
/// or the attempts are used up, which draws that come to nothing do.
pub open spec fn gives_up<F: Fn(Op, Double, Double) -> Double>(
    sampler: Sampler<F>,
    graph: &Graph,
    plan: Plan,
    params: &RecomParams,
    failure: Failure,
) -> bool {
    match failure {
        Failure::Tree(e, a, b) => draw::trees_fail(sampler, graph, plan, e, a as int, b as int),
        Failure::Other(message) => message@ == "No proposal could be drawn."@ && draw::draws_fail(
            graph,
            plan,
            params,
        ),
    }
}

/// Whether a message tells why a worker that draws as the parameters ask may
/// give up at a plan.
pub open spec fn cut_short<F: Fn(Op, Double, Double) -> Double>(
    arithmetic: Arithmetic<F>,
    graph: &Graph,
    plan: Plan,
    params: &RecomParams,
    message: Seq<char>,
) -> bool {
    exists|sampler: Sampler<F>, failure: Failure|
        {
            &&& draw::made_for(sampler, params, arithmetic)
            &&& #[trigger] gives_up(sampler, graph, plan, params, failure)
            &&& message == failure.text()
        }
}

/// Draws and scores proposals at its copy of the plan.
pub struct BurstWorker<O: IncrementalObjective, F> {
    partition: Partition,
    state: O::State,
    sampler: Sampler<F>,
    tree: SpanningTreeBuffer,
    rng: SeededRng,
}

impl<O: IncrementalObjective, F: Fn(Op, Double, Double) -> Double> BurstWorker<O, F> {
    /// The worker's copy of the plan.
    pub closed spec fn plan(&self) -> Plan {
        self.partition@
    }

    /// The generator of the worker's random numbers, as it stands.
    pub closed spec fn generator(&self) -> SmallRng {
        self.rng.rng
    }

    /// The seed of the worker's random numbers.
    pub closed spec fn seed(&self) -> u64 {
        self.rng.seed
    }

    /// How the worker draws trees.
    pub closed spec fn draws_by(&self) -> Sampler<F> {
        self.sampler
    }

    /// What the worker keeps about the districts arises along plans that lead
    /// to its copy.
    pub closed spec fn came(&self, graph: &Graph, objective: &O, trail: Seq<Plan>) -> bool {
        &&& trail.len() > 0
        &&& trail.last() == self.partition@
        &&& incremental::arises(objective, graph, trail, self.state)
    }

    /// The worker is ready to draw on a graph.
    pub closed spec fn valid(&self, graph: &Graph, objective: &O) -> bool {
        &&& self.partition@.valid()
        &&& self.partition@.num_dists > 0
        &&& self.partition@.assignments.len() == graph.order()
        &&& self.sampler.serves(graph)
        &&& self.tree.st.len() >= graph.order()
        &&& objective.tracks(graph, self.partition@, self.state)
        &&& objective.suits(self.state)
        &&& objective.measures(graph, self.partition@)
    }

    /// A worker at a plan, with its own random numbers.
    pub fn new(
        graph: &Graph,
        partition: &Partition,
        params: &RecomParams,
        objective: &O,
        rng_seed: u64,
        arithmetic: Arithmetic<F>,
    ) -> (r: BurstWorker<O, F>)
        requires
            bursts_run(graph, partition@, params, objective),
            arithmetic.valid(),
        ensures
            r.plan() == partition@,
            r.seed() == rng_seed,
            r.valid(graph, objective),
            r.came(graph, objective, seq![partition@]),
            draw::made_for(r.draws_by(), params, arithmetic),
    {
        let n: usize = graph.pops.len();
        let state: O::State = objective.init(graph, partition);
        let sampler: Sampler<F> = draw::make_sampler(params, n, arithmetic);
        assert(sampler.serves(graph));
        assert(partition@.assignments[0] < partition@.num_dists);
        BurstWorker {
            partition: partition.clone(),
            state,
            sampler,
            tree: SpanningTreeBuffer::new(n),
            rng: random::seeded(rng_seed),
        }
    }

    /// Follows the walk: applies an accepted proposal, or goes back to a plan
    /// and builds its state anew.
    pub fn follow(&mut self, graph: &Graph, objective: &O, diff: &BurstDiff)
        requires
            graph.sound(),
            objective.prepared(graph),
            old(self).valid(graph, objective),
            match *diff {
                BurstDiff::Unchanged => true,
                BurstDiff::Apply(p) => old(self).plan().admits(p@),
                BurstDiff::Reset(plan) => {
                    &&& plan@.valid()
                    &&& plan@.num_dists > 0
                    &&& plan@.assignments.len() == graph.order()
                    &&& objective.measures(graph, plan@)
                },
            },
        ensures
            final(self).valid(graph, objective),
            final(self).plan() == followed(old(self).plan(), *diff),
            final(self).seed() == old(self).seed(),
            final(self).draws_by() == old(self).draws_by(),
            forall|trail: Seq<Plan>| #[trigger]
                old(self).came(graph, objective, trail) ==> final(self).came(
                    graph,
                    objective,
                    lengthened(trail, *diff),
                ),
    {
        match diff {
            BurstDiff::Unchanged => {},
            BurstDiff::Apply(proposal) => {
                let ghost plan = self.partition@;
                let ghost before = self.state;
                proof {
                    objective.tracked_state_accepts(graph, plan, before, proposal@);
                    objective.redrawn_is_measured(graph, plan, proposal@);
                }
                objective.apply_proposal(graph, &mut self.state, proposal);
                self.partition.update(proposal);
                proof {
                    objective.applied_state_tracks(
                        graph,
                        plan,
                        before,
                        proposal@,
                        self.state,
                    );
                    assert forall|trail: Seq<Plan>| #[trigger]
                        old(self).came(graph, objective, trail) implies self.came(
                        graph,
                        objective,
                        lengthened(trail, *diff),
                    ) by {
                        incremental::arises_further(
                            objective,
                            graph,
                            trail,
                            before,
                            proposal@,
                            self.state,
                        );
                    }
                }
            },
            BurstDiff::Reset(plan) => {
                self.partition = plan.clone();
                self.state = objective.init(graph, &self.partition);
            },
        }
    }

    /// Scores what was drawn, and numbers it.
    fn score_drawn(
        &mut self,
        graph: &Graph,
        params: &RecomParams,
        objective: &O,
        proposal: RecomProposal,
    ) -> (r: ScoredProposal)
        requires
            bursts_run(graph, old(self).plan(), params, objective),
            old(self).valid(graph, objective),
            draw::proposes(graph, old(self).plan(), params, proposal@),
        ensures
            final(self).valid(graph, objective),
            final(self).plan() == old(self).plan(),
            final(self).seed() == old(self).seed(),
            final(self).draws_by() == old(self).draws_by(),
            r.proposal == proposal,
            random::gives(old(self).generator(), r.id, final(self).generator()),
            forall|trail: Seq<Plan>| #[trigger]
                old(self).came(graph, objective, trail) ==> rated(
                    objective,
                    graph,
                    trail.push(old(self).plan().redrawn(proposal@)),
                    r.score,
                ) && final(self).came(graph, objective, trail),
    {
        let ghost plan = self.plan();
        proof {
            objective.tracked_state_accepts(graph, plan, self.state, proposal@);
        }
        let score: Double = objective.score_proposal(graph, &self.state, &proposal);
        proof {
            let next = choose|next: O::State| #[trigger]
                objective.applied(graph, self.state, proposal@, next) && score
                    == objective.state_score(next);
            objective.applied_state_tracks(graph, plan, self.state, proposal@, next);
            assert forall|trail: Seq<Plan>| #[trigger]
                old(self).came(graph, objective, trail) implies rated(
                objective,
                graph,
                trail.push(plan.redrawn(proposal@)),
                score,
            ) by {
                incremental::arises_further(
                    objective,
                    graph,
                    trail,
                    self.state,
                    proposal@,
                    next,
                );
            }
        }
        ScoredProposal { id: random::draw_bits(&mut self.rng.rng), proposal, score }
    }

    /// Draws a proposal and scores it. Failed attempts are made again; gives up
    /// where no tree can be drawn or the attempts are used up. Where none of
    /// them drew two districts to redraw, the first two are tried before.
    pub fn draw_burst_proposal(&mut self, graph: &Graph, params: &RecomParams, objective: &O) -> (r:
        Result<ScoredProposal, Failure>)
        requires
            bursts_run(graph, old(self).plan(), params, objective),
            old(self).valid(graph, objective),
        ensures
            final(self).valid(graph, objective),
            final(self).plan() == old(self).plan(),
            final(self).seed() == old(self).seed(),
            r matches Ok(drawn) ==> {
                &&& draw::proposes(graph, old(self).plan(), params, drawn.proposal@)
                &&& draw::cut_by(
                    old(self).draws_by(),
                    graph,
                    old(self).plan(),
                    params,
                    drawn.proposal@,
                )
                &&& forall|trail: Seq<Plan>| #[trigger]
                    old(self).came(graph, objective, trail) ==> rated(
                        objective,
                        graph,
                        trail.push(old(self).plan().redrawn(drawn.proposal@)),
                        drawn.score,
                    )
            },
            forall|trail: Seq<Plan>| #[trigger]
                old(self).came(graph, objective, trail) ==> final(self).came(
                    graph,
                    objective,
                    trail,
                ),
            proposal_comes(
                old(self).draws_by(),
                graph,
                old(self).plan(),
                params,
                old(self).generator(),
                r,
                final(self).generator(),
            ),
            final(self).draws_by().alike(old(self).draws_by()),
            r matches Err(failure) ==> gives_up(
                old(self).draws_by(),
                graph,
                old(self).plan(),
                params,
                failure,
            ),
    {
        let mut attempts: u64 = u64::MAX;
        let mut paired: bool = false;
        let ghost mut count: nat = 0;
        let ghost plan = self.plan();
        while attempts > 0
            invariant
                count + attempts == u64::MAX,
                missed(
                    old(self).draws_by(),
                    graph,
                    plan,
                    params,
                    old(self).generator(),
                    count,
                    self.generator(),
                ),
                bursts_run(graph, plan, params, objective),
                self.valid(graph, objective),
                self.plan() == plan,
                self.seed() == old(self).seed(),
                plan == old(self).plan(),
                self.state == old(self).state,
                self.draws_by().alike(old(self).draws_by()),
                paired ==> draw::splits_fail(graph, plan, params),
            decreases attempts,
        {
            let ghost sampler = self.draws_by();
            let ghost between = self.generator();
            let drawn: Draw = draw::draw_proposal(
                graph,
                &self.partition,
                params,
                &mut self.sampler,
                &mut self.tree,
                &mut self.rng.rng,
            );
            let ghost came = drawn;
            let ghost now = self.generator();
            proof {
                draw::alike_samplers_come_alike(
                    sampler,
                    old(self).draws_by(),
                    graph,
                    plan,
                    params,
                    between,
                    drawn,
                    now,
                );
                assert(draw::draw_comes(
                    old(self).draws_by(),
                    graph,
                    plan,
                    params,
                    between,
                    came,
                    now,
                ));
                drawn_alike(sampler, old(self).draws_by(), graph, plan, params, drawn);
                assert(forall|trail: Seq<Plan>| #[trigger]
                    old(self).came(graph, objective, trail) ==> self.came(
                        graph,
                        objective,
                        trail,
                    ));
            }
            match drawn {
                Draw::Proposal(_, proposal) => {
                    return Ok(self.score_drawn(graph, params, objective, proposal));
                },
                Draw::Failed(e, a, b) => {
                    return Err(Failure::Tree(e, a, b));
                },
                Draw::NoSplit => {
                    paired = true;
                },
                Draw::NoPair => {},
            }
            proof {
                one_more_missed(
                    old(self).draws_by(),
                    graph,
                    plan,
                    params,
                    old(self).generator(),
                    count,
                    between,
                    came,
                    now,
                );
                count = count + 1;
            }
            attempts = attempts - 1;
        }
        if !paired {
            if let Some((a, b)) = pairs::first_pair(graph, &self.partition) {
                let ghost sampler = self.draws_by();
                let drawn: Draw = draw::draw_from_pair(
                    graph,
                    &self.partition,
                    params,
                    a,
                    b,
                    &mut self.sampler,
                    &mut self.tree,
                    &mut self.rng.rng,
                );
                proof {
                    drawn_alike(sampler, old(self).draws_by(), graph, plan, params, drawn);
                    assert(forall|trail: Seq<Plan>| #[trigger]
                        old(self).came(graph, objective, trail) ==> self.came(
                            graph,
                            objective,
                            trail,
                        ));
                }
                match drawn {
                    Draw::Proposal(_, proposal) => {
                        return Ok(self.score_drawn(graph, params, objective, proposal));
                    },
                    Draw::Failed(e, a, b) => {
                        return Err(Failure::Tree(e, a, b));
                    },
                    _ => {},
                }
            }
        }
        Err(Failure::Other("No proposal could be drawn.".to_string()))
    }
}

/// Whether a draw comes to nothing.
pub open spec fn is_missed<F: Fn(Op, Double, Double) -> Double>(
    sampler: Sampler<F>,
    graph: &Graph,
    plan: Plan,
    params: &RecomParams,
    before: SmallRng,
    drawn: Draw,
    after: SmallRng,
) -> bool {
    &&& draw::draw_comes(sampler, graph, plan, params, before, drawn, after)
    &&& drawn is NoPair || drawn is NoSplit
}

/// Whether a number of draws that a generator gives, one after the other, come
/// to nothing.
pub open spec fn missed<F: Fn(Op, Double, Double) -> Double>(
    sampler: Sampler<F>,
    graph: &Graph,
    plan: Plan,
    params: &RecomParams,
    before: SmallRng,
    count: nat,
    after: SmallRng,
) -> bool
    decreases count,
{
    if count == 0 {
        before == after
    } else {
        exists|drawn: Draw, between: SmallRng|
            {
                &&& missed(
                    sampler,
                    graph,
                    plan,
                    params,
                    before,
                    (count - 1) as nat,
                    between,
                )
                &&& #[trigger] is_missed(sampler, graph, plan, params, between, drawn, after)
            }
    }
}

proof fn one_more_missed<F: Fn(Op, Double, Double) -> Double>(
    sampler: Sampler<F>,
    graph: &Graph,
    plan: Plan,
    params: &RecomParams,
    before: SmallRng,
    count: nat,
    between: SmallRng,
    drawn: Draw,
    after: SmallRng,
)
    requires
        missed(sampler, graph, plan, params, before, count, between),
        is_missed(sampler, graph, plan, params, between, drawn, after),
    ensures
        missed(sampler, graph, plan, params, before, count + 1, after),
{
}

/// Whether a proposal is what a generator gives next: the first draw that comes
/// to one, with the bits after it as its number, unless as many draws as can be
/// counted come to nothing.
pub open spec fn proposal_comes<F: Fn(Op, Double, Double) -> Double>(
    sampler: Sampler<F>,
    graph: &Graph,
    plan: Plan,
    params: &RecomParams,
    before: SmallRng,
    r: Result<ScoredProposal, Failure>,
    after: SmallRng,
) -> bool {
    exists|count: nat, between: SmallRng|
        {
            &&& #[trigger] missed(sampler, graph, plan, params, before, count, between)
            &&& count == u64::MAX || exists|drawn: Draw, now: SmallRng|
                {
                    &&& #[trigger] draw::draw_comes(
                        sampler,
                        graph,
                        plan,
                        params,
                        between,
                        drawn,
                        now,
                    )
                    &&& match drawn {
                        Draw::Proposal(_, p) => r matches Ok(scored) && scored.proposal == p
                            && random::gives(now, scored.id, after),
                        Draw::Failed(e, a, b) => r == Err::<ScoredProposal, Failure>(
                            Failure::Tree(e, a, b),
                        ) && after == now,
                        _ => false,
                    }
                }
        }
}

/// The place of the next proposal of a walk: the one that the generator picks
/// among all, counted by their numbers.
pub fn next_place(proposals: &Vec<ScoredProposal>, rng: &mut SmallRng) -> (r: usize)
    requires
        proposals.len() > 0,
    ensures
        r < proposals.len(),
        exists|pick: Pick, order: Seq<usize>|
            #[trigger] random::picks(*old(rng), proposals@.len() as usize, pick, *final(rng))
                && #[trigger] sorting::stable_order_of(proposal_ids(proposals@), order) && r
                == order[pick.value as int],
{
    let pick: Pick = random::draw_below(rng, proposals.len());
    let place: usize = place_by_id(proposals, pick);
    assert(random::picks(*old(rng), proposals@.len() as usize, pick, *rng));
    place
}

/// Samplers that draw in the same way come to the same draws.
proof fn drawn_alike<F: Fn(Op, Double, Double) -> Double>(
    s: Sampler<F>,
    t: Sampler<F>,
    graph: &Graph,
    plan: Plan,
    params: &RecomParams,
    drawn: Draw,
)
    requires
        s.alike(t),
        draw::may_come(s, graph, plan, params, drawn),
    ensures
        drawn matches Draw::Proposal(_, p) ==> draw::cut_by(t, graph, plan, params, p@),
        drawn matches Draw::Failed(e, a, b) ==> draw::trees_fail(
            t,
            graph,
            plan,
            e,
            a as int,
            b as int,
        ),
{
    match drawn {
        Draw::Proposal(n, p) => {
            assert(draw::cut_from_a_tree(s, graph, plan, params, n as nat, &p));
            draw::alike_samplers_redraw_alike(s, t, graph, plan, params, p@);
        },
        Draw::Failed(e, a, b) => {
            draw::alike_samplers_fail_alike(s, t, graph, plan, e, a as int, b as int);
        },
        _ => {},
    }
}

/// The plan of a worker after a change of the walk.
pub open spec fn followed(plan: Plan, diff: BurstDiff) -> Plan {
    match diff {
        BurstDiff::Unchanged => plan,
        BurstDiff::Apply(p) => plan.redrawn(p@),
        BurstDiff::Reset(other) => other@,
    }
}

/// The plans that lead to a worker's plan after a change of the walk.
pub open spec fn lengthened(trail: Seq<Plan>, diff: BurstDiff) -> Seq<Plan> {
    match diff {
        BurstDiff::Unchanged => trail,
        BurstDiff::Apply(p) => trail.push(trail.last().redrawn(p@)),
        BurstDiff::Reset(other) => seq![other@],
    }
}

/// The numbers that order proposals.
pub open spec fn proposal_ids(proposals: Seq<ScoredProposal>) -> Seq<u64> {
    Seq::new(proposals.len(), |i: int| proposals[i].id)
}

/// The place of the proposal that was drawn among all, counted by their
/// numbers.
pub fn place_by_id(proposals: &Vec<ScoredProposal>, choice: Pick) -> (r: usize)
    requires
        choice.among(proposals@.len()),
    ensures
        r < proposals.len(),
        exists|order: Seq<usize>| #[trigger]
            sorting::stable_order_of(proposal_ids(proposals@), order) && r
                == order[choice.value as int],
{
    let mut keys: Vec<u64> = Vec::new();
    let mut i: usize = 0;
    while i < proposals.len()
        invariant
            i <= proposals.len(),
            keys.len() == i,
            forall|j: int| 0 <= j < i ==> #[trigger] keys[j] == proposals[j].id,
        decreases proposals.len() - i,
    {
        keys.push(proposals[i].id);
        i += 1;
    }
    assert(keys@ =~= proposal_ids(proposals@));
    let order: Vec<usize> = sorting::stable_order(&keys);
    assert(order@.contains(order@[choice.value as int]));
    *random::chosen(&order, choice)
}

/// What a step did to the walk.
#[derive(Debug)]
pub struct BurstStep {
    /// What workers are told.
    pub diff: BurstDiff,
    /// Whether the step's score is better than any before.
    pub improved: bool,
}

/// The progress of a run of short bursts.
#[derive(Debug)]
pub struct BurstRun {
    partition: Partition,
    score: Double,
    burst_best: Partition,
    burst_score: Double,
    best: Partition,
    best_score: Double,
    step: u64,
    effective_steps: u64,
    step_in_burst: usize,
    burst_length: usize,
    maximize: bool,
}

impl BurstRun {
    /// The plan that the next step starts from.
    pub closed spec fn here(&self) -> Visit {
        Visit { plan: self.partition@, score: self.score }
    }

    /// The best plan of the burst.
    pub closed spec fn burst(&self) -> Visit {
        Visit { plan: self.burst_best@, score: self.burst_score }
    }

    /// The best plan of the run.
    pub closed spec fn best_visit(&self) -> Visit {
        Visit { plan: self.best@, score: self.best_score }
    }

    /// The number of steps taken.
    pub closed spec fn position(&self) -> int {
        self.step as int
    }

    /// The number of steps of the run.
    pub closed spec fn target(&self) -> int {
        self.effective_steps as int
    }

    pub closed spec fn in_burst(&self) -> nat {
        self.step_in_burst as nat
    }

    pub closed spec fn length(&self) -> nat {
        self.burst_length as nat
    }

    pub closed spec fn maximizes(&self) -> bool {
        self.maximize
    }

    /// The run stands where its visits lead to.
    pub open spec fn follows(&self, seed: Visit, visits: Seq<Visit>) -> bool {
        &&& self.position() == visits.len()
        &&& short_bursts::standing(seed, visits, self.length(), self.maximizes()) == (Standing {
            current: self.here(),
            burst_best: self.burst(),
            in_burst: self.in_burst(),
        })
        &&& short_bursts::best_of(seed, visits, self.maximizes()) == self.best_visit()
    }

    pub open spec fn valid(&self) -> bool {
        &&& 0 <= self.position() <= self.target()
        &&& self.target() < u64::MAX
        &&& self.in_burst() < self.length()
        &&& self.here().plan.valid()
    }

    /// A run from a seed plan. The seed plan is the first output record, so the
    /// walk has one step fewer than there are records.
    pub fn new(
        partition: &Partition,
        score: Double,
        num_steps: u64,
        burst_length: usize,
        maximize: bool,
    ) -> (r: BurstRun)
        requires
            partition@.valid(),
            burst_length > 0,
        ensures
            r.valid(),
            r.position() == 0,
            r.target() == chain::run_length(num_steps),
            r.length() == burst_length,
            r.maximizes() == maximize,
            r.here() == (Visit { plan: partition@, score }),
            r.follows(r.here(), Seq::<Visit>::empty()),
    {
        let effective_steps: u64 = if num_steps == 0 {
            0
        } else {
            num_steps - 1
        };
        BurstRun {
            partition: partition.clone(),
            score,
            burst_best: partition.clone(),
            burst_score: score,
            best: partition.clone(),
            best_score: score,
            step: 0,
            effective_steps,
            step_in_burst: 0,
            burst_length,
            maximize,
        }
    }

    pub fn done(&self) -> (r: bool)
        ensures
            r == (self.position() >= self.target()),
    {
        self.step >= self.effective_steps
    }

    /// The best plan of the run.
    pub fn best_partition(&self) -> (r: Partition)
        ensures
            r@ == self.best_visit().plan,
    {
        self.best.clone()
    }

    /// The plan that the next step starts from.
    pub fn current(&self) -> (r: &Partition)
        ensures
            r@ == self.here().plan,
    {
        &self.partition
    }

    /// Takes a step: the proposal is applied, the best plans are kept up, and a
    /// complete burst goes back to its best plan.
    pub fn advance(&mut self, proposal: &RecomProposal, score: Double) -> (r: BurstStep)
        requires
            old(self).valid(),
            old(self).position() < old(self).target(),
            old(self).here().plan.admits(proposal@),
            old(self).burst().plan.valid(),
        ensures
            final(self).valid(),
            final(self).burst().plan.valid(),
            final(self).position() == old(self).position() + 1,
            final(self).target() == old(self).target(),
            final(self).length() == old(self).length(),
            final(self).maximizes() == old(self).maximizes(),
            forall|seed: Visit, visits: Seq<Visit>| #[trigger]
                old(self).follows(seed, visits) ==> final(self).follows(
                    seed,
                    visits.push(
                        (Visit { plan: old(self).here().plan.redrawn(proposal@), score }),
                    ),
                ),
            r.improved == short_bursts::better(
                score,
                old(self).best_visit().score,
                old(self).maximizes(),
            ),
            r.diff is Reset <==> short_bursts::goes_back(
                (Standing {
                    current: old(self).here(),
                    burst_best: old(self).burst(),
                    in_burst: old(self).in_burst(),
                }),
                (Visit { plan: old(self).here().plan.redrawn(proposal@), score }),
                old(self).length(),
                old(self).maximizes(),
            ),
            match r.diff {
                BurstDiff::Unchanged => false,
                BurstDiff::Apply(p) => {
                    &&& p@ == proposal@
                    &&& final(self).here().plan == old(self).here().plan.redrawn(proposal@)
                },
                BurstDiff::Reset(plan) => {
                    &&& plan@ == final(self).here().plan
                    &&& plan@ == old(self).burst().plan
                },
            },
    {
        let ghost before = *self;
        let ghost visit = Visit { plan: self.partition@.redrawn(proposal@), score };
        self.partition.update(proposal);
        self.score = score;
        self.step = self.step + 1;
        self.step_in_burst = self.step_in_burst + 1;
        if short_bursts::is_better(score, self.burst_score, self.maximize) {
            self.burst_best = self.partition.clone();
            self.burst_score = score;
        }
        let improved: bool = short_bursts::is_better(score, self.best_score, self.maximize);
        if improved {
            self.best = self.partition.clone();
            self.best_score = score;
        }
        let mut snapped: bool = false;
        if self.step_in_burst == self.burst_length {
            if short_bursts::is_better(self.burst_score, score, self.maximize) {
                self.partition = self.burst_best.clone();
                self.score = self.burst_score;
                snapped = true;
            }
            self.burst_best = self.partition.clone();
            self.burst_score = self.score;
            self.step_in_burst = 0;
        }
        proof {
            assert forall|seed: Visit, visits: Seq<Visit>| #[trigger]
                before.follows(seed, visits) implies self.follows(seed, visits.push(visit)) by {
                assert(visits.push(visit).drop_last() =~= visits);
            }
        }
        let diff: BurstDiff = if snapped {
            BurstDiff::Reset(self.partition.clone())
        } else {
            BurstDiff::Apply(proposal.clone())
        };
        BurstStep { diff, improved }
    }
}

/// An accepted step of a run.
#[derive(Debug)]
pub struct BurstRecord {
    pub partition: Partition,
    pub score: Double,
    /// The score of each district.
    pub district_scores: Vec<Double>,
    /// Whether the score is better than any before.
    pub improved: bool,
}

/// The log of a run of short bursts.
pub struct BurstLog {
    pub seed_score: Double,
    pub seed_district_scores: Vec<Double>,
    pub records: Vec<BurstRecord>,
    /// The best plan of the run.
    pub best: Partition,
    /// Why the run was cut short, if it was.
    pub failure: Option<String>,
}

/// The plans of records and their scores.
pub open spec fn visits_of(records: Seq<BurstRecord>) -> Seq<Visit> {
    Seq::new(
        records.len(),
        |i: int| Visit { plan: records[i].partition@, score: records[i].score },
    )
}

/// Whether a record follows the first `i` records of a run: it redraws the plan
/// that the run stood at, its scores are those of its plan, and it is marked
/// where its score is better than any before.
pub open spec fn record_follows<O: IncrementalObjective>(
    graph: &Graph,
    seed: Visit,
    params: &RecomParams,
    objective: &O,
    burst: nat,
    maximize: bool,
    records: Seq<BurstRecord>,
    i: int,
) -> bool {
    let earlier = visits_of(records).take(i);
    let from = short_bursts::standing(seed, earlier, burst, maximize).current.plan;
    let trail = short_bursts::trail(seed, earlier, burst, maximize).push(records[i].partition@);
    &&& exists|p: Redraw| #[trigger]
        draw::proposes(graph, from, params, p) && records[i].partition@ == from.redrawn(p)
    &&& records[i].partition@.valid()
    &&& records[i].partition@.assignments.len() == graph.order()
    &&& records[i].partition@.num_dists == seed.plan.num_dists
    &&& rated(objective, graph, trail, records[i].score)
    &&& districts_rated(objective, graph, trail, records[i].district_scores@)
    &&& records[i].improved == short_bursts::better(
        records[i].score,
        short_bursts::best_of(seed, earlier, maximize).score,
        maximize,
    )
}

/// Whether every plan of a run was redrawn by a tree that the run may draw: by
/// the weights that its parameters give to edges, where they give any.
pub open spec fn cut_from_trees<F: Fn(Op, Double, Double) -> Double>(
    arithmetic: Arithmetic<F>,
    graph: &Graph,
    seed: Visit,
    params: &RecomParams,
    burst: nat,
    maximize: bool,
    records: Seq<BurstRecord>,
) -> bool {
    forall|i: int|
        0 <= i < records.len() ==> redrawn_by_a_tree(
            arithmetic,
            graph,
            short_bursts::standing(seed, visits_of(records).take(i), burst, maximize).current.plan,
            params,
            (#[trigger] records[i]).partition@,
        )
}

/// Whether a plan comes from another by a tree that a run may draw.
pub open spec fn redrawn_by_a_tree<F: Fn(Op, Double, Double) -> Double>(
    arithmetic: Arithmetic<F>,
    graph: &Graph,
    from: Plan,
    params: &RecomParams,
    to: Plan,
) -> bool {
    exists|p: Redraw| #[trigger]
        draw::drawn_for(arithmetic, graph, from, params, p) && to == from.redrawn(p)
}

proof fn cut_from_trees_extended<F: Fn(Op, Double, Double) -> Double>(
    arithmetic: Arithmetic<F>,
    graph: &Graph,
    seed: Visit,
    params: &RecomParams,
    burst: nat,
    maximize: bool,
    records: Seq<BurstRecord>,
    record: BurstRecord,
)
    requires
        cut_from_trees(arithmetic, graph, seed, params, burst, maximize, records),
        redrawn_by_a_tree(
            arithmetic,
            graph,
            short_bursts::standing(seed, visits_of(records), burst, maximize).current.plan,
            params,
            record.partition@,
        ),
    ensures
        cut_from_trees(arithmetic, graph, seed, params, burst, maximize, records.push(record)),
{
    let more = records.push(record);
    assert forall|i: int| 0 <= i < more.len() implies redrawn_by_a_tree(
        arithmetic,
        graph,
        short_bursts::standing(seed, visits_of(more).take(i), burst, maximize).current.plan,
        params,
        (#[trigger] more[i]).partition@,
    ) by {
        assert(visits_of(more).take(i) =~= visits_of(records).take(i));
        if i < records.len() {
            assert(more[i] == records[i]);
        } else {
            assert(visits_of(records).take(i) =~= visits_of(records));
        }
    }
}

/// Whether records log a run of short bursts.
pub open spec fn logs_bursts<O: IncrementalObjective>(
    graph: &Graph,
    seed: Visit,
    params: &RecomParams,
    objective: &O,
    burst: nat,
    maximize: bool,
    records: Seq<BurstRecord>,
) -> bool {
    forall|i: int|
        0 <= i < records.len() ==> #[trigger] record_follows(
            graph,
            seed,
            params,
            objective,
            burst,
            maximize,
            records,
            i,
        )
}

proof fn bursts_extended<O: IncrementalObjective>(
    graph: &Graph,
    seed: Visit,
    params: &RecomParams,
    objective: &O,
    burst: nat,
    maximize: bool,
    records: Seq<BurstRecord>,
    record: BurstRecord,
    p: Redraw,
)
    requires
        logs_bursts(graph, seed, params, objective, burst, maximize, records),
        ({
            let from = short_bursts::standing(
                seed,
                visits_of(records),
                burst,
                maximize,
            ).current.plan;
            &&& draw::proposes(graph, from, params, p)
            &&& record.partition@ == from.redrawn(p)
        }),
        record.partition@.valid(),
        record.partition@.assignments.len() == graph.order(),
        record.partition@.num_dists == seed.plan.num_dists,
        ({
            let trail = short_bursts::trail(seed, visits_of(records), burst, maximize).push(
                record.partition@,
            );
            &&& rated(objective, graph, trail, record.score)
            &&& districts_rated(objective, graph, trail, record.district_scores@)
        }),
        record.improved == short_bursts::better(
            record.score,
            short_bursts::best_of(seed, visits_of(records), maximize).score,
            maximize,
        ),
    ensures
        logs_bursts(graph, seed, params, objective, burst, maximize, records.push(record)),
        visits_of(records.push(record)) == visits_of(records).push(
            (Visit { plan: record.partition@, score: record.score }),
        ),
{
    let more = records.push(record);
    assert(visits_of(more) =~= visits_of(records).push(
        Visit { plan: record.partition@, score: record.score },
    ));
    assert forall|i: int| 0 <= i < more.len() implies #[trigger] record_follows(
        graph,
        seed,
        params,
        objective,
        burst,
        maximize,
        more,
        i,
    ) by {
        assert(visits_of(more).take(i) =~= visits_of(records).take(i));
        if i < records.len() {
            assert(record_follows(
                graph,
                seed,
                params,
                objective,
                burst,
                maximize,
                records,
                i,
            ));
            assert(more[i] == records[i]);
        } else {
            assert(visits_of(records).take(i) =~= visits_of(records));
            assert(more[i] == record);
        }
    }
}

/// Lets each worker follow the walk and draw a proposal. Fails where a worker
/// gives up, with the message of the first that does.
fn draw_round<O: IncrementalObjective, F: Fn(Op, Double, Double) -> Double>(
    graph: &Graph,
    params: &RecomParams,
    objective: &O,
    workers: &mut Vec<BurstWorker<O, F>>,
    diff: &BurstDiff,
    behind: Ghost<Seq<Plan>>,
    arithmetic: Ghost<Arithmetic<F>>,
) -> (r: Result<Vec<ScoredProposal>, String>)
    requires
        behind@.len() > 0,
        bursts_run(graph, followed(behind@.last(), *diff), params, objective),
        followed(behind@.last(), *diff).num_dists > 0,
        *diff matches BurstDiff::Apply(p) ==> behind@.last().admits(p@),
        forall|i: int|
            0 <= i < old(workers).len() ==> (#[trigger] old(workers)[i]).valid(graph, objective)
                && old(workers)[i].came(graph, objective, behind@) && old(workers)[i].plan() == behind@.last() && draw::made_for(
                old(workers)[i].draws_by(),
                params,
                arithmetic@,
            ),
    ensures
        final(workers).len() == old(workers).len(),
        r is Ok ==> forall|i: int|
            0 <= i < final(workers).len() ==> (#[trigger] final(workers)[i]).valid(
                graph,
                objective,
            ) && final(workers)[i].came(
                graph,
                objective,
                lengthened(behind@, *diff),
            ) && final(workers)[i].plan() == followed(behind@.last(), *diff) && draw::made_for(
                final(workers)[i].draws_by(),
                params,
                arithmetic@,
            ),
        old(workers).len() == 0 ==> r is Ok,
        r matches Err(e) ==> cut_short(
            arithmetic@,
            graph,
            followed(behind@.last(), *diff),
            params,
            e@,
        ),
        r matches Ok(drawn) ==> {
            &&& drawn.len() == old(workers).len()
            &&& forall|i: int|
                0 <= i < drawn.len() ==> {
                    &&& draw::proposes(
                        graph,
                        followed(behind@.last(), *diff),
                        params,
                        (#[trigger] drawn[i]).proposal@,
                    )
                    &&& draw::drawn_for(
                        arithmetic@,
                        graph,
                        followed(behind@.last(), *diff),
                        params,
                        drawn[i].proposal@,
                    )
                    &&& rated(
                        objective,
                        graph,
                        lengthened(behind@, *diff).push(
                            followed(behind@.last(), *diff).redrawn(drawn[i].proposal@),
                        ),
                        drawn[i].score,
                    )
                }
        },
{
    let ghost after = followed(behind@.last(), *diff);
    let ghost trail = lengthened(behind@, *diff);
    let mut drawn: Vec<ScoredProposal> = Vec::new();
    let mut i: usize = 0;
    while i < workers.len()
        invariant
            i <= workers.len(),
            workers.len() == old(workers).len(),
            after == followed(behind@.last(), *diff),
            trail == lengthened(behind@, *diff),
            bursts_run(graph, after, params, objective),
            after.num_dists > 0,
            *diff matches BurstDiff::Apply(p) ==> behind@.last().admits(p@),
            forall|j: int|
                i <= j < workers.len() ==> (#[trigger] workers[j]).valid(graph, objective)
                    && workers[j].came(graph, objective, behind@) && workers[j].plan() == behind@.last() && draw::made_for(
                    workers[j].draws_by(),
                    params,
                    arithmetic@,
                ),
            forall|j: int|
                0 <= j < i ==> (#[trigger] workers[j]).valid(graph, objective)
                    && workers[j].came(graph, objective, trail) && workers[j].plan() == after && draw::made_for(
                    workers[j].draws_by(),
                    params,
                    arithmetic@,
                ),
            drawn.len() == i,
            forall|j: int|
                0 <= j < i ==> {
                    &&& draw::proposes(graph, after, params, (#[trigger] drawn[j]).proposal@)
                    &&& draw::drawn_for(arithmetic@, graph, after, params, drawn[j].proposal@)
                    &&& rated(
                        objective,
                        graph,
                        trail.push(after.redrawn(drawn[j].proposal@)),
                        drawn[j].score,
                    )
                },
        decreases workers.len() - i,
    {
        workers[i].follow(graph, objective, diff);
        let ghost sampler = workers[i as int].draws_by();
        match workers[i].draw_burst_proposal(graph, params, objective) {
            Ok(p) => {
                drawn.push(p);
            },
            Err(failure) => {
                assert(gives_up(sampler, graph, after, params, failure));
                return Err(failure.message());
            },
        }
        i += 1;
    }
    Ok(drawn)
}

/// Workers at a plan, each with random numbers of its own.
pub fn make_workers<O: IncrementalObjective, F: Fn(Op, Double, Double) -> Double + Copy>(
    graph: &Graph,
    partition: &Partition,
    params: &RecomParams,
    n_threads: usize,
    objective: &O,
    arithmetic: Arithmetic<F>,
) -> (r: Vec<BurstWorker<O, F>>)
    requires
        bursts_run(graph, partition@, params, objective),
        arithmetic.valid(),
        params.rng_seed + n_threads <= u64::MAX,
    ensures
        r.len() == n_threads,
        forall|t: int|
            0 <= t < n_threads ==> (#[trigger] r[t]).valid(graph, objective) && r[t].came(
                graph,
                objective,
                seq![partition@],
            ) && r[t].plan() == partition@ && r[t].seed() == params.rng_seed + t + 1
                && draw::made_for(r[t].draws_by(), params, arithmetic),
{
    let mut workers: Vec<BurstWorker<O, F>> = Vec::new();
    let mut t: usize = 0;
    while t < n_threads
        invariant
            t <= n_threads,
            bursts_run(graph, partition@, params, objective),
            arithmetic.valid(),
            params.rng_seed + n_threads <= u64::MAX,
            workers.len() == t,
            forall|j: int|
                0 <= j < t ==> (#[trigger] workers[j]).valid(graph, objective)
                    && workers[j].came(graph, objective, seq![partition@]) && workers[j].plan()
                    == partition@ && workers[j].seed() == params.rng_seed + j + 1
                    && draw::made_for(workers[j].draws_by(), params, arithmetic),
        decreases n_threads - t,
    {
        let seed: u64 = random::worker_seed(params.rng_seed, t);
        workers.push(BurstWorker::new(graph, partition, params, objective, seed, arithmetic));
        t += 1;
    }
    workers
}

/// Runs short bursts from a plan: in each round the workers draw and score a
/// proposal each at the current plan, and the walk takes one of them. The best
/// plan of the log is the best of all plans visited, the seed plan among them.
pub fn run_bursts<O: IncrementalObjective, F: Fn(Op, Double, Double) -> Double + Copy>(
    graph: &Graph,
    partition: &Partition,
    params: &RecomParams,
    n_threads: usize,
    objective: &O,
    maximize: bool,
    burst_length: usize,
    arithmetic: Arithmetic<F>,
) -> (r: BurstLog)
    requires
        bursts_run(graph, partition@, params, objective),
        n_threads > 0,
        burst_length > 0,
        params.rng_seed + n_threads <= u64::MAX,
        arithmetic.valid(),
    ensures
        rated(objective, graph, seq![partition@], r.seed_score),
        districts_rated(objective, graph, seq![partition@], r.seed_district_scores@),
        logs_bursts(
            graph,
            (Visit { plan: partition@, score: r.seed_score }),
            params,
            objective,
            burst_length as nat,
            maximize,
            r.records@,
        ),
        cut_from_trees(
            arithmetic,
            graph,
            (Visit { plan: partition@, score: r.seed_score }),
            params,
            burst_length as nat,
            maximize,
            r.records@,
        ),
        r.records@.len() <= chain::run_length(params.num_steps),
        r.failure is None ==> r.records@.len() == chain::run_length(params.num_steps),
        r.best@ == short_bursts::best_of(
            (Visit { plan: partition@, score: r.seed_score }),
            visits_of(r.records@),
            maximize,
        ).plan,
        params.num_steps <= 1 ==> r.failure is None,
        r.failure matches Some(e) ==> r.records@.len() < chain::run_length(params.num_steps)
            && cut_short(
            arithmetic,
            graph,
            short_bursts::standing(
                (Visit { plan: partition@, score: r.seed_score }),
                visits_of(r.records@),
                burst_length as nat,
                maximize,
            ).current.plan,
            params,
            e@,
        ),
{
    let mut state: O::State = objective.init(graph, partition);
    let seed_score: Double = objective.score_state(&state);
    let seed_district_scores: Vec<Double> = objective.district_scores(&state);
    assert(incremental::arises(objective, graph, seq![partition@], state));
    let ghost seed = Visit { plan: partition@, score: seed_score };
    let ghost burst = burst_length as nat;
    assert(partition@.assignments[0] < partition@.num_dists);
    let mut workers: Vec<BurstWorker<O, F>> = make_workers(
        graph,
        partition,
        params,
        n_threads,
        objective,
        arithmetic,
    );
    let mut rng: SmallRng = random::seeded(params.rng_seed).rng;
    let mut run: BurstRun = BurstRun::new(
        partition,
        seed_score,
        params.num_steps,
        burst_length,
        maximize,
    );
    let mut records: Vec<BurstRecord> = Vec::new();
    let mut diff: BurstDiff = BurstDiff::Unchanged;
    let ghost mut behind = seq![partition@];
    assert(visits_of(records@) =~= Seq::<Visit>::empty());
    while !run.done()
        invariant
            bursts_run(graph, partition@, params, objective),
            arithmetic.valid(),
            n_threads > 0,
            burst == burst_length as nat,
            rated(objective, graph, seq![partition@], seed_score),
            districts_rated(objective, graph, seq![partition@], seed_district_scores@),
            seed == (Visit { plan: partition@, score: seed_score }),
            partition@.num_dists > 0,
            run.valid(),
            run.burst().plan.valid(),
            run.target() == chain::run_length(params.num_steps),
            run.length() == burst,
            run.maximizes() == maximize,
            run.follows(seed, visits_of(records@)),
            logs_bursts(graph, seed, params, objective, burst, maximize, records@),
            cut_from_trees(arithmetic, graph, seed, params, burst, maximize, records@),
            run.here().plan.assignments.len() == graph.order(),
            run.here().plan.num_dists == partition@.num_dists,
            objective.measures(graph, run.here().plan),
            run.burst().plan.assignments.len() == graph.order(),
            run.burst().plan.num_dists == partition@.num_dists,
            objective.measures(graph, run.burst().plan),
            objective.tracks(graph, run.here().plan, state),
            incremental::arises(
                objective,
                graph,
                short_bursts::trail(seed, visits_of(records@), burst, maximize),
                state,
            ),
            objective.suits(state),
            workers.len() == n_threads,
            behind.len() > 0,
            followed(behind.last(), diff) == run.here().plan,
            lengthened(behind, diff) == short_bursts::trail(
                seed,
                visits_of(records@),
                burst,
                maximize,
            ),
            diff matches BurstDiff::Apply(p) ==> behind.last().admits(p@),
            forall|j: int|
                0 <= j < workers.len() ==> (#[trigger] workers[j]).valid(graph, objective)
                    && workers[j].came(graph, objective, behind) && workers[j].plan()
                    == behind.last() && draw::made_for(
                    workers[j].draws_by(),
                    params,
                    arithmetic,
                ),
        decreases run.target() - run.position(),
    {
        let ghost from = run.here().plan;
        let drawn: Vec<ScoredProposal> = match draw_round(
            graph,
            params,
            objective,
            &mut workers,
            &diff,
            Ghost(behind),
            Ghost(arithmetic),
        ) {
            Ok(drawn) => drawn,
            Err(e) => {
                let best: Partition = run.best_partition();
                return BurstLog {
                    seed_score,
                    seed_district_scores,
                    records,
                    best,
                    failure: Some(e),
                };
            },
        };
        proof {
            behind = lengthened(behind, diff);
        }
        let place: usize = next_place(&drawn, &mut rng);
        let chosen: &ScoredProposal = &drawn[place];
        let ghost p = chosen.proposal@;
        let ghost earlier = records@;
        let ghost start = run;
        proof {
            assert(draw::proposes(graph, from, params, p));
            partition::redrawn_is_valid(from, p);
            objective.tracked_state_accepts(graph, from, state, p);
            objective.redrawn_is_measured(graph, from, p);
        }
        let ghost state_before = state;
        objective.apply_proposal(graph, &mut state, &chosen.proposal);
        proof {
            objective.applied_state_tracks(graph, from, state_before, p, state);
            incremental::arises_further(objective, graph, behind, state_before, p, state);
        }
        let district_scores: Vec<Double> = objective.district_scores(&state);
        let mut moved: Partition = run.current().clone();
        moved.update(&chosen.proposal);
        let step: BurstStep = run.advance(&chosen.proposal, chosen.score);
        let record: BurstRecord = BurstRecord {
            partition: moved,
            score: chosen.score,
            district_scores,
            improved: step.improved,
        };
        proof {
            let visit = Visit { plan: from.redrawn(p), score: chosen.score };
            assert(start.follows(seed, visits_of(earlier)));
            let trail = behind.push(from.redrawn(p));
            assert(districts_rated(objective, graph, trail, record.district_scores@)) by {
                assert(incremental::arises(objective, graph, trail, state));
            }
            bursts_extended(
                graph,
                seed,
                params,
                objective,
                burst,
                maximize,
                earlier,
                record,
                p,
            );
            assert(draw::drawn_for(arithmetic, graph, from, params, p));
            cut_from_trees_extended(
                arithmetic,
                graph,
                seed,
                params,
                burst,
                maximize,
                earlier,
                record,
            );
            burst_stays(seed, visits_of(earlier), burst, maximize, visit);
            assert(visits_of(earlier).push(visit).drop_last() =~= visits_of(earlier));
        }
        records.push(record);
        if let BurstDiff::Reset(plan) = &step.diff {
            state = objective.init(graph, plan);
        }
        diff = step.diff;
    }
    let best: Partition = run.best_partition();
    BurstLog { seed_score, seed_district_scores, records, best, failure: None }
}

/// After a step a walk stands at the new plan or at the best plan of the burst,
/// and the best plan of the burst is one of these.
proof fn burst_stays(seed: Visit, visits: Seq<Visit>, burst: nat, maximize: bool, visit: Visit)
    ensures
        ({
            let before = short_bursts::standing(seed, visits, burst, maximize);
            let after = short_bursts::standing(seed, visits.push(visit), burst, maximize);
            &&& after.current == visit || after.current == before.burst_best
            &&& after.burst_best == visit || after.burst_best == before.burst_best
        }),
{
    assert(visits.push(visit).drop_last() =~= visits);
}

/// A record is marked if and only if its score is better than that of the seed
/// plan and of every record before it that has a score.
pub proof fn marked_records_beat_all_before<O: IncrementalObjective>(
    graph: &Graph,
    seed: Visit,
    params: &RecomParams,
    objective: &O,
    burst: nat,
    maximize: bool,
    records: Seq<BurstRecord>,
    i: int,
)
    requires
        0 <= i < records.len(),
        !seed.score.nan(),
        record_follows(graph, seed, params, objective, burst, maximize, records, i),
    ensures
        records[i].improved <==> short_bursts::better(records[i].score, seed.score, maximize)
            && forall|j: int|
            0 <= j < i && !(#[trigger] records[j]).score.nan() ==> short_bursts::better(
                records[i].score,
                records[j].score,
                maximize,
            ),
{
    let earlier = visits_of(records).take(i);
    let best = short_bursts::best_of(seed, earlier, maximize);
    short_bursts::best_is_best(seed, earlier, maximize);
    short_bursts::best_stays_a_number(seed, earlier, maximize);
    assert forall|j: int| 0 <= j < i implies (#[trigger] earlier[j]).score == records[j].score by {}
    if records[i].improved {
        assert forall|j: int|
            0 <= j < i && !(#[trigger] records[j]).score.nan() implies short_bursts::better(
            records[i].score,
            records[j].score,
            maximize,
        ) by {
            assert(earlier[j].score == records[j].score);
            assert(!short_bursts::better(earlier[j].score, best.score, maximize));
        }
    }
    if earlier.contains(best) {
        let j = choose|j: int| 0 <= j < earlier.len() && earlier[j] == best;
        assert(earlier[j].score == records[j].score);
        assert(records[j].score == best.score);
    }
}

} // verus!
