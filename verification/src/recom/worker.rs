//! Workers: batches of chain events drawn at one plan.

use rand::rngs::SmallRng;
use vstd::prelude::*;
use crate::constraints::ChainConstraint;
use crate::double::{Arithmetic, Double, Op};
use crate::graph::Graph;
use crate::partition::{Partition, Plan};
use crate::random::SeededRng;
use crate::recom::draw::{Draw, Sampler};
use crate::recom::mst_diagnostics::Failure;
use crate::recom::proposal::{RecomParams, RecomProposal, RecomVariant, Redraw};
use crate::recom::{draw, pairs};
use crate::spanning_tree::SpanningTreeBuffer;
use crate::stats::counts::{SelfLoopCounts, SelfLoopReason};
use crate::stats::{counts, sums};
use crate::{constraints, double, partition, random, text};

verus! {

/// A unit of work for a worker.
#[derive(Debug)]
pub struct JobPacket {
    /// The number of chain events to draw.
    pub n_steps: usize,
    /// The change of the plan since the last unit of work.
    pub diff: Option<RecomProposal>,
}

/// The result of a unit of work.
#[derive(Debug)]
pub struct ResultPacket {
    pub counts: SelfLoopCounts,
    /// The drawn proposals, each with a random number that orders them.
    pub proposals: Vec<(u64, RecomProposal)>,
}

/// What one attempt at a chain event came to.
pub enum Event {
    Proposal(u64, RecomProposal),
    Loop(SelfLoopReason),
    /// Nothing happened: the attempt is made again.
    Retry,
    Failed(Failure),
}

/// What an attempt without a proposal comes to: reversible chains count it as
/// a self-loop, other chains try again.
pub fn lost(reversible: bool, reason: SelfLoopReason) -> (r: Event)
    ensures
        r == (if reversible {
            Event::Loop(reason)
        } else {
            Event::Retry
        }),
{
    if reversible {
        Event::Loop(reason)
    } else {
        Event::Retry
    }
}

/// The probability with which a reversible chain accepts a cut.
pub open spec fn acceptance_of<F: Fn(Op, Double, Double) -> Double>(
    numbers: Arithmetic<F>,
    n_splits: int,
    seam_length: int,
    balance_ub: int,
) -> Double {
    numbers.quotient(
        numbers.integer(n_splits),
        numbers.product(numbers.integer(seam_length), numbers.integer(balance_ub)),
    )
}

/// The probability with which a reversible chain accepts a cut, unless it is
/// above one.
pub fn acceptance<F: Fn(Op, Double, Double) -> Double>(
    numbers: &Arithmetic<F>,
    n_splits: usize,
    seam_length: usize,
    balance_ub: u32,
) -> (r: Option<Double>)
    requires
        numbers.valid(),
        n_splits <= i64::MAX,
        seam_length <= i64::MAX,
    ensures
        r == (if double::one().below(
            acceptance_of(*numbers, n_splits as int, seam_length as int, balance_ub as int),
        ) {
            None
        } else {
            Some(acceptance_of(*numbers, n_splits as int, seam_length as int, balance_ub as int))
        }),
{
    let prob: Double = numbers.over(
        numbers.of_int(n_splits as i64),
        numbers.times(numbers.of_int(seam_length as i64), numbers.of_int(balance_ub as i64)),
    );
    if prob.gt(double::one()) {
        None
    } else {
        Some(prob)
    }
}

/// Whether random bits fall below a probability.
pub fn passes<F: Fn(Op, Double, Double) -> Double>(
    numbers: &Arithmetic<F>,
    prob: Double,
    bits: u64,
) -> (r: bool)
    requires
        numbers.valid(),
    ensures
        r == numbers.unit_of(bits).below(prob),
{
    numbers.unit(bits).lt(prob)
}

/// The message about more balanced cuts than the bound allows.
pub open spec fn too_many_splits(n_splits: nat, seam_length: nat) -> Seq<char> {
    "Invalid state: got "@ + text::decimal(n_splits) + " splits, seam length "@ + text::decimal(
        seam_length,
    )
}

fn too_many_splits_message(n_splits: usize, seam_length: usize) -> (r: String)
    ensures
        r@ == too_many_splits(n_splits as nat, seam_length as nat),
{
    let mut out: String = "Invalid state: got ".to_string();
    text::push_number(&mut out, n_splits as u64);
    out.append(" splits, seam length ");
    text::push_number(&mut out, seam_length as u64);
    out
}

/// Whether a reversible chain may draw a proposal that its bound does not allow
/// for: the number of balanced cuts and the seam length make a probability
/// above one.
pub open spec fn exceeds_bound<C: ChainConstraint, F: Fn(Op, Double, Double) -> Double>(
    sampler: Sampler<F>,
    numbers: Arithmetic<F>,
    graph: &Graph,
    plan: Plan,
    params: &RecomParams,
    constraint: &C,
    n: nat,
    p: &RecomProposal,
) -> bool {
    &&& draw::proposes(graph, plan, params, p@)
    &&& draw::cut_from_a_tree(sampler, graph, plan, params, n, p)
    &&& constraint.allows_redraw(graph, p@)
    &&& double::one().below(
        acceptance_of(numbers, n as int, seam_of(graph, p) as int, params.balance_ub as int),
    )
}

/// The seam length of a proposal.
pub open spec fn seam_of(graph: &Graph, p: &RecomProposal) -> nat {
    pairs::seam(graph.edges@, p.a_nodes@, p.b_nodes@, graph.edges@.len() as int)
}

/// Why a worker may give up at a plan: no tree of two districts can be drawn;
/// a reversible chain exceeds its bound; any other chain has used up its
/// attempts, which draws that come to nothing do.
pub open spec fn gives_up<C: ChainConstraint, F: Fn(Op, Double, Double) -> Double>(
    sampler: Sampler<F>,
    numbers: Arithmetic<F>,
    graph: &Graph,
    plan: Plan,
    params: &RecomParams,
    constraint: &C,
    failure: Failure,
) -> bool {
    match failure {
        Failure::Tree(e, a, b) => draw::trees_fail(sampler, graph, plan, e, a as int, b as int),
        Failure::Other(message) => if params.variant == RecomVariant::Reversible {
            exists|n: nat, p: RecomProposal|
                #[trigger] exceeds_bound(sampler, numbers, graph, plan, params, constraint, n, &p)
                    && message@ == too_many_splits(n, seam_of(graph, &p))
        } else {
            message@ == "No proposal could be drawn."@ && draw::draws_fail(graph, plan, params)
        },
    }
}

/// Whether chance lets a cut pass: for reversible chains some random bits fall
/// below its probability, which is at most one.
pub open spec fn passes_chance<F: Fn(Op, Double, Double) -> Double>(
    numbers: Arithmetic<F>,
    graph: &Graph,
    params: &RecomParams,
    n: nat,
    p: &RecomProposal,
) -> bool {
    let prob = acceptance_of(
        numbers,
        n as int,
        seam_of(graph, p) as int,
        params.balance_ub as int,
    );
    params.variant == RecomVariant::Reversible ==> {
        &&& !double::one().below(prob)
        &&& exists|bits: u64| (#[trigger] numbers.unit_of(bits)).below(prob)
    }
}

/// Whether a worker may propose a redrawing: it comes from a tree that the
/// worker's sampler may draw, and chance lets it pass.
pub open spec fn accepts<F: Fn(Op, Double, Double) -> Double>(
    sampler: Sampler<F>,
    numbers: Arithmetic<F>,
    graph: &Graph,
    plan: Plan,
    params: &RecomParams,
    p: Redraw,
) -> bool {
    exists|n: nat, q: RecomProposal|
        {
            &&& #[trigger] draw::cut_from_a_tree(sampler, graph, plan, params, n, &q)
            &&& q@ == p
            &&& passes_chance(numbers, graph, params, n, &q)
        }
}

/// Whether a chain may propose a redrawing: it comes from a tree that the chain
/// may draw, by the weights that its parameters give to edges where they give
/// any, and chance lets it pass.
pub open spec fn accepted_for<F: Fn(Op, Double, Double) -> Double>(
    arithmetic: Arithmetic<F>,
    graph: &Graph,
    plan: Plan,
    params: &RecomParams,
    p: Redraw,
) -> bool {
    exists|sampler: Sampler<F>|
        draw::made_for(sampler, params, arithmetic) && #[trigger] accepts(
            sampler,
            arithmetic,
            graph,
            plan,
            params,
            p,
        )
}

proof fn accepts_alike<F: Fn(Op, Double, Double) -> Double>(
    s: Sampler<F>,
    t: Sampler<F>,
    numbers: Arithmetic<F>,
    graph: &Graph,
    plan: Plan,
    params: &RecomParams,
    p: Redraw,
)
    requires
        s.alike(t),
        accepts(s, numbers, graph, plan, params, p),
    ensures
        accepts(t, numbers, graph, plan, params, p),
{
    let (n, q) = choose|n: nat, q: RecomProposal|
        {
            &&& #[trigger] draw::cut_from_a_tree(s, graph, plan, params, n, &q)
            &&& q@ == p
            &&& passes_chance(numbers, graph, params, n, &q)
        };
    draw::alike_samplers_cut_alike(s, t, graph, plan, params, n, &q);
}

/// What a draw and random bits come to: a proposal, or why there is none. A
/// reversible chain counts a draw without a proposal as a self-loop, and accepts
/// a proposal where the bits fall below its probability; other chains try again
/// and accept every proposal that is allowed.
pub open spec fn decides<F: Fn(Op, Double, Double) -> Double>(
    numbers: Arithmetic<F>,
    graph: &Graph,
    params: &RecomParams,
    drawn: Draw,
    allowed: bool,
    bits: u64,
    r: Result<RecomProposal, Event>,
) -> bool {
    let reversible = params.variant == RecomVariant::Reversible;
    match drawn {
        Draw::NoPair => r == Err::<RecomProposal, Event>(
            if reversible {
                Event::Loop(SelfLoopReason::NonAdjacent)
            } else {
                Event::Retry
            },
        ),
        Draw::NoSplit => r == Err::<RecomProposal, Event>(
            if reversible {
                Event::Loop(SelfLoopReason::NoSplit)
            } else {
                Event::Retry
            },
        ),
        Draw::Failed(e, a, b) => r == Err::<RecomProposal, Event>(
            Event::Failed(Failure::Tree(e, a, b)),
        ),
        Draw::Proposal(n, p) => {
            let prob = acceptance_of(
                numbers,
                n as int,
                seam_of(graph, &p) as int,
                params.balance_ub as int,
            );
            if !allowed {
                r == Err::<RecomProposal, Event>(Event::Loop(SelfLoopReason::ConstraintViolation))
            } else if !reversible {
                r == Ok::<RecomProposal, Event>(p)
            } else if double::one().below(prob) {
                r matches Err(Event::Failed(Failure::Other(message))) && message@
                    == too_many_splits(n as nat, seam_of(graph, &p))
            } else if numbers.unit_of(bits).below(prob) {
                r == Ok::<RecomProposal, Event>(p)
            } else {
                r == Err::<RecomProposal, Event>(Event::Loop(SelfLoopReason::SeamLength))
            }
        },
    }
}

/// Whether chance decides over a draw: a reversible chain asks it about every
/// proposal that is allowed.
pub open spec fn chance_decides(params: &RecomParams, drawn: Draw, allowed: bool) -> bool {
    drawn is Proposal && params.variant == RecomVariant::Reversible && allowed
}

/// Whether a decision comes to an event: a proposal gets the next bits of the
/// generator as its number, and nothing else is drawn.
pub open spec fn comes_to(
    decision: Result<RecomProposal, Event>,
    before: SmallRng,
    event: Event,
    after: SmallRng,
) -> bool {
    match decision {
        Ok(p) => event matches Event::Proposal(id, q) && q == p && random::gives(before, id, after),
        Err(e) => event == e && after == before,
    }
}

/// Whether a draw comes to an event by a generator: where chance decides, it
/// does so by the next bits of the generator.
pub open spec fn settles<F: Fn(Op, Double, Double) -> Double>(
    numbers: Arithmetic<F>,
    graph: &Graph,
    params: &RecomParams,
    drawn: Draw,
    allowed: bool,
    before: SmallRng,
    event: Event,
    after: SmallRng,
) -> bool {
    exists|bits: u64, decision: Result<RecomProposal, Event>, between: SmallRng|
        {
            &&& if chance_decides(params, drawn, allowed) {
                random::gives(before, bits, between)
            } else {
                between == before
            }
            &&& #[trigger] decides(numbers, graph, params, drawn, allowed, bits, decision)
            &&& #[trigger] comes_to(decision, between, event, after)
        }
}

/// Whether an attempt at a chain event is what a generator gives next: it gives
/// a draw, and settles it.
pub open spec fn attempted<C: ChainConstraint, F: Fn(Op, Double, Double) -> Double>(
    sampler: Sampler<F>,
    numbers: Arithmetic<F>,
    graph: &Graph,
    plan: Plan,
    params: &RecomParams,
    constraint: &C,
    before: SmallRng,
    event: Event,
    after: SmallRng,
) -> bool {
    exists|drawn: Draw, between: SmallRng|
        {
            &&& #[trigger] draw::draw_comes(sampler, graph, plan, params, before, drawn, between)
            &&& settles(
                numbers,
                graph,
                params,
                drawn,
                allows_draw(constraint, graph, drawn),
                between,
                event,
                after,
            )
        }
}

/// Whether a number of attempts, one after the other, come to nothing.
pub open spec fn retried<C: ChainConstraint, F: Fn(Op, Double, Double) -> Double>(
    sampler: Sampler<F>,
    numbers: Arithmetic<F>,
    graph: &Graph,
    plan: Plan,
    params: &RecomParams,
    constraint: &C,
    before: SmallRng,
    count: nat,
    after: SmallRng,
) -> bool
    decreases count,
{
    if count == 0 {
        before == after
    } else {
        exists|between: SmallRng|
            {
                &&& retried(
                    sampler,
                    numbers,
                    graph,
                    plan,
                    params,
                    constraint,
                    before,
                    (count - 1) as nat,
                    between,
                )
                &&& #[trigger] attempted(
                    sampler,
                    numbers,
                    graph,
                    plan,
                    params,
                    constraint,
                    between,
                    Event::Retry,
                    after,
                )
            }
    }
}

/// Whether a chain event is what a generator gives next: the first attempt that
/// comes to something, unless as many as can be counted come to nothing.
pub open spec fn event_comes<C: ChainConstraint, F: Fn(Op, Double, Double) -> Double>(
    sampler: Sampler<F>,
    numbers: Arithmetic<F>,
    graph: &Graph,
    plan: Plan,
    params: &RecomParams,
    constraint: &C,
    before: SmallRng,
    event: Event,
    after: SmallRng,
) -> bool {
    exists|count: nat, between: SmallRng|
        {
            &&& #[trigger] retried(
                sampler,
                numbers,
                graph,
                plan,
                params,
                constraint,
                before,
                count,
                between,
            )
            &&& count == u64::MAX || (event !is Retry && attempted(
                sampler,
                numbers,
                graph,
                plan,
                params,
                constraint,
                between,
                event,
                after,
            ))
        }
}

/// Whether chain events, one after the other, are what a generator gives next.
pub open spec fn events_come<C: ChainConstraint, F: Fn(Op, Double, Double) -> Double>(
    sampler: Sampler<F>,
    numbers: Arithmetic<F>,
    graph: &Graph,
    plan: Plan,
    params: &RecomParams,
    constraint: &C,
    before: SmallRng,
    events: Seq<Event>,
    after: SmallRng,
) -> bool
    decreases events.len(),
{
    if events.len() == 0 {
        before == after
    } else {
        exists|between: SmallRng|
            {
                &&& events_come(
                    sampler,
                    numbers,
                    graph,
                    plan,
                    params,
                    constraint,
                    before,
                    events.drop_last(),
                    between,
                )
                &&& #[trigger] event_comes(
                    sampler,
                    numbers,
                    graph,
                    plan,
                    params,
                    constraint,
                    between,
                    events.last(),
                    after,
                )
            }
    }
}

/// The proposals among events, with their numbers, in order.
pub open spec fn proposals_among(events: Seq<Event>) -> Seq<(u64, RecomProposal)>
    decreases events.len(),
{
    if events.len() == 0 {
        Seq::empty()
    } else {
        let before = proposals_among(events.drop_last());
        match events.last() {
            Event::Proposal(id, p) => before.push((id, p)),
            _ => before,
        }
    }
}

/// The events that are self-loops for a reason.
pub open spec fn loops_among(events: Seq<Event>, reason: SelfLoopReason) -> Set<int> {
    Set::new(|i: int| 0 <= i < events.len() && events[i] == Event::Loop(reason))
}

/// Whether counts tell how often each reason occurs among events.
#[verifier::opaque]
pub open spec fn tells(events: Seq<Event>, counts: SelfLoopCounts) -> bool {
    forall|reason: SelfLoopReason|
        #![trigger counts.count(reason)]
        #![trigger loops_among(events, reason)]
        loops_among(events, reason).finite() && counts.count(reason) == loops_among(
            events,
            reason,
        ).len()
}

proof fn nothing_is_told(events: Seq<Event>, counts: SelfLoopCounts)
    requires
        events.len() == 0,
        counts == counts::no_loops(),
    ensures
        tells(events, counts),
        proposals_among(events) == Seq::<(u64, RecomProposal)>::empty(),
{
    reveal(tells);
    assert forall|reason: SelfLoopReason|
        #![trigger counts.count(reason)]
        #![trigger loops_among(events, reason)]
        loops_among(events, reason).finite() && counts.count(reason) == loops_among(
            events,
            reason,
        ).len() by {
        assert(loops_among(events, reason) =~= Set::<int>::empty());
    }
}

proof fn one_more_is_told(
    events: Seq<Event>,
    counts: SelfLoopCounts,
    event: Event,
    after: SelfLoopCounts,
)
    requires
        tells(events, counts),
        event matches Event::Loop(reason) ==> after.shifted(counts, reason, 1),
        event !is Loop ==> after == counts,
    ensures
        tells(events.push(event), after),
        proposals_among(events.push(event)) == match event {
            Event::Proposal(id, p) => proposals_among(events).push((id, p)),
            _ => proposals_among(events),
        },
{
    reveal(tells);
    assert forall|reason: SelfLoopReason|
        #![trigger after.count(reason)]
        #![trigger loops_among(events.push(event), reason)]
        loops_among(events.push(event), reason).finite() && after.count(reason) == loops_among(
            events.push(event),
            reason,
        ).len() by {
        assert(counts.count(reason) == loops_among(events, reason).len());
        one_more_event(events, event, reason);
    }
    assert(events.push(event).drop_last() =~= events);
}

proof fn one_more_event(events: Seq<Event>, event: Event, reason: SelfLoopReason)
    requires
        loops_among(events, reason).finite(),
    ensures
        loops_among(events.push(event), reason).finite(),
        loops_among(events.push(event), reason).len() == loops_among(events, reason).len() + (
        if event == Event::Loop(reason) {
            1int
        } else {
            0
        }),
{
    let more = events.push(event);
    if event == Event::Loop(reason) {
        assert(loops_among(more, reason) =~= loops_among(events, reason).insert(
            events.len() as int,
        ));
    } else {
        assert(loops_among(more, reason) =~= loops_among(events, reason));
    }
}

/// Workers with samplers that draw in the same way make the same attempts.
proof fn attempted_alike<C: ChainConstraint, F: Fn(Op, Double, Double) -> Double>(
    s: Sampler<F>,
    t: Sampler<F>,
    numbers: Arithmetic<F>,
    graph: &Graph,
    plan: Plan,
    params: &RecomParams,
    constraint: &C,
    before: SmallRng,
    event: Event,
    after: SmallRng,
)
    requires
        s.alike(t),
        attempted(s, numbers, graph, plan, params, constraint, before, event, after),
    ensures
        attempted(t, numbers, graph, plan, params, constraint, before, event, after),
{
    let (drawn, between) = choose|drawn: Draw, between: SmallRng|
        {
            &&& #[trigger] draw::draw_comes(s, graph, plan, params, before, drawn, between)
            &&& settles(
                numbers,
                graph,
                params,
                drawn,
                allows_draw(constraint, graph, drawn),
                between,
                event,
                after,
            )
        };
    draw::alike_samplers_come_alike(s, t, graph, plan, params, before, drawn, between);
}

proof fn retried_alike<C: ChainConstraint, F: Fn(Op, Double, Double) -> Double>(
    s: Sampler<F>,
    t: Sampler<F>,
    numbers: Arithmetic<F>,
    graph: &Graph,
    plan: Plan,
    params: &RecomParams,
    constraint: &C,
    before: SmallRng,
    count: nat,
    after: SmallRng,
)
    requires
        s.alike(t),
        retried(s, numbers, graph, plan, params, constraint, before, count, after),
    ensures
        retried(t, numbers, graph, plan, params, constraint, before, count, after),
    decreases count,
{
    if count > 0 {
        let between = choose|between: SmallRng|
            {
                &&& retried(
                    s,
                    numbers,
                    graph,
                    plan,
                    params,
                    constraint,
                    before,
                    (count - 1) as nat,
                    between,
                )
                &&& #[trigger] attempted(
                    s,
                    numbers,
                    graph,
                    plan,
                    params,
                    constraint,
                    between,
                    Event::Retry,
                    after,
                )
            };
        retried_alike(
            s,
            t,
            numbers,
            graph,
            plan,
            params,
            constraint,
            before,
            (count - 1) as nat,
            between,
        );
        attempted_alike(
            s,
            t,
            numbers,
            graph,
            plan,
            params,
            constraint,
            between,
            Event::Retry,
            after,
        );
    }
}

/// Workers with samplers that draw in the same way come to events by the same
/// generators.
proof fn event_comes_alike<C: ChainConstraint, F: Fn(Op, Double, Double) -> Double>(
    s: Sampler<F>,
    t: Sampler<F>,
    numbers: Arithmetic<F>,
    graph: &Graph,
    plan: Plan,
    params: &RecomParams,
    constraint: &C,
    before: SmallRng,
    event: Event,
    after: SmallRng,
)
    requires
        s.alike(t),
        event_comes(s, numbers, graph, plan, params, constraint, before, event, after),
    ensures
        event_comes(t, numbers, graph, plan, params, constraint, before, event, after),
{
    let (count, between) = choose|count: nat, between: SmallRng|
        {
            &&& #[trigger] retried(
                s,
                numbers,
                graph,
                plan,
                params,
                constraint,
                before,
                count,
                between,
            )
            &&& count == u64::MAX || (event !is Retry && attempted(
                s,
                numbers,
                graph,
                plan,
                params,
                constraint,
                between,
                event,
                after,
            ))
        };
    retried_alike(s, t, numbers, graph, plan, params, constraint, before, count, between);
    if count != u64::MAX {
        attempted_alike(
            s,
            t,
            numbers,
            graph,
            plan,
            params,
            constraint,
            between,
            event,
            after,
        );
    }
}

/// Whether a constraint allows the proposal of a draw, if it has one.
pub open spec fn allows_draw<C: ChainConstraint>(constraint: &C, graph: &Graph, drawn: Draw) -> bool {
    drawn matches Draw::Proposal(_, p) ==> constraint.allows_redraw(graph, p@)
}

/// Decides what a draw comes to, for given random bits.
pub fn decide<F: Fn(Op, Double, Double) -> Double>(
    numbers: &Arithmetic<F>,
    graph: &Graph,
    params: &RecomParams,
    drawn: Draw,
    allowed: bool,
    bits: u64,
) -> (r: Result<RecomProposal, Event>)
    requires
        numbers.valid(),
        graph.sound(),
        graph.edges@.len() <= i64::MAX,
        drawn matches Draw::Proposal(n, p) ==> n <= i64::MAX && sums::nodes_within(
            p.a_nodes@,
            graph.order(),
        ) && sums::nodes_within(p.b_nodes@, graph.order()),
    ensures
        decides(*numbers, graph, params, drawn, allowed, bits, r),
{
    let reversible: bool = match params.variant {
        RecomVariant::Reversible => true,
        _ => false,
    };
    match drawn {
        Draw::NoPair => Err(lost(reversible, SelfLoopReason::NonAdjacent)),
        Draw::NoSplit => Err(lost(reversible, SelfLoopReason::NoSplit)),
        Draw::Failed(e, a, b) => Err(Event::Failed(Failure::Tree(e, a, b))),
        Draw::Proposal(n_splits, proposal) => {
            if !allowed {
                return Err(Event::Loop(SelfLoopReason::ConstraintViolation));
            }
            if reversible {
                let seam_length: usize = proposal.seam_length(graph);
                match acceptance(numbers, n_splits, seam_length, params.balance_ub) {
                    None => {
                        let message: String = too_many_splits_message(n_splits, seam_length);
                        return Err(Event::Failed(Failure::Other(message)));
                    },
                    Some(prob) => {
                        if !passes(numbers, prob, bits) {
                            return Err(Event::Loop(SelfLoopReason::SeamLength));
                        }
                    },
                }
            }
            Ok(proposal)
        },
    }
}

/// Workers with samplers that draw in the same way give up alike.
proof fn gives_up_alike<C: ChainConstraint, F: Fn(Op, Double, Double) -> Double>(
    s: Sampler<F>,
    t: Sampler<F>,
    numbers: Arithmetic<F>,
    graph: &Graph,
    plan: Plan,
    params: &RecomParams,
    constraint: &C,
    failure: Failure,
)
    requires
        s.alike(t),
        gives_up(s, numbers, graph, plan, params, constraint, failure),
    ensures
        gives_up(t, numbers, graph, plan, params, constraint, failure),
{
    if let Failure::Tree(e, a, b) = failure {
        draw::alike_samplers_fail_alike(s, t, graph, plan, e, a as int, b as int);
    } else if params.variant == RecomVariant::Reversible {
        let message = failure->Other_0;
        let (n, p) = choose|n: nat, p: RecomProposal|
            #[trigger] exceeds_bound(s, numbers, graph, plan, params, constraint, n, &p)
                && message@ == too_many_splits(n, seam_of(graph, &p));
        draw::alike_samplers_cut_alike(s, t, graph, plan, params, n, &p);
        assert(exceeds_bound(t, numbers, graph, plan, params, constraint, n, &p));
    }
}

/// Workers with samplers that draw in the same way come to the same events.
proof fn event_alike<C: ChainConstraint, F: Fn(Op, Double, Double) -> Double>(
    s: Sampler<F>,
    t: Sampler<F>,
    numbers: Arithmetic<F>,
    graph: &Graph,
    plan: Plan,
    params: &RecomParams,
    constraint: &C,
    event: Event,
)
    requires
        s.alike(t),
        event matches Event::Proposal(_, p) ==> accepts(s, numbers, graph, plan, params, p@),
        event matches Event::Failed(failure) ==> gives_up(
            s,
            numbers,
            graph,
            plan,
            params,
            constraint,
            failure,
        ),
    ensures
        event matches Event::Proposal(_, p) ==> accepts(t, numbers, graph, plan, params, p@),
        event matches Event::Failed(failure) ==> gives_up(
            t,
            numbers,
            graph,
            plan,
            params,
            constraint,
            failure,
        ),
{
    match event {
        Event::Proposal(_, p) => {
            accepts_alike(s, t, numbers, graph, plan, params, p@);
        },
        Event::Failed(failure) => {
            gives_up_alike(s, t, numbers, graph, plan, params, constraint, failure);
        },
        _ => {},
    }
}

/// Whether an attempt may come to a self-loop for a reason: any chain counts
/// proposals that violate its constraint; only reversible chains count draws
/// that come to nothing and proposals that chance rejects.
pub open spec fn may_loop<C: ChainConstraint>(
    graph: &Graph,
    plan: Plan,
    params: &RecomParams,
    constraint: &C,
    reason: SelfLoopReason,
) -> bool {
    match reason {
        SelfLoopReason::ConstraintViolation => exists|p: Redraw| #[trigger]
            draw::proposes(graph, plan, params, p) && !constraint.allows_redraw(graph, p),
        SelfLoopReason::NonAdjacent => params.variant == RecomVariant::Reversible
            && draw::pairs_fail(graph, plan, params),
        SelfLoopReason::NoSplit => params.variant == RecomVariant::Reversible
            && draw::splits_fail(graph, plan, params),
        SelfLoopReason::SeamLength => params.variant == RecomVariant::Reversible && exists|
            p: Redraw,
        | #[trigger]
            draw::proposes(graph, plan, params, p) && constraint.allows_redraw(graph, p),
        SelfLoopReason::TiltedRejection => false,
    }
}

/// Whether attempts at a plan may come to every counted self-loop.
pub open spec fn may_count<C: ChainConstraint>(
    graph: &Graph,
    plan: Plan,
    params: &RecomParams,
    constraint: &C,
    counts: SelfLoopCounts,
) -> bool {
    forall|reason: SelfLoopReason| #[trigger]
        counts.count(reason) > 0 ==> may_loop(graph, plan, params, constraint, reason)
}

/// Draws chain events at its copy of the plan.
pub struct Worker<C: ChainConstraint, F> {
    partition: Partition,
    sampler: Sampler<F>,
    tree: SpanningTreeBuffer,
    rng: SeededRng,
    state: C::State,
}

/// Whether a chain with the given parameters can run on a graph from a plan.
pub open spec fn runs<C: ChainConstraint>(
    graph: &Graph,
    plan: Plan,
    params: &RecomParams,
    constraint: &C,
) -> bool {
    &&& graph.sound()
    &&& 0 < graph.order()
    &&& 8 * graph.order() <= usize::MAX
    &&& graph.edges@.len() <= i64::MAX
    &&& plan.valid()
    &&& plan.assignments.len() == graph.order()
    &&& draw::supports(graph, params)
    &&& constraint.applies(graph)
}

impl<C: ChainConstraint, F: Fn(Op, Double, Double) -> Double> Worker<C, F> {
    /// The worker's copy of the plan.
    pub closed spec fn plan(&self) -> Plan {
        self.partition@
    }

    /// How the worker draws trees.
    pub closed spec fn draws_by(&self) -> Sampler<F> {
        self.sampler
    }

    /// The generator of the worker's random numbers, as it stands.
    pub closed spec fn generator(&self) -> SmallRng {
        self.rng.rng
    }

    /// The seed of the worker's random numbers.
    pub closed spec fn seed(&self) -> u64 {
        self.rng.seed
    }

    /// The worker is ready to draw on a graph.
    pub closed spec fn valid(&self, graph: &Graph, constraint: &C) -> bool {
        &&& self.partition@.valid()
        &&& self.partition@.num_dists > 0
        &&& self.partition@.assignments.len() == graph.order()
        &&& self.sampler.serves(graph)
        &&& self.tree.st.len() >= graph.order()
        &&& constraint.tracks(graph, self.partition@, self.state)
        &&& constraint.suits(self.state)
    }

    /// A worker at a plan, with its own random numbers.
    pub fn new(
        graph: &Graph,
        partition: &Partition,
        params: &RecomParams,
        constraint: &C,
        rng_seed: u64,
        arithmetic: Arithmetic<F>,
    ) -> (r: Worker<C, F>)
        requires
            runs(graph, partition@, params, constraint),
            arithmetic.valid(),
        ensures
            r.plan() == partition@,
            r.seed() == rng_seed,
            r.valid(graph, constraint),
            draw::made_for(r.draws_by(), params, arithmetic),
    {
        let n: usize = graph.pops.len();
        let state: C::State = constraint.init(graph, partition);
        let sampler: Sampler<F> = draw::make_sampler(params, n, arithmetic);
        assert(sampler.serves(graph));
        assert(partition@.assignments[0] < partition@.num_dists);
        Worker {
            partition: partition.clone(),
            sampler,
            tree: SpanningTreeBuffer::new(n),
            rng: random::seeded(rng_seed),
            state,
        }
    }

    /// Moves the worker's plan along.
    pub fn apply(&mut self, graph: &Graph, constraint: &C, proposal: &RecomProposal)
        requires
            graph.sound(),
            constraint.applies(graph),
            old(self).valid(graph, constraint),
            old(self).plan().admits(proposal@),
        ensures
            final(self).valid(graph, constraint),
            final(self).plan() == old(self).plan().redrawn(proposal@),
            final(self).seed() == old(self).seed(),
            final(self).generator() == old(self).generator(),
            final(self).draws_by() == old(self).draws_by(),
    {
        proof {
            constraint.tracked_state_accepts(graph, self.partition@, self.state, proposal@);
        }
        constraint.apply_proposal(graph, &mut self.state, proposal);
        self.partition.update(proposal);
    }

    /// What a draw comes to, by random bits where chance decides.
    fn settle(
        &mut self,
        graph: &Graph,
        params: &RecomParams,
        constraint: &C,
        numbers: &Arithmetic<F>,
        drawn: Draw,
        sampler: Ghost<Sampler<F>>,
    ) -> (r: Event)
        requires
            runs(graph, old(self).plan(), params, constraint),
            numbers.valid(),
            old(self).valid(graph, constraint),
            draw::may_come(sampler@, graph, old(self).plan(), params, drawn),
        ensures
            final(self).valid(graph, constraint),
            final(self).plan() == old(self).plan(),
            final(self).seed() == old(self).seed(),
            final(self).draws_by() == old(self).draws_by(),
            settles(
                *numbers,
                graph,
                params,
                drawn,
                allows_draw(constraint, graph, drawn),
                old(self).generator(),
                r,
                final(self).generator(),
            ),
            r matches Event::Proposal(_, p) ==> draw::proposes(
                graph,
                old(self).plan(),
                params,
                p@,
            ) && constraint.allows_redraw(graph, p@) && accepts(
                sampler@,
                *numbers,
                graph,
                old(self).plan(),
                params,
                p@,
            ),
            r matches Event::Loop(reason) ==> may_loop(
                graph,
                old(self).plan(),
                params,
                constraint,
                reason,
            ),
            r matches Event::Failed(failure) ==> gives_up(
                sampler@,
                *numbers,
                graph,
                old(self).plan(),
                params,
                constraint,
                failure,
            ) && (failure is Other ==> params.variant == RecomVariant::Reversible),
            r is Retry ==> params.variant != RecomVariant::Reversible && (drawn is NoPair
                || draw::splits_fail(graph, old(self).plan(), params)),
    {
        let ghost before = self.generator();
        let mut bits: u64 = 0;
        let mut allowed: bool = true;
        if let Draw::Proposal(_, proposal) = &drawn {
            proof {
                constraints::redrawn_nodes_are_within(self.partition@, proposal@);
            }
            allowed = constraint.proposal_valid(graph, &self.state, proposal);
            if let RecomVariant::Reversible = params.variant {
                if allowed {
                    bits = random::draw_bits(&mut self.rng.rng);
                }
            }
        }
        let ghost seen = drawn;
        let decision: Result<RecomProposal, Event> = decide(
            numbers,
            graph,
            params,
            drawn,
            allowed,
            bits,
        );
        assert(allowed == allows_draw(constraint, graph, seen));
        assert(decides(*numbers, graph, params, seen, allowed, bits, decision));
        let ghost between = self.generator();
        assert(chance_decides(params, seen, allowed) ==> random::gives(before, bits, between));
        assert(!chance_decides(params, seen, allowed) ==> before == between);
        let ghost outcome = decision;
        match decision {
            Ok(proposal) => {
                proof {
                    let n = seen->Proposal_0 as nat;
                    assert(draw::cut_from_a_tree(
                        sampler@,
                        graph,
                        self.plan(),
                        params,
                        n,
                        &proposal,
                    ));
                    assert(passes_chance(*numbers, graph, params, n, &proposal));
                }
                let id: u64 = random::draw_bits(&mut self.rng.rng);
                let event: Event = Event::Proposal(id, proposal);
                assert(comes_to(outcome, between, event, self.generator()));
                event
            },
            Err(event) => {
                proof {
                    if event is Failed && event->Failed_0 is Other {
                        assert(exceeds_bound(
                            sampler@,
                            *numbers,
                            graph,
                            self.plan(),
                            params,
                            constraint,
                            seen->Proposal_0 as nat,
                            &seen->Proposal_1,
                        ));
                    }
                }
                assert(comes_to(outcome, between, event, self.generator()));
                event
            },
        }
    }

    /// Makes one attempt at a chain event. An attempt that comes to nothing
    /// tells whether two districts were drawn.
    fn attempt(
        &mut self,
        graph: &Graph,
        params: &RecomParams,
        constraint: &C,
        numbers: &Arithmetic<F>,
    ) -> (r: (Event, bool))
        requires
            runs(graph, old(self).plan(), params, constraint),
            numbers.valid(),
            old(self).valid(graph, constraint),
        ensures
            final(self).valid(graph, constraint),
            final(self).plan() == old(self).plan(),
            final(self).seed() == old(self).seed(),
            final(self).draws_by().alike(old(self).draws_by()),
            r.0 matches Event::Proposal(_, p) ==> draw::proposes(
                graph,
                old(self).plan(),
                params,
                p@,
            ) && constraint.allows_redraw(graph, p@) && accepts(
                old(self).draws_by(),
                *numbers,
                graph,
                old(self).plan(),
                params,
                p@,
            ),
            r.0 matches Event::Loop(reason) ==> may_loop(
                graph,
                old(self).plan(),
                params,
                constraint,
                reason,
            ),
            r.0 matches Event::Failed(failure) ==> gives_up(
                old(self).draws_by(),
                *numbers,
                graph,
                old(self).plan(),
                params,
                constraint,
                failure,
            ) && (failure is Other ==> params.variant == RecomVariant::Reversible),
            r.0 is Retry ==> params.variant != RecomVariant::Reversible,
            r.0 is Retry && r.1 ==> draw::splits_fail(graph, old(self).plan(), params),
            attempted(
                old(self).draws_by(),
                *numbers,
                graph,
                old(self).plan(),
                params,
                constraint,
                old(self).generator(),
                r.0,
                final(self).generator(),
            ),
    {
        let drawn: Draw = draw::draw_proposal(
            graph,
            &self.partition,
            params,
            &mut self.sampler,
            &mut self.tree,
            &mut self.rng.rng,
        );
        let ghost between = self.generator();
        assert(draw::draw_comes(
            old(self).draws_by(),
            graph,
            old(self).plan(),
            params,
            old(self).generator(),
            drawn,
            between,
        ));
        let paired: bool = match &drawn {
            Draw::NoPair => false,
            _ => true,
        };
        let event: Event = self.settle(
            graph,
            params,
            constraint,
            numbers,
            drawn,
            Ghost(old(self).draws_by()),
        );
        (event, paired)
    }

    /// Makes an attempt at a chain event that redraws the first two districts
    /// that an edge joins.
    fn last_attempt(
        &mut self,
        graph: &Graph,
        params: &RecomParams,
        constraint: &C,
        numbers: &Arithmetic<F>,
    ) -> (r: Event)
        requires
            runs(graph, old(self).plan(), params, constraint),
            numbers.valid(),
            old(self).valid(graph, constraint),
            params.variant != RecomVariant::Reversible,
        ensures
            final(self).valid(graph, constraint),
            final(self).plan() == old(self).plan(),
            final(self).seed() == old(self).seed(),
            final(self).draws_by().alike(old(self).draws_by()),
            r matches Event::Proposal(_, p) ==> draw::proposes(
                graph,
                old(self).plan(),
                params,
                p@,
            ) && constraint.allows_redraw(graph, p@) && accepts(
                old(self).draws_by(),
                *numbers,
                graph,
                old(self).plan(),
                params,
                p@,
            ),
            r matches Event::Loop(reason) ==> may_loop(
                graph,
                old(self).plan(),
                params,
                constraint,
                reason,
            ),
            r matches Event::Failed(failure) ==> gives_up(
                old(self).draws_by(),
                *numbers,
                graph,
                old(self).plan(),
                params,
                constraint,
                failure,
            ) && (failure is Other ==> params.variant == RecomVariant::Reversible),
            r is Retry ==> draw::draws_fail(graph, old(self).plan(), params),
    {
        match pairs::first_pair(graph, &self.partition) {
            None => Event::Retry,
            Some((a, b)) => {
                let drawn: Draw = draw::draw_from_pair(
                    graph,
                    &self.partition,
                    params,
                    a,
                    b,
                    &mut self.sampler,
                    &mut self.tree,
                    &mut self.rng.rng,
                );
                self.settle(
                    graph,
                    params,
                    constraint,
                    numbers,
                    drawn,
                    Ghost(old(self).draws_by()),
                )
            },
        }
    }

    /// Draws a chain event: a proposal or a self-loop. Gives up where the
    /// chain cannot draw a tree or has used up its attempts; where none of them
    /// drew two districts to redraw, the first two are tried before.
    fn next_event(
        &mut self,
        graph: &Graph,
        params: &RecomParams,
        constraint: &C,
        numbers: &Arithmetic<F>,
    ) -> (r: Event)
        requires
            runs(graph, old(self).plan(), params, constraint),
            numbers.valid(),
            old(self).valid(graph, constraint),
        ensures
            final(self).valid(graph, constraint),
            final(self).plan() == old(self).plan(),
            r matches Event::Proposal(_, p) ==> draw::proposes(
                graph,
                old(self).plan(),
                params,
                p@,
            ) && constraint.allows_redraw(graph, p@) && accepts(
                old(self).draws_by(),
                *numbers,
                graph,
                old(self).plan(),
                params,
                p@,
            ),
            final(self).seed() == old(self).seed(),
            final(self).draws_by().alike(old(self).draws_by()),
            r matches Event::Loop(reason) ==> may_loop(
                graph,
                old(self).plan(),
                params,
                constraint,
                reason,
            ),
            r !is Retry,
            r matches Event::Failed(failure) ==> gives_up(
                old(self).draws_by(),
                *numbers,
                graph,
                old(self).plan(),
                params,
                constraint,
                failure,
            ),
            event_comes(
                old(self).draws_by(),
                *numbers,
                graph,
                old(self).plan(),
                params,
                constraint,
                old(self).generator(),
                r,
                final(self).generator(),
            ),
    {
        let mut attempts: u64 = u64::MAX;
        let ghost mut count: nat = 0;
        let mut paired: bool = false;
        let ghost plan = self.plan();
        while attempts > 0
            invariant
                runs(graph, plan, params, constraint),
                numbers.valid(),
                self.valid(graph, constraint),
                self.plan() == plan,
                self.seed() == old(self).seed(),
                plan == old(self).plan(),
                self.draws_by().alike(old(self).draws_by()),
                attempts < u64::MAX ==> params.variant != RecomVariant::Reversible,
                paired ==> draw::splits_fail(graph, plan, params),
                count + attempts == u64::MAX,
                retried(
                    old(self).draws_by(),
                    *numbers,
                    graph,
                    plan,
                    params,
                    constraint,
                    old(self).generator(),
                    count,
                    self.generator(),
                ),
            decreases attempts,
        {
            let ghost sampler = self.draws_by();
            let ghost between = self.generator();
            let (event, drew): (Event, bool) = self.attempt(graph, params, constraint, numbers);
            proof {
                attempted_alike(
                    sampler,
                    old(self).draws_by(),
                    *numbers,
                    graph,
                    plan,
                    params,
                    constraint,
                    between,
                    event,
                    self.generator(),
                );
            }
            match event {
                Event::Retry => {
                    paired = paired || drew;
                    proof {
                        count = count + 1;
                    }
                },
                other => {
                    proof {
                        event_alike(
                            sampler,
                            old(self).draws_by(),
                            *numbers,
                            graph,
                            plan,
                            params,
                            constraint,
                            other,
                        );
                    }
                    return other;
                },
            }
            attempts = attempts - 1;
        }
        if !paired {
            let ghost sampler = self.draws_by();
            match self.last_attempt(graph, params, constraint, numbers) {
                Event::Retry => {},
                other => {
                    proof {
                        event_alike(
                            sampler,
                            old(self).draws_by(),
                            *numbers,
                            graph,
                            plan,
                            params,
                            constraint,
                            other,
                        );
                    }
                    return other;
                },
            }
        }
        Event::Failed(Failure::Other("No proposal could be drawn.".to_string()))
    }

    /// Performs a unit of work: moves the plan along and draws the asked for
    /// number of chain events at it. Every event is counted once, as a
    /// self-loop or as a proposal.
    pub fn run_job(
        &mut self,
        graph: &Graph,
        params: &RecomParams,
        constraint: &C,
        numbers: &Arithmetic<F>,
        job: &JobPacket,
    ) -> (r: Result<ResultPacket, Failure>)
        requires
            runs(graph, old(self).plan(), params, constraint),
            numbers.valid(),
            old(self).valid(graph, constraint),
            job.diff matches Some(p) ==> old(self).plan().admits(p@),
        ensures
            final(self).valid(graph, constraint),
            final(self).plan() == moved(old(self).plan(), job.diff),
            r matches Ok(packet) ==> batch_of(
                graph,
                final(self).plan(),
                params,
                constraint,
                packet,
                job.n_steps as nat,
            ),
            r matches Ok(packet) ==> exists|events: Seq<Event>|
                {
                    &&& #[trigger] events_come(
                        old(self).draws_by(),
                        *numbers,
                        graph,
                        final(self).plan(),
                        params,
                        constraint,
                        old(self).generator(),
                        events,
                        final(self).generator(),
                    )
                    &&& events.len() == job.n_steps
                    &&& packet.proposals@ == proposals_among(events)
                    &&& tells(events, packet.counts)
                },
            r matches Ok(packet) ==> forall|i: int|
                0 <= i < packet.proposals.len() ==> accepts(
                    old(self).draws_by(),
                    *numbers,
                    graph,
                    final(self).plan(),
                    params,
                    (#[trigger] packet.proposals[i]).1@,
                ),
            job.n_steps == 0 ==> r is Ok,
            final(self).seed() == old(self).seed(),
            final(self).draws_by().alike(old(self).draws_by()),
            r matches Err(failure) ==> gives_up(
                old(self).draws_by(),
                *numbers,
                graph,
                final(self).plan(),
                params,
                constraint,
                failure,
            ),
    {
        if let Some(diff) = &job.diff {
            proof {
                partition::redrawn_is_valid(self.plan(), diff@);
            }
            self.apply(graph, constraint, diff);
        }
        let ghost plan = self.plan();
        let mut counts: SelfLoopCounts = SelfLoopCounts::default();
        let mut proposals: Vec<(u64, RecomProposal)> = Vec::new();
        let ghost mut events: Seq<Event> = Seq::empty();
        proof {
            nothing_is_told(events, counts);
        }
        let mut k: usize = 0;
        while k < job.n_steps
            invariant
                events.len() == k,
                proposals@ == proposals_among(events),
                tells(events, counts),
                events_come(
                    old(self).draws_by(),
                    *numbers,
                    graph,
                    plan,
                    params,
                    constraint,
                    old(self).generator(),
                    events,
                    self.generator(),
                ),
                k <= job.n_steps,
                runs(graph, plan, params, constraint),
                numbers.valid(),
                self.valid(graph, constraint),
                self.plan() == plan,
                plan == moved(old(self).plan(), job.diff),
                self.seed() == old(self).seed(),
                self.draws_by().alike(old(self).draws_by()),
                counts.total() + proposals.len() == k,
                forall|reason: SelfLoopReason| #[trigger]
                    counts.count(reason) > 0 ==> may_loop(
                        graph,
                        plan,
                        params,
                        constraint,
                        reason,
                    ),
                forall|i: int|
                    0 <= i < proposals.len() ==> draw::proposes(
                        graph,
                        plan,
                        params,
                        (#[trigger] proposals[i]).1@,
                    ) && constraint.allows_redraw(graph, proposals[i].1@) && accepts(
                        old(self).draws_by(),
                        *numbers,
                        graph,
                        plan,
                        params,
                        proposals[i].1@,
                    ),
            decreases job.n_steps - k,
        {
            let ghost sampler = self.draws_by();
            let ghost between = self.generator();
            let ghost earlier = events;
            let ghost tallied = counts;
            let event: Event = self.next_event(graph, params, constraint, numbers);
            proof {
                event_comes_alike(
                    sampler,
                    old(self).draws_by(),
                    *numbers,
                    graph,
                    plan,
                    params,
                    constraint,
                    between,
                    event,
                    self.generator(),
                );
                events = events.push(event);
                assert(events.drop_last() =~= earlier);
            }
            let ghost came = event;
            match event {
                Event::Proposal(id, p) => {
                    proof {
                        accepts_alike(
                            sampler,
                            old(self).draws_by(),
                            *numbers,
                            graph,
                            plan,
                            params,
                            p@,
                        );
                    }
                    proposals.push((id, p));
                },
                Event::Loop(reason) => {
                    let ghost before = counts;
                    assert(counts.count(reason) <= counts.total());
                    counts.inc(reason);
                    assert forall|other: SelfLoopReason| #[trigger]
                        counts.count(other) > 0 implies may_loop(
                        graph,
                        plan,
                        params,
                        constraint,
                        other,
                    ) by {
                        if other != reason {
                            assert(counts.count(other) == before.count(other));
                        }
                    }
                },
                Event::Retry => {},
                Event::Failed(e) => {
                    proof {
                        gives_up_alike(
                            sampler,
                            old(self).draws_by(),
                            *numbers,
                            graph,
                            plan,
                            params,
                            constraint,
                            e,
                        );
                    }
                    return Err(e);
                },
            }
            proof {
                one_more_is_told(earlier, tallied, came, counts);
            }
            k += 1;
        }
        Ok(ResultPacket { counts, proposals })
    }
}

/// The plan after an optional change.
pub open spec fn moved(plan: Plan, diff: Option<RecomProposal>) -> Plan {
    match diff {
        Some(p) => plan.redrawn(p@),
        None => plan,
    }
}

/// Whether a chain may propose what a packet proposes.
pub open spec fn batch_cut<F: Fn(Op, Double, Double) -> Double>(
    arithmetic: Arithmetic<F>,
    graph: &Graph,
    plan: Plan,
    params: &RecomParams,
    packet: ResultPacket,
) -> bool {
    forall|i: int|
        0 <= i < packet.proposals.len() ==> accepted_for(
            arithmetic,
            graph,
            plan,
            params,
            (#[trigger] packet.proposals[i]).1@,
        )
}

/// Workers at a plan, each with random numbers of its own.
pub fn make_workers<C: ChainConstraint, F: Fn(Op, Double, Double) -> Double + Copy>(
    graph: &Graph,
    partition: &Partition,
    params: &RecomParams,
    constraint: &C,
    n_threads: usize,
    arithmetic: Arithmetic<F>,
) -> (r: Vec<Worker<C, F>>)
    requires
        runs(graph, partition@, params, constraint),
        arithmetic.valid(),
        params.rng_seed + n_threads <= u64::MAX,
    ensures
        r.len() == n_threads,
        forall|t: int|
            0 <= t < n_threads ==> (#[trigger] r[t]).valid(graph, constraint) && r[t].plan()
                == partition@ && r[t].seed() == params.rng_seed + t + 1 && draw::made_for(
                r[t].draws_by(),
                params,
                arithmetic,
            ),
{
    let mut workers: Vec<Worker<C, F>> = Vec::new();
    let mut t: usize = 0;
    while t < n_threads
        invariant
            t <= n_threads,
            runs(graph, partition@, params, constraint),
            arithmetic.valid(),
            params.rng_seed + n_threads <= u64::MAX,
            workers.len() == t,
            forall|j: int|
                0 <= j < t ==> (#[trigger] workers[j]).valid(graph, constraint)
                    && workers[j].plan() == partition@ && workers[j].seed() == params.rng_seed + j
                    + 1 && draw::made_for(workers[j].draws_by(), params, arithmetic),
        decreases n_threads - t,
    {
        let seed: u64 = random::worker_seed(params.rng_seed, t);
        workers.push(Worker::new(graph, partition, params, constraint, seed, arithmetic));
        t += 1;
    }
    workers
}

/// Whether a packet holds `n` chain events drawn at a plan.
pub open spec fn batch_of<C: ChainConstraint>(
    graph: &Graph,
    plan: Plan,
    params: &RecomParams,
    constraint: &C,
    packet: ResultPacket,
    n: nat,
) -> bool {
    &&& packet.counts.total() + packet.proposals.len() == n
    &&& may_count(graph, plan, params, constraint, packet.counts)
    &&& forall|i: int|
        0 <= i < packet.proposals.len() ==> draw::proposes(
            graph,
            plan,
            params,
            (#[trigger] packet.proposals[i]).1@,
        ) && constraint.allows_redraw(graph, packet.proposals[i].1@)
}

/// A cut is accepted with the number of balanced cuts over the seam length times
/// the bound as its probability: a proportion, which is one where all are taken
/// and zero where there are none.
pub proof fn acceptance_is_a_proportion<F: Fn(Op, Double, Double) -> Double>(
    numbers: Arithmetic<F>,
    n_splits: int,
    seam_length: int,
    balance_ub: int,
)
    requires
        numbers.counts(),
        numbers.orderly(),
        0 < seam_length <= double::WHOLE,
        0 < balance_ub <= double::WHOLE,
        0 <= n_splits <= seam_length * balance_ub <= double::WHOLE,
    ensures
        ({
            let prob = acceptance_of(numbers, n_splits, seam_length, balance_ub);
            &&& double::zero().at_most(prob)
            &&& prob.at_most(double::one())
            &&& n_splits == seam_length * balance_ub ==> prob == double::one()
            &&& n_splits < seam_length * balance_ub ==> prob.below(double::one())
            &&& n_splits == 0 ==> prob == double::zero()
            &&& prob == numbers.quotient(
                numbers.integer(n_splits),
                numbers.integer(seam_length * balance_ub),
            )
        }),
{
    let all = seam_length * balance_ub;
    assert(all > 0) by (nonlinear_arith)
        requires
            0 < seam_length,
            0 < balance_ub,
            all == seam_length * balance_ub,
    ;
    numbers.whole_results(seam_length, balance_ub);
    numbers.whole_results(n_splits, all);
    numbers.whole_results(0, all);
    numbers.whole_results(0, n_splits);
    numbers.ordered_quotients(
        numbers.integer(n_splits),
        numbers.integer(all),
        numbers.integer(all),
        numbers.integer(all),
    );
}

/// More balanced cuts make a cut no less likely to be accepted; a longer seam
/// and a higher bound make it no more likely.
pub proof fn acceptance_is_monotone<F: Fn(Op, Double, Double) -> Double>(
    numbers: Arithmetic<F>,
    n_splits: int,
    more_splits: int,
    seam_length: int,
    longer_seam: int,
    balance_ub: int,
    higher_ub: int,
)
    requires
        numbers.counts(),
        numbers.orderly(),
        0 <= n_splits <= more_splits <= double::WHOLE,
        0 < seam_length <= longer_seam <= double::WHOLE,
        0 < balance_ub <= higher_ub <= double::WHOLE,
        longer_seam * higher_ub <= double::WHOLE,
    ensures
        acceptance_of(numbers, n_splits, longer_seam, higher_ub).at_most(
            acceptance_of(numbers, more_splits, seam_length, balance_ub),
        ),
{
    let fewer = seam_length * balance_ub;
    let all = longer_seam * higher_ub;
    assert(0 < fewer <= all) by (nonlinear_arith)
        requires
            0 < seam_length <= longer_seam,
            0 < balance_ub <= higher_ub,
            fewer == seam_length * balance_ub,
            all == longer_seam * higher_ub,
    ;
    numbers.whole_results(seam_length, balance_ub);
    numbers.whole_results(longer_seam, higher_ub);
    numbers.whole_results(fewer, all);
    numbers.whole_results(0, fewer);
    numbers.whole_results(0, n_splits);
    numbers.whole_results(n_splits, more_splits);
    numbers.ordered_quotients(
        numbers.integer(n_splits),
        numbers.integer(more_splits),
        numbers.integer(fewer),
        numbers.integer(all),
    );
}

/// A reversible chain accepts an allowed proposal by its probability: where that
/// is `k` of the two to the power of 53 parts of the unit, `2048 * k` of all bit
/// patterns accept it, and the others count a self-loop for its seam length.
pub proof fn reversible_chains_accept_in_proportion<F: Fn(Op, Double, Double) -> Double>(
    numbers: Arithmetic<F>,
    graph: &Graph,
    params: &RecomParams,
    n: usize,
    p: RecomProposal,
    bits: u64,
    k: int,
    r: Result<RecomProposal, Event>,
)
    requires
        numbers.divides_the_unit(),
        params.variant == RecomVariant::Reversible,
        0 <= k <= double::WHOLE,
        numbers.quotient(
            numbers.integer(n as int),
            numbers.product(
                numbers.integer(seam_of(graph, &p) as int),
                numbers.integer(params.balance_ub as int),
            ),
        ) == numbers.product(double::unit_scale(), numbers.integer(k)),
        decides(numbers, graph, params, Draw::Proposal(n, p), true, bits, r),
    ensures
        bits < 2048 * k ==> r == Ok::<RecomProposal, Event>(p),
        bits >= 2048 * k ==> r == Err::<RecomProposal, Event>(
            Event::Loop(SelfLoopReason::SeamLength),
        ),
{
    numbers.units_are_even(bits, k);
}

/// Where chance does not decide, the bits change nothing.
pub proof fn bits_matter_only_to_chance<F: Fn(Op, Double, Double) -> Double>(
    numbers: Arithmetic<F>,
    graph: &Graph,
    params: &RecomParams,
    drawn: Draw,
    allowed: bool,
    bits: u64,
    others: u64,
    r: Result<RecomProposal, Event>,
)
    requires
        !(drawn is Proposal && params.variant == RecomVariant::Reversible && allowed),
        decides(numbers, graph, params, drawn, allowed, bits, r),
    ensures
        decides(numbers, graph, params, drawn, allowed, others, r),
{
}

/// A chain never proposes what its constraint does not allow, and other than
/// reversible chains propose whatever is allowed.
pub proof fn allowed_proposals_are_made<F: Fn(Op, Double, Double) -> Double>(
    numbers: Arithmetic<F>,
    graph: &Graph,
    params: &RecomParams,
    n: usize,
    p: RecomProposal,
    allowed: bool,
    bits: u64,
    r: Result<RecomProposal, Event>,
)
    requires
        decides(numbers, graph, params, Draw::Proposal(n, p), allowed, bits, r),
    ensures
        !allowed ==> r == Err::<RecomProposal, Event>(
            Event::Loop(SelfLoopReason::ConstraintViolation),
        ),
        allowed && params.variant != RecomVariant::Reversible ==> r == Ok::<RecomProposal, Event>(
            p,
        ),
{
}

/// A reversible chain takes the bits that decide over an allowed proposal from
/// its generator, and numbers the proposal by the bits that come after them. A
/// proposal with `k` of the two to the power of 53 parts of the unit as its
/// probability is made for `2048 * k` of all bit patterns.
pub proof fn reversible_chains_decide_by_the_next_bits<F: Fn(Op, Double, Double) -> Double>(
    numbers: Arithmetic<F>,
    graph: &Graph,
    params: &RecomParams,
    n: usize,
    p: RecomProposal,
    k: int,
    before: SmallRng,
    event: Event,
    after: SmallRng,
)
    requires
        numbers.divides_the_unit(),
        params.variant == RecomVariant::Reversible,
        0 <= k <= double::WHOLE,
        numbers.quotient(
            numbers.integer(n as int),
            numbers.product(
                numbers.integer(seam_of(graph, &p) as int),
                numbers.integer(params.balance_ub as int),
            ),
        ) == numbers.product(double::unit_scale(), numbers.integer(k)),
        settles(numbers, graph, params, Draw::Proposal(n, p), true, before, event, after),
    ensures
        exists|bits: u64, between: SmallRng| #[trigger]
            random::gives(before, bits, between) && if bits < 2048 * k {
                event matches Event::Proposal(id, q) && q == p && random::gives(between, id, after)
            } else {
                event == Event::Loop(SelfLoopReason::SeamLength) && after == between
            },
{
    let drawn = Draw::Proposal(n, p);
    let (bits, decision, between) = choose|
        bits: u64,
        decision: Result<RecomProposal, Event>,
        between: SmallRng,
    |
        {
            &&& if chance_decides(params, drawn, true) {
                random::gives(before, bits, between)
            } else {
                between == before
            }
            &&& #[trigger] decides(numbers, graph, params, drawn, true, bits, decision)
            &&& #[trigger] comes_to(decision, between, event, after)
        };
    reversible_chains_accept_in_proportion(numbers, graph, params, n, p, bits, k, decision);
    assert(random::gives(before, bits, between));
}

/// A proposal that is not allowed takes nothing from the generator. One that is
/// allowed is made by every other chain, numbered by the next bits of its
/// generator.
pub proof fn other_chains_number_what_they_draw<F: Fn(Op, Double, Double) -> Double>(
    numbers: Arithmetic<F>,
    graph: &Graph,
    params: &RecomParams,
    n: usize,
    p: RecomProposal,
    allowed: bool,
    before: SmallRng,
    event: Event,
    after: SmallRng,
)
    requires
        params.variant != RecomVariant::Reversible || !allowed,
        settles(numbers, graph, params, Draw::Proposal(n, p), allowed, before, event, after),
    ensures
        !allowed ==> event == Event::Loop(SelfLoopReason::ConstraintViolation) && after == before,
        allowed ==> (event matches Event::Proposal(id, q) && q == p && random::gives(
            before,
            id,
            after,
        )),
{
}

} // verus!
