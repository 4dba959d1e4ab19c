//! The output of short bursts: plans for a writer and rows of scores.

use vstd::prelude::*;
use crate::double::{Arithmetic, Double, Op};
use crate::graph::Graph;
use crate::objectives::incremental::IncrementalObjective;
use crate::partition::{Partition, Plan};
use crate::recom::burst_run::{BurstLog, BurstRecord};
use crate::recom::proposal::{RecomParams, RecomProposal, RecomVariant, Redraw};
use crate::recom::short_bursts::Visit;
use crate::recom::{burst_run, chain, contiguity, draw, populations, short_bursts};
use crate::stats::counts::SelfLoopCounts;
use crate::stats::records::{Entry, Record};
use crate::stats::scores;
use crate::stats::scores::ScoresWriter;
use crate::stats::writers::StatsWriter;
use crate::stats::{counts, records, writers};
use crate::{partition, vectors};

verus! {

/// A walk stands at the seed plan or at a plan that it has visited.
pub proof fn stands_at_a_visit(seed: Visit, visits: Seq<Visit>, burst: nat, maximize: bool)
    ensures
        ({
            let s = short_bursts::standing(seed, visits, burst, maximize);
            &&& s.current == seed || visits.contains(s.current)
            &&& s.burst_best == seed || visits.contains(s.burst_best)
        }),
    decreases visits.len(),
{
    if visits.len() > 0 {
        let before = visits.drop_last();
        stands_at_a_visit(seed, before, burst, maximize);
        assert(visits.contains(visits.last())) by {
            assert(visits[visits.len() - 1] == visits.last());
        }
        assert forall|v: Visit| #[trigger] before.contains(v) implies visits.contains(v) by {
            let j = choose|j: int| 0 <= j < before.len() && before[j] == v;
            assert(visits[j] == v);
        }
    }
}

/// The plans of a run of short bursts keep districts contiguous, populations
/// within bounds, and recorded populations those of the nodes, where the seed
/// plan has them so.
pub proof fn bursts_keep_their_shape<O: IncrementalObjective>(
    graph: &Graph,
    seed: Visit,
    params: &RecomParams,
    objective: &O,
    burst: nat,
    maximize: bool,
    records: Seq<BurstRecord>,
    i: int,
)
    requires
        seed.plan.valid(),
        burst_run::logs_bursts(graph, seed, params, objective, burst, maximize, records),
        0 <= i < records.len(),
    ensures
        chain::all_contiguous(graph, seed.plan) ==> chain::all_contiguous(
            graph,
            records[i].partition@,
        ),
        chain::all_balanced(seed.plan, params.min_pop, params.max_pop) ==> chain::all_balanced(
            records[i].partition@,
            params.min_pop,
            params.max_pop,
        ),
        populations::populated(graph.pops@, seed.plan) ==> populations::populated(
            graph.pops@,
            records[i].partition@,
        ),
    decreases i,
{
    let earlier = burst_run::visits_of(records).take(i);
    let before = short_bursts::standing(seed, earlier, burst, maximize).current.plan;
    let after = records[i].partition@;
    stands_at_a_visit(seed, earlier, burst, maximize);
    assert(burst_run::record_follows(
        graph,
        seed,
        params,
        objective,
        burst,
        maximize,
        records,
        i,
    ));
    if short_bursts::standing(seed, earlier, burst, maximize).current != seed {
        let visit = short_bursts::standing(seed, earlier, burst, maximize).current;
        let j = choose|j: int| 0 <= j < earlier.len() && earlier[j] == visit;
        assert(before == records[j].partition@);
        assert(burst_run::record_follows(
            graph,
            seed,
            params,
            objective,
            burst,
            maximize,
            records,
            j,
        ));
        bursts_keep_their_shape(graph, seed, params, objective, burst, maximize, records, j);
    }
    let p = choose|p: Redraw| #[trigger]
        draw::proposes(graph, before, params, p) && after == before.redrawn(p);
    if populations::populated(graph.pops@, seed.plan) {
        populations::redrawn_is_populated(graph.pops@, before, p);
    }
    if chain::all_contiguous(graph, seed.plan) {
        assert forall|d: int| 0 <= d < after.dist_nodes.len() implies contiguity::contiguous(
            graph.edges@,
            #[trigger] after.dist_nodes[d],
        ) by {
            if d != p.a_label && d != p.b_label {
                assert(after.dist_nodes[d] == before.dist_nodes[d]);
            }
        }
    }
    if chain::all_balanced(seed.plan, params.min_pop, params.max_pop) {
        assert forall|d: int| 0 <= d < after.dist_pops.len() implies params.min_pop
            <= #[trigger] after.dist_pops[d] <= params.max_pop by {
            if d != p.a_label && d != p.b_label {
                assert(after.dist_pops[d] == before.dist_pops[d]);
            }
        }
    }
}

/// The proposal that redraws nothing. It stands in the records of optimizer
/// steps, which may also go back to an earlier plan.
pub open spec fn no_redraw() -> Redraw {
    Redraw {
        a_label: 0,
        b_label: 0,
        a_pop: 0,
        b_pop: 0,
        a_nodes: Seq::empty(),
        b_nodes: Seq::empty(),
    }
}

fn empty_proposal() -> (r: RecomProposal)
    ensures
        r@ == no_redraw(),
{
    let r: RecomProposal = RecomProposal {
        a_label: 0,
        b_label: 0,
        a_pop: 0,
        b_pop: 0,
        a_nodes: Vec::new(),
        b_nodes: Vec::new(),
    };
    assert(r@ =~= no_redraw());
    r
}

/// The plan at a position of a run: the seed plan at 0.
pub open spec fn plan_of(seed: Plan, records: Seq<BurstRecord>, k: int) -> Plan {
    if k <= 0 {
        seed
    } else {
        records[k - 1].partition@
    }
}

/// The output after the seed plan and the first `k` steps, where `states` are
/// the writer's states before the seed plan and after each record. Every step
/// is written, with its plan and without self-loops.
pub open spec fn plans_upto<W: StatsWriter>(
    states: Seq<W>,
    graph: &Graph,
    seed: Plan,
    records: Seq<BurstRecord>,
    k: int,
) -> Seq<Entry>
    decreases k,
{
    if k <= 0 {
        states[0].seed_entries(graph, seed)
    } else {
        plans_upto(states, graph, seed, records, k - 1) + states[k].step_entries(
            k,
            graph,
            plan_of(seed, records, k),
            no_redraw(),
            counts::no_loops(),
        )
    }
}

/// Whether writer states follow a run: each comes from the one before it, and
/// stands at the plan of the run.
pub open spec fn states_stand<W: StatsWriter>(
    states: Seq<W>,
    graph: &Graph,
    seed: Plan,
    records: Seq<BurstRecord>,
) -> bool {
    &&& states[0].begun(graph, seed, &states[1])
    &&& forall|k: int|
        #![trigger states[k + 2]]
        0 <= k < states.len() - 2 ==> states[k + 1].stepped(
            k + 1,
            graph,
            plan_of(seed, records, k + 1),
            no_redraw(),
            counts::no_loops(),
            &states[k + 2],
        )
    &&& forall|k: int|
        #![trigger states[k + 1]]
        0 <= k < states.len() - 1 ==> states[k + 1].stands(graph, plan_of(seed, records, k), k)
}

/// Whether entries are those of a run that a writer wrote, and what the writer
/// became.
pub open spec fn written_plans<W: StatsWriter>(
    writer: W,
    graph: &Graph,
    seed: Plan,
    records: Seq<BurstRecord>,
    out: Seq<Entry>,
    after: W,
) -> bool {
    exists|states: Seq<W>|
        {
            &&& states.len() == records.len() + 2
            &&& states[0] == writer
            &&& #[trigger] states_stand(states, graph, seed, records)
            &&& out == plans_upto(states, graph, seed, records, records.len() as int)
                + states.last().close_entries()
            &&& states.last().ended(&after)
        }
}

proof fn plans_of_prefix<W: StatsWriter>(
    a: Seq<W>,
    b: Seq<W>,
    graph: &Graph,
    seed: Plan,
    records: Seq<BurstRecord>,
    k: int,
)
    requires
        0 <= k < a.len() <= b.len(),
        forall|i: int| 0 <= i < a.len() ==> a[i] == #[trigger] b[i],
    ensures
        plans_upto(a, graph, seed, records, k) == plans_upto(b, graph, seed, records, k),
    decreases k,
{
    assert(a[0] == b[0]);
    if k > 0 {
        plans_of_prefix(a, b, graph, seed, records, k - 1);
        assert(a[k] == b[k]);
    }
}

/// Whether records hold valid plans on the graph with the seed plan's districts.
pub open spec fn plans_fit(graph: &Graph, seed: Plan, records: Seq<BurstRecord>) -> bool {
    &&& seed.valid()
    &&& seed.assignments.len() == graph.order()
    &&& forall|i: int|
        0 <= i < records.len() ==> {
            &&& (#[trigger] records[i]).partition@.valid()
            &&& records[i].partition@.assignments.len() == graph.order()
            &&& records[i].partition@.num_dists == seed.num_dists
        }
}

/// Writes the plans of a run: the seed plan, then every step, then the end.
pub fn write_plans<W: StatsWriter>(
    graph: &Graph,
    partition: &Partition,
    writer: &mut W,
    steps: &Vec<BurstRecord>,
) -> (r: Vec<Record>)
    requires
        graph.sound(),
        plans_fit(graph, partition@, steps@),
        steps.len() < u64::MAX,
        old(writer).starts(graph, partition),
    ensures
        written_plans(
            *old(writer),
            graph,
            partition@,
            steps@,
            records::entries(r@),
            *final(writer),
        ),
{
    let ghost mut states: Seq<W> = seq![*writer];
    let mut out: Vec<Record> = writer.init(graph, partition);
    proof {
        let old_states = states;
        states = states.push(*writer);
        assert(states[0] == old_states[0]);
    }
    let ghost seed = partition@;
    let empty: RecomProposal = empty_proposal();
    let none: SelfLoopCounts = SelfLoopCounts::default();
    let mut k: usize = 0;
    while k < steps.len()
        invariant
            k <= steps.len(),
            steps.len() < u64::MAX,
            graph.sound(),
            seed == partition@,
            plans_fit(graph, seed, steps@),
            empty@ == no_redraw(),
            none == counts::no_loops(),
            states.len() == k + 2,
            states[0] == *old(writer),
            states.last() == *writer,
            states_stand(states, graph, seed, steps@),
            records::entries(out@) == plans_upto(states, graph, seed, steps@, k as int),
        decreases steps.len() - k,
    {
        let ghost before = plan_of(seed, steps@, k as int);
        let ghost old_states = states;
        let current: &Partition = &steps[k].partition;
        let step: u64 = k as u64 + 1;
        proof {
            assert(states[k + 1].stands(graph, before, k as int));
            if k > 0 {
                assert(steps@[k - 1].partition@.valid());
            }
            assert(writers::next_step(graph, before, current@, k as int, step, none));
            writer.ready_to_step(graph, before, k as int, step, current, &empty, &none);
        }
        let more: Vec<Record> = writer.step(step, graph, current, &empty, &none);
        chain::append(&mut out, more);
        proof {
            states = states.push(*writer);
            assert(states[0] == old_states[0] && states[1] == old_states[1]);
            assert forall|j: int|
                #![trigger states[j + 2]]
                0 <= j < states.len() - 2 implies states[j + 1].stepped(
                j + 1,
                graph,
                plan_of(seed, steps@, j + 1),
                no_redraw(),
                counts::no_loops(),
                &states[j + 2],
            ) by {
                assert(states[j + 1] == old_states[j + 1]);
                if j < k {
                    assert(states[j + 2] == old_states[j + 2]);
                }
            }
            plans_of_prefix(old_states, states, graph, seed, steps@, k as int);
            assert(states[k + 1] == old_states[k + 1]);
            assert forall|j: int|
                #![trigger states[j + 1]]
                0 <= j < states.len() - 1 implies states[j + 1].stands(
                graph,
                plan_of(seed, steps@, j),
                j,
            ) by {
                if j < k + 1 {
                    assert(states[j + 1] == old_states[j + 1]);
                }
            }
        }
        k += 1;
    }
    proof {
        assert(states[k + 1].stands(graph, plan_of(seed, steps@, k as int), k as int));
        writer.ready_to_close(graph, plan_of(seed, steps@, k as int), k as int);
    }
    let more: Vec<Record> = writer.close();
    chain::append(&mut out, more);
    assert(states_stand(states, graph, partition@, steps@));
    out
}

/// The text of a score and of its district scores.
#[derive(Debug)]
pub struct ScoreTexts {
    pub score: String,
    pub districts: Vec<String>,
}

/// The row of a step.
pub open spec fn row_of(step: int, texts: ScoreTexts) -> Seq<char> {
    scores::scores_row(step, texts.score@, vectors::texts(texts.districts@))
}

/// The rows of the first `k` steps: of all of them, or only of those whose
/// score is better than any before.
pub open spec fn rows_upto(
    records: Seq<BurstRecord>,
    texts: Seq<ScoreTexts>,
    improved_only: bool,
    k: int,
) -> Seq<char>
    decreases k,
{
    if k <= 0 {
        Seq::empty()
    } else {
        rows_upto(records, texts, improved_only, k - 1) + (if !improved_only || records[k
            - 1].improved {
            row_of(k, texts[k - 1])
        } else {
            Seq::empty()
        })
    }
}

/// Whether texts show a score and its district scores.
pub open spec fn shown<S: Fn(Double) -> String>(
    show: &S,
    score: Double,
    districts: Seq<Double>,
    texts: ScoreTexts,
) -> bool {
    &&& call_ensures(*show, (score,), texts.score)
    &&& texts.districts.len() == districts.len()
    &&& forall|i: int|
        0 <= i < districts.len() ==> call_ensures(
            *show,
            (districts[i],),
            #[trigger] texts.districts[i],
        )
}

/// Whether texts show the scores of each record.
pub open spec fn all_shown<S: Fn(Double) -> String>(
    show: &S,
    records: Seq<BurstRecord>,
    texts: Seq<ScoreTexts>,
) -> bool {
    &&& texts.len() == records.len()
    &&& forall|i: int|
        0 <= i < records.len() ==> shown(
            show,
            records[i].score,
            records[i].district_scores@,
            #[trigger] texts[i],
        )
}

fn show_scores<S: Fn(Double) -> String>(
    show: &S,
    score: Double,
    district_scores: &Vec<Double>,
) -> (r: ScoreTexts)
    requires
        forall|x: Double| call_requires(*show, (x,)),
    ensures
        shown(show, score, district_scores@, r),
{
    let mut districts: Vec<String> = Vec::new();
    let mut i: usize = 0;
    while i < district_scores.len()
        invariant
            i <= district_scores.len(),
            forall|x: Double| call_requires(*show, (x,)),
            districts.len() == i,
            forall|j: int|
                0 <= j < i ==> call_ensures(
                    *show,
                    (district_scores[j],),
                    #[trigger] districts[j],
                ),
        decreases district_scores.len() - i,
    {
        districts.push(show(district_scores[i]));
        i += 1;
    }
    ScoreTexts { score: show(score), districts }
}

/// Writes the header, the row of the seed plan, and the rows of the steps.
pub fn write_scores<S: Fn(Double) -> String>(
    log: &BurstLog,
    improved_only: bool,
    show: &S,
    writer: &mut ScoresWriter,
)
    requires
        forall|x: Double| call_requires(*show, (x,)),
        log.records.len() < u64::MAX,
    ensures
        exists|seed: ScoreTexts, texts: Seq<ScoreTexts>|
            {
                &&& #[trigger] shown(show, log.seed_score, log.seed_district_scores@, seed)
                &&& #[trigger] all_shown(show, log.records@, texts)
                &&& final(writer).pending() == old(writer).pending() + scores::scores_header(
                    log.seed_district_scores@.len(),
                ) + row_of(0, seed) + rows_upto(
                    log.records@,
                    texts,
                    improved_only,
                    log.records@.len() as int,
                )
            },
{
    let seed: ScoreTexts = show_scores(show, log.seed_score, &log.seed_district_scores);
    writer.init(seed.score.as_str(), &seed.districts);
    let ghost start = writer.pending();
    let ghost mut texts: Seq<ScoreTexts> = Seq::empty();
    let mut k: usize = 0;
    assert(writer.pending() =~= start + rows_upto(log.records@, texts, improved_only, 0));
    while k < log.records.len()
        invariant
            k <= log.records.len(),
            log.records.len() < u64::MAX,
            forall|x: Double| call_requires(*show, (x,)),
            texts.len() == k,
            forall|i: int|
                0 <= i < k ==> shown(
                    show,
                    log.records[i].score,
                    log.records[i].district_scores@,
                    #[trigger] texts[i],
                ),
            writer.pending() == start + rows_upto(log.records@, texts, improved_only, k as int),
        decreases log.records.len() - k,
    {
        let record: &BurstRecord = &log.records[k];
        let row: ScoreTexts = show_scores(show, record.score, &record.district_scores);
        let ghost before = texts;
        let ghost pending = writer.pending();
        if !improved_only || record.improved {
            writer.step(k as u64 + 1, row.score.as_str(), &row.districts);
        }
        proof {
            texts = texts.push(row);
            rows_of_prefix(log.records@, before, texts, improved_only, k as int);
        }
        k += 1;
        assert(writer.pending() =~= start + rows_upto(
            log.records@,
            texts,
            improved_only,
            k as int,
        ));
    }
    assert(all_shown(show, log.records@, texts));
}

proof fn rows_of_prefix(
    records: Seq<BurstRecord>,
    a: Seq<ScoreTexts>,
    b: Seq<ScoreTexts>,
    improved_only: bool,
    k: int,
)
    requires
        0 <= k <= a.len() <= b.len(),
        forall|i: int| 0 <= i < a.len() ==> a[i] == #[trigger] b[i],
    ensures
        rows_upto(records, a, improved_only, k) == rows_upto(records, b, improved_only, k),
    decreases k,
{
    if k > 0 {
        rows_of_prefix(records, a, b, improved_only, k - 1);
        assert(a[k - 1] == b[k - 1]);
    }
}

/// Why a run of short bursts is refused, if it is.
pub open spec fn refusal(
    n_threads: usize,
    variant: RecomVariant,
    burst_length: usize,
) -> Option<Seq<char>> {
    if n_threads == 0 {
        Some("n_threads must be at least 1"@)
    } else if variant is Reversible {
        Some("Reversible ReCom is not supported by the short bursts optimizer."@)
    } else if burst_length == 0 {
        Some("burst_length must be at least 1"@)
    } else {
        None
    }
}

/// Whether a log is one of a run of short bursts.
pub open spec fn ran<O: IncrementalObjective, F: Fn(Op, Double, Double) -> Double>(
    arithmetic: Arithmetic<F>,
    graph: &Graph,
    seed: Plan,
    params: &RecomParams,
    objective: &O,
    maximize: bool,
    burst_length: usize,
    log: BurstLog,
) -> bool {
    let start = Visit { plan: seed, score: log.seed_score };
    &&& burst_run::rated(objective, graph, seq![seed], log.seed_score)
    &&& burst_run::districts_rated(objective, graph, seq![seed], log.seed_district_scores@)
    &&& burst_run::logs_bursts(
        graph,
        start,
        params,
        objective,
        burst_length as nat,
        maximize,
        log.records@,
    )
    &&& burst_run::cut_from_trees(
        arithmetic,
        graph,
        start,
        params,
        burst_length as nat,
        maximize,
        log.records@,
    )
    &&& log.records@.len() <= chain::run_length(params.num_steps)
    &&& log.failure is None ==> log.records@.len() == chain::run_length(params.num_steps)
    &&& params.num_steps <= 1 ==> log.failure is None
    &&& log.failure matches Some(e) ==> log.records@.len() < chain::run_length(params.num_steps)
        && burst_run::cut_short(
        arithmetic,
        graph,
        short_bursts::standing(
            start,
            burst_run::visits_of(log.records@),
            burst_length as nat,
            maximize,
        ).current.plan,
        params,
        e@,
    )
    &&& log.best@ == short_bursts::best_of(
        start,
        burst_run::visits_of(log.records@),
        maximize,
    ).plan
}

/// Runs short bursts and writes every plan to `writer` and rows of scores to
/// `scores_writer`, where there are such. Returns the best plan of the run, or
/// why the run was refused or cut short.
pub fn multi_short_bursts_with_writer<
    O: IncrementalObjective,
    W: StatsWriter,
    F: Fn(Op, Double, Double) -> Double + Copy,
    S: Fn(Double) -> String,
>(
    graph: &Graph,
    partition: &Partition,
    params: &RecomParams,
    n_threads: usize,
    objective: &O,
    maximize: bool,
    burst_length: usize,
    writer: &mut Option<W>,
    scores_writer: &mut Option<ScoresWriter>,
    write_improved_scores_only: bool,
    arithmetic: Arithmetic<F>,
    show: &S,
    out: &mut Vec<Record>,
) -> (r: Result<Partition, String>)
    requires
        burst_run::bursts_run(graph, partition@, params, objective),
        params.rng_seed + n_threads <= u64::MAX,
        arithmetic.valid(),
        forall|x: Double| call_requires(*show, (x,)),
        *old(writer) matches Some(w) ==> w.starts(graph, partition),
    ensures
        refusal(n_threads, params.variant, burst_length) matches Some(message) ==> {
            &&& r matches Err(e) && e@ == message
            &&& final(out)@ == old(out)@
            &&& *final(writer) == *old(writer)
            &&& *final(scores_writer) == *old(scores_writer)
        },
        refusal(n_threads, params.variant, burst_length) is None ==> exists|log: BurstLog|
            {
                &&& #[trigger] ran(
                    arithmetic,
                    graph,
                    partition@,
                    params,
                    objective,
                    maximize,
                    burst_length,
                    log,
                )
                &&& match log.failure {
                    Some(message) => r matches Err(e) && e@ == message@,
                    None => r matches Ok(best) && best@ == log.best@,
                }
                &&& match *old(writer) {
                    Some(w) => exists|more: Seq<Entry>, after: W| #[trigger]
                        written_plans(w, graph, partition@, log.records@, more, after)
                            && records::entries(final(out)@) == records::entries(old(out)@) + more
                            && *final(writer) == Some(after),
                    None => final(out)@ == old(out)@ && *final(writer) is None,
                }
                &&& match *old(scores_writer) {
                    Some(w) => exists|seed: ScoreTexts, texts: Seq<ScoreTexts>|
                        {
                            &&& #[trigger] shown(
                                show,
                                log.seed_score,
                                log.seed_district_scores@,
                                seed,
                            )
                            &&& #[trigger] all_shown(show, log.records@, texts)
                            &&& *final(scores_writer) matches Some(after) && after.pending()
                                == w.pending() + scores::scores_header(
                                log.seed_district_scores@.len(),
                            ) + row_of(0, seed) + rows_upto(
                                log.records@,
                                texts,
                                write_improved_scores_only,
                                log.records@.len() as int,
                            )
                        },
                    None => *final(scores_writer) is None,
                }
            },
{
    if n_threads == 0 {
        return Err("n_threads must be at least 1".to_string());
    }
    if let RecomVariant::Reversible = params.variant {
        return Err(
            "Reversible ReCom is not supported by the short bursts optimizer.".to_string(),
        );
    }
    if burst_length == 0 {
        return Err("burst_length must be at least 1".to_string());
    }
    let log: BurstLog = burst_run::run_bursts(
        graph,
        partition,
        params,
        n_threads,
        objective,
        maximize,
        burst_length,
        arithmetic,
    );
    let ghost whole = log;
    assert(ran(arithmetic, graph, partition@, params, objective, maximize, burst_length, whole));
    proof {
        let start = Visit { plan: partition@, score: log.seed_score };
        assert forall|i: int| 0 <= i < log.records@.len() implies {
            &&& (#[trigger] log.records@[i]).partition@.valid()
            &&& log.records@[i].partition@.assignments.len() == graph.order()
            &&& log.records@[i].partition@.num_dists == partition@.num_dists
        } by {
            assert(burst_run::record_follows(
                graph,
                start,
                params,
                objective,
                burst_length as nat,
                maximize,
                log.records@,
                i,
            ));
        }
    }
    match writer {
        Some(w) => {
            let more: Vec<Record> = write_plans(graph, partition, w, &log.records);
            chain::append(out, more);
        },
        None => {},
    }
    match scores_writer {
        Some(w) => {
            write_scores(&log, write_improved_scores_only, show, w);
        },
        None => {},
    }
    match log.failure {
        Some(e) => Err(e),
        None => Ok(log.best),
    }
}

/// A table of scores gains the row of a step after those of the steps before,
/// numbered from 1, unless only improvements are listed and it is none.
pub proof fn steps_have_their_rows(
    records: Seq<BurstRecord>,
    texts: Seq<ScoreTexts>,
    improved_only: bool,
    k: int,
    n: int,
)
    requires
        0 < k <= n <= records.len(),
        records.len() == texts.len(),
    ensures
        rows_upto(records, texts, improved_only, k - 1).is_prefix_of(
            rows_upto(records, texts, improved_only, n),
        ),
        !improved_only || records[k - 1].improved ==> (rows_upto(
            records,
            texts,
            improved_only,
            k - 1,
        ) + scores::scores_row(k, texts[k - 1].score@, vectors::texts(texts[k - 1].districts@)))
            .is_prefix_of(rows_upto(records, texts, improved_only, n)),
        improved_only && !records[k - 1].improved ==> rows_upto(records, texts, improved_only, k)
            == rows_upto(records, texts, improved_only, k - 1),
    decreases n - k,
{
    let before = rows_upto(records, texts, improved_only, k - 1);
    let after = rows_upto(records, texts, improved_only, k);
    assert(before.is_prefix_of(after));
    if k < n {
        steps_have_their_rows(records, texts, improved_only, k + 1, n);
        let all = rows_upto(records, texts, improved_only, n);
        assert(after.is_prefix_of(all));
        assert(before.is_prefix_of(all));
    }
    if improved_only && !records[k - 1].improved {
        assert(after =~= before);
    }
}

} // verus!
