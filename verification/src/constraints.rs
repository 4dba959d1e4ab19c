//! Constraints that every plan of a chain satisfies.

use serde_json::Value;
use vstd::prelude::*;
use crate::double::{Arithmetic, Double, Op};
use crate::graph::Graph;
use crate::objectives::aggregation;
use crate::partition::{Partition, Plan};
use crate::recom::proposal::{RecomProposal, Redraw};
use crate::stats::sums;
use crate::{columns, double, graph, json, vectors};

verus! {

/// A condition on plans that can be kept up as districts are redrawn.
pub trait ChainConstraint: Sized {
    /// What is kept about the current plan.
    type State;

    /// Whether plans on a graph can be judged.
    spec fn applies(&self, graph: &Graph) -> bool;

    /// Whether a plan satisfies the constraint.
    spec fn allows(&self, graph: &Graph, plan: Plan) -> bool;

    /// Whether the two districts of a proposal satisfy the constraint.
    spec fn allows_redraw(&self, graph: &Graph, p: Redraw) -> bool;

    /// Whether a state is that of a plan.
    spec fn tracks(&self, graph: &Graph, plan: Plan, state: Self::State) -> bool;

    /// Whether a state is of this constraint's kind.
    spec fn suits(&self, state: Self::State) -> bool;

    /// Whether a proposal can be applied to a state.
    spec fn accepts(&self, graph: &Graph, state: Self::State, p: Redraw) -> bool;

    /// A plan that satisfies the constraint still does after a redrawing that
    /// the constraint allows.
    proof fn redraw_stays_allowed(&self, graph: &Graph, plan: Plan, p: Redraw)
        requires
            self.applies(graph),
            plan.valid(),
            plan.admits(p),
            self.allows(graph, plan),
            self.allows_redraw(graph, p),
        ensures
            self.allows(graph, plan.redrawn(p)),
    ;

    /// The state of a plan accepts every redrawing of the plan.
    proof fn tracked_state_accepts(&self, graph: &Graph, plan: Plan, state: Self::State, p: Redraw)
        requires
            self.applies(graph),
            plan.valid(),
            plan.assignments.len() == graph.order(),
            graph.order() <= u32::MAX,
            plan.admits(p),
            self.tracks(graph, plan, state),
        ensures
            self.accepts(graph, state, p),
    ;

    /// The state of a plan.
    fn init(&self, graph: &Graph, partition: &Partition) -> (r: Self::State)
        requires
            graph.sound(),
            self.applies(graph),
            partition@.valid(),
            partition@.assignments.len() == graph.order(),
        ensures
            self.tracks(graph, partition@, r),
            self.suits(r),
    ;

    /// Whether the plan of a state satisfies the constraint.
    fn is_valid_state(&self, state: &Self::State) -> (r: bool)
        requires
            self.suits(*state),
        ensures
            forall|graph: &Graph, plan: Plan| #[trigger]
                self.tracks(graph, plan, *state) ==> r == self.allows(graph, plan),
    ;

    /// Whether the two districts of a proposal satisfy the constraint.
    fn proposal_valid(&self, graph: &Graph, state: &Self::State, proposal: &RecomProposal) -> (r:
        bool)
        requires
            graph.sound(),
            self.applies(graph),
            self.suits(*state),
            sums::nodes_within(proposal@.a_nodes, graph.order()),
            sums::nodes_within(proposal@.b_nodes, graph.order()),
        ensures
            r == self.allows_redraw(graph, proposal@),
    ;

    /// Brings the state up to a redrawn plan.
    fn apply_proposal(&self, graph: &Graph, state: &mut Self::State, proposal: &RecomProposal)
        requires
            graph.sound(),
            self.applies(graph),
            self.accepts(graph, *old(state), proposal@),
        ensures
            forall|plan: Plan| #[trigger]
                self.tracks(graph, plan, *old(state)) && plan.valid() && plan.admits(proposal@)
                    ==> self.tracks(graph, plan.redrawn(proposal@), *final(state)),
            self.suits(*old(state)) ==> self.suits(*final(state)),
    ;
}

/// The constraint that every plan satisfies.
#[derive(Clone, Copy, Debug)]
pub struct NoConstraint;

impl ChainConstraint for NoConstraint {
    type State = ();

    open spec fn applies(&self, graph: &Graph) -> bool {
        true
    }

    open spec fn allows(&self, graph: &Graph, plan: Plan) -> bool {
        true
    }

    open spec fn allows_redraw(&self, graph: &Graph, p: Redraw) -> bool {
        true
    }

    open spec fn tracks(&self, graph: &Graph, plan: Plan, state: ()) -> bool {
        true
    }

    open spec fn suits(&self, state: ()) -> bool {
        true
    }

    open spec fn accepts(&self, graph: &Graph, state: (), p: Redraw) -> bool {
        true
    }

    proof fn redraw_stays_allowed(&self, graph: &Graph, plan: Plan, p: Redraw) {
    }

    proof fn tracked_state_accepts(&self, graph: &Graph, plan: Plan, state: (), p: Redraw) {
    }

    fn init(&self, graph: &Graph, partition: &Partition) -> (r: ()) {
        ()
    }

    fn is_valid_state(&self, state: &()) -> (r: bool)
        ensures
            r,
    {
        true
    }

    fn proposal_valid(&self, graph: &Graph, state: &(), proposal: &RecomProposal) -> (r: bool)
        ensures
            r,
    {
        true
    }

    fn apply_proposal(&self, graph: &Graph, state: &mut (), proposal: &RecomProposal) {
    }
}

/// The constraint that in every district the share of a column in the sum of
/// others is at least a threshold.
pub struct DistrictShareFloor<F> {
    numerator_col: String,
    denominator_cols: Vec<String>,
    threshold: Double,
    arithmetic: Arithmetic<F>,
}

/// A share; it is zero where there is nothing to share.
pub open spec fn share_of<F: Fn(Op, Double, Double) -> Double>(
    numbers: Arithmetic<F>,
    numerator: Double,
    denominator: Double,
) -> Double {
    if denominator.same_number(double::zero()) {
        double::zero()
    } else {
        numbers.quotient(numerator, denominator)
    }
}

/// The values of the listed nodes.
pub open spec fn node_values(values: Seq<Double>, nodes: Seq<usize>) -> Seq<Double> {
    Seq::new(nodes.len(), |i: int| values[nodes[i] as int])
}

/// The values of a numeric column over the listed nodes, added up.
pub open spec fn column_total<F: Fn(Op, Double, Double) -> Double>(
    numbers: Arithmetic<F>,
    graph: &Graph,
    column: Seq<char>,
    nodes: Seq<usize>,
) -> Double {
    numbers.total(node_values(graph.float_attr@[column], nodes))
}

/// Adds up a numeric column over the listed nodes.
pub fn sum_cached_float_col<F: Fn(Op, Double, Double) -> Double>(
    numbers: &Arithmetic<F>,
    graph: &Graph,
    column: &str,
    nodes: &Vec<usize>,
) -> (r: Double)
    requires
        numbers.valid(),
        graph.float_attr.valid(),
        graph.float_attr@.contains_key(column@),
        sums::nodes_within(nodes@, graph.float_attr@[column@].len()),
    ensures
        r == column_total(*numbers, graph, column@, nodes@),
{
    let mut acc: Double = double::zero();
    if let Some(values) = graph.float_attr.get(column) {
        let ghost all = node_values(values@, nodes@);
        let mut i: usize = 0;
        while i < nodes.len()
            invariant
                i <= nodes.len(),
                numbers.valid(),
                sums::nodes_within(nodes@, values@.len()),
                all == node_values(values@, nodes@),
                acc == numbers.total(all.take(i as int)),
            decreases nodes.len() - i,
        {
            acc = numbers.plus(acc, values[nodes[i]]);
            i += 1;
            assert(all.take(i as int).drop_last() =~= all.take(i - 1));
        }
        assert(all.take(i as int) =~= all);
    }
    acc
}

fn share<F: Fn(Op, Double, Double) -> Double>(
    numbers: &Arithmetic<F>,
    numerator: Double,
    denominator: Double,
) -> (r: Double)
    requires
        numbers.valid(),
    ensures
        r == share_of(*numbers, numerator, denominator),
{
    if denominator.equals(double::zero()) {
        double::zero()
    } else {
        numbers.over(numerator, denominator)
    }
}

/// The sums of each district.
#[derive(Debug, PartialEq)]
pub struct DistrictShareFloorState {
    pub numerators: Vec<Double>,
    pub denominators: Vec<Double>,
}

/// Whether the first `k` of the named columns were read into a graph, and
/// nothing else of it changed.
pub open spec fn first_columns_read<P: Fn(&String) -> Option<Double>>(
    read: P,
    before: &Graph,
    after: &Graph,
    names: Seq<Seq<char>>,
    k: int,
) -> bool {
    &&& after.edges == before.edges
    &&& after.pops == before.pops
    &&& after.neighbors == before.neighbors
    &&& after.edges_start == before.edges_start
    &&& after.total_pop == before.total_pop
    &&& after.attr == before.attr
    &&& after.edge_attr == before.edge_attr
    &&& after.int_attr == before.int_attr
    &&& forall|i: int|
        0 <= i < k ==> after.float_attr@.contains_key(#[trigger] names[i]) && graph::read_from(
            read,
            before.attr@,
            names[i],
            after.float_attr@[names[i]],
        )
    &&& forall|name: Seq<char>|
        #![trigger after.float_attr@.contains_key(name)]
        !names.take(k).contains(name) ==> {
            &&& after.float_attr@.contains_key(name) == before.float_attr@.contains_key(name)
            &&& after.float_attr@.contains_key(name) ==> after.float_attr@[name]
                == before.float_attr@[name]
        }
}

impl<F: Fn(Op, Double, Double) -> Double> DistrictShareFloor<F> {
    pub closed spec fn numerator(&self) -> Seq<char> {
        self.numerator_col@
    }

    pub closed spec fn denominators(&self) -> Seq<Seq<char>> {
        vectors::texts(self.denominator_cols@)
    }

    pub closed spec fn floor(&self) -> Double {
        self.threshold
    }

    pub closed spec fn numbers(&self) -> Arithmetic<F> {
        self.arithmetic
    }

    /// The sum of the numerator column over the listed nodes.
    pub open spec fn numerator_total(&self, graph: &Graph, nodes: Seq<usize>) -> Double {
        column_total(self.numbers(), graph, self.numerator(), nodes)
    }

    /// The sum of the denominator columns over the listed nodes.
    pub open spec fn denominator_total(&self, graph: &Graph, nodes: Seq<usize>) -> Double {
        self.numbers().total(
            Seq::new(
                self.denominators().len(),
                |i: int| column_total(self.numbers(), graph, self.denominators()[i], nodes),
            ),
        )
    }

    /// Whether a district of the listed nodes has a large enough share.
    pub open spec fn allows_district(&self, graph: &Graph, nodes: Seq<usize>) -> bool {
        self.floor().at_most(
            share_of(
                self.numbers(),
                self.numerator_total(graph, nodes),
                self.denominator_total(graph, nodes),
            ),
        )
    }

    /// A constraint with the given columns and threshold, if the threshold is
    /// a share and there is a denominator.
    pub fn new(
        numerator_col: String,
        denominator_cols: Vec<String>,
        threshold: Double,
        arithmetic: Arithmetic<F>,
    ) -> (r: Result<DistrictShareFloor<F>, String>)
        ensures
            match r {
                Ok(c) => floor_error(threshold, denominator_cols@.len()) is None && c.numerator()
                    == numerator_col@ && c.denominators() == vectors::texts(denominator_cols@)
                    && c.floor() == threshold && c.numbers() == arithmetic,
                Err(e) => floor_error(threshold, denominator_cols@.len()) == Some(e@),
            },
    {
        if !threshold.is_finite() || !threshold.ge(double::zero()) || !threshold.le(double::one()) {
            return Err("Constraint threshold must be finite and in [0, 1].".to_string());
        }
        if denominator_cols.len() == 0 {
            return Err("Constraint denominator_cols must not be empty.".to_string());
        }
        Ok(DistrictShareFloor { numerator_col, denominator_cols, threshold, arithmetic })
    }

    /// The columns that the constraint reads: the numerator, then the
    /// denominators, each once.
    pub fn required_node_cols(&self) -> (r: Vec<String>)
        ensures
            vectors::texts(r@) == vectors::firsts(seq![self.numerator()] + self.denominators()),
    {
        let mut cols: Vec<String> = Vec::new();
        cols.push(self.numerator_col.clone());
        proof {
            assert(vectors::texts(cols@) =~= seq![self.numerator()]);
            reveal_with_fuel(vectors::firsts, 2);
            assert(vectors::firsts(seq![self.numerator()]) =~= seq![self.numerator()]);
        }
        vectors::append_new(&mut cols, &self.denominator_cols);
        cols
    }

    /// The columns that the constraint reads: the numerator, then the
    /// denominators, each once.
    pub open spec fn columns(&self) -> Seq<Seq<char>> {
        vectors::firsts(seq![self.numerator()] + self.denominators())
    }

    /// What reading the constraint's columns into a graph comes to: the columns
    /// are read in order up to the first without numbers, whose name is told,
    /// and nothing else changes.
    pub open spec fn cached<P: Fn(&String) -> Option<Double>>(
        &self,
        read: P,
        before: &Graph,
        after: &Graph,
        r: Result<(), String>,
    ) -> bool {
        let names = self.columns();
        exists|k: int|
            {
                &&& 0 <= k <= names.len()
                &&& #[trigger] first_columns_read(read, before, after, names, k)
                &&& match r {
                    Ok(_) => k == names.len(),
                    Err(e) => k < names.len() && graph::unreadable(read, before.attr@, names[k])
                        && e@ == graph::unreadable_text(names[k]),
                }
            }
    }

    /// Reads the numbers of the columns that the constraint needs. Fails at
    /// the first column that is missing or holds no numbers.
    pub fn cache_graph_cols<P: Fn(&String) -> Option<Double>>(&self, graph: &mut Graph, read: &P) -> (r:
        Result<(), String>)
        requires
            old(graph).sound(),
            forall|s: &String| #[trigger] call_requires(*read, (s,)),
        ensures
            final(graph).sound(),
            old(graph).valid() ==> final(graph).valid(),
            final(graph).pops == old(graph).pops,
            final(graph).edges == old(graph).edges,
            final(graph).attr == old(graph).attr,
            self.cached(*read, old(graph), final(graph), r),
            r is Ok ==> forall|name: Seq<char>|
                #![trigger final(graph).float_attr@.contains_key(name)]
                name == self.numerator() || self.denominators().contains(name) ==> {
                    &&& final(graph).float_attr@.contains_key(name)
                    &&& old(graph).attr@.contains_key(name)
                    &&& final(graph).float_attr@[name].len() == old(graph).attr@[name].len()
                    &&& forall|i: int|
                        0 <= i < old(graph).attr@[name].len() ==> call_ensures(
                            *read,
                            (&#[trigger] old(graph).attr@[name][i],),
                            Some(final(graph).float_attr@[name][i]),
                        )
                },
    {
        let cols: Vec<String> = self.required_node_cols();
        let ghost names = vectors::texts(cols@);
        proof {
            vectors::firsts_keep_the_items(seq![self.numerator()] + self.denominators());
        }
        let mut i: usize = 0;
        while i < cols.len()
            invariant
                i <= cols.len(),
                names == vectors::texts(cols@),
                names == self.columns(),
                names.no_duplicates(),
                graph.sound(),
                old(graph).valid() ==> graph.valid(),
                forall|s: &String| #[trigger] call_requires(*read, (s,)),
                first_columns_read(*read, old(graph), graph, names, i as int),
            decreases cols.len() - i,
        {
            assert(names[i as int] == cols[i as int]@);
            let ghost prior = *graph;
            match graph.cache_float_col(cols[i].as_str(), read) {
                Ok(()) => {},
                Err(e) => {
                    assert(first_columns_read(*read, old(graph), graph, names, i as int));
                    return Err(e);
                },
            }
            proof {
                assert forall|k: int| 0 <= k < i + 1 implies graph.float_attr@.contains_key(
                    #[trigger] names[k],
                ) && graph::read_from(
                    *read,
                    old(graph).attr@,
                    names[k],
                    graph.float_attr@[names[k]],
                ) by {
                    if k < i {
                        assert(names[k] != names[i as int]);
                        assert(prior.float_attr@.contains_key(names[k]));
                    }
                }
                assert forall|name: Seq<char>|
                    #![trigger graph.float_attr@.contains_key(name)]
                    !names.take(i + 1).contains(name) implies {
                    &&& graph.float_attr@.contains_key(name)
                        == old(graph).float_attr@.contains_key(name)
                    &&& graph.float_attr@.contains_key(name) ==> graph.float_attr@[name]
                        == old(graph).float_attr@[name]
                } by {
                    assert(names.take(i + 1)[i as int] == names[i as int]);
                    if names.take(i as int).contains(name) {
                        let j = choose|j: int|
                            0 <= j < i && names.take(i as int)[j] == name;
                        assert(names.take(i + 1)[j] == name);
                    }
                    assert(prior.float_attr@.contains_key(name)
                        == old(graph).float_attr@.contains_key(name));
                }
            }
            i += 1;
        }
        assert forall|name: Seq<char>|
            #![trigger graph.float_attr@.contains_key(name)]
            name == self.numerator() || self.denominators().contains(name) implies {
            &&& graph.float_attr@.contains_key(name)
            &&& graph::read_from(*read, old(graph).attr@, name, graph.float_attr@[name])
        } by {
            let all = seq![self.numerator()] + self.denominators();
            assert(all.contains(name)) by {
                if name == self.numerator() {
                    assert(all[0] == name);
                } else {
                    let j = choose|j: int|
                        0 <= j < self.denominators().len() && self.denominators()[j] == name;
                    assert(all[j + 1] == name);
                }
            }
            assert(vectors::firsts(all).contains(name));
            let k = choose|k: int| 0 <= k < names.len() && names[k] == name;
            assert(names[k] == name);
        }
        Ok(())
    }

    fn district_valid(&self, numerator: Double, denominator: Double) -> (r: bool)
        requires
            self.numbers().valid(),
        ensures
            r == self.floor().at_most(share_of(self.numbers(), numerator, denominator)),
    {
        share(&self.arithmetic, numerator, denominator).ge(self.threshold)
    }

    /// The sums of the numerator and of the denominators over the listed
    /// nodes.
    fn proposal_sums(&self, graph: &Graph, nodes: &Vec<usize>) -> (r: (Double, Double))
        requires
            graph.sound(),
            self.applies(graph),
            sums::nodes_within(nodes@, graph.order()),
        ensures
            r.0 == self.numerator_total(graph, nodes@),
            r.1 == self.denominator_total(graph, nodes@),
    {
        let numerator: Double = sum_cached_float_col(
            &self.arithmetic,
            graph,
            self.numerator_col.as_str(),
            nodes,
        );
        let ghost parts = Seq::new(
            self.denominators().len(),
            |i: int| column_total(self.numbers(), graph, self.denominators()[i], nodes@),
        );
        let mut denominator: Double = double::zero();
        let mut i: usize = 0;
        while i < self.denominator_cols.len()
            invariant
                i <= self.denominator_cols.len(),
                graph.sound(),
                self.applies(graph),
                sums::nodes_within(nodes@, graph.order()),
                parts == Seq::new(
                    self.denominators().len(),
                    |i: int| column_total(self.numbers(), graph, self.denominators()[i], nodes@),
                ),
                denominator == self.numbers().total(parts.take(i as int)),
            decreases self.denominator_cols.len() - i,
        {
            assert(self.denominators()[i as int] == self.denominator_cols[i as int]@);
            let part: Double = sum_cached_float_col(
                &self.arithmetic,
                graph,
                self.denominator_cols[i].as_str(),
                nodes,
            );
            denominator = self.arithmetic.plus(denominator, part);
            i += 1;
            assert(parts.take(i as int).drop_last() =~= parts.take(i - 1));
        }
        assert(parts.take(i as int) =~= parts);
        (numerator, denominator)
    }
}

/// What is wrong with the threshold or the number of denominators, if anything.
pub open spec fn floor_error(threshold: Double, denominators: nat) -> Option<Seq<char>> {
    if !(threshold.finite() && double::zero().at_most(threshold) && threshold.at_most(
        double::one(),
    )) {
        Some("Constraint threshold must be finite and in [0, 1]."@)
    } else if denominators == 0 {
        Some("Constraint denominator_cols must not be empty."@)
    } else {
        None
    }
}

impl<F: Fn(Op, Double, Double) -> Double> ChainConstraint for DistrictShareFloor<F> {
    type State = DistrictShareFloorState;

    open spec fn applies(&self, graph: &Graph) -> bool {
        &&& self.numbers().valid()
        &&& graph.float_attr@.contains_key(self.numerator())
        &&& graph.float_attr@[self.numerator()].len() == graph.order()
        &&& forall|i: int|
            0 <= i < self.denominators().len() ==> {
                &&& graph.float_attr@.contains_key(#[trigger] self.denominators()[i])
                &&& graph.float_attr@[self.denominators()[i]].len() == graph.order()
            }
    }

    open spec fn allows(&self, graph: &Graph, plan: Plan) -> bool {
        forall|d: int|
            0 <= d < plan.dist_nodes.len() ==> self.allows_district(
                graph,
                #[trigger] plan.dist_nodes[d],
            )
    }

    open spec fn allows_redraw(&self, graph: &Graph, p: Redraw) -> bool {
        self.allows_district(graph, p.a_nodes) && self.allows_district(graph, p.b_nodes)
    }

    open spec fn tracks(&self, graph: &Graph, plan: Plan, state: DistrictShareFloorState) -> bool {
        &&& state.numerators.len() == plan.dist_nodes.len()
        &&& state.denominators.len() == plan.dist_nodes.len()
        &&& forall|d: int|
            #![trigger plan.dist_nodes[d]]
            0 <= d < plan.dist_nodes.len() ==> state.numerators[d] == self.numerator_total(
                graph,
                plan.dist_nodes[d],
            ) && state.denominators[d] == self.denominator_total(graph, plan.dist_nodes[d])
    }

    open spec fn suits(&self, state: DistrictShareFloorState) -> bool {
        self.numbers().valid() && state.numerators.len() == state.denominators.len()
    }

    open spec fn accepts(&self, graph: &Graph, state: DistrictShareFloorState, p: Redraw) -> bool {
        &&& state.numerators.len() == state.denominators.len()
        &&& p.a_label < state.numerators.len()
        &&& p.b_label < state.numerators.len()
        &&& sums::nodes_within(p.a_nodes, graph.order())
        &&& sums::nodes_within(p.b_nodes, graph.order())
    }

    proof fn redraw_stays_allowed(&self, graph: &Graph, plan: Plan, p: Redraw) {
        let after = plan.redrawn(p);
        assert forall|d: int| 0 <= d < after.dist_nodes.len() implies self.allows_district(
            graph,
            #[trigger] after.dist_nodes[d],
        ) by {
            if d != p.a_label && d != p.b_label {
                assert(after.dist_nodes[d] == plan.dist_nodes[d]);
            }
        }
    }

    proof fn tracked_state_accepts(
        &self,
        graph: &Graph,
        plan: Plan,
        state: DistrictShareFloorState,
        p: Redraw,
    ) {
        redrawn_nodes_are_within(plan, p);
    }

    fn init(&self, graph: &Graph, partition: &Partition) -> (r: DistrictShareFloorState) {
        let mut numerators: Vec<Double> = Vec::new();
        let mut denominators: Vec<Double> = Vec::new();
        proof {
            sums::valid_districts_are_within(partition@, graph.order());
        }
        let mut d: usize = 0;
        while d < partition.dist_nodes.len()
            invariant
                d <= partition.dist_nodes.len(),
                graph.sound(),
                self.applies(graph),
                sums::districts_within(partition@.dist_nodes, graph.order()),
                numerators.len() == d,
                denominators.len() == d,
                forall|e: int|
                    #![trigger partition@.dist_nodes[e]]
                    0 <= e < d ==> numerators[e] == self.numerator_total(
                        graph,
                        partition@.dist_nodes[e],
                    ) && denominators[e] == self.denominator_total(
                        graph,
                        partition@.dist_nodes[e],
                    ),
            decreases partition.dist_nodes.len() - d,
        {
            assert(partition@.dist_nodes[d as int] == partition.dist_nodes[d as int]@);
            let (numerator, denominator): (Double, Double) = self.proposal_sums(
                graph,
                &partition.dist_nodes[d],
            );
            numerators.push(numerator);
            denominators.push(denominator);
            d += 1;
        }
        DistrictShareFloorState { numerators, denominators }
    }

    fn is_valid_state(&self, state: &DistrictShareFloorState) -> (r: bool) {
        let mut d: usize = 0;
        while d < state.numerators.len()
            invariant
                d <= state.numerators.len(),
                state.numerators.len() == state.denominators.len(),
                self.numbers().valid(),
                forall|e: int|
                    0 <= e < d ==> self.floor().at_most(
                        share_of(
                            self.numbers(),
                            #[trigger] state.numerators[e],
                            state.denominators[e],
                        ),
                    ),
            decreases state.numerators.len() - d,
        {
            if !self.district_valid(state.numerators[d], state.denominators[d]) {
                proof {
                    assert forall|graph: &Graph, plan: Plan| #[trigger]
                        self.tracks(graph, plan, *state) implies !self.allows(graph, plan) by {
                        assert(!self.allows_district(graph, plan.dist_nodes[d as int]));
                    }
                }
                return false;
            }
            d += 1;
        }
        proof {
            assert forall|graph: &Graph, plan: Plan| #[trigger]
                self.tracks(graph, plan, *state) implies self.allows(graph, plan) by {
                assert forall|e: int| 0 <= e < plan.dist_nodes.len() implies self.allows_district(
                    graph,
                    #[trigger] plan.dist_nodes[e],
                ) by {
                    assert(state.numerators[e] == self.numerator_total(graph, plan.dist_nodes[e]));
                }
            }
        }
        true
    }

    fn proposal_valid(
        &self,
        graph: &Graph,
        state: &DistrictShareFloorState,
        proposal: &RecomProposal,
    ) -> (r: bool) {
        let (a_num, a_den): (Double, Double) = self.proposal_sums(graph, &proposal.a_nodes);
        let (b_num, b_den): (Double, Double) = self.proposal_sums(graph, &proposal.b_nodes);
        self.district_valid(a_num, a_den) && self.district_valid(b_num, b_den)
    }

    fn apply_proposal(
        &self,
        graph: &Graph,
        state: &mut DistrictShareFloorState,
        proposal: &RecomProposal,
    )
        ensures
            final(state).numerators@ == old(state).numerators@.update(
                proposal.a_label as int,
                self.numerator_total(graph, proposal@.a_nodes),
            ).update(
                proposal.b_label as int,
                self.numerator_total(graph, proposal@.b_nodes),
            ),
            final(state).denominators@ == old(state).denominators@.update(
                proposal.a_label as int,
                self.denominator_total(graph, proposal@.a_nodes),
            ).update(
                proposal.b_label as int,
                self.denominator_total(graph, proposal@.b_nodes),
            ),
    {
        let (a_num, a_den): (Double, Double) = self.proposal_sums(graph, &proposal.a_nodes);
        let (b_num, b_den): (Double, Double) = self.proposal_sums(graph, &proposal.b_nodes);
        state.numerators.set(proposal.a_label, a_num);
        state.denominators.set(proposal.a_label, a_den);
        state.numerators.set(proposal.b_label, b_num);
        state.denominators.set(proposal.b_label, b_den);
        proof {
            assert forall|plan: Plan| #[trigger]
                self.tracks(graph, plan, *old(state)) && plan.valid() && plan.admits(
                    proposal@,
                ) implies self.tracks(graph, plan.redrawn(proposal@), *state) by {
                let after = plan.redrawn(proposal@);
                assert forall|d: int|
                    #![trigger after.dist_nodes[d]]
                    0 <= d < after.dist_nodes.len() implies state.numerators[d]
                    == self.numerator_total(graph, after.dist_nodes[d]) && state.denominators[d]
                    == self.denominator_total(graph, after.dist_nodes[d]) by {
                    if d != proposal.a_label && d != proposal.b_label {
                        assert(after.dist_nodes[d] == plan.dist_nodes[d]);
                    }
                }
            }
        }
    }
}

/// The nodes of a redrawing of a plan are nodes of the plan.
pub proof fn redrawn_nodes_are_within(plan: Plan, p: Redraw)
    requires
        plan.valid(),
        plan.assignments.len() <= u32::MAX,
        plan.admits(p),
    ensures
        sums::nodes_within(p.a_nodes, plan.assignments.len()),
        sums::nodes_within(p.b_nodes, plan.assignments.len()),
{
    crate::partition::redrawn_is_valid(plan, p);
    let after = plan.redrawn(p);
    sums::valid_districts_are_within(after, plan.assignments.len());
    assert(after.dist_nodes[p.a_label as int] == p.a_nodes);
    assert(after.dist_nodes[p.b_label as int] == p.b_nodes);
}

/// A constraint as it is configured.
pub enum ConstraintConfig<F> {
    Unconstrained,
    DistrictShareFloor(DistrictShareFloor<F>),
}

/// The state of a configured constraint.
#[derive(Debug, PartialEq)]
pub enum ConstraintState {
    Unconstrained,
    DistrictShareFloor(DistrictShareFloorState),
}

impl<F: Fn(Op, Double, Double) -> Double> ConstraintConfig<F> {
    /// The columns that the constraint reads.
    pub fn required_node_cols(&self) -> (r: Vec<String>)
        ensures
            vectors::texts(r@) == match *self {
                ConstraintConfig::Unconstrained => Seq::<Seq<char>>::empty(),
                ConstraintConfig::DistrictShareFloor(floor) => vectors::firsts(
                    seq![floor.numerator()] + floor.denominators(),
                ),
            },
    {
        match self {
            ConstraintConfig::Unconstrained => {
                let none: Vec<String> = Vec::new();
                assert(vectors::texts(none@) =~= Seq::<Seq<char>>::empty());
                none
            },
            ConstraintConfig::DistrictShareFloor(floor) => floor.required_node_cols(),
        }
    }

    /// Reads the numbers of the columns that the constraint needs.
    pub fn cache_graph_cols<P: Fn(&String) -> Option<Double>>(&self, graph: &mut Graph, read: &P) -> (r:
        Result<(), String>)
        requires
            old(graph).sound(),
            forall|s: &String| #[trigger] call_requires(*read, (s,)),
        ensures
            final(graph).sound(),
            old(graph).valid() ==> final(graph).valid(),
            final(graph).pops == old(graph).pops,
            final(graph).edges == old(graph).edges,
            final(graph).attr == old(graph).attr,
            self is Unconstrained ==> r is Ok && *final(graph) == *old(graph),
            *self matches ConstraintConfig::DistrictShareFloor(floor) ==> floor.cached(
                *read,
                old(graph),
                final(graph),
                r,
            ),
            r is Ok && self is DistrictShareFloor ==> forall|name: Seq<char>|
                #![trigger final(graph).float_attr@.contains_key(name)]
                name == self->DistrictShareFloor_0.numerator()
                    || self->DistrictShareFloor_0.denominators().contains(name) ==> {
                    &&& final(graph).float_attr@.contains_key(name)
                    &&& old(graph).attr@.contains_key(name)
                    &&& final(graph).float_attr@[name].len() == old(graph).attr@[name].len()
                    &&& forall|i: int|
                        0 <= i < old(graph).attr@[name].len() ==> call_ensures(
                            *read,
                            (&#[trigger] old(graph).attr@[name][i],),
                            Some(final(graph).float_attr@[name][i]),
                        )
                },
    {
        match self {
            ConstraintConfig::Unconstrained => Ok(()),
            ConstraintConfig::DistrictShareFloor(floor) => floor.cache_graph_cols(graph, read),
        }
    }
}

impl<F: Fn(Op, Double, Double) -> Double> ChainConstraint for ConstraintConfig<F> {
    type State = ConstraintState;

    open spec fn applies(&self, graph: &Graph) -> bool {
        match *self {
            ConstraintConfig::Unconstrained => true,
            ConstraintConfig::DistrictShareFloor(floor) => floor.applies(graph),
        }
    }

    open spec fn allows(&self, graph: &Graph, plan: Plan) -> bool {
        match *self {
            ConstraintConfig::Unconstrained => true,
            ConstraintConfig::DistrictShareFloor(floor) => floor.allows(graph, plan),
        }
    }

    open spec fn allows_redraw(&self, graph: &Graph, p: Redraw) -> bool {
        match *self {
            ConstraintConfig::Unconstrained => true,
            ConstraintConfig::DistrictShareFloor(floor) => floor.allows_redraw(graph, p),
        }
    }

    open spec fn tracks(&self, graph: &Graph, plan: Plan, state: ConstraintState) -> bool {
        match (*self, state) {
            (ConstraintConfig::Unconstrained, ConstraintState::Unconstrained) => true,
            (
                ConstraintConfig::DistrictShareFloor(floor),
                ConstraintState::DistrictShareFloor(s),
            ) => floor.tracks(graph, plan, s),
            _ => false,
        }
    }

    open spec fn suits(&self, state: ConstraintState) -> bool {
        match (*self, state) {
            (ConstraintConfig::Unconstrained, ConstraintState::Unconstrained) => true,
            (
                ConstraintConfig::DistrictShareFloor(floor),
                ConstraintState::DistrictShareFloor(s),
            ) => floor.suits(s),
            _ => false,
        }
    }

    open spec fn accepts(&self, graph: &Graph, state: ConstraintState, p: Redraw) -> bool {
        match (*self, state) {
            (ConstraintConfig::Unconstrained, ConstraintState::Unconstrained) => true,
            (
                ConstraintConfig::DistrictShareFloor(floor),
                ConstraintState::DistrictShareFloor(s),
            ) => floor.accepts(graph, s, p),
            _ => false,
        }
    }

    proof fn redraw_stays_allowed(&self, graph: &Graph, plan: Plan, p: Redraw) {
        if let ConstraintConfig::DistrictShareFloor(floor) = self {
            floor.redraw_stays_allowed(graph, plan, p);
        }
    }

    proof fn tracked_state_accepts(
        &self,
        graph: &Graph,
        plan: Plan,
        state: ConstraintState,
        p: Redraw,
    ) {
        if let ConstraintConfig::DistrictShareFloor(floor) = self {
            if let ConstraintState::DistrictShareFloor(s) = state {
                floor.tracked_state_accepts(graph, plan, s, p);
            }
        }
    }

    fn init(&self, graph: &Graph, partition: &Partition) -> (r: ConstraintState) {
        match self {
            ConstraintConfig::Unconstrained => ConstraintState::Unconstrained,
            ConstraintConfig::DistrictShareFloor(floor) => ConstraintState::DistrictShareFloor(
                floor.init(graph, partition),
            ),
        }
    }

    fn is_valid_state(&self, state: &ConstraintState) -> (r: bool) {
        match (self, state) {
            (
                ConstraintConfig::DistrictShareFloor(floor),
                ConstraintState::DistrictShareFloor(s),
            ) => {
                let r: bool = floor.is_valid_state(s);
                proof {
                    assert forall|graph: &Graph, plan: Plan| #[trigger]
                        self.tracks(graph, plan, *state) implies r == self.allows(graph, plan) by {
                        assert(floor.tracks(graph, plan, *s));
                    }
                }
                r
            },
            _ => true,
        }
    }

    fn proposal_valid(
        &self,
        graph: &Graph,
        state: &ConstraintState,
        proposal: &RecomProposal,
    ) -> (r: bool) {
        match (self, state) {
            (
                ConstraintConfig::DistrictShareFloor(floor),
                ConstraintState::DistrictShareFloor(s),
            ) => floor.proposal_valid(graph, s, proposal),
            _ => true,
        }
    }

    fn apply_proposal(
        &self,
        graph: &Graph,
        state: &mut ConstraintState,
        proposal: &RecomProposal,
    ) {
        if let ConstraintConfig::DistrictShareFloor(floor) = self {
            if let ConstraintState::DistrictShareFloor(s) = state {
                let ghost before = *s;
                floor.apply_proposal(graph, s, proposal);
                proof {
                    assert forall|plan: Plan| #[trigger]
                        self.tracks(graph, plan, *old(state)) && plan.valid() && plan.admits(
                            proposal@,
                        ) implies floor.tracks(graph, plan.redrawn(proposal@), *s) by {
                        assert(floor.tracks(graph, plan, before));
                    }
                }
            }
        }
    }
}

/// What a constraint configuration asks for.
pub struct FloorFields {
    pub numerator: Seq<char>,
    pub denominators: Seq<Seq<char>>,
    pub threshold: Double,
}

/// The texts of a list below `k`, if each of them is a text.
pub open spec fn list_texts(document: Value, list: Seq<char>, k: nat) -> Option<Seq<Seq<char>>>
    decreases k,
{
    if k == 0 {
        Some(Seq::empty())
    } else {
        match list_texts(document, list, (k - 1) as nat) {
            None => None,
            Some(before) => match json::text_at(document, json::item(list, (k - 1) as nat)) {
                Some(s) => Some(before.push(s)),
                None => None,
            },
        }
    }
}

/// What a constraint document configures, or what is wrong with it.
pub open spec fn constraint_outcome(document: Value) -> Result<FloorFields, Seq<char>> {
    match json::text_at(document, "/constraint"@) {
        None => Err("Missing field 'constraint' in constraint config"@),
        Some(name) => if name != "district_share_floor"@ {
            Err("Unknown constraint '"@ + name + "'. Supported: 'district_share_floor'."@)
        } else {
            match json::text_at(document, "/numerator_col"@) {
                None => Err("Missing field 'numerator_col' in constraint config"@),
                Some(numerator) => match json::list_at(document, "/denominator_cols"@) {
                    None => Err("Missing field 'denominator_cols' in constraint config"@),
                    Some(n) => match list_texts(document, "/denominator_cols"@, n) {
                        None => Err("denominator_cols entries must be strings"@),
                        Some(denominators) => match json::number_at(document, "/threshold"@) {
                            None => Err("Missing field 'threshold' in constraint config"@),
                            Some(threshold) => match floor_error(threshold, denominators.len()) {
                                Some(e) => Err(e),
                                None => Ok(FloorFields { numerator, denominators, threshold }),
                            },
                        },
                    },
                },
            }
        },
    }
}

/// Reads a list of texts, if each item is a text.
pub(crate) fn read_texts(document: &Value, list: &str, n: usize) -> (r: Option<Vec<String>>)
    ensures
        match r {
            Some(v) => list_texts(*document, list@, n as nat) == Some(vectors::texts(v@)),
            None => list_texts(*document, list@, n as nat) is None,
        },
{
    let mut values: Vec<String> = Vec::new();
    let mut i: usize = 0;
    assert(vectors::texts(values@) =~= Seq::empty());
    while i < n
        invariant
            i <= n,
            list_texts(*document, list@, i as nat) == Some(vectors::texts(values@)),
        decreases n - i,
    {
        let pointer: String = json::item_pointer(list, i);
        let ghost before = values@;
        match json::find_text(document, pointer.as_str()) {
            Some(s) => {
                values.push(s);
                assert(vectors::texts(values@) =~= vectors::texts(before).push(s@));
                i += 1;
            },
            None => {
                proof {
                    no_texts_from(*document, list@, (i + 1) as nat, n as nat);
                }
                return None;
            },
        }
    }
    Some(values)
}

proof fn no_texts_from(document: Value, list: Seq<char>, k: nat, n: nat)
    requires
        k <= n,
        list_texts(document, list, k) is None,
    ensures
        list_texts(document, list, n) is None,
    decreases n - k,
{
    if k < n {
        assert(list_texts(document, list, k + 1) is None);
        no_texts_from(document, list, k + 1, n);
    }
}

/// The constraint that a document configures.
pub fn make_constraint_value<F: Fn(Op, Double, Double) -> Double>(
    data: &Value,
    arithmetic: Arithmetic<F>,
) -> (r: Result<ConstraintConfig<F>, String>)
    ensures
        match r {
            Ok(ConstraintConfig::DistrictShareFloor(c)) => constraint_outcome(*data) == Ok::<
                FloorFields,
                Seq<char>,
            >(
                (FloorFields {
                    numerator: c.numerator(),
                    denominators: c.denominators(),
                    threshold: c.floor(),
                }),
            ) && c.numbers() == arithmetic,
            Ok(ConstraintConfig::Unconstrained) => false,
            Err(e) => constraint_outcome(*data) == Err::<FloorFields, Seq<char>>(e@),
        },
{
    let name: String = match json::find_text(data, "/constraint") {
        Some(s) => s,
        None => {
            return Err("Missing field 'constraint' in constraint config".to_string());
        },
    };
    if !columns::string_eq(&name, "district_share_floor") {
        let mut out: String = "Unknown constraint '".to_string();
        out.append(name.as_str());
        out.append("'. Supported: 'district_share_floor'.");
        return Err(out);
    }
    let numerator: String = match json::find_text(data, "/numerator_col") {
        Some(s) => s,
        None => {
            return Err("Missing field 'numerator_col' in constraint config".to_string());
        },
    };
    let n: usize = match json::find_list(data, "/denominator_cols") {
        Some(n) => n,
        None => {
            return Err("Missing field 'denominator_cols' in constraint config".to_string());
        },
    };
    let denominators: Vec<String> = match read_texts(data, "/denominator_cols", n) {
        Some(v) => v,
        None => {
            return Err("denominator_cols entries must be strings".to_string());
        },
    };
    let threshold: Double = match json::find_number(data, "/threshold") {
        Some(x) => x,
        None => {
            return Err("Missing field 'threshold' in constraint config".to_string());
        },
    };
    match DistrictShareFloor::new(numerator, denominators, threshold, arithmetic) {
        Ok(floor) => Ok(ConstraintConfig::DistrictShareFloor(floor)),
        Err(e) => Err(e),
    }
}

/// The constraint that a JSON text configures.
pub fn make_constraint<F: Fn(Op, Double, Double) -> Double>(
    config: &str,
    arithmetic: Arithmetic<F>,
) -> (r: Result<ConstraintConfig<F>, String>)
    ensures
        json::parsed_places(config@) is None ==> r is Err,
        forall|document: Value|
            json::parsed_places(config@) == Some(#[trigger] json::places(document)) ==> match r {
                Ok(ConstraintConfig::DistrictShareFloor(c)) => constraint_outcome(document) == Ok::<
                    FloorFields,
                    Seq<char>,
                >(
                    (FloorFields {
                        numerator: c.numerator(),
                        denominators: c.denominators(),
                        threshold: c.floor(),
                    }),
                ) && c.numbers() == arithmetic,
                Ok(ConstraintConfig::Unconstrained) => false,
                Err(e) => constraint_outcome(document) == Err::<FloorFields, Seq<char>>(e@),
            },
{
    match json::parse(config) {
        Ok(data) => {
            let r: Result<ConstraintConfig<F>, String> = make_constraint_value(&data, arithmetic);
            proof {
                assert forall|document: Value|
                    json::parsed_places(config@) == Some(
                        #[trigger] json::places(document),
                    ) implies constraint_outcome(document) == constraint_outcome(data) by {
                    outcome_depends_on_the_places(document, data);
                }
            }
            r
        },
        Err(e) => Err(e),
    }
}

proof fn outcome_depends_on_the_places(a: Value, b: Value)
    requires
        json::places(a) == json::places(b),
    ensures
        constraint_outcome(a) == constraint_outcome(b),
{
    if let Some(n) = json::list_at(a, "/denominator_cols"@) {
        texts_depend_on_the_places(a, b, "/denominator_cols"@, n);
    }
}

pub proof fn texts_depend_on_the_places(a: Value, b: Value, list: Seq<char>, n: nat)
    requires
        json::places(a) == json::places(b),
    ensures
        list_texts(a, list, n) == list_texts(b, list, n),
    decreases n,
{
    if n > 0 {
        texts_depend_on_the_places(a, b, list, (n - 1) as nat);
    }
}

/// A share is the numerator over the denominator: all of it is one, nothing of
/// it is zero, more of it is no smaller a share, and where there is nothing to
/// share the share is zero.
pub proof fn floors_compare_shares<F: Fn(Op, Double, Double) -> Double>(
    numbers: Arithmetic<F>,
    numerator: Double,
    more: Double,
    denominator: Double,
)
    requires
        numbers.orderly(),
        numerator.finite(),
        more.finite(),
        denominator.finite(),
        double::zero().at_most(numerator),
        numerator.at_most(more),
        double::zero().below(denominator),
    ensures
        share_of(numbers, denominator, denominator) == double::one(),
        share_of(numbers, double::zero(), denominator) == double::zero(),
        share_of(numbers, numerator, denominator).at_most(share_of(numbers, more, denominator)),
        numerator.below(denominator) ==> share_of(numbers, numerator, denominator).below(
            double::one(),
        ),
        share_of(numbers, more, double::zero()) == double::zero(),
{
    numbers.ordered_quotients(numerator, more, denominator, denominator);
}

/// A column of whole numbers adds up to their sum over the listed nodes.
pub proof fn whole_columns_add_up<F: Fn(Op, Double, Double) -> Double>(
    numbers: Arithmetic<F>,
    graph: &Graph,
    column: Seq<char>,
    nodes: Seq<usize>,
    wholes: Seq<int>,
)
    requires
        numbers.counts(),
        nodes.len() == wholes.len(),
        forall|i: int|
            0 <= i < nodes.len() ==> graph.float_attr@[column][(#[trigger] nodes[i]) as int]
                == numbers.integer(wholes[i]) && wholes[i] >= 0,
        aggregation::whole_sum(wholes) <= double::WHOLE,
    ensures
        column_total(numbers, graph, column, nodes) == numbers.integer(
            aggregation::whole_sum(wholes),
        ),
{
    let values = node_values(graph.float_attr@[column], nodes);
    assert forall|i: int| 0 <= i < values.len() implies #[trigger] values[i] == numbers.integer(
        wholes[i],
    ) && wholes[i] >= 0 by {
        assert(graph.float_attr@[column][nodes[i] as int] == numbers.integer(wholes[i]));
    }
    aggregation::whole_scores_add_up(numbers, values, wholes);
}

impl<F: Fn(Op, Double, Double) -> Double> DistrictShareFloor<F> {
    /// A plan satisfies a floor if and only if no district has a share below it;
    /// a share at the floor is enough. A share that is no number is not.
    pub proof fn floors_are_inclusive(&self, graph: &Graph, plan: Plan)
        requires
            !self.floor().nan(),
            forall|d: int|
                0 <= d < plan.dist_nodes.len() ==> !share_of(
                    self.numbers(),
                    self.numerator_total(graph, #[trigger] plan.dist_nodes[d]),
                    self.denominator_total(graph, plan.dist_nodes[d]),
                ).nan(),
        ensures
            self.allows(graph, plan) <==> forall|d: int|
                0 <= d < plan.dist_nodes.len() ==> !share_of(
                    self.numbers(),
                    self.numerator_total(graph, #[trigger] plan.dist_nodes[d]),
                    self.denominator_total(graph, plan.dist_nodes[d]),
                ).below(self.floor()),
    {
        if forall|d: int|
            0 <= d < plan.dist_nodes.len() ==> !share_of(
                self.numbers(),
                self.numerator_total(graph, #[trigger] plan.dist_nodes[d]),
                self.denominator_total(graph, plan.dist_nodes[d]),
            ).below(self.floor()) {
            assert forall|d: int| 0 <= d < plan.dist_nodes.len() implies self.allows_district(
                graph,
                #[trigger] plan.dist_nodes[d],
            ) by {
                let nodes = plan.dist_nodes[d];
                assert(!share_of(
                    self.numbers(),
                    self.numerator_total(graph, nodes),
                    self.denominator_total(graph, nodes),
                ).below(self.floor()));
            }
        }
        if self.allows(graph, plan) {
            assert forall|d: int| 0 <= d < plan.dist_nodes.len() implies !share_of(
                self.numbers(),
                self.numerator_total(graph, #[trigger] plan.dist_nodes[d]),
                self.denominator_total(graph, plan.dist_nodes[d]),
            ).below(self.floor()) by {
                assert(self.allows_district(graph, plan.dist_nodes[d]));
            }
        }
    }

    /// A redrawing of an allowed plan is allowed if and only if the plan that it
    /// leads to is.
    pub proof fn redrawings_are_judged_by_their_plan(&self, graph: &Graph, plan: Plan, p: Redraw)
        requires
            self.applies(graph),
            plan.valid(),
            plan.admits(p),
            self.allows(graph, plan),
        ensures
            self.allows_redraw(graph, p) <==> self.allows(graph, plan.redrawn(p)),
    {
        if self.allows_redraw(graph, p) {
            self.redraw_stays_allowed(graph, plan, p);
        }
        if self.allows(graph, plan.redrawn(p)) {
            let after = plan.redrawn(p);
            assert(self.allows_district(graph, after.dist_nodes[p.a_label as int]));
            assert(self.allows_district(graph, after.dist_nodes[p.b_label as int]));
        }
    }
}

} // verus!
