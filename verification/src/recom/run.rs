//! Chain runs: rounds of worker results become accepted steps.

use rand::rngs::SmallRng;
use vstd::prelude::*;
use crate::constraints::{ChainConstraint, NoConstraint};
use crate::double::{Arithmetic, Double, Op};
use crate::graph::Graph;
use crate::partition::{Partition, Plan};
use crate::random::Pick;
use crate::recom::proposal::{RecomParams, RecomProposal, Redraw};
use crate::recom::worker::{JobPacket, ResultPacket, Worker};
use crate::recom::{contiguity, draw, populations, worker};
use crate::stats::counts::{SelfLoopCounts, SelfLoopReason};
use crate::stats::records::{Entry, Record};
use crate::stats::writers::StatsWriter;
use crate::stats::{counts, records, sums, writers};
use crate::{constraints, partition, random, sorting};

verus! {

/// An accepted step, or the self-loops after the last one.
#[derive(Debug)]
pub struct StepPacket {
    /// The chain position.
    pub step: u64,
    /// The accepted proposal; trailing self-loops have none.
    pub proposal: Option<RecomProposal>,
    /// The self-loops since the step before.
    pub counts: SelfLoopCounts,
}

/// The contents of candidate proposals.
pub open spec fn candidates(proposals: Seq<(u64, RecomProposal)>) -> Seq<(u64, Redraw)> {
    Seq::new(proposals.len(), |i: int| (proposals[i].0, proposals[i].1@))
}

/// The candidates of the first `k` packets, one packet after the other.
pub open spec fn joined_candidates(packets: Seq<ResultPacket>, k: int) -> Seq<(u64, Redraw)>
    decreases k,
{
    if k <= 0 {
        Seq::empty()
    } else {
        joined_candidates(packets, k - 1) + candidates(packets[k - 1].proposals@)
    }
}

/// The self-loops of the first `k` packets for a reason, added up.
pub open spec fn joined_count(packets: Seq<ResultPacket>, reason: SelfLoopReason, k: int) -> int
    decreases k,
{
    if k <= 0 {
        0
    } else {
        joined_count(packets, reason, k - 1) + packets[k - 1].counts.count(reason)
    }
}

/// The events of the first `k` packets.
pub open spec fn event_count(packets: Seq<ResultPacket>, k: int) -> int
    decreases k,
{
    if k <= 0 {
        0
    } else {
        event_count(packets, k - 1) + packets[k - 1].counts.total()
            + packets[k - 1].proposals.len()
    }
}

proof fn event_count_grows(packets: Seq<ResultPacket>, j: int, k: int)
    requires
        0 <= j <= k <= packets.len(),
    ensures
        0 <= event_count(packets, j) <= event_count(packets, k),
    decreases k,
{
    if j < k {
        event_count_grows(packets, j, k - 1);
    } else if k > 0 {
        event_count_grows(packets, j - 1, k - 1);
    }
}

/// The numbers that order candidates.
pub open spec fn ids(items: Seq<(u64, Redraw)>) -> Seq<u64> {
    Seq::new(items.len(), |i: int| items[i].0)
}

/// Whether `sorted` holds the items by ascending number, equal ones in their
/// order.
pub open spec fn sorted_by_id(items: Seq<(u64, Redraw)>, sorted: Seq<(u64, Redraw)>) -> bool {
    exists|order: Seq<usize>| #[trigger]
        sorting::stable_order_of(ids(items), order) && sorted == Seq::new(
            order.len(),
            |i: int| items[order[i] as int],
        )
}

proof fn count_without(packets: Seq<ResultPacket>, reason: SelfLoopReason, j: int, k: int)
    requires
        0 <= j < packets.len(),
        0 <= k <= packets.len(),
    ensures
        k <= j ==> joined_count(packets, reason, k) == joined_count(packets.remove(j), reason, k),
        j < k ==> joined_count(packets, reason, k) == joined_count(
            packets.remove(j),
            reason,
            k - 1,
        ) + packets[j].counts.count(reason),
    decreases k,
{
    if k > 0 {
        count_without(packets, reason, j, k - 1);
        if k <= j {
            assert(packets.remove(j)[k - 1] == packets[k - 1]);
        } else if j < k - 1 {
            assert(packets.remove(j)[k - 2] == packets[k - 1]);
        }
    }
}

proof fn counts_of_permuted(a: Seq<ResultPacket>, b: Seq<ResultPacket>, reason: SelfLoopReason)
    requires
        a.to_multiset() == b.to_multiset(),
    ensures
        joined_count(a, reason, a.len() as int) == joined_count(b, reason, b.len() as int),
    decreases a.len(),
{
    broadcast use vstd::seq_lib::group_to_multiset_ensures;

    assert(a.to_multiset().len() == a.len());
    assert(b.to_multiset().len() == b.len());
    if a.len() > 0 {
        let i = a.len() - 1;
        assert(a.contains(a[i]));
        assert(b.to_multiset().count(a[i]) > 0);
        assert(b.contains(a[i]));
        let j = choose|j: int| 0 <= j < b.len() && b[j] == a[i];
        assert(a.remove(i).to_multiset() =~= a.to_multiset().remove(a[i]));
        assert(b.remove(j).to_multiset() =~= b.to_multiset().remove(a[i]));
        counts_of_permuted(a.remove(i), b.remove(j), reason);
        count_without(a, reason, i, a.len() as int);
        count_without(b, reason, j, b.len() as int);
    }
}

proof fn candidates_come_from_packets(packets: Seq<ResultPacket>, k: int, x: (u64, Redraw))
    requires
        0 <= k <= packets.len(),
    ensures
        joined_candidates(packets, k).contains(x) <==> exists|i: int|
            0 <= i < k && candidates((#[trigger] packets[i]).proposals@).contains(x),
    decreases k,
{
    if k > 0 {
        candidates_come_from_packets(packets, k - 1, x);
        let before = joined_candidates(packets, k - 1);
        let more = candidates(packets[k - 1].proposals@);
        if before.contains(x) {
            let i = choose|i: int| 0 <= i < before.len() && before[i] == x;
            assert((before + more)[i] == x);
        }
        if more.contains(x) {
            let i = choose|i: int| 0 <= i < more.len() && more[i] == x;
            assert((before + more)[before.len() + i] == x);
        }
        if (before + more).contains(x) {
            let i = choose|i: int| 0 <= i < (before + more).len() && (before + more)[i] == x;
            if i >= before.len() {
                assert(more[i - before.len()] == x);
            } else {
                assert(before[i] == x);
            }
        }
    }
}

/// Whether the numbers of items ascend.
spec fn ascend(items: Seq<(u64, Redraw)>) -> bool {
    forall|i: int, j: int| 0 <= i < j < items.len() ==> (#[trigger] items[i]).0 < (
    #[trigger] items[j]).0
}

proof fn sorted_items_ascend(items: Seq<(u64, Redraw)>, sorted: Seq<(u64, Redraw)>)
    requires
        ids(items).no_duplicates(),
        items.len() <= usize::MAX,
        sorted_by_id(items, sorted),
    ensures
        ascend(sorted),
        forall|x: (u64, Redraw)| #[trigger] sorted.contains(x) <==> items.contains(x),
{
    let keys = ids(items);
    let order = choose|order: Seq<usize>| #[trigger]
        sorting::stable_order_of(keys, order) && sorted == Seq::new(
            order.len(),
            |i: int| items[order[i] as int],
        );
    assert forall|i: int, j: int| 0 <= i < j < sorted.len() implies (#[trigger] sorted[i]).0 < (
    #[trigger] sorted[j]).0 by {
        assert(order.contains(order[i]) && order.contains(order[j]));
        assert(sorting::precedes(keys, order[i], order[j]));
        assert(keys[order[i] as int] == sorted[i].0 && keys[order[j] as int] == sorted[j].0);
    }
    assert forall|x: (u64, Redraw)| #[trigger] sorted.contains(x) <==> items.contains(x) by {
        if sorted.contains(x) {
            let i = choose|i: int| 0 <= i < sorted.len() && sorted[i] == x;
            assert(order.contains(order[i]));
            assert(items[order[i] as int] == x);
        }
        if items.contains(x) {
            let p = choose|p: int| 0 <= p < items.len() && items[p] == x;
            assert(order.contains(p as usize));
            let i = choose|i: int| 0 <= i < order.len() && order[i] == p as usize;
            assert(sorted[i] == x);
        }
    }
}

proof fn ascending_items_agree(a: Seq<(u64, Redraw)>, b: Seq<(u64, Redraw)>)
    requires
        ascend(a),
        ascend(b),
        forall|x: (u64, Redraw)| #[trigger] a.contains(x) <==> b.contains(x),
    ensures
        a == b,
    decreases a.len(),
{
    if a.len() == 0 {
        if b.len() > 0 {
            assert(b.contains(b[0]));
            assert(a.contains(b[0]));
        }
        assert(a =~= b);
    } else {
        assert(a.contains(a.last()));
        assert(b.contains(a.last()));
        assert(b.contains(b.last()));
        assert(a.contains(b.last()));
        let i = choose|i: int| 0 <= i < b.len() && b[i] == a.last();
        let j = choose|j: int| 0 <= j < a.len() && a[j] == b.last();
        assert(i == b.len() - 1) by {
            if i < b.len() - 1 {
                assert(b[i].0 < b[b.len() - 1].0);
                if j < a.len() - 1 {
                    assert(a[j].0 < a[a.len() - 1].0);
                }
            }
        }
        let last = a.last();
        assert(b.last() == last);
        let c = a.drop_last();
        let d = b.drop_last();
        assert forall|x: (u64, Redraw)| #[trigger] c.contains(x) <==> d.contains(x) by {
            if c.contains(x) {
                let k = choose|k: int| 0 <= k < c.len() && c[k] == x;
                assert(a[k].0 < a[a.len() - 1].0);
                assert(a.contains(x));
                let m = choose|m: int| 0 <= m < b.len() && b[m] == x;
                assert(d[m] == x);
            }
            if d.contains(x) {
                let k = choose|k: int| 0 <= k < d.len() && d[k] == x;
                assert(b[k].0 < b[b.len() - 1].0);
                assert(b.contains(x));
                assert(a.contains(x));
                let m = choose|m: int| 0 <= m < a.len() && a[m] == x;
                assert(a[a.len() - 1] == last);
                assert(x.0 < last.0);
                assert(c[m] == x);
            }
        }
        ascending_items_agree(c, d);
        assert(a =~= c.push(a.last()));
        assert(b =~= d.push(b.last()));
    }
}

/// The order in which the workers' packets arrive changes nothing: rounds of the
/// same packets, whose candidates have distinct numbers, come to the same
/// self-loops and the same list of candidates.
pub proof fn arrival_order_changes_nothing(
    a: Seq<ResultPacket>,
    b: Seq<ResultPacket>,
    from_a: Seq<(u64, Redraw)>,
    from_b: Seq<(u64, Redraw)>,
)
    requires
        a.to_multiset() == b.to_multiset(),
        ids(joined_candidates(a, a.len() as int)).no_duplicates(),
        ids(joined_candidates(b, b.len() as int)).no_duplicates(),
        event_count(a, a.len() as int) <= usize::MAX,
        event_count(b, b.len() as int) <= usize::MAX,
        sorted_by_id(joined_candidates(a, a.len() as int), from_a),
        sorted_by_id(joined_candidates(b, b.len() as int), from_b),
    ensures
        from_a == from_b,
        forall|reason: SelfLoopReason|
            #![trigger joined_count(a, reason, a.len() as int)]
            joined_count(a, reason, a.len() as int) == joined_count(b, reason, b.len() as int),
{
    broadcast use vstd::seq_lib::group_to_multiset_ensures;

    let all_a = joined_candidates(a, a.len() as int);
    let all_b = joined_candidates(b, b.len() as int);
    candidates_are_events(a, a.len() as int);
    candidates_are_events(b, b.len() as int);
    sorted_items_ascend(all_a, from_a);
    sorted_items_ascend(all_b, from_b);
    assert forall|x: (u64, Redraw)| #[trigger] from_a.contains(x) <==> from_b.contains(x) by {
        candidates_come_from_packets(a, a.len() as int, x);
        candidates_come_from_packets(b, b.len() as int, x);
        if all_a.contains(x) {
            let i = choose|i: int|
                0 <= i < a.len() && candidates((#[trigger] a[i]).proposals@).contains(x);
            assert(a.contains(a[i]));
            assert(b.to_multiset().count(a[i]) > 0);
            assert(b.contains(a[i]));
            let j = choose|j: int| 0 <= j < b.len() && b[j] == a[i];
            assert(candidates(b[j].proposals@).contains(x));
        }
        if all_b.contains(x) {
            let i = choose|i: int|
                0 <= i < b.len() && candidates((#[trigger] b[i]).proposals@).contains(x);
            assert(b.contains(b[i]));
            assert(a.to_multiset().count(b[i]) > 0);
            assert(a.contains(b[i]));
            let j = choose|j: int| 0 <= j < a.len() && a[j] == b[i];
            assert(candidates(a[j].proposals@).contains(x));
        }
    }
    ascending_items_agree(from_a, from_b);
    assert forall|reason: SelfLoopReason|
        #![trigger joined_count(a, reason, a.len() as int)]
        joined_count(a, reason, a.len() as int) == joined_count(b, reason, b.len() as int) by {
        counts_of_permuted(a, b, reason);
    }
}

proof fn candidates_are_events(packets: Seq<ResultPacket>, k: int)
    requires
        0 <= k <= packets.len(),
    ensures
        joined_candidates(packets, k).len() <= event_count(packets, k),
    decreases k,
{
    if k > 0 {
        candidates_are_events(packets, k - 1);
    }
}

/// The events of a round of packets: the self-loops added up, and the
/// candidates by ascending number.
pub fn gather(packets: &Vec<ResultPacket>) -> (r: ResultPacket)
    requires
        event_count(packets@, packets@.len() as int) <= usize::MAX,
    ensures
        forall|reason: SelfLoopReason| #[trigger]
            r.counts.count(reason) == joined_count(packets@, reason, packets@.len() as int),
        sorted_by_id(
            joined_candidates(packets@, packets@.len() as int),
            candidates(r.proposals@),
        ),
        r.counts.total() + r.proposals.len() == event_count(packets@, packets@.len() as int),
{
    let mut counts: SelfLoopCounts = SelfLoopCounts::default();
    let mut all: Vec<(u64, RecomProposal)> = Vec::new();
    let mut k: usize = 0;
    assert(candidates(all@) =~= Seq::<(u64, Redraw)>::empty());
    while k < packets.len()
        invariant
            k <= packets.len(),
            event_count(packets@, packets@.len() as int) <= usize::MAX,
            forall|reason: SelfLoopReason| #[trigger]
                counts.count(reason) == joined_count(packets@, reason, k as int),
            candidates(all@) == joined_candidates(packets@, k as int),
            counts.total() + all.len() == event_count(packets@, k as int),
        decreases packets.len() - k,
    {
        proof {
            event_count_grows(packets@, k + 1, packets@.len() as int);
        }
        counts = counts.plus(&packets[k].counts);
        let ghost start = all@;
        let ghost more = packets@[k as int].proposals@;
        let mut i: usize = 0;
        assert(candidates(start) + candidates(more.take(0)) =~= candidates(start));
        while i < packets[k].proposals.len()
            invariant
                k < packets.len(),
                i <= more.len(),
                more == packets@[k as int].proposals@,
                all.len() == start.len() + i,
                candidates(all@) == candidates(start) + candidates(more.take(i as int)),
            decreases packets[k as int].proposals.len() - i,
        {
            let ghost before = all@;
            let item: (u64, RecomProposal) = (
                packets[k].proposals[i].0,
                packets[k].proposals[i].1.clone(),
            );
            all.push(item);
            i += 1;
            assert(candidates(all@) =~= candidates(before).push((item.0, item.1@)));
            assert(candidates(more.take(i as int)) =~= candidates(more.take(i - 1)).push(
                (item.0, item.1@),
            ));
        }
        assert(more.take(i as int) =~= more);
        k += 1;
    }
    let ghost items = candidates(all@);
    let mut keys: Vec<u64> = Vec::new();
    let mut i: usize = 0;
    while i < all.len()
        invariant
            i <= all.len(),
            keys.len() == i,
            forall|j: int| 0 <= j < i ==> #[trigger] keys[j] == all[j].0,
        decreases all.len() - i,
    {
        keys.push(all[i].0);
        i += 1;
    }
    assert(keys@ =~= ids(items));
    let order: Vec<usize> = sorting::stable_order(&keys);
    let mut sorted: Vec<(u64, RecomProposal)> = Vec::new();
    let mut j: usize = 0;
    while j < order.len()
        invariant
            j <= order.len(),
            items == candidates(all@),
            keys@ == ids(items),
            sorting::stable_order_of(keys@, order@),
            sorted.len() == j,
            forall|i: int|
                0 <= i < j ==> ((#[trigger] sorted[i]).0, sorted[i].1@) == items[order[i] as int],
        decreases order.len() - j,
    {
        assert(order@.contains(order[j as int]));
        let place: usize = order[j];
        sorted.push((all[place].0, all[place].1.clone()));
        j += 1;
    }
    assert(candidates(sorted@) =~= Seq::new(order@.len(), |i: int| items[order@[i] as int]));
    ResultPacket { counts, proposals: sorted }
}

/// The progress of a chain run.
#[derive(Debug)]
pub struct ChainRun {
    step: u64,
    effective_steps: u64,
    sampled: SelfLoopCounts,
    accepted: bool,
}

impl ChainRun {
    /// The position that the chain has reached.
    pub closed spec fn position(&self) -> int {
        self.step as int
    }

    /// The position at which the run ends.
    pub closed spec fn target(&self) -> int {
        self.effective_steps as int
    }

    /// The self-loops since the last accepted step.
    pub closed spec fn waiting(&self) -> SelfLoopCounts {
        self.sampled
    }

    /// Whether a step was accepted.
    pub closed spec fn moved(&self) -> bool {
        self.accepted
    }

    /// The self-loops since the last accepted step are positions of the run.
    pub open spec fn valid(&self) -> bool {
        &&& 0 <= self.waiting().total() <= self.position() <= self.target()
        &&& self.target() < u64::MAX
        &&& self.target() <= usize::MAX
        &&& !self.moved() ==> self.waiting().total() == self.position()
    }

    /// A run with the given number of output records. The seed plan is the
    /// first of them, so the chain itself has one position fewer.
    pub fn new(num_steps: u64) -> (r: ChainRun)
        requires
            num_steps <= usize::MAX,
        ensures
            r.valid(),
            r.position() == 0,
            r.target() == (if num_steps == 0 {
                0
            } else {
                num_steps - 1
            }),
            r.waiting() == counts::no_loops(),
            !r.moved(),
    {
        let effective_steps: u64 = if num_steps == 0 {
            0
        } else {
            num_steps - 1
        };
        ChainRun { step: 0, effective_steps, sampled: SelfLoopCounts::default(), accepted: false }
    }

    /// Whether the run has reached its end.
    pub fn done(&self) -> (r: bool)
        ensures
            r == (self.position() >= self.target()),
    {
        self.step >= self.effective_steps
    }

    pub fn position_reached(&self) -> (r: u64)
        ensures
            r == self.position(),
    {
        self.step
    }

    /// Takes the self-loop at an index out of the round's counts as the next
    /// position.
    pub fn take_loop(&mut self, round: &mut SelfLoopCounts, event: usize)
        requires
            old(self).valid(),
            old(self).position() < old(self).target(),
            event < old(round).total(),
        ensures
            final(self).valid(),
            final(self).position() == old(self).position() + 1,
            final(self).target() == old(self).target(),
            final(self).moved() == old(self).moved(),
            final(self).waiting().shifted(
                old(self).waiting(),
                old(round).reason_at(event as int),
                1,
            ),
            final(self).waiting().total() == old(self).waiting().total() + 1,
            final(round).shifted(*old(round), old(round).reason_at(event as int), -1),
            final(round).total() == old(round).total() - 1,
    {
        if let Some(reason) = round.index_and_dec(event) {
            assert(self.sampled.count(reason) <= self.sampled.total());
            self.sampled.inc(reason);
            self.step = self.step + 1;
        }
    }

    /// Accepts a proposal as the next position; the self-loops before it go
    /// into its packet.
    pub fn accept(&mut self, proposal: RecomProposal) -> (r: StepPacket)
        requires
            old(self).valid(),
            old(self).position() < old(self).target(),
        ensures
            final(self).valid(),
            final(self).position() == old(self).position() + 1,
            final(self).target() == old(self).target(),
            final(self).moved(),
            final(self).waiting() == counts::no_loops(),
            r.step == final(self).position(),
            r.proposal matches Some(p) && p@ == proposal@,
            r.counts == old(self).waiting(),
    {
        self.step = self.step + 1;
        let counts: SelfLoopCounts = self.sampled;
        self.sampled = SelfLoopCounts::default();
        self.accepted = true;
        StepPacket { step: self.step, proposal: Some(proposal), counts }
    }

    /// Takes an event as the next position, drawn among the self-loops left and
    /// the proposals: the self-loop at its index, or behind the self-loops the
    /// proposal that was drawn among all.
    pub fn take_event(
        &mut self,
        left: &mut SelfLoopCounts,
        proposals: &Vec<(u64, RecomProposal)>,
        event: Pick,
        choice: Pick,
    ) -> (r: Option<StepPacket>)
        requires
            old(self).valid(),
            old(self).position() < old(self).target(),
            old(left).total() <= usize::MAX,
            event.among((old(left).total() + proposals.len()) as nat),
            event.value >= old(left).total() ==> choice.among(proposals@.len()),
        ensures
            final(self).valid(),
            final(self).position() == old(self).position() + 1,
            final(self).target() == old(self).target(),
            event.value < old(left).total() ==> {
                let reason = old(left).reason_at(event.value as int);
                &&& r is None
                &&& final(self).moved() == old(self).moved()
                &&& final(self).waiting().shifted(old(self).waiting(), reason, 1)
                &&& final(self).waiting().total() == old(self).waiting().total() + 1
                &&& final(left).shifted(*old(left), reason, -1)
                &&& final(left).total() == old(left).total() - 1
            },
            event.value >= old(left).total() ==> {
                &&& r matches Some(packet) && packet.step == final(self).position()
                    && packet.counts == old(self).waiting() && (packet.proposal matches Some(p)
                    && p@ == proposals[choice.value as int].1@)
                &&& final(self).moved()
                &&& final(self).waiting() == counts::no_loops()
                &&& *final(left) == *old(left)
            },
    {
        if event.value < left.sum() {
            self.take_loop(left, event.value);
            None
        } else {
            Some(self.accept(random::chosen(proposals, choice).1.clone()))
        }
    }

    /// Absorbs a round of events. Without proposals all self-loops of the
    /// round are taken, as far as the run goes. With proposals, events are
    /// sampled without replacement until a proposal is accepted or the run
    /// ends.
    pub fn absorb(&mut self, round: &ResultPacket, rng: &mut SmallRng) -> (r: Option<StepPacket>)
        requires
            old(self).valid(),
            old(self).position() < old(self).target(),
            round.counts.total() + round.proposals.len() <= usize::MAX,
        ensures
            final(self).valid(),
            final(self).target() == old(self).target(),
            absorbed(*old(self), *final(self), *round, r),
            round_comes(*old(self), *round, *old(rng), *final(self), r, *final(rng)),
    {
        let mut left: SelfLoopCounts = round.counts;
        if round.proposals.len() == 0 {
            let loops: usize = left.sum();
            let ghost start = *self;
            let mut k: usize = 0;
            while k < loops && self.step < self.effective_steps
                invariant
                    k <= loops,
                    loops == round.counts.total(),
                    start == *old(self),
                    start.valid(),
                    self.valid(),
                    self.target() == start.target(),
                    self.position() == start.position() + k,
                    self.moved() == start.moved(),
                    left.total() == loops - k,
                    moved_over(start.waiting(), self.waiting(), round.counts, left),
                    self.waiting().total() == start.waiting().total() + k,
                decreases loops - k,
            {
                let ghost before = self.waiting();
                let ghost left_before = left;
                self.take_loop(&mut left, 0);
                k += 1;
                proof {
                    still_moved_over(
                        start.waiting(),
                        before,
                        self.waiting(),
                        round.counts,
                        left_before,
                        left,
                        left_before.reason_at(0),
                    );
                }
            }
            return None;
        }
        let mut loops: usize = left.sum();
        let n: usize = round.proposals.len();
        let ghost start = *self;
        let ghost mut events: Seq<Pick> = Seq::empty();
        while self.step < self.effective_steps
            invariant
                loops_drawn(round.counts, n as nat, events, left, *old(rng), *rng),
                events.len() == self.position() - start.position(),
                n == round.proposals.len(),
                n > 0,
                loops == left.total(),
                loops + n <= usize::MAX,
                start == *old(self),
                start.valid(),
                self.valid(),
                self.target() == start.target(),
                self.moved() == start.moved(),
                moved_over(start.waiting(), self.waiting(), round.counts, left),
                self.waiting().total() - start.waiting().total() == self.position()
                    - start.position(),
                self.waiting().total() - start.waiting().total() == round.counts.total()
                    - left.total(),
            decreases self.effective_steps - self.step,
        {
            let ghost between = *rng;
            let event: Pick = random::draw_below(rng, loops + n);
            let ghost picked = *rng;
            assert(random::picks(
                between,
                (left.total() + round.proposals@.len()) as usize,
                event,
                picked,
            ));
            let choice: Pick = if event.value < loops {
                event
            } else {
                random::draw_below(rng, n)
            };
            let ghost before = self.waiting();
            let ghost left_before = left;
            match self.take_event(&mut left, &round.proposals, event, choice) {
                Some(packet) => {
                    assert(round.proposals@[choice.value as int].1@ == packet.proposal->0@);
                    proof {
                        assert(random::picks(
                            picked,
                            round.proposals@.len() as usize,
                            choice,
                            *rng,
                        ));
                        assert(accepted_next(
                            round.proposals@,
                            left,
                            between,
                            packet,
                            *rng,
                        ));
                    }
                    return Some(packet);
                },
                None => {},
            }
            loops = loops - 1;
            proof {
                assert(loop_drawn(left_before, n as nat, event, between, left, *rng));
                one_more_loop(
                    round.counts,
                    n as nat,
                    events,
                    left_before,
                    *old(rng),
                    between,
                    event,
                    left,
                    *rng,
                );
                events = events.push(event);
                still_moved_over(
                    start.waiting(),
                    before,
                    self.waiting(),
                    round.counts,
                    left_before,
                    left,
                    left_before.reason_at(event.value as int),
                );
            }
        }
        None
    }

    /// Ends a run: the self-loops after the last accepted step, if any, and
    /// whether a step was accepted at all.
    pub fn finish(&self) -> (r: (Option<StepPacket>, Result<(), String>))
        requires
            self.valid(),
        ensures
            r.0 is Some <==> self.waiting().total() > 0,
            r.0 matches Some(packet) ==> packet.step == self.target() && packet.proposal is None
                && packet.counts == self.waiting(),
            r.1 matches Err(e) ==> e@ == nothing_accepted(),
            r.1 is Ok <==> self.moved(),
    {
        let trailing: Option<StepPacket> = if self.sampled.sum() > 0 {
            Some(StepPacket { step: self.effective_steps, proposal: None, counts: self.sampled })
        } else {
            None
        };
        let result: Result<(), String> = if self.accepted {
            Ok(())
        } else {
            Err(
                "No proposals were accepted during the entire chain run. This likely indicates that either the run was too short (so increase the value of 'n-steps') or that the ReCom variant being used is too restrictive for the graph and parameters chosen.".to_string(),
            )
        };
        (trailing, result)
    }
}

/// The message of a run without an accepted step.
pub open spec fn nothing_accepted() -> Seq<char> {
    "No proposals were accepted during the entire chain run. This likely indicates that either the run was too short (so increase the value of 'n-steps') or that the ReCom variant being used is too restrictive for the graph and parameters chosen."@
}

/// Whether a self-loop of a round is what a generator gives next: the one at the
/// index that it picks among the self-loops left and the proposals.
pub open spec fn loop_drawn(
    fuller: SelfLoopCounts,
    n: nat,
    event: Pick,
    before: SmallRng,
    left: SelfLoopCounts,
    after: SmallRng,
) -> bool {
    &&& random::picks(before, (fuller.total() + n) as usize, event, after)
    &&& event.value < fuller.total()
    &&& left.shifted(fuller, fuller.reason_at(event.value as int), -1)
}

/// Whether self-loops of a round, one after the other, are what a generator
/// gives next.
pub open spec fn loops_drawn(
    counts: SelfLoopCounts,
    n: nat,
    events: Seq<Pick>,
    left: SelfLoopCounts,
    before: SmallRng,
    after: SmallRng,
) -> bool
    decreases events.len(),
{
    if events.len() == 0 {
        before == after && left == counts
    } else {
        exists|fuller: SelfLoopCounts, between: SmallRng|
            {
                &&& loops_drawn(counts, n, events.drop_last(), fuller, before, between)
                &&& #[trigger] loop_drawn(fuller, n, events.last(), between, left, after)
            }
    }
}

proof fn one_more_loop(
    counts: SelfLoopCounts,
    n: nat,
    events: Seq<Pick>,
    fuller: SelfLoopCounts,
    before: SmallRng,
    between: SmallRng,
    event: Pick,
    left: SelfLoopCounts,
    after: SmallRng,
)
    requires
        loops_drawn(counts, n, events, fuller, before, between),
        loop_drawn(fuller, n, event, between, left, after),
    ensures
        loops_drawn(counts, n, events.push(event), left, before, after),
{
    assert(events.push(event).drop_last() =~= events);
    assert(events.push(event).last() == event);
}

/// Whether a proposal of a round is what a generator gives next: it picks an
/// event behind the self-loops left, and then one of all proposals.
pub open spec fn accepted_next(
    proposals: Seq<(u64, RecomProposal)>,
    left: SelfLoopCounts,
    before: SmallRng,
    packet: StepPacket,
    after: SmallRng,
) -> bool {
    exists|event: Pick, choice: Pick, between: SmallRng|
        {
            &&& #[trigger] random::picks(
                before,
                (left.total() + proposals.len()) as usize,
                event,
                between,
            )
            &&& event.value >= left.total()
            &&& #[trigger] random::picks(between, proposals.len() as usize, choice, after)
            &&& packet.proposal matches Some(p) && p@ == proposals[choice.value as int].1@
        }
}

/// Whether a round comes to a packet by a generator. A round without proposals
/// draws nothing. Otherwise self-loops are drawn without replacement until a
/// proposal is drawn or the run ends.
pub open spec fn round_comes(
    before: ChainRun,
    round: ResultPacket,
    first: SmallRng,
    after: ChainRun,
    r: Option<StepPacket>,
    last: SmallRng,
) -> bool {
    if round.proposals.len() == 0 {
        last == first
    } else {
        exists|events: Seq<Pick>, left: SelfLoopCounts, between: SmallRng|
            {
                &&& #[trigger] loops_drawn(
                    round.counts,
                    round.proposals@.len(),
                    events,
                    left,
                    first,
                    between,
                )
                &&& match r {
                    None => {
                        &&& between == last
                        &&& after.position() == after.target()
                        &&& events.len() == after.position() - before.position()
                        &&& moved_over(before.waiting(), after.waiting(), round.counts, left)
                    },
                    Some(packet) => {
                        &&& events.len() + 1 == after.position() - before.position()
                        &&& moved_over(before.waiting(), packet.counts, round.counts, left)
                        &&& accepted_next(round.proposals@, left, between, packet, last)
                    },
                }
            }
    }
}

/// Whether self-loops moved from a round's counts into a run's, one for one.
pub open spec fn moved_over(
    before: SelfLoopCounts,
    after: SelfLoopCounts,
    round: SelfLoopCounts,
    left: SelfLoopCounts,
) -> bool {
    forall|reason: SelfLoopReason|
        #![trigger after.count(reason)]
        after.count(reason) + left.count(reason) == before.count(reason) + round.count(reason)
            && 0 <= left.count(reason) <= round.count(reason)
}

proof fn still_moved_over(
    before: SelfLoopCounts,
    mid: SelfLoopCounts,
    after: SelfLoopCounts,
    round: SelfLoopCounts,
    mid_left: SelfLoopCounts,
    left: SelfLoopCounts,
    reason: SelfLoopReason,
)
    requires
        moved_over(before, mid, round, mid_left),
        after.shifted(mid, reason, 1),
        left.shifted(mid_left, reason, -1),
    ensures
        moved_over(before, after, round, left),
{
    assert forall|r: SelfLoopReason|
        #![trigger after.count(r)]
        after.count(r) + left.count(r) == before.count(r) + round.count(r) && 0 <= left.count(r)
            <= round.count(r) by {
        assert(mid.count(r) + mid_left.count(r) == before.count(r) + round.count(r));
        assert(left.count(r) == mid_left.count(r) + (if r == reason {
            -1int
        } else {
            0
        }));
    }
}

/// Whether self-loops `after` are those `before` and some of a round's.
pub open spec fn grown(before: SelfLoopCounts, after: SelfLoopCounts, round: SelfLoopCounts) -> bool {
    forall|reason: SelfLoopReason|
        #![trigger after.count(reason)]
        before.count(reason) <= after.count(reason) <= before.count(reason) + round.count(reason)
}

/// Counts that grow reason by reason grow in total.
pub proof fn grown_in_total(before: SelfLoopCounts, after: SelfLoopCounts, round: SelfLoopCounts)
    requires
        grown(before, after, round),
    ensures
        before.total() <= after.total() <= before.total() + round.total(),
{
    assert(after.count(SelfLoopReason::NonAdjacent) >= before.count(SelfLoopReason::NonAdjacent));
    assert(after.count(SelfLoopReason::NoSplit) >= before.count(SelfLoopReason::NoSplit));
    assert(after.count(SelfLoopReason::SeamLength) >= before.count(SelfLoopReason::SeamLength));
    assert(after.count(SelfLoopReason::TiltedRejection) >= before.count(
        SelfLoopReason::TiltedRejection,
    ));
    assert(after.count(SelfLoopReason::ConstraintViolation) >= before.count(
        SelfLoopReason::ConstraintViolation,
    ));
}

/// What a round of events does to a run.
pub open spec fn absorbed(
    before: ChainRun,
    after: ChainRun,
    round: ResultPacket,
    r: Option<StepPacket>,
) -> bool {
    match r {
        Some(packet) => {
            &&& after.moved()
            &&& after.waiting() == counts::no_loops()
            &&& packet.step == after.position()
            &&& grown(before.waiting(), packet.counts, round.counts)
            &&& after.position() == before.position() + packet.counts.total()
                - before.waiting().total() + 1
            &&& packet.proposal matches Some(p) && exists|i: int|
                0 <= i < round.proposals.len() && (#[trigger] round.proposals[i]).1@ == p@
        },
        None => {
            &&& after.moved() == before.moved()
            &&& grown(before.waiting(), after.waiting(), round.counts)
            &&& after.position() == before.position() + after.waiting().total()
                - before.waiting().total()
            &&& if round.proposals.len() > 0 {
                after.position() == after.target()
            } else if round.counts.total() <= before.target() - before.position() {
                after.position() == before.position() + round.counts.total()
            } else {
                after.position() == after.target()
            }
        },
    }
}

} // verus!
