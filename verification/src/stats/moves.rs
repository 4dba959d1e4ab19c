//! Plans as byte-encoded moves between districts.

use vstd::prelude::*;
use crate::graph::Graph;
use crate::graph;
use crate::partition::{Partition, Plan};
use crate::recom::proposal::{RecomProposal, Redraw};
use crate::stats::counts::SelfLoopCounts;
use crate::stats::records::{Entry, Record, Row};
use crate::stats::writers::StatsWriter;
use crate::stats::{records, sampling};
use crate::vectors;

verus! {

/// A node in two bytes, the high one first.
pub open spec fn node_bytes(node: usize) -> Seq<u8> {
    seq![((node / 256) % 256) as u8, (node % 256) as u8]
}

/// The nodes of one district, one after the other.
pub open spec fn list_bytes(nodes: Seq<usize>) -> Seq<u8>
    decreases nodes.len(),
{
    if nodes.len() == 0 {
        Seq::empty()
    } else {
        list_bytes(nodes.drop_last()) + node_bytes(nodes.last())
    }
}

/// The nodes that move to each district from `d` on: a district with moves
/// lists them, behind a marker and the number of districts passed since the
/// last one listed (the first district has no marker); two bytes of ones end
/// the list.
pub open spec fn diff_bytes(lists: Seq<Seq<usize>>, d: int, passed: int) -> Seq<u8>
    decreases lists.len() - d,
{
    if d >= lists.len() {
        seq![255u8, 255u8]
    } else if lists[d].len() == 0 {
        diff_bytes(lists, d + 1, passed + 1)
    } else {
        let marker = if d > 0 {
            seq![255u8, 254u8, passed as u8]
        } else {
            Seq::empty()
        };
        marker + list_bytes(lists[d]) + diff_bytes(lists, d + 1, 1)
    }
}

/// The bytes that `pcompress::encode::export_diff` writes for the nodes that
/// move to each district. Its counter of passed districts has one byte, which
/// bounds the number of districts.
#[verifier::external_body]
fn export_moves(lists: Vec<Vec<usize>>) -> (r: Vec<u8>)
    requires
        lists.len() <= 255,
    ensures
        r@ == diff_bytes(vectors::nested(lists@), 0, 0),
{
    let mut writer = std::io::BufWriter::new(Vec::new());
    let diff = pcompress::diff::Diff { diff: lists };
    pcompress::encode::export_diff(&mut writer, &diff);
    writer.into_inner().unwrap()
}

/// The nodes that move to each of `n` districts, when a plan follows another;
/// every node moves where there is none before.
pub open spec fn moved(before: Seq<u32>, after: Seq<u32>, n: nat) -> Seq<Seq<usize>> {
    Seq::new(n, |d: int| movers(before, after, d, after.len() as int))
}

/// The nodes below `k` that move to a district.
pub open spec fn movers(before: Seq<u32>, after: Seq<u32>, d: int, k: int) -> Seq<usize>
    decreases k,
{
    if k <= 0 {
        Seq::empty()
    } else if after[k - 1] == d && (before.len() == 0 || before[k - 1] != after[k - 1]) {
        movers(before, after, d, k - 1).push((k - 1) as usize)
    } else {
        movers(before, after, d, k - 1)
    }
}

proof fn movers_are_listed(before: Seq<u32>, after: Seq<u32>, d: int, k: int, v: usize)
    requires
        0 <= k <= after.len() <= usize::MAX,
    ensures
        movers(before, after, d, k).contains(v) <==> v < k && after[v as int] == d && (before.len()
            == 0 || before[v as int] != after[v as int]),
    decreases k,
{
    if k > 0 {
        movers_are_listed(before, after, d, k - 1, v);
        vectors::contains_pushed(movers(before, after, d, k - 1), (k - 1) as usize, v);
    }
}

/// The moves tell the plan: a node is in the district that it moves to, or
/// where it was if it moves to none.
pub proof fn moves_lead_to_the_plan(before: Seq<u32>, after: Seq<u32>, n: nat, v: usize)
    requires
        before.len() == 0 || before.len() == after.len(),
        after.len() <= usize::MAX,
        forall|i: int| 0 <= i < after.len() ==> (#[trigger] after[i]) < n,
        v < after.len(),
    ensures
        forall|d: int|
            0 <= d < n && #[trigger] moved(before, after, n)[d].contains(v) ==> after[v as int] == d,
        (forall|d: int| 0 <= d < n ==> !#[trigger] moved(before, after, n)[d].contains(v))
            ==> before.len() > 0 && after[v as int] == before[v as int],
{
    let lists = moved(before, after, n);
    assert forall|d: int| 0 <= d < n && #[trigger] lists[d].contains(v) implies after[v as int]
        == d by {
        movers_are_listed(before, after, d, after.len() as int, v);
    }
    let home = after[v as int] as int;
    movers_are_listed(before, after, home, after.len() as int, v);
    assert(lists[home] == movers(before, after, home, after.len() as int));
}

/// The nodes that a proposal assigns to each of `n` districts.
pub open spec fn assigned(p: Redraw, n: nat) -> Seq<Seq<usize>> {
    Seq::new(
        n,
        |d: int|
            (if d == p.a_label {
                p.a_nodes
            } else {
                Seq::empty()
            }) + (if d == p.b_label {
                p.b_nodes
            } else {
                Seq::empty()
            }),
    )
}

fn empty_lists(n: usize) -> (r: Vec<Vec<usize>>)
    ensures
        r.len() == n,
        forall|d: int| 0 <= d < n ==> (#[trigger] r[d])@ == Seq::<usize>::empty(),
{
    let mut r: Vec<Vec<usize>> = Vec::new();
    let mut d: usize = 0;
    while d < n
        invariant
            d <= n,
            r.len() == d,
            forall|e: int| 0 <= e < d ==> (#[trigger] r[e])@ == Seq::<usize>::empty(),
        decreases n - d,
    {
        r.push(Vec::new());
        d += 1;
    }
    r
}

fn moves_between(before: &Vec<u32>, after: &Vec<u32>, n: usize) -> (r: Vec<Vec<usize>>)
    requires
        before.len() == 0 || before.len() == after.len(),
        forall|i: int| 0 <= i < after.len() ==> (#[trigger] after[i]) < n,
    ensures
        r.len() == n,
        vectors::nested(r@) == moved(before@, after@, n as nat),
{
    let mut r: Vec<Vec<usize>> = empty_lists(n);
    let mut i: usize = 0;
    while i < after.len()
        invariant
            i <= after.len(),
            r.len() == n,
            before.len() == 0 || before.len() == after.len(),
            forall|j: int| 0 <= j < after.len() ==> (#[trigger] after[j]) < n,
            forall|d: int| 0 <= d < n ==> (#[trigger] r[d])@ == movers(before@, after@, d, i as int),
        decreases after.len() - i,
    {
        if before.len() == 0 || before[i] != after[i] {
            graph::push_at(&mut r, after[i] as usize, i);
        }
        i += 1;
    }
    assert(vectors::nested(r@) =~= moved(before@, after@, n as nat));
    r
}

fn extend(list: &mut Vec<usize>, nodes: &Vec<usize>)
    ensures
        final(list)@ == old(list)@ + nodes@,
{
    let ghost start = list@;
    let mut i: usize = 0;
    assert(start + nodes@.take(0) =~= start);
    while i < nodes.len()
        invariant
            i <= nodes.len(),
            list@ == start + nodes@.take(i as int),
        decreases nodes.len() - i,
    {
        list.push(nodes[i]);
        i += 1;
        assert(list@ =~= start + nodes@.take(i as int));
    }
    assert(nodes@.take(i as int) =~= nodes@);
}

fn assigned_lists(proposal: &RecomProposal, n: usize) -> (r: Vec<Vec<usize>>)
    ensures
        r.len() == n,
        vectors::nested(r@) == assigned(proposal@, n as nat),
{
    let mut r: Vec<Vec<usize>> = Vec::new();
    let mut d: usize = 0;
    while d < n
        invariant
            d <= n,
            r.len() == d,
            forall|e: int| 0 <= e < d ==> (#[trigger] r[e])@ == assigned(proposal@, n as nat)[e],
        decreases n - d,
    {
        let mut list: Vec<usize> = Vec::new();
        if d == proposal.a_label {
            extend(&mut list, &proposal.a_nodes);
        }
        if d == proposal.b_label {
            extend(&mut list, &proposal.b_nodes);
        }
        assert(list@ =~= assigned(proposal@, n as nat)[d as int]);
        r.push(list);
        d += 1;
    }
    assert(vectors::nested(r@) =~= assigned(proposal@, n as nat));
    r
}

/// Writes each sampled plan as the moves from the plan sampled before it.
#[derive(Debug)]
pub struct PcompressWriter {
    previous_assignment: Vec<u32>,
    emitted_assignment: Vec<u32>,
    last_step: u64,
    sample_interval: u64,
}

/// The records of a plan that is written `count` times behind another.
pub open spec fn repeat_entries(before: Seq<u32>, after: Seq<u32>, n: nat, count: nat) -> Seq<
    Entry,
>
    decreases count,
{
    if count == 0 {
        Seq::empty()
    } else {
        seq![Entry::Bytes(diff_bytes(moved(before, after, n), 0, 0))] + repeat_entries(
            after,
            after,
            n,
            (count - 1) as nat,
        )
    }
}

impl PcompressWriter {
    /// The plan at the last position covered.
    pub closed spec fn previous(&self) -> Seq<u32> {
        self.previous_assignment@
    }

    /// The plan last written.
    pub closed spec fn emitted(&self) -> Seq<u32> {
        self.emitted_assignment@
    }

    pub closed spec fn last(&self) -> int {
        self.last_step as int
    }

    pub closed spec fn interval(&self) -> int {
        self.sample_interval as int
    }

    /// Plans have `len` nodes in districts below `n`.
    pub open spec fn fits(&self, len: nat, n: nat) -> bool {
        &&& n <= 255
        &&& self.emitted().len() == len
        &&& self.previous().len() == len
        &&& forall|i: int| 0 <= i < len ==> (#[trigger] self.previous()[i]) < n
    }

    /// The plan last written after self-loops up to a position.
    pub open spec fn emitted_after_loops(&self, step: int) -> Seq<u32> {
        if sampling::sampled(self.last() + 1, step, self.interval()).len() > 0 {
            self.previous()
        } else {
            self.emitted()
        }
    }

    /// The plan last written after a step to a plan.
    pub open spec fn emitted_after_step(&self, step: int, labels: Seq<u32>) -> Seq<u32> {
        if step % self.interval() == 0 {
            labels
        } else {
            self.emitted_after_loops(step - 1)
        }
    }

    pub fn new() -> (r: PcompressWriter)
        ensures
            r.previous() == Seq::<u32>::empty(),
            r.emitted() == Seq::<u32>::empty(),
            r.last() == 0,
            r.interval() == 1,
    {
        PcompressWriter {
            previous_assignment: Vec::new(),
            emitted_assignment: Vec::new(),
            last_step: 0,
            sample_interval: 1,
        }
    }

    pub fn with_sample_interval(self, sample_interval: u64) -> (r: PcompressWriter)
        requires
            sample_interval > 0,
        ensures
            r.interval() == sample_interval,
            r.previous() == self.previous(),
            r.emitted() == self.emitted(),
            r.last() == self.last(),
    {
        PcompressWriter {
            previous_assignment: self.previous_assignment,
            emitted_assignment: self.emitted_assignment,
            last_step: self.last_step,
            sample_interval,
        }
    }

    /// The record of a plan behind the plan last written.
    pub fn write_assignment(&mut self, assignment: &Vec<u32>, num_dists: u32) -> (r: Record)
        requires
            num_dists <= 255,
            old(self).emitted().len() == 0 || old(self).emitted().len() == assignment.len(),
            forall|i: int| 0 <= i < assignment.len() ==> (#[trigger] assignment[i]) < num_dists,
        ensures
            r@ == Entry::Bytes(
                diff_bytes(moved(old(self).emitted(), assignment@, num_dists as nat), 0, 0),
            ),
            final(self).emitted() == assignment@,
            final(self).previous() == old(self).previous(),
            final(self).last() == old(self).last(),
            final(self).interval() == old(self).interval(),
    {
        let lists: Vec<Vec<usize>> = moves_between(
            &self.emitted_assignment,
            assignment,
            num_dists as usize,
        );
        self.emitted_assignment = vectors::copied(assignment);
        Record::Bytes(export_moves(lists))
    }

    /// The records of the current plan, written `count` times.
    fn repeat(&mut self, count: usize, num_dists: u32) -> (r: Vec<Record>)
        requires
            old(self).fits(old(self).previous().len(), num_dists as nat),
        ensures
            records::entries(r@) == repeat_entries(
                old(self).emitted(),
                old(self).previous(),
                num_dists as nat,
                count as nat,
            ),
            final(self).previous() == old(self).previous(),
            final(self).emitted() == (if count == 0 {
                old(self).emitted()
            } else {
                old(self).previous()
            }),
            final(self).last() == old(self).last(),
            final(self).interval() == old(self).interval(),
    {
        let mut r: Vec<Record> = Vec::new();
        let plan: Vec<u32> = vectors::copied(&self.previous_assignment);
        let ghost whole = repeat_entries(
            self.emitted(),
            self.previous(),
            num_dists as nat,
            count as nat,
        );
        let ghost start = *self;
        let mut left: usize = count;
        assert(records::entries(r@) + whole =~= whole);
        while left > 0
            invariant
                left <= count,
                plan@ == start.previous(),
                self.previous() == start.previous(),
                self.last() == start.last(),
                self.interval() == start.interval(),
                start.fits(start.previous().len(), num_dists as nat),
                self.emitted() == (if left == count {
                    start.emitted()
                } else {
                    start.previous()
                }),
                records::entries(r@) + repeat_entries(
                    self.emitted(),
                    start.previous(),
                    num_dists as nat,
                    left as nat,
                ) == whole,
            decreases left,
        {
            let ghost prior = r@;
            let ghost rest = repeat_entries(
                self.emitted(),
                start.previous(),
                num_dists as nat,
                left as nat,
            );
            let record: Record = self.write_assignment(&plan, num_dists);
            r.push(record);
            left = left - 1;
            proof {
                records::entries_pushed(prior, record);
                let tail = repeat_entries(
                    start.previous(),
                    start.previous(),
                    num_dists as nat,
                    left as nat,
                );
                assert(rest =~= seq![record@] + tail);
                assert(records::entries(r@) + tail =~= records::entries(prior) + rest);
            }
        }
        assert(records::entries(r@) =~= whole);
        r
    }
}

/// Writing the plan that was written last moves nothing.
pub proof fn no_moves_within_a_plan(plan: Seq<u32>, d: int, k: int)
    requires
        plan.len() > 0,
        0 <= k <= plan.len(),
    ensures
        movers(plan, plan, d, k) == Seq::<usize>::empty(),
    decreases k,
{
    if k > 0 {
        no_moves_within_a_plan(plan, d, k - 1);
    }
}

/// The moves to a district are the nodes of the new plan in it that changed
/// district, in order.
pub proof fn movers_are_the_changed_nodes(before: Seq<u32>, after: Seq<u32>, d: int, k: int)
    requires
        0 <= k <= after.len() <= usize::MAX,
    ensures
        forall|v: usize|
            #![trigger movers(before, after, d, k).contains(v)]
            movers(before, after, d, k).contains(v) <==> v < k && after[v as int] == d && (
            before.len() == 0 || before[v as int] != after[v as int]),
    decreases k,
{
    if k > 0 {
        movers_are_the_changed_nodes(before, after, d, k - 1);
        let small = movers(before, after, d, k - 1);
        assert forall|v: usize| #[trigger] movers(before, after, d, k).contains(v) <==> v < k
            && after[v as int] == d && (before.len() == 0 || before[v as int]
            != after[v as int]) by {
            vectors::contains_pushed(small, (k - 1) as usize, v);
            assert(small.contains(v) <==> v < k - 1 && after[v as int] == d && (before.len() == 0
                || before[v as int] != after[v as int]));
        }
    }
}

/// The records of an accepted step.
pub open spec fn moved_step(
    w: PcompressWriter,
    step: int,
    next: Seq<u32>,
    n: nat,
    p: Redraw,
    loops: nat,
) -> Seq<Entry> {
    if w.interval() == 1 {
        Seq::new(
            loops,
            |i: int| Entry::Bytes(diff_bytes(Seq::new(n, |d: int| Seq::<usize>::empty()), 0, 0)),
        ).push(Entry::Bytes(diff_bytes(assigned(p, n), 0, 0)))
    } else {
        let count = sampling::sampled(w.last() + 1, step - 1, w.interval()).len();
        let waited = repeat_entries(w.emitted(), w.previous(), n, count);
        let emitted = if count == 0 {
            w.emitted()
        } else {
            w.previous()
        };
        if step % w.interval() == 0 {
            waited.push(Entry::Bytes(diff_bytes(moved(emitted, next, n), 0, 0)))
        } else {
            waited
        }
    }
}

/// Whether lists of moves tell where a node is: in the district of a list that
/// holds it, or where it was if none does.
pub open spec fn places(
    lists: Seq<Seq<usize>>,
    before: Seq<u32>,
    after: Seq<u32>,
    v: usize,
) -> bool {
    &&& forall|d: int|
        0 <= d < lists.len() && (#[trigger] lists[d]).contains(v) ==> after[v as int] == d
    &&& (forall|d: int| 0 <= d < lists.len() ==> !(#[trigger] lists[d]).contains(v))
        ==> before.len() == after.len() && after[v as int] == before[v as int]
}

/// Whether lists of moves lead from a plan to another.
pub open spec fn leads(lists: Seq<Seq<usize>>, before: Seq<u32>, after: Seq<u32>) -> bool {
    forall|v: usize| v < after.len() ==> #[trigger] places(lists, before, after, v)
}

/// Whether an entry tells a plan to one who knows the plan before it.
pub open spec fn tells(entry: Entry, before: Seq<u32>, after: Seq<u32>) -> bool {
    exists|lists: Seq<Seq<usize>>|
        entry == Entry::Bytes(#[trigger] diff_bytes(lists, 0, 0)) && leads(lists, before, after)
}

/// The plan of the last row, or the one before all rows.
pub open spec fn last_plan(start: Seq<u32>, rows: Seq<Row>) -> Seq<u32> {
    if rows.len() == 0 {
        start
    } else {
        rows.last().1
    }
}

/// Whether each entry tells the plan of its row to one who knows the plan of
/// the row before it.
pub open spec fn tell(entries: Seq<Entry>, start: Seq<u32>, rows: Seq<Row>) -> bool {
    &&& entries.len() == rows.len()
    &&& forall|i: int|
        0 <= i < rows.len() ==> tells(
            #[trigger] entries[i],
            last_plan(start, rows.take(i)),
            rows[i].1,
        )
}

/// Entries that tell rows, one list behind another.
pub proof fn told_in_turn(
    a: Seq<Entry>,
    b: Seq<Entry>,
    start: Seq<u32>,
    first: Seq<Row>,
    second: Seq<Row>,
)
    requires
        tell(a, start, first),
        tell(b, last_plan(start, first), second),
    ensures
        tell(a + b, start, first + second),
        last_plan(start, first + second) == last_plan(last_plan(start, first), second),
{
    let rows = first + second;
    assert forall|i: int| 0 <= i < rows.len() implies tells(
        #[trigger] (a + b)[i],
        last_plan(start, rows.take(i)),
        rows[i].1,
    ) by {
        if i < first.len() {
            assert((a + b)[i] == a[i]);
            assert(rows.take(i) =~= first.take(i));
        } else {
            let j = i - first.len();
            assert((a + b)[i] == b[j]);
            let part = second.take(j);
            assert(rows.take(i) =~= first + part);
            if j > 0 {
                assert((first + part).last() == part.last());
            } else {
                assert(first + part =~= first);
            }
        }
    }
    if second.len() > 0 {
        assert(rows.last() == second.last());
    } else {
        assert(rows =~= first);
    }
}

/// An entry that tells one row.
proof fn told_once(entry: Entry, before: Seq<u32>, row: Row)
    requires
        tells(entry, before, row.1),
    ensures
        tell(seq![entry], before, seq![row]),
{
    assert(seq![row].take(0) =~= Seq::<Row>::empty());
}

/// The moves between two plans lead from the one to the other.
proof fn moved_leads(before: Seq<u32>, after: Seq<u32>, n: nat)
    requires
        before.len() == 0 || before.len() == after.len(),
        after.len() <= usize::MAX,
        forall|i: int| 0 <= i < after.len() ==> (#[trigger] after[i]) < n,
    ensures
        leads(moved(before, after, n), before, after),
        tells(Entry::Bytes(diff_bytes(moved(before, after, n), 0, 0)), before, after),
{
    let lists = moved(before, after, n);
    assert forall|v: usize| v < after.len() implies #[trigger] places(
        lists,
        before,
        after,
        v,
    ) by {
        moves_lead_to_the_plan(before, after, n, v);
    }
}

/// A proposal's districts lead from a plan to the redrawn one.
proof fn assigned_leads(plan: Plan, p: Redraw)
    requires
        plan.valid(),
        plan.admits(p),
        plan.assignments.len() <= usize::MAX,
    ensures
        leads(assigned(p, plan.num_dists), plan.assignments, plan.redrawn(p).assignments),
        tells(
            Entry::Bytes(diff_bytes(assigned(p, plan.num_dists), 0, 0)),
            plan.assignments,
            plan.redrawn(p).assignments,
        ),
{
    let lists = assigned(p, plan.num_dists);
    let after = plan.redrawn(p).assignments;
    assert forall|v: usize| v < after.len() implies #[trigger] places(
        lists,
        plan.assignments,
        after,
        v,
    ) by {
        assert(lists[p.a_label as int] =~= p.a_nodes);
        assert(lists[p.b_label as int] =~= p.b_nodes);
        assert(!(p.a_nodes.contains(v) && p.b_nodes.contains(v)));
        assert forall|d: int|
            0 <= d < lists.len() && (#[trigger] lists[d]).contains(v) implies after[v as int]
            == d by {
            if d != p.a_label && d != p.b_label {
                assert(lists[d] =~= Seq::<usize>::empty());
            }
        }
    }
}

/// Empty lists lead from a plan to itself.
proof fn silence_leads(plan: Seq<u32>, n: nat)
    ensures
        tells(
            Entry::Bytes(diff_bytes(Seq::new(n, |d: int| Seq::<usize>::empty()), 0, 0)),
            plan,
            plan,
        ),
{
    let lists = Seq::new(n, |d: int| Seq::<usize>::empty());
    assert(leads(lists, plan, plan));
}

/// The records of a plan that is written again and again tell it each time.
proof fn repeats_tell(before: Seq<u32>, after: Seq<u32>, n: nat, positions: Seq<int>)
    requires
        before.len() == 0 || before.len() == after.len(),
        after.len() <= usize::MAX,
        forall|i: int| 0 <= i < after.len() ==> (#[trigger] after[i]) < n,
    ensures
        tell(
            repeat_entries(before, after, n, positions.len()),
            before,
            records::rows_at(positions, after),
        ),
    decreases positions.len(),
{
    let rows = records::rows_at(positions, after);
    if positions.len() > 0 {
        let rest = positions.skip(1);
        repeats_tell(after, after, n, rest);
        moved_leads(before, after, n);
        let entry = Entry::Bytes(diff_bytes(moved(before, after, n), 0, 0));
        let first = seq![(positions[0], after)];
        told_once(entry, before, first[0]);
        told_in_turn(
            seq![entry],
            repeat_entries(after, after, n, rest.len()),
            before,
            first,
            records::rows_at(rest, after),
        );
        assert(rows =~= first + records::rows_at(rest, after));
    }
}

/// Records without moves tell the plan that was written last.
proof fn silent_records_tell(plan: Seq<u32>, n: nat, positions: Seq<int>)
    ensures
        tell(
            Seq::new(
                positions.len(),
                |i: int|
                    Entry::Bytes(diff_bytes(Seq::new(n, |d: int| Seq::<usize>::empty()), 0, 0)),
            ),
            plan,
            records::rows_at(positions, plan),
        ),
{
    silence_leads(plan, n);
    let rows = records::rows_at(positions, plan);
    assert forall|i: int| 0 <= i < rows.len() implies last_plan(plan, #[trigger] rows.take(i))
        == plan by {
        if i > 0 {
            assert(rows.take(i).last() == rows[i - 1]);
        }
    }
}

/// The record of a seed plan tells it.
pub proof fn seed_record_tells(plan: Seq<u32>, n: nat)
    requires
        plan.len() <= usize::MAX,
        forall|i: int| 0 <= i < plan.len() ==> (#[trigger] plan[i]) < n,
    ensures
        ({
            let none = Seq::<u32>::empty();
            tell(
                seq![Entry::Bytes(diff_bytes(moved(none, plan, n), 0, 0))],
                none,
                seq![(0int, plan)],
            )
        }),
{
    let none = Seq::<u32>::empty();
    moved_leads(none, plan, n);
    told_once(Entry::Bytes(diff_bytes(moved(none, plan, n), 0, 0)), none, (0int, plan));
}

/// The records of self-loops tell the rows that they call for.
pub proof fn loop_records_tell(w: PcompressWriter, step: int, n: nat)
    requires
        w.fits(w.previous().len(), n),
        w.previous().len() <= usize::MAX,
    ensures
        ({
            let rows = records::loop_rows(w.previous(), w.last(), step, w.interval());
            &&& tell(
                repeat_entries(
                    w.emitted(),
                    w.previous(),
                    n,
                    sampling::sampled(w.last() + 1, step, w.interval()).len(),
                ),
                w.emitted(),
                rows,
            )
            &&& last_plan(w.emitted(), rows) == w.emitted_after_loops(step)
        }),
{
    repeats_tell(
        w.emitted(),
        w.previous(),
        n,
        sampling::sampled(w.last() + 1, step, w.interval()),
    );
}

/// The records of an accepted step tell the rows that it calls for.
pub proof fn step_records_tell(w: PcompressWriter, step: int, plan: Plan, p: Redraw, loops: nat)
    requires
        plan.valid(),
        plan.admits(p),
        w.fits(plan.assignments.len(), plan.num_dists),
        w.previous() == plan.assignments,
        w.interval() == 1 ==> w.emitted() == w.previous(),
        w.interval() > 0,
        plan.assignments.len() <= usize::MAX,
        step == w.last() + loops + 1,
        w.last() >= 0,
    ensures
        ({
            let next = plan.redrawn(p).assignments;
            let rows = records::step_rows(w.previous(), w.last(), step, next, w.interval());
            &&& tell(
                moved_step(w, step, next, plan.num_dists, p, loops),
                w.emitted(),
                rows,
            )
            &&& last_plan(w.emitted(), rows) == w.emitted_after_step(step, next)
        }),
{
    let n = plan.num_dists;
    let next = plan.redrawn(p).assignments;
    let positions = sampling::sampled(w.last() + 1, step - 1, w.interval());
    let before = records::rows_at(positions, w.previous());
    let rows = records::step_rows(w.previous(), w.last(), step, next, w.interval());
    crate::partition::redrawn_is_valid(plan, p);
    if w.interval() == 1 {
        sampling::every_position_counts(w.last() + 1, step - 1);
        silent_records_tell(w.previous(), n, positions);
        assigned_leads(plan, p);
        let entry = Entry::Bytes(diff_bytes(assigned(p, n), 0, 0));
        let silent = Seq::new(
            positions.len(),
            |i: int| Entry::Bytes(diff_bytes(Seq::new(n, |d: int| Seq::<usize>::empty()), 0, 0)),
        );
        assert(last_plan(w.emitted(), before) == plan.assignments);
        told_once(entry, plan.assignments, (step, next));
        told_in_turn(silent, seq![entry], w.emitted(), before, seq![(step, next)]);
        assert(step % 1 == 0);
        assert(rows =~= before + seq![(step, next)]);
        assert(moved_step(w, step, next, n, p, loops) =~= silent + seq![entry]);
    } else {
        repeats_tell(w.emitted(), w.previous(), n, positions);
        let waited = repeat_entries(w.emitted(), w.previous(), n, positions.len());
        let emitted = w.emitted_after_loops(step - 1);
        assert(last_plan(w.emitted(), before) == emitted);
        if step % w.interval() == 0 {
            assert forall|i: int| 0 <= i < next.len() implies (#[trigger] next[i]) < n by {}
            moved_leads(emitted, next, n);
            let entry = Entry::Bytes(diff_bytes(moved(emitted, next, n), 0, 0));
            told_once(entry, emitted, (step, next));
            told_in_turn(waited, seq![entry], w.emitted(), before, seq![(step, next)]);
            assert(rows =~= before + seq![(step, next)]);
            assert(moved_step(w, step, next, n, p, loops) =~= waited + seq![entry]);
        }
    }
}

fn silent_records(count: usize, n: usize) -> (r: Vec<Record>)
    requires
        n <= 255,
    ensures
        records::entries(r@) == Seq::new(
            count as nat,
            |i: int|
                Entry::Bytes(diff_bytes(Seq::new(n as nat, |d: int| Seq::<usize>::empty()), 0, 0)),
        ),
{
    let mut r: Vec<Record> = Vec::new();
    let ghost silent = Entry::Bytes(
        diff_bytes(Seq::new(n as nat, |d: int| Seq::<usize>::empty()), 0, 0),
    );
    let mut i: usize = 0;
    while i < count
        invariant
            i <= count,
            n <= 255,
            r.len() == i,
            silent == Entry::Bytes(
                diff_bytes(Seq::new(n as nat, |d: int| Seq::<usize>::empty()), 0, 0),
            ),
            forall|j: int| 0 <= j < i ==> (#[trigger] r[j])@ == silent,
        decreases count - i,
    {
        let lists: Vec<Vec<usize>> = empty_lists(n);
        assert(vectors::nested(lists@) =~= Seq::new(n as nat, |d: int| Seq::<usize>::empty()));
        r.push(Record::Bytes(export_moves(lists)));
        i += 1;
    }
    assert(records::entries(r@) =~= Seq::new(count as nat, |i: int| silent));
    r
}

impl StatsWriter for PcompressWriter {
    open spec fn starts(&self, graph: &Graph, partition: &Partition) -> bool {
        &&& partition@.valid()
        &&& self.interval() > 0
        &&& partition@.num_dists <= 255
        &&& self.emitted().len() == 0 || self.emitted().len() == partition@.assignments.len()
    }

    open spec fn steps(
        &self,
        step: u64,
        graph: &Graph,
        partition: &Partition,
        proposal: &RecomProposal,
        counts: &SelfLoopCounts,
    ) -> bool {
        &&& partition@.valid()
        &&& self.fits(partition@.assignments.len(), partition@.num_dists)
        &&& self.interval() > 0
        &&& counts.total() <= usize::MAX
        &&& step == self.last() + counts.total() + 1
    }

    open spec fn loops(
        &self,
        step: u64,
        graph: &Graph,
        partition: &Partition,
        counts: &SelfLoopCounts,
    ) -> bool {
        &&& self.fits(partition@.assignments.len(), partition@.num_dists)
        &&& self.interval() > 0
        &&& self.last() < u64::MAX
        &&& step == self.last() + counts.total()
    }

    open spec fn closes(&self) -> bool {
        true
    }

    open spec fn stands(&self, graph: &Graph, plan: Plan, last: int) -> bool {
        &&& self.fits(plan.assignments.len(), plan.num_dists)
        &&& self.interval() > 0
        &&& self.last() == last
    }

    open spec fn begun(&self, graph: &Graph, plan: Plan, next: &Self) -> bool {
        &&& next.previous() == plan.assignments
        &&& next.emitted() == plan.assignments
        &&& next.last() == 0
        &&& next.interval() == self.interval()
    }

    open spec fn stepped(
        &self,
        step: int,
        graph: &Graph,
        plan: Plan,
        p: Redraw,
        counts: SelfLoopCounts,
        next: &Self,
    ) -> bool {
        &&& next.previous() == plan.assignments
        &&& next.emitted() == self.emitted_after_step(step, plan.assignments)
        &&& next.last() == step
        &&& next.interval() == self.interval()
    }

    open spec fn waited(
        &self,
        step: int,
        graph: &Graph,
        plan: Plan,
        counts: SelfLoopCounts,
        next: &Self,
    ) -> bool {
        &&& next.previous() == self.previous()
        &&& next.emitted() == self.emitted_after_loops(step)
        &&& next.last() == step
        &&& next.interval() == self.interval()
    }

    open spec fn ended(&self, next: &Self) -> bool {
        self == next
    }

    open spec fn seed_entries(&self, graph: &Graph, plan: Plan) -> Seq<Entry> {
        seq![Entry::Bytes(diff_bytes(moved(self.emitted(), plan.assignments, plan.num_dists), 0, 0))]
    }

    open spec fn step_entries(
        &self,
        step: int,
        graph: &Graph,
        plan: Plan,
        p: Redraw,
        counts: SelfLoopCounts,
    ) -> Seq<Entry> {
        moved_step(
            *self,
            step,
            plan.assignments,
            plan.num_dists,
            p,
            counts.total() as nat,
        )
    }

    open spec fn loop_entries(
        &self,
        step: int,
        graph: &Graph,
        plan: Plan,
        counts: SelfLoopCounts,
    ) -> Seq<Entry> {
        repeat_entries(
            self.emitted(),
            self.previous(),
            plan.num_dists,
            sampling::sampled(self.last() + 1, step, self.interval()).len(),
        )
    }

    open spec fn close_entries(&self) -> Seq<Entry> {
        Seq::empty()
    }

    proof fn ready_to_step(
        &self,
        graph: &Graph,
        before: Plan,
        last: int,
        step: u64,
        partition: &Partition,
        proposal: &RecomProposal,
        counts: &SelfLoopCounts,
    ) {
    }

    proof fn ready_to_wait(
        &self,
        graph: &Graph,
        partition: &Partition,
        last: int,
        step: u64,
        counts: &SelfLoopCounts,
    ) {
    }

    proof fn ready_to_close(&self, graph: &Graph, plan: Plan, last: int) {
    }

    fn init(&mut self, graph: &Graph, partition: &Partition) -> (r: Vec<Record>)
        ensures
            records::entries(r@) == seq![
                Entry::Bytes(
                    diff_bytes(
                        moved(old(self).emitted(), partition@.assignments, partition@.num_dists),
                        0,
                        0,
                    ),
                ),
            ],
            final(self).previous() == partition@.assignments,
            final(self).emitted() == partition@.assignments,
            final(self).last() == 0,
            final(self).interval() == old(self).interval(),
    {
        self.previous_assignment = vectors::copied(&partition.assignments);
        assert forall|i: int| 0 <= i < partition.assignments.len() implies (
        #[trigger] partition.assignments[i]) < partition.num_dists by {
            assert(partition@.assignments[i] < partition@.num_dists);
        }
        let record: Record = self.write_assignment(&partition.assignments, partition.num_dists);
        self.last_step = 0;
        let mut r: Vec<Record> = Vec::new();
        r.push(record);
        assert(records::entries(r@) =~= seq![record@]);
        r
    }

    fn step(
        &mut self,
        step: u64,
        graph: &Graph,
        partition: &Partition,
        proposal: &RecomProposal,
        counts: &SelfLoopCounts,
    ) -> (r: Vec<Record>)
        ensures
            records::entries(r@) == moved_step(
                *old(self),
                step as int,
                partition@.assignments,
                partition@.num_dists,
                proposal@,
                counts.total() as nat,
            ),
            final(self).previous() == partition@.assignments,
            final(self).last() == step,
            final(self).interval() == old(self).interval(),
            final(self).fits(partition@.assignments.len(), partition@.num_dists),
    {
        let n: u32 = partition.num_dists;
        assert forall|i: int| 0 <= i < partition.assignments.len() implies (
        #[trigger] partition.assignments[i]) < n by {
            assert(partition@.assignments[i] < partition@.num_dists);
        }
        if self.sample_interval == 1 {
            let mut r: Vec<Record> = silent_records(counts.sum(), n as usize);
            let ghost prior = r@;
            let lists: Vec<Vec<usize>> = assigned_lists(proposal, n as usize);
            let record: Record = Record::Bytes(export_moves(lists));
            r.push(record);
            proof {
                records::entries_pushed(prior, record);
            }
            self.previous_assignment = vectors::copied(&partition.assignments);
            self.emitted_assignment = vectors::copied(&partition.assignments);
            self.last_step = step;
            return r;
        }
        let positions: Vec<u64> = sampling::sampled_steps(
            self.last_step + 1,
            step - 1,
            self.sample_interval,
        );
        let mut r: Vec<Record> = self.repeat(positions.len(), n);
        self.previous_assignment = vectors::copied(&partition.assignments);
        if step % self.sample_interval == 0 {
            let ghost prior = r@;
            let record: Record = self.write_assignment(&partition.assignments, n);
            r.push(record);
            proof {
                records::entries_pushed(prior, record);
            }
        }
        self.last_step = step;
        r
    }

    fn self_loop(
        &mut self,
        step: u64,
        graph: &Graph,
        partition: &Partition,
        counts: &SelfLoopCounts,
    ) -> (r: Vec<Record>)
        ensures
            records::entries(r@) == repeat_entries(
                old(self).emitted(),
                old(self).previous(),
                partition@.num_dists,
                sampling::sampled(old(self).last() + 1, step as int, old(self).interval()).len(),
            ),
            final(self).previous() == old(self).previous(),
            final(self).last() == step,
            final(self).interval() == old(self).interval(),
    {
        let positions: Vec<u64> = sampling::sampled_steps(
            self.last_step + 1,
            step,
            self.sample_interval,
        );
        let r: Vec<Record> = self.repeat(positions.len(), partition.num_dists);
        self.last_step = step;
        r
    }

    fn close(&mut self) -> (r: Vec<Record>)
        ensures
            records::entries(r@) == Seq::<Entry>::empty(),
    {
        let r: Vec<Record> = Vec::new();
        assert(records::entries(r@) =~= Seq::<Entry>::empty());
        r
    }
}

} // verus!
