//! Run-length frames of consecutive samples that hold one plan.

use vstd::prelude::*;
use crate::stats::records::{Entry, Record};
use crate::stats::{records, sampling};
use crate::vectors;

verus! {

/// The largest repeat count of one frame.
pub const MAX_FRAME_COUNT: u64 = 65535;

/// A repeat count split into frames of at most the largest count.
pub open spec fn frames_of(assignment: Seq<u16>, count: int) -> Seq<Entry>
    decreases count,
{
    if count <= 0 {
        Seq::empty()
    } else if count <= MAX_FRAME_COUNT {
        seq![Entry::Frame(assignment, count)]
    } else {
        seq![Entry::Frame(assignment, MAX_FRAME_COUNT as int)] + frames_of(
            assignment,
            count - MAX_FRAME_COUNT,
        )
    }
}

/// The samples that a list of frames stands for.
pub open spec fn decoded(frames: Seq<Entry>) -> Seq<Seq<u16>>
    decreases frames.len(),
{
    if frames.len() == 0 {
        Seq::empty()
    } else {
        let first = match frames[0] {
            Entry::Frame(a, n) => Seq::new(n as nat, |i: int| a),
            _ => Seq::empty(),
        };
        first + decoded(frames.skip(1))
    }
}

/// Frames decode one after the other.
pub proof fn decoded_splits(a: Seq<Entry>, b: Seq<Entry>)
    ensures
        decoded(a + b) == decoded(a) + decoded(b),
    decreases a.len(),
{
    if a.len() == 0 {
        assert(a + b =~= b);
        assert(decoded(a) + decoded(b) =~= decoded(b));
    } else {
        decoded_splits(a.skip(1), b);
        assert((a + b).skip(1) =~= a.skip(1) + b);
        assert((a + b)[0] == a[0]);
        assert(decoded(a + b) =~= decoded(a) + decoded(b));
    }
}

/// Splitting a repeat count over frames keeps the number of samples.
pub proof fn frames_decode_to_the_count(assignment: Seq<u16>, count: nat)
    ensures
        decoded(frames_of(assignment, count as int)) == Seq::new(count, |i: int| assignment),
    decreases count,
{
    let frames = frames_of(assignment, count as int);
    let plain = Seq::new(count, |i: int| assignment);
    if count == 0 {
        assert(decoded(frames) =~= plain);
    } else if count <= MAX_FRAME_COUNT {
        assert(frames.skip(1) =~= Seq::empty());
        assert(decoded(frames.skip(1)) =~= Seq::empty());
        assert(decoded(frames) =~= plain);
    } else {
        frames_decode_to_the_count(assignment, (count - MAX_FRAME_COUNT) as nat);
        assert(frames.skip(1) =~= frames_of(assignment, count - MAX_FRAME_COUNT));
        assert(decoded(frames) =~= plain);
    }
}

/// The labels that frames carry.
pub open spec fn packed(labels: Seq<u32>) -> Seq<u16> {
    Seq::new(labels.len(), |i: int| labels[i] as u16)
}

/// The samples of a history as frames carry them.
pub open spec fn packed_samples(history: Seq<Seq<u32>>, interval: int) -> Seq<Seq<u16>> {
    let rows = records::history_rows(history, interval);
    Seq::new(rows.len(), |i: int| packed(rows[i].1))
}

/// Packs labels for frames.
pub fn pack(labels: &Vec<u32>) -> (r: Vec<u16>)
    ensures
        r@ == packed(labels@),
{
    let mut r: Vec<u16> = Vec::new();
    let mut i: usize = 0;
    while i < labels.len()
        invariant
            i <= labels.len(),
            r.len() == i,
            forall|j: int| 0 <= j < i ==> (#[trigger] r[j]) == labels[j] as u16,
        decreases labels.len() - i,
    {
        r.push(
            #[verifier::truncate]
            (labels[i] as u16),
        );
        i += 1;
    }
    assert(r@ =~= packed(labels@));
    r
}

/// A plan whose repeat count is not known yet, and the chain positions that
/// were covered so far.
#[derive(Debug)]
pub struct TwoDeltaFrameBuffer {
    pending_assignment: Vec<u16>,
    pending_step: u64,
    final_step: u64,
    sample_interval: u64,
    total_samples: u64,
}

impl TwoDeltaFrameBuffer {
    /// The plan that waits for its repeat count.
    pub closed spec fn pending(&self) -> Seq<u16> {
        self.pending_assignment@
    }

    /// The position at which the waiting plan became current.
    pub closed spec fn since(&self) -> int {
        self.pending_step as int
    }

    /// The last position covered.
    pub closed spec fn last(&self) -> int {
        self.final_step as int
    }

    pub closed spec fn interval(&self) -> int {
        self.sample_interval as int
    }

    /// The number of samples in the frames emitted so far.
    pub closed spec fn samples(&self) -> int {
        self.total_samples as int
    }

    pub open spec fn valid(&self) -> bool {
        &&& self.interval() > 0
        &&& 0 <= self.since() <= self.last() < u64::MAX
        &&& 0 <= self.samples() <= self.since()
    }

    /// The number of sampled positions that the waiting plan holds up to `end`.
    pub open spec fn waiting(&self, end: int) -> int {
        sampling::sampled(self.since(), end, self.interval()).len() as int
    }

    /// The buffer and the frames emitted so far account for a history: the
    /// frames hold its samples before the waiting plan, and the waiting plan
    /// holds the positions from there on.
    pub open spec fn follows(&self, history: Seq<Seq<u32>>, emitted: Seq<Entry>) -> bool {
        &&& self.valid()
        &&& history.len() == self.last() + 1
        &&& forall|p: int|
            self.since() <= p <= self.last() ==> packed(#[trigger] history[p]) == self.pending()
        &&& decoded(emitted) == packed_samples(history.take(self.since()), self.interval())
        &&& self.samples() == decoded(emitted).len()
    }

    pub fn new() -> (r: TwoDeltaFrameBuffer)
        ensures
            r.valid(),
            r.pending() == Seq::<u16>::empty(),
            r.since() == 0,
            r.last() == 0,
            r.interval() == 1,
            r.samples() == 0,
    {
        TwoDeltaFrameBuffer {
            pending_assignment: Vec::new(),
            pending_step: 0,
            final_step: 0,
            sample_interval: 1,
            total_samples: 0,
        }
    }

    pub fn set_sample_interval(&mut self, sample_interval: u64)
        requires
            sample_interval > 0,
        ensures
            final(self).interval() == sample_interval,
            final(self).pending() == old(self).pending(),
            final(self).since() == old(self).since(),
            final(self).last() == old(self).last(),
            final(self).samples() == old(self).samples(),
    {
        self.sample_interval = sample_interval;
    }

    /// Makes the seed plan the waiting plan.
    pub fn set_initial(&mut self, assignment: Vec<u16>)
        ensures
            final(self).pending() == assignment@,
            final(self).since() == old(self).since(),
            final(self).last() == old(self).last(),
            final(self).interval() == old(self).interval(),
            final(self).samples() == old(self).samples(),
    {
        self.pending_assignment = assignment;
    }

    /// The frames of `count` samples of one plan.
    fn write_counted(&mut self, assignment: &Vec<u16>, count: u64) -> (r: Vec<Record>)
        requires
            old(self).samples() + count <= u64::MAX,
        ensures
            records::entries(r@) == frames_of(assignment@, count as int),
            final(self).samples() == old(self).samples() + count,
            final(self).pending() == old(self).pending(),
            final(self).since() == old(self).since(),
            final(self).last() == old(self).last(),
            final(self).interval() == old(self).interval(),
    {
        let mut r: Vec<Record> = Vec::new();
        let ghost whole = frames_of(assignment@, count as int);
        assert(records::entries(r@) + whole =~= whole);
        let mut remaining: u64 = count;
        while remaining > MAX_FRAME_COUNT
            invariant
                whole == frames_of(assignment@, count as int),
                records::entries(r@) + frames_of(assignment@, remaining as int) == whole,
            decreases remaining,
        {
            let ghost prior = r@;
            let frame: Record = Record::Frame(vectors::copied(assignment), 65535);
            r.push(frame);
            proof {
                records::entries_pushed(prior, frame);
                let rest = frames_of(assignment@, remaining - MAX_FRAME_COUNT);
                assert(records::entries(r@) + rest =~= records::entries(prior) + frames_of(
                    assignment@,
                    remaining as int,
                ));
            }
            remaining = remaining - MAX_FRAME_COUNT;
        }
        if remaining > 0 {
            let ghost prior = r@;
            let frame: Record = Record::Frame(vectors::copied(assignment), remaining as u16);
            r.push(frame);
            proof {
                records::entries_pushed(prior, frame);
                assert(records::entries(r@) =~= records::entries(prior) + frames_of(
                    assignment@,
                    remaining as int,
                ));
            }
        } else {
            assert(records::entries(r@) =~= whole);
        }
        self.total_samples = self.total_samples + count;
        r
    }

    /// An accepted step leaves the waiting plan: returns the frames of the
    /// sampled positions that it held, and lets the new plan wait.
    pub fn push_step(&mut self, step: u64, next_assignment: Vec<u16>, self_loops: u64) -> (r: Vec<
        Record,
    >)
        requires
            old(self).valid(),
            step == old(self).last() + self_loops + 1,
            step < u64::MAX,
        ensures
            final(self).valid(),
            records::entries(r@) == frames_of(old(self).pending(), old(self).waiting(step - 1)),
            final(self).samples() == old(self).samples() + old(self).waiting(step - 1),
            final(self).pending() == next_assignment@,
            final(self).since() == step,
            final(self).last() == step,
            final(self).interval() == old(self).interval(),
    {
        let count: u64 = sampling::sampled_step_count(
            self.pending_step,
            step - 1,
            self.sample_interval,
        );
        proof {
            sample_count_is_bounded(self.since(), step - 1, self.interval());
        }
        let mut next: Vec<u16> = next_assignment;
        std::mem::swap(&mut self.pending_assignment, &mut next);
        let r: Vec<Record> = self.write_counted(&next, count);
        self.pending_step = step;
        self.final_step = step;
        r
    }

    /// Extends the waiting plan through trailing self-loops.
    pub fn add_self_loops(&mut self, step: u64, count: u64)
        requires
            old(self).valid(),
            step == old(self).last() + count,
            step < u64::MAX,
        ensures
            final(self).valid(),
            final(self).last() == step,
            final(self).pending() == old(self).pending(),
            final(self).since() == old(self).since(),
            final(self).interval() == old(self).interval(),
            final(self).samples() == old(self).samples(),
    {
        self.final_step = step;
    }

    /// The frames of the sampled positions that the last plan held.
    pub fn flush_final(&mut self) -> (r: Vec<Record>)
        requires
            old(self).valid(),
        ensures
            records::entries(r@) == frames_of(
                old(self).pending(),
                old(self).waiting(old(self).last()),
            ),
            final(self).samples() == old(self).samples() + old(self).waiting(old(self).last()),
            final(self).pending() == Seq::<u16>::empty(),
            final(self).since() == old(self).since(),
            final(self).last() == old(self).last(),
            final(self).interval() == old(self).interval(),
    {
        let count: u64 = sampling::sampled_step_count(
            self.pending_step,
            self.final_step,
            self.sample_interval,
        );
        proof {
            sample_count_is_bounded(self.since(), self.last(), self.interval());
        }
        let mut taken: Vec<u16> = Vec::new();
        std::mem::swap(&mut self.pending_assignment, &mut taken);
        self.write_counted(&taken, count)
    }

    /// The number of samples in the frames emitted so far.
    pub fn total_samples(&self) -> (r: u64)
        ensures
            r == self.samples(),
    {
        self.total_samples
    }
}

proof fn sample_count_is_bounded(start: int, end: int, interval: int)
    requires
        start <= end + 1,
    ensures
        sampling::sampled(start, end, interval).len() <= end - start + 1,
    decreases end - start + 1,
{
    if start <= end {
        sample_count_is_bounded(start, end - 1, interval);
    }
}

proof fn packed_samples_split(history: Seq<Seq<u32>>, mid: int, interval: int, plan: Seq<u16>)
    requires
        interval > 0,
        0 <= mid <= history.len(),
        forall|p: int| mid <= p < history.len() ==> packed(#[trigger] history[p]) == plan,
    ensures
        packed_samples(history, interval) == packed_samples(history.take(mid), interval)
            + Seq::new(
            sampling::sampled(mid, history.len() - 1, interval).len(),
            |i: int| plan,
        ),
{
    let n = history.len();
    sampling::sampled_splits(0, mid - 1, n - 1, interval);
    sampling::sampled_are_the_multiples(0, mid - 1, interval);
    sampling::sampled_are_the_multiples(mid, n - 1, interval);
    let first = sampling::sampled(0, mid - 1, interval);
    let second = sampling::sampled(mid, n - 1, interval);
    assert forall|i: int| 0 <= i < first.len() implies history.take(mid)[#[trigger] first[i]]
        == history[first[i]] by {
        assert(first.contains(first[i]));
    }
    assert forall|i: int| 0 <= i < second.len() implies packed(history[#[trigger] second[i]])
        == plan by {
        assert(second.contains(second[i]));
    }
    assert(packed_samples(history, interval) =~= packed_samples(history.take(mid), interval)
        + Seq::new(second.len(), |i: int| plan));
}

/// An accepted step keeps the frames in step with the run: a buffer that
/// follows a history follows it after the step, with the step's frames
/// appended.
pub proof fn push_step_follows(
    before: TwoDeltaFrameBuffer,
    after: TwoDeltaFrameBuffer,
    history: Seq<Seq<u32>>,
    emitted: Seq<Entry>,
    loops: nat,
    next: Seq<u32>,
)
    requires
        before.follows(history, emitted),
        after.valid(),
        after.pending() == packed(next),
        after.since() == before.last() + loops + 1,
        after.last() == after.since(),
        after.interval() == before.interval(),
        after.samples() == before.samples() + before.waiting(after.since() - 1),
    ensures
        after.follows(
            records::waited(history, loops).push(next),
            emitted + frames_of(before.pending(), before.waiting(after.since() - 1)),
        ),
{
    let step = after.since();
    let frames = frames_of(before.pending(), before.waiting(step - 1));
    let middle = records::waited(history, loops);
    let longer = middle.push(next);
    decoded_splits(emitted, frames);
    frames_decode_to_the_count(before.pending(), before.waiting(step - 1) as nat);
    assert forall|p: int| before.since() <= p < middle.len() implies packed(
        #[trigger] middle[p],
    ) == before.pending() by {
        if p < history.len() {
            assert(middle[p] == history[p]);
        } else {
            assert(middle[p] == history[before.last()]);
        }
    }
    packed_samples_split(middle, before.since(), before.interval(), before.pending());
    assert(middle.take(before.since()) =~= history.take(before.since()));
    assert(longer.take(step) =~= middle);
    assert forall|p: int| step <= p <= after.last() implies packed(#[trigger] longer[p])
        == after.pending() by {}
}

/// Trailing self-loops keep the frames in step with the run.
pub proof fn add_self_loops_follows(
    before: TwoDeltaFrameBuffer,
    after: TwoDeltaFrameBuffer,
    history: Seq<Seq<u32>>,
    emitted: Seq<Entry>,
    loops: nat,
)
    requires
        before.follows(history, emitted),
        after.valid(),
        after.pending() == before.pending(),
        after.since() == before.since(),
        after.last() == before.last() + loops,
        after.interval() == before.interval(),
        after.samples() == before.samples(),
    ensures
        after.follows(records::waited(history, loops), emitted),
{
    let longer = records::waited(history, loops);
    assert(longer.take(before.since()) =~= history.take(before.since()));
    assert forall|p: int| after.since() <= p <= after.last() implies packed(#[trigger] longer[p])
        == after.pending() by {
        if p < history.len() {
            assert(longer[p] == history[p]);
        } else {
            assert(longer[p] == history[before.last()]);
        }
    }
}

/// The frames of a whole run decode to the samples of its history, and the
/// sample total counts them.
pub proof fn flushed_frames_decode_to_the_history(
    before: TwoDeltaFrameBuffer,
    history: Seq<Seq<u32>>,
    emitted: Seq<Entry>,
)
    requires
        before.follows(history, emitted),
    ensures
        decoded(emitted + frames_of(before.pending(), before.waiting(before.last())))
            == packed_samples(history, before.interval()),
        before.samples() + before.waiting(before.last()) == packed_samples(
            history,
            before.interval(),
        ).len(),
{
    let frames = frames_of(before.pending(), before.waiting(before.last()));
    decoded_splits(emitted, frames);
    frames_decode_to_the_count(before.pending(), before.waiting(before.last()) as nat);
    packed_samples_split(history, before.since(), before.interval(), before.pending());
}

} // verus!
