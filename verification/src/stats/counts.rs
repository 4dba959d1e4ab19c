//! Counts of the chain steps that left the plan unchanged, by reason.

use vstd::prelude::*;

verus! {

/// Why a chain step left the plan unchanged.
#[derive(Clone, Copy, Debug, PartialEq, Eq, Structural)]
pub enum SelfLoopReason {
    /// The sampled districts are not adjacent.
    NonAdjacent,
    /// The spanning tree has no balanced cut.
    NoSplit,
    /// The seam length rejection of reversible chains.
    SeamLength,
    /// The objective rejection of tilted chains.
    TiltedRejection,
    /// The proposal violates the chain constraint.
    ConstraintViolation,
}

/// The number of self-loops for each reason.
#[derive(Clone, Copy, Debug, PartialEq, Eq, Structural)]
pub struct SelfLoopCounts {
    pub non_adjacent: usize,
    pub no_split: usize,
    pub seam_length: usize,
    pub tilted_rejection: usize,
    pub constraint_violation: usize,
}

/// The counts with none counted.
pub open spec fn no_loops() -> SelfLoopCounts {
    SelfLoopCounts {
        non_adjacent: 0,
        no_split: 0,
        seam_length: 0,
        tilted_rejection: 0,
        constraint_violation: 0,
    }
}

impl Default for SelfLoopCounts {
    fn default() -> (r: SelfLoopCounts)
        ensures
            r == no_loops(),
    {
        SelfLoopCounts {
            non_adjacent: 0,
            no_split: 0,
            seam_length: 0,
            tilted_rejection: 0,
            constraint_violation: 0,
        }
    }
}

impl SelfLoopCounts {
    /// The count for a reason.
    pub open spec fn count(&self, reason: SelfLoopReason) -> int {
        match reason {
            SelfLoopReason::NonAdjacent => self.non_adjacent as int,
            SelfLoopReason::NoSplit => self.no_split as int,
            SelfLoopReason::SeamLength => self.seam_length as int,
            SelfLoopReason::TiltedRejection => self.tilted_rejection as int,
            SelfLoopReason::ConstraintViolation => self.constraint_violation as int,
        }
    }

    /// The number of self-loops over all reasons.
    pub open spec fn total(&self) -> int {
        self.non_adjacent + self.no_split + self.seam_length + self.tilted_rejection
            + self.constraint_violation
    }

    /// The reason of a self-loop when they are listed by reason, in the order
    /// in which the reasons are declared.
    pub open spec fn reason_at(&self, index: int) -> SelfLoopReason {
        if index < self.non_adjacent {
            SelfLoopReason::NonAdjacent
        } else if index < self.non_adjacent + self.no_split {
            SelfLoopReason::NoSplit
        } else if index < self.non_adjacent + self.no_split + self.seam_length {
            SelfLoopReason::SeamLength
        } else if index < self.non_adjacent + self.no_split + self.seam_length
            + self.tilted_rejection {
            SelfLoopReason::TiltedRejection
        } else {
            SelfLoopReason::ConstraintViolation
        }
    }

    /// The counts `from` with one reason's count changed by `by`.
    pub open spec fn shifted(&self, from: SelfLoopCounts, reason: SelfLoopReason, by: int) -> bool {
        forall|r: SelfLoopReason| #[trigger]
            self.count(r) == from.count(r) + (if r == reason {
                by
            } else {
                0
            })
    }

    pub fn get(&self, reason: SelfLoopReason) -> (n: usize)
        ensures
            n == self.count(reason),
    {
        match reason {
            SelfLoopReason::NonAdjacent => self.non_adjacent,
            SelfLoopReason::NoSplit => self.no_split,
            SelfLoopReason::SeamLength => self.seam_length,
            SelfLoopReason::TiltedRejection => self.tilted_rejection,
            SelfLoopReason::ConstraintViolation => self.constraint_violation,
        }
    }

    /// Counts `n` more self-loops for a reason.
    pub fn inc_by(&mut self, reason: SelfLoopReason, n: usize)
        requires
            old(self).count(reason) + n <= usize::MAX,
        ensures
            final(self).shifted(*old(self), reason, n as int),
            final(self).total() == old(self).total() + n,
    {
        match reason {
            SelfLoopReason::NonAdjacent => {
                self.non_adjacent = self.non_adjacent + n;
            },
            SelfLoopReason::NoSplit => {
                self.no_split = self.no_split + n;
            },
            SelfLoopReason::SeamLength => {
                self.seam_length = self.seam_length + n;
            },
            SelfLoopReason::TiltedRejection => {
                self.tilted_rejection = self.tilted_rejection + n;
            },
            SelfLoopReason::ConstraintViolation => {
                self.constraint_violation = self.constraint_violation + n;
            },
        }
    }

    /// Counts one more self-loop for a reason.
    pub fn inc(&mut self, reason: SelfLoopReason)
        requires
            old(self).count(reason) < usize::MAX,
        ensures
            final(self).shifted(*old(self), reason, 1),
            final(self).total() == old(self).total() + 1,
    {
        self.inc_by(reason, 1);
    }

    /// The number of self-loops over all reasons.
    pub fn sum(&self) -> (n: usize)
        requires
            self.total() <= usize::MAX,
        ensures
            n == self.total(),
    {
        self.non_adjacent + self.no_split + self.seam_length + self.tilted_rejection
            + self.constraint_violation
    }

    /// The counts of both, reason by reason.
    pub fn plus(&self, other: &SelfLoopCounts) -> (r: SelfLoopCounts)
        requires
            self.total() + other.total() <= usize::MAX,
        ensures
            forall|reason: SelfLoopReason| #[trigger]
                r.count(reason) == self.count(reason) + other.count(reason),
            r.total() == self.total() + other.total(),
    {
        SelfLoopCounts {
            non_adjacent: self.non_adjacent + other.non_adjacent,
            no_split: self.no_split + other.no_split,
            seam_length: self.seam_length + other.seam_length,
            tilted_rejection: self.tilted_rejection + other.tilted_rejection,
            constraint_violation: self.constraint_violation + other.constraint_violation,
        }
    }

    /// Takes out the self-loop at an index, counted through the reasons in
    /// order, and returns its reason.
    pub fn index_and_dec(&mut self, index: usize) -> (r: Option<SelfLoopReason>)
        ensures
            (r is None) == (index >= old(self).total()),
            r is None ==> *final(self) == *old(self),
            r matches Some(reason) ==> {
                &&& reason == old(self).reason_at(index as int)
                &&& old(self).count(reason) > 0
                &&& final(self).shifted(*old(self), reason, -1)
                &&& final(self).total() == old(self).total() - 1
            },
    {
        let mut left: usize = index;
        if left < self.non_adjacent {
            self.non_adjacent = self.non_adjacent - 1;
            return Some(SelfLoopReason::NonAdjacent);
        }
        left = left - self.non_adjacent;
        if left < self.no_split {
            self.no_split = self.no_split - 1;
            return Some(SelfLoopReason::NoSplit);
        }
        left = left - self.no_split;
        if left < self.seam_length {
            self.seam_length = self.seam_length - 1;
            return Some(SelfLoopReason::SeamLength);
        }
        left = left - self.seam_length;
        if left < self.tilted_rejection {
            self.tilted_rejection = self.tilted_rejection - 1;
            return Some(SelfLoopReason::TiltedRejection);
        }
        left = left - self.tilted_rejection;
        if left < self.constraint_violation {
            self.constraint_violation = self.constraint_violation - 1;
            return Some(SelfLoopReason::ConstraintViolation);
        }
        None
    }
}

impl SelfLoopCounts {
    /// The self-loops of a reason when they are listed by reason.
    pub open spec fn places_of(&self, reason: SelfLoopReason) -> Set<int> {
        Set::new(|i: int| 0 <= i < self.total() && self.reason_at(i) == reason)
    }

    /// Each reason has as many places among the self-loops as it was counted, so
    /// a place that is picked among all falls on a reason in proportion to its
    /// count.
    pub proof fn reasons_are_listed_as_counted(&self, reason: SelfLoopReason)
        ensures
            self.places_of(reason).finite(),
            self.places_of(reason).len() == self.count(reason),
    {
        let start = match reason {
            SelfLoopReason::NonAdjacent => 0,
            SelfLoopReason::NoSplit => self.non_adjacent as int,
            SelfLoopReason::SeamLength => self.non_adjacent + self.no_split,
            SelfLoopReason::TiltedRejection => self.non_adjacent + self.no_split
                + self.seam_length,
            SelfLoopReason::ConstraintViolation => self.non_adjacent + self.no_split
                + self.seam_length + self.tilted_rejection,
        };
        let range = vstd::set_lib::set_int_range(start, start + self.count(reason));
        vstd::set_lib::lemma_int_range(start, start + self.count(reason));
        assert(self.places_of(reason) =~= range);
    }

    /// The total is the sum of the counts of all reasons.
    pub proof fn totals_add_up(&self)
        ensures
            self.total() == self.count(SelfLoopReason::NonAdjacent) + self.count(
                SelfLoopReason::NoSplit,
            ) + self.count(SelfLoopReason::SeamLength) + self.count(
                SelfLoopReason::TiltedRejection,
            ) + self.count(SelfLoopReason::ConstraintViolation),
    {
    }
}

} // verus!
