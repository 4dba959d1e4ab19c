//! Counting marked districts.

use vstd::prelude::*;

verus! {

/// The number of marks below `k`.
pub open spec fn tally(marks: Seq<bool>, k: int) -> int
    decreases k,
{
    if k <= 0 {
        0
    } else {
        tally(marks, k - 1) + one_if(marks[k - 1])
    }
}

pub open spec fn one_if(mark: bool) -> int {
    if mark {
        1
    } else {
        0
    }
}

/// The number of marks.
pub open spec fn marked(marks: Seq<bool>) -> int {
    tally(marks, marks.len() as int)
}

pub proof fn tally_bounds(marks: Seq<bool>, k: int)
    requires
        0 <= k <= marks.len(),
    ensures
        0 <= tally(marks, k) <= k,
    decreases k,
{
    if k > 0 {
        tally_bounds(marks, k - 1);
    }
}

proof fn tally_with_one_changed(marks: Seq<bool>, d: int, mark: bool, k: int)
    requires
        0 <= d < marks.len(),
        0 <= k <= marks.len(),
    ensures
        tally(marks.update(d, mark), k) == tally(marks, k) + (if d < k {
            one_if(mark) - one_if(marks[d])
        } else {
            0
        }),
    decreases k,
{
    if k > 0 {
        tally_with_one_changed(marks, d, mark, k - 1);
    }
}

/// Changing the marks of two places changes the count by those marks.
pub proof fn marked_with_two_changed(marks: Seq<bool>, a: int, x: bool, b: int, y: bool)
    requires
        0 <= a < marks.len(),
        0 <= b < marks.len(),
        a != b,
    ensures
        marked(marks.update(a, x).update(b, y)) == marked(marks) - one_if(marks[a]) - one_if(
            marks[b],
        ) + one_if(x) + one_if(y),
        marked(marks) >= one_if(marks[a]) + one_if(marks[b]),
        marked(marks.update(a, x).update(b, y)) <= marks.len(),
{
    let n = marks.len() as int;
    tally_with_one_changed(marks, a, x, n);
    tally_with_one_changed(marks.update(a, x), b, y, n);
    tally_with_one_changed(marks, a, false, n);
    tally_with_one_changed(marks.update(a, false), b, false, n);
    tally_bounds(marks.update(a, false).update(b, false), n);
    tally_bounds(marks.update(a, x).update(b, y), n);
}

/// The places of the marks.
pub open spec fn marked_places(marks: Seq<bool>) -> Set<int> {
    Set::new(|d: int| 0 <= d < marks.len() && marks[d])
}

/// The number of marks is the size of the set of marked places.
pub proof fn marks_are_counted_once(marks: Seq<bool>)
    ensures
        marked_places(marks).finite(),
        marked(marks) == marked_places(marks).len(),
    decreases marks.len(),
{
    if marks.len() == 0 {
        assert(marked_places(marks) =~= Set::<int>::empty());
    } else {
        let init = marks.drop_last();
        let last = marks.len() - 1;
        marks_are_counted_once(init);
        same_marks_count_alike(marks, init, last as int);
        if marks[last as int] {
            assert(marked_places(marks) =~= marked_places(init).insert(last as int));
        } else {
            assert(marked_places(marks) =~= marked_places(init));
        }
    }
}

proof fn same_marks_count_alike(x: Seq<bool>, y: Seq<bool>, k: int)
    requires
        k <= x.len(),
        k <= y.len(),
        forall|i: int| 0 <= i < k ==> x[i] == y[i],
    ensures
        tally(x, k) == tally(y, k),
    decreases k,
{
    if k > 0 {
        same_marks_count_alike(x, y, k - 1);
    }
}

} // verus!
