//! Stable ordering of positions by an integer key.

use vstd::prelude::*;

verus! {

/// Whether position `x` comes before position `y`: by key, then by position.
pub open spec fn precedes(keys: Seq<u64>, x: usize, y: usize) -> bool {
    keys[x as int] < keys[y as int] || (keys[x as int] == keys[y as int] && x < y)
}

/// Whether `order` lists distinct positions so that each precedes those after it.
pub open spec fn ascending(keys: Seq<u64>, order: Seq<usize>) -> bool {
    forall|i: int, j: int|
        0 <= i < j < order.len() ==> precedes(keys, #[trigger] order[i], #[trigger] order[j])
}

/// Whether `order` lists each position of `keys` once, by key, equal keys
/// keeping their places.
pub open spec fn stable_order_of(keys: Seq<u64>, order: Seq<usize>) -> bool {
    &&& order.len() == keys.len()
    &&& ascending(keys, order)
    &&& forall|x: usize| #[trigger] order.contains(x) <==> x < keys.len()
}

fn before(keys: &Vec<u64>, x: usize, y: usize) -> (r: bool)
    requires
        x < keys.len(),
        y < keys.len(),
    ensures
        r == precedes(keys@, x, y),
{
    keys[x] < keys[y] || (keys[x] == keys[y] && x < y)
}

/// Merges two ascending lists of positions that share none.
fn merge(keys: &Vec<u64>, a: &Vec<usize>, b: &Vec<usize>, mid: usize) -> (out: Vec<usize>)
    requires
        ascending(keys@, a@),
        ascending(keys@, b@),
        forall|i: int| 0 <= i < a.len() ==> (#[trigger] a[i]) < mid,
        forall|i: int| 0 <= i < b.len() ==> mid <= (#[trigger] b[i]) < keys.len(),
        mid <= keys.len(),
    ensures
        ascending(keys@, out@),
        out.len() == a.len() + b.len(),
        forall|x: usize| #[trigger] out@.contains(x) <==> a@.contains(x) || b@.contains(x),
{
    let mut out: Vec<usize> = Vec::new();
    let mut i: usize = 0;
    let mut j: usize = 0;
    while i < a.len() || j < b.len()
        invariant
            i <= a.len(),
            j <= b.len(),
            mid <= keys.len(),
            ascending(keys@, a@),
            ascending(keys@, b@),
            forall|k: int| 0 <= k < a.len() ==> (#[trigger] a[k]) < mid,
            forall|k: int| 0 <= k < b.len() ==> mid <= (#[trigger] b[k]) < keys.len(),
            out.len() == i + j,
            ascending(keys@, out@),
            forall|k: int, l: int|
                0 <= k < out.len() && i <= l < a.len() ==> precedes(
                    keys@,
                    #[trigger] out[k],
                    #[trigger] a[l],
                ),
            forall|k: int, l: int|
                0 <= k < out.len() && j <= l < b.len() ==> precedes(
                    keys@,
                    #[trigger] out[k],
                    #[trigger] b[l],
                ),
            forall|k: int| 0 <= k < i ==> out@.contains(#[trigger] a[k]),
            forall|k: int| 0 <= k < j ==> out@.contains(#[trigger] b[k]),
            forall|k: int|
                0 <= k < out.len() ==> a@.contains(#[trigger] out[k]) || b@.contains(out[k]),
        decreases (a.len() - i) + (b.len() - j),
    {
        let ghost prior = out@;
        let from_a: bool = if i < a.len() {
            if j < b.len() {
                before(keys, a[i], b[j])
            } else {
                true
            }
        } else {
            false
        };
        if from_a {
            out.push(a[i]);
            assert(a@.contains(a[i as int]));
            i += 1;
        } else {
            out.push(b[j]);
            assert(b@.contains(b[j as int]));
            j += 1;
        }
        assert(out@ == prior.push(out@.last()));
        assert(out@[prior.len() as int] == out@.last());
        assert forall|x: usize| prior.contains(x) implies out@.contains(x) by {
            let k = choose|k: int| 0 <= k < prior.len() && prior[k] == x;
            assert(out@[k] == x);
        }
    }
    assert forall|x: usize| a@.contains(x) || b@.contains(x) implies #[trigger] out@.contains(
        x,
    ) by {
        if a@.contains(x) {
            let k = choose|k: int| 0 <= k < a.len() && a[k] == x;
            assert(out@.contains(a[k]));
        } else {
            let k = choose|k: int| 0 <= k < b.len() && b[k] == x;
            assert(out@.contains(b[k]));
        }
    }
    out
}

fn order_range(keys: &Vec<u64>, lo: usize, hi: usize) -> (out: Vec<usize>)
    requires
        lo <= hi <= keys.len(),
    ensures
        ascending(keys@, out@),
        out.len() == hi - lo,
        forall|x: usize| #[trigger] out@.contains(x) <==> lo <= x < hi,
    decreases hi - lo,
{
    let mut out: Vec<usize> = Vec::new();
    if hi - lo == 0 {
        return out;
    }
    if hi - lo == 1 {
        out.push(lo);
        assert(out@[0] == lo);
        return out;
    }
    let mid: usize = lo + (hi - lo) / 2;
    let left: Vec<usize> = order_range(keys, lo, mid);
    let right: Vec<usize> = order_range(keys, mid, hi);
    assert forall|i: int| 0 <= i < left.len() implies (#[trigger] left[i]) < mid by {
        assert(left@.contains(left[i]));
    }
    assert forall|i: int| 0 <= i < right.len() implies mid <= (#[trigger] right[i]) < keys.len() by {
        assert(right@.contains(right[i]));
    }
    merge(keys, &left, &right, mid)
}

/// The positions of `keys` by ascending key; equal keys keep their places.
pub fn stable_order(keys: &Vec<u64>) -> (order: Vec<usize>)
    ensures
        stable_order_of(keys@, order@),
{
    order_range(keys, 0, keys.len())
}

/// There is one stable order of a list of keys.
pub proof fn stable_order_is_unique(keys: Seq<u64>, a: Seq<usize>, b: Seq<usize>)
    requires
        stable_order_of(keys, a),
        stable_order_of(keys, b),
    ensures
        a == b,
{
    ascending_lists_agree(keys, a, b);
}

proof fn ascending_lists_agree(keys: Seq<u64>, a: Seq<usize>, b: Seq<usize>)
    requires
        a.len() == b.len(),
        ascending(keys, a),
        ascending(keys, b),
        forall|x: usize| #[trigger] a.contains(x) <==> b.contains(x),
    ensures
        a == b,
    decreases a.len(),
{
    if a.len() > 0 {
        let n = a.len() - 1;
        assert(a.contains(a[n]));
        assert(b.contains(b[n]) && a.contains(b[n]));
        let i = choose|i: int| 0 <= i < b.len() && b[i] == a[n];
        let j = choose|j: int| 0 <= j < a.len() && a[j] == b[n];
        assert(a[n] == b[n]) by {
            if i < n {
                assert(precedes(keys, b[i], b[n]));
                if j < n {
                    assert(precedes(keys, a[j], a[n]));
                }
            }
        }
        let p = a.drop_last();
        let q = b.drop_last();
        assert forall|x: usize| #[trigger] p.contains(x) <==> q.contains(x) by {
            if p.contains(x) {
                let k = choose|k: int| 0 <= k < p.len() && p[k] == x;
                assert(a[k] == x && precedes(keys, a[k], a[n]));
                assert(a.contains(x));
                let l = choose|l: int| 0 <= l < b.len() && b[l] == x;
                assert(q[l] == x);
            }
            if q.contains(x) {
                let k = choose|k: int| 0 <= k < q.len() && q[k] == x;
                assert(b[k] == x && precedes(keys, b[k], b[n]));
                assert(b.contains(x) && a.contains(x));
                let l = choose|l: int| 0 <= l < a.len() && a[l] == x;
                assert(p[l] == x);
            }
        }
        assert(ascending(keys, p));
        assert(ascending(keys, q));
        ascending_lists_agree(keys, p, q);
        assert(a =~= p.push(a[n]));
        assert(b =~= q.push(b[n]));
    }
}

} // verus!
