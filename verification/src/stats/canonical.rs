//! District labels renumbered by order of appearance.

use vstd::prelude::*;

verus! {

/// The distinct labels of a list, in the order in which they first appear.
pub open spec fn appearance(labels: Seq<u32>) -> Seq<u32>
    decreases labels.len(),
{
    if labels.len() == 0 {
        Seq::empty()
    } else {
        let seen = appearance(labels.drop_last());
        if seen.contains(labels.last()) {
            seen
        } else {
            seen.push(labels.last())
        }
    }
}

/// Each label replaced by its place in the order of first appearance.
pub open spec fn canonical(labels: Seq<u32>) -> Seq<u32> {
    Seq::new(labels.len(), |i: int| appearance(labels).index_of(labels[i]) as u32)
}

/// Distinct labels below `n` are at most `n`.
proof fn distinct_labels_are_few(labels: Seq<u32>, n: int)
    requires
        n >= 0,
        labels.no_duplicates(),
        forall|i: int| 0 <= i < labels.len() ==> (#[trigger] labels[i]) < n,
    ensures
        labels.len() <= n,
{
    let values = labels.map_values(|x: u32| x as int);
    values.unique_seq_to_set();
    vstd::set_lib::lemma_int_range(0, n);
    assert(values.to_set().subset_of(vstd::set_lib::set_int_range(0, n)));
    vstd::set_lib::lemma_len_subset(values.to_set(), vstd::set_lib::set_int_range(0, n));
}

proof fn appearance_lists_the_labels(labels: Seq<u32>)
    ensures
        appearance(labels).no_duplicates(),
        appearance(labels).len() <= labels.len(),
        forall|x: u32| #[trigger] appearance(labels).contains(x) <==> labels.contains(x),
    decreases labels.len(),
{
    if labels.len() > 0 {
        let init = labels.drop_last();
        let seen = appearance(init);
        appearance_lists_the_labels(init);
        assert(labels =~= init.push(labels.last()));
        assert forall|x: u32| #[trigger] appearance(labels).contains(x) <==> labels.contains(
            x,
        ) by {
            assert(seen.contains(x) <==> init.contains(x));
            crate::vectors::contains_pushed(init, labels.last(), x);
            crate::vectors::contains_pushed(seen, labels.last(), x);
        }
    }
}

/// The order of appearance in a prefix starts that of the whole list.
proof fn appearance_grows(labels: Seq<u32>, k: int)
    requires
        0 <= k <= labels.len(),
    ensures
        appearance(labels.take(k)).len() <= appearance(labels).len(),
        appearance(labels).take(appearance(labels.take(k)).len() as int) == appearance(
            labels.take(k),
        ),
    decreases labels.len() - k,
{
    let small = appearance(labels.take(k));
    if k == labels.len() {
        assert(labels.take(k) =~= labels);
        assert(small.take(small.len() as int) =~= small);
    } else {
        appearance_grows(labels, k + 1);
        let next = appearance(labels.take(k + 1));
        assert(labels.take(k + 1).drop_last() =~= labels.take(k));
        assert(next.take(small.len() as int) =~= small);
        assert(appearance(labels).take(small.len() as int) =~= appearance(labels).take(
            next.len() as int,
        ).take(small.len() as int));
    }
}

/// A label keeps its place in the order of appearance as the list grows.
proof fn place_is_kept(labels: Seq<u32>, k: int, p: int)
    requires
        0 <= k <= labels.len(),
        0 <= p < appearance(labels.take(k)).len(),
    ensures
        appearance(labels).index_of(appearance(labels.take(k))[p]) == p,
{
    let small = appearance(labels.take(k));
    appearance_grows(labels, k);
    appearance_lists_the_labels(labels);
    let x = small[p];
    assert(appearance(labels)[p] == appearance(labels).take(small.len() as int)[p]);
    assert(appearance(labels)[p] == x);
    assert(appearance(labels).contains(x));
}

/// Two nodes share a canonical label exactly where they share a label.
pub proof fn canonical_keeps_the_grouping(labels: Seq<u32>, i: int, j: int)
    requires
        0 <= i < labels.len(),
        0 <= j < labels.len(),
    ensures
        canonical(labels)[i] == canonical(labels)[j] <==> labels[i] == labels[j],
{
    let seen = appearance(labels);
    appearance_lists_the_labels(labels);
    assert(labels.contains(labels[i]) && labels.contains(labels[j]));
    assert(seen.contains(labels[i]) && seen.contains(labels[j]));
    let p = seen.index_of(labels[i]);
    let q = seen.index_of(labels[j]);
    distinct_labels_are_few(seen, u32::MAX + 1);
    assert(0 <= p < seen.len() && seen[p] == labels[i]);
    assert(0 <= q < seen.len() && seen[q] == labels[j]);
}

/// Labelings that group the nodes alike have one canonical form.
pub proof fn canonical_depends_on_the_grouping(a: Seq<u32>, b: Seq<u32>)
    requires
        a.len() == b.len(),
        forall|i: int, j: int|
            0 <= i < a.len() && 0 <= j < a.len() ==> (#[trigger] a[i] == #[trigger] a[j] <==> b[i]
                == b[j]),
    ensures
        canonical(a) == canonical(b),
{
    appearances_match(a, b, a.len() as int);
    assert(a.take(a.len() as int) =~= a);
    assert(b.take(a.len() as int) =~= b);
    appearance_lists_the_labels(a);
    appearance_lists_the_labels(b);
    assert forall|i: int| 0 <= i < a.len() implies canonical(a)[i] == canonical(b)[i] by {
        assert(a.contains(a[i]) && b.contains(b[i]));
        assert(appearance(a).contains(a[i]) && appearance(b).contains(b[i]));
        let p = appearance(a).index_of(a[i]);
        assert(appearance(a)[p] == a[i]);
        assert(appearance(b)[p] == b[i]);
    }
    assert(canonical(a) =~= canonical(b));
}

proof fn appearances_match(a: Seq<u32>, b: Seq<u32>, k: int)
    requires
        0 <= k <= a.len(),
        a.len() == b.len(),
        forall|i: int, j: int|
            0 <= i < a.len() && 0 <= j < a.len() ==> (#[trigger] a[i] == #[trigger] a[j] <==> b[i]
                == b[j]),
    ensures
        appearance(a.take(k)).len() == appearance(b.take(k)).len(),
        forall|p: int, i: int|
            0 <= p < appearance(a.take(k)).len() && 0 <= i < a.len() ==> (#[trigger] appearance(
                a.take(k),
            )[p] == #[trigger] a[i] <==> appearance(b.take(k))[p] == b[i]),
    decreases k,
{
    if k > 0 {
        appearances_match(a, b, k - 1);
        assert(a.take(k).drop_last() =~= a.take(k - 1));
        assert(b.take(k).drop_last() =~= b.take(k - 1));
        let s = appearance(a.take(k - 1));
        let t = appearance(b.take(k - 1));
        if s.contains(a[k - 1]) {
            let p = choose|p: int| 0 <= p < s.len() && s[p] == a[k - 1];
            assert(s[p] == a[k - 1]);
            assert(t[p] == b[k - 1]);
            assert(t.contains(b[k - 1]));
        }
        if t.contains(b[k - 1]) {
            let p = choose|p: int| 0 <= p < t.len() && t[p] == b[k - 1];
            assert(t[p] == b[k - 1]);
            assert(s[p] == a[k - 1]);
            assert(s.contains(a[k - 1]));
        }
        let s2 = appearance(a.take(k));
        let t2 = appearance(b.take(k));
        assert forall|p: int, i: int|
            0 <= p < s2.len() && 0 <= i < a.len() implies (#[trigger] s2[p] == #[trigger] a[i]
            <==> t2[p] == b[i]) by {
            if p < s.len() {
                assert(s2[p] == s[p] && t2[p] == t[p]);
                assert(s[p] == a[i] <==> t[p] == b[i]);
            } else {
                assert(s2[p] == a[k - 1] && t2[p] == b[k - 1]);
            }
        }
    }
}

/// A canonical labeling is its own canonical form.
pub proof fn canonical_is_idempotent(labels: Seq<u32>)
    ensures
        canonical(canonical(labels)) == canonical(labels),
{
    let c = canonical(labels);
    assert forall|i: int, j: int| 0 <= i < c.len() && 0 <= j < c.len() implies (#[trigger] c[i]
        == #[trigger] c[j] <==> labels[i] == labels[j]) by {
        canonical_keeps_the_grouping(labels, i, j);
    }
    canonical_depends_on_the_grouping(c, labels);
}

/// Renumbers district labels below `num_dists` by order of appearance.
pub fn canonicalize(labels: &Vec<u32>, num_dists: u32) -> (r: Vec<u32>)
    requires
        forall|i: int| 0 <= i < labels.len() ==> (#[trigger] labels[i]) < num_dists,
    ensures
        r@ == canonical(labels@),
{
    let mut mapping: Vec<Option<u32>> = Vec::new();
    let mut d: u32 = 0;
    while d < num_dists
        invariant
            d <= num_dists,
            mapping.len() == d,
            forall|x: int| 0 <= x < d ==> (#[trigger] mapping[x]) is None,
        decreases num_dists - d,
    {
        mapping.push(None);
        d += 1;
    }
    let mut canon: Vec<u32> = Vec::new();
    let mut seen: u32 = 0;
    let mut i: usize = 0;
    let ghost all = labels@;
    assert(appearance(all.take(0)) =~= Seq::empty());
    while i < labels.len()
        invariant
            i <= labels.len(),
            all == labels@,
            mapping.len() == num_dists,
            forall|j: int| 0 <= j < labels.len() ==> (#[trigger] labels[j]) < num_dists,
            seen == appearance(all.take(i as int)).len(),
            forall|x: u32|
                x < num_dists ==> match #[trigger] mapping[x as int] {
                    Some(p) => p < seen && appearance(all.take(i as int))[p as int] == x,
                    None => !appearance(all.take(i as int)).contains(x),
                },
            canon.len() == i,
            forall|j: int|
                0 <= j < i ==> {
                    &&& (#[trigger] canon[j]) < seen
                    &&& appearance(all.take(i as int))[canon[j] as int] == all[j]
                },
        decreases labels.len() - i,
    {
        let label: u32 = labels[i];
        let ghost small = appearance(all.take(i as int));
        assert(all.take(i + 1).drop_last() =~= all.take(i as int));
        match mapping[label as usize] {
            Some(p) => {
                assert(small.contains(label));
                canon.push(p);
            },
            None => {
                proof {
                    appearance_lists_the_labels(all.take(i as int));
                    assert forall|k: int| 0 <= k < small.push(label).len() implies (
                    #[trigger] small.push(label)[k]) < num_dists by {
                        if k < small.len() {
                            assert(small.contains(small[k]));
                        }
                    }
                    distinct_labels_are_few(small.push(label), num_dists as int);
                }
                mapping.set(label as usize, Some(seen));
                canon.push(seen);
                seen = seen + 1;
                let ghost large = appearance(all.take(i + 1));
                assert(large == small.push(label));
                assert forall|x: u32| x < num_dists implies match #[trigger] mapping[x as int] {
                    Some(p) => p < seen && large[p as int] == x,
                    None => !large.contains(x),
                } by {
                    crate::vectors::contains_pushed(small, label, x);
                }
            },
        }
        i += 1;
    }
    assert(all.take(i as int) =~= all);
    assert forall|j: int| 0 <= j < all.len() implies canon@[j] == canonical(all)[j] by {
        place_is_kept(all, all.len() as int, canon[j] as int);
        assert(canon[j] < seen);
    }
    assert(canon@ =~= canonical(all));
    canon
}

} // verus!
