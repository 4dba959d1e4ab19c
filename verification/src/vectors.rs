//! Copies of vectors.

use vstd::prelude::*;

verus! {

/// A vector with the same elements.
pub fn copied<T: Copy>(values: &Vec<T>) -> (r: Vec<T>)
    ensures
        r@ == values@,
{
    let mut r: Vec<T> = Vec::new();
    let mut i: usize = 0;
    while i < values.len()
        invariant
            i <= values.len(),
            r@ == values@.take(i as int),
        decreases values.len() - i,
    {
        r.push(values[i]);
        i += 1;
        assert(values@.take(i as int) =~= values@.take(i - 1).push(values@[i - 1]));
    }
    assert(values@.take(i as int) =~= values@);
    r
}

/// The elements of each of a list of vectors.
pub open spec fn nested<T>(values: Seq<Vec<T>>) -> Seq<Seq<T>> {
    Seq::new(values.len(), |i: int| values[i]@)
}

/// A list of vectors with the same elements.
pub fn copied_nested<T: Copy>(values: &Vec<Vec<T>>) -> (r: Vec<Vec<T>>)
    ensures
        nested(r@) == nested(values@),
{
    let mut r: Vec<Vec<T>> = Vec::new();
    let mut i: usize = 0;
    while i < values.len()
        invariant
            i <= values.len(),
            r.len() == i,
            forall|j: int| 0 <= j < i ==> (#[trigger] r[j])@ == values[j]@,
        decreases values.len() - i,
    {
        r.push(copied(&values[i]));
        i += 1;
    }
    assert(nested(r@) =~= nested(values@));
    r
}

/// The texts of a list of strings.
pub open spec fn texts(values: Seq<String>) -> Seq<Seq<char>> {
    Seq::new(values.len(), |i: int| values[i]@)
}

/// A list of strings with the same texts.
pub fn copied_strings(values: &Vec<String>) -> (r: Vec<String>)
    ensures
        texts(r@) == texts(values@),
{
    let mut r: Vec<String> = Vec::new();
    let mut i: usize = 0;
    while i < values.len()
        invariant
            i <= values.len(),
            r.len() == i,
            forall|j: int| 0 <= j < i ==> (#[trigger] r[j])@ == values[j]@,
        decreases values.len() - i,
    {
        r.push(values[i].clone());
        i += 1;
    }
    assert(texts(r@) =~= texts(values@));
    r
}

/// The items of a list without those that occur before, in order.
pub open spec fn firsts<T>(s: Seq<T>) -> Seq<T>
    decreases s.len(),
{
    if s.len() == 0 {
        Seq::empty()
    } else {
        let seen = firsts(s.drop_last());
        if seen.contains(s.last()) {
            seen
        } else {
            seen.push(s.last())
        }
    }
}

/// Dropping repeats keeps every item, once.
pub proof fn firsts_keep_the_items<T>(s: Seq<T>)
    ensures
        firsts(s).no_duplicates(),
        firsts(s).len() <= s.len(),
        forall|x: T| #[trigger] firsts(s).contains(x) <==> s.contains(x),
    decreases s.len(),
{
    if s.len() > 0 {
        let init = s.drop_last();
        let seen = firsts(init);
        firsts_keep_the_items(init);
        assert(s =~= init.push(s.last()));
        assert forall|x: T| #[trigger] firsts(s).contains(x) <==> s.contains(x) by {
            assert(seen.contains(x) <==> init.contains(x));
            contains_pushed(init, s.last(), x);
            contains_pushed(seen, s.last(), x);
        }
    }
}

/// Whether a list of strings holds a text.
pub fn holds_text(values: &Vec<String>, text: &str) -> (r: bool)
    ensures
        r == texts(values@).contains(text@),
{
    let mut i: usize = 0;
    while i < values.len()
        invariant
            i <= values.len(),
            forall|j: int| 0 <= j < i ==> (#[trigger] values[j])@ != text@,
        decreases values.len() - i,
    {
        if crate::columns::string_eq(&values[i], text) {
            assert(texts(values@)[i as int] == text@);
            return true;
        }
        i += 1;
    }
    assert forall|j: int| 0 <= j < texts(values@).len() implies texts(values@)[j] != text@ by {
        assert(values[j]@ != text@);
    }
    false
}

/// Appends the texts that a list of strings does not hold yet.
pub fn append_new(values: &mut Vec<String>, more: &Vec<String>)
    ensures
        firsts(texts(old(values)@)) == texts(old(values)@) ==> texts(final(values)@) == firsts(
            texts(old(values)@) + texts(more@),
        ),
        old(values)@.is_prefix_of(final(values)@),
{
    let ghost start = texts(values@);
    let ghost first = values@;
    let ghost extra = texts(more@);
    let mut i: usize = 0;
    assert(start + extra.take(0) =~= start);
    while i < more.len()
        invariant
            i <= more.len(),
            extra == texts(more@),
            firsts(start) == start ==> texts(values@) == firsts(start + extra.take(i as int)),
            first.is_prefix_of(values@),
        decreases more.len() - i,
    {
        let ghost before = values@;
        if !holds_text(values, more[i].as_str()) {
            values.push(more[i].clone());
            assert(texts(values@) =~= texts(before).push(extra[i as int]));
        }
        i += 1;
        assert(start + extra.take(i as int) =~= (start + extra.take(i - 1)).push(extra[i - 1]));
        assert((start + extra.take(i as int)).drop_last() =~= start + extra.take(i - 1));
    }
    assert(extra.take(i as int) =~= extra);
}

/// A list holds what it held before a value was added, and that value.
pub proof fn contains_pushed<T>(s: Seq<T>, x: T, v: T)
    ensures
        s.push(x).contains(v) <==> s.contains(v) || v == x,
{
    if s.contains(v) {
        let i = choose|i: int| 0 <= i < s.len() && s[i] == v;
        assert(s.push(x)[i] == v);
    }
    assert(s.push(x)[s.len() as int] == x);
}

} // verus!
