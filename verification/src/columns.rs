//! Named attribute columns.

use vstd::prelude::*;
use crate::{text, vectors};

verus! {

/// Columns of values looked up by name; a name occurs once.
#[derive(Clone, Debug)]
#[verifier::reject_recursive_types(T)]
pub struct Columns<T> {
    names: Vec<String>,
    values: Vec<Vec<T>>,
}

impl<T> Columns<T> {
    pub closed spec fn valid(&self) -> bool {
        &&& self.names.len() == self.values.len()
        &&& forall|i: int, j: int|
            0 <= i < j < self.names.len() ==> (#[trigger] self.names[i])@ != (
            #[trigger] self.names[j])@
    }

    closed spec fn at(&self, name: Seq<char>) -> int {
        choose|i: int| 0 <= i < self.names.len() && (#[trigger] self.names[i])@ == name
    }

    closed spec fn listed(&self, name: Seq<char>) -> bool {
        exists|i: int| 0 <= i < self.names.len() && (#[trigger] self.names[i])@ == name
    }

    /// The values of each column, by its name.
    pub closed spec fn view(&self) -> Map<Seq<char>, Seq<T>> {
        Map::new(
            |name: Seq<char>| self.listed(name),
            |name: Seq<char>| self.values[self.at(name)]@,
        )
    }

    pub fn new() -> (r: Columns<T>)
        ensures
            r.valid(),
            r@ == Map::<Seq<char>, Seq<T>>::empty(),
    {
        let r: Columns<T> = Columns { names: Vec::new(), values: Vec::new() };
        assert(r@ =~= Map::<Seq<char>, Seq<T>>::empty());
        r
    }

    fn find(&self, name: &str) -> (r: Option<usize>)
        requires
            self.valid(),
        ensures
            match r {
                Some(i) => i < self.names.len() && self.names[i as int]@ == name@ && self.listed(
                    name@,
                ) && self.at(name@) == i,
                None => !self.listed(name@),
            },
    {
        let mut i: usize = 0;
        while i < self.names.len()
            invariant
                i <= self.names.len(),
                self.valid(),
                forall|j: int| 0 <= j < i ==> (#[trigger] self.names[j])@ != name@,
            decreases self.names.len() - i,
        {
            if string_eq(&self.names[i], name) {
                return Some(i);
            }
            i += 1;
        }
        None
    }

    /// The values of a column, if it is there.
    pub fn get(&self, name: &str) -> (r: Option<&Vec<T>>)
        requires
            self.valid(),
        ensures
            match r {
                Some(v) => self@.contains_key(name@) && v@ == self@[name@],
                None => !self@.contains_key(name@),
            },
    {
        match self.find(name) {
            Some(i) => Some(&self.values[i]),
            None => None,
        }
    }

    pub fn contains_key(&self, name: &str) -> (r: bool)
        requires
            self.valid(),
        ensures
            r == self@.contains_key(name@),
    {
        self.find(name).is_some()
    }

    /// The names of the columns, in the order of texts.
    pub fn sorted_names(&self) -> (r: Vec<String>)
        requires
            self.valid(),
        ensures
            texts_ascend(vectors::texts(r@)),
            forall|name: Seq<char>|
                #![trigger vectors::texts(r@).contains(name)]
                vectors::texts(r@).contains(name) <==> self@.contains_key(name),
    {
        let mut r: Vec<String> = Vec::new();
        let mut i: usize = 0;
        while i < self.names.len()
            invariant
                i <= self.names.len(),
                self.valid(),
                texts_ascend(vectors::texts(r@)),
                forall|name: Seq<char>|
                    #![trigger vectors::texts(r@).contains(name)]
                    vectors::texts(r@).contains(name) <==> exists|j: int|
                        0 <= j < i && (#[trigger] self.names[j])@ == name,
            decreases self.names.len() - i,
        {
            let ghost before = vectors::texts(r@);
            let ghost fresh = self.names[i as int]@;
            assert(!before.contains(fresh));
            insert_text(&mut r, &self.names[i]);
            i += 1;
            assert forall|name: Seq<char>| #[trigger] vectors::texts(r@).contains(name) <==> exists|
                j: int,
            |
                0 <= j < i && (#[trigger] self.names[j])@ == name by {
                if vectors::texts(r@).contains(name) {
                    if name == fresh {
                        assert(self.names[i - 1]@ == name);
                    } else {
                        assert(before.contains(name));
                    }
                }
                if exists|j: int| 0 <= j < i && (#[trigger] self.names[j])@ == name {
                    let j = choose|j: int| 0 <= j < i && (#[trigger] self.names[j])@ == name;
                    if j < i - 1 {
                        assert(before.contains(name));
                    }
                }
            }
        }
        r
    }

    /// Drops a column, if it is there.
    pub fn remove(&mut self, name: &str)
        requires
            old(self).valid(),
        ensures
            final(self).valid(),
            final(self)@ == old(self)@.remove(name@),
    {
        let ghost before = *self;
        match self.find(name) {
            Some(i) => {
                self.names.remove(i);
                self.values.remove(i);
                assert forall|j: int| 0 <= j < self.names.len() implies self.names[j]
                    == before.names[if j < i {
                    j
                } else {
                    j + 1
                }] by {}
                assert forall|n: Seq<char>| #[trigger]
                    self.listed(n) == (n != name@ && before.listed(n)) by {
                    if self.listed(n) {
                        let j = self.at(n);
                        assert(before.names[if j < i {
                            j
                        } else {
                            j + 1
                        }]@ == n);
                    }
                    if n != name@ && before.listed(n) {
                        let j = before.at(n);
                        assert(self.names[if j < i {
                            j
                        } else {
                            j - 1
                        }]@ == n);
                    }
                }
                assert forall|n: Seq<char>| self.listed(n) implies self.values[self.at(n)]
                    == before.values[before.at(n)] by {
                    let j = self.at(n);
                    let k = if j < i {
                        j
                    } else {
                        j + 1
                    };
                    assert(before.names[k]@ == n);
                    let l = before.at(n);
                    assert(before.names[l]@ == n);
                }
                assert(self@ =~= before@.remove(name@));
            },
            None => {
                assert(self@ =~= before@.remove(name@));
            },
        }
    }

    /// Stores a column, in place of any column of that name.
    pub fn insert(&mut self, name: String, values: Vec<T>)
        requires
            old(self).valid(),
        ensures
            final(self).valid(),
            final(self)@ == old(self)@.insert(name@, values@),
    {
        let ghost before = *self;
        let ghost key = name@;
        let ghost vals = values@;
        match self.find(name.as_str()) {
            Some(i) => {
                self.values.set(i, values);
                assert forall|n: Seq<char>| self.listed(n) == before.listed(n) by {
                    if before.listed(n) {
                        let j = before.at(n);
                        assert(self.names[j]@ == n);
                    }
                    if self.listed(n) {
                        let j = self.at(n);
                        assert(before.names[j]@ == n);
                    }
                }
                assert forall|n: Seq<char>| self.listed(n) implies self.at(n) == before.at(n) by {
                    let j = self.at(n);
                    assert(self.names[j]@ == n && before.names[j]@ == n);
                }
                assert(self@ =~= before@.insert(key, vals));
            },
            None => {
                self.names.push(name);
                self.values.push(values);
                let ghost n0 = before.names.len() as int;
                assert(self.names[n0]@ == key);
                assert(self.values[n0]@ == vals);
                assert forall|j: int| 0 <= j < n0 implies self.names[j] == before.names[j]
                    && self.values[j] == before.values[j] by {}
                assert(self.valid()) by {
                    assert forall|i: int, j: int|
                        0 <= i < j < self.names.len() implies (#[trigger] self.names[i])@ != (
                    #[trigger] self.names[j])@ by {
                        if j == n0 {
                            assert(before.names[i]@ != key);
                        }
                    }
                }
                assert forall|n: Seq<char>| #[trigger]
                    self.listed(n) == (n == key || before.listed(n)) by {
                    if before.listed(n) {
                        let j = before.at(n);
                        assert(self.names[j]@ == n);
                    }
                }
                assert forall|n: Seq<char>| before.listed(n) implies self.at(n) == before.at(
                    n,
                ) by {
                    let j = before.at(n);
                    assert(self.names[j]@ == n);
                    let l = self.at(n);
                    assert(self.names[l]@ == n);
                }
                assert(self.at(key) == n0) by {
                    let l = self.at(key);
                    assert(self.names[l]@ == key);
                }
                assert(self@ =~= before@.insert(key, vals));
            },
        }
    }
}

/// Whether each text comes before those after it.
pub open spec fn texts_ascend(names: Seq<Seq<char>>) -> bool {
    forall|i: int, j: int|
        0 <= i < j < names.len() ==> text::text_before(#[trigger] names[i], #[trigger] names[j])
}

/// Adds a text to an ascending list that does not hold it.
fn insert_text(names: &mut Vec<String>, name: &String)
    requires
        texts_ascend(vectors::texts(old(names)@)),
        !vectors::texts(old(names)@).contains(name@),
    ensures
        texts_ascend(vectors::texts(final(names)@)),
        forall|x: Seq<char>|
            #![trigger vectors::texts(final(names)@).contains(x)]
            vectors::texts(final(names)@).contains(x) <==> x == name@ || vectors::texts(
                old(names)@,
            ).contains(x),
{
    let ghost before = vectors::texts(names@);
    let ghost fresh = name@;
    let mut p: usize = 0;
    while p < names.len() && text::is_before(names[p].as_str(), name.as_str())
        invariant
            p <= names.len(),
            before == vectors::texts(names@),
            fresh == name@,
            forall|i: int| 0 <= i < p ==> text::text_before(#[trigger] before[i], fresh),
        decreases names.len() - p,
    {
        assert(before[p as int] == names[p as int]@);
        p += 1;
    }
    proof {
        if p < names.len() {
            assert(before[p as int] == names[p as int]@);
            assert(before.contains(before[p as int]));
            text::texts_are_ordered(before[p as int], fresh);
            assert forall|i: int| p <= i < before.len() implies text::text_before(
                fresh,
                #[trigger] before[i],
            ) by {
                if i > p {
                    text::text_order_is_transitive(fresh, before[p as int], before[i]);
                }
            }
        }
    }
    names.insert(p, name.clone());
    let ghost after = vectors::texts(names@);
    assert(after =~= before.insert(p as int, fresh));
    assert forall|x: Seq<char>| #[trigger] after.contains(x) <==> x == fresh || before.contains(
        x,
    ) by {
        if after.contains(x) {
            let i = choose|i: int| 0 <= i < after.len() && after[i] == x;
            if i < p {
                assert(before[i] == x);
            } else if i > p {
                assert(before[i - 1] == x);
            }
        }
        if before.contains(x) {
            let i = choose|i: int| 0 <= i < before.len() && before[i] == x;
            if i < p {
                assert(after[i] == x);
            } else {
                assert(after[i + 1] == x);
            }
        }
        assert(after[p as int] == fresh);
    }
    assert forall|i: int, j: int| 0 <= i < j < after.len() implies text::text_before(
        #[trigger] after[i],
        #[trigger] after[j],
    ) by {
        if j < p {
            assert(after[i] == before[i] && after[j] == before[j]);
        } else if j == p {
            assert(after[i] == before[i]);
        } else if i < p {
            assert(after[i] == before[i] && after[j] == before[j - 1]);
        } else if i == p {
            assert(after[j] == before[j - 1]);
        } else {
            assert(after[i] == before[i - 1] && after[j] == before[j - 1]);
        }
    }
}

/// Whether two texts hold the same characters.
pub fn string_eq(a: &String, b: &str) -> (r: bool)
    ensures
        r == (a@ == b@),
{
    *a == b.to_string()
}

/// Whether two texts hold the same characters.
pub fn str_eq(a: &str, b: &str) -> (r: bool)
    ensures
        r == (a@ == b@),
{
    a.to_string() == b.to_string()
}

} // verus!
