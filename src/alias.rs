//! The alias table: short names for selectors and commands.
use crate::text::str_eq;
use vstd::prelude::*;

verus! {

/// A table of aliases, each name with its replacement text.
#[derive(Debug, Default)]
pub struct AliasTable {
    entries: Vec<(String, String)>,
}

impl View for AliasTable {
    type V = Map<Seq<char>, Seq<char>>;

    /// The aliases, as a map from name to replacement.
    closed spec fn view(&self) -> Map<Seq<char>, Seq<char>> {
        Map::new(
            |name: Seq<char>| self.has_name(name),
            |name: Seq<char>|
                self.entries@[choose|i: int|
                    0 <= i < self.entries@.len() && (#[trigger] self.entries@[i]).0@ == name].1@,
        )
    }
}

impl AliasTable {
    /// No two entries share a name.
    pub closed spec fn wf(&self) -> bool {
        forall|i: int, j: int|
            0 <= i < self.entries@.len() && 0 <= j < self.entries@.len() && i != j
                ==> (#[trigger] self.entries@[i]).0@ != (#[trigger] self.entries@[j]).0@
    }

    pub closed spec fn has_name(&self, name: Seq<char>) -> bool {
        exists|i: int| 0 <= i < self.entries@.len() && (#[trigger] self.entries@[i]).0@ == name
    }

    /// The number of aliases.
    pub closed spec fn count(&self) -> nat {
        self.entries@.len()
    }

    pub fn new() -> (r: AliasTable)
        ensures
            r.wf(),
            r@ == Map::<Seq<char>, Seq<char>>::empty(),
            r.count() == 0,
    {
        let r = AliasTable { entries: Vec::new() };
        assert(r@ =~= Map::<Seq<char>, Seq<char>>::empty());
        r
    }

    proof fn lemma_lookup(&self, i: int)
        requires
            self.wf(),
            0 <= i < self.entries@.len(),
        ensures
            self@.contains_key(self.entries@[i].0@),
            self@[self.entries@[i].0@] == self.entries@[i].1@,
    {
        let name = self.entries@[i].0@;
        assert(self.has_name(name));
        let j = choose|j: int| 0 <= j < self.entries@.len() && (#[trigger] self.entries@[j]).0@ == name;
        assert(j == i);
    }

    /// The position of the entry named `name`.
    fn index_of(&self, name: &str) -> (r: Option<usize>)
        requires
            self.wf(),
        ensures
            match r {
                Some(i) => i < self.entries@.len() && self.entries@[i as int].0@ == name@,
                None => !self@.contains_key(name@),
            },
    {
        let mut i: usize = 0;
        while i < self.entries.len()
            invariant
                i <= self.entries@.len(),
                forall|j: int| 0 <= j < i ==> (#[trigger] self.entries@[j]).0@ != name@,
            decreases self.entries@.len() - i,
        {
            if str_eq(self.entries[i].0.as_str(), name) {
                return Some(i);
            }
            i = i + 1;
        }
        None
    }

    /// The replacement for `name`, if it is an alias.
    pub fn get(&self, name: &str) -> (r: Option<&String>)
        requires
            self.wf(),
        ensures
            match r {
                Some(v) => self@.contains_key(name@) && v@ == self@[name@],
                None => !self@.contains_key(name@),
            },
    {
        match self.index_of(name) {
            Some(i) => {
                proof {
                    self.lemma_lookup(i as int);
                }
                Some(&self.entries[i].1)
            },
            None => None,
        }
    }

    /// Whether `name` is an alias.
    pub fn contains(&self, name: &str) -> (r: bool)
        requires
            self.wf(),
        ensures
            r == self@.contains_key(name@),
    {
        self.index_of(name).is_some()
    }

    /// Adds `name` for `value`, or replaces what `name` stood for.
    pub fn insert(&mut self, name: String, value: String)
        requires
            old(self).wf(),
        ensures
            final(self).wf(),
            final(self)@ == old(self)@.insert(name@, value@),
            final(self).count() == old(self).count() + if old(self)@.contains_key(name@) {
                0nat
            } else {
                1nat
            },
    {
        let ghost before = *self;
        match self.index_of(name.as_str()) {
            Some(i) => {
                self.entries.set(i, (name, value));
                proof {
                    assert forall|j: int| 0 <= j < before.entries@.len() && j != i implies
                        #[trigger] self.entries@[j] == before.entries@[j] by {}
                    before.lemma_lookup(i as int);
                    self.lemma_lookup(i as int);
                    assert forall|k: Seq<char>| #[trigger] self@.contains_key(k) == before@.insert(name@, value@).contains_key(k) by {
                        if self.has_name(k) {
                            let j = choose|j: int| 0 <= j < self.entries@.len() && (#[trigger] self.entries@[j]).0@ == k;
                            if j != i {
                                assert(before.entries@[j].0@ == k);
                            }
                        }
                        if before.has_name(k) {
                            let j = choose|j: int| 0 <= j < before.entries@.len() && (#[trigger] before.entries@[j]).0@ == k;
                            if j != i {
                                assert(self.entries@[j].0@ == k);
                            }
                        }
                    }
                    assert forall|k: Seq<char>| #[trigger] self@.contains_key(k) && k != name@ implies self@[k] == before@[k] by {
                        let j = choose|j: int| 0 <= j < self.entries@.len() && (#[trigger] self.entries@[j]).0@ == k;
                        self.lemma_lookup(j);
                        before.lemma_lookup(j);
                    }
                    assert(self@ =~= before@.insert(name@, value@));
                }
            },
            None => {
                self.entries.push((name, value));
                proof {
                    let n = before.entries@.len() as int;
                    assert forall|j: int| 0 <= j < n implies #[trigger] self.entries@[j] == before.entries@[j] by {}
                    self.lemma_lookup(n);
                    assert forall|k: Seq<char>| #[trigger] self@.contains_key(k) == before@.insert(name@, value@).contains_key(k) by {
                        if self.has_name(k) {
                            let j = choose|j: int| 0 <= j < self.entries@.len() && (#[trigger] self.entries@[j]).0@ == k;
                            if j != n {
                                assert(before.entries@[j].0@ == k);
                            }
                        }
                        if before.has_name(k) {
                            let j = choose|j: int| 0 <= j < before.entries@.len() && (#[trigger] before.entries@[j]).0@ == k;
                            assert(self.entries@[j].0@ == k);
                        }
                    }
                    assert forall|k: Seq<char>| #[trigger] self@.contains_key(k) && k != name@ implies self@[k] == before@[k] by {
                        let j = choose|j: int| 0 <= j < self.entries@.len() && (#[trigger] self.entries@[j]).0@ == k;
                        self.lemma_lookup(j);
                        before.lemma_lookup(j);
                    }
                    assert(self@ =~= before@.insert(name@, value@));
                }
            },
        }
    }

    /// Removes the alias `name`, if there is one.
    pub fn remove(&mut self, name: &str)
        requires
            old(self).wf(),
        ensures
            final(self).wf(),
            final(self)@ == old(self)@.remove(name@),
            final(self).count() == old(self).count() - if old(self)@.contains_key(name@) {
                1nat
            } else {
                0nat
            },
    {
        let ghost before = *self;
        match self.index_of(name) {
            Some(i) => {
                self.entries.remove(i);
                proof {
                    before.lemma_lookup(i as int);
                    let m = self.entries@.len() as int;
                    assert forall|j: int| 0 <= j < m implies #[trigger] self.entries@[j] == before.entries@[if j < i { j } else { j + 1 }] by {}
                    assert forall|k: Seq<char>| #[trigger] self@.contains_key(k) == before@.remove(name@).contains_key(k) by {
                        if self.has_name(k) {
                            let j = choose|j: int| 0 <= j < self.entries@.len() && (#[trigger] self.entries@[j]).0@ == k;
                            let j0 = if j < i { j } else { j + 1 };
                            assert(before.entries@[j0].0@ == k);
                        }
                        if before.has_name(k) && k != name@ {
                            let j = choose|j: int| 0 <= j < before.entries@.len() && (#[trigger] before.entries@[j]).0@ == k;
                            if j < i {
                                assert(self.entries@[j].0@ == k);
                            } else {
                                assert(self.entries@[j - 1].0@ == k);
                            }
                        }
                    }
                    assert forall|k: Seq<char>| #[trigger] self@.contains_key(k) implies self@[k] == before@[k] by {
                        let j = choose|j: int| 0 <= j < self.entries@.len() && (#[trigger] self.entries@[j]).0@ == k;
                        let j0 = if j < i { j } else { j + 1 };
                        self.lemma_lookup(j);
                        before.lemma_lookup(j0);
                    }
                    assert(self@ =~= before@.remove(name@));
                }
            },
            None => {
                assert(self@ =~= before@.remove(name@));
            },
        }
    }

    /// The count is the number of names in the map.
    pub proof fn lemma_count(&self)
        requires
            self.wf(),
        ensures
            self@.dom().finite(),
            self.count() == self@.dom().len(),
    {
        let keys = self.entries@.map_values(|e: (String, String)| e.0@);
        assert(keys.no_duplicates()) by {
            assert forall|i: int, j: int| 0 <= i < keys.len() && 0 <= j < keys.len() && i != j implies keys[i] != keys[j] by {
                assert(keys[i] == self.entries@[i].0@ && keys[j] == self.entries@[j].0@);
            }
        }
        assert forall|k: Seq<char>| #[trigger] self@.dom().contains(k) <==> keys.to_set().contains(k) by {
            if self.has_name(k) {
                let i = choose|i: int| 0 <= i < self.entries@.len() && (#[trigger] self.entries@[i]).0@ == k;
                assert(keys[i] == k);
            }
            if keys.to_set().contains(k) {
                assert(keys.contains(k));
                let i = choose|i: int| 0 <= i < keys.len() && keys[i] == k;
                assert(self.entries@[i].0@ == k);
            }
        }
        assert(self@.dom() =~= keys.to_set());
        keys.unique_seq_to_set();
        vstd::seq_lib::seq_to_set_is_finite(keys);
    }

    /// The number of aliases.
    pub fn len(&self) -> (r: usize)
        requires
            self.wf(),
        ensures
            r == self.count(),
            r == self@.dom().len(),
    {
        proof {
            self.lemma_count();
        }
        self.entries.len()
    }

    /// The aliases as `(name, replacement)` pairs, in no particular order.
    pub fn entries(&self) -> (r: &Vec<(String, String)>)
        requires
            self.wf(),
        ensures
            r@.len() == self.count(),
            forall|i: int|
                0 <= i < r@.len() ==> self@.contains_key((#[trigger] r@[i]).0@) && self@[r@[i].0@]
                    == r@[i].1@,
            forall|k: Seq<char>|
                #[trigger] self@.contains_key(k) ==> exists|i: int|
                    0 <= i < r@.len() && (#[trigger] r@[i]).0@ == k,
    {
        proof {
            assert forall|i: int| 0 <= i < self.entries@.len() implies self@.contains_key((#[trigger] self.entries@[i]).0@) && self@[self.entries@[i].0@]
                    == self.entries@[i].1@ by {
                self.lemma_lookup(i);
            }
        }
        &self.entries
    }
}

} // verus!
