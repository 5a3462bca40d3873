//! Registers by name.
//!
//! A `RegisterMap` holds one value for each name, in the order in which the
//! names were first inserted. Its view is the map from the names to the
//! deep views of the values.

use vstd::prelude::*;

verus! {

/// A map from register names to values of type `V`.
pub struct RegisterMap<V> {
    entries: Vec<(String, V)>,
}

impl<V> RegisterMap<V> {
    /// No name occurs twice.
    #[verifier::type_invariant]
    pub closed spec fn wf(&self) -> bool {
        forall|i: int, j: int|
            0 <= i < j < self.entries@.len() ==> (#[trigger] self.entries@[i]).0@
                != (#[trigger] self.entries@[j]).0@
    }

    /// The names, in the order in which they were first inserted.
    pub closed spec fn names(&self) -> Seq<Seq<char>> {
        Seq::new(self.entries@.len(), |i: int| self.entries@[i].0@)
    }

    /// The place of `name` among the names, if it is one of them.
    pub closed spec fn position(&self, name: Seq<char>) -> int {
        choose|i: int| 0 <= i < self.entries@.len() && self.entries@[i].0@ == name
    }
}

impl<V: DeepView> View for RegisterMap<V> {
    type V = Map<Seq<char>, V::V>;

    closed spec fn view(&self) -> Map<Seq<char>, V::V> {
        Map::new(
            |name: Seq<char>|
                exists|i: int| 0 <= i < self.entries@.len() && self.entries@[i].0@ == name,
            |name: Seq<char>| self.entries@[self.position(name)].1.deep_view(),
        )
    }
}

impl<V: DeepView> RegisterMap<V> {
    /// The names are the keys of the view, each of them once, and the view
    /// holds at each name the value at its place.
    pub proof fn lemma_names(&self)
        requires
            self.wf(),
        ensures
            self.names().no_duplicates(),
            forall|name: Seq<char>| self@.contains_key(name) <==> self.names().contains(name),
    {
        assert forall|name: Seq<char>| self@.contains_key(name) implies self.names().contains(
            name,
        ) by {
            let i = self.position(name);
            assert(self.names()[i] == name);
        }
    }

    /// The value at place `i` is the one that the view holds for the name at
    /// that place.
    proof fn lemma_value_at(&self, i: int)
        requires
            self.wf(),
            0 <= i < self.entries@.len(),
        ensures
            self@.contains_key(self.entries@[i].0@),
            self.position(self.entries@[i].0@) == i,
            self@[self.entries@[i].0@] == self.entries@[i].1.deep_view(),
    {
        let name = self.entries@[i].0@;
        let j = self.position(name);
        assert(0 <= j < self.entries@.len() && self.entries@[j].0@ == name);
        if i < j {
            assert(self.entries@[i].0@ != self.entries@[j].0@);
        } else if j < i {
            assert(self.entries@[j].0@ != self.entries@[i].0@);
        }
    }

    /// A map without names.
    pub fn new() -> (r: Self)
        ensures
            r@ == Map::<Seq<char>, V::V>::empty(),
            r.names() == Seq::<Seq<char>>::empty(),
    {
        let r = RegisterMap { entries: Vec::new() };
        assert(r@ =~= Map::<Seq<char>, V::V>::empty());
        assert(r.names() =~= Seq::<Seq<char>>::empty());
        r
    }

    /// The number of names.
    pub fn len(&self) -> (r: usize)
        ensures
            r == self.names().len(),
            r == self@.dom().len(),
            self@.dom().finite(),
    {
        proof {
            use_type_invariant(self);
            self.lemma_names();
            self.names().unique_seq_to_set();
            assert(self.names().to_set() =~= self@.dom());
        }
        self.entries.len()
    }

    /// Tells whether the map holds no name.
    pub fn is_empty(&self) -> (r: bool)
        ensures
            r == (self.names().len() == 0),
            r == (self@ == Map::<Seq<char>, V::V>::empty()),
    {
        proof {
            if self.entries@.len() == 0 {
                assert(self@ =~= Map::<Seq<char>, V::V>::empty());
            } else {
                assert(self@.contains_key(self.entries@[0].0@));
            }
        }
        self.entries.len() == 0
    }

    /// The place of `name`, if the map holds it.
    fn find(&self, name: &String) -> (r: Option<usize>)
        ensures
            match r {
                Some(i) => i < self.entries@.len() && self.entries@[i as int].0@ == name@,
                None => !self@.contains_key(name@),
            },
    {
        let mut i: usize = 0;
        while i < self.entries.len()
            invariant
                i <= self.entries@.len(),
                forall|j: int| 0 <= j < i ==> (#[trigger] self.entries@[j]).0@ != name@,
            decreases self.entries@.len() - i,
        {
            if self.entries[i].0 == *name {
                return Some(i);
            }
            i += 1;
        }
        None
    }

    /// Tells whether the map holds `name`.
    pub fn contains_key(&self, name: &str) -> (r: bool)
        ensures
            r == self@.contains_key(name@),
    {
        let key = name.to_owned();
        let found = self.find(&key);
        proof {
            if let Some(i) = found {
                assert(self@.contains_key(name@));
            }
        }
        found.is_some()
    }

    /// The value under `name`, if the map holds that name.
    pub fn get(&self, name: &str) -> (r: Option<&V>)
        ensures
            match r {
                Some(value) => self@.contains_key(name@) && value.deep_view() == self@[name@],
                None => !self@.contains_key(name@),
            },
    {
        let key = name.to_owned();
        match self.find(&key) {
            Some(i) => {
                proof {
                    use_type_invariant(self);
                    self.lemma_value_at(i as int);
                }
                Some(&self.entries[i].1)
            },
            None => None,
        }
    }

    /// The name and the value at place `index` in the order of insertion, if
    /// there are that many names.
    pub fn entry(&self, index: usize) -> (r: Option<(&String, &V)>)
        ensures
            match r {
                Some((name, value)) => index < self.names().len() && name@ == self.names()[index as int]
                    && self@.contains_key(name@) && value.deep_view() == self@[name@],
                None => index >= self.names().len(),
            },
    {
        if index < self.entries.len() {
            proof {
                use_type_invariant(self);
                self.lemma_value_at(index as int);
            }
            Some((&self.entries[index].0, &self.entries[index].1))
        } else {
            None
        }
    }

    /// Puts `value` under `name`, in place of what was there. A new name
    /// becomes the last.
    pub fn insert(&mut self, name: String, value: V)
        ensures
            final(self)@ == old(self)@.insert(name@, value.deep_view()),
            final(self).names() == if old(self)@.contains_key(name@) {
                old(self).names()
            } else {
                old(self).names().push(name@)
            },
    {
        proof {
            use_type_invariant(&*self);
        }
        let ghost before = *self;
        let found = self.find(&name);
        let mut entries: Vec<(String, V)> = Vec::new();
        std::mem::swap(&mut entries, &mut self.entries);
        match found {
            Some(i) => {
                entries[i] = (name, value);
                self.entries = entries;
                proof {
                    assert(before@.contains_key(name@));
                    assert(self.names() =~= before.names());
                    assert forall|a: int, b: int| 0 <= a < b < self.entries@.len() implies (
                    #[trigger] self.entries@[a]).0@ != (#[trigger] self.entries@[b]).0@ by {
                        assert(before.entries@[a].0@ != before.entries@[b].0@);
                    }
                    assert(self.wf());
                    assert forall|k: Seq<char>| #[trigger]
                        self@.contains_key(k) == before@.insert(
                            name@,
                            value.deep_view(),
                        ).contains_key(k) by {
                        if self@.contains_key(k) {
                            let j = self.position(k);
                            assert(before.entries@[j].0@ == k);
                        }
                        if before@.contains_key(k) {
                            let j = before.position(k);
                            assert(self.entries@[j].0@ == k);
                        }
                        if k == name@ {
                            assert(self.entries@[i as int].0@ == k);
                        }
                    }
                    assert forall|k: Seq<char>| self@.contains_key(k) implies #[trigger] self@[k]
                        == before@.insert(name@, value.deep_view())[k] by {
                        let j = self.position(k);
                        self.lemma_value_at(j);
                        if j != i {
                            before.lemma_value_at(j);
                        }
                    }
                    assert(self@ =~= before@.insert(name@, value.deep_view()));
                }
            },
            None => {
                entries.push((name, value));
                self.entries = entries;
                proof {
                    let n = before.entries@.len() as int;
                    assert(!before@.contains_key(name@));
                    assert(self.names() =~= before.names().push(name@));
                    assert forall|a: int, b: int| 0 <= a < b < self.entries@.len() implies (
                    #[trigger] self.entries@[a]).0@ != (#[trigger] self.entries@[b]).0@ by {
                        if b < n {
                            assert(before.entries@[a].0@ != before.entries@[b].0@);
                        } else {
                            assert(before.entries@[a].0@ == self.entries@[a].0@);
                            if self.entries@[a].0@ == name@ {
                                assert(before@.contains_key(name@));
                            }
                        }
                    }
                    assert(self.wf());
                    assert forall|k: Seq<char>| #[trigger]
                        self@.contains_key(k) == before@.insert(
                            name@,
                            value.deep_view(),
                        ).contains_key(k) by {
                        if self@.contains_key(k) {
                            let j = self.position(k);
                            if j < n {
                                assert(before.entries@[j].0@ == k);
                            }
                        }
                        if before@.contains_key(k) {
                            let j = before.position(k);
                            assert(self.entries@[j].0@ == k);
                        }
                        if k == name@ {
                            assert(self.entries@[n].0@ == k);
                        }
                    }
                    assert forall|k: Seq<char>| self@.contains_key(k) implies #[trigger] self@[k]
                        == before@.insert(name@, value.deep_view())[k] by {
                        let j = self.position(k);
                        self.lemma_value_at(j);
                        if j < n {
                            before.lemma_value_at(j);
                        }
                    }
                    assert(self@ =~= before@.insert(name@, value.deep_view()));
                }
            },
        }
    }
}

} // verus!
