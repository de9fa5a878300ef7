//! A map from names to values, in the order in which the names came.
use vstd::prelude::*;
use crate::text::same_text;

verus! {

/// A map from names to values. No name occurs twice among the entries.
#[derive(Debug, Clone)]
pub struct NameMap<V> {
    pub entries: Vec<(String, V)>,
}

impl<V: View> View for NameMap<V> {
    type V = Map<Seq<char>, V::V>;

    open spec fn view(&self) -> Map<Seq<char>, V::V> {
        Map::new(
            |name: Seq<char>|
                exists|i: int| 0 <= i < self.entries@.len() && #[trigger] self.entries@[i].0@ == name,
            |name: Seq<char>| self.entries@[self.index_of(name)].1@,
        )
    }
}

impl<V: View> NameMap<V> {
    /// Where a name stands.
    pub open spec fn index_of(self, name: Seq<char>) -> int {
        choose|i: int| 0 <= i < self.entries@.len() && #[trigger] self.entries@[i].0@ == name
    }

    /// Whether no name occurs twice.
    pub open spec fn wf(self) -> bool {
        forall|i: int, j: int|
            0 <= i < j < self.entries@.len() ==> #[trigger] self.entries@[i].0@
                != #[trigger] self.entries@[j].0@
    }

    /// What stands at an index is what the map has under the name there.
    proof fn lemma_entry(self, i: int)
        requires
            self.wf(),
            0 <= i < self.entries@.len(),
        ensures
            self@.contains_key(self.entries@[i].0@),
            self@[self.entries@[i].0@] == self.entries@[i].1@,
    {
        let name = self.entries@[i].0@;
        let j = self.index_of(name);
        assert(0 <= j < self.entries@.len() && self.entries@[j].0@ == name);
        if i < j {
            assert(self.entries@[i].0@ != self.entries@[j].0@);
        } else if j < i {
            assert(self.entries@[j].0@ != self.entries@[i].0@);
        }
    }

    /// An empty map.
    pub fn new() -> (map: NameMap<V>)
        ensures
            map.wf(),
            map@ == Map::<Seq<char>, V::V>::empty(),
    {
        let map: NameMap<V> = NameMap { entries: Vec::new() };
        assert(map@ =~= Map::<Seq<char>, V::V>::empty());
        map
    }

    fn position(&self, name: &str) -> (r: Option<usize>)
        ensures
            match r {
                Some(i) => i < self.entries@.len() && self.entries@[i as int].0@ == name@,
                None => !self@.contains_key(name@),
            },
    {
        let mut i: usize = 0;
        while i < self.entries.len()
            invariant
                i <= self.entries@.len(),
                forall|j: int| 0 <= j < i ==> (#[trigger] self.entries@[j]).0@ != name@,
            decreases self.entries@.len() - i,
        {
            if same_text(self.entries[i].0.as_str(), name) {
                return Some(i);
            }
            i = i + 1;
        }
        None
    }

    /// The value under a name.
    pub fn get(&self, name: &str) -> (r: Option<&V>)
        requires
            self.wf(),
        ensures
            match r {
                Some(value) => self@.contains_key(name@) && value@ == self@[name@],
                None => !self@.contains_key(name@),
            },
    {
        match self.position(name) {
            Some(i) => {
                proof {
                    self.lemma_entry(i as int);
                }
                Some(&self.entries[i].1)
            },
            None => None,
        }
    }

    /// Whether there is a value under a name.
    pub fn contains_key(&self, name: &str) -> (r: bool)
        requires
            self.wf(),
        ensures
            r == self@.contains_key(name@),
    {
        self.get(name).is_some()
    }

    /// Puts a value under a name, in place of one that is there already.
    pub fn insert(&mut self, name: String, value: V)
        requires
            old(self).wf(),
        ensures
            final(self).wf(),
            final(self)@ == old(self)@.insert(name@, value@),
    {
        let ghost before = *self;
        let ghost key = name@;
        let ghost val = value@;
        match self.position(name.as_str()) {
            Some(i) => {
                self.entries.set(i, (name, value));
                proof {
                    assert forall|j: int| 0 <= j < self.entries@.len() implies (
                    #[trigger] self.entries@[j]).0@ == before.entries@[j].0@ by {}
                    assert forall|j: int, k: int| 0 <= j < k < self.entries@.len() implies
                        #[trigger] self.entries@[j].0@ != #[trigger] self.entries@[k].0@ by {
                        assert(before.entries@[j].0@ != before.entries@[k].0@);
                    }
                    self.lemma_entry(i as int);
                    assert forall|k: Seq<char>| self@.contains_key(k) <==> before@.insert(
                        key,
                        val,
                    ).contains_key(k) by {
                        if self@.contains_key(k) {
                            let j = choose|j: int|
                                0 <= j < self.entries@.len() && #[trigger] self.entries@[j].0@ == k;
                            assert(before.entries@[j].0@ == k);
                        }
                        if before@.contains_key(k) {
                            let j = choose|j: int|
                                0 <= j < before.entries@.len() && #[trigger] before.entries@[j].0@
                                    == k;
                            assert(self.entries@[j].0@ == k);
                        }
                    }
                    assert forall|k: Seq<char>| self@.contains_key(k) implies self@[k]
                        == before@.insert(key, val)[k] by {
                        if k != key {
                            let j = self.index_of(k);
                            assert(0 <= j < self.entries@.len() && self.entries@[j].0@ == k);
                            assert(before.entries@[j].0@ == k);
                            before.lemma_entry(j);
                            self.lemma_entry(j);
                        }
                    }
                    assert(self@ =~= before@.insert(key, val));
                }
            },
            None => {
                self.entries.push((name, value));
                proof {
                    let n = before.entries@.len() as int;
                    assert forall|j: int, k: int| 0 <= j < k < self.entries@.len() implies
                        #[trigger] self.entries@[j].0@ != #[trigger] self.entries@[k].0@ by {
                        assert(before.entries@[j].0@ == self.entries@[j].0@);
                        if k < n {
                            assert(before.entries@[j].0@ != before.entries@[k].0@);
                        } else {
                            assert(before@.contains_key(before.entries@[j].0@));
                        }
                    }
                    self.lemma_entry(n);
                    assert forall|k: Seq<char>| self@.contains_key(k) <==> before@.insert(
                        key,
                        val,
                    ).contains_key(k) by {
                        if self@.contains_key(k) {
                            let j = choose|j: int|
                                0 <= j < self.entries@.len() && #[trigger] self.entries@[j].0@ == k;
                            if j < n {
                                assert(before.entries@[j].0@ == k);
                            }
                        }
                        if before@.contains_key(k) {
                            let j = choose|j: int|
                                0 <= j < before.entries@.len() && #[trigger] before.entries@[j].0@
                                    == k;
                            assert(self.entries@[j].0@ == k);
                        }
                    }
                    assert forall|k: Seq<char>| self@.contains_key(k) implies self@[k]
                        == before@.insert(key, val)[k] by {
                        if k != key {
                            let j = self.index_of(k);
                            assert(0 <= j < self.entries@.len() && self.entries@[j].0@ == k);
                            assert(j < n);
                            assert(before.entries@[j].0@ == k);
                            before.lemma_entry(j);
                            self.lemma_entry(j);
                        }
                    }
                    assert(self@ =~= before@.insert(key, val));
                }
            },
        }
    }
}

} // verus!
