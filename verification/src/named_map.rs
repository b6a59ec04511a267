//! A map from names to values, kept as a vector of entries with distinct
//! names, in insertion order.

use vstd::prelude::*;
use crate::text::{str_eq, views};

verus! {

/// A finite map keyed by names.
#[derive(Debug)]
pub struct NamedMap<V> {
    entries: Vec<(String, V)>,
}

impl<V> NamedMap<V> {
    /// No name occurs twice among the entries.
    #[verifier::type_invariant]
    closed spec fn keys_unique(self) -> bool {
        forall|i: int, j: int|
            0 <= i < j < self.entries@.len() ==> #[trigger] self.entries@[i].0@ != #[trigger] self.entries@[j].0@
    }

    /// The entry names, in order.
    pub closed spec fn key_seq(self) -> Seq<Seq<char>> {
        self.entries@.map_values(|e: (String, V)| e.0@)
    }

    closed spec fn has_index(self, k: Seq<char>) -> bool {
        exists|i: int| 0 <= i < self.entries@.len() && self.entries@[i].0@ == k
    }

    closed spec fn index_of_key(self, k: Seq<char>) -> int {
        choose|i: int| 0 <= i < self.entries@.len() && self.entries@[i].0@ == k
    }
}

impl<V: View> NamedMap<V> {

    proof fn lemma_index(self, i: int)
        requires
            self.keys_unique(),
            0 <= i < self.entries@.len(),
        ensures
            self@.contains_key(self.entries@[i].0@),
            self@[self.entries@[i].0@] == self.entries@[i].1@,
            self.index_of_key(self.entries@[i].0@) == i,
    {
        let k = self.entries@[i].0@;
        assert(self.has_index(k));
        let j = self.index_of_key(k);
        if j != i {
            if j < i {
                assert(self.entries@[j].0@ != self.entries@[i].0@);
            } else {
                assert(self.entries@[i].0@ != self.entries@[j].0@);
            }
        }
    }

    /// The empty map.
    pub fn new() -> (m: Self)
        ensures
            m@ == Map::<Seq<char>, V::V>::empty(),
    {
        let m = NamedMap { entries: Vec::new() };
        assert(m@ =~= Map::<Seq<char>, V::V>::empty());
        m
    }

    /// The number of entries.
    pub fn len(&self) -> (n: usize)
        ensures
            n == self@.dom().len(),
            n == self.key_seq().len(),
    {
        proof {
            use_type_invariant(self);
            self.lemma_dom_is_keys();
        }
        self.entries.len()
    }

    proof fn lemma_dom_is_keys(self)
        requires
            self.keys_unique(),
        ensures
            self@.dom() == self.key_seq().to_set(),
            self.key_seq().no_duplicates(),
            self@.dom().len() == self.entries@.len(),
            self@.dom().finite(),
    {
        assert forall|k: Seq<char>| self@.dom().contains(k) <==> self.key_seq().to_set().contains(k) by {
            if self@.dom().contains(k) {
                let i = self.index_of_key(k);
                assert(self.key_seq()[i] == k);
            }
            if self.key_seq().to_set().contains(k) {
                let i = choose|i: int| 0 <= i < self.key_seq().len() && self.key_seq()[i] == k;
                assert(self.entries@[i].0@ == k);
            }
        }
        assert(self@.dom() =~= self.key_seq().to_set());
        assert forall|i: int, j: int| 0 <= i < self.key_seq().len() && 0 <= j < self.key_seq().len() && i != j
            implies self.key_seq()[i] != self.key_seq()[j] by {
            if i < j {
                assert(self.entries@[i].0@ != self.entries@[j].0@);
            } else {
                assert(self.entries@[j].0@ != self.entries@[i].0@);
            }
        }
        self.key_seq().unique_seq_to_set();
    }

    /// Where `name` stands among the entries, if it does.
    fn position(&self, name: &str) -> (r: Option<usize>)
        ensures
            r is None <==> !self@.contains_key(name@),
            r matches Some(i) ==> i < self.entries@.len() && self.entries@[i as int].0@ == name@,
    {
        proof {
            use_type_invariant(self);
        }
        let mut i: usize = 0;
        while i < self.entries.len()
            invariant
                i <= self.entries@.len(),
                forall|k: int| 0 <= k < i ==> self.entries@[k].0@ != name@,
            decreases self.entries.len() - i,
        {
            if str_eq(self.entries[i].0.as_str(), name) {
                return Some(i);
            }
            i = i + 1;
        }
        proof {
            if self@.contains_key(name@) {
                let j = self.index_of_key(name@);
                assert(self.entries@[j].0@ == name@);
            }
        }
        None
    }

    /// The value under `name`, if any.
    pub fn get(&self, name: &str) -> (r: Option<&V>)
        ensures
            r is Some <==> self@.contains_key(name@),
            r matches Some(v) ==> v@ == self@[name@],
    {
        proof {
            use_type_invariant(self);
        }
        match self.position(name) {
            Some(i) => {
                proof {
                    self.lemma_index(i as int);
                }
                Some(&self.entries[i].1)
            },
            None => None,
        }
    }

    /// Whether `name` has a value.
    pub fn contains_key(&self, name: &str) -> (r: bool)
        ensures
            r == self@.contains_key(name@),
    {
        self.position(name).is_some()
    }

    /// Sets the value under `name`, replacing any earlier one.
    pub fn insert(&mut self, name: String, value: V)
        ensures
            final(self)@ == old(self)@.insert(name@, value@),
    {
        proof {
            use_type_invariant(&*self);
        }
        let ghost old_self = *self;
        let ghost k = name@;
        let ghost v = value@;
        match self.position(name.as_str()) {
            Some(i) => {
                let mut entries: Vec<(String, V)> = Vec::new();
                std::mem::swap(&mut entries, &mut self.entries);
                entries.set(i, (name, value));
                let ghost new_entries = entries@;
                self.entries = entries;
                proof {
                    assert forall|a: int, b: int| 0 <= a < b < self.entries@.len() implies
                        #[trigger] self.entries@[a].0@ != #[trigger] self.entries@[b].0@ by {
                        assert(old_self.entries@[a].0@ != old_self.entries@[b].0@);
                    }
                    self.lemma_index(i as int);
                    assert forall|q: Seq<char>| #![auto] self@.contains_key(q) <==> old_self@.insert(k, v).contains_key(q) by {
                        if self@.contains_key(q) {
                            let j = self.index_of_key(q);
                            if q != k {
                                assert(old_self.entries@[j].0@ == q);
                                assert(old_self.has_index(q));
                            }
                        }
                        if old_self@.contains_key(q) {
                            let j = old_self.index_of_key(q);
                            if j != i {
                                assert(self.entries@[j].0@ == q);
                            }
                            assert(self.has_index(q));
                        }
                    }
                    assert forall|q: Seq<char>| #![auto] self@.contains_key(q) && q != k implies self@[q] == old_self@[q] by {
                        let j = self.index_of_key(q);
                        assert(j != i);
                        self.lemma_index(j);
                        old_self.lemma_index(j);
                    }
                    assert(self@ =~= old_self@.insert(k, v));
                }
            },
            None => {
                let mut entries: Vec<(String, V)> = Vec::new();
                std::mem::swap(&mut entries, &mut self.entries);
                entries.push((name, value));
                self.entries = entries;
                proof {
                    let n = old_self.entries@.len() as int;
                    assert forall|a: int, b: int| 0 <= a < b < self.entries@.len() implies
                        #[trigger] self.entries@[a].0@ != #[trigger] self.entries@[b].0@ by {
                        if b == n {
                            if old_self.entries@[a].0@ == k {
                                assert(old_self.has_index(k));
                            }
                        } else {
                            assert(old_self.entries@[a].0@ != old_self.entries@[b].0@);
                        }
                    }
                    self.lemma_index(n);
                    assert forall|q: Seq<char>| #![auto] self@.contains_key(q) <==> old_self@.insert(k, v).contains_key(q) by {
                        if self@.contains_key(q) {
                            let j = self.index_of_key(q);
                            if j < n {
                                assert(old_self.entries@[j].0@ == q);
                                assert(old_self.has_index(q));
                            }
                        }
                        if old_self@.contains_key(q) {
                            let j = old_self.index_of_key(q);
                            assert(self.entries@[j].0@ == q);
                            assert(self.has_index(q));
                        }
                    }
                    assert forall|q: Seq<char>| #![auto] self@.contains_key(q) && q != k implies self@[q] == old_self@[q] by {
                        let j = self.index_of_key(q);
                        assert(j != n);
                        self.lemma_index(j);
                        old_self.lemma_index(j);
                    }
                    assert(self@ =~= old_self@.insert(k, v));
                }
            },
        }
    }

    /// Drops the value under `name`, if any.
    pub fn remove(&mut self, name: &str)
        ensures
            final(self)@ == old(self)@.remove(name@),
    {
        proof {
            use_type_invariant(&*self);
        }
        let ghost old_self = *self;
        let ghost k = name@;
        match self.position(name) {
            Some(i) => {
                let mut entries: Vec<(String, V)> = Vec::new();
                std::mem::swap(&mut entries, &mut self.entries);
                let _gone = entries.remove(i);
                self.entries = entries;
                proof {
                    let n = old_self.entries@.len() as int;
                    assert forall|a: int| 0 <= a < self.entries@.len() implies #[trigger] self.entries@[a] == if a < i {
                        old_self.entries@[a]
                    } else {
                        old_self.entries@[a + 1]
                    } by {}
                    assert forall|a: int, b: int| 0 <= a < b < self.entries@.len() implies
                        #[trigger] self.entries@[a].0@ != #[trigger] self.entries@[b].0@ by {
                        let a0 = if a < i { a } else { a + 1 };
                        let b0 = if b < i { b } else { b + 1 };
                        assert(old_self.entries@[a0].0@ != old_self.entries@[b0].0@);
                    }
                    assert forall|q: Seq<char>| #![auto] self@.contains_key(q) <==> old_self@.remove(k).contains_key(q) by {
                        if self@.contains_key(q) {
                            let j = self.index_of_key(q);
                            let j0 = if j < i { j } else { j + 1 };
                            assert(old_self.entries@[j0].0@ == q);
                            assert(old_self.has_index(q));
                            if q == k {
                                old_self.lemma_index(j0);
                                old_self.lemma_index(i as int);
                            }
                        }
                        if old_self@.contains_key(q) && q != k {
                            let j = old_self.index_of_key(q);
                            assert(j != i);
                            let j1 = if j < i { j } else { j - 1 };
                            assert(self.entries@[j1].0@ == q);
                            assert(self.has_index(q));
                        }
                    }
                    assert forall|q: Seq<char>| #![auto] self@.contains_key(q) implies self@[q] == old_self@[q] by {
                        let j = self.index_of_key(q);
                        self.lemma_index(j);
                        let j0 = if j < i { j } else { j + 1 };
                        old_self.lemma_index(j0);
                    }
                    assert(self@ =~= old_self@.remove(k));
                }
            },
            None => {
                assert(self@ =~= old_self@.remove(k));
            },
        }
    }

    /// The names, in insertion order.
    pub fn keys(&self) -> (r: Vec<String>)
        ensures
            views(r@) == self.key_seq(),
            views(r@).to_set() == self@.dom(),
            views(r@).no_duplicates(),
    {
        proof {
            use_type_invariant(self);
            self.lemma_dom_is_keys();
        }
        let mut r: Vec<String> = Vec::new();
        let mut i: usize = 0;
        while i < self.entries.len()
            invariant
                i <= self.entries@.len(),
                r@.len() == i,
                views(r@) == self.key_seq().take(i as int),
            decreases self.entries.len() - i,
        {
            let ghost old_r = r@;
            r.push(self.entries[i].0.clone());
            assert(r@ == old_r.push(self.entries@[i as int].0));
            assert(old_r.len() == i);
            assert(r@.len() == i + 1);
            assert(views(r@).len() == i + 1);
            assert(views(r@)[i as int] == self.entries@[i as int].0@);
            assert(self.key_seq()[i as int] == self.entries@[i as int].0@);
            assert forall|k: int| 0 <= k < i implies views(r@)[k] == views(old_r)[k] by {}
            i = i + 1;
            assert(views(r@) =~= self.key_seq().take(i as int));
        }
        assert(self.key_seq().take(i as int) =~= self.key_seq());
        r
    }

    /// The entries, in insertion order.
    pub fn entries(&self) -> (r: &Vec<(String, V)>)
        ensures
            forall|i: int| #![auto] 0 <= i < r@.len() ==> self@.contains_key(r@[i].0@) && self@[r@[i].0@]
                == r@[i].1@,
            forall|k: Seq<char>| #![auto] self@.contains_key(k) ==> exists|i: int|
                0 <= i < r@.len() && r@[i].0@ == k,
            r@.len() == self@.dom().len(),
    {
        proof {
            use_type_invariant(self);
            self.lemma_dom_is_keys();
            assert forall|i: int| #![auto] 0 <= i < self.entries@.len() implies self@.contains_key(self.entries@[i].0@)
                && self@[self.entries@[i].0@] == self.entries@[i].1@ by {
                self.lemma_index(i);
            }
            assert forall|k: Seq<char>| #![auto] self@.contains_key(k) implies exists|i: int|
                0 <= i < self.entries@.len() && self.entries@[i].0@ == k by {
                let i = self.index_of_key(k);
            }
        }
        &self.entries
    }
}

impl<V: View> View for NamedMap<V> {
    type V = Map<Seq<char>, V::V>;

    closed spec fn view(&self) -> Map<Seq<char>, V::V> {
        Map::new(
            |k: Seq<char>| self.has_index(k),
            |k: Seq<char>| self.entries@[self.index_of_key(k)].1@,
        )
    }
}

} // verus!
