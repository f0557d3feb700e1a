//! A map with text keys, kept in the order of its keys.

use crate::order::{
    ascending, before, lemma_ascending_distinct, lemma_before_irreflexive, lemma_before_total,
    lemma_before_transitive, precedes,
};
use crate::text::{same, texts};
use vstd::prelude::*;

verus! {

/// A map from text to `V`. Its entries are kept in ascending order of their keys.
#[derive(Debug, Clone, PartialEq, Eq)]
pub struct StringMap<V> {
    entries: Vec<(String, V)>,
}

impl<V> View for StringMap<V> {
    type V = Map<Seq<char>, V>;

    closed spec fn view(&self) -> Map<Seq<char>, V> {
        Map::new(
            |k: Seq<char>| self.key_seq().contains(k),
            |k: Seq<char>| self.entries@[self.key_seq().index_of(k)].1,
        )
    }
}

impl<V> StringMap<V> {
    /// The keys in the order of the entries.
    pub closed spec fn key_seq(&self) -> Seq<Seq<char>> {
        self.entries@.map_values(|e: (String, V)| e.0@)
    }

    /// The keys are in ascending order, so none occurs twice.
    pub open spec fn wf(&self) -> bool {
        ascending(self.key_seq())
    }

    /// The keys of the entries are the keys of the map.
    pub proof fn lemma_keys(&self)
        requires
            self.wf(),
        ensures
            self.key_seq().to_set() == self@.dom(),
            self@.dom().finite(),
            self@.dom().len() == self.key_seq().len(),
    {
        lemma_ascending_distinct(self.key_seq());
        self.key_seq().unique_seq_to_set();
        assert(self.key_seq().to_set() == self@.dom());
    }

    /// What stands at a position of the entries.
    proof fn lemma_entry(&self, i: int)
        requires
            self.wf(),
            0 <= i < self.entries@.len(),
        ensures
            self@.contains_key(self.entries@[i].0@),
            self@[self.entries@[i].0@] == self.entries@[i].1,
    {
        let k = self.entries@[i].0@;
        lemma_ascending_distinct(self.key_seq());
        assert(self.key_seq()[i] == k);
        assert(self.key_seq().contains(k));
        assert(self.key_seq().index_of(k) == i);
    }

    /// The empty map.
    pub fn new() -> (r: Self)
        ensures
            r.wf(),
            r@ == Map::<Seq<char>, V>::empty(),
    {
        let r = StringMap { entries: Vec::new() };
        assert(r@ == Map::<Seq<char>, V>::empty());
        r
    }

    /// The number of keys.
    pub fn len(&self) -> (r: usize)
        requires
            self.wf(),
        ensures
            r == self@.dom().len(),
    {
        proof {
            self.lemma_keys();
        }
        self.entries.len()
    }

    /// The keys in ascending order.
    pub fn keys(&self) -> (r: Vec<String>)
        requires
            self.wf(),
        ensures
            ascending(texts(r@)),
            texts(r@).to_set() == self@.dom(),
    {
        let mut out: Vec<String> = Vec::new();
        let mut i: usize = 0;
        while i < self.entries.len()
            invariant
                i <= self.entries.len(),
                texts(out@) == self.key_seq().take(i as int),
            decreases self.entries.len() - i,
        {
            out.push(self.entries[i].0.clone());
            assert(self.key_seq().take(i + 1) == self.key_seq().take(i as int).push(
                self.key_seq()[i as int],
            ));
            assert(texts(out@) == self.key_seq().take(i + 1));
            i += 1;
        }
        assert(texts(out@) == self.key_seq());
        proof {
            self.lemma_keys();
        }
        out
    }

    /// The position of the first entry whose key does not stand before `key`.
    fn position(&self, key: &str) -> (r: usize)
        requires
            self.wf(),
        ensures
            r <= self.entries.len(),
            forall|i: int| 0 <= i < r ==> before(#[trigger] self.key_seq()[i], key@),
            forall|i: int| r < i < self.entries.len() ==> before(key@, #[trigger] self.key_seq()[i]),
            r < self.entries.len() ==> self.key_seq()[r as int] == key@ || before(
                key@,
                self.key_seq()[r as int],
            ),
    {
        let mut i: usize = 0;
        while i < self.entries.len()
            invariant
                i <= self.entries.len(),
                self.wf(),
                forall|k: int| 0 <= k < i ==> before(#[trigger] self.key_seq()[k], key@),
            decreases self.entries.len() - i,
        {
            if !precedes(self.entries[i].0.as_str(), key) {
                proof {
                    let ks = self.key_seq();
                    assert(ks[i as int] == self.entries@[i as int].0@);
                    lemma_before_total(ks[i as int], key@);
                    assert forall|k: int| i < k < ks.len() implies before(
                        key@,
                        #[trigger] ks[k],
                    ) by {
                        assert(before(ks[i as int], ks[k]));
                        if ks[i as int] != key@ {
                            lemma_before_transitive(key@, ks[i as int], ks[k]);
                        }
                    }
                }
                return i;
            }
            assert(self.key_seq()[i as int] == self.entries@[i as int].0@);
            i += 1;
        }
        i
    }

    /// A key that stands strictly between its neighbours is no key of the map.
    proof fn lemma_absent(&self, key: Seq<char>, r: int)
        requires
            self.wf(),
            0 <= r <= self.key_seq().len(),
            forall|i: int| 0 <= i < r ==> before(#[trigger] self.key_seq()[i], key),
            forall|i: int|
                r <= i < self.key_seq().len() ==> before(key, #[trigger] self.key_seq()[i]),
        ensures
            !self@.contains_key(key),
    {
        if self.key_seq().contains(key) {
            let i = self.key_seq().index_of(key);
            assert(self.key_seq()[i] == key);
            lemma_before_irreflexive(key);
        }
    }

    /// The value of `key`, if it has one.
    pub fn get(&self, key: &str) -> (r: Option<&V>)
        requires
            self.wf(),
        ensures
            match r {
                Some(v) => self@.contains_key(key@) && *v == self@[key@],
                None => !self@.contains_key(key@),
            },
    {
        let i: usize = self.position(key);
        if i < self.entries.len() && same(self.entries[i].0.as_str(), key) {
            proof {
                self.lemma_entry(i as int);
            }
            Some(&self.entries[i].1)
        } else {
            proof {
                if i < self.entries.len() {
                    assert(self.key_seq()[i as int] == self.entries@[i as int].0@);
                }
                self.lemma_absent(key@, i as int);
            }
            None
        }
    }

    /// Whether `key` has a value.
    pub fn contains_key(&self, key: &str) -> (r: bool)
        requires
            self.wf(),
        ensures
            r == self@.contains_key(key@),
    {
        self.get(key).is_some()
    }

    /// Gives `key` the value `value`, in place of the one it may have had.
    pub fn insert(&mut self, key: String, value: V)
        requires
            old(self).wf(),
        ensures
            final(self).wf(),
            final(self)@ == old(self)@.insert(key@, value),
    {
        let ghost k = key@;
        let ghost ks = self.key_seq();
        let ghost es = self.entries@;
        let i: usize = self.position(key.as_str());
        if i < self.entries.len() && same(self.entries[i].0.as_str(), key.as_str()) {
            self.entries.set(i, (key, value));
            assert(self.key_seq() == ks);
        } else {
            self.entries.insert(i, (key, value));
            proof {
                if i < es.len() {
                    assert(ks[i as int] == es[i as int].0@);
                }
                let u = self.key_seq();
                assert(u == ks.insert(i as int, k));
                assert forall|a: int, b: int| 0 <= a < b < u.len() implies before(
                    #[trigger] u[a],
                    #[trigger] u[b],
                ) by {
                    if a < i && b < i {
                        assert(before(ks[a], ks[b]));
                    } else if a < i && b > i {
                        assert(before(ks[a], ks[b - 1]));
                    } else if a < i && b == i {
                        assert(before(ks[a], k));
                    } else if a == i {
                        assert(before(k, ks[b - 1]));
                    } else {
                        assert(before(ks[a - 1], ks[b - 1]));
                    }
                }
            }
        }
        proof {
            let m = old(self)@.insert(k, value);
            let n = self@;
            assert(self.key_seq()[i as int] == k);
            assert forall|x: Seq<char>|
                #![trigger n.dom().contains(x)]
                #![trigger m.dom().contains(x)]
                #![trigger n[x]]
                n.dom().contains(x) == m.dom().contains(x) && (n.dom().contains(x) ==> n[x]
                    == m[x]) by {
                if ks.contains(x) && x != k {
                    let j = ks.index_of(x);
                    old(self).lemma_entry(j);
                    if j < i || self.entries@.len() == es.len() {
                        self.lemma_entry(j);
                    } else {
                        self.lemma_entry(j + 1);
                    }
                }
                self.lemma_entry(i as int);
                if self.key_seq().contains(x) && x != k {
                    let j = self.key_seq().index_of(x);
                    if j < i || self.entries@.len() == es.len() {
                        old(self).lemma_entry(j);
                    } else {
                        old(self).lemma_entry(j - 1);
                    }
                }
            }
            assert(n == m);
        }
    }

    /// Takes `key` and its value out of the map.
    pub fn remove(&mut self, key: &str) -> (r: Option<V>)
        requires
            old(self).wf(),
        ensures
            final(self).wf(),
            final(self)@ == old(self)@.remove(key@),
            r == if old(self)@.contains_key(key@) {
                Some(old(self)@[key@])
            } else {
                None
            },
    {
        let ghost ks = self.key_seq();
        let ghost es = self.entries@;
        let i: usize = self.position(key);
        if i < self.entries.len() && same(self.entries[i].0.as_str(), key) {
            proof {
                self.lemma_entry(i as int);
            }
            let entry = self.entries.remove(i);
            proof {
                let u = self.key_seq();
                assert(u == ks.remove(i as int));
                assert forall|a: int, b: int| 0 <= a < b < u.len() implies before(
                    #[trigger] u[a],
                    #[trigger] u[b],
                ) by {
                    let x = if a < i { a } else { a + 1 };
                    let y = if b < i { b } else { b + 1 };
                    assert(before(ks[x], ks[y]));
                }
                let m = old(self)@.remove(key@);
                let n = self@;
                lemma_ascending_distinct(ks);
                assert(ks[i as int] == key@);
                assert forall|x: Seq<char>|
                    #![trigger n.dom().contains(x)]
                    #![trigger m.dom().contains(x)]
                    #![trigger n[x]]
                    n.dom().contains(x) == m.dom().contains(x) && (n.dom().contains(x) ==> n[x]
                        == m[x]) by {
                    if ks.contains(x) && x != key@ {
                        let j = ks.index_of(x);
                        old(self).lemma_entry(j);
                        if j < i {
                            self.lemma_entry(j);
                        } else {
                            self.lemma_entry(j - 1);
                        }
                    }
                    if u.contains(x) {
                        let j = u.index_of(x);
                        if j < i {
                            old(self).lemma_entry(j);
                            assert(ks[j] == x);
                        } else {
                            old(self).lemma_entry(j + 1);
                            assert(ks[j + 1] == x);
                        }
                    }
                }
                assert(n == m);
            }
            Some(entry.1)
        } else {
            proof {
                if i < self.entries.len() {
                    assert(ks[i as int] == es[i as int].0@);
                }
                self.lemma_absent(key@, i as int);
                assert(self@ == old(self)@.remove(key@));
            }
            None
        }
    }
}

impl<V> Default for StringMap<V> {
    /// The empty map.
    fn default() -> (r: Self)
        ensures
            r.wf(),
            r@ == Map::<Seq<char>, V>::empty(),
    {
        Self::new()
    }
}

} // verus!
