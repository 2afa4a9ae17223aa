//! A small map keyed by strings, kept as a vector of entries with distinct keys. Its view
//! is a `Map` from the key's characters to the value.

use vstd::prelude::*;
use crate::text::{owned, str_eq};

verus! {

pub struct StrMap<V> {
    entries: Vec<(String, V)>,
}

impl<V> StrMap<V> {
    pub closed spec fn view(&self) -> Map<Seq<char>, V> {
        Map::new(
            |key: Seq<char>|
                exists|k: int| 0 <= k < self.entries@.len() && #[trigger] self.entries@[k].0@ == key,
            |key: Seq<char>|
                self.entries@[choose|k: int|
                    0 <= k < self.entries@.len() && #[trigger] self.entries@[k].0@ == key].1,
        )
    }

    /// Keys are distinct.
    pub closed spec fn wf(&self) -> bool {
        forall|a: int, b: int|
            0 <= a < b < self.entries@.len() ==> #[trigger] self.entries@[a].0@
                != #[trigger] self.entries@[b].0@
    }

    pub fn new() -> (r: Self)
        ensures
            r.wf(),
            r@ == Map::<Seq<char>, V>::empty(),
    {
        let r = StrMap { entries: Vec::new() };
        assert(r@ =~= Map::<Seq<char>, V>::empty());
        r
    }

    pub fn len(&self) -> (n: usize)
        requires
            self.wf(),
        ensures
            n == self@.dom().len(),
    {
        proof {
            self.lemma_dom_len();
        }
        self.entries.len()
    }

    /// The keys, each once, in insertion order.
    pub fn keys(&self) -> (r: Vec<String>)
        requires
            self.wf(),
        ensures
            r@.len() == self@.dom().len(),
            forall|i: int| 0 <= i < r@.len() ==> self@.contains_key(#[trigger] r@[i]@),
            forall|k: Seq<char>| #[trigger] self@.contains_key(k) ==> exists|i: int| 0 <= i < r@.len() && r@[i]@ == k,
            forall|a: int, b: int| 0 <= a < b < r@.len() ==> (#[trigger] r@[a])@ != (#[trigger] r@[b])@,
    {
        proof {
            self.lemma_dom_len();
        }
        let mut out: Vec<String> = Vec::new();
        let mut i: usize = 0;
        while i < self.entries.len()
            invariant
                self.wf(),
                i <= self.entries@.len(),
                out@.len() == i,
                forall|j: int| 0 <= j < i ==> (#[trigger] out@[j])@ == self.entries@[j].0@,
            decreases self.entries@.len() - i,
        {
            out.push(self.entries[i].0.clone());
            i = i + 1;
        }
        proof {
            assert forall|j: int| 0 <= j < out@.len() implies self@.contains_key(#[trigger] out@[j]@) by {
                self.lemma_index(j);
            }
            assert forall|k: Seq<char>| #[trigger] self@.contains_key(k) implies exists|j: int| 0 <= j < out@.len() && out@[j]@ == k by {
                let c = choose|c: int| 0 <= c < self.entries@.len() && #[trigger] self.entries@[c].0@ == k;
                assert(out@[c]@ == k);
            }
            assert forall|a: int, b: int| 0 <= a < b < out@.len() implies (#[trigger] out@[a])@ != (#[trigger] out@[b])@ by {
                assert(self.entries@[a].0@ != self.entries@[b].0@);
            }
        }
        out
    }

    proof fn lemma_dom_len(&self)
        requires
            self.wf(),
        ensures
            self@.dom().len() == self.entries@.len(),
            self@.dom().finite(),
        decreases self.entries@.len(),
    {
        let keys = self.entries@.map_values(|e: (String, V)| e.0@);
        assert(self@.dom() =~= keys.to_set()) by {
            assert forall|key: Seq<char>| self@.dom().contains(key) implies keys.to_set().contains(key) by {
                let k = choose|k: int| 0 <= k < self.entries@.len() && #[trigger] self.entries@[k].0@ == key;
                assert(keys[k] == key);
            }
            assert forall|key: Seq<char>| keys.to_set().contains(key) implies self@.dom().contains(key) by {
                let k = choose|k: int| 0 <= k < keys.len() && keys[k] == key;
                assert(self.entries@[k].0@ == key);
            }
        }
        assert(keys.no_duplicates()) by {
            assert forall|a: int, b: int| 0 <= a < keys.len() && 0 <= b < keys.len() && a != b implies keys[a] != keys[b] by {
                if a < b {
                    assert(self.entries@[a].0@ != self.entries@[b].0@);
                } else {
                    assert(self.entries@[b].0@ != self.entries@[a].0@);
                }
            }
        }
        keys.unique_seq_to_set();
    }

    proof fn lemma_index(&self, k: int)
        requires
            self.wf(),
            0 <= k < self.entries@.len(),
        ensures
            self@.contains_key(self.entries@[k].0@),
            self@[self.entries@[k].0@] == self.entries@[k].1,
    {
        let key = self.entries@[k].0@;
        assert(self@.contains_key(key));
        let c = choose|c: int| 0 <= c < self.entries@.len() && #[trigger] self.entries@[c].0@ == key;
        if c < k {
            assert(self.entries@[c].0@ != self.entries@[k].0@);
        } else if c > k {
            assert(self.entries@[k].0@ != self.entries@[c].0@);
        }
    }

    fn position(&self, key: &str) -> (r: Option<usize>)
        requires
            self.wf(),
        ensures
            r matches Some(k) ==> k < self.entries@.len() && self.entries@[k as int].0@ == key@
                && self@.contains_key(key@) && self@[key@] == self.entries@[k as int].1,
            r is None ==> !self@.contains_key(key@),
    {
        let mut k: usize = 0;
        while k < self.entries.len()
            invariant
                self.wf(),
                k <= self.entries@.len(),
                forall|q: int| 0 <= q < k ==> self.entries@[q].0@ != key@,
            decreases self.entries@.len() - k,
        {
            if str_eq(self.entries[k].0.as_str(), key) {
                proof {
                    self.lemma_index(k as int);
                }
                return Some(k);
            }
            k = k + 1;
        }
        None
    }

    pub fn contains_key(&self, key: &str) -> (r: bool)
        requires
            self.wf(),
        ensures
            r == self@.contains_key(key@),
    {
        self.position(key).is_some()
    }

    pub fn get(&self, key: &str) -> (r: Option<&V>)
        requires
            self.wf(),
        ensures
            r matches Some(v) ==> self@.contains_key(key@) && self@[key@] == *v,
            r is None ==> !self@.contains_key(key@),
    {
        match self.position(key) {
            Some(k) => Some(&self.entries[k].1),
            None => None,
        }
    }

    pub fn insert(&mut self, key: &str, value: V)
        requires
            old(self).wf(),
        ensures
            final(self).wf(),
            final(self)@ == old(self)@.insert(key@, value),
    {
        let ghost before = self.entries@;
        match self.position(key) {
            Some(k) => {
                self.entries.set(k, (owned(key), value));
                proof {
                    assert(self.wf()) by {
                        assert forall|a: int, b: int|
                            0 <= a < b < self.entries@.len() implies #[trigger] self.entries@[a].0@
                            != #[trigger] self.entries@[b].0@ by {
                            assert(before[a].0@ != before[b].0@);
                        }
                    }
                    assert(self@ =~= old(self)@.insert(key@, value)) by {
                        assert forall|x: Seq<char>| #[trigger] self@.contains_key(x) <==> old(self)@.insert(key@, value).contains_key(x) by {
                            if self@.contains_key(x) {
                                let q = choose|q: int| 0 <= q < self.entries@.len() && #[trigger] self.entries@[q].0@ == x;
                                if q != k as int {
                                    assert(self.entries@[q] == before[q]);
                                }
                            }
                            if old(self)@.contains_key(x) && x != key@ {
                                let q = choose|q: int| 0 <= q < before.len() && #[trigger] before[q].0@ == x;
                                assert(q != k as int);
                                assert(self.entries@[q] == before[q]);
                            }
                            if x == key@ {
                                assert(self.entries@[k as int].0@ == x);
                            }
                        }
                        assert forall|x: Seq<char>| #[trigger] self@.contains_key(x) implies self@[x] == old(self)@.insert(key@, value)[x] by {
                            let q = choose|q: int| 0 <= q < self.entries@.len() && #[trigger] self.entries@[q].0@ == x;
                            self.lemma_index(q);
                            if q != k as int {
                                assert(self.entries@[q] == before[q]);
                                old(self).lemma_index(q);
                            }
                        }
                    }
                }
            },
            None => {
                self.entries.push((owned(key), value));
                proof {
                    assert(self.wf()) by {
                        assert forall|a: int, b: int|
                            0 <= a < b < self.entries@.len() implies #[trigger] self.entries@[a].0@
                            != #[trigger] self.entries@[b].0@ by {
                            if b == before.len() {
                                assert(self.entries@[a] == before[a]);
                                if self.entries@[a].0@ == key@ {
                                    assert(old(self)@.contains_key(key@));
                                }
                            } else {
                                assert(before[a].0@ != before[b].0@);
                            }
                        }
                    }
                    assert(self@ =~= old(self)@.insert(key@, value)) by {
                        assert forall|x: Seq<char>| #[trigger] self@.contains_key(x) <==> old(self)@.insert(key@, value).contains_key(x) by {
                            if self@.contains_key(x) && x != key@ {
                                let q = choose|q: int| 0 <= q < self.entries@.len() && #[trigger] self.entries@[q].0@ == x;
                                assert(q < before.len());
                                assert(self.entries@[q] == before[q]);
                            }
                            if old(self)@.contains_key(x) {
                                let q = choose|q: int| 0 <= q < before.len() && #[trigger] before[q].0@ == x;
                                assert(self.entries@[q] == before[q]);
                            }
                            if x == key@ {
                                assert(self.entries@[before.len() as int].0@ == x);
                            }
                        }
                        assert forall|x: Seq<char>| #[trigger] self@.contains_key(x) implies self@[x] == old(self)@.insert(key@, value)[x] by {
                            let q = choose|q: int| 0 <= q < self.entries@.len() && #[trigger] self.entries@[q].0@ == x;
                            self.lemma_index(q);
                            if q < before.len() {
                                assert(self.entries@[q] == before[q]);
                                old(self).lemma_index(q);
                            }
                        }
                    }
                }
            },
        }
    }

    /// Removes the entry of `key` and returns its value, if there was one.
    pub fn take(&mut self, key: &str) -> (r: Option<V>)
        requires
            old(self).wf(),
        ensures
            final(self).wf(),
            final(self)@ == old(self)@.remove(key@),
            r is Some <==> old(self)@.contains_key(key@),
            r matches Some(v) ==> v == old(self)@[key@],
    {
        match self.position(key) {
            None => {
                assert(self@ =~= self@.remove(key@));
                None
            },
            Some(k) => {
                let ghost before = self.entries@;
                let (_, value) = self.entries.remove(k);
                assert(self.entries@ =~= before.remove(k as int));
                assert(self.wf()) by {
                    assert forall|a: int, b: int|
                        0 <= a < b < self.entries@.len() implies #[trigger] self.entries@[a].0@
                        != #[trigger] self.entries@[b].0@ by {
                        let a2 = if a < k { a } else { a + 1 };
                        let b2 = if b < k { b } else { b + 1 };
                        assert(before[a2].0@ != before[b2].0@);
                    }
                }
                assert(self@ =~= old(self)@.remove(key@)) by {
                    assert forall|x: Seq<char>| #[trigger] self@.contains_key(x) <==> old(self)@.remove(key@).contains_key(x) by {
                        if self@.contains_key(x) {
                            let q = choose|q: int| 0 <= q < self.entries@.len() && #[trigger] self.entries@[q].0@ == x;
                            let q2 = if q < k { q } else { q + 1 };
                            assert(self.entries@[q] == before[q2]);
                            if x == key@ {
                                if q2 < k {
                                    assert(before[q2].0@ != before[k as int].0@);
                                } else {
                                    assert(before[k as int].0@ != before[q2].0@);
                                }
                            }
                        }
                        if old(self)@.contains_key(x) && x != key@ {
                            let q = choose|q: int| 0 <= q < before.len() && #[trigger] before[q].0@ == x;
                            assert(q != k);
                            let q2 = if q < k { q } else { q - 1 };
                            assert(self.entries@[q2] == before[q]);
                        }
                    }
                    assert forall|x: Seq<char>| #[trigger] self@.contains_key(x) implies self@[x] == old(self)@.remove(key@)[x] by {
                        let q = choose|q: int| 0 <= q < self.entries@.len() && #[trigger] self.entries@[q].0@ == x;
                        let q2 = if q < k { q } else { q + 1 };
                        assert(self.entries@[q] == before[q2]);
                        self.lemma_index(q);
                        old(self).lemma_index(q2);
                    }
                }
                Some(value)
            },
        }
    }

    pub fn remove(&mut self, key: &str)
        requires
            old(self).wf(),
        ensures
            final(self).wf(),
            final(self)@ == old(self)@.remove(key@),
    {
        let _ = self.take(key);
    }

    pub fn clear(&mut self)
        ensures
            final(self).wf(),
            final(self)@ == Map::<Seq<char>, V>::empty(),
    {
        self.entries = Vec::new();
        assert(self@ =~= Map::<Seq<char>, V>::empty());
    }
}

} // verus!
