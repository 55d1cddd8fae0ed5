//! A finite map kept as a vector of (key, value) pairs with distinct keys.
use vstd::prelude::*;
use vstd::laws_eq::obeys_concrete_eq;

verus! {

/// A map from `K` to `V` stored as pairs in a vector. Keys are distinct; the
/// order of the pairs is the order in which keys were first inserted.
#[verifier::reject_recursive_types(K)]
pub struct AssocMap<K, V> {
    pairs: Vec<(K, V)>,
    m: Ghost<Map<K, V>>,
}

impl<K, V> View for AssocMap<K, V> {
    type V = Map<K, V>;

    closed spec fn view(&self) -> Map<K, V> {
        self.m@
    }
}

impl<K, V> AssocMap<K, V> {
    /// The pairs in storage order.
    pub closed spec fn spec_pairs(&self) -> Seq<(K, V)> {
        self.pairs@
    }

    pub closed spec fn wf(&self) -> bool {
        &&& forall|i: int, j: int|
            0 <= i < j < self.pairs@.len() ==> #[trigger] self.pairs@[i].0 != #[trigger] self.pairs@[j].0
        &&& forall|i: int|
            0 <= i < self.pairs@.len() ==> self.m@.contains_key(#[trigger] self.pairs@[i].0)
                && self.m@[self.pairs@[i].0] == self.pairs@[i].1
        &&& forall|k: K| #[trigger]
            self.m@.contains_key(k) ==> exists|i: int|
                0 <= i < self.pairs@.len() && self.pairs@[i].0 == k
    }

    /// The pairs list every entry of the map once.
    pub proof fn lemma_pairs(&self)
        requires
            self.wf(),
        ensures
            forall|i: int, j: int|
                0 <= i < j < self.spec_pairs().len() ==> self.spec_pairs()[i].0
                    != self.spec_pairs()[j].0,
            forall|i: int|
                0 <= i < self.spec_pairs().len() ==> #[trigger] self@.contains_key(
                    self.spec_pairs()[i].0,
                ) && self@[self.spec_pairs()[i].0] == self.spec_pairs()[i].1,
            forall|k: K| #[trigger]
                self@.contains_key(k) ==> exists|i: int|
                    0 <= i < self.spec_pairs().len() && self.spec_pairs()[i].0 == k,
            self@.dom().finite(),
            self@.dom().len() == self.spec_pairs().len(),
    {
        self.lemma_dom_len();
        assert forall|i: int|
            0 <= i < self.spec_pairs().len() implies #[trigger] self@.contains_key(
            self.spec_pairs()[i].0,
        ) && self@[self.spec_pairs()[i].0] == self.spec_pairs()[i].1 by {
            assert(self.m@.contains_key(self.pairs@[i].0));
        }
        assert forall|i: int, j: int|
            0 <= i < j < self.spec_pairs().len() implies self.spec_pairs()[i].0
            != self.spec_pairs()[j].0 by {
            assert(self.pairs@[i].0 != self.pairs@[j].0);
        }
        assert forall|k: K| #[trigger] self@.contains_key(k) implies exists|i: int|
            0 <= i < self.spec_pairs().len() && self.spec_pairs()[i].0 == k by {
            assert(self.m@.contains_key(k));
            let i = choose|i: int| 0 <= i < self.pairs@.len() && self.pairs@[i].0 == k;
            assert(self.spec_pairs()[i].0 == k);
        }
    }

    proof fn lemma_dom_len(&self)
        requires
            self.wf(),
        ensures
            self@.dom().finite(),
            self@.dom().len() == self.pairs@.len(),
    {
        let keys = self.pairs@.map_values(|p: (K, V)| p.0);
        assert(keys.no_duplicates()) by {
            assert forall|i: int, j: int| 0 <= i < keys.len() && 0 <= j < keys.len() && i != j
                implies keys[i] != keys[j] by {
                assert(keys[i] == self.pairs@[i].0 && keys[j] == self.pairs@[j].0);
            }
        }
        assert(self.m@.dom() =~= keys.to_set()) by {
            assert forall|k: K| self.m@.dom().contains(k) implies keys.to_set().contains(k) by {
                let i = choose|i: int| 0 <= i < self.pairs@.len() && self.pairs@[i].0 == k;
                assert(keys[i] == k);
            }
            assert forall|k: K| keys.to_set().contains(k) implies self.m@.dom().contains(k) by {
                let i = choose|i: int| 0 <= i < keys.len() && keys[i] == k;
                assert(self.pairs@[i].0 == k);
            }
        }
        keys.unique_seq_to_set();
    }

    pub fn new() -> (r: Self)
        ensures
            r.wf(),
            r@ == Map::<K, V>::empty(),
            r.spec_pairs() == Seq::<(K, V)>::empty(),
    {
        AssocMap { pairs: Vec::new(), m: Ghost(Map::empty()) }
    }

    pub fn len(&self) -> (r: usize)
        requires
            self.wf(),
        ensures
            r == self.spec_pairs().len(),
            r == self@.dom().len(),
    {
        proof {
            self.lemma_dom_len();
        }
        self.pairs.len()
    }

    pub fn is_empty(&self) -> (r: bool)
        requires
            self.wf(),
        ensures
            r == (self@ == Map::<K, V>::empty()),
    {
        proof {
            self.lemma_dom_len();
            if self.pairs.len() > 0 {
                assert(self.m@.contains_key(self.pairs@[0].0));
            } else {
                assert(self.m@ =~= Map::<K, V>::empty());
            }
        }
        self.pairs.len() == 0
    }

    /// The pair stored at position `i`.
    pub fn pair_at(&self, i: usize) -> (r: &(K, V))
        requires
            self.wf(),
            i < self.spec_pairs().len(),
        ensures
            *r == self.spec_pairs()[i as int],
            self@.contains_key(r.0),
            self@[r.0] == r.1,
    {
        &self.pairs[i]
    }

    /// Hands over the pairs in storage order.
    pub fn into_pairs(self) -> (r: Vec<(K, V)>)
        requires
            self.wf(),
        ensures
            r@ == self.spec_pairs(),
    {
        self.pairs
    }
}

impl<K: PartialEq, V> AssocMap<K, V> {
    /// The position of `k` among the pairs, if it is there.
    pub fn find(&self, k: &K) -> (r: Option<usize>)
        requires
            self.wf(),
            obeys_concrete_eq::<K>(),
        ensures
            match r {
                Some(i) => i < self.spec_pairs().len() && self.spec_pairs()[i as int].0 == *k
                    && self@.contains_key(*k),
                None => !self@.contains_key(*k),
            },
    {
        proof {
            reveal(obeys_concrete_eq);
        }
        let mut i: usize = 0;
        while i < self.pairs.len()
            invariant
                self.wf(),
                obeys_concrete_eq::<K>(),
                i <= self.pairs@.len(),
                forall|j: int| 0 <= j < i ==> self.pairs@[j].0 != *k,
            decreases self.pairs@.len() - i,
        {
            proof {
                reveal(obeys_concrete_eq);
            }
            if self.pairs[i].0.eq(k) {
                return Some(i);
            }
            i = i + 1;
        }
        None
    }

    pub fn contains_key(&self, k: &K) -> (r: bool)
        requires
            self.wf(),
            obeys_concrete_eq::<K>(),
        ensures
            r == self@.contains_key(*k),
    {
        self.find(k).is_some()
    }

    pub fn get(&self, k: &K) -> (r: Option<&V>)
        requires
            self.wf(),
            obeys_concrete_eq::<K>(),
        ensures
            match r {
                Some(v) => self@.contains_key(*k) && self@[*k] == *v,
                None => !self@.contains_key(*k),
            },
    {
        match self.find(k) {
            Some(i) => Some(&self.pairs[i].1),
            None => None,
        }
    }

    /// Sets the value of `k` to `v`; a new key goes after all others.
    pub fn insert(&mut self, k: K, v: V)
        requires
            old(self).wf(),
            obeys_concrete_eq::<K>(),
        ensures
            final(self).wf(),
            final(self)@ == old(self)@.insert(k, v),
    {
        match self.find(&k) {
            Some(i) => {
                let ghost old_pairs = self.pairs@;
                let ghost old_m = self.m@;
                self.pairs.set(i, (k, v));
                proof {
                    self.m@ = old_m.insert(k, v);
                    assert forall|j: int| 0 <= j < self.pairs@.len() && j != i implies
                        self.pairs@[j] == old_pairs[j] && old_pairs[j].0 != k by {
                        if j < i {
                            assert(old_pairs[j].0 != old_pairs[i as int].0);
                        } else {
                            assert(old_pairs[i as int].0 != old_pairs[j].0);
                        }
                    }
                    assert forall|a: int, b: int| 0 <= a < b < self.pairs@.len() implies
                        self.pairs@[a].0 != self.pairs@[b].0 by {
                        assert(old_pairs[a].0 != old_pairs[b].0);
                    }
                    assert forall|k2: K| #[trigger] self.m@.contains_key(k2) implies exists|j: int|
                        0 <= j < self.pairs@.len() && self.pairs@[j].0 == k2 by {
                        if k2 == k {
                            assert(self.pairs@[i as int].0 == k2);
                        } else {
                            let j = choose|j: int|
                                0 <= j < old_pairs.len() && old_pairs[j].0 == k2;
                            assert(self.pairs@[j].0 == k2);
                        }
                    }
                }
            },
            None => {
                let ghost old_pairs = self.pairs@;
                let ghost old_m = self.m@;
                self.pairs.push((k, v));
                proof {
                    self.m@ = old_m.insert(k, v);
                    assert forall|k2: K| #[trigger] self.m@.contains_key(k2) implies exists|j: int|
                        0 <= j < self.pairs@.len() && self.pairs@[j].0 == k2 by {
                        if k2 == k {
                            assert(self.pairs@[old_pairs.len() as int].0 == k2);
                        } else {
                            let j = choose|j: int|
                                0 <= j < old_pairs.len() && old_pairs[j].0 == k2;
                            assert(self.pairs@[j].0 == k2);
                        }
                    }
                    assert forall|j: int| 0 <= j < old_pairs.len() implies old_pairs[j].0 != k by {
                        assert(old_m.contains_key(old_pairs[j].0));
                    }
                }
            },
        }
    }

    /// Removes `k`, returning its value if it was there.
    pub fn remove(&mut self, k: &K) -> (r: Option<V>)
        requires
            old(self).wf(),
            obeys_concrete_eq::<K>(),
        ensures
            final(self).wf(),
            final(self)@ == old(self)@.remove(*k),
            match r {
                Some(v) => old(self)@.contains_key(*k) && old(self)@[*k] == v,
                None => !old(self)@.contains_key(*k),
            },
    {
        match self.find(k) {
            Some(i) => {
                let ghost old_pairs = self.pairs@;
                let ghost old_m = self.m@;
                let (_, v) = self.pairs.remove(i);
                proof {
                    self.m@ = old_m.remove(*k);
                    assert forall|j: int| 0 <= j < self.pairs@.len() implies #[trigger]
                        self.m@.contains_key(self.pairs@[j].0) && self.m@[self.pairs@[j].0]
                        == self.pairs@[j].1 by {
                        if j < i {
                            assert(self.pairs@[j] == old_pairs[j]);
                            assert(old_pairs[j].0 != old_pairs[i as int].0);
                            assert(old_m.contains_key(old_pairs[j].0));
                        } else {
                            assert(self.pairs@[j] == old_pairs[j + 1]);
                            assert(old_pairs[i as int].0 != old_pairs[j + 1].0);
                            assert(old_m.contains_key(old_pairs[j + 1].0));
                        }
                    }
                    assert forall|k2: K| #[trigger] self.m@.contains_key(k2) implies exists|j: int|
                        0 <= j < self.pairs@.len() && self.pairs@[j].0 == k2 by {
                        let j = choose|j: int| 0 <= j < old_pairs.len() && old_pairs[j].0 == k2;
                        if j < i {
                            assert(self.pairs@[j].0 == k2);
                        } else {
                            assert(j != i);
                            assert(self.pairs@[j - 1].0 == k2);
                        }
                    }
                    assert forall|a: int, b: int|
                        0 <= a < b < self.pairs@.len() implies self.pairs@[a].0
                        != self.pairs@[b].0 by {
                        let oa = if a < i { a } else { a + 1 };
                        let ob = if b < i { b } else { b + 1 };
                        assert(self.pairs@[a] == old_pairs[oa]);
                        assert(self.pairs@[b] == old_pairs[ob]);
                        assert(old_pairs[oa].0 != old_pairs[ob].0);
                    }
                }
                Some(v)
            },
            None => {
                proof {
                    assert(self.m@.remove(*k) =~= self.m@);
                }
                None
            },
        }
    }
}

} // verus!
