//! Transitions of one optional value, and keyed collections of them that merge
//! associatively and invert.
use vstd::prelude::*;
use vstd::laws_eq::obeys_concrete_eq;
use crate::assoc::AssocMap;

verus! {

/// The change of one slot from the value `before` to the value `after`
/// (`None` is absence: `None -> Some` creates, `Some -> None` deletes).
#[derive(Clone, Debug, PartialEq, Eq)]
pub struct DataDelta<T> {
    pub before: Option<T>,
    pub after: Option<T>,
}

/// Why two transitions do not compose.
#[derive(Clone, Debug, PartialEq, Eq)]
pub enum DeltaMergeError<T> {
    /// The first transition ends in `expected` but the second starts from `found`.
    ContinuityMismatch { expected: Option<T>, found: Option<T> },
}

fn option_eq<T: PartialEq>(a: &Option<T>, b: &Option<T>) -> (r: bool)
    requires
        obeys_concrete_eq::<T>(),
    ensures
        r == (*a == *b),
{
    proof {
        reveal(obeys_concrete_eq);
    }
    match (a, b) {
        (Some(x), Some(y)) => x.eq(y),
        (None, None) => true,
        _ => false,
    }
}

impl<T> DataDelta<T> {
    pub open spec fn is_noop(self) -> bool {
        self.before == self.after
    }

    /// `self` followed by `next`, when `next` starts where `self` ends.
    pub open spec fn spec_merge(self, next: Self) -> Option<Self> {
        if self.after == next.before {
            Some(DataDelta { before: self.before, after: next.after })
        } else {
            None
        }
    }

    pub open spec fn spec_invert(self) -> Self {
        DataDelta { before: self.after, after: self.before }
    }

    pub fn new(before: Option<T>, after: Option<T>) -> (r: Self)
        ensures
            r.before == before,
            r.after == after,
    {
        DataDelta { before, after }
    }

    /// The transition that undoes `self`.
    pub fn invert(self) -> (r: Self)
        ensures
            r == self.spec_invert(),
    {
        DataDelta { before: self.after, after: self.before }
    }
}

impl<T: PartialEq> DataDelta<T> {
    /// `self` followed by `next`; fails unless `next` starts where `self` ends.
    pub fn merge(self, next: DataDelta<T>) -> (r: Result<DataDelta<T>, DeltaMergeError<T>>)
        requires
            obeys_concrete_eq::<T>(),
        ensures
            match r {
                Ok(d) => self.spec_merge(next) == Some(d),
                Err(e) => self.spec_merge(next) is None && e == (DeltaMergeError::ContinuityMismatch {
                    expected: self.after,
                    found: next.before,
                }),
            },
    {
        if option_eq(&self.after, &next.before) {
            Ok(DataDelta { before: self.before, after: next.after })
        } else {
            Err(DeltaMergeError::ContinuityMismatch { expected: self.after, found: next.before })
        }
    }

    /// Whether the transition leaves the value as it was.
    pub fn is_noop_exec(&self) -> (r: bool)
        requires
            obeys_concrete_eq::<T>(),
        ensures
            r == self.is_noop(),
    {
        option_eq(&self.before, &self.after)
    }
}

/// Merging is associative on chained transitions.
pub proof fn lemma_merge_associative<T>(d1: DataDelta<T>, d2: DataDelta<T>, d3: DataDelta<T>)
    requires
        d1.after == d2.before,
        d2.after == d3.before,
    ensures
        d1.spec_merge(d2) is Some,
        d2.spec_merge(d3) is Some,
        d1.spec_merge(d2)->Some_0.spec_merge(d3) is Some,
        d1.spec_merge(d2)->Some_0.spec_merge(d3) == d1.spec_merge(d2.spec_merge(d3)->Some_0),
{
}

/// Merging fails exactly when the second transition does not start where the first ends.
pub proof fn lemma_merge_fails_on_gap<T>(d1: DataDelta<T>, d2: DataDelta<T>)
    ensures
        d1.spec_merge(d2) is None <==> d1.after != d2.before,
{
}

pub open spec fn entry_of<K, V>(m: Map<K, V>, k: K) -> Option<V> {
    if m.contains_key(k) {
        Some(m[k])
    } else {
        None
    }
}

/// Whether `d` may follow what is stored (absence lets anything follow).
pub open spec fn continues<T>(cur: Option<DataDelta<T>>, d: DataDelta<T>) -> bool {
    match cur {
        Some(c) => c.after == d.before,
        None => true,
    }
}

/// What is stored after `d` follows `cur`.
pub open spec fn combined<T>(cur: Option<DataDelta<T>>, d: DataDelta<T>) -> DataDelta<T> {
    match cur {
        Some(c) => DataDelta { before: c.before, after: d.after },
        None => d,
    }
}

/// `n` stored at `k`, where a no-op leaves the key absent.
pub open spec fn store<K, T>(m: Map<K, DataDelta<T>>, k: K, n: DataDelta<T>) -> Map<
    K,
    DataDelta<T>,
> {
    if n.is_noop() {
        m.remove(k)
    } else {
        m.insert(k, n)
    }
}

/// The collection `m` after `d` is merged in at `k`, or `None` on a continuity gap.
pub open spec fn merge_element_spec<K, T>(m: Map<K, DataDelta<T>>, k: K, d: DataDelta<T>) -> Option<
    Map<K, DataDelta<T>>,
> {
    if continues(entry_of(m, k), d) {
        Some(store(m, k, combined(entry_of(m, k), d)))
    } else {
        None
    }
}

/// Whether every transition of `o` may follow what `m` holds at its key.
pub open spec fn mergeable<K, T>(m: Map<K, DataDelta<T>>, o: Map<K, DataDelta<T>>) -> bool {
    forall|k: K| #[trigger] o.contains_key(k) ==> continues(entry_of(m, k), o[k])
}

/// `m` with every transition of `o` merged in at its key.
pub open spec fn merged<K, T>(m: Map<K, DataDelta<T>>, o: Map<K, DataDelta<T>>) -> Map<
    K,
    DataDelta<T>,
> {
    Map::new(
        |k: K|
            if o.contains_key(k) {
                !combined(entry_of(m, k), o[k]).is_noop()
            } else {
                m.contains_key(k)
            },
        |k: K|
            if o.contains_key(k) {
                combined(entry_of(m, k), o[k])
            } else {
                m[k]
            },
    )
}

/// Merging collections is associative: when both groupings of three
/// collections merge without a gap, they give the same collection.
pub proof fn lemma_collection_merge_associative<K, T>(
    m1: Map<K, DataDelta<T>>,
    m2: Map<K, DataDelta<T>>,
    m3: Map<K, DataDelta<T>>,
)
    requires
        no_noops(m1),
        no_noops(m2),
        no_noops(m3),
        mergeable(m1, m2),
        mergeable(merged(m1, m2), m3),
        mergeable(m2, m3),
        mergeable(m1, merged(m2, m3)),
    ensures
        merged(merged(m1, m2), m3) == merged(m1, merged(m2, m3)),
{
    assert forall|k: K| true implies (#[trigger] merged(merged(m1, m2), m3).contains_key(k)
        == merged(m1, merged(m2, m3)).contains_key(k)) && (merged(merged(m1, m2), m3).contains_key(k)
        ==> merged(merged(m1, m2), m3)[k] == merged(m1, merged(m2, m3))[k]) by {
        if m2.contains_key(k) {
            assert(continues(entry_of(m1, k), m2[k]));
        }
        if m3.contains_key(k) {
            assert(continues(entry_of(merged(m1, m2), k), m3[k]));
        }
        if merged(m2, m3).contains_key(k) {
            assert(continues(entry_of(m1, k), merged(m2, m3)[k]));
        }
    }
    assert(merged(merged(m1, m2), m3) =~= merged(m1, merged(m2, m3)));
}

/// Every transition inverted.
pub open spec fn inverted<K, T>(m: Map<K, DataDelta<T>>) -> Map<K, DataDelta<T>> {
    m.map_values(|d: DataDelta<T>| d.spec_invert())
}

/// No stored transition is a no-op.
pub open spec fn no_noops<K, T>(m: Map<K, DataDelta<T>>) -> bool {
    forall|k: K| #[trigger] m.contains_key(k) ==> !m[k].is_noop()
}

/// A collection merged with its own inverse has no net effect left.
pub proof fn lemma_merge_inverse_cancels<K, T>(m: Map<K, DataDelta<T>>)
    ensures
        mergeable(m, inverted(m)),
        merged(m, inverted(m)) == Map::<K, DataDelta<T>>::empty(),
{
    assert(merged(m, inverted(m)) =~= Map::<K, DataDelta<T>>::empty());
}

/// Transitions keyed by `K`, where each key holds the net change made to it.
#[verifier::reject_recursive_types(K)]
pub struct DeltaDataCollection<K, T> {
    data: AssocMap<K, DataDelta<T>>,
}

impl<K, T> View for DeltaDataCollection<K, T> {
    type V = Map<K, DataDelta<T>>;

    closed spec fn view(&self) -> Map<K, DataDelta<T>> {
        self.data@
    }
}

impl<K, T> DeltaDataCollection<K, T> {
    pub closed spec fn wf(&self) -> bool {
        &&& self.data.wf()
        &&& no_noops(self.data@)
    }

    pub fn new() -> (r: Self)
        ensures
            r.wf(),
            r@ == Map::<K, DataDelta<T>>::empty(),
    {
        DeltaDataCollection { data: AssocMap::new() }
    }

    pub fn len(&self) -> (r: usize)
        requires
            self.wf(),
        ensures
            r == self@.dom().len(),
    {
        self.data.len()
    }

    pub fn is_empty(&self) -> (r: bool)
        requires
            self.wf(),
        ensures
            r == (self@ == Map::<K, DataDelta<T>>::empty()),
    {
        self.data.is_empty()
    }

    pub proof fn lemma_wf(&self)
        requires
            self.wf(),
        ensures
            no_noops(self@),
            self@.dom().finite(),
    {
        self.data.lemma_pairs();
    }
}

impl<K: PartialEq, T: PartialEq + Clone> DeltaDataCollection<K, T> {
    /// The net transition recorded for `key`.
    pub fn get(&self, key: &K) -> (r: Option<&DataDelta<T>>)
        requires
            self.wf(),
            obeys_concrete_eq::<K>(),
        ensures
            match r {
                Some(d) => self@.contains_key(*key) && self@[*key] == *d,
                None => !self@.contains_key(*key),
            },
    {
        self.data.get(key)
    }

    /// Merges `delta` into the transition held at `key` (absence is the identity);
    /// a result with no net effect leaves the key absent. On a continuity gap the
    /// collection is left as it was.
    pub fn merge_delta_data_element(&mut self, key: K, delta: DataDelta<T>) -> (r: Result<
        (),
        DeltaMergeError<T>,
    >)
        requires
            old(self).wf(),
            obeys_concrete_eq::<K>(),
            obeys_concrete_eq::<T>(),
        ensures
            final(self).wf(),
            match merge_element_spec(old(self)@, key, delta) {
                Some(m) => r is Ok && final(self)@ == m,
                None => *final(self) == *old(self) && match r {
                    Err(DeltaMergeError::ContinuityMismatch { expected: _, found }) => found
                        == delta.before,
                    Ok(_) => false,
                },
            },
    {
        let continuous = match self.data.get(&key) {
            Some(cur) => option_eq(&cur.after, &delta.before),
            None => true,
        };
        if !continuous {
            let expected = match self.data.get(&key) {
                Some(cur) => cur.after.clone(),
                None => None,
            };
            return Err(DeltaMergeError::ContinuityMismatch { expected, found: delta.before });
        }
        let combined_delta = match self.data.remove(&key) {
            Some(cur) => DataDelta { before: cur.before, after: delta.after },
            None => delta,
        };
        if !combined_delta.is_noop_exec() {
            self.data.insert(key, combined_delta);
        }
        proof {
            let m = merge_element_spec(old(self)@, key, delta)->Some_0;
            assert(self.data@ =~= m);
        }
        Ok(())
    }
    /// Merges every transition of `other` in at its key. Either all of them are
    /// merged, or, on a continuity gap at any key, none is and the collection is
    /// left as it was.
    pub fn merge_delta_data(&mut self, other: DeltaDataCollection<K, T>) -> (r: Result<
        (),
        DeltaMergeError<T>,
    >)
        requires
            old(self).wf(),
            other.wf(),
            obeys_concrete_eq::<K>(),
            obeys_concrete_eq::<T>(),
        ensures
            final(self).wf(),
            mergeable(old(self)@, other@) ==> r is Ok && final(self)@ == merged(old(self)@, other@),
            !mergeable(old(self)@, other@) ==> r is Err && *final(self) == *old(self),
    {
        let ghost m0 = self@;
        let ghost o0 = other@;
        proof {
            other.data.lemma_pairs();
        }
        // Check every key before changing anything.
        let n = other.data.len();
        let mut i: usize = 0;
        while i < n
            invariant
                self.wf(),
                self@ == m0,
                other.data.wf(),
                other@ == o0,
                n == other.data.spec_pairs().len(),
                i <= n,
                obeys_concrete_eq::<K>(),
                obeys_concrete_eq::<T>(),
                forall|j: int|
                    0 <= j < i ==> continues(
                        entry_of(m0, #[trigger] other.data.spec_pairs()[j].0),
                        other.data.spec_pairs()[j].1,
                    ),
            decreases n - i,
        {
            let pair = other.data.pair_at(i);
            match self.data.get(&pair.0) {
                Some(cur) => {
                    if !option_eq(&cur.after, &pair.1.before) {
                        proof {
                            assert(o0.contains_key(pair.0));
                        }
                        return Err(
                            DeltaMergeError::ContinuityMismatch {
                                expected: cur.after.clone(),
                                found: pair.1.before.clone(),
                            },
                        );
                    }
                },
                None => {},
            }
            i = i + 1;
        }
        proof {
            other.data.lemma_pairs();
            assert forall|k: K| #[trigger] o0.contains_key(k) implies continues(
                entry_of(m0, k),
                o0[k],
            ) by {
                let j = choose|j: int|
                    0 <= j < other.data.spec_pairs().len() && other.data.spec_pairs()[j].0 == k;
                assert(continues(entry_of(m0, other.data.spec_pairs()[j].0), other.data.spec_pairs()[j].1));
            }
        }
        // Every key continues: merge them one by one.
        let mut rest = other.data.into_pairs();
        let ghost mut done: Map<K, DataDelta<T>> = Map::empty();
        while rest.len() > 0
            invariant
                self.wf(),
                obeys_concrete_eq::<K>(),
                obeys_concrete_eq::<T>(),
                mergeable(m0, o0),
                no_noops(m0),
                done.submap_of(o0),
                self@ == merged(m0, done),
                forall|a: int, b: int|
                    0 <= a < b < rest@.len() ==> #[trigger] rest@[a].0 != #[trigger] rest@[b].0,
                forall|j: int|
                    0 <= j < rest@.len() ==> o0.contains_key(#[trigger] rest@[j].0) && o0[rest@[j].0]
                        == rest@[j].1 && !done.contains_key(rest@[j].0),
                forall|k: K|
                    #[trigger] o0.contains_key(k) ==> done.contains_key(k) || exists|j: int|
                        0 <= j < rest@.len() && rest@[j].0 == k,
            decreases rest@.len(),
        {
            let ghost before_pop = rest@;
            let (k, d) = rest.pop().unwrap();
            proof {
                assert(before_pop[before_pop.len() - 1] == (k, d));
                assert(entry_of(self@, k) == entry_of(m0, k));
                assert(o0.contains_key(k));
            }
            let res = self.merge_delta_data_element(k, d);
            proof {
                let done2 = done.insert(k, d);
                assert(self@ =~= merged(m0, done2));
                assert forall|j: int| 0 <= j < rest@.len() implies o0.contains_key(
                    #[trigger] rest@[j].0,
                ) && o0[rest@[j].0] == rest@[j].1 && !done2.contains_key(rest@[j].0) by {
                    assert(rest@[j] == before_pop[j]);
                    assert(before_pop[j].0 != before_pop[before_pop.len() - 1].0);
                }
                assert forall|k2: K| #[trigger] o0.contains_key(k2) implies done2.contains_key(k2)
                    || exists|j: int| 0 <= j < rest@.len() && rest@[j].0 == k2 by {
                    if !done.contains_key(k2) && k2 != k {
                        let j = choose|j: int| 0 <= j < before_pop.len() && before_pop[j].0 == k2;
                        assert(j != before_pop.len() - 1);
                        assert(rest@[j].0 == k2);
                    }
                }
                done = done2;
            }
        }
        proof {
            assert(done =~= o0);
        }
        Ok(())
    }

    /// The collection whose every transition undoes the one stored here.
    pub fn invert(self) -> (r: DeltaDataCollection<K, T>)
        requires
            self.wf(),
            obeys_concrete_eq::<K>(),
            obeys_concrete_eq::<T>(),
        ensures
            r.wf(),
            r@ == inverted(self@),
    {
        let ghost m0 = self@;
        proof {
            self.data.lemma_pairs();
        }
        let mut rest = self.data.into_pairs();
        let mut result: AssocMap<K, DataDelta<T>> = AssocMap::new();
        let ghost mut done: Map<K, DataDelta<T>> = Map::empty();
        while rest.len() > 0
            invariant
                result.wf(),
                obeys_concrete_eq::<K>(),
                no_noops(m0),
                done.submap_of(m0),
                result@ == inverted(done),
                forall|a: int, b: int|
                    0 <= a < b < rest@.len() ==> #[trigger] rest@[a].0 != #[trigger] rest@[b].0,
                forall|j: int|
                    0 <= j < rest@.len() ==> m0.contains_key(#[trigger] rest@[j].0) && m0[rest@[j].0]
                        == rest@[j].1 && !done.contains_key(rest@[j].0),
                forall|k: K|
                    #[trigger] m0.contains_key(k) ==> done.contains_key(k) || exists|j: int|
                        0 <= j < rest@.len() && rest@[j].0 == k,
            decreases rest@.len(),
        {
            let ghost before_pop = rest@;
            let (k, d) = rest.pop().unwrap();
            proof {
                assert(before_pop[before_pop.len() - 1] == (k, d));
            }
            result.insert(k, d.invert());
            proof {
                let done2 = done.insert(k, d);
                assert(result@ =~= inverted(done2));
                assert forall|j: int| 0 <= j < rest@.len() implies m0.contains_key(
                    #[trigger] rest@[j].0,
                ) && m0[rest@[j].0] == rest@[j].1 && !done2.contains_key(rest@[j].0) by {
                    assert(rest@[j] == before_pop[j]);
                    assert(before_pop[j].0 != before_pop[before_pop.len() - 1].0);
                }
                assert forall|k2: K| #[trigger] m0.contains_key(k2) implies done2.contains_key(k2)
                    || exists|j: int| 0 <= j < rest@.len() && rest@[j].0 == k2 by {
                    if !done.contains_key(k2) && k2 != k {
                        let j = choose|j: int| 0 <= j < before_pop.len() && before_pop[j].0 == k2;
                        assert(j != before_pop.len() - 1);
                        assert(rest@[j].0 == k2);
                    }
                }
                done = done2;
            }
        }
        proof {
            assert(done =~= m0);
        }
        DeltaDataCollection { data: result }
    }
}

} // verus!
