//! What connecting a block removed from the output set, and the order in which
//! its transactions may be undone.
use vstd::prelude::*;
use std::collections::{BTreeMap, BTreeSet};
use crate::chain::OutPointSourceId;
use crate::delta::entry_of;
use crate::primitives::H256;
use crate::utxo_cache::Utxo;

verus! {

broadcast use vstd::std_specs::btree::group_btree_axioms;

#[derive(Clone, Copy, Debug, PartialEq, Eq)]
pub enum UtxosBlockUndoError {
    /// The transaction's undo was already recorded in this block.
    UndoAlreadyExists(H256),
    /// Other recorded transactions of the block still spend this one's outputs.
    TxUndoWithDependency(H256),
}

/// The outputs that a block reward's inputs removed.
#[derive(Clone, Debug, PartialEq, Eq)]
pub struct UtxosBlockRewardUndo(pub Vec<Utxo>);

impl UtxosBlockRewardUndo {
    pub fn new(utxos: Vec<Utxo>) -> (r: Self)
        ensures
            r.0@ == utxos@,
    {
        UtxosBlockRewardUndo(utxos)
    }

    pub fn inner(&self) -> (r: &[Utxo])
        ensures
            r@ == self.0@,
    {
        self.0.as_slice()
    }

    pub fn into_inner(self) -> (r: Vec<Utxo>)
        ensures
            r@ == self.0@,
    {
        self.0
    }
}

/// The outputs that a transaction's inputs removed, one slot per input in
/// input order; `None` for an input that spent no output (an account input).
#[derive(Clone, Debug, PartialEq, Eq)]
pub struct UtxosTxUndo(pub Vec<Option<Utxo>>);

impl UtxosTxUndo {
    pub fn new(utxos: Vec<Option<Utxo>>) -> (r: Self)
        ensures
            r.0@ == utxos@,
    {
        UtxosTxUndo(utxos)
    }

    pub fn inner(&self) -> (r: &[Option<Utxo>])
        ensures
            r@ == self.0@,
    {
        self.0.as_slice()
    }

    pub fn into_inner(self) -> (r: Vec<Option<Utxo>>)
        ensures
            r@ == self.0@,
    {
        self.0
    }
}

/// A transaction's undo together with the sources of the outputs it spent.
#[derive(Clone, Debug, PartialEq, Eq)]
pub struct UtxosTxUndoWithSources {
    pub utxos: UtxosTxUndo,
    pub sources: Vec<OutPointSourceId>,
}

impl UtxosTxUndoWithSources {
    pub fn new(utxos: Vec<Option<Utxo>>, sources: Vec<OutPointSourceId>) -> (r: Self)
        ensures
            r.utxos.0@ == utxos@,
            r.sources@ == sources@,
    {
        UtxosTxUndoWithSources { utxos: UtxosTxUndo::new(utxos), sources }
    }

    pub fn utxos(&self) -> (r: &[Option<Utxo>])
        ensures
            r@ == self.utxos.0@,
    {
        self.utxos.inner()
    }
}

/// The transactions among `sources` (block rewards are left out).
pub open spec fn source_tx_ids(sources: Seq<OutPointSourceId>) -> Set<H256> {
    Set::new(|p: H256| sources.contains(OutPointSourceId::Transaction(p)))
}

spec fn old_ids_contains(all: Seq<(H256, UtxosTxUndoWithSources)>, i: int, id: H256, a: int) -> bool {
    0 <= a < i && all[a].0 == id
}

/// The (child, parent) pairs that recording every entry of `entries` gives.
pub open spec fn all_dependencies(entries: Seq<(H256, UtxosTxUndoWithSources)>) -> Set<(H256, H256)> {
    Set::new(
        |cp: (H256, H256)|
            exists|k: int|
                0 <= k < entries.len() && cp.0 == entries[k].0 && source_tx_ids(
                    entries[k].1.sources@,
                ).contains(cp.1),
    )
}

/// Whether some recorded transaction spends outputs of `tx_id`.
pub open spec fn has_children(deps: Set<(H256, H256)>, tx_id: H256) -> bool {
    exists|c: H256| #[trigger] deps.contains((c, tx_id))
}

/// `deps` without the pairs in which `tx_id` is the child.
pub open spec fn without_child(deps: Set<(H256, H256)>, tx_id: H256) -> Set<(H256, H256)> {
    deps.filter(|cp: (H256, H256)| cp.0 != tx_id)
}

/// `deps` with `tx_id` recorded as the child of each of `parents`.
pub open spec fn with_parents(deps: Set<(H256, H256)>, tx_id: H256, parents: Set<H256>) -> Set<
    (H256, H256),
> {
    deps.union(Set::new(|cp: (H256, H256)| cp.0 == tx_id && parents.contains(cp.1)))
}

/// Once its only dependent has been taken out, a transaction may be taken.
pub proof fn lemma_taking_last_child_frees_parent(deps: Set<(H256, H256)>, parent: H256, child: H256)
    requires
        forall|c: H256| #[trigger] deps.contains((c, parent)) ==> c == child,
    ensures
        !has_children(without_child(deps, child), parent),
{
}

/// A dependent transaction blocks the one it depends on.
pub proof fn lemma_child_blocks_parent(deps: Set<(H256, H256)>, parent: H256, child: H256)
    requires
        deps.contains((child, parent)),
    ensures
        has_children(deps, parent),
{
}

/// A transaction identifier as an ordered key: its four words, most
/// significant first, so keys order as the identifiers' bytes do.
pub type TxKey = (u64, u64, u64, u64);

pub open spec fn key_of(h: H256) -> TxKey {
    (h.w0, h.w1, h.w2, h.w3)
}

pub open spec fn id_of(k: TxKey) -> H256 {
    H256 { w0: k.0, w1: k.1, w2: k.2, w3: k.3 }
}

pub fn tx_key(h: &H256) -> (k: TxKey)
    ensures
        k == key_of(*h),
{
    (h.w0, h.w1, h.w2, h.w3)
}

/// All undo records of one block: the block reward's, each transaction's, and
/// which transactions spent outputs of which others in the same block. The
/// dependencies are indexed both ways, child to parents and parent to
/// children, so that either lookup is logarithmic.
pub struct UtxosBlockUndo {
    reward_undo: Option<UtxosBlockRewardUndo>,
    tx_undos: BTreeMap<TxKey, UtxosTxUndo>,
    child_parents: BTreeMap<TxKey, Vec<TxKey>>,
    parent_children: BTreeMap<TxKey, BTreeSet<TxKey>>,
}

impl Default for UtxosBlockUndo {
    fn default() -> (r: UtxosBlockUndo)
        ensures
            r.wf(),
            r.spec_reward_undo() is None,
            r.spec_tx_undos() == Map::<H256, UtxosTxUndo>::empty(),
            r.dependencies() == Set::<(H256, H256)>::empty(),
    {
        UtxosBlockUndo::empty()
    }
}

impl UtxosBlockUndo {
    pub closed spec fn spec_reward_undo(&self) -> Option<UtxosBlockRewardUndo> {
        self.reward_undo
    }

    pub closed spec fn spec_tx_undos(&self) -> Map<H256, UtxosTxUndo> {
        Map::new(|h: H256| self.tx_undos@.contains_key(key_of(h)), |h: H256| self.tx_undos@[key_of(h)])
    }

    spec fn has_pair(&self, c: TxKey, p: TxKey) -> bool {
        self.child_parents@.contains_key(c) && self.child_parents@[c]@.contains(p)
    }

    /// The recorded (child, parent) pairs.
    pub closed spec fn dependencies(&self) -> Set<(H256, H256)> {
        Set::new(|cp: (H256, H256)| self.has_pair(key_of(cp.0), key_of(cp.1)))
    }

    pub closed spec fn wf(&self) -> bool {
        &&& forall|c: TxKey, p: TxKey|
            #[trigger] self.has_pair(c, p) <==> self.parent_children@.contains_key(p)
                && self.parent_children@[p]@.contains(c)
        &&& forall|c: TxKey| #[trigger]
            self.child_parents@.contains_key(c) ==> self.tx_undos@.contains_key(c)
        &&& self.parent_lists_nonempty()
        &&& self.children_sets_nonempty()
    }

    /// Only a transaction with at least one parent has an entry child to parents.
    spec fn parent_lists_nonempty(&self) -> bool {
        forall|c: TxKey| #[trigger]
            self.child_parents@.contains_key(c) ==> self.child_parents@[c]@.len() > 0
    }

    /// Only a transaction with at least one child has an entry parent to children.
    spec fn children_sets_nonempty(&self) -> bool {
        forall|p: TxKey| #[trigger]
            self.parent_children@.contains_key(p) ==> self.parent_children@[p]@ != Set::<TxKey>::empty()
    }

    proof fn lemma_same_index(a: &Self, b: &Self)
        requires
            a.wf(),
            a.tx_undos == b.tx_undos,
            a.child_parents == b.child_parents,
            a.parent_children == b.parent_children,
        ensures
            b.wf(),
            b.spec_tx_undos() == a.spec_tx_undos(),
            b.dependencies() == a.dependencies(),
    {
        assert forall|c: TxKey, p: TxKey| #[trigger] b.has_pair(c, p) <==> b.parent_children@.contains_key(p)
            && b.parent_children@[p]@.contains(c) by {
            assert(a.has_pair(c, p) == b.has_pair(c, p));
        }
        assert(b.spec_tx_undos() =~= a.spec_tx_undos());
        assert(b.dependencies() =~= a.dependencies());
    }

    /// Every child in the dependency index is a recorded transaction.
    pub proof fn lemma_children_recorded(&self, c: H256, p: H256)
        requires
            self.wf(),
            self.dependencies().contains((c, p)),
        ensures
            self.spec_tx_undos().contains_key(c),
    {
        assert(self.child_parents@.contains_key(key_of(c)));
    }

    pub fn empty() -> (r: Self)
        ensures
            r.wf(),
            r.spec_reward_undo() is None,
            r.spec_tx_undos() == Map::<H256, UtxosTxUndo>::empty(),
            r.dependencies() == Set::<(H256, H256)>::empty(),
    {
        let r = UtxosBlockUndo {
            reward_undo: None,
            tx_undos: BTreeMap::new(),
            child_parents: BTreeMap::new(),
            parent_children: BTreeMap::new(),
        };
        assert(r.dependencies() =~= Set::<(H256, H256)>::empty());
        assert(r.spec_tx_undos() =~= Map::<H256, UtxosTxUndo>::empty());
        r
    }

    pub fn is_empty(&self) -> (r: bool)
        requires
            self.wf(),
        ensures
            r == (self.spec_reward_undo() is None && self.spec_tx_undos() == Map::<
                H256,
                UtxosTxUndo,
            >::empty()),
    {
        let r = self.reward_undo.is_none() && self.tx_undos.is_empty();
        proof {
            if self.tx_undos@.dom().is_empty() {
                assert(self.spec_tx_undos() =~= Map::<H256, UtxosTxUndo>::empty());
            } else {
                assert(!(self.tx_undos@.dom() =~= Set::<TxKey>::empty()));
                let k = choose|k: TxKey| self.tx_undos@.dom().contains(k);
                assert(self.spec_tx_undos().contains_key(id_of(k)));
            }
        }
        r
    }

    /// The recorded undo of `tx_id`.
    pub fn tx_undo(&self, tx_id: &H256) -> (r: Option<&UtxosTxUndo>)
        requires
            self.wf(),
        ensures
            match r {
                Some(u) => self.spec_tx_undos().contains_key(*tx_id) && self.spec_tx_undos()[*tx_id]
                    == *u,
                None => !self.spec_tx_undos().contains_key(*tx_id),
            },
    {
        self.tx_undos.get(&tx_key(tx_id))
    }

    /// The recorded transaction undos, keyed by `tx_key` of their transaction.
    pub fn tx_undos(&self) -> (r: &BTreeMap<TxKey, UtxosTxUndo>)
        requires
            self.wf(),
        ensures
            forall|h: H256| #[trigger] self.spec_tx_undos().contains_key(h) == r@.contains_key(key_of(h)),
            forall|h: H256| self.spec_tx_undos().contains_key(h) ==> #[trigger] self.spec_tx_undos()[h] == r@[key_of(h)],
    {
        &self.tx_undos
    }

    pub fn block_reward_undo(&self) -> (r: Option<&UtxosBlockRewardUndo>)
        ensures
            match r {
                Some(u) => self.spec_reward_undo() == Some(*u),
                None => self.spec_reward_undo() is None,
            },
    {
        self.reward_undo.as_ref()
    }

    pub fn set_block_reward_undo(&mut self, reward_undo: UtxosBlockRewardUndo)
        requires
            old(self).wf(),
        ensures
            final(self).wf(),
            final(self).spec_reward_undo() == Some(reward_undo),
            final(self).spec_tx_undos() == old(self).spec_tx_undos(),
            final(self).dependencies() == old(self).dependencies(),
    {
        self.reward_undo = Some(reward_undo);
        proof {
            Self::lemma_same_index(old(self), self);
        }
    }

    pub fn take_block_reward_undo(&mut self) -> (r: Option<UtxosBlockRewardUndo>)
        requires
            old(self).wf(),
        ensures
            final(self).wf(),
            r == old(self).spec_reward_undo(),
            final(self).spec_reward_undo() is None,
            final(self).spec_tx_undos() == old(self).spec_tx_undos(),
            final(self).dependencies() == old(self).dependencies(),
    {
        let r = self.reward_undo.take();
        proof {
            Self::lemma_same_index(old(self), self);
        }
        r
    }

    /// The recorded children of `p`.
    spec fn children_view(&self, p: TxKey) -> Set<TxKey> {
        if self.parent_children@.contains_key(p) {
            self.parent_children@[p]@
        } else {
            Set::empty()
        }
    }

    /// Records `child` among the children of `parent`.
    fn add_child(&mut self, parent: TxKey, child: TxKey)
        ensures
            old(self).children_sets_nonempty() ==> final(self).children_sets_nonempty(),
            final(self).reward_undo == old(self).reward_undo,
            final(self).tx_undos == old(self).tx_undos,
            final(self).child_parents == old(self).child_parents,
            forall|q: TxKey| #[trigger] final(self).children_view(q) == if q == parent {
                old(self).children_view(parent).insert(child)
            } else {
                old(self).children_view(q)
            },
    {
        let mut set = match self.parent_children.remove(&parent) {
            Some(s) => s,
            None => BTreeSet::new(),
        };
        set.insert(child);
        self.parent_children.insert(parent, set);
        proof {
            assert(set@.contains(child));
            assert forall|q: TxKey| #[trigger] self.children_view(q) == if q == parent {
                old(self).children_view(parent).insert(child)
            } else {
                old(self).children_view(q)
            } by {
                if q == parent {
                    if !old(self).parent_children@.contains_key(parent) {
                        assert(set@ =~= Set::<TxKey>::empty().insert(child));
                    }
                }
            }
        }
    }

    /// Removes `child` from the children of `parent`.
    fn remove_child(&mut self, parent: TxKey, child: TxKey)
        ensures
            old(self).children_sets_nonempty() ==> final(self).children_sets_nonempty(),
            final(self).reward_undo == old(self).reward_undo,
            final(self).tx_undos == old(self).tx_undos,
            final(self).child_parents == old(self).child_parents,
            forall|q: TxKey| #[trigger] final(self).children_view(q) == if q == parent {
                old(self).children_view(parent).remove(child)
            } else {
                old(self).children_view(q)
            },
    {
        match self.parent_children.remove(&parent) {
            Some(set) => {
                let mut set = set;
                set.remove(&child);
                if !set.is_empty() {
                    self.parent_children.insert(parent, set);
                } else {
                    proof {
                        assert(set@ =~= Set::<TxKey>::empty());
                    }
                }
            },
            None => {},
        }
        proof {
            assert forall|q: TxKey| #[trigger] self.children_view(q) == if q == parent {
                old(self).children_view(parent).remove(child)
            } else {
                old(self).children_view(q)
            } by {
                if q == parent && !old(self).parent_children@.contains_key(parent) {
                    assert(Set::<TxKey>::empty().remove(child) =~= Set::<TxKey>::empty());
                }
            }
        }
    }

    /// Records the undo of `tx_id`, and `tx_id` as a dependent of every
    /// transaction among the sources of the outputs it spent. A transaction
    /// recorded twice is refused and nothing changes.
    pub fn insert_tx_undo(&mut self, tx_id: H256, tx_undo: UtxosTxUndoWithSources) -> (r: Result<
        (),
        UtxosBlockUndoError,
    >)
        requires
            old(self).wf(),
        ensures
            final(self).wf(),
            final(self).spec_reward_undo() == old(self).spec_reward_undo(),
            old(self).spec_tx_undos().contains_key(tx_id) ==> r == Err::<(), UtxosBlockUndoError>(
                UtxosBlockUndoError::UndoAlreadyExists(tx_id),
            ) && *final(self) == *old(self),
            !old(self).spec_tx_undos().contains_key(tx_id) ==> r is Ok && final(self).spec_tx_undos()
                == old(self).spec_tx_undos().insert(tx_id, tx_undo.utxos) && final(self).dependencies()
                == with_parents(old(self).dependencies(), tx_id, source_tx_ids(tx_undo.sources@)),
    {
        let k = tx_key(&tx_id);
        if self.tx_undos.contains_key(&k) {
            return Err(UtxosBlockUndoError::UndoAlreadyExists(tx_id));
        }
        let UtxosTxUndoWithSources { utxos, sources } = tx_undo;
        self.tx_undos.insert(k, utxos);
        let ghost d0 = old(self).dependencies();
        let mut parents: Vec<TxKey> = Vec::new();
        let mut i: usize = 0;
        while i < sources.len()
            invariant
                !self.child_parents@.contains_key(k),
                self.tx_undos@ == old(self).tx_undos@.insert(k, tx_undo.utxos),
                self.child_parents == old(self).child_parents,
                self.reward_undo == old(self).reward_undo,
                old(self).wf(),
                self.children_sets_nonempty(),
                k == key_of(tx_id),
                sources@ == tx_undo.sources@,
                i <= sources@.len(),
                forall|p: TxKey| #[trigger] parents@.contains(p) <==> source_tx_ids(sources@.take(i as int)).contains(id_of(p)),
                forall|q: TxKey, c: TxKey| #[trigger] self.children_view(q).contains(c) <==> (
                    old(self).children_view(q).contains(c) || (c == k && parents@.contains(q))),
            decreases sources@.len() - i,
        {
            let ghost before = parents@;
            match sources[i] {
                OutPointSourceId::Transaction(p) => {
                    let pk = tx_key(&p);
                    self.add_child(pk, k);
                    parents.push(pk);
                    proof {
                        assert(parents@ == before.push(pk));
                    }
                },
                OutPointSourceId::BlockReward(_) => {},
            }
            proof {
                let s1 = sources@.take(i as int);
                let s2 = sources@.take(i + 1);
                assert(s2 =~= s1.push(sources@[i as int]));
                assert forall|q: H256| source_tx_ids(s2).contains(q) <==> (source_tx_ids(s1).contains(q)
                    || sources@[i as int] == OutPointSourceId::Transaction(q)) by {
                    if source_tx_ids(s2).contains(q) {
                        let j = choose|j: int| 0 <= j < s2.len() && s2[j] == OutPointSourceId::Transaction(q);
                        if j < s1.len() {
                            assert(s1[j] == s2[j]);
                        }
                    }
                    if source_tx_ids(s1).contains(q) {
                        let j = choose|j: int| 0 <= j < s1.len() && s1[j] == OutPointSourceId::Transaction(q);
                        assert(s2[j] == s1[j]);
                    }
                    if sources@[i as int] == OutPointSourceId::Transaction(q) {
                        assert(s2[i as int] == sources@[i as int]);
                    }
                }
                assert forall|p: TxKey| #[trigger] parents@.contains(p) <==> source_tx_ids(s2).contains(id_of(p)) by {
                    match sources@[i as int] {
                        OutPointSourceId::Transaction(h) => {
                            if parents@.contains(p) && !before.contains(p) {
                                let j = choose|j: int| 0 <= j < parents@.len() && parents@[j] == p;
                                assert(j == before.len());
                                assert(id_of(p) == h);
                            }
                            if before.contains(p) {
                                let j = choose|j: int| 0 <= j < before.len() && before[j] == p;
                                assert(parents@[j] == p);
                            }
                            if id_of(p) == h {
                                assert(parents@[before.len() as int] == p);
                            }
                        },
                        OutPointSourceId::BlockReward(_) => {},
                    }
                }
            }
            i = i + 1;
        }
        let ghost pre = *self;
        if parents.len() > 0 {
            self.child_parents.insert(k, parents);
        }
        proof {
            assert forall|q: TxKey| #[trigger] self.children_view(q) == pre.children_view(q) by {}
            assert forall|p: TxKey| #[trigger] self.has_pair(k, p) <==> parents@.contains(p) by {
                if parents@.len() == 0 {
                    assert(!old(self).child_parents@.contains_key(k));
                    if parents@.contains(p) {
                        let j = choose|j: int| 0 <= j < parents@.len() && parents@[j] == p;
                    }
                }
            }
            assert(self.parent_lists_nonempty());
            assert(sources@.take(sources@.len() as int) =~= sources@);
            assert forall|c: TxKey, p: TxKey| #[trigger] self.has_pair(c, p) <==> self.parent_children@.contains_key(p)
                && self.parent_children@[p]@.contains(c) by {
                assert(pre.children_view(p).contains(c) <==> (old(self).children_view(p).contains(c) || (c == k && parents@.contains(p))));
                assert(self.children_view(p) == pre.children_view(p));
                if c != k {
                    assert(self.has_pair(c, p) == old(self).has_pair(c, p));
                    assert(old(self).has_pair(c, p) <==> old(self).children_view(p).contains(c));
                } else {
                    assert(!old(self).has_pair(k, p));
                    assert(!old(self).children_view(p).contains(k));
                    assert(self.has_pair(k, p) <==> parents@.contains(p));
                }
            }
            assert(self.spec_tx_undos() =~= old(self).spec_tx_undos().insert(tx_id, tx_undo.utxos));
            assert(self.dependencies() =~= with_parents(d0, tx_id, source_tx_ids(tx_undo.sources@))) by {
                assert forall|cp: (H256, H256)| self.dependencies().contains(cp) <==> with_parents(d0, tx_id, source_tx_ids(tx_undo.sources@)).contains(cp) by {
                    if key_of(cp.0) == k {
                        assert(cp.0 == tx_id);
                        assert(id_of(key_of(cp.1)) == cp.1);
                    } else {
                        assert(cp.0 != tx_id);
                    }
                }
            }
        }
        Ok(())
    }

    /// Whether the child-to-parents index records no pair.
    pub fn child_parent_dependencies_is_empty(&self) -> (r: bool)
        requires
            self.wf(),
        ensures
            r == (self.dependencies() == Set::<(H256, H256)>::empty()),
    {
        let r = self.child_parents.is_empty();
        proof {
            if r {
                assert forall|cp: (H256, H256)| !self.dependencies().contains(cp) by {
                    assert(!self.child_parents@.contains_key(key_of(cp.0)));
                }
                assert(self.dependencies() =~= Set::<(H256, H256)>::empty());
            } else {
                assert(!(self.child_parents@.dom() =~= Set::<TxKey>::empty()));
                let c = choose|c: TxKey| self.child_parents@.dom().contains(c);
                let p = self.child_parents@[c]@[0];
                assert(self.child_parents@[c]@.contains(p));
                assert(key_of(id_of(c)) == c && key_of(id_of(p)) == p);
                assert(self.dependencies().contains((id_of(c), id_of(p))));
            }
        }
        r
    }

    /// Whether the parent-to-children index records no pair.
    pub fn parent_child_dependencies_is_empty(&self) -> (r: bool)
        requires
            self.wf(),
        ensures
            r == (self.dependencies() == Set::<(H256, H256)>::empty()),
    {
        let r = self.parent_children.is_empty();
        proof {
            if r {
                assert forall|cp: (H256, H256)| !self.dependencies().contains(cp) by {
                    if self.has_pair(key_of(cp.0), key_of(cp.1)) {
                        assert(self.parent_children@.contains_key(key_of(cp.1)));
                    }
                }
                assert(self.dependencies() =~= Set::<(H256, H256)>::empty());
            } else {
                assert(!(self.parent_children@.dom() =~= Set::<TxKey>::empty()));
                let p = choose|p: TxKey| self.parent_children@.dom().contains(p);
                assert(!(self.parent_children@[p]@ =~= Set::<TxKey>::empty()));
                let c = choose|c: TxKey| self.parent_children@[p]@.contains(c);
                assert(self.has_pair(c, p));
                assert(key_of(id_of(c)) == c && key_of(id_of(p)) == p);
                assert(self.dependencies().contains((id_of(c), id_of(p))));
            }
        }
        r
    }

    /// Whether some recorded transaction spends outputs of `tx_id`.
    pub fn has_children_of(&self, tx_id: &H256) -> (r: bool)
        requires
            self.wf(),
        ensures
            r == has_children(self.dependencies(), *tx_id),
    {
        let k = tx_key(tx_id);
        let r = match self.parent_children.get(&k) {
            Some(children) => !children.is_empty(),
            None => false,
        };
        proof {
            if r {
                let c = choose|c: TxKey| self.parent_children@[k]@.contains(c);
                assert(self.has_pair(c, k));
                assert(key_of(id_of(c)) == c);
                assert(self.dependencies().contains((id_of(c), *tx_id)));
            } else {
                assert forall|c: H256| !self.dependencies().contains((c, *tx_id)) by {
                    if self.has_pair(key_of(c), k) {
                        assert(self.parent_children@[k]@.contains(key_of(c)));
                    }
                }
            }
        }
        r
    }

    /// Removes and returns the undo of `tx_id`, with the record of its own
    /// parents. Refused, changing nothing, while another recorded transaction
    /// depends on it.
    pub fn take_tx_undo(&mut self, tx_id: &H256) -> (r: Result<Option<UtxosTxUndo>, UtxosBlockUndoError>)
        requires
            old(self).wf(),
        ensures
            final(self).wf(),
            final(self).spec_reward_undo() == old(self).spec_reward_undo(),
            has_children(old(self).dependencies(), *tx_id) ==> r == Err::<
                Option<UtxosTxUndo>,
                UtxosBlockUndoError,
            >(UtxosBlockUndoError::TxUndoWithDependency(*tx_id)) && *final(self) == *old(self),
            !has_children(old(self).dependencies(), *tx_id) ==> r == Ok::<
                Option<UtxosTxUndo>,
                UtxosBlockUndoError,
            >(entry_of(old(self).spec_tx_undos(), *tx_id)) && final(self).spec_tx_undos() == old(
                self,
            ).spec_tx_undos().remove(*tx_id) && final(self).dependencies() == without_child(
                old(self).dependencies(),
                *tx_id,
            ),
    {
        if self.has_children_of(tx_id) {
            return Err(UtxosBlockUndoError::TxUndoWithDependency(*tx_id));
        }
        let k = tx_key(tx_id);
        let parents = match self.child_parents.remove(&k) {
            Some(ps) => ps,
            None => Vec::new(),
        };
        proof {
            assert forall|p: TxKey| #[trigger] old(self).has_pair(k, p) <==> parents@.contains(p) by {
            }
        }
        let mut j: usize = 0;
        while j < parents.len()
            invariant
                self.tx_undos == old(self).tx_undos,
                self.child_parents@ == old(self).child_parents@.remove(k),
                self.reward_undo == old(self).reward_undo,
                old(self).wf(),
                self.children_sets_nonempty(),
                k == key_of(*tx_id),
                !has_children(old(self).dependencies(), *tx_id),
                j <= parents@.len(),
                forall|p: TxKey| #[trigger] old(self).has_pair(k, p) <==> parents@.contains(p),
                forall|q: TxKey, c: TxKey| #[trigger] self.children_view(q).contains(c) <==> (
                    old(self).children_view(q).contains(c) && !(c == k && parents@.take(j as int).contains(q))),
            decreases parents@.len() - j,
        {
            let pk = parents[j];
            self.remove_child(pk, k);
            proof {
                assert(parents@.take(j + 1) =~= parents@.take(j as int).push(pk));
                assert forall|q: TxKey, c: TxKey| #[trigger] self.children_view(q).contains(c) <==> (
                    old(self).children_view(q).contains(c) && !(c == k && parents@.take(j + 1).contains(q))) by {
                    let t1 = parents@.take(j as int);
                    let t2 = parents@.take(j + 1);
                    if t2.contains(q) && !t1.contains(q) {
                        let m = choose|m: int| 0 <= m < t2.len() && t2[m] == q;
                        if m < t1.len() {
                            assert(t1[m] == t2[m]);
                        }
                    }
                    if t1.contains(q) {
                        let m = choose|m: int| 0 <= m < t1.len() && t1[m] == q;
                        assert(t2[m] == t1[m]);
                    }
                    assert(t2[j as int] == pk);
                }
            }
            j = j + 1;
        }
        let ghost pre = *self;
        let taken = self.tx_undos.remove(&k);
        proof {
            assert(parents@.take(parents@.len() as int) =~= parents@);
            assert forall|c: TxKey, p: TxKey| #[trigger] self.has_pair(c, p) <==> self.parent_children@.contains_key(p)
                && self.parent_children@[p]@.contains(c) by {
                assert(pre.children_view(p).contains(c) <==> (old(self).children_view(p).contains(c) && !(c == k && parents@.contains(p))));
                assert(self.children_view(p) == pre.children_view(p));
                assert(old(self).has_pair(c, p) <==> old(self).children_view(p).contains(c));
            }
            assert forall|c: TxKey| #[trigger] self.child_parents@.contains_key(c) implies self.tx_undos@.contains_key(c)
                && self.child_parents@[c]@.len() > 0 by {
                assert(old(self).child_parents@.contains_key(c));
            }
            assert(self.spec_tx_undos() =~= old(self).spec_tx_undos().remove(*tx_id));
            assert(self.dependencies() =~= without_child(old(self).dependencies(), *tx_id)) by {
                assert forall|cp: (H256, H256)| self.dependencies().contains(cp) <==> without_child(old(self).dependencies(), *tx_id).contains(cp) by {
                    if key_of(cp.0) == k {
                        assert(cp.0 == *tx_id);
                    } else {
                        assert(cp.0 != *tx_id);
                    }
                }
            }
            if taken is Some {
                assert(old(self).spec_tx_undos().contains_key(*tx_id));
            }
        }
        Ok(taken)
    }

    /// A block's undo built from its reward undo and its transactions' undos.
    pub fn new(
        reward_undo: Option<UtxosBlockRewardUndo>,
        tx_undos: Vec<(H256, UtxosTxUndoWithSources)>,
    ) -> (r: Result<Self, UtxosBlockUndoError>)
        ensures
            r is Ok <==> forall|a: int, b: int|
                0 <= a < b < tx_undos@.len() ==> tx_undos@[a].0 != tx_undos@[b].0,
            match r {
                Ok(u) => u.wf() && u.spec_reward_undo() == reward_undo && u.spec_tx_undos().dom()
                    == Set::new(|t: H256| exists|k: int| 0 <= k < tx_undos@.len() && tx_undos@[k].0 == t)
                    && (forall|k: int| 0 <= k < tx_undos@.len() ==> #[trigger] u.spec_tx_undos()[tx_undos@[k].0]
                    == tx_undos@[k].1.utxos) && u.dependencies() == all_dependencies(tx_undos@),
                Err(e) => exists|a: int, b: int| 0 <= a < b < tx_undos@.len() && tx_undos@[a].0 == tx_undos@[b].0 && e == UtxosBlockUndoError::UndoAlreadyExists(tx_undos@[b].0),
            },
    {
        let mut block_undo = UtxosBlockUndo::empty();
        let ghost empty = block_undo;
        block_undo.reward_undo = reward_undo;
        proof {
            Self::lemma_same_index(&empty, &block_undo);
        }
        let mut rest = tx_undos;
        let ghost all = rest@;
        proof {
            assert(all_dependencies(all.take(0)) =~= Set::<(H256, H256)>::empty());
        }
        let mut i: usize = 0;
        while i < rest.len()
            invariant
                block_undo.wf(),
                block_undo.reward_undo == reward_undo,
                rest@.len() == all.len(),
                all == tx_undos@,
                i <= all.len(),
                forall|k: int| i <= k < all.len() ==> #[trigger] rest@[k] == all[k],
                forall|t: H256| #[trigger] block_undo.spec_tx_undos().contains_key(t) <==> exists|k: int| 0 <= k < i && all[k].0 == t,
                forall|a: int, b: int| 0 <= a < b < i ==> all[a].0 != all[b].0,
                forall|k: int| 0 <= k < i ==> #[trigger] block_undo.spec_tx_undos()[all[k].0] == all[k].1.utxos,
                block_undo.dependencies() == all_dependencies(all.take(i as int)),
            decreases all.len() - i,
        {
            let id = rest[i].0;
            proof {
                assert(rest@[i as int] == all[i as int]);
            }
            let mut entry = UtxosTxUndoWithSources::new(Vec::new(), Vec::new());
            std::mem::swap(&mut rest[i].1, &mut entry);
            proof {
                assert(entry == all[i as int].1);
            }
            let ghost prev = block_undo;
            match block_undo.insert_tx_undo(id, entry) {
                Ok(()) => {},
                Err(e) => {
                    proof {
                        assert(block_undo.spec_tx_undos().contains_key(id));
                        let a = choose|k: int| 0 <= k < i && all[k].0 == id;
                        assert(all[i as int].0 == id);
                        assert(all[a].0 == all[i as int].0);
                        assert(e == UtxosBlockUndoError::UndoAlreadyExists(all[i as int].0));
                        assert(0 <= a < i < tx_undos@.len() && tx_undos@[a].0 == tx_undos@[i as int].0);
                    }
                    return Err(e);
                },
            }
            proof {
                assert forall|k: int| 0 <= k < i + 1 implies #[trigger] block_undo.spec_tx_undos()[all[k].0] == all[k].1.utxos by {
                    if k < i {
                        assert(all[k].0 != id) by {
                            if all[k].0 == id {
                                assert(prev.spec_tx_undos().contains_key(id));
                            }
                        }
                    }
                }
                let t1 = all.take(i as int);
                let t2 = all.take(i + 1);
                assert(t2 =~= t1.push(all[i as int]));
                assert(block_undo.dependencies() =~= all_dependencies(t2)) by {
                    assert forall|cp: (H256, H256)| block_undo.dependencies().contains(cp) <==> all_dependencies(t2).contains(cp) by {
                        if all_dependencies(t2).contains(cp) {
                            let k = choose|k: int| 0 <= k < t2.len() && cp.0 == t2[k].0 && source_tx_ids(t2[k].1.sources@).contains(cp.1);
                            if k < t1.len() {
                                assert(t1[k] == t2[k]);
                                assert(all_dependencies(t1).contains(cp));
                            }
                        }
                        if all_dependencies(t1).contains(cp) {
                            let k = choose|k: int| 0 <= k < t1.len() && cp.0 == t1[k].0 && source_tx_ids(t1[k].1.sources@).contains(cp.1);
                            assert(t2[k] == t1[k]);
                        }
                        if cp.0 == id && source_tx_ids(entry.sources@).contains(cp.1) {
                            assert(t2[i as int] == all[i as int]);
                        }
                    }
                }
                assert forall|a: int, b: int| 0 <= a < b < i + 1 implies all[a].0 != all[b].0 by {
                    if b == i {
                        if all[a].0 == all[b].0 {
                            assert(old_ids_contains(all, i as int, id, a));
                        }
                    }
                }
                assert forall|t: H256| #[trigger] block_undo.spec_tx_undos().contains_key(t) <==> exists|k: int| 0 <= k < i + 1 && all[k].0 == t by {
                    if t == id {
                        assert(all[i as int].0 == t);
                    }
                    if exists|k: int| 0 <= k < i + 1 && all[k].0 == t {
                        let k = choose|k: int| 0 <= k < i + 1 && all[k].0 == t;
                        if k < i {
                            assert(exists|k2: int| 0 <= k2 < i && all[k2].0 == t);
                        }
                    }
                }
            }
            i = i + 1;
        }
        proof {
            assert(all.take(all.len() as int) =~= all);
            assert(block_undo.spec_tx_undos().dom() =~= Set::new(|t: H256| exists|k: int| 0 <= k < all.len() && all[k].0 == t));
        }
        Ok(block_undo)
    }
}

} // verus!
