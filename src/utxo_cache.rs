//! Spendable outputs and a layered, copy-on-write cache of them.
use vstd::prelude::*;
use crate::assoc::AssocMap;
use crate::chain::{lemma_outpoint_eq, OutPoint, OutPointSourceId, Transaction, TxInput, TxOutput};
use crate::undo::UtxosTxUndo;
use crate::delta::entry_of;
use crate::primitives::H256;

verus! {

broadcast use lemma_outpoint_eq;

/// A spendable output with its provenance: the block height at which it was
/// created, and whether it came from a block reward.
#[derive(Clone, Copy, Debug, PartialEq, Eq)]
pub struct Utxo {
    pub output: TxOutput,
    pub is_block_reward: bool,
    pub height: u64,
}

impl Utxo {
    pub fn new(output: TxOutput, is_block_reward: bool, height: u64) -> (r: Utxo)
        ensures
            r == (Utxo { output, is_block_reward, height }),
    {
        Utxo { output, is_block_reward, height }
    }
}

/// One entry of a cache layer: the output, or `None` once it is spent here.
/// `fresh`: the layer below does not hold the outpoint. `dirty`: changed since
/// the layer was made.
#[derive(Clone, Copy, Debug, PartialEq, Eq)]
pub struct UtxoEntry {
    pub utxo: Option<Utxo>,
    pub fresh: bool,
    pub dirty: bool,
}

impl UtxoEntry {
    pub fn new(utxo: Option<Utxo>, fresh: bool, dirty: bool) -> (r: UtxoEntry)
        ensures
            r == (UtxoEntry { utxo, fresh, dirty }),
    {
        UtxoEntry { utxo, fresh, dirty }
    }

    pub fn is_spent(&self) -> (r: bool)
        ensures
            r == (self.utxo is None),
    {
        self.utxo.is_none()
    }
}

#[derive(Clone, Copy, Debug, PartialEq, Eq)]
pub enum UtxosError {
    /// The outpoint already holds an output and overwriting was not allowed.
    OverwritingUtxo,
    /// The outpoint holds no spendable output.
    NoUtxoFound,
    /// A flushed entry claims to be new to a layer that already holds it.
    FreshUtxoAlreadyExists,
}

/// What a cache layer hands to the layer below it when flushed.
pub struct ConsumedUtxoCache {
    pub container: AssocMap<OutPoint, UtxoEntry>,
    pub best_block: Option<H256>,
}

/// The view a flushed `c` leaves over the view `v`: each dirty entry replaces
/// what `v` holds at its outpoint.
pub open spec fn flushed(v: Map<OutPoint, Utxo>, c: Map<OutPoint, UtxoEntry>) -> Map<OutPoint, Utxo> {
    Map::new(
        |p: OutPoint|
            if c.contains_key(p) && c[p].dirty {
                c[p].utxo is Some
            } else {
                v.contains_key(p)
            },
        |p: OutPoint|
            if c.contains_key(p) && c[p].dirty {
                c[p].utxo->Some_0
            } else {
                v[p]
            },
    )
}

/// Some dirty entry of `c` claims to be fresh where `v` holds an output.
pub open spec fn fresh_conflict(v: Map<OutPoint, Utxo>, c: Map<OutPoint, UtxoEntry>) -> bool {
    exists|p: OutPoint| #[trigger] c.contains_key(p) && c[p].dirty && c[p].fresh && v.contains_key(p)
}

pub open spec fn no_dirty(c: Map<OutPoint, UtxoEntry>) -> bool {
    forall|p: OutPoint| #[trigger] c.contains_key(p) ==> !c[p].dirty
}

/// Spending the output at `p` and adding the returned output back at `p`
/// restores the view: `spend_utxo` takes the view to `v.remove(p)` and returns
/// `v[p]`, and `add_utxo` then takes it to `v.remove(p).insert(p, v[p])`.
pub proof fn lemma_spend_then_restore(v: Map<OutPoint, Utxo>, p: OutPoint)
    requires
        v.contains_key(p),
    ensures
        !v.remove(p).contains_key(p),
        v.remove(p).insert(p, v[p]) == v,
{
    assert(v.remove(p).insert(p, v[p]) =~= v);
}

/// Whether entry `e` of a layer is consistent with what the layers below hold.
pub open spec fn entry_ok(e: UtxoEntry, below: Option<Utxo>) -> bool {
    &&& e.fresh ==> below is None
    &&& e.utxo is None ==> !e.fresh && e.dirty
    &&& !e.dirty ==> e.utxo == below
}

/// The outpoints that the inputs `ins` spend.
pub open spec fn spent_outpoints(ins: Seq<TxInput>) -> Set<OutPoint> {
    Set::new(|p: OutPoint| ins.contains(TxInput::Utxo(p)))
}

/// Every input that spends an output finds it in `v`, and no two inputs spend
/// the same outpoint.
pub open spec fn inputs_spendable(v: Map<OutPoint, Utxo>, ins: Seq<TxInput>) -> bool {
    forall|i: int|
        0 <= i < ins.len() ==> match #[trigger] ins[i] {
            TxInput::Utxo(p) => v.contains_key(p) && forall|j: int| 0 <= j < i ==> ins[j] != TxInput::Utxo(p),
            TxInput::Account(_) => true,
        }
}

/// The undo slot of one input: the output it spends, or `None` for an account input.
pub open spec fn undo_slot(v: Map<OutPoint, Utxo>, input: TxInput) -> Option<Utxo> {
    match input {
        TxInput::Utxo(p) => Some(v[p]),
        TxInput::Account(_) => None,
    }
}

/// Whether `p` names one of the outputs of `tx`.
pub open spec fn is_output_of(tx: Transaction, p: OutPoint) -> bool {
    p.source == OutPointSourceId::Transaction(tx.id) && (p.index as int) < tx.outputs@.len()
}

/// The outputs of `tx`, created at `height`.
pub open spec fn created_utxos(tx: Transaction, height: u64) -> Map<OutPoint, Utxo> {
    Map::new(
        |p: OutPoint| is_output_of(tx, p),
        |p: OutPoint| Utxo { output: tx.outputs@[p.index as int], is_block_reward: false, height },
    )
}

/// No output of `tx` lands on an outpoint that still holds an output once the
/// inputs of `tx` are spent.
pub open spec fn outputs_addable(v: Map<OutPoint, Utxo>, tx: Transaction) -> bool {
    forall|p: OutPoint|
        #[trigger] is_output_of(tx, p) ==> !(v.contains_key(p) && !spent_outpoints(tx.inputs@).contains(p))
}

/// The view after `tx` is connected at `height`: its inputs spent, its outputs added.
pub open spec fn connected(v: Map<OutPoint, Utxo>, tx: Transaction, height: u64) -> Map<OutPoint, Utxo> {
    v.remove_keys(spent_outpoints(tx.inputs@)).union_prefer_right(created_utxos(tx, height))
}

proof fn lemma_spent_take_push(ins: Seq<TxInput>, i: int)
    requires
        0 <= i < ins.len(),
    ensures
        spent_outpoints(ins.take(i + 1)) == match ins[i] {
            TxInput::Utxo(p) => spent_outpoints(ins.take(i)).insert(p),
            TxInput::Account(_) => spent_outpoints(ins.take(i)),
        },
{
    let t1 = ins.take(i);
    let t2 = ins.take(i + 1);
    assert(t2 =~= t1.push(ins[i]));
    assert forall|q: OutPoint| spent_outpoints(t2).contains(q) <==> (spent_outpoints(t1).contains(q)
        || ins[i] == TxInput::Utxo(q)) by {
        if t2.contains(TxInput::Utxo(q)) {
            let k = choose|k: int| 0 <= k < t2.len() && t2[k] == TxInput::Utxo(q);
            if k < t1.len() {
                assert(t1[k] == t2[k]);
            }
        }
        if t1.contains(TxInput::Utxo(q)) {
            let k = choose|k: int| 0 <= k < t1.len() && t1[k] == TxInput::Utxo(q);
            assert(t2[k] == t1[k]);
        }
        if ins[i] == TxInput::Utxo(q) {
            assert(t2[i] == ins[i]);
        }
    }
    match ins[i] {
        TxInput::Utxo(p) => {
            assert(spent_outpoints(t2) =~= spent_outpoints(t1).insert(p));
        },
        TxInput::Account(_) => {
            assert(spent_outpoints(t2) =~= spent_outpoints(t1));
        },
    }
}

/// A layer of spendable outputs over an optional parent layer. Reads fall
/// through to the parent; writes stay here until the layer is flushed.
pub struct UtxosCache<'a> {
    parent: Option<&'a UtxosCache<'a>>,
    utxos: AssocMap<OutPoint, UtxoEntry>,
    best_block: Option<H256>,
    depth: Ghost<nat>,
}

impl<'a> UtxosCache<'a> {
    /// What the chain of layers holds at `p`.
    pub closed spec fn lookup(&self, p: OutPoint) -> Option<Utxo> {
        self.lookup_rec(p)
    }

    spec fn lookup_rec(&self, p: OutPoint) -> Option<Utxo>
        decreases self.depth@,
    {
        if self.utxos@.contains_key(p) {
            self.utxos@[p].utxo
        } else {
            match self.parent {
                Some(par) => if par.depth@ < self.depth@ {
                    par.lookup_rec(p)
                } else {
                    None
                },
                None => None,
            }
        }
    }

    pub closed spec fn parent_lookup(&self, p: OutPoint) -> Option<Utxo> {
        match self.parent {
            Some(par) => par.lookup(p),
            None => None,
        }
    }

    /// The outputs that the layers below this one hold.
    pub closed spec fn parent_view(&self) -> Map<OutPoint, Utxo> {
        Map::new(|p: OutPoint| self.parent_lookup(p) is Some, |p: OutPoint| self.parent_lookup(p)->Some_0)
    }

    /// The entries written in this layer.
    pub closed spec fn local_entries(&self) -> Map<OutPoint, UtxoEntry> {
        self.utxos@
    }

    pub closed spec fn spec_best_block(&self) -> Option<H256> {
        self.best_block
    }

    pub closed spec fn wf(&self) -> bool {
        self.wf_rec()
    }

    spec fn wf_rec(&self) -> bool
        decreases self.depth@,
    {
        &&& self.utxos.wf()
        &&& match self.parent {
            Some(par) => par.depth@ < self.depth@ && par.wf_rec(),
            None => true,
        }
        &&& forall|p: OutPoint| #[trigger]
            self.utxos@.contains_key(p) ==> entry_ok(self.utxos@[p], self.parent_lookup(p))
    }

    proof fn lemma_lookup(&self, p: OutPoint)
        requires
            self.wf(),
        ensures
            self.lookup(p) == if self.utxos@.contains_key(p) {
                self.utxos@[p].utxo
            } else {
                self.parent_lookup(p)
            },
    {
    }

    proof fn lemma_view(&self)
        requires
            self.wf(),
        ensures
            forall|p: OutPoint| #[trigger] self@.contains_key(p) == (self.lookup(p) is Some),
            forall|p: OutPoint| self@.contains_key(p) ==> #[trigger] self@[p] == self.lookup(p)->Some_0,
            forall|p: OutPoint| #[trigger] self.lookup(p) == entry_of(self@, p),
    {
    }

    /// A layer untouched at `p` shows what the layers below hold there.
    pub proof fn lemma_untouched_falls_through(&self, p: OutPoint)
        requires
            self.wf(),
            !self.local_entries().contains_key(p),
        ensures
            self@.contains_key(p) == self.parent_view().contains_key(p),
            self@.contains_key(p) ==> self@[p] == self.parent_view()[p],
    {
        self.lemma_lookup(p);
    }
}

impl<'a> View for UtxosCache<'a> {
    type V = Map<OutPoint, Utxo>;

    closed spec fn view(&self) -> Map<OutPoint, Utxo> {
        Map::new(|p: OutPoint| self.lookup(p) is Some, |p: OutPoint| self.lookup(p)->Some_0)
    }
}

impl<'a> UtxosCache<'a> {
    /// An empty bottom layer.
    pub fn new_empty() -> (r: UtxosCache<'a>)
        ensures
            r.wf(),
            r@ == Map::<OutPoint, Utxo>::empty(),
            r.parent_view() == Map::<OutPoint, Utxo>::empty(),
            r.local_entries() == Map::<OutPoint, UtxoEntry>::empty(),
            r.spec_best_block() is None,
    {
        let r = UtxosCache { parent: None, utxos: AssocMap::new(), best_block: None, depth: Ghost(0) };
        assert(r@ =~= Map::<OutPoint, Utxo>::empty());
        assert(r.parent_view() =~= Map::<OutPoint, Utxo>::empty());
        r
    }

    /// A new empty layer over `parent`.
    pub fn new(parent: &'a UtxosCache<'a>) -> (r: UtxosCache<'a>)
        requires
            parent.wf(),
        ensures
            r.wf(),
            r@ == parent@,
            r.parent_view() == parent@,
            r.local_entries() == Map::<OutPoint, UtxoEntry>::empty(),
            r.spec_best_block() == parent.spec_best_block(),
    {
        let r = UtxosCache {
            parent: Some(parent),
            utxos: AssocMap::new(),
            best_block: parent.best_block,
            depth: Ghost(parent.depth@ + 1),
        };
        assert(r@ =~= parent@);
        assert(r.parent_view() =~= parent@);
        r
    }

    /// A new empty layer over this one.
    pub fn derive_cache(&'a self) -> (r: UtxosCache<'a>)
        requires
            self.wf(),
        ensures
            r.wf(),
            r@ == self@,
            r.parent_view() == self@,
            r.local_entries() == Map::<OutPoint, UtxoEntry>::empty(),
            r.spec_best_block() == self.spec_best_block(),
    {
        UtxosCache::new(self)
    }

    /// The output at `outpoint`, looking through the layers below on a miss.
    pub fn utxo(&self, outpoint: &OutPoint) -> (r: Option<Utxo>)
        requires
            self.wf(),
        ensures
            r == entry_of(self@, *outpoint),
    {
        self.utxo_rec(outpoint)
    }

    fn utxo_rec(&self, outpoint: &OutPoint) -> (r: Option<Utxo>)
        requires
            self.wf(),
        ensures
            r == entry_of(self@, *outpoint),
        decreases self.depth@,
    {
        proof {
            self.lemma_lookup(*outpoint);
            self.lemma_view();
        }
        match self.utxos.get(outpoint) {
            Some(e) => e.utxo,
            None => match self.parent {
                Some(par) => {
                    proof {
                        par.lemma_view();
                    }
                    par.utxo_rec(outpoint)
                },
                None => None,
            },
        }
    }

    pub fn has_utxo(&self, outpoint: &OutPoint) -> (r: bool)
        requires
            self.wf(),
        ensures
            r == self@.contains_key(*outpoint),
    {
        self.utxo(outpoint).is_some()
    }

    pub fn best_block_hash(&self) -> (r: Option<H256>)
        ensures
            r == self.spec_best_block(),
    {
        self.best_block
    }

    pub fn set_best_block(&mut self, block_id: H256)
        requires
            old(self).wf(),
        ensures
            final(self).wf(),
            final(self)@ == old(self)@,
            final(self).parent_view() == old(self).parent_view(),
            final(self).local_entries() == old(self).local_entries(),
            final(self).spec_best_block() == Some(block_id),
    {
        self.best_block = Some(block_id);
        proof {
            assert(self@ =~= old(self)@);
            assert(self.parent_view() =~= old(self).parent_view());
        }
    }
    /// Adds `utxo` at `outpoint`. Unless `possible_overwrite` is set, an
    /// outpoint that already holds an output is refused and nothing changes.
    pub fn add_utxo(&mut self, outpoint: &OutPoint, utxo: Utxo, possible_overwrite: bool) -> (r: Result<
        (),
        UtxosError,
    >)
        requires
            old(self).wf(),
        ensures
            final(self).wf(),
            final(self).parent_view() == old(self).parent_view(),
            final(self).spec_best_block() == old(self).spec_best_block(),
            !possible_overwrite && old(self)@.contains_key(*outpoint) ==> r == Err::<(), UtxosError>(
                UtxosError::OverwritingUtxo,
            ) && *final(self) == *old(self),
            !(!possible_overwrite && old(self)@.contains_key(*outpoint)) ==> r is Ok && final(self)@
                == old(self)@.insert(*outpoint, utxo) && final(self).local_entries().dom()
                == old(self).local_entries().dom().insert(*outpoint),
    {
        if !possible_overwrite && self.has_utxo(outpoint) {
            return Err(UtxosError::OverwritingUtxo);
        }
        let fresh = match self.utxos.get(outpoint) {
            Some(e) => e.fresh,
            None => !possible_overwrite,
        };
        proof {
            old(self).lemma_lookup(*outpoint);
        }
        self.utxos.insert(*outpoint, UtxoEntry { utxo: Some(utxo), fresh, dirty: true });
        proof {
            assert forall|q: OutPoint| #[trigger] self.lookup(q) == entry_of(
                old(self)@.insert(*outpoint, utxo),
                q,
            ) by {
                self.lemma_lookup(q);
                old(self).lemma_lookup(q);
            }
            assert(self@ =~= old(self)@.insert(*outpoint, utxo));
            assert(self.parent_view() =~= old(self).parent_view());
            assert(self.local_entries().dom() =~= old(self).local_entries().dom().insert(*outpoint));
        }
        Ok(())
    }

    /// Removes and returns the output at `outpoint`; fails, changing nothing,
    /// when no layer holds one there.
    pub fn spend_utxo(&mut self, outpoint: &OutPoint) -> (r: Result<Utxo, UtxosError>)
        requires
            old(self).wf(),
        ensures
            final(self).wf(),
            final(self).parent_view() == old(self).parent_view(),
            final(self).spec_best_block() == old(self).spec_best_block(),
            !old(self)@.contains_key(*outpoint) ==> r == Err::<Utxo, UtxosError>(
                UtxosError::NoUtxoFound,
            ) && *final(self) == *old(self),
            old(self)@.contains_key(*outpoint) ==> r == Ok::<Utxo, UtxosError>(
                old(self)@[*outpoint],
            ) && final(self)@ == old(self)@.remove(*outpoint),
    {
        proof {
            old(self).lemma_lookup(*outpoint);
        }
        let local = match self.utxos.get(outpoint) {
            Some(e) => Some(*e),
            None => None,
        };
        let spent = match local {
            Some(e) => match e.utxo {
                None => {
                    return Err(UtxosError::NoUtxoFound);
                },
                Some(u) => {
                    if e.fresh {
                        self.utxos.remove(outpoint);
                    } else {
                        self.utxos.insert(*outpoint, UtxoEntry { utxo: None, fresh: false, dirty: true });
                    }
                    u
                },
            },
            None => {
                let below = match self.parent {
                    Some(par) => par.utxo(outpoint),
                    None => None,
                };
                match below {
                    None => {
                        return Err(UtxosError::NoUtxoFound);
                    },
                    Some(u) => {
                        self.utxos.insert(*outpoint, UtxoEntry { utxo: None, fresh: false, dirty: true });
                        u
                    },
                }
            },
        };
        proof {
            assert forall|q: OutPoint| #[trigger] self.lookup(q) == entry_of(
                old(self)@.remove(*outpoint),
                q,
            ) by {
                self.lemma_lookup(q);
                old(self).lemma_lookup(q);
            }
            assert(self@ =~= old(self)@.remove(*outpoint));
            assert(self.parent_view() =~= old(self).parent_view());
        }
        Ok(spent)
    }

    /// Ends this layer, handing over its entries and best block for a flush.
    pub fn consume(self) -> (r: ConsumedUtxoCache)
        requires
            self.wf(),
        ensures
            r.container.wf(),
            r.container@ == self.local_entries(),
            r.best_block == self.spec_best_block(),
    {
        ConsumedUtxoCache { container: self.utxos, best_block: self.best_block }
    }

    /// Writes the dirty entries of a consumed layer into this one (entries that
    /// are not dirty are skipped: a layer with none writes nothing). Refused,
    /// changing nothing, when a dirty entry marked fresh meets an outpoint that
    /// this layer holds.
    pub fn batch_write(&mut self, consumed: ConsumedUtxoCache) -> (r: Result<(), UtxosError>)
        requires
            old(self).wf(),
            consumed.container.wf(),
        ensures
            final(self).wf(),
            final(self).parent_view() == old(self).parent_view(),
            fresh_conflict(old(self)@, consumed.container@) ==> r == Err::<(), UtxosError>(
                UtxosError::FreshUtxoAlreadyExists,
            ) && *final(self) == *old(self),
            !fresh_conflict(old(self)@, consumed.container@) ==> r is Ok && final(self)@ == flushed(
                old(self)@,
                consumed.container@,
            ) && final(self).spec_best_block() == match consumed.best_block {
                Some(b) => Some(b),
                None => old(self).spec_best_block(),
            },
            no_dirty(consumed.container@) ==> final(self).local_entries() == old(self).local_entries(),
    {
        let c = &consumed.container;
        let ghost cm = c@;
        proof {
            c.lemma_pairs();
            old(self).lemma_view();
        }
        let n = c.len();
        let mut i: usize = 0;
        while i < n
            invariant
                self.wf(),
                *self == *old(self),
                c.wf(),
                c@ == cm,
                consumed.container@ == cm,
                n == c.spec_pairs().len(),
                i <= n,
                forall|j: int|
                    0 <= j < i ==> !(#[trigger] c.spec_pairs()[j].1.dirty && c.spec_pairs()[j].1.fresh
                        && old(self)@.contains_key(c.spec_pairs()[j].0)),
            decreases n - i,
        {
            let pair = c.pair_at(i);
            if pair.1.dirty && pair.1.fresh && self.has_utxo(&pair.0) {
                proof {
                    assert(cm.contains_key(pair.0) && cm[pair.0].dirty && cm[pair.0].fresh);
                    assert(old(self)@.contains_key(pair.0));
                    assert(fresh_conflict(old(self)@, cm));
                }
                return Err(UtxosError::FreshUtxoAlreadyExists);
            }
            i = i + 1;
        }
        proof {
            c.lemma_pairs();
            assert forall|p: OutPoint| #[trigger] cm.contains_key(p) implies !(cm[p].dirty
                && cm[p].fresh && old(self)@.contains_key(p)) by {
                let j = choose|j: int| 0 <= j < c.spec_pairs().len() && c.spec_pairs()[j].0 == p;
                assert(c.spec_pairs()[j].1.dirty && c.spec_pairs()[j].1.fresh ==> !old(
                    self,
                )@.contains_key(c.spec_pairs()[j].0));
            }
        }
        let mut i: usize = 0;
        let ghost mut done: Set<OutPoint> = Set::empty();
        while i < n
            invariant
                self.wf(),
                old(self).wf(),
                self.parent == old(self).parent,
                self.best_block == old(self).best_block,
                c.wf(),
                c@ == cm,
                consumed.container@ == cm,
                n == c.spec_pairs().len(),
                i <= n,
                !fresh_conflict(old(self)@, cm),
                done == Set::new(|p: OutPoint| exists|j: int| 0 <= j < i && c.spec_pairs()[j].0 == p),
                forall|p: OutPoint|
                    #[trigger] done.contains(p) ==> self.lookup(p) == if cm[p].dirty {
                        cm[p].utxo
                    } else {
                        old(self).lookup(p)
                    },
                forall|p: OutPoint|
                    !done.contains(p) ==> #[trigger] self.lookup(p) == old(self).lookup(p) && entry_of(
                        self.utxos@,
                        p,
                    ) == entry_of(old(self).utxos@, p),
                no_dirty(cm) ==> self.utxos@ == old(self).utxos@,
            decreases n - i,
        {
            let (p, e) = *c.pair_at(i);
            proof {
                c.lemma_pairs();
                assert(!done.contains(p)) by {
                    if done.contains(p) {
                        let j = choose|j: int| 0 <= j < i && c.spec_pairs()[j].0 == p;
                        assert(c.spec_pairs()[j].0 != c.spec_pairs()[i as int].0);
                    }
                }
                self.lemma_lookup(p);
                old(self).lemma_lookup(p);
            }
            let ghost before = *self;
            if e.dirty {
                let local = match self.utxos.get(&p) {
                    Some(le) => Some(*le),
                    None => None,
                };
                match local {
                    None => {
                        if !(e.fresh && e.utxo.is_none()) {
                            self.utxos.insert(p, UtxoEntry { utxo: e.utxo, fresh: e.fresh, dirty: true });
                        }
                    },
                    Some(le) => {
                        if le.fresh && e.utxo.is_none() {
                            self.utxos.remove(&p);
                        } else {
                            self.utxos.insert(p, UtxoEntry { utxo: e.utxo, fresh: le.fresh, dirty: true });
                        }
                    },
                }
            }
            proof {
                assert forall|q: OutPoint| q != p implies #[trigger] self.lookup(q) == before.lookup(q)
                    && entry_of(self.utxos@, q) == entry_of(before.utxos@, q) by {
                    self.lemma_lookup(q);
                    before.lemma_lookup(q);
                }
                self.lemma_lookup(p);
                let done2 = done.insert(p);
                assert(done2 =~= Set::new(
                    |q: OutPoint| exists|j: int| 0 <= j < i + 1 && c.spec_pairs()[j].0 == q,
                )) by {
                    assert forall|q: OutPoint| done2.contains(q) implies exists|j: int|
                        0 <= j < i + 1 && c.spec_pairs()[j].0 == q by {
                        if q == p {
                            assert(c.spec_pairs()[i as int].0 == q);
                        } else {
                            let j = choose|j: int| 0 <= j < i && c.spec_pairs()[j].0 == q;
                        }
                    }
                    assert forall|q: OutPoint| (exists|j: int| 0 <= j < i + 1 && c.spec_pairs()[j].0 == q)
                        implies done2.contains(q) by {
                        let j = choose|j: int| 0 <= j < i + 1 && c.spec_pairs()[j].0 == q;
                        if j < i {
                            assert(done.contains(q));
                        }
                    }
                }
                if no_dirty(cm) {
                    assert(!e.dirty);
                }
                done = done2;
            }
            i = i + 1;
        }
        match consumed.best_block {
            Some(b) => {
                self.best_block = Some(b);
            },
            None => {},
        }
        proof {
            c.lemma_pairs();
            assert forall|p: OutPoint| cm.contains_key(p) implies #[trigger] done.contains(p) by {
                let j = choose|j: int| 0 <= j < c.spec_pairs().len() && c.spec_pairs()[j].0 == p;
                assert(c.spec_pairs()[j].0 == p);
            }
            assert forall|p: OutPoint| #[trigger] self.lookup(p) == entry_of(flushed(old(self)@, cm), p) by {
                if done.contains(p) {
                    let j = choose|j: int| 0 <= j < i && c.spec_pairs()[j].0 == p;
                    assert(cm.contains_key(p));
                }
            }
            assert(self@ =~= flushed(old(self)@, cm));
            assert(self.parent_view() =~= old(self).parent_view());
        }
        Ok(())
    }
    /// Whether one of `ins` spends `p`.
    fn inputs_spend(ins: &Vec<TxInput>, p: &OutPoint, upto: usize) -> (r: bool)
        requires
            upto <= ins@.len(),
        ensures
            r == ins@.take(upto as int).contains(TxInput::Utxo(*p)),
    {
        let mut j: usize = 0;
        while j < upto
            invariant
                upto <= ins@.len(),
                j <= upto,
                forall|k: int| 0 <= k < j ==> ins@[k] != TxInput::Utxo(*p),
            decreases upto - j,
        {
            match ins[j] {
                TxInput::Utxo(q) => {
                    if q == *p {
                        proof {
                            assert(ins@.take(upto as int)[j as int] == TxInput::Utxo(*p));
                        }
                        return true;
                    }
                },
                TxInput::Account(_) => {},
            }
            j = j + 1;
        }
        proof {
            if ins@.take(upto as int).contains(TxInput::Utxo(*p)) {
                let k = choose|k: int| 0 <= k < upto && ins@.take(upto as int)[k] == TxInput::Utxo(*p);
                assert(ins@[k] == TxInput::Utxo(*p));
            }
        }
        false
    }

    /// Connects `tx` at `height`: spends the output of every input that spends
    /// one, then adds the outputs of `tx`. Returns the spent outputs, one slot
    /// per input (`None` for an account input). Either all of it happens, or it
    /// fails and nothing changes: `NoUtxoFound` when an input finds no output
    /// (or two inputs spend the same one), `OverwritingUtxo` when an output of
    /// `tx` would land on an outpoint that holds one.
    pub fn spend_utxos(&mut self, tx: &Transaction, height: u64) -> (r: Result<UtxosTxUndo, UtxosError>)
        requires
            old(self).wf(),
            tx.outputs@.len() <= u32::MAX,
        ensures
            final(self).wf(),
            final(self).parent_view() == old(self).parent_view(),
            final(self).spec_best_block() == old(self).spec_best_block(),
            !inputs_spendable(old(self)@, tx.inputs@) ==> r == Err::<UtxosTxUndo, UtxosError>(
                UtxosError::NoUtxoFound,
            ) && *final(self) == *old(self),
            inputs_spendable(old(self)@, tx.inputs@) && !outputs_addable(old(self)@, *tx) ==> r
                == Err::<UtxosTxUndo, UtxosError>(UtxosError::OverwritingUtxo) && *final(self) == *old(
                self,
            ),
            inputs_spendable(old(self)@, tx.inputs@) && outputs_addable(old(self)@, *tx) ==> r is Ok
                && final(self)@ == connected(old(self)@, *tx, height) && r->Ok_0.0@ == tx.inputs@.map_values(
                |i: TxInput| undo_slot(old(self)@, i),
            ),
    {
        let ghost v = old(self)@;
        let ins = &tx.inputs;
        // Check every input and output before changing anything.
        let mut i: usize = 0;
        while i < ins.len()
            invariant
                self.wf(),
                *self == *old(self),
                v == self@,
                ins == &tx.inputs,
                i <= ins@.len(),
                forall|k: int|
                    0 <= k < i ==> match #[trigger] ins@[k] {
                        TxInput::Utxo(p) => v.contains_key(p) && forall|j: int|
                            0 <= j < k ==> ins@[j] != TxInput::Utxo(p),
                        TxInput::Account(_) => true,
                    },
            decreases ins@.len() - i,
        {
            match ins[i] {
                TxInput::Utxo(p) => {
                    if !self.has_utxo(&p) || Self::inputs_spend(ins, &p, i) {
                        proof {
                            if Self::spec_take_contains(ins@, i as int, p) {
                                let j = choose|j: int| 0 <= j < i && ins@.take(i as int)[j] == TxInput::Utxo(p);
                                assert(ins@[j] == TxInput::Utxo(p));
                            }
                            assert(!match ins@[i as int] {
                                TxInput::Utxo(p) => v.contains_key(p) && forall|j: int|
                                    0 <= j < i ==> ins@[j] != TxInput::Utxo(p),
                                TxInput::Account(_) => true,
                            });
                        }
                        return Err(UtxosError::NoUtxoFound);
                    }
                    proof {
                        assert forall|j: int| 0 <= j < i implies ins@[j] != TxInput::Utxo(p) by {
                            if ins@[j] == TxInput::Utxo(p) {
                                assert(ins@.take(i as int)[j] == TxInput::Utxo(p));
                            }
                        }
                    }
                },
                TxInput::Account(_) => {},
            }
            i = i + 1;
        }
        let n_out = tx.outputs.len();
        let mut k: usize = 0;
        while k < n_out
            invariant
                self.wf(),
                *self == *old(self),
                v == self@,
                ins == &tx.inputs,
                inputs_spendable(v, tx.inputs@),
                n_out == tx.outputs@.len(),
                n_out <= u32::MAX,
                k <= n_out,
                forall|p: OutPoint|
                    #[trigger] is_output_of(*tx, p) && (p.index as int) < k ==> !(v.contains_key(p)
                        && !spent_outpoints(tx.inputs@).contains(p)),
            decreases n_out - k,
        {
            let op = OutPoint { source: OutPointSourceId::Transaction(tx.id), index: k as u32 };
            if self.has_utxo(&op) && !Self::inputs_spend(ins, &op, ins.len()) {
                proof {
                    assert(ins@.take(ins@.len() as int) =~= ins@);
                    assert(is_output_of(*tx, op));
                }
                return Err(UtxosError::OverwritingUtxo);
            }
            proof {
                assert(ins@.take(ins@.len() as int) =~= ins@);
            }
            k = k + 1;
        }
        // Spend the inputs.
        let mut undo: Vec<Option<Utxo>> = Vec::new();
        let mut i: usize = 0;
        proof {
            assert(spent_outpoints(ins@.take(0)) =~= Set::<OutPoint>::empty());
            assert(v.remove_keys(Set::<OutPoint>::empty()) =~= v);
        }
        while i < ins.len()
            invariant
                self.wf(),
                self.parent_view() == old(self).parent_view(),
                self.spec_best_block() == old(self).spec_best_block(),
                ins == &tx.inputs,
                inputs_spendable(v, tx.inputs@),
                outputs_addable(v, *tx),
                i <= ins@.len(),
                self@ == v.remove_keys(spent_outpoints(ins@.take(i as int))),
                undo@ == ins@.take(i as int).map_values(|inp: TxInput| undo_slot(v, inp)),
            decreases ins@.len() - i,
        {
            proof {
                lemma_spent_take_push(ins@, i as int);
            }
            let ghost before = self@;
            match ins[i] {
                TxInput::Utxo(p) => {
                    proof {
                        assert(v.contains_key(p));
                        assert(!ins@.take(i as int).contains(TxInput::Utxo(p))) by {
                            if ins@.take(i as int).contains(TxInput::Utxo(p)) {
                                let j = choose|j: int| 0 <= j < i && ins@.take(i as int)[j] == TxInput::Utxo(p);
                                assert(ins@[j] == TxInput::Utxo(p));
                            }
                        }
                        assert(self@.contains_key(p));
                    }
                    let u = self.spend_utxo(&p);
                    match u {
                        Ok(u) => {
                            undo.push(Some(u));
                        },
                        Err(_) => {
                            proof {
                                assert(false);
                            }
                            return Err(UtxosError::NoUtxoFound);
                        },
                    }
                    proof {
                        assert(self@ =~= v.remove_keys(spent_outpoints(ins@.take(i + 1))));
                    }
                },
                TxInput::Account(_) => {
                    undo.push(None);
                },
            }
            proof {
                assert(ins@.take(i + 1).map_values(|inp: TxInput| undo_slot(v, inp)) =~= ins@.take(
                    i as int,
                ).map_values(|inp: TxInput| undo_slot(v, inp)).push(undo_slot(v, ins@[i as int])));
                assert(undo@ =~= ins@.take(i + 1).map_values(|inp: TxInput| undo_slot(v, inp)));
            }
            i = i + 1;
        }
        proof {
            assert(ins@.take(ins@.len() as int) =~= ins@);
        }
        let ghost base = self@;
        // Add the outputs.
        let mut k: usize = 0;
        proof {
            assert(base.union_prefer_right(created_utxos(*tx, height).restrict(Set::new(|p: OutPoint| is_output_of(*tx, p) && (p.index as int) < 0))) =~= base);
        }
        while k < n_out
            invariant
                self.wf(),
                self.parent_view() == old(self).parent_view(),
                self.spec_best_block() == old(self).spec_best_block(),
                base == v.remove_keys(spent_outpoints(tx.inputs@)),
                outputs_addable(v, *tx),
                n_out == tx.outputs@.len(),
                n_out <= u32::MAX,
                k <= n_out,
                self@ == base.union_prefer_right(created_utxos(*tx, height).restrict(Set::new(|p: OutPoint| is_output_of(*tx, p) && (p.index as int) < k))),
            decreases n_out - k,
        {
            let op = OutPoint { source: OutPointSourceId::Transaction(tx.id), index: k as u32 };
            let utxo = Utxo { output: tx.outputs[k], is_block_reward: false, height };
            proof {
                assert(is_output_of(*tx, op));
                assert(!self@.contains_key(op));
            }
            let added = self.add_utxo(&op, utxo, false);
            proof {
                assert(added is Ok);
                assert(self@ =~= base.union_prefer_right(created_utxos(*tx, height).restrict(Set::new(|p: OutPoint| is_output_of(*tx, p) && (p.index as int) < k + 1))));
            }
            k = k + 1;
        }
        proof {
            assert(created_utxos(*tx, height).restrict(Set::new(|p: OutPoint| is_output_of(*tx, p) && (p.index as int) < n_out)) =~= created_utxos(*tx, height));
        }
        Ok(UtxosTxUndo(undo))
    }

    spec fn spec_take_contains(ins: Seq<TxInput>, i: int, p: OutPoint) -> bool {
        ins.take(i).contains(TxInput::Utxo(p))
    }
}

} // verus!
