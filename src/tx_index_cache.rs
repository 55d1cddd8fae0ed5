//! A cache of transaction indexes (where a transaction sits in the main chain
//! and which of its outputs are spent), written while a block is connected.
use vstd::prelude::*;
use std::collections::BTreeMap;
use crate::chain::{source_key, OutPoint, OutPointSourceId, SourceKey, Transaction};
use crate::consensus_data::ConsensusData;
use crate::primitives::H256;

verus! {

broadcast use vstd::std_specs::btree::group_btree_axioms;

/// Where a transaction's outputs come from in the main chain.
#[derive(Clone, Copy, Debug, PartialEq, Eq)]
pub enum SpendablePosition {
    /// Transaction `tx_num` of block `block_id`.
    Transaction { block_id: H256, tx_num: u32 },
    /// The reward of block `block_id`.
    BlockReward(H256),
}

#[derive(Clone, Copy, Debug, PartialEq, Eq)]
pub enum OutputSpentState {
    Unspent,
    SpentBy(OutPointSourceId),
}

/// A transaction's position and the spent state of each of its outputs.
#[derive(Clone, Debug, PartialEq, Eq)]
pub struct TxMainChainIndex {
    pub position: SpendablePosition,
    pub spent: Vec<OutputSpentState>,
}

impl TxMainChainIndex {
    /// The index of `output_count` unspent outputs at `position`; an index
    /// needs at least one output.
    pub fn new(position: SpendablePosition, output_count: u32) -> (r: Result<
        TxMainChainIndex,
        ConnectTransactionError,
    >)
        ensures
            output_count == 0 ==> r == Err::<TxMainChainIndex, ConnectTransactionError>(
                ConnectTransactionError::InvalidOutputCount,
            ),
            output_count > 0 ==> r is Ok && r->Ok_0.position == position && r->Ok_0.spent@ == Seq::new(
                output_count as nat,
                |_i: int| OutputSpentState::Unspent,
            ),
    {
        if output_count == 0 {
            return Err(ConnectTransactionError::InvalidOutputCount);
        }
        let mut spent: Vec<OutputSpentState> = Vec::new();
        let mut i: u32 = 0;
        while i < output_count
            invariant
                i <= output_count,
                spent@ == Seq::new(i as nat, |_i: int| OutputSpentState::Unspent),
            decreases output_count - i,
        {
            spent.push(OutputSpentState::Unspent);
            i = i + 1;
            assert(spent@ =~= Seq::new(i as nat, |_i: int| OutputSpentState::Unspent));
        }
        Ok(TxMainChainIndex { position, spent })
    }
}

/// What connecting a block does to one cached index: writes it, only read it,
/// or erases it.
#[derive(Clone, Debug, PartialEq, Eq)]
pub enum CachedInputsOperation {
    Write(TxMainChainIndex),
    Read(TxMainChainIndex),
    Erase,
}

impl CachedInputsOperation {
    pub open spec fn spec_tx_index(&self) -> Option<TxMainChainIndex> {
        match self {
            CachedInputsOperation::Write(i) => Some(*i),
            CachedInputsOperation::Read(i) => Some(*i),
            CachedInputsOperation::Erase => None,
        }
    }

    pub fn get_tx_index(&self) -> (r: Option<&TxMainChainIndex>)
        ensures
            match r {
                Some(i) => self.spec_tx_index() == Some(*i),
                None => self.spec_tx_index() is None,
            },
    {
        match self {
            CachedInputsOperation::Write(i) => Some(i),
            CachedInputsOperation::Read(i) => Some(i),
            CachedInputsOperation::Erase => None,
        }
    }
}

#[derive(Clone, Copy, Debug, PartialEq, Eq)]
pub enum ConnectTransactionError {
    InvalidOutputCount,
    OutputAlreadyPresentInInputsCache,
    MissingOutputOrSpent,
    PreviouslyCachedInputNotFound,
    /// The block has no transaction with this number.
    InvariantErrorTxNumWrongInBlock(usize, H256),
}

/// A block as the index cache reads it.
pub struct Block {
    pub id: H256,
    pub transactions: Vec<Transaction>,
    pub consensus_data: ConsensusData,
}

/// A transaction of a block, or the block's reward.
pub enum BlockTransactableRef<'a> {
    Transaction(&'a Block, usize),
    BlockReward(&'a Block),
}

/// The source id under which `spend_ref` is cached, or the error for a
/// transaction number past the end of the block.
pub open spec fn spec_source_id_result(spend_ref: BlockTransactableRef) -> Result<
    OutPointSourceId,
    ConnectTransactionError,
> {
    match spend_ref {
        BlockTransactableRef::Transaction(block, tx_num) => if tx_num < block.transactions@.len() {
            Ok(OutPointSourceId::Transaction(block.transactions@[tx_num as int].id))
        } else {
            Err(ConnectTransactionError::InvariantErrorTxNumWrongInBlock(tx_num, block.id))
        },
        BlockTransactableRef::BlockReward(block) => Ok(OutPointSourceId::BlockReward(block.id)),
    }
}

/// Whether every cached operation only records a read: flushing such a cache
/// writes nothing.
pub open spec fn only_reads(m: Map<OutPointSourceId, CachedInputsOperation>) -> bool {
    forall|k: OutPointSourceId| #[trigger] m.contains_key(k) ==> m[k] is Read
}

/// The number of reward outputs of `block`, if its consensus data gives any.
pub open spec fn reward_output_count(block: Block) -> Option<nat> {
    match block.consensus_data {
        ConsensusData::NoConsensus => None,
        ConsensusData::PoW(pow) => Some(pow.spec_outputs().len()),
        ConsensusData::FakePoS(pos) => Some(pos.spec_reward_outputs().len()),
    }
}

/// Transaction indexes keyed by the source of the outputs they describe.
pub struct TxIndexCache {
    data: BTreeMap<SourceKey, CachedInputsOperation>,
}

impl View for TxIndexCache {
    type V = Map<OutPointSourceId, CachedInputsOperation>;

    closed spec fn view(&self) -> Map<OutPointSourceId, CachedInputsOperation> {
        Map::new(|s: OutPointSourceId| self.data@.contains_key(source_key(s)), |s: OutPointSourceId| self.data@[source_key(s)])
    }
}

impl TxIndexCache {
    /// Every key is the key of a source.
    pub closed spec fn wf(&self) -> bool {
        forall|k: SourceKey| #[trigger] self.data@.contains_key(k) ==> k.0 <= 1
    }

    pub fn new() -> (r: TxIndexCache)
        ensures
            r.wf(),
            only_reads(r@),
            r@ == Map::<OutPointSourceId, CachedInputsOperation>::empty(),
    {
        let r = TxIndexCache { data: BTreeMap::new() };
        assert(r@ =~= Map::<OutPointSourceId, CachedInputsOperation>::empty());
        r
    }

    fn data_get(&self, s: &OutPointSourceId) -> (r: Option<&CachedInputsOperation>)
        ensures
            match r {
                Some(op) => self@.contains_key(*s) && self@[*s] == *op,
                None => !self@.contains_key(*s),
            },
    {
        self.data.get(&s.ordered_key())
    }

    fn data_insert(&mut self, s: OutPointSourceId, op: CachedInputsOperation)
        requires
            old(self).wf(),
        ensures
            final(self).wf(),
            final(self)@ == old(self)@.insert(s, op),
    {
        self.data.insert(s.ordered_key(), op);
        proof {
            assert forall|a: OutPointSourceId, b: OutPointSourceId| source_key(a) == source_key(b) implies a == b by {
                match a {
                    OutPointSourceId::Transaction(_) => match b {
                        OutPointSourceId::Transaction(_) => {},
                        OutPointSourceId::BlockReward(_) => {},
                    },
                    OutPointSourceId::BlockReward(_) => match b {
                        OutPointSourceId::Transaction(_) => {},
                        OutPointSourceId::BlockReward(_) => {},
                    },
                }
            }
            assert(self@ =~= old(self)@.insert(s, op));
        }
    }

    fn outpoint_source_id_from_spend_ref(spend_ref: &BlockTransactableRef) -> (r: Result<
        OutPointSourceId,
        ConnectTransactionError,
    >)
        ensures
            r == spec_source_id_result(*spend_ref),
    {
        match spend_ref {
            BlockTransactableRef::Transaction(block, tx_num) => {
                if *tx_num < block.transactions.len() {
                    Ok(OutPointSourceId::Transaction(block.transactions[*tx_num].id))
                } else {
                    Err(ConnectTransactionError::InvariantErrorTxNumWrongInBlock(*tx_num, block.id))
                }
            },
            BlockTransactableRef::BlockReward(block) => Ok(OutPointSourceId::BlockReward(block.id)),
        }
    }

    /// Caches a written index for a transaction of a block (at its number in
    /// the block) or for a block's reward; a reward without outputs is skipped.
    /// Refused, changing nothing, when the source is already cached, when the
    /// transaction number is out of range, or when there are no outputs.
    pub fn add_tx_index(&mut self, spend_ref: BlockTransactableRef) -> (r: Result<
        (),
        ConnectTransactionError,
    >)
        requires
            old(self).wf(),
        ensures
            final(self).wf(),
            r is Err ==> final(self)@ == old(self)@,
            match spend_ref {
                BlockTransactableRef::Transaction(block, tx_num) => if tx_num >= block.transactions@.len() {
                    r == Err::<(), ConnectTransactionError>(
                        ConnectTransactionError::InvariantErrorTxNumWrongInBlock(tx_num, block.id),
                    )
                } else {
                    let tx = block.transactions@[tx_num as int];
                    let id = OutPointSourceId::Transaction(tx.id);
                    if tx.outputs@.len() == 0 || tx.outputs@.len() > u32::MAX {
                        r == Err::<(), ConnectTransactionError>(ConnectTransactionError::InvalidOutputCount)
                    } else if old(self)@.contains_key(id) {
                        r == Err::<(), ConnectTransactionError>(
                            ConnectTransactionError::OutputAlreadyPresentInInputsCache,
                        )
                    } else {
                        r is Ok && final(self)@.dom() == old(self)@.dom().insert(id) && (
                        final(self)@[id] matches CachedInputsOperation::Write(idx) && idx.position == (
                        SpendablePosition::Transaction { block_id: block.id, tx_num: tx_num as u32 })
                            && idx.spent@ == Seq::new(
                            tx.outputs@.len(),
                            |_i: int| OutputSpentState::Unspent,
                        )) && forall|k: OutPointSourceId|
                            k != id && old(self)@.contains_key(k) ==> final(self)@[k] == old(self)@[k]
                    }
                },
                BlockTransactableRef::BlockReward(block) => {
                    let id = OutPointSourceId::BlockReward(block.id);
                    match reward_output_count(*block) {
                        None => r is Ok && final(self)@ == old(self)@,
                        Some(n) => if n == 0 || n > u32::MAX {
                            r == Err::<(), ConnectTransactionError>(
                                ConnectTransactionError::InvalidOutputCount,
                            )
                        } else if old(self)@.contains_key(id) {
                            r == Err::<(), ConnectTransactionError>(
                                ConnectTransactionError::OutputAlreadyPresentInInputsCache,
                            )
                        } else {
                            r is Ok && final(self)@.dom() == old(self)@.dom().insert(id) && (
                            final(self)@[id] matches CachedInputsOperation::Write(idx) && idx.position
                                == SpendablePosition::BlockReward(block.id) && idx.spent@ == Seq::new(
                                n,
                                |_i: int| OutputSpentState::Unspent,
                            ))
                                && forall|k: OutPointSourceId|
                                k != id && old(self)@.contains_key(k) ==> final(self)@[k] == old(self)@[k]
                        },
                    }
                },
            },
    {
        let tx_index = match spend_ref {
            BlockTransactableRef::Transaction(block, tx_num) => {
                if tx_num >= block.transactions.len() {
                    return Err(ConnectTransactionError::InvariantErrorTxNumWrongInBlock(tx_num, block.id));
                }
                let n = block.transactions[tx_num].outputs.len();
                if n > u32::MAX as usize {
                    return Err(ConnectTransactionError::InvalidOutputCount);
                }
                TxMainChainIndex::new(
                    SpendablePosition::Transaction { block_id: block.id, tx_num: tx_num as u32 },
                    n as u32,
                )?
            },
            BlockTransactableRef::BlockReward(block) => {
                let reward = block.consensus_data.derive_transactable();
                match reward.outputs() {
                    Some(outputs) => {
                        let n = outputs.len();
                        if n > u32::MAX as usize {
                            return Err(ConnectTransactionError::InvalidOutputCount);
                        }
                        TxMainChainIndex::new(SpendablePosition::BlockReward(block.id), n as u32)?
                    },
                    None => {
                        return Ok(());
                    },
                }
            },
        };
        let outpoint_source_id = Self::outpoint_source_id_from_spend_ref(&spend_ref)?;
        if self.data_get(&outpoint_source_id).is_some() {
            return Err(ConnectTransactionError::OutputAlreadyPresentInInputsCache);
        }
        self.data_insert(outpoint_source_id, CachedInputsOperation::Write(tx_index));
        Ok(())
    }

    /// Marks the index of `spend_ref`'s source as erased.
    pub fn remove_tx_index(&mut self, spend_ref: BlockTransactableRef) -> (r: Result<
        (),
        ConnectTransactionError,
    >)
        requires
            old(self).wf(),
        ensures
            final(self).wf(),
            match spec_source_id_result(spend_ref) {
                Ok(id) => r is Ok && final(self)@ == old(self)@.insert(id, CachedInputsOperation::Erase),
                Err(e) => r == Err::<(), ConnectTransactionError>(e) && final(self)@ == old(self)@,
            },
    {
        let outpoint_source_id = Self::outpoint_source_id_from_spend_ref(&spend_ref)?;
        self.data_insert(outpoint_source_id, CachedInputsOperation::Erase);
        Ok(())
    }

    /// Caches as read what was fetched for the source `key`: an index, or
    /// nothing (the output is missing or spent), or the fetch's own error.
    pub fn cache_fetched(
        &mut self,
        key: OutPointSourceId,
        fetched: Result<Option<TxMainChainIndex>, ConnectTransactionError>,
    ) -> (r: Result<(), ConnectTransactionError>)
        requires
            old(self).wf(),
        ensures
            final(self).wf(),
            only_reads(old(self)@) ==> only_reads(final(self)@),
            match fetched {
                Ok(Some(idx)) => r is Ok && final(self)@ == old(self)@.insert(key, CachedInputsOperation::Read(idx)),
                Ok(None) => r == Err::<(), ConnectTransactionError>(ConnectTransactionError::MissingOutputOrSpent)
                    && final(self)@ == old(self)@,
                Err(e) => r == Err::<(), ConnectTransactionError>(e) && final(self)@ == old(self)@,
            },
    {
        match fetched {
            Ok(Some(idx)) => {
                self.data_insert(key, CachedInputsOperation::Read(idx));
                Ok(())
            },
            Ok(None) => Err(ConnectTransactionError::MissingOutputOrSpent),
            Err(e) => Err(e),
        }
    }

    /// Makes sure the index of the source of `outpoint` is cached, asking
    /// `fetcher` (for instance the chain's store) when it is not.
    pub fn fetch_and_cache<F>(&mut self, outpoint: &OutPoint, fetcher: F) -> (r: Result<
        (),
        ConnectTransactionError,
    >) where F: Fn(&OutPointSourceId) -> Result<Option<TxMainChainIndex>, ConnectTransactionError>
        requires
            old(self).wf(),
            fetcher.requires((&outpoint.source,)),
        ensures
            final(self).wf(),
            only_reads(old(self)@) ==> only_reads(final(self)@),
            old(self)@.contains_key(outpoint.source) ==> r is Ok && final(self)@ == old(self)@,
            !old(self)@.contains_key(outpoint.source) ==> exists|fetched: Result<Option<TxMainChainIndex>, ConnectTransactionError>|
                fetcher.ensures((&outpoint.source,), fetched) && match fetched {
                    Ok(Some(idx)) => r is Ok && final(self)@ == old(self)@.insert(
                        outpoint.source,
                        CachedInputsOperation::Read(idx),
                    ),
                    Ok(None) => r == Err::<(), ConnectTransactionError>(
                        ConnectTransactionError::MissingOutputOrSpent,
                    ) && final(self)@ == old(self)@,
                    Err(e) => r == Err::<(), ConnectTransactionError>(e) && final(self)@ == old(self)@,
                },
    {
        let key = outpoint.source_id();
        if self.data_get(&key).is_some() {
            return Ok(());
        }
        let fetched = fetcher(&key);
        self.cache_fetched(key, fetched)
    }

    /// The cached index of `outpoint`'s source: `None` when it was erased.
    /// Fails when nothing is cached for it.
    pub fn get_from_cached(&self, outpoint: &OutPointSourceId) -> (r: Result<
        Option<&TxMainChainIndex>,
        ConnectTransactionError,
    >)
        requires
            self.wf(),
        ensures
            !self@.contains_key(*outpoint) ==> r == Err::<Option<&TxMainChainIndex>, ConnectTransactionError>(
                ConnectTransactionError::PreviouslyCachedInputNotFound,
            ),
            self@.contains_key(*outpoint) ==> r is Ok && match r->Ok_0 {
                Some(i) => self@[*outpoint].spec_tx_index() == Some(*i),
                None => self@[*outpoint].spec_tx_index() is None,
            },
    {
        match self.data_get(outpoint) {
            Some(op) => Ok(op.get_tx_index()),
            None => Err(ConnectTransactionError::PreviouslyCachedInputNotFound),
        }
    }

    /// Ends the cache, handing over its entries keyed by `ordered_key` of
    /// their source.
    pub fn take(self) -> (r: BTreeMap<SourceKey, CachedInputsOperation>)
        requires
            self.wf(),
        ensures
            forall|s: OutPointSourceId| #[trigger] r@.contains_key(source_key(s)) == self@.contains_key(s),
            forall|s: OutPointSourceId| self@.contains_key(s) ==> #[trigger] r@[source_key(s)] == self@[s],
            forall|k: SourceKey| #[trigger] r@.contains_key(k) ==> k.0 <= 1,
    {
        self.data
    }
}

} // verus!
