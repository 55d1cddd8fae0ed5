//! Outpoints, outputs, inputs and transactions, as far as the ledger core reads them.
use vstd::prelude::*;
use vstd::laws_eq::obeys_concrete_eq;
use crate::primitives::H256;

verus! {

/// Where an output was created: a transaction, or the reward of a block.
#[derive(Clone, Copy, Debug, PartialOrd, Ord, Hash)]
pub enum OutPointSourceId {
    Transaction(H256),
    BlockReward(H256),
}

impl PartialEq for OutPointSourceId {
    fn eq(&self, o: &OutPointSourceId) -> (r: bool) {
        match (self, o) {
            (OutPointSourceId::Transaction(a), OutPointSourceId::Transaction(b)) => a == b,
            (OutPointSourceId::BlockReward(a), OutPointSourceId::BlockReward(b)) => a == b,
            _ => false,
        }
    }
}

impl Eq for OutPointSourceId {
}

impl vstd::std_specs::cmp::PartialEqSpecImpl for OutPointSourceId {
    open spec fn obeys_eq_spec() -> bool {
        true
    }

    open spec fn eq_spec(&self, o: &OutPointSourceId) -> bool {
        *self == *o
    }
}

/// An output source as an ordered key: a tag (0 for a transaction, 1 for a
/// block reward), then the id's four words, most significant first.
pub type SourceKey = (u8, u64, u64, u64, u64);

pub open spec fn source_key(s: OutPointSourceId) -> SourceKey {
    match s {
        OutPointSourceId::Transaction(h) => (0u8, h.w0, h.w1, h.w2, h.w3),
        OutPointSourceId::BlockReward(h) => (1u8, h.w0, h.w1, h.w2, h.w3),
    }
}

impl OutPointSourceId {
    pub fn ordered_key(&self) -> (k: SourceKey)
        ensures
            k == source_key(*self),
    {
        match self {
            OutPointSourceId::Transaction(h) => (0u8, h.w0, h.w1, h.w2, h.w3),
            OutPointSourceId::BlockReward(h) => (1u8, h.w0, h.w1, h.w2, h.w3),
        }
    }
}

/// One output of a transaction or block reward: its source and its index there.
#[derive(Clone, Copy, Debug, PartialOrd, Ord, Hash)]
pub struct OutPoint {
    pub source: OutPointSourceId,
    pub index: u32,
}

impl PartialEq for OutPoint {
    fn eq(&self, o: &OutPoint) -> (r: bool) {
        self.source == o.source && self.index == o.index
    }
}

impl Eq for OutPoint {
}

impl vstd::std_specs::cmp::PartialEqSpecImpl for OutPoint {
    open spec fn obeys_eq_spec() -> bool {
        true
    }

    open spec fn eq_spec(&self, o: &OutPoint) -> bool {
        *self == *o
    }
}

/// Equality on outpoints is equality of the values.
pub broadcast proof fn lemma_outpoint_eq()
    ensures
        #[trigger] obeys_concrete_eq::<OutPoint>(),
{
    reveal(obeys_concrete_eq);
}

/// The bytes of `x`, least significant first.
pub open spec fn u32_le_bytes(x: u32) -> Seq<u8> {
    seq![x as u8, (x >> 8u32) as u8, (x >> 16u32) as u8, (x >> 24u32) as u8]
}

pub fn push_u32_le(out: &mut Vec<u8>, x: u32)
    ensures
        final(out)@ == old(out)@ + u32_le_bytes(x),
{
    out.push(x as u8);
    out.push((x >> 8u32) as u8);
    out.push((x >> 16u32) as u8);
    out.push((x >> 24u32) as u8);
    assert(final(out)@ =~= old(out)@ + u32_le_bytes(x));
}

/// The encoding of an outpoint: a tag byte for the kind of source (0 for a
/// transaction, 1 for a block reward), the source's 32 bytes, then the index
/// in four bytes, least significant first.
pub open spec fn outpoint_bytes(p: OutPoint) -> Seq<u8> {
    match p.source {
        OutPointSourceId::Transaction(id) => seq![0u8] + id.spec_bytes() + u32_le_bytes(p.index),
        OutPointSourceId::BlockReward(id) => seq![1u8] + id.spec_bytes() + u32_le_bytes(p.index),
    }
}

impl OutPoint {
    /// Appends the encoding of the outpoint to `out`.
    pub fn encode_to(&self, out: &mut Vec<u8>)
        ensures
            final(out)@ == old(out)@ + outpoint_bytes(*self),
    {
        match self.source {
            OutPointSourceId::Transaction(id) => {
                out.push(0u8);
                id.write_bytes(out);
            },
            OutPointSourceId::BlockReward(id) => {
                out.push(1u8);
                id.write_bytes(out);
            },
        }
        push_u32_le(out, self.index);
        proof {
            match self.source {
                OutPointSourceId::Transaction(id) => {
                    assert(final(out)@ =~= old(out)@ + outpoint_bytes(*self));
                },
                OutPointSourceId::BlockReward(id) => {
                    assert(final(out)@ =~= old(out)@ + outpoint_bytes(*self));
                },
            }
        }
    }

    pub fn new(source: OutPointSourceId, index: u32) -> (r: OutPoint)
        ensures
            r == (OutPoint { source, index }),
    {
        OutPoint { source, index }
    }

    pub fn source_id(&self) -> (r: OutPointSourceId)
        ensures
            r == self.source,
    {
        self.source
    }
}

/// What an output carries: an amount and the key that may spend it. The core
/// does not interpret either.
#[derive(Clone, Copy, Debug, PartialEq, Eq)]
pub struct TxOutput {
    pub value: u128,
    pub destination: H256,
}

/// An input spends an output, or draws on an account (outside the output set).
#[derive(Clone, Copy, Debug, PartialEq, Eq)]
pub enum TxInput {
    Utxo(OutPoint),
    Account(u64),
}

#[derive(Clone, Debug, PartialEq, Eq)]
pub struct Transaction {
    pub id: H256,
    pub inputs: Vec<TxInput>,
    pub outputs: Vec<TxOutput>,
}

impl Transaction {
    pub fn new(id: H256, inputs: Vec<TxInput>, outputs: Vec<TxOutput>) -> (r: Transaction)
        ensures
            r.id == id,
            r.inputs@ == inputs@,
            r.outputs@ == outputs@,
    {
        Transaction { id, inputs, outputs }
    }

    /// The outpoint of output `index` of this transaction.
    pub open spec fn spec_outpoint(&self, index: int) -> OutPoint {
        OutPoint { source: OutPointSourceId::Transaction(self.id), index: index as u32 }
    }
}

} // verus!
