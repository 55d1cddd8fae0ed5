//! What a block header carries about how the block was produced, and the
//! reward inputs and outputs that follow from it.
use vstd::prelude::*;
use crate::chain::{TxInput, TxOutput};

verus! {

/// A proof-of-work target in compact form.
#[derive(Clone, Copy, Debug, PartialEq, Eq, PartialOrd, Ord)]
pub struct Compact(pub u32);

#[derive(Clone, Debug, PartialEq, Eq)]
pub struct PoWData {
    bits: Compact,
    nonce: u128,
    reward_outputs: Vec<TxOutput>,
}

impl PoWData {
    pub closed spec fn spec_bits(&self) -> Compact {
        self.bits
    }

    pub closed spec fn spec_nonce(&self) -> u128 {
        self.nonce
    }

    pub closed spec fn spec_outputs(&self) -> Seq<TxOutput> {
        self.reward_outputs@
    }

    pub fn new(bits: Compact, nonce: u128, reward_outputs: Vec<TxOutput>) -> (r: PoWData)
        ensures
            r.spec_bits() == bits,
            r.spec_nonce() == nonce,
            r.spec_outputs() == reward_outputs@,
    {
        PoWData { bits, nonce, reward_outputs }
    }

    pub fn bits(&self) -> (r: Compact)
        ensures
            r == self.spec_bits(),
    {
        self.bits
    }

    pub fn nonce(&self) -> (r: u128)
        ensures
            r == self.spec_nonce(),
    {
        self.nonce
    }

    pub fn outputs(&self) -> (r: &[TxOutput])
        ensures
            r@ == self.spec_outputs(),
    {
        self.reward_outputs.as_slice()
    }

    pub fn update_nonce(&mut self, nonce: u128)
        ensures
            final(self).spec_nonce() == nonce,
            final(self).spec_bits() == old(self).spec_bits(),
            final(self).spec_outputs() == old(self).spec_outputs(),
    {
        self.nonce = nonce;
    }
}

/// Stand-in proof-of-stake data: the kernel inputs and the reward outputs.
#[derive(Clone, Debug, PartialEq, Eq)]
pub struct FakePoSData {
    kernel_inputs: Vec<TxInput>,
    reward_outputs: Vec<TxOutput>,
}

impl FakePoSData {
    pub closed spec fn spec_kernel_inputs(&self) -> Seq<TxInput> {
        self.kernel_inputs@
    }

    pub closed spec fn spec_reward_outputs(&self) -> Seq<TxOutput> {
        self.reward_outputs@
    }

    pub fn new(kernel_inputs: Vec<TxInput>, reward_outputs: Vec<TxOutput>) -> (r: FakePoSData)
        ensures
            r.spec_kernel_inputs() == kernel_inputs@,
            r.spec_reward_outputs() == reward_outputs@,
    {
        FakePoSData { kernel_inputs, reward_outputs }
    }
}

#[derive(Clone, Debug, PartialEq, Eq)]
pub enum ConsensusData {
    NoConsensus,
    PoW(PoWData),
    FakePoS(FakePoSData),
}

/// The inputs and outputs of a block reward, borrowed from its consensus data.
pub struct BlockRewardTransactable<'a> {
    pub inputs: Option<&'a [TxInput]>,
    pub outputs: Option<&'a [TxOutput]>,
}

impl<'a> BlockRewardTransactable<'a> {
    pub fn inputs(&self) -> (r: Option<&'a [TxInput]>)
        ensures
            r == self.inputs,
    {
        self.inputs
    }

    pub fn outputs(&self) -> (r: Option<&'a [TxOutput]>)
        ensures
            r == self.outputs,
    {
        self.outputs
    }
}

impl ConsensusData {
    /// The reward's inputs and outputs: none without consensus data, the
    /// reward outputs under proof of work, kernel inputs and reward outputs
    /// under stand-in proof of stake.
    pub fn derive_transactable(&self) -> (r: BlockRewardTransactable<'_>)
        ensures
            match self {
                ConsensusData::NoConsensus => r.inputs is None && r.outputs is None,
                ConsensusData::PoW(pow) => r.inputs is None && r.outputs is Some
                    && r.outputs->Some_0@ == pow.spec_outputs(),
                ConsensusData::FakePoS(pos) => r.inputs is Some && r.outputs is Some
                    && r.inputs->Some_0@ == pos.spec_kernel_inputs() && r.outputs->Some_0@
                    == pos.spec_reward_outputs(),
            },
    {
        match self {
            ConsensusData::NoConsensus => BlockRewardTransactable { inputs: None, outputs: None },
            ConsensusData::PoW(pow_data) => BlockRewardTransactable {
                inputs: None,
                outputs: Some(pow_data.outputs()),
            },
            ConsensusData::FakePoS(pos_data) => BlockRewardTransactable {
                inputs: Some(pos_data.kernel_inputs.as_slice()),
                outputs: Some(pos_data.reward_outputs.as_slice()),
            },
        }
    }
}

/// Seconds since the Unix epoch at which a block was made.
#[derive(Clone, Copy, Debug, PartialEq, Eq, PartialOrd, Ord)]
pub struct BlockTimestamp(pub u64);

#[derive(Clone, Copy, Debug, PartialEq, Eq)]
pub enum BlockProductionError {
    /// Adding the seconds to the timestamp leaves the range of timestamps.
    TimestampOverflow(BlockTimestamp, u64),
}

/// `timestamp` moved `secs` seconds later.
pub fn timestamp_add_secs(timestamp: BlockTimestamp, secs: u64) -> (r: Result<
    BlockTimestamp,
    BlockProductionError,
>)
    ensures
        timestamp.0 + secs <= u64::MAX ==> r == Ok::<BlockTimestamp, BlockProductionError>(
            BlockTimestamp((timestamp.0 + secs) as u64),
        ),
        timestamp.0 + secs > u64::MAX ==> r == Err::<BlockTimestamp, BlockProductionError>(
            BlockProductionError::TimestampOverflow(timestamp, secs),
        ),
{
    match timestamp.0.checked_add(secs) {
        Some(t) => Ok(BlockTimestamp(t)),
        None => Err(BlockProductionError::TimestampOverflow(timestamp, secs)),
    }
}

} // verus!
