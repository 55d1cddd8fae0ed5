//! Orders: offers to exchange one amount of currency for another.
use vstd::prelude::*;
use crate::chain::{outpoint_bytes, OutPoint};
use crate::hash::{hash_bytes, hash_of};
use crate::primitives::H256;

verus! {

/// The kind of identifier that names an order.
#[derive(Clone, Copy, Debug, PartialEq, Eq)]
pub enum Order {
    Marker,
}

/// The identifier of an order.
#[derive(Clone, Copy, Debug, PartialEq, Eq, PartialOrd, Ord, Hash)]
pub struct OrderId(pub H256);

impl OrderId {
    pub fn new(h: H256) -> (r: OrderId)
        ensures
            r.0 == h,
    {
        OrderId(h)
    }

    pub fn zero() -> (r: OrderId)
        ensures
            r.0 == (H256 { w0: 0, w1: 0, w2: 0, w3: 0 }),
    {
        OrderId(H256::zero())
    }
}

/// The identifier of the order created by spending `input0_outpoint`: the
/// hash of the outpoint's encoding.
pub fn make_order_id(input0_outpoint: &OutPoint) -> (r: OrderId)
    ensures
        r.0 == hash_of(outpoint_bytes(*input0_outpoint)),
{
    let mut data: Vec<u8> = Vec::new();
    input0_outpoint.encode_to(&mut data);
    assert(data@ =~= outpoint_bytes(*input0_outpoint));
    OrderId(hash_bytes(&data))
}

/// An amount of coins, or of the token with the given identifier.
#[derive(Clone, Copy, Debug, PartialEq, Eq)]
pub enum OutputValue {
    Coin(u128),
    TokenV1(H256, u128),
}

#[derive(Clone, Copy, Debug, PartialEq, Eq)]
pub struct OrderData {
    /// The key that can authorize cancellation of the order.
    cancel_key: H256,
    /// What the maker asks for.
    ask: OutputValue,
    /// What the maker gives in exchange.
    give: OutputValue,
}

impl OrderData {
    pub closed spec fn spec_cancel_key(&self) -> H256 {
        self.cancel_key
    }

    pub closed spec fn spec_ask(&self) -> OutputValue {
        self.ask
    }

    pub closed spec fn spec_give(&self) -> OutputValue {
        self.give
    }

    pub fn new(cancel_key: H256, ask: OutputValue, give: OutputValue) -> (r: OrderData)
        ensures
            r.spec_cancel_key() == cancel_key,
            r.spec_ask() == ask,
            r.spec_give() == give,
    {
        OrderData { cancel_key, ask, give }
    }

    pub fn cancel_key(&self) -> (r: &H256)
        ensures
            *r == self.spec_cancel_key(),
    {
        &self.cancel_key
    }

    pub fn ask(&self) -> (r: &OutputValue)
        ensures
            *r == self.spec_ask(),
    {
        &self.ask
    }

    pub fn give(&self) -> (r: &OutputValue)
        ensures
            *r == self.spec_give(),
    {
        &self.give
    }
}

} // verus!
