//! Balances of staking pools and of delegations to them, keyed by addresses
//! derived from the outpoint that created them.
use vstd::prelude::*;
use std::collections::BTreeMap;
use crate::delta::DataDelta;
use crate::chain::{outpoint_bytes, push_u32_le, u32_le_bytes, OutPoint};
use crate::hash::{hash_bytes, hash_of};
use crate::primitives::{key_of_h256, H256, H256Key};

verus! {

broadcast use vstd::std_specs::btree::group_btree_axioms;

#[derive(Clone, Copy, Debug, PartialEq, Eq)]
pub enum AccountingError {
    /// A pool or delegation derived from the same outpoint already exists.
    InvariantErrorPoolAlreadyExists,
    AttemptedDecommissionNonexistingPool,
    DelegationCreationFailedPoolDoesNotExist,
    DelegateToNonexistingAddress,
    DelegateToNonexistingPool,
    DelegationBalanceAdditionError,
    PoolBalanceAdditionError,
}

/// A delegation: the pool it backs, the key that may spend it, its balance.
#[derive(Clone, Copy, Debug, PartialEq, Eq)]
pub struct DelegationAddress {
    pub source_pool: H256,
    pub spend_key: H256,
    pub balance: u128,
}

/// The address of the pool created by spending `p`.
pub open spec fn pool_address_of(p: OutPoint) -> H256 {
    hash_of(outpoint_bytes(p) + u32_le_bytes(0))
}

/// The address of the delegation created by spending `p`.
pub open spec fn delegation_address_of(p: OutPoint) -> H256 {
    hash_of(outpoint_bytes(p) + u32_le_bytes(1))
}

/// The transition of one pool balance from `before` to `after`.
pub open spec fn balance_step(before: Option<u128>, after: Option<u128>) -> DataDelta<u128> {
    DataDelta { before, after }
}

/// Two credits to one pool net to one transition of its balance, however
/// they are grouped: `Some(x) -> Some(x + a1)` then `Some(x + a1) -> Some(x + a1 + a2)`
/// is `Some(x) -> Some(x + (a1 + a2))`, and the balances agree.
pub proof fn lemma_pool_credits_compose(pools: Map<H256, u128>, p: H256, x: u128, a1: u128, a2: u128)
    requires
        x + a1 + a2 <= u128::MAX,
    ensures
        balance_step(Some(x), Some((x + a1) as u128)).spec_merge(
            balance_step(Some((x + a1) as u128), Some((x + a1 + a2) as u128)),
        ) == Some(balance_step(Some(x), Some((x + (a1 + a2)) as u128))),
        pools.insert(p, (x + a1) as u128).insert(p, (x + a1 + a2) as u128) == pools.insert(
            p,
            (x + (a1 + a2)) as u128,
        ),
{
    assert(pools.insert(p, (x + a1) as u128).insert(p, (x + a1 + a2) as u128) =~= pools.insert(
        p,
        (x + (a1 + a2)) as u128,
    ));
}

/// Creating a pool, crediting it and decommissioning it has no net effect:
/// `None -> Some(x) -> Some(x + y) -> None` nets to `None -> None`, and the
/// pool balances are those before the pool was created.
pub proof fn lemma_pool_lifetime_cancels(pools: Map<H256, u128>, p: H256, x: u128, y: u128)
    requires
        !pools.contains_key(p),
        x + y <= u128::MAX,
    ensures
        balance_step(None::<u128>, Some(x)).spec_merge(
            balance_step(Some(x), Some((x + y) as u128)),
        )->Some_0.spec_merge(balance_step(Some((x + y) as u128), None))
            == Some(balance_step(None::<u128>, None::<u128>)),
        pools.insert(p, x).insert(p, (x + y) as u128).remove(p) == pools,
{
    assert(pools.insert(p, x).insert(p, (x + y) as u128).remove(p) =~= pools);
}

pub struct PoSAccounting {
    pool_addresses_balances: BTreeMap<H256Key, u128>,
    delegation_addresses_balances: BTreeMap<H256Key, DelegationAddress>,
}

impl PoSAccounting {
    pub closed spec fn pools(&self) -> Map<H256, u128> {
        Map::new(
            |h: H256| self.pool_addresses_balances@.contains_key(key_of_h256(h)),
            |h: H256| self.pool_addresses_balances@[key_of_h256(h)],
        )
    }

    pub closed spec fn delegations(&self) -> Map<H256, DelegationAddress> {
        Map::new(
            |h: H256| self.delegation_addresses_balances@.contains_key(key_of_h256(h)),
            |h: H256| self.delegation_addresses_balances@[key_of_h256(h)],
        )
    }

    fn pool_get(&self, h: H256) -> (r: Option<u128>)
        ensures
            r == (if self.pools().contains_key(h) { Some(self.pools()[h]) } else { None }),
    {
        match self.pool_addresses_balances.get(&h.ordered_key()) {
            Some(b) => Some(*b),
            None => None,
        }
    }

    fn pool_insert(&mut self, h: H256, v: u128)
        ensures
            final(self).pools() == old(self).pools().insert(h, v),
            final(self).delegations() == old(self).delegations(),
    {
        self.pool_addresses_balances.insert(h.ordered_key(), v);
        proof {
            assert(self.pools() =~= old(self).pools().insert(h, v));
            assert(self.delegations() =~= old(self).delegations());
        }
    }

    fn pool_remove(&mut self, h: H256) -> (r: Option<u128>)
        ensures
            final(self).pools() == old(self).pools().remove(h),
            final(self).delegations() == old(self).delegations(),
            r == (if old(self).pools().contains_key(h) { Some(old(self).pools()[h]) } else { None }),
    {
        let r = self.pool_addresses_balances.remove(&h.ordered_key());
        proof {
            assert(self.pools() =~= old(self).pools().remove(h));
            assert(self.delegations() =~= old(self).delegations());
        }
        r
    }

    fn delegation_get(&self, h: H256) -> (r: Option<DelegationAddress>)
        ensures
            r == (if self.delegations().contains_key(h) { Some(self.delegations()[h]) } else { None }),
    {
        match self.delegation_addresses_balances.get(&h.ordered_key()) {
            Some(d) => Some(*d),
            None => None,
        }
    }

    fn delegation_insert(&mut self, h: H256, d: DelegationAddress)
        ensures
            final(self).delegations() == old(self).delegations().insert(h, d),
            final(self).pools() == old(self).pools(),
    {
        self.delegation_addresses_balances.insert(h.ordered_key(), d);
        proof {
            assert(self.delegations() =~= old(self).delegations().insert(h, d));
            assert(self.pools() =~= old(self).pools());
        }
    }

    pub fn new_empty() -> (r: Self)
        ensures
            r.pools() == Map::<H256, u128>::empty(),
            r.delegations() == Map::<H256, DelegationAddress>::empty(),
    {
        let r = PoSAccounting {
            pool_addresses_balances: BTreeMap::new(),
            delegation_addresses_balances: BTreeMap::new(),
        };
        assert(r.pools() =~= Map::<H256, u128>::empty());
        assert(r.delegations() =~= Map::<H256, DelegationAddress>::empty());
        r
    }

    fn make_address(input0_outpoint: &OutPoint, suffix: u32) -> (r: H256)
        ensures
            r == hash_of(outpoint_bytes(*input0_outpoint) + u32_le_bytes(suffix)),
    {
        let mut data: Vec<u8> = Vec::new();
        input0_outpoint.encode_to(&mut data);
        push_u32_le(&mut data, suffix);
        assert(data@ =~= outpoint_bytes(*input0_outpoint) + u32_le_bytes(suffix));
        hash_bytes(&data)
    }

    /// The pool address derived from the outpoint spent to create the pool.
    pub fn make_pool_address(input0_outpoint: &OutPoint) -> (r: H256)
        ensures
            r == pool_address_of(*input0_outpoint),
    {
        Self::make_address(input0_outpoint, 0)
    }

    /// The delegation address derived from the outpoint spent to create it.
    pub fn make_delegation_address(input0_outpoint: &OutPoint) -> (r: H256)
        ensures
            r == delegation_address_of(*input0_outpoint),
    {
        Self::make_address(input0_outpoint, 1)
    }

    /// Creates the pool of `input0_outpoint` with balance `pledge_amount`.
    pub fn create_pool(&mut self, input0_outpoint: &OutPoint, pledge_amount: u128) -> (r: Result<
        (),
        AccountingError,
    >)
        ensures
            final(self).delegations() == old(self).delegations(),
            old(self).pools().contains_key(pool_address_of(*input0_outpoint)) ==> r == Err::<
                (),
                AccountingError,
            >(AccountingError::InvariantErrorPoolAlreadyExists) && final(self).pools() == old(
                self,
            ).pools(),
            !old(self).pools().contains_key(pool_address_of(*input0_outpoint)) ==> r is Ok
                && final(self).pools() == old(self).pools().insert(
                pool_address_of(*input0_outpoint),
                pledge_amount,
            ),
    {
        let pool_address = Self::make_pool_address(input0_outpoint);
        if self.pool_get(pool_address).is_some() {
            return Err(AccountingError::InvariantErrorPoolAlreadyExists);
        }
        self.pool_insert(pool_address, pledge_amount);
        Ok(())
    }

    /// Removes the pool, returning its balance.
    pub fn decomission_pool(&mut self, pool_address: H256) -> (r: Result<u128, AccountingError>)
        ensures
            final(self).delegations() == old(self).delegations(),
            final(self).pools() == old(self).pools().remove(pool_address),
            old(self).pools().contains_key(pool_address) ==> r == Ok::<u128, AccountingError>(
                old(self).pools()[pool_address],
            ),
            !old(self).pools().contains_key(pool_address) ==> r == Err::<u128, AccountingError>(
                AccountingError::AttemptedDecommissionNonexistingPool,
            ),
    {
        match self.pool_remove(pool_address) {
            Some(amount) => Ok(amount),
            None => Err(AccountingError::AttemptedDecommissionNonexistingPool),
        }
    }

    pub fn pool_exists(&self, pool_id: H256) -> (r: bool)
        ensures
            r == self.pools().contains_key(pool_id),
    {
        self.pool_get(pool_id).is_some()
    }

    /// Creates the delegation of `input0_outpoint` to `target_pool`, with a
    /// zero balance, and returns its address.
    pub fn create_delegation_address(
        &mut self,
        target_pool: H256,
        spend_key: H256,
        input0_outpoint: &OutPoint,
    ) -> (r: Result<H256, AccountingError>)
        ensures
            final(self).pools() == old(self).pools(),
            !old(self).pools().contains_key(target_pool) ==> r == Err::<H256, AccountingError>(
                AccountingError::DelegationCreationFailedPoolDoesNotExist,
            ) && final(self).delegations() == old(self).delegations(),
            old(self).pools().contains_key(target_pool) && old(self).delegations().contains_key(
                delegation_address_of(*input0_outpoint),
            ) ==> r == Err::<H256, AccountingError>(AccountingError::InvariantErrorPoolAlreadyExists)
                && final(self).delegations() == old(self).delegations(),
            old(self).pools().contains_key(target_pool) && !old(self).delegations().contains_key(
                delegation_address_of(*input0_outpoint),
            ) ==> r == Ok::<H256, AccountingError>(delegation_address_of(*input0_outpoint))
                && final(self).delegations() == old(self).delegations().insert(
                delegation_address_of(*input0_outpoint),
                DelegationAddress { source_pool: target_pool, spend_key, balance: 0 },
            ),
    {
        let delegation_address = Self::make_delegation_address(input0_outpoint);
        if !self.pool_exists(target_pool) {
            return Err(AccountingError::DelegationCreationFailedPoolDoesNotExist);
        }
        if self.delegation_get(delegation_address).is_some() {
            return Err(AccountingError::InvariantErrorPoolAlreadyExists);
        }
        self.delegation_insert(
            delegation_address,
            DelegationAddress { source_pool: target_pool, spend_key, balance: 0 },
        );
        Ok(delegation_address)
    }

    /// Adds `amount_to_delegate` to the delegation at `delegation_target` and to
    /// the pool it backs. Either both balances grow, or nothing changes and the
    /// first failing step is reported.
    pub fn delegate_staking(&mut self, delegation_target: H256, amount_to_delegate: u128) -> (r: Result<
        (),
        AccountingError,
    >)
        ensures
            ({
                let ds = old(self).delegations();
                let ps = old(self).pools();
                if !ds.contains_key(delegation_target) {
                    r == Err::<(), AccountingError>(AccountingError::DelegateToNonexistingAddress)
                        && *final(self) == *old(self)
                } else if ds[delegation_target].balance + amount_to_delegate > u128::MAX {
                    r == Err::<(), AccountingError>(AccountingError::DelegationBalanceAdditionError)
                        && *final(self) == *old(self)
                } else if !ps.contains_key(ds[delegation_target].source_pool) {
                    r == Err::<(), AccountingError>(AccountingError::DelegateToNonexistingPool)
                        && *final(self) == *old(self)
                } else if ps[ds[delegation_target].source_pool] + amount_to_delegate > u128::MAX {
                    r == Err::<(), AccountingError>(AccountingError::PoolBalanceAdditionError)
                        && *final(self) == *old(self)
                } else {
                    let d = ds[delegation_target];
                    r is Ok && final(self).delegations() == ds.insert(
                        delegation_target,
                        DelegationAddress { balance: (d.balance + amount_to_delegate) as u128, ..d },
                    ) && final(self).pools() == ps.insert(
                        d.source_pool,
                        (ps[d.source_pool] + amount_to_delegate) as u128,
                    )
                }
            }),
    {
        let delegation = match self.delegation_get(delegation_target) {
            Some(d) => d,
            None => {
                return Err(AccountingError::DelegateToNonexistingAddress);
            },
        };
        let new_delegation_balance = match delegation.balance.checked_add(amount_to_delegate) {
            Some(b) => b,
            None => {
                return Err(AccountingError::DelegationBalanceAdditionError);
            },
        };
        let pool_balance = match self.pool_get(delegation.source_pool) {
            Some(b) => b,
            None => {
                return Err(AccountingError::DelegateToNonexistingPool);
            },
        };
        if pool_balance.checked_add(amount_to_delegate).is_none() {
            return Err(AccountingError::PoolBalanceAdditionError);
        }
        self.delegation_insert(
            delegation_target,
            DelegationAddress { balance: new_delegation_balance, ..delegation },
        );
        let added = self.add_balance_to_pool(delegation.source_pool, amount_to_delegate);
        proof {
            assert(added is Ok);
        }
        Ok(())
    }

    /// Adds `amount_to_add` to the balance of pool `pool_id`; fails, changing
    /// nothing, when there is no such pool or the sum overflows.
    pub fn add_balance_to_pool(&mut self, pool_id: H256, amount_to_add: u128) -> (r: Result<
        (),
        AccountingError,
    >)
        ensures
            final(self).delegations() == old(self).delegations(),
            !old(self).pools().contains_key(pool_id) ==> r == Err::<(), AccountingError>(
                AccountingError::DelegateToNonexistingPool,
            ) && final(self).pools() == old(self).pools(),
            old(self).pools().contains_key(pool_id) && old(self).pools()[pool_id] + amount_to_add
                > u128::MAX ==> r == Err::<(), AccountingError>(AccountingError::PoolBalanceAdditionError)
                && final(self).pools() == old(self).pools(),
            old(self).pools().contains_key(pool_id) && old(self).pools()[pool_id] + amount_to_add
                <= u128::MAX ==> r is Ok && final(self).pools() == old(self).pools().insert(
                pool_id,
                (old(self).pools()[pool_id] + amount_to_add) as u128,
            ),
    {
        let pool_amount = match self.pool_get(pool_id) {
            Some(b) => b,
            None => {
                return Err(AccountingError::DelegateToNonexistingPool);
            },
        };
        let new_pool_amount = match pool_amount.checked_add(amount_to_add) {
            Some(b) => b,
            None => {
                return Err(AccountingError::PoolBalanceAdditionError);
            },
        };
        self.pool_insert(pool_id, new_pool_amount);
        Ok(())
    }

    /// The balance of a pool.
    pub fn pool_balance(&self, pool_id: H256) -> (r: Option<u128>)
        ensures
            r == (if self.pools().contains_key(pool_id) { Some(self.pools()[pool_id]) } else { None }),
    {
        self.pool_get(pool_id)
    }

    /// The delegation at `address`.
    pub fn delegation(&self, address: H256) -> (r: Option<DelegationAddress>)
        ensures
            r == (if self.delegations().contains_key(address) {
                Some(self.delegations()[address])
            } else {
                None
            }),
    {
        self.delegation_get(address)
    }
}

} // verus!
