use ledger_core::accounting::{AccountingError, PoSAccounting};
use ledger_core::chain::{OutPoint, OutPointSourceId, TxInput, TxOutput};
use ledger_core::config::ChainstateConfigFile;
use ledger_core::consensus_data::{
    timestamp_add_secs, BlockProductionError, BlockTimestamp, Compact, ConsensusData, FakePoSData,
    PoWData,
};
use ledger_core::order::{make_order_id, OrderData, OrderId, OutputValue};
use ledger_core::primitives::H256;

fn outpoint(n: u64) -> OutPoint {
    OutPoint::new(OutPointSourceId::Transaction(H256::from_low_u64_be(n)), 0)
}

#[test]
fn pool_and_delegation_addresses_differ() {
    let p = outpoint(1);
    let pool = PoSAccounting::make_pool_address(&p);
    let delegation = PoSAccounting::make_delegation_address(&p);
    assert_ne!(pool, delegation);
    assert_eq!(pool, PoSAccounting::make_pool_address(&p));
    assert_ne!(pool, PoSAccounting::make_pool_address(&outpoint(2)));
    assert_ne!(pool, H256::zero());
}

#[test]
fn create_and_decommission_pool() {
    let mut acc = PoSAccounting::new_empty();
    let p = outpoint(1);
    let pool = PoSAccounting::make_pool_address(&p);
    assert!(!acc.pool_exists(pool));
    acc.create_pool(&p, 100).unwrap();
    assert!(acc.pool_exists(pool));
    assert_eq!(acc.create_pool(&p, 5), Err(AccountingError::InvariantErrorPoolAlreadyExists));
    assert_eq!(acc.pool_balance(pool), Some(100));
    assert_eq!(acc.decomission_pool(pool), Ok(100));
    assert!(!acc.pool_exists(pool));
    assert_eq!(acc.decomission_pool(pool), Err(AccountingError::AttemptedDecommissionNonexistingPool));
}

#[test]
fn delegate_staking_moves_both_balances() {
    let mut acc = PoSAccounting::new_empty();
    let pool_outpoint = outpoint(1);
    acc.create_pool(&pool_outpoint, 100).unwrap();
    let pool = PoSAccounting::make_pool_address(&pool_outpoint);
    let key = H256::from_low_u64_be(9);
    assert_eq!(
        acc.create_delegation_address(H256::from_low_u64_be(5), key, &outpoint(2)),
        Err(AccountingError::DelegationCreationFailedPoolDoesNotExist)
    );
    let delegation = acc.create_delegation_address(pool, key, &outpoint(2)).unwrap();
    assert_eq!(delegation, PoSAccounting::make_delegation_address(&outpoint(2)));
    acc.delegate_staking(delegation, 40).unwrap();
    assert_eq!(acc.pool_balance(pool), Some(140));
    assert_eq!(acc.delegation(delegation).unwrap().balance, 40);
    assert_eq!(
        acc.delegate_staking(H256::from_low_u64_be(3), 1),
        Err(AccountingError::DelegateToNonexistingAddress)
    );
    assert_eq!(
        acc.delegate_staking(delegation, u128::MAX),
        Err(AccountingError::DelegationBalanceAdditionError)
    );
    assert_eq!(acc.pool_balance(pool), Some(140));
    acc.decomission_pool(pool).unwrap();
    assert_eq!(acc.delegate_staking(delegation, 1), Err(AccountingError::DelegateToNonexistingPool));
    assert_eq!(acc.delegation(delegation).unwrap().balance, 40);
}

#[test]
fn order_ids_and_data() {
    assert_eq!(OrderId::zero(), OrderId::new(H256::zero()));
    let a = make_order_id(&outpoint(1));
    assert_eq!(a, make_order_id(&outpoint(1)));
    assert_ne!(a, make_order_id(&outpoint(2)));
    assert_ne!(a, OrderId::zero());
    let data = OrderData::new(
        H256::from_low_u64_be(4),
        OutputValue::Coin(5),
        OutputValue::TokenV1(H256::from_low_u64_be(6), 10),
    );
    assert_eq!(*data.cancel_key(), H256::from_low_u64_be(4));
    assert_eq!(*data.ask(), OutputValue::Coin(5));
    assert_eq!(*data.give(), OutputValue::TokenV1(H256::from_low_u64_be(6), 10));
}

#[test]
fn chainstate_config_builders() {
    let c = ChainstateConfigFile::new();
    assert_eq!(c.max_orphan_blocks, 0);
    let c = c.with_max_orphan_blocks(512).with_bootstrap_buffer_sizes((10, 20));
    assert_eq!(c.max_orphan_blocks, 512);
    assert_eq!(c.min_max_bootstrap_import_buffer_sizes, (10, 20));
    assert_eq!(c.max_db_commit_attempts, 0);
}

#[test]
fn consensus_data_reward_transactable() {
    let out = TxOutput { value: 50, destination: H256::from_low_u64_be(1) };
    let input = TxInput::Account(1);
    let mut pow = PoWData::new(Compact(0x1d00ffff), 7, vec![out]);
    assert_eq!(pow.nonce(), 7);
    pow.update_nonce(8);
    assert_eq!(pow.nonce(), 8);
    assert_eq!(pow.bits(), Compact(0x1d00ffff));
    assert_eq!(pow.outputs(), &[out][..]);

    let none = ConsensusData::NoConsensus;
    let t = none.derive_transactable();
    assert!(t.inputs().is_none() && t.outputs().is_none());

    let pow_data = ConsensusData::PoW(pow);
    let t = pow_data.derive_transactable();
    assert!(t.inputs().is_none());
    assert_eq!(t.outputs(), Some(&[out][..]));

    let pos = ConsensusData::FakePoS(FakePoSData::new(vec![input], vec![out]));
    let t = pos.derive_transactable();
    assert_eq!(t.inputs(), Some(&[input][..]));
    assert_eq!(t.outputs(), Some(&[out][..]));
}

#[test]
fn timestamp_addition_checks_overflow() {
    assert_eq!(timestamp_add_secs(BlockTimestamp(10), 5), Ok(BlockTimestamp(15)));
    assert_eq!(
        timestamp_add_secs(BlockTimestamp(u64::MAX), 1),
        Err(BlockProductionError::TimestampOverflow(BlockTimestamp(u64::MAX), 1))
    );
}

#[test]
fn pool_credits_compose_and_cancel() {
    let mut acc = PoSAccounting::new_empty();
    let o = outpoint(11);
    let pool = PoSAccounting::make_pool_address(&o);
    assert_eq!(acc.add_balance_to_pool(pool, 1), Err(AccountingError::DelegateToNonexistingPool));
    acc.create_pool(&o, 10).unwrap();
    acc.add_balance_to_pool(pool, 5).unwrap();
    acc.add_balance_to_pool(pool, 7).unwrap();
    assert_eq!(acc.pool_balance(pool), Some(22));
    assert_eq!(acc.add_balance_to_pool(pool, u128::MAX), Err(AccountingError::PoolBalanceAdditionError));
    assert_eq!(acc.pool_balance(pool), Some(22));
    assert_eq!(acc.decomission_pool(pool), Ok(22));
    assert!(!acc.pool_exists(pool));
    assert_eq!(acc.pool_balance(pool), None);
}
