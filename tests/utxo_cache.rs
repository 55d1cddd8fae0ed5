use ledger_core::assoc::AssocMap;
use ledger_core::chain::{OutPoint, OutPointSourceId, Transaction, TxInput, TxOutput};
use ledger_core::primitives::H256;
use ledger_core::undo::{UtxosBlockUndo, UtxosBlockUndoError, UtxosTxUndoWithSources};
use ledger_core::utxo_cache::{ConsumedUtxoCache, Utxo, UtxoEntry, UtxosCache, UtxosError};

fn reward_outpoint(n: u64) -> OutPoint {
    OutPoint::new(OutPointSourceId::BlockReward(H256::from_low_u64_be(n)), 0)
}

fn utxo(value: u128) -> Utxo {
    Utxo::new(TxOutput { value, destination: H256::from_low_u64_be(value as u64) }, true, 0)
}

fn output(value: u128) -> TxOutput {
    TxOutput { value, destination: H256::from_low_u64_be(value as u64) }
}

#[test]
fn add_then_get() {
    let mut cache = UtxosCache::new_empty();
    let p = reward_outpoint(1);
    assert!(!cache.has_utxo(&p));
    cache.add_utxo(&p, utxo(10), false).unwrap();
    assert!(cache.has_utxo(&p));
    assert_eq!(cache.utxo(&p), Some(utxo(10)));
}

#[test]
fn duplicate_add_is_refused() {
    let mut cache = UtxosCache::new_empty();
    let p = reward_outpoint(1);
    cache.add_utxo(&p, utxo(10), false).unwrap();
    assert_eq!(cache.add_utxo(&p, utxo(20), false), Err(UtxosError::OverwritingUtxo));
    assert_eq!(cache.utxo(&p), Some(utxo(10)));
    cache.add_utxo(&p, utxo(20), true).unwrap();
    assert_eq!(cache.utxo(&p), Some(utxo(20)));
}

#[test]
fn duplicate_add_is_refused_through_parent() {
    let mut base = UtxosCache::new_empty();
    let p = reward_outpoint(1);
    base.add_utxo(&p, utxo(10), false).unwrap();
    let mut child = base.derive_cache();
    assert_eq!(child.add_utxo(&p, utxo(20), false), Err(UtxosError::OverwritingUtxo));
}

#[test]
fn spend_missing_is_not_found() {
    let mut cache = UtxosCache::new_empty();
    assert_eq!(cache.spend_utxo(&reward_outpoint(3)), Err(UtxosError::NoUtxoFound));
    let p = reward_outpoint(1);
    cache.add_utxo(&p, utxo(10), false).unwrap();
    assert_eq!(cache.spend_utxo(&p), Ok(utxo(10)));
    assert_eq!(cache.spend_utxo(&p), Err(UtxosError::NoUtxoFound));
}

#[test]
fn spend_then_readd_restores() {
    let mut base = UtxosCache::new_empty();
    let p = reward_outpoint(1);
    let q = reward_outpoint(2);
    base.add_utxo(&p, utxo(10), false).unwrap();
    base.add_utxo(&q, utxo(20), false).unwrap();
    let mut child = base.derive_cache();
    let spent = child.spend_utxo(&p).unwrap();
    assert!(!child.has_utxo(&p));
    child.add_utxo(&p, spent, false).unwrap();
    assert_eq!(child.utxo(&p), Some(utxo(10)));
    assert_eq!(child.utxo(&q), Some(utxo(20)));
    assert!(child.has_utxo(&p));
}

#[test]
fn derived_cache_reads_through() {
    let mut base = UtxosCache::new_empty();
    let p = reward_outpoint(1);
    let q = reward_outpoint(2);
    base.add_utxo(&p, utxo(10), false).unwrap();
    base.add_utxo(&q, utxo(20), false).unwrap();
    let mut child = base.derive_cache();
    child.spend_utxo(&p).unwrap();
    // q was never touched by the child
    assert_eq!(child.utxo(&q), base.utxo(&q));
    assert_eq!(child.utxo(&reward_outpoint(9)), base.utxo(&reward_outpoint(9)));
    // the parent is unaffected until the child is flushed
    assert_eq!(base.utxo(&p), Some(utxo(10)));
    assert_eq!(child.utxo(&p), None);
}

#[test]
fn flush_writes_into_parent() {
    let mut base = UtxosCache::new_empty();
    let p = reward_outpoint(1);
    let q = reward_outpoint(2);
    base.add_utxo(&p, utxo(10), false).unwrap();
    let consumed = {
        let mut child = base.derive_cache();
        child.spend_utxo(&p).unwrap();
        child.add_utxo(&q, utxo(20), false).unwrap();
        child.set_best_block(H256::from_low_u64_be(77));
        child.consume()
    };
    base.batch_write(consumed).unwrap();
    assert_eq!(base.utxo(&p), None);
    assert_eq!(base.utxo(&q), Some(utxo(20)));
    assert_eq!(base.best_block_hash(), Some(H256::from_low_u64_be(77)));
}

#[test]
fn flush_of_untouched_cache_writes_nothing() {
    let mut base = UtxosCache::new_empty();
    let p = reward_outpoint(1);
    base.add_utxo(&p, utxo(10), false).unwrap();
    let consumed = base.derive_cache().consume();
    assert_eq!(consumed.container.len(), 0);
    base.batch_write(consumed).unwrap();
    assert_eq!(base.utxo(&p), Some(utxo(10)));
}

#[test]
fn non_dirty_entry_is_not_written() {
    let mut base = UtxosCache::new_empty();
    let p = reward_outpoint(5);
    let mut container = AssocMap::new();
    container.insert(p, UtxoEntry::new(Some(utxo(1)), true, false));
    base.batch_write(ConsumedUtxoCache { container, best_block: None }).unwrap();
    assert!(!base.has_utxo(&p));
}

#[test]
fn fresh_entry_over_existing_is_refused() {
    let mut base = UtxosCache::new_empty();
    let p = reward_outpoint(5);
    base.add_utxo(&p, utxo(1), false).unwrap();
    let mut container = AssocMap::new();
    container.insert(p, UtxoEntry::new(Some(utxo(2)), true, true));
    let r = base.batch_write(ConsumedUtxoCache { container, best_block: None });
    assert_eq!(r, Err(UtxosError::FreshUtxoAlreadyExists));
    assert_eq!(base.utxo(&p), Some(utxo(1)));
}

#[test]
fn failed_transaction_changes_nothing() {
    let mut base = UtxosCache::new_empty();
    let p = reward_outpoint(1);
    base.add_utxo(&p, utxo(10), false).unwrap();
    let mut child = base.derive_cache();
    // second input is missing
    let tx = Transaction::new(
        H256::from_low_u64_be(100),
        vec![TxInput::Utxo(p), TxInput::Utxo(reward_outpoint(2))],
        vec![output(5)],
    );
    assert_eq!(child.spend_utxos(&tx, 1).err(), Some(UtxosError::NoUtxoFound));
    assert_eq!(child.utxo(&p), Some(utxo(10)));
    // the same outpoint twice
    let tx = Transaction::new(
        H256::from_low_u64_be(101),
        vec![TxInput::Utxo(p), TxInput::Utxo(p)],
        vec![],
    );
    assert_eq!(child.spend_utxos(&tx, 1).err(), Some(UtxosError::NoUtxoFound));
    assert_eq!(child.utxo(&p), Some(utxo(10)));
}

#[test]
fn transaction_spends_inputs_and_adds_outputs() {
    let mut base = UtxosCache::new_empty();
    let p = reward_outpoint(1);
    base.add_utxo(&p, utxo(10), false).unwrap();
    let mut child = base.derive_cache();
    let id = H256::from_low_u64_be(100);
    let tx = Transaction::new(id, vec![TxInput::Utxo(p), TxInput::Account(3)], vec![output(4), output(6)]);
    let undo = child.spend_utxos(&tx, 7).unwrap();
    assert_eq!(undo.inner(), &[Some(utxo(10)), None][..]);
    assert_eq!(child.utxo(&p), None);
    let o0 = OutPoint::new(OutPointSourceId::Transaction(id), 0);
    let o1 = OutPoint::new(OutPointSourceId::Transaction(id), 1);
    assert_eq!(child.utxo(&o0), Some(Utxo::new(output(4), false, 7)));
    assert_eq!(child.utxo(&o1), Some(Utxo::new(output(6), false, 7)));
}

#[test]
fn end_to_end_connect_undo_and_flush() {
    let mut base = UtxosCache::new_empty();
    let (first, second, third) = (reward_outpoint(1), reward_outpoint(2), reward_outpoint(3));
    base.add_utxo(&first, utxo(10), false).unwrap();
    base.add_utxo(&second, utxo(11), false).unwrap();
    base.add_utxo(&third, utxo(12), false).unwrap();

    let id_a = H256::from_low_u64_be(1000);
    let id_b = H256::from_low_u64_be(2000);
    let a_out = OutPoint::new(OutPointSourceId::Transaction(id_a), 0);
    let b_out = OutPoint::new(OutPointSourceId::Transaction(id_b), 0);
    let tx_a = Transaction::new(id_a, vec![TxInput::Utxo(first), TxInput::Utxo(second)], vec![output(21)]);
    let tx_b = Transaction::new(id_b, vec![TxInput::Utxo(third), TxInput::Utxo(a_out)], vec![output(33)]);

    let mut block_undo = UtxosBlockUndo::empty();
    let consumed = {
        let mut child = base.derive_cache();
        let undo_a = child.spend_utxos(&tx_a, 1).unwrap();
        let undo_b = child.spend_utxos(&tx_b, 1).unwrap();
        let reward = OutPointSourceId::BlockReward(H256::from_low_u64_be(1));
        block_undo
            .insert_tx_undo(id_a, UtxosTxUndoWithSources::new(undo_a.into_inner(), vec![reward, reward]))
            .unwrap();
        block_undo
            .insert_tx_undo(
                id_b,
                UtxosTxUndoWithSources::new(
                    undo_b.into_inner(),
                    vec![reward, OutPointSourceId::Transaction(id_a)],
                ),
            )
            .unwrap();
        child.consume()
    };

    assert!(block_undo.has_children_of(&id_a));
    assert!(!block_undo.has_children_of(&id_b));
    assert_eq!(block_undo.take_tx_undo(&id_a), Err(UtxosBlockUndoError::TxUndoWithDependency(id_a)));

    base.batch_write(consumed).unwrap();
    for p in [first, second, third, a_out] {
        assert!(!base.has_utxo(&p));
    }
    assert_eq!(base.utxo(&b_out), Some(Utxo::new(output(33), false, 1)));

    let undo_b = block_undo.take_tx_undo(&id_b).unwrap().unwrap();
    assert_eq!(undo_b.inner(), &[Some(utxo(12)), Some(Utxo::new(output(21), false, 1))][..]);
    let undo_a = block_undo.take_tx_undo(&id_a).unwrap().unwrap();
    assert_eq!(undo_a.inner(), &[Some(utxo(10)), Some(utxo(11))][..]);
    assert!(block_undo.is_empty());
}
