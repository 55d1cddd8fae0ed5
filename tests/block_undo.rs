use ledger_core::chain::{OutPointSourceId, TxOutput};
use ledger_core::primitives::H256;
use ledger_core::undo::{
    UtxosBlockRewardUndo, UtxosBlockUndo, UtxosBlockUndoError, UtxosTxUndo, UtxosTxUndoWithSources,
};
use ledger_core::utxo_cache::Utxo;

fn utxo(n: u64) -> Utxo {
    Utxo::new(TxOutput { value: n as u128, destination: H256::from_low_u64_be(n) }, false, n)
}

#[test]
fn tx_undo_test() {
    let tx_undo = UtxosTxUndo::new(vec![Some(utxo(0)), None, Some(utxo(1))]);
    let inner = tx_undo.inner();
    assert_eq!(Some(utxo(0)), inner[0]);
    assert_eq!(None, inner[1]);
    assert_eq!(Some(utxo(1)), inner[2]);
    let undo_vec = tx_undo.into_inner();
    assert_eq!(Some(utxo(0)), undo_vec[0]);
    assert_eq!(None, undo_vec[1]);
    assert_eq!(Some(utxo(1)), undo_vec[2]);
}

#[test]
fn block_undo_test() {
    let tx_undo0 = UtxosTxUndoWithSources::new(vec![Some(utxo(0)), None, Some(utxo(1))], vec![]);
    let tx_0_id = H256::from_low_u64_be(0);
    let tx_undo1 =
        UtxosTxUndoWithSources::new(vec![Some(utxo(2)), None, Some(utxo(3)), Some(utxo(4))], vec![]);
    let tx_1_id = H256::from_low_u64_be(1);
    let reward_undo = UtxosBlockRewardUndo::new(vec![utxo(5)]);

    let mut blockundo: UtxosBlockUndo = Default::default();
    blockundo.set_block_reward_undo(reward_undo.clone());
    blockundo.insert_tx_undo(tx_0_id, tx_undo0.clone()).unwrap();
    blockundo.insert_tx_undo(tx_1_id, tx_undo1.clone()).unwrap();

    assert_eq!(&tx_undo0.utxos, blockundo.tx_undo(&tx_0_id).unwrap());
    assert_eq!(&tx_undo1.utxos, blockundo.tx_undo(&tx_1_id).unwrap());
    assert_eq!(blockundo.tx_undos().len(), 2);
    assert_eq!(&reward_undo, blockundo.block_reward_undo().unwrap());

    assert_eq!(
        blockundo.insert_tx_undo(tx_0_id, tx_undo1),
        Err(UtxosBlockUndoError::UndoAlreadyExists(tx_0_id))
    );
    assert_eq!(blockundo.take_block_reward_undo(), Some(reward_undo));
    assert_eq!(blockundo.block_reward_undo(), None);
}

#[test]
fn dependencies_test() {
    let expected_tx_undo0 = UtxosTxUndo::new(vec![Some(utxo(0)), None, Some(utxo(1))]);
    let tx_undo0 = UtxosTxUndoWithSources::new(vec![Some(utxo(0)), None, Some(utxo(1))], vec![]);
    let tx_0_id = H256::from_low_u64_be(1);

    let expected_tx_undo1 =
        UtxosTxUndo::new(vec![Some(utxo(2)), None, Some(utxo(3)), Some(utxo(4))]);
    let tx_undo1 = UtxosTxUndoWithSources::new(
        vec![Some(utxo(2)), None, Some(utxo(3)), Some(utxo(4))],
        vec![OutPointSourceId::Transaction(tx_0_id)],
    );
    let tx_1_id = H256::from_low_u64_be(2);

    let mut blockundo = UtxosBlockUndo::empty();
    blockundo.insert_tx_undo(tx_0_id, tx_undo0).unwrap();
    blockundo.insert_tx_undo(tx_1_id, tx_undo1).unwrap();

    assert_eq!(
        blockundo.take_tx_undo(&tx_0_id).unwrap_err(),
        UtxosBlockUndoError::TxUndoWithDependency(tx_0_id)
    );
    assert_eq!(blockundo.take_tx_undo(&tx_1_id).unwrap(), Some(expected_tx_undo1));
    assert_eq!(blockundo.take_tx_undo(&tx_0_id).unwrap(), Some(expected_tx_undo0));
    assert!(blockundo.tx_undos().is_empty());
    assert!(blockundo.child_parent_dependencies_is_empty());
    assert!(blockundo.parent_child_dependencies_is_empty());
}

#[test]
fn block_reward_source_adds_no_dependency() {
    let mut blockundo = UtxosBlockUndo::empty();
    let a = H256::from_low_u64_be(1);
    let b = H256::from_low_u64_be(2);
    blockundo.insert_tx_undo(a, UtxosTxUndoWithSources::new(vec![None], vec![])).unwrap();
    blockundo
        .insert_tx_undo(
            b,
            UtxosTxUndoWithSources::new(
                vec![Some(utxo(1))],
                vec![OutPointSourceId::BlockReward(a)],
            ),
        )
        .unwrap();
    assert!(!blockundo.has_children_of(&a));
    assert_eq!(blockundo.take_tx_undo(&a).unwrap(), Some(UtxosTxUndo::new(vec![None])));
    assert_eq!(blockundo.take_tx_undo(&a).unwrap(), None);
}

#[test]
fn block_undo_from_parts() {
    let a = H256::from_low_u64_be(1);
    let b = H256::from_low_u64_be(2);
    let undo = UtxosBlockUndo::new(
        None,
        vec![
            (a, UtxosTxUndoWithSources::new(vec![Some(utxo(1))], vec![])),
            (b, UtxosTxUndoWithSources::new(vec![Some(utxo(2))], vec![OutPointSourceId::Transaction(a)])),
        ],
    )
    .unwrap();
    assert!(undo.has_children_of(&a));
    assert!(!undo.has_children_of(&b));
    assert!(!undo.child_parent_dependencies_is_empty());
    assert!(!undo.parent_child_dependencies_is_empty());
    assert_eq!(undo.tx_undo(&a), Some(&UtxosTxUndo::new(vec![Some(utxo(1))])));
    assert_eq!(undo.tx_undo(&b), Some(&UtxosTxUndo::new(vec![Some(utxo(2))])));
    let dup = UtxosBlockUndo::new(
        None,
        vec![
            (a, UtxosTxUndoWithSources::new(vec![], vec![])),
            (a, UtxosTxUndoWithSources::new(vec![], vec![])),
        ],
    );
    assert_eq!(dup.err(), Some(UtxosBlockUndoError::UndoAlreadyExists(a)));
}
