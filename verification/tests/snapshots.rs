use ledger_node::amount::Amount;
use ledger_node::block::Block;
use ledger_node::blockchain::BlockChain;
use ledger_node::codec::{decode_chain, encode_chain};
use ledger_node::errors::LedgerError;
use ledger_node::transaction::Transaction;

fn assert_same_block(a: &Block, b: &Block) {
    assert_eq!(a.header.index, b.header.index);
    assert_eq!(a.header.version, b.header.version);
    assert_eq!(a.header.previous_block_hash, b.header.previous_block_hash);
    assert_eq!(a.header.block_hash, b.header.block_hash);
    assert_eq!(a.header.merkle_root_hash, b.header.merkle_root_hash);
    assert_eq!(a.header.timestamp, b.header.timestamp);
    assert_eq!(a.header.nonce, b.header.nonce);
    assert_eq!(a.header.difficulty, b.header.difficulty);
    assert_eq!(a.transactions.len(), b.transactions.len());
    for (x, y) in a.transactions.iter().zip(b.transactions.iter()) {
        assert_same_tx(x, y);
    }
}

fn assert_same_tx(x: &Transaction, y: &Transaction) {
    assert_eq!(x.txid, y.txid);
    assert_eq!(x.amount, y.amount);
    assert_eq!(x.from, y.from);
    assert_eq!(x.to, y.to);
    assert_eq!(x.timestamp, y.timestamp);
}

#[test]
fn a_snapshot_round_trips() {
    let mut bc = BlockChain::new(1);
    bc.submit_transaction(Transaction::new(
        Amount { mantissa: 1050, scale: 2 },
        "a".into(),
        "b".into(),
    ));
    bc.seal_cycle().unwrap();
    bc.submit_transaction(Transaction::new(
        Amount { mantissa: -7, scale: 0 },
        "c".into(),
        "d".into(),
    ));

    let bytes = encode_chain(&bc);
    let restored = decode_chain(&bytes, 1).unwrap();

    assert_eq!(restored.difficulty, 1);
    assert_eq!(restored.chain.len(), bc.chain.len());
    for (x, y) in restored.chain.iter().zip(bc.chain.iter()) {
        assert_same_block(x, y);
    }
    assert_eq!(restored.memory_pool.len(), 1);
    assert_same_tx(&restored.memory_pool[0], &bc.memory_pool[0]);
    assert!(restored.is_well_formed());
}

#[test]
fn the_runtime_difficulty_wins_over_the_stored_one() {
    let bc = BlockChain::new(4);
    let bytes = encode_chain(&bc);
    let restored = decode_chain(&bytes, 9).unwrap();
    assert_eq!(restored.difficulty, 9);
    assert_eq!(restored.chain.len(), 1);
    assert_same_block(&restored.chain[0], &bc.chain[0]);
}

#[test]
fn garbage_is_rejected() {
    let garbage = vec![7u8, 7, 7];
    assert_eq!(decode_chain(&garbage, 1).unwrap_err(), LedgerError::PersistenceError);
}

#[test]
fn a_truncated_snapshot_is_rejected() {
    let bc = BlockChain::new(2);
    let mut bytes = encode_chain(&bc);
    bytes.truncate(bytes.len() - 1);
    assert_eq!(decode_chain(&bytes, 2).unwrap_err(), LedgerError::PersistenceError);
}

#[test]
fn trailing_bytes_are_rejected() {
    let bc = BlockChain::new(2);
    let mut bytes = encode_chain(&bc);
    bytes.push(0);
    assert_eq!(decode_chain(&bytes, 2).unwrap_err(), LedgerError::PersistenceError);
}
