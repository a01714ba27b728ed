use ledger_node::amount::Amount;
use ledger_node::blockchain::BlockChain;
use ledger_node::errors::LedgerError;
use ledger_node::transaction::Transaction;

#[test]
fn a_fresh_ledger_has_one_genesis_block() {
    let bc = BlockChain::new(3);
    assert_eq!(bc.chain.len(), 1);
    assert_eq!(bc.difficulty, 3);
    assert!(bc.memory_pool.is_empty());
    let genesis = bc.latest_block().unwrap();
    assert_eq!(genesis.header.index, 0);
    assert_eq!(genesis.header.previous_block_hash, None);
    assert!(genesis.transactions.is_empty());
    assert!(bc.is_well_formed());
}

#[test]
fn latest_block_on_an_empty_chain_fails() {
    let bc = BlockChain { chain: Vec::new(), difficulty: 0, memory_pool: Vec::new() };
    assert_eq!(bc.latest_block().unwrap_err(), LedgerError::EmptyChain);
    assert!(!bc.is_well_formed());
}

#[test]
fn one_cycle_drains_the_pool_into_one_block() {
    let mut bc = BlockChain::new(1);
    let t1 = Transaction::new(Amount { mantissa: 10, scale: 0 }, "a".into(), "b".into());
    let t2 = Transaction::new(Amount { mantissa: 5, scale: 0 }, "b".into(), "c".into());
    let id1 = t1.txid.clone();
    let id2 = t2.txid.clone();
    bc.submit_transaction(t1);
    bc.submit_transaction(t2);
    assert_eq!(bc.memory_pool.len(), 2);

    let genesis_hash = bc.latest_block().unwrap().header.block_hash;
    let sealed = bc.seal_cycle().expect("nonce space exhausted");

    assert_eq!(bc.memory_pool.len(), 0);
    assert_eq!(bc.chain.len(), 2);
    assert_eq!(sealed.transactions.len(), 2);
    assert_eq!(sealed.transactions[0].txid, id1);
    assert_eq!(sealed.transactions[0].from, "a");
    assert_eq!(sealed.transactions[0].to, "b");
    assert_eq!(sealed.transactions[1].txid, id2);
    assert_eq!(sealed.transactions[1].from, "b");
    assert_eq!(sealed.transactions[1].to, "c");
    assert_eq!(sealed.header.index, 1);
    assert_eq!(sealed.header.previous_block_hash, Some(genesis_hash));
    assert!(sealed.header.block_hash.starts_with("0"));
    assert!(bc.is_well_formed());
}

#[test]
fn submissions_during_a_cycle_land_in_the_next_block() {
    let mut bc = BlockChain::new(0);
    // a first cycle is under way: its pool snapshot has been taken
    let (drained, difficulty, index, previous) = bc.take_memory_pool();
    assert!(drained.is_empty());
    // two callers submit while the search runs
    let t1 = Transaction::new(Amount { mantissa: 1, scale: 0 }, "a".into(), "b".into());
    let t2 = Transaction::new(Amount { mantissa: 2, scale: 0 }, "b".into(), "c".into());
    let id1 = t1.txid.clone();
    let id2 = t2.txid.clone();
    bc.submit_transaction(t1);
    bc.submit_transaction(t2);
    // the first cycle finishes without them
    let mut block = ledger_node::block::Block::new(drained, index, Some(previous), difficulty);
    assert!(block.mine(difficulty));
    assert!(block.transactions.is_empty());
    bc.append_block(block);
    // the next cycle commits both, in submission order
    let next = bc.seal_cycle().unwrap();
    assert_eq!(next.transactions.len(), 2);
    assert_eq!(next.transactions[0].txid, id1);
    assert_eq!(next.transactions[1].txid, id2);
    assert_eq!(bc.memory_pool.len(), 0);
    assert!(bc.is_well_formed());
}

#[test]
fn repeated_cycles_stay_hash_linked() {
    let mut bc = BlockChain::new(0);
    for _ in 0..4 {
        bc.seal_cycle().unwrap();
    }
    assert_eq!(bc.chain.len(), 5);
    for i in 1..bc.chain.len() {
        assert_eq!(
            bc.chain[i].header.previous_block_hash.as_ref(),
            Some(&bc.chain[i - 1].header.block_hash)
        );
        assert_eq!(bc.chain[i].header.index, bc.chain[i - 1].header.index + 1);
        assert_eq!(bc.chain[i].header.index, i as u64);
    }
    assert!(bc.is_well_formed());
}
