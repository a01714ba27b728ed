use ledger_node::amount::Amount;
use ledger_node::block::Block;
use ledger_node::transaction::Transaction;
use sha2::Digest;

fn sha256_hex(s: &str) -> String {
    hex::encode(sha2::Sha256::digest(s.as_bytes()))
}

#[test]
fn sealing_an_empty_block() {
    let b = Block::new_at(Vec::new(), 0, None, 0, 1700000000);
    let merkle = sha256_hex("");
    assert_eq!(b.header.index, 0);
    assert_eq!(b.header.version, "0.1.0");
    assert_eq!(b.header.previous_block_hash, None);
    assert_eq!(b.header.merkle_root_hash, merkle);
    assert_eq!(b.header.timestamp, 1700000000);
    assert_eq!(b.header.nonce, 0);
    assert_eq!(b.header.difficulty, 0);
    assert_eq!(b.header.block_hash, sha256_hex(&format!("01700000000{}0", merkle)));
    assert!(b.transactions.is_empty());
}

#[test]
fn merkle_root_concatenates_the_records() {
    let t1 = Transaction::new_at(Amount { mantissa: 10, scale: 0 }, "a".into(), "b".into(), 11);
    let t2 = Transaction::new_at(Amount { mantissa: 5, scale: 0 }, "b".into(), "c".into(), 12);
    let record1 = format!("{}10ab11", t1.txid);
    let record2 = format!("{}5bc12", t2.txid);
    let b = Block::new_at(vec![t1, t2], 3, Some("prev".to_string()), 1, 99);
    let merkle = sha256_hex(&format!("{}{}", record1, record2));
    assert_eq!(b.header.merkle_root_hash, merkle);
    assert_eq!(b.header.previous_block_hash.as_deref(), Some("prev"));
    assert_eq!(b.header.block_hash, sha256_hex(&format!("399{}0", merkle)));
    assert_eq!(b.transactions.len(), 2);
}

#[test]
fn mining_finds_a_zero_prefix() {
    let mut b = Block::new_at(Vec::new(), 1, Some("p".to_string()), 2, 1234);
    let found = b.mine(2);
    assert!(found);
    assert!(b.header.block_hash.starts_with("00"));
    let recomputed = sha256_hex(&format!(
        "{}{}{}{}",
        b.header.index, b.header.timestamp, b.header.merkle_root_hash, b.header.nonce
    ));
    assert_eq!(b.header.block_hash, recomputed);
    assert_eq!(b.header.index, 1);
    assert_eq!(b.header.timestamp, 1234);
}

#[test]
fn mining_commits_the_least_satisfying_nonce() {
    let mut b = Block::new_at(Vec::new(), 2, Some("p".to_string()), 1, 77);
    assert!(b.mine(1));
    for n in 0..b.header.nonce {
        let h = sha256_hex(&format!("277{}{}", b.header.merkle_root_hash, n));
        assert!(!h.starts_with("0"), "nonce {} already satisfied the prefix", n);
    }
    assert!(b.header.block_hash.starts_with("0"));
}

#[test]
fn mining_again_at_the_same_difficulty_stays_put() {
    let mut b = Block::new_at(Vec::new(), 1, Some("p".to_string()), 1, 4242);
    assert!(b.mine(1));
    let nonce = b.header.nonce;
    let hash = b.header.block_hash.clone();
    assert!(b.mine(1));
    assert_eq!(b.header.nonce, nonce);
    assert_eq!(b.header.block_hash, hash);
}

#[test]
fn mining_at_difficulty_zero_commits_at_once() {
    let mut b = Block::new_at(Vec::new(), 0, None, 0, 5);
    let found = b.mine(0);
    assert!(found);
    assert_eq!(b.header.nonce, 0);
    let recomputed = sha256_hex(&format!("05{}0", b.header.merkle_root_hash));
    assert_eq!(b.header.block_hash, recomputed);
}
