use ledger_node::amount::Amount;
use ledger_node::errors::LedgerError;
use ledger_node::transaction::Transaction;
use sha2::Digest;

fn sha256_hex(s: &str) -> String {
    hex::encode(sha2::Sha256::digest(s.as_bytes()))
}

#[test]
fn txid_hashes_the_fields() {
    let amount = Amount { mantissa: 10, scale: 0 };
    let t = Transaction::new_at(amount, "a".to_string(), "b".to_string(), 1700000000);
    assert_eq!(t.amount, amount);
    assert_eq!(t.from, "a");
    assert_eq!(t.to, "b");
    assert_eq!(t.timestamp, 1700000000);
    assert_eq!(t.txid, sha256_hex("10ab1700000000"));
}

#[test]
fn txid_uses_the_decimal_rendering() {
    let amount = Amount { mantissa: 1050, scale: 2 };
    let rendered = rust_decimal::Decimal::from_i128_with_scale(1050, 2).to_string();
    assert_eq!(rendered, "10.50");
    let t = Transaction::new_at(amount, "alice".to_string(), "bob".to_string(), 7);
    assert_eq!(t.txid, sha256_hex("10.50alicebob7"));
}

#[test]
fn new_captures_a_timestamp() {
    let amount = Amount { mantissa: 5, scale: 0 };
    let t = Transaction::new(amount, "x".to_string(), "y".to_string());
    assert_eq!(t.from, "x");
    assert_eq!(t.to, "y");
    assert_eq!(t.amount, amount);
    assert_eq!(t.txid.len(), 64);
    assert_eq!(t.txid, sha256_hex(&format!("5xy{}", t.timestamp)));
}

#[test]
fn numerals_render_edge_timestamps() {
    let amount = Amount { mantissa: 3, scale: 0 };
    let t = Transaction::new_at(amount, "p".to_string(), "q".to_string(), 0);
    assert_eq!(t.txid, sha256_hex("3pq0"));
    let t = Transaction::new_at(amount, "p".to_string(), "q".to_string(), u64::MAX);
    assert_eq!(t.txid, sha256_hex(&format!("3pq{}", u64::MAX)));
}

#[test]
fn amount_outside_domain_is_invalid() {
    assert_eq!(Amount::new(i128::MAX, 0), Err(LedgerError::InvalidAmount));
    assert_eq!(Amount::new(1, 29), Err(LedgerError::InvalidAmount));
    let a = Amount::new(-1234, 4).unwrap();
    assert_eq!(a, Amount { mantissa: -1234, scale: 4 });
}

#[test]
fn payload_with_missing_field_is_rejected() {
    let amount = Amount { mantissa: 1, scale: 0 };
    let r = Transaction::from_payload(Some(amount), None, Some("b".to_string()));
    assert_eq!(r.unwrap_err(), LedgerError::BadRequest);
    let r = Transaction::from_payload(None, Some("a".to_string()), Some("b".to_string()));
    assert_eq!(r.unwrap_err(), LedgerError::BadRequest);
    let r = Transaction::from_payload(Some(amount), Some("a".to_string()), None);
    assert_eq!(r.unwrap_err(), LedgerError::BadRequest);
    let t = Transaction::from_payload(Some(amount), Some("a".to_string()), Some("b".to_string()))
        .unwrap();
    assert_eq!(t.from, "a");
    assert_eq!(t.to, "b");
}
