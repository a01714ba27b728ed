use ledger_node::hashing::generate_sha256_hash;
use sha2::Digest;

#[test]
fn empty_string_digest() {
    assert_eq!(
        generate_sha256_hash(String::new()),
        "e3b0c44298fc1c149afbf4c8996fb92427ae41e4649b934ca495991b7852b855"
    );
}

#[test]
fn known_digest() {
    assert_eq!(
        generate_sha256_hash("hello".to_string()),
        "2cf24dba5fb0a30e26e83b2ac5b9e29e1b161e5c1fa7425e73043362938b9824"
    );
}

#[test]
fn digest_matches_reference_implementation() {
    let inputs = ["", "a", "ledger", "0170sha2abc42"];
    for input in inputs {
        let expected = hex::encode(sha2::Sha256::digest(input.as_bytes()));
        assert_eq!(generate_sha256_hash(input.to_string()), expected);
    }
}

#[test]
fn digest_is_64_lowercase_hex_chars() {
    let h = generate_sha256_hash("anything".to_string());
    assert_eq!(h.len(), 64);
    assert!(h.chars().all(|c| c.is_ascii_hexdigit() && !c.is_ascii_uppercase()));
}
