use constellation_sdk::hash::{
    compute_digest, compute_digest_from_bytes, compute_digest_from_hash, hash_bytes, hash_data,
};
use serde_json::Value;

fn value(text: &str) -> Value {
    serde_json::from_str(text).unwrap()
}

#[test]
fn test_hash_data() {
    let data = value(r#"{"id": "test", "value": 42}"#);
    let hash = hash_data(&data, false).unwrap();
    assert_eq!(hash.value.len(), 64);
    assert_eq!(hash.bytes.len(), 32);
}

#[test]
fn test_hash_bytes() {
    let data = b"test data";
    let hash = hash_bytes(data);
    assert_eq!(hash.value.len(), 64);
    assert_eq!(hash.bytes.len(), 32);
}

#[test]
fn test_compute_digest() {
    let data = value(r#"{"id": "test"}"#);
    let digest = compute_digest(&data, false).unwrap();
    assert_eq!(digest.len(), 32);
}

#[test]
fn test_compute_digest_data_update() {
    let data = value(r#"{"id": "test"}"#);
    let regular_digest = compute_digest(&data, false).unwrap();
    let update_digest = compute_digest(&data, true).unwrap();
    assert_ne!(regular_digest, update_digest);
}

#[test]
fn test_deterministic_hashing() {
    let data = value(r#"{"id": "test", "value": 42}"#);
    let hash1 = hash_data(&data, false).unwrap();
    let hash2 = hash_data(&data, false).unwrap();
    assert_eq!(hash1.value, hash2.value);
}

#[test]
fn hash_bytes_is_sha256() {
    let hash = hash_bytes(b"test data");
    assert_eq!(hash.value, "916f0027a575074ce72a331777c3478d6513f786a591bd892da1a577bf2335f9");
    assert_eq!(hash.bytes[0], 0x91);
    assert_eq!(hash.bytes[31], 0xf9);
}

#[test]
fn hash_data_hashes_canonical_text() {
    let hash = hash_data(&value(r#"{"value":42,"id":"test"}"#), false).unwrap();
    assert_eq!(hash.value, "0f2dab581d74fdfede054e3bb10178a565bf52ce16419e0e3a1ec3e93c0796b8");
}

#[test]
fn digest_hashes_the_hex_text() {
    let expected = "9990eb192b1f59eda5346e57ff03e2f8196f0c75a12f7449a0b92434baf94a7f";
    let from_bytes = compute_digest_from_bytes(b"test data");
    let from_hash =
        compute_digest_from_hash("916f0027a575074ce72a331777c3478d6513f786a591bd892da1a577bf2335f9");
    let as_hex: String = from_bytes.iter().map(|b| format!("{b:02x}")).collect();
    assert_eq!(as_hex, expected);
    assert_eq!(from_bytes, from_hash);
}
