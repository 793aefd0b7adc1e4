use constellation_sdk::binary::to_bytes;
use constellation_sdk::hash::hash_bytes;
use constellation_sdk::sign::{sign, sign_data_update};
use constellation_sdk::signed_object::{add_signature, batch_sign, create_signed_object};
use constellation_sdk::types::{SdkError, SignatureProof, Signed};
use constellation_sdk::verify::{verify, verify_hash, verify_signature};
use constellation_sdk::wallet::{generate_key_pair, get_public_key_id};
use serde_json::Value;

fn value(text: &str) -> Value {
    serde_json::from_str(text).unwrap()
}

#[test]
fn test_create_signed_object() {
    let key_pair = generate_key_pair();
    let data = value(r#"{"id": "test", "value": 42}"#);
    let signed = create_signed_object(&data, &key_pair.private_key, false).unwrap();
    assert_eq!(signed.proofs.len(), 1);
    let result = verify(&signed, false);
    assert!(result.is_valid);
}

#[test]
fn test_create_signed_object_data_update() {
    let key_pair = generate_key_pair();
    let data = value(r#"{"id": "test"}"#);
    let signed = create_signed_object(&data, &key_pair.private_key, true).unwrap();
    assert_eq!(signed.proofs.len(), 1);
    let result = verify(&signed, true);
    assert!(result.is_valid);
}

#[test]
fn test_add_signature() {
    let key1 = generate_key_pair();
    let key2 = generate_key_pair();
    let data = value(r#"{"id": "test"}"#);
    let signed = create_signed_object(&data, &key1.private_key, false).unwrap();
    let signed = add_signature(signed, &key2.private_key, false).unwrap();
    assert_eq!(signed.proofs.len(), 2);
    let result = verify(&signed, false);
    assert!(result.is_valid);
    assert_eq!(result.valid_proofs.len(), 2);
}

#[test]
fn test_batch_sign() {
    let key1 = generate_key_pair();
    let key2 = generate_key_pair();
    let key3 = generate_key_pair();
    let data = value(r#"{"id": "test"}"#);
    let signed = batch_sign(
        &data,
        &[&key1.private_key, &key2.private_key, &key3.private_key],
        false,
    )
    .unwrap();
    assert_eq!(signed.proofs.len(), 3);
    let result = verify(&signed, false);
    assert!(result.is_valid);
    assert_eq!(result.valid_proofs.len(), 3);
}

#[test]
fn test_batch_sign_empty_keys() {
    let data = value(r#"{"id": "test"}"#);
    let result = batch_sign(&data, &[], false);
    assert!(result.is_err());
}

#[test]
fn test_verify_signed_object() {
    let key_pair = generate_key_pair();
    let data = value(r#"{"id": "test", "value": 42}"#);
    let proof = sign(&data, &key_pair.private_key).unwrap();
    let signed = Signed { value: data, proofs: vec![proof] };
    let result = verify(&signed, false);
    assert!(result.is_valid);
    assert_eq!(result.valid_proofs.len(), 1);
    assert!(result.invalid_proofs.is_empty());
}

#[test]
fn test_verify_data_update() {
    let key_pair = generate_key_pair();
    let data = value(r#"{"id": "test"}"#);
    let proof = sign_data_update(&data, &key_pair.private_key).unwrap();
    let signed = Signed { value: data, proofs: vec![proof] };
    let result = verify(&signed, true);
    assert!(result.is_valid);
}

#[test]
fn test_verify_tampered_data() {
    let key_pair = generate_key_pair();
    let signed_data = value(r#"{"id": "test", "value": 42}"#);
    let proof = sign(&signed_data, &key_pair.private_key).unwrap();
    let tampered_data = value(r#"{"id": "test", "value": 999}"#);
    let signed = Signed { value: tampered_data, proofs: vec![proof] };
    let result = verify(&signed, false);
    assert!(!result.is_valid);
    assert!(result.valid_proofs.is_empty());
    assert_eq!(result.invalid_proofs.len(), 1);
}

#[test]
fn test_verify_hash() {
    let key_pair = generate_key_pair();
    let data = value(r#"{"id": "test"}"#);
    let proof = sign(&data, &key_pair.private_key).unwrap();
    let bytes = to_bytes(&data, false).unwrap();
    let hash = hash_bytes(&bytes);
    let is_valid = verify_hash(&hash.value, &proof.signature, &proof.id).unwrap();
    assert!(is_valid);
}

#[test]
fn test_verify_signature_single() {
    let key_pair = generate_key_pair();
    let data = value(r#"{"id": "test"}"#);
    let proof = sign(&data, &key_pair.private_key).unwrap();
    let is_valid = verify_signature(&data, &proof, false).unwrap();
    assert!(is_valid);
}

#[test]
fn object_without_proofs_is_invalid() {
    let signed = Signed { value: value(r#"{"id":"test"}"#), proofs: vec![] };
    let result = verify(&signed, false);
    assert!(!result.is_valid);
    assert!(result.valid_proofs.is_empty());
    assert!(result.invalid_proofs.is_empty());
}

#[test]
fn proof_checked_with_the_other_flag_is_invalid() {
    let key_pair = generate_key_pair();
    let signed = create_signed_object(&value(r#"{"id":"test"}"#), &key_pair.private_key, true)
        .unwrap();
    let result = verify(&signed, false);
    assert!(!result.is_valid);
    assert_eq!(result.invalid_proofs.len(), 1);
}

#[test]
fn unreadable_proofs_are_listed_invalid_in_order() {
    let key_pair = generate_key_pair();
    let data = value(r#"{"id":"test","value":42}"#);
    let good = sign(&data, &key_pair.private_key).unwrap();
    let bad_hex = SignatureProof { id: "zz".to_string(), signature: "00".to_string() };
    let bad_der = SignatureProof { id: good.id.clone(), signature: "3000".to_string() };
    let signed = Signed { value: data, proofs: vec![bad_hex.clone(), good.clone(), bad_der.clone()] };
    let result = verify(&signed, false);
    assert!(!result.is_valid);
    assert_eq!(result.valid_proofs.len(), 1);
    assert_eq!(result.valid_proofs[0].signature, good.signature);
    assert_eq!(result.invalid_proofs.len(), 2);
    assert_eq!(result.invalid_proofs[0].id, "zz");
    assert_eq!(result.invalid_proofs[1].signature, "3000");
}

#[test]
fn verify_hash_reports_malformed_input() {
    let key_pair = generate_key_pair();
    let data = value(r#"{"id":"test"}"#);
    let proof = sign(&data, &key_pair.private_key).unwrap();
    let hash = hash_bytes(&to_bytes(&data, false).unwrap());
    assert_eq!(verify_hash(&hash.value, "xyz", &proof.id), Err(SdkError::InvalidHex));
    assert_eq!(verify_hash(&hash.value, &proof.signature, "0"), Err(SdkError::InvalidHex));
    assert_eq!(verify_hash(&hash.value, "3000", &proof.id), Err(SdkError::CryptoError));
    let key_with_marker = format!("04{}", proof.id);
    assert_eq!(verify_hash(&hash.value, &proof.signature, &key_with_marker), Ok(true));
    let other = hash_bytes(b"other");
    assert_eq!(verify_hash(&other.value, &proof.signature, &proof.id), Ok(false));
    assert_eq!(verify_hash(&other.value, &proof.signature, &key_with_marker), Ok(false));
    let off_curve = "11".repeat(64);
    assert_eq!(verify_hash(&hash.value, &proof.signature, &off_curve), Err(SdkError::CryptoError));
}

#[test]
fn proof_id_is_signer_public_key_id() {
    let key_pair = generate_key_pair();
    let proof = sign(&value("1"), &key_pair.private_key).unwrap();
    assert_eq!(proof.id, get_public_key_id(&key_pair.private_key).unwrap());
    assert_eq!(proof.id.len(), 128);
    assert_eq!(format!("04{}", proof.id), key_pair.public_key);
}

#[test]
fn signing_is_deterministic() {
    let key_pair = generate_key_pair();
    let data = value(r#"{"id":"test"}"#);
    let a = sign(&data, &key_pair.private_key).unwrap();
    let b = sign(&data, &key_pair.private_key).unwrap();
    assert_eq!(a.signature, b.signature);
}

#[test]
fn signing_with_bad_keys_fails() {
    let data = value(r#"{"id":"test"}"#);
    assert_eq!(sign(&data, "not hex").unwrap_err(), SdkError::InvalidHex);
    assert_eq!(sign(&data, &"0".repeat(64)).unwrap_err(), SdkError::CryptoError);
    let order = "fffffffffffffffffffffffffffffffebaaedce6af48a03bbfd25e8cd0364141";
    assert_eq!(create_signed_object(&data, order, false).unwrap_err(), SdkError::CryptoError);
}

#[test]
fn batch_sign_with_a_bad_key_fails_whole() {
    let key = generate_key_pair();
    let data = value(r#"{"id":"test"}"#);
    let result = batch_sign(&data, &[&key.private_key, "bad"], false);
    assert_eq!(result.unwrap_err(), SdkError::InvalidHex);
    assert_eq!(batch_sign(&data, &[], true).unwrap_err(), SdkError::NoPrivateKeys);
}

#[test]
fn add_signature_keeps_earlier_proofs_first() {
    let key1 = generate_key_pair();
    let key2 = generate_key_pair();
    let data = value(r#"{"id":"test"}"#);
    let signed = create_signed_object(&data, &key1.private_key, true).unwrap();
    let first = signed.proofs[0].clone();
    let signed = add_signature(signed, &key2.private_key, true).unwrap();
    assert_eq!(signed.proofs[0].signature, first.signature);
    assert_eq!(signed.proofs[1].id, get_public_key_id(&key2.private_key).unwrap());
    assert_eq!(signed.value, data);
    let result = verify(&signed, true);
    assert!(result.is_valid);
    assert_eq!(result.valid_proofs.len(), 2);
}

#[test]
fn tampered_value_scenario() {
    let key_pair = generate_key_pair();
    let signed = create_signed_object(
        &value(r#"{"id":"test","value":42}"#),
        &key_pair.private_key,
        false,
    )
    .unwrap();
    assert!(verify(&signed, false).is_valid);
    let tampered = Signed { value: value(r#"{"id":"test","value":999}"#), proofs: signed.proofs };
    let result = verify(&tampered, false);
    assert!(!result.is_valid);
    assert_eq!(result.invalid_proofs.len(), 1);
}
