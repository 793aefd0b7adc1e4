use constellation_sdk::types::SdkError;
use constellation_sdk::wallet::{
    base58_encode, generate_key_pair, get_address, get_public_key_hex, get_public_key_id,
    is_valid_private_key, is_valid_public_key, key_pair_from_private_key, normalize_public_key,
    normalize_public_key_to_id,
};

const ONE: &str = "0000000000000000000000000000000000000000000000000000000000000001";
const G_X: &str = "79be667ef9dcbbac55a06295ce870b07029bfcdb2dce28d959f2815b16f81798";
const G_Y: &str = "483ada7726a3c4655da4fbfc0e1108a8fd17b448a68554199c47d08ffb10d4b8";

#[test]
fn test_generate_key_pair() {
    let key_pair = generate_key_pair();
    assert_eq!(key_pair.private_key.len(), 64);
    assert_eq!(key_pair.public_key.len(), 130);
    assert!(key_pair.address.starts_with("DAG"));
}

#[test]
fn test_key_pair_from_private_key() {
    let key_pair = generate_key_pair();
    let derived = key_pair_from_private_key(&key_pair.private_key).unwrap();
    assert_eq!(derived.public_key, key_pair.public_key);
    assert_eq!(derived.address, key_pair.address);
}

#[test]
fn test_is_valid_private_key() {
    assert!(is_valid_private_key(&"a".repeat(64)));
    assert!(!is_valid_private_key(&"a".repeat(63)));
    assert!(!is_valid_private_key(&"g".repeat(64)));
}

#[test]
fn test_is_valid_public_key() {
    assert!(is_valid_public_key(&"a".repeat(128)));
    assert!(is_valid_public_key(&"a".repeat(130)));
    assert!(!is_valid_public_key(&"a".repeat(127)));
}

#[test]
fn key_format_checks_accept_either_case() {
    assert!(is_valid_private_key(&"A".repeat(64)));
    assert!(!is_valid_private_key(&"\u{e9}".repeat(32)));
    assert!(!is_valid_public_key(&"a".repeat(129)));
}

#[test]
fn public_key_of_one_is_generator() {
    let uncompressed = get_public_key_hex(ONE, false).unwrap();
    assert_eq!(uncompressed, format!("04{G_X}{G_Y}"));
    let compressed = get_public_key_hex(ONE, true).unwrap();
    assert_eq!(compressed, format!("02{G_X}"));
    assert_eq!(compressed.len(), 66);
    assert_eq!(compressed[2..], uncompressed[2..66]);
    assert_eq!(get_public_key_id(ONE).unwrap(), format!("{G_X}{G_Y}"));
}

#[test]
fn public_key_errors() {
    assert_eq!(get_public_key_hex("abc", false), Err(SdkError::InvalidHex));
    assert_eq!(get_public_key_hex(&"0".repeat(64), true), Err(SdkError::CryptoError));
    assert_eq!(get_public_key_id("12"), Err(SdkError::CryptoError));
}

#[test]
fn key_pair_from_private_key_errors() {
    assert_eq!(key_pair_from_private_key("abc").unwrap_err(), SdkError::InvalidPrivateKey);
    assert_eq!(
        key_pair_from_private_key(&"0".repeat(64)).unwrap_err(),
        SdkError::CryptoError
    );
}

#[test]
fn key_pair_from_one_has_known_address() {
    let kp = key_pair_from_private_key(ONE).unwrap();
    assert_eq!(kp.private_key, ONE);
    assert_eq!(kp.public_key, format!("04{G_X}{G_Y}"));
    assert_eq!(kp.address, "DAG6RXH1X69zxnMe2nwfQgHFEPsJMoAKijzBsfgk2W92EQo");
}

#[test]
fn address_accepts_key_with_or_without_marker() {
    let with = get_address(&format!("04{G_X}{G_Y}"));
    let without = get_address(&format!("{G_X}{G_Y}"));
    assert_eq!(with, "DAG6RXH1X69zxnMe2nwfQgHFEPsJMoAKijzBsfgk2W92EQo");
    assert_eq!(with, without);
    assert_eq!(get_address("not hex"), "DAGGKot5hBsd81kMupNCXHaqbhv3huEbxAFMLnpcX2hniwn");
}

#[test]
fn base58_known_values() {
    assert_eq!(base58_encode(b""), "");
    assert_eq!(base58_encode(&[0]), "1");
    assert_eq!(base58_encode(&[0, 0, 1]), "112");
    assert_eq!(base58_encode(&[255]), "5Q");
    assert_eq!(base58_encode(b"hello world"), "StV1DL6CwTryKyV");
    assert_eq!(base58_encode(&[0u8; 32]), "1".repeat(32));
    assert_eq!(base58_encode(&[255u8; 32]).len(), 44);
}

#[test]
fn normalize_adds_and_strips_marker() {
    let id = "b".repeat(128);
    let full = format!("04{id}");
    assert_eq!(normalize_public_key(&id), full);
    assert_eq!(normalize_public_key(&full), full);
    assert_eq!(normalize_public_key("abc"), "abc");
    assert_eq!(normalize_public_key_to_id(&full), id);
    assert_eq!(normalize_public_key_to_id(&id), id);
    let other = format!("05{id}");
    assert_eq!(normalize_public_key_to_id(&other), other);
}

#[test]
fn generated_keys_have_the_documented_shape() {
    for _ in 0..4 {
        let kp = generate_key_pair();
        assert!(is_valid_private_key(&kp.private_key));
        assert!(kp.private_key.chars().all(|c| c.is_ascii_hexdigit()));
        assert!(kp.public_key.starts_with("04"));
        assert_eq!(kp.address, get_address(&kp.public_key));
        let tail = &kp.address[3..];
        assert!((32..=44).contains(&tail.len()));
        let alphabet = "123456789ABCDEFGHJKLMNPQRSTUVWXYZabcdefghijkmnopqrstuvwxyz";
        assert!(tail.chars().all(|c| alphabet.contains(c)));
    }
}

#[test]
fn marker_rules_count_bytes() {
    let key = format!("{}\u{e9}", "a".repeat(126));
    assert_eq!(key.len(), 128);
    assert_eq!(normalize_public_key(&key), format!("04{key}"));
    let full = format!("04{}\u{e9}", "a".repeat(126));
    assert_eq!(full.len(), 130);
    assert_eq!(normalize_public_key_to_id(&full), format!("{}\u{e9}", "a".repeat(126)));
    let short = format!("04{}\u{e9}", "a".repeat(125));
    assert_eq!(normalize_public_key_to_id(&short), short);
}
