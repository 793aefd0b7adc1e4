//! The library's contact points with its outside crates: hashing, base64,
//! JSON text and secp256k1. Each function here makes one outside call and
//! states what that call returns; results that take more than a few lines to
//! state are given a name.

use base64::Engine;
use sha2::Digest;
use vstd::prelude::*;

verus! {

/// SHA-256 of a byte string.
pub uninterp spec fn sha256_of(data: Seq<u8>) -> Seq<u8>;

/// SHA-512 of a byte string.
pub uninterp spec fn sha512_of(data: Seq<u8>) -> Seq<u8>;

/// The standard base64 character for a six-bit value.
pub open spec fn base64_char(n: int) -> u8 {
    if n < 26 {
        (n + 65) as u8
    } else if n < 52 {
        (n + 71) as u8
    } else if n < 62 {
        (n - 4) as u8
    } else if n == 62 {
        43
    } else {
        47
    }
}

/// Standard padded base64 text of a byte string: each group of three bytes
/// becomes four characters; a last group of one or two bytes is padded
/// with `=`.
pub open spec fn base64_text_of(data: Seq<u8>) -> Seq<u8>
    decreases data.len(),
{
    if data.len() == 0 {
        seq![]
    } else {
        let b0 = data[0] as int;
        let b1 = if data.len() > 1 { data[1] as int } else { 0 };
        let b2 = if data.len() > 2 { data[2] as int } else { 0 };
        let c2 = if data.len() > 1 { base64_char((b1 % 16) * 4 + b2 / 64) } else { 61u8 };
        let c3 = if data.len() > 2 { base64_char(b2 % 64) } else { 61u8 };
        let group = seq![base64_char(b0 / 4), base64_char((b0 % 4) * 16 + b1 / 16), c2, c3];
        if data.len() <= 3 {
            group
        } else {
            group + base64_text_of(data.subrange(3, data.len() as int))
        }
    }
}

/// Compact JSON text of a value; objects keep their keys sorted.
pub uninterp spec fn canonical_json(v: serde_json::Value) -> Seq<u8>;

/// `serde_json::from_slice` reads the text as a `Value`.
pub uninterp spec fn json_reads(text: Seq<u8>) -> bool;

/// `PublicKey::from_slice` parses the bytes as a point.
pub uninterp spec fn point_parses(point: Seq<u8>) -> bool;

/// `ecdsa::Signature::from_der` parses the bytes as a DER signature.
pub uninterp spec fn der_parses(der: Seq<u8>) -> bool;

/// Uncompressed serialization of the public point of a secret scalar.
pub uninterp spec fn public_point_of(secret: Seq<u8>) -> Seq<u8>;

/// Compressed serialization of the public point of a secret scalar.
pub uninterp spec fn compressed_point_of(secret: Seq<u8>) -> Seq<u8>;

/// DER form of the deterministic ECDSA signature of a digest.
pub uninterp spec fn ecdsa_signature_of(secret: Seq<u8>, digest: Seq<u8>) -> Seq<u8>;

/// The serialized point parses, the DER signature parses, and, brought to
/// low-S form, it is a valid ECDSA signature of the digest under that point.
pub uninterp spec fn ecdsa_accepts(point: Seq<u8>, digest: Seq<u8>, der: Seq<u8>) -> bool;

/// Big-endian value of a byte string.
pub open spec fn be_value(s: Seq<u8>) -> nat
    decreases s.len(),
{
    if s.len() == 0 {
        0
    } else {
        be_value(s.drop_last()) * 256 + s.last() as nat
    }
}

/// Order of the secp256k1 group.
pub open spec fn curve_order() -> nat {
    let w: nat = 0x1_0000_0000 * 0x1_0000_0000;
    ((0xFFFF_FFFF_FFFF_FFFF * w + 0xFFFF_FFFF_FFFF_FFFE) * w + 0xBAAE_DCE6_AF48_A03B) * w
        + 0xBFD2_5E8C_D036_4141
}

/// A valid secret scalar: 32 big-endian bytes, non-zero and below the order.
pub open spec fn secret_in_range(s: Seq<u8>) -> bool {
    s.len() == 32 && 0 < be_value(s) < curve_order()
}

/// Bytes that base64 text is made of: the standard alphabet and `=`.
pub open spec fn is_base64_byte(b: u8) -> bool {
    (65 <= b <= 90) || (97 <= b <= 122) || (48 <= b <= 57) || b == 43 || b == 47 || b == 61
}

/// Relies on `sha2::Sha256::digest`.
#[verifier::external_body]
pub(crate) fn sha256(data: &[u8]) -> (r: Vec<u8>)
    ensures
        r@ == sha256_of(data@),
        r@.len() == 32,
{
    sha2::Sha256::digest(data).to_vec()
}

/// Relies on `sha2::Sha512::digest`.
#[verifier::external_body]
pub(crate) fn sha512(data: &[u8]) -> (r: Vec<u8>)
    ensures
        r@ == sha512_of(data@),
        r@.len() == 64,
{
    sha2::Sha512::digest(data).to_vec()
}

/// Relies on `base64::engine::general_purpose::STANDARD.encode`: padded
/// output of four alphabet characters per started group of three bytes.
#[verifier::external_body]
pub(crate) fn base64_encode(data: &[u8]) -> (r: Vec<u8>)
    ensures
        r@ == base64_text_of(data@),
        r@.len() == 4 * ((data@.len() + 2) / 3),
        forall|i: int| 0 <= i < r@.len() ==> is_base64_byte(#[trigger] r@[i]),
{
    base64::engine::general_purpose::STANDARD.encode(data).into_bytes()
}

#[verifier::external_type_specification]
#[verifier::external_body]
pub struct ExDecodeError(base64::DecodeError);

/// Relies on `base64::engine::general_purpose::STANDARD.decode`, which
/// requires canonical padding: it succeeds exactly on text that `encode`
/// writes, and gives back the bytes that text was written from.
#[verifier::external_body]
pub(crate) fn base64_decode(text: &[u8]) -> (r: Result<Vec<u8>, base64::DecodeError>)
    ensures
        r matches Ok(b) ==> base64_text_of(b@) == text@,
        forall|b: Seq<u8>|
            #[trigger] base64_text_of(b) == text@ ==> r is Ok && r->Ok_0@ == b,
{
    base64::engine::general_purpose::STANDARD.decode(text)
}

#[verifier::external_type_specification]
#[verifier::external_body]
pub struct ExJsonValue(serde_json::Value);

#[verifier::external_type_specification]
#[verifier::external_body]
pub struct ExJsonError(serde_json::Error);

/// Relies on the derived `Clone` of `serde_json::Value`: the copy is equal.
pub assume_specification[ <serde_json::Value as Clone>::clone ](v: &serde_json::Value) -> (r:
    serde_json::Value)
    ensures
        r == *v,
;

/// Relies on `serde_json::to_vec`. Serializing a `Value` into a vector does
/// not fail: its keys are strings and it holds only finite numbers.
#[verifier::external_body]
pub(crate) fn json_encode(v: &serde_json::Value) -> (r: Result<Vec<u8>, serde_json::Error>)
    ensures
        r is Ok,
        r->Ok_0@ == canonical_json(*v),
{
    serde_json::to_vec(v)
}

/// Relies on `serde_json::from_slice` (with exact float parsing): text that
/// `to_vec` wrote for a value reads back as that value, unless it nests
/// deeper than the parser's limit of 128 levels, where it fails.
#[verifier::external_body]
pub(crate) fn json_decode(text: &[u8]) -> (r: Result<serde_json::Value, serde_json::Error>)
    ensures
        r is Ok == json_reads(text@),
        forall|v: serde_json::Value|
            #[trigger] canonical_json(v) == text@ && r is Ok ==> r->Ok_0 == v,
{
    serde_json::from_slice(text)
}

#[verifier::external_type_specification]
#[verifier::external_body]
pub struct ExSecpError(secp256k1::Error);

/// Relies on `secp256k1::Secp256k1::generate_keypair` with the operating
/// system's random source; only the secret half is kept.
#[verifier::external_body]
pub(crate) fn random_secret() -> (r: Vec<u8>)
    ensures
        secret_in_range(r@),
{
    let (secret, _) = secp256k1::Secp256k1::new().generate_keypair(&mut rand::rngs::OsRng);
    secret.secret_bytes().to_vec()
}

/// Relies on `secp256k1::PublicKey::from_secret_key` and
/// `serialize_uncompressed`: 65 bytes led by the marker 4. The scalar is read
/// by `SecretKey::from_slice`, which accepts exactly the valid scalars.
#[verifier::external_body]
pub(crate) fn uncompressed_point(secret: &[u8]) -> (r: Result<Vec<u8>, secp256k1::Error>)
    ensures
        r.is_ok() == secret_in_range(secret@),
        r matches Ok(p) ==> p@ == public_point_of(secret@) && p@.len() == 65 && p@[0] == 4,
{
    let key = secp256k1::SecretKey::from_slice(secret)?;
    let point = secp256k1::PublicKey::from_secret_key(&secp256k1::Secp256k1::new(), &key);
    Ok(point.serialize_uncompressed().to_vec())
}

/// Relies on `secp256k1::PublicKey::from_secret_key` and `serialize`:
/// 33 bytes, the marker 2 or 3 and then the x-coordinate, which is the one
/// the uncompressed form holds after its marker 4. The scalar is read by
/// `SecretKey::from_slice`.
#[verifier::external_body]
pub(crate) fn compressed_point(secret: &[u8]) -> (r: Result<Vec<u8>, secp256k1::Error>)
    ensures
        r.is_ok() == secret_in_range(secret@),
        r matches Ok(p) ==> p@ == compressed_point_of(secret@) && p@.len() == 33 && (p@[0] == 2
            || p@[0] == 3) && public_point_of(secret@).len() == 65 && public_point_of(secret@)[0]
            == 4 && p@.subrange(1, 33) == public_point_of(secret@).subrange(1, 33),
{
    let key = secp256k1::SecretKey::from_slice(secret)?;
    let point = secp256k1::PublicKey::from_secret_key(&secp256k1::Secp256k1::new(), &key);
    Ok(point.serialize().to_vec())
}

/// Relies on `secp256k1::Secp256k1::sign_ecdsa` (RFC 6979, low-S) and
/// `serialize_der`: the signature verifies under the signer's public point.
#[verifier::external_body]
pub(crate) fn ecdsa_sign(secret: &[u8], digest: &[u8]) -> (r: Result<Vec<u8>, secp256k1::Error>)
    requires
        digest@.len() == 32,
    ensures
        r.is_ok() == secret_in_range(secret@),
        r matches Ok(s) ==> s@ == ecdsa_signature_of(secret@, digest@) && ecdsa_accepts(
            public_point_of(secret@),
            digest@,
            s@,
        ),
{
    let key = secp256k1::SecretKey::from_slice(secret)?;
    let message = secp256k1::Message::from_digest_slice(digest)?;
    Ok(secp256k1::Secp256k1::new().sign_ecdsa(&message, &key).serialize_der().to_vec())
}

/// Relies on `secp256k1::Secp256k1::verify_ecdsa`, after
/// `PublicKey::from_slice`, `ecdsa::Signature::from_der` and `normalize_s`.
/// Only the two parses can fail; a digest of 32 bytes always makes a message.
#[verifier::external_body]
pub(crate) fn ecdsa_verify(point: &[u8], der: &[u8], digest: &[u8]) -> (r: Result<
    bool,
    secp256k1::Error,
>)
    requires
        digest@.len() == 32,
    ensures
        r is Err == !(point_parses(point@) && der_parses(der@)),
        r matches Ok(b) ==> b == ecdsa_accepts(point@, digest@, der@),
        ecdsa_accepts(point@, digest@, der@) ==> r matches Ok(true),
{
    let key = secp256k1::PublicKey::from_slice(point)?;
    let mut signature = secp256k1::ecdsa::Signature::from_der(der)?;
    signature.normalize_s();
    let message = secp256k1::Message::from_digest_slice(digest)?;
    let secp = secp256k1::Secp256k1::verification_only();
    Ok(secp.verify_ecdsa(&message, &signature, &key).is_ok())
}

} // verus!
