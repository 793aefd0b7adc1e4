//! Producing one signer's proof over a value.

use crate::binary::signing_bytes;
use crate::encoding::{hex_bytes, hex_decode, hex_decodes, hex_encode, hex_text};
use crate::hash::{compute_digest, signing_digest};
use crate::outside::{ecdsa_accepts, ecdsa_sign, ecdsa_signature_of, public_point_of, secret_in_range};
use crate::types::{SdkError, SignatureProof};
use crate::wallet::{get_public_key_id, point_shape, public_key_id_of};
use vstd::prelude::*;

verus! {

/// A private key text that signing accepts: hex of a valid scalar.
pub open spec fn can_sign(private_key: Seq<char>) -> bool {
    hex_decodes(private_key) && secret_in_range(hex_bytes(private_key))
}

/// The error signing gives for a private key text it does not accept.
pub open spec fn sign_error(private_key: Seq<char>) -> SdkError {
    if !hex_decodes(private_key) {
        SdkError::InvalidHex
    } else {
        SdkError::CryptoError
    }
}

/// The digest signed for a value.
pub open spec fn value_digest(v: serde_json::Value, is_data_update: bool) -> Seq<u8> {
    signing_digest(signing_bytes(v, is_data_update))
}

/// `p` is the proof that `secret` gives for `v`: its identifier is the
/// secret's public key, its signature the secret's ECDSA signature of the
/// value's digest, and that signature verifies under the public point.
pub open spec fn proof_by(
    p: SignatureProof,
    secret: Seq<u8>,
    v: serde_json::Value,
    is_data_update: bool,
) -> bool {
    let digest = value_digest(v, is_data_update);
    &&& point_shape(secret)
    &&& p.id@ == public_key_id_of(secret)
    &&& p.signature@ == hex_text(ecdsa_signature_of(secret, digest))
    &&& ecdsa_accepts(public_point_of(secret), digest, ecdsa_signature_of(secret, digest))
}

/// Signs a value's digest with a hex private key; the data-update flag picks
/// which bytes are digested.
pub fn sign_value(value: &serde_json::Value, private_key: &str, is_data_update: bool) -> (r: Result<
    SignatureProof,
    SdkError,
>)
    ensures
        !can_sign(private_key@) ==> r == Err::<SignatureProof, SdkError>(
            sign_error(private_key@),
        ),
        can_sign(private_key@) ==> (r matches Ok(p) && proof_by(
            p,
            hex_bytes(private_key@),
            *value,
            is_data_update,
        )),
{
    let digest = compute_digest(value, is_data_update)?;
    let secret = match hex_decode(private_key) {
        Ok(b) => b,
        Err(_) => {
            return Err(SdkError::InvalidHex);
        },
    };
    let der = match ecdsa_sign(secret.as_slice(), &digest) {
        Ok(d) => d,
        Err(_) => {
            return Err(SdkError::CryptoError);
        },
    };
    let id = get_public_key_id(private_key)?;
    Ok(SignatureProof { id, signature: hex_encode(der.as_slice()) })
}

/// Signs a value as plain data.
pub fn sign(value: &serde_json::Value, private_key: &str) -> (r: Result<SignatureProof, SdkError>)
    ensures
        !can_sign(private_key@) ==> r == Err::<SignatureProof, SdkError>(
            sign_error(private_key@),
        ),
        can_sign(private_key@) ==> (r matches Ok(p) && proof_by(
            p,
            hex_bytes(private_key@),
            *value,
            false,
        )),
{
    sign_value(value, private_key, false)
}

/// Signs a value as a data update.
pub fn sign_data_update(value: &serde_json::Value, private_key: &str) -> (r: Result<
    SignatureProof,
    SdkError,
>)
    ensures
        !can_sign(private_key@) ==> r == Err::<SignatureProof, SdkError>(
            sign_error(private_key@),
        ),
        can_sign(private_key@) ==> (r matches Ok(p) && proof_by(
            p,
            hex_bytes(private_key@),
            *value,
            true,
        )),
{
    sign_value(value, private_key, true)
}

} // verus!
