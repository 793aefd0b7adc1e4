//! Signed objects: a value with one or more proofs, built by one signer,
//! extended one signer at a time, or signed by several keys at once.

use crate::encoding::hex_bytes;
use crate::sign::{can_sign, proof_by, sign_error, sign_value};
use crate::types::{SdkError, SignatureProof, Signed};
use vstd::prelude::*;

verus! {

/// A signed value with one proof.
pub fn create_signed_object(
    value: &serde_json::Value,
    private_key: &str,
    is_data_update: bool,
) -> (r: Result<Signed<serde_json::Value>, SdkError>)
    ensures
        !can_sign(private_key@) ==> r == Err::<Signed<serde_json::Value>, SdkError>(
            sign_error(private_key@),
        ),
        can_sign(private_key@) ==> (r matches Ok(s) && s.value == *value && s.proofs@.len() == 1
            && proof_by(s.proofs@[0], hex_bytes(private_key@), *value, is_data_update)),
{
    let proof = sign_value(value, private_key, is_data_update)?;
    let mut proofs: Vec<SignatureProof> = Vec::new();
    proofs.push(proof);
    Ok(Signed { value: value.clone(), proofs })
}

/// The signed value with one more proof at the end. The flag must be the one
/// the earlier proofs were made with, or the new proof will not verify with
/// them.
pub fn add_signature(
    signed: Signed<serde_json::Value>,
    private_key: &str,
    is_data_update: bool,
) -> (r: Result<Signed<serde_json::Value>, SdkError>)
    ensures
        !can_sign(private_key@) ==> r == Err::<Signed<serde_json::Value>, SdkError>(
            sign_error(private_key@),
        ),
        can_sign(private_key@) ==> (r matches Ok(s) && s.value == signed.value && s.proofs@.len()
            == signed.proofs@.len() + 1 && s.proofs@.drop_last() == signed.proofs@ && proof_by(
            s.proofs@.last(),
            hex_bytes(private_key@),
            signed.value,
            is_data_update,
        )),
{
    let new_proof = sign_value(&signed.value, private_key, is_data_update)?;
    let mut proofs = signed.proofs;
    proofs.push(new_proof);
    assert(proofs@.drop_last() =~= signed.proofs@);
    Ok(Signed { value: signed.value, proofs })
}

/// A signed value with one proof per key, in the keys' order. Fails with no
/// keys, and fails as a whole with the first key that cannot sign.
pub fn batch_sign(value: &serde_json::Value, private_keys: &[&str], is_data_update: bool) -> (r:
    Result<Signed<serde_json::Value>, SdkError>)
    ensures
        private_keys@.len() == 0 ==> r == Err::<Signed<serde_json::Value>, SdkError>(
            SdkError::NoPrivateKeys,
        ),
        forall|i: int|
            0 <= i < private_keys@.len() && !can_sign(#[trigger] private_keys@[i]@) && (forall|
                j: int,
            |
                0 <= j < i ==> can_sign(#[trigger] private_keys@[j]@)) ==> r == Err::<
                Signed<serde_json::Value>,
                SdkError,
            >(sign_error(private_keys@[i]@)),
        private_keys@.len() > 0 && (forall|i: int|
            0 <= i < private_keys@.len() ==> can_sign(#[trigger] private_keys@[i]@)) ==> (r matches Ok(
            s,
        ) && s.value == *value && s.proofs@.len() == private_keys@.len() && forall|i: int|
            0 <= i < private_keys@.len() ==> proof_by(
                #[trigger] s.proofs@[i],
                hex_bytes(private_keys@[i]@),
                *value,
                is_data_update,
            )),
{
    if private_keys.len() == 0 {
        return Err(SdkError::NoPrivateKeys);
    }
    let mut proofs: Vec<SignatureProof> = Vec::new();
    let mut i: usize = 0;
    while i < private_keys.len()
        invariant
            i <= private_keys@.len(),
            proofs@.len() == i,
            forall|j: int| 0 <= j < i ==> can_sign(#[trigger] private_keys@[j]@),
            forall|j: int|
                0 <= j < i ==> proof_by(
                    #[trigger] proofs@[j],
                    hex_bytes(private_keys@[j]@),
                    *value,
                    is_data_update,
                ),
        decreases private_keys.len() - i,
    {
        let proof = match sign_value(value, private_keys[i], is_data_update) {
            Ok(p) => p,
            Err(e) => {
                assert(!can_sign(private_keys@[i as int]@));
                return Err(e);
            },
        };
        proofs.push(proof);
        i = i + 1;
    }
    Ok(Signed { value: value.clone(), proofs })
}

} // verus!
