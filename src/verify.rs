//! Checking proofs against a value: one at a time, or every proof of a
//! signed object at once.

use crate::binary::{signing_bytes, to_bytes};
use crate::encoding::{hex_bytes, hex_decode, hex_decodes};
use crate::hash::{
    ascii_bytes, compute_digest_from_hash, content_hash_hex, digest_of_hex, hash_bytes,
    lemma_hex_str_bytes,
};
use crate::outside::{der_parses, ecdsa_accepts, ecdsa_verify, point_parses};
use crate::types::{copy_proof, SdkError, SignatureProof, Signed, VerificationResult};
use crate::wallet::{normalize_public_key, with_marker};
use vstd::prelude::*;
use vstd::string::StringSliceAdditionalSpecFns;

verus! {

/// A signature over a content hash holds: the key identifier and the
/// signature are hex, and the curve library accepts the signature of the
/// hash text's digest under the key.
pub open spec fn signature_holds(hash_text: Seq<u8>, id: Seq<char>, signature: Seq<char>) -> bool {
    let key = with_marker(id);
    &&& hex_decodes(key)
    &&& hex_decodes(signature)
    &&& ecdsa_accepts(hex_bytes(key), digest_of_hex(hash_text), hex_bytes(signature))
}

/// What checking a signature over a hash text gives: an error for text that
/// is not hex, an error for bytes the curve library cannot parse as a point
/// or a DER signature, and otherwise whether the signature verifies.
pub open spec fn signature_outcome(hash_text: Seq<u8>, id: Seq<char>, signature: Seq<char>) -> Result<
    bool,
    SdkError,
> {
    let key = with_marker(id);
    if !hex_decodes(key) || !hex_decodes(signature) {
        Err(SdkError::InvalidHex)
    } else if !(point_parses(hex_bytes(key)) && der_parses(hex_bytes(signature))) {
        Err(SdkError::CryptoError)
    } else {
        Ok(ecdsa_accepts(hex_bytes(key), digest_of_hex(hash_text), hex_bytes(signature)))
    }
}

/// The bytes of a value's content hash text.
pub open spec fn value_hash_text(v: serde_json::Value, is_data_update: bool) -> Seq<u8> {
    ascii_bytes(content_hash_hex(signing_bytes(v, is_data_update)))
}

pub open spec fn proof_holds(hash_text: Seq<u8>, p: SignatureProof) -> bool {
    signature_holds(hash_text, p.id@, p.signature@)
}

/// The proofs that hold, in their order.
pub open spec fn passing(hash_text: Seq<u8>, proofs: Seq<SignatureProof>) -> Seq<SignatureProof>
    decreases proofs.len(),
{
    if proofs.len() == 0 {
        seq![]
    } else if proof_holds(hash_text, proofs.last()) {
        passing(hash_text, proofs.drop_last()).push(proofs.last())
    } else {
        passing(hash_text, proofs.drop_last())
    }
}

/// The proofs that do not hold, in their order.
pub open spec fn failing(hash_text: Seq<u8>, proofs: Seq<SignatureProof>) -> Seq<SignatureProof>
    decreases proofs.len(),
{
    if proofs.len() == 0 {
        seq![]
    } else if proof_holds(hash_text, proofs.last()) {
        failing(hash_text, proofs.drop_last())
    } else {
        failing(hash_text, proofs.drop_last()).push(proofs.last())
    }
}

/// Checks a DER signature (hex) over a SHA-256 hash text against a public
/// key given with or without its `04` marker. Signatures in high-S form are
/// accepted.
pub fn verify_hash(hash_hex: &str, signature: &str, public_key_id: &str) -> (r: Result<
    bool,
    SdkError,
>)
    ensures
        (r == Ok::<bool, SdkError>(true)) == signature_holds(
            hash_hex.spec_bytes(),
            public_key_id@,
            signature@,
        ),
        r == signature_outcome(hash_hex.spec_bytes(), public_key_id@, signature@),
{
    let full_key = normalize_public_key(public_key_id);
    let key_bytes = match hex_decode(full_key.as_str()) {
        Ok(b) => b,
        Err(_) => {
            return Err(SdkError::InvalidHex);
        },
    };
    let signature_bytes = match hex_decode(signature) {
        Ok(b) => b,
        Err(_) => {
            return Err(SdkError::InvalidHex);
        },
    };
    let digest = compute_digest_from_hash(hash_hex);
    match ecdsa_verify(key_bytes.as_slice(), signature_bytes.as_slice(), &digest) {
        Ok(b) => Ok(b),
        Err(_) => Err(SdkError::CryptoError),
    }
}

/// Checks one proof against a value.
pub fn verify_signature(data: &serde_json::Value, proof: &SignatureProof, is_data_update: bool) -> (r:
    Result<bool, SdkError>)
    ensures
        (r == Ok::<bool, SdkError>(true)) == proof_holds(
            value_hash_text(*data, is_data_update),
            *proof,
        ),
        r == signature_outcome(
            value_hash_text(*data, is_data_update),
            proof.id@,
            proof.signature@,
        ),
{
    let bytes = to_bytes(data, is_data_update)?;
    let hash = hash_bytes(bytes.as_slice());
    let text = hash.value.as_str();
    proof {
        lemma_hex_str_bytes(text, hash.bytes@);
    }
    verify_hash(text, proof.signature.as_str(), proof.id.as_str())
}

/// Checks every proof of a signed value. Proofs that fail, or cannot even
/// be read, are listed as invalid; the object is valid when it has at least
/// one proof and all of them hold.
pub fn verify(signed: &Signed<serde_json::Value>, is_data_update: bool) -> (r: VerificationResult)
    ensures
        r.valid_proofs@ == passing(value_hash_text(signed.value, is_data_update), signed.proofs@),
        r.invalid_proofs@ == failing(
            value_hash_text(signed.value, is_data_update),
            signed.proofs@,
        ),
        r.well_formed(),
{
    let ghost h = value_hash_text(signed.value, is_data_update);
    let bytes = match to_bytes(&signed.value, is_data_update) {
        Ok(b) => b,
        Err(_) => {
            assert(false);
            Vec::new()
        },
    };
    let hash = hash_bytes(bytes.as_slice());
    let text = hash.value.as_str();
    proof {
        lemma_hex_str_bytes(text, hash.bytes@);
    }
    let mut valid_proofs: Vec<SignatureProof> = Vec::new();
    let mut invalid_proofs: Vec<SignatureProof> = Vec::new();
    let mut i: usize = 0;
    while i < signed.proofs.len()
        invariant
            i <= signed.proofs@.len(),
            text.spec_bytes() == h,
            valid_proofs@ == passing(h, signed.proofs@.subrange(0, i as int)),
            invalid_proofs@ == failing(h, signed.proofs@.subrange(0, i as int)),
        decreases signed.proofs.len() - i,
    {
        let proof = &signed.proofs[i];
        let holds = match verify_hash(text, proof.signature.as_str(), proof.id.as_str()) {
            Ok(true) => true,
            _ => false,
        };
        assert(signed.proofs@.subrange(0, i + 1).drop_last() =~= signed.proofs@.subrange(
            0,
            i as int,
        ));
        if holds {
            valid_proofs.push(copy_proof(proof));
        } else {
            invalid_proofs.push(copy_proof(proof));
        }
        i = i + 1;
    }
    assert(signed.proofs@.subrange(0, signed.proofs@.len() as int) =~= signed.proofs@);
    let is_valid = invalid_proofs.len() == 0 && valid_proofs.len() > 0;
    VerificationResult { is_valid, valid_proofs, invalid_proofs }
}

} // verus!
