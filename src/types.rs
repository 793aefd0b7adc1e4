//! The library's data: key pairs, hashes, proofs, signed objects and errors.

use vstd::prelude::*;

verus! {

/// A secp256k1 key pair as hex text, with the network address of its public
/// point.
#[derive(Clone, Debug)]
pub struct KeyPair {
    /// The secret scalar: 64 hex characters.
    pub private_key: String,
    /// The uncompressed public point: 130 hex characters led by `04`.
    pub public_key: String,
    /// `DAG` followed by the base58 text of the point's SHA-256.
    pub address: String,
}

/// A SHA-256 result, as hex text and as raw bytes.
#[derive(Clone, Debug)]
pub struct Hash {
    pub value: String,
    pub bytes: Vec<u8>,
}

/// One signer's attestation: the public-key identifier (128 hex characters,
/// no `04` marker) and the DER signature in hex.
#[derive(Clone, Debug)]
pub struct SignatureProof {
    pub id: String,
    pub signature: String,
}

/// A value with the proofs over it, in the order they were added.
#[derive(Clone, Debug)]
pub struct Signed<T> {
    pub value: T,
    pub proofs: Vec<SignatureProof>,
}

/// The outcome of checking every proof of a signed value.
#[derive(Clone, Debug)]
pub struct VerificationResult {
    pub is_valid: bool,
    pub valid_proofs: Vec<SignatureProof>,
    pub invalid_proofs: Vec<SignatureProof>,
}

impl VerificationResult {
    /// The object is valid when at least one proof holds and none fails.
    pub open spec fn well_formed(&self) -> bool {
        self.is_valid == (self.invalid_proofs@.len() == 0 && self.valid_proofs@.len() > 0)
    }
}

/// What is wrong with a data-update frame.
#[derive(Clone, Copy, Debug, PartialEq, Eq)]
pub enum FrameError {
    /// The frame does not start with the data-update prefix.
    MissingPrefix,
    /// No newline ends the length field.
    MissingSeparator,
    /// The length field is not an unsigned number.
    InvalidLength,
    /// The body is not standard padded base64.
    InvalidBase64,
}

/// Errors of the library's operations.
#[derive(Clone, Copy, Debug, PartialEq, Eq)]
pub enum SdkError {
    /// JSON text could not be written or read as a value.
    SerializationError,
    /// A data-update frame is malformed.
    InvalidDataUpdate(FrameError),
    /// A private key is not 64 hex characters.
    InvalidPrivateKey,
    /// Text that should be hex is not an even run of hex digits.
    InvalidHex,
    /// The curve library rejected a key or a signature.
    CryptoError,
    /// Batch signing was given no keys.
    NoPrivateKeys,
}

/// Returns an independent copy of a proof.
pub fn copy_proof(p: &SignatureProof) -> (r: SignatureProof)
    ensures
        r == *p,
{
    SignatureProof { id: p.id.clone(), signature: p.signature.clone() }
}

} // verus!
