//! Signing and verification for a ledger network: canonical encoding of
//! structured values, data-update framing, the signing digest, ECDSA proofs
//! over secp256k1, multi-signature objects and wallet addresses.

pub mod encoding;
pub mod outside;
pub mod types;
pub mod binary;
pub mod codec;
pub mod hash;
pub mod wallet;
pub mod sign;
pub mod verify;
pub mod signed_object;
pub mod laws;
pub mod network;
