//! SHA-256 content hashes and the network's signing digest: SHA-256, its
//! lower-case hex text, SHA-512 of that text, first 32 bytes.

use crate::binary::{signing_bytes, to_bytes};
use crate::encoding::{hex_encode, hex_text, lemma_hex_text_ascii};
use crate::outside::{sha256, sha256_of, sha512, sha512_of};
use crate::types::SdkError;
use vstd::prelude::*;
use vstd::string::StringSliceAdditionalSpecFns;

verus! {

broadcast use vstd::string::group_string_axioms;

/// Bytes of a text whose characters are all ASCII.
pub open spec fn ascii_bytes(s: Seq<char>) -> Seq<u8> {
    Seq::new(s.len(), |i: int| s[i] as u8)
}

/// The signing digest of an already computed hash text.
pub open spec fn digest_of_hex(hash_text: Seq<u8>) -> Seq<u8> {
    sha512_of(hash_text).subrange(0, 32)
}

/// Lower-case hex text of the SHA-256 of some bytes.
pub open spec fn content_hash_hex(data: Seq<u8>) -> Seq<char> {
    hex_text(sha256_of(data))
}

/// The digest that gets signed for some bytes.
pub open spec fn signing_digest(data: Seq<u8>) -> Seq<u8> {
    digest_of_hex(ascii_bytes(content_hash_hex(data)))
}

/// The bytes of a hex string are its characters.
pub proof fn lemma_hex_str_bytes(s: &str, b: Seq<u8>)
    requires
        s@ == hex_text(b),
    ensures
        s.spec_bytes() == ascii_bytes(s@),
{
    lemma_hex_text_ascii(b);
    assert(vstd::string::is_ascii(s));
    assert(s.spec_bytes() =~= ascii_bytes(s@));
}

/// SHA-256 of raw bytes, as hex text and as bytes.
pub fn hash_bytes(data: &[u8]) -> (r: crate::types::Hash)
    ensures
        r.bytes@ == sha256_of(data@),
        r.value@ == content_hash_hex(data@),
        r.value@.len() == 64,
        r.bytes@.len() == 32,
{
    let bytes = sha256(data);
    let value = hex_encode(bytes.as_slice());
    crate::types::Hash { value, bytes }
}

/// SHA-256 of a value's signing bytes.
pub fn hash_data(data: &serde_json::Value, is_data_update: bool) -> (r: Result<crate::types::Hash, SdkError>)
    ensures
        r matches Ok(h) && h.value@ == content_hash_hex(signing_bytes(*data, is_data_update))
            && h.bytes@ == sha256_of(signing_bytes(*data, is_data_update)) && h.value@.len() == 64
            && h.bytes@.len() == 32,
{
    let bytes = to_bytes(data, is_data_update)?;
    Ok(hash_bytes(bytes.as_slice()))
}

/// Digest of a hash given as text: SHA-512 of the text's bytes, truncated
/// to 32 bytes.
pub fn compute_digest_from_hash(hash_hex: &str) -> (r: [u8; 32])
    ensures
        r@ == digest_of_hex(hash_hex.spec_bytes()),
{
    let long = sha512(hash_hex.as_bytes());
    let mut digest = [0u8; 32];
    let mut i: usize = 0;
    while i < 32
        invariant
            i <= 32,
            long@.len() == 64,
            forall|k: int| 0 <= k < i ==> digest@[k] == long@[k],
        decreases 32 - i,
    {
        digest[i] = long[i];
        i = i + 1;
    }
    assert(digest@ =~= long@.subrange(0, 32));
    digest
}

/// The signing digest of raw bytes.
pub fn compute_digest_from_bytes(data: &[u8]) -> (r: [u8; 32])
    ensures
        r@ == signing_digest(data@),
{
    let hash = hash_bytes(data);
    let text = hash.value.as_str();
    proof {
        lemma_hex_str_bytes(text, hash.bytes@);
    }
    compute_digest_from_hash(text)
}

/// The signing digest of a value.
pub fn compute_digest(data: &serde_json::Value, is_data_update: bool) -> (r: Result<
    [u8; 32],
    SdkError,
>)
    ensures
        r matches Ok(d) && d@ == signing_digest(signing_bytes(*data, is_data_update)),
{
    let bytes = to_bytes(data, is_data_update)?;
    Ok(compute_digest_from_bytes(bytes.as_slice()))
}

} // verus!
