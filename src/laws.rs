//! Laws that relate the library's operations to one another.

use crate::encoding::lemma_hex_round_trip;
use crate::sign::{proof_by, value_digest};
use crate::types::{SignatureProof, VerificationResult};
use crate::outside::ecdsa_signature_of;
use crate::verify::{failing, passing, proof_holds, signature_outcome, value_hash_text};
use crate::wallet::{byte_len, lemma_byte_len_push_front, lemma_id_restores_point, with_marker};
use vstd::prelude::*;
use vstd::utf8::is_ascii_chars;

verus! {

/// A proof made by signing a value holds when checked against that same
/// value with the same data-update flag; a signed object with that single
/// proof therefore verifies.
pub proof fn sign_then_verify(
    p: SignatureProof,
    secret: Seq<u8>,
    v: serde_json::Value,
    is_data_update: bool,
)
    requires
        proof_by(p, secret, v, is_data_update),
    ensures
        proof_holds(value_hash_text(v, is_data_update), p),
        passing(value_hash_text(v, is_data_update), seq![p]) == seq![p],
        failing(value_hash_text(v, is_data_update), seq![p]).len() == 0,
{
    let h = value_hash_text(v, is_data_update);
    let der = ecdsa_signature_of(secret, value_digest(v, is_data_update));
    assert(proof_holds(h, p)) by {
        lemma_id_restores_point(secret);
        lemma_hex_round_trip(der);
    }
    let e = Seq::<SignatureProof>::empty();
    assert(seq![p].drop_last() =~= e);
    assert(seq![p].last() == p);
    assert(passing(h, e) == e);
    assert(failing(h, e) == e);
    assert(passing(h, seq![p]) == passing(h, e).push(p));
    assert(failing(h, seq![p]) == failing(h, e));
    assert(passing(h, seq![p]) =~= seq![p]);
    assert(failing(h, seq![p]) =~= Seq::<SignatureProof>::empty());
}

/// Proofs made by several signers over the same value, with the same flag,
/// all hold: none of them is reported invalid, and all are reported valid in
/// their order.
pub proof fn all_signers_verify(
    proofs: Seq<SignatureProof>,
    secrets: Seq<Seq<u8>>,
    v: serde_json::Value,
    is_data_update: bool,
)
    requires
        proofs.len() == secrets.len(),
        forall|i: int|
            0 <= i < proofs.len() ==> proof_by(
                #[trigger] proofs[i],
                secrets[i],
                v,
                is_data_update,
            ),
    ensures
        passing(value_hash_text(v, is_data_update), proofs) == proofs,
        failing(value_hash_text(v, is_data_update), proofs).len() == 0,
    decreases proofs.len(),
{
    let h = value_hash_text(v, is_data_update);
    if proofs.len() > 0 {
        let n = proofs.len() - 1;
        all_signers_verify(proofs.drop_last(), secrets.drop_last(), v, is_data_update);
        sign_then_verify(proofs[n], secrets[n], v, is_data_update);
        assert(passing(h, proofs) =~= proofs);
    }
}

/// A verification result that lists no valid proof, as one for an object
/// without proofs does, is never valid.
pub proof fn no_valid_proof_is_invalid(r: VerificationResult, hash_text: Seq<u8>)
    requires
        r.well_formed(),
        r.valid_proofs@ == passing(hash_text, Seq::<SignatureProof>::empty()),
    ensures
        !r.is_valid,
{
}

/// A proof that does not hold for the value is reported invalid, and a
/// result that reports it is not valid, whatever other proofs stand beside it.
pub proof fn failing_proof_invalidates(
    hash_text: Seq<u8>,
    proofs: Seq<SignatureProof>,
    i: int,
    r: VerificationResult,
)
    requires
        0 <= i < proofs.len(),
        !proof_holds(hash_text, proofs[i]),
        r.well_formed(),
        r.invalid_proofs@ == failing(hash_text, proofs),
    ensures
        failing(hash_text, proofs).contains(proofs[i]),
        !r.is_valid,
{
    lemma_failing_contains(hash_text, proofs, i);
}

proof fn lemma_failing_contains(hash_text: Seq<u8>, proofs: Seq<SignatureProof>, i: int)
    requires
        0 <= i < proofs.len(),
        !proof_holds(hash_text, proofs[i]),
    ensures
        failing(hash_text, proofs).contains(proofs[i]),
    decreases proofs.len(),
{
    let n = proofs.len() - 1;
    if i == n {
        assert(failing(hash_text, proofs).last() == proofs[i]);
    } else {
        let rest = proofs.drop_last();
        assert(rest[i] == proofs[i]);
        lemma_failing_contains(hash_text, rest, i);
        let k = choose|k: int|
            0 <= k < failing(hash_text, rest).len() && failing(hash_text, rest)[k] == proofs[i];
        assert(failing(hash_text, proofs)[k] == proofs[i]);
    }
}

/// A public-key identifier of 128 bytes and the same key with its `04`
/// marker name the same point, so checking a signature gives the same
/// outcome with either.
pub proof fn marker_is_optional(hash_text: Seq<u8>, id: Seq<char>, signature: Seq<char>)
    requires
        byte_len(id) == 128,
    ensures
        signature_outcome(hash_text, id, signature) == signature_outcome(
            hash_text,
            seq!['0', '4'] + id,
            signature,
        ),
{
    let full = seq!['0', '4'] + id;
    assert(is_ascii_chars(seq!['4']) && is_ascii_chars(seq!['0']));
    lemma_byte_len_push_front('4', id);
    lemma_byte_len_push_front('0', seq!['4'] + id);
    assert(seq!['0'] + (seq!['4'] + id) =~= full);
    assert(with_marker(id) =~= with_marker(full));
}

} // verus!
