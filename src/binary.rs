//! Bytes that get hashed: canonical JSON, optionally wrapped in the
//! data-update frame.

use crate::encoding::{decimal_text, push_decimal};
use crate::outside::{base64_encode, base64_text_of, canonical_json, json_encode};
use crate::types::SdkError;
use vstd::prelude::*;

verus! {

/// The frame's fixed prefix: byte 0x19, `Constellation Signed Data:`, newline.
pub open spec fn data_update_prefix() -> Seq<u8> {
    seq![25, 67, 111, 110, 115, 116, 101, 108, 108, 97, 116, 105, 111, 110, 32, 83, 105, 103, 110, 101, 100, 32, 68, 97, 116, 97, 58, 10]
}

/// The data-update frame around canonical bytes: the prefix, the decimal
/// length of the base64 body, a newline, and the base64 body.
pub open spec fn frame(canonical: Seq<u8>) -> Seq<u8> {
    let text = base64_text_of(canonical);
    data_update_prefix() + decimal_text(text.len()) + seq![10u8] + text
}

/// What gets hashed for a value: its canonical JSON, framed for a data update.
pub open spec fn signing_bytes(v: serde_json::Value, is_data_update: bool) -> Seq<u8> {
    if is_data_update {
        frame(canonical_json(v))
    } else {
        canonical_json(v)
    }
}

/// The frame's prefix, as bytes.
pub fn prefix_bytes() -> (r: Vec<u8>)
    ensures
        r@ == data_update_prefix(),
{
    let r: Vec<u8> = vec![25u8, 67, 111, 110, 115, 116, 101, 108, 108, 97, 116, 105, 111, 110, 32, 83, 105, 103, 110, 101, 100, 32, 68, 97, 116, 97, 58, 10];
    assert(r@ =~= data_update_prefix());
    r
}

/// Canonical JSON bytes of a value: sorted keys, no insignificant whitespace.
pub fn canonicalize(v: &serde_json::Value) -> (r: Result<Vec<u8>, SdkError>)
    ensures
        r matches Ok(b) && b@ == canonical_json(*v),
{
    match json_encode(v) {
        Ok(b) => Ok(b),
        Err(_) => Err(SdkError::SerializationError),
    }
}

/// Wraps canonical bytes in the data-update frame.
pub fn frame_data_update(canonical: &[u8]) -> (r: Vec<u8>)
    ensures
        r@ == frame(canonical@),
        r@.len() > canonical@.len(),
{
    let text = base64_encode(canonical);
    let mut out = prefix_bytes();
    push_decimal(&mut out, text.len());
    out.push(10);
    let mut i: usize = 0;
    let ghost head = out@;
    while i < text.len()
        invariant
            i <= text@.len(),
            out@ =~= head + text@.subrange(0, i as int),
        decreases text.len() - i,
    {
        out.push(text[i]);
        i = i + 1;
    }
    assert(text@.subrange(0, text@.len() as int) =~= text@);
    assert(4 * ((canonical@.len() + 2) / 3) >= canonical@.len());
    out
}

/// The bytes to hash for a value: canonical JSON, framed when the value is a
/// data update.
pub fn to_bytes(data: &serde_json::Value, is_data_update: bool) -> (r: Result<Vec<u8>, SdkError>)
    ensures
        r matches Ok(b) && b@ == signing_bytes(*data, is_data_update),
        r matches Ok(b) && (is_data_update ==> b@ != canonical_json(*data)),
{
    let canonical = canonicalize(data)?;
    if is_data_update {
        Ok(frame_data_update(canonical.as_slice()))
    } else {
        Ok(canonical)
    }
}

/// The framed bytes of a data update; the same as `to_bytes(data, true)`.
pub fn encode_data_update(data: &serde_json::Value) -> (r: Result<Vec<u8>, SdkError>)
    ensures
        r matches Ok(b) && b@ == frame(canonical_json(*data)),
{
    to_bytes(data, true)
}

} // verus!
