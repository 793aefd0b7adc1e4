//! Reading a data-update frame back into a value.

use crate::binary::{data_update_prefix, frame, prefix_bytes};
use crate::encoding::{decimal_text, digits_value, is_digit, parse_usize, parses_as_usize, unsigned_digits};
use crate::outside::{base64_decode, base64_text_of, canonical_json, json_decode, json_reads};
use crate::types::{FrameError, SdkError};
use vstd::prelude::*;

verus! {

pub open spec fn prefix_len() -> int {
    data_update_prefix().len() as int
}

pub open spec fn has_prefix(data: Seq<u8>) -> bool {
    data.len() >= prefix_len() && data.subrange(0, prefix_len()) == data_update_prefix()
}

/// What follows the prefix.
pub open spec fn after_prefix(data: Seq<u8>) -> Seq<u8> {
    data.subrange(prefix_len(), data.len() as int)
}

/// `i` is the position of the first newline in `s`.
pub open spec fn first_newline(s: Seq<u8>, i: int) -> bool {
    &&& 0 <= i < s.len()
    &&& s[i] == 10
    &&& forall|j: int| 0 <= j < i ==> s[j] != 10
}

pub open spec fn has_newline(s: Seq<u8>) -> bool {
    exists|i: int| 0 <= i < s.len() && s[i] == 10
}

/// End of the length field: the first newline after the prefix.
pub open spec fn length_end(data: Seq<u8>) -> int {
    choose|i: int| first_newline(after_prefix(data), i)
}

/// The length field of a frame.
pub open spec fn length_field(data: Seq<u8>) -> Seq<u8> {
    after_prefix(data).subrange(0, length_end(data))
}

/// The base64 body of a frame: everything after the length field's newline.
pub open spec fn frame_body(data: Seq<u8>) -> Seq<u8> {
    after_prefix(data).subrange(length_end(data) + 1, after_prefix(data).len() as int)
}

/// The first defect of a frame's outer shape, checked in order: the prefix,
/// the newline after the length, the length itself.
pub open spec fn frame_error(data: Seq<u8>) -> Option<FrameError> {
    if !has_prefix(data) {
        Some(FrameError::MissingPrefix)
    } else if !has_newline(after_prefix(data)) {
        Some(FrameError::MissingSeparator)
    } else if !parses_as_usize(length_field(data)) {
        Some(FrameError::InvalidLength)
    } else {
        None
    }
}

proof fn lemma_first_newline_unique(s: Seq<u8>, i: int, k: int)
    requires
        first_newline(s, i),
        first_newline(s, k),
    ensures
        i == k,
{
    if i < k {
        assert(s[i] != 10);
    } else if k < i {
        assert(s[k] != 10);
    }
}

proof fn lemma_decimal_text_reads_back(n: nat)
    ensures
        decimal_text(n).len() > 0,
        forall|i: int| 0 <= i < decimal_text(n).len() ==> is_digit(#[trigger] decimal_text(n)[i]),
        digits_value(decimal_text(n)) == n,
    decreases n,
{
    if n >= 10 {
        lemma_decimal_text_reads_back(n / 10);
        assert(decimal_text(n).drop_last() =~= decimal_text(n / 10));
        assert(decimal_text(n).last() == (n % 10 + 48) as u8);
        assert((n / 10) * 10 + n % 10 == n);
        assert(digits_value(decimal_text(n)) == digits_value(decimal_text(n / 10)) * 10 + (n
            % 10) as nat);
        assert forall|i: int| 0 <= i < decimal_text(n).len() implies is_digit(
            #[trigger] decimal_text(n)[i],
        ) by {
            if i < decimal_text(n).len() - 1 {
                assert(decimal_text(n)[i] == decimal_text(n / 10)[i]);
            }
        }
    } else {
        assert(decimal_text(n).drop_last() =~= Seq::<u8>::empty());
        assert(digits_value(Seq::<u8>::empty()) == 0);
        assert(digits_value(decimal_text(n)) == digits_value(Seq::<u8>::empty()) * 10 + n);
    }
}

/// A frame written by `frame` has the right shape, and its body is the
/// base64 text it was written with.
pub proof fn lemma_frame_shape(canonical: Seq<u8>)
    requires
        frame(canonical).len() <= usize::MAX,
    ensures
        frame_error(frame(canonical)) is None,
        frame_body(frame(canonical)) == base64_text_of(canonical),
{
    let f = frame(canonical);
    let text = base64_text_of(canonical);
    let digits = decimal_text(text.len());
    lemma_decimal_text_reads_back(text.len());
    assert(f.subrange(0, prefix_len()) =~= data_update_prefix());
    let rest = after_prefix(f);
    assert(rest =~= digits + seq![10u8] + text);
    let n = digits.len() as int;
    assert(first_newline(rest, n)) by {
        assert forall|j: int| 0 <= j < n implies rest[j] != 10 by {
            assert(rest[j] == digits[j]);
            assert(is_digit(digits[j]));
        }
    }
    let e = length_end(f);
    lemma_first_newline_unique(rest, e, n);
    assert(length_field(f) =~= digits);
    assert(is_digit(digits[0]));
    assert(unsigned_digits(digits) == digits);
    assert(frame_body(f) =~= text);
}

/// Checks a data-update frame and decodes its base64 body.
pub fn parse_data_update(data: &[u8]) -> (r: Result<Vec<u8>, SdkError>)
    ensures
        frame_error(data@) matches Some(e) ==> r == Err::<Vec<u8>, SdkError>(
            SdkError::InvalidDataUpdate(e),
        ),
        frame_error(data@) is None ==> {
            &&& r matches Ok(b) ==> base64_text_of(b@) == frame_body(data@)
            &&& forall|b: Seq<u8>|
                #[trigger] base64_text_of(b) == frame_body(data@) ==> (r matches Ok(x) && x@ == b)
            &&& r matches Err(e) ==> e == SdkError::InvalidDataUpdate(FrameError::InvalidBase64)
        },
{
    let prefix = prefix_bytes();
    let plen = prefix.len();
    if data.len() < plen {
        return Err(SdkError::InvalidDataUpdate(FrameError::MissingPrefix));
    }
    let mut i: usize = 0;
    while i < plen
        invariant
            i <= plen <= data.len(),
            plen == prefix@.len(),
            prefix@ == data_update_prefix(),
            forall|k: int| 0 <= k < i ==> data@[k] == prefix@[k],
        decreases plen - i,
    {
        if data[i] != prefix[i] {
            assert(data@.subrange(0, prefix_len())[i as int] != data_update_prefix()[i as int]);
            return Err(SdkError::InvalidDataUpdate(FrameError::MissingPrefix));
        }
        i = i + 1;
    }
    assert(data@.subrange(0, prefix_len()) =~= data_update_prefix());
    let ghost rest = after_prefix(data@);
    let mut nl: usize = plen;
    while nl < data.len() && data[nl] != 10
        invariant
            plen == prefix_len(),
            plen <= nl <= data.len(),
            rest == after_prefix(data@),
            rest =~= data@.subrange(plen as int, data@.len() as int),
            forall|j: int| 0 <= j < nl - plen ==> rest[j] != 10,
        decreases data.len() - nl,
    {
        assert(rest[(nl - plen) as int] == data@[nl as int]);
        nl = nl + 1;
    }
    if nl == data.len() {
        assert(!has_newline(rest)) by {
            assert forall|j: int| 0 <= j < rest.len() implies rest[j] != 10 by {}
        }
        return Err(SdkError::InvalidDataUpdate(FrameError::MissingSeparator));
    }
    let ghost n = (nl - plen) as int;
    assert(first_newline(rest, n));
    assert(has_newline(rest));
    proof {
        lemma_first_newline_unique(rest, length_end(data@), n);
    }
    let field = slice_subrange(data, plen, nl);
    assert(field@ =~= length_field(data@));
    if parse_usize(field.as_slice()).is_none() {
        return Err(SdkError::InvalidDataUpdate(FrameError::InvalidLength));
    }
    let body = slice_subrange(data, nl + 1, data.len());
    assert(body@ =~= frame_body(data@));
    match base64_decode(body.as_slice()) {
        Ok(b) => Ok(b),
        Err(_) => Err(SdkError::InvalidDataUpdate(FrameError::InvalidBase64)),
    }
}

/// Decodes a data-update frame back to the value it carries. The length
/// field must be an unsigned number but is not compared with the body. A
/// frame whose body is the base64 of a value's canonical JSON decodes to that
/// value, unless the JSON reader refuses the text (it stops at 128 levels of
/// nesting), which is a serialization error.
pub fn decode_data_update(data: &[u8]) -> (r: Result<serde_json::Value, SdkError>)
    ensures
        frame_error(data@) matches Some(e) ==> r == Err::<serde_json::Value, SdkError>(
            SdkError::InvalidDataUpdate(e),
        ),
        frame_error(data@) is None && (forall|b: Seq<u8>|
            #[trigger] base64_text_of(b) != frame_body(data@)) ==> r
            == Err::<serde_json::Value, SdkError>(
            SdkError::InvalidDataUpdate(FrameError::InvalidBase64),
        ),
        forall|b: Seq<u8>|
            frame_error(data@) is None && #[trigger] base64_text_of(b) == frame_body(data@) ==> {
                &&& r is Ok == json_reads(b)
                &&& r is Err ==> r == Err::<serde_json::Value, SdkError>(
                    SdkError::SerializationError,
                )
            },
        forall|v: serde_json::Value|
            frame_error(data@) is None && #[trigger] base64_text_of(canonical_json(v))
                == frame_body(data@) && json_reads(canonical_json(v)) ==> r == Ok::<
                serde_json::Value,
                SdkError,
            >(v),
        forall|v: serde_json::Value|
            #[trigger] frame(canonical_json(v)) == data@ ==> if json_reads(canonical_json(v)) {
                r == Ok::<serde_json::Value, SdkError>(v)
            } else {
                r == Err::<serde_json::Value, SdkError>(SdkError::SerializationError)
            },
{
    let len = data.len();
    let parsed = parse_data_update(data);
    proof {
        assert forall|v: serde_json::Value| #[trigger]
            frame(canonical_json(v)) == data@ implies frame_error(data@) is None
            && base64_text_of(canonical_json(v)) == frame_body(data@) by {
            assert(frame(canonical_json(v)).len() == len);
            lemma_frame_shape(canonical_json(v));
        }
    }
    let bytes = match parsed {
        Ok(b) => b,
        Err(e) => {
            return Err(e);
        },
    };
    match json_decode(bytes.as_slice()) {
        Ok(v) => Ok(v),
        Err(_) => Err(SdkError::SerializationError),
    }
}

/// A sub-slice copied into a vector.
fn slice_subrange(data: &[u8], from: usize, to: usize) -> (r: Vec<u8>)
    requires
        from <= to <= data@.len(),
    ensures
        r@ == data@.subrange(from as int, to as int),
{
    let mut out: Vec<u8> = Vec::new();
    let mut i: usize = from;
    while i < to
        invariant
            from <= i <= to <= data@.len(),
            out@ =~= data@.subrange(from as int, i as int),
        decreases to - i,
    {
        out.push(data[i]);
        i = i + 1;
    }
    out
}

} // verus!
