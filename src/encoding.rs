//! Text encodings used across the library: hex and unsigned decimal.

use vstd::prelude::*;

verus! {

/// The lower-case hex digit of a value below 16.
pub open spec fn hex_digit(n: int) -> char {
    if n < 10 {
        (n + 48) as char
    } else {
        (n + 87) as char
    }
}

/// Lower-case hex text of a byte string, high nibble first.
pub open spec fn hex_text(b: Seq<u8>) -> Seq<char> {
    Seq::new(
        2 * b.len(),
        |i: int|
            if i % 2 == 0 {
                hex_digit(b[i / 2] as int / 16)
            } else {
                hex_digit(b[i / 2] as int % 16)
            },
    )
}

pub open spec fn is_hex_char(c: char) -> bool {
    ('0' <= c && c <= '9') || ('a' <= c && c <= 'f') || ('A' <= c && c <= 'F')
}

/// All characters are hex digits, of either case.
pub open spec fn all_hex(s: Seq<char>) -> bool {
    forall|i: int| 0 <= i < s.len() ==> is_hex_char(#[trigger] s[i])
}

pub open spec fn hex_value(c: char) -> int {
    if '0' <= c && c <= '9' {
        c as int - 48
    } else if 'a' <= c && c <= 'f' {
        c as int - 87
    } else {
        c as int - 55
    }
}

/// The text is an even number of hex digits.
pub open spec fn hex_decodes(s: Seq<char>) -> bool {
    s.len() % 2 == 0 && all_hex(s)
}

/// The bytes that a run of hex digit pairs stands for.
pub open spec fn hex_bytes(s: Seq<char>) -> Seq<u8> {
    Seq::new(s.len() / 2, |j: int| (hex_value(s[2 * j]) * 16 + hex_value(s[2 * j + 1])) as u8)
}

/// Hex text written by `hex_text` decodes back to the bytes it was made from.
pub proof fn lemma_hex_round_trip(b: Seq<u8>)
    ensures
        hex_decodes(hex_text(b)),
        hex_bytes(hex_text(b)) =~= b,
        hex_text(b).len() == 2 * b.len(),
{
    let t = hex_text(b);
    assert forall|i: int| 0 <= i < t.len() implies is_hex_char(#[trigger] t[i]) by {
        let x = b[i / 2] as int;
        assert(x / 16 < 16 && x % 16 < 16);
    }
    assert forall|j: int| 0 <= j < b.len() implies #[trigger] hex_bytes(t)[j] == b[j] by {
        assert((2 * j) / 2 == j && (2 * j) % 2 == 0);
        assert((2 * j + 1) / 2 == j && (2 * j + 1) % 2 == 1);
        let x = b[j] as int;
        assert(hex_value(hex_digit(x / 16)) == x / 16);
        assert(hex_value(hex_digit(x % 16)) == x % 16);
        assert((x / 16) * 16 + x % 16 == x);
    }
}

/// The hex of a run of bytes is the matching run of the hex text.
pub proof fn lemma_hex_text_subrange(b: Seq<u8>, i: int, j: int)
    requires
        0 <= i <= j <= b.len(),
    ensures
        hex_text(b).subrange(2 * i, 2 * j) == hex_text(b.subrange(i, j)),
{
    let l = hex_text(b).subrange(2 * i, 2 * j);
    let r = hex_text(b.subrange(i, j));
    assert forall|k: int| 0 <= k < 2 * (j - i) implies l[k] == r[k] by {
        assert((2 * i + k) / 2 == i + k / 2);
        assert((2 * i + k) % 2 == k % 2);
    }
    assert(l =~= r);
}

/// Hex text is plain ASCII, so each character is one byte.
pub proof fn lemma_hex_text_ascii(b: Seq<u8>)
    ensures
        forall|i: int| 0 <= i < hex_text(b).len() ==> (#[trigger] hex_text(b)[i] as int) < 128,
{
    assert forall|i: int| 0 <= i < hex_text(b).len() implies (#[trigger] hex_text(b)[i] as int)
        < 128 by {
        let x = b[i / 2] as int;
        assert(x / 16 < 16 && x % 16 < 16);
    }
}

#[verifier::external_type_specification]
#[verifier::external_body]
pub struct ExFromHexError(hex::FromHexError);

/// Relies on `hex::encode`: two lower-case digits per byte, high nibble first.
#[verifier::external_body]
pub(crate) fn hex_encode(b: &[u8]) -> (r: String)
    ensures
        r@ == hex_text(b@),
{
    hex::encode(b)
}

/// Relies on `hex::decode`: succeeds exactly on an even number of hex digits
/// of either case, and then gives one byte per pair.
#[verifier::external_body]
pub(crate) fn hex_decode(s: &str) -> (r: Result<Vec<u8>, hex::FromHexError>)
    ensures
        r.is_ok() == hex_decodes(s@),
        r matches Ok(b) ==> b@ == hex_bytes(s@),
{
    hex::decode(s)
}

/// Decimal text of a natural number, most significant digit first, no
/// leading zeros.
pub open spec fn decimal_text(n: nat) -> Seq<u8>
    decreases n,
{
    if n < 10 {
        seq![(n + 48) as u8]
    } else {
        decimal_text(n / 10).push((n % 10 + 48) as u8)
    }
}

/// Appends the decimal text of `n` to `out`.
pub fn push_decimal(out: &mut Vec<u8>, n: usize)
    ensures
        final(out)@ == old(out)@ + decimal_text(n as nat),
    decreases n,
{
    if n >= 10 {
        push_decimal(out, n / 10);
    }
    let ghost before = out@;
    out.push((n % 10) as u8 + 48);
    proof {
        if n >= 10 {
            assert(out@ =~= old(out)@ + decimal_text(n as nat));
        } else {
            assert(out@ =~= old(out)@ + decimal_text(n as nat));
        }
    }
}

pub open spec fn is_digit(b: u8) -> bool {
    48 <= b <= 57
}

/// Value of a run of decimal digits.
pub open spec fn digits_value(s: Seq<u8>) -> nat
    decreases s.len(),
{
    if s.len() == 0 {
        0
    } else {
        digits_value(s.drop_last()) * 10 + (s.last() - 48) as nat
    }
}

/// The digits of an unsigned number's text, after an optional leading `+`.
pub open spec fn unsigned_digits(s: Seq<u8>) -> Seq<u8> {
    if s.len() > 0 && s[0] == 43 {
        s.drop_first()
    } else {
        s
    }
}

/// The text is an unsigned number that fits in `usize`: an optional `+`,
/// then one or more decimal digits.
pub open spec fn parses_as_usize(s: Seq<u8>) -> bool {
    let d = unsigned_digits(s);
    &&& d.len() > 0
    &&& forall|i: int| 0 <= i < d.len() ==> is_digit(#[trigger] d[i])
    &&& digits_value(d) <= usize::MAX
}

proof fn lemma_digits_value_grows(s: Seq<u8>, i: int, j: int)
    requires
        0 <= i <= j <= s.len(),
        forall|k: int| 0 <= k < s.len() ==> is_digit(#[trigger] s[k]),
    ensures
        digits_value(s.subrange(0, i)) <= digits_value(s.subrange(0, j)),
    decreases j - i,
{
    if i < j {
        lemma_digits_value_grows(s, i, j - 1);
        assert(s.subrange(0, j).drop_last() =~= s.subrange(0, j - 1));
    }
}

/// Reads an unsigned decimal number, with an optional leading `+`, that
/// fits in `usize`.
pub fn parse_usize(s: &[u8]) -> (r: Option<usize>)
    ensures
        r.is_some() == parses_as_usize(s@),
        r matches Some(v) ==> v == digits_value(unsigned_digits(s@)),
{
    let start: usize = if s.len() > 0 && s[0] == 43 {
        1
    } else {
        0
    };
    let ghost d = unsigned_digits(s@);
    assert(d =~= s@.subrange(start as int, s@.len() as int));
    if start >= s.len() {
        return None;
    }
    let mut i: usize = start;
    while i < s.len()
        invariant
            start <= i <= s.len(),
            d == unsigned_digits(s@),
            d =~= s@.subrange(start as int, s@.len() as int),
            forall|k: int| start <= k < i ==> is_digit(#[trigger] s@[k]),
        decreases s.len() - i,
    {
        if !(48 <= s[i] && s[i] <= 57) {
            assert(d[(i - start) as int] == s@[i as int]);
            assert(!is_digit(d[(i - start) as int]));
            return None;
        }
        i = i + 1;
    }
    assert forall|k: int| 0 <= k < d.len() implies is_digit(#[trigger] d[k]) by {
        assert(d[k] == s@[k + start]);
    }
    let mut acc: usize = 0;
    let mut i: usize = start;
    while i < s.len()
        invariant
            start <= i <= s.len(),
            d == unsigned_digits(s@),
            d =~= s@.subrange(start as int, s@.len() as int),
            forall|k: int| 0 <= k < d.len() ==> is_digit(#[trigger] d[k]),
            acc == digits_value(d.subrange(0, i - start)),
        decreases s.len() - i,
    {
        let ghost j = (i - start) as int;
        assert(d.subrange(0, j + 1).drop_last() =~= d.subrange(0, j));
        assert(d[j] == s@[i as int]);
        let digit: usize = (s[i] - 48) as usize;
        if acc > usize::MAX / 10 || acc * 10 > usize::MAX - digit {
            proof {
                let q = usize::MAX / 10;
                if acc > q {
                    assert(acc * 10 >= (q + 1) * 10) by (nonlinear_arith)
                        requires
                            acc >= q + 1,
                    ;
                }
                assert(digits_value(d.subrange(0, j + 1)) > usize::MAX);
                lemma_digits_value_grows(d, j + 1, d.len() as int);
                assert(d.subrange(0, d.len() as int) =~= d);
            }
            return None;
        }
        acc = acc * 10 + digit;
        i = i + 1;
    }
    assert(d.subrange(0, d.len() as int) =~= d);
    Some(acc)
}

} // verus!
