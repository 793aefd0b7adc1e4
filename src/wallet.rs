//! Keys and addresses: key-format checks, public-key identifiers, base58
//! addresses, and key pairs drawn at random or derived from a secret.

use crate::encoding::{lemma_hex_text_subrange, all_hex, hex_bytes, hex_decode, hex_decodes, hex_encode, hex_text, is_hex_char, lemma_hex_round_trip};
use crate::outside::{be_value, compressed_point, compressed_point_of, public_point_of, random_secret, secret_in_range, sha256, sha256_of, uncompressed_point};
use crate::types::{KeyPair, SdkError};
use vstd::prelude::*;
use vstd::string::{StringExecFns, StringSliceAdditionalSpecFns};
use vstd::utf8::{encode_utf8, is_ascii_chars, is_ascii_chars_encode_utf8};

verus! {

broadcast use vstd::string::group_string_axioms;

/// 64 hex digits.
pub open spec fn is_private_key_text(s: Seq<char>) -> bool {
    s.len() == 64 && all_hex(s)
}

/// 128 or 130 hex digits.
pub open spec fn is_public_key_text(s: Seq<char>) -> bool {
    (s.len() == 128 || s.len() == 130) && all_hex(s)
}

/// Length of a text in UTF-8 bytes.
pub open spec fn byte_len(s: Seq<char>) -> nat {
    encode_utf8(s).len()
}

/// A public key with the `04` marker put back when it was left off: a text
/// of 128 bytes gets it.
pub open spec fn with_marker(s: Seq<char>) -> Seq<char> {
    if byte_len(s) == 128 {
        seq!['0', '4'] + s
    } else {
        s
    }
}

/// A public key with its `04` marker taken off: a text of 130 bytes that
/// starts with it loses it.
pub open spec fn without_marker(s: Seq<char>) -> Seq<char> {
    if byte_len(s) == 130 && s.len() >= 2 && s[0] == '0' && s[1] == '4' {
        s.subrange(2, s.len() as int)
    } else {
        s
    }
}

/// Text of ASCII characters takes one byte per character.
pub proof fn lemma_ascii_byte_len(s: Seq<char>)
    requires
        is_ascii_chars(s),
    ensures
        byte_len(s) == s.len(),
{
    is_ascii_chars_encode_utf8(s);
}

/// An ASCII character in front of a text adds one byte.
pub proof fn lemma_byte_len_push_front(c: char, s: Seq<char>)
    requires
        is_ascii_chars(seq![c]),
    ensures
        byte_len(seq![c] + s) == 1 + byte_len(s),
{
    lemma_ascii_byte_len(seq![c]);
    assert(seq![c].drop_first() =~= Seq::<char>::empty());
    assert((seq![c] + s).drop_first() =~= s);
    assert((seq![c] + s)[0] == c);
}

/// The characters of ASCII bytes.
pub open spec fn ascii_chars(b: Seq<u8>) -> Seq<char> {
    Seq::new(b.len(), |i: int| b[i] as char)
}

pub open spec fn base58_alphabet() -> Seq<u8> {
    seq![49u8, 50, 51, 52, 53, 54, 55, 56, 57, 65, 66, 67, 68, 69, 70, 71, 72, 74, 75, 76, 77, 78, 80, 81, 82, 83, 84, 85, 86, 87, 88, 89, 90, 97, 98, 99, 100, 101, 102, 103, 104, 105, 106, 107, 109, 110, 111, 112, 113, 114, 115, 116, 117, 118, 119, 120, 121, 122]
}

/// Number of zero bytes at the start.
pub open spec fn leading_zeros(b: Seq<u8>) -> nat
    decreases b.len(),
{
    if b.len() > 0 && b[0] == 0 {
        1 + leading_zeros(b.drop_first())
    } else {
        0
    }
}

/// Base-58 digits of a number, most significant first; none for zero.
pub open spec fn base58_digits(n: nat) -> Seq<nat>
    decreases n,
{
    if n == 0 {
        seq![]
    } else {
        base58_digits(n / 58).push(n % 58)
    }
}

/// A character of the base58 alphabet.
pub open spec fn is_base58_char(c: char) -> bool {
    exists|d: int| 0 <= d < 58 && c == base58_alphabet()[d] as char
}

/// Base58 text: one `1` per leading zero byte, then the digits of the
/// big-endian value in the alphabet.
pub open spec fn base58_text(b: Seq<u8>) -> Seq<u8> {
    Seq::new(leading_zeros(b), |i: int| 49u8) + base58_digits(be_value(b)).map_values(
        |d: nat| base58_alphabet()[d as int],
    )
}

/// The bytes a public key text stands for after its marker is restored, or
/// nothing when that text is not hex.
pub open spec fn address_key_bytes(public_key: Seq<char>) -> Seq<u8> {
    if hex_decodes(with_marker(public_key)) {
        hex_bytes(with_marker(public_key))
    } else {
        seq![]
    }
}

/// `DAG` followed by the base58 text of the key's SHA-256.
pub open spec fn address_text(public_key: Seq<char>) -> Seq<char> {
    seq!['D', 'A', 'G'] + ascii_chars(base58_text(sha256_of(address_key_bytes(public_key))))
}

/// Public-key identifier of a secret: the uncompressed point in hex, without
/// its leading `04`.
pub open spec fn public_key_id_of(secret: Seq<u8>) -> Seq<char> {
    hex_text(public_point_of(secret)).subrange(2, 130)
}

/// A key pair whose public key and address are those of its secret.
pub open spec fn consistent_key_pair(kp: KeyPair) -> bool {
    let secret = hex_bytes(kp.private_key@);
    &&& is_private_key_text(kp.private_key@)
    &&& secret_in_range(secret)
    &&& kp.public_key@ == hex_text(public_point_of(secret))
    &&& kp.address@ == address_text(kp.public_key@)
}

/// Relies on `String::from_utf8`, which keeps ASCII bytes as one character
/// each.
#[verifier::external_body]
pub(crate) fn ascii_to_string(b: Vec<u8>) -> (r: String)
    requires
        forall|i: int| 0 <= i < b@.len() ==> #[trigger] b@[i] < 128,
    ensures
        r@ == ascii_chars(b@),
{
    String::from_utf8(b).unwrap_or_default()
}

fn all_hex_chars(s: &str) -> (r: bool)
    ensures
        r == all_hex(s@),
{
    let n = s.unicode_len();
    let mut i: usize = 0;
    while i < n
        invariant
            n == s@.len(),
            i <= n,
            forall|k: int| 0 <= k < i ==> is_hex_char(#[trigger] s@[k]),
        decreases n - i,
    {
        let c = s.get_char(i);
        if !(('0' <= c && c <= '9') || ('a' <= c && c <= 'f') || ('A' <= c && c <= 'F')) {
            return false;
        }
        i = i + 1;
    }
    true
}

/// A private key is 64 hex digits. The scalar's range is not checked.
pub fn is_valid_private_key(private_key: &str) -> (r: bool)
    ensures
        r == is_private_key_text(private_key@),
{
    private_key.unicode_len() == 64 && all_hex_chars(private_key)
}

/// A public key is 128 hex digits, or 130 with its marker. Whether the point
/// lies on the curve is not checked.
pub fn is_valid_public_key(public_key: &str) -> (r: bool)
    ensures
        r == is_public_key_text(public_key@),
{
    let n = public_key.unicode_len();
    (n == 128 || n == 130) && all_hex_chars(public_key)
}

/// Puts the `04` marker in front of a key of 128 bytes.
pub fn normalize_public_key(public_key: &str) -> (r: String)
    ensures
        r@ == with_marker(public_key@),
{
    if public_key.as_bytes().len() == 128 {
        let mut r = "04".to_owned();
        proof {
            reveal_strlit("04");
        }
        r.append(public_key);
        assert(r@ =~= with_marker(public_key@));
        r
    } else {
        public_key.to_owned()
    }
}

/// Takes the `04` marker off a key of 130 bytes that starts with it.
pub fn normalize_public_key_to_id(public_key: &str) -> (r: String)
    ensures
        r@ == without_marker(public_key@),
{
    let n = public_key.unicode_len();
    if public_key.as_bytes().len() == 130 && n >= 2 && public_key.get_char(0) == '0' && public_key.get_char(1)
        == '4' {
        public_key.substring_char(2, n).to_owned()
    } else {
        public_key.to_owned()
    }
}

pub open spec fn pow58(k: nat) -> nat
    decreases k,
{
    if k == 0 {
        1
    } else {
        58 * pow58((k - 1) as nat)
    }
}

/// Value of base-58 digits stored least significant first.
pub open spec fn le58_value(s: Seq<u8>) -> nat
    decreases s.len(),
{
    if s.len() == 0 {
        0
    } else {
        le58_value(s.drop_last()) + pow58((s.len() - 1) as nat) * s.last() as nat
    }
}

/// Base-58 digits, least significant first, with no zero at the top.
pub open spec fn canonical_le58(s: Seq<u8>) -> bool {
    &&& forall|k: int| 0 <= k < s.len() ==> #[trigger] s[k] < 58
    &&& s.len() > 0 ==> s.last() != 0
}

proof fn lemma_le58_first(s: Seq<u8>)
    requires
        s.len() > 0,
    ensures
        le58_value(s) == s[0] as nat + 58 * le58_value(s.drop_first()),
    decreases s.len(),
{
    if s.len() == 1 {
        assert(s.drop_last() =~= Seq::<u8>::empty());
        assert(s.drop_first() =~= Seq::<u8>::empty());
        assert(le58_value(Seq::<u8>::empty()) == 0);
        assert(pow58(0) == 1);
        assert(le58_value(s) == le58_value(s.drop_last()) + pow58(0) * s.last() as nat);
    } else {
        let t = s.drop_last();
        lemma_le58_first(t);
        assert(t.drop_first() =~= s.drop_first().drop_last());
        assert(s.drop_first().last() == s.last());
        let n = (s.len() - 1) as nat;
        assert(pow58(n) == 58 * pow58((n - 1) as nat));
        assert(t[0] == s[0]);
        assert(le58_value(s) == le58_value(t) + pow58(n) * s.last() as nat);
        assert(le58_value(s.drop_first()) == le58_value(s.drop_first().drop_last()) + pow58(
            (n - 1) as nat,
        ) * s.drop_first().last() as nat);
        assert(58 * le58_value(s.drop_first()) == 58 * le58_value(t.drop_first()) + 58 * (pow58(
            (n - 1) as nat,
        ) * s.last() as nat)) by (nonlinear_arith)
            requires
                le58_value(s.drop_first()) == le58_value(t.drop_first()) + pow58((n - 1) as nat)
                    * s.last() as nat,
        ;
        assert(58 * (pow58((n - 1) as nat) * s.last() as nat) == pow58(n) * s.last() as nat)
            by (nonlinear_arith)
            requires
                pow58(n) == 58 * pow58((n - 1) as nat),
        ;
    }
}

proof fn lemma_pow58_positive(k: nat)
    ensures
        pow58(k) >= 1,
    decreases k,
{
    if k > 0 {
        lemma_pow58_positive((k - 1) as nat);
    }
}

/// Canonical digits are exactly the digits `base58_digits` gives, reversed.
proof fn lemma_canonical_digits(s: Seq<u8>)
    requires
        canonical_le58(s),
    ensures
        base58_digits(le58_value(s)) =~= Seq::new(s.len(), |k: int| s[s.len() - 1 - k] as nat),
    decreases s.len(),
{
    if s.len() > 0 {
        let t = s.drop_first();
        lemma_le58_first(s);
        lemma_pow58_positive((s.len() - 1) as nat);
        assert(le58_value(s) >= pow58((s.len() - 1) as nat) * s.last() as nat);
        assert(pow58((s.len() - 1) as nat) * s.last() as nat >= 1) by (nonlinear_arith)
            requires
                pow58((s.len() - 1) as nat) >= 1,
                s.last() as nat >= 1,
        ;
        let v = le58_value(s);
        assert(v % 58 == s[0] as nat && v / 58 == le58_value(t)) by {
            assert(s[0] < 58);
        }
        assert(canonical_le58(t)) by {
            assert forall|k: int| 0 <= k < t.len() implies #[trigger] t[k] < 58 by {
                assert(t[k] == s[k + 1]);
            }
        }
        lemma_canonical_digits(t);
    } else {
        assert(le58_value(s) == 0);
    }
}

proof fn lemma_leading_zeros(b: Seq<u8>, z: int)
    requires
        0 <= z <= b.len(),
        forall|k: int| 0 <= k < z ==> b[k] == 0,
        z == b.len() || b[z] != 0,
    ensures
        leading_zeros(b) == z,
    decreases z,
{
    if z > 0 {
        lemma_leading_zeros(b.drop_first(), z - 1);
    }
}

/// Base58 text of bytes, in the conventional big-number conversion.
fn base58_bytes(data: &[u8]) -> (r: Vec<u8>)
    ensures
        r@ == base58_text(data@),
        forall|i: int| 0 <= i < r@.len() ==> #[trigger] r@[i] < 128,
{
    let mut zeros: usize = 0;
    while zeros < data.len() && data[zeros] == 0
        invariant
            zeros <= data@.len(),
            forall|k: int| 0 <= k < zeros ==> data@[k] == 0,
        decreases data.len() - zeros,
    {
        zeros = zeros + 1;
    }
    proof {
        lemma_leading_zeros(data@, zeros as int);
    }
    let mut num: Vec<u8> = Vec::new();
    let mut i: usize = 0;
    while i < data.len()
        invariant
            i <= data@.len(),
            canonical_le58(num@),
            num@.len() <= 2 * i,
            le58_value(num@) == be_value(data@.subrange(0, i as int)),
        decreases data.len() - i,
    {
        let ghost old_num = num@;
        let ghost target = le58_value(old_num) * 256 + data@[i as int] as nat;
        let mut carry: u32 = data[i] as u32;
        let mut j: usize = 0;
        assert(num@.subrange(0, 0) =~= Seq::<u8>::empty());
        assert(old_num.subrange(0, old_num.len() as int) =~= old_num);
        assert(le58_value(num@.subrange(0, 0)) == 0);
        assert(pow58(0) == 1);
        while j < num.len()
            invariant
                j <= num@.len(),
                num@.len() == old_num.len(),
                canonical_le58(old_num),
                carry < 256,
                forall|k: int| j <= k < num@.len() ==> num@[k] == old_num[k],
                forall|k: int| 0 <= k < j ==> #[trigger] num@[k] < 58,
                j > 0 ==> carry as nat * 58 + 57 >= 256 * old_num[j - 1] as nat,
                le58_value(num@.subrange(0, j as int)) + pow58(j as nat) * (carry as nat + 256
                    * le58_value(old_num.subrange(j as int, old_num.len() as int))) == target,
            decreases num.len() - j,
        {
            let ghost before = num@;
            let ghost c0 = carry as nat;
            let ghost o = num@[j as int] as nat;
            let ghost rest = le58_value(old_num.subrange(j + 1, old_num.len() as int));
            proof {
                lemma_le58_first(old_num.subrange(j as int, old_num.len() as int));
                assert(old_num.subrange(j as int, old_num.len() as int).drop_first()
                    =~= old_num.subrange(j + 1, old_num.len() as int));
            }
            carry = carry + (num[j] as u32) * 256;
            num.set(j, (carry % 58) as u8);
            let ghost d = (carry % 58) as nat;
            carry = carry / 58;
            proof {
                let p = pow58(j as nat);
                assert(num@.subrange(0, j + 1).drop_last() =~= before.subrange(0, j as int));
                assert(le58_value(num@.subrange(0, j + 1)) == le58_value(
                    before.subrange(0, j as int),
                ) + p * d);
                assert(pow58((j + 1) as nat) == 58 * p);
                assert(p * (c0 + 256 * (o + 58 * rest)) == p * d + 58 * p * (carry as nat + 256
                    * rest)) by (nonlinear_arith)
                    requires
                        c0 + 256 * o == 58 * carry as nat + d,
                ;
            }
            j = j + 1;
        }
        proof {
            assert(old_num.subrange(j as int, old_num.len() as int) =~= Seq::<u8>::empty());
            assert(num@.subrange(0, j as int) =~= num@);
            if old_num.len() > 0 {
                assert(old_num[j - 1] != 0);
            }
        }
        while carry > 0
            invariant
                forall|k: int| 0 <= k < num@.len() ==> #[trigger] num@[k] < 58,
                carry > 0 || canonical_le58(num@),
                le58_value(num@) + pow58(num@.len()) * carry as nat == target,
                carry < 256,
                num@.len() <= old_num.len() + (if carry >= 58 { 0int } else if carry > 0 { 1 } else { 2 }),
            decreases carry,
        {
            let ghost before = num@;
            let ghost c0 = carry as nat;
            num.push((carry % 58) as u8);
            carry = carry / 58;
            proof {
                let p = pow58(before.len());
                assert(num@.drop_last() =~= before);
                assert(pow58(num@.len()) == 58 * p);
                assert(p * c0 == p * (c0 % 58) + 58 * p * carry as nat) by (nonlinear_arith)
                    requires
                        c0 == 58 * carry as nat + c0 % 58,
                ;
            }
        }
        proof {
            assert(data@.subrange(0, i + 1).drop_last() =~= data@.subrange(0, i as int));
        }
        i = i + 1;
    }
    assert(data@.subrange(0, data@.len() as int) =~= data@);
    proof {
        lemma_canonical_digits(num@);
    }
    let alphabet: Vec<u8> = vec![49u8, 50, 51, 52, 53, 54, 55, 56, 57, 65, 66, 67, 68, 69, 70, 71, 72, 74, 75, 76, 77, 78, 80, 81, 82, 83, 84, 85, 86, 87, 88, 89, 90, 97, 98, 99, 100, 101, 102, 103, 104, 105, 106, 107, 109, 110, 111, 112, 113, 114, 115, 116, 117, 118, 119, 120, 121, 122];
    assert(alphabet@ =~= base58_alphabet());
    let mut out: Vec<u8> = Vec::new();
    let mut k: usize = 0;
    while k < zeros
        invariant
            k <= zeros,
            out@ =~= Seq::new(k as nat, |m: int| 49u8),
        decreases zeros - k,
    {
        out.push(49);
        k = k + 1;
    }
    let n = num.len();
    let mut k: usize = n;
    let ghost digits = base58_digits(be_value(data@)).map_values(
        |d: nat| base58_alphabet()[d as int],
    );
    while k > 0
        invariant
            k <= n == num@.len(),
            alphabet@ == base58_alphabet(),
            canonical_le58(num@),
            digits.len() == n,
            forall|m: int|
                0 <= m < n ==> #[trigger] digits[m] == base58_alphabet()[num@[n - 1 - m] as int],
            out@ =~= Seq::new(zeros as nat, |m: int| 49u8) + digits.subrange(0, (n - k) as int),
        decreases k,
    {
        k = k - 1;
        out.push(alphabet[num[k] as usize]);
    }
    assert(digits.subrange(0, n as int) =~= digits);
    assert forall|m: int| 0 <= m < out@.len() implies #[trigger] out@[m] < 128 by {
        if m >= zeros {
            assert(out@[m] == digits[m - zeros]);
        }
    }
    out
}

pub open spec fn pow256(k: nat) -> nat
    decreases k,
{
    if k == 0 {
        1
    } else {
        256 * pow256((k - 1) as nat)
    }
}

proof fn lemma_be_first(s: Seq<u8>)
    requires
        s.len() > 0,
    ensures
        be_value(s) == s[0] as nat * pow256((s.len() - 1) as nat) + be_value(s.drop_first()),
    decreases s.len(),
{
    if s.len() == 1 {
        assert(s.drop_last() =~= Seq::<u8>::empty());
        assert(s.drop_first() =~= Seq::<u8>::empty());
        assert(be_value(Seq::<u8>::empty()) == 0);
        assert(be_value(s) == be_value(s.drop_last()) * 256 + s.last() as nat);
        let x = s[0] as nat;
        assert(pow256(0) == 1);
        assert(s.last() == s[0]);
        assert(be_value(s.drop_last()) == 0);
        assert(be_value(s.drop_first()) == 0);
        assert(be_value(s) == x);
        assert(x * pow256(0) == x) by (nonlinear_arith)
            requires
                pow256(0) == 1,
        ;
    } else {
        let t = s.drop_last();
        let n = (s.len() - 1) as nat;
        lemma_be_first(t);
        assert(be_value(s.drop_first()) == be_value(s.drop_first().drop_last()) * 256 + s.drop_first().last() as nat);
        assert(t.drop_first() =~= s.drop_first().drop_last());
        assert(s.drop_first().last() == s.last());
        assert(t[0] == s[0]);
        assert(pow256(n) == 256 * pow256((n - 1) as nat));
        assert(be_value(s) == be_value(t) * 256 + s.last() as nat);
        assert(be_value(s.drop_first()) == be_value(t.drop_first()) * 256 + s.last() as nat);
        let x = s[0] as nat;
        let q = pow256((n - 1) as nat);
        let w = be_value(t.drop_first());
        assert(be_value(t) == x * q + w);
        assert(be_value(s.drop_first()) == w * 256 + s.last() as nat);
        assert((x * q + w) * 256 == x * (256 * q) + w * 256) by (nonlinear_arith);
        assert(x * pow256(n) == x * (256 * q));
        assert(be_value(s) == x * pow256(n) + be_value(s.drop_first()));
    }
}

proof fn lemma_be_below(s: Seq<u8>)
    ensures
        be_value(s) < pow256(s.len()),
    decreases s.len(),
{
    if s.len() > 0 {
        let n = (s.len() - 1) as nat;
        lemma_be_below(s.drop_last());
        assert(be_value(s) == be_value(s.drop_last()) * 256 + s.last() as nat);
        assert(be_value(s.drop_last()) * 256 + (s.last() as nat) < pow256(n) * 256) by (nonlinear_arith)
            requires
                be_value(s.drop_last()) < pow256(n),
                s.last() < 256,
        ;
    }
}

proof fn lemma_pow_order(m: nat)
    ensures
        pow58(m) <= pow256(m),
    decreases m,
{
    if m > 0 {
        lemma_pow_order((m - 1) as nat);
        assert(58 * pow58((m - 1) as nat) <= 256 * pow256((m - 1) as nat)) by (nonlinear_arith)
            requires
                pow58((m - 1) as nat) <= pow256((m - 1) as nat),
        ;
    }
}

proof fn lemma_pow_add(a: nat, b: nat)
    ensures
        pow58(a + b) == pow58(a) * pow58(b),
        pow256(a + b) == pow256(a) * pow256(b),
    decreases a,
{
    if a > 0 {
        lemma_pow_add((a - 1) as nat, b);
        assert(pow58(a + b) == 58 * pow58((a - 1 + b) as nat));
        assert(pow256(a + b) == 256 * pow256((a - 1 + b) as nat));
        assert(58 * (pow58((a - 1) as nat) * pow58(b)) == (58 * pow58((a - 1) as nat)) * pow58(b))
            by (nonlinear_arith);
        assert(256 * (pow256((a - 1) as nat) * pow256(b)) == (256 * pow256((a - 1) as nat))
            * pow256(b)) by (nonlinear_arith);
    } else {
        assert(pow58(0) * pow58(b) == pow58(b)) by (nonlinear_arith)
            requires
                pow58(0) == 1,
        ;
        assert(pow256(0) * pow256(b) == pow256(b)) by (nonlinear_arith)
            requires
                pow256(0) == 1,
        ;
    }
}

/// Eleven base-58 digits outgrow eight bytes, so `58^(11 k) >= 256^(8 k)`.
proof fn lemma_pow_steps(k: nat)
    ensures
        pow256(8 * k) <= pow58(11 * k),
    decreases k,
{
    if k == 0 {
        assert(pow256(0) == 1 && pow58(0) == 1);
    } else {
        lemma_pow_steps((k - 1) as nat);
        reveal_with_fuel(pow58, 12);
        reveal_with_fuel(pow256, 9);
        assert(pow256(8) <= pow58(11));
        lemma_pow_add((8 * (k - 1)) as nat, 8);
        lemma_pow_add((11 * (k - 1)) as nat, 11);
        assert(8 * (k - 1) + 8 == 8 * k && 11 * (k - 1) + 11 == 11 * k);
        let a = pow256((8 * (k - 1)) as nat);
        let b = pow58((11 * (k - 1)) as nat);
        assert(a * pow256(8) <= b * pow58(11)) by (nonlinear_arith)
            requires
                a <= b,
                pow256(8) <= pow58(11),
        ;
    }
}

proof fn lemma_pow_gap(m: nat)
    requires
        m <= 32,
    ensures
        pow256(m) <= pow58(m + 12),
    decreases 32 - m,
{
    if m == 32 {
        lemma_pow_steps(4);
    } else {
        lemma_pow_gap(m + 1);
        lemma_pow58_positive(m + 12);
        assert(pow256(m + 1) == 256 * pow256(m));
        assert(pow58(m + 13) == 58 * pow58(m + 12));
    }
}

proof fn lemma_digit_count(v: nat, d: nat)
    ensures
        v < pow58(d) ==> base58_digits(v).len() <= d,
        d > 0 && v >= pow58((d - 1) as nat) ==> base58_digits(v).len() >= d,
    decreases d,
{
    lemma_pow58_positive(d);
    if d > 0 {
        lemma_digit_count(v / 58, (d - 1) as nat);
        let p = pow58((d - 1) as nat);
        if v > 0 {
            assert(base58_digits(v).len() == base58_digits(v / 58).len() + 1);
        }
        assert(v < 58 * p ==> v / 58 < p);
        if d > 1 {
            assert(pow58((d - 1) as nat) == 58 * pow58((d - 2) as nat));
            assert(v >= 58 * pow58((d - 2) as nat) ==> v / 58 >= pow58((d - 2) as nat));
        }
        lemma_pow58_positive((d - 1) as nat);
    }
}

proof fn lemma_leading_zeros_facts(b: Seq<u8>)
    ensures
        leading_zeros(b) <= b.len(),
        forall|k: int| 0 <= k < leading_zeros(b) ==> b[k] == 0,
        leading_zeros(b) < b.len() ==> b[leading_zeros(b) as int] != 0,
        be_value(b) == be_value(b.subrange(leading_zeros(b) as int, b.len() as int)),
    decreases b.len(),
{
    if b.len() > 0 && b[0] == 0 {
        let t = b.drop_first();
        lemma_leading_zeros_facts(t);
        lemma_be_first(b);
        assert(t.subrange(leading_zeros(t) as int, t.len() as int) =~= b.subrange(
            leading_zeros(b) as int,
            b.len() as int,
        ));
        assert forall|k: int| 0 <= k < leading_zeros(b) implies b[k] == 0 by {
            if k > 0 {
                assert(b[k] == t[k - 1]);
            }
        }
    } else {
        assert(b.subrange(0, b.len() as int) =~= b);
    }
}

proof fn lemma_digits_below(n: nat)
    ensures
        forall|i: int| 0 <= i < base58_digits(n).len() ==> #[trigger] base58_digits(n)[i] < 58,
    decreases n,
{
    if n > 0 {
        lemma_digits_below(n / 58);
        let d = base58_digits(n);
        assert(d == base58_digits(n / 58).push(n % 58));
        assert forall|i: int| 0 <= i < d.len() implies #[trigger] d[i] < 58 by {
            if i < d.len() - 1 {
                assert(d[i] == base58_digits(n / 58)[i]);
            }
        }
    }
}

/// Every character of base58 text is in the alphabet.
proof fn lemma_base58_text_alphabet(b: Seq<u8>)
    ensures
        forall|i: int|
            0 <= i < base58_text(b).len() ==> is_base58_char(#[trigger] base58_text(b)[i] as char),
{
    lemma_digits_below(be_value(b));
    let t = base58_text(b);
    let z = leading_zeros(b) as int;
    assert forall|i: int| 0 <= i < t.len() implies is_base58_char(#[trigger] t[i] as char) by {
        if i < z {
            assert(t[i] == base58_alphabet()[0]);
        } else {
            let d = base58_digits(be_value(b))[i - z];
            assert(t[i] == base58_alphabet()[d as int]);
        }
    }
}

/// The base58 text of 32 bytes has 32 to 44 characters.
proof fn lemma_base58_text_len(h: Seq<u8>)
    requires
        h.len() == 32,
    ensures
        32 <= base58_text(h).len() <= 44,
{
    let z = leading_zeros(h);
    lemma_leading_zeros_facts(h);
    let rest = h.subrange(z as int, 32);
    let v = be_value(h);
    let m = (32 - z) as nat;
    lemma_be_below(rest);
    lemma_pow_gap(m);
    lemma_digit_count(v, (44 - z) as nat);
    if z < 32 {
        lemma_be_first(rest);
        assert(rest[0] != 0);
        lemma_pow_order((m - 1) as nat);
        assert(rest[0] as nat * pow256((m - 1) as nat) >= pow256((m - 1) as nat)) by (nonlinear_arith)
            requires
                rest[0] as nat >= 1,
        ;
        lemma_digit_count(v, m);
    }
}

/// Base58 text of bytes, with the Bitcoin alphabet.
pub fn base58_encode(data: &[u8]) -> (r: String)
    ensures
        r@ == ascii_chars(base58_text(data@)),
{
    ascii_to_string(base58_bytes(data))
}

/// The network address of a public key: `DAG` and the base58 text of the
/// SHA-256 of the key's uncompressed bytes. Text that is not hex hashes as
/// no bytes at all.
pub fn get_address(public_key: &str) -> (r: String)
    ensures
        r@ == address_text(public_key@),
        35 <= r@.len() <= 47,
        forall|i: int| 3 <= i < r@.len() ==> is_base58_char(#[trigger] r@[i]),
{
    let normalized = normalize_public_key(public_key);
    let key_bytes = match hex_decode(normalized.as_str()) {
        Ok(b) => b,
        Err(_) => Vec::new(),
    };
    assert(key_bytes@ =~= address_key_bytes(public_key@));
    let hash = sha256(key_bytes.as_slice());
    let encoded = base58_bytes(hash.as_slice());
    let mut text: Vec<u8> = vec![68u8, 65, 71];
    let mut i: usize = 0;
    while i < encoded.len()
        invariant
            i <= encoded@.len(),
            text@ =~= seq![68u8, 65, 71] + encoded@.subrange(0, i as int),
        decreases encoded.len() - i,
    {
        text.push(encoded[i]);
        i = i + 1;
    }
    assert(encoded@.subrange(0, encoded@.len() as int) =~= encoded@);
    assert forall|k: int| 0 <= k < text@.len() implies #[trigger] text@[k] < 128 by {
        if k >= 3 {
            assert(text@[k] == encoded@[k - 3]);
        }
    }
    let r = ascii_to_string(text);
    assert(r@ =~= address_text(public_key@));
    proof {
        lemma_base58_text_len(hash@);
        lemma_base58_text_alphabet(hash@);
        assert forall|i: int| 3 <= i < r@.len() implies is_base58_char(#[trigger] r@[i]) by {
            assert(r@[i] == encoded@[i - 3] as char);
        }
    }
    r
}

/// Public point of a hex private key, in hex: 33 bytes compressed or 65
/// bytes uncompressed.
pub fn get_public_key_hex(private_key: &str, compressed: bool) -> (r: Result<String, SdkError>)
    ensures
        !hex_decodes(private_key@) ==> r == Err::<String, SdkError>(SdkError::InvalidHex),
        hex_decodes(private_key@) && !secret_in_range(hex_bytes(private_key@)) ==> r == Err::<
            String,
            SdkError,
        >(SdkError::CryptoError),
        hex_decodes(private_key@) && secret_in_range(hex_bytes(private_key@)) ==> (r matches Ok(
            s,
        ) && (!compressed ==> point_shape(hex_bytes(private_key@))) && s@ == hex_text(
            if compressed {
                compressed_point_of(hex_bytes(private_key@))
            } else {
                public_point_of(hex_bytes(private_key@))
            },
        )),
        hex_decodes(private_key@) && secret_in_range(hex_bytes(private_key@)) ==> (r matches Ok(
            s,
        ) && s@[0] == '0' && if compressed {
            &&& s@.len() == 66
            &&& s@[1] == '2' || s@[1] == '3'
            &&& s@.subrange(2, 66) == hex_text(public_point_of(hex_bytes(private_key@))).subrange(
                2,
                66,
            )
        } else {
            s@.len() == 130 && s@[1] == '4'
        }),
{
    let secret = match hex_decode(private_key) {
        Ok(b) => b,
        Err(_) => {
            return Err(SdkError::InvalidHex);
        },
    };
    if compressed {
        match compressed_point(secret.as_slice()) {
            Ok(p) => {
                proof {
                    let u = public_point_of(secret@);
                    lemma_hex_text_subrange(p@, 1, 33);
                    lemma_hex_text_subrange(u, 1, 33);
                }
                Ok(hex_encode(p.as_slice()))
            },
            Err(_) => Err(SdkError::CryptoError),
        }
    } else {
        match uncompressed_point(secret.as_slice()) {
            Ok(p) => Ok(hex_encode(p.as_slice())),
            Err(_) => Err(SdkError::CryptoError),
        }
    }
}

/// An uncompressed point: 65 bytes led by the marker 4.
pub open spec fn point_shape(secret: Seq<u8>) -> bool {
    public_point_of(secret).len() == 65 && public_point_of(secret)[0] == 4
}

/// The hex of a point that starts with the marker 4 starts with `04`.
proof fn lemma_point_id(point: Seq<u8>)
    requires
        point.len() == 65,
        point[0] == 4,
    ensures
        without_marker(hex_text(point)) == hex_text(point).subrange(2, 130),
        hex_text(point).len() == 130,
        hex_text(point)[0] == '0',
        hex_text(point)[1] == '4',
        byte_len(hex_text(point).subrange(2, 130)) == 128,
{
    assert(hex_text(point)[0] == '0');
    assert(hex_text(point)[1] == '4');
    let t = hex_text(point);
    assert(is_ascii_chars(t));
    lemma_ascii_byte_len(t);
    let id = t.subrange(2, 130);
    assert(is_ascii_chars(id)) by {
        assert forall|i: int| 0 <= i < id.len() implies #[trigger] id[i] == t[i + 2] by {}
    }
    lemma_ascii_byte_len(id);
}

/// Putting the marker back on a secret's public-key identifier gives the
/// hex of its point, which decodes to the point.
#[verifier::rlimit(40)]
pub proof fn lemma_id_restores_point(secret: Seq<u8>)
    requires
        point_shape(secret),
    ensures
        with_marker(public_key_id_of(secret)) == hex_text(public_point_of(secret)),
        hex_decodes(with_marker(public_key_id_of(secret))),
        hex_bytes(with_marker(public_key_id_of(secret))) == public_point_of(secret),
{
    let point = public_point_of(secret);
    lemma_hex_round_trip(point);
    lemma_point_id(point);
    let t = hex_text(point);
    let id = public_key_id_of(secret);
    assert(id.len() == 128);

    let w = with_marker(id);
    assert(w == seq!['0', '4'] + id);
    assert forall|k: int| 0 <= k < 130 implies w[k] == t[k] by {
        if k >= 2 {
            assert(w[k] == id[k - 2]);
        }
    }
    assert(w =~= t);
}

/// The public-key identifier of a hex private key, as it stands in a proof.
pub fn get_public_key_id(private_key: &str) -> (r: Result<String, SdkError>)
    ensures
        !hex_decodes(private_key@) ==> r == Err::<String, SdkError>(SdkError::InvalidHex),
        hex_decodes(private_key@) && !secret_in_range(hex_bytes(private_key@)) ==> r == Err::<
            String,
            SdkError,
        >(SdkError::CryptoError),
        hex_decodes(private_key@) && secret_in_range(hex_bytes(private_key@)) ==> (r matches Ok(
            s,
        ) && point_shape(hex_bytes(private_key@)) && s@ == public_key_id_of(
            hex_bytes(private_key@),
        )),
{
    let public_key = get_public_key_hex(private_key, false)?;
    proof {
        lemma_point_id(public_point_of(hex_bytes(private_key@)));
    }
    Ok(normalize_public_key_to_id(public_key.as_str()))
}


/// The key pair of a private key given as 64 hex digits.
pub fn key_pair_from_private_key(private_key: &str) -> (r: Result<KeyPair, SdkError>)
    ensures
        !is_private_key_text(private_key@) ==> r == Err::<KeyPair, SdkError>(
            SdkError::InvalidPrivateKey,
        ),
        is_private_key_text(private_key@) && !secret_in_range(hex_bytes(private_key@)) ==> r
            == Err::<KeyPair, SdkError>(SdkError::CryptoError),
        is_private_key_text(private_key@) && secret_in_range(hex_bytes(private_key@)) ==> (r matches Ok(
            kp,
        ) && kp.private_key@ == private_key@ && consistent_key_pair(kp) && point_shape(
            hex_bytes(private_key@),
        )),
{
    if !is_valid_private_key(private_key) {
        return Err(SdkError::InvalidPrivateKey);
    }
    let secret = match hex_decode(private_key) {
        Ok(b) => b,
        Err(_) => {
            return Err(SdkError::InvalidHex);
        },
    };
    let point = match uncompressed_point(secret.as_slice()) {
        Ok(p) => p,
        Err(_) => {
            return Err(SdkError::CryptoError);
        },
    };
    let public_key = hex_encode(point.as_slice());
    let address = get_address(public_key.as_str());
    Ok(KeyPair { private_key: private_key.to_owned(), public_key, address })
}

/// A fresh key pair from the operating system's random source.
pub fn generate_key_pair() -> (r: KeyPair)
    ensures
        consistent_key_pair(r),
        point_shape(hex_bytes(r.private_key@)),
        r.private_key@.len() == 64,
        r.public_key@.len() == 130,
        r.address@.len() >= 3,
        r.address@.subrange(0, 3) == seq!['D', 'A', 'G'],
{
    let secret = random_secret();
    let private_key = hex_encode(secret.as_slice());
    proof {
        lemma_hex_round_trip(secret@);
    }
    let point = match uncompressed_point(secret.as_slice()) {
        Ok(p) => p,
        Err(_) => {
            assert(false);
            Vec::new()
        },
    };
    let public_key = hex_encode(point.as_slice());
    let address = get_address(public_key.as_str());
    let r = KeyPair { private_key, public_key, address };
    assert(r.address@.subrange(0, 3) =~= seq!['D', 'A', 'G']);
    r
}

} // verus!
