//! The URL-safe base-64 text of bytes.

use base64ct::Encoding;
use vstd::arithmetic::div_mod::lemma_fundamental_div_mod_converse;
use vstd::prelude::*;

verus! {

/// The symbol of a base-64 digit in the URL-safe alphabet.
pub open spec fn base64url_symbol(digit: int) -> char {
    (if digit < 26 {
        digit + 65  // A-Z
    } else if digit < 52 {
        digit + 71  // a-z
    } else if digit < 62 {
        digit - 4  // 0-9
    } else if digit == 62 {
        45  // -
    } else {
        95  // _
    }) as char
}

/// The byte at an index, or zero past the end.
pub open spec fn byte_or_zero(bytes: Seq<u8>, i: int) -> int {
    if i < bytes.len() {
        bytes[i] as int
    } else {
        0
    }
}

/// The `k`-th base-64 digit of some bytes: each three of them are read as one number, which has
/// four such digits, the highest of them first.
pub open spec fn base64_digit(bytes: Seq<u8>, k: int) -> int {
    let first = k / 4 * 3;
    let group = byte_or_zero(bytes, first) * 65536 + byte_or_zero(bytes, first + 1) * 256
        + byte_or_zero(bytes, first + 2);
    if k % 4 == 0 {
        group / 262144
    } else if k % 4 == 1 {
        group / 4096 % 64
    } else if k % 4 == 2 {
        group / 64 % 64
    } else {
        group % 64
    }
}

/// The URL-safe base-64 text of some bytes: the digits that hold bits of theirs, then `=` up to a
/// multiple of four.
pub open spec fn base64url(bytes: Seq<u8>) -> Seq<char> {
    Seq::new(
        (bytes.len() + 2) / 3 * 4,
        |k: int|
            if 6 * k < 8 * bytes.len() {
                base64url_symbol(base64_digit(bytes, k))
            } else {
                '='
            },
    )
}

/// `Base64Url::encode_string`: the URL-safe base-64 text of some bytes, with padding.
#[verifier::external_body]
pub(crate) fn encode_base64url(bytes: &[u8]) -> (text: String)
    requires
        bytes@.len() <= usize::MAX / 4,
    ensures
        text@ == base64url(bytes@),
{
    base64ct::Base64Url::encode_string(bytes)
}

/// Whether a character may occur in URL-safe base-64 text.
pub open spec fn is_url_safe(c: char) -> bool {
    'A' <= c <= 'Z' || 'a' <= c <= 'z' || '0' <= c <= '9' || c == '-' || c == '_' || c == '='
}

/// The digits of base 64 are below 64, and their text is URL-safe.
pub proof fn lemma_base64url_chars(bytes: Seq<u8>)
    ensures
        forall|k: int| 0 <= k && 6 * k < 8 * bytes.len() ==> 0 <= #[trigger] base64_digit(bytes, k) < 64,
        forall|i: int|
            0 <= i < base64url(bytes).len() ==> is_url_safe(#[trigger] base64url(bytes)[i]),
{
}

/// Different digits have different symbols.
proof fn lemma_base64url_symbols(a: int, b: int)
    requires
        0 <= a < 64,
        0 <= b < 64,
        base64url_symbol(a) == base64url_symbol(b),
    ensures
        a == b,
{
}

/// The first two base-64 digits of three bytes give the first byte, three the second, and four the
/// third.
proof fn lemma_base64_group(a: int, b: int, c: int)
    requires
        0 <= a < 256,
        0 <= b < 256,
        0 <= c < 256,
    ensures
        ({
            let group = a * 65536 + b * 256 + c;
            let d0 = group / 262144;
            let d1 = group / 4096 % 64;
            let d2 = group / 64 % 64;
            let d3 = group % 64;
            &&& a == d0 * 4 + d1 / 16
            &&& b == d1 % 16 * 16 + d2 / 4
            &&& c == d2 % 4 * 64 + d3
        }),
{
    let (a1, a0) = (a / 4, a % 4);
    let (b1, b0) = (b / 16, b % 16);
    let (c1, c0) = (c / 64, c % 64);
    let group = a * 65536 + b * 256 + c;
    lemma_fundamental_div_mod_converse(group, 262144, a1, a0 * 65536 + b * 256 + c);
    lemma_fundamental_div_mod_converse(group, 4096, a1 * 64 + (a0 * 16 + b1), b0 * 256 + c);
    lemma_fundamental_div_mod_converse(a1 * 64 + (a0 * 16 + b1), 64, a1, a0 * 16 + b1);
    lemma_fundamental_div_mod_converse(group, 64, a * 1024 + b * 4 + c1, c0);
    lemma_fundamental_div_mod_converse(
        a * 1024 + b * 4 + c1,
        64,
        a * 16 + b1,
        b0 * 4 + c1,
    );
}

/// Bytes of different lengths have different base-64 texts.
proof fn lemma_base64url_length(a: Seq<u8>, b: Seq<u8>)
    requires
        a.len() < b.len(),
    ensures
        base64url(a) != base64url(b),
{
    lemma_base64url_chars(b);
    if base64url(a).len() == base64url(b).len() {
        // The first padding of the shorter text stands where the longer one has a digit
        let k = (4 * a.len() + 2) / 3;
        assert(base64url(a)[k as int] == '=');
        assert(base64url(b)[k as int] == base64url_symbol(base64_digit(b, k as int)));
        assert(0 <= base64_digit(b, k as int) < 64);
    }
}

/// Different bytes have different base-64 texts.
pub proof fn lemma_base64url_injective(a: Seq<u8>, b: Seq<u8>)
    requires
        base64url(a) == base64url(b),
    ensures
        a == b,
{
    if a.len() < b.len() {
        lemma_base64url_length(a, b);
    } else if b.len() < a.len() {
        lemma_base64url_length(b, a);
    }
    lemma_base64url_chars(a);
    lemma_base64url_chars(b);
    assert forall|k: int| 0 <= k && 6 * k < 8 * a.len() implies #[trigger] base64_digit(a, k)
        == base64_digit(b, k) by {
        assert(base64url(a)[k] == base64url_symbol(base64_digit(a, k)));
        assert(base64url(b)[k] == base64url_symbol(base64_digit(b, k)));
        assert(0 <= base64_digit(a, k) < 64);
        assert(0 <= base64_digit(b, k) < 64);
        lemma_base64url_symbols(base64_digit(a, k), base64_digit(b, k));
    }
    assert forall|i: int| 0 <= i < a.len() implies a[i] == b[i] by {
        let first = i / 3 * 3;
        let k = i / 3 * 4;
        lemma_base64_group(
            byte_or_zero(a, first),
            byte_or_zero(a, first + 1),
            byte_or_zero(a, first + 2),
        );
        lemma_base64_group(
            byte_or_zero(b, first),
            byte_or_zero(b, first + 1),
            byte_or_zero(b, first + 2),
        );
        assert(base64_digit(a, k) == base64_digit(b, k));
        assert(base64_digit(a, k + 1) == base64_digit(b, k + 1));
        if i % 3 >= 1 {
            assert(base64_digit(a, k + 2) == base64_digit(b, k + 2));
        }
        if i % 3 == 2 {
            assert(base64_digit(a, k + 3) == base64_digit(b, k + 3));
        }
    }
}

} // verus!
