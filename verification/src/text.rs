//! Byte-level text helpers: searching for a byte, decoding hexadecimal
//! payloads, decoding UTF-8 and reading unsigned numbers in a radix.

use vstd::prelude::*;
use vstd::utf8::{decode_utf8, valid_utf8};

verus! {

/// The first position at or after `k` that holds `b`, or `s.len()` when
/// no such position exists.
pub open spec fn scan_to(s: Seq<u8>, b: u8, k: int) -> int
    decreases s.len() - k,
{
    if k < 0 || k >= s.len() {
        s.len() as int
    } else if s[k] == b {
        k
    } else {
        scan_to(s, b, k + 1)
    }
}

/// The position of the first `b` in `s`, if there is one.
pub open spec fn first_index_of(s: Seq<u8>, b: u8) -> Option<int> {
    if scan_to(s, b, 0) < s.len() {
        Some(scan_to(s, b, 0))
    } else {
        None
    }
}

/// `scan_to` stops at the first `b` at or after `k`.
pub proof fn lemma_scan_to(s: Seq<u8>, b: u8, k: int)
    requires
        0 <= k <= s.len(),
    ensures
        k <= scan_to(s, b, k) <= s.len(),
        scan_to(s, b, k) < s.len() ==> s[scan_to(s, b, k)] == b,
        forall|j: int| k <= j < scan_to(s, b, k) ==> s[j] != b,
    decreases s.len() - k,
{
    if k < s.len() && s[k] != b {
        lemma_scan_to(s, b, k + 1);
    }
}

/// A position with `b` that has no earlier `b` at or after `k` is where
/// `scan_to` stops.
pub proof fn lemma_scan_to_unique(s: Seq<u8>, b: u8, k: int, i: int)
    requires
        0 <= k <= i <= s.len(),
        i < s.len() ==> s[i] == b,
        forall|j: int| k <= j < i ==> s[j] != b,
    ensures
        scan_to(s, b, k) == i,
    decreases i - k,
{
    if k < i {
        lemma_scan_to_unique(s, b, k + 1, i);
    }
}

/// Position of the first `needle` in `haystack`, as documented for
/// `memchr::memchr`.
#[verifier::external_body]
fn memchr_first(needle: u8, haystack: &[u8]) -> (res: Option<usize>)
    ensures
        match res {
            Some(i) => i < haystack@.len() && haystack@[i as int] == needle && forall|j: int|
                0 <= j < i ==> haystack@[j] != needle,
            None => forall|j: int| 0 <= j < haystack@.len() ==> haystack@[j] != needle,
        },
{
    memchr::memchr(needle, haystack)
}

/// Finds the first `needle` in `haystack` with the `memchr` crate.
pub fn find_byte_memchr(needle: u8, haystack: &[u8]) -> (res: Option<usize>)
    ensures
        match res {
            Some(i) => first_index_of(haystack@, needle) == Some(i as int),
            None => first_index_of(haystack@, needle) is None,
        },
{
    let r = memchr_first(needle, haystack);
    proof {
        match r {
            Some(i) => lemma_scan_to_unique(haystack@, needle, 0, i as int),
            None => lemma_scan_to_unique(haystack@, needle, 0, haystack@.len() as int),
        }
    }
    r
}

/// Finds the first `needle` in `haystack` by walking it from the front.
pub fn find_byte(needle: u8, haystack: &[u8]) -> (res: Option<usize>)
    ensures
        match res {
            Some(i) => first_index_of(haystack@, needle) == Some(i as int),
            None => first_index_of(haystack@, needle) is None,
        },
{
    let mut i: usize = 0;
    while i < haystack.len()
        invariant
            i <= haystack@.len(),
            scan_to(haystack@, needle, 0) == scan_to(haystack@, needle, i as int),
        decreases haystack@.len() - i,
    {
        if haystack[i] == needle {
            return Some(i);
        }
        i = i + 1;
    }
    None
}


/// Value of one hexadecimal digit, upper or lower case.
pub open spec fn hex_digit_value(c: u8) -> Option<u8> {
    if 48 <= c <= 57 {
        Some((c - 48) as u8)
    } else if 97 <= c <= 102 {
        Some((c - 97 + 10) as u8)
    } else if 65 <= c <= 70 {
        Some((c - 65 + 10) as u8)
    } else {
        None
    }
}

/// An even number of hexadecimal digits.
pub open spec fn is_hex_text(s: Seq<u8>) -> bool {
    &&& s.len() % 2 == 0
    &&& forall|i: int| 0 <= i < s.len() ==> (#[trigger] hex_digit_value(s[i])) is Some
}

/// The bytes spelled by pairs of hexadecimal digits, high digit first.
pub open spec fn hex_bytes(s: Seq<u8>) -> Seq<u8> {
    Seq::new(
        s.len() / 2,
        |i: int|
            (hex_digit_value(s[2 * i])->0 * 16 + hex_digit_value(s[2 * i + 1])->0) as u8,
    )
}

/// What decoding `s` as hexadecimal gives: the bytes when `s` is an even
/// number of hex digits, nothing otherwise.
pub open spec fn hex_decode(s: Seq<u8>) -> Option<Seq<u8>> {
    if is_hex_text(s) {
        Some(hex_bytes(s))
    } else {
        None
    }
}

/// `<Vec<u8> as hex::FromHex>::from_hex`: fails on an odd length or on a
/// character that is not a hex digit; otherwise each pair of digits gives
/// one byte, high digit first, either case accepted.
#[verifier::external_body]
pub(crate) fn vec_from_hex(text: &[u8]) -> (res: Option<Vec<u8>>)
    ensures
        match res {
            Some(v) => hex_decode(text@) == Some(v@),
            None => hex_decode(text@) is None,
        },
{
    <Vec<u8> as hex::FromHex>::from_hex(text).ok()
}

/// `std::str::from_utf8`: succeeds exactly on valid UTF-8, and the string
/// it returns holds the characters that the bytes encode.
#[verifier::external_body]
pub(crate) fn str_from_utf8(bytes: &[u8]) -> (res: Option<&str>)
    ensures
        res is Some <==> valid_utf8(bytes@),
        res matches Some(s) ==> s@ == decode_utf8(bytes@),
{
    std::str::from_utf8(bytes).ok()
}

/// All bytes are ASCII.
pub open spec fn is_ascii_bytes(s: Seq<u8>) -> bool {
    forall|i: int| 0 <= i < s.len() ==> #[trigger] s[i] < 128
}

/// The characters that ASCII bytes stand for.
pub open spec fn ascii_chars(s: Seq<u8>) -> Seq<char> {
    Seq::new(s.len(), |i: int| s[i] as char)
}

/// ASCII bytes are valid UTF-8 and decode to the characters of the same codes.
pub proof fn lemma_ascii_utf8(s: Seq<u8>)
    requires
        is_ascii_bytes(s),
    ensures
        valid_utf8(s),
        decode_utf8(s) == ascii_chars(s),
    decreases s.len(),
{
    if s.len() > 0 {
        let rest = s.drop_first();
        assert(is_ascii_bytes(rest)) by {
            assert forall|i: int| 0 <= i < rest.len() implies #[trigger] rest[i] < 128 by {
                assert(rest[i] == s[i + 1]);
            }
        }
        lemma_ascii_utf8(rest);
        let b = s[0];
        assert(b < 128);
        assert(b & 0x7f == b) by (bit_vector)
            requires
                b < 128,
        ;
        assert(vstd::utf8::decode_first_scalar(s) == b as u32);
        assert(vstd::utf8::pop_first_scalar(s) == rest);
        assert(decode_utf8(s) =~= ascii_chars(s));
    }
}

/// Value of a digit character in `radix`, as `char::to_digit` reads it:
/// `0-9`, then `a-z` or `A-Z` from ten upwards.
pub open spec fn char_digit(c: char, radix: u32) -> Option<nat> {
    let u = c as u32;
    let v: int = if 48 <= u <= 57 {
        u - 48
    } else if 97 <= u <= 122 {
        u - 97 + 10
    } else if 65 <= u <= 90 {
        u - 65 + 10
    } else {
        radix as int
    };
    if v < radix {
        Some(v as nat)
    } else {
        None
    }
}

/// The number that a string of digits in `radix` spells, most significant
/// digit first; nothing if one character is not such a digit.
pub open spec fn digits_value(s: Seq<char>, radix: u32) -> Option<nat>
    decreases s.len(),
{
    if s.len() == 0 {
        Some(0)
    } else {
        match (digits_value(s.drop_last(), radix), char_digit(s.last(), radix)) {
            (Some(high), Some(d)) => Some(high * (radix as nat) + d),
            _ => None,
        }
    }
}

/// `u64::from_str_radix` as documented: an optional `+` followed by at
/// least one digit of the radix, whose value fits in a `u64`.
pub open spec fn u64_from_str_radix(s: Seq<char>, radix: u32) -> Option<u64> {
    let digits = if s.len() > 0 && s[0] == '+' {
        s.drop_first()
    } else {
        s
    };
    if digits.len() == 0 {
        None
    } else {
        match digits_value(digits, radix) {
            Some(v) => if v <= u64::MAX {
                Some(v as u64)
            } else {
                None
            },
            None => None,
        }
    }
}

/// `u64::from_str_radix`, which panics unless `2 <= radix <= 36`.
#[verifier::external_body]
pub(crate) fn str_to_u64_radix(s: &str, radix: u32) -> (res: Option<u64>)
    requires
        2 <= radix <= 36,
    ensures
        res == u64_from_str_radix(s@, radix),
{
    u64::from_str_radix(s, radix).ok()
}

} // verus!
