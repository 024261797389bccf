//! Byte classes of the grammar and the scanning of runs of one class.

use vstd::prelude::*;

verus! {

/// The byte classes that the grammar scans runs of.
#[derive(Clone, Copy, PartialEq, Eq, Structural, Debug)]
pub enum ByteClass {
    /// `A-Z`, `a-z`, `0-9`.
    Alnum,
    /// Alphanumeric or `-`.
    Ldh,
    /// `0-9`.
    Digit,
    /// Hexadecimal digit, `:` or `.`: what the text of an IPv6 address is made of.
    Ipv6Text,
    /// Bytes 33 to 60 and 62 to 126.
    EsmtpValue,
    /// Bytes 33 to 90 and 94 to 126.
    Dcontent,
    /// Alphanumeric or one of ``!#$%&'*+-/=?^_`{|}~``.
    Atext,
    /// Space or horizontal tab.
    Wsp,
}

/// `0-9`.
pub open spec fn is_decimal(c: u8) -> bool {
    0x30 <= c <= 0x39
}

/// `A-Z`, `a-z` or `0-9`.
pub open spec fn is_alnum(c: u8) -> bool {
    (0x41 <= c <= 0x5a) || (0x61 <= c <= 0x7a) || is_decimal(c)
}

/// `0-9`, `A-F` or `a-f`.
pub open spec fn is_hex(c: u8) -> bool {
    (0x30 <= c <= 0x39) || (0x41 <= c <= 0x46) || (0x61 <= c <= 0x66)
}

/// One of ``!#$%&'*+-/=?^_`{|}~``.
pub open spec fn is_atext_mark(c: u8) -> bool {
    c == 33 || (35 <= c <= 39) || c == 42 || c == 43 || c == 45 || c == 47 || c == 61 || c == 63
        || (94 <= c <= 96) || (123 <= c <= 126)
}

/// Text inside a quoted string that needs no escape: 32 to 126 without `"` and `\`.
pub open spec fn is_qtext(c: u8) -> bool {
    (32 <= c <= 33) || (35 <= c <= 91) || (93 <= c <= 126)
}

/// A byte that may follow the backslash of a quoted pair.
pub open spec fn is_escapable(c: u8) -> bool {
    32 <= c <= 126
}

/// Whether the byte `c` belongs to the class `k`.
pub open spec fn in_class(k: ByteClass, c: u8) -> bool {
    match k {
        ByteClass::Alnum => is_alnum(c),
        ByteClass::Ldh => is_alnum(c) || c == 45,
        ByteClass::Digit => is_decimal(c),
        ByteClass::Ipv6Text => is_hex(c) || c == 58 || c == 46,
        ByteClass::EsmtpValue => (33 <= c <= 60) || (62 <= c <= 126),
        ByteClass::Dcontent => (33 <= c <= 90) || (94 <= c <= 126),
        ByteClass::Atext => is_alnum(c) || is_atext_mark(c),
        ByteClass::Wsp => c == 32 || c == 9,
    }
}

/// `nom::is_alphanumeric` tests its byte against the three ranges `A-Z`, `a-z`
/// and `0-9`.
pub assume_specification[ nom::is_alphanumeric ](chr: u8) -> (b: bool)
    ensures
        b == is_alnum(chr),
;

/// `nom::is_digit` tests its byte against the range `0-9`.
pub assume_specification[ nom::is_digit ](chr: u8) -> (b: bool)
    ensures
        b == is_decimal(chr),
;

/// `nom::is_hex_digit` tests its byte against the ranges `0-9`, `A-F` and `a-f`.
pub assume_specification[ nom::is_hex_digit ](chr: u8) -> (b: bool)
    ensures
        b == is_hex(chr),
;

/// Whether `c` may stand unescaped in a quoted string.
pub fn qtext_byte(c: u8) -> (b: bool)
    ensures
        b == is_qtext(c),
{
    (32 <= c && c <= 33) || (35 <= c && c <= 91) || (93 <= c && c <= 126)
}

/// Whether `c` may follow the backslash of a quoted pair.
pub fn escapable_byte(c: u8) -> (b: bool)
    ensures
        b == is_escapable(c),
{
    32 <= c && c <= 126
}

/// Whether `c` belongs to the class `k`.
pub fn class_has(k: ByteClass, c: u8) -> (b: bool)
    ensures
        b == in_class(k, c),
{
    match k {
        ByteClass::Alnum => nom::is_alphanumeric(c),
        ByteClass::Ldh => nom::is_alphanumeric(c) || c == 45,
        ByteClass::Digit => nom::is_digit(c),
        ByteClass::Ipv6Text => nom::is_hex_digit(c) || c == 58 || c == 46,
        ByteClass::EsmtpValue => (33 <= c && c <= 60) || (62 <= c && c <= 126),
        ByteClass::Dcontent => (33 <= c && c <= 90) || (94 <= c && c <= 126),
        ByteClass::Atext => nom::is_alphanumeric(c) || c == 33 || (35 <= c && c <= 39) || c == 42
            || c == 43 || c == 45 || c == 47 || c == 61 || c == 63 || (94 <= c && c <= 96) || (123
            <= c && c <= 126),
        ByteClass::Wsp => c == 32 || c == 9,
    }
}

/// Where the longest run of bytes of class `k` that starts at `i` ends.
pub open spec fn run_end(s: Seq<u8>, i: int, k: ByteClass) -> int
    decreases s.len() - i,
{
    if 0 <= i < s.len() && in_class(k, s[i]) {
        run_end(s, i + 1, k)
    } else {
        i
    }
}

/// A run ends inside the input, holds bytes of its class only, and is not
/// followed by one.
pub proof fn lemma_run_end(s: Seq<u8>, i: int, k: ByteClass)
    requires
        0 <= i <= s.len(),
    ensures
        i <= run_end(s, i, k) <= s.len(),
        forall|j: int| i <= j < run_end(s, i, k) ==> in_class(k, #[trigger] s[j]),
        run_end(s, i, k) < s.len() ==> !in_class(k, s[run_end(s, i, k)]),
    decreases s.len() - i,
{
    if i < s.len() && in_class(k, s[i]) {
        lemma_run_end(s, i + 1, k);
    }
}

/// Scans the longest run of bytes of class `k` from `i` and returns its end.
pub fn scan(s: &[u8], i: usize, k: ByteClass) -> (e: usize)
    requires
        i <= s.len(),
    ensures
        e as int == run_end(s@, i as int, k),
        i <= e <= s.len(),
{
    let mut e: usize = i;
    while e < s.len() && class_has(k, s[e])
        invariant
            i <= e <= s.len(),
            run_end(s@, i as int, k) == run_end(s@, e as int, k),
        decreases s.len() - e,
    {
        e = e + 1;
    }
    e
}

} // verus!
