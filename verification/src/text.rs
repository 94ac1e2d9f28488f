//! Character and string primitives shared by the tokenizer and the kernel
//! source generators.

use vstd::prelude::*;
use vstd::utf8::*;

verus! {

/// The Unicode `White_Space` property: U+0009..U+000D, U+0020, U+0085,
/// U+00A0, U+1680, U+2000..U+200A, U+2028, U+2029, U+202F, U+205F, U+3000.
pub open spec fn char_is_whitespace(c: char) -> bool {
    let v = c as u32;
    ||| 0x09 <= v <= 0x0D
    ||| v == 0x20
    ||| v == 0x85
    ||| v == 0xA0
    ||| v == 0x1680
    ||| 0x2000 <= v <= 0x200A
    ||| v == 0x2028
    ||| v == 0x2029
    ||| v == 0x202F
    ||| v == 0x205F
    ||| v == 0x3000
}

/// Whether `c` is an ASCII letter.
pub open spec fn is_ascii_letter(c: char) -> bool {
    ('a' <= c <= 'z') || ('A' <= c <= 'Z')
}

/// Whether `c` is an ASCII digit.
pub open spec fn is_ascii_digit(c: char) -> bool {
    '0' <= c <= '9'
}

/// Unicode `Alphabetic` property, as `char::is_alphabetic` reports it.
pub uninterp spec fn char_is_alphabetic(c: char) -> bool;

/// Unicode numeric general categories, as `char::is_numeric` reports it.
pub uninterp spec fn char_is_numeric(c: char) -> bool;

/// Whether `c` has the Unicode White_Space property, as `char::is_whitespace` reports it.
pub fn is_white_space(c: char) -> (r: bool)
    ensures
        r == char_is_whitespace(c),
{
    let v = c as u32;
    (0x09 <= v && v <= 0x0D) || v == 0x20 || v == 0x85 || v == 0xA0 || v == 0x1680 || (0x2000 <= v && v <= 0x200A)
        || v == 0x2028 || v == 0x2029 || v == 0x202F || v == 0x205F || v == 0x3000
}

/// `char::is_alphabetic`: whether `c` has the Unicode Alphabetic property.
/// The contract names the property and states it on ASCII, where exactly the
/// letters have it; the rest of the Unicode table is not restated.
pub assume_specification[ char::is_alphabetic ](c: char) -> (r: bool)
    ensures
        r == char_is_alphabetic(c),
        (c as u32) < 128 ==> (r <==> is_ascii_letter(c)),
;

/// `char::is_numeric`: whether `c` is in a Unicode numeric category (Nd, Nl,
/// No). The contract names the property and states it on ASCII, where
/// exactly the digits are numeric; the rest of the table is not restated.
pub assume_specification[ char::is_numeric ](c: char) -> (r: bool)
    ensures
        r == char_is_numeric(c),
        (c as u32) < 128 ==> (r <==> is_ascii_digit(c)),
;

/// `char::from_u32`: `Some` exactly for Unicode scalar values (at most
/// U+10FFFF and outside the surrogate range), holding the char of that code point.
pub assume_specification[ char::from_u32 ](i: u32) -> (r: Option<char>)
    ensures
        r is Some <==> (i <= 0x10FFFF && !(0xD800 <= i <= 0xDFFF)),
        r matches Some(c) ==> c as u32 == i,
;

/// `String::push`: appends one char.
pub assume_specification[ String::push ](s: &mut String, ch: char)
    ensures
        final(s)@ == old(s)@.push(ch),
;

/// The chars of a string slice, in order.
pub fn chars_of(s: &str) -> (v: Vec<char>)
    ensures
        v@ == s@,
{
    let mut v: Vec<char> = Vec::new();
    for c in it: s.chars()
        invariant
            v@ == it.seq().take(it.index() as int),
            it.seq() == s@,
    {
        v.push(c);
    }
    v
}


/// The string of the chars `v[a..b]`.
pub fn string_of_range(v: &[char], a: usize, b: usize) -> (s: String)
    requires
        a <= b <= v@.len(),
    ensures
        s@ == v@.subrange(a as int, b as int),
{
    let mut s = String::new();
    let mut k = a;
    while k < b
        invariant
            a <= k <= b <= v@.len(),
            s@ == v@.subrange(a as int, k as int),
        decreases b - k,
    {
        s.push(v[k]);
        k = k + 1;
    }
    s
}

/// The string of all chars of `v`.
pub fn string_of(v: &[char]) -> (s: String)
    ensures
        s@ == v@,
{
    string_of_range(v, 0, v.len())
}

/// Whether two char sequences are equal.
pub fn chars_eq(a: &[char], b: &[char]) -> (r: bool)
    ensures
        r == (a@ == b@),
{
    if a.len() != b.len() {
        return false;
    }
    let mut k: usize = 0;
    while k < a.len()
        invariant
            a@.len() == b@.len(),
            k <= a@.len(),
            a@.subrange(0, k as int) == b@.subrange(0, k as int),
        decreases a@.len() - k,
    {
        if a[k] != b[k] {
            assert(a@[k as int] != b@[k as int]);
            return false;
        }
        assert(a@.subrange(0, k + 1) == a@.subrange(0, k as int).push(a@[k as int]));
        assert(b@.subrange(0, k + 1) == b@.subrange(0, k as int).push(b@[k as int]));
        k = k + 1;
    }
    assert(a@ == a@.subrange(0, a@.len() as int));
    assert(b@ == b@.subrange(0, b@.len() as int));
    true
}

/// The ASCII digit of `d`.
pub open spec fn digit_char(d: nat) -> char {
    (48 + d) as char
}

/// Decimal spelling of `n`, most significant digit first, without leading zeros.
pub open spec fn decimal(n: nat) -> Seq<char>
    decreases n,
{
    if n < 10 {
        seq![digit_char(n)]
    } else {
        decimal(n / 10).push(digit_char(n % 10))
    }
}

/// Appends the decimal spelling of `n`.
pub fn push_decimal(s: &mut String, n: u64)
    ensures
        final(s)@ == old(s)@ + decimal(n as nat),
    decreases n,
{
    if n >= 10 {
        push_decimal(s, n / 10);
    }
    let d: u8 = (n % 10) as u8;
    let c = (48u8 + d) as char;
    s.push(c);
}

/// Rust's `Debug` spelling of a string slice (quoted, with escapes), as `format!("{:?}")` produces it.
pub uninterp spec fn str_debug(s: Seq<char>) -> Seq<char>;

/// Rust's `Debug` spelling of a char (single-quoted, with escapes), as `format!("{:?}")` produces it.
pub uninterp spec fn char_debug(c: char) -> Seq<char>;

/// A byte that can lead a multi-byte UTF-8 sequence: the sequence's length
/// and the range its second byte must lie in (the later bytes lie in
/// `0x80..=0xBF`); `None` for a byte that cannot lead one.
pub open spec fn utf8_lead(b0: u8) -> Option<(int, u8, u8)> {
    if 0xC2 <= b0 <= 0xDF {
        Some((2, 0x80u8, 0xBFu8))
    } else if b0 == 0xE0 {
        Some((3, 0xA0u8, 0xBFu8))
    } else if (0xE1 <= b0 <= 0xEC) || (0xEE <= b0 <= 0xEF) {
        Some((3, 0x80u8, 0xBFu8))
    } else if b0 == 0xED {
        Some((3, 0x80u8, 0x9Fu8))
    } else if b0 == 0xF0 {
        Some((4, 0x90u8, 0xBFu8))
    } else if 0xF1 <= b0 <= 0xF3 {
        Some((4, 0x80u8, 0xBFu8))
    } else if b0 == 0xF4 {
        Some((4, 0x80u8, 0x8Fu8))
    } else {
        None
    }
}

/// How many of the `n - 1` bytes after the lead at `i` continue its sequence,
/// counted up to the first that does not (or the end of the bytes).
pub open spec fn continuation_run(b: Seq<u8>, i: int, n: int, lo: u8, hi: u8) -> int {
    if !(i + 1 < b.len()) || !(lo <= b[i + 1] <= hi) {
        0
    } else if n == 2 || !(i + 2 < b.len()) || !(0x80 <= b[i + 2] <= 0xBF) {
        1
    } else if n == 3 || !(i + 3 < b.len()) || !(0x80 <= b[i + 3] <= 0xBF) {
        2
    } else {
        3
    }
}

/// The code point of the complete `n`-byte sequence at `i`.
pub open spec fn utf8_scalar(b: Seq<u8>, i: int, n: int) -> int {
    if n == 2 {
        (b[i] - 0xC0) * 64 + (b[i + 1] - 0x80)
    } else if n == 3 {
        (b[i] - 0xE0) * 4096 + (b[i + 1] - 0x80) * 64 + (b[i + 2] - 0x80)
    } else {
        (b[i] - 0xF0) * 262144 + (b[i + 1] - 0x80) * 4096 + (b[i + 2] - 0x80) * 64 + (b[i + 3] - 0x80)
    }
}

/// Lossy decoding of `b[i..]`: ASCII bytes and complete sequences decode to
/// their chars; a byte that cannot lead a sequence, or a lead followed by
/// fewer continuation bytes than it needs, is replaced together with the
/// continuation bytes it has (the maximal invalid subpart) by one U+FFFD,
/// and decoding resumes after them.
pub open spec fn lossy_from(b: Seq<u8>, i: int) -> Seq<char>
    decreases b.len() - i,
{
    if !(0 <= i < b.len()) {
        seq![]
    } else if b[i] < 0x80 {
        seq![b[i] as char] + lossy_from(b, i + 1)
    } else {
        match utf8_lead(b[i]) {
            None => seq!['\u{FFFD}'] + lossy_from(b, i + 1),
            Some((n, lo, hi)) => {
                let k = continuation_run(b, i, n, lo, hi);
                if k == n - 1 {
                    seq![utf8_scalar(b, i, n) as char] + lossy_from(b, i + n)
                } else {
                    seq!['\u{FFFD}'] + lossy_from(b, i + 1 + k)
                }
            },
        }
    }
}

/// `<str as Debug>::fmt` through `format!("{:?}")`: the result is named
/// `str_debug` of the chars; the escaping rules are not restated.
#[verifier::external_body]
pub(crate) fn debug_str(s: &str) -> (r: String)
    ensures
        r@ == str_debug(s@),
{
    format!("{:?}", s)
}

/// `<char as Debug>::fmt` through `format!("{:?}")`: the result is named
/// `char_debug` of the char; the escaping rules are not restated.
#[verifier::external_body]
pub(crate) fn debug_char(c: char) -> (r: String)
    ensures
        r@ == char_debug(c),
{
    format!("{:?}", c)
}

/// The text of a byte sequence: the chars it encodes when it is valid
/// UTF-8, else its lossy decoding.
pub open spec fn lossy_text(bytes: Seq<u8>) -> Seq<char> {
    if valid_utf8(bytes) {
        decode_utf8(bytes)
    } else {
        lossy_from(bytes, 0)
    }
}

/// `String::from_utf8_lossy` (made owned): as documented, valid UTF-8 comes
/// back as exactly the chars it encodes, and each invalid sequence (a byte
/// that cannot lead a sequence, or a lead with the continuation bytes it has
/// short of a complete sequence) becomes one U+FFFD.
#[verifier::external_body]
pub(crate) fn from_utf8_lossy(bytes: &[u8]) -> (r: String)
    ensures
        valid_utf8(bytes@) ==> r@ == decode_utf8(bytes@),
        !valid_utf8(bytes@) ==> r@ == lossy_from(bytes@, 0),
{
    String::from_utf8_lossy(bytes).into_owned()
}

} // verus!
