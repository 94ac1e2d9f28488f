//! Minimal parser for vocab.json: one flat JSON object mapping token strings
//! to unsigned integer ids. Handles the full string escape set including
//! \uXXXX with surrogate pairs; anything structurally different errors.

use vstd::prelude::*;
use vstd::string::*;
use crate::text::{char_is_whitespace, is_white_space, chars_eq, decimal, push_decimal, str_debug, debug_str};
use crate::tokenizer::merge::copy_chars;
use crate::tokenizer::TokenizerError;

verus! {

/// Why a vocab.json text was rejected: a structural error with its message
/// and char position, or a token that occurs twice.
pub enum VocabError {
    At(Seq<char>, int),
    DuplicateToken(Seq<char>),
}

/// Position of the first non-whitespace char at or after `i`.
pub open spec fn skip_ws(b: Seq<char>, i: int) -> int
    decreases b.len() - i,
{
    if 0 <= i < b.len() && char_is_whitespace(b[i]) {
        skip_ws(b, i + 1)
    } else {
        i
    }
}

/// Value of a hexadecimal digit (`0-9`, `a-f`, `A-F`).
pub open spec fn hex_val(c: char) -> Option<nat> {
    let v = c as u32;
    if 48 <= v <= 57 {
        Some((v - 48) as nat)
    } else if 97 <= v <= 102 {
        Some((v - 87) as nat)
    } else if 65 <= v <= 70 {
        Some((v - 55) as nat)
    } else {
        None
    }
}

/// Reads `k` more hex digits at `i` onto the value `v`: the value and the
/// position after them, or the error position (a missing digit errs at its
/// own position, a non-hex char just after it).
pub open spec fn hex_digits(b: Seq<char>, i: int, k: nat, v: nat) -> Result<(nat, int), int>
    decreases k,
{
    if k == 0 {
        Ok((v, i))
    } else if !(0 <= i < b.len()) {
        Err(i)
    } else {
        match hex_val(b[i]) {
            None => Err(i + 1),
            Some(d) => hex_digits(b, i + 1, (k - 1) as nat, v * 16 + d),
        }
    }
}

/// The four hex digits of a `\u` escape at `i`.
pub open spec fn hex4(b: Seq<char>, i: int) -> Result<(nat, int), int> {
    hex_digits(b, i, 4, 0)
}

/// Whether `v` is a Unicode scalar value.
pub open spec fn is_scalar_value(v: nat) -> bool {
    v <= 0x10FFFF && !(0xD800 <= v <= 0xDFFF)
}

/// The char that a simple escape `\e` stands for.
pub open spec fn simple_escape(e: char) -> Option<char> {
    if e == '"' {
        Some('"')
    } else if e == '\\' {
        Some('\\')
    } else if e == '/' {
        Some('/')
    } else if e == 'b' {
        Some('\u{0008}')
    } else if e == 'f' {
        Some('\u{000C}')
    } else if e == 'n' {
        Some('\n')
    } else if e == 'r' {
        Some('\r')
    } else if e == 't' {
        Some('\t')
    } else {
        None
    }
}

/// Decoding of a string body from `i` with `s` decoded so far: the string
/// and the position after the closing quote, or an error message and position.
pub open spec fn string_body(b: Seq<char>, i: int, s: Seq<char>) -> Result<(Seq<char>, int), (Seq<char>, int)>
    decreases b.len() - i,
{
    if !(0 <= i < b.len()) {
        Err(("unterminated string"@, i))
    } else {
        let c = b[i];
        let i1 = i + 1;
        if c == '"' {
            Ok((s, i1))
        } else if c == '\\' {
            if i1 >= b.len() {
                Err(("unterminated escape"@, i1))
            } else {
                let e = b[i1];
                let i2 = i1 + 1;
                if e == 'u' {
                    match hex4(b, i2) {
                        Err(at) => Err(("bad \\u escape"@, at)),
                        Ok((hi, i3)) => {
                            if 0xD800 <= hi <= 0xDBFF {
                                if !(0 <= i3 && i3 + 1 < b.len() && b[i3] == '\\' && b[i3 + 1]
                                    == 'u') {
                                    Err(("unpaired high surrogate"@, i3))
                                } else {
                                    match hex4(b, i3 + 2) {
                                        Err(at) => Err(("bad \\u escape"@, at)),
                                        Ok((lo, i4)) => {
                                            if !(0xDC00 <= lo <= 0xDFFF) {
                                                Err(("invalid low surrogate"@, i4))
                                            } else if i < i4 <= b.len() {
                                                let cp = 0x10000 + (hi - 0xD800) * 1024 + (lo
                                                    - 0xDC00);
                                                string_body(b, i4, s.push(cp as char))
                                            } else {
                                                Err(("unterminated string"@, i))
                                            }
                                        },
                                    }
                                }
                            } else if !is_scalar_value(hi) {
                                Err(("invalid codepoint"@, i3))
                            } else if i < i3 <= b.len() {
                                string_body(b, i3, s.push(hi as char))
                            } else {
                                Err(("unterminated string"@, i))
                            }
                        },
                    }
                } else {
                    match simple_escape(e) {
                        Some(x) => string_body(b, i2, s.push(x)),
                        None => Err(("unknown escape"@, i2)),
                    }
                }
            }
        } else {
            string_body(b, i1, s.push(c))
        }
    }
}

/// A JSON string literal at `i`: its chars and the position after it.
pub open spec fn parse_string(b: Seq<char>, i: int) -> Result<(Seq<char>, int), (Seq<char>, int)> {
    if !(0 <= i < b.len()) || b[i] != '"' {
        Err(("expected '\"'"@, i))
    } else {
        string_body(b, i + 1, seq![])
    }
}

/// Whether `c` is an ASCII decimal digit.
pub open spec fn is_digit(c: char) -> bool {
    48 <= c as u32 <= 57
}

/// End of the run of ASCII digits starting at `i`.
pub open spec fn digits_end(b: Seq<char>, i: int) -> int
    decreases b.len() - i,
{
    if 0 <= i < b.len() && is_digit(b[i]) {
        digits_end(b, i + 1)
    } else {
        i
    }
}

/// Decimal value of the digits `b[i..j]`.
pub open spec fn digits_value(b: Seq<char>, i: int, j: int) -> nat
    decreases j - i,
{
    if j <= i {
        0
    } else {
        digits_value(b, i, j - 1) * 10 + ((b[j - 1] as u32) - 48) as nat
    }
}

/// Whether `key` is a token of `acc`.
pub open spec fn has_token(acc: Seq<(Seq<char>, u32)>, key: Seq<char>) -> bool {
    exists|k: int| 0 <= k < acc.len() && (#[trigger] acc[k]).0 == key
}

/// The entries `acc` of an object whose closing `}` ends just before `i`:
/// only whitespace may follow the object.
pub open spec fn object_closed(b: Seq<char>, i: int, acc: Seq<(Seq<char>, u32)>) -> Result<Seq<(Seq<char>, u32)>, VocabError> {
    let t = skip_ws(b, i);
    if 0 <= t < b.len() {
        Err(VocabError::At("unexpected text after the object"@, t))
    } else {
        Ok(acc)
    }
}

/// The entries of the object from position `i` (just after `{` or `,`),
/// appended to those already read.
pub open spec fn entries_from(b: Seq<char>, i: int, acc: Seq<(Seq<char>, u32)>) -> Result<Seq<(Seq<char>, u32)>, VocabError>
    decreases b.len() - i,
{
    let i1 = skip_ws(b, i);
    match parse_string(b, i1) {
        Err((m, at)) => Err(VocabError::At(m, at)),
        Ok((key, i2)) => {
            let i3 = skip_ws(b, i2);
            if !(0 <= i3 < b.len()) || b[i3] != ':' {
                Err(VocabError::At("expected ':'"@, i3))
            } else {
                let i4 = skip_ws(b, i3 + 1);
                let j = digits_end(b, i4);
                if j == i4 {
                    Err(VocabError::At("expected an unsigned integer id"@, j))
                } else if digits_value(b, i4, j) > u32::MAX {
                    Err(VocabError::At("id out of range"@, i4))
                } else if has_token(acc, key) {
                    Err(VocabError::DuplicateToken(key))
                } else {
                    let acc2 = acc.push((key, digits_value(b, i4, j) as u32));
                    let i5 = skip_ws(b, j);
                    if 0 <= i5 < b.len() && b[i5] == ',' {
                        if i5 + 1 > i {
                            entries_from(b, i5 + 1, acc2)
                        } else {
                            Err(VocabError::At("expected ',' or '}'"@, i5))
                        }
                    } else if 0 <= i5 < b.len() && b[i5] == '}' {
                        object_closed(b, i5 + 1, acc2)
                    } else {
                        Err(VocabError::At("expected ',' or '}'"@, i5))
                    }
                }
            }
        },
    }
}

/// The (token, id) entries of a vocab.json text, in order.
pub open spec fn parse_vocab(b: Seq<char>) -> Result<Seq<(Seq<char>, u32)>, VocabError> {
    let i0 = skip_ws(b, 0);
    if !(0 <= i0 < b.len()) || b[i0] != '{' {
        Err(VocabError::At("expected '{'"@, i0))
    } else {
        let i1 = skip_ws(b, i0 + 1);
        if 0 <= i1 < b.len() && b[i1] == '}' {
            object_closed(b, i1 + 1, seq![])
        } else {
            entries_from(b, i0 + 1, seq![])
        }
    }
}

/// The message of a vocab.json error.
pub open spec fn vocab_error_message(e: VocabError) -> Seq<char> {
    match e {
        VocabError::At(m, at) => "vocab.json at "@ + decimal(at as nat) + ": "@ + m,
        VocabError::DuplicateToken(key) => "duplicate token "@ + str_debug(key),
    }
}

proof fn lemma_skip_ws_ge(b: Seq<char>, i: int)
    requires
        0 <= i,
    ensures
        i <= skip_ws(b, i),
        skip_ws(b, i) <= b.len() || skip_ws(b, i) == i,
    decreases b.len() - i,
{
    if 0 <= i < b.len() && char_is_whitespace(b[i]) {
        lemma_skip_ws_ge(b, i + 1);
    }
}

/// A structural parse error: message and char position.
pub struct JsonAt {
    pub msg: &'static str,
    pub at: usize,
}

fn skip_whitespace(b: &Vec<char>, i: usize) -> (r: usize)
    requires
        i <= b@.len(),
    ensures
        r == skip_ws(b@, i as int),
        i <= r <= b@.len(),
{
    let mut j = i;
    while j < b.len() && is_white_space(b[j])
        invariant
            i <= j <= b@.len(),
            skip_ws(b@, j as int) == skip_ws(b@, i as int),
        decreases b@.len() - j,
    {
        j = j + 1;
    }
    j
}

fn hex_digit(c: char) -> (r: Option<u32>)
    ensures
        match hex_val(c) {
            Some(d) => r == Some(d as u32),
            None => r is None,
        },
{
    let v = c as u32;
    if 48 <= v && v <= 57 {
        Some(v - 48)
    } else if 97 <= v && v <= 102 {
        Some(v - 87)
    } else if 65 <= v && v <= 70 {
        Some(v - 55)
    } else {
        None
    }
}

fn parse_hex4(b: &Vec<char>, i: usize) -> (r: Result<(u32, usize), JsonAt>)
    requires
        i <= b@.len(),
    ensures
        match hex4(b@, i as int) {
            Ok((v, e)) => r matches Ok((rv, re)) && rv == v && re == e && e <= b@.len() && v <= 0xFFFF,
            Err(at) => r matches Err(x) && x.msg@ == "bad \\u escape"@ && x.at == at,
        },
        r matches Ok((_, re)) ==> re == i + 4,
{
    let mut v: u32 = 0;
    let mut j = i;
    let mut k: u32 = 0;
    while k < 4
        invariant
            k <= 4,
            j == i + k,
            j <= b@.len() || k == 0,
            i <= b@.len(),
            hex_digits(b@, j as int, (4 - k) as nat, v as nat) == hex4(b@, i as int),
            v < if k == 0 {
                1u32
            } else if k == 1 {
                16u32
            } else if k == 2 {
                256u32
            } else if k == 3 {
                4096u32
            } else {
                65536u32
            },
        decreases 4 - k,
    {
        if j >= b.len() {
            return Err(JsonAt { msg: "bad \\u escape", at: j });
        }
        let c = b[j];
        j = j + 1;
        match hex_digit(c) {
            None => {
                return Err(JsonAt { msg: "bad \\u escape", at: j });
            },
            Some(d) => {
                v = v * 16 + d;
            },
        }
        k = k + 1;
    }
    Ok((v, j))
}


fn read_string(b: &Vec<char>, i: usize) -> (r: Result<(Vec<char>, usize), JsonAt>)
    requires
        i <= b@.len(),
    ensures
        match parse_string(b@, i as int) {
            Ok((s, e)) => r matches Ok((rs, re)) && rs@ == s && re == e && i < e <= b@.len(),
            Err((m, at)) => r matches Err(x) && x.msg@ == m && x.at == at,
        },
{
    if i >= b.len() || b[i] != '"' {
        return Err(JsonAt { msg: "expected '\"'", at: i });
    }
    let mut s: Vec<char> = Vec::new();
    let mut j = i + 1;
    loop
        invariant
            i < j <= b@.len(),
            string_body(b@, j as int, s@) == parse_string(b@, i as int),
        decreases b@.len() - j,
    {
        if j >= b.len() {
            return Err(JsonAt { msg: "unterminated string", at: j });
        }
        let c = b[j];
        let i1 = j + 1;
        if c == '"' {
            return Ok((s, i1));
        } else if c == '\\' {
            if i1 >= b.len() {
                return Err(JsonAt { msg: "unterminated escape", at: i1 });
            }
            let e = b[i1];
            let i2 = i1 + 1;
            if e == 'u' {
                let (hi, i3) = match parse_hex4(b, i2) {
                    Err(x) => {
                        return Err(x);
                    },
                    Ok(p) => p,
                };
                assert(hex4(b@, i2 as int) == Ok::<(nat, int), int>((hi as nat, i3 as int)));
                assert(i3 <= b@.len());
                if 0xD800 <= hi && hi <= 0xDBFF {
                    // Surrogate pair: require the low half.
                    if !(b.len() > 1 && i3 < b.len() - 1 && b[i3] == '\\' && b[i3 + 1] == 'u') {
                        return Err(JsonAt { msg: "unpaired high surrogate", at: i3 });
                    }
                    let (lo, i4) = match parse_hex4(b, i3 + 2) {
                        Err(x) => {
                            return Err(x);
                        },
                        Ok(p) => p,
                    };
                    assert(hex4(b@, i3 + 2) == Ok::<(nat, int), int>((lo as nat, i4 as int)));
                    if !(0xDC00 <= lo && lo <= 0xDFFF) {
                        return Err(JsonAt { msg: "invalid low surrogate", at: i4 });
                    }
                    let cp: u32 = 0x10000 + (hi - 0xD800) * 1024 + (lo - 0xDC00);
                    let ch = char::from_u32(cp).unwrap();
                    proof {
                        vstd::utf8::char_u32_cast(ch, cp);
                    }
                    assert(ch == (cp as int) as char);
                    s.push(ch);
                    j = i4;
                } else {
                    match char::from_u32(hi) {
                        None => {
                            return Err(JsonAt { msg: "invalid codepoint", at: i3 });
                        },
                        Some(ch) => {
                            proof {
                                vstd::utf8::char_u32_cast(ch, hi);
                            }
                            assert(ch == (hi as int) as char);
                            s.push(ch);
                            j = i3;
                        },
                    }
                }
            } else {
                let x = if e == '"' {
                    '"'
                } else if e == '\\' {
                    '\\'
                } else if e == '/' {
                    '/'
                } else if e == 'b' {
                    '\u{0008}'
                } else if e == 'f' {
                    '\u{000C}'
                } else if e == 'n' {
                    '\n'
                } else if e == 'r' {
                    '\r'
                } else if e == 't' {
                    '\t'
                } else {
                    return Err(JsonAt { msg: "unknown escape", at: i2 });
                };
                s.push(x);
                j = i2;
            }
        } else {
            s.push(c);
            j = i1;
        }
    }
}

/// Whether `c` is an ASCII decimal digit.
fn ascii_digit(c: char) -> (r: bool)
    ensures
        r == is_digit(c),
{
    let v = c as u32;
    48 <= v && v <= 57
}

proof fn lemma_digits_value_mono(b: Seq<char>, i: int, j: int, k: int)
    requires
        i <= j <= k,
        forall|x: int| i <= x < k ==> is_digit(#[trigger] b[x]),
    ensures
        digits_value(b, i, j) <= digits_value(b, i, k),
    decreases k - j,
{
    if j < k {
        lemma_digits_value_mono(b, i, j, k - 1);
    }
}

/// The value of the digits `b[i..j]`, or `None` when it exceeds `u32::MAX`.
fn digits_u32(b: &Vec<char>, i: usize, j: usize) -> (r: Option<u32>)
    requires
        i <= j <= b@.len(),
        forall|x: int| i <= x < j ==> is_digit(#[trigger] b@[x]),
    ensures
        digits_value(b@, i as int, j as int) <= u32::MAX ==> r == Some(digits_value(b@, i as int, j as int) as u32),
        digits_value(b@, i as int, j as int) > u32::MAX ==> r is None,
{
    let mut v: u32 = 0;
    let mut k = i;
    while k < j
        invariant
            i <= k <= j <= b@.len(),
            forall|x: int| i <= x < j ==> is_digit(#[trigger] b@[x]),
            v == digits_value(b@, i as int, k as int),
        decreases j - k,
    {
        let d = (b[k] as u32) - 48;
        assert(is_digit(b@[k as int]));
        match v.checked_mul(10) {
            None => {
                proof {
                    lemma_digits_value_mono(b@, i as int, k + 1, j as int);
                }
                return None;
            },
            Some(t) => match t.checked_add(d) {
                None => {
                    proof {
                        lemma_digits_value_mono(b@, i as int, k + 1, j as int);
                    }
                    return None;
                },
                Some(u) => {
                    v = u;
                },
            },
        }
        k = k + 1;
    }
    Some(v)
}

/// The entries `toks[k]` / `ids[k]` as (token, id) pairs.
pub open spec fn entries_view(toks: Seq<Vec<char>>, ids: Seq<u32>) -> Seq<(Seq<char>, u32)> {
    Seq::new(toks.len(), |k: int| (toks[k]@, ids[k]))
}

/// Whether `key` is one of `toks`.
fn contains_token(toks: &Vec<Vec<char>>, key: &Vec<char>) -> (r: bool)
    ensures
        r == exists|k: int| 0 <= k < toks@.len() && (#[trigger] toks@[k])@ == key@,
{
    let mut k: usize = 0;
    while k < toks.len()
        invariant
            k <= toks@.len(),
            forall|x: int| 0 <= x < k ==> (#[trigger] toks@[x])@ != key@,
        decreases toks@.len() - k,
    {
        if chars_eq(&toks[k], key) {
            return true;
        }
        k = k + 1;
    }
    false
}

/// Builds the `Format` error for a structural vocab.json error.
fn at_error(x: JsonAt) -> (e: TokenizerError)
    ensures
        e@ == crate::tokenizer::TokenizerErrorView::Format(vocab_error_message(VocabError::At(x.msg@, x.at as int))),
{
    let mut m = String::from_str("vocab.json at ");
    push_decimal(&mut m, x.at as u64);
    m.append(": ");
    m.append(x.msg);
    TokenizerError::Format(m)
}

/// Parses a vocab.json text into its tokens and ids, in text order.
pub fn parse_vocab_json(src: &str) -> (r: Result<(Vec<Vec<char>>, Vec<u32>), TokenizerError>)
    ensures
        match parse_vocab(src@) {
            Ok(es) => r matches Ok((toks, ids)) && toks@.len() == ids@.len() && entries_view(toks@, ids@) == es,
            Err(e) => r matches Err(err) && err@ == crate::tokenizer::TokenizerErrorView::Format(vocab_error_message(e)),
        },
{
    let b = crate::text::chars_of(src);
    let mut toks: Vec<Vec<char>> = Vec::new();
    let mut ids: Vec<u32> = Vec::new();
    let i0 = skip_whitespace(&b, 0);
    if i0 >= b.len() || b[i0] != '{' {
        return Err(at_error(JsonAt { msg: "expected '{'", at: i0 }));
    }
    let mut i = i0 + 1;
    let i1 = skip_whitespace(&b, i);
    if i1 < b.len() && b[i1] == '}' {
        assert(entries_view(toks@, ids@) =~= seq![]);
        let t = skip_whitespace(&b, i1 + 1);
        if t < b.len() {
            return Err(at_error(JsonAt { msg: "unexpected text after the object", at: t }));
        }
        return Ok((toks, ids));
    }
    assert(entries_view(toks@, ids@) =~= seq![]);
    loop
        invariant
            b@ == src@,
            i <= b@.len(),
            toks@.len() == ids@.len(),
            entries_from(b@, i as int, entries_view(toks@, ids@)) == parse_vocab(src@),
        decreases b@.len() - i,
    {
        let ghost acc = entries_view(toks@, ids@);
        let i1 = skip_whitespace(&b, i);
        let (key, i2) = match read_string(&b, i1) {
            Err(x) => {
                return Err(at_error(x));
            },
            Ok(p) => p,
        };
        let i3 = skip_whitespace(&b, i2);
        if i3 >= b.len() || b[i3] != ':' {
            return Err(at_error(JsonAt { msg: "expected ':'", at: i3 }));
        }
        let i4 = skip_whitespace(&b, i3 + 1);
        let mut j = i4;
        while j < b.len() && ascii_digit(b[j])
            invariant
                i4 <= j <= b@.len(),
                digits_end(b@, j as int) == digits_end(b@, i4 as int),
                forall|x: int| i4 <= x < j ==> is_digit(#[trigger] b@[x]),
            decreases b@.len() - j,
        {
            j = j + 1;
        }
        if j == i4 {
            return Err(at_error(JsonAt { msg: "expected an unsigned integer id", at: j }));
        }
        let id = match digits_u32(&b, i4, j) {
            None => {
                return Err(at_error(JsonAt { msg: "id out of range", at: i4 }));
            },
            Some(v) => v,
        };
        if contains_token(&toks, &key) {
            assert(has_token(acc, key@)) by {
                let k = choose|k: int| 0 <= k < toks@.len() && (#[trigger] toks@[k])@ == key@;
                assert(acc[k].0 == key@);
            }
            let mut m = String::from_str("duplicate token ");
            let shown = crate::text::string_of(&key);
            let dbg = debug_str(shown.as_str());
            m.append(dbg.as_str());
            return Err(TokenizerError::Format(m));
        }
        assert(!has_token(acc, key@)) by {
            if has_token(acc, key@) {
                let k = choose|k: int| 0 <= k < acc.len() && (#[trigger] acc[k]).0 == key@;
                assert(toks@[k]@ == key@);
            }
        }
        toks.push(key);
        ids.push(id);
        assert(entries_view(toks@, ids@) =~= acc.push((key@, id)));
        let i5 = skip_whitespace(&b, j);
        if i5 < b.len() && b[i5] == ',' {
            i = i5 + 1;
        } else if i5 < b.len() && b[i5] == '}' {
            let t = skip_whitespace(&b, i5 + 1);
            if t < b.len() {
                return Err(at_error(JsonAt { msg: "unexpected text after the object", at: t }));
            }
            return Ok((toks, ids));
        } else {
            return Err(at_error(JsonAt { msg: "expected ',' or '}'", at: i5 }));
        }
    }
}

} // verus!
