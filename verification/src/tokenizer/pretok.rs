//! GPT-2's pre-tokenization split. The reference is the regex
//! `'(?:[sdmt]|ll|ve|re)| ?\p{L}+| ?\p{N}+| ?[^\s\p{L}\p{N}]+|\s+(?!\S)|\s+`,
//! whose observable behaviour is: contractions split off; a single literal
//! space attaches to a following letter/number/symbol run; a whitespace run
//! followed by a token yields the run minus its last character; trailing
//! whitespace stays whole.

use vstd::prelude::*;
use crate::text::{char_is_alphabetic, char_is_numeric, char_is_whitespace, chars_of, is_white_space, string_of_range};

verus! {

broadcast use vstd::seq_lib::group_seq_properties;

/// A char that is neither whitespace, a letter nor a number.
pub open spec fn is_other(c: char) -> bool {
    !char_is_whitespace(c) && !char_is_alphabetic(c) && !char_is_numeric(c)
}

/// Run class of a char: 0 letters, 1 numbers, 2 other symbols, 3 whitespace.
pub open spec fn class_of(c: char) -> u8 {
    if char_is_alphabetic(c) {
        0
    } else if char_is_numeric(c) {
        1
    } else if is_other(c) {
        2
    } else {
        3
    }
}

/// Whether `c` continues a run of class `k` (0, 1 or 2).
pub open spec fn in_class(k: u8, c: char) -> bool {
    if k == 0 {
        char_is_alphabetic(c)
    } else if k == 1 {
        char_is_numeric(c)
    } else {
        is_other(c)
    }
}

/// End of the maximal run of class `k` starting at `j`.
pub open spec fn run_end(cs: Seq<char>, j: int, k: u8) -> int
    decreases cs.len() - j,
{
    if 0 <= j < cs.len() && in_class(k, cs[j]) {
        run_end(cs, j + 1, k)
    } else {
        j
    }
}

/// End of the maximal whitespace run starting at `j`.
pub open spec fn ws_end(cs: Seq<char>, j: int) -> int
    decreases cs.len() - j,
{
    if 0 <= j < cs.len() && char_is_whitespace(cs[j]) {
        ws_end(cs, j + 1)
    } else {
        j
    }
}

/// Length of the contraction (`'s`, `'d`, `'m`, `'t`, `'ll`, `'ve`, `'re`)
/// starting at `i`, or 0 when none starts there.
pub open spec fn contraction_len(cs: Seq<char>, i: int) -> int {
    if cs[i] == '\'' && i + 1 < cs.len() {
        let c1 = cs[i + 1];
        if c1 == 's' || c1 == 'd' || c1 == 'm' || c1 == 't' {
            2
        } else if i + 2 < cs.len() && ((c1 == 'l' && cs[i + 2] == 'l') || (c1 == 'v' && cs[i + 2]
            == 'e') || (c1 == 'r' && cs[i + 2] == 'e')) {
            3
        } else {
            0
        }
    } else {
        0
    }
}

/// Where the run part of a piece starts: after one literal space that is
/// followed by another char, else at `i`.
pub open spec fn run_start(cs: Seq<char>, i: int) -> int {
    if cs[i] == ' ' && i + 1 < cs.len() {
        i + 1
    } else {
        i
    }
}

/// End of the piece that starts at `i` (for `0 <= i < cs.len()`).
pub open spec fn piece_end(cs: Seq<char>, i: int) -> int {
    let cl = contraction_len(cs, i);
    if cl > 0 {
        i + cl
    } else {
        let rs = run_start(cs, i);
        let k = class_of(cs[rs]);
        if k < 3 {
            run_end(cs, rs, k)
        } else {
            // The piece is a whitespace run (`cs[i]` is whitespace here).
            let j = ws_end(cs, i + 1);
            if j < cs.len() && j - i > 1 {
                j - 1
            } else {
                j
            }
        }
    }
}

/// The pieces of `cs[i..]`.
pub open spec fn pieces_from(cs: Seq<char>, i: int) -> Seq<Seq<char>>
    decreases cs.len() - i,
{
    if 0 <= i < cs.len() {
        let e = piece_end(cs, i);
        if i < e <= cs.len() {
            seq![cs.subrange(i, e)] + pieces_from(cs, e)
        } else {
            seq![]
        }
    } else {
        seq![]
    }
}

/// GPT-2's pre-tokenization of a text.
pub open spec fn pieces(cs: Seq<char>) -> Seq<Seq<char>> {
    pieces_from(cs, 0)
}

proof fn lemma_run_end_bounds(cs: Seq<char>, j: int, k: u8)
    requires
        0 <= j <= cs.len(),
    ensures
        j <= run_end(cs, j, k) <= cs.len(),
    decreases cs.len() - j,
{
    if j < cs.len() && in_class(k, cs[j]) {
        lemma_run_end_bounds(cs, j + 1, k);
    }
}

proof fn lemma_ws_end_bounds(cs: Seq<char>, j: int)
    requires
        0 <= j <= cs.len(),
    ensures
        j <= ws_end(cs, j) <= cs.len(),
    decreases cs.len() - j,
{
    if j < cs.len() && char_is_whitespace(cs[j]) {
        lemma_ws_end_bounds(cs, j + 1);
    }
}

/// A piece is never empty and never runs past the text.
pub proof fn lemma_piece_end_bounds(cs: Seq<char>, i: int)
    requires
        0 <= i < cs.len(),
    ensures
        i < piece_end(cs, i) <= cs.len(),
{
    let cl = contraction_len(cs, i);
    if cl == 0 {
        let rs = run_start(cs, i);
        let k = class_of(cs[rs]);
        if k < 3 {
            lemma_run_end_bounds(cs, rs + 1, k);
        } else {
            lemma_ws_end_bounds(cs, i + 1);
        }
    }
}

/// The pieces of `cs[i..]` concatenate back to `cs[i..]`.
pub proof fn lemma_pieces_from_flatten(cs: Seq<char>, i: int)
    requires
        0 <= i <= cs.len(),
    ensures
        pieces_from(cs, i).flatten() == cs.subrange(i, cs.len() as int),
        forall|k: int| 0 <= k < pieces_from(cs, i).len() ==> #[trigger] pieces_from(cs, i)[k].len() > 0,
    decreases cs.len() - i,
{
    if i < cs.len() {
        let e = piece_end(cs, i);
        lemma_piece_end_bounds(cs, i);
        lemma_pieces_from_flatten(cs, e);
        let rest = pieces_from(cs, e);
        vstd::seq_lib::lemma_flatten_concat(seq![cs.subrange(i, e)], rest);
        seq![cs.subrange(i, e)].lemma_flatten_one_element();
        assert(cs.subrange(i, e) + cs.subrange(e, cs.len() as int) =~= cs.subrange(i, cs.len() as int));
        assert forall|k: int| 0 <= k < pieces_from(cs, i).len() implies #[trigger] pieces_from(cs, i)[k].len() > 0 by {
            if k > 0 {
                assert(pieces_from(cs, i)[k] == rest[k - 1]);
            }
        }
    } else {
        assert(cs.subrange(i, cs.len() as int) =~= Seq::<char>::empty());
    }
}

/// Pre-tokenization loses nothing: the pieces concatenate back to the text,
/// and none of them is empty.
pub proof fn lemma_pieces_flatten(cs: Seq<char>)
    ensures
        pieces(cs).flatten() == cs,
        forall|k: int| 0 <= k < pieces(cs).len() ==> #[trigger] pieces(cs)[k].len() > 0,
{
    lemma_pieces_from_flatten(cs, 0);
    assert(cs.subrange(0, cs.len() as int) =~= cs);
}

/// Contraction law: the piece that starts at an apostrophe followed by `s`,
/// `d`, `m` or `t` is exactly those two chars, and the piece that starts at
/// an apostrophe followed by `ll`, `ve` or `re` is exactly those three chars:
/// GPT-2's contractions are split off whole.
pub proof fn law_contractions_split_off(cs: Seq<char>, i: int)
    requires
        0 <= i < cs.len(),
        cs[i] == '\'',
    ensures
        i + 1 < cs.len() && (cs[i + 1] == 's' || cs[i + 1] == 'd' || cs[i + 1] == 'm' || cs[i + 1] == 't')
            ==> pieces_from(cs, i).len() > 0 && pieces_from(cs, i)[0] == cs.subrange(i, i + 2),
        i + 2 < cs.len() && ((cs[i + 1] == 'l' && cs[i + 2] == 'l') || (cs[i + 1] == 'v' && cs[i + 2] == 'e') || (
        cs[i + 1] == 'r' && cs[i + 2] == 'e')) ==> pieces_from(cs, i).len() > 0 && pieces_from(cs, i)[0]
            == cs.subrange(i, i + 3),
{
}

/// Whether `c` continues a run of class `k`.
fn continues_run(k: u8, c: char) -> (r: bool)
    requires
        k < 3,
    ensures
        r == in_class(k, c),
{
    if k == 0 {
        c.is_alphabetic()
    } else if k == 1 {
        c.is_numeric()
    } else {
        !is_white_space(c) && !c.is_alphabetic() && !c.is_numeric()
    }
}

/// End of the piece starting at `i`.
fn next_piece_end(chars: &Vec<char>, i: usize) -> (e: usize)
    requires
        i < chars@.len(),
    ensures
        e == piece_end(chars@, i as int),
{
    let n = chars.len();
    let ghost cs = chars@;
    // Contractions: '(?:[sdmt]|ll|ve|re), single-letter suffixes first like
    // the regex alternation.
    if chars[i] == '\'' && i + 1 < n {
        let c1 = chars[i + 1];
        if c1 == 's' || c1 == 'd' || c1 == 'm' || c1 == 't' {
            return i + 2;
        }
        if i + 2 < n {
            let c2 = chars[i + 2];
            if (c1 == 'l' && c2 == 'l') || (c1 == 'v' && c2 == 'e') || (c1 == 'r' && c2 == 'e') {
                return i + 3;
            }
        }
    }
    assert(contraction_len(cs, i as int) == 0);
    // ` ?` + letter/number/other runs. Only a literal space attaches.
    let rs: usize = if chars[i] == ' ' && i + 1 < n {
        i + 1
    } else {
        i
    };
    let first = chars[rs];
    let k: u8 = if first.is_alphabetic() {
        0
    } else if first.is_numeric() {
        1
    } else if !is_white_space(first) {
        2
    } else {
        3
    };
    assert(k == class_of(cs[rs as int]));
    if k < 3 {
        let mut j = rs;
        while j < n && continues_run(k, chars[j])
            invariant
                rs <= j <= n,
                n == cs.len(),
                cs == chars@,
                k < 3,
                run_end(cs, j as int, k) == run_end(cs, rs as int, k),
            decreases n - j,
        {
            j = j + 1;
        }
        return j;
    }
    // Whitespace: `\s+(?!\S)` then `\s+`. A run followed by a token yields
    // the run minus its final character; at end of text the whole run matches.
    let is_ws = is_white_space(chars[i]);
    assert(char_is_whitespace(cs[i as int]));
    let mut j = i + 1;
    while j < n && is_white_space(chars[j])
        invariant
            i < j <= n,
            n == cs.len(),
            cs == chars@,
            ws_end(cs, j as int) == ws_end(cs, i + 1),
        decreases n - j,
    {
        j = j + 1;
    }
    if j < n && j - i > 1 {
        j - 1
    } else {
        j
    }
}

/// GPT-2's pre-tokenization split of `text`.
pub fn pretokenize(text: &str) -> (out: Vec<String>)
    ensures
        out@.map_values(|s: String| s@) == pieces(text@),
{
    let chars = chars_of(text);
    let n = chars.len();
    let mut out: Vec<String> = Vec::new();
    let mut i: usize = 0;
    while i < n
        invariant
            i <= n,
            n == chars@.len(),
            chars@ == text@,
            out@.map_values(|s: String| s@) + pieces_from(chars@, i as int) == pieces(text@),
        decreases n - i,
    {
        let e = next_piece_end(&chars, i);
        proof {
            lemma_piece_end_bounds(chars@, i as int);
        }
        let piece = string_of_range(&chars, i, e);
        let ghost before = out@.map_values(|s: String| s@);
        out.push(piece);
        assert(out@.map_values(|s: String| s@) == before.push(piece@));
        assert(pieces_from(chars@, i as int) == seq![chars@.subrange(i as int, e as int)]
            + pieces_from(chars@, e as int));
        assert(before.push(piece@) + pieces_from(chars@, e as int) =~= before + pieces_from(
            chars@,
            i as int,
        ));
        i = e;
    }
    assert(out@.map_values(|s: String| s@) + pieces_from(chars@, i as int) == out@.map_values(
        |s: String| s@,
    ));
    out
}

} // verus!
