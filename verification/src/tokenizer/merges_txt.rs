//! Parser for merges.txt: one merge rule (two symbols separated by
//! whitespace) per non-blank line, ranked by line order; blank lines and a
//! `#version` header line are skipped.

use vstd::prelude::*;
use vstd::string::*;
use crate::text::{char_is_whitespace, is_white_space, decimal, push_decimal, str_debug, debug_str, string_of};
use crate::tokenizer::merge::{seqs, rules_view};
use crate::tokenizer::vocab_json::skip_ws;
use crate::tokenizer::{TokenizerError, TokenizerErrorView};

verus! {

broadcast use vstd::seq_lib::group_seq_properties;

/// Position of the first `'\n'` in `s`, or `s.len()` when there is none.
pub open spec fn newline_pos(s: Seq<char>, k: int) -> int
    decreases s.len() - k,
{
    if 0 <= k < s.len() && s[k] != '\n' {
        newline_pos(s, k + 1)
    } else {
        k
    }
}

/// The lines of a text as `str::lines` yields them: split at `'\n'`, a
/// `'\r'` just before a `'\n'` removed, no final empty line after a
/// trailing `'\n'`.
pub open spec fn lines_of(s: Seq<char>) -> Seq<Seq<char>>
    decreases s.len(),
{
    if s.len() == 0 {
        seq![]
    } else {
        let k = newline_pos(s, 0);
        if !(0 <= k < s.len()) {
            seq![s]
        } else {
            let line = s.subrange(0, k);
            let line = if k > 0 && line.last() == '\r' {
                line.drop_last()
            } else {
                line
            };
            seq![line] + lines_of(s.subrange(k + 1, s.len() as int))
        }
    }
}

/// End of the run of non-whitespace chars starting at `j`.
pub open spec fn word_end(l: Seq<char>, j: int) -> int
    decreases l.len() - j,
{
    if 0 <= j < l.len() && !char_is_whitespace(l[j]) {
        word_end(l, j + 1)
    } else {
        j
    }
}

/// The whitespace-separated words of `l[i..]`, as `str::split_whitespace` yields them.
pub open spec fn words_from(l: Seq<char>, i: int) -> Seq<Seq<char>>
    decreases l.len() - i,
{
    let s = skip_ws(l, i);
    if 0 <= i <= s < l.len() {
        let e = word_end(l, s);
        if s < e <= l.len() {
            seq![l.subrange(s, e)] + words_from(l, e)
        } else {
            seq![]
        }
    } else {
        seq![]
    }
}

/// The whitespace-separated words of a line.
pub open spec fn words(l: Seq<char>) -> Seq<Seq<char>> {
    words_from(l, 0)
}

/// The header marker that merges.txt files start with.
pub open spec fn version_marker() -> Seq<char> {
    seq!['#', 'v', 'e', 'r', 's', 'i', 'o', 'n']
}

/// Whether a line holds a rule: it is not blank and not a `#version` header.
pub open spec fn is_rule_line(l: Seq<char>) -> bool {
    &&& exists|k: int| 0 <= k < l.len() && !char_is_whitespace(#[trigger] l[k])
    &&& !(l.len() >= 8 && l.subrange(0, 8) == version_marker())
}

/// The message for a rule line that does not hold exactly two symbols.
pub open spec fn bad_rule_message(rank: nat, line: Seq<char>) -> Seq<char> {
    "merges line "@ + decimal(rank) + " is not exactly two symbols: "@ + str_debug(line)
}

/// The rules of `ls[k..]`, whose first rule line gets rank `r`.
pub open spec fn rules_from(ls: Seq<Seq<char>>, k: int, r: nat) -> Result<Seq<(Seq<char>, Seq<char>)>, Seq<char>>
    decreases ls.len() - k,
{
    if !(0 <= k < ls.len()) {
        Ok(seq![])
    } else if !is_rule_line(ls[k]) {
        rules_from(ls, k + 1, r)
    } else if words(ls[k]).len() == 2 {
        match rules_from(ls, k + 1, r + 1) {
            Ok(rest) => Ok(seq![(words(ls[k])[0], words(ls[k])[1])] + rest),
            Err(m) => Err(m),
        }
    } else {
        Err(bad_rule_message(r, ls[k]))
    }
}

/// The ranked merge rules of a merges.txt text, or the error message.
pub open spec fn parse_merges(text: Seq<char>) -> Result<Seq<(Seq<char>, Seq<char>)>, Seq<char>> {
    rules_from(lines_of(text), 0, 0)
}

proof fn lemma_newline_pos_bounds(s: Seq<char>, k: int)
    requires
        0 <= k <= s.len(),
    ensures
        k <= newline_pos(s, k) <= s.len(),
        newline_pos(s, k) < s.len() ==> s[newline_pos(s, k)] == '\n',
    decreases s.len() - k,
{
    if k < s.len() && s[k] != '\n' {
        lemma_newline_pos_bounds(s, k + 1);
    }
}

/// The lines of `text`.
pub fn split_lines(text: &Vec<char>) -> (ls: Vec<Vec<char>>)
    ensures
        seqs(ls@) == lines_of(text@),
{
    let n = text.len();
    let mut ls: Vec<Vec<char>> = Vec::new();
    let mut start: usize = 0;
    assert(text@.subrange(0, n as int) =~= text@);
    assert(seqs(ls@) =~= Seq::<Seq<char>>::empty());
    while start < n
        invariant
            start <= n == text@.len(),
            seqs(ls@) + lines_of(text@.subrange(start as int, n as int)) == lines_of(text@),
        decreases n - start,
    {
        let ghost rest = text@.subrange(start as int, n as int);
        let mut k = start;
        while k < n && text[k] != '\n'
            invariant
                start <= k <= n == text@.len(),
                rest == text@.subrange(start as int, n as int),
                newline_pos(rest, k - start) == newline_pos(rest, 0),
            decreases n - k,
        {
            k = k + 1;
        }
        proof {
            lemma_newline_pos_bounds(rest, 0);
        }
        let ghost before = seqs(ls@);
        if k >= n {
            let line = crate::tokenizer::merge::copy_chars_range(text, start, n);
            ls.push(line);
            assert(seqs(ls@) =~= before.push(rest));
            assert(lines_of(rest) == seq![rest]);
            assert(text@.subrange(n as int, n as int) =~= Seq::<char>::empty());
            assert(seqs(ls@) + lines_of(text@.subrange(n as int, n as int)) =~= before + lines_of(rest));
            start = n;
        } else {
            let end = if k > start && text[k - 1] == '\r' {
                k - 1
            } else {
                k
            };
            let line = crate::tokenizer::merge::copy_chars_range(text, start, end);
            ls.push(line);
            let ghost l0 = rest.subrange(0, k - start);
            assert(l0 =~= text@.subrange(start as int, k as int));
            assert(line@ == (if k - start > 0 && l0.last() == '\r' {
                l0.drop_last()
            } else {
                l0
            }));
            assert(rest.subrange(k - start + 1, rest.len() as int) =~= text@.subrange(k + 1, n as int));
            assert(seqs(ls@) =~= before.push(line@));
            assert(seqs(ls@) + lines_of(text@.subrange(k + 1, n as int)) =~= before + lines_of(rest));
            start = k + 1;
        }
    }
    assert(text@.subrange(start as int, n as int) =~= Seq::<char>::empty());
    assert(seqs(ls@) + lines_of(Seq::<char>::empty()) =~= seqs(ls@));
    ls
}


proof fn lemma_word_end_bounds(l: Seq<char>, j: int)
    requires
        0 <= j <= l.len(),
    ensures
        j <= word_end(l, j) <= l.len(),
    decreases l.len() - j,
{
    if j < l.len() && !char_is_whitespace(l[j]) {
        lemma_word_end_bounds(l, j + 1);
    }
}

proof fn lemma_skip_ws_bounds(l: Seq<char>, j: int)
    requires
        0 <= j <= l.len(),
    ensures
        j <= skip_ws(l, j) <= l.len(),
    decreases l.len() - j,
{
    if j < l.len() && char_is_whitespace(l[j]) {
        lemma_skip_ws_bounds(l, j + 1);
    }
}

/// The whitespace-separated words of `l`.
pub fn split_words(l: &Vec<char>) -> (ws: Vec<Vec<char>>)
    ensures
        seqs(ws@) == words(l@),
{
    let n = l.len();
    let mut ws: Vec<Vec<char>> = Vec::new();
    let mut i: usize = 0;
    assert(seqs(ws@) =~= Seq::<Seq<char>>::empty());
    loop
        invariant
            i <= n == l@.len(),
            seqs(ws@) + words_from(l@, i as int) == words(l@),
        decreases n - i,
    {
        let mut s = i;
        while s < n && is_white_space(l[s])
            invariant
                i <= s <= n == l@.len(),
                skip_ws(l@, s as int) == skip_ws(l@, i as int),
            decreases n - s,
        {
            s = s + 1;
        }
        if s >= n {
            assert(words_from(l@, i as int) =~= Seq::<Seq<char>>::empty());
            assert(seqs(ws@) + Seq::<Seq<char>>::empty() =~= seqs(ws@));
            return ws;
        }
        let mut e = s;
        while e < n && !is_white_space(l[e])
            invariant
                s <= e <= n == l@.len(),
                word_end(l@, e as int) == word_end(l@, s as int),
            decreases n - e,
        {
            e = e + 1;
        }
        proof {
            lemma_skip_ws_bounds(l@, i as int);
        }
        assert(s < e) by {
            assert(!char_is_whitespace(l@[s as int]));
        }
        let ghost before = seqs(ws@);
        let word = crate::tokenizer::merge::copy_chars_range(l, s, e);
        ws.push(word);
        assert(seqs(ws@) =~= before.push(l@.subrange(s as int, e as int)));
        assert(words_from(l@, i as int) == seq![l@.subrange(s as int, e as int)] + words_from(l@, e as int));
        assert(seqs(ws@) + words_from(l@, e as int) =~= before + words_from(l@, i as int));
        i = e;
    }
}

/// Whether `l` is neither blank nor a `#version` header.
fn rule_line(l: &Vec<char>) -> (r: bool)
    ensures
        r == is_rule_line(l@),
{
    let mut blank = true;
    let mut k: usize = 0;
    while k < l.len()
        invariant
            k <= l@.len(),
            blank == forall|x: int| 0 <= x < k ==> char_is_whitespace(#[trigger] l@[x]),
        decreases l@.len() - k,
    {
        if !is_white_space(l[k]) {
            blank = false;
        }
        k = k + 1;
    }
    if blank {
        return false;
    }
    let marker = ['#', 'v', 'e', 'r', 's', 'i', 'o', 'n'];
    if l.len() >= 8 {
        let mut same = true;
        let mut j: usize = 0;
        while j < 8
            invariant
                j <= 8 <= l@.len(),
                marker@ == version_marker(),
                same == forall|x: int| 0 <= x < j ==> l@[x] == version_marker()[x],
            decreases 8 - j,
        {
            if l[j] != marker[j] {
                same = false;
            }
            j = j + 1;
        }
        proof {
            if same {
                assert(l@.subrange(0, 8) =~= version_marker());
            } else {
                let x = choose|x: int| 0 <= x < 8 && l@[x] != version_marker()[x];
                assert(l@.subrange(0, 8)[x] != version_marker()[x]);
            }
        }
        return !same;
    }
    true
}

/// Parses a merges.txt text into its ranked rules (left and right symbols).
pub fn parse_merges_txt(text: &str) -> (r: Result<(Vec<Vec<char>>, Vec<Vec<char>>), TokenizerError>)
    ensures
        match parse_merges(text@) {
            Ok(rules) => r matches Ok((left, right)) && left@.len() == right@.len() && rules_view(left@, right@) == rules,
            Err(m) => r matches Err(e) && e@ == TokenizerErrorView::Format(m),
        },
{
    let chars = crate::text::chars_of(text);
    let ls = split_lines(&chars);
    let ghost lv = seqs(ls@);
    let mut left: Vec<Vec<char>> = Vec::new();
    let mut right: Vec<Vec<char>> = Vec::new();
    let mut rank: u64 = 0;
    let mut k: usize = 0;
    assert(rules_view(left@, right@) =~= Seq::<(Seq<char>, Seq<char>)>::empty());
    while k < ls.len()
        invariant
            lv == seqs(ls@),
            lv == lines_of(text@),
            k <= ls@.len(),
            left@.len() == right@.len(),
            rank <= k,
            parse_merges(text@) == match rules_from(lv, k as int, rank as nat) {
                Ok(rest) => Ok(rules_view(left@, right@) + rest),
                Err(m) => Err::<Seq<(Seq<char>, Seq<char>)>, Seq<char>>(m),
            },
        decreases ls@.len() - k,
    {
        assert(lv[k as int] == ls@[k as int]@);
        if rule_line(&ls[k]) {
            let ws = split_words(&ls[k]);
            if ws.len() != 2 {
                let mut m = String::from_str("merges line ");
                push_decimal(&mut m, rank);
                m.append(" is not exactly two symbols: ");
                let line = string_of(&ls[k]);
                let dbg = debug_str(line.as_str());
                m.append(dbg.as_str());
                return Err(TokenizerError::Format(m));
            }
            let ghost before = rules_view(left@, right@);
            assert(seqs(ws@)[0] == ws@[0]@ && seqs(ws@)[1] == ws@[1]@);
            let a = crate::tokenizer::merge::copy_chars(&ws[0]);
            let b = crate::tokenizer::merge::copy_chars(&ws[1]);
            left.push(a);
            right.push(b);
            assert(rules_view(left@, right@) =~= before.push((words(lv[k as int])[0], words(lv[k as int])[1])));
            assert(before.push((words(lv[k as int])[0], words(lv[k as int])[1])) =~= before + seq![(words(lv[k as int])[0], words(lv[k as int])[1])]);
            proof {
                match rules_from(lv, k + 1, (rank + 1) as nat) {
                    Ok(rest) => {
                        assert(before + (seq![(words(lv[k as int])[0], words(lv[k as int])[1])] + rest) =~= rules_view(left@, right@) + rest);
                    },
                    Err(_) => {},
                }
            }
            rank = rank + 1;
        }
        k = k + 1;
    }
    assert(rules_view(left@, right@) + Seq::<(Seq<char>, Seq<char>)>::empty() =~= rules_view(left@, right@));
    Ok((left, right))
}

} // verus!
