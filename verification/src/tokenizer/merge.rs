//! The ranked BPE merge loop: repeatedly replace every occurrence of the
//! lowest-ranked adjacent symbol pair until none remains.

use vstd::prelude::*;
use crate::text::chars_eq;

verus! {

broadcast use vstd::seq_lib::group_seq_properties;

/// The char sequences held by a vector of char vectors.
pub open spec fn seqs(v: Seq<Vec<char>>) -> Seq<Seq<char>> {
    v.map_values(|x: Vec<char>| x@)
}

/// Rank of the merge rule `(a, b)` among `rules[0..n]`: the index of its
/// last occurrence (a later line overrides an earlier one), as `u32`.
pub open spec fn rank_in(rules: Seq<(Seq<char>, Seq<char>)>, n: int, a: Seq<char>, b: Seq<char>) -> Option<u32>
    decreases n,
{
    if n <= 0 {
        None
    } else if rules[n - 1] == (a, b) {
        Some((n - 1) as u32)
    } else {
        rank_in(rules, n - 1, a, b)
    }
}

/// Rank of the merge rule `(a, b)`, if it is one.
pub open spec fn rank_of(rules: Seq<(Seq<char>, Seq<char>)>, a: Seq<char>, b: Seq<char>) -> Option<u32> {
    rank_in(rules, rules.len() as int, a, b)
}

/// Whether rank `r` beats the best `(rank, window)` found so far.
pub open spec fn improves(r: u32, cur: Option<(u32, int)>) -> bool {
    match cur {
        None => true,
        Some((c, _)) => r < c,
    }
}

/// Scans the adjacent pairs of `w` from window `k` on, keeping the first
/// window of strictly lowest rank seen so far: `(rank, window)`.
pub open spec fn best_from(
    w: Seq<Seq<char>>,
    rules: Seq<(Seq<char>, Seq<char>)>,
    k: int,
    cur: Option<(u32, int)>,
) -> Option<(u32, int)>
    decreases w.len() - k,
{
    if 0 <= k && k + 1 < w.len() {
        let next = match rank_of(rules, w[k], w[k + 1]) {
            Some(r) => if improves(r, cur) {
                Some((r, k))
            } else {
                cur
            },
            None => cur,
        };
        best_from(w, rules, k + 1, next)
    } else {
        cur
    }
}

/// The lowest-ranked adjacent pair of `w` (first such window), if any pair is a rule.
pub open spec fn best_pair(w: Seq<Seq<char>>, rules: Seq<(Seq<char>, Seq<char>)>) -> Option<(u32, int)> {
    best_from(w, rules, 0, None)
}

/// Left-to-right replacement of every non-overlapping occurrence of the
/// adjacent pair `(a, b)` in `w[i..]` by `a + b`.
pub open spec fn merge_from(w: Seq<Seq<char>>, a: Seq<char>, b: Seq<char>, i: int) -> Seq<Seq<char>>
    decreases w.len() - i,
{
    if 0 <= i < w.len() {
        if i + 1 < w.len() && w[i] == a && w[i + 1] == b {
            seq![a + b] + merge_from(w, a, b, i + 2)
        } else {
            seq![w[i]] + merge_from(w, a, b, i + 1)
        }
    } else {
        seq![]
    }
}

/// The ranked merge loop on a word of symbols.
pub open spec fn bpe_word(w: Seq<Seq<char>>, rules: Seq<(Seq<char>, Seq<char>)>) -> Seq<Seq<char>>
    decreases w.len(),
{
    if w.len() <= 1 {
        w
    } else {
        match best_pair(w, rules) {
            None => w,
            Some((_, k)) => {
                let w2 = merge_from(w, w[k], w[k + 1], 0);
                if w2.len() < w.len() {
                    bpe_word(w2, rules)
                } else {
                    w
                }
            },
        }
    }
}

/// The rank of the adjacent pair at window `j` of `w`, if it is a merge rule.
pub open spec fn window_rank(w: Seq<Seq<char>>, rules: Seq<(Seq<char>, Seq<char>)>, j: int) -> Option<u32> {
    rank_of(rules, w[j], w[j + 1])
}

/// Whether window `k` of `w` holds a rule of rank `r` that no window ranks
/// below, and no earlier window ranks as low: the first lowest-ranked pair.
pub open spec fn first_lowest(w: Seq<Seq<char>>, rules: Seq<(Seq<char>, Seq<char>)>, r: u32, k: int) -> bool {
    &&& 0 <= k && k + 1 < w.len()
    &&& window_rank(w, rules, k) == Some(r)
    &&& forall|j: int| 0 <= j && j + 1 < w.len() && (#[trigger] window_rank(w, rules, j)) is Some ==> r <= window_rank(w, rules, j)->0
    &&& forall|j: int| 0 <= j < k && (#[trigger] window_rank(w, rules, j)) is Some ==> r < window_rank(w, rules, j)->0
}

/// What a scan of windows `0..n` has found: nothing if no window there is a
/// rule, else the first lowest-ranked of them.
spec fn scanned(w: Seq<Seq<char>>, rules: Seq<(Seq<char>, Seq<char>)>, n: int, cur: Option<(u32, int)>) -> bool {
    match cur {
        None => forall|j: int| 0 <= j < n ==> (#[trigger] window_rank(w, rules, j)) is None,
        Some((r, c)) => {
            &&& 0 <= c < n
            &&& window_rank(w, rules, c) == Some(r)
            &&& forall|j: int| 0 <= j < n && (#[trigger] window_rank(w, rules, j)) is Some ==> r <= window_rank(w, rules, j)->0
            &&& forall|j: int| 0 <= j < c && (#[trigger] window_rank(w, rules, j)) is Some ==> r < window_rank(w, rules, j)->0
        },
    }
}

proof fn lemma_best_from_scans(w: Seq<Seq<char>>, rules: Seq<(Seq<char>, Seq<char>)>, k: int, cur: Option<(u32, int)>)
    requires
        0 <= k,
        k + 1 <= w.len() || k == 0,
        scanned(w, rules, k, cur),
    ensures
        scanned(w, rules, if w.len() > 0 { w.len() - 1 } else { 0 }, best_from(w, rules, k, cur)),
    decreases w.len() - k,
{
    if k + 1 < w.len() {
        let next = match rank_of(rules, w[k], w[k + 1]) {
            Some(r) => if improves(r, cur) {
                Some((r, k))
            } else {
                cur
            },
            None => cur,
        };
        assert(window_rank(w, rules, k) == rank_of(rules, w[k], w[k + 1]));
        assert(scanned(w, rules, k + 1, next)) by {
            match next {
                None => {
                    assert forall|j: int| 0 <= j < k + 1 implies (#[trigger] window_rank(w, rules, j)) is None by {
                        if j < k {
                            match cur {
                                None => {},
                                Some((r0, c0)) => {
                                    assert(window_rank(w, rules, c0) is Some);
                                },
                            }
                        }
                    }
                },
                Some((r, c)) => {
                    assert forall|j: int| 0 <= j < k + 1 && (#[trigger] window_rank(w, rules, j)) is Some implies r <= window_rank(w, rules, j)->0 by {
                        if j < k {
                            match cur {
                                None => {},
                                Some((r0, c0)) => {},
                            }
                        }
                    }
                },
            }
        }
        lemma_best_from_scans(w, rules, k + 1, next);
    } else {
        assert(k == (if w.len() > 0 { w.len() - 1 } else { 0 }));
    }
}

/// Merge-order law: the pair the merge loop merges next is the first
/// adjacent pair of lowest rank among all adjacent pairs of the word that are
/// merge rules; when no adjacent pair is a rule the word is left as it is.
/// Every occurrence of that pair is merged before the next step.
pub proof fn law_merge_takes_lowest_ranked_pair(w: Seq<Seq<char>>, rules: Seq<(Seq<char>, Seq<char>)>)
    ensures
        best_pair(w, rules) is None <==> forall|j: int| 0 <= j && j + 1 < w.len() ==> (#[trigger] window_rank(w, rules, j)) is None,
        (best_pair(w, rules) matches Some((r, k)) ==> first_lowest(w, rules, r, k)),
        best_pair(w, rules) is None ==> bpe_word(w, rules) == w,
        (best_pair(w, rules) matches Some((r, k)) ==> bpe_word(w, rules) == bpe_word(merge_from(w, w[k], w[k + 1], 0), rules)),
{
    lemma_best_from_scans(w, rules, 0, None);
    let n = if w.len() > 0 { w.len() - 1 } else { 0 };
    match best_pair(w, rules) {
        None => {},
        Some((r, k)) => {
            lemma_merge_from_len(w, w[k], w[k + 1], 0, k);
            assert(w.len() > 1);
            assert forall|j: int| 0 <= j && j + 1 < w.len() && (#[trigger] window_rank(w, rules, j)) is Some implies r <= window_rank(w, rules, j)->0 by {
                assert(j < n);
            }
        },
    }
}

/// The one-char symbols of a mapped piece.
pub open spec fn singletons(cs: Seq<char>) -> Seq<Seq<char>> {
    cs.map_values(|c: char| seq![c])
}

proof fn lemma_best_from_in_range(
    w: Seq<Seq<char>>,
    rules: Seq<(Seq<char>, Seq<char>)>,
    k: int,
    cur: Option<(u32, int)>,
)
    requires
        0 <= k,
        cur matches Some((_, j)) ==> 0 <= j && j + 1 < w.len(),
    ensures
        best_from(w, rules, k, cur) matches Some((_, j)) ==> 0 <= j && j + 1 < w.len(),
    decreases w.len() - k,
{
    if k + 1 < w.len() {
        let next = match rank_of(rules, w[k], w[k + 1]) {
            Some(r) => if improves(r, cur) {
                Some((r, k))
            } else {
                cur
            },
            None => cur,
        };
        lemma_best_from_in_range(w, rules, k + 1, next);
    }
}

/// The best window, when there is one, is a window of `w`.
pub proof fn lemma_best_pair_in_range(w: Seq<Seq<char>>, rules: Seq<(Seq<char>, Seq<char>)>)
    ensures
        best_pair(w, rules) matches Some((_, j)) ==> 0 <= j && j + 1 < w.len(),
{
    lemma_best_from_in_range(w, rules, 0, None);
}

/// Merging never lengthens a word, and shortens it when the pair occurs.
pub proof fn lemma_merge_from_len(w: Seq<Seq<char>>, a: Seq<char>, b: Seq<char>, i: int, j: int)
    requires
        0 <= i <= w.len(),
    ensures
        merge_from(w, a, b, i).len() <= w.len() - i,
        i <= j && j + 1 < w.len() && w[j] == a && w[j + 1] == b ==> merge_from(w, a, b, i).len()
            < w.len() - i,
    decreases w.len() - i,
{
    if i < w.len() {
        if i + 1 < w.len() && w[i] == a && w[i + 1] == b {
            lemma_merge_from_len(w, a, b, i + 2, j);
        } else {
            lemma_merge_from_len(w, a, b, i + 1, j);
        }
    }
}

/// Merging keeps the concatenation of the symbols.
pub proof fn lemma_merge_from_flatten(w: Seq<Seq<char>>, a: Seq<char>, b: Seq<char>, i: int)
    requires
        0 <= i <= w.len(),
    ensures
        merge_from(w, a, b, i).flatten() == w.subrange(i, w.len() as int).flatten(),
    decreases w.len() - i,
{
    if i < w.len() {
        let rest_i = w.subrange(i, w.len() as int);
        if i + 1 < w.len() && w[i] == a && w[i + 1] == b {
            lemma_merge_from_flatten(w, a, b, i + 2);
            let tail = merge_from(w, a, b, i + 2);
            vstd::seq_lib::lemma_flatten_concat(seq![a + b], tail);
            seq![a + b].lemma_flatten_one_element();
            assert(rest_i =~= seq![w[i], w[i + 1]] + w.subrange(i + 2, w.len() as int));
            vstd::seq_lib::lemma_flatten_concat(seq![w[i], w[i + 1]], w.subrange(i + 2, w.len() as int));
            assert(seq![w[i], w[i + 1]].drop_first() =~= seq![w[i + 1]]);
            seq![w[i + 1]].lemma_flatten_one_element();
            assert(seq![w[i], w[i + 1]].flatten() == w[i] + seq![w[i + 1]].flatten());
            assert(seq![w[i], w[i + 1]].flatten() =~= a + b);
        } else {
            lemma_merge_from_flatten(w, a, b, i + 1);
            let tail = merge_from(w, a, b, i + 1);
            vstd::seq_lib::lemma_flatten_concat(seq![w[i]], tail);
            seq![w[i]].lemma_flatten_one_element();
            assert(rest_i =~= seq![w[i]] + w.subrange(i + 1, w.len() as int));
            vstd::seq_lib::lemma_flatten_concat(seq![w[i]], w.subrange(i + 1, w.len() as int));
        }
    } else {
        assert(w.subrange(i, w.len() as int) =~= Seq::<Seq<char>>::empty());
    }
}

/// The merge loop only regroups symbols: their concatenation is unchanged.
pub proof fn lemma_bpe_word_flatten(w: Seq<Seq<char>>, rules: Seq<(Seq<char>, Seq<char>)>)
    ensures
        bpe_word(w, rules).flatten() == w.flatten(),
    decreases w.len(),
{
    if w.len() > 1 {
        match best_pair(w, rules) {
            None => {},
            Some((_, k)) => {
                lemma_best_pair_in_range(w, rules);
                let w2 = merge_from(w, w[k], w[k + 1], 0);
                if w2.len() < w.len() {
                    lemma_merge_from_flatten(w, w[k], w[k + 1], 0);
                    assert(w.subrange(0, w.len() as int) =~= w);
                    lemma_bpe_word_flatten(w2, rules);
                }
            },
        }
    }
}

/// A sequence of one-char symbols concatenates to the chars themselves.
pub proof fn lemma_singletons_flatten(cs: Seq<char>)
    ensures
        singletons(cs).flatten() == cs,
    decreases cs.len(),
{
    if cs.len() > 0 {
        lemma_singletons_flatten(cs.drop_first());
        assert(singletons(cs).drop_first() =~= singletons(cs.drop_first()));
        assert(singletons(cs).first() == seq![cs[0]]);
        assert(seq![cs[0]] + cs.drop_first() =~= cs);
    } else {
        assert(singletons(cs) =~= Seq::<Seq<char>>::empty());
    }
}

/// A copy of a char slice.
pub fn copy_chars(v: &[char]) -> (r: Vec<char>)
    ensures
        r@ == v@,
{
    let mut r: Vec<char> = Vec::new();
    let mut k: usize = 0;
    while k < v.len()
        invariant
            k <= v@.len(),
            r@ == v@.subrange(0, k as int),
        decreases v@.len() - k,
    {
        r.push(v[k]);
        k = k + 1;
    }
    assert(r@ =~= v@);
    r
}

/// A copy of the chars `v[a..b]`.
pub fn copy_chars_range(v: &[char], a: usize, b: usize) -> (r: Vec<char>)
    requires
        a <= b <= v@.len(),
    ensures
        r@ == v@.subrange(a as int, b as int),
{
    let mut r: Vec<char> = Vec::new();
    let mut k: usize = a;
    while k < b
        invariant
            a <= k <= b <= v@.len(),
            r@ == v@.subrange(a as int, k as int),
        decreases b - k,
    {
        r.push(v[k]);
        k = k + 1;
    }
    r
}

/// `a` followed by `b`.
pub fn concat_chars(a: &[char], b: &[char]) -> (r: Vec<char>)
    ensures
        r@ == a@ + b@,
{
    let mut r = copy_chars(a);
    let mut k: usize = 0;
    while k < b.len()
        invariant
            k <= b@.len(),
            r@ == a@ + b@.subrange(0, k as int),
        decreases b@.len() - k,
    {
        r.push(b[k]);
        k = k + 1;
    }
    assert(b@.subrange(0, b@.len() as int) =~= b@);
    r
}

/// A rule list held as two parallel vectors of left and right symbols.
pub open spec fn rules_view(left: Seq<Vec<char>>, right: Seq<Vec<char>>) -> Seq<(Seq<char>, Seq<char>)> {
    Seq::new(left.len(), |i: int| (left[i]@, right[i]@))
}

/// Rank of the rule `(a, b)`.
pub fn rule_rank(left: &Vec<Vec<char>>, right: &Vec<Vec<char>>, a: &[char], b: &[char]) -> (r: Option<u32>)
    requires
        left@.len() == right@.len(),
    ensures
        r == rank_of(rules_view(left@, right@), a@, b@),
{
    let ghost rules = rules_view(left@, right@);
    let mut found: Option<u32> = None;
    let mut i: usize = 0;
    while i < left.len()
        invariant
            left@.len() == right@.len(),
            rules == rules_view(left@, right@),
            i <= left@.len(),
            found == rank_in(rules, i as int, a@, b@),
        decreases left@.len() - i,
    {
        if chars_eq(&left[i], a) && chars_eq(&right[i], b) {
            found = Some(i as u32);
        }
        assert(rules[i as int] == (left@[i as int]@, right@[i as int]@));
        i = i + 1;
    }
    found
}

/// Runs the merge loop on the one-char symbols of `mapped`.
pub fn bpe(left: &Vec<Vec<char>>, right: &Vec<Vec<char>>, mapped: &[char]) -> (word: Vec<Vec<char>>)
    requires
        left@.len() == right@.len(),
    ensures
        seqs(word@) == bpe_word(singletons(mapped@), rules_view(left@, right@)),
{
    let ghost rules = rules_view(left@, right@);
    let mut word: Vec<Vec<char>> = Vec::new();
    let mut k: usize = 0;
    while k < mapped.len()
        invariant
            k <= mapped@.len(),
            seqs(word@) == singletons(mapped@.subrange(0, k as int)),
        decreases mapped@.len() - k,
    {
        let mut one: Vec<char> = Vec::new();
        one.push(mapped[k]);
        assert(one@ =~= seq![mapped@[k as int]]);
        let ghost before = word@;
        word.push(one);
        assert(seqs(word@) =~= seqs(before).push(seq![mapped@[k as int]]));
        assert(mapped@.subrange(0, k + 1) =~= mapped@.subrange(0, k as int).push(mapped@[k as int]));
        assert(singletons(mapped@.subrange(0, k + 1)) =~= singletons(mapped@.subrange(0, k as int)).push(seq![mapped@[k as int]]));
        k = k + 1;
    }
    assert(mapped@.subrange(0, mapped@.len() as int) =~= mapped@);
    while word.len() > 1
        invariant
            left@.len() == right@.len(),
            rules == rules_view(left@, right@),
            bpe_word(seqs(word@), rules) == bpe_word(singletons(mapped@), rules),
        ensures
            seqs(word@) == bpe_word(singletons(mapped@), rules),
        decreases word@.len(),
    {
        let ghost w = seqs(word@);
        // Find the lowest-ranked adjacent pair.
        let mut best: Option<(u32, usize)> = None;
        let mut j: usize = 0;
        while j < word.len() - 1
            invariant
                w == seqs(word@),
                left@.len() == right@.len(),
                rules == rules_view(left@, right@),
                word@.len() > 1,
                j + 1 <= word@.len(),
                best_from(w, rules, j as int, match best {
                    Some((r, x)) => Some((r, x as int)),
                    None => None,
                }) == best_pair(w, rules),
                best matches Some((_, x)) ==> x + 1 < word@.len(),
            decreases word@.len() - j,
        {
            let rank = rule_rank(left, right, &word[j], &word[j + 1]);
            assert(w[j as int] == word@[j as int]@ && w[j + 1] == word@[j + 1]@);
            match rank {
                Some(r) => {
                    let better = match best {
                        None => true,
                        Some((br, _)) => r < br,
                    };
                    if better {
                        best = Some((r, j));
                    }
                },
                None => {},
            }
            j = j + 1;
        }
        let (a_idx, b_idx) = match best {
            None => {
                assert(best_pair(w, rules) is None);
                assert(bpe_word(w, rules) == w);
                break;
            },
            Some((_, x)) => (x, x + 1),
        };
        let a = copy_chars(&word[a_idx]);
        let b = copy_chars(&word[b_idx]);
        let ab = concat_chars(&a, &b);
        let mut merged: Vec<Vec<char>> = Vec::new();
        let mut i: usize = 0;
        while i < word.len()
            invariant
                w == seqs(word@),
                b_idx == a_idx + 1,
                b_idx < w.len(),
                a@ == w[a_idx as int],
                b@ == w[b_idx as int],
                ab@ == a@ + b@,
                i <= word@.len(),
                seqs(merged@) + merge_from(w, a@, b@, i as int) == merge_from(w, a@, b@, 0),
            decreases word@.len() - i,
        {
            let ghost before = seqs(merged@);
            if i + 1 < word.len() && chars_eq(&word[i], &a) && chars_eq(&word[i + 1], &b) {
                merged.push(copy_chars(&ab));
                assert(seqs(merged@) == before.push(a@ + b@));
                assert(before.push(a@ + b@) + merge_from(w, a@, b@, i + 2) =~= before + merge_from(
                    w,
                    a@,
                    b@,
                    i as int,
                ));
                i = i + 2;
            } else {
                merged.push(copy_chars(&word[i]));
                assert(seqs(merged@) == before.push(w[i as int]));
                assert(before.push(w[i as int]) + merge_from(w, a@, b@, i + 1) =~= before
                    + merge_from(w, a@, b@, i as int));
                i = i + 1;
            }
        }
        assert(seqs(merged@) + merge_from(w, a@, b@, i as int) == seqs(merged@));
        proof {
            lemma_best_pair_in_range(w, rules);
            lemma_merge_from_len(w, a@, b@, 0, a_idx as int);
            assert(seqs(merged@).len() == merged@.len());
            assert(bpe_word(w, rules) == bpe_word(seqs(merged@), rules));
        }
        word = merged;
    }
    proof {
        if word@.len() <= 1 {
            assert(bpe_word(seqs(word@), rules) == seqs(word@));
        }
    }
    word
}

} // verus!
