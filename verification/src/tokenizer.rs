//! Byte-level BPE tokenizer in the GPT-2 vocab.json/merges.txt format.
//!
//! The pipeline: pre-tokenize the text with GPT-2's split rule; map each
//! piece's UTF-8 bytes through the byte <-> unicode table; run ranked BPE
//! merges over the mapped piece and look the resulting symbols up in the
//! vocab. Decoding inverts: ids -> vocab strings -> bytes -> UTF-8 (lossy on
//! invalid boundaries).

pub mod byte_table;
pub mod pretok;
pub mod merge;
pub mod vocab_json;
pub mod merges_txt;
pub mod laws;

use vstd::prelude::*;
use vstd::string::*;
use vstd::utf8::encode_utf8;
use crate::text::{char_debug, debug_char, debug_str, decimal, from_utf8_lossy, lossy_text, push_decimal, str_debug, string_of};
use byte_table::{byte_char, byte_of_char, byte_table, byte_to_unicode};
use merge::{bpe, bpe_word, rules_view, seqs, singletons};
use merges_txt::{parse_merges, parse_merges_txt};
use pretok::{pieces, pretokenize};
use vocab_json::{entries_view, parse_vocab, parse_vocab_json, vocab_error_message, VocabError};

verus! {

/// Errors of vocabulary loading, encoding and decoding.
#[derive(Debug)]
pub enum TokenizerError {
    Io(String),
    Format(String),
    /// A piece produced a BPE symbol absent from the vocab (a complete
    /// byte-level vocab contains all 256 single-byte tokens, so this only
    /// happens with truncated/custom vocabularies).
    UnknownToken(String),
    UnknownId(u32),
}

/// A tokenizer error with its text payload as a char sequence.
pub enum TokenizerErrorView {
    Io(Seq<char>),
    Format(Seq<char>),
    UnknownToken(Seq<char>),
    UnknownId(u32),
}

impl View for TokenizerError {
    type V = TokenizerErrorView;

    open spec fn view(&self) -> TokenizerErrorView {
        match self {
            TokenizerError::Io(m) => TokenizerErrorView::Io(m@),
            TokenizerError::Format(m) => TokenizerErrorView::Format(m@),
            TokenizerError::UnknownToken(t) => TokenizerErrorView::UnknownToken(t@),
            TokenizerError::UnknownId(id) => TokenizerErrorView::UnknownId(*id),
        }
    }
}


impl TokenizerError {
    /// The human-readable text of the error.
    pub fn message(&self) -> (m: String)
        ensures
            m@ == error_message(self@),
    {
        match self {
            TokenizerError::Io(x) => {
                let mut m = String::from_str("tokenizer io: ");
                m.append(x.as_str());
                m
            },
            TokenizerError::Format(x) => {
                let mut m = String::from_str("tokenizer format: ");
                m.append(x.as_str());
                m
            },
            TokenizerError::UnknownToken(t) => {
                let mut m = String::from_str("token ");
                let d = debug_str(t.as_str());
                m.append(d.as_str());
                m.append(" is not in the vocab");
                m
            },
            TokenizerError::UnknownId(id) => {
                let mut m = String::from_str("id ");
                push_decimal(&mut m, *id as u64);
                m.append(" is not in the vocab");
                m
            },
        }
    }
}

/// The human-readable text of an error.
pub open spec fn error_message(e: TokenizerErrorView) -> Seq<char> {
    match e {
        TokenizerErrorView::Io(m) => "tokenizer io: "@ + m,
        TokenizerErrorView::Format(m) => "tokenizer format: "@ + m,
        TokenizerErrorView::UnknownToken(t) => "token "@ + str_debug(t) + " is not in the vocab"@,
        TokenizerErrorView::UnknownId(id) => "id "@ + decimal(id as nat) + " is not in the vocab"@,
    }
}

/// The content of a tokenizer: its vocab entries (token, id) in vocab.json
/// order and its merge rules in rank order.
pub struct BpeModel {
    pub vocab: Seq<(Seq<char>, u32)>,
    pub rules: Seq<(Seq<char>, Seq<char>)>,
}

/// No token occurs twice in the vocab.
pub open spec fn distinct_tokens(vocab: Seq<(Seq<char>, u32)>) -> bool {
    forall|j: int, k: int| 0 <= j < k < vocab.len() ==> (#[trigger] vocab[j]).0 != (#[trigger] vocab[k]).0
}

/// No id occurs twice in the vocab.
pub open spec fn distinct_ids(vocab: Seq<(Seq<char>, u32)>) -> bool {
    forall|j: int, k: int| 0 <= j < k < vocab.len() ==> (#[trigger] vocab[j]).1 != (#[trigger] vocab[k]).1
}

/// A tokenizer model whose vocab maps tokens to ids one to one.
pub open spec fn well_formed(m: BpeModel) -> bool {
    distinct_tokens(m.vocab) && distinct_ids(m.vocab)
}

/// Index of the first entry of `vocab[k..]` with token `tok`.
pub open spec fn token_index_from(vocab: Seq<(Seq<char>, u32)>, tok: Seq<char>, k: int) -> Option<int>
    decreases vocab.len() - k,
{
    if !(0 <= k < vocab.len()) {
        None
    } else if vocab[k].0 == tok {
        Some(k)
    } else {
        token_index_from(vocab, tok, k + 1)
    }
}

/// A found token index lies in the searched range and holds the token.
pub proof fn lemma_token_index_from(vocab: Seq<(Seq<char>, u32)>, tok: Seq<char>, k: int)
    requires
        0 <= k,
    ensures
        token_index_from(vocab, tok, k) matches Some(x) ==> k <= x < vocab.len() && vocab[x].0 == tok,
        token_index_from(vocab, tok, k) is None ==> forall|x: int| k <= x < vocab.len() ==> (#[trigger] vocab[x]).0 != tok,
    decreases vocab.len() - k,
{
    if k < vocab.len() && vocab[k].0 != tok {
        lemma_token_index_from(vocab, tok, k + 1);
    }
}

/// A found id index lies in the searched range and holds the id.
pub proof fn lemma_id_index_from(vocab: Seq<(Seq<char>, u32)>, id: u32, k: int)
    requires
        0 <= k,
    ensures
        id_index_from(vocab, id, k) matches Some(x) ==> k <= x < vocab.len() && vocab[x].1 == id,
        id_index_from(vocab, id, k) is None ==> forall|x: int| k <= x < vocab.len() ==> (#[trigger] vocab[x]).1 != id,
    decreases vocab.len() - k,
{
    if k < vocab.len() && vocab[k].1 != id {
        lemma_id_index_from(vocab, id, k + 1);
    }
}

/// The id of token `tok`.
pub open spec fn token_to_id(vocab: Seq<(Seq<char>, u32)>, tok: Seq<char>) -> Option<u32> {
    match token_index_from(vocab, tok, 0) {
        Some(k) => Some(vocab[k].1),
        None => None,
    }
}

/// Index of the first entry of `vocab[k..]` with id `id`.
pub open spec fn id_index_from(vocab: Seq<(Seq<char>, u32)>, id: u32, k: int) -> Option<int>
    decreases vocab.len() - k,
{
    if !(0 <= k < vocab.len()) {
        None
    } else if vocab[k].1 == id {
        Some(k)
    } else {
        id_index_from(vocab, id, k + 1)
    }
}

/// The token of id `id`.
pub open spec fn id_to_token(vocab: Seq<(Seq<char>, u32)>, id: u32) -> Option<Seq<char>> {
    match id_index_from(vocab, id, 0) {
        Some(k) => Some(vocab[k].0),
        None => None,
    }
}

/// The byte of a char of the byte table.
pub open spec fn char_byte(c: char) -> Option<u8> {
    if exists|b: int| 0 <= b < 256 && byte_char(b) == c {
        Some((choose|b: int| 0 <= b < 256 && byte_char(b) == c) as u8)
    } else {
        None
    }
}

/// A piece's UTF-8 bytes mapped through the byte table.
pub open spec fn mapped_piece(p: Seq<char>) -> Seq<char> {
    encode_utf8(p).map_values(|b: u8| byte_char(b as int))
}

/// The BPE symbols of a piece.
pub open spec fn piece_symbols(m: BpeModel, p: Seq<char>) -> Seq<Seq<char>> {
    bpe_word(singletons(mapped_piece(p)), m.rules)
}

/// The ids of `syms`, or the first symbol that is not in the vocab.
pub open spec fn symbol_ids(vocab: Seq<(Seq<char>, u32)>, syms: Seq<Seq<char>>) -> Result<Seq<u32>, Seq<char>>
    decreases syms.len(),
{
    if syms.len() == 0 {
        Ok(seq![])
    } else {
        match token_to_id(vocab, syms[0]) {
            None => Err(syms[0]),
            Some(id) => match symbol_ids(vocab, syms.drop_first()) {
                Ok(rest) => Ok(seq![id] + rest),
                Err(s) => Err(s),
            },
        }
    }
}

/// The ids of a sequence of pieces.
pub open spec fn encode_pieces(m: BpeModel, ps: Seq<Seq<char>>) -> Result<Seq<u32>, TokenizerErrorView>
    decreases ps.len(),
{
    if ps.len() == 0 {
        Ok(seq![])
    } else {
        match symbol_ids(m.vocab, piece_symbols(m, ps[0])) {
            Err(sym) => Err(TokenizerErrorView::UnknownToken(sym)),
            Ok(ids) => match encode_pieces(m, ps.drop_first()) {
                Ok(rest) => Ok(ids + rest),
                Err(e) => Err(e),
            },
        }
    }
}

/// Encoding of a text: its pieces, byte-mapped, merged and looked up.
pub open spec fn encode_text(m: BpeModel, text: Seq<char>) -> Result<Seq<u32>, TokenizerErrorView> {
    encode_pieces(m, pieces(text))
}

/// The bytes of a token's chars, or the first char outside the byte table.
pub open spec fn token_bytes(tok: Seq<char>) -> Result<Seq<u8>, char>
    decreases tok.len(),
{
    if tok.len() == 0 {
        Ok(seq![])
    } else {
        match char_byte(tok[0]) {
            None => Err(tok[0]),
            Some(b) => match token_bytes(tok.drop_first()) {
                Ok(rest) => Ok(seq![b] + rest),
                Err(c) => Err(c),
            },
        }
    }
}

/// The message for a token holding a char outside the byte table.
pub open spec fn outside_table_message(tok: Seq<char>, c: char) -> Seq<char> {
    "token "@ + str_debug(tok) + " contains "@ + char_debug(c) + ", outside the byte table"@
}

/// The bytes that a sequence of ids decodes to.
pub open spec fn decode_bytes(m: BpeModel, ids: Seq<u32>) -> Result<Seq<u8>, TokenizerErrorView>
    decreases ids.len(),
{
    if ids.len() == 0 {
        Ok(seq![])
    } else {
        match id_to_token(m.vocab, ids[0]) {
            None => Err(TokenizerErrorView::UnknownId(ids[0])),
            Some(tok) => match token_bytes(tok) {
                Err(c) => Err(TokenizerErrorView::Format(outside_table_message(tok, c))),
                Ok(bs) => match decode_bytes(m, ids.drop_first()) {
                    Ok(rest) => Ok(bs + rest),
                    Err(e) => Err(e),
                },
            },
        }
    }
}

/// Decoding of ids: vocab strings -> bytes -> UTF-8 (lossy).
pub open spec fn decode_ids(m: BpeModel, ids: Seq<u32>) -> Result<Seq<char>, TokenizerErrorView> {
    match decode_bytes(m, ids) {
        Ok(bs) => Ok(lossy_text(bs)),
        Err(e) => Err(e),
    }
}

/// The first id of `vocab[k..]` that an earlier entry already has.
pub open spec fn duplicate_id_from(vocab: Seq<(Seq<char>, u32)>, k: int) -> Option<u32>
    decreases vocab.len() - k,
{
    if !(0 <= k < vocab.len()) {
        None
    } else if exists|j: int| 0 <= j < k && (#[trigger] vocab[j]).1 == vocab[k].1 {
        Some(vocab[k].1)
    } else {
        duplicate_id_from(vocab, k + 1)
    }
}

/// The tokenizer that a vocab.json and a merges.txt text describe, or why
/// they are rejected.
pub open spec fn model_of(vocab_json: Seq<char>, merges_txt: Seq<char>) -> Result<BpeModel, TokenizerErrorView> {
    match parse_vocab(vocab_json) {
        Err(e) => Err(TokenizerErrorView::Format(vocab_error_message(e))),
        Ok(vocab) => match duplicate_id_from(vocab, 0) {
            Some(id) => Err(TokenizerErrorView::Format("duplicate id "@ + decimal(id as nat) + " in vocab"@)),
            None => match parse_merges(merges_txt) {
                Err(msg) => Err(TokenizerErrorView::Format(msg)),
                Ok(rules) => Ok(BpeModel { vocab, rules }),
            },
        },
    }
}

/// The byte of a char of the byte table.
fn char_to_byte(c: char) -> (r: Option<u8>)
    ensures
        r == char_byte(c),
{
    let r = byte_of_char(c);
    proof {
        match r {
            Some(b) => {
                assert(0 <= b < 256 && byte_char(b as int) == c);
                let w = choose|x: int| 0 <= x < 256 && byte_char(x) == c;
                byte_table::lemma_byte_char_injective(w, b as int);
            },
            None => {},
        }
    }
    r
}

/// The entries that vocab.json parsing accumulates keep their tokens distinct.
proof fn lemma_entries_from_distinct(b: Seq<char>, i: int, acc: Seq<(Seq<char>, u32)>)
    requires
        distinct_tokens(acc),
    ensures
        vocab_json::entries_from(b, i, acc) matches Ok(es) ==> distinct_tokens(es),
    decreases b.len() - i,
{
    let i1 = vocab_json::skip_ws(b, i);
    match vocab_json::parse_string(b, i1) {
        Err(_) => {},
        Ok((key, i2)) => {
            let i3 = vocab_json::skip_ws(b, i2);
            if 0 <= i3 < b.len() && b[i3] == ':' {
                let i4 = vocab_json::skip_ws(b, i3 + 1);
                let j = vocab_json::digits_end(b, i4);
                if j != i4 && vocab_json::digits_value(b, i4, j) <= u32::MAX && !vocab_json::has_token(acc, key) {
                    let acc2 = acc.push((key, vocab_json::digits_value(b, i4, j) as u32));
                    assert(distinct_tokens(acc2)) by {
                        assert forall|x: int, y: int| 0 <= x < y < acc2.len() implies (#[trigger] acc2[x]).0 != (#[trigger] acc2[y]).0 by {
                            if y == acc.len() {
                                if acc2[x].0 == key {
                                    assert(acc[x].0 == key);
                                }
                            } else {
                                assert(acc2[x] == acc[x] && acc2[y] == acc[y]);
                            }
                        }
                    }
                    let i5 = vocab_json::skip_ws(b, j);
                    if 0 <= i5 < b.len() && b[i5] == ',' && i5 + 1 > i {
                        lemma_entries_from_distinct(b, i5 + 1, acc2);
                    }
                }
            }
        },
    }
}

/// A parsed vocab never holds a token twice.
proof fn lemma_parse_vocab_distinct(b: Seq<char>)
    ensures
        parse_vocab(b) matches Ok(es) ==> distinct_tokens(es),
{
    lemma_entries_from_distinct(b, vocab_json::skip_ws(b, 0) + 1, seq![]);
}

/// Without a duplicated id from `k` on, ids at or after `k` differ from all earlier ids.
proof fn lemma_no_duplicate_id(vocab: Seq<(Seq<char>, u32)>, k: int)
    requires
        0 <= k,
        duplicate_id_from(vocab, k) is None,
    ensures
        forall|x: int, y: int| 0 <= x < y < vocab.len() && k <= y ==> (#[trigger] vocab[x]).1 != (#[trigger] vocab[y]).1,
    decreases vocab.len() - k,
{
    if k < vocab.len() {
        lemma_no_duplicate_id(vocab, k + 1);
        assert forall|x: int, y: int| 0 <= x < y < vocab.len() && k <= y implies (#[trigger] vocab[x]).1 != (#[trigger] vocab[y]).1 by {
            if y == k {
                if vocab[x].1 == vocab[k].1 {
                    assert(exists|j: int| 0 <= j < k && (#[trigger] vocab[j]).1 == vocab[k].1);
                }
            }
        }
    }
}

/// Byte-level BPE tokenizer over a GPT-2-format vocab.
///
/// The vocab (token, id pairs with distinct tokens and distinct ids) and the
/// ranked merge rules are held in vectors and searched in order: vstd's
/// `HashMap` contracts hold only for key types that obey its key model, which
/// vstd establishes for integers and booleans but not for strings.
pub struct Bpe {
    tokens: Vec<Vec<char>>,
    ids: Vec<u32>,
    rule_left: Vec<Vec<char>>,
    rule_right: Vec<Vec<char>>,
    byte_enc: [char; 256],
}

impl View for Bpe {
    type V = BpeModel;

    closed spec fn view(&self) -> BpeModel {
        BpeModel {
            vocab: entries_view(self.tokens@, self.ids@),
            rules: rules_view(self.rule_left@, self.rule_right@),
        }
    }
}

impl Bpe {
    #[verifier::type_invariant]
    closed spec fn inv(self) -> bool {
        &&& self.tokens@.len() == self.ids@.len()
        &&& self.rule_left@.len() == self.rule_right@.len()
        &&& self.byte_enc@ == byte_table()
        &&& well_formed(self@)
    }

    /// Builds a tokenizer from the contents of vocab.json and merges.txt.
    pub fn from_strs(vocab_json: &str, merges_txt: &str) -> (r: Result<Bpe, TokenizerError>)
        ensures
            match model_of(vocab_json@, merges_txt@) {
                Ok(m) => r matches Ok(t) && t@ == m && well_formed(t@),
                Err(e) => r matches Err(x) && x@ == e,
            },
    {
        let (tokens, ids) = match parse_vocab_json(vocab_json) {
            Err(e) => {
                return Err(e);
            },
            Ok(p) => p,
        };
        let ghost vocab = entries_view(tokens@, ids@);
        let mut k: usize = 0;
        while k < ids.len()
            invariant
                vocab == entries_view(tokens@, ids@),
                tokens@.len() == ids@.len(),
                k <= ids@.len(),
                duplicate_id_from(vocab, k as int) == duplicate_id_from(vocab, 0),
                parse_vocab(vocab_json@) == Ok::<Seq<(Seq<char>, u32)>, VocabError>(vocab),
            decreases ids@.len() - k,
        {
            let mut j: usize = 0;
            while j < k
                invariant
                    vocab == entries_view(tokens@, ids@),
                    tokens@.len() == ids@.len(),
                    j <= k < ids@.len(),
                    forall|x: int| 0 <= x < j ==> (#[trigger] vocab[x]).1 != vocab[k as int].1,
                    duplicate_id_from(vocab, k as int) == duplicate_id_from(vocab, 0),
                    parse_vocab(vocab_json@) == Ok::<Seq<(Seq<char>, u32)>, VocabError>(vocab),
                decreases k - j,
            {
                assert(vocab[j as int].1 == ids@[j as int] && vocab[k as int].1 == ids@[k as int]);
                if ids[j] == ids[k] {
                    let mut m = String::from_str("duplicate id ");
                    push_decimal(&mut m, ids[k] as u64);
                    m.append(" in vocab");
                    assert(duplicate_id_from(vocab, k as int) == Some(ids@[k as int]));
                    return Err(TokenizerError::Format(m));
                }
                j = j + 1;
            }
            assert(vocab[k as int].1 == ids@[k as int]);
            assert(!exists|x: int| 0 <= x < k && (#[trigger] vocab[x]).1 == vocab[k as int].1);
            k = k + 1;
        }
        proof {
            lemma_no_duplicate_id(vocab, 0);
            lemma_parse_vocab_distinct(vocab_json@);
        }
        let (rule_left, rule_right) = match parse_merges_txt(merges_txt) {
            Err(e) => {
                return Err(e);
            },
            Ok(p) => p,
        };
        let byte_enc = byte_to_unicode();
        let t = Bpe { tokens, ids, rule_left, rule_right, byte_enc };
        Ok(t)
    }

    /// Number of vocab entries.
    pub fn vocab_size(&self) -> (n: usize)
        ensures
            n == self@.vocab.len(),
            well_formed(self@),
    {
        proof {
            use_type_invariant(self);
        }
        self.tokens.len()
    }

    /// Index of the entry whose token is `tok`.
    fn token_index(&self, tok: &[char]) -> (r: Option<usize>)
        ensures
            r is None <==> token_index_from(self@.vocab, tok@, 0) is None,
            r matches Some(k) ==> token_index_from(self@.vocab, tok@, 0) == Some(k as int),
    {
        proof {
            use_type_invariant(self);
        }
        let ghost vocab = self@.vocab;
        let mut k: usize = 0;
        while k < self.tokens.len()
            invariant
                vocab == entries_view(self.tokens@, self.ids@),
                self.tokens@.len() == self.ids@.len(),
                k <= self.tokens@.len(),
                token_index_from(vocab, tok@, k as int) == token_index_from(vocab, tok@, 0),
            decreases self.tokens@.len() - k,
        {
            if crate::text::chars_eq(&self.tokens[k], tok) {
                return Some(k);
            }
            k = k + 1;
        }
        None
    }

    /// Index of the entry whose id is `id`.
    fn id_index(&self, id: u32) -> (r: Option<usize>)
        ensures
            r is None <==> id_index_from(self@.vocab, id, 0) is None,
            r matches Some(k) ==> id_index_from(self@.vocab, id, 0) == Some(k as int),
    {
        proof {
            use_type_invariant(self);
        }
        let ghost vocab = self@.vocab;
        let mut k: usize = 0;
        while k < self.ids.len()
            invariant
                vocab == entries_view(self.tokens@, self.ids@),
                self.tokens@.len() == self.ids@.len(),
                k <= self.ids@.len(),
                id_index_from(vocab, id, k as int) == id_index_from(vocab, id, 0),
            decreases self.ids@.len() - k,
        {
            if self.ids[k] == id {
                return Some(k);
            }
            k = k + 1;
        }
        None
    }

    /// The ids of a text: pre-tokenize, map each piece's UTF-8 bytes
    /// through the byte table, merge, and look each symbol up in the vocab.
    pub fn encode(&self, text: &str) -> (r: Result<Vec<u32>, TokenizerError>)
        ensures
            match encode_text(self@, text@) {
                Ok(ids) => r matches Ok(v) && v@ == ids,
                Err(e) => r matches Err(x) && x@ == e,
            },
    {
        proof {
            use_type_invariant(self);
        }
        let ghost m = self@;
        let ps = pretokenize(text);
        let ghost pv = ps@.map_values(|s: String| s@);
        let mut out: Vec<u32> = Vec::new();
        let mut k: usize = 0;
        assert(pv.subrange(0, pv.len() as int) =~= pv);
        while k < ps.len()
            invariant
                m == self@,
                self.tokens@.len() == self.ids@.len(),
                self.rule_left@.len() == self.rule_right@.len(),
                self.byte_enc@ == byte_table(),
                pv == ps@.map_values(|s: String| s@),
                pv == pieces(text@),
                k <= ps@.len(),
                encode_text(m, text@) == match encode_pieces(m, pv.subrange(k as int, pv.len() as int)) {
                    Ok(rest) => Ok(out@ + rest),
                    Err(e) => Err::<Seq<u32>, TokenizerErrorView>(e),
                },
            decreases ps@.len() - k,
        {
            let piece = &ps[k];
            let bytes = piece.as_str().as_bytes();
            let mut mapped: Vec<char> = Vec::new();
            let mut j: usize = 0;
            while j < bytes.len()
                invariant
                    self.byte_enc@ == byte_table(),
                    bytes@ == encode_utf8(piece@),
                    j <= bytes@.len(),
                    mapped@ == bytes@.subrange(0, j as int).map_values(|b: u8| byte_char(b as int)),
                decreases bytes@.len() - j,
            {
                let c = self.byte_enc[bytes[j] as usize];
                mapped.push(c);
                assert(bytes@.subrange(0, j + 1) =~= bytes@.subrange(0, j as int).push(bytes@[j as int]));
                assert(mapped@ =~= bytes@.subrange(0, j + 1).map_values(|b: u8| byte_char(b as int)));
                j = j + 1;
            }
            assert(bytes@.subrange(0, bytes@.len() as int) =~= bytes@);
            assert(pv[k as int] == piece@);
            assert(mapped@ == mapped_piece(piece@));
            let word = bpe(&self.rule_left, &self.rule_right, &mapped);
            let ghost syms = seqs(word@);
            assert(syms == piece_symbols(m, pv[k as int]));
            let mut ids: Vec<u32> = Vec::new();
            let mut t: usize = 0;
            assert(syms.subrange(0, syms.len() as int) =~= syms);
            while t < word.len()
                invariant
                    m == self@,
                    self.tokens@.len() == self.ids@.len(),
                    syms == seqs(word@),
                    syms == piece_symbols(m, pv[k as int]),
                    k < pv.len(),
                    pv.subrange(k as int, pv.len() as int)[0] == pv[k as int],
                    encode_text(m, text@) == match encode_pieces(m, pv.subrange(k as int, pv.len() as int)) {
                        Ok(rest) => Ok(out@ + rest),
                        Err(e) => Err::<Seq<u32>, TokenizerErrorView>(e),
                    },
                    t <= word@.len(),
                    symbol_ids(m.vocab, syms) == match symbol_ids(m.vocab, syms.subrange(t as int, syms.len() as int)) {
                        Ok(rest) => Ok(ids@ + rest),
                        Err(s) => Err::<Seq<u32>, Seq<char>>(s),
                    },
                decreases word@.len() - t,
            {
                let ghost tail = syms.subrange(t as int, syms.len() as int);
                assert(tail[0] == word@[t as int]@);
                assert(tail.drop_first() =~= syms.subrange(t + 1, syms.len() as int));
                proof {
                    lemma_token_index_from(m.vocab, word@[t as int]@, 0);
                }
                match self.token_index(&word[t]) {
                    None => {
                        let sym = string_of(&word[t]);
                        assert(symbol_ids(m.vocab, tail) == Err::<Seq<u32>, Seq<char>>(word@[t as int]@));
                        assert(symbol_ids(m.vocab, syms) == Err::<Seq<u32>, Seq<char>>(word@[t as int]@));
                        assert(encode_pieces(m, pv.subrange(k as int, pv.len() as int)) == Err::<Seq<u32>, TokenizerErrorView>(TokenizerErrorView::UnknownToken(sym@)));
                        return Err(TokenizerError::UnknownToken(sym));
                    },
                    Some(x) => {
                        assert(m.vocab[x as int] == (self.tokens@[x as int]@, self.ids@[x as int]));
                        let ghost before = ids@;
                        ids.push(self.ids[x]);
                        proof {
                            match symbol_ids(m.vocab, syms.subrange(t + 1, syms.len() as int)) {
                                Ok(rest) => {
                                    assert(before + (seq![self.ids@[x as int]] + rest) =~= ids@ + rest);
                                },
                                Err(_) => {},
                            }
                        }
                    },
                }
                t = t + 1;
            }
            assert(syms.subrange(t as int, syms.len() as int) =~= Seq::<Seq<char>>::empty());
            assert(ids@ + Seq::<u32>::empty() =~= ids@);
            let ghost tail = pv.subrange(k as int, pv.len() as int);
            assert(tail[0] == pv[k as int]);
            assert(tail.drop_first() =~= pv.subrange(k + 1, pv.len() as int));
            let ghost before = out@;
            let mut q: usize = 0;
            while q < ids.len()
                invariant
                    q <= ids@.len(),
                    out@ == before + ids@.subrange(0, q as int),
                decreases ids@.len() - q,
            {
                out.push(ids[q]);
                assert(ids@.subrange(0, q + 1) =~= ids@.subrange(0, q as int).push(ids@[q as int]));
                q = q + 1;
            }
            assert(ids@.subrange(0, ids@.len() as int) =~= ids@);
            proof {
                match encode_pieces(m, pv.subrange(k + 1, pv.len() as int)) {
                    Ok(rest) => {
                        assert(before + (ids@ + rest) =~= out@ + rest);
                    },
                    Err(_) => {},
                }
            }
            k = k + 1;
        }
        assert(pv.subrange(k as int, pv.len() as int) =~= Seq::<Seq<char>>::empty());
        assert(out@ + Seq::<u32>::empty() =~= out@);
        Ok(out)
    }

    /// The text of a sequence of ids: vocab strings -> bytes -> UTF-8,
    /// lossy where token boundaries split a UTF-8 sequence.
    pub fn decode(&self, ids: &[u32]) -> (r: Result<String, TokenizerError>)
        ensures
            match decode_ids(self@, ids@) {
                Ok(text) => r matches Ok(s) && s@ == text,
                Err(e) => r matches Err(x) && x@ == e,
            },
    {
        proof {
            use_type_invariant(self);
        }
        let ghost m = self@;
        let mut bytes: Vec<u8> = Vec::new();
        let mut k: usize = 0;
        assert(ids@.subrange(0, ids@.len() as int) =~= ids@);
        while k < ids.len()
            invariant
                m == self@,
                self.tokens@.len() == self.ids@.len(),
                k <= ids@.len(),
                decode_bytes(m, ids@) == match decode_bytes(m, ids@.subrange(k as int, ids@.len() as int)) {
                    Ok(rest) => Ok(bytes@ + rest),
                    Err(e) => Err::<Seq<u8>, TokenizerErrorView>(e),
                },
            decreases ids@.len() - k,
        {
            let id = ids[k];
            let ghost tail = ids@.subrange(k as int, ids@.len() as int);
            assert(tail[0] == id);
            assert(tail.drop_first() =~= ids@.subrange(k + 1, ids@.len() as int));
            proof {
                lemma_id_index_from(m.vocab, id, 0);
            }
            let x = match self.id_index(id) {
                None => {
                    return Err(TokenizerError::UnknownId(id));
                },
                Some(x) => x,
            };
            assert(m.vocab[x as int] == (self.tokens@[x as int]@, self.ids@[x as int]));
            let tok = &self.tokens[x];
            assert(id_to_token(m.vocab, id) == Some(tok@));
            let ghost tb = token_bytes(tok@);
            let ghost before = bytes@;
            let mut j: usize = 0;
            assert(tok@.subrange(0, tok@.len() as int) =~= tok@);
            while j < tok.len()
                invariant
                    m == self@,
                    j <= tok@.len(),
                    tb == token_bytes(tok@),
                    id_to_token(m.vocab, id) == Some(tok@),
                    k < ids@.len(),
                    ids@.subrange(k as int, ids@.len() as int)[0] == id,
                    decode_bytes(m, ids@) == match decode_bytes(m, ids@.subrange(k as int, ids@.len() as int)) {
                        Ok(rest) => Ok(before + rest),
                        Err(e) => Err::<Seq<u8>, TokenizerErrorView>(e),
                    },
                    tb == match token_bytes(tok@.subrange(j as int, tok@.len() as int)) {
                        Ok(rest) => Ok(bytes@.subrange(before.len() as int, bytes@.len() as int) + rest),
                        Err(c) => Err::<Seq<u8>, char>(c),
                    },
                    bytes@.len() >= before.len(),
                    bytes@.subrange(0, before.len() as int) == before,
                decreases tok@.len() - j,
            {
                let c = tok[j];
                let ghost t2 = tok@.subrange(j as int, tok@.len() as int);
                assert(t2[0] == c);
                assert(t2.drop_first() =~= tok@.subrange(j + 1, tok@.len() as int));
                match char_to_byte(c) {
                    None => {
                        let mut msg = String::from_str("token ");
                        let shown = string_of(tok);
                        let d = debug_str(shown.as_str());
                        msg.append(d.as_str());
                        msg.append(" contains ");
                        let dc = debug_char(c);
                        msg.append(dc.as_str());
                        msg.append(", outside the byte table");
                        assert(token_bytes(t2) == Err::<Seq<u8>, char>(c));
                        assert(tb == Err::<Seq<u8>, char>(c));
                        assert(decode_bytes(m, ids@.subrange(k as int, ids@.len() as int)) == Err::<Seq<u8>, TokenizerErrorView>(TokenizerErrorView::Format(outside_table_message(tok@, c))));
                        assert(decode_bytes(m, ids@) == Err::<Seq<u8>, TokenizerErrorView>(TokenizerErrorView::Format(outside_table_message(tok@, c))));
                        assert(msg@ == outside_table_message(tok@, c));
                        return Err(TokenizerError::Format(msg));
                    },
                    Some(b) => {
                        let ghost prev = bytes@;
                        bytes.push(b);
                        assert(bytes@.subrange(0, before.len() as int) =~= prev.subrange(0, before.len() as int));
                        proof {
                            match token_bytes(tok@.subrange(j + 1, tok@.len() as int)) {
                                Ok(rest) => {
                                    assert(prev.subrange(before.len() as int, prev.len() as int) + (seq![b] + rest)
                                        =~= bytes@.subrange(before.len() as int, bytes@.len() as int) + rest);
                                },
                                Err(_) => {},
                            }
                        }
                    },
                }
                j = j + 1;
            }
            assert(tok@.subrange(j as int, tok@.len() as int) =~= Seq::<char>::empty());
            proof {
                let added = bytes@.subrange(before.len() as int, bytes@.len() as int);
                assert(tb == Ok::<Seq<u8>, char>(added + Seq::<u8>::empty()));
                assert(added + Seq::<u8>::empty() =~= added);
                assert(bytes@ =~= before + added);
                match decode_bytes(m, ids@.subrange(k + 1, ids@.len() as int)) {
                    Ok(rest) => {
                        assert(before + (added + rest) =~= bytes@ + rest);
                    },
                    Err(_) => {},
                }
            }
            k = k + 1;
        }
        assert(ids@.subrange(k as int, ids@.len() as int) =~= Seq::<u32>::empty());
        assert(bytes@ + Seq::<u8>::empty() =~= bytes@);
        Ok(from_utf8_lossy(bytes.as_slice()))
    }

    /// Direct vocab lookup (e.g. `token_id("<|endoftext|>")` for the eot id).
    pub fn token_id(&self, token: &str) -> (r: Option<u32>)
        ensures
            r == token_to_id(self@.vocab, token@),
    {
        proof {
            use_type_invariant(self);
        }
        let tok = crate::text::chars_of(token);
        proof {
            lemma_token_index_from(self@.vocab, tok@, 0);
        }
        match self.token_index(&tok) {
            Some(k) => {
                assert(token_index_from(self@.vocab, token@, 0) == Some(k as int));
                assert(self@.vocab[k as int] == (self.tokens@[k as int]@, self.ids@[k as int]));
                assert(token_to_id(self@.vocab, token@) == Some(self.ids@[k as int]));
                Some(self.ids[k])
            },
            None => {
                assert(token_index_from(self@.vocab, token@, 0) is None);
                None
            },
        }
    }
}

} // verus!
