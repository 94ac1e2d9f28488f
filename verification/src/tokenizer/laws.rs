//! What the tokenizer promises across its operations.

use vstd::prelude::*;
use vstd::utf8::{encode_utf8, decode_utf8, valid_utf8};
use crate::text::lossy_text;
use crate::tokenizer::{
    BpeModel, well_formed, distinct_ids, distinct_tokens, token_to_id, id_to_token, token_index_from,
    id_index_from, char_byte, token_bytes, mapped_piece, piece_symbols, symbol_ids, encode_pieces,
    encode_text, decode_bytes, decode_ids, lemma_token_index_from, lemma_id_index_from,
};
use crate::tokenizer::byte_table::{byte_char, lemma_byte_char_injective};
use crate::tokenizer::merge::{lemma_bpe_word_flatten, lemma_singletons_flatten};
use crate::tokenizer::pretok::{pieces, lemma_pieces_flatten};

verus! {

broadcast use vstd::seq_lib::group_seq_properties;

/// In a well-formed vocab, the token of a token's id is that token.
pub proof fn lemma_id_of_token_round_trip(vocab: Seq<(Seq<char>, u32)>, tok: Seq<char>)
    requires
        distinct_ids(vocab),
        token_to_id(vocab, tok) is Some,
    ensures
        id_to_token(vocab, token_to_id(vocab, tok)->0) == Some(tok),
{
    lemma_token_index_from(vocab, tok, 0);
    let k = token_index_from(vocab, tok, 0)->0;
    let id = vocab[k].1;
    lemma_id_index_from(vocab, id, 0);
    match id_index_from(vocab, id, 0) {
        Some(x) => {
            if x != k {
                if x < k {
                    assert(vocab[x].1 != vocab[k].1);
                } else {
                    assert(vocab[k].1 != vocab[x].1);
                }
            }
        },
        None => {
            assert(vocab[k].1 != id);
        },
    }
}

/// Token bytes of a concatenation are the concatenation of token bytes.
pub proof fn lemma_token_bytes_concat(a: Seq<char>, b: Seq<char>)
    ensures
        token_bytes(a + b) == match token_bytes(a) {
            Err(c) => Err(c),
            Ok(x) => match token_bytes(b) {
                Ok(y) => Ok(x + y),
                Err(c) => Err::<Seq<u8>, char>(c),
            },
        },
    decreases a.len(),
{
    if a.len() == 0 {
        assert(a + b =~= b);
        match token_bytes(b) {
            Ok(y) => {
                assert(Seq::<u8>::empty() + y =~= y);
            },
            Err(_) => {},
        }
    } else {
        assert((a + b)[0] == a[0]);
        assert((a + b).drop_first() =~= a.drop_first() + b);
        lemma_token_bytes_concat(a.drop_first(), b);
        match char_byte(a[0]) {
            None => {},
            Some(v) => match token_bytes(a.drop_first()) {
                Err(_) => {},
                Ok(x) => match token_bytes(b) {
                    Ok(y) => {
                        assert(seq![v] + (x + y) =~= (seq![v] + x) + y);
                    },
                    Err(_) => {},
                },
            },
        }
    }
}

/// Every byte maps to a char of the table, which maps back to the byte.
pub proof fn lemma_char_byte_of_byte_char(b: u8)
    ensures
        char_byte(byte_char(b as int)) == Some(b),
{
    let c = byte_char(b as int);
    assert(0 <= b < 256 && byte_char(b as int) == c);
    let w = choose|x: int| 0 <= x < 256 && byte_char(x) == c;
    lemma_byte_char_injective(w, b as int);
}

/// Chars mapped from bytes give those bytes back.
pub proof fn lemma_token_bytes_of_mapped(bs: Seq<u8>)
    ensures
        token_bytes(bs.map_values(|b: u8| byte_char(b as int))) == Ok::<Seq<u8>, char>(bs),
    decreases bs.len(),
{
    let cs = bs.map_values(|b: u8| byte_char(b as int));
    if bs.len() > 0 {
        lemma_char_byte_of_byte_char(bs[0]);
        assert(cs.drop_first() =~= bs.drop_first().map_values(|b: u8| byte_char(b as int)));
        lemma_token_bytes_of_mapped(bs.drop_first());
        assert(seq![bs[0]] + bs.drop_first() =~= bs);
    } else {
        assert(bs =~= Seq::<u8>::empty());
    }
}

/// Decoding a concatenation of ids concatenates the decoded bytes.
pub proof fn lemma_decode_bytes_concat(m: BpeModel, a: Seq<u32>, b: Seq<u32>, x: Seq<u8>, y: Seq<u8>)
    requires
        decode_bytes(m, a) == Ok::<Seq<u8>, crate::tokenizer::TokenizerErrorView>(x),
        decode_bytes(m, b) == Ok::<Seq<u8>, crate::tokenizer::TokenizerErrorView>(y),
    ensures
        decode_bytes(m, a + b) == Ok::<Seq<u8>, crate::tokenizer::TokenizerErrorView>(x + y),
    decreases a.len(),
{
    if a.len() == 0 {
        assert(a + b =~= b);
        assert(x =~= Seq::<u8>::empty());
        assert(x + y =~= y);
    } else {
        assert((a + b)[0] == a[0]);
        assert((a + b).drop_first() =~= a.drop_first() + b);
        let tok = id_to_token(m.vocab, a[0])->0;
        let bs = token_bytes(tok)->Ok_0;
        let rest = decode_bytes(m, a.drop_first())->Ok_0;
        lemma_decode_bytes_concat(m, a.drop_first(), b, rest, y);
        assert(bs + (rest + y) =~= (bs + rest) + y);
    }
}

/// The ids of a sequence of symbols decode to the bytes of their chars.
pub proof fn lemma_decode_symbol_ids(m: BpeModel, syms: Seq<Seq<char>>, bs: Seq<u8>)
    requires
        well_formed(m),
        symbol_ids(m.vocab, syms) is Ok,
        token_bytes(syms.flatten()) == Ok::<Seq<u8>, char>(bs),
    ensures
        decode_bytes(m, symbol_ids(m.vocab, syms)->Ok_0) == Ok::<Seq<u8>, crate::tokenizer::TokenizerErrorView>(bs),
    decreases syms.len(),
{
    if syms.len() > 0 {
        let ids = symbol_ids(m.vocab, syms)->Ok_0;
        let id = token_to_id(m.vocab, syms[0])->0;
        let rest_ids = symbol_ids(m.vocab, syms.drop_first())->Ok_0;
        assert(ids == seq![id] + rest_ids);
        lemma_id_of_token_round_trip(m.vocab, syms[0]);
        assert(syms.flatten() == syms[0] + syms.drop_first().flatten());
        lemma_token_bytes_concat(syms[0], syms.drop_first().flatten());
        let x = token_bytes(syms[0])->Ok_0;
        let y = token_bytes(syms.drop_first().flatten())->Ok_0;
        lemma_decode_symbol_ids(m, syms.drop_first(), y);
        assert(ids[0] == id);
        assert(ids.drop_first() =~= rest_ids);
        assert(decode_bytes(m, ids) == Ok::<Seq<u8>, crate::tokenizer::TokenizerErrorView>(x + y));
    } else {
        assert(syms.flatten() =~= Seq::<char>::empty());
        assert(bs =~= Seq::<u8>::empty());
        assert(symbol_ids(m.vocab, syms)->Ok_0 =~= Seq::<u32>::empty());
    }
}

/// UTF-8 encoding distributes over concatenation.
pub proof fn lemma_encode_utf8_concat(a: Seq<char>, b: Seq<char>)
    ensures
        encode_utf8(a + b) == encode_utf8(a) + encode_utf8(b),
    decreases a.len(),
{
    if a.len() == 0 {
        assert(a + b =~= b);
        assert(encode_utf8(a) =~= Seq::<u8>::empty());
        assert(encode_utf8(a) + encode_utf8(b) =~= encode_utf8(b));
    } else {
        assert((a + b)[0] == a[0]);
        assert((a + b).drop_first() =~= a.drop_first() + b);
        lemma_encode_utf8_concat(a.drop_first(), b);
        let s = vstd::utf8::encode_scalar(a[0] as u32);
        assert(s + (encode_utf8(a.drop_first()) + encode_utf8(b)) =~= (s + encode_utf8(a.drop_first())) + encode_utf8(b));
    }
}

/// The ids of a sequence of pieces decode to the UTF-8 bytes of their text.
pub proof fn lemma_decode_encode_pieces(m: BpeModel, ps: Seq<Seq<char>>)
    requires
        well_formed(m),
        encode_pieces(m, ps) is Ok,
    ensures
        decode_bytes(m, encode_pieces(m, ps)->Ok_0) == Ok::<Seq<u8>, crate::tokenizer::TokenizerErrorView>(encode_utf8(ps.flatten())),
    decreases ps.len(),
{
    if ps.len() == 0 {
        assert(encode_pieces(m, ps)->Ok_0 =~= Seq::<u32>::empty());
        assert(ps.flatten() =~= Seq::<char>::empty());
        assert(encode_utf8(ps.flatten()) =~= Seq::<u8>::empty());
    } else {
        let p = ps[0];
        let syms = piece_symbols(m, p);
        let bytes = encode_utf8(p);
        lemma_bpe_word_flatten(crate::tokenizer::merge::singletons(mapped_piece(p)), m.rules);
        lemma_singletons_flatten(mapped_piece(p));
        assert(syms.flatten() == mapped_piece(p));
        lemma_token_bytes_of_mapped(bytes);
        let ids = symbol_ids(m.vocab, syms)->Ok_0;
        lemma_decode_symbol_ids(m, syms, bytes);
        lemma_decode_encode_pieces(m, ps.drop_first());
        let rest = encode_pieces(m, ps.drop_first())->Ok_0;
        lemma_decode_bytes_concat(m, ids, rest, bytes, encode_utf8(ps.drop_first().flatten()));
        assert(ps.flatten() == p + ps.drop_first().flatten());
        lemma_encode_utf8_concat(p, ps.drop_first().flatten());
    }
}

/// Decoding inverts encoding: whenever a text encodes, its ids decode back
/// to exactly that text.
pub proof fn lemma_decode_inverts_encode(m: BpeModel, text: Seq<char>)
    requires
        well_formed(m),
        encode_text(m, text) is Ok,
    ensures
        decode_ids(m, encode_text(m, text)->Ok_0) == Ok::<Seq<char>, crate::tokenizer::TokenizerErrorView>(text),
{
    lemma_pieces_flatten(text);
    lemma_decode_encode_pieces(m, pieces(text));
    vstd::utf8::encode_utf8_valid_utf8(text);
    vstd::utf8::encode_utf8_decode_utf8(text);
}

} // verus!
