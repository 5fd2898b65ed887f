//! The structural byte encoding of token streams: two bytes per token (kind
//! code, byte length modulo 256) and a zero byte after each formula.
use vstd::prelude::*;
use vstd::utf8::encode_utf8;
use crate::token::{kind_code, Token};

verus! {

/// The two bytes written for a token.
pub open spec fn token_bytes(t: Token) -> Seq<u8> {
    seq![kind_code(t.token_type), ((encode_utf8(t.value@).len() as usize) % 256) as u8]
}

/// The bytes of a formula's tokens, without the terminator.
pub open spec fn tokens_bytes(ts: Seq<Token>) -> Seq<u8>
    decreases ts.len(),
{
    if ts.len() == 0 {
        Seq::empty()
    } else {
        tokens_bytes(ts.drop_last()) + token_bytes(ts.last())
    }
}

/// The bytes of a list of formulas' tokens, each list followed by a zero.
pub open spec fn encoded(v: Seq<Vec<Token>>) -> Seq<u8>
    decreases v.len(),
{
    if v.len() == 0 {
        Seq::empty()
    } else {
        encoded(v.drop_last()) + tokens_bytes(v.last()@) + seq![0u8]
    }
}

/// How many tokens the lists hold together.
pub open spec fn token_count(v: Seq<Vec<Token>>) -> nat
    decreases v.len(),
{
    if v.len() == 0 {
        0
    } else {
        token_count(v.drop_last()) + v.last()@.len()
    }
}

proof fn lemma_tokens_bytes_len(ts: Seq<Token>)
    ensures
        tokens_bytes(ts).len() == 2 * ts.len(),
    decreases ts.len(),
{
    if ts.len() > 0 {
        lemma_tokens_bytes_len(ts.drop_last());
    }
}

/// The encoding of formulas holding c1, ..., cn tokens is
/// 2 * (c1 + ... + cn) + n bytes long.
pub proof fn lemma_encoded_len(v: Seq<Vec<Token>>)
    ensures
        encoded(v).len() == 2 * token_count(v) + v.len(),
    decreases v.len(),
{
    if v.len() > 0 {
        lemma_encoded_len(v.drop_last());
        lemma_tokens_bytes_len(v.last()@);
    }
}

proof fn lemma_token_count_prefix(v: Seq<Vec<Token>>, i: int)
    requires
        0 <= i <= v.len(),
    ensures
        token_count(v.take(i)) <= token_count(v),
    decreases v.len() - i,
{
    if i < v.len() {
        lemma_token_count_prefix(v, i + 1);
        assert(v.take(i + 1).drop_last() =~= v.take(i));
    } else {
        assert(v.take(i) =~= v);
    }
}

/// Encodes each formula's tokens in order into one buffer of exactly
/// `2 * (token count) + (formula count)` bytes.
pub fn encode_tokens_to_bytes(tokens_vec: Vec<Vec<Token>>) -> (r: Vec<u8>)
    requires
        2 * token_count(tokens_vec@) + tokens_vec@.len() <= usize::MAX,
    ensures
        r@ == encoded(tokens_vec@),
        r@.len() == 2 * token_count(tokens_vec@) + tokens_vec@.len(),
{
    let ghost v = tokens_vec@;
    let mut total: usize = 0;
    let mut i: usize = 0;
    while i < tokens_vec.len()
        invariant
            v == tokens_vec@,
            2 * token_count(v) + v.len() <= usize::MAX,
            i <= v.len(),
            total == token_count(v.take(i as int)),
        decreases v.len() - i,
    {
        proof {
            lemma_token_count_prefix(v, i + 1);
            assert(v.take(i + 1).drop_last() =~= v.take(i as int));
        }
        total = total + tokens_vec[i].len();
        i = i + 1;
    }
    assert(v.take(v.len() as int) =~= v);
    let mut buffer: Vec<u8> = Vec::with_capacity(2 * total + tokens_vec.len());
    let mut f: usize = 0;
    while f < tokens_vec.len()
        invariant
            v == tokens_vec@,
            f <= v.len(),
            buffer@ == encoded(v.take(f as int)),
        decreases v.len() - f,
    {
        let tokens = &tokens_vec[f];
        let ghost start = buffer@;
        let mut k: usize = 0;
        while k < tokens.len()
            invariant
                f < v.len(),
                tokens@ == v[f as int]@,
                k <= tokens@.len(),
                buffer@ == start + tokens_bytes(tokens@.take(k as int)),
            decreases tokens@.len() - k,
        {
            let token = &tokens[k];
            let code = token.token_type.code();
            let len = token.value.as_str().len();
            assert(len == encode_utf8(token.value@).len() as usize);
            buffer.push(code);
            buffer.push((len % 256) as u8);
            assert(tokens@.take(k + 1).drop_last() =~= tokens@.take(k as int));
            assert(tokens@.take(k + 1).last() == tokens@[k as int]);
            assert(buffer@ =~= start + tokens_bytes(tokens@.take(k as int)) + token_bytes(
                tokens@[k as int],
            ));
            k = k + 1;
        }
        buffer.push(0u8);
        assert(tokens@.take(k as int) =~= tokens@);
        assert(v.take(f + 1).drop_last() =~= v.take(f as int));
        f = f + 1;
    }
    assert(v.take(f as int) =~= v);
    proof {
        lemma_encoded_len(v);
    }
    buffer
}

} // verus!
