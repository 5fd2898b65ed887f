//! Properties of the scan as a whole.
use vstd::prelude::*;
use crate::grammar::{lemma_step_bounds, scan, spaces, step, token_text, white_space};
use crate::token::{TokenType, TokenView};

verus! {

/// The texts of `ts`, one after another.
pub open spec fn concat_texts(ts: Seq<TokenView>) -> Seq<char>
    decreases ts.len(),
{
    if ts.len() == 0 {
        Seq::empty()
    } else {
        ts[0].1 + concat_texts(ts.drop_first())
    }
}

proof fn lemma_concat_cons(a: TokenView, rest: Seq<TokenView>)
    ensures
        concat_texts(seq![a] + rest) == a.1 + concat_texts(rest),
{
    assert((seq![a] + rest).drop_first() =~= rest);
}

/// The tokens' texts, put together, give back the formula, but that each
/// whitespace character may come back as a plain space.
pub proof fn lemma_coverage_up_to_whitespace(s: Seq<char>)
    ensures
        concat_texts(scan(s)).len() == s.len(),
        forall|i: int|
            0 <= i < s.len() ==> #[trigger] concat_texts(scan(s))[i] == s[i] || (white_space(s[i])
                && concat_texts(scan(s))[i] == ' '),
    decreases s.len(),
{
    if s.len() > 0 {
        lemma_step_bounds(s);
        let (k, n) = step(s);
        let t = token_text(s, k, n);
        let rest = s.skip(n as int);
        lemma_coverage_up_to_whitespace(rest);
        lemma_concat_cons((k, t), scan(rest));
        let c = concat_texts(scan(s));
        assert(c == t + concat_texts(scan(rest)));
        assert forall|i: int| 0 <= i < s.len() implies #[trigger] c[i] == s[i] || (white_space(s[i])
            && c[i] == ' ') by {
            if i >= n {
                assert(c[i] == concat_texts(scan(rest))[i - n]);
                assert(rest[i - n] == s[i]);
            } else {
                assert(c[i] == t[i]);
            }
        }
    }
}

/// The pieces of `s` that the tokens of `scan(s)` cover, in order.
pub open spec fn covered(s: Seq<char>) -> Seq<Seq<char>>
    decreases s.len(),
    via covered_decreases
{
    if s.len() == 0 {
        Seq::empty()
    } else {
        seq![s.take(step(s).1 as int)] + covered(s.skip(step(s).1 as int))
    }
}

#[via_fn]
proof fn covered_decreases(s: Seq<char>) {
    if s.len() > 0 {
        lemma_step_bounds(s);
    }
}

/// The pieces `p`, one after another.
pub open spec fn concat_pieces(p: Seq<Seq<char>>) -> Seq<char>
    decreases p.len(),
{
    if p.len() == 0 {
        Seq::empty()
    } else {
        p[0] + concat_pieces(p.drop_first())
    }
}

/// The tokens split the formula into consecutive pieces, without gap or
/// overlap. Each token's text is its piece exactly (whitespace inside a
/// string literal included), but for a whitespace run's token, whose text
/// is as many plain spaces.
pub proof fn lemma_lossless(s: Seq<char>)
    ensures
        covered(s).len() == scan(s).len(),
        concat_pieces(covered(s)) == s,
        forall|k: int|
            0 <= k < scan(s).len() ==> #[trigger] scan(s)[k].1 == if scan(s)[k].0 == TokenType::Space {
                spaces(covered(s)[k].len())
            } else {
                covered(s)[k]
            },
    decreases s.len(),
{
    if s.len() > 0 {
        lemma_step_bounds(s);
        let (kind, n) = step(s);
        let rest = s.skip(n as int);
        lemma_lossless(rest);
        let piece = s.take(n as int);
        let head = (kind, token_text(s, kind, n));
        assert((seq![piece] + covered(rest)).drop_first() =~= covered(rest));
        assert(concat_pieces(covered(s)) == piece + concat_pieces(covered(rest)));
        assert(piece + rest =~= s);
        assert forall|k: int| 0 <= k < scan(s).len() implies #[trigger] scan(s)[k].1 == if scan(
            s,
        )[k].0 == TokenType::Space {
            spaces(covered(s)[k].len())
        } else {
            covered(s)[k]
        } by {
            if k == 0 {
                assert(scan(s)[0] == head);
                assert(covered(s)[0] == piece);
            } else {
                assert(scan(s)[k] == scan(rest)[k - 1]);
                assert(covered(s)[k] == covered(rest)[k - 1]);
            }
        }
    }
}

/// Where the formula's only whitespace is the plain space, the tokens'
/// texts put together are exactly the formula.
pub proof fn lemma_coverage(s: Seq<char>)
    requires
        forall|i: int| 0 <= i < s.len() && white_space(#[trigger] s[i]) ==> s[i] == ' ',
    ensures
        concat_texts(scan(s)) == s,
{
    lemma_coverage_up_to_whitespace(s);
    assert(concat_texts(scan(s)) =~= s);
}

/// The empty formula gives no token; any other gives at least one, and no
/// more than it has characters.
pub proof fn lemma_total(s: Seq<char>)
    ensures
        s.len() == 0 ==> scan(s).len() == 0,
        s.len() > 0 ==> 1 <= scan(s).len() <= s.len(),
    decreases s.len(),
{
    if s.len() > 0 {
        lemma_step_bounds(s);
        lemma_total(s.skip(step(s).1 as int));
    }
}

/// A single character that no recognizer accepts gives exactly one
/// `Unknown` token holding that character.
pub proof fn lemma_fallback(c: char)
    requires
        step(seq![c]).0 == TokenType::Unknown,
    ensures
        scan(seq![c]) == seq![(TokenType::Unknown, seq![c])],
{
    let s = seq![c];
    lemma_step_bounds(s);
    assert(s.take(1) =~= s);
    assert(scan(s.skip(1)) == Seq::<TokenView>::empty());
    assert(scan(s) =~= seq![(TokenType::Unknown, seq![c])]);
}

} // verus!
