//! The recognizers and the scan that tries them in order at each position.
use vstd::prelude::*;
use crate::cursor::TokenizingChars;
use crate::grammar::{
    lemma_run_end_bounds, lemma_step_bounds, lemma_string_close_bounds,
    number_token_len, operator_len, run_end, scan, space_len, space_pred, spaces, starts_invalid_ref, step,
    string_close, string_len, token_text, white_space,
};
use vstd::utf8::encode_utf8;
use crate::number::{number_match_len, NumberPattern};
use crate::token::{views, Token, TokenType};

verus! {

/// What a recognizer that accepts the first `n` characters as a token of
/// kind `k` (and declines where `n` is 0) returns and does to the cursor.
pub open spec fn recognized<'a>(
    before: TokenizingChars<'a>,
    after: TokenizingChars<'a>,
    r: Option<Token>,
    k: TokenType,
    n: nat,
) -> bool {
    &&& after.wf()
    &&& after.text() == before.text()
    &&& if n == 0 {
        r is None && after.pos() == before.pos()
    } else {
        &&& after.pos() == before.pos() + n
        &&& match r {
            Some(t) => t@ == (k, token_text(before.rest(), k, n)),
            None => false,
        }
    }
}

/// Relies on str::repeat: the result is `s` written `n` times. Callers pass
/// the length of a run of the input's own characters, so the result is no
/// larger than the input.
#[verifier::external_body]
fn repeat_str(s: &str, n: usize) -> (r: String)
    requires
        s@.len() == 1,
    ensures
        r@ == Seq::new(n as nat, |j: int| s@[0]),
{
    s.repeat(n)
}

/// Takes the next `n` characters as a token of kind `k`.
fn take_token(chars: &mut TokenizingChars, k: TokenType, n: usize) -> (r: Token)
    requires
        old(chars).wf(),
        0 < n <= old(chars).rest().len(),
        k != TokenType::Space,
    ensures
        recognized(*old(chars), *final(chars), Some(r), k, n as nat),
{
    let value = chars.lookahead_text(n);
    chars.advance_chars(n);
    Token { token_type: k, value }
}

fn at_space(chars: &TokenizingChars) -> (r: bool)
    requires
        chars.wf(),
    ensures
        r == (chars.rest().len() > 0 && white_space(chars.rest()[0])),
{
    match chars.current() {
        Some(c) => c.is_whitespace(),
        None => false,
    }
}

/// A maximal run of whitespace, as one `Space` token of as many plain spaces.
pub fn tokenize_space(chars: &mut TokenizingChars) -> (r: Option<Token>)
    requires
        old(chars).wf(),
    ensures
        recognized(*old(chars), *final(chars), r, TokenType::Space, space_len(old(chars).rest())),
{
    let ghost r0 = chars.rest();
    let ghost start_pos = chars.pos();
    proof {
        chars.lemma_bounds();
        lemma_run_end_bounds(r0, 0, space_pred());
    }
    let mut i: usize = 0;
    while at_space(chars)
        invariant
            old(chars).wf(),
            chars.wf(),
            chars.text() == old(chars).text(),
            r0 == old(chars).rest(),
            start_pos == old(chars).pos(),
            chars.pos() == start_pos + i,
            i <= r0.len(),
            r0.len() <= usize::MAX,
            chars.rest() == r0.skip(i as int),
            run_end(r0, i as int, space_pred()) == run_end(r0, 0, space_pred()),
        decreases r0.len() - i,
    {
        chars.shift();
        i = i + 1;
        proof {
            chars.lemma_bounds();
        }
        proof {
            TokenizingChars::lemma_rest_after(*old(chars), *chars, i as int);
            assert(old(chars).rest().skip(i as int) =~= r0.skip(i as int));
        }
    }
    if i > 0 {
        proof {
            reveal_strlit(" ");
        }
        let value = repeat_str(" ", i);
        assert(value@ =~= spaces(i as nat));
        Some(Token { token_type: TokenType::Space, value })
    } else {
        None
    }
}

/// The first of `+ - * / : = <> >= > <= < ^` that the text begins with.
pub fn tokenize_operator(chars: &mut TokenizingChars) -> (r: Option<Token>)
    requires
        old(chars).wf(),
    ensures
        recognized(*old(chars), *final(chars), r, TokenType::Operator, operator_len(old(chars).rest())),
{
    let n: usize = match chars.current() {
        Some('+') | Some('-') | Some('*') | Some('/') | Some(':') | Some('=') | Some('^') => 1,
        Some('<') => match chars.peek(1) {
            Some('>') | Some('=') => 2,
            _ => 1,
        },
        Some('>') => match chars.peek(1) {
            Some('=') => 2,
            _ => 1,
        },
        _ => 0,
    };
    if n > 0 {
        Some(take_token(chars, TokenType::Operator, n))
    } else {
        None
    }
}

/// Whether the next character is `c`.
fn at_char(chars: &TokenizingChars, c: char) -> (r: bool)
    requires
        chars.wf(),
    ensures
        r == (chars.rest().len() > 0 && chars.rest()[0] == c),
{
    match chars.current() {
        Some(d) => d == c,
        None => false,
    }
}

/// A bare comma.
pub fn tokenize_arg_separator(chars: &mut TokenizingChars) -> (r: Option<Token>)
    requires
        old(chars).wf(),
    ensures
        recognized(
            *old(chars),
            *final(chars),
            r,
            TokenType::ArgSeparator,
            if old(chars).rest().len() > 0 && old(chars).rest()[0] == ',' { 1 } else { 0 },
        ),
{
    if at_char(chars, ',') {
        Some(take_token(chars, TokenType::ArgSeparator, 1))
    } else {
        None
    }
}

/// `(` or `)`.
pub fn tokenize_parenthesis(chars: &mut TokenizingChars) -> (r: Option<Token>)
    requires
        old(chars).wf(),
    ensures
        old(chars).rest().len() > 0 && old(chars).rest()[0] == '(' ==> recognized(
            *old(chars),
            *final(chars),
            r,
            TokenType::LeftParen,
            1,
        ),
        old(chars).rest().len() > 0 && old(chars).rest()[0] == ')' ==> recognized(
            *old(chars),
            *final(chars),
            r,
            TokenType::RightParen,
            1,
        ),
        !(old(chars).rest().len() > 0 && (old(chars).rest()[0] == '(' || old(chars).rest()[0]
            == ')')) ==> recognized(*old(chars), *final(chars), r, TokenType::LeftParen, 0),
{
    if at_char(chars, '(') {
        Some(take_token(chars, TokenType::LeftParen, 1))
    } else if at_char(chars, ')') {
        Some(take_token(chars, TokenType::RightParen, 1))
    } else {
        None
    }
}

/// Where the quote that closes a string literal stands, searching from
/// `start` places ahead of the cursor.
fn find_string_close(chars: &TokenizingChars, start: usize) -> (r: Option<usize>)
    requires
        chars.wf(),
        1 <= start,
    ensures
        match r {
            Some(c) => string_close(chars.rest(), start as int) == c as int,
            None => string_close(chars.rest(), start as int) == -1,
        },
{
    let ghost rest = chars.rest();
    proof {
        chars.lemma_bounds();
    }
    if start > chars.rest_len() {
        return None;
    }
    let mut j: usize = start;
    loop
        invariant
            chars.wf(),
            rest == chars.rest(),
            start <= j <= rest.len(),
            rest.len() <= usize::MAX,
            string_close(rest, j as int) == string_close(rest, start as int),
        decreases rest.len() - j,
    {
        match chars.peek(j) {
            None => {
                return None;
            },
            Some('\\') => {
                if chars.peek(j + 1).is_none() {
                    return None;
                }
                j = j + 2;
            },
            Some('"') => {
                return Some(j);
            },
            Some(_) => {
                j = j + 1;
            },
        }
    }
}

/// A double-quoted literal with a non-empty body, quotes included; a
/// backslash makes the character after it plain content.
pub fn tokenize_string(chars: &mut TokenizingChars) -> (r: Option<Token>)
    requires
        old(chars).wf(),
    ensures
        recognized(*old(chars), *final(chars), r, TokenType::String, string_len(old(chars).rest())),
{
    if !at_char(chars, '"') {
        return None;
    }
    proof {
        chars.lemma_bounds();
        lemma_string_close_bounds(chars.rest(), 1);
    }
    match find_string_close(chars, 1) {
        Some(c) => {
            if c > 1 {
                Some(take_token(chars, TokenType::String, c + 1))
            } else {
                None
            }
        },
        None => None,
    }
}

/// A bare `?`.
pub fn tokenize_debugger(chars: &mut TokenizingChars) -> (r: Option<Token>)
    requires
        old(chars).wf(),
    ensures
        recognized(
            *old(chars),
            *final(chars),
            r,
            TokenType::Debugger,
            if old(chars).rest().len() > 0 && old(chars).rest()[0] == '?' { 1 } else { 0 },
        ),
{
    if at_char(chars, '?') {
        Some(take_token(chars, TokenType::Debugger, 1))
    } else {
        None
    }
}

/// The error marker `#REF`, whatever follows it.
pub fn tokenize_invalid_range(chars: &mut TokenizingChars) -> (r: Option<Token>)
    requires
        old(chars).wf(),
    ensures
        recognized(
            *old(chars),
            *final(chars),
            r,
            TokenType::InvalidReference,
            if starts_invalid_ref(old(chars).rest()) { 4 } else { 0 },
        ),
{
    proof {
        reveal_strlit("#REF");
    }
    let found = chars.current_starts_with("#REF");
    assert(found == starts_invalid_ref(chars.rest())) by {
        let lit = seq!['#', 'R', 'E', 'F'];
        assert("#REF"@ =~= lit);
        if starts_invalid_ref(chars.rest()) {
            assert(chars.rest().take(4) =~= lit);
        }
        if found {
            assert(chars.rest().take(4) == lit);
            assert(chars.rest().take(4)[0] == lit[0]);
            assert(chars.rest().take(4)[1] == lit[1]);
            assert(chars.rest().take(4)[2] == lit[2]);
            assert(chars.rest().take(4)[3] == lit[3]);
        }
    }
    if found {
        Some(take_token(chars, TokenType::InvalidReference, 4))
    } else {
        None
    }
}

/// A number, where the next character is an ASCII digit or a point.
pub fn tokenize_number(chars: &mut TokenizingChars, pattern: &NumberPattern) -> (r: Option<Token>)
    requires
        old(chars).wf(),
    ensures
        recognized(*old(chars), *final(chars), r, TokenType::Number, number_token_len(old(chars).rest())),
{
    let starts = match chars.current() {
        Some(c) => ('0' <= c && c <= '9') || c == '.',
        None => false,
    };
    if !starts {
        return None;
    }
    match pattern.match_end(chars.remaining()) {
        Some(b) => {
            let ghost m = number_match_len(chars.rest()) as int;
            assert(encode_utf8(chars.rest().take(m)).len() == b);
            let k = chars.chars_in_bytes(b);
            Some(take_token(chars, TokenType::Number, k))
        },
        None => None,
    }
}

/// A symbol: only the quoted form is recognized, and it is not yet.
pub fn tokenize_symbol(chars: &mut TokenizingChars) -> (r: Option<Token>)
    requires
        old(chars).wf(),
    ensures
        recognized(*old(chars), *final(chars), r, TokenType::Symbol, 0),
{
    if at_char(chars, '\'') {
        tokenize_quoted_symbol(chars)
    } else {
        None
    }
}

/// A single-quoted symbol name: a reserved recognizer that always declines.
pub fn tokenize_quoted_symbol(chars: &mut TokenizingChars) -> (r: Option<Token>)
    requires
        old(chars).wf(),
    ensures
        recognized(*old(chars), *final(chars), r, TokenType::Symbol, 0),
{
    None
}

/// The tokens of `formula`, with the number pattern already compiled.
pub fn tokenize_with(pattern: &NumberPattern, formula: &str) -> (r: Vec<Token>)
    ensures
        views(r@) == scan(formula@),
{
    let mut tokens: Vec<Token> = Vec::new();
    let mut chars = TokenizingChars::new(formula);
    assert(chars.rest() =~= formula@);
    while !chars.is_over()
        invariant
            chars.wf(),
            chars.text() == formula@,
            scan(formula@) == views(tokens@) + scan(chars.rest()),
        decreases chars.rest().len(),
    {
        let ghost r = chars.rest();
        let ghost before = chars;
        proof {
            lemma_step_bounds(r);
        }
        let token = if let Some(t) = tokenize_space(&mut chars) {
            t
        } else if let Some(t) = tokenize_operator(&mut chars) {
            t
        } else if let Some(t) = tokenize_arg_separator(&mut chars) {
            t
        } else if let Some(t) = tokenize_parenthesis(&mut chars) {
            t
        } else if let Some(t) = tokenize_string(&mut chars) {
            t
        } else if let Some(t) = tokenize_debugger(&mut chars) {
            t
        } else if let Some(t) = tokenize_invalid_range(&mut chars) {
            t
        } else if let Some(t) = tokenize_number(&mut chars, pattern) {
            t
        } else if let Some(t) = tokenize_symbol(&mut chars) {
            t
        } else {
            take_token(&mut chars, TokenType::Unknown, 1)
        };
        proof {
            chars.lemma_bounds();
        }
        assert(chars.text() == before.text());
        assert(chars.pos() == before.pos() + step(r).1);
        assert(token@ == (step(r).0, token_text(r, step(r).0, step(r).1)));
        proof {
            TokenizingChars::lemma_rest_after(before, chars, step(r).1 as int);
        }
        assert(views(tokens@.push(token)) =~= views(tokens@).push(token@));
        tokens.push(token);
        assert(views(tokens@) + scan(chars.rest()) =~= views(tokens@).drop_last() + scan(r));
    }
    assert(scan(chars.rest()) =~= Seq::empty());
    assert(views(tokens@) + Seq::empty() =~= views(tokens@));
    tokens
}

/// The tokens of `formula`, in order.
pub fn tokenize(formula: &str) -> (r: Vec<Token>)
    ensures
        views(r@) == scan(formula@),
{
    let pattern = NumberPattern::new();
    tokenize_with(&pattern, formula)
}

} // verus!
