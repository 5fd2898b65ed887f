//! The lexical grammar: what each recognizer accepts at the front of the
//! text not yet consumed, and the scan that the recognizers make in turn.
use vstd::prelude::*;
use crate::number::number_match_len;
use crate::token::{TokenType, TokenView};

verus! {

/// The Unicode `White_Space` property.
pub open spec fn white_space(c: char) -> bool {
    let v = c as u32;
    (0x9 <= v && v <= 0xd) || v == 0x20 || v == 0x85 || v == 0xa0 || v == 0x1680
        || (0x2000 <= v && v <= 0x200a) || v == 0x2028 || v == 0x2029 || v == 0x202f
        || v == 0x205f || v == 0x3000
}

/// Relies on char::is_whitespace: true exactly for the `White_Space` property.
pub assume_specification[ char::is_whitespace ](c: char) -> (r: bool)
    ensures
        r == white_space(c),
;

pub open spec fn is_digit(c: char) -> bool {
    '0' <= c && c <= '9'
}

pub open spec fn space_pred() -> spec_fn(char) -> bool {
    |c: char| white_space(c)
}

pub open spec fn digit_pred() -> spec_fn(char) -> bool {
    |c: char| is_digit(c)
}

/// The end of the longest run of characters satisfying `p` that starts at `i`.
pub open spec fn run_end(r: Seq<char>, i: int, p: spec_fn(char) -> bool) -> int
    decreases r.len() - i,
{
    if 0 <= i < r.len() && p(r[i]) {
        run_end(r, i + 1, p)
    } else {
        i
    }
}

pub proof fn lemma_run_end_bounds(r: Seq<char>, i: int, p: spec_fn(char) -> bool)
    requires
        0 <= i <= r.len(),
    ensures
        i <= run_end(r, i, p) <= r.len(),
        forall|j: int| i <= j < run_end(r, i, p) ==> p(r[j]),
    decreases r.len() - i,
{
    if i < r.len() && p(r[i]) {
        lemma_run_end_bounds(r, i + 1, p);
    }
}

/// Length of the leading run of whitespace.
pub open spec fn space_len(r: Seq<char>) -> nat {
    run_end(r, 0, space_pred()) as nat
}

/// Length of the operator at the front: the first of
/// `+ - * / : = <> >= > <= < ^` that the text begins with, or 0.
pub open spec fn operator_len(r: Seq<char>) -> nat {
    if r.len() == 0 {
        0
    } else if r[0] == '+' || r[0] == '-' || r[0] == '*' || r[0] == '/' || r[0] == ':'
        || r[0] == '=' || r[0] == '^' {
        1
    } else if r[0] == '<' {
        if r.len() > 1 && (r[1] == '>' || r[1] == '=') {
            2
        } else {
            1
        }
    } else if r[0] == '>' {
        if r.len() > 1 && r[1] == '=' {
            2
        } else {
            1
        }
    } else {
        0
    }
}

/// The position of the quote that closes a string literal, searching from `j`;
/// a backslash makes the character after it plain content. -1 if none.
pub open spec fn string_close(r: Seq<char>, j: int) -> int
    decreases r.len() - j,
{
    if j < 0 || j >= r.len() {
        -1
    } else if r[j] == '\\' {
        if j + 1 >= r.len() {
            -1
        } else {
            string_close(r, j + 2)
        }
    } else if r[j] == '"' {
        j
    } else {
        string_close(r, j + 1)
    }
}

pub proof fn lemma_string_close_bounds(r: Seq<char>, j: int)
    requires
        0 <= j,
    ensures
        string_close(r, j) == -1 || (j <= string_close(r, j) < r.len() && r[string_close(r, j)]
            == '"'),
    decreases r.len() - j,
{
    if j < r.len() {
        if r[j] == '\\' {
            if j + 1 < r.len() {
                lemma_string_close_bounds(r, j + 2);
            }
        } else if r[j] != '"' {
            lemma_string_close_bounds(r, j + 1);
        }
    }
}

/// Length of the double-quoted literal at the front, quotes included: its
/// body is not empty and a closing quote ends it. 0 if there is none.
pub open spec fn string_len(r: Seq<char>) -> nat {
    if r.len() > 0 && r[0] == '"' && string_close(r, 1) > 1 {
        (string_close(r, 1) + 1) as nat
    } else {
        0
    }
}

/// Whether the text begins with the error marker `#REF`.
pub open spec fn starts_invalid_ref(r: Seq<char>) -> bool {
    r.len() >= 4 && r[0] == '#' && r[1] == 'R' && r[2] == 'E' && r[3] == 'F'
}

/// The number grammar on ASCII text: the length of the number at the front,
/// or 0. Digits, then at most one point, digits, and an exponent `e`
/// followed by at least one digit; or a point followed by digits.
pub open spec fn number_len(r: Seq<char>) -> nat {
    if r.len() > 0 && is_digit(r[0]) {
        let a = run_end(r, 0, digit_pred());
        let b = if a < r.len() && r[a] == '.' { a + 1 } else { a };
        let c = run_end(r, b, digit_pred());
        if c + 1 < r.len() && r[c] == 'e' && is_digit(r[c + 1]) {
            run_end(r, c + 1, digit_pred()) as nat
        } else {
            c as nat
        }
    } else if r.len() > 1 && r[0] == '.' && is_digit(r[1]) {
        run_end(r, 1, digit_pred()) as nat
    } else {
        0
    }
}

/// Length of the number token at the front: the match of the number pattern,
/// where the text starts with an ASCII digit or a point; 0 otherwise.
pub open spec fn number_token_len(r: Seq<char>) -> nat {
    if r.len() > 0 && (is_digit(r[0]) || r[0] == '.') && number_match_len(r) <= r.len() {
        number_match_len(r)
    } else {
        0
    }
}

/// The kind and length of what the recognizers accept at the front of `r`,
/// tried in their fixed order; one character of kind `Unknown` where all
/// of them decline.
pub open spec fn step(r: Seq<char>) -> (TokenType, nat) {
    if space_len(r) > 0 {
        (TokenType::Space, space_len(r))
    } else if operator_len(r) > 0 {
        (TokenType::Operator, operator_len(r))
    } else if r.len() > 0 && r[0] == ',' {
        (TokenType::ArgSeparator, 1)
    } else if r.len() > 0 && r[0] == '(' {
        (TokenType::LeftParen, 1)
    } else if r.len() > 0 && r[0] == ')' {
        (TokenType::RightParen, 1)
    } else if string_len(r) > 0 {
        (TokenType::String, string_len(r))
    } else if r.len() > 0 && r[0] == '?' {
        (TokenType::Debugger, 1)
    } else if starts_invalid_ref(r) {
        (TokenType::InvalidReference, 4)
    } else if number_token_len(r) > 0 {
        (TokenType::Number, number_token_len(r))
    } else {
        (TokenType::Unknown, 1)
    }
}

/// `n` plain spaces.
pub open spec fn spaces(n: nat) -> Seq<char> {
    Seq::new(n, |i: int| ' ')
}

/// The text of a token of kind `k` covering the first `n` characters of `r`:
/// those characters, but for whitespace, which becomes as many plain spaces.
pub open spec fn token_text(r: Seq<char>, k: TokenType, n: nat) -> Seq<char> {
    if k == TokenType::Space {
        spaces(n)
    } else {
        r.take(n as int)
    }
}

pub proof fn lemma_step_bounds(r: Seq<char>)
    requires
        r.len() > 0,
    ensures
        1 <= step(r).1 <= r.len(),
        step(r).0 == TokenType::Space ==> forall|j: int|
            0 <= j < step(r).1 ==> white_space(#[trigger] r[j]),
        step(r).0 != TokenType::Space ==> !white_space(r[0]),
{
    lemma_run_end_bounds(r, 0, space_pred());
    lemma_string_close_bounds(r, 1);
    if white_space(r[0]) {
        lemma_run_end_bounds(r, 1, space_pred());
    }
}

/// The tokens that scanning `r` gives, in order.
pub open spec fn scan(r: Seq<char>) -> Seq<TokenView>
    decreases r.len(),
    via scan_decreases
{
    if r.len() == 0 {
        Seq::empty()
    } else {
        let (k, n) = step(r);
        seq![(k, token_text(r, k, n))] + scan(r.skip(n as int))
    }
}

#[via_fn]
proof fn scan_decreases(r: Seq<char>) {
    if r.len() > 0 {
        lemma_step_bounds(r);
    }
}

} // verus!
