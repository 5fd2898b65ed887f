//! The numeric pattern, matched with the `regex` crate.
use vstd::prelude::*;
use regex::Regex;
use vstd::utf8::encode_utf8;
use crate::grammar::{is_digit, number_len};

verus! {

/// regex::Regex, held as an opaque compiled pattern.
#[verifier::external_type_specification]
#[verifier::external_body]
pub struct ExRegex(Regex);

/// The number grammar, as a regular expression anchored at the start of the
/// text. `\d` is a Unicode decimal digit (`\p{Nd}`).
pub const NUMBER_PATTERN: &'static str = "(?:^-?\\d+(?:\\.?\\d*(?:e\\d+)?)?|^-?\\.\\d+)";

/// The length in characters of the leftmost-first match of `NUMBER_PATTERN`
/// in `s`, 0 where there is none.
pub uninterp spec fn number_match_len(s: Seq<char>) -> nat;

/// Whether every character of `s` is ASCII.
pub open spec fn all_ascii(s: Seq<char>) -> bool {
    forall|i: int| 0 <= i < s.len() ==> (s[i] as u32) < 128
}

/// The compiled number pattern. Its field is private and `new` is its only
/// constructor, so every value holds `NUMBER_PATTERN` compiled.
pub struct NumberPattern {
    re: Regex,
}

/// Relies on regex::Regex::new: `NUMBER_PATTERN` is a valid pattern, well
/// under the size limits, so compiling it succeeds.
#[verifier::external_body]
fn compile_number_pattern(source: &str) -> (r: Regex)
    requires
        source@ == NUMBER_PATTERN@,
{
    Regex::new(source).unwrap()
}

impl NumberPattern {
    /// Compiles `NUMBER_PATTERN`.
    pub fn new() -> (r: Self) {
        NumberPattern { re: compile_number_pattern(NUMBER_PATTERN) }
    }

    /// Relies on regex::Regex::find and regex::Match::end: the leftmost-first
    /// match of `NUMBER_PATTERN`, whose anchors fix its start at 0, reported by
    /// its end in bytes. Both branches of the pattern need at least one
    /// character, and the first matches wherever the text starts with a digit.
    /// On ASCII text `\d` is `[0-9]`, and greedy repetition with every part
    /// after the first digits optional gives the match `number_len` describes.
    #[verifier::external_body]
    pub(crate) fn match_end(&self, hay: &str) -> (r: Option<usize>)
        requires
            hay@.len() > 0,
            is_digit(hay@[0]) || hay@[0] == '.',
        ensures
            r is Some ==> 0 < number_match_len(hay@) <= hay@.len() && r->0 == encode_utf8(
                hay@.take(number_match_len(hay@) as int),
            ).len(),
            r is None ==> number_match_len(hay@) == 0,
            is_digit(hay@[0]) ==> r is Some,
            all_ascii(hay@) ==> (r is Some <==> number_len(hay@) > 0),
            all_ascii(hay@) && r is Some ==> number_match_len(hay@) == number_len(hay@),
    {
        match self.re.find(hay) {
            Some(m) => Some(m.end()),
            None => None,
        }
    }
}

} // verus!
