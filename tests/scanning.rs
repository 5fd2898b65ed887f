use tokenizer::cursor::TokenizingChars;
use tokenizer::number::NumberPattern;
use tokenizer::scanner::{tokenize_number, tokenize_operator, tokenize_string};
use tokenizer::{tokenize, Token, TokenType};

fn kinds_and_texts(tokens: &[Token]) -> Vec<(TokenType, String)> {
    tokens.iter().map(|t| (t.token_type, t.value.clone())).collect()
}

fn one(kind: TokenType, text: &str) -> Vec<(TokenType, String)> {
    vec![(kind, text.to_string())]
}

#[test]
fn empty_formula_gives_no_token() {
    assert!(tokenize("").is_empty());
}

#[test]
fn non_empty_formula_gives_tokens() {
    assert!(!tokenize("x").is_empty());
    assert!(!tokenize(" ").is_empty());
}

#[test]
fn texts_cover_the_formula() {
    let formula = "SUM(A1, 2.5e3) <> \"x\\\"y\" ? #REF! 'q' @";
    let joined: String = tokenize(formula).iter().map(|t| t.value.as_str()).collect();
    assert_eq!(joined, formula);
}

#[test]
fn not_equal_is_one_operator() {
    assert_eq!(kinds_and_texts(&tokenize("<>")), one(TokenType::Operator, "<>"));
}

#[test]
fn two_character_operators_are_kept_whole() {
    assert_eq!(kinds_and_texts(&tokenize(">=")), one(TokenType::Operator, ">="));
    assert_eq!(kinds_and_texts(&tokenize("<=")), one(TokenType::Operator, "<="));
    assert_eq!(
        kinds_and_texts(&tokenize("<a")),
        vec![(TokenType::Operator, "<".to_string()), (TokenType::Unknown, "a".to_string())]
    );
    assert_eq!(
        kinds_and_texts(&tokenize("=>")),
        vec![(TokenType::Operator, "=".to_string()), (TokenType::Operator, ">".to_string())]
    );
}

#[test]
fn tabs_become_plain_spaces() {
    assert_eq!(kinds_and_texts(&tokenize("\t\t")), one(TokenType::Space, "  "));
}

#[test]
fn unicode_whitespace_counts_codepoints() {
    assert_eq!(kinds_and_texts(&tokenize("\u{3000}\n ")), one(TokenType::Space, "   "));
}

#[test]
fn trailing_spaces_are_kept() {
    assert_eq!(
        kinds_and_texts(&tokenize("1  ")),
        vec![(TokenType::Number, "1".to_string()), (TokenType::Space, "  ".to_string())]
    );
}

#[test]
fn leading_minus_is_an_operator() {
    assert_eq!(
        kinds_and_texts(&tokenize("-1.5e3")),
        vec![(TokenType::Operator, "-".to_string()), (TokenType::Number, "1.5e3".to_string())]
    );
}

#[test]
fn exponent_number() {
    assert_eq!(kinds_and_texts(&tokenize("1.5e3")), one(TokenType::Number, "1.5e3"));
}

#[test]
fn leading_point_number() {
    assert_eq!(kinds_and_texts(&tokenize(".5")), one(TokenType::Number, ".5"));
}

#[test]
fn number_edge_forms() {
    assert_eq!(kinds_and_texts(&tokenize("12.")), one(TokenType::Number, "12."));
    assert_eq!(kinds_and_texts(&tokenize("1.e5")), one(TokenType::Number, "1.e5"));
    assert_eq!(
        kinds_and_texts(&tokenize("1e")),
        vec![(TokenType::Number, "1".to_string()), (TokenType::Unknown, "e".to_string())]
    );
    assert_eq!(
        kinds_and_texts(&tokenize("3abc"))[0],
        (TokenType::Number, "3".to_string())
    );
    assert_eq!(kinds_and_texts(&tokenize(".")), one(TokenType::Unknown, "."));
}

#[test]
fn quoted_string_keeps_its_quotes() {
    assert_eq!(kinds_and_texts(&tokenize("\"ab\"")), one(TokenType::String, "\"ab\""));
}

#[test]
fn unterminated_string_falls_back() {
    assert_eq!(
        kinds_and_texts(&tokenize("\"ab")),
        vec![
            (TokenType::Unknown, "\"".to_string()),
            (TokenType::Unknown, "a".to_string()),
            (TokenType::Unknown, "b".to_string()),
        ]
    );
}

#[test]
fn string_escapes() {
    assert_eq!(kinds_and_texts(&tokenize("\"a\\\"b\"")), one(TokenType::String, "\"a\\\"b\""));
    assert_eq!(kinds_and_texts(&tokenize("\"a\\\\\"")), one(TokenType::String, "\"a\\\\\""));
    assert_eq!(kinds_and_texts(&tokenize("\"é\"")), one(TokenType::String, "\"é\""));
    let trailing = kinds_and_texts(&tokenize("\"\\\""));
    assert_eq!(trailing[0], (TokenType::Unknown, "\"".to_string()));
}

#[test]
fn empty_string_is_not_a_string() {
    assert_eq!(
        kinds_and_texts(&tokenize("\"\"")),
        vec![(TokenType::Unknown, "\"".to_string()), (TokenType::Unknown, "\"".to_string())]
    );
}

#[test]
fn invalid_reference_marker() {
    assert_eq!(kinds_and_texts(&tokenize("#REF")), one(TokenType::InvalidReference, "#REF"));
    assert_eq!(
        kinds_and_texts(&tokenize("#REF!")),
        vec![(TokenType::InvalidReference, "#REF".to_string()), (TokenType::Unknown, "!".to_string())]
    );
}

#[test]
fn unrecognized_character_is_one_unknown() {
    assert_eq!(kinds_and_texts(&tokenize("@")), one(TokenType::Unknown, "@"));
    assert_eq!(kinds_and_texts(&tokenize("é")), one(TokenType::Unknown, "é"));
    assert_eq!(kinds_and_texts(&tokenize("'")), one(TokenType::Unknown, "'"));
}

#[test]
fn punctuation_kinds() {
    assert_eq!(
        kinds_and_texts(&tokenize("(,)?")),
        vec![
            (TokenType::LeftParen, "(".to_string()),
            (TokenType::ArgSeparator, ",".to_string()),
            (TokenType::RightParen, ")".to_string()),
            (TokenType::Debugger, "?".to_string()),
        ]
    );
}

#[test]
fn wire_codes() {
    assert_eq!(TokenType::Operator.code(), 1);
    assert_eq!(TokenType::Space.code(), 5);
    assert_eq!(TokenType::Reference.code(), 10);
    assert_eq!(TokenType::Unknown.code(), 12);
}

#[test]
fn cursor_moves_by_codepoints() {
    let mut chars = TokenizingChars::new("é+x");
    assert_eq!(chars.current(), Some('é'));
    assert_eq!(chars.shift(), Some('é'));
    assert!(chars.current_starts_with("+x"));
    assert_eq!(chars.remaining(), "+x");
    chars.advance_by(1);
    assert_eq!(chars.remaining(), "x");
    assert!(!chars.is_over());
    chars.advance_by(1);
    assert!(chars.is_over());
    assert_eq!(chars.shift(), None);
}

#[test]
fn recognizers_decline_without_moving() {
    let pattern = NumberPattern::new();
    let mut chars = TokenizingChars::new("abc");
    assert!(tokenize_operator(&mut chars).is_none());
    assert!(tokenize_string(&mut chars).is_none());
    assert!(tokenize_number(&mut chars, &pattern).is_none());
    assert_eq!(chars.remaining(), "abc");
}

#[test]
fn advance_counts_bytes() {
    let mut chars = TokenizingChars::new("\u{e9}1");
    chars.advance_by(2);
    assert_eq!(chars.remaining(), "1");
    assert_eq!(chars.current(), Some('1'));
}

#[test]
fn unicode_digits_continue_a_number() {
    assert_eq!(kinds_and_texts(&tokenize("1\u{663}")), one(TokenType::Number, "1\u{663}"));
    assert_eq!(kinds_and_texts(&tokenize(".\u{663}")), one(TokenType::Number, ".\u{663}"));
    assert_eq!(kinds_and_texts(&tokenize("2e\u{663}")), one(TokenType::Number, "2e\u{663}"));
}

#[test]
fn unicode_digit_does_not_start_a_number() {
    assert_eq!(kinds_and_texts(&tokenize("\u{663}")), one(TokenType::Unknown, "\u{663}"));
}

#[test]
fn whitespace_inside_a_string_is_kept() {
    assert_eq!(kinds_and_texts(&tokenize("\"a\tb\"")), one(TokenType::String, "\"a\tb\""));
    let joined: String = tokenize("1\t+ \"x\ty\"").iter().map(|t| t.value.as_str()).collect();
    assert_eq!(joined, "1 + \"x\ty\"");
}
