use tokenizer::{encode_tokens_to_bytes, tokenize};

#[test]
fn buffer_size_is_two_per_token_plus_one_per_formula() {
    let formulas = ["1+2", "", "SUM(a, b)"];
    let lists: Vec<_> = formulas.iter().map(|f| tokenize(f)).collect();
    let counts: usize = lists.iter().map(|l| l.len()).sum();
    let n = lists.len();
    let buffer = encode_tokens_to_bytes(lists);
    assert_eq!(buffer.len(), 2 * counts + n);
}

#[test]
fn bytes_hold_kind_and_length() {
    let buffer = encode_tokens_to_bytes(vec![tokenize("12+\"é\""), tokenize("")]);
    assert_eq!(buffer, vec![2, 2, 1, 1, 3, 4, 0, 0]);
}

#[test]
fn long_text_length_wraps() {
    let formula = format!("\"{}\"", "a".repeat(300));
    let buffer = encode_tokens_to_bytes(vec![tokenize(&formula)]);
    assert_eq!(buffer, vec![3, (302 % 256) as u8, 0]);
}

#[test]
fn no_formula_no_byte() {
    assert!(encode_tokens_to_bytes(vec![]).is_empty());
}

#[test]
fn unicode_number_length_in_bytes() {
    let buffer = encode_tokens_to_bytes(vec![tokenize("1\u{663}")]);
    assert_eq!(buffer, vec![2, 3, 0]);
}
