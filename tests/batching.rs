use tokenizer::{chunk_ranges, join_chunks, tokenize, tokenize_range, NumberPattern, Token, DEFAULT_WORKERS};

fn texts(tokens: &[Token]) -> Vec<(u8, String)> {
    tokens.iter().map(|t| (t.token_type.code(), t.value.clone())).collect()
}

#[test]
fn ranges_with_remainder() {
    assert_eq!(
        chunk_ranges(23, DEFAULT_WORKERS),
        vec![(0, 2), (2, 4), (4, 6), (6, 8), (8, 10), (10, 12), (12, 14), (14, 16), (16, 18), (18, 23)]
    );
}

#[test]
fn fewer_formulas_than_workers() {
    assert_eq!(chunk_ranges(3, 10), vec![(0, 1), (1, 2), (2, 3)]);
    assert!(chunk_ranges(0, 10).is_empty());
}

#[test]
fn chunked_scan_keeps_order() {
    let formulas: Vec<String> = (0..23).map(|i| format!("{} + \"s{}\" * (x{})", i, i, i)).collect();
    let pattern = NumberPattern::new();
    let parts: Vec<_> = chunk_ranges(formulas.len(), DEFAULT_WORKERS)
        .into_iter()
        .map(|(s, e)| tokenize_range(&pattern, &formulas, s, e))
        .collect();
    let joined = join_chunks(parts);
    assert_eq!(joined.len(), formulas.len());
    for (i, f) in formulas.iter().enumerate() {
        assert_eq!(texts(&joined[i]), texts(&tokenize(f)));
    }
}
