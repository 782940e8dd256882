use gomoku::coeff_file::{coeffs_from_text, parse_numbers};
use gomoku::heuristics::coeffistic::N_COEFFS;

#[test]
fn numbers_of_a_coefficient_file() {
    let text = b"// trained coefficients\nBox::new([\n    12, -3, // twelve, minus three\n    1_000i64, 0,\n])\n";
    assert_eq!(parse_numbers(text), Some(vec![12, -3, 1000, 0]));
}

#[test]
fn words_and_comments_hold_no_numbers() {
    assert_eq!(parse_numbers(b"coeffs_002ms x1 // 5 6\n7"), Some(vec![7]));
    assert_eq!(parse_numbers(b"- 4 -5 /3"), Some(vec![4, -5, 3]));
    assert_eq!(parse_numbers(b""), Some(vec![]));
}

#[test]
fn numbers_out_of_range() {
    assert_eq!(parse_numbers(b"-9223372036854775808"), Some(vec![i64::MIN]));
    assert_eq!(parse_numbers(b"9223372036854775807"), Some(vec![i64::MAX]));
    assert_eq!(parse_numbers(b"9223372036854775808"), None);
    assert_eq!(parse_numbers(b"1, -99999999999999999999999, 2"), None);
}

#[test]
fn coefficients_from_text() {
    let text: String = (0..N_COEFFS).map(|i| format!("{},\n", i % 7)).collect();
    let coeffs = coeffs_from_text(text.as_bytes()).unwrap();
    assert_eq!(coeffs.len(), N_COEFFS);
    assert_eq!(coeffs[8], 1);
    assert_eq!(coeffs_from_text(b"1, 2, 3"), None);
}
