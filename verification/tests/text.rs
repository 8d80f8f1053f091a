use rllm::float_bits::{is_below, is_finite, is_nan, is_same, total};
use rllm::text::{
    count_text, decimal, find, is_text_before, join3, nonempty_trimmed, parse_count,
    same_ignoring_case, shape_text, text_contains, text_ends, text_starts, to_lower, trim_text,
};

#[test]
fn decimals_have_no_leading_zeros() {
    assert_eq!(decimal(0), "0");
    assert_eq!(decimal(9), "9");
    assert_eq!(decimal(10), "10");
    assert_eq!(decimal(u64::MAX), "18446744073709551615");
    assert_eq!(count_text(1024), "1024");
}

#[test]
fn shapes_are_listed() {
    assert_eq!(shape_text(&[]), "[]");
    assert_eq!(shape_text(&[4]), "[4]");
    assert_eq!(shape_text(&[2, 3, 40]), "[2, 3, 40]");
}

#[test]
fn counts_are_read_as_numbers() {
    assert_eq!(parse_count("42"), Some(42));
    assert_eq!(parse_count("+7"), Some(7));
    assert_eq!(parse_count("007"), Some(7));
    assert_eq!(parse_count(&usize::MAX.to_string()), Some(usize::MAX));
    for refused in ["", "+", "-1", "1 ", "1.0", "x", "99999999999999999999999"] {
        assert_eq!(parse_count(refused), None);
        assert!(refused.parse::<usize>().is_err());
    }
}

#[test]
fn trimming_takes_white_space_off_both_ends() {
    assert_eq!(trim_text(" \t a b \n"), "a b");
    assert_eq!(trim_text("\u{a0}x\u{3000}"), "x");
    assert_eq!(trim_text(" \r\n"), "");
    assert_eq!(nonempty_trimmed("  "), None);
    assert_eq!(nonempty_trimmed(" t "), Some("t".to_string()));
}

#[test]
fn patterns_are_found() {
    assert!(text_starts("Bearer x", "Bearer "));
    assert!(!text_starts("Bear", "Bearer "));
    assert!(text_ends("a.weight", ".weight"));
    assert!(!text_ends("weight", ".weight"));
    assert!(text_contains("error 401 here", "401"));
    assert!(!text_contains("error 4 01", "401"));
    let chars: Vec<char> = "abcabc".chars().collect();
    assert_eq!(find(&chars, &vec!['c'], 0), Some(2));
    assert_eq!(find(&chars, &vec!['c'], 3), Some(5));
    assert_eq!(find(&chars, &vec!['d'], 0), None);
}

#[test]
fn case_matters_only_where_it_says_so() {
    assert_eq!(to_lower("FP8_E4M3"), "fp8_e4m3");
    assert!(same_ignoring_case("GPTQ", "gptq"));
    assert!(!same_ignoring_case("gptq", "awq"));
    assert_eq!(join3("a", "", "c"), "ac");
}

#[test]
fn texts_are_ordered_by_their_characters() {
    let sorted = ["", "a", "aa", "ab", "b", "\u{e9}", "\u{1f600}"];
    for (i, a) in sorted.iter().enumerate() {
        for (j, b) in sorted.iter().enumerate() {
            assert_eq!(is_text_before(a, b), i < j);
        }
    }
}

#[test]
fn bits_compare_as_numbers() {
    let values = [f32::NEG_INFINITY, -1.5, -0.0, 0.0, 1e-40, 1.0, f32::MAX, f32::INFINITY, f32::NAN];
    for a in values {
        for b in values {
            assert_eq!(is_below(a.to_bits(), b.to_bits()), a < b);
            assert_eq!(is_same(a.to_bits(), b.to_bits()), a == b);
            assert_eq!(total(a.to_bits()) < total(b.to_bits()), a.total_cmp(&b).is_lt());
        }
        assert_eq!(is_nan(a.to_bits()), a.is_nan());
        assert_eq!(is_finite(a.to_bits()), a.is_finite());
    }
}
