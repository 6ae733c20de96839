use ccx::gui_string::{check_if_number, compare_prefix, compare_strings, strfind};

#[test]
fn check_if_number_accepts_legacy_patterns() {
    assert!(check_if_number("1.2"));
    assert!(check_if_number("-12"));
    assert!(check_if_number("+12"));
    assert!(check_if_number("1E-3"));
    assert!(check_if_number("1D+3"));
    assert!(!check_if_number(""));
    assert!(!check_if_number("1x2"));
}

#[test]
fn check_if_number_rejects_trailing_minus_and_leading_exponent() {
    assert!(!check_if_number("12-"));
    assert!(!check_if_number("E5"));
    assert!(check_if_number("5e"));
}

#[test]
fn compare_prefix_matches_legacy_behavior() {
    assert_eq!(compare_prefix("abcde", "abZ", 5), 2);
    assert_eq!(compare_prefix("abc", "abc", 3), 3);
    assert_eq!(compare_prefix("abc", "abc", 2), 2);
}

#[test]
fn compare_strings_returns_length_or_status() {
    assert_eq!(compare_strings("abc", "abc"), 3);
    assert_eq!(compare_strings("abc", "abx"), 0);
    assert_eq!(compare_strings("abc", "ab"), -1);
}

#[test]
fn strfind_returns_first_match_or_minus_one() {
    assert_eq!(strfind("abc abc", "abc"), 0);
    assert_eq!(strfind("abc abc", "bc"), 1);
    assert_eq!(strfind("abc abc", "zz"), -1);
    assert_eq!(strfind("abc", ""), -1);
}

#[test]
fn strfind_counts_bytes_of_multibyte_text() {
    assert_eq!(strfind("é-x", "x"), 3);
    assert_eq!(strfind("xaxb", "xb"), 2);
}
