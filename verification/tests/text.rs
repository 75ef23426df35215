use jarvis_core::matching::normalize_phrase;
use jarvis_core::text::{contains_str, eq_ignore_ascii_case, is_blank, join_strings, replace_str, str_lt, trim_str, u64_to_decimal};

#[test]
fn string_helpers() {
    assert_eq!(trim_str("  \t привет \n"), "привет");
    assert!(is_blank(" \t\n"));
    assert!(!is_blank(" x "));
    assert_eq!(normalize_phrase("  ПрИвЕт ABC "), "привет abc");
    assert!(eq_ignore_ascii_case("NoNe", "none"));
    assert!(!eq_ignore_ascii_case("ЖЖ", "жж"));
    assert!(contains_str("открой ютуб", "ютуб"));
    assert!(!contains_str("открой", "ютуб"));
    assert_eq!(replace_str("a-b-c", "-", ""), "abc");
    assert_eq!(replace_str("abc", "", "x"), "xaxbxcx");
    assert!(str_lt("Z", "a") && str_lt("a", "ab") && !str_lt("b", "ab"));
    assert_eq!(u64_to_decimal(0), "0");
    assert_eq!(u64_to_decimal(18446744073709551615), "18446744073709551615");
    assert_eq!(join_strings(&vec!["a".to_string(), "b".to_string()], ", "), "a, b");
}
