use assessment_report::text::{
    decimal_text, eq_ignore_ascii_case, filter_text, parse_u32, parse_usize, replace_char,
    to_lowercase, trim, CharFilter,
};

#[test]
fn trim_removes_unicode_whitespace_at_both_ends() {
    assert_eq!(trim("  Anna Berg \t\n"), "Anna Berg");
    assert_eq!(trim("\u{3000}\u{00A0}x y\u{2003}"), "x y");
    assert_eq!(trim("   "), "");
    assert_eq!(trim(""), "");
    assert_eq!(trim("inner  space"), "inner  space");
}

#[test]
fn ascii_case_is_ignored_but_nothing_else() {
    assert!(eq_ignore_ascii_case("Anna Berg", "aNNA bERG"));
    assert!(!eq_ignore_ascii_case("Anna", "Anna "));
    assert!(!eq_ignore_ascii_case("Änna", "änna"));
    assert!(eq_ignore_ascii_case("Änna", "ÄNNA".replace('N', "n").as_str()));
    assert!(eq_ignore_ascii_case("", ""));
}

#[test]
fn parse_u32_follows_the_standard_library() {
    for s in ["0", "7", "+12", "0042", "4294967295", "", "+", "-1", " 3", "3 ", "4294967296", "1a", "++1"] {
        assert_eq!(parse_u32(s), s.parse::<u32>().ok(), "input {s:?}");
    }
}

#[test]
fn parse_usize_follows_the_standard_library() {
    for s in ["0", "7", "+8", "18446744073709551615", "18446744073709551616", "x", "", "4294967296"] {
        assert_eq!(parse_usize(s), s.parse::<usize>().ok(), "input {s:?}");
    }
}

#[test]
fn decimal_text_matches_to_string() {
    for n in [0u64, 5, 9, 10, 50, 99, 100, 4294967295, u64::MAX] {
        assert_eq!(decimal_text(n), n.to_string());
    }
}

#[test]
fn replace_char_matches_str_replace() {
    assert_eq!(replace_char("Team Red One", ' ', "_"), "Team_Red_One");
    assert_eq!(replace_char("Anna Maria Berg", ' ', ""), "AnnaMariaBerg");
    assert_eq!(replace_char("", ' ', "_"), "");
}

#[test]
fn filter_text_keeps_admitted_characters() {
    assert_eq!(filter_text("a1b2\n3", CharFilter::AsciiDigit), "123");
    assert_eq!(filter_text("ab\tc\u{7f}d\u{85}", CharFilter::NotControl), "abcd");
}

#[test]
fn to_lowercase_is_unicode_lowercase() {
    assert_eq!(to_lowercase("ÄNNA Berg"), "änna berg");
    assert_eq!(to_lowercase("ΟΔΟΣ"), "οδος");
}
