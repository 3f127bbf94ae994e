use pipemic::text::{
    contains_str, ends_with_str, eq_ignore_ascii_case, is_blank, lex_le_str, to_ascii_lowercase,
    trim_end_matches_str, trim_str,
};

#[test]
fn text_helpers_match_std() {
    for s in ["", "  a b \t", "\u{3000}x\u{85}", "ÄbC", "\n\r"] {
        assert_eq!(trim_str(s), s.trim());
        assert_eq!(to_ascii_lowercase(s), s.to_ascii_lowercase());
        assert_eq!(is_blank(s), s.trim().is_empty());
    }
    assert!(ends_with_str("game.exe", ".exe"));
    assert!(!ends_with_str("exe", ".exe"));
    assert!(contains_str("cable input", "le in"));
    assert!(contains_str("abc", ""));
    assert!(!contains_str("abc", "abcd"));
    assert!(eq_ignore_ascii_case("GAME.exe", "game.EXE"));
    assert!(lex_le_str("abc", "abd"));
    assert!(lex_le_str("ab", "abc"));
    assert!(!lex_le_str("b", "a"));
    assert!(lex_le_str("Zed", "alpha"));
    assert_eq!(trim_end_matches_str("a.exe.exe", ".exe"), "a");
}
