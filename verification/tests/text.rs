use smart_speaker::text::{str_eq, str_or_empty, trim_str};

#[test]
fn trimming_matches_std() {
    for s in ["", "  a b  ", "\u{3000}全角\u{3000}", "\t\n x\r\n", "\u{85}y\u{a0}", "   "] {
        assert_eq!(trim_str(s), s.trim());
    }
}

#[test]
fn string_equality() {
    assert!(str_eq("abc", "abc"));
    assert!(!str_eq("abc", "abd"));
    assert!(!str_eq("ab", "abc"));
}

#[test]
fn missing_text_reads_as_empty() {
    assert_eq!(str_or_empty(&Some("題".to_string())), "題");
    assert_eq!(str_or_empty(&None), "");
}
