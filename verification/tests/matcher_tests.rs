use rust_vanity::matcher::MatchType;
use rust_vanity::text::{check_prefix_match, check_suffix_match, maybe_bs58_aware_lowercase};

fn accepts(patterns: &MatchType, case_insensitive: bool, address: &str) -> bool {
    patterns.matches(&maybe_bs58_aware_lowercase(address, case_insensitive))
}

#[test]
fn prefix_match_is_case_sensitive_by_default() {
    let patterns = MatchType::new(Some("AB".to_string()), None, false);
    assert!(accepts(&patterns, false, "ABCD"));
    assert!(!accepts(&patterns, false, "abcd"));
    assert!(!accepts(&patterns, false, "BACD"));
    assert!(!accepts(&patterns, false, "A"));
    assert!(accepts(&patterns, false, "AB"));
}

#[test]
fn prefix_match_ignores_case_when_asked() {
    let patterns = MatchType::new(Some("AB".to_string()), None, true);
    assert!(accepts(&patterns, true, "abcd"));
    assert!(accepts(&patterns, true, "ABCD"));
    assert!(accepts(&patterns, true, "aBCD"));
    assert!(!accepts(&patterns, true, "bacd"));
}

#[test]
fn pattern_is_folded_once_at_construction() {
    match MatchType::new(Some("AbC".to_string()), Some("XyZ".to_string()), true) {
        MatchType::Both(prefix, suffix) => {
            assert_eq!(prefix, "abc");
            assert_eq!(suffix, "xyz");
        }
        _ => panic!("both patterns were given"),
    }
    match MatchType::new(Some("AbC".to_string()), Some("XyZ".to_string()), false) {
        MatchType::Both(prefix, suffix) => {
            assert_eq!(prefix, "AbC");
            assert_eq!(suffix, "XyZ");
        }
        _ => panic!("both patterns were given"),
    }
}

#[test]
fn new_picks_the_variant_by_what_is_given() {
    assert!(matches!(
        MatchType::new(Some("p".to_string()), None, false),
        MatchType::Prefix(p) if p == "p"
    ));
    assert!(matches!(
        MatchType::new(None, Some("s".to_string()), false),
        MatchType::Suffix(s) if s == "s"
    ));
    assert!(matches!(
        MatchType::new(Some("p".to_string()), Some("s".to_string()), false),
        MatchType::Both(p, s) if p == "p" && s == "s"
    ));
    assert!(matches!(MatchType::new(None, None, true), MatchType::Prefix(p) if p.is_empty()));
}

#[test]
fn without_patterns_everything_matches() {
    let patterns = MatchType::new(None, None, false);
    assert!(patterns.matches(""));
    assert!(patterns.matches("anything"));
}

#[test]
fn suffix_match() {
    let patterns = MatchType::new(None, Some("xyz".to_string()), false);
    assert!(patterns.matches("abcxyz"));
    assert!(patterns.matches("xyz"));
    assert!(!patterns.matches("xyzabc"));
    assert!(!patterns.matches("yz"));
    assert!(!patterns.matches("abcxyZ"));
}

#[test]
fn both_patterns_must_hold_together() {
    let patterns = MatchType::new(Some("ab".to_string()), Some("yz".to_string()), false);
    assert!(patterns.matches("abcxyz"));
    assert!(patterns.matches("abyz"));
    assert!(!patterns.matches("abcxy"));
    assert!(!patterns.matches("bcxyz"));
    let overlapping = MatchType::new(Some("aba".to_string()), Some("ba".to_string()), false);
    assert!(overlapping.matches("aba"));
    assert!(!overlapping.matches("ab"));
}

#[test]
fn both_patterns_ignore_case_when_asked() {
    let patterns = MatchType::new(Some("Ab".to_string()), Some("yZ".to_string()), true);
    assert!(accepts(&patterns, true, "ABcdYZ"));
    assert!(accepts(&patterns, true, "abcdyz"));
    assert!(!accepts(&patterns, true, "abcdy"));
    let exact = MatchType::new(Some("Ab".to_string()), Some("yZ".to_string()), false);
    assert!(accepts(&exact, false, "AbcdyZ"));
    assert!(!accepts(&exact, false, "ABcdYZ"));
}

#[test]
fn patterns_outside_ascii_are_compared_by_character() {
    let patterns = MatchType::new(Some("é".to_string()), Some("ß".to_string()), false);
    assert!(patterns.matches("éclat groß"));
    assert!(!patterns.matches("eclat groß"));
    // The last byte of "é" is also the last byte of "©", yet "é" does not end "©".
    let suffix = MatchType::new(None, Some("\u{e9}".to_string()), false);
    assert!(!suffix.matches("\u{a9}"));
    assert!(suffix.matches("caf\u{e9}"));
}

#[test]
fn lowercase_goes_by_unicode() {
    assert_eq!(maybe_bs58_aware_lowercase("ABCd", true), "abcd");
    assert_eq!(maybe_bs58_aware_lowercase("ABCd", false), "ABCd");
    assert_eq!(maybe_bs58_aware_lowercase("Grüße ÄÖ", true), "grüße äö");
    // The Kelvin sign lower-cases to the ASCII letter k.
    let patterns = MatchType::new(Some("\u{212a}".to_string()), None, true);
    assert!(accepts(&patterns, true, "Kabc"));
    assert!(accepts(&patterns, true, "kabc"));
}

#[test]
fn check_prefix_match_compares_bytes() {
    assert!(check_prefix_match("ABCD", b"AB"));
    assert!(check_prefix_match("ABCD", b""));
    assert!(check_prefix_match("ABCD", b"ABCD"));
    assert!(!check_prefix_match("ABCD", b"ABCDE"));
    assert!(!check_prefix_match("ABCD", b"AC"));
    assert!(!check_prefix_match("", b"A"));
    assert!(check_prefix_match("", b""));
}

#[test]
fn check_suffix_match_compares_bytes() {
    assert!(check_suffix_match("ABCD", b"CD"));
    assert!(check_suffix_match("ABCD", b""));
    assert!(check_suffix_match("ABCD", b"ABCD"));
    assert!(!check_suffix_match("ABCD", b"XABCD"));
    assert!(!check_suffix_match("ABCD", b"BD"));
    assert!(!check_suffix_match("", b"D"));
}
