use gamesync::ordering::compare_text;
use gamesync::text::{decimal_string, has_prefix, has_suffix, is_blank, lines, only_digits, str_eq, strip_prefix, trim};

#[test]
fn trimming_follows_unicode_white_space() {
    assert_eq!(trim("  hello \n"), "hello");
    assert_eq!(trim("\u{3000}wide\u{A0}"), "wide");
    assert_eq!(trim(""), "");
    assert!(is_blank(" \t\r\n"));
    assert!(!is_blank(" x "));
}

#[test]
fn prefixes_suffixes_and_digits() {
    assert!(has_prefix("media/cover.jpg", "media/"));
    assert!(!has_prefix("med", "media/"));
    assert_eq!(strip_prefix("https://x/y", "https://"), Some("x/y"));
    assert_eq!(strip_prefix("http://x", "https://"), None);
    assert!(has_suffix("cdn.steamstatic.com", ".steamstatic.com"));
    assert!(!has_suffix("steamstatic.com", ".steamstatic.com"));
    assert!(only_digits("0123"));
    assert!(!only_digits("12a"));
    assert!(str_eq("Rosé", "Rosé"));
    assert!(!str_eq("Rose", "Rosé"));
}

#[test]
fn numbers_print_in_decimal() {
    assert_eq!(decimal_string(0), "0");
    assert_eq!(decimal_string(1145360), "1145360");
    assert_eq!(decimal_string(u64::MAX), "18446744073709551615");
}

#[test]
fn texts_compare_by_character() {
    assert_eq!(compare_text("alpha", "beta"), -1);
    assert_eq!(compare_text("beta", "alpha"), 1);
    assert_eq!(compare_text("same", "same"), 0);
    assert_eq!(compare_text("ab", "abc"), -1);
    assert_eq!(compare_text("Zulu", "alpha"), -1);
}

#[test]
fn lines_split_like_str_lines() {
    for text in ["", "\n", "a", "a\n", "a\r\nb", "a\rb\n\n", "x\n\ny", "\r\n", "é\r\r\n"] {
        let expected: Vec<String> = text.lines().map(str::to_owned).collect();
        assert_eq!(lines(text), expected, "{text:?}");
    }
    assert_eq!(lines("rpg\r\nroguelike\n"), vec!["rpg".to_string(), "roguelike".to_string()]);
}
