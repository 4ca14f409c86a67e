use battleplan::text::{
    contains_str, format_u32, lines, parse_u32, replace_all, split_char, starts_with, str_eq,
    str_lt, strip_both, trim, Strip,
};

#[test]
fn str_eq_compares_characters() {
    assert!(str_eq("abc", "abc"));
    assert!(!str_eq("abc", "abd"));
    assert!(!str_eq("abc", "ab"));
    assert!(str_eq("", ""));
}

#[test]
fn starts_with_and_contains() {
    assert!(starts_with("https://github.com/a", "https://github.com"));
    assert!(!starts_with("http://github.com", "https://"));
    assert!(contains_str("https://github.com/a/b/issues/3", "/issues/"));
    assert!(!contains_str("https://github.com/a/b/pull/3", "/issues/"));
    assert!(contains_str("abc", ""));
}

#[test]
fn trim_removes_unicode_white_space() {
    assert_eq!(trim("  x y \n"), "x y");
    assert_eq!(trim("\u{3000}a\u{00A0}"), "a");
    assert_eq!(trim("   "), "");
    assert_eq!(trim(""), "");
}

#[test]
fn strip_both_removes_marker_characters() {
    assert_eq!(strip_both("<<url>>", Strip::Char('<'), Strip::Char('>')), "url");
    assert_eq!(strip_both("<url", Strip::Char('<'), Strip::Char('>')), "url");
    assert_eq!(strip_both("url", Strip::Char('<'), Strip::Char('>')), "url");
}

#[test]
fn split_char_keeps_empty_pieces() {
    assert_eq!(split_char("a,b,,c", ','), vec!["a", "b", "", "c"]);
    assert_eq!(split_char("", ','), vec![""]);
    assert_eq!(split_char(",", ','), vec!["", ""]);
    assert_eq!(split_char("abc", ','), vec!["abc"]);
}

#[test]
fn lines_follow_str_lines() {
    let texts = ["a\r\nb\n\nc\n", "", "x\r", "\n", "one", "a\n\n"];
    for t in texts.iter() {
        let expected: Vec<String> = t.lines().map(|l| l.to_string()).collect();
        assert_eq!(lines(t), expected);
    }
    assert_eq!(lines("a\r\nb\n\nc\n"), vec!["a", "b", "", "c"]);
}

#[test]
fn parse_u32_follows_str_parse() {
    assert_eq!(parse_u32("42"), Some(42));
    assert_eq!(parse_u32("+7"), Some(7));
    assert_eq!(parse_u32("007"), Some(7));
    assert_eq!(parse_u32(""), None);
    assert_eq!(parse_u32("+"), None);
    assert_eq!(parse_u32("-1"), None);
    assert_eq!(parse_u32("12a"), None);
    assert_eq!(parse_u32("4294967295"), Some(u32::MAX));
    assert_eq!(parse_u32("4294967296"), None);
    assert_eq!(parse_u32("99999999999a"), None);
    assert_eq!(parse_u32("\u{0663}"), None);
    for t in ["1", "+0", "0000000000000000001", "12x", " 1", "4294967295"].iter() {
        assert_eq!(parse_u32(t), t.parse::<u32>().ok());
    }
}

#[test]
fn format_u32_writes_decimal() {
    assert_eq!(format_u32(0), "0");
    assert_eq!(format_u32(100), "100");
    assert_eq!(format_u32(u32::MAX), "4294967295");
    assert_eq!(parse_u32(&format_u32(123456)), Some(123456));
}

#[test]
fn replace_all_is_left_to_right() {
    assert_eq!(replace_all("a ... b ... ", " ... ", " .. "), "a .. b .. ");
    assert_eq!(replace_all("a .... b", " ... ", " .. "), "a .... b");
    assert_eq!(replace_all("aaa", "aa", "b"), "ba");
    assert_eq!(replace_all("", "x", "y"), "");
}

#[test]
fn str_lt_orders_like_str() {
    assert!(str_lt("direction", "per_page"));
    assert!(str_lt("since", "state"));
    assert!(str_lt("ab", "abc"));
    assert!(!str_lt("abc", "abc"));
    assert!(!str_lt("b", "abc"));
}
