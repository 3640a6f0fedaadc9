use agent_browser::strutil::i32_to_string;
use agent_browser::strutil::join_spaces;
use agent_browser::strutil::parse_i32;
use agent_browser::strutil::parse_u64;
use agent_browser::strutil::str_eq;
use agent_browser::strutil::str_starts_with;
use agent_browser::strutil::trim;
use agent_browser::strutil::u64_to_string;

#[test]
fn parse_u64_accepts_what_std_accepts() {
    assert_eq!(parse_u64("500"), Some(500));
    assert_eq!(parse_u64("+500"), Some(500));
    assert_eq!(parse_u64("007"), Some(7));
    assert_eq!(parse_u64("0"), Some(0));
    assert_eq!(parse_u64("18446744073709551615"), Some(u64::MAX));
    assert_eq!(parse_u64("18446744073709551616"), None);
    assert_eq!(parse_u64(""), None);
    assert_eq!(parse_u64("+"), None);
    assert_eq!(parse_u64("-1"), None);
    assert_eq!(parse_u64("12a"), None);
    assert_eq!(parse_u64(" 5"), None);
}

#[test]
fn parse_i32_handles_signs_and_bounds() {
    assert_eq!(parse_i32("3"), Some(3));
    assert_eq!(parse_i32("-3"), Some(-3));
    assert_eq!(parse_i32("+3"), Some(3));
    assert_eq!(parse_i32("2147483647"), Some(i32::MAX));
    assert_eq!(parse_i32("2147483648"), None);
    assert_eq!(parse_i32("-2147483648"), Some(i32::MIN));
    assert_eq!(parse_i32("-2147483649"), None);
    assert_eq!(parse_i32("-"), None);
    assert_eq!(parse_i32(""), None);
}

#[test]
fn decimal_renderings() {
    assert_eq!(u64_to_string(0), "0");
    assert_eq!(u64_to_string(907), "907");
    assert_eq!(u64_to_string(u64::MAX), "18446744073709551615");
    assert_eq!(i32_to_string(-45), "-45");
    assert_eq!(i32_to_string(45), "45");
    assert_eq!(i32_to_string(i32::MIN), "-2147483648");
}

#[test]
fn join_from_index() {
    let parts: Vec<String> = ["fill", "sel", "a", "b"].iter().map(|s| s.to_string()).collect();
    assert_eq!(join_spaces(&parts, 2), "a b");
    assert_eq!(join_spaces(&parts, 3), "b");
    assert_eq!(join_spaces(&parts, 4), "");
}

#[test]
fn trim_strips_ascii_whitespace() {
    assert_eq!(trim(" 42\n"), "42");
    assert_eq!(trim("\t\r\n "), "");
    assert_eq!(trim("x"), "x");
    assert_eq!(trim("a b"), "a b");
}

#[test]
fn string_helpers() {
    assert!(str_eq("abc", "abc"));
    assert!(!str_eq("abc", "abd"));
    assert!(!str_eq("abc", "ab"));
    assert!(str_starts_with("https://x", "http"));
    assert!(!str_starts_with("ftp://x", "http"));
    assert!(!str_starts_with("ht", "http"));
}
