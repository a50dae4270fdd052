use desk_exec::text::parse_usize;
use desk_exec::text::split_whitespace_words;
use desk_exec::text::str_contains;
use desk_exec::text::trim;

#[test]
fn contains_finds_inner_runs() {
    assert!(str_contains("Firefox Web Browser", "Web"));
    assert!(str_contains("abc", "abc"));
    assert!(str_contains("abc", ""));
    assert!(str_contains("", ""));
    assert!(!str_contains("", "a"));
    assert!(!str_contains("abc", "abcd"));
    assert!(!str_contains("abc", "ac"));
}

#[test]
fn trim_strips_both_ends_only() {
    assert_eq!(trim("  a b \t\n"), "a b");
    assert_eq!(trim("a"), "a");
    assert_eq!(trim("   "), "");
    assert_eq!(trim(""), "");
}

#[test]
fn parse_usize_reads_plain_decimals() {
    assert_eq!(parse_usize("0"), Some(0));
    assert_eq!(parse_usize("42"), Some(42));
    assert_eq!(parse_usize("+7"), Some(7));
    assert_eq!(parse_usize(""), None);
    assert_eq!(parse_usize("+"), None);
    assert_eq!(parse_usize("4 2"), None);
    assert_eq!(parse_usize("-1"), None);
    assert_eq!(parse_usize("0x10"), None);
    assert_eq!(parse_usize("99999999999999999999999999"), None);
    assert_eq!(parse_usize(&usize::MAX.to_string()), Some(usize::MAX));
}

#[test]
fn split_drops_all_separating_whitespace() {
    assert_eq!(
        split_whitespace_words("  ls  -la\t/tmp \n"),
        vec!["ls".to_string(), "-la".to_string(), "/tmp".to_string()]
    );
    assert_eq!(split_whitespace_words(""), Vec::<String>::new());
    assert_eq!(split_whitespace_words(" \t "), Vec::<String>::new());
    assert_eq!(split_whitespace_words("one"), vec!["one".to_string()]);
}
