use desk_exec::search_for_entries;

#[test]
fn scanning_missing_directories_finds_nothing() {
    // a directory that cannot be read is skipped, not fatal, and a scan that
    // yields no entry returns none rather than an empty list
    let dirs = vec!["/definitely-not-present-anywhere-zzz".to_string()];
    let locales = vec!["en_us".to_string()];
    assert!(search_for_entries("anything", &dirs, &locales, false).is_none());
    assert!(search_for_entries("", &dirs, &locales, true).is_none());
}
