use desk_exec::config::filter_by_flags;
use desk_exec::Config;

#[test]
fn filter_keeps_exactly_the_flagged_non_empty_dirs() {
    let dirs = vec![
        "/a".to_string(),
        "".to_string(),
        "/b".to_string(),
        "/c".to_string(),
    ];
    let ok = vec![true, true, false, true];
    assert_eq!(
        filter_by_flags(&dirs, &ok),
        vec!["/a".to_string(), "/c".to_string()]
    );
    assert_eq!(
        filter_by_flags(&dirs, &vec![true, true, true, true]),
        vec!["/a".to_string(), "/b".to_string(), "/c".to_string()]
    );
    assert_eq!(
        filter_by_flags(&dirs, &vec![false, false, false, false]),
        Vec::<String>::new()
    );
}

#[test]
fn default_config_searches_xdg_dirs_only() {
    let c = Config::default();
    assert!(c.search.xdg_default_dirs);
    assert!(c.search.dirs.is_empty());
}

#[test]
fn populate_dirs_appends_defaults() {
    let mut c = Config::default();
    c.search.dirs.push("/custom".to_string());
    let defaults = vec!["/usr/share/applications".to_string(), "/tmp".to_string()];
    assert_eq!(c.populate_dirs(Some(&defaults)), Some(()));
    assert_eq!(
        c.search.dirs,
        vec![
            "/custom".to_string(),
            "/usr/share/applications".to_string(),
            "/tmp".to_string()
        ]
    );
}

#[test]
fn populate_dirs_respects_opt_out() {
    let mut c = Config::default();
    c.search.xdg_default_dirs = false;
    let defaults = vec!["/usr/share/applications".to_string()];
    assert_eq!(c.populate_dirs(Some(&defaults)), None);
    assert!(c.search.dirs.is_empty());
}

#[test]
fn populate_dirs_without_defaults_changes_nothing() {
    let mut c = Config::default();
    assert_eq!(c.populate_dirs(None), None);
    assert!(c.search.dirs.is_empty());
}

#[test]
fn get_dirs_keeps_existing_non_empty_paths() {
    let mut c = Config::default();
    c.search.dirs.push("".to_string());
    c.search.dirs.push("/definitely-not-present-anywhere-zzz".to_string());
    c.search.dirs.push("/".to_string());
    let kept = c.get_dirs().unwrap();
    assert_eq!(kept, vec!["/".to_string()]);
    // get_dirs does not mutate
    assert_eq!(c.search.dirs.len(), 3);
}

#[test]
fn get_dirs_with_nothing_usable_is_none() {
    let mut c = Config::default();
    assert!(c.get_dirs().is_none());
    c.search.dirs.push("".to_string());
    c.search.dirs.push("/definitely-not-present-anywhere-zzz".to_string());
    assert!(c.get_dirs().is_none());
}

#[test]
fn clean_dirs_drops_empty_and_missing_paths() {
    let mut c = Config::default();
    c.search.xdg_default_dirs = false;
    c.search.dirs.push("".to_string());
    c.search.dirs.push("/".to_string());
    c.search.dirs.push("/definitely-not-present-anywhere-zzz".to_string());
    c.clean_dirs();
    assert_eq!(c.search.dirs, vec!["/".to_string()]);
    assert!(!c.search.xdg_default_dirs);
}
