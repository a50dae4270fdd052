use desk_exec::search::match_entry_name;
use desk_exec::search::search_scanned;
use desk_exec::search::Candidate;
use desk_exec::Entry;

fn entry(path: &str, app_id: &str, name: Option<&str>, no_display: bool) -> Entry {
    Entry {
        path: path.to_string(),
        app_id: app_id.to_string(),
        name: name.map(|n| n.to_string()),
        generic_name: None,
        exec_template: Some("true".to_string()),
        no_display,
    }
}

fn plain(e: Entry) -> Candidate {
    Candidate { entry: e, canonical: None }
}

#[test]
fn match_is_case_insensitive_substring() {
    let e = entry("/apps/firefox.desktop", "firefox", Some("Firefox Web Browser"), false);
    assert!(match_entry_name("FIRE", &e));
    assert!(match_entry_name("web brow", &e));
    assert!(!match_entry_name("chromium", &e));
}

#[test]
fn match_reads_app_id_and_generic_name() {
    let mut e = entry("/apps/org.gnome.Calculator.desktop", "org.gnome.Calculator", None, false);
    assert!(match_entry_name("calculator", &e));
    e.generic_name = Some("Rechner".to_string());
    assert!(match_entry_name("rechner", &e));
}

#[test]
fn absent_name_fields_never_match() {
    let e = entry("/apps/x.desktop", "x", None, false);
    assert!(!match_entry_name("anything", &e));
}

#[test]
fn empty_query_matches_every_entry() {
    let e = entry("/apps/x.desktop", "x", Some("X"), false);
    assert!(match_entry_name("", &e));
}

#[test]
fn search_collects_matches_in_scan_order() {
    let cands = vec![
        plain(entry("/a/editor.desktop", "editor", Some("Editor"), false)),
        plain(entry("/a/other.desktop", "other", Some("Other"), false)),
        plain(entry("/b/editor2.desktop", "editor2", Some("Second Editor"), false)),
    ];
    let found = search_scanned("editor", &None, &cands, false).unwrap();
    assert_eq!(found.len(), 2);
    assert_eq!(found[0].path, "/a/editor.desktop");
    assert_eq!(found[1].path, "/b/editor2.desktop");
}

#[test]
fn search_no_match_returns_none() {
    let cands = vec![
        plain(entry("/a/editor.desktop", "editor", Some("Editor"), false)),
        plain(entry("/a/hidden.desktop", "hidden-match", Some("match"), true)),
    ];
    assert!(search_scanned("nothing-here", &None, &cands, false).is_none());
    // the only matching entry is suppressed by no_display: none, not empty
    assert!(search_scanned("match", &None, &cands, true).is_none());
}

#[test]
fn search_first_only_stops_at_first_match() {
    let cands = vec![
        plain(entry("/a/other.desktop", "other", Some("Other"), false)),
        plain(entry("/a/editor.desktop", "editor", Some("Editor"), false)),
        plain(entry("/b/editor2.desktop", "editor2", Some("Second Editor"), false)),
    ];
    let found = search_scanned("editor", &None, &cands, true).unwrap();
    assert_eq!(found.len(), 1);
    assert_eq!(found[0].path, "/a/editor.desktop");
}

#[test]
fn search_skips_no_display_entries() {
    let cands = vec![
        plain(entry("/a/editor.desktop", "editor", Some("Editor"), true)),
        plain(entry("/b/editor2.desktop", "editor2", Some("Editor Two"), false)),
    ];
    let found = search_scanned("editor", &None, &cands, false).unwrap();
    assert_eq!(found.len(), 1);
    assert_eq!(found[0].path, "/b/editor2.desktop");
}

#[test]
fn exact_path_wins_and_discards_other_matches() {
    // the exact-path candidate is suppressed and does not match by name,
    // yet it alone is returned, and earlier matches are dropped
    let mut target = entry("/b/target.desktop", "target", None, true);
    target.exec_template = Some("true".to_string());
    let cands = vec![
        plain(entry("/a/editor.desktop", "editor", Some("Editor"), false)),
        Candidate { entry: target, canonical: Some("/b/target.desktop".to_string()) },
        plain(entry("/c/editor2.desktop", "editor2", Some("Editor"), false)),
    ];
    let query_canonical = Some("/b/target.desktop".to_string());
    let found = search_scanned("editor", &query_canonical, &cands, false).unwrap();
    assert_eq!(found.len(), 1);
    assert_eq!(found[0].path, "/b/target.desktop");
}

#[test]
fn first_only_can_return_before_reaching_an_exact_path() {
    // with first_only set the scan stops at the first qualifying entry, so an
    // exact path hit later in scan order is never reached
    let cands = vec![
        plain(entry("/a/editor.desktop", "editor", Some("Editor"), false)),
        Candidate {
            entry: entry("/b/editor2.desktop", "editor2", Some("Editor Two"), false),
            canonical: Some("/b/editor2.desktop".to_string()),
        },
    ];
    let query_canonical = Some("/b/editor2.desktop".to_string());
    let found = search_scanned("editor", &query_canonical, &cands, true).unwrap();
    assert_eq!(found.len(), 1);
    assert_eq!(found[0].path, "/a/editor.desktop");
}

#[test]
fn unresolved_query_path_never_hits_exactly() {
    let cands = vec![
        Candidate {
            entry: entry("/a/editor.desktop", "editor", Some("Editor"), false),
            canonical: Some("/a/editor.desktop".to_string()),
        },
    ];
    // no canonical query: only the substring path can match
    let found = search_scanned("editor", &None, &cands, false).unwrap();
    assert_eq!(found.len(), 1);
    assert!(search_scanned("/a/editor.desktop", &None, &cands, false).is_none());
}
