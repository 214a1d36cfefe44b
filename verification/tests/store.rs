use den::bar::BarConfig;
use den::session::{path_set_text, sort_texts, parse_legacy_kv, resolve_session, SessionChoice, SessionEntry, Settings};
use den::state::{Model, Scans};
use den::repo::RepoStatus;

fn strings(v: &[&str]) -> Vec<String> {
    v.iter().map(|s| s.to_string()).collect()
}

#[test]
fn old_settings_files_are_read_line_by_line() {
    let s = parse_legacy_kv("# old\nsort_ci_first = true\nshow_hidden=true\nlast_filter = den \nnonsense\nunknown = 1\n");
    assert_eq!(s.sort_mode, "ci_red_first");
    assert!(s.show_hidden);
    assert_eq!(s.last_filter, "den");
    let s = parse_legacy_kv("sort_mode = by_recency\nsort_ci_first = false\nshow_hidden = yes\n");
    assert_eq!(s.sort_mode, "by_recency");
    assert!(!s.show_hidden);
    let d = Settings::default();
    assert!(d.sort_mode.is_empty() && !d.show_hidden && d.last_filter.is_empty());
}

#[test]
fn a_session_is_found_by_its_folders_and_moved_to_its_name() {
    let entries = vec![
        SessionEntry { name: "notes.txt".into(), is_dir: false, bases: strings(&["/w"]) },
        SessionEntry { name: "abc123".into(), is_dir: true, bases: strings(&["/w/"]) },
    ];
    match resolve_session(&entries, &strings(&["/w"])) {
        SessionChoice::Rename { from, to } => {
            assert_eq!(from, "abc123");
            assert_eq!(to, "w");
        }
        other => panic!("expected a rename, got {:?}", other),
    }
    let entries = vec![SessionEntry { name: "w".into(), is_dir: true, bases: strings(&["/w"]) }];
    assert_eq!(resolve_session(&entries, &strings(&["/w"])), SessionChoice::Use("w".into()));
    let none: Vec<SessionEntry> = Vec::new();
    assert_eq!(resolve_session(&none, &strings(&["/x"])), SessionChoice::Use("x".into()));
}

#[test]
fn a_bar_starts_from_the_terminal_sessions() {
    let c = BarConfig::seeded(&[strings(&["/work/den", "/personal"]), strings(&["/work", "/personal/"])]);
    assert_eq!(c.folders, strings(&["/personal", "/work"]));
    assert_eq!(c.depth(), 4);
    assert_eq!(c.fetch_secs(), 900);
}

#[test]
fn adopting_folders_reports_a_change_only_when_there_is_one() {
    let mut c = BarConfig::seeded(&[strings(&["/work"])]);
    assert!(!c.adopt(&strings(&["/work/den", "/work"])));
    assert_eq!(c.folders, strings(&["/work"]));
    assert!(c.adopt(&strings(&["/personal", "/work/x"])));
    assert_eq!(c.folders, strings(&["/work", "/personal"]));
    assert!(c.adopt(&strings(&["/"])));
    assert_eq!(c.folders, strings(&["/"]));
}

#[test]
fn adopting_the_same_folders_twice_changes_nothing_the_second_time() {
    let mut c = BarConfig::empty();
    let opened = strings(&["/a/b", "/c", "/a"]);
    assert!(c.adopt(&opened));
    let after = c.folders.clone();
    assert_eq!(after, strings(&["/c", "/a"]));
    assert!(!c.adopt(&opened));
    assert_eq!(c.folders, after);
}

#[test]
fn scans_wait_for_each_other_unless_asked_for() {
    let mut s = Scans::new();
    assert!(s.begin(false, 0));
    assert!(!s.begin(false, 10));
    assert!(s.begin(true, 10));
    s.finish(100);
    assert!(!s.busy);
    assert!(!s.begin(false, 1000));
    assert!(s.begin(false, 2100));
}

fn repo(name: &str) -> RepoStatus {
    RepoStatus {
        path: format!("/w/{}", name),
        name: name.to_string(),
        branch: None,
        upstream: None,
        ahead: 0,
        behind: 0,
        staged: 0,
        modified: 0,
        untracked: 0,
        conflicted: 0,
        stashed: 0,
        last_commit: None,
        latest_tag: None,
        error: None,
    }
}

#[test]
fn a_scan_lists_each_folder_in_turn() {
    let all = Model::scan_folders(vec![vec![repo("b"), repo("a")], vec![], vec![repo("c")]]);
    let names: Vec<&str> = all.iter().map(|r| r.name.as_str()).collect();
    assert_eq!(names, vec!["b", "a", "c"]);
}

#[test]
fn a_set_of_paths_is_written_sorted_one_per_line() {
    let marks = strings(&["/w/b", "/w/a", "/W/z", "/w/a"]);
    assert_eq!(sort_texts(&marks), vec![2, 1, 3, 0]);
    assert_eq!(path_set_text(&marks), "/W/z\n/w/a\n/w/a\n/w/b");
    assert_eq!(path_set_text(&[]), "");
    assert_eq!(path_set_text(&strings(&["/x"])), "/x");
}

#[test]
fn the_panel_reads_pins_from_the_session_and_hidden_from_den() {
    let cfg = BarConfig::seeded(&[strings(&["/w/work"])]);
    let mut m = Model::new("1.0".to_string(), cfg);
    let sessions = vec![
        den::session::SessionEntry { name: "other".to_string(), is_dir: true, bases: strings(&["/x"]) },
        den::session::SessionEntry { name: "work".to_string(), is_dir: true, bases: strings(&["/w/work"]) },
    ];
    let f = m.marks_files("/home/j", &sessions);
    assert!(matches!(f.session, SessionChoice::Use(ref id) if id == "work"));
    assert_eq!(f.pins, "/home/j/.den/sessions/work/pins.txt");
    assert_eq!(f.hidden, "/home/j/.den/hidden.txt");
    m.reload_marks("/w/work/a\n\n /w/work/b \n", "/w/work/c\n");
    assert_eq!(m.pinned, strings(&["/w/work/a", "/w/work/b"]));
    assert_eq!(m.hidden, strings(&["/w/work/c"]));
    let fresh = m.marks_files("/home/j", &[]);
    assert!(matches!(fresh.session, SessionChoice::Use(ref id) if id == "work"));
}
