use den::repo::{status_from, EntryFlags, GitFacts, HeadCommit, TagInfo};

fn none_facts() -> GitFacts {
    GitFacts {
        open_error: None,
        shorthand: None,
        commit: None,
        upstream: None,
        ahead_behind: None,
        entries: Vec::new(),
        stashed: 0,
        latest_tag: None,
    }
}

fn flags(conflicted: bool, index_new: bool, wt_modified: bool, wt_new: bool) -> EntryFlags {
    EntryFlags {
        conflicted,
        index_new,
        index_modified: false,
        index_deleted: false,
        index_renamed: false,
        index_typechange: false,
        wt_new,
        wt_modified,
        wt_deleted: false,
        wt_renamed: false,
        wt_typechange: false,
    }
}

#[test]
fn a_folder_that_will_not_open_shows_only_the_error() {
    let mut f = none_facts();
    f.open_error = Some("could not find repository".to_string());
    f.stashed = 3;
    f.shorthand = Some((true, "main".to_string()));
    let s = status_from("/w/broken", f);
    assert_eq!(s.path, "/w/broken");
    assert_eq!(s.name, "broken");
    assert_eq!(s.error.as_deref(), Some("open: could not find repository"));
    assert!(s.branch.is_none() && s.last_commit.is_none());
    assert_eq!(s.stashed, 0);
    assert!(!s.is_clean());
}

#[test]
fn a_branch_brings_its_upstream_and_distance() {
    let mut f = none_facts();
    f.shorthand = Some((true, "main".to_string()));
    f.upstream = Some("origin/main".to_string());
    f.ahead_behind = Some((2, 5));
    f.commit = Some(HeadCommit {
        id: "0123456789abcdef".to_string(),
        summary: "fix the tiles".to_string(),
        seconds: 1_700_000_000,
    });
    f.entries = vec![
        flags(true, true, true, true),
        flags(false, true, true, false),
        flags(false, false, false, true),
        flags(false, false, true, false),
    ];
    f.stashed = 1;
    f.latest_tag = Some(TagInfo { name: "v1.0".to_string(), commits_since: 4, time: 9 });
    let s = status_from("/w/den", f);
    assert_eq!(s.name, "den");
    assert!(s.error.is_none());
    assert_eq!(s.branch.as_deref(), Some("main"));
    assert_eq!(s.upstream.as_deref(), Some("origin/main"));
    assert_eq!((s.ahead, s.behind), (2, 5));
    let c = s.last_commit.unwrap();
    assert_eq!(c.short_sha, "0123456");
    assert_eq!(c.summary, "fix the tiles");
    assert_eq!(c.time, 1_700_000_000);
    assert_eq!((s.conflicted, s.staged, s.modified, s.untracked), (1, 1, 2, 1));
    assert_eq!(s.stashed, 1);
    assert_eq!(s.latest_tag.unwrap().name, "v1.0");
}

#[test]
fn a_detached_head_is_bracketed_and_has_no_upstream() {
    let mut f = none_facts();
    f.shorthand = Some((false, "a1b2c3d".to_string()));
    f.commit = Some(HeadCommit { id: "abc".to_string(), summary: String::new(), seconds: -40 });
    let s = status_from("/w/x", f);
    assert_eq!(s.branch.as_deref(), Some("(a1b2c3d)"));
    assert!(s.upstream.is_none());
    let c = s.last_commit.clone().unwrap();
    assert_eq!(c.short_sha, "abc");
    assert_eq!(c.time, 0);
    assert!(s.is_clean());
}

#[test]
fn a_fresh_repository_reads_as_uninitialized() {
    let mut f = none_facts();
    f.upstream = Some("origin/main".to_string());
    f.ahead_behind = Some((1, 1));
    let s = status_from("/w/new", f);
    assert!(s.is_uninitialized());
    assert!(s.upstream.is_none());
    assert_eq!((s.ahead, s.behind), (0, 0));
}

fn named(path: &str) -> den::repo::RepoStatus {
    status_from(path, none_facts())
}

#[test]
fn folders_inside_each_other_give_each_repository_once() {
    let found = vec![
        vec!["/w/a".to_string(), "/w/inner/b".to_string()],
        vec!["/w/inner/b".to_string(), "/w/inner/c".to_string(), "/w/a/".to_string()],
    ];
    let merged = den::tui::merge_found(&found);
    assert_eq!(merged, vec!["/w/a", "/w/inner/b", "/w/inner/c"]);
    assert!(den::tui::merge_found(&[]).is_empty());
}

#[test]
fn repositories_are_listed_by_name() {
    let sorted = den::tui::sort_by_name(vec![
        named("/x/zeta"),
        named("/y/Alpha"),
        named("/x/alpha"),
        named("/z/alpha"),
    ]);
    let paths: Vec<&str> = sorted.iter().map(|s| s.path.as_str()).collect();
    assert_eq!(paths, vec!["/y/Alpha", "/x/alpha", "/z/alpha", "/x/zeta"]);
}

#[test]
fn the_bar_opens_only_https_addresses() {
    assert!(den::actions::url("https://github.com/o/r/actions/runs/7"));
    assert!(!den::actions::url("http://github.com/o/r"));
    assert!(!den::actions::url("file:///etc/passwd"));
    assert!(!den::actions::url(""));
}

#[test]
fn the_bar_opens_the_page_of_a_browsable_origin() {
    assert_eq!(
        den::actions::github(Some("git@github.com:o/r.git\n")).as_deref(),
        Some("https://github.com/o/r")
    );
    assert_eq!(
        den::actions::github(Some("https://github.com/o/r.git")).as_deref(),
        Some("https://github.com/o/r")
    );
    assert_eq!(den::actions::github(Some("/srv/git/r")), None);
    assert_eq!(den::actions::github(None), None);
}
