use den::bar::prune_nested;
use den::brand::{conflict, forest};
use den::github::{ci_state_from, git_remote_to_https, run_id_from_url};
use den::model::{CiState, SortMode};
use den::order::{display_order, OrderView};
use den::repo::RepoStatus;
use den::state::label_folders;

fn paths(v: &[&str]) -> Vec<String> {
    v.iter().map(|s| s.to_string()).collect()
}

#[test]
fn state_a_folder_inside_another_watched_folder_is_dropped() {
    assert_eq!(
        prune_nested(paths(&["/work", "/work/den", "/personal"])),
        paths(&["/work", "/personal"])
    );
}

#[test]
fn state_the_outer_folder_wins_even_when_it_arrives_second() {
    assert_eq!(prune_nested(paths(&["/work/den", "/work"])), paths(&["/work"]));
}

#[test]
fn folders_are_named_by_their_last_segment() {
    assert_eq!(
        label_folders(&paths(&["/Users/j/work", "/Users/j/personal"])),
        vec!["work", "personal"]
    );
}

#[test]
fn two_folders_of_one_name_grow_until_they_differ() {
    assert_eq!(
        label_folders(&paths(&["/Users/j/work/projects", "/Users/j/personal/projects"])),
        vec!["work/projects", "personal/projects"]
    );
}

#[test]
fn only_the_ones_that_clash_grow() {
    assert_eq!(
        label_folders(&paths(&["/a/x/projects", "/b/y/projects", "/c/notes"])),
        vec!["x/projects", "y/projects", "notes"]
    );
}

#[test]
fn state_a_shared_prefix_is_not_containment() {
    assert_eq!(
        prune_nested(paths(&["/work", "/work-notes"])),
        paths(&["/work", "/work-notes"])
    );
}

#[test]
fn bar_a_folder_inside_another_watched_folder_is_dropped() {
    assert_eq!(
        prune_nested(paths(&["/work", "/work/den", "/personal"])),
        paths(&["/work", "/personal"])
    );
}

#[test]
fn bar_the_outer_folder_wins_even_when_it_arrives_second() {
    assert_eq!(prune_nested(paths(&["/work/den", "/work"])), paths(&["/work"]));
}

#[test]
fn bar_a_shared_prefix_is_not_containment() {
    assert_eq!(
        prune_nested(paths(&["/work", "/work-notes"])),
        paths(&["/work", "/work-notes"])
    );
}

#[test]
fn hex_is_six_digits_with_a_hash() {
    assert_eq!(forest().hex(), "#5BA37C");
    assert_eq!(conflict().hex(), "#C24A3F");
}

#[test]
fn remotes_become_browsable_urls() {
    assert_eq!(
        git_remote_to_https("git@github.com:bearocratic/den.git").as_deref(),
        Some("https://github.com/bearocratic/den")
    );
    assert_eq!(
        git_remote_to_https("ssh://git@github.com/bearocratic/den.git").as_deref(),
        Some("https://github.com/bearocratic/den")
    );
    assert_eq!(
        git_remote_to_https("https://github.com/bearocratic/den.git").as_deref(),
        Some("https://github.com/bearocratic/den")
    );
    assert_eq!(git_remote_to_https("/srv/git/den.git"), None);
}

#[test]
fn a_run_url_yields_its_trailing_id() {
    assert_eq!(
        run_id_from_url("https://github.com/bearocratic/den/actions/runs/1234").as_deref(),
        Some("1234")
    );
}

#[test]
fn ci_states_follow_the_conclusion_not_the_status() {
    assert_eq!(ci_state_from("completed", "success"), Some(CiState::Success));
    assert_eq!(ci_state_from("completed", "failure"), Some(CiState::Failure));
    assert_eq!(ci_state_from("completed", "timed_out"), Some(CiState::Failure));
    assert_eq!(ci_state_from("in_progress", ""), Some(CiState::Running));
    assert_eq!(ci_state_from("queued", ""), Some(CiState::Running));
    assert_eq!(ci_state_from("completed", "neutral"), Some(CiState::Unknown));
}

fn repo(name: &str, path: &str) -> RepoStatus {
    RepoStatus {
        path: path.to_string(),
        name: name.to_string(),
        branch: Some("main".into()),
        upstream: Some("origin/main".into()),
        ahead: 0,
        behind: 0,
        staged: 0,
        modified: 0,
        untracked: 0,
        conflicted: 0,
        stashed: 0,
        last_commit: None,
        latest_tag: None,
        error: None,
    }
}

fn view<'a>(
    repos: &'a [RepoStatus],
    hidden: &'a [String],
    pinned: &'a [String],
    bases: &'a [String],
) -> OrderView<'a> {
    OrderView {
        repos,
        filter_query: "",
        show_hidden: false,
        hidden,
        pinned,
        bases,
        base_filter: None,
        sort_mode: SortMode::Default,
    }
}

fn names(repos: &[RepoStatus], order: Vec<usize>) -> Vec<&str> {
    order.iter().map(|i| repos[*i].name.as_str()).collect()
}

#[test]
fn trouble_comes_first_and_clean_repos_last() {
    let mut conflicted = repo("conflicted", "/w/conflicted");
    conflicted.conflicted = 1;
    let mut dirty = repo("dirty", "/w/dirty");
    dirty.modified = 2;
    let repos = vec![repo("clean", "/w/clean"), dirty, conflicted];
    let (h, p, b): (Vec<String>, Vec<String>, Vec<String>) = (Vec::new(), Vec::new(), Vec::new());
    assert_eq!(
        names(&repos, display_order(&view(&repos, &h, &p, &b))),
        vec!["conflicted", "dirty", "clean"]
    );
}

#[test]
fn a_pin_outranks_state_and_hiding_removes_the_row() {
    let mut dirty = repo("dirty", "/w/dirty");
    dirty.modified = 1;
    let repos = vec![dirty, repo("pinned", "/w/pinned"), repo("gone", "/w/gone")];
    let hidden = paths(&["/w/gone"]);
    let pinned = paths(&["/w/pinned"]);
    assert_eq!(
        names(&repos, display_order(&view(&repos, &hidden, &pinned, &[]))),
        vec!["pinned", "dirty"]
    );
}

#[test]
fn show_hidden_puts_the_hidden_rows_back_at_the_end() {
    let repos = vec![repo("gone", "/w/gone"), repo("here", "/w/here")];
    let hidden = paths(&["/w/gone"]);
    let pinned: Vec<String> = Vec::new();
    let mut v = view(&repos, &hidden, &pinned, &[]);
    v.show_hidden = true;
    assert_eq!(names(&repos, display_order(&v)), vec!["here", "gone"]);
}

#[test]
fn the_filter_matches_names_and_the_base_filter_matches_paths() {
    let repos = vec![
        repo("cabinet", "/work/cabinet"),
        repo("chancery", "/work/chancery"),
        repo("notes", "/personal/notes"),
    ];
    let (h, p): (Vec<String>, Vec<String>) = (Vec::new(), Vec::new());
    let bases = paths(&["/work", "/personal"]);

    let mut v = view(&repos, &h, &p, &bases);
    v.filter_query = "chan";
    assert_eq!(names(&repos, display_order(&v)), vec!["chancery"]);

    let mut v = view(&repos, &h, &p, &bases);
    v.base_filter = Some(1);
    assert_eq!(names(&repos, display_order(&v)), vec!["notes"]);
}

#[test]
fn dirty_first_orders_the_same_way_the_default_does() {
    let mut dirty = repo("dirty", "/w/dirty");
    dirty.modified = 1;
    let repos = vec![repo("clean", "/w/clean"), dirty];
    let (h, p): (Vec<String>, Vec<String>) = (Vec::new(), Vec::new());
    let mut v = view(&repos, &h, &p, &[]);
    v.sort_mode = SortMode::DirtyFirst;
    let dirty_first = display_order(&v);
    let default = display_order(&view(&repos, &h, &p, &[]));
    assert_eq!(dirty_first, default);
    assert_eq!(names(&repos, default), vec!["dirty", "clean"]);
}
