use den::commands::{all_commands, filter_commands, Cmd};
use den::repo::RepoStatus;
use den::tui::{
    bases_label, config_path, diff_is_blank, display_order, load_marks, release_from, App,
    DetailContent, DetailSection, Effect, FetchMsg, Key, Move,
};

fn repo(name: &str, path: &str) -> RepoStatus {
    RepoStatus {
        path: path.to_string(),
        name: name.to_string(),
        branch: Some("main".into()),
        upstream: None,
        ahead: 0,
        behind: 0,
        staged: 0,
        modified: 0,
        untracked: 0,
        conflicted: 0,
        stashed: 0,
        last_commit: None,
        latest_tag: None,
        error: None,
    }
}

fn app_of(repos: Vec<RepoStatus>) -> App {
    App::new(repos, vec!["/w".to_string()], Vec::new(), Vec::new(), false, 0)
}

fn three() -> App {
    app_of(vec![repo("a", "/w/a"), repo("b", "/w/b"), repo("c", "/w/c")])
}

fn flash(app: &App) -> Option<String> {
    app.flash.as_ref().map(|(s, _)| s.clone())
}

#[test]
fn the_palette_lists_every_command_and_filters_them() {
    let all = all_commands();
    assert_eq!(all.len(), 21);
    assert_eq!(all[0].cmd, Cmd::Pin);
    assert_eq!(all[19].cmd, Cmd::Filter);
    assert_eq!(all[19].keys, "/");
    assert_eq!(all[20].cmd, Cmd::Quit);
    assert_eq!(filter_commands("   ").len(), 21);
    assert_eq!(filter_commands("").len(), 21);
    let pins: Vec<Cmd> = filter_commands(" PIN ").iter().map(|c| c.cmd).collect();
    assert_eq!(pins, vec![Cmd::Pin]);
    assert!(filter_commands("zzzz").is_empty());
    let by_key: Vec<Cmd> = filter_commands("y").iter().map(|c| c.cmd).collect();
    assert!(by_key.contains(&Cmd::CopyPath));
}

#[test]
fn detail_sections_alternate() {
    assert_eq!(DetailSection::Status.next(), DetailSection::Diff);
    assert_eq!(DetailSection::Diff.next(), DetailSection::Status);
    assert_eq!(DetailSection::Status.label(), "status");
    assert_eq!(DetailSection::Diff.label(), "diff");
}

#[test]
fn a_new_app_starts_on_the_first_repo_with_detail_open() {
    let app = three();
    assert_eq!(app.selected, 0);
    assert!(app.show_detail);
    assert_eq!(app.cols, 1);
    assert!(app.readme_rendered);
    assert_eq!(app.focus, DetailSection::Status);
    assert!(app.flash.is_none());
}

#[test]
fn pinning_twice_leaves_no_pin() {
    let mut app = three();
    assert_eq!(app.handle_key(Key::Char('p'), false, 10), Effect::SavePins);
    assert_eq!(app.pinned, vec!["/w/a".to_string()]);
    assert_eq!(flash(&app).as_deref(), Some("pinned a"));
    assert_eq!(app.handle_key(Key::Char('p'), false, 20), Effect::SavePins);
    assert!(app.pinned.is_empty());
    assert_eq!(flash(&app).as_deref(), Some("unpinned a"));
}

#[test]
fn hiding_the_selected_repo_moves_the_selection_on() {
    let mut app = three();
    assert_eq!(app.handle_key(Key::Char('x'), false, 5), Effect::SaveHidden);
    assert_eq!(app.hidden, vec!["/w/a".to_string()]);
    assert_eq!(app.selected, 1);
    assert_eq!(flash(&app).as_deref(), Some("hid a  ·  press . to toggle hidden"));
    assert_eq!(display_order(&app), vec![1, 2]);
    app.handle_key(Key::Char('.'), false, 6);
    assert_eq!(flash(&app).as_deref(), Some("showing hidden repos"));
    assert_eq!(display_order(&app), vec![1, 2, 0]);
}

#[test]
fn hiding_twice_with_hidden_shown_leaves_nothing_hidden() {
    let mut app = three();
    app.handle_key(Key::Char('.'), false, 1);
    assert_eq!(app.handle_key(Key::Char('x'), false, 2), Effect::SaveHidden);
    assert_eq!(app.hidden, vec!["/w/a".to_string()]);
    assert_eq!(app.selected, 0);
    assert_eq!(app.handle_key(Key::Char('x'), false, 3), Effect::SaveHidden);
    assert!(app.hidden.is_empty());
    assert_eq!(flash(&app).as_deref(), Some("unhid a"));
}

#[test]
fn arrows_move_across_the_grid_and_stop_at_the_ends() {
    let mut app = three();
    app.cols = 2;
    app.move_sel(Move::Left);
    assert_eq!(app.selected, 0);
    app.move_sel(Move::Down);
    assert_eq!(app.selected, 2);
    app.move_sel(Move::Down);
    assert_eq!(app.selected, 2);
    app.handle_key(Key::Char('k'), false, 0);
    assert_eq!(app.selected, 0);
    app.handle_key(Key::Right, false, 0);
    assert_eq!(app.selected, 1);
}

#[test]
fn the_filter_line_narrows_and_keeps_the_selection_on_screen() {
    let mut app = three();
    app.handle_key(Key::Char('/'), false, 0);
    assert!(app.filter_open);
    app.handle_key(Key::Char('C'), false, 0);
    assert_eq!(app.filter_query, "C");
    assert_eq!(app.selected, 2);
    assert_eq!(display_order(&app), vec![2]);
    app.handle_key(Key::Backspace, false, 0);
    assert_eq!(app.filter_query, "");
    app.handle_key(Key::Esc, false, 0);
    assert!(!app.filter_open);
    assert_eq!(app.selected, 2);
}

#[test]
fn the_palette_runs_the_chosen_command() {
    let mut app = three();
    app.handle_key(Key::Char(':'), false, 0);
    assert!(app.palette_open);
    for c in "readme".chars() {
        app.handle_key(Key::Char(c), false, 0);
    }
    assert_eq!(app.palette_selected, 0);
    app.handle_key(Key::Down, false, 0);
    assert_eq!(app.palette_selected, 1);
    app.handle_key(Key::Down, false, 0);
    assert_eq!(app.palette_selected, 1);
    app.handle_key(Key::Up, false, 0);
    assert_eq!(app.palette_selected, 0);
    assert_eq!(app.handle_key(Key::Enter, false, 0), Effect::Nothing);
    assert!(!app.palette_open);
    assert!(app.palette_query.is_empty());
    assert!(app.show_readme);
}

#[test]
fn ctrl_c_and_q_quit() {
    let mut app = three();
    assert_eq!(app.handle_key(Key::Char('q'), false, 0), Effect::Quit);
    assert_eq!(app.handle_key(Key::Char('c'), true, 0), Effect::Quit);
    assert_eq!(app.handle_key(Key::Char('c'), false, 0), Effect::Nothing);
    app.handle_key(Key::Char('/'), false, 0);
    assert_eq!(app.handle_key(Key::Char('c'), true, 0), Effect::Quit);
}

#[test]
fn keys_ask_the_program_for_work_on_the_selected_repo() {
    let mut app = three();
    app.selected = 1;
    assert_eq!(app.handle_key(Key::Char('F'), false, 7), Effect::Fetch(1));
    assert_eq!(flash(&app).as_deref(), Some("fetching b…"));
    assert_eq!(app.handle_key(Key::Char('P'), false, 7), Effect::Pull(1));
    assert_eq!(flash(&app).as_deref(), Some("pulling b…"));
    assert_eq!(app.handle_key(Key::Char('e'), false, 7), Effect::OpenEditor(1));
    assert_eq!(app.handle_key(Key::Char('g'), false, 7), Effect::OpenGitHub(1));
    assert_eq!(app.handle_key(Key::Char('A'), false, 7), Effect::OpenActions(1));
    assert_eq!(app.handle_key(Key::Char('y'), false, 7), Effect::CopyPath(1));
    assert_eq!(app.handle_key(Key::Char('r'), false, 7), Effect::RefreshAll);
    app.handle_key(Key::Char('o'), false, 7);
    assert_eq!(app.take_pending_lazygit().as_deref(), Some("/w/b"));
    assert!(app.pending_lazygit.is_none());
}

#[test]
fn paging_scrolls_the_focused_pane_within_u16() {
    let mut app = three();
    app.handle_key(Key::PageDown, false, 0);
    assert_eq!(app.status_scroll, 10);
    app.handle_key(Key::PageUp, false, 0);
    app.handle_key(Key::PageUp, false, 0);
    assert_eq!(app.status_scroll, 0);
    app.handle_key(Key::Tab, false, 0);
    assert_eq!(app.focus, DetailSection::Diff);
    app.diff_scroll = 65530;
    app.handle_key(Key::PageDown, false, 0);
    assert_eq!(app.diff_scroll, 65535);
    app.show_readme = true;
    *app.focused_scroll_mut() = 3;
    assert_eq!(app.readme_scroll, 3);
}

#[test]
fn markdown_mode_needs_the_readme_open() {
    let mut app = three();
    app.execute_cmd(Cmd::ToggleMarkdownMode, 9);
    assert_eq!(flash(&app).as_deref(), Some("open readme first"));
    app.handle_key(Key::Char('i'), false, 9);
    app.handle_key(Key::Char('m'), false, 9);
    assert!(!app.readme_rendered);
    assert_eq!(app.execute_cmd(Cmd::RefreshAll, 9), Effect::RefreshAll);
    assert_eq!(flash(&app).as_deref(), Some("refreshed"));
    app.execute_cmd(Cmd::ToggleSortCi, 9);
    assert_eq!(flash(&app).as_deref(), Some("sort: ci red first"));
    assert_eq!(app.execute_cmd(Cmd::Quit, 9), Effect::Quit);
}

#[test]
fn background_messages_update_the_state() {
    let mut app = three();
    app.apply_fetch(FetchMsg::CycleStarted, 1);
    assert!(app.is_fetching);
    app.apply_fetch(FetchMsg::Started("/w/b".into()), 1);
    app.apply_fetch(FetchMsg::Started("/w/b/".into()), 1);
    assert_eq!(app.fetching, vec!["/w/b".to_string()]);
    app.detail_cache_key = Some("/w/a".into());
    assert_eq!(app.apply_fetch(FetchMsg::Done("/w/b".into()), 2), Some(1));
    assert!(app.fetching.is_empty());
    assert_eq!(app.detail_cache_key.as_deref(), Some("/w/a"));
    assert_eq!(app.apply_fetch(FetchMsg::Done("/w/a".into()), 2), Some(0));
    assert!(app.detail_cache_key.is_none());
    assert_eq!(app.apply_fetch(FetchMsg::Done("/elsewhere".into()), 2), None);
    app.apply_fetch(FetchMsg::PrUpdate("/w/c".into(), Some(3)), 3);
    assert_eq!(app.prs.get("/w/c"), Some(&3));
    app.apply_fetch(FetchMsg::PrUpdate("/w/c".into(), Some(0)), 3);
    assert_eq!(app.prs.get("/w/c"), None);
    app.apply_fetch(FetchMsg::CycleFinished, 4);
    assert!(!app.is_fetching);
    assert_eq!(app.last_auto_fetch, Some(4));
}

#[test]
fn reading_a_status_again_says_what_changed() {
    let mut app = three();
    let mut dirty = repo("b", "/w/b");
    dirty.modified = 1;
    app.refresh_one(1, dirty.clone(), 5);
    assert_eq!(flash(&app).as_deref(), Some("b went dirty"));
    let mut conflicted = dirty.clone();
    conflicted.conflicted = 2;
    app.refresh_one(1, conflicted, 6);
    assert_eq!(flash(&app).as_deref(), Some("b has conflicts"));
    app.refresh_one(1, repo("b", "/w/b"), 7);
    assert_eq!(flash(&app).as_deref(), Some("b is clean"));
    app.flash = None;
    app.refresh_one(1, repo("b", "/w/b"), 8);
    assert!(app.flash.is_none());
}

#[test]
fn messages_expire_and_statuses_fall_due() {
    let mut app = three();
    app.flash_msg("hello".into(), 1000);
    app.expire_flash(3000);
    assert!(app.flash.is_some());
    app.expire_flash(3001);
    assert!(app.flash.is_none());
    assert!(!app.refresh_due(30000));
    assert!(app.refresh_due(30001));
    app.refresh_all(vec![repo("z", "/w/z")], 40000);
    assert_eq!(app.last_refresh, 40000);
    assert_eq!(app.repos.len(), 1);
}

#[test]
fn changed_files_name_their_repositories_once() {
    let app = three();
    let events = vec![
        "/w/b/src/main.rs".to_string(),
        "/w/b/README.md".to_string(),
        "/tmp/x".to_string(),
        "/w/a".to_string(),
    ];
    assert_eq!(app.changed_repos(&events), vec![1, 0]);
    assert_eq!(app.repo_for_path("/w/c/x"), Some(2));
    assert_eq!(app.repo_for_path("/w/cc"), None);
    let mut app = three();
    app.detail_cache_key = Some("/w/a".into());
    app.forget_detail_if_changed(&[1]);
    assert!(app.detail_cache_key.is_some());
    app.forget_detail_if_changed(&[0]);
    assert!(app.detail_cache_key.is_none());
}

#[test]
fn the_detail_pane_reads_once_per_repository() {
    let mut app = three();
    assert_eq!(app.detail_target(), Some(0));
    app.status_scroll = 4;
    app.fill_detail(
        0,
        DetailContent {
            status: "## main".into(),
            diff: String::new(),
            stash: String::new(),
            release_tag: "v1".into(),
            release_time_unix: 12,
            readme_path: "README.md".into(),
            readme: "# hi".into(),
        },
    );
    assert_eq!(app.detail_target(), None);
    assert_eq!(app.status_scroll, 0);
    assert_eq!(app.release_tag, "v1");
    app.show_detail = false;
    app.detail_cache_key = None;
    assert_eq!(app.detail_target(), None);
}

#[test]
fn what_the_program_reports_back_lands_on_the_message_line() {
    let mut app = three();
    app.after_editor("vim", None, 1);
    assert_eq!(flash(&app).as_deref(), Some("opened in vim"));
    app.after_editor("vim", Some("not found".into()), 1);
    assert_eq!(flash(&app).as_deref(), Some("editor failed: not found"));
    app.after_copy(false, 1);
    assert_eq!(flash(&app).as_deref(), Some("clipboard unavailable"));
    app.after_suspend("lazygit", None, 1);
    assert_eq!(flash(&app).as_deref(), Some("returned from lazygit"));
    app.after_suspend("shell", Some("boom".into()), 1);
    assert_eq!(flash(&app).as_deref(), Some("shell failed: boom"));
    assert_eq!(app.after_remote_for_github(None, 1), None);
    assert_eq!(flash(&app).as_deref(), Some("no origin remote"));
    assert_eq!(app.after_remote_for_github(Some("/srv/x.git\n"), 1), None);
    assert_eq!(flash(&app).as_deref(), Some("could not parse remote URL"));
    assert_eq!(
        app.after_remote_for_github(Some("git@github.com:o/r.git\n"), 1).as_deref(),
        Some("https://github.com/o/r")
    );
    assert_eq!(flash(&app).as_deref(), Some("opened https://github.com/o/r"));
    assert_eq!(
        app.after_remote_for_actions(0, Some("https://github.com/o/r.git\n"), 1).as_deref(),
        Some("https://github.com/o/r/actions?query=branch%3Amain")
    );
    assert_eq!(app.after_remote_for_actions(0, Some("/srv/x"), 1), None);
    assert_eq!(flash(&app).as_deref(), Some("not a github remote"));
}

#[test]
fn small_helpers() {
    assert_eq!(bases_label(&[]), ".");
    assert_eq!(bases_label(&["/w".to_string()]), "/w");
    assert_eq!(
        bases_label(&["/w".to_string(), "/x".to_string(), "/y".to_string()]),
        "/w +2 more"
    );
    assert_eq!(config_path("/home/j", "pins.txt"), "/home/j/.config/den/pins.txt");
    assert_eq!(release_from("v1.2\x1f1700000000\n"), ("v1.2".to_string(), 1700000000));
    assert_eq!(release_from("git for-each-ref failed:\n"), (String::new(), 0));
    assert_eq!(release_from("  \n"), (String::new(), 0));
    assert_eq!(release_from("v3\x1fsoon\n"), ("v3".to_string(), 0));
    assert!(diff_is_blank(" \n\t"));
    assert!(!diff_is_blank("diff --git"));
    assert_eq!(
        load_marks("/a\n\n /b \n/a/\n"),
        vec!["/a".to_string(), "/b".to_string()]
    );
}

#[test]
fn the_key_table_focuses_toggles_and_moves() {
    let mut app = three();
    app.cols = 3;
    app.handle_key(Key::Char('2'), false, 0);
    assert_eq!(app.focus, DetailSection::Diff);
    app.handle_key(Key::Char('1'), false, 0);
    assert_eq!(app.focus, DetailSection::Status);
    app.handle_key(Key::Enter, false, 0);
    assert!(!app.show_detail);
    app.handle_key(Key::Enter, false, 0);
    assert!(app.show_detail);
    app.handle_key(Key::Char('l'), false, 0);
    assert_eq!(app.selected, 1);
    app.handle_key(Key::Char('l'), false, 0);
    assert_eq!(app.selected, 2);
    app.handle_key(Key::Char('h'), false, 0);
    assert_eq!(app.selected, 1);
    app.handle_key(Key::Char('s'), false, 0);
    assert_eq!(app.take_pending_shell().as_deref(), Some("/w/b"));
    app.handle_key(Key::Char('i'), false, 0);
    assert!(app.show_readme);
    app.handle_key(Key::Char('i'), false, 0);
    assert!(!app.show_readme);
}

#[test]
fn pins_written_out_read_back_as_the_same_set() {
    let marks: Vec<String> = vec!["/w/b".into(), "/w/a".into(), "/w/a/".into()];
    let text = den::session::path_set_text(&marks);
    assert_eq!(text, "/w/a\n/w/a/\n/w/b");
    assert_eq!(load_marks(&text), vec!["/w/a".to_string(), "/w/b".to_string()]);
    assert!(load_marks(&den::session::path_set_text(&[])).is_empty());
}

#[test]
fn every_shortcut_of_the_key_table_is_in_the_palette() {
    let all = all_commands();
    for k in ["p", "x", ".", "e", "o", "s", "g", "A", "r", "F", "i", "1", "2", "↵", "q", "/"] {
        assert!(all.iter().any(|c| c.keys == k && !c.desc.is_empty()), "no palette line for {}", k);
    }
}

#[test]
fn the_filter_command_opens_the_filter_line() {
    let mut app = three();
    assert_eq!(app.execute_cmd(Cmd::Filter, 0), Effect::Nothing);
    assert!(app.filter_open);
    let mut app = three();
    app.handle_key(Key::Char(':'), false, 0);
    for c in "filter".chars() {
        app.handle_key(Key::Char(c), false, 0);
    }
    app.handle_key(Key::Enter, false, 0);
    assert!(!app.palette_open);
    assert!(app.filter_open);
}

#[test]
fn the_show_hidden_toggle_is_saved_and_restored() {
    let mut app = three();
    assert!(!app.show_hidden);
    assert_eq!(app.handle_key(Key::Char('.'), false, 1), Effect::SaveShowHidden);
    assert!(app.show_hidden);
    let text = den::tui::show_hidden_text(app.show_hidden);
    assert_eq!(text, "true");
    assert!(den::tui::read_show_hidden(&text));
    assert!(!den::tui::read_show_hidden(&den::tui::show_hidden_text(false)));
    assert!(!den::tui::read_show_hidden(""));
    assert!(den::tui::read_show_hidden(" true\n"));
    let again = App::new(Vec::new(), Vec::new(), Vec::new(), Vec::new(), true, 0);
    assert!(again.show_hidden);
    assert_eq!(app.execute_cmd(Cmd::ToggleShowHidden, 2), Effect::SaveShowHidden);
    assert!(!app.show_hidden);
}
