use den::look::{
    detail_title, footer_line, grid_columns, grid_plan, group_by_section, header_line,
    palette_area, palette_lines, parse_diff, parse_markdown_raw, parse_status, readme_header,
    relative_short, relative_time, section_header, section_title, status_height, tile, tone_rgb,
    Band, Look, Piece, SectionKind, Tone,
};
use den::markdown::{readme_lines, render, render_events, MdEvent};
use den::repo::{CommitInfo, RepoStatus, TagInfo};
use den::text::decimal;
use den::tui::{App, DetailSection};

fn repo(name: &str, path: &str) -> RepoStatus {
    RepoStatus {
        path: path.to_string(),
        name: name.to_string(),
        branch: Some("main".into()),
        upstream: None,
        ahead: 0,
        behind: 0,
        staged: 0,
        modified: 0,
        untracked: 0,
        conflicted: 0,
        stashed: 0,
        last_commit: None,
        latest_tag: None,
        error: None,
    }
}

fn texts(ps: &[Piece]) -> Vec<String> {
    ps.iter().map(|p| p.text.clone()).collect()
}

fn fg(t: Tone) -> Look {
    Look { tone: t, bold: false, underlined: false, blink: false, italic: false, crossed: false }
}

fn strong(t: Tone) -> Look {
    Look { bold: true, ..fg(t) }
}

#[test]
fn numbers_and_ages_read_as_den_writes_them() {
    let s: String = decimal(0).into_iter().collect();
    assert_eq!(s, "0");
    let s: String = decimal(18446744073709551615).into_iter().collect();
    assert_eq!(s, "18446744073709551615");
    assert_eq!(relative_time(59), "59s");
    assert_eq!(relative_time(60), "1m");
    assert_eq!(relative_time(3600), "1h");
    assert_eq!(relative_time(86400 * 3), "3d");
    assert_eq!(relative_time(86400 * 60), "2mo");
    assert_eq!(relative_time(86400 * 400), "1y");
    assert_eq!(relative_short(5), "5s");
    assert_eq!(relative_short(125), "2 min");
    assert_eq!(relative_short(7200), "2h");
}

#[test]
fn tones_are_the_brand_colours() {
    assert_eq!(tone_rgb(Tone::Plain), None);
    assert_eq!(tone_rgb(Tone::Forest).map(|c| c.hex()), Some("#5BA37C".to_string()));
    assert_eq!(tone_rgb(Tone::Conflict).map(|c| c.hex()), Some("#C24A3F".to_string()));
}

#[test]
fn sections_group_in_a_fixed_order() {
    let mut dirty = repo("d", "/w/d");
    dirty.modified = 1;
    let mut broken = repo("e", "/w/e");
    broken.error = Some("open: nope".into());
    let repos = vec![repo("a", "/w/a"), dirty, broken, repo("h", "/w/h")];
    let app = App::new(repos, vec![], vec![], vec!["/w/h".to_string()], false, 0);
    let groups = group_by_section(&app, &[0, 1, 2, 3]);
    let kinds: Vec<SectionKind> = groups.iter().map(|g| g.0).collect();
    assert_eq!(
        kinds,
        vec![SectionKind::Conflicts, SectionKind::Dirty, SectionKind::Clean, SectionKind::Hidden]
    );
    assert_eq!(groups[0].1, vec![2]);
    assert_eq!(SectionKind::Dirty.label(), "dirty");
    assert_eq!(SectionKind::Dirty.color(), Tone::Amber);
    let plan = grid_plan(&groups, 4);
    assert_eq!(plan.len(), 11);
    assert!(matches!(plan[0], Band::Header(SectionKind::Conflicts, 1)));
    assert!(matches!(plan[2], Band::Gap));
}

#[test]
fn rows_of_tiles_hold_as_many_as_the_columns() {
    let groups = vec![(SectionKind::Clean, vec![0, 1, 2, 3, 4])];
    let plan = grid_plan(&groups, 2);
    assert_eq!(plan.len(), 4);
    match &plan[3] {
        Band::Tiles(v) => assert_eq!(v, &vec![4]),
        _ => panic!("expected a row of tiles"),
    }
    assert_eq!(grid_columns(10), 1);
    assert_eq!(grid_columns(70), 2);
    assert_eq!(grid_columns(200), 4);
}

#[test]
fn a_section_heading_runs_to_the_width() {
    let l = section_header(SectionKind::Clean, 12, 30);
    assert_eq!(texts(&l), vec!["── ", "clean", " 12 ", &"─".repeat(17)]);
    assert_eq!(l[1].look, strong(Tone::Forest));
    let narrow = section_header(SectionKind::Hidden, 1, 3);
    assert_eq!(narrow[3].text, "");
}

#[test]
fn a_tile_shows_branch_counts_and_commit() {
    let mut r = repo("den", "/w/den");
    r.ahead = 2;
    r.staged = 1;
    r.stashed = 3;
    r.latest_tag = Some(TagInfo { name: "v1".into(), commits_since: 4, time: 0 });
    r.last_commit = Some(CommitInfo {
        short_sha: "abc1234".into(),
        summary: "a very long summary of a commit".into(),
        time: 1000,
    });
    let t = tile(&r, true, true, false, 24, 1060);
    assert!(t.thick);
    assert_eq!(t.border, strong(Tone::Ivory));
    assert_eq!(texts(&t.title), vec!["★ ", "den "]);
    assert_eq!(texts(&t.lines[0]), vec![" ", "main", "  ", "↑2", "  ", "◇ ", "v1", "+4"]);
    assert_eq!(texts(&t.lines[1]), vec!["+1 ", "⌂3 "]);
    assert_eq!(texts(&t.lines[2]), vec!["abc1234", " ", "a very lon", " ", "1m"]);
    let clean = tile(&repo("c", "/w/c"), false, false, true, 40, 0);
    assert_eq!(clean.border, fg(Tone::StoneStrong));
    assert_eq!(texts(&clean.title), vec!["✗ ", "c "]);
    assert_eq!(texts(&clean.lines[1]), vec!["clean"]);
    let mut broken = repo("b", "/w/b");
    broken.error = Some("open: gone".into());
    let t = tile(&broken, false, false, false, 40, 0);
    assert_eq!(t.border, fg(Tone::Conflict));
    assert_eq!(t.lines.len(), 1);
    assert_eq!(t.lines[0][0].text, "open: gone");
}

#[test]
fn the_header_counts_and_the_footer_lists_keys() {
    let mut d = repo("d", "/w/d");
    d.modified = 1;
    let app = App::new(
        vec![repo("a", "/w/a"), d],
        vec!["/w".to_string(), "/x".to_string()],
        vec!["/w/a".to_string()],
        vec![],
        false,
        0,
    );
    let h = texts(&header_line(&app));
    assert_eq!(h[2], "/w +1 more");
    assert_eq!(h[4], "2 repos");
    assert_eq!(h[6], "1 dirty");
    assert_eq!(h[8], "0 conflicts");
    assert_eq!(h[10], "1 pinned");
    assert_eq!(h[12], "0 hidden");
    let f = texts(&footer_line(&app));
    assert_eq!(f[0], ":");
    assert_eq!(f[1], " commands  ");
    assert_eq!(f[10], "1/2");
    assert_eq!(f.last().map(|s| s.as_str()), Some(" quit  "));
    let mut app = app;
    app.flash_msg("hello".into(), 0);
    assert_eq!(texts(&footer_line(&app)), vec!["hello"]);
}

#[test]
fn the_palette_sits_centred_and_scrolls_to_the_selection() {
    assert_eq!(palette_area(100, 40), (11, 6, 78, 22));
    assert_eq!(palette_area(20, 10), (2, 0, 16, 8));
    let rows = palette_lines("", 5, 3);
    assert_eq!(rows.len(), 3);
    assert_eq!(rows[2][0].text, "▸ ");
    assert_eq!(rows[2][1].text, format!("{:<22}", "open shell at repo"));
    assert_eq!(rows[2][2].text, "   s  ");
    assert_eq!(rows[0][0].text, "  ");
    let none = palette_lines("zzz", 0, 5);
    assert_eq!(texts(&none[0]), vec!["no matches"]);
}

#[test]
fn the_detail_pane_titles_and_sections() {
    let mut r = repo("den", "/w/den");
    r.behind = 2;
    let t = detail_title(&r, false, "v2", 100, 160);
    assert_eq!(texts(&t), vec![" ", "den ", " main ", "  ", "↓2", "  ·  ", "v2 ", "1m ago"]);
    let (p, rule) = section_title(DetailSection::Diff, true);
    assert_eq!(p.text, " 2 diff ");
    assert_eq!(rule, Tone::AmberStrong);
    assert!(p.look.underlined);
    assert_eq!(readme_header(true, ""), "readme · rendered");
    assert_eq!(readme_header(false, "README.md"), "readme · raw · README.md");
    assert_eq!(status_height(0), 3);
    assert_eq!(status_height(5), 7);
    assert_eq!(status_height(50), 10);
}

#[test]
fn status_and_diff_lines_are_coloured_by_kind() {
    let clean = parse_status("  \n");
    assert_eq!(texts(&clean[0]), vec!["working tree clean"]);
    let s = parse_status("## main...origin/main\n M src/a.rs\n?? new.txt\nUU both.rs\n");
    assert_eq!(s.len(), 3);
    assert_eq!(texts(&s[0]), vec![" M ", "src/a.rs"]);
    assert_eq!(s[0][0].look, fg(Tone::Amber));
    assert_eq!(s[1][0].look, fg(Tone::StoneStrong));
    assert_eq!(s[2][0].look, fg(Tone::Conflict));
    let d = parse_diff("diff --git a/x b/x\n--- a/x\n+++ b/x\n@@ -1 +1 @@\n-old\n+new\n same\n");
    let looks: Vec<Look> = d.iter().map(|l| l[0].look).collect();
    assert_eq!(
        looks,
        vec![
            strong(Tone::AmberStrong),
            fg(Tone::Stone),
            fg(Tone::Stone),
            fg(Tone::Amber),
            fg(Tone::Conflict),
            fg(Tone::Forest),
            fg(Tone::Stone),
        ]
    );
    assert_eq!(texts(&parse_diff("")[0]), vec!["no changes vs HEAD"]);
    assert_eq!(parse_markdown_raw("a\r\nb").len(), 2);
}

#[test]
fn markdown_renders_headings_lists_code_and_links() {
    let evs = vec![
        MdEvent::StartHeading(1),
        MdEvent::Text("Title".into()),
        MdEvent::EndHeading,
        MdEvent::StartList(Some(3)),
        MdEvent::StartItem,
        MdEvent::Text("one".into()),
        MdEvent::EndItem,
        MdEvent::StartItem,
        MdEvent::StartLink("https://x".into()),
        MdEvent::Text("two".into()),
        MdEvent::EndLink,
        MdEvent::EndItem,
        MdEvent::EndList,
        MdEvent::StartCodeBlock,
        MdEvent::Text("a\nb".into()),
        MdEvent::EndCodeBlock,
    ];
    let out = render_events(&evs);
    let lines: Vec<Vec<String>> = out.iter().map(|l| texts(l)).collect();
    assert_eq!(
        lines,
        vec![
            vec!["Title"],
            vec![],
            vec!["", "3. ", "one"],
            vec!["", "4. ", "two", " (https://x)"],
            vec![],
            vec!["    ", "a"],
            vec!["    ", "b"],
        ]
    );
    assert!(out[0][0].look.underlined);
    let parsed = render("# Hi\n\nsome *text*\n");
    let parsed: Vec<Vec<String>> = parsed.iter().map(|l| texts(l)).collect();
    assert_eq!(parsed, vec![vec!["Hi"], vec![], vec!["some ", "text"]]);
    assert_eq!(texts(&readme_lines("", true)[0]), vec!["no README found"]);
    assert_eq!(readme_lines("x\ny", false).len(), 2);
}
