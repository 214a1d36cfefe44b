//! The terminal interface's state and what each key, command and
//! background message does to it.
//!
//! Reading the disk, running `git` and drawing happen in the program
//! around this module: a transition here says what to do next as an
//! [`Effect`], and the program reports back what came of it. Times are
//! milliseconds on one monotonic clock that the program reads.

use vstd::prelude::*;
use crate::commands::{Cmd, CmdInfo, CmdRow, commands_for, filter_commands, row_of, rows_of};
pub use crate::model::{CiInfo, CiState};
use crate::model::SortMode;
use crate::order::{OrderRule, OrderView, is_display_order, lemma_display_order_unique, lemma_sorted_distinct, marked};
use crate::pathmap::{PathMap, drop_same_paths, lemma_drop_unmarked, lemma_marked_drop_same, lemma_marked_push, lookup, mark, unmark};
use crate::paths::{path_join, same_path, within};
use crate::github::{actions_url, actions_url_of, git_remote_to_https, github_owner_repo, https_of, owner_repo_of};
use crate::session::legacy_dir_of;
use crate::repo::{RepoStatus, spec_has_conflict, spec_is_clean, tag_line, tag_line_of};
use crate::text::{chars_of, decimal, decimal_of, string_of, strs, trim, trim_str};

verus! {

// ── the detail pane's sections ───────────────────────────────────────

/// The two sections of the detail pane that take the keyboard's focus.
#[derive(Debug, Clone, Copy, PartialEq, Eq, Structural)]
pub enum DetailSection {
    Status,
    Diff,
}

pub open spec fn next_section(s: DetailSection) -> DetailSection {
    match s {
        DetailSection::Status => DetailSection::Diff,
        DetailSection::Diff => DetailSection::Status,
    }
}

pub open spec fn section_label(s: DetailSection) -> Seq<char> {
    match s {
        DetailSection::Status => "status"@,
        DetailSection::Diff => "diff"@,
    }
}

impl DetailSection {
    /// The other section.
    pub fn next(self) -> (r: Self)
        ensures
            r == next_section(self),
    {
        match self {
            DetailSection::Status => DetailSection::Diff,
            DetailSection::Diff => DetailSection::Status,
        }
    }

    /// The section's title.
    pub fn label(self) -> (r: &'static str)
        ensures
            r@ == section_label(self),
    {
        match self {
            DetailSection::Status => "status",
            DetailSection::Diff => "diff",
        }
    }
}

/// Moving the focus on twice comes back to where it was.
pub proof fn lemma_next_section_twice(s: DetailSection)
    ensures
        next_section(next_section(s)) == s,
        next_section(s) != s,
{
}

// ── messages from the background ─────────────────────────────────────

/// What the background fetcher reports, one message at a time.
/// Repositories are named by their path.
#[derive(Debug, Clone)]
pub enum FetchMsg {
    CycleStarted,
    Started(String),
    Done(String),
    CiUpdate(String, Option<CiInfo>),
    PrUpdate(String, Option<usize>),
    CycleFinished,
}

// ── the state ────────────────────────────────────────────────────────

/// Everything the terminal interface shows and remembers.
pub struct App {
    pub repos: Vec<RepoStatus>,
    pub selected: usize,
    pub show_detail: bool,
    pub bases: Vec<String>,
    pub cols: usize,
    pub last_refresh: u64,
    pub focus: DetailSection,
    pub detail_cache_key: Option<String>,
    pub status_content: String,
    pub diff_content: String,
    pub release_tag: String,
    pub release_time_unix: u64,
    pub readme_content: String,
    pub readme_path: String,
    pub status_scroll: u16,
    pub diff_scroll: u16,
    pub readme_scroll: u16,
    pub show_readme: bool,
    pub readme_rendered: bool,
    pub show_stash: bool,
    pub stash_content: String,
    pub pinned: Vec<String>,
    pub hidden: Vec<String>,
    pub show_hidden: bool,
    pub palette_open: bool,
    pub palette_query: String,
    pub palette_selected: usize,
    pub filter_open: bool,
    pub filter_query: String,
    pub pending_lazygit: Option<String>,
    pub pending_shell: Option<String>,
    pub flash: Option<(String, u64)>,
    pub last_auto_fetch: Option<u64>,
    pub is_fetching: bool,
    pub fetching: Vec<String>,
    pub ci: PathMap<CiInfo>,
    pub prs: PathMap<usize>,
    pub sort_ci_first: bool,
}

/// The state as plain values. `ci` and `prs` keep their entries as they
/// are stored; what they answer is `lookup` of them.
pub struct AppView {
    pub repos: Seq<RepoStatus>,
    pub selected: usize,
    pub show_detail: bool,
    pub bases: Seq<Seq<char>>,
    pub cols: usize,
    pub last_refresh: u64,
    pub focus: DetailSection,
    pub detail_cache_key: Option<Seq<char>>,
    pub status_content: Seq<char>,
    pub diff_content: Seq<char>,
    pub release_tag: Seq<char>,
    pub release_time_unix: u64,
    pub readme_content: Seq<char>,
    pub readme_path: Seq<char>,
    pub status_scroll: u16,
    pub diff_scroll: u16,
    pub readme_scroll: u16,
    pub show_readme: bool,
    pub readme_rendered: bool,
    pub show_stash: bool,
    pub stash_content: Seq<char>,
    pub pinned: Seq<Seq<char>>,
    pub hidden: Seq<Seq<char>>,
    pub show_hidden: bool,
    pub palette_open: bool,
    pub palette_query: Seq<char>,
    pub palette_selected: usize,
    pub filter_open: bool,
    pub filter_query: Seq<char>,
    pub pending_lazygit: Option<Seq<char>>,
    pub pending_shell: Option<Seq<char>>,
    pub flash: Option<(Seq<char>, u64)>,
    pub last_auto_fetch: Option<u64>,
    pub is_fetching: bool,
    pub fetching: Seq<Seq<char>>,
    pub ci: Seq<(String, CiInfo)>,
    pub prs: Seq<(String, usize)>,
    pub sort_ci_first: bool,
}

pub open spec fn opt_text(o: Option<String>) -> Option<Seq<char>> {
    match o {
        Some(s) => Some(s@),
        None => None,
    }
}

pub open spec fn flash_text(o: Option<(String, u64)>) -> Option<(Seq<char>, u64)> {
    match o {
        Some((s, t)) => Some((s@, t)),
        None => None,
    }
}

impl View for App {
    type V = AppView;

    open spec fn view(&self) -> AppView {
        AppView {
            repos: self.repos@,
            selected: self.selected,
            show_detail: self.show_detail,
            bases: strs(self.bases@),
            cols: self.cols,
            last_refresh: self.last_refresh,
            focus: self.focus,
            detail_cache_key: opt_text(self.detail_cache_key),
            status_content: self.status_content@,
            diff_content: self.diff_content@,
            release_tag: self.release_tag@,
            release_time_unix: self.release_time_unix,
            readme_content: self.readme_content@,
            readme_path: self.readme_path@,
            status_scroll: self.status_scroll,
            diff_scroll: self.diff_scroll,
            readme_scroll: self.readme_scroll,
            show_readme: self.show_readme,
            readme_rendered: self.readme_rendered,
            show_stash: self.show_stash,
            stash_content: self.stash_content@,
            pinned: strs(self.pinned@),
            hidden: strs(self.hidden@),
            show_hidden: self.show_hidden,
            palette_open: self.palette_open,
            palette_query: self.palette_query@,
            palette_selected: self.palette_selected,
            filter_open: self.filter_open,
            filter_query: self.filter_query@,
            pending_lazygit: opt_text(self.pending_lazygit),
            pending_shell: opt_text(self.pending_shell),
            flash: flash_text(self.flash),
            last_auto_fetch: self.last_auto_fetch,
            is_fetching: self.is_fetching,
            fetching: strs(self.fetching@),
            ci: self.ci.entries@,
            prs: self.prs.entries@,
            sort_ci_first: self.sort_ci_first,
        }
    }
}

/// The state at start-up: the repositories read, the folders scanned,
/// the pins, the hidden repositories and whether they are shown, as
/// remembered; the detail pane open on
/// the first repository's status, everything else closed or empty.
pub open spec fn initial(
    repos: Seq<RepoStatus>,
    bases: Seq<Seq<char>>,
    pinned: Seq<Seq<char>>,
    hidden: Seq<Seq<char>>,
    show_hidden: bool,
    now: u64,
) -> AppView {
    AppView {
        repos: repos,
        selected: 0,
        show_detail: true,
        bases: bases,
        cols: 1,
        last_refresh: now,
        focus: DetailSection::Status,
        detail_cache_key: None,
        status_content: Seq::empty(),
        diff_content: Seq::empty(),
        release_tag: Seq::empty(),
        release_time_unix: 0,
        readme_content: Seq::empty(),
        readme_path: Seq::empty(),
        status_scroll: 0,
        diff_scroll: 0,
        readme_scroll: 0,
        show_readme: false,
        readme_rendered: true,
        show_stash: false,
        stash_content: Seq::empty(),
        pinned: pinned,
        hidden: hidden,
        show_hidden: show_hidden,
        palette_open: false,
        palette_query: Seq::empty(),
        palette_selected: 0,
        filter_open: false,
        filter_query: Seq::empty(),
        pending_lazygit: None,
        pending_shell: None,
        flash: None,
        last_auto_fetch: None,
        is_fetching: false,
        fetching: Seq::empty(),
        ci: Seq::empty(),
        prs: Seq::empty(),
        sort_ci_first: false,
    }
}

fn empty_text() -> (s: String)
    ensures
        s@ == Seq::<char>::empty(),
{
    String::new()
}

impl App {
    /// The state at start-up.
    pub fn new(
        repos: Vec<RepoStatus>,
        bases: Vec<String>,
        pinned: Vec<String>,
        hidden: Vec<String>,
        show_hidden: bool,
        now: u64,
    ) -> (a: App)
        ensures
            a@ == initial(repos@, strs(bases@), strs(pinned@), strs(hidden@), show_hidden, now),
    {
        let a = App {
            repos,
            selected: 0,
            show_detail: true,
            bases,
            cols: 1,
            last_refresh: now,
            focus: DetailSection::Status,
            detail_cache_key: None,
            status_content: empty_text(),
            diff_content: empty_text(),
            release_tag: empty_text(),
            release_time_unix: 0,
            readme_content: empty_text(),
            readme_path: empty_text(),
            status_scroll: 0,
            diff_scroll: 0,
            readme_scroll: 0,
            show_readme: false,
            readme_rendered: true,
            show_stash: false,
            stash_content: empty_text(),
            pinned,
            hidden,
            show_hidden,
            palette_open: false,
            palette_query: empty_text(),
            palette_selected: 0,
            filter_open: false,
            filter_query: empty_text(),
            pending_lazygit: None,
            pending_shell: None,
            flash: None,
            last_auto_fetch: None,
            is_fetching: false,
            fetching: Vec::new(),
            ci: PathMap { entries: Vec::new() },
            prs: PathMap { entries: Vec::new() },
            sort_ci_first: false,
        };
        assert(strs(a.fetching@) =~= Seq::<Seq<char>>::empty());
        assert(a@ =~= initial(a.repos@, strs(a.bases@), strs(a.pinned@), strs(a.hidden@), show_hidden, now));
        a
    }
}

// ── the message line ─────────────────────────────────────────────────

pub open spec fn with_flash(v: AppView, msg: Seq<char>, now: u64) -> AppView {
    AppView { flash: Some((msg, now)), ..v }
}

impl App {
    /// Show `s` on the message line, from `now`.
    pub fn flash_msg(&mut self, s: String, now: u64)
        ensures
            final(self)@ == with_flash(old(self)@, s@, now),
    {
        self.flash = Some((s, now));
    }
}

pub(crate) fn concat(a: &str, b: &str) -> (r: String)
    ensures
        r@ == a@ + b@,
{
    let mut cs = chars_of(a);
    let bs = chars_of(b);
    crate::text::append_chars(&mut cs, &bs);
    string_of(&cs)
}

pub(crate) fn concat3(a: &str, b: &str, c: &str) -> (r: String)
    ensures
        r@ == a@ + b@ + c@,
{
    let ab = concat(a, b);
    concat(ab.as_str(), c)
}

// ── scrolling ────────────────────────────────────────────────────────

/// The three scrollable panes.
#[derive(Debug, Clone, Copy, PartialEq, Eq, Structural)]
pub enum Pane {
    Readme,
    Status,
    Diff,
}

/// The pane that scrolls: the readme when it is open, else the focused section.
pub open spec fn focused_pane(v: AppView) -> Pane {
    if v.show_readme {
        Pane::Readme
    } else {
        match v.focus {
            DetailSection::Status => Pane::Status,
            DetailSection::Diff => Pane::Diff,
        }
    }
}

pub open spec fn scroll_of(v: AppView, p: Pane) -> u16 {
    match p {
        Pane::Readme => v.readme_scroll,
        Pane::Status => v.status_scroll,
        Pane::Diff => v.diff_scroll,
    }
}

pub open spec fn with_scroll(v: AppView, p: Pane, x: u16) -> AppView {
    match p {
        Pane::Readme => AppView { readme_scroll: x, ..v },
        Pane::Status => AppView { status_scroll: x, ..v },
        Pane::Diff => AppView { diff_scroll: x, ..v },
    }
}

impl App {
    /// The scroll offset of the pane that has the focus.
    pub fn focused_scroll_mut(&mut self) -> (r: &mut u16)
        ensures
            *r == scroll_of(old(self)@, focused_pane(old(self)@)),
            final(self)@ == with_scroll(old(self)@, focused_pane(old(self)@), *final(r)),
    {
        if self.show_readme {
            return &mut self.readme_scroll;
        }
        match self.focus {
            DetailSection::Status => &mut self.status_scroll,
            DetailSection::Diff => &mut self.diff_scroll,
        }
    }
}

// ── the order on screen ──────────────────────────────────────────────

/// The terminal's ordering rule: its filter, its hidden and pinned
/// repositories, state before name, no base folder chosen.
pub open spec fn order_rule(v: AppView) -> OrderRule {
    OrderRule {
        repos: v.repos,
        filter_query: v.filter_query,
        show_hidden: v.show_hidden,
        hidden: v.hidden,
        pinned: v.pinned,
        bases: Seq::empty(),
        base_filter: None,
        sort_mode: SortMode::Default,
    }
}

/// The repositories on screen, in order (there is only one such order).
pub open spec fn order_of(v: AppView) -> Seq<usize> {
    choose|r: Seq<usize>| is_display_order(order_rule(v), r)
}

/// An order that the rule asks for is the order on screen.
pub proof fn lemma_order_of(v: AppView, r: Seq<usize>)
    requires
        is_display_order(order_rule(v), r),
    ensures
        order_of(v) == r,
        forall|a: int, b: int| 0 <= a < b < r.len() ==> r[a] != r[b],
{
    assert(exists|x: Seq<usize>| is_display_order(order_rule(v), x));
    let c = order_of(v);
    lemma_display_order_unique(order_rule(v), c, r);
    lemma_sorted_distinct(order_rule(v), r);
}

/// The repositories on screen, as indices into `app.repos`.
pub fn display_order(app: &App) -> (r: Vec<usize>)
    ensures
        r@ == order_of(app@),
        is_display_order(order_rule(app@), r@),
{
    let none: Vec<String> = Vec::new();
    let v = OrderView {
        repos: app.repos.as_slice(),
        filter_query: app.filter_query.as_str(),
        show_hidden: app.show_hidden,
        hidden: app.hidden.as_slice(),
        pinned: app.pinned.as_slice(),
        bases: none.as_slice(),
        base_filter: None,
        sort_mode: SortMode::Default,
    };
    assert(strs(none@) =~= Seq::<Seq<char>>::empty());
    assert(v@ == order_rule(app@));
    let r = crate::order::display_order(&v);
    proof {
        lemma_order_of(app@, r@);
    }
    r
}

/// The first place of `x` in `o`, or `o.len()` when it is not there.
pub open spec fn index_in(o: Seq<usize>, x: usize) -> int
    decreases o.len(),
{
    if o.len() == 0 {
        0
    } else if o[0] == x {
        0
    } else {
        1 + index_in(o.drop_first(), x)
    }
}

proof fn lemma_index_in(o: Seq<usize>, x: usize, i: int)
    requires
        0 <= i <= o.len(),
        forall|k: int| 0 <= k < i ==> o[k] != x,
        i == o.len() || o[i] == x,
    ensures
        index_in(o, x) == i,
    decreases i,
{
    if i > 0 {
        let rest = o.drop_first();
        assert forall|k: int| 0 <= k < i - 1 implies rest[k] != x by {
            assert(rest[k] == o[k + 1]);
        }
        if i < o.len() {
            assert(rest[i - 1] == o[i]);
        }
        lemma_index_in(rest, x, i - 1);
    }
}

fn position_in(o: &Vec<usize>, x: usize) -> (r: usize)
    ensures
        r == index_in(o@, x),
        r <= o@.len(),
        r < o@.len() <==> o@.contains(x),
        r < o@.len() ==> o@[r as int] == x,
{
    let mut k: usize = 0;
    while k < o.len()
        invariant
            k <= o@.len(),
            forall|m: int| 0 <= m < k ==> o@[m] != x,
        decreases o.len() - k,
    {
        if o[k] == x {
            proof {
                lemma_index_in(o@, x, k as int);
            }
            return k;
        }
        k = k + 1;
    }
    proof {
        lemma_index_in(o@, x, k as int);
    }
    k
}

/// The selection, moved into the order on screen when the order leaves
/// it out: to the first repository shown, with the detail pane reloaded.
pub open spec fn reselected(v: AppView) -> AppView {
    let o = order_of(v);
    if o.len() == 0 || o.contains(v.selected) {
        v
    } else {
        AppView { selected: o[0], detail_cache_key: None, ..v }
    }
}

impl App {
    /// Keep the selection among the repositories shown.
    pub fn reselect_into_order(&mut self)
        ensures
            final(self)@ == reselected(old(self)@),
    {
        let order = display_order(self);
        if order.len() == 0 {
            return;
        }
        let at = position_in(&order, self.selected);
        if at == order.len() {
            self.selected = order[0];
            self.detail_cache_key = None;
        }
    }
}

/// Whatever the state, after `reselect_into_order` the selection is a
/// repository on screen, unless none is.
pub proof fn lemma_reselected_on_screen(v: AppView)
    ensures
        order_of(reselected(v)) == order_of(v),
        order_of(v).len() > 0 ==> order_of(v).contains(reselected(v).selected),
{
    assert(order_rule(reselected(v)) == order_rule(v));
}

// ── moving the selection ─────────────────────────────────────────────

/// A step of the selection across the grid.
#[derive(Debug, Clone, Copy, PartialEq, Eq, Structural)]
pub enum Move {
    Left,
    Right,
    Up,
    Down,
}

/// Where a step from place `cur` lands in a grid of `cols` columns
/// (at least one) holding `n` tiles: one place for a step sideways, a row
/// for a step up or down, held to the first and the last tile.
pub open spec fn step_target(cur: int, m: Move, cols: usize, n: int) -> int {
    let c = if cols == 0 {
        1
    } else {
        cols as int
    };
    let t = match m {
        Move::Left => cur - 1,
        Move::Right => cur + 1,
        Move::Up => cur - c,
        Move::Down => cur + c,
    };
    if t < 0 {
        0
    } else if t >= n {
        n - 1
    } else {
        t
    }
}

/// The selection after a step: from its place on screen (the first
/// place when it is not shown), to the repository where the step lands.
pub open spec fn moved(v: AppView, m: Move) -> AppView {
    let o = order_of(v);
    if o.len() == 0 {
        v
    } else {
        let i = index_in(o, v.selected);
        let cur = if i < o.len() {
            i
        } else {
            0
        };
        AppView { selected: o[step_target(cur, m, v.cols, o.len() as int)], ..v }
    }
}

impl App {
    /// Move the selection one step across the grid.
    pub fn move_sel(&mut self, m: Move)
        ensures
            final(self)@ == moved(old(self)@, m),
    {
        let order = display_order(self);
        let n = order.len();
        if n == 0 {
            return;
        }
        let i = position_in(&order, self.selected);
        let cur = if i < n {
            i
        } else {
            0
        };
        let c = if self.cols == 0 {
            1
        } else {
            self.cols
        };
        let pos = match m {
            Move::Left => {
                if cur == 0 {
                    0
                } else {
                    cur - 1
                }
            },
            Move::Right => {
                if cur + 1 >= n {
                    n - 1
                } else {
                    cur + 1
                }
            },
            Move::Up => {
                if cur < c {
                    0
                } else {
                    cur - c
                }
            },
            Move::Down => {
                if c >= n - cur {
                    n - 1
                } else {
                    cur + c
                }
            },
        };
        assert(pos == step_target(cur as int, m, self.cols, n as int));
        self.selected = order[pos];
    }
}

/// A step never leaves the repositories on screen: after it the
/// selection is one of them, unless none is shown.
pub proof fn lemma_moved_on_screen(v: AppView, m: Move)
    ensures
        order_of(moved(v, m)) == order_of(v),
        order_of(v).len() > 0 ==> order_of(v).contains(moved(v, m).selected),
{
    assert(order_rule(moved(v, m)) == order_rule(v));
    let o = order_of(v);
    if o.len() > 0 {
        let i = index_in(o, v.selected);
        let cur = if i < o.len() {
            i
        } else {
            0
        };
        let t = step_target(cur, m, v.cols, o.len() as int);
        assert(0 <= t < o.len());
        assert(o[t] == moved(v, m).selected);
    }
}

// ── what a key or a command asks of the program ──────────────────────

/// What the program does after a transition. Repositories are named by
/// their index in `repos`.
#[derive(Debug, Clone, Copy, PartialEq, Eq, Structural)]
pub enum Effect {
    Nothing,
    Quit,
    /// Read every repository's status again.
    RefreshAll,
    /// `git fetch` the repository in the background.
    Fetch(usize),
    /// `git pull --ff-only` the repository in the background.
    Pull(usize),
    OpenEditor(usize),
    OpenGitHub(usize),
    OpenActions(usize),
    CopyPath(usize),
    /// Write the pinned repositories out.
    SavePins,
    /// Write the hidden repositories out.
    SaveHidden,
    /// Write whether hidden repositories are shown.
    SaveShowHidden,
}

/// The repository the selection is on, if any.
pub open spec fn selected_repo(v: AppView) -> Option<RepoStatus> {
    if v.selected < v.repos.len() {
        Some(v.repos[v.selected as int])
    } else {
        None
    }
}

/// `e` when a repository is selected; nothing otherwise.
pub open spec fn on_selected(v: AppView, e: Effect) -> (AppView, Effect) {
    if v.selected < v.repos.len() {
        (v, e)
    } else {
        (v, Effect::Nothing)
    }
}

pub open spec fn pin_toggled(v: AppView, now: u64) -> (AppView, Effect) {
    match selected_repo(v) {
        None => (v, Effect::Nothing),
        Some(r) => if marked(v.pinned, r.path@) {
            (
                with_flash(AppView { pinned: drop_same_paths(v.pinned, r.path@), ..v }, "unpinned "@ + r.name@, now),
                Effect::SavePins,
            )
        } else {
            (with_flash(AppView { pinned: v.pinned.push(r.path@), ..v }, "pinned "@ + r.name@, now), Effect::SavePins)
        },
    }
}

/// With hidden repositories not shown, a selection that is no longer on
/// screen goes to the first repository that is.
pub open spec fn keep_shown(v: AppView) -> AppView {
    if v.show_hidden {
        v
    } else {
        let o = order_of(v);
        if o.len() > 0 && !o.contains(v.selected) {
            AppView { selected: o[0], ..v }
        } else {
            v
        }
    }
}

pub open spec fn hide_toggled(v: AppView, now: u64) -> (AppView, Effect) {
    match selected_repo(v) {
        None => (v, Effect::Nothing),
        Some(r) => if marked(v.hidden, r.path@) {
            (
                with_flash(AppView { hidden: drop_same_paths(v.hidden, r.path@), ..v }, "unhid "@ + r.name@, now),
                Effect::SaveHidden,
            )
        } else {
            (
                keep_shown(
                    with_flash(
                        AppView { hidden: v.hidden.push(r.path@), ..v },
                        "hid "@ + r.name@ + "  ·  press . to toggle hidden"@,
                        now,
                    ),
                ),
                Effect::SaveHidden,
            )
        },
    }
}

pub open spec fn show_hidden_toggled(v: AppView, now: u64) -> AppView {
    let sh = !v.show_hidden;
    with_flash(
        AppView { show_hidden: sh, ..v },
        if sh {
            "showing hidden repos"@
        } else {
            "hiding muted repos"@
        },
        now,
    )
}

pub open spec fn sort_ci_toggled(v: AppView, now: u64) -> AppView {
    let s = !v.sort_ci_first;
    with_flash(
        AppView { sort_ci_first: s, ..v },
        if s {
            "sort: ci red first"@
        } else {
            "sort: default"@
        },
        now,
    )
}

/// Start a background `git fetch` (or pull) of the selected repository.
pub open spec fn background_git(v: AppView, pull: bool, now: u64) -> (AppView, Effect) {
    match selected_repo(v) {
        None => (v, Effect::Nothing),
        Some(r) => if pull {
            (with_flash(v, "pulling "@ + r.name@ + "…"@, now), Effect::Pull(v.selected))
        } else {
            (with_flash(v, "fetching "@ + r.name@ + "…"@, now), Effect::Fetch(v.selected))
        },
    }
}

/// Leave for lazygit (or a shell) on the selected repository once the
/// screen is drawn.
pub open spec fn suspend_for(v: AppView, shell: bool) -> AppView {
    match selected_repo(v) {
        None => v,
        Some(r) => if shell {
            AppView { pending_shell: Some(r.path@), ..v }
        } else {
            AppView { pending_lazygit: Some(r.path@), ..v }
        },
    }
}

pub open spec fn focus_on(v: AppView, s: DetailSection) -> AppView {
    AppView { show_detail: true, show_readme: false, focus: s, ..v }
}

/// What a palette command does.
pub open spec fn cmd_step(v: AppView, cmd: Cmd, now: u64) -> (AppView, Effect) {
    match cmd {
        Cmd::Pin => pin_toggled(v, now),
        Cmd::Hide => hide_toggled(v, now),
        Cmd::ToggleShowHidden => (show_hidden_toggled(v, now), Effect::SaveShowHidden),
        Cmd::OpenEditor => on_selected(v, Effect::OpenEditor(v.selected)),
        Cmd::OpenLazyGit => (suspend_for(v, false), Effect::Nothing),
        Cmd::OpenShell => (suspend_for(v, true), Effect::Nothing),
        Cmd::OpenGitHub => on_selected(v, Effect::OpenGitHub(v.selected)),
        Cmd::OpenActions => on_selected(v, Effect::OpenActions(v.selected)),
        Cmd::ToggleStash => (
            AppView { show_detail: true, show_readme: false, show_stash: !v.show_stash, ..v },
            Effect::Nothing,
        ),
        Cmd::ToggleSortCi => (sort_ci_toggled(v, now), Effect::Nothing),
        Cmd::CopyPath => on_selected(v, Effect::CopyPath(v.selected)),
        Cmd::RefreshAll => (with_flash(AppView { detail_cache_key: None, ..v }, "refreshed"@, now), Effect::RefreshAll),
        Cmd::FetchFocused => background_git(v, false, now),
        Cmd::PullFocused => background_git(v, true, now),
        Cmd::ToggleDetail => (AppView { show_detail: !v.show_detail, ..v }, Effect::Nothing),
        Cmd::ToggleReadme => (AppView { show_detail: true, show_readme: !v.show_readme, ..v }, Effect::Nothing),
        Cmd::ToggleMarkdownMode => if v.show_readme {
            (AppView { readme_rendered: !v.readme_rendered, readme_scroll: 0, ..v }, Effect::Nothing)
        } else {
            (with_flash(v, "open readme first"@, now), Effect::Nothing)
        },
        Cmd::FocusStatus => (focus_on(v, DetailSection::Status), Effect::Nothing),
        Cmd::FocusDiff => (focus_on(v, DetailSection::Diff), Effect::Nothing),
        Cmd::Filter => (AppView { filter_open: true, ..v }, Effect::Nothing),
        Cmd::Quit => (v, Effect::Quit),
    }
}

fn is_selected(app: &App) -> (r: bool)
    ensures
        r == (app.selected < app.repos@.len()),
{
    app.selected < app.repos.len()
}

impl App {
    /// Pin the selected repository, or unpin it.
    pub fn toggle_pin(&mut self, now: u64) -> (e: Effect)
        ensures
            (final(self)@, e) == pin_toggled(old(self)@, now),
    {
        if self.selected >= self.repos.len() {
            return Effect::Nothing;
        }
        let path = self.repos[self.selected].path.clone();
        let name = self.repos[self.selected].name.clone();
        if crate::order::contains_path(self.pinned.as_slice(), path.as_str()) {
            unmark(&mut self.pinned, path.as_str());
            self.flash_msg(concat("unpinned ", name.as_str()), now);
        } else {
            mark(&mut self.pinned, path);
            self.flash_msg(concat("pinned ", name.as_str()), now);
        }
        Effect::SavePins
    }

    fn keep_selection_shown(&mut self)
        ensures
            final(self)@ == keep_shown(old(self)@),
    {
        if !self.show_hidden {
            let order = display_order(self);
            if order.len() > 0 {
                let at = position_in(&order, self.selected);
                if at == order.len() {
                    self.selected = order[0];
                }
            }
        }
    }

    /// Hide the selected repository, or show it again.
    pub fn toggle_hidden(&mut self, now: u64) -> (e: Effect)
        ensures
            (final(self)@, e) == hide_toggled(old(self)@, now),
    {
        if self.selected >= self.repos.len() {
            return Effect::Nothing;
        }
        let path = self.repos[self.selected].path.clone();
        let name = self.repos[self.selected].name.clone();
        if crate::order::contains_path(self.hidden.as_slice(), path.as_str()) {
            unmark(&mut self.hidden, path.as_str());
            self.flash_msg(concat("unhid ", name.as_str()), now);
        } else {
            mark(&mut self.hidden, path);
            self.flash_msg(concat3("hid ", name.as_str(), "  ·  press . to toggle hidden"), now);
            self.keep_selection_shown();
        }
        Effect::SaveHidden
    }

    fn toggle_show_hidden(&mut self, now: u64)
        ensures
            final(self)@ == show_hidden_toggled(old(self)@, now),
    {
        self.show_hidden = !self.show_hidden;
        let msg = if self.show_hidden {
            "showing hidden repos"
        } else {
            "hiding muted repos"
        };
        self.flash_msg(string_of(&chars_of(msg)), now);
    }

    fn toggle_sort_ci(&mut self, now: u64)
        ensures
            final(self)@ == sort_ci_toggled(old(self)@, now),
    {
        self.sort_ci_first = !self.sort_ci_first;
        let msg = if self.sort_ci_first {
            "sort: ci red first"
        } else {
            "sort: default"
        };
        self.flash_msg(string_of(&chars_of(msg)), now);
    }

    fn start_background_git(&mut self, pull: bool, now: u64) -> (e: Effect)
        ensures
            (final(self)@, e) == background_git(old(self)@, pull, now),
    {
        if self.selected >= self.repos.len() {
            return Effect::Nothing;
        }
        let name = self.repos[self.selected].name.clone();
        if pull {
            self.flash_msg(concat3("pulling ", name.as_str(), "…"), now);
            Effect::Pull(self.selected)
        } else {
            self.flash_msg(concat3("fetching ", name.as_str(), "…"), now);
            Effect::Fetch(self.selected)
        }
    }

    fn suspend(&mut self, shell: bool)
        ensures
            final(self)@ == suspend_for(old(self)@, shell),
    {
        if self.selected < self.repos.len() {
            let path = self.repos[self.selected].path.clone();
            if shell {
                self.pending_shell = Some(path);
            } else {
                self.pending_lazygit = Some(path);
            }
        }
    }

    fn focus_section(&mut self, s: DetailSection)
        ensures
            final(self)@ == focus_on(old(self)@, s),
    {
        self.show_detail = true;
        self.show_readme = false;
        self.focus = s;
    }

    /// Carry out a palette command.
    #[verifier::spinoff_prover]
    #[verifier::rlimit(40)]
    pub fn execute_cmd(&mut self, cmd: Cmd, now: u64) -> (e: Effect)
        ensures
            (final(self)@, e) == cmd_step(old(self)@, cmd, now),
    {
        match cmd {
            Cmd::Pin => self.toggle_pin(now),
            Cmd::Hide => self.toggle_hidden(now),
            Cmd::ToggleShowHidden => {
                self.toggle_show_hidden(now);
                Effect::SaveShowHidden
            },
            Cmd::OpenEditor => if is_selected(self) {
                Effect::OpenEditor(self.selected)
            } else {
                Effect::Nothing
            },
            Cmd::OpenLazyGit => {
                self.suspend(false);
                Effect::Nothing
            },
            Cmd::OpenShell => {
                self.suspend(true);
                Effect::Nothing
            },
            Cmd::OpenGitHub => if is_selected(self) {
                Effect::OpenGitHub(self.selected)
            } else {
                Effect::Nothing
            },
            Cmd::OpenActions => if is_selected(self) {
                Effect::OpenActions(self.selected)
            } else {
                Effect::Nothing
            },
            Cmd::ToggleStash => {
                self.show_detail = true;
                self.show_readme = false;
                self.show_stash = !self.show_stash;
                Effect::Nothing
            },
            Cmd::ToggleSortCi => {
                self.toggle_sort_ci(now);
                Effect::Nothing
            },
            Cmd::CopyPath => if is_selected(self) {
                Effect::CopyPath(self.selected)
            } else {
                Effect::Nothing
            },
            Cmd::RefreshAll => {
                self.detail_cache_key = None;
                self.flash_msg(string_of(&chars_of("refreshed")), now);
                Effect::RefreshAll
            },
            Cmd::FetchFocused => self.start_background_git(false, now),
            Cmd::PullFocused => self.start_background_git(true, now),
            Cmd::ToggleDetail => {
                self.show_detail = !self.show_detail;
                Effect::Nothing
            },
            Cmd::ToggleReadme => {
                self.show_detail = true;
                self.show_readme = !self.show_readme;
                Effect::Nothing
            },
            Cmd::ToggleMarkdownMode => {
                if self.show_readme {
                    self.readme_rendered = !self.readme_rendered;
                    self.readme_scroll = 0;
                } else {
                    self.flash_msg(string_of(&chars_of("open readme first")), now);
                }
                Effect::Nothing
            },
            Cmd::FocusStatus => {
                self.focus_section(DetailSection::Status);
                Effect::Nothing
            },
            Cmd::FocusDiff => {
                self.focus_section(DetailSection::Diff);
                Effect::Nothing
            },
            Cmd::Filter => {
                self.filter_open = true;
                Effect::Nothing
            },
            Cmd::Quit => Effect::Quit,
        }
    }
}

// ── keys ─────────────────────────────────────────────────────────────

/// A key pressed (releases and repeats are not passed on).
#[derive(Debug, Clone, Copy, PartialEq, Eq, Structural)]
pub enum Key {
    Char(char),
    Esc,
    Enter,
    Backspace,
    Up,
    Down,
    Left,
    Right,
    Tab,
    PageUp,
    PageDown,
    Other,
}

/// `String::pop`: the text without its last character.
pub open spec fn pop_last(s: Seq<char>) -> Seq<char> {
    if s.len() > 0 {
        s.drop_last()
    } else {
        s
    }
}

fn pushed(s: &String, c: char) -> (r: String)
    ensures
        r@ == s@.push(c),
{
    let mut cs = chars_of(s.as_str());
    cs.push(c);
    string_of(&cs)
}

fn popped(s: &String) -> (r: String)
    ensures
        r@ == pop_last(s@),
{
    let mut cs = chars_of(s.as_str());
    if cs.len() > 0 {
        cs.pop();
    }
    string_of(&cs)
}

pub open spec fn is_ctrl_c(k: Key, ctrl: bool) -> bool {
    k == Key::Char('c') && ctrl
}

/// A key while the filter line is open: typing edits the filter, Enter
/// keeps it, Esc drops it; the selection follows what stays on screen.
pub open spec fn filter_key(v: AppView, k: Key, ctrl: bool) -> (AppView, Effect) {
    if is_ctrl_c(k, ctrl) {
        (v, Effect::Quit)
    } else {
        match k {
            Key::Char(c) => (reselected(AppView { filter_query: v.filter_query.push(c), ..v }), Effect::Nothing),
            Key::Esc => (reselected(AppView { filter_open: false, filter_query: Seq::empty(), ..v }), Effect::Nothing),
            Key::Enter => (reselected(AppView { filter_open: false, ..v }), Effect::Nothing),
            Key::Backspace => (reselected(AppView { filter_query: pop_last(v.filter_query), ..v }), Effect::Nothing),
            _ => (v, Effect::Nothing),
        }
    }
}

/// The palette closed, its query cleared and its selection back at the top.
pub open spec fn palette_closed(v: AppView) -> AppView {
    AppView { palette_open: false, palette_query: Seq::empty(), palette_selected: 0, ..v }
}

/// Enter in the palette: close it, then run the chosen command, if any.
pub open spec fn palette_enter(v: AppView, now: u64) -> (AppView, Effect) {
    let rows = commands_for(v.palette_query);
    if v.palette_selected < rows.len() {
        cmd_step(palette_closed(v), rows[v.palette_selected as int].0, now)
    } else {
        (palette_closed(v), Effect::Nothing)
    }
}

/// A key while the palette is open: typing narrows the list, the arrows
/// move within it, Enter runs the chosen command, Esc closes it.
pub open spec fn palette_key(v: AppView, k: Key, ctrl: bool, now: u64) -> (AppView, Effect) {
    if is_ctrl_c(k, ctrl) {
        (v, Effect::Quit)
    } else {
        let rows = commands_for(v.palette_query);
        match k {
            Key::Char(c) => (AppView { palette_query: v.palette_query.push(c), palette_selected: 0, ..v }, Effect::Nothing),
            Key::Esc => (palette_closed(v), Effect::Nothing),
            Key::Enter => palette_enter(v, now),
            Key::Up => (
                AppView {
                    palette_selected: if v.palette_selected == 0 {
                        0
                    } else {
                        (v.palette_selected - 1) as usize
                    },
                    ..v
                },
                Effect::Nothing,
            ),
            Key::Down => if rows.len() > 0 && v.palette_selected + 1 < rows.len() {
                (AppView { palette_selected: (v.palette_selected + 1) as usize, ..v }, Effect::Nothing)
            } else {
                (v, Effect::Nothing)
            },
            Key::Backspace => (
                AppView { palette_query: pop_last(v.palette_query), palette_selected: 0, ..v },
                Effect::Nothing,
            ),
            _ => (v, Effect::Nothing),
        }
    }
}

/// A scroll of the focused pane by ten lines, held to the range of `u16`.
pub open spec fn scrolled(v: AppView, down: bool) -> AppView {
    let p = focused_pane(v);
    let x = scroll_of(v, p);
    with_scroll(
        v,
        p,
        if down {
            if x + 10 > u16::MAX {
                u16::MAX
            } else {
                (x + 10) as u16
            }
        } else {
            if x < 10 {
                0
            } else {
                (x - 10) as u16
            }
        },
    )
}

/// A key on the grid itself.
pub open spec fn grid_key(v: AppView, k: Key, ctrl: bool, now: u64) -> (AppView, Effect) {
    match k {
        Key::Char(c) => if c == ':' {
            (AppView { palette_open: true, palette_query: Seq::empty(), palette_selected: 0, ..v }, Effect::Nothing)
        } else if c == '/' {
            (AppView { filter_open: true, ..v }, Effect::Nothing)
        } else if c == 'q' {
            (v, Effect::Quit)
        } else if c == 'c' && ctrl {
            (v, Effect::Quit)
        } else if c == 'r' {
            (AppView { detail_cache_key: None, ..v }, Effect::RefreshAll)
        } else if c == 'F' {
            background_git(v, false, now)
        } else if c == 'P' {
            background_git(v, true, now)
        } else if c == 'h' {
            (moved(v, Move::Left), Effect::Nothing)
        } else if c == 'l' {
            (moved(v, Move::Right), Effect::Nothing)
        } else if c == 'k' {
            (moved(v, Move::Up), Effect::Nothing)
        } else if c == 'j' {
            (moved(v, Move::Down), Effect::Nothing)
        } else if c == '1' {
            (focus_on(v, DetailSection::Status), Effect::Nothing)
        } else if c == '2' {
            (focus_on(v, DetailSection::Diff), Effect::Nothing)
        } else if c == 'i' {
            (AppView { show_detail: true, show_stash: false, show_readme: !v.show_readme, ..v }, Effect::Nothing)
        } else if c == 'S' {
            (AppView { show_detail: true, show_readme: false, show_stash: !v.show_stash, ..v }, Effect::Nothing)
        } else if c == 'm' {
            if v.show_readme {
                (AppView { readme_rendered: !v.readme_rendered, readme_scroll: 0, ..v }, Effect::Nothing)
            } else {
                (v, Effect::Nothing)
            }
        } else if c == 'x' {
            hide_toggled(v, now)
        } else if c == '.' {
            (show_hidden_toggled(v, now), Effect::SaveShowHidden)
        } else if c == 'p' {
            pin_toggled(v, now)
        } else if c == 'e' {
            on_selected(v, Effect::OpenEditor(v.selected))
        } else if c == 'o' {
            (suspend_for(v, false), Effect::Nothing)
        } else if c == 's' {
            (suspend_for(v, true), Effect::Nothing)
        } else if c == 'g' {
            on_selected(v, Effect::OpenGitHub(v.selected))
        } else if c == 'A' {
            on_selected(v, Effect::OpenActions(v.selected))
        } else if c == 'O' {
            (sort_ci_toggled(v, now), Effect::Nothing)
        } else if c == 'y' {
            on_selected(v, Effect::CopyPath(v.selected))
        } else {
            (v, Effect::Nothing)
        },
        Key::Esc => (v, Effect::Quit),
        Key::Left => (moved(v, Move::Left), Effect::Nothing),
        Key::Right => (moved(v, Move::Right), Effect::Nothing),
        Key::Up => (moved(v, Move::Up), Effect::Nothing),
        Key::Down => (moved(v, Move::Down), Effect::Nothing),
        Key::Enter => (AppView { show_detail: !v.show_detail, ..v }, Effect::Nothing),
        Key::Tab => if v.show_detail {
            (AppView { focus: next_section(v.focus), ..v }, Effect::Nothing)
        } else {
            (AppView { show_detail: true, ..v }, Effect::Nothing)
        },
        Key::PageDown => (scrolled(v, true), Effect::Nothing),
        Key::PageUp => (scrolled(v, false), Effect::Nothing),
        _ => (v, Effect::Nothing),
    }
}

/// What a key press does: to the filter line when it is open, else to
/// the palette when it is open, else to the grid.
pub open spec fn key_step(v: AppView, k: Key, ctrl: bool, now: u64) -> (AppView, Effect) {
    if v.filter_open {
        filter_key(v, k, ctrl)
    } else if v.palette_open {
        palette_key(v, k, ctrl, now)
    } else {
        grid_key(v, k, ctrl, now)
    }
}

impl App {
    fn on_filter_key(&mut self, k: Key, ctrl: bool) -> (e: Effect)
        ensures
            (final(self)@, e) == filter_key(old(self)@, k, ctrl),
    {
        if k == Key::Char('c') && ctrl {
            return Effect::Quit;
        }
        match k {
            Key::Char(c) => {
                self.filter_query = pushed(&self.filter_query, c);
                self.reselect_into_order();
            },
            Key::Esc => {
                self.filter_open = false;
                self.filter_query = empty_text();
                self.reselect_into_order();
            },
            Key::Enter => {
                self.filter_open = false;
                self.reselect_into_order();
            },
            Key::Backspace => {
                self.filter_query = popped(&self.filter_query);
                self.reselect_into_order();
            },
            _ => {},
        }
        Effect::Nothing
    }

    fn close_palette(&mut self)
        ensures
            final(self)@ == palette_closed(old(self)@),
    {
        self.palette_open = false;
        self.palette_query = empty_text();
        self.palette_selected = 0;
    }

    fn on_palette_enter(&mut self, now: u64) -> (e: Effect)
        ensures
            (final(self)@, e) == palette_enter(old(self)@, now),
    {
        let matches = filter_commands(self.palette_query.as_str());
        let sel = self.palette_selected;
        self.close_palette();
        if sel < matches.len() {
            let c = matches[sel].cmd;
            assert(c == commands_for(old(self)@.palette_query)[sel as int].0) by {
                assert(rows_of(matches@)[sel as int] == row_of(matches@[sel as int]));
            }
            self.execute_cmd(c, now)
        } else {
            Effect::Nothing
        }
    }

    fn on_palette_key(&mut self, k: Key, ctrl: bool, now: u64) -> (e: Effect)
        ensures
            (final(self)@, e) == palette_key(old(self)@, k, ctrl, now),
    {
        if k == Key::Char('c') && ctrl {
            return Effect::Quit;
        }
        match k {
            Key::Char(c) => {
                self.palette_query = pushed(&self.palette_query, c);
                self.palette_selected = 0;
                Effect::Nothing
            },
            Key::Esc => {
                self.close_palette();
                Effect::Nothing
            },
            Key::Enter => self.on_palette_enter(now),
            Key::Up => {
                if self.palette_selected > 0 {
                    self.palette_selected = self.palette_selected - 1;
                }
                Effect::Nothing
            },
            Key::Down => {
                let n = filter_commands(self.palette_query.as_str()).len();
                if n > 0 && self.palette_selected < n - 1 {
                    self.palette_selected = self.palette_selected + 1;
                }
                Effect::Nothing
            },
            Key::Backspace => {
                self.palette_query = popped(&self.palette_query);
                self.palette_selected = 0;
                Effect::Nothing
            },
            _ => Effect::Nothing,
        }
    }

    fn scroll_focused(&mut self, down: bool)
        ensures
            final(self)@ == scrolled(old(self)@, down),
    {
        let s = self.focused_scroll_mut();
        if down {
            *s = s.saturating_add(10);
        } else {
            *s = s.saturating_sub(10);
        }
    }

    #[verifier::spinoff_prover]
    #[verifier::rlimit(40)]
    fn on_grid_char(&mut self, c: char, ctrl: bool, now: u64) -> (e: Effect)
        ensures
            (final(self)@, e) == grid_key(old(self)@, Key::Char(c), ctrl, now),
    {
        if c == ':' {
            self.palette_open = true;
            self.palette_query = empty_text();
            self.palette_selected = 0;
            Effect::Nothing
        } else if c == '/' {
            self.filter_open = true;
            Effect::Nothing
        } else if c == 'q' {
            Effect::Quit
        } else if c == 'c' && ctrl {
            Effect::Quit
        } else if c == 'r' {
            self.detail_cache_key = None;
            Effect::RefreshAll
        } else if c == 'F' {
            self.start_background_git(false, now)
        } else if c == 'P' {
            self.start_background_git(true, now)
        } else if c == 'h' {
            self.move_sel(Move::Left);
            Effect::Nothing
        } else if c == 'l' {
            self.move_sel(Move::Right);
            Effect::Nothing
        } else if c == 'k' {
            self.move_sel(Move::Up);
            Effect::Nothing
        } else if c == 'j' {
            self.move_sel(Move::Down);
            Effect::Nothing
        } else if c == '1' {
            self.focus_section(DetailSection::Status);
            Effect::Nothing
        } else if c == '2' {
            self.focus_section(DetailSection::Diff);
            Effect::Nothing
        } else if c == 'i' {
            self.show_detail = true;
            self.show_stash = false;
            self.show_readme = !self.show_readme;
            Effect::Nothing
        } else if c == 'S' {
            self.show_detail = true;
            self.show_readme = false;
            self.show_stash = !self.show_stash;
            Effect::Nothing
        } else if c == 'm' {
            if self.show_readme {
                self.readme_rendered = !self.readme_rendered;
                self.readme_scroll = 0;
            }
            Effect::Nothing
        } else if c == 'x' {
            self.toggle_hidden(now)
        } else if c == '.' {
            self.toggle_show_hidden(now);
            Effect::SaveShowHidden
        } else if c == 'p' {
            self.toggle_pin(now)
        } else if c == 'e' {
            self.execute_cmd(Cmd::OpenEditor, now)
        } else if c == 'o' {
            self.suspend(false);
            Effect::Nothing
        } else if c == 's' {
            self.suspend(true);
            Effect::Nothing
        } else if c == 'g' {
            self.execute_cmd(Cmd::OpenGitHub, now)
        } else if c == 'A' {
            self.execute_cmd(Cmd::OpenActions, now)
        } else if c == 'O' {
            self.toggle_sort_ci(now);
            Effect::Nothing
        } else if c == 'y' {
            self.execute_cmd(Cmd::CopyPath, now)
        } else {
            Effect::Nothing
        }
    }

    fn on_grid_key(&mut self, k: Key, ctrl: bool, now: u64) -> (e: Effect)
        ensures
            (final(self)@, e) == grid_key(old(self)@, k, ctrl, now),
    {
        match k {
            Key::Char(c) => self.on_grid_char(c, ctrl, now),
            Key::Esc => Effect::Quit,
            Key::Left => {
                self.move_sel(Move::Left);
                Effect::Nothing
            },
            Key::Right => {
                self.move_sel(Move::Right);
                Effect::Nothing
            },
            Key::Up => {
                self.move_sel(Move::Up);
                Effect::Nothing
            },
            Key::Down => {
                self.move_sel(Move::Down);
                Effect::Nothing
            },
            Key::Enter => {
                self.show_detail = !self.show_detail;
                Effect::Nothing
            },
            Key::Tab => {
                if self.show_detail {
                    self.focus = self.focus.next();
                } else {
                    self.show_detail = true;
                }
                Effect::Nothing
            },
            Key::PageDown => {
                self.scroll_focused(true);
                Effect::Nothing
            },
            Key::PageUp => {
                self.scroll_focused(false);
                Effect::Nothing
            },
            _ => Effect::Nothing,
        }
    }

    /// What a key press does, and what it asks of the program.
    pub fn handle_key(&mut self, k: Key, ctrl: bool, now: u64) -> (e: Effect)
        ensures
            (final(self)@, e) == key_step(old(self)@, k, ctrl, now),
    {
        if self.filter_open {
            self.on_filter_key(k, ctrl)
        } else if self.palette_open {
            self.on_palette_key(k, ctrl, now)
        } else {
            self.on_grid_key(k, ctrl, now)
        }
    }
}

// ── reading statuses again ───────────────────────────────────────────

/// What the message line says when a repository's status is read again:
/// that it now has conflicts, or that it went clean or dirty; nothing
/// when neither changed.
pub open spec fn refresh_note(before: RepoStatus, after: RepoStatus) -> Option<Seq<char>> {
    let conflict_changed = spec_has_conflict(before) != spec_has_conflict(after);
    if conflict_changed && spec_has_conflict(after) {
        Some(after.name@ + " has conflicts"@)
    } else if spec_is_clean(before) != spec_is_clean(after) {
        if spec_is_clean(after) {
            Some(after.name@ + " is clean"@)
        } else {
            Some(after.name@ + " went dirty"@)
        }
    } else {
        None
    }
}

pub open spec fn refreshed_one(v: AppView, idx: int, fresh: RepoStatus, now: u64) -> AppView {
    let w = AppView { repos: v.repos.update(idx, fresh), ..v };
    match refresh_note(v.repos[idx], fresh) {
        Some(m) => with_flash(w, m, now),
        None => w,
    }
}

impl App {
    /// Put a repository's status, just read again, in place of the old
    /// one, and say so when it went clean, dirty or into conflict.
    pub fn refresh_one(&mut self, idx: usize, fresh: RepoStatus, now: u64)
        requires
            idx < old(self).repos@.len(),
        ensures
            final(self)@ == refreshed_one(old(self)@, idx as int, fresh, now),
    {
        let old_clean = self.repos[idx].is_clean();
        let old_conflict = self.repos[idx].has_conflict();
        let new_clean = fresh.is_clean();
        let new_conflict = fresh.has_conflict();
        let name = fresh.name.clone();
        self.repos.set(idx, fresh);
        if old_conflict != new_conflict && new_conflict {
            self.flash_msg(concat(name.as_str(), " has conflicts"), now);
        } else if old_clean != new_clean {
            if new_clean {
                self.flash_msg(concat(name.as_str(), " is clean"), now);
            } else {
                self.flash_msg(concat(name.as_str(), " went dirty"), now);
            }
        }
    }

    /// Every repository's status, read again at `now`.
    pub fn refresh_all(&mut self, fresh: Vec<RepoStatus>, now: u64)
        ensures
            final(self)@ == (AppView { repos: fresh@, last_refresh: now, ..old(self)@ }),
    {
        self.repos = fresh;
        self.last_refresh = now;
    }
}

/// Milliseconds from `then` to `now`, none when the clock read earlier.
pub open spec fn elapsed(then: u64, now: u64) -> int {
    if now >= then {
        now - then
    } else {
        0
    }
}

/// How long every status stays before all are read again.
pub open spec fn refresh_every() -> int {
    30000
}

/// How long a message stays on the message line.
pub open spec fn flash_for() -> int {
    2000
}

pub open spec fn flash_expired(v: AppView, now: u64) -> AppView {
    match v.flash {
        Some((_, t)) => if elapsed(t, now) > flash_for() {
            AppView { flash: None, ..v }
        } else {
            v
        },
        None => v,
    }
}

impl App {
    /// Whether every status is due to be read again.
    pub fn refresh_due(&self, now: u64) -> (r: bool)
        ensures
            r == (elapsed(self.last_refresh, now) > refresh_every()),
    {
        now >= self.last_refresh && now - self.last_refresh > 30000
    }

    /// Clear the message line once its message has been up long enough.
    pub fn expire_flash(&mut self, now: u64)
        ensures
            final(self)@ == flash_expired(old(self)@, now),
    {
        let expired = match &self.flash {
            Some((_, t)) => now >= *t && now - *t > 2000,
            None => false,
        };
        if expired {
            self.flash = None;
        }
    }
}

// ── messages from the background ─────────────────────────────────────

/// The first repository whose path is `p`, or `repos.len()`.
pub open spec fn repo_at(repos: Seq<RepoStatus>, p: Seq<char>) -> int
    decreases repos.len(),
{
    if repos.len() == 0 {
        0
    } else if same_path(repos[0].path@, p) {
        0
    } else {
        1 + repo_at(repos.drop_first(), p)
    }
}

proof fn lemma_repo_at(repos: Seq<RepoStatus>, p: Seq<char>, i: int)
    requires
        0 <= i <= repos.len(),
        forall|k: int| 0 <= k < i ==> !same_path(#[trigger] repos[k].path@, p),
        i == repos.len() || same_path(repos[i].path@, p),
    ensures
        repo_at(repos, p) == i,
    decreases i,
{
    if i > 0 {
        let rest = repos.drop_first();
        assert forall|k: int| 0 <= k < i - 1 implies !same_path(#[trigger] rest[k].path@, p) by {
            assert(rest[k] == repos[k + 1]);
        }
        if i < repos.len() {
            assert(rest[i - 1] == repos[i]);
        }
        lemma_repo_at(rest, p, i - 1);
    }
}

fn find_repo(repos: &Vec<RepoStatus>, p: &str) -> (r: usize)
    ensures
        r == repo_at(repos@, p@),
        r <= repos@.len(),
{
    let mut k: usize = 0;
    while k < repos.len()
        invariant
            k <= repos@.len(),
            forall|m: int| 0 <= m < k ==> !same_path(#[trigger] repos@[m].path@, p@),
        decreases repos.len() - k,
    {
        if crate::paths::path_eq(repos[k].path.as_str(), p) {
            proof {
                lemma_repo_at(repos@, p@, k as int);
            }
            return k;
        }
        k = k + 1;
    }
    proof {
        lemma_repo_at(repos@, p@, k as int);
    }
    k
}

/// A set of paths with `p` added.
pub open spec fn marked_with(s: Seq<Seq<char>>, p: Seq<char>) -> Seq<Seq<char>> {
    if marked(s, p) {
        s
    } else {
        s.push(p)
    }
}

/// The selected repository is the one at `p`.
pub open spec fn selected_is(v: AppView, p: Seq<char>) -> bool {
    v.selected < v.repos.len() && same_path(v.repos[v.selected as int].path@, p)
}

/// Whether what the state holds after a background message is what the
/// message asks: a cycle starts or ends, a repository starts or ends its
/// fetch (its status to be read again, and the detail pane reloaded when
/// it is the selected one), or its CI run or pull-request count arrives
/// (a count of zero, or none, forgets the count). `refresh` is the
/// repository to read again.
pub open spec fn fetch_applied(v: AppView, msg: FetchMsg, now: u64, w: AppView, refresh: Option<usize>) -> bool {
    match msg {
        FetchMsg::CycleStarted => w == AppView { is_fetching: true, ..v } && refresh is None,
        FetchMsg::Started(p) => w == AppView { fetching: marked_with(v.fetching, p@), ..v } && refresh is None,
        FetchMsg::Done(p) => {
            &&& w == AppView {
                fetching: drop_same_paths(v.fetching, p@),
                detail_cache_key: if selected_is(v, p@) {
                    None
                } else {
                    v.detail_cache_key
                },
                ..v
            }
            &&& refresh == if repo_at(v.repos, p@) < v.repos.len() {
                Some(repo_at(v.repos, p@) as usize)
            } else {
                None
            }
        },
        FetchMsg::CiUpdate(p, info) => {
            &&& w == AppView { fetching: drop_same_paths(v.fetching, p@), ci: w.ci, ..v }
            &&& forall|q: Seq<char>|
                #[trigger] lookup(w.ci, q) == if same_path(q, p@) {
                    info
                } else {
                    lookup(v.ci, q)
                }
            &&& refresh is None
        },
        FetchMsg::PrUpdate(p, count) => {
            &&& w == AppView { prs: w.prs, ..v }
            &&& forall|q: Seq<char>|
                #[trigger] lookup(w.prs, q) == if same_path(q, p@) {
                    match count {
                        Some(n) => if n > 0 {
                            Some(n)
                        } else {
                            None
                        },
                        None => None,
                    }
                } else {
                    lookup(v.prs, q)
                }
            &&& refresh is None
        },
        FetchMsg::CycleFinished => w == AppView { last_auto_fetch: Some(now), is_fetching: false, ..v } && refresh
            is None,
    }
}

impl App {
    fn selected_at(&self, p: &str) -> (r: bool)
        ensures
            r == selected_is(self@, p@),
    {
        self.selected < self.repos.len() && crate::paths::path_eq(self.repos[self.selected].path.as_str(), p)
    }

    fn fetch_done(&mut self, p: String, now: u64) -> (refresh: Option<usize>)
        ensures
            fetch_applied(old(self)@, FetchMsg::Done(p), now, final(self)@, refresh),
    {
        unmark(&mut self.fetching, p.as_str());
        let idx = find_repo(&self.repos, p.as_str());
        if self.selected_at(p.as_str()) {
            self.detail_cache_key = None;
        }
        if idx < self.repos.len() {
            Some(idx)
        } else {
            None
        }
    }

    fn ci_arrived(&mut self, p: String, info: Option<CiInfo>, now: u64)
        ensures
            fetch_applied(old(self)@, FetchMsg::CiUpdate(p, info), now, final(self)@, None),
    {
        unmark(&mut self.fetching, p.as_str());
        match info {
            Some(s) => {
                self.ci.insert(p, s);
            },
            None => {
                self.ci.remove(p.as_str());
            },
        }
    }

    fn prs_arrived(&mut self, p: String, count: Option<usize>, now: u64)
        ensures
            fetch_applied(old(self)@, FetchMsg::PrUpdate(p, count), now, final(self)@, None),
    {
        match count {
            Some(n) => {
                if n > 0 {
                    self.prs.insert(p, n);
                } else {
                    self.prs.remove(p.as_str());
                }
            },
            None => {
                self.prs.remove(p.as_str());
            },
        }
    }

    /// Take in one background message. The repository it returns, if
    /// any, is to have its status read again (then `refresh_one`).
    pub fn apply_fetch(&mut self, msg: FetchMsg, now: u64) -> (refresh: Option<usize>)
        ensures
            fetch_applied(old(self)@, msg, now, final(self)@, refresh),
    {
        match msg {
            FetchMsg::CycleStarted => {
                self.is_fetching = true;
                None
            },
            FetchMsg::Started(p) => {
                mark(&mut self.fetching, p);
                None
            },
            FetchMsg::Done(p) => self.fetch_done(p, now),
            FetchMsg::CiUpdate(p, info) => {
                self.ci_arrived(p, info, now);
                None
            },
            FetchMsg::PrUpdate(p, count) => {
                self.prs_arrived(p, count, now);
                None
            },
            FetchMsg::CycleFinished => {
                self.last_auto_fetch = Some(now);
                self.is_fetching = false;
                None
            },
        }
    }
}

// ── file changes ─────────────────────────────────────────────────────

/// The first repository holding path `p` (by components), or `repos.len()`.
pub open spec fn repo_holding(repos: Seq<RepoStatus>, p: Seq<char>) -> int
    decreases repos.len(),
{
    if repos.len() == 0 {
        0
    } else if within(p, repos[0].path@) {
        0
    } else {
        1 + repo_holding(repos.drop_first(), p)
    }
}

proof fn lemma_repo_holding(repos: Seq<RepoStatus>, p: Seq<char>, i: int)
    requires
        0 <= i <= repos.len(),
        forall|k: int| 0 <= k < i ==> !within(p, #[trigger] repos[k].path@),
        i == repos.len() || within(p, repos[i].path@),
    ensures
        repo_holding(repos, p) == i,
    decreases i,
{
    if i > 0 {
        let rest = repos.drop_first();
        assert forall|k: int| 0 <= k < i - 1 implies !within(p, #[trigger] rest[k].path@) by {
            assert(rest[k] == repos[k + 1]);
        }
        if i < repos.len() {
            assert(rest[i - 1] == repos[i]);
        }
        lemma_repo_holding(rest, p, i - 1);
    }
}

/// The repositories that a batch of changed paths touches, each once,
/// in the order first touched.
pub open spec fn changed_of(repos: Seq<RepoStatus>, events: Seq<Seq<char>>) -> Seq<usize>
    decreases events.len(),
{
    if events.len() == 0 {
        Seq::empty()
    } else {
        let prev = changed_of(repos, events.drop_last());
        let i = repo_holding(repos, events.last());
        if i < repos.len() && !prev.contains(i as usize) {
            prev.push(i as usize)
        } else {
            prev
        }
    }
}

impl App {
    /// The repository holding a changed path, if one does.
    pub fn repo_for_path(&self, p: &str) -> (r: Option<usize>)
        ensures
            r matches Some(i) ==> i as int == repo_holding(self.repos@, p@) && i < self.repos@.len(),
            r is None ==> repo_holding(self.repos@, p@) == self.repos@.len(),
    {
        let mut k: usize = 0;
        while k < self.repos.len()
            invariant
                k <= self.repos@.len(),
                forall|m: int| 0 <= m < k ==> !within(p@, #[trigger] self.repos@[m].path@),
            decreases self.repos.len() - k,
        {
            if crate::paths::path_starts_with(p, self.repos[k].path.as_str()) {
                proof {
                    lemma_repo_holding(self.repos@, p@, k as int);
                }
                return Some(k);
            }
            k = k + 1;
        }
        proof {
            lemma_repo_holding(self.repos@, p@, k as int);
        }
        None
    }

    /// The repositories a batch of changed paths touches, to be read again.
    pub fn changed_repos(&self, events: &[String]) -> (r: Vec<usize>)
        ensures
            r@ == changed_of(self.repos@, strs(events@)),
    {
        let ghost es = strs(events@);
        let mut out: Vec<usize> = Vec::new();
        let mut k: usize = 0;
        assert(es.subrange(0, 0) =~= Seq::<Seq<char>>::empty());
        while k < events.len()
            invariant
                es == strs(events@),
                k <= events@.len(),
                out@ == changed_of(self.repos@, es.subrange(0, k as int)),
            decreases events.len() - k,
        {
            let ghost pre = es.subrange(0, k as int);
            let ghost next = es.subrange(0, k + 1);
            assert(next.drop_last() =~= pre);
            assert(next.last() == events@[k as int]@);
            match self.repo_for_path(events[k].as_str()) {
                Some(i) => {
                    if position_in(&out, i) == out.len() {
                        out.push(i);
                    }
                },
                None => {},
            }
            k = k + 1;
        }
        assert(es.subrange(0, events@.len() as int) =~= es);
        out
    }

    fn selected_changed(&self, changed: &[usize]) -> (r: bool)
        ensures
            r == self_changed(self@, changed@),
    {
        if self.selected >= self.repos.len() {
            return false;
        }
        let mut k: usize = 0;
        while k < changed.len()
            invariant
                self.selected < self.repos@.len(),
                k <= changed@.len(),
                forall|m: int|
                    0 <= m < k ==> !(changed@[m] < self.repos@.len() && same_path(
                        self.repos@[#[trigger] changed@[m] as int].path@,
                        self.repos@[self.selected as int].path@,
                    )),
            decreases changed.len() - k,
        {
            let c = changed[k];
            if c < self.repos.len() && crate::paths::path_eq(
                self.repos[c].path.as_str(),
                self.repos[self.selected].path.as_str(),
            ) {
                assert(changed@[k as int] == c);
                return true;
            }
            k = k + 1;
        }
        false
    }

    /// Reload the detail pane when the selected repository is among the
    /// changed ones.
    pub fn forget_detail_if_changed(&mut self, changed: &[usize])
        ensures
            final(self)@ == if self_changed(old(self)@, changed@) {
                AppView { detail_cache_key: None, ..old(self)@ }
            } else {
                old(self)@
            },
    {
        if self.selected_changed(changed) {
            self.detail_cache_key = None;
        }
    }
}

/// One of `changed` is the selected repository's path.
pub open spec fn self_changed(v: AppView, changed: Seq<usize>) -> bool {
    v.selected < v.repos.len() && exists|m: int|
        0 <= m < changed.len() && changed[m] < v.repos.len() && same_path(
            v.repos[#[trigger] changed[m] as int].path@,
            v.repos[v.selected as int].path@,
        )
}

// ── the detail pane ──────────────────────────────────────────────────

/// The repository whose detail is to be read: the selected one, when the
/// pane is open and does not already show it.
pub open spec fn detail_wanted(v: AppView) -> Option<usize> {
    if !v.show_detail || v.selected >= v.repos.len() {
        None
    } else {
        match v.detail_cache_key {
            Some(k) => if same_path(k, v.repos[v.selected as int].path@) {
                None
            } else {
                Some(v.selected)
            },
            None => Some(v.selected),
        }
    }
}

/// What the detail pane shows of one repository, as read.
pub struct DetailContent {
    pub status: String,
    pub diff: String,
    pub stash: String,
    pub release_tag: String,
    pub release_time_unix: u64,
    pub readme_path: String,
    pub readme: String,
}

pub open spec fn detail_filled(v: AppView, idx: int, d: DetailContent) -> AppView {
    AppView {
        status_content: d.status@,
        diff_content: d.diff@,
        stash_content: d.stash@,
        release_tag: d.release_tag@,
        release_time_unix: d.release_time_unix,
        readme_path: d.readme_path@,
        readme_content: d.readme@,
        status_scroll: 0,
        diff_scroll: 0,
        readme_scroll: 0,
        detail_cache_key: Some(v.repos[idx].path@),
        ..v
    }
}

impl App {
    /// The repository whose detail is to be read, if any.
    pub fn detail_target(&self) -> (r: Option<usize>)
        ensures
            r == detail_wanted(self@),
    {
        if !self.show_detail || self.selected >= self.repos.len() {
            return None;
        }
        match &self.detail_cache_key {
            Some(k) => if crate::paths::path_eq(k.as_str(), self.repos[self.selected].path.as_str()) {
                None
            } else {
                Some(self.selected)
            },
            None => Some(self.selected),
        }
    }

    /// Show what was read of repository `idx`, from the top.
    pub fn fill_detail(&mut self, idx: usize, d: DetailContent)
        requires
            idx < old(self).repos@.len(),
        ensures
            final(self)@ == detail_filled(old(self)@, idx as int, d),
    {
        let key = self.repos[idx].path.clone();
        self.status_content = d.status;
        self.diff_content = d.diff;
        self.stash_content = d.stash;
        self.release_tag = d.release_tag;
        self.release_time_unix = d.release_time_unix;
        self.readme_path = d.readme_path;
        self.readme_content = d.readme;
        self.status_scroll = 0;
        self.diff_scroll = 0;
        self.readme_scroll = 0;
        self.detail_cache_key = Some(key);
    }
}

/// The newest tag as the detail pane's title shows it, from `git
/// for-each-ref` output: nothing when git printed nothing or failed.
pub open spec fn release_of(raw: Seq<char>) -> (Seq<char>, u64) {
    if trim(raw).len() == 0 || "git "@.is_prefix_of(raw) {
        (Seq::empty(), 0)
    } else {
        match tag_line_of(raw) {
            Some((n, t)) => (n, t),
            None => (Seq::empty(), 0),
        }
    }
}

/// The newest tag and its time, read from `git for-each-ref` output.
pub fn release_from(raw: &str) -> (r: (String, u64))
    ensures
        (r.0@, r.1) == release_of(raw@),
{
    let t = trim_str(raw);
    let cs = chars_of(raw);
    if t.len() == 0 || crate::text::starts_with(&cs, &chars_of("git ")) {
        return (empty_text(), 0);
    }
    match tag_line(raw) {
        Some(p) => p,
        None => (empty_text(), 0),
    }
}

/// Whether `git diff HEAD` showed nothing, so the staged diff is shown instead.
pub fn diff_is_blank(s: &str) -> (r: bool)
    ensures
        r == (trim(s@).len() == 0),
{
    trim_str(s).len() == 0
}

// ── what the program reports back ────────────────────────────────────

impl App {
    /// The editor was started (or failed to start, with this error).
    pub fn after_editor(&mut self, editor: &str, failure: Option<String>, now: u64)
        ensures
            final(self)@ == with_flash(
                old(self)@,
                match failure {
                    None => "opened in "@ + editor@,
                    Some(e) => "editor failed: "@ + e@,
                },
                now,
            ),
    {
        match failure {
            None => self.flash_msg(concat("opened in ", editor), now),
            Some(e) => self.flash_msg(concat("editor failed: ", e.as_str()), now),
        }
    }

    /// The path was put on the clipboard, or no clipboard tool worked.
    pub fn after_copy(&mut self, copied: bool, now: u64)
        ensures
            final(self)@ == with_flash(
                old(self)@,
                if copied {
                    "path copied"@
                } else {
                    "clipboard unavailable"@
                },
                now,
            ),
    {
        let msg = if copied {
            "path copied"
        } else {
            "clipboard unavailable"
        };
        self.flash_msg(string_of(&chars_of(msg)), now);
    }

    /// Back from lazygit or a shell (`tool`), which ran or failed with an
    /// error; every status is to be read again.
    pub fn after_suspend(&mut self, tool: &str, failure: Option<String>, now: u64)
        ensures
            final(self)@ == with_flash(
                AppView { detail_cache_key: None, ..old(self)@ },
                match failure {
                    None => "returned from "@ + tool@,
                    Some(e) => tool@ + " failed: "@ + e@,
                },
                now,
            ),
    {
        self.detail_cache_key = None;
        match failure {
            None => self.flash_msg(concat("returned from ", tool), now),
            Some(e) => self.flash_msg(concat3(tool, " failed: ", e.as_str()), now),
        }
    }

    /// The origin remote, as `git remote get-url origin` printed it (none
    /// when it failed): the page to open, if it has one, and what the
    /// message line says.
    pub fn after_remote_for_github(&mut self, remote: Option<&str>, now: u64) -> (url: Option<String>)
        ensures
            match remote {
                None => url is None && final(self)@ == with_flash(old(self)@, "no origin remote"@, now),
                Some(r) => match https_of(r@) {
                    None => url is None && final(self)@ == with_flash(
                        old(self)@,
                        "could not parse remote URL"@,
                        now,
                    ),
                    Some(h) => url matches Some(u) && u@ == h && final(self)@ == with_flash(
                        old(self)@,
                        "opened "@ + h,
                        now,
                    ),
                },
            },
    {
        match remote {
            None => {
                self.flash_msg(string_of(&chars_of("no origin remote")), now);
                None
            },
            Some(r) => match git_remote_to_https(r) {
                None => {
                    self.flash_msg(string_of(&chars_of("could not parse remote URL")), now);
                    None
                },
                Some(h) => {
                    self.flash_msg(concat("opened ", h.as_str()), now);
                    Some(h)
                },
            },
        }
    }

    /// The origin remote of repository `idx` (none when reading it
    /// failed): its Actions page, for its branch when it has one, and
    /// what the message line says.
    pub fn after_remote_for_actions(&mut self, idx: usize, remote: Option<&str>, now: u64) -> (url: Option<String>)
        requires
            idx < old(self).repos@.len(),
        ensures
            ({
                let owner = match remote {
                    Some(r) => owner_repo_of(r@),
                    None => None,
                };
                match owner {
                    None => url is None && final(self)@ == with_flash(old(self)@, "not a github remote"@, now),
                    Some(o) => {
                        let page = actions_url_of(o, opt_text(old(self)@.repos[idx as int].branch));
                        url matches Some(u) && u@ == page && final(self)@ == with_flash(
                            old(self)@,
                            "opened "@ + page,
                            now,
                        )
                    },
                }
            }),
    {
        let owner = match remote {
            Some(r) => github_owner_repo(r),
            None => None,
        };
        match owner {
            None => {
                self.flash_msg(string_of(&chars_of("not a github remote")), now);
                None
            },
            Some(o) => {
                let page = match &self.repos[idx].branch {
                    Some(b) => actions_url(o.as_str(), Some(b.as_str())),
                    None => actions_url(o.as_str(), None),
                };
                self.flash_msg(concat("opened ", page.as_str()), now);
                Some(page)
            },
        }
    }

    /// Take the repository waiting for lazygit, if any.
    pub fn take_pending_lazygit(&mut self) -> (r: Option<String>)
        ensures
            opt_text(r) == old(self)@.pending_lazygit,
            final(self)@ == (AppView { pending_lazygit: None, ..old(self)@ }),
    {
        self.pending_lazygit.take()
    }

    /// Take the repository waiting for a shell, if any.
    pub fn take_pending_shell(&mut self) -> (r: Option<String>)
        ensures
            opt_text(r) == old(self)@.pending_shell,
            final(self)@ == (AppView { pending_shell: None, ..old(self)@ }),
    {
        self.pending_shell.take()
    }
}

// ── the folders scanned ──────────────────────────────────────────────

/// How the header names the folders scanned: `.` for none, the folder
/// for one, the first and how many more for several.
pub open spec fn bases_label_of(bases: Seq<Seq<char>>) -> Seq<char> {
    if bases.len() == 0 {
        "."@
    } else if bases.len() == 1 {
        bases[0]
    } else {
        bases[0] + " +"@ + decimal_of((bases.len() - 1) as nat) + " more"@
    }
}

pub fn bases_label(bases: &[String]) -> (r: String)
    ensures
        r@ == bases_label_of(strs(bases@)),
{
    if bases.len() == 0 {
        return string_of(&chars_of("."));
    }
    if bases.len() == 1 {
        return bases[0].clone();
    }
    let mut out = chars_of(bases[0].as_str());
    crate::text::append_chars(&mut out, &chars_of(" +"));
    crate::text::append_chars(&mut out, &decimal((bases.len() - 1) as u64));
    crate::text::append_chars(&mut out, &chars_of(" more"));
    string_of(&out)
}

/// Where the terminal keeps a list of its own: `~/.config/den/<name>`.
pub open spec fn config_path_of(home: Seq<char>, name: Seq<char>) -> Seq<char> {
    path_join(legacy_dir_of(home), name)
}

pub fn config_path(home: &str, name: &str) -> (r: String)
    ensures
        r@ == config_path_of(home@, name@),
{
    let dir = crate::session::legacy_dir(home);
    crate::paths::join_path(dir.as_str(), name)
}

/// A list of paths as a file holds it, one per line, each path once
/// (as a set of paths holds it).
pub open spec fn marks_of(text: Seq<char>) -> Seq<Seq<char>> {
    crate::bar::distinct_paths(crate::session::path_lines(text))
}

/// The pinned (or hidden) repositories a file lists.
pub fn load_marks(text: &str) -> (r: Vec<String>)
    ensures
        strs(r@) == marks_of(text@),
{
    let all = crate::session::parse_path_lines(text);
    let ghost ls = strs(all@);
    let mut once: Vec<String> = Vec::new();
    let mut j: usize = 0;
    assert(ls.subrange(0, 0) =~= Seq::<Seq<char>>::empty());
    assert(strs(once@) =~= Seq::<Seq<char>>::empty());
    while j < all.len()
        invariant
            ls == strs(all@),
            j <= all@.len(),
            strs(once@) == crate::bar::distinct_paths(ls.subrange(0, j as int)),
        decreases all.len() - j,
    {
        let ghost pre = ls.subrange(0, j as int);
        let ghost next = ls.subrange(0, j + 1);
        assert(next.drop_last() =~= pre);
        assert(next.last() == all@[j as int]@);
        if !crate::order::contains_path(once.as_slice(), all[j].as_str()) {
            let ghost before = strs(once@);
            once.push(all[j].clone());
            assert(strs(once@) =~= before.push(ls[j as int]));
        }
        j = j + 1;
    }
    assert(ls.subrange(0, all@.len() as int) =~= ls);
    once
}

/// How the show-hidden setting is written to its file.
pub open spec fn show_hidden_text_of(shown: bool) -> Seq<char> {
    if shown {
        "true"@
    } else {
        "false"@
    }
}

/// The show-hidden setting a file holds: on when its trimmed text is
/// `true`; off otherwise, as when there is no file yet.
pub open spec fn show_hidden_of(text: Seq<char>) -> bool {
    trim(text) == "true"@
}

/// The text to save for the show-hidden setting.
pub fn show_hidden_text(shown: bool) -> (r: String)
    ensures
        r@ == show_hidden_text_of(shown),
{
    if shown {
        string_of(&chars_of("true"))
    } else {
        string_of(&chars_of("false"))
    }
}

/// The show-hidden setting read back from its file's text.
pub fn read_show_hidden(text: &str) -> (r: bool)
    ensures
        r == show_hidden_of(text@),
{
    let t = trim_str(text);
    crate::text::chars_eq(&t, &chars_of("true"))
}

/// The show-hidden setting persists: what is written reads back as it was.
pub proof fn lemma_show_hidden_round_trip(shown: bool)
    ensures
        show_hidden_of(show_hidden_text_of(shown)) == shown,
{
    reveal_strlit("true");
    reveal_strlit("false");
    let t = show_hidden_text_of(shown);
    assert(!crate::text::is_ws(t[0]));
    assert(crate::text::trim_start(t) == t);
    assert(!crate::text::is_ws(t.last()));
    assert(crate::text::trim_end(t) == t);
    if !shown {
        assert(t.len() != "true"@.len());
    }
}

/// A path as a file of paths keeps it: not empty, without a line break,
/// and without whitespace at either end (reading a line trims it).
pub open spec fn plain_line(p: Seq<char>) -> bool {
    &&& p.len() > 0
    &&& !p.contains('\n')
    &&& !crate::text::is_ws(p[0])
    &&& !crate::text::is_ws(p.last())
}

proof fn lemma_plain_lines_read_back(t: Seq<Seq<char>>)
    requires
        forall|k: int| 0 <= k < t.len() ==> plain_line(#[trigger] t[k]),
    ensures
        crate::session::nonblank_trimmed(t) == t,
    decreases t.len(),
{
    if t.len() > 0 {
        let init = t.drop_last();
        assert forall|k: int| 0 <= k < init.len() implies plain_line(#[trigger] init[k]) by {
            assert(init[k] == t[k]);
        }
        lemma_plain_lines_read_back(init);
        let l = t.last();
        assert(plain_line(t[t.len() - 1]));
        assert(crate::text::trim_start(l) == l);
        assert(crate::text::trim_end(l) == l);
        assert(init.push(l) =~= t);
    }
}

proof fn lemma_marked_distinct(s: Seq<Seq<char>>, q: Seq<char>)
    ensures
        marked(crate::bar::distinct_paths(s), q) == marked(s, q),
    decreases s.len(),
{
    if s.len() > 0 {
        let init = s.drop_last();
        lemma_marked_distinct(init, q);
        let d = crate::bar::distinct_paths(init);
        assert(init.push(s.last()) =~= s);
        lemma_marked_push(init, s.last(), q);
        if marked(d, s.last()) {
            if same_path(s.last(), q) {
                let k = choose|k: int| 0 <= k < d.len() && #[trigger] same_path(d[k], s.last());
                assert(same_path(d[k], q));
            }
        } else {
            lemma_marked_push(d, s.last(), q);
        }
    }
}

proof fn lemma_marked_in_order(ps: Seq<Seq<char>>, r: Seq<usize>, q: Seq<char>)
    requires
        crate::session::is_text_sort(ps, r),
        ps.len() <= usize::MAX,
    ensures
        marked(crate::session::in_order(ps, r), q) == marked(ps, q),
{
    let t = crate::session::in_order(ps, r);
    if marked(t, q) {
        let k = choose|k: int| 0 <= k < t.len() && #[trigger] same_path(t[k], q);
        assert(r.contains(r[k]));
        assert(same_path(ps[r[k] as int], q));
    }
    if marked(ps, q) {
        let j = choose|j: int| 0 <= j < ps.len() && #[trigger] same_path(ps[j], q);
        assert(r.contains(j as usize));
        let k = choose|k: int| 0 <= k < r.len() && r[k] == j as usize;
        assert(r[k] as int == j);
        assert(t[k] == ps[j]);
        assert(same_path(t[k], q));
    }
}

/// Pins and hides persist: a set of paths written to its file and read
/// back is the same set of paths, for paths a line can hold as they are
/// (no line break in them, no whitespace at either end).
pub proof fn lemma_marks_round_trip(ps: Seq<Seq<char>>, q: Seq<char>)
    requires
        ps.len() <= usize::MAX,
        forall|k: int| 0 <= k < ps.len() ==> plain_line(#[trigger] ps[k]),
    ensures
        marked(marks_of(crate::session::path_set_text_of(ps)), q) == marked(ps, q),
{
    let r = crate::session::lemma_text_sort_exists(ps);
    let t = crate::session::in_order(ps, r);
    assert forall|k: int| 0 <= k < t.len() implies plain_line(#[trigger] t[k]) by {
        assert(r.contains(r[k]));
        assert(t[k] == ps[r[k] as int]);
    }
    assert forall|k: int|
        0 <= k < t.len() implies (#[trigger] t[k]).len() > 0 && !t[k].contains('\n') && t[k].last()
        != '\r' by {
        assert(plain_line(t[k]));
    }
    reveal_strlit("\n");
    assert("\n"@ =~= seq!['\n']);
    crate::text::lemma_lines_join(t);
    lemma_plain_lines_read_back(t);
    lemma_marked_distinct(t, q);
    lemma_marked_in_order(ps, r, q);
}

// ── the first scan ───────────────────────────────────────────────────

/// The repositories found under each folder, one list after another.
pub open spec fn found_in_order(found: Seq<Seq<Seq<char>>>) -> Seq<Seq<char>>
    decreases found.len(),
{
    if found.len() == 0 {
        Seq::empty()
    } else {
        found_in_order(found.drop_last()) + found.last()
    }
}

/// What each folder's scan found, as text.
pub open spec fn found_view(found: Seq<Vec<String>>) -> Seq<Seq<Seq<char>>> {
    Seq::new(found.len(), |k: int| strs(found[k]@))
}

/// The repositories to watch: all that were found under the folders, in
/// the order found, each path once (a folder inside another is found
/// twice).
pub fn merge_found(found: &[Vec<String>]) -> (r: Vec<String>)
    ensures
        strs(r@) == crate::bar::distinct_paths(found_in_order(found_view(found@))),
{
    let ghost fv = found_view(found@);
    let mut out: Vec<String> = Vec::new();
    let mut i: usize = 0;
    assert(fv.subrange(0, 0) =~= Seq::<Seq<Seq<char>>>::empty());
    while i < found.len()
        invariant
            fv == found_view(found@),
            i <= found@.len(),
            strs(out@) == crate::bar::distinct_paths(found_in_order(fv.subrange(0, i as int))),
        decreases found.len() - i,
    {
        let ghost done = found_in_order(fv.subrange(0, i as int));
        let list = &found[i];
        let ghost lv = strs(list@);
        assert(fv[i as int] == lv);
        let mut j: usize = 0;
        assert(done + lv.subrange(0, 0) =~= done);
        while j < list.len()
            invariant
                lv == strs(list@),
                j <= list@.len(),
                strs(out@) == crate::bar::distinct_paths(done + lv.subrange(0, j as int)),
            decreases list.len() - j,
        {
            let ghost pre = done + lv.subrange(0, j as int);
            let ghost next = done + lv.subrange(0, j + 1);
            assert(next.drop_last() =~= pre);
            assert(next.last() == list@[j as int]@);
            if !crate::order::contains_path(out.as_slice(), list[j].as_str()) {
                let ghost before = strs(out@);
                out.push(list[j].clone());
                assert(strs(out@) =~= before.push(lv[j as int]));
            }
            j = j + 1;
        }
        assert(lv.subrange(0, list@.len() as int) =~= lv);
        assert(fv.subrange(0, i + 1).drop_last() =~= fv.subrange(0, i as int));
        i = i + 1;
    }
    assert(fv.subrange(0, found@.len() as int) =~= fv);
    out
}

/// The name of each repository.
pub open spec fn names_view(s: Seq<RepoStatus>) -> Seq<Seq<char>> {
    Seq::new(s.len(), |k: int| s[k].name@)
}

/// The repositories sorted by name as `String` orders names, equal names
/// in the order given.
pub fn sort_by_name(statuses: Vec<RepoStatus>) -> (r: Vec<RepoStatus>)
    ensures
        exists|p: Seq<usize>|
            crate::session::is_text_sort(names_view(statuses@), p) && p.len() == r@.len() && (
            forall|k: int| 0 <= k < p.len() ==> #[trigger] r@[k] == statuses@[p[k] as int]),
{
    let mut names: Vec<String> = Vec::new();
    let mut i: usize = 0;
    while i < statuses.len()
        invariant
            i <= statuses@.len(),
            strs(names@) == names_view(statuses@).subrange(0, i as int),
        decreases statuses.len() - i,
    {
        let ghost before = strs(names@);
        names.push(statuses[i].name.clone());
        assert(strs(names@) =~= before.push(statuses@[i as int].name@));
        assert(strs(names@) =~= names_view(statuses@).subrange(0, i + 1));
        i = i + 1;
    }
    assert(strs(names@) =~= names_view(statuses@));
    let order = crate::session::sort_texts(names.as_slice());
    let ghost nv = names_view(statuses@);
    let mut out: Vec<RepoStatus> = Vec::new();
    let mut k: usize = 0;
    while k < order.len()
        invariant
            nv == names_view(statuses@),
            crate::session::is_text_sort(nv, order@),
            k <= order@.len(),
            out@.len() == k,
            forall|m: int| 0 <= m < k ==> #[trigger] out@[m] == statuses@[order@[m] as int],
        decreases order.len() - k,
    {
        assert(order@.contains(order@[k as int]));
        let at = order[k];
        out.push(statuses[at].duplicate());
        k = k + 1;
    }
    out
}

// ── what holds across transitions ────────────────────────────────────

/// The palette's selection points at a line it lists (or at the top).
pub open spec fn palette_ok(v: AppView) -> bool {
    v.palette_selected == 0 || v.palette_selected < commands_for(v.palette_query).len()
}

/// Every key keeps the palette's selection on a line it lists: typing
/// puts it back at the top, and the arrows stop at either end.
pub proof fn lemma_palette_selection_in_range(v: AppView, k: Key, ctrl: bool, now: u64)
    requires
        palette_ok(v),
    ensures
        palette_ok(key_step(v, k, ctrl, now).0),
{
    let w = key_step(v, k, ctrl, now).0;
    if !v.filter_open && v.palette_open && !is_ctrl_c(k, ctrl) && k == Key::Enter {
        let rows = commands_for(v.palette_query);
        if v.palette_selected < rows.len() {
            lemma_cmd_keeps_palette(palette_closed(v), rows[v.palette_selected as int].0, now);
        }
    } else if !v.filter_open && !v.palette_open {
        lemma_grid_keeps_palette(v, k, ctrl, now);
    }
}

proof fn lemma_cmd_keeps_palette(v: AppView, cmd: Cmd, now: u64)
    ensures
        cmd_step(v, cmd, now).0.palette_selected == v.palette_selected,
        cmd_step(v, cmd, now).0.palette_query == v.palette_query,
        cmd_step(v, cmd, now).0.repos == v.repos,
{
}

#[verifier::spinoff_prover]
#[verifier::rlimit(60)]
proof fn lemma_grid_keeps_palette(v: AppView, k: Key, ctrl: bool, now: u64)
    ensures
        k != Key::Char(':') ==> grid_key(v, k, ctrl, now).0.palette_selected == v.palette_selected
            && grid_key(v, k, ctrl, now).0.palette_query == v.palette_query,
        k == Key::Char(':') ==> grid_key(v, k, ctrl, now).0.palette_selected == 0,
        grid_key(v, k, ctrl, now).0.repos == v.repos,
{
    if let Key::Char(c) = k {
        if c == 'x' {
            assert(hide_toggled(v, now).0.palette_selected == v.palette_selected);
        } else if c == 'p' {
            assert(pin_toggled(v, now).0.palette_selected == v.palette_selected);
        }
    }
}

/// No key changes what is known of the repositories: statuses are only
/// replaced by reading them again.
pub proof fn lemma_keys_keep_statuses(v: AppView, k: Key, ctrl: bool, now: u64)
    ensures
        key_step(v, k, ctrl, now).0.repos == v.repos,
{
    lemma_grid_keeps_palette(v, k, ctrl, now);
    if !v.filter_open && v.palette_open && !is_ctrl_c(k, ctrl) && k == Key::Enter {
        let rows = commands_for(v.palette_query);
        if v.palette_selected < rows.len() {
            lemma_cmd_keeps_palette(palette_closed(v), rows[v.palette_selected as int].0, now);
        }
    }
}

/// On the grid, `h`, `j`, `k` and `l` do what the arrows do: left, down,
/// up and right.
pub proof fn lemma_vi_keys_are_arrows(v: AppView, ctrl: bool, now: u64)
    requires
        !v.filter_open,
        !v.palette_open,
    ensures
        key_step(v, Key::Char('h'), ctrl, now) == key_step(v, Key::Left, ctrl, now),
        key_step(v, Key::Char('j'), ctrl, now) == key_step(v, Key::Down, ctrl, now),
        key_step(v, Key::Char('k'), ctrl, now) == key_step(v, Key::Up, ctrl, now),
        key_step(v, Key::Char('l'), ctrl, now) == key_step(v, Key::Right, ctrl, now),
{
}

/// Ctrl-C quits from the grid, the palette and the filter line alike.
pub proof fn lemma_ctrl_c_quits(v: AppView, now: u64)
    ensures
        key_step(v, Key::Char('c'), true, now).1 == Effect::Quit,
{
}

/// Pinning a repository and pinning it again leaves the pins as they
/// were: the same set of paths, and the very same list when it was not
/// pinned to begin with.
pub proof fn lemma_pin_twice(v: AppView, t1: u64, t2: u64)
    requires
        v.selected < v.repos.len(),
    ensures
        forall|q: Seq<char>|
            #[trigger] marked(pin_toggled(pin_toggled(v, t1).0, t2).0.pinned, q) == marked(v.pinned, q),
        !marked(v.pinned, v.repos[v.selected as int].path@) ==> pin_toggled(pin_toggled(v, t1).0, t2).0.pinned
            == v.pinned,
{
    let p = v.repos[v.selected as int].path@;
    let v1 = pin_toggled(v, t1).0;
    let v2 = pin_toggled(v1, t2).0;
    assert(v1.repos == v.repos && v1.selected == v.selected);
    if marked(v.pinned, p) {
        assert(v1.pinned == drop_same_paths(v.pinned, p));
        assert(!marked(v1.pinned, p)) by {
            lemma_marked_drop_same(v.pinned, p, p);
        }
        assert(v2.pinned == v1.pinned.push(p));
        assert forall|q: Seq<char>| #[trigger] marked(v2.pinned, q) == marked(v.pinned, q) by {
            lemma_marked_push(v1.pinned, p, q);
            lemma_marked_drop_same(v.pinned, p, q);
            if same_path(p, q) {
                crate::paths::lemma_within_both_same(p, q);
                assert(marked(v.pinned, q)) by {
                    let k = choose|k: int| 0 <= k < v.pinned.len() && #[trigger] same_path(v.pinned[k], p);
                    assert(same_path(v.pinned[k], q));
                }
            }
        }
    } else {
        assert(v1.pinned == v.pinned.push(p));
        assert(marked(v1.pinned, p)) by {
            lemma_marked_push(v.pinned, p, p);
        }
        assert(v2.pinned == drop_same_paths(v.pinned.push(p), p));
        lemma_drop_unmarked(v.pinned, p);
        assert(v.pinned.push(p).drop_last() =~= v.pinned);
        assert(drop_same_paths(v.pinned.push(p), p) == drop_same_paths(v.pinned, p));
    }
}

/// Hiding a repository and hiding it again leaves the hidden set as it
/// was, as long as the selection stays on it: that is, when hidden
/// repositories are shown or it was hidden to begin with. (Otherwise the
/// first press moves the selection off the repository it hid, and the
/// second press acts on the next one.)
pub proof fn lemma_hide_twice(v: AppView, t1: u64, t2: u64)
    requires
        v.selected < v.repos.len(),
        v.show_hidden || marked(v.hidden, v.repos[v.selected as int].path@),
    ensures
        forall|q: Seq<char>|
            #[trigger] marked(hide_toggled(hide_toggled(v, t1).0, t2).0.hidden, q) == marked(v.hidden, q),
{
    let p = v.repos[v.selected as int].path@;
    let v1 = hide_toggled(v, t1).0;
    let v2 = hide_toggled(v1, t2).0;
    assert(v1.repos == v.repos && v1.selected == v.selected);
    if marked(v.hidden, p) {
        assert(v1.hidden == drop_same_paths(v.hidden, p));
        assert(!marked(v1.hidden, p)) by {
            lemma_marked_drop_same(v.hidden, p, p);
        }
        assert(v2.hidden == v1.hidden.push(p));
        assert forall|q: Seq<char>| #[trigger] marked(v2.hidden, q) == marked(v.hidden, q) by {
            lemma_marked_push(v1.hidden, p, q);
            lemma_marked_drop_same(v.hidden, p, q);
            if same_path(p, q) {
                crate::paths::lemma_within_both_same(p, q);
                assert(marked(v.hidden, q)) by {
                    let k = choose|k: int| 0 <= k < v.hidden.len() && #[trigger] same_path(v.hidden[k], p);
                    assert(same_path(v.hidden[k], q));
                }
            }
        }
    } else {
        assert(v1.hidden == v.hidden.push(p));
        assert(marked(v1.hidden, p)) by {
            lemma_marked_push(v.hidden, p, p);
        }
        assert(v2.hidden == drop_same_paths(v.hidden.push(p), p));
        lemma_drop_unmarked(v.hidden, p);
        assert(v.hidden.push(p).drop_last() =~= v.hidden);
        assert(drop_same_paths(v.hidden.push(p), p) == drop_same_paths(v.hidden, p));
    }
}

} // verus!
