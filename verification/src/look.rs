//! What the terminal interface draws, as styled text.
//!
//! Each function here decides the words, the colours and the layout
//! numbers of one part of the screen; the program hands them to the
//! terminal library as they are.

use vstd::prelude::*;
use crate::brand::{Rgb, amber, amber_strong, conflict, forest, ivory, stone, stone_strong};
use crate::order::marked;
use crate::repo::{CommitInfo, RepoStatus, spec_has_conflict, spec_is_clean, spec_is_uninitialized};
use crate::tui::{concat, concat3};
use vstd::utf8::encode_utf8;
use crate::text::{append_chars, chars_eq, chars_of, decimal, decimal_of, lemma_decimal_len_u64, lines, lines_of, string_of, strs, trim, trim_chars, trim_str, views};
use crate::tui::{App, AppView};
use crate::commands::{CmdInfo, CmdRow, commands_for, filter_commands, row_of, rows_of};

verus! {

// ── colours and styles ───────────────────────────────────────────────

/// The brand colours, by name; `Plain` is the terminal's own.
#[derive(Debug, Clone, Copy, PartialEq, Eq, Structural)]
pub enum Tone {
    Plain,
    Forest,
    Amber,
    AmberStrong,
    Stone,
    StoneStrong,
    Ivory,
    Conflict,
}

/// The colour a tone stands for, none for the terminal's own.
pub fn tone_rgb(t: Tone) -> (r: Option<Rgb>)
    ensures
        r == match t {
            Tone::Plain => None,
            Tone::Forest => Some(Rgb(0x5B, 0xA3, 0x7C)),
            Tone::Amber => Some(Rgb(0xD4, 0x9A, 0x4F)),
            Tone::AmberStrong => Some(Rgb(0xE4, 0xB6, 0x6E)),
            Tone::Stone => Some(Rgb(0x9E, 0x9B, 0x96)),
            Tone::StoneStrong => Some(Rgb(0x76, 0x74, 0x70)),
            Tone::Ivory => Some(Rgb(0xED, 0xE9, 0xE2)),
            Tone::Conflict => Some(Rgb(0xC2, 0x4A, 0x3F)),
        },
{
    match t {
        Tone::Plain => None,
        Tone::Forest => Some(forest()),
        Tone::Amber => Some(amber()),
        Tone::AmberStrong => Some(amber_strong()),
        Tone::Stone => Some(stone()),
        Tone::StoneStrong => Some(stone_strong()),
        Tone::Ivory => Some(ivory()),
        Tone::Conflict => Some(conflict()),
    }
}

/// How a piece of text is drawn.
#[derive(Debug, Clone, Copy, PartialEq, Eq, Structural)]
pub struct Look {
    pub tone: Tone,
    pub bold: bool,
    pub underlined: bool,
    pub blink: bool,
    pub italic: bool,
    pub crossed: bool,
}

pub open spec fn fg(t: Tone) -> Look {
    Look { tone: t, bold: false, underlined: false, blink: false, italic: false, crossed: false }
}

pub open spec fn strong(t: Tone) -> Look {
    Look { tone: t, bold: true, underlined: false, blink: false, italic: false, crossed: false }
}

pub open spec fn plain() -> Look {
    fg(Tone::Plain)
}

pub(crate) fn fg_of(t: Tone) -> (l: Look)
    ensures
        l == fg(t),
{
    Look { tone: t, bold: false, underlined: false, blink: false, italic: false, crossed: false }
}

fn strong_of(t: Tone) -> (l: Look)
    ensures
        l == strong(t),
{
    Look { tone: t, bold: true, underlined: false, blink: false, italic: false, crossed: false }
}

/// A run of text drawn one way.
#[derive(Debug, Clone)]
pub struct Piece {
    pub text: String,
    pub look: Look,
}

/// A piece as plain values.
pub type PieceV = (Seq<char>, Look);

pub open spec fn piece_view(p: Piece) -> PieceV {
    (p.text@, p.look)
}

pub open spec fn pieces_view(ps: Seq<Piece>) -> Seq<PieceV> {
    Seq::new(ps.len(), |i: int| piece_view(ps[i]))
}

pub open spec fn lines_view(ls: Seq<Vec<Piece>>) -> Seq<Seq<PieceV>> {
    Seq::new(ls.len(), |i: int| pieces_view(ls[i]@))
}

pub(crate) fn lit(s: &str, look: Look) -> (p: Piece)
    ensures
        piece_view(p) == (s@, look),
{
    Piece { text: string_of(&chars_of(s)), look }
}

pub(crate) fn owned(s: String, look: Look) -> (p: Piece)
    ensures
        piece_view(p) == (s@, look),
{
    Piece { text: s, look }
}

pub(crate) fn text_piece(cs: &[char], look: Look) -> (p: Piece)
    ensures
        piece_view(p) == (cs@, look),
{
    Piece { text: string_of(cs), look }
}

pub(crate) fn push_piece(line: &mut Vec<Piece>, p: Piece)
    ensures
        pieces_view(final(line)@) == pieces_view(old(line)@).push(piece_view(p)),
{
    let ghost before = pieces_view(line@);
    line.push(p);
    assert(pieces_view(line@) =~= before.push(piece_view(p)));
}

pub(crate) fn push_line(lines: &mut Vec<Vec<Piece>>, l: Vec<Piece>)
    ensures
        lines_view(final(lines)@) == lines_view(old(lines)@).push(pieces_view(l@)),
{
    let ghost before = lines_view(lines@);
    let ghost lv = pieces_view(l@);
    lines.push(l);
    assert(lines_view(lines@) =~= before.push(lv));
}

// ── the sections of the grid ─────────────────────────────────────────

/// The sections the grid groups repositories in.
#[derive(Debug, Clone, Copy, PartialEq, Eq, Structural)]
pub enum SectionKind {
    Conflicts,
    Dirty,
    Clean,
    Hidden,
}

pub open spec fn kind_label(k: SectionKind) -> Seq<char> {
    match k {
        SectionKind::Conflicts => "conflicts"@,
        SectionKind::Dirty => "dirty"@,
        SectionKind::Clean => "clean"@,
        SectionKind::Hidden => "hidden"@,
    }
}

pub open spec fn kind_tone(k: SectionKind) -> Tone {
    match k {
        SectionKind::Conflicts => Tone::Conflict,
        SectionKind::Dirty => Tone::Amber,
        SectionKind::Clean => Tone::Forest,
        SectionKind::Hidden => Tone::StoneStrong,
    }
}

impl SectionKind {
    /// The section's heading.
    pub fn label(self) -> (r: &'static str)
        ensures
            r@ == kind_label(self),
    {
        match self {
            SectionKind::Conflicts => "conflicts",
            SectionKind::Dirty => "dirty",
            SectionKind::Clean => "clean",
            SectionKind::Hidden => "hidden",
        }
    }

    /// The colour of the section's heading.
    pub fn color(self) -> (r: Tone)
        ensures
            r == kind_tone(self),
    {
        match self {
            SectionKind::Conflicts => Tone::Conflict,
            SectionKind::Dirty => Tone::Amber,
            SectionKind::Clean => Tone::Forest,
            SectionKind::Hidden => Tone::StoneStrong,
        }
    }
}

/// The section a repository goes in: hidden first, then trouble (a
/// conflict or an error), then dirty, else clean.
pub open spec fn kind_of(hidden: Seq<Seq<char>>, r: RepoStatus) -> SectionKind {
    if marked(hidden, r.path@) {
        SectionKind::Hidden
    } else if spec_has_conflict(r) || r.error is Some {
        SectionKind::Conflicts
    } else if !spec_is_clean(r) {
        SectionKind::Dirty
    } else {
        SectionKind::Clean
    }
}

/// The section a repository goes in.
pub fn classify(app: &App, repo: &RepoStatus) -> (k: SectionKind)
    ensures
        k == kind_of(app@.hidden, *repo),
{
    if crate::order::contains_path(app.hidden.as_slice(), repo.path.as_str()) {
        return SectionKind::Hidden;
    }
    if repo.has_conflict() || repo.error.is_some() {
        return SectionKind::Conflicts;
    }
    if !repo.is_clean() {
        return SectionKind::Dirty;
    }
    SectionKind::Clean
}

/// The indices of `order` whose repository goes in section `k`, in order.
pub open spec fn bucket(v: AppView, order: Seq<usize>, k: SectionKind) -> Seq<usize>
    decreases order.len(),
{
    if order.len() == 0 {
        Seq::empty()
    } else {
        let prev = bucket(v, order.drop_last(), k);
        if kind_of(v.hidden, v.repos[order.last() as int]) == k {
            prev.push(order.last())
        } else {
            prev
        }
    }
}

/// The groups that are not empty, in order.
pub open spec fn nonempty_groups(g: Seq<(SectionKind, Seq<usize>)>) -> Seq<(SectionKind, Seq<usize>)>
    decreases g.len(),
{
    if g.len() == 0 {
        Seq::empty()
    } else {
        let prev = nonempty_groups(g.drop_last());
        if g.last().1.len() > 0 {
            prev.push(g.last())
        } else {
            prev
        }
    }
}

/// The grid's sections: conflicts, dirty, clean, hidden, each with its
/// repositories in the order given, the empty ones left out.
pub open spec fn groups_of(v: AppView, order: Seq<usize>) -> Seq<(SectionKind, Seq<usize>)> {
    nonempty_groups(
        seq![
            (SectionKind::Conflicts, bucket(v, order, SectionKind::Conflicts)),
            (SectionKind::Dirty, bucket(v, order, SectionKind::Dirty)),
            (SectionKind::Clean, bucket(v, order, SectionKind::Clean)),
            (SectionKind::Hidden, bucket(v, order, SectionKind::Hidden)),
        ],
    )
}

pub open spec fn groups_view(g: Seq<(SectionKind, Vec<usize>)>) -> Seq<(SectionKind, Seq<usize>)> {
    Seq::new(g.len(), |i: int| (g[i].0, g[i].1@))
}

fn push_group(out: &mut Vec<(SectionKind, Vec<usize>)>, k: SectionKind, v: Vec<usize>)
    ensures
        groups_view(final(out)@) == if v@.len() > 0 {
            groups_view(old(out)@).push((k, v@))
        } else {
            groups_view(old(out)@)
        },
{
    if v.len() > 0 {
        let ghost before = groups_view(out@);
        let ghost vv = v@;
        out.push((k, v));
        assert(groups_view(out@) =~= before.push((k, vv)));
    }
}

/// The grid's sections for the repositories in `order`.
pub fn group_by_section(app: &App, order: &[usize]) -> (r: Vec<(SectionKind, Vec<usize>)>)
    requires
        forall|i: int| 0 <= i < order@.len() ==> order@[i] < app.repos@.len(),
    ensures
        groups_view(r@) == groups_of(app@, order@),
{
    let ghost v = app@;
    let mut conflicts: Vec<usize> = Vec::new();
    let mut dirty: Vec<usize> = Vec::new();
    let mut clean: Vec<usize> = Vec::new();
    let mut hidden: Vec<usize> = Vec::new();
    let mut k: usize = 0;
    assert(order@.subrange(0, 0) =~= Seq::<usize>::empty());
    while k < order.len()
        invariant
            v == app@,
            k <= order@.len(),
            forall|i: int| 0 <= i < order@.len() ==> order@[i] < app.repos@.len(),
            conflicts@ == bucket(v, order@.subrange(0, k as int), SectionKind::Conflicts),
            dirty@ == bucket(v, order@.subrange(0, k as int), SectionKind::Dirty),
            clean@ == bucket(v, order@.subrange(0, k as int), SectionKind::Clean),
            hidden@ == bucket(v, order@.subrange(0, k as int), SectionKind::Hidden),
        decreases order.len() - k,
    {
        let i = order[k];
        let ghost pre = order@.subrange(0, k as int);
        let ghost next = order@.subrange(0, k + 1);
        assert(next.drop_last() =~= pre);
        assert(next.last() == i);
        match classify(app, &app.repos[i]) {
            SectionKind::Conflicts => conflicts.push(i),
            SectionKind::Dirty => dirty.push(i),
            SectionKind::Clean => clean.push(i),
            SectionKind::Hidden => hidden.push(i),
        }
        k = k + 1;
    }
    assert(order@.subrange(0, order@.len() as int) =~= order@);
    let mut out: Vec<(SectionKind, Vec<usize>)> = Vec::new();
    let ghost g = seq![
        (SectionKind::Conflicts, conflicts@),
        (SectionKind::Dirty, dirty@),
        (SectionKind::Clean, clean@),
        (SectionKind::Hidden, hidden@),
    ];
    assert(g.subrange(0, 0) =~= Seq::<(SectionKind, Seq<usize>)>::empty());
    assert(groups_view(out@) =~= nonempty_groups(g.subrange(0, 0)));
    push_group(&mut out, SectionKind::Conflicts, conflicts);
    assert(g.subrange(0, 1).drop_last() =~= g.subrange(0, 0));
    assert(g.subrange(0, 1).last() == g[0]);
    assert(groups_view(out@) == nonempty_groups(g.subrange(0, 1)));
    push_group(&mut out, SectionKind::Dirty, dirty);
    assert(g.subrange(0, 2).drop_last() =~= g.subrange(0, 1));
    assert(g.subrange(0, 2).last() == g[1]);
    assert(groups_view(out@) == nonempty_groups(g.subrange(0, 2)));
    push_group(&mut out, SectionKind::Clean, clean);
    assert(g.subrange(0, 3).drop_last() =~= g.subrange(0, 2));
    assert(g.subrange(0, 3).last() == g[2]);
    assert(groups_view(out@) == nonempty_groups(g.subrange(0, 3)));
    push_group(&mut out, SectionKind::Hidden, hidden);
    assert(g.subrange(0, 4).drop_last() =~= g.subrange(0, 3));
    assert(g.subrange(0, 4).last() == g[3]);
    assert(groups_view(out@) == nonempty_groups(g.subrange(0, 4)));
    assert(g.subrange(0, 4) =~= g);
    out
}

// ── times ────────────────────────────────────────────────────────────

/// How long ago, in the tile's short form: seconds, minutes, hours,
/// days, months of thirty days, or years of 365 days, whichever is the
/// largest that is at least one.
pub open spec fn relative_time_of(secs: nat) -> Seq<char> {
    let mins = secs / 60;
    let hrs = mins / 60;
    let days = hrs / 24;
    let months = days / 30;
    if secs < 60 {
        decimal_of(secs) + "s"@
    } else if mins < 60 {
        decimal_of(mins) + "m"@
    } else if hrs < 24 {
        decimal_of(hrs) + "h"@
    } else if days < 30 {
        decimal_of(days) + "d"@
    } else if months < 12 {
        decimal_of(months) + "mo"@
    } else {
        decimal_of(days / 365) + "y"@
    }
}

fn number_then(n: u64, unit: &str) -> (r: Vec<char>)
    ensures
        r@ == decimal_of(n as nat) + unit@,
{
    let mut out = decimal(n);
    append_chars(&mut out, &chars_of(unit));
    out
}

/// How long ago something `secs` seconds old happened.
pub fn relative_time(secs: u64) -> (r: String)
    ensures
        r@ == relative_time_of(secs as nat),
{
    let cs = relative_time_chars(secs);
    string_of(&cs)
}

fn relative_time_chars(secs: u64) -> (r: Vec<char>)
    ensures
        r@ == relative_time_of(secs as nat),
{
    if secs < 60 {
        return number_then(secs, "s");
    }
    let mins = secs / 60;
    if mins < 60 {
        return number_then(mins, "m");
    }
    let hrs = mins / 60;
    if hrs < 24 {
        return number_then(hrs, "h");
    }
    let days = hrs / 24;
    if days < 30 {
        return number_then(days, "d");
    }
    let months = days / 30;
    if months < 12 {
        return number_then(months, "mo");
    }
    number_then(days / 365, "y")
}

/// How long ago, in the header's form: seconds, minutes or hours.
pub open spec fn relative_short_of(secs: nat) -> Seq<char> {
    if secs < 60 {
        decimal_of(secs) + "s"@
    } else if secs < 3600 {
        decimal_of(secs / 60) + " min"@
    } else {
        decimal_of(secs / 3600) + "h"@
    }
}

pub fn relative_short(secs: u64) -> (r: String)
    ensures
        r@ == relative_short_of(secs as nat),
{
    let cs = if secs < 60 {
        number_then(secs, "s")
    } else if secs < 3600 {
        number_then(secs / 60, " min")
    } else {
        number_then(secs / 3600, "h")
    };
    string_of(&cs)
}

/// Seconds from `then` to `now`, none when `then` is later.
pub open spec fn secs_since(then: u64, now: u64) -> nat {
    if now >= then {
        (now - then) as nat
    } else {
        0
    }
}

// ── a section's heading ──────────────────────────────────────────────

/// `── label count ───…`, the rule running to the width of the grid.
pub open spec fn section_header_of(k: SectionKind, count: nat, width: nat) -> Seq<PieceV> {
    let count_str = " "@ + decimal_of(count) + " "@;
    let prefix_len = 3 + kind_label(k).len() + count_str.len() + 1;
    let trailing = if width > prefix_len {
        (width - prefix_len) as nat
    } else {
        0
    };
    seq![
        ("── "@, fg(Tone::StoneStrong)),
        (kind_label(k), strong(kind_tone(k))),
        (count_str, fg(Tone::Stone)),
        (Seq::new(trailing, |i: int| '─'), fg(Tone::StoneStrong)),
    ]
}

pub(crate) fn repeat_char(c: char, n: usize) -> (r: Vec<char>)
    ensures
        r@ == Seq::new(n as nat, |i: int| c),
{
    let mut out: Vec<char> = Vec::new();
    let mut k: usize = 0;
    while k < n
        invariant
            k <= n,
            out@ == Seq::new(k as nat, |i: int| c),
        decreases n - k,
    {
        out.push(c);
        k = k + 1;
        assert(out@ =~= Seq::new(k as nat, |i: int| c));
    }
    out
}

/// A section's heading line, for a grid `width` columns wide.
pub fn section_header(k: SectionKind, count: usize, width: u16) -> (r: Vec<Piece>)
    ensures
        pieces_view(r@) == section_header_of(k, count as nat, width as nat),
{
    let mut count_str = chars_of(" ");
    append_chars(&mut count_str, &decimal(count as u64));
    count_str.push(' ');
    let label = k.label();
    let label_len = chars_of(label).len();
    proof {
        lemma_decimal_len_u64(count as u64);
        reveal_strlit("conflicts");
        reveal_strlit("dirty");
        reveal_strlit("clean");
        reveal_strlit("hidden");
        reveal_strlit(" ");
        assert(label_len <= 9);
        assert(count_str@ =~= " "@ + decimal_of(count as nat) + " "@);
        assert(count_str@.len() <= 22);
    }
    let prefix_len: usize = 3 + label_len + count_str.len() + 1;
    let trailing: usize = if (width as usize) > prefix_len {
        width as usize - prefix_len
    } else {
        0
    };
    let mut line: Vec<Piece> = Vec::new();
    push_piece(&mut line, lit("── ", fg_of(Tone::StoneStrong)));
    push_piece(&mut line, lit(label, strong_of(k.color())));
    push_piece(&mut line, text_piece(&count_str, fg_of(Tone::Stone)));
    push_piece(&mut line, text_piece(&repeat_char('─', trailing), fg_of(Tone::StoneStrong)));
    assert(pieces_view(line@) =~= section_header_of(k, count as nat, width as nat));
    line
}

// ── the grid ─────────────────────────────────────────────────────────

/// Tiles are at least this wide.
pub open spec fn tile_min_w() -> nat {
    32
}

/// The grid's columns for a width: as many tiles as fit, one at least,
/// four at most.
pub open spec fn grid_cols_of(width: nat) -> nat {
    let fit = width / 32;
    let avail = if fit < 1 {
        1
    } else {
        fit
    };
    if avail > 4 {
        4
    } else {
        avail
    }
}

pub fn grid_columns(width: u16) -> (r: usize)
    ensures
        r == grid_cols_of(width as nat),
        1 <= r <= 4,
{
    let fit = (width / 32) as usize;
    let avail = if fit < 1 {
        1
    } else {
        fit
    };
    if avail > 4 {
        4
    } else {
        avail
    }
}

/// `s` cut into rows of `c` (the last may be short).
pub open spec fn rows_of_tiles(s: Seq<usize>, c: nat) -> Seq<Seq<usize>>
    decreases s.len(),
{
    if s.len() == 0 || c == 0 {
        Seq::empty()
    } else if s.len() <= c {
        seq![s]
    } else {
        seq![s.take(c as int)] + rows_of_tiles(s.skip(c as int), c)
    }
}

/// A horizontal band of the grid, top to bottom.
#[derive(Debug, Clone)]
pub enum Band {
    /// The blank line between two sections.
    Gap,
    /// A section's heading, with how many repositories it holds.
    Header(SectionKind, usize),
    /// A row of tiles: the repositories, left to right.
    Tiles(Vec<usize>),
}

/// A band as plain values.
pub enum BandV {
    Gap,
    Header(SectionKind, nat),
    Tiles(Seq<usize>),
}

pub open spec fn band_view(b: Band) -> BandV {
    match b {
        Band::Gap => BandV::Gap,
        Band::Header(k, n) => BandV::Header(k, n as nat),
        Band::Tiles(v) => BandV::Tiles(v@),
    }
}

pub open spec fn bands_view(bs: Seq<Band>) -> Seq<BandV> {
    Seq::new(bs.len(), |i: int| band_view(bs[i]))
}

/// The bands of the grid: each section's heading, then its rows of
/// tiles, a gap between sections.
pub open spec fn grid_plan_of(groups: Seq<(SectionKind, Seq<usize>)>, cols: nat) -> Seq<BandV>
    decreases groups.len(),
{
    if groups.len() == 0 {
        Seq::empty()
    } else {
        let prev = grid_plan_of(groups.drop_last(), cols);
        let g = groups.last();
        let gap: Seq<BandV> = if groups.len() > 1 {
            seq![BandV::Gap]
        } else {
            Seq::empty()
        };
        let tiles = rows_of_tiles(g.1, cols);
        prev + gap + seq![BandV::Header(g.0, g.1.len())] + Seq::new(tiles.len(), |r: int| BandV::Tiles(tiles[r]))
    }
}

fn push_band(out: &mut Vec<Band>, b: Band)
    ensures
        bands_view(final(out)@) == bands_view(old(out)@).push(band_view(b)),
{
    let ghost before = bands_view(out@);
    let ghost bv = band_view(b);
    out.push(b);
    assert(bands_view(out@) =~= before.push(bv));
}

fn push_rows(out: &mut Vec<Band>, s: &Vec<usize>, c: usize)
    requires
        c >= 1,
    ensures
        bands_view(final(out)@) == bands_view(old(out)@) + Seq::new(
            rows_of_tiles(s@, c as nat).len(),
            |r: int| BandV::Tiles(rows_of_tiles(s@, c as nat)[r]),
        ),
{
    let ghost start = bands_view(out@);
    let mut at: usize = 0;
    let ghost mut done: Seq<BandV> = Seq::empty();
    assert(s@.skip(0) =~= s@);
    while at < s.len()
        invariant
            c >= 1,
            at <= s@.len(),
            bands_view(out@) == start + done,
            done + Seq::new(
                rows_of_tiles(s@.skip(at as int), c as nat).len(),
                |r: int| BandV::Tiles(rows_of_tiles(s@.skip(at as int), c as nat)[r]),
            ) == Seq::new(
                rows_of_tiles(s@, c as nat).len(),
                |r: int| BandV::Tiles(rows_of_tiles(s@, c as nat)[r]),
            ),
        decreases s.len() - at,
    {
        let ghost rest = s@.skip(at as int);
        let end = if s.len() - at <= c {
            s.len()
        } else {
            at + c
        };
        let mut row: Vec<usize> = Vec::new();
        let mut k: usize = at;
        while k < end
            invariant
                at <= k <= end <= s@.len(),
                row@ == s@.subrange(at as int, k as int),
            decreases end - k,
        {
            row.push(s[k]);
            k = k + 1;
            assert(row@ =~= s@.subrange(at as int, k as int));
        }
        let ghost rv = row@;
        let ghost rows_rest = rows_of_tiles(rest, c as nat);
        let ghost rows_next = rows_of_tiles(s@.skip(end as int), c as nat);
        if s.len() - at <= c {
            assert(rv =~= rest);
            assert(rows_rest =~= seq![rest]);
            assert(s@.skip(end as int) =~= Seq::<usize>::empty());
        } else {
            assert(rv =~= rest.take(c as int));
            assert(rest.skip(c as int) =~= s@.skip(end as int));
            assert(rows_rest =~= seq![rest.take(c as int)] + rows_next);
        }
        push_band(out, Band::Tiles(row));
        proof {
            let full = Seq::new(rows_rest.len(), |r: int| BandV::Tiles(rows_rest[r]));
            let tail = Seq::new(rows_next.len(), |r: int| BandV::Tiles(rows_next[r]));
            assert(full =~= seq![BandV::Tiles(rv)] + tail);
            assert((done.push(BandV::Tiles(rv))) + tail =~= done + full);
            done = done.push(BandV::Tiles(rv));
        }
        at = end;
    }
    assert(s@.skip(at as int) =~= Seq::<usize>::empty());
    assert(done =~= Seq::new(
        rows_of_tiles(s@, c as nat).len(),
        |r: int| BandV::Tiles(rows_of_tiles(s@, c as nat)[r]),
    ));
}

/// The bands of the grid for its sections and columns.
pub fn grid_plan(groups: &Vec<(SectionKind, Vec<usize>)>, cols: usize) -> (r: Vec<Band>)
    requires
        cols >= 1,
    ensures
        bands_view(r@) == grid_plan_of(groups_view(groups@), cols as nat),
{
    let ghost gv = groups_view(groups@);
    let mut out: Vec<Band> = Vec::new();
    let mut i: usize = 0;
    assert(gv.subrange(0, 0) =~= Seq::<(SectionKind, Seq<usize>)>::empty());
    assert(bands_view(out@) =~= Seq::<BandV>::empty());
    while i < groups.len()
        invariant
            cols >= 1,
            gv == groups_view(groups@),
            i <= groups@.len(),
            bands_view(out@) == grid_plan_of(gv.subrange(0, i as int), cols as nat),
        decreases groups.len() - i,
    {
        let ghost pre = gv.subrange(0, i as int);
        let ghost next = gv.subrange(0, i + 1);
        assert(next.drop_last() =~= pre);
        assert(next.last() == gv[i as int]);
        let ghost before = bands_view(out@);
        if i > 0 {
            push_band(&mut out, Band::Gap);
        }
        let ghost after_gap = bands_view(out@);
        push_band(&mut out, Band::Header(groups[i].0, groups[i].1.len()));
        push_rows(&mut out, &groups[i].1, cols);
        proof {
            let g = next.last();
            let gap: Seq<BandV> = if next.len() > 1 {
                seq![BandV::Gap]
            } else {
                Seq::empty()
            };
            assert(after_gap == before + gap);
            let tiles = rows_of_tiles(g.1, cols as nat);
            assert(bands_view(out@) =~= before + gap + seq![BandV::Header(g.0, g.1.len())] + Seq::new(
                tiles.len(),
                |r: int| BandV::Tiles(tiles[r]),
            ));
        }
        i = i + 1;
    }
    assert(gv.subrange(0, groups@.len() as int) =~= gv);
    out
}

// ── a repository's tile ──────────────────────────────────────────────

/// The colour of a repository's state: trouble, empty, dirty or clean.
pub open spec fn state_tone(r: RepoStatus) -> Tone {
    if r.error is Some || spec_has_conflict(r) {
        Tone::Conflict
    } else if spec_is_uninitialized(r) {
        Tone::StoneStrong
    } else if !spec_is_clean(r) {
        Tone::Amber
    } else {
        Tone::Forest
    }
}

fn state_tone_of(r: &RepoStatus) -> (t: Tone)
    ensures
        t == state_tone(*r),
{
    if r.error.is_some() || r.has_conflict() {
        Tone::Conflict
    } else if r.is_uninitialized() {
        Tone::StoneStrong
    } else if !r.is_clean() {
        Tone::Amber
    } else {
        Tone::Forest
    }
}

/// The tile's frame: ivory and bold when selected, muted when hidden,
/// else the state's colour.
pub open spec fn tile_border(r: RepoStatus, selected: bool, hidden: bool) -> Look {
    let t = if selected {
        Tone::Ivory
    } else if hidden {
        Tone::StoneStrong
    } else {
        state_tone(r)
    };
    if selected {
        strong(t)
    } else {
        fg(t)
    }
}

/// The tile's title: a mark for hidden or pinned, then the name.
pub open spec fn tile_title(r: RepoStatus, pinned: bool, hidden: bool) -> Seq<PieceV> {
    let mark = if hidden {
        ("✗ "@, fg(Tone::StoneStrong))
    } else if pinned {
        ("★ "@, fg(Tone::AmberStrong))
    } else {
        (" "@, plain())
    };
    seq![
        mark,
        (
            r.name@ + " "@,
            strong(
                if hidden {
                    Tone::Stone
                } else {
                    Tone::Ivory
                },
            ),
        ),
    ]
}

pub open spec fn empty_pieces() -> Seq<PieceV> {
    Seq::empty()
}

/// The branch line: the branch (or that there is none), how far ahead
/// of and behind its upstream, and the newest tag with the commits since.
pub open spec fn branch_line(r: RepoStatus) -> Seq<PieceV> {
    seq![
        (" "@, fg(Tone::AmberStrong)),
        match r.branch {
            Some(b) => (b@, strong(Tone::AmberStrong)),
            None => ("(no head)"@, fg(Tone::Stone)),
        },
    ] + track_of(r) + tag_of(r)
}

pub open spec fn count_piece(sym: Seq<char>, n: usize, look: Look) -> Seq<PieceV> {
    if n > 0 {
        seq![(sym + decimal_of(n as nat) + " "@, look)]
    } else {
        empty_pieces()
    }
}

/// The counts line: staged, modified, untracked, conflicted and stashed,
/// those that are not zero; `clean` when all are.
pub open spec fn counts_line(r: RepoStatus) -> Seq<PieceV> {
    let s = count_piece("+"@, r.staged, strong(Tone::Forest)) + count_piece("~"@, r.modified, fg(Tone::Amber))
        + count_piece("?"@, r.untracked, fg(Tone::StoneStrong)) + count_piece("!"@, r.conflicted, strong(Tone::Conflict))
        + count_piece("⌂"@, r.stashed, fg(Tone::AmberStrong));
    if s.len() == 0 {
        seq![("clean"@, fg(Tone::Stone))]
    } else {
        s
    }
}

/// The last commit's line: its short id, its summary cut to what fits
/// in a tile `width` columns wide, and how long ago it was made. What
/// the id and the age take is counted in UTF-8 bytes.
pub open spec fn commit_line(c: CommitInfo, width: nat, now: u64) -> Seq<PieceV> {
    let rel = relative_time_of(secs_since(c.time, now));
    let body_w: int = if width >= 2 {
        width - 2
    } else {
        0
    };
    let reserved: int = (encode_utf8(c.short_sha@).len() as usize) as int + rel.len() as int + 3;
    let summary_max: int = if body_w > reserved {
        body_w - reserved
    } else {
        0
    };
    let summary = if summary_max < c.summary@.len() {
        c.summary@.take(summary_max)
    } else {
        c.summary@
    };
    seq![
        (c.short_sha@, fg(Tone::Stone)),
        (" "@, plain()),
        (summary, fg(Tone::Ivory)),
        (" "@, plain()),
        (rel, fg(Tone::Stone)),
    ]
}

/// The tile's lines: the error when reading the repository failed; else
/// the branch line, the counts line, and the last commit's line when
/// there is one.
pub open spec fn tile_lines(r: RepoStatus, width: nat, now: u64) -> Seq<Seq<PieceV>> {
    match r.error {
        Some(e) => seq![seq![(e@, fg(Tone::Conflict))]],
        None => {
            let two = seq![branch_line(r), counts_line(r)];
            match r.last_commit {
                Some(c) => two.push(commit_line(c, width, now)),
                None => two,
            }
        },
    }
}

/// A repository's tile.
pub struct Tile {
    pub border: Look,
    pub thick: bool,
    pub title: Vec<Piece>,
    pub lines: Vec<Vec<Piece>>,
}

/// A tile as plain values: its frame's look, whether the frame is thick
/// (when selected), its title and its lines.
pub open spec fn tile_of(
    r: RepoStatus,
    selected: bool,
    pinned: bool,
    hidden: bool,
    width: nat,
    now: u64,
) -> (Look, bool, Seq<PieceV>, Seq<Seq<PieceV>>) {
    (tile_border(r, selected, hidden), selected, tile_title(r, pinned, hidden), tile_lines(r, width, now))
}

fn number_piece(sym: &str, n: usize, look: Look) -> (p: Piece)
    ensures
        piece_view(p) == (sym@ + decimal_of(n as nat), look),
{
    let mut cs = chars_of(sym);
    append_chars(&mut cs, &decimal(n as u64));
    text_piece(&cs, look)
}

pub open spec fn track_of(r: RepoStatus) -> Seq<PieceV> {
    let ahead = if r.ahead > 0 {
        seq![("↑"@ + decimal_of(r.ahead as nat), strong(Tone::Forest))]
    } else {
        empty_pieces()
    };
    let behind = if r.behind > 0 {
        (if r.ahead > 0 {
            seq![(" "@, plain())]
        } else {
            empty_pieces()
        }) + seq![("↓"@ + decimal_of(r.behind as nat), fg(Tone::Amber))]
    } else {
        empty_pieces()
    };
    if r.ahead > 0 || r.behind > 0 {
        seq![("  "@, plain())] + ahead + behind
    } else {
        empty_pieces()
    }
}

fn push_track(line: &mut Vec<Piece>, r: &RepoStatus)
    ensures
        pieces_view(final(line)@) == pieces_view(old(line)@) + track_of(*r),
{
    let ghost start = pieces_view(line@);
    if r.ahead > 0 || r.behind > 0 {
        push_piece(line, lit("  ", fg_of(Tone::Plain)));
        let ghost a0 = pieces_view(line@);
        if r.ahead > 0 {
            push_piece(line, number_piece("↑", r.ahead, strong_of(Tone::Forest)));
        }
        let ghost a1 = pieces_view(line@);
        if r.behind > 0 {
            if r.ahead > 0 {
                push_piece(line, lit(" ", fg_of(Tone::Plain)));
            }
            push_piece(line, number_piece("↓", r.behind, fg_of(Tone::Amber)));
        }
        assert(pieces_view(line@) =~= start + track_of(*r));
    } else {
        assert(pieces_view(line@) =~= start + track_of(*r));
    }
}

pub open spec fn tag_of(r: RepoStatus) -> Seq<PieceV> {
    match r.latest_tag {
        Some(t) => seq![("  "@, plain()), ("◇ "@, fg(Tone::Stone)), (t.name@, strong(Tone::AmberStrong))] + if t.commits_since
            > 0 {
            seq![("+"@ + decimal_of(t.commits_since as nat), fg(Tone::StoneStrong))]
        } else {
            empty_pieces()
        },
        None => empty_pieces(),
    }
}

fn push_tag(line: &mut Vec<Piece>, r: &RepoStatus)
    ensures
        pieces_view(final(line)@) == pieces_view(old(line)@) + tag_of(*r),
{
    let ghost start = pieces_view(line@);
    match &r.latest_tag {
        Some(t) => {
            push_piece(line, lit("  ", fg_of(Tone::Plain)));
            push_piece(line, lit("◇ ", fg_of(Tone::Stone)));
            push_piece(line, owned(t.name.clone(), strong_of(Tone::AmberStrong)));
            if t.commits_since > 0 {
                push_piece(line, number_piece("+", t.commits_since, fg_of(Tone::StoneStrong)));
            }
        },
        None => {},
    }
    assert(pieces_view(line@) =~= start + tag_of(*r));
}

fn branch_pieces(r: &RepoStatus) -> (line: Vec<Piece>)
    ensures
        pieces_view(line@) == branch_line(*r),
{
    let mut line: Vec<Piece> = Vec::new();
    push_piece(&mut line, lit(" ", fg_of(Tone::AmberStrong)));
    match &r.branch {
        Some(b) => push_piece(&mut line, owned(b.clone(), strong_of(Tone::AmberStrong))),
        None => push_piece(&mut line, lit("(no head)", fg_of(Tone::Stone))),
    }
    push_track(&mut line, r);
    push_tag(&mut line, r);
    assert(pieces_view(line@) =~= branch_line(*r));
    line
}

fn push_count(line: &mut Vec<Piece>, sym: &str, n: usize, look: Look)
    ensures
        pieces_view(final(line)@) == pieces_view(old(line)@) + count_piece(sym@, n, look),
{
    let ghost before = pieces_view(line@);
    if n > 0 {
        let mut cs = chars_of(sym);
        append_chars(&mut cs, &decimal(n as u64));
        cs.push(' ');
        proof {
            reveal_strlit(" ");
        }
        assert(cs@ =~= sym@ + decimal_of(n as nat) + " "@);
        push_piece(line, text_piece(&cs, look));
        assert(pieces_view(line@) =~= before + count_piece(sym@, n, look));
    } else {
        assert(pieces_view(line@) =~= before + count_piece(sym@, n, look));
    }
}

fn counts_pieces(r: &RepoStatus) -> (line: Vec<Piece>)
    ensures
        pieces_view(line@) == counts_line(*r),
{
    let mut line: Vec<Piece> = Vec::new();
    assert(pieces_view(line@) =~= empty_pieces());
    push_count(&mut line, "+", r.staged, strong_of(Tone::Forest));
    push_count(&mut line, "~", r.modified, fg_of(Tone::Amber));
    push_count(&mut line, "?", r.untracked, fg_of(Tone::StoneStrong));
    push_count(&mut line, "!", r.conflicted, strong_of(Tone::Conflict));
    push_count(&mut line, "⌂", r.stashed, fg_of(Tone::AmberStrong));
    if line.len() == 0 {
        push_piece(&mut line, lit("clean", fg_of(Tone::Stone)));
        assert(pieces_view(line@) =~= seq![("clean"@, fg(Tone::Stone))]);
    }
    line
}

fn take_chars(s: &str, n: usize) -> (r: Vec<char>)
    ensures
        r@ == if n < s@.len() {
            s@.take(n as int)
        } else {
            s@
        },
{
    let cs = chars_of(s);
    if n < cs.len() {
        crate::text::slice_chars(&cs, 0, n)
    } else {
        cs
    }
}

fn commit_pieces(c: &CommitInfo, width: u16, now: u64) -> (line: Vec<Piece>)
    ensures
        pieces_view(line@) == commit_line(*c, width as nat, now),
{
    let age = if now >= c.time {
        now - c.time
    } else {
        0
    };
    let rel = relative_time_chars(age);
    let body_w: usize = if width >= 2 {
        (width - 2) as usize
    } else {
        0
    };
    let sha_len = c.short_sha.as_str().len();
    let summary_max = body_w.saturating_sub(sha_len).saturating_sub(rel.len()).saturating_sub(3);
    let summary = take_chars(c.summary.as_str(), summary_max);
    proof {
        let relv = relative_time_of(secs_since(c.time, now));
        assert(rel@ == relv);
        assert(sha_len == encode_utf8(c.short_sha@).len() as usize);
        let reserved: int = (encode_utf8(c.short_sha@).len() as usize) as int + relv.len() as int + 3;
        assert(summary_max == if body_w > reserved {
            body_w - reserved
        } else {
            0
        });
    }
    let mut line: Vec<Piece> = Vec::new();
    push_piece(&mut line, owned(c.short_sha.clone(), fg_of(Tone::Stone)));
    push_piece(&mut line, lit(" ", fg_of(Tone::Plain)));
    push_piece(&mut line, text_piece(&summary, fg_of(Tone::Ivory)));
    push_piece(&mut line, lit(" ", fg_of(Tone::Plain)));
    push_piece(&mut line, text_piece(&rel, fg_of(Tone::Stone)));
    assert(pieces_view(line@) =~= commit_line(*c, width as nat, now));
    line
}

/// A repository's tile: `selected`, `pinned` and `hidden` as it is on
/// screen, `width` the tile's width in columns, `now` the time in seconds.
pub fn tile(repo: &RepoStatus, selected: bool, pinned: bool, hidden: bool, width: u16, now: u64) -> (t: Tile)
    ensures
        (t.border, t.thick, pieces_view(t.title@), lines_view(t.lines@)) == tile_of(
            *repo,
            selected,
            pinned,
            hidden,
            width as nat,
            now,
        ),
{
    let st = state_tone_of(repo);
    let tone = if selected {
        Tone::Ivory
    } else if hidden {
        Tone::StoneStrong
    } else {
        st
    };
    let border = if selected {
        strong_of(tone)
    } else {
        fg_of(tone)
    };
    let mut title: Vec<Piece> = Vec::new();
    if hidden {
        push_piece(&mut title, lit("✗ ", fg_of(Tone::StoneStrong)));
    } else if pinned {
        push_piece(&mut title, lit("★ ", fg_of(Tone::AmberStrong)));
    } else {
        push_piece(&mut title, lit(" ", fg_of(Tone::Plain)));
    }
    let name_tone = if hidden {
        Tone::Stone
    } else {
        Tone::Ivory
    };
    push_piece(&mut title, owned(concat(repo.name.as_str(), " "), strong_of(name_tone)));
    assert(pieces_view(title@) =~= tile_title(*repo, pinned, hidden));
    let mut lines: Vec<Vec<Piece>> = Vec::new();
    match &repo.error {
        Some(e) => {
            let mut l: Vec<Piece> = Vec::new();
            assert(pieces_view(l@) =~= empty_pieces());
            push_piece(&mut l, owned(e.clone(), fg_of(Tone::Conflict)));
            assert(pieces_view(l@) =~= seq![(e@, fg(Tone::Conflict))]);
            assert(lines_view(lines@) =~= Seq::<Seq<PieceV>>::empty());
            push_line(&mut lines, l);
            assert(lines_view(lines@) =~= seq![seq![(e@, fg(Tone::Conflict))]]);
        },
        None => {
            assert(lines_view(lines@) =~= Seq::<Seq<PieceV>>::empty());
            push_line(&mut lines, branch_pieces(repo));
            push_line(&mut lines, counts_pieces(repo));
            assert(lines_view(lines@) =~= seq![branch_line(*repo), counts_line(*repo)]);
            match &repo.last_commit {
                Some(c) => {
                    push_line(&mut lines, commit_pieces(c, width, now));
                    assert(lines_view(lines@) =~= seq![branch_line(*repo), counts_line(*repo)].push(
                        commit_line(*c, width as nat, now),
                    ));
                },
                None => {},
            }
        },
    }
    assert(lines_view(lines@) =~= tile_lines(*repo, width as nat, now));
    Tile { border, thick: selected, title, lines }
}

// ── the header and the footer ────────────────────────────────────────

/// How many of `repos` satisfy `p`.
pub open spec fn count_repos(repos: Seq<RepoStatus>, p: spec_fn(RepoStatus) -> bool) -> nat
    decreases repos.len(),
{
    if repos.len() == 0 {
        0
    } else {
        count_repos(repos.drop_last(), p) + if p(repos.last()) {
            1nat
        } else {
            0
        }
    }
}

pub open spec fn is_dirty_only(r: RepoStatus) -> bool {
    !spec_is_clean(r) && r.error is None && !spec_has_conflict(r)
}

pub open spec fn dirty_pred() -> spec_fn(RepoStatus) -> bool {
    |r: RepoStatus| is_dirty_only(r)
}

pub open spec fn conflict_pred() -> spec_fn(RepoStatus) -> bool {
    |r: RepoStatus| spec_has_conflict(r)
}

pub open spec fn muted(v: AppView) -> spec_fn(RepoStatus) -> bool {
    |r: RepoStatus| marked(v.hidden, r.path@)
}

pub open spec fn busy_tone(n: nat, busy: Tone) -> Tone {
    if n > 0 {
        busy
    } else {
        Tone::StoneStrong
    }
}

/// The header's first line: the name, the folders, and the counts of
/// repositories, dirty ones, conflicts, pins and hidden ones.
pub open spec fn header_of(v: AppView) -> Seq<PieceV> {
    let n = v.repos.len();
    let dirty = count_repos(v.repos, dirty_pred());
    let conflicts = count_repos(v.repos, conflict_pred());
    let pinned = v.pinned.len();
    let hidden = count_repos(v.repos, muted(v));
    seq![
        ("den"@, strong(Tone::AmberStrong)),
        ("  "@, plain()),
        (crate::tui::bases_label_of(v.bases), fg(Tone::Amber)),
        ("  "@, plain()),
        (decimal_of(n) + " repos"@, fg(Tone::AmberStrong)),
        ("  "@, plain()),
        (decimal_of(dirty) + " dirty"@, fg(busy_tone(dirty, Tone::AmberStrong))),
        ("  "@, plain()),
        (decimal_of(conflicts) + " conflicts"@, fg(busy_tone(conflicts, Tone::Conflict))),
        ("  "@, plain()),
        (decimal_of(pinned) + " pinned"@, fg(busy_tone(pinned, Tone::AmberStrong))),
        ("  "@, plain()),
        (
            decimal_of(hidden) + " hidden"@ + if v.show_hidden {
                " (shown)"@
            } else {
                Seq::empty()
            },
            fg(busy_tone(hidden, Tone::Amber)),
        ),
    ]
}

/// The header's second line: syncing, or how long since the last sync
/// (`now` and the sync's time in milliseconds).
pub open spec fn sync_of(v: AppView, now: u64) -> PieceV {
    if v.is_fetching {
        ("↻ syncing…"@, strong(Tone::AmberStrong))
    } else {
        (
            match v.last_auto_fetch {
                None => "last sync: —"@,
                Some(t) => "last sync: "@ + relative_short_of(secs_since(t, now) / 1000) + " ago"@,
            },
            fg(Tone::StoneStrong),
        )
    }
}

struct Counts {
    dirty: usize,
    conflicts: usize,
    hidden: usize,
}

fn header_counts(app: &App) -> (c: Counts)
    ensures
        c.dirty == count_repos(app@.repos, dirty_pred()),
        c.conflicts == count_repos(app@.repos, conflict_pred()),
        c.hidden == count_repos(app@.repos, muted(app@)),
{
    let ghost v = app@;
    let ghost pd = dirty_pred();
    let ghost pc = conflict_pred();
    let ghost ph = muted(v);
    let mut c = Counts { dirty: 0, conflicts: 0, hidden: 0 };
    let mut k: usize = 0;
    assert(v.repos.subrange(0, 0) =~= Seq::<RepoStatus>::empty());
    while k < app.repos.len()
        invariant
            v == app@,
            pd == dirty_pred(),
            pc == conflict_pred(),
            ph == muted(v),
            k <= app.repos@.len(),
            c.dirty == count_repos(v.repos.subrange(0, k as int), pd),
            c.conflicts == count_repos(v.repos.subrange(0, k as int), pc),
            c.hidden == count_repos(v.repos.subrange(0, k as int), ph),
            c.dirty <= k,
            c.conflicts <= k,
            c.hidden <= k,
        decreases app.repos.len() - k,
    {
        let r = &app.repos[k];
        let ghost pre = v.repos.subrange(0, k as int);
        let ghost next = v.repos.subrange(0, k + 1);
        assert(next.drop_last() =~= pre);
        assert(next.last() == *r);
        assert(pd(*r) == is_dirty_only(*r));
        assert(pc(*r) == spec_has_conflict(*r));
        assert(count_repos(next, pd) == count_repos(pre, pd) + if pd(*r) {
            1nat
        } else {
            0
        });
        assert(count_repos(next, pc) == count_repos(pre, pc) + if pc(*r) {
            1nat
        } else {
            0
        });
        if !r.is_clean() && r.error.is_none() && !r.has_conflict() {
            c.dirty = c.dirty + 1;
        }
        if r.has_conflict() {
            c.conflicts = c.conflicts + 1;
        }
        if crate::order::contains_path(app.hidden.as_slice(), r.path.as_str()) {
            c.hidden = c.hidden + 1;
        }
        k = k + 1;
    }
    assert(v.repos.subrange(0, app.repos@.len() as int) =~= v.repos);
    c
}

fn count_text(n: usize, unit: &str) -> (r: String)
    ensures
        r@ == decimal_of(n as nat) + unit@,
{
    string_of(&number_then(n as u64, unit))
}

fn busy_tone_of(n: usize, busy: Tone) -> (t: Tone)
    ensures
        t == busy_tone(n as nat, busy),
{
    if n > 0 {
        busy
    } else {
        Tone::StoneStrong
    }
}

/// The header's first line.
pub fn header_line(app: &App) -> (r: Vec<Piece>)
    ensures
        pieces_view(r@) == header_of(app@),
{
    let c = header_counts(app);
    let mut line: Vec<Piece> = Vec::new();
    push_piece(&mut line, lit("den", strong_of(Tone::AmberStrong)));
    push_piece(&mut line, lit("  ", fg_of(Tone::Plain)));
    push_piece(&mut line, owned(crate::tui::bases_label(app.bases.as_slice()), fg_of(Tone::Amber)));
    push_piece(&mut line, lit("  ", fg_of(Tone::Plain)));
    push_piece(&mut line, owned(count_text(app.repos.len(), " repos"), fg_of(Tone::AmberStrong)));
    push_piece(&mut line, lit("  ", fg_of(Tone::Plain)));
    push_piece(&mut line, owned(count_text(c.dirty, " dirty"), fg_of(busy_tone_of(c.dirty, Tone::AmberStrong))));
    push_piece(&mut line, lit("  ", fg_of(Tone::Plain)));
    push_piece(
        &mut line,
        owned(count_text(c.conflicts, " conflicts"), fg_of(busy_tone_of(c.conflicts, Tone::Conflict))),
    );
    push_piece(&mut line, lit("  ", fg_of(Tone::Plain)));
    push_piece(
        &mut line,
        owned(count_text(app.pinned.len(), " pinned"), fg_of(busy_tone_of(app.pinned.len(), Tone::AmberStrong))),
    );
    push_piece(&mut line, lit("  ", fg_of(Tone::Plain)));
    let hidden_text = if app.show_hidden {
        concat(count_text(c.hidden, " hidden").as_str(), " (shown)")
    } else {
        count_text(c.hidden, " hidden")
    };
    assert(hidden_text@ =~= decimal_of(c.hidden as nat) + " hidden"@ + if app@.show_hidden {
        " (shown)"@
    } else {
        Seq::empty()
    });
    push_piece(&mut line, owned(hidden_text, fg_of(busy_tone_of(c.hidden, Tone::Amber))));
    assert(strs(app.pinned@).len() == app.pinned@.len());
    assert(pieces_view(line@) =~= header_of(app@));
    line
}

/// The header's second line, `now` in milliseconds.
pub fn sync_piece(app: &App, now: u64) -> (p: Piece)
    ensures
        piece_view(p) == sync_of(app@, now),
{
    if app.is_fetching {
        return lit("↻ syncing…", strong_of(Tone::AmberStrong));
    }
    let label = match app.last_auto_fetch {
        None => string_of(&chars_of("last sync: —")),
        Some(t) => {
            let ms = if now >= t {
                now - t
            } else {
                0
            };
            let ago = relative_short(ms / 1000);
            concat3("last sync: ", ago.as_str(), " ago")
        },
    };
    owned(label, fg_of(Tone::StoneStrong))
}

pub open spec fn key_of(k: Seq<char>) -> PieceV {
    (k, fg(Tone::AmberStrong))
}

pub open spec fn label_of(s: Seq<char>) -> PieceV {
    (" "@ + s + "  "@, fg(Tone::Stone))
}

/// The footer: the message line's message when there is one, else the
/// keys that work in the current view.
pub open spec fn footer_of(v: AppView) -> Seq<PieceV> {
    match v.flash {
        Some((msg, _)) => seq![(msg, strong(Tone::AmberStrong))],
        None => {
            let start = seq![
                key_of(":"@),
                label_of("commands"@),
                key_of("↑↓←→"@),
                label_of("select"@),
                key_of("↵"@),
                label_of("detail"@),
                key_of("p"@),
                label_of("pin"@),
                key_of("x"@),
                label_of("hide"@),
            ];
            let middle = if v.show_detail {
                (if v.show_readme {
                    seq![
                        key_of("i"@),
                        label_of("close"@),
                        key_of("m"@),
                        label_of(
                            if v.readme_rendered {
                                "raw"@
                            } else {
                                "rendered"@
                            },
                        ),
                    ]
                } else {
                    seq![key_of("1/2"@), label_of("focus"@), key_of("i"@), label_of("readme"@)]
                }) + seq![key_of("PgUp/PgDn"@), label_of("scroll"@)]
            } else {
                seq![key_of("i"@), label_of("readme"@)]
            };
            start + middle + seq![key_of("r"@), label_of("refresh"@), key_of("q"@), label_of("quit"@)]
        },
    }
}

fn push_key(line: &mut Vec<Piece>, k: &str)
    ensures
        pieces_view(final(line)@) == pieces_view(old(line)@).push(key_of(k@)),
{
    push_piece(line, lit(k, fg_of(Tone::AmberStrong)));
}

fn push_label(line: &mut Vec<Piece>, s: &str)
    ensures
        pieces_view(final(line)@) == pieces_view(old(line)@).push(label_of(s@)),
{
    push_piece(line, owned(concat3(" ", s, "  "), fg_of(Tone::Stone)));
}

/// The footer line.
pub fn footer_line(app: &App) -> (r: Vec<Piece>)
    ensures
        pieces_view(r@) == footer_of(app@),
{
    let mut line: Vec<Piece> = Vec::new();
    match &app.flash {
        Some((msg, _)) => {
            push_piece(&mut line, owned(msg.clone(), strong_of(Tone::AmberStrong)));
            assert(pieces_view(line@) =~= footer_of(app@));
            return line;
        },
        None => {},
    }
    push_key(&mut line, ":");
    push_label(&mut line, "commands");
    push_key(&mut line, "↑↓←→");
    push_label(&mut line, "select");
    push_key(&mut line, "↵");
    push_label(&mut line, "detail");
    push_key(&mut line, "p");
    push_label(&mut line, "pin");
    push_key(&mut line, "x");
    push_label(&mut line, "hide");
    let ghost start = pieces_view(line@);
    if app.show_detail {
        if app.show_readme {
            push_key(&mut line, "i");
            push_label(&mut line, "close");
            push_key(&mut line, "m");
            push_label(
                &mut line,
                if app.readme_rendered {
                    "raw"
                } else {
                    "rendered"
                },
            );
        } else {
            push_key(&mut line, "1/2");
            push_label(&mut line, "focus");
            push_key(&mut line, "i");
            push_label(&mut line, "readme");
        }
        push_key(&mut line, "PgUp/PgDn");
        push_label(&mut line, "scroll");
    } else {
        push_key(&mut line, "i");
        push_label(&mut line, "readme");
    }
    let ghost mid = pieces_view(line@);
    push_key(&mut line, "r");
    push_label(&mut line, "refresh");
    push_key(&mut line, "q");
    push_label(&mut line, "quit");
    proof {
        let middle = if app@.show_detail {
            (if app@.show_readme {
                seq![
                    key_of("i"@),
                    label_of("close"@),
                    key_of("m"@),
                    label_of(
                        if app@.readme_rendered {
                            "raw"@
                        } else {
                            "rendered"@
                        },
                    ),
                ]
            } else {
                seq![key_of("1/2"@), label_of("focus"@), key_of("i"@), label_of("readme"@)]
            }) + seq![key_of("PgUp/PgDn"@), label_of("scroll"@)]
        } else {
            seq![key_of("i"@), label_of("readme"@)]
        };
        assert(mid =~= start + middle);
    }
    assert(pieces_view(line@) =~= footer_of(app@));
    line
}

// ── the command palette ──────────────────────────────────────────────

/// The palette's box on a screen `width` by `height`: at most 78 wide and
/// 22 high, at least 8 high, centred across and a third of the way down.
/// As (x, y, width, height).
pub open spec fn palette_area_of(width: nat, height: nat) -> (nat, nat, nat, nat) {
    let w: nat = if width >= 4 {
        let a = (width - 4) as nat;
        if a < 78 {
            a
        } else {
            78
        }
    } else {
        0
    };
    let max_h: nat = if height >= 4 {
        (height - 4) as nat
    } else {
        0
    };
    let lo: nat = if max_h > 8 {
        max_h
    } else {
        8
    };
    let h: nat = if lo < 22 {
        lo
    } else {
        22
    };
    let x: nat = if width >= w {
        ((width - w) as nat) / 2
    } else {
        0
    };
    let y: nat = if height >= h {
        ((height - h) as nat) / 3
    } else {
        0
    };
    (x, y, w, h)
}

pub fn palette_area(width: u16, height: u16) -> (r: (u16, u16, u16, u16))
    ensures
        (r.0 as nat, r.1 as nat, r.2 as nat, r.3 as nat) == palette_area_of(width as nat, height as nat),
{
    let w: u16 = if width.saturating_sub(4) < 78 {
        width.saturating_sub(4)
    } else {
        78
    };
    let max_h = height.saturating_sub(4);
    let lo: u16 = if max_h > 8 {
        max_h
    } else {
        8
    };
    let h: u16 = if lo < 22 {
        lo
    } else {
        22
    };
    let x = width.saturating_sub(w) / 2;
    let y = height.saturating_sub(h) / 3;
    (x, y, w, h)
}

/// `s` padded with spaces on the right to `n` characters (`{:<n}`).
pub open spec fn pad_right(s: Seq<char>, n: nat) -> Seq<char> {
    if s.len() >= n {
        s
    } else {
        s + Seq::new((n - s.len()) as nat, |i: int| ' ')
    }
}

/// `s` padded with spaces on the left to `n` characters (`{:>n}`).
pub open spec fn pad_left(s: Seq<char>, n: nat) -> Seq<char> {
    if s.len() >= n {
        s
    } else {
        Seq::new((n - s.len()) as nat, |i: int| ' ') + s
    }
}

fn padded(s: &[char], n: usize, left: bool) -> (r: Vec<char>)
    ensures
        r@ == if left {
            pad_left(s@, n as nat)
        } else {
            pad_right(s@, n as nat)
        },
{
    if s.len() >= n {
        let mut out: Vec<char> = Vec::new();
        append_chars(&mut out, s);
        assert(out@ =~= s@);
        return out;
    }
    let fill = repeat_char(' ', n - s.len());
    if left {
        let mut out = fill;
        append_chars(&mut out, s);
        out
    } else {
        let mut out: Vec<char> = Vec::new();
        append_chars(&mut out, s);
        append_chars(&mut out, &fill);
        out
    }
}

/// The palette's query line, with its cursor.
pub open spec fn palette_query_of(query: Seq<char>) -> Seq<PieceV> {
    seq![
        (": "@, fg(Tone::AmberStrong)),
        (query, fg(Tone::Ivory)),
        ("▌"@, Look { tone: Tone::AmberStrong, bold: false, underlined: false, blink: true, italic: false, crossed: false }),
    ]
}

pub fn palette_query_line(query: &str) -> (r: Vec<Piece>)
    ensures
        pieces_view(r@) == palette_query_of(query@),
{
    let mut line: Vec<Piece> = Vec::new();
    push_piece(&mut line, lit(": ", fg_of(Tone::AmberStrong)));
    push_piece(&mut line, lit(query, fg_of(Tone::Ivory)));
    push_piece(&mut line, lit("▌", Look { tone: Tone::AmberStrong, bold: false, underlined: false, blink: true, italic: false, crossed: false }));
    assert(pieces_view(line@) =~= palette_query_of(query@));
    line
}

/// The first line of the palette's list in view: the list scrolls so
/// that the selected line is the last one that fits.
pub open spec fn palette_start(selected: nat, visible: nat) -> nat {
    if selected >= visible {
        (selected + 1 - visible) as nat
    } else {
        0
    }
}

/// One line of the palette's list.
pub open spec fn palette_row_of(row: CmdRow, selected: bool) -> Seq<PieceV> {
    seq![
        (
            if selected {
                "▸ "@
            } else {
                "  "@
            },
            if selected {
                strong(Tone::AmberStrong)
            } else {
                fg(Tone::StoneStrong)
            },
        ),
        (
            pad_right(row.1, 22),
            if selected {
                strong(Tone::Ivory)
            } else {
                fg(Tone::Stone)
            },
        ),
        (
            pad_left(row.2, 4) + "  "@,
            if selected {
                strong(Tone::AmberStrong)
            } else {
                fg(Tone::StoneStrong)
            },
        ),
        (row.3, fg(Tone::Stone)),
    ]
}

/// The palette's list for its query and selection, `visible` lines
/// high: `no matches`, or the lines in view, the selected one marked.
pub open spec fn palette_lines_of(query: Seq<char>, selected: nat, visible: nat) -> Seq<Seq<PieceV>> {
    let rows = commands_for(query);
    if rows.len() == 0 {
        seq![seq![("no matches"@, fg(Tone::Stone))]]
    } else {
        let start = palette_start(selected, visible);
        let end = if start + visible < rows.len() {
            start + visible
        } else {
            rows.len() as nat
        };
        Seq::new(
            (end - start) as nat,
            |i: int| palette_row_of(rows[start + i], start + i == selected),
        )
    }
}

fn palette_row(c: &CmdInfo, selected: bool) -> (r: Vec<Piece>)
    ensures
        pieces_view(r@) == palette_row_of(row_of(*c), selected),
{
    let mut line: Vec<Piece> = Vec::new();
    let (arrow, arrow_look) = if selected {
        ("▸ ", strong_of(Tone::AmberStrong))
    } else {
        ("  ", fg_of(Tone::StoneStrong))
    };
    push_piece(&mut line, lit(arrow, arrow_look));
    let name_look = if selected {
        strong_of(Tone::Ivory)
    } else {
        fg_of(Tone::Stone)
    };
    push_piece(&mut line, text_piece(&padded(&chars_of(c.name), 22, false), name_look));
    let key_look = if selected {
        strong_of(Tone::AmberStrong)
    } else {
        fg_of(Tone::StoneStrong)
    };
    let mut keys = padded(&chars_of(c.keys), 4, true);
    append_chars(&mut keys, &chars_of("  "));
    push_piece(&mut line, text_piece(&keys, key_look));
    push_piece(&mut line, lit(c.desc, fg_of(Tone::Stone)));
    assert(pieces_view(line@) =~= palette_row_of(row_of(*c), selected));
    line
}

/// The palette's list, `visible` lines high. The selection is on a line
/// the list has (or at the top), as every key keeps it.
pub fn palette_lines(query: &str, selected: usize, visible: usize) -> (r: Vec<Vec<Piece>>)
    requires
        selected == 0 || selected < commands_for(query@).len(),
    ensures
        lines_view(r@) == palette_lines_of(query@, selected as nat, visible as nat),
{
    let matches = filter_commands(query);
    let ghost rows = commands_for(query@);
    let mut out: Vec<Vec<Piece>> = Vec::new();
    if matches.len() == 0 {
        let mut l: Vec<Piece> = Vec::new();
        assert(pieces_view(l@) =~= empty_pieces());
        push_piece(&mut l, lit("no matches", fg_of(Tone::Stone)));
        assert(pieces_view(l@) =~= seq![("no matches"@, fg(Tone::Stone))]);
        assert(lines_view(out@) =~= Seq::<Seq<PieceV>>::empty());
        push_line(&mut out, l);
        assert(rows_of(matches@).len() == 0);
        assert(lines_view(out@) =~= palette_lines_of(query@, selected as nat, visible as nat));
        return out;
    }
    let total = matches.len();
    let start: usize = if selected >= visible {
        selected + 1 - visible
    } else {
        0
    };
    let end: usize = if start < total && visible < total - start {
        start + visible
    } else {
        total
    };
    assert(start <= end);
    let mut i: usize = start;
    while i < end
        invariant
            start <= i <= end <= total,
            total == matches@.len(),
            rows == commands_for(query@),
            rows_of(matches@) == rows,
            lines_view(out@) =~= Seq::new(
                (i - start) as nat,
                |k: int| palette_row_of(rows[start + k], start + k == selected),
            ),
        decreases end - i,
    {
        let ghost before = lines_view(out@);
        assert(rows[i as int] == row_of(matches@[i as int]));
        push_line(&mut out, palette_row(&matches[i], i == selected));
        i = i + 1;
        assert(lines_view(out@) =~= Seq::new(
            (i - start) as nat,
            |k: int| palette_row_of(rows[start + k], start + k == selected),
        ));
    }
    assert(lines_view(out@) =~= palette_lines_of(query@, selected as nat, visible as nat));
    out
}

// ── the detail pane ──────────────────────────────────────────────────

/// The detail pane's title: the pin, the name, the branch, how far
/// ahead and behind, and the newest tag with its age (`now` in seconds).
pub open spec fn detail_title_of(r: RepoStatus, pinned: bool, tag: Seq<char>, tag_time: u64, now: u64) -> Seq<PieceV> {
    let lead = if pinned {
        seq![(" "@, plain()), ("★ "@, fg(Tone::AmberStrong))]
    } else {
        seq![(" "@, plain())]
    };
    let name = seq![(r.name@ + " "@, strong(Tone::Ivory))];
    let branch = match r.branch {
        Some(b) => seq![(" "@ + b@ + " "@, strong(Tone::AmberStrong))],
        None => empty_pieces(),
    };
    let ahead = if r.ahead > 0 {
        seq![(" "@, plain()), ("↑"@ + decimal_of(r.ahead as nat), strong(Tone::Forest))]
    } else {
        empty_pieces()
    };
    let behind = if r.behind > 0 {
        seq![
            (
                if r.ahead > 0 {
                    " "@
                } else {
                    "  "@
                },
                plain(),
            ),
            ("↓"@ + decimal_of(r.behind as nat), fg(Tone::Amber)),
        ]
    } else {
        empty_pieces()
    };
    let release = if tag.len() > 0 {
        seq![
            ("  ·  "@, plain()),
            (tag + " "@, fg(Tone::Stone)),
            (relative_time_of(secs_since(tag_time, now)) + " ago"@, fg(Tone::StoneStrong)),
        ]
    } else {
        empty_pieces()
    };
    lead + name + branch + ahead + behind + release
}

pub fn detail_title(repo: &RepoStatus, pinned: bool, tag: &str, tag_time: u64, now: u64) -> (r: Vec<Piece>)
    ensures
        pieces_view(r@) == detail_title_of(*repo, pinned, tag@, tag_time, now),
{
    let mut line: Vec<Piece> = Vec::new();
    push_piece(&mut line, lit(" ", fg_of(Tone::Plain)));
    if pinned {
        push_piece(&mut line, lit("★ ", fg_of(Tone::AmberStrong)));
    }
    let ghost lead = pieces_view(line@);
    push_piece(&mut line, owned(concat(repo.name.as_str(), " "), strong_of(Tone::Ivory)));
    let ghost with_name = pieces_view(line@);
    match &repo.branch {
        Some(b) => push_piece(&mut line, owned(concat3(" ", b.as_str(), " "), strong_of(Tone::AmberStrong))),
        None => {},
    }
    let ghost with_branch = pieces_view(line@);
    if repo.ahead > 0 {
        push_piece(&mut line, lit(" ", fg_of(Tone::Plain)));
        push_piece(&mut line, number_piece("↑", repo.ahead, strong_of(Tone::Forest)));
    }
    let ghost with_ahead = pieces_view(line@);
    if repo.behind > 0 {
        let gap = if repo.ahead > 0 {
            " "
        } else {
            "  "
        };
        push_piece(&mut line, lit(gap, fg_of(Tone::Plain)));
        push_piece(&mut line, number_piece("↓", repo.behind, fg_of(Tone::Amber)));
    }
    let ghost with_behind = pieces_view(line@);
    if chars_of(tag).len() > 0 {
        push_piece(&mut line, lit("  ·  ", fg_of(Tone::Plain)));
        push_piece(&mut line, owned(concat(tag, " "), fg_of(Tone::Stone)));
        let age = if now >= tag_time {
            now - tag_time
        } else {
            0
        };
        let rel = relative_time(age);
        push_piece(&mut line, owned(concat(rel.as_str(), " ago"), fg_of(Tone::StoneStrong)));
    }
    assert(pieces_view(line@) =~= detail_title_of(*repo, pinned, tag@, tag_time, now));
    line
}

/// A detail section's title and the look of its rule: underlined in
/// amber when it has the focus.
pub open spec fn section_title_of(s: crate::tui::DetailSection, focused: bool) -> (PieceV, Tone) {
    let num = match s {
        crate::tui::DetailSection::Status => "1"@,
        crate::tui::DetailSection::Diff => "2"@,
    };
    (
        (
            " "@ + num + " "@ + crate::tui::section_label(s) + " "@,
            if focused {
                Look { tone: Tone::AmberStrong, bold: true, underlined: true, blink: false, italic: false, crossed: false }
            } else {
                strong(Tone::Stone)
            },
        ),
        if focused {
            Tone::AmberStrong
        } else {
            Tone::Stone
        },
    )
}

pub fn section_title(s: crate::tui::DetailSection, focused: bool) -> (r: (Piece, Tone))
    ensures
        (piece_view(r.0), r.1) == section_title_of(s, focused),
{
    let num = match s {
        crate::tui::DetailSection::Status => "1",
        crate::tui::DetailSection::Diff => "2",
    };
    let mut cs = chars_of(" ");
    append_chars(&mut cs, &chars_of(num));
    append_chars(&mut cs, &chars_of(" "));
    append_chars(&mut cs, &chars_of(s.label()));
    append_chars(&mut cs, &chars_of(" "));
    let look = if focused {
        Look { tone: Tone::AmberStrong, bold: true, underlined: true, blink: false, italic: false, crossed: false }
    } else {
        strong_of(Tone::Stone)
    };
    let rule = if focused {
        Tone::AmberStrong
    } else {
        Tone::Stone
    };
    (text_piece(&cs, look), rule)
}

/// The colour of a `git status --porcelain` line, by its two-letter code
/// (trimmed).
pub open spec fn status_tone(code: Seq<char>) -> Tone {
    if code == "??"@ {
        Tone::StoneStrong
    } else if code == "M"@ || code == "MM"@ || code == "AM"@ {
        Tone::Amber
    } else if code == "A"@ {
        Tone::Forest
    } else if code == "D"@ || code == "AD"@ {
        Tone::Conflict
    } else if code == "R"@ || code == "RM"@ {
        Tone::Amber
    } else if code == "UU"@ || code == "AA"@ || code == "DD"@ {
        Tone::Conflict
    } else {
        Tone::Stone
    }
}

/// One line of `git status --porcelain=v1 -b`, drawn: its code right
/// aligned in two columns, then the path.
pub open spec fn status_line_of(l: Seq<char>) -> Seq<PieceV> {
    let prefix = if l.len() < 2 {
        l
    } else {
        l.take(2)
    };
    let rest = if l.len() < 3 {
        Seq::empty()
    } else {
        l.skip(3)
    };
    seq![(pad_left(prefix, 2) + " "@, fg(status_tone(trim(prefix)))), (rest, fg(Tone::Ivory))]
}

/// The lines of `s` that are not the branch header (`## `), each drawn.
pub open spec fn status_body(ls: Seq<Seq<char>>) -> Seq<Seq<PieceV>>
    decreases ls.len(),
{
    if ls.len() == 0 {
        Seq::empty()
    } else {
        let prev = status_body(ls.drop_last());
        if "## "@.is_prefix_of(ls.last()) {
            prev
        } else {
            prev.push(status_line_of(ls.last()))
        }
    }
}

/// The status section: `working tree clean` when git printed nothing,
/// else its lines but the branch header.
pub open spec fn status_lines_of(s: Seq<char>) -> Seq<Seq<PieceV>> {
    if trim(s).len() == 0 {
        seq![seq![("working tree clean"@, fg(Tone::Forest))]]
    } else {
        status_body(lines(s))
    }
}

fn status_tone_of(code: &[char]) -> (t: Tone)
    ensures
        t == status_tone(code@),
{
    if chars_eq(code, &chars_of("??")) {
        Tone::StoneStrong
    } else if chars_eq(code, &chars_of("M")) || chars_eq(code, &chars_of("MM")) || chars_eq(code, &chars_of("AM")) {
        Tone::Amber
    } else if chars_eq(code, &chars_of("A")) {
        Tone::Forest
    } else if chars_eq(code, &chars_of("D")) || chars_eq(code, &chars_of("AD")) {
        Tone::Conflict
    } else if chars_eq(code, &chars_of("R")) || chars_eq(code, &chars_of("RM")) {
        Tone::Amber
    } else if chars_eq(code, &chars_of("UU")) || chars_eq(code, &chars_of("AA")) || chars_eq(code, &chars_of("DD")) {
        Tone::Conflict
    } else {
        Tone::Stone
    }
}

fn status_line(l: &Vec<char>) -> (r: Vec<Piece>)
    ensures
        pieces_view(r@) == status_line_of(l@),
{
    let prefix = if l.len() < 2 {
        crate::text::slice_chars(l, 0, l.len())
    } else {
        crate::text::slice_chars(l, 0, 2)
    };
    assert(l@.subrange(0, l@.len() as int) =~= l@);
    let rest = if l.len() < 3 {
        Vec::new()
    } else {
        crate::text::slice_chars(l, 3, l.len())
    };
    let mut code = padded(&prefix, 2, true);
    code.push(' ');
    proof {
        reveal_strlit(" ");
    }
    let tone = status_tone_of(&trim_chars(&prefix));
    proof {
        let pv = if l@.len() < 2 {
            l@
        } else {
            l@.take(2)
        };
        assert(prefix@ =~= pv);
        let rv = if l@.len() < 3 {
            Seq::<char>::empty()
        } else {
            l@.skip(3)
        };
        assert(rest@ =~= rv);
        assert(code@ =~= pad_left(pv, 2) + " "@);
    }
    let mut line: Vec<Piece> = Vec::new();
    push_piece(&mut line, text_piece(&code, fg_of(tone)));
    push_piece(&mut line, text_piece(&rest, fg_of(Tone::Ivory)));
    assert(pieces_view(line@) =~= status_line_of(l@));
    line
}

/// The status section's lines for `git status` output.
pub fn parse_status(s: &str) -> (r: Vec<Vec<Piece>>)
    ensures
        lines_view(r@) == status_lines_of(s@),
{
    let mut out: Vec<Vec<Piece>> = Vec::new();
    if trim_str(s).len() == 0 {
        let mut l: Vec<Piece> = Vec::new();
        assert(pieces_view(l@) =~= empty_pieces());
        push_piece(&mut l, lit("working tree clean", fg_of(Tone::Forest)));
        assert(lines_view(out@) =~= Seq::<Seq<PieceV>>::empty());
        push_line(&mut out, l);
        assert(lines_view(out@) =~= status_lines_of(s@));
        return out;
    }
    let ls = lines_of(&chars_of(s));
    let ghost all = lines(s@);
    let header = chars_of("## ");
    let mut i: usize = 0;
    assert(all.subrange(0, 0) =~= Seq::<Seq<char>>::empty());
    assert(lines_view(out@) =~= Seq::<Seq<PieceV>>::empty());
    while i < ls.len()
        invariant
            views(ls@) == all,
            header@ == "## "@,
            i <= ls@.len(),
            lines_view(out@) == status_body(all.subrange(0, i as int)),
        decreases ls.len() - i,
    {
        let ghost pre = all.subrange(0, i as int);
        let ghost next = all.subrange(0, i + 1);
        assert(next.drop_last() =~= pre);
        assert(next.last() == ls@[i as int]@);
        if !crate::text::starts_with(&ls[i], &header) {
            push_line(&mut out, status_line(&ls[i]));
        }
        i = i + 1;
    }
    assert(all.subrange(0, ls@.len() as int) =~= all);
    out
}

/// The look of a line of `git diff` output: headers bold amber, file
/// names grey, hunk markers amber, additions green, removals red.
pub open spec fn diff_look(l: Seq<char>) -> Look {
    if "diff --git"@.is_prefix_of(l) || "index "@.is_prefix_of(l) {
        strong(Tone::AmberStrong)
    } else if "+++"@.is_prefix_of(l) || "---"@.is_prefix_of(l) {
        fg(Tone::Stone)
    } else if "@@"@.is_prefix_of(l) {
        fg(Tone::Amber)
    } else if "+"@.is_prefix_of(l) {
        fg(Tone::Forest)
    } else if "-"@.is_prefix_of(l) {
        fg(Tone::Conflict)
    } else {
        fg(Tone::Stone)
    }
}

/// The diff section: `no changes vs HEAD` when git printed nothing, else
/// every line, coloured by what it is.
pub open spec fn diff_lines_of(s: Seq<char>) -> Seq<Seq<PieceV>> {
    if trim(s).len() == 0 {
        seq![seq![("no changes vs HEAD"@, fg(Tone::Forest))]]
    } else {
        let ls = lines(s);
        Seq::new(ls.len(), |i: int| seq![(ls[i], diff_look(ls[i]))])
    }
}

fn prefixed(l: &Vec<char>, p: &str) -> (r: bool)
    ensures
        r == p@.is_prefix_of(l@),
{
    crate::text::starts_with(l, &chars_of(p))
}

fn diff_look_of(l: &Vec<char>) -> (k: Look)
    ensures
        k == diff_look(l@),
{
    if prefixed(l, "diff --git") || prefixed(l, "index ") {
        strong_of(Tone::AmberStrong)
    } else if prefixed(l, "+++") || prefixed(l, "---") {
        fg_of(Tone::Stone)
    } else if prefixed(l, "@@") {
        fg_of(Tone::Amber)
    } else if prefixed(l, "+") {
        fg_of(Tone::Forest)
    } else if prefixed(l, "-") {
        fg_of(Tone::Conflict)
    } else {
        fg_of(Tone::Stone)
    }
}

/// The diff section's lines for `git diff` output.
pub fn parse_diff(s: &str) -> (r: Vec<Vec<Piece>>)
    ensures
        lines_view(r@) == diff_lines_of(s@),
{
    let mut out: Vec<Vec<Piece>> = Vec::new();
    if trim_str(s).len() == 0 {
        let mut l: Vec<Piece> = Vec::new();
        assert(pieces_view(l@) =~= empty_pieces());
        push_piece(&mut l, lit("no changes vs HEAD", fg_of(Tone::Forest)));
        assert(lines_view(out@) =~= Seq::<Seq<PieceV>>::empty());
        push_line(&mut out, l);
        assert(lines_view(out@) =~= diff_lines_of(s@));
        return out;
    }
    let ls = lines_of(&chars_of(s));
    let ghost all = lines(s@);
    let mut i: usize = 0;
    assert(lines_view(out@) =~= Seq::<Seq<PieceV>>::empty());
    while i < ls.len()
        invariant
            views(ls@) == all,
            i <= ls@.len(),
            lines_view(out@) =~= Seq::new(i as nat, |k: int| seq![(all[k], diff_look(all[k]))]),
        decreases ls.len() - i,
    {
        assert(all[i as int] == ls@[i as int]@);
        let mut l: Vec<Piece> = Vec::new();
        assert(pieces_view(l@) =~= empty_pieces());
        push_piece(&mut l, text_piece(&ls[i], diff_look_of(&ls[i])));
        assert(pieces_view(l@) =~= seq![(all[i as int], diff_look(all[i as int]))]);
        push_line(&mut out, l);
        i = i + 1;
    }
    out
}

/// The readme shown as it is written: every line in ivory.
pub open spec fn raw_lines_of(s: Seq<char>) -> Seq<Seq<PieceV>> {
    let ls = lines(s);
    Seq::new(ls.len(), |i: int| seq![(ls[i], fg(Tone::Ivory))])
}

pub fn parse_markdown_raw(s: &str) -> (r: Vec<Vec<Piece>>)
    ensures
        lines_view(r@) == raw_lines_of(s@),
{
    let ls = lines_of(&chars_of(s));
    let ghost all = lines(s@);
    let mut out: Vec<Vec<Piece>> = Vec::new();
    let mut i: usize = 0;
    assert(lines_view(out@) =~= Seq::<Seq<PieceV>>::empty());
    while i < ls.len()
        invariant
            views(ls@) == all,
            i <= ls@.len(),
            lines_view(out@) =~= Seq::new(i as nat, |k: int| seq![(all[k], fg(Tone::Ivory))]),
        decreases ls.len() - i,
    {
        assert(all[i as int] == ls@[i as int]@);
        let mut l: Vec<Piece> = Vec::new();
        assert(pieces_view(l@) =~= empty_pieces());
        push_piece(&mut l, text_piece(&ls[i], fg_of(Tone::Ivory)));
        push_line(&mut out, l);
        i = i + 1;
    }
    out
}

/// The readme's heading: `readme · rendered` or `readme · raw`, and the
/// file's name when there is one.
pub open spec fn readme_header_of(rendered: bool, path: Seq<char>) -> Seq<char> {
    let mode = if rendered {
        "rendered"@
    } else {
        "raw"@
    };
    if path.len() == 0 {
        "readme · "@ + mode
    } else {
        "readme · "@ + mode + " · "@ + path
    }
}

pub fn readme_header(rendered: bool, path: &str) -> (r: String)
    ensures
        r@ == readme_header_of(rendered, path@),
{
    let mode = if rendered {
        "rendered"
    } else {
        "raw"
    };
    if chars_of(path).len() == 0 {
        concat("readme · ", mode)
    } else {
        let head = concat3("readme · ", mode, " · ");
        concat(head.as_str(), path)
    }
}

/// The status section's height for `n` lines: two more than the lines,
/// three at least and ten at most (the count taken as a `u16`).
pub open spec fn status_height_of(n: nat) -> nat {
    let h = (n % 65536) + 2;
    if h < 3 {
        3
    } else if h > 10 {
        10
    } else {
        h
    }
}

pub fn status_height(n: usize) -> (r: u16)
    requires
        (n as nat % 65536) + 2 <= u16::MAX,
    ensures
        r as nat == status_height_of(n as nat),
{
    let h = (n % 65536) as u16 + 2;
    if h < 3 {
        3
    } else if h > 10 {
        10
    } else {
        h
    }
}

} // verus!
