//! What the menu bar panel is shown.
//!
//! The scan itself happens around the library; this module names the
//! watched folders, shapes each repository for the panel, and decides
//! the one state the menu bar glyph shows.

use vstd::prelude::*;
use crate::bar::BarConfig;
use crate::model::{CiInfo, CiState, SortMode};
use crate::order::{contains_path, display_order, is_display_order, marked, OrderRule, OrderView};
use crate::pathmap::{lookup, PathMap};
use crate::paths::{join_path, path_join, components, is_absolute, kept_pieces, names_component, path_components, path_starts_with, within};
use crate::repo::{
    copy_opt_string, spec_has_conflict, spec_is_clean, spec_is_uninitialized, RepoStatus,
};
use crate::session::{
    den_dir, den_dir_of, entries_view, parse_path_lines, resolve_of, resolve_session, session_dir,
    session_dir_of, SessionChoice, SessionEntry,
};
use crate::text::{chars_eq, join, join_chars, lines, slice_chars, split_seq, string_of, strs, trim, views};

verus! {

// ── naming the folders ───────────────────────────────────────────────

/// The names along a folder's path: its components without the root.
pub open spec fn name_parts(f: Seq<char>) -> Seq<Seq<char>> {
    if is_absolute(f) {
        components(f).drop_first()
    } else {
        components(f)
    }
}

/// The last `d` names of `p` (all of them when there are fewer).
pub open spec fn tail_parts(p: Seq<Seq<char>>, d: int) -> Seq<Seq<char>> {
    if d >= p.len() {
        p
    } else {
        p.subrange(p.len() - d, p.len() as int)
    }
}

/// The last `d` names of `p`, joined by `/`.
pub open spec fn tail_label(p: Seq<Seq<char>>, d: int) -> Seq<char> {
    join(tail_parts(p, d), seq!['/'])
}

/// Another folder reads the same as folder `i` when both show `d` names.
pub open spec fn clashes(parts: Seq<Seq<Seq<char>>>, i: int, d: int) -> bool {
    exists|j: int|
        0 <= j < parts.len() && j != i && #[trigger] tail_label(parts[j], d) == tail_label(
            parts[i],
            d,
        )
}

/// How many names folder `i` shows: starting from `d`, one more for as
/// long as another folder reads the same and folder `i` has more to show.
pub open spec fn label_depth(parts: Seq<Seq<Seq<char>>>, i: int, d: int) -> int
    decreases parts[i].len() - d,
{
    if d >= parts[i].len() || !clashes(parts, i, d) {
        d
    } else {
        label_depth(parts, i, d + 1)
    }
}

/// The names of every folder.
pub open spec fn all_parts(folders: Seq<Seq<char>>) -> Seq<Seq<Seq<char>>> {
    Seq::new(folders.len(), |k: int| name_parts(folders[k]))
}

/// The label of folder `i`: its last name, grown leftwards while another
/// folder reads the same; the whole path when it has no names.
pub open spec fn label_of(folders: Seq<Seq<char>>, i: int) -> Seq<char> {
    let parts = all_parts(folders);
    let l = tail_label(parts[i], label_depth(parts, i, 1));
    if l.len() == 0 {
        folders[i]
    } else {
        l
    }
}

/// The names along a folder's path.
fn name_parts_of(f: &str) -> (r: Vec<Vec<char>>)
    ensures
        views(r@) == name_parts(f@),
{
    let mut c = path_components(f);
    let cs = crate::text::chars_of(f);
    if cs.len() > 0 && cs[0] == '/' {
        let ghost all = views(c@);
        assert(all.len() > 0 && all[0] == seq!['/']);
        let _ = c.remove(0);
        assert(views(c@) =~= all.drop_first());
    }
    c
}

fn tail_label_of(p: &Vec<Vec<char>>, d: usize) -> (r: Vec<char>)
    ensures
        r@ == tail_label(views(p@), d as int),
{
    let start = if d >= p.len() {
        0
    } else {
        p.len() - d
    };
    let mut t: Vec<Vec<char>> = Vec::new();
    let mut k: usize = start;
    while k < p.len()
        invariant
            start <= k <= p@.len(),
            views(t@) == views(p@).subrange(start as int, k as int),
        decreases p.len() - k,
    {
        let piece = slice_chars(&p[k], 0, p[k].len());
        assert(piece@ =~= p@[k as int]@);
        let ghost before = views(t@);
        t.push(piece);
        assert(views(t@) =~= before.push(p@[k as int]@));
        assert(views(t@) =~= views(p@).subrange(start as int, k + 1));
        k = k + 1;
    }
    proof {
        if d as int >= p@.len() {
            assert(views(p@).subrange(0, p@.len() as int) =~= views(p@));
        }
    }
    let mut sep: Vec<char> = Vec::new();
    sep.push('/');
    assert(sep@ =~= seq!['/']);
    join_chars(&t, &sep)
}

/// The view of every folder's names.
spec fn parts_view(v: Seq<Vec<Vec<char>>>) -> Seq<Seq<Seq<char>>> {
    Seq::new(v.len(), |k: int| views(v[k]@))
}

/// Whether another folder reads the same as folder `i` at `d` names.
fn clash_at(parts: &Vec<Vec<Vec<char>>>, i: usize, d: usize) -> (r: bool)
    requires
        i < parts@.len(),
    ensures
        r == clashes(parts_view(parts@), i as int, d as int),
{
    let ghost pv = parts_view(parts@);
    let me = tail_label_of(&parts[i], d);
    assert(pv[i as int] == views(parts@[i as int]@));
    let mut j: usize = 0;
    while j < parts.len()
        invariant
            pv == parts_view(parts@),
            i < parts@.len(),
            j <= parts@.len(),
            me@ == tail_label(pv[i as int], d as int),
            forall|k: int|
                0 <= k < j && k != i ==> #[trigger] tail_label(pv[k], d as int) != tail_label(
                    pv[i as int],
                    d as int,
                ),
        decreases parts.len() - j,
    {
        if j != i {
            let other = tail_label_of(&parts[j], d);
            assert(pv[j as int] == views(parts@[j as int]@));
            if chars_eq(&other, &me) {
                return true;
            }
        }
        j = j + 1;
    }
    false
}

/// A name for each folder, long enough to tell them apart.
///
/// The last name is usually enough: `~/work` is "work". When two folders
/// end in the same name, both grow a name to the left, and keep growing
/// until they differ, so `~/work/projects` and `~/personal/projects` never
/// both read "projects".
pub fn label_folders(folders: &[String]) -> (labels: Vec<String>)
    ensures
        labels@.len() == folders@.len(),
        forall|i: int| 0 <= i < folders@.len() ==> #[trigger] labels@[i]@ == label_of(strs(folders@), i),
{
    let ghost fs = strs(folders@);
    let mut parts: Vec<Vec<Vec<char>>> = Vec::new();
    let mut k: usize = 0;
    while k < folders.len()
        invariant
            fs == strs(folders@),
            k <= folders@.len(),
            parts_view(parts@) == all_parts(fs).subrange(0, k as int),
        decreases folders.len() - k,
    {
        let p = name_parts_of(folders[k].as_str());
        let ghost before = parts_view(parts@);
        parts.push(p);
        assert(parts_view(parts@) =~= before.push(name_parts(fs[k as int])));
        assert(parts_view(parts@) =~= all_parts(fs).subrange(0, k + 1));
        k = k + 1;
    }
    assert(parts_view(parts@) =~= all_parts(fs));
    let ghost pv = all_parts(fs);
    let mut labels: Vec<String> = Vec::new();
    let mut i: usize = 0;
    while i < folders.len()
        invariant
            fs == strs(folders@),
            pv == all_parts(fs),
            parts_view(parts@) == pv,
            parts@.len() == folders@.len(),
            i <= folders@.len(),
            labels@.len() == i,
            forall|m: int| 0 <= m < i ==> #[trigger] labels@[m]@ == label_of(fs, m),
        decreases folders.len() - i,
    {
        assert(pv[i as int] == views(parts@[i as int]@));
        let mut depth: usize = 1;
        while depth < parts[i].len()
            invariant
                pv == parts_view(parts@),
                i < parts@.len(),
                1 <= depth,
                label_depth(pv, i as int, depth as int) == label_depth(pv, i as int, 1),
                pv[i as int] == views(parts@[i as int]@),
            ensures
                label_depth(pv, i as int, depth as int) == depth as int,
            decreases parts[i as int].len() - depth,
        {
            if !clash_at(&parts, i, depth) {
                assert(label_depth(pv, i as int, depth as int) == depth as int);
                break;
            }
            depth = depth + 1;
        }
        assert(label_depth(pv, i as int, depth as int) == depth as int);
        let l = tail_label_of(&parts[i], depth);
        let label = if l.len() == 0 {
            folders[i].clone()
        } else {
            string_of(&l)
        };
        labels.push(label);
        i = i + 1;
    }
    labels
}

// ── two folders, two labels ─────────────────────────────────────────

/// No `/` in the text.
pub open spec fn slash_free(p: Seq<char>) -> bool {
    forall|m: int| 0 <= m < p.len() ==> p[m] != '/'
}

/// Every piece is a name: not empty, and without a `/`.
pub open spec fn all_names(t: Seq<Seq<char>>) -> bool {
    forall|k: int| 0 <= k < t.len() ==> (#[trigger] t[k]).len() > 0 && slash_free(t[k])
}

proof fn lemma_split_pieces(s: Seq<char>)
    ensures
        forall|k: int| 0 <= k < split_seq(s, '/').len() ==> slash_free(#[trigger] split_seq(s, '/')[k]),
        split_seq(s, '/').len() >= 1,
        s.len() > 0 && s[0] != '/' ==> split_seq(s, '/')[0].len() > 0 && split_seq(s, '/')[0][0] == s[0],
    decreases s.len(),
{
    if s.len() > 0 {
        let init = s.drop_last();
        lemma_split_pieces(init);
        let prev = split_seq(init, '/');
        let cur = split_seq(s, '/');
        if s.last() == '/' {
            assert(cur == prev.push(Seq::<char>::empty()));
            assert forall|k: int| 0 <= k < cur.len() implies slash_free(#[trigger] cur[k]) by {
                if k < prev.len() {
                    assert(cur[k] == prev[k]);
                }
            }
            if s[0] != '/' {
                assert(init.len() > 0);
                assert(init[0] == s[0]);
                assert(cur[0] == prev[0]);
            }
        } else {
            let last = prev.last().push(s.last());
            assert(cur == prev.update(prev.len() - 1, last));
            assert forall|k: int| 0 <= k < cur.len() implies slash_free(#[trigger] cur[k]) by {
                if k < prev.len() - 1 {
                    assert(cur[k] == prev[k]);
                } else {
                    assert(cur[k] == last);
                    assert(slash_free(prev[prev.len() - 1]));
                    assert forall|m: int| 0 <= m < last.len() implies last[m] != '/' by {
                        if m < prev.last().len() {
                            assert(last[m] == prev.last()[m]);
                        }
                    }
                }
            }
            if s[0] != '/' {
                if init.len() == 0 {
                    assert(prev =~= seq![Seq::<char>::empty()]);
                    assert(cur[0] == last);
                    assert(last[0] == s.last());
                } else {
                    assert(init[0] == s[0]);
                    if prev.len() == 1 {
                        assert(cur[0] == last);
                        assert(last[0] == prev[0][0]);
                    } else {
                        assert(cur[0] == prev[0]);
                    }
                }
            }
        }
    }
}

proof fn lemma_kept_names(p: Seq<Seq<char>>)
    requires
        forall|k: int| 0 <= k < p.len() ==> slash_free(#[trigger] p[k]),
    ensures
        all_names(kept_pieces(p)),
        (exists|m: int| 0 <= m < p.len() && names_component(#[trigger] p[m])) ==> kept_pieces(p).len() > 0,
    decreases p.len(),
{
    if p.len() > 0 {
        let init = p.drop_last();
        assert forall|k: int| 0 <= k < init.len() implies slash_free(#[trigger] init[k]) by {
            assert(init[k] == p[k]);
        }
        lemma_kept_names(init);
        let rest = kept_pieces(init);
        assert(slash_free(p[p.len() - 1]));
        if names_component(p.last()) {
            assert forall|k: int| 0 <= k < rest.push(p.last()).len() implies (#[trigger] rest.push(
                p.last(),
            )[k]).len() > 0 && slash_free(rest.push(p.last())[k]) by {
                if k < rest.len() {
                    assert(rest.push(p.last())[k] == rest[k]);
                }
            }
        } else {
            if exists|m: int| 0 <= m < p.len() && names_component(#[trigger] p[m]) {
                let m = choose|m: int| 0 <= m < p.len() && names_component(#[trigger] p[m]);
                assert(m < p.len() - 1);
                assert(init[m] == p[m]);
            }
        }
    }
}

/// Every name along a path is a name: not empty, and without a `/`.
proof fn lemma_name_parts_names(f: Seq<char>)
    ensures
        all_names(name_parts(f)),
        name_parts(f).len() == 0 ==> f.len() == 0 || f[0] == '/',
{
    lemma_split_pieces(f);
    let pieces = split_seq(f, '/');
    lemma_kept_names(pieces);
    let kept = kept_pieces(pieces);
    let c = components(f);
    if is_absolute(f) {
        assert(c.drop_first() =~= kept);
    } else if pieces[0] == seq!['.'] {
        assert(c == seq![seq!['.']] + kept);
        assert forall|k: int| 0 <= k < c.len() implies (#[trigger] c[k]).len() > 0 && slash_free(c[k]) by {
            if k > 0 {
                assert(c[k] == kept[k - 1]);
            }
        }
    } else {
        assert(c =~= kept);
        if f.len() > 0 {
            assert(names_component(pieces[0]));
        }
    }
}

proof fn lemma_join_first(t: Seq<Seq<char>>)
    requires
        t.len() >= 1,
        all_names(t),
    ensures
        join(t, seq!['/']).len() > 0,
        join(t, seq!['/'])[0] == t[0][0],
        t[0][0] != '/',
    decreases t.len(),
{
    assert(t[0].len() > 0 && slash_free(t[0]));
    if t.len() > 1 {
        let init = t.drop_last();
        assert forall|k: int| 0 <= k < init.len() implies (#[trigger] init[k]).len() > 0 && slash_free(init[k]) by {
            assert(init[k] == t[k]);
        }
        lemma_join_first(init);
        assert(init[0] == t[0]);
    }
}

proof fn lemma_join_slash_free(t: Seq<Seq<char>>)
    requires
        t.len() == 1,
        all_names(t),
    ensures
        slash_free(join(t, seq!['/'])),
{
    assert(slash_free(t[0]));
}

/// Joining names with `/` loses nothing: the names come back apart.
proof fn lemma_join_names_injective(a: Seq<Seq<char>>, b: Seq<Seq<char>>)
    requires
        all_names(a),
        all_names(b),
        join(a, seq!['/']) == join(b, seq!['/']),
    ensures
        a == b,
    decreases a.len() + b.len(),
{
    let x = join(a, seq!['/']);
    if a.len() == 0 || b.len() == 0 {
        if a.len() > 0 {
            lemma_join_first(a);
        }
        if b.len() > 0 {
            lemma_join_first(b);
        }
        assert(a.len() == 0 && b.len() == 0);
        assert(a =~= b);
    } else if a.len() == 1 && b.len() == 1 {
        assert(a =~= b);
    } else if a.len() == 1 {
        lemma_join_slash_free(a);
        let q = join(b.drop_last(), seq!['/']);
        assert(x == q + seq!['/'] + b.last());
        assert(x[q.len() as int] == '/');
    } else if b.len() == 1 {
        lemma_join_slash_free(b);
        let p = join(a.drop_last(), seq!['/']);
        assert(x == p + seq!['/'] + a.last());
        assert(x[p.len() as int] == '/');
    } else {
        let p = join(a.drop_last(), seq!['/']);
        let q = join(b.drop_last(), seq!['/']);
        let l = a.last();
        let m = b.last();
        assert(x == p + seq!['/'] + l);
        assert(x == q + seq!['/'] + m);
        assert(slash_free(a[a.len() - 1]));
        assert(slash_free(b[b.len() - 1]));
        let n = x.len();
        if l.len() < m.len() {
            let at = n - l.len() - 1;
            assert(x[at] == '/');
            assert(x[at] == m[at - (n - m.len())]);
        } else if m.len() < l.len() {
            let at = n - m.len() - 1;
            assert(x[at] == '/');
            assert(x[at] == l[at - (n - l.len())]);
        }
        assert(l.len() == m.len());
        assert(l =~= x.subrange(n - l.len(), n as int));
        assert(m =~= x.subrange(n - m.len(), n as int));
        assert(p =~= x.subrange(0, n - l.len() - 1));
        assert(q =~= x.subrange(0, n - m.len() - 1));
        let ai = a.drop_last();
        let bi = b.drop_last();
        assert forall|k: int| 0 <= k < ai.len() implies (#[trigger] ai[k]).len() > 0 && slash_free(ai[k]) by {
            assert(ai[k] == a[k]);
        }
        assert forall|k: int| 0 <= k < bi.len() implies (#[trigger] bi[k]).len() > 0 && slash_free(bi[k]) by {
            assert(bi[k] == b[k]);
        }
        lemma_join_names_injective(ai, bi);
        assert(a =~= ai.push(l));
        assert(b =~= bi.push(m));
    }
}

proof fn lemma_label_depth(parts: Seq<Seq<Seq<char>>>, i: int, d: int)
    requires
        0 <= i < parts.len(),
    ensures
        label_depth(parts, i, d) >= d,
        d <= parts[i].len() ==> label_depth(parts, i, d) <= parts[i].len(),
        label_depth(parts, i, d) >= parts[i].len() || !clashes(parts, i, label_depth(parts, i, d)),
    decreases parts[i].len() - d,
{
    if !(d >= parts[i].len() || !clashes(parts, i, d)) {
        lemma_label_depth(parts, i, d + 1);
    }
}

proof fn lemma_tail_names(p: Seq<Seq<char>>, d: int)
    requires
        all_names(p),
        1 <= d,
    ensures
        all_names(tail_parts(p, d)),
        tail_parts(p, d).len() == if d >= p.len() {
            p.len() as int
        } else {
            d
        },
{
    if d < p.len() {
        let t = tail_parts(p, d);
        assert forall|k: int| 0 <= k < t.len() implies (#[trigger] t[k]).len() > 0 && slash_free(t[k]) by {
            assert(t[k] == p[p.len() - d + k]);
        }
    }
}

/// Two folders never read the same unless they have the very same
/// names: a label grows leftwards until no other folder reads the same,
/// so two equal labels can only be two whole, equal paths.
pub proof fn lemma_labels_tell_folders_apart(folders: Seq<Seq<char>>, i: int, j: int)
    requires
        0 <= i < folders.len(),
        0 <= j < folders.len(),
        i != j,
        label_of(folders, i) == label_of(folders, j),
    ensures
        name_parts(folders[i]) == name_parts(folders[j]),
{
    let parts = all_parts(folders);
    let pi = parts[i];
    let pj = parts[j];
    assert(pi == name_parts(folders[i]));
    assert(pj == name_parts(folders[j]));
    lemma_name_parts_names(folders[i]);
    lemma_name_parts_names(folders[j]);
    let di = label_depth(parts, i, 1);
    let dj = label_depth(parts, j, 1);
    lemma_label_depth(parts, i, 1);
    lemma_label_depth(parts, j, 1);
    let ti = tail_parts(pi, di);
    let tj = tail_parts(pj, dj);
    lemma_tail_names(pi, di);
    lemma_tail_names(pj, dj);
    let li = join(ti, seq!['/']);
    let lj = join(tj, seq!['/']);
    if li.len() > 0 && lj.len() > 0 {
        lemma_join_names_injective(ti, tj);
        if pi.len() == 0 {
            assert(ti.len() == 0);
        }
        if pj.len() == 0 {
            assert(tj.len() == 0);
        }
        assert(di == dj);
        if di < pi.len() {
            assert(tail_label(pj, di) == tail_label(pi, di));
            assert(clashes(parts, i, di));
        }
        if dj < pj.len() {
            assert(tail_label(pi, dj) == tail_label(pj, dj));
            assert(clashes(parts, j, dj));
        }
        assert(ti == pi);
        assert(tj == pj);
    } else if li.len() > 0 {
        assert(tj.len() == 0);
        assert(pj.len() == 0);
        lemma_join_first(ti);
        assert(label_of(folders, j) == folders[j]);
        assert(label_of(folders, i) == li);
        assert(folders[j].len() == 0 || folders[j][0] == '/');
        assert(li[0] != '/');
    } else if lj.len() > 0 {
        assert(ti.len() == 0);
        assert(pi.len() == 0);
        lemma_join_first(tj);
        assert(label_of(folders, i) == folders[i]);
        assert(label_of(folders, j) == lj);
        assert(folders[i].len() == 0 || folders[i][0] == '/');
        assert(lj[0] != '/');
    } else {
        if ti.len() > 0 {
            lemma_join_first(ti);
        }
        if tj.len() > 0 {
            lemma_join_first(tj);
        }
        assert(pi.len() == 0 && pj.len() == 0);
        assert(pi =~= pj);
    }
}

// ── what the panel receives ──────────────────────────────────────────

/// The one thing the menu bar glyph says, worst state first.
#[derive(Debug, Clone, Copy, PartialEq, Eq, Structural)]
pub enum Badge {
    Failing,
    Dirty,
    Clean,
}

/// A CI run, as the panel shows it.
#[derive(Debug, Clone)]
pub struct CiView {
    pub state: CiState,
    pub name: String,
    pub url: String,
    pub failed_step: Option<String>,
}

/// One repository, as the panel shows it.
#[derive(Debug, Clone)]
pub struct RepoView {
    pub name: String,
    pub path: String,
    pub branch: Option<String>,
    pub ahead: usize,
    pub behind: usize,
    pub staged: usize,
    pub modified: usize,
    pub untracked: usize,
    pub conflicted: usize,
    pub stashed: usize,
    pub tag: Option<String>,
    pub commits_since_tag: usize,
    pub last_commit: Option<String>,
    pub error: Option<String>,
    pub uninitialized: bool,
    pub pinned: bool,
    pub ci: Option<CiView>,
    /// "conflict" | "error" | "dirty" | "clean" | "empty"
    pub state: &'static str,
}

/// One watched folder, as the panel shows it.
#[derive(Debug, Clone)]
pub struct FolderView {
    pub path: String,
    pub label: String,
    pub total: usize,
    pub dirty: usize,
    pub failing: usize,
    pub missing: bool,
    pub repos: Vec<RepoView>,
}

/// Everything the panel is shown at once.
#[derive(Debug, Clone)]
pub struct Snapshot {
    pub folders: Vec<FolderView>,
    /// The version running right now, so the menu can say it.
    pub version: String,
    pub update: Option<String>,
    pub checking: bool,
    pub checked: bool,
    pub badge: Badge,
    pub scanning: bool,
    pub ci_age_secs: Option<u64>,
    pub gh: bool,
}

/// Where the panel's marks are kept: the session to use for the watched
/// folders, its pins file, and den's hidden file.
pub struct MarksFiles {
    pub session: SessionChoice,
    pub pins: String,
    pub hidden: String,
}

/// A session choice as the name used and the name it was renamed from.
pub open spec fn choice_view(c: SessionChoice) -> (Seq<char>, Option<Seq<char>>) {
    match c {
        SessionChoice::Use(id) => (id@, None),
        SessionChoice::Rename { from, to } => (to@, Some(from@)),
    }
}

/// Everything the menu bar holds between scans. `ci_at` is when CI was
/// last asked, in nanoseconds since the Unix epoch.
pub struct Model {
    pub version: String,
    pub cfg: BarConfig,
    pub repos: Vec<RepoStatus>,
    pub ci: PathMap<CiInfo>,
    pub ci_at: Option<u64>,
    pub gh: bool,
    pub scanning: bool,
    /// The version waiting to be installed, once a check has found one.
    pub update: Option<String>,
    /// A check is running because someone asked for it.
    pub checking: bool,
    /// Someone has asked, so "up to date" is worth saying.
    pub checked: bool,
    pub hidden: Vec<String>,
    pub pinned: Vec<String>,
}

/// The state word of a repository: an error first, then a conflict,
/// then an empty repository, then clean or dirty.
pub open spec fn state_word(r: RepoStatus) -> Seq<char> {
    if r.error is Some {
        "error"@
    } else if spec_has_conflict(r) {
        "conflict"@
    } else if spec_is_uninitialized(r) {
        "empty"@
    } else if spec_is_clean(r) {
        "clean"@
    } else {
        "dirty"@
    }
}

/// `v` shows the CI run `c`.
pub open spec fn ci_shows(v: Option<CiView>, c: Option<CiInfo>) -> bool {
    match (v, c) {
        (None, None) => true,
        (Some(v), Some(c)) => v.state == c.state && v.name == c.name && v.url == c.url
            && v.failed_step == c.failed_step,
        _ => false,
    }
}

/// `v` shows repository `r`, pinned or not, with the CI runs `ci`.
pub open spec fn repo_shows(
    v: RepoView,
    r: RepoStatus,
    pinned: Seq<Seq<char>>,
    ci: Seq<(String, CiInfo)>,
) -> bool {
    &&& v.name == r.name
    &&& v.path == r.path
    &&& v.branch == r.branch
    &&& v.ahead == r.ahead
    &&& v.behind == r.behind
    &&& v.staged == r.staged
    &&& v.modified == r.modified
    &&& v.untracked == r.untracked
    &&& v.conflicted == r.conflicted
    &&& v.stashed == r.stashed
    &&& v.tag == match r.latest_tag {
        Some(t) => Some(t.name),
        None => None,
    }
    &&& v.commits_since_tag == match r.latest_tag {
        Some(t) => t.commits_since,
        None => 0,
    }
    &&& v.last_commit == match r.last_commit {
        Some(c) => Some(c.summary),
        None => None,
    }
    &&& v.error == r.error
    &&& v.uninitialized == spec_is_uninitialized(r)
    &&& v.pinned == marked(pinned, r.path@)
    &&& ci_shows(v.ci, lookup(ci, r.path@))
    &&& v.state@ == state_word(r)
}

/// The repositories of `repos` inside `base`, in order.
pub open spec fn repos_within(repos: Seq<RepoStatus>, base: Seq<char>) -> Seq<RepoStatus>
    decreases repos.len(),
{
    if repos.len() == 0 {
        Seq::empty()
    } else {
        let prev = repos_within(repos.drop_last(), base);
        if within(repos.last().path@, base) {
            prev.push(repos.last())
        } else {
            prev
        }
    }
}

/// How the panel orders one folder's repositories: the shared rule,
/// with nothing filtered, hidden ones dropped, in the default mode.
pub open spec fn folder_rule(mine: Seq<RepoStatus>, hidden: Seq<Seq<char>>, pinned: Seq<Seq<char>>) -> OrderRule {
    OrderRule {
        repos: mine,
        filter_query: Seq::empty(),
        show_hidden: false,
        hidden,
        pinned,
        bases: Seq::empty(),
        base_filter: None,
        sort_mode: SortMode::Default,
    }
}

/// How many of `vs` are dirty or in conflict.
pub open spec fn count_dirty(vs: Seq<RepoView>) -> nat
    decreases vs.len(),
{
    if vs.len() == 0 {
        0
    } else {
        count_dirty(vs.drop_last()) + if vs.last().state@ == "dirty"@ || vs.last().state@
            == "conflict"@ {
            1nat
        } else {
            0nat
        }
    }
}

/// How many of `vs` have a failing CI run.
pub open spec fn count_failing(vs: Seq<RepoView>) -> nat
    decreases vs.len(),
{
    if vs.len() == 0 {
        0
    } else {
        count_failing(vs.drop_last()) + if vs.last().ci matches Some(c) && c.state
            == CiState::Failure {
            1nat
        } else {
            0nat
        }
    }
}

/// `fv` shows the folder `base` under `label`: its repositories in the
/// shared order, how many there are, how many are dirty or in conflict,
/// how many fail CI, and whether the folder is missing.
pub open spec fn folder_shows(
    fv: FolderView,
    base: Seq<char>,
    label: Seq<char>,
    present: bool,
    repos: Seq<RepoStatus>,
    hidden: Seq<Seq<char>>,
    pinned: Seq<Seq<char>>,
    ci: Seq<(String, CiInfo)>,
) -> bool {
    let mine = repos_within(repos, base);
    &&& fv.path@ == base
    &&& fv.label@ == label
    &&& fv.missing == !present
    &&& exists|order: Seq<usize>|
        {
            &&& is_display_order(folder_rule(mine, hidden, pinned), order)
            &&& fv.repos@.len() == order.len()
            &&& forall|k: int|
                0 <= k < order.len() ==> repo_shows(
                    #[trigger] fv.repos@[k],
                    mine[order[k] as int],
                    pinned,
                    ci,
                )
        }
    &&& fv.total == fv.repos@.len()
    &&& fv.dirty == count_dirty(fv.repos@)
    &&& fv.failing == count_failing(fv.repos@)
}

/// The glyph says one thing, and it is always the worst thing: failing
/// when any folder has a failing run, dirty when any has a dirty
/// repository, clean otherwise.
pub open spec fn badge_of(folders: Seq<FolderView>) -> Badge {
    if exists|k: int| 0 <= k < folders.len() && #[trigger] folders[k].failing > 0 {
        Badge::Failing
    } else if exists|k: int| 0 <= k < folders.len() && #[trigger] folders[k].dirty > 0 {
        Badge::Dirty
    } else {
        Badge::Clean
    }
}

/// How long ago CI was asked, in whole seconds, when it was asked at a
/// time not after `now` (both in nanoseconds since the epoch).
pub open spec fn ci_age_of(ci_at: Option<u64>, now: u64) -> Option<u64> {
    match ci_at {
        Some(t) => if t <= now {
            Some(((now - t) / 1_000_000_000) as u64)
        } else {
            None
        },
        None => None,
    }
}

fn ci_view_of(c: &CiInfo) -> (v: CiView)
    ensures
        ci_shows(Some(v), Some(*c)),
{
    CiView {
        state: c.state,
        name: c.name.clone(),
        url: c.url.clone(),
        failed_step: copy_opt_string(&c.failed_step),
    }
}

/// Whether folder `k` was found on disk, as the caller reported it
/// (a folder it said nothing of counts as present).
pub open spec fn present_at(present: Seq<bool>, k: int) -> bool {
    if 0 <= k < present.len() {
        present[k]
    } else {
        true
    }
}

impl Model {
    /// A model of the folders in `cfg`, before anything has been scanned.
    pub fn new(version: String, cfg: BarConfig) -> (m: Model)
        ensures
            m.version == version,
            m.cfg == cfg,
            m.repos@.len() == 0,
            m.ci.entries@.len() == 0,
            m.ci_at is None,
            !m.gh,
            !m.scanning,
            m.update is None,
            !m.checking,
            !m.checked,
            m.hidden@.len() == 0,
            m.pinned@.len() == 0,
    {
        Model {
            version,
            cfg,
            repos: Vec::new(),
            ci: PathMap { entries: Vec::new() },
            ci_at: None,
            gh: false,
            scanning: false,
            update: None,
            checking: false,
            checked: false,
            hidden: Vec::new(),
            pinned: Vec::new(),
        }
    }

    /// Read the pins (kept with the session for this exact folder set,
    /// the way the terminal writes them) and the hidden repositories
    /// (global to den) from the text of their files, the files that
    /// `marks_files` names.
    pub fn reload_marks(&mut self, pins_text: &str, hidden_text: &str)
        ensures
            strs(final(self).pinned@) == crate::session::path_lines(pins_text@),
            strs(final(self).hidden@) == crate::session::path_lines(hidden_text@),
            final(self).version == old(self).version,
            final(self).cfg == old(self).cfg,
            final(self).repos == old(self).repos,
            final(self).ci == old(self).ci,
            final(self).ci_at == old(self).ci_at,
            final(self).gh == old(self).gh,
            final(self).scanning == old(self).scanning,
            final(self).update == old(self).update,
            final(self).checking == old(self).checking,
            final(self).checked == old(self).checked,
    {
        self.pinned = parse_path_lines(pins_text);
        self.hidden = parse_path_lines(hidden_text);
    }

    /// The files `reload_marks` reads, for a home folder and what the
    /// sessions directory holds: the pins in the session chosen for the
    /// watched folders (`resolve_session`, which may first rename a
    /// session directory), and the hidden list in den's own folder.
    pub fn marks_files(&self, home: &str, sessions: &[SessionEntry]) -> (r: MarksFiles)
        ensures
            choice_view(r.session) == resolve_of(entries_view(sessions@), strs(self.cfg.folders@)),
            r.pins@ == path_join(
                session_dir_of(home@, resolve_of(entries_view(sessions@), strs(self.cfg.folders@)).0),
                "pins.txt"@,
            ),
            r.hidden@ == path_join(den_dir_of(home@), "hidden.txt"@),
    {
        let choice = resolve_session(sessions, self.cfg.folders.as_slice());
        let id = match &choice {
            SessionChoice::Use(id) => id.clone(),
            SessionChoice::Rename { from: _, to } => to.clone(),
        };
        let dir = session_dir(home, id.as_str());
        let pins = join_path(dir.as_str(), "pins.txt");
        let den = den_dir(home);
        let hidden = join_path(den.as_str(), "hidden.txt");
        MarksFiles { session: choice, pins, hidden }
    }

    /// One repository, as the panel shows it.
    pub fn repo_view(&self, r: &RepoStatus) -> (v: RepoView)
        ensures
            repo_shows(v, *r, strs(self.pinned@), self.ci.entries@),
    {
        let state: &'static str = if r.error.is_some() {
            "error"
        } else if r.has_conflict() {
            "conflict"
        } else if r.is_uninitialized() {
            "empty"
        } else if r.is_clean() {
            "clean"
        } else {
            "dirty"
        };
        let ci = match self.ci.get(r.path.as_str()) {
            Some(c) => Some(ci_view_of(c)),
            None => None,
        };
        RepoView {
            name: r.name.clone(),
            path: r.path.clone(),
            branch: copy_opt_string(&r.branch),
            ahead: r.ahead,
            behind: r.behind,
            staged: r.staged,
            modified: r.modified,
            untracked: r.untracked,
            conflicted: r.conflicted,
            stashed: r.stashed,
            tag: match &r.latest_tag {
                Some(t) => Some(t.name.clone()),
                None => None,
            },
            commits_since_tag: match &r.latest_tag {
                Some(t) => t.commits_since,
                None => 0,
            },
            last_commit: match &r.last_commit {
                Some(c) => Some(c.summary.clone()),
                None => None,
            },
            error: copy_opt_string(&r.error),
            uninitialized: r.is_uninitialized(),
            pinned: contains_path(self.pinned.as_slice(), r.path.as_str()),
            ci,
            state,
        }
    }

    /// One watched folder, as the panel shows it: the repositories inside
    /// it in the shared order, with hidden ones left out. Whether the
    /// folder exists on disk is the caller's to say.
    pub fn folder_view(&self, base: &str, label: String, present: bool) -> (fv: FolderView)
        ensures
            folder_shows(
                fv,
                base@,
                label@,
                present,
                self.repos@,
                strs(self.hidden@),
                strs(self.pinned@),
                self.ci.entries@,
            ),
    {
        let mut mine: Vec<RepoStatus> = Vec::new();
        let mut i: usize = 0;
        assert(self.repos@.subrange(0, 0) =~= Seq::<RepoStatus>::empty());
        while i < self.repos.len()
            invariant
                i <= self.repos@.len(),
                mine@ == repos_within(self.repos@.subrange(0, i as int), base@),
            decreases self.repos.len() - i,
        {
            let ghost pre = self.repos@.subrange(0, i as int);
            let ghost next = self.repos@.subrange(0, i + 1);
            assert(next.drop_last() =~= pre);
            if path_starts_with(self.repos[i].path.as_str(), base) {
                mine.push(self.repos[i].duplicate());
            }
            i = i + 1;
        }
        assert(self.repos@.subrange(0, self.repos@.len() as int) =~= self.repos@);
        let no_bases: Vec<String> = Vec::new();
        let ov = OrderView {
            repos: mine.as_slice(),
            filter_query: "",
            show_hidden: false,
            hidden: self.hidden.as_slice(),
            pinned: self.pinned.as_slice(),
            bases: no_bases.as_slice(),
            base_filter: None,
            sort_mode: SortMode::Default,
        };
        proof {
            reveal_strlit("");
            assert(strs(no_bases@) =~= Seq::<Seq<char>>::empty());
            assert(""@ =~= Seq::<char>::empty());
        }
        assert(ov@ == folder_rule(mine@, strs(self.hidden@), strs(self.pinned@)));
        let order = display_order(&ov);
        let mut repos: Vec<RepoView> = Vec::new();
        let mut k: usize = 0;
        while k < order.len()
            invariant
                k <= order@.len(),
                is_display_order(ov@, order@),
                ov@.repos == mine@,
                repos@.len() == k,
                forall|m: int|
                    0 <= m < k ==> repo_shows(
                        #[trigger] repos@[m],
                        mine@[order@[m] as int],
                        strs(self.pinned@),
                        self.ci.entries@,
                    ),
            decreases order.len() - k,
        {
            assert(order@.contains(order@[k as int]));
            let v = self.repo_view(&mine[order[k]]);
            repos.push(v);
            k = k + 1;
        }
        let mut dirty: usize = 0;
        let mut failing: usize = 0;
        let mut k: usize = 0;
        assert(repos@.subrange(0, 0) =~= Seq::<RepoView>::empty());
        while k < repos.len()
            invariant
                k <= repos@.len(),
                dirty == count_dirty(repos@.subrange(0, k as int)),
                failing == count_failing(repos@.subrange(0, k as int)),
                dirty <= k,
                failing <= k,
            decreases repos.len() - k,
        {
            let ghost pre = repos@.subrange(0, k as int);
            let ghost next = repos@.subrange(0, k + 1);
            assert(next.drop_last() =~= pre);
            assert(next.last() == repos@[k as int]);
            if crate::text::str_eq(repos[k].state, "dirty") || crate::text::str_eq(
                repos[k].state,
                "conflict",
            ) {
                dirty = dirty + 1;
            }
            let fails = match &repos[k].ci {
                Some(c) => c.state == CiState::Failure,
                None => false,
            };
            if fails {
                failing = failing + 1;
            }
            k = k + 1;
        }
        assert(repos@.subrange(0, repos@.len() as int) =~= repos@);
        let total = repos.len();
        let fv = FolderView {
            path: base.to_string(),
            label,
            total,
            dirty,
            failing,
            missing: !present,
            repos,
        };
        assert(is_display_order(folder_rule(mine@, strs(self.hidden@), strs(self.pinned@)), order@));
        fv
    }

    /// Everything the panel is shown: each watched folder under its
    /// label, the glyph's state, and how long ago (in whole seconds, at
    /// `now`, in nanoseconds since the epoch) CI was last asked. `present`
    /// says, folder by folder, whether it exists on disk.
    pub fn snapshot(&self, now: u64, present: &[bool]) -> (snap: Snapshot)
        ensures
            snap.folders@.len() == self.cfg.folders@.len(),
            forall|k: int|
                0 <= k < self.cfg.folders@.len() ==> folder_shows(
                    #[trigger] snap.folders@[k],
                    self.cfg.folders@[k]@,
                    label_of(strs(self.cfg.folders@), k),
                    present_at(present@, k),
                    self.repos@,
                    strs(self.hidden@),
                    strs(self.pinned@),
                    self.ci.entries@,
                ),
            snap.badge == badge_of(snap.folders@),
            snap.version == self.version,
            snap.update == self.update,
            snap.checking == self.checking,
            snap.checked == self.checked,
            snap.scanning == self.scanning,
            snap.ci_age_secs == ci_age_of(self.ci_at, now),
            snap.gh == self.gh,
    {
        let labels = label_folders(self.cfg.folders.as_slice());
        let mut folders: Vec<FolderView> = Vec::new();
        let mut k: usize = 0;
        while k < self.cfg.folders.len()
            invariant
                k <= self.cfg.folders@.len(),
                labels@.len() == self.cfg.folders@.len(),
                forall|i: int|
                    0 <= i < self.cfg.folders@.len() ==> #[trigger] labels@[i]@ == label_of(
                        strs(self.cfg.folders@),
                        i,
                    ),
                folders@.len() == k,
                forall|i: int|
                    0 <= i < k ==> folder_shows(
                        #[trigger] folders@[i],
                        self.cfg.folders@[i]@,
                        label_of(strs(self.cfg.folders@), i),
                        present_at(present@, i),
                        self.repos@,
                        strs(self.hidden@),
                        strs(self.pinned@),
                        self.ci.entries@,
                    ),
            decreases self.cfg.folders.len() - k,
        {
            let here = if k < present.len() {
                present[k]
            } else {
                true
            };
            let fv = self.folder_view(self.cfg.folders[k].as_str(), labels[k].clone(), here);
            folders.push(fv);
            k = k + 1;
        }
        let mut any_failing = false;
        let mut any_dirty = false;
        let mut k: usize = 0;
        while k < folders.len()
            invariant
                k <= folders@.len(),
                any_failing == exists|i: int| 0 <= i < k && #[trigger] folders@[i].failing > 0,
                any_dirty == exists|i: int| 0 <= i < k && #[trigger] folders@[i].dirty > 0,
            decreases folders.len() - k,
        {
            if folders[k].failing > 0 {
                any_failing = true;
            }
            if folders[k].dirty > 0 {
                any_dirty = true;
            }
            k = k + 1;
        }
        let badge = if any_failing {
            Badge::Failing
        } else if any_dirty {
            Badge::Dirty
        } else {
            Badge::Clean
        };
        let ci_age_secs = match self.ci_at {
            Some(t) => if t <= now {
                Some((now - t) / 1_000_000_000)
            } else {
                None
            },
            None => None,
        };
        Snapshot {
            folders,
            version: self.version.clone(),
            update: copy_opt_string(&self.update),
            checking: self.checking,
            checked: self.checked,
            badge,
            scanning: self.scanning,
            ci_age_secs,
            gh: self.gh,
        }
    }
}

// ── scanning ─────────────────────────────────────────────────────────

/// Every folder's repositories, one folder after another.
pub open spec fn all_found(found: Seq<Seq<RepoStatus>>) -> Seq<RepoStatus>
    decreases found.len(),
{
    if found.len() == 0 {
        Seq::empty()
    } else {
        all_found(found.drop_last()) + found.last()
    }
}

impl Model {
    /// The repositories of a scan: what was found in each folder, one
    /// folder after another, each in the order it was found.
    pub fn scan_folders(found: Vec<Vec<RepoStatus>>) -> (repos: Vec<RepoStatus>)
        ensures
            repos@ == all_found(Seq::new(found@.len(), |i: int| found@[i]@)),
    {
        let ghost fv = Seq::new(found@.len(), |i: int| found@[i]@);
        let mut repos: Vec<RepoStatus> = Vec::new();
        let mut rest = found;
        let ghost mut done: Seq<Seq<RepoStatus>> = Seq::empty();
        assert(fv =~= done + Seq::new(rest@.len(), |i: int| rest@[i]@));
        while rest.len() > 0
            invariant
                fv == done + Seq::new(rest@.len(), |i: int| rest@[i]@),
                repos@ == all_found(done),
            decreases rest.len(),
        {
            let ghost before = Seq::new(rest@.len(), |i: int| rest@[i]@);
            let mut folder = rest.remove(0);
            let ghost fview = folder@;
            assert(before =~= seq![fview] + Seq::new(rest@.len(), |i: int| rest@[i]@));
            let ghost start = repos@;
            repos.append(&mut folder);
            assert(repos@ =~= start + fview);
            proof {
                let next = done.push(fview);
                assert(next.drop_last() =~= done);
                assert(fv =~= next + Seq::new(rest@.len(), |i: int| rest@[i]@));
                done = next;
            }
        }
        assert(done =~= fv);
        repos
    }
}

/// How long after a scan a change on disk waits before scanning again.
pub open spec fn quiet_ms() -> int {
    2000
}

/// A scan finished less than the quiet period ago.
pub open spec fn recent(last: Option<u64>, now: u64) -> bool {
    match last {
        Some(t) => now >= t && now - t < quiet_ms(),
        None => false,
    }
}

/// What decides when a scan of every repository may start: a scan takes
/// long enough that a burst of changes must not queue one behind another.
pub struct Scans {
    pub busy: bool,
    /// When the last scan finished, in milliseconds.
    pub last: Option<u64>,
}

impl Scans {
    /// No scan running and none run yet.
    pub fn new() -> (s: Scans)
        ensures
            !s.busy,
            s.last is None,
    {
        Scans { busy: false, last: None }
    }

    /// Whether a scan may start at `now`. One a person asked for
    /// (`forced`) always may; one the disk asked for yields to a scan in
    /// flight and to the quiet period after the last one. A scan that
    /// starts is marked as running.
    pub fn begin(&mut self, forced: bool, now: u64) -> (go: bool)
        ensures
            go == (forced || !(old(self).busy || recent(old(self).last, now))),
            final(self).busy == (old(self).busy || go),
            final(self).last == old(self).last,
    {
        if !forced {
            if self.busy {
                return false;
            }
            let was_recent = match self.last {
                Some(t) => now >= t && now - t < 2000,
                None => false,
            };
            if was_recent {
                return false;
            }
        }
        self.busy = true;
        true
    }

    /// A scan finished at `now`.
    pub fn finish(&mut self, now: u64)
        ensures
            !final(self).busy,
            final(self).last == Some(now),
    {
        self.last = Some(now);
        self.busy = false;
    }
}


} // verus!
