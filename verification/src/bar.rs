//! The folders the menu bar watches.
//!
//! One list, read and written by both surfaces: the menu bar shows what
//! is in it, and `den <folder>` in a terminal puts what it was pointed at
//! into it. Watching a folder and a folder inside it would list every
//! nested repository twice, so the list never holds both.

use vstd::prelude::*;
use crate::paths::{
    join_path, lemma_within_refl, lemma_within_trans, path_eq, path_join, path_starts_with,
    same_path, within,
};
use crate::session::{den_dir, den_dir_of};
use crate::text::strs;

verus! {

/// How deep into a folder a repository may sit, when nothing says otherwise.
pub const DEFAULT_DEPTH: usize = 4;

/// A menu bar app runs all day, so it fetches far less often than the terminal.
pub const DEFAULT_FETCH_SECS: u64 = 900;

/// What the menu bar keeps in `bar.toml`.
pub struct BarConfig {
    pub folders: Vec<String>,
    pub depth: Option<usize>,
    pub fetch_interval_secs: Option<u64>,
}

// ── which folders stay ───────────────────────────────────────────────

/// No other folder of `s` holds `s[i]`, except a later one with the very
/// same components (of equal folders, the first stays).
pub open spec fn outermost(s: Seq<Seq<char>>, i: int) -> bool {
    forall|j: int|
        0 <= j < s.len() && j != i && #[trigger] within(s[i], s[j]) ==> within(s[j], s[i]) && i
            < j
}

/// The entries `s[i]`, `i < n`, for which `keep(i)` holds, in order.
pub open spec fn select(s: Seq<Seq<char>>, keep: spec_fn(int) -> bool, n: nat) -> Seq<Seq<char>>
    decreases n,
{
    if n == 0 {
        Seq::empty()
    } else {
        let prev = select(s, keep, (n - 1) as nat);
        if keep(n - 1) {
            prev.push(s[n - 1])
        } else {
            prev
        }
    }
}

/// The folders of `s` that no other folder of `s` holds, in the order given.
pub open spec fn pruned(s: Seq<Seq<char>>) -> Seq<Seq<char>> {
    select(s, |i: int| outermost(s, i), s.len())
}

/// The entries of `r` that do not lie within `f`, in order.
pub open spec fn drop_within(r: Seq<Seq<char>>, f: Seq<char>) -> Seq<Seq<char>>
    decreases r.len(),
{
    if r.len() == 0 {
        Seq::empty()
    } else {
        let prev = drop_within(r.drop_last(), f);
        if within(r.last(), f) {
            prev
        } else {
            prev.push(r.last())
        }
    }
}

/// Some folder of `s` that no other holds contains `s[j]`.
pub open spec fn covered(s: Seq<Seq<char>>, j: int) -> bool {
    exists|i: int| 0 <= i < s.len() && outermost(s, i) && #[trigger] within(s[j], s[i])
}

proof fn lemma_select_congruent(
    s1: Seq<Seq<char>>,
    k1: spec_fn(int) -> bool,
    s2: Seq<Seq<char>>,
    k2: spec_fn(int) -> bool,
    n: nat,
)
    requires
        n <= s1.len(),
        n <= s2.len(),
        forall|i: int| 0 <= i < n ==> s1[i] == s2[i] && k1(i) == k2(i),
    ensures
        select(s1, k1, n) == select(s2, k2, n),
    decreases n,
{
    if n > 0 {
        lemma_select_congruent(s1, k1, s2, k2, (n - 1) as nat);
    }
}

proof fn lemma_select_len(s: Seq<Seq<char>>, keep: spec_fn(int) -> bool, n: nat)
    ensures
        select(s, keep, n).len() <= n,
    decreases n,
{
    if n > 0 {
        lemma_select_len(s, keep, (n - 1) as nat);
    }
}

/// Every entry of a selection is an entry that was kept.
proof fn lemma_select_source(s: Seq<Seq<char>>, keep: spec_fn(int) -> bool, n: nat, m: int) -> (i:
    int)
    requires
        0 <= m < select(s, keep, n).len(),
    ensures
        0 <= i < n,
        keep(i),
        select(s, keep, n)[m] == s[i],
    decreases n,
{
    let prev = select(s, keep, (n - 1) as nat);
    if keep(n - 1) && m == prev.len() {
        n - 1
    } else {
        lemma_select_source(s, keep, (n - 1) as nat, m)
    }
}

/// Two entries of a selection come from kept entries in the same order.
proof fn lemma_select_order(s: Seq<Seq<char>>, keep: spec_fn(int) -> bool, n: nat, a: int, b: int) -> (ij: (
    int,
    int,
))
    requires
        0 <= a < b < select(s, keep, n).len(),
    ensures
        0 <= ij.0 < ij.1 < n,
        keep(ij.0),
        keep(ij.1),
        select(s, keep, n)[a] == s[ij.0],
        select(s, keep, n)[b] == s[ij.1],
    decreases n,
{
    let prev = select(s, keep, (n - 1) as nat);
    lemma_select_len(s, keep, (n - 1) as nat);
    if keep(n - 1) && b == prev.len() {
        let i = lemma_select_source(s, keep, (n - 1) as nat, a);
        (i, n - 1)
    } else {
        lemma_select_order(s, keep, (n - 1) as nat, a, b)
    }
}

/// Every kept entry is in the selection.
proof fn lemma_select_has(s: Seq<Seq<char>>, keep: spec_fn(int) -> bool, n: nat, i: int) -> (m:
    int)
    requires
        0 <= i < n,
        keep(i),
    ensures
        0 <= m < select(s, keep, n).len(),
        select(s, keep, n)[m] == s[i],
    decreases n,
{
    let prev = select(s, keep, (n - 1) as nat);
    if i == n - 1 {
        prev.len() as int
    } else {
        let m = lemma_select_has(s, keep, (n - 1) as nat, i);
        if keep(n - 1) {
            assert(prev.push(s[n - 1])[m] == prev[m]);
        }
        m
    }
}

/// Selecting everything gives the sequence itself.
proof fn lemma_select_all(s: Seq<Seq<char>>, keep: spec_fn(int) -> bool, n: nat)
    requires
        n <= s.len(),
        forall|i: int| 0 <= i < n ==> #[trigger] keep(i),
    ensures
        select(s, keep, n) == s.subrange(0, n as int),
    decreases n,
{
    if n > 0 {
        lemma_select_all(s, keep, (n - 1) as nat);
        assert(s.subrange(0, n - 1).push(s[n - 1]) =~= s.subrange(0, n as int));
    }
}

/// Dropping what lies within `f` from a selection is selecting less.
proof fn lemma_select_drop_within(
    s: Seq<Seq<char>>,
    keep: spec_fn(int) -> bool,
    both: spec_fn(int) -> bool,
    f: Seq<char>,
    n: nat,
)
    requires
        n <= s.len(),
        forall|i: int| 0 <= i < n ==> #[trigger] both(i) == (keep(i) && !within(s[i], f)),
    ensures
        select(s, both, n) == drop_within(select(s, keep, n), f),
    decreases n,
{
    if n > 0 {
        lemma_select_drop_within(s, keep, both, f, (n - 1) as nat);
        let prev = select(s, keep, (n - 1) as nat);
        if keep(n - 1) {
            assert(prev.push(s[n - 1]).drop_last() =~= prev);
        }
    }
}

/// Adding a folder that lies within a folder no other holds changes
/// nothing about the rest, and the new one does not stay.
proof fn lemma_step_held(t: Seq<Seq<char>>, f: Seq<char>, i: int)
    requires
        0 <= i < t.len(),
        outermost(t, i),
        within(f, t[i]),
    ensures
        forall|k: int| 0 <= k < t.len() ==> outermost(t.push(f), k) == outermost(t, k),
        !outermost(t.push(f), t.len() as int),
{
    let u = t.push(f);
    assert(u[i] == t[i]);
    assert(!outermost(u, t.len() as int)) by {
        assert(within(u[t.len() as int], u[i]));
    }
    assert forall|k: int| 0 <= k < t.len() implies outermost(u, k) == outermost(t, k) by {
        if outermost(t, k) {
            assert forall|j: int|
                0 <= j < u.len() && j != k && #[trigger] within(u[k], u[j]) implies within(
                u[j],
                u[k],
            ) && k < j by {
                if j == t.len() {
                    lemma_within_trans(t[k], f, t[i]);
                    if k != i {
                        assert(within(t[k], t[i]));
                        assert(within(t[i], t[k]) && k < i);
                        assert(false);
                    }
                } else {
                    assert(u[j] == t[j]);
                }
            }
        } else {
            let j = choose|j: int|
                !(0 <= j < t.len() && j != k && #[trigger] within(t[k], t[j]) ==> within(t[j], t[k])
                    && k < j);
            assert(u[j] == t[j]);
            assert(u[k] == t[k]);
        }
    }
}

/// Adding a folder that lies within none of the others: it stays, and
/// of the rest exactly those it does not hold stay.
proof fn lemma_step_fresh(t: Seq<Seq<char>>, f: Seq<char>)
    requires
        forall|i: int| 0 <= i < t.len() ==> !within(f, #[trigger] t[i]),
    ensures
        outermost(t.push(f), t.len() as int),
        forall|k: int|
            0 <= k < t.len() ==> outermost(t.push(f), k) == (outermost(t, k) && !within(t[k], f)),
{
    let u = t.push(f);
    assert forall|j: int|
        0 <= j < u.len() && j != t.len() && #[trigger] within(u[t.len() as int], u[j]) implies within(
        u[j],
        u[t.len() as int],
    ) && t.len() < j by {
        assert(u[j] == t[j]);
    }
    assert forall|k: int| 0 <= k < t.len() implies outermost(u, k) == (outermost(t, k) && !within(
        t[k],
        f,
    )) by {
        assert(u[k] == t[k]);
        if outermost(t, k) && !within(t[k], f) {
            assert forall|j: int|
                0 <= j < u.len() && j != k && #[trigger] within(u[k], u[j]) implies within(
                u[j],
                u[k],
            ) && k < j by {
                assert(j != t.len());
                assert(u[j] == t[j]);
            }
        } else if !outermost(t, k) {
            let j = choose|j: int|
                !(0 <= j < t.len() && j != k && #[trigger] within(t[k], t[j]) ==> within(t[j], t[k])
                    && k < j);
            assert(u[j] == t[j]);
        } else {
            assert(within(u[k], u[t.len() as int]));
        }
    }
}

/// Every folder of the first `n` lies within one of them that no other
/// of the first `n` holds.
pub proof fn lemma_coverage(s: Seq<Seq<char>>, n: nat)
    requires
        n <= s.len(),
    ensures
        forall|j: int| 0 <= j < n ==> #[trigger] covered(s.subrange(0, n as int), j),
    decreases n,
{
    if n > 0 {
        lemma_coverage(s, (n - 1) as nat);
        let t = s.subrange(0, n - 1);
        let f = s[n - 1];
        let u = s.subrange(0, n as int);
        assert(u =~= t.push(f));
        if exists|i: int| 0 <= i < t.len() && #[trigger] within(f, t[i]) {
            let i = choose|i: int| 0 <= i < t.len() && #[trigger] within(f, t[i]);
            assert(covered(t, i));
            let c = choose|c: int| 0 <= c < t.len() && outermost(t, c) && #[trigger] within(t[i], t[c]);
            lemma_within_trans(f, t[i], t[c]);
            lemma_step_held(t, f, c);
            assert forall|j: int| 0 <= j < n implies #[trigger] covered(u, j) by {
                if j < n - 1 {
                    assert(covered(t, j));
                    let cj = choose|cj: int|
                        0 <= cj < t.len() && outermost(t, cj) && #[trigger] within(t[j], t[cj]);
                    assert(outermost(u, cj));
                    assert(within(u[j], u[cj]));
                } else {
                    assert(outermost(u, c));
                    assert(within(u[j], u[c]));
                }
            }
        } else {
            lemma_step_fresh(t, f);
            assert forall|j: int| 0 <= j < n implies #[trigger] covered(u, j) by {
                if j < n - 1 {
                    assert(covered(t, j));
                    let cj = choose|cj: int|
                        0 <= cj < t.len() && outermost(t, cj) && #[trigger] within(t[j], t[cj]);
                    if within(t[cj], f) {
                        lemma_within_trans(t[j], t[cj], f);
                        assert(outermost(u, n - 1));
                        assert(within(u[j], u[n - 1]));
                    } else {
                        assert(outermost(u, cj));
                        assert(within(u[j], u[cj]));
                    }
                } else {
                    lemma_within_refl(f);
                    assert(outermost(u, n - 1));
                    assert(within(u[j], u[n - 1]));
                }
            }
        }
    }
}

/// Whether `f` lies within one of `kept`; the index of one such when it does.
fn held_by(kept: &Vec<String>, f: &String) -> (r: Option<usize>)
    ensures
        r matches Some(m) ==> m < kept@.len() && within(f@, kept@[m as int]@),
        r is None ==> forall|m: int| 0 <= m < kept@.len() ==> !within(f@, #[trigger] kept@[m]@),
{
    let mut m: usize = 0;
    while m < kept.len()
        invariant
            m <= kept@.len(),
            forall|k: int| 0 <= k < m ==> !within(f@, #[trigger] kept@[k]@),
        decreases kept.len() - m,
    {
        if path_starts_with(f.as_str(), kept[m].as_str()) {
            return Some(m);
        }
        m = m + 1;
    }
    None
}

/// The entries of `kept` that do not lie within `f`.
fn retain_outside(kept: &Vec<String>, f: &String) -> (r: Vec<String>)
    ensures
        strs(r@) == drop_within(strs(kept@), f@),
{
    let mut out: Vec<String> = Vec::new();
    let mut m: usize = 0;
    assert(strs(kept@).subrange(0, 0) =~= Seq::<Seq<char>>::empty());
    while m < kept.len()
        invariant
            m <= kept@.len(),
            strs(out@) == drop_within(strs(kept@).subrange(0, m as int), f@),
        decreases kept.len() - m,
    {
        let ghost pre = strs(kept@).subrange(0, m as int);
        let ghost next = strs(kept@).subrange(0, m + 1);
        assert(next.drop_last() =~= pre);
        assert(next.last() == kept@[m as int]@);
        if !path_starts_with(kept[m].as_str(), f.as_str()) {
            let ghost before = strs(out@);
            out.push(kept[m].clone());
            assert(strs(out@) =~= before.push(kept@[m as int]@));
        }
        m = m + 1;
    }
    assert(strs(kept@).subrange(0, kept@.len() as int) =~= strs(kept@));
    out
}

/// Watching a folder and a folder inside it lists every nested
/// repository twice, so the inner one goes: of the given folders, those
/// that no other holds stay, in the order given (of folders with the same
/// components, the first).
pub fn prune_nested(folders: Vec<String>) -> (r: Vec<String>)
    ensures
        strs(r@) == pruned(strs(folders@)),
{
    let ghost s = strs(folders@);
    let mut kept: Vec<String> = Vec::new();
    let mut t: usize = 0;
    let n = folders.len();
    proof {
        assert(select(s.subrange(0, 0), |i: int| outermost(s.subrange(0, 0), i), 0) =~= strs(
            kept@,
        ));
    }
    while t < n
        invariant
            n == folders@.len(),
            s == strs(folders@),
            t <= n,
            strs(kept@) == select(
                s.subrange(0, t as int),
                |i: int| outermost(s.subrange(0, t as int), i),
                t as nat,
            ),
        decreases n - t,
    {
        let ghost tt = s.subrange(0, t as int);
        let ghost f = s[t as int];
        let ghost u = s.subrange(0, t + 1);
        assert(u =~= tt.push(f));
        assert(folders@[t as int]@ == f);
        let ghost k_old = |i: int| outermost(tt, i);
        let ghost k_new = |i: int| outermost(u, i);
        assert(strs(kept@) == select(tt, k_old, t as nat));
        match held_by(&kept, &folders[t]) {
            Some(m) => {
                proof {
                    let i = lemma_select_source(tt, k_old, t as nat, m as int);
                    assert(strs(kept@)[m as int] == kept@[m as int]@);
                    lemma_step_held(tt, f, i);
                    lemma_select_congruent(tt, k_old, u, k_new, t as nat);
                    assert(select(u, k_new, (t + 1) as nat) == select(u, k_new, t as nat));
                }
            },
            None => {
                proof {
                    lemma_coverage(s, t as nat);
                    assert forall|i: int| 0 <= i < tt.len() implies !within(f, #[trigger] tt[i]) by {
                        if within(f, tt[i]) {
                            assert(covered(tt, i));
                            let c = choose|c: int|
                                0 <= c < tt.len() && outermost(tt, c) && #[trigger] within(
                                    tt[i],
                                    tt[c],
                                );
                            lemma_within_trans(f, tt[i], tt[c]);
                            let m = lemma_select_has(tt, k_old, t as nat, c);
                            assert(strs(kept@)[m] == kept@[m]@);
                            assert(!within(f, kept@[m]@));
                        }
                    }
                    lemma_step_fresh(tt, f);
                }
                let mut next = retain_outside(&kept, &folders[t]);
                let ghost both = |i: int| outermost(tt, i) && !within(tt[i], f);
                proof {
                    lemma_select_drop_within(tt, k_old, both, f, t as nat);
                    assert forall|i: int| 0 <= i < t implies tt[i] == u[i] && both(i) == k_new(i) by {
                        assert(outermost(tt.push(f), i) == (outermost(tt, i) && !within(tt[i], f)));
                    }
                    lemma_select_congruent(tt, both, u, k_new, t as nat);
                }
                let ghost before = strs(next@);
                next.push(folders[t].clone());
                assert(strs(next@) =~= before.push(f));
                assert(u[t as int] == f);
                kept = next;
            },
        }
        t = t + 1;
    }
    assert(s.subrange(0, n as int) =~= s);
    kept
}

// ── the laws of the pruned list ──────────────────────────────────────

/// No folder that stays lies within another that stays.
pub proof fn lemma_pruned_nests_nothing(s: Seq<Seq<char>>)
    ensures
        forall|a: int, b: int|
            0 <= a < pruned(s).len() && 0 <= b < pruned(s).len() && a != b ==> !within(
                #[trigger] pruned(s)[a],
                #[trigger] pruned(s)[b],
            ),
{
    let keep = |i: int| outermost(s, i);
    assert forall|a: int, b: int|
        0 <= a < pruned(s).len() && 0 <= b < pruned(s).len() && a != b implies !within(
        #[trigger] pruned(s)[a],
        #[trigger] pruned(s)[b],
    ) by {
        let (x, y) = if a < b {
            lemma_select_order(s, keep, s.len(), a, b)
        } else {
            let (p, q) = lemma_select_order(s, keep, s.len(), b, a);
            (q, p)
        };
        assert(outermost(s, x) && outermost(s, y));
        if within(s[x], s[y]) {
            assert(within(s[y], s[x]));
            assert(x < y && y < x);
        }
    }
}

/// `x` lies within some entry of `r`.
pub open spec fn within_some(x: Seq<char>, r: Seq<Seq<char>>) -> bool {
    exists|m: int| 0 <= m < r.len() && #[trigger] within(x, r[m])
}

/// Every folder given lies within a folder that stays.
pub proof fn lemma_pruned_covers(s: Seq<Seq<char>>)
    ensures
        forall|j: int| 0 <= j < s.len() ==> within_some(#[trigger] s[j], pruned(s)),
{
    lemma_coverage(s, s.len());
    assert(s.subrange(0, s.len() as int) =~= s);
    assert forall|j: int| 0 <= j < s.len() implies within_some(#[trigger] s[j], pruned(s)) by {
        assert(covered(s, j));
        let c = choose|c: int| 0 <= c < s.len() && outermost(s, c) && #[trigger] within(s[j], s[c]);
        let m = lemma_select_has(s, |i: int| outermost(s, i), s.len(), c);
        assert(within(s[j], pruned(s)[m]));
    }
}

/// Every folder that stays was given.
pub proof fn lemma_pruned_from_given(s: Seq<Seq<char>>)
    ensures
        forall|m: int| 0 <= m < pruned(s).len() ==> s.contains(#[trigger] pruned(s)[m]),
{
    assert forall|m: int| 0 <= m < pruned(s).len() implies s.contains(#[trigger] pruned(s)[m]) by {
        let i = lemma_select_source(s, |i: int| outermost(s, i), s.len(), m);
        assert(s[i] == pruned(s)[m]);
    }
}

/// Pruning a pruned list changes nothing.
pub proof fn lemma_pruned_idempotent(s: Seq<Seq<char>>)
    ensures
        pruned(pruned(s)) == pruned(s),
{
    let r = pruned(s);
    lemma_pruned_nests_nothing(s);
    assert forall|k: int| 0 <= k < r.len() implies outermost(r, k) by {
        assert forall|j: int|
            0 <= j < r.len() && j != k && #[trigger] within(r[k], r[j]) implies within(r[j], r[k])
            && k < j by {
            assert(!within(r[k], r[j]));
        }
    }
    lemma_select_all(r, |i: int| outermost(r, i), r.len());
    assert(r.subrange(0, r.len() as int) =~= r);
}

// ── the configuration ────────────────────────────────────────────────

impl BarConfig {
    /// Where the menu bar keeps its list, under the given home directory:
    /// `~/.den/bar.toml`.
    pub fn path(home: &str) -> (r: String)
        ensures
            r@ == path_join(den_dir_of(home@), "bar.toml"@),
    {
        let dir = den_dir(home);
        join_path(dir.as_str(), "bar.toml")
    }

    /// Add a folder unless it is already watched, or already inside
    /// something watched. Returns whether the list changed.
    pub fn add_folder(&mut self, folder: String) -> (changed: bool)
        ensures
            changed == !exists|i: int|
                0 <= i < old(self).folders@.len() && within(
                    folder@,
                    #[trigger] old(self).folders@[i]@,
                ),
            changed ==> strs(final(self).folders@) == pruned(
                strs(old(self).folders@).push(folder@),
            ),
            !changed ==> final(self).folders@ == old(self).folders@,
            final(self).depth == old(self).depth,
            final(self).fetch_interval_secs == old(self).fetch_interval_secs,
    {
        match held_by(&self.folders, &folder) {
            Some(m) => {
                assert(within(folder@, self.folders@[m as int]@));
                false
            },
            None => {
                let mut all = Vec::new();
                std::mem::swap(&mut all, &mut self.folders);
                let ghost before = all@;
                all.push(folder);
                assert(strs(all@) =~= strs(before).push(folder@));
                self.folders = prune_nested(all);
                true
            },
        }
    }

    /// How deep a repository may sit in a folder.
    pub fn depth(&self) -> (r: usize)
        ensures
            r == match self.depth {
                Some(d) => d,
                None => DEFAULT_DEPTH,
            },
    {
        match self.depth {
            Some(d) => d,
            None => DEFAULT_DEPTH,
        }
    }

    /// Seconds between CI lookups.
    pub fn fetch_secs(&self) -> (r: u64)
        ensures
            r == match self.fetch_interval_secs {
                Some(s) => s,
                None => DEFAULT_FETCH_SECS,
            },
    {
        match self.fetch_interval_secs {
            Some(s) => s,
            None => DEFAULT_FETCH_SECS,
        }
    }
}

/// `folder` is already watched: some folder of the list holds it.
pub open spec fn held(folders: Seq<Seq<char>>, f: Seq<char>) -> bool {
    exists|i: int| 0 <= i < folders.len() && within(f, #[trigger] folders[i])
}

/// The list after `add_folder(f)`.
pub open spec fn with_folder(folders: Seq<Seq<char>>, f: Seq<char>) -> Seq<Seq<char>> {
    if held(folders, f) {
        folders
    } else {
        pruned(folders.push(f))
    }
}

/// The list after adding each of `new` in turn.
pub open spec fn adopted(folders: Seq<Seq<char>>, new: Seq<Seq<char>>) -> Seq<Seq<char>>
    decreases new.len(),
{
    if new.len() == 0 {
        folders
    } else {
        with_folder(adopted(folders, new.drop_last()), new.last())
    }
}

/// Whether adding each of `new` in turn changed the list at some point.
pub open spec fn adopt_changed(folders: Seq<Seq<char>>, new: Seq<Seq<char>>) -> bool
    decreases new.len(),
{
    if new.len() == 0 {
        false
    } else {
        adopt_changed(folders, new.drop_last()) || !held(adopted(folders, new.drop_last()), new.last())
    }
}

/// A folder already watched stays watched when another is added.
proof fn lemma_held_stays(folders: Seq<Seq<char>>, f: Seq<char>, g: Seq<char>)
    requires
        held(folders, f),
    ensures
        held(with_folder(folders, g), f),
{
    if !held(folders, g) {
        let s = folders.push(g);
        let i = choose|i: int| 0 <= i < folders.len() && within(f, #[trigger] folders[i]);
        lemma_pruned_covers(s);
        assert(s[i] == folders[i]);
        assert(within_some(s[i], pruned(s)));
        let m = choose|m: int| 0 <= m < pruned(s).len() && #[trigger] within(s[i], pruned(s)[m]);
        crate::paths::lemma_within_trans(f, folders[i], pruned(s)[m]);
    }
}

/// A folder just added is watched.
proof fn lemma_added_held(folders: Seq<Seq<char>>, g: Seq<char>)
    ensures
        held(with_folder(folders, g), g),
{
    if !held(folders, g) {
        let s = folders.push(g);
        lemma_pruned_covers(s);
        assert(s[s.len() - 1] == g);
        assert(within_some(s[s.len() - 1], pruned(s)));
    }
}

/// After adding each of `new`, every one of them is watched.
proof fn lemma_adopted_holds(folders: Seq<Seq<char>>, new: Seq<Seq<char>>)
    ensures
        forall|k: int| 0 <= k < new.len() ==> held(adopted(folders, new), #[trigger] new[k]),
    decreases new.len(),
{
    if new.len() > 0 {
        let init = new.drop_last();
        lemma_adopted_holds(folders, init);
        let before = adopted(folders, init);
        assert forall|k: int| 0 <= k < new.len() implies held(adopted(folders, new), #[trigger] new[k]) by {
            if k < new.len() - 1 {
                assert(new[k] == init[k]);
                lemma_held_stays(before, new[k], new.last());
            } else {
                lemma_added_held(before, new.last());
            }
        }
    }
}

/// Adding folders that are all watched already changes nothing.
proof fn lemma_adopt_held(folders: Seq<Seq<char>>, new: Seq<Seq<char>>)
    requires
        forall|k: int| 0 <= k < new.len() ==> held(folders, #[trigger] new[k]),
    ensures
        adopted(folders, new) == folders,
        !adopt_changed(folders, new),
    decreases new.len(),
{
    if new.len() > 0 {
        let init = new.drop_last();
        assert forall|k: int| 0 <= k < init.len() implies held(folders, #[trigger] init[k]) by {
            assert(init[k] == new[k]);
        }
        lemma_adopt_held(folders, init);
        assert(held(folders, new[new.len() - 1]));
    }
}

/// Taking in the same folders a second time changes nothing, and says
/// so: a caller told nothing changed can stay quiet.
pub proof fn lemma_adopt_twice(folders: Seq<Seq<char>>, new: Seq<Seq<char>>)
    ensures
        adopted(adopted(folders, new), new) == adopted(folders, new),
        !adopt_changed(adopted(folders, new), new),
{
    lemma_adopted_holds(folders, new);
    lemma_adopt_held(adopted(folders, new), new);
}

/// The paths of `s`, each once: a later path that is the same path as
/// an earlier one is dropped (`Vec::contains` on paths).
pub open spec fn distinct_paths(s: Seq<Seq<char>>) -> Seq<Seq<char>>
    decreases s.len(),
{
    if s.len() == 0 {
        Seq::empty()
    } else {
        let d = distinct_paths(s.drop_last());
        if crate::order::marked(d, s.last()) {
            d
        } else {
            d.push(s.last())
        }
    }
}

/// The folders of every session, one list after another.
pub open spec fn all_bases(lists: Seq<Seq<Seq<char>>>) -> Seq<Seq<char>>
    decreases lists.len(),
{
    if lists.len() == 0 {
        Seq::empty()
    } else {
        all_bases(lists.drop_last()) + lists.last()
    }
}

pub open spec fn lists_view(lists: Seq<Vec<String>>) -> Seq<Seq<Seq<char>>> {
    Seq::new(lists.len(), |i: int| strs(lists[i]@))
}

impl BarConfig {
    /// An empty list, with the default depth and fetch interval.
    pub fn empty() -> (c: BarConfig)
        ensures
            c.folders@.len() == 0,
            c.depth is None,
            c.fetch_interval_secs is None,
    {
        BarConfig { folders: Vec::new(), depth: None, fetch_interval_secs: None }
    }

    /// The list a bar starts with when it has none: every folder the
    /// terminal's sessions were opened with, each once, the nested ones
    /// dropped.
    pub fn seeded(session_bases: &[Vec<String>]) -> (c: BarConfig)
        ensures
            strs(c.folders@) == pruned(distinct_paths(all_bases(lists_view(session_bases@)))),
            c.depth is None,
            c.fetch_interval_secs is None,
    {
        let ghost lv = lists_view(session_bases@);
        let mut all: Vec<String> = Vec::new();
        let mut i: usize = 0;
        assert(lv.subrange(0, 0) =~= Seq::<Seq<Seq<char>>>::empty());
        assert(strs(all@) =~= Seq::<Seq<char>>::empty());
        while i < session_bases.len()
            invariant
                lv == lists_view(session_bases@),
                i <= session_bases@.len(),
                strs(all@) == all_bases(lv.subrange(0, i as int)),
            decreases session_bases.len() - i,
        {
            let ghost pre = lv.subrange(0, i as int);
            let ghost next = lv.subrange(0, i + 1);
            assert(next.drop_last() =~= pre);
            assert(next.last() == strs(session_bases@[i as int]@));
            let list = &session_bases[i];
            let ghost start = strs(all@);
            let mut k: usize = 0;
            while k < list.len()
                invariant
                    k <= list@.len(),
                    strs(all@) == start + strs(list@).subrange(0, k as int),
                decreases list.len() - k,
            {
                let ghost before = strs(all@);
                let item = list[k].clone();
                all.push(item);
                assert(strs(all@) =~= before.push(list@[k as int]@));
                k = k + 1;
                assert(strs(all@) =~= start + strs(list@).subrange(0, k as int));
            }
            assert(strs(list@).subrange(0, list@.len() as int) =~= strs(list@));
            i = i + 1;
        }
        assert(lv.subrange(0, session_bases@.len() as int) =~= lv);
        let ghost flat = strs(all@);
        let mut once: Vec<String> = Vec::new();
        let mut j: usize = 0;
        assert(flat.subrange(0, 0) =~= Seq::<Seq<char>>::empty());
        assert(strs(once@) =~= Seq::<Seq<char>>::empty());
        while j < all.len()
            invariant
                flat == strs(all@),
                j <= all@.len(),
                strs(once@) == distinct_paths(flat.subrange(0, j as int)),
            decreases all.len() - j,
        {
            let ghost pre = flat.subrange(0, j as int);
            let ghost next = flat.subrange(0, j + 1);
            assert(next.drop_last() =~= pre);
            assert(next.last() == all@[j as int]@);
            if !crate::order::contains_path(once.as_slice(), all[j].as_str()) {
                let ghost before = strs(once@);
                once.push(all[j].clone());
                assert(strs(once@) =~= before.push(flat[j as int]));
            }
            j = j + 1;
        }
        assert(flat.subrange(0, all@.len() as int) =~= flat);
        BarConfig { folders: prune_nested(once), depth: None, fetch_interval_secs: None }
    }

    /// Take in folders someone opened in a terminal (each already made
    /// absolute), in turn. Returns whether the list changed.
    pub fn adopt(&mut self, folders: &[String]) -> (changed: bool)
        ensures
            strs(final(self).folders@) == adopted(strs(old(self).folders@), strs(folders@)),
            changed == adopt_changed(strs(old(self).folders@), strs(folders@)),
            final(self).depth == old(self).depth,
            final(self).fetch_interval_secs == old(self).fetch_interval_secs,
    {
        let ghost start = strs(self.folders@);
        let ghost fs = strs(folders@);
        let mut changed = false;
        let mut i: usize = 0;
        assert(fs.subrange(0, 0) =~= Seq::<Seq<char>>::empty());
        while i < folders.len()
            invariant
                fs == strs(folders@),
                i <= folders@.len(),
                strs(self.folders@) == adopted(start, fs.subrange(0, i as int)),
                changed == adopt_changed(start, fs.subrange(0, i as int)),
                self.depth == old(self).depth,
                self.fetch_interval_secs == old(self).fetch_interval_secs,
            decreases folders.len() - i,
        {
            let ghost pre = fs.subrange(0, i as int);
            let ghost next = fs.subrange(0, i + 1);
            assert(next.drop_last() =~= pre);
            assert(next.last() == folders@[i as int]@);
            let ghost cur = strs(self.folders@);
            let ghost before_vec = self.folders@;
            let added = self.add_folder(folders[i].clone());
            proof {
                let f = folders@[i as int]@;
                if held(cur, f) {
                    let k = choose|k: int| 0 <= k < cur.len() && within(f, #[trigger] cur[k]);
                    assert(cur[k] == before_vec[k]@);
                    assert(!added);
                } else {
                    if !added {
                        let k = choose|k: int|
                            0 <= k < before_vec.len() && within(f, #[trigger] before_vec[k]@);
                        assert(cur[k] == before_vec[k]@);
                    }
                    assert(added);
                }
            }
            if added {
                changed = true;
            }
            i = i + 1;
        }
        assert(fs.subrange(0, folders@.len() as int) =~= fs);
        changed
    }
}

} // verus!
