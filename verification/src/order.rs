//! One ordering for every surface.
//!
//! The terminal and the menu bar must agree on which repository comes
//! first, so the rule lives here and both pass it the same view of what
//! is pinned, hidden, filtered and sorted.
//!
//! The rule: what is hidden goes last; what is pinned goes first; then,
//! by recency in `ByRecency` mode and by state in every other mode
//! (trouble, then dirty, then clean, then empty); then by name; and
//! repositories that tie on all of that keep the order they were given in.

use vstd::prelude::*;
use crate::model::SortMode;
use crate::paths::{path_eq, path_starts_with, same_path, within};
use crate::repo::{RepoStatus, spec_has_conflict, spec_is_clean, spec_is_uninitialized};
use crate::text::{chars_of, contains_chars, contains_seq, lowercase, strs, to_lowercase, trim, trim_str};

verus! {

/// Everything the ordering needs, borrowed from whichever surface asks.
/// Paths in `hidden`, `pinned` and `bases` are compared by components.
pub struct OrderView<'a> {
    pub repos: &'a [RepoStatus],
    pub filter_query: &'a str,
    pub show_hidden: bool,
    pub hidden: &'a [String],
    pub pinned: &'a [String],
    pub bases: &'a [String],
    pub base_filter: Option<usize>,
    pub sort_mode: SortMode,
}

/// The ordering's inputs as plain values.
pub struct OrderRule {
    pub repos: Seq<RepoStatus>,
    pub filter_query: Seq<char>,
    pub show_hidden: bool,
    pub hidden: Seq<Seq<char>>,
    pub pinned: Seq<Seq<char>>,
    pub bases: Seq<Seq<char>>,
    pub base_filter: Option<usize>,
    pub sort_mode: SortMode,
}

impl<'a> View for OrderView<'a> {
    type V = OrderRule;

    open spec fn view(&self) -> OrderRule {
        OrderRule {
            repos: self.repos@,
            filter_query: self.filter_query@,
            show_hidden: self.show_hidden,
            hidden: strs(self.hidden@),
            pinned: strs(self.pinned@),
            bases: strs(self.bases@),
            base_filter: self.base_filter,
            sort_mode: self.sort_mode,
        }
    }
}

// ── comparing names ──────────────────────────────────────────────────

/// `String`'s `<`: lexicographic, character by character.
pub open spec fn str_lt(a: Seq<char>, b: Seq<char>) -> bool
    decreases a.len(),
{
    if a.len() == 0 {
        b.len() > 0
    } else if b.len() == 0 {
        false
    } else if a[0] != b[0] {
        (a[0] as int) < (b[0] as int)
    } else {
        str_lt(a.drop_first(), b.drop_first())
    }
}

/// -1, 0 or 1 as `a` sorts before, with, or after `b`.
pub open spec fn name_order(a: Seq<char>, b: Seq<char>) -> int {
    if a == b {
        0
    } else if str_lt(a, b) {
        -1
    } else {
        1
    }
}

pub proof fn lemma_str_lt_total(a: Seq<char>, b: Seq<char>)
    ensures
        a == b ==> !str_lt(a, b),
        a != b ==> (str_lt(a, b) != str_lt(b, a)),
    decreases a.len(),
{
    if a.len() > 0 && b.len() > 0 && a[0] == b[0] {
        lemma_str_lt_total(a.drop_first(), b.drop_first());
        if a != b {
            if a.drop_first() == b.drop_first() {
                assert forall|k: int| 0 <= k < a.len() implies a[k] == b[k] by {
                    if k > 0 {
                        assert(a[k] == a.drop_first()[k - 1]);
                        assert(b[k] == b.drop_first()[k - 1]);
                    }
                }
                assert(a =~= b);
            }
        }
    } else if a.len() == 0 && b.len() == 0 {
        assert(a =~= b);
    }
}

pub proof fn lemma_str_lt_trans(a: Seq<char>, b: Seq<char>, c: Seq<char>)
    requires
        str_lt(a, b),
        str_lt(b, c),
    ensures
        str_lt(a, c),
    decreases a.len(),
{
    if a.len() > 0 && b.len() > 0 && c.len() > 0 && a[0] == b[0] && b[0] == c[0] {
        lemma_str_lt_trans(a.drop_first(), b.drop_first(), c.drop_first());
    }
}

/// The name comparison is a total order.
pub proof fn lemma_name_order(a: Seq<char>, b: Seq<char>, c: Seq<char>)
    ensures
        name_order(a, b) == -name_order(b, a),
        name_order(a, b) == 0 <==> a == b,
        name_order(a, b) < 0 && name_order(b, c) < 0 ==> name_order(a, c) < 0,
{
    lemma_str_lt_total(a, b);
    lemma_str_lt_total(b, c);
    lemma_str_lt_total(a, c);
    if str_lt(a, b) && str_lt(b, c) {
        lemma_str_lt_trans(a, b, c);
    }
    if a == b {
        lemma_str_lt_total(a, a);
    }
}

proof fn lemma_str_lt_from(a: Seq<char>, b: Seq<char>, i: int)
    requires
        0 <= i <= a.len(),
        i <= b.len(),
        a.subrange(0, i) == b.subrange(0, i),
    ensures
        str_lt(a, b) == str_lt(a.subrange(i, a.len() as int), b.subrange(i, b.len() as int)),
        (a == b) == (a.subrange(i, a.len() as int) == b.subrange(i, b.len() as int)),
    decreases i,
{
    if i > 0 {
        assert(a[0] == a.subrange(0, i)[0]);
        assert(b[0] == b.subrange(0, i)[0]);
        let a1 = a.drop_first();
        let b1 = b.drop_first();
        assert(a1.subrange(0, i - 1) =~= a.subrange(1, i));
        assert(b1.subrange(0, i - 1) =~= b.subrange(1, i));
        assert(a.subrange(1, i) =~= a.subrange(0, i).drop_first());
        assert(b.subrange(1, i) =~= b.subrange(0, i).drop_first());
        lemma_str_lt_from(a1, b1, i - 1);
        assert(a1.subrange(i - 1, a1.len() as int) =~= a.subrange(i, a.len() as int));
        assert(b1.subrange(i - 1, b1.len() as int) =~= b.subrange(i, b.len() as int));
        if a1 == b1 {
            assert forall|k: int| 0 <= k < a.len() implies a[k] == b[k] by {
                if k > 0 {
                    assert(a[k] == a1[k - 1]);
                    assert(b[k] == b1[k - 1]);
                }
            }
            assert(a =~= b);
        }
    } else {
        assert(a.subrange(0, a.len() as int) =~= a);
        assert(b.subrange(0, b.len() as int) =~= b);
    }
}

/// `String`'s three-way comparison: -1, 0 or 1.
pub fn compare_names(a: &[char], b: &[char]) -> (r: i8)
    ensures
        r as int == name_order(a@, b@),
{
    let mut i: usize = 0;
    while i < a.len() && i < b.len() && a[i] == b[i]
        invariant
            i <= a@.len(),
            i <= b@.len(),
            a@.subrange(0, i as int) == b@.subrange(0, i as int),
        decreases a.len() - i,
    {
        assert(a@.subrange(0, i + 1) =~= a@.subrange(0, i as int).push(a@[i as int]));
        assert(b@.subrange(0, i + 1) =~= b@.subrange(0, i as int).push(b@[i as int]));
        i = i + 1;
    }
    proof {
        lemma_str_lt_from(a@, b@, i as int);
    }
    if i == a.len() && i == b.len() {
        assert(a@.subrange(i as int, a@.len() as int) =~= b@.subrange(i as int, b@.len() as int));
        0
    } else if i == a.len() {
        assert(a@.subrange(i as int, a@.len() as int).len() == 0);
        assert(a@.subrange(i as int, a@.len() as int) != b@.subrange(i as int, b@.len() as int));
        -1
    } else if i == b.len() {
        assert(a@.subrange(i as int, a@.len() as int) != b@.subrange(i as int, b@.len() as int));
        1
    } else {
        let ghost sa = a@.subrange(i as int, a@.len() as int);
        let ghost sb = b@.subrange(i as int, b@.len() as int);
        assert(sa[0] == a@[i as int]);
        assert(sb[0] == b@[i as int]);
        assert(sa != sb);
        if a[i] < b[i] {
            -1
        } else {
            1
        }
    }
}

// ── the rule ─────────────────────────────────────────────────────────

/// `p` is one of the paths of `set`, compared by components.
pub open spec fn marked(set: Seq<Seq<char>>, p: Seq<char>) -> bool {
    exists|k: int| 0 <= k < set.len() && #[trigger] same_path(set[k], p)
}

/// Trouble first: 0 for a conflict or an error, 1 for dirty, 2 for
/// clean, 3 for a repository with nothing in it yet.
pub open spec fn priority_of(r: RepoStatus) -> u8 {
    if spec_has_conflict(r) || r.error is Some {
        0
    } else if spec_is_uninitialized(r) {
        3
    } else if !spec_is_clean(r) {
        1
    } else {
        2
    }
}

/// Trouble first: 0 for a conflict or an error, 1 for dirty, 2 for
/// clean, 3 for a repository with nothing in it yet.
pub fn state_priority(r: &RepoStatus) -> (p: u8)
    ensures
        p == priority_of(*r),
{
    if r.has_conflict() || r.error.is_some() {
        0
    } else if r.is_uninitialized() {
        3
    } else if !r.is_clean() {
        1
    } else {
        2
    }
}

/// The filter text as it is matched: trimmed and lowercased.
pub open spec fn query_of(v: OrderRule) -> Seq<char> {
    lowercase(trim(v.filter_query))
}

/// Whether repository `i` is shown at all: not hidden (unless hidden
/// ones are shown), its lowercased name holding the query (any name when
/// the query is blank), and inside the
/// chosen base folder when one is chosen and exists.
pub open spec fn shown(v: OrderRule, i: int) -> bool {
    let r = v.repos[i];
    &&& (v.show_hidden || !marked(v.hidden, r.path@))
    &&& (trim(v.filter_query).len() == 0 || contains_seq(lowercase(r.name@), query_of(v)))
    &&& match v.base_filter {
        Some(bi) => bi < v.bases.len() ==> within(r.path@, v.bases[bi as int]),
        None => true,
    }
}

/// -1, 0 or 1 as `x` is false and `y` true, both the same, or the reverse.
pub open spec fn false_first(x: bool, y: bool) -> int {
    if x == y {
        0
    } else if !x {
        -1
    } else {
        1
    }
}

/// `Option`'s order: `None` first.
pub open spec fn opt_lt(x: Option<u64>, y: Option<u64>) -> bool {
    match (x, y) {
        (None, Some(_)) => true,
        (Some(a), Some(b)) => a < b,
        _ => false,
    }
}

/// The time of a repository's last commit, if it has one.
pub open spec fn commit_time(r: RepoStatus) -> Option<u64> {
    match r.last_commit {
        Some(c) => Some(c.time),
        None => None,
    }
}

/// The comparison that the sort mode adds: newest commit first in
/// `ByRecency` mode, trouble first in every other.
pub open spec fn mode_order(m: SortMode, a: RepoStatus, b: RepoStatus) -> int {
    match m {
        SortMode::ByRecency => {
            let ta = commit_time(a);
            let tb = commit_time(b);
            if ta == tb {
                0
            } else if opt_lt(tb, ta) {
                -1
            } else {
                1
            }
        },
        _ => {
            let pa = priority_of(a);
            let pb = priority_of(b);
            if pa == pb {
                0
            } else if pa < pb {
                -1
            } else {
                1
            }
        },
    }
}

/// Where repository `i` stands against repository `j`: negative when it
/// comes first. Hidden last, pinned first, then the mode's comparison,
/// then the name, then the order given.
pub open spec fn rank_between(v: OrderRule, i: int, j: int) -> int {
    let a = v.repos[i];
    let b = v.repos[j];
    let c_hidden = false_first(
        marked(v.hidden, a.path@),
        marked(v.hidden, b.path@),
    );
    let c_pinned = false_first(
        !marked(v.pinned, a.path@),
        !marked(v.pinned, b.path@),
    );
    let c_mode = mode_order(v.sort_mode, a, b);
    let c_name = name_order(a.name@, b.name@);
    if c_hidden != 0 {
        c_hidden
    } else if c_pinned != 0 {
        c_pinned
    } else if c_mode != 0 {
        c_mode
    } else if c_name != 0 {
        c_name
    } else if i < j {
        -1
    } else if i == j {
        0
    } else {
        1
    }
}

/// Repository `i` comes before repository `j`.
pub open spec fn before(v: OrderRule, i: int, j: int) -> bool {
    rank_between(v, i, j) < 0
}

/// `r` is the order `v` asks for: every shown repository exactly once,
/// nothing else, each before the ones that follow it.
pub open spec fn is_display_order(v: OrderRule, r: Seq<usize>) -> bool {
    &&& forall|x: usize| #[trigger] r.contains(x) <==> (x < v.repos.len() && shown(v, x as int))
    &&& forall|a: int, b: int|
        0 <= a < b < r.len() ==> before(v, #[trigger] r[a] as int, #[trigger] r[b] as int)
}

/// `before` is a strict total order on the repositories.
pub proof fn lemma_before_order(v: OrderRule, i: int, j: int, k: int)
    ensures
        rank_between(v, i, j) == -rank_between(v, j, i),
        rank_between(v, i, j) == 0 <==> i == j,
        before(v, i, j) && before(v, j, k) ==> before(v, i, k),
{
    let a = v.repos[i];
    let b = v.repos[j];
    let c = v.repos[k];
    lemma_name_order(a.name@, b.name@, c.name@);
    lemma_name_order(b.name@, a.name@, c.name@);
    lemma_name_order(a.name@, c.name@, b.name@);
    lemma_name_order(b.name@, c.name@, a.name@);
    lemma_name_order(c.name@, a.name@, b.name@);
    lemma_name_order(c.name@, b.name@, a.name@);
}

/// `x`'s last commit is strictly later than `y`'s, or `y` has none.
pub open spec fn newer_commit(x: RepoStatus, y: RepoStatus) -> bool {
    &&& x.last_commit is Some
    &&& (y.last_commit is None || y.last_commit.unwrap().time < x.last_commit.unwrap().time)
}

/// In `ByRecency` mode the newest commit comes first: of two repositories
/// on screen alike in being hidden and in being pinned, the one with the
/// later last commit (or the only one with a commit) is listed first.
pub proof fn lemma_recency_newest_first(v: OrderRule, r: Seq<usize>, a: int, b: int)
    requires
        v.sort_mode == SortMode::ByRecency,
        is_display_order(v, r),
        0 <= a < r.len(),
        0 <= b < r.len(),
        marked(v.hidden, v.repos[r[a] as int].path@) == marked(v.hidden, v.repos[r[b] as int].path@),
        marked(v.pinned, v.repos[r[a] as int].path@) == marked(v.pinned, v.repos[r[b] as int].path@),
        newer_commit(v.repos[r[b] as int], v.repos[r[a] as int]),
    ensures
        b < a,
{
    if a < b {
        assert(before(v, r[a] as int, r[b] as int));
        let x = v.repos[r[a] as int];
        let y = v.repos[r[b] as int];
        assert(commit_time(x) != commit_time(y));
        assert(!opt_lt(commit_time(y), commit_time(x)));
        assert(mode_order(v.sort_mode, x, y) == 1);
        assert(false);
    } else if a == b {
        assert(false);
    }
}

/// Only one sequence is the order `v` asks for.
pub proof fn lemma_display_order_unique(v: OrderRule, r1: Seq<usize>, r2: Seq<usize>)
    requires
        is_display_order(v, r1),
        is_display_order(v, r2),
    ensures
        r1 == r2,
{
    assert forall|x: usize| #[trigger] r1.contains(x) <==> r2.contains(x) by {}
    lemma_same_members_sorted(v, r1, r2);
}

/// A sorted order holds no index twice.
pub proof fn lemma_sorted_distinct(v: OrderRule, r: Seq<usize>)
    requires
        forall|a: int, b: int|
            0 <= a < b < r.len() ==> before(v, #[trigger] r[a] as int, #[trigger] r[b] as int),
    ensures
        forall|a: int, b: int| 0 <= a < b < r.len() ==> r[a] != r[b],
{
    assert forall|a: int, b: int| 0 <= a < b < r.len() implies r[a] != r[b] by {
        assert(before(v, r[a] as int, r[b] as int));
        lemma_before_order(v, r[a] as int, r[b] as int, r[a] as int);
    }
}

/// Two sorted sequences with the same members are the same sequence.
proof fn lemma_same_members_sorted(v: OrderRule, r1: Seq<usize>, r2: Seq<usize>)
    requires
        forall|a: int, b: int|
            0 <= a < b < r1.len() ==> before(v, #[trigger] r1[a] as int, #[trigger] r1[b] as int),
        forall|a: int, b: int|
            0 <= a < b < r2.len() ==> before(v, #[trigger] r2[a] as int, #[trigger] r2[b] as int),
        forall|x: usize| #[trigger] r1.contains(x) <==> r2.contains(x),
    ensures
        r1 == r2,
    decreases r1.len() + r2.len(),
{
    if r1.len() > 0 && r2.len() > 0 {
        let x1 = r1[0];
        let x2 = r2[0];
        assert(r1.contains(x1));
        assert(r2.contains(x2));
        assert(r1.contains(x2));
        assert(r2.contains(x1));
        if x1 != x2 {
            let p2 = choose|p: int| 0 <= p < r1.len() && r1[p] == x2;
            let p1 = choose|p: int| 0 <= p < r2.len() && r2[p] == x1;
            assert(before(v, r1[0] as int, r1[p2] as int));
            assert(before(v, r2[0] as int, r2[p1] as int));
            lemma_before_order(v, x1 as int, x2 as int, x1 as int);
        }
        assert(x1 == x2);
        lemma_sorted_distinct(v, r1);
        lemma_sorted_distinct(v, r2);
        let t1 = r1.drop_first();
        let t2 = r2.drop_first();
        assert forall|x: usize| #[trigger] t1.contains(x) <==> t2.contains(x) by {
            if t1.contains(x) {
                let p = choose|p: int| 0 <= p < t1.len() && t1[p] == x;
                assert(r1[p + 1] == x);
                assert(r1[0] != r1[p + 1]);
                assert(r1.contains(x));
                assert(r2.contains(x));
                let q = choose|q: int| 0 <= q < r2.len() && r2[q] == x;
                assert(q != 0);
                assert(t2[q - 1] == x);
            }
            if t2.contains(x) {
                let p = choose|p: int| 0 <= p < t2.len() && t2[p] == x;
                assert(r2[p + 1] == x);
                assert(r2[0] != r2[p + 1]);
                assert(r2.contains(x));
                assert(r1.contains(x));
                let q = choose|q: int| 0 <= q < r1.len() && r1[q] == x;
                assert(q != 0);
                assert(t1[q - 1] == x);
            }
        }
        assert forall|a: int, b: int|
            0 <= a < b < t1.len() implies before(v, #[trigger] t1[a] as int, #[trigger] t1[b] as int) by {
            assert(t1[a] == r1[a + 1] && t1[b] == r1[b + 1]);
        }
        assert forall|a: int, b: int|
            0 <= a < b < t2.len() implies before(v, #[trigger] t2[a] as int, #[trigger] t2[b] as int) by {
            assert(t2[a] == r2[a + 1] && t2[b] == r2[b + 1]);
        }
        lemma_same_members_sorted(v, t1, t2);
        assert(t1 == t2);
        assert(r1 =~= seq![x1] + t1);
        assert(r2 =~= seq![x2] + t2);
        assert(r1 == r2);
    } else if r1.len() > 0 {
        assert(r1.contains(r1[0]));
        assert(r2.contains(r1[0]));
    } else if r2.len() > 0 {
        assert(r2.contains(r2[0]));
        assert(r1.contains(r2[0]));
    } else {
        assert(r1 =~= r2);
    }
}

// ── laws of the order ────────────────────────────────────────────────

/// Hidden repositories come after the rest, and of two that are alike in
/// that, a pinned one comes before one that is not.
pub proof fn lemma_hidden_last_pinned_first(v: OrderRule, r: Seq<usize>, a: int, b: int)
    requires
        is_display_order(v, r),
        0 <= a < b < r.len(),
    ensures
        marked(v.hidden, v.repos[r[a] as int].path@) ==> marked(
            v.hidden,
            v.repos[r[b] as int].path@,
        ),
        marked(v.hidden, v.repos[r[a] as int].path@) == marked(
            v.hidden,
            v.repos[r[b] as int].path@,
        ) ==> (marked(v.pinned, v.repos[r[b] as int].path@) ==> marked(
            v.pinned,
            v.repos[r[a] as int].path@,
        )),
{
    assert(before(v, r[a] as int, r[b] as int));
}

/// The sort modes other than `ByRecency` order repositories the same way:
/// CI redness reorders sections, not repositories.
pub proof fn lemma_state_modes_agree(v1: OrderRule, v2: OrderRule, r: Seq<usize>)
    requires
        v1.repos == v2.repos,
        v1.filter_query == v2.filter_query,
        v1.show_hidden == v2.show_hidden,
        v1.hidden == v2.hidden,
        v1.pinned == v2.pinned,
        v1.bases == v2.bases,
        v1.base_filter == v2.base_filter,
        v1.sort_mode != SortMode::ByRecency,
        v2.sort_mode != SortMode::ByRecency,
    ensures
        is_display_order(v1, r) <==> is_display_order(v2, r),
{
    assert forall|i: int, j: int| rank_between(v1, i, j) == rank_between(v2, i, j) by {}
    assert forall|i: int| shown(v1, i) == shown(v2, i) by {}
}

// ── computing the order ──────────────────────────────────────────────

/// Whether `p` is one of the paths of `set`, compared by components.
pub fn contains_path(set: &[String], p: &str) -> (r: bool)
    ensures
        r == marked(strs(set@), p@),
{
    let mut k: usize = 0;
    while k < set.len()
        invariant
            k <= set@.len(),
            forall|m: int| 0 <= m < k ==> !same_path(#[trigger] strs(set@)[m], p@),
        decreases set.len() - k,
    {
        if path_eq(set[k].as_str(), p) {
            assert(same_path(strs(set@)[k as int], p@));
            return true;
        }
        k = k + 1;
    }
    proof {
        if marked(strs(set@), p@) {
            let m = choose|m: int| 0 <= m < strs(set@).len() && #[trigger] same_path(strs(set@)[m], p@);
            assert(!same_path(strs(set@)[m], p@));
        }
    }
    false
}

/// What the ordering reads of one repository, worked out once.
struct Facts {
    hidden: bool,
    pinned: bool,
    time: Option<u64>,
    priority: u8,
    name: Vec<char>,
}

spec fn facts_of(v: OrderRule, i: int, f: Facts) -> bool {
    let r = v.repos[i];
    &&& f.hidden == marked(v.hidden, r.path@)
    &&& f.pinned == marked(v.pinned, r.path@)
    &&& f.time == commit_time(r)
    &&& f.priority == priority_of(r)
    &&& f.name@ == r.name@
}

fn false_first_exec(x: bool, y: bool) -> (r: i8)
    ensures
        r as int == false_first(x, y),
{
    if x == y {
        0
    } else if !x {
        -1
    } else {
        1
    }
}

/// Where repository `i` stands against repository `j`.
fn rank_exec(v: &OrderView, facts: &Vec<Facts>, i: usize, j: usize) -> (r: i8)
    requires
        facts@.len() == v.repos.len(),
        forall|k: int| 0 <= k < facts@.len() ==> facts_of(v@, k, #[trigger] facts@[k]),
        i < v.repos.len(),
        j < v.repos.len(),
    ensures
        r as int == rank_between(v@, i as int, j as int),
{
    let fi = &facts[i];
    let fj = &facts[j];
    assert(facts_of(v@, i as int, *fi));
    assert(facts_of(v@, j as int, *fj));
    let c_hidden = false_first_exec(fi.hidden, fj.hidden);
    if c_hidden != 0 {
        return c_hidden;
    }
    let c_pinned = false_first_exec(!fi.pinned, !fj.pinned);
    if c_pinned != 0 {
        return c_pinned;
    }
    let c_mode: i8 = match v.sort_mode {
        SortMode::ByRecency => {
            if fi.time == fj.time {
                0
            } else {
                let later = match (fj.time, fi.time) {
                    (None, Some(_)) => true,
                    (Some(b), Some(a)) => b < a,
                    _ => false,
                };
                if later {
                    -1
                } else {
                    1
                }
            }
        },
        _ => {
            if fi.priority == fj.priority {
                0
            } else if fi.priority < fj.priority {
                -1
            } else {
                1
            }
        },
    };
    if c_mode != 0 {
        return c_mode;
    }
    let c_name = compare_names(&fi.name, &fj.name);
    if c_name != 0 {
        return c_name;
    }
    if i < j {
        -1
    } else if i == j {
        0
    } else {
        1
    }
}

/// The order `v` asks for, as indices into `v.repos`: the shown
/// repositories, hidden last, pinned first, then by the sort mode's
/// comparison, then by name, ties in the order given.
pub fn display_order(v: &OrderView) -> (r: Vec<usize>)
    ensures
        is_display_order(v@, r@),
{
    let n = v.repos.len();
    let trimmed = trim_str(v.filter_query);
    let q = to_lowercase(&trimmed);
    let mut facts: Vec<Facts> = Vec::new();
    let mut i: usize = 0;
    while i < n
        invariant
            n == v.repos.len(),
            i <= n,
            facts@.len() == i,
            forall|k: int| 0 <= k < i ==> facts_of(v@, k, #[trigger] facts@[k]),
        decreases n - i,
    {
        let r = &v.repos[i];
        let hidden = contains_path(v.hidden, r.path.as_str());
        let pinned = contains_path(v.pinned, r.path.as_str());
        let time = match &r.last_commit {
            Some(c) => Some(c.time),
            None => None,
        };
        let priority = state_priority(r);
        let name = chars_of(r.name.as_str());
        facts.push(Facts { hidden, pinned, time, priority, name });
        proof {
            assert(facts_of(v@, i as int, facts@[i as int]));
        }
        i = i + 1;
    }
    let mut out: Vec<usize> = Vec::new();
    let mut i: usize = 0;
    while i < n
        invariant
            n == v.repos.len(),
            i <= n,
            facts@.len() == n,
            forall|k: int| 0 <= k < n ==> facts_of(v@, k, #[trigger] facts@[k]),
            q@ == query_of(v@),
            trimmed@ == trim(v@.filter_query),
            forall|x: usize| #[trigger] out@.contains(x) <==> (x < i && shown(v@, x as int)),
            forall|a: int, b: int|
                0 <= a < b < out@.len() ==> before(
                    v@,
                    #[trigger] out@[a] as int,
                    #[trigger] out@[b] as int,
                ),
        decreases n - i,
    {
        let r = &v.repos[i];
        assert(facts_of(v@, i as int, facts@[i as int]));
        let visible = v.show_hidden || !facts[i].hidden;
        let matched = if trimmed.len() == 0 {
            true
        } else {
            let lowered = to_lowercase(&facts[i].name);
            contains_chars(&lowered, &q)
        };
        let inside = match v.base_filter {
            Some(bi) => {
                if bi < v.bases.len() {
                    path_starts_with(r.path.as_str(), v.bases[bi].as_str())
                } else {
                    true
                }
            },
            None => true,
        };
        if visible && matched && inside {
            assert(shown(v@, i as int));
            assert forall|k: int| 0 <= k < out@.len() implies (#[trigger] out@[k]) < i by {
                assert(out@.contains(out@[k]));
            }
            let mut p: usize = 0;
            while p < out.len() && rank_exec(v, &facts, i, out[p]) > 0
                invariant
                    n == v.repos.len(),
                    i < n,
                    facts@.len() == n,
                    forall|k: int| 0 <= k < n ==> facts_of(v@, k, #[trigger] facts@[k]),
                    forall|x: usize| #[trigger] out@.contains(x) <==> (x < i && shown(v@, x as int)),
                    p <= out@.len(),
                    forall|k: int| 0 <= k < out@.len() ==> (#[trigger] out@[k]) < i,
                    forall|k: int| 0 <= k < p ==> before(v@, #[trigger] out@[k] as int, i as int),
                decreases out.len() - p,
            {
                assert(out@.contains(out@[p as int]));
                proof {
                    lemma_before_order(v@, i as int, out@[p as int] as int, i as int);
                }
                p = p + 1;
            }
            proof {
                if p < out@.len() {
                    assert(out@.contains(out@[p as int]));
                    lemma_before_order(v@, i as int, out@[p as int] as int, i as int);
                }
            }
            let ghost old_out = out@;
            out.insert(p, i);
            proof {
                assert(out@ =~= old_out.insert(p as int, i));
                assert forall|a: int, b: int|
                    0 <= a < b < out@.len() implies before(
                    v@,
                    #[trigger] out@[a] as int,
                    #[trigger] out@[b] as int,
                ) by {
                    if b < p {
                        assert(out@[a] == old_out[a] && out@[b] == old_out[b]);
                    } else if b == p {
                        assert(out@[a] == old_out[a]);
                    } else if a < p {
                        assert(out@[a] == old_out[a] && out@[b] == old_out[b - 1]);
                    } else if a == p {
                        assert(out@[b] == old_out[b - 1]);
                        if b - 1 > p {
                            lemma_before_order(
                                v@,
                                i as int,
                                old_out[p as int] as int,
                                old_out[b - 1] as int,
                            );
                        }
                    } else {
                        assert(out@[a] == old_out[a - 1] && out@[b] == old_out[b - 1]);
                    }
                }
                assert forall|x: usize| #[trigger] out@.contains(x) <==> (x < i + 1 && shown(
                    v@,
                    x as int,
                )) by {
                    if out@.contains(x) {
                        let k = choose|k: int| 0 <= k < out@.len() && out@[k] == x;
                        if k < p {
                            assert(old_out[k] == x);
                            assert(old_out.contains(x));
                        } else if k > p {
                            assert(old_out[k - 1] == x);
                            assert(old_out.contains(x));
                        }
                    }
                    if x < i + 1 && shown(v@, x as int) {
                        if x == i {
                            assert(out@[p as int] == x);
                        } else {
                            assert(old_out.contains(x));
                            let k = choose|k: int| 0 <= k < old_out.len() && old_out[k] == x;
                            if k < p {
                                assert(out@[k] == x);
                            } else {
                                assert(out@[k + 1] == x);
                            }
                        }
                    }
                }
            }
        } else {
            proof {
                assert(!shown(v@, i as int));
                assert forall|x: usize| #[trigger] out@.contains(x) <==> (x < i + 1 && shown(
                    v@,
                    x as int,
                )) by {}
            }
        }
        i = i + 1;
    }
    out
}

} // verus!
