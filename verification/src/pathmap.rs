//! Maps and sets keyed by paths. Two paths are the same key when they
//! have the same components, as they are for a `HashMap<PathBuf, _>` or
//! a `HashSet<PathBuf>`.

use vstd::prelude::*;
use crate::order::{contains_path, marked};
use crate::paths::{path_eq, same_path};
use crate::text::strs;

verus! {

/// The value kept under the first key of `entries` that is the same
/// path as `p`.
pub open spec fn lookup<V>(entries: Seq<(String, V)>, p: Seq<char>) -> Option<V>
    decreases entries.len(),
{
    if entries.len() == 0 {
        None
    } else {
        match lookup(entries.drop_last(), p) {
            Some(x) => Some(x),
            None => if same_path(entries.last().0@, p) {
                Some(entries.last().1)
            } else {
                None
            },
        }
    }
}

/// `entries` without those whose key is the same path as `p`.
pub open spec fn drop_same<V>(entries: Seq<(String, V)>, p: Seq<char>) -> Seq<(String, V)>
    decreases entries.len(),
{
    if entries.len() == 0 {
        Seq::empty()
    } else {
        let d = drop_same(entries.drop_last(), p);
        if same_path(entries.last().0@, p) {
            d
        } else {
            d.push(entries.last())
        }
    }
}

proof fn lemma_lookup_drop_same<V>(entries: Seq<(String, V)>, p: Seq<char>, q: Seq<char>)
    ensures
        lookup(drop_same(entries, p), q) == if same_path(q, p) {
            None
        } else {
            lookup(entries, q)
        },
    decreases entries.len(),
{
    if entries.len() > 0 {
        let d = drop_same(entries.drop_last(), p);
        lemma_lookup_drop_same(entries.drop_last(), p, q);
        if !same_path(entries.last().0@, p) {
            assert(d.push(entries.last()).drop_last() =~= d);
        }
    }
}

proof fn lemma_lookup_none<V>(entries: Seq<(String, V)>, p: Seq<char>)
    requires
        forall|k: int| 0 <= k < entries.len() ==> !same_path(#[trigger] entries[k].0@, p),
    ensures
        lookup(entries, p) is None,
    decreases entries.len(),
{
    if entries.len() > 0 {
        assert forall|k: int| 0 <= k < entries.drop_last().len() implies !same_path(
            #[trigger] entries.drop_last()[k].0@,
            p,
        ) by {
            assert(entries.drop_last()[k] == entries[k]);
        }
        lemma_lookup_none(entries.drop_last(), p);
        assert(!same_path(entries[entries.len() - 1].0@, p));
    }
}

proof fn lemma_lookup_first<V>(entries: Seq<(String, V)>, p: Seq<char>, k: int)
    requires
        0 <= k < entries.len(),
        same_path(entries[k].0@, p),
        forall|m: int| 0 <= m < k ==> !same_path(#[trigger] entries[m].0@, p),
    ensures
        lookup(entries, p) == Some(entries[k].1),
    decreases entries.len(),
{
    let init = entries.drop_last();
    if k < entries.len() - 1 {
        assert(init[k] == entries[k]);
        assert forall|m: int| 0 <= m < k implies !same_path(#[trigger] init[m].0@, p) by {
            assert(init[m] == entries[m]);
        }
        lemma_lookup_first(init, p, k);
    } else {
        assert forall|m: int| 0 <= m < init.len() implies !same_path(#[trigger] init[m].0@, p) by {
            assert(init[m] == entries[m]);
        }
        lemma_lookup_none(init, p);
    }
}

/// The index of the first key that is the same path as `p`.
fn position<V>(entries: &Vec<(String, V)>, p: &str) -> (r: Option<usize>)
    ensures
        r matches Some(k) ==> k < entries@.len() && same_path(entries@[k as int].0@, p@) && forall|
            m: int,
        |
            0 <= m < k ==> !same_path(#[trigger] entries@[m].0@, p@),
        r is None ==> forall|m: int|
            0 <= m < entries@.len() ==> !same_path(#[trigger] entries@[m].0@, p@),
{
    let mut k: usize = 0;
    while k < entries.len()
        invariant
            k <= entries@.len(),
            forall|m: int| 0 <= m < k ==> !same_path(#[trigger] entries@[m].0@, p@),
        decreases entries.len() - k,
    {
        if path_eq(entries[k].0.as_str(), p) {
            return Some(k);
        }
        k = k + 1;
    }
    None
}

/// A map from paths to values.
pub struct PathMap<V> {
    pub entries: Vec<(String, V)>,
}

impl<V> PathMap<V> {
    /// An empty map.
    pub fn new() -> (m: Self)
        ensures
            forall|q: Seq<char>| #[trigger] lookup(m.entries@, q) is None,
    {
        let m = PathMap { entries: Vec::new() };
        assert forall|q: Seq<char>| #[trigger] lookup(m.entries@, q) is None by {}
        m
    }

    /// The value kept for `p`.
    pub fn get(&self, p: &str) -> (r: Option<&V>)
        ensures
            r matches Some(v) ==> lookup(self.entries@, p@) == Some(*v),
            r is None ==> lookup(self.entries@, p@) is None,
    {
        match position(&self.entries, p) {
            Some(k) => {
                proof {
                    lemma_lookup_first(self.entries@, p@, k as int);
                }
                Some(&self.entries[k].1)
            },
            None => {
                proof {
                    lemma_lookup_none(self.entries@, p@);
                }
                None
            },
        }
    }

    /// Forget what was kept for `p`.
    pub fn remove(&mut self, p: &str)
        ensures
            forall|q: Seq<char>|
                #[trigger] lookup(final(self).entries@, q) == if same_path(q, p@) {
                    None
                } else {
                    lookup(old(self).entries@, q)
                },
    {
        let ghost olde = self.entries@;
        let mut all: Vec<(String, V)> = Vec::new();
        std::mem::swap(&mut all, &mut self.entries);
        let mut kept: Vec<(String, V)> = Vec::new();
        let ghost mut done: Seq<(String, V)> = Seq::empty();
        let mut rest = all;
        assert(olde =~= done + rest@);
        while rest.len() > 0
            invariant
                olde == done + rest@,
                kept@ == drop_same(done, p@),
            decreases rest.len(),
        {
            let ghost before = rest@;
            let e = rest.remove(0);
            assert(before =~= seq![e] + rest@);
            let ghost next = done.push(e);
            assert(next.drop_last() =~= done);
            if !path_eq(e.0.as_str(), p) {
                kept.push(e);
            }
            proof {
                done = next;
            }
            assert(olde =~= done + rest@);
        }
        assert(rest@ =~= Seq::<(String, V)>::empty());
        assert(done =~= olde);
        self.entries = kept;
        assert forall|q: Seq<char>|
            #[trigger] lookup(self.entries@, q) == if same_path(q, p@) {
                None
            } else {
                lookup(olde, q)
            } by {
            lemma_lookup_drop_same(olde, p@, q);
        }
    }

    /// Keep `v` for `p`, in place of anything kept for it.
    pub fn insert(&mut self, p: String, v: V)
        ensures
            forall|q: Seq<char>|
                #[trigger] lookup(final(self).entries@, q) == if same_path(q, p@) {
                    Some(v)
                } else {
                    lookup(old(self).entries@, q)
                },
    {
        let ghost olde = self.entries@;
        self.remove(p.as_str());
        let ghost mid = self.entries@;
        self.entries.push((p, v));
        assert forall|q: Seq<char>|
            #[trigger] lookup(self.entries@, q) == if same_path(q, p@) {
                Some(v)
            } else {
                lookup(olde, q)
            } by {
            assert(self.entries@.drop_last() =~= mid);
            assert(lookup(mid, q) == if same_path(q, p@) {
                None
            } else {
                lookup(olde, q)
            });
        }
    }
}

// ── sets of paths ────────────────────────────────────────────────────

/// Add `p` to a set of paths, unless it is already there.
pub fn mark(set: &mut Vec<String>, p: String)
    ensures
        strs(final(set)@) == if marked(strs(old(set)@), p@) {
            strs(old(set)@)
        } else {
            strs(old(set)@).push(p@)
        },
        forall|q: Seq<char>|
            #[trigger] marked(strs(final(set)@), q) == (marked(strs(old(set)@), q) || same_path(
                q,
                p@,
            )),
{
    let ghost olds = strs(set@);
    if contains_path(set.as_slice(), p.as_str()) {
        assert forall|q: Seq<char>|
            #[trigger] marked(strs(set@), q) == (marked(olds, q) || same_path(q, p@)) by {
            if same_path(q, p@) {
                let k = choose|k: int| 0 <= k < olds.len() && #[trigger] same_path(olds[k], p@);
                assert(same_path(olds[k], q));
            }
        }
    } else {
        let ghost pv = p@;
        set.push(p);
        let ghost news = strs(set@);
        assert(news =~= olds.push(pv));
        assert forall|q: Seq<char>| #[trigger] marked(news, q) == (marked(olds, q) || same_path(q, pv)) by {
            if marked(olds, q) {
                let k = choose|k: int| 0 <= k < olds.len() && #[trigger] same_path(olds[k], q);
                assert(news[k] == olds[k]);
            }
            if same_path(q, pv) {
                assert(same_path(news[olds.len() as int], q));
            }
            if marked(news, q) {
                let k = choose|k: int| 0 <= k < news.len() && #[trigger] same_path(news[k], q);
                if k < olds.len() {
                    assert(olds[k] == news[k]);
                }
            }
        }
    }
}

/// The paths of `s` that are not the same path as `p`.
pub open spec fn drop_same_paths(s: Seq<Seq<char>>, p: Seq<char>) -> Seq<Seq<char>>
    decreases s.len(),
{
    if s.len() == 0 {
        Seq::empty()
    } else {
        let d = drop_same_paths(s.drop_last(), p);
        if same_path(s.last(), p) {
            d
        } else {
            d.push(s.last())
        }
    }
}

pub proof fn lemma_marked_push(s: Seq<Seq<char>>, x: Seq<char>, q: Seq<char>)
    ensures
        marked(s.push(x), q) == (marked(s, q) || same_path(x, q)),
{
    let t = s.push(x);
    if marked(s, q) {
        let k = choose|k: int| 0 <= k < s.len() && #[trigger] same_path(s[k], q);
        assert(t[k] == s[k]);
    }
    if same_path(x, q) {
        assert(same_path(t[s.len() as int], q));
    }
    if marked(t, q) {
        let k = choose|k: int| 0 <= k < t.len() && #[trigger] same_path(t[k], q);
        if k < s.len() {
            assert(t[k] == s[k]);
        }
    }
}

pub proof fn lemma_marked_drop_same(s: Seq<Seq<char>>, p: Seq<char>, q: Seq<char>)
    ensures
        marked(drop_same_paths(s, p), q) == (marked(s, q) && !same_path(q, p)),
    decreases s.len(),
{
    if s.len() == 0 {
        assert(!marked(s, q));
    } else {
        let init = s.drop_last();
        let d = drop_same_paths(init, p);
        lemma_marked_drop_same(init, p, q);
        assert(init.push(s.last()) =~= s);
        lemma_marked_push(init, s.last(), q);
        if !same_path(s.last(), p) {
            lemma_marked_push(d, s.last(), q);
        }
    }
}

/// Taking out a path that is not in the set leaves the set as it was.
pub proof fn lemma_drop_unmarked(s: Seq<Seq<char>>, p: Seq<char>)
    requires
        !marked(s, p),
    ensures
        drop_same_paths(s, p) == s,
    decreases s.len(),
{
    if s.len() > 0 {
        let init = s.drop_last();
        assert(!marked(init, p)) by {
            if marked(init, p) {
                let k = choose|k: int| 0 <= k < init.len() && #[trigger] same_path(init[k], p);
                assert(s[k] == init[k]);
            }
        }
        lemma_drop_unmarked(init, p);
        assert(!same_path(s.last(), p)) by {
            if same_path(s.last(), p) {
                assert(same_path(s[s.len() - 1], p));
            }
        }
        assert(init.push(s.last()) =~= s);
    }
}

/// Take `p` out of a set of paths.
pub fn unmark(set: &mut Vec<String>, p: &str)
    ensures
        strs(final(set)@) == drop_same_paths(strs(old(set)@), p@),
        forall|q: Seq<char>|
            #[trigger] marked(strs(final(set)@), q) == (marked(strs(old(set)@), q) && !same_path(
                q,
                p@,
            )),
{
    let ghost olds = strs(set@);
    let mut kept: Vec<String> = Vec::new();
    let mut i: usize = 0;
    assert(olds.subrange(0, 0) =~= Seq::<Seq<char>>::empty());
    while i < set.len()
        invariant
            olds == strs(set@),
            i <= set@.len(),
            strs(kept@) == drop_same_paths(olds.subrange(0, i as int), p@),
        decreases set.len() - i,
    {
        let ghost pre = olds.subrange(0, i as int);
        let ghost next = olds.subrange(0, i + 1);
        let ghost oldk = strs(kept@);
        assert(next.drop_last() =~= pre);
        assert(next.last() == set@[i as int]@);
        if !path_eq(set[i].as_str(), p) {
            kept.push(set[i].clone());
            assert(strs(kept@) =~= oldk.push(set@[i as int]@));
        }
        i = i + 1;
    }
    assert(olds.subrange(0, set@.len() as int) =~= olds);
    *set = kept;
    assert forall|q: Seq<char>|
        #[trigger] marked(strs(set@), q) == (marked(olds, q) && !same_path(q, p@)) by {
        lemma_marked_drop_same(olds, p@, q);
    }
}

} // verus!
