//! Paths as den compares them: by their components, the way
//! `std::path::Path` does, not by their text.
//!
//! A path is kept as the `String` it was written as. Its components are
//! the root (written `/`) when it starts with a separator, a leading `.`
//! when a relative path starts with one, and then every piece between
//! separators that is neither empty nor `.`. So `/work/` and `/work` have
//! the same components, and `/work-notes` does not lie within `/work`.

use vstd::prelude::*;
use crate::text::{
    append_chars, chars_eq, chars_of, slice_chars, split_chars, split_seq, string_of, views,
};

verus! {

/// Whether a piece between separators is itself a component.
pub open spec fn names_component(g: Seq<char>) -> bool {
    g.len() > 0 && g != seq!['.']
}

/// Whether `s` starts at the root.
pub open spec fn is_absolute(s: Seq<char>) -> bool {
    s.len() > 0 && s[0] == '/'
}

/// The component that the start of `s` contributes before its pieces:
/// the root, a leading `.`, or nothing.
pub open spec fn leading(s: Seq<char>) -> Seq<Seq<char>> {
    if is_absolute(s) {
        seq![seq!['/']]
    } else if split_seq(s, '/')[0] == seq!['.'] {
        seq![seq!['.']]
    } else {
        Seq::empty()
    }
}

/// The pieces of `p` that name components, in order.
pub open spec fn kept_pieces(p: Seq<Seq<char>>) -> Seq<Seq<char>>
    decreases p.len(),
{
    if p.len() == 0 {
        Seq::empty()
    } else {
        let rest = kept_pieces(p.drop_last());
        if names_component(p.last()) {
            rest.push(p.last())
        } else {
            rest
        }
    }
}

/// `Path::components`, each written as text.
pub open spec fn components(s: Seq<char>) -> Seq<Seq<char>> {
    leading(s) + kept_pieces(split_seq(s, '/'))
}

/// `Path::starts_with`: the components of `base` begin the components of `p`.
pub open spec fn within(p: Seq<char>, base: Seq<char>) -> bool {
    components(base).is_prefix_of(components(p))
}

/// `Path`'s `==`: the same components.
pub open spec fn same_path(a: Seq<char>, b: Seq<char>) -> bool {
    components(a) == components(b)
}

/// Whether a component is an ordinary name (not the root, `.` or `..`).
pub open spec fn is_normal(c: Seq<char>) -> bool {
    c != seq!['/'] && c != seq!['.'] && c != seq!['.', '.']
}

/// `Path::file_name`: the last component, when it is an ordinary name.
pub open spec fn file_name(s: Seq<char>) -> Option<Seq<char>> {
    let c = components(s);
    if c.len() > 0 && is_normal(c.last()) {
        Some(c.last())
    } else {
        None
    }
}

/// `Path::join`: an absolute `rel` replaces `base`; otherwise `rel` is
/// appended, with a separator unless `base` is empty or already ends in one.
pub open spec fn path_join(base: Seq<char>, rel: Seq<char>) -> Seq<char> {
    if is_absolute(rel) {
        rel
    } else if base.len() == 0 || base.last() == '/' {
        base + rel
    } else {
        base + seq!['/'] + rel
    }
}

pub proof fn lemma_within_refl(p: Seq<char>)
    ensures
        within(p, p),
{
    assert(components(p).subrange(0, components(p).len() as int) =~= components(p));
}

pub proof fn lemma_within_trans(a: Seq<char>, b: Seq<char>, c: Seq<char>)
    requires
        within(a, b),
        within(b, c),
    ensures
        within(a, c),
{
    let ca = components(a);
    let cb = components(b);
    let cc = components(c);
    assert forall|k: int| 0 <= k < cc.len() implies cc[k] == ca[k] by {
        assert(cc[k] == cb.subrange(0, cc.len() as int)[k]);
        assert(cb[k] == ca.subrange(0, cb.len() as int)[k]);
    }
    assert(cc =~= ca.subrange(0, cc.len() as int));
}

pub proof fn lemma_within_both_same(a: Seq<char>, b: Seq<char>)
    requires
        within(a, b),
        within(b, a),
    ensures
        same_path(a, b),
{
    assert(components(a) =~= components(b));
}

pub fn is_normal_chars(c: &[char]) -> (r: bool)
    ensures
        r == is_normal(c@),
{
    let root = c.len() == 1 && c[0] == '/';
    let dot = c.len() == 1 && c[0] == '.';
    let dotdot = c.len() == 2 && c[0] == '.' && c[1] == '.';
    proof {
        if c@.len() == 1 {
            assert(root ==> c@ =~= seq!['/']);
            assert(dot ==> c@ =~= seq!['.']);
        }
        if c@.len() == 2 {
            assert(dotdot ==> c@ =~= seq!['.', '.']);
        }
    }
    !root && !dot && !dotdot
}

fn names_component_chars(g: &[char]) -> (r: bool)
    ensures
        r == names_component(g@),
{
    let dot = g.len() == 1 && g[0] == '.';
    proof {
        if g@.len() == 1 && dot {
            assert(g@ =~= seq!['.']);
        }
    }
    g.len() > 0 && !dot
}

/// The components of a path given as characters.
pub fn components_of(s: &[char]) -> (r: Vec<Vec<char>>)
    ensures
        views(r@) == components(s@),
{
    let pieces = split_chars(s, '/');
    let mut out: Vec<Vec<char>> = Vec::new();
    assert(views(pieces@)[0] == pieces@[0]@);
    if s.len() > 0 && s[0] == '/' {
        let mut root: Vec<char> = Vec::new();
        root.push('/');
        out.push(root);
        assert(views(out@) =~= leading(s@));
    } else if pieces[0].len() == 1 && pieces[0][0] == '.' {
        let mut dot: Vec<char> = Vec::new();
        dot.push('.');
        out.push(dot);
        assert(pieces@[0]@ =~= seq!['.']);
        assert(views(out@) =~= leading(s@));
    } else {
        assert(pieces@[0]@ != seq!['.']) by {
            if pieces@[0]@ == seq!['.'] {
                assert(pieces@[0]@.len() == 1);
            }
        }
        assert(views(out@) =~= leading(s@));
    }
    let ghost lead = views(out@);
    let ghost p = split_seq(s@, '/');
    let mut i: usize = 0;
    assert(p.subrange(0, 0) =~= Seq::<Seq<char>>::empty());
    while i < pieces.len()
        invariant
            views(pieces@) == p,
            i <= pieces@.len(),
            views(out@) == lead + kept_pieces(p.subrange(0, i as int)),
        decreases pieces.len() - i,
    {
        let ghost pre = p.subrange(0, i as int);
        let ghost next = p.subrange(0, i + 1);
        assert(next.drop_last() =~= pre);
        assert(next.last() == pieces@[i as int]@);
        let ghost before = views(out@);
        if names_component_chars(&pieces[i]) {
            let piece = slice_chars(&pieces[i], 0, pieces[i].len());
            assert(piece@ =~= pieces@[i as int]@);
            out.push(piece);
            assert(views(out@) =~= before.push(pieces@[i as int]@));
            assert(views(out@) =~= lead + kept_pieces(next));
        } else {
            assert(views(out@) =~= lead + kept_pieces(next));
        }
        i = i + 1;
    }
    assert(p.subrange(0, pieces@.len() as int) =~= p);
    out
}

/// The components of a path.
pub fn path_components(s: &str) -> (r: Vec<Vec<char>>)
    ensures
        views(r@) == components(s@),
{
    let cs = chars_of(s);
    components_of(&cs)
}

/// Whether the component list `b` begins the component list `a`.
pub fn comps_start_with(a: &[Vec<char>], b: &[Vec<char>]) -> (r: bool)
    ensures
        r == views(b@).is_prefix_of(views(a@)),
{
    if b.len() > a.len() {
        return false;
    }
    let mut i: usize = 0;
    while i < b.len()
        invariant
            b@.len() <= a@.len(),
            i <= b@.len(),
            forall|k: int| 0 <= k < i ==> views(b@)[k] == views(a@)[k],
        decreases b.len() - i,
    {
        if !chars_eq(&a[i], &b[i]) {
            assert(views(a@).subrange(0, views(b@).len() as int)[i as int] != views(b@)[i as int]);
            return false;
        }
        i = i + 1;
    }
    assert(views(b@) =~= views(a@).subrange(0, views(b@).len() as int));
    true
}

/// Whether two component lists are the same.
pub fn comps_equal(a: &[Vec<char>], b: &[Vec<char>]) -> (r: bool)
    ensures
        r == (views(a@) == views(b@)),
{
    if a.len() != b.len() {
        assert(views(a@).len() != views(b@).len());
        return false;
    }
    let r = comps_start_with(a, b);
    proof {
        if r {
            assert(views(a@) =~= views(b@));
        } else {
            if views(a@) == views(b@) {
                assert(views(a@).subrange(0, views(a@).len() as int) =~= views(a@));
            }
        }
    }
    r
}

/// `Path::starts_with`.
pub fn path_starts_with(p: &str, base: &str) -> (r: bool)
    ensures
        r == within(p@, base@),
{
    let cp = path_components(p);
    let cb = path_components(base);
    comps_start_with(&cp, &cb)
}

/// `Path`'s `==`.
pub fn path_eq(a: &str, b: &str) -> (r: bool)
    ensures
        r == same_path(a@, b@),
{
    let ca = path_components(a);
    let cb = path_components(b);
    comps_equal(&ca, &cb)
}

/// `Path::file_name`, as characters.
pub fn file_name_of(s: &str) -> (r: Option<Vec<char>>)
    ensures
        r matches Some(n) ==> file_name(s@) == Some(n@),
        r is None ==> file_name(s@) is None,
{
    let c = path_components(s);
    if c.len() > 0 && is_normal_chars(&c[c.len() - 1]) {
        let last = slice_chars(&c[c.len() - 1], 0, c[c.len() - 1].len());
        assert(last@ =~= components(s@).last());
        Some(last)
    } else {
        None
    }
}

/// `Path::join`.
pub fn join_path(base: &str, rel: &str) -> (r: String)
    ensures
        r@ == path_join(base@, rel@),
{
    let b = chars_of(base);
    let r = chars_of(rel);
    if r.len() > 0 && r[0] == '/' {
        return string_of(&r);
    }
    let mut out = slice_chars(&b, 0, b.len());
    assert(out@ =~= b@);
    if b.len() > 0 && b[b.len() - 1] != '/' {
        out.push('/');
    }
    append_chars(&mut out, &r);
    proof {
        if b@.len() > 0 && b@.last() != '/' {
            assert(out@ =~= b@ + seq!['/'] + r@);
        }
    }
    string_of(&out)
}

} // verus!
