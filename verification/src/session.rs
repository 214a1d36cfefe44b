//! Where den keeps what it remembers, and how a session is named.
//!
//! Everything lives under `~/.den`. A session is the set of folders the
//! terminal was opened with; it gets a directory of its own under
//! `~/.den/sessions`, named by a slug of those folders.

use std::hash::{Hash, Hasher};
use vstd::prelude::*;
use crate::paths::{join_path, path_join};
use crate::order::{compare_names, lemma_str_lt_total, lemma_str_lt_trans, str_lt};
use crate::paths::{components, file_name, file_name_of, same_path};
use crate::text::{
    append_chars, chars_eq, chars_of, join, join_chars, lines, lines_of, slice_chars, split_once,
    split_once_chars, str_eq, string_of, strs, trim, trim_chars, views,
};

verus! {

/// `~/.den`, for the home directory `home`.
pub open spec fn den_dir_of(home: Seq<char>) -> Seq<char> {
    path_join(home, ".den"@)
}

/// `~/.config/den`, where older versions kept pins and hidden repositories.
pub open spec fn legacy_dir_of(home: Seq<char>) -> Seq<char> {
    path_join(home, ".config/den"@)
}

/// `~/.den/sessions`.
pub open spec fn sessions_dir_of(home: Seq<char>) -> Seq<char> {
    path_join(den_dir_of(home), "sessions"@)
}

/// `~/.den/sessions/<id>`.
pub open spec fn session_dir_of(home: Seq<char>, id: Seq<char>) -> Seq<char> {
    path_join(sessions_dir_of(home), id)
}

pub fn den_dir(home: &str) -> (r: String)
    ensures
        r@ == den_dir_of(home@),
{
    join_path(home, ".den")
}

pub fn legacy_dir(home: &str) -> (r: String)
    ensures
        r@ == legacy_dir_of(home@),
{
    join_path(home, ".config/den")
}

pub fn sessions_dir(home: &str) -> (r: String)
    ensures
        r@ == sessions_dir_of(home@),
{
    let d = den_dir(home);
    join_path(d.as_str(), "sessions")
}

pub fn session_dir(home: &str, id: &str) -> (r: String)
    ensures
        r@ == session_dir_of(home@, id@),
{
    let d = sessions_dir(home);
    join_path(d.as_str(), id)
}

/// `~/.den/sessions/<id>/settings.toml`.
pub fn settings_path(home: &str, session_id: &str) -> (r: String)
    ensures
        r@ == path_join(session_dir_of(home@, session_id@), "settings.toml"@),
{
    let d = session_dir(home, session_id);
    join_path(d.as_str(), "settings.toml")
}

// ── naming a session ─────────────────────────────────────────────────

/// An ASCII letter or digit.
pub open spec fn is_ascii_alnum(c: char) -> bool {
    let u = c as u32;
    (48 <= u <= 57) || (65 <= u <= 90) || (97 <= u <= 122)
}

/// What a character becomes in a session name: ASCII letters and
/// digits lowercased, `-` and `_` kept, anything else a `-`.
pub open spec fn slug_char(c: char) -> char {
    let u = c as u32;
    if 65 <= u <= 90 {
        ((u + 32) as u32) as char
    } else if is_ascii_alnum(c) || c == '-' || c == '_' {
        c
    } else {
        '-'
    }
}

/// `s` without leading `-`.
pub open spec fn trim_dash_start(s: Seq<char>) -> Seq<char>
    decreases s.len(),
{
    if s.len() > 0 && s[0] == '-' {
        trim_dash_start(s.drop_first())
    } else {
        s
    }
}

/// `s` without trailing `-`.
pub open spec fn trim_dash_end(s: Seq<char>) -> Seq<char>
    decreases s.len(),
{
    if s.len() > 0 && s.last() == '-' {
        trim_dash_end(s.drop_last())
    } else {
        s
    }
}

/// A name made safe for a directory: every character through
/// `slug_char`, then without leading or trailing `-`.
pub open spec fn sanitized(s: Seq<char>) -> Seq<char> {
    trim_dash_end(trim_dash_start(Seq::new(s.len(), |i: int| slug_char(s[i]))))
}

fn slug_char_exec(c: char) -> (r: char)
    ensures
        r == slug_char(c),
{
    let u = c as u32;
    if 65 <= u && u <= 90 {
        assert(u + 32 <= 122);
        let l: u32 = u + 32;
        let lc = if l == 97 { 'a' } else if l == 98 { 'b' } else if l == 99 { 'c' } else if l == 100 { 'd' } else if l == 101 { 'e' } else if l == 102 { 'f' } else if l == 103 { 'g' } else if l == 104 { 'h' } else if l == 105 { 'i' } else if l == 106 { 'j' } else if l == 107 { 'k' } else if l == 108 { 'l' } else if l == 109 { 'm' } else if l == 110 { 'n' } else if l == 111 { 'o' } else if l == 112 { 'p' } else if l == 113 { 'q' } else if l == 114 { 'r' } else if l == 115 { 's' } else if l == 116 { 't' } else if l == 117 { 'u' } else if l == 118 { 'v' } else if l == 119 { 'w' } else if l == 120 { 'x' } else if l == 121 { 'y' } else { 'z' };
        lc
    } else if (48 <= u && u <= 57) || (97 <= u && u <= 122) || c == '-' || c == '_' {
        c
    } else {
        '-'
    }
}

/// A name made safe for a directory.
pub fn sanitize(s: &str) -> (r: String)
    ensures
        r@ == sanitized(s@),
{
    let cs = chars_of(s);
    let mut mapped: Vec<char> = Vec::new();
    let mut i: usize = 0;
    while i < cs.len()
        invariant
            i <= cs@.len(),
            mapped@ =~= Seq::new(i as nat, |k: int| slug_char(cs@[k])),
        decreases cs.len() - i,
    {
        mapped.push(slug_char_exec(cs[i]));
        i = i + 1;
    }
    let ghost m = mapped@;
    let n = mapped.len();
    let mut lo: usize = 0;
    assert(m.subrange(0, n as int) =~= m);
    while lo < n && mapped[lo] == '-'
        invariant
            lo <= n == m.len(),
            mapped@ == m,
            trim_dash_start(m) == trim_dash_start(m.subrange(lo as int, n as int)),
        decreases n - lo,
    {
        assert(m.subrange(lo as int, n as int).drop_first() =~= m.subrange(lo + 1, n as int));
        lo = lo + 1;
    }
    let ghost front = m.subrange(lo as int, n as int);
    assert(trim_dash_start(front) == front);
    let mut hi: usize = n;
    assert(front.subrange(0, (n - lo) as int) =~= front);
    while hi > lo && mapped[hi - 1] == '-'
        invariant
            lo <= hi <= n == m.len(),
            mapped@ == m,
            front == m.subrange(lo as int, n as int),
            trim_dash_end(front) == trim_dash_end(m.subrange(lo as int, hi as int)),
        decreases hi,
    {
        assert(m.subrange(lo as int, hi as int).drop_last() =~= m.subrange(lo as int, hi - 1));
        hi = hi - 1;
    }
    let out = slice_chars(&mapped, lo, hi);
    string_of(&out)
}

// ── the order of paths ───────────────────────────────────────────────

/// Where a component sorts among the kinds of component: the root, then
/// `.`, then `..`, then names.
pub open spec fn comp_rank(c: Seq<char>) -> int {
    if c == seq!['/'] {
        0
    } else if c == seq!['.'] {
        1
    } else if c == seq!['.', '.'] {
        2
    } else {
        3
    }
}

/// `Component`'s `<`: by kind, and names by their text.
pub open spec fn comp_lt(x: Seq<char>, y: Seq<char>) -> bool {
    if comp_rank(x) != comp_rank(y) {
        comp_rank(x) < comp_rank(y)
    } else if comp_rank(x) == 3 {
        str_lt(x, y)
    } else {
        false
    }
}

/// `Path`'s `<`: its components compared in turn.
pub open spec fn comps_lt(a: Seq<Seq<char>>, b: Seq<Seq<char>>) -> bool
    decreases a.len(),
{
    if a.len() == 0 {
        b.len() > 0
    } else if b.len() == 0 {
        false
    } else if a[0] != b[0] {
        comp_lt(a[0], b[0])
    } else {
        comps_lt(a.drop_first(), b.drop_first())
    }
}

proof fn lemma_comp_lt(x: Seq<char>, y: Seq<char>, z: Seq<char>)
    ensures
        x == y ==> !comp_lt(x, y),
        x != y ==> comp_lt(x, y) != comp_lt(y, x),
        comp_lt(x, y) && comp_lt(y, z) ==> comp_lt(x, z),
{
    lemma_str_lt_total(x, y);
    if comp_lt(x, y) && comp_lt(y, z) && comp_rank(x) == 3 && comp_rank(y) == 3 && comp_rank(z)
        == 3 {
        lemma_str_lt_trans(x, y, z);
    }
    if x != y && comp_rank(x) == comp_rank(y) && comp_rank(x) < 3 {
        assert(x == y);
    }
}

proof fn lemma_comps_lt_total(a: Seq<Seq<char>>, b: Seq<Seq<char>>)
    ensures
        a == b ==> !comps_lt(a, b),
        a != b ==> comps_lt(a, b) != comps_lt(b, a),
    decreases a.len(),
{
    if a.len() > 0 && b.len() > 0 {
        if a[0] == b[0] {
            lemma_comps_lt_total(a.drop_first(), b.drop_first());
            if a != b && a.drop_first() == b.drop_first() {
                assert forall|k: int| 0 <= k < a.len() implies a[k] == b[k] by {
                    if k > 0 {
                        assert(a[k] == a.drop_first()[k - 1]);
                        assert(b[k] == b.drop_first()[k - 1]);
                    }
                }
                assert(a =~= b);
            }
        } else {
            lemma_comp_lt(a[0], b[0], a[0]);
        }
    } else if a.len() == 0 && b.len() == 0 {
        assert(a =~= b);
    }
}

proof fn lemma_comps_lt_trans(a: Seq<Seq<char>>, b: Seq<Seq<char>>, c: Seq<Seq<char>>)
    requires
        comps_lt(a, b),
        comps_lt(b, c),
    ensures
        comps_lt(a, c),
    decreases a.len(),
{
    if a.len() > 0 && b.len() > 0 && c.len() > 0 {
        lemma_comp_lt(a[0], b[0], c[0]);
        lemma_comp_lt(b[0], a[0], c[0]);
        lemma_comp_lt(a[0], c[0], b[0]);
        if a[0] == b[0] && b[0] == c[0] {
            lemma_comps_lt_trans(a.drop_first(), b.drop_first(), c.drop_first());
        }
    }
}

/// Path `bases[i]` sorts before path `bases[j]`; equal paths keep the
/// order they were given in.
pub open spec fn path_before(bases: Seq<Seq<char>>, i: int, j: int) -> bool {
    let ci = components(bases[i]);
    let cj = components(bases[j]);
    comps_lt(ci, cj) || (ci == cj && i < j)
}

proof fn lemma_path_before(bases: Seq<Seq<char>>, i: int, j: int, k: int)
    ensures
        i != j ==> path_before(bases, i, j) != path_before(bases, j, i),
        !path_before(bases, i, i),
        path_before(bases, i, j) && path_before(bases, j, k) ==> path_before(bases, i, k),
{
    let ci = components(bases[i]);
    let cj = components(bases[j]);
    let ck = components(bases[k]);
    lemma_comps_lt_total(ci, cj);
    lemma_comps_lt_total(ci, ci);
    lemma_comps_lt_total(cj, ck);
    lemma_comps_lt_total(ci, ck);
    if comps_lt(ci, cj) && comps_lt(cj, ck) {
        lemma_comps_lt_trans(ci, cj, ck);
    }
}

fn compare_comps(a: &Vec<Vec<char>>, b: &Vec<Vec<char>>) -> (r: i8)
    ensures
        r < 0 <==> comps_lt(views(a@), views(b@)),
        r == 0 <==> views(a@) == views(b@),
{
    let ghost va = views(a@);
    let ghost vb = views(b@);
    let mut i: usize = 0;
    while i < a.len() && i < b.len() && chars_eq(&a[i], &b[i])
        invariant
            va == views(a@),
            vb == views(b@),
            i <= a@.len(),
            i <= b@.len(),
            va.subrange(0, i as int) == vb.subrange(0, i as int),
        decreases a.len() - i,
    {
        assert(va.subrange(0, i + 1) =~= va.subrange(0, i as int).push(va[i as int]));
        assert(vb.subrange(0, i + 1) =~= vb.subrange(0, i as int).push(vb[i as int]));
        i = i + 1;
    }
    proof {
        lemma_comps_lt_from(va, vb, i as int);
    }
    let ghost sa = va.subrange(i as int, va.len() as int);
    let ghost sb = vb.subrange(i as int, vb.len() as int);
    proof {
        lemma_comps_lt_total(sa, sb);
    }
    if i == a.len() && i == b.len() {
        assert(sa =~= sb);
        0
    } else if i == a.len() {
        assert(sa.len() == 0 && sb.len() > 0);
        -1
    } else if i == b.len() {
        assert(sb.len() == 0 && sa.len() > 0);
        1
    } else {
        assert(sa[0] == va[i as int] && sb[0] == vb[i as int]);
        assert(sa[0] != sb[0]);
        let x = &a[i];
        let y = &b[i];
        let rx = comp_rank_exec(x);
        let ry = comp_rank_exec(y);
        let lt = if rx != ry {
            rx < ry
        } else if rx == 3 {
            compare_names(x, y) < 0
        } else {
            false
        };
        if lt {
            -1
        } else {
            1
        }
    }
}

fn comp_rank_exec(c: &Vec<char>) -> (r: u8)
    ensures
        r as int == comp_rank(c@),
{
    if c.len() == 1 && c[0] == '/' {
        assert(c@ =~= seq!['/']);
        0
    } else if c.len() == 1 && c[0] == '.' {
        assert(c@ =~= seq!['.']);
        assert(c@ != seq!['/']);
        1
    } else if c.len() == 2 && c[0] == '.' && c[1] == '.' {
        assert(c@ =~= seq!['.', '.']);
        2
    } else {
        proof {
            if c@ == seq!['/'] || c@ == seq!['.'] {
                assert(c@.len() == 1);
            }
            if c@ == seq!['.', '.'] {
                assert(c@.len() == 2);
            }
        }
        3
    }
}

proof fn lemma_comps_lt_from(a: Seq<Seq<char>>, b: Seq<Seq<char>>, i: int)
    requires
        0 <= i <= a.len(),
        i <= b.len(),
        a.subrange(0, i) == b.subrange(0, i),
    ensures
        comps_lt(a, b) == comps_lt(a.subrange(i, a.len() as int), b.subrange(i, b.len() as int)),
        (a == b) == (a.subrange(i, a.len() as int) == b.subrange(i, b.len() as int)),
    decreases i,
{
    if i > 0 {
        assert(a[0] == a.subrange(0, i)[0]);
        assert(b[0] == b.subrange(0, i)[0]);
        let a1 = a.drop_first();
        let b1 = b.drop_first();
        assert(a1.subrange(0, i - 1) =~= a.subrange(0, i).drop_first());
        assert(b1.subrange(0, i - 1) =~= b.subrange(0, i).drop_first());
        lemma_comps_lt_from(a1, b1, i - 1);
        assert(a1.subrange(i - 1, a1.len() as int) =~= a.subrange(i, a.len() as int));
        assert(b1.subrange(i - 1, b1.len() as int) =~= b.subrange(i, b.len() as int));
        if a1 == b1 {
            assert forall|k: int| 0 <= k < a.len() implies a[k] == b[k] by {
                if k > 0 {
                    assert(a[k] == a1[k - 1]);
                    assert(b[k] == b1[k - 1]);
                }
            }
            assert(a =~= b);
        }
    } else {
        assert(a.subrange(0, a.len() as int) =~= a);
        assert(b.subrange(0, b.len() as int) =~= b);
    }
}

/// `r` lists every index of `bases` once, sorted by path (`<[PathBuf]>::sort`).
pub open spec fn is_path_sort(bases: Seq<Seq<char>>, r: Seq<usize>) -> bool {
    &&& forall|x: usize| #[trigger] r.contains(x) <==> x < bases.len()
    &&& forall|a: int, b: int|
        0 <= a < b < r.len() ==> path_before(bases, #[trigger] r[a] as int, #[trigger] r[b] as int)
}

/// The indices of `bases` in path order, equal paths in the order given.
pub fn sort_paths(bases: &[String]) -> (r: Vec<usize>)
    ensures
        is_path_sort(strs(bases@), r@),
{
    let ghost bs = strs(bases@);
    let n = bases.len();
    let mut comps: Vec<Vec<Vec<char>>> = Vec::new();
    let mut i: usize = 0;
    while i < n
        invariant
            n == bases@.len(),
            bs == strs(bases@),
            i <= n,
            comps@.len() == i,
            forall|k: int| 0 <= k < i ==> views(#[trigger] comps@[k]@) == components(bs[k]),
        decreases n - i,
    {
        comps.push(crate::paths::path_components(bases[i].as_str()));
        i = i + 1;
    }
    let mut out: Vec<usize> = Vec::new();
    let mut i: usize = 0;
    while i < n
        invariant
            n == bases@.len(),
            bs == strs(bases@),
            i <= n,
            comps@.len() == n,
            forall|k: int| 0 <= k < n ==> views(#[trigger] comps@[k]@) == components(bs[k]),
            forall|x: usize| #[trigger] out@.contains(x) <==> x < i,
            forall|a: int, b: int|
                0 <= a < b < out@.len() ==> path_before(
                    bs,
                    #[trigger] out@[a] as int,
                    #[trigger] out@[b] as int,
                ),
        decreases n - i,
    {
        assert forall|k: int| 0 <= k < out@.len() implies (#[trigger] out@[k]) < i by {
            assert(out@.contains(out@[k]));
        }
        let mut p: usize = 0;
        loop
            invariant
                n == bases@.len(),
                bs == strs(bases@),
                i < n,
                comps@.len() == n,
                forall|k: int| 0 <= k < n ==> views(#[trigger] comps@[k]@) == components(bs[k]),
                forall|k: int| 0 <= k < out@.len() ==> (#[trigger] out@[k]) < i,
                p <= out@.len(),
                forall|k: int| 0 <= k < p ==> path_before(bs, #[trigger] out@[k] as int, i as int),
            ensures
                p <= out@.len(),
                forall|k: int| 0 <= k < p ==> path_before(bs, #[trigger] out@[k] as int, i as int),
                p < out@.len() ==> path_before(bs, i as int, out@[p as int] as int),
            decreases out.len() - p,
        {
            if p == out.len() {
                break;
            }
            let j = out[p];
            let c = compare_comps(&comps[i], &comps[j]);
            proof {
                lemma_path_before(bs, i as int, j as int, i as int);
                lemma_comps_lt_total(components(bs[i as int]), components(bs[j as int]));
            }
            if c < 0 {
                break;
            }
            p = p + 1;
        }
        let ghost old_out = out@;
        out.insert(p, i);
        proof {
            assert(out@ =~= old_out.insert(p as int, i));
            assert forall|a: int, b: int|
                0 <= a < b < out@.len() implies path_before(
                bs,
                #[trigger] out@[a] as int,
                #[trigger] out@[b] as int,
            ) by {
                if b < p {
                    assert(out@[a] == old_out[a] && out@[b] == old_out[b]);
                } else if b == p {
                    assert(out@[a] == old_out[a]);
                } else if a < p {
                    assert(out@[a] == old_out[a] && out@[b] == old_out[b - 1]);
                } else if a == p {
                    assert(out@[b] == old_out[b - 1]);
                    if b - 1 > p {
                        lemma_path_before(bs, i as int, old_out[p as int] as int, old_out[b - 1] as int);
                    }
                } else {
                    assert(out@[a] == old_out[a - 1] && out@[b] == old_out[b - 1]);
                }
            }
            assert forall|x: usize| #[trigger] out@.contains(x) <==> x < i + 1 by {
                if out@.contains(x) {
                    let k = choose|k: int| 0 <= k < out@.len() && out@[k] == x;
                    if k < p {
                        assert(old_out[k] == x);
                        assert(old_out.contains(x));
                    } else if k > p {
                        assert(old_out[k - 1] == x);
                        assert(old_out.contains(x));
                    }
                }
                if x < i + 1 {
                    if x == i {
                        assert(out@[p as int] == x);
                    } else {
                        assert(old_out.contains(x));
                        let k = choose|k: int| 0 <= k < old_out.len() && old_out[k] == x;
                        if k < p {
                            assert(out@[k] == x);
                        } else {
                            assert(out@[k + 1] == x);
                        }
                    }
                }
            }
        }
        i = i + 1;
    }
    out
}

// ── the short hash of a set of folders ───────────────────────────────

/// What `DefaultHasher` makes of the given paths, hashed one after the
/// other as `Path`s. The SipHash behind it is named, not restated; within
/// one build of den it depends on the paths alone.
pub uninterp spec fn paths_hash(paths: Seq<Seq<char>>) -> u64;

/// Feed each path, in order, to a fresh `DefaultHasher` through `Path`'s
/// `Hash`, and finish it.
#[verifier::external_body]
fn hash_paths(paths: &[String]) -> (h: u64)
    ensures
        h == paths_hash(strs(paths@)),
{
    let mut hasher = std::collections::hash_map::DefaultHasher::new();
    for p in paths {
        std::path::Path::new(p).hash(&mut hasher);
    }
    hasher.finish()
}

/// The lower-case hexadecimal digit for `n` (below 16).
pub open spec fn hex_lower(n: int) -> char {
    if n < 10 {
        (48 + n) as char
    } else {
        (87 + n) as char
    }
}

/// `format!("{:08x}", x)`: eight lower-case hexadecimal digits.
pub open spec fn hex8(x: u32) -> Seq<char> {
    Seq::new(8, |k: int| hex_lower((x as int / pow16(7 - k)) % 16))
}

/// 16 to the power `e`.
pub open spec fn pow16(e: int) -> int
    decreases e,
{
    if e <= 0 {
        1
    } else {
        16 * pow16(e - 1)
    }
}

proof fn lemma_pow16_pos(e: int)
    ensures
        pow16(e) >= 1,
    decreases e,
{
    if e > 0 {
        lemma_pow16_pos(e - 1);
    }
}

fn hex_lower_exec(n: u32) -> (c: char)
    requires
        n < 16,
    ensures
        c == hex_lower(n as int),
{
    match n {
        0 => '0',
        1 => '1',
        2 => '2',
        3 => '3',
        4 => '4',
        5 => '5',
        6 => '6',
        7 => '7',
        8 => '8',
        9 => '9',
        10 => 'a',
        11 => 'b',
        12 => 'c',
        13 => 'd',
        14 => 'e',
        _ => 'f',
    }
}

fn hex8_of(x: u32) -> (r: Vec<char>)
    ensures
        r@ == hex8(x),
{
    let mut out: Vec<char> = Vec::new();
    let mut k: u32 = 0;
    let mut div: u32 = 0x1000_0000;
    assert(pow16(7) == 0x1000_0000) by {
        reveal_with_fuel(pow16, 8);
    }
    while k < 8
        invariant
            k <= 8,
            out@.len() == k,
            forall|m: int| 0 <= m < k ==> out@[m] == hex_lower((x as int / pow16(7 - m)) % 16),
            k < 8 ==> div as int == pow16(7 - k),
            k < 8 ==> div >= 1,
        decreases 8 - k,
    {
        let digit = (x / div) % 16;
        out.push(hex_lower_exec(digit));
        let ghost prev_div = div;
        proof {
            if k < 7 {
                assert(pow16(7 - k) == 16 * pow16(7 - k - 1));
                assert(pow16(7 - k - 1) >= 1) by {
                    lemma_pow16_pos(7 - k - 1);
                }
            }
        }
        div = div / 16;
        proof {
            if k < 7 {
                assert(div as int == pow16(7 - k - 1));
            }
        }
        k = k + 1;
    }
    assert(out@ =~= hex8(x));
    out
}

/// The paths of `bases` in the order `order` gives.
pub open spec fn in_order(bases: Seq<Seq<char>>, order: Seq<usize>) -> Seq<Seq<char>> {
    Seq::new(order.len(), |k: int| bases[order[k] as int])
}

/// The path order of `bases` (there is only one; see `lemma_path_sort_unique`).
pub open spec fn path_order(bases: Seq<Seq<char>>) -> Seq<usize> {
    choose|order: Seq<usize>| is_path_sort(bases, order)
}

/// The short hash of a set of folders: the paths sorted, hashed, and
/// the low 32 bits written as eight hexadecimal digits.
pub open spec fn short_hash_of(bases: Seq<Seq<char>>) -> Seq<char> {
    hex8((paths_hash(in_order(bases, path_order(bases))) % 0x1_0000_0000) as u32)
}

proof fn lemma_sorted_paths_distinct(bases: Seq<Seq<char>>, r: Seq<usize>)
    requires
        forall|a: int, b: int|
            0 <= a < b < r.len() ==> path_before(bases, #[trigger] r[a] as int, #[trigger] r[b] as int),
    ensures
        forall|a: int, b: int| 0 <= a < b < r.len() ==> r[a] != r[b],
{
    assert forall|a: int, b: int| 0 <= a < b < r.len() implies r[a] != r[b] by {
        lemma_path_before(bases, r[a] as int, r[b] as int, r[a] as int);
    }
}

/// Only one sequence sorts `bases`.
pub proof fn lemma_path_sort_unique(bases: Seq<Seq<char>>, r1: Seq<usize>, r2: Seq<usize>)
    requires
        forall|a: int, b: int|
            0 <= a < b < r1.len() ==> path_before(bases, #[trigger] r1[a] as int, #[trigger] r1[b] as int),
        forall|a: int, b: int|
            0 <= a < b < r2.len() ==> path_before(bases, #[trigger] r2[a] as int, #[trigger] r2[b] as int),
        forall|x: usize| #[trigger] r1.contains(x) <==> r2.contains(x),
    ensures
        r1 == r2,
    decreases r1.len() + r2.len(),
{
    if r1.len() > 0 && r2.len() > 0 {
        let x1 = r1[0];
        let x2 = r2[0];
        assert(r1.contains(x1));
        assert(r2.contains(x2));
        assert(r1.contains(x2));
        assert(r2.contains(x1));
        if x1 != x2 {
            let p2 = choose|p: int| 0 <= p < r1.len() && r1[p] == x2;
            let p1 = choose|p: int| 0 <= p < r2.len() && r2[p] == x1;
            assert(path_before(bases, r1[0] as int, r1[p2] as int));
            assert(path_before(bases, r2[0] as int, r2[p1] as int));
            lemma_path_before(bases, x1 as int, x2 as int, x1 as int);
        }
        assert(x1 == x2);
        lemma_sorted_paths_distinct(bases, r1);
        lemma_sorted_paths_distinct(bases, r2);
        let t1 = r1.drop_first();
        let t2 = r2.drop_first();
        assert forall|x: usize| #[trigger] t1.contains(x) <==> t2.contains(x) by {
            if t1.contains(x) {
                let p = choose|p: int| 0 <= p < t1.len() && t1[p] == x;
                assert(r1[p + 1] == x);
                assert(r1[0] != r1[p + 1]);
                assert(r1.contains(x));
                assert(r2.contains(x));
                let q = choose|q: int| 0 <= q < r2.len() && r2[q] == x;
                assert(q != 0);
                assert(t2[q - 1] == x);
            }
            if t2.contains(x) {
                let p = choose|p: int| 0 <= p < t2.len() && t2[p] == x;
                assert(r2[p + 1] == x);
                assert(r2[0] != r2[p + 1]);
                assert(r2.contains(x));
                assert(r1.contains(x));
                let q = choose|q: int| 0 <= q < r1.len() && r1[q] == x;
                assert(q != 0);
                assert(t1[q - 1] == x);
            }
        }
        assert forall|a: int, b: int|
            0 <= a < b < t1.len() implies path_before(bases, #[trigger] t1[a] as int, #[trigger] t1[b] as int) by {
            assert(t1[a] == r1[a + 1] && t1[b] == r1[b + 1]);
        }
        assert forall|a: int, b: int|
            0 <= a < b < t2.len() implies path_before(bases, #[trigger] t2[a] as int, #[trigger] t2[b] as int) by {
            assert(t2[a] == r2[a + 1] && t2[b] == r2[b + 1]);
        }
        lemma_path_sort_unique(bases, t1, t2);
        assert(r1 =~= seq![x1] + t1);
        assert(r2 =~= seq![x2] + t2);
    } else if r1.len() > 0 {
        assert(r1.contains(r1[0]));
        assert(r2.contains(r1[0]));
    } else if r2.len() > 0 {
        assert(r2.contains(r2[0]));
        assert(r1.contains(r2[0]));
    } else {
        assert(r1 =~= r2);
    }
}

/// The short hash of a set of folders.
pub fn short_hash(bases: &[String]) -> (r: String)
    ensures
        r@ == short_hash_of(strs(bases@)),
{
    let order = sort_paths(bases);
    let mut sorted: Vec<String> = Vec::new();
    let mut k: usize = 0;
    while k < order.len()
        invariant
            k <= order@.len(),
            is_path_sort(strs(bases@), order@),
            strs(sorted@) == Seq::new(k as nat, |m: int| strs(bases@)[order@[m] as int]),
        decreases order.len() - k,
    {
        assert(order@.contains(order@[k as int]));
        let ghost before = strs(sorted@);
        sorted.push(bases[order[k]].clone());
        assert(strs(sorted@) =~= before.push(strs(bases@)[order@[k as int] as int]));
        assert(strs(sorted@) =~= Seq::new((k + 1) as nat, |m: int| strs(bases@)[order@[m] as int]));
        k = k + 1;
    }
    let h = hash_paths(sorted.as_slice());
    let low = (h % 0x1_0000_0000) as u32;
    let digits = hex8_of(low);
    let r = string_of(&digits);
    proof {
        let bs = strs(bases@);
        let chosen = path_order(bs);
        assert(is_path_sort(bs, chosen));
        assert forall|x: usize| #[trigger] chosen.contains(x) <==> order@.contains(x) by {}
        lemma_path_sort_unique(bs, chosen, order@);
        assert(strs(sorted@) =~= in_order(bs, order@));
    }
    r
}

/// The first four digits of the short hash.
pub open spec fn short_hash4(bases: Seq<Seq<char>>) -> Seq<char> {
    short_hash_of(bases).subrange(0, 4)
}

/// The name a session directory gets from its folders: the sanitised
/// last names of the folders, the empty ones left out.
pub open spec fn slug_parts(bases: Seq<Seq<char>>) -> Seq<Seq<char>>
    decreases bases.len(),
{
    if bases.len() == 0 {
        Seq::empty()
    } else {
        let prev = slug_parts(bases.drop_last());
        match file_name(bases.last()) {
            Some(n) => if sanitized(n).len() > 0 {
                prev.push(sanitized(n))
            } else {
                prev
            },
            None => prev,
        }
    }
}

/// A session's name: its slug parts joined by `-`, or the short hash of
/// its folders when there are none.
pub open spec fn slug_of(bases: Seq<Seq<char>>) -> Seq<char> {
    if slug_parts(bases).len() == 0 {
        short_hash_of(bases)
    } else {
        join(slug_parts(bases), seq!['-'])
    }
}

/// A session's name.
pub fn slug_for(bases: &[String]) -> (r: String)
    ensures
        r@ == slug_of(strs(bases@)),
{
    let ghost bs = strs(bases@);
    let mut parts: Vec<Vec<char>> = Vec::new();
    let mut i: usize = 0;
    assert(bs.subrange(0, 0) =~= Seq::<Seq<char>>::empty());
    while i < bases.len()
        invariant
            bs == strs(bases@),
            i <= bases@.len(),
            views(parts@) == slug_parts(bs.subrange(0, i as int)),
        decreases bases.len() - i,
    {
        let ghost pre = bs.subrange(0, i as int);
        let ghost next = bs.subrange(0, i + 1);
        assert(next.drop_last() =~= pre);
        assert(next.last() == bases@[i as int]@);
        if let Some(n) = file_name_of(bases[i].as_str()) {
            let ns = string_of(&n);
            let t = sanitize(ns.as_str());
            let tc = chars_of(t.as_str());
            if tc.len() > 0 {
                let ghost before = views(parts@);
                parts.push(tc);
                assert(views(parts@) =~= before.push(sanitized(n@)));
            }
        }
        i = i + 1;
    }
    assert(bs.subrange(0, bases@.len() as int) =~= bs);
    if parts.len() == 0 {
        return short_hash(bases);
    }
    let mut sep: Vec<char> = Vec::new();
    sep.push('-');
    assert(sep@ =~= seq!['-']);
    string_of(&join_chars(&parts, &sep))
}

/// The name with the first four digits of the short hash after it.
pub open spec fn suffixed_of(target: Seq<char>, bases: Seq<Seq<char>>) -> Seq<char> {
    target + seq!['-'] + short_hash4(bases)
}

fn suffixed(target: &String, bases: &[String]) -> (r: String)
    ensures
        r@ == suffixed_of(target@, strs(bases@)),
{
    let h = short_hash(bases);
    let hc = chars_of(h.as_str());
    proof {
        assert(hex8((paths_hash(in_order(strs(bases@), path_order(strs(bases@)))) % 0x1_0000_0000) as u32).len() == 8);
    }
    let mut out = chars_of(target.as_str());
    out.push('-');
    append_chars(&mut out, &slice_chars(&hc, 0, 4));
    string_of(&out)
}

/// Whether `name` is one of `names`.
pub open spec fn has_name(names: Seq<Seq<char>>, name: Seq<char>) -> bool {
    exists|k: int| 0 <= k < names.len() && #[trigger] names[k] == name
}

fn has_name_exec(names: &[String], name: &String) -> (r: bool)
    ensures
        r == has_name(strs(names@), name@),
{
    let mut k: usize = 0;
    while k < names.len()
        invariant
            k <= names@.len(),
            forall|m: int| 0 <= m < k ==> #[trigger] strs(names@)[m] != name@,
        decreases names.len() - k,
    {
        if names[k] == *name {
            assert(strs(names@)[k as int] == name@);
            return true;
        }
        k = k + 1;
    }
    false
}

/// The name a session directory called `current` should move to, given
/// the names already taken in the sessions directory: its slug, or the
/// slug with a short hash after it when the slug is taken; nothing when
/// it has no folders, already has its slug, or both names are taken.
pub open spec fn rename_target_of(
    current: Seq<char>,
    bases: Seq<Seq<char>>,
    names: Seq<Seq<char>>,
) -> Option<Seq<char>> {
    let target = slug_of(bases);
    if bases.len() == 0 || current == target {
        None
    } else if !has_name(names, target) {
        Some(target)
    } else if !has_name(names, suffixed_of(target, bases)) {
        Some(suffixed_of(target, bases))
    } else {
        None
    }
}

/// The name a session directory called `current` should move to.
pub fn rename_target(current: &str, bases: &[String], names: &[String]) -> (r: Option<String>)
    ensures
        r matches Some(t) ==> rename_target_of(current@, strs(bases@), strs(names@)) == Some(t@),
        r is None ==> rename_target_of(current@, strs(bases@), strs(names@)) is None,
{
    if bases.len() == 0 {
        return None;
    }
    let target = slug_for(bases);
    if str_eq(current, target.as_str()) {
        return None;
    }
    if !has_name_exec(names, &target) {
        return Some(target);
    }
    let s = suffixed(&target, bases);
    if !has_name_exec(names, &s) {
        return Some(s);
    }
    None
}

/// One entry of the sessions directory, as listed: its name, whether it
/// is a directory, and the folders its `bases.txt` lists (none when it
/// has no such file).
pub struct SessionEntry {
    pub name: String,
    pub is_dir: bool,
    pub bases: Vec<String>,
}

/// What to do to find the session for a set of folders.
#[derive(Debug, Clone, PartialEq, Eq)]
pub enum SessionChoice {
    /// Use the session directory of this name (it may not exist yet).
    Use(String),
    /// Rename the session directory `from` to `to`, then use `to`.
    Rename { from: String, to: String },
}

/// The same folders, one by one, compared as paths.
pub open spec fn same_paths(a: Seq<Seq<char>>, b: Seq<Seq<char>>) -> bool {
    a.len() == b.len() && forall|k: int| 0 <= k < a.len() ==> same_path(#[trigger] a[k], b[k])
}

fn same_paths_exec(a: &[String], b: &[String]) -> (r: bool)
    ensures
        r == same_paths(strs(a@), strs(b@)),
{
    if a.len() != b.len() {
        return false;
    }
    let mut k: usize = 0;
    while k < a.len()
        invariant
            a@.len() == b@.len(),
            k <= a@.len(),
            forall|m: int| 0 <= m < k ==> same_path(#[trigger] strs(a@)[m], strs(b@)[m]),
        decreases a.len() - k,
    {
        if !crate::paths::path_eq(a[k].as_str(), b[k].as_str()) {
            assert(!same_path(strs(a@)[k as int], strs(b@)[k as int]));
            return false;
        }
        k = k + 1;
    }
    true
}

/// A view of the sessions directory: each entry's name, whether it is
/// a directory, and its folders.
pub open spec fn entries_view(es: Seq<SessionEntry>) -> Seq<(Seq<char>, bool, Seq<Seq<char>>)> {
    Seq::new(es.len(), |k: int| (es[k].name@, es[k].is_dir, strs(es[k].bases@)))
}

/// The index of the first directory in `es` that records exactly these folders.
pub open spec fn first_match(es: Seq<(Seq<char>, bool, Seq<Seq<char>>)>, bases: Seq<Seq<char>>) -> int
    decreases es.len(),
{
    if es.len() == 0 {
        0
    } else if es[0].1 && es[0].2.len() > 0 && same_paths(es[0].2, bases) {
        0
    } else {
        1 + first_match(es.drop_first(), bases)
    }
}

/// The session for a set of folders: the first directory that records
/// them, moved to its proper name when that name is free (or the name
/// with a short hash after it); when none records them, the slug, or the
/// slug with a short hash after it when the slug is taken.
pub open spec fn resolve_of(es: Seq<(Seq<char>, bool, Seq<Seq<char>>)>, bases: Seq<Seq<char>>) -> (Seq<char>, Option<Seq<char>>) {
    let names = Seq::new(es.len(), |k: int| es[k].0);
    let m = first_match(es, bases);
    if m < es.len() {
        let current = es[m].0;
        match rename_target_of(current, bases, names) {
            Some(t) => (t, Some(current)),
            None => (current, None),
        }
    } else {
        let target = slug_of(bases);
        if !has_name(names, target) {
            (target, None)
        } else {
            (suffixed_of(target, bases), None)
        }
    }
}

proof fn lemma_first_match(es: Seq<(Seq<char>, bool, Seq<Seq<char>>)>, bases: Seq<Seq<char>>, i: int)
    requires
        0 <= i <= es.len(),
        forall|k: int| 0 <= k < i ==> !(#[trigger] es[k].1 && es[k].2.len() > 0 && same_paths(es[k].2, bases)),
        i == es.len() || (es[i].1 && es[i].2.len() > 0 && same_paths(es[i].2, bases)),
    ensures
        first_match(es, bases) == i,
    decreases i,
{
    if i > 0 {
        assert(!(es[0].1 && es[0].2.len() > 0 && same_paths(es[0].2, bases)));
        let rest = es.drop_first();
        assert forall|k: int| 0 <= k < i - 1 implies !(#[trigger] rest[k].1 && rest[k].2.len() > 0
            && same_paths(rest[k].2, bases)) by {
            assert(rest[k] == es[k + 1]);
        }
        lemma_first_match(rest, bases, i - 1);
    }
}

/// Which session directory to use for a set of folders, given what the
/// sessions directory holds (in the order it was listed).
pub fn resolve_session(entries: &[SessionEntry], bases: &[String]) -> (c: SessionChoice)
    ensures
        match c {
            SessionChoice::Use(id) => resolve_of(entries_view(entries@), strs(bases@))
                == (id@, None::<Seq<char>>),
            SessionChoice::Rename { from, to } => resolve_of(entries_view(entries@), strs(bases@))
                == (to@, Some(from@)),
        },
{
    let ghost es = entries_view(entries@);
    let ghost bs = strs(bases@);
    let mut names: Vec<String> = Vec::new();
    let mut k: usize = 0;
    while k < entries.len()
        invariant
            k <= entries@.len(),
            es == entries_view(entries@),
            strs(names@) =~= Seq::new(k as nat, |j: int| es[j].0),
        decreases entries.len() - k,
    {
        let nm = entries[k].name.clone();
        let ghost before = strs(names@);
        names.push(nm);
        assert(strs(names@) =~= before.push(es[k as int].0));
        k = k + 1;
    }
    assert(strs(names@) =~= Seq::new(es.len(), |j: int| es[j].0));
    let mut i: usize = 0;
    while i < entries.len()
        invariant
            i <= entries@.len(),
            es == entries_view(entries@),
            bs == strs(bases@),
            strs(names@) =~= Seq::new(es.len(), |j: int| es[j].0),
            forall|m: int| 0 <= m < i ==> !(#[trigger] es[m].1 && es[m].2.len() > 0 && same_paths(es[m].2, bs)),
        decreases entries.len() - i,
    {
        let e = &entries[i];
        assert(es[i as int] == (e.name@, e.is_dir, strs(e.bases@)));
        if e.is_dir && e.bases.len() > 0 && same_paths_exec(&e.bases, bases) {
            proof {
                lemma_first_match(es, bs, i as int);
            }
            let current = e.name.clone();
            match rename_target(e.name.as_str(), bases, &names) {
                Some(t) => {
                    return SessionChoice::Rename { from: current, to: t };
                },
                None => {
                    return SessionChoice::Use(current);
                },
            }
        }
        i = i + 1;
    }
    proof {
        lemma_first_match(es, bs, es.len() as int);
    }
    let target = slug_for(bases);
    if !has_name_exec(&names, &target) {
        return SessionChoice::Use(target);
    }
    SessionChoice::Use(suffixed(&target, bases))
}

// ── lists of paths, one per line ─────────────────────────────────────

/// The lines of `ls` that are not blank, each trimmed.
pub open spec fn nonblank_trimmed(ls: Seq<Seq<char>>) -> Seq<Seq<char>>
    decreases ls.len(),
{
    if ls.len() == 0 {
        Seq::empty()
    } else {
        let prev = nonblank_trimmed(ls.drop_last());
        if trim(ls.last()).len() > 0 {
            prev.push(trim(ls.last()))
        } else {
            prev
        }
    }
}

/// The paths a file lists: one per non-blank line, trimmed.
pub open spec fn path_lines(text: Seq<char>) -> Seq<Seq<char>> {
    nonblank_trimmed(lines(text))
}

/// The paths a file lists: one per non-blank line, trimmed, in order.
pub fn parse_path_lines(text: &str) -> (r: Vec<String>)
    ensures
        strs(r@) == path_lines(text@),
{
    let cs = chars_of(text);
    let ls = lines_of(&cs);
    let ghost all = lines(text@);
    let mut out: Vec<String> = Vec::new();
    let mut i: usize = 0;
    assert(all.subrange(0, 0) =~= Seq::<Seq<char>>::empty());
    while i < ls.len()
        invariant
            views(ls@) == all,
            i <= ls@.len(),
            strs(out@) == nonblank_trimmed(all.subrange(0, i as int)),
        decreases ls.len() - i,
    {
        let ghost pre = all.subrange(0, i as int);
        let ghost next = all.subrange(0, i + 1);
        assert(next.drop_last() =~= pre);
        assert(next.last() == ls@[i as int]@);
        let t = trim_chars(&ls[i]);
        if t.len() > 0 {
            let ghost before = strs(out@);
            out.push(string_of(&t));
            assert(strs(out@) =~= before.push(t@));
        }
        i = i + 1;
    }
    assert(all.subrange(0, ls@.len() as int) =~= all);
    out
}

/// How many paths a file lists: its non-blank lines.
pub fn count_path_lines(text: &str) -> (n: usize)
    ensures
        n == path_lines(text@).len(),
{
    parse_path_lines(text).len()
}

// ── lists of paths, written out ──────────────────────────────────────

/// Text `s[i]` sorts before text `s[j]`: `String`'s order, character by
/// character; equal texts keep the order they were given in.
pub open spec fn text_before(s: Seq<Seq<char>>, i: int, j: int) -> bool {
    str_lt(s[i], s[j]) || (s[i] == s[j] && i < j)
}

proof fn lemma_text_before(s: Seq<Seq<char>>, i: int, j: int, k: int)
    ensures
        i != j ==> text_before(s, i, j) != text_before(s, j, i),
        !text_before(s, i, i),
        text_before(s, i, j) && text_before(s, j, k) ==> text_before(s, i, k),
{
    lemma_str_lt_total(s[i], s[j]);
    lemma_str_lt_total(s[i], s[i]);
    lemma_str_lt_total(s[j], s[k]);
    lemma_str_lt_total(s[i], s[k]);
    if str_lt(s[i], s[j]) && str_lt(s[j], s[k]) {
        lemma_str_lt_trans(s[i], s[j], s[k]);
    }
}

/// `r` lists every index of `s` once, sorted as `<[String]>::sort` sorts.
pub open spec fn is_text_sort(s: Seq<Seq<char>>, r: Seq<usize>) -> bool {
    &&& forall|x: usize| #[trigger] r.contains(x) <==> x < s.len()
    &&& forall|a: int, b: int|
        0 <= a < b < r.len() ==> text_before(s, #[trigger] r[a] as int, #[trigger] r[b] as int)
}

proof fn lemma_sorted_texts_distinct(s: Seq<Seq<char>>, r: Seq<usize>)
    requires
        forall|a: int, b: int|
            0 <= a < b < r.len() ==> text_before(s, #[trigger] r[a] as int, #[trigger] r[b] as int),
    ensures
        forall|a: int, b: int| 0 <= a < b < r.len() ==> r[a] != r[b],
{
    assert forall|a: int, b: int| 0 <= a < b < r.len() implies r[a] != r[b] by {
        lemma_text_before(s, r[a] as int, r[b] as int, r[a] as int);
    }
}

/// Only one sequence sorts `s`.
pub proof fn lemma_text_sort_unique(s: Seq<Seq<char>>, r1: Seq<usize>, r2: Seq<usize>)
    requires
        is_text_sort(s, r1),
        is_text_sort(s, r2),
    ensures
        r1 == r2,
{
    assert forall|x: usize| #[trigger] r1.contains(x) <==> r2.contains(x) by {}
    lemma_text_sorted_same(s, r1, r2);
}

proof fn lemma_text_sorted_same(s: Seq<Seq<char>>, r1: Seq<usize>, r2: Seq<usize>)
    requires
        forall|a: int, b: int|
            0 <= a < b < r1.len() ==> text_before(s, #[trigger] r1[a] as int, #[trigger] r1[b] as int),
        forall|a: int, b: int|
            0 <= a < b < r2.len() ==> text_before(s, #[trigger] r2[a] as int, #[trigger] r2[b] as int),
        forall|x: usize| #[trigger] r1.contains(x) <==> r2.contains(x),
    ensures
        r1 == r2,
    decreases r1.len() + r2.len(),
{
    if r1.len() > 0 && r2.len() > 0 {
        let x1 = r1[0];
        let x2 = r2[0];
        assert(r1.contains(x1));
        assert(r2.contains(x2));
        assert(r1.contains(x2));
        assert(r2.contains(x1));
        if x1 != x2 {
            let p2 = choose|p: int| 0 <= p < r1.len() && r1[p] == x2;
            let p1 = choose|p: int| 0 <= p < r2.len() && r2[p] == x1;
            assert(text_before(s, r1[0] as int, r1[p2] as int));
            assert(text_before(s, r2[0] as int, r2[p1] as int));
            lemma_text_before(s, x1 as int, x2 as int, x1 as int);
        }
        assert(x1 == x2);
        lemma_sorted_texts_distinct(s, r1);
        lemma_sorted_texts_distinct(s, r2);
        let t1 = r1.drop_first();
        let t2 = r2.drop_first();
        assert forall|x: usize| #[trigger] t1.contains(x) <==> t2.contains(x) by {
            if t1.contains(x) {
                let p = choose|p: int| 0 <= p < t1.len() && t1[p] == x;
                assert(r1[p + 1] == x);
                assert(r1[0] != r1[p + 1]);
                assert(r1.contains(x));
                assert(r2.contains(x));
                let q = choose|q: int| 0 <= q < r2.len() && r2[q] == x;
                assert(q != 0);
                assert(t2[q - 1] == x);
            }
            if t2.contains(x) {
                let p = choose|p: int| 0 <= p < t2.len() && t2[p] == x;
                assert(r2[p + 1] == x);
                assert(r2[0] != r2[p + 1]);
                assert(r2.contains(x));
                assert(r1.contains(x));
                let q = choose|q: int| 0 <= q < r1.len() && r1[q] == x;
                assert(q != 0);
                assert(t1[q - 1] == x);
            }
        }
        assert forall|a: int, b: int|
            0 <= a < b < t1.len() implies text_before(s, #[trigger] t1[a] as int, #[trigger] t1[b] as int) by {
            assert(t1[a] == r1[a + 1] && t1[b] == r1[b + 1]);
        }
        assert forall|a: int, b: int|
            0 <= a < b < t2.len() implies text_before(s, #[trigger] t2[a] as int, #[trigger] t2[b] as int) by {
            assert(t2[a] == r2[a + 1] && t2[b] == r2[b + 1]);
        }
        lemma_text_sorted_same(s, t1, t2);
        assert(r1 =~= seq![x1] + t1);
        assert(r2 =~= seq![x2] + t2);
    } else if r1.len() > 0 {
        assert(r1.contains(r1[0]));
        assert(r2.contains(r1[0]));
    } else if r2.len() > 0 {
        assert(r2.contains(r2[0]));
        assert(r1.contains(r2[0]));
    } else {
        assert(r1 =~= r2);
    }
}

/// The indices of `s` in `String` order, equal texts in the order given.
pub fn sort_texts(s: &[String]) -> (r: Vec<usize>)
    ensures
        is_text_sort(strs(s@), r@),
{
    let ghost ss = strs(s@);
    let n = s.len();
    let mut cs: Vec<Vec<char>> = Vec::new();
    let mut i: usize = 0;
    while i < n
        invariant
            n == s@.len(),
            ss == strs(s@),
            i <= n,
            cs@.len() == i,
            forall|k: int| 0 <= k < i ==> (#[trigger] cs@[k])@ == ss[k],
        decreases n - i,
    {
        cs.push(chars_of(s[i].as_str()));
        i = i + 1;
    }
    let mut out: Vec<usize> = Vec::new();
    let mut i: usize = 0;
    while i < n
        invariant
            n == s@.len(),
            ss == strs(s@),
            i <= n,
            cs@.len() == n,
            forall|k: int| 0 <= k < n ==> (#[trigger] cs@[k])@ == ss[k],
            forall|x: usize| #[trigger] out@.contains(x) <==> x < i,
            forall|a: int, b: int|
                0 <= a < b < out@.len() ==> text_before(ss, #[trigger] out@[a] as int, #[trigger] out@[b] as int),
        decreases n - i,
    {
        assert forall|k: int| 0 <= k < out@.len() implies (#[trigger] out@[k]) < i by {
            assert(out@.contains(out@[k]));
        }
        let mut p: usize = 0;
        loop
            invariant
                n == s@.len(),
                ss == strs(s@),
                i < n,
                cs@.len() == n,
                forall|k: int| 0 <= k < n ==> (#[trigger] cs@[k])@ == ss[k],
                forall|k: int| 0 <= k < out@.len() ==> (#[trigger] out@[k]) < i,
                p <= out@.len(),
                forall|k: int| 0 <= k < p ==> text_before(ss, #[trigger] out@[k] as int, i as int),
            ensures
                p <= out@.len(),
                forall|k: int| 0 <= k < p ==> text_before(ss, #[trigger] out@[k] as int, i as int),
                p < out@.len() ==> text_before(ss, i as int, out@[p as int] as int),
            decreases out.len() - p,
        {
            if p == out.len() {
                break;
            }
            let j = out[p];
            let c = compare_names(&cs[i], &cs[j]);
            proof {
                lemma_text_before(ss, i as int, j as int, i as int);
                lemma_str_lt_total(ss[i as int], ss[j as int]);
            }
            if c < 0 {
                break;
            }
            p = p + 1;
        }
        let ghost old_out = out@;
        out.insert(p, i);
        proof {
            assert(out@ =~= old_out.insert(p as int, i));
            assert forall|a: int, b: int|
                0 <= a < b < out@.len() implies text_before(
                ss,
                #[trigger] out@[a] as int,
                #[trigger] out@[b] as int,
            ) by {
                if b < p {
                    assert(out@[a] == old_out[a] && out@[b] == old_out[b]);
                } else if b == p {
                    assert(out@[a] == old_out[a]);
                } else if a < p {
                    assert(out@[a] == old_out[a] && out@[b] == old_out[b - 1]);
                } else if a == p {
                    assert(out@[b] == old_out[b - 1]);
                    if b - 1 > p {
                        lemma_text_before(ss, i as int, old_out[p as int] as int, old_out[b - 1] as int);
                    }
                } else {
                    assert(out@[a] == old_out[a - 1] && out@[b] == old_out[b - 1]);
                }
            }
            assert forall|x: usize| #[trigger] out@.contains(x) <==> x < i + 1 by {
                if out@.contains(x) {
                    let k = choose|k: int| 0 <= k < out@.len() && out@[k] == x;
                    if k < p {
                        assert(old_out[k] == x);
                        assert(old_out.contains(x));
                    } else if k > p {
                        assert(old_out[k - 1] == x);
                        assert(old_out.contains(x));
                    }
                }
                if x < i + 1 {
                    if x == i {
                        assert(out@[p as int] == x);
                    } else {
                        assert(old_out.contains(x));
                        let k = choose|k: int| 0 <= k < old_out.len() && old_out[k] == x;
                        if k < p {
                            assert(out@[k] == x);
                        } else {
                            assert(out@[k + 1] == x);
                        }
                    }
                }
            }
        }
        i = i + 1;
    }
    out
}

/// The texts of `s` in `String` order (there is only one such order).
pub open spec fn sorted_texts(s: Seq<Seq<char>>) -> Seq<Seq<char>> {
    in_order(s, choose|r: Seq<usize>| is_text_sort(s, r))
}

/// A set of paths as its file holds it: sorted, one per line.
pub open spec fn path_set_text_of(s: Seq<Seq<char>>) -> Seq<char> {
    join(sorted_texts(s), "\n"@)
}

/// A set of paths as its file holds it.
pub fn path_set_text(paths: &[String]) -> (r: String)
    ensures
        r@ == path_set_text_of(strs(paths@)),
{
    let ghost ss = strs(paths@);
    let order = sort_texts(paths);
    proof {
        assert(exists|r: Seq<usize>| is_text_sort(ss, r));
        let c = choose|r: Seq<usize>| is_text_sort(ss, r);
        lemma_text_sort_unique(ss, c, order@);
    }
    let mut parts: Vec<Vec<char>> = Vec::new();
    let mut k: usize = 0;
    while k < order.len()
        invariant
            ss == strs(paths@),
            is_text_sort(ss, order@),
            k <= order@.len(),
            views(parts@) =~= in_order(ss, order@).subrange(0, k as int),
        decreases order.len() - k,
    {
        assert(order@.contains(order@[k as int]));
        let ix = order[k];
        let ghost before = views(parts@);
        parts.push(chars_of(paths[ix].as_str()));
        assert(views(parts@) =~= before.push(ss[ix as int]));
        k = k + 1;
    }
    assert(in_order(ss, order@).subrange(0, order@.len() as int) =~= in_order(ss, order@));
    let text = join_chars(&parts, &chars_of("\n"));
    string_of(&text)
}

/// Where text `i` goes in `r`: after every entry that sorts before it.
proof fn lemma_insert_point(s: Seq<Seq<char>>, r: Seq<usize>, i: usize, p: int) -> (k: int)
    requires
        0 <= p <= r.len(),
        forall|m: int| 0 <= m < r.len() ==> #[trigger] r[m] < i,
        forall|m: int| 0 <= m < p ==> text_before(s, #[trigger] r[m] as int, i as int),
    ensures
        p <= k <= r.len(),
        forall|m: int| 0 <= m < k ==> text_before(s, #[trigger] r[m] as int, i as int),
        k < r.len() ==> text_before(s, i as int, r[k] as int),
    decreases r.len() - p,
{
    if p == r.len() {
        p
    } else if text_before(s, i as int, r[p] as int) {
        p
    } else {
        lemma_text_before(s, i as int, r[p] as int, i as int);
        assert(r[p] < i);
        lemma_insert_point(s, r, i, p + 1)
    }
}

/// The first `n` texts of `s` have an order that sorts them.
proof fn lemma_text_sort_prefix(s: Seq<Seq<char>>, n: int) -> (r: Seq<usize>)
    requires
        0 <= n <= s.len(),
        n <= usize::MAX,
    ensures
        forall|x: usize| #[trigger] r.contains(x) <==> x < n,
        forall|a: int, b: int|
            0 <= a < b < r.len() ==> text_before(s, #[trigger] r[a] as int, #[trigger] r[b] as int),
    decreases n,
{
    if n == 0 {
        Seq::empty()
    } else {
        let prev = lemma_text_sort_prefix(s, n - 1);
        let i = (n - 1) as usize;
        assert forall|m: int| 0 <= m < prev.len() implies #[trigger] prev[m] < i by {
            assert(prev.contains(prev[m]));
        }
        let k = lemma_insert_point(s, prev, i, 0);
        let out = prev.insert(k, i);
        assert forall|x: usize| #[trigger] out.contains(x) <==> x < n by {
            if out.contains(x) {
                let j = choose|j: int| 0 <= j < out.len() && out[j] == x;
                if j < k {
                    assert(out[j] == prev[j]);
                    assert(prev.contains(x));
                } else if j > k {
                    assert(out[j] == prev[j - 1]);
                    assert(prev.contains(x));
                }
            }
            if x < n {
                if x == i {
                    assert(out[k] == i);
                } else {
                    assert(prev.contains(x));
                    let j = choose|j: int| 0 <= j < prev.len() && prev[j] == x;
                    if j < k {
                        assert(out[j] == prev[j]);
                    } else {
                        assert(out[j + 1] == prev[j]);
                    }
                }
            }
        }
        assert forall|a: int, b: int|
            0 <= a < b < out.len() implies text_before(s, #[trigger] out[a] as int, #[trigger] out[b] as int) by {
            if b < k {
                assert(out[a] == prev[a] && out[b] == prev[b]);
            } else if b == k {
                assert(out[a] == prev[a]);
            } else if a < k {
                assert(out[a] == prev[a] && out[b] == prev[b - 1]);
            } else if a == k {
                assert(out[b] == prev[b - 1]);
                if b - 1 > k {
                    lemma_text_before(s, i as int, prev[k] as int, prev[b - 1] as int);
                }
            } else {
                assert(out[a] == prev[a - 1] && out[b] == prev[b - 1]);
            }
        }
        out
    }
}

/// Every list of texts that fits in memory has the order that sorts it.
pub proof fn lemma_text_sort_exists(s: Seq<Seq<char>>) -> (r: Seq<usize>)
    requires
        s.len() <= usize::MAX,
    ensures
        is_text_sort(s, r),
        sorted_texts(s) == in_order(s, r),
{
    let r = lemma_text_sort_prefix(s, s.len() as int);
    assert(is_text_sort(s, r));
    let c = choose|x: Seq<usize>| is_text_sort(s, x);
    lemma_text_sort_unique(s, c, r);
    r
}

/// A written list of paths is in order: no path in it sorts before one
/// written ahead of it; and every path of the set is written.
pub proof fn lemma_sorted_texts_sorted(s: Seq<Seq<char>>)
    requires
        s.len() <= usize::MAX,
    ensures
        forall|a: int, b: int|
            0 <= a < b < sorted_texts(s).len() ==> !str_lt(
                #[trigger] sorted_texts(s)[b],
                #[trigger] sorted_texts(s)[a],
            ),
        forall|i: int| 0 <= i < s.len() ==> #[trigger] sorted_texts(s).contains(s[i]),
{
    let r = lemma_text_sort_exists(s);
    assert forall|a: int, b: int| 0 <= a < b < sorted_texts(s).len() implies !str_lt(
        #[trigger] sorted_texts(s)[b],
        #[trigger] sorted_texts(s)[a],
    ) by {
        let x = r[a] as int;
        let y = r[b] as int;
        assert(text_before(s, x, y));
        lemma_str_lt_total(s[x], s[y]);
    }
    assert forall|i: int| 0 <= i < s.len() implies #[trigger] sorted_texts(s).contains(s[i]) by {
        assert(r.contains(i as usize));
        let k = choose|k: int| 0 <= k < r.len() && r[k] == i as usize;
        assert(r[k] as int == i);
        assert(sorted_texts(s)[k] == s[i]);
    }
}

// ── settings ─────────────────────────────────────────────────────────

/// What a session remembers between runs of the terminal interface.
pub struct Settings {
    pub sort_mode: String,
    pub show_hidden: bool,
    pub last_filter: String,
}

impl Default for Settings {
    /// No sort mode chosen, hidden repositories not shown, no filter.
    fn default() -> (s: Settings)
        ensures
            s.sort_mode@ == Seq::<char>::empty(),
            !s.show_hidden,
            s.last_filter@ == Seq::<char>::empty(),
    {
        Settings { sort_mode: String::new(), show_hidden: false, last_filter: String::new() }
    }
}

/// Settings as plain values: sort mode, whether hidden ones show, filter.
pub type SettingsV = (Seq<char>, bool, Seq<char>);

pub open spec fn settings_view(s: Settings) -> SettingsV {
    (s.sort_mode@, s.show_hidden, s.last_filter@)
}

/// One line of the old `key = value` settings file, taken in: blank
/// lines, `#` comments and lines without `=` change nothing, nor do
/// unknown keys; `sort_ci_first = true` chose the CI-first sort.
pub open spec fn kv_step(s: SettingsV, raw: Seq<char>) -> SettingsV {
    let line = trim(raw);
    if line.len() == 0 || line[0] == '#' {
        s
    } else {
        match split_once(line, '=') {
            None => s,
            Some((k0, v0)) => {
                let k = trim(k0);
                let v = trim(v0);
                if k == "sort_ci_first"@ {
                    if v == "true"@ {
                        ("ci_red_first"@, s.1, s.2)
                    } else {
                        s
                    }
                } else if k == "sort_mode"@ {
                    (v, s.1, s.2)
                } else if k == "show_hidden"@ {
                    (s.0, v == "true"@, s.2)
                } else if k == "last_filter"@ {
                    (s.0, s.1, v)
                } else {
                    s
                }
            },
        }
    }
}

/// The settings an old `key = value` file held, read line by line from
/// the defaults.
pub open spec fn legacy_settings_of(ls: Seq<Seq<char>>) -> SettingsV
    decreases ls.len(),
{
    if ls.len() == 0 {
        (Seq::empty(), false, Seq::empty())
    } else {
        kv_step(legacy_settings_of(ls.drop_last()), ls.last())
    }
}

fn kv_line(s: &mut Settings, raw: &Vec<char>)
    ensures
        settings_view(*final(s)) == kv_step(settings_view(*old(s)), raw@),
{
    let line = trim_chars(raw);
    if line.len() == 0 || line[0] == '#' {
        return;
    }
    match split_once_chars(&line, '=') {
        None => {},
        Some((k0, v0)) => {
            let k = trim_chars(&k0);
            let v = trim_chars(&v0);
            let is_true = chars_eq(&v, &chars_of("true"));
            if chars_eq(&k, &chars_of("sort_ci_first")) {
                if is_true {
                    s.sort_mode = string_of(&chars_of("ci_red_first"));
                }
            } else if chars_eq(&k, &chars_of("sort_mode")) {
                s.sort_mode = string_of(&v);
            } else if chars_eq(&k, &chars_of("show_hidden")) {
                s.show_hidden = is_true;
            } else if chars_eq(&k, &chars_of("last_filter")) {
                s.last_filter = string_of(&v);
            }
        },
    }
}

/// The settings an old `key = value` file held.
pub fn parse_legacy_kv(content: &str) -> (s: Settings)
    ensures
        settings_view(s) == legacy_settings_of(lines(content@)),
{
    let mut s = Settings::default();
    let ls = lines_of(&chars_of(content));
    let ghost all = lines(content@);
    let mut i: usize = 0;
    assert(all.subrange(0, 0) =~= Seq::<Seq<char>>::empty());
    while i < ls.len()
        invariant
            views(ls@) == all,
            i <= ls@.len(),
            settings_view(s) == legacy_settings_of(all.subrange(0, i as int)),
        decreases ls.len() - i,
    {
        let ghost pre = all.subrange(0, i as int);
        let ghost next = all.subrange(0, i + 1);
        assert(next.drop_last() =~= pre);
        assert(next.last() == ls@[i as int]@);
        kv_line(&mut s, &ls[i]);
        i = i + 1;
    }
    assert(all.subrange(0, ls@.len() as int) =~= all);
    s
}

} // verus!
