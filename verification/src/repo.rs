//! One repository's state, and how it is read from what git reports.

use vstd::prelude::*;
use crate::paths::{file_name, file_name_of};
use crate::text::{
    chars_of, lines, lines_of, parse_u64, parse_unsigned, parse_usize, slice_chars, split_once,
    split_once_chars, string_of, trim, trim_chars,
};

verus! {

/// What a scan knows about one repository.
#[derive(Debug, Clone)]
pub struct RepoStatus {
    pub path: String,
    pub name: String,
    pub branch: Option<String>,
    pub upstream: Option<String>,
    pub ahead: usize,
    pub behind: usize,
    pub staged: usize,
    pub modified: usize,
    pub untracked: usize,
    pub conflicted: usize,
    pub stashed: usize,
    pub last_commit: Option<CommitInfo>,
    pub latest_tag: Option<TagInfo>,
    pub error: Option<String>,
}

/// The commit `HEAD` points at. `time` is in seconds since the Unix epoch.
#[derive(Debug, Clone)]
pub struct CommitInfo {
    pub short_sha: String,
    pub summary: String,
    pub time: u64,
}

/// The newest tag, and how far `HEAD` has moved past it. `time` is in
/// seconds since the Unix epoch.
#[derive(Debug, Clone)]
pub struct TagInfo {
    pub name: String,
    pub commits_since: usize,
    pub time: u64,
}

/// Nothing staged, modified, untracked or conflicted, and no error reading it.
pub open spec fn spec_is_clean(r: RepoStatus) -> bool {
    r.error is None && r.staged == 0 && r.modified == 0 && r.untracked == 0 && r.conflicted == 0
}

/// Some file is in conflict.
pub open spec fn spec_has_conflict(r: RepoStatus) -> bool {
    r.conflicted > 0
}

/// A repository with no commit and no branch yet, read without error.
pub open spec fn spec_is_uninitialized(r: RepoStatus) -> bool {
    r.error is None && r.last_commit is None && r.branch is None
}

impl RepoStatus {
    pub fn is_clean(&self) -> (r: bool)
        ensures
            r == spec_is_clean(*self),
    {
        self.error.is_none() && self.staged == 0 && self.modified == 0 && self.untracked == 0
            && self.conflicted == 0
    }

    pub fn has_conflict(&self) -> (r: bool)
        ensures
            r == spec_has_conflict(*self),
    {
        self.conflicted > 0
    }

    pub fn is_uninitialized(&self) -> (r: bool)
        ensures
            r == spec_is_uninitialized(*self),
    {
        self.error.is_none() && self.last_commit.is_none() && self.branch.is_none()
    }
}

/// An exact copy of an optional string.
pub(crate) fn copy_opt_string(o: &Option<String>) -> (r: Option<String>)
    ensures
        r == *o,
{
    match o {
        Some(s) => Some(s.clone()),
        None => None,
    }
}

impl CommitInfo {
    pub(crate) fn duplicate(&self) -> (r: CommitInfo)
        ensures
            r == *self,
    {
        CommitInfo { short_sha: self.short_sha.clone(), summary: self.summary.clone(), time: self.time }
    }
}

impl TagInfo {
    pub(crate) fn duplicate(&self) -> (r: TagInfo)
        ensures
            r == *self,
    {
        TagInfo { name: self.name.clone(), commits_since: self.commits_since, time: self.time }
    }
}

impl RepoStatus {
    /// An exact copy.
    pub(crate) fn duplicate(&self) -> (r: RepoStatus)
        ensures
            r == *self,
    {
        RepoStatus {
            path: self.path.clone(),
            name: self.name.clone(),
            branch: copy_opt_string(&self.branch),
            upstream: copy_opt_string(&self.upstream),
            ahead: self.ahead,
            behind: self.behind,
            staged: self.staged,
            modified: self.modified,
            untracked: self.untracked,
            conflicted: self.conflicted,
            stashed: self.stashed,
            last_commit: match &self.last_commit {
                Some(c) => Some(c.duplicate()),
                None => None,
            },
            latest_tag: match &self.latest_tag {
                Some(t) => Some(t.duplicate()),
                None => None,
            },
            error: copy_opt_string(&self.error),
        }
    }
}

// ── reading what git reports ─────────────────────────────────────────

/// The name a repository is shown by: the last component of its path,
/// or `?` when the path ends in none.
pub open spec fn repo_name_of(path: Seq<char>) -> Seq<char> {
    match file_name(path) {
        Some(n) => n,
        None => "?"@,
    }
}

pub fn repo_name(path: &str) -> (r: String)
    ensures
        r@ == repo_name_of(path@),
{
    match file_name_of(path) {
        Some(n) => string_of(&n),
        None => "?".to_string(),
    }
}

/// How `HEAD` reads as a branch: its short name when it is on a branch,
/// the short name in brackets when it is detached.
pub open spec fn branch_label_of(is_branch: bool, shorthand: Seq<char>) -> Seq<char> {
    if is_branch {
        shorthand
    } else {
        seq!['('] + shorthand + seq![')']
    }
}

pub fn branch_label(is_branch: bool, shorthand: &str) -> (r: String)
    ensures
        r@ == branch_label_of(is_branch, shorthand@),
{
    let s = chars_of(shorthand);
    if is_branch {
        return string_of(&s);
    }
    let mut out: Vec<char> = Vec::new();
    out.push('(');
    let mut i: usize = 0;
    while i < s.len()
        invariant
            i <= s@.len(),
            out@ == seq!['('] + s@.subrange(0, i as int),
        decreases s.len() - i,
    {
        out.push(s[i]);
        i = i + 1;
        assert(out@ =~= seq!['('] + s@.subrange(0, i as int));
    }
    out.push(')');
    assert(out@ =~= seq!['('] + s@ + seq![')']);
    string_of(&out)
}

/// The first seven characters of a commit id, or all of it when shorter.
pub open spec fn short_sha_of(id: Seq<char>) -> Seq<char> {
    if id.len() <= 7 {
        id
    } else {
        id.subrange(0, 7)
    }
}

pub fn short_sha(id: &str) -> (r: String)
    ensures
        r@ == short_sha_of(id@),
{
    let s = chars_of(id);
    let n = if s.len() <= 7 {
        s.len()
    } else {
        7
    };
    let out = slice_chars(&s, 0, n);
    proof {
        if s@.len() <= 7 {
            assert(out@ =~= s@);
        }
    }
    string_of(&out)
}

/// A commit time as den keeps it: seconds since the epoch, with times
/// before the epoch read as the epoch.
pub fn commit_secs(seconds: i64) -> (r: u64)
    ensures
        r == (if seconds < 0 {
            0
        } else {
            seconds
        }),
{
    if seconds < 0 {
        0
    } else {
        seconds as u64
    }
}

/// What git says of one path in the working tree and the index.
#[derive(Debug, Clone, Copy)]
pub struct EntryFlags {
    pub conflicted: bool,
    pub index_new: bool,
    pub index_modified: bool,
    pub index_deleted: bool,
    pub index_renamed: bool,
    pub index_typechange: bool,
    pub wt_new: bool,
    pub wt_modified: bool,
    pub wt_deleted: bool,
    pub wt_renamed: bool,
    pub wt_typechange: bool,
}

/// How many paths are in each state.
#[derive(Debug, Clone, Copy, PartialEq, Eq, Structural)]
pub struct Tally {
    pub conflicted: usize,
    pub staged: usize,
    pub modified: usize,
    pub untracked: usize,
}

/// A path in conflict counts only as that.
pub open spec fn counts_conflicted(e: EntryFlags) -> bool {
    e.conflicted
}

/// Changed in the index, and not in conflict.
pub open spec fn counts_staged(e: EntryFlags) -> bool {
    !e.conflicted && (e.index_new || e.index_modified || e.index_deleted || e.index_renamed
        || e.index_typechange)
}

/// Changed in the working tree against the index, and not in conflict.
pub open spec fn counts_modified(e: EntryFlags) -> bool {
    !e.conflicted && (e.wt_modified || e.wt_deleted || e.wt_renamed || e.wt_typechange)
}

/// New in the working tree, and not in conflict.
pub open spec fn counts_untracked(e: EntryFlags) -> bool {
    !e.conflicted && e.wt_new
}

/// How many entries of `s` satisfy `p`.
pub open spec fn count_where(s: Seq<EntryFlags>, p: spec_fn(EntryFlags) -> bool) -> nat
    decreases s.len(),
{
    if s.len() == 0 {
        0
    } else {
        count_where(s.drop_last(), p) + if p(s.last()) {
            1nat
        } else {
            0nat
        }
    }
}

proof fn lemma_count_where_le(s: Seq<EntryFlags>, p: spec_fn(EntryFlags) -> bool)
    ensures
        count_where(s, p) <= s.len(),
    decreases s.len(),
{
    if s.len() > 0 {
        lemma_count_where_le(s.drop_last(), p);
    }
}

/// Each path changed in the working tree (modified, deleted, renamed or
/// retyped) and not in conflict adds one to the modified count; a path in
/// conflict adds one to the conflicted count and nothing to the others.
pub proof fn lemma_each_change_counts(s: Seq<EntryFlags>, e: EntryFlags)
    ensures
        !e.conflicted && (e.wt_modified || e.wt_deleted || e.wt_renamed || e.wt_typechange)
            ==> count_where(s.push(e), |x: EntryFlags| counts_modified(x)) == count_where(
            s,
            |x: EntryFlags| counts_modified(x),
        ) + 1,
        !e.conflicted && !(e.wt_modified || e.wt_deleted || e.wt_renamed || e.wt_typechange)
            ==> count_where(s.push(e), |x: EntryFlags| counts_modified(x)) == count_where(
            s,
            |x: EntryFlags| counts_modified(x),
        ),
        e.conflicted ==> count_where(s.push(e), |x: EntryFlags| counts_conflicted(x)) == count_where(
            s,
            |x: EntryFlags| counts_conflicted(x),
        ) + 1 && count_where(s.push(e), |x: EntryFlags| counts_modified(x)) == count_where(
            s,
            |x: EntryFlags| counts_modified(x),
        ) && count_where(s.push(e), |x: EntryFlags| counts_staged(x)) == count_where(
            s,
            |x: EntryFlags| counts_staged(x),
        ) && count_where(s.push(e), |x: EntryFlags| counts_untracked(x)) == count_where(
            s,
            |x: EntryFlags| counts_untracked(x),
        ),
{
    assert(s.push(e).drop_last() =~= s);
    assert(s.push(e).last() == e);
}

/// Count the paths of a status listing by state, the way the tiles show them.
pub fn tally(entries: &[EntryFlags]) -> (t: Tally)
    ensures
        t.conflicted == count_where(entries@, |e: EntryFlags| counts_conflicted(e)),
        t.staged == count_where(entries@, |e: EntryFlags| counts_staged(e)),
        t.modified == count_where(entries@, |e: EntryFlags| counts_modified(e)),
        t.untracked == count_where(entries@, |e: EntryFlags| counts_untracked(e)),
{
    let mut t = Tally { conflicted: 0, staged: 0, modified: 0, untracked: 0 };
    let mut i: usize = 0;
    assert(entries@.subrange(0, 0) =~= Seq::<EntryFlags>::empty());
    while i < entries.len()
        invariant
            i <= entries@.len(),
            t.conflicted == count_where(
                entries@.subrange(0, i as int),
                |e: EntryFlags| counts_conflicted(e),
            ),
            t.staged == count_where(entries@.subrange(0, i as int), |e: EntryFlags| counts_staged(e)),
            t.modified == count_where(
                entries@.subrange(0, i as int),
                |e: EntryFlags| counts_modified(e),
            ),
            t.untracked == count_where(
                entries@.subrange(0, i as int),
                |e: EntryFlags| counts_untracked(e),
            ),
        decreases entries.len() - i,
    {
        let ghost pre = entries@.subrange(0, i as int);
        let ghost next = entries@.subrange(0, i + 1);
        assert(next.drop_last() =~= pre);
        assert(next.last() == entries@[i as int]);
        proof {
            lemma_count_where_le(pre, |e: EntryFlags| counts_conflicted(e));
            lemma_count_where_le(pre, |e: EntryFlags| counts_staged(e));
            lemma_count_where_le(pre, |e: EntryFlags| counts_modified(e));
            lemma_count_where_le(pre, |e: EntryFlags| counts_untracked(e));
        }
        let e = entries[i];
        if e.conflicted {
            t.conflicted = t.conflicted + 1;
        } else {
            if e.index_new || e.index_modified || e.index_deleted || e.index_renamed
                || e.index_typechange {
                t.staged = t.staged + 1;
            }
            if e.wt_modified || e.wt_deleted || e.wt_renamed || e.wt_typechange {
                t.modified = t.modified + 1;
            }
            if e.wt_new {
                t.untracked = t.untracked + 1;
            }
        }
        i = i + 1;
    }
    assert(entries@.subrange(0, entries@.len() as int) =~= entries@);
    t
}

/// The newest tag as `git for-each-ref --format=%(refname:short)\x1f%(creatordate:unix)`
/// prints it: the first line, split at the first `\x1f`; the name is the
/// trimmed text before it and must not be empty; the time is the
/// trimmed text after it as a number of seconds, or 0 when there is none
/// or it is not one.
pub open spec fn tag_line_of(raw: Seq<char>) -> Option<(Seq<char>, u64)> {
    let ls = lines(raw);
    if ls.len() == 0 {
        None
    } else {
        let line = ls[0];
        let (first, rest) = match split_once(line, '\u{1f}') {
            Some((a, b)) => (a, Some(b)),
            None => (line, None),
        };
        let name = trim(first);
        if name.len() == 0 {
            None
        } else {
            let secs: u64 = match rest {
                Some(b) => match parse_unsigned(trim(b), u64::MAX as nat) {
                    Some(v) => v as u64,
                    None => 0,
                },
                None => 0,
            };
            Some((name, secs))
        }
    }
}

/// Read the newest tag out of `git for-each-ref` output.
pub fn tag_line(raw: &str) -> (r: Option<(String, u64)>)
    ensures
        r matches Some(p) ==> tag_line_of(raw@) == Some((p.0@, p.1)),
        r is None ==> tag_line_of(raw@) is None,
{
    let cs = chars_of(raw);
    let ls = lines_of(&cs);
    if ls.len() == 0 {
        return None;
    }
    let ghost line = lines(raw@)[0];
    assert(ls@[0]@ == line);
    let (first, rest) = match split_once_chars(&ls[0], '\u{1f}') {
        Some((a, b)) => (a, Some(b)),
        None => (slice_chars(&ls[0], 0, ls[0].len()), None),
    };
    proof {
        if split_once(line, '\u{1f}') is None {
            assert(first@ =~= line);
        }
    }
    let name = trim_chars(&first);
    if name.len() == 0 {
        return None;
    }
    let secs: u64 = match rest {
        Some(b) => {
            let tb = trim_chars(&b);
            match parse_u64(&tb) {
                Some(v) => v,
                None => 0,
            }
        },
        None => 0,
    };
    Some((string_of(&name), secs))
}

/// A count as `git rev-list --count` prints it: the trimmed output as a
/// number, or 0 when it is not one.
pub open spec fn count_of(out: Seq<char>) -> usize {
    match parse_unsigned(trim(out), usize::MAX as nat) {
        Some(v) => v as usize,
        None => 0,
    }
}

pub fn count_from(out: &str) -> (r: usize)
    ensures
        r == count_of(out@),
{
    let cs = chars_of(out);
    let t = trim_chars(&cs);
    match parse_usize(&t) {
        Some(v) => v,
        None => 0,
    }
}

// ── one repository's state, put together ─────────────────────────────

/// The commit `HEAD` points at, as libgit2 reports it.
#[derive(Debug, Clone)]
pub struct HeadCommit {
    pub id: String,
    pub summary: String,
    pub seconds: i64,
}

/// Everything read from one repository, as plain values.
///
/// `open_error` is the message when the repository could not be opened;
/// nothing else is read then. `shorthand` is whether `HEAD` is a branch
/// and its short name, when `HEAD` could be read and has one. `upstream`
/// and `ahead_behind` are read only for a branch.
#[derive(Debug, Clone)]
pub struct GitFacts {
    pub open_error: Option<String>,
    pub shorthand: Option<(bool, String)>,
    pub commit: Option<HeadCommit>,
    pub upstream: Option<String>,
    pub ahead_behind: Option<(usize, usize)>,
    pub entries: Vec<EntryFlags>,
    pub stashed: usize,
    pub latest_tag: Option<TagInfo>,
}

/// The branch a scan shows: the short name of `HEAD`, in brackets when
/// `HEAD` is detached.
pub open spec fn facts_branch(f: GitFacts) -> Option<Seq<char>> {
    match f.shorthand {
        Some((is_branch, s)) => Some(branch_label_of(is_branch, s@)),
        None => None,
    }
}

/// The last commit a scan shows, when `HEAD` reaches one.
pub open spec fn facts_commit_matches(f: GitFacts, c: Option<CommitInfo>) -> bool {
    match f.commit {
        Some(h) => c matches Some(ci) && ci.short_sha@ == short_sha_of(h.id@) && ci.summary@
            == h.summary@ && ci.time == (if h.seconds < 0 {
            0
        } else {
            h.seconds
        }),
        None => c is None,
    }
}

/// The state of one repository, from what was read of it: the error
/// alone when it could not be opened; otherwise the branch, the upstream
/// and how far apart they are (for a branch only), the tally of its
/// changes, its stashes and its newest tag.
pub fn status_from(path: &str, facts: GitFacts) -> (r: RepoStatus)
    ensures
        r.path@ == path@,
        r.name@ == repo_name_of(path@),
        r.stashed == (if facts.open_error is Some {
            0
        } else {
            facts.stashed
        }),
        facts.open_error matches Some(m) ==> {
            &&& r.error matches Some(e) && e@ == "open: "@ + m@
            &&& r.branch is None && r.upstream is None && r.last_commit is None && r.latest_tag is None
            &&& r.ahead == 0 && r.behind == 0
            &&& r.staged == 0 && r.modified == 0 && r.untracked == 0 && r.conflicted == 0
        },
        facts.open_error is None ==> {
            &&& r.error is None
            &&& crate::tui::opt_text(r.branch) == facts_branch(facts)
            &&& facts_commit_matches(facts, r.last_commit)
            &&& (facts_branch(facts) is Some ==> crate::tui::opt_text(r.upstream)
                == crate::tui::opt_text(facts.upstream))
            &&& (facts_branch(facts) is None ==> r.upstream is None)
            &&& (facts_branch(facts) is Some && facts.ahead_behind is Some ==> r.ahead
                == facts.ahead_behind.unwrap().0 && r.behind == facts.ahead_behind.unwrap().1)
            &&& (facts_branch(facts) is None || facts.ahead_behind is None ==> r.ahead == 0
                && r.behind == 0)
            &&& r.conflicted == count_where(facts.entries@, |e: EntryFlags| counts_conflicted(e))
            &&& r.staged == count_where(facts.entries@, |e: EntryFlags| counts_staged(e))
            &&& r.modified == count_where(facts.entries@, |e: EntryFlags| counts_modified(e))
            &&& r.untracked == count_where(facts.entries@, |e: EntryFlags| counts_untracked(e))
            &&& r.latest_tag == facts.latest_tag
        },
{
    let mut s = RepoStatus {
        path: string_of(&chars_of(path)),
        name: repo_name(path),
        branch: None,
        upstream: None,
        ahead: 0,
        behind: 0,
        staged: 0,
        modified: 0,
        untracked: 0,
        conflicted: 0,
        stashed: 0,
        last_commit: None,
        latest_tag: None,
        error: None,
    };
    if let Some(m) = &facts.open_error {
        let e = crate::tui::concat("open: ", m.as_str());
        s.error = Some(e);
        return s;
    }
    if let Some((is_branch, name)) = &facts.shorthand {
        s.branch = Some(branch_label(*is_branch, name.as_str()));
        s.upstream = copy_opt_string(&facts.upstream);
        if let Some((a, b)) = facts.ahead_behind {
            s.ahead = a;
            s.behind = b;
        }
    }
    if let Some(c) = &facts.commit {
        s.last_commit = Some(
            CommitInfo {
                short_sha: short_sha(c.id.as_str()),
                summary: string_of(&chars_of(c.summary.as_str())),
                time: commit_secs(c.seconds),
            },
        );
    }
    let t = tally(facts.entries.as_slice());
    s.conflicted = t.conflicted;
    s.staged = t.staged;
    s.modified = t.modified;
    s.untracked = t.untracked;
    s.stashed = facts.stashed;
    s.latest_tag = facts.latest_tag;
    s
}

} // verus!
