//! What `gh` and `git remote` tell us about a repository, read.
//!
//! Running `gh` and `git` can fail on a machine with no `gh`, no network
//! or no GitHub remote, so every reading here returns an `Option`, never
//! an error to surface. The commands themselves are run around this
//! module; it reads what they print.

use vstd::prelude::*;
use crate::model::{CiInfo, CiState, PrInfo};
use crate::text::{
    append_chars, chars_of, lines, lines_of, parse_u64, parse_unsigned, parse_usize, split_chars,
    split_once, split_once_chars, split_seq, str_eq, strip_prefix, strip_prefix_chars, string_of,
    trim, trim_chars, trim_str, views, without_suffix, without_suffix_chars,
};

verus! {

// ── CI ───────────────────────────────────────────────────────────────

/// What a run's status and conclusion mean: only a completed run that
/// succeeded is green; a completed run that failed, was cancelled, timed
/// out or failed to start is red; a run that is queued, waiting,
/// requested or in progress is running; anything else is unknown.
pub open spec fn ci_state_of(status: Seq<char>, conclusion: Seq<char>) -> CiState {
    if status == "completed"@ && conclusion == "success"@ {
        CiState::Success
    } else if status == "completed"@ && (conclusion == "failure"@ || conclusion == "cancelled"@
        || conclusion == "timed_out"@ || conclusion == "startup_failure"@) {
        CiState::Failure
    } else if status == "in_progress"@ || status == "queued"@ || status == "waiting"@ || status
        == "requested"@ {
        CiState::Running
    } else {
        CiState::Unknown
    }
}

/// What a run's status and conclusion mean; every pair means something.
pub fn ci_state_from(status: &str, conclusion: &str) -> (r: Option<CiState>)
    ensures
        r == Some(ci_state_of(status@, conclusion@)),
{
    let completed = str_eq(status, "completed");
    if completed && str_eq(conclusion, "success") {
        Some(CiState::Success)
    } else if completed && (str_eq(conclusion, "failure") || str_eq(conclusion, "cancelled")
        || str_eq(conclusion, "timed_out") || str_eq(conclusion, "startup_failure")) {
        Some(CiState::Failure)
    } else if str_eq(status, "in_progress") || str_eq(status, "queued") || str_eq(
        status,
        "waiting",
    ) || str_eq(status, "requested") {
        Some(CiState::Running)
    } else {
        Some(CiState::Unknown)
    }
}

/// Green only when the run completed and succeeded: a conclusion den
/// does not model is never quietly green.
pub proof fn lemma_green_only_on_success(status: Seq<char>, conclusion: Seq<char>)
    ensures
        ci_state_of(status, conclusion) == CiState::Success ==> status == "completed"@
            && conclusion == "success"@,
{
}

/// A completed run reads as failed exactly when its conclusion is one of
/// failure, cancelled, timed_out or startup_failure.
pub proof fn lemma_failed_runs_read_as_failure(status: Seq<char>, conclusion: Seq<char>)
    ensures
        ci_state_of(status, conclusion) == CiState::Failure <==> status == "completed"@ && (
        conclusion == "failure"@ || conclusion == "cancelled"@ || conclusion == "timed_out"@
            || conclusion == "startup_failure"@),
{
    reveal_strlit("success");
    reveal_strlit("failure");
    reveal_strlit("cancelled");
    reveal_strlit("timed_out");
    reveal_strlit("startup_failure");
    reveal_strlit("completed");
    if conclusion == "failure"@ {
        assert(conclusion[0] != "success"@[0]);
    }
    if conclusion == "cancelled"@ {
        assert(conclusion.len() != "success"@.len());
    }
    if conclusion == "timed_out"@ {
        assert(conclusion.len() != "success"@.len());
    }
    if conclusion == "startup_failure"@ {
        assert(conclusion.len() != "success"@.len());
    }
}

/// The run id at the end of a run's URL: what follows its last `/`.
pub open spec fn run_id_of(url: Seq<char>) -> Seq<char> {
    split_seq(url, '/').last()
}

/// The run id at the end of a run's URL: what follows its last `/`
/// (the whole URL when it has none). There is always one.
pub fn run_id_from_url(url: &str) -> (r: Option<String>)
    ensures
        r matches Some(id) && id@ == run_id_of(url@),
{
    let cs = chars_of(url);
    let pieces = split_chars(&cs, '/');
    let last = &pieces[pieces.len() - 1];
    assert(views(pieces@).last() == last@);
    Some(string_of(last))
}

/// Up to four tab-separated fields: the first three split off at the
/// first tabs, the fourth whatever is left (`str::splitn(4, '\t')`, when
/// it gives four parts).
pub open spec fn four_fields(s: Seq<char>) -> Option<(Seq<char>, Seq<char>, Seq<char>, Seq<char>)> {
    match split_once(s, '\t') {
        Some((a, r1)) => match split_once(r1, '\t') {
            Some((b, r2)) => match split_once(r2, '\t') {
                Some((c, d)) => Some((a, b, c, d)),
                None => None,
            },
            None => None,
        },
        None => None,
    }
}

fn four_fields_of(s: &[char]) -> (r: Option<(Vec<char>, Vec<char>, Vec<char>, Vec<char>)>)
    ensures
        r matches Some(f) ==> four_fields(s@) == Some((f.0@, f.1@, f.2@, f.3@)),
        r is None ==> four_fields(s@) is None,
{
    match split_once_chars(s, '\t') {
        Some((a, r1)) => match split_once_chars(&r1, '\t') {
            Some((b, r2)) => match split_once_chars(&r2, '\t') {
                Some((c, d)) => Some((a, b, c, d)),
                None => None,
            },
            None => None,
        },
        None => None,
    }
}

/// The latest run as `gh run list --json status,conclusion,name,url`
/// prints it, one tab-separated line: nothing when the trimmed output is
/// empty or has fewer than four fields; otherwise the run's state, name
/// and URL (the failed step is looked up separately).
pub open spec fn ci_of_run_list(out: Seq<char>) -> Option<(CiState, Seq<char>, Seq<char>)> {
    let s = trim(out);
    if s.len() == 0 {
        None
    } else {
        match four_fields(s) {
            Some((status, conclusion, name, url)) => Some(
                (ci_state_of(status, conclusion), name, url),
            ),
            None => None,
        }
    }
}

/// Read the latest CI run out of `gh run list` output. The failed step is
/// left empty: finding it takes another call, made only for a failure.
pub fn ci_from_run_list(out: &str) -> (r: Option<CiInfo>)
    ensures
        r matches Some(info) ==> ci_of_run_list(out@) == Some((info.state, info.name@, info.url@))
            && info.failed_step is None,
        r is None ==> ci_of_run_list(out@) is None,
{
    let s = trim_str(out);
    if s.len() == 0 {
        return None;
    }
    match four_fields_of(&s) {
        Some((status, conclusion, name, url)) => {
            let st = string_of(&status);
            let co = string_of(&conclusion);
            match ci_state_from(st.as_str(), co.as_str()) {
                Some(state) => Some(
                    CiInfo {
                        state,
                        name: string_of(&name),
                        url: string_of(&url),
                        failed_step: None,
                    },
                ),
                None => None,
            }
        },
        None => None,
    }
}

/// The trimmed output of a command, unless it is empty.
pub open spec fn nonempty_trimmed(out: Seq<char>) -> Option<Seq<char>> {
    if trim(out).len() == 0 {
        None
    } else {
        Some(trim(out))
    }
}

/// The trimmed output of a command, unless it is empty: how the failed
/// step of a run (`gh run view`) and the current commit (`git rev-parse
/// HEAD`) are read.
pub fn output_line(out: &str) -> (r: Option<String>)
    ensures
        r matches Some(s) ==> nonempty_trimmed(out@) == Some(s@),
        r is None ==> nonempty_trimmed(out@) is None,
{
    let s = trim_str(out);
    if s.len() == 0 {
        None
    } else {
        Some(string_of(&s))
    }
}

// ── remotes ──────────────────────────────────────────────────────────

/// `owner/repo` of a GitHub remote URL (trimmed first) in any of its
/// three spellings, without a trailing `.git`.
pub open spec fn owner_repo_of(remote: Seq<char>) -> Option<Seq<char>> {
    let url = trim(remote);
    match strip_prefix(url, "git@github.com:"@) {
        Some(rest) => Some(without_suffix(rest, ".git"@)),
        None => match strip_prefix(url, "https://github.com/"@) {
            Some(rest) => Some(without_suffix(rest, ".git"@)),
            None => match strip_prefix(url, "ssh://git@github.com/"@) {
                Some(rest) => Some(without_suffix(rest, ".git"@)),
                None => None,
            },
        },
    }
}

proof fn lemma_spelling(p: Seq<char>, q1: Seq<char>, q2: Seq<char>, x: Seq<char>)
    requires
        p.len() > 0,
        !crate::text::is_ws(p[0]),
        q1.len() > 0 && q1[0] != p[0],
        q2.len() > 0 && q2[0] != p[0],
    ensures
        trim(p + x + ".git"@) == p + x + ".git"@,
        strip_prefix(p + x + ".git"@, p) == Some(x + ".git"@),
        strip_prefix(p + x + ".git"@, q1) is None,
        strip_prefix(p + x + ".git"@, q2) is None,
        without_suffix(x + ".git"@, ".git"@) == x,
{
    reveal_strlit(".git");
    let u = p + x + ".git"@;
    assert(u[0] == p[0]);
    assert(u.last() == 't');
    assert(crate::text::trim_start(u) == u);
    assert(crate::text::trim_end(u) == u);
    assert(u.subrange(0, p.len() as int) =~= p);
    assert(u.subrange(p.len() as int, u.len() as int) =~= x + ".git"@);
    if q1.is_prefix_of(u) {
        assert(u.subrange(0, q1.len() as int)[0] == u[0]);
    }
    if q2.is_prefix_of(u) {
        assert(u.subrange(0, q2.len() as int)[0] == u[0]);
    }
    let w = x + ".git"@;
    assert(w.subrange(w.len() - 4, w.len() as int) =~= ".git"@);
    assert(w.subrange(0, w.len() - 4) =~= x);
}

/// The scp, https and ssh spellings of one GitHub repository name the
/// same `owner/repo`, without the `.git` that ends them.
pub proof fn lemma_remote_spellings_agree(x: Seq<char>)
    ensures
        owner_repo_of("git@github.com:"@ + x + ".git"@) == Some(x),
        owner_repo_of("https://github.com/"@ + x + ".git"@) == Some(x),
        owner_repo_of("ssh://git@github.com/"@ + x + ".git"@) == Some(x),
{
    reveal_strlit("git@github.com:");
    reveal_strlit("https://github.com/");
    reveal_strlit("ssh://git@github.com/");
    let a = "git@github.com:"@;
    let b = "https://github.com/"@;
    let c = "ssh://git@github.com/"@;
    lemma_spelling(a, b, c, x);
    lemma_spelling(b, a, c, x);
    lemma_spelling(c, a, b, x);
}

/// `owner/repo` of a GitHub remote, as `git remote get-url origin` prints it.
pub fn github_owner_repo(remote: &str) -> (r: Option<String>)
    ensures
        r matches Some(s) ==> owner_repo_of(remote@) == Some(s@),
        r is None ==> owner_repo_of(remote@) is None,
{
    let url = trim_str(remote);
    let git = chars_of(".git");
    let p1 = chars_of("git@github.com:");
    if let Some(rest) = strip_prefix_chars(&url, &p1) {
        return Some(string_of(&without_suffix_chars(&rest, &git)));
    }
    let p2 = chars_of("https://github.com/");
    if let Some(rest) = strip_prefix_chars(&url, &p2) {
        return Some(string_of(&without_suffix_chars(&rest, &git)));
    }
    let p3 = chars_of("ssh://git@github.com/");
    if let Some(rest) = strip_prefix_chars(&url, &p3) {
        return Some(string_of(&without_suffix_chars(&rest, &git)));
    }
    None
}

/// `str::replacen(c, ":", 1)`: the first `c` becomes `:`.
pub open spec fn replace_first(s: Seq<char>, c: char) -> Seq<char> {
    match split_once(s, c) {
        Some((a, b)) => a + seq![':'] + b,
        None => s,
    }
}

/// `https://host/path` from a host and a path.
pub open spec fn https_url(host: Seq<char>, path: Seq<char>) -> Seq<char> {
    "https://"@ + host + seq!['/'] + path
}

/// A browsable URL for a remote: an `https://` remote without its
/// `.git`; a `git@host:path` remote as `https://host/path`; a
/// `ssh://git@host/path` remote likewise. Anything else has none.
pub open spec fn https_of(remote: Seq<char>) -> Option<Seq<char>> {
    let url = trim(remote);
    match strip_prefix(url, "https://"@) {
        Some(rest) => Some("https://"@ + without_suffix(rest, ".git"@)),
        None => {
            let scp = match strip_prefix(url, "git@"@) {
                Some(rest) => match split_once(rest, ':') {
                    Some((host, path)) => Some(https_url(host, without_suffix(path, ".git"@))),
                    None => None,
                },
                None => None,
            };
            match scp {
                Some(u) => Some(u),
                None => match strip_prefix(url, "ssh://git@"@) {
                    Some(rest) => match split_once(
                        replace_first(without_suffix(rest, ".git"@), '/'),
                        ':',
                    ) {
                        Some((host, path)) => Some(https_url(host, path)),
                        None => None,
                    },
                    None => None,
                },
            }
        },
    }
}

fn https_url_chars(host: &[char], path: &[char]) -> (r: Vec<char>)
    ensures
        r@ == https_url(host@, path@),
{
    let mut out = chars_of("https://");
    append_chars(&mut out, host);
    out.push('/');
    append_chars(&mut out, path);
    assert(out@ =~= https_url(host@, path@));
    out
}

fn replace_first_chars(s: &[char], c: char) -> (r: Vec<char>)
    ensures
        r@ == replace_first(s@, c),
{
    match split_once_chars(s, c) {
        Some((a, b)) => {
            let mut out = a;
            out.push(':');
            append_chars(&mut out, &b);
            out
        },
        None => {
            let mut out: Vec<char> = Vec::new();
            append_chars(&mut out, s);
            assert(out@ =~= s@);
            out
        },
    }
}

/// A browsable URL for a git remote, when it has one.
pub fn git_remote_to_https(url: &str) -> (r: Option<String>)
    ensures
        r matches Some(s) ==> https_of(url@) == Some(s@),
        r is None ==> https_of(url@) is None,
{
    let u = trim_str(url);
    let git = chars_of(".git");
    let https = chars_of("https://");
    if let Some(rest) = strip_prefix_chars(&u, &https) {
        let mut out = chars_of("https://");
        append_chars(&mut out, &without_suffix_chars(&rest, &git));
        return Some(string_of(&out));
    }
    let at = chars_of("git@");
    if let Some(rest) = strip_prefix_chars(&u, &at) {
        if let Some((host, path)) = split_once_chars(&rest, ':') {
            let path = without_suffix_chars(&path, &git);
            return Some(string_of(&https_url_chars(&host, &path)));
        }
    }
    let ssh = chars_of("ssh://git@");
    if let Some(rest) = strip_prefix_chars(&u, &ssh) {
        let rest = without_suffix_chars(&rest, &git);
        let normalized = replace_first_chars(&rest, '/');
        if let Some((host, path)) = split_once_chars(&normalized, ':') {
            return Some(string_of(&https_url_chars(&host, &path)));
        }
    }
    None
}

/// A remote that cannot be browsed stays unbrowsable rather than guessed
/// at: whatever URL comes out is an `https://` one.
pub proof fn lemma_https_of_is_https(remote: Seq<char>)
    ensures
        https_of(remote) matches Some(u) ==> "https://"@.is_prefix_of(u),
{
    if let Some(u) = https_of(remote) {
        assert(u.subrange(0, "https://"@.len() as int) =~= "https://"@);
    }
}

/// The page of a repository's GitHub Actions, for the branch when there is one.
pub open spec fn actions_url_of(owner_repo: Seq<char>, branch: Option<Seq<char>>) -> Seq<char> {
    match branch {
        Some(b) => "https://github.com/"@ + owner_repo + "/actions?query=branch%3A"@ + b,
        None => "https://github.com/"@ + owner_repo + "/actions"@,
    }
}

pub fn actions_url(owner_repo: &str, branch: Option<&str>) -> (r: String)
    ensures
        r@ == actions_url_of(
            owner_repo@,
            match branch {
                Some(b) => Some(b@),
                None => None,
            },
        ),
{
    let mut out = chars_of("https://github.com/");
    append_chars(&mut out, &chars_of(owner_repo));
    match branch {
        Some(b) => {
            append_chars(&mut out, &chars_of("/actions?query=branch%3A"));
            append_chars(&mut out, &chars_of(b));
        },
        None => {
            append_chars(&mut out, &chars_of("/actions"));
        },
    }
    string_of(&out)
}

// ── pull requests ────────────────────────────────────────────────────

/// The date part of an ISO-8601 timestamp: what comes before its first `T`.
pub open spec fn relative_age_of(iso: Seq<char>) -> Seq<char> {
    split_seq(iso, 'T')[0]
}

pub fn relative_age(iso: &str) -> (r: String)
    ensures
        r@ == relative_age_of(iso@),
{
    let cs = chars_of(iso);
    let pieces = split_chars(&cs, 'T');
    assert(views(pieces@)[0] == pieces@[0]@);
    string_of(&pieces[0])
}

/// One pull request as `gh pr list --json number,title,url,createdAt`
/// prints it, tab-separated: a line with fewer than four fields is
/// skipped; the number reads as 0 when it is not one.
pub open spec fn pr_of_line(line: Seq<char>) -> Option<(u64, Seq<char>, Seq<char>, Seq<char>)> {
    match four_fields(line) {
        Some((num, title, url, created)) => Some(
            (
                match parse_unsigned(num, u64::MAX as nat) {
                    Some(v) => v as u64,
                    None => 0,
                },
                title,
                url,
                relative_age_of(created),
            ),
        ),
        None => None,
    }
}

/// The pull requests read from the lines of `ls`, in order.
pub open spec fn prs_of_lines(ls: Seq<Seq<char>>) -> Seq<(u64, Seq<char>, Seq<char>, Seq<char>)>
    decreases ls.len(),
{
    if ls.len() == 0 {
        Seq::empty()
    } else {
        let prev = prs_of_lines(ls.drop_last());
        match pr_of_line(ls.last()) {
            Some(p) => prev.push(p),
            None => prev,
        }
    }
}

/// What den keeps of a pull request, as plain values.
pub open spec fn pr_view(p: PrInfo) -> (u64, Seq<char>, Seq<char>, Seq<char>) {
    (p.number, p.title@, p.url@, p.age@)
}

/// Read the open pull requests out of `gh pr list` output.
pub fn prs_from_list(out: &str) -> (r: Vec<PrInfo>)
    ensures
        r@.len() == prs_of_lines(lines(out@)).len(),
        forall|k: int| 0 <= k < r@.len() ==> pr_view(#[trigger] r@[k]) == prs_of_lines(lines(out@))[k],
{
    let cs = chars_of(out);
    let ls = lines_of(&cs);
    let ghost all = lines(out@);
    let mut prs: Vec<PrInfo> = Vec::new();
    let mut i: usize = 0;
    assert(all.subrange(0, 0) =~= Seq::<Seq<char>>::empty());
    while i < ls.len()
        invariant
            views(ls@) == all,
            i <= ls@.len(),
            prs@.len() == prs_of_lines(all.subrange(0, i as int)).len(),
            forall|k: int|
                0 <= k < prs@.len() ==> pr_view(#[trigger] prs@[k]) == prs_of_lines(
                    all.subrange(0, i as int),
                )[k],
        decreases ls.len() - i,
    {
        let ghost pre = all.subrange(0, i as int);
        let ghost next = all.subrange(0, i + 1);
        assert(next.drop_last() =~= pre);
        assert(next.last() == ls@[i as int]@);
        if let Some((num, title, url, created)) = four_fields_of(&ls[i]) {
            let number = match parse_u64(&num) {
                Some(v) => v,
                None => 0,
            };
            let created_s = string_of(&created);
            let pr = PrInfo {
                number,
                title: string_of(&title),
                url: string_of(&url),
                age: relative_age(created_s.as_str()),
            };
            let ghost before = prs@;
            prs.push(pr);
            assert forall|k: int|
                0 <= k < prs@.len() implies pr_view(#[trigger] prs@[k]) == prs_of_lines(next)[k] by {
                if k < before.len() {
                    assert(prs@[k] == before[k]);
                }
            }
        }
        i = i + 1;
    }
    assert(all.subrange(0, ls@.len() as int) =~= all);
    prs
}

/// How many open pull requests `gh pr list --json number -q length`
/// reports: its trimmed output as a number, when it is one.
pub open spec fn pr_count_of(out: Seq<char>) -> Option<usize> {
    match parse_unsigned(trim(out), usize::MAX as nat) {
        Some(v) => Some(v as usize),
        None => None,
    }
}

pub fn pr_count(out: &str) -> (r: Option<usize>)
    ensures
        r == pr_count_of(out@),
{
    let t = trim_str(out);
    parse_usize(&t)
}

} // verus!
