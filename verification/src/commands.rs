//! The command palette: every command the terminal interface offers, its
//! key, and the search that narrows the list as one types.

use vstd::prelude::*;
use crate::text::{chars_of, contains_chars, contains_seq, lowercase, to_lowercase, trim, trim_str};

verus! {

/// Something the terminal interface can be asked to do.
#[derive(Debug, Clone, Copy, PartialEq, Eq, Structural)]
pub enum Cmd {
    Pin,
    Hide,
    ToggleShowHidden,
    OpenEditor,
    OpenLazyGit,
    OpenShell,
    OpenGitHub,
    OpenActions,
    ToggleStash,
    ToggleSortCi,
    CopyPath,
    RefreshAll,
    FetchFocused,
    PullFocused,
    ToggleReadme,
    ToggleMarkdownMode,
    ToggleDetail,
    FocusStatus,
    FocusDiff,
    Filter,
    Quit,
}

/// One line of the palette: the command, its name, its key and what it does.
#[derive(Debug, Clone, Copy)]
pub struct CmdInfo {
    pub cmd: Cmd,
    pub name: &'static str,
    pub keys: &'static str,
    pub desc: &'static str,
}

/// A palette line as plain values: command, name, keys, description.
pub type CmdRow = (Cmd, Seq<char>, Seq<char>, Seq<char>);

pub open spec fn row_of(c: CmdInfo) -> CmdRow {
    (c.cmd, c.name@, c.keys@, c.desc@)
}

pub open spec fn rows_of(cs: Seq<CmdInfo>) -> Seq<CmdRow> {
    Seq::new(cs.len(), |i: int| row_of(cs[i]))
}

/// How many commands the palette lists.
pub open spec fn command_count() -> nat {
    21
}

/// The palette's `i`-th line, in the order it lists them.
pub open spec fn command_row(i: int) -> CmdRow {
    if i == 0 {
        (Cmd::Pin, "pin / unpin"@, "p"@, "toggle pin on the selected repo"@)
    } else if i == 1 {
        (Cmd::Hide, "hide / unhide"@, "x"@, "hide selected repo from the grid"@)
    } else if i == 2 {
        (Cmd::ToggleShowHidden, "show hidden"@, "."@, "toggle visibility of hidden repos"@)
    } else if i == 3 {
        (Cmd::OpenEditor, "open in editor"@, "e"@, "open repo in $VISUAL / $EDITOR (or VS Code)"@)
    } else if i == 4 {
        (Cmd::OpenLazyGit, "open in lazygit"@, "o"@, "launch lazygit on the repo (suspends den)"@)
    } else if i == 5 {
        (Cmd::OpenShell, "open shell at repo"@, "s"@, "drop into $SHELL in the repo (suspends den)"@)
    } else if i == 6 {
        (Cmd::OpenGitHub, "open on GitHub"@, "g"@, "open the repo's origin URL in browser"@)
    } else if i == 7 {
        (Cmd::OpenActions, "open actions"@, "A"@, "open the GitHub Actions tab in browser"@)
    } else if i == 8 {
        (Cmd::ToggleStash, "stash list"@, "S"@, "show stash entries for the focused repo"@)
    } else if i == 9 {
        (Cmd::ToggleSortCi, "sort: ci red first"@, "O"@, "toggle a leading section that surfaces CI failures"@)
    } else if i == 10 {
        (Cmd::CopyPath, "copy path"@, "y"@, "copy the repo path to clipboard"@)
    } else if i == 11 {
        (Cmd::RefreshAll, "refresh all"@, "r"@, "re-scan every repo's status"@)
    } else if i == 12 {
        (Cmd::FetchFocused, "fetch focused"@, "F"@, "git fetch the focused repo right now"@)
    } else if i == 13 {
        (Cmd::PullFocused, "pull focused"@, "P"@, "git pull --ff-only on the focused repo"@)
    } else if i == 14 {
        (Cmd::ToggleDetail, "toggle detail"@, "↵"@, "open or close the detail pane"@)
    } else if i == 15 {
        (Cmd::ToggleReadme, "readme"@, "i"@, "open the README overlay"@)
    } else if i == 16 {
        (Cmd::ToggleMarkdownMode, "toggle raw / rendered"@, "m"@, "switch markdown view mode (readme + releases)"@)
    } else if i == 17 {
        (Cmd::FocusStatus, "focus status"@, "1"@, "focus the status section in detail"@)
    } else if i == 18 {
        (Cmd::FocusDiff, "focus diff"@, "2"@, "focus the diff section in detail"@)
    } else if i == 19 {
        (Cmd::Filter, "filter by name"@, "/"@, "show only the repos whose name holds what you type"@)
    } else {
        (Cmd::Quit, "quit"@, "q"@, "exit den"@)
    }
}

/// Every palette line, in order.
pub open spec fn command_rows() -> Seq<CmdRow> {
    Seq::new(command_count(), |i: int| command_row(i))
}

/// Every command, in the order the palette lists them.
pub fn all_commands() -> (r: Vec<CmdInfo>)
    ensures
        rows_of(r@) == command_rows(),
{
    let r = vec![
        CmdInfo { cmd: Cmd::Pin, name: "pin / unpin", keys: "p", desc: "toggle pin on the selected repo" },
        CmdInfo { cmd: Cmd::Hide, name: "hide / unhide", keys: "x", desc: "hide selected repo from the grid" },
        CmdInfo {
            cmd: Cmd::ToggleShowHidden,
            name: "show hidden",
            keys: ".",
            desc: "toggle visibility of hidden repos",
        },
        CmdInfo {
            cmd: Cmd::OpenEditor,
            name: "open in editor",
            keys: "e",
            desc: "open repo in $VISUAL / $EDITOR (or VS Code)",
        },
        CmdInfo {
            cmd: Cmd::OpenLazyGit,
            name: "open in lazygit",
            keys: "o",
            desc: "launch lazygit on the repo (suspends den)",
        },
        CmdInfo {
            cmd: Cmd::OpenShell,
            name: "open shell at repo",
            keys: "s",
            desc: "drop into $SHELL in the repo (suspends den)",
        },
        CmdInfo {
            cmd: Cmd::OpenGitHub,
            name: "open on GitHub",
            keys: "g",
            desc: "open the repo's origin URL in browser",
        },
        CmdInfo {
            cmd: Cmd::OpenActions,
            name: "open actions",
            keys: "A",
            desc: "open the GitHub Actions tab in browser",
        },
        CmdInfo {
            cmd: Cmd::ToggleStash,
            name: "stash list",
            keys: "S",
            desc: "show stash entries for the focused repo",
        },
        CmdInfo {
            cmd: Cmd::ToggleSortCi,
            name: "sort: ci red first",
            keys: "O",
            desc: "toggle a leading section that surfaces CI failures",
        },
        CmdInfo { cmd: Cmd::CopyPath, name: "copy path", keys: "y", desc: "copy the repo path to clipboard" },
        CmdInfo { cmd: Cmd::RefreshAll, name: "refresh all", keys: "r", desc: "re-scan every repo's status" },
        CmdInfo {
            cmd: Cmd::FetchFocused,
            name: "fetch focused",
            keys: "F",
            desc: "git fetch the focused repo right now",
        },
        CmdInfo {
            cmd: Cmd::PullFocused,
            name: "pull focused",
            keys: "P",
            desc: "git pull --ff-only on the focused repo",
        },
        CmdInfo {
            cmd: Cmd::ToggleDetail,
            name: "toggle detail",
            keys: "↵",
            desc: "open or close the detail pane",
        },
        CmdInfo { cmd: Cmd::ToggleReadme, name: "readme", keys: "i", desc: "open the README overlay" },
        CmdInfo {
            cmd: Cmd::ToggleMarkdownMode,
            name: "toggle raw / rendered",
            keys: "m",
            desc: "switch markdown view mode (readme + releases)",
        },
        CmdInfo {
            cmd: Cmd::FocusStatus,
            name: "focus status",
            keys: "1",
            desc: "focus the status section in detail",
        },
        CmdInfo {
            cmd: Cmd::FocusDiff,
            name: "focus diff",
            keys: "2",
            desc: "focus the diff section in detail",
        },
        CmdInfo {
            cmd: Cmd::Filter,
            name: "filter by name",
            keys: "/",
            desc: "show only the repos whose name holds what you type",
        },
        CmdInfo { cmd: Cmd::Quit, name: "quit", keys: "q", desc: "exit den" },
    ];
    assert(rows_of(r@) =~= command_rows());
    r
}

/// A palette line matches a (lowercased) query when its lowercased name,
/// description or keys hold it.
pub open spec fn row_matches(row: CmdRow, q: Seq<char>) -> bool {
    contains_seq(lowercase(row.1), q) || contains_seq(lowercase(row.3), q) || contains_seq(lowercase(row.2), q)
}

/// The lines of `rows` that match `q`, in order.
pub open spec fn matching_rows(rows: Seq<CmdRow>, q: Seq<char>) -> Seq<CmdRow>
    decreases rows.len(),
{
    if rows.len() == 0 {
        Seq::empty()
    } else {
        let prev = matching_rows(rows.drop_last(), q);
        if row_matches(rows.last(), q) {
            prev.push(rows.last())
        } else {
            prev
        }
    }
}

/// The query as it is matched: trimmed and lowercased.
pub open spec fn palette_query(query: Seq<char>) -> Seq<char> {
    lowercase(trim(query))
}

/// What the palette lists for a query: everything when the query is
/// blank, else the lines that match it, in palette order.
pub open spec fn commands_for(query: Seq<char>) -> Seq<CmdRow> {
    if trim(query).len() == 0 {
        command_rows()
    } else {
        matching_rows(command_rows(), palette_query(query))
    }
}

fn lower_contains(s: &'static str, q: &Vec<char>) -> (r: bool)
    ensures
        r == contains_seq(lowercase(s@), q@),
{
    let low = to_lowercase(&chars_of(s));
    contains_chars(&low, q)
}

/// The palette lines for a query, in palette order.
pub fn filter_commands(query: &str) -> (r: Vec<CmdInfo>)
    ensures
        rows_of(r@) == commands_for(query@),
{
    let t = trim_str(query);
    let all = all_commands();
    if t.len() == 0 {
        return all;
    }
    let q = to_lowercase(&t);
    let ghost rows = command_rows();
    let mut out: Vec<CmdInfo> = Vec::new();
    let mut i: usize = 0;
    assert(rows.subrange(0, 0) =~= Seq::<CmdRow>::empty());
    while i < all.len()
        invariant
            rows_of(all@) == rows,
            q@ == palette_query(query@),
            i <= all@.len(),
            rows_of(out@) == matching_rows(rows.subrange(0, i as int), q@),
        decreases all.len() - i,
    {
        let c = all[i];
        let ghost pre = rows.subrange(0, i as int);
        let ghost next = rows.subrange(0, i + 1);
        assert(next.drop_last() =~= pre);
        assert(next.last() == row_of(c)) by {
            assert(rows[i as int] == rows_of(all@)[i as int]);
        }
        if lower_contains(c.name, &q) || lower_contains(c.desc, &q) || lower_contains(c.keys, &q) {
            let ghost before = rows_of(out@);
            out.push(c);
            assert(rows_of(out@) =~= before.push(row_of(c)));
        }
        i = i + 1;
    }
    assert(rows.subrange(0, all@.len() as int) =~= rows);
    out
}

/// With nothing typed, the palette lists every command.
pub proof fn lemma_blank_query_lists_all(query: Seq<char>)
    requires
        trim(query).len() == 0,
    ensures
        commands_for(query) == command_rows(),
{
}

/// Whatever the query, the palette lists only commands it has, each
/// matching the query, and never more of them than it has.
pub proof fn lemma_matches_are_commands(rows: Seq<CmdRow>, q: Seq<char>)
    ensures
        matching_rows(rows, q).len() <= rows.len(),
        forall|k: int|
            0 <= k < matching_rows(rows, q).len() ==> rows.contains(#[trigger] matching_rows(rows, q)[k])
                && row_matches(matching_rows(rows, q)[k], q),
    decreases rows.len(),
{
    if rows.len() > 0 {
        lemma_matches_are_commands(rows.drop_last(), q);
        let prev = matching_rows(rows.drop_last(), q);
        assert forall|k: int| 0 <= k < matching_rows(rows, q).len() implies rows.contains(
            #[trigger] matching_rows(rows, q)[k],
        ) && row_matches(matching_rows(rows, q)[k], q) by {
            if k < prev.len() {
                let x = prev[k];
                assert(rows.drop_last().contains(x));
                let j = choose|j: int| 0 <= j < rows.drop_last().len() && rows.drop_last()[j] == x;
                assert(rows[j] == x);
            } else {
                assert(rows[rows.len() - 1] == rows.last());
            }
        }
    }
}

} // verus!
