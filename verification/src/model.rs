//! The shared model: what a watcher reports and how it is ordered.
//!
//! These values cross a process boundary in the menu bar app; the
//! terminal uses the same values in memory.

use vstd::prelude::*;
use crate::text::str_eq;

verus! {

/// What a background fetch cycle reports, one message at a time.
/// Repositories are named by their path.
#[derive(Debug, Clone)]
pub enum FetchMsg {
    CycleStarted,
    Started(String),
    Done(String),
    CiUpdate(String, Option<CiInfo>),
    PrUpdate(String, Option<Vec<PrInfo>>),
    CycleFinished,
}

/// What CI made of the latest commit.
#[derive(Debug, Clone, Copy, PartialEq, Eq, Structural)]
pub enum CiState {
    Success,
    Failure,
    Running,
    Unknown,
}

/// An open pull request of one's own.
#[derive(Debug, Clone)]
pub struct PrInfo {
    pub number: u64,
    pub title: String,
    pub url: String,
    pub age: String,
}

/// The latest CI run of a repository's current commit.
#[derive(Debug, Clone)]
pub struct CiInfo {
    pub state: CiState,
    pub name: String,
    pub url: String,
    pub failed_step: Option<String>,
}

impl CiInfo {
    /// An exact copy.
    pub(crate) fn duplicate(&self) -> (r: CiInfo)
        ensures
            r == *self,
    {
        CiInfo {
            state: self.state,
            name: self.name.clone(),
            url: self.url.clone(),
            failed_step: match &self.failed_step {
                Some(s) => Some(s.clone()),
                None => None,
            },
        }
    }
}

/// The orders a surface can show its repositories in.
#[derive(Debug, Clone, Copy, PartialEq, Eq, Structural)]
pub enum SortMode {
    Default,
    CiRedFirst,
    DirtyFirst,
    ByRecency,
}

/// The mode that follows `m` in the cycle.
pub open spec fn next_mode(m: SortMode) -> SortMode {
    match m {
        SortMode::Default => SortMode::CiRedFirst,
        SortMode::CiRedFirst => SortMode::DirtyFirst,
        SortMode::DirtyFirst => SortMode::ByRecency,
        SortMode::ByRecency => SortMode::Default,
    }
}

/// How a mode is shown to a person.
pub open spec fn mode_label(m: SortMode) -> Seq<char> {
    match m {
        SortMode::Default => "default"@,
        SortMode::CiRedFirst => "ci red first"@,
        SortMode::DirtyFirst => "dirty first"@,
        SortMode::ByRecency => "by recency"@,
    }
}

/// How a mode is written into the settings file.
pub open spec fn mode_text(m: SortMode) -> Seq<char> {
    match m {
        SortMode::Default => "default"@,
        SortMode::CiRedFirst => "ci_red_first"@,
        SortMode::DirtyFirst => "dirty_first"@,
        SortMode::ByRecency => "by_recency"@,
    }
}

/// The mode a settings file names; anything unknown is the default.
pub open spec fn mode_from_text(t: Seq<char>) -> SortMode {
    if t == "ci_red_first"@ {
        SortMode::CiRedFirst
    } else if t == "dirty_first"@ {
        SortMode::DirtyFirst
    } else if t == "by_recency"@ {
        SortMode::ByRecency
    } else {
        SortMode::Default
    }
}

impl SortMode {
    /// The next mode in the cycle, wrapping back to `Default`.
    pub fn next(self) -> (r: SortMode)
        ensures
            r == next_mode(self),
    {
        match self {
            SortMode::Default => SortMode::CiRedFirst,
            SortMode::CiRedFirst => SortMode::DirtyFirst,
            SortMode::DirtyFirst => SortMode::ByRecency,
            SortMode::ByRecency => SortMode::Default,
        }
    }

    /// How the mode is shown to a person.
    pub fn label(self) -> (r: &'static str)
        ensures
            r@ == mode_label(self),
    {
        match self {
            SortMode::Default => "default",
            SortMode::CiRedFirst => "ci red first",
            SortMode::DirtyFirst => "dirty first",
            SortMode::ByRecency => "by recency",
        }
    }

    /// How the mode is written into the settings file.
    pub fn as_str(self) -> (r: &'static str)
        ensures
            r@ == mode_text(self),
    {
        match self {
            SortMode::Default => "default",
            SortMode::CiRedFirst => "ci_red_first",
            SortMode::DirtyFirst => "dirty_first",
            SortMode::ByRecency => "by_recency",
        }
    }

    /// The mode a settings file names; anything unknown is the default.
    pub fn from_str(s: &str) -> (r: SortMode)
        ensures
            r == mode_from_text(s@),
    {
        if str_eq(s, "ci_red_first") {
            SortMode::CiRedFirst
        } else if str_eq(s, "dirty_first") {
            SortMode::DirtyFirst
        } else if str_eq(s, "by_recency") {
            SortMode::ByRecency
        } else {
            SortMode::Default
        }
    }
}

/// A mode written into the settings file reads back as itself.
pub proof fn lemma_mode_text_round_trip(m: SortMode)
    ensures
        mode_from_text(mode_text(m)) == m,
{
    reveal_strlit("default");
    reveal_strlit("ci_red_first");
    reveal_strlit("dirty_first");
    reveal_strlit("by_recency");
    assert("default"@.len() == 7);
    assert("ci_red_first"@ != "dirty_first"@) by {
        assert("ci_red_first"@[0] != "dirty_first"@[0]);
    }
    assert("ci_red_first"@ != "by_recency"@) by {
        assert("ci_red_first"@[0] != "by_recency"@[0]);
    }
    assert("dirty_first"@ != "by_recency"@) by {
        assert("dirty_first"@[0] != "by_recency"@[0]);
    }
    assert("default"@ != "ci_red_first"@) by {
        assert("default"@[0] != "ci_red_first"@[0]);
    }
    assert("default"@ != "dirty_first"@) by {
        assert("default"@.len() != "dirty_first"@.len());
    }
    assert("default"@ != "by_recency"@) by {
        assert("default"@[0] != "by_recency"@[0]);
    }
}

/// Cycling through the modes comes back after four steps.
pub proof fn lemma_next_cycles(m: SortMode)
    ensures
        next_mode(next_mode(next_mode(next_mode(m)))) == m,
        next_mode(m) != m,
{
}

} // verus!
