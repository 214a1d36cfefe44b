//! Opening a repository somewhere else, from the menu bar: which address
//! is opened. Opening it is the program's.

use vstd::prelude::*;
use crate::github::{git_remote_to_https, https_of};
use crate::text::{chars_of, starts_with};

verus! {

/// The panel opens only `https://` addresses it is handed.
pub open spec fn opens(url: Seq<char>) -> bool {
    "https://"@.is_prefix_of(url)
}

/// Whether an address the panel already has (a CI run, a pull request)
/// is opened.
pub fn url(address: &str) -> (r: bool)
    ensures
        r == opens(address@),
{
    let u = chars_of(address);
    let p = chars_of("https://");
    starts_with(&u, &p)
}

/// The page opened for a repository, from what `git remote get-url
/// origin` printed (nothing when it failed): its `https://` page, or
/// nothing when the remote is not one that can be browsed.
pub fn github(remote: Option<&str>) -> (r: Option<String>)
    ensures
        remote is None ==> r is None,
        remote matches Some(x) ==> (r matches Some(s) ==> https_of(x@) == Some(s@)) && (r is None
            ==> https_of(x@) is None),
{
    match remote {
        Some(x) => git_remote_to_https(x),
        None => None,
    }
}

} // verus!
