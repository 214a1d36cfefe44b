//! den: a watcher for the git repositories in a folder, minus how it is drawn.
//!
//! The library holds what a terminal or a menu bar surface decides: the
//! ordering of repositories, the folders a watcher keeps, the names it shows
//! for them, how git and GitHub answers are read, and the state transitions
//! of the terminal interface. Reading the disk, running `git` and `gh`, and
//! drawing happen around it.

pub mod model;
pub mod text;
pub mod paths;
pub mod session;
pub mod bar;
pub mod repo;
pub mod order;
pub mod github;
pub mod brand;
pub mod pathmap;
pub mod state;
pub mod commands;
pub mod tui;
pub mod look;
pub mod markdown;
pub mod actions;
