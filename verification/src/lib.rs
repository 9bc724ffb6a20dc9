//! Flattening of a two-level media library: every episode file found in a
//! season folder directly under the library root moves up into the root, and
//! the folder it came from is removed.
//!
//! The crate holds the rules and decisions; it never touches a filesystem or
//! a terminal. A caller lists directories, asks the operator and moves files,
//! and hands the library what it found.
//!
//! - `names` says which files are episodes, `confirm` which answers give
//!   consent, `listing` what discovery keeps of a directory listing.
//! - `session` decides, step by step, what a run does next.
//! - `library` is a library root held in memory, and `extract` a whole run
//!   on one: a session driven to its end.
//! - `laws` states what holds of every run.

pub mod confirm;
pub mod extract;
pub mod laws;
pub mod library;
pub mod listing;
pub mod names;
pub mod session;
pub mod text;
