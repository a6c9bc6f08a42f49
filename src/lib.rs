//! Finds the build output that software projects leave behind (dependency and
//! compiled-output directories), decides what a walk of a directory tree claims, keeps
//! the cache of a walk's results fresh, and reports on deletions path by path.
//!
//! The file system is touched by the caller: the types here take what it observed
//! (which markers exist, what a deletion came to, when a cache file was written) and
//! decide the rest.

pub mod error;
pub mod garbage;
pub mod paths;
pub mod recognizer;
pub mod state;
pub mod ui;
pub mod utils;
