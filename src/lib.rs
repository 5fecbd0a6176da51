//! Pushes the last commit of a repository to a static file server: the diff of the two newest
//! commits is sorted into changed, deleted and other paths, and applied to a remote filesystem
//! by uploads, a trash directory, and moves into it.

pub mod change;
pub mod config;
pub mod memory;
pub mod path;
pub mod remote;
pub mod show;
pub mod sync;
