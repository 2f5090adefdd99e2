//! Resolves shorthand repository references (`user/repo`, `host:user/repo`,
//! full HTTPS/SSH URLs) into clone URLs and workspace filesystem paths, and
//! produces shell-completion candidates for partially typed references by
//! searching a snapshot of the workspace directory tree.

pub mod completion;
pub mod config;
pub mod order;
pub mod repo;
pub mod strings;
