//! What the commands decide and show.

pub mod branch;
pub mod config;
pub mod diff;
pub mod fetch;
pub mod gc;
pub mod init;
pub mod log;
pub mod merge;
pub mod pins;
pub mod publish;
pub mod pull;
pub mod push;
pub mod remote;
pub mod restore;
pub mod stash;
pub mod status;
pub mod tag;
pub mod worktree;
