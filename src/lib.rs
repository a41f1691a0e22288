//! Decoding the text that the git executable prints into typed records:
//! working-tree status, line attribution, ref, tag, log, stash, remote and
//! worktree listings, clone progress, and the outcome of each query.
pub mod text;
pub mod number;
pub mod calendar;
pub mod status;
pub mod blame;
pub mod records;
pub mod worktree;
pub mod invocation;
pub mod progress;
pub mod github;
