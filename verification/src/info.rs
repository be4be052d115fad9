//! What the server knows: principals, their stashes and files, and the audit
//! trail.

pub mod audit;
pub mod cache;
pub mod file;
pub mod stash;
pub mod user;
