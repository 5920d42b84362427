//! The read-only side: runs are found, classified, folded and streamed from what they left on disk.
pub mod config;
pub mod discovery;
pub mod fold;
pub mod stream;
pub mod tail;
pub mod watching;
