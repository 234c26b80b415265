//! Mirrors an auto-generated "Index of ..." directory listing into a tree of
//! files and directories, and plans the resumable download of that tree.
//!
//! The crate decides; it performs no network or file system access. A caller
//! fetches pages and stores files, and hands the outcome of each step back.

pub mod download;
