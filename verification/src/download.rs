//! The crawl-and-resume pipeline: listing parser, node tree, expander,
//! state store and download traversal.

pub mod crawl;
pub mod fetch;
pub mod foreign;
pub mod types;
