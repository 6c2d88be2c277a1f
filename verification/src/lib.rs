//! Crawling of HTTP directory listings ("Index of ..." pages) and planning of
//! the recursive download of the files they list.
//!
//! The library holds the logic only: it parses listing pages, builds and
//! expands the tree of entries, and decides which files are fetched in which
//! order. Network and file-system work is left to the caller, which hands
//! page bodies in and carries the planned steps out.

pub mod cli;
pub mod clock;
pub mod download;
pub mod link;
pub mod markup;
pub mod pattern;
pub mod text;
