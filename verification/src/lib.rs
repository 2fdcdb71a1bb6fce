//! Finds the largest files of a directory tree.
//!
//! The caller walks the tree and hands what it reads to a [`Scan`], which
//! keeps the largest files in a bounded [`Selector`] and returns them, largest
//! first, when the walk is over.

pub mod args;
pub mod file_info;
mod heap;
pub mod order;
pub mod pretty;
pub mod scan;
pub mod selector;
pub mod top_k;

pub use file_info::{records_of, views_of, FileInfo, FileInfoView};
pub use scan::{Entry, Listing, Scan, ScanError, Visit};
pub use selector::Selector;
