//! Canonical file names and rewritten links for a tree of interlinked
//! documents.
//!
//! A run has two passes. The first gives every document its canonical file
//! name and records it in an index, under a key derived from its path. The
//! second replaces every link `[[target]]` or `[[target|label]]` in the
//! documents by `[label](path)`, with the path that the index holds for the
//! target. This crate holds the rules of both passes; walking the tree,
//! renaming, reading and writing are left to the caller.

pub mod document;
pub mod index;
pub mod link;
pub mod normalize;
pub mod rewrite;
pub mod summary;
pub mod text;

pub use document::{is_document_name, plan_name, NamePlan};
pub use index::{Index, IndexBuilder};
pub use link::{scan_link, LinkSpan};
pub use normalize::{key_of_path, key_of_target, normalize_filename};
pub use rewrite::{count_links, render_link, replace_links, rewrite_document, Rewrite};
pub use summary::Summary;
