//! Helpers for authoring posts in a static-site content tree.
//!
//! The library classifies the files of a content tree, parses the metadata
//! block at the top of each content document, aggregates the categories and
//! tags already in use, models the post being authored, and renders the
//! post's metadata header together with the exact bytes an atomic commit
//! must write.

pub mod classify;
pub mod commit;
pub mod external;
pub mod metadata;
pub mod models;
pub mod text;
pub mod writers;
