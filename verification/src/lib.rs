//! A library that turns a book's `SUMMARY.md` table of contents and its
//! chapter sources into an in-memory book tree and structured markup.
//!
//! The pieces fit together as a pipeline: the summary text is tokenized into
//! a flat stream of Markdown events, parsed into a [`summary::Summary`] tree,
//! materialized into a [`book::Book`] from chapter file contents, and each
//! chapter's Markdown is rewritten into the output markup by [`render`].

pub mod book;
pub mod config;
pub mod events;
pub mod laws;
pub mod loader;
pub mod paths;
pub mod pipeline;
pub mod render;
pub mod section_number;
pub mod strings;
pub mod summary;
pub mod text;

pub use section_number::SectionNumber;
