//! Turns the pieces of an EPUB e-book into the pieces of an mdBook: a
//! `SUMMARY.md` rendered from the navigation tree, one Markdown file per XHTML
//! chapter with its internal links pointed at the new files, every other
//! resource as it was, and a `book.toml`.

pub mod book;
pub mod error;
pub mod extract;
pub mod links;
pub mod nav;
pub mod path;
pub mod resource;
pub mod text;
pub mod toml;

pub use crate::book::convert_epub_to_mdbook;
pub use crate::nav::generate_summary_md;
