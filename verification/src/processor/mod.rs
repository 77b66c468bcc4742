//! Content processing: CSS and HTML URL rewriting, and chapter preparation.
pub mod rewrite;
pub mod html;
pub mod css;
pub mod search;
pub mod prepare;
pub mod walk;
pub mod inline;

pub use walk::{inject_cfi_dom, extract_positions, extract_semantic_content, PositionContext};
pub use search::{search_chapter, SearchResult};
