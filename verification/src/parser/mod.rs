//! Publication-level logic: reading positions, reading-order helpers and
//! resource resolution.
pub mod positions;
pub mod reading;
pub mod resolve;
pub mod rendition;
pub mod container;
pub mod encryption;
pub mod opf;
pub mod accessibility;
pub mod cache;
pub mod lazy_book;
pub mod archive;
pub mod navigation;
pub mod smil;
