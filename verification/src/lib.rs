pub mod text;
pub mod path;
pub mod processor;
pub mod model;
pub mod cfi;
pub mod parser;
pub mod error;
pub mod provider;
pub mod a11y;
pub mod xml;
pub mod dom;
