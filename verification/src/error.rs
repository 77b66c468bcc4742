//! Errors of the library.
use vstd::prelude::*;

verus! {

/// What went wrong while reading or processing a publication.
#[derive(Clone, Debug, PartialEq, Eq)]
pub enum EpubError {
    /// The package or one of its documents does not have the expected shape.
    InvalidFormat(String),
    /// An HTML document could not be processed.
    HtmlParse(String),
    /// `META-INF/container.xml` is missing or names no package document.
    MissingContainer,
    /// Reading from the container failed.
    Io(String),
    /// The archive could not be read.
    Zip(String),
    /// An XML document of the package is not well-formed.
    Xml(String),
}

} // verus!
