//! A parse cache for one publication: the outcome of the first parse
//! attempt is kept, a success as the book and a failure as its message, so
//! that a failed parse is not run again until the cache is reset.
use vstd::prelude::*;
use crate::model::EpubBook;

verus! {

/// The cached outcome of parsing a publication.
#[derive(Debug)]
pub enum LazyBook {
    /// No parse has been attempted.
    Unparsed,
    /// The parse succeeded.
    Ready(Box<EpubBook>),
    /// The parse failed with this message.
    Failed(String),
}

impl Default for LazyBook {
    fn default() -> (r: Self)
        ensures
            r is Unparsed,
    {
        LazyBook::Unparsed
    }
}

/// The message `get` gives before any parse.
pub open spec fn not_parsed_message() -> Seq<char> {
    "EPUB has not been parsed yet"@
}

impl LazyBook {
    /// Whether a parse has not been attempted yet.
    pub fn is_unparsed(&self) -> (b: bool)
        ensures
            b == (*self is Unparsed),
    {
        match self {
            LazyBook::Unparsed => true,
            _ => false,
        }
    }

    /// Records the outcome of the first parse attempt.
    pub fn store(&mut self, result: Result<EpubBook, String>)
        requires
            *old(self) is Unparsed,
        ensures
            match result {
                Ok(b) => *final(self) == LazyBook::Ready(Box::new(b)),
                Err(e) => *final(self) == LazyBook::Failed(e),
            },
    {
        *self = match result {
            Ok(book) => LazyBook::Ready(Box::new(book)),
            Err(err) => LazyBook::Failed(err),
        };
    }

    /// The book, or the message of the failed parse, or a message saying
    /// that no parse has been attempted.
    pub fn get(&self) -> (r: Result<&EpubBook, &str>)
        ensures
            match *self {
                LazyBook::Ready(b) => r == Ok::<&EpubBook, &str>(&*b),
                LazyBook::Failed(e) => r matches Err(m) && m@ == e@,
                LazyBook::Unparsed => r matches Err(m) && m@ == not_parsed_message(),
            },
    {
        match self {
            LazyBook::Ready(book) => Ok(&**book),
            LazyBook::Failed(err) => Err(err.as_str()),
            LazyBook::Unparsed => Err("EPUB has not been parsed yet"),
        }
    }

    /// The book, after a successful parse.
    pub fn as_book(&self) -> (r: Option<&EpubBook>)
        ensures
            match *self {
                LazyBook::Ready(b) => r == Some(&*b),
                _ => r is None,
            },
    {
        match self {
            LazyBook::Ready(book) => Some(&**book),
            _ => None,
        }
    }

    /// Forgets the outcome, so that a new parse can run.
    pub fn reset(&mut self)
        ensures
            *final(self) is Unparsed,
    {
        *self = LazyBook::Unparsed;
    }

    /// Whether a successful parse is cached.
    pub fn is_ready(&self) -> (b: bool)
        ensures
            b == (*self is Ready),
    {
        match self {
            LazyBook::Ready(_) => true,
            _ => false,
        }
    }

    /// Whether a previous parse failed (the failure is kept).
    pub fn is_failed(&self) -> (b: bool)
        ensures
            b == (*self is Failed),
    {
        match self {
            LazyBook::Failed(_) => true,
            _ => false,
        }
    }
}

/// The cache after an attempt made only while nothing is cached (what a
/// caller does with [`LazyBook::is_unparsed`] and [`LazyBook::store`]).
pub open spec fn after_attempt(l: LazyBook, attempt: Result<EpubBook, String>) -> LazyBook {
    if l is Unparsed {
        match attempt {
            Ok(b) => LazyBook::Ready(Box::new(b)),
            Err(e) => LazyBook::Failed(e),
        }
    } else {
        l
    }
}

/// A failed parse is kept: a later attempt, even a successful one, does not
/// replace it.
pub proof fn law_failure_is_sticky(e: String, later: Result<EpubBook, String>)
    ensures
        after_attempt(after_attempt(LazyBook::Unparsed, Err(e)), later) == LazyBook::Failed(e),
{
}

/// A successful parse is kept and not run again.
pub proof fn law_ready_is_kept(b: EpubBook, later: Result<EpubBook, String>)
    ensures
        after_attempt(after_attempt(LazyBook::Unparsed, Ok(b)), later) == LazyBook::Ready(Box::new(b)),
{
}

} // verus!
