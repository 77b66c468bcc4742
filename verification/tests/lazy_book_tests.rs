use std::sync::atomic::{AtomicUsize, Ordering};

use epub_rs::model::{EpubBook, Metadata};
use epub_rs::parser::lazy_book::LazyBook;

fn sample_book() -> EpubBook {
    EpubBook {
        metadata: Metadata { title: Some("Lazy".into()), ..Default::default() },
        ..Default::default()
    }
}

/// Adapter-shaped ensure: only parse while unparsed, then get.
fn ensure(lazy: &mut LazyBook, parse: impl FnOnce() -> Result<EpubBook, String>) -> Result<(), String> {
    if lazy.is_unparsed() {
        lazy.store(parse());
    }
    lazy.get().map(|_| ()).map_err(str::to_owned)
}

#[test]
fn unparsed_success_becomes_ready() {
    let mut lazy = LazyBook::Unparsed;
    ensure(&mut lazy, || Ok(sample_book())).expect("parse should succeed");
    assert_eq!(lazy.as_book().unwrap().metadata.title.as_deref(), Some("Lazy"));
    assert!(lazy.is_ready());
}

#[test]
fn ready_does_not_reparse() {
    let calls = AtomicUsize::new(0);
    let mut lazy = LazyBook::Unparsed;
    ensure(&mut lazy, || {
        calls.fetch_add(1, Ordering::SeqCst);
        Ok(sample_book())
    })
    .unwrap();
    ensure(&mut lazy, || {
        calls.fetch_add(1, Ordering::SeqCst);
        Ok(sample_book())
    })
    .unwrap();
    assert_eq!(calls.load(Ordering::SeqCst), 1);
}

#[test]
fn failure_is_sticky_without_retry() {
    let calls = AtomicUsize::new(0);
    let mut lazy = LazyBook::Unparsed;
    let err1 = ensure(&mut lazy, || {
        calls.fetch_add(1, Ordering::SeqCst);
        Err("boom".into())
    })
    .unwrap_err();
    assert_eq!(err1, "boom");
    assert!(lazy.is_failed());
    let err2 = ensure(&mut lazy, || {
        calls.fetch_add(1, Ordering::SeqCst);
        Ok(sample_book())
    })
    .unwrap_err();
    assert_eq!(err2, "boom");
    assert_eq!(calls.load(Ordering::SeqCst), 1);
}

#[test]
fn as_book_only_when_ready() {
    assert!(LazyBook::Unparsed.as_book().is_none());
    assert!(LazyBook::Failed("x".into()).as_book().is_none());
    let mut lazy = LazyBook::Unparsed;
    ensure(&mut lazy, || Ok(sample_book())).unwrap();
    assert!(lazy.as_book().is_some());
}

#[test]
fn reset_allows_reparse() {
    let calls = AtomicUsize::new(0);
    let mut lazy = LazyBook::Unparsed;
    ensure(&mut lazy, || {
        calls.fetch_add(1, Ordering::SeqCst);
        Ok(sample_book())
    })
    .unwrap();
    lazy.reset();
    assert!(lazy.is_unparsed());
    ensure(&mut lazy, || {
        calls.fetch_add(1, Ordering::SeqCst);
        Ok(sample_book())
    })
    .unwrap();
    assert_eq!(calls.load(Ordering::SeqCst), 2);
}

#[test]
fn unparsed_get_reports_it() {
    let lazy = LazyBook::default();
    assert_eq!(lazy.get().unwrap_err(), "EPUB has not been parsed yet");
}
