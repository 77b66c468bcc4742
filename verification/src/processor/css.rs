//! CSS rewrite API for standalone stylesheets.
//!
//! Scanning and URL splicing live in [`super::rewrite`], so HTML rewriting
//! shares the same engine.
use vstd::prelude::*;
use crate::text::{chars_of, string_from_chars};
use crate::path::{parent_dir, parent_dir_spec};
use crate::processor::rewrite::{is_css_rewrite, rewrite_css_urls};

verus! {

/// Rewrites `url(...)` and `@import` references inside a CSS string.
///
/// For each relative URL found, `resolver(epub_root_relative_path)` is called:
/// - `Some(new_url)` → the `url(...)` token is replaced with `url("new_url")`
/// - `None`          → the token is left unchanged
///
/// `css_file_path` is the **EPUB-root-relative path of the CSS file itself**
/// (e.g. `"OEBPS/css/style.css"`), used to resolve relative paths before
/// calling the resolver.  Pass the path of the containing file for inline
/// `<style>` blocks.
///
/// Handles all three CSS `url()` syntaxes (`url("…")`, `url('…')`, `url(…)`)
/// and `@import "…"` / `@import '…'` rules.  External URLs (`http:`, `https:`,
/// `data:`, `blob:`) are always passed through unchanged.
pub fn rewrite_css<F>(css: &str, css_file_path: &str, resolver: F) -> (r: String) where
    F: FnMut(&str) -> Option<String>,

    requires
        forall|q: &str| call_requires(resolver, (q,)),
    ensures
        is_css_rewrite(resolver, css@, parent_dir_spec(css_file_path@), r@),
{
    let path = chars_of(css_file_path);
    let dir = parent_dir(&path);
    let css_dir = string_from_chars(&dir);
    let mut resolver = resolver;
    rewrite_css_urls(css, css_dir.as_str(), &mut resolver)
}

} // verus!
