//! CSS URL rewrite engine shared by HTML rewriting and standalone CSS.
//!
//! Scanning finds every `url(...)` and `@import "..."` token outside CSS
//! comments; splicing then replaces the tokens whose URL the resolver maps.
//! Path joining goes through [`crate::path`].
use vstd::prelude::*;
use vstd::utf8::{encode_scalar, encode_utf8};
use crate::text::{
    starts_with, trim_spec, is_unicode_space, chars_of, lit, has_prefix_at, trim_bounds, slice_chars,
    string_from_chars, extend_chars, first_pos, lemma_first_pos, lemma_first_pos_unique,
};
use crate::path::{
    is_external_spec, join_spec, percent_decoded, strip_query_and_fragment_spec, is_external_chars,
    normalize_path,
};

verus! {

/// Span of a single rewriteable URL token inside a CSS string (character
/// offsets inside the library; [`scan_css_url_spans`] gives byte offsets).
#[derive(Clone, Copy, Debug, PartialEq, Eq)]
pub struct CssUrlSpan {
    /// Offset of the first character of the token (the `u` of `url(` or the `@` of `@import`).
    pub start: usize,
    /// Offset one past the last character of the token (the closing `)` or closing quote).
    pub end: usize,
    /// Offsets of the URL value itself (without quotes / parens).
    pub inner_start: usize,
    pub inner_end: usize,
}

/// What the scanner does at one position.
#[derive(Clone, Copy, Debug, PartialEq, Eq)]
pub enum ScanStep {
    /// The scan ends here.
    Stop,
    /// Nothing is found here; go on at the given offset.
    Next(usize),
    /// A token is found; go on at its end.
    Token(CssUrlSpan),
}

// ── Specification ────────────────────────────────────────────────────────────

/// White space allowed inside `url( ... )`.
pub open spec fn is_css_space(c: char) -> bool {
    c == ' ' || c == '\t' || c == '\n' || c == '\r'
}

/// First offset at or after `j` that is not inside a run of `url()` white space.
pub open spec fn skip_css_spaces(css: Seq<char>, j: int) -> int
    decreases css.len() - j,
{
    if 0 <= j < css.len() && is_css_space(css[j]) {
        skip_css_spaces(css, j + 1)
    } else {
        j
    }
}

/// First offset at or after `j` that is not a space or a tab.
pub open spec fn skip_blanks(css: Seq<char>, j: int) -> int
    decreases css.len() - j,
{
    if 0 <= j < css.len() && (css[j] == ' ' || css[j] == '\t') {
        skip_blanks(css, j + 1)
    } else {
        j
    }
}

/// First offset at or after `j` holding `c`, or the end.
pub open spec fn find_from(css: Seq<char>, j: int, c: char) -> int
    decreases css.len() - j,
{
    if 0 <= j < css.len() && css[j] != c {
        find_from(css, j + 1, c)
    } else {
        j
    }
}

/// Offset of the `*/` that closes a comment whose body starts at `j` (or the
/// last offset where it could start).
pub open spec fn comment_close(css: Seq<char>, j: int) -> int
    decreases css.len() - j,
{
    if 0 <= j && j + 1 < css.len() && !(css[j] == '*' && css[j + 1] == '/') {
        comment_close(css, j + 1)
    } else {
        j
    }
}

/// End of `css[s..e]` once trailing white space is dropped.
pub open spec fn trimmed_end(css: Seq<char>, s: int, e: int) -> int
    decreases e - s,
{
    if s < e && is_unicode_space(css[e - 1]) {
        trimmed_end(css, s, e - 1)
    } else {
        e
    }
}

pub open spec fn is_quote(c: char) -> bool {
    c == '"' || c == '\''
}

pub open spec fn mk_span(start: int, end: int, inner_start: int, inner_end: int) -> CssUrlSpan {
    CssUrlSpan {
        start: start as usize,
        end: end as usize,
        inner_start: inner_start as usize,
        inner_end: inner_end as usize,
    }
}

/// What the scanner finds at offset `i` of `css` (`0 <= i < css.len()`).
pub open spec fn scan_step_spec(css: Seq<char>, i: int) -> ScanStep {
    let len = css.len() as int;
    if i + 1 < len && css[i] == '/' && css[i + 1] == '*' {
        // a comment: skip past its `*/`
        let c = comment_close(css, i + 2) + 2;
        ScanStep::Next(if c <= len { c as usize } else { len as usize })
    } else if css[i] == 'u' && i + 3 < len && css[i + 1] == 'r' && css[i + 2] == 'l' && css[i + 3]
        == '(' {
        let j = skip_css_spaces(css, i + 4);
        if j >= len {
            ScanStep::Stop
        } else if is_quote(css[j]) {
            let e = find_from(css, j + 1, css[j]);
            let k = skip_css_spaces(css, if e < len { e + 1 } else { e });
            if k < len && css[k] == ')' {
                ScanStep::Token(mk_span(i, k + 1, j + 1, e))
            } else {
                ScanStep::Next(k as usize)
            }
        } else {
            let e0 = find_from(css, j, ')');
            ScanStep::Token(
                mk_span(i, if e0 < len { e0 + 1 } else { e0 }, j, trimmed_end(css, j, e0)),
            )
        }
    } else if css[i] == '@' && starts_with(css.subrange(i, len), "@import"@) {
        let j = skip_blanks(css, i + 7);
        if j < len && is_quote(css[j]) {
            let e = find_from(css, j + 1, css[j]);
            ScanStep::Token(mk_span(i, if e < len { e + 1 } else { e }, j + 1, e))
        } else {
            ScanStep::Next((i + 1) as usize)
        }
    } else {
        ScanStep::Next((i + 1) as usize)
    }
}

/// The `url(...)` and `@import` tokens of `css` from offset `i` on.
pub open spec fn scan_from(css: Seq<char>, i: int) -> Seq<CssUrlSpan>
    decreases css.len() - i,
{
    // (offsets are machine words: a text longer than that has no tokens)
    if i < 0 || i >= css.len() || css.len() > usize::MAX {
        Seq::empty()
    } else {
        match scan_step_spec(css, i) {
            ScanStep::Stop => Seq::empty(),
            ScanStep::Next(n) => {
                proof {
                    lemma_step_progress(css, i);
                }
                scan_from(css, n as int)
            },
            ScanStep::Token(sp) => {
                proof {
                    lemma_step_progress(css, i);
                }
                seq![sp] + scan_from(css, sp.end as int)
            },
        }
    }
}

/// The `url(...)` and `@import` tokens of `css`, in order.
pub open spec fn css_spans(css: Seq<char>) -> Seq<CssUrlSpan> {
    scan_from(css, 0)
}

/// The URL of a token, trimmed of white space.
pub open spec fn span_inner(css: Seq<char>, sp: CssUrlSpan) -> Seq<char> {
    trim_spec(css.subrange(sp.inner_start as int, sp.inner_end as int))
}

/// The resolver is asked about a token whose URL is neither empty nor external.
pub open spec fn span_asks(css: Seq<char>, sp: CssUrlSpan) -> bool {
    span_inner(css, sp).len() > 0 && !is_external_spec(span_inner(css, sp))
}

/// The EPUB-root-relative path the resolver is asked about for a token:
/// its URL without query and fragment, percent-decoded, joined onto `base`.
pub open spec fn span_target(css: Seq<char>, base: Seq<char>, sp: CssUrlSpan) -> Seq<char> {
    join_spec(base, percent_decoded(strip_query_and_fragment_spec(span_inner(css, sp))))
}

/// The path the resolver is asked about for a CSS token is the token's URL
/// cut before its first `?` or `#` (its query and fragment dropped), then
/// percent-decoded and joined onto the stylesheet's directory `base`.
pub proof fn law_css_request_path(css: Seq<char>, base: Seq<char>, sp: CssUrlSpan, i: int)
    requires
        0 <= i <= span_inner(css, sp).len(),
        forall|j: int| 0 <= j < i ==> span_inner(css, sp)[j] != '?' && span_inner(css, sp)[j] != '#',
        i < span_inner(css, sp).len() ==> span_inner(css, sp)[i] == '?' || span_inner(css, sp)[i] == '#',
    ensures
        span_target(css, base, sp) == join_spec(base, percent_decoded(span_inner(css, sp).take(i))),
{
    let u = span_inner(css, sp);
    lemma_first_pos(u, '?');
    let q = first_pos(u, '?');
    assert(q >= i) by {
        if q < i {
            assert(u[q] == '?');
        }
    }
    let a = u.take(q);
    assert forall|j: int| 0 <= j < i implies a[j] != '#' by {
        assert(a[j] == u[j]);
    }
    if i < q {
        assert(u[i] == '#');
        assert(a[i] == '#');
    }
    lemma_first_pos_unique(a, '#', i);
    assert(a.take(i) =~= u.take(i));
}

pub open spec fn is_import_token(css: Seq<char>, sp: CssUrlSpan) -> bool {
    starts_with(css.subrange(sp.start as int, css.len() as int), "@import"@)
}

/// The text that replaces a token: with an answer, `url("new")` (or
/// `@import "new"` for an import); without one, the token itself.
pub open spec fn token_replacement(css: Seq<char>, sp: CssUrlSpan, answer: Option<Seq<char>>) -> Seq<
    char,
> {
    if span_asks(css, sp) && answer is Some {
        if is_import_token(css, sp) {
            "@import \""@ + answer->0 + "\""@
        } else {
            "url(\""@ + answer->0 + "\")"@
        }
    } else {
        css.subrange(sp.start as int, sp.end as int)
    }
}

/// The answer for token `k`, if one was given.
pub open spec fn answer_at(answers: Seq<Option<Seq<char>>>, k: int) -> Option<Seq<char>> {
    if 0 <= k < answers.len() {
        answers[k]
    } else {
        None
    }
}

/// Where the text after token `k - 1` starts.
pub open spec fn gap_start(spans: Seq<CssUrlSpan>, k: int) -> int {
    if k <= 0 {
        0
    } else {
        spans[k - 1].end as int
    }
}

/// The output up to the end of the first `k` tokens.
pub open spec fn spliced(
    css: Seq<char>,
    spans: Seq<CssUrlSpan>,
    answers: Seq<Option<Seq<char>>>,
    k: int,
) -> Seq<char>
    decreases k,
{
    if k <= 0 {
        Seq::empty()
    } else {
        spliced(css, spans, answers, k - 1) + css.subrange(
            gap_start(spans, k - 1),
            spans[k - 1].start as int,
        ) + token_replacement(css, spans[k - 1], answer_at(answers, k - 1))
    }
}

/// `css` with each token replaced as its answer says.
pub open spec fn rewritten_css(
    css: Seq<char>,
    spans: Seq<CssUrlSpan>,
    answers: Seq<Option<Seq<char>>>,
) -> Seq<char> {
    spliced(css, spans, answers, spans.len() as int) + css.subrange(
        gap_start(spans, spans.len() as int),
        css.len() as int,
    )
}

/// The views of optional strings.
pub open spec fn opt_views(v: Seq<Option<String>>) -> Seq<Option<Seq<char>>> {
    v.map_values(|o: Option<String>| opt_view(o))
}

pub open spec fn opt_view(o: Option<String>) -> Option<Seq<char>> {
    match o {
        Some(s) => Some(s@),
        None => None,
    }
}

/// `resolver` may answer `answer` when asked about `query`.
pub open spec fn may_answer<F: FnMut(&str) -> Option<String>>(
    resolver: F,
    query: Seq<char>,
    answer: Option<Seq<char>>,
) -> bool {
    exists|q: &str, out: Option<String>|
        q@ == query && call_ensures(resolver, (q,), out) && opt_view(out) == answer
}

/// `out` is `css` rewritten against `base` with answers that `resolver`
/// may give: one answer per token, asked about the token's target path
/// whenever the token's URL is relative.
pub open spec fn is_css_rewrite<F: FnMut(&str) -> Option<String>>(
    resolver: F,
    css: Seq<char>,
    base: Seq<char>,
    out: Seq<char>,
) -> bool {
    exists|answers: Seq<Option<Seq<char>>>|
        {
            &&& answers.len() == css_spans(css).len()
            &&& forall|k: int|
                0 <= k < answers.len() && span_asks(css, css_spans(css)[k]) ==> may_answer(
                    resolver,
                    span_target(css, base, css_spans(css)[k]),
                    #[trigger] answers[k],
                )
            &&& out == rewritten_css(css, css_spans(css), answers)
        }
}

proof fn lemma_spliced_prefix(css: Seq<char>, spans: Seq<CssUrlSpan>, answers: Seq<Option<Seq<char>>>, j: int, m: int)
    requires
        0 <= j <= m,
    ensures
        spliced(css, spans, answers, j).len() <= spliced(css, spans, answers, m).len(),
        spliced(css, spans, answers, m).subrange(0, spliced(css, spans, answers, j).len() as int) == spliced(
            css,
            spans,
            answers,
            j,
        ),
    decreases m - j,
{
    if j < m {
        lemma_spliced_prefix(css, spans, answers, j, m - 1);
        let a = spliced(css, spans, answers, j);
        let b = spliced(css, spans, answers, m - 1);
        let c = spliced(css, spans, answers, m);
        assert(c.subrange(0, b.len() as int) =~= b);
        assert(c.subrange(0, a.len() as int) =~= b.subrange(0, a.len() as int));
    } else {
        let a = spliced(css, spans, answers, j);
        assert(a.subrange(0, a.len() as int) =~= a);
    }
}

/// `out` is the rewrite (with `answers`) of what comes before token `k`,
/// the text between, token `k` as it was, and `rest`.
pub open spec fn token_kept(css: Seq<char>, out: Seq<char>, answers: Seq<Option<Seq<char>>>, k: int, rest: Seq<
    char,
>) -> bool {
    out == spliced(css, css_spans(css), answers, k) + css.subrange(
        gap_start(css_spans(css), k),
        css_spans(css)[k].start as int,
    ) + css.subrange(css_spans(css)[k].start as int, css_spans(css)[k].end as int) + rest
}

/// A token whose URL the resolver is not asked about (empty, `http(s):`,
/// `data:` or `blob:`) keeps its text, at its place: the output is the
/// rewrite of what comes before it, the text between, the token itself,
/// and the rest.
pub proof fn law_external_tokens_kept<F: FnMut(&str) -> Option<String>>(
    resolver: F,
    css: Seq<char>,
    base: Seq<char>,
    out: Seq<char>,
    k: int,
)
    requires
        is_css_rewrite(resolver, css, base, out),
        0 <= k < css_spans(css).len(),
        !span_asks(css, css_spans(css)[k]),
    ensures
        exists|answers: Seq<Option<Seq<char>>>, rest: Seq<char>| #[trigger] token_kept(css, out, answers, k, rest),
{
    let spans = css_spans(css);
    let answers = choose|answers: Seq<Option<Seq<char>>>|
        {
            &&& answers.len() == css_spans(css).len()
            &&& forall|i: int|
                0 <= i < answers.len() && span_asks(css, css_spans(css)[i]) ==> may_answer(
                    resolver,
                    span_target(css, base, css_spans(css)[i]),
                    #[trigger] answers[i],
                )
            &&& out == rewritten_css(css, css_spans(css), answers)
        };
    let n = spans.len() as int;
    lemma_spliced_prefix(css, spans, answers, k + 1, n);
    let head = spliced(css, spans, answers, k + 1);
    let all = spliced(css, spans, answers, n);
    let rest = all.subrange(head.len() as int, all.len() as int) + css.subrange(gap_start(spans, n), css.len() as int);
    assert(all =~= head + all.subrange(head.len() as int, all.len() as int));
    assert(out =~= head + rest);
    assert(head == spliced(css, spans, answers, k) + css.subrange(gap_start(spans, k), spans[k].start as int)
        + css.subrange(spans[k].start as int, spans[k].end as int));
    assert(out == spliced(css, spans, answers, k) + css.subrange(gap_start(spans, k), spans[k].start as int)
        + css.subrange(spans[k].start as int, spans[k].end as int) + rest);
    assert(token_kept(css, out, answers, k, rest));
}

/// The tokens lie inside the text, one after the other.
pub open spec fn spans_ordered(css: Seq<char>, spans: Seq<CssUrlSpan>) -> bool {
    &&& forall|k: int| 0 <= k < spans.len() ==> span_fits(css, #[trigger] spans[k])
    &&& forall|k: int| 0 <= k < spans.len() - 1 ==> (#[trigger] spans[k]).end <= spans[k + 1].start
}

// ── Lemmas ───────────────────────────────────────────────────────────────────

pub proof fn lemma_skip_css_spaces(css: Seq<char>, j: int)
    requires
        0 <= j,
    ensures
        j <= skip_css_spaces(css, j),
        j <= css.len() ==> skip_css_spaces(css, j) <= css.len(),
        forall|x: int| j <= x < skip_css_spaces(css, j) ==> is_css_space(#[trigger] css[x]),
        skip_css_spaces(css, j) < css.len() ==> !is_css_space(css[skip_css_spaces(css, j)]),
    decreases css.len() - j,
{
    if 0 <= j < css.len() && is_css_space(css[j]) {
        lemma_skip_css_spaces(css, j + 1);
    }
}

pub proof fn lemma_skip_blanks(css: Seq<char>, j: int)
    requires
        0 <= j,
    ensures
        j <= skip_blanks(css, j),
        j <= css.len() ==> skip_blanks(css, j) <= css.len(),
    decreases css.len() - j,
{
    if 0 <= j < css.len() && (css[j] == ' ' || css[j] == '\t') {
        lemma_skip_blanks(css, j + 1);
    }
}

pub proof fn lemma_find_from(css: Seq<char>, j: int, c: char)
    requires
        0 <= j,
    ensures
        j <= find_from(css, j, c),
        j <= css.len() ==> find_from(css, j, c) <= css.len(),
        forall|x: int| j <= x < find_from(css, j, c) ==> #[trigger] css[x] != c,
        find_from(css, j, c) < css.len() ==> css[find_from(css, j, c)] == c,
    decreases css.len() - j,
{
    if 0 <= j < css.len() && css[j] != c {
        lemma_find_from(css, j + 1, c);
    }
}

pub proof fn lemma_comment_close(css: Seq<char>, j: int)
    requires
        0 <= j <= css.len(),
    ensures
        j <= comment_close(css, j) <= css.len(),
    decreases css.len() - j,
{
    if 0 <= j && j + 1 < css.len() && !(css[j] == '*' && css[j + 1] == '/') {
        lemma_comment_close(css, j + 1);
    }
}

pub proof fn lemma_trimmed_end(css: Seq<char>, s: int, e: int)
    requires
        0 <= s <= e <= css.len(),
    ensures
        s <= trimmed_end(css, s, e) <= e,
    decreases e - s,
{
    if s < e && is_unicode_space(css[e - 1]) {
        lemma_trimmed_end(css, s, e - 1);
    }
}

/// A token lies inside the text, in order: start, URL, end.
pub open spec fn span_fits(css: Seq<char>, sp: CssUrlSpan) -> bool {
    sp.start <= sp.inner_start <= sp.inner_end <= sp.end <= css.len()
}

/// Each scanning step moves forward, and a token it finds fits.
pub proof fn lemma_step_progress(css: Seq<char>, i: int)
    requires
        0 <= i < css.len(),
        css.len() <= usize::MAX,
    ensures
        match scan_step_spec(css, i) {
            ScanStep::Stop => true,
            ScanStep::Next(n) => i < n <= css.len(),
            ScanStep::Token(sp) => sp.start == i && i < sp.end && span_fits(css, sp),
        },
{
    let len = css.len() as int;
    if i + 1 < len && css[i] == '/' && css[i + 1] == '*' {
        lemma_comment_close(css, i + 2);
    } else if css[i] == 'u' && i + 3 < len && css[i + 1] == 'r' && css[i + 2] == 'l' && css[i + 3]
        == '(' {
        lemma_skip_css_spaces(css, i + 4);
        let j = skip_css_spaces(css, i + 4);
        if j < len {
            if is_quote(css[j]) {
                lemma_find_from(css, j + 1, css[j]);
                let e = find_from(css, j + 1, css[j]);
                lemma_skip_css_spaces(css, if e < len { e + 1 } else { e });
            } else {
                lemma_find_from(css, j, ')');
                let e0 = find_from(css, j, ')');
                lemma_trimmed_end(css, j, e0);
            }
        }
    } else if css[i] == '@' && starts_with(css.subrange(i, len), "@import"@) {
        lemma_skip_blanks(css, i + 7);
        let j = skip_blanks(css, i + 7);
        if j < len && is_quote(css[j]) {
            lemma_find_from(css, j + 1, css[j]);
        }
    }
}

/// Tokens found from offset `i` on start at `i` or later, fit, and come one
/// after the other.
pub proof fn lemma_scan_ordered(css: Seq<char>, i: int)
    requires
        0 <= i,
    ensures
        spans_ordered(css, scan_from(css, i)),
        forall|k: int|
            0 <= k < scan_from(css, i).len() ==> (#[trigger] scan_from(css, i)[k]).start >= i,
    decreases css.len() - i,
{
    if !(i < 0 || i >= css.len() || css.len() > usize::MAX) {
        lemma_step_progress(css, i);
        match scan_step_spec(css, i) {
            ScanStep::Stop => {},
            ScanStep::Next(n) => {
                lemma_scan_ordered(css, n as int);
            },
            ScanStep::Token(sp) => {
                let rest = scan_from(css, sp.end as int);
                lemma_scan_ordered(css, sp.end as int);
                let all = seq![sp] + rest;
                assert(scan_from(css, i) == all);
                assert forall|k: int| 0 <= k < all.len() implies span_fits(css, #[trigger] all[k])
                    && all[k].start >= i by {
                    if k > 0 {
                        assert(all[k] == rest[k - 1]);
                    }
                }
                assert forall|k: int| 0 <= k < all.len() - 1 implies (#[trigger] all[k]).end
                    <= all[k + 1].start by {
                    assert(all[k + 1] == rest[k]);
                    if k > 0 {
                        assert(all[k] == rest[k - 1]);
                    }
                }
            },
        }
    }
}

/// The text at offset `i` opens a token: `url(` or `@import`.
pub open spec fn token_head(css: Seq<char>, i: int) -> bool {
    ||| (0 <= i && i + 3 < css.len() && css[i] == 'u' && css[i + 1] == 'r' && css[i + 2] == 'l' && css[i + 3] == '(')
    ||| (0 <= i <= css.len() && starts_with(css.subrange(i, css.len() as int), "@import"@))
}

proof fn lemma_scan_heads(css: Seq<char>, i: int)
    requires
        0 <= i,
    ensures
        forall|k: int| 0 <= k < scan_from(css, i).len() ==> token_head(css, (#[trigger] scan_from(css, i)[k]).start as int),
    decreases css.len() - i,
{
    if !(i < 0 || i >= css.len() || css.len() > usize::MAX) {
        lemma_step_progress(css, i);
        match scan_step_spec(css, i) {
            ScanStep::Stop => {
                assert(scan_from(css, i).len() == 0);
            },
            ScanStep::Next(n) => {
                lemma_scan_heads(css, n as int);
                assert(scan_from(css, i) == scan_from(css, n as int));
            },
            ScanStep::Token(sp) => {
                let rest = scan_from(css, sp.end as int);
                lemma_scan_heads(css, sp.end as int);
                let len = css.len() as int;
                assert(sp.start == i);
                if !(i + 1 < len && css[i] == '/' && css[i + 1] == '*') {
                    if !(css[i] == 'u' && i + 3 < len && css[i + 1] == 'r' && css[i + 2] == 'l' && css[i + 3] == '(') {
                        assert(css[i] == '@' && starts_with(css.subrange(i, len), "@import"@));
                    }
                }
                assert(token_head(css, i));
                let all = seq![sp] + rest;
                assert(scan_from(css, i) == all);
                assert forall|k: int| 0 <= k < all.len() implies token_head(css, (#[trigger] all[k]).start as int) by {
                    if k > 0 {
                        assert(all[k] == rest[k - 1]);
                    }
                }
            },
        }
    }
}

/// The tokens of a stylesheet lie inside it, in order and apart; each
/// opens with `url(` or `@import`, and its URL lies inside it.
pub proof fn law_css_spans_shape(css: Seq<char>)
    ensures
        spans_ordered(css, css_spans(css)),
        forall|k: int| 0 <= k < css_spans(css).len() ==> token_head(css, (#[trigger] css_spans(css)[k]).start as int),
{
    lemma_scan_ordered(css, 0);
    lemma_scan_heads(css, 0);
}

proof fn lemma_spliced_declined(
    css: Seq<char>,
    spans: Seq<CssUrlSpan>,
    answers: Seq<Option<Seq<char>>>,
    k: int,
)
    requires
        0 <= k <= spans.len(),
        spans_ordered(css, spans),
        forall|j: int|
            0 <= j < spans.len() ==> answer_at(answers, j) is None || !span_asks(
                css,
                #[trigger] spans[j],
            ),
    ensures
        spliced(css, spans, answers, k) == css.subrange(0, gap_start(spans, k)),
    decreases k,
{
    if k > 0 {
        lemma_spliced_declined(css, spans, answers, k - 1);
        let sp = spans[k - 1];
        assert(span_fits(css, sp));
        if k >= 2 {
            assert(spans[k - 2].end <= spans[k - 1].start);
        }
        assert(css.subrange(0, gap_start(spans, k - 1)) + css.subrange(
            gap_start(spans, k - 1),
            sp.start as int,
        ) + css.subrange(sp.start as int, sp.end as int) =~= css.subrange(0, sp.end as int));
    }
}

/// When no token's URL gets an answer, rewriting leaves the CSS text as it is.
pub proof fn law_declined_answers_keep_css(css: Seq<char>, answers: Seq<Option<Seq<char>>>)
    requires
        forall|k: int|
            0 <= k < css_spans(css).len() ==> answer_at(answers, k) is None || !span_asks(
                css,
                #[trigger] css_spans(css)[k],
            ),
    ensures
        rewritten_css(css, css_spans(css), answers) == css,
{
    let spans = css_spans(css);
    lemma_scan_ordered(css, 0);
    lemma_spliced_declined(css, spans, answers, spans.len() as int);
    if spans.len() > 0 {
        assert(span_fits(css, spans[spans.len() - 1]));
    }
    assert(css.subrange(0, gap_start(spans, spans.len() as int)) + css.subrange(
        gap_start(spans, spans.len() as int),
        css.len() as int,
    ) =~= css);
}

/// A resolver that never answers leaves the CSS text as it is.
pub proof fn law_declining_resolver_keeps_css<F: FnMut(&str) -> Option<String>>(
    resolver: F,
    css: Seq<char>,
    base: Seq<char>,
    out: Seq<char>,
)
    requires
        is_css_rewrite(resolver, css, base, out),
        forall|q: &str, a: Option<String>| call_ensures(resolver, (q,), a) ==> a is None,
    ensures
        out == css,
{
    let answers = choose|answers: Seq<Option<Seq<char>>>|
        {
            &&& answers.len() == css_spans(css).len()
            &&& forall|k: int|
                0 <= k < answers.len() && span_asks(css, css_spans(css)[k]) ==> may_answer(
                    resolver,
                    span_target(css, base, css_spans(css)[k]),
                    #[trigger] answers[k],
                )
            &&& out == rewritten_css(css, css_spans(css), answers)
        };
    assert forall|k: int| 0 <= k < css_spans(css).len() implies answer_at(answers, k) is None
        || !span_asks(css, #[trigger] css_spans(css)[k]) by {
        if span_asks(css, css_spans(css)[k]) {
            assert(may_answer(resolver, span_target(css, base, css_spans(css)[k]), answers[k]));
            let (q, a) = choose|q: &str, a: Option<String>|
                q@ == span_target(css, base, css_spans(css)[k]) && call_ensures(resolver, (q,), a)
                    && opt_view(a) == answers[k];
        }
    }
    law_declined_answers_keep_css(css, answers);
}

// ── Scanning ─────────────────────────────────────────────────────────────────

fn skip_css_spaces_exec(css: &[char], j: usize) -> (r: usize)
    requires
        j <= css@.len(),
    ensures
        r == skip_css_spaces(css@, j as int),
        j <= r <= css@.len(),
{
    let mut k = j;
    while k < css.len() && (css[k] == ' ' || css[k] == '\t' || css[k] == '\n' || css[k] == '\r')
        invariant
            j <= k <= css@.len(),
            skip_css_spaces(css@, j as int) == skip_css_spaces(css@, k as int),
        decreases css@.len() - k,
    {
        k = k + 1;
    }
    k
}

fn skip_blanks_exec(css: &[char], j: usize) -> (r: usize)
    requires
        j <= css@.len(),
    ensures
        r == skip_blanks(css@, j as int),
        j <= r <= css@.len(),
{
    let mut k = j;
    while k < css.len() && (css[k] == ' ' || css[k] == '\t')
        invariant
            j <= k <= css@.len(),
            skip_blanks(css@, j as int) == skip_blanks(css@, k as int),
        decreases css@.len() - k,
    {
        k = k + 1;
    }
    k
}

fn find_from_exec(css: &[char], j: usize, c: char) -> (r: usize)
    requires
        j <= css@.len(),
    ensures
        r == find_from(css@, j as int, c),
        j <= r <= css@.len(),
{
    let mut k = j;
    while k < css.len() && css[k] != c
        invariant
            j <= k <= css@.len(),
            find_from(css@, j as int, c) == find_from(css@, k as int, c),
        decreases css@.len() - k,
    {
        k = k + 1;
    }
    k
}

fn comment_close_exec(css: &[char], j: usize) -> (r: usize)
    requires
        j <= css@.len(),
    ensures
        r == comment_close(css@, j as int),
        j <= r <= css@.len(),
{
    let mut k = j;
    while css.len() > 0 && k < css.len() - 1 && !(css[k] == '*' && css[k + 1] == '/')
        invariant
            j <= k <= css@.len(),
            comment_close(css@, j as int) == comment_close(css@, k as int),
        decreases css@.len() - k,
    {
        k = k + 1;
    }
    k
}

fn trimmed_end_exec(css: &[char], s: usize, e: usize) -> (r: usize)
    requires
        s <= e <= css@.len(),
    ensures
        r == trimmed_end(css@, s as int, e as int),
        s <= r <= e,
{
    let mut k = e;
    while k > s && crate::text::is_unicode_space_exec(css[k - 1])
        invariant
            s <= k <= e,
            e <= css@.len(),
            trimmed_end(css@, s as int, e as int) == trimmed_end(css@, s as int, k as int),
        decreases k - s,
    {
        k = k - 1;
    }
    k
}

/// What the scanner finds at offset `i`.
pub fn scan_step(css: &[char], i: usize) -> (r: ScanStep)
    requires
        i < css@.len(),
    ensures
        r == scan_step_spec(css@, i as int),
{
    let len = css.len();
    if i + 1 < len && css[i] == '/' && css[i + 1] == '*' {
        let c = comment_close_exec(css, i + 2);
        if len - c >= 2 {
            ScanStep::Next(c + 2)
        } else {
            ScanStep::Next(len)
        }
    } else if css[i] == 'u' && len - i > 3 && css[i + 1] == 'r' && css[i + 2] == 'l' && css[i + 3]
        == '(' {
        let j = skip_css_spaces_exec(css, i + 4);
        if j >= len {
            ScanStep::Stop
        } else if css[j] == '"' || css[j] == '\'' {
            let q = css[j];
            let e = find_from_exec(css, j + 1, q);
            let k0 = if e < len {
                e + 1
            } else {
                e
            };
            let k = skip_css_spaces_exec(css, k0);
            if k < len && css[k] == ')' {
                ScanStep::Token(CssUrlSpan { start: i, end: k + 1, inner_start: j + 1, inner_end: e })
            } else {
                ScanStep::Next(k)
            }
        } else {
            let e0 = find_from_exec(css, j, ')');
            let e = trimmed_end_exec(css, j, e0);
            let end = if e0 < len {
                e0 + 1
            } else {
                e0
            };
            ScanStep::Token(CssUrlSpan { start: i, end: end, inner_start: j, inner_end: e })
        }
    } else if css[i] == '@' && has_prefix_at(css, i, &lit("@import")) {
        proof {
            reveal_strlit("@import");
        }
        let j = skip_blanks_exec(css, i + 7);
        if j < len && (css[j] == '"' || css[j] == '\'') {
            let q = css[j];
            let e = find_from_exec(css, j + 1, q);
            let end = if e < len {
                e + 1
            } else {
                e
            };
            ScanStep::Token(CssUrlSpan { start: i, end: end, inner_start: j + 1, inner_end: e })
        } else {
            ScanStep::Next(i + 1)
        }
    } else {
        ScanStep::Next(i + 1)
    }
}

/// The `url(...)` and `@import` tokens of `css`, in order.
pub fn scan_css_url_spans_chars(css: &[char]) -> (spans: Vec<CssUrlSpan>)
    ensures
        spans@ == css_spans(css@),
{
    let len = css.len();
    let mut spans: Vec<CssUrlSpan> = Vec::new();
    let mut i: usize = 0;
    assert(spans@ + scan_from(css@, 0) =~= css_spans(css@));
    while i < len
        invariant
            len == css@.len(),
            i <= len,
            spans@ + scan_from(css@, i as int) == css_spans(css@),
        decreases len - i,
    {
        proof {
            lemma_step_progress(css@, i as int);
        }
        match scan_step(css, i) {
            ScanStep::Stop => {
                assert(scan_from(css@, len as int) =~= Seq::<CssUrlSpan>::empty());
                i = len;
            },
            ScanStep::Next(n) => {
                i = n;
            },
            ScanStep::Token(sp) => {
                let ghost before = spans@;
                spans.push(sp);
                assert(before + (seq![sp] + scan_from(css@, sp.end as int)) =~= spans@ + scan_from(
                    css@,
                    sp.end as int,
                ));
                i = sp.end;
            },
        }
    }
    assert(spans@ + scan_from(css@, i as int) =~= spans@);
    spans
}

/// The byte offset, in `s`'s UTF-8 encoding, of character offset `i`.
pub open spec fn byte_offset(s: Seq<char>, i: int) -> int {
    encode_utf8(s.take(i)).len() as int
}

/// A span with its character offsets turned into byte offsets.
pub open spec fn byte_span(s: Seq<char>, sp: CssUrlSpan) -> CssUrlSpan {
    CssUrlSpan {
        start: byte_offset(s, sp.start as int) as usize,
        end: byte_offset(s, sp.end as int) as usize,
        inner_start: byte_offset(s, sp.inner_start as int) as usize,
        inner_end: byte_offset(s, sp.inner_end as int) as usize,
    }
}

proof fn lemma_encode_push(a: Seq<char>, c: char)
    ensures
        encode_utf8(a.push(c)) == encode_utf8(a) + encode_scalar(c as u32),
    decreases a.len(),
{
    if a.len() == 0 {
        assert(a.push(c).drop_first() =~= Seq::<char>::empty());
        assert(encode_utf8(Seq::<char>::empty()) == Seq::<u8>::empty());
        assert(a.push(c)[0] == c);
        assert(encode_utf8(a.push(c)) == encode_scalar(c as u32) + encode_utf8(Seq::<char>::empty()));
        assert(encode_utf8(a.push(c)) =~= encode_scalar(c as u32));
        assert(encode_utf8(a) =~= Seq::<u8>::empty());
    } else {
        lemma_encode_push(a.drop_first(), c);
        assert(a.push(c).drop_first() =~= a.drop_first().push(c));
        assert(a.push(c)[0] == a[0]);
    }
}

proof fn lemma_encode_take_len(s: Seq<char>, i: int)
    requires
        0 <= i <= s.len(),
    ensures
        encode_utf8(s.take(i)).len() <= encode_utf8(s).len(),
    decreases s.len() - i,
{
    if i < s.len() {
        lemma_encode_take_len(s, i + 1);
        assert(s.take(i + 1) =~= s.take(i).push(s[i]));
        lemma_encode_push(s.take(i), s[i]);
    } else {
        assert(s.take(i) =~= s);
    }
}

/// The number of bytes of `c`'s UTF-8 encoding.
fn utf8_width(c: char) -> (n: usize)
    ensures
        n == encode_scalar(c as u32).len(),
{
    proof {
        vstd::utf8::char_is_scalar(c);
    }
    let v = c as u32;
    if v <= 0x7F {
        1
    } else if v <= 0x7FF {
        2
    } else if v <= 0xFFFF {
        3
    } else {
        4
    }
}

/// The byte offset of every character offset of `cs` (its length
/// included).
fn byte_offsets(cs: &[char]) -> (v: Vec<usize>)
    requires
        encode_utf8(cs@).len() <= usize::MAX,
    ensures
        v@.len() == cs@.len() + 1,
        forall|i: int| 0 <= i <= cs@.len() ==> v@[i] == byte_offset(cs@, i),
{
    let mut v: Vec<usize> = Vec::new();
    let mut n: usize = 0;
    v.push(0);
    assert(cs@.take(0) =~= Seq::<char>::empty());
    let mut i: usize = 0;
    while i < cs.len()
        invariant
            i <= cs@.len(),
            encode_utf8(cs@).len() <= usize::MAX,
            v@.len() == i + 1,
            n == byte_offset(cs@, i as int),
            forall|j: int| 0 <= j <= i ==> v@[j] == byte_offset(cs@, j),
        decreases cs@.len() - i,
    {
        proof {
            assert(cs@.take(i + 1) =~= cs@.take(i as int).push(cs@[i as int]));
            lemma_encode_push(cs@.take(i as int), cs@[i as int]);
            lemma_encode_take_len(cs@, i + 1);
        }
        n = n + utf8_width(cs[i]);
        v.push(n);
        i = i + 1;
    }
    v
}

/// Scans `css` and returns the spans of every `url(...)` and `@import`
/// token, as byte offsets into the text.
///
/// Handles `url("path")`, `url('path')`, `url(path)` (with optional
/// surrounding white space) and `@import "path"` / `@import 'path'`.  Data,
/// blob and http(s) URLs are returned too, so the caller can skip them.
/// CSS comments (`/* … */`) are skipped, so a `url()` inside one is not matched.
pub fn scan_css_url_spans(css: &str) -> (spans: Vec<CssUrlSpan>)
    ensures
        spans@ == css_spans(css@).map_values(|sp: CssUrlSpan| byte_span(css@, sp)),
{
    let cs = chars_of(css);
    let total = css.as_bytes().len();
    assert(total == encode_utf8(css@).len());
    let found = scan_css_url_spans_chars(&cs);
    let offs = byte_offsets(&cs);
    proof {
        lemma_scan_ordered(cs@, 0);
    }
    let ghost want = css_spans(css@).map_values(|sp: CssUrlSpan| byte_span(css@, sp));
    let mut out: Vec<CssUrlSpan> = Vec::new();
    let mut k: usize = 0;
    while k < found.len()
        invariant
            k <= found@.len(),
            found@ == css_spans(css@),
            cs@ == css@,
            spans_ordered(cs@, found@),
            offs@.len() == cs@.len() + 1,
            forall|i: int| 0 <= i <= cs@.len() ==> offs@[i] == byte_offset(cs@, i),
            want == css_spans(css@).map_values(|sp: CssUrlSpan| byte_span(css@, sp)),
            out@ == want.take(k as int),
        decreases found@.len() - k,
    {
        let sp = found[k];
        assert(span_fits(cs@, found@[k as int]));
        let b = CssUrlSpan {
            start: offs[sp.start],
            end: offs[sp.end],
            inner_start: offs[sp.inner_start],
            inner_end: offs[sp.inner_end],
        };
        assert(b == want[k as int]);
        out.push(b);
        assert(out@ =~= want.take(k + 1));
        k = k + 1;
    }
    assert(want.take(k as int) =~= want);
    out
}

// ── Splicing ─────────────────────────────────────────────────────────────────

/// Whether the resolver is asked about a token.
fn span_asks_exec(cs: &[char], sp: CssUrlSpan) -> (b: bool)
    requires
        span_fits(cs@, sp),
    ensures
        b == span_asks(cs@, sp),
{
    let (a, z) = trim_bounds(cs, sp.inner_start, sp.inner_end);
    if a == z {
        return false;
    }
    let inner = slice_chars(cs, a, z);
    !is_external_chars(&inner)
}

/// For each token, the path the resolver is asked about, or `None` when it
/// is not asked (empty or external URL).
pub fn css_url_requests_chars(cs: &[char], spans: &[CssUrlSpan], base_dir: &str) -> (r: Vec<
    Option<String>,
>)
    requires
        spans_ordered(cs@, spans@),
    ensures
        r@.len() == spans@.len(),
        forall|k: int|
            0 <= k < spans@.len() ==> opt_view(#[trigger] r@[k]) == (if span_asks(
                cs@,
                spans@[k],
            ) {
                Some(span_target(cs@, base_dir@, spans@[k]))
            } else {
                None
            }),
{
    let mut r: Vec<Option<String>> = Vec::new();
    let mut k: usize = 0;
    while k < spans.len()
        invariant
            k <= spans@.len(),
            r@.len() == k,
            spans_ordered(cs@, spans@),
            forall|j: int|
                0 <= j < k ==> opt_view(#[trigger] r@[j]) == (if span_asks(cs@, spans@[j]) {
                    Some(span_target(cs@, base_dir@, spans@[j]))
                } else {
                    None
                }),
        decreases spans@.len() - k,
    {
        let sp = spans[k];
        assert(span_fits(cs@, spans@[k as int]));
        if span_asks_exec(cs, sp) {
            let (a, z) = trim_bounds(cs, sp.inner_start, sp.inner_end);
            let inner = slice_chars(cs, a, z);
            let inner_str = string_from_chars(&inner);
            let abs = normalize_path(base_dir, inner_str.as_str());
            r.push(Some(abs));
        } else {
            r.push(None);
        }
        k = k + 1;
    }
    r
}

/// Appends the replacement text of token `sp` to `out`.
fn push_replacement(out: &mut Vec<char>, cs: &[char], sp: CssUrlSpan, answer: &Option<String>)
    requires
        span_fits(cs@, sp),
    ensures
        final(out)@ == old(out)@ + token_replacement(cs@, sp, opt_view(*answer)),
{
    let asks = span_asks_exec(cs, sp);
    match answer {
        Some(u) => {
            if asks {
                let uc = chars_of(u.as_str());
                if has_prefix_at(cs, sp.start, &lit("@import")) {
                    extend_chars(out, &lit("@import \""));
                    extend_chars(out, &uc);
                    extend_chars(out, &lit("\""));
                    assert(final(out)@ =~= old(out)@ + ("@import \""@ + u@ + "\""@));
                } else {
                    extend_chars(out, &lit("url(\""));
                    extend_chars(out, &uc);
                    extend_chars(out, &lit("\")"));
                    assert(final(out)@ =~= old(out)@ + ("url(\""@ + u@ + "\")"@));
                }
                return;
            }
        },
        None => {},
    }
    let tok = slice_chars(cs, sp.start, sp.end);
    extend_chars(out, &tok);
}

/// `cs` with each token replaced as its answer says.
pub fn apply_css_url_answers_chars(
    cs: &[char],
    spans: &[CssUrlSpan],
    answers: &[Option<String>],
) -> (out: Vec<char>)
    requires
        spans_ordered(cs@, spans@),
    ensures
        out@ == rewritten_css(cs@, spans@, opt_views(answers@)),
{
    let ghost av = opt_views(answers@);
    let mut out: Vec<char> = Vec::new();
    let mut last: usize = 0;
    let mut k: usize = 0;
    while k < spans.len()
        invariant
            k <= spans@.len(),
            spans_ordered(cs@, spans@),
            av == opt_views(answers@),
            last == gap_start(spans@, k as int),
            last <= cs@.len(),
            k < spans@.len() ==> last <= spans@[k as int].start,
            out@ == spliced(cs@, spans@, av, k as int),
        decreases spans@.len() - k,
    {
        let sp = spans[k];
        assert(span_fits(cs@, spans@[k as int]));
        let gap = slice_chars(cs, last, sp.start);
        extend_chars(&mut out, &gap);
        let none: Option<String> = None;
        if k < answers.len() {
            assert(answer_at(av, k as int) == opt_view(answers@[k as int]));
            push_replacement(&mut out, cs, sp, &answers[k]);
        } else {
            push_replacement(&mut out, cs, sp, &none);
        }
        assert(k + 1 < spans@.len() ==> spans@[k as int].end <= spans@[k + 1].start);
        last = sp.end;
        k = k + 1;
    }
    let tail = slice_chars(cs, last, cs.len());
    extend_chars(&mut out, &tail);
    out
}

/// For each `url(...)` / `@import` token of `css`, the EPUB-root-relative
/// path the resolver would be asked about (`None` for empty or external URLs).
pub fn css_url_requests(css: &str, base_dir: &str) -> (r: Vec<Option<String>>)
    ensures
        r@.len() == css_spans(css@).len(),
        forall|k: int|
            0 <= k < css_spans(css@).len() ==> opt_view(#[trigger] r@[k]) == (if span_asks(
                css@,
                css_spans(css@)[k],
            ) {
                Some(span_target(css@, base_dir@, css_spans(css@)[k]))
            } else {
                None
            }),
{
    let cs = chars_of(css);
    let spans = scan_css_url_spans_chars(&cs);
    proof {
        lemma_scan_ordered(cs@, 0);
    }
    css_url_requests_chars(&cs, &spans, base_dir)
}

/// `css` with each `url(...)` / `@import` token replaced as `answers` says:
/// the `k`-th answer, when present and when the token's URL is asked about,
/// replaces the `k`-th token by `url("answer")` (`@import "answer"`).
pub fn apply_css_url_answers(css: &str, answers: &[Option<String>]) -> (r: String)
    ensures
        r@ == rewritten_css(css@, css_spans(css@), opt_views(answers@)),
{
    let cs = chars_of(css);
    let spans = scan_css_url_spans_chars(&cs);
    proof {
        lemma_scan_ordered(cs@, 0);
    }
    let out = apply_css_url_answers_chars(&cs, &spans, answers);
    string_from_chars(&out)
}

/// Rewrites `url(...)` and `@import` references using an already-resolved base directory.
///
/// `base_dir` is the EPUB-root-relative directory of the referencing file (not the file path).
/// Each relative URL is normalized against it and handed to `resolver`; an
/// answer `Some(new_url)` replaces the token, `None` leaves it as it is.
pub fn rewrite_css_urls<F>(css: &str, base_dir: &str, resolver: &mut F) -> (r: String) where
    F: FnMut(&str) -> Option<String>,

    requires
        forall|q: &str| call_requires(*old(resolver), (q,)),
    ensures
        is_css_rewrite(*old(resolver), css@, base_dir@, r@),
        *final(resolver) == *old(resolver),
{
    let cs = chars_of(css);
    let spans = scan_css_url_spans_chars(&cs);
    proof {
        lemma_scan_ordered(cs@, 0);
    }
    let requests = css_url_requests_chars(&cs, &spans, base_dir);
    let ghost f0 = *resolver;
    let mut answers: Vec<Option<String>> = Vec::new();
    let mut k: usize = 0;
    while k < requests.len()
        invariant
            k <= requests@.len(),
            requests@.len() == spans@.len(),
            answers@.len() == k,
            *resolver == f0,
            forall|q: &str| call_requires(f0, (q,)),
            forall|j: int|
                0 <= j < spans@.len() ==> opt_view(#[trigger] requests@[j]) == (if span_asks(
                    cs@,
                    spans@[j],
                ) {
                    Some(span_target(cs@, base_dir@, spans@[j]))
                } else {
                    None
                }),
            forall|j: int|
                0 <= j < k && span_asks(cs@, spans@[j]) ==> may_answer(
                    f0,
                    span_target(cs@, base_dir@, spans@[j]),
                    #[trigger] opt_views(answers@)[j],
                ),
        decreases requests@.len() - k,
    {
        let ghost before = answers@;
        match &requests[k] {
            Some(q) => {
                let a = resolver(q.as_str());
                proof {
                    assert(opt_view(requests@[k as int]) == Some(q@));
                }
                answers.push(a);
                proof {
                    assert(opt_views(answers@)[k as int] == opt_view(a));
                    assert(may_answer(f0, q@, opt_view(a)));
                    if span_asks(cs@, spans@[k as int]) {
                        assert(span_target(cs@, base_dir@, spans@[k as int]) == q@);
                        assert(may_answer(
                            f0,
                            span_target(cs@, base_dir@, spans@[k as int]),
                            opt_views(answers@)[k as int],
                        ));
                    }
                }
            },
            None => {
                answers.push(None);
            },
        }
        proof {
            assert forall|j: int| 0 <= j < k implies opt_views(answers@)[j] == opt_views(before)[j] by {
                assert(answers@[j] == before[j]);
            }
            assert forall|j: int|
                0 <= j < k + 1 && span_asks(cs@, spans@[j]) implies may_answer(
                f0,
                span_target(cs@, base_dir@, spans@[j]),
                #[trigger] opt_views(answers@)[j],
            ) by {
                if j < k {
                    assert(opt_views(answers@)[j] == opt_views(before)[j]);
                } else {
                    assert(opt_view(requests@[j]) == Some(span_target(cs@, base_dir@, spans@[j])));
                }
            }
        }
        k = k + 1;
    }
    let out = apply_css_url_answers_chars(&cs, &spans, &answers);
    assert(opt_views(answers@).len() == css_spans(css@).len());
    string_from_chars(&out)
}

} // verus!
