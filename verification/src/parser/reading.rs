//! Reading-system decisions: where a reader opens a book, which spine item
//! an href points at, and how full-text search hits are capped.
use vstd::prelude::*;
use crate::model::{EpubBook, ManifestItem, SpineItem, TocEntry, manifest_index};
use crate::text::{chars_of, string_from_chars, slice_chars, extend_chars, lit, eq_chars, eq_str, find_char, first_pos, lemma_first_pos, starts_with, ends_with, has_suffix, contains_seq, contains_chars, is_unicode_space, is_unicode_space_exec};
use crate::path::file_name_spec;
use crate::processor::html::{lower_spec, lower_chars};
use crate::processor::search::SearchResult;

verus! {

/// One full-text search hit across the book (spine + CFI).
#[derive(Clone, Debug)]
pub struct BookSearchHit {
    pub spine_index: usize,
    pub manifest_id: String,
    pub excerpt: String,
    pub cfi: String,
}

/// Where a reader should open on first launch.
#[derive(Clone, Debug)]
pub struct ReadingStartInfo {
    pub spine_index: usize,
    /// `landmark:<role>` | `guide:<type>` | `cover_skip` | `spine_zero`
    pub source: String,
    pub href: Option<String>,
}

/// Options for full-book search.
#[derive(Clone, Debug)]
pub struct SearchBookOptions {
    /// Cap hits collected from a single spine item. Default 12.
    pub max_per_chapter: usize,
    /// Cap total hits across the book. Default 80.
    pub max_total: usize,
    /// Case-insensitive match. Default true.
    pub case_insensitive: bool,
    /// Include spine items with `linear="no"`. Default false.
    pub include_non_linear: bool,
}

pub fn default_max_per_chapter() -> (n: usize)
    ensures
        n == 12,
{
    12
}

pub fn default_max_total() -> (n: usize)
    ensures
        n == 80,
{
    80
}

pub fn default_true() -> (b: bool)
    ensures
        b,
{
    true
}

impl Default for SearchBookOptions {
    fn default() -> (o: Self)
        ensures
            o.max_per_chapter == 12,
            o.max_total == 80,
            o.case_insensitive,
            !o.include_non_linear,
    {
        SearchBookOptions {
            max_per_chapter: default_max_per_chapter(),
            max_total: default_max_total(),
            case_insensitive: default_true(),
            include_non_linear: false,
        }
    }
}

// ── Hrefs and spine items ────────────────────────────────────────────────────

/// `href` without its `#fragment`.
pub open spec fn strip_href_fragment_spec(h: Seq<char>) -> Seq<char> {
    h.take(first_pos(h, '#'))
}

/// `href` without its `#fragment`.
pub fn strip_href_fragment(href: &[char]) -> (r: Vec<char>)
    ensures
        r@ == strip_href_fragment_spec(href@),
{
    let cut = find_char(href, '#');
    proof {
        lemma_first_pos(href@, '#');
    }
    slice_chars(href, 0, cut)
}

/// A spine item's manifest href matches a fragment-free `clean` href:
/// equal, one a suffix of the other, or the same file name.
pub open spec fn spine_href_matches(mh: Seq<char>, clean: Seq<char>) -> bool {
    ||| mh == clean
    ||| ends_with(mh, clean)
    ||| ends_with(clean, mh)
    ||| file_name_spec(mh) == file_name_spec(clean)
}

/// Spine item `i` of `book` is the target of `clean`.
pub open spec fn spine_item_matches(book: EpubBook, i: int, clean: Seq<char>) -> bool {
    manifest_index(book.manifest@, book.spine@[i].idref@) matches Some(m) && spine_href_matches(
        strip_href_fragment_spec(book.manifest@[m].href@),
        clean,
    )
}

/// The first spine item that `href` points at (fragment ignored).
pub open spec fn spine_index_for_href_spec(book: EpubBook, href: Seq<char>, from: int) -> Option<int>
    decreases book.spine@.len() - from,
{
    if from < 0 || from >= book.spine@.len() {
        None
    } else if spine_item_matches(book, from, strip_href_fragment_spec(href)) {
        Some(from)
    } else {
        spine_index_for_href_spec(book, href, from + 1)
    }
}

fn href_matches_exec(mh: &[char], clean: &[char]) -> (b: bool)
    ensures
        b == spine_href_matches(mh@, clean@),
{
    if eq_chars(mh, clean) {
        return true;
    }
    let cs = string_from_chars(clean);
    let ms = string_from_chars(mh);
    if has_suffix(mh, cs.as_str()) || has_suffix(clean, ms.as_str()) {
        return true;
    }
    let fa = crate::path::file_name(mh);
    let fb = crate::path::file_name(clean);
    eq_chars(&fa, &fb)
}

/// The first spine index whose manifest item `href` points at.
pub fn spine_index_for_href(book: &EpubBook, href: &str) -> (r: Option<usize>)
    ensures
        match r {
            Some(i) => spine_index_for_href_spec(*book, href@, 0) == Some(i as int),
            None => spine_index_for_href_spec(*book, href@, 0) is None,
        },
{
    let h = chars_of(href);
    let clean = strip_href_fragment(&h);
    let mut i: usize = 0;
    while i < book.spine.len()
        invariant
            i <= book.spine@.len(),
            clean@ == strip_href_fragment_spec(href@),
            spine_index_for_href_spec(*book, href@, 0) == spine_index_for_href_spec(
                *book,
                href@,
                i as int,
            ),
        decreases book.spine@.len() - i,
    {
        match book.manifest_item(book.spine[i].idref.as_str()) {
            Some(item) => {
                let mh_full = chars_of(item.href.as_str());
                let mh = strip_href_fragment(&mh_full);
                if href_matches_exec(&mh, &clean) {
                    return Some(i);
                }
            },
            None => {},
        }
        i = i + 1;
    }
    None
}

// ── Whitespace-separated tokens ──────────────────────────────────────────────

/// `s[i..j]` is one of the white-space-separated tokens of `s`.
pub open spec fn is_token_at(s: Seq<char>, i: int, j: int) -> bool {
    &&& 0 <= i < j <= s.len()
    &&& forall|k: int| i <= k < j ==> !is_unicode_space(#[trigger] s[k])
    &&& (i == 0 || is_unicode_space(s[i - 1]))
    &&& (j == s.len() || is_unicode_space(s[j]))
}

/// `tok` is one of the white-space-separated tokens of `s`.
pub open spec fn has_token(s: Seq<char>, tok: Seq<char>) -> bool {
    exists|i: int, j: int| is_token_at(s, i, j) && s.subrange(i, j) == tok
}

/// The tokens of `s`, as (start, end) pairs, scanning from `i`.
fn next_token(s: &[char], i: usize) -> (r: Option<(usize, usize)>)
    requires
        i <= s@.len(),
        i == 0 || i == s@.len() || is_unicode_space(s@[i - 1]) || is_unicode_space(s@[i as int]),
    ensures
        match r {
            Some((a, b)) => i <= a < b <= s@.len() && is_token_at(s@, a as int, b as int) && forall|
                k: int,
            |
                i <= k < a ==> is_unicode_space(#[trigger] s@[k]),
            None => forall|k: int| i <= k < s@.len() ==> is_unicode_space(#[trigger] s@[k]),
        },
{
    let mut a = i;
    while a < s.len() && is_unicode_space_exec(s[a])
        invariant
            i <= a <= s@.len(),
            forall|k: int| i <= k < a ==> is_unicode_space(#[trigger] s@[k]),
        decreases s@.len() - a,
    {
        a = a + 1;
    }
    if a == s.len() {
        return None;
    }
    let mut b = a;
    while b < s.len() && !is_unicode_space_exec(s[b])
        invariant
            a <= b <= s@.len(),
            forall|k: int| a <= k < b ==> !is_unicode_space(#[trigger] s@[k]),
        decreases s@.len() - b,
    {
        b = b + 1;
    }
    Some((a, b))
}

/// Whether `tok` (non-empty, no white space) is a token of `s`
/// (`s.split_whitespace().any(|t| t == tok)`).
pub fn has_token_exec(s: &[char], tok: &[char]) -> (b: bool)
    requires
        tok@.len() > 0,
        forall|k: int| 0 <= k < tok@.len() ==> !is_unicode_space(#[trigger] tok@[k]),
    ensures
        b == has_token(s@, tok@),
{
    let mut i: usize = 0;
    while i < s.len()
        invariant
            i <= s@.len(),
            i == 0 || i == s@.len() || is_unicode_space(s@[i - 1]) || is_unicode_space(s@[i as int]),
            forall|a: int, c: int|
                0 <= a < i && is_token_at(s@, a, c) ==> s@.subrange(a, c) != tok@,
        decreases s@.len() - i,
    {
        match next_token(s, i) {
            None => {
                proof {
                    assert forall|a: int, c: int| 0 <= a && is_token_at(s@, a, c) implies s@.subrange(
                        a,
                        c,
                    ) != tok@ by {
                        if a >= i {
                            assert(is_unicode_space(s@[a]));
                        }
                    }
                }
                return false;
            },
            Some((a, c)) => {
                let t = slice_chars(s, a, c);
                if eq_chars(&t, tok) {
                    return true;
                }
                proof {
                    assert forall|x: int, y: int|
                        0 <= x < c && is_token_at(s@, x, y) implies s@.subrange(x, y) != tok@ by {
                        if x >= i && x < a {
                            assert(is_unicode_space(s@[x]));
                        }
                        if x > a && x < c {
                            assert(!is_unicode_space(s@[x - 1]));
                        }
                        if x == a && y != c {
                            if y < c {
                                assert(!is_unicode_space(s@[y]));
                            } else {
                                assert(!is_unicode_space(s@[c as int]));
                            }
                        }
                    }
                }
                i = c;
                if i < s.len() {
                    // the character after a token is white space
                    assert(is_unicode_space(s@[c as int]));
                }
            },
        }
    }
    assert forall|a: int, c: int| 0 <= a && is_token_at(s@, a, c) implies s@.subrange(a, c) != tok@ by {
    }
    false
}

// ── Cover heuristics ─────────────────────────────────────────────────────────

/// A manifest `properties` value marks the cover image.
pub open spec fn is_cover_property(p: Seq<char>) -> bool {
    p == "cover-image"@ || has_token(p, "cover-image"@)
}

/// A spine item looks like a cover or title page: it is the metadata's
/// cover, its id says cover / title page, or its manifest item's href or
/// properties do.
pub open spec fn looks_like_cover_spec(book: EpubBook, item: SpineItem) -> bool {
    let id_lower = lower_spec(item.idref@);
    ||| (book.metadata.cover_id matches Some(cid) && cid@ == item.idref@)
    ||| contains_seq(id_lower, "cover"@)
    ||| contains_seq(id_lower, "titlepage"@)
    ||| id_lower == "title"@
    ||| (manifest_index(book.manifest@, item.idref@) matches Some(m) && ({
        let mi = book.manifest@[m];
        ||| contains_seq(lower_spec(mi.href@), "cover"@)
        ||| contains_seq(lower_spec(mi.href@), "titlepage"@)
        ||| exists|k: int|
            0 <= k < mi.properties@.len() && is_cover_property(#[trigger] mi.properties@[k]@)
    }))
}

/// A spine item whose id or manifest href, lower-cased, mentions `cover`
/// or `titlepage`, or whose id is `title`, looks like a cover.
pub proof fn law_title_pages_look_like_covers(book: EpubBook, item: SpineItem)
    requires
        contains_seq(lower_spec(item.idref@), "cover"@) || contains_seq(lower_spec(item.idref@), "titlepage"@)
            || lower_spec(item.idref@) == "title"@ || (manifest_index(book.manifest@, item.idref@) matches Some(m)
            && (contains_seq(lower_spec(book.manifest@[m].href@), "cover"@) || contains_seq(
            lower_spec(book.manifest@[m].href@),
            "titlepage"@,
        ))),
    ensures
        looks_like_cover_spec(book, item),
{
}

/// Whether a spine item looks like a cover or title page (skipped when
/// choosing where to open a book).
pub fn looks_like_cover_spine(book: &EpubBook, spine_item: &SpineItem) -> (b: bool)
    ensures
        b == looks_like_cover_spec(*book, *spine_item),
{
    proof {
        reveal_strlit("cover-image");
    }
    let is_cover_id = match &book.metadata.cover_id {
        Some(cid) => {
            let a = chars_of(cid.as_str());
            let b = chars_of(spine_item.idref.as_str());
            eq_chars(&a, &b)
        },
        None => false,
    };
    if is_cover_id {
        return true;
    }
    let id_lower = lower_chars(&chars_of(spine_item.idref.as_str()));
    if contains_chars(&id_lower, &lit("cover")) || contains_chars(&id_lower, &lit("titlepage"))
        || eq_str(&id_lower, "title") {
        return true;
    }
    match book.manifest_item(spine_item.idref.as_str()) {
        Some(item) => {
            let href_lower = lower_chars(&chars_of(item.href.as_str()));
            if contains_chars(&href_lower, &lit("cover")) || contains_chars(
                &href_lower,
                &lit("titlepage"),
            ) {
                return true;
            }
            let tok = lit("cover-image");
            proof {
                assert forall|k: int| 0 <= k < tok@.len() implies !is_unicode_space(
                    #[trigger] tok@[k],
                ) by {}
            }
            let mut k: usize = 0;
            while k < item.properties.len()
                invariant
                    k <= item.properties@.len(),
                    manifest_index(book.manifest@, spine_item.idref@) matches Some(m) && *item
                        == book.manifest@[m],
                    tok@ == "cover-image"@,
                    tok@.len() > 0,
                    forall|j: int| 0 <= j < tok@.len() ==> !is_unicode_space(#[trigger] tok@[j]),
                    forall|j: int| 0 <= j < k ==> !is_cover_property(#[trigger] item.properties@[j]@),
                decreases item.properties@.len() - k,
            {
                let pc = chars_of(item.properties[k].as_str());
                if eq_chars(&pc, &tok) || has_token_exec(&pc, &tok) {
                    assert(is_cover_property(item.properties@[k as int]@));
                    return true;
                }
                k = k + 1;
            }
            false
        },
        None => false,
    }
}

// ── Landmarks ────────────────────────────────────────────────────────────────

/// `t` without any leading `epub:` prefixes.
pub open spec fn strip_epub_prefix(t: Seq<char>) -> Seq<char>
    decreases t.len(),
{
    if starts_with(t, seq!['e', 'p', 'u', 'b', ':']) {
        strip_epub_prefix(t.skip(5))
    } else {
        t
    }
}

/// A role token names `wanted`: `wanted` itself, or any `prefix:wanted`.
pub open spec fn role_token_matches(t: Seq<char>, wanted: Seq<char>) -> bool {
    strip_epub_prefix(t) == wanted || ends_with(strip_epub_prefix(t), seq![':'] + wanted)
}

/// Some white-space-separated token of a landmark's role names `wanted`.
pub open spec fn landmark_matches_role_spec(role_attr: Seq<char>, wanted: Seq<char>) -> bool {
    exists|i: int, j: int|
        is_token_at(role_attr, i, j) && role_token_matches(role_attr.subrange(i, j), wanted)
}

fn strip_epub_prefix_exec(t: &[char]) -> (r: Vec<char>)
    ensures
        r@ == strip_epub_prefix(t@),
{
    let prefix = lit("epub:");
    proof {
        reveal_strlit("epub:");
        assert(prefix@ =~= seq!['e', 'p', 'u', 'b', ':']);
    }
    let mut i: usize = 0;
    assert(t@.skip(0) =~= t@);
    while i <= t.len() && crate::text::has_prefix_at(t, i, &prefix)
        invariant
            i <= t@.len(),
            prefix@ == seq!['e', 'p', 'u', 'b', ':'],
            strip_epub_prefix(t@) == strip_epub_prefix(t@.skip(i as int)),
        decreases t@.len() - i,
    {
        assert(t@.subrange(i as int, t@.len() as int) =~= t@.skip(i as int));
        assert(t@.skip(i as int).skip(5) =~= t@.skip(i + 5));
        i = i + 5;
    }
    assert(t@.subrange(i as int, t@.len() as int) =~= t@.skip(i as int));
    slice_chars(t, i, t.len())
}

fn role_token_matches_exec(t: &[char], wanted: &[char]) -> (b: bool)
    ensures
        b == role_token_matches(t@, wanted@),
{
    let u = strip_epub_prefix_exec(t);
    if eq_chars(&u, wanted) {
        return true;
    }
    let mut suffix: Vec<char> = Vec::new();
    suffix.push(':');
    extend_chars(&mut suffix, wanted);
    assert(suffix@ =~= seq![':'] + wanted@);
    let ss = string_from_chars(&suffix);
    has_suffix(&u, ss.as_str())
}

/// Whether a landmark's `epub:type` names `wanted` (`epub:` prefixes and
/// vocabulary prefixes are allowed).
pub fn landmark_matches_role(role_attr: &str, wanted: &str) -> (b: bool)
    ensures
        b == landmark_matches_role_spec(role_attr@, wanted@),
{
    let s = chars_of(role_attr);
    let w = chars_of(wanted);
    let mut i: usize = 0;
    while i < s.len()
        invariant
            i <= s@.len(),
            s@ == role_attr@,
            w@ == wanted@,
            i == 0 || i == s@.len() || is_unicode_space(s@[i - 1]) || is_unicode_space(s@[i as int]),
            forall|a: int, c: int|
                0 <= a < i && is_token_at(s@, a, c) ==> !role_token_matches(s@.subrange(a, c), w@),
        decreases s@.len() - i,
    {
        match next_token(&s, i) {
            None => {
                proof {
                    assert forall|a: int, c: int| 0 <= a && is_token_at(s@, a, c) implies !role_token_matches(
                        s@.subrange(a, c),
                        w@,
                    ) by {
                        if a >= i {
                            assert(is_unicode_space(s@[a]));
                        }
                    }
                }
                return false;
            },
            Some((a, c)) => {
                let t = slice_chars(&s, a, c);
                if role_token_matches_exec(&t, &w) {
                    return true;
                }
                proof {
                    assert forall|x: int, y: int|
                        0 <= x < c && is_token_at(s@, x, y) implies !role_token_matches(
                        s@.subrange(x, y),
                        w@,
                    ) by {
                        if x >= i && x < a {
                            assert(is_unicode_space(s@[x]));
                        }
                        if x > a && x < c {
                            assert(!is_unicode_space(s@[x - 1]));
                        }
                        if x == a && y != c {
                            if y < c {
                                assert(!is_unicode_space(s@[y]));
                            } else {
                                assert(!is_unicode_space(s@[c as int]));
                            }
                        }
                    }
                }
                i = c;
            },
        }
    }
    assert forall|a: int, c: int| 0 <= a && is_token_at(s@, a, c) implies !role_token_matches(
        s@.subrange(a, c),
        w@,
    ) by {}
    false
}

// ── Manifest lookup by path ──────────────────────────────────────────────────

/// A manifest href matches a path: equal, or one a suffix of the other.
pub open spec fn manifest_href_matches(href: Seq<char>, path: Seq<char>) -> bool {
    href == path || ends_with(href, path) || ends_with(path, href)
}

/// The first manifest item (from index `from`) whose href matches `path`.
pub open spec fn match_manifest_spec(manifest: Seq<ManifestItem>, path: Seq<char>, from: int) -> Option<
    int,
>
    decreases manifest.len() - from,
{
    if from < 0 || from >= manifest.len() {
        None
    } else if manifest_href_matches(manifest[from].href@, path) {
        Some(from)
    } else {
        match_manifest_spec(manifest, path, from + 1)
    }
}

/// The first manifest item whose href equals `path` or is a suffix of it
/// (or has it as a suffix).
pub fn match_manifest_item<'a>(book: &'a EpubBook, path: &str) -> (r: Option<&'a ManifestItem>)
    ensures
        match r {
            Some(m) => match_manifest_spec(book.manifest@, path@, 0) matches Some(i) && *m
                == book.manifest@[i],
            None => match_manifest_spec(book.manifest@, path@, 0) is None,
        },
{
    let pc = chars_of(path);
    let mut i: usize = 0;
    while i < book.manifest.len()
        invariant
            i <= book.manifest@.len(),
            pc@ == path@,
            match_manifest_spec(book.manifest@, path@, 0) == match_manifest_spec(
                book.manifest@,
                path@,
                i as int,
            ),
        decreases book.manifest@.len() - i,
    {
        let h = chars_of(book.manifest[i].href.as_str());
        let ps = string_from_chars(&pc);
        let hs = string_from_chars(&h);
        if eq_chars(&h, &pc) || has_suffix(&h, ps.as_str()) || has_suffix(&pc, hs.as_str()) {
            return Some(&book.manifest[i]);
        }
        i = i + 1;
    }
    None
}

// ── Where to open ────────────────────────────────────────────────────────────

/// The landmark roles that mark where the main text starts, by preference.
pub open spec fn start_roles() -> Seq<Seq<char>> {
    seq!["bodymatter"@, "text"@, "chapter"@, "body"@]
}

/// The guide reference types that mark where the main text starts.
pub open spec fn start_guide_types() -> Seq<Seq<char>> {
    seq!["text"@, "start"@]
}

/// The first landmark (from `from`) whose role names `role`.
pub open spec fn landmark_with_role(landmarks: Seq<TocEntry>, role: Seq<char>, from: int) -> Option<
    int,
>
    decreases landmarks.len() - from,
{
    if from < 0 || from >= landmarks.len() {
        None
    } else if landmarks[from].role matches Some(r) && landmark_matches_role_spec(r@, role) {
        Some(from)
    } else {
        landmark_with_role(landmarks, role, from + 1)
    }
}

/// The first guide reference (from `from`) of type `wanted` (ASCII case-insensitively).
pub open spec fn guide_with_type(book: EpubBook, wanted: Seq<char>, from: int) -> Option<int>
    decreases book.guide@.len() - from,
{
    if from < 0 || from >= book.guide@.len() {
        None
    } else if lower_spec(book.guide@[from].ref_type@) == lower_spec(wanted) {
        Some(from)
    } else {
        guide_with_type(book, wanted, from + 1)
    }
}

/// The first linear spine item (from `from`) that does not look like a cover.
pub open spec fn first_readable(book: EpubBook, from: int) -> Option<int>
    decreases book.spine@.len() - from,
{
    if from < 0 || from >= book.spine@.len() {
        None
    } else if book.spine@[from].linear && !looks_like_cover_spec(book, book.spine@[from]) {
        Some(from)
    } else {
        first_readable(book, from + 1)
    }
}

/// The manifest href of spine item `i`, if it has a manifest item.
pub open spec fn spine_href(book: EpubBook, i: int) -> Option<Seq<char>> {
    match manifest_index(book.manifest@, book.spine@[i].idref@) {
        Some(m) => Some(book.manifest@[m].href@),
        None => None,
    }
}

/// Where a reader should open, as (spine index, source, href): the first
/// preferred landmark role, then guide type, that leads to a spine item;
/// then the first linear spine item that does not look like a cover; then
/// spine item 0.
pub open spec fn reading_start_spec(book: EpubBook, landmarks: Seq<TocEntry>, step: int) -> (
    int,
    Seq<char>,
    Option<Seq<char>>,
)
    decreases 7 - step,
{
    if 0 <= step < 4 {
        let role = start_roles()[step];
        match landmark_with_role(landmarks, role, 0) {
            Some(e) => match spine_index_for_href_spec(book, landmarks[e].href@, 0) {
                Some(idx) => (idx, "landmark:"@ + role, Some(landmarks[e].href@)),
                None => reading_start_spec(book, landmarks, step + 1),
            },
            None => reading_start_spec(book, landmarks, step + 1),
        }
    } else if 4 <= step < 6 {
        let wanted = start_guide_types()[step - 4];
        match guide_with_type(book, wanted, 0) {
            Some(g) => match spine_index_for_href_spec(book, book.guide@[g].href@, 0) {
                Some(idx) => (idx, "guide:"@ + wanted, Some(book.guide@[g].href@)),
                None => reading_start_spec(book, landmarks, step + 1),
            },
            None => reading_start_spec(book, landmarks, step + 1),
        }
    } else {
        match first_readable(book, 0) {
            Some(idx) => (
                idx,
                if idx == 0 {
                    "spine_zero"@
                } else {
                    "cover_skip"@
                },
                spine_href(book, idx),
            ),
            None => (
                0,
                "spine_zero"@,
                if book.spine@.len() > 0 {
                    spine_href(book, 0)
                } else {
                    None
                },
            ),
        }
    }
}

proof fn lemma_landmark_with_role(landmarks: Seq<TocEntry>, role: Seq<char>, from: int)
    ensures
        landmark_with_role(landmarks, role, from) matches Some(e) ==> from <= e < landmarks.len(),
    decreases landmarks.len() - from,
{
    if !(from < 0 || from >= landmarks.len()) {
        lemma_landmark_with_role(landmarks, role, from + 1);
    }
}

proof fn lemma_guide_with_type(book: EpubBook, wanted: Seq<char>, from: int)
    ensures
        guide_with_type(book, wanted, from) matches Some(g) ==> from <= g < book.guide@.len(),
    decreases book.guide@.len() - from,
{
    if !(from < 0 || from >= book.guide@.len()) {
        lemma_guide_with_type(book, wanted, from + 1);
    }
}

fn find_landmark(landmarks: &[TocEntry], role: &str) -> (r: Option<usize>)
    ensures
        match r {
            Some(e) => landmark_with_role(landmarks@, role@, 0) == Some(e as int) && e < landmarks@.len(),
            None => landmark_with_role(landmarks@, role@, 0) is None,
        },
{
    proof {
        lemma_landmark_with_role(landmarks@, role@, 0);
    }
    let mut i: usize = 0;
    while i < landmarks.len()
        invariant
            i <= landmarks@.len(),
            landmark_with_role(landmarks@, role@, 0) == landmark_with_role(landmarks@, role@, i as int),
        decreases landmarks@.len() - i,
    {
        match &landmarks[i].role {
            Some(r) => {
                if landmark_matches_role(r.as_str(), role) {
                    return Some(i);
                }
            },
            None => {},
        }
        i = i + 1;
    }
    None
}

fn find_guide(book: &EpubBook, wanted: &str) -> (r: Option<usize>)
    ensures
        match r {
            Some(g) => guide_with_type(*book, wanted@, 0) == Some(g as int) && g < book.guide@.len(),
            None => guide_with_type(*book, wanted@, 0) is None,
        },
{
    proof {
        lemma_guide_with_type(*book, wanted@, 0);
    }
    let w = lower_chars(&chars_of(wanted));
    let mut i: usize = 0;
    while i < book.guide.len()
        invariant
            i <= book.guide@.len(),
            w@ == lower_spec(wanted@),
            guide_with_type(*book, wanted@, 0) == guide_with_type(*book, wanted@, i as int),
        decreases book.guide@.len() - i,
    {
        let t = lower_chars(&chars_of(book.guide[i].ref_type.as_str()));
        if eq_chars(&t, &w) {
            return Some(i);
        }
        i = i + 1;
    }
    None
}

fn spine_href_exec(book: &EpubBook, i: usize) -> (r: Option<String>)
    requires
        i < book.spine@.len(),
    ensures
        crate::processor::rewrite::opt_view(r) == spine_href(*book, i as int),
{
    match book.manifest_item(book.spine[i].idref.as_str()) {
        Some(m) => Some(m.href.clone()),
        None => None,
    }
}

/// Preferred first-open spine index.
///
/// Order:
/// 1. EPUB 3 landmarks (`bodymatter`, `text`, `chapter`, `body`)
/// 2. EPUB 2 guide references (`text`, then `start`)
/// 3. First linear spine item that does not look like a cover or title page
/// 4. Spine index 0
pub fn preferred_reading_start(book: &EpubBook, landmarks: &[TocEntry]) -> (r: ReadingStartInfo)
    ensures
        ({
            let (idx, source, href) = reading_start_spec(*book, landmarks@, 0);
            &&& r.spine_index == idx
            &&& r.source@ == source
            &&& crate::processor::rewrite::opt_view(r.href) == href
        }),
{
    proof {
        reveal_strlit("bodymatter");
        reveal_strlit("text");
        reveal_strlit("chapter");
        reveal_strlit("body");
        reveal_strlit("start");
    }
    let roles = ["bodymatter", "text", "chapter", "body"];
    let mut step: usize = 0;
    while step < 4
        invariant
            step <= 4,
            roles@ == seq!["bodymatter", "text", "chapter", "body"],
            reading_start_spec(*book, landmarks@, 0) == reading_start_spec(*book, landmarks@, step as int),
        decreases 4 - step,
    {
        let role = roles[step];
        assert(role@ == start_roles()[step as int]);
        match find_landmark(landmarks, role) {
            Some(e) => {
                match spine_index_for_href(book, landmarks[e].href.as_str()) {
                    Some(idx) => {
                        let mut source = lit("landmark:");
                        extend_chars(&mut source, &chars_of(role));
                        return ReadingStartInfo {
                            spine_index: idx,
                            source: string_from_chars(&source),
                            href: Some(landmarks[e].href.clone()),
                        };
                    },
                    None => {},
                }
            },
            None => {},
        }
        step = step + 1;
    }
    let types = ["text", "start"];
    let mut g: usize = 0;
    while g < 2
        invariant
            g <= 2,
            types@ == seq!["text", "start"],
            reading_start_spec(*book, landmarks@, 0) == reading_start_spec(*book, landmarks@, 4 + g),
        decreases 2 - g,
    {
        let wanted = types[g];
        assert(wanted@ == start_guide_types()[g as int]);
        match find_guide(book, wanted) {
            Some(gi) => {
                match spine_index_for_href(book, book.guide[gi].href.as_str()) {
                    Some(idx) => {
                        let mut source = lit("guide:");
                        extend_chars(&mut source, &chars_of(wanted));
                        return ReadingStartInfo {
                            spine_index: idx,
                            source: string_from_chars(&source),
                            href: Some(book.guide[gi].href.clone()),
                        };
                    },
                    None => {},
                }
            },
            None => {},
        }
        g = g + 1;
    }
    let mut i: usize = 0;
    while i < book.spine.len()
        invariant
            i <= book.spine@.len(),
            reading_start_spec(*book, landmarks@, 0) == reading_start_spec(*book, landmarks@, 6),
            first_readable(*book, 0) == first_readable(*book, i as int),
        decreases book.spine@.len() - i,
    {
        if book.spine[i].linear && !looks_like_cover_spine(book, &book.spine[i]) {
            let source = if i == 0 {
                lit("spine_zero")
            } else {
                lit("cover_skip")
            };
            return ReadingStartInfo {
                spine_index: i,
                source: string_from_chars(&source),
                href: spine_href_exec(book, i),
            };
        }
        i = i + 1;
    }
    let href = if book.spine.len() > 0 {
        spine_href_exec(book, 0)
    } else {
        None
    };
    ReadingStartInfo { spine_index: 0, source: string_from_chars(&lit("spine_zero")), href: href }
}

// ── Search hits ──────────────────────────────────────────────────────────────

/// A cap with 0 read as the default.
pub open spec fn cap_or(n: usize, default: nat) -> nat {
    if n == 0 {
        default
    } else {
        n as nat
    }
}

/// The per-chapter and total caps of a search: 0 means the default (12 and 80).
pub fn search_caps(options: &SearchBookOptions) -> (r: (usize, usize))
    ensures
        r.0 == cap_or(options.max_per_chapter, 12),
        r.1 == cap_or(options.max_total, 80),
{
    let per = if options.max_per_chapter == 0 {
        default_max_per_chapter()
    } else {
        options.max_per_chapter
    };
    let total = if options.max_total == 0 {
        default_max_total()
    } else {
        options.max_total
    };
    (per, total)
}

/// A hit as values: spine index, manifest id, excerpt, CFI.
pub open spec fn hit_view(h: BookSearchHit) -> (usize, Seq<char>, Seq<char>, Seq<char>) {
    (h.spine_index, h.manifest_id@, h.excerpt@, h.cfi@)
}

/// The hits kept from spine item `i`: its first `max_per` results.
pub open spec fn chapter_hits_spec(
    book: EpubBook,
    i: int,
    results: Seq<SearchResult>,
    max_per: nat,
) -> Seq<(usize, Seq<char>, Seq<char>, Seq<char>)> {
    Seq::new(
        if results.len() < max_per {
            results.len()
        } else {
            max_per
        },
        |j: int| (i as usize, book.spine@[i].idref@, results[j].excerpt@, results[j].cfi@),
    )
}

/// Spine item `i` is searched: linear, or non-linear items are included.
pub open spec fn searched(book: EpubBook, i: int, include_non_linear: bool) -> bool {
    include_non_linear || book.spine@[i].linear
}

/// The hits of the first `n` spine items, before the total cap.
pub open spec fn book_hits_spec(
    book: EpubBook,
    results: Seq<Option<Vec<SearchResult>>>,
    include_non_linear: bool,
    max_per: nat,
    n: int,
) -> Seq<(usize, Seq<char>, Seq<char>, Seq<char>)>
    decreases n,
{
    if n <= 0 {
        Seq::empty()
    } else {
        book_hits_spec(book, results, include_non_linear, max_per, n - 1) + match results[n - 1] {
            Some(r) => if searched(book, n - 1, include_non_linear) {
                chapter_hits_spec(book, n - 1, r@, max_per)
            } else {
                Seq::empty()
            },
            None => Seq::empty(),
        }
    }
}

proof fn lemma_book_hits_prefix(
    book: EpubBook,
    results: Seq<Option<Vec<SearchResult>>>,
    include_non_linear: bool,
    max_per: nat,
    k: int,
    n: int,
)
    requires
        0 <= k <= n,
    ensures
        book_hits_spec(book, results, include_non_linear, max_per, k).len() <= book_hits_spec(
            book,
            results,
            include_non_linear,
            max_per,
            n,
        ).len(),
        book_hits_spec(book, results, include_non_linear, max_per, k) == book_hits_spec(
            book,
            results,
            include_non_linear,
            max_per,
            n,
        ).take(book_hits_spec(book, results, include_non_linear, max_per, k).len() as int),
    decreases n - k,
{
    if k < n {
        lemma_book_hits_prefix(book, results, include_non_linear, max_per, k, n - 1);
        let a = book_hits_spec(book, results, include_non_linear, max_per, k);
        let b = book_hits_spec(book, results, include_non_linear, max_per, n - 1);
        let c = book_hits_spec(book, results, include_non_linear, max_per, n);
        assert(c.take(b.len() as int) =~= b);
        assert(c.take(a.len() as int) =~= b.take(a.len() as int));
    } else {
        let a = book_hits_spec(book, results, include_non_linear, max_per, k);
        assert(a.take(a.len() as int) =~= a);
    }
}

/// The book's search hits from per-spine-item results (`None` for an item
/// that could not be searched): each searched item contributes its first
/// `max_per_chapter` results, in spine order, and at most `max_total` hits
/// are kept.
pub fn collect_search_hits(
    book: &EpubBook,
    results: &[Option<Vec<SearchResult>>],
    options: &SearchBookOptions,
) -> (hits: Vec<BookSearchHit>)
    requires
        results@.len() == book.spine@.len(),
    ensures
        ({
            let all = book_hits_spec(
                *book,
                results@,
                options.include_non_linear,
                cap_or(options.max_per_chapter, 12),
                book.spine@.len() as int,
            );
            &&& hits@.len() == (if all.len() < cap_or(options.max_total, 80) {
                all.len()
            } else {
                cap_or(options.max_total, 80)
            })
            &&& forall|k: int| 0 <= k < hits@.len() ==> hit_view(#[trigger] hits@[k]) == all[k]
        }),
{
    let (max_per, max_total) = search_caps(options);
    let ghost n = book.spine@.len() as int;
    let ghost incl = options.include_non_linear;
    let mut hits: Vec<BookSearchHit> = Vec::new();
    let mut i: usize = 0;
    while i < book.spine.len() && hits.len() < max_total
        invariant
            i <= book.spine@.len(),
            results@.len() == book.spine@.len(),
            incl == options.include_non_linear,
            max_per == cap_or(options.max_per_chapter, 12),
            max_total == cap_or(options.max_total, 80),
            max_total >= 1,
            hits@.len() <= max_total,
            hits@.len() == (if book_hits_spec(*book, results@, incl, max_per as nat, i as int).len()
                < max_total {
                book_hits_spec(*book, results@, incl, max_per as nat, i as int).len()
            } else {
                max_total as nat
            }),
            forall|k: int|
                0 <= k < hits@.len() ==> hit_view(#[trigger] hits@[k]) == book_hits_spec(
                    *book,
                    results@,
                    incl,
                    max_per as nat,
                    i as int,
                )[k],
        decreases book.spine@.len() - i,
    {
        let ghost before = book_hits_spec(*book, results@, incl, max_per as nat, i as int);
        let ghost after = book_hits_spec(*book, results@, incl, max_per as nat, i + 1);
        let ghost start_len = hits@.len();
        if options.include_non_linear || book.spine[i].linear {
            match &results[i] {
                Some(found) => {
                    let ghost chap = chapter_hits_spec(*book, i as int, found@, max_per as nat);
                    assert(after == before + chap);
                    let mut j: usize = 0;
                    while j < found.len() && j < max_per && hits.len() < max_total
                        invariant
                            j <= found@.len(),
                            j <= max_per,
                            i < book.spine@.len(),
                            start_len == before.len(),
                            hits@.len() == start_len + j,
                            hits@.len() <= max_total,
                            after == before + chap,
                            chap == chapter_hits_spec(*book, i as int, found@, max_per as nat),
                            forall|k: int|
                                0 <= k < hits@.len() ==> hit_view(#[trigger] hits@[k]) == after[k],
                        decreases found@.len() - j,
                    {
                        let r = &found[j];
                        let ghost hb = hits@;
                        hits.push(
                            BookSearchHit {
                                spine_index: i,
                                manifest_id: book.spine[i].idref.clone(),
                                excerpt: r.excerpt.clone(),
                                cfi: r.cfi.clone(),
                            },
                        );
                        proof {
                            assert(after[hb.len() as int] == chap[j as int]);
                            assert forall|k: int| 0 <= k < hits@.len() implies hit_view(
                                #[trigger] hits@[k],
                            ) == after[k] by {
                                if k < hb.len() {
                                    assert(hits@[k] == hb[k]);
                                }
                            }
                        }
                        j = j + 1;
                    }
                },
                None => {
                    assert(after == before + Seq::<(usize, Seq<char>, Seq<char>, Seq<char>)>::empty());
                    assert(after =~= before);
                },
            }
        } else {
            assert(after =~= before);
        }
        proof {
            assert(hits@.len() == (if after.len() < max_total {
                after.len()
            } else {
                max_total as nat
            }));
        }
        i = i + 1;
    }
    proof {
        lemma_book_hits_prefix(*book, results@, incl, max_per as nat, i as int, n);
    }
    hits
}

} // verus!
