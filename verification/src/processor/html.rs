//! HTML URL rewriting: attributes of resource-bearing elements, `srcset`
//! lists, `style=""` attributes and inline `<style>` blocks.
//!
//! The decisions are made here on plain values; an HTML tokenizer hands
//! each element over through [`HtmlElementMut`].
use vstd::prelude::*;
use crate::text::{
    starts_with, trim_spec, trim_start_spec, chars_of, string_from_chars, slice_chars, extend_chars,
    has_prefix, trim_bounds, trim_start_index, contains_seq, contains_chars, lit, eq_str, trim_chars,
    first_pos, lemma_first_pos, find_seq_from, lemma_find_seq_from, find_chars_from, find_char_from,
    eq_chars,
};
use crate::path::{
    split_on, join_with, join_spec, percent_decoded, strip_query_and_fragment_spec, seg_views,
    split_chars, join_parts, normalize_path, split_fragment_spec, split_fragment, parent_dir_spec,
    parent_dir,
};
use crate::error::EpubError;
use crate::processor::rewrite::{may_answer, opt_view, opt_views, answer_at, is_css_rewrite, rewrite_css_urls, law_declining_resolver_keeps_css};

verus! {

// ── External URLs ────────────────────────────────────────────────────────────

/// A reference that attribute rewriting leaves alone: a web or mail scheme,
/// a data URI or a protocol-relative URL.
pub open spec fn is_external_html_spec(url: Seq<char>) -> bool {
    ||| starts_with(url, "http://"@)
    ||| starts_with(url, "https://"@)
    ||| starts_with(url, "data:"@)
    ||| starts_with(url, "mailto:"@)
    ||| starts_with(url, "ftp:"@)
    ||| starts_with(url, "//"@)
}

fn is_external_url(v: &[char]) -> (b: bool)
    ensures
        b == is_external_html_spec(v@),
{
    has_prefix(v, "http://") || has_prefix(v, "https://") || has_prefix(v, "data:")
        || has_prefix(v, "mailto:") || has_prefix(v, "ftp:") || has_prefix(v, "//")
}

/// The path the resolver is asked about for a reference: without query and
/// fragment, percent-decoded, joined onto `base`.
pub open spec fn ref_target(base: Seq<char>, reference: Seq<char>) -> Seq<char> {
    join_spec(base, percent_decoded(strip_query_and_fragment_spec(reference)))
}

// ── srcset ───────────────────────────────────────────────────────────────────

/// ASCII white space (`char::is_ascii_whitespace`).
pub open spec fn is_ascii_space(c: char) -> bool {
    c == ' ' || c == '\t' || c == '\n' || c == '\x0C' || c == '\r'
}

/// Index of the first ASCII white space in `s`, or `s.len()`.
pub open spec fn first_ascii_space(s: Seq<char>) -> int
    decreases s.len(),
{
    if s.len() == 0 {
        0
    } else if is_ascii_space(s[0]) {
        0
    } else {
        1 + first_ascii_space(s.drop_first())
    }
}

/// The URL of a `srcset` candidate: its trimmed text up to the first white space.
pub open spec fn candidate_url(c: Seq<char>) -> Seq<char> {
    trim_spec(c).take(first_ascii_space(trim_spec(c)))
}

/// The descriptor of a `srcset` candidate (`" 2x"`, `" 400w"` or empty).
pub open spec fn candidate_descriptor(c: Seq<char>) -> Seq<char> {
    trim_spec(c).skip(first_ascii_space(trim_spec(c)))
}

/// The white space that leads a candidate.
pub open spec fn candidate_leading(c: Seq<char>) -> Seq<char> {
    c.take(c.len() - trim_start_spec(c).len())
}

/// The resolver is asked about a candidate with a relative URL.
pub open spec fn candidate_asks(c: Seq<char>) -> bool {
    trim_spec(c).len() > 0 && candidate_url(c).len() > 0 && !is_external_html_spec(candidate_url(c))
}

/// What a candidate becomes: with an answer, its leading space, the answer
/// and its descriptor; without one, the candidate as it was.
pub open spec fn candidate_output(c: Seq<char>, answer: Option<Seq<char>>) -> Seq<char> {
    if candidate_asks(c) && answer is Some {
        candidate_leading(c) + answer->0 + candidate_descriptor(c)
    } else {
        c
    }
}

/// The candidates of a `srcset` value (split at every comma).
pub open spec fn srcset_candidates(srcset: Seq<char>) -> Seq<Seq<char>> {
    split_on(srcset, ',')
}

/// `srcset` with each candidate rewritten as its answer says.
pub open spec fn rewritten_srcset(srcset: Seq<char>, answers: Seq<Option<Seq<char>>>) -> Seq<char> {
    let cands = srcset_candidates(srcset);
    join_with(
        Seq::new(cands.len(), |k: int| candidate_output(cands[k], answer_at(answers, k))),
        ',',
    )
}

/// `out` is `srcset` rewritten against `base` with answers `resolver` may give.
pub open spec fn is_srcset_rewrite<F: FnMut(&str) -> Option<String>>(
    resolver: F,
    srcset: Seq<char>,
    base: Seq<char>,
    out: Seq<char>,
) -> bool {
    exists|answers: Seq<Option<Seq<char>>>|
        {
            &&& answers.len() == srcset_candidates(srcset).len()
            &&& forall|k: int|
                0 <= k < answers.len() && candidate_asks(srcset_candidates(srcset)[k]) ==> may_answer(
                    resolver,
                    ref_target(base, candidate_url(srcset_candidates(srcset)[k])),
                    #[trigger] answers[k],
                )
            &&& out == rewritten_srcset(srcset, answers)
        }
}

proof fn lemma_first_ascii_space(s: Seq<char>)
    ensures
        0 <= first_ascii_space(s) <= s.len(),
        first_ascii_space(s) < s.len() ==> is_ascii_space(s[first_ascii_space(s)]),
        forall|j: int| 0 <= j < first_ascii_space(s) ==> !is_ascii_space(#[trigger] s[j]),
    decreases s.len(),
{
    if s.len() > 0 && !is_ascii_space(s[0]) {
        lemma_first_ascii_space(s.drop_first());
        assert forall|j: int| 0 <= j < first_ascii_space(s) implies !is_ascii_space(
            #[trigger] s[j],
        ) by {
            if j > 0 {
                assert(s[j] == s.drop_first()[j - 1]);
            }
        }
    }
}

fn find_ascii_space(cs: &[char]) -> (i: usize)
    ensures
        i == first_ascii_space(cs@),
{
    let mut i: usize = 0;
    while i < cs.len() && !(cs[i] == ' ' || cs[i] == '\t' || cs[i] == '\n' || cs[i] == '\x0C'
        || cs[i] == '\r')
        invariant
            i <= cs@.len(),
            forall|j: int| 0 <= j < i ==> !is_ascii_space(#[trigger] cs@[j]),
        decreases cs@.len() - i,
    {
        i = i + 1;
    }
    proof {
        lemma_first_ascii_space(cs@);
        let f = first_ascii_space(cs@);
        if f < i {
            assert(!is_ascii_space(cs@[f]));
        }
        if i < f {
            assert(!is_ascii_space(cs@[i as int]));
        }
    }
    i
}

/// A candidate's URL, descriptor and leading white space, and whether the
/// resolver is asked about it.
fn candidate_parts(c: &[char]) -> (r: (bool, Vec<char>, Vec<char>, Vec<char>))
    ensures
        r.0 == candidate_asks(c@),
        r.1@ == candidate_url(c@),
        r.2@ == candidate_descriptor(c@),
        r.3@ == candidate_leading(c@),
{
    let (a, z) = trim_bounds(c, 0, c.len());
    assert(c@.subrange(0, c@.len() as int) =~= c@);
    let trimmed = slice_chars(c, a, z);
    let idx = find_ascii_space(&trimmed);
    proof {
        lemma_first_ascii_space(trimmed@);
    }
    let url = slice_chars(&trimmed, 0, idx);
    let desc = slice_chars(&trimmed, idx, trimmed.len());
    let s = trim_start_index(c, 0, c.len());
    let leading = slice_chars(c, 0, s);
    assert(c@.take(c@.len() - trim_start_spec(c@).len()) =~= c@.subrange(0, s as int));
    let asks = trimmed.len() > 0 && url.len() > 0 && !is_external_url(&url);
    (asks, url, desc, leading)
}

/// Rewrites every image URL inside a `srcset` attribute value.
///
/// `srcset` is a comma-separated list of image candidate strings.  Each
/// candidate has the form `"<url> [descriptor]"` where the optional descriptor
/// is a width hint (`400w`) or pixel-density ratio (`2x`).  Every relative URL
/// is resolved via `resolver`; descriptors and external / data URLs are left
/// untouched.  A literal comma inside a URL must be percent-encoded in a
/// conforming `srcset`, so every comma delimits a candidate.
pub fn rewrite_srcset<F>(srcset: &str, base_dir: &str, resolver: &mut F) -> (r: String) where
    F: FnMut(&str) -> Option<String>,

    requires
        forall|q: &str| call_requires(*old(resolver), (q,)),
    ensures
        is_srcset_rewrite(*old(resolver), srcset@, base_dir@, r@),
        *final(resolver) == *old(resolver),
{
    let cs = chars_of(srcset);
    let cands = split_chars(&cs, ',');
    let ghost cv = seg_views(cands@);
    let ghost f0 = *resolver;
    let mut outs: Vec<Vec<char>> = Vec::new();
    let mut answers: Vec<Option<String>> = Vec::new();
    let mut k: usize = 0;
    while k < cands.len()
        invariant
            k <= cands@.len(),
            cv == seg_views(cands@),
            cv == srcset_candidates(srcset@),
            outs@.len() == k,
            answers@.len() == k,
            *resolver == f0,
            forall|q: &str| call_requires(f0, (q,)),
            forall|j: int|
                0 <= j < k ==> (#[trigger] seg_views(outs@)[j]) == candidate_output(
                    cv[j],
                    opt_views(answers@)[j],
                ),
            forall|j: int|
                0 <= j < k && candidate_asks(cv[j]) ==> may_answer(
                    f0,
                    ref_target(base_dir@, candidate_url(cv[j])),
                    #[trigger] opt_views(answers@)[j],
                ),
        decreases cands@.len() - k,
    {
        let cand = cands[k].as_slice();
        assert(cand@ == cv[k as int]);
        let (asks, url, desc, leading) = candidate_parts(cand);
        let ghost outs_before = outs@;
        let ghost answers_before = answers@;
        let ghost c = cv[k as int];
        if asks {
            let url_str = string_from_chars(&url);
            let abs = normalize_path(base_dir, url_str.as_str());
            let a = resolver(abs.as_str());
            proof {
                assert(may_answer(f0, abs@, opt_view(a)));
                assert(abs@ == ref_target(base_dir@, candidate_url(c)));
            }
            match &a {
                Some(new_url) => {
                    let mut piece = leading;
                    let nu = chars_of(new_url.as_str());
                    extend_chars(&mut piece, &nu);
                    extend_chars(&mut piece, &desc);
                    assert(piece@ == candidate_output(c, opt_view(a)));
                    outs.push(piece);
                },
                None => {
                    let piece = slice_chars(cand, 0, cand.len());
                    assert(cand@.subrange(0, cand@.len() as int) =~= cand@);
                    assert(piece@ == candidate_output(c, opt_view(a)));
                    outs.push(piece);
                },
            }
            answers.push(a);
        } else {
            let piece = slice_chars(cand, 0, cand.len());
            assert(cand@.subrange(0, cand@.len() as int) =~= cand@);
            assert(piece@ == candidate_output(c, None));
            outs.push(piece);
            answers.push(None);
        }
        proof {
            assert forall|j: int| 0 <= j < k implies seg_views(outs@)[j] == seg_views(outs_before)[j]
                && opt_views(answers@)[j] == opt_views(answers_before)[j] by {
                assert(outs@[j] == outs_before[j]);
                assert(answers@[j] == answers_before[j]);
            }
            assert(seg_views(outs@)[k as int] == outs@[k as int]@);
            assert(opt_views(answers@)[k as int] == opt_view(answers@[k as int]));
            assert(seg_views(outs@)[k as int] == candidate_output(c, opt_views(answers@)[k as int]));
            assert forall|j: int| 0 <= j < k + 1 implies (#[trigger] seg_views(outs@)[j])
                == candidate_output(cv[j], opt_views(answers@)[j]) by {
                if j < k {
                    assert(seg_views(outs_before)[j] == candidate_output(
                        cv[j],
                        opt_views(answers_before)[j],
                    ));
                }
            }
            assert forall|j: int|
                0 <= j < k + 1 && candidate_asks(cv[j]) implies may_answer(
                f0,
                ref_target(base_dir@, candidate_url(cv[j])),
                #[trigger] opt_views(answers@)[j],
            ) by {
                if j < k {
                    assert(opt_views(answers@)[j] == opt_views(answers_before)[j]);
                }
            }
        }
        k = k + 1;
    }
    let out = join_parts(&outs, ',');
    proof {
        let av = opt_views(answers@);
        assert(seg_views(outs@) =~= Seq::new(
            cv.len(),
            |j: int| candidate_output(cv[j], answer_at(av, j)),
        ));
        assert(av.len() == srcset_candidates(srcset@).len());
        assert(out@ == rewritten_srcset(srcset@, av));
        assert forall|j: int|
            0 <= j < av.len() && candidate_asks(srcset_candidates(srcset@)[j]) implies may_answer(
            f0,
            ref_target(base_dir@, candidate_url(srcset_candidates(srcset@)[j])),
            #[trigger] av[j],
        ) by {}
    }
    string_from_chars(&out)
}

// ── CSS text ─────────────────────────────────────────────────────────────────

/// Rewrites `url(...)` and `@import` references inside a CSS string.
///
/// For each relative URL found, `resolver(epub_root_relative_path)` is called:
/// - `Some(new_url)` → the `url(...)` token is replaced with `url("new_url")`
/// - `None`          → the token is left unchanged
///
/// `css_file_path` is the **EPUB-root-relative path of the CSS file itself**
/// (e.g. `"OEBPS/css/style.css"`), used to resolve relative paths before
/// calling the resolver.  Pass the path of the containing file for inline
/// `<style>` blocks.  External URLs (`http:`, `https:`, `data:`, `blob:`)
/// are always passed through unchanged.
pub fn rewrite_css<F>(css: &str, css_file_path: &str, resolver: F) -> (r: String) where
    F: FnMut(&str) -> Option<String>,

    requires
        forall|q: &str| call_requires(resolver, (q,)),
    ensures
        is_css_rewrite(resolver, css@, parent_dir_spec(css_file_path@), r@),
{
    let path = chars_of(css_file_path);
    let dir = parent_dir(&path);
    let css_dir = string_from_chars(&dir);
    let mut resolver = resolver;
    rewrite_css_impl(css, css_dir.as_str(), &mut resolver)
}

/// Rewrites the CSS URL tokens of `css` against the directory `css_dir`.
pub fn rewrite_css_impl<F>(css: &str, css_dir: &str, resolver: &mut F) -> (r: String) where
    F: FnMut(&str) -> Option<String>,

    requires
        forall|q: &str| call_requires(*old(resolver), (q,)),
    ensures
        is_css_rewrite(*old(resolver), css@, css_dir@, r@),
        *final(resolver) == *old(resolver),
{
    rewrite_css_urls(css, css_dir, resolver)
}

// ── Elements ─────────────────────────────────────────────────────────────────

/// A mutable HTML element, as an HTML tokenizer hands it over.
///
/// Decouples the element mutation interface from concrete SAX/DOM parser
/// libraries.  An implementation keeps the tag name and the attributes as
/// the specification functions describe them.
pub trait HtmlElementMut {
    /// The element's tag name, as the contracts see it.
    closed spec fn tag(&self) -> Seq<char> {
        Seq::empty()
    }

    /// The element's attributes by name, as the contracts see them.
    closed spec fn attributes(&self) -> Map<Seq<char>, Seq<char>> {
        Map::empty()
    }

    /// Returns the element's tag name.
    fn tag_name(&self) -> (r: String)
        ensures
            r@ == self.tag(),
    ;

    /// Retrieves the value of an attribute.
    fn get_attribute(&self, name: &str) -> (r: Option<String>)
        ensures
            match r {
                Some(v) => self.attributes().contains_key(name@) && v@ == self.attributes()[name@],
                None => !self.attributes().contains_key(name@),
            },
    ;

    /// Sets the value of an attribute; on failure nothing changes.
    fn set_attribute(&mut self, name: &str, value: &str) -> (r: Result<(), String>)
        ensures
            final(self).tag() == old(self).tag(),
            r is Ok ==> final(self).attributes() == old(self).attributes().insert(name@, value@),
            r is Err ==> final(self).attributes() == old(self).attributes(),
    ;
}

/// `c` in ASCII lower case.
pub open spec fn ascii_lower(c: char) -> char {
    if 'A' <= c <= 'Z' {
        ((c as u32) + 32) as char
    } else {
        c
    }
}

/// `s` in ASCII lower case.
pub open spec fn lower_spec(s: Seq<char>) -> Seq<char> {
    Seq::new(s.len(), |i: int| ascii_lower(s[i]))
}

fn ascii_lower_exec(c: char) -> (r: char)
    ensures
        r == ascii_lower(c),
{
    if 'A' <= c && c <= 'Z' {
        ((c as u8) + 32) as char
    } else {
        c
    }
}

/// `cs` in ASCII lower case.
pub fn lower_chars(cs: &[char]) -> (v: Vec<char>)
    ensures
        v@ == lower_spec(cs@),
{
    let mut v: Vec<char> = Vec::new();
    let mut i: usize = 0;
    while i < cs.len()
        invariant
            i <= cs@.len(),
            v@ == Seq::new(i as nat, |j: int| ascii_lower(cs@[j])),
        decreases cs@.len() - i,
    {
        v.push(ascii_lower_exec(cs[i]));
        assert(v@ =~= Seq::new((i + 1) as nat, |j: int| ascii_lower(cs@[j])));
        i = i + 1;
    }
    v
}

/// How an attribute of an element is rewritten.
#[derive(Clone, Copy, Debug, PartialEq, Eq)]
pub enum AttrKind {
    /// A plain resource URL.
    Url,
    /// A URL whose `#fragment` survives the rewrite.
    Fragment,
    /// A `srcset` candidate list.
    Srcset,
    /// CSS text.
    Style,
}

pub open spec fn is_media_tag(tag: Seq<char>) -> bool {
    tag == "img"@ || tag == "video"@ || tag == "audio"@ || tag == "source"@ || tag == "track"@
}

pub open spec fn is_link_tag(tag: Seq<char>) -> bool {
    tag == "link"@ || tag == "a"@ || tag == "area"@
}

pub open spec fn is_href_name(name: Seq<char>) -> bool {
    name == "href"@ || name == "xlink:href"@
}

/// Which attributes of an element (by lower-cased tag) are rewritten, and how.
pub open spec fn attr_kind(tag: Seq<char>, name: Seq<char>) -> Option<AttrKind> {
    if is_media_tag(tag) && (name == "src"@ || name == "poster"@) {
        Some(AttrKind::Url)
    } else if is_media_tag(tag) && name == "srcset"@ {
        Some(AttrKind::Srcset)
    } else if tag == "object"@ && name == "data"@ {
        Some(AttrKind::Url)
    } else if tag == "image"@ && is_href_name(name) {
        Some(AttrKind::Url)
    } else if tag == "use"@ && is_href_name(name) {
        Some(AttrKind::Fragment)
    } else if is_link_tag(tag) && name == "href"@ {
        Some(AttrKind::Fragment)
    } else if name == "style"@ {
        Some(AttrKind::Style)
    } else {
        None
    }
}

/// A reference that stays as it is: external, or within the same document.
pub open spec fn is_kept_ref(v: Seq<char>) -> bool {
    is_external_html_spec(v) || starts_with(v, "#"@)
}

/// `w` is what a rewrite of kind `kind` may make of the attribute value `v`.
pub open spec fn kind_outcome<F: FnMut(&str) -> Option<String>>(
    kind: AttrKind,
    resolver: F,
    base: Seq<char>,
    v: Seq<char>,
    w: Seq<char>,
) -> bool {
    match kind {
        AttrKind::Url => if is_kept_ref(v) {
            w == v
        } else {
            exists|a: Option<Seq<char>>|
                may_answer(resolver, ref_target(base, v), a) && w == (if a is Some {
                    a->0
                } else {
                    v
                })
        },
        AttrKind::Fragment => if is_kept_ref(v) || split_fragment_spec(v).0.len() == 0 {
            w == v
        } else {
            exists|a: Option<Seq<char>>|
                may_answer(resolver, ref_target(base, split_fragment_spec(v).0), a) && w == (
                if a is Some {
                    a->0 + split_fragment_spec(v).1
                } else {
                    v
                })
        },
        AttrKind::Srcset => if trim_spec(v).len() == 0 {
            w == v
        } else {
            is_srcset_rewrite(resolver, v, base, w)
        },
        AttrKind::Style => if contains_seq(v, "url("@) {
            is_css_rewrite(resolver, v, base, w)
        } else {
            w == v
        },
    }
}

/// The resolver answers `None` to every question.
pub open spec fn declines_all<F: FnMut(&str) -> Option<String>>(resolver: F) -> bool {
    forall|q: &str, a: Option<String>| call_ensures(resolver, (q,), a) ==> a is None
}

/// A resolver that answers nothing leaves a `srcset` value as it was.
pub proof fn law_declining_resolver_keeps_srcset<F: FnMut(&str) -> Option<String>>(
    resolver: F,
    srcset: Seq<char>,
    base: Seq<char>,
    out: Seq<char>,
)
    requires
        is_srcset_rewrite(resolver, srcset, base, out),
        declines_all(resolver),
    ensures
        out == srcset,
{
    let cands = srcset_candidates(srcset);
    let answers = choose|answers: Seq<Option<Seq<char>>>|
        {
            &&& answers.len() == srcset_candidates(srcset).len()
            &&& forall|k: int|
                0 <= k < answers.len() && candidate_asks(srcset_candidates(srcset)[k]) ==> may_answer(
                    resolver,
                    ref_target(base, candidate_url(srcset_candidates(srcset)[k])),
                    #[trigger] answers[k],
                )
            &&& out == rewritten_srcset(srcset, answers)
        };
    let outs = Seq::new(cands.len(), |k: int| candidate_output(cands[k], answer_at(answers, k)));
    assert forall|k: int| 0 <= k < cands.len() implies outs[k] == cands[k] by {
        if candidate_asks(cands[k]) {
            assert(may_answer(resolver, ref_target(base, candidate_url(cands[k])), answers[k]));
            let (q, a) = choose|q: &str, a: Option<String>|
                q@ == ref_target(base, candidate_url(cands[k])) && call_ensures(resolver, (q,), a) && opt_view(a)
                    == answers[k];
            assert(a is None);
        }
    }
    assert(outs =~= cands);
    crate::path::lemma_join_split(srcset, ',');
}

/// An attribute value that a rewrite of kind `kind` leaves as it is
/// without asking the resolver: a kept reference, a fragment-only
/// reference, a blank `srcset`, or CSS without `url(`.
pub open spec fn inert(kind: AttrKind, v: Seq<char>) -> bool {
    match kind {
        AttrKind::Url => is_kept_ref(v),
        AttrKind::Fragment => is_kept_ref(v) || split_fragment_spec(v).0.len() == 0,
        AttrKind::Srcset => trim_spec(v).len() == 0,
        AttrKind::Style => !contains_seq(v, "url("@),
    }
}

/// Some attribute of an element (lower-cased tag `tag`, attributes `a`)
/// is rewritten and is not inert: only then may processing fail.
pub open spec fn needs_rewrite(tag: Seq<char>, a: Map<Seq<char>, Seq<char>>) -> bool {
    exists|n: Seq<char>|
        #[trigger] a.contains_key(n) && match attr_kind(tag, n) {
            Some(k) => !inert(k, a[n]),
            None => false,
        }
}

/// `w` is what processing may make of attribute `name` (value `v`) of an
/// element with lower-cased tag `tag`.
pub open spec fn attr_outcome<F: FnMut(&str) -> Option<String>>(
    resolver: F,
    base: Seq<char>,
    tag: Seq<char>,
    name: Seq<char>,
    v: Seq<char>,
    w: Seq<char>,
) -> bool {
    match attr_kind(tag, name) {
        Some(kind) => kind_outcome(kind, resolver, base, v, w),
        None => w == v,
    }
}

/// Parser-agnostic processor that holds the URL-mapping and rewriting logic.
pub struct UrlRewritingProcessor<F> {
    /// EPUB-root-relative directory of the document being rewritten.
    pub base_dir: String,
    /// Maps an EPUB-root-relative path to its new URL.
    pub resolver: F,
}

/// One rewrite step on attribute `name`: the other attributes stay, and
/// `name` (when present) gets its outcome, or stays when the step failed.
pub open spec fn attr_step<F: FnMut(&str) -> Option<String>>(
    resolver: F,
    base: Seq<char>,
    name: Seq<char>,
    kind: AttrKind,
    a1: Map<Seq<char>, Seq<char>>,
    a2: Map<Seq<char>, Seq<char>>,
    ok: bool,
) -> bool {
    &&& a2.dom() == a1.dom()
    &&& forall|n: Seq<char>| n != name && a1.contains_key(n) ==> #[trigger] a2[n] == a1[n]
    &&& a1.contains_key(name) ==> (if ok {
        kind_outcome(kind, resolver, base, a1[name], a2[name])
    } else {
        a2[name] == a1[name]
    })
    &&& !a1.contains_key(name) ==> ok
}

/// After processing the attributes `names` (starting from `a0`): those have
/// their outcomes, the others are as they were.
pub open spec fn processed<F: FnMut(&str) -> Option<String>>(
    resolver: F,
    base: Seq<char>,
    tag: Seq<char>,
    a0: Map<Seq<char>, Seq<char>>,
    a: Map<Seq<char>, Seq<char>>,
    names: Set<Seq<char>>,
) -> bool {
    &&& a.dom() == a0.dom()
    &&& forall|n: Seq<char>|
        #[trigger] a0.contains_key(n) ==> if names.contains(n) {
            attr_outcome(resolver, base, tag, n, a0[n], a[n])
        } else {
            a[n] == a0[n]
        }
}

/// After a failed step: each attribute is as it was or has its outcome.
pub open spec fn partly_processed<F: FnMut(&str) -> Option<String>>(
    resolver: F,
    base: Seq<char>,
    tag: Seq<char>,
    a0: Map<Seq<char>, Seq<char>>,
    a: Map<Seq<char>, Seq<char>>,
) -> bool {
    &&& a.dom() == a0.dom()
    &&& forall|n: Seq<char>|
        #[trigger] a0.contains_key(n) ==> a[n] == a0[n] || attr_outcome(
            resolver,
            base,
            tag,
            n,
            a0[n],
            a[n],
        )
}

proof fn lemma_step_ok<F: FnMut(&str) -> Option<String>>(
    resolver: F,
    base: Seq<char>,
    tag: Seq<char>,
    a0: Map<Seq<char>, Seq<char>>,
    a1: Map<Seq<char>, Seq<char>>,
    a2: Map<Seq<char>, Seq<char>>,
    names: Set<Seq<char>>,
    name: Seq<char>,
    kind: AttrKind,
)
    requires
        processed(resolver, base, tag, a0, a1, names),
        !names.contains(name),
        attr_kind(tag, name) == Some(kind),
        attr_step(resolver, base, name, kind, a1, a2, true),
    ensures
        processed(resolver, base, tag, a0, a2, names.insert(name)),
{
    assert forall|n: Seq<char>| #[trigger] a0.contains_key(n) implies if names.insert(name).contains(
        n,
    ) {
        attr_outcome(resolver, base, tag, n, a0[n], a2[n])
    } else {
        a2[n] == a0[n]
    } by {
        if n != name {
            assert(a2[n] == a1[n]);
        }
    }
}

proof fn lemma_step_err<F: FnMut(&str) -> Option<String>>(
    resolver: F,
    base: Seq<char>,
    tag: Seq<char>,
    a0: Map<Seq<char>, Seq<char>>,
    a1: Map<Seq<char>, Seq<char>>,
    a2: Map<Seq<char>, Seq<char>>,
    names: Set<Seq<char>>,
    name: Seq<char>,
    kind: AttrKind,
)
    requires
        processed(resolver, base, tag, a0, a1, names),
        attr_step(resolver, base, name, kind, a1, a2, false),
    ensures
        partly_processed(resolver, base, tag, a0, a2),
{
    assert forall|n: Seq<char>| #[trigger] a0.contains_key(n) implies a2[n] == a0[n] || attr_outcome(
        resolver,
        base,
        tag,
        n,
        a0[n],
        a2[n],
    ) by {
        if n != name {
            assert(a2[n] == a1[n]);
        }
    }
}

proof fn lemma_all_processed<F: FnMut(&str) -> Option<String>>(
    resolver: F,
    base: Seq<char>,
    tag: Seq<char>,
    a0: Map<Seq<char>, Seq<char>>,
    a: Map<Seq<char>, Seq<char>>,
    names: Set<Seq<char>>,
)
    requires
        processed(resolver, base, tag, a0, a, names),
        forall|n: Seq<char>| #[trigger] attr_kind(tag, n) is Some ==> names.contains(n),
    ensures
        forall|n: Seq<char>|
            #[trigger] a0.contains_key(n) ==> attr_outcome(resolver, base, tag, n, a0[n], a[n]),
{
    assert forall|n: Seq<char>| #[trigger] a0.contains_key(n) implies attr_outcome(
        resolver,
        base,
        tag,
        n,
        a0[n],
        a[n],
    ) by {
        if attr_kind(tag, n) is Some {
            assert(names.contains(n));
        }
    }
}

/// Rewrites one attribute of `el` as `kind` says.
fn rewrite_attribute<E: HtmlElementMut, F: FnMut(&str) -> Option<String>>(
    el: &mut E,
    name: &str,
    kind: AttrKind,
    base_dir: &str,
    resolver: &mut F,
) -> (r: Result<(), String>)
    requires
        forall|q: &str| call_requires(*old(resolver), (q,)),
    ensures
        *final(resolver) == *old(resolver),
        final(el).tag() == old(el).tag(),
        attr_step(
            *old(resolver),
            base_dir@,
            name@,
            kind,
            old(el).attributes(),
            final(el).attributes(),
            r is Ok,
        ),
        r is Err ==> old(el).attributes().contains_key(name@) && !inert(kind, old(el).attributes()[name@]),
        declines_all(*old(resolver)) ==> r is Ok,
{
    let ghost a0 = el.attributes();
    let value = match el.get_attribute(name) {
        Some(v) => v,
        None => {
            return Ok(());
        },
    };
    let vc = chars_of(value.as_str());
    let new_value: Option<String> = match kind {
        AttrKind::Url => {
            if is_external_url(&vc) || has_prefix(&vc, "#") {
                None
            } else {
                let abs = normalize_path(base_dir, value.as_str());
                let a = resolver(abs.as_str());
                proof {
                    assert(may_answer(*old(resolver), ref_target(base_dir@, vc@), opt_view(a)));
                }
                a
            }
        },
        AttrKind::Fragment => {
            if is_external_url(&vc) || has_prefix(&vc, "#") {
                None
            } else {
                let (path_part, frag_part) = split_fragment(&vc);
                if path_part.len() == 0 {
                    None
                } else {
                    let path_str = string_from_chars(&path_part);
                    let abs = normalize_path(base_dir, path_str.as_str());
                    let a = resolver(abs.as_str());
                    proof {
                        assert(may_answer(
                            *old(resolver),
                            ref_target(base_dir@, split_fragment_spec(vc@).0),
                            opt_view(a),
                        ));
                    }
                    match a {
                        Some(new_url) => {
                            let mut nu = chars_of(new_url.as_str());
                            extend_chars(&mut nu, &frag_part);
                            let ghost av = opt_view(Some(new_url));
                            proof {
                                assert(exists|x: Option<Seq<char>>|
                                    may_answer(
                                        *old(resolver),
                                        ref_target(base_dir@, split_fragment_spec(vc@).0),
                                        x,
                                    ) && nu@ == (if x is Some {
                                        x->0 + split_fragment_spec(vc@).1
                                    } else {
                                        vc@
                                    })) by {
                                    assert(may_answer(
                                        *old(resolver),
                                        ref_target(base_dir@, split_fragment_spec(vc@).0),
                                        av,
                                    ));
                                }
                            }
                            Some(string_from_chars(&nu))
                        },
                        None => {
                            proof {
                                assert(may_answer(
                                    *old(resolver),
                                    ref_target(base_dir@, split_fragment_spec(vc@).0),
                                    None,
                                ));
                            }
                            None
                        },
                    }
                }
            }
        },
        AttrKind::Srcset => {
            let t = trim_chars(&vc);
            if t.len() == 0 {
                None
            } else {
                let rewritten = rewrite_srcset(value.as_str(), base_dir, resolver);
                proof {
                    if declines_all(*old(resolver)) {
                        law_declining_resolver_keeps_srcset(*old(resolver), value@, base_dir@, rewritten@);
                    }
                }
                if rewritten != value {
                    Some(rewritten)
                } else {
                    None
                }
            }
        },
        AttrKind::Style => {
            if contains_chars(&vc, &lit("url(")) {
                let rewritten = rewrite_css_impl(value.as_str(), base_dir, resolver);
                proof {
                    if declines_all(*old(resolver)) {
                        law_declining_resolver_keeps_css(*old(resolver), value@, base_dir@, rewritten@);
                    }
                }
                if rewritten != value {
                    Some(rewritten)
                } else {
                    None
                }
            } else {
                None
            }
        },
    };
    match new_value {
        Some(nv) => {
            let ghost a1 = el.attributes();
            let r = el.set_attribute(name, nv.as_str());
            proof {
                assert(el.attributes().dom() =~= a1.dom());
            }
            r
        },
        None => Ok(()),
    }
}

/// A rewrite step in the course of processing an element.
fn process_step<E: HtmlElementMut, F: FnMut(&str) -> Option<String>>(
    el: &mut E,
    name: &str,
    kind: AttrKind,
    base_dir: &str,
    resolver: &mut F,
    Ghost(tag): Ghost<Seq<char>>,
    Ghost(a0): Ghost<Map<Seq<char>, Seq<char>>>,
    Ghost(names): Ghost<Set<Seq<char>>>,
) -> (r: Result<(), String>)
    requires
        forall|q: &str| call_requires(*old(resolver), (q,)),
        processed(*old(resolver), base_dir@, tag, a0, old(el).attributes(), names),
        !names.contains(name@),
        attr_kind(tag, name@) == Some(kind),
    ensures
        *final(resolver) == *old(resolver),
        final(el).tag() == old(el).tag(),
        r is Ok ==> processed(
            *old(resolver),
            base_dir@,
            tag,
            a0,
            final(el).attributes(),
            names.insert(name@),
        ),
        r is Err ==> partly_processed(*old(resolver), base_dir@, tag, a0, final(el).attributes()),
        r is Err ==> needs_rewrite(tag, a0),
        declines_all(*old(resolver)) ==> r is Ok,
{
    let ghost a1 = el.attributes();
    let r = rewrite_attribute(el, name, kind, base_dir, resolver);
    proof {
        if r is Err {
            assert(a0.contains_key(name@) && a1[name@] == a0[name@]);
        }
        if r is Ok {
            lemma_step_ok(*old(resolver), base_dir@, tag, a0, a1, el.attributes(), names, name@, kind);
        } else {
            lemma_step_err(*old(resolver), base_dir@, tag, a0, a1, el.attributes(), names, name@, kind);
        }
    }
    r
}


impl<F: FnMut(&str) -> Option<String>> UrlRewritingProcessor<F> {
    /// A processor for a document whose directory is `base_dir`.
    pub fn new(base_dir: String, resolver: F) -> (p: Self)
        ensures
            p.base_dir == base_dir,
            p.resolver == resolver,
    {
        UrlRewritingProcessor { base_dir, resolver }
    }

    /// Rewrites the resource references of one element: `src`, `poster`
    /// and `srcset` of media elements, `data` of `object`, `href` /
    /// `xlink:href` of SVG `image` and `use`, `href` of `link`, `a` and
    /// `area` (keeping any `#fragment`), and `url()` tokens of any `style`
    /// attribute.  External and same-document references are left alone.
    pub fn process_element<E: HtmlElementMut>(&mut self, el: &mut E) -> (r: Result<(), String>)
        requires
            forall|q: &str| call_requires(old(self).resolver, (q,)),
        ensures
            final(self).base_dir == old(self).base_dir,
            final(self).resolver == old(self).resolver,
            final(el).tag() == old(el).tag(),
            final(el).attributes().dom() == old(el).attributes().dom(),
            r is Ok ==> forall|n: Seq<char>|
                #[trigger] old(el).attributes().contains_key(n) ==> attr_outcome(
                    old(self).resolver,
                    old(self).base_dir@,
                    lower_spec(old(el).tag()),
                    n,
                    old(el).attributes()[n],
                    final(el).attributes()[n],
                ),
            r is Err ==> partly_processed(
                old(self).resolver,
                old(self).base_dir@,
                lower_spec(old(el).tag()),
                old(el).attributes(),
                final(el).attributes(),
            ),
            r is Err ==> needs_rewrite(lower_spec(old(el).tag()), old(el).attributes()),
            declines_all(old(self).resolver) ==> r is Ok,
    {
        let tag_name = el.tag_name();
        let tc = chars_of(tag_name.as_str());
        let tag = lower_chars(&tc);
        let ghost t = tag@;
        let ghost a0 = el.attributes();
        let ghost f0 = self.resolver;
        let ghost base = self.base_dir@;
        let ghost mut names: Set<Seq<char>> = Set::empty();
        proof {
            reveal_strlit("img");
            reveal_strlit("video");
            reveal_strlit("audio");
            reveal_strlit("source");
            reveal_strlit("track");
            reveal_strlit("object");
            reveal_strlit("image");
            reveal_strlit("use");
            reveal_strlit("link");
            reveal_strlit("a");
            reveal_strlit("area");
            reveal_strlit("src");
            reveal_strlit("poster");
            reveal_strlit("srcset");
            reveal_strlit("data");
            reveal_strlit("href");
            reveal_strlit("xlink:href");
            reveal_strlit("style");
            assert("img"@.len() == 3 && "img"@[0] == 'i');
            assert("video"@.len() == 5 && "video"@[0] == 'v');
            assert("audio"@.len() == 5 && "audio"@[0] == 'a');
            assert("source"@.len() == 6 && "source"@[0] == 's');
            assert("track"@.len() == 5 && "track"@[0] == 't');
            assert("object"@.len() == 6 && "object"@[0] == 'o');
            assert("image"@.len() == 5 && "image"@[0] == 'i');
            assert("use"@.len() == 3 && "use"@[0] == 'u');
            assert("link"@.len() == 4 && "link"@[0] == 'l');
            assert("a"@.len() == 1 && "a"@[0] == 'a');
            assert("area"@.len() == 4 && "area"@[0] == 'a');
            assert("src"@.len() == 3 && "src"@[0] == 's');
            assert("poster"@.len() == 6 && "poster"@[0] == 'p');
            assert("srcset"@.len() == 6 && "srcset"@[0] == 's');
            assert("data"@.len() == 4 && "data"@[0] == 'd');
            assert("href"@.len() == 4 && "href"@[0] == 'h');
            assert("xlink:href"@.len() == 10 && "xlink:href"@[0] == 'x');
            assert("style"@.len() == 5 && "style"@[0] == 's');
            assert(processed(f0, base, t, a0, a0, names));
        }
        if eq_str(&tag, "img") || eq_str(&tag, "video") || eq_str(&tag, "audio") || eq_str(
            &tag,
            "source",
        ) || eq_str(&tag, "track") {
            match process_step(el, "src", AttrKind::Url, self.base_dir.as_str(), &mut self.resolver, Ghost(t), Ghost(a0), Ghost(names)) {
                Err(e) => { return Err(e); },
                Ok(()) => {},
            }
            proof {
                names = names.insert("src"@);
                assert("poster"@.len() != "src"@.len());
            }
            match process_step(el, "poster", AttrKind::Url, self.base_dir.as_str(), &mut self.resolver, Ghost(t), Ghost(a0), Ghost(names)) {
                Err(e) => { return Err(e); },
                Ok(()) => {},
            }
            proof { names = names.insert("poster"@); }
            match process_step(el, "srcset", AttrKind::Srcset, self.base_dir.as_str(), &mut self.resolver, Ghost(t), Ghost(a0), Ghost(names)) {
                Err(e) => { return Err(e); },
                Ok(()) => {},
            }
            proof { names = names.insert("srcset"@); }
        } else if eq_str(&tag, "object") {
            match process_step(el, "data", AttrKind::Url, self.base_dir.as_str(), &mut self.resolver, Ghost(t), Ghost(a0), Ghost(names)) {
                Err(e) => { return Err(e); },
                Ok(()) => {},
            }
            proof { names = names.insert("data"@); }
        } else if eq_str(&tag, "image") {
            match process_step(el, "href", AttrKind::Url, self.base_dir.as_str(), &mut self.resolver, Ghost(t), Ghost(a0), Ghost(names)) {
                Err(e) => { return Err(e); },
                Ok(()) => {},
            }
            proof {
                names = names.insert("href"@);
                assert("xlink:href"@.len() != "href"@.len());
            }
            match process_step(el, "xlink:href", AttrKind::Url, self.base_dir.as_str(), &mut self.resolver, Ghost(t), Ghost(a0), Ghost(names)) {
                Err(e) => { return Err(e); },
                Ok(()) => {},
            }
            proof { names = names.insert("xlink:href"@); }
        } else if eq_str(&tag, "use") {
            match process_step(el, "href", AttrKind::Fragment, self.base_dir.as_str(), &mut self.resolver, Ghost(t), Ghost(a0), Ghost(names)) {
                Err(e) => { return Err(e); },
                Ok(()) => {},
            }
            proof {
                names = names.insert("href"@);
                assert("xlink:href"@.len() != "href"@.len());
            }
            match process_step(el, "xlink:href", AttrKind::Fragment, self.base_dir.as_str(), &mut self.resolver, Ghost(t), Ghost(a0), Ghost(names)) {
                Err(e) => { return Err(e); },
                Ok(()) => {},
            }
            proof { names = names.insert("xlink:href"@); }
        } else if eq_str(&tag, "link") || eq_str(&tag, "a") || eq_str(&tag, "area") {
            match process_step(el, "href", AttrKind::Fragment, self.base_dir.as_str(), &mut self.resolver, Ghost(t), Ghost(a0), Ghost(names)) {
                Err(e) => { return Err(e); },
                Ok(()) => {},
            }
            proof { names = names.insert("href"@); }
        }
        // the style attribute of every element
        match process_step(el, "style", AttrKind::Style, self.base_dir.as_str(), &mut self.resolver, Ghost(t), Ghost(a0), Ghost(names)) {
            Err(e) => { return Err(e); },
            Ok(()) => {},
        }
        proof {
            names = names.insert("style"@);
            assert forall|n: Seq<char>| #[trigger] attr_kind(t, n) is Some implies names.contains(n) by {}
            lemma_all_processed(f0, base, t, a0, el.attributes(), names);
        }
        Ok(())
    }
}

// ── Elements as plain values ─────────────────────────────────────────────────

/// The attributes of a list of `(name, value)` pairs, the first `k` of
/// them; a later pair overrides an earlier one of the same name.
pub open spec fn attrs_upto(ps: Seq<(String, String)>, k: int) -> Map<Seq<char>, Seq<char>>
    decreases k,
{
    if k <= 0 || k > ps.len() {
        Map::empty()
    } else {
        attrs_upto(ps, k - 1).insert(ps[k - 1].0@, ps[k - 1].1@)
    }
}

/// The attributes of a list of `(name, value)` pairs.
pub open spec fn attrs_of(ps: Seq<(String, String)>) -> Map<Seq<char>, Seq<char>> {
    attrs_upto(ps, ps.len() as int)
}

proof fn lemma_attrs_upto(ps: Seq<(String, String)>, k: int, n: Seq<char>)
    requires
        0 <= k <= ps.len(),
    ensures
        attrs_upto(ps, k).contains_key(n) <==> exists|j: int| 0 <= j < k && (#[trigger] ps[j]).0@ == n,
        forall|j: int|
            0 <= j < k && (#[trigger] ps[j]).0@ == n && (forall|i: int| j < i < k ==> ps[i].0@ != n)
                ==> attrs_upto(ps, k)[n] == ps[j].1@,
    decreases k,
{
    if k > 0 {
        lemma_attrs_upto(ps, k - 1, n);
        if ps[k - 1].0@ != n {
            assert forall|j: int|
                0 <= j < k && (#[trigger] ps[j]).0@ == n && (forall|i: int| j < i < k ==> ps[i].0@ != n) implies
                attrs_upto(ps, k)[n] == ps[j].1@ by {
                assert(j < k - 1);
            }
        } else {
            assert forall|j: int|
                0 <= j < k && (#[trigger] ps[j]).0@ == n && (forall|i: int| j < i < k ==> ps[i].0@ != n) implies
                attrs_upto(ps, k)[n] == ps[j].1@ by {
                if j < k - 1 {
                    assert(ps[k - 1].0@ != n);
                }
            }
        }
    }
}

proof fn lemma_attrs_update(ps: Seq<(String, String)>, j: int, name: String, value: String, k: int)
    requires
        0 <= j < k <= ps.len(),
        ps[j].0@ == name@,
        forall|i: int| j < i < ps.len() ==> ps[i].0@ != name@,
    ensures
        attrs_upto(ps.update(j, (name, value)), k) =~= attrs_upto(ps, k).insert(name@, value@),
    decreases k,
{
    let qs = ps.update(j, (name, value));
    if k == j + 1 {
        lemma_attrs_prefix(ps, qs, j);
        assert(attrs_upto(qs, k) == attrs_upto(qs, j).insert(name@, value@));
        assert(attrs_upto(ps, k) == attrs_upto(ps, j).insert(name@, ps[j].1@));
        assert(attrs_upto(ps, k).insert(name@, value@) =~= attrs_upto(ps, j).insert(name@, value@));
    } else {
        lemma_attrs_update(ps, j, name, value, k - 1);
        assert(qs[k - 1] == ps[k - 1]);
        assert(ps[k - 1].0@ != name@);
        assert(attrs_upto(qs, k) == attrs_upto(qs, k - 1).insert(ps[k - 1].0@, ps[k - 1].1@));
        assert(attrs_upto(ps, k) == attrs_upto(ps, k - 1).insert(ps[k - 1].0@, ps[k - 1].1@));
        assert(attrs_upto(qs, k) =~= attrs_upto(ps, k).insert(name@, value@));
    }
}

proof fn lemma_attrs_prefix(ps: Seq<(String, String)>, qs: Seq<(String, String)>, i: int)
    requires
        0 <= i <= ps.len(),
        i <= qs.len(),
        forall|m: int| 0 <= m < i ==> (#[trigger] qs[m]).0@ == ps[m].0@ && qs[m].1@ == ps[m].1@,
    ensures
        attrs_upto(qs, i) == attrs_upto(ps, i),
    decreases i,
{
    if i > 0 {
        lemma_attrs_prefix(ps, qs, i - 1);
    }
}

/// An element held as plain values: its tag and its attributes.
pub struct PlainElement {
    pub tag: String,
    pub attrs: Vec<(String, String)>,
}

impl HtmlElementMut for PlainElement {
    open spec fn tag(&self) -> Seq<char> {
        self.tag@
    }

    open spec fn attributes(&self) -> Map<Seq<char>, Seq<char>> {
        attrs_of(self.attrs@)
    }

    fn tag_name(&self) -> (r: String) {
        string_from_chars(&chars_of(self.tag.as_str()))
    }

    fn get_attribute(&self, name: &str) -> (r: Option<String>) {
        let key = chars_of(name);
        let mut k: usize = self.attrs.len();
        while k > 0
            invariant
                k <= self.attrs@.len(),
                key@ == name@,
                forall|i: int| k <= i < self.attrs@.len() ==> (#[trigger] self.attrs@[i]).0@ != name@,
            decreases k,
        {
            let j = k - 1;
            if eq_chars(&chars_of(self.attrs[j].0.as_str()), &key) {
                proof {
                    lemma_attrs_upto(self.attrs@, self.attrs@.len() as int, name@);
                }
                return Some(string_from_chars(&chars_of(self.attrs[j].1.as_str())));
            }
            k = j;
        }
        proof {
            lemma_attrs_upto(self.attrs@, self.attrs@.len() as int, name@);
        }
        None
    }

    fn set_attribute(&mut self, name: &str, value: &str) -> (r: Result<(), String>) {
        let key = chars_of(name);
        let mut k: usize = self.attrs.len();
        while k > 0
            invariant
                k <= self.attrs@.len(),
                key@ == name@,
                self.attrs@ == old(self).attrs@,
                self.tag == old(self).tag,
                forall|i: int| k <= i < self.attrs@.len() ==> (#[trigger] self.attrs@[i]).0@ != name@,
            decreases k,
        {
            let j = k - 1;
            if eq_chars(&chars_of(self.attrs[j].0.as_str()), &key) {
                let n = string_from_chars(&key);
                let v = string_from_chars(&chars_of(value));
                proof {
                    lemma_attrs_update(self.attrs@, j as int, n, v, self.attrs@.len() as int);
                }
                self.attrs.set(j, (n, v));
                return Ok(());
            }
            k = j;
        }
        let n = string_from_chars(&key);
        let v = string_from_chars(&chars_of(value));
        let ghost before = self.attrs@;
        self.attrs.push((n, v));
        proof {
            lemma_attrs_prefix(before, self.attrs@, before.len() as int);
        }
        Ok(())
    }
}

/// `ch` lists attributes whose value `after` changes from `before`, with
/// their new values, and every attribute whose value changes is listed.
pub open spec fn lists_changes(
    before: Map<Seq<char>, Seq<char>>,
    after: Map<Seq<char>, Seq<char>>,
    ch: Seq<(Seq<char>, Seq<char>)>,
) -> bool {
    &&& forall|k: int|
        0 <= k < ch.len() ==> before.contains_key((#[trigger] ch[k]).0) && after[ch[k].0] == ch[k].1 && ch[k].1
            != before[ch[k].0]
    &&& forall|n: Seq<char>|
        #[trigger] before.contains_key(n) && after[n] != before[n] ==> exists|k: int| 0 <= k < ch.len() && ch[k].0 == n
}

/// `after` is what processing makes of the attributes `before` of an
/// element with tag `tag`: the same names, each value as its rewriting rule
/// gives it.
pub open spec fn processed_as<F: FnMut(&str) -> Option<String>>(
    resolver: F,
    base: Seq<char>,
    tag: Seq<char>,
    before: Map<Seq<char>, Seq<char>>,
    after: Map<Seq<char>, Seq<char>>,
) -> bool {
    &&& after.dom() == before.dom()
    &&& forall|n: Seq<char>|
        #[trigger] before.contains_key(n) ==> attr_outcome(resolver, base, lower_spec(tag), n, before[n], after[n])
}

/// Processes an element given as its tag and attributes (see
/// [`UrlRewritingProcessor::process_element`]) and returns the attributes
/// that processing changed, with their new values.
#[verifier::rlimit(60)]
#[verifier::spinoff_prover]
pub fn process_plain<F: FnMut(&str) -> Option<String>>(
    p: &mut UrlRewritingProcessor<F>,
    tag: String,
    attrs: Vec<(String, String)>,
) -> (r: Result<Vec<(String, String)>, String>)
    requires
        forall|q: &str| call_requires(old(p).resolver, (q,)),
    ensures
        final(p).base_dir == old(p).base_dir,
        final(p).resolver == old(p).resolver,
        r matches Ok(ch) ==> exists|after: Map<Seq<char>, Seq<char>>|
            #[trigger] processed_as(old(p).resolver, old(p).base_dir@, tag@, attrs_of(attrs@), after)
                && lists_changes(attrs_of(attrs@), after, ch@.map_values(|c: (String, String)| (c.0@, c.1@))),
        declines_all(old(p).resolver) ==> r is Ok,
        r is Err ==> needs_rewrite(lower_spec(tag@), attrs_of(attrs@)),
{
    let mut names: Vec<String> = Vec::new();
    let mut i: usize = 0;
    while i < attrs.len()
        invariant
            i <= attrs@.len(),
            names@.len() == i,
            forall|k: int| 0 <= k < i ==> (#[trigger] names@[k])@ == attrs@[k].0@,
        decreases attrs@.len() - i,
    {
        names.push(string_from_chars(&chars_of(attrs[i].0.as_str())));
        i = i + 1;
    }
    let ghost t = tag@;
    let ghost f0 = p.resolver;
    let orig = PlainElement { tag: string_from_chars(&chars_of(tag.as_str())), attrs: attrs };
    let ghost a0 = orig.attributes();
    let mut el = PlainElement { tag, attrs: copy_pairs(&orig.attrs) };
    assert(el.attributes() == a0) by {
        lemma_attrs_prefix(orig.attrs@, el.attrs@, orig.attrs@.len() as int);
    }
    match p.process_element(&mut el) {
        Err(e) => Err(e),
        Ok(()) => {
            let ghost a1 = el.attributes();
            let mut ch: Vec<(String, String)> = Vec::new();
            let mut k: usize = 0;
            while k < names.len()
                invariant
                    k <= names@.len(),
                    names@.len() == orig.attrs@.len(),
                    forall|m: int| 0 <= m < names@.len() ==> (#[trigger] names@[m])@ == orig.attrs@[m].0@,
                    orig.attributes() == a0,
                    el.attributes() == a1,
                    a1.dom() == a0.dom(),
                    forall|m: int|
                        0 <= m < ch@.len() ==> a0.contains_key((#[trigger] ch@[m]).0@) && a1[ch@[m].0@]
                            == ch@[m].1@ && ch@[m].1@ != a0[ch@[m].0@],
                    forall|m: int|
                        0 <= m < k && a1[orig.attrs@[m].0@] != a0[orig.attrs@[m].0@] ==> exists|c: int|
                            0 <= c < ch@.len() && (#[trigger] ch@[c]).0@ == orig.attrs@[m].0@,
                decreases names@.len() - k,
            {
                let n = names[k].as_str();
                proof {
                    lemma_attrs_upto(orig.attrs@, orig.attrs@.len() as int, n@);
                }
                let old_v = orig.get_attribute(n);
                let new_v = el.get_attribute(n);
                match (old_v, new_v) {
                    (Some(ov), Some(nv)) => {
                        if !eq_chars(&chars_of(ov.as_str()), &chars_of(nv.as_str())) {
                            let ghost cb = ch@;
                            ch.push((string_from_chars(&chars_of(n)), nv));
                            proof {
                                assert(ch@[cb.len() as int].0@ == orig.attrs@[k as int].0@);
                                assert forall|m: int|
                                    0 <= m < k + 1 && a1[orig.attrs@[m].0@] != a0[orig.attrs@[m].0@] implies exists|c: int|
                                        0 <= c < ch@.len() && (#[trigger] ch@[c]).0@ == orig.attrs@[m].0@ by {
                                    if m < k {
                                        let c = choose|c: int| 0 <= c < cb.len() && (#[trigger] cb[c]).0@ == orig.attrs@[m].0@;
                                        assert(ch@[c] == cb[c]);
                                    } else {
                                        assert(ch@[cb.len() as int].0@ == orig.attrs@[m].0@);
                                    }
                                }
                            }
                        }
                    },
                    _ => {},
                }
                k = k + 1;
            }
            proof {
                let cv = ch@.map_values(|c: (String, String)| (c.0@, c.1@));
                assert forall|m: int| 0 <= m < cv.len() implies a0.contains_key((#[trigger] cv[m]).0) && a1[cv[m].0]
                    == cv[m].1 && cv[m].1 != a0[cv[m].0] by {
                    assert(cv[m] == (ch@[m].0@, ch@[m].1@));
                }
                assert forall|n: Seq<char>| #[trigger] a0.contains_key(n) && a1[n] != a0[n] implies exists|c: int|
                    0 <= c < cv.len() && cv[c].0 == n by {
                    lemma_attrs_upto(orig.attrs@, orig.attrs@.len() as int, n);
                    let m = choose|m: int| 0 <= m < orig.attrs@.len() && (#[trigger] orig.attrs@[m]).0@ == n;
                    let c = choose|c: int| 0 <= c < ch@.len() && (#[trigger] ch@[c]).0@ == orig.attrs@[m].0@;
                    assert(cv[c] == (ch@[c].0@, ch@[c].1@));
                }
                assert(lists_changes(a0, a1, cv));
                assert(processed_as(f0, p.base_dir@, t, a0, a1));
            }
            Ok(ch)
        },
    }
}

/// A copy of a list of pairs.
fn copy_pairs(ps: &Vec<(String, String)>) -> (r: Vec<(String, String)>)
    ensures
        r@.len() == ps@.len(),
        forall|k: int| 0 <= k < ps@.len() ==> (#[trigger] r@[k]).0@ == ps@[k].0@ && r@[k].1@ == ps@[k].1@,
{
    let mut r: Vec<(String, String)> = Vec::new();
    let mut i: usize = 0;
    while i < ps.len()
        invariant
            i <= ps@.len(),
            r@.len() == i,
            forall|k: int| 0 <= k < i ==> (#[trigger] r@[k]).0@ == ps@[k].0@ && r@[k].1@ == ps@[k].1@,
        decreases ps@.len() - i,
    {
        r.push((string_from_chars(&chars_of(ps[i].0.as_str())), string_from_chars(&chars_of(ps[i].1.as_str()))));
        i = i + 1;
    }
    r
}

// ── Whole documents ──────────────────────────────────────────────────────────

/// Runs lol_html over `html` with one handler for every element (`lol_html::rewrite_str`
/// with the selector `*`).  The handler hands the element's tag and attributes to
/// [`process_plain`] and writes back each attribute that it changed.  The output and the
/// rewriter's errors are lol_html's, given as text: nothing is claimed of them here.
#[verifier::external_body]
fn rewrite_elements<F: FnMut(&str) -> Option<String>>(html: &str, p: &mut UrlRewritingProcessor<F>) -> (r: Result<String, String>)
    requires
        forall|q: &str| call_requires(old(p).resolver, (q,)),
    ensures
        final(p).base_dir == old(p).base_dir,
        final(p).resolver == old(p).resolver,
{
    let selector = "*".parse::<lol_html::Selector>().map_err(|e| e.to_string())?;
    let handlers = lol_html::ElementContentHandlers::default().element(
        |el: &mut lol_html::html_content::Element<'_, '_>| -> lol_html::HandlerResult {
            let attrs = el.attributes().iter().map(|a| (a.name(), a.value())).collect();
            for (n, v) in process_plain(p, el.tag_name(), attrs)? {
                el.set_attribute(&n, &v)?;
            }
            Ok(())
        },
    );
    let settings = lol_html::Settings::new().append_element_content_handler((std::borrow::Cow::Owned(selector), handlers));
    lol_html::rewrite_str(html, settings).map_err(|e| e.to_string())
}

/// The second pass of [`rewrite_resources`] on the text `mid` that the element pass gave:
/// when it holds both `<style` and `url(`, `out` is its `<style>` blocks rewritten,
/// else `out` is `mid`.
pub open spec fn style_pass<F: FnMut(&str) -> Option<String>>(
    resolver: F,
    base_dir: Seq<char>,
    mid: Seq<char>,
    out: Seq<char>,
) -> bool {
    if contains_seq(mid, "<style"@) && contains_seq(mid, "url("@) {
        is_style_blocks_rewrite(resolver, mid, base_dir, out)
    } else {
        out == mid
    }
}

/// What [`rewrite_resources`] gives after its element pass returned `pass`.
pub open spec fn after_element_pass<F: FnMut(&str) -> Option<String>>(
    resolver: F,
    base_dir: Seq<char>,
    pass: Result<String, String>,
    r: Result<String, EpubError>,
) -> bool {
    match pass {
        Err(e) => r == Err::<String, EpubError>(EpubError::HtmlParse(e)),
        Ok(mid) => r matches Ok(out) && style_pass(resolver, base_dir, mid@, out@),
    }
}

/// Finishes [`rewrite_resources`] from the element pass's result: its error becomes
/// [`EpubError::HtmlParse`], its text goes through the `<style>` pass.
pub fn finish_resource_rewrite<F: FnMut(&str) -> Option<String>>(
    pass: Result<String, String>,
    base_dir: &str,
    resolver: &mut F,
) -> (r: Result<String, EpubError>)
    requires
        forall|q: &str| call_requires(*old(resolver), (q,)),
    ensures
        after_element_pass(*old(resolver), base_dir@, pass, r),
        *final(resolver) == *old(resolver),
{
    match pass {
        Err(e) => Err(EpubError::HtmlParse(e)),
        Ok(mid) => {
            let ms = chars_of(mid.as_str());
            let has_style = contains_chars(&ms, &lit("<style"));
            let has_url = contains_chars(&ms, &lit("url("));
            if has_style && has_url {
                Ok(rewrite_style_blocks(mid.as_str(), base_dir, resolver))
            } else {
                Ok(mid)
            }
        },
    }
}

/// Rewrites the resource references of an HTML document at `base_file_path` with
/// `resolver`: every element through [`UrlRewritingProcessor::process_element`], with
/// the directory of `base_file_path` as base, then `url(...)` inside `<style>` blocks.
pub fn rewrite_resources<F: FnMut(&str) -> Option<String>>(
    html: &str,
    base_file_path: &str,
    resolver: F,
) -> (r: Result<String, EpubError>)
    requires
        forall|q: &str| call_requires(resolver, (q,)),
    ensures
        exists|pass: Result<String, String>| #[trigger] after_element_pass(resolver, parent_dir_spec(base_file_path@), pass, r),
{
    let base_dir = string_from_chars(&parent_dir(&chars_of(base_file_path)));
    let mut p = UrlRewritingProcessor::new(base_dir, resolver);
    let pass = rewrite_elements(html, &mut p);
    let UrlRewritingProcessor { base_dir, mut resolver } = p;
    let r = finish_resource_rewrite(pass, base_dir.as_str(), &mut resolver);
    assert(after_element_pass(resolver, parent_dir_spec(base_file_path@), pass, r));
    r
}

// ── Inline <style> blocks ────────────────────────────────────────────────────

/// Offset just past the `>` that closes the first `<style` opening tag of `s`
/// (tag names compared ASCII case-insensitively).
pub open spec fn style_tag_end(s: Seq<char>) -> Option<int> {
    let l = lower_spec(s);
    match find_seq_from(l, "<style"@, 0) {
        None => None,
        Some(ts) => {
            let gt = ts + 6 + first_pos(l.skip(ts + 6), '>');
            if gt < l.len() {
                Some(gt + 1)
            } else {
                None
            }
        },
    }
}

/// Where the content of a style block ends: at the first `</style`
/// (ASCII case-insensitively), or at the end.
pub open spec fn style_close(s: Seq<char>) -> int {
    match find_seq_from(lower_spec(s), "</style"@, 0) {
        Some(i) => i,
        None => s.len() as int,
    }
}

/// The next style block of `rest`: where its content starts and ends.
pub open spec fn next_style_block(rest: Seq<char>) -> Option<(int, int)> {
    match style_tag_end(rest) {
        None => None,
        Some(oe) => Some((oe, oe + style_close(rest.skip(oe)))),
    }
}

pub proof fn lemma_next_style_block(rest: Seq<char>)
    ensures
        match next_style_block(rest) {
            Some((oe, ce)) => 0 < oe <= ce <= rest.len(),
            None => true,
        },
{
    reveal_strlit("<style");
    reveal_strlit("</style");
    let l = lower_spec(rest);
    lemma_find_seq_from(l, "<style"@, 0);
    match find_seq_from(l, "<style"@, 0) {
        None => {},
        Some(ts) => {
            lemma_first_pos(l.skip(ts + 6), '>');
            let gt = ts + 6 + first_pos(l.skip(ts + 6), '>');
            if gt < l.len() {
                let after = rest.skip(gt + 1);
                lemma_find_seq_from(lower_spec(after), "</style"@, 0);
            }
        },
    }
}

/// The contents of the style blocks of `rest`, in order.
pub open spec fn style_contents(rest: Seq<char>) -> Seq<Seq<char>>
    decreases rest.len(),
{
    match next_style_block(rest) {
        None => Seq::empty(),
        Some((oe, ce)) => {
            proof {
                lemma_next_style_block(rest);
            }
            seq![rest.subrange(oe, ce)] + style_contents(rest.skip(ce))
        },
    }
}

/// `rest` with the content of its style blocks replaced by `mids`, in order.
pub open spec fn style_blocks_out(rest: Seq<char>, mids: Seq<Seq<char>>) -> Seq<char>
    decreases rest.len(),
{
    match next_style_block(rest) {
        None => rest,
        Some((oe, ce)) => {
            proof {
                lemma_next_style_block(rest);
            }
            rest.take(oe) + mids[0] + style_blocks_out(rest.skip(ce), mids.drop_first())
        },
    }
}

/// What a style block's content may become.
pub open spec fn style_block_outcome<F: FnMut(&str) -> Option<String>>(
    resolver: F,
    content: Seq<char>,
    base: Seq<char>,
    mid: Seq<char>,
) -> bool {
    if contains_seq(content, "url("@) {
        is_css_rewrite(resolver, content, base, mid)
    } else {
        mid == content
    }
}

/// `out` is `html` with the CSS of each `<style>` block rewritten against
/// `base` by answers `resolver` may give; the rest is as it was.
pub open spec fn is_style_blocks_rewrite<F: FnMut(&str) -> Option<String>>(
    resolver: F,
    html: Seq<char>,
    base: Seq<char>,
    out: Seq<char>,
) -> bool {
    exists|mids: Seq<Seq<char>>|
        {
            &&& mids.len() == style_contents(html).len()
            &&& forall|k: int|
                0 <= k < mids.len() ==> style_block_outcome(
                    resolver,
                    style_contents(html)[k],
                    base,
                    #[trigger] mids[k],
                )
            &&& out == style_blocks_out(html, mids)
        }
}

/// Offset just past the `>` of the next `<style` opening tag of `s`.
fn find_style_tag_end(s: &[char]) -> (r: Option<usize>)
    ensures
        r == (match style_tag_end(s@) {
            Some(i) => Some(i as usize),
            None => None::<usize>,
        }),
{
    proof {
        reveal_strlit("<style");
    }
    let lower = lower_chars(s);
    let open = lit("<style");
    match find_chars_from(&lower, &open, 0) {
        None => None,
        Some(tag_start) => {
            proof {
                lemma_find_seq_from(lower@, open@, 0);
                assert(open@.len() == 6);
                assert(lower@.len() == lower.len());
                let j = find_seq_from(lower@, open@, 0)->0;
                assert(j + 6 <= lower@.len());
                assert(tag_start == j);
            }
            let after_tag = tag_start + 6;
            let gt = find_char_from(&lower, '>', after_tag);
            assert(lower@.skip(after_tag as int) =~= lower@.subrange(
                after_tag as int,
                lower@.len() as int,
            ));
            if gt < lower.len() {
                Some(gt + 1)
            } else {
                None
            }
        },
    }
}

/// Where the content of a style block of `s` ends.
fn find_style_close(s: &[char]) -> (r: usize)
    ensures
        r == style_close(s@),
{
    let lower = lower_chars(s);
    let close = lit("</style");
    proof {
        lemma_find_seq_from(lower@, close@, 0);
        assert(lower@.len() == lower.len());
    }
    match find_chars_from(&lower, &close, 0) {
        Some(i) => i,
        None => s.len(),
    }
}

/// Rewrites `url(...)` references inside every `<style>…</style>` block found
/// in `html`.  Content outside `<style>` blocks is emitted unchanged.
pub fn rewrite_style_blocks<F>(html: &str, base_dir: &str, resolver: &mut F) -> (r: String) where
    F: FnMut(&str) -> Option<String>,

    requires
        forall|q: &str| call_requires(*old(resolver), (q,)),
    ensures
        is_style_blocks_rewrite(*old(resolver), html@, base_dir@, r@),
        *final(resolver) == *old(resolver),
{
    let hs = chars_of(html);
    let ghost f0 = *resolver;
    let mut out: Vec<char> = Vec::new();
    let mut rest: Vec<char> = slice_chars(&hs, 0, hs.len());
    let ghost mut mids: Seq<Seq<char>> = Seq::empty();
    proof {
        assert(rest@ =~= hs@);
        assert forall|m: Seq<Seq<char>>| style_blocks_out(hs@, mids + m) == out@ + style_blocks_out(
            rest@,
            m,
        ) by {
            assert(mids + m =~= m);
            assert(out@ + style_blocks_out(rest@, m) =~= style_blocks_out(rest@, m));
        }
        assert(style_contents(hs@) =~= Seq::<Seq<char>>::empty() + style_contents(rest@));
    }
    let mut done: bool = false;
    while !done
        invariant
            *resolver == f0,
            forall|q: &str| call_requires(f0, (q,)),
            forall|m: Seq<Seq<char>>|
                #[trigger] style_blocks_out(hs@, mids + m) == out@ + style_blocks_out(rest@, m),
            style_contents(hs@) == style_contents(hs@).take(mids.len() as int) + style_contents(
                rest@,
            ),
            mids.len() <= style_contents(hs@).len(),
            forall|k: int|
                0 <= k < mids.len() ==> style_block_outcome(
                    f0,
                    style_contents(hs@)[k],
                    base_dir@,
                    #[trigger] mids[k],
                ),
            done ==> next_style_block(rest@) is None,
        decreases rest@.len() + (if done { 0int } else { 1int }),
    {
        proof {
            lemma_next_style_block(rest@);
        }
        match find_style_tag_end(&rest) {
            None => {
                done = true;
            },
            Some(open_end) => {
                let after_open = slice_chars(&rest, open_end, rest.len());
                let close = find_style_close(&after_open);
                let content = slice_chars(&after_open, 0, close);
                let head = slice_chars(&rest, 0, open_end);
                let ghost old_out = out@;
                let ghost old_rest = rest@;
                let ghost old_mids = mids;
                extend_chars(&mut out, &head);
                let mid: Vec<char> = if contains_chars(&content, &lit("url(")) {
                    let content_str = string_from_chars(&content);
                    let rewritten = rewrite_css_impl(content_str.as_str(), base_dir, resolver);
                    chars_of(rewritten.as_str())
                } else {
                    slice_chars(&content, 0, content.len())
                };
                extend_chars(&mut out, &mid);
                let tail = slice_chars(&after_open, close, after_open.len());
                proof {
                    assert(content@.subrange(0, content@.len() as int) =~= content@);
                    let ce = open_end + close;
                    assert(content@ =~= old_rest.subrange(open_end as int, ce));
                    assert(tail@ =~= old_rest.skip(ce));
                    assert(head@ =~= old_rest.take(open_end as int));
                    mids = old_mids.push(mid@);
                    assert forall|m: Seq<Seq<char>>| #[trigger] style_blocks_out(hs@, mids + m)
                        == out@ + style_blocks_out(tail@, m) by {
                        assert(old_mids + (seq![mid@] + m) =~= mids + m);
                        assert((seq![mid@] + m).drop_first() =~= m);
                        assert(style_blocks_out(old_rest, seq![mid@] + m) == old_rest.take(
                            open_end as int,
                        ) + mid@ + style_blocks_out(tail@, m));
                        assert(style_blocks_out(hs@, old_mids + (seq![mid@] + m)) == old_out
                            + style_blocks_out(old_rest, seq![mid@] + m));
                        assert(old_out + (head@ + mid@ + style_blocks_out(tail@, m)) =~= out@
                            + style_blocks_out(tail@, m));
                    }
                    assert(style_contents(old_rest) == seq![content@] + style_contents(tail@));
                    let sc = style_contents(hs@);
                    assert(sc == sc.take(old_mids.len() as int) + (seq![content@] + style_contents(
                        tail@,
                    )));
                    assert(sc.take(mids.len() as int) =~= sc.take(old_mids.len() as int).push(
                        content@,
                    ));
                    assert(sc =~= sc.take(mids.len() as int) + style_contents(tail@));
                    assert(sc[old_mids.len() as int] == content@);
                    assert forall|k: int| 0 <= k < mids.len() implies style_block_outcome(
                        f0,
                        sc[k],
                        base_dir@,
                        #[trigger] mids[k],
                    ) by {
                        if k < old_mids.len() {
                            assert(mids[k] == old_mids[k]);
                        }
                    }
                }
                rest = tail;
            },
        }
    }
    let ghost final_out = out@;
    extend_chars(&mut out, &rest);
    proof {
        assert(style_blocks_out(hs@, mids + Seq::empty()) == final_out + style_blocks_out(
            rest@,
            Seq::empty(),
        ));
        assert(mids + Seq::<Seq<char>>::empty() =~= mids);
        assert(style_contents(rest@) =~= Seq::<Seq<char>>::empty());
        assert(style_contents(hs@).take(mids.len() as int) =~= style_contents(hs@));
    }
    string_from_chars(&out)
}

} // verus!
