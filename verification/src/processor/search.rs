//! Full-text search of a chapter with a regular expression: every match in
//! a text node becomes a CFI range with an excerpt around it.
use vstd::prelude::*;
use vstd::utf8::{encode_utf8, is_char_boundary};
use crate::dom::{
    DomNode, DomV, dom_view, dom_views, first_element, first_element_in, lemma_dom_view, lemma_dom_views_index,
    parse_html_tree, dom_tree, html_dom,
};
use crate::error::EpubError;
use crate::processor::walk::{step_path, step_path_exec};
use crate::text::{chars_of, decimal_chars_wide, decimal_spec, extend_chars, lit, string_from_chars};

verus! {

/// A search match mapped to its Canonical Fragment Identifier range.
#[derive(Clone, Debug)]
pub struct SearchResult {
    /// The excerpt of text where the match was found.
    pub excerpt: String,
    /// The CFI range string (e.g. `epubcfi(/6/4!/4/2,/1:5,/1:10)`).
    pub cfi: String,
}

#[verifier::external_type_specification]
#[verifier::external_body]
pub struct ExRegex(regex::Regex);

/// A compiled regular expression together with the pattern and the case
/// flag it was built from.
pub struct TextPattern {
    re: regex::Regex,
    pattern: Ghost<Seq<char>>,
    case_insensitive: Ghost<bool>,
}

impl TextPattern {
    /// The pattern the expression was built from.
    pub closed spec fn pattern(&self) -> Seq<char> {
        self.pattern@
    }

    /// Whether it matches case-insensitively.
    pub closed spec fn case_insensitive(&self) -> bool {
        self.case_insensitive@
    }

    /// The compiled expression.
    #[verifier::external_body]
    pub(crate) fn regex(&self) -> &regex::Regex {
        &self.re
    }

    /// The expression `pattern` (case-insensitive when asked), or the
    /// builder's message when it does not compile.
    pub fn new(pattern: &str, case_insensitive: bool) -> (r: Result<TextPattern, String>)
        ensures
            r matches Ok(p) ==> p.pattern() == pattern@ && p.case_insensitive() == case_insensitive,
    {
        match build_regex(pattern, case_insensitive) {
            Ok(re) => Ok(TextPattern { re, pattern: Ghost(pattern@), case_insensitive: Ghost(case_insensitive) }),
            Err(m) => Err(m),
        }
    }
}

/// The byte ranges `(start, end)` of the successive non-overlapping
/// matches of the expression built from `pattern` (case-insensitive when
/// `ci`) in `text`, as `regex::Regex::find_iter` gives them.
pub uninterp spec fn regex_matches(pattern: Seq<char>, ci: bool, text: Seq<char>) -> Seq<(usize, usize)>;

/// `regex::Regex::find_iter`: the byte ranges of the matches (named by
/// [`regex_matches`]).  The crate documents that `start <= end`, that both
/// fall on character boundaries of the text, and that the matches come in
/// order without overlapping.
#[verifier::external_body]
pub(crate) fn regex_spans(p: &TextPattern, text: &str) -> (r: Vec<(usize, usize)>)
    ensures
        r@ == regex_matches(p.pattern(), p.case_insensitive(), text@),
        forall|k: int|
            0 <= k < r@.len() ==> (#[trigger] r@[k]).0 <= r@[k].1 <= encode_utf8(text@).len() && (r@[k].0
                == encode_utf8(text@).len() || is_char_boundary(encode_utf8(text@), r@[k].0 as int)) && (
            r@[k].1 == encode_utf8(text@).len() || is_char_boundary(encode_utf8(text@), r@[k].1 as int)),
        forall|k: int| 0 < k < r@.len() ==> r@[k - 1].1 <= (#[trigger] r@[k]).0,
{
    p.re.find_iter(text).map(|m| (m.start(), m.end())).collect()
}

/// A character with a meaning in a pattern (`regex_syntax::is_meta_character`).
pub open spec fn is_meta_char(c: char) -> bool {
    c == '\\' || c == '.' || c == '+' || c == '*' || c == '?' || c == '(' || c == ')' || c == '|' || c == '['
        || c == ']' || c == '{' || c == '}' || c == '^' || c == '$' || c == '#' || c == '&' || c == '-' || c
        == '~'
}

/// What `regex::escape` makes of a string: each meta character preceded
/// by a backslash, so that the pattern matches the string literally.
pub open spec fn regex_escaped(s: Seq<char>) -> Seq<char>
    decreases s.len(),
{
    if s.len() == 0 {
        Seq::empty()
    } else {
        regex_escaped(s.drop_last()) + if is_meta_char(s.last()) {
            seq!['\\', s.last()]
        } else {
            seq![s.last()]
        }
    }
}

/// `regex::escape`: `s` with every meta character escaped (see
/// [`regex_escaped`]).
#[verifier::external_body]
fn regex_escape(s: &str) -> (r: String)
    ensures
        r@ == regex_escaped(s@),
{
    regex::escape(s)
}

/// `regex::RegexBuilder::new(pattern).case_insensitive(ci).build()`: the
/// compiled expression, or the builder's error as its message.  Whether a
/// pattern compiles is the crate's and is not stated.
#[verifier::external_body]
fn build_regex(pattern: &str, case_insensitive: bool) -> Result<regex::Regex, String> {
    regex::RegexBuilder::new(pattern).case_insensitive(case_insensitive).build().map_err(|e| e.to_string())
}

/// The expression that matches `query` literally (case-insensitively when
/// asked), or the message of the builder's error.
pub(crate) fn literal_regex(query: &str, case_insensitive: bool) -> (r: Result<TextPattern, String>)
    ensures
        r matches Ok(p) ==> p.pattern() == regex_escaped(query@) && p.case_insensitive() == case_insensitive,
{
    let escaped = regex_escape(query);
    TextPattern::new(escaped.as_str(), case_insensitive)
}

/// `str::get` with a byte range, the slice copied: `None` exactly when
/// slicing would fail, that is unless `from <= to <= len` and both ends lie
/// on character boundaries (the end of the text is one); otherwise the
/// bytes of the slice.
#[verifier::external_body]
pub(crate) fn byte_slice(text: &str, from: usize, to: usize) -> (r: Option<String>)
    ensures
        r is Some <==> (from <= to <= encode_utf8(text@).len() && (from == encode_utf8(text@).len()
            || is_char_boundary(encode_utf8(text@), from as int)) && (to == encode_utf8(text@).len()
            || is_char_boundary(encode_utf8(text@), to as int))),
        r matches Some(s) ==> encode_utf8(s@) == encode_utf8(text@).subrange(from as int, to as int),
{
    text.get(from..to).map(|s| s.to_string())
}

// ── The search, stated ───────────────────────────────────────────────────────

/// The text nodes among `ns` and their descendants, in document order.
pub open spec fn walk_texts(ns: Seq<DomV>) -> Seq<Seq<char>>
    decreases ns,
{
    if ns.len() == 0 {
        Seq::empty()
    } else {
        match ns[0] {
            DomV::Element { children, .. } => {
                proof {
                    assert(decreases_to!(ns => ns[0]));
                }
                walk_texts(children) + walk_texts(ns.drop_first())
            },
            DomV::Text(t) => seq![t] + walk_texts(ns.drop_first()),
        }
    }
}

/// The nearest character boundary at or before `i` (0 at the latest).
pub open spec fn floor_boundary(b: Seq<u8>, i: int) -> int
    decreases i,
{
    if i <= 0 {
        0
    } else if is_char_boundary(b, i) {
        i
    } else {
        floor_boundary(b, i - 1)
    }
}

/// The nearest character boundary at or after `i` (the end at the latest).
pub open spec fn ceil_boundary(b: Seq<u8>, i: int) -> int
    decreases b.len() - i,
{
    if i >= b.len() {
        b.len() as int
    } else if is_char_boundary(b, i) {
        i
    } else {
        ceil_boundary(b, i + 1)
    }
}

/// A match range fits a text: `start <= end <= ` its length in bytes.
pub open spec fn span_fits(text: Seq<char>, span: (usize, usize)) -> bool {
    span.0 <= span.1 <= encode_utf8(text).len()
}

/// The spans fit the texts, one list of spans per text.
pub open spec fn spans_fit(texts: Seq<Seq<char>>, spans: Seq<Seq<(usize, usize)>>, k: int) -> bool {
    &&& 0 <= k
    &&& k + texts.len() <= spans.len()
    &&& forall|j: int, m: int|
        0 <= j < texts.len() && 0 <= m < spans[k + j].len() ==> span_fits(
            #[trigger] texts[j],
            #[trigger] spans[k + j][m],
        )
}

/// A hit as plain values: (the excerpt's UTF-8 bytes, the CFI range).
pub type HitV = (Seq<u8>, Seq<char>);

pub open spec fn hit_view(r: SearchResult) -> HitV {
    (encode_utf8(r.excerpt@), r.cfi@)
}

pub open spec fn hit_views(s: Seq<SearchResult>) -> Seq<HitV> {
    s.map_values(|r: SearchResult| hit_view(r))
}

/// The hit of match `span` in text node `text`, the text node being step
/// `ti` of the element at CFI `head` (which starts `epubcfi(`): the
/// excerpt reaches 20 bytes before and after the match, widened to
/// character boundaries; the range is `head,/ti:start,/ti:end)`.
pub open spec fn hit_of(text: Seq<char>, span: (usize, usize), head: Seq<char>, ti: nat) -> HitV {
    let b = encode_utf8(text);
    let cs = floor_boundary(b, span.0 - 20);
    let ce = ceil_boundary(
        b,
        if span.1 + 20 < b.len() {
            span.1 + 20
        } else {
            b.len() as int
        },
    );
    (
        b.subrange(cs, ce),
        head + seq![',', '/'] + decimal_spec(ti) + seq![':'] + decimal_spec(span.0 as nat) + seq![',', '/']
            + decimal_spec(ti) + seq![':'] + decimal_spec(span.1 as nat) + seq![')'],
    )
}

/// The hits among `ns` (children of the element at `path`, after `count`
/// element siblings), the `k`-th text node of the walk having the matches
/// `spans[k]`, in document order.
pub open spec fn search_walk(
    ns: Seq<DomV>,
    base: Seq<char>,
    path: Seq<char>,
    count: nat,
    spans: Seq<Seq<(usize, usize)>>,
    k: int,
) -> Seq<HitV>
    decreases ns,
{
    if ns.len() == 0 {
        Seq::empty()
    } else {
        match ns[0] {
            DomV::Element { attrs, children, .. } => {
                proof {
                    assert(decreases_to!(ns => ns[0]));
                }
                search_walk(children, base, step_path(path, count, attrs), 0, spans, k) + search_walk(
                    ns.drop_first(),
                    base,
                    path,
                    count + 1,
                    spans,
                    k + walk_texts(children).len(),
                )
            },
            DomV::Text(t) => spans[k].map_values(
                |sp: (usize, usize)| hit_of(t, sp, "epubcfi("@ + base + path, 2 * count + 1),
            ) + search_walk(ns.drop_first(), base, path, count, spans, k + 1),
        }
    }
}

/// The number of elements among `ns` (not counting their descendants).
pub open spec fn element_count(ns: Seq<DomV>) -> nat
    decreases ns.len(),
{
    if ns.len() == 0 {
        0
    } else {
        (if ns[0] is Element {
            1nat
        } else {
            0nat
        }) + element_count(ns.drop_first())
    }
}

/// The hits of a text node: one per match, its CFI range below `path`
/// with the text step `ti`.
pub open spec fn text_hits(t: Seq<char>, matches: Seq<(usize, usize)>, base: Seq<char>, path: Seq<char>, ti: nat) -> Seq<
    HitV,
> {
    matches.map_values(|sp: (usize, usize)| hit_of(t, sp, "epubcfi("@ + base + path, ti))
}

/// Searching a list of sibling nodes gives the hits of the nodes before the
/// text node at position `i`, then that node's own hits, then those of the
/// nodes after it; the text node's CFI step is odd,
/// `2 * (count + e) + 1`, where `e` counts the element siblings before it
/// (and `count` those before the list).
pub proof fn law_text_step_counts_element_siblings(
    ns: Seq<DomV>,
    base: Seq<char>,
    path: Seq<char>,
    count: nat,
    spans: Seq<Seq<(usize, usize)>>,
    k: int,
    i: int,
    t: Seq<char>,
)
    requires
        0 <= i < ns.len(),
        ns[i] == DomV::Text(t),
    ensures
        search_walk(ns, base, path, count, spans, k) == search_walk(ns.take(i), base, path, count, spans, k)
            + text_hits(
            t,
            spans[k + walk_texts(ns.take(i)).len()],
            base,
            path,
            2 * (count + element_count(ns.take(i))) + 1,
        ) + search_walk(
            ns.skip(i + 1),
            base,
            path,
            count + element_count(ns.take(i)),
            spans,
            k + walk_texts(ns.take(i)).len() + 1,
        ),
    decreases i,
{
    let pre = ns.take(i);
    if i == 0 {
        assert(pre =~= Seq::<DomV>::empty());
        assert(ns.skip(1) =~= ns.drop_first());
        assert(text_hits(t, spans[k], base, path, 2 * count + 1) =~= spans[k].map_values(
            |sp: (usize, usize)| hit_of(t, sp, "epubcfi("@ + base + path, 2 * count + 1),
        ));
        assert(search_walk(pre, base, path, count, spans, k) == Seq::<HitV>::empty());
        assert(search_walk(ns, base, path, count, spans, k) =~= Seq::<HitV>::empty() + text_hits(
            t,
            spans[k],
            base,
            path,
            2 * count + 1,
        ) + search_walk(ns.skip(1), base, path, count, spans, k + 1));
    } else {
        let rest = ns.drop_first();
        assert(rest[i - 1] == ns[i]);
        assert(pre.drop_first() =~= rest.take(i - 1));
        assert(pre[0] == ns[0]);
        assert(rest.skip(i) =~= ns.skip(i + 1));
        match ns[0] {
            DomV::Element { attrs, children, .. } => {
                let k1 = k + walk_texts(children).len();
                law_text_step_counts_element_siblings(rest, base, path, count + 1, spans, k1, i - 1, t);
                assert(element_count(pre) == 1 + element_count(rest.take(i - 1)));
                assert(walk_texts(pre) == walk_texts(children) + walk_texts(rest.take(i - 1)));
                assert(search_walk(pre, base, path, count, spans, k) == search_walk(
                    children,
                    base,
                    step_path(path, count, attrs),
                    0,
                    spans,
                    k,
                ) + search_walk(rest.take(i - 1), base, path, count + 1, spans, k1));
                assert(search_walk(ns, base, path, count, spans, k) == search_walk(
                    children,
                    base,
                    step_path(path, count, attrs),
                    0,
                    spans,
                    k,
                ) + search_walk(rest, base, path, count + 1, spans, k1));
                assert(2 * (count + element_count(pre)) + 1 == 2 * (count + 1 + element_count(rest.take(i - 1)))
                    + 1);
                assert(search_walk(ns, base, path, count, spans, k) =~= search_walk(pre, base, path, count, spans, k)
                    + text_hits(t, spans[k + walk_texts(pre).len()], base, path, 2 * (count + element_count(pre)) + 1)
                    + search_walk(
                    ns.skip(i + 1),
                    base,
                    path,
                    count + element_count(pre),
                    spans,
                    k + walk_texts(pre).len() + 1,
                ));
            },
            DomV::Text(t0) => {
                law_text_step_counts_element_siblings(rest, base, path, count, spans, k + 1, i - 1, t);
                assert(element_count(pre) == element_count(rest.take(i - 1)));
                assert(walk_texts(pre) == seq![t0] + walk_texts(rest.take(i - 1)));
                let h0 = spans[k].map_values(|sp: (usize, usize)| hit_of(t0, sp, "epubcfi("@ + base + path, 2 * count + 1));
                assert(search_walk(pre, base, path, count, spans, k) == h0 + search_walk(
                    rest.take(i - 1),
                    base,
                    path,
                    count,
                    spans,
                    k + 1,
                ));
                assert(search_walk(ns, base, path, count, spans, k) == h0 + search_walk(rest, base, path, count, spans, k + 1));
                assert(search_walk(ns, base, path, count, spans, k) =~= search_walk(pre, base, path, count, spans, k)
                    + text_hits(t, spans[k + walk_texts(pre).len()], base, path, 2 * (count + element_count(pre)) + 1)
                    + search_walk(
                    ns.skip(i + 1),
                    base,
                    path,
                    count + element_count(pre),
                    spans,
                    k + walk_texts(pre).len() + 1,
                ));
            },
        }
    }
}

/// The text nodes searched in a chapter: those of its first `<html>`.
pub open spec fn searched_texts(roots: Seq<DomV>) -> Seq<Seq<char>> {
    match first_element(roots, "html"@) {
        Some(DomV::Element { children, .. }) => walk_texts(children),
        _ => Seq::empty(),
    }
}

/// The hits of a chapter whose tree has top-level nodes `roots`, the
/// `k`-th searched text node having the matches `spans[k]`.
pub open spec fn search_hits(roots: Seq<DomV>, base_cfi: Seq<char>, spans: Seq<Seq<(usize, usize)>>) -> Seq<
    HitV,
> {
    match first_element(roots, "html"@) {
        Some(DomV::Element { children, .. }) => search_walk(children, base_cfi, Seq::empty(), 0, spans, 0),
        _ => Seq::empty(),
    }
}

// ── The search, done ─────────────────────────────────────────────────────────

/// Appends the text nodes of `nodes` (see [`walk_texts`]).
fn collect_texts(nodes: &Vec<DomNode>, out: &mut Vec<String>)
    ensures
        final(out)@.map_values(|s: String| s@) == old(out)@.map_values(|s: String| s@) + walk_texts(
            dom_views(nodes@),
        ),
    decreases nodes@,
{
    let ghost v = dom_views(nodes@);
    let ghost start = out@.map_values(|s: String| s@);
    proof {
        lemma_dom_views_index(nodes@);
        assert(v.skip(0) =~= v);
    }
    let mut i: usize = 0;
    while i < nodes.len()
        invariant
            i <= nodes@.len(),
            v == dom_views(nodes@),
            v.len() == nodes@.len(),
            forall|k: int| 0 <= k < nodes@.len() ==> #[trigger] v[k] == dom_view(nodes@[k]),
            start + walk_texts(v) == out@.map_values(|s: String| s@) + walk_texts(v.skip(i as int)),
        decreases nodes@.len() - i,
    {
        proof {
            assert(v.skip(i as int)[0] == v[i as int]);
            assert(v.skip(i as int).drop_first() =~= v.skip(i + 1));
            lemma_dom_view(nodes@[i as int]);
        }
        let ghost o0 = out@.map_values(|s: String| s@);
        match &nodes[i] {
            DomNode::Element { children, .. } => {
                proof {
                    assert(decreases_to!(nodes@ => nodes@[i as int]));
                }
                collect_texts(children, out);
            },
            DomNode::Text(t) => {
                out.push(t.clone());
                assert(out@.map_values(|s: String| s@) =~= o0.push(t@));
            },
        }
        assert(out@.map_values(|s: String| s@) + walk_texts(v.skip(i + 1)) =~= o0 + walk_texts(
            v.skip(i as int),
        ));
        i = i + 1;
    }
    assert(v.skip(i as int) =~= Seq::<DomV>::empty());
    assert(start + walk_texts(v) =~= out@.map_values(|s: String| s@));
}

/// The hit of one match (see [`hit_of`]).
fn hit_exec(text: &str, span: (usize, usize), head: &Vec<char>, ti: u128) -> (r: SearchResult)
    requires
        span_fits(text@, span),
    ensures
        hit_view(r) == hit_of(text@, span, head@, ti as nat),
{
    let b = text.as_bytes().len();
    let (start, end) = span;
    proof {
        vstd::utf8::encode_utf8_valid_utf8(text@);
    }
    let mut cs: usize = if start > 20 {
        start - 20
    } else {
        0
    };
    proof {
        assert(floor_boundary(encode_utf8(text@), start - 20) == floor_boundary(encode_utf8(text@), cs as int));
    }
    while cs > 0 && !text.is_char_boundary(cs)
        invariant
            cs <= start,
            floor_boundary(encode_utf8(text@), start - 20) == floor_boundary(encode_utf8(text@), cs as int),
        decreases cs,
    {
        cs = cs - 1;
    }
    let mut ce: usize = if b - end > 20 {
        end + 20
    } else {
        b
    };
    proof {
        let bb = encode_utf8(text@);
        assert(ceil_boundary(bb, if end + 20 < bb.len() { end + 20 } else { bb.len() as int }) == ceil_boundary(
            bb,
            ce as int,
        ));
    }
    while ce < b && !text.is_char_boundary(ce)
        invariant
            end <= ce <= b,
            b == encode_utf8(text@).len(),
            ceil_boundary(
                encode_utf8(text@),
                if end + 20 < encode_utf8(text@).len() {
                    end + 20
                } else {
                    encode_utf8(text@).len() as int
                },
            ) == ceil_boundary(encode_utf8(text@), ce as int),
        decreases b - ce,
    {
        ce = ce + 1;
    }
    let excerpt = match byte_slice(text, cs, ce) {
        Some(s) => s,
        None => String::new(),
    };
    let mut cfi: Vec<char> = Vec::new();
    extend_chars(&mut cfi, head);
    cfi.push(',');
    cfi.push('/');
    extend_chars(&mut cfi, &decimal_chars_wide(ti));
    cfi.push(':');
    extend_chars(&mut cfi, &decimal_chars_wide(start as u128));
    cfi.push(',');
    cfi.push('/');
    extend_chars(&mut cfi, &decimal_chars_wide(ti));
    cfi.push(':');
    extend_chars(&mut cfi, &decimal_chars_wide(end as u128));
    cfi.push(')');
    let r = SearchResult { excerpt, cfi: string_from_chars(&cfi) };
    assert(r.cfi@ =~= hit_of(text@, span, head@, ti as nat).1);
    r
}

/// Appends the hits among `nodes` (see [`search_walk`]); returns the index
/// of the next text node.
fn search_nodes(
    nodes: &Vec<DomNode>,
    base: &str,
    path: &Vec<char>,
    spans: &Vec<Vec<(usize, usize)>>,
    k: usize,
    out: &mut Vec<SearchResult>,
) -> (next: usize)
    requires
        spans_fit(walk_texts(dom_views(nodes@)), spans@.map_values(|s: Vec<(usize, usize)>| s@), k as int),
    ensures
        next == k + walk_texts(dom_views(nodes@)).len(),
        hit_views(final(out)@) == hit_views(old(out)@) + search_walk(
            dom_views(nodes@),
            base@,
            path@,
            0,
            spans@.map_values(|s: Vec<(usize, usize)>| s@),
            k as int,
        ),
    decreases nodes@,
{
    let ghost v = dom_views(nodes@);
    let ghost sv = spans@.map_values(|s: Vec<(usize, usize)>| s@);
    let ghost start = hit_views(out@);
    proof {
        lemma_dom_views_index(nodes@);
        assert(v.skip(0) =~= v);
    }
    let mut count: usize = 0;
    let mut kk: usize = k;
    let total_spans = spans.len();
    let mut i: usize = 0;
    while i < nodes.len()
        invariant
            i <= nodes@.len(),
            count <= i,
            total_spans == spans@.len(),
            v == dom_views(nodes@),
            sv == spans@.map_values(|s: Vec<(usize, usize)>| s@),
            v.len() == nodes@.len(),
            forall|q: int| 0 <= q < nodes@.len() ==> #[trigger] v[q] == dom_view(nodes@[q]),
            spans_fit(walk_texts(v.skip(i as int)), sv, kk as int),
            kk + walk_texts(v.skip(i as int)).len() == k + walk_texts(v).len(),
            start + search_walk(v, base@, path@, 0, sv, k as int) == hit_views(out@) + search_walk(
                v.skip(i as int),
                base@,
                path@,
                count as nat,
                sv,
                kk as int,
            ),
        decreases nodes@.len() - i,
    {
        proof {
            assert(v.skip(i as int)[0] == v[i as int]);
            assert(v.skip(i as int).drop_first() =~= v.skip(i + 1));
            lemma_dom_view(nodes@[i as int]);
        }
        let ghost o0 = hit_views(out@);
        let ghost w = walk_texts(v.skip(i as int));
        let ghost c0 = count;
        let ghost k0 = kk;
        match &nodes[i] {
            DomNode::Element { attrs, children, .. } => {
                let cp = step_path_exec(path, count, attrs);
                let ghost wc = walk_texts(dom_views(children@));
                proof {
                    assert(w == wc + walk_texts(v.skip(i + 1)));
                    assert forall|j: int, m: int|
                        0 <= j < wc.len() && 0 <= m < sv[kk + j].len() implies span_fits(
                        #[trigger] wc[j],
                        #[trigger] sv[kk + j][m],
                    ) by {
                        assert(w[j] == wc[j]);
                    }
                    assert(decreases_to!(nodes@ => nodes@[i as int]));
                }
                kk = search_nodes(children, base, &cp, spans, kk, out);
                proof {
                    let wr = walk_texts(v.skip(i + 1));
                    assert forall|j: int, m: int|
                        0 <= j < wr.len() && 0 <= m < sv[kk + j].len() implies span_fits(
                        #[trigger] wr[j],
                        #[trigger] sv[kk + j][m],
                    ) by {
                        assert(w[wc.len() + j] == wr[j]);
                        assert(k0 + (wc.len() + j) == kk + j);
                    }
                }
                count = count + 1;
            },
            DomNode::Text(t) => {
                let mut head = lit("epubcfi(");
                extend_chars(&mut head, &chars_of(base));
                extend_chars(&mut head, path);
                let ti: u128 = 2 * (count as u128) + 1;
                let sp = &spans[kk];
                proof {
                    assert(w == seq![t@] + walk_texts(v.skip(i + 1)));
                    assert(w[0] == t@);
                    assert(sv[kk as int] == sp@);
                    assert(sv.len() == spans@.len());
                    assert(kk + w.len() <= sv.len());
                    assert forall|q: int| 0 <= q < sp@.len() implies span_fits(t@, #[trigger] sp@[q]) by {
                        assert(span_fits(w[0], sv[kk + 0][q]));
                    }
                }
                let ghost hits = sp@.map_values(
                    |s: (usize, usize)| hit_of(t@, s, "epubcfi("@ + base@ + path@, 2 * count as nat + 1),
                );
                let mut m: usize = 0;
                while m < sp.len()
                    invariant
                        m <= sp@.len(),
                        head@ == "epubcfi("@ + base@ + path@,
                        ti == 2 * count + 1,
                        hits == sp@.map_values(
                            |s: (usize, usize)| hit_of(t@, s, "epubcfi("@ + base@ + path@, 2 * count as nat + 1),
                        ),
                        forall|q: int| 0 <= q < sp@.len() ==> span_fits(t@, #[trigger] sp@[q]),
                        hit_views(out@) == o0 + hits.take(m as int),
                    decreases sp@.len() - m,
                {
                    proof {
                        assert(span_fits(t@, sp@[m as int]));
                    }
                    let h = hit_exec(t.as_str(), sp[m], &head, ti);
                    let ghost ob = out@;
                    out.push(h);
                    assert(hits.take(m + 1) =~= hits.take(m as int).push(hits[m as int]));
                    assert(hit_views(out@) =~= hit_views(ob).push(hit_view(h)));
                    m = m + 1;
                }
                assert(hits.take(m as int) =~= hits);
                assert(kk + 1 <= spans@.len());
                kk = kk + 1;
                proof {
                    let wr = walk_texts(v.skip(i + 1));
                    assert forall|j: int, q: int|
                        0 <= j < wr.len() && 0 <= q < sv[kk + j].len() implies span_fits(
                        #[trigger] wr[j],
                        #[trigger] sv[kk + j][q],
                    ) by {
                        assert(w[1 + j] == wr[j]);
                        assert(k0 + (1 + j) == kk + j);
                        assert(span_fits(w[1 + j], sv[k0 + (1 + j)][q]));
                    }
                }
            },
        }
        proof {
            assert(hit_views(out@) + search_walk(v.skip(i + 1), base@, path@, count as nat, sv, kk as int)
                =~= o0 + search_walk(v.skip(i as int), base@, path@, c0 as nat, sv, k0 as int));
        }
        i = i + 1;
    }
    assert(v.skip(i as int) =~= Seq::<DomV>::empty());
    assert(start + search_walk(v, base@, path@, 0, sv, k as int) =~= hit_views(out@));
    kk
}

/// The hits of a chapter's tree (see [`search_hits`]), given the matches
/// of each searched text node (see [`searched_texts`]).
pub fn search_tree(roots: &Vec<DomNode>, base_cfi: &str, spans: &Vec<Vec<(usize, usize)>>) -> (r: Vec<
    SearchResult,
>)
    requires
        spans@.len() == searched_texts(dom_views(roots@)).len(),
        spans_fit(searched_texts(dom_views(roots@)), spans@.map_values(|s: Vec<(usize, usize)>| s@), 0),
    ensures
        hit_views(r@) == search_hits(dom_views(roots@), base_cfi@, spans@.map_values(|s: Vec<(usize, usize)>| s@)),
{
    let mut out: Vec<SearchResult> = Vec::new();
    assert(hit_views(out@) =~= Seq::<HitV>::empty());
    match first_element_in(roots, "html") {
        Some(h) => {
            proof {
                lemma_dom_view(*h);
            }
            match h {
                DomNode::Element { children, .. } => {
                    let path: Vec<char> = Vec::new();
                    assert(path@ =~= Seq::<char>::empty());
                    search_nodes(children, base_cfi, &path, spans, 0, &mut out);
                },
                DomNode::Text(_) => {},
            }
        },
        None => {},
    }
    out
}

/// The text nodes searched in a chapter's tree (see [`searched_texts`]).
pub fn searched_texts_of(roots: &Vec<DomNode>) -> (r: Vec<String>)
    ensures
        r@.map_values(|s: String| s@) == searched_texts(dom_views(roots@)),
{
    let mut out: Vec<String> = Vec::new();
    assert(out@.map_values(|s: String| s@) =~= Seq::<Seq<char>>::empty());
    match first_element_in(roots, "html") {
        Some(h) => {
            proof {
                lemma_dom_view(*h);
            }
            match h {
                DomNode::Element { children, .. } => {
                    collect_texts(children, &mut out);
                },
                DomNode::Text(_) => {},
            }
        },
        None => {},
    }
    out
}

/// The matches of `pattern` in each of `texts`.
pub open spec fn pattern_spans(pattern: Seq<char>, ci: bool, texts: Seq<Seq<char>>) -> Seq<Seq<(usize, usize)>> {
    texts.map_values(|t: Seq<char>| regex_matches(pattern, ci, t))
}

/// What searching the chapter `html` below `base_cfi` for `pattern` gives.
pub open spec fn chapter_hits(html: Seq<char>, base_cfi: Seq<char>, pattern: Seq<char>, ci: bool) -> Seq<HitV> {
    search_hits(
        dom_tree(html_dom(html)),
        base_cfi,
        pattern_spans(pattern, ci, searched_texts(dom_tree(html_dom(html)))),
    )
}

/// `v` is what searching the chapter `html` below `base_cfi` gives for
/// some matches of the searched text nodes.
pub open spec fn searched_as(html: Seq<char>, base_cfi: Seq<char>, v: Seq<HitV>) -> bool {
    exists|spans: Seq<Seq<(usize, usize)>>|
        spans.len() == searched_texts(dom_tree(html_dom(html))).len() && spans_fit(
            searched_texts(dom_tree(html_dom(html))),
            spans,
            0,
        ) && v == #[trigger] search_hits(dom_tree(html_dom(html)), base_cfi, spans)
}

/// Searches an HTML chapter for `pattern`: each match in a text node of
/// the document becomes a CFI range below `base_cfi` (byte offsets within
/// the text node) with an excerpt of 20 bytes on each side (see
/// [`search_hits`]); which ranges match is the regular expression's.
pub fn search_chapter(html: &str, base_cfi: &str, pattern: &TextPattern) -> (r: Result<
    Vec<SearchResult>,
    EpubError,
>)
    ensures
        r matches Ok(v) && searched_as(html@, base_cfi@, hit_views(v@)),
        r matches Ok(v) && hit_views(v@) == chapter_hits(html@, base_cfi@, pattern.pattern(), pattern.case_insensitive()),
{
    let roots = parse_html_tree(html);
    let texts = searched_texts_of(&roots);
    let ghost tv = texts@.map_values(|s: String| s@);
    let mut spans: Vec<Vec<(usize, usize)>> = Vec::new();
    let mut i: usize = 0;
    while i < texts.len()
        invariant
            i <= texts@.len(),
            tv == texts@.map_values(|s: String| s@),
            spans@.len() == i,
            forall|j: int|
                0 <= j < i ==> (#[trigger] spans@[j])@ == regex_matches(
                    pattern.pattern(),
                    pattern.case_insensitive(),
                    tv[j],
                ),
            forall|j: int, m: int|
                0 <= j < i && 0 <= m < spans@[j]@.len() ==> span_fits(
                    #[trigger] tv[j],
                    #[trigger] spans@[j]@[m],
                ),
        decreases texts@.len() - i,
    {
        let found = regex_spans(pattern, texts[i].as_str());
        proof {
            assert(tv[i as int] == texts@[i as int]@);
        }
        let ghost sb = spans@;
        spans.push(found);
        proof {
            assert forall|j: int, m: int|
                0 <= j < i + 1 && 0 <= m < spans@[j]@.len() implies span_fits(
                #[trigger] tv[j],
                #[trigger] spans@[j]@[m],
            ) by {
                if j < i {
                    assert(spans@[j] == sb[j]);
                } else {
                    assert(spans@[j] == found);
                    let f = found@[m];
                    assert(f.0 <= f.1 <= encode_utf8(texts@[i as int]@).len());
                }
            }
        }
        i = i + 1;
    }
    let ghost sv = spans@.map_values(|s: Vec<(usize, usize)>| s@);
    proof {
        assert forall|j: int, m: int|
            0 <= j < tv.len() && 0 <= m < sv[0 + j].len() implies span_fits(#[trigger] tv[j], #[trigger] sv[0 + j][m]) by {
            assert(sv[j] == spans@[j]@);
        }
    }
    let res = search_tree(&roots, base_cfi, &spans);
    assert(search_hits(dom_tree(html_dom(html@)), base_cfi@, sv) == hit_views(res@));
    assert(sv =~= pattern_spans(pattern.pattern(), pattern.case_insensitive(), tv));
    Ok(res)
}

} // verus!
