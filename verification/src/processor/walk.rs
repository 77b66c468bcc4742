//! Walks over a chapter's tree that locate what they find by CFI paths:
//! the semantic blocks of a chapter, and full-text search hits.
//!
//! In a CFI path an element is stepped to by its even index among its
//! parent's element children (`/2`, `/4`, ...), followed by `[id]` when it
//! has an `id`; a text node takes the odd index after the element before
//! it.
use vstd::prelude::*;
use crate::dom::{
    DomAttr, DomAttrV, DomNode, DomV, attrs_view, dom_attr, dom_view, dom_views, first_element,
    first_element_in, get_dom_attr, lemma_dom_view, lemma_dom_views_index, text_content, collect_text,
    parse_html_tree, dom_tree, html_dom,
};
use crate::model::{ContentElement, Position};
use crate::error::EpubError;
use kuchikiki::traits::TendrilSink;
use kuchikiki::iter::NodeIterator;
use crate::parser::container::opt_str;
use crate::text::{
    chars_of, decimal_chars_wide, decimal_spec, eq_str, extend_chars, lit, string_from_chars, trim_chars,
    trim_spec,
};

verus! {

// ── CFI steps ────────────────────────────────────────────────────────────────

/// `[id]` for an element with an `id`, else nothing.
pub open spec fn id_assertion(attrs: Seq<DomAttrV>) -> Seq<char> {
    match dom_attr(attrs, "id"@) {
        Some(id) => seq!['['] + id + seq![']'],
        None => Seq::empty(),
    }
}

/// The path to the element that comes after `count` element siblings.
pub open spec fn step_path(parent: Seq<char>, count: nat, attrs: Seq<DomAttrV>) -> Seq<char> {
    parent + seq!['/'] + decimal_spec(2 * (count + 1)) + id_assertion(attrs)
}

/// A base CFI without one trailing `!`.
pub open spec fn strip_bang(b: Seq<char>) -> Seq<char> {
    if b.len() > 0 && b.last() == '!' {
        b.drop_last()
    } else {
        b
    }
}

fn id_assertion_exec(attrs: &Vec<DomAttr>) -> (r: Vec<char>)
    ensures
        r@ == id_assertion(attrs_view(attrs@)),
{
    match get_dom_attr(attrs, "id") {
        Some(id) => {
            let mut r: Vec<char> = Vec::new();
            r.push('[');
            extend_chars(&mut r, &chars_of(id.as_str()));
            r.push(']');
            assert(r@ =~= seq!['['] + id@ + seq![']']);
            r
        },
        None => Vec::new(),
    }
}

pub(crate) fn step_path_exec(parent: &Vec<char>, count: usize, attrs: &Vec<DomAttr>) -> (r: Vec<char>)
    ensures
        r@ == step_path(parent@, count as nat, attrs_view(attrs@)),
{
    let mut r: Vec<char> = Vec::new();
    extend_chars(&mut r, parent);
    r.push('/');
    let idx: u128 = 2 * (count as u128 + 1);
    extend_chars(&mut r, &decimal_chars_wide(idx));
    extend_chars(&mut r, &id_assertion_exec(attrs));
    assert(r@ =~= step_path(parent@, count as nat, attrs_view(attrs@)));
    r
}

pub(crate) fn strip_bang_exec(b: &str) -> (r: Vec<char>)
    ensures
        r@ == strip_bang(b@),
{
    let mut c = chars_of(b);
    if c.len() > 0 && c[c.len() - 1] == '!' {
        c.pop();
    }
    c
}

// ── Semantic blocks ──────────────────────────────────────────────────────────

/// The elements that make a block of their own.
pub open spec fn is_block_tag(n: Seq<char>) -> bool {
    n == "p"@ || n == "h1"@ || n == "h2"@ || n == "h3"@ || n == "h4"@ || n == "h5"@ || n == "h6"@
        || n == "blockquote"@ || n == "li"@ || n == "dt"@ || n == "dd"@ || n == "figcaption"@
}

/// The language in force inside an element: its `lang`, else its
/// `xml:lang`, else the inherited one.
pub open spec fn lang_after(attrs: Seq<DomAttrV>, inherited: Option<Seq<char>>) -> Option<Seq<char>> {
    match dom_attr(attrs, "lang"@) {
        Some(l) => Some(l),
        None => match dom_attr(attrs, "xml:lang"@) {
            Some(l) => Some(l),
            None => inherited,
        },
    }
}

/// A block as plain values: (text, CFI, tag name, language).
pub type ContentV = (Seq<char>, Seq<char>, Seq<char>, Option<Seq<char>>);

pub open spec fn content_view(c: ContentElement) -> ContentV {
    (c.text@, c.cfi_range@, c.tag_name@, opt_str(c.language))
}

pub open spec fn content_views(s: Seq<ContentElement>) -> Seq<ContentV> {
    s.map_values(|c: ContentElement| content_view(c))
}

/// The blocks among `ns` (children of the element at `path`, after
/// `count` element siblings), in document order: a block element with
/// non-blank text is one block; the children of any other element are
/// walked in turn.
pub open spec fn semantic_walk(
    ns: Seq<DomV>,
    base: Seq<char>,
    path: Seq<char>,
    lang: Option<Seq<char>>,
    count: nat,
) -> Seq<ContentV>
    decreases ns,
{
    if ns.len() == 0 {
        Seq::empty()
    } else {
        match ns[0] {
            DomV::Element { name, attrs, children } => {
                proof {
                    assert(decreases_to!(ns => ns[0]));
                }
                let cp = step_path(path, count, attrs);
                let l = lang_after(attrs, lang);
                let own = if is_block_tag(name) {
                    let t = trim_spec(text_content(children));
                    if t.len() > 0 {
                        seq![(t, "epubcfi("@ + base + "!"@ + cp + ")"@, name, l)]
                    } else {
                        Seq::empty()
                    }
                } else {
                    semantic_walk(children, base, cp, l, 0)
                };
                own + semantic_walk(ns.drop_first(), base, path, lang, count + 1)
            },
            DomV::Text(_) => semantic_walk(ns.drop_first(), base, path, lang, count),
        }
    }
}

/// The first element child named `body` among `ns` (after `count` element
/// siblings): its children and its step index.
pub open spec fn body_of(ns: Seq<DomV>, count: nat) -> Option<(Seq<DomV>, nat)>
    decreases ns.len(),
{
    if ns.len() == 0 {
        None
    } else {
        match ns[0] {
            DomV::Element { name, children, .. } => if name == "body"@ {
                Some((children, 2 * (count + 1)))
            } else {
                body_of(ns.drop_first(), count + 1)
            },
            DomV::Text(_) => body_of(ns.drop_first(), count),
        }
    }
}

/// The blocks of a chapter whose tree has top-level nodes `roots`, with
/// the spine item's CFI `base_cfi`: the body of the first `<html>` is
/// walked, in the document's language.
pub open spec fn semantic_content(roots: Seq<DomV>, base_cfi: Seq<char>) -> Seq<ContentV> {
    match first_element(roots, "html"@) {
        Some(DomV::Element { attrs, children, .. }) => {
            let doc_lang = match dom_attr(attrs, "lang"@) {
                Some(l) => Some(l),
                None => dom_attr(attrs, "xml:lang"@),
            };
            match body_of(children, 0) {
                Some((bc, idx)) => semantic_walk(bc, strip_bang(base_cfi), seq!['/'] + decimal_spec(idx), doc_lang, 0),
                None => Seq::empty(),
            }
        },
        _ => Seq::empty(),
    }
}

fn is_block_tag_exec(n: &str) -> (b: bool)
    ensures
        b == is_block_tag(n@),
{
    let c = chars_of(n);
    eq_str(&c, "p") || eq_str(&c, "h1") || eq_str(&c, "h2") || eq_str(&c, "h3") || eq_str(&c, "h4")
        || eq_str(&c, "h5") || eq_str(&c, "h6") || eq_str(&c, "blockquote") || eq_str(&c, "li")
        || eq_str(&c, "dt") || eq_str(&c, "dd") || eq_str(&c, "figcaption")
}

fn lang_after_exec(attrs: &Vec<DomAttr>, inherited: &Option<String>) -> (r: Option<String>)
    ensures
        opt_str(r) == lang_after(attrs_view(attrs@), opt_str(*inherited)),
{
    match get_dom_attr(attrs, "lang") {
        Some(l) => Some(l),
        None => match get_dom_attr(attrs, "xml:lang") {
            Some(l) => Some(l),
            None => match inherited {
                Some(s) => Some(s.clone()),
                None => None,
            },
        },
    }
}

fn copy_opt(v: &Option<String>) -> (r: Option<String>)
    ensures
        opt_str(r) == opt_str(*v),
{
    match v {
        Some(s) => Some(s.clone()),
        None => None,
    }
}

/// Appends the blocks among `nodes` (see [`semantic_walk`]).
fn semantic_nodes(
    nodes: &Vec<DomNode>,
    base: &Vec<char>,
    path: &Vec<char>,
    lang: &Option<String>,
    out: &mut Vec<ContentElement>,
)
    ensures
        content_views(final(out)@) == content_views(old(out)@) + semantic_walk(
            dom_views(nodes@),
            base@,
            path@,
            opt_str(*lang),
            0,
        ),
    decreases nodes@,
{
    let ghost v = dom_views(nodes@);
    let ghost start = content_views(out@);
    proof {
        lemma_dom_views_index(nodes@);
        assert(v.skip(0) =~= v);
    }
    let mut count: usize = 0;
    let mut i: usize = 0;
    while i < nodes.len()
        invariant
            i <= nodes@.len(),
            count <= i,
            v == dom_views(nodes@),
            v.len() == nodes@.len(),
            forall|k: int| 0 <= k < nodes@.len() ==> #[trigger] v[k] == dom_view(nodes@[k]),
            start + semantic_walk(v, base@, path@, opt_str(*lang), 0) == content_views(out@) + semantic_walk(
                v.skip(i as int),
                base@,
                path@,
                opt_str(*lang),
                count as nat,
            ),
        decreases nodes@.len() - i,
    {
        proof {
            assert(v.skip(i as int)[0] == v[i as int]);
            assert(v.skip(i as int).drop_first() =~= v.skip(i + 1));
            lemma_dom_view(nodes@[i as int]);
        }
        let ghost o0 = content_views(out@);
        match &nodes[i] {
            DomNode::Element { name, attrs, children } => {
                let cp = step_path_exec(path, count, attrs);
                let l = lang_after_exec(attrs, lang);
                if is_block_tag_exec(name.as_str()) {
                    let mut text: Vec<char> = Vec::new();
                    collect_text(children, &mut text);
                    assert(text@ =~= text_content(dom_views(children@)));
                    let t = trim_chars(&text);
                    if t.len() > 0 {
                        let mut cfi = lit("epubcfi(");
                        extend_chars(&mut cfi, base);
                        extend_chars(&mut cfi, &lit("!"));
                        extend_chars(&mut cfi, &cp);
                        extend_chars(&mut cfi, &lit(")"));
                        let e = ContentElement {
                            text: string_from_chars(&t),
                            cfi_range: string_from_chars(&cfi),
                            tag_name: name.clone(),
                            language: l,
                        };
                        out.push(e);
                        assert(content_views(out@) =~= o0.push(content_view(e)));
                    }
                } else {
                    proof {
                        assert(decreases_to!(nodes@ => nodes@[i as int]));
                    }
                    semantic_nodes(children, base, &cp, &l, out);
                }
                count = count + 1;
            },
            DomNode::Text(_) => {},
        }
        proof {
            assert(content_views(out@) + semantic_walk(v.skip(i + 1), base@, path@, opt_str(*lang), count as nat)
                =~= o0 + semantic_walk(v.skip(i as int), base@, path@, opt_str(*lang), (if v[i as int] is Element {
                count - 1
            } else {
                count as int
            }) as nat));
        }
        i = i + 1;
    }
    assert(v.skip(i as int) =~= Seq::<DomV>::empty());
    assert(start + semantic_walk(v, base@, path@, opt_str(*lang), 0) =~= content_views(out@));
}

/// The `body` child of an element's children (see [`body_of`]).
fn body_of_exec(nodes: &Vec<DomNode>) -> (r: Option<(&Vec<DomNode>, usize)>)
    ensures
        match body_of(dom_views(nodes@), 0) {
            Some((bc, idx)) => r matches Some(p) && dom_views(p.0@) == bc && 2 * (p.1 as nat + 1) == idx,
            None => r is None,
        },
{
    let ghost v = dom_views(nodes@);
    proof {
        lemma_dom_views_index(nodes@);
        assert(v.skip(0) =~= v);
    }
    let mut count: usize = 0;
    let mut i: usize = 0;
    while i < nodes.len()
        invariant
            i <= nodes@.len(),
            count <= i,
            v == dom_views(nodes@),
            v.len() == nodes@.len(),
            forall|k: int| 0 <= k < nodes@.len() ==> #[trigger] v[k] == dom_view(nodes@[k]),
            body_of(v, 0) == body_of(v.skip(i as int), count as nat),
        decreases nodes@.len() - i,
    {
        proof {
            assert(v.skip(i as int)[0] == v[i as int]);
            assert(v.skip(i as int).drop_first() =~= v.skip(i + 1));
            lemma_dom_view(nodes@[i as int]);
        }
        match &nodes[i] {
            DomNode::Element { name, children, .. } => {
                if eq_str(&chars_of(name.as_str()), "body") {
                    return Some((children, count));
                }
                count = count + 1;
            },
            DomNode::Text(_) => {},
        }
        i = i + 1;
    }
    assert(v.skip(i as int) =~= Seq::<DomV>::empty());
    None
}

/// The blocks of a chapter's tree (see [`semantic_content`]).
pub fn semantic_content_of(roots: &Vec<DomNode>, base_cfi: &str) -> (r: Vec<ContentElement>)
    ensures
        content_views(r@) == semantic_content(dom_views(roots@), base_cfi@),
{
    let mut out: Vec<ContentElement> = Vec::new();
    assert(content_views(out@) =~= Seq::<ContentV>::empty());
    match first_element_in(roots, "html") {
        Some(h) => {
            proof {
                lemma_dom_view(*h);
            }
            match h {
                DomNode::Element { attrs, children, .. } => {
                    let doc_lang = match get_dom_attr(attrs, "lang") {
                        Some(l) => Some(l),
                        None => get_dom_attr(attrs, "xml:lang"),
                    };
                    match body_of_exec(children) {
                        Some((bc, count)) => {
                            let base = strip_bang_exec(base_cfi);
                            let mut path: Vec<char> = Vec::new();
                            path.push('/');
                            let idx: u128 = 2 * (count as u128 + 1);
                            extend_chars(&mut path, &decimal_chars_wide(idx));
                            assert(path@ =~= seq!['/'] + decimal_spec(idx as nat));
                            semantic_nodes(bc, &base, &path, &doc_lang, &mut out);
                            assert(content_views(out@) =~= semantic_content(dom_views(roots@), base_cfi@));
                        },
                        None => {},
                    }
                },
                DomNode::Text(_) => {},
            }
        },
        None => {},
    }
    out
}

/// The semantic blocks of an HTML chapter (headings, paragraphs, list
/// items, ...) with their CFI ranges below `base_cfi` and the language in
/// force (see [`semantic_content`]).
pub fn extract_semantic_content(html: &str, base_cfi: &str) -> (r: Vec<ContentElement>)
    ensures
        content_views(r@) == semantic_content(dom_tree(html_dom(html@)), base_cfi@),
{
    let roots = parse_html_tree(html);
    semantic_content_of(&roots, base_cfi)
}

// ── CFI labels of elements ───────────────────────────────────────────────────

/// The CFI of every element among `ns` (children of the element at
/// `path`, after `count` element siblings) and their descendants, in
/// document order: `epubcfi(` base, the element's path, `)`.
pub open spec fn cfi_labels(ns: Seq<DomV>, base: Seq<char>, path: Seq<char>, count: nat) -> Seq<Seq<char>>
    decreases ns,
{
    if ns.len() == 0 {
        Seq::empty()
    } else {
        match ns[0] {
            DomV::Element { attrs, children, .. } => {
                proof {
                    assert(decreases_to!(ns => ns[0]));
                }
                let cp = step_path(path, count, attrs);
                seq!["epubcfi("@ + base + cp + ")"@] + cfi_labels(children, base, cp, 0) + cfi_labels(
                    ns.drop_first(),
                    base,
                    path,
                    count + 1,
                )
            },
            DomV::Text(_) => cfi_labels(ns.drop_first(), base, path, count),
        }
    }
}

/// The CFI of every element below the first `<html>` of a chapter's tree,
/// in document order, the spine item's CFI being `base_cfi`.
pub open spec fn element_labels(roots: Seq<DomV>, base_cfi: Seq<char>) -> Seq<Seq<char>> {
    match first_element(roots, "html"@) {
        Some(DomV::Element { children, .. }) => cfi_labels(children, base_cfi, Seq::empty(), 0),
        _ => Seq::empty(),
    }
}

fn label_nodes(nodes: &Vec<DomNode>, base: &Vec<char>, path: &Vec<char>, out: &mut Vec<String>)
    ensures
        final(out)@.map_values(|s: String| s@) == old(out)@.map_values(|s: String| s@) + cfi_labels(
            dom_views(nodes@),
            base@,
            path@,
            0,
        ),
    decreases nodes@,
{
    let ghost v = dom_views(nodes@);
    let ghost start = out@.map_values(|s: String| s@);
    proof {
        lemma_dom_views_index(nodes@);
        assert(v.skip(0) =~= v);
    }
    let mut count: usize = 0;
    let mut i: usize = 0;
    while i < nodes.len()
        invariant
            i <= nodes@.len(),
            count <= i,
            v == dom_views(nodes@),
            v.len() == nodes@.len(),
            forall|k: int| 0 <= k < nodes@.len() ==> #[trigger] v[k] == dom_view(nodes@[k]),
            start + cfi_labels(v, base@, path@, 0) == out@.map_values(|s: String| s@) + cfi_labels(
                v.skip(i as int),
                base@,
                path@,
                count as nat,
            ),
        decreases nodes@.len() - i,
    {
        proof {
            assert(v.skip(i as int)[0] == v[i as int]);
            assert(v.skip(i as int).drop_first() =~= v.skip(i + 1));
            lemma_dom_view(nodes@[i as int]);
        }
        let ghost o0 = out@.map_values(|s: String| s@);
        let ghost c0 = count;
        match &nodes[i] {
            DomNode::Element { attrs, children, .. } => {
                let cp = step_path_exec(path, count, attrs);
                let mut label = lit("epubcfi(");
                extend_chars(&mut label, base);
                extend_chars(&mut label, &cp);
                extend_chars(&mut label, &lit(")"));
                out.push(string_from_chars(&label));
                proof {
                    assert(decreases_to!(nodes@ => nodes@[i as int]));
                }
                label_nodes(children, base, &cp, out);
                count = count + 1;
            },
            DomNode::Text(_) => {},
        }
        proof {
            assert(out@.map_values(|s: String| s@) + cfi_labels(v.skip(i + 1), base@, path@, count as nat)
                =~= o0 + cfi_labels(v.skip(i as int), base@, path@, c0 as nat));
        }
        i = i + 1;
    }
    assert(v.skip(i as int) =~= Seq::<DomV>::empty());
    assert(start + cfi_labels(v, base@, path@, 0) =~= out@.map_values(|s: String| s@));
}

/// The CFI of every element below the first `<html>` of an HTML chapter,
/// in document order (see [`element_labels`]): what a reader attaches to
/// each element as its `data-cfi` attribute.
pub fn cfi_labels_of(html: &str, base_cfi: &str) -> (r: Vec<String>)
    ensures
        r@.map_values(|s: String| s@) == element_labels(dom_tree(html_dom(html@)), base_cfi@),
{
    let roots = parse_html_tree(html);
    let mut out: Vec<String> = Vec::new();
    assert(out@.map_values(|s: String| s@) =~= Seq::<Seq<char>>::empty());
    match first_element_in(&roots, "html") {
        Some(h) => {
            proof {
                lemma_dom_view(*h);
            }
            match h {
                DomNode::Element { children, .. } => {
                    let base = chars_of(base_cfi);
                    let path: Vec<char> = Vec::new();
                    assert(path@ =~= Seq::<char>::empty());
                    label_nodes(children, &base, &path, &mut out);
                },
                DomNode::Text(_) => {},
            }
        },
        None => {},
    }
    out
}

// ── Character positions ──────────────────────────────────────────────────────

/// What position extraction needs to know of one spine item.
pub struct PositionContext<'a> {
    /// The spine item's CFI (`/6/4[id]!`).
    pub base_cfi: &'a str,
    /// Characters per position; not 0.
    pub chars_per_position: usize,
    pub spine_index: usize,
    pub href: &'a str,
}

/// The walk's state: characters since the last position, the last global
/// position number, and each position made: (CFI, global number).
pub struct PosState {
    pub counter: nat,
    pub global: nat,
    pub made: Seq<(Seq<char>, nat)>,
}

/// `1` when the counter is full, else `0`.
pub open spec fn full(st: PosState, cpp: nat) -> int {
    if st.counter == cpp {
        1
    } else {
        0
    }
}

/// Inside a text node of `len` characters, from character `offset` on: a
/// position at each point where the count of characters reaches `cpp`,
/// its CFI being `head` followed by the offset and `)`; the characters
/// left over are counted.
pub open spec fn text_positions(st: PosState, len: nat, offset: nat, cpp: nat, head: Seq<char>) -> PosState
    decreases (len - offset) * 2 + full(st, cpp),
{
    if cpp == 0 || st.counter > cpp || offset > len {
        st
    } else if len - offset >= cpp - st.counter {
        let at = (offset + (cpp - st.counter)) as nat;
        text_positions(
            PosState {
                counter: 0,
                global: st.global + 1,
                made: st.made.push((head + decimal_spec(at) + seq![')'], st.global + 1)),
            },
            len,
            at,
            cpp,
            head,
        )
    } else {
        PosState { counter: (st.counter + (len - offset)) as nat, ..st }
    }
}

/// The positions among `ns` (children of the element at `path`, after
/// `count` element siblings) and their descendants, in document order;
/// `hb` is `epubcfi(` with the spine item's CFI, without its `!`, and `!`.
pub open spec fn pos_walk(ns: Seq<DomV>, hb: Seq<char>, path: Seq<char>, count: nat, st: PosState, cpp: nat) -> PosState
    decreases ns,
{
    if ns.len() == 0 {
        st
    } else {
        match ns[0] {
            DomV::Element { attrs, children, .. } => {
                proof {
                    assert(decreases_to!(ns => ns[0]));
                }
                let cp = step_path(path, count, attrs);
                pos_walk(ns.drop_first(), hb, path, count + 1, pos_walk(children, hb, cp, 0, st, cpp), cpp)
            },
            DomV::Text(t) => pos_walk(
                ns.drop_first(),
                hb,
                path,
                count,
                text_positions(
                    st,
                    t.len(),
                    0,
                    cpp,
                    hb + path + seq!['/'] + decimal_spec(2 * count + 1) + seq![':'],
                ),
                cpp,
            ),
        }
    }
}

/// The positions of a chapter whose tree has top-level nodes `roots`: the
/// children of its first `<html>` are walked.
pub open spec fn chapter_positions(roots: Seq<DomV>, hb: Seq<char>, st: PosState, cpp: nat) -> PosState {
    match first_element(roots, "html"@) {
        Some(DomV::Element { children, .. }) => pos_walk(children, hb, Seq::empty(), 0, st, cpp),
        _ => st,
    }
}

/// The characters of text below the first `<html>`.
pub open spec fn html_text_len(roots: Seq<DomV>) -> nat {
    match first_element(roots, "html"@) {
        Some(DomV::Element { children, .. }) => text_content(children).len(),
        _ => 0,
    }
}

proof fn lemma_text_positions(st: PosState, len: nat, offset: nat, cpp: nat, head: Seq<char>)
    requires
        cpp > 0,
        st.counter <= cpp,
        offset <= len,
    ensures
        ({
            let r = text_positions(st, len, offset, cpp, head);
            &&& r.counter <= cpp
            &&& r.global + full(r, cpp) <= st.global + (len - offset) + full(st, cpp)
            &&& r.made.len() == st.made.len() + (r.global - st.global)
            &&& r.made.take(st.made.len() as int) == st.made
            &&& r.global >= st.global
        }),
    decreases (len - offset) * 2 + full(st, cpp),
{
    if len - offset >= cpp - st.counter {
        let at = (offset + (cpp - st.counter)) as nat;
        let st2 = PosState {
            counter: 0,
            global: st.global + 1,
            made: st.made.push((head + decimal_spec(at) + seq![')'], st.global + 1)),
        };
        lemma_text_positions(st2, len, at, cpp, head);
        let r = text_positions(st2, len, at, cpp, head);
        assert(r.made.take(st2.made.len() as int) == st2.made);
        assert(r.made.take(st.made.len() as int) =~= st2.made.take(st.made.len() as int));
        assert(st2.made.take(st.made.len() as int) =~= st.made);
    } else {
        let r = text_positions(st, len, offset, cpp, head);
        assert(r.made.take(st.made.len() as int) =~= st.made);
    }
}

/// `after` extends `before` by positions numbered on from `before`'s last
/// number, one by one, and keeps the character count within `cpp`.
pub open spec fn numbered_on(before: PosState, after: PosState, cpp: nat) -> bool {
    &&& after.global >= before.global
    &&& after.made.len() == before.made.len() + (after.global - before.global)
    &&& after.made.take(before.made.len() as int) == before.made
    &&& forall|i: int|
        before.made.len() <= i < after.made.len() ==> (#[trigger] after.made[i]).1 == before.global + (i
            - before.made.len()) + 1
    &&& after.counter <= cpp
    &&& before.counter < cpp ==> after.counter < cpp
}

proof fn lemma_numbered_on_trans(a: PosState, b: PosState, c: PosState, cpp: nat)
    requires
        numbered_on(a, b, cpp),
        numbered_on(b, c, cpp),
    ensures
        numbered_on(a, c, cpp),
{
    assert(c.made.take(a.made.len() as int) =~= c.made.take(b.made.len() as int).take(a.made.len() as int));
    assert forall|i: int| a.made.len() <= i < c.made.len() implies (#[trigger] c.made[i]).1 == a.global + (i
        - a.made.len()) + 1 by {
        if i < b.made.len() {
            assert(c.made[i] == c.made.take(b.made.len() as int)[i]);
        }
    }
}

proof fn lemma_text_numbered(st: PosState, len: nat, offset: nat, cpp: nat, head: Seq<char>)
    requires
        cpp > 0,
        st.counter <= cpp,
        offset <= len,
    ensures
        numbered_on(st, text_positions(st, len, offset, cpp, head), cpp),
        st.counter == cpp ==> text_positions(st, len, offset, cpp, head).counter < cpp,
    decreases (len - offset) * 2 + full(st, cpp),
{
    if len - offset >= cpp - st.counter {
        let at = (offset + (cpp - st.counter)) as nat;
        let st2 = PosState {
            counter: 0,
            global: st.global + 1,
            made: st.made.push((head + decimal_spec(at) + seq![')'], st.global + 1)),
        };
        lemma_text_numbered(st2, len, at, cpp, head);
        assert(st2.made.take(st.made.len() as int) =~= st.made);
        assert(numbered_on(st, st2, cpp));
        lemma_numbered_on_trans(st, st2, text_positions(st2, len, at, cpp, head), cpp);
    } else {
        let r = text_positions(st, len, offset, cpp, head);
        assert(r.made.take(st.made.len() as int) =~= st.made);
    }
}

proof fn lemma_walk_numbered(ns: Seq<DomV>, hb: Seq<char>, path: Seq<char>, count: nat, st: PosState, cpp: nat)
    requires
        cpp > 0,
        st.counter <= cpp,
    ensures
        numbered_on(st, pos_walk(ns, hb, path, count, st, cpp), cpp),
    decreases ns,
{
    if ns.len() == 0 {
        assert(st.made.take(st.made.len() as int) =~= st.made);
    } else {
        match ns[0] {
            DomV::Element { attrs, children, .. } => {
                assert(decreases_to!(ns => ns[0]));
                let cp = step_path(path, count, attrs);
                let mid = pos_walk(children, hb, cp, 0, st, cpp);
                lemma_walk_numbered(children, hb, cp, 0, st, cpp);
                lemma_walk_numbered(ns.drop_first(), hb, path, count + 1, mid, cpp);
                lemma_numbered_on_trans(st, mid, pos_walk(ns.drop_first(), hb, path, count + 1, mid, cpp), cpp);
            },
            DomV::Text(t) => {
                let head = hb + path + seq!['/'] + decimal_spec(2 * count + 1) + seq![':'];
                let mid = text_positions(st, t.len(), 0, cpp, head);
                lemma_text_numbered(st, t.len(), 0, cpp, head);
                lemma_walk_numbered(ns.drop_first(), hb, path, count, mid, cpp);
                lemma_numbered_on_trans(st, mid, pos_walk(ns.drop_first(), hb, path, count, mid, cpp), cpp);
            },
        }
    }
}

/// The positions of a chapter are numbered on, one by one, from the last
/// number given before it; those made before stay; and the characters
/// carried over to the next chapter stay below `cpp` (when they were
/// below it to start with).
pub proof fn law_chapter_positions_numbered_on(roots: Seq<DomV>, hb: Seq<char>, st: PosState, cpp: nat)
    requires
        cpp > 0,
        st.counter <= cpp,
    ensures
        numbered_on(st, chapter_positions(roots, hb, st, cpp), cpp),
{
    match first_element(roots, "html"@) {
        Some(DomV::Element { children, .. }) => lemma_walk_numbered(children, hb, Seq::empty(), 0, st, cpp),
        _ => {
            assert(st.made.take(st.made.len() as int) =~= st.made);
        },
    }
}

pub open spec fn pos_view(p: Position) -> (Seq<char>, nat) {
    (p.cfi@, p.global_position as nat)
}

pub open spec fn pos_views(s: Seq<Position>) -> Seq<(Seq<char>, nat)> {
    s.map_values(|p: Position| pos_view(p))
}

/// Every position after the first `n` is one of spine item `spine_index`
/// at `href`, first in its chapter's numbering, without title.
pub open spec fn made_for(s: Seq<Position>, n: int, spine_index: usize, href: Seq<char>) -> bool {
    forall|k: int|
        n <= k < s.len() ==> (#[trigger] s[k]).spine_index == spine_index && s[k].href@ == href
            && s[k].position_in_chapter == 0 && s[k].chapter_position_count == 0 && s[k].title is None
}

/// The positions inside one text node (see [`text_positions`]).
fn text_positions_exec(
    len: usize,
    cpp: usize,
    head: &Vec<char>,
    ctx: &PositionContext,
    counter: &mut usize,
    global: &mut usize,
    out: &mut Vec<Position>,
)
    requires
        cpp > 0,
        cpp == ctx.chars_per_position,
        *old(counter) <= cpp,
        *old(global) + len + (if *old(counter) == cpp { 1int } else { 0int }) <= usize::MAX,
        made_for(old(out)@, 0, ctx.spine_index, ctx.href@),
    ensures
        ({
            let r = text_positions(
                PosState { counter: *old(counter) as nat, global: *old(global) as nat, made: pos_views(old(out)@) },
                len as nat,
                0,
                cpp as nat,
                head@,
            );
            &&& *final(counter) == r.counter
            &&& *final(global) == r.global
            &&& pos_views(final(out)@) == r.made
        }),
        made_for(final(out)@, 0, ctx.spine_index, ctx.href@),
{
    let ghost st0 = PosState { counter: *counter as nat, global: *global as nat, made: pos_views(out@) };
    let mut offset: usize = 0;
    while len - offset >= cpp - *counter
        invariant
            cpp > 0,
            cpp == ctx.chars_per_position,
            offset <= len,
            *counter <= cpp,
            *global + (len - offset) + (if *counter == cpp { 1int } else { 0int }) <= usize::MAX,
            made_for(out@, 0, ctx.spine_index, ctx.href@),
            text_positions(st0, len as nat, 0, cpp as nat, head@) == text_positions(
                PosState { counter: *counter as nat, global: *global as nat, made: pos_views(out@) },
                len as nat,
                offset as nat,
                cpp as nat,
                head@,
            ),
        decreases (len - offset) * 2 + (if *counter == cpp { 1int } else { 0int }),
    {
        let needed = cpp - *counter;
        offset = offset + needed;
        *global = *global + 1;
        let mut cfi: Vec<char> = Vec::new();
        extend_chars(&mut cfi, head);
        extend_chars(&mut cfi, &decimal_chars_wide(offset as u128));
        cfi.push(')');
        let p = Position {
            spine_index: ctx.spine_index,
            href: ctx.href.to_string(),
            cfi: string_from_chars(&cfi),
            global_position: *global,
            position_in_chapter: 0,
            chapter_position_count: 0,
            title: None,
        };
        let ghost ob = out@;
        out.push(p);
        proof {
            assert(pos_views(out@) =~= pos_views(ob).push(pos_view(p)));
            assert(cfi@ =~= head@ + decimal_spec(offset as nat) + seq![')']);
            assert forall|k: int| 0 <= k < out@.len() implies (#[trigger] out@[k]).spine_index == ctx.spine_index
                && out@[k].href@ == ctx.href@ && out@[k].position_in_chapter == 0
                && out@[k].chapter_position_count == 0 && out@[k].title is None by {
                if k < ob.len() {
                    assert(out@[k] == ob[k]);
                }
            }
        }
        *counter = 0;
    }
    *counter = *counter + (len - offset);
}

/// The positions among `nodes` (see [`pos_walk`]).
fn pos_nodes(
    nodes: &Vec<DomNode>,
    hb: &Vec<char>,
    path: &Vec<char>,
    ctx: &PositionContext,
    counter: &mut usize,
    global: &mut usize,
    out: &mut Vec<Position>,
)
    requires
        ctx.chars_per_position > 0,
        *old(counter) <= ctx.chars_per_position,
        *old(global) + text_content(dom_views(nodes@)).len() + (if *old(counter) == ctx.chars_per_position {
            1int
        } else {
            0int
        }) <= usize::MAX,
        made_for(old(out)@, 0, ctx.spine_index, ctx.href@),
    ensures
        ({
            let r = pos_walk(
                dom_views(nodes@),
                hb@,
                path@,
                0,
                PosState { counter: *old(counter) as nat, global: *old(global) as nat, made: pos_views(old(out)@) },
                ctx.chars_per_position as nat,
            );
            &&& *final(counter) == r.counter
            &&& *final(global) == r.global
            &&& pos_views(final(out)@) == r.made
        }),
        *final(counter) <= ctx.chars_per_position,
        *final(global) + (if *final(counter) == ctx.chars_per_position { 1int } else { 0int }) <= *old(global)
            + text_content(dom_views(nodes@)).len() + (if *old(counter) == ctx.chars_per_position {
            1int
        } else {
            0int
        }),
        made_for(final(out)@, 0, ctx.spine_index, ctx.href@),
    decreases nodes@,
{
    let cpp = ctx.chars_per_position;
    let ghost v = dom_views(nodes@);
    let ghost st0 = PosState { counter: *counter as nat, global: *global as nat, made: pos_views(out@) };
    let ghost g0 = *global as int + (if *counter == cpp { 1int } else { 0int });
    proof {
        lemma_dom_views_index(nodes@);
        assert(v.skip(0) =~= v);
    }
    let mut count: usize = 0;
    let mut i: usize = 0;
    while i < nodes.len()
        invariant
            i <= nodes@.len(),
            count <= i,
            cpp == ctx.chars_per_position,
            cpp > 0,
            v == dom_views(nodes@),
            v.len() == nodes@.len(),
            forall|k: int| 0 <= k < nodes@.len() ==> #[trigger] v[k] == dom_view(nodes@[k]),
            *counter <= cpp,
            *global + (if *counter == cpp { 1int } else { 0int }) + text_content(v.skip(i as int)).len() <= g0
                + text_content(v).len(),
            g0 + text_content(v).len() <= usize::MAX,
            made_for(out@, 0, ctx.spine_index, ctx.href@),
            pos_walk(v, hb@, path@, 0, st0, cpp as nat) == pos_walk(
                v.skip(i as int),
                hb@,
                path@,
                count as nat,
                PosState { counter: *counter as nat, global: *global as nat, made: pos_views(out@) },
                cpp as nat,
            ),
        decreases nodes@.len() - i,
    {
        proof {
            assert(v.skip(i as int)[0] == v[i as int]);
            assert(v.skip(i as int).drop_first() =~= v.skip(i + 1));
            lemma_dom_view(nodes@[i as int]);
        }
        match &nodes[i] {
            DomNode::Element { attrs, children, .. } => {
                let cp = step_path_exec(path, count, attrs);
                proof {
                    assert(text_content(v.skip(i as int)) == text_content(dom_views(children@)) + text_content(
                        v.skip(i + 1),
                    ));
                    assert(decreases_to!(nodes@ => nodes@[i as int]));
                }
                pos_nodes(children, hb, &cp, ctx, counter, global, out);
                count = count + 1;
            },
            DomNode::Text(t) => {
                let tc = chars_of(t.as_str());
                let mut head: Vec<char> = Vec::new();
                extend_chars(&mut head, hb);
                extend_chars(&mut head, path);
                head.push('/');
                extend_chars(&mut head, &decimal_chars_wide(2 * (count as u128) + 1));
                head.push(':');
                proof {
                    assert(text_content(v.skip(i as int)) == t@ + text_content(v.skip(i + 1)));
                    assert(head@ =~= hb@ + path@ + seq!['/'] + decimal_spec(2 * count as nat + 1) + seq![':']);
                    lemma_text_positions(
                        PosState { counter: *counter as nat, global: *global as nat, made: pos_views(out@) },
                        tc@.len(),
                        0,
                        cpp as nat,
                        head@,
                    );
                }
                text_positions_exec(tc.len(), cpp, &head, ctx, counter, global, out);
            },
        }
        i = i + 1;
    }
    assert(v.skip(i as int) =~= Seq::<DomV>::empty());
}

/// The positions of a chapter's tree (see [`chapter_positions`]), when the
/// numbers stay within a machine word.
pub fn positions_in_tree(
    roots: &Vec<DomNode>,
    ctx: &PositionContext,
    char_counter: &mut usize,
    positions: &mut Vec<Position>,
    global_pos: &mut usize,
)
    requires
        ctx.chars_per_position > 0,
        *old(char_counter) <= ctx.chars_per_position,
        *old(global_pos) + html_text_len(dom_views(roots@)) + 1 <= usize::MAX,
        made_for(old(positions)@, 0, ctx.spine_index, ctx.href@),
    ensures
        ({
            let r = chapter_positions(
                dom_views(roots@),
                "epubcfi("@ + strip_bang(ctx.base_cfi@) + "!"@,
                PosState {
                    counter: *old(char_counter) as nat,
                    global: *old(global_pos) as nat,
                    made: pos_views(old(positions)@),
                },
                ctx.chars_per_position as nat,
            );
            &&& *final(char_counter) == r.counter
            &&& *final(global_pos) == r.global
            &&& pos_views(final(positions)@) == r.made
        }),
        made_for(final(positions)@, 0, ctx.spine_index, ctx.href@),
{
    let mut hb = lit("epubcfi(");
    extend_chars(&mut hb, &strip_bang_exec(ctx.base_cfi));
    extend_chars(&mut hb, &lit("!"));
    match first_element_in(roots, "html") {
        Some(h) => {
            proof {
                lemma_dom_view(*h);
            }
            match h {
                DomNode::Element { children, .. } => {
                    let path: Vec<char> = Vec::new();
                    assert(path@ =~= Seq::<char>::empty());
                    pos_nodes(children, &hb, &path, ctx, char_counter, global_pos, positions);
                },
                DomNode::Text(_) => {},
            }
        },
        None => {},
    }
}

/// Walks the tree of an HTML chapter and adds a position to `positions`
/// each time `ctx.chars_per_position` characters of text have been passed
/// (see [`chapter_positions`]), counting on from `char_counter` and
/// numbering on from `global_pos`.  When the numbering could leave a
/// machine word nothing is changed and `false` is returned.
pub fn extract_positions(
    html: &str,
    ctx: &PositionContext,
    char_counter: &mut usize,
    positions: &mut Vec<Position>,
    global_pos: &mut usize,
) -> (done: bool)
    requires
        ctx.chars_per_position > 0,
        *old(char_counter) <= ctx.chars_per_position,
        made_for(old(positions)@, 0, ctx.spine_index, ctx.href@),
    ensures
        done == (*old(global_pos) + html_text_len(dom_tree(html_dom(html@))) + 1 <= usize::MAX),
        done ==> ({
            let r = chapter_positions(
                dom_tree(html_dom(html@)),
                "epubcfi("@ + strip_bang(ctx.base_cfi@) + "!"@,
                PosState {
                    counter: *old(char_counter) as nat,
                    global: *old(global_pos) as nat,
                    made: pos_views(old(positions)@),
                },
                ctx.chars_per_position as nat,
            );
            &&& *final(char_counter) == r.counter
            &&& *final(global_pos) == r.global
            &&& pos_views(final(positions)@) == r.made
        }),
        !done ==> *final(char_counter) == *old(char_counter) && *final(global_pos) == *old(global_pos)
            && final(positions)@ == old(positions)@,
        made_for(final(positions)@, 0, ctx.spine_index, ctx.href@),
{
    let roots = parse_html_tree(html);
    let mut text: Vec<char> = Vec::new();
    match first_element_in(&roots, "html") {
        Some(h) => {
            proof {
                lemma_dom_view(*h);
            }
            match h {
                DomNode::Element { children, .. } => collect_text(children, &mut text),
                DomNode::Text(_) => {},
            }
        },
        None => {},
    }
    assert(text@.len() == html_text_len(dom_views(roots@)));
    if *global_pos > usize::MAX - 1 || text.len() > (usize::MAX - 1) - *global_pos {
        return false;
    }
    positions_in_tree(&roots, ctx, char_counter, positions, global_pos);
    true
}

// ── `data-cfi` attributes ────────────────────────────────────────────────────

#[verifier::external_type_specification]
#[verifier::external_body]
pub struct ExNodeRef(kuchikiki::NodeRef);

/// `kuchikiki::parse_html().one(html)`: the parsed document.
#[verifier::external_body]
fn parse_document(html: &str) -> kuchikiki::NodeRef {
    kuchikiki::parse_html().one(html)
}

/// `NodeRef::select_first("html")`: the first `html` element, if any.
#[verifier::external_body]
fn first_html(doc: &kuchikiki::NodeRef) -> Option<kuchikiki::NodeRef> {
    doc.select_first("html").ok().map(|n| n.as_node().clone())
}

/// `NodeRef::descendants().elements()`: the elements below `node`, in
/// document order.
#[verifier::external_body]
fn element_descendants(node: &kuchikiki::NodeRef) -> Vec<kuchikiki::NodeRef> {
    node.descendants().elements().map(|e| e.as_node().clone()).collect()
}

/// `Attributes::insert`: sets the attribute `name` (without namespace) of
/// an element to `value`; a node that is not an element is left as it is.
#[verifier::external_body]
fn set_attribute(node: &kuchikiki::NodeRef, name: &str, value: &str) {
    if let Some(e) = node.as_element() {
        e.attributes.borrow_mut().insert(name, value.to_string());
    }
}

/// `NodeRef::serialize` into bytes, read as UTF-8 (lossily); the writer's
/// error as its message.  The serializer fails only where its writer does
/// (it passes the writer's errors on with `?`), and writing into a `Vec<u8>`
/// does not fail, so the result is `Ok`; what the text holds is not stated.
#[verifier::external_body]
fn serialize_document(doc: &kuchikiki::NodeRef) -> (r: Result<String, String>)
    ensures
        r is Ok,
{
    let mut out: Vec<u8> = Vec::new();
    match doc.serialize(&mut out) {
        Ok(()) => Ok(String::from_utf8_lossy(&out).into_owned()),
        Err(e) => Err(e.to_string()),
    }
}

/// The message of a failed serialization.
pub open spec fn serialization_message(m: Seq<char>) -> Seq<char> {
    "DOM serialization failed: "@ + m
}

/// The chapter `html` with a `data-cfi` attribute on every element below
/// its first `<html>`: the element's CFI below `base_cfi`, as
/// [`cfi_labels_of`] computes them in document order, given to the
/// elements of the parsed document in that order; the document is then
/// serialized again.  What the serialized text holds is the HTML
/// serializer's, and is not stated.
pub fn inject_cfi_dom(html: &str, base_cfi: &str) -> (r: Result<String, EpubError>)
    ensures
        r is Ok,
{
    let labels = cfi_labels_of(html, base_cfi);
    let doc = parse_document(html);
    match first_html(&doc) {
        Some(h) => {
            let els = element_descendants(&h);
            let mut k: usize = 0;
            while k < els.len() && k < labels.len()
                decreases els@.len() - k,
            {
                set_attribute(&els[k], "data-cfi", labels[k].as_str());
                k = k + 1;
            }
        },
        None => {},
    }
    match serialize_document(&doc) {
        Ok(s) => Ok(s),
        Err(m) => {
            let mut msg = lit("DOM serialization failed: ");
            extend_chars(&mut msg, &chars_of(m.as_str()));
            let e = string_from_chars(&msg);
            assert(e@ == serialization_message(m@));
            Err(EpubError::InvalidFormat(e))
        },
    }
}

} // verus!
