//! Navigation lists: the table of contents, the page list and the landmarks.
//!
//! An EPUB 2 NCX file is read in one pass over its XML events: `navPoint`
//! elements nest into the table of contents, and the `pageTarget` elements
//! of a `pageList` become the page list.
use vstd::prelude::*;
use crate::error::EpubError;
use crate::model::{NavigationDocument, TocEntry, TocNode, toc_views, toc_node, lemma_toc_views_push};
use crate::path::{percent_decoded, percent_decode_lossy};
use crate::text::{
    chars_of, ends_with, has_suffix, has_prefix, slice_chars, string_from_chars, trim_spec, trim_chars,
    ws_tokens, split_whitespace_chars, eq_str,
};
use crate::xml::{XmlEvent, get_last_attr, is_document, last_attr_value, xml_events, xml_doc};
use crate::path::{resolve_href, resolve_href_spec};
use crate::model::{clone_toc, EpubBook, ManifestItem, manifest_index};
use crate::processor::prepare::{utf8_lossy, utf8_lossy_string};
use crate::path::{parent_dir, parent_dir_spec};
use crate::dom::{
    DomNode, DomV, dom_views, dom_view, lemma_dom_view, lemma_dom_views_index, forest_size,
    first_element, elements_named, text_content, dom_attr, attrs_view, lemma_first_element_smaller,
    first_element_in, collect_elements, collect_text, get_dom_attr, derefs, parse_html_tree, dom_tree,
    html_dom,
};

verus! {

// ── The NCX reading, stated ──────────────────────────────────────────────────

/// An entry being read: (title, href, children read so far).
pub type NcxFrameV = (Seq<char>, Seq<char>, Seq<TocNode>);

/// What the NCX reader holds between events.
pub struct NcxV {
    /// Open `navPoint`s, the outermost first.
    pub stack: Seq<NcxFrameV>,
    /// Closed top-level `navPoint`s.
    pub toc: Seq<TocNode>,
    /// Closed `pageTarget`s with a title and an href.
    pub page_list: Seq<TocNode>,
    /// Inside `pageList`.
    pub in_page_list: bool,
    /// Inside a `text` element.
    pub in_text: bool,
    /// The open `pageTarget`.
    pub page_target: Option<NcxFrameV>,
}

/// Before the first event.
pub open spec fn ncx_initial() -> NcxV {
    NcxV {
        stack: Seq::empty(),
        toc: Seq::empty(),
        page_list: Seq::empty(),
        in_page_list: false,
        in_text: false,
        page_target: None,
    }
}

/// A fresh entry.
pub open spec fn empty_frame() -> NcxFrameV {
    (Seq::empty(), Seq::empty(), Seq::empty())
}

/// A leaf entry with a title and an href.
pub open spec fn leaf_node(title: Seq<char>, href: Seq<char>) -> TocNode {
    TocNode { title, href, children: Seq::empty(), role: None }
}

/// A start tag.
pub open spec fn ncx_start(v: NcxV, name: Seq<char>) -> NcxV {
    if ends_with(name, "pageList"@) {
        NcxV { in_page_list: true, ..v }
    } else if v.in_page_list && ends_with(name, "pageTarget"@) {
        NcxV { page_target: Some(empty_frame()), ..v }
    } else if !v.in_page_list && ends_with(name, "navPoint"@) {
        NcxV { stack: v.stack.push(empty_frame()), ..v }
    } else if ends_with(name, "text"@) {
        NcxV { in_text: true, ..v }
    } else {
        v
    }
}

/// A `content` element's `src` (percent-decoded) becomes the href of the
/// open page target, or else of the innermost open `navPoint`.
pub open spec fn ncx_content(v: NcxV, attrs: Seq<(String, String)>) -> NcxV {
    match last_attr_value(attrs, "src"@, attrs.len() as int) {
        None => v,
        Some(src) => {
            let href = percent_decoded(src);
            if v.in_page_list {
                match v.page_target {
                    Some(f) => NcxV { page_target: Some((f.0, href, f.2)), ..v },
                    None => v,
                }
            } else if v.stack.len() > 0 {
                let f = v.stack.last();
                NcxV { stack: v.stack.update(v.stack.len() - 1, (f.0, href, f.2)), ..v }
            } else {
                v
            }
        },
    }
}

/// Text inside a `text` element titles the open page target, or else the
/// innermost open `navPoint`.
pub open spec fn ncx_text(v: NcxV, text: Seq<char>) -> NcxV {
    if v.in_page_list {
        match v.page_target {
            Some(f) => NcxV { page_target: Some((text, f.1, f.2)), ..v },
            None => v,
        }
    } else if v.stack.len() > 0 {
        let f = v.stack.last();
        NcxV { stack: v.stack.update(v.stack.len() - 1, (text, f.1, f.2)), ..v }
    } else {
        v
    }
}

/// An end tag.
pub open spec fn ncx_end(v: NcxV, name: Seq<char>) -> NcxV {
    if ends_with(name, "text"@) {
        NcxV { in_text: false, ..v }
    } else if ends_with(name, "pageList"@) {
        NcxV { in_page_list: false, ..v }
    } else if v.in_page_list && ends_with(name, "pageTarget"@) {
        match v.page_target {
            Some(f) => if f.0.len() > 0 && f.1.len() > 0 {
                NcxV { page_target: None, page_list: v.page_list.push(leaf_node(f.0, f.1)), ..v }
            } else {
                NcxV { page_target: None, ..v }
            },
            None => v,
        }
    } else if !v.in_page_list && ends_with(name, "navPoint"@) && v.stack.len() > 0 {
        let f = v.stack.last();
        let node = TocNode { title: f.0, href: f.1, children: f.2, role: None };
        let rest = v.stack.drop_last();
        if rest.len() > 0 {
            let p = rest.last();
            NcxV { stack: rest.update(rest.len() - 1, (p.0, p.1, p.2.push(node))), ..v }
        } else {
            NcxV { stack: rest, toc: v.toc.push(node), ..v }
        }
    } else {
        v
    }
}

/// One event.
pub open spec fn ncx_step(v: NcxV, e: XmlEvent) -> NcxV {
    match e {
        XmlEvent::Start(t) => ncx_start(v, t.name@),
        XmlEvent::Empty(t) => if ends_with(t.name@, "content"@) {
            ncx_content(v, t.attrs@)
        } else {
            v
        },
        XmlEvent::Text(text) => if v.in_text {
            ncx_text(v, text@)
        } else {
            v
        },
        XmlEvent::End(name) => ncx_end(v, name@),
        _ => v,
    }
}

/// The reader's state after the events.
pub open spec fn ncx_read(events: Seq<XmlEvent>) -> NcxV
    decreases events.len(),
{
    if events.len() == 0 {
        ncx_initial()
    } else {
        ncx_step(ncx_read(events.drop_last()), events.last())
    }
}

// ── The NCX reader ───────────────────────────────────────────────────────────

/// An entry being read.
pub struct NcxFrame {
    pub title: String,
    pub href: String,
    pub children: Vec<TocEntry>,
}

pub open spec fn frame_view(f: NcxFrame) -> NcxFrameV {
    (f.title@, f.href@, toc_views(f.children@))
}

pub open spec fn frames_view(s: Seq<NcxFrame>) -> Seq<NcxFrameV> {
    s.map_values(|f: NcxFrame| frame_view(f))
}

/// The NCX reader.
pub struct NcxReader {
    stack: Vec<NcxFrame>,
    toc: Vec<TocEntry>,
    page_list: Vec<TocEntry>,
    in_page_list: bool,
    in_text: bool,
    page_target: Option<NcxFrame>,
}

fn fresh_frame() -> (f: NcxFrame)
    ensures
        frame_view(f) == empty_frame(),
{
    let f = NcxFrame { title: String::new(), href: String::new(), children: Vec::new() };
    assert(f.children@ =~= Seq::<TocEntry>::empty());
    assert(toc_views(f.children@) =~= Seq::<TocNode>::empty());
    assert(f.title@ =~= Seq::<char>::empty());
    assert(f.href@ =~= Seq::<char>::empty());
    f
}

impl NcxReader {
    /// What the reader holds.
    pub closed spec fn view(&self) -> NcxV {
        NcxV {
            stack: frames_view(self.stack@),
            toc: toc_views(self.toc@),
            page_list: toc_views(self.page_list@),
            in_page_list: self.in_page_list,
            in_text: self.in_text,
            page_target: match self.page_target {
                Some(f) => Some(frame_view(f)),
                None => None,
            },
        }
    }

    /// A reader before the first event.
    pub fn new() -> (r: NcxReader)
        ensures
            r.view() == ncx_initial(),
    {
        let r = NcxReader {
            stack: Vec::new(),
            toc: Vec::new(),
            page_list: Vec::new(),
            in_page_list: false,
            in_text: false,
            page_target: None,
        };
        assert(r.view().stack =~= Seq::<NcxFrameV>::empty());
        assert(toc_views(Seq::<TocEntry>::empty()) =~= Seq::<TocNode>::empty());
        assert(r.toc@ =~= Seq::<TocEntry>::empty());
        assert(r.page_list@ =~= Seq::<TocEntry>::empty());
        r
    }

    fn on_start(&mut self, name: &str)
        ensures
            final(self).view() == ncx_start(old(self).view(), name@),
    {
        let n = chars_of(name);
        if has_suffix(&n, "pageList") {
            self.in_page_list = true;
        } else if self.in_page_list && has_suffix(&n, "pageTarget") {
            self.page_target = Some(fresh_frame());
        } else if !self.in_page_list && has_suffix(&n, "navPoint") {
            let f = fresh_frame();
            let ghost before = self.stack@;
            self.stack.push(f);
            assert(frames_view(self.stack@) =~= frames_view(before).push(empty_frame()));
        } else if has_suffix(&n, "text") {
            self.in_text = true;
        }
    }

    fn on_content(&mut self, attrs: &Vec<(String, String)>)
        ensures
            final(self).view() == ncx_content(old(self).view(), attrs@),
    {
        let src = match get_last_attr(attrs, "src") {
            Some(s) => s,
            None => return,
        };
        let href = percent_decode_lossy(src.as_str());
        if self.in_page_list {
            match self.page_target.take() {
                Some(f) => {
                    self.page_target = Some(NcxFrame { title: f.title, href, children: f.children });
                },
                None => {},
            }
        } else if self.stack.len() > 0 {
            let ghost before = self.stack@;
            let f = self.stack.pop().unwrap();
            self.stack.push(NcxFrame { title: f.title, href, children: f.children });
            proof {
                let fv = frame_view(before.last());
                assert(frames_view(self.stack@) =~= frames_view(before).update(
                    before.len() - 1,
                    (fv.0, percent_decoded(src@), fv.2),
                ));
            }
        }
    }

    fn on_text(&mut self, text: &str)
        ensures
            final(self).view() == ncx_text(old(self).view(), text@),
    {
        if self.in_page_list {
            match self.page_target.take() {
                Some(f) => {
                    self.page_target = Some(
                        NcxFrame { title: text.to_string(), href: f.href, children: f.children },
                    );
                },
                None => {},
            }
        } else if self.stack.len() > 0 {
            let ghost before = self.stack@;
            let f = self.stack.pop().unwrap();
            self.stack.push(NcxFrame { title: text.to_string(), href: f.href, children: f.children });
            proof {
                let fv = frame_view(before.last());
                assert(frames_view(self.stack@) =~= frames_view(before).update(
                    before.len() - 1,
                    (text@, fv.1, fv.2),
                ));
            }
        }
    }

    fn on_end(&mut self, name: &str)
        ensures
            final(self).view() == ncx_end(old(self).view(), name@),
    {
        let n = chars_of(name);
        if has_suffix(&n, "text") {
            self.in_text = false;
        } else if has_suffix(&n, "pageList") {
            self.in_page_list = false;
        } else if self.in_page_list && has_suffix(&n, "pageTarget") {
            match self.page_target.take() {
                Some(f) => {
                    if !f.title.as_str().is_empty() && !f.href.as_str().is_empty() {
                        proof {
                            assert(f.title@.len() > 0);
                        }
                        let e = TocEntry { title: f.title, href: f.href, children: Vec::new(), role: None };
                        proof {
                            lemma_toc_views_push(self.page_list@, e);
                            assert(e.children@ =~= Seq::<TocEntry>::empty());
                            assert(toc_views(Seq::<TocEntry>::empty()) =~= Seq::<TocNode>::empty());
                            assert(toc_node(e) == toc_views(seq![e])[0]);
                            assert(seq![e][0] == e);
                            assert(toc_node(e) == leaf_node(e.title@, e.href@));
                        }
                        self.page_list.push(e);
                    } else {
                        proof {
                            assert(f.title@.len() == 0 || f.href@.len() == 0);
                        }
                    }
                },
                None => {},
            }
        } else if !self.in_page_list && has_suffix(&n, "navPoint") && self.stack.len() > 0 {
            let ghost before = self.stack@;
            let f = self.stack.pop().unwrap();
            let e = TocEntry { title: f.title, href: f.href, children: f.children, role: None };
            proof {
                assert(self.stack@ =~= before.drop_last());
                assert(frames_view(self.stack@) =~= frames_view(before).drop_last());
                assert(seq![e][0] == e);
                assert(seq![e].drop_first() =~= Seq::<TocEntry>::empty());
                assert(toc_views(Seq::<TocEntry>::empty()) =~= Seq::<TocNode>::empty());
                assert(toc_node(e) == TocNode {
                    title: f.title@,
                    href: f.href@,
                    children: toc_views(f.children@),
                    role: None,
                });
            }
            if self.stack.len() > 0 {
                let ghost mid = self.stack@;
                let p = self.stack.pop().unwrap();
                let mut children = p.children;
                proof {
                    lemma_toc_views_push(children@, e);
                }
                children.push(e);
                self.stack.push(NcxFrame { title: p.title, href: p.href, children });
                proof {
                    let pv = frame_view(mid.last());
                    assert(frames_view(self.stack@) =~= frames_view(mid).update(
                        mid.len() - 1,
                        (pv.0, pv.1, pv.2.push(toc_node(e))),
                    ));
                }
            } else {
                proof {
                    lemma_toc_views_push(self.toc@, e);
                }
                self.toc.push(e);
            }
        }
    }

    /// Takes in one event (see [`ncx_step`]).
    pub fn step(&mut self, e: &XmlEvent)
        ensures
            final(self).view() == ncx_step(old(self).view(), *e),
    {
        match e {
            XmlEvent::Start(t) => self.on_start(t.name.as_str()),
            XmlEvent::Empty(t) => {
                if has_suffix(&chars_of(t.name.as_str()), "content") {
                    self.on_content(&t.attrs);
                }
            },
            XmlEvent::Text(text) => {
                if self.in_text {
                    self.on_text(text.as_str());
                }
            },
            XmlEvent::End(name) => self.on_end(name.as_str()),
            _ => {},
        }
    }

    /// The lists read: the closed top-level `navPoint`s and the page list;
    /// an NCX file has no landmarks.
    pub fn finish(self) -> (r: NavigationDocument)
        ensures
            toc_views(r.toc@) == self.view().toc,
            toc_views(r.page_list@) == self.view().page_list,
            r.landmarks@.len() == 0,
    {
        NavigationDocument { toc: self.toc, page_list: self.page_list, landmarks: Vec::new() }
    }
}

/// The navigation lists that the events of an NCX file give (see
/// [`ncx_read`]).
pub fn ncx_from_events(events: &[XmlEvent]) -> (r: NavigationDocument)
    ensures
        toc_views(r.toc@) == ncx_read(events@).toc,
        toc_views(r.page_list@) == ncx_read(events@).page_list,
        r.landmarks@.len() == 0,
{
    let mut reader = NcxReader::new();
    let mut i: usize = 0;
    while i < events.len()
        invariant
            i <= events@.len(),
            reader.view() == ncx_read(events@.take(i as int)),
        decreases events@.len() - i,
    {
        proof {
            assert(events@.take(i + 1).drop_last() =~= events@.take(i as int));
            assert(events@.take(i + 1).last() == events@[i as int]);
        }
        reader.step(&events[i]);
        i = i + 1;
    }
    assert(events@.take(i as int) =~= events@);
    reader.finish()
}

/// What reading the NCX text `xml` gives: the lists that the reader's
/// events hold, or the reader's fault as an [`EpubError::Xml`] error.
pub open spec fn ncx_result(xml: Seq<char>, r: Result<NavigationDocument, EpubError>) -> bool {
    match xml_doc(xml, false) {
        (events, None) => r matches Ok(nav) && nav.landmarks@.len() == 0 && ncx_read(events).toc == toc_views(
            nav.toc@,
        ) && ncx_read(events).page_list == toc_views(nav.page_list@),
        (_, Some(m)) => r matches Err(EpubError::Xml(x)) && x@ == m,
    }
}

/// Reads an NCX document: its `navMap` as the table of contents and its
/// `pageList` as the page list, in one pass.  Malformed XML is an
/// [`EpubError::Xml`] error.
pub fn parse_ncx_all(xml: &str) -> (r: Result<NavigationDocument, EpubError>)
    ensures
        ncx_result(xml@, r),
        r matches Ok(nav) ==> nav.landmarks@.len() == 0 && exists|events: Seq<XmlEvent>|
            is_document(events) && #[trigger] ncx_read(events).toc == toc_views(nav.toc@)
                && ncx_read(events).page_list == toc_views(nav.page_list@),
        r matches Err(e) ==> e is Xml,
{
    match xml_events(xml) {
        Ok(events) => {
            let nav = ncx_from_events(events.as_slice());
            Ok(nav)
        },
        Err(m) => Err(EpubError::Xml(m)),
    }
}

// ── The EPUB 3 navigation document, stated ──────────────────────────────────

/// The prefix that `epub:type` tokens may carry.
pub open spec fn epub_prefix() -> Seq<char> {
    seq!['e', 'p', 'u', 'b', ':']
}

/// A token without its `epub:` prefixes, as many as it starts with.
pub open spec fn strip_epub(t: Seq<char>) -> Seq<char>
    decreases t.len(),
{
    if t.len() >= 5 && t.subrange(0, 5) == epub_prefix() {
        strip_epub(t.skip(5))
    } else {
        t
    }
}

/// Some token of `ty` names the list `key`.
pub open spec fn names_list(ty: Seq<char>, key: Seq<char>) -> bool {
    exists|k: int| 0 <= k < ws_tokens(ty).len() && strip_epub(#[trigger] ws_tokens(ty)[k]) == key
}

/// The entry that a list item with anchor attributes `attrs`, anchor
/// content `content` and nested entries `children` gives: the href
/// percent-decoded and resolved against the navigation document's
/// directory, the title the anchor's trimmed text, the role its trimmed
/// `epub:type` when not empty.
pub open spec fn anchor_entry(
    attrs: Seq<(Seq<char>, Seq<char>, Seq<char>)>,
    content: Seq<DomV>,
    children: Seq<TocNode>,
    nav_dir: Seq<char>,
) -> TocNode {
    let raw = match dom_attr(attrs, "href"@) {
        Some(h) => h,
        None => Seq::empty(),
    };
    TocNode {
        title: trim_spec(text_content(content)),
        href: resolve_href_spec(nav_dir, percent_decoded(raw)),
        children,
        role: match dom_attr(attrs, "epub:type"@) {
            Some(r) => if trim_spec(r).len() > 0 {
                Some(trim_spec(r))
            } else {
                None
            },
            None => None,
        },
    }
}

/// The entries of an `<ol>` whose children are `items`: one per `<li>`
/// child with an `<a>` inside, in order; the first `<ol>` inside the item
/// gives the entry's children.
pub open spec fn ol_entries(items: Seq<DomV>, nav_dir: Seq<char>) -> Seq<TocNode>
    decreases forest_size(items),
{
    if items.len() == 0 {
        Seq::empty()
    } else {
        let rest = ol_entries(items.drop_first(), nav_dir);
        match items[0] {
            DomV::Element { name, children, .. } => {
                if name == "li"@ {
                    match first_element(children, "a"@) {
                        Some(DomV::Element { attrs: aa, children: ac, .. }) => {
                            let nested = match first_element(children, "ol"@) {
                                Some(DomV::Element { children: oc, .. }) => {
                                    proof {
                                        lemma_first_element_smaller(children, "ol"@);
                                    }
                                    ol_entries(oc, nav_dir)
                                },
                                _ => Seq::empty(),
                            };
                            seq![anchor_entry(aa, ac, nested, nav_dir)] + rest
                        },
                        _ => rest,
                    }
                } else {
                    rest
                }
            },
            DomV::Text(_) => rest,
        }
    }
}

/// The three lists of a navigation document.
pub struct NavV {
    pub toc: Seq<TocNode>,
    pub page_list: Seq<TocNode>,
    pub landmarks: Seq<TocNode>,
}

/// The entries of the first `<ol>` inside a node, if it has one.
pub open spec fn nav_list(nav: DomV, nav_dir: Seq<char>) -> Option<Seq<TocNode>> {
    match nav {
        DomV::Element { children, .. } => match first_element(children, "ol"@) {
            Some(DomV::Element { children: oc, .. }) => Some(ol_entries(oc, nav_dir)),
            _ => None,
        },
        DomV::Text(_) => None,
    }
}

/// A `<nav>` with a non-empty `epub:type` and a non-empty first list sets
/// each list that one of its tokens names.
pub open spec fn nav_apply(v: NavV, nav: DomV, nav_dir: Seq<char>) -> NavV {
    match nav {
        DomV::Element { attrs, .. } => {
            let ty = match dom_attr(attrs, "epub:type"@) {
                Some(t) => t,
                None => Seq::empty(),
            };
            match nav_list(nav, nav_dir) {
                Some(entries) => if ty.len() > 0 && entries.len() > 0 {
                    NavV {
                        toc: if names_list(ty, "toc"@) {
                            entries
                        } else {
                            v.toc
                        },
                        page_list: if names_list(ty, "page-list"@) {
                            entries
                        } else {
                            v.page_list
                        },
                        landmarks: if names_list(ty, "landmarks"@) {
                            entries
                        } else {
                            v.landmarks
                        },
                    }
                } else {
                    v
                },
                None => v,
            }
        },
        DomV::Text(_) => v,
    }
}

/// The lists after the `<nav>` elements `navs`, in order.
pub open spec fn nav_fold(navs: Seq<DomV>, nav_dir: Seq<char>) -> NavV
    decreases navs.len(),
{
    if navs.len() == 0 {
        NavV { toc: Seq::empty(), page_list: Seq::empty(), landmarks: Seq::empty() }
    } else {
        nav_apply(nav_fold(navs.drop_last(), nav_dir), navs.last(), nav_dir)
    }
}

/// The first of `navs` whose `id` is `toc`.
pub open spec fn nav_with_toc_id(navs: Seq<DomV>) -> Option<DomV>
    decreases navs.len(),
{
    if navs.len() == 0 {
        None
    } else {
        match navs[0] {
            DomV::Element { attrs, .. } => if dom_attr(attrs, "id"@) == Some("toc"@) {
                Some(navs[0])
            } else {
                nav_with_toc_id(navs.drop_first())
            },
            DomV::Text(_) => nav_with_toc_id(navs.drop_first()),
        }
    }
}

/// The lists of a navigation document whose tree has top-level nodes
/// `roots` and which lies in directory `nav_dir`.  When no `<nav>` gives a
/// table of contents, the first list of `<nav id="toc">`, or else of the
/// first `<nav>`, is taken for it.
pub open spec fn nav_document(roots: Seq<DomV>, nav_dir: Seq<char>) -> NavV {
    let navs = elements_named(roots, "nav"@);
    let v = nav_fold(navs, nav_dir);
    if v.toc.len() == 0 {
        let fallback = match nav_with_toc_id(navs) {
            Some(n) => Some(n),
            None => if navs.len() > 0 {
                Some(navs[0])
            } else {
                None
            },
        };
        match fallback {
            Some(n) => match nav_list(n, nav_dir) {
                Some(entries) => NavV { toc: entries, ..v },
                None => v,
            },
            None => v,
        }
    } else {
        v
    }
}

// ── The EPUB 3 navigation document, read ────────────────────────────────────

proof fn lemma_forest_size_skip(s: Seq<DomV>, i: int)
    requires
        0 <= i <= s.len(),
    ensures
        forest_size(s.skip(i)) <= forest_size(s),
    decreases i,
{
    if i > 0 {
        lemma_forest_size_skip(s, i - 1);
        let t = s.skip(i - 1);
        assert(t.drop_first() =~= s.skip(i));
        assert(t.len() > 0);
        assert(forest_size(t) >= 1 + forest_size(t.drop_first()));
    } else {
        assert(s.skip(0) =~= s);
    }
}

/// `epub:` prefixes taken off a token.
fn strip_epub_exec(t: &Vec<char>) -> (r: Vec<char>)
    ensures
        r@ == strip_epub(t@),
{
    let mut cur = slice_chars(t, 0, t.len());
    assert(t@.subrange(0, t@.len() as int) =~= t@);
    while cur.len() >= 5 && has_prefix(&cur, "epub:")
        invariant
            strip_epub(cur@) == strip_epub(t@),
        decreases cur@.len(),
    {
        proof {
            reveal_strlit("epub:");
            assert("epub:"@ =~= epub_prefix());
        }
        cur = slice_chars(&cur, 5, cur.len());
        proof {
            assert(cur@ =~= cur@);
        }
    }
    proof {
        reveal_strlit("epub:");
        assert("epub:"@ =~= epub_prefix());
    }
    cur
}

/// Whether some token of `ty` names the list `key`.
fn names_list_exec(tokens: &Vec<Vec<char>>, key: &str) -> (b: bool)
    requires
        exists|ty: Seq<char>| tokens@.map_values(|t: Vec<char>| t@) == ws_tokens(ty),
    ensures
        forall|ty: Seq<char>| tokens@.map_values(|t: Vec<char>| t@) == ws_tokens(ty) ==> b == names_list(
            ty,
            key@,
        ),
{
    let mut i: usize = 0;
    while i < tokens.len()
        invariant
            i <= tokens@.len(),
            forall|k: int| 0 <= k < i ==> strip_epub(#[trigger] tokens@[k]@) != key@,
        decreases tokens@.len() - i,
    {
        let s = strip_epub_exec(&tokens[i]);
        if eq_str(&s, key) {
            proof {
                assert forall|ty: Seq<char>| tokens@.map_values(|t: Vec<char>| t@) == ws_tokens(ty) implies names_list(
                    ty,
                    key@,
                ) by {
                    assert(ws_tokens(ty)[i as int] == tokens@[i as int]@);
                }
            }
            return true;
        }
        i = i + 1;
    }
    proof {
        assert forall|ty: Seq<char>| tokens@.map_values(|t: Vec<char>| t@) == ws_tokens(ty) implies !names_list(
            ty,
            key@,
        ) by {
            assert forall|k: int| 0 <= k < ws_tokens(ty).len() implies strip_epub(
                #[trigger] ws_tokens(ty)[k],
            ) != key@ by {
                assert(ws_tokens(ty)[k] == tokens@[k]@);
            }
        }
    }
    false
}

/// The trimmed value of an optional role attribute, when not empty.
fn role_of(r: Option<String>) -> (o: Option<String>)
    ensures
        o matches Some(s) ==> r matches Some(v) && trim_spec(v@).len() > 0 && s@ == trim_spec(v@),
        o is None ==> (r is None || trim_spec(r->0@).len() == 0),
{
    match r {
        Some(v) => {
            let t = trim_chars(&chars_of(v.as_str()));
            if t.len() > 0 {
                Some(string_from_chars(&t))
            } else {
                None
            }
        },
        None => None,
    }
}

/// The entries of an `<ol>` whose children are `items` (see [`ol_entries`]).
pub fn parse_ol_node(items: &Vec<DomNode>, nav_dir: &str) -> (r: Vec<TocEntry>)
    ensures
        toc_views(r@) == ol_entries(dom_views(items@), nav_dir@),
    decreases forest_size(dom_views(items@)),
{
    let ghost v = dom_views(items@);
    proof {
        lemma_dom_views_index(items@);
        assert(v.skip(0) =~= v);
        assert(toc_views(Seq::<TocEntry>::empty()) =~= Seq::<TocNode>::empty());
    }
    let mut out: Vec<TocEntry> = Vec::new();
    assert(toc_views(out@) + ol_entries(v, nav_dir@) =~= ol_entries(v, nav_dir@));
    let mut i: usize = 0;
    while i < items.len()
        invariant
            i <= items@.len(),
            v == dom_views(items@),
            v.len() == items@.len(),
            forall|k: int| 0 <= k < items@.len() ==> #[trigger] v[k] == dom_view(items@[k]),
            toc_views(out@) + ol_entries(v.skip(i as int), nav_dir@) == ol_entries(v, nav_dir@),
        decreases items@.len() - i,
    {
        proof {
            assert(v.skip(i as int)[0] == v[i as int]);
            assert(v.skip(i as int).drop_first() =~= v.skip(i + 1));
            lemma_dom_view(items@[i as int]);
            lemma_forest_size_skip(v, i as int);
        }
        let ghost rest = ol_entries(v.skip(i + 1), nav_dir@);
        match &items[i] {
            DomNode::Element { name, children, .. } => {
                if eq_str(&chars_of(name.as_str()), "li") {
                    match first_element_in(children, "a") {
                        Some(a) => {
                            proof {
                                lemma_dom_view(*a);
                                lemma_first_element_smaller(dom_views(children@), "a"@);
                            }
                            match a {
                                DomNode::Element { attrs: aa, children: ac, .. } => {
                                    let nested = match first_element_in(children, "ol") {
                                        Some(ol) => {
                                            proof {
                                                lemma_dom_view(*ol);
                                                lemma_first_element_smaller(dom_views(children@), "ol"@);
                                            }
                                            match ol {
                                                DomNode::Element { children: oc, .. } => parse_ol_node(oc, nav_dir),
                                                DomNode::Text(_) => Vec::new(),
                                            }
                                        },
                                        None => Vec::new(),
                                    };
                                    let raw = match get_dom_attr(aa, "href") {
                                        Some(h) => h,
                                        None => String::new(),
                                    };
                                    let decoded = percent_decode_lossy(raw.as_str());
                                    let href = resolve_href(nav_dir, decoded.as_str());
                                    let mut text: Vec<char> = Vec::new();
                                    collect_text(ac, &mut text);
                                    proof {
                                        assert(text@ =~= text_content(dom_views(ac@)));
                                    }
                                    let title = string_from_chars(&trim_chars(&text));
                                    let role = role_of(get_dom_attr(aa, "epub:type"));
                                    let e = TocEntry { title, href, children: nested, role };
                                    proof {
                                        lemma_toc_views_push(out@, e);
                                        assert(toc_node(e) == toc_views(seq![e])[0]);
                                        assert(seq![e][0] == e);
                                        assert(seq![e].drop_first() =~= Seq::<TocEntry>::empty());
                                        assert(toc_views(Seq::<TocEntry>::empty()) =~= Seq::<TocNode>::empty());
                                        if nested@.len() == 0 {
                                            assert(toc_views(nested@) =~= Seq::<TocNode>::empty());
                                        }
                                        assert(toc_node(e) == anchor_entry(
                                            attrs_view(aa@),
                                            dom_views(ac@),
                                            toc_views(nested@),
                                            nav_dir@,
                                        ));
                                        assert(ol_entries(v.skip(i as int), nav_dir@) == seq![toc_node(e)] + rest);
                                    }
                                    out.push(e);
                                    proof {
                                        assert(toc_views(out@) + rest =~= toc_views(out@).drop_last() + (seq![toc_node(e)] + rest));
                                    }
                                },
                                DomNode::Text(_) => {},
                            }
                        },
                        None => {},
                    }
                }
            },
            DomNode::Text(_) => {},
        }
        i = i + 1;
    }
    assert(v.skip(i as int) =~= Seq::<DomV>::empty());
    assert(toc_views(out@) =~= toc_views(out@) + ol_entries(v.skip(i as int), nav_dir@));
    out
}

/// The entries of the first `<ol>` inside a node (see [`nav_list`]).
fn nav_list_exec(nav: &DomNode, nav_dir: &str) -> (r: Option<Vec<TocEntry>>)
    ensures
        match nav_list(dom_view(*nav), nav_dir@) {
            Some(entries) => r matches Some(v) && toc_views(v@) == entries,
            None => r is None,
        },
{
    proof {
        lemma_dom_view(*nav);
    }
    match nav {
        DomNode::Element { children, .. } => match first_element_in(children, "ol") {
            Some(ol) => {
                proof {
                    lemma_dom_view(*ol);
                }
                match ol {
                    DomNode::Element { children: oc, .. } => Some(parse_ol_node(oc, nav_dir)),
                    DomNode::Text(_) => None,
                }
            },
            None => None,
        },
        DomNode::Text(_) => None,
    }
}

/// The index of the first of `navs` whose `id` is `toc`.
fn find_toc_nav(navs: &Vec<&DomNode>) -> (r: Option<usize>)
    ensures
        match nav_with_toc_id(dom_views(derefs(navs@))) {
            Some(n) => r matches Some(k) && k < navs@.len() && n == dom_view(*navs@[k as int]),
            None => r is None,
        },
{
    let ghost nv = dom_views(derefs(navs@));
    proof {
        lemma_dom_views_index(derefs(navs@));
        assert(nv.skip(0) =~= nv);
    }
    let mut i: usize = 0;
    while i < navs.len()
        invariant
            i <= navs@.len(),
            nv == dom_views(derefs(navs@)),
            nv.len() == navs@.len(),
            forall|k: int| 0 <= k < navs@.len() ==> #[trigger] nv[k] == dom_view(*navs@[k]),
            nav_with_toc_id(nv) == nav_with_toc_id(nv.skip(i as int)),
        decreases navs@.len() - i,
    {
        proof {
            assert(nv.skip(i as int)[0] == nv[i as int]);
            assert(nv.skip(i as int).drop_first() =~= nv.skip(i + 1));
            lemma_dom_view(*navs@[i as int]);
            reveal_strlit("toc");
        }
        match navs[i] {
            DomNode::Element { attrs, .. } => {
                match get_dom_attr(attrs, "id") {
                    Some(id) => {
                        if eq_str(&chars_of(id.as_str()), "toc") {
                            return Some(i);
                        }
                    },
                    None => {},
                }
            },
            DomNode::Text(_) => {},
        }
        i = i + 1;
    }
    assert(nv.skip(i as int) =~= Seq::<DomV>::empty());
    None
}

/// The lists of a navigation document whose tree has top-level nodes
/// `roots` and which lies in directory `nav_dir` (see [`nav_document`]).
pub fn nav_from_tree(roots: &Vec<DomNode>, nav_dir: &str) -> (r: NavigationDocument)
    ensures
        toc_views(r.toc@) == nav_document(dom_views(roots@), nav_dir@).toc,
        toc_views(r.page_list@) == nav_document(dom_views(roots@), nav_dir@).page_list,
        toc_views(r.landmarks@) == nav_document(dom_views(roots@), nav_dir@).landmarks,
{
    let mut navs: Vec<&DomNode> = Vec::new();
    proof {
        assert(derefs(navs@) =~= Seq::<DomNode>::empty());
        assert(dom_views(Seq::<DomNode>::empty()) =~= Seq::<DomV>::empty());
    }
    collect_elements(roots, "nav", &mut navs);
    let ghost nv = dom_views(derefs(navs@));
    proof {
        assert(nv =~= elements_named(dom_views(roots@), "nav"@));
        lemma_dom_views_index(derefs(navs@));
        assert(nv.take(0) =~= Seq::<DomV>::empty());
        assert(toc_views(Seq::<TocEntry>::empty()) =~= Seq::<TocNode>::empty());
    }
    let mut toc: Vec<TocEntry> = Vec::new();
    let mut page_list: Vec<TocEntry> = Vec::new();
    let mut landmarks: Vec<TocEntry> = Vec::new();
    let mut i: usize = 0;
    while i < navs.len()
        invariant
            i <= navs@.len(),
            nv == dom_views(derefs(navs@)),
            nv.len() == navs@.len(),
            forall|k: int| 0 <= k < navs@.len() ==> #[trigger] nv[k] == dom_view(*navs@[k]),
            nav_fold(nv.take(i as int), nav_dir@) == (NavV {
                toc: toc_views(toc@),
                page_list: toc_views(page_list@),
                landmarks: toc_views(landmarks@),
            }),
        decreases navs@.len() - i,
    {
        let nav = navs[i];
        proof {
            assert(nv.take(i + 1).drop_last() =~= nv.take(i as int));
            assert(nv.take(i + 1).last() == nv[i as int]);
            lemma_dom_view(*nav);
        }
        match nav {
            DomNode::Element { attrs, .. } => {
                let ty = match get_dom_attr(attrs, "epub:type") {
                    Some(t) => t,
                    None => String::new(),
                };
                if !ty.as_str().is_empty() {
                    match nav_list_exec(nav, nav_dir) {
                        Some(entries) => {
                            if entries.len() > 0 {
                                proof {
                                    assert(toc_views(entries@).len() > 0) by {
                                        assert(entries@ =~= seq![entries@[0]] + entries@.drop_first());
                                        crate::model::lemma_toc_views_append(seq![entries@[0]], entries@.drop_first());
                                        crate::model::lemma_toc_views_push(Seq::<TocEntry>::empty(), entries@[0]);
                                        assert(Seq::<TocEntry>::empty().push(entries@[0]) =~= seq![entries@[0]]);
                                    }
                                }
                                let tokens = split_whitespace_chars(&chars_of(ty.as_str()));
                                if names_list_exec(&tokens, "toc") {
                                    toc = clone_toc(entries.as_slice());
                                }
                                if names_list_exec(&tokens, "page-list") {
                                    page_list = clone_toc(entries.as_slice());
                                }
                                if names_list_exec(&tokens, "landmarks") {
                                    landmarks = clone_toc(entries.as_slice());
                                }
                            } else {
                                proof {
                                    assert(entries@ =~= Seq::<TocEntry>::empty());
                                }
                            }
                        },
                        None => {},
                    }
                }
            },
            DomNode::Text(_) => {},
        }
        i = i + 1;
    }
    assert(nv.take(i as int) =~= nv);
    if toc.len() == 0 {
        proof {
            assert(toc@ =~= Seq::<TocEntry>::empty());
        }
        let pick = match find_toc_nav(&navs) {
            Some(k) => Some(k),
            None => if navs.len() > 0 {
                Some(0)
            } else {
                None
            },
        };
        match pick {
            Some(k) => {
                match nav_list_exec(navs[k], nav_dir) {
                    Some(entries) => {
                        toc = entries;
                    },
                    None => {},
                }
            },
            None => {},
        }
    } else {
        proof {
            assert(toc_views(toc@).len() > 0) by {
                assert(toc@ =~= seq![toc@[0]] + toc@.drop_first());
                crate::model::lemma_toc_views_append(seq![toc@[0]], toc@.drop_first());
                crate::model::lemma_toc_views_push(Seq::<TocEntry>::empty(), toc@[0]);
                assert(Seq::<TocEntry>::empty().push(toc@[0]) =~= seq![toc@[0]]);
            }
        }
    }
    NavigationDocument { toc, page_list, landmarks }
}

/// Reads an EPUB 3 navigation document (`nav.xhtml`) lying in directory
/// `nav_dir` (package-root-relative): its table of contents, page list and
/// landmarks, with every href resolved against `nav_dir`.
pub fn parse_nav_xhtml_all(html: &str, nav_dir: &str) -> (r: Result<NavigationDocument, EpubError>)
    ensures
        r matches Ok(nav) && toc_views(nav.toc@) == nav_document(dom_tree(html_dom(html@)), nav_dir@).toc
            && toc_views(nav.page_list@) == nav_document(dom_tree(html_dom(html@)), nav_dir@).page_list
            && toc_views(nav.landmarks@) == nav_document(dom_tree(html_dom(html@)), nav_dir@).landmarks,
{
    let roots = parse_html_tree(html);
    Ok(nav_from_tree(&roots, nav_dir))
}

// ── Which file holds the navigation ─────────────────────────────────────────

/// The manifest item has the `nav` property.
pub open spec fn has_nav_property(item: ManifestItem) -> bool {
    exists|j: int| 0 <= j < item.properties@.len() && (#[trigger] item.properties@[j])@ == "nav"@
}

/// The first manifest item, from `from` on, with the `nav` property.
pub open spec fn nav_item_index(m: Seq<ManifestItem>, from: int) -> Option<int>
    decreases m.len() - from,
{
    if from < 0 || from >= m.len() {
        None
    } else if has_nav_property(m[from]) {
        Some(from)
    } else {
        nav_item_index(m, from + 1)
    }
}

/// The package-root-relative directory of the navigation document that
/// manifest item `k` names.
pub open spec fn nav_dir_of(book: EpubBook, k: int) -> Seq<char> {
    let h = book.manifest@[k].href@;
    parent_dir_spec(
        if book.opf_dir@.len() == 0 {
            h
        } else {
            book.opf_dir@ + "/"@ + h
        },
    )
}

/// The manifest index of the NCX file that the spine names, if any.
pub open spec fn ncx_item_index(book: EpubBook) -> Option<int> {
    match book.toc_id {
        Some(id) => manifest_index(book.manifest@, id@),
        None => None,
    }
}

/// The plain values of the three lists.
pub open spec fn nav_views(nav: NavigationDocument) -> NavV {
    NavV { toc: toc_views(nav.toc@), page_list: toc_views(nav.page_list@), landmarks: toc_views(nav.landmarks@) }
}

/// No entries at all.
pub open spec fn empty_nav() -> NavV {
    NavV { toc: Seq::empty(), page_list: Seq::empty(), landmarks: Seq::empty() }
}

/// `v` is what the file `bytes` gives as the navigation of `book`: the
/// EPUB 3 navigation document when the manifest has one, else the NCX file
/// that the spine names, else nothing.
pub open spec fn navigation_of(book: EpubBook, bytes: Seq<u8>, v: NavV) -> bool {
    match nav_item_index(book.manifest@, 0) {
        Some(k) => v == nav_document(dom_tree(html_dom(utf8_lossy(bytes))), nav_dir_of(book, k)),
        None => match ncx_item_index(book) {
            Some(_) => v.landmarks.len() == 0 && xml_doc(utf8_lossy(bytes), false).1 is None && ncx_read(
                xml_doc(utf8_lossy(bytes), false).0,
            ).toc == v.toc && ncx_read(xml_doc(utf8_lossy(bytes), false).0).page_list == v.page_list,
            None => v == empty_nav(),
        },
    }
}

fn has_nav_property_exec(item: &ManifestItem) -> (b: bool)
    ensures
        b == has_nav_property(*item),
{
    let mut j: usize = 0;
    while j < item.properties.len()
        invariant
            j <= item.properties@.len(),
            forall|q: int| 0 <= q < j ==> (#[trigger] item.properties@[q])@ != "nav"@,
        decreases item.properties@.len() - j,
    {
        if eq_str(&chars_of(item.properties[j].as_str()), "nav") {
            return true;
        }
        j = j + 1;
    }
    false
}

proof fn lemma_nav_item_index(m: Seq<ManifestItem>, from: int)
    requires
        0 <= from,
    ensures
        nav_item_index(m, from) matches Some(k) ==> from <= k < m.len(),
    decreases m.len() - from,
{
    if from < m.len() && !has_nav_property(m[from]) {
        lemma_nav_item_index(m, from + 1);
    }
}

/// The first manifest item with the `nav` property.
pub fn nav_item_of(book: &EpubBook) -> (r: Option<usize>)
    ensures
        match r {
            Some(k) => nav_item_index(book.manifest@, 0) == Some(k as int) && k < book.manifest@.len(),
            None => nav_item_index(book.manifest@, 0) is None,
        },
{
    proof {
        lemma_nav_item_index(book.manifest@, 0);
    }
    let mut i: usize = 0;
    while i < book.manifest.len()
        invariant
            i <= book.manifest@.len(),
            nav_item_index(book.manifest@, 0) == nav_item_index(book.manifest@, i as int),
        decreases book.manifest@.len() - i,
    {
        if has_nav_property_exec(&book.manifest[i]) {
            return Some(i);
        }
        i = i + 1;
    }
    None
}

/// The directory of the navigation document that manifest item `k` names.
fn nav_dir_exec(book: &EpubBook, k: usize) -> (r: String)
    requires
        k < book.manifest@.len(),
    ensures
        r@ == nav_dir_of(*book, k as int),
{
    let h = chars_of(book.manifest[k].href.as_str());
    let ghost hv = book.manifest@[k as int].href@;
    let root = if book.opf_dir.as_str().is_empty() {
        h
    } else {
        let mut r = chars_of(book.opf_dir.as_str());
        r.push('/');
        crate::text::extend_chars(&mut r, &h);
        proof {
            reveal_strlit("/");
            assert("/"@ =~= seq!['/']);
            assert(r@ =~= book.opf_dir@ + "/"@ + hv);
        }
        r
    };
    assert(root@ == (if book.opf_dir@.len() == 0 {
        hv
    } else {
        book.opf_dir@ + "/"@ + hv
    }));
    string_from_chars(&parent_dir(&root))
}

/// The navigation lists of `book`, given the bytes of the file that holds
/// them (see [`navigation_of`]): an NCX file that is not well-formed XML is
/// an [`EpubError::Xml`] error; nothing else is refused.
pub fn navigation_from_bytes(book: &EpubBook, bytes: &[u8]) -> (r: Result<NavigationDocument, EpubError>)
    ensures
        r matches Ok(nav) ==> navigation_of(*book, bytes@, nav_views(nav)),
        r matches Err(e) ==> e is Xml && nav_item_index(book.manifest@, 0) is None && ncx_item_index(*book) is Some,
        (nav_item_index(book.manifest@, 0) is Some || ncx_item_index(*book) is None) ==> r is Ok,
        (nav_item_index(book.manifest@, 0) is None && ncx_item_index(*book) is Some) ==> ncx_result(
            utf8_lossy(bytes@),
            r,
        ),
{
    match nav_item_of(book) {
        Some(k) => {
            let dir = nav_dir_exec(book, k);
            let html = utf8_lossy_string(bytes);
            let res = parse_nav_xhtml_all(html.as_str(), dir.as_str());
            proof {
                let nav = res->Ok_0;
                let want = nav_document(dom_tree(html_dom(utf8_lossy(bytes@))), nav_dir_of(*book, k as int));
                assert(html@ == utf8_lossy(bytes@));
                assert(dir@ == nav_dir_of(*book, k as int));
                assert(nav_views(nav).toc == want.toc);
                assert(nav_views(nav).page_list == want.page_list);
                assert(nav_views(nav).landmarks == want.landmarks);
                assert(nav_item_index(book.manifest@, 0) == Some(k as int));
                assert(nav_views(nav) == want);
            }
            res
        },
        None => {
            let has_ncx = match &book.toc_id {
                Some(id) => book.manifest_item(id.as_str()).is_some(),
                None => false,
            };
            if has_ncx {
                let xml = utf8_lossy_string(bytes);
                let res = parse_ncx_all(xml.as_str());
                proof {
                    assert(xml@ == utf8_lossy(bytes@));
                    if res is Ok {
                        let nav = res->Ok_0;
                        assert(navigation_of(*book, bytes@, nav_views(nav)));
                    }
                }
                res
            } else {
                let d = NavigationDocument { toc: Vec::new(), page_list: Vec::new(), landmarks: Vec::new() };
                proof {
                    assert(toc_views(Seq::<TocEntry>::empty()) =~= Seq::<TocNode>::empty());
                    assert(d.toc@ =~= Seq::<TocEntry>::empty());
                    assert(d.page_list@ =~= Seq::<TocEntry>::empty());
                    assert(d.landmarks@ =~= Seq::<TocEntry>::empty());
                    assert(ncx_item_index(*book) is None);
                    assert(nav_views(d) == empty_nav());
                }
                Ok(d)
            }
        },
    }
}

} // verus!
