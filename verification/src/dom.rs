//! HTML documents as trees of elements and text, as the `kuchikiki` HTML
//! parser builds them.
//!
//! The parser's tree is walked once into a sequence of events (an element
//! opens, an element closes, a text node); the library rebuilds the tree
//! from those events and does all of its reading on it.
use vstd::prelude::*;
use kuchikiki::iter::NodeEdge;
use kuchikiki::traits::TendrilSink;
use kuchikiki::NodeData;

verus! {

/// An attribute: (namespace URL, local name, value).  Attributes without
/// a namespace have an empty namespace URL.
pub type DomAttr = (String, String, String);

/// The plain values of an attribute.
pub type DomAttrV = (Seq<char>, Seq<char>, Seq<char>);

/// One step of a walk over the parser's tree, in document order.
#[derive(Clone, Debug)]
pub enum DomEvent {
    /// An element begins: its local name and attributes.
    Open(String, Vec<DomAttr>),
    /// The innermost open element ends.
    Close,
    /// A text node.
    Text(String),
    /// Any other node (comment, doctype, processing instruction).
    Other,
}

/// The plain values of a walk step.
pub enum DomEventV {
    Open(Seq<char>, Seq<DomAttrV>),
    Close,
    Text(Seq<char>),
    Other,
}

pub open spec fn attrs_view(a: Seq<DomAttr>) -> Seq<DomAttrV> {
    a.map_values(|x: DomAttr| (x.0@, x.1@, x.2@))
}

pub open spec fn dom_event_view(e: DomEvent) -> DomEventV {
    match e {
        DomEvent::Open(n, a) => DomEventV::Open(n@, attrs_view(a@)),
        DomEvent::Close => DomEventV::Close,
        DomEvent::Text(t) => DomEventV::Text(t@),
        DomEvent::Other => DomEventV::Other,
    }
}

pub open spec fn dom_events_view(s: Seq<DomEvent>) -> Seq<DomEventV> {
    s.map_values(|e: DomEvent| dom_event_view(e))
}

/// The walk over the tree that the HTML parser builds from a document.
pub uninterp spec fn html_dom(html: Seq<char>) -> Seq<DomEventV>;

/// `kuchikiki::parse_html().one(html)`, walked in document order with
/// `traverse`: the start of an element gives its local name and its
/// attributes (namespace, local name, value), the start of a text node its
/// text, the end of an element a `Close`; every other step is `Other`.
/// The walk is named by [`html_dom`].
#[verifier::external_body]
fn html_dom_events(html: &str) -> (r: Vec<DomEvent>)
    ensures
        dom_events_view(r@) == html_dom(html@),
{
    kuchikiki::parse_html().one(html).traverse().map(|edge| match edge {
        NodeEdge::Start(n) => match n.data() {
            NodeData::Element(e) => DomEvent::Open(
                e.name.local.to_string(),
                e.attributes.borrow().map.iter().map(|(k, a)| (k.ns.to_string(), k.local.to_string(), a.value.clone())).collect(),
            ),
            NodeData::Text(t) => DomEvent::Text(t.borrow().clone()),
            _ => DomEvent::Other,
        },
        NodeEdge::End(n) => match n.as_element() {
            Some(_) => DomEvent::Close,
            None => DomEvent::Other,
        },
    }).collect()
}

// ── The tree ─────────────────────────────────────────────────────────────────

/// A node of an HTML tree.
#[derive(Debug)]
pub enum DomNode {
    Element { name: String, attrs: Vec<DomAttr>, children: Vec<DomNode> },
    Text(String),
}

/// The plain values of a node.
pub enum DomV {
    Element { name: Seq<char>, attrs: Seq<DomAttrV>, children: Seq<DomV> },
    Text(Seq<char>),
}

/// The plain values of a list of nodes.
pub open spec fn dom_views(s: Seq<DomNode>) -> Seq<DomV>
    decreases s,
{
    if s.len() == 0 {
        Seq::empty()
    } else {
        let head = match s[0] {
            DomNode::Element { name, attrs, children } => {
                proof {
                    assert(decreases_to!(s => s[0]));
                    assert(decreases_to!(s[0] => children));
                    assert(decreases_to!(children => children@));
                }
                DomV::Element { name: name@, attrs: attrs_view(attrs@), children: dom_views(children@) }
            },
            DomNode::Text(t) => DomV::Text(t@),
        };
        seq![head] + dom_views(s.drop_first())
    }
}

/// The plain values of one node.
pub open spec fn dom_view(n: DomNode) -> DomV {
    dom_views(seq![n])[0]
}

pub proof fn lemma_dom_views_append(a: Seq<DomNode>, b: Seq<DomNode>)
    ensures
        dom_views(a + b) == dom_views(a) + dom_views(b),
    decreases a.len(),
{
    if a.len() == 0 {
        assert(a + b =~= b);
        assert(dom_views(a) + dom_views(b) =~= dom_views(b));
    } else {
        assert((a + b)[0] == a[0]);
        assert((a + b).drop_first() =~= a.drop_first() + b);
        lemma_dom_views_append(a.drop_first(), b);
        assert(dom_views(a + b) =~= dom_views(a) + dom_views(b));
    }
}

/// The view of one node, unfolded.
pub proof fn lemma_dom_view(n: DomNode)
    ensures
        dom_views(seq![n]) == seq![dom_view(n)],
        match n {
            DomNode::Element { name, attrs, children } => dom_view(n) == DomV::Element {
                name: name@,
                attrs: attrs_view(attrs@),
                children: dom_views(children@),
            },
            DomNode::Text(t) => dom_view(n) == DomV::Text(t@),
        },
{
    assert(seq![n].drop_first() =~= Seq::<DomNode>::empty());
    assert(seq![n][0] == n);
    assert(dom_views(Seq::<DomNode>::empty()) =~= Seq::<DomV>::empty());
    assert(dom_views(seq![n]) =~= seq![dom_view(n)]);
}

/// Views are taken node by node.
pub proof fn lemma_dom_views_index(s: Seq<DomNode>)
    ensures
        dom_views(s).len() == s.len(),
        forall|i: int| 0 <= i < s.len() ==> #[trigger] dom_views(s)[i] == dom_view(s[i]),
    decreases s.len(),
{
    if s.len() > 0 {
        lemma_dom_views_index(s.drop_first());
        lemma_dom_view(s[0]);
        assert(s =~= seq![s[0]] + s.drop_first());
        lemma_dom_views_append(seq![s[0]], s.drop_first());
        assert forall|i: int| 0 <= i < s.len() implies #[trigger] dom_views(s)[i] == dom_view(s[i]) by {
            if i > 0 {
                assert(s.drop_first()[i - 1] == s[i]);
            }
        }
    }
}

/// The view of a list grown by one node.
pub proof fn lemma_dom_views_push(a: Seq<DomNode>, n: DomNode)
    ensures
        dom_views(a.push(n)) == dom_views(a).push(dom_view(n)),
{
    lemma_dom_views_append(a, seq![n]);
    lemma_dom_view(n);
    assert(a.push(n) =~= a + seq![n]);
}

// ── Building the tree from the walk ─────────────────────────────────────────

/// An element being built: (name, attributes, children so far).
pub type DomFrameV = (Seq<char>, Seq<DomAttrV>, Seq<DomV>);

/// The builder between steps: the open elements, the outermost first, and
/// the finished top-level nodes.
pub struct DomBuildV {
    pub stack: Seq<DomFrameV>,
    pub roots: Seq<DomV>,
}

/// A finished node goes to the innermost open element, or to the top level.
pub open spec fn dom_add(b: DomBuildV, n: DomV) -> DomBuildV {
    if b.stack.len() > 0 {
        let f = b.stack.last();
        DomBuildV { stack: b.stack.update(b.stack.len() - 1, (f.0, f.1, f.2.push(n))), ..b }
    } else {
        DomBuildV { roots: b.roots.push(n), ..b }
    }
}

/// The innermost open element is finished.
pub open spec fn dom_close(b: DomBuildV) -> DomBuildV {
    if b.stack.len() > 0 {
        let f = b.stack.last();
        dom_add(
            DomBuildV { stack: b.stack.drop_last(), ..b },
            DomV::Element { name: f.0, attrs: f.1, children: f.2 },
        )
    } else {
        b
    }
}

/// One step of the walk.
pub open spec fn dom_step(b: DomBuildV, e: DomEventV) -> DomBuildV {
    match e {
        DomEventV::Open(name, attrs) => DomBuildV { stack: b.stack.push((name, attrs, Seq::empty())), ..b },
        DomEventV::Close => dom_close(b),
        DomEventV::Text(t) => dom_add(b, DomV::Text(t)),
        DomEventV::Other => b,
    }
}

/// The builder after the steps.
pub open spec fn dom_read(events: Seq<DomEventV>) -> DomBuildV
    decreases events.len(),
{
    if events.len() == 0 {
        DomBuildV { stack: Seq::empty(), roots: Seq::empty() }
    } else {
        dom_step(dom_read(events.drop_last()), events.last())
    }
}

/// Elements still open at the end are finished, the innermost first.
pub open spec fn dom_close_all(b: DomBuildV) -> DomBuildV
    decreases b.stack.len(),
{
    if b.stack.len() == 0 {
        b
    } else {
        dom_close_all(dom_close(b))
    }
}

/// The top-level nodes of the tree that the walk describes.
pub open spec fn dom_tree(events: Seq<DomEventV>) -> Seq<DomV> {
    dom_close_all(dom_read(events)).roots
}

/// A copy of a list of attributes.
pub fn copy_attrs(a: &Vec<DomAttr>) -> (r: Vec<DomAttr>)
    ensures
        attrs_view(r@) == attrs_view(a@),
{
    let mut r: Vec<DomAttr> = Vec::new();
    let mut i: usize = 0;
    while i < a.len()
        invariant
            i <= a@.len(),
            attrs_view(r@) == attrs_view(a@.take(i as int)),
        decreases a@.len() - i,
    {
        let x = &a[i];
        let t = (x.0.clone(), x.1.clone(), x.2.clone());
        let ghost before = r@;
        r.push(t);
        assert(a@.take(i + 1) =~= a@.take(i as int).push(*x));
        assert(r@ =~= before.push(t));
        assert(attrs_view(r@) =~= attrs_view(before).push((x.0@, x.1@, x.2@)));
        assert(attrs_view(a@.take(i + 1)) =~= attrs_view(a@.take(i as int)).push((x.0@, x.1@, x.2@)));
        i = i + 1;
    }
    assert(a@.take(i as int) =~= a@);
    r
}

/// An element being built.
struct DomFrame {
    name: String,
    attrs: Vec<DomAttr>,
    children: Vec<DomNode>,
}

spec fn frame_view(f: DomFrame) -> DomFrameV {
    (f.name@, attrs_view(f.attrs@), dom_views(f.children@))
}

spec fn frames_view(s: Seq<DomFrame>) -> Seq<DomFrameV> {
    s.map_values(|f: DomFrame| frame_view(f))
}

struct DomBuilder {
    stack: Vec<DomFrame>,
    roots: Vec<DomNode>,
}

impl DomBuilder {
    spec fn view(&self) -> DomBuildV {
        DomBuildV { stack: frames_view(self.stack@), roots: dom_views(self.roots@) }
    }

    fn add(&mut self, n: DomNode)
        ensures
            final(self).view() == dom_add(old(self).view(), dom_view(n)),
    {
        if self.stack.len() > 0 {
            let ghost before = self.stack@;
            let f = self.stack.pop().unwrap();
            let mut children = f.children;
            proof {
                lemma_dom_views_push(children@, n);
            }
            children.push(n);
            self.stack.push(DomFrame { name: f.name, attrs: f.attrs, children });
            proof {
                let fv = frame_view(before.last());
                assert(frames_view(self.stack@) =~= frames_view(before).update(
                    before.len() - 1,
                    (fv.0, fv.1, fv.2.push(dom_view(n))),
                ));
            }
        } else {
            proof {
                lemma_dom_views_push(self.roots@, n);
            }
            self.roots.push(n);
        }
    }

    fn close(&mut self)
        ensures
            final(self).view() == dom_close(old(self).view()),
    {
        if self.stack.len() > 0 {
            let ghost before = self.stack@;
            let f = self.stack.pop().unwrap();
            let n = DomNode::Element { name: f.name, attrs: f.attrs, children: f.children };
            proof {
                assert(frames_view(self.stack@) =~= frames_view(before).drop_last());
                lemma_dom_view(n);
            }
            self.add(n);
        }
    }

    fn step(&mut self, e: &DomEvent)
        ensures
            final(self).view() == dom_step(old(self).view(), dom_event_view(*e)),
    {
        match e {
            DomEvent::Open(name, attrs) => {
                let ghost before = self.stack@;
                let f = DomFrame { name: name.clone(), attrs: copy_attrs(attrs), children: Vec::new() };
                proof {
                    assert(f.children@ =~= Seq::<DomNode>::empty());
                    assert(dom_views(Seq::<DomNode>::empty()) =~= Seq::<DomV>::empty());
                    assert(attrs_view(f.attrs@) =~= attrs_view(attrs@));
                }
                self.stack.push(f);
                assert(frames_view(self.stack@) =~= frames_view(before).push(
                    (name@, attrs_view(attrs@), Seq::empty()),
                ));
            },
            DomEvent::Close => self.close(),
            DomEvent::Text(t) => {
                let n = DomNode::Text(t.clone());
                proof {
                    lemma_dom_view(n);
                }
                self.add(n);
            },
            DomEvent::Other => {},
        }
    }
}

/// Rebuilds the tree that a walk describes (see [`dom_tree`]).
pub fn dom_from_events(events: &[DomEvent]) -> (r: Vec<DomNode>)
    ensures
        dom_views(r@) == dom_tree(dom_events_view(events@)),
{
    let mut b = DomBuilder { stack: Vec::new(), roots: Vec::new() };
    proof {
        assert(frames_view(b.stack@) =~= Seq::<DomFrameV>::empty());
        assert(b.roots@ =~= Seq::<DomNode>::empty());
        assert(dom_views(Seq::<DomNode>::empty()) =~= Seq::<DomV>::empty());
    }
    let ghost evs = dom_events_view(events@);
    let mut i: usize = 0;
    while i < events.len()
        invariant
            i <= events@.len(),
            evs == dom_events_view(events@),
            b.view() == dom_read(evs.take(i as int)),
        decreases events@.len() - i,
    {
        proof {
            assert(evs.take(i + 1).drop_last() =~= evs.take(i as int));
            assert(evs.take(i + 1).last() == dom_event_view(events@[i as int]));
        }
        b.step(&events[i]);
        i = i + 1;
    }
    assert(evs.take(i as int) =~= evs);
    while b.stack.len() > 0
        invariant
            dom_close_all(b.view()) == dom_close_all(dom_read(evs)),
        decreases b.stack@.len(),
    {
        b.close();
    }
    b.roots
}

/// The tree that the HTML parser builds from `html` (see [`html_dom`] and
/// [`dom_tree`]): its top-level nodes.
pub fn parse_html_tree(html: &str) -> (r: Vec<DomNode>)
    ensures
        dom_views(r@) == dom_tree(html_dom(html@)),
{
    let events = html_dom_events(html);
    dom_from_events(events.as_slice())
}

// ── Reading the tree ─────────────────────────────────────────────────────────

/// The number of nodes among `ns` and their descendants.
pub open spec fn forest_size(ns: Seq<DomV>) -> nat
    decreases ns,
{
    if ns.len() == 0 {
        0
    } else {
        let own = match ns[0] {
            DomV::Element { children, .. } => {
                proof {
                    assert(decreases_to!(ns => ns[0]));
                }
                forest_size(children)
            },
            DomV::Text(_) => 0,
        };
        1 + own + forest_size(ns.drop_first())
    }
}

/// The first element named `name` among `ns` and their descendants, in
/// document order (an element before its descendants).
pub open spec fn first_element(ns: Seq<DomV>, name: Seq<char>) -> Option<DomV>
    decreases ns,
{
    if ns.len() == 0 {
        None
    } else {
        match ns[0] {
            DomV::Element { name: n, children, .. } => {
                proof {
                    assert(decreases_to!(ns => ns[0]));
                }
                if n == name {
                    Some(ns[0])
                } else {
                    match first_element(children, name) {
                        Some(x) => Some(x),
                        None => first_element(ns.drop_first(), name),
                    }
                }
            },
            DomV::Text(_) => first_element(ns.drop_first(), name),
        }
    }
}

/// Every element named `name` among `ns` and their descendants, in
/// document order.
pub open spec fn elements_named(ns: Seq<DomV>, name: Seq<char>) -> Seq<DomV>
    decreases ns,
{
    if ns.len() == 0 {
        Seq::empty()
    } else {
        match ns[0] {
            DomV::Element { name: n, children, .. } => {
                proof {
                    assert(decreases_to!(ns => ns[0]));
                }
                (if n == name {
                    seq![ns[0]]
                } else {
                    Seq::empty()
                }) + elements_named(children, name) + elements_named(ns.drop_first(), name)
            },
            DomV::Text(_) => elements_named(ns.drop_first(), name),
        }
    }
}

/// The text of `ns` and their descendants, in document order.
pub open spec fn text_content(ns: Seq<DomV>) -> Seq<char>
    decreases ns,
{
    if ns.len() == 0 {
        Seq::empty()
    } else {
        match ns[0] {
            DomV::Element { children, .. } => {
                proof {
                    assert(decreases_to!(ns => ns[0]));
                }
                text_content(children) + text_content(ns.drop_first())
            },
            DomV::Text(t) => t + text_content(ns.drop_first()),
        }
    }
}

/// The value of the attribute without namespace named `key`, from `from` on.
pub open spec fn dom_attr_from(attrs: Seq<DomAttrV>, key: Seq<char>, from: int) -> Option<Seq<char>>
    decreases attrs.len() - from,
{
    if from < 0 || from >= attrs.len() {
        None
    } else if attrs[from].0.len() == 0 && attrs[from].1 == key {
        Some(attrs[from].2)
    } else {
        dom_attr_from(attrs, key, from + 1)
    }
}

/// The value of the attribute without namespace named `key`.
pub open spec fn dom_attr(attrs: Seq<DomAttrV>, key: Seq<char>) -> Option<Seq<char>> {
    dom_attr_from(attrs, key, 0)
}

/// The element found by [`first_element`] lies inside `ns`: it is smaller.
pub proof fn lemma_first_element_smaller(ns: Seq<DomV>, name: Seq<char>)
    ensures
        first_element(ns, name) matches Some(x) ==> x is Element && forest_size(x->children) < forest_size(ns),
    decreases ns,
{
    if ns.len() > 0 {
        lemma_first_element_smaller(ns.drop_first(), name);
        match ns[0] {
            DomV::Element { children, .. } => {
                assert(decreases_to!(ns => ns[0]));
                lemma_first_element_smaller(children, name);
            },
            DomV::Text(_) => {},
        }
    }
}

/// The elements of a list of references.
pub open spec fn derefs<'a>(s: Seq<&'a DomNode>) -> Seq<DomNode> {
    s.map_values(|n: &'a DomNode| *n)
}

/// Whether a string equals another.
fn same(a: &str, b: &str) -> (r: bool)
    ensures
        r == (a@ == b@),
{
    crate::text::eq_str(&crate::text::chars_of(a), b)
}

/// The first element named `name` among `nodes` and their descendants (see
/// [`first_element`]).
pub fn first_element_in<'a>(nodes: &'a Vec<DomNode>, name: &str) -> (r: Option<&'a DomNode>)
    ensures
        match r {
            Some(n) => first_element(dom_views(nodes@), name@) == Some(dom_view(*n)),
            None => first_element(dom_views(nodes@), name@) is None,
        },
    decreases nodes@,
{
    let ghost v = dom_views(nodes@);
    proof {
        lemma_dom_views_index(nodes@);
        assert(v.skip(0) =~= v);
    }
    let mut i: usize = 0;
    while i < nodes.len()
        invariant
            i <= nodes@.len(),
            v == dom_views(nodes@),
            v.len() == nodes@.len(),
            forall|k: int| 0 <= k < nodes@.len() ==> #[trigger] v[k] == dom_view(nodes@[k]),
            first_element(v, name@) == first_element(v.skip(i as int), name@),
        decreases nodes@.len() - i,
    {
        proof {
            assert(v.skip(i as int)[0] == v[i as int]);
            assert(v.skip(i as int).drop_first() =~= v.skip(i + 1));
            lemma_dom_view(nodes@[i as int]);
        }
        match &nodes[i] {
            DomNode::Element { name: n, children, .. } => {
                if same(n.as_str(), name) {
                    return Some(&nodes[i]);
                }
                proof {
                    assert(decreases_to!(nodes@ => nodes@[i as int]));
                }
                match first_element_in(children, name) {
                    Some(x) => {
                        return Some(x);
                    },
                    None => {},
                }
            },
            DomNode::Text(_) => {},
        }
        i = i + 1;
    }
    None
}

/// Appends every element named `name` among `nodes` and their descendants
/// (see [`elements_named`]).
pub fn collect_elements<'a>(nodes: &'a Vec<DomNode>, name: &str, out: &mut Vec<&'a DomNode>)
    ensures
        dom_views(derefs(final(out)@)) == dom_views(derefs(old(out)@)) + elements_named(
            dom_views(nodes@),
            name@,
        ),
    decreases nodes@,
{
    let ghost v = dom_views(nodes@);
    let ghost start = dom_views(derefs(out@));
    proof {
        lemma_dom_views_index(nodes@);
        assert(v.skip(0) =~= v);
    }
    let mut i: usize = 0;
    while i < nodes.len()
        invariant
            i <= nodes@.len(),
            v == dom_views(nodes@),
            v.len() == nodes@.len(),
            forall|k: int| 0 <= k < nodes@.len() ==> #[trigger] v[k] == dom_view(nodes@[k]),
            start + elements_named(v, name@) == dom_views(derefs(out@)) + elements_named(
                v.skip(i as int),
                name@,
            ),
        decreases nodes@.len() - i,
    {
        proof {
            assert(v.skip(i as int)[0] == v[i as int]);
            assert(v.skip(i as int).drop_first() =~= v.skip(i + 1));
            lemma_dom_view(nodes@[i as int]);
        }
        match &nodes[i] {
            DomNode::Element { name: n, children, .. } => {
                let ghost o0 = dom_views(derefs(out@));
                if same(n.as_str(), name) {
                    let ghost before = out@;
                    out.push(&nodes[i]);
                    proof {
                        assert(derefs(out@) =~= derefs(before).push(nodes@[i as int]));
                        lemma_dom_views_push(derefs(before), nodes@[i as int]);
                    }
                }
                let ghost o1 = dom_views(derefs(out@));
                proof {
                    assert(decreases_to!(nodes@ => nodes@[i as int]));
                }
                collect_elements(children, name, out);
                proof {
                    let own = if n@ == name@ {
                        seq![v[i as int]]
                    } else {
                        Seq::empty()
                    };
                    assert(o1 =~= o0 + own);
                    assert(elements_named(v.skip(i as int), name@) == own + elements_named(
                        dom_views(children@),
                        name@,
                    ) + elements_named(v.skip(i + 1), name@));
                    assert(dom_views(derefs(out@)) + elements_named(v.skip(i + 1), name@) =~= o0
                        + elements_named(v.skip(i as int), name@));
                }
            },
            DomNode::Text(_) => {},
        }
        i = i + 1;
    }
    assert(v.skip(i as int) =~= Seq::<DomV>::empty());
    assert(start + elements_named(v, name@) =~= dom_views(derefs(out@)));
}

/// Appends the text of `nodes` and their descendants (see [`text_content`]).
pub fn collect_text(nodes: &Vec<DomNode>, out: &mut Vec<char>)
    ensures
        final(out)@ == old(out)@ + text_content(dom_views(nodes@)),
    decreases nodes@,
{
    let ghost v = dom_views(nodes@);
    let ghost start = out@;
    proof {
        lemma_dom_views_index(nodes@);
        assert(v.skip(0) =~= v);
    }
    let mut i: usize = 0;
    while i < nodes.len()
        invariant
            i <= nodes@.len(),
            v == dom_views(nodes@),
            v.len() == nodes@.len(),
            forall|k: int| 0 <= k < nodes@.len() ==> #[trigger] v[k] == dom_view(nodes@[k]),
            start + text_content(v) == out@ + text_content(v.skip(i as int)),
        decreases nodes@.len() - i,
    {
        proof {
            assert(v.skip(i as int)[0] == v[i as int]);
            assert(v.skip(i as int).drop_first() =~= v.skip(i + 1));
            lemma_dom_view(nodes@[i as int]);
        }
        let ghost o0 = out@;
        match &nodes[i] {
            DomNode::Element { children, .. } => {
                proof {
                    assert(decreases_to!(nodes@ => nodes@[i as int]));
                }
                collect_text(children, out);
            },
            DomNode::Text(t) => {
                crate::text::extend_chars(out, &crate::text::chars_of(t.as_str()));
            },
        }
        assert(out@ + text_content(v.skip(i + 1)) =~= o0 + text_content(v.skip(i as int)));
        i = i + 1;
    }
    assert(v.skip(i as int) =~= Seq::<DomV>::empty());
    assert(start + text_content(v) =~= out@);
}

/// The value of the attribute without namespace named `key`.
pub fn get_dom_attr(attrs: &Vec<DomAttr>, key: &str) -> (r: Option<String>)
    ensures
        match dom_attr(attrs_view(attrs@), key@) {
            Some(v) => r matches Some(s) && s@ == v,
            None => r is None,
        },
{
    let ghost av = attrs_view(attrs@);
    let mut i: usize = 0;
    while i < attrs.len()
        invariant
            i <= attrs@.len(),
            av == attrs_view(attrs@),
            dom_attr(av, key@) == dom_attr_from(av, key@, i as int),
        decreases attrs@.len() - i,
    {
        let a = &attrs[i];
        assert(av[i as int] == (a.0@, a.1@, a.2@));
        if a.0.as_str().is_empty() && same(a.1.as_str(), key) {
            return Some(a.2.clone());
        }
        i = i + 1;
    }
    None
}

} // verus!
