//! Media overlays (SMIL): the synchronisation structure of a `.smil` file.
//!
//! One pass over the XML events with a stack of `<seq>` frames (the root
//! frame collects the top-level nodes) and an accumulator for the `<par>`
//! being read.  Element names are compared without their namespace prefix.
//! Clock values are kept as the file writes them.
use vstd::prelude::*;
use crate::error::EpubError;
use crate::path::{join_epub_path, join_spec};
use crate::text::{chars_of, ends_with, eq_str, has_prefix, has_suffix, split_whitespace_chars, starts_with, string_from_chars, ws_tokens};
use crate::xml::{XmlEvent, XmlTag, is_document, local_name, local_name_of, xml_events_with, xml_doc};

verus! {

/// An audio clip: the audio file (package-root-relative) and the
/// `clipBegin` / `clipEnd` clock values as written.
#[derive(Clone, Debug)]
pub struct SmilClip {
    pub src: String,
    pub clip_begin: Option<String>,
    pub clip_end: Option<String>,
}

/// A node of the synchronisation structure: a `<seq>` (with children) or
/// a `<par>` (with its text and audio).
#[derive(Debug)]
pub struct SmilNode {
    /// The text the node refers to (package-root-relative, with fragment).
    pub text_ref: String,
    pub audio: Option<SmilClip>,
    /// The `epub:type` tokens.
    pub role: Vec<String>,
    pub children: Vec<SmilNode>,
}

pub type SmilClipV = (Seq<char>, Option<Seq<char>>, Option<Seq<char>>);

/// A node as plain values.
pub struct SmilNodeV {
    pub text_ref: Seq<char>,
    pub audio: Option<SmilClipV>,
    pub role: Seq<Seq<char>>,
    pub children: Seq<SmilNodeV>,
}

pub open spec fn strs(v: Seq<String>) -> Seq<Seq<char>> {
    v.map_values(|s: String| s@)
}

pub open spec fn opt_chars(o: Option<String>) -> Option<Seq<char>> {
    match o {
        Some(s) => Some(s@),
        None => None,
    }
}

pub open spec fn clip_view(c: Option<SmilClip>) -> Option<SmilClipV> {
    match c {
        Some(c) => Some((c.src@, opt_chars(c.clip_begin), opt_chars(c.clip_end))),
        None => None,
    }
}

/// The plain values of a list of nodes, children included.
pub open spec fn smil_views(s: Seq<SmilNode>) -> Seq<SmilNodeV>
    decreases s,
{
    if s.len() == 0 {
        Seq::empty()
    } else {
        let n = s[0];
        proof {
            assert(decreases_to!(s => s[0]));
            assert(decreases_to!(s[0] => s[0].children));
            assert(decreases_to!(s[0].children => s[0].children@));
        }
        seq![
            SmilNodeV {
                text_ref: n.text_ref@,
                audio: clip_view(n.audio),
                role: strs(n.role@),
                children: smil_views(n.children@),
            },
        ] + smil_views(s.drop_first())
    }
}

pub open spec fn smil_view(n: SmilNode) -> SmilNodeV {
    smil_views(seq![n])[0]
}

proof fn lemma_smil_views_append(a: Seq<SmilNode>, b: Seq<SmilNode>)
    ensures
        smil_views(a + b) == smil_views(a) + smil_views(b),
    decreases a.len(),
{
    if a.len() == 0 {
        assert(a + b =~= b);
        assert(smil_views(a) + smil_views(b) =~= smil_views(b));
    } else {
        assert((a + b)[0] == a[0]);
        assert((a + b).drop_first() =~= a.drop_first() + b);
        lemma_smil_views_append(a.drop_first(), b);
        assert(smil_views(a + b) =~= smil_views(a) + smil_views(b));
    }
}

proof fn lemma_smil_views_push(a: Seq<SmilNode>, n: SmilNode)
    ensures
        smil_views(a.push(n)) == smil_views(a).push(smil_view(n)),
        smil_view(n) == (SmilNodeV {
            text_ref: n.text_ref@,
            audio: clip_view(n.audio),
            role: strs(n.role@),
            children: smil_views(n.children@),
        }),
{
    lemma_smil_views_append(a, seq![n]);
    assert(a.push(n) =~= a + seq![n]);
    assert(seq![n].drop_first() =~= Seq::<SmilNode>::empty());
    assert(seq![n][0] == n);
    assert(smil_views(Seq::<SmilNode>::empty()) =~= Seq::<SmilNodeV>::empty());
    assert(smil_views(seq![n]) =~= seq![smil_view(n)]);
}

// ── Attributes and paths ─────────────────────────────────────────────────────

/// Resolves a reference against the SMIL file's directory: `#fragment`
/// stays as it is, anything else is joined (see [`join_spec`]); nothing
/// for an empty reference.
pub open spec fn resolved_src(src: Seq<char>, dir: Seq<char>) -> Option<Seq<char>> {
    if src.len() == 0 {
        None
    } else if starts_with(src, "#"@) {
        Some(src)
    } else {
        Some(join_spec(dir, src))
    }
}

/// A reference resolved, or as it is when it does not resolve.
pub open spec fn resolved_or_same(src: Seq<char>, dir: Seq<char>) -> Seq<char> {
    match resolved_src(src, dir) {
        Some(r) => r,
        None => src,
    }
}

/// The value of the first attribute whose name, or whose name without its
/// prefix, is `name`.
pub open spec fn smil_attr(attrs: Seq<(String, String)>, name: Seq<char>, from: int) -> Option<Seq<char>>
    decreases attrs.len() - from,
{
    if from < 0 || from >= attrs.len() {
        None
    } else if local_name(attrs[from].0@) == name || attrs[from].0@ == name {
        Some(attrs[from].1@)
    } else {
        smil_attr(attrs, name, from + 1)
    }
}

/// The `epub:type` tokens: of the first attribute named `epub:type` or
/// ending with `:type`.
pub open spec fn type_roles(attrs: Seq<(String, String)>, from: int) -> Seq<Seq<char>>
    decreases attrs.len() - from,
{
    if from < 0 || from >= attrs.len() {
        Seq::empty()
    } else if attrs[from].0@ == "epub:type"@ || ends_with(attrs[from].0@, ":type"@) {
        ws_tokens(attrs[from].1@)
    } else {
        type_roles(attrs, from + 1)
    }
}

// ── The reading, stated ──────────────────────────────────────────────────────

/// A `<seq>` being read: (text reference, roles, children so far).
pub type SeqFrameV = (Seq<char>, Seq<Seq<char>>, Seq<SmilNodeV>);

/// A `<par>` being read.
pub struct ParFrameV {
    pub role: Seq<Seq<char>>,
    pub text_ref: Seq<char>,
    pub audio_src: Option<Seq<char>>,
    pub clip_begin: Option<Seq<char>>,
    pub clip_end: Option<Seq<char>>,
}

/// The reader between events: open `<seq>` frames (the root frame first),
/// inside `<body>`, the open `<par>`.
pub struct SmilV {
    pub stack: Seq<SeqFrameV>,
    pub in_body: bool,
    pub par: Option<ParFrameV>,
}

pub open spec fn smil_initial() -> SmilV {
    SmilV { stack: seq![(Seq::empty(), Seq::empty(), Seq::empty())], in_body: false, par: None }
}

/// A finished node goes to the innermost frame.
pub open spec fn smil_add(v: SmilV, n: SmilNodeV) -> SmilV {
    if v.stack.len() > 0 {
        let f = v.stack.last();
        SmilV { stack: v.stack.update(v.stack.len() - 1, (f.0, f.1, f.2.push(n))), ..v }
    } else {
        v
    }
}

/// A `<text>` or `<audio>` tag inside the open `<par>`.
pub open spec fn smil_media(v: SmilV, local: Seq<char>, attrs: Seq<(String, String)>, dir: Seq<char>) -> SmilV {
    match v.par {
        Some(p) => if local == "text"@ {
            match smil_attr(attrs, "src"@, 0) {
                Some(src) => SmilV { par: Some(ParFrameV { text_ref: resolved_or_same(src, dir), ..p }), ..v },
                None => v,
            }
        } else if local == "audio"@ {
            SmilV {
                par: Some(
                    ParFrameV {
                        audio_src: match smil_attr(attrs, "src"@, 0) {
                            Some(src) => Some(resolved_or_same(src, dir)),
                            None => p.audio_src,
                        },
                        clip_begin: smil_attr(attrs, "clipBegin"@, 0),
                        clip_end: smil_attr(attrs, "clipEnd"@, 0),
                        ..p
                    },
                ),
                ..v
            }
        } else {
            v
        },
        None => v,
    }
}

/// A start tag.
pub open spec fn smil_start(v: SmilV, t: XmlTag, dir: Seq<char>) -> SmilV {
    let local = local_name(t.name@);
    if local == "body"@ {
        SmilV { in_body: true, ..v }
    } else if local == "seq"@ && v.in_body {
        let text_ref = match smil_attr(t.attrs@, "epub:textref"@, 0) {
            Some(s) => match resolved_src(s, dir) {
                Some(r) => r,
                None => Seq::empty(),
            },
            None => Seq::empty(),
        };
        SmilV { stack: v.stack.push((text_ref, type_roles(t.attrs@, 0), Seq::empty())), ..v }
    } else if local == "par"@ && v.in_body {
        SmilV {
            par: Some(
                ParFrameV {
                    role: type_roles(t.attrs@, 0),
                    text_ref: Seq::empty(),
                    audio_src: None,
                    clip_begin: None,
                    clip_end: None,
                },
            ),
            ..v
        }
    } else {
        smil_media(v, local, t.attrs@, dir)
    }
}

/// An end tag.
pub open spec fn smil_end(v: SmilV, name: Seq<char>) -> SmilV {
    let local = local_name(name);
    if local == "body"@ {
        SmilV { in_body: false, ..v }
    } else if local == "par"@ {
        match v.par {
            Some(p) => {
                let w = SmilV { par: None, ..v };
                if p.text_ref.len() > 0 || p.audio_src is Some {
                    smil_add(
                        w,
                        SmilNodeV {
                            text_ref: p.text_ref,
                            audio: match p.audio_src {
                                Some(s) => Some((s, p.clip_begin, p.clip_end)),
                                None => None,
                            },
                            role: p.role,
                            children: Seq::empty(),
                        },
                    )
                } else {
                    w
                }
            },
            None => v,
        }
    } else if local == "seq"@ && v.stack.len() > 1 {
        let f = v.stack.last();
        smil_add(
            SmilV { stack: v.stack.drop_last(), ..v },
            SmilNodeV { text_ref: f.0, audio: None, role: f.1, children: f.2 },
        )
    } else {
        v
    }
}

/// One event.
pub open spec fn smil_step(v: SmilV, e: XmlEvent, dir: Seq<char>) -> SmilV {
    match e {
        XmlEvent::Start(t) => smil_start(v, t, dir),
        XmlEvent::Empty(t) => smil_media(v, local_name(t.name@), t.attrs@, dir),
        XmlEvent::End(name) => smil_end(v, name@),
        _ => v,
    }
}

/// The reader after the events.
pub open spec fn smil_read(events: Seq<XmlEvent>, dir: Seq<char>) -> SmilV
    decreases events.len(),
{
    if events.len() == 0 {
        smil_initial()
    } else {
        smil_step(smil_read(events.drop_last(), dir), events.last(), dir)
    }
}

/// The top-level nodes that the events give: the root frame's children.
pub open spec fn smil_nodes(events: Seq<XmlEvent>, dir: Seq<char>) -> Seq<SmilNodeV> {
    let v = smil_read(events, dir);
    if v.stack.len() > 0 {
        v.stack[0].2
    } else {
        Seq::empty()
    }
}

// ── The reader ───────────────────────────────────────────────────────────────

/// Joins `href` onto `base_dir`, resolving `.` and `..` (see [`join_spec`]).
pub fn normalize_epub_path(base_dir: &str, href: &str) -> (r: String)
    ensures
        r@ == join_spec(base_dir@, href@),
{
    join_epub_path(base_dir, href)
}

/// A reference resolved against the SMIL file's directory (see
/// [`resolved_src`]).
pub fn resolve_src(src: Option<&str>, smil_dir: &str) -> (r: Option<String>)
    ensures
        match src {
            Some(s) => opt_chars(r) == resolved_src(s@, smil_dir@),
            None => r is None,
        },
{
    let s = match src {
        Some(s) => s,
        None => return None,
    };
    if s.is_empty() {
        return None;
    }
    if has_prefix(&chars_of(s), "#") {
        return Some(s.to_string());
    }
    Some(normalize_epub_path(smil_dir, s))
}

fn resolved_or_same_exec(src: &str, dir: &str) -> (r: String)
    ensures
        r@ == resolved_or_same(src@, dir@),
{
    match resolve_src(Some(src), dir) {
        Some(r) => r,
        None => src.to_string(),
    }
}

/// The value of the first attribute named `name`, with or without prefix.
pub fn attr_value(attrs: &Vec<(String, String)>, name: &str) -> (r: Option<String>)
    ensures
        opt_chars(r) == smil_attr(attrs@, name@, 0),
{
    let mut i: usize = 0;
    while i < attrs.len()
        invariant
            i <= attrs@.len(),
            smil_attr(attrs@, name@, 0) == smil_attr(attrs@, name@, i as int),
        decreases attrs@.len() - i,
    {
        let key = attrs[i].0.as_str();
        let local = local_name_of(key);
        if eq_str(&local, name) || eq_str(&chars_of(key), name) {
            return Some(attrs[i].1.clone());
        }
        i = i + 1;
    }
    None
}

fn strings_from(v: Vec<Vec<char>>) -> (r: Vec<String>)
    ensures
        strs(r@) == v@.map_values(|t: Vec<char>| t@),
{
    let mut r: Vec<String> = Vec::new();
    let mut i: usize = 0;
    while i < v.len()
        invariant
            i <= v@.len(),
            strs(r@) == v@.take(i as int).map_values(|t: Vec<char>| t@),
        decreases v@.len() - i,
    {
        let s = string_from_chars(&v[i]);
        let ghost rb = r@;
        r.push(s);
        assert(v@.take(i + 1) =~= v@.take(i as int).push(v@[i as int]));
        assert(r@ =~= rb.push(s));
        assert(strs(r@) =~= strs(rb).push(s@));
        assert(v@.take(i + 1).map_values(|t: Vec<char>| t@) =~= v@.take(i as int).map_values(|t: Vec<char>| t@).push(
            v@[i as int]@,
        ));
        i = i + 1;
    }
    assert(v@.take(i as int) =~= v@);
    r
}

/// The `epub:type` tokens of an element (see [`type_roles`]).
pub fn epub_type_roles(attrs: &Vec<(String, String)>) -> (r: Vec<String>)
    ensures
        strs(r@) == type_roles(attrs@, 0),
{
    let mut i: usize = 0;
    while i < attrs.len()
        invariant
            i <= attrs@.len(),
            type_roles(attrs@, 0) == type_roles(attrs@, i as int),
        decreases attrs@.len() - i,
    {
        let key = chars_of(attrs[i].0.as_str());
        if eq_str(&key, "epub:type") || has_suffix(&key, ":type") {
            let toks = split_whitespace_chars(&chars_of(attrs[i].1.as_str()));
            return strings_from(toks);
        }
        i = i + 1;
    }
    let r: Vec<String> = Vec::new();
    assert(strs(r@) =~= Seq::<Seq<char>>::empty());
    r
}

/// A `<seq>` being read.
pub struct SeqFrame {
    pub text_ref: String,
    pub role: Vec<String>,
    pub children: Vec<SmilNode>,
}

/// A `<par>` being read.
pub struct ParFrame {
    pub role: Vec<String>,
    pub text_ref: String,
    pub audio_src: Option<String>,
    pub clip_begin: Option<String>,
    pub clip_end: Option<String>,
}

pub open spec fn seq_frame_view(f: SeqFrame) -> SeqFrameV {
    (f.text_ref@, strs(f.role@), smil_views(f.children@))
}

pub open spec fn par_view(p: ParFrame) -> ParFrameV {
    ParFrameV {
        role: strs(p.role@),
        text_ref: p.text_ref@,
        audio_src: opt_chars(p.audio_src),
        clip_begin: opt_chars(p.clip_begin),
        clip_end: opt_chars(p.clip_end),
    }
}

/// The SMIL reader.
pub struct SmilReader {
    stack: Vec<SeqFrame>,
    in_body: bool,
    par: Option<ParFrame>,
}

fn empty_strings() -> (r: Vec<String>)
    ensures
        strs(r@) == Seq::<Seq<char>>::empty(),
{
    let r: Vec<String> = Vec::new();
    assert(strs(r@) =~= Seq::<Seq<char>>::empty());
    r
}

impl SmilReader {
    pub closed spec fn view(&self) -> SmilV {
        SmilV {
            stack: self.stack@.map_values(|f: SeqFrame| seq_frame_view(f)),
            in_body: self.in_body,
            par: match self.par {
                Some(p) => Some(par_view(p)),
                None => None,
            },
        }
    }

    /// A reader before the first event.
    pub fn new() -> (r: SmilReader)
        ensures
            r.view() == smil_initial(),
    {
        let root = SeqFrame { text_ref: String::new(), role: empty_strings(), children: Vec::new() };
        let mut stack: Vec<SeqFrame> = Vec::new();
        stack.push(root);
        let r = SmilReader { stack, in_body: false, par: None };
        proof {
            assert(root.children@ =~= Seq::<SmilNode>::empty());
            assert(smil_views(Seq::<SmilNode>::empty()) =~= Seq::<SmilNodeV>::empty());
            assert(root.text_ref@ =~= Seq::<char>::empty());
            assert(r.view().stack =~= smil_initial().stack);
        }
        r
    }

    fn add(&mut self, n: SmilNode)
        ensures
            final(self).view() == smil_add(old(self).view(), smil_view(n)),
    {
        if self.stack.len() > 0 {
            let ghost before = self.stack@;
            let f = self.stack.pop().unwrap();
            let mut children = f.children;
            proof {
                lemma_smil_views_push(children@, n);
            }
            children.push(n);
            self.stack.push(SeqFrame { text_ref: f.text_ref, role: f.role, children });
            proof {
                let fv = seq_frame_view(before.last());
                assert(self.stack@.map_values(|f: SeqFrame| seq_frame_view(f)) =~= before.map_values(
                    |f: SeqFrame| seq_frame_view(f),
                ).update(before.len() - 1, (fv.0, fv.1, fv.2.push(smil_view(n)))));
            }
        }
    }

    fn on_media(&mut self, local: &Vec<char>, attrs: &Vec<(String, String)>, dir: &str)
        ensures
            final(self).view() == smil_media(old(self).view(), local@, attrs@, dir@),
    {
        let p = match self.par.take() {
            Some(p) => p,
            None => return,
        };
        if eq_str(local, "text") {
            match attr_value(attrs, "src") {
                Some(src) => {
                    let t = resolved_or_same_exec(src.as_str(), dir);
                    self.par = Some(ParFrame { text_ref: t, ..p });
                },
                None => {
                    self.par = Some(p);
                },
            }
        } else if eq_str(local, "audio") {
            let audio_src = match attr_value(attrs, "src") {
                Some(src) => Some(resolved_or_same_exec(src.as_str(), dir)),
                None => p.audio_src,
            };
            let clip_begin = attr_value(attrs, "clipBegin");
            let clip_end = attr_value(attrs, "clipEnd");
            self.par = Some(ParFrame { audio_src, clip_begin, clip_end, ..p });
        } else {
            self.par = Some(p);
        }
    }

    fn on_start(&mut self, t: &XmlTag, dir: &str)
        ensures
            final(self).view() == smil_start(old(self).view(), *t, dir@),
    {
        let local = local_name_of(t.name.as_str());
        if eq_str(&local, "body") {
            self.in_body = true;
        } else if eq_str(&local, "seq") && self.in_body {
            let text_ref = match attr_value(&t.attrs, "epub:textref") {
                Some(s) => match resolve_src(Some(s.as_str()), dir) {
                    Some(r) => r,
                    None => String::new(),
                },
                None => String::new(),
            };
            let f = SeqFrame { text_ref, role: epub_type_roles(&t.attrs), children: Vec::new() };
            let ghost before = self.stack@;
            self.stack.push(f);
            proof {
                assert(f.children@ =~= Seq::<SmilNode>::empty());
                assert(smil_views(Seq::<SmilNode>::empty()) =~= Seq::<SmilNodeV>::empty());
                assert(self.stack@.map_values(|f: SeqFrame| seq_frame_view(f)) =~= before.map_values(
                    |f: SeqFrame| seq_frame_view(f),
                ).push(seq_frame_view(f)));
            }
        } else if eq_str(&local, "par") && self.in_body {
            let p = ParFrame {
                role: epub_type_roles(&t.attrs),
                text_ref: String::new(),
                audio_src: None,
                clip_begin: None,
                clip_end: None,
            };
            assert(p.text_ref@ =~= Seq::<char>::empty());
            self.par = Some(p);
        } else {
            self.on_media(&local, &t.attrs, dir);
        }
    }

    fn on_end(&mut self, name: &str)
        ensures
            final(self).view() == smil_end(old(self).view(), name@),
    {
        let local = local_name_of(name);
        if eq_str(&local, "body") {
            self.in_body = false;
        } else if eq_str(&local, "par") {
            match self.par.take() {
                Some(p) => {
                    if !p.text_ref.as_str().is_empty() || p.audio_src.is_some() {
                        let audio = match p.audio_src {
                            Some(s) => Some(SmilClip { src: s, clip_begin: p.clip_begin, clip_end: p.clip_end }),
                            None => None,
                        };
                        let n = SmilNode { text_ref: p.text_ref, audio, role: p.role, children: Vec::new() };
                        proof {
                            lemma_smil_views_push(Seq::<SmilNode>::empty(), n);
                            assert(n.children@ =~= Seq::<SmilNode>::empty());
                            assert(smil_views(Seq::<SmilNode>::empty()) =~= Seq::<SmilNodeV>::empty());
                        }
                        self.add(n);
                    }
                },
                None => {},
            }
        } else if eq_str(&local, "seq") && self.stack.len() > 1 {
            let ghost before = self.stack@;
            let f = self.stack.pop().unwrap();
            let n = SmilNode { text_ref: f.text_ref, audio: None, role: f.role, children: f.children };
            proof {
                lemma_smil_views_push(Seq::<SmilNode>::empty(), n);
                assert(self.stack@.map_values(|f: SeqFrame| seq_frame_view(f)) =~= before.map_values(
                    |f: SeqFrame| seq_frame_view(f),
                ).drop_last());
            }
            self.add(n);
        }
    }

    /// Takes in one event (see [`smil_step`]).
    pub fn step(&mut self, e: &XmlEvent, dir: &str)
        ensures
            final(self).view() == smil_step(old(self).view(), *e, dir@),
    {
        match e {
            XmlEvent::Start(t) => self.on_start(t, dir),
            XmlEvent::Empty(t) => {
                let local = local_name_of(t.name.as_str());
                self.on_media(&local, &t.attrs, dir);
            },
            XmlEvent::End(name) => self.on_end(name.as_str()),
            _ => {},
        }
    }

    /// The top-level nodes read: the root frame's children.
    pub fn finish(self) -> (r: Vec<SmilNode>)
        ensures
            smil_views(r@) == (if self.view().stack.len() > 0 {
                self.view().stack[0].2
            } else {
                Seq::empty()
            }),
    {
        let mut stack = self.stack;
        if stack.len() == 0 {
            let r: Vec<SmilNode> = Vec::new();
            assert(smil_views(r@) =~= Seq::<SmilNodeV>::empty()) by {
                assert(r@ =~= Seq::<SmilNode>::empty());
            }
            return r;
        }
        let ghost before = stack@;
        while stack.len() > 1
            invariant
                stack@.len() >= 1,
                stack@[0] == before[0],
            decreases stack@.len(),
        {
            stack.pop();
        }
        let root = stack.pop().unwrap();
        root.children
    }
}

/// The top-level nodes that the events of a SMIL file in directory `dir`
/// give (see [`smil_nodes`]).
pub fn smil_from_events(events: &[XmlEvent], dir: &str) -> (r: Vec<SmilNode>)
    ensures
        smil_views(r@) == smil_nodes(events@, dir@),
{
    let mut reader = SmilReader::new();
    let mut i: usize = 0;
    while i < events.len()
        invariant
            i <= events@.len(),
            reader.view() == smil_read(events@.take(i as int), dir@),
        decreases events@.len() - i,
    {
        proof {
            assert(events@.take(i + 1).drop_last() =~= events@.take(i as int));
            assert(events@.take(i + 1).last() == events@[i as int]);
        }
        reader.step(&events[i], dir);
        i = i + 1;
    }
    assert(events@.take(i as int) =~= events@);
    reader.finish()
}

/// Reads the synchronisation structure of a SMIL file lying in `smil_dir`
/// (package-root-relative): an end tag that closes nothing is let pass;
/// other malformed XML is an [`EpubError::Xml`] error.
pub fn parse_smil_structure(xml: &str, smil_dir: &str) -> (r: Result<Vec<SmilNode>, EpubError>)
    ensures
        r matches Ok(v) ==> exists|events: Seq<XmlEvent>|
            is_document(events) && smil_views(v@) == #[trigger] smil_nodes(events, smil_dir@),
        r matches Err(e) ==> e is Xml,
        match xml_doc(xml@, true) {
            (events, None) => r matches Ok(v) && smil_views(v@) == smil_nodes(events, smil_dir@),
            (_, Some(m)) => r matches Err(EpubError::Xml(x)) && x@ == m,
        },
{
    match xml_events_with(xml, true) {
        Ok(events) => {
            let v = smil_from_events(events.as_slice(), smil_dir);
            Ok(v)
        },
        Err(m) => Err(EpubError::Xml(m)),
    }
}

} // verus!
