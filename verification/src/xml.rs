//! XML documents of the package, as the library reads them: a sequence of
//! events (tags with their attributes, end tags, text), produced by the
//! `quick-xml` reader.
use vstd::prelude::*;
use quick_xml::events::{BytesStart, Event};
use crate::text::{chars_of, last_pos, lemma_last_pos, slice_chars, eq_chars, ends_with, has_suffix};

verus! {

/// A start or empty-element tag: its qualified name and its attributes
/// (qualified name, raw value), in document order.
#[derive(Clone, Debug)]
pub struct XmlTag {
    pub name: String,
    pub attrs: Vec<(String, String)>,
}

/// One event of an XML document.
#[derive(Clone, Debug)]
pub enum XmlEvent {
    /// `<name ...>`
    Start(XmlTag),
    /// `<name .../>`
    Empty(XmlTag),
    /// `</name>`
    End(String),
    /// Character data between tags (white space around it trimmed).
    Text(String),
    /// The end of the document.
    Eof,
    /// A comment, declaration, processing instruction, CDATA section or
    /// entity reference.
    Other,
}

#[verifier::external_type_specification]
#[verifier::external_body]
#[verifier::reject_recursive_types(R)]
pub struct ExXmlReader<R>(quick_xml::Reader<R>);

/// `quick_xml::Reader::from_str`, set to trim the white space around text
/// and, when `lenient`, to let an end tag close nothing.
#[verifier::external_body]
fn xml_reader<'a>(text: &'a str, lenient: bool) -> quick_xml::Reader<&'a [u8]> {
    let mut reader = quick_xml::Reader::from_str(text);
    reader.config_mut().trim_text(true);
    reader.config_mut().allow_unmatched_ends = lenient;
    reader
}

/// What the `k`-th call (from 0) of `read_event` gives on a reader made by
/// [`xml_reader`] from `text` and `lenient`: the event, its names and text
/// taken as strings, or the reader's error message.
pub uninterp spec fn xml_event_at(text: Seq<char>, lenient: bool, k: nat) -> Result<XmlEvent, Seq<char>>;

/// A reader over `text` together with what it was made from and how many
/// events it has given.
pub struct XmlCursor<'a> {
    reader: quick_xml::Reader<&'a [u8]>,
    text: Ghost<Seq<char>>,
    lenient: Ghost<bool>,
    given: Ghost<nat>,
}

impl<'a> XmlCursor<'a> {
    pub closed spec fn text(&self) -> Seq<char> {
        self.text@
    }

    pub closed spec fn lenient(&self) -> bool {
        self.lenient@
    }

    pub closed spec fn given(&self) -> nat {
        self.given@
    }

    /// A reader at the start of `text`.
    pub fn new(text: &'a str, lenient: bool) -> (c: Self)
        ensures
            c.text() == text@,
            c.lenient() == lenient,
            c.given() == 0,
    {
        XmlCursor { reader: xml_reader(text, lenient), text: Ghost(text@), lenient: Ghost(lenient), given: Ghost(0) }
    }
}

/// `quick_xml::Reader::read_event`: the next event of the document, its
/// tag names, attributes and text taken as strings; the reader's error as
/// its message.  It is the event numbered by how many came before.
#[verifier::external_body]
fn next_xml_event(c: &mut XmlCursor) -> (r: Result<XmlEvent, String>)
    ensures
        match xml_event_at(old(c).text(), old(c).lenient(), old(c).given()) {
            Ok(e) => r == Ok::<XmlEvent, String>(e),
            Err(m) => r matches Err(x) && x@ == m,
        },
        final(c).text() == old(c).text(),
        final(c).lenient() == old(c).lenient(),
        final(c).given() == old(c).given() + 1,
{
    let tag = |e: &BytesStart| XmlTag {
        name: e.name().as_ref().to_string(),
        attrs: e.attributes().flatten().map(|a| (a.key.as_ref().to_string(), a.value.to_string())).collect(),
    };
    Ok(match c.reader.read_event().map_err(|e| e.to_string())? {
        Event::Start(e) => XmlEvent::Start(tag(&e)),
        Event::Empty(e) => XmlEvent::Empty(tag(&e)),
        Event::End(e) => XmlEvent::End(e.name().as_ref().to_string()),
        Event::Text(t) => XmlEvent::Text(t.to_string()),
        Event::Eof => XmlEvent::Eof,
        _ => XmlEvent::Other,
    })
}

/// `events` is a whole document: it ends with its only `Eof`.
pub open spec fn is_document(events: Seq<XmlEvent>) -> bool {
    &&& events.len() > 0
    &&& events.last() is Eof
    &&& forall|i: int| 0 <= i < events.len() - 1 ==> !(#[trigger] events[i] is Eof)
}

/// The message when the reader does not reach the end.
pub open spec fn unended_message() -> Seq<char> {
    "XML document did not end"@
}

/// The events from the `k`-th on, for at most `fuel` reads: up to the end
/// (included), or up to a fault, with its message.
pub open spec fn read_from(text: Seq<char>, lenient: bool, k: nat, fuel: nat) -> (Seq<XmlEvent>, Option<Seq<char>>)
    decreases fuel,
{
    if fuel == 0 {
        (Seq::empty(), Some(unended_message()))
    } else {
        match xml_event_at(text, lenient, k) {
            Ok(XmlEvent::Eof) => (seq![XmlEvent::Eof], None),
            Ok(e) => {
                let rest = read_from(text, lenient, k + 1, (fuel - 1) as nat);
                (seq![e] + rest.0, rest.1)
            },
            Err(m) => (Seq::empty(), Some(m)),
        }
    }
}

/// The events of the XML document `text` as the reader gives them, and
/// the fault that stopped it, if any: every read but the last consumes
/// some of the text, so the reads are bounded by its length.
pub open spec fn xml_doc(text: Seq<char>, lenient: bool) -> (Seq<XmlEvent>, Option<Seq<char>>) {
    read_from(text, lenient, 0, text.len() + 1)
}

proof fn lemma_read_from_shape(text: Seq<char>, lenient: bool, k: nat, fuel: nat)
    ensures
        read_from(text, lenient, k, fuel).1 is None ==> is_document(read_from(text, lenient, k, fuel).0),
        forall|i: int|
            0 <= i < read_from(text, lenient, k, fuel).0.len() - 1 ==> !(#[trigger] read_from(
                text,
                lenient,
                k,
                fuel,
            ).0[i] is Eof),
    decreases fuel,
{
    if fuel > 0 {
        lemma_read_from_shape(text, lenient, k + 1, (fuel - 1) as nat);
        match xml_event_at(text, lenient, k) {
            Ok(XmlEvent::Eof) => {},
            Ok(e) => {
                let rest = read_from(text, lenient, k + 1, (fuel - 1) as nat);
                let all = seq![e] + rest.0;
                assert forall|i: int| 0 <= i < all.len() - 1 implies !(#[trigger] all[i] is Eof) by {
                    if i > 0 {
                        assert(all[i] == rest.0[i - 1]);
                    }
                }
                if rest.1 is None {
                    assert(all.last() == rest.0.last());
                }
            },
            Err(_) => {},
        }
    }
}

/// The events of an XML document up to its end (included) or up to a
/// fault, with the reader's message for the fault (see [`xml_doc`]); a
/// `lenient` reader lets an end tag close nothing.
pub fn xml_events_until_fault(text: &str, lenient: bool) -> (r: (Vec<XmlEvent>, Option<String>))
    ensures
        r.0@ == xml_doc(text@, lenient).0,
        opt_text(r.1) == xml_doc(text@, lenient).1,
        r.1 is None ==> is_document(r.0@),
        forall|i: int| 0 <= i < r.0@.len() - 1 ==> !(#[trigger] r.0@[i] is Eof),
{
    proof {
        lemma_read_from_shape(text@, lenient, 0, text@.len() + 1);
    }
    let mut reader = XmlCursor::new(text, lenient);
    let mut out: Vec<XmlEvent> = Vec::new();
    let budget: u128 = chars_of(text).len() as u128;
    let mut n: u128 = 0;
    while n <= budget
        invariant
            n <= budget + 1,
            budget <= usize::MAX,
            budget == text@.len(),
            reader.text() == text@,
            reader.lenient() == lenient,
            reader.given() == n,
            xml_doc(text@, lenient).0 == out@ + read_from(text@, lenient, n as nat, (budget + 1 - n) as nat).0,
            xml_doc(text@, lenient).1 == read_from(text@, lenient, n as nat, (budget + 1 - n) as nat).1,
        decreases budget + 1 - n,
    {
        let ghost fuel = (budget + 1 - n) as nat;
        match next_xml_event(&mut reader) {
            Ok(XmlEvent::Eof) => {
                let ghost before = out@;
                out.push(XmlEvent::Eof);
                assert(read_from(text@, lenient, n as nat, fuel).0 == seq![XmlEvent::Eof]);
                assert(out@ =~= before + seq![XmlEvent::Eof]);
                proof {
                    lemma_read_from_shape(text@, lenient, 0, text@.len() + 1);
                }
                return (out, None);
            },
            Ok(e) => {
                let ghost rest = read_from(text@, lenient, (n + 1) as nat, (fuel - 1) as nat);
                assert(read_from(text@, lenient, n as nat, fuel).0 == seq![e] + rest.0);
                let ghost before = out@;
                out.push(e);
                assert(before + (seq![e] + rest.0) =~= out@ + rest.0);
            },
            Err(m) => {
                proof {
                    lemma_read_from_shape(text@, lenient, 0, text@.len() + 1);
                    assert(out@ =~= xml_doc(text@, lenient).0);
                }
                return (out, Some(m));
            },
        }
        n = n + 1;
    }
    let m = "XML document did not end".to_string();
    proof {
        reveal_strlit("XML document did not end");
        lemma_read_from_shape(text@, lenient, 0, text@.len() + 1);
        assert(out@ =~= xml_doc(text@, lenient).0);
    }
    (out, Some(m))
}

/// An optional message as characters.
pub open spec fn opt_text(o: Option<String>) -> Option<Seq<char>> {
    match o {
        Some(s) => Some(s@),
        None => None,
    }
}

/// The read `d` as a result: its events when nothing stopped the reader,
/// else the fault's message.
pub open spec fn doc_result(d: (Seq<XmlEvent>, Option<Seq<char>>), r: Result<Vec<XmlEvent>, String>) -> bool {
    match d.1 {
        None => r matches Ok(v) && v@ == d.0,
        Some(m) => r matches Err(e) && e@ == m,
    }
}

/// The events of an XML document, up to and including its end; the
/// reader's message when the document is malformed.
pub fn xml_events(text: &str) -> (r: Result<Vec<XmlEvent>, String>)
    ensures
        r matches Ok(v) ==> is_document(v@),
        doc_result(xml_doc(text@, false), r),
{
    xml_events_with(text, false)
}

/// The events of an XML document (see [`xml_events_until_fault`]), up to
/// and including its end; the reader's message when it is malformed.
pub fn xml_events_with(text: &str, lenient: bool) -> (r: Result<Vec<XmlEvent>, String>)
    ensures
        r matches Ok(v) ==> is_document(v@),
        doc_result(xml_doc(text@, lenient), r),
{
    let (events, fault) = xml_events_until_fault(text, lenient);
    match fault {
        None => Ok(events),
        Some(m) => Err(m),
    }
}

// ── Names and attributes ─────────────────────────────────────────────────────

/// A qualified name without its prefix: the part after the last `:`.
pub open spec fn local_name(q: Seq<char>) -> Seq<char> {
    q.skip(last_pos(q, ':') + 1)
}

/// The part of a qualified name after its last `:`.
pub fn local_name_of(q: &str) -> (r: Vec<char>)
    ensures
        r@ == local_name(q@),
{
    let cs = chars_of(q);
    proof {
        lemma_last_pos(cs@, ':');
    }
    let n = cs.len();
    let from: usize = match crate::text::rfind_char(&cs, ':') {
        Some(i) => {
            assert(i < n);
            i + 1
        },
        None => 0,
    };
    let r = slice_chars(&cs, from, cs.len());
    assert(r@ =~= cs@.skip(last_pos(cs@, ':') + 1));
    r
}

/// The value of the first attribute named `key` (exactly), from `from` on.
pub open spec fn attr_value(attrs: Seq<(String, String)>, key: Seq<char>, from: int) -> Option<Seq<char>>
    decreases attrs.len() - from,
{
    if from < 0 || from >= attrs.len() {
        None
    } else if attrs[from].0@ == key {
        Some(attrs[from].1@)
    } else {
        attr_value(attrs, key, from + 1)
    }
}

/// The value of the first attribute named `key`.
pub fn get_attr(attrs: &Vec<(String, String)>, key: &str) -> (r: Option<String>)
    ensures
        match attr_value(attrs@, key@, 0) {
            Some(v) => r matches Some(s) && s@ == v,
            None => r is None,
        },
{
    let k = chars_of(key);
    let mut i: usize = 0;
    while i < attrs.len()
        invariant
            i <= attrs@.len(),
            k@ == key@,
            attr_value(attrs@, key@, 0) == attr_value(attrs@, key@, i as int),
        decreases attrs@.len() - i,
    {
        if eq_chars(&chars_of(attrs[i].0.as_str()), &k) {
            return Some(attrs[i].1.clone());
        }
        i = i + 1;
    }
    None
}

/// The value of the first attribute whose name ends with `suffix`.
pub open spec fn attr_value_by_suffix(attrs: Seq<(String, String)>, suffix: Seq<char>, from: int) -> Option<
    Seq<char>,
>
    decreases attrs.len() - from,
{
    if from < 0 || from >= attrs.len() {
        None
    } else if ends_with(attrs[from].0@, suffix) {
        Some(attrs[from].1@)
    } else {
        attr_value_by_suffix(attrs, suffix, from + 1)
    }
}

/// The value of the first attribute whose name ends with `suffix`.
pub fn get_attr_by_suffix(attrs: &Vec<(String, String)>, suffix: &str) -> (r: Option<String>)
    ensures
        match attr_value_by_suffix(attrs@, suffix@, 0) {
            Some(v) => r matches Some(s) && s@ == v,
            None => r is None,
        },
{
    let mut i: usize = 0;
    while i < attrs.len()
        invariant
            i <= attrs@.len(),
            attr_value_by_suffix(attrs@, suffix@, 0) == attr_value_by_suffix(attrs@, suffix@, i as int),
        decreases attrs@.len() - i,
    {
        if has_suffix(&chars_of(attrs[i].0.as_str()), suffix) {
            return Some(attrs[i].1.clone());
        }
        i = i + 1;
    }
    None
}

/// The value of the last attribute named `key` (exactly), among the first `n`.
pub open spec fn last_attr_value(attrs: Seq<(String, String)>, key: Seq<char>, n: int) -> Option<Seq<char>>
    decreases n,
{
    if n <= 0 {
        None
    } else if attrs[n - 1].0@ == key {
        Some(attrs[n - 1].1@)
    } else {
        last_attr_value(attrs, key, n - 1)
    }
}

/// The value of the last attribute named `key` (exactly).
pub fn get_last_attr(attrs: &Vec<(String, String)>, key: &str) -> (r: Option<String>)
    ensures
        match last_attr_value(attrs@, key@, attrs@.len() as int) {
            Some(v) => r matches Some(s) && s@ == v,
            None => r is None,
        },
{
    let mut found: Option<String> = None;
    let mut i: usize = 0;
    while i < attrs.len()
        invariant
            i <= attrs@.len(),
            match last_attr_value(attrs@, key@, i as int) {
                Some(v) => found matches Some(s) && s@ == v,
                None => found is None,
            },
        decreases attrs@.len() - i,
    {
        if crate::text::eq_str(&chars_of(attrs[i].0.as_str()), key) {
            found = Some(attrs[i].1.clone());
        }
        i = i + 1;
    }
    found
}

} // verus!
