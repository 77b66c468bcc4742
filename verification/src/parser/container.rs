//! `META-INF/container.xml`: the renditions of the publication.
use vstd::prelude::*;
use vstd::utf8::{decode_utf8, encode_utf8, valid_utf8};
use crate::error::EpubError;
use crate::model::RenditionInfo;
use crate::provider::EpubProvider;
use crate::text::{chars_of, eq_str};
use crate::xml::{XmlEvent, xml_events, local_name, local_name_of, is_document, xml_doc};

verus! {

/// The value of the last attribute whose local name (after any prefix) is
/// `local`, among the first `n`.  Authoring tools write `rendition:layout`
/// without declaring the namespace, so the prefix is not looked at.
pub open spec fn last_local_attr(attrs: Seq<(String, String)>, local: Seq<char>, n: int) -> Option<
    Seq<char>,
>
    decreases n,
{
    if n <= 0 {
        None
    } else if local_name(attrs[n - 1].0@) == local {
        Some(attrs[n - 1].1@)
    } else {
        last_local_attr(attrs, local, n - 1)
    }
}

/// The characters of an optional string.
pub open spec fn opt_str(v: Option<String>) -> Option<Seq<char>> {
    match v {
        Some(s) => Some(s@),
        None => None,
    }
}

/// `r` is the rendition that a `rootfile` tag with attributes `attrs`
/// declares.
pub open spec fn rendition_describes(r: RenditionInfo, attrs: Seq<(String, String)>) -> bool {
    let n = attrs.len() as int;
    &&& r.opf_path@ == match last_local_attr(attrs, "full-path"@, n) {
        Some(v) => v,
        None => Seq::empty(),
    }
    &&& opt_str(r.layout) == last_local_attr(attrs, "layout"@, n)
    &&& opt_str(r.media) == last_local_attr(attrs, "media"@, n)
    &&& opt_str(r.language) == last_local_attr(attrs, "language"@, n)
    &&& opt_str(r.label) == last_local_attr(attrs, "label"@, n)
    &&& opt_str(r.access_mode) == last_local_attr(attrs, "accessMode"@, n)
}

/// The attributes of the `rootfile` tags among `events` that name a package
/// document (a non-empty `full-path`), in document order.
pub open spec fn rootfiles(events: Seq<XmlEvent>) -> Seq<Seq<(String, String)>>
    decreases events.len(),
{
    if events.len() == 0 {
        Seq::empty()
    } else {
        let prev = rootfiles(events.drop_last());
        match events.last() {
            XmlEvent::Start(t) | XmlEvent::Empty(t) => if t.name@ == "rootfile"@ && match last_local_attr(
                t.attrs@,
                "full-path"@,
                t.attrs@.len() as int,
            ) {
                Some(v) => v.len() > 0,
                None => false,
            } {
                prev.push(t.attrs@)
            } else {
                prev
            },
            _ => prev,
        }
    }
}

/// The message when no rendition is declared.
pub open spec fn no_rootfile_message() -> Seq<char> {
    "No rootfile full-path found in container.xml"@
}

proof fn lemma_rendition_keys_distinct()
    ensures
        "full-path"@ != "layout"@,
        "full-path"@ != "media"@,
        "full-path"@ != "language"@,
        "full-path"@ != "label"@,
        "full-path"@ != "accessMode"@,
        "layout"@ != "media"@,
        "layout"@ != "language"@,
        "layout"@ != "label"@,
        "layout"@ != "accessMode"@,
        "media"@ != "language"@,
        "media"@ != "label"@,
        "media"@ != "accessMode"@,
        "language"@ != "label"@,
        "language"@ != "accessMode"@,
        "label"@ != "accessMode"@,
{
    reveal_strlit("full-path");
    reveal_strlit("layout");
    reveal_strlit("media");
    reveal_strlit("language");
    reveal_strlit("label");
    reveal_strlit("accessMode");
    assert("full-path"@.len() == 9);
    assert("layout"@.len() == 6);
    assert("media"@.len() == 5);
    assert("language"@.len() == 8);
    assert("label"@.len() == 5);
    assert("accessMode"@.len() == 10);
    assert("media"@[0] != "label"@[0]);
}

fn rendition_of(attrs: &Vec<(String, String)>) -> (r: RenditionInfo)
    ensures
        rendition_describes(r, attrs@),
{
    let mut info = RenditionInfo {
        opf_path: String::new(),
        layout: None,
        language: None,
        label: None,
        media: None,
        access_mode: None,
    };
    let mut i: usize = 0;
    while i < attrs.len()
        invariant
            i <= attrs@.len(),
            info.opf_path@ == match last_local_attr(attrs@, "full-path"@, i as int) {
                Some(v) => v,
                None => Seq::empty(),
            },
            opt_str(info.layout) == last_local_attr(attrs@, "layout"@, i as int),
            opt_str(info.media) == last_local_attr(attrs@, "media"@, i as int),
            opt_str(info.language) == last_local_attr(attrs@, "language"@, i as int),
            opt_str(info.label) == last_local_attr(attrs@, "label"@, i as int),
            opt_str(info.access_mode) == last_local_attr(attrs@, "accessMode"@, i as int),
        decreases attrs@.len() - i,
    {
        let local = local_name_of(attrs[i].0.as_str());
        let val = attrs[i].1.clone();
        proof {
            lemma_rendition_keys_distinct();
        }
        if eq_str(&local, "full-path") {
            info.opf_path = val;
        } else if eq_str(&local, "layout") {
            info.layout = Some(val);
        } else if eq_str(&local, "media") {
            info.media = Some(val);
        } else if eq_str(&local, "language") {
            info.language = Some(val);
        } else if eq_str(&local, "label") {
            info.label = Some(val);
        } else if eq_str(&local, "accessMode") {
            info.access_mode = Some(val);
        }
        i = i + 1;
    }
    info
}

/// Whether `v` is what the container document read as `events` declares:
/// one rendition per `rootfile`, in document order.
pub open spec fn container_declares(events: Seq<XmlEvent>, v: Seq<RenditionInfo>) -> bool {
    &&& is_document(events)
    &&& rootfiles(events).len() > 0
    &&& v.len() == rootfiles(events).len()
    &&& forall|k: int| 0 <= k < v.len() ==> rendition_describes(#[trigger] v[k], rootfiles(events)[k])
}

/// The renditions that a container document declares, in document order;
/// refused when it declares none.
pub fn container_from_events(events: &[XmlEvent]) -> (r: Result<Vec<RenditionInfo>, EpubError>)
    ensures
        match r {
            Ok(v) => rootfiles(events@).len() > 0 && v@.len() == rootfiles(events@).len() && forall|k: int|
                0 <= k < v@.len() ==> rendition_describes(#[trigger] v@[k], rootfiles(events@)[k]),
            Err(EpubError::InvalidFormat(m)) => rootfiles(events@).len() == 0 && m@
                == no_rootfile_message(),
            Err(_) => false,
        },
{
    let mut out: Vec<RenditionInfo> = Vec::new();
    let mut i: usize = 0;
    while i < events.len()
        invariant
            i <= events@.len(),
            out@.len() == rootfiles(events@.take(i as int)).len(),
            forall|k: int|
                0 <= k < out@.len() ==> rendition_describes(
                    #[trigger] out@[k],
                    rootfiles(events@.take(i as int))[k],
                ),
        decreases events@.len() - i,
    {
        proof {
            assert(events@.take(i + 1).drop_last() =~= events@.take(i as int));
            assert(events@.take(i + 1).last() == events@[i as int]);
        }
        let ghost before = out@;
        match &events[i] {
            XmlEvent::Start(t) | XmlEvent::Empty(t) => {
                if eq_str(&chars_of(t.name.as_str()), "rootfile") {
                    let info = rendition_of(&t.attrs);
                    if chars_of(info.opf_path.as_str()).len() > 0 {
                        out.push(info);
                        proof {
                            assert forall|k: int| 0 <= k < out@.len() implies rendition_describes(
                                #[trigger] out@[k],
                                rootfiles(events@.take(i + 1))[k],
                            ) by {
                                if k < before.len() {
                                    assert(out@[k] == before[k]);
                                }
                            }
                        }
                    }
                }
            },
            _ => {},
        }
        i = i + 1;
    }
    assert(events@.take(i as int) =~= events@);
    if out.len() == 0 {
        Err(EpubError::InvalidFormat("No rootfile full-path found in container.xml".to_string()))
    } else {
        Ok(out)
    }
}

/// `String::from_utf8`: the text whose UTF-8 encoding `bytes` are, or
/// `None` when they are not valid UTF-8.
#[verifier::external_body]
pub(crate) fn utf8_text(bytes: Vec<u8>) -> (r: Option<String>)
    ensures
        match r {
            Some(s) => encode_utf8(s@) == bytes@,
            None => forall|s: Seq<char>| encode_utf8(s) != bytes@,
        },
{
    String::from_utf8(bytes).ok()
}

/// The text whose UTF-8 encoding `b` is, if any.
pub open spec fn text_of(b: Seq<u8>) -> Option<Seq<char>> {
    if valid_utf8(b) {
        Some(decode_utf8(b))
    } else {
        None
    }
}

/// The message for bytes that are not UTF-8 text.
pub open spec fn not_utf8_message() -> Seq<char> {
    "stream did not contain valid UTF-8"@
}

/// The text whose UTF-8 encoding `bytes` are (see [`text_of`]).
pub fn decode_text(bytes: Vec<u8>) -> (r: Option<String>)
    ensures
        match text_of(bytes@) {
            Some(t) => r matches Some(s) && s@ == t,
            None => r is None,
        },
{
    let ghost b = bytes@;
    let r = utf8_text(bytes);
    proof {
        match &r {
            Some(s) => {
                vstd::utf8::encode_utf8_valid_utf8(s@);
                vstd::utf8::encode_utf8_decode_utf8(s@);
            },
            None => {
                if valid_utf8(b) {
                    vstd::utf8::decode_utf8_encode_utf8(b);
                    assert(encode_utf8(decode_utf8(b)) == b);
                }
            },
        }
    }
    r
}

/// What the events of a container document give (see
/// [`container_from_events`]).
pub open spec fn container_events_result(events: Seq<XmlEvent>, r: Result<Vec<RenditionInfo>, EpubError>) -> bool {
    match r {
        Ok(v) => rootfiles(events).len() > 0 && v@.len() == rootfiles(events).len() && forall|k: int|
            0 <= k < v@.len() ==> rendition_describes(#[trigger] v@[k], rootfiles(events)[k]),
        Err(EpubError::InvalidFormat(m)) => rootfiles(events).len() == 0 && m@ == no_rootfile_message(),
        Err(_) => false,
    }
}

/// What the bytes `b` of a container document give: refused when they
/// are not UTF-8 text or not well-formed XML; else the renditions that
/// the reader's events declare.
pub open spec fn container_bytes_result(b: Seq<u8>, r: Result<Vec<RenditionInfo>, EpubError>) -> bool {
    match text_of(b) {
        None => r matches Err(EpubError::Io(m)) && m@ == not_utf8_message(),
        Some(t) => match xml_doc(t, false) {
            (events, None) => container_events_result(events, r),
            (_, Some(m)) => r matches Err(EpubError::Xml(x)) && x@ == m,
        },
    }
}

/// The renditions that the container document `bytes` declares (see
/// [`container_bytes_result`]).
pub fn container_from_bytes(bytes: Vec<u8>) -> (r: Result<Vec<RenditionInfo>, EpubError>)
    ensures
        container_bytes_result(bytes@, r),
        r matches Ok(v) ==> v@.len() > 0 && exists|events: Seq<XmlEvent>| #[trigger] container_declares(events, v@),
{
    let ghost b = bytes@;
    let text = match decode_text(bytes) {
        Some(t) => t,
        None => {
            let m = "stream did not contain valid UTF-8".to_string();
            proof {
                reveal_strlit("stream did not contain valid UTF-8");
            }
            return Err(EpubError::Io(m));
        },
    };
    let events = match xml_events(text.as_str()) {
        Ok(e) => e,
        Err(m) => return Err(EpubError::Xml(m)),
    };
    let r = container_from_events(events.as_slice());
    proof {
        if let Ok(v) = &r {
            assert(container_declares(events@, v@));
        }
    }
    r
}

/// Reads `META-INF/container.xml` from the package and returns every
/// declared rendition, in document order; the first is the default one.
/// A missing container is [`EpubError::MissingContainer`]; otherwise the
/// result is what its bytes give (see [`container_from_bytes`]).
pub fn parse_container<P: EpubProvider>(provider: &mut P) -> (r: Result<Vec<RenditionInfo>, EpubError>)
    ensures
        r matches Ok(v) ==> v@.len() > 0 && exists|events: Seq<XmlEvent>| #[trigger] container_declares(events, v@),
        r matches Err(EpubError::InvalidFormat(m)) ==> m@ == no_rootfile_message(),
        r is Err && !(r matches Err(EpubError::MissingContainer)) ==> exists|b: Seq<u8>|
            #[trigger] container_bytes_result(b, r),
        r is Ok ==> exists|b: Seq<u8>| #[trigger] container_bytes_result(b, r),
{
    let bytes = match provider.read_file("META-INF/container.xml") {
        Ok(b) => b,
        Err(_) => return Err(EpubError::MissingContainer),
    };
    let ghost b = bytes@;
    let r = container_from_bytes(bytes);
    assert(container_bytes_result(b, r));
    r
}

} // verus!
