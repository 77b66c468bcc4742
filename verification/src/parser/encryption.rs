//! `META-INF/encryption.xml`: which resources are obfuscated or encrypted.
use vstd::prelude::*;
use crate::model::{EncryptionInfo, ObfuscationAlgorithm};
use crate::path::{percent_decoded, percent_decode_lossy};
use crate::provider::EpubProvider;
use crate::parser::container::{decode_text, text_of, opt_str};
use crate::text::{chars_of, eq_str, ends_with, has_suffix, parse_u64_text, u64_text_value};
use crate::xml::{XmlEvent, XmlTag, xml_events_until_fault, get_last_attr, last_attr_value, xml_doc};

verus! {

/// The algorithm an `EncryptionMethod` URI names.
pub open spec fn algorithm_of_uri(uri: Seq<char>) -> ObfuscationAlgorithm {
    if uri == "http://www.idpf.org/2008/embedding"@ {
        ObfuscationAlgorithm::Idpf
    } else if uri == "http://ns.adobe.com/pdf/enc#RC"@ {
        ObfuscationAlgorithm::Adobe
    } else if uri == "http://www.w3.org/2001/04/xmlenc#aes128-cbc"@ || uri
        == "http://www.w3.org/2001/04/xmlenc#aes192-cbc"@ || uri
        == "http://www.w3.org/2001/04/xmlenc#aes256-cbc"@ {
        ObfuscationAlgorithm::AesCbc
    } else {
        ObfuscationAlgorithm::Unknown
    }
}

/// Each `EncryptionMethod` URI names its own algorithm: the IDPF font
/// obfuscation exactly for `http://www.idpf.org/2008/embedding`, the Adobe
/// font obfuscation exactly for `http://ns.adobe.com/pdf/enc#RC`, AES-CBC
/// exactly for the three XML-Encryption AES-CBC URIs, and every other URI
/// an unknown algorithm.
pub proof fn law_algorithm_uris(uri: Seq<char>)
    ensures
        algorithm_of_uri(uri) == ObfuscationAlgorithm::Idpf <==> uri == "http://www.idpf.org/2008/embedding"@,
        algorithm_of_uri(uri) == ObfuscationAlgorithm::Adobe <==> uri == "http://ns.adobe.com/pdf/enc#RC"@,
        algorithm_of_uri(uri) == ObfuscationAlgorithm::AesCbc <==> (uri == "http://www.w3.org/2001/04/xmlenc#aes128-cbc"@
            || uri == "http://www.w3.org/2001/04/xmlenc#aes192-cbc"@ || uri
            == "http://www.w3.org/2001/04/xmlenc#aes256-cbc"@),
{
    reveal_strlit("http://www.idpf.org/2008/embedding");
    reveal_strlit("http://ns.adobe.com/pdf/enc#RC");
    reveal_strlit("http://www.w3.org/2001/04/xmlenc#aes128-cbc");
    reveal_strlit("http://www.w3.org/2001/04/xmlenc#aes192-cbc");
    reveal_strlit("http://www.w3.org/2001/04/xmlenc#aes256-cbc");
    assert("http://www.idpf.org/2008/embedding"@[7] != "http://ns.adobe.com/pdf/enc#RC"@[7]);
    assert("http://www.idpf.org/2008/embedding"@[11] != "http://www.w3.org/2001/04/xmlenc#aes128-cbc"@[11]);
    assert("http://ns.adobe.com/pdf/enc#RC"@[7] != "http://www.w3.org/2001/04/xmlenc#aes128-cbc"@[7]);
    assert("http://www.idpf.org/2008/embedding"@[11] != "http://www.w3.org/2001/04/xmlenc#aes192-cbc"@[11]);
    assert("http://ns.adobe.com/pdf/enc#RC"@[7] != "http://www.w3.org/2001/04/xmlenc#aes192-cbc"@[7]);
    assert("http://www.idpf.org/2008/embedding"@[11] != "http://www.w3.org/2001/04/xmlenc#aes256-cbc"@[11]);
    assert("http://ns.adobe.com/pdf/enc#RC"@[7] != "http://www.w3.org/2001/04/xmlenc#aes256-cbc"@[7]);
}

/// The resources whose `EncryptionMethod` URI is the IDPF or the Adobe font
/// obfuscation one, and no others, count as obfuscated fonts.
pub proof fn law_font_obfuscation_uris(info: EncryptionInfo, uri: Seq<char>)
    requires
        info.algorithm == algorithm_of_uri(uri),
    ensures
        (info.algorithm is Idpf || info.algorithm is Adobe) <==> (uri == "http://www.idpf.org/2008/embedding"@ || uri
            == "http://ns.adobe.com/pdf/enc#RC"@),
{
    law_algorithm_uris(uri);
}

impl ObfuscationAlgorithm {
    /// The algorithm an `EncryptionMethod` URI names (see [`algorithm_of_uri`]).
    pub fn from_algorithm_uri(uri: &str) -> (r: ObfuscationAlgorithm)
        ensures
            r == algorithm_of_uri(uri@),
    {
        let u = chars_of(uri);
        if eq_str(&u, "http://www.idpf.org/2008/embedding") {
            ObfuscationAlgorithm::Idpf
        } else if eq_str(&u, "http://ns.adobe.com/pdf/enc#RC") {
            ObfuscationAlgorithm::Adobe
        } else if eq_str(&u, "http://www.w3.org/2001/04/xmlenc#aes128-cbc") || eq_str(
            &u,
            "http://www.w3.org/2001/04/xmlenc#aes192-cbc",
        ) || eq_str(&u, "http://www.w3.org/2001/04/xmlenc#aes256-cbc") {
            ObfuscationAlgorithm::AesCbc
        } else {
            ObfuscationAlgorithm::Unknown
        }
    }
}

impl EncryptionInfo {
    /// The font obfuscation applied to the resource, if it is one.
    pub fn font_obfuscation(&self) -> (r: Option<ObfuscationAlgorithm>)
        ensures
            r == (match self.algorithm {
                ObfuscationAlgorithm::Idpf => Some(ObfuscationAlgorithm::Idpf),
                ObfuscationAlgorithm::Adobe => Some(ObfuscationAlgorithm::Adobe),
                _ => None,
            }),
    {
        match self.algorithm {
            ObfuscationAlgorithm::Idpf => Some(ObfuscationAlgorithm::Idpf),
            ObfuscationAlgorithm::Adobe => Some(ObfuscationAlgorithm::Adobe),
            _ => None,
        }
    }
}

/// What has been read of the `EncryptedData` element being read.
pub struct EncryptionDraft {
    /// The `Algorithm` of its `EncryptionMethod`.
    pub algorithm_uri: Option<String>,
    /// The decoded `URI` of its `CipherReference`.
    pub uri: Option<String>,
    /// The `OriginalLength` of its `Compression`.
    pub original_length: Option<u64>,
}

/// The view of a draft: (algorithm URI, resource URI, original length).
pub open spec fn draft_view(d: EncryptionDraft) -> (Option<Seq<char>>, Option<Seq<char>>, Option<u64>) {
    (opt_str(d.algorithm_uri), opt_str(d.uri), d.original_length)
}

/// The draft after one more tag: the last `Algorithm`, `URI` and
/// `OriginalLength` attributes of the matching elements win; an
/// `OriginalLength` that is not a number clears the length.
pub open spec fn draft_after_tag(
    d: (Option<Seq<char>>, Option<Seq<char>>, Option<u64>),
    t: XmlTag,
) -> (Option<Seq<char>>, Option<Seq<char>>, Option<u64>) {
    let n = t.attrs@.len() as int;
    if ends_with(t.name@, "EncryptionMethod"@) {
        match last_attr_value(t.attrs@, "Algorithm"@, n) {
            Some(a) => (Some(a), d.1, d.2),
            None => d,
        }
    } else if ends_with(t.name@, "CipherReference"@) {
        match last_attr_value(t.attrs@, "URI"@, n) {
            Some(u) => (d.0, Some(percent_decoded(u)), d.2),
            None => d,
        }
    } else if ends_with(t.name@, "Compression"@) {
        match last_attr_value(t.attrs@, "OriginalLength"@, n) {
            Some(l) => (d.0, d.1, u64_text_value(l)),
            None => d,
        }
    } else {
        d
    }
}

/// A recorded entry: (resource URI, algorithm, algorithm URI, original length).
pub type EncryptionEntryView = (Seq<char>, ObfuscationAlgorithm, Option<Seq<char>>, Option<u64>);

/// The position of the first entry with key `key`, from `from` on.
pub open spec fn key_index(table: Seq<EncryptionEntryView>, key: Seq<char>, from: int) -> Option<int>
    decreases table.len() - from,
{
    if from < 0 || from >= table.len() {
        None
    } else if table[from].0 == key {
        Some(from)
    } else {
        key_index(table, key, from + 1)
    }
}

/// The table with an entry for `e`'s key: the entry replaced when the key
/// is already there, else appended.
pub open spec fn table_insert(table: Seq<EncryptionEntryView>, e: EncryptionEntryView) -> Seq<EncryptionEntryView> {
    match key_index(table, e.0, 0) {
        Some(k) => table.update(k, e),
        None => table.push(e),
    }
}

/// The state of the reading of `encryption.xml` after `events`: the table
/// so far, and the draft of the current `EncryptedData`.  At the end of an
/// `EncryptedData` with a resource URI, an entry is recorded when an
/// algorithm or an original length was given; the draft is then cleared.
pub open spec fn encryption_state(events: Seq<XmlEvent>) -> (
    Seq<EncryptionEntryView>,
    (Option<Seq<char>>, Option<Seq<char>>, Option<u64>),
)
    decreases events.len(),
{
    if events.len() == 0 {
        (Seq::empty(), (None, None, None))
    } else {
        let (table, d) = encryption_state(events.drop_last());
        match events.last() {
            XmlEvent::Start(t) | XmlEvent::Empty(t) => (table, draft_after_tag(d, t)),
            XmlEvent::End(name) => if ends_with(name@, "EncryptedData"@) {
                match d.1 {
                    Some(uri) => if d.0 is Some || d.2 is Some {
                        (
                            table_insert(
                                table,
                                (
                                    uri,
                                    match d.0 {
                                        Some(a) => algorithm_of_uri(a),
                                        None => ObfuscationAlgorithm::Unknown,
                                    },
                                    d.0,
                                    d.2,
                                ),
                            ),
                            (None, None, None),
                        )
                    } else {
                        (table, (None, None, None))
                    },
                    None => (table, (None, None, None)),
                }
            } else {
                (table, d)
            },
            _ => (table, d),
        }
    }
}

/// The entry views of a table.
pub open spec fn table_view(t: Seq<(String, EncryptionInfo)>) -> Seq<EncryptionEntryView> {
    t.map_values(
        |e: (String, EncryptionInfo)|
            (e.0@, e.1.algorithm, opt_str(e.1.algorithm_uri), e.1.original_length),
    )
}

fn apply_tag(d: &mut EncryptionDraft, t: &XmlTag)
    ensures
        draft_view(*final(d)) == draft_after_tag(draft_view(*old(d)), *t),
{
    let name = chars_of(t.name.as_str());
    if has_suffix(&name, "EncryptionMethod") {
        match get_last_attr(&t.attrs, "Algorithm") {
            Some(a) => d.algorithm_uri = Some(a),
            None => {},
        }
    } else if has_suffix(&name, "CipherReference") {
        match get_last_attr(&t.attrs, "URI") {
            Some(u) => d.uri = Some(percent_decode_lossy(u.as_str())),
            None => {},
        }
    } else if has_suffix(&name, "Compression") {
        match get_last_attr(&t.attrs, "OriginalLength") {
            Some(l) => d.original_length = parse_u64_text(&chars_of(l.as_str())),
            None => {},
        }
    }
}

fn insert_entry(table: &mut Vec<(String, EncryptionInfo)>, uri: String, info: EncryptionInfo)
    ensures
        table_view(final(table)@) == table_insert(
            table_view(old(table)@),
            (uri@, info.algorithm, opt_str(info.algorithm_uri), info.original_length),
        ),
{
    let ghost tv = table_view(table@);
    let ghost e = (uri@, info.algorithm, opt_str(info.algorithm_uri), info.original_length);
    let key = chars_of(uri.as_str());
    let mut i: usize = 0;
    while i < table.len()
        invariant
            i <= table@.len(),
            table@ == old(table)@,
            tv == table_view(table@),
            key@ == uri@,
            e == (uri@, info.algorithm, opt_str(info.algorithm_uri), info.original_length),
            key_index(tv, e.0, 0) == key_index(tv, e.0, i as int),
        decreases table@.len() - i,
    {
        if eq_str(&key, table[i].0.as_str()) {
            proof {
                assert(tv[i as int].0 == table@[i as int].0@);
                assert(key_index(tv, e.0, i as int) == Some(i as int));
            }
            table.set(i, (uri, info));
            assert(table_view(table@) =~= tv.update(i as int, e));
            return;
        }
        i = i + 1;
    }
    table.push((uri, info));
    assert(table_view(table@) =~= tv.push(e));
}

/// The resources that an `encryption.xml` document lists, with what it
/// says of each (see [`encryption_state`]), by decoded archive path.
pub fn encryptions_from_events(events: &[XmlEvent]) -> (r: Vec<(String, EncryptionInfo)>)
    ensures
        table_view(r@) == encryption_state(events@).0,
{
    let mut table: Vec<(String, EncryptionInfo)> = Vec::new();
    let mut d = EncryptionDraft { algorithm_uri: None, uri: None, original_length: None };
    let mut i: usize = 0;
    assert(table_view(table@) =~= Seq::<EncryptionEntryView>::empty());
    while i < events.len()
        invariant
            i <= events@.len(),
            (table_view(table@), draft_view(d)) == encryption_state(events@.take(i as int)),
        decreases events@.len() - i,
    {
        proof {
            assert(events@.take(i + 1).drop_last() =~= events@.take(i as int));
            assert(events@.take(i + 1).last() == events@[i as int]);
        }
        match &events[i] {
            XmlEvent::Start(t) | XmlEvent::Empty(t) => apply_tag(&mut d, t),
            XmlEvent::End(name) => {
                if has_suffix(&chars_of(name.as_str()), "EncryptedData") {
                    let old_d = d;
                    d = EncryptionDraft { algorithm_uri: None, uri: None, original_length: None };
                    match old_d.uri {
                        Some(uri) => {
                            if old_d.algorithm_uri.is_some() || old_d.original_length.is_some() {
                                let algorithm = match &old_d.algorithm_uri {
                                    Some(a) => ObfuscationAlgorithm::from_algorithm_uri(a.as_str()),
                                    None => ObfuscationAlgorithm::Unknown,
                                };
                                insert_entry(
                                    &mut table,
                                    uri,
                                    EncryptionInfo {
                                        algorithm,
                                        algorithm_uri: old_d.algorithm_uri,
                                        original_length: old_d.original_length,
                                    },
                                );
                            }
                        },
                        None => {},
                    }
                }
            },
            _ => {},
        }
        i = i + 1;
    }
    assert(events@.take(i as int) =~= events@);
    table
}

/// The table that the bytes `b` of an encryption document give: none when
/// they are not UTF-8 text; else the entries that the reader's events hold,
/// up to a fault if there is one.
pub open spec fn encryption_of_bytes(b: Seq<u8>) -> Seq<EncryptionEntryView> {
    match text_of(b) {
        None => Seq::empty(),
        Some(t) => encryption_state(xml_doc(t, false).0).0,
    }
}

/// The obfuscated or encrypted resources that the encryption document
/// `bytes` lists (see [`encryption_of_bytes`]).
pub fn encryption_from_bytes(bytes: Vec<u8>) -> (r: Vec<(String, EncryptionInfo)>)
    ensures
        table_view(r@) == encryption_of_bytes(bytes@),
{
    let text = match decode_text(bytes) {
        Some(t) => t,
        None => {
            let r: Vec<(String, EncryptionInfo)> = Vec::new();
            assert(table_view(r@) =~= Seq::<EncryptionEntryView>::empty());
            return r;
        },
    };
    let (events, _fault) = xml_events_until_fault(text.as_str(), false);
    encryptions_from_events(events.as_slice())
}

/// Reads `META-INF/encryption.xml` from the package: the obfuscated or
/// encrypted resources, by archive path.  A package without the file has
/// none; otherwise the table is what its bytes give (see
/// [`encryption_from_bytes`]).
pub fn parse_encryption<P: EpubProvider>(provider: &mut P) -> (r: Vec<(String, EncryptionInfo)>)
    ensures
        r@.len() == 0 || exists|b: Seq<u8>| table_view(r@) == #[trigger] encryption_of_bytes(b),
        exists|events: Seq<XmlEvent>| table_view(r@) == #[trigger] encryption_state(events).0,
{
    let bytes = match provider.read_file("META-INF/encryption.xml") {
        Ok(b) => b,
        Err(_) => {
            assert(table_view(Seq::empty()) == encryption_state(Seq::empty()).0);
            return Vec::new();
        },
    };
    let ghost b = bytes@;
    let r = encryption_from_bytes(bytes);
    proof {
        assert(table_view(r@) == encryption_of_bytes(b));
        match text_of(b) {
            None => {
                assert(table_view(r@) == encryption_state(Seq::empty()).0);
            },
            Some(t) => {
                assert(table_view(r@) == encryption_state(xml_doc(t, false).0).0);
            },
        }
    }
    r
}

} // verus!
