//! The package document (`*.opf`): metadata, manifest, spine and guide.
//!
//! The document is read as a stream of XML events by a small state machine
//! ([`OpfReader`]); refinements (`<meta refines="#id">`) may come after the
//! element they refine, so they are applied once the whole document has been
//! read ([`OpfReader::finish`]).
use vstd::prelude::*;
use crate::a11y::{is_a11y_property, is_a11y_property_spec};
use crate::parser::accessibility::{build_accessibility, accessibility_of, says_nothing};
use crate::model::{
    AltIdentifier, BelongsTo, Creator, EpubBook, GuideReference, LayoutType, ManifestItem, Metadata,
    PageSpread, ReadingProgression, SpineItem, TitleEntry,
};
use crate::parser::container::opt_str;
use crate::path::{percent_decoded, percent_decode_lossy, resolve_href, resolve_href_spec, parent_dir, parent_dir_spec};
use crate::error::EpubError;
use crate::provider::EpubProvider;
use crate::parser::container::{decode_text, text_of, not_utf8_message};
use crate::xml::{xml_events, xml_doc};
use crate::text::{
    chars_of, contains_chars, contains_seq, ends_with, eq_str, has_suffix, lit, split_whitespace_chars,
    string_from_chars, trim_chars, trim_spec, ws_tokens, parse_u32_text, u32_text_value, slice_chars,
    starts_with,
};
use crate::xml::{XmlEvent, XmlTag, attr_value, attr_value_by_suffix, get_attr, get_attr_by_suffix, last_attr_value};

verus! {

// ── Views ────────────────────────────────────────────────────────────────────

/// What the reader expects the next text to be.
pub enum OpfStateV {
    /// No text is expected.
    Idle,
    Title,
    Subtitle,
    Creator(Option<Seq<char>>),
    Contributor(Option<Seq<char>>),
    Language,
    Identifier(Option<Seq<char>>, Option<Seq<char>>),
    Publisher,
    Description,
    Date,
    Modified,
    Rights,
    Subject,
    /// `(refined id, property, own id)`
    MetaRefines(Seq<char>, Seq<char>, Option<Seq<char>>),
    /// `(property, own id)`
    MetaGlobal(Seq<char>, Option<Seq<char>>),
}

/// What the reader expects the next text to be.
pub enum OpfState {
    /// No text is expected.
    Idle,
    Title,
    Subtitle,
    Creator(Option<String>),
    Contributor(Option<String>),
    Language,
    Identifier(Option<String>, Option<String>),
    Publisher,
    Description,
    Date,
    Modified,
    Rights,
    Subject,
    MetaRefines(String, String, Option<String>),
    MetaGlobal(String, Option<String>),
}

pub open spec fn state_view(s: OpfState) -> OpfStateV {
    match s {
        OpfState::Idle => OpfStateV::Idle,
        OpfState::Title => OpfStateV::Title,
        OpfState::Subtitle => OpfStateV::Subtitle,
        OpfState::Creator(i) => OpfStateV::Creator(opt_str(i)),
        OpfState::Contributor(i) => OpfStateV::Contributor(opt_str(i)),
        OpfState::Language => OpfStateV::Language,
        OpfState::Identifier(i, sc) => OpfStateV::Identifier(opt_str(i), opt_str(sc)),
        OpfState::Publisher => OpfStateV::Publisher,
        OpfState::Description => OpfStateV::Description,
        OpfState::Date => OpfStateV::Date,
        OpfState::Modified => OpfStateV::Modified,
        OpfState::Rights => OpfStateV::Rights,
        OpfState::Subject => OpfStateV::Subject,
        OpfState::MetaRefines(r, p, i) => OpfStateV::MetaRefines(r@, p@, opt_str(i)),
        OpfState::MetaGlobal(p, i) => OpfStateV::MetaGlobal(p@, opt_str(i)),
    }
}

/// A `dc:title` as read: (own id, language, text, marked as a subtitle inline).
pub type RawTitleV = (Option<Seq<char>>, Option<Seq<char>>, Seq<char>, bool);

/// A `dc:identifier` as read: (own id, scheme, trimmed value).
pub type RawIdentifierV = (Option<Seq<char>>, Option<Seq<char>>, Seq<char>);

/// A manifest item: (id, decoded href, media type, properties, media overlay).
pub type ManifestItemV = (Seq<char>, Seq<char>, Seq<char>, Seq<Seq<char>>, Option<Seq<char>>);

/// A spine item: (idref, linear, layout override, page spread).
pub type SpineItemV = (Seq<char>, bool, Option<LayoutType>, Option<PageSpread>);

/// A guide reference: (type, package-root-relative href, title).
pub type GuideReferenceV = (Seq<char>, Seq<char>, Option<Seq<char>>);

/// An accessibility `<meta>`: (property, text, own id, refined id).
pub type A11yMetaV = (Seq<char>, Seq<char>, Option<Seq<char>>, Option<Seq<char>>);

/// A refinement: (refined id, property, value).
pub type RefinementV = (Seq<char>, Seq<char>, Seq<char>);

/// Everything the reader has gathered.
pub struct OpfV {
    pub in_metadata: bool,
    pub state: OpfStateV,
    pub title_id: Option<Seq<char>>,
    pub title_lang: Option<Seq<char>>,
    pub unique_id_ref: Option<Seq<char>>,
    pub toc_id: Option<Seq<char>>,
    pub rtl: bool,
    pub cover_id: Option<Seq<char>>,
    pub manifest: Seq<ManifestItemV>,
    pub spine: Seq<SpineItemV>,
    pub guide: Seq<GuideReferenceV>,
    pub titles: Seq<RawTitleV>,
    pub first_title: Option<Seq<char>>,
    pub subtitle: Option<Seq<char>>,
    /// (name, own id)
    pub creators: Seq<(Seq<char>, Option<Seq<char>>)>,
    pub languages: Seq<Seq<char>>,
    pub identifiers: Seq<RawIdentifierV>,
    pub publisher: Option<Seq<char>>,
    pub description: Option<Seq<char>>,
    pub date: Option<Seq<char>>,
    pub modified: Option<Seq<char>>,
    pub rights: Option<Seq<char>>,
    pub subjects: Seq<Seq<char>>,
    pub layout: LayoutType,
    pub refinements: Seq<RefinementV>,
    /// (own id of the `belongs-to-collection` meta, name)
    pub collections: Seq<(Seq<char>, Seq<char>)>,
    pub a11y: Seq<A11yMetaV>,
}

/// The reader before the first event.
pub open spec fn opf_initial() -> OpfV {
    OpfV {
        in_metadata: false,
        state: OpfStateV::Idle,
        title_id: None,
        title_lang: None,
        unique_id_ref: None,
        toc_id: None,
        rtl: false,
        cover_id: None,
        manifest: Seq::empty(),
        spine: Seq::empty(),
        guide: Seq::empty(),
        titles: Seq::empty(),
        first_title: None,
        subtitle: None,
        creators: Seq::empty(),
        languages: Seq::empty(),
        identifiers: Seq::empty(),
        publisher: None,
        description: None,
        date: None,
        modified: None,
        rights: None,
        subjects: Seq::empty(),
        layout: LayoutType::Reflowable,
        refinements: Seq::empty(),
        collections: Seq::empty(),
        a11y: Seq::empty(),
    }
}

// ── Attributes ───────────────────────────────────────────────────────────────

/// The first `xml:lang` or `lang` attribute (from `from` on).
pub open spec fn lang_attr(attrs: Seq<(String, String)>, from: int) -> Option<Seq<char>>
    decreases attrs.len() - from,
{
    if from < 0 || from >= attrs.len() {
        None
    } else if attrs[from].0@ == "xml:lang"@ || attrs[from].0@ == "lang"@ {
        Some(attrs[from].1@)
    } else {
        lang_attr(attrs, from + 1)
    }
}

/// The last attribute named `key` among all of `attrs`.
pub open spec fn last_attr(attrs: Seq<(String, String)>, key: Seq<char>) -> Option<Seq<char>> {
    last_attr_value(attrs, key, attrs.len() as int)
}

/// The value of the last `refines` attribute that starts with `#`, without it.
pub open spec fn last_refines(attrs: Seq<(String, String)>, n: int) -> Option<Seq<char>>
    decreases n,
{
    if n <= 0 {
        None
    } else if attrs[n - 1].0@ == "refines"@ && starts_with(attrs[n - 1].1@, "#"@) {
        Some(attrs[n - 1].1@.skip(1))
    } else {
        last_refines(attrs, n - 1)
    }
}

/// Some attribute is `name="cover"`.
pub open spec fn names_cover(attrs: Seq<(String, String)>) -> bool {
    exists|k: int|
        0 <= k < attrs.len() && (#[trigger] attrs[k]).0@ == "name"@ && attrs[k].1@ == "cover"@
}

/// The cover id after an EPUB 2 `<meta name="cover" content="id"/>`.
pub open spec fn cover_after(cover_id: Option<Seq<char>>, attrs: Seq<(String, String)>) -> Option<Seq<char>> {
    if names_cover(attrs) && last_attr(attrs, "content"@) is Some {
        last_attr(attrs, "content"@)
    } else {
        cover_id
    }
}

/// An itemref's layout override from one `properties` value.
pub open spec fn layout_from_properties(v: Seq<char>, prev: Option<LayoutType>) -> Option<LayoutType> {
    if contains_seq(v, "rendition:layout-reflowable"@) {
        Some(LayoutType::Reflowable)
    } else if contains_seq(v, "rendition:layout-pre-paginated"@) {
        Some(LayoutType::PrePaginated)
    } else {
        prev
    }
}

/// An itemref's page spread from one `properties` value.
pub open spec fn spread_from_properties(v: Seq<char>, prev: Option<PageSpread>) -> Option<PageSpread> {
    if contains_seq(v, "page-spread-left"@) {
        Some(PageSpread::Left)
    } else if contains_seq(v, "page-spread-right"@) {
        Some(PageSpread::Right)
    } else if contains_seq(v, "rendition:page-spread-center"@) {
        Some(PageSpread::Center)
    } else {
        prev
    }
}

/// The layout override and page spread after the first `n` attributes of
/// an itemref (every `properties` attribute is read in turn).
pub open spec fn itemref_properties(attrs: Seq<(String, String)>, n: int) -> (Option<LayoutType>, Option<PageSpread>)
    decreases n,
{
    if n <= 0 {
        (None, None)
    } else {
        let prev = itemref_properties(attrs, n - 1);
        if attrs[n - 1].0@ == "properties"@ {
            (
                layout_from_properties(attrs[n - 1].1@, prev.0),
                spread_from_properties(attrs[n - 1].1@, prev.1),
            )
        } else {
            prev
        }
    }
}

proof fn lemma_itemref_spread_kept(attrs: Seq<(String, String)>, k: int, n: int)
    requires
        0 <= k < n <= attrs.len(),
        forall|j: int| k < j < attrs.len() ==> (#[trigger] attrs[j]).0@ != "properties"@,
    ensures
        itemref_properties(attrs, n) == itemref_properties(attrs, k + 1),
    decreases n,
{
    if n > k + 1 {
        lemma_itemref_spread_kept(attrs, k, n - 1);
    }
}

/// The page spread of a spine itemref is the one named by its last
/// `properties` attribute: `page-spread-left` gives Left; otherwise
/// `page-spread-right` gives Right; otherwise
/// `rendition:page-spread-center` gives Center.  Its layout override is
/// likewise reflowable for `rendition:layout-reflowable`, else pre-paginated
/// for `rendition:layout-pre-paginated`.
pub proof fn law_itemref_page_spread(attrs: Seq<(String, String)>, k: int)
    requires
        0 <= k < attrs.len(),
        attrs[k].0@ == "properties"@,
        forall|j: int| k < j < attrs.len() ==> (#[trigger] attrs[j]).0@ != "properties"@,
    ensures
        ({
            let v = attrs[k].1@;
            let spread = itemref_properties(attrs, attrs.len() as int).1;
            &&& contains_seq(v, "page-spread-left"@) ==> spread == Some(PageSpread::Left)
            &&& contains_seq(v, "page-spread-right"@) && !contains_seq(v, "page-spread-left"@) ==> spread == Some(
                PageSpread::Right,
            )
            &&& contains_seq(v, "rendition:page-spread-center"@) && !contains_seq(v, "page-spread-left"@)
                && !contains_seq(v, "page-spread-right"@) ==> spread == Some(PageSpread::Center)
        }),
        ({
            let v = attrs[k].1@;
            let layout = itemref_properties(attrs, attrs.len() as int).0;
            &&& contains_seq(v, "rendition:layout-reflowable"@) ==> layout == Some(LayoutType::Reflowable)
            &&& contains_seq(v, "rendition:layout-pre-paginated"@) && !contains_seq(v, "rendition:layout-reflowable"@)
                ==> layout == Some(LayoutType::PrePaginated)
        }),
{
    lemma_itemref_spread_kept(attrs, k, attrs.len() as int);
}

/// The position of the first manifest item with id `id`.
pub open spec fn manifest_id_index(m: Seq<ManifestItemV>, id: Seq<char>, from: int) -> Option<int>
    decreases m.len() - from,
{
    if from < 0 || from >= m.len() {
        None
    } else if m[from].0 == id {
        Some(from)
    } else {
        manifest_id_index(m, id, from + 1)
    }
}

/// The manifest with an item put under its id: it replaces an item with
/// the same id, else it is appended.
pub open spec fn manifest_insert(m: Seq<ManifestItemV>, item: ManifestItemV) -> Seq<ManifestItemV> {
    match manifest_id_index(m, item.0, 0) {
        Some(k) => m.update(k, item),
        None => m.push(item),
    }
}

// ── One event ────────────────────────────────────────────────────────────────

/// The state after a start tag.
pub open spec fn opf_start(v: OpfV, t: XmlTag) -> OpfV {
    let name = t.name@;
    let attrs = t.attrs@;
    if ends_with(name, "metadata"@) {
        OpfV { in_metadata: true, ..v }
    } else if name == "package"@ || ends_with(name, ":package"@) {
        match last_attr(attrs, "unique-identifier"@) {
            Some(u) => OpfV { unique_id_ref: Some(u), ..v },
            None => v,
        }
    } else if ends_with(name, "spine"@) {
        OpfV {
            toc_id: match last_attr(attrs, "toc"@) {
                Some(t) => Some(t),
                None => v.toc_id,
            },
            rtl: v.rtl || exists|k: int|
                0 <= k < attrs.len() && (#[trigger] attrs[k]).0@ == "page-progression-direction"@
                    && attrs[k].1@ == "rtl"@,
            ..v
        }
    } else if ends_with(name, "title"@) {
        OpfV {
            title_id: attr_value(attrs, "id"@, 0),
            title_lang: lang_attr(attrs, 0),
            state: if attr_value_by_suffix(attrs, "title-type"@, 0) == Some(
                "subtitle"@,
            ) {
                OpfStateV::Subtitle
            } else {
                OpfStateV::Title
            },
            ..v
        }
    } else if ends_with(name, "creator"@) {
        OpfV { state: OpfStateV::Creator(attr_value(attrs, "id"@, 0)), ..v }
    } else if ends_with(name, "contributor"@) {
        OpfV { state: OpfStateV::Contributor(attr_value(attrs, "id"@, 0)), ..v }
    } else if ends_with(name, "language"@) {
        OpfV { state: OpfStateV::Language, ..v }
    } else if ends_with(name, "identifier"@) {
        OpfV {
            state: OpfStateV::Identifier(
                attr_value(attrs, "id"@, 0),
                attr_value_by_suffix(attrs, "scheme"@, 0),
            ),
            ..v
        }
    } else if ends_with(name, "publisher"@) {
        OpfV { state: OpfStateV::Publisher, ..v }
    } else if ends_with(name, "description"@) {
        OpfV { state: OpfStateV::Description, ..v }
    } else if ends_with(name, "date"@) {
        OpfV {
            state: if attr_value_by_suffix(attrs, "event"@, 0) == Some(
                "modification"@,
            ) {
                OpfStateV::Modified
            } else {
                OpfStateV::Date
            },
            ..v
        }
    } else if ends_with(name, "rights"@) {
        OpfV { state: OpfStateV::Rights, ..v }
    } else if ends_with(name, "subject"@) {
        OpfV { state: OpfStateV::Subject, ..v }
    } else if ends_with(name, "meta"@) {
        let refines = last_refines(attrs, attrs.len() as int);
        let property = last_attr(attrs, "property"@);
        let own_id = last_attr(attrs, "id"@);
        let scheme = last_attr(attrs, "scheme"@);
        let refinements = if refines is Some && property == Some("identifier-type"@) && scheme is Some {
            v.refinements.push((refines->0, "identifier-type-scheme"@, scheme->0))
        } else {
            v.refinements
        };
        if refines is Some && property is Some {
            OpfV {
                refinements,
                state: OpfStateV::MetaRefines(refines->0, property->0, own_id),
                ..v
            }
        } else if property is Some {
            OpfV { refinements, state: OpfStateV::MetaGlobal(property->0, own_id), ..v }
        } else {
            OpfV { refinements, cover_id: cover_after(v.cover_id, attrs), ..v }
        }
    } else {
        v
    }
}

/// The manifest item an `<item/>` declares, when it has an id and an href.
pub open spec fn item_of(attrs: Seq<(String, String)>) -> Option<ManifestItemV> {
    let id = match last_attr(attrs, "id"@) {
        Some(x) => x,
        None => Seq::empty(),
    };
    let href = match last_attr(attrs, "href"@) {
        Some(h) => percent_decoded(h),
        None => Seq::empty(),
    };
    if id.len() > 0 && href.len() > 0 {
        Some(
            (
                id,
                href,
                match last_attr(attrs, "media-type"@) {
                    Some(m) => m,
                    None => Seq::empty(),
                },
                match last_attr(attrs, "properties"@) {
                    Some(p) => ws_tokens(p),
                    None => Seq::empty(),
                },
                last_attr(attrs, "media-overlay"@),
            ),
        )
    } else {
        None
    }
}

/// The spine item an `<itemref/>` declares, when it has an idref.
pub open spec fn itemref_of(attrs: Seq<(String, String)>) -> Option<SpineItemV> {
    match last_attr(attrs, "idref"@) {
        Some(idref) => if idref.len() > 0 {
            let props = itemref_properties(attrs, attrs.len() as int);
            Some(
                (
                    idref,
                    match last_attr(attrs, "linear"@) {
                        Some(l) => l != "no"@,
                        None => true,
                    },
                    props.0,
                    props.1,
                ),
            )
        } else {
            None
        },
        None => None,
    }
}

/// The guide reference a `<reference/>` declares, when it has a type and
/// an href; the href is decoded and resolved against the package directory.
pub open spec fn reference_of(opf_dir: Seq<char>, attrs: Seq<(String, String)>) -> Option<GuideReferenceV> {
    let ty = match last_attr(attrs, "type"@) {
        Some(x) => x,
        None => Seq::empty(),
    };
    let href = match last_attr(attrs, "href"@) {
        Some(h) => resolve_href_spec(opf_dir, percent_decoded(h)),
        None => Seq::empty(),
    };
    if ty.len() > 0 && href.len() > 0 {
        Some((ty, href, last_attr(attrs, "title"@)))
    } else {
        None
    }
}

/// The state after an empty-element tag.
pub open spec fn opf_empty(opf_dir: Seq<char>, v: OpfV, t: XmlTag) -> OpfV {
    let name = t.name@;
    let attrs = t.attrs@;
    if ends_with(name, "meta"@) && v.in_metadata {
        OpfV { cover_id: cover_after(v.cover_id, attrs), ..v }
    } else if ends_with(name, "item"@) {
        match item_of(attrs) {
            Some(it) => OpfV { manifest: manifest_insert(v.manifest, it), ..v },
            None => v,
        }
    } else if ends_with(name, "itemref"@) {
        match itemref_of(attrs) {
            Some(it) => OpfV { spine: v.spine.push(it), ..v },
            None => v,
        }
    } else if ends_with(name, "reference"@) {
        match reference_of(opf_dir, attrs) {
            Some(g) => OpfV { guide: v.guide.push(g), ..v },
            None => v,
        }
    } else {
        v
    }
}

/// What one non-blank text inside `<metadata>` adds, by state; the state
/// and the pending title id and language are then cleared (but for an
/// accessibility `<meta>` without `refines`, which clears only the state).
pub open spec fn opf_text_in_state(v: OpfV, text: Seq<char>) -> OpfV {
    let cleared = OpfV { state: OpfStateV::Idle, title_id: None, title_lang: None, ..v };
    match v.state {
        OpfStateV::Title => OpfV {
            titles: v.titles.push((v.title_id, v.title_lang, text, false)),
            first_title: if v.first_title is None {
                Some(text)
            } else {
                v.first_title
            },
            ..cleared
        },
        OpfStateV::Subtitle => OpfV {
            titles: v.titles.push((v.title_id, v.title_lang, text, true)),
            subtitle: Some(text),
            ..cleared
        },
        OpfStateV::Creator(id) => OpfV { creators: v.creators.push((text, id)), ..cleared },
        OpfStateV::Contributor(id) => OpfV { creators: v.creators.push((text, id)), ..cleared },
        OpfStateV::Language => OpfV { languages: v.languages.push(text), ..cleared },
        OpfStateV::Identifier(id, scheme) => if trim_spec(text).len() > 0 {
            OpfV { identifiers: v.identifiers.push((id, scheme, trim_spec(text))), ..cleared }
        } else {
            cleared
        },
        OpfStateV::Publisher => OpfV { publisher: Some(text), ..cleared },
        OpfStateV::Description => OpfV { description: Some(text), ..cleared },
        OpfStateV::Date => OpfV { date: Some(text), ..cleared },
        OpfStateV::Modified => OpfV { modified: Some(text), ..cleared },
        OpfStateV::Rights => OpfV { rights: Some(text), ..cleared },
        OpfStateV::Subject => OpfV { subjects: v.subjects.push(text), ..cleared },
        OpfStateV::MetaRefines(r, p, own) => if is_a11y_property_spec(p) {
            OpfV { a11y: v.a11y.push((p, text, own, Some(r))), ..cleared }
        } else {
            OpfV { refinements: v.refinements.push((r, p, text)), ..cleared }
        },
        OpfStateV::MetaGlobal(p, own) => if p == "rendition:layout"@ {
            OpfV {
                layout: if text == "pre-paginated"@ {
                    LayoutType::PrePaginated
                } else {
                    LayoutType::Reflowable
                },
                ..cleared
            }
        } else if p == "dcterms:modified"@ {
            OpfV { modified: Some(text), ..cleared }
        } else if p == "belongs-to-collection"@ {
            match own {
                Some(id) => OpfV { collections: v.collections.push((id, text)), ..cleared },
                None => cleared,
            }
        } else if is_a11y_property_spec(p) {
            OpfV { a11y: v.a11y.push((p, text, own, None)), state: OpfStateV::Idle, ..v }
        } else {
            cleared
        },
        OpfStateV::Idle => cleared,
    }
}

/// The state after one event of the package document in `opf_dir`.
pub open spec fn opf_step(opf_dir: Seq<char>, v: OpfV, e: XmlEvent) -> OpfV {
    match e {
        XmlEvent::Start(t) => opf_start(v, t),
        XmlEvent::Empty(t) => opf_empty(opf_dir, v, t),
        XmlEvent::Text(text) => if v.in_metadata && trim_spec(text@).len() > 0 {
            opf_text_in_state(v, text@)
        } else {
            v
        },
        XmlEvent::End(name) => OpfV {
            in_metadata: if ends_with(name@, "metadata"@) {
                false
            } else {
                v.in_metadata
            },
            state: OpfStateV::Idle,
            ..v
        },
        _ => v,
    }
}

/// The state after the events.
pub open spec fn opf_read(opf_dir: Seq<char>, events: Seq<XmlEvent>) -> OpfV
    decreases events.len(),
{
    if events.len() == 0 {
        opf_initial()
    } else {
        opf_step(opf_dir, opf_read(opf_dir, events.drop_last()), events.last())
    }
}

// ── The reader ───────────────────────────────────────────────────────────────

/// A `dc:title` as read.
pub struct RawTitle {
    pub id: Option<String>,
    pub lang: Option<String>,
    pub text: String,
    /// Marked as a subtitle by the EPUB 2 `opf:title-type` attribute.
    pub epub2_subtitle: bool,
}

/// A `dc:identifier` as read.
pub struct RawIdentifier {
    pub id: Option<String>,
    pub scheme: Option<String>,
    pub value: String,
}

/// An accessibility `<meta>` as read; `refines` relationships are resolved
/// once the document has been read.
#[derive(Clone, Debug)]
pub struct RawA11yMeta {
    /// The property as written, e.g. `schema:accessMode`.
    pub property: String,
    pub value: String,
    /// The element's own id.
    pub id: Option<String>,
    /// The id it refines, without `#`.
    pub refines: Option<String>,
}

pub open spec fn manifest_view(m: Seq<ManifestItem>) -> Seq<ManifestItemV> {
    m.map_values(
        |i: ManifestItem|
            (i.id@, i.href@, i.media_type@, i.properties@.map_values(|p: String| p@), opt_str(i.media_overlay)),
    )
}

pub open spec fn spine_view(s: Seq<SpineItem>) -> Seq<SpineItemV> {
    s.map_values(|i: SpineItem| (i.idref@, i.linear, i.layout_override, i.page_spread))
}

pub open spec fn guide_view(g: Seq<GuideReference>) -> Seq<GuideReferenceV> {
    g.map_values(|r: GuideReference| (r.ref_type@, r.href@, opt_str(r.title)))
}

pub open spec fn titles_view(t: Seq<RawTitle>) -> Seq<RawTitleV> {
    t.map_values(|r: RawTitle| (opt_str(r.id), opt_str(r.lang), r.text@, r.epub2_subtitle))
}

pub open spec fn identifiers_view(t: Seq<RawIdentifier>) -> Seq<RawIdentifierV> {
    t.map_values(|r: RawIdentifier| (opt_str(r.id), opt_str(r.scheme), r.value@))
}

pub open spec fn a11y_view(t: Seq<RawA11yMeta>) -> Seq<A11yMetaV> {
    t.map_values(|r: RawA11yMeta| (r.property@, r.value@, opt_str(r.id), opt_str(r.refines)))
}

pub open spec fn strings_view(t: Seq<String>) -> Seq<Seq<char>> {
    t.map_values(|s: String| s@)
}

pub open spec fn named_view(t: Seq<(String, Option<String>)>) -> Seq<(Seq<char>, Option<Seq<char>>)> {
    t.map_values(|p: (String, Option<String>)| (p.0@, opt_str(p.1)))
}

pub open spec fn pairs_view(t: Seq<(String, String)>) -> Seq<(Seq<char>, Seq<char>)> {
    t.map_values(|p: (String, String)| (p.0@, p.1@))
}

pub open spec fn triples_view(t: Seq<(String, String, String)>) -> Seq<RefinementV> {
    t.map_values(|p: (String, String, String)| (p.0@, p.1@, p.2@))
}

/// Reads a package document one event at a time.
pub struct OpfReader {
    in_metadata: bool,
    state: OpfState,
    title_id: Option<String>,
    title_lang: Option<String>,
    unique_id_ref: Option<String>,
    toc_id: Option<String>,
    rtl: bool,
    cover_id: Option<String>,
    manifest: Vec<ManifestItem>,
    spine: Vec<SpineItem>,
    guide: Vec<GuideReference>,
    titles: Vec<RawTitle>,
    first_title: Option<String>,
    subtitle: Option<String>,
    creators: Vec<(String, Option<String>)>,
    languages: Vec<String>,
    identifiers: Vec<RawIdentifier>,
    publisher: Option<String>,
    description: Option<String>,
    date: Option<String>,
    modified: Option<String>,
    rights: Option<String>,
    subjects: Vec<String>,
    layout: LayoutType,
    refinements: Vec<(String, String, String)>,
    collections: Vec<(String, String)>,
    a11y: Vec<RawA11yMeta>,
}

fn clone_opt(v: &Option<String>) -> (r: Option<String>)
    ensures
        opt_str(r) == opt_str(*v),
{
    match v {
        Some(s) => Some(s.clone()),
        None => None,
    }
}

fn lang_attr_exec(attrs: &Vec<(String, String)>) -> (r: Option<String>)
    ensures
        opt_str(r) == lang_attr(attrs@, 0),
{
    let mut i: usize = 0;
    while i < attrs.len()
        invariant
            i <= attrs@.len(),
            lang_attr(attrs@, 0) == lang_attr(attrs@, i as int),
        decreases attrs@.len() - i,
    {
        let k = chars_of(attrs[i].0.as_str());
        if eq_str(&k, "xml:lang") || eq_str(&k, "lang") {
            return Some(attrs[i].1.clone());
        }
        i = i + 1;
    }
    None
}

fn last_refines_exec(attrs: &Vec<(String, String)>) -> (r: Option<String>)
    ensures
        opt_str(r) == last_refines(attrs@, attrs@.len() as int),
{
    let mut found: Option<String> = None;
    let mut i: usize = 0;
    while i < attrs.len()
        invariant
            i <= attrs@.len(),
            opt_str(found) == last_refines(attrs@, i as int),
        decreases attrs@.len() - i,
    {
        let v = chars_of(attrs[i].1.as_str());
        let is_refines = eq_str(&chars_of(attrs[i].0.as_str()), "refines");
        let hashed = crate::text::has_prefix(&v, "#");
        if is_refines && hashed {
            proof {
                reveal_strlit("#");
            }
            let rest = slice_chars(&v, 1, v.len());
            assert(rest@ =~= v@.skip(1));
            found = Some(string_from_chars(&rest));
        }
        i = i + 1;
    }
    found
}

fn names_cover_exec(attrs: &Vec<(String, String)>) -> (b: bool)
    ensures
        b == names_cover(attrs@),
{
    let mut i: usize = 0;
    while i < attrs.len()
        invariant
            i <= attrs@.len(),
            forall|k: int| 0 <= k < i ==> !((#[trigger] attrs@[k]).0@ == "name"@ && attrs@[k].1@ == "cover"@),
        decreases attrs@.len() - i,
    {
        if eq_str(&chars_of(attrs[i].0.as_str()), "name") && eq_str(&chars_of(attrs[i].1.as_str()), "cover") {
            return true;
        }
        i = i + 1;
    }
    false
}

fn names_rtl_exec(attrs: &Vec<(String, String)>) -> (b: bool)
    ensures
        b == exists|k: int|
            0 <= k < attrs@.len() && (#[trigger] attrs@[k]).0@ == "page-progression-direction"@
                && attrs@[k].1@ == "rtl"@,
{
    let mut i: usize = 0;
    while i < attrs.len()
        invariant
            i <= attrs@.len(),
            forall|k: int|
                0 <= k < i ==> !((#[trigger] attrs@[k]).0@ == "page-progression-direction"@ && attrs@[k].1@
                    == "rtl"@),
        decreases attrs@.len() - i,
    {
        if eq_str(&chars_of(attrs[i].0.as_str()), "page-progression-direction") && eq_str(
            &chars_of(attrs[i].1.as_str()),
            "rtl",
        ) {
            return true;
        }
        i = i + 1;
    }
    false
}

fn cover_after_exec(cover_id: &Option<String>, attrs: &Vec<(String, String)>) -> (r: Option<String>)
    ensures
        opt_str(r) == cover_after(opt_str(*cover_id), attrs@),
{
    let content = crate::xml::get_last_attr(attrs, "content");
    if names_cover_exec(attrs) && content.is_some() {
        content
    } else {
        clone_opt(cover_id)
    }
}

fn itemref_properties_exec(attrs: &Vec<(String, String)>) -> (r: (Option<LayoutType>, Option<PageSpread>))
    ensures
        r == itemref_properties(attrs@, attrs@.len() as int),
{
    let mut layout: Option<LayoutType> = None;
    let mut spread: Option<PageSpread> = None;
    let mut i: usize = 0;
    while i < attrs.len()
        invariant
            i <= attrs@.len(),
            (layout, spread) == itemref_properties(attrs@, i as int),
        decreases attrs@.len() - i,
    {
        if eq_str(&chars_of(attrs[i].0.as_str()), "properties") {
            let v = chars_of(attrs[i].1.as_str());
            if contains_chars(&v, &lit("rendition:layout-reflowable")) {
                layout = Some(LayoutType::Reflowable);
            } else if contains_chars(&v, &lit("rendition:layout-pre-paginated")) {
                layout = Some(LayoutType::PrePaginated);
            }
            if contains_chars(&v, &lit("page-spread-left")) {
                spread = Some(PageSpread::Left);
            } else if contains_chars(&v, &lit("page-spread-right")) {
                spread = Some(PageSpread::Right);
            } else if contains_chars(&v, &lit("rendition:page-spread-center")) {
                spread = Some(PageSpread::Center);
            }
        }
        i = i + 1;
    }
    (layout, spread)
}

fn manifest_insert_exec(m: &mut Vec<ManifestItem>, item: ManifestItem)
    ensures
        manifest_view(final(m)@) == manifest_insert(
            manifest_view(old(m)@),
            (
                item.id@,
                item.href@,
                item.media_type@,
                item.properties@.map_values(|p: String| p@),
                opt_str(item.media_overlay),
            ),
        ),
{
    let ghost mv = manifest_view(m@);
    let ghost e = (
        item.id@,
        item.href@,
        item.media_type@,
        item.properties@.map_values(|p: String| p@),
        opt_str(item.media_overlay),
    );
    let key = chars_of(item.id.as_str());
    let mut i: usize = 0;
    while i < m.len()
        invariant
            i <= m@.len(),
            m@ == old(m)@,
            mv == manifest_view(m@),
            key@ == item.id@,
            e == (
                item.id@,
                item.href@,
                item.media_type@,
                item.properties@.map_values(|p: String| p@),
                opt_str(item.media_overlay),
            ),
            manifest_id_index(mv, e.0, 0) == manifest_id_index(mv, e.0, i as int),
        decreases m@.len() - i,
    {
        if eq_str(&key, m[i].id.as_str()) {
            proof {
                assert(mv[i as int].0 == m@[i as int].id@);
                assert(manifest_id_index(mv, e.0, i as int) == Some(i as int));
            }
            m.set(i, item);
            assert(manifest_view(m@) =~= mv.update(i as int, e));
            return;
        }
        i = i + 1;
    }
    m.push(item);
    assert(manifest_view(m@) =~= mv.push(e));
}

fn state_clone(s: &OpfState) -> (r: OpfState)
    ensures
        state_view(r) == state_view(*s),
{
    match s {
        OpfState::Idle => OpfState::Idle,
        OpfState::Title => OpfState::Title,
        OpfState::Subtitle => OpfState::Subtitle,
        OpfState::Creator(i) => OpfState::Creator(clone_opt(i)),
        OpfState::Contributor(i) => OpfState::Contributor(clone_opt(i)),
        OpfState::Language => OpfState::Language,
        OpfState::Identifier(i, sc) => OpfState::Identifier(clone_opt(i), clone_opt(sc)),
        OpfState::Publisher => OpfState::Publisher,
        OpfState::Description => OpfState::Description,
        OpfState::Date => OpfState::Date,
        OpfState::Modified => OpfState::Modified,
        OpfState::Rights => OpfState::Rights,
        OpfState::Subject => OpfState::Subject,
        OpfState::MetaRefines(r, p, i) => OpfState::MetaRefines(r.clone(), p.clone(), clone_opt(i)),
        OpfState::MetaGlobal(p, i) => OpfState::MetaGlobal(p.clone(), clone_opt(i)),
    }
}

impl OpfReader {
    /// What the reader has gathered so far.
    pub closed spec fn view(&self) -> OpfV {
        OpfV {
            in_metadata: self.in_metadata,
            state: state_view(self.state),
            title_id: opt_str(self.title_id),
            title_lang: opt_str(self.title_lang),
            unique_id_ref: opt_str(self.unique_id_ref),
            toc_id: opt_str(self.toc_id),
            rtl: self.rtl,
            cover_id: opt_str(self.cover_id),
            manifest: manifest_view(self.manifest@),
            spine: spine_view(self.spine@),
            guide: guide_view(self.guide@),
            titles: titles_view(self.titles@),
            first_title: opt_str(self.first_title),
            subtitle: opt_str(self.subtitle),
            creators: named_view(self.creators@),
            languages: strings_view(self.languages@),
            identifiers: identifiers_view(self.identifiers@),
            publisher: opt_str(self.publisher),
            description: opt_str(self.description),
            date: opt_str(self.date),
            modified: opt_str(self.modified),
            rights: opt_str(self.rights),
            subjects: strings_view(self.subjects@),
            layout: self.layout,
            refinements: triples_view(self.refinements@),
            collections: pairs_view(self.collections@),
            a11y: a11y_view(self.a11y@),
        }
    }

    /// A reader before the first event.
    pub fn new() -> (r: OpfReader)
        ensures
            r.view() == opf_initial(),
    {
        let r = OpfReader {
            in_metadata: false,
            state: OpfState::Idle,
            title_id: None,
            title_lang: None,
            unique_id_ref: None,
            toc_id: None,
            rtl: false,
            cover_id: None,
            manifest: Vec::new(),
            spine: Vec::new(),
            guide: Vec::new(),
            titles: Vec::new(),
            first_title: None,
            subtitle: None,
            creators: Vec::new(),
            languages: Vec::new(),
            identifiers: Vec::new(),
            publisher: None,
            description: None,
            date: None,
            modified: None,
            rights: None,
            subjects: Vec::new(),
            layout: LayoutType::Reflowable,
            refinements: Vec::new(),
            collections: Vec::new(),
            a11y: Vec::new(),
        };
        assert(r.view().manifest =~= Seq::<ManifestItemV>::empty());
        assert(r.view().spine =~= Seq::<SpineItemV>::empty());
        assert(r.view().guide =~= Seq::<GuideReferenceV>::empty());
        assert(r.view().titles =~= Seq::<RawTitleV>::empty());
        assert(r.view().creators =~= Seq::<(Seq<char>, Option<Seq<char>>)>::empty());
        assert(r.view().languages =~= Seq::<Seq<char>>::empty());
        assert(r.view().identifiers =~= Seq::<RawIdentifierV>::empty());
        assert(r.view().subjects =~= Seq::<Seq<char>>::empty());
        assert(r.view().refinements =~= Seq::<RefinementV>::empty());
        assert(r.view().collections =~= Seq::<(Seq<char>, Seq<char>)>::empty());
        assert(r.view().a11y =~= Seq::<A11yMetaV>::empty());
        r
    }

    fn on_meta_start(&mut self, attrs: &Vec<(String, String)>)
        ensures
            ({
                let v = old(self).view();
                let refines = last_refines(attrs@, attrs@.len() as int);
                let property = last_attr(attrs@, "property"@);
                let own_id = last_attr(attrs@, "id"@);
                let scheme = last_attr(attrs@, "scheme"@);
                let refinements = if refines is Some && property == Some("identifier-type"@)
                    && scheme is Some {
                    v.refinements.push((refines->0, "identifier-type-scheme"@, scheme->0))
                } else {
                    v.refinements
                };
                final(self).view() == if refines is Some && property is Some {
                    OpfV {
                        refinements,
                        state: OpfStateV::MetaRefines(refines->0, property->0, own_id),
                        ..v
                    }
                } else if property is Some {
                    OpfV { refinements, state: OpfStateV::MetaGlobal(property->0, own_id), ..v }
                } else {
                    OpfV { refinements, cover_id: cover_after(v.cover_id, attrs@), ..v }
                }
            }),
    {
        let refines = last_refines_exec(attrs);
        let property = crate::xml::get_last_attr(attrs, "property");
        let own_id = crate::xml::get_last_attr(attrs, "id");
        let scheme = crate::xml::get_last_attr(attrs, "scheme");
        let ghost before = triples_view(self.refinements@);
        match (&refines, &property, &scheme) {
            (Some(r), Some(p), Some(sc)) => {
                if eq_str(&chars_of(p.as_str()), "identifier-type") {
                    self.refinements.push((r.clone(), "identifier-type-scheme".to_string(), sc.clone()));
                    assert(triples_view(self.refinements@) =~= before.push(
                        (r@, "identifier-type-scheme"@, sc@),
                    ));
                }
            },
            _ => {},
        }
        match (refines, property) {
            (Some(r), Some(p)) => {
                self.state = OpfState::MetaRefines(r, p, own_id);
            },
            (None, Some(p)) => {
                self.state = OpfState::MetaGlobal(p, own_id);
            },
            (_, None) => {
                self.cover_id = cover_after_exec(&self.cover_id, attrs);
            },
        }
    }

    fn on_start(&mut self, t: &XmlTag)
        ensures
            final(self).view() == opf_start(old(self).view(), *t),
    {
        let name = chars_of(t.name.as_str());
        let attrs = &t.attrs;
        if has_suffix(&name, "metadata") {
            self.in_metadata = true;
        } else if eq_str(&name, "package") || has_suffix(&name, ":package") {
            match crate::xml::get_last_attr(attrs, "unique-identifier") {
                Some(u) => self.unique_id_ref = Some(u),
                None => {},
            }
        } else if has_suffix(&name, "spine") {
            match crate::xml::get_last_attr(attrs, "toc") {
                Some(tc) => self.toc_id = Some(tc),
                None => {},
            }
            if names_rtl_exec(attrs) {
                self.rtl = true;
            }
        } else if has_suffix(&name, "title") {
            self.title_id = get_attr(attrs, "id");
            self.title_lang = lang_attr_exec(attrs);
            let is_sub = match get_attr_by_suffix(attrs, "title-type") {
                Some(v) => eq_str(&chars_of(v.as_str()), "subtitle"),
                None => false,
            };
            self.state = if is_sub {
                OpfState::Subtitle
            } else {
                OpfState::Title
            };
        } else if has_suffix(&name, "creator") {
            self.state = OpfState::Creator(get_attr(attrs, "id"));
        } else if has_suffix(&name, "contributor") {
            self.state = OpfState::Contributor(get_attr(attrs, "id"));
        } else if has_suffix(&name, "language") {
            self.state = OpfState::Language;
        } else if has_suffix(&name, "identifier") {
            self.state = OpfState::Identifier(get_attr(attrs, "id"), get_attr_by_suffix(attrs, "scheme"));
        } else if has_suffix(&name, "publisher") {
            self.state = OpfState::Publisher;
        } else if has_suffix(&name, "description") {
            self.state = OpfState::Description;
        } else if has_suffix(&name, "date") {
            let is_mod = match get_attr_by_suffix(attrs, "event") {
                Some(v) => eq_str(&chars_of(v.as_str()), "modification"),
                None => false,
            };
            self.state = if is_mod {
                OpfState::Modified
            } else {
                OpfState::Date
            };
        } else if has_suffix(&name, "rights") {
            self.state = OpfState::Rights;
        } else if has_suffix(&name, "subject") {
            self.state = OpfState::Subject;
        } else if has_suffix(&name, "meta") {
            self.on_meta_start(attrs);
        }
    }

    fn on_empty(&mut self, opf_dir: &str, t: &XmlTag)
        ensures
            final(self).view() == opf_empty(opf_dir@, old(self).view(), *t),
    {
        let name = chars_of(t.name.as_str());
        let attrs = &t.attrs;
        if has_suffix(&name, "meta") && self.in_metadata {
            self.cover_id = cover_after_exec(&self.cover_id, attrs);
        } else if has_suffix(&name, "item") {
            let id = match crate::xml::get_last_attr(attrs, "id") {
                Some(x) => x,
                None => String::new(),
            };
            let href = match crate::xml::get_last_attr(attrs, "href") {
                Some(h) => percent_decode_lossy(h.as_str()),
                None => String::new(),
            };
            if chars_of(id.as_str()).len() > 0 && chars_of(href.as_str()).len() > 0 {
                let media_type = match crate::xml::get_last_attr(attrs, "media-type") {
                    Some(m) => m,
                    None => String::new(),
                };
                let properties: Vec<String> = match crate::xml::get_last_attr(attrs, "properties") {
                    Some(p) => strings_of(&split_whitespace_chars(&chars_of(p.as_str()))),
                    None => Vec::new(),
                };
                let media_overlay = crate::xml::get_last_attr(attrs, "media-overlay");
                proof {
                    assert(properties@.map_values(|p: String| p@) =~= match last_attr(attrs@, "properties"@) {
                        Some(p) => ws_tokens(p),
                        None => Seq::empty(),
                    });
                }
                manifest_insert_exec(
                    &mut self.manifest,
                    ManifestItem { id, href, media_type, properties, media_overlay },
                );
            }
        } else if has_suffix(&name, "itemref") {
            match crate::xml::get_last_attr(attrs, "idref") {
                Some(idref) => {
                    if chars_of(idref.as_str()).len() > 0 {
                        let linear = match crate::xml::get_last_attr(attrs, "linear") {
                            Some(l) => !eq_str(&chars_of(l.as_str()), "no"),
                            None => true,
                        };
                        let (layout_override, page_spread) = itemref_properties_exec(attrs);
                        let ghost before = spine_view(self.spine@);
                        self.spine.push(SpineItem { idref, linear, layout_override, page_spread });
                        assert(spine_view(self.spine@) =~= before.push(
                            itemref_of(attrs@)->0,
                        ));
                    }
                },
                None => {},
            }
        } else if has_suffix(&name, "reference") {
            let ty = match crate::xml::get_last_attr(attrs, "type") {
                Some(x) => x,
                None => String::new(),
            };
            let href = match crate::xml::get_last_attr(attrs, "href") {
                Some(h) => resolve_href(opf_dir, percent_decode_lossy(h.as_str()).as_str()),
                None => String::new(),
            };
            if chars_of(ty.as_str()).len() > 0 && chars_of(href.as_str()).len() > 0 {
                let title = crate::xml::get_last_attr(attrs, "title");
                let ghost before = guide_view(self.guide@);
                self.guide.push(GuideReference { ref_type: ty, href, title });
                assert(guide_view(self.guide@) =~= before.push(reference_of(opf_dir@, attrs@)->0));
            }
        }
    }
}

impl OpfReader {
    fn clear_after_text(&mut self)
        ensures
            final(self).view() == (OpfV {
                state: OpfStateV::Idle,
                title_id: None,
                title_lang: None,
                ..old(self).view()
            }),
    {
        self.state = OpfState::Idle;
        self.title_id = None;
        self.title_lang = None;
    }

    fn on_text_in_state(&mut self, text: &str)
        ensures
            final(self).view() == opf_text_in_state(old(self).view(), text@),
    {
        let st = state_clone(&self.state);
        match st {
            OpfState::Title => {
                let ghost before = titles_view(self.titles@);
                let id = clone_opt(&self.title_id);
                let lang = clone_opt(&self.title_lang);
                self.titles.push(RawTitle { id, lang, text: text.to_string(), epub2_subtitle: false });
                assert(titles_view(self.titles@) =~= before.push(
                    (old(self).view().title_id, old(self).view().title_lang, text@, false),
                ));
                if self.first_title.is_none() {
                    self.first_title = Some(text.to_string());
                }
                self.clear_after_text();
            },
            OpfState::Subtitle => {
                let ghost before = titles_view(self.titles@);
                let id = clone_opt(&self.title_id);
                let lang = clone_opt(&self.title_lang);
                self.titles.push(RawTitle { id, lang, text: text.to_string(), epub2_subtitle: true });
                assert(titles_view(self.titles@) =~= before.push(
                    (old(self).view().title_id, old(self).view().title_lang, text@, true),
                ));
                self.subtitle = Some(text.to_string());
                self.clear_after_text();
            },
            OpfState::Creator(id) | OpfState::Contributor(id) => {
                let ghost before = named_view(self.creators@);
                self.creators.push((text.to_string(), id));
                assert(named_view(self.creators@) =~= before.push((text@, opt_str(id))));
                self.clear_after_text();
            },
            OpfState::Language => {
                let ghost before = strings_view(self.languages@);
                self.languages.push(text.to_string());
                assert(strings_view(self.languages@) =~= before.push(text@));
                self.clear_after_text();
            },
            OpfState::Identifier(id, scheme) => {
                let trimmed = trim_chars(&chars_of(text));
                if trimmed.len() > 0 {
                    let ghost before = identifiers_view(self.identifiers@);
                    self.identifiers.push(
                        RawIdentifier { id, scheme, value: string_from_chars(&trimmed) },
                    );
                    assert(identifiers_view(self.identifiers@) =~= before.push(
                        (opt_str(id), opt_str(scheme), trim_spec(text@)),
                    ));
                }
                self.clear_after_text();
            },
            OpfState::Publisher => {
                self.publisher = Some(text.to_string());
                self.clear_after_text();
            },
            OpfState::Description => {
                self.description = Some(text.to_string());
                self.clear_after_text();
            },
            OpfState::Date => {
                self.date = Some(text.to_string());
                self.clear_after_text();
            },
            OpfState::Modified => {
                self.modified = Some(text.to_string());
                self.clear_after_text();
            },
            OpfState::Rights => {
                self.rights = Some(text.to_string());
                self.clear_after_text();
            },
            OpfState::Subject => {
                let ghost before = strings_view(self.subjects@);
                self.subjects.push(text.to_string());
                assert(strings_view(self.subjects@) =~= before.push(text@));
                self.clear_after_text();
            },
            OpfState::MetaRefines(r, p, own) => {
                if is_a11y_property(p.as_str()) {
                    let ghost before = a11y_view(self.a11y@);
                    self.a11y.push(
                        RawA11yMeta { property: p, value: text.to_string(), id: own, refines: Some(r) },
                    );
                    assert(a11y_view(self.a11y@) =~= before.push(
                        (state_view(st)->MetaRefines_1, text@, opt_str(own), Some(state_view(st)->MetaRefines_0)),
                    ));
                } else {
                    let ghost before = triples_view(self.refinements@);
                    self.refinements.push((r, p, text.to_string()));
                    assert(triples_view(self.refinements@) =~= before.push(
                        (state_view(st)->MetaRefines_0, state_view(st)->MetaRefines_1, text@),
                    ));
                }
                self.clear_after_text();
            },
            OpfState::MetaGlobal(p, own) => {
                let pc = chars_of(p.as_str());
                if eq_str(&pc, "rendition:layout") {
                    self.layout = if eq_str(&chars_of(text), "pre-paginated") {
                        LayoutType::PrePaginated
                    } else {
                        LayoutType::Reflowable
                    };
                    self.clear_after_text();
                } else if eq_str(&pc, "dcterms:modified") {
                    self.modified = Some(text.to_string());
                    self.clear_after_text();
                } else if eq_str(&pc, "belongs-to-collection") {
                    match own {
                        Some(id) => {
                            let ghost before = pairs_view(self.collections@);
                            self.collections.push((id, text.to_string()));
                            assert(pairs_view(self.collections@) =~= before.push((id@, text@)));
                        },
                        None => {},
                    }
                    self.clear_after_text();
                } else if is_a11y_property(p.as_str()) {
                    let ghost before = a11y_view(self.a11y@);
                    self.a11y.push(
                        RawA11yMeta { property: p, value: text.to_string(), id: own, refines: None },
                    );
                    assert(a11y_view(self.a11y@) =~= before.push(
                        (state_view(st)->MetaGlobal_0, text@, opt_str(own), None),
                    ));
                    self.state = OpfState::Idle;
                } else {
                    self.clear_after_text();
                }
            },
            OpfState::Idle => {
                self.clear_after_text();
            },
        }
    }

    /// Takes in one event of the package document in `opf_dir` (see
    /// [`opf_step`]).
    pub fn step(&mut self, opf_dir: &str, e: &XmlEvent)
        ensures
            final(self).view() == opf_step(opf_dir@, old(self).view(), *e),
    {
        match e {
            XmlEvent::Start(t) => self.on_start(t),
            XmlEvent::Empty(t) => self.on_empty(opf_dir, t),
            XmlEvent::Text(text) => {
                if self.in_metadata && trim_chars(&chars_of(text.as_str())).len() > 0 {
                    self.on_text_in_state(text.as_str());
                }
            },
            XmlEvent::End(name) => {
                if has_suffix(&chars_of(name.as_str()), "metadata") {
                    self.in_metadata = false;
                }
                self.state = OpfState::Idle;
            },
            _ => {},
        }
    }
}

fn strings_of(v: &Vec<Vec<char>>) -> (r: Vec<String>)
    ensures
        r@.map_values(|s: String| s@) == v@.map_values(|t: Vec<char>| t@),
{
    let mut out: Vec<String> = Vec::new();
    let mut i: usize = 0;
    while i < v.len()
        invariant
            i <= v@.len(),
            out@.map_values(|s: String| s@) == v@.take(i as int).map_values(|t: Vec<char>| t@),
        decreases v@.len() - i,
    {
        out.push(string_from_chars(&v[i]));
        assert(v@.take(i + 1).map_values(|t: Vec<char>| t@) =~= v@.take(i as int).map_values(
            |t: Vec<char>| t@,
        ).push(v@[i as int]@));
        assert(out@.map_values(|s: String| s@) =~= v@.take(i + 1).map_values(|t: Vec<char>| t@));
        i = i + 1;
    }
    assert(v@.take(i as int) =~= v@);
    out
}

// ── Refinements ─────────────────────────────────────────────────────────────

/// The value of the last refinement of `property` for `id`.
pub open spec fn refine(refs: Seq<RefinementV>, id: Seq<char>, property: Seq<char>) -> Option<Seq<char>>
    decreases refs.len(),
{
    if refs.len() == 0 {
        None
    } else if refs.last().0 == id && refs.last().1 == property {
        Some(refs.last().2)
    } else {
        refine(refs.drop_last(), id, property)
    }
}

/// Some refinement refines `id`.
pub open spec fn is_refined(refs: Seq<RefinementV>, id: Seq<char>) -> bool {
    exists|k: int| 0 <= k < refs.len() && (#[trigger] refs[k]).0 == id
}

/// A title entry: (value, language, title type, sort key, display order).
pub type TitleEntryV = (Seq<char>, Option<Seq<char>>, Option<Seq<char>>, Option<Seq<char>>, Option<u32>);

/// A title with what its refinements say of it; the inline EPUB 2
/// subtitle mark wins over a `title-type` refinement.
pub open spec fn title_entry_of(refs: Seq<RefinementV>, raw: RawTitleV) -> TitleEntryV {
    let (id, lang, text, sub) = raw;
    let by = |p: Seq<char>|
        match id {
            Some(i) => refine(refs, i, p),
            None => None,
        };
    (
        text,
        lang,
        if sub {
            Some("subtitle"@)
        } else {
            by("title-type"@)
        },
        by("file-as"@),
        match by("display-seq"@) {
            Some(d) => u32_text_value(d),
            None => None,
        },
    )
}

pub open spec fn title_entries(refs: Seq<RefinementV>, raws: Seq<RawTitleV>) -> Seq<TitleEntryV> {
    raws.map_values(|r: RawTitleV| title_entry_of(refs, r))
}

/// The first entry (from `from`) whose type is `main`.
pub open spec fn first_main(entries: Seq<TitleEntryV>, from: int) -> Option<int>
    decreases entries.len() - from,
{
    if from < 0 || from >= entries.len() {
        None
    } else if entries[from].2 == Some("main"@) {
        Some(from)
    } else {
        first_main(entries, from + 1)
    }
}

/// The first entry (from `from`) that is not a subtitle.
pub open spec fn first_not_subtitle(entries: Seq<TitleEntryV>, from: int) -> Option<int>
    decreases entries.len() - from,
{
    if from < 0 || from >= entries.len() {
        None
    } else if entries[from].2 != Some("subtitle"@) {
        Some(from)
    } else {
        first_not_subtitle(entries, from + 1)
    }
}

/// The main title: the first of type `main`, else the first that is not a
/// subtitle.
pub open spec fn main_title(entries: Seq<TitleEntryV>) -> Option<int> {
    match first_main(entries, 0) {
        Some(k) => Some(k),
        None => first_not_subtitle(entries, 0),
    }
}

/// The display order of an entry for sorting: unset comes last.
pub open spec fn seq_key(e: TitleEntryV) -> u32 {
    match e.4 {
        Some(d) => d,
        None => u32::MAX,
    }
}

/// The first subtitle of least display order among the first `n` entries.
pub open spec fn best_subtitle(entries: Seq<TitleEntryV>, n: int) -> Option<int>
    decreases n,
{
    if n <= 0 {
        None
    } else {
        let prev = best_subtitle(entries, n - 1);
        if entries[n - 1].2 == Some("subtitle"@) && match prev {
            Some(b) => seq_key(entries[n - 1]) < seq_key(entries[b]),
            None => true,
        } {
            Some(n - 1)
        } else {
            prev
        }
    }
}

/// A creator: (name, role, file-as).
pub type CreatorV = (Seq<char>, Option<Seq<char>>, Option<Seq<char>>);

/// No creator after position `k` has id `id`.
pub open spec fn last_with_id(creators: Seq<(Seq<char>, Option<Seq<char>>)>, k: int, id: Seq<char>) -> bool {
    forall|j: int| k < j < creators.len() ==> (#[trigger] creators[j]).1 != Some(id)
}

/// Creator `k` with its `role` and `file-as` refinements; when several
/// creators share an id, only the last of them is refined.
pub open spec fn creator_of(creators: Seq<(Seq<char>, Option<Seq<char>>)>, refs: Seq<RefinementV>, k: int) -> CreatorV {
    let (name, id) = creators[k];
    match id {
        Some(c) => if last_with_id(creators, k, c) {
            (name, refine(refs, c, "role"@), refine(refs, c, "file-as"@))
        } else {
            (name, None, None)
        },
        None => (name, None, None),
    }
}

/// An identifier's scheme: its own, else from an `identifier-type`
/// refinement (the refining meta's `scheme`, else its text).
pub open spec fn identifier_scheme(refs: Seq<RefinementV>, raw: RawIdentifierV) -> Option<Seq<char>> {
    match raw.1 {
        Some(s) => Some(s),
        None => match raw.0 {
            Some(i) => if is_refined(refs, i) {
                match refine(refs, i, "identifier-type-scheme"@) {
                    Some(s) => Some(s),
                    None => refine(refs, i, "identifier-type"@),
                }
            } else {
                None
            },
            None => None,
        },
    }
}

/// The first identifier (from `from`) whose id is `uid`.
pub open spec fn uid_index(ids: Seq<RawIdentifierV>, uid: Seq<char>, from: int) -> Option<int>
    decreases ids.len() - from,
{
    if from < 0 || from >= ids.len() {
        None
    } else if ids[from].0 == Some(uid) {
        Some(from)
    } else {
        uid_index(ids, uid, from + 1)
    }
}

/// The unique identifier: the one `package@unique-identifier` names, else
/// the first.
pub open spec fn primary_identifier(ids: Seq<RawIdentifierV>, uid: Option<Seq<char>>) -> int {
    match uid {
        Some(u) => match uid_index(ids, u, 0) {
            Some(k) => k,
            None => 0,
        },
        None => 0,
    }
}

proof fn lemma_uid_index(ids: Seq<RawIdentifierV>, uid: Seq<char>, from: int)
    requires
        0 <= from,
    ensures
        match uid_index(ids, uid, from) {
            Some(k) => from <= k < ids.len() && ids[k].0 == Some(uid) && forall|j: int|
                from <= j < k ==> (#[trigger] ids[j]).0 != Some(uid),
            None => forall|j: int| from <= j < ids.len() ==> (#[trigger] ids[j]).0 != Some(uid),
        },
    decreases ids.len() - from,
{
    if from < ids.len() && ids[from].0 != Some(uid) {
        lemma_uid_index(ids, uid, from + 1);
    }
}

/// The identifiers of `m` follow those read as `v`: the unique identifier
/// is the first `dc:identifier` whose id the package's `unique-identifier`
/// names, or the first one when none is named; the other identifiers are
/// the alternate ones, in document order.
pub open spec fn identifiers_follow(v: OpfV, m: Metadata) -> bool {
    let p = primary_identifier(v.identifiers, v.unique_id_ref);
    &&& 0 <= p < v.identifiers.len()
    &&& opt_str(m.identifier) == Some(v.identifiers[p].2)
    &&& (v.unique_id_ref matches Some(u) && (exists|k: int|
        0 <= k < v.identifiers.len() && (#[trigger] v.identifiers[k]).0 == Some(u))) ==> (v.identifiers[p].0
        == v.unique_id_ref && forall|j: int| 0 <= j < p ==> (#[trigger] v.identifiers[j]).0 != v.unique_id_ref)
    &&& !(v.unique_id_ref matches Some(u) && (exists|k: int|
        0 <= k < v.identifiers.len() && (#[trigger] v.identifiers[k]).0 == Some(u))) ==> p == 0
    &&& m.alt_identifiers@.len() == v.identifiers.len() - 1
    &&& forall|k: int|
        0 <= k < m.alt_identifiers@.len() ==> alt_view(#[trigger] m.alt_identifiers@[k]).0 == (if k < p {
            v.identifiers[k].2
        } else {
            v.identifiers[k + 1].2
        })
}

/// The unique identifier of a package is the first `dc:identifier` whose
/// id the package's `unique-identifier` names, or the first one when none
/// is named; the other identifiers are the alternate ones, in document
/// order.
pub proof fn law_unique_identifier_fallback(v: OpfV, m: Metadata)
    requires
        metadata_of(v, m),
        v.identifiers.len() > 0,
    ensures
        identifiers_follow(v, m),
{
    let ids = v.identifiers;
    let p = primary_identifier(ids, v.unique_id_ref);
    match v.unique_id_ref {
        Some(u) => lemma_uid_index(ids, u, 0),
        None => {},
    }
    let alts = alt_identifiers(v.refinements, ids, p);
    assert(m.alt_identifiers@.map_values(|a: AltIdentifier| alt_view(a)) == alts);
    assert(m.alt_identifiers@.len() == alts.len());
    assert forall|k: int| 0 <= k < m.alt_identifiers@.len() implies alt_view(#[trigger] m.alt_identifiers@[k]).0 == (
    if k < p {
        ids[k].2
    } else {
        ids[k + 1].2
    }) by {
        assert(alt_view(m.alt_identifiers@[k]) == alts[k]);
    }
}

/// An alternate identifier: (value, scheme).
pub type AltIdentifierV = (Seq<char>, Option<Seq<char>>);

/// The identifiers other than the unique one, in order, with their schemes.
pub open spec fn alt_identifiers(refs: Seq<RefinementV>, ids: Seq<RawIdentifierV>, primary: int) -> Seq<AltIdentifierV> {
    ids.take(primary).map_values(|r: RawIdentifierV| (r.2, identifier_scheme(refs, r))) + ids.skip(
        primary + 1,
    ).map_values(|r: RawIdentifierV| (r.2, identifier_scheme(refs, r)))
}

pub open spec fn alt_view(a: AltIdentifier) -> AltIdentifierV {
    match a {
        AltIdentifier::Simple(v) => (v@, None),
        AltIdentifier::WithScheme { value, scheme } => (value@, Some(scheme@)),
    }
}

/// A collection: (name, type, position).
pub type BelongsToV = (Seq<char>, Seq<char>, Option<Seq<char>>);

/// A `belongs-to-collection` with its refinements; the type is `series`
/// unless refined.
pub open spec fn collection_of(refs: Seq<RefinementV>, c: (Seq<char>, Seq<char>)) -> BelongsToV {
    (
        c.1,
        match refine(refs, c.0, "collection-type"@) {
            Some(t) => t,
            None => "series"@,
        },
        refine(refs, c.0, "group-position"@),
    )
}

pub open spec fn title_entry_view(t: TitleEntry) -> TitleEntryV {
    (t.value@, opt_str(t.lang), opt_str(t.title_type), opt_str(t.sort_as), t.display_seq)
}

pub open spec fn creator_view(c: Creator) -> CreatorV {
    (c.name@, opt_str(c.role), opt_str(c.file_as))
}

pub open spec fn belongs_view(b: BelongsTo) -> BelongsToV {
    (b.name@, b.collection_type@, opt_str(b.position))
}

/// `m` is the metadata the reader `v` gathered, refinements applied.
pub open spec fn metadata_of(v: OpfV, m: Metadata) -> bool {
    let refs = v.refinements;
    let entries = title_entries(refs, v.titles);
    &&& m.titles@.map_values(|t: TitleEntry| title_entry_view(t)) == entries
    &&& opt_str(m.title) == match main_title(entries) {
        Some(k) => Some(entries[k].0),
        None => v.first_title,
    }
    &&& opt_str(m.sort_as) == match main_title(entries) {
        Some(k) => entries[k].3,
        None => None,
    }
    &&& opt_str(m.subtitle) == match best_subtitle(entries, entries.len() as int) {
        Some(k) => Some(entries[k].0),
        None => v.subtitle,
    }
    &&& m.creators@.len() == v.creators.len()
    &&& forall|k: int| 0 <= k < v.creators.len() ==> creator_view(#[trigger] m.creators@[k]) == creator_of(v.creators, refs, k)
    &&& strings_view(m.languages@) == v.languages
    &&& opt_str(m.language) == if v.languages.len() > 0 {
        Some(v.languages[0])
    } else {
        None
    }
    &&& opt_str(m.identifier) == if v.identifiers.len() > 0 {
        Some(v.identifiers[primary_identifier(v.identifiers, v.unique_id_ref)].2)
    } else {
        None
    }
    &&& m.alt_identifiers@.map_values(|a: AltIdentifier| alt_view(a)) == if v.identifiers.len() > 0 {
        alt_identifiers(refs, v.identifiers, primary_identifier(v.identifiers, v.unique_id_ref))
    } else {
        Seq::empty()
    }
    &&& opt_str(m.publisher) == v.publisher
    &&& opt_str(m.description) == v.description
    &&& opt_str(m.date) == v.date
    &&& opt_str(m.modified) == v.modified
    &&& opt_str(m.rights) == v.rights
    &&& strings_view(m.subjects@) == v.subjects
    &&& m.layout == v.layout
    &&& m.reading_progression == if v.rtl {
        ReadingProgression::Rtl
    } else {
        ReadingProgression::Ltr
    }
    &&& opt_str(m.cover_id) == v.cover_id
    &&& m.belongs_to@.map_values(|b: BelongsTo| belongs_view(b)) == v.collections.map_values(
        |c: (Seq<char>, Seq<char>)| collection_of(refs, c),
    )
}

/// `b` is the publication the reader `v` gathered from the package
/// document in `opf_dir` (encryption not yet read).
pub open spec fn book_of(opf_dir: Seq<char>, v: OpfV, b: EpubBook) -> bool {
    &&& package_of(opf_dir, v, b)
    &&& b.encryptions@.len() == 0
}

/// `b` holds what the package document read as `v` describes (its
/// encryption table aside).
pub open spec fn package_of(opf_dir: Seq<char>, v: OpfV, b: EpubBook) -> bool {
    &&& metadata_of(v, b.metadata)
    &&& manifest_view(b.manifest@) == v.manifest
    &&& spine_view(b.spine@) == v.spine
    &&& guide_view(b.guide@) == v.guide
    &&& b.opf_dir@ == opf_dir
    &&& opt_str(b.toc_id) == v.toc_id
}

fn refine_exec(refs: &Vec<(String, String, String)>, id: &str, property: &str) -> (r: Option<String>)
    ensures
        opt_str(r) == refine(triples_view(refs@), id@, property@),
{
    let ghost rv = triples_view(refs@);
    let mut found: Option<String> = None;
    let mut i: usize = 0;
    assert(rv.take(0) =~= Seq::<RefinementV>::empty());
    while i < refs.len()
        invariant
            i <= refs@.len(),
            rv == triples_view(refs@),
            opt_str(found) == refine(rv.take(i as int), id@, property@),
        decreases refs@.len() - i,
    {
        proof {
            assert(rv.take(i + 1).drop_last() =~= rv.take(i as int));
            assert(rv.take(i + 1).last() == rv[i as int]);
        }
        if eq_str(&chars_of(refs[i].0.as_str()), id) && eq_str(&chars_of(refs[i].1.as_str()), property) {
            found = Some(refs[i].2.clone());
        }
        i = i + 1;
    }
    assert(rv.take(i as int) =~= rv);
    found
}

fn is_refined_exec(refs: &Vec<(String, String, String)>, id: &str) -> (b: bool)
    ensures
        b == is_refined(triples_view(refs@), id@),
{
    let ghost rv = triples_view(refs@);
    let mut i: usize = 0;
    while i < refs.len()
        invariant
            i <= refs@.len(),
            rv == triples_view(refs@),
            forall|k: int| 0 <= k < i ==> (#[trigger] rv[k]).0 != id@,
        decreases refs@.len() - i,
    {
        if eq_str(&chars_of(refs[i].0.as_str()), id) {
            assert(rv[i as int].0 == id@);
            return true;
        }
        i = i + 1;
    }
    false
}

fn title_entries_exec(refs: &Vec<(String, String, String)>, raws: &Vec<RawTitle>) -> (r: Vec<TitleEntry>)
    ensures
        r@.map_values(|t: TitleEntry| title_entry_view(t)) == title_entries(
            triples_view(refs@),
            titles_view(raws@),
        ),
{
    let ghost rv = triples_view(refs@);
    let ghost tv = titles_view(raws@);
    let mut out: Vec<TitleEntry> = Vec::new();
    let mut i: usize = 0;
    while i < raws.len()
        invariant
            i <= raws@.len(),
            rv == triples_view(refs@),
            tv == titles_view(raws@),
            out@.map_values(|t: TitleEntry| title_entry_view(t)) == title_entries(rv, tv.take(i as int)),
        decreases raws@.len() - i,
    {
        let raw = &raws[i];
        let (title_type, sort_as, display_seq) = match &raw.id {
            Some(id) => {
                let tt = if raw.epub2_subtitle {
                    Some("subtitle".to_string())
                } else {
                    refine_exec(refs, id.as_str(), "title-type")
                };
                let ds = match refine_exec(refs, id.as_str(), "display-seq") {
                    Some(d) => parse_u32_text(&chars_of(d.as_str())),
                    None => None,
                };
                (tt, refine_exec(refs, id.as_str(), "file-as"), ds)
            },
            None => {
                let tt = if raw.epub2_subtitle {
                    Some("subtitle".to_string())
                } else {
                    None
                };
                (tt, None, None)
            },
        };
        let e = TitleEntry {
            value: raw.text.clone(),
            lang: clone_opt(&raw.lang),
            title_type,
            sort_as,
            display_seq,
        };
        let ghost before = out@.map_values(|t: TitleEntry| title_entry_view(t));
        out.push(e);
        proof {
            assert(tv[i as int] == (opt_str(raw.id), opt_str(raw.lang), raw.text@, raw.epub2_subtitle));
            assert(title_entry_view(e) == title_entry_of(rv, tv[i as int]));
            assert(tv.take(i + 1) =~= tv.take(i as int).push(tv[i as int]));
            assert(title_entries(rv, tv.take(i + 1)) =~= title_entries(rv, tv.take(i as int)).push(
                title_entry_of(rv, tv[i as int]),
            ));
            assert(out@.map_values(|t: TitleEntry| title_entry_view(t)) =~= before.push(title_entry_view(e)));
        }
        i = i + 1;
    }
    assert(tv.take(i as int) =~= tv);
    out
}

fn is_type(t: &Option<String>, ty: &str) -> (b: bool)
    ensures
        b == (opt_str(*t) == Some(ty@)),
{
    match t {
        Some(s) => eq_str(&chars_of(s.as_str()), ty),
        None => false,
    }
}

fn main_title_exec(entries: &Vec<TitleEntry>) -> (r: Option<usize>)
    ensures
        match r {
            Some(i) => i < entries@.len() && main_title(
                entries@.map_values(|t: TitleEntry| title_entry_view(t)),
            ) == Some(i as int),
            None => main_title(entries@.map_values(|t: TitleEntry| title_entry_view(t))) is None,
        },
{
    let ghost ev = entries@.map_values(|t: TitleEntry| title_entry_view(t));
    let mut i: usize = 0;
    while i < entries.len()
        invariant
            i <= entries@.len(),
            ev == entries@.map_values(|t: TitleEntry| title_entry_view(t)),
            first_main(ev, 0) == first_main(ev, i as int),
        decreases entries@.len() - i,
    {
        if is_type(&entries[i].title_type, "main") {
            return Some(i);
        }
        i = i + 1;
    }
    let mut j: usize = 0;
    while j < entries.len()
        invariant
            j <= entries@.len(),
            ev == entries@.map_values(|t: TitleEntry| title_entry_view(t)),
            first_main(ev, 0) is None,
            first_not_subtitle(ev, 0) == first_not_subtitle(ev, j as int),
        decreases entries@.len() - j,
    {
        if !is_type(&entries[j].title_type, "subtitle") {
            return Some(j);
        }
        j = j + 1;
    }
    None
}

fn best_subtitle_exec(entries: &Vec<TitleEntry>) -> (r: Option<usize>)
    ensures
        match r {
            Some(i) => i < entries@.len() && best_subtitle(
                entries@.map_values(|t: TitleEntry| title_entry_view(t)),
                entries@.len() as int,
            ) == Some(i as int),
            None => best_subtitle(
                entries@.map_values(|t: TitleEntry| title_entry_view(t)),
                entries@.len() as int,
            ) is None,
        },
{
    let ghost ev = entries@.map_values(|t: TitleEntry| title_entry_view(t));
    let mut best: Option<usize> = None;
    let mut best_key: u32 = 0;
    let mut i: usize = 0;
    while i < entries.len()
        invariant
            i <= entries@.len(),
            ev == entries@.map_values(|t: TitleEntry| title_entry_view(t)),
            match best {
                Some(b) => b < i && best_subtitle(ev, i as int) == Some(b as int) && best_key == seq_key(
                    ev[b as int],
                ),
                None => best_subtitle(ev, i as int) is None,
            },
        decreases entries@.len() - i,
    {
        if is_type(&entries[i].title_type, "subtitle") {
            let key: u32 = match entries[i].display_seq {
                Some(d) => d,
                None => 4294967295,
            };
            let better = match best {
                Some(_) => key < best_key,
                None => true,
            };
            if better {
                best = Some(i);
                best_key = key;
            }
        }
        i = i + 1;
    }
    best
}

fn creator_role(
    creators: &Vec<(String, Option<String>)>,
    refs: &Vec<(String, String, String)>,
    k: usize,
) -> (r: Creator)
    requires
        k < creators@.len(),
    ensures
        creator_view(r) == creator_of(named_view(creators@), triples_view(refs@), k as int),
{
    let ghost cv = named_view(creators@);
    let n = creators.len();
    let name = creators[k].0.clone();
    assert(cv[k as int] == (creators@[k as int].0@, opt_str(creators@[k as int].1)));
    match &creators[k].1 {
        Some(c) => {
            let mut j: usize = k + 1;
            while j < creators.len()
                invariant
                    k < j <= creators@.len(),
                    cv == named_view(creators@),
                    cv[k as int] == (name@, Some(c@)),
                    forall|m: int| k < m < j ==> (#[trigger] cv[m]).1 != Some(c@),
                decreases creators@.len() - j,
            {
                match &creators[j].1 {
                    Some(d) => {
                        if eq_str(&chars_of(d.as_str()), c.as_str()) {
                            assert(cv[j as int] == (creators@[j as int].0@, opt_str(creators@[j as int].1)));
                            assert(cv[j as int].1 == Some(c@));
                            assert(!last_with_id(cv, k as int, c@));
                            return Creator { name, role: None, file_as: None };
                        }
                    },
                    None => {},
                }
                j = j + 1;
            }
            Creator {
                name,
                role: refine_exec(refs, c.as_str(), "role"),
                file_as: refine_exec(refs, c.as_str(), "file-as"),
            }
        },
        None => Creator { name, role: None, file_as: None },
    }
}

fn identifier_scheme_exec(refs: &Vec<(String, String, String)>, raw: &RawIdentifier) -> (r: Option<String>)
    ensures
        opt_str(r) == identifier_scheme(
            triples_view(refs@),
            (opt_str(raw.id), opt_str(raw.scheme), raw.value@),
        ),
{
    match &raw.scheme {
        Some(s) => Some(s.clone()),
        None => match &raw.id {
            Some(i) => if is_refined_exec(refs, i.as_str()) {
                match refine_exec(refs, i.as_str(), "identifier-type-scheme") {
                    Some(s) => Some(s),
                    None => refine_exec(refs, i.as_str(), "identifier-type"),
                }
            } else {
                None
            },
            None => None,
        },
    }
}

fn primary_identifier_exec(ids: &Vec<RawIdentifier>, uid: &Option<String>) -> (r: usize)
    ensures
        r == primary_identifier(identifiers_view(ids@), opt_str(*uid)),
        ids@.len() > 0 ==> r < ids@.len(),
{
    let ghost iv = identifiers_view(ids@);
    match uid {
        Some(u) => {
            let mut i: usize = 0;
            while i < ids.len()
                invariant
                    i <= ids@.len(),
                    iv == identifiers_view(ids@),
                    opt_str(*uid) == Some(u@),
                    uid_index(iv, u@, 0) == uid_index(iv, u@, i as int),
                decreases ids@.len() - i,
            {
                let hit = match &ids[i].id {
                    Some(d) => eq_str(&chars_of(d.as_str()), u.as_str()),
                    None => false,
                };
                if hit {
                    assert(iv[i as int] == (opt_str(ids@[i as int].id), opt_str(ids@[i as int].scheme), ids@[i as int].value@));
                    return i;
                }
                i = i + 1;
            }
            0
        },
        None => 0,
    }
}

impl OpfReader {
    /// The publication read from the package document in `opf_dir`, with
    /// its refinements applied (see [`book_of`]), and its accessibility
    /// metadata as read.
    pub fn finish(self, opf_dir: &str) -> (r: (EpubBook, Vec<RawA11yMeta>))
        ensures
            book_of(opf_dir@, self.view(), r.0),
            a11y_view(r.1@) == self.view().a11y,
    {
        let ghost v = self.view();
        let refs = &self.refinements;
        let entries = title_entries_exec(refs, &self.titles);
        let (title, sort_as) = match main_title_exec(&entries) {
            Some(k) => (Some(entries[k].value.clone()), clone_opt(&entries[k].sort_as)),
            None => (clone_opt(&self.first_title), None),
        };
        let subtitle = match best_subtitle_exec(&entries) {
            Some(k) => Some(entries[k].value.clone()),
            None => clone_opt(&self.subtitle),
        };
        let mut creators: Vec<Creator> = Vec::new();
        let mut k: usize = 0;
        while k < self.creators.len()
            invariant
                k <= self.creators@.len(),
                v == self.view(),
                creators@.len() == k,
                forall|j: int|
                    0 <= j < k ==> creator_view(#[trigger] creators@[j]) == creator_of(
                        v.creators,
                        v.refinements,
                        j,
                    ),
            decreases self.creators@.len() - k,
        {
            let c = creator_role(&self.creators, &self.refinements, k);
            creators.push(c);
            k = k + 1;
        }
        let ghost iv = v.identifiers;
        let mut identifier: Option<String> = None;
        let mut alts: Vec<AltIdentifier> = Vec::new();
        if self.identifiers.len() > 0 {
            let p = primary_identifier_exec(&self.identifiers, &self.unique_id_ref);
            identifier = Some(self.identifiers[p].value.clone());
            let mut i: usize = 0;
            while i < self.identifiers.len()
                invariant
                    i <= self.identifiers@.len(),
                    v == self.view(),
                    iv == v.identifiers,
                    p < iv.len(),
                    p == primary_identifier(iv, v.unique_id_ref),
                    alts@.map_values(|a: AltIdentifier| alt_view(a)) == if i <= p {
                        iv.take(i as int).map_values(
                            |r: RawIdentifierV| (r.2, identifier_scheme(v.refinements, r)),
                        )
                    } else {
                        alt_identifiers(v.refinements, iv.take(i as int), p as int)
                    },
                decreases self.identifiers@.len() - i,
            {
                let ghost before = alts@.map_values(|a: AltIdentifier| alt_view(a));
                if i != p {
                    let raw = &self.identifiers[i];
                    let scheme = identifier_scheme_exec(&self.refinements, raw);
                    let alt = match scheme {
                        Some(sc) => AltIdentifier::WithScheme { value: raw.value.clone(), scheme: sc },
                        None => AltIdentifier::Simple(raw.value.clone()),
                    };
                    alts.push(alt);
                    proof {
                        let r = iv[i as int];
                        assert(r == (opt_str(raw.id), opt_str(raw.scheme), raw.value@));
                        assert(alts@.map_values(|a: AltIdentifier| alt_view(a)) =~= before.push(
                            (r.2, identifier_scheme(v.refinements, r)),
                        ));
                        let f = |r: RawIdentifierV| (r.2, identifier_scheme(v.refinements, r));
                        if i < p {
                            assert(iv.take(i + 1).map_values(f) =~= iv.take(i as int).map_values(f).push(f(r)));
                        } else {
                            assert(iv.take(i + 1).take(p as int) =~= iv.take(p as int));
                            assert(iv.take(i + 1).skip(p + 1) =~= iv.take(i as int).skip(p + 1).push(r));
                            assert(iv.take(i as int).take(p as int) =~= iv.take(p as int));
                            if i == p + 1 {
                                assert(iv.take(i as int).skip(p + 1) =~= Seq::<RawIdentifierV>::empty());
                            }
                            assert(alt_identifiers(v.refinements, iv.take(i + 1), p as int) =~= alt_identifiers(
                                v.refinements,
                                iv.take(i as int),
                                p as int,
                            ).push(f(r)));
                        }
                    }
                } else {
                    proof {
                        let f = |r: RawIdentifierV| (r.2, identifier_scheme(v.refinements, r));
                        assert(iv.take(i + 1).take(p as int) =~= iv.take(p as int));
                        assert(iv.take(i + 1).skip(p + 1) =~= Seq::<RawIdentifierV>::empty());
                        assert(alt_identifiers(v.refinements, iv.take(i + 1), p as int) =~= iv.take(
                            p as int,
                        ).map_values(f));
                    }
                }
                i = i + 1;
            }
            proof {
                assert(iv.take(i as int) =~= iv);
            }
        }
        let mut belongs_to: Vec<BelongsTo> = Vec::new();
        let mut c: usize = 0;
        let ghost cv = v.collections;
        while c < self.collections.len()
            invariant
                c <= self.collections@.len(),
                v == self.view(),
                cv == v.collections,
                belongs_to@.map_values(|b: BelongsTo| belongs_view(b)) == cv.take(c as int).map_values(
                    |x: (Seq<char>, Seq<char>)| collection_of(v.refinements, x),
                ),
            decreases self.collections@.len() - c,
        {
            let (mid, name) = (&self.collections[c].0, &self.collections[c].1);
            let collection_type = match refine_exec(&self.refinements, mid.as_str(), "collection-type") {
                Some(t) => t,
                None => "series".to_string(),
            };
            let position = refine_exec(&self.refinements, mid.as_str(), "group-position");
            let ghost before = belongs_to@.map_values(|b: BelongsTo| belongs_view(b));
            belongs_to.push(BelongsTo { name: name.clone(), collection_type, position });
            proof {
                let f = |x: (Seq<char>, Seq<char>)| collection_of(v.refinements, x);
                assert(cv[c as int] == (mid@, name@));
                assert(cv.take(c + 1).map_values(f) =~= cv.take(c as int).map_values(f).push(f(cv[c as int])));
                assert(belongs_to@.map_values(|b: BelongsTo| belongs_view(b)) =~= before.push(f(cv[c as int])));
            }
            c = c + 1;
        }
        assert(cv.take(c as int) =~= cv);
        let language = if self.languages.len() > 0 {
            Some(self.languages[0].clone())
        } else {
            None
        };
        let metadata = Metadata {
            title,
            subtitle,
            sort_as,
            titles: entries,
            creators,
            language,
            languages: self.languages,
            identifier,
            alt_identifiers: alts,
            publisher: self.publisher,
            description: self.description,
            date: self.date,
            modified: self.modified,
            rights: self.rights,
            subjects: self.subjects,
            layout: self.layout,
            reading_progression: if self.rtl {
                ReadingProgression::Rtl
            } else {
                ReadingProgression::Ltr
            },
            cover_id: self.cover_id,
            belongs_to,
            accessibility: None,
        };
        let book = EpubBook {
            metadata,
            manifest: self.manifest,
            spine: self.spine,
            opf_dir: opf_dir.to_string(),
            toc_id: self.toc_id,
            guide: self.guide,
            encryptions: Vec::new(),
        };
        proof {
            let m = book.metadata;
            let refs = v.refinements;
            let es = title_entries(refs, v.titles);
            assert(m.titles@.map_values(|t: TitleEntry| title_entry_view(t)) == es);
            assert(opt_str(m.title) == match main_title(es) {
                Some(k) => Some(es[k].0),
                None => v.first_title,
            });
            assert(opt_str(m.sort_as) == match main_title(es) {
                Some(k) => es[k].3,
                None => None,
            });
            assert(opt_str(m.subtitle) == match best_subtitle(es, es.len() as int) {
                Some(k) => Some(es[k].0),
                None => v.subtitle,
            });
            assert(m.creators@.len() == v.creators.len());
            assert(strings_view(m.languages@) == v.languages);
            assert(opt_str(m.language) == if v.languages.len() > 0 {
                Some(v.languages[0])
            } else {
                None
            });
            assert(opt_str(m.identifier) == if v.identifiers.len() > 0 {
                Some(v.identifiers[primary_identifier(v.identifiers, v.unique_id_ref)].2)
            } else {
                None
            });
            assert(m.alt_identifiers@.map_values(|a: AltIdentifier| alt_view(a)) == if v.identifiers.len() > 0 {
                alt_identifiers(refs, v.identifiers, primary_identifier(v.identifiers, v.unique_id_ref))
            } else {
                Seq::empty()
            });
            assert(m.belongs_to@.map_values(|b: BelongsTo| belongs_view(b)) == v.collections.map_values(
                |c: (Seq<char>, Seq<char>)| collection_of(refs, c),
            ));
            assert(metadata_of(v, m));
        }
        (book, self.a11y)
    }
}

/// The publication that a package document's events describe (see
/// [`opf_read`] and [`book_of`]), with the accessibility metadata that its
/// accessibility metas say.
pub fn book_from_events(opf_dir: &str, events: &[XmlEvent]) -> (r: EpubBook)
    ensures
        book_of(opf_dir@, opf_read(opf_dir@, events@), r),
        match r.metadata.accessibility {
            Some(a) => accessibility_of(opf_read(opf_dir@, events@).a11y, a) && !says_nothing(
                opf_read(opf_dir@, events@).a11y,
            ),
            None => says_nothing(opf_read(opf_dir@, events@).a11y),
        },
{
    let mut reader = OpfReader::new();
    let mut i: usize = 0;
    while i < events.len()
        invariant
            i <= events@.len(),
            reader.view() == opf_read(opf_dir@, events@.take(i as int)),
        decreases events@.len() - i,
    {
        proof {
            assert(events@.take(i + 1).drop_last() =~= events@.take(i as int));
            assert(events@.take(i + 1).last() == events@[i as int]);
        }
        reader.step(opf_dir, &events[i]);
        i = i + 1;
    }
    assert(events@.take(i as int) =~= events@);
    let (mut book, a11y) = reader.finish(opf_dir);
    book.metadata.accessibility = build_accessibility(a11y.as_slice());
    book
}

/// `b` is what the package document read as `events` in `opf_dir`
/// describes, accessibility metadata included.
pub open spec fn opf_book(opf_dir: Seq<char>, events: Seq<XmlEvent>, b: EpubBook) -> bool {
    &&& book_of(opf_dir, opf_read(opf_dir, events), b)
    &&& match b.metadata.accessibility {
        Some(a) => accessibility_of(opf_read(opf_dir, events).a11y, a) && !says_nothing(opf_read(opf_dir, events).a11y),
        None => says_nothing(opf_read(opf_dir, events).a11y),
    }
}

/// What the bytes `bytes` of the package document at `opf_path` give:
/// refused when they are not UTF-8 text or not well-formed XML; else the
/// publication that the reader's events describe.
pub open spec fn opf_bytes_result(opf_path: Seq<char>, bytes: Seq<u8>, r: Result<EpubBook, EpubError>) -> bool {
    match text_of(bytes) {
        None => r matches Err(EpubError::Io(m)) && m@ == not_utf8_message(),
        Some(t) => match xml_doc(t, false) {
            (events, None) => r matches Ok(b) && opf_book(parent_dir_spec(opf_path), events, b),
            (_, Some(m)) => r matches Err(EpubError::Xml(x)) && x@ == m,
        },
    }
}

/// Of a package document given as its bytes: when it has a `dc:identifier`,
/// the book's identifier is the one that the package's `unique-identifier`
/// names, or the first, and the others are its alternate identifiers in
/// document order.
pub proof fn law_identifiers_of_package_bytes(opf_path: Seq<char>, bytes: Seq<u8>, b: EpubBook)
    requires
        opf_bytes_result(opf_path, bytes, Ok(b)),
    ensures
        ({
            let v = opf_read(parent_dir_spec(opf_path), xml_doc(text_of(bytes)->0, false).0);
            v.identifiers.len() > 0 ==> identifiers_follow(v, b.metadata)
        }),
{
    let v = opf_read(parent_dir_spec(opf_path), xml_doc(text_of(bytes)->0, false).0);
    if v.identifiers.len() > 0 {
        law_unique_identifier_fallback(v, b.metadata);
    }
}

/// The publication that the package document `bytes`, lying at `opf_path`,
/// describes (see [`opf_bytes_result`]).
pub fn book_from_bytes(opf_path: &str, bytes: Vec<u8>) -> (r: Result<EpubBook, EpubError>)
    ensures
        opf_bytes_result(opf_path@, bytes@, r),
        r matches Ok(b) ==> b.opf_dir@ == parent_dir_spec(opf_path@) && exists|events: Seq<XmlEvent>|
            #[trigger] book_of(parent_dir_spec(opf_path@), opf_read(parent_dir_spec(opf_path@), events), b),
{
    let text = match decode_text(bytes) {
        Some(t) => t,
        None => {
            let m = "stream did not contain valid UTF-8".to_string();
            proof {
                reveal_strlit("stream did not contain valid UTF-8");
            }
            return Err(EpubError::Io(m));
        },
    };
    let events = match xml_events(text.as_str()) {
        Ok(e) => e,
        Err(m) => return Err(EpubError::Xml(m)),
    };
    let dir = string_from_chars(&parent_dir(&chars_of(opf_path)));
    let res = book_from_events(dir.as_str(), events.as_slice());
    assert(book_of(parent_dir_spec(opf_path@), opf_read(parent_dir_spec(opf_path@), events@), res));
    Ok(res)
}

/// Reads the package document at `opf_path` (package-root-relative) and
/// returns the publication it describes, with its accessibility metadata
/// as read: the provider's error when it cannot be read, else what its
/// bytes give (see [`book_from_bytes`]).
pub fn parse_opf<P: EpubProvider>(provider: &mut P, opf_path: &str) -> (r: Result<EpubBook, EpubError>)
    ensures
        r matches Ok(b) ==> b.opf_dir@ == parent_dir_spec(opf_path@) && exists|events: Seq<XmlEvent>|
            #[trigger] book_of(parent_dir_spec(opf_path@), opf_read(parent_dir_spec(opf_path@), events), b),
        r is Ok ==> exists|bytes: Seq<u8>| #[trigger] opf_bytes_result(opf_path@, bytes, r),
{
    let bytes = match provider.read_file(opf_path) {
        Ok(b) => b,
        Err(e) => return Err(e),
    };
    let ghost b = bytes@;
    let r = book_from_bytes(opf_path, bytes);
    assert(opf_bytes_result(opf_path@, b, r));
    r
}

} // verus!
