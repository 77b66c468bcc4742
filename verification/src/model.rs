//! The publication model: package metadata, manifest, spine, guide,
//! navigation entries and reading positions.
//!
//! Collections that the package document keys by id are kept as vectors in
//! document order; a lookup by id takes the first item with that id.
use vstd::prelude::*;
use crate::parser::accessibility::Accessibility;

verus! {

/// Rendition layout (`rendition:layout`).
#[derive(Clone, Copy, Debug, PartialEq, Eq)]
pub enum LayoutType {
    Reflowable,
    PrePaginated,
}

/// Reading direction of the spine (`page-progression-direction`).
#[derive(Clone, Copy, Debug, PartialEq, Eq)]
pub enum ReadingProgression {
    Ltr,
    Rtl,
}

/// Which side of a spread a spine item takes.
#[derive(Clone, Copy, Debug, PartialEq, Eq)]
pub enum PageSpread {
    Left,
    Right,
    Center,
}

/// One `dc:title`, with what its refinements say of it.
#[derive(Clone, Debug)]
pub struct TitleEntry {
    pub value: String,
    /// BCP-47 language tag (`xml:lang`).
    pub lang: Option<String>,
    /// `main`, `subtitle`, `short`, `collection`, ...
    pub title_type: Option<String>,
    /// Sort key (`file-as`).
    pub sort_as: Option<String>,
    /// Display order among titles of one type (`display-seq`).
    pub display_seq: Option<u32>,
}

/// A creator or contributor.
#[derive(Clone, Debug)]
pub struct Creator {
    pub name: String,
    /// MARC relator code (`role` refinement).
    pub role: Option<String>,
    /// Sort form of the name (`file-as` refinement).
    pub file_as: Option<String>,
}

impl Creator {
    /// A creator with just a name.
    pub fn new(name: &str) -> (c: Creator)
        ensures
            c.name@ == name@,
            c.role is None,
            c.file_as is None,
    {
        Creator { name: name.to_string(), role: None, file_as: None }
    }
}

/// A `dc:identifier` other than the publication's unique identifier.
#[derive(Clone, Debug)]
pub enum AltIdentifier {
    Simple(String),
    WithScheme { value: String, scheme: String },
}

/// A series or collection the publication belongs to.
#[derive(Clone, Debug)]
pub struct BelongsTo {
    pub name: String,
    /// `series`, `set`, ... (`series` when the package says nothing).
    pub collection_type: String,
    /// The `group-position` refinement as the package writes it.
    pub position: Option<String>,
}

/// Package metadata.
#[derive(Clone, Debug)]
pub struct Metadata {
    /// The main title.
    pub title: Option<String>,
    pub subtitle: Option<String>,
    /// Sort key of the main title.
    pub sort_as: Option<String>,
    /// Every `dc:title`, in document order.
    pub titles: Vec<TitleEntry>,
    /// Creators and contributors, in document order.
    pub creators: Vec<Creator>,
    /// The first language.
    pub language: Option<String>,
    pub languages: Vec<String>,
    /// The unique identifier.
    pub identifier: Option<String>,
    pub alt_identifiers: Vec<AltIdentifier>,
    pub publisher: Option<String>,
    pub description: Option<String>,
    pub date: Option<String>,
    pub modified: Option<String>,
    pub rights: Option<String>,
    pub subjects: Vec<String>,
    /// Publication-wide layout.
    pub layout: LayoutType,
    pub reading_progression: ReadingProgression,
    /// Manifest id of the cover (EPUB 2 `meta name="cover"`).
    pub cover_id: Option<String>,
    pub belongs_to: Vec<BelongsTo>,
    pub accessibility: Option<Accessibility>,
}

impl Default for Metadata {
    fn default() -> (m: Self)
        ensures
            m.title is None,
            m.subtitle is None,
            m.sort_as is None,
            m.titles@.len() == 0,
            m.creators@.len() == 0,
            m.language is None,
            m.languages@.len() == 0,
            m.identifier is None,
            m.alt_identifiers@.len() == 0,
            m.publisher is None,
            m.description is None,
            m.date is None,
            m.modified is None,
            m.rights is None,
            m.subjects@.len() == 0,
            m.layout == LayoutType::Reflowable,
            m.reading_progression == ReadingProgression::Ltr,
            m.cover_id is None,
            m.belongs_to@.len() == 0,
            m.accessibility is None,
    {
        Metadata {
            title: None,
            subtitle: None,
            sort_as: None,
            titles: Vec::new(),
            creators: Vec::new(),
            language: None,
            languages: Vec::new(),
            identifier: None,
            alt_identifiers: Vec::new(),
            publisher: None,
            description: None,
            date: None,
            modified: None,
            rights: None,
            subjects: Vec::new(),
            layout: LayoutType::Reflowable,
            reading_progression: ReadingProgression::Ltr,
            cover_id: None,
            belongs_to: Vec::new(),
            accessibility: None,
        }
    }
}

/// One `<item>` of the manifest.
#[derive(Clone, Debug)]
pub struct ManifestItem {
    pub id: String,
    /// Path relative to the package document.
    pub href: String,
    pub media_type: String,
    pub properties: Vec<String>,
    pub media_overlay: Option<String>,
}

/// One `<itemref>` of the spine.
#[derive(Clone, Debug)]
pub struct SpineItem {
    pub idref: String,
    pub linear: bool,
    /// Item-level `rendition:layout` override.
    pub layout_override: Option<LayoutType>,
    pub page_spread: Option<PageSpread>,
}

/// One EPUB 2 `<guide>` `<reference>`.
#[derive(Clone, Debug)]
pub struct GuideReference {
    pub ref_type: String,
    /// Package-root-relative.
    pub href: String,
    pub title: Option<String>,
}

/// How a resource of the package is obfuscated or encrypted.
#[derive(Clone, Copy, Debug, PartialEq, Eq, Structural)]
pub enum ObfuscationAlgorithm {
    /// IDPF font obfuscation (`http://www.idpf.org/2008/embedding`).
    Idpf,
    /// Adobe font obfuscation (`http://ns.adobe.com/pdf/enc#RC`).
    Adobe,
    /// AES in CBC mode (XML Encryption `aes128-cbc`, `aes192-cbc`, `aes256-cbc`).
    AesCbc,
    /// Any other algorithm.
    Unknown,
}

/// What `encryption.xml` says of one resource.
#[derive(Clone, Debug)]
pub struct EncryptionInfo {
    /// The algorithm, as far as the library knows it.
    pub algorithm: ObfuscationAlgorithm,
    /// The algorithm URI as the package wrote it.
    pub algorithm_uri: Option<String>,
    /// Plain-text length before encryption (`<Compression OriginalLength>`).
    pub original_length: Option<u64>,
}

/// A parsed publication.
#[derive(Clone, Debug)]
pub struct EpubBook {
    pub metadata: Metadata,
    /// Manifest items in document order.
    pub manifest: Vec<ManifestItem>,
    pub spine: Vec<SpineItem>,
    /// Directory of the package document (`""` at the root).
    pub opf_dir: String,
    pub toc_id: Option<String>,
    pub guide: Vec<GuideReference>,
    /// Encrypted resources, by archive path.
    pub encryptions: Vec<(String, EncryptionInfo)>,
}

/// One navigation entry (table of contents, page list or landmark).
#[derive(Debug)]
pub struct TocEntry {
    pub title: String,
    pub href: String,
    pub children: Vec<TocEntry>,
    /// `epub:type` of a landmark.
    pub role: Option<String>,
}

impl TocEntry {
    /// An entry without children or role.
    pub fn new(title: &str, href: &str) -> (e: TocEntry)
        ensures
            e.title@ == title@,
            e.href@ == href@,
            e.children@.len() == 0,
            e.role is None,
    {
        TocEntry { title: title.to_string(), href: href.to_string(), children: Vec::new(), role: None }
    }
}

/// A navigation entry as plain values.
pub struct TocNode {
    pub title: Seq<char>,
    pub href: Seq<char>,
    pub children: Seq<TocNode>,
    pub role: Option<Seq<char>>,
}

/// The plain values of a list of navigation entries, children included.
pub open spec fn toc_views(s: Seq<TocEntry>) -> Seq<TocNode>
    decreases s,
{
    if s.len() == 0 {
        Seq::empty()
    } else {
        let e = s[0];
        proof {
            assert(decreases_to!(s => s[0]));
            assert(decreases_to!(s[0] => s[0].children));
            assert(decreases_to!(s[0].children => s[0].children@));
        }
        seq![
            TocNode {
                title: e.title@,
                href: e.href@,
                children: toc_views(e.children@),
                role: match e.role {
                    Some(r) => Some(r@),
                    None => None,
                },
            },
        ] + toc_views(s.drop_first())
    }
}

/// The plain values of one entry.
pub open spec fn toc_node(e: TocEntry) -> TocNode {
    toc_views(seq![e])[0]
}

/// The views of a concatenation are the concatenation of the views.
pub proof fn lemma_toc_views_append(a: Seq<TocEntry>, b: Seq<TocEntry>)
    ensures
        toc_views(a + b) == toc_views(a) + toc_views(b),
    decreases a.len(),
{
    if a.len() == 0 {
        assert(a + b =~= b);
        assert(toc_views(a) + toc_views(b) =~= toc_views(b));
    } else {
        assert((a + b)[0] == a[0]);
        assert((a + b).drop_first() =~= a.drop_first() + b);
        lemma_toc_views_append(a.drop_first(), b);
        assert(toc_views(a + b) =~= toc_views(a) + toc_views(b));
    }
}

/// The view of a list grown by one entry.
pub proof fn lemma_toc_views_push(a: Seq<TocEntry>, e: TocEntry)
    ensures
        toc_views(a.push(e)) == toc_views(a).push(toc_node(e)),
        toc_views(seq![e]).len() == 1,
{
    lemma_toc_views_append(a, seq![e]);
    assert(a.push(e) =~= a + seq![e]);
    assert(seq![e].drop_first() =~= Seq::<TocEntry>::empty());
    assert(seq![e][0] == e);
    assert(toc_views(Seq::<TocEntry>::empty()) =~= Seq::<TocNode>::empty());
    assert(toc_views(seq![e]).len() == 1);
    assert(toc_views(seq![e]) =~= seq![toc_node(e)]);
}

/// A deep copy of a list of entries.
pub fn clone_toc(entries: &[TocEntry]) -> (r: Vec<TocEntry>)
    ensures
        toc_views(r@) == toc_views(entries@),
    decreases entries@,
{
    let mut out: Vec<TocEntry> = Vec::new();
    let mut i: usize = 0;
    assert(entries@.take(0) =~= Seq::<TocEntry>::empty());
    while i < entries.len()
        invariant
            i <= entries@.len(),
            toc_views(out@) == toc_views(entries@.take(i as int)),
        decreases entries@.len() - i,
    {
        let e = &entries[i];
        proof {
            assert(decreases_to!(entries@ => entries@[i as int]));
            assert(decreases_to!(entries@[i as int] => entries@[i as int].children));
            assert(decreases_to!(entries@[i as int].children => entries@[i as int].children@));
        }
        let children = clone_toc(e.children.as_slice());
        let role = match &e.role {
            Some(r) => Some(r.clone()),
            None => None,
        };
        let c = TocEntry { title: e.title.clone(), href: e.href.clone(), children, role };
        proof {
            lemma_toc_views_push(out@, c);
            lemma_toc_views_push(entries@.take(i as int), *e);
            assert(entries@.take(i + 1) =~= entries@.take(i as int).push(*e));
            assert(seq![c].drop_first() =~= Seq::<TocEntry>::empty());
            assert(seq![*e].drop_first() =~= Seq::<TocEntry>::empty());
            assert(toc_node(c) == toc_node(*e));
        }
        out.push(c);
        i = i + 1;
    }
    assert(entries@.take(i as int) =~= entries@);
    out
}

/// A block of a chapter's text (a paragraph, a heading, a list item, ...),
/// for reading aloud and for accessibility.
#[derive(Clone, Debug)]
pub struct ContentElement {
    /// The block's text, trimmed.
    pub text: String,
    /// Where the block is: `epubcfi(...)`.
    pub cfi_range: String,
    /// The element's local name (`p`, `h1`, ...).
    pub tag_name: String,
    /// The language in force (`lang` or `xml:lang`, inherited).
    pub language: Option<String>,
}

/// The navigation lists of a publication.
pub struct NavigationDocument {
    /// Table of contents.
    pub toc: Vec<TocEntry>,
    /// Printed page labels and where they fall.
    pub page_list: Vec<TocEntry>,
    /// Structural points (cover, start of the body, ...).
    pub landmarks: Vec<TocEntry>,
}

impl NavigationDocument {
    /// No list holds an entry.
    pub fn is_empty(&self) -> (b: bool)
        ensures
            b == (self.toc@.len() == 0 && self.page_list@.len() == 0 && self.landmarks@.len() == 0),
    {
        self.toc.len() == 0 && self.page_list.len() == 0 && self.landmarks.len() == 0
    }

    /// A deep copy.
    pub fn copy(&self) -> (r: NavigationDocument)
        ensures
            toc_views(r.toc@) == toc_views(self.toc@),
            toc_views(r.page_list@) == toc_views(self.page_list@),
            toc_views(r.landmarks@) == toc_views(self.landmarks@),
    {
        NavigationDocument {
            toc: clone_toc(self.toc.as_slice()),
            page_list: clone_toc(self.page_list.as_slice()),
            landmarks: clone_toc(self.landmarks.as_slice()),
        }
    }
}

impl Default for NavigationDocument {
    fn default() -> (d: Self)
        ensures
            d.toc@.len() == 0,
            d.page_list@.len() == 0,
            d.landmarks@.len() == 0,
    {
        NavigationDocument { toc: Vec::new(), page_list: Vec::new(), landmarks: Vec::new() }
    }
}

/// One reading position.
///
/// Progressions are kept as their integer parts: the position is number
/// `position_in_chapter` of `chapter_position_count` in its chapter, and
/// number `global_position` (1-based) of the book.
#[derive(Clone, Debug)]
pub struct Position {
    /// Index of the chapter in the full spine.
    pub spine_index: usize,
    pub href: String,
    pub cfi: String,
    /// 1-based, contiguous across the book.
    pub global_position: usize,
    /// 0-based index within the chapter.
    pub position_in_chapter: usize,
    /// Number of positions of the chapter.
    pub chapter_position_count: usize,
    pub title: Option<String>,
}

/// Summary of one rendition declared in `META-INF/container.xml`.
#[derive(Clone, Debug)]
pub struct RenditionInfo {
    pub opf_path: String,
    pub layout: Option<String>,
    pub language: Option<String>,
    pub label: Option<String>,
    pub media: Option<String>,
    pub access_mode: Option<String>,
}

impl RenditionInfo {
    /// The rendition is pre-paginated.
    pub fn is_fixed_layout(&self) -> (b: bool)
        ensures
            b == (self.layout matches Some(l) && l@ == "pre-paginated"@),
    {
        match &self.layout {
            Some(l) => crate::text::eq_str(&crate::text::chars_of(l.as_str()), "pre-paginated"),
            None => false,
        }
    }

    /// The rendition is reflowable (which it is when it declares no layout).
    pub fn is_reflowable(&self) -> (b: bool)
        ensures
            b == (self.layout is None || (self.layout matches Some(l) && l@ == "reflowable"@)),
    {
        match &self.layout {
            Some(l) => crate::text::eq_str(&crate::text::chars_of(l.as_str()), "reflowable"),
            None => true,
        }
    }
}

impl AltIdentifier {
    /// The identifier.
    pub fn value(&self) -> (r: &str)
        ensures
            r@ == match self {
                AltIdentifier::Simple(v) => v@,
                AltIdentifier::WithScheme { value, .. } => value@,
            },
    {
        match self {
            AltIdentifier::Simple(v) => v.as_str(),
            AltIdentifier::WithScheme { value, .. } => value.as_str(),
        }
    }

    /// Its scheme, when one is known.
    pub fn scheme(&self) -> (r: Option<&str>)
        ensures
            match self {
                AltIdentifier::Simple(_) => r is None,
                AltIdentifier::WithScheme { scheme, .. } => r matches Some(s) && s@ == scheme@,
            },
    {
        match self {
            AltIdentifier::Simple(_) => None,
            AltIdentifier::WithScheme { scheme, .. } => Some(scheme.as_str()),
        }
    }
}

impl Default for EpubBook {
    fn default() -> (b: Self)
        ensures
            b.manifest@.len() == 0,
            b.spine@.len() == 0,
            b.opf_dir@.len() == 0,
            b.toc_id is None,
            b.guide@.len() == 0,
            b.encryptions@.len() == 0,
    {
        EpubBook {
            metadata: Metadata::default(),
            manifest: Vec::new(),
            spine: Vec::new(),
            opf_dir: String::new(),
            toc_id: None,
            guide: Vec::new(),
            encryptions: Vec::new(),
        }
    }
}

/// Index of the first manifest item with id `id`.
pub open spec fn manifest_index(manifest: Seq<ManifestItem>, id: Seq<char>) -> Option<int>
    decreases manifest.len(),
{
    if manifest.len() == 0 {
        None
    } else if manifest[0].id@ == id {
        Some(0)
    } else {
        match manifest_index(manifest.drop_first(), id) {
            Some(i) => Some(i + 1),
            None => None,
        }
    }
}

pub proof fn lemma_manifest_index(manifest: Seq<ManifestItem>, id: Seq<char>)
    ensures
        match manifest_index(manifest, id) {
            Some(i) => 0 <= i < manifest.len() && manifest[i].id@ == id && forall|j: int|
                0 <= j < i ==> (#[trigger] manifest[j]).id@ != id,
            None => forall|j: int| 0 <= j < manifest.len() ==> (#[trigger] manifest[j]).id@ != id,
        },
    decreases manifest.len(),
{
    if manifest.len() > 0 && manifest[0].id@ != id {
        lemma_manifest_index(manifest.drop_first(), id);
        assert forall|j: int| 0 < j < manifest.len() implies manifest[j] == manifest.drop_first()[j
            - 1] by {}
    }
}

/// The first spine position whose `idref` is `id`.
pub open spec fn spine_position(spine: Seq<SpineItem>, id: Seq<char>, from: int) -> Option<int>
    decreases spine.len() - from,
{
    if from < 0 || from >= spine.len() {
        None
    } else if spine[from].idref@ == id {
        Some(from)
    } else {
        spine_position(spine, id, from + 1)
    }
}

proof fn lemma_spine_position(spine: Seq<SpineItem>, id: Seq<char>, from: int)
    requires
        0 <= from,
    ensures
        spine_position(spine, id, from) matches Some(k) ==> from <= k < spine.len(),
    decreases spine.len() - from,
{
    if from < spine.len() && spine[from].idref@ != id {
        lemma_spine_position(spine, id, from + 1);
    }
}

impl EpubBook {
    /// The first spine position of the item with manifest id `id`.
    pub fn spine_position_of(&self, id: &str) -> (r: Option<usize>)
        ensures
            match r {
                Some(k) => spine_position(self.spine@, id@, 0) == Some(k as int) && k < self.spine@.len(),
                None => spine_position(self.spine@, id@, 0) is None,
            },
    {
        proof {
            lemma_spine_position(self.spine@, id@, 0);
        }
        let key = crate::text::chars_of(id);
        let mut i: usize = 0;
        while i < self.spine.len()
            invariant
                i <= self.spine@.len(),
                key@ == id@,
                spine_position(self.spine@, id@, 0) == spine_position(self.spine@, id@, i as int),
            decreases self.spine@.len() - i,
        {
            if crate::text::eq_chars(&crate::text::chars_of(self.spine[i].idref.as_str()), &key) {
                return Some(i);
            }
            i = i + 1;
        }
        None
    }

    /// The first manifest item with id `id`.
    pub fn manifest_item(&self, id: &str) -> (r: Option<&ManifestItem>)
        ensures
            match r {
                Some(m) => manifest_index(self.manifest@, id@) matches Some(i) && *m
                    == self.manifest@[i],
                None => manifest_index(self.manifest@, id@) is None,
            },
    {
        proof {
            lemma_manifest_index(self.manifest@, id@);
        }
        let key = crate::text::chars_of(id);
        let mut i: usize = 0;
        while i < self.manifest.len()
            invariant
                i <= self.manifest@.len(),
                key@ == id@,
                forall|j: int| 0 <= j < i ==> (#[trigger] self.manifest@[j]).id@ != id@,
            decreases self.manifest@.len() - i,
        {
            let k = crate::text::chars_of(self.manifest[i].id.as_str());
            if crate::text::eq_chars(&k, &key) {
                proof {
                    lemma_manifest_index(self.manifest@, id@);
                    match manifest_index(self.manifest@, id@) {
                        Some(f) => {
                            if f < i {
                                assert(self.manifest@[f].id@ != id@);
                            }
                            if f > i {
                                assert(self.manifest@[i as int].id@ != id@);
                            }
                        },
                        None => {
                            assert(self.manifest@[i as int].id@ != id@);
                        },
                    }
                }
                return Some(&self.manifest[i]);
            }
            i = i + 1;
        }
        proof {
            lemma_manifest_index(self.manifest@, id@);
            if manifest_index(self.manifest@, id@) is Some {
                let f = manifest_index(self.manifest@, id@)->0;
                assert(self.manifest@[f].id@ != id@);
            }
        }
        None
    }
}

} // verus!
