//! A publication's package, read through a provider: its renditions, its
//! parsed model, and its resources (through a size-bounded LRU cache).
use vstd::prelude::*;
use crate::error::EpubError;
use crate::model::{EpubBook, ManifestItem, RenditionInfo, TocEntry, Position, NavigationDocument, manifest_index, toc_views};
use crate::parser::navigation::{NavV, nav_views, navigation_of, navigation_from_bytes, nav_item_of, nav_item_index, ncx_item_index, empty_nav};
use crate::parser::cache::{ResourceCache, entry_index, touched, stored};
use crate::parser::container::{parse_container, container_declares};
use crate::parser::encryption::parse_encryption;
use crate::parser::opf::parse_opf;
use crate::parser::positions::{ReflowableStrategy, positions_by_reading_order, ReadingOrderChapter, measured_positions, first_missing, linear_spine, toc_pairs, too_many_positions_message, too_many_positions, ArchiveEntryLength, BYTES_PER_POSITION, flat_positions, order_pairs, PositionIndex};
use crate::parser::reading::{ReadingStartInfo, preferred_reading_start, reading_start_spec, spine_index_for_href, spine_index_for_href_spec};
use crate::parser::resolve::{toc_title_for_href, toc_title_spec};
use crate::processor::rewrite::opt_view;
use crate::processor::prepare::{utf8_lossy, utf8_lossy_string};
use crate::processor::search::{SearchResult, searched_as, hit_views, literal_regex, TextPattern, chapter_hits, regex_escaped};
use crate::processor::walk::{content_views, semantic_content, extract_semantic_content, inject_cfi_dom};
use crate::model::{ContentElement, spine_position};
use crate::cfi::{EpubCfi, spine_base_cfi_spec};
use crate::dom::{dom_tree, html_dom};
use crate::parser::reading::{BookSearchHit, SearchBookOptions, book_hits_spec, cap_or, hit_view, collect_search_hits};
use crate::text::{trim_chars, trim_spec, string_from_chars};
use crate::parser::smil::{SmilNode, smil_views, smil_nodes, parse_smil_structure};
use crate::parser::container::utf8_text;
use crate::xml::{XmlEvent, is_document};
use crate::parser::rendition::{preferred_opf_path, rendition_path_at, chosen_spec};
use crate::parser::resolve::{ResolvedResource, resource_candidates, resolve_from_probes, resource_media_type, candidates_spec, manifest_fallback_spec, manifest_media_type_spec};
use crate::processor::prepare::{extension_spec, media_type_for_ext};
use crate::path::{join_epub_path, join_spec};
use crate::provider::EpubProvider;
use crate::text::{chars_of, contains_chars, contains_seq, eq_str, has_prefix, lit, lowercased, starts_with, to_lowercase};

verus! {

/// The cache limit of a new archive (16 MiB).
pub const DEFAULT_CACHE_BYTES: usize = 16777216;

/// Entries up to this size (2 MiB) are cached when read; larger ones are
/// read each time.
pub const CACHEABLE_ENTRY_BYTES: u64 = 2097152;

/// A publication's package, read through `provider`.
pub struct EpubArchive<P: EpubProvider> {
    pub provider: P,
    cache: ResourceCache,
    /// The navigation lists of the current rendition, once read.
    nav_cache: Option<NavigationDocument>,
}

impl<P: EpubProvider> EpubArchive<P> {
    /// The cached resources: `(archive path, bytes)`, the least recently used first.
    pub closed spec fn cached(&self) -> Seq<(Seq<char>, Seq<u8>)> {
        self.cache.entries()
    }

    /// The provider the archive reads through.
    pub closed spec fn source(&self) -> P {
        self.provider
    }

    /// The cache limit.
    pub closed spec fn cache_limit(&self) -> nat {
        self.cache.max()
    }

    /// The navigation lists kept for the current rendition.
    pub closed spec fn cached_navigation(&self) -> Option<NavV> {
        match self.nav_cache {
            Some(n) => Some(nav_views(n)),
            None => None,
        }
    }

    /// An archive that reads through `provider`, with an empty cache.
    pub fn new_with_provider(provider: P) -> (a: Self)
        ensures
            a.source() == provider,
            a.cached() == Seq::<(Seq<char>, Seq<u8>)>::empty(),
            a.cache_limit() == DEFAULT_CACHE_BYTES,
            a.cached_navigation() is None,
    {
        EpubArchive { provider, cache: ResourceCache::new(DEFAULT_CACHE_BYTES), nav_cache: None }
    }

    /// Changes the cache limit.
    pub fn set_max_cache_size(&mut self, bytes: usize)
        ensures
            final(self).cache_limit() == bytes,
            final(self).cached() == old(self).cached(),
    {
        self.cache.set_max(bytes);
    }

    /// The bytes held in the cache.
    pub fn cache_size(&self) -> (n: usize)
        ensures
            n == crate::parser::cache::total_size(self.cached()),
    {
        self.cache.size()
    }

    /// The cached archive paths, the least recently used first.
    pub fn cache_order(&self) -> (r: Vec<String>)
        ensures
            r@.map_values(|s: String| s@) == self.cached().map_values(|e: (Seq<char>, Seq<u8>)| e.0),
    {
        self.cache.order()
    }

    /// Whether the resource at `zip_path` is cached.
    pub fn is_cached(&self, zip_path: &str) -> (b: bool)
        ensures
            b == (entry_index(self.cached(), zip_path@, 0) is Some),
    {
        self.cache.contains(zip_path)
    }

    /// Empties the resource cache.
    pub fn clear_resource_cache(&mut self)
        ensures
            final(self).cached() == Seq::<(Seq<char>, Seq<u8>)>::empty(),
            final(self).cache_limit() == old(self).cache_limit(),
            final(self).cached_navigation() == old(self).cached_navigation(),
    {
        self.cache.clear();
    }

    // ── Renditions ───────────────────────────────────────────────────────────

    /// The renditions declared in `META-INF/container.xml`; the first is the
    /// default one.
    pub fn get_renditions(&mut self) -> (r: Result<Vec<RenditionInfo>, EpubError>)
        ensures
            r matches Ok(v) ==> v@.len() > 0 && exists|events: Seq<XmlEvent>| #[trigger] container_declares(events, v@),
            r matches Err(EpubError::InvalidFormat(m)) ==> m@ == crate::parser::container::no_rootfile_message(),
            final(self).cached() == old(self).cached(),
            final(self).cache_limit() == old(self).cache_limit(),
            final(self).cached_navigation() == old(self).cached_navigation(),
    {
        parse_container(&mut self.provider)
    }

    /// Parses the rendition whose package document is at `opf_path`, with
    /// the encryption table of the package.  A new rendition has its own
    /// navigation: the kept navigation lists are dropped.
    pub fn parse_rendition(&mut self, opf_path: &str) -> (r: Result<EpubBook, EpubError>)
        ensures
            r matches Ok(b) ==> rendition_read(opf_path@, b),
            r is Ok ==> final(self).cached_navigation() is None,
            r is Err ==> final(self).cached_navigation() == old(self).cached_navigation(),
            final(self).cache_limit() == old(self).cache_limit(),
    {
        let mut book = match parse_opf(&mut self.provider, opf_path) {
            Ok(b) => b,
            Err(e) => return Err(e),
        };
        let ghost dir = crate::path::parent_dir_spec(opf_path@);
        let ghost events = choose|events: Seq<XmlEvent>|
            #[trigger] crate::parser::opf::book_of(dir, crate::parser::opf::opf_read(dir, events), book);
        book.encryptions = parse_encryption(&mut self.provider);
        assert(crate::parser::opf::package_of(dir, crate::parser::opf::opf_read(dir, events), book));
        assert(rendition_read(opf_path@, book));
        self.nav_cache = None;
        Ok(book)
    }

    /// Parses the default rendition (the first `rootfile`).
    pub fn parse(&mut self) -> (r: Result<EpubBook, EpubError>)
        ensures
            r matches Ok(b) ==> exists|events: Seq<XmlEvent>, v: Seq<RenditionInfo>|
                #[trigger] container_declares(events, v) && rendition_read(v[0].opf_path@, b),
            r is Ok ==> final(self).cached_navigation() is None,
            r is Err ==> final(self).cached_navigation() == old(self).cached_navigation(),
            final(self).cache_limit() == old(self).cache_limit(),
    {
        let renditions = match parse_container(&mut self.provider) {
            Ok(v) => v,
            Err(e) => return Err(e),
        };
        let ghost events = choose|events: Seq<XmlEvent>| container_declares(events, renditions@);
        let path = renditions[0].opf_path.clone();
        let r = self.parse_rendition(path.as_str());
        assert(container_declares(events, renditions@));
        r
    }

    /// Parses the rendition at `index` (0-based, in `container.xml` order);
    /// an index past the end is refused.
    pub fn parse_by_index(&mut self, index: usize) -> (r: Result<EpubBook, EpubError>)
        ensures
            r matches Ok(b) ==> exists|events: Seq<XmlEvent>, v: Seq<RenditionInfo>|
                #[trigger] container_declares(events, v) && index < v.len() && rendition_read(
                    v[index as int].opf_path@,
                    b,
                ),
            r is Ok ==> final(self).cached_navigation() is None,
            r is Err ==> final(self).cached_navigation() == old(self).cached_navigation(),
            final(self).cache_limit() == old(self).cache_limit(),
    {
        let renditions = match parse_container(&mut self.provider) {
            Ok(v) => v,
            Err(e) => return Err(e),
        };
        let ghost events = choose|events: Seq<XmlEvent>| container_declares(events, renditions@);
        match rendition_path_at(renditions.as_slice(), index) {
            Ok(path) => {
                let r = self.parse_rendition(path.as_str());
                assert(container_declares(events, renditions@));
                r
            },
            Err(e) => Err(e),
        }
    }

    /// Parses the rendition that best fits the preferences (see
    /// [`preferred_opf_path`]); the default one when none fits.
    pub fn parse_best_for(&mut self, layout: Option<&str>, language: Option<&str>) -> (r: Result<
        EpubBook,
        EpubError,
    >)
        ensures
            r matches Ok(b) ==> exists|events: Seq<XmlEvent>, v: Seq<RenditionInfo>|
                #[trigger] container_declares(events, v) && rendition_read(
                    match chosen_spec(
                        v,
                        crate::parser::rendition::opt_chars(layout),
                        crate::parser::rendition::opt_chars(language),
                    ) {
                        Some(i) => v[i].opf_path@,
                        None => v[0].opf_path@,
                    },
                    b,
                ),
            r is Ok ==> final(self).cached_navigation() is None,
            r is Err ==> final(self).cached_navigation() == old(self).cached_navigation(),
            final(self).cache_limit() == old(self).cache_limit(),
    {
        let renditions = match parse_container(&mut self.provider) {
            Ok(v) => v,
            Err(e) => return Err(e),
        };
        let ghost events = choose|events: Seq<XmlEvent>| container_declares(events, renditions@);
        let path = preferred_opf_path(renditions.as_slice(), layout, language);
        let r = self.parse_rendition(path.as_str());
        assert(container_declares(events, renditions@));
        r
    }

    // ── Resources ────────────────────────────────────────────────────────────

    /// The bytes of the entry at `zip_path` (package-root-relative).  A
    /// cached entry is served from the cache and becomes the most recently
    /// used; otherwise the entry is read, and cached when the provider
    /// reports it no larger than [`CACHEABLE_ENTRY_BYTES`].
    pub fn read_zip_entry(&mut self, book: &EpubBook, zip_path: &str) -> (r: Result<Vec<u8>, EpubError>)
        ensures
            final(self).cache_limit() == old(self).cache_limit(),
            final(self).cached_navigation() == old(self).cached_navigation(),
            entry_read(old(self).cached(), final(self).cached(), old(self).cache_limit(), zip_path@, r),
            entry_index(old(self).cached(), zip_path@, 0) is None ==> exists|
                length: Result<u64, EpubError>,
                read: Result<Vec<u8>, EpubError>,
            |
                #[trigger] uncached_read(
                    old(self).cached(),
                    final(self).cached(),
                    old(self).cache_limit(),
                    zip_path@,
                    length,
                    read,
                    r,
                ),
    {
        match self.cache.get(zip_path) {
            Some(b) => return Ok(b),
            None => {},
        }
        let measured = self.provider.entry_length(zip_path);
        let length: u64 = match &measured {
            Ok(n) => *n,
            Err(_) => 0,
        };
        let read = self.provider.read_file(zip_path);
        let ghost answer = read;
        let bytes = match read {
            Ok(b) => b,
            Err(e) => {
                assert(uncached_read(self.cached(), self.cached(), self.cache_limit(), zip_path@, measured, answer, Err::<Vec<u8>, EpubError>(e)));
                return Err(e);
            },
        };
        let ghost before = self.cached();
        if length <= CACHEABLE_ENTRY_BYTES {
            let copy = bytes.clone();
            self.cache.insert(zip_path.to_string(), copy);
        }
        assert(uncached_read(before, self.cached(), self.cache_limit(), zip_path@, measured, answer, Ok::<Vec<u8>, EpubError>(bytes)));
        Ok(bytes)
    }

    /// The bytes of the resource with the given manifest href (relative to
    /// the package document).
    pub fn get_resource_by_href(&mut self, book: &EpubBook, href: &str) -> (r: Result<Vec<u8>, EpubError>)
        ensures
            final(self).cache_limit() == old(self).cache_limit(),
            final(self).cached_navigation() == old(self).cached_navigation(),
            entry_read(
                old(self).cached(),
                final(self).cached(),
                old(self).cache_limit(),
                join_spec(book.opf_dir@, href@),
                r,
            ),
    {
        let zip_path = join_epub_path(book.opf_dir.as_str(), href);
        self.read_zip_entry(book, zip_path.as_str())
    }

    /// The bytes of the resource at a package-root-relative path.
    pub fn get_resource_by_zip_path(&mut self, book: &EpubBook, zip_path: &str) -> (r: Result<Vec<u8>, EpubError>)
        ensures
            final(self).cache_limit() == old(self).cache_limit(),
            final(self).cached_navigation() == old(self).cached_navigation(),
            entry_read(old(self).cached(), final(self).cached(), old(self).cache_limit(), zip_path@, r),
    {
        self.read_zip_entry(book, zip_path)
    }

    /// The bytes of the resource with the given manifest id; an id the
    /// manifest does not hold is refused.
    pub fn get_resource_by_id(&mut self, book: &EpubBook, id: &str) -> (r: Result<Vec<u8>, EpubError>)
        ensures
            match manifest_index(book.manifest@, id@) {
                None => (r matches Err(EpubError::InvalidFormat(m)) && m@ == "ID "@ + id@ + " not found in manifest"@)
                    && final(self).cached() == old(self).cached(),
                Some(k) => entry_read(
                    old(self).cached(),
                    final(self).cached(),
                    old(self).cache_limit(),
                    join_spec(book.opf_dir@, book.manifest@[k].href@),
                    r,
                ),
            },
            final(self).cache_limit() == old(self).cache_limit(),
            final(self).cached_navigation() == old(self).cached_navigation(),
    {
        match book.manifest_item(id) {
            Some(item) => {
                let href = item.href.clone();
                self.get_resource_by_href(book, href.as_str())
            },
            None => {
                let mut m = lit("ID ");
                crate::text::extend_chars(&mut m, &chars_of(id));
                crate::text::extend_chars(&mut m, &lit(" not found in manifest"));
                Err(EpubError::InvalidFormat(crate::text::string_from_chars(&m)))
            },
        }
    }

    /// The cover image and its media type (see [`cover_choice`]); refused
    /// when the manifest has no image.
    pub fn get_cover_image(&mut self, book: &EpubBook) -> (r: Result<(Vec<u8>, String), EpubError>)
        ensures
            match cover_choice(*book) {
                Some(k) => r matches Ok(res) ==> res.1@ == book.manifest@[k].media_type@,
                None => r matches Err(EpubError::InvalidFormat(m)) && m@ == "No cover image found in EPUB"@,
            },
    {
        match cover_index(book) {
            Some(k) => {
                let id = book.manifest[k].id.clone();
                let media_type = book.manifest[k].media_type.clone();
                match self.get_resource_by_id(book, id.as_str()) {
                    Ok(bytes) => Ok((bytes, media_type)),
                    Err(e) => Err(e),
                }
            },
            None => Err(EpubError::InvalidFormat("No cover image found in EPUB".to_string())),
        }
    }

    // ── Reading positions and resolution ─────────────────────────────────────

    /// The positions of the reading order (see [`positions_by_reading_order`]),
    /// titled from the table of contents (none when it cannot be read).
    pub fn positions_by_reading_order<S: ReflowableStrategy>(&mut self, book: &EpubBook, strategy: &S) -> (r:
        Result<Vec<Vec<Position>>, EpubError>)
        requires
            book.spine@.len() < u64::MAX / 2,
        ensures
            match r {
                Ok(v) => first_missing(*book, linear_spine(book.spine@)) is None && exists|
                    chs: Seq<ReadingOrderChapter>,
                    ls: Seq<u64>,
                    toc: Seq<TocEntry>,
                | #[trigger] measured_positions(*book, chs, ls, *strategy, v@, toc_pairs(toc)),
                Err(EpubError::InvalidFormat(msg)) => match first_missing(*book, linear_spine(book.spine@)) {
                    Some(s) => msg@ == "Missing manifest item: "@ + book.spine@[s].idref@,
                    None => msg@ == too_many_positions_message() && exists|
                        chs: Seq<ReadingOrderChapter>,
                        lens: Seq<u64>,
                    | #[trigger] too_many_positions(*book, chs, lens, *strategy),
                },
                Err(_) => false,
            },
            final(self).cache_limit() == old(self).cache_limit(),
    {
        let toc = match self.get_toc(book) {
            Ok(t) => t,
            Err(_) => Vec::new(),
        };
        let r = positions_by_reading_order(&mut self.provider, book, strategy, toc.as_slice());
        proof {
            if r is Ok {
                let v = r->Ok_0;
                let (chs, ls) = choose|chs: Seq<ReadingOrderChapter>, ls: Seq<u64>|
                    #[trigger] measured_positions(*book, chs, ls, *strategy, v@, toc_pairs(toc@));
                assert(measured_positions(*book, chs, ls, *strategy, v@, toc_pairs(toc@)));
            }
        }
        r
    }

    /// Every reading position of the book, in reading order, with
    /// `bytes_per_position` bytes per position (0 for the default 1024).
    pub fn generate_locations(&mut self, book: &EpubBook, bytes_per_position: usize) -> (r: Result<
        Vec<Position>,
        EpubError,
    >)
        requires
            book.spine@.len() < u64::MAX / 2,
        ensures
            r matches Ok(v) ==> exists|
                chs: Seq<ReadingOrderChapter>,
                ls: Seq<u64>,
                toc: Seq<TocEntry>,
                by: Seq<Vec<Position>>,
            | #[trigger] measured_positions(
                *book,
                chs,
                ls,
                page_strategy(bytes_per_position),
                by,
                toc_pairs(toc),
            ) && v@ == flat_positions(by),
            match r {
                Ok(_) => true,
                Err(EpubError::InvalidFormat(msg)) => match first_missing(*book, linear_spine(book.spine@)) {
                    Some(s) => msg@ == "Missing manifest item: "@ + book.spine@[s].idref@,
                    None => msg@ == too_many_positions_message() && exists|
                        chs: Seq<ReadingOrderChapter>,
                        lens: Seq<u64>,
                    | #[trigger] too_many_positions(*book, chs, lens, page_strategy(bytes_per_position)),
                },
                Err(_) => false,
            },
            r is Ok ==> first_missing(*book, linear_spine(book.spine@)) is None,
            final(self).cache_limit() == old(self).cache_limit(),
    {
        let strategy = ArchiveEntryLength {
            page_length: if bytes_per_position == 0 {
                BYTES_PER_POSITION
            } else {
                bytes_per_position
            },
        };
        match self.positions_by_reading_order(book, &strategy) {
            Ok(by_chapter) => {
                let ghost by = by_chapter@;
                let flat = flatten_positions(by_chapter);
                assert(strategy == page_strategy(bytes_per_position));
                proof {
                    let (chs, ls, toc) = choose|chs: Seq<ReadingOrderChapter>, ls: Seq<u64>, toc: Seq<TocEntry>|
                        #[trigger] measured_positions(*book, chs, ls, strategy, by, toc_pairs(toc));
                    assert(measured_positions(*book, chs, ls, strategy, by, toc_pairs(toc)) && flat@
                        == flat_positions(by));
                }
                Ok(flat)
            },
            Err(e) => {
                assert(strategy == page_strategy(bytes_per_position));
                Err(e)
            },
        }
    }

    /// The reading positions with an index between CFIs and position
    /// numbers (see [`PositionIndex::build`]); `bytes_per_position` as for
    /// [`Self::generate_locations`].
    pub fn generate_location_index(&mut self, book: &EpubBook, bytes_per_position: usize) -> (r: Result<
        PositionIndex,
        EpubError,
    >)
        requires
            book.spine@.len() < u64::MAX / 2,
        ensures
            r matches Ok(idx) ==> exists|
                chs: Seq<ReadingOrderChapter>,
                ls: Seq<u64>,
                toc: Seq<TocEntry>,
                by: Seq<Vec<Position>>,
            | #[trigger] measured_positions(
                *book,
                chs,
                ls,
                page_strategy(bytes_per_position),
                by,
                toc_pairs(toc),
            ) && idx.positions_view() == flat_positions(by) && idx.order_view() == order_pairs(by),
            match r {
                Ok(_) => true,
                Err(EpubError::InvalidFormat(msg)) => match first_missing(*book, linear_spine(book.spine@)) {
                    Some(s) => msg@ == "Missing manifest item: "@ + book.spine@[s].idref@,
                    None => msg@ == too_many_positions_message() && exists|
                        chs: Seq<ReadingOrderChapter>,
                        lens: Seq<u64>,
                    | #[trigger] too_many_positions(*book, chs, lens, page_strategy(bytes_per_position)),
                },
                Err(_) => false,
            },
            r is Ok ==> first_missing(*book, linear_spine(book.spine@)) is None,
            final(self).cache_limit() == old(self).cache_limit(),
    {
        let strategy = ArchiveEntryLength {
            page_length: if bytes_per_position == 0 {
                BYTES_PER_POSITION
            } else {
                bytes_per_position
            },
        };
        match self.positions_by_reading_order(book, &strategy) {
            Ok(by_chapter) => {
                let ghost by = by_chapter@;
                let idx = PositionIndex::build(by_chapter);
                assert(strategy == page_strategy(bytes_per_position));
                proof {
                    let (chs, ls, toc) = choose|chs: Seq<ReadingOrderChapter>, ls: Seq<u64>, toc: Seq<TocEntry>|
                        #[trigger] measured_positions(*book, chs, ls, strategy, by, toc_pairs(toc));
                    assert(measured_positions(*book, chs, ls, strategy, by, toc_pairs(toc)));
                }
                Ok(idx)
            },
            Err(e) => {
                assert(strategy == page_strategy(bytes_per_position));
                Err(e)
            },
        }
    }

    /// The title of the table-of-contents entry for `href` (see
    /// [`toc_title_for_href`]); `None` when the table of contents cannot be
    /// read.
    pub fn toc_title_for_href(&mut self, book: &EpubBook, href: &str) -> (r: Option<String>)
        ensures
            (r is Some || old(self).cached_navigation() is Some) ==> exists|toc: Seq<TocEntry>|
                opt_view(r) == #[trigger] toc_title_spec(book.opf_dir@, toc, href@)
                    && (final(self).cached_navigation() matches Some(v) && toc_views(toc) == v.toc),
            old(self).cached_navigation() is Some ==> final(self).cached_navigation() == old(self).cached_navigation(),
            final(self).cache_limit() == old(self).cache_limit(),
    {
        let toc = match self.get_toc(book) {
            Ok(t) => t,
            Err(_) => return None,
        };
        let r = toc_title_for_href(book, toc.as_slice(), href);
        assert(opt_view(r) == toc_title_spec(book.opf_dir@, toc@, href@) && (final(self).cached_navigation() matches Some(
            v,
        ) && toc_views(toc@) == v.toc));
        r
    }

    /// Where a reader should open the book (see [`preferred_reading_start`]),
    /// with the landmarks of its navigation (none when it cannot be read).
    pub fn preferred_reading_start(&mut self, book: &EpubBook) -> (r: ReadingStartInfo)
        ensures
            exists|landmarks: Seq<TocEntry>|
                {
                    let (idx, source, href) = #[trigger] reading_start_spec(*book, landmarks, 0);
                    &&& r.spine_index == idx
                    &&& r.source@ == source
                    &&& opt_view(r.href) == href
                    &&& (landmarks.len() == 0 || (final(self).cached_navigation() matches Some(v)
                        && toc_views(landmarks) == v.landmarks))
                },
            final(self).cache_limit() == old(self).cache_limit(),
    {
        let landmarks = match self.get_navigation(book) {
            Ok(nav) => nav.landmarks,
            Err(_) => Vec::new(),
        };
        let r = preferred_reading_start(book, landmarks.as_slice());
        proof {
            let (idx, source, href) = reading_start_spec(*book, landmarks@, 0);
            assert(r.spine_index == idx && r.source@ == source && opt_view(r.href) == href);
        }
        r
    }

    /// The absolute spine index that a table-of-contents href points at
    /// (see [`spine_index_for_href`]).
    pub fn spine_index_for_toc_href(&self, book: &EpubBook, href: &str) -> (r: Option<usize>)
        ensures
            match r {
                Some(i) => spine_index_for_href_spec(*book, href@, 0) == Some(i as int),
                None => spine_index_for_href_spec(*book, href@, 0) is None,
            },
    {
        spine_index_for_href(book, href)
    }

    /// Resolves `rel_path`, as referenced from the chapter `chapter_href`,
    /// to a package path the archive holds, with its media type: each
    /// candidate path (see [`resource_candidates`]) is probed in turn, and
    /// the manifest is searched when none exists (see
    /// [`resolve_from_probes`]).
    pub fn resolve_resource_path(&mut self, book: &EpubBook, chapter_href: Option<&str>, rel_path: &str) -> (r:
        Option<ResolvedResource>)
        ensures
            match r {
                Some(res) => resolves_to(*book, ref_view(chapter_href), rel_path@, res.zip_path@, res.media_type@),
                None => candidates_spec(*book, ref_view(chapter_href), rel_path@) is None || manifest_fallback_spec(
                    *book,
                    rel_path@,
                ) is None,
            },
            final(self).cached() == old(self).cached(),
            final(self).cache_limit() == old(self).cache_limit(),
            final(self).cached_navigation() == old(self).cached_navigation(),
    {
        let candidates = match resource_candidates(book, chapter_href, rel_path) {
            Some(c) => c,
            None => return None,
        };
        let mut present: Vec<bool> = Vec::new();
        let mut i: usize = 0;
        while i < candidates.len()
            invariant
                i <= candidates@.len(),
                present@.len() == i,
                self.cache == old(self).cache,
                self.nav_cache == old(self).nav_cache,
            decreases candidates@.len() - i,
        {
            let found = match self.provider.entry_length(candidates[i].as_str()) {
                Ok(_) => true,
                Err(_) => false,
            };
            present.push(found);
            i = i + 1;
        }
        let r = resolve_from_probes(book, rel_path, &candidates, present.as_slice());
        proof {
            let c = candidates@.map_values(|s: String| s@);
            assert(candidates_spec(*book, ref_view(chapter_href), rel_path@) == Some(c));
            if r is Some {
                let res = r->0;
                if exists|k: int|
                    0 <= k < candidates@.len() && present@[k] && (forall|j: int| 0 <= j < k ==> !present@[j])
                        && res.zip_path@ == candidates@[k]@ && res.media_type@ == path_media_type(
                        *book,
                        candidates@[k]@,
                    ) {
                    let k = choose|k: int|
                        0 <= k < candidates@.len() && present@[k] && (forall|j: int| 0 <= j < k ==> !present@[j])
                            && res.zip_path@ == candidates@[k]@ && res.media_type@ == path_media_type(
                            *book,
                            candidates@[k]@,
                        );
                    assert(c[k] == res.zip_path@);
                    assert(0 <= k < c.len());
                    assert(res.media_type@ == path_media_type(*book, res.zip_path@));
                    assert(resolves_to(*book, ref_view(chapter_href), rel_path@, res.zip_path@, res.media_type@));
                } else {
                    assert(manifest_fallback_spec(*book, rel_path@) == Some((res.zip_path@, res.media_type@)));
                }
                assert(resolves_to(*book, ref_view(chapter_href), rel_path@, res.zip_path@, res.media_type@));
            }
        }
        r
    }

    /// Resolves a reference (see [`Self::resolve_resource_path`]) and reads
    /// its bytes; refused when it does not resolve.
    pub fn get_resolved_resource(&mut self, book: &EpubBook, chapter_href: Option<&str>, rel_path: &str) -> (r:
        Result<(Vec<u8>, String), EpubError>)
        ensures
            candidates_spec(*book, ref_view(chapter_href), rel_path@) is None ==> (r matches Err(
                EpubError::InvalidFormat(m),
            ) && m@ == "resource not found: "@ + rel_path@),
            r matches Ok(p) ==> resolved_read(
                *book,
                ref_view(chapter_href),
                rel_path@,
                p,
                old(self).cached(),
                final(self).cached(),
                old(self).cache_limit(),
            ),
            final(self).cache_limit() == old(self).cache_limit(),
            final(self).cached_navigation() == old(self).cached_navigation(),
    {
        match self.resolve_resource_path(book, chapter_href, rel_path) {
            Some(res) => match self.read_zip_entry(book, res.zip_path.as_str()) {
                Ok(bytes) => {
                    let pair = (bytes, res.media_type);
                    assert(resolves_to(*book, ref_view(chapter_href), rel_path@, res.zip_path@, pair.1@));
                    assert(entry_read(
                        old(self).cached(),
                        self.cached(),
                        old(self).cache_limit(),
                        res.zip_path@,
                        Ok::<Vec<u8>, EpubError>(pair.0),
                    ));
                    assert(resolved_read(
                        *book,
                        ref_view(chapter_href),
                        rel_path@,
                        pair,
                        old(self).cached(),
                        self.cached(),
                        old(self).cache_limit(),
                    ));
                    Ok(pair)
                },
                Err(e) => Err(e),
            },
            None => {
                let mut m = lit("resource not found: ");
                crate::text::extend_chars(&mut m, &chars_of(rel_path));
                Err(EpubError::InvalidFormat(crate::text::string_from_chars(&m)))
            },
        }
    }

    /// Media type for a package path (see [`resource_media_type`]).
    pub fn resource_media_type(&self, book: &EpubBook, path: &str) -> (r: String)
        ensures
            r@ == path_media_type(*book, path@),
    {
        resource_media_type(book, path)
    }

    // ── Chapters ─────────────────────────────────────────────────────────────

    /// The message for an id that the spine does not hold.
    fn not_in_spine(id: &str) -> (e: EpubError)
        ensures
            e matches EpubError::InvalidFormat(m) && m@ == "ID "@ + id@ + " not found in spine"@,
    {
        let mut m = lit("ID ");
        crate::text::extend_chars(&mut m, &chars_of(id));
        crate::text::extend_chars(&mut m, &lit(" not found in spine"));
        EpubError::InvalidFormat(crate::text::string_from_chars(&m))
    }

    /// The text of the spine item `id` (its bytes read as UTF-8, lossily)
    /// and its spine CFI.
    fn chapter_text(&mut self, book: &EpubBook, id: &str) -> (r: Result<(String, String), EpubError>)
        ensures
            match spine_position(book.spine@, id@, 0) {
                None => r matches Err(EpubError::InvalidFormat(m)) && m@ == "ID "@ + id@ + " not found in spine"@,
                Some(k) => r matches Ok(p) ==> p.1@ == spine_base_cfi_spec(k as nat, id@) && exists|b: Seq<u8>|
                    p.0@ == #[trigger] utf8_lossy(b),
            },
            final(self).cache_limit() == old(self).cache_limit(),
            final(self).cached_navigation() == old(self).cached_navigation(),
    {
        let k = match book.spine_position_of(id) {
            Some(k) => k,
            None => return Err(Self::not_in_spine(id)),
        };
        let base = EpubCfi::generate_spine_base_cfi(k, id);
        let raw = match self.get_resource_by_id(book, id) {
            Ok(b) => b,
            Err(e) => return Err(e),
        };
        let html = utf8_lossy_string(raw.as_slice());
        Ok((html, base))
    }

    /// The chapter `id` with a `data-cfi` attribute on every element (see
    /// [`inject_cfi_dom`]); an id that the spine does not hold is refused.
    pub fn get_chapter_with_cfi(&mut self, book: &EpubBook, id: &str) -> (r: Result<String, EpubError>)
        ensures
            spine_position(book.spine@, id@, 0) is None ==> (r matches Err(EpubError::InvalidFormat(m)) && m@
                == "ID "@ + id@ + " not found in spine"@),
            final(self).cache_limit() == old(self).cache_limit(),
    {
        let (html, base) = match self.chapter_text(book, id) {
            Ok(p) => p,
            Err(e) => return Err(e),
        };
        inject_cfi_dom(html.as_str(), base.as_str())
    }

    /// Searches the chapter `id` for `pattern` (see
    /// [`crate::processor::search::search_chapter`]); an id that the spine
    /// does not hold is refused.
    pub fn search_chapter(&mut self, book: &EpubBook, id: &str, pattern: &TextPattern) -> (r: Result<
        Vec<SearchResult>,
        EpubError,
    >)
        ensures
            match spine_position(book.spine@, id@, 0) {
                None => r matches Err(EpubError::InvalidFormat(m)) && m@ == "ID "@ + id@ + " not found in spine"@,
                Some(k) => r matches Ok(v) ==> exists|b: Seq<u8>|
                    #[trigger] searched_as(utf8_lossy(b), spine_base_cfi_spec(k as nat, id@), hit_views(v@))
                        && hit_views(v@) == chapter_hits(
                        utf8_lossy(b),
                        spine_base_cfi_spec(k as nat, id@),
                        pattern.pattern(),
                        pattern.case_insensitive(),
                    ),
            },
            final(self).cache_limit() == old(self).cache_limit(),
            final(self).cached_navigation() == old(self).cached_navigation(),
    {
        let (html, base) = match self.chapter_text(book, id) {
            Ok(p) => p,
            Err(e) => return Err(e),
        };
        let r = crate::processor::search::search_chapter(html.as_str(), base.as_str(), pattern);
        proof {
            let b = choose|b: Seq<u8>| html@ == #[trigger] utf8_lossy(b);
            assert(searched_as(utf8_lossy(b), base@, hit_views(r->Ok_0@)));
            assert(hit_views(r->Ok_0@) == chapter_hits(
                utf8_lossy(b),
                base@,
                pattern.pattern(),
                pattern.case_insensitive(),
            ));
        }
        r
    }

    /// The semantic blocks of the chapter `id` (see
    /// [`extract_semantic_content`]); an id that the spine does not hold is
    /// refused.
    pub fn get_semantic_content(&mut self, book: &EpubBook, id: &str) -> (r: Result<Vec<ContentElement>, EpubError>)
        ensures
            match spine_position(book.spine@, id@, 0) {
                None => r matches Err(EpubError::InvalidFormat(m)) && m@ == "ID "@ + id@ + " not found in spine"@,
                Some(k) => r matches Ok(v) ==> exists|b: Seq<u8>|
                    content_views(v@) == semantic_content(
                        dom_tree(html_dom(#[trigger] utf8_lossy(b))),
                        spine_base_cfi_spec(k as nat, id@),
                    ),
            },
            final(self).cache_limit() == old(self).cache_limit(),
    {
        let (html, base) = match self.chapter_text(book, id) {
            Ok(p) => p,
            Err(e) => return Err(e),
        };
        let v = extract_semantic_content(html.as_str(), base.as_str());
        proof {
            let b = choose|b: Seq<u8>| html@ == #[trigger] utf8_lossy(b);
            assert(content_views(v@) == semantic_content(dom_tree(html_dom(utf8_lossy(b))), base@));
        }
        Ok(v)
    }

    /// Searches the linear chapters of the book for `query` taken
    /// literally (see [`Self::search_book_with_options`]), case-insensitively.
    pub fn search_book(&mut self, book: &EpubBook, query: &str, max_per_chapter: usize, max_total: usize) -> (r:
        Result<Vec<BookSearchHit>, EpubError>)
        ensures
            trim_spec(query@).len() == 0 ==> (r matches Ok(v) && v@.len() == 0),
            r matches Ok(hits) ==> (trim_spec(query@).len() > 0 ==> exists|results: Seq<Option<Vec<SearchResult>>>|
                #[trigger] results.len() == book.spine@.len() && capped_hits(
                    *book,
                    results,
                    false,
                    cap_or(max_per_chapter, 12),
                    cap_or(max_total, 80),
                    hits@,
                ) && results_searched(*book, results, regex_escaped(trim_spec(query@)), true)),
            final(self).cache_limit() == old(self).cache_limit(),
    {
        let options = SearchBookOptions {
            max_per_chapter,
            max_total,
            case_insensitive: true,
            include_non_linear: false,
        };
        self.search_book_with_options(book, query, &options)
    }

    /// Searches the chapters of the book for `query` taken literally (its
    /// white space trimmed; an empty query finds nothing): in spine order,
    /// non-linear chapters only when asked, at most `max_per_chapter` hits
    /// per chapter and `max_total` in all (0 meaning 12 and 80); a chapter
    /// that cannot be read is skipped.  A query that does not compile is
    /// refused.
    pub fn search_book_with_options(&mut self, book: &EpubBook, query: &str, options: &SearchBookOptions) -> (r:
        Result<Vec<BookSearchHit>, EpubError>)
        ensures
            trim_spec(query@).len() == 0 ==> (r matches Ok(v) && v@.len() == 0),
            r matches Ok(hits) ==> (trim_spec(query@).len() > 0 ==> exists|results: Seq<Option<Vec<SearchResult>>>|
                #[trigger] results.len() == book.spine@.len() && capped_hits(
                    *book,
                    results,
                    options.include_non_linear,
                    cap_or(options.max_per_chapter, 12),
                    cap_or(options.max_total, 80),
                    hits@,
                ) && results_searched(*book, results, regex_escaped(trim_spec(query@)), options.case_insensitive)),
            r matches Err(e) ==> e is InvalidFormat,
            final(self).cache_limit() == old(self).cache_limit(),
    {
        let trimmed = string_from_chars(&trim_chars(&chars_of(query)));
        if trimmed.as_str().is_empty() {
            return Ok(Vec::new());
        }
        let pattern = match literal_regex(trimmed.as_str(), options.case_insensitive) {
            Ok(p) => p,
            Err(m) => {
                let mut msg = lit("invalid search query: ");
                crate::text::extend_chars(&mut msg, &chars_of(m.as_str()));
                return Err(EpubError::InvalidFormat(crate::text::string_from_chars(&msg)));
            },
        };
        let (max_per, max_total) = crate::parser::reading::search_caps(options);
        let mut results: Vec<Option<Vec<SearchResult>>> = Vec::new();
        let mut found: usize = 0;
        let mut i: usize = 0;
        while i < book.spine.len()
            invariant
                i <= book.spine@.len(),
                results@.len() == i,
                self.cache_limit() == old(self).cache_limit(),
                pattern.pattern() == regex_escaped(trim_spec(query@)),
                pattern.case_insensitive() == options.case_insensitive,
                results_searched(*book, results@, pattern.pattern(), pattern.case_insensitive()),
            decreases book.spine@.len() - i,
        {
            let ghost rb = results@;
            let searched = options.include_non_linear || book.spine[i].linear;
            if !searched || found >= max_total {
                results.push(None);
            } else {
                let id = book.spine[i].idref.clone();
                match self.search_chapter(book, id.as_str(), &pattern) {
                    Ok(h) => {
                        let n = if h.len() < max_per {
                            h.len()
                        } else {
                            max_per
                        };
                        found = if found < usize::MAX - n {
                            found + n
                        } else {
                            usize::MAX
                        };
                        proof {
                            lemma_spine_position_of(book.spine@, i as int);
                        }
                        results.push(Some(h));
                    },
                    Err(_) => {
                        results.push(None);
                    },
                }
            }
            proof {
                assert forall|j: int|
                    0 <= j < results@.len() && (#[trigger] results@[j]) is Some implies chapter_result(
                    *book,
                    j,
                    hit_views(results@[j]->0@),
                    pattern.pattern(),
                    pattern.case_insensitive(),
                ) by {
                    if j < i {
                        assert(results@[j] == rb[j]);
                    }
                }
            }
            i = i + 1;
        }
        let hits = collect_search_hits(book, results.as_slice(), options);
        assert(trimmed@ == trim_spec(query@));
        Ok(hits)
    }

    // ── Media overlays ───────────────────────────────────────────────────────

    /// Whether some manifest item has a media overlay.
    pub fn has_media_overlays(&self, book: &EpubBook) -> (b: bool)
        ensures
            b == exists|k: int| 0 <= k < book.manifest@.len() && (#[trigger] book.manifest@[k]).media_overlay is Some,
    {
        let mut i: usize = 0;
        while i < book.manifest.len()
            invariant
                i <= book.manifest@.len(),
                forall|k: int| 0 <= k < i ==> (#[trigger] book.manifest@[k]).media_overlay is None,
            decreases book.manifest@.len() - i,
        {
            if book.manifest[i].media_overlay.is_some() {
                return true;
            }
            i = i + 1;
        }
        false
    }

    /// The media overlay of the content document with manifest href
    /// `content_href`: `None` when its manifest item names none; refused
    /// when the overlay's id is not in the manifest, when the SMIL file
    /// cannot be read or is not UTF-8, and when it is malformed XML.
    pub fn media_overlay(&mut self, book: &EpubBook, content_href: &str) -> (r: Result<Option<MediaOverlay>, EpubError>)
        ensures
            match item_with_href(book.manifest@, content_href@, 0) {
                None => r matches Ok(None),
                Some(i) => match book.manifest@[i].media_overlay {
                    None => r matches Ok(None),
                    Some(ov) => match manifest_index(book.manifest@, ov@) {
                        None => r matches Err(EpubError::InvalidFormat(m)) && m@ == "media-overlay ID '"@ + ov@
                            + "' not found in manifest"@,
                        Some(k) => r matches Ok(Some(o)) ==> ({
                            let path = root_path(*book, book.manifest@[k].href@);
                            let dir = crate::path::parent_dir_spec(path);
                            let (prev, next) = overlay_neighbours(overlay_paths(*book, 0), path);
                            &&& exists|events: Seq<XmlEvent>|
                                is_document(events) && smil_views(o.nodes@) == #[trigger] smil_nodes(events, dir)
                            &&& opt_view(o.prev_smil_href) == prev
                            &&& opt_view(o.next_smil_href) == next
                        }),
                    },
                },
            },
    {
        let found = item_with_href_exec(book, content_href);
        let i = match found {
            Some(i) => i,
            None => return Ok(None),
        };
        let ov = match &book.manifest[i].media_overlay {
            Some(ov) => ov.clone(),
            None => return Ok(None),
        };
        let sm = match book.manifest_item(ov.as_str()) {
            Some(sm) => sm,
            None => {
                let mut m = lit("media-overlay ID '");
                crate::text::extend_chars(&mut m, &chars_of(ov.as_str()));
                crate::text::extend_chars(&mut m, &lit("' not found in manifest"));
                return Err(EpubError::InvalidFormat(crate::text::string_from_chars(&m)));
            },
        };
        let path = root_path_exec(book, sm.href.as_str());
        let dir = string_from_chars(&crate::path::parent_dir(&chars_of(path.as_str())));
        let bytes = match self.provider.read_file(path.as_str()) {
            Ok(b) => b,
            Err(e) => return Err(e),
        };
        let xml = match utf8_text(bytes) {
            Some(t) => t,
            None => return Err(EpubError::Io("stream did not contain valid UTF-8".to_string())),
        };
        let nodes = match parse_smil_structure(xml.as_str(), dir.as_str()) {
            Ok(n) => n,
            Err(e) => return Err(e),
        };
        let paths = overlay_paths_exec(book);
        let (prev, next) = neighbours_exec(&paths, path.as_str());
        Ok(Some(MediaOverlay { nodes, prev_smil_href: prev, next_smil_href: next }))
    }

    // ── Navigation ───────────────────────────────────────────────────────────

    /// Reads the navigation lists of `book` from its navigation document, or
    /// else from its NCX file (see [`navigation_from_bytes`]); with neither,
    /// the lists are empty.
    fn load_navigation(&mut self, book: &EpubBook) -> (r: Result<NavigationDocument, EpubError>)
        ensures
            r matches Ok(nav) ==> exists|b: Seq<u8>| navigation_of(*book, b, #[trigger] nav_views(nav)),
            (nav_item_index(book.manifest@, 0) is None && ncx_item_index(*book) is None) ==> (r matches Ok(
                nav,
            ) && nav_views(nav) == empty_nav()),
            final(self).cache_limit() == old(self).cache_limit(),
            final(self).cached_navigation() == old(self).cached_navigation(),
    {
        let id = match nav_item_of(book) {
            Some(k) => Some(book.manifest[k].id.clone()),
            None => match &book.toc_id {
                Some(t) => match book.manifest_item(t.as_str()) {
                    Some(item) => Some(item.id.clone()),
                    None => None,
                },
                None => None,
            },
        };
        match id {
            Some(id) => {
                let bytes = match self.get_resource_by_id(book, id.as_str()) {
                    Ok(b) => b,
                    Err(e) => return Err(e),
                };
                navigation_from_bytes(book, bytes.as_slice())
            },
            None => {
                let empty: Vec<u8> = Vec::new();
                navigation_from_bytes(book, empty.as_slice())
            },
        }
    }

    /// The navigation lists of `book`: read once per rendition, then served
    /// from what was kept (see [`Self::parse_rendition`]).
    pub fn get_navigation(&mut self, book: &EpubBook) -> (r: Result<NavigationDocument, EpubError>)
        ensures
            match old(self).cached_navigation() {
                Some(v) => (r matches Ok(nav) && nav_views(nav) == v) && final(self).cached_navigation() == Some(v),
                None => match r {
                    Ok(nav) => final(self).cached_navigation() == Some(nav_views(nav)) && exists|b: Seq<u8>|
                        navigation_of(*book, b, #[trigger] nav_views(nav)),
                    Err(_) => final(self).cached_navigation() is None,
                },
            },
            final(self).cache_limit() == old(self).cache_limit(),
    {
        match &self.nav_cache {
            Some(n) => {
                let c = n.copy();
                return Ok(c);
            },
            None => {},
        }
        let nav = match self.load_navigation(book) {
            Ok(n) => n,
            Err(e) => return Err(e),
        };
        self.nav_cache = Some(nav.copy());
        Ok(nav)
    }

    /// The table of contents (see [`Self::get_navigation`]).
    pub fn get_toc(&mut self, book: &EpubBook) -> (r: Result<Vec<TocEntry>, EpubError>)
        ensures
            old(self).cached_navigation() is Some ==> r is Ok && final(self).cached_navigation()
                == old(self).cached_navigation(),
            r matches Ok(t) ==> (final(self).cached_navigation() matches Some(v) && toc_views(t@) == v.toc),
            final(self).cache_limit() == old(self).cache_limit(),
    {
        match self.get_navigation(book) {
            Ok(nav) => Ok(nav.toc),
            Err(e) => Err(e),
        }
    }

    /// The page list (see [`Self::get_navigation`]); empty when the
    /// publication has none.
    pub fn get_page_list(&mut self, book: &EpubBook) -> (r: Result<Vec<TocEntry>, EpubError>)
        ensures
            old(self).cached_navigation() is Some ==> r is Ok && final(self).cached_navigation()
                == old(self).cached_navigation(),
            r matches Ok(t) ==> (final(self).cached_navigation() matches Some(v) && toc_views(t@) == v.page_list),
            final(self).cache_limit() == old(self).cache_limit(),
    {
        match self.get_navigation(book) {
            Ok(nav) => Ok(nav.page_list),
            Err(e) => Err(e),
        }
    }
}

/// `hits` are the book's hits for the per-chapter results `results`: the
/// searched chapters' first `max_per` results each, in spine order, at
/// most `max_total` in all.
pub open spec fn capped_hits(
    book: EpubBook,
    results: Seq<Option<Vec<SearchResult>>>,
    include_non_linear: bool,
    max_per: nat,
    max_total: nat,
    hits: Seq<BookSearchHit>,
) -> bool {
    let all = book_hits_spec(book, results, include_non_linear, max_per, book.spine@.len() as int);
    &&& hits.len() == (if all.len() < max_total {
        all.len()
    } else {
        max_total
    })
    &&& forall|k: int| 0 <= k < hits.len() ==> hit_view(#[trigger] hits[k]) == all[k]
}

/// The manifest position of the first item whose href is `href`.
pub open spec fn item_with_href(m: Seq<ManifestItem>, href: Seq<char>, from: int) -> Option<int>
    decreases m.len() - from,
{
    if from < 0 || from >= m.len() {
        None
    } else if m[from].href@ == href {
        Some(from)
    } else {
        item_with_href(m, href, from + 1)
    }
}

/// The package-root-relative path of a manifest href.
pub open spec fn root_path(book: EpubBook, href: Seq<char>) -> Seq<char> {
    if book.opf_dir@.len() == 0 {
        href
    } else {
        book.opf_dir@ + "/"@ + href
    }
}

/// The paths of the overlays of the linear spine items that have one, in
/// spine order, from spine position `i` on.
pub open spec fn overlay_paths(book: EpubBook, i: int) -> Seq<Seq<char>>
    decreases book.spine@.len() - i,
{
    if i < 0 || i >= book.spine@.len() {
        Seq::empty()
    } else {
        let rest = overlay_paths(book, i + 1);
        let s = book.spine@[i];
        if s.linear {
            match manifest_index(book.manifest@, s.idref@) {
                Some(k) => match book.manifest@[k].media_overlay {
                    Some(ov) => match manifest_index(book.manifest@, ov@) {
                        Some(j) => seq![root_path(book, book.manifest@[j].href@)] + rest,
                        None => rest,
                    },
                    None => rest,
                },
                None => rest,
            }
        } else {
            rest
        }
    }
}

/// The position of the first `p` in `paths`.
pub open spec fn path_index(paths: Seq<Seq<char>>, p: Seq<char>, from: int) -> Option<int>
    decreases paths.len() - from,
{
    if from < 0 || from >= paths.len() {
        None
    } else if paths[from] == p {
        Some(from)
    } else {
        path_index(paths, p, from + 1)
    }
}

/// The overlays before and after `p` in reading order.
pub open spec fn overlay_neighbours(paths: Seq<Seq<char>>, p: Seq<char>) -> (Option<Seq<char>>, Option<Seq<char>>) {
    match path_index(paths, p, 0) {
        Some(i) => (
            if i >= 1 {
                Some(paths[i - 1])
            } else {
                None
            },
            if i + 1 < paths.len() {
                Some(paths[i + 1])
            } else {
                None
            },
        ),
        None => (None, None),
    }
}

/// `b` is what reading the rendition whose package document is at
/// `opf_path` gives: its directory, what some reading of the package
/// document describes, and the encryption table some reading of
/// `META-INF/encryption.xml` gives.
pub open spec fn rendition_read(opf_path: Seq<char>, b: EpubBook) -> bool {
    let dir = crate::path::parent_dir_spec(opf_path);
    &&& b.opf_dir@ == dir
    &&& exists|events: Seq<XmlEvent>|
        #[trigger] crate::parser::opf::package_of(dir, crate::parser::opf::opf_read(dir, events), b)
    &&& exists|events: Seq<XmlEvent>|
        crate::parser::encryption::table_view(b.encryptions@)
            == #[trigger] crate::parser::encryption::encryption_state(events).0
}

proof fn lemma_spine_position_from(spine: Seq<crate::model::SpineItem>, from: int, i: int)
    requires
        0 <= from <= i < spine.len(),
    ensures
        spine_position(spine, spine[i].idref@, from) is Some,
    decreases i - from,
{
    if spine[from].idref@ != spine[i].idref@ {
        lemma_spine_position_from(spine, from + 1, i);
    }
}

proof fn lemma_spine_position_of(spine: Seq<crate::model::SpineItem>, i: int)
    requires
        0 <= i < spine.len(),
    ensures
        spine_position(spine, spine[i].idref@, 0) is Some,
{
    lemma_spine_position_from(spine, 0, i);
}

/// `hits` is what searching the chapter at spine position `j` for
/// `pattern` gives, for some bytes of that chapter.
pub open spec fn chapter_result(book: EpubBook, j: int, hits: Seq<crate::processor::search::HitV>, pattern: Seq<
    char,
>, ci: bool) -> bool {
    match spine_position(book.spine@, book.spine@[j].idref@, 0) {
        Some(k) => exists|b: Seq<u8>|
            hits == #[trigger] chapter_hits(
                utf8_lossy(b),
                spine_base_cfi_spec(k as nat, book.spine@[j].idref@),
                pattern,
                ci,
            ),
        None => false,
    }
}

/// Each chapter searched gave what searching it for `pattern` gives.
pub open spec fn results_searched(
    book: EpubBook,
    results: Seq<Option<Vec<SearchResult>>>,
    pattern: Seq<char>,
    ci: bool,
) -> bool {
    forall|j: int|
        0 <= j < results.len() && (#[trigger] results[j]) is Some ==> chapter_result(
            book,
            j,
            hit_views(results[j]->0@),
            pattern,
            ci,
        )
}

/// What a read of the entry `zip` does: a cached entry is served from the
/// cache and becomes the most recently used; otherwise the bytes read are
/// kept or not, and a failed read leaves the cache as it was.
pub open spec fn entry_read(
    before: Seq<(Seq<char>, Seq<u8>)>,
    after: Seq<(Seq<char>, Seq<u8>)>,
    limit: nat,
    zip: Seq<char>,
    r: Result<Vec<u8>, EpubError>,
) -> bool {
    match entry_index(before, zip, 0) {
        Some(k) => (r matches Ok(b) && b@ == before[k].1) && after == touched(before, k),
        None => match r {
            Ok(b) => after == before || after == stored(before, zip, b@, limit),
            Err(_) => after == before,
        },
    }
}

/// Whether an entry that the provider measured as `length` is kept in the
/// cache once read: when it is at most [`CACHEABLE_ENTRY_BYTES`] long; an
/// unknown length counts as 0.
pub open spec fn cacheable_length(length: Result<u64, EpubError>) -> bool {
    match length {
        Ok(n) => n <= CACHEABLE_ENTRY_BYTES,
        Err(_) => true,
    }
}

/// A read of the entry `zip`, not cached before, on which the provider
/// answered `length` for its size and `read` for its bytes: a failed read
/// is returned and leaves the cache as it was; else the bytes are returned
/// and stored when [`cacheable_length`] allows it.
pub open spec fn uncached_read(
    before: Seq<(Seq<char>, Seq<u8>)>,
    after: Seq<(Seq<char>, Seq<u8>)>,
    limit: nat,
    zip: Seq<char>,
    length: Result<u64, EpubError>,
    read: Result<Vec<u8>, EpubError>,
    r: Result<Vec<u8>, EpubError>,
) -> bool {
    match read {
        Err(e) => r == Err::<Vec<u8>, EpubError>(e) && after == before,
        Ok(b) => (r matches Ok(c) && c@ == b@) && after == (if cacheable_length(length) {
            stored(before, zip, b@, limit)
        } else {
            before
        }),
    }
}

/// An entry that was not cached and that the provider measures above
/// [`CACHEABLE_ENTRY_BYTES`] is served without touching the cache.
pub proof fn law_large_entries_bypass_cache(
    before: Seq<(Seq<char>, Seq<u8>)>,
    after: Seq<(Seq<char>, Seq<u8>)>,
    limit: nat,
    zip: Seq<char>,
    n: u64,
    read: Result<Vec<u8>, EpubError>,
    r: Result<Vec<u8>, EpubError>,
)
    requires
        uncached_read(before, after, limit, zip, Ok(n), read, r),
        n > CACHEABLE_ENTRY_BYTES,
    ensures
        after == before,
        read is Ok <==> r is Ok,
{
}

/// A reference as a plain value.
pub open spec fn ref_view(o: Option<&str>) -> Option<Seq<char>> {
    match o {
        Some(c) => Some(c@),
        None => None,
    }
}

/// The media type of a package path: the manifest's, else the one its
/// extension suggests.
pub open spec fn path_media_type(book: EpubBook, path: Seq<char>) -> Seq<char> {
    match manifest_media_type_spec(book, path) {
        Some(mt) => mt,
        None => media_type_for_ext(extension_spec(path)),
    }
}

/// Whether `(zip, mt)` is a resolution of `rel` as referenced from
/// `chapter`: one of its candidate paths with that path's media type, or
/// the manifest item that loosely matches it.
pub open spec fn resolves_to(book: EpubBook, chapter: Option<Seq<char>>, rel: Seq<char>, zip: Seq<char>, mt: Seq<
    char,
>) -> bool {
    match candidates_spec(book, chapter, rel) {
        None => false,
        Some(c) => (c.contains(zip) && mt == path_media_type(book, zip)) || manifest_fallback_spec(book, rel) == Some(
            (zip, mt),
        ),
    }
}

/// Whether `res` (bytes and media type) is what reading a resolution of
/// `rel` gives: some path that `rel` resolves to with that media type,
/// read as [`entry_read`] says.
pub open spec fn resolved_read(
    book: EpubBook,
    chapter: Option<Seq<char>>,
    rel: Seq<char>,
    res: (Vec<u8>, String),
    before: Seq<(Seq<char>, Seq<u8>)>,
    after: Seq<(Seq<char>, Seq<u8>)>,
    limit: nat,
) -> bool {
    exists|zip: Seq<char>|
        #[trigger] resolves_to(book, chapter, rel, zip, res.1@) && entry_read(
            before,
            after,
            limit,
            zip,
            Ok::<Vec<u8>, EpubError>(res.0),
        )
}

/// The media overlay of a content document: its synchronisation
/// structure, and the overlays before and after it in reading order.
pub struct MediaOverlay {
    pub nodes: Vec<SmilNode>,
    pub prev_smil_href: Option<String>,
    pub next_smil_href: Option<String>,
}

/// The strategy with `n` bytes per position, 0 meaning the default.
pub open spec fn page_strategy(n: usize) -> ArchiveEntryLength {
    ArchiveEntryLength {
        page_length: if n == 0 {
            BYTES_PER_POSITION
        } else {
            n
        },
    }
}

/// The positions of all chapters, in order.
pub fn flatten_positions(by_chapter: Vec<Vec<Position>>) -> (r: Vec<Position>)
    ensures
        r@ == flat_positions(by_chapter@),
{
    let ghost chapters = by_chapter@;
    let mut out: Vec<Position> = Vec::new();
    let mut k: usize = 0;
    assert(chapters.take(0) =~= Seq::<Vec<Position>>::empty());
    let n = by_chapter.len();
    assert(chapters.len() == n);
    for chapter in it: by_chapter.into_iter()
        invariant
            it.seq() == chapters,
            k == it.index(),
            k <= chapters.len(),
            chapters.len() <= usize::MAX,
            out@ == flat_positions(chapters.take(k as int)),
    {
        let mut chapter = chapter;
        proof {
            assert(chapter == chapters[k as int]);
            assert(chapters.take(k + 1).drop_last() =~= chapters.take(k as int));
            assert(chapters.take(k + 1).last() == chapters[k as int]);
        }
        out.append(&mut chapter);
        k = k + 1;
    }
    assert(chapters.take(k as int) =~= chapters);
    out
}

proof fn lemma_item_with_href(m: Seq<ManifestItem>, href: Seq<char>, from: int)
    requires
        0 <= from,
    ensures
        item_with_href(m, href, from) matches Some(k) ==> from <= k < m.len(),
    decreases m.len() - from,
{
    if from < m.len() && m[from].href@ != href {
        lemma_item_with_href(m, href, from + 1);
    }
}

fn item_with_href_exec(book: &EpubBook, href: &str) -> (r: Option<usize>)
    ensures
        match r {
            Some(k) => item_with_href(book.manifest@, href@, 0) == Some(k as int) && k < book.manifest@.len(),
            None => item_with_href(book.manifest@, href@, 0) is None,
        },
{
    proof {
        lemma_item_with_href(book.manifest@, href@, 0);
    }
    let mut i: usize = 0;
    while i < book.manifest.len()
        invariant
            i <= book.manifest@.len(),
            item_with_href(book.manifest@, href@, 0) == item_with_href(book.manifest@, href@, i as int),
        decreases book.manifest@.len() - i,
    {
        if eq_str(&chars_of(book.manifest[i].href.as_str()), href) {
            return Some(i);
        }
        i = i + 1;
    }
    None
}

fn root_path_exec(book: &EpubBook, href: &str) -> (r: String)
    ensures
        r@ == root_path(*book, href@),
{
    if book.opf_dir.as_str().is_empty() {
        href.to_string()
    } else {
        let mut r = chars_of(book.opf_dir.as_str());
        r.push('/');
        crate::text::extend_chars(&mut r, &chars_of(href));
        proof {
            reveal_strlit("/");
            assert(r@ =~= book.opf_dir@ + "/"@ + href@);
        }
        string_from_chars(&r)
    }
}

/// The overlay paths of the book (see [`overlay_paths`]).
fn overlay_paths_exec(book: &EpubBook) -> (r: Vec<String>)
    ensures
        r@.map_values(|s: String| s@) == overlay_paths(*book, 0),
{
    let mut out: Vec<String> = Vec::new();
    let mut i: usize = book.spine.len();
    assert(out@.map_values(|s: String| s@) =~= overlay_paths(*book, book.spine@.len() as int));
    while i > 0
        invariant
            i <= book.spine@.len(),
            out@.map_values(|s: String| s@) == overlay_paths(*book, i as int),
        decreases i,
    {
        i = i - 1;
        let ghost rest = out@.map_values(|s: String| s@);
        let s = &book.spine[i];
        let mut item: Option<String> = None;
        if s.linear {
            match book.manifest_item(s.idref.as_str()) {
                Some(m) => match &m.media_overlay {
                    Some(ov) => match book.manifest_item(ov.as_str()) {
                        Some(sm) => {
                            item = Some(root_path_exec(book, sm.href.as_str()));
                        },
                        None => {},
                    },
                    None => {},
                },
                None => {},
            }
        }
        match item {
            Some(p) => {
                let mut v: Vec<String> = Vec::new();
                v.push(p);
                v.append(&mut out);
                out = v;
                assert(out@.map_values(|s: String| s@) =~= seq![p@] + rest);
            },
            None => {},
        }
    }
    out
}

fn neighbours_exec(paths: &Vec<String>, p: &str) -> (r: (Option<String>, Option<String>))
    ensures
        (opt_view(r.0), opt_view(r.1)) == overlay_neighbours(paths@.map_values(|s: String| s@), p@),
{
    let ghost pv = paths@.map_values(|s: String| s@);
    let mut i: usize = 0;
    while i < paths.len()
        invariant
            i <= paths@.len(),
            pv == paths@.map_values(|s: String| s@),
            path_index(pv, p@, 0) == path_index(pv, p@, i as int),
        decreases paths@.len() - i,
    {
        if eq_str(&chars_of(paths[i].as_str()), p) {
            let prev = if i >= 1 {
                Some(paths[i - 1].clone())
            } else {
                None
            };
            let next = if i + 1 < paths.len() {
                Some(paths[i + 1].clone())
            } else {
                None
            };
            return (prev, next);
        }
        i = i + 1;
    }
    (None, None)
}

// ── Cover ────────────────────────────────────────────────────────────────────

/// A manifest item lists the `cover-image` property.
pub open spec fn has_cover_property(m: ManifestItem) -> bool {
    exists|j: int| 0 <= j < m.properties@.len() && (#[trigger] m.properties@[j])@ == "cover-image"@
}

/// A manifest item is an image.
pub open spec fn is_image(m: ManifestItem) -> bool {
    starts_with(m.media_type@, "image/"@)
}

/// An image whose id or href mentions `cover` (ignoring case).
pub open spec fn named_cover(m: ManifestItem) -> bool {
    is_image(m) && (contains_seq(lowercased(m.id@), "cover"@) || contains_seq(lowercased(m.href@), "cover"@))
}

/// Which kind of cover candidate a scan looks for.
pub enum CoverRule {
    /// The `cover-image` property.
    Property,
    /// An image whose id or href mentions `cover`.
    Named,
    /// Any image.
    AnyImage,
}

pub open spec fn rule_holds(rule: CoverRule, m: ManifestItem) -> bool {
    match rule {
        CoverRule::Property => has_cover_property(m),
        CoverRule::Named => named_cover(m),
        CoverRule::AnyImage => is_image(m),
    }
}

/// The first manifest item (from `from`) that the rule takes.
pub open spec fn first_item_where(items: Seq<ManifestItem>, rule: CoverRule, from: int) -> Option<int>
    decreases items.len() - from,
{
    if from < 0 || from >= items.len() {
        None
    } else if rule_holds(rule, items[from]) {
        Some(from)
    } else {
        first_item_where(items, rule, from + 1)
    }
}

/// The manifest item of the cover image: the item that the EPUB 2
/// `meta name="cover"` names, else the first with the `cover-image`
/// property, else the first image whose id or href mentions `cover`, else
/// the first image.
pub open spec fn cover_choice(book: EpubBook) -> Option<int> {
    let items = book.manifest@;
    let by_id = match book.metadata.cover_id {
        Some(c) => manifest_index(items, c@),
        None => None,
    };
    match by_id {
        Some(k) => Some(k),
        None => match first_item_where(items, CoverRule::Property, 0) {
            Some(k) => Some(k),
            None => match first_item_where(items, CoverRule::Named, 0) {
                Some(k) => Some(k),
                None => first_item_where(items, CoverRule::AnyImage, 0),
            },
        },
    }
}

fn rule_holds_exec(rule: &CoverRule, m: &ManifestItem) -> (b: bool)
    ensures
        b == rule_holds(*rule, *m),
{
    match rule {
        CoverRule::Property => has_cover_property_exec(m),
        CoverRule::Named => named_cover_exec(m),
        CoverRule::AnyImage => is_image_exec(m),
    }
}

fn first_item_exec(items: &Vec<ManifestItem>, rule: CoverRule) -> (r: Option<usize>)
    ensures
        match r {
            Some(k) => k < items@.len() && first_item_where(items@, rule, 0) == Some(k as int),
            None => first_item_where(items@, rule, 0) is None,
        },
{
    let mut i: usize = 0;
    while i < items.len()
        invariant
            i <= items@.len(),
            first_item_where(items@, rule, 0) == first_item_where(items@, rule, i as int),
        decreases items@.len() - i,
    {
        if rule_holds_exec(&rule, &items[i]) {
            return Some(i);
        }
        i = i + 1;
    }
    None
}

fn has_cover_property_exec(m: &ManifestItem) -> (b: bool)
    ensures
        b == has_cover_property(*m),
{
    let mut j: usize = 0;
    while j < m.properties.len()
        invariant
            j <= m.properties@.len(),
            forall|i: int| 0 <= i < j ==> m.properties@[i]@ != "cover-image"@,
        decreases m.properties@.len() - j,
    {
        if eq_str(&chars_of(m.properties[j].as_str()), "cover-image") {
            return true;
        }
        j = j + 1;
    }
    false
}

fn is_image_exec(m: &ManifestItem) -> (b: bool)
    ensures
        b == is_image(*m),
{
    has_prefix(&chars_of(m.media_type.as_str()), "image/")
}

fn named_cover_exec(m: &ManifestItem) -> (b: bool)
    ensures
        b == named_cover(*m),
{
    let cover = lit("cover");
    is_image_exec(m) && (contains_chars(&chars_of(to_lowercase(m.id.as_str()).as_str()), &cover)
        || contains_chars(&chars_of(to_lowercase(m.href.as_str()).as_str()), &cover))
}

/// The manifest position of the cover image (see [`cover_choice`]).
pub fn cover_index(book: &EpubBook) -> (r: Option<usize>)
    ensures
        match r {
            Some(k) => k < book.manifest@.len() && cover_choice(*book) == Some(k as int),
            None => cover_choice(*book) is None,
        },
{
    let items = &book.manifest;
    match &book.metadata.cover_id {
        Some(c) => {
            let mut i: usize = 0;
            assert(items@.skip(0) =~= items@);
            while i < items.len()
                invariant
                    i <= items@.len(),
                    items == &book.manifest,
                    book.metadata.cover_id matches Some(cc) && cc@ == c@,
                    manifest_index(items@, c@) == match manifest_index(items@.skip(i as int), c@) {
                        Some(x) => Some(x + i),
                        None => None,
                    },
                decreases items@.len() - i,
            {
                proof {
                    assert(items@.skip(i as int)[0] == items@[i as int]);
                    assert(items@.skip(i as int).drop_first() =~= items@.skip(i + 1));
                }
                if eq_str(&chars_of(items[i].id.as_str()), c.as_str()) {
                    return Some(i);
                }
                i = i + 1;
            }
        },
        None => {},
    }
    match first_item_exec(items, CoverRule::Property) {
        Some(k) => return Some(k),
        None => {},
    }
    match first_item_exec(items, CoverRule::Named) {
        Some(k) => return Some(k),
        None => {},
    }
    first_item_exec(items, CoverRule::AnyImage)
}

} // verus!
