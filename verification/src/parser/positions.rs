//! Reading positions: how many a chapter has, the positions of the reading
//! order, and the index that converts between CFIs and position numbers.
use vstd::prelude::*;
use crate::model::{EpubBook, LayoutType, Position, TocEntry, SpineItem, EncryptionInfo, manifest_index};
use crate::error::EpubError;
use crate::provider::EpubProvider;
use crate::path::{join_spec, join_epub_path};
use crate::processor::rewrite::opt_view;
use crate::text::{chars_of, string_from_chars, extend_chars, lit, decimal_chars, decimal_spec, first_pos, lemma_first_pos, find_char, slice_chars, eq_chars};
use crate::cfi::{parse_cfi_spec, parse_cfi, CfiView, PathView, EpubCfi, path_view, cfi_view, CfiStep, StepView, steps_view};

verus! {

/// Default bytes per reading position, matching the Adobe RMSDK and Readium standard.
pub const BYTES_PER_POSITION: usize = 1024;

/// `ceil(a / b)` for `b > 0`.
pub open spec fn ceil_div(a: nat, b: nat) -> nat {
    if a % b == 0 {
        a / b
    } else {
        a / b + 1
    }
}

/// Strategy for computing the number of positions in a reflowable spine item.
///
/// A fixed-layout spine item always produces exactly one position,
/// whatever the strategy.
pub trait ReflowableStrategy {
    /// The number of positions for a spine item of `entry_length` bytes.
    spec fn count(&self, entry_length: u64) -> usize;

    /// Returns the number of positions for a spine item with the given
    /// byte length.
    fn position_count(&self, entry_length: u64) -> (r: usize)
        ensures
            r == self.count(entry_length),
    ;
}

/// Strategy that divides the uncompressed archive entry length by
/// `page_length` (the recommended strategy, matching Adobe RMSDK and Readium).
pub struct ArchiveEntryLength {
    /// Number of bytes per reading position. Typically 1024.
    pub page_length: usize,
}

/// Strategy that divides the **original plaintext** length (from
/// `encryption.xml`) by `page_length`; for encrypted content whose stored
/// cipher-text is longer than the content.
pub struct OriginalLength {
    /// Number of bytes per reading position. Typically 1024.
    pub page_length: usize,
}

/// `page_length`, with 0 read as 1.
pub open spec fn effective_page(page_length: usize) -> nat {
    if page_length == 0 {
        1
    } else {
        page_length as nat
    }
}

fn ceil_div_u64(a: u64, b: u64) -> (r: u64)
    requires
        b > 0,
    ensures
        r == ceil_div(a as nat, b as nat),
{
    let q = a / b;
    if a % b == 0 {
        q
    } else {
        proof {
            assert(q * b + a % b == a) by (nonlinear_arith)
                requires
                    q == a / b,
                    b > 0,
            ;
            assert(q < u64::MAX) by (nonlinear_arith)
                requires
                    q * b + a % b == a,
                    a % b > 0,
                    b >= 1,
                    a <= u64::MAX,
            ;
        }
        q + 1
    }
}

impl ReflowableStrategy for ArchiveEntryLength {
    /// `max(ceil(entry_length / page_length), 1)`, the quotient taken as a
    /// machine word.
    open spec fn count(&self, entry_length: u64) -> usize {
        let c = ceil_div(entry_length as nat, effective_page(self.page_length)) as usize;
        if c == 0 {
            1
        } else {
            c
        }
    }

    fn position_count(&self, entry_length: u64) -> (r: usize) {
        let page_len: u64 = if self.page_length == 0 {
            1
        } else {
            self.page_length as u64
        };
        let count = ceil_div_u64(entry_length, page_len) as usize;
        if count == 0 {
            1
        } else {
            count
        }
    }
}

impl ReflowableStrategy for OriginalLength {
    /// `max(ceil(entry_length / page_length), 1)`, taken as a machine word.
    open spec fn count(&self, entry_length: u64) -> usize {
        let c = ceil_div(entry_length as nat, effective_page(self.page_length));
        (if c == 0 {
            1
        } else {
            c
        }) as usize
    }

    fn position_count(&self, entry_length: u64) -> (r: usize) {
        let page_len: u64 = if self.page_length == 0 {
            1
        } else {
            self.page_length as u64
        };
        let c = ceil_div_u64(entry_length, page_len);
        let c1 = if c == 0 {
            1
        } else {
            c
        };
        c1 as usize
    }
}

/// Returns the recommended reflowable strategy: `ArchiveEntryLength { page_length: 1024 }`.
pub fn recommended_reflowable_strategy() -> (s: ArchiveEntryLength)
    ensures
        s.page_length == BYTES_PER_POSITION,
{
    ArchiveEntryLength { page_length: BYTES_PER_POSITION }
}

// ── TOC titles ───────────────────────────────────────────────────────────────

/// `href` without its `#fragment`.
pub open spec fn strip_fragment_spec(h: Seq<char>) -> Seq<char> {
    h.take(first_pos(h, '#'))
}

/// The (fragment-stripped href, title) pairs of a TOC tree, parents before
/// their children, in document order.
pub open spec fn toc_pairs(entries: Seq<TocEntry>) -> Seq<(Seq<char>, Seq<char>)>
    decreases entries,
{
    if entries.len() == 0 {
        Seq::empty()
    } else {
        let e = entries[0];
        proof {
            assert(decreases_to!(entries => entries[0]));
            assert(decreases_to!(entries[0] => entries[0].children));
            assert(decreases_to!(entries[0].children => entries[0].children@));
        }
        seq![(strip_fragment_spec(e.href@), e.title@)] + toc_pairs(e.children@) + toc_pairs(
            entries.drop_first(),
        )
    }
}

/// The title of the first pair with key `key`.
pub open spec fn first_title(pairs: Seq<(Seq<char>, Seq<char>)>, key: Seq<char>) -> Option<
    Seq<char>,
>
    decreases pairs.len(),
{
    if pairs.len() == 0 {
        None
    } else if pairs[0].0 == key {
        Some(pairs[0].1)
    } else {
        first_title(pairs.drop_first(), key)
    }
}

pub proof fn lemma_toc_pairs_append(a: Seq<TocEntry>, b: Seq<TocEntry>)
    ensures
        toc_pairs(a + b) == toc_pairs(a) + toc_pairs(b),
    decreases a.len(),
{
    if a.len() == 0 {
        assert(a + b =~= b);
        assert(toc_pairs(a) + toc_pairs(b) =~= toc_pairs(b));
    } else {
        assert((a + b)[0] == a[0]);
        assert((a + b).drop_first() =~= a.drop_first() + b);
        lemma_toc_pairs_append(a.drop_first(), b);
        let e = a[0];
        let head = seq![(strip_fragment_spec(e.href@), e.title@)] + toc_pairs(e.children@);
        assert(toc_pairs(a + b) == head + toc_pairs(a.drop_first() + b));
        assert(toc_pairs(a) == head + toc_pairs(a.drop_first()));
        assert(head + (toc_pairs(a.drop_first()) + toc_pairs(b)) =~= head + toc_pairs(
            a.drop_first(),
        ) + toc_pairs(b));
    }
}

/// The pair views of a title table.
pub open spec fn pair_views(v: Seq<(String, String)>) -> Seq<(Seq<char>, Seq<char>)> {
    v.map_values(|p: (String, String)| (p.0@, p.1@))
}

/// `href → title` lookup built from a table of contents.
pub struct TitleMap {
    entries: Vec<(String, String)>,
}

impl TitleMap {
    /// The (href, title) pairs, in table-of-contents order.
    pub closed spec fn pairs(&self) -> Seq<(Seq<char>, Seq<char>)> {
        pair_views(self.entries@)
    }

    /// The title for a fragment-free href: the first in table-of-contents order.
    pub fn get(&self, href: &str) -> (r: Option<&String>)
        ensures
            match r {
                Some(t) => first_title(self.pairs(), href@) == Some(t@),
                None => first_title(self.pairs(), href@) is None,
            },
    {
        let key = chars_of(href);
        let mut i: usize = 0;
        assert(self.pairs().skip(0) =~= self.pairs());
        while i < self.entries.len()
            invariant
                i <= self.entries@.len(),
                key@ == href@,
                first_title(self.pairs(), href@) == first_title(self.pairs().skip(i as int), href@),
            decreases self.entries@.len() - i,
        {
            let k = chars_of(self.entries[i].0.as_str());
            proof {
                assert(self.pairs().skip(i as int)[0] == self.pairs()[i as int]);
                let ent = self.entries@[i as int];
                assert(self.pairs()[i as int] == (ent.0@, ent.1@));
                assert(self.pairs().skip(i as int).drop_first() =~= self.pairs().skip(i + 1));
                assert(k@ == ent.0@);
                assert(first_title(self.pairs().skip(i as int), href@) == (if ent.0@ == href@ {
                    Some(ent.1@)
                } else {
                    first_title(self.pairs().skip(i + 1), href@)
                }));
            }
            if eq_chars(&k, &key) {
                return Some(&self.entries[i].1);
            }
            i = i + 1;
        }
        None
    }

    /// Whether some entry has this (fragment-free) href.
    pub fn contains_key(&self, href: &str) -> (b: bool)
        ensures
            b == (first_title(self.pairs(), href@) is Some),
    {
        self.get(href).is_some()
    }
}

fn collect_titles(entries: &[TocEntry], out: &mut Vec<(String, String)>)
    ensures
        pair_views(final(out)@) == pair_views(old(out)@) + toc_pairs(entries@),
    decreases entries@,
{
    let ghost start = pair_views(out@);
    let mut i: usize = 0;
    assert(entries@.take(0) =~= Seq::<TocEntry>::empty());
    while i < entries.len()
        invariant
            i <= entries@.len(),
            pair_views(out@) == start + toc_pairs(entries@.take(i as int)),
        decreases entries@.len() - i,
    {
        let e = &entries[i];
        let h = chars_of(e.href.as_str());
        let cut = find_char(&h, '#');
        proof {
            lemma_first_pos(h@, '#');
        }
        let key = slice_chars(&h, 0, cut);
        let ghost before = pair_views(out@);
        out.push((string_from_chars(&key), e.title.clone()));
        proof {
            assert(pair_views(out@) =~= before.push((strip_fragment_spec(e.href@), e.title@)));
            assert(decreases_to!(entries@ => entries@[i as int]));
            assert(decreases_to!(entries@[i as int] => entries@[i as int].children));
            assert(decreases_to!(entries@[i as int].children => entries@[i as int].children@));
        }
        collect_titles(e.children.as_slice(), out);
        proof {
            let one = seq![entries@[i as int]];
            assert(entries@.take(i + 1) =~= entries@.take(i as int) + one);
            lemma_toc_pairs_append(entries@.take(i as int), one);
            assert(one.drop_first() =~= Seq::<TocEntry>::empty());
            assert(toc_pairs(Seq::<TocEntry>::empty()) =~= Seq::<(Seq<char>, Seq<char>)>::empty());
            assert(one[0] == *e);
            let head = seq![(strip_fragment_spec(e.href@), e.title@)] + toc_pairs(e.children@);
            assert(toc_pairs(one) == head + toc_pairs(one.drop_first()));
            assert(toc_pairs(one) =~= head);
            assert(pair_views(out@) =~= start + toc_pairs(entries@.take(i + 1)));
        }
        i = i + 1;
    }
    assert(entries@.take(i as int) =~= entries@);
}

/// Builds an `href → title` lookup from a table-of-contents tree.
///
/// The href key has any fragment (`#anchor`) stripped so that it matches
/// the bare file path of the manifest; the first title seen for an href, in
/// table-of-contents order (parents before children), wins.
pub fn build_title_map(toc: &[TocEntry]) -> (m: TitleMap)
    ensures
        m.pairs() == toc_pairs(toc@),
{
    let mut entries: Vec<(String, String)> = Vec::new();
    assert(pair_views(entries@) =~= Seq::<(Seq<char>, Seq<char>)>::empty());
    collect_titles(toc, &mut entries);
    assert(pair_views(entries@) =~= toc_pairs(toc@));
    TitleMap { entries }
}

// ── Reading order ────────────────────────────────────────────────────────────

/// One chapter of the reading order, as far as positions read it.
pub struct ReadingOrderChapter {
    /// Index in the full spine.
    pub spine_index: usize,
    pub idref: String,
    /// Manifest href (relative to the package document).
    pub href: String,
    /// Archive path of the chapter.
    pub zip_path: String,
    /// The chapter has a fixed layout (one position).
    pub fixed: bool,
    /// Plain-text length declared in `encryption.xml`, if any.
    pub original_length: Option<u64>,
}

/// Indices of the linear spine items, in order.
pub open spec fn linear_spine(spine: Seq<SpineItem>) -> Seq<int>
    decreases spine.len(),
{
    if spine.len() == 0 {
        Seq::empty()
    } else if spine.last().linear {
        linear_spine(spine.drop_last()).push(spine.len() - 1)
    } else {
        linear_spine(spine.drop_last())
    }
}

/// A spine item is laid out as pre-paginated: its own override, or the
/// publication's layout.
pub open spec fn is_fixed_spec(book_layout: LayoutType, item: SpineItem) -> bool {
    (match item.layout_override {
        Some(l) => l,
        None => book_layout,
    }) == LayoutType::PrePaginated
}

/// Archive path of a manifest href.
pub open spec fn zip_path_spec(opf_dir: Seq<char>, href: Seq<char>) -> Seq<char> {
    if opf_dir.len() == 0 {
        href
    } else {
        join_spec(opf_dir, href)
    }
}

/// Index of the first encryption entry for `path`.
pub open spec fn encryption_index(encs: Seq<(String, EncryptionInfo)>, path: Seq<char>) -> Option<
    int,
>
    decreases encs.len(),
{
    if encs.len() == 0 {
        None
    } else if encs[0].0@ == path {
        Some(0)
    } else {
        match encryption_index(encs.drop_first(), path) {
            Some(i) => Some(i + 1),
            None => None,
        }
    }
}

/// `ch` describes spine item `s` of `book`.
pub open spec fn chapter_describes(book: EpubBook, s: int, ch: ReadingOrderChapter) -> bool {
    let item = book.spine@[s];
    &&& ch.spine_index == s
    &&& ch.idref@ == item.idref@
    &&& manifest_index(book.manifest@, item.idref@) matches Some(m) && ch.href@
        == book.manifest@[m].href@
    &&& ch.zip_path@ == zip_path_spec(book.opf_dir@, ch.href@)
    &&& ch.fixed == is_fixed_spec(book.metadata.layout, item)
    &&& ch.original_length == (match encryption_index(book.encryptions@, ch.zip_path@) {
        Some(e) => book.encryptions@[e].1.original_length,
        None => None,
    })
}

/// The first linear spine item (index into `lin`) whose manifest item is missing.
pub open spec fn first_missing(book: EpubBook, lin: Seq<int>) -> Option<int>
    decreases lin.len(),
{
    if lin.len() == 0 {
        None
    } else if manifest_index(book.manifest@, book.spine@[lin[0]].idref@) is None {
        Some(lin[0])
    } else {
        first_missing(book, lin.drop_first())
    }
}

fn encryption_original_length(encs: &Vec<(String, EncryptionInfo)>, path: &[char]) -> (r: Option<
    u64,
>)
    ensures
        r == (match encryption_index(encs@, path@) {
            Some(e) => encs@[e].1.original_length,
            None => None,
        }),
{
    let mut i: usize = 0;
    assert(encs@.skip(0) =~= encs@);
    while i < encs.len()
        invariant
            i <= encs@.len(),
            encryption_index(encs@, path@) == (match encryption_index(encs@.skip(i as int), path@) {
                Some(e) => Some(e + i),
                None => None,
            }),
        decreases encs@.len() - i,
    {
        let k = chars_of(encs[i].0.as_str());
        proof {
            assert(encs@.skip(i as int)[0] == encs@[i as int]);
            assert(encs@.skip(i as int).drop_first() =~= encs@.skip(i + 1));
        }
        if eq_chars(&k, path) {
            return encs[i].1.original_length;
        }
        i = i + 1;
    }
    None
}

/// The linear spine items of `book` with their manifest data, in reading
/// order; an error names the first linear item missing from the manifest.
pub fn reading_order_chapters(book: &EpubBook) -> (r: Result<Vec<ReadingOrderChapter>, EpubError>)
    ensures
        match r {
            Ok(v) => first_missing(*book, linear_spine(book.spine@)) is None && v@.len()
                == linear_spine(book.spine@).len() && forall|k: int|
                0 <= k < v@.len() ==> chapter_describes(
                    *book,
                    linear_spine(book.spine@)[k],
                    #[trigger] v@[k],
                ),
            Err(EpubError::InvalidFormat(msg)) => first_missing(*book, linear_spine(book.spine@))
                matches Some(s) && msg@ == "Missing manifest item: "@ + book.spine@[s].idref@,
            Err(_) => false,
        },
{
    let mut out: Vec<ReadingOrderChapter> = Vec::new();
    let mut i: usize = 0;
    assert(book.spine@.take(0) =~= Seq::<SpineItem>::empty());
    while i < book.spine.len()
        invariant
            i <= book.spine@.len(),
            out@.len() == linear_spine(book.spine@.take(i as int)).len(),
            first_missing(*book, linear_spine(book.spine@.take(i as int))) is None,
            forall|k: int|
                0 <= k < out@.len() ==> chapter_describes(
                    *book,
                    linear_spine(book.spine@.take(i as int))[k],
                    #[trigger] out@[k],
                ),
        decreases book.spine@.len() - i,
    {
        let item = &book.spine[i];
        proof {
            assert(book.spine@.take(i + 1).drop_last() =~= book.spine@.take(i as int));
            lemma_linear_prefix(book.spine@, i as int);
        }
        if item.linear {
            let m = match book.manifest_item(item.idref.as_str()) {
                Some(m) => m,
                None => {
                    let mut msg = lit("Missing manifest item: ");
                    extend_chars(&mut msg, &chars_of(item.idref.as_str()));
                    proof {
                        lemma_first_missing_append(*book, linear_spine(book.spine@.take(i as int)), i as int);
                        lemma_first_missing_prefix(*book, book.spine@, i + 1);
                    }
                    return Err(EpubError::InvalidFormat(string_from_chars(&msg)));
                },
            };
            let href = m.href.clone();
            let zip_path = if book.opf_dir.as_str().is_empty() {
                href.clone()
            } else {
                join_epub_path(book.opf_dir.as_str(), href.as_str())
            };
            let layout = match item.layout_override {
                Some(l) => l,
                None => book.metadata.layout,
            };
            let fixed = match layout {
                LayoutType::PrePaginated => true,
                LayoutType::Reflowable => false,
            };
            let zc = chars_of(zip_path.as_str());
            let original_length = encryption_original_length(&book.encryptions, &zc);
            let ghost before = out@;
            out.push(
                ReadingOrderChapter {
                    spine_index: i,
                    idref: item.idref.clone(),
                    href: href,
                    zip_path: zip_path,
                    fixed: fixed,
                    original_length: original_length,
                },
            );
            proof {
                lemma_first_missing_append(*book, linear_spine(book.spine@.take(i as int)), i as int);
                assert forall|k: int| 0 <= k < out@.len() implies chapter_describes(
                    *book,
                    linear_spine(book.spine@.take(i + 1))[k],
                    #[trigger] out@[k],
                ) by {
                    if k < before.len() {
                        assert(out@[k] == before[k]);
                    }
                }
            }
        }
        i = i + 1;
    }
    assert(book.spine@.take(i as int) =~= book.spine@);
    Ok(out)
}

/// The linear items among the first `i + 1` spine items.
proof fn lemma_linear_prefix(spine: Seq<SpineItem>, i: int)
    requires
        0 <= i < spine.len(),
    ensures
        linear_spine(spine.take(i + 1)) == (if spine[i].linear {
            linear_spine(spine.take(i)).push(i)
        } else {
            linear_spine(spine.take(i))
        }),
{
    assert(spine.take(i + 1).drop_last() =~= spine.take(i));
    assert(spine.take(i + 1).last() == spine[i]);
}

proof fn lemma_first_missing_append(book: EpubBook, lin: Seq<int>, s: int)
    requires
        first_missing(book, lin) is None,
    ensures
        first_missing(book, lin.push(s)) == (if manifest_index(
            book.manifest@,
            book.spine@[s].idref@,
        ) is None {
            Some(s)
        } else {
            None
        }),
    decreases lin.len(),
{
    if lin.len() == 0 {
        assert(lin.push(s).drop_first() =~= Seq::<int>::empty());
    } else {
        assert(lin.push(s).drop_first() =~= lin.drop_first().push(s));
        lemma_first_missing_append(book, lin.drop_first(), s);
    }
}

proof fn lemma_first_missing_prefix(book: EpubBook, spine: Seq<SpineItem>, i: int)
    requires
        spine == book.spine@,
        0 <= i <= spine.len(),
        first_missing(book, linear_spine(spine.take(i))) is Some,
    ensures
        first_missing(book, linear_spine(spine)) == first_missing(book, linear_spine(spine.take(i))),
    decreases spine.len() - i,
{
    if i < spine.len() {
        lemma_linear_prefix(spine, i);
        let lin = linear_spine(spine.take(i));
        if spine[i].linear {
            lemma_first_missing_keep(book, lin, i);
        }
        lemma_first_missing_prefix(book, spine, i + 1);
    } else {
        assert(spine.take(i) =~= spine);
    }
}

proof fn lemma_first_missing_keep(book: EpubBook, lin: Seq<int>, s: int)
    requires
        first_missing(book, lin) is Some,
    ensures
        first_missing(book, lin.push(s)) == first_missing(book, lin),
    decreases lin.len(),
{
    if lin.len() > 0 {
        assert(lin.push(s).drop_first() =~= lin.drop_first().push(s));
        assert(lin.push(s)[0] == lin[0]);
        if manifest_index(book.manifest@, book.spine@[lin[0]].idref@) is Some {
            lemma_first_missing_keep(book, lin.drop_first(), s);
        }
    }
}

// ── Positions ────────────────────────────────────────────────────────────────

/// The number of positions of a chapter: one when fixed-layout, else what
/// the strategy says of its length (the declared plain-text length when
/// there is one, else the archive entry length).
pub open spec fn chapter_count<S: ReflowableStrategy>(
    strategy: S,
    ch: ReadingOrderChapter,
    archive_len: u64,
) -> nat {
    if ch.fixed {
        1
    } else {
        strategy.count(
            match ch.original_length {
                Some(l) => l,
                None => archive_len,
            },
        ) as nat
    }
}

/// The number of positions of the first `k` chapters.
pub open spec fn counts_before<S: ReflowableStrategy>(
    strategy: S,
    chs: Seq<ReadingOrderChapter>,
    lens: Seq<u64>,
    k: int,
) -> nat
    decreases k,
{
    if k <= 0 {
        0
    } else {
        counts_before(strategy, chs, lens, k - 1) + chapter_count(strategy, chs[k - 1], lens[k - 1])
    }
}

pub proof fn lemma_counts_before_monotone<S: ReflowableStrategy>(
    strategy: S,
    chs: Seq<ReadingOrderChapter>,
    lens: Seq<u64>,
    k: int,
    n: int,
)
    requires
        0 <= k <= n,
    ensures
        counts_before(strategy, chs, lens, k) <= counts_before(strategy, chs, lens, n),
    decreases n - k,
{
    if k < n {
        lemma_counts_before_monotone(strategy, chs, lens, k, n - 1);
    }
}

/// The CFI of position `p` of the chapter at `spine_index` with id `idref`:
/// the chapter's body for its first position (and for fixed layout), else
/// the `p`-th element step below it.
pub open spec fn position_cfi_spec(spine_index: nat, idref: Seq<char>, p: nat, fixed: bool) -> Seq<
    char,
> {
    "epubcfi(/6/"@ + decimal_spec((spine_index + 1) * 2) + "["@ + idref + "]!/4"@ + (if p == 0
        || fixed {
        Seq::<char>::empty()
    } else {
        "/"@ + decimal_spec(p * 2)
    }) + ")"@
}

/// `pos` is position `p` (of `count`) of chapter `ch`, whose first position
/// follows `start` positions of earlier chapters.
pub open spec fn position_describes(
    pos: Position,
    ch: ReadingOrderChapter,
    count: nat,
    start: nat,
    p: nat,
    titles: Seq<(Seq<char>, Seq<char>)>,
) -> bool {
    &&& pos.spine_index == ch.spine_index
    &&& pos.href@ == ch.href@
    &&& pos.cfi@ == position_cfi_spec(ch.spine_index as nat, ch.idref@, p, ch.fixed)
    &&& pos.global_position == start + p + 1
    &&& pos.position_in_chapter == p
    &&& pos.chapter_position_count == count
    &&& opt_view(pos.title) == first_title(titles, strip_fragment_spec(ch.href@))
}

/// The positions of each chapter of the reading order, given the archive
/// entry length of each chapter: global positions are 1-based and
/// contiguous across chapters, and each position carries the chapter's
/// table-of-contents title.
pub fn positions_from_lengths<S: ReflowableStrategy>(
    chapters: &[ReadingOrderChapter],
    archive_lengths: &[u64],
    strategy: &S,
    titles: &TitleMap,
) -> (r: Vec<Vec<Position>>)
    requires
        archive_lengths@.len() == chapters@.len(),
        counts_before(*strategy, chapters@, archive_lengths@, chapters@.len() as int) <= usize::MAX
            / 2,
        forall|k: int| 0 <= k < chapters@.len() ==> (#[trigger] chapters@[k]).spine_index < u64::MAX / 2,
    ensures
        r@.len() == chapters@.len(),
        forall|k: int|
            0 <= k < r@.len() ==> (#[trigger] r@[k])@.len() == chapter_count(
                *strategy,
                chapters@[k],
                archive_lengths@[k],
            ),
        forall|k: int, p: int|
            0 <= k < r@.len() && 0 <= p < r@[k]@.len() ==> position_describes(
                #[trigger] r@[k]@[p],
                chapters@[k],
                chapter_count(*strategy, chapters@[k], archive_lengths@[k]),
                counts_before(*strategy, chapters@, archive_lengths@, k),
                p as nat,
                titles.pairs(),
            ),
{
    let ghost total = counts_before(*strategy, chapters@, archive_lengths@, chapters@.len() as int);
    let mut result: Vec<Vec<Position>> = Vec::new();
    let mut last: usize = 0;
    let mut k: usize = 0;
    while k < chapters.len()
        invariant
            k <= chapters@.len(),
            archive_lengths@.len() == chapters@.len(),
            total == counts_before(*strategy, chapters@, archive_lengths@, chapters@.len() as int),
            total <= usize::MAX / 2,
            forall|j: int| 0 <= j < chapters@.len() ==> (#[trigger] chapters@[j]).spine_index < u64::MAX / 2,
            last == counts_before(*strategy, chapters@, archive_lengths@, k as int),
            result@.len() == k,
            forall|j: int|
                0 <= j < k ==> (#[trigger] result@[j])@.len() == chapter_count(
                    *strategy,
                    chapters@[j],
                    archive_lengths@[j],
                ),
            forall|j: int, p: int|
                0 <= j < k && 0 <= p < result@[j]@.len() ==> position_describes(
                    #[trigger] result@[j]@[p],
                    chapters@[j],
                    chapter_count(*strategy, chapters@[j], archive_lengths@[j]),
                    counts_before(*strategy, chapters@, archive_lengths@, j),
                    p as nat,
                    titles.pairs(),
                ),
        decreases chapters@.len() - k,
    {
        let ch = &chapters[k];
        let count: usize = if ch.fixed {
            1
        } else {
            let len = match ch.original_length {
                Some(l) => l,
                None => archive_lengths[k],
            };
            strategy.position_count(len)
        };
        proof {
            lemma_counts_before_monotone(
                *strategy,
                chapters@,
                archive_lengths@,
                k + 1,
                chapters@.len() as int,
            );
            assert(chapters@[k as int].spine_index < u64::MAX / 2);
        }
        // the chapter's title from the table of contents
        let h = chars_of(ch.href.as_str());
        let cut = find_char(&h, '#');
        proof {
            lemma_first_pos(h@, '#');
        }
        let key = string_from_chars(&slice_chars(&h, 0, cut));
        let title: Option<String> = match titles.get(key.as_str()) {
            Some(t) => Some(t.clone()),
            None => None,
        };
        // "epubcfi(/6/N[idref]!/4"
        let mut prefix = lit("epubcfi(/6/");
        extend_chars(&mut prefix, &decimal_chars(((ch.spine_index as u64) + 1) * 2));
        extend_chars(&mut prefix, &lit("["));
        extend_chars(&mut prefix, &chars_of(ch.idref.as_str()));
        extend_chars(&mut prefix, &lit("]!/4"));
        let mut chapter: Vec<Position> = Vec::new();
        let mut p: usize = 0;
        while p < count
            invariant
                p <= count,
                count == chapter_count(*strategy, chapters@[k as int], archive_lengths@[k as int]),
                last + count <= usize::MAX / 2,
                *ch == chapters@[k as int],
                prefix@ == "epubcfi(/6/"@ + decimal_spec(((ch.spine_index + 1) * 2) as nat) + "["@
                    + ch.idref@ + "]!/4"@,
                opt_view(title) == first_title(titles.pairs(), strip_fragment_spec(ch.href@)),
                chapter@.len() == p,
                forall|q: int|
                    0 <= q < p ==> position_describes(
                        #[trigger] chapter@[q],
                        *ch,
                        count as nat,
                        last as nat,
                        q as nat,
                        titles.pairs(),
                    ),
            decreases count - p,
        {
            let mut cfi = slice_chars(&prefix, 0, prefix.len());
            if p != 0 && !ch.fixed {
                extend_chars(&mut cfi, &lit("/"));
                extend_chars(&mut cfi, &decimal_chars((p as u64) * 2));
            }
            extend_chars(&mut cfi, &lit(")"));
            proof {
                assert(prefix@.subrange(0, prefix@.len() as int) =~= prefix@);
                if p != 0 && !ch.fixed {
                    assert(cfi@ =~= position_cfi_spec(
                        ch.spine_index as nat,
                        ch.idref@,
                        p as nat,
                        ch.fixed,
                    ));
                } else {
                    assert(cfi@ =~= position_cfi_spec(
                        ch.spine_index as nat,
                        ch.idref@,
                        p as nat,
                        ch.fixed,
                    ));
                }
            }
            let title_copy: Option<String> = match &title {
                Some(t) => Some(t.clone()),
                None => None,
            };
            chapter.push(
                Position {
                    spine_index: ch.spine_index,
                    href: ch.href.clone(),
                    cfi: string_from_chars(&cfi),
                    global_position: last + p + 1,
                    position_in_chapter: p,
                    chapter_position_count: count,
                    title: title_copy,
                },
            );
            p = p + 1;
        }
        let ghost before = result@;
        result.push(chapter);
        proof {
            assert forall|j: int, q: int|
                0 <= j < k + 1 && 0 <= q < result@[j]@.len() implies position_describes(
                #[trigger] result@[j]@[q],
                chapters@[j],
                chapter_count(*strategy, chapters@[j], archive_lengths@[j]),
                counts_before(*strategy, chapters@, archive_lengths@, j),
                q as nat,
                titles.pairs(),
            ) by {
                if j < k {
                    assert(result@[j] == before[j]);
                }
            }
        }
        last = last + count;
        k = k + 1;
    }
    result
}

/// `r` holds the positions of `chapters` with the given archive lengths, as
/// [`positions_from_lengths`] builds them.
pub open spec fn positions_of<S: ReflowableStrategy>(
    r: Seq<Vec<Position>>,
    chapters: Seq<ReadingOrderChapter>,
    lens: Seq<u64>,
    strategy: S,
    titles: Seq<(Seq<char>, Seq<char>)>,
) -> bool {
    &&& r.len() == chapters.len()
    &&& forall|k: int|
        0 <= k < r.len() ==> (#[trigger] r[k])@.len() == chapter_count(strategy, chapters[k], lens[k])
    &&& forall|k: int, p: int|
        0 <= k < r.len() && 0 <= p < r[k]@.len() ==> position_describes(
            #[trigger] r[k]@[p],
            chapters[k],
            chapter_count(strategy, chapters[k], lens[k]),
            counts_before(strategy, chapters, lens, k),
            p as nat,
            titles,
        )
}

/// `chs` is the reading order of `book` (see [`reading_order_chapters`]).
pub open spec fn reading_order_of(book: EpubBook, chs: Seq<ReadingOrderChapter>) -> bool {
    &&& chs.len() == linear_spine(book.spine@).len()
    &&& forall|k: int| 0 <= k < chs.len() ==> chapter_describes(book, linear_spine(book.spine@)[k], #[trigger] chs[k])
}

pub proof fn lemma_linear_spine_bounds(spine: Seq<SpineItem>)
    ensures
        forall|k: int|
            0 <= k < linear_spine(spine).len() ==> 0 <= #[trigger] linear_spine(spine)[k] < spine.len(),
    decreases spine.len(),
{
    if spine.len() > 0 {
        let prev = linear_spine(spine.drop_last());
        lemma_linear_spine_bounds(spine.drop_last());
        assert forall|k: int| 0 <= k < linear_spine(spine).len() implies 0 <= #[trigger] linear_spine(
            spine,
        )[k] < spine.len() by {
            if k < prev.len() {
                assert(linear_spine(spine)[k] == prev[k]);
            }
        }
    }
}

pub proof fn lemma_counts_before_same_prefix<S: ReflowableStrategy>(
    strategy: S,
    chs: Seq<ReadingOrderChapter>,
    a: Seq<u64>,
    b: Seq<u64>,
    k: int,
)
    requires
        0 <= k <= a.len(),
        k <= b.len(),
        forall|j: int| 0 <= j < k ==> a[j] == b[j],
    ensures
        counts_before(strategy, chs, a, k) == counts_before(strategy, chs, b, k),
    decreases k,
{
    if k > 0 {
        lemma_counts_before_same_prefix(strategy, chs, a, b, k - 1);
    }
}

/// `v` holds the positions of the reading order `chs` of `book`, measured
/// with the archive lengths `lens` (zero for fixed-layout chapters, which
/// are not measured).
pub open spec fn measured_positions<S: ReflowableStrategy>(
    book: EpubBook,
    chs: Seq<ReadingOrderChapter>,
    lens: Seq<u64>,
    strategy: S,
    v: Seq<Vec<Position>>,
    titles: Seq<(Seq<char>, Seq<char>)>,
) -> bool {
    &&& reading_order_of(book, chs)
    &&& lens.len() == chs.len()
    &&& forall|k: int| 0 <= k < chs.len() && (#[trigger] chs[k]).fixed ==> lens[k] == 0
    &&& positions_of(v, chs, lens, strategy, titles)
}

/// The reading order `chs` of `book`, measured with `lens`, has more
/// positions than a machine word can number.
pub open spec fn too_many_positions<S: ReflowableStrategy>(
    book: EpubBook,
    chs: Seq<ReadingOrderChapter>,
    lens: Seq<u64>,
    strategy: S,
) -> bool {
    &&& reading_order_of(book, chs)
    &&& lens.len() == chs.len()
    &&& counts_before(strategy, chs, lens, chs.len() as int) > usize::MAX / 2
}

/// The message of a reading order too long to number.
pub open spec fn too_many_positions_message() -> Seq<char> {
    "Too many reading positions"@
}

/// The positions of the reading order of `book`, grouped by chapter.
///
/// Each reflowable chapter's archive entry length is asked of `provider`
/// (a failed request counts as length 0); fixed-layout chapters have one
/// position and are not asked about.  Titles come from `toc`.  The book is
/// refused, as by [`reading_order_chapters`], when a linear spine item has
/// no manifest item, and when the positions could not be numbered in a
/// machine word.
pub fn positions_by_reading_order<P: EpubProvider, S: ReflowableStrategy>(
    provider: &mut P,
    book: &EpubBook,
    strategy: &S,
    toc: &[TocEntry],
) -> (r: Result<Vec<Vec<Position>>, EpubError>)
    requires
        book.spine@.len() < u64::MAX / 2,
    ensures
        match r {
            Ok(v) => first_missing(*book, linear_spine(book.spine@)) is None && exists|
                chs: Seq<ReadingOrderChapter>,
                ls: Seq<u64>,
            | #[trigger] measured_positions(*book, chs, ls, *strategy, v@, toc_pairs(toc@)),
            Err(EpubError::InvalidFormat(msg)) => match first_missing(
                *book,
                linear_spine(book.spine@),
            ) {
                Some(s) => msg@ == "Missing manifest item: "@ + book.spine@[s].idref@,
                None => msg@ == too_many_positions_message() && exists|
                    chs: Seq<ReadingOrderChapter>,
                    lens: Seq<u64>,
                | #[trigger] too_many_positions(*book, chs, lens, *strategy),
            },
            Err(_) => false,
        },
{
    let chapters = match reading_order_chapters(book) {
        Ok(c) => c,
        Err(e) => return Err(e),
    };
    proof {
        lemma_linear_spine_bounds(book.spine@);
    }
    let mut lens: Vec<u64> = Vec::new();
    let mut total: usize = 0;
    let mut k: usize = 0;
    while k < chapters.len()
        invariant
            k <= chapters@.len(),
            lens@.len() == k,
            first_missing(*book, linear_spine(book.spine@)) is None,
            reading_order_of(*book, chapters@),
            forall|j: int| 0 <= j < k && (#[trigger] chapters@[j]).fixed ==> lens@[j] == 0,
            total == counts_before(*strategy, chapters@, lens@, k as int),
            total <= usize::MAX / 2,
        decreases chapters@.len() - k,
    {
        let len: u64 = if chapters[k].fixed {
            0
        } else {
            match provider.entry_length(chapters[k].zip_path.as_str()) {
                Ok(n) => n,
                Err(_) => 0,
            }
        };
        let ghost before = lens@;
        lens.push(len);
        let count: usize = if chapters[k].fixed {
            1
        } else {
            let l = match chapters[k].original_length {
                Some(o) => o,
                None => len,
            };
            strategy.position_count(l)
        };
        proof {
            lemma_counts_before_same_prefix(*strategy, chapters@, before, lens@, k as int);
            assert(lens@[k as int] == len);
        }
        if count > usize::MAX / 2 - total {
            proof {
                let n = chapters@.len();
                let full = lens@ + Seq::new((n - k - 1) as nat, |i: int| 0u64);
                lemma_counts_before_same_prefix(*strategy, chapters@, lens@, full, k + 1);
                lemma_counts_before_monotone(*strategy, chapters@, full, k + 1, n as int);
                assert(counts_before(*strategy, chapters@, full, n as int) > usize::MAX / 2);
                assert(too_many_positions(*book, chapters@, full, *strategy));
            }
            return Err(EpubError::InvalidFormat("Too many reading positions".to_string()));
        }
        total = total + count;
        k = k + 1;
    }
    proof {
        assert forall|j: int| 0 <= j < chapters@.len() implies (#[trigger] chapters@[j]).spine_index
            < u64::MAX / 2 by {
            assert(chapter_describes(*book, linear_spine(book.spine@)[j], chapters@[j]));
        }
    }
    let titles = build_title_map(toc);
    let v = positions_from_lengths(chapters.as_slice(), lens.as_slice(), strategy, &titles);
    assert(positions_of(v@, chapters@, lens@, *strategy, toc_pairs(toc@)));
    assert(measured_positions(*book, chapters@, lens@, *strategy, v@, toc_pairs(toc@)));
    assert(first_missing(*book, linear_spine(book.spine@)) is None);
    let ghost vv = v@;
    assert(exists|chs: Seq<ReadingOrderChapter>, ls: Seq<u64>| #[trigger] measured_positions(*book, chs, ls, *strategy, vv, toc_pairs(toc@)));
    let r: Result<Vec<Vec<Position>>, EpubError> = Ok(v);
    assert(r is Ok);
    assert(r->Ok_0@ == vv);
    r
}

// ── Position index ───────────────────────────────────────────────────────────

pub proof fn lemma_order_lookup_member(pairs: Seq<(usize, usize)>, s: nat)
    ensures
        order_lookup(pairs, s) matches Some(o) ==> exists|k: int|
            0 <= k < pairs.len() && #[trigger] pairs[k].1 == o,
    decreases pairs.len(),
{
    if pairs.len() > 0 && pairs.last().0 != s {
        lemma_order_lookup_member(pairs.drop_last(), s);
        if order_lookup(pairs, s) is Some {
            let o = order_lookup(pairs, s)->0;
            let k = choose|k: int| 0 <= k < pairs.drop_last().len() && #[trigger] pairs.drop_last()[k].1 == o;
            assert(pairs[k] == pairs.drop_last()[k]);
        }
    } else if pairs.len() > 0 {
        assert(pairs[pairs.len() - 1].1 == pairs.last().1);
    }
}

/// The positions of the chapters, one after the other.
pub open spec fn flat_positions(v: Seq<Vec<Position>>) -> Seq<Position>
    decreases v.len(),
{
    if v.len() == 0 {
        Seq::empty()
    } else {
        flat_positions(v.drop_last()) + v.last()@
    }
}

proof fn lemma_flat_numbered<S: ReflowableStrategy>(
    r: Seq<Vec<Position>>,
    chs: Seq<ReadingOrderChapter>,
    lens: Seq<u64>,
    strategy: S,
    titles: Seq<(Seq<char>, Seq<char>)>,
    n: int,
)
    requires
        positions_of(r, chs, lens, strategy, titles),
        0 <= n <= r.len(),
    ensures
        flat_positions(r.take(n)).len() == counts_before(strategy, chs, lens, n),
        forall|i: int|
            0 <= i < flat_positions(r.take(n)).len() ==> (#[trigger] flat_positions(r.take(n))[i]).global_position
                == i + 1,
    decreases n,
{
    if n == 0 {
        assert(r.take(0) =~= Seq::<Vec<Position>>::empty());
    } else {
        lemma_flat_numbered(r, chs, lens, strategy, titles, n - 1);
        let prev = flat_positions(r.take(n - 1));
        assert(r.take(n).drop_last() =~= r.take(n - 1));
        assert(r.take(n).last() == r[n - 1]);
        let all = flat_positions(r.take(n));
        assert(all == prev + r[n - 1]@);
        assert forall|i: int| 0 <= i < all.len() implies (#[trigger] all[i]).global_position == i + 1 by {
            if i >= prev.len() {
                let p = i - prev.len();
                assert(all[i] == r[n - 1]@[p]);
                assert(position_describes(
                    r[n - 1]@[p],
                    chs[n - 1],
                    chapter_count(strategy, chs[n - 1], lens[n - 1]),
                    counts_before(strategy, chs, lens, n - 1),
                    p as nat,
                    titles,
                ));
            } else {
                assert(all[i] == prev[i]);
            }
        }
    }
}

/// The positions of the reading order, flattened, are numbered 1, 2, 3,
/// ... without a gap, and there are as many as the chapters count in all.
pub proof fn law_positions_numbered_from_one<S: ReflowableStrategy>(
    r: Seq<Vec<Position>>,
    chs: Seq<ReadingOrderChapter>,
    lens: Seq<u64>,
    strategy: S,
    titles: Seq<(Seq<char>, Seq<char>)>,
)
    requires
        positions_of(r, chs, lens, strategy, titles),
    ensures
        flat_positions(r).len() == counts_before(strategy, chs, lens, r.len() as int),
        forall|i: int| 0 <= i < flat_positions(r).len() ==> (#[trigger] flat_positions(r)[i]).global_position == i + 1,
{
    lemma_flat_numbered(r, chs, lens, strategy, titles, r.len() as int);
    assert(r.take(r.len() as int) =~= r);
}

/// For each non-empty chapter (in order): the spine index of its first
/// position, and the chapter's number.
pub open spec fn order_pairs(v: Seq<Vec<Position>>) -> Seq<(usize, usize)>
    decreases v.len(),
{
    if v.len() == 0 {
        Seq::empty()
    } else if v.last()@.len() > 0 {
        order_pairs(v.drop_last()).push((v.last()@[0].spine_index, (v.len() - 1) as usize))
    } else {
        order_pairs(v.drop_last())
    }
}

/// The chapter number recorded last for `spine_index`.
pub open spec fn order_lookup(pairs: Seq<(usize, usize)>, spine_index: nat) -> Option<nat>
    decreases pairs.len(),
{
    if pairs.len() == 0 {
        None
    } else if pairs.last().0 == spine_index {
        Some(pairs.last().1 as nat)
    } else {
        order_lookup(pairs.drop_last(), spine_index)
    }
}

/// The steps of an optional list (none when absent).
pub open spec fn opt_steps(o: Option<Seq<StepView>>) -> Seq<StepView> {
    match o {
        Some(l) => l,
        None => Seq::empty(),
    }
}

/// The start endpoint of a range: the parent's path continued by the
/// start's steps (after the parent's `!` when it has one).
pub open spec fn range_start(parent: PathView, start: PathView) -> PathView {
    match parent.local_steps {
        Some(l) => PathView {
            steps: parent.steps,
            local_steps: Some(l + start.steps + opt_steps(start.local_steps)),
            character_offset: start.character_offset,
        },
        None => PathView {
            steps: parent.steps + start.steps,
            local_steps: start.local_steps,
            character_offset: start.character_offset,
        },
    }
}

/// The path of a CFI that locates it: the point itself, or a range's
/// start endpoint.
pub open spec fn locating_path(c: CfiView) -> PathView {
    match c {
        CfiView::Point(p) => p,
        CfiView::Range { parent, start, .. } => range_start(parent, start),
    }
}

/// The index of step `k` of the steps `a`, then `b`, then `c`.
fn index_in(a: &Vec<CfiStep>, b: Option<&Vec<CfiStep>>, c: Option<&Vec<CfiStep>>, k: usize) -> (r: Option<u32>)
    ensures
        ({
            let all = steps_view(a@) + opt_steps(
                match b {
                    Some(v) => Some(steps_view(v@)),
                    None => None,
                },
            ) + opt_steps(
                match c {
                    Some(v) => Some(steps_view(v@)),
                    None => None,
                },
            );
            match r {
                Some(i) => k < all.len() && all[k as int].index == i as nat,
                None => k >= all.len(),
            }
        }),
{
    if k < a.len() {
        return Some(a[k].index);
    }
    let k2 = k - a.len();
    let nb: usize = match b {
        Some(v) => {
            if k2 < v.len() {
                return Some(v[k2].index);
            }
            v.len()
        },
        None => 0,
    };
    let k3 = k2 - nb;
    match c {
        Some(v) => {
            if k3 < v.len() {
                return Some(v[k3].index);
            }
            None
        },
        None => None,
    }
}

/// The position (0-based) that a CFI falls into: the chapter is found from
/// the spine step, the position within it from the first content step
/// (`/4/K` gives `K / 2`), clamped to the chapter.
pub open spec fn location_spec(
    positions: Seq<Position>,
    starts: Seq<usize>,
    order: Seq<(usize, usize)>,
    cfi: Seq<char>,
) -> Option<nat> {
    if positions.len() == 0 {
        None
    } else {
        match parse_cfi_spec(cfi) {
            None => None,
            Some(c) => {
                let path = locating_path(c);
                if path.steps.len() < 2 || path.steps[1].index < 2 {
                    None
                } else {
                    match order_lookup(order, (path.steps[1].index / 2 - 1) as nat) {
                        None => None,
                        Some(ord) => {
                            let local = match path.local_steps {
                                Some(l) => l,
                                None => Seq::empty(),
                            };
                            let first = if local.len() > 1 {
                                local[1].index
                            } else {
                                0
                            };
                            let within = first / 2;
                            let start = starts[ord as int] as nat;
                            let len = (starts[ord as int + 1] - start) as nat;
                            let cap: nat = if len == 0 {
                                0
                            } else {
                                (len - 1) as nat
                            };
                            Some(
                                start + if within <= cap {
                                    within
                                } else {
                                    cap
                                },
                            )
                        },
                    }
                }
            },
        }
    }
}

/// Index for converting between CFI strings and 0-based position numbers.
///
/// The position CFIs have a closed form (`/6/N` with `N = (spine_index + 1)
/// * 2`, then `/4/K` with `K = 2 * p`), so a CFI is located directly from
/// its spine step and first content step.
pub struct PositionIndex {
    /// Flat position list.
    positions: Vec<Position>,
    /// Where each chapter begins in `positions`, then `positions.len()`.
    chapter_starts: Vec<usize>,
    /// (spine index of the chapter's first position, chapter number).
    spine_to_order: Vec<(usize, usize)>,
}

impl PositionIndex {
    #[verifier::type_invariant]
    spec fn well_formed(self) -> bool {
        &&& self.chapter_starts@.len() >= 1
        &&& self.chapter_starts@[0] == 0
        &&& forall|i: int, j: int|
            0 <= i <= j < self.chapter_starts@.len() ==> #[trigger] self.chapter_starts@[i]
                <= #[trigger] self.chapter_starts@[j]
        &&& self.chapter_starts@.last() == self.positions@.len()
        &&& forall|k: int|
            0 <= k < self.spine_to_order@.len() ==> (#[trigger] self.spine_to_order@[k]).1
                < self.chapter_starts@.len() - 1
    }

    /// The positions, in reading order.
    pub closed spec fn positions_view(&self) -> Seq<Position> {
        self.positions@
    }

    /// Where each chapter begins, then the number of positions.
    pub closed spec fn starts_view(&self) -> Seq<usize> {
        self.chapter_starts@
    }

    /// (spine index, chapter number) of each non-empty chapter.
    pub closed spec fn order_view(&self) -> Seq<(usize, usize)> {
        self.spine_to_order@
    }

    /// Builds the index from chapter-grouped positions (as
    /// [`positions_from_lengths`] gives them).
    pub fn build(by_chapter: Vec<Vec<Position>>) -> (idx: Self)
        ensures
            idx.positions_view() == flat_positions(by_chapter@),
            idx.starts_view().len() == by_chapter@.len() + 1,
            forall|k: int|
                0 <= k <= by_chapter@.len() ==> #[trigger] idx.starts_view()[k] == flat_positions(
                    by_chapter@.take(k),
                ).len(),
            idx.order_view() == order_pairs(by_chapter@),
    {
        let ghost chapters = by_chapter@;
        let mut positions: Vec<Position> = Vec::new();
        let mut chapter_starts: Vec<usize> = Vec::new();
        let mut spine_to_order: Vec<(usize, usize)> = Vec::new();
        chapter_starts.push(0);
        let mut k: usize = 0;
        assert(chapters.take(0) =~= Seq::<Vec<Position>>::empty());
        let n = by_chapter.len();
        assert(chapters.len() <= usize::MAX);
        for chapter in it: by_chapter.into_iter()
            invariant
                it.seq() == chapters,
                k == it.index(),
                k <= chapters.len(),
                chapters.len() <= usize::MAX,
                chapter_starts@[k as int] == positions@.len(),
                chapter_starts@[0] == 0,
                forall|i: int, j: int|
                    0 <= i <= j <= k ==> #[trigger] chapter_starts@[i] <= #[trigger] chapter_starts@[j],
                positions@ == flat_positions(chapters.take(k as int)),
                chapter_starts@.len() == k + 1,
                forall|j: int|
                    0 <= j <= k ==> #[trigger] chapter_starts@[j] == flat_positions(
                        chapters.take(j),
                    ).len(),
                spine_to_order@ == order_pairs(chapters.take(k as int)),
                forall|j: int|
                    0 <= j < spine_to_order@.len() ==> (#[trigger] spine_to_order@[j]).1 < k,
        {
            let mut chapter = chapter;
            proof {
                assert(chapter == chapters[k as int]);
                assert(chapters.take(k + 1).drop_last() =~= chapters.take(k as int));
                assert(chapters.take(k + 1).last() == chapters[k as int]);
            }
            let ghost old_order = spine_to_order@;
            let ghost old_positions = positions@;
            if chapter.len() > 0 {
                spine_to_order.push((chapter[0].spine_index, k));
            }
            let ghost old_starts = chapter_starts@;
            positions.append(&mut chapter);
            chapter_starts.push(positions.len());
            proof {
                assert forall|i: int, j: int|
                    0 <= i <= j <= k + 1 implies #[trigger] chapter_starts@[i]
                    <= #[trigger] chapter_starts@[j] by {
                    if j <= k {
                        assert(chapter_starts@[i] == old_starts[i]);
                        assert(chapter_starts@[j] == old_starts[j]);
                    } else if i <= k {
                        assert(chapter_starts@[i] == old_starts[i]);
                        assert(old_starts[i] <= old_starts[k as int]);
                    }
                }
            }
            proof {
                assert forall|j: int| 0 <= j < spine_to_order@.len() implies (#[trigger] spine_to_order@[j]).1 < k + 1 by {
                    if j < old_order.len() {
                        assert(spine_to_order@[j] == old_order[j]);
                    }
                }
            }
            k = k + 1;
        }
        assert(chapters.take(k as int) =~= chapters);
        PositionIndex { positions, chapter_starts, spine_to_order }
    }

    /// The chapter number recorded last for `spine_index`.
    fn lookup_order(&self, spine_index: usize) -> (r: Option<usize>)
        ensures
            match r {
                Some(o) => order_lookup(self.order_view(), spine_index as nat) == Some(o as nat),
                None => order_lookup(self.order_view(), spine_index as nat) is None,
            },
    {
        let mut i = self.spine_to_order.len();
        assert(self.spine_to_order@.take(i as int) =~= self.spine_to_order@);
        while i > 0
            invariant
                i <= self.spine_to_order@.len(),
                order_lookup(self.spine_to_order@, spine_index as nat) == order_lookup(
                    self.spine_to_order@.take(i as int),
                    spine_index as nat,
                ),
            decreases i,
        {
            let pair = self.spine_to_order[i - 1];
            proof {
                let t = self.spine_to_order@.take(i as int);
                assert(t.last() == pair);
                assert(t.drop_last() =~= self.spine_to_order@.take(i - 1));
            }
            if pair.0 == spine_index {
                return Some(pair.1);
            }
            i = i - 1;
        }
        None
    }

    /// Finds which 0-based position a CFI falls into.
    ///
    /// Works for position CFIs, deeper bookmark CFIs and range CFIs (whose
    /// start endpoint is used).  Returns `None` when the index is empty, the CFI
    /// is malformed, or its spine item is not a chapter of the reading order
    /// (e.g. a non-linear footnote).  A step beyond the chapter's last
    /// position is clamped to it.
    pub fn location_from_cfi(&self, cfi_str: &str) -> (r: Option<usize>)
        ensures
            match r {
                Some(i) => location_spec(
                    self.positions_view(),
                    self.starts_view(),
                    self.order_view(),
                    cfi_str@,
                ) == Some(i as nat),
                None => location_spec(
                    self.positions_view(),
                    self.starts_view(),
                    self.order_view(),
                    cfi_str@,
                ) is None,
            },
    {
        proof {
            use_type_invariant(self);
        }
        if self.positions.len() == 0 {
            return None;
        }
        let cfi = match parse_cfi(cfi_str) {
            Ok(c) => c,
            Err(_) => {
                return None;
            },
        };
        let ghost path = locating_path(cfi_view(cfi));
        let (spine, content): (Option<u32>, Option<u32>) = match &cfi {
            EpubCfi::Point(p) => (
                index_in(&p.steps, None, None, 1),
                match &p.local_steps {
                    Some(l) => index_in(l, None, None, 1),
                    None => None,
                },
            ),
            EpubCfi::Range { parent, start, .. } => match &parent.local_steps {
                Some(l) => (index_in(&parent.steps, None, None, 1), index_in(l, Some(&start.steps), start.local_steps.as_ref(), 1)),
                None => (
                    index_in(&parent.steps, Some(&start.steps), None, 1),
                    match &start.local_steps {
                        Some(sl) => index_in(sl, None, None, 1),
                        None => None,
                    },
                ),
            },
        };
        proof {
            assert(spine matches Some(i) ==> path.steps.len() >= 2 && path.steps[1].index == i as nat);
            assert(spine is None ==> path.steps.len() < 2);
            assert(content matches Some(i) ==> path.local_steps matches Some(l) && l.len() > 1 && l[1].index
                == i as nat);
            assert(content is None ==> (path.local_steps is None || path.local_steps->0.len() <= 1));
        }
        let spine_step = match spine {
            Some(i) => i,
            None => {
                return None;
            },
        };
        if spine_step < 2 {
            return None;
        }
        let full_spine_index = (spine_step / 2 - 1) as usize;
        let order = match self.lookup_order(full_spine_index) {
            Some(o) => o,
            None => {
                return None;
            },
        };
        proof {
            lemma_order_lookup_member(self.order_view(), full_spine_index as nat);
        }
        let first: u32 = match content {
            Some(i) => i,
            None => 0,
        };
        let within = (first / 2) as usize;
        proof {
            let k = choose|k: int|
                0 <= k < self.order_view().len() && #[trigger] self.order_view()[k].1 == order;
            assert(self.spine_to_order@[k].1 < self.chapter_starts@.len() - 1);
        }
        assert(order + 1 < self.chapter_starts@.len());
        assert(self.chapter_starts@[order as int] <= self.chapter_starts@[order + 1]);
        assert(self.chapter_starts@[order + 1] <= self.chapter_starts@[self.chapter_starts@.len() - 1]);
        let n_starts = self.chapter_starts.len();
        assert(order + 1 < n_starts);
        let start = self.chapter_starts[order];
        let end = self.chapter_starts[order + 1];
        assert(start <= end);
        let len = end - start;
        let cap = if len == 0 {
            0
        } else {
            len - 1
        };
        let p = if within <= cap {
            within
        } else {
            cap
        };
        Some(start + p)
    }

    /// The CFI of a position. O(1).
    pub fn cfi_from_location(&self, idx: usize) -> (r: Option<&str>)
        ensures
            match r {
                Some(c) => idx < self.positions_view().len() && c@ == self.positions_view()[idx as int].cfi@,
                None => idx >= self.positions_view().len(),
            },
    {
        if idx < self.positions.len() {
            Some(self.positions[idx].cfi.as_str())
        } else {
            None
        }
    }

    /// The position with a given 0-based index. O(1).
    pub fn position_at(&self, idx: usize) -> (r: Option<&Position>)
        ensures
            match r {
                Some(p) => idx < self.positions_view().len() && *p == self.positions_view()[idx as int],
                None => idx >= self.positions_view().len(),
            },
    {
        if idx < self.positions.len() {
            Some(&self.positions[idx])
        } else {
            None
        }
    }

    /// Total number of positions.
    pub fn len(&self) -> (n: usize)
        ensures
            n == self.positions_view().len(),
    {
        self.positions.len()
    }

    /// Returns `true` if the index contains no positions.
    pub fn is_empty(&self) -> (b: bool)
        ensures
            b == (self.positions_view().len() == 0),
    {
        self.positions.len() == 0
    }
}

} // verus!
