use epub_rs::error::EpubError;
use epub_rs::model::{EpubBook, LayoutType, ManifestItem, Metadata, Position, SpineItem, TocEntry};
use epub_rs::parser::positions::{
    build_title_map, positions_by_reading_order, positions_from_lengths, reading_order_chapters,
    ArchiveEntryLength, OriginalLength, PositionIndex, ReflowableStrategy,
};
use epub_rs::provider::EpubProvider;

fn entry(title: &str, href: &str, children: Vec<TocEntry>) -> TocEntry {
    TocEntry { title: title.to_string(), href: href.to_string(), children, role: None }
}

// ── ArchiveEntryLength::position_count ────────────────────────────────────

#[test]
fn position_count_empty_file_returns_one() {
    let s = ArchiveEntryLength { page_length: 1024 };
    assert_eq!(s.position_count(0), 1, "empty file must produce at least 1 position");
}

#[test]
fn position_count_exact_one_page() {
    let s = ArchiveEntryLength { page_length: 1024 };
    assert_eq!(s.position_count(1024), 1);
}

#[test]
fn position_count_one_byte_over_page() {
    let s = ArchiveEntryLength { page_length: 1024 };
    assert_eq!(s.position_count(1025), 2, "1025 bytes → ceil(1025/1024)=2");
}

#[test]
fn position_count_exactly_ten_pages() {
    let s = ArchiveEntryLength { page_length: 1024 };
    assert_eq!(s.position_count(10240), 10);
}

#[test]
fn position_count_just_over_ten_pages() {
    let s = ArchiveEntryLength { page_length: 1024 };
    assert_eq!(s.position_count(10241), 11);
}

#[test]
fn position_count_custom_page_length() {
    let s = ArchiveEntryLength { page_length: 2048 };
    assert_eq!(s.position_count(512), 1);
}

#[test]
fn position_count_page_length_zero_treated_as_one() {
    let s = ArchiveEntryLength { page_length: 0 };
    assert_eq!(s.position_count(100), 100);
}

#[test]
fn original_length_strategy_counts_plaintext_pages() {
    let s = OriginalLength { page_length: 1000 };
    assert_eq!(s.position_count(0), 1);
    assert_eq!(s.position_count(2500), 3);
}

// ── build_title_map ───────────────────────────────────────────────────────

#[test]
fn title_map_bare_href() {
    let toc = vec![TocEntry {
        title: "Chapter 1".to_string(),
        href: "text/ch1.xhtml".to_string(),
        children: vec![],
        role: None,
    }];
    let map = build_title_map(&toc);
    assert_eq!(map.get("text/ch1.xhtml").map(String::as_str), Some("Chapter 1"));
}

#[test]
fn title_map_strips_fragment() {
    let toc = vec![TocEntry {
        title: "Section".to_string(),
        href: "text/ch1.xhtml#section-2".to_string(),
        children: vec![],
        role: None,
    }];
    let map = build_title_map(&toc);
    assert!(map.contains_key("text/ch1.xhtml"), "fragment should be stripped");
    assert!(!map.contains_key("text/ch1.xhtml#section-2"), "raw key with fragment must not appear");
}

#[test]
fn title_map_first_title_wins_for_duplicate_href() {
    let toc = vec![
        TocEntry {
            title: "First Title".to_string(),
            href: "ch.xhtml".to_string(),
            children: vec![],
            role: None,
        },
        TocEntry {
            title: "Second Title".to_string(),
            href: "ch.xhtml".to_string(),
            children: vec![],
            role: None,
        },
    ];
    let map = build_title_map(&toc);
    assert_eq!(map.get("ch.xhtml").map(String::as_str), Some("First Title"));
}

#[test]
fn title_map_indexes_nested_children() {
    let toc = vec![TocEntry {
        title: "Chapter".to_string(),
        href: "ch.xhtml".to_string(),
        children: vec![TocEntry {
            title: "Section".to_string(),
            href: "ch.xhtml#sec1".to_string(),
            children: vec![],
            role: None,
        }],
        role: None,
    }];
    let map = build_title_map(&toc);
    assert!(map.contains_key("ch.xhtml"), "parent entry must be indexed");
    assert_eq!(map.get("ch.xhtml").map(String::as_str), Some("Chapter"));
}

// ── Positions of the reading order ────────────────────────────────────────

fn assert_position_invariants(all: &[Vec<Position>]) {
    let flat: Vec<&Position> = all.iter().flatten().collect();
    if flat.is_empty() {
        return;
    }
    for (i, pos) in flat.iter().enumerate() {
        assert_eq!(pos.global_position, i + 1, "global_position must equal 1-based index");
        assert!(pos.position_in_chapter < pos.chapter_position_count);
    }
    assert_eq!(flat[0].position_in_chapter, 0);
    assert_eq!(flat.last().unwrap().global_position, flat.len());
}

/// Minimal in-memory provider that returns a fixed byte length for every href.
struct FixedLengthProvider(u64);

impl EpubProvider for FixedLengthProvider {
    fn read_file(&mut self, _path: &str) -> Result<Vec<u8>, EpubError> {
        Ok(vec![0u8; self.0 as usize])
    }

    fn entry_length(&mut self, _path: &str) -> Result<u64, EpubError> {
        Ok(self.0)
    }
}

/// A provider that has no files at all.
struct EmptyProvider;

impl EpubProvider for EmptyProvider {
    fn read_file(&mut self, path: &str) -> Result<Vec<u8>, EpubError> {
        Err(EpubError::Io(format!("no file {path}")))
    }

    fn entry_length(&mut self, path: &str) -> Result<u64, EpubError> {
        Err(EpubError::Io(format!("no file {path}")))
    }
}

fn make_book(n: usize, layout: LayoutType) -> EpubBook {
    let mut manifest = Vec::new();
    let mut spine = Vec::new();
    for i in 0..n {
        let id = format!("ch{}", i);
        let href = format!("text/ch{}.xhtml", i);
        manifest.push(ManifestItem {
            id: id.clone(),
            href,
            media_type: "application/xhtml+xml".to_string(),
            properties: vec![],
            media_overlay: None,
        });
        spine.push(SpineItem { idref: id, linear: true, layout_override: None, page_spread: None });
    }
    EpubBook {
        metadata: Metadata { layout, ..Default::default() },
        manifest,
        spine,
        opf_dir: String::new(),
        toc_id: None,
        guide: Vec::new(),
        encryptions: Vec::new(),
    }
}

fn positions_of(book: &EpubBook, file_len: u64) -> Vec<Vec<Position>> {
    let mut provider = FixedLengthProvider(file_len);
    let strategy = ArchiveEntryLength { page_length: 1024 };
    positions_by_reading_order(&mut provider, book, &strategy, &[]).unwrap()
}

#[test]
fn positions_single_chapter_invariants() {
    let book = make_book(1, LayoutType::Reflowable);
    let positions = positions_of(&book, 2048);
    assert_eq!(positions.len(), 1, "one chapter → one group");
    assert_eq!(positions[0].len(), 2, "2048 bytes / 1024 = 2 positions");
    assert_position_invariants(&positions);
}

#[test]
fn positions_multi_chapter_invariants() {
    let book = make_book(3, LayoutType::Reflowable);
    let positions = positions_of(&book, 3072);
    assert_eq!(positions.len(), 3);
    assert_eq!(positions.iter().map(|c| c.len()).sum::<usize>(), 9);
    assert_position_invariants(&positions);
    assert_eq!(
        positions[1][0].global_position,
        positions[0].last().unwrap().global_position + 1
    );
}

#[test]
fn positions_fixed_layout_always_one_per_chapter() {
    let book = make_book(4, LayoutType::PrePaginated);
    let positions = positions_of(&book, 1_000_000);
    assert_eq!(positions.len(), 4);
    for chapter in &positions {
        assert_eq!(chapter.len(), 1, "fixed-layout chapter must have exactly 1 position");
    }
    assert_position_invariants(&positions);
}

#[test]
fn positions_nonlinear_items_excluded() {
    let mut book = make_book(3, LayoutType::Reflowable);
    book.spine[1].linear = false;
    let positions = positions_of(&book, 1024);
    assert_eq!(positions.len(), 2, "non-linear items must be excluded");
    assert_position_invariants(&positions);
}

#[test]
fn positions_cfi_format_first_position() {
    let book = make_book(1, LayoutType::Reflowable);
    let positions = positions_of(&book, 2048);
    let cfi0 = &positions[0][0].cfi;
    assert!(cfi0.starts_with("epubcfi("), "CFI must start with epubcfi(");
    assert!(cfi0.ends_with("!/4)"), "first position CFI must end with !/4)");
    let cfi1 = &positions[0][1].cfi;
    assert!(cfi1.ends_with("!/4/2)"), "second position CFI must end with !/4/2)");
}

#[test]
fn positions_exact_cfis_and_titles() {
    let book = make_book(2, LayoutType::Reflowable);
    let toc = vec![entry("One", "text/ch0.xhtml", vec![]), entry("Two", "text/ch1.xhtml#top", vec![])];
    let mut provider = FixedLengthProvider(1500);
    let strategy = ArchiveEntryLength { page_length: 1024 };
    let positions = positions_by_reading_order(&mut provider, &book, &strategy, &toc).unwrap();
    assert_eq!(positions[0][0].cfi, "epubcfi(/6/2[ch0]!/4)");
    assert_eq!(positions[0][1].cfi, "epubcfi(/6/2[ch0]!/4/2)");
    assert_eq!(positions[1][0].cfi, "epubcfi(/6/4[ch1]!/4)");
    assert_eq!(positions[0][0].title.as_deref(), Some("One"));
    assert_eq!(positions[1][1].title.as_deref(), Some("Two"));
    assert_eq!(positions[1][1].global_position, 4);
    assert_eq!(positions[1][1].chapter_position_count, 2);
}

#[test]
fn positions_missing_entry_length_counts_as_empty() {
    let book = make_book(2, LayoutType::Reflowable);
    let mut provider = EmptyProvider;
    let strategy = ArchiveEntryLength { page_length: 1024 };
    let positions = positions_by_reading_order(&mut provider, &book, &strategy, &[]).unwrap();
    assert_eq!(positions.len(), 2);
    assert_eq!(positions[0].len(), 1);
    assert_eq!(positions[1].len(), 1);
}

#[test]
fn positions_missing_manifest_item_is_refused() {
    let mut book = make_book(2, LayoutType::Reflowable);
    book.spine[1].idref = "ghost".to_string();
    let mut provider = FixedLengthProvider(10);
    let strategy = ArchiveEntryLength { page_length: 1024 };
    match positions_by_reading_order(&mut provider, &book, &strategy, &[]) {
        Err(EpubError::InvalidFormat(msg)) => assert_eq!(msg, "Missing manifest item: ghost"),
        other => panic!("unexpected {other:?}"),
    }
}

#[test]
fn positions_from_given_lengths() {
    let book = make_book(2, LayoutType::Reflowable);
    let chapters = reading_order_chapters(&book).unwrap();
    let strategy = ArchiveEntryLength { page_length: 100 };
    let titles = build_title_map(&[]);
    let v = positions_from_lengths(&chapters, &[250, 0], &strategy, &titles);
    assert_eq!(v[0].len(), 3);
    assert_eq!(v[1].len(), 1);
    assert_eq!(v[1][0].global_position, 4);
}

// ── PositionIndex ─────────────────────────────────────────────────────────

fn build_index(n_chapters: usize, positions_per_chapter: usize) -> PositionIndex {
    let byte_len = (positions_per_chapter * 1024) as u64;
    let book = make_book(n_chapters, LayoutType::Reflowable);
    PositionIndex::build(positions_of(&book, byte_len))
}

#[test]
fn position_index_empty_returns_none() {
    let idx = PositionIndex::build(vec![]);
    assert!(idx.is_empty());
    assert_eq!(idx.len(), 0);
    assert!(idx.location_from_cfi("epubcfi(/6/2!/4)").is_none());
    assert!(idx.cfi_from_location(0).is_none());
}

#[test]
fn position_index_single_chapter_first_position() {
    let idx = build_index(1, 3);
    assert_eq!(idx.len(), 3);
    let loc = idx.location_from_cfi("epubcfi(/6/2[ch0]!/4)").unwrap();
    assert_eq!(loc, 0, "chapter root must map to position 0");
}

#[test]
fn position_index_single_chapter_second_position() {
    let idx = build_index(1, 3);
    let loc = idx.location_from_cfi("epubcfi(/6/2[ch0]!/4/2)").unwrap();
    assert_eq!(loc, 1);
}

#[test]
fn position_index_single_chapter_third_position() {
    let idx = build_index(1, 3);
    let loc = idx.location_from_cfi("epubcfi(/6/2[ch0]!/4/4)").unwrap();
    assert_eq!(loc, 2);
}

#[test]
fn position_index_multi_chapter_boundaries() {
    let idx = build_index(3, 2);
    assert_eq!(idx.len(), 6);
    assert_eq!(idx.location_from_cfi("epubcfi(/6/2[ch0]!/4)").unwrap(), 0);
    assert_eq!(idx.location_from_cfi("epubcfi(/6/2[ch0]!/4/2)").unwrap(), 1);
    assert_eq!(idx.location_from_cfi("epubcfi(/6/4[ch1]!/4)").unwrap(), 2);
    assert_eq!(idx.location_from_cfi("epubcfi(/6/4[ch1]!/4/2)").unwrap(), 3);
    assert_eq!(idx.location_from_cfi("epubcfi(/6/6[ch2]!/4)").unwrap(), 4);
    assert_eq!(idx.location_from_cfi("epubcfi(/6/6[ch2]!/4/2)").unwrap(), 5);
}

#[test]
fn position_index_cfi_from_location_roundtrip() {
    let idx = build_index(3, 4);
    for i in 0..idx.len() {
        let cfi = idx.cfi_from_location(i).expect("cfi must exist for valid index");
        let back = idx.location_from_cfi(cfi).expect("location must resolve");
        assert_eq!(back, i, "roundtrip failed at index {i}");
    }
}

#[test]
fn position_index_deep_user_bookmark_cfi() {
    let idx = build_index(1, 5);
    let loc = idx.location_from_cfi("epubcfi(/6/2!/4/2/1:42)").unwrap();
    assert_eq!(loc, 1, "deep bookmark under /4/2 must map to position 1");
}

#[test]
fn position_index_out_of_chapter_step_clamped() {
    let idx = build_index(1, 3);
    let loc = idx.location_from_cfi("epubcfi(/6/2!/4/100)").unwrap();
    assert_eq!(loc, 2, "out-of-range step must clamp to last chapter position");
}

#[test]
fn position_index_nonlinear_spine_item_returns_none() {
    let mut book = make_book(3, LayoutType::Reflowable);
    book.spine[1].linear = false;
    let idx = PositionIndex::build(positions_of(&book, 1024));
    let result = idx.location_from_cfi("epubcfi(/6/4[ch1]!/4)");
    assert!(result.is_none(), "non-linear spine item must return None");
}

#[test]
fn position_index_oob_location_returns_none() {
    let idx = build_index(1, 3);
    assert!(idx.cfi_from_location(3).is_none(), "index 3 is out of bounds for 3-position list");
}

#[test]
fn position_index_position_at() {
    let idx = build_index(2, 2);
    let p = idx.position_at(2).unwrap();
    assert_eq!(p.spine_index, 1);
    assert_eq!(p.position_in_chapter, 0);
    assert!(idx.position_at(4).is_none());
}

#[test]
fn position_index_range_cfi_uses_start_endpoint() {
    let idx = build_index(1, 3);
    assert_eq!(idx.location_from_cfi("epubcfi(/6/2!/4,/2/1:0,/2/1:10)"), Some(1));
    assert_eq!(idx.location_from_cfi("epubcfi(/6/2!/4/4,/1:0,/1:3)"), Some(2));
}
