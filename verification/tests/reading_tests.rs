use epub_rs::model::{EpubBook, GuideReference, ManifestItem, Metadata, SpineItem, TocEntry};
use epub_rs::parser::reading::{
    landmark_matches_role, looks_like_cover_spine, preferred_reading_start, spine_index_for_href,
    SearchBookOptions,
};

fn item(id: &str, href: &str) -> ManifestItem {
    ManifestItem {
        id: id.into(),
        href: href.into(),
        media_type: "application/xhtml+xml".into(),
        properties: vec![],
        media_overlay: None,
    }
}

fn book_with_cover_then_text() -> EpubBook {
    EpubBook {
        metadata: Metadata::default(),
        manifest: vec![item("cover", "cover.xhtml"), item("c1", "ch1.xhtml")],
        spine: vec![
            SpineItem { idref: "cover".into(), linear: true, layout_override: None, page_spread: None },
            SpineItem { idref: "c1".into(), linear: true, layout_override: None, page_spread: None },
        ],
        opf_dir: String::new(),
        toc_id: None,
        guide: Vec::new(),
        encryptions: Vec::new(),
    }
}

#[test]
fn cover_heuristic_matches_id() {
    let book = book_with_cover_then_text();
    assert!(looks_like_cover_spine(&book, &book.spine[0]));
    assert!(!looks_like_cover_spine(&book, &book.spine[1]));
}

#[test]
fn search_options_default_caps() {
    let o = SearchBookOptions::default();
    assert_eq!(o.max_per_chapter, 12);
    assert_eq!(o.max_total, 80);
    assert!(o.case_insensitive);
    assert!(!o.include_non_linear);
}

#[test]
fn cover_id_marks_spine_cover() {
    let mut book = book_with_cover_then_text();
    book.metadata.cover_id = Some("cover".into());
    assert!(looks_like_cover_spine(&book, &book.spine[0]));
}

#[test]
fn reading_start_skips_cover() {
    let book = book_with_cover_then_text();
    let start = preferred_reading_start(&book, &[]);
    assert_eq!(start.spine_index, 1);
    assert_eq!(start.source, "cover_skip");
    assert_eq!(start.href.as_deref(), Some("ch1.xhtml"));
}

#[test]
fn reading_start_prefers_landmark_then_guide() {
    let mut book = book_with_cover_then_text();
    book.guide.push(GuideReference {
        ref_type: "Text".into(),
        title: Some("Start".into()),
        href: "cover.xhtml".into(),
    });
    let start = preferred_reading_start(&book, &[]);
    assert_eq!(start.spine_index, 0);
    assert_eq!(start.source, "guide:text");
    let landmarks = vec![TocEntry {
        title: "Begin".into(),
        href: "ch1.xhtml#top".into(),
        children: vec![],
        role: Some("epub:bodymatter".into()),
    }];
    let start = preferred_reading_start(&book, &landmarks);
    assert_eq!(start.spine_index, 1);
    assert_eq!(start.source, "landmark:bodymatter");
}

#[test]
fn landmark_roles_tolerate_prefixes() {
    assert!(landmark_matches_role("epub:bodymatter", "bodymatter"));
    assert!(landmark_matches_role("frontmatter x:text", "text"));
    assert!(!landmark_matches_role("textbook", "text"));
}

#[test]
fn spine_index_matches_nav_href() {
    let mut book = book_with_cover_then_text();
    book.opf_dir = "OEBPS".into();
    book.manifest = vec![item("ch1", "Text/ch1.xhtml"), item("ch2", "Text/ch2.xhtml")];
    book.spine[0].idref = "ch1".into();
    book.spine[1].idref = "ch2".into();
    assert_eq!(spine_index_for_href(&book, "OEBPS/Text/ch2.xhtml"), Some(1));
    assert_eq!(spine_index_for_href(&book, "Text/ch1.xhtml"), Some(0));
    assert_eq!(spine_index_for_href(&book, "none.xhtml"), None);
}
