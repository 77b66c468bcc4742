use epub_rs::error::EpubError;
use epub_rs::parser::archive::EpubArchive;
use epub_rs::provider::EpubProvider;
use epub_rs::model::{EpubBook, ManifestItem, Metadata, SpineItem, TocEntry};
use epub_rs::parser::resolve::{
    hrefs_equal, hrefs_match, resolve_from_probes, resource_candidates, resource_media_type,
    toc_title_for_href,
};

fn item(id: &str, href: &str, media_type: &str) -> ManifestItem {
    ManifestItem {
        id: id.to_string(),
        href: href.to_string(),
        media_type: media_type.to_string(),
        properties: vec![],
        media_overlay: None,
    }
}

fn mock_book() -> EpubBook {
    EpubBook {
        metadata: Metadata::default(),
        manifest: vec![
            item("ch1", "Text/ch1.xhtml", "application/xhtml+xml"),
            item("ch2", "Text/ch2.xhtml", "application/xhtml+xml"),
            item("img", "Images/cover.jpg", "image/jpeg"),
            item("pic", "Images/my pic.png", "image/png"),
            item("css", "Styles/main.css", "text/css"),
            item("nav", "nav.xhtml", "application/xhtml+xml"),
        ],
        spine: vec![
            SpineItem { idref: "ch1".into(), linear: true, layout_override: None, page_spread: None },
            SpineItem { idref: "ch2".into(), linear: true, layout_override: None, page_spread: None },
        ],
        opf_dir: "OEBPS".into(),
        toc_id: None,
        guide: Vec::new(),
        encryptions: Vec::new(),
    }
}

/// The entries of the mock archive.
fn archive_names() -> Vec<&'static str> {
    vec![
        "OEBPS/Text/ch1.xhtml",
        "OEBPS/Text/ch2.xhtml",
        "OEBPS/Images/cover.jpg",
        "OEBPS/Images/my pic.png",
        "OEBPS/Styles/main.css",
        "OEBPS/nav.xhtml",
    ]
}

/// Resolves as the archive would: candidates probed against its entries.
fn resolve(book: &EpubBook, chapter: Option<&str>, rel: &str) -> Option<(String, String)> {
    let candidates = resource_candidates(book, chapter, rel)?;
    let names = archive_names();
    let present: Vec<bool> = candidates.iter().map(|c| names.contains(&c.as_str())).collect();
    resolve_from_probes(book, rel, &candidates, &present).map(|r| (r.zip_path, r.media_type))
}

fn mock_toc() -> Vec<TocEntry> {
    vec![
        TocEntry {
            title: "Chapter 1".into(),
            href: "OEBPS/Text/ch1.xhtml".into(),
            children: vec![],
            role: None,
        },
        TocEntry {
            title: "Chapter 2".into(),
            href: "OEBPS/Text/ch2.xhtml".into(),
            children: vec![TocEntry {
                title: "Section 1".into(),
                href: "OEBPS/Text/ch2.xhtml#s1".into(),
                children: vec![],
                role: None,
            }],
            role: None,
        },
    ]
}

#[test]
fn resolves_chapter_relative() {
    let book = mock_book();
    let r = resolve(&book, Some("Text/ch1.xhtml"), "../Images/cover.jpg").unwrap();
    assert_eq!(r.0, "OEBPS/Images/cover.jpg");
    assert_eq!(r.1, "image/jpeg");
}

#[test]
fn resolves_opf_relative_without_chapter() {
    let book = mock_book();
    let r = resolve(&book, None, "Images/cover.jpg").unwrap();
    assert_eq!(r.0, "OEBPS/Images/cover.jpg");
}

#[test]
fn resolves_root_absolute() {
    let book = mock_book();
    let r = resolve(&book, Some("Text/ch1.xhtml"), "/OEBPS/Styles/main.css").unwrap();
    assert_eq!(r.0, "OEBPS/Styles/main.css");
    assert_eq!(r.1, "text/css");
}

#[test]
fn strips_query_fragment_and_percent_decodes() {
    let book = mock_book();
    let r = resolve(&book, Some("Text/ch1.xhtml"), "../Images/my%20pic.png?v=2#frag").unwrap();
    assert_eq!(r.0, "OEBPS/Images/my pic.png");
    assert_eq!(r.1, "image/png");
}

#[test]
fn manifest_fallback_when_join_misses() {
    let book = mock_book();
    let r = resolve(&book, None, "cover.jpg").unwrap();
    assert_eq!(r.0, "OEBPS/Images/cover.jpg");
    assert_eq!(r.1, "image/jpeg");
}

#[test]
fn rejects_external_and_missing() {
    let book = mock_book();
    assert!(resolve(&book, None, "https://example.com/a.png").is_none());
    assert!(resolve(&book, None, "nope/none.png").is_none());
}

#[test]
fn candidate_order() {
    let book = mock_book();
    let c = resource_candidates(&book, Some("Text/ch1.xhtml"), "../Images/a.png").unwrap();
    assert_eq!(c, vec!["OEBPS/Images/a.png".to_string(), "Images/a.png".to_string(), "../Images/a.png".to_string()]);
    assert!(resource_candidates(&book, None, "").is_none());
}

#[test]
fn media_type_prefers_manifest() {
    let book = mock_book();
    assert_eq!(resource_media_type(&book, "Images/cover.jpg"), "image/jpeg");
    assert_eq!(resource_media_type(&book, "OEBPS/Images/cover.jpg"), "image/jpeg");
    assert_eq!(resource_media_type(&book, "anything/unknown.xyz"), "application/octet-stream");
    assert_eq!(resource_media_type(&book, "a/b/font.woff2"), "font/woff2");
}

#[test]
fn href_comparisons() {
    let book = mock_book();
    assert!(hrefs_equal(&book, "Text/ch1.xhtml", "/OEBPS/Text/ch1.xhtml#x"));
    assert!(!hrefs_equal(&book, "Text/ch1.xhtml", "ch1.xhtml"));
    assert!(hrefs_match(&book, "Text/ch1.xhtml", "ch1.xhtml"));
    assert!(!hrefs_match(&book, "Text/ch1.xhtml", "ch2.xhtml"));
}

#[test]
fn toc_title_matches_opf_relative_input() {
    let book = mock_book();
    assert_eq!(
        toc_title_for_href(&book, &mock_toc(), "Text/ch1.xhtml").as_deref(),
        Some("Chapter 1")
    );
}

#[test]
fn toc_title_strips_fragment_and_walks_children() {
    let book = mock_book();
    assert_eq!(
        toc_title_for_href(&book, &mock_toc(), "OEBPS/Text/ch2.xhtml#s1").as_deref(),
        Some("Section 1")
    );
}

#[test]
fn toc_title_none_for_unknown_href() {
    let book = mock_book();
    assert!(toc_title_for_href(&book, &mock_toc(), "Nope/none.xhtml").is_none());
}

/// The mock archive's entries, held in memory.
struct MockProvider;

impl EpubProvider for MockProvider {
    fn read_file(&mut self, path: &str) -> Result<Vec<u8>, EpubError> {
        if archive_names().contains(&path) {
            if path == "OEBPS/Images/cover.jpg" {
                Ok(b"fake-jpeg".to_vec())
            } else {
                Ok(Vec::new())
            }
        } else {
            Err(EpubError::InvalidFormat(format!("File not found: {}", path)))
        }
    }

    fn entry_length(&mut self, path: &str) -> Result<u64, EpubError> {
        if archive_names().contains(&path) {
            Ok(9)
        } else {
            Err(EpubError::InvalidFormat(format!("File not found: {}", path)))
        }
    }
}

#[test]
fn get_resolved_resource_returns_bytes_and_type() {
    let mut archive = EpubArchive::new_with_provider(MockProvider);
    let book = mock_book();
    let (bytes, media_type) = archive
        .get_resolved_resource(&book, Some("Text/ch1.xhtml"), "../Images/cover.jpg")
        .unwrap();
    assert_eq!(bytes, b"fake-jpeg");
    assert_eq!(media_type, "image/jpeg");
}

#[test]
fn get_resolved_resource_refuses_external_reference() {
    let mut archive = EpubArchive::new_with_provider(MockProvider);
    let book = mock_book();
    match archive.get_resolved_resource(&book, None, "https://example.com/a.png") {
        Err(EpubError::InvalidFormat(m)) => assert_eq!(m, "resource not found: https://example.com/a.png"),
        other => panic!("unexpected: {:?}", other.map(|p| p.1)),
    }
}
