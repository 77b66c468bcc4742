use std::cell::Cell;
use std::collections::HashMap;
use std::rc::Rc;

use epub_rs::error::EpubError;
use epub_rs::model::{EpubBook, ManifestItem, Metadata, SpineItem};
use epub_rs::parser::archive::EpubArchive;
use epub_rs::parser::reading::SearchBookOptions;
use epub_rs::processor::inline::InlinePlan;
use epub_rs::processor::prepare::LoadedResource;
use epub_rs::provider::EpubProvider;

/// Files in memory; counts the reads.
struct Files {
    files: HashMap<String, Vec<u8>>,
    reads: Rc<Cell<usize>>,
}

impl EpubProvider for Files {
    fn read_file(&mut self, path: &str) -> Result<Vec<u8>, EpubError> {
        self.reads.set(self.reads.get() + 1);
        self.files.get(path).cloned().ok_or_else(|| EpubError::InvalidFormat(format!("File not found: {}", path)))
    }

    fn entry_length(&mut self, path: &str) -> Result<u64, EpubError> {
        self.files.get(path).map(|b| b.len() as u64).ok_or_else(|| EpubError::InvalidFormat(path.to_string()))
    }
}

fn item(id: &str, href: &str, mt: &str, props: &[&str]) -> ManifestItem {
    ManifestItem {
        id: id.into(),
        href: href.into(),
        media_type: mt.into(),
        properties: props.iter().map(|p| p.to_string()).collect(),
        media_overlay: None,
    }
}

fn spine(idref: &str, linear: bool) -> SpineItem {
    SpineItem { idref: idref.into(), linear, layout_override: None, page_spread: None }
}

const NAV: &str = r#"<html xmlns:epub="http://www.idpf.org/2007/ops"><body>
<nav epub:type="toc"><ol><li><a href="ch1.xhtml">One</a></li><li><a href="ch2.xhtml">Two</a></li></ol></nav>
</body></html>"#;

fn book() -> EpubBook {
    EpubBook {
        metadata: Metadata::default(),
        manifest: vec![
            item("nav", "nav.xhtml", "application/xhtml+xml", &["nav"]),
            item("ch1", "ch1.xhtml", "application/xhtml+xml", &[]),
            item("ch2", "ch2.xhtml", "application/xhtml+xml", &[]),
            item("aside", "aside.xhtml", "application/xhtml+xml", &[]),
        ],
        spine: vec![spine("ch1", true), spine("ch2", true), spine("aside", false)],
        opf_dir: "OEBPS".into(),
        toc_id: None,
        guide: Vec::new(),
        encryptions: Vec::new(),
    }
}

fn archive(reads: Rc<Cell<usize>>) -> EpubArchive<Files> {
    let mut files = HashMap::new();
    files.insert("OEBPS/nav.xhtml".to_string(), NAV.as_bytes().to_vec());
    files.insert("OEBPS/ch1.xhtml".to_string(), b"<html><body><p>The dragon sleeps.</p></body></html>".to_vec());
    files.insert(
        "OEBPS/ch2.xhtml".to_string(),
        b"<html><body><p>Dragon, dragon, DRAGON!</p></body></html>".to_vec(),
    );
    files.insert("OEBPS/aside.xhtml".to_string(), b"<html><body><p>A dragon aside.</p></body></html>".to_vec());
    EpubArchive::new_with_provider(Files { files, reads })
}

#[test]
fn navigation_is_read_once_per_rendition() {
    let reads = Rc::new(Cell::new(0));
    let mut a = archive(Rc::clone(&reads));
    let b = book();
    a.clear_resource_cache();
    let toc = a.get_toc(&b).unwrap();
    assert_eq!(toc.len(), 2);
    assert_eq!(toc[0].title, "One");
    assert_eq!(toc[0].href, "OEBPS/ch1.xhtml");
    let after_first = reads.get();
    a.clear_resource_cache();
    let again = a.get_navigation(&b).unwrap();
    assert_eq!(again.toc.len(), 2);
    assert_eq!(again.toc[1].title, "Two");
    assert_eq!(reads.get(), after_first);
    assert!(a.get_page_list(&b).unwrap().is_empty());
}

#[test]
fn search_book_caps_and_skips_non_linear() {
    let mut a = archive(Rc::new(Cell::new(0)));
    let b = book();
    let hits = a.search_book(&b, "dragon", 2, 10).unwrap();
    assert_eq!(hits.len(), 3);
    assert_eq!(hits[0].spine_index, 0);
    assert_eq!(hits[0].manifest_id, "ch1");
    assert_eq!(hits[1].spine_index, 1);
    assert_eq!(hits[2].spine_index, 1);
    let capped = a.search_book(&b, "dragon", 5, 2).unwrap();
    assert_eq!(capped.len(), 2);
    assert!(a.search_book(&b, "   ", 5, 5).unwrap().is_empty());
    assert!(a.search_book(&b, "NonexistentTerm", 5, 10).unwrap().is_empty());
    let all = a
        .search_book_with_options(
            &b,
            "dragon",
            &SearchBookOptions { max_per_chapter: 5, max_total: 20, case_insensitive: true, include_non_linear: true },
        )
        .unwrap();
    assert_eq!(all.len(), 5);
    assert_eq!(all[4].manifest_id, "aside");
}

#[test]
fn semantic_content_through_archive() {
    let mut a = archive(Rc::new(Cell::new(0)));
    let b = book();
    let elements = a.get_semantic_content(&b, "ch1").unwrap();
    assert_eq!(elements.len(), 1);
    assert_eq!(elements[0].text, "The dragon sleeps.");
    assert_eq!(elements[0].cfi_range, "epubcfi(/6/2[ch1]!/4/2)");
    assert!(a.get_semantic_content(&b, "nav").is_err());
}

#[test]
fn inline_plan_counts_each_path_once() {
    let refs = vec!["img/a.png".to_string(), "img/a.png".to_string(), "gone.png".to_string(), "big.png".to_string()];
    let mut plan = InlinePlan::new(&refs, "OEBPS/Text/ch.xhtml");
    let mut asked = Vec::new();
    while let Some(path) = plan.next_path() {
        asked.push(path.clone());
        let loaded = match path.as_str() {
            "OEBPS/Text/img/a.png" => Some(LoadedResource { bytes: b"png".to_vec(), media_type: None }),
            "OEBPS/Text/big.png" => Some(LoadedResource { bytes: vec![0u8; 100], media_type: None }),
            _ => None,
        };
        plan.on_loaded(&path, loaded, 10);
    }
    plan.finish();
    let stats = plan.stats();
    assert_eq!(asked.len(), 3);
    assert_eq!(stats.considered, 3);
    assert_eq!(stats.inlined, 1);
    assert_eq!(stats.missing, 1);
    assert_eq!(stats.skipped_oversize, 1);
    assert_eq!(plan.uri_for("OEBPS/Text/img/a.png").as_deref(), Some("data:image/png;base64,cG5n"));
    assert_eq!(plan.uri_for("OEBPS/Text/big.png"), None);
    assert_eq!(plan.uri_for("https://example.com/x.png"), None);
}
