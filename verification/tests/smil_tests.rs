use std::collections::HashMap;

use epub_rs::error::EpubError;
use epub_rs::model::{EpubBook, ManifestItem, Metadata, SpineItem};
use epub_rs::parser::archive::EpubArchive;
use epub_rs::parser::smil::parse_smil_structure;
use epub_rs::provider::EpubProvider;

const FLAT: &str = r#"<?xml version="1.0"?>
<smil xmlns="http://www.w3.org/ns/SMIL">
  <body>
    <seq epub:textref="ch01.xhtml" epub:type="chapter">
      <par id="par0">
        <text src="ch01.xhtml#word_0001"/>
        <audio src="audio/ch01.mp3" clipBegin="0s" clipEnd="0.840s"/>
      </par>
      <par id="par1">
        <text src="ch01.xhtml#word_0002"/>
        <audio src="audio/ch01.mp3" clipBegin="0.840s" clipEnd="1.920s"/>
      </par>
    </seq>
  </body>
</smil>"#;

#[test]
fn smil_structure_flat_par_sequence() {
    let nodes = parse_smil_structure(FLAT, "OEBPS").unwrap();
    assert_eq!(nodes.len(), 1);
    let seq = &nodes[0];
    assert_eq!(seq.text_ref, "OEBPS/ch01.xhtml");
    assert_eq!(seq.role, vec!["chapter"]);
    assert_eq!(seq.children.len(), 2);
    let par0 = &seq.children[0];
    assert_eq!(par0.text_ref, "OEBPS/ch01.xhtml#word_0001");
    let clip = par0.audio.as_ref().unwrap();
    assert_eq!(clip.src, "OEBPS/audio/ch01.mp3");
    assert_eq!(clip.clip_begin.as_deref(), Some("0s"));
    assert_eq!(clip.clip_end.as_deref(), Some("0.840s"));
    assert_eq!(seq.children[1].text_ref, "OEBPS/ch01.xhtml#word_0002");
    assert_eq!(seq.children[1].audio.as_ref().unwrap().clip_begin.as_deref(), Some("0.840s"));
}

#[test]
fn smil_structure_nested_seq() {
    let xml = r#"<smil><body>
    <seq epub:textref="ch01.xhtml" epub:type="chapter">
      <seq epub:textref="ch01.xhtml#aside1" epub:type="sidebar">
        <par><text src="ch01.xhtml#aside1_p1"/><audio src="audio/ch01.mp3" clipBegin="5s" clipEnd="8s"/></par>
      </seq>
    </seq></body></smil>"#;
    let nodes = parse_smil_structure(xml, "OEBPS").unwrap();
    assert_eq!(nodes.len(), 1);
    assert_eq!(nodes[0].role, vec!["chapter"]);
    let aside = &nodes[0].children[0];
    assert_eq!(aside.text_ref, "OEBPS/ch01.xhtml#aside1");
    assert_eq!(aside.role, vec!["sidebar"]);
    assert_eq!(aside.children[0].text_ref, "OEBPS/ch01.xhtml#aside1_p1");
}

#[test]
fn smil_structure_seq_without_textref() {
    let xml = r#"<smil><body><seq><par><text src="ch01.xhtml#p1"/><audio src="audio.mp3" clipBegin="0s" clipEnd="1s"/></par></seq></body></smil>"#;
    let nodes = parse_smil_structure(xml, "OEBPS").unwrap();
    assert_eq!(nodes.len(), 1);
    assert!(nodes[0].text_ref.is_empty());
    assert_eq!(nodes[0].children.len(), 1);
}

#[test]
fn smil_structure_refuses_malformed_xml() {
    assert!(matches!(parse_smil_structure("<smil><body><seq", "OEBPS"), Err(EpubError::Xml(_))));
}

struct Files(HashMap<String, Vec<u8>>);

impl EpubProvider for Files {
    fn read_file(&mut self, path: &str) -> Result<Vec<u8>, EpubError> {
        self.0.get(path).cloned().ok_or_else(|| EpubError::InvalidFormat(format!("File not found: {}", path)))
    }

    fn entry_length(&mut self, path: &str) -> Result<u64, EpubError> {
        self.0.get(path).map(|b| b.len() as u64).ok_or_else(|| EpubError::InvalidFormat(path.to_string()))
    }
}

fn item(id: &str, href: &str, mt: &str, overlay: Option<&str>) -> ManifestItem {
    ManifestItem {
        id: id.into(),
        href: href.into(),
        media_type: mt.into(),
        properties: vec![],
        media_overlay: overlay.map(|s| s.to_string()),
    }
}

fn spine(idref: &str) -> SpineItem {
    SpineItem { idref: idref.into(), linear: true, layout_override: None, page_spread: None }
}

fn overlay_book() -> EpubBook {
    EpubBook {
        metadata: Metadata::default(),
        manifest: vec![
            item("c1", "ch01.xhtml", "application/xhtml+xml", Some("s1")),
            item("c2", "ch02.xhtml", "application/xhtml+xml", Some("s2")),
            item("c3", "ch03.xhtml", "application/xhtml+xml", Some("missing")),
            item("s1", "smil/ch01.smil", "application/smil+xml", None),
            item("s2", "smil/ch02.smil", "application/smil+xml", None),
        ],
        spine: vec![spine("c1"), spine("c2"), spine("c3")],
        opf_dir: "OEBPS".into(),
        toc_id: None,
        guide: Vec::new(),
        encryptions: Vec::new(),
    }
}

fn overlay_archive() -> EpubArchive<Files> {
    let mut files = HashMap::new();
    files.insert("OEBPS/smil/ch01.smil".to_string(), FLAT.as_bytes().to_vec());
    files.insert("OEBPS/smil/ch02.smil".to_string(), b"<smil><body></body></smil>".to_vec());
    EpubArchive::new_with_provider(Files(files))
}

#[test]
fn media_overlay_reads_structure_and_neighbours() {
    let mut archive = overlay_archive();
    let book = overlay_book();
    assert!(archive.has_media_overlays(&book));
    let o = archive.media_overlay(&book, "ch01.xhtml").unwrap().unwrap();
    assert_eq!(o.nodes[0].text_ref, "OEBPS/smil/ch01.xhtml");
    assert_eq!(o.prev_smil_href, None);
    assert_eq!(o.next_smil_href.as_deref(), Some("OEBPS/smil/ch02.smil"));
    let o2 = archive.media_overlay(&book, "ch02.xhtml").unwrap().unwrap();
    assert!(o2.nodes.is_empty());
    assert_eq!(o2.prev_smil_href.as_deref(), Some("OEBPS/smil/ch01.smil"));
}

#[test]
fn media_overlay_absent_and_unknown_id() {
    let mut archive = overlay_archive();
    let book = overlay_book();
    assert!(archive.media_overlay(&book, "nowhere.xhtml").unwrap().is_none());
    match archive.media_overlay(&book, "ch03.xhtml") {
        Err(EpubError::InvalidFormat(m)) => assert_eq!(m, "media-overlay ID 'missing' not found in manifest"),
        _ => panic!("expected an error"),
    }
    let mut plain = overlay_book();
    for m in plain.manifest.iter_mut() {
        m.media_overlay = None;
    }
    assert!(!archive.has_media_overlays(&plain));
}
