use std::collections::HashMap;

use epub_rs::a11y::{A11yAccessMode, A11yFeature, A11yHazard, A11yProfile};
use epub_rs::error::EpubError;
use epub_rs::model::{EpubBook, LayoutType, ObfuscationAlgorithm, PageSpread, ReadingProgression};
use epub_rs::parser::archive::EpubArchive;
use epub_rs::parser::reading::preferred_reading_start;
use epub_rs::provider::EpubProvider;
use epub_rs::xml::{xml_events, XmlEvent};

/// A package held in memory.
struct MockProvider {
    files: HashMap<String, Vec<u8>>,
}

impl EpubProvider for MockProvider {
    fn read_file(&mut self, path: &str) -> Result<Vec<u8>, EpubError> {
        match self.files.get(path) {
            Some(bytes) => Ok(bytes.clone()),
            None => Err(EpubError::InvalidFormat(format!("File not found: {}", path))),
        }
    }

    fn entry_length(&mut self, path: &str) -> Result<u64, EpubError> {
        match self.files.get(path) {
            Some(bytes) => Ok(bytes.len() as u64),
            None => Ok(0),
        }
    }
}

fn archive_of(files: &[(&str, &[u8])]) -> EpubArchive<MockProvider> {
    let files = files.iter().map(|(k, v)| (k.to_string(), v.to_vec())).collect();
    EpubArchive::new_with_provider(MockProvider { files })
}

const CONTAINER: &[u8] = b"<?xml version=\"1.0\"?>\n\
    <container version=\"1.0\"\n\
    \n  xmlns=\"urn:oasis:names:tc:opendocument:xmlns:container\">\n\
      <rootfiles>\n\
        <rootfile full-path=\"content.opf\"\n\
    \n              media-type=\"application/oebps-package+xml\"/>\n\
      </rootfiles>\n\
    </container>";

fn epub_with_metadata(metadata_xml: &str) -> EpubArchive<MockProvider> {
    let opf = format!(
        "<?xml version=\"1.0\"?>\n\
         <package version=\"3.0\" xmlns=\"http://www.idpf.org/2007/opf\"\
         \n         unique-identifier=\"uid\">\n\
           <metadata xmlns:dc=\"http://purl.org/dc/elements/1.1/\"\n\
                     xmlns:opf=\"http://www.idpf.org/2007/opf\">\n\
             {}\n\
           </metadata>\n\
           <manifest/>\n\
           <spine/>\n\
         </package>",
        metadata_xml
    );
    archive_of(&[("META-INF/container.xml", CONTAINER), ("content.opf", opf.as_bytes())])
}

fn epub_with_opf(unique_id_attr: &str, metadata_xml: &str) -> EpubArchive<MockProvider> {
    let opf = format!(
        "<?xml version=\"1.0\"?>\n\
         <package version=\"3.0\" xmlns=\"http://www.idpf.org/2007/opf\" {unique_id_attr}>\n\
           <metadata xmlns:dc=\"http://purl.org/dc/elements/1.1/\"\n\
                     xmlns:opf=\"http://www.idpf.org/2007/opf\">\n\
             {metadata_xml}\n\
           </metadata>\n\
           <manifest/>\n\
           <spine/>\n\
         </package>",
    );
    archive_of(&[("META-INF/container.xml", CONTAINER), ("content.opf", opf.as_bytes())])
}

fn parse(mut archive: EpubArchive<MockProvider>) -> EpubBook {
    archive.parse().unwrap()
}

// ── Titles ──────────────────────────────────────────────────────────────────

#[test]
fn test_title_xml_lang_captured() {
    let book = parse(epub_with_metadata(
        "<dc:title xml:lang=\"zh-CN\">软件设计的哲学</dc:title>\
         <dc:title xml:lang=\"en\">A Philosophy of Software Design</dc:title>",
    ));
    assert_eq!(book.metadata.titles.len(), 2);
    assert_eq!(book.metadata.titles[0].lang.as_deref(), Some("zh-CN"));
    assert_eq!(book.metadata.titles[1].lang.as_deref(), Some("en"));
}

#[test]
fn test_title_type_main_wins_over_first() {
    let book = parse(epub_with_metadata(
        "<dc:title id=\"t-sub\">A Subtitle</dc:title>\
         <dc:title id=\"t-main\">The Real Main Title</dc:title>\
         <meta refines=\"#t-sub\"  property=\"title-type\">subtitle</meta>\
         <meta refines=\"#t-main\" property=\"title-type\">main</meta>",
    ));
    assert_eq!(book.metadata.title.as_deref(), Some("The Real Main Title"));
    assert_eq!(book.metadata.subtitle.as_deref(), Some("A Subtitle"));
}

#[test]
fn test_sort_as_from_main_title_file_as() {
    let book = parse(epub_with_metadata(
        "<dc:title id=\"t1\">The Hobbit</dc:title>\
         <meta refines=\"#t1\" property=\"title-type\">main</meta>\
         <meta refines=\"#t1\" property=\"file-as\">Hobbit, The</meta>",
    ));
    assert_eq!(book.metadata.title.as_deref(), Some("The Hobbit"));
    assert_eq!(book.metadata.sort_as.as_deref(), Some("Hobbit, The"));
    assert_eq!(book.metadata.titles[0].sort_as.as_deref(), Some("Hobbit, The"));
}

#[test]
fn test_subtitle_picked_by_display_seq() {
    let book = parse(epub_with_metadata(
        "<dc:title id=\"t-main\">Main</dc:title>\
         <dc:title id=\"t-s2\">Second Subtitle</dc:title>\
         <dc:title id=\"t-s1\">First Subtitle</dc:title>\
         <meta refines=\"#t-main\" property=\"title-type\">main</meta>\
         <meta refines=\"#t-s2\"   property=\"title-type\">subtitle</meta>\
         <meta refines=\"#t-s2\"   property=\"display-seq\">2</meta>\
         <meta refines=\"#t-s1\"   property=\"title-type\">subtitle</meta>\
         <meta refines=\"#t-s1\"   property=\"display-seq\">1</meta>",
    ));
    assert_eq!(book.metadata.subtitle.as_deref(), Some("First Subtitle"));
}

#[test]
fn test_epub2_inline_subtitle_attribute() {
    let book = parse(epub_with_metadata(
        "<dc:title>Main Title</dc:title>\
         <dc:title opf:title-type=\"subtitle\">Inline Subtitle</dc:title>",
    ));
    assert_eq!(book.metadata.title.as_deref(), Some("Main Title"));
    assert_eq!(book.metadata.subtitle.as_deref(), Some("Inline Subtitle"));
    let sub = book.metadata.titles.iter().find(|t| t.title_type.as_deref() == Some("subtitle"));
    assert!(sub.is_some(), "subtitle TitleEntry must exist");
}

#[test]
fn test_single_title_no_lang_backward_compat() {
    let book = parse(epub_with_metadata("<dc:title>Simple Book</dc:title>"));
    assert_eq!(book.metadata.title.as_deref(), Some("Simple Book"));
    assert_eq!(book.metadata.titles.len(), 1);
    assert_eq!(book.metadata.titles[0].value, "Simple Book");
    assert!(book.metadata.titles[0].lang.is_none());
    assert!(book.metadata.titles[0].title_type.is_none());
}

#[test]
fn creators_get_their_refinements() {
    let book = parse(epub_with_metadata(
        "<dc:creator id=\"a\">Ann Author</dc:creator>\
         <dc:contributor>Ed Editor</dc:contributor>\
         <meta refines=\"#a\" property=\"role\" scheme=\"marc:relators\">aut</meta>\
         <meta refines=\"#a\" property=\"file-as\">Author, Ann</meta>\
         <dc:language>fr</dc:language><dc:language>en</dc:language>\
         <dc:subject>Poetry</dc:subject>\
         <meta property=\"rendition:layout\">pre-paginated</meta>\
         <meta property=\"dcterms:modified\">2024-01-01T00:00:00Z</meta>",
    ));
    let m = &book.metadata;
    assert_eq!(m.creators.len(), 2);
    assert_eq!(m.creators[0].name, "Ann Author");
    assert_eq!(m.creators[0].role.as_deref(), Some("aut"));
    assert_eq!(m.creators[0].file_as.as_deref(), Some("Author, Ann"));
    assert!(m.creators[1].role.is_none());
    assert_eq!(m.language.as_deref(), Some("fr"));
    assert_eq!(m.languages, vec!["fr".to_string(), "en".to_string()]);
    assert_eq!(m.subjects, vec!["Poetry".to_string()]);
    assert_eq!(m.layout, LayoutType::PrePaginated);
    assert_eq!(m.modified.as_deref(), Some("2024-01-01T00:00:00Z"));
}

#[test]
fn collections_default_to_series() {
    let book = parse(epub_with_metadata(
        "<dc:title>T</dc:title>\
         <meta property=\"belongs-to-collection\" id=\"c1\">The Saga</meta>\
         <meta refines=\"#c1\" property=\"group-position\">2</meta>\
         <meta property=\"belongs-to-collection\" id=\"c2\">Box</meta>\
         <meta refines=\"#c2\" property=\"collection-type\">set</meta>",
    ));
    let b = &book.metadata.belongs_to;
    assert_eq!(b.len(), 2);
    assert_eq!(b[0].name, "The Saga");
    assert_eq!(b[0].collection_type, "series");
    assert_eq!(b[0].position.as_deref(), Some("2"));
    assert_eq!(b[1].collection_type, "set");
}

// ── Container ───────────────────────────────────────────────────────────────

fn epub_zip_with_container(container_xml: &str) -> EpubArchive<MockProvider> {
    let opf = b"<?xml version=\"1.0\"?>\
        <package version=\"3.0\" xmlns=\"http://www.idpf.org/2007/opf\" unique-identifier=\"uid\">\
          <metadata xmlns:dc=\"http://purl.org/dc/elements/1.1/\">\
            <dc:title>Test</dc:title>\
          </metadata>\
          <manifest/><spine/>\
        </package>";
    archive_of(&[("META-INF/container.xml", container_xml.as_bytes()), ("content.opf", opf)])
}

#[test]
fn test_parse_container_single_rootfile() {
    let container = r#"<?xml version="1.0"?>
        <container version="1.0" xmlns="urn:oasis:names:tc:opendocument:xmlns:container">
          <rootfiles>
            <rootfile full-path="content.opf" media-type="application/oebps-package+xml"/>
          </rootfiles>
        </container>"#;
    let mut archive = epub_zip_with_container(container);
    let renditions = archive.get_renditions().unwrap();
    assert_eq!(renditions.len(), 1);
    assert_eq!(renditions[0].opf_path, "content.opf");
    assert!(renditions[0].layout.is_none());
    assert!(renditions[0].label.is_none());
    assert!(renditions[0].is_reflowable(), "absent layout = reflowable per spec");
}

#[test]
fn test_parse_container_multiple_renditions_with_selection_attrs() {
    let container = r#"<?xml version="1.0"?>
        <container version="1.0"
                   xmlns="urn:oasis:names:tc:opendocument:xmlns:container"
                   xmlns:rendition="http://www.idpf.org/2013/rendition">
          <rootfiles>
            <rootfile full-path="content.opf"
                      media-type="application/oebps-package+xml"
                      rendition:layout="pre-paginated"
                      rendition:label="漫画版"
                      rendition:accessMode="visual"/>
            <rootfile full-path="text.opf"
                      media-type="application/oebps-package+xml"
                      rendition:layout="reflowable"
                      rendition:label="阅读版"
                      rendition:accessMode="textual"
                      rendition:language="zh-Hant"/>
          </rootfiles>
        </container>"#;
    let mut archive = epub_zip_with_container(container);
    let renditions = archive.get_renditions().unwrap();
    assert_eq!(renditions.len(), 2);
    assert_eq!(renditions[0].opf_path, "content.opf");
    assert_eq!(renditions[0].layout.as_deref(), Some("pre-paginated"));
    assert_eq!(renditions[0].label.as_deref(), Some("漫画版"));
    assert_eq!(renditions[0].access_mode.as_deref(), Some("visual"));
    assert!(renditions[0].is_fixed_layout());
    assert!(!renditions[0].is_reflowable());
    assert_eq!(renditions[1].opf_path, "text.opf");
    assert_eq!(renditions[1].layout.as_deref(), Some("reflowable"));
    assert_eq!(renditions[1].label.as_deref(), Some("阅读版"));
    assert_eq!(renditions[1].access_mode.as_deref(), Some("textual"));
    assert_eq!(renditions[1].language.as_deref(), Some("zh-Hant"));
    assert!(renditions[1].is_reflowable());
}

#[test]
fn container_errors() {
    let mut missing = archive_of(&[]);
    assert!(matches!(missing.get_renditions(), Err(EpubError::MissingContainer)));
    let mut empty = epub_zip_with_container("<container><rootfiles/></container>");
    match empty.get_renditions() {
        Err(EpubError::InvalidFormat(m)) => assert_eq!(m, "No rootfile full-path found in container.xml"),
        other => panic!("unexpected {other:?}"),
    }
}

#[test]
fn test_parse_by_index_out_of_bounds() {
    let container = r#"<?xml version="1.0"?>
        <container version="1.0" xmlns="urn:oasis:names:tc:opendocument:xmlns:container">
            <rootfiles>
                <rootfile full-path="OEBPS/content.opf" media-type="application/oebps-package+xml"/>
            </rootfiles>
        </container>"#;
    let mut archive = archive_of(&[("META-INF/container.xml", container.as_bytes())]);
    let err = archive.parse_by_index(5).unwrap_err();
    match err {
        EpubError::InvalidFormat(msg) => assert!(msg.contains("out of range")),
        other => panic!("Expected InvalidFormat, got {other:?}"),
    }
}

// ── Accessibility ───────────────────────────────────────────────────────────

#[test]
fn test_a11y_conforms_to_epub_a11y_11() {
    let book = parse(epub_with_metadata(
        r#"<meta property="dcterms:conformsTo">EPUB Accessibility 1.1 - WCAG 2.2 Level AA</meta>"#,
    ));
    let a11y = book.metadata.accessibility.expect("should have a11y");
    assert_eq!(a11y.conforms_to.len(), 1);
    assert_eq!(a11y.conforms_to[0].0, "EPUB Accessibility 1.1 - WCAG 2.2 Level AA");
}

#[test]
fn test_a11y_conforms_to_epub_a11y_10_url() {
    let book = parse(epub_with_metadata(
        r#"<meta property="dcterms:conformsTo">https://www.idpf.org/epub/a11y/accessibility-20170105.html#wcag-aa</meta>"#,
    ));
    let a11y = book.metadata.accessibility.expect("should have a11y");
    assert_eq!(a11y.conforms_to[0].0, A11yProfile::A10_WCAG_20_AA);
}

#[test]
fn test_a11y_certified_by_refines() {
    let book = parse(epub_with_metadata(
        r##"<meta property="dcterms:conformsTo" id="conf">EPUB Accessibility 1.1 - WCAG 2.2 Level AA</meta>
           <meta property="a11y:certifiedBy" id="cert" refines="#conf">Acme Accessibility Lab</meta>
           <meta property="a11y:certifierCredential" refines="#cert">https://acme.example.com/badge</meta>"##,
    ));
    let a11y = book.metadata.accessibility.expect("should have a11y");
    let cert = a11y.certification.expect("should have certification");
    assert_eq!(cert.certified_by, "Acme Accessibility Lab");
    assert_eq!(cert.credential.as_deref(), Some("https://acme.example.com/badge"));
}

#[test]
fn test_a11y_access_modes_and_features() {
    let book = parse(epub_with_metadata(
        r#"<meta property="schema:accessMode">textual</meta>
           <meta property="schema:accessMode">visual</meta>
           <meta property="schema:accessModeSufficient">textual</meta>
           <meta property="schema:accessModeSufficient">textual,visual</meta>
           <meta property="schema:accessibilityFeature">alternativeText</meta>
           <meta property="schema:accessibilityHazard">noFlashingHazard</meta>
           <meta property="schema:accessibilitySummary">All images have alt text.</meta>"#,
    ));
    let a11y = book.metadata.accessibility.expect("should have a11y");
    assert_eq!(a11y.access_modes.len(), 2);
    assert!(a11y.access_modes.contains(&A11yAccessMode::Textual));
    assert!(a11y.access_modes.contains(&A11yAccessMode::Visual));
    assert_eq!(a11y.access_modes_sufficient.len(), 2);
    assert_eq!(a11y.access_modes_sufficient[1].len(), 2);
    assert!(a11y.features.contains(&A11yFeature::AlternativeText));
    assert!(a11y.hazards.contains(&A11yHazard::NoFlashingHazard));
    assert_eq!(a11y.summary.as_deref(), Some("All images have alt text."));
}

#[test]
fn test_a11y_absent_gives_none() {
    let book = parse(epub_with_metadata(r#"<dc:title>Plain Book</dc:title>"#));
    assert!(book.metadata.accessibility.is_none(), "no a11y meta → accessibility must be None");
}

#[test]
fn a11y_profiles_deduplicated_and_ranked() {
    let book = parse(epub_with_metadata(
        r#"<meta property="dcterms:conformsTo">EPUB Accessibility 1.1 - WCAG 2.2 Level AA</meta>
           <meta property="dcterms:conformsTo">http://www.idpf.org/epub/a11y/accessibility-20170105.html#wcag-a</meta>
           <meta property="dcterms:conformsTo">EPUB Accessibility 1.1 - WCAG 2.2 Level AA</meta>
           <meta property="dcterms:conformsTo">not a profile</meta>"#,
    ));
    let a11y = book.metadata.accessibility.unwrap();
    assert_eq!(a11y.conforms_to.len(), 2);
    assert_eq!(a11y.conforms_to[0].0, A11yProfile::A10_WCAG_20_A);
    assert_eq!(a11y.conforms_to[1].0, "EPUB Accessibility 1.1 - WCAG 2.2 Level AA");
}

// ── Identifiers ─────────────────────────────────────────────────────────────

#[test]
fn test_identifier_unique_by_id() {
    let book = parse(epub_with_opf(
        r#"unique-identifier="pub-id""#,
        r#"<dc:title>Test</dc:title>
           <dc:identifier>   </dc:identifier>
           <dc:identifier id="isbn">978-3-16-148410-0</dc:identifier>
           <dc:identifier id="pub-id">urn:uuid:2</dc:identifier>"#,
    ));
    assert_eq!(book.metadata.identifier.as_deref(), Some("urn:uuid:2"));
    assert_eq!(book.metadata.alt_identifiers.len(), 1);
    assert_eq!(book.metadata.alt_identifiers[0].value(), "978-3-16-148410-0");
    assert!(book.metadata.alt_identifiers[0].scheme().is_none());
}

#[test]
fn test_identifier_fallback_to_first() {
    let book = parse(epub_with_opf(
        "",
        r#"<dc:title>Test</dc:title>
           <dc:identifier>urn:uuid:first</dc:identifier>
           <dc:identifier>urn:uuid:second</dc:identifier>"#,
    ));
    assert_eq!(book.metadata.identifier.as_deref(), Some("urn:uuid:first"));
    assert_eq!(book.metadata.alt_identifiers.len(), 1);
    assert_eq!(book.metadata.alt_identifiers[0].value(), "urn:uuid:second");
}

#[test]
fn test_identifier_epub2_scheme() {
    let book = parse(epub_with_opf(
        r#"unique-identifier="book-id""#,
        r#"<dc:title>Test</dc:title>
           <dc:identifier id="book-id">urn:uuid:primary</dc:identifier>
           <dc:identifier opf:scheme="ISBN">978-0-306-40615-7</dc:identifier>"#,
    ));
    assert_eq!(book.metadata.identifier.as_deref(), Some("urn:uuid:primary"));
    assert_eq!(book.metadata.alt_identifiers.len(), 1);
    assert_eq!(book.metadata.alt_identifiers[0].value(), "978-0-306-40615-7");
    assert_eq!(book.metadata.alt_identifiers[0].scheme(), Some("ISBN"));
}

#[test]
fn test_identifier_epub3_type_refines() {
    let book = parse(epub_with_opf(
        r#"unique-identifier="pub-id""#,
        "<dc:title>Test</dc:title>\n\
           <dc:identifier id=\"pub-id\">urn:uuid:main</dc:identifier>\n\
           <dc:identifier id=\"isbn-id\">978-3-16-148410-0</dc:identifier>\n\
           <meta refines=\"#isbn-id\" property=\"identifier-type\" scheme=\"onix:codelist5\">15</meta>",
    ));
    assert_eq!(book.metadata.identifier.as_deref(), Some("urn:uuid:main"));
    assert_eq!(book.metadata.alt_identifiers.len(), 1);
    assert_eq!(book.metadata.alt_identifiers[0].scheme(), Some("onix:codelist5"));
}

#[test]
fn test_identifier_empty_filtered() {
    let book = parse(epub_with_opf(
        r#"unique-identifier="pub-id""#,
        r#"<dc:title>Test</dc:title>
           <dc:identifier>   </dc:identifier>
           <dc:identifier id="pub-id">urn:uuid:real</dc:identifier>"#,
    ));
    assert_eq!(book.metadata.identifier.as_deref(), Some("urn:uuid:real"));
    assert!(book.metadata.alt_identifiers.is_empty());
}

// ── Encryption ──────────────────────────────────────────────────────────────

fn epub_with_encryption(encryption_xml: &str) -> EpubArchive<MockProvider> {
    let opf = r#"<?xml version="1.0"?>
         <package version="3.0" xmlns="http://www.idpf.org/2007/opf"
                  unique-identifier="uid">
           <metadata xmlns:dc="http://purl.org/dc/elements/1.1/">
             <dc:title>Enc</dc:title>
             <dc:identifier id="uid">urn:uuid:enc</dc:identifier>
           </metadata>
           <manifest>
             <item id="c1" href="ch1.xhtml" media-type="application/xhtml+xml"/>
             <item id="f1" href="fonts/a.otf" media-type="font/otf"/>
           </manifest>
           <spine>
             <itemref idref="c1"/>
           </spine>
         </package>"#;
    let container = br#"<?xml version="1.0"?>
        <container version="1.0" xmlns="urn:oasis:names:tc:opendocument:xmlns:container">
          <rootfiles>
            <rootfile full-path="content.opf" media-type="application/oebps-package+xml"/>
          </rootfiles>
        </container>"#;
    archive_of(&[
        ("META-INF/container.xml", container),
        ("META-INF/encryption.xml", encryption_xml.as_bytes()),
        ("content.opf", opf.as_bytes()),
        ("ch1.xhtml", b"<html><body>Hi</body></html>"),
        ("fonts/a.otf", &[0u8; 100]),
    ])
}

fn encryption_of<'a>(book: &'a EpubBook, path: &str) -> Option<&'a epub_rs::model::EncryptionInfo> {
    book.encryptions.iter().find(|(k, _)| k == path).map(|(_, v)| v)
}

#[test]
fn test_encryption_font_and_aes_original_length() {
    let enc = r#"<?xml version="1.0"?>
<encryption xmlns="urn:oasis:names:tc:opendocument:xmlns:enc"
            xmlns:enc="http://www.w3.org/2001/04/xmlenc#"
            xmlns:comp="http://www.idpf.org/2016/encryption#compression">
  <enc:EncryptedData>
    <enc:EncryptionMethod Algorithm="http://www.idpf.org/2008/embedding"/>
    <enc:CipherData>
      <enc:CipherReference URI="fonts/a.otf"/>
    </enc:CipherData>
  </enc:EncryptedData>
  <enc:EncryptedData>
    <enc:EncryptionMethod Algorithm="http://www.w3.org/2001/04/xmlenc#aes256-cbc"/>
    <enc:CipherData>
      <enc:CipherReference URI="ch1.xhtml"/>
    </enc:CipherData>
    <enc:EncryptionProperties>
      <enc:EncryptionProperty>
        <comp:Compression Method="8" OriginalLength="42"/>
      </enc:EncryptionProperty>
    </enc:EncryptionProperties>
  </enc:EncryptedData>
</encryption>"#;
    let book = parse(epub_with_encryption(enc));
    let font = encryption_of(&book, "fonts/a.otf").expect("font entry");
    assert_eq!(font.algorithm, ObfuscationAlgorithm::Idpf);
    assert!(font.original_length.is_none());
    assert!(font.font_obfuscation().is_some());
    let chapter = encryption_of(&book, "ch1.xhtml").expect("aes entry");
    assert_eq!(chapter.algorithm, ObfuscationAlgorithm::AesCbc);
    assert_eq!(chapter.original_length, Some(42));
    assert!(chapter.font_obfuscation().is_none());
    assert!(chapter.algorithm_uri.as_deref().unwrap_or("").contains("aes256-cbc"));
}

#[test]
fn encryption_uri_is_percent_decoded() {
    let enc = r#"<encryption><EncryptedData><EncryptionMethod Algorithm="urn:x"/>
        <CipherData><CipherReference URI="my%20font.otf"/></CipherData></EncryptedData></encryption>"#;
    let book = parse(epub_with_encryption(enc));
    let e = encryption_of(&book, "my font.otf").expect("decoded entry");
    assert_eq!(e.algorithm, ObfuscationAlgorithm::Unknown);
}

// ── Manifest, spine, guide ──────────────────────────────────────────────────

#[test]
fn test_parse_epub2_guide_text_reference() {
    let opf = r#"<?xml version="1.0"?>
         <package version="2.0" xmlns="http://www.idpf.org/2007/opf" unique-identifier="uid">
           <metadata xmlns:dc="http://purl.org/dc/elements/1.1/">
             <dc:title>Guide Book</dc:title>
             <dc:identifier id="uid">urn:uuid:guide</dc:identifier>
             <dc:language>en</dc:language>
           </metadata>
           <manifest>
             <item id="cover" href="cover.xhtml" media-type="application/xhtml+xml"/>
             <item id="c1" href="text/ch1.xhtml" media-type="application/xhtml+xml"/>
             <item id="ncx" href="toc.ncx" media-type="application/x-dtbncx+xml"/>
           </manifest>
           <spine toc="ncx">
             <itemref idref="cover"/>
             <itemref idref="c1"/>
           </spine>
           <guide>
             <reference type="cover" href="cover.xhtml" title="Cover"/>
             <reference type="text" href="text/ch1.xhtml" title="Start"/>
           </guide>
         </package>"#;
    let container = br#"<?xml version="1.0"?>
        <container version="1.0" xmlns="urn:oasis:names:tc:opendocument:xmlns:container">
          <rootfiles>
            <rootfile full-path="OEBPS/content.opf" media-type="application/oebps-package+xml"/>
          </rootfiles>
        </container>"#;
    let mut archive = archive_of(&[
        ("META-INF/container.xml", container),
        ("OEBPS/content.opf", opf.as_bytes()),
        ("OEBPS/cover.xhtml", b"<html><body>Cover</body></html>"),
        ("OEBPS/text/ch1.xhtml", b"<html><body>Chapter</body></html>"),
    ]);
    let book = archive.parse().unwrap();
    assert_eq!(book.guide.len(), 2);
    assert_eq!(book.guide[0].ref_type, "cover");
    assert_eq!(book.guide[1].ref_type, "text");
    assert_eq!(book.guide[1].href, "OEBPS/text/ch1.xhtml");
    assert_eq!(book.toc_id.as_deref(), Some("ncx"));
    let start = preferred_reading_start(&book, &[]);
    assert_eq!(start.source, "guide:text");
    assert_eq!(start.spine_index, 1);
}

#[test]
fn manifest_and_spine_attributes() {
    let opf = r#"<package unique-identifier="u"><metadata><meta name="cover" content="img"/></metadata>
        <manifest>
          <item id="img" href="images/c%20v.jpg" media-type="image/jpeg" properties="cover-image  nav"/>
          <item id="c1" href="c1.xhtml" media-type="application/xhtml+xml" media-overlay="smil1"/>
          <item id="img" href="images/replaced.jpg" media-type="image/png"/>
        </manifest>
        <spine page-progression-direction="rtl">
          <itemref idref="c1" linear="no" properties="rendition:layout-pre-paginated page-spread-left"/>
          <itemref idref=""/>
        </spine></package>"#;
    let book = parse(archive_of(&[
        ("META-INF/container.xml", CONTAINER),
        ("content.opf", opf.as_bytes()),
    ]));
    assert_eq!(book.metadata.cover_id.as_deref(), Some("img"));
    assert_eq!(book.manifest.len(), 2);
    assert_eq!(book.manifest[0].href, "images/replaced.jpg");
    assert_eq!(book.manifest[0].media_type, "image/png");
    assert_eq!(book.manifest[1].media_overlay.as_deref(), Some("smil1"));
    assert_eq!(book.spine.len(), 1);
    assert!(!book.spine[0].linear);
    assert_eq!(book.spine[0].layout_override, Some(LayoutType::PrePaginated));
    assert_eq!(book.spine[0].page_spread, Some(PageSpread::Left));
    assert_eq!(book.metadata.reading_progression, ReadingProgression::Rtl);
}

#[test]
fn manifest_properties_and_decoding() {
    let opf = r#"<package><manifest>
          <item id="img" href="images/c%20v.jpg" media-type="image/jpeg" properties="cover-image  nav"/>
        </manifest></package>"#;
    let book = parse(archive_of(&[("META-INF/container.xml", CONTAINER), ("content.opf", opf.as_bytes())]));
    assert_eq!(book.manifest[0].href, "images/c v.jpg");
    assert_eq!(book.manifest[0].properties, vec!["cover-image".to_string(), "nav".to_string()]);
}

#[test]
fn malformed_package_is_refused() {
    let mut archive = archive_of(&[
        ("META-INF/container.xml", CONTAINER),
        ("content.opf", b"<package><metadata></package>"),
    ]);
    assert!(matches!(archive.parse(), Err(EpubError::Xml(_))));
}

#[test]
fn xml_events_end_with_eof() {
    let events = xml_events("<a x=\"1\"><b/>text</a>").unwrap();
    assert!(matches!(events.last(), Some(XmlEvent::Eof)));
    match &events[0] {
        XmlEvent::Start(t) => {
            assert_eq!(t.name, "a");
            assert_eq!(t.attrs, vec![("x".to_string(), "1".to_string())]);
        }
        other => panic!("unexpected {other:?}"),
    }
    assert!(xml_events("<a></b>").is_err());
}

// ── Resource cache ──────────────────────────────────────────────────────────

fn make_test_book() -> EpubBook {
    EpubBook::default()
}

#[test]
fn test_cache_hit_and_lru_order() {
    let mut archive = archive_of(&[("a.xhtml", &[1u8; 10]), ("b.xhtml", &[2u8; 20])]);
    archive.set_max_cache_size(100);
    let book = make_test_book();
    let content1 = archive.get_resource_by_href(&book, "a.xhtml").unwrap();
    assert_eq!(content1, vec![1; 10]);
    assert_eq!(archive.cache_size(), 10);
    assert_eq!(archive.cache_order(), vec!["a.xhtml".to_string()]);
    assert!(archive.is_cached("a.xhtml"));
    let content2 = archive.get_resource_by_href(&book, "b.xhtml").unwrap();
    assert_eq!(content2, vec![2; 20]);
    assert_eq!(archive.cache_size(), 30);
    assert_eq!(archive.cache_order(), vec!["a.xhtml".to_string(), "b.xhtml".to_string()]);
    let content3 = archive.get_resource_by_href(&book, "a.xhtml").unwrap();
    assert_eq!(content3, vec![1; 10]);
    assert_eq!(archive.cache_size(), 30);
    assert_eq!(archive.cache_order(), vec!["b.xhtml".to_string(), "a.xhtml".to_string()]);
}

#[test]
fn test_cache_lru_eviction() {
    let mut archive =
        archive_of(&[("a.xhtml", &[1u8; 10]), ("b.xhtml", &[2u8; 20]), ("c.xhtml", &[3u8; 30])]);
    archive.set_max_cache_size(45);
    let book = make_test_book();
    let _ = archive.get_resource_by_href(&book, "a.xhtml").unwrap();
    let _ = archive.get_resource_by_href(&book, "b.xhtml").unwrap();
    assert_eq!(archive.cache_size(), 30);
    assert_eq!(archive.cache_order(), vec!["a.xhtml".to_string(), "b.xhtml".to_string()]);
    let content = archive.get_resource_by_href(&book, "c.xhtml").unwrap();
    assert_eq!(content, vec![3; 30]);
    assert_eq!(archive.cache_size(), 30);
    assert_eq!(archive.cache_order(), vec!["c.xhtml".to_string()]);
    assert!(!archive.is_cached("a.xhtml"));
    assert!(!archive.is_cached("b.xhtml"));
    assert!(archive.is_cached("c.xhtml"));
}

#[test]
fn test_cache_bypass_large_file() {
    let large_size = 2 * 1024 * 1024 + 100 * 1024;
    let large = vec![9u8; large_size];
    let mut archive = archive_of(&[("large.xhtml", &large), ("small.xhtml", &[1u8; 10])]);
    archive.set_max_cache_size(5 * 1024 * 1024);
    let book = make_test_book();
    let content1 = archive.get_resource_by_href(&book, "large.xhtml").unwrap();
    assert_eq!(content1.len(), large_size);
    assert_eq!(archive.cache_size(), 0);
    assert!(archive.cache_order().is_empty());
    let content2 = archive.get_resource_by_href(&book, "small.xhtml").unwrap();
    assert_eq!(content2, vec![1; 10]);
    assert_eq!(archive.cache_size(), 10);
    assert_eq!(archive.cache_order(), vec!["small.xhtml".to_string()]);
    assert!(archive.is_cached("small.xhtml"));
}

#[test]
fn test_get_resource_by_id_missing_item() {
    let mut archive = archive_of(&[]);
    let book = make_test_book();
    match archive.get_resource_by_id(&book, "nope") {
        Err(EpubError::InvalidFormat(m)) => assert_eq!(m, "ID nope not found in manifest"),
        other => panic!("unexpected {other:?}"),
    }
}

#[test]
fn cover_image_selection() {
    let opf = r#"<package><manifest>
          <item id="a" href="img/a.png" media-type="image/png"/>
          <item id="pic" href="img/Cover.JPG" media-type="image/jpeg"/>
          <item id="c1" href="c1.xhtml" media-type="application/xhtml+xml"/>
        </manifest></package>"#;
    let mut archive = archive_of(&[
        ("META-INF/container.xml", CONTAINER),
        ("content.opf", opf.as_bytes()),
        ("img/Cover.JPG", b"jpeg"),
        ("img/a.png", b"png"),
    ]);
    let book = archive.parse().unwrap();
    let (bytes, mt) = archive.get_cover_image(&book).unwrap();
    assert_eq!(bytes, b"jpeg");
    assert_eq!(mt, "image/jpeg");
    let none = EpubBook::default();
    assert!(archive.get_cover_image(&none).is_err());
}
