use epub_rs::model::{NavigationDocument, TocEntry};
use epub_rs::parser::navigation::{parse_ncx_all, parse_nav_xhtml_all};

#[test]
fn parser_test_parse_ncx_toc() {
    let xml = r##"
        <?xml version="1.0" encoding="UTF-8"?>
        <ncx xmlns="http://www.daisy.org/z3986/2005/ncx/" version="2005-1">
          <navMap>
            <navPoint id="navPoint-1" playOrder="1">
              <navLabel><text>Chapter 1</text></navLabel>
              <content src="ch1.xhtml"/>
              <navPoint id="navPoint-2" playOrder="2">
                <navLabel><text>Chapter 1.1</text></navLabel>
                <content src="ch1_1.xhtml"/>
              </navPoint>
            </navPoint>
            <navPoint id="navPoint-3" playOrder="3">
              <navLabel><text>Chapter 2</text></navLabel>
              <content src="ch2.xhtml"/>
            </navPoint>
          </navMap>
        </ncx>
        "##;
    let nav = parse_ncx_all(xml).unwrap();
    assert_eq!(nav.toc.len(), 2);
    assert!(nav.page_list.is_empty());
    assert!(nav.landmarks.is_empty());
    assert_eq!(nav.toc[0].title, "Chapter 1");
    assert_eq!(nav.toc[0].href, "ch1.xhtml");
    assert_eq!(nav.toc[0].children.len(), 1);
    assert_eq!(nav.toc[0].children[0].title, "Chapter 1.1");
    assert_eq!(nav.toc[0].children[0].href, "ch1_1.xhtml");
    assert_eq!(nav.toc[1].title, "Chapter 2");
    assert_eq!(nav.toc[1].href, "ch2.xhtml");
}

#[test]
fn parser_test_parse_ncx_page_list() {
    let xml = r##"
        <?xml version="1.0" encoding="UTF-8"?>
        <ncx xmlns="http://www.daisy.org/z3986/2005/ncx/" version="2005-1">
          <navMap>
            <navPoint id="np1" playOrder="1">
              <navLabel><text>Chapter 1</text></navLabel>
              <content src="ch1.xhtml"/>
            </navPoint>
          </navMap>
          <pageList>
            <pageTarget type="normal" playOrder="1">
              <navLabel><text>1</text></navLabel>
              <content src="ch1.xhtml#p1"/>
            </pageTarget>
            <pageTarget type="normal" playOrder="2">
              <navLabel><text>42</text></navLabel>
              <content src="ch3.xhtml#p42"/>
            </pageTarget>
            <pageTarget type="front" playOrder="3">
              <navLabel><text>xii</text></navLabel>
              <content src="front.xhtml#pxii"/>
            </pageTarget>
          </pageList>
        </ncx>
        "##;
    let nav = parse_ncx_all(xml).unwrap();
    assert_eq!(nav.toc.len(), 1);
    assert_eq!(nav.toc[0].title, "Chapter 1");
    assert_eq!(nav.page_list.len(), 3);
    assert_eq!(nav.page_list[0].title, "1");
    assert_eq!(nav.page_list[0].href, "ch1.xhtml#p1");
    assert!(nav.page_list[0].children.is_empty());
    assert_eq!(nav.page_list[1].title, "42");
    assert_eq!(nav.page_list[1].href, "ch3.xhtml#p42");
    assert_eq!(nav.page_list[2].title, "xii");
    assert_eq!(nav.page_list[2].href, "front.xhtml#pxii");
}

#[test]
fn parser_test_parse_ncx_page_list_requires_both_title_and_href() {
    let xml = r##"
        <?xml version="1.0" encoding="UTF-8"?>
        <ncx xmlns="http://www.daisy.org/z3986/2005/ncx/" version="2005-1">
          <navMap/>
          <pageList>
            <pageTarget type="normal">
              <navLabel><text>1</text></navLabel>
              <!-- no content src -->
            </pageTarget>
            <pageTarget type="normal">
              <!-- no navLabel -->
              <content src="ch1.xhtml#p2"/>
            </pageTarget>
            <pageTarget type="normal">
              <navLabel><text>3</text></navLabel>
              <content src="ch1.xhtml#p3"/>
            </pageTarget>
          </pageList>
        </ncx>
        "##;
    let nav = parse_ncx_all(xml).unwrap();
    assert_eq!(nav.page_list.len(), 1);
    assert_eq!(nav.page_list[0].title, "3");
}

#[test]
fn parser_test_parse_nav_xhtml_toc_only() {
    let html = r##"<!DOCTYPE html>
        <html xmlns="http://www.w3.org/1999/xhtml" xmlns:epub="http://www.idpf.org/2007/ops">
        <body>
          <nav epub:type="toc">
            <ol>
              <li><a href="ch1.xhtml">Chapter 1</a></li>
              <li><a href="ch2.xhtml">Chapter 2</a>
                <ol><li><a href="ch2s1.xhtml">Section 2.1</a></li></ol>
              </li>
            </ol>
          </nav>
        </body>
        </html>"##;
    let nav = parse_nav_xhtml_all(html, "").unwrap();
    assert_eq!(nav.toc.len(), 2);
    assert!(nav.page_list.is_empty());
    assert!(nav.landmarks.is_empty());
    assert_eq!(nav.toc[0].title, "Chapter 1");
    assert_eq!(nav.toc[0].href, "ch1.xhtml");
    assert_eq!(nav.toc[0].children.len(), 0);
    assert_eq!(nav.toc[1].title, "Chapter 2");
    assert_eq!(nav.toc[1].children.len(), 1);
    assert_eq!(nav.toc[1].children[0].title, "Section 2.1");
}

#[test]
fn parser_test_parse_nav_xhtml_toc_and_page_list() {
    let html = r##"<!DOCTYPE html>
        <html xmlns="http://www.w3.org/1999/xhtml" xmlns:epub="http://www.idpf.org/2007/ops">
        <body>
          <nav epub:type="toc">
            <ol>
              <li><a href="ch1.xhtml">Chapter 1</a></li>
            </ol>
          </nav>
          <nav epub:type="page-list">
            <ol>
              <li><a href="ch1.xhtml#p1">1</a></li>
              <li><a href="ch1.xhtml#p2">2</a></li>
              <li><a href="ch2.xhtml#p42">42</a></li>
            </ol>
          </nav>
        </body>
        </html>"##;
    let nav = parse_nav_xhtml_all(html, "").unwrap();
    assert_eq!(nav.toc.len(), 1);
    assert_eq!(nav.toc[0].title, "Chapter 1");
    assert_eq!(nav.page_list.len(), 3);
    assert_eq!(nav.page_list[0].title, "1");
    assert_eq!(nav.page_list[0].href, "ch1.xhtml#p1");
    assert!(nav.page_list[0].children.is_empty());
    assert_eq!(nav.page_list[2].title, "42");
    assert_eq!(nav.page_list[2].href, "ch2.xhtml#p42");
}

#[test]
fn parser_test_parse_nav_xhtml_landmarks() {
    let html = r##"<!DOCTYPE html>
        <html xmlns="http://www.w3.org/1999/xhtml" xmlns:epub="http://www.idpf.org/2007/ops">
        <body>
          <nav epub:type="toc"><ol><li><a href="ch1.xhtml">Ch1</a></li></ol></nav>
          <nav epub:type="landmarks">
            <ol>
              <li><a href="cover.xhtml" epub:type="cover">Cover</a></li>
              <li><a href="toc.xhtml" epub:type="toc">Table of Contents</a></li>
              <li><a href="ch1.xhtml" epub:type="bodymatter">Begin Reading</a></li>
            </ol>
          </nav>
        </body>
        </html>"##;
    let nav = parse_nav_xhtml_all(html, "").unwrap();
    assert_eq!(nav.toc.len(), 1);
    assert!(nav.page_list.is_empty());
    assert_eq!(nav.landmarks.len(), 3);
    assert_eq!(nav.landmarks[0].title, "Cover");
    assert_eq!(nav.landmarks[0].href, "cover.xhtml");
    assert_eq!(nav.landmarks[2].title, "Begin Reading");

}

#[test]
fn parser_test_parse_nav_xhtml_all_three_types() {
    let html = r##"<!DOCTYPE html>
        <html xmlns="http://www.w3.org/1999/xhtml" xmlns:epub="http://www.idpf.org/2007/ops">
        <body>
          <nav epub:type="toc">
            <ol><li><a href="ch1.xhtml">Chapter 1</a></li></ol>
          </nav>
          <nav epub:type="page-list">
            <ol><li><a href="ch1.xhtml#p1">1</a></li></ol>
          </nav>
          <nav epub:type="landmarks">
            <ol><li><a href="ch1.xhtml">Begin Reading</a></li></ol>
          </nav>
        </body>
        </html>"##;
    let nav = parse_nav_xhtml_all(html, "").unwrap();
    assert_eq!(nav.toc.len(), 1);
    assert_eq!(nav.page_list.len(), 1);
    assert_eq!(nav.landmarks.len(), 1);
    assert!(!nav.is_empty());
}

#[test]
fn parser_test_parse_nav_xhtml_fallback_no_epub_type() {
    let html = r##"<!DOCTYPE html>
        <html>
        <body>
          <nav>
            <ol>
              <li><a href="ch1.xhtml">Chapter 1</a></li>
            </ol>
          </nav>
        </body>
        </html>"##;
    let nav = parse_nav_xhtml_all(html, "").unwrap();
    assert_eq!(nav.toc.len(), 1);
    assert_eq!(nav.toc[0].title, "Chapter 1");
    assert!(nav.page_list.is_empty());
}

#[test]
fn parser_test_navigation_document_is_empty() {
    let empty = NavigationDocument::default();
    assert!(empty.is_empty());
    let mut nav = NavigationDocument::default();
    nav.toc.push(TocEntry::new("Ch1", "ch1.xhtml"));
    assert!(!nav.is_empty());
}

#[test]
fn navigation_test_parse_ncx_toc() {
    let xml = r##"
        <?xml version="1.0" encoding="UTF-8"?>
        <ncx xmlns="http://www.daisy.org/z3986/2005/ncx/" version="2005-1">
          <navMap>
            <navPoint id="navPoint-1" playOrder="1">
              <navLabel><text>Chapter 1</text></navLabel>
              <content src="ch1.xhtml"/>
              <navPoint id="navPoint-2" playOrder="2">
                <navLabel><text>Chapter 1.1</text></navLabel>
                <content src="ch1_1.xhtml"/>
              </navPoint>
            </navPoint>
            <navPoint id="navPoint-3" playOrder="3">
              <navLabel><text>Chapter 2</text></navLabel>
              <content src="ch2.xhtml"/>
            </navPoint>
          </navMap>
        </ncx>
        "##;
    let nav = parse_ncx_all(xml).unwrap();
    assert_eq!(nav.toc.len(), 2);
    assert!(nav.page_list.is_empty());
    assert!(nav.landmarks.is_empty());
    assert_eq!(nav.toc[0].title, "Chapter 1");
    assert_eq!(nav.toc[0].href, "ch1.xhtml");
    assert_eq!(nav.toc[0].children.len(), 1);
    assert_eq!(nav.toc[0].children[0].title, "Chapter 1.1");
    assert_eq!(nav.toc[0].children[0].href, "ch1_1.xhtml");
    assert_eq!(nav.toc[1].title, "Chapter 2");
    assert_eq!(nav.toc[1].href, "ch2.xhtml");
}

#[test]
fn navigation_test_parse_ncx_page_list() {
    let xml = r##"
        <?xml version="1.0" encoding="UTF-8"?>
        <ncx xmlns="http://www.daisy.org/z3986/2005/ncx/" version="2005-1">
          <navMap>
            <navPoint id="np1" playOrder="1">
              <navLabel><text>Chapter 1</text></navLabel>
              <content src="ch1.xhtml"/>
            </navPoint>
          </navMap>
          <pageList>
            <pageTarget type="normal" playOrder="1">
              <navLabel><text>1</text></navLabel>
              <content src="ch1.xhtml#p1"/>
            </pageTarget>
            <pageTarget type="normal" playOrder="2">
              <navLabel><text>42</text></navLabel>
              <content src="ch3.xhtml#p42"/>
            </pageTarget>
            <pageTarget type="front" playOrder="3">
              <navLabel><text>xii</text></navLabel>
              <content src="front.xhtml#pxii"/>
            </pageTarget>
          </pageList>
        </ncx>
        "##;
    let nav = parse_ncx_all(xml).unwrap();
    assert_eq!(nav.toc.len(), 1);
    assert_eq!(nav.toc[0].title, "Chapter 1");
    assert_eq!(nav.page_list.len(), 3);
    assert_eq!(nav.page_list[0].title, "1");
    assert_eq!(nav.page_list[0].href, "ch1.xhtml#p1");
    assert!(nav.page_list[0].children.is_empty());
    assert_eq!(nav.page_list[1].title, "42");
    assert_eq!(nav.page_list[1].href, "ch3.xhtml#p42");
    assert_eq!(nav.page_list[2].title, "xii");
    assert_eq!(nav.page_list[2].href, "front.xhtml#pxii");
}

#[test]
fn navigation_test_parse_ncx_page_list_requires_both_title_and_href() {
    let xml = r##"
        <?xml version="1.0" encoding="UTF-8"?>
        <ncx xmlns="http://www.daisy.org/z3986/2005/ncx/" version="2005-1">
          <navMap/>
          <pageList>
            <pageTarget type="normal">
              <navLabel><text>1</text></navLabel>
              <!-- no content src -->
            </pageTarget>
            <pageTarget type="normal">
              <!-- no navLabel -->
              <content src="ch1.xhtml#p2"/>
            </pageTarget>
            <pageTarget type="normal">
              <navLabel><text>3</text></navLabel>
              <content src="ch1.xhtml#p3"/>
            </pageTarget>
          </pageList>
        </ncx>
        "##;
    let nav = parse_ncx_all(xml).unwrap();
    assert_eq!(nav.page_list.len(), 1);
    assert_eq!(nav.page_list[0].title, "3");
}

#[test]
fn navigation_test_parse_nav_xhtml_toc_only() {
    let html = r##"<!DOCTYPE html>
        <html xmlns="http://www.w3.org/1999/xhtml" xmlns:epub="http://www.idpf.org/2007/ops">
        <body>
          <nav epub:type="toc">
            <ol>
              <li><a href="ch1.xhtml">Chapter 1</a></li>
              <li><a href="ch2.xhtml">Chapter 2</a>
                <ol><li><a href="ch2s1.xhtml">Section 2.1</a></li></ol>
              </li>
            </ol>
          </nav>
        </body>
        </html>"##;
    let nav = parse_nav_xhtml_all(html, "").unwrap();
    assert_eq!(nav.toc.len(), 2);
    assert!(nav.page_list.is_empty());
    assert!(nav.landmarks.is_empty());
    assert_eq!(nav.toc[0].title, "Chapter 1");
    assert_eq!(nav.toc[0].href, "ch1.xhtml");
    assert_eq!(nav.toc[1].title, "Chapter 2");
    assert_eq!(nav.toc[1].children.len(), 1);
    assert_eq!(nav.toc[1].children[0].title, "Section 2.1");
}

#[test]
fn navigation_test_parse_nav_xhtml_toc_and_page_list() {
    let html = r##"<!DOCTYPE html>
        <html xmlns="http://www.w3.org/1999/xhtml" xmlns:epub="http://www.idpf.org/2007/ops">
        <body>
          <nav epub:type="toc">
            <ol>
              <li><a href="ch1.xhtml">Chapter 1</a></li>
            </ol>
          </nav>
          <nav epub:type="page-list">
            <ol>
              <li><a href="ch1.xhtml#p1">1</a></li>
              <li><a href="ch1.xhtml#p2">2</a></li>
              <li><a href="ch2.xhtml#p42">42</a></li>
            </ol>
          </nav>
        </body>
        </html>"##;
    let nav = parse_nav_xhtml_all(html, "").unwrap();
    assert_eq!(nav.toc.len(), 1);
    assert_eq!(nav.toc[0].title, "Chapter 1");
    assert_eq!(nav.page_list.len(), 3);
    assert_eq!(nav.page_list[0].title, "1");
    assert_eq!(nav.page_list[0].href, "ch1.xhtml#p1");
    assert!(nav.page_list[0].children.is_empty());
    assert_eq!(nav.page_list[2].title, "42");
    assert_eq!(nav.page_list[2].href, "ch2.xhtml#p42");
}

#[test]
fn navigation_test_parse_nav_xhtml_landmarks() {
    let html = r##"<!DOCTYPE html>
        <html xmlns="http://www.w3.org/1999/xhtml" xmlns:epub="http://www.idpf.org/2007/ops">
        <body>
          <nav epub:type="toc"><ol><li><a href="ch1.xhtml">Ch1</a></li></ol></nav>
          <nav epub:type="landmarks">
            <ol>
              <li><a href="cover.xhtml" epub:type="cover">Cover</a></li>
              <li><a href="toc.xhtml" epub:type="toc">Table of Contents</a></li>
              <li><a href="ch1.xhtml" epub:type="bodymatter">Begin Reading</a></li>
            </ol>
          </nav>
        </body>
        </html>"##;
    let nav = parse_nav_xhtml_all(html, "").unwrap();
    assert_eq!(nav.toc.len(), 1);
    assert!(nav.page_list.is_empty());
    assert_eq!(nav.landmarks.len(), 3);
    assert_eq!(nav.landmarks[0].title, "Cover");
    assert_eq!(nav.landmarks[0].href, "cover.xhtml");
    assert_eq!(nav.landmarks[0].role.as_deref(), Some("cover"));
    assert_eq!(nav.landmarks[2].title, "Begin Reading");
    assert_eq!(nav.landmarks[2].role.as_deref(), Some("bodymatter"));

}

#[test]
fn navigation_test_parse_nav_xhtml_all_three_types() {
    let html = r##"<!DOCTYPE html>
        <html xmlns="http://www.w3.org/1999/xhtml" xmlns:epub="http://www.idpf.org/2007/ops">
        <body>
          <nav epub:type="toc">
            <ol><li><a href="ch1.xhtml">Chapter 1</a></li></ol>
          </nav>
          <nav epub:type="page-list">
            <ol><li><a href="ch1.xhtml#p1">1</a></li></ol>
          </nav>
          <nav epub:type="landmarks">
            <ol><li><a href="ch1.xhtml">Begin Reading</a></li></ol>
          </nav>
        </body>
        </html>"##;
    let nav = parse_nav_xhtml_all(html, "").unwrap();
    assert_eq!(nav.toc.len(), 1);
    assert_eq!(nav.page_list.len(), 1);
    assert_eq!(nav.landmarks.len(), 1);
    assert!(!nav.is_empty());
}

#[test]
fn navigation_test_parse_nav_xhtml_fallback_no_epub_type() {
    let html = r##"<!DOCTYPE html>
        <html>
        <body>
          <nav>
            <ol><li><a href="ch1.xhtml">Chapter 1</a></li></ol>
          </nav>
        </body>
        </html>"##;
    let nav = parse_nav_xhtml_all(html, "").unwrap();
    assert_eq!(nav.toc.len(), 1);
    assert_eq!(nav.toc[0].title, "Chapter 1");
    assert!(nav.page_list.is_empty());
}

#[test]
fn navigation_test_navigation_document_is_empty() {
    let empty = NavigationDocument::default();
    assert!(empty.is_empty());
    let mut nav = NavigationDocument::default();
    nav.toc.push(TocEntry::new("Ch1", "ch1.xhtml"));
    assert!(!nav.is_empty());
}

#[test]
fn test_nav_xhtml_href_resolved_from_subdir() {
    let html = r##"<!DOCTYPE html>
        <html xmlns="http://www.w3.org/1999/xhtml" xmlns:epub="http://www.idpf.org/2007/ops">
        <body>
          <nav epub:type="toc">
            <ol>
              <li><a href="../text/ch1.xhtml">Chapter 1</a></li>
              <li><a href="../text/ch2.xhtml#section-2">Chapter 2 §2</a></li>
            </ol>
          </nav>
        </body>
        </html>"##;
    let nav = parse_nav_xhtml_all(html, "OEBPS/nav").unwrap();
    assert_eq!(nav.toc.len(), 2);
    assert_eq!(nav.toc[0].href, "OEBPS/text/ch1.xhtml");
    assert_eq!(nav.toc[1].href, "OEBPS/text/ch2.xhtml#section-2");
}

#[test]
fn test_nav_xhtml_href_root_nav_unchanged() {
    let html = r##"<!DOCTYPE html>
        <html xmlns="http://www.w3.org/1999/xhtml" xmlns:epub="http://www.idpf.org/2007/ops">
        <body>
          <nav epub:type="toc">
            <ol><li><a href="text/ch1.xhtml">Ch1</a></li></ol>
          </nav>
        </body>
        </html>"##;
    let nav = parse_nav_xhtml_all(html, "").unwrap();
    assert_eq!(nav.toc[0].href, "text/ch1.xhtml", "root-level nav: href must not be modified");
}

#[test]
fn test_nav_xhtml_fragment_only_href_unchanged() {
    let html = r##"<!DOCTYPE html>
        <html xmlns="http://www.w3.org/1999/xhtml" xmlns:epub="http://www.idpf.org/2007/ops">
        <body>
          <nav epub:type="toc">
            <ol><li><a href="#intro">Intro</a></li></ol>
          </nav>
        </body>
        </html>"##;
    let nav = parse_nav_xhtml_all(html, "OEBPS/nav").unwrap();
    assert_eq!(nav.toc[0].href, "#intro", "fragment-only href must pass through unchanged");
}
