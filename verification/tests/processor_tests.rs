use epub_rs::processor::{extract_positions, extract_semantic_content, inject_cfi_dom, search_chapter, PositionContext};
use epub_rs::processor::search::TextPattern;

#[test]
fn test_inject_cfi_dom() {
    let html = r#"<!DOCTYPE html>
<html>
<head>
    <title>Test</title>
</head>
<body>
    <div id="wrapper">
        <p>Paragraph 1</p>
        <p id="p2">Paragraph 2</p>
    </div>
</body>
</html>"#;

    let injected = inject_cfi_dom(html, "/6/4!").expect("Failed to inject CFIs");

    assert!(injected.contains(r#"data-cfi="epubcfi(/6/4!/2)""#));
    assert!(injected.contains(r#"data-cfi="epubcfi(/6/4!/4)""#));
    assert!(injected.contains(r#"data-cfi="epubcfi(/6/4!/4/2[wrapper])""#));
    assert!(injected.contains(r#"data-cfi="epubcfi(/6/4!/4/2[wrapper]/2)""#));
    assert!(injected.contains(r#"data-cfi="epubcfi(/6/4!/4/2[wrapper]/4[p2])""#));
}

#[test]
fn test_search_chapter() {
    let html = r#"<!DOCTYPE html>
<html>
<body>
    <div id="content">
        <p>This is a story about a brave <b>knight</b> who fought a dragon.</p>
        <p>The knight was very brave.</p>
    </div>
</body>
</html>"#;

    let pattern = TextPattern::new(r"brave", false).unwrap();
    let results = search_chapter(html, "/6/4!", &pattern).expect("Search failed");

    assert_eq!(results.len(), 2);
    assert_eq!(results[0].excerpt, " is a story about a brave ");
    assert_eq!(results[0].cfi, "epubcfi(/6/4!/4/2[content]/2,/1:24,/1:29)");
    assert_eq!(results[1].excerpt, "The knight was very brave.");
    assert_eq!(results[1].cfi, "epubcfi(/6/4!/4/2[content]/4,/1:20,/1:25)");
}

#[test]
fn test_extract_positions() {
    let html = r#"<html><body><div id="content"><p>12345</p><p>67890</p><p>abcde</p></div></body></html>"#;

    let mut positions = Vec::new();
    let mut char_counter = 0;
    let mut global_pos = 0;

    let ctx = PositionContext {
        base_cfi: "/6/4!",
        chars_per_position: 4,
        spine_index: 0,
        href: "test.xhtml",
    };

    extract_positions(html, &ctx, &mut char_counter, &mut positions, &mut global_pos);

    assert_eq!(positions.len(), 3);
    assert_eq!(positions[0].cfi, "epubcfi(/6/4!/4/2[content]/2/1:4)");
    assert_eq!(positions[0].global_position, 1);
    assert_eq!(positions[1].cfi, "epubcfi(/6/4!/4/2[content]/4/1:3)");
    assert_eq!(positions[1].global_position, 2);
    assert_eq!(positions[2].cfi, "epubcfi(/6/4!/4/2[content]/6/1:2)");
    assert_eq!(positions[2].global_position, 3);
    assert_eq!(char_counter, 3);
}

#[test]
fn extract_positions_character_boundary_splitting() {
    let html = r#"<html><body><div id="content"><p>12345</p><p>67890</p><p>abcde</p></div></body></html>"#;

    let mut positions = Vec::new();
    let mut char_counter = 0;
    let mut global_pos = 0;

    let ctx = PositionContext {
        base_cfi: "/6/4!",
        chars_per_position: 4,
        spine_index: 0,
        href: "test.xhtml",
    };

    extract_positions(html, &ctx, &mut char_counter, &mut positions, &mut global_pos);

    assert_eq!(positions.len(), 3);
    assert_eq!(positions[0].cfi, "epubcfi(/6/4!/4/2[content]/2/1:4)");
    assert_eq!(positions[0].global_position, 1);
    assert_eq!(positions[1].cfi, "epubcfi(/6/4!/4/2[content]/4/1:3)");
    assert_eq!(positions[1].global_position, 2);
    assert_eq!(positions[2].cfi, "epubcfi(/6/4!/4/2[content]/6/1:2)");
    assert_eq!(positions[2].global_position, 3);
    assert_eq!(char_counter, 3);
}

#[test]
fn test_extract_semantic_content() {
    let html = r#"<!DOCTYPE html>
<html lang="en">
<body>
    <div id="content">
        <h1>Chapter Title</h1>
        <p lang="fr">Bonjour!</p>
        <blockquote>Quote text</blockquote>
    </div>
</body>
</html>"#;

    let elements = extract_semantic_content(html, "/6/4[chap1]!");

    assert_eq!(elements.len(), 3);
    assert_eq!(elements[0].tag_name, "h1");
    assert_eq!(elements[0].text, "Chapter Title");
    assert_eq!(elements[0].language.as_deref(), Some("en"));
    assert_eq!(elements[0].cfi_range, "epubcfi(/6/4[chap1]!/4/2[content]/2)");
    assert_eq!(elements[1].tag_name, "p");
    assert_eq!(elements[1].text, "Bonjour!");
    assert_eq!(elements[1].language.as_deref(), Some("fr"));
    assert_eq!(elements[1].cfi_range, "epubcfi(/6/4[chap1]!/4/2[content]/4)");
    assert_eq!(elements[2].tag_name, "blockquote");
    assert_eq!(elements[2].text, "Quote text");
    assert_eq!(elements[2].language.as_deref(), Some("en"));
    assert_eq!(elements[2].cfi_range, "epubcfi(/6/4[chap1]!/4/2[content]/6)");
}

#[test]
fn positions_carry_over_between_chapters_and_keep_numbering() {
    let ctx = PositionContext { base_cfi: "/6/2[c1]!", chars_per_position: 3, spine_index: 0, href: "c1.xhtml" };
    let mut positions = Vec::new();
    let mut counter = 0;
    let mut global = 0;
    let done = extract_positions("<html><body><p>abcd</p></body></html>", &ctx, &mut counter, &mut positions, &mut global);
    assert!(done);
    assert_eq!(positions.len(), 1);
    assert_eq!(positions[0].cfi, "epubcfi(/6/2[c1]!/4/2/1:3)");
    assert_eq!(counter, 1);
    let ctx2 = PositionContext { base_cfi: "/6/4[c2]!", chars_per_position: 3, spine_index: 1, href: "c2.xhtml" };
    extract_positions("<html><body><p>xy</p></body></html>", &ctx2, &mut counter, &mut positions, &mut global);
    assert_eq!(positions.len(), 2);
    assert_eq!(positions[1].cfi, "epubcfi(/6/4[c2]!/4/2/1:2)");
    assert_eq!(positions[1].global_position, 2);
    assert_eq!(positions[1].spine_index, 1);
    assert_eq!(positions[1].href, "c2.xhtml");
    assert_eq!(counter, 0);
}

#[test]
fn search_excerpt_respects_character_boundaries() {
    let html = "<html><body><p>ééééééééééééééé needle ééééééééééééééé</p></body></html>";
    let pattern = TextPattern::new("needle", false).unwrap();
    let results = search_chapter(html, "/6/2!", &pattern).unwrap();
    assert_eq!(results.len(), 1);
    assert_eq!(results[0].cfi, "epubcfi(/6/2!/4/2,/1:31,/1:37)");
    assert_eq!(results[0].excerpt, "éééééééééé needle éééééééééé");
}

#[test]
fn semantic_content_skips_blank_blocks_and_walks_into_sections() {
    let html = "<html xml:lang=\"de\"><body><section><p>  </p><p>Hallo</p></section></body></html>";
    let elements = extract_semantic_content(html, "/6/2!");
    assert_eq!(elements.len(), 1);
    assert_eq!(elements[0].text, "Hallo");
    assert_eq!(elements[0].language.as_deref(), Some("de"));
    assert_eq!(elements[0].cfi_range, "epubcfi(/6/2!/4/2/4)");
}
