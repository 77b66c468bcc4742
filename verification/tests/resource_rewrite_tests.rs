use epub_rs::error::EpubError;
use epub_rs::processor::html::{finish_resource_rewrite, process_plain, rewrite_resources, UrlRewritingProcessor};

#[test]
fn test_rewrite_resources_resolves_from_parent_directory() {
    let html = r#"<html><body><img src="../Images/cover.jpg" /></body></html>"#;
    let base_file_path = "OEBPS/Text/ch1.xhtml";
    let rewritten = rewrite_resources(html, base_file_path, |abs_path| {
        assert_eq!(abs_path, "OEBPS/Images/cover.jpg");
        Some("blob:12345".to_string())
    })
    .unwrap();
    assert!(rewritten.contains(r#"src="blob:12345""#));
}

#[test]
fn test_rewrite_resources_inline_style_block() {
    let html = r#"<html><head>
<style>
@font-face { font-family: "X"; src: url("../fonts/x.woff2"); }
</style>
</head><body></body></html>"#;
    let result = rewrite_resources(html, "OEBPS/Text/ch1.xhtml", |path| Some(format!("blob:{path}"))).unwrap();
    assert!(
        result.contains("blob:OEBPS/fonts/x.woff2"),
        "expected blob URL in style block, got:\n{result}"
    );
}

#[test]
fn test_rewrite_resources_style_attribute() {
    let html = r#"<html><body><div style="background: url('../images/bg.png')"></div></body></html>"#;
    let result = rewrite_resources(html, "OEBPS/Text/ch1.xhtml", |path| Some(format!("blob:{path}"))).unwrap();
    assert!(
        result.contains("blob:OEBPS/images/bg.png"),
        "expected blob URL in style attribute, got:\n{result}"
    );
}

#[test]
fn test_rewrite_picture_element_sources() {
    let html = r#"<html><body>
<picture>
  <source srcset="../img/photo.webp" type="image/webp">
  <source srcset="../img/photo.avif 1x, ../img/photo@2x.avif 2x" type="image/avif">
  <img src="../img/fallback.jpg" alt="photo">
</picture>
</body></html>"#;
    let mut resolved = Vec::new();
    let result = rewrite_resources(html, "OEBPS/Text/ch1.xhtml", move |path| {
        resolved.push(path.to_string());
        Some(format!("blob:{path}"))
    })
    .unwrap();
    assert!(result.contains(r#"src="blob:OEBPS/img/fallback.jpg""#), "img src: {result}");
    assert!(result.contains("blob:OEBPS/img/photo.webp"), "webp: {result}");
    assert!(result.contains("blob:OEBPS/img/photo.avif 1x"), "avif 1x: {result}");
    assert!(result.contains("blob:OEBPS/img/photo@2x.avif 2x"), "avif 2x: {result}");
}

#[test]
fn test_rewrite_svg_use_cross_file_href() {
    let html = r#"<html><body><svg><use href="../images/sprite.svg#arrow"/></svg></body></html>"#;
    let result = rewrite_resources(html, "OEBPS/Text/ch1.xhtml", |path| {
        assert_eq!(path, "OEBPS/images/sprite.svg", "resolver must not receive fragment");
        Some("blob:sprite".to_string())
    })
    .unwrap();
    assert!(
        result.contains(r#"href="blob:sprite#arrow""#),
        "fragment must be appended to rewritten URL: {result}"
    );
}

#[test]
fn test_rewrite_svg_use_local_ref_unchanged() {
    let html = "<html><body><svg><use href=\"#local-icon\"/></svg></body></html>";
    let result = rewrite_resources(html, "OEBPS/Text/ch1.xhtml", |_| {
        panic!("resolver must not be called for pure local SVG references");
    })
    .unwrap();
    assert!(result.contains("href=\"#local-icon\""), "local ref must be unchanged: {result}");
}

#[test]
fn declining_resolver_leaves_the_document_as_it_was() {
    let html = r#"<html><head><style>p { background: url("a.png"); }</style></head><body><img src="x.png" alt="x"><a href="b.xhtml#c">b</a></body></html>"#;
    let result = rewrite_resources(html, "OEBPS/Text/ch1.xhtml", |_| None).unwrap();
    assert_eq!(result, html);
}

#[test]
fn element_pass_error_becomes_html_parse_error() {
    let mut resolver = |_: &str| -> Option<String> { Some("x".to_string()) };
    let r = finish_resource_rewrite(Err("bad markup".to_string()), "OEBPS", &mut resolver);
    assert_eq!(r, Err(EpubError::HtmlParse("bad markup".to_string())));
}

#[test]
fn element_pass_text_without_style_block_is_kept() {
    let mut resolver = |p: &str| Some(format!("blob:{p}"));
    let mid = r#"<p style="x">url(a.png)</p>"#.to_string();
    let r = finish_resource_rewrite(Ok(mid.clone()), "OEBPS", &mut resolver);
    assert_eq!(r, Ok(mid));
}

#[test]
fn element_pass_text_with_style_block_is_rewritten() {
    let mut resolver = |p: &str| Some(format!("blob:{p}"));
    let mid = r#"<style>a { background: url("../i/a.png"); }</style><p>url(b.png)</p>"#.to_string();
    let r = finish_resource_rewrite(Ok(mid), "OEBPS/Text", &mut resolver).unwrap();
    assert_eq!(r, r#"<style>a { background: url("blob:OEBPS/i/a.png"); }</style><p>url(b.png)</p>"#);
}

#[test]
fn plain_element_lists_only_changed_attributes() {
    let mut p = UrlRewritingProcessor::new("OEBPS/Text".to_string(), |path: &str| Some(format!("blob:{path}")));
    let attrs = vec![
        ("src".to_string(), "../img/a.png".to_string()),
        ("alt".to_string(), "a".to_string()),
        ("srcset".to_string(), "https://example.com/b.png 2x".to_string()),
    ];
    let changed = process_plain(&mut p, "IMG".to_string(), attrs).unwrap();
    assert_eq!(changed, vec![("src".to_string(), "blob:OEBPS/img/a.png".to_string())]);
}
