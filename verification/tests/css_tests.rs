use epub_rs::processor::css::rewrite_css;

#[test]
fn css_test_rewrite_css_at_font_face() {
    let css = r#"
@font-face {
font-family: "Book";
src: url("../fonts/book.woff2") format("woff2"),
     url('../fonts/book.ttf') format("truetype");
}
"#;
    let result = rewrite_css(css, "OEBPS/css/style.css", |path| {
        Some(format!("blob:{path}"))
    });
    assert!(result.contains("url(\"blob:OEBPS/fonts/book.woff2\")"));
    assert!(result.contains("url(\"blob:OEBPS/fonts/book.ttf\")"));
    assert!(result.contains("format(\"woff2\")"));
    assert!(result.contains("format(\"truetype\")"));
}

#[test]
fn css_test_rewrite_css_background_image() {
    let css = r#"body { background-image: url("../images/bg.png"); }"#;
    let result = rewrite_css(css, "OEBPS/css/style.css", |path| {
        Some(format!("blob:{path}"))
    });
    assert!(result.contains("url(\"blob:OEBPS/images/bg.png\")"));
}

#[test]
fn css_test_rewrite_css_unquoted_url() {
    let css = "div { background: url(../images/icon.svg); }";
    let result = rewrite_css(css, "OEBPS/css/style.css", |path| {
        Some(format!("blob:{path}"))
    });
    assert!(result.contains("url(\"blob:OEBPS/images/icon.svg\")"));
}

#[test]
fn css_test_rewrite_css_skips_data_url() {
    let css = r#"div { background: url("data:image/png;base64,abc"); }"#;
    let result = rewrite_css(css, "OEBPS/css/style.css", |_| {
        panic!("resolver should not be called for data: URLs");
    });
    assert!(result.contains("data:image/png;base64,abc"));
}

#[test]
fn css_test_rewrite_css_skips_https_url() {
    let css = r#"div { background: url("https://example.com/img.png"); }"#;
    let result = rewrite_css(css, "OEBPS/css/style.css", |_| {
        panic!("resolver should not be called for https: URLs");
    });
    assert!(result.contains("https://example.com/img.png"));
}

#[test]
fn css_test_rewrite_css_at_import_double_quote() {
    let css = r#"@import "base.css";"#;
    let result = rewrite_css(css, "OEBPS/css/style.css", |path| {
        assert_eq!(path, "OEBPS/css/base.css");
        Some("blob:base".to_string())
    });
    assert!(result.contains("@import \"blob:base\""));
}

#[test]
fn css_test_rewrite_css_at_import_single_quote() {
    let css = "@import 'reset.css';";
    let result = rewrite_css(css, "OEBPS/css/style.css", |path| {
        assert_eq!(path, "OEBPS/css/reset.css");
        Some("blob:reset".to_string())
    });
    assert!(result.contains("@import \"blob:reset\""));
}

#[test]
fn css_test_rewrite_css_skips_comment_embedded_url() {
    let css = "/* url(should-not-be-rewritten.ttf) */ body { color: red; }";
    let result = rewrite_css(css, "OEBPS/css/style.css", |_| {
        panic!("resolver should not be called for comment-embedded URLs");
    });
    assert!(result.contains("should-not-be-rewritten.ttf"));
}

#[test]
fn css_test_rewrite_css_resolver_none_preserves_original() {
    let css = r#"body { background: url("img.png"); }"#;
    let result = rewrite_css(css, "OEBPS/css/style.css", |_| None);
    assert!(result.contains("url(\"img.png\")"));
}

#[test]
fn scan_css_url_spans_gives_byte_offsets() {
    let css = "p{content:\"é\"}url(x.png)";
    let spans = epub_rs::processor::rewrite::scan_css_url_spans(css);
    assert_eq!(spans.len(), 1);
    assert_eq!(spans[0].start, 15);
    assert_eq!(spans[0].inner_start, 19);
    assert_eq!(spans[0].inner_end, 24);
    assert_eq!(spans[0].end, 25);
    assert_eq!(&css[spans[0].inner_start..spans[0].inner_end], "x.png");
}
