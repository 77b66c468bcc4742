use epub_rs::processor::inline::{collect_local_refs, promote_data_stylesheet_links};
use epub_rs::error::EpubError;
use epub_rs::processor::prepare::{data_uri, prepared_markup, resolve_media_type, PrepareChapterOptions};

#[test]
fn resolve_media_type_prefers_manifest() {
    assert_eq!(resolve_media_type("x.bin", Some("image/webp")), "image/webp");
    assert_eq!(resolve_media_type("x.png", None), "image/png");
    assert_eq!(resolve_media_type("x.png", Some("application/octet-stream")), "image/png");
}

#[test]
fn data_uri_roundtrip_prefix() {
    let uri = data_uri("image/png", b"\x89PNG");
    assert!(uri.starts_with("data:image/png;base64,"));
}

#[test]
fn data_uri_exact_encoding() {
    assert_eq!(data_uri("text/plain", b"hi!"), "data:text/plain;base64,aGkh");
    assert_eq!(data_uri("text/plain", b"ab"), "data:text/plain;base64,YWI=");
}

#[test]
fn collect_srcset_refs() {
    let refs = collect_local_refs(r#"<img srcset="img/a.png 1x, img/b.png 2x">"#);
    assert!(refs.iter().any(|r| r.contains("a.png")));
    assert!(refs.iter().any(|r| r.contains("b.png")));
}

#[test]
fn promote_data_stylesheet_decodes_base64_css() {
    let css = "body{color:red}";
    let uri = data_uri("text/css", css.as_bytes());
    let html = format!(r#"<html><head><link rel="stylesheet" href="{uri}"/></head><body></body></html>"#);
    let out = promote_data_stylesheet_links(&html);
    assert!(out.contains("<style"));
    assert!(out.contains("body{color:red}"));
    assert!(!out.contains("<link"));
}

#[test]
fn collect_local_refs_finds_attributes_srcset_and_css_urls_in_order() {
    let refs = collect_local_refs(
        r#"<img src="a.png" srcset="b.png 1x, c.png 2x"><div style="background:url('d.png')"></div>"#,
    );
    assert_eq!(refs, vec!["a.png", "b.png", "c.png", "d.png"]);
}

#[test]
fn markup_is_kept_when_no_markers_are_asked_for() {
    let options = PrepareChapterOptions { inject_cfi: false, inline_resources: true, max_inline_bytes: 10 };
    let html = "<html><body><p>x</p></body></html>";
    assert_eq!(prepared_markup(html, None, &options), Ok(html.to_string()));
}

#[test]
fn markers_without_base_cfi_are_refused() {
    let options = PrepareChapterOptions { inject_cfi: true, inline_resources: false, max_inline_bytes: 10 };
    assert_eq!(
        prepared_markup("<html><body></body></html>", None, &options),
        Err(EpubError::InvalidFormat("inject_cfi requires base_cfi".to_string()))
    );
}

#[test]
fn markers_are_added_below_the_base_cfi() {
    let options = PrepareChapterOptions { inject_cfi: true, inline_resources: false, max_inline_bytes: 10 };
    let out = prepared_markup("<html><body><p>x</p></body></html>", Some("/6/2[ch]!"), &options).unwrap();
    assert!(out.contains("data-cfi=\"epubcfi(/6/2[ch]!/4/2)\""), "{out}");
}
