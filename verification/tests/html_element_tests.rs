use epub_rs::processor::html::{rewrite_style_blocks, HtmlElementMut, UrlRewritingProcessor};
use epub_rs::processor::rewrite::{apply_css_url_answers, css_url_requests, rewrite_css_urls};

struct TestElement {
    tag: String,
    attrs: Vec<(String, String)>,
    refuse_writes: bool,
}

impl TestElement {
    fn new(tag: &str, attrs: &[(&str, &str)]) -> Self {
        TestElement {
            tag: tag.to_string(),
            attrs: attrs.iter().map(|(k, v)| (k.to_string(), v.to_string())).collect(),
            refuse_writes: false,
        }
    }

    fn attr(&self, name: &str) -> Option<&str> {
        self.attrs.iter().find(|(k, _)| k == name).map(|(_, v)| v.as_str())
    }
}

impl HtmlElementMut for TestElement {
    fn tag_name(&self) -> String {
        self.tag.clone()
    }

    fn get_attribute(&self, name: &str) -> Option<String> {
        self.attr(name).map(|v| v.to_string())
    }

    fn set_attribute(&mut self, name: &str, value: &str) -> Result<(), String> {
        if self.refuse_writes {
            return Err("read-only".to_string());
        }
        match self.attrs.iter_mut().find(|(k, _)| k == name) {
            Some(entry) => entry.1 = value.to_string(),
            None => self.attrs.push((name.to_string(), value.to_string())),
        }
        Ok(())
    }
}

fn blob(p: &str) -> Option<String> {
    Some(format!("blob:{p}"))
}

#[test]
fn img_src_poster_and_srcset_are_rewritten() {
    let mut p = UrlRewritingProcessor::new("OEBPS/Text".to_string(), blob);
    let mut el = TestElement::new(
        "img",
        &[
            ("src", "../img/a.png"),
            ("poster", "https://cdn/x.png"),
            ("srcset", "a.png 1x, b.png 2x"),
            ("alt", "../img/not-a-url.png"),
        ],
    );
    assert!(p.process_element(&mut el).is_ok());
    assert_eq!(el.attr("src"), Some("blob:OEBPS/img/a.png"));
    assert_eq!(el.attr("poster"), Some("https://cdn/x.png"));
    assert_eq!(el.attr("srcset"), Some("blob:OEBPS/Text/a.png 1x, blob:OEBPS/Text/b.png 2x"));
    assert_eq!(el.attr("alt"), Some("../img/not-a-url.png"));
}

#[test]
fn tag_names_are_matched_case_insensitively() {
    let mut p = UrlRewritingProcessor::new("OEBPS".to_string(), blob);
    let mut el = TestElement::new("VIDEO", &[("src", "movie.mp4")]);
    assert!(p.process_element(&mut el).is_ok());
    assert_eq!(el.attr("src"), Some("blob:OEBPS/movie.mp4"));
}

#[test]
fn svg_use_keeps_fragment_and_local_refs() {
    let mut p = UrlRewritingProcessor::new("OEBPS/Text".to_string(), |path: &str| {
        assert_eq!(path, "OEBPS/images/sprite.svg");
        Some("blob:sprite".to_string())
    });
    let mut el = TestElement::new(
        "use",
        &[("href", "../images/sprite.svg#arrow"), ("xlink:href", "#local")],
    );
    assert!(p.process_element(&mut el).is_ok());
    assert_eq!(el.attr("href"), Some("blob:sprite#arrow"));
    assert_eq!(el.attr("xlink:href"), Some("#local"));
}

#[test]
fn anchor_href_keeps_fragment_and_skips_same_document_links() {
    let mut p = UrlRewritingProcessor::new("OEBPS/Text".to_string(), blob);
    let mut a = TestElement::new("a", &[("href", "ch2.xhtml#s2")]);
    assert!(p.process_element(&mut a).is_ok());
    assert_eq!(a.attr("href"), Some("blob:OEBPS/Text/ch2.xhtml#s2"));
    let mut top = TestElement::new("a", &[("href", "#top")]);
    assert!(p.process_element(&mut top).is_ok());
    assert_eq!(top.attr("href"), Some("#top"));
}

#[test]
fn object_data_and_svg_image_hrefs() {
    let mut p = UrlRewritingProcessor::new("OEBPS".to_string(), blob);
    let mut obj = TestElement::new("object", &[("data", "media/x.svg")]);
    assert!(p.process_element(&mut obj).is_ok());
    assert_eq!(obj.attr("data"), Some("blob:OEBPS/media/x.svg"));
    let mut img = TestElement::new("image", &[("xlink:href", "i.png"), ("href", "data:,x")]);
    assert!(p.process_element(&mut img).is_ok());
    assert_eq!(img.attr("xlink:href"), Some("blob:OEBPS/i.png"));
    assert_eq!(img.attr("href"), Some("data:,x"));
}

#[test]
fn style_attribute_of_any_element_is_rewritten() {
    let mut p = UrlRewritingProcessor::new("OEBPS/Text".to_string(), blob);
    let mut div = TestElement::new("div", &[("style", "background: url('../images/bg.png')")]);
    assert!(p.process_element(&mut div).is_ok());
    assert_eq!(div.attr("style"), Some("background: url(\"blob:OEBPS/images/bg.png\")"));
}

#[test]
fn declining_resolver_changes_nothing() {
    let mut p = UrlRewritingProcessor::new("OEBPS".to_string(), |_: &str| None);
    let mut el = TestElement::new("img", &[("src", "a.png"), ("style", "x: url(b.png)")]);
    assert!(p.process_element(&mut el).is_ok());
    assert_eq!(el.attr("src"), Some("a.png"));
    assert_eq!(el.attr("style"), Some("x: url(b.png)"));
}

#[test]
fn failed_write_is_reported() {
    let mut p = UrlRewritingProcessor::new("OEBPS".to_string(), blob);
    let mut el = TestElement::new("img", &[("src", "a.png")]);
    el.refuse_writes = true;
    assert_eq!(p.process_element(&mut el), Err("read-only".to_string()));
    assert_eq!(el.attr("src"), Some("a.png"));
}

#[test]
fn style_blocks_are_rewritten_and_the_rest_kept() {
    let html = "<p>url(keep.png)</p><STYLE type=\"text/css\">a { b: url(x.png) }</Style><style>c{}</style>";
    let mut resolver = |p: &str| Some(format!("blob:{p}"));
    let out = rewrite_style_blocks(html, "OEBPS", &mut resolver);
    assert_eq!(
        out,
        "<p>url(keep.png)</p><STYLE type=\"text/css\">a { b: url(\"blob:OEBPS/x.png\") }</Style><style>c{}</style>"
    );
}

#[test]
fn css_requests_and_answers() {
    let css = "a{b:url( 'x.png' )} c{d:url(data:,z)} @import \"y.css\"; /* url(z.png) */";
    let reqs = css_url_requests(css, "S");
    assert_eq!(reqs, vec![Some("S/x.png".to_string()), None, Some("S/y.css".to_string())]);
    let out = apply_css_url_answers(css, &[Some("X".to_string()), None, Some("Y".to_string())]);
    assert_eq!(out, "a{b:url(\"X\")} c{d:url(data:,z)} @import \"Y\"; /* url(z.png) */");
    let mut r = |p: &str| if p.ends_with(".css") { Some("Z".to_string()) } else { None };
    assert_eq!(
        rewrite_css_urls(css, "S", &mut r),
        "a{b:url( 'x.png' )} c{d:url(data:,z)} @import \"Z\"; /* url(z.png) */"
    );
}

#[test]
fn unterminated_url_stops_the_scan() {
    let css = "a{b:url(   ";
    assert!(css_url_requests(css, "S").is_empty());
    let css2 = "a{b:url(\"x.png\" z} e{f:url(y.png)}";
    // the malformed quoted token is skipped, the next one is found
    assert_eq!(css_url_requests(css2, "S"), vec![Some("S/y.png".to_string())]);
}
