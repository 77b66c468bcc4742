use epub_rs::path::{epub_relative_path, is_external_url, join_epub_path, normalize_path, resolve_href};

// ── join_epub_path / normalize_path ───────────────────────────────────────

#[test]
fn join_parent_traversal() {
    assert_eq!(
        join_epub_path("OEBPS/Text", "../Images/cover.jpg"),
        "OEBPS/Images/cover.jpg"
    );
}

#[test]
fn join_same_dir() {
    assert_eq!(
        join_epub_path("OEBPS/Text", "chapter2.xhtml"),
        "OEBPS/Text/chapter2.xhtml"
    );
}

#[test]
fn join_empty_base() {
    assert_eq!(join_epub_path("", "images/cover.jpg"), "images/cover.jpg");
}

#[test]
fn normalize_percent_decodes() {
    assert_eq!(
        normalize_path("OEBPS/Text", "../Images/my%20cover.jpg"),
        "OEBPS/Images/my cover.jpg"
    );
}

#[test]
fn normalize_strips_query_and_fragment() {
    assert_eq!(
        normalize_path("OEBPS", "css/style.css?v=2.0#section"),
        "OEBPS/css/style.css"
    );
}

// ── resolve_href (nav / document-relative) ────────────────────────────────

#[test]
fn resolve_href_parent_traversal() {
    assert_eq!(
        resolve_href("OEBPS/nav", "../text/ch1.xhtml"),
        "OEBPS/text/ch1.xhtml"
    );
}

#[test]
fn resolve_href_same_dir() {
    assert_eq!(
        resolve_href("OEBPS", "text/ch1.xhtml"),
        "OEBPS/text/ch1.xhtml"
    );
}

#[test]
fn resolve_href_fragment_preserved() {
    assert_eq!(
        resolve_href("OEBPS/nav", "../text/ch2.xhtml#s2"),
        "OEBPS/text/ch2.xhtml#s2"
    );
}

#[test]
fn resolve_href_absolute_url_passthrough() {
    assert_eq!(
        resolve_href("OEBPS", "https://example.com/page"),
        "https://example.com/page"
    );
}

#[test]
fn resolve_href_empty_base_passthrough() {
    // Empty base means unresolved package context — keep href as authored.
    assert_eq!(resolve_href("", "text/ch1.xhtml"), "text/ch1.xhtml");
}

#[test]
fn resolve_href_fragment_only() {
    assert_eq!(resolve_href("OEBPS", "#intro"), "#intro");
}

// ── epub_relative_path (generator) ────────────────────────────────────────

#[test]
fn relative_same_directory() {
    assert_eq!(
        epub_relative_path("text/ch1.xhtml", "text/ch2.xhtml"),
        "ch2.xhtml"
    );
}

#[test]
fn relative_one_level_up() {
    assert_eq!(
        epub_relative_path("text/ch1.xhtml", "styles/main.css"),
        "../styles/main.css"
    );
}

#[test]
fn relative_source_at_root() {
    assert_eq!(
        epub_relative_path("chapter.xhtml", "styles/main.css"),
        "styles/main.css"
    );
}

#[test]
fn relative_target_at_root() {
    assert_eq!(
        epub_relative_path("text/ch1.xhtml", "cover.jpg"),
        "../cover.jpg"
    );
}

#[test]
fn relative_both_at_root() {
    assert_eq!(
        epub_relative_path("chapter.xhtml", "cover.jpg"),
        "cover.jpg"
    );
}

#[test]
fn relative_deeply_nested_source() {
    assert_eq!(
        epub_relative_path("a/b/ch1.xhtml", "styles/main.css"),
        "../../styles/main.css"
    );
}

#[test]
fn relative_deeply_nested_both() {
    assert_eq!(
        epub_relative_path("text/part1/ch1.xhtml", "text/part2/ch2.xhtml"),
        "../part2/ch2.xhtml"
    );
}

#[test]
fn relative_same_file() {
    assert_eq!(
        epub_relative_path("text/ch1.xhtml", "text/ch1.xhtml"),
        "ch1.xhtml"
    );
}

#[test]
fn relative_theme_css_typical_cases() {
    let css = "styles/theme.css";
    assert_eq!(epub_relative_path("chapter.xhtml", css), "styles/theme.css");
    assert_eq!(
        epub_relative_path("text/ch1.xhtml", css),
        "../styles/theme.css"
    );
    assert_eq!(
        epub_relative_path("content/text/ch1.xhtml", css),
        "../../styles/theme.css"
    );
}

// ── Cross-module consistency (shared table) ───────────────────────────────

#[test]
fn join_and_resolve_agree_on_path_only_refs() {
    // When there is no fragment and base is non-empty, resolve_href path
    // component must match join_epub_path (nav vs resource lookup).
    let cases = [
        ("OEBPS/Text", "../Images/cover.jpg"),
        ("OEBPS/nav", "../text/ch1.xhtml"),
        ("OEBPS", "css/style.css"),
        ("a/b/c", "../../d/e.xhtml"),
        ("Text", "./ch1.xhtml"),
    ];
    for (base, rel) in cases {
        assert_eq!(
            join_epub_path(base, rel),
            resolve_href(base, rel),
            "join vs resolve for ({base}, {rel})"
        );
    }
}

/// Table: fragment handling differs by API contract.
#[test]
fn fragment_policy_table() {
    let cases = [
        // (base, input, normalize → strip, resolve → keep)
        (
            "OEBPS",
            "ch.xhtml#s1",
            "OEBPS/ch.xhtml",
            "OEBPS/ch.xhtml#s1",
        ),
        (
            "OEBPS/nav",
            "../text/ch2.xhtml#s2",
            "OEBPS/text/ch2.xhtml",
            "OEBPS/text/ch2.xhtml#s2",
        ),
        ("OEBPS", "#only", "OEBPS", "#only"),
        ("", "a.xhtml#x", "a.xhtml", "a.xhtml#x"),
    ];
    for (base, input, want_norm, want_resolve) in cases {
        assert_eq!(
            normalize_path(base, input),
            want_norm,
            "normalize({base}, {input})"
        );
        assert_eq!(
            resolve_href(base, input),
            want_resolve,
            "resolve({base}, {input})"
        );
    }
}

/// Table: query strings only affect normalize_path (stripped before join).
#[test]
fn query_and_encoding_table() {
    assert_eq!(
        normalize_path("OEBPS", "css/a.css?v=1#h"),
        "OEBPS/css/a.css"
    );
    assert_eq!(
        normalize_path("OEBPS/Text", "../Images/my%20cover.jpg"),
        "OEBPS/Images/my cover.jpg"
    );
    // join does not percent-decode
    assert_eq!(
        join_epub_path("OEBPS", "my%20file.xhtml"),
        "OEBPS/my%20file.xhtml"
    );
    // resolve does not percent-decode path segments
    assert_eq!(
        resolve_href("OEBPS", "my%20file.xhtml#id"),
        "OEBPS/my%20file.xhtml#id"
    );
}

#[test]
fn external_and_special_schemes_table() {
    let externals = [
        "https://example.com/a",
        "http://example.com/a",
        "data:image/png;base64,xx",
        "mailto:a@b.c",
        "ftp://h/f",
        "blob:https://x/y",
        "//cdn.example/z",
    ];
    for url in externals {
        assert!(is_external_url(url), "{url}");
        assert_eq!(resolve_href("OEBPS", url), url);
    }
}

#[test]
fn parent_traversal_and_dot_segments() {
    assert_eq!(join_epub_path("a/b/c", "../../x/y"), "a/x/y");
    assert_eq!(join_epub_path("a/b", "././c/./d"), "a/b/c/d");
    // Excess .. is popped until empty (no escape above package root)
    assert_eq!(join_epub_path("a", "../../x"), "x");
    assert_eq!(join_epub_path("", "../x"), "x");
}

#[test]
fn empty_base_and_empty_href_contracts() {
    assert_eq!(resolve_href("", "text/ch1.xhtml"), "text/ch1.xhtml");
    assert_eq!(resolve_href("OEBPS", ""), "");
    assert_eq!(normalize_path("", "images/a.jpg"), "images/a.jpg");
    assert_eq!(normalize_path("OEBPS", ""), "OEBPS");
}

// ── laws on concrete values ────────────────────────────────────────────────

#[test]
fn joined_path_has_no_dot_segments() {
    let joined = join_epub_path("a/./b//c", "../../x/./y/");
    assert_eq!(joined, "a/x/y");
    assert!(!joined.split('/').any(|s| s.is_empty() || s == "." || s == ".."));
}

#[test]
fn relative_path_leads_back_to_target() {
    let cases = [
        ("text/ch1.xhtml", "styles/main.css"),
        ("a/b/c/ch.xhtml", "a/x/y.png"),
        ("ch.xhtml", "deep/er/file.css"),
        ("deep/er/ch.xhtml", "top.css"),
        ("same/dir.xhtml", "same/other.xhtml"),
    ];
    for (from, to) in cases {
        let rel = epub_relative_path(from, to);
        let dir = match from.rfind('/') {
            Some(i) => &from[..i],
            None => "",
        };
        assert_eq!(join_epub_path(dir, &rel), to, "{from} -> {to} via {rel}");
    }
}

#[test]
fn normalize_keeps_plain_names_and_decodes_escapes() {
    assert_eq!(normalize_path("OEBPS", "plain.css"), "OEBPS/plain.css");
    assert_eq!(normalize_path("OEBPS", "a%2Fb.css"), "OEBPS/a/b.css");
    assert_eq!(normalize_path("OEBPS", "%E2%82%AC.png"), "OEBPS/\u{20ac}.png");
    // an invalid escape stays as written
    assert_eq!(normalize_path("OEBPS", "100%zz.png"), "OEBPS/100%zz.png");
}

#[test]
fn resolve_keeps_query_in_path() {
    assert_eq!(resolve_href("OEBPS", "a.xhtml?x=1#f"), "OEBPS/a.xhtml?x=1#f");
    assert!(!is_external_url("ftpx"));
    assert!(is_external_url("ftp:x"));
}

#[test]
fn test_normalize_path() {
    assert_eq!(normalize_path("OEBPS/Text", "../Images/cover.jpg"), "OEBPS/Images/cover.jpg");
    assert_eq!(normalize_path("OEBPS/Text", "chapter2.xhtml"), "OEBPS/Text/chapter2.xhtml");
    assert_eq!(normalize_path("", "images/cover.jpg"), "images/cover.jpg");
    assert_eq!(normalize_path("OEBPS/Text", "../Images/my%20cover.jpg"), "OEBPS/Images/my cover.jpg");
    assert_eq!(normalize_path("OEBPS", "css/style.css?v=2.0#section"), "OEBPS/css/style.css");
}
