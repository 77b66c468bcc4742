use epub_rs::error::EpubError;
use epub_rs::provider::{safe_join, scan_fallback, split_stem_ext, DirProvider, ZipNameResolver};

#[test]
fn test_safe_join_normal_paths() {
    let root = "/epub/root";
    assert!(safe_join(root, "META-INF/container.xml").is_ok());
    assert!(safe_join(root, "OEBPS/content.opf").is_ok());
    assert!(safe_join(root, "./OEBPS/text/ch1.xhtml").is_ok());
}

#[test]
fn test_safe_join_rejects_path_traversal() {
    let root = "/epub/root";
    assert!(safe_join(root, "../../etc/passwd").is_err());
    assert!(safe_join(root, "OEBPS/../../../etc/hosts").is_err());
}

#[test]
fn test_safe_join_allows_internal_dotdot() {
    let root = "/epub/root";
    let result = safe_join(root, "OEBPS/Text/../Images/cover.jpg");
    assert!(result.is_ok());
    assert_eq!(result.unwrap(), "/epub/root/OEBPS/Images/cover.jpg");
}

#[test]
fn safe_join_error_names_the_path() {
    match safe_join("/r", "../x") {
        Err(EpubError::InvalidFormat(m)) => {
            assert_eq!(m, "Security: path '../x' attempts to escape the EPUB root directory")
        }
        other => panic!("unexpected {other:?}"),
    }
    assert_eq!(safe_join("/r/", "a//b/./c").unwrap(), "/r/a/b/c");
    assert_eq!(safe_join("", "a/b").unwrap(), "a/b");
    assert_eq!(safe_join("/r", "").unwrap(), "/r");
}

#[test]
fn dir_provider_joins_below_its_root() {
    let p = DirProvider::new("/books/one");
    assert_eq!(p.root(), "/books/one");
    assert_eq!(p.full_path("OEBPS/a.xhtml").unwrap(), "/books/one/OEBPS/a.xhtml");
    assert!(p.full_path("../two/secret").is_err());
}

#[test]
fn stem_and_extension() {
    assert_eq!(split_stem_ext("oebps/image.png"), ("oebps/image".to_string(), "png".to_string()));
    assert_eq!(split_stem_ext("noext"), ("noext".to_string(), String::new()));
    assert_eq!(split_stem_ext("a.b.c"), ("a.b".to_string(), "c".to_string()));
}

fn names() -> Vec<String> {
    vec!["OEBPS/image.png".to_string(), "OEBPS/Text/Chapter1.xhtml".to_string()]
}

#[test]
fn zip_name_lookup() {
    let names = names();
    let mut r = ZipNameResolver::new();
    assert_eq!(r.resolve_zip_name(&names, "OEBPS/image.png").as_deref(), Some("OEBPS/image.png"));
    assert_eq!(
        r.resolve_zip_name(&names, "oebps/text/chapter1.xhtml").as_deref(),
        Some("OEBPS/Text/Chapter1.xhtml")
    );
    assert_eq!(r.resolve_zip_name(&names, "OEBPS/image.jpg").as_deref(), Some("OEBPS/image.png"));
    assert!(r.resolve_zip_name(&names, "missing.txt").is_none());
    // an alias applies to image extensions only
    assert!(scan_fallback(&names, "OEBPS/Text/Chapter1.html").is_none());
}

#[test]
fn exact_match_does_not_populate_fallback_cache() {
    let names = names();
    let mut r = ZipNameResolver::new();
    r.resolve_zip_name(&names, "OEBPS/image.png");
    r.resolve_zip_name(&names, "OEBPS/Text/Chapter1.xhtml");
    assert_eq!(r.fallback_count(), 0);
}

#[test]
fn fallback_cache_populated_after_first_broken_path() {
    let names = names();
    let mut r = ZipNameResolver::new();
    assert_eq!(r.fallback_count(), 0);
    let first = r.resolve_zip_name(&names, "oebps/text/chapter1.xhtml");
    assert_eq!(first.as_deref(), Some("OEBPS/Text/Chapter1.xhtml"));
    assert_eq!(r.fallback_count(), 1);
    let second = r.resolve_zip_name(&names, "oebps/text/chapter1.xhtml");
    assert_eq!(second, first);
    assert_eq!(r.fallback_count(), 1);
}

#[test]
fn fallback_cache_extension_alias_cached() {
    let names = names();
    let mut r = ZipNameResolver::new();
    let r1 = r.resolve_zip_name(&names, "OEBPS/image.jpg");
    assert_eq!(r1.as_deref(), Some("OEBPS/image.png"));
    assert_eq!(r.fallback_count(), 1);
    let r2 = r.resolve_zip_name(&names, "OEBPS/image.jpg");
    assert_eq!(r2, r1);
    assert_eq!(r.fallback_count(), 1);
}
