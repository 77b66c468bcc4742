use epub_rs::parser::accessibility::build_accessibility;
use epub_rs::parser::opf::RawA11yMeta;
use epub_rs::a11y::{is_a11y_property, A11yProfile};

#[test]
fn test_a11y_profile_ordering() {
    let aa = A11yProfile::from_opf_value("EPUB Accessibility 1.1 - WCAG 2.2 Level AA").unwrap();
    let a = A11yProfile::from_opf_value("EPUB Accessibility 1.1 - WCAG 2.0 Level A").unwrap();
    let v10_aa = A11yProfile::from_opf_value(A11yProfile::A10_WCAG_20_AA).unwrap();
    assert!(a < aa, "2.0 A should rank below 2.2 AA");
    assert!(v10_aa < a, "1.0 AA should rank below 1.1 A");
}

#[test]
fn https_identifier_names_the_same_profile() {
    let p = A11yProfile::from_opf_value(
        "https://www.idpf.org/epub/a11y/accessibility-20170105.html#wcag-aa",
    )
    .unwrap();
    assert_eq!(p.0, A11yProfile::A10_WCAG_20_AA);
    let q = A11yProfile::from_opf_value("  EPUB Accessibility 1.1 - WCAG 2.1 Level AAA \n").unwrap();
    assert_eq!(q.0, "EPUB Accessibility 1.1 - WCAG 2.1 Level AAA");
    assert!(A11yProfile::from_opf_value("EPUB Accessibility 1.1 - WCAG 2.3 Level A").is_none());
    assert!(A11yProfile::from_opf_value("").is_none());
}

#[test]
fn unknown_profiles_are_unordered() {
    let odd = A11yProfile("custom".to_string());
    let a = A11yProfile::from_opf_value(A11yProfile::A10_WCAG_20_A).unwrap();
    assert_eq!(odd.partial_cmp(&a), None);
    assert!(a == A11yProfile(A11yProfile::A10_WCAG_20_A.to_string()));
}

#[test]
fn a11y_properties_by_suffix() {
    assert!(is_a11y_property("dcterms:conformsTo"));
    assert!(is_a11y_property("schema:accessModeSufficient"));
    assert!(is_a11y_property("http://schema.org/x:accessibilitySummary"));
    assert!(!is_a11y_property("accessMode"));
    assert!(!is_a11y_property("schema:accessModes"));
    assert!(!is_a11y_property("dcterms:modified"));
}

#[test]
fn conformance_profiles_come_once_and_in_rank_order() {
    let meta = |v: &str| RawA11yMeta { property: "dcterms:conformsTo".to_string(), value: v.to_string(), id: None, refines: None };
    let metas = vec![
        meta("EPUB Accessibility 1.1 - WCAG 2.2 Level AA"),
        meta(A11yProfile::A10_WCAG_20_A),
        meta("EPUB Accessibility 1.1 - WCAG 2.2 Level AA"),
    ];
    let a = build_accessibility(&metas).unwrap();
    let names: Vec<&str> = a.conforms_to.iter().map(|p| p.0.as_str()).collect();
    assert_eq!(names, vec![A11yProfile::A10_WCAG_20_A, "EPUB Accessibility 1.1 - WCAG 2.2 Level AA"]);
    assert!(build_accessibility(&[]).is_none());
}
