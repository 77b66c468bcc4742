use epub_rs::error::EpubError;
use epub_rs::model::RenditionInfo;
use epub_rs::parser::rendition::{best_rendition, preferred_opf_path, rendition_path_at, rendition_score};

fn renditions() -> [RenditionInfo; 3] {
    [
        RenditionInfo {
            opf_path: "default.opf".to_string(),
            layout: Some("pre-paginated".to_string()),
            language: Some("fr".to_string()),
            label: None,
            media: None,
            access_mode: None,
        },
        RenditionInfo {
            opf_path: "text.opf".to_string(),
            layout: Some("reflowable".to_string()),
            language: Some("en".to_string()),
            label: None,
            media: None,
            access_mode: None,
        },
        RenditionInfo {
            opf_path: "comic.opf".to_string(),
            layout: Some("pre-paginated".to_string()),
            language: Some("en".to_string()),
            label: None,
            media: None,
            access_mode: None,
        },
    ]
}

#[test]
fn test_parse_best_for_scoring() {
    let renditions = renditions();

    let layout_pref = "reflowable";
    let lang_pref = "fr";
    let best1 = renditions
        .iter()
        .max_by_key(|r| {
            let mut score = 0;
            if r.layout.as_deref() == Some(layout_pref) {
                score += 2;
            }
            if r.language.as_deref() == Some(lang_pref) {
                score += 1;
            }
            score
        })
        .unwrap();
    assert_eq!(best1.opf_path, "text.opf");

    let layout_pref2 = "pre-paginated";
    let lang_pref2 = "en";
    let best2 = renditions
        .iter()
        .max_by_key(|r| {
            let mut score = 0;
            if r.layout.as_deref() == Some(layout_pref2) {
                score += 2;
            }
            if r.language.as_deref() == Some(lang_pref2) {
                score += 1;
            }
            score
        })
        .unwrap();
    assert_eq!(best2.opf_path, "comic.opf");
}

#[test]
fn library_scoring_matches_weights() {
    let rs = renditions();
    assert_eq!(rendition_score(&rs[1], Some("reflowable"), Some("fr")), 2);
    assert_eq!(rendition_score(&rs[2], Some("pre-paginated"), Some("en")), 3);
    assert_eq!(rendition_score(&rs[0], None, Some("fr")), 1);
    assert_eq!(preferred_opf_path(&rs, Some("reflowable"), Some("fr")), "text.opf");
    assert_eq!(preferred_opf_path(&rs, Some("pre-paginated"), Some("en")), "comic.opf");
}

#[test]
fn ties_go_to_the_first_and_no_match_to_the_default() {
    let rs = renditions();
    // both pre-paginated renditions score 2: the first one wins
    assert_eq!(best_rendition(&rs, Some("pre-paginated"), None), Some(0));
    // nothing matches: the default rendition
    assert_eq!(best_rendition(&rs, Some("scrolled"), Some("de")), None);
    assert_eq!(preferred_opf_path(&rs, Some("scrolled"), Some("de")), "default.opf");
    assert_eq!(best_rendition(&[], Some("reflowable"), None), None);
}

#[test]
fn undeclared_layout_counts_as_reflowable() {
    let mut rs = renditions();
    rs[0].layout = None;
    assert_eq!(rendition_score(&rs[0], Some("reflowable"), None), 2);
}

#[test]
fn rendition_index_out_of_range() {
    let rs = renditions();
    assert_eq!(rendition_path_at(&rs, 1).unwrap(), "text.opf");
    match rendition_path_at(&rs, 5) {
        Err(EpubError::InvalidFormat(msg)) => {
            assert!(msg.contains("out of range"));
            assert_eq!(msg, "Rendition index 5 is out of range (container has fewer rootfiles)");
        }
        other => panic!("Expected InvalidFormat, got {other:?}"),
    }
}

#[test]
fn equally_fitting_renditions_choose_the_first() {
    let r = |path: &str| epub_rs::model::RenditionInfo {
        opf_path: path.to_string(),
        layout: Some("reflowable".to_string()),
        language: None,
        label: None,
        media: None,
        access_mode: None,
    };
    let rs = vec![r("a.opf"), r("b.opf")];
    assert_eq!(best_rendition(&rs, Some("reflowable"), None), Some(0));
    assert_eq!(preferred_opf_path(&rs, Some("reflowable"), None), "a.opf");
}
