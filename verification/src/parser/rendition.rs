//! Choosing among the renditions that `container.xml` declares.
use vstd::prelude::*;
use crate::error::EpubError;
use crate::model::RenditionInfo;
use crate::text::{chars_of, eq_chars, lit, extend_chars, string_from_chars, decimal_chars, decimal_spec};

verus! {

/// `v` is `Some` of a string whose characters are `want`.
pub open spec fn is_some_eq(v: Option<String>, want: Seq<char>) -> bool {
    v matches Some(s) && s@ == want
}

/// A rendition has the wanted layout; one that declares none counts as
/// reflowable.
pub open spec fn layout_matches(r: RenditionInfo, want: Seq<char>) -> bool {
    is_some_eq(r.layout, want) || (want == "reflowable"@ && r.layout is None)
}

/// How well a rendition fits the preferences: 2 for the layout, 1 for the
/// language.  A wrong layout is a rendering failure, a wrong language only
/// an inconvenience, so the layout weighs more.
pub open spec fn score_spec(r: RenditionInfo, layout: Option<Seq<char>>, language: Option<Seq<char>>) -> nat {
    (if layout matches Some(w) && layout_matches(r, w) {
        2nat
    } else {
        0nat
    }) + (if language matches Some(w) && is_some_eq(r.language, w) {
        1nat
    } else {
        0nat
    })
}

/// The index of the best-scoring rendition among the first `n` (the first
/// one among equals).
pub open spec fn best_upto(
    rs: Seq<RenditionInfo>,
    layout: Option<Seq<char>>,
    language: Option<Seq<char>>,
    n: int,
) -> int
    decreases n,
{
    if n <= 1 {
        0
    } else {
        let b = best_upto(rs, layout, language, n - 1);
        if score_spec(rs[n - 1], layout, language) > score_spec(rs[b], layout, language) {
            n - 1
        } else {
            b
        }
    }
}

/// The rendition chosen for the preferences: the best-scoring one, when it
/// satisfies at least one of them.
pub open spec fn chosen_spec(
    rs: Seq<RenditionInfo>,
    layout: Option<Seq<char>>,
    language: Option<Seq<char>>,
) -> Option<int> {
    if rs.len() == 0 {
        None
    } else {
        let b = best_upto(rs, layout, language, rs.len() as int);
        if score_spec(rs[b], layout, language) > 0 {
            Some(b)
        } else {
            None
        }
    }
}

/// The characters of an optional string.
pub open spec fn opt_chars(v: Option<&str>) -> Option<Seq<char>> {
    match v {
        Some(s) => Some(s@),
        None => None,
    }
}

fn opt_eq(v: &Option<String>, want: &[char]) -> (b: bool)
    ensures
        b == is_some_eq(*v, want@),
{
    match v {
        Some(s) => eq_chars(&chars_of(s.as_str()), want),
        None => false,
    }
}

/// How well a rendition fits the preferences (see [`score_spec`]).
pub fn rendition_score(r: &RenditionInfo, layout: Option<&str>, language: Option<&str>) -> (s: u8)
    ensures
        s == score_spec(*r, opt_chars(layout), opt_chars(language)),
{
    let mut score: u8 = 0;
    match layout {
        Some(w) => {
            let wc = chars_of(w);
            let reflowable = lit("reflowable");
            proof {
                reveal_strlit("reflowable");
            }
            if opt_eq(&r.layout, &wc) || (eq_chars(&wc, &reflowable) && r.layout.is_none()) {
                score = score + 2;
            }
        },
        None => {},
    }
    match language {
        Some(w) => {
            if opt_eq(&r.language, &chars_of(w)) {
                score = score + 1;
            }
        },
        None => {},
    }
    score
}

proof fn lemma_best_upto_bounds(
    rs: Seq<RenditionInfo>,
    layout: Option<Seq<char>>,
    language: Option<Seq<char>>,
    n: int,
)
    requires
        1 <= n,
    ensures
        0 <= best_upto(rs, layout, language, n) < n,
        forall|k: int|
            0 <= k < n ==> score_spec(#[trigger] rs[k], layout, language) <= score_spec(
                rs[best_upto(rs, layout, language, n)],
                layout,
                language,
            ),
        forall|k: int|
            0 <= k < best_upto(rs, layout, language, n) ==> score_spec(#[trigger] rs[k], layout, language)
                < score_spec(rs[best_upto(rs, layout, language, n)], layout, language),
    decreases n,
{
    if n > 1 {
        lemma_best_upto_bounds(rs, layout, language, n - 1);
    }
}

/// The index of the rendition that best fits the preferences, or `None`
/// when none satisfies any of them (see [`chosen_spec`]).
pub fn best_rendition(renditions: &[RenditionInfo], layout: Option<&str>, language: Option<&str>) -> (r:
    Option<usize>)
    ensures
        match r {
            Some(i) => i < renditions@.len() && chosen_spec(
                renditions@,
                opt_chars(layout),
                opt_chars(language),
            ) == Some(i as int),
            None => chosen_spec(renditions@, opt_chars(layout), opt_chars(language)) is None,
        },
{
    if renditions.len() == 0 {
        return None;
    }
    let ghost lay = opt_chars(layout);
    let ghost lang = opt_chars(language);
    let mut best: usize = 0;
    let mut best_score: u8 = rendition_score(&renditions[0], layout, language);
    let mut i: usize = 1;
    while i < renditions.len()
        invariant
            1 <= i <= renditions@.len(),
            lay == opt_chars(layout),
            lang == opt_chars(language),
            best as int == best_upto(renditions@, lay, lang, i as int),
            best < renditions@.len(),
            best_score == score_spec(renditions@[best as int], lay, lang),
        decreases renditions@.len() - i,
    {
        let s = rendition_score(&renditions[i], layout, language);
        if s > best_score {
            best = i;
            best_score = s;
        }
        i = i + 1;
    }
    if best_score > 0 {
        Some(best)
    } else {
        None
    }
}

/// When some rendition has the wanted layout, the one chosen has it too:
/// the layout preference outweighs the language preference.
pub proof fn law_layout_outweighs_language(
    rs: Seq<RenditionInfo>,
    want_layout: Seq<char>,
    language: Option<Seq<char>>,
    k: int,
)
    requires
        0 <= k < rs.len(),
        layout_matches(rs[k], want_layout),
    ensures
        chosen_spec(rs, Some(want_layout), language) matches Some(b) && layout_matches(
            rs[b],
            want_layout,
        ),
{
    lemma_best_upto_bounds(rs, Some(want_layout), language, rs.len() as int);
    assert(score_spec(rs[k], Some(want_layout), language) >= 2);
}

/// Among renditions that fit the preferences equally well, the first one
/// is chosen: every rendition before the chosen one fits them less well,
/// and none after it fits them better.
pub proof fn law_first_best_is_chosen(
    rs: Seq<RenditionInfo>,
    layout: Option<Seq<char>>,
    language: Option<Seq<char>>,
    k: int,
)
    requires
        0 <= k < rs.len(),
        chosen_spec(rs, layout, language) is Some,
    ensures
        chosen_spec(rs, layout, language) matches Some(b) && (k < b ==> score_spec(rs[k], layout, language)
            < score_spec(rs[b], layout, language)) && score_spec(rs[k], layout, language) <= score_spec(
            rs[b],
            layout,
            language,
        ),
{
    lemma_best_upto_bounds(rs, layout, language, rs.len() as int);
}

/// The package document of the rendition that best fits the preferences;
/// the default (first) rendition when none fits any of them.
pub fn preferred_opf_path(renditions: &[RenditionInfo], layout: Option<&str>, language: Option<&str>) -> (r:
    String)
    requires
        renditions@.len() > 0,
    ensures
        r@ == match chosen_spec(renditions@, opt_chars(layout), opt_chars(language)) {
            Some(i) => renditions@[i].opf_path@,
            None => renditions@[0].opf_path@,
        },
{
    match best_rendition(renditions, layout, language) {
        Some(i) => renditions[i].opf_path.clone(),
        None => renditions[0].opf_path.clone(),
    }
}

/// The message for a rendition index past the end of the list.
pub open spec fn index_out_of_range_message(index: nat) -> Seq<char> {
    "Rendition index "@ + decimal_spec(index) + " is out of range (container has fewer rootfiles)"@
}

/// The package document of the rendition at `index` (0-based, in
/// `container.xml` order).
pub fn rendition_path_at(renditions: &[RenditionInfo], index: usize) -> (r: Result<String, EpubError>)
    ensures
        index < renditions@.len() ==> (r matches Ok(p) && p@ == renditions@[index as int].opf_path@),
        index >= renditions@.len() ==> (r matches Err(EpubError::InvalidFormat(m)) && m@
            == index_out_of_range_message(index as nat)),
{
    if index < renditions.len() {
        Ok(renditions[index].opf_path.clone())
    } else {
        let mut m = lit("Rendition index ");
        extend_chars(&mut m, &decimal_chars(index as u64));
        extend_chars(&mut m, &lit(" is out of range (container has fewer rootfiles)"));
        Err(EpubError::InvalidFormat(string_from_chars(&m)))
    }
}

} // verus!
