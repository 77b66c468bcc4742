//! Accessibility metadata: which package properties belong to it, and the
//! conformance profiles a publication can claim.
use vstd::prelude::*;
use core::cmp::Ordering;
use crate::text::{chars_of, eq_chars, trim_spec, trim_chars, string_from_chars, eq_str};

verus! {

// ── Accessibility properties ─────────────────────────────────────────────────

/// The local names (after a vocabulary prefix) of the accessibility
/// properties.
pub open spec fn is_a11y_local_name(n: Seq<char>) -> bool {
    ||| n == "conformsTo"@
    ||| n == "certifiedBy"@
    ||| n == "certifierCredential"@
    ||| n == "certifierReport"@
    ||| n == "exemption"@
    ||| n == "accessMode"@
    ||| n == "accessModeSufficient"@
    ||| n == "accessibilityFeature"@
    ||| n == "accessibilityHazard"@
    ||| n == "accessibilitySummary"@
}

/// A package property belongs to an accessibility vocabulary: it ends with
/// `:` and one of the accessibility names, whatever prefix an authoring
/// tool put before it (`schema:`, `a11y:`, `dcterms:` or a full URL).
pub open spec fn is_a11y_property_spec(p: Seq<char>) -> bool {
    exists|k: int|
        0 <= k < p.len() && p[k] == ':' && #[trigger] is_a11y_local_name(p.skip(k + 1))
}

fn is_a11y_local_name_exec(n: &[char]) -> (b: bool)
    ensures
        b == is_a11y_local_name(n@),
{
    eq_str(n, "conformsTo") || eq_str(n, "certifiedBy") || eq_str(n, "certifierCredential") || eq_str(n, "certifierReport") || eq_str(n, "exemption") || eq_str(n, "accessMode") || eq_str(n, "accessModeSufficient") || eq_str(n, "accessibilityFeature") || eq_str(n, "accessibilityHazard") || eq_str(n, "accessibilitySummary")
}

/// Whether a package property belongs to an accessibility vocabulary (see
/// [`is_a11y_property_spec`]).
pub fn is_a11y_property(p: &str) -> (b: bool)
    ensures
        b == is_a11y_property_spec(p@),
{
    let cs = chars_of(p);
    let mut k: usize = 0;
    while k < cs.len()
        invariant
            k <= cs@.len(),
            cs@ == p@,
            forall|j: int| 0 <= j < k && cs@[j] == ':' ==> !is_a11y_local_name(#[trigger] cs@.skip(j + 1)),
        decreases cs@.len() - k,
    {
        if cs[k] == ':' {
            let rest = crate::text::slice_chars(&cs, k + 1, cs.len());
            assert(rest@ =~= cs@.skip(k + 1));
            if is_a11y_local_name_exec(&rest) {
                return true;
            }
        }
        k = k + 1;
    }
    false
}

// ── Conformance profiles ─────────────────────────────────────────────────────

/// A conformance profile of the EPUB Accessibility specification, by its
/// canonical identifier.  Profiles rank by specification version, then
/// WCAG version, then WCAG level.
#[derive(Clone, Debug)]
pub struct A11yProfile(pub String);

/// `(specification version, WCAG minor version, level)` of a canonical
/// profile identifier, the level ranked 1 (A) to 3 (AAA); `None` for any
/// other text.
pub open spec fn profile_rank(s: Seq<char>) -> Option<(u8, u8, u8)> {
    if s == "http://www.idpf.org/epub/a11y/accessibility-20170105.html#wcag-a"@ {
        Some((0u8, 0u8, 1u8))
    } else if s == "http://www.idpf.org/epub/a11y/accessibility-20170105.html#wcag-aa"@ {
        Some((0u8, 0u8, 2u8))
    } else if s == "http://www.idpf.org/epub/a11y/accessibility-20170105.html#wcag-aaa"@ {
        Some((0u8, 0u8, 3u8))
    } else if s == "EPUB Accessibility 1.1 - WCAG 2.0 Level A"@ {
        Some((1u8, 0u8, 1u8))
    } else if s == "EPUB Accessibility 1.1 - WCAG 2.0 Level AA"@ {
        Some((1u8, 0u8, 2u8))
    } else if s == "EPUB Accessibility 1.1 - WCAG 2.0 Level AAA"@ {
        Some((1u8, 0u8, 3u8))
    } else if s == "EPUB Accessibility 1.1 - WCAG 2.1 Level A"@ {
        Some((1u8, 1u8, 1u8))
    } else if s == "EPUB Accessibility 1.1 - WCAG 2.1 Level AA"@ {
        Some((1u8, 1u8, 2u8))
    } else if s == "EPUB Accessibility 1.1 - WCAG 2.1 Level AAA"@ {
        Some((1u8, 1u8, 3u8))
    } else if s == "EPUB Accessibility 1.1 - WCAG 2.2 Level A"@ {
        Some((1u8, 2u8, 1u8))
    } else if s == "EPUB Accessibility 1.1 - WCAG 2.2 Level AA"@ {
        Some((1u8, 2u8, 2u8))
    } else if s == "EPUB Accessibility 1.1 - WCAG 2.2 Level AAA"@ {
        Some((1u8, 2u8, 3u8))
    } else {
        None
    }
}

fn profile_rank_exec(s: &[char]) -> (r: Option<(u8, u8, u8)>)
    ensures
        r == profile_rank(s@),
{
    if eq_str(s, "http://www.idpf.org/epub/a11y/accessibility-20170105.html#wcag-a") {
        Some((0, 0, 1))
    } else if eq_str(s, "http://www.idpf.org/epub/a11y/accessibility-20170105.html#wcag-aa") {
        Some((0, 0, 2))
    } else if eq_str(s, "http://www.idpf.org/epub/a11y/accessibility-20170105.html#wcag-aaa") {
        Some((0, 0, 3))
    } else if eq_str(s, "EPUB Accessibility 1.1 - WCAG 2.0 Level A") {
        Some((1, 0, 1))
    } else if eq_str(s, "EPUB Accessibility 1.1 - WCAG 2.0 Level AA") {
        Some((1, 0, 2))
    } else if eq_str(s, "EPUB Accessibility 1.1 - WCAG 2.0 Level AAA") {
        Some((1, 0, 3))
    } else if eq_str(s, "EPUB Accessibility 1.1 - WCAG 2.1 Level A") {
        Some((1, 1, 1))
    } else if eq_str(s, "EPUB Accessibility 1.1 - WCAG 2.1 Level AA") {
        Some((1, 1, 2))
    } else if eq_str(s, "EPUB Accessibility 1.1 - WCAG 2.1 Level AAA") {
        Some((1, 1, 3))
    } else if eq_str(s, "EPUB Accessibility 1.1 - WCAG 2.2 Level A") {
        Some((1, 2, 1))
    } else if eq_str(s, "EPUB Accessibility 1.1 - WCAG 2.2 Level AA") {
        Some((1, 2, 2))
    } else if eq_str(s, "EPUB Accessibility 1.1 - WCAG 2.2 Level AAA") {
        Some((1, 2, 3))
    } else {
        None
    }
}

/// The canonical identifier of an EPUB Accessibility 1.0 profile written
/// with `https`.
pub open spec fn https_alias(t: Seq<char>) -> Option<Seq<char>> {
    if t == "https://www.idpf.org/epub/a11y/accessibility-20170105.html#wcag-a"@ {
        Some("http://www.idpf.org/epub/a11y/accessibility-20170105.html#wcag-a"@)
    } else if t == "https://www.idpf.org/epub/a11y/accessibility-20170105.html#wcag-aa"@ {
        Some("http://www.idpf.org/epub/a11y/accessibility-20170105.html#wcag-aa"@)
    } else if t == "https://www.idpf.org/epub/a11y/accessibility-20170105.html#wcag-aaa"@ {
        Some("http://www.idpf.org/epub/a11y/accessibility-20170105.html#wcag-aaa"@)
    } else {
        None
    }
}

fn https_alias_exec(t: &[char]) -> (r: Option<&'static str>)
    ensures
        match r {
            Some(c) => https_alias(t@) == Some(c@),
            None => https_alias(t@) is None,
        },
{
    if eq_str(t, "https://www.idpf.org/epub/a11y/accessibility-20170105.html#wcag-a") {
        Some("http://www.idpf.org/epub/a11y/accessibility-20170105.html#wcag-a")
    } else if eq_str(t, "https://www.idpf.org/epub/a11y/accessibility-20170105.html#wcag-aa") {
        Some("http://www.idpf.org/epub/a11y/accessibility-20170105.html#wcag-aa")
    } else if eq_str(t, "https://www.idpf.org/epub/a11y/accessibility-20170105.html#wcag-aaa") {
        Some("http://www.idpf.org/epub/a11y/accessibility-20170105.html#wcag-aaa")
    } else {
        None
    }
}

/// The profile a `dcterms:conformsTo` value names: a canonical identifier
/// (surrounding white space ignored), or an EPUB Accessibility 1.0
/// identifier written with `https`, which names the same profile as the
/// `http` one.
pub open spec fn profile_of_value(v: Seq<char>) -> Option<Seq<char>> {
    let t = trim_spec(v);
    if profile_rank(t) is Some {
        Some(t)
    } else {
        https_alias(t)
    }
}

impl A11yProfile {
    /// EPUB Accessibility 1.0, WCAG 2.0 Level A.
    pub const A10_WCAG_20_A: &'static str = "http://www.idpf.org/epub/a11y/accessibility-20170105.html#wcag-a";

    /// EPUB Accessibility 1.0, WCAG 2.0 Level AA.
    pub const A10_WCAG_20_AA: &'static str = "http://www.idpf.org/epub/a11y/accessibility-20170105.html#wcag-aa";

    /// EPUB Accessibility 1.0, WCAG 2.0 Level AAA.
    pub const A10_WCAG_20_AAA: &'static str = "http://www.idpf.org/epub/a11y/accessibility-20170105.html#wcag-aaa";

    /// The profile that a `dcterms:conformsTo` value names, if it names one
    /// (see [`profile_of_value`]).
    pub fn from_opf_value(v: &str) -> (r: Option<A11yProfile>)
        ensures
            match profile_of_value(v@) {
                Some(p) => r matches Some(q) && q.0@ == p,
                None => r is None,
            },
    {
        let t = trim_chars(&chars_of(v));
        if profile_rank_exec(&t).is_some() {
            return Some(A11yProfile(string_from_chars(&t)));
        }
        match https_alias_exec(&t) {
            Some(c) => Some(A11yProfile(c.to_string())),
            None => None,
        }
    }

    /// A copy of this profile.
    pub fn clone_profile(&self) -> (r: A11yProfile)
        ensures
            r.0@ == self.0@,
    {
        A11yProfile(self.0.clone())
    }

    /// The rank of this profile (see [`profile_rank`]).
    pub fn rank(&self) -> (r: Option<(u8, u8, u8)>)
        ensures
            r == profile_rank(self.0@),
    {
        profile_rank_exec(&chars_of(self.0.as_str()))
    }
}

/// The lexicographic order of two ranks.
pub open spec fn rank_order(a: (u8, u8, u8), b: (u8, u8, u8)) -> Ordering {
    if a.0 < b.0 || (a.0 == b.0 && (a.1 < b.1 || (a.1 == b.1 && a.2 < b.2))) {
        Ordering::Less
    } else if a == b {
        Ordering::Equal
    } else {
        Ordering::Greater
    }
}

fn rank_order_exec(a: (u8, u8, u8), b: (u8, u8, u8)) -> (r: Ordering)
    ensures
        r == rank_order(a, b),
{
    if a.0 < b.0 || (a.0 == b.0 && (a.1 < b.1 || (a.1 == b.1 && a.2 < b.2))) {
        Ordering::Less
    } else if a.0 == b.0 && a.1 == b.1 && a.2 == b.2 {
        Ordering::Equal
    } else {
        Ordering::Greater
    }
}

impl PartialEq for A11yProfile {
    fn eq(&self, other: &Self) -> (r: bool) {
        eq_chars(&chars_of(self.0.as_str()), &chars_of(other.0.as_str()))
    }
}

impl vstd::std_specs::cmp::PartialEqSpecImpl for A11yProfile {
    open spec fn obeys_eq_spec() -> bool {
        true
    }

    open spec fn eq_spec(&self, other: &A11yProfile) -> bool {
        self.0@ == other.0@
    }
}

impl PartialOrd for A11yProfile {
    fn partial_cmp(&self, other: &Self) -> (r: Option<Ordering>) {
        match (self.rank(), other.rank()) {
            (Some(a), Some(b)) => Some(rank_order_exec(a, b)),
            _ => None,
        }
    }
}

impl vstd::std_specs::cmp::PartialOrdSpecImpl for A11yProfile {
    open spec fn obeys_partial_cmp_spec() -> bool {
        true
    }

    /// Profiles compare by rank; text that names no profile is unordered.
    open spec fn partial_cmp_spec(&self, other: &A11yProfile) -> Option<Ordering> {
        match (profile_rank(self.0@), profile_rank(other.0@)) {
            (Some(a), Some(b)) => Some(rank_order(a, b)),
            _ => None,
        }
    }
}

// ── Vocabularies ─────────────────────────────────────────────────────────────

/// A way of perceiving content (`schema:accessMode`).
#[derive(Clone, Debug, PartialEq, Eq)]
pub enum A11yAccessMode {
    /// `auditory`
    Auditory,
    /// `chartOnVisual`
    ChartOnVisual,
    /// `chemOnVisual`
    ChemOnVisual,
    /// `colorDependent`
    ColorDependent,
    /// `diagramOnTactile`
    DiagramOnTactile,
    /// `diagramOnVisual`
    DiagramOnVisual,
    /// `mathOnVisual`
    MathOnVisual,
    /// `musicOnTactile`
    MusicOnTactile,
    /// `musicOnVisual`
    MusicOnVisual,
    /// `tactile`
    Tactile,
    /// `textOnVisual`
    TextOnVisual,
    /// `textual`
    Textual,
    /// `visual`
    Visual,
    /// Any other value, as written.
    Other(String),
}

/// The A11yAccessMode that a vocabulary term names (`Other` for any other term).
pub open spec fn a11y_access_mode_of(t: Seq<char>, v: A11yAccessMode) -> bool {
    if t == "auditory"@ {
        v is Auditory
    } else if t == "chartOnVisual"@ {
        v is ChartOnVisual
    } else if t == "chemOnVisual"@ {
        v is ChemOnVisual
    } else if t == "colorDependent"@ {
        v is ColorDependent
    } else if t == "diagramOnTactile"@ {
        v is DiagramOnTactile
    } else if t == "diagramOnVisual"@ {
        v is DiagramOnVisual
    } else if t == "mathOnVisual"@ {
        v is MathOnVisual
    } else if t == "musicOnTactile"@ {
        v is MusicOnTactile
    } else if t == "musicOnVisual"@ {
        v is MusicOnVisual
    } else if t == "tactile"@ {
        v is Tactile
    } else if t == "textOnVisual"@ {
        v is TextOnVisual
    } else if t == "textual"@ {
        v is Textual
    } else if t == "visual"@ {
        v is Visual
    } else {
        v matches A11yAccessMode::Other(s) && s@ == t
    }
}

impl A11yAccessMode {
    /// The value a vocabulary term names.
    pub fn from_str(t: &str) -> (r: A11yAccessMode)
        ensures
            a11y_access_mode_of(t@, r),
    {
        let c = chars_of(t);
        if eq_str(&c, "auditory") {
            A11yAccessMode::Auditory
        } else if eq_str(&c, "chartOnVisual") {
            A11yAccessMode::ChartOnVisual
        } else if eq_str(&c, "chemOnVisual") {
            A11yAccessMode::ChemOnVisual
        } else if eq_str(&c, "colorDependent") {
            A11yAccessMode::ColorDependent
        } else if eq_str(&c, "diagramOnTactile") {
            A11yAccessMode::DiagramOnTactile
        } else if eq_str(&c, "diagramOnVisual") {
            A11yAccessMode::DiagramOnVisual
        } else if eq_str(&c, "mathOnVisual") {
            A11yAccessMode::MathOnVisual
        } else if eq_str(&c, "musicOnTactile") {
            A11yAccessMode::MusicOnTactile
        } else if eq_str(&c, "musicOnVisual") {
            A11yAccessMode::MusicOnVisual
        } else if eq_str(&c, "tactile") {
            A11yAccessMode::Tactile
        } else if eq_str(&c, "textOnVisual") {
            A11yAccessMode::TextOnVisual
        } else if eq_str(&c, "textual") {
            A11yAccessMode::Textual
        } else if eq_str(&c, "visual") {
            A11yAccessMode::Visual
        } else {
            A11yAccessMode::Other(t.to_string())
        }
    }
}

/// An access mode that suffices on its own, in a set (`schema:accessModeSufficient`).
#[derive(Clone, Debug, PartialEq, Eq)]
pub enum A11yPrimaryAccessMode {
    /// `auditory`
    Auditory,
    /// `tactile`
    Tactile,
    /// `textual`
    Textual,
    /// `visual`
    Visual,
    /// Any other value, as written.
    Other(String),
}

/// The A11yPrimaryAccessMode that a vocabulary term names (`Other` for any other term).
pub open spec fn a11y_primary_access_mode_of(t: Seq<char>, v: A11yPrimaryAccessMode) -> bool {
    if t == "auditory"@ {
        v is Auditory
    } else if t == "tactile"@ {
        v is Tactile
    } else if t == "textual"@ {
        v is Textual
    } else if t == "visual"@ {
        v is Visual
    } else {
        v matches A11yPrimaryAccessMode::Other(s) && s@ == t
    }
}

impl A11yPrimaryAccessMode {
    /// The value a vocabulary term names.
    pub fn from_str(t: &str) -> (r: A11yPrimaryAccessMode)
        ensures
            a11y_primary_access_mode_of(t@, r),
    {
        let c = chars_of(t);
        if eq_str(&c, "auditory") {
            A11yPrimaryAccessMode::Auditory
        } else if eq_str(&c, "tactile") {
            A11yPrimaryAccessMode::Tactile
        } else if eq_str(&c, "textual") {
            A11yPrimaryAccessMode::Textual
        } else if eq_str(&c, "visual") {
            A11yPrimaryAccessMode::Visual
        } else {
            A11yPrimaryAccessMode::Other(t.to_string())
        }
    }
}

/// An accessibility feature (`schema:accessibilityFeature`).
#[derive(Clone, Debug, PartialEq, Eq)]
pub enum A11yFeature {
    /// `alternativeText`
    AlternativeText,
    /// `annotations`
    Annotations,
    /// `ARIA`
    Aria,
    /// `audioDescription`
    AudioDescription,
    /// `bookmarks`
    Bookmarks,
    /// `braille`
    Braille,
    /// `captions`
    Captions,
    /// `ChemML`
    ChemMl,
    /// `describedMath`
    DescribedMath,
    /// `displayTransformability`
    DisplayTransformability,
    /// `highContrastAudio`
    HighContrastAudio,
    /// `highContrastDisplay`
    HighContrastDisplay,
    /// `index`
    Index,
    /// `largePrint`
    LargePrint,
    /// `latex`
    Latex,
    /// `longDescription`
    LongDescription,
    /// `MathML`
    MathMl,
    /// `none`
    NoneDeclared,
    /// `pageBreakMarkers`
    PageBreakMarkers,
    /// `pageNavigation`
    PageNavigation,
    /// `printPageNumbers`
    PrintPageNumbers,
    /// `readingOrder`
    ReadingOrder,
    /// `rubyAnnotations`
    RubyAnnotations,
    /// `signLanguage`
    SignLanguage,
    /// `structuralNavigation`
    StructuralNavigation,
    /// `synchronizedAudioText`
    SynchronizedAudioText,
    /// `tableOfContents`
    TableOfContents,
    /// `tactileGraphic`
    TactileGraphic,
    /// `tactileObject`
    TactileObject,
    /// `timingControl`
    TimingControl,
    /// `transcript`
    Transcript,
    /// `ttsMarkup`
    TtsMarkup,
    /// `unlocked`
    Unlocked,
    /// Any other value, as written.
    Other(String),
}

/// The A11yFeature that a vocabulary term names (`Other` for any other term).
pub open spec fn a11y_feature_of(t: Seq<char>, v: A11yFeature) -> bool {
    if t == "alternativeText"@ {
        v is AlternativeText
    } else if t == "annotations"@ {
        v is Annotations
    } else if t == "ARIA"@ {
        v is Aria
    } else if t == "audioDescription"@ {
        v is AudioDescription
    } else if t == "bookmarks"@ {
        v is Bookmarks
    } else if t == "braille"@ {
        v is Braille
    } else if t == "captions"@ {
        v is Captions
    } else if t == "ChemML"@ {
        v is ChemMl
    } else if t == "describedMath"@ {
        v is DescribedMath
    } else if t == "displayTransformability"@ {
        v is DisplayTransformability
    } else if t == "highContrastAudio"@ {
        v is HighContrastAudio
    } else if t == "highContrastDisplay"@ {
        v is HighContrastDisplay
    } else if t == "index"@ {
        v is Index
    } else if t == "largePrint"@ {
        v is LargePrint
    } else if t == "latex"@ {
        v is Latex
    } else if t == "longDescription"@ {
        v is LongDescription
    } else if t == "MathML"@ {
        v is MathMl
    } else if t == "none"@ {
        v is NoneDeclared
    } else if t == "pageBreakMarkers"@ {
        v is PageBreakMarkers
    } else if t == "pageNavigation"@ {
        v is PageNavigation
    } else if t == "printPageNumbers"@ {
        v is PrintPageNumbers
    } else if t == "readingOrder"@ {
        v is ReadingOrder
    } else if t == "rubyAnnotations"@ {
        v is RubyAnnotations
    } else if t == "signLanguage"@ {
        v is SignLanguage
    } else if t == "structuralNavigation"@ {
        v is StructuralNavigation
    } else if t == "synchronizedAudioText"@ {
        v is SynchronizedAudioText
    } else if t == "tableOfContents"@ {
        v is TableOfContents
    } else if t == "tactileGraphic"@ {
        v is TactileGraphic
    } else if t == "tactileObject"@ {
        v is TactileObject
    } else if t == "timingControl"@ {
        v is TimingControl
    } else if t == "transcript"@ {
        v is Transcript
    } else if t == "ttsMarkup"@ {
        v is TtsMarkup
    } else if t == "unlocked"@ {
        v is Unlocked
    } else {
        v matches A11yFeature::Other(s) && s@ == t
    }
}

impl A11yFeature {
    /// The value a vocabulary term names.
    pub fn from_str(t: &str) -> (r: A11yFeature)
        ensures
            a11y_feature_of(t@, r),
    {
        let c = chars_of(t);
        if eq_str(&c, "alternativeText") {
            A11yFeature::AlternativeText
        } else if eq_str(&c, "annotations") {
            A11yFeature::Annotations
        } else if eq_str(&c, "ARIA") {
            A11yFeature::Aria
        } else if eq_str(&c, "audioDescription") {
            A11yFeature::AudioDescription
        } else if eq_str(&c, "bookmarks") {
            A11yFeature::Bookmarks
        } else if eq_str(&c, "braille") {
            A11yFeature::Braille
        } else if eq_str(&c, "captions") {
            A11yFeature::Captions
        } else if eq_str(&c, "ChemML") {
            A11yFeature::ChemMl
        } else if eq_str(&c, "describedMath") {
            A11yFeature::DescribedMath
        } else if eq_str(&c, "displayTransformability") {
            A11yFeature::DisplayTransformability
        } else if eq_str(&c, "highContrastAudio") {
            A11yFeature::HighContrastAudio
        } else if eq_str(&c, "highContrastDisplay") {
            A11yFeature::HighContrastDisplay
        } else if eq_str(&c, "index") {
            A11yFeature::Index
        } else if eq_str(&c, "largePrint") {
            A11yFeature::LargePrint
        } else if eq_str(&c, "latex") {
            A11yFeature::Latex
        } else if eq_str(&c, "longDescription") {
            A11yFeature::LongDescription
        } else if eq_str(&c, "MathML") {
            A11yFeature::MathMl
        } else if eq_str(&c, "none") {
            A11yFeature::NoneDeclared
        } else if eq_str(&c, "pageBreakMarkers") {
            A11yFeature::PageBreakMarkers
        } else if eq_str(&c, "pageNavigation") {
            A11yFeature::PageNavigation
        } else if eq_str(&c, "printPageNumbers") {
            A11yFeature::PrintPageNumbers
        } else if eq_str(&c, "readingOrder") {
            A11yFeature::ReadingOrder
        } else if eq_str(&c, "rubyAnnotations") {
            A11yFeature::RubyAnnotations
        } else if eq_str(&c, "signLanguage") {
            A11yFeature::SignLanguage
        } else if eq_str(&c, "structuralNavigation") {
            A11yFeature::StructuralNavigation
        } else if eq_str(&c, "synchronizedAudioText") {
            A11yFeature::SynchronizedAudioText
        } else if eq_str(&c, "tableOfContents") {
            A11yFeature::TableOfContents
        } else if eq_str(&c, "tactileGraphic") {
            A11yFeature::TactileGraphic
        } else if eq_str(&c, "tactileObject") {
            A11yFeature::TactileObject
        } else if eq_str(&c, "timingControl") {
            A11yFeature::TimingControl
        } else if eq_str(&c, "transcript") {
            A11yFeature::Transcript
        } else if eq_str(&c, "ttsMarkup") {
            A11yFeature::TtsMarkup
        } else if eq_str(&c, "unlocked") {
            A11yFeature::Unlocked
        } else {
            A11yFeature::Other(t.to_string())
        }
    }
}

/// An accessibility hazard (`schema:accessibilityHazard`).
#[derive(Clone, Debug, PartialEq, Eq)]
pub enum A11yHazard {
    /// `flashing`
    Flashing,
    /// `noFlashingHazard`
    NoFlashingHazard,
    /// `motionSimulation`
    MotionSimulation,
    /// `noMotionSimulationHazard`
    NoMotionSimulationHazard,
    /// `sound`
    Sound,
    /// `noSoundHazard`
    NoSoundHazard,
    /// `unknown`
    Unknown,
    /// `none`
    NoneDeclared,
    /// Any other value, as written.
    Other(String),
}

/// The A11yHazard that a vocabulary term names (`Other` for any other term).
pub open spec fn a11y_hazard_of(t: Seq<char>, v: A11yHazard) -> bool {
    if t == "flashing"@ {
        v is Flashing
    } else if t == "noFlashingHazard"@ {
        v is NoFlashingHazard
    } else if t == "motionSimulation"@ {
        v is MotionSimulation
    } else if t == "noMotionSimulationHazard"@ {
        v is NoMotionSimulationHazard
    } else if t == "sound"@ {
        v is Sound
    } else if t == "noSoundHazard"@ {
        v is NoSoundHazard
    } else if t == "unknown"@ {
        v is Unknown
    } else if t == "none"@ {
        v is NoneDeclared
    } else {
        v matches A11yHazard::Other(s) && s@ == t
    }
}

impl A11yHazard {
    /// The value a vocabulary term names.
    pub fn from_str(t: &str) -> (r: A11yHazard)
        ensures
            a11y_hazard_of(t@, r),
    {
        let c = chars_of(t);
        if eq_str(&c, "flashing") {
            A11yHazard::Flashing
        } else if eq_str(&c, "noFlashingHazard") {
            A11yHazard::NoFlashingHazard
        } else if eq_str(&c, "motionSimulation") {
            A11yHazard::MotionSimulation
        } else if eq_str(&c, "noMotionSimulationHazard") {
            A11yHazard::NoMotionSimulationHazard
        } else if eq_str(&c, "sound") {
            A11yHazard::Sound
        } else if eq_str(&c, "noSoundHazard") {
            A11yHazard::NoSoundHazard
        } else if eq_str(&c, "unknown") {
            A11yHazard::Unknown
        } else if eq_str(&c, "none") {
            A11yHazard::NoneDeclared
        } else {
            A11yHazard::Other(t.to_string())
        }
    }
}

/// An exemption from accessibility requirements (`a11y:exemption`).
#[derive(Clone, Debug, PartialEq, Eq)]
pub enum A11yExemption {
    /// `eaa-disproportionate-burden`
    EaaDisproportionateBurden,
    /// `eaa-fundamental-alteration`
    EaaFundamentalAlteration,
    /// `eaa-microenterprise`
    EaaMicroenterprise,
    /// Any other value, as written.
    Other(String),
}

/// The A11yExemption that a vocabulary term names (`Other` for any other term).
pub open spec fn a11y_exemption_of(t: Seq<char>, v: A11yExemption) -> bool {
    if t == "eaa-disproportionate-burden"@ {
        v is EaaDisproportionateBurden
    } else if t == "eaa-fundamental-alteration"@ {
        v is EaaFundamentalAlteration
    } else if t == "eaa-microenterprise"@ {
        v is EaaMicroenterprise
    } else {
        v matches A11yExemption::Other(s) && s@ == t
    }
}

impl A11yExemption {
    /// The value a vocabulary term names.
    pub fn from_str(t: &str) -> (r: A11yExemption)
        ensures
            a11y_exemption_of(t@, r),
    {
        let c = chars_of(t);
        if eq_str(&c, "eaa-disproportionate-burden") {
            A11yExemption::EaaDisproportionateBurden
        } else if eq_str(&c, "eaa-fundamental-alteration") {
            A11yExemption::EaaFundamentalAlteration
        } else if eq_str(&c, "eaa-microenterprise") {
            A11yExemption::EaaMicroenterprise
        } else {
            A11yExemption::Other(t.to_string())
        }
    }
}

} // verus!
