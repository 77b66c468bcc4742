//! The accessibility metadata of a package, assembled from its
//! accessibility `<meta>` elements once the whole document has been read
//! (`refines` may point forwards or backwards).
use vstd::prelude::*;
use crate::a11y::{
    A11yAccessMode, A11yExemption, A11yFeature, A11yHazard, A11yPrimaryAccessMode, A11yProfile,
    a11y_access_mode_of, a11y_exemption_of, a11y_feature_of, a11y_hazard_of,
    a11y_primary_access_mode_of, profile_of_value, profile_rank,
};
use crate::parser::container::opt_str;
use crate::parser::opf::{A11yMetaV, RawA11yMeta, a11y_view};
use crate::path::{split_on, split_chars};
use crate::text::{chars_of, ends_with, eq_str, has_suffix, string_from_chars, trim_chars, trim_spec};

verus! {

/// Who certified the conformance claim.
#[derive(Clone, Debug)]
pub struct A11yCertification {
    pub certified_by: String,
    pub credential: Option<String>,
    pub report: Option<String>,
}

impl A11yCertification {
    /// Nothing is known of the certification.
    pub fn is_empty(&self) -> (b: bool)
        ensures
            b == (self.certified_by@.len() == 0 && self.credential is None && self.report is None),
    {
        chars_of(self.certified_by.as_str()).len() == 0 && self.credential.is_none()
            && self.report.is_none()
    }
}

/// Accessibility metadata of a publication.
#[derive(Clone, Debug)]
pub struct Accessibility {
    /// Conformance profiles, each once, by rank.
    pub conforms_to: Vec<A11yProfile>,
    pub certification: Option<A11yCertification>,
    pub access_modes: Vec<A11yAccessMode>,
    /// Each set of access modes that suffices to read the publication.
    pub access_modes_sufficient: Vec<Vec<A11yPrimaryAccessMode>>,
    pub features: Vec<A11yFeature>,
    pub hazards: Vec<A11yHazard>,
    pub summary: Option<String>,
    pub exemptions: Vec<A11yExemption>,
}

impl Accessibility {
    /// The metadata says nothing.
    pub fn is_empty(&self) -> (b: bool)
        ensures
            b == (self.conforms_to@.len() == 0 && self.certification is None
                && self.access_modes@.len() == 0 && self.access_modes_sufficient@.len() == 0
                && self.features@.len() == 0 && self.hazards@.len() == 0 && self.summary is None
                && self.exemptions@.len() == 0),
    {
        self.conforms_to.len() == 0 && self.certification.is_none() && self.access_modes.len() == 0
            && self.access_modes_sufficient.len() == 0 && self.features.len() == 0
            && self.hazards.len() == 0 && self.summary.is_none() && self.exemptions.len() == 0
    }
}

// ── Selections ───────────────────────────────────────────────────────────────

/// The property names `…:conformsTo`.
pub open spec fn is_conforms(p: Seq<char>) -> bool {
    ends_with(p, ":conformsTo"@) || p == "dcterms:conformsTo"@
}

/// The trimmed values of the metas (among the first `n`) whose property
/// ends with `suffix`, in order.
pub open spec fn values_ending(metas: Seq<A11yMetaV>, suffix: Seq<char>, n: int) -> Seq<Seq<char>>
    decreases n,
{
    if n <= 0 {
        Seq::empty()
    } else {
        let prev = values_ending(metas, suffix, n - 1);
        if ends_with(metas[n - 1].0, suffix) {
            prev.push(trim_spec(metas[n - 1].1))
        } else {
            prev
        }
    }
}

fn values_ending_exec(metas: &[RawA11yMeta], suffix: &str) -> (r: Vec<String>)
    ensures
        r@.map_values(|s: String| s@) == values_ending(a11y_view(metas@), suffix@, metas@.len() as int),
{
    let ghost mv = a11y_view(metas@);
    let mut out: Vec<String> = Vec::new();
    let mut i: usize = 0;
    assert(out@.map_values(|s: String| s@) =~= Seq::<Seq<char>>::empty());
    while i < metas.len()
        invariant
            i <= metas@.len(),
            mv == a11y_view(metas@),
            out@.map_values(|s: String| s@) == values_ending(mv, suffix@, i as int),
        decreases metas@.len() - i,
    {
        let ghost before = out@.map_values(|s: String| s@);
        if has_suffix(&chars_of(metas[i].property.as_str()), suffix) {
            let t = trim_chars(&chars_of(metas[i].value.as_str()));
            out.push(string_from_chars(&t));
            assert(out@.map_values(|s: String| s@) =~= before.push(trim_spec(metas@[i as int].value@)));
        }
        i = i + 1;
    }
    out
}

// ── Conformance ──────────────────────────────────────────────────────────────

/// The distinct profiles that the `conformsTo` metas among the first `n`
/// name, in order of first appearance.
pub open spec fn conforms_list(metas: Seq<A11yMetaV>, n: int) -> Seq<Seq<char>>
    decreases n,
{
    if n <= 0 {
        Seq::empty()
    } else {
        let prev = conforms_list(metas, n - 1);
        if is_conforms(metas[n - 1].0) {
            match profile_of_value(metas[n - 1].1) {
                Some(p) => if prev.contains(p) {
                    prev
                } else {
                    prev.push(p)
                },
                None => prev,
            }
        } else {
            prev
        }
    }
}

/// `a` ranks below `b`.
pub open spec fn ranks_below(a: Seq<char>, b: Seq<char>) -> bool {
    match (profile_rank(a), profile_rank(b)) {
        (Some(x), Some(y)) => x.0 < y.0 || (x.0 == y.0 && (x.1 < y.1 || (x.1 == y.1 && x.2 < y.2))),
        _ => false,
    }
}

/// `s` with `x` inserted before the first profile that ranks above it.
pub open spec fn insert_by_rank(s: Seq<Seq<char>>, x: Seq<char>) -> Seq<Seq<char>>
    decreases s.len(),
{
    if s.len() == 0 {
        seq![x]
    } else if ranks_below(x, s[0]) {
        seq![x] + s
    } else {
        seq![s[0]] + insert_by_rank(s.drop_first(), x)
    }
}

/// The profiles of `s` sorted by rank (stable insertion).
pub open spec fn sort_by_rank(s: Seq<Seq<char>>) -> Seq<Seq<char>>
    decreases s.len(),
{
    if s.len() == 0 {
        Seq::empty()
    } else {
        insert_by_rank(sort_by_rank(s.drop_last()), s.last())
    }
}

/// No profile of `s` ranks below one before it.
pub open spec fn rank_sorted(s: Seq<Seq<char>>) -> bool {
    forall|i: int, j: int| 0 <= i < j < s.len() ==> !ranks_below(#[trigger] s[j], #[trigger] s[i])
}

proof fn lemma_ranks_below_order(a: Seq<char>, b: Seq<char>, c: Seq<char>)
    ensures
        ranks_below(a, b) && ranks_below(b, c) ==> ranks_below(a, c),
        !(ranks_below(a, b) && ranks_below(b, a)),
{
}

proof fn lemma_insert_by_rank(s: Seq<Seq<char>>, x: Seq<char>)
    requires
        rank_sorted(s),
    ensures
        rank_sorted(insert_by_rank(s, x)),
        insert_by_rank(s, x).len() == s.len() + 1,
        forall|k: int|
            0 <= k < insert_by_rank(s, x).len() ==> #[trigger] insert_by_rank(s, x)[k] == x || s.contains(
                insert_by_rank(s, x)[k],
            ),
    decreases s.len(),
{
    let r = insert_by_rank(s, x);
    if s.len() == 0 {
    } else if ranks_below(x, s[0]) {
        assert forall|i: int, j: int| 0 <= i < j < r.len() implies !ranks_below(#[trigger] r[j], #[trigger] r[i]) by {
            if i == 0 {
                lemma_ranks_below_order(r[j], x, s[0]);
                if j - 1 > 0 {
                    assert(!ranks_below(s[j - 1], s[0]));
                }
            } else {
                assert(r[i] == s[i - 1] && r[j] == s[j - 1]);
            }
        }
        assert forall|k: int| 0 <= k < r.len() implies #[trigger] r[k] == x || s.contains(r[k]) by {
            if k > 0 {
                assert(r[k] == s[k - 1]);
            }
        }
    } else {
        let rest = s.drop_first();
        assert forall|i: int, j: int| 0 <= i < j < rest.len() implies !ranks_below(#[trigger] rest[j], #[trigger] rest[i]) by {
            assert(rest[j] == s[j + 1] && rest[i] == s[i + 1]);
        }
        lemma_insert_by_rank(rest, x);
        let t = insert_by_rank(rest, x);
        assert(r == seq![s[0]] + t);
        assert forall|i: int, j: int| 0 <= i < j < r.len() implies !ranks_below(#[trigger] r[j], #[trigger] r[i]) by {
            if i == 0 {
                assert(r[j] == t[j - 1]);
                if t[j - 1] != x {
                    let m = choose|m: int| 0 <= m < rest.len() && rest[m] == t[j - 1];
                    assert(rest[m] == s[m + 1]);
                }
            } else {
                assert(r[i] == t[i - 1] && r[j] == t[j - 1]);
            }
        }
        assert forall|k: int| 0 <= k < r.len() implies #[trigger] r[k] == x || s.contains(r[k]) by {
            if k == 0 {
                assert(s[0] == r[0]);
            } else {
                assert(r[k] == t[k - 1]);
                if t[k - 1] != x {
                    let m = choose|m: int| 0 <= m < rest.len() && rest[m] == t[k - 1];
                    assert(s[m + 1] == r[k]);
                }
            }
        }
    }
}

proof fn lemma_sort_by_rank(s: Seq<Seq<char>>)
    ensures
        rank_sorted(sort_by_rank(s)),
    decreases s.len(),
{
    if s.len() > 0 {
        lemma_sort_by_rank(s.drop_last());
        lemma_insert_by_rank(sort_by_rank(s.drop_last()), s.last());
    }
}

proof fn lemma_insert_shape(s: Seq<Seq<char>>, x: Seq<char>)
    ensures
        exists|k: int| 0 <= k <= s.len() && #[trigger] insert_by_rank(s, x) == s.take(k) + seq![x] + s.skip(k),
    decreases s.len(),
{
    let r = insert_by_rank(s, x);
    if s.len() == 0 {
        assert(r =~= s.take(0) + seq![x] + s.skip(0));
    } else if ranks_below(x, s[0]) {
        assert(r =~= s.take(0) + seq![x] + s.skip(0));
    } else {
        let rest = s.drop_first();
        lemma_insert_shape(rest, x);
        let k = choose|k: int| 0 <= k <= rest.len() && #[trigger] insert_by_rank(rest, x) == rest.take(k) + seq![x] + rest.skip(k);
        assert(r =~= s.take(k + 1) + seq![x] + s.skip(k + 1));
    }
}

proof fn lemma_sort_keeps_profiles(s: Seq<Seq<char>>)
    ensures
        forall|y: Seq<char>| #[trigger] sort_by_rank(s).contains(y) <==> s.contains(y),
        s.no_duplicates() ==> sort_by_rank(s).no_duplicates(),
    decreases s.len(),
{
    if s.len() > 0 {
        let init = s.drop_last();
        let x = s.last();
        lemma_sort_keeps_profiles(init);
        let t = sort_by_rank(init);
        lemma_insert_shape(t, x);
        let k = choose|k: int| 0 <= k <= t.len() && #[trigger] insert_by_rank(t, x) == t.take(k) + seq![x] + t.skip(k);
        let r = sort_by_rank(s);
        assert(r == insert_by_rank(t, x));
        assert(s =~= init.push(x));
        assert forall|y: Seq<char>| #[trigger] r.contains(y) <==> s.contains(y) by {
            if r.contains(y) {
                let i = choose|i: int| 0 <= i < r.len() && r[i] == y;
                if i < k {
                    assert(t[i] == y);
                } else if i > k {
                    assert(t[i - 1] == y);
                }
                if y != x {
                    assert(i != k);
                    assert(t.contains(y));
                    assert(init.contains(y));
                    let j = choose|j: int| 0 <= j < init.len() && init[j] == y;
                    assert(s[j] == y);
                } else {
                    assert(s[s.len() - 1] == y);
                }
            }
            if s.contains(y) {
                let j = choose|j: int| 0 <= j < s.len() && s[j] == y;
                if j == s.len() - 1 {
                    assert(r[k] == y);
                } else {
                    assert(init[j] == y);
                    assert(t.contains(y));
                    let i = choose|i: int| 0 <= i < t.len() && t[i] == y;
                    if i < k {
                        assert(r[i] == y);
                    } else {
                        assert(r[i + 1] == y);
                    }
                }
            }
        }
        if s.no_duplicates() {
            assert(init.no_duplicates()) by {
                assert forall|i: int, j: int| 0 <= i < init.len() && 0 <= j < init.len() && i != j implies init[i] != init[j] by {
                    assert(init[i] == s[i] && init[j] == s[j]);
                }
            }
            assert(!t.contains(x)) by {
                if init.contains(x) {
                    let j = choose|j: int| 0 <= j < init.len() && init[j] == x;
                    assert(s[j] == s[s.len() - 1]);
                }
            }
            assert forall|i: int, j: int| 0 <= i < r.len() && 0 <= j < r.len() && i != j implies r[i] != r[j] by {
                let ti = if i < k { i } else { i - 1 };
                let tj = if j < k { j } else { j - 1 };
                if i != k && j != k {
                    assert(r[i] == t[ti] && r[j] == t[tj]);
                } else if i == k {
                    assert(r[j] == t[tj]);
                } else {
                    assert(r[i] == t[ti]);
                }
            }
        }
    }
}

proof fn lemma_conforms_list_distinct(metas: Seq<A11yMetaV>, n: int)
    ensures
        conforms_list(metas, n).no_duplicates(),
    decreases n,
{
    if n > 0 {
        lemma_conforms_list_distinct(metas, n - 1);
    }
}

/// The conformance profiles of the accessibility metadata come in rank
/// order, none ranking below one listed before it, and each profile is
/// listed once.
pub proof fn law_conforms_to_in_rank_order(metas: Seq<A11yMetaV>)
    ensures
        rank_sorted(conforms_to_spec(metas)),
        conforms_to_spec(metas).no_duplicates(),
{
    let s = conforms_list(metas, metas.len() as int);
    lemma_sort_by_rank(s);
    lemma_conforms_list_distinct(metas, metas.len() as int);
    lemma_sort_keeps_profiles(s);
}

fn ranks_below_exec(a: &A11yProfile, b: &A11yProfile) -> (r: bool)
    ensures
        r == ranks_below(a.0@, b.0@),
{
    match (a.rank(), b.rank()) {
        (Some(x), Some(y)) => x.0 < y.0 || (x.0 == y.0 && (x.1 < y.1 || (x.1 == y.1 && x.2 < y.2))),
        _ => false,
    }
}

pub open spec fn profiles_view(v: Seq<A11yProfile>) -> Seq<Seq<char>> {
    v.map_values(|p: A11yProfile| p.0@)
}

fn insert_by_rank_exec(v: &mut Vec<A11yProfile>, x: A11yProfile)
    ensures
        profiles_view(final(v)@) == insert_by_rank(profiles_view(old(v)@), x.0@),
{
    let ghost s = profiles_view(v@);
    let mut i: usize = 0;
    assert(s.take(0) + insert_by_rank(s.skip(0), x.0@) =~= insert_by_rank(s, x.0@)) by {
        assert(s.skip(0) =~= s);
    }
    while i < v.len()
        invariant
            i <= v@.len(),
            v@ == old(v)@,
            s == profiles_view(v@),
            insert_by_rank(s, x.0@) == s.take(i as int) + insert_by_rank(s.skip(i as int), x.0@),
        decreases v@.len() - i,
    {
        if ranks_below_exec(&x, &v[i]) {
            proof {
                assert(s.skip(i as int)[0] == s[i as int]);
            }
            v.insert(i, x);
            proof {
                assert(profiles_view(v@) =~= s.take(i as int) + (seq![x.0@] + s.skip(i as int)));
            }
            return;
        }
        proof {
            assert(s.skip(i as int)[0] == s[i as int]);
            assert(s.skip(i as int).drop_first() =~= s.skip(i + 1));
            assert(s.take(i + 1) =~= s.take(i as int) + seq![s[i as int]]);
            assert(s.take(i as int) + insert_by_rank(s.skip(i as int), x.0@) =~= s.take(i + 1)
                + insert_by_rank(s.skip(i + 1), x.0@));
        }
        i = i + 1;
    }
    proof {
        assert(s.skip(i as int) =~= Seq::<Seq<char>>::empty());
        assert(s.take(i as int) =~= s);
    }
    v.push(x);
    assert(profiles_view(v@) =~= s + seq![x.0@]);
}

fn contains_profile(v: &Vec<A11yProfile>, p: &A11yProfile) -> (b: bool)
    ensures
        b == profiles_view(v@).contains(p.0@),
{
    let ghost s = profiles_view(v@);
    let pc = chars_of(p.0.as_str());
    let mut i: usize = 0;
    while i < v.len()
        invariant
            i <= v@.len(),
            s == profiles_view(v@),
            pc@ == p.0@,
            forall|j: int| 0 <= j < i ==> s[j] != p.0@,
        decreases v@.len() - i,
    {
        if eq_str(&pc, v[i].0.as_str()) {
            assert(s[i as int] == p.0@);
            return true;
        }
        i = i + 1;
    }
    false
}

/// The conformance profiles claimed, each once, sorted by rank.
pub open spec fn conforms_to_spec(metas: Seq<A11yMetaV>) -> Seq<Seq<char>> {
    sort_by_rank(conforms_list(metas, metas.len() as int))
}

fn conforms_to_exec(metas: &[RawA11yMeta]) -> (r: Vec<A11yProfile>)
    ensures
        profiles_view(r@) == conforms_to_spec(a11y_view(metas@)),
{
    let ghost mv = a11y_view(metas@);
    let mut found: Vec<A11yProfile> = Vec::new();
    let mut i: usize = 0;
    assert(profiles_view(found@) =~= Seq::<Seq<char>>::empty());
    while i < metas.len()
        invariant
            i <= metas@.len(),
            mv == a11y_view(metas@),
            profiles_view(found@) == conforms_list(mv, i as int),
        decreases metas@.len() - i,
    {
        let prop = chars_of(metas[i].property.as_str());
        if has_suffix(&prop, ":conformsTo") || eq_str(&prop, "dcterms:conformsTo") {
            match A11yProfile::from_opf_value(metas[i].value.as_str()) {
                Some(p) => {
                    if !contains_profile(&found, &p) {
                        let ghost before = profiles_view(found@);
                        found.push(p);
                        assert(profiles_view(found@) =~= before.push(p.0@));
                    }
                },
                None => {},
            }
        }
        i = i + 1;
    }
    let ghost list = profiles_view(found@);
    let mut sorted: Vec<A11yProfile> = Vec::new();
    let mut k: usize = 0;
    assert(profiles_view(sorted@) =~= Seq::<Seq<char>>::empty());
    assert(list.take(0) =~= Seq::<Seq<char>>::empty());
    while k < found.len()
        invariant
            k <= found@.len(),
            list == profiles_view(found@),
            profiles_view(sorted@) == sort_by_rank(list.take(k as int)),
        decreases found@.len() - k,
    {
        proof {
            assert(list.take(k + 1).drop_last() =~= list.take(k as int));
            assert(list.take(k + 1).last() == found@[k as int].0@);
        }
        insert_by_rank_exec(&mut sorted, found[k].clone_profile());
        k = k + 1;
    }
    assert(list.take(k as int) =~= list);
    sorted
}

// ── Certification ────────────────────────────────────────────────────────────

pub open spec fn is_certified_by(p: Seq<char>) -> bool {
    ends_with(p, ":certifiedBy"@) || p == "a11y:certifiedBy"@
}

pub open spec fn is_credential(p: Seq<char>) -> bool {
    ends_with(p, ":certifierCredential"@) || p == "a11y:certifierCredential"@
}

pub open spec fn is_report(p: Seq<char>) -> bool {
    ends_with(p, ":certifierReport"@) || p == "a11y:certifierReport"@
}

/// Some `conformsTo` meta has the id `id`.
pub open spec fn is_conforms_id(metas: Seq<A11yMetaV>, id: Seq<char>) -> bool {
    exists|j: int| 0 <= j < metas.len() && is_conforms((#[trigger] metas[j]).0) && metas[j].2 == Some(id)
}

/// The certifier: the first `certifiedBy` meta that stands alone or refines
/// a `conformsTo` meta (from `from` on).
pub open spec fn certifier_index(metas: Seq<A11yMetaV>, from: int) -> Option<int>
    decreases metas.len() - from,
{
    if from < 0 || from >= metas.len() {
        None
    } else if is_certified_by(metas[from].0) && match metas[from].3 {
        Some(r) => is_conforms_id(metas, r),
        None => true,
    } {
        Some(from)
    } else {
        certifier_index(metas, from + 1)
    }
}

/// The trimmed value of the first meta (from `from` on) with a property
/// that `credential` (or else report) selects and that refines `cid`.
pub open spec fn certifier_detail(metas: Seq<A11yMetaV>, credential: bool, cid: Seq<char>, from: int) -> Option<Seq<char>>
    decreases metas.len() - from,
{
    if from < 0 || from >= metas.len() {
        None
    } else if (if credential {
        is_credential(metas[from].0)
    } else {
        is_report(metas[from].0)
    }) && metas[from].3 == Some(cid) {
        Some(trim_spec(metas[from].1))
    } else {
        certifier_detail(metas, credential, cid, from + 1)
    }
}

/// The certification: (certifier, credential, report), unless nothing is
/// known of it.
pub open spec fn certification_spec(metas: Seq<A11yMetaV>) -> Option<(Seq<char>, Option<Seq<char>>, Option<Seq<char>>)> {
    match certifier_index(metas, 0) {
        Some(k) => {
            let by = trim_spec(metas[k].1);
            let (cred, rep) = match metas[k].2 {
                Some(cid) => (certifier_detail(metas, true, cid, 0), certifier_detail(metas, false, cid, 0)),
                None => (None, None),
            };
            if by.len() == 0 && cred is None && rep is None {
                None
            } else {
                Some((by, cred, rep))
            }
        },
        None => None,
    }
}

fn is_conforms_id_exec(metas: &[RawA11yMeta], id: &str) -> (b: bool)
    ensures
        b == is_conforms_id(a11y_view(metas@), id@),
{
    let ghost mv = a11y_view(metas@);
    let mut j: usize = 0;
    while j < metas.len()
        invariant
            j <= metas@.len(),
            mv == a11y_view(metas@),
            forall|k: int| 0 <= k < j ==> !(is_conforms((#[trigger] mv[k]).0) && mv[k].2 == Some(id@)),
        decreases metas@.len() - j,
    {
        let prop = chars_of(metas[j].property.as_str());
        let conf = has_suffix(&prop, ":conformsTo") || eq_str(&prop, "dcterms:conformsTo");
        let same = match &metas[j].id {
            Some(i) => eq_str(&chars_of(i.as_str()), id),
            None => false,
        };
        if conf && same {
            assert(is_conforms(mv[j as int].0) && mv[j as int].2 == Some(id@));
            return true;
        }
        j = j + 1;
    }
    false
}

fn certifier_detail_exec(metas: &[RawA11yMeta], credential: bool, cid: &str) -> (r: Option<String>)
    ensures
        opt_str(r) == certifier_detail(a11y_view(metas@), credential, cid@, 0),
{
    let ghost mv = a11y_view(metas@);
    let mut j: usize = 0;
    while j < metas.len()
        invariant
            j <= metas@.len(),
            mv == a11y_view(metas@),
            certifier_detail(mv, credential, cid@, 0) == certifier_detail(mv, credential, cid@, j as int),
        decreases metas@.len() - j,
    {
        let prop = chars_of(metas[j].property.as_str());
        let kind = if credential {
            has_suffix(&prop, ":certifierCredential") || eq_str(&prop, "a11y:certifierCredential")
        } else {
            has_suffix(&prop, ":certifierReport") || eq_str(&prop, "a11y:certifierReport")
        };
        let refines = match &metas[j].refines {
            Some(r) => eq_str(&chars_of(r.as_str()), cid),
            None => false,
        };
        if kind && refines {
            let t = trim_chars(&chars_of(metas[j].value.as_str()));
            return Some(string_from_chars(&t));
        }
        j = j + 1;
    }
    None
}

fn certification_exec(metas: &[RawA11yMeta]) -> (r: Option<A11yCertification>)
    ensures
        match r {
            Some(c) => certification_spec(a11y_view(metas@)) == Some(
                (c.certified_by@, opt_str(c.credential), opt_str(c.report)),
            ),
            None => certification_spec(a11y_view(metas@)) is None,
        },
{
    let ghost mv = a11y_view(metas@);
    let mut k: usize = 0;
    while k < metas.len()
        invariant
            k <= metas@.len(),
            mv == a11y_view(metas@),
            certifier_index(mv, 0) == certifier_index(mv, k as int),
        decreases metas@.len() - k,
    {
        let prop = chars_of(metas[k].property.as_str());
        let is_cb = has_suffix(&prop, ":certifiedBy") || eq_str(&prop, "a11y:certifiedBy");
        let ok = match &metas[k].refines {
            Some(r) => is_conforms_id_exec(metas, r.as_str()),
            None => true,
        };
        if is_cb && ok {
            let by = string_from_chars(&trim_chars(&chars_of(metas[k].value.as_str())));
            let (credential, report) = match &metas[k].id {
                Some(cid) => (
                    certifier_detail_exec(metas, true, cid.as_str()),
                    certifier_detail_exec(metas, false, cid.as_str()),
                ),
                None => (None, None),
            };
            let cert = A11yCertification { certified_by: by, credential, report };
            if cert.is_empty() {
                return None;
            } else {
                return Some(cert);
            }
        }
        k = k + 1;
    }
    None
}

// ── Vocabulary lists ─────────────────────────────────────────────────────────

/// The trimmed, non-empty, comma-separated entries of `s`, among the first `n` pieces.
pub open spec fn comma_entries(pieces: Seq<Seq<char>>, n: int) -> Seq<Seq<char>>
    decreases n,
{
    if n <= 0 {
        Seq::empty()
    } else {
        let prev = comma_entries(pieces, n - 1);
        if trim_spec(pieces[n - 1]).len() > 0 {
            prev.push(trim_spec(pieces[n - 1]))
        } else {
            prev
        }
    }
}

/// The access-mode sets of the `accessModeSufficient` metas among the first
/// `n`: each meta's non-empty comma-separated entries, when it has any.
pub open spec fn sufficient_sets(metas: Seq<A11yMetaV>, n: int) -> Seq<Seq<Seq<char>>>
    decreases n,
{
    if n <= 0 {
        Seq::empty()
    } else {
        let prev = sufficient_sets(metas, n - 1);
        let pieces = split_on(metas[n - 1].1, ',');
        let set = comma_entries(pieces, pieces.len() as int);
        if ends_with(metas[n - 1].0, ":accessModeSufficient"@) && set.len() > 0 {
            prev.push(set)
        } else {
            prev
        }
    }
}

fn comma_entries_exec(value: &str) -> (r: Vec<String>)
    ensures
        r@.map_values(|s: String| s@) == comma_entries(split_on(value@, ','), split_on(value@, ',').len() as int),
{
    let pieces = split_chars(&chars_of(value), ',');
    let ghost pv = pieces@.map_values(|x: Vec<char>| x@);
    let mut out: Vec<String> = Vec::new();
    let mut i: usize = 0;
    assert(out@.map_values(|s: String| s@) =~= Seq::<Seq<char>>::empty());
    while i < pieces.len()
        invariant
            i <= pieces@.len(),
            pv == pieces@.map_values(|x: Vec<char>| x@),
            pv == split_on(value@, ','),
            out@.map_values(|s: String| s@) == comma_entries(pv, i as int),
        decreases pieces@.len() - i,
    {
        let t = trim_chars(&pieces[i]);
        let ghost before = out@.map_values(|s: String| s@);
        if t.len() > 0 {
            out.push(string_from_chars(&t));
            assert(out@.map_values(|s: String| s@) =~= before.push(trim_spec(pv[i as int])));
        }
        i = i + 1;
    }
    out
}

/// `r` lists, in order, the values that the vocabulary terms `t` name.
pub open spec fn access_modes_of(t: Seq<Seq<char>>, r: Seq<A11yAccessMode>) -> bool {
    r.len() == t.len() && forall|k: int| 0 <= k < t.len() ==> a11y_access_mode_of(t[k], #[trigger] r[k])
}

pub open spec fn primary_modes_of(t: Seq<Seq<char>>, r: Seq<A11yPrimaryAccessMode>) -> bool {
    r.len() == t.len() && forall|k: int| 0 <= k < t.len() ==> a11y_primary_access_mode_of(t[k], #[trigger] r[k])
}

pub open spec fn features_of(t: Seq<Seq<char>>, r: Seq<A11yFeature>) -> bool {
    r.len() == t.len() && forall|k: int| 0 <= k < t.len() ==> a11y_feature_of(t[k], #[trigger] r[k])
}

pub open spec fn hazards_of(t: Seq<Seq<char>>, r: Seq<A11yHazard>) -> bool {
    r.len() == t.len() && forall|k: int| 0 <= k < t.len() ==> a11y_hazard_of(t[k], #[trigger] r[k])
}

pub open spec fn exemptions_of(t: Seq<Seq<char>>, r: Seq<A11yExemption>) -> bool {
    r.len() == t.len() && forall|k: int| 0 <= k < t.len() ==> a11y_exemption_of(t[k], #[trigger] r[k])
}

fn access_modes_exec(t: &Vec<String>) -> (r: Vec<A11yAccessMode>)
    ensures
        access_modes_of(t@.map_values(|s: String| s@), r@),
{
    let mut out: Vec<A11yAccessMode> = Vec::new();
    let mut i: usize = 0;
    while i < t.len()
        invariant
            i <= t@.len(),
            out@.len() == i,
            forall|k: int| 0 <= k < i ==> a11y_access_mode_of(t@[k]@, #[trigger] out@[k]),
        decreases t@.len() - i,
    {
        out.push(A11yAccessMode::from_str(t[i].as_str()));
        i = i + 1;
    }
    out
}

fn primary_modes_exec(t: &Vec<String>) -> (r: Vec<A11yPrimaryAccessMode>)
    ensures
        primary_modes_of(t@.map_values(|s: String| s@), r@),
{
    let mut out: Vec<A11yPrimaryAccessMode> = Vec::new();
    let mut i: usize = 0;
    while i < t.len()
        invariant
            i <= t@.len(),
            out@.len() == i,
            forall|k: int| 0 <= k < i ==> a11y_primary_access_mode_of(t@[k]@, #[trigger] out@[k]),
        decreases t@.len() - i,
    {
        out.push(A11yPrimaryAccessMode::from_str(t[i].as_str()));
        i = i + 1;
    }
    out
}

fn features_exec(t: &Vec<String>) -> (r: Vec<A11yFeature>)
    ensures
        features_of(t@.map_values(|s: String| s@), r@),
{
    let mut out: Vec<A11yFeature> = Vec::new();
    let mut i: usize = 0;
    while i < t.len()
        invariant
            i <= t@.len(),
            out@.len() == i,
            forall|k: int| 0 <= k < i ==> a11y_feature_of(t@[k]@, #[trigger] out@[k]),
        decreases t@.len() - i,
    {
        out.push(A11yFeature::from_str(t[i].as_str()));
        i = i + 1;
    }
    out
}

fn hazards_exec(t: &Vec<String>) -> (r: Vec<A11yHazard>)
    ensures
        hazards_of(t@.map_values(|s: String| s@), r@),
{
    let mut out: Vec<A11yHazard> = Vec::new();
    let mut i: usize = 0;
    while i < t.len()
        invariant
            i <= t@.len(),
            out@.len() == i,
            forall|k: int| 0 <= k < i ==> a11y_hazard_of(t@[k]@, #[trigger] out@[k]),
        decreases t@.len() - i,
    {
        out.push(A11yHazard::from_str(t[i].as_str()));
        i = i + 1;
    }
    out
}

fn exemptions_exec(t: &Vec<String>) -> (r: Vec<A11yExemption>)
    ensures
        exemptions_of(t@.map_values(|s: String| s@), r@),
{
    let mut out: Vec<A11yExemption> = Vec::new();
    let mut i: usize = 0;
    while i < t.len()
        invariant
            i <= t@.len(),
            out@.len() == i,
            forall|k: int| 0 <= k < i ==> a11y_exemption_of(t@[k]@, #[trigger] out@[k]),
        decreases t@.len() - i,
    {
        out.push(A11yExemption::from_str(t[i].as_str()));
        i = i + 1;
    }
    out
}

/// The values of the exemption metas: property ending with `:exemption`
/// (`a11y:exemption` among them).
pub open spec fn exemption_values(metas: Seq<A11yMetaV>) -> Seq<Seq<char>> {
    values_ending(metas, ":exemption"@, metas.len() as int)
}

/// `a` is the accessibility metadata that the metas say.
pub open spec fn accessibility_of(metas: Seq<A11yMetaV>, a: Accessibility) -> bool {
    let n = metas.len() as int;
    &&& profiles_view(a.conforms_to@) == conforms_to_spec(metas)
    &&& match a.certification {
        Some(c) => certification_spec(metas) == Some((c.certified_by@, opt_str(c.credential), opt_str(c.report))),
        None => certification_spec(metas) is None,
    }
    &&& access_modes_of(values_ending(metas, ":accessMode"@, n), a.access_modes@)
    &&& a.access_modes_sufficient@.len() == sufficient_sets(metas, n).len()
    &&& forall|k: int|
        0 <= k < a.access_modes_sufficient@.len() ==> primary_modes_of(
            sufficient_sets(metas, n)[k],
            (#[trigger] a.access_modes_sufficient@[k])@,
        )
    &&& features_of(values_ending(metas, ":accessibilityFeature"@, n), a.features@)
    &&& hazards_of(values_ending(metas, ":accessibilityHazard"@, n), a.hazards@)
    &&& opt_str(a.summary) == if values_ending(metas, ":accessibilitySummary"@, n).len() > 0 {
        Some(values_ending(metas, ":accessibilitySummary"@, n)[0])
    } else {
        None
    }
    &&& exemptions_of(exemption_values(metas), a.exemptions@)
}

/// The metas say nothing of accessibility.
pub open spec fn says_nothing(metas: Seq<A11yMetaV>) -> bool {
    let n = metas.len() as int;
    &&& conforms_to_spec(metas).len() == 0
    &&& certification_spec(metas) is None
    &&& values_ending(metas, ":accessMode"@, n).len() == 0
    &&& sufficient_sets(metas, n).len() == 0
    &&& values_ending(metas, ":accessibilityFeature"@, n).len() == 0
    &&& values_ending(metas, ":accessibilityHazard"@, n).len() == 0
    &&& values_ending(metas, ":accessibilitySummary"@, n).len() == 0
    &&& exemption_values(metas).len() == 0
}

fn sufficient_sets_exec(metas: &[RawA11yMeta]) -> (r: Vec<Vec<A11yPrimaryAccessMode>>)
    ensures
        r@.len() == sufficient_sets(a11y_view(metas@), metas@.len() as int).len(),
        forall|k: int|
            0 <= k < r@.len() ==> primary_modes_of(
                sufficient_sets(a11y_view(metas@), metas@.len() as int)[k],
                (#[trigger] r@[k])@,
            ),
{
    let ghost mv = a11y_view(metas@);
    let mut out: Vec<Vec<A11yPrimaryAccessMode>> = Vec::new();
    let mut i: usize = 0;
    while i < metas.len()
        invariant
            i <= metas@.len(),
            mv == a11y_view(metas@),
            out@.len() == sufficient_sets(mv, i as int).len(),
            forall|k: int|
                0 <= k < out@.len() ==> primary_modes_of(
                    sufficient_sets(mv, i as int)[k],
                    (#[trigger] out@[k])@,
                ),
        decreases metas@.len() - i,
    {
        if has_suffix(&chars_of(metas[i].property.as_str()), ":accessModeSufficient") {
            let entries = comma_entries_exec(metas[i].value.as_str());
            if entries.len() > 0 {
                let set = primary_modes_exec(&entries);
                let ghost before = out@;
                out.push(set);
                proof {
                    assert forall|k: int| 0 <= k < out@.len() implies primary_modes_of(
                        sufficient_sets(mv, i + 1)[k],
                        (#[trigger] out@[k])@,
                    ) by {
                        if k < before.len() {
                            assert(out@[k] == before[k]);
                        }
                    }
                }
            }
        }
        i = i + 1;
    }
    out
}

/// The accessibility metadata that a package's accessibility metas say, or
/// `None` when they say nothing (see [`accessibility_of`]).
pub fn build_accessibility(metas: &[RawA11yMeta]) -> (r: Option<Accessibility>)
    ensures
        match r {
            Some(a) => accessibility_of(a11y_view(metas@), a) && !says_nothing(a11y_view(metas@)),
            None => says_nothing(a11y_view(metas@)),
        },
{
    let conforms_to = conforms_to_exec(metas);
    let certification = certification_exec(metas);
    let access_modes = access_modes_exec(&values_ending_exec(metas, ":accessMode"));
    let access_modes_sufficient = sufficient_sets_exec(metas);
    let features = features_exec(&values_ending_exec(metas, ":accessibilityFeature"));
    let hazards = hazards_exec(&values_ending_exec(metas, ":accessibilityHazard"));
    let summaries = values_ending_exec(metas, ":accessibilitySummary");
    let summary = if summaries.len() > 0 {
        Some(summaries[0].clone())
    } else {
        None
    };
    let exemptions = exemptions_exec(&values_ending_exec(metas, ":exemption"));
    let a = Accessibility {
        conforms_to,
        certification,
        access_modes,
        access_modes_sufficient,
        features,
        hazards,
        summary,
        exemptions,
    };
    if a.is_empty() {
        None
    } else {
        Some(a)
    }
}

} // verus!
