//! EPUB Canonical Fragment Identifiers (`epubcfi(...)`): the step model,
//! parsing, and the spine-level CFIs that reading positions are built on.
//!
//! Grammar handled here:
//! `epubcfi(` path [`,` local `,` local] `)` where a path is steps, an
//! optional `!` with further steps, and an optional `:offset`; a step is
//! `/N` with an optional `[assertion]`.
use vstd::prelude::*;
use crate::text::{starts_with, is_digit, digits_value, all_digits, chars_of, slice_chars, string_from_chars, parse_u32_digits, decimal_spec, extend_chars, lit, has_prefix};

verus! {

/// One `/N[assertion]` step.
#[derive(Clone, Debug)]
pub struct CfiStep {
    pub index: u32,
    pub assertion: Option<String>,
}

/// A location path: spine-level steps, optional local steps after `!`, and
/// an optional character offset.
#[derive(Clone, Debug)]
pub struct CfiPath {
    pub steps: Vec<CfiStep>,
    pub local_steps: Option<Vec<CfiStep>>,
    pub character_offset: Option<u32>,
}

/// A point or a range CFI.
#[derive(Clone, Debug)]
pub enum EpubCfi {
    Point(CfiPath),
    Range { parent: CfiPath, start: CfiPath, end: CfiPath },
}

/// Why a CFI string was refused.
#[derive(Clone, Copy, Debug, PartialEq, Eq)]
pub enum CfiError {
    /// The text is not a well-formed `epubcfi(...)`.
    Malformed,
}

// ── Views ────────────────────────────────────────────────────────────────────

/// A step as values.
pub struct StepView {
    pub index: nat,
    pub assertion: Option<Seq<char>>,
}

/// A path as values.
pub struct PathView {
    pub steps: Seq<StepView>,
    pub local_steps: Option<Seq<StepView>>,
    pub character_offset: Option<nat>,
}

/// A CFI as values.
pub enum CfiView {
    Point(PathView),
    Range { parent: PathView, start: PathView, end: PathView },
}

pub open spec fn step_view(st: CfiStep) -> StepView {
    StepView {
        index: st.index as nat,
        assertion: match st.assertion {
            Some(a) => Some(a@),
            None => None,
        },
    }
}

pub open spec fn steps_view(v: Seq<CfiStep>) -> Seq<StepView> {
    v.map_values(|st: CfiStep| step_view(st))
}

pub open spec fn path_view(p: CfiPath) -> PathView {
    PathView {
        steps: steps_view(p.steps@),
        local_steps: match p.local_steps {
            Some(l) => Some(steps_view(l@)),
            None => None,
        },
        character_offset: match p.character_offset {
            Some(o) => Some(o as nat),
            None => None,
        },
    }
}

pub open spec fn cfi_view(c: EpubCfi) -> CfiView {
    match c {
        EpubCfi::Point(p) => CfiView::Point(path_view(p)),
        EpubCfi::Range { parent, start, end } => CfiView::Range {
            parent: path_view(parent),
            start: path_view(start),
            end: path_view(end),
        },
    }
}

// ── Grammar ──────────────────────────────────────────────────────────────────

/// End of the run of decimal digits that starts at `i`.
pub open spec fn digits_end(s: Seq<char>, i: int) -> int
    decreases s.len() - i,
{
    if 0 <= i < s.len() && is_digit(s[i]) {
        digits_end(s, i + 1)
    } else {
        i
    }
}

/// First offset at or after `i` holding `c`, or the end.
pub open spec fn char_from(s: Seq<char>, i: int, c: char) -> int
    decreases s.len() - i,
{
    if 0 <= i < s.len() && s[i] != c {
        char_from(s, i + 1, c)
    } else {
        i
    }
}

/// The step that starts at offset `i`, and where it ends.
pub open spec fn parse_step_spec(s: Seq<char>, i: int) -> Option<(StepView, int)> {
    if 0 <= i < s.len() && s[i] == '/' {
        let d = digits_end(s, i + 1);
        let n = digits_value(s.subrange(i + 1, d));
        if d == i + 1 || n > u32::MAX {
            None
        } else if d < s.len() && s[d] == '[' {
            let close = char_from(s, d + 1, ']');
            if close < s.len() {
                Some((StepView { index: n, assertion: Some(s.subrange(d + 1, close)) }, close + 1))
            } else {
                None
            }
        } else {
            Some((StepView { index: n, assertion: None }, d))
        }
    } else {
        None
    }
}

pub proof fn lemma_digits_end(s: Seq<char>, i: int)
    requires
        0 <= i,
    ensures
        i <= digits_end(s, i),
        i <= s.len() ==> digits_end(s, i) <= s.len(),
        all_digits(s.subrange(i, digits_end(s, i))) || i > s.len(),
        digits_end(s, i) < s.len() ==> !is_digit(s[digits_end(s, i)]),
    decreases s.len() - i,
{
    if 0 <= i < s.len() && is_digit(s[i]) {
        lemma_digits_end(s, i + 1);
        let d = digits_end(s, i);
        assert forall|k: int| 0 <= k < d - i implies is_digit(#[trigger] s.subrange(i, d)[k]) by {
            if k > 0 {
                assert(s.subrange(i, d)[k] == s.subrange(i + 1, d)[k - 1]);
            }
        }
    }
}

pub proof fn lemma_char_from(s: Seq<char>, i: int, c: char)
    requires
        0 <= i,
    ensures
        i <= char_from(s, i, c),
        i <= s.len() ==> char_from(s, i, c) <= s.len(),
        char_from(s, i, c) < s.len() ==> s[char_from(s, i, c)] == c,
    decreases s.len() - i,
{
    if 0 <= i < s.len() && s[i] != c {
        lemma_char_from(s, i + 1, c);
    }
}

pub proof fn lemma_step_advances(s: Seq<char>, i: int)
    requires
        0 <= i,
    ensures
        match parse_step_spec(s, i) {
            Some((st, j)) => i < j <= s.len(),
            None => true,
        },
{
    if 0 <= i < s.len() && s[i] == '/' {
        lemma_digits_end(s, i + 1);
        let d = digits_end(s, i + 1);
        if d < s.len() && s[d] == '[' {
            lemma_char_from(s, d + 1, ']');
        }
    }
}

/// The steps that follow each other from offset `i`, and where they end.
pub open spec fn parse_steps_spec(s: Seq<char>, i: int) -> (Seq<StepView>, int)
    decreases s.len() - i,
{
    if i < 0 {
        (Seq::empty(), i)
    } else {
        match parse_step_spec(s, i) {
            Some((st, j)) => {
                proof {
                    lemma_step_advances(s, i);
                }
                (seq![st] + parse_steps_spec(s, j).0, parse_steps_spec(s, j).1)
            },
            None => (Seq::empty(), i),
        }
    }
}

/// An optional `:offset` at `i`: the offset, and where it ends; `None`
/// when a `:` is not followed by a number that fits in `u32`.
pub open spec fn parse_offset_spec(s: Seq<char>, i: int) -> Option<(Option<nat>, int)> {
    if 0 <= i < s.len() && s[i] == ':' {
        let d = digits_end(s, i + 1);
        let n = digits_value(s.subrange(i + 1, d));
        if d == i + 1 || n > u32::MAX {
            None
        } else {
            Some((Some(n), d))
        }
    } else {
        Some((None, i))
    }
}

/// The path at offset `i` (with local steps after `!` when `with_local`),
/// and where it ends.
pub open spec fn parse_path_spec(s: Seq<char>, i: int, with_local: bool) -> Option<(PathView, int)> {
    let (steps, j) = parse_steps_spec(s, i);
    if steps.len() == 0 {
        None
    } else {
        let has_local = with_local && 0 <= j < s.len() && s[j] == '!';
        let local = if has_local {
            Some(parse_steps_spec(s, j + 1).0)
        } else {
            None
        };
        let k = if has_local {
            parse_steps_spec(s, j + 1).1
        } else {
            j
        };
        match parse_offset_spec(s, k) {
            None => None,
            Some((off, m)) => Some(
                (PathView { steps: steps, local_steps: local, character_offset: off }, m),
            ),
        }
    }
}

/// What a CFI string denotes, if it is well-formed.
pub open spec fn parse_cfi_spec(s: Seq<char>) -> Option<CfiView> {
    let body_end = s.len() - 1;
    if !starts_with(s, "epubcfi("@) || s.len() < 9 || s.last() != ')' {
        None
    } else {
        match parse_path_spec(s, 8, true) {
            None => None,
            Some((p, j)) => if j == body_end {
                Some(CfiView::Point(p))
            } else if 0 <= j < s.len() && s[j] == ',' {
                match parse_path_spec(s, j + 1, false) {
                    None => None,
                    Some((a, k)) => if 0 <= k < body_end && s[k] == ',' {
                        match parse_path_spec(s, k + 1, false) {
                            Some((b, m)) => if m == body_end {
                                Some(CfiView::Range { parent: p, start: a, end: b })
                            } else {
                                None
                            },
                            None => None,
                        }
                    } else {
                        None
                    },
                }
            } else {
                None
            },
        }
    }
}

// ── Parsing ──────────────────────────────────────────────────────────────────

fn digits_end_exec(s: &[char], i: usize) -> (r: usize)
    requires
        i <= s@.len(),
    ensures
        r == digits_end(s@, i as int),
        i <= r <= s@.len(),
{
    let mut k = i;
    while k < s.len() && '0' <= s[k] && s[k] <= '9'
        invariant
            i <= k <= s@.len(),
            digits_end(s@, i as int) == digits_end(s@, k as int),
        decreases s@.len() - k,
    {
        k = k + 1;
    }
    k
}

fn char_from_exec(s: &[char], i: usize, c: char) -> (r: usize)
    requires
        i <= s@.len(),
    ensures
        r == char_from(s@, i as int, c),
        i <= r <= s@.len(),
{
    let mut k = i;
    while k < s.len() && s[k] != c
        invariant
            i <= k <= s@.len(),
            char_from(s@, i as int, c) == char_from(s@, k as int, c),
        decreases s@.len() - k,
    {
        k = k + 1;
    }
    k
}

/// The step at offset `i`, and where it ends.
fn parse_step(s: &[char], i: usize) -> (r: Option<(CfiStep, usize)>)
    requires
        i <= s@.len(),
    ensures
        match r {
            Some((st, j)) => parse_step_spec(s@, i as int) == Some((step_view(st), j as int)),
            None => parse_step_spec(s@, i as int) is None,
        },
{
    if i < s.len() && s[i] == '/' {
        let d = digits_end_exec(s, i + 1);
        proof {
            lemma_digits_end(s@, i + 1);
        }
        if d == i + 1 {
            return None;
        }
        let n = match parse_u32_digits(s, i + 1, d) {
            Some(n) => n,
            None => {
                return None;
            },
        };
        if d < s.len() && s[d] == '[' {
            let close = char_from_exec(s, d + 1, ']');
            if close < s.len() {
                let a = slice_chars(s, d + 1, close);
                let st = CfiStep { index: n, assertion: Some(string_from_chars(&a)) };
                Some((st, close + 1))
            } else {
                None
            }
        } else {
            Some((CfiStep { index: n, assertion: None }, d))
        }
    } else {
        None
    }
}

/// The steps from offset `i`, and where they end.
fn parse_steps(s: &[char], i: usize) -> (r: (Vec<CfiStep>, usize))
    requires
        i <= s@.len(),
    ensures
        (steps_view(r.0@), r.1 as int) == parse_steps_spec(s@, i as int),
        i <= r.1 <= s@.len(),
{
    let mut steps: Vec<CfiStep> = Vec::new();
    let mut k = i;
    let mut done = false;
    assert(steps_view(steps@) + parse_steps_spec(s@, i as int).0 =~= parse_steps_spec(
        s@,
        i as int,
    ).0);
    while !done
        invariant
            i <= k <= s@.len(),
            steps_view(steps@) + parse_steps_spec(s@, k as int).0 == parse_steps_spec(
                s@,
                i as int,
            ).0,
            parse_steps_spec(s@, k as int).1 == parse_steps_spec(s@, i as int).1,
            done ==> parse_step_spec(s@, k as int) is None,
        decreases s@.len() - k + (if done { 0int } else { 1int }),
    {
        proof {
            lemma_step_advances(s@, k as int);
        }
        match parse_step(s, k) {
            Some((st, j)) => {
                let ghost before = steps@;
                steps.push(st);
                proof {
                    assert(steps_view(steps@) =~= steps_view(before).push(step_view(st)));
                    assert(steps_view(before) + (seq![step_view(st)] + parse_steps_spec(
                        s@,
                        j as int,
                    ).0) =~= steps_view(steps@) + parse_steps_spec(s@, j as int).0);
                }
                k = j;
            },
            None => {
                done = true;
            },
        }
    }
    assert(steps_view(steps@) + Seq::<StepView>::empty() =~= steps_view(steps@));
    (steps, k)
}

/// An optional `:offset` at `i`.
fn parse_offset(s: &[char], i: usize) -> (r: Option<(Option<u32>, usize)>)
    requires
        i <= s@.len(),
    ensures
        match r {
            Some((off, j)) => parse_offset_spec(s@, i as int) == Some(
                (
                    match off {
                        Some(o) => Some(o as nat),
                        None => None::<nat>,
                    },
                    j as int,
                ),
            ) && i <= j <= s@.len(),
            None => parse_offset_spec(s@, i as int) is None,
        },
{
    if i < s.len() && s[i] == ':' {
        let d = digits_end_exec(s, i + 1);
        proof {
            lemma_digits_end(s@, i + 1);
        }
        if d == i + 1 {
            return None;
        }
        match parse_u32_digits(s, i + 1, d) {
            Some(n) => Some((Some(n), d)),
            None => None,
        }
    } else {
        Some((None, i))
    }
}

/// The path at offset `i`, and where it ends.
fn parse_path(s: &[char], i: usize, with_local: bool) -> (r: Option<(CfiPath, usize)>)
    requires
        i <= s@.len(),
    ensures
        match r {
            Some((p, j)) => parse_path_spec(s@, i as int, with_local) == Some(
                (path_view(p), j as int),
            ) && j <= s@.len(),
            None => parse_path_spec(s@, i as int, with_local) is None,
        },
{
    let (steps, j) = parse_steps(s, i);
    if steps.len() == 0 {
        return None;
    }
    let has_local = with_local && j < s.len() && s[j] == '!';
    let (local, k) = if has_local {
        let (ls, k) = parse_steps(s, j + 1);
        (Some(ls), k)
    } else {
        (None, j)
    };
    match parse_offset(s, k) {
        None => None,
        Some((off, m)) => {
            let p = CfiPath { steps: steps, local_steps: local, character_offset: off };
            Some((p, m))
        },
    }
}

/// Parses an `epubcfi(...)` string.
pub fn parse_cfi(s: &str) -> (r: Result<EpubCfi, CfiError>)
    ensures
        match r {
            Ok(c) => parse_cfi_spec(s@) == Some(cfi_view(c)),
            Err(_) => parse_cfi_spec(s@) is None,
        },
{
    let cs = chars_of(s);
    if !has_prefix(&cs, "epubcfi(") || cs.len() < 9 || cs[cs.len() - 1] != ')' {
        return Err(CfiError::Malformed);
    }
    proof {
        reveal_strlit("epubcfi(");
    }
    let body_end = cs.len() - 1;
    let (p, j) = match parse_path(&cs, 8, true) {
        Some(x) => x,
        None => {
            return Err(CfiError::Malformed);
        },
    };
    if j == body_end {
        return Ok(EpubCfi::Point(p));
    }
    if j < cs.len() && cs[j] == ',' {
        let (a, k) = match parse_path(&cs, j + 1, false) {
            Some(x) => x,
            None => {
                return Err(CfiError::Malformed);
            },
        };
        if k < body_end && cs[k] == ',' {
            let (b, m) = match parse_path(&cs, k + 1, false) {
                Some(x) => x,
                None => {
                    return Err(CfiError::Malformed);
                },
            };
            if m == body_end {
                return Ok(EpubCfi::Range { parent: p, start: a, end: b });
            }
        }
    }
    Err(CfiError::Malformed)
}

// ── Building ─────────────────────────────────────────────────────────────────

/// The spine-level CFI of spine item `spine_index` (0-based) with id
/// `idref`: `/6/N[idref]!` with `N = (spine_index + 1) * 2`.
pub open spec fn spine_base_cfi_spec(spine_index: nat, idref: Seq<char>) -> Seq<char> {
    "/6/"@ + decimal_spec((spine_index + 1) * 2) + "["@ + idref + "]!"@
}

/// A CFI child step appended to `parent`: `{parent}/{index}{assertion}`.
pub open spec fn child_path_spec(parent: Seq<char>, index: nat, assertion: Seq<char>) -> Seq<char> {
    parent + "/"@ + decimal_spec(index) + assertion
}

impl EpubCfi {
    /// The spine-level CFI of a spine item, e.g. `/6/4[chap01ref]!`.
    pub fn generate_spine_base_cfi(spine_index: usize, idref: &str) -> (r: String)
        ensures
            r@ == spine_base_cfi_spec(spine_index as nat, idref@),
    {
        let step: u128 = ((spine_index as u128) + 1) * 2;
        let mut out = lit("/6/");
        extend_chars(&mut out, &crate::text::decimal_chars_wide(step));
        extend_chars(&mut out, &lit("["));
        extend_chars(&mut out, &chars_of(idref));
        extend_chars(&mut out, &lit("]!"));
        string_from_chars(&out)
    }
}

/// Builds a CFI child-step path segment: `{parent}/{index}{assertion}`.
pub fn cfi_child_path(parent: &str, index: usize, assertion: &str) -> (r: String)
    ensures
        r@ == child_path_spec(parent@, index as nat, assertion@),
{
    let mut out = chars_of(parent);
    extend_chars(&mut out, &lit("/"));
    extend_chars(&mut out, &crate::text::decimal_chars_wide(index as u128));
    extend_chars(&mut out, &chars_of(assertion));
    string_from_chars(&out)
}

} // verus!
