//! Which resources of a chapter become `data:` URIs, and what they become.
//!
//! The chapter's local references are a work list.  Each path is loaded at
//! most once (by the caller, between [`InlinePlan::next_path`] and
//! [`InlinePlan::on_loaded`]): an image, a font or an audio file under the
//! size cap becomes a `data:` URI; a stylesheet adds its own references
//! to the work list and is kept, to be turned into a `data:` URI at the end
//! with its references rewritten ([`InlinePlan::finish`]).
use vstd::prelude::*;
use vstd::utf8::{decode_utf8, encode_utf8, encode_utf8_decode_utf8, is_char_boundary};
use crate::path::{is_external_chars, is_external_spec, parent_dir, parent_dir_spec};
use crate::processor::prepare::{
    LoadedResource, PrepareStats, data_uri, data_uri_spec, is_inlineable_media, is_inlineable_media_spec,
    push_normalized_ref, resolve_media_type, resolve_media_type_spec, utf8_lossy, utf8_lossy_string,
};
use crate::processor::rewrite::{
    apply_css_url_answers, css_spans, css_url_requests, opt_view, opt_views, rewritten_css, span_asks, span_target,
};
use crate::text::{chars_of, eq_chars, eq_str, has_prefix, starts_with, string_from_chars, trim_spec};
use crate::path::join_spec;
use crate::path::percent_decoded;
use crate::path::strip_query_and_fragment_spec;
use crate::path::{split_on, split_chars, seg_views};
use crate::processor::search::{TextPattern, byte_slice, regex_spans, regex_matches};
use crate::processor::prepare::{decode_data_css_uri, decode_data_css_spec};
use crate::processor::html::{lower_spec, lower_chars};
use crate::text::{contains_seq, contains_chars, extend_chars, lit, slice_chars, trim_chars, has_prefix_at};

verus! {

/// A loaded resource as plain values: its bytes and declared media type.
pub type LoadedV = (Seq<u8>, Option<Seq<char>>);

pub open spec fn loaded_view(l: Option<LoadedResource>) -> Option<LoadedV> {
    match l {
        Some(r) => Some((r.bytes@, opt_view(r.media_type))),
        None => None,
    }
}

/// The plan between steps.
pub struct PlanV {
    /// Paths still to look at; the last is taken first.
    pub pending: Seq<Seq<char>>,
    /// Paths already taken, in order.
    pub seen: Seq<Seq<char>>,
    /// (path, `data:` URI), in the order they were made.
    pub uris: Seq<(Seq<char>, Seq<char>)>,
    /// Stylesheets kept for the end: (path, text).
    pub css: Seq<(Seq<char>, Seq<char>)>,
    /// A taken path waits for its resource.
    pub awaiting: bool,
    pub considered: nat,
    pub inlined: nat,
    pub skipped_oversize: nat,
    pub missing: nat,
    pub skipped_type: nat,
}

/// The normalized local references among `refs` (see
/// [`push_normalized_ref`]), in order.
pub open spec fn normalized_refs(refs: Seq<Seq<char>>, base: Seq<char>) -> Seq<Seq<char>>
    decreases refs.len(),
{
    if refs.len() == 0 {
        Seq::empty()
    } else {
        let prev = normalized_refs(refs.drop_last(), base);
        let t = trim_spec(refs.last());
        if t.len() == 0 || is_external_spec(t) || starts_with(t, "#"@) {
            prev
        } else {
            prev.push(join_spec(base, percent_decoded(strip_query_and_fragment_spec(t))))
        }
    }
}

/// A new plan for a chapter at `chapter_path` with raw references `refs`.
pub open spec fn plan_initial(refs: Seq<Seq<char>>, chapter_path: Seq<char>) -> PlanV {
    PlanV {
        pending: normalized_refs(refs, parent_dir_spec(chapter_path)),
        seen: Seq::empty(),
        uris: Seq::empty(),
        css: Seq::empty(),
        awaiting: false,
        considered: 0,
        inlined: 0,
        skipped_oversize: 0,
        missing: 0,
        skipped_type: 0,
    }
}

/// The next path to load: paths are taken from the end of the work list,
/// those already seen dropped; `None` when the list runs out.
pub open spec fn plan_next(v: PlanV) -> (PlanV, Option<Seq<char>>)
    decreases v.pending.len(),
{
    if v.pending.len() == 0 {
        (v, None)
    } else {
        let p = v.pending.last();
        let w = PlanV { pending: v.pending.drop_last(), ..v };
        if v.seen.contains(p) {
            plan_next(w)
        } else {
            (PlanV { seen: w.seen.push(p), considered: w.considered + 1, awaiting: true, ..w }, Some(p))
        }
    }
}

/// The references of a stylesheet at `dir` that are loaded in turn: the
/// targets of its asking tokens that are not external, from token `k` on.
pub open spec fn css_discovered(css: Seq<char>, dir: Seq<char>, k: int) -> Seq<Seq<char>>
    decreases css_spans(css).len() - k,
{
    if k < 0 || k >= css_spans(css).len() {
        Seq::empty()
    } else {
        let sp = css_spans(css)[k];
        let rest = css_discovered(css, dir, k + 1);
        if span_asks(css, sp) && !is_external_spec(span_target(css, dir, sp)) {
            seq![span_target(css, dir, sp)] + rest
        } else {
            rest
        }
    }
}

/// The resource of the taken path `path` is in (`None`: it could not be
/// loaded).
pub open spec fn plan_loaded(v: PlanV, path: Seq<char>, loaded: Option<LoadedV>, max: nat) -> PlanV {
    let w = PlanV { awaiting: false, ..v };
    match loaded {
        None => PlanV { missing: w.missing + 1, ..w },
        Some((bytes, declared)) => if bytes.len() > max {
            PlanV { skipped_oversize: w.skipped_oversize + 1, ..w }
        } else {
            let mt = resolve_media_type_spec(path, declared);
            if mt == "text/css"@ {
                let css = utf8_lossy(bytes);
                PlanV {
                    pending: w.pending + css_discovered(css, parent_dir_spec(path), 0),
                    css: w.css.push((path, css)),
                    ..w
                }
            } else if is_inlineable_media_spec(mt) {
                PlanV { uris: w.uris.push((path, data_uri_spec(mt, bytes))), inlined: w.inlined + 1, ..w }
            } else {
                PlanV { skipped_type: w.skipped_type + 1, ..w }
            }
        },
    }
}

/// The `data:` URI made for `path`, the first one.
pub open spec fn uri_lookup(uris: Seq<(Seq<char>, Seq<char>)>, path: Seq<char>) -> Option<Seq<char>>
    decreases uris.len(),
{
    if uris.len() == 0 {
        None
    } else if uris[0].0 == path {
        Some(uris[0].1)
    } else {
        uri_lookup(uris.drop_first(), path)
    }
}

/// The answer for each token of a stylesheet at `dir`: the `data:` URI
/// of its target, when the token asks and the target is not external.
pub open spec fn css_answers(css: Seq<char>, dir: Seq<char>, uris: Seq<(Seq<char>, Seq<char>)>) -> Seq<
    Option<Seq<char>>,
> {
    Seq::new(
        css_spans(css).len(),
        |k: int|
            if span_asks(css, css_spans(css)[k]) && !is_external_spec(span_target(css, dir, css_spans(css)[k])) {
                uri_lookup(uris, span_target(css, dir, css_spans(css)[k]))
            } else {
                None
            },
    )
}

/// The `data:` URIs after the kept stylesheets, in order, are turned into
/// `data:` URIs with their references rewritten from the URIs made so far.
pub open spec fn materialized(uris: Seq<(Seq<char>, Seq<char>)>, css: Seq<(Seq<char>, Seq<char>)>) -> Seq<
    (Seq<char>, Seq<char>),
>
    decreases css.len(),
{
    if css.len() == 0 {
        uris
    } else {
        let prev = materialized(uris, css.drop_last());
        let (path, text) = css.last();
        let rewritten = rewritten_css(text, css_spans(text), css_answers(text, parent_dir_spec(path), prev));
        prev.push((path, data_uri_spec("text/css"@, encode_utf8(rewritten))))
    }
}

/// The URL that an HTML reference to `abs` becomes: its `data:` URI, if
/// one was made; none for external, empty and same-document references.
pub open spec fn uri_answer(uris: Seq<(Seq<char>, Seq<char>)>, abs: Seq<char>) -> Option<Seq<char>> {
    if is_external_spec(abs) || starts_with(abs, "#"@) || abs.len() == 0 {
        None
    } else {
        uri_lookup(uris, abs)
    }
}

/// The plan, driven by its caller.
pub struct InlinePlan {
    pending: Vec<String>,
    seen: Vec<String>,
    uris: Vec<(String, String)>,
    css: Vec<(String, String)>,
    awaiting: bool,
    stats: PrepareStats,
}

pub open spec fn strs_view(v: Seq<String>) -> Seq<Seq<char>> {
    v.map_values(|s: String| s@)
}

pub open spec fn pairs_view(v: Seq<(String, String)>) -> Seq<(Seq<char>, Seq<char>)> {
    v.map_values(|p: (String, String)| (p.0@, p.1@))
}

impl InlinePlan {
    pub closed spec fn view(&self) -> PlanV {
        PlanV {
            pending: strs_view(self.pending@),
            seen: strs_view(self.seen@),
            uris: pairs_view(self.uris@),
            css: pairs_view(self.css@),
            awaiting: self.awaiting,
            considered: self.stats.considered as nat,
            inlined: self.stats.inlined as nat,
            skipped_oversize: self.stats.skipped_oversize as nat,
            missing: self.stats.missing as nat,
            skipped_type: self.stats.skipped_type as nat,
        }
    }

    /// The counters add up: every taken path has an outcome, is a kept
    /// stylesheet, or is the one awaited.
    pub closed spec fn wf(&self) -> bool {
        &&& self.stats.considered == self.seen@.len()
        &&& self.stats.inlined + self.stats.skipped_oversize + self.stats.missing + self.stats.skipped_type
            + self.css@.len() + (if self.awaiting {
            1int
        } else {
            0int
        }) == self.stats.considered
    }

    /// A plan for the chapter at `chapter_path` whose raw local references
    /// are `refs` (see [`plan_initial`]).
    pub fn new(refs: &Vec<String>, chapter_path: &str) -> (p: InlinePlan)
        ensures
            p.wf(),
            p.view() == plan_initial(strs_view(refs@), chapter_path@),
    {
        let base = string_from_chars(&parent_dir(&chars_of(chapter_path)));
        let mut pending: Vec<String> = Vec::new();
        let ghost rv = strs_view(refs@);
        let mut i: usize = 0;
        assert(rv.take(0) =~= Seq::<Seq<char>>::empty());
        assert(strs_view(pending@) =~= Seq::<Seq<char>>::empty());
        while i < refs.len()
            invariant
                i <= refs@.len(),
                rv == strs_view(refs@),
                base@ == parent_dir_spec(chapter_path@),
                strs_view(pending@) == normalized_refs(rv.take(i as int), base@),
            decreases refs@.len() - i,
        {
            let ghost before = pending@;
            push_normalized_ref(&mut pending, base.as_str(), refs[i].as_str());
            proof {
                assert(rv.take(i + 1).drop_last() =~= rv.take(i as int));
                assert(rv.take(i + 1).last() == refs@[i as int]@);
                let t = trim_spec(refs@[i as int]@);
                if !(t.len() == 0 || is_external_spec(t) || starts_with(t, "#"@)) {
                    assert(pending@ =~= before.push(pending@.last()));
                    assert(strs_view(pending@) =~= strs_view(before).push(pending@.last()@));
                }
            }
            i = i + 1;
        }
        assert(rv.take(i as int) =~= rv);
        let p = InlinePlan {
            pending,
            seen: Vec::new(),
            uris: Vec::new(),
            css: Vec::new(),
            awaiting: false,
            stats: PrepareStats { considered: 0, inlined: 0, skipped_oversize: 0, missing: 0, skipped_type: 0 },
        };
        assert(strs_view(p.seen@) =~= Seq::<Seq<char>>::empty());
        assert(pairs_view(p.uris@) =~= Seq::<(Seq<char>, Seq<char>)>::empty());
        assert(pairs_view(p.css@) =~= Seq::<(Seq<char>, Seq<char>)>::empty());
        p
    }

    /// The counters so far.
    pub fn stats(&self) -> (s: PrepareStats)
        ensures
            s.considered == self.view().considered,
            s.inlined == self.view().inlined,
            s.skipped_oversize == self.view().skipped_oversize,
            s.missing == self.view().missing,
            s.skipped_type == self.view().skipped_type,
    {
        PrepareStats {
            considered: self.stats.considered,
            inlined: self.stats.inlined,
            skipped_oversize: self.stats.skipped_oversize,
            missing: self.stats.missing,
            skipped_type: self.stats.skipped_type,
        }
    }

    /// Whether a taken path waits for its resource.
    pub fn awaiting(&self) -> (b: bool)
        ensures
            b == self.view().awaiting,
    {
        self.awaiting
    }

    fn seen_contains(&self, p: &str) -> (b: bool)
        ensures
            b == strs_view(self.seen@).contains(p@),
    {
        let pc = chars_of(p);
        let mut i: usize = 0;
        while i < self.seen.len()
            invariant
                i <= self.seen@.len(),
                pc@ == p@,
                forall|k: int| 0 <= k < i ==> self.seen@[k]@ != p@,
            decreases self.seen@.len() - i,
        {
            if eq_chars(&chars_of(self.seen[i].as_str()), &pc) {
                assert(strs_view(self.seen@)[i as int] == p@);
                return true;
            }
            i = i + 1;
        }
        assert forall|k: int| 0 <= k < strs_view(self.seen@).len() implies strs_view(self.seen@)[k] != p@ by {
            assert(strs_view(self.seen@)[k] == self.seen@[k]@);
        }
        false
    }

    /// Takes the next path to load (see [`plan_next`]).
    pub fn next_path(&mut self) -> (r: Option<String>)
        requires
            old(self).wf(),
            !old(self).view().awaiting,
        ensures
            final(self).wf(),
            final(self).view() == plan_next(old(self).view()).0,
            opt_view(r) == plan_next(old(self).view()).1,
        decreases old(self).view().pending.len(),
    {
        let ghost v0 = self.view();
        let ghost pend0 = self.pending@;
        let p = match self.pending.pop() {
            Some(p) => p,
            None => return None,
        };
        proof {
            assert(self.pending@ =~= pend0.drop_last());
            assert(p == pend0.last());
            assert(v0.pending.last() == p@);
        }
        if self.seen_contains(p.as_str()) {
            proof {
                assert(strs_view(self.pending@) =~= v0.pending.drop_last());
            }
            return self.next_path();
        }
        let ghost sb = self.seen@;
        self.seen.push(p.clone());
        self.stats.considered = self.seen.len();
        self.awaiting = true;
        proof {
            assert(strs_view(self.pending@) =~= v0.pending.drop_last());
            assert(strs_view(self.seen@) =~= strs_view(sb).push(p@));
        }
        Some(p)
    }

    /// The resource of the awaited path `path` (see [`plan_loaded`]);
    /// resources over `max_inline_bytes` are not inlined.
    pub fn on_loaded(&mut self, path: &str, loaded: Option<LoadedResource>, max_inline_bytes: usize)
        requires
            old(self).wf(),
            old(self).view().awaiting,
        ensures
            final(self).wf(),
            final(self).view() == plan_loaded(old(self).view(), path@, loaded_view(loaded), max_inline_bytes as nat),
    {
        self.awaiting = false;
        let r = match loaded {
            Some(r) => r,
            None => {
                self.stats.missing = self.stats.missing + 1;
                return;
            },
        };
        if r.bytes.len() > max_inline_bytes {
            self.stats.skipped_oversize = self.stats.skipped_oversize + 1;
            return;
        }
        let declared = match &r.media_type {
            Some(m) => Some(m.as_str()),
            None => None,
        };
        let mt = resolve_media_type(path, declared);
        proof {
            assert(match declared {
                Some(d) => Some(d@),
                None => None::<Seq<char>>,
            } == opt_view(r.media_type));
        }
        if eq_str(&chars_of(mt.as_str()), "text/css") {
            let css = utf8_lossy_string(r.bytes.as_slice());
            let dir = string_from_chars(&parent_dir(&chars_of(path)));
            let requests = css_url_requests(css.as_str(), dir.as_str());
            let ghost p0 = strs_view(self.pending@);
            let mut k: usize = 0;
            let mut found: Vec<String> = Vec::new();
            assert(strs_view(found@) =~= Seq::<Seq<char>>::empty());
            while k < requests.len()
                invariant
                    k <= requests@.len(),
                    requests@.len() == css_spans(css@).len(),
                    forall|j: int|
                        0 <= j < css_spans(css@).len() ==> opt_view(#[trigger] requests@[j]) == (if span_asks(
                            css@,
                            css_spans(css@)[j],
                        ) {
                            Some(span_target(css@, dir@, css_spans(css@)[j]))
                        } else {
                            None
                        }),
                    strs_view(found@) + css_discovered(css@, dir@, k as int) == css_discovered(css@, dir@, 0),
                decreases requests@.len() - k,
            {
                let ghost fb = found@;
                match &requests[k] {
                    Some(abs) => {
                        if !is_external_chars(&chars_of(abs.as_str())) {
                            found.push(abs.clone());
                            assert(strs_view(found@) =~= strs_view(fb).push(abs@));
                        }
                    },
                    None => {},
                }
                proof {
                    assert(opt_view(requests@[k as int]) == (if span_asks(css@, css_spans(css@)[k as int]) {
                        Some(span_target(css@, dir@, css_spans(css@)[k as int]))
                    } else {
                        None
                    }));
                    assert(strs_view(found@) + css_discovered(css@, dir@, k + 1) =~= strs_view(fb) + css_discovered(
                        css@,
                        dir@,
                        k as int,
                    ));
                }
                k = k + 1;
            }
            assert(css_discovered(css@, dir@, k as int) =~= Seq::<Seq<char>>::empty());
            let ghost fv = strs_view(found@);
            self.pending.append(&mut found);
            let ghost cb = self.css@;
            self.css.push((path.to_string(), css));
            proof {
                assert(strs_view(self.pending@) =~= p0 + fv);
                assert(pairs_view(self.css@) =~= pairs_view(cb).push((path@, utf8_lossy(r.bytes@))));
            }
        } else if is_inlineable_media(mt.as_str()) {
            let uri = data_uri(mt.as_str(), r.bytes.as_slice());
            let ghost ub = self.uris@;
            self.uris.push((path.to_string(), uri));
            self.stats.inlined = self.stats.inlined + 1;
            proof {
                assert(pairs_view(self.uris@) =~= pairs_view(ub).push((path@, uri@)));
            }
        } else {
            self.stats.skipped_type = self.stats.skipped_type + 1;
        }
    }

    fn lookup(&self, path: &str) -> (r: Option<String>)
        ensures
            opt_view(r) == uri_lookup(pairs_view(self.uris@), path@),
    {
        let ghost uv = pairs_view(self.uris@);
        let pc = chars_of(path);
        let mut i: usize = 0;
        assert(uv.skip(0) =~= uv);
        while i < self.uris.len()
            invariant
                i <= self.uris@.len(),
                pc@ == path@,
                uv == pairs_view(self.uris@),
                uri_lookup(uv, path@) == uri_lookup(uv.skip(i as int), path@),
            decreases self.uris@.len() - i,
        {
            proof {
                assert(uv.skip(i as int)[0] == (self.uris@[i as int].0@, self.uris@[i as int].1@));
                assert(uv.skip(i as int).drop_first() =~= uv.skip(i + 1));
            }
            if eq_chars(&chars_of(self.uris[i].0.as_str()), &pc) {
                return Some(self.uris[i].1.clone());
            }
            i = i + 1;
        }
        None
    }

    /// The kept stylesheets become `data:` URIs, in order, their references
    /// rewritten from the URIs made so far (see [`materialized`]).
    pub fn finish(&mut self)
        requires
            old(self).wf(),
            !old(self).view().awaiting,
        ensures
            final(self).wf(),
            final(self).view().uris == materialized(old(self).view().uris, old(self).view().css),
            final(self).view().css.len() == 0,
            final(self).view().inlined == old(self).view().inlined + old(self).view().css.len(),
            final(self).view().considered == old(self).view().considered,
            final(self).view().missing == old(self).view().missing,
            final(self).view().skipped_oversize == old(self).view().skipped_oversize,
            final(self).view().skipped_type == old(self).view().skipped_type,
            !final(self).view().awaiting,
    {
        let ghost u0 = pairs_view(self.uris@);
        let ghost c0 = pairs_view(self.css@);
        let ghost inl0 = self.stats.inlined;
        let ghost st0 = self.stats;
        let mut css: Vec<(String, String)> = Vec::new();
        std::mem::swap(&mut css, &mut self.css);
        let n = css.len();
        assert(c0.take(0) =~= Seq::<(Seq<char>, Seq<char>)>::empty());
        let mut k: usize = 0;
        while k < n
            invariant
                k <= n,
                n == css@.len(),
                c0 == pairs_view(css@),
                self.css@.len() == 0,
                !self.awaiting,
                self.stats.considered == self.seen@.len(),
                self.stats.inlined == inl0 + k,
                self.stats.considered == st0.considered,
                self.stats.missing == st0.missing,
                self.stats.skipped_oversize == st0.skipped_oversize,
                self.stats.skipped_type == st0.skipped_type,
                self.stats.inlined + self.stats.skipped_oversize + self.stats.missing + self.stats.skipped_type
                    + (n - k) == self.stats.considered,
                pairs_view(self.uris@) == materialized(u0, c0.take(k as int)),
            decreases n - k,
        {
            let path = css[k].0.as_str();
            let text = css[k].1.as_str();
            let dir = string_from_chars(&parent_dir(&chars_of(path)));
            let requests = css_url_requests(text, dir.as_str());
            let ghost uv = pairs_view(self.uris@);
            let mut answers: Vec<Option<String>> = Vec::new();
            let mut j: usize = 0;
            while j < requests.len()
                invariant
                    j <= requests@.len(),
                    requests@.len() == css_spans(text@).len(),
                    uv == pairs_view(self.uris@),
                    forall|q: int|
                        0 <= q < css_spans(text@).len() ==> opt_view(#[trigger] requests@[q]) == (if span_asks(
                            text@,
                            css_spans(text@)[q],
                        ) {
                            Some(span_target(text@, dir@, css_spans(text@)[q]))
                        } else {
                            None
                        }),
                    answers@.len() == j,
                    forall|q: int|
                        0 <= q < j ==> opt_view(#[trigger] answers@[q]) == css_answers(text@, dir@, uv)[q],
                decreases requests@.len() - j,
            {
                let a = match &requests[j] {
                    Some(abs) => {
                        if is_external_chars(&chars_of(abs.as_str())) {
                            None
                        } else {
                            self.lookup(abs.as_str())
                        }
                    },
                    None => None,
                };
                proof {
                    assert(opt_view(requests@[j as int]) == (if span_asks(text@, css_spans(text@)[j as int]) {
                        Some(span_target(text@, dir@, css_spans(text@)[j as int]))
                    } else {
                        None
                    }));
                }
                let ghost ab = answers@;
                answers.push(a);
                proof {
                    assert forall|q: int| 0 <= q < j + 1 implies opt_view(#[trigger] answers@[q]) == css_answers(
                        text@,
                        dir@,
                        uv,
                    )[q] by {
                        if q < j {
                            assert(answers@[q] == ab[q]);
                        }
                    }
                }
                j = j + 1;
            }
            assert(opt_views(answers@) =~= css_answers(text@, dir@, uv));
            let rewritten = apply_css_url_answers(text, answers.as_slice());
            let uri = data_uri("text/css", rewritten.as_str().as_bytes());
            let ghost ub = self.uris@;
            self.uris.push((path.to_string(), uri));
            self.stats.inlined = self.stats.inlined + 1;
            proof {
                assert(c0.take(k + 1).drop_last() =~= c0.take(k as int));
                assert(c0.take(k + 1).last() == (path@, text@));
                assert(pairs_view(self.uris@) =~= pairs_view(ub).push((path@, uri@)));
            }
            k = k + 1;
        }
        assert(c0.take(n as int) =~= c0);
        assert(pairs_view(self.css@) =~= Seq::<(Seq<char>, Seq<char>)>::empty());
    }

    /// The URL that an HTML reference to the package path `abs` becomes
    /// (see [`uri_answer`]).
    pub fn uri_for(&self, abs: &str) -> (r: Option<String>)
        ensures
            opt_view(r) == uri_answer(self.view().uris, abs@),
    {
        let c = chars_of(abs);
        if is_external_chars(&c) || has_prefix(&c, "#") || c.len() == 0 {
            return None;
        }
        self.lookup(abs)
    }
}

// ── The chapter's references ─────────────────────────────────────────────────

/// The texts of capture group 1 of the successive matches of the
/// expression built from `pattern` (case-insensitive when `ci`) in `text`
/// (empty where the group took no part), as `captures_iter` gives them.
pub uninterp spec fn regex_group_ones(pattern: Seq<char>, ci: bool, text: Seq<char>) -> Seq<Seq<char>>;

/// The text of capture group 1 of the first match of the expression built
/// from `pattern` in `text`, if there is one and the group took part.
pub uninterp spec fn regex_first_group(pattern: Seq<char>, ci: bool, text: Seq<char>) -> Option<Seq<char>>;

/// `regex::Regex::captures_iter`: the text of capture group 1 of each
/// successive match (named by [`regex_group_ones`]).
#[verifier::external_body]
fn first_groups(p: &TextPattern, text: &str) -> (r: Vec<String>)
    ensures
        strs_view(r@) == regex_group_ones(p.pattern(), p.case_insensitive(), text@),
{
    p.regex().captures_iter(text).map(|c| c.get(1).map_or(String::new(), |m| m.as_str().to_string())).collect()
}

/// `regex::Regex::captures`: the text of capture group 1 of the first
/// match (named by [`regex_first_group`]).
#[verifier::external_body]
fn first_group(p: &TextPattern, text: &str) -> (r: Option<String>)
    ensures
        opt_view(r) == regex_first_group(p.pattern(), p.case_insensitive(), text@),
{
    p.regex().captures(text).and_then(|c| c.get(1)).map(|m| m.as_str().to_string())
}

/// The pattern that finds `src`, `href` and `poster` values.
pub open spec fn attr_ref_pattern() -> Seq<char> {
    "(?i)(?:src|href|poster)\\s*=\\s*[\"']([^\"']+)[\"']"@
}

/// The pattern that finds `srcset` values.
pub open spec fn srcset_pattern() -> Seq<char> {
    "(?i)srcset\\s*=\\s*[\"']([^\"']+)[\"']"@
}

/// The pattern that finds `url(...)` targets.
pub open spec fn css_url_pattern() -> Seq<char> {
    "(?i)url\\(\\s*['\"]?([^'\")]+)['\"]?\\s*\\)"@
}

/// The pattern that finds `<link ...>` tags.
pub open spec fn link_tag_pattern() -> Seq<char> {
    "(?is)<link\\b[^>]*>"@
}

/// The pattern that finds a tag's `href` value.
pub open spec fn href_pattern() -> Seq<char> {
    "(?i)\\bhref\\s*=\\s*[\"']([^\"']+)[\"']"@
}

/// The URLs of every `srcset` value of `values` (see [`srcset_urls`]).
pub open spec fn all_srcset_urls(values: Seq<Seq<char>>) -> Seq<Seq<char>>
    decreases values.len(),
{
    if values.len() == 0 {
        Seq::empty()
    } else {
        all_srcset_urls(values.drop_last()) + srcset_urls(split_on(values.last(), ','))
    }
}

/// `found` when the expression was built, else nothing.
pub open spec fn when_built(built: bool, found: Seq<Seq<char>>) -> Seq<Seq<char>> {
    if built {
        found
    } else {
        Seq::empty()
    }
}

/// ASCII white space (`char::is_ascii_whitespace`).
pub open spec fn is_ascii_ws(c: char) -> bool {
    c == ' ' || c == '\t' || c == '\n' || c == '\r' || c == '\x0C'
}

/// The part of `s` before its first ASCII white space, from `i` on.
pub open spec fn before_ascii_ws(s: Seq<char>, i: int) -> Seq<char>
    decreases s.len() - i,
{
    if i < 0 || i >= s.len() {
        s
    } else if is_ascii_ws(s[i]) {
        s.take(i)
    } else {
        before_ascii_ws(s, i + 1)
    }
}

/// The URLs of a `srcset` value: each comma-separated candidate, trimmed,
/// up to its first ASCII white space; empty ones left out.
pub open spec fn srcset_urls(pieces: Seq<Seq<char>>) -> Seq<Seq<char>>
    decreases pieces.len(),
{
    if pieces.len() == 0 {
        Seq::empty()
    } else {
        let prev = srcset_urls(pieces.drop_last());
        let t = trim_spec(pieces.last());
        let u = before_ascii_ws(t, 0);
        if t.len() == 0 || u.len() == 0 {
            prev
        } else {
            prev.push(u)
        }
    }
}

fn is_ascii_ws_exec(c: char) -> (b: bool)
    ensures
        b == is_ascii_ws(c),
{
    c == ' ' || c == '\t' || c == '\n' || c == '\r' || c == '\x0C'
}

fn before_ascii_ws_exec(s: &Vec<char>) -> (r: Vec<char>)
    ensures
        r@ == before_ascii_ws(s@, 0),
{
    let mut i: usize = 0;
    while i < s.len()
        invariant
            i <= s@.len(),
            before_ascii_ws(s@, 0) == before_ascii_ws(s@, i as int),
        decreases s@.len() - i,
    {
        if is_ascii_ws_exec(s[i]) {
            return slice_chars(s, 0, i);
        }
        i = i + 1;
    }
    slice_chars(s, 0, s.len())
}

/// Appends the URLs of a `srcset` value (see [`srcset_urls`]).
pub fn push_srcset_urls(value: &str, out: &mut Vec<String>)
    ensures
        strs_view(final(out)@) == strs_view(old(out)@) + srcset_urls(split_on(value@, ',')),
{
    let pieces = split_chars(&chars_of(value), ',');
    let ghost pv = seg_views(pieces@);
    let ghost start = strs_view(out@);
    let mut i: usize = 0;
    assert(pv.take(0) =~= Seq::<Seq<char>>::empty());
    assert(start + srcset_urls(pv.take(0)) =~= start);
    while i < pieces.len()
        invariant
            i <= pieces@.len(),
            pv == seg_views(pieces@),
            pv.len() == pieces@.len(),
            strs_view(out@) == start + srcset_urls(pv.take(i as int)),
        decreases pieces@.len() - i,
    {
        let t = trim_chars(&pieces[i]);
        let u = before_ascii_ws_exec(&t);
        proof {
            assert(pv.take(i + 1).drop_last() =~= pv.take(i as int));
            assert(pv.take(i + 1).last() == pieces@[i as int]@);
        }
        if t.len() > 0 && u.len() > 0 {
            let ghost ob = out@;
            out.push(string_from_chars(&u));
            assert(strs_view(out@) =~= strs_view(ob).push(u@));
        }
        i = i + 1;
    }
    assert(pv.take(i as int) =~= pv);
}

/// The local references of a chapter: the values of `src`, `href` and
/// `poster` attributes, the URLs of `srcset` values (see
/// [`srcset_urls`]), and the `url(...)` targets, each as the regular
/// expressions of the reader find them, in that order.  A list whose
/// expression does not compile is empty.
pub fn collect_local_refs(html: &str) -> (r: Vec<String>)
    ensures
        exists|a: bool, b: bool, c: bool|
            #[trigger] strs_view(r@) == when_built(a, regex_group_ones(attr_ref_pattern(), false, html@)) + when_built(
                b,
                all_srcset_urls(regex_group_ones(srcset_pattern(), false, html@)),
            ) + when_built(c, regex_group_ones(css_url_pattern(), false, html@)),
{
    let mut out: Vec<String> = Vec::new();
    let mut a: bool = false;
    let mut b: bool = false;
    let mut c: bool = false;
    match TextPattern::new("(?i)(?:src|href|poster)\\s*=\\s*[\"']([^\"']+)[\"']", false) {
        Ok(re) => {
            let mut found = first_groups(&re, html);
            out.append(&mut found);
            a = true;
        },
        Err(_) => {},
    }
    let ghost sa = strs_view(out@);
    assert(sa =~= when_built(a, regex_group_ones(attr_ref_pattern(), false, html@)));
    match TextPattern::new("(?i)srcset\\s*=\\s*[\"']([^\"']+)[\"']", false) {
        Ok(re) => {
            let found = first_groups(&re, html);
            let ghost fv = strs_view(found@);
            let mut i: usize = 0;
            assert(fv.take(0) =~= Seq::<Seq<char>>::empty());
            assert(strs_view(out@) =~= sa + all_srcset_urls(fv.take(0)));
            while i < found.len()
                invariant
                    i <= found@.len(),
                    fv == strs_view(found@),
                    fv.len() == found@.len(),
                    strs_view(out@) == sa + all_srcset_urls(fv.take(i as int)),
                decreases found@.len() - i,
            {
                let ghost ob = strs_view(out@);
                push_srcset_urls(found[i].as_str(), &mut out);
                proof {
                    assert(fv.take(i + 1).drop_last() =~= fv.take(i as int));
                    assert(fv.take(i + 1).last() == found@[i as int]@);
                    assert(strs_view(out@) =~= sa + all_srcset_urls(fv.take(i + 1)));
                }
                i = i + 1;
            }
            assert(fv.take(i as int) =~= fv);
            b = true;
        },
        Err(_) => {},
    }
    let ghost sb = strs_view(out@);
    assert(sb =~= sa + when_built(b, all_srcset_urls(regex_group_ones(srcset_pattern(), false, html@))));
    match TextPattern::new("(?i)url\\(\\s*['\"]?([^'\")]+)['\"]?\\s*\\)", false) {
        Ok(re) => {
            let mut found = first_groups(&re, html);
            out.append(&mut found);
            c = true;
        },
        Err(_) => {},
    }
    assert(strs_view(out@) =~= sb + when_built(c, regex_group_ones(css_url_pattern(), false, html@)));
    out
}

// ── Inlined stylesheets as `<style>` ─────────────────────────────────────────

/// `s` with every occurrence of `from` (non-empty), left to right and not
/// overlapping, replaced by `to`, from position `i` on.
pub open spec fn replaced(s: Seq<char>, from: Seq<char>, to: Seq<char>, i: int) -> Seq<char>
    decreases s.len() - i,
{
    if i < 0 || i >= s.len() || from.len() == 0 {
        if 0 <= i <= s.len() {
            s.skip(i)
        } else {
            Seq::empty()
        }
    } else if i + from.len() <= s.len() && s.subrange(i, i + from.len()) == from {
        to + replaced(s, from, to, i + from.len())
    } else {
        seq![s[i]] + replaced(s, from, to, i + 1)
    }
}

/// `s` with `from` replaced by `to` (see [`replaced`]; `str::replace`).
pub fn replace_all(s: &Vec<char>, from: &str, to: &str) -> (r: Vec<char>)
    requires
        from@.len() > 0,
    ensures
        r@ == replaced(s@, from@, to@, 0),
{
    let f = chars_of(from);
    let t = chars_of(to);
    let mut out: Vec<char> = Vec::new();
    let mut i: usize = 0;
    assert(out@ + replaced(s@, from@, to@, 0) =~= replaced(s@, from@, to@, 0));
    while i < s.len()
        invariant
            i <= s@.len(),
            f@ == from@,
            t@ == to@,
            f@.len() > 0,
            out@ + replaced(s@, from@, to@, i as int) == replaced(s@, from@, to@, 0),
        decreases s@.len() - i,
    {
        let ghost ob = out@;
        if f.len() <= s.len() - i && has_prefix_at(s, i, &f) {
            extend_chars(&mut out, &t);
            proof {
                assert(s@.subrange(i as int, i + f@.len()) =~= f@) by {
                    assert(s@.skip(i as int).subrange(0, f@.len() as int) =~= s@.subrange(i as int, i + f@.len()));
                }
                assert(out@ + replaced(s@, from@, to@, i + f@.len()) =~= ob + replaced(s@, from@, to@, i as int));
            }
            i = i + f.len();
        } else {
            out.push(s[i]);
            proof {
                if i + f@.len() <= s@.len() {
                    assert(s@.skip(i as int).subrange(0, f@.len() as int) =~= s@.subrange(i as int, i + f@.len()));
                }
                assert(out@ + replaced(s@, from@, to@, i + 1) =~= ob + replaced(s@, from@, to@, i as int));
            }
            i = i + 1;
        }
    }
    assert(replaced(s@, from@, to@, i as int) =~= Seq::<char>::empty());
    assert(out@ =~= replaced(s@, from@, to@, 0));
    out
}

/// A `<link>` tag that names a stylesheet (its lower-cased text mentions
/// `stylesheet` or `text/css`).
pub open spec fn looks_like_css(tag: Seq<char>) -> bool {
    contains_seq(lower_spec(tag), "stylesheet"@) || contains_seq(lower_spec(tag), "text/css"@)
}

/// What a `<link>` tag becomes, its `href` being `href` (as the reader's
/// expression finds it): a stylesheet whose href is a CSS `data:` URI
/// becomes a `<style>` element with the decoded text (`</style`
/// escaped), or nothing when the text is blank; any other tag stays.
pub open spec fn promoted_spec(tag: Seq<char>, href: Option<Seq<char>>) -> Seq<char> {
    if !looks_like_css(tag) {
        tag
    } else {
        match href {
            None => tag,
            Some(h) => match decode_data_css_spec(trim_spec(h)) {
                None => tag,
                Some(css) => if trim_spec(css).len() == 0 {
                    Seq::empty()
                } else {
                    "<style type=\"text/css\">\n"@ + replaced(
                        replaced(css, "</style"@, "<\\/style"@, 0),
                        "</STYLE"@,
                        "<\\/STYLE"@,
                        0,
                    ) + "\n</style>"@
                },
            },
        }
    }
}

/// What a `<link>` tag becomes (see [`promoted_spec`]), its `href` found by
/// the reader's expression.
pub fn promoted_link(tag: &str) -> (r: String)
    ensures
        promotes(tag@, r@),
{
    let lower = lower_chars(&chars_of(tag));
    if !(contains_chars(&lower, &lit("stylesheet")) || contains_chars(&lower, &lit("text/css"))) {
        assert(tag@ == promoted_spec(tag@, None));
        return tag.to_string();
    }
    let href = match TextPattern::new("(?i)\\bhref\\s*=\\s*[\"']([^\"']+)[\"']", false) {
        Ok(re) => first_group(&re, tag),
        Err(_) => None,
    };
    assert(opt_view(href) == regex_first_group(href_pattern(), false, tag@) || opt_view(href) is None);
    let h = match href {
        Some(h) => h,
        None => {
            assert(tag@ == promoted_spec(tag@, None));
            return tag.to_string();
        },
    };
    let ht = string_from_chars(&trim_chars(&chars_of(h.as_str())));
    let css = match decode_data_css_uri(ht.as_str()) {
        Some(c) => c,
        None => {
            assert(tag@ == promoted_spec(tag@, Some(h@)));
            return tag.to_string();
        },
    };
    let cc = chars_of(css.as_str());
    if trim_chars(&cc).len() == 0 {
        assert(Seq::<char>::empty() == promoted_spec(tag@, Some(h@)));
        return String::new();
    }
    proof {
        reveal_strlit("</style");
        reveal_strlit("</STYLE");
    }
    let safe1 = replace_all(&cc, "</style", "<\\/style");
    let safe = replace_all(&safe1, "</STYLE", "<\\/STYLE");
    let mut out = lit("<style type=\"text/css\">\n");
    extend_chars(&mut out, &safe);
    extend_chars(&mut out, &lit("\n</style>"));
    let r = string_from_chars(&out);
    assert(r@ == promoted_spec(tag@, Some(h@)));
    r
}

/// A `<link>` tag stays as it is unless it names a stylesheet whose href
/// is a CSS `data:` URI: external and unresolved stylesheet links, and
/// links that are not stylesheets, are kept.
pub proof fn law_promotion_keeps_other_links(tag: Seq<char>, href: Option<Seq<char>>)
    requires
        !looks_like_css(tag) || href is None || decode_data_css_spec(trim_spec(href->0)) is None,
    ensures
        promoted_spec(tag, href) == tag,
{
}

/// Whether `out` is what the tag `tag` becomes (see [`promoted_spec`]):
/// with the `href` that the reader's expression finds, or with none when
/// that expression does not compile.
pub open spec fn promotes(tag: Seq<char>, out: Seq<char>) -> bool {
    out == promoted_spec(tag, regex_first_group(href_pattern(), false, tag)) || out == promoted_spec(tag, None)
}

/// The text between byte offsets `from` and `to` of `text`'s UTF-8 encoding.
pub open spec fn byte_segment(text: Seq<char>, from: int, to: int) -> Seq<char> {
    decode_utf8(encode_utf8(text).subrange(from, to))
}

/// Whether `at` is a byte offset of `text` where a slice may start or end.
pub open spec fn slice_point(text: Seq<char>, at: int) -> bool {
    at == encode_utf8(text).len() || is_char_boundary(encode_utf8(text), at)
}

/// Byte spans of `text` in order, not overlapping, each within the text and
/// on character boundaries.
pub open spec fn spans_in_order(text: Seq<char>, spans: Seq<(usize, usize)>) -> bool {
    &&& forall|k: int|
        0 <= k < spans.len() ==> (#[trigger] spans[k]).0 <= spans[k].1 <= encode_utf8(text).len() && slice_point(
            text,
            spans[k].0 as int,
        ) && slice_point(text, spans[k].1 as int)
    &&& forall|k: int| 0 < k < spans.len() ==> spans[k - 1].1 <= (#[trigger] spans[k]).0
}

/// Where the text after the `k` first spans starts.
pub open spec fn after_span(spans: Seq<(usize, usize)>, k: int) -> int {
    if k <= 0 {
        0
    } else {
        spans[k - 1].1 as int
    }
}

/// `text` up to the end of span `k - 1`, each of the `k` first spans
/// replaced by the matching entry of `outs`.
pub open spec fn spliced_prefix(text: Seq<char>, spans: Seq<(usize, usize)>, outs: Seq<Seq<char>>, k: int) -> Seq<
    char,
>
    decreases k,
{
    if k <= 0 {
        Seq::empty()
    } else {
        spliced_prefix(text, spans, outs, k - 1) + byte_segment(text, after_span(spans, k - 1), spans[k - 1].0 as int)
            + outs[k - 1]
    }
}

/// `text` with each span replaced by the matching entry of `outs`.
pub open spec fn spliced(text: Seq<char>, spans: Seq<(usize, usize)>, outs: Seq<Seq<char>>) -> Seq<char> {
    spliced_prefix(text, spans, outs, spans.len() as int) + byte_segment(
        text,
        after_span(spans, spans.len() as int),
        encode_utf8(text).len() as int,
    )
}

proof fn lemma_spliced_prefix_stable(
    text: Seq<char>,
    spans: Seq<(usize, usize)>,
    outs: Seq<Seq<char>>,
    o: Seq<char>,
    k: int,
)
    requires
        0 <= k <= outs.len(),
    ensures
        spliced_prefix(text, spans, outs.push(o), k) == spliced_prefix(text, spans, outs, k),
    decreases k,
{
    if k > 0 {
        lemma_spliced_prefix_stable(text, spans, outs, o, k - 1);
        assert(outs.push(o)[k - 1] == outs[k - 1]);
    }
}

/// The tags at `spans` of `html` (in order, not overlapping, on character
/// boundaries) promoted (see [`promoted_link`]); the text between them
/// kept.
pub fn promote_at_spans(html: &str, spans: &Vec<(usize, usize)>) -> (r: String)
    requires
        spans_in_order(html@, spans@),
    ensures
        exists|outs: Seq<Seq<char>>|
            outs.len() == spans@.len() && (forall|k: int|
                0 <= k < outs.len() ==> promotes(
                    byte_segment(html@, spans@[k].0 as int, spans@[k].1 as int),
                    #[trigger] outs[k],
                )) && r@ == #[trigger] spliced(html@, spans@, outs),
{
    let mut out: Vec<char> = Vec::new();
    let ghost mut outs: Seq<Seq<char>> = Seq::empty();
    let mut from: usize = 0;
    proof {
        vstd::utf8::encode_utf8_valid_utf8(html@);
        vstd::utf8::is_char_boundary_start_end_of_seq(encode_utf8(html@));
    }
    let mut k: usize = 0;
    while k < spans.len()
        invariant
            spans_in_order(html@, spans@),
            k <= spans@.len(),
            outs.len() == k,
            from as int == after_span(spans@, k as int),
            slice_point(html@, from as int),
            from <= encode_utf8(html@).len(),
            out@ == spliced_prefix(html@, spans@, outs, k as int),
            forall|j: int|
                0 <= j < outs.len() ==> promotes(
                    byte_segment(html@, spans@[j].0 as int, spans@[j].1 as int),
                    #[trigger] outs[j],
                ),
        decreases spans@.len() - k,
    {
        let (a, b) = spans[k];
        assert(spans@[k as int] == (a, b));
        let piece = match byte_slice(html, from, a) {
            Some(p) => p,
            None => String::new(),
        };
        let tag = match byte_slice(html, a, b) {
            Some(t) => t,
            None => String::new(),
        };
        proof {
            encode_utf8_decode_utf8(piece@);
            encode_utf8_decode_utf8(tag@);
            assert(piece@ == byte_segment(html@, from as int, a as int));
            assert(tag@ == byte_segment(html@, a as int, b as int));
        }
        let promoted = promoted_link(tag.as_str());
        extend_chars(&mut out, &chars_of(piece.as_str()));
        extend_chars(&mut out, &chars_of(promoted.as_str()));
        proof {
            assert(promotes(tag@, promoted@));
            lemma_spliced_prefix_stable(html@, spans@, outs, promoted@, k as int);
            let ghost before = outs;
            outs = outs.push(promoted@);
            assert forall|j: int| 0 <= j < outs.len() implies promotes(
                byte_segment(html@, spans@[j].0 as int, spans@[j].1 as int),
                #[trigger] outs[j],
            ) by {
                if j < k {
                    assert(outs[j] == before[j]);
                }
            }
        }
        from = b;
        k = k + 1;
    }
    let n = html.as_bytes().len();
    let rest = match byte_slice(html, from, n) {
        Some(p) => p,
        None => String::new(),
    };
    proof {
        vstd::utf8::encode_utf8_valid_utf8(html@);
        vstd::utf8::is_char_boundary_start_end_of_seq(encode_utf8(html@));
        encode_utf8_decode_utf8(rest@);
        assert(rest@ == byte_segment(html@, from as int, encode_utf8(html@).len() as int));
    }
    extend_chars(&mut out, &chars_of(rest.as_str()));
    let r = string_from_chars(&out);
    assert(r@ == spliced(html@, spans@, outs));
    r
}

/// Replaces each `<link ...>` tag that names a stylesheet held in a CSS
/// `data:` URI with a `<style>` element holding the CSS (see
/// [`promoted_link`]); other tags, external and unresolved links stay.
/// Which tags are `<link>` tags is decided by the expression
/// `(?is)<link\b[^>]*>`, whose matches are not stated.
pub fn promote_data_stylesheet_links(html: &str) -> (r: String)
    ensures
        exists|spans: Seq<(usize, usize)>, outs: Seq<Seq<char>>|
            (spans == regex_matches(link_tag_pattern(), false, html@) || spans.len() == 0) && spans_in_order(
                html@,
                spans,
            ) && outs.len() == spans.len() && (forall|k: int|
                0 <= k < outs.len() ==> promotes(
                    byte_segment(html@, spans[k].0 as int, spans[k].1 as int),
                    #[trigger] outs[k],
                )) && r@ == #[trigger] spliced(html@, spans, outs),
{
    let spans = match TextPattern::new("(?is)<link\\b[^>]*>", false) {
        Ok(re) => regex_spans(&re, html),
        Err(_) => Vec::new(),
    };
    assert(spans@ == regex_matches(link_tag_pattern(), false, html@) || spans@.len() == 0);
    let r = promote_at_spans(html, &spans);
    let ghost outs = choose|outs: Seq<Seq<char>>|
        outs.len() == spans@.len() && (forall|k: int|
            0 <= k < outs.len() ==> promotes(
                byte_segment(html@, spans@[k].0 as int, spans@[k].1 as int),
                #[trigger] outs[k],
            )) && r@ == #[trigger] spliced(html@, spans@, outs);
    assert((spans@ == regex_matches(link_tag_pattern(), false, html@) || spans@.len() == 0) && spans_in_order(
        html@,
        spans@,
    ) && r@ == spliced(html@, spans@, outs));
    r
}

} // verus!
