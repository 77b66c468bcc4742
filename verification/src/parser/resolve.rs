//! Package resource resolution: which archive paths an href may name, how
//! hrefs are compared, and table-of-contents title lookup.
use vstd::prelude::*;
use crate::model::{EpubBook, TocEntry};
use crate::text::{chars_of, string_from_chars, slice_chars, extend_chars, lit, eq_chars, has_suffix, starts_with, ends_with, trim_spec, trim_chars, has_prefix_at};
use crate::processor::prepare::{guess_media_type, media_type_for_ext, extension_spec};
use crate::processor::rewrite::opt_view;
use crate::path::{parent_dir, parent_dir_spec, is_external_spec, is_external_chars, join_spec, join_epub_path, normalize_path, percent_decoded, percent_decode_lossy, file_name_spec, file_name, strip_query_and_fragment_spec, strip_query_and_fragment};

verus! {

/// A resource located inside the package.
#[derive(Clone, Debug)]
pub struct ResolvedResource {
    /// Package-root-relative path suitable for provider reads (no leading `/`).
    pub zip_path: String,
    /// Manifest media type when the path matches an OPF item; otherwise a
    /// best-effort guess from the file extension.
    pub media_type: String,
}

// ── Comparable forms ─────────────────────────────────────────────────────────

/// `s` without leading `c`s.
pub open spec fn trim_start_char(s: Seq<char>, c: char) -> Seq<char>
    decreases s.len(),
{
    if s.len() > 0 && s[0] == c {
        trim_start_char(s.drop_first(), c)
    } else {
        s
    }
}

/// `s` without trailing `c`s.
pub open spec fn trim_end_char(s: Seq<char>, c: char) -> Seq<char>
    decreases s.len(),
{
    if s.len() > 0 && s.last() == c {
        trim_end_char(s.drop_last(), c)
    } else {
        s
    }
}

/// `s` up to its first `?` or `#`.
pub open spec fn before_query_or_fragment(s: Seq<char>) -> Seq<char> {
    strip_query_and_fragment_spec(s)
}

/// The two comparable forms of an href: package-root-relative (query and
/// fragment cut, percent-decoded, leading `/` dropped), and the same with
/// the package directory prefix removed.
pub open spec fn comparable_forms_spec(opf_dir: Seq<char>, href: Seq<char>) -> (Seq<char>, Seq<char>) {
    let full = trim_start_char(percent_decoded(before_query_or_fragment(href)), '/');
    let prefix = if opf_dir.len() == 0 {
        Seq::empty()
    } else {
        trim_end_char(trim_start_char(opf_dir, '/'), '/').push('/')
    };
    let stripped = if prefix.len() > 0 && starts_with(full, prefix) {
        full.skip(prefix.len() as int)
    } else {
        full
    };
    (full, stripped)
}

/// Two hrefs name the same resource (either comparable form may match).
pub open spec fn hrefs_equal_spec(opf_dir: Seq<char>, a: Seq<char>, b: Seq<char>) -> bool {
    let (af, as_) = comparable_forms_spec(opf_dir, a);
    let (bf, bs) = comparable_forms_spec(opf_dir, b);
    af == bf || as_ == bs || af == bs || as_ == bf
}

/// Two hrefs match loosely: equal, one ends with `/` and the other's
/// stripped form, or the same non-empty file name.
pub open spec fn hrefs_match_spec(opf_dir: Seq<char>, a: Seq<char>, b: Seq<char>) -> bool {
    let (af, as_) = comparable_forms_spec(opf_dir, a);
    let (bf, bs) = comparable_forms_spec(opf_dir, b);
    ||| hrefs_equal_spec(opf_dir, a, b)
    ||| ends_with(af, seq!['/'] + bs)
    ||| ends_with(bf, seq!['/'] + as_)
    ||| (file_name_spec(as_).len() > 0 && file_name_spec(as_) == file_name_spec(bs))
}

fn trim_start_char_exec(s: &[char], c: char) -> (r: Vec<char>)
    ensures
        r@ == trim_start_char(s@, c),
{
    let mut i: usize = 0;
    assert(s@.skip(0) =~= s@);
    while i < s.len() && s[i] == c
        invariant
            i <= s@.len(),
            trim_start_char(s@, c) == trim_start_char(s@.skip(i as int), c),
        decreases s@.len() - i,
    {
        assert(s@.skip(i as int).drop_first() =~= s@.skip(i + 1));
        i = i + 1;
    }
    assert(s@.skip(i as int) =~= s@.subrange(i as int, s@.len() as int));
    slice_chars(s, i, s.len())
}

fn trim_end_char_exec(s: &[char], c: char) -> (r: Vec<char>)
    ensures
        r@ == trim_end_char(s@, c),
{
    let mut j: usize = s.len();
    assert(s@.take(j as int) =~= s@);
    while j > 0 && s[j - 1] == c
        invariant
            j <= s@.len(),
            trim_end_char(s@, c) == trim_end_char(s@.take(j as int), c),
        decreases j,
    {
        assert(s@.take(j as int).drop_last() =~= s@.take(j - 1));
        j = j - 1;
    }
    slice_chars(s, 0, j)
}

/// The two comparable forms of `href` (see [`comparable_forms_spec`]).
pub fn comparable_forms(book: &EpubBook, href: &str) -> (r: (Vec<char>, Vec<char>))
    ensures
        r.0@ == comparable_forms_spec(book.opf_dir@, href@).0,
        r.1@ == comparable_forms_spec(book.opf_dir@, href@).1,
{
    let h = chars_of(href);
    let clean = strip_query_and_fragment(&h);
    let clean_str = string_from_chars(&clean);
    let decoded = percent_decode_lossy(clean_str.as_str());
    let full = trim_start_char_exec(&chars_of(decoded.as_str()), '/');
    let od = chars_of(book.opf_dir.as_str());
    let prefix: Vec<char> = if od.len() == 0 {
        Vec::new()
    } else {
        let t = trim_start_char_exec(&od, '/');
        let mut p = trim_end_char_exec(&t, '/');
        p.push('/');
        p
    };
    let stripped = if prefix.len() > 0 && has_prefix_at(&full, 0, &prefix) {
        assert(full@.subrange(0, full@.len() as int) =~= full@);
        slice_chars(&full, prefix.len(), full.len())
    } else {
        assert(full@.subrange(0, full@.len() as int) =~= full@);
        slice_chars(&full, 0, full.len())
    };
    proof {
        assert(full@.subrange(0, full@.len() as int) =~= full@);
    }
    (full, stripped)
}

/// Exact normalized equality (either comparable form may match).
pub fn hrefs_equal(book: &EpubBook, a: &str, b: &str) -> (r: bool)
    ensures
        r == hrefs_equal_spec(book.opf_dir@, a@, b@),
{
    let (af, as_) = comparable_forms(book, a);
    let (bf, bs) = comparable_forms(book, b);
    eq_chars(&af, &bf) || eq_chars(&as_, &bs) || eq_chars(&af, &bs) || eq_chars(&as_, &bf)
}

/// Fuzzy match for mis-authored hrefs: normalized equality, then suffix
/// rules, then file-name equality.
pub fn hrefs_match(book: &EpubBook, a: &str, b: &str) -> (r: bool)
    ensures
        r == hrefs_match_spec(book.opf_dir@, a@, b@),
{
    if hrefs_equal(book, a, b) {
        return true;
    }
    let (af, as_) = comparable_forms(book, a);
    let (bf, bs) = comparable_forms(book, b);
    let mut sb = lit("/");
    extend_chars(&mut sb, &bs);
    let mut sa = lit("/");
    extend_chars(&mut sa, &as_);
    proof {
        reveal_strlit("/");
        assert(sb@ =~= seq!['/'] + bs@);
        assert(sa@ =~= seq!['/'] + as_@);
    }
    let sb_str = string_from_chars(&sb);
    let sa_str = string_from_chars(&sa);
    if has_suffix(&af, sb_str.as_str()) || has_suffix(&bf, sa_str.as_str()) {
        return true;
    }
    let fa = file_name(&as_);
    let fb = file_name(&bs);
    fa.len() > 0 && eq_chars(&fa, &fb)
}

// ── Media types ──────────────────────────────────────────────────────────────

/// The first manifest item (from `from`) whose href equals (`fuzzy` false)
/// or loosely matches (`fuzzy` true) `path`.
pub open spec fn manifest_href_index(
    book: EpubBook,
    path: Seq<char>,
    fuzzy: bool,
    from: int,
) -> Option<int>
    decreases book.manifest@.len() - from,
{
    if from < 0 || from >= book.manifest@.len() {
        None
    } else if (if fuzzy {
        hrefs_match_spec(book.opf_dir@, book.manifest@[from].href@, path)
    } else {
        hrefs_equal_spec(book.opf_dir@, book.manifest@[from].href@, path)
    }) {
        Some(from)
    } else {
        manifest_href_index(book, path, fuzzy, from + 1)
    }
}

proof fn lemma_manifest_href_index(book: EpubBook, path: Seq<char>, fuzzy: bool, from: int)
    ensures
        manifest_href_index(book, path, fuzzy, from) matches Some(i) ==> from <= i
            < book.manifest@.len(),
    decreases book.manifest@.len() - from,
{
    if !(from < 0 || from >= book.manifest@.len()) {
        lemma_manifest_href_index(book, path, fuzzy, from + 1);
    }
}

fn find_manifest_href(book: &EpubBook, path: &str, fuzzy: bool) -> (r: Option<usize>)
    ensures
        match r {
            Some(i) => manifest_href_index(*book, path@, fuzzy, 0) == Some(i as int) && i
                < book.manifest@.len(),
            None => manifest_href_index(*book, path@, fuzzy, 0) is None,
        },
{
    proof {
        lemma_manifest_href_index(*book, path@, fuzzy, 0);
    }
    let mut i: usize = 0;
    while i < book.manifest.len()
        invariant
            i <= book.manifest@.len(),
            manifest_href_index(*book, path@, fuzzy, 0) == manifest_href_index(
                *book,
                path@,
                fuzzy,
                i as int,
            ),
        decreases book.manifest@.len() - i,
    {
        let m = if fuzzy {
            hrefs_match(book, book.manifest[i].href.as_str(), path)
        } else {
            hrefs_equal(book, book.manifest[i].href.as_str(), path)
        };
        if m {
            return Some(i);
        }
        i = i + 1;
    }
    None
}

/// The manifest media type of a path: an exact match first, then a loose one.
pub open spec fn manifest_media_type_spec(book: EpubBook, path: Seq<char>) -> Option<Seq<char>> {
    match manifest_href_index(book, path, false, 0) {
        Some(i) => Some(book.manifest@[i].media_type@),
        None => match manifest_href_index(book, path, true, 0) {
            Some(i) => Some(book.manifest@[i].media_type@),
            None => None,
        },
    }
}

/// Manifest media type for a package path, preferring exact matches.
pub fn manifest_media_type(book: &EpubBook, path: &str) -> (r: Option<String>)
    ensures
        opt_view(r) == manifest_media_type_spec(*book, path@),
{
    match find_manifest_href(book, path, false) {
        Some(i) => Some(book.manifest[i].media_type.clone()),
        None => match find_manifest_href(book, path, true) {
            Some(i) => Some(book.manifest[i].media_type.clone()),
            None => None,
        },
    }
}

/// Media type for a package path: the manifest's, else a guess from the extension.
pub fn resource_media_type(book: &EpubBook, path: &str) -> (r: String)
    ensures
        r@ == match manifest_media_type_spec(*book, path@) {
            Some(mt) => mt,
            None => media_type_for_ext(extension_spec(path@)),
        },
{
    match manifest_media_type(book, path) {
        Some(mt) => mt,
        None => guess_media_type(path).to_owned(),
    }
}

// ── Candidate paths ──────────────────────────────────────────────────────────

/// Adds a candidate path (leading `/` dropped) unless it is empty or already listed.
pub open spec fn push_candidate(list: Seq<Seq<char>>, p: Seq<char>) -> Seq<Seq<char>> {
    let q = trim_start_char(p, '/');
    if q.len() > 0 && !list.contains(q) {
        list.push(q)
    } else {
        list
    }
}

/// The package directory without surrounding `/`.
pub open spec fn opf_dir_trimmed(book: EpubBook) -> Seq<char> {
    trim_end_char(trim_start_char(book.opf_dir@, '/'), '/')
}

/// The referencing chapter's href as a package path.
pub open spec fn chapter_package_path(book: EpubBook, chapter: Seq<char>) -> Seq<char> {
    let od = opf_dir_trimmed(book);
    let ch = trim_start_char(before_query_or_fragment(chapter), '/');
    if od.len() > 0 && !starts_with(ch, od.push('/')) {
        join_spec(od, ch)
    } else {
        ch
    }
}

/// The archive paths a reference may name, in the order they are tried:
/// a root-absolute reference names itself; otherwise the path relative to
/// the referencing chapter (when there is one), relative to the package
/// directory, and relative to the package root.  `None` for empty and
/// external references.
pub open spec fn candidates_spec(book: EpubBook, chapter: Option<Seq<char>>, rel: Seq<char>) -> Option<
    Seq<Seq<char>>,
> {
    if rel.len() == 0 || is_external_spec(rel) {
        None
    } else {
        let decoded = percent_decoded(before_query_or_fragment(rel));
        let od = opf_dir_trimmed(book);
        if starts_with(decoded, seq!['/']) {
            Some(push_candidate(Seq::empty(), decoded.skip(1)))
        } else {
            let first = match chapter {
                Some(ch) => push_candidate(
                    Seq::empty(),
                    join_spec(
                        parent_dir_spec(chapter_package_path(book, ch)),
                        percent_decoded(before_query_or_fragment(decoded)),
                    ),
                ),
                None => Seq::empty(),
            };
            let second = push_candidate(
                first,
                join_spec(od, percent_decoded(before_query_or_fragment(decoded))),
            );
            Some(push_candidate(second, decoded))
        }
    }
}

fn push_candidate_exec(list: &mut Vec<String>, p: &[char])
    ensures
        final(list)@.map_values(|s: String| s@) == push_candidate(
            old(list)@.map_values(|s: String| s@),
            p@,
        ),
{
    let q = trim_start_char_exec(p, '/');
    let ghost views = list@.map_values(|s: String| s@);
    if q.len() == 0 {
        return;
    }
    let mut i: usize = 0;
    while i < list.len()
        invariant
            i <= list@.len(),
            list@ == old(list)@,
            q@ == trim_start_char(p@, '/'),
            views == list@.map_values(|s: String| s@),
            forall|j: int| 0 <= j < i ==> views[j] != q@,
        decreases list@.len() - i,
    {
        let c = chars_of(list[i].as_str());
        if eq_chars(&c, &q) {
            assert(views[i as int] == q@);
            return;
        }
        i = i + 1;
    }
    list.push(string_from_chars(&q));
    assert(list@.map_values(|s: String| s@) =~= views.push(q@));
}

/// The archive paths a reference may name, in the order they are tried
/// (see [`candidates_spec`]).
pub fn resource_candidates(book: &EpubBook, chapter_href: Option<&str>, rel_path: &str) -> (r: Option<
    Vec<String>,
>)
    ensures
        match r {
            Some(v) => candidates_spec(
                *book,
                match chapter_href {
                    Some(c) => Some(c@),
                    None => None,
                },
                rel_path@,
            ) == Some(v@.map_values(|s: String| s@)),
            None => candidates_spec(
                *book,
                match chapter_href {
                    Some(c) => Some(c@),
                    None => None,
                },
                rel_path@,
            ) is None,
        },
{
    let rel = chars_of(rel_path);
    if rel.len() == 0 || is_external_chars(&rel) {
        return None;
    }
    let clean = strip_query_and_fragment(&rel);
    let decoded_s = percent_decode_lossy(string_from_chars(&clean).as_str());
    let decoded = chars_of(decoded_s.as_str());
    let od = trim_end_char_exec(&trim_start_char_exec(&chars_of(book.opf_dir.as_str()), '/'), '/');
    let od_s = string_from_chars(&od);
    let mut list: Vec<String> = Vec::new();
    assert(list@.map_values(|s: String| s@) =~= Seq::<Seq<char>>::empty());
    if decoded.len() > 0 && decoded[0] == '/' {
        let n = decoded.len();
        let rest = slice_chars(&decoded, 1, n);
        push_candidate_exec(&mut list, &rest);
        proof {
            assert(decoded@.subrange(0, 1) =~= seq!['/']);
            assert(rest@ =~= decoded@.skip(1));
        }
        return Some(list);
    }
    proof {
        if starts_with(decoded@, seq!['/']) {
            assert(decoded@[0] == seq!['/'][0]);
        }
    }
    match chapter_href {
        Some(ch) => {
            let chc = chars_of(ch);
            let ch_clean = trim_start_char_exec(&strip_query_and_fragment(&chc), '/');
            let mut prefix = slice_chars(&od, 0, od.len());
            prefix.push('/');
            assert(od@.subrange(0, od@.len() as int) =~= od@);
            let ch_pkg = if od.len() > 0 && !has_prefix_at(&ch_clean, 0, &prefix) {
                let j = join_epub_path(od_s.as_str(), string_from_chars(&ch_clean).as_str());
                chars_of(j.as_str())
            } else {
                ch_clean
            };
            proof {
                assert(ch_clean@.subrange(0, ch_clean@.len() as int) =~= ch_clean@);
            }
            let base = parent_dir(&ch_pkg);
            let cand = normalize_path(string_from_chars(&base).as_str(), decoded_s.as_str());
            push_candidate_exec(&mut list, &chars_of(cand.as_str()));
        },
        None => {},
    }
    let second = normalize_path(od_s.as_str(), decoded_s.as_str());
    push_candidate_exec(&mut list, &chars_of(second.as_str()));
    push_candidate_exec(&mut list, &decoded);
    Some(list)
}

/// The first manifest item that loosely matches a reference, as a resolved
/// resource: its href joined onto the package directory, and its media type.
pub open spec fn manifest_fallback_spec(book: EpubBook, rel: Seq<char>) -> Option<(Seq<char>, Seq<char>)> {
    let decoded = percent_decoded(before_query_or_fragment(rel));
    match manifest_href_index(book, decoded, true, 0) {
        Some(i) => Some(
            (
                join_spec(
                    opf_dir_trimmed(book),
                    percent_decoded(before_query_or_fragment(book.manifest@[i].href@)),
                ),
                book.manifest@[i].media_type@,
            ),
        ),
        None => None,
    }
}

/// Resolves a reference once the archive has been probed: `present[k]`
/// says whether candidate `k` exists.  The first existing candidate wins
/// (with its manifest or guessed media type); otherwise a manifest item
/// that loosely matches the reference.
pub fn resolve_from_probes(
    book: &EpubBook,
    rel_path: &str,
    candidates: &Vec<String>,
    present: &[bool],
) -> (r: Option<ResolvedResource>)
    requires
        present@.len() == candidates@.len(),
    ensures
        match r {
            Some(res) => (exists|k: int|
                0 <= k < candidates@.len() && present@[k] && (forall|j: int|
                    0 <= j < k ==> !present@[j]) && res.zip_path@ == candidates@[k]@
                    && res.media_type@ == match manifest_media_type_spec(*book, candidates@[k]@) {
                    Some(mt) => mt,
                    None => media_type_for_ext(extension_spec(candidates@[k]@)),
                }) || ((forall|j: int| 0 <= j < present@.len() ==> !present@[j])
                && manifest_fallback_spec(*book, rel_path@) == Some(
                (res.zip_path@, res.media_type@),
            )),
            None => (forall|j: int| 0 <= j < present@.len() ==> !present@[j])
                && manifest_fallback_spec(*book, rel_path@) is None,
        },
{
    let mut k: usize = 0;
    while k < candidates.len()
        invariant
            k <= candidates@.len(),
            present@.len() == candidates@.len(),
            forall|j: int| 0 <= j < k ==> !present@[j],
        decreases candidates@.len() - k,
    {
        if present[k] {
            let mt = resource_media_type(book, candidates[k].as_str());
            return Some(ResolvedResource { zip_path: candidates[k].clone(), media_type: mt });
        }
        k = k + 1;
    }
    let rel = chars_of(rel_path);
    let clean = strip_query_and_fragment(&rel);
    let decoded_s = percent_decode_lossy(string_from_chars(&clean).as_str());
    match find_manifest_href(book, decoded_s.as_str(), true) {
        Some(i) => {
            let od = trim_end_char_exec(
                &trim_start_char_exec(&chars_of(book.opf_dir.as_str()), '/'),
                '/',
            );
            let zip = normalize_path(string_from_chars(&od).as_str(), book.manifest[i].href.as_str());
            Some(ResolvedResource { zip_path: zip, media_type: book.manifest[i].media_type.clone() })
        },
        None => None,
    }
}

// ── Table-of-contents titles ─────────────────────────────────────────────────

/// The (href, title) pairs of a TOC tree, parents before their children,
/// in document order.
pub open spec fn toc_href_titles(entries: Seq<TocEntry>) -> Seq<(Seq<char>, Seq<char>)>
    decreases entries,
{
    if entries.len() == 0 {
        Seq::empty()
    } else {
        let e = entries[0];
        proof {
            assert(decreases_to!(entries => entries[0]));
            assert(decreases_to!(entries[0] => entries[0].children));
            assert(decreases_to!(entries[0].children => entries[0].children@));
        }
        seq![(e.href@, e.title@)] + toc_href_titles(e.children@) + toc_href_titles(
            entries.drop_first(),
        )
    }
}

proof fn lemma_toc_href_titles_append(a: Seq<TocEntry>, b: Seq<TocEntry>)
    ensures
        toc_href_titles(a + b) == toc_href_titles(a) + toc_href_titles(b),
    decreases a.len(),
{
    if a.len() == 0 {
        assert(a + b =~= b);
        assert(toc_href_titles(a) + toc_href_titles(b) =~= toc_href_titles(b));
    } else {
        assert((a + b)[0] == a[0]);
        assert((a + b).drop_first() =~= a.drop_first() + b);
        lemma_toc_href_titles_append(a.drop_first(), b);
        let e = a[0];
        let head = seq![(e.href@, e.title@)] + toc_href_titles(e.children@);
        assert(toc_href_titles(a + b) == head + toc_href_titles(a.drop_first() + b));
        assert(toc_href_titles(a) == head + toc_href_titles(a.drop_first()));
        assert(head + (toc_href_titles(a.drop_first()) + toc_href_titles(b)) =~= head
            + toc_href_titles(a.drop_first()) + toc_href_titles(b));
    }
}

fn collect_href_titles(entries: &[TocEntry], out: &mut Vec<(String, String)>)
    ensures
        final(out)@.map_values(|p: (String, String)| (p.0@, p.1@)) == old(out)@.map_values(
            |p: (String, String)| (p.0@, p.1@),
        ) + toc_href_titles(entries@),
    decreases entries@,
{
    let ghost start = out@.map_values(|p: (String, String)| (p.0@, p.1@));
    let mut i: usize = 0;
    assert(entries@.take(0) =~= Seq::<TocEntry>::empty());
    while i < entries.len()
        invariant
            i <= entries@.len(),
            out@.map_values(|p: (String, String)| (p.0@, p.1@)) == start + toc_href_titles(
                entries@.take(i as int),
            ),
        decreases entries@.len() - i,
    {
        let e = &entries[i];
        let ghost before = out@.map_values(|p: (String, String)| (p.0@, p.1@));
        out.push((e.href.clone(), e.title.clone()));
        proof {
            assert(out@.map_values(|p: (String, String)| (p.0@, p.1@)) =~= before.push(
                (e.href@, e.title@),
            ));
            assert(decreases_to!(entries@ => entries@[i as int]));
            assert(decreases_to!(entries@[i as int] => entries@[i as int].children));
            assert(decreases_to!(entries@[i as int].children => entries@[i as int].children@));
        }
        collect_href_titles(e.children.as_slice(), out);
        proof {
            let one = seq![entries@[i as int]];
            assert(entries@.take(i + 1) =~= entries@.take(i as int) + one);
            lemma_toc_href_titles_append(entries@.take(i as int), one);
            assert(one.drop_first() =~= Seq::<TocEntry>::empty());
            assert(toc_href_titles(Seq::<TocEntry>::empty()) =~= Seq::<
                (Seq<char>, Seq<char>),
            >::empty());
            assert(one[0] == *e);
            let head = seq![(e.href@, e.title@)] + toc_href_titles(e.children@);
            assert(toc_href_titles(one) == head + toc_href_titles(one.drop_first()));
            assert(toc_href_titles(one) =~= head);
            assert(out@.map_values(|p: (String, String)| (p.0@, p.1@)) =~= start
                + toc_href_titles(entries@.take(i + 1)));
        }
        i = i + 1;
    }
    assert(entries@.take(i as int) =~= entries@);
}

/// Which comparison a title-lookup pass uses.
#[derive(Clone, Copy, Debug, PartialEq, Eq)]
pub enum TitlePass {
    /// The hrefs are equal once surrounding white space is trimmed.
    Verbatim,
    /// The hrefs are equal in one of their comparable forms.
    Normalized,
    /// The hrefs match loosely.
    Fuzzy,
}

/// Whether a TOC href is taken for `href` in the given pass.
pub open spec fn pass_accepts(opf_dir: Seq<char>, pass: TitlePass, toc_href: Seq<char>, href: Seq<char>) -> bool {
    match pass {
        TitlePass::Verbatim => trim_spec(toc_href) == trim_spec(href),
        TitlePass::Normalized => hrefs_equal_spec(opf_dir, toc_href, href),
        TitlePass::Fuzzy => hrefs_match_spec(opf_dir, toc_href, href),
    }
}

/// The title of the first pair (from `from`) that the pass accepts.
pub open spec fn first_title_in_pass(
    opf_dir: Seq<char>,
    pairs: Seq<(Seq<char>, Seq<char>)>,
    pass: TitlePass,
    href: Seq<char>,
    from: int,
) -> Option<Seq<char>>
    decreases pairs.len() - from,
{
    if from < 0 || from >= pairs.len() {
        None
    } else if pass_accepts(opf_dir, pass, pairs[from].0, href) {
        Some(pairs[from].1)
    } else {
        first_title_in_pass(opf_dir, pairs, pass, href, from + 1)
    }
}

/// The TOC title for an href: a verbatim match first, then a normalized
/// one, then a loose one, each the first in table-of-contents order.
pub open spec fn toc_title_spec(opf_dir: Seq<char>, toc: Seq<TocEntry>, href: Seq<char>) -> Option<
    Seq<char>,
> {
    let pairs = toc_href_titles(toc);
    match first_title_in_pass(opf_dir, pairs, TitlePass::Verbatim, href, 0) {
        Some(t) => Some(t),
        None => match first_title_in_pass(opf_dir, pairs, TitlePass::Normalized, href, 0) {
            Some(t) => Some(t),
            None => first_title_in_pass(opf_dir, pairs, TitlePass::Fuzzy, href, 0),
        },
    }
}

fn title_in_pass(book: &EpubBook, pairs: &Vec<(String, String)>, pass: TitlePass, href: &str) -> (r:
    Option<String>)
    ensures
        opt_view(r) == first_title_in_pass(
            book.opf_dir@,
            pairs@.map_values(|p: (String, String)| (p.0@, p.1@)),
            pass,
            href@,
            0,
        ),
{
    let ghost views = pairs@.map_values(|p: (String, String)| (p.0@, p.1@));
    let wanted = trim_chars(&chars_of(href));
    let mut i: usize = 0;
    while i < pairs.len()
        invariant
            i <= pairs@.len(),
            views == pairs@.map_values(|p: (String, String)| (p.0@, p.1@)),
            wanted@ == trim_spec(href@),
            first_title_in_pass(book.opf_dir@, views, pass, href@, 0) == first_title_in_pass(
                book.opf_dir@,
                views,
                pass,
                href@,
                i as int,
            ),
        decreases pairs@.len() - i,
    {
        let h = pairs[i].0.as_str();
        let accepted = match pass {
            TitlePass::Verbatim => eq_chars(&trim_chars(&chars_of(h)), &wanted),
            TitlePass::Normalized => hrefs_equal(book, h, href),
            TitlePass::Fuzzy => hrefs_match(book, h, href),
        };
        proof {
            assert(views[i as int] == (pairs@[i as int].0@, pairs@[i as int].1@));
        }
        if accepted {
            return Some(pairs[i].1.clone());
        }
        i = i + 1;
    }
    None
}

/// The TOC title for `href` (see [`toc_title_spec`]): verbatim equality
/// first, which tells apart entries that address sections of one file by
/// fragment, then normalized equality, then the loose match.
pub fn toc_title_for_href(book: &EpubBook, toc: &[TocEntry], href: &str) -> (r: Option<String>)
    ensures
        opt_view(r) == toc_title_spec(book.opf_dir@, toc@, href@),
{
    let mut pairs: Vec<(String, String)> = Vec::new();
    collect_href_titles(toc, &mut pairs);
    assert(pairs@.map_values(|p: (String, String)| (p.0@, p.1@)) =~= toc_href_titles(toc@));
    match title_in_pass(book, &pairs, TitlePass::Verbatim, href) {
        Some(t) => Some(t),
        None => match title_in_pass(book, &pairs, TitlePass::Normalized, href) {
            Some(t) => Some(t),
            None => title_in_pass(book, &pairs, TitlePass::Fuzzy, href),
        },
    }
}

} // verus!
