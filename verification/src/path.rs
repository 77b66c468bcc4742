//! EPUB-internal path and href utilities.
//!
//! EPUB containers use forward-slash, root-relative paths (no leading `/`).
//! One policy here keeps fragment handling, percent-decoding and `..`
//! traversal consistent across navigation, rewriting and packaging.
use vstd::prelude::*;
use crate::text::{
    starts_with, first_pos, last_pos, lemma_first_pos, lemma_last_pos, chars_of,
    string_from_chars, slice_chars, extend_chars, has_prefix, find_char, rfind_char, eq_chars,
};

verus! {

// ── Specification ────────────────────────────────────────────────────────────

/// A reference that is not an EPUB-internal relative path: a scheme, a
/// protocol-relative URL or a data URI.
pub open spec fn is_external_spec(url: Seq<char>) -> bool {
    ||| starts_with(url, "http://"@)
    ||| starts_with(url, "https://"@)
    ||| starts_with(url, "data:"@)
    ||| starts_with(url, "mailto:"@)
    ||| starts_with(url, "ftp:"@)
    ||| starts_with(url, "blob:"@)
    ||| starts_with(url, "//"@)
}

/// The pieces of `s` between occurrences of `sep` (as `str::split` gives
/// them: there is always at least one piece, possibly empty).
pub open spec fn split_on(s: Seq<char>, sep: char) -> Seq<Seq<char>>
    decreases s.len(),
{
    if s.len() == 0 {
        seq![Seq::<char>::empty()]
    } else {
        let prev = split_on(s.drop_last(), sep);
        if s.last() == sep {
            prev.push(Seq::<char>::empty())
        } else {
            prev.update(prev.len() - 1, prev.last().push(s.last()))
        }
    }
}

/// The path segment `.`.
pub open spec fn dot() -> Seq<char> {
    seq!['.']
}

/// The path segment `..`.
pub open spec fn dot_dot() -> Seq<char> {
    seq!['.', '.']
}

/// One step of path resolution: empty and `.` segments are skipped, `..`
/// drops the last kept segment (if any), any other segment is kept.
pub open spec fn push_segment(stack: Seq<Seq<char>>, seg: Seq<char>) -> Seq<Seq<char>> {
    if seg.len() == 0 || seg == dot() {
        stack
    } else if seg == dot_dot() {
        if stack.len() > 0 {
            stack.drop_last()
        } else {
            stack
        }
    } else {
        stack.push(seg)
    }
}

/// The kept segments after resolving `segs`, in order, starting from `stack`.
pub open spec fn resolve_from(stack: Seq<Seq<char>>, segs: Seq<Seq<char>>) -> Seq<Seq<char>>
    decreases segs.len(),
{
    if segs.len() == 0 {
        stack
    } else {
        push_segment(resolve_from(stack, segs.drop_last()), segs.last())
    }
}

/// `parts` joined with `sep` between consecutive parts.
pub open spec fn join_with(parts: Seq<Seq<char>>, sep: char) -> Seq<char>
    decreases parts.len(),
{
    if parts.len() == 0 {
        Seq::<char>::empty()
    } else if parts.len() == 1 {
        parts[0]
    } else {
        join_with(parts.drop_last(), sep).push(sep) + parts.last()
    }
}

/// The segments of `base` then of `rel`, resolved.
pub open spec fn joined_segments(base: Seq<char>, rel: Seq<char>) -> Seq<Seq<char>> {
    resolve_from(Seq::empty(), split_on(base, '/') + split_on(rel, '/'))
}

/// `rel` joined onto `base`, with `.` and `..` resolved.
pub open spec fn join_spec(base: Seq<char>, rel: Seq<char>) -> Seq<char> {
    join_with(joined_segments(base, rel), '/')
}

/// `s` up to (not including) its first `c`.
pub open spec fn before_first(s: Seq<char>, c: char) -> Seq<char> {
    s.take(first_pos(s, c))
}

/// `s` without its query string and fragment.
pub open spec fn strip_query_and_fragment_spec(s: Seq<char>) -> Seq<char> {
    before_first(before_first(s, '?'), '#')
}

/// `s` split before its first `#`: the path, and the fragment (empty or
/// starting with `#`).
pub open spec fn split_fragment_spec(s: Seq<char>) -> (Seq<char>, Seq<char>) {
    (s.take(first_pos(s, '#')), s.skip(first_pos(s, '#')))
}

/// What `resolve_href` gives.
pub open spec fn resolve_href_spec(base: Seq<char>, rel: Seq<char>) -> Seq<char> {
    if starts_with(rel, "#"@) || is_external_spec(rel) || rel.len() == 0 || base.len() == 0 {
        rel
    } else {
        join_spec(base, split_fragment_spec(rel).0) + split_fragment_spec(rel).1
    }
}

/// The directory part of a path (`""` for a file at the root).
pub open spec fn parent_dir_spec(path: Seq<char>) -> Seq<char> {
    if last_pos(path, '/') < 0 {
        Seq::empty()
    } else {
        path.take(last_pos(path, '/'))
    }
}

/// The file-name part of a path.
pub open spec fn file_name_spec(path: Seq<char>) -> Seq<char> {
    if last_pos(path, '/') < 0 {
        path
    } else {
        path.skip(last_pos(path, '/') + 1)
    }
}

/// `segs` without its empty members.
pub open spec fn drop_empty(segs: Seq<Seq<char>>) -> Seq<Seq<char>>
    decreases segs.len(),
{
    if segs.len() == 0 {
        segs
    } else if segs.last().len() > 0 {
        drop_empty(segs.drop_last()).push(segs.last())
    } else {
        drop_empty(segs.drop_last())
    }
}

/// The non-empty segments of a directory path.
pub open spec fn dir_parts(dir: Seq<char>) -> Seq<Seq<char>> {
    drop_empty(split_on(dir, '/'))
}

/// The views of a vector of character vectors.
pub open spec fn seg_views(v: Seq<Vec<char>>) -> Seq<Seq<char>> {
    v.map_values(|x: Vec<char>| x@)
}

/// Length of the longest common prefix of `a` and `b`.
pub open spec fn common_prefix_len(a: Seq<Seq<char>>, b: Seq<Seq<char>>) -> nat
    decreases a.len(),
{
    if a.len() == 0 || b.len() == 0 || a[0] != b[0] {
        0
    } else {
        1 + common_prefix_len(a.drop_first(), b.drop_first())
    }
}

/// What `epub_relative_path` gives: one `..` per directory of `from` below the
/// common ancestor, then the directories of `to` below it, then the file name.
pub open spec fn relative_parts(from_file: Seq<char>, to_file: Seq<char>) -> Seq<Seq<char>> {
    let f = dir_parts(parent_dir_spec(from_file));
    let t = dir_parts(parent_dir_spec(to_file));
    let k = common_prefix_len(f, t);
    Seq::new((f.len() - k) as nat, |i: int| dot_dot()) + t.skip(k as int).push(
        file_name_spec(to_file),
    )
}

pub open spec fn relative_path_spec(from_file: Seq<char>, to_file: Seq<char>) -> Seq<char> {
    join_with(relative_parts(from_file, to_file), '/')
}

/// A segment that path resolution keeps as it is.
pub open spec fn is_plain_segment(seg: Seq<char>) -> bool {
    seg.len() > 0 && seg != dot() && seg != dot_dot() && !seg.contains('/')
}

/// A path with no empty, `.` or `..` segment (and so non-empty, with no
/// leading, trailing or doubled `/`).
pub open spec fn is_normal_path(p: Seq<char>) -> bool {
    forall|i: int| 0 <= i < split_on(p, '/').len() ==> is_plain_segment(#[trigger] split_on(p, '/')[i])
}

// ── Lemmas ───────────────────────────────────────────────────────────────────

pub proof fn lemma_split_nonempty(s: Seq<char>, sep: char)
    ensures
        split_on(s, sep).len() >= 1,
    decreases s.len(),
{
    if s.len() > 0 {
        lemma_split_nonempty(s.drop_last(), sep);
    }
}

/// Splitting a longer string: how the last piece grows.
pub proof fn lemma_split_push(s: Seq<char>, c: char, sep: char)
    ensures
        c == sep ==> split_on(s.push(c), sep) == split_on(s, sep).push(Seq::<char>::empty()),
        c != sep ==> split_on(s.push(c), sep) == split_on(s, sep).update(
            split_on(s, sep).len() - 1,
            split_on(s, sep).last().push(c),
        ),
{
    assert(s.push(c).drop_last() =~= s);
}

pub proof fn lemma_resolve_append(st: Seq<Seq<char>>, a: Seq<Seq<char>>, b: Seq<Seq<char>>)
    ensures
        resolve_from(st, a + b) == resolve_from(resolve_from(st, a), b),
    decreases b.len(),
{
    if b.len() == 0 {
        assert(a + b =~= a);
    } else {
        assert((a + b).drop_last() =~= a + b.drop_last());
        assert((a + b).last() == b.last());
        lemma_resolve_append(st, a, b.drop_last());
    }
}

pub proof fn lemma_split_no_sep(s: Seq<char>, sep: char)
    ensures
        forall|i: int|
            0 <= i < split_on(s, sep).len() ==> !(#[trigger] split_on(s, sep)[i]).contains(sep),
    decreases s.len(),
{
    if s.len() > 0 {
        let prev = split_on(s.drop_last(), sep);
        lemma_split_no_sep(s.drop_last(), sep);
        lemma_split_nonempty(s.drop_last(), sep);
        assert forall|i: int| 0 <= i < split_on(s, sep).len() implies !(
        #[trigger] split_on(s, sep)[i]).contains(sep) by {
            if i == prev.len() - 1 && s.last() != sep {
                let seg = prev.last().push(s.last());
                assert(split_on(s, sep)[i] == seg);
                if seg.contains(sep) {
                    let j = choose|j: int| 0 <= j < seg.len() && seg[j] == sep;
                    assert(prev[i][j] == sep);
                }
            } else if i < prev.len() {
                assert(split_on(s, sep)[i] == prev[i]);
            } else {
                assert(split_on(s, sep)[i] == Seq::<char>::empty());
            }
        }
    }
}

/// Appending characters without a separator extends the last piece.
pub proof fn lemma_split_append_plain(x: Seq<char>, y: Seq<char>, sep: char)
    requires
        !y.contains(sep),
    ensures
        split_on(x + y, sep) == split_on(x, sep).update(
            split_on(x, sep).len() - 1,
            split_on(x, sep).last() + y,
        ),
    decreases y.len(),
{
    lemma_split_nonempty(x, sep);
    let px = split_on(x, sep);
    if y.len() == 0 {
        assert(x + y =~= x);
        assert(px.last() + y =~= px.last());
        assert(px.update(px.len() - 1, px.last() + y) =~= px);
    } else {
        let y0 = y.drop_last();
        assert(!y0.contains(sep)) by {
            if y0.contains(sep) {
                let j = choose|j: int| 0 <= j < y0.len() && y0[j] == sep;
                assert(y[j] == sep);
            }
        }
        lemma_split_append_plain(x, y0, sep);
        assert((x + y0).push(y.last()) =~= x + y);
        assert(y[y.len() - 1] != sep);
        lemma_split_push(x + y0, y.last(), sep);
        assert((px.last() + y0).push(y.last()) =~= px.last() + y);
        assert(split_on(x + y, sep) =~= px.update(px.len() - 1, px.last() + y));
    }
}

/// Joining the pieces of a split gives the string back.
pub proof fn lemma_join_split(s: Seq<char>, sep: char)
    ensures
        join_with(split_on(s, sep), sep) == s,
    decreases s.len(),
{
    if s.len() > 0 {
        let p = split_on(s.drop_last(), sep);
        lemma_join_split(s.drop_last(), sep);
        lemma_split_nonempty(s.drop_last(), sep);
        let q = split_on(s, sep);
        if s.last() == sep {
            assert(q.drop_last() =~= p);
            assert(join_with(q, sep) =~= s);
        } else {
            assert(q == p.update(p.len() - 1, p.last().push(s.last())));
            if p.len() == 1 {
                assert(q.len() == 1);
                assert(join_with(q, sep) == q[0]);
                assert(join_with(p, sep) == p[0]);
                assert(q[0] == p.last().push(s.last()));
                assert(p.last() == p[0]);
                assert(s.drop_last().push(s.last()) =~= s);
                assert(join_with(q, sep) =~= s);
            } else {
                assert(q.drop_last() =~= p.drop_last());
                let jp = join_with(p.drop_last(), sep).push(sep);
                assert(join_with(q, sep) =~= jp + p.last().push(s.last()));
                assert(join_with(p, sep) == jp + p.last());
                assert((jp + p.last()).push(s.last()) =~= jp + p.last().push(s.last()));
                assert(s.drop_last().push(s.last()) =~= s);
                assert(join_with(q, sep) =~= s);
            }
        }
    }
}

/// Splitting a join of separator-free parts gives the parts back.
pub proof fn lemma_split_join(parts: Seq<Seq<char>>, sep: char)
    requires
        parts.len() >= 1,
        forall|i: int| 0 <= i < parts.len() ==> !(#[trigger] parts[i]).contains(sep),
    ensures
        split_on(join_with(parts, sep), sep) == parts,
    decreases parts.len(),
{
    if parts.len() == 1 {
        lemma_split_append_plain(Seq::empty(), parts[0], sep);
        assert(Seq::<char>::empty() + parts[0] =~= parts[0]);
        assert(split_on(Seq::<char>::empty(), sep) =~= seq![Seq::<char>::empty()]);
        assert(split_on(parts[0], sep) =~= parts);
    } else {
        let init = parts.drop_last();
        assert forall|i: int| 0 <= i < init.len() implies !(#[trigger] init[i]).contains(sep) by {
            assert(init[i] == parts[i]);
        }
        lemma_split_join(init, sep);
        let j = join_with(init, sep);
        lemma_split_push(j, sep, sep);
        assert(!parts.last().contains(sep)) by {
            assert(parts.last() == parts[parts.len() - 1]);
        }
        lemma_split_append_plain(j.push(sep), parts.last(), sep);
        assert(split_on(join_with(parts, sep), sep) =~= parts);
    }
}

/// Resolution keeps only plain segments.
pub proof fn lemma_resolve_plain(st: Seq<Seq<char>>, segs: Seq<Seq<char>>)
    requires
        forall|i: int| 0 <= i < st.len() ==> is_plain_segment(#[trigger] st[i]),
        forall|i: int| 0 <= i < segs.len() ==> !(#[trigger] segs[i]).contains('/'),
    ensures
        forall|i: int|
            0 <= i < resolve_from(st, segs).len() ==> is_plain_segment(
                #[trigger] resolve_from(st, segs)[i],
            ),
    decreases segs.len(),
{
    if segs.len() > 0 {
        let init = segs.drop_last();
        assert forall|i: int| 0 <= i < init.len() implies !(#[trigger] init[i]).contains('/') by {
            assert(init[i] == segs[i]);
        }
        lemma_resolve_plain(st, init);
        let r0 = resolve_from(st, init);
        let seg = segs.last();
        assert(!seg.contains('/')) by {
            assert(seg == segs[segs.len() - 1]);
        }
        let r = resolve_from(st, segs);
        assert forall|i: int| 0 <= i < r.len() implies is_plain_segment(#[trigger] r[i]) by {
            if i < r0.len() {
                assert(r[i] == r0[i]);
            }
        }
    }
}

pub proof fn lemma_drop_empty_all_nonempty(x: Seq<Seq<char>>)
    requires
        forall|i: int| 0 <= i < x.len() ==> (#[trigger] x[i]).len() > 0,
    ensures
        drop_empty(x) == x,
    decreases x.len(),
{
    if x.len() > 0 {
        let init = x.drop_last();
        assert forall|i: int| 0 <= i < init.len() implies (#[trigger] init[i]).len() > 0 by {
            assert(init[i] == x[i]);
        }
        lemma_drop_empty_all_nonempty(init);
        assert(x[x.len() - 1].len() > 0);
        assert(init.push(x.last()) =~= x);
    }
}

/// Resolving plain and empty segments appends the plain ones.
pub proof fn lemma_resolve_plain_or_empty(st: Seq<Seq<char>>, segs: Seq<Seq<char>>)
    requires
        forall|i: int|
            0 <= i < segs.len() ==> is_plain_segment(#[trigger] segs[i]) || segs[i].len() == 0,
    ensures
        resolve_from(st, segs) == st + drop_empty(segs),
    decreases segs.len(),
{
    if segs.len() == 0 {
        assert(st + drop_empty(segs) =~= st);
    } else {
        let init = segs.drop_last();
        assert forall|i: int| 0 <= i < init.len() implies is_plain_segment(#[trigger] init[i])
            || init[i].len() == 0 by {
            assert(init[i] == segs[i]);
        }
        lemma_resolve_plain_or_empty(st, init);
        let last = segs.last();
        assert(is_plain_segment(last) || last.len() == 0) by {
            assert(last == segs[segs.len() - 1]);
        }
        if last.len() > 0 {
            assert((st + drop_empty(init)).push(last) =~= st + drop_empty(init).push(last));
        }
    }
}

/// Each `..` drops one kept segment.
pub proof fn lemma_resolve_ups(st: Seq<Seq<char>>, u: nat)
    requires
        u <= st.len(),
    ensures
        resolve_from(st, Seq::new(u, |i: int| dot_dot())) == st.take(st.len() - u),
    decreases u,
{
    let ups = Seq::new(u, |i: int| dot_dot());
    if u == 0 {
        assert(st.take(st.len() as int) =~= st);
    } else {
        assert(ups.drop_last() =~= Seq::new((u - 1) as nat, |i: int| dot_dot()));
        lemma_resolve_ups(st, (u - 1) as nat);
        assert(ups.last() == dot_dot());
        assert(st.take(st.len() - (u - 1)).drop_last() =~= st.take(st.len() - u));
    }
}

pub proof fn lemma_common_prefix_props(a: Seq<Seq<char>>, b: Seq<Seq<char>>)
    ensures
        common_prefix_len(a, b) <= a.len(),
        common_prefix_len(a, b) <= b.len(),
        forall|j: int| 0 <= j < common_prefix_len(a, b) ==> a[j] == b[j],
    decreases a.len(),
{
    if !(a.len() == 0 || b.len() == 0 || a[0] != b[0]) {
        lemma_common_prefix_props(a.drop_first(), b.drop_first());
        assert forall|j: int| 0 <= j < common_prefix_len(a, b) implies a[j] == b[j] by {
            if j > 0 {
                assert(a[j] == a.drop_first()[j - 1]);
                assert(b[j] == b.drop_first()[j - 1]);
            }
        }
    }
}

/// The pieces of a normal path are the pieces of its directory followed by
/// its file name.
pub proof fn lemma_normal_path_parts(p: Seq<char>)
    requires
        is_normal_path(p),
    ensures
        split_on(p, '/').len() >= 1,
        dir_parts(parent_dir_spec(p)) == split_on(p, '/').drop_last(),
        file_name_spec(p) == split_on(p, '/').last(),
        resolve_from(Seq::empty(), split_on(parent_dir_spec(p), '/')) == split_on(p, '/').drop_last(),
{
    let sp = split_on(p, '/');
    lemma_split_nonempty(p, '/');
    crate::text::lemma_last_pos(p, '/');
    let lp = last_pos(p, '/');
    if lp < 0 {
        assert(!p.contains('/'));
        lemma_split_append_plain(Seq::empty(), p, '/');
        assert(Seq::<char>::empty() + p =~= p);
        assert(split_on(Seq::<char>::empty(), '/') =~= seq![Seq::<char>::empty()]);
        assert(sp =~= seq![p]);
        let e = split_on(Seq::<char>::empty(), '/');
        assert(e.drop_last() =~= Seq::<Seq<char>>::empty());
        assert(drop_empty(e.drop_last()) =~= Seq::<Seq<char>>::empty());
        assert(e.last().len() == 0);
        assert(drop_empty(e) =~= Seq::<Seq<char>>::empty());
        assert(sp.drop_last() =~= Seq::<Seq<char>>::empty());
        lemma_resolve_plain_or_empty(Seq::empty(), e);
        assert(Seq::<Seq<char>>::empty() + drop_empty(e) =~= drop_empty(e));
    } else {
        let d = p.take(lp);
        let n = p.skip(lp + 1);
        assert(!n.contains('/')) by {
            if n.contains('/') {
                let j = choose|j: int| 0 <= j < n.len() && n[j] == '/';
                assert(p[lp + 1 + j] == '/');
            }
        }
        assert(d.push('/') + n =~= p);
        lemma_split_push(d, '/', '/');
        lemma_split_append_plain(d.push('/'), n, '/');
        lemma_split_nonempty(d, '/');
        let sd = split_on(d, '/');
        assert(Seq::<char>::empty() + n =~= n);
        assert(sp =~= sd.push(n));
        assert(sp.drop_last() =~= sd);
        assert forall|i: int| 0 <= i < sd.len() implies is_plain_segment(#[trigger] sd[i]) by {
            assert(sd[i] == sp[i]);
        }
        lemma_drop_empty_all_nonempty(sd);
        lemma_resolve_plain_or_empty(Seq::empty(), sd);
        assert(Seq::<Seq<char>>::empty() + drop_empty(sd) =~= sd);
    }
}

// ── Laws ─────────────────────────────────────────────────────────────────────

/// A joined path never contains an empty, `.` or `..` segment: `..` beyond
/// the package root is dropped, and the result is either empty or a normal
/// path.
pub proof fn law_join_is_normal(base: Seq<char>, rel: Seq<char>)
    ensures
        join_spec(base, rel).len() == 0 || is_normal_path(join_spec(base, rel)),
{
    let segs = split_on(base, '/') + split_on(rel, '/');
    lemma_split_no_sep(base, '/');
    lemma_split_no_sep(rel, '/');
    assert forall|i: int| 0 <= i < segs.len() implies !(#[trigger] segs[i]).contains('/') by {
        if i < split_on(base, '/').len() {
            assert(segs[i] == split_on(base, '/')[i]);
        } else {
            assert(segs[i] == split_on(rel, '/')[i - split_on(base, '/').len()]);
        }
    }
    lemma_resolve_plain(Seq::empty(), segs);
    let r = joined_segments(base, rel);
    if r.len() > 0 {
        lemma_split_join(r, '/');
    }
}

/// When a reference has no fragment (and is a non-empty relative path
/// resolved against a non-empty base), `resolve_href` and `join_epub_path`
/// agree.
pub proof fn law_resolve_agrees_with_join(base: Seq<char>, rel: Seq<char>)
    requires
        base.len() > 0,
        rel.len() > 0,
        !rel.contains('#'),
        !is_external_spec(rel),
    ensures
        resolve_href_spec(base, rel) == join_spec(base, rel),
{
    crate::text::lemma_first_pos_unique(rel, '#', rel.len() as int);
    assert(rel.take(rel.len() as int) =~= rel);
    assert(rel.skip(rel.len() as int) =~= Seq::<char>::empty());
    reveal_strlit("#");
    if starts_with(rel, "#"@) {
        assert(rel[0] == "#"@[0]);
        assert(rel.contains('#'));
    }
    assert(join_spec(base, rel) + Seq::<char>::empty() =~= join_spec(base, rel));
}

/// A relative path made by `epub_relative_path` leads back to its target
/// when resolved against the directory of the file it is written into.
pub proof fn law_relative_path_roundtrip(from: Seq<char>, to: Seq<char>)
    requires
        is_normal_path(from),
        is_normal_path(to),
    ensures
        join_spec(parent_dir_spec(from), relative_path_spec(from, to)) == to,
{
    lemma_normal_path_parts(from);
    lemma_normal_path_parts(to);
    let sf = split_on(from, '/');
    let st = split_on(to, '/');
    let f = dir_parts(parent_dir_spec(from));
    let t = dir_parts(parent_dir_spec(to));
    let name = file_name_spec(to);
    let k = common_prefix_len(f, t);
    lemma_common_prefix_props(f, t);
    let u = (f.len() - k) as nat;
    let ups = Seq::new(u, |i: int| dot_dot());
    let rest = t.skip(k as int).push(name);
    let parts = relative_parts(from, to);
    assert(parts == ups + rest);
    // every part is a plain segment or `..`, none holds a `/`
    assert forall|i: int| 0 <= i < rest.len() implies is_plain_segment(#[trigger] rest[i]) by {
        if i < rest.len() - 1 {
            assert(rest[i] == t[k + i]);
            assert(t[k + i] == st[k + i]);
        } else {
            assert(rest[i] == st[st.len() - 1]);
        }
    }
    assert forall|i: int| 0 <= i < parts.len() implies !(#[trigger] parts[i]).contains('/') by {
        if i < u {
            assert(parts[i] == dot_dot());
            if dot_dot().contains('/') {
                let j = choose|j: int| 0 <= j < dot_dot().len() && dot_dot()[j] == '/';
                assert(j == 0 || j == 1);
            }
        } else {
            assert(parts[i] == rest[i - u]);
        }
    }
    lemma_split_join(parts, '/');
    // resolving: the directory of `from`, then `u` times `..`, then the rest
    let pd = split_on(parent_dir_spec(from), '/');
    lemma_resolve_append(Seq::empty(), pd, parts);
    lemma_resolve_append(f, ups, rest);
    lemma_resolve_ups(f, u);
    assert(f.take(f.len() - u) =~= f.take(k as int));
    lemma_resolve_plain_or_empty(f.take(k as int), rest);
    lemma_drop_empty_all_nonempty(rest);
    assert(f.take(k as int) =~= t.take(k as int));
    assert(t.take(k as int) + rest =~= st);
    lemma_join_split(to, '/');
}

// ── Code ─────────────────────────────────────────────────────────────────────

/// Returns true when `url` is not an EPUB-internal relative path and must not
/// be joined against a base directory (schemes, protocol-relative, data URIs).
pub fn is_external_url(url: &str) -> (b: bool)
    ensures
        b == is_external_spec(url@),
{
    let v = chars_of(url);
    is_external_chars(&v)
}

/// [`is_external_url`] on characters.
pub fn is_external_chars(v: &[char]) -> (b: bool)
    ensures
        b == is_external_spec(v@),
{
    has_prefix(v, "http://") || has_prefix(v, "https://") || has_prefix(v, "data:")
        || has_prefix(v, "mailto:") || has_prefix(v, "ftp:") || has_prefix(v, "blob:")
        || has_prefix(v, "//")
}

fn is_dot_segment(seg: &[char]) -> (b: bool)
    ensures
        b == (seg@ == dot()),
{
    let b = seg.len() == 1 && seg[0] == '.';
    if b {
        assert(seg@ =~= dot());
    }
    b
}

fn is_dot_dot_segment(seg: &[char]) -> (b: bool)
    ensures
        b == (seg@ == dot_dot()),
{
    let b = seg.len() == 2 && seg[0] == '.' && seg[1] == '.';
    if b {
        assert(seg@ =~= dot_dot());
    }
    b
}

/// One step of resolution on a stack of kept segments.
fn push_segment_exec(stack: &mut Vec<Vec<char>>, seg: Vec<char>)
    ensures
        seg_views(final(stack)@) == push_segment(seg_views(old(stack)@), seg@),
{
    let ghost old_views = seg_views(stack@);
    if seg.len() == 0 || is_dot_segment(&seg) {
    } else if is_dot_dot_segment(&seg) {
        if stack.len() > 0 {
            stack.pop();
            assert(seg_views(stack@) =~= old_views.drop_last());
        }
    } else {
        stack.push(seg);
        assert(seg_views(stack@) =~= old_views.push(seg@));
    }
}

/// The pieces of `s` between occurrences of `sep` (`str::split`).
pub fn split_chars(s: &[char], sep: char) -> (v: Vec<Vec<char>>)
    ensures
        seg_views(v@) == split_on(s@, sep),
{
    let mut out: Vec<Vec<char>> = Vec::new();
    let mut cur: Vec<char> = Vec::new();
    let mut i: usize = 0;
    assert(s@.take(0) =~= Seq::<char>::empty());
    assert(split_on(s@.take(0), sep).drop_last() =~= Seq::<Seq<char>>::empty());
    assert(seg_views(out@) =~= Seq::<Seq<char>>::empty());
    while i < s.len()
        invariant
            i <= s@.len(),
            split_on(s@.take(i as int), sep).len() >= 1,
            split_on(s@.take(i as int), sep).last() == cur@,
            seg_views(out@) == split_on(s@.take(i as int), sep).drop_last(),
        decreases s@.len() - i,
    {
        let c = s[i];
        let ghost prev = split_on(s@.take(i as int), sep);
        let ghost old_views = seg_views(out@);
        proof {
            assert(s@.take(i as int).push(c) =~= s@.take(i + 1));
            lemma_split_push(s@.take(i as int), c, sep);
        }
        if c == sep {
            let seg = cur;
            out.push(seg);
            assert(seg_views(out@) =~= old_views.push(prev.last()));
            cur = Vec::new();
            proof {
                let next = split_on(s@.take(i + 1), sep);
                assert(next.drop_last() =~= prev);
                assert(prev =~= prev.drop_last().push(prev.last()));
            }
        } else {
            cur.push(c);
            proof {
                let next = split_on(s@.take(i + 1), sep);
                assert(next.drop_last() =~= prev.drop_last());
            }
        }
        i = i + 1;
    }
    let ghost all = split_on(s@.take(i as int), sep);
    let ghost old_views = seg_views(out@);
    out.push(cur);
    assert(seg_views(out@) =~= old_views.push(all.last()));
    proof {
        assert(s@.take(i as int) =~= s@);
        assert(all =~= all.drop_last().push(all.last()));
    }
    out
}

/// Resolves the `/`-separated segments of `s` onto `stack`.
fn feed_segments(stack: &mut Vec<Vec<char>>, s: &[char])
    ensures
        seg_views(final(stack)@) == resolve_from(seg_views(old(stack)@), split_on(s@, '/')),
{
    let ghost st0 = seg_views(stack@);
    let mut cur: Vec<char> = Vec::new();
    let mut i: usize = 0;
    assert(s@.take(0) =~= Seq::<char>::empty());
    assert(split_on(s@.take(0), '/').drop_last() =~= Seq::<Seq<char>>::empty());
    while i < s.len()
        invariant
            i <= s@.len(),
            split_on(s@.take(i as int), '/').len() >= 1,
            split_on(s@.take(i as int), '/').last() == cur@,
            seg_views(stack@) == resolve_from(st0, split_on(s@.take(i as int), '/').drop_last()),
        decreases s@.len() - i,
    {
        let c = s[i];
        let ghost prev = split_on(s@.take(i as int), '/');
        proof {
            assert(s@.take(i as int).push(c) =~= s@.take(i + 1));
            lemma_split_push(s@.take(i as int), c, '/');
        }
        if c == '/' {
            let seg = cur;
            push_segment_exec(stack, seg);
            cur = Vec::new();
            proof {
                let next = split_on(s@.take(i + 1), '/');
                assert(next.drop_last() =~= prev);
                assert(prev =~= prev.drop_last().push(prev.last()));
            }
        } else {
            cur.push(c);
            proof {
                let next = split_on(s@.take(i + 1), '/');
                assert(next.drop_last() =~= prev.drop_last());
            }
        }
        i = i + 1;
    }
    let ghost all = split_on(s@.take(i as int), '/');
    push_segment_exec(stack, cur);
    proof {
        assert(s@.take(i as int) =~= s@);
        assert(all =~= all.drop_last().push(all.last()));
    }
}

/// The views of `parts` joined with `sep`.
pub fn join_parts(parts: &Vec<Vec<char>>, sep: char) -> (out: Vec<char>)
    ensures
        out@ == join_with(seg_views(parts@), sep),
{
    let ghost sv = seg_views(parts@);
    let mut out: Vec<char> = Vec::new();
    let mut k: usize = 0;
    while k < parts.len()
        invariant
            k <= parts@.len(),
            sv == seg_views(parts@),
            out@ == join_with(sv.take(k as int), sep),
        decreases parts@.len() - k,
    {
        if k > 0 {
            out.push(sep);
        }
        extend_chars(&mut out, parts[k].as_slice());
        proof {
            assert(sv.take(k + 1).drop_last() =~= sv.take(k as int));
            assert(sv.take(k + 1).last() == parts@[k as int]@);
            if k == 0 {
                assert(out@ =~= sv.take(1)[0]);
            }
        }
        k = k + 1;
    }
    assert(sv.take(k as int) =~= sv);
    out
}

/// Characters of `rel` joined onto `base`, `.` and `..` resolved.
pub fn join_chars(base: &[char], rel: &[char]) -> (out: Vec<char>)
    ensures
        out@ == join_spec(base@, rel@),
{
    let mut stack: Vec<Vec<char>> = Vec::new();
    assert(seg_views(stack@) =~= Seq::<Seq<char>>::empty());
    feed_segments(&mut stack, base);
    feed_segments(&mut stack, rel);
    proof {
        lemma_resolve_append(Seq::empty(), split_on(base@, '/'), split_on(rel@, '/'));
    }
    join_parts(&stack, '/')
}

/// Joins `base_dir` and a relative path, resolving `.` and `..` segments.
///
/// Both inputs are treated as EPUB-internal path strings (forward slashes).
/// Does **not** percent-decode and does **not** strip `?` / `#` — use
/// [`normalize_path`] when the input is a raw URL reference from HTML/CSS.
pub fn join_epub_path(base_dir: &str, rel_path: &str) -> (r: String)
    ensures
        r@ == join_spec(base_dir@, rel_path@),
{
    let b = chars_of(base_dir);
    let rel = chars_of(rel_path);
    let out = join_chars(&b, &rel);
    string_from_chars(&out)
}

/// Strip query string and fragment from a URL-like path reference.
pub fn strip_query_and_fragment(s: &[char]) -> (r: Vec<char>)
    ensures
        r@ == strip_query_and_fragment_spec(s@),
{
    let q = find_char(s, '?');
    proof {
        lemma_first_pos(s@, '?');
    }
    let a = slice_chars(s, 0, q);
    let h = find_char(&a, '#');
    proof {
        lemma_first_pos(a@, '#');
    }
    slice_chars(&a, 0, h)
}

/// Split `href` into `(path, fragment_including_hash)` where `fragment` is
/// either empty or starts with `#`.
pub fn split_fragment(href: &[char]) -> (r: (Vec<char>, Vec<char>))
    ensures
        r.0@ == split_fragment_spec(href@).0,
        r.1@ == split_fragment_spec(href@).1,
{
    let h = find_char(href, '#');
    proof {
        lemma_first_pos(href@, '#');
    }
    (slice_chars(href, 0, h), slice_chars(href, h, href.len()))
}

/// What percent-decoding makes of a string that holds a `%`: `%XX`
/// triples become bytes, and the bytes are read as UTF-8 with invalid
/// sequences replaced.
pub uninterp spec fn percent_decoded_escapes(s: Seq<char>) -> Seq<char>;

/// What percent-decoding makes of a string: the string itself when it
/// holds no `%` (the decoder only rewrites `%` followed by two hex digits,
/// and the input is valid UTF-8), else [`percent_decoded_escapes`].
pub open spec fn percent_decoded(s: Seq<char>) -> Seq<char> {
    if s.contains('%') {
        percent_decoded_escapes(s)
    } else {
        s
    }
}

/// Percent-decodes `s`: `percent_encoding::percent_decode_str` followed by
/// `decode_utf8_lossy` (see [`percent_decoded`]).
#[verifier::external_body]
pub(crate) fn percent_decode_lossy(s: &str) -> (r: String)
    ensures
        r@ == percent_decoded(s@),
        s@.contains('%') ==> r@ == percent_decoded_escapes(s@),
        !s@.contains('%') ==> r@ == s@,
{
    percent_encoding::percent_decode_str(s).decode_utf8_lossy().into_owned()
}

/// Normalizes a relative URL path against a base directory within the EPUB archive.
///
/// Percent-decodes the path (e.g. `%20` → space) and strips query strings /
/// fragments before joining.  The `base_dir` must be the **directory** of the
/// referencing file, not the file path itself.
pub fn normalize_path(base_dir: &str, rel_path: &str) -> (r: String)
    ensures
        r@ == join_spec(base_dir@, percent_decoded(strip_query_and_fragment_spec(rel_path@))),
{
    let rel = chars_of(rel_path);
    let path_only = strip_query_and_fragment(&rel);
    let path_str = string_from_chars(&path_only);
    let decoded = percent_decode_lossy(path_str.as_str());
    join_epub_path(base_dir, decoded.as_str())
}

/// Resolves `rel_href` against `base_dir` (EPUB-root-relative directory of the
/// referencing document), per RFC 3986 §5.2.
///
/// Preserves any `#fragment` suffix.  External URLs, fragment-only refs, empty
/// hrefs, and empty `base_dir` are returned unchanged so callers need not
/// pre-filter them (empty base means "at package root / unresolved context").
pub fn resolve_href(base_dir: &str, rel_href: &str) -> (r: String)
    ensures
        r@ == resolve_href_spec(base_dir@, rel_href@),
{
    let rel = chars_of(rel_href);
    if has_prefix(&rel, "#") || is_external_chars(&rel) || rel.len() == 0 || base_dir.is_empty() {
        return rel_href.to_owned();
    }
    // The fragment stays verbatim after path resolution: folding it into the
    // path join would corrupt IDs that contain characters special to paths.
    let (path_part, fragment) = split_fragment(&rel);
    let b = chars_of(base_dir);
    let mut out = join_chars(&b, &path_part);
    extend_chars(&mut out, &fragment);
    string_from_chars(&out)
}

/// Parent directory of an EPUB-internal file path, or `""` if the file is at root.
pub fn parent_dir(path: &[char]) -> (r: Vec<char>)
    ensures
        r@ == parent_dir_spec(path@),
{
    proof {
        lemma_last_pos(path@, '/');
    }
    match rfind_char(path, '/') {
        Some(i) => slice_chars(path, 0, i),
        None => Vec::new(),
    }
}

/// File name component of an EPUB-internal path.
pub fn file_name(path: &[char]) -> (r: Vec<char>)
    ensures
        r@ == file_name_spec(path@),
{
    proof {
        lemma_last_pos(path@, '/');
    }
    match rfind_char(path, '/') {
        Some(i) => {
            let n = path.len();
            slice_chars(path, i + 1, n)
        },
        None => slice_chars(path, 0, path.len()),
    }
}

/// The non-empty `/`-separated segments of `s`.
fn nonempty_segments(s: &[char]) -> (v: Vec<Vec<char>>)
    ensures
        seg_views(v@) == drop_empty(split_on(s@, '/')),
{
    let mut out: Vec<Vec<char>> = Vec::new();
    let mut cur: Vec<char> = Vec::new();
    let mut i: usize = 0;
    assert(s@.take(0) =~= Seq::<char>::empty());
    assert(split_on(s@.take(0), '/').drop_last() =~= Seq::<Seq<char>>::empty());
    assert(seg_views(out@) =~= Seq::<Seq<char>>::empty());
    while i < s.len()
        invariant
            i <= s@.len(),
            split_on(s@.take(i as int), '/').len() >= 1,
            split_on(s@.take(i as int), '/').last() == cur@,
            seg_views(out@) == drop_empty(split_on(s@.take(i as int), '/').drop_last()),
        decreases s@.len() - i,
    {
        let c = s[i];
        let ghost prev = split_on(s@.take(i as int), '/');
        let ghost old_views = seg_views(out@);
        proof {
            assert(s@.take(i as int).push(c) =~= s@.take(i + 1));
            lemma_split_push(s@.take(i as int), c, '/');
        }
        if c == '/' {
            let seg = cur;
            if seg.len() > 0 {
                out.push(seg);
                assert(seg_views(out@) =~= old_views.push(prev.last()));
            }
            cur = Vec::new();
            proof {
                let next = split_on(s@.take(i + 1), '/');
                assert(next.drop_last() =~= prev);
                assert(prev.drop_last() =~= prev.drop_last());
            }
        } else {
            cur.push(c);
            proof {
                let next = split_on(s@.take(i + 1), '/');
                assert(next.drop_last() =~= prev.drop_last());
            }
        }
        i = i + 1;
    }
    let ghost all = split_on(s@.take(i as int), '/');
    let ghost old_views = seg_views(out@);
    if cur.len() > 0 {
        out.push(cur);
        assert(seg_views(out@) =~= old_views.push(all.last()));
    }
    proof {
        assert(s@.take(i as int) =~= s@);
    }
    out
}

pub proof fn lemma_common_prefix_len(a: Seq<Seq<char>>, b: Seq<Seq<char>>, k: int)
    requires
        0 <= k <= a.len(),
        k <= b.len(),
        forall|j: int| 0 <= j < k ==> a[j] == b[j],
        k == a.len() || k == b.len() || a[k] != b[k],
    ensures
        common_prefix_len(a, b) == k,
    decreases k,
{
    if k > 0 {
        assert(a[0] == b[0]);
        lemma_common_prefix_len(a.drop_first(), b.drop_first(), k - 1);
    }
}

/// Relative path from one EPUB-internal file to another.
///
/// Both arguments are package-root-relative (no leading slash).  The result is
/// suitable for an HTML `href` / `src` (or CSS `url()`) written into `from_file`.
pub fn epub_relative_path(from_file: &str, to_file: &str) -> (r: String)
    ensures
        r@ == relative_path_spec(from_file@, to_file@),
{
    let from = chars_of(from_file);
    let to = chars_of(to_file);
    let from_dir = parent_dir(&from);
    let to_dir = parent_dir(&to);
    let to_name = file_name(&to);
    let from_parts = nonempty_segments(&from_dir);
    let to_parts = nonempty_segments(&to_dir);
    let ghost fv = seg_views(from_parts@);
    let ghost tv = seg_views(to_parts@);

    let mut common: usize = 0;
    while common < from_parts.len() && common < to_parts.len() && eq_chars(
        from_parts[common].as_slice(),
        to_parts[common].as_slice(),
    )
        invariant
            common <= from_parts@.len(),
            common <= to_parts@.len(),
            fv == seg_views(from_parts@),
            tv == seg_views(to_parts@),
            forall|j: int| 0 <= j < common ==> fv[j] == tv[j],
        decreases from_parts@.len() - common,
    {
        common = common + 1;
    }
    proof {
        if common < from_parts@.len() && common < to_parts@.len() {
            assert(fv[common as int] == from_parts@[common as int]@);
            assert(tv[common as int] == to_parts@[common as int]@);
        }
        lemma_common_prefix_len(fv, tv, common as int);
    }

    let up_steps = from_parts.len() - common;
    let mut parts: Vec<Vec<char>> = Vec::new();
    let mut n: usize = 0;
    while n < up_steps
        invariant
            n <= up_steps,
            seg_views(parts@) == Seq::new(n as nat, |i: int| dot_dot()),
        decreases up_steps - n,
    {
        let mut dd: Vec<char> = Vec::new();
        dd.push('.');
        dd.push('.');
        let ghost before = seg_views(parts@);
        assert(dd@ =~= dot_dot());
        parts.push(dd);
        assert(seg_views(parts@) =~= before.push(dot_dot()));
        assert(seg_views(parts@) =~= Seq::new((n + 1) as nat, |i: int| dot_dot()));
        n = n + 1;
    }
    let ghost ups = seg_views(parts@);
    let mut j: usize = common;
    while j < to_parts.len()
        invariant
            common <= j <= to_parts@.len(),
            tv == seg_views(to_parts@),
            seg_views(parts@) == ups + tv.subrange(common as int, j as int),
        decreases to_parts@.len() - j,
    {
        let seg = slice_chars(to_parts[j].as_slice(), 0, to_parts[j].len());
        let ghost before = seg_views(parts@);
        assert(seg@ =~= tv[j as int]);
        parts.push(seg);
        assert(seg_views(parts@) =~= before.push(tv[j as int]));
        assert(seg_views(parts@) =~= ups + tv.subrange(common as int, j + 1));
        j = j + 1;
    }
    let ghost before = seg_views(parts@);
    let ghost name = to_name@;
    parts.push(to_name);
    assert(seg_views(parts@) =~= before.push(name));
    assert(tv.subrange(common as int, tv.len() as int) =~= tv.skip(common as int));
    assert(seg_views(parts@) =~= relative_parts(from@, to@));
    let out = join_parts(&parts, '/');
    string_from_chars(&out)
}

} // verus!
