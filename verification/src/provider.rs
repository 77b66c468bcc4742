//! Storage layer: how the library reads the files of a package, and the
//! path rules that keep those reads inside the package.
use vstd::prelude::*;
use crate::error::EpubError;
use crate::processor::rewrite::opt_view;
use crate::path::{lemma_split_no_sep, dot, split_on, dot_dot, push_segment, join_with, seg_views, split_chars, join_parts, is_plain_segment};
use crate::text::{lemma_last_pos, to_lowercase, lowercased, chars_of, string_from_chars, extend_chars, lit, last_pos, eq_chars, rfind_char, slice_chars};

verus! {

/// Reads the files of an EPUB package, wherever they are stored (a ZIP
/// archive, an unpacked directory, a network stream).
pub trait EpubProvider {
    /// The bytes of the file at `path` (package-root-relative).
    fn read_file(&mut self, path: &str) -> Result<Vec<u8>, EpubError>;

    /// The **uncompressed** byte size of the entry at `path`: the size after
    /// decompression and before any EPUB-level decryption.
    fn entry_length(&mut self, path: &str) -> Result<u64, EpubError>;
}

// ── Directory packages ───────────────────────────────────────────────────────

/// `path`'s segments resolved from the package root, or `None` when a `..`
/// would leave the root: empty and `.` segments are skipped, `..` drops
/// the last kept segment, any other segment is kept.
pub open spec fn guarded_resolve(segs: Seq<Seq<char>>) -> Option<Seq<Seq<char>>>
    decreases segs.len(),
{
    if segs.len() == 0 {
        Some(Seq::empty())
    } else {
        match guarded_resolve(segs.drop_last()) {
            None => None,
            Some(st) => if segs.last() == dot_dot() && st.len() == 0 {
                None
            } else {
                Some(push_segment(st, segs.last()))
            },
        }
    }
}

/// `segs` appended below `root`, one separator between components.
pub open spec fn root_join(root: Seq<char>, segs: Seq<Seq<char>>) -> Seq<char> {
    if segs.len() == 0 {
        root
    } else if root.len() == 0 {
        join_with(segs, '/')
    } else if root.last() == '/' {
        root + join_with(segs, '/')
    } else {
        root.push('/') + join_with(segs, '/')
    }
}

/// The message of a refused path.
pub open spec fn escape_message(path: Seq<char>) -> Seq<char> {
    "Security: path '"@ + path + "' attempts to escape the EPUB root directory"@
}

/// Resolves `path` below `root`, normalising `.` and `..` segments; a path
/// whose `..` would leave `root` is refused.
pub fn safe_join(root: &str, path: &str) -> (r: Result<String, EpubError>)
    ensures
        match guarded_resolve(split_on(path@, '/')) {
            Some(st) => r matches Ok(p) && p@ == root_join(root@, st),
            None => r matches Err(EpubError::InvalidFormat(m)) && m@ == escape_message(path@),
        },
{
    let segs = split_chars(&chars_of(path), '/');
    let ghost sv = seg_views(segs@);
    let mut stack: Vec<Vec<char>> = Vec::new();
    let mut i: usize = 0;
    assert(sv.take(0) =~= Seq::<Seq<char>>::empty());
    assert(seg_views(stack@) =~= Seq::<Seq<char>>::empty());
    while i < segs.len()
        invariant
            i <= segs@.len(),
            sv == seg_views(segs@),
            sv == split_on(path@, '/'),
            guarded_resolve(sv.take(i as int)) == Some(seg_views(stack@)),
        decreases segs@.len() - i,
    {
        let seg = &segs[i];
        let ghost before = seg_views(stack@);
        proof {
            assert(sv.take(i + 1).drop_last() =~= sv.take(i as int));
            assert(sv.take(i + 1).last() == seg@);
        }
        let is_up = seg.len() == 2 && seg[0] == '.' && seg[1] == '.';
        proof {
            if is_up {
                assert(seg@ =~= dot_dot());
            } else if seg@ == dot_dot() {
                assert(seg@[0] == '.' && seg@[1] == '.');
            }
        }
        if is_up && stack.len() == 0 {
            proof {
                lemma_guarded_resolve_none_extends(sv, i as int + 1);
            }
            let mut m = lit("Security: path '");
            extend_chars(&mut m, &chars_of(path));
            let tail = lit("' attempts to escape the EPUB root directory");
            extend_chars(&mut m, &tail);
            return Err(EpubError::InvalidFormat(string_from_chars(&m)));
        }
        if seg.len() == 0 || (seg.len() == 1 && seg[0] == '.') {
            proof {
                if seg@.len() == 1 {
                    assert(seg@ =~= seq!['.']);
                }
            }
        } else if is_up {
            stack.pop();
            assert(seg_views(stack@) =~= before.drop_last());
        } else {
            proof {
                if seg@ == seq!['.'] {
                    assert(seg@[0] == '.');
                }
            }
            stack.push(slice_chars(seg, 0, seg.len()));
            assert(seg@.subrange(0, seg@.len() as int) =~= seg@);
            assert(seg_views(stack@) =~= before.push(seg@));
        }
        i = i + 1;
    }
    assert(sv.take(i as int) =~= sv);
    let joined = join_parts(&stack, '/');
    let rc = chars_of(root);
    if stack.len() == 0 {
        Ok(root.to_string())
    } else if rc.len() == 0 {
        Ok(string_from_chars(&joined))
    } else if rc[rc.len() - 1] == '/' {
        let mut out = rc;
        extend_chars(&mut out, &joined);
        Ok(string_from_chars(&out))
    } else {
        let mut out = rc;
        out.push('/');
        extend_chars(&mut out, &joined);
        Ok(string_from_chars(&out))
    }
}

proof fn lemma_guarded_resolve_none_extends(segs: Seq<Seq<char>>, k: int)
    requires
        0 <= k <= segs.len(),
        guarded_resolve(segs.take(k)) is None,
    ensures
        guarded_resolve(segs) is None,
    decreases segs.len() - k,
{
    if k < segs.len() {
        assert(segs.take(k + 1).drop_last() =~= segs.take(k));
        lemma_guarded_resolve_none_extends(segs, k + 1);
    } else {
        assert(segs.take(k) =~= segs);
    }
}

/// Every segment that path resolution keeps is a plain name: never empty,
/// `.` or `..`.
pub proof fn lemma_guarded_resolve_plain(segs: Seq<Seq<char>>)
    requires
        forall|i: int| 0 <= i < segs.len() ==> !(#[trigger] segs[i]).contains('/'),
    ensures
        guarded_resolve(segs) matches Some(st) ==> forall|i: int|
            0 <= i < st.len() ==> is_plain_segment(#[trigger] st[i]),
    decreases segs.len(),
{
    if segs.len() > 0 {
        let prev = segs.drop_last();
        assert forall|i: int| 0 <= i < prev.len() implies !(#[trigger] prev[i]).contains('/') by {
            assert(prev[i] == segs[i]);
        }
        lemma_guarded_resolve_plain(prev);
        if let Some(st0) = guarded_resolve(prev) {
            let seg = segs.last();
            assert(!segs[segs.len() - 1].contains('/'));
            if let Some(st) = guarded_resolve(segs) {
                assert forall|i: int| 0 <= i < st.len() implies is_plain_segment(#[trigger] st[i]) by {
                    if seg.len() == 0 || seg == dot() {
                        assert(st == st0);
                    } else if seg == dot_dot() {
                        assert(st == st0.drop_last());
                        assert(st[i] == st0[i]);
                    } else {
                        assert(st == st0.push(seg));
                        if i < st0.len() {
                            assert(st[i] == st0[i]);
                        }
                    }
                }
            }
        }
    }
}

/// A path accepted by [`safe_join`] names a file below the root: the result
/// is the root followed by plain segments only, so no `..` can climb out.
pub proof fn law_safe_join_stays_below_root(root: Seq<char>, path: Seq<char>)
    ensures
        guarded_resolve(split_on(path, '/')) matches Some(st) ==> (forall|i: int|
            0 <= i < st.len() ==> is_plain_segment(#[trigger] st[i])) && starts_with_root(
            root_join(root, st),
            root,
        ),
{
    lemma_split_no_sep(path, '/');
    lemma_guarded_resolve_plain(split_on(path, '/'));
    if let Some(st) = guarded_resolve(split_on(path, '/')) {
        let j = join_with(st, '/');
        if st.len() > 0 && root.len() > 0 {
            if root.last() == '/' {
                assert((root + j).take(root.len() as int) =~= root);
            } else {
                assert((root.push('/') + j).take(root.len() as int) =~= root);
            }
        }
    }
}

/// `p` begins with `root`.
pub open spec fn starts_with_root(p: Seq<char>, root: Seq<char>) -> bool {
    root.len() <= p.len() && p.take(root.len() as int) =~= root
}

/// A provider that reads a package unpacked into a directory.
pub struct DirProvider {
    root: String,
}

impl DirProvider {
    /// The directory that holds the package.
    pub closed spec fn root_spec(&self) -> Seq<char> {
        self.root@
    }

    /// A provider for the package unpacked below `root`.
    pub fn new(root: &str) -> (p: Self)
        ensures
            p.root_spec() == root@,
    {
        DirProvider { root: root.to_string() }
    }

    /// The directory that holds the package.
    pub fn root(&self) -> (r: &str)
        ensures
            r@ == self.root_spec(),
    {
        self.root.as_str()
    }

    /// The file-system path of a package path (see [`safe_join`]).
    pub fn full_path(&self, path: &str) -> (r: Result<String, EpubError>)
        ensures
            match guarded_resolve(split_on(path@, '/')) {
                Some(st) => r matches Ok(p) && p@ == root_join(self.root_spec(), st),
                None => r matches Err(EpubError::InvalidFormat(m)) && m@ == escape_message(path@),
            },
    {
        safe_join(self.root.as_str(), path)
    }
}

// ── ZIP entry names ──────────────────────────────────────────────────────────

/// `(stem, extension)` of a path: the parts before and after its last `.`,
/// or the whole path and `""` when it has none.
pub open spec fn stem_ext_spec(p: Seq<char>) -> (Seq<char>, Seq<char>) {
    let d = last_pos(p, '.');
    if d < 0 {
        (p, Seq::empty())
    } else {
        (p.take(d), p.skip(d + 1))
    }
}

/// Splits a (lower-case) path into `(stem, extension)` (see [`stem_ext_spec`]).
pub fn split_stem_ext(lower_path: &str) -> (r: (String, String))
    ensures
        r.0@ == stem_ext_spec(lower_path@).0,
        r.1@ == stem_ext_spec(lower_path@).1,
{
    let cs = chars_of(lower_path);
    proof {
        lemma_last_pos(cs@, '.');
    }
    match rfind_char(&cs, '.') {
        Some(d) => {
            let n = cs.len();
            assert(d < n);
            let stem = slice_chars(&cs, 0, d);
            let ext = slice_chars(&cs, d + 1, n);
            proof {
                assert(stem@ =~= cs@.take(d as int));
                assert(ext@ =~= cs@.skip(d + 1));
            }
            (string_from_chars(&stem), string_from_chars(&ext))
        },
        None => (lower_path.to_string(), String::new()),
    }
}

/// Image extensions that stand in for one another when an entry cannot be
/// found (packages that reference `.jpg` but store `.png`).
pub open spec fn is_image_alias(ext: Seq<char>) -> bool {
    ||| ext == "jpg"@
    ||| ext == "jpeg"@
    ||| ext == "png"@
    ||| ext == "gif"@
    ||| ext == "webp"@
    ||| ext == "bmp"@
}

fn is_image_alias_exec(ext: &str) -> (b: bool)
    ensures
        b == is_image_alias(ext@),
{
    let e = chars_of(ext);
    let jpg = lit("jpg");
    let jpeg = lit("jpeg");
    let png = lit("png");
    let gif = lit("gif");
    let webp = lit("webp");
    let bmp = lit("bmp");
    eq_chars(&e, &jpg) || eq_chars(&e, &jpeg) || eq_chars(&e, &png) || eq_chars(&e, &gif)
        || eq_chars(&e, &webp) || eq_chars(&e, &bmp)
}

/// An archive entry (lower-cased name) stands for a wanted (lower-cased)
/// path: the same path, or the same stem with another image extension
/// when the wanted extension is an image one.
pub open spec fn entry_stands_for(name_lower: Seq<char>, path_lower: Seq<char>) -> bool {
    let (ps, pe) = stem_ext_spec(path_lower);
    let (ns, ne) = stem_ext_spec(name_lower);
    name_lower == path_lower || (is_image_alias(pe) && ns == ps && is_image_alias(ne))
}

/// The first entry name (from `from`) that stands for `path`, ignoring case.
pub open spec fn fallback_index(names: Seq<String>, path: Seq<char>, from: int) -> Option<int>
    decreases names.len() - from,
{
    if from < 0 || from >= names.len() {
        None
    } else if entry_stands_for(lowercased(names[from]@), lowercased(path)) {
        Some(from)
    } else {
        fallback_index(names, path, from + 1)
    }
}

proof fn lemma_fallback_index(names: Seq<String>, path: Seq<char>, from: int)
    ensures
        fallback_index(names, path, from) matches Some(k) ==> from <= k < names.len(),
    decreases names.len() - from,
{
    if 0 <= from < names.len() {
        lemma_fallback_index(names, path, from + 1);
    }
}

/// The entry that a broken path names: the first, in archive order, that is
/// the same path ignoring case, or the same stem with an interchangeable
/// image extension.
pub fn scan_fallback(names: &[String], path: &str) -> (r: Option<String>)
    ensures
        match fallback_index(names@, path@, 0) {
            Some(k) => r matches Some(n) && n@ == names@[k]@,
            None => r is None,
        },
{
    proof {
        lemma_fallback_index(names@, path@, 0);
    }
    let path_lower = to_lowercase(path);
    let (stem_lower, ext_lower) = split_stem_ext(path_lower.as_str());
    let aliased = is_image_alias_exec(ext_lower.as_str());
    let pl = chars_of(path_lower.as_str());
    let sl = chars_of(stem_lower.as_str());
    let mut i: usize = 0;
    while i < names.len()
        invariant
            i <= names@.len(),
            pl@ == lowercased(path@),
            sl@ == stem_ext_spec(pl@).0,
            aliased == is_image_alias(stem_ext_spec(pl@).1),
            fallback_index(names@, path@, 0) == fallback_index(names@, path@, i as int),
        decreases names@.len() - i,
    {
        let name_lower = to_lowercase(names[i].as_str());
        let nl = chars_of(name_lower.as_str());
        let hit = if eq_chars(&nl, &pl) {
            true
        } else if aliased {
            let (ns, ne) = split_stem_ext(name_lower.as_str());
            eq_chars(&chars_of(ns.as_str()), &sl) && is_image_alias_exec(ne.as_str())
        } else {
            false
        };
        if hit {
            return Some(names[i].clone());
        }
        i = i + 1;
    }
    None
}

/// The value cached for `key`: the first entry with that key.
pub open spec fn cache_lookup(cache: Seq<(Seq<char>, Seq<char>)>, key: Seq<char>) -> Option<Seq<char>>
    decreases cache.len(),
{
    if cache.len() == 0 {
        None
    } else if cache[0].0 == key {
        Some(cache[0].1)
    } else {
        cache_lookup(cache.drop_first(), key)
    }
}

/// `names` holds `path` exactly.
pub open spec fn has_name(names: Seq<String>, path: Seq<char>) -> bool {
    exists|k: int| 0 <= k < names.len() && (#[trigger] names[k])@ == path
}

/// Resolves logical paths to the entry names of an archive, remembering the
/// paths that only a fallback scan could resolve.
pub struct ZipNameResolver {
    fallback_cache: Vec<(String, String)>,
}

impl ZipNameResolver {
    /// The remembered `(path, entry name)` pairs, oldest first.
    pub closed spec fn cache(&self) -> Seq<(Seq<char>, Seq<char>)> {
        self.fallback_cache@.map_values(|p: (String, String)| (p.0@, p.1@))
    }

    /// A resolver that remembers nothing yet.
    pub fn new() -> (r: Self)
        ensures
            r.cache() == Seq::<(Seq<char>, Seq<char>)>::empty(),
    {
        let r = ZipNameResolver { fallback_cache: Vec::new() };
        assert(r.cache() =~= Seq::<(Seq<char>, Seq<char>)>::empty());
        r
    }

    /// How many paths only a fallback scan could resolve.
    pub fn fallback_count(&self) -> (n: usize)
        ensures
            n == self.cache().len(),
    {
        self.fallback_cache.len()
    }

    fn cached(&self, path: &str) -> (r: Option<String>)
        ensures
            match cache_lookup(self.cache(), path@) {
                Some(v) => r matches Some(s) && s@ == v,
                None => r is None,
            },
    {
        let ghost c = self.cache();
        let key = chars_of(path);
        let mut i: usize = 0;
        assert(c.skip(0) =~= c);
        while i < self.fallback_cache.len()
            invariant
                i <= self.fallback_cache@.len(),
                c == self.cache(),
                c.len() == self.fallback_cache@.len(),
                key@ == path@,
                cache_lookup(c, path@) == cache_lookup(c.skip(i as int), path@),
            decreases self.fallback_cache@.len() - i,
        {
            proof {
                assert(c.skip(i as int)[0] == c[i as int]);
                assert(c[i as int] == (self.fallback_cache@[i as int].0@, self.fallback_cache@[i as int].1@));
                assert(c.skip(i as int).drop_first() =~= c.skip(i + 1));
            }
            if eq_chars(&chars_of(self.fallback_cache[i].0.as_str()), &key) {
                return Some(self.fallback_cache[i].1.clone());
            }
            i = i + 1;
        }
        None
    }

    /// The entry name for `path`: `path` itself when the archive holds it;
    /// else what an earlier fallback scan found for it; else the result of
    /// a fallback scan (see [`scan_fallback`]), which is then remembered.
    pub fn resolve_zip_name(&mut self, names: &[String], path: &str) -> (r: Option<String>)
        ensures
            resolve_outcome(names@, path@, old(self).cache(), opt_view(r), final(self).cache()),
    {
        let p = chars_of(path);
        let mut i: usize = 0;
        while i < names.len()
            invariant
                i <= names@.len(),
                p@ == path@,
                forall|j: int| 0 <= j < i ==> names@[j]@ != path@,
            decreases names@.len() - i,
        {
            if eq_chars(&chars_of(names[i].as_str()), &p) {
                assert(names@[i as int]@ == path@);
                return Some(path.to_string());
            }
            i = i + 1;
        }
        match self.cached(path) {
            Some(v) => Some(v),
            None => {
                let found = scan_fallback(names, path);
                match found {
                    Some(n) => {
                        let ghost before = self.cache();
                        self.fallback_cache.push((path.to_string(), n.clone()));
                        assert(self.cache() =~= before.push((path@, n@)));
                        Some(n)
                    },
                    None => None,
                }
            },
        }
    }
}

/// A path the archive holds is resolved to itself and leaves the remembered
/// fallbacks as they were.
pub proof fn law_exact_match_keeps_cache(
    names: Seq<String>,
    path: Seq<char>,
    cache: Seq<(Seq<char>, Seq<char>)>,
    r: Option<Seq<char>>,
    cache_after: Seq<(Seq<char>, Seq<char>)>,
)
    requires
        has_name(names, path),
        resolve_outcome(names, path, cache, r, cache_after),
    ensures
        r == Some(path),
        cache_after == cache,
{
}

/// Resolving a path a second time against the same entries gives the same
/// answer and remembers nothing more.
pub proof fn law_resolve_twice_is_stable(
    names: Seq<String>,
    path: Seq<char>,
    cache: Seq<(Seq<char>, Seq<char>)>,
    r1: Option<Seq<char>>,
    cache1: Seq<(Seq<char>, Seq<char>)>,
    r2: Option<Seq<char>>,
    cache2: Seq<(Seq<char>, Seq<char>)>,
)
    requires
        resolve_outcome(names, path, cache, r1, cache1),
        resolve_outcome(names, path, cache1, r2, cache2),
    ensures
        r2 == r1,
        cache2 == cache1,
{
    if !has_name(names, path) && cache_lookup(cache, path) is None {
        if let Some(k) = fallback_index(names, path, 0) {
            lemma_cache_lookup_push(cache, path, names[k]@);
        }
    }
}

proof fn lemma_cache_lookup_push(cache: Seq<(Seq<char>, Seq<char>)>, key: Seq<char>, v: Seq<char>)
    requires
        cache_lookup(cache, key) is None,
    ensures
        cache_lookup(cache.push((key, v)), key) == Some(v),
    decreases cache.len(),
{
    if cache.len() == 0 {
        assert(cache.push((key, v))[0] == (key, v));
    } else {
        assert(cache.push((key, v)).drop_first() =~= cache.drop_first().push((key, v)));
        lemma_cache_lookup_push(cache.drop_first(), key, v);
    }
}

/// What [`ZipNameResolver::resolve_zip_name`] promises of one call: the
/// answer `r` and the remembered pairs afterwards, from the pairs before.
pub open spec fn resolve_outcome(
    names: Seq<String>,
    path: Seq<char>,
    cache: Seq<(Seq<char>, Seq<char>)>,
    r: Option<Seq<char>>,
    cache_after: Seq<(Seq<char>, Seq<char>)>,
) -> bool {
    if has_name(names, path) {
        r == Some(path) && cache_after == cache
    } else if cache_lookup(cache, path) is Some {
        r == cache_lookup(cache, path) && cache_after == cache
    } else {
        match fallback_index(names, path, 0) {
            Some(k) => r == Some(names[k]@) && cache_after == cache.push((path, names[k]@)),
            None => r is None && cache_after == cache,
        }
    }
}

} // verus!
