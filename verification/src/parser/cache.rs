//! A least-recently-used cache of resource bytes, bounded by total size.
use vstd::prelude::*;
use crate::text::{chars_of, eq_str};

verus! {

/// The cached entries' bytes, in total.
pub open spec fn total_size(entries: Seq<(Seq<char>, Seq<u8>)>) -> nat
    decreases entries.len(),
{
    if entries.len() == 0 {
        0
    } else {
        total_size(entries.drop_last()) + entries.last().1.len()
    }
}

/// The position of the entry with key `key`, from `from` on.
pub open spec fn entry_index(entries: Seq<(Seq<char>, Seq<u8>)>, key: Seq<char>, from: int) -> Option<int>
    decreases entries.len() - from,
{
    if from < 0 || from >= entries.len() {
        None
    } else if entries[from].0 == key {
        Some(from)
    } else {
        entry_index(entries, key, from + 1)
    }
}

/// The entries kept when `incoming` more bytes are to fit under `max`:
/// the oldest are dropped, one at a time, while they would not fit and
/// some remain.
pub open spec fn evicted(entries: Seq<(Seq<char>, Seq<u8>)>, incoming: nat, max: nat) -> Seq<(Seq<char>, Seq<u8>)>
    decreases entries.len(),
{
    if entries.len() > 0 && total_size(entries) + incoming > max {
        evicted(entries.drop_first(), incoming, max)
    } else {
        entries
    }
}

/// The entries after a use of entry `k`: it becomes the most recent.
pub open spec fn touched(entries: Seq<(Seq<char>, Seq<u8>)>, k: int) -> Seq<(Seq<char>, Seq<u8>)> {
    entries.remove(k).push(entries[k])
}

/// The entries after storing `bytes` under a new `key` with room made for
/// them.
pub open spec fn stored(entries: Seq<(Seq<char>, Seq<u8>)>, key: Seq<char>, bytes: Seq<u8>, max: nat) -> Seq<(Seq<char>, Seq<u8>)> {
    evicted(entries, bytes.len(), max).push((key, bytes))
}

/// No two entries have the same key.
pub open spec fn distinct_keys(entries: Seq<(Seq<char>, Seq<u8>)>) -> bool {
    forall|a: int, b: int| 0 <= a < b < entries.len() ==> (#[trigger] entries[a]).0 != (#[trigger] entries[b]).0
}

/// Resource bytes by archive path, the least recently used first.
pub struct ResourceCache {
    entries: Vec<(String, Vec<u8>)>,
    size: usize,
    max_size: usize,
}

impl ResourceCache {
    /// `(key, bytes)` of each entry, the least recently used first.
    pub closed spec fn entries(&self) -> Seq<(Seq<char>, Seq<u8>)> {
        self.entries@.map_values(|e: (String, Vec<u8>)| (e.0@, e.1@))
    }

    /// The most bytes the cache makes room for.
    pub closed spec fn max(&self) -> nat {
        self.max_size as nat
    }

    #[verifier::type_invariant]
    spec fn wf(&self) -> bool {
        &&& self.size == total_size(self.entries())
        &&& distinct_keys(self.entries())
    }

    /// An empty cache that makes room for `max_size` bytes.
    pub fn new(max_size: usize) -> (c: Self)
        ensures
            c.entries() == Seq::<(Seq<char>, Seq<u8>)>::empty(),
            c.max() == max_size,
    {
        let c = ResourceCache { entries: Vec::new(), size: 0, max_size };
        assert(c.entries() =~= Seq::<(Seq<char>, Seq<u8>)>::empty());
        c
    }

    /// The bytes held, in total.
    pub fn size(&self) -> (n: usize)
        ensures
            n == total_size(self.entries()),
    {
        proof {
            use_type_invariant(self);
        }
        self.size
    }

    /// The keys, the least recently used first.
    pub fn order(&self) -> (r: Vec<String>)
        ensures
            r@.map_values(|s: String| s@) == self.entries().map_values(|e: (Seq<char>, Seq<u8>)| e.0),
    {
        let ghost ev = self.entries();
        let mut out: Vec<String> = Vec::new();
        let mut i: usize = 0;
        while i < self.entries.len()
            invariant
                i <= self.entries@.len(),
                ev == self.entries(),
                out@.map_values(|s: String| s@) == ev.take(i as int).map_values(
                    |e: (Seq<char>, Seq<u8>)| e.0,
                ),
            decreases self.entries@.len() - i,
        {
            out.push(self.entries[i].0.clone());
            proof {
                let f = |e: (Seq<char>, Seq<u8>)| e.0;
                assert(ev.take(i + 1).map_values(f) =~= ev.take(i as int).map_values(f).push(f(ev[i as int])));
                assert(out@.map_values(|s: String| s@) =~= ev.take(i + 1).map_values(f));
            }
            i = i + 1;
        }
        assert(ev.take(i as int) =~= ev);
        out
    }

    /// Whether `key` is held.
    pub fn contains(&self, key: &str) -> (b: bool)
        ensures
            b == (entry_index(self.entries(), key@, 0) is Some),
    {
        self.find(key).is_some()
    }

    fn find(&self, key: &str) -> (r: Option<usize>)
        ensures
            match r {
                Some(k) => k < self.entries().len() && entry_index(self.entries(), key@, 0) == Some(k as int),
                None => entry_index(self.entries(), key@, 0) is None,
            },
    {
        let ghost ev = self.entries();
        let kc = chars_of(key);
        let mut i: usize = 0;
        while i < self.entries.len()
            invariant
                i <= self.entries@.len(),
                ev == self.entries(),
                ev.len() == self.entries@.len(),
                kc@ == key@,
                entry_index(ev, key@, 0) == entry_index(ev, key@, i as int),
            decreases self.entries@.len() - i,
        {
            if eq_str(&kc, self.entries[i].0.as_str()) {
                assert(ev[i as int].0 == self.entries@[i as int].0@);
                return Some(i);
            }
            i = i + 1;
        }
        None
    }

    /// The bytes held under `key`, which becomes the most recently used.
    pub fn get(&mut self, key: &str) -> (r: Option<Vec<u8>>)
        ensures
            final(self).max() == old(self).max(),
            match entry_index(old(self).entries(), key@, 0) {
                Some(k) => (r matches Some(b) && b@ == old(self).entries()[k].1) && final(self).entries()
                    == touched(old(self).entries(), k),
                None => r is None && final(self).entries() == old(self).entries(),
            },
    {
        proof {
            use_type_invariant(&*self);
        }
        match self.find(key) {
            Some(k) => {
                let ghost ev = self.entries();
                let max_size = self.max_size;
                let mut taken = ResourceCache::new(max_size);
        std::mem::swap(&mut taken, self);
                let ResourceCache { mut entries, size, max_size } = taken;
                let e = entries.remove(k);
                let bytes = e.1.clone();
                entries.push(e);
                proof {
                    assert(entries@.map_values(|e: (String, Vec<u8>)| (e.0@, e.1@)) =~= touched(ev, k as int));
                    lemma_touched_keeps(ev, k as int);
                }
                *self = ResourceCache { entries, size, max_size };
                Some(bytes)
            },
            None => None,
        }
    }

    /// Stores `bytes` under a `key` that is not held, as the most recently
    /// used, after dropping the least recently used entries while the total
    /// would exceed the limit.
    pub fn insert(&mut self, key: String, bytes: Vec<u8>)
        requires
            entry_index(old(self).entries(), key@, 0) is None,
        ensures
            final(self).max() == old(self).max(),
            final(self).entries() == stored(old(self).entries(), key@, bytes@, old(self).max()),
    {
        proof {
            use_type_invariant(&*self);
        }
        let len = bytes.len();
        let ghost start = self.entries();
        let max_size = self.max_size;
        let mut taken = ResourceCache::new(max_size);
        std::mem::swap(&mut taken, self);
        let ResourceCache { mut entries, mut size, max_size } = taken;
        while entries.len() > 0 && (size > max_size || len > max_size - size)
            invariant
                max_size == old(self).max_size,
                size == total_size(entries@.map_values(|e: (String, Vec<u8>)| (e.0@, e.1@))),
                distinct_keys(entries@.map_values(|e: (String, Vec<u8>)| (e.0@, e.1@))),
                entry_index(entries@.map_values(|e: (String, Vec<u8>)| (e.0@, e.1@)), key@, 0) is None,
                evicted(start, len as nat, max_size as nat) == evicted(
                    entries@.map_values(|e: (String, Vec<u8>)| (e.0@, e.1@)),
                    len as nat,
                    max_size as nat,
                ),
                start == old(self).entries(),
                len == bytes@.len(),
            decreases entries@.len(),
        {
            let ghost ev = entries@.map_values(|e: (String, Vec<u8>)| (e.0@, e.1@));
            let front = entries.remove(0);
            proof {
                assert(entries@.map_values(|e: (String, Vec<u8>)| (e.0@, e.1@)) =~= ev.drop_first());
                lemma_total_drop_first(ev);
                lemma_drop_first_keeps(ev, key@);
            }
            size = size - front.1.len();
        }
        let ghost kept = entries@.map_values(|e: (String, Vec<u8>)| (e.0@, e.1@));
        size = size + len;
        entries.push((key, bytes));
        proof {
            assert(entries@.map_values(|e: (String, Vec<u8>)| (e.0@, e.1@)) =~= kept.push((key@, bytes@)));
            lemma_total_push(kept, (key@, bytes@));
            lemma_push_new_key(kept, key@, bytes@);
        }
        *self = ResourceCache { entries, size, max_size };
    }

    /// Drops every entry.
    pub fn clear(&mut self)
        ensures
            final(self).entries() == Seq::<(Seq<char>, Seq<u8>)>::empty(),
            final(self).max() == old(self).max(),
    {
        let max_size = self.max_size;
        *self = ResourceCache::new(max_size);
    }

    /// Changes the limit; entries already held stay until room is made.
    pub fn set_max(&mut self, max_size: usize)
        ensures
            final(self).max() == max_size,
            final(self).entries() == old(self).entries(),
    {
        proof {
            use_type_invariant(&*self);
        }
        let mut taken = ResourceCache::new(max_size);
        std::mem::swap(&mut taken, self);
        let ResourceCache { entries, size, max_size: _ } = taken;
        *self = ResourceCache { entries, size, max_size };
    }
}

pub proof fn lemma_total_push(e: Seq<(Seq<char>, Seq<u8>)>, x: (Seq<char>, Seq<u8>))
    ensures
        total_size(e.push(x)) == total_size(e) + x.1.len(),
{
    assert(e.push(x).drop_last() =~= e);
}

pub proof fn lemma_total_drop_first(e: Seq<(Seq<char>, Seq<u8>)>)
    requires
        e.len() > 0,
    ensures
        total_size(e) == e[0].1.len() + total_size(e.drop_first()),
    decreases e.len(),
{
    if e.len() > 1 {
        lemma_total_drop_first(e.drop_last());
        assert(e.drop_last().drop_first() =~= e.drop_first().drop_last());
        assert(e.drop_first().last() == e.last());
    } else {
        assert(e.drop_first() =~= Seq::<(Seq<char>, Seq<u8>)>::empty());
        assert(e.drop_last() =~= Seq::<(Seq<char>, Seq<u8>)>::empty());
    }
}

proof fn lemma_drop_first_keeps(e: Seq<(Seq<char>, Seq<u8>)>, key: Seq<char>)
    requires
        e.len() > 0,
        distinct_keys(e),
        entry_index(e, key, 0) is None,
    ensures
        distinct_keys(e.drop_first()),
        entry_index(e.drop_first(), key, 0) is None,
{
    lemma_entry_index_none(e, key, 0);
    if entry_index(e.drop_first(), key, 0) is Some {
        let k = lemma_entry_index_some(e.drop_first(), key, 0);
        assert(e[k + 1] == e.drop_first()[k]);
    }
}

proof fn lemma_entry_index_none(e: Seq<(Seq<char>, Seq<u8>)>, key: Seq<char>, from: int)
    requires
        0 <= from,
        entry_index(e, key, from) is None,
    ensures
        forall|j: int| from <= j < e.len() ==> (#[trigger] e[j]).0 != key,
    decreases e.len() - from,
{
    if from < e.len() {
        lemma_entry_index_none(e, key, from + 1);
    }
}

proof fn lemma_entry_index_some(e: Seq<(Seq<char>, Seq<u8>)>, key: Seq<char>, from: int) -> (k: int)
    requires
        0 <= from,
        entry_index(e, key, from) is Some,
    ensures
        from <= k < e.len(),
        e[k].0 == key,
        entry_index(e, key, from) == Some(k),
    decreases e.len() - from,
{
    if e[from].0 == key {
        from
    } else {
        lemma_entry_index_some(e, key, from + 1)
    }
}

proof fn lemma_push_new_key(e: Seq<(Seq<char>, Seq<u8>)>, key: Seq<char>, bytes: Seq<u8>)
    requires
        distinct_keys(e),
        entry_index(e, key, 0) is None,
    ensures
        distinct_keys(e.push((key, bytes))),
{
    lemma_entry_index_none(e, key, 0);
    let p = e.push((key, bytes));
    assert forall|a: int, b: int| 0 <= a < b < p.len() implies (#[trigger] p[a]).0 != (#[trigger] p[b]).0 by {
        if b == e.len() {
            assert(p[a] == e[a]);
        } else {
            assert(p[a] == e[a] && p[b] == e[b]);
        }
    }
}

proof fn lemma_touched_keeps(e: Seq<(Seq<char>, Seq<u8>)>, k: int)
    requires
        0 <= k < e.len(),
        distinct_keys(e),
    ensures
        distinct_keys(touched(e, k)),
        total_size(touched(e, k)) == total_size(e),
{
    let t = touched(e, k);
    assert forall|a: int, b: int| 0 <= a < b < t.len() implies (#[trigger] t[a]).0 != (#[trigger] t[b]).0 by {
        let ia = if a < k { a } else { a + 1 };
        assert(t[a] == e[ia]);
        if b == t.len() - 1 {
            assert(t[b] == e[k]);
        } else {
            let ib = if b < k { b } else { b + 1 };
            assert(t[b] == e[ib]);
        }
    }
    lemma_total_remove_push(e, k);
}

proof fn lemma_total_remove_push(e: Seq<(Seq<char>, Seq<u8>)>, k: int)
    requires
        0 <= k < e.len(),
    ensures
        total_size(e.remove(k).push(e[k])) == total_size(e),
    decreases e.len(),
{
    lemma_total_push(e.remove(k), e[k]);
    lemma_total_remove(e, k);
}

proof fn lemma_total_remove(e: Seq<(Seq<char>, Seq<u8>)>, k: int)
    requires
        0 <= k < e.len(),
    ensures
        total_size(e.remove(k)) + e[k].1.len() == total_size(e),
    decreases e.len(),
{
    if k == e.len() - 1 {
        assert(e.remove(k) =~= e.drop_last());
    } else {
        lemma_total_remove(e.drop_last(), k);
        assert(e.remove(k) =~= e.drop_last().remove(k).push(e.last()));
        assert(e.drop_last()[k] == e[k]);
        lemma_total_push(e.drop_last().remove(k), e.last());
    }
}

// ── Laws ─────────────────────────────────────────────────────────────────────

/// What was just stored is held, as the most recently used, with its bytes.
pub proof fn law_read_after_store(entries: Seq<(Seq<char>, Seq<u8>)>, key: Seq<char>, bytes: Seq<u8>, max: nat)
    ensures
        stored(entries, key, bytes, max).last() == (key, bytes),
{
}

/// Room is made by dropping the least recently used entries first: the
/// entries that stay are the most recent ones, in their order.
pub proof fn law_eviction_keeps_most_recent(entries: Seq<(Seq<char>, Seq<u8>)>, incoming: nat, max: nat)
    ensures
        exists|d: int|
            0 <= d <= entries.len() && #[trigger] evicted(entries, incoming, max) == entries.skip(d),
    decreases entries.len(),
{
    if entries.len() > 0 && total_size(entries) + incoming > max {
        law_eviction_keeps_most_recent(entries.drop_first(), incoming, max);
        let d = choose|d: int|
            0 <= d <= entries.drop_first().len() && #[trigger] evicted(entries.drop_first(), incoming, max)
                == entries.drop_first().skip(d);
        assert(entries.drop_first().skip(d) =~= entries.skip(d + 1));
        assert(evicted(entries, incoming, max) == entries.skip(d + 1));
    } else {
        assert(entries.skip(0) =~= entries);
        assert(evicted(entries, incoming, max) == entries.skip(0));
    }
}

/// After storing bytes that fit under the limit on their own, the cache
/// holds no more than the limit.
pub proof fn law_store_stays_within_limit(entries: Seq<(Seq<char>, Seq<u8>)>, key: Seq<char>, bytes: Seq<u8>, max: nat)
    requires
        bytes.len() <= max,
    ensures
        total_size(stored(entries, key, bytes, max)) <= max,
    decreases entries.len(),
{
    lemma_evicted_fits(entries, bytes.len(), max);
    let kept = evicted(entries, bytes.len(), max);
    lemma_total_push(kept, (key, bytes));
}

proof fn lemma_evicted_fits(entries: Seq<(Seq<char>, Seq<u8>)>, incoming: nat, max: nat)
    requires
        incoming <= max,
    ensures
        total_size(evicted(entries, incoming, max)) + incoming <= max,
    decreases entries.len(),
{
    if entries.len() > 0 && total_size(entries) + incoming > max {
        lemma_evicted_fits(entries.drop_first(), incoming, max);
    }
}

/// Using an entry keeps every entry and the total size, and makes the used
/// entry the most recent.
pub proof fn law_use_keeps_entries(entries: Seq<(Seq<char>, Seq<u8>)>, k: int)
    requires
        0 <= k < entries.len(),
        distinct_keys(entries),
    ensures
        total_size(touched(entries, k)) == total_size(entries),
        touched(entries, k).len() == entries.len(),
        touched(entries, k).last() == entries[k],
{
    lemma_touched_keeps(entries, k);
}

} // verus!
