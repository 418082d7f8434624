//! The byte-range cache of the read path: reads over remote storage
//! ask the cache first, keyed by `(path, byte range)`. A bounded
//! cache evicts its oldest entries to respect a byte budget and never
//! caches a payload larger than the whole budget; an unbounded cache
//! keeps everything, and is only used under a hot-cache that is known
//! to be finite.

use vstd::prelude::*;

verus! {

/// One cached byte range of one file.
#[derive(Debug)]
struct CacheEntry {
    path: String,
    start: usize,
    end: usize,
    bytes: Vec<u8>,
}

/// Whether the entry holds exactly the byte range `[start, end)` of
/// `path`.
pub open spec fn entry_matches(path_e: Seq<char>, start_e: int, end_e: int, path: Seq<char>, start: int, end: int) -> bool {
    path_e == path && start_e == start && end_e == end
}

spec fn key_matches(e: CacheEntry, path: Seq<char>, start: int, end: int) -> bool {
    entry_matches(e.path@, e.start as int, e.end as int, path, start, end)
}

/// The bytes the cache holds for the range `[start, end)` of `path`.
spec fn lookup_entries(entries: Seq<CacheEntry>, path: Seq<char>, start: int, end: int) -> Option<
    Seq<u8>,
>
    decreases entries.len(),
{
    if entries.len() == 0 {
        Option::None
    } else if key_matches(entries[0], path, start, end) {
        Option::Some(entries[0].bytes@)
    } else {
        lookup_entries(entries.drop_first(), path, start, end)
    }
}

spec fn unique_keys(entries: Seq<CacheEntry>) -> bool {
    forall|i: int, j: int|
        0 <= i < j < entries.len() ==> !key_matches(
            entries[j],
            entries[i].path@,
            entries[i].start as int,
            entries[i].end as int,
        )
}

spec fn total_bytes(entries: Seq<CacheEntry>) -> int
    decreases entries.len(),
{
    if entries.len() == 0 {
        0
    } else {
        entries[0].bytes@.len() + total_bytes(entries.drop_first())
    }
}

spec fn entries_sized(entries: Seq<CacheEntry>) -> bool {
    forall|i: int|
        0 <= i < entries.len() ==> (#[trigger] entries[i]).bytes@.len() == entries[i].end
            - entries[i].start
}

/// A byte-range cache, bounded by a byte budget or unbounded.
#[derive(Debug)]
pub struct ByteRangeCache {
    entries: Vec<CacheEntry>,
    capacity: Option<usize>,
    num_bytes: usize,
}

impl ByteRangeCache {
    /// Each range is cached at most once, the byte count is exact,
    /// every entry's length matches its range, and a bounded cache
    /// stays within its budget.
    pub closed spec fn wf(self) -> bool {
        &&& unique_keys(self.entries@)
        &&& entries_sized(self.entries@)
        &&& match self.capacity {
            Option::Some(c) => self.num_bytes == total_bytes(self.entries@) && self.num_bytes <= c,
            Option::None => true,
        }
    }

    /// The bytes cached for the range `[start, end)` of `path`.
    pub closed spec fn cached(self, path: Seq<char>, start: int, end: int) -> Option<Seq<u8>> {
        lookup_entries(self.entries@, path, start, end)
    }

    /// The byte budget, if the cache is bounded.
    pub closed spec fn budget(self) -> Option<usize> {
        self.capacity
    }

    /// An empty cache that evicts old entries to keep at most
    /// `capacity_in_bytes` bytes.
    pub fn new_with_capacity_in_bytes(capacity_in_bytes: usize) -> (r: ByteRangeCache)
        ensures
            r.wf(),
            r.budget() == Some(capacity_in_bytes),
            forall|p: Seq<char>, a: int, b: int| r.cached(p, a, b) is None,
    {
        ByteRangeCache { entries: Vec::new(), capacity: Some(capacity_in_bytes), num_bytes: 0 }
    }

    /// An empty cache that never evicts. Only sound where what is
    /// cached is known to be finite.
    pub fn new_with_unlimited_capacity() -> (r: ByteRangeCache)
        ensures
            r.wf(),
            r.budget() is None,
            forall|p: Seq<char>, a: int, b: int| r.cached(p, a, b) is None,
    {
        ByteRangeCache { entries: Vec::new(), capacity: None, num_bytes: 0 }
    }

    /// The cached bytes of the range `[start, end)` of `path`, if the
    /// range is cached: a hit returns exactly what was stored.
    pub fn get(&self, path: &String, start: usize, end: usize) -> (r: Option<Vec<u8>>)
        requires
            self.wf(),
        ensures
            match r {
                Some(bytes) => self.cached(path@, start as int, end as int) == Some(bytes@),
                None => self.cached(path@, start as int, end as int) is None,
            },
    {
        let n = self.entries.len();
        let mut i: usize = 0;
        proof {
            assert(self.entries@.skip(0) =~= self.entries@);
        }
        while i < n
            invariant
                self.wf(),
                n == self.entries@.len(),
                i <= n,
                lookup_entries(self.entries@, path@, start as int, end as int) == lookup_entries(
                    self.entries@.skip(i as int),
                    path@,
                    start as int,
                    end as int,
                ),
            decreases n - i,
        {
            proof {
                assert(self.entries@.skip(i as int)[0] == self.entries@[i as int]);
                assert(self.entries@.skip(i as int).drop_first() =~= self.entries@.skip(
                    i as int + 1,
                ));
            }
            let e = &self.entries[i];
            if e.path == *path && e.start == start && e.end == end {
                let bytes = clone_bytes(&e.bytes);
                return Some(bytes);
            }
            i = i + 1;
        }
        proof {
            assert(self.entries@.skip(n as int) =~= Seq::<CacheEntry>::empty());
        }
        None
    }

    /// Whether the range `[start, end)` of `path` is cached.
    pub fn contains(&self, path: &String, start: usize, end: usize) -> (r: bool)
        requires
            self.wf(),
        ensures
            r == (self.cached(path@, start as int, end as int) is Some),
    {
        let hit = self.get(path, start, end);
        match hit {
            Some(_) => true,
            None => false,
        }
    }

    /// Stores the bytes of the range `[start, end)` of `path`. A
    /// range already cached is left as it is; a payload larger than
    /// the whole budget of a bounded cache leaves the cache exactly
    /// as it was — the caller still has the bytes, they are just not
    /// kept; and a bounded cache evicts its oldest entries first
    /// until the new entry fits. What survives is what was there
    /// before: the cache never makes bytes up.
    pub fn put(&mut self, path: String, start: usize, end: usize, bytes: Vec<u8>)
        requires
            old(self).wf(),
            end - start == bytes@.len(),
        ensures
            final(self).wf(),
            final(self).budget() == old(self).budget(),
            // every readable range was stored by some put
            forall|p: Seq<char>, a: int, b: int|
                #![trigger final(self).cached(p, a, b)]
                final(self).cached(p, a, b) is Some ==> (old(self).cached(p, a, b)
                    == final(self).cached(p, a, b) || (entry_matches(
                    p,
                    a,
                    b,
                    path@,
                    start as int,
                    end as int,
                ) && final(self).cached(p, a, b) == Some(bytes@))),
            // the new range is cached unless it exceeds the whole budget
            (match old(self).budget() {
                Option::Some(c) => bytes@.len() <= c,
                Option::None => true,
            }) ==> final(self).cached(path@, start as int, end as int) is Some,
            // a payload above the whole budget is not cached at all
            (match old(self).budget() {
                Option::Some(c) => bytes@.len() > c,
                Option::None => false,
            }) ==> *final(self) == *old(self),
            // an unbounded cache never evicts: everything cached stays
            forall|p: Seq<char>, a: int, b: int|
                #![trigger old(self).cached(p, a, b)]
                old(self).budget() is None && old(self).cached(p, a, b) is Some
                    ==> final(self).cached(p, a, b) == old(self).cached(p, a, b),
    {
        if self.contains(&path, start, end) {
            return ;
        }
        match self.capacity {
            Some(c) => {
                if bytes.len() > c {
                    return ;
                }
                while self.num_bytes > c - bytes.len()
                    invariant
                        self.wf(),
                        self.capacity == old(self).capacity,
                        self.capacity == Some(c),
                        bytes@.len() <= c,
                        self.cached(path@, start as int, end as int) is None,
                        forall|p: Seq<char>, a: int, b: int|
                            #![trigger self.cached(p, a, b)]
                            self.cached(p, a, b) is Some ==> old(self).cached(p, a, b)
                                == self.cached(p, a, b),
                    decreases self.entries@.len(),
                {
                    let ghost pre_ev = self.entries@;
                    let ghost before = *self;
                    proof {
                        assert(self.entries@.len() > 0) by {
                            if self.entries@.len() == 0 {
                                assert(total_bytes(self.entries@) == 0);
                            }
                        }
                        lemma_drop_first_preserves(self.entries@, path@, start as int, end as int);
                        lemma_total_bytes_nonneg(self.entries@.drop_first());
                    }
                    let evicted = self.entries.remove(0);
                    proof {
                        assert(self.entries@ =~= pre_ev.drop_first());
                        assert(evicted == pre_ev[0]);
                        assert(entries_sized(pre_ev));
                    }
                    self.num_bytes = self.num_bytes - evicted.bytes.len();
                    proof {
                        assert forall|p: Seq<char>, a: int, b: int| #[trigger] self.cached(
                            p,
                            a,
                            b,
                        ) is Some implies old(self).cached(p, a, b) == self.cached(p, a, b) by {
                            assert(self.cached(p, a, b) == lookup_entries(
                                pre_ev.drop_first(),
                                p,
                                a,
                                b,
                            ));
                            assert(before.cached(p, a, b) == lookup_entries(pre_ev, p, a, b));
                        }
                        assert(self.cached(path@, start as int, end as int) == lookup_entries(
                            pre_ev.drop_first(),
                            path@,
                            start as int,
                            end as int,
                        ));
                    }
                }
                self.push_entry(path, start, end, bytes);
            },
            None => {
                self.push_entry(path, start, end, bytes);
            },
        }
    }

    /// Appends a fresh entry; the range must not be cached yet and a
    /// bounded cache must have room.
    fn push_entry(&mut self, path: String, start: usize, end: usize, bytes: Vec<u8>)
        requires
            old(self).wf(),
            end - start == bytes@.len(),
            old(self).cached(path@, start as int, end as int) is None,
            match old(self).budget() {
                Option::Some(c) => old(self).num_bytes_spec() + bytes@.len() <= c,
                Option::None => true,
            },
        ensures
            final(self).wf(),
            final(self).budget() == old(self).budget(),
            final(self).cached(path@, start as int, end as int) == Some(bytes@),
            forall|p: Seq<char>, a: int, b: int|
                #![trigger final(self).cached(p, a, b)]
                !entry_matches(p, a, b, path@, start as int, end as int) ==> final(self).cached(
                    p,
                    a,
                    b,
                ) == old(self).cached(p, a, b),
    {
        proof {
            lemma_total_bytes_nonneg(self.entries@);
        }
        let len = bytes.len();
        let is_bounded = match self.capacity {
            Some(_) => true,
            None => false,
        };
        let ghost pre = self.entries@;
        let entry = CacheEntry { path, start, end, bytes };
        self.entries.push(entry);
        if is_bounded {
            self.num_bytes = self.num_bytes + len;
        }
        proof {
            let e = self.entries@[pre.len() as int];
            assert(pre.push(e) =~= self.entries@);
            lemma_total_bytes_push(pre, e);
            assert forall|p: Seq<char>, a: int, b: int| true implies #[trigger] lookup_entries(
                self.entries@,
                p,
                a,
                b,
            ) == (if lookup_entries(pre, p, a, b) is Some {
                lookup_entries(pre, p, a, b)
            } else if key_matches(e, p, a, b) {
                Option::Some(e.bytes@)
            } else {
                Option::<Seq<u8>>::None
            }) by {
                lemma_lookup_push_point(pre, e, p, a, b);
            }
            assert forall|i: int, j: int| 0 <= i < j < self.entries@.len() implies !key_matches(
                self.entries@[j],
                self.entries@[i].path@,
                self.entries@[i].start as int,
                self.entries@[i].end as int,
            ) by {
                if j == self.entries@.len() - 1 {
                    lemma_lookup_finds(pre, i);
                }
            }
        }
    }

    /// The number of bytes currently held.
    pub closed spec fn num_bytes_spec(self) -> int {
        self.num_bytes as int
    }
}

/// Copies a byte string.
fn clone_bytes(v: &Vec<u8>) -> (r: Vec<u8>)
    ensures
        r@ == v@,
{
    let r = v.clone();
    proof {
        assert(r@ =~= v@);
    }
    r
}

proof fn lemma_total_bytes_nonneg(entries: Seq<CacheEntry>)
    ensures
        total_bytes(entries) >= 0,
    decreases entries.len(),
{
    if entries.len() > 0 {
        lemma_total_bytes_nonneg(entries.drop_first());
    }
}

proof fn lemma_total_bytes_push(entries: Seq<CacheEntry>, e: CacheEntry)
    ensures
        total_bytes(entries.push(e)) == total_bytes(entries) + e.bytes@.len(),
    decreases entries.len(),
{
    if entries.len() == 0 {
        assert(entries.push(e)[0] == e);
        assert(entries.push(e).drop_first() =~= Seq::<CacheEntry>::empty());
        assert(total_bytes(entries.push(e).drop_first()) == 0);
        assert(total_bytes(entries.push(e)) == e.bytes@.len());
    } else {
        assert(entries.push(e)[0] == entries[0]);
        assert(entries.push(e).drop_first() =~= entries.drop_first().push(e));
        lemma_total_bytes_push(entries.drop_first(), e);
        assert(total_bytes(entries.push(e)) == entries[0].bytes@.len() + total_bytes(
            entries.drop_first().push(e),
        ));
        assert(total_bytes(entries.push(e)) == entries[0].bytes@.len() + total_bytes(
            entries.drop_first(),
        ) + e.bytes@.len());
    }
}

/// Looking a range up after appending an entry: an earlier entry
/// still wins, and otherwise only the new entry can answer.
proof fn lemma_lookup_push_point(entries: Seq<CacheEntry>, e: CacheEntry, p: Seq<char>, a: int, b: int)
    ensures
        lookup_entries(entries.push(e), p, a, b) == if lookup_entries(entries, p, a, b) is Some {
            lookup_entries(entries, p, a, b)
        } else if key_matches(e, p, a, b) {
            Option::Some(e.bytes@)
        } else {
            Option::<Seq<u8>>::None
        },
    decreases entries.len(),
{
    if entries.len() == 0 {
        assert(entries.push(e)[0] == e);
        assert(entries.push(e).drop_first() =~= Seq::<CacheEntry>::empty());
        assert(lookup_entries(entries.push(e).drop_first(), p, a, b) is None);
        if key_matches(e, p, a, b) {
            assert(lookup_entries(entries.push(e), p, a, b) == Option::Some(e.bytes@));
        } else {
            assert(lookup_entries(entries.push(e), p, a, b) is None);
        }
    } else {
        assert(entries.push(e)[0] == entries[0]);
        assert(entries.push(e).drop_first() =~= entries.drop_first().push(e));
        lemma_lookup_push_point(entries.drop_first(), e, p, a, b);
        if key_matches(entries[0], p, a, b) {
            assert(lookup_entries(entries.push(e), p, a, b) == Option::Some(entries[0].bytes@));
            assert(lookup_entries(entries, p, a, b) == Option::Some(entries[0].bytes@));
        } else {
            assert(lookup_entries(entries.push(e), p, a, b) == lookup_entries(
                entries.drop_first().push(e),
                p,
                a,
                b,
            ));
            assert(lookup_entries(entries, p, a, b) == lookup_entries(
                entries.drop_first(),
                p,
                a,
                b,
            ));
        }
    }
}

/// An entry of the list answers the lookup of its own key.
proof fn lemma_lookup_finds(entries: Seq<CacheEntry>, i: int)
    requires
        0 <= i < entries.len(),
    ensures
        lookup_entries(
            entries,
            entries[i].path@,
            entries[i].start as int,
            entries[i].end as int,
        ) is Some,
    decreases entries.len(),
{
    if i > 0 && !key_matches(entries[0], entries[i].path@, entries[i].start as int, entries[i].end as int) {
        lemma_lookup_finds(entries.drop_first(), i - 1);
        assert(entries.drop_first()[i - 1] == entries[i]);
    }
}

/// Dropping the oldest entry never invents an answer: whatever the
/// shorter cache returns, the longer one returned too.
proof fn lemma_drop_first_preserves(entries: Seq<CacheEntry>, path: Seq<char>, start: int, end: int)
    requires
        entries.len() > 0,
        unique_keys(entries),
    ensures
        forall|p: Seq<char>, a: int, b: int|
            #![trigger lookup_entries(entries.drop_first(), p, a, b)]
            lookup_entries(entries.drop_first(), p, a, b) is Some ==> lookup_entries(
                entries,
                p,
                a,
                b,
            ) == lookup_entries(entries.drop_first(), p, a, b),
        unique_keys(entries.drop_first()),
        entries_sized(entries) ==> entries_sized(entries.drop_first()),
        total_bytes(entries.drop_first()) == total_bytes(entries) - entries[0].bytes@.len(),
        lookup_entries(entries, path, start, end) is None ==> lookup_entries(
            entries.drop_first(),
            path,
            start,
            end,
        ) is None,
{
    let d = entries.drop_first();
    assert(forall|i: int| 0 <= i < d.len() ==> d[i] == entries[i + 1]);
    assert forall|p: Seq<char>, a: int, b: int| #[trigger] lookup_entries(
        d,
        p,
        a,
        b,
    ) is Some implies lookup_entries(entries, p, a, b) == lookup_entries(d, p, a, b) by {
        if key_matches(entries[0], p, a, b) {
            lemma_lookup_some_is_present(d, p, a, b);
            let i = choose|i: int| 0 <= i < d.len() && key_matches(d[i], p, a, b);
            assert(!key_matches(entries[i + 1], entries[0].path@, entries[0].start as int, entries[0].end as int));
        }
    }
}

/// A successful lookup points at a real entry with that key.
proof fn lemma_lookup_some_is_present(entries: Seq<CacheEntry>, p: Seq<char>, a: int, b: int)
    requires
        lookup_entries(entries, p, a, b) is Some,
    ensures
        exists|i: int| 0 <= i < entries.len() && key_matches(#[trigger] entries[i], p, a, b),
    decreases entries.len(),
{
    if entries.len() > 0 && !key_matches(entries[0], p, a, b) {
        lemma_lookup_some_is_present(entries.drop_first(), p, a, b);
        let i = choose|i: int|
            0 <= i < entries.drop_first().len() && key_matches(
                #[trigger] entries.drop_first()[i],
                p,
                a,
                b,
            );
        assert(key_matches(entries[i + 1], p, a, b));
    }
}

/// One byte range of a hot-cache: everything needed to open an index
/// without another read, fetched as one blob beforehand.
#[derive(Debug)]
pub struct HotRange {
    /// The file the range belongs to.
    pub path: String,
    /// Where the range starts.
    pub start: usize,
    /// Where the range ends.
    pub end: usize,
    /// The bytes of the range.
    pub bytes: Vec<u8>,
}

/// Seeds the cache with the ranges of a hot-cache, so that opening
/// the index misses nothing: afterwards every well-sized range of
/// the hot-cache that fits the budget answers from the cache.
pub fn seed_with_hot_ranges(cache: &mut ByteRangeCache, ranges: Vec<HotRange>)
    requires
        old(cache).wf(),
    ensures
        final(cache).wf(),
        final(cache).budget() == old(cache).budget(),
        old(cache).budget() is None ==> forall|i: int|
            0 <= i < ranges@.len() && (#[trigger] ranges@[i]).end - ranges@[i].start
                == ranges@[i].bytes@.len() ==> final(cache).cached(
                ranges@[i].path@,
                ranges@[i].start as int,
                ranges@[i].end as int,
            ) is Some,
{
    let mut remaining = ranges;
    let ghost all = remaining@;
    let total = remaining.len();
    proof {
        assert(all.len() == total as int);
    }
    let mut i: usize = 0;
    while remaining.len() > 0
        invariant
            cache.wf(),
            cache.budget() == old(cache).budget(),
            all.len() <= usize::MAX,
            i + remaining@.len() == all.len(),
            forall|k: int| 0 <= k < remaining@.len() ==> #[trigger] remaining@[k] == all[i + k],
            old(cache).budget() is None ==> forall|k: int|
                0 <= k < i as int && (#[trigger] all[k]).end - all[k].start
                    == all[k].bytes@.len() ==> cache.cached(
                    all[k].path@,
                    all[k].start as int,
                    all[k].end as int,
                ) is Some,
        decreases remaining@.len(),
    {
        let ghost before = remaining@;
        let range = remaining.remove(0);
        proof {
            assert(remaining@ =~= before.drop_first());
        }
        let well_sized = range.end >= range.start && range.end - range.start
            == range.bytes.len();
        if well_sized {
            cache.put(range.path, range.start, range.end, range.bytes);
        }
        i = i + 1;
    }
}

} // verus!
