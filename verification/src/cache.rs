//! The cache of compressed static files: a least-recently-used cache keyed
//! by (path, compression) that bounds the total size of what it holds.
use lru::LruCache;
use std::num::NonZeroUsize;
use std::sync::Arc;
use vstd::prelude::*;

verus! {

/// One megabyte.
pub const MB: usize = 1048576;

/// The largest file the cache takes: one megabyte.
pub const MAX_FILE_SIZE: usize = 1048576;

/// A cache key as the contracts see it: (path, compression).
pub type KeyView = (Seq<char>, Seq<char>);

/// A cached file: its bytes, shared, and its size.
#[derive(Clone)]
pub struct CacheEntry {
    data: Arc<Vec<u8>>,
    size: usize,
}

impl CacheEntry {
    /// The cached bytes and the recorded size.
    pub closed spec fn spec_parts(&self) -> (Seq<u8>, usize) {
        (self.data@, self.size)
    }

    /// An entry for `data`, sized by its length.
    pub fn new(data: Vec<u8>) -> (r: CacheEntry)
        ensures
            r.spec_parts() == (data@, data@.len() as usize),
    {
        let size = data.len();
        CacheEntry { data: Arc::new(data), size }
    }
}

#[verifier::external_type_specification]
#[verifier::external_body]
#[verifier::reject_recursive_types(K)]
#[verifier::reject_recursive_types(V)]
#[verifier::reject_recursive_types(S)]
pub struct ExLruCache<K, V, S>(LruCache<K, V, S>);

#[verifier::external_type_specification]
#[verifier::external_body]
pub struct ExLruHasher(lru::DefaultHasher);

/// The concrete LRU cache of compressed files.
pub type FileLru = LruCache<(String, String), CacheEntry>;

/// What an LRU cache of files holds: its entries from least to most
/// recently used, each a key with the entry's bytes and recorded size.
pub uninterp spec fn lru_entries(c: FileLru) -> Seq<(KeyView, (Seq<u8>, usize))>;

/// The number of entries an LRU cache of files holds at most.
pub uninterp spec fn lru_cap(c: FileLru) -> nat;

/// The view of a key.
pub open spec fn key_view(k: (String, String)) -> KeyView {
    (k.0@, k.1@)
}

/// No key occurs twice among `e`.
pub open spec fn keys_unique<V>(e: Seq<(KeyView, V)>) -> bool {
    forall|i: int, j: int| 0 <= i < e.len() && 0 <= j < e.len() && i != j ==> e[i].0 != e[j].0
}

/// Whether key `k` occurs among `e`.
pub open spec fn has_key<V>(e: Seq<(KeyView, V)>, k: KeyView) -> bool {
    exists|i: int| 0 <= i < e.len() && e[i].0 == k
}

/// The position of key `k` among `e`, when it occurs.
pub open spec fn key_pos<V>(e: Seq<(KeyView, V)>, k: KeyView) -> int {
    choose|i: int| 0 <= i < e.len() && e[i].0 == k
}

/// `e` with the entry at `i` moved to the most recently used end.
pub open spec fn touch<V>(e: Seq<(KeyView, V)>, i: int) -> Seq<(KeyView, V)> {
    e.remove(i).push(e[i])
}

/// Creates an LRU cache of files that holds at most `cap` entries, with
/// `LruCache::new`.
#[verifier::external_body]
fn lru_new(cap: usize) -> (r: FileLru)
    requires
        cap > 0,
    ensures
        lru_entries(r) == Seq::<(KeyView, (Seq<u8>, usize))>::empty(),
        lru_cap(r) == cap,
{
    LruCache::new(NonZeroUsize::new(cap).unwrap())
}

/// Creates an LRU cache of files that never evicts by count, with
/// `LruCache::unbounded` (its capacity is `usize::MAX`).
#[verifier::external_body]
fn lru_unbounded() -> (r: FileLru)
    ensures
        lru_entries(r) == Seq::<(KeyView, (Seq<u8>, usize))>::empty(),
        lru_cap(r) == usize::MAX,
{
    LruCache::unbounded()
}

/// Looks a key up with `LruCache::get`, which moves a found entry to the
/// most recently used end; the entry is handed out as a clone, which shares
/// the cached bytes.
#[verifier::external_body]
fn lru_get(c: &mut FileLru, k: &(String, String)) -> (r: Option<CacheEntry>)
    requires
        keys_unique(lru_entries(*old(c))),
    ensures
        lru_cap(*final(c)) == lru_cap(*old(c)),
        keys_unique(lru_entries(*final(c))),
        has_key(lru_entries(*old(c)), key_view(*k)) ==> {
            let e = lru_entries(*old(c));
            let i = key_pos(e, key_view(*k));
            &&& r is Some
            &&& r->0.spec_parts() == e[i].1
            &&& lru_entries(*final(c)) == touch(e, i)
        },
        !has_key(lru_entries(*old(c)), key_view(*k)) ==> {
            &&& r is None
            &&& lru_entries(*final(c)) == lru_entries(*old(c))
        },
{
    c.get(k).cloned()
}

/// Removes a key with `LruCache::pop`, handing out its entry.
#[verifier::external_body]
fn lru_pop(c: &mut FileLru, k: &(String, String)) -> (r: Option<CacheEntry>)
    requires
        keys_unique(lru_entries(*old(c))),
    ensures
        lru_cap(*final(c)) == lru_cap(*old(c)),
        keys_unique(lru_entries(*final(c))),
        has_key(lru_entries(*old(c)), key_view(*k)) ==> {
            let e = lru_entries(*old(c));
            let i = key_pos(e, key_view(*k));
            &&& r is Some
            &&& r->0.spec_parts() == e[i].1
            &&& lru_entries(*final(c)) == e.remove(i)
        },
        !has_key(lru_entries(*old(c)), key_view(*k)) ==> {
            &&& r is None
            &&& lru_entries(*final(c)) == lru_entries(*old(c))
        },
{
    c.pop(k)
}

/// Removes the least recently used entry with `LruCache::pop_lru`, handing
/// out its entry.
#[verifier::external_body]
fn lru_pop_lru(c: &mut FileLru) -> (r: Option<CacheEntry>)
    requires
        keys_unique(lru_entries(*old(c))),
    ensures
        lru_cap(*final(c)) == lru_cap(*old(c)),
        keys_unique(lru_entries(*final(c))),
        lru_entries(*old(c)).len() == 0 ==> r is None && lru_entries(*final(c)) == lru_entries(
            *old(c),
        ),
        lru_entries(*old(c)).len() > 0 ==> r is Some && r->0.spec_parts() == lru_entries(
            *old(c),
        )[0].1 && lru_entries(*final(c)) == lru_entries(*old(c)).drop_first(),
{
    c.pop_lru().map(|(_, v)| v)
}

/// Inserts an entry with `LruCache::put`: an existing entry of the key takes
/// the new value and becomes most recently used; otherwise, when the cache
/// holds its capacity, the least recently used entry is dropped, and the new
/// entry becomes most recently used.
#[verifier::external_body]
fn lru_put(c: &mut FileLru, k: (String, String), v: CacheEntry) -> (r: Option<CacheEntry>)
    requires
        keys_unique(lru_entries(*old(c))),
        lru_entries(*old(c)).len() <= lru_cap(*old(c)),
        lru_cap(*old(c)) > 0,
    ensures
        lru_cap(*final(c)) == lru_cap(*old(c)),
        keys_unique(lru_entries(*final(c))),
        has_key(lru_entries(*old(c)), key_view(k)) ==> {
            let e = lru_entries(*old(c));
            let i = key_pos(e, key_view(k));
            &&& r is Some
            &&& r->0.spec_parts() == e[i].1
            &&& lru_entries(*final(c)) == e.remove(i).push((key_view(k), v.spec_parts()))
        },
        !has_key(lru_entries(*old(c)), key_view(k)) ==> {
            let e = lru_entries(*old(c));
            &&& r is None
            &&& lru_entries(*final(c)) == (if e.len() == lru_cap(*old(c)) {
                e.drop_first()
            } else {
                e
            }).push((key_view(k), v.spec_parts()))
        },
{
    c.put(k, v)
}

/// The number of entries, with `LruCache::len`.
#[verifier::external_body]
fn lru_len(c: &FileLru) -> (r: usize)
    ensures
        r == lru_entries(*c).len(),
{
    c.len()
}

/// Removes all entries, with `LruCache::clear`.
#[verifier::external_body]
fn lru_clear(c: &mut FileLru)
    ensures
        lru_cap(*final(c)) == lru_cap(*old(c)),
        lru_entries(*final(c)) == Seq::<(KeyView, (Seq<u8>, usize))>::empty(),
{
    c.clear()
}

// ---------------------------------------------------------------------------
// The cache
// ---------------------------------------------------------------------------

/// The total size of the files in `e`.
pub open spec fn total_size(e: Seq<(KeyView, Seq<u8>)>) -> nat
    decreases e.len(),
{
    if e.len() == 0 {
        0
    } else {
        e[0].1.len() + total_size(e.drop_first())
    }
}

/// What the compression cache holds: its files from least to most recently
/// used, the size it counts as used, its size limit (0: caching is off) and
/// the number of files it holds at most.
pub struct CacheView {
    pub entries: Seq<(KeyView, Seq<u8>)>,
    pub current_size: nat,
    pub max_size: nat,
    pub cap: nat,
}

/// The files in `e` after evicting least recently used ones while the
/// counted size `cur` and `req` more bytes exceed the limit `max`; with the
/// counted size that remains.
pub open spec fn spec_make_space(e: Seq<(KeyView, Seq<u8>)>, cur: nat, req: nat, max: nat) -> (
    Seq<(KeyView, Seq<u8>)>,
    nat,
)
    decreases e.len(),
{
    if max == 0 || req > MAX_FILE_SIZE {
        (e, cur)
    } else if cur + req > max && e.len() > 0 {
        spec_make_space(e.drop_first(), (cur - e[0].1.len()) as nat, req, max)
    } else {
        (e, cur)
    }
}

/// The cache after inserting `data` under key `k`: a file over the file-size
/// limit is not taken; otherwise an old file under `k` leaves, least recently
/// used files are evicted until the new one fits, and it is stored as most
/// recently used if caching is on and it fits, dropping the least recently
/// used file when the cache already holds its number of files.
pub open spec fn spec_insert(v: CacheView, k: KeyView, data: Seq<u8>) -> CacheView {
    if data.len() > MAX_FILE_SIZE {
        v
    } else {
        let e1 = if has_key(v.entries, k) {
            v.entries.remove(key_pos(v.entries, k))
        } else {
            v.entries
        };
        let cur1: nat = if has_key(v.entries, k) {
            (v.current_size - v.entries[key_pos(v.entries, k)].1.len()) as nat
        } else {
            v.current_size
        };
        let (e2, cur2) = spec_make_space(e1, cur1, data.len(), v.max_size);
        if v.max_size > 0 && cur2 + data.len() <= v.max_size {
            let e3 = if e2.len() == v.cap {
                e2.drop_first()
            } else {
                e2
            };
            CacheView { entries: e3.push((k, data)), current_size: cur2 + data.len(), ..v }
        } else {
            CacheView { entries: e2, current_size: cur2, ..v }
        }
    }
}

/// The files and sizes kept by the LRU, as files.
pub open spec fn as_files(e: Seq<(KeyView, (Seq<u8>, usize))>) -> Seq<(KeyView, Seq<u8>)> {
    e.map_values(|x: (KeyView, (Seq<u8>, usize))| (x.0, x.1.0))
}

/// Each recorded size is the length of its bytes and at most the file limit.
pub open spec fn sizes_ok(e: Seq<(KeyView, (Seq<u8>, usize))>) -> bool {
    forall|i: int|
        0 <= i < e.len() ==> #[trigger] e[i].1.1 == e[i].1.0.len() && e[i].1.1 <= MAX_FILE_SIZE
}

/// The cache of compressed files, bounded by total size.
pub struct CompressionCache {
    cache: FileLru,
    current_size: usize,
    max_size: usize,
}

impl View for CompressionCache {
    type V = CacheView;

    closed spec fn view(&self) -> CacheView {
        CacheView {
            entries: as_files(lru_entries(self.cache)),
            current_size: self.current_size as nat,
            max_size: self.max_size as nat,
            cap: lru_cap(self.cache),
        }
    }
}

/// The cache's invariant as seen from its view: distinct keys, no file over
/// the file limit, the held files within the counted size, the counted size
/// within the limit, and nothing held while caching is off.
pub open spec fn cache_ok(v: CacheView) -> bool {
    &&& keys_unique(v.entries)
    &&& forall|i: int| 0 <= i < v.entries.len() ==> #[trigger] v.entries[i].1.len() <= MAX_FILE_SIZE
    &&& total_size(v.entries) <= v.current_size
    &&& v.max_size > 0 ==> v.current_size <= v.max_size
    &&& v.max_size == 0 ==> v.entries.len() == 0 && v.current_size == 0
    &&& v.entries.len() <= v.cap
    &&& v.cap > 0
    &&& v.max_size <= usize::MAX
}

proof fn lemma_total_size_push(e: Seq<(KeyView, Seq<u8>)>, x: (KeyView, Seq<u8>))
    ensures
        total_size(e.push(x)) == total_size(e) + x.1.len(),
    decreases e.len(),
{
    let p = e.push(x);
    if e.len() > 0 {
        assert(p.drop_first() =~= e.drop_first().push(x));
        lemma_total_size_push(e.drop_first(), x);
        assert(p[0] == e[0]);
        assert(total_size(p) == p[0].1.len() + total_size(p.drop_first()));
        assert(total_size(e) == e[0].1.len() + total_size(e.drop_first()));
    } else {
        assert(p.drop_first() =~= Seq::<(KeyView, Seq<u8>)>::empty());
        assert(total_size(p) == p[0].1.len() + total_size(p.drop_first()));
        assert(p[0] == x);
    }
}

proof fn lemma_total_size_remove(e: Seq<(KeyView, Seq<u8>)>, i: int)
    requires
        0 <= i < e.len(),
    ensures
        total_size(e.remove(i)) + e[i].1.len() == total_size(e),
    decreases e.len(),
{
    if i > 0 {
        assert(e.remove(i).drop_first() =~= e.drop_first().remove(i - 1));
        lemma_total_size_remove(e.drop_first(), i - 1);
    } else {
        assert(e.remove(0) =~= e.drop_first());
    }
}

proof fn lemma_as_files_keys(e: Seq<(KeyView, (Seq<u8>, usize))>)
    requires
        keys_unique(e),
    ensures
        keys_unique(as_files(e)),
        forall|k: KeyView| has_key(e, k) <==> has_key(as_files(e), k),
        forall|k: KeyView| has_key(e, k) ==> key_pos(e, k) == key_pos(as_files(e), k),
{
    let f = as_files(e);
    assert forall|k: KeyView| has_key(e, k) <==> has_key(f, k) by {
        if has_key(e, k) {
            let i = key_pos(e, k);
            assert(f[i].0 == k);
        }
        if has_key(f, k) {
            let i = key_pos(f, k);
            assert(e[i].0 == k);
        }
    }
    assert forall|k: KeyView| has_key(e, k) implies key_pos(e, k) == key_pos(f, k) by {
        let i = key_pos(e, k);
        assert(f[i].0 == k);
        let j = key_pos(f, k);
        assert(e[j].0 == k);
    }
    assert forall|a: int, b: int| 0 <= a < f.len() && 0 <= b < f.len() && a != b implies f[a].0 != f[b].0 by {
        assert(f[a].0 == e[a].0);
        assert(f[b].0 == e[b].0);
    }
}

impl CompressionCache {
    /// The invariant.
    pub closed spec fn wf(&self) -> bool {
        &&& cache_ok(self@)
        &&& keys_unique(lru_entries(self.cache))
        &&& sizes_ok(lru_entries(self.cache))
    }

    /// A cache of `max_size_mb` megabytes; 0 turns caching off. It holds at
    /// most four files per megabyte, and at least 100.
    pub fn new(max_size_mb: usize) -> (r: CompressionCache)
        requires
            max_size_mb * MB <= usize::MAX,
        ensures
            r.wf(),
            r@.entries == Seq::<(KeyView, Seq<u8>)>::empty(),
            r@.current_size == 0,
            r@.max_size == max_size_mb * MB,
            r@.cap == (if max_size_mb == 0 {
                usize::MAX as nat
            } else if max_size_mb * 4 > 100 {
                (max_size_mb * 4) as nat
            } else {
                100
            }),
    {
        if max_size_mb == 0 {
            let r = CompressionCache { cache: lru_unbounded(), current_size: 0, max_size: 0 };
            assert(r@.entries =~= Seq::<(KeyView, Seq<u8>)>::empty());
            return r;
        }
        let m4 = max_size_mb * 4;
        let estimated_entries = if m4 > 100 {
            m4
        } else {
            100
        };
        let r = CompressionCache {
            cache: lru_new(estimated_entries),
            current_size: 0,
            max_size: max_size_mb * MB,
        };
        assert(r@.entries =~= Seq::<(KeyView, Seq<u8>)>::empty());
        r
    }

    /// Evicts least recently used files until `required_size` more bytes fit.
    fn make_space(&mut self, required_size: usize)
        requires
            old(self).wf(),
            required_size <= MAX_FILE_SIZE,
        ensures
            final(self).wf(),
            (final(self)@.entries, final(self)@.current_size) == spec_make_space(
                old(self)@.entries,
                old(self)@.current_size,
                required_size as nat,
                old(self)@.max_size,
            ),
            final(self)@.max_size == old(self)@.max_size,
            final(self)@.cap == old(self)@.cap,
    {
        if self.max_size == 0 || required_size > MAX_FILE_SIZE {
            return;
        }
        while required_size > self.max_size - self.current_size
            invariant
                self.wf(),
                self.max_size > 0,
                self@.max_size == old(self)@.max_size,
                self@.cap == old(self)@.cap,
                required_size <= MAX_FILE_SIZE,
                spec_make_space(self@.entries, self@.current_size, required_size as nat, self@.max_size)
                    == spec_make_space(
                    old(self)@.entries,
                    old(self)@.current_size,
                    required_size as nat,
                    old(self)@.max_size,
                ),
            ensures
                self.wf(),
                self@.max_size == old(self)@.max_size,
                self@.cap == old(self)@.cap,
                spec_make_space(self@.entries, self@.current_size, required_size as nat, self@.max_size)
                    == (self@.entries, self@.current_size),
                spec_make_space(self@.entries, self@.current_size, required_size as nat, self@.max_size)
                    == spec_make_space(
                    old(self)@.entries,
                    old(self)@.current_size,
                    required_size as nat,
                    old(self)@.max_size,
                ),
            decreases self@.entries.len(),
        {
            let ghost before = self@;
            let ghost le = lru_entries(self.cache);
            if let Some(entry) = lru_pop_lru(&mut self.cache) {
                proof {
                    assert(le[0].1.1 == le[0].1.0.len());
                    assert(before.entries[0].1 == le[0].1.0);
                    assert(before.entries.len() > 0);
                    assert(total_size(before.entries) == before.entries[0].1.len() + total_size(
                        before.entries.drop_first(),
                    ));
                    assert(as_files(le.drop_first()) =~= before.entries.drop_first());
                }
                self.current_size -= entry.size;
                proof {
                    assert(self@.entries == before.entries.drop_first());
                    assert forall|i: int| 0 <= i < lru_entries(self.cache).len() implies #[trigger] lru_entries(
                        self.cache,
                    )[i].1.1 == lru_entries(self.cache)[i].1.0.len() && lru_entries(
                        self.cache,
                    )[i].1.1 <= MAX_FILE_SIZE by {
                        assert(lru_entries(self.cache)[i] == le[i + 1]);
                    }
                    assert forall|i: int| 0 <= i < self@.entries.len() implies #[trigger] self@.entries[i].1.len()
                        <= MAX_FILE_SIZE by {
                        assert(self@.entries[i] == before.entries[i + 1]);
                    }
                    assert forall|i: int, j: int|
                        0 <= i < self@.entries.len() && 0 <= j < self@.entries.len() && i != j
                            implies self@.entries[i].0 != self@.entries[j].0 by {
                        assert(self@.entries[i] == before.entries[i + 1]);
                        assert(self@.entries[j] == before.entries[j + 1]);
                    }
                }
            } else {
                proof {
                    assert(before.entries.len() == 0);
                    assert(self@ == before);
                }
                break;
            }
        }
    }

    /// The cached bytes for `path` under `compression`; a hit becomes the
    /// most recently used file.
    pub fn get(&mut self, path: &str, compression: &str) -> (r: Option<Arc<Vec<u8>>>)
        requires
            old(self).wf(),
        ensures
            final(self).wf(),
            has_key(old(self)@.entries, (path@, compression@)) ==> {
                let i = key_pos(old(self)@.entries, (path@, compression@));
                &&& r is Some
                &&& r->0@ == old(self)@.entries[i].1
                &&& final(self)@ == (CacheView { entries: touch(old(self)@.entries, i), ..old(self)@ })
            },
            !has_key(old(self)@.entries, (path@, compression@)) ==> r is None && final(self)@ == old(
                self,
            )@,
    {
        let key = (path.to_owned(), compression.to_owned());
        let ghost le = lru_entries(self.cache);
        let ghost before = self@;
        let res = lru_get(&mut self.cache, &key);
        proof {
            lemma_as_files_keys(le);
            assert(key_view(key) == (path@, compression@));
            if has_key(le, key_view(key)) {
                let i = key_pos(le, key_view(key));
                let after = lru_entries(self.cache);
                assert(after == touch(le, i));
                assert(as_files(after) =~= touch(before.entries, i));
                assert forall|j: int| 0 <= j < after.len() implies #[trigger] after[j].1.1
                    == after[j].1.0.len() && after[j].1.1 <= MAX_FILE_SIZE by {
                    if j < i {
                        assert(after[j] == le[j]);
                    } else if j < after.len() - 1 {
                        assert(after[j] == le[j + 1]);
                    } else {
                        assert(after[j] == le[i]);
                    }
                }
                lemma_total_size_remove(before.entries, i);
                lemma_total_size_push(before.entries.remove(i), before.entries[i]);
                let fe = touch(before.entries, i);
                assert forall|j: int| 0 <= j < fe.len() implies #[trigger] fe[j].1.len() <= MAX_FILE_SIZE by {
                    if j < i {
                        assert(fe[j] == before.entries[j]);
                    } else if j < fe.len() - 1 {
                        assert(fe[j] == before.entries[j + 1]);
                    } else {
                        assert(fe[j] == before.entries[i]);
                    }
                }
                assert forall|a: int, b: int|
                    0 <= a < fe.len() && 0 <= b < fe.len() && a != b implies fe[a].0 != fe[b].0 by {
                    let ia = if a < i { a } else if a < fe.len() - 1 { a + 1 } else { i };
                    let ib = if b < i { b } else if b < fe.len() - 1 { b + 1 } else { i };
                    assert(fe[a] == before.entries[ia]);
                    assert(fe[b] == before.entries[ib]);
                }
            }
        }
        match res {
            Some(entry) => Some(entry.data),
            None => None,
        }
    }

    /// Caches `data` for `path` under `compression`, as `spec_insert` says.
    pub fn insert(&mut self, path: &str, compression: &str, data: Vec<u8>)
        requires
            old(self).wf(),
        ensures
            final(self).wf(),
            final(self)@ == spec_insert(old(self)@, (path@, compression@), data@),
    {
        let size = data.len();
        if size > MAX_FILE_SIZE {
            return;
        }
        let key = (path.to_owned(), compression.to_owned());
        let ghost k = key_view(key);
        let ghost v0 = self@;
        let ghost le = lru_entries(self.cache);
        proof {
            lemma_as_files_keys(le);
        }
        if let Some(old_entry) = lru_pop(&mut self.cache, &key) {
            proof {
                let i = key_pos(le, k);
                assert(le[i].1.1 == le[i].1.0.len());
                lemma_total_size_remove(v0.entries, i);
                assert(as_files(le.remove(i)) =~= v0.entries.remove(i));
            }
            self.current_size -= old_entry.size;
            proof {
                let i = key_pos(le, k);
                let after = lru_entries(self.cache);
                assert forall|j: int| 0 <= j < after.len() implies #[trigger] after[j].1.1
                    == after[j].1.0.len() && after[j].1.1 <= MAX_FILE_SIZE by {
                    if j < i {
                        assert(after[j] == le[j]);
                    } else {
                        assert(after[j] == le[j + 1]);
                    }
                }
                let fe = self@.entries;
                assert forall|j: int| 0 <= j < fe.len() implies #[trigger] fe[j].1.len() <= MAX_FILE_SIZE by {
                    if j < i {
                        assert(fe[j] == v0.entries[j]);
                    } else {
                        assert(fe[j] == v0.entries[j + 1]);
                    }
                }
                assert forall|a: int, b: int|
                    0 <= a < fe.len() && 0 <= b < fe.len() && a != b implies fe[a].0 != fe[b].0 by {
                    let ia = if a < i { a } else { a + 1 };
                    let ib = if b < i { b } else { b + 1 };
                    assert(fe[a] == v0.entries[ia]);
                    assert(fe[b] == v0.entries[ib]);
                }
            }
        }
        let ghost v1 = self@;
        proof {
            assert(v1.entries == (if has_key(v0.entries, k) {
                v0.entries.remove(key_pos(v0.entries, k))
            } else {
                v0.entries
            }));
        }
        self.make_space(size);
        let ghost v2 = self@;
        if self.max_size > 0 && size <= self.max_size - self.current_size {
            let ghost le2 = lru_entries(self.cache);
            proof {
                lemma_as_files_keys(le2);
                assert(!has_key(v2.entries, k)) by {
                    lemma_make_space_sub(v1.entries, v1.current_size, size as nat, v1.max_size);
                    if has_key(v2.entries, k) {
                        let j = key_pos(v2.entries, k);
                        let o = choose|o: int| 0 <= o <= v1.entries.len() && v2.entries =~= v1.entries.subrange(o, v1.entries.len() as int);
                        assert(v1.entries[j + o].0 == k);
                        if has_key(v0.entries, k) {
                            let p = key_pos(v0.entries, k);
                            let q = if j + o < p { j + o } else { j + o + 1 };
                            assert(v0.entries[q].0 == k);
                        } else {
                            assert(v0.entries[j + o].0 == k);
                        }
                    }
                }
            }
            self.current_size += size;
            let _ = lru_put(&mut self.cache, key, CacheEntry::new(data));
            proof {
                let after = lru_entries(self.cache);
                let e3 = if le2.len() == lru_cap(self.cache) { le2.drop_first() } else { le2 };
                assert(after == e3.push((k, (data@, size))));
                let f3 = if v2.entries.len() == v2.cap { v2.entries.drop_first() } else { v2.entries };
                assert(as_files(e3) =~= f3);
                assert(self@.entries =~= f3.push((k, data@)));
                assert forall|j: int| 0 <= j < after.len() implies #[trigger] after[j].1.1
                    == after[j].1.0.len() && after[j].1.1 <= MAX_FILE_SIZE by {
                    if j < after.len() - 1 {
                        if le2.len() == lru_cap(self.cache) {
                            assert(after[j] == le2[j + 1]);
                        } else {
                            assert(after[j] == le2[j]);
                        }
                    }
                }
                lemma_total_size_push(f3, (k, data@));
                if v2.entries.len() == v2.cap {
                    assert(total_size(v2.entries) == v2.entries[0].1.len() + total_size(
                        v2.entries.drop_first(),
                    ));
                }
                let fe = self@.entries;
                assert forall|j: int| 0 <= j < fe.len() implies #[trigger] fe[j].1.len() <= MAX_FILE_SIZE by {
                    if j < fe.len() - 1 {
                        if v2.entries.len() == v2.cap {
                            assert(fe[j] == v2.entries[j + 1]);
                        } else {
                            assert(fe[j] == v2.entries[j]);
                        }
                    }
                }
                assert forall|a: int, b: int|
                    0 <= a < fe.len() && 0 <= b < fe.len() && a != b implies fe[a].0 != fe[b].0 by {
                    let off: int = if v2.entries.len() == v2.cap { 1 } else { 0 };
                    if a < fe.len() - 1 {
                        assert(fe[a] == v2.entries[a + off]);
                    }
                    if b < fe.len() - 1 {
                        assert(fe[b] == v2.entries[b + off]);
                    }
                    if a == fe.len() - 1 && b < fe.len() - 1 {
                        assert(v2.entries[b + off].0 != k);
                    }
                    if b == fe.len() - 1 && a < fe.len() - 1 {
                        assert(v2.entries[a + off].0 != k);
                    }
                }
            }
        }
    }

    /// The number of cached files.
    pub fn len(&self) -> (r: usize)
        ensures
            r == self@.entries.len(),
    {
        lru_len(&self.cache)
    }

    /// The size counted as used.
    pub fn current_size(&self) -> (r: usize)
        ensures
            r == self@.current_size,
    {
        self.current_size
    }

    /// Removes all files and resets the counted size.
    pub fn clear(&mut self)
        requires
            old(self).wf(),
        ensures
            final(self).wf(),
            final(self)@ == (CacheView {
                entries: Seq::<(KeyView, Seq<u8>)>::empty(),
                current_size: 0,
                ..old(self)@
            }),
    {
        lru_clear(&mut self.cache);
        self.current_size = 0;
        assert(self@.entries =~= Seq::<(KeyView, Seq<u8>)>::empty());
    }
}

/// Evicting from a cache whose counted size is exactly what it holds keeps
/// it so, and stops only once the request fits or nothing is left.
pub proof fn lemma_make_space_exact(e: Seq<(KeyView, Seq<u8>)>, cur: nat, req: nat, max: nat)
    requires
        cur == total_size(e),
        max > 0,
        req <= MAX_FILE_SIZE,
    ensures
        spec_make_space(e, cur, req, max).1 == total_size(spec_make_space(e, cur, req, max).0),
        spec_make_space(e, cur, req, max).1 + req <= max || spec_make_space(e, cur, req, max).0.len()
            == 0,
    decreases e.len(),
{
    if cur + req > max && e.len() > 0 {
        lemma_make_space_exact(e.drop_first(), (cur - e[0].1.len()) as nat, req, max);
    }
}

/// A file that the cache takes is found again: inserting `data` under `k`
/// into a cache that counts exactly what it holds, with caching on and the
/// file within both limits, leaves `data` under `k` as the most recently used
/// file; and unless the cache already held its number of files, in which
/// case the least recently used one leaves uncounted, the cache still counts
/// exactly what it holds.
pub proof fn lemma_insert_then_get(v: CacheView, k: KeyView, data: Seq<u8>)
    requires
        cache_ok(v),
        total_size(v.entries) == v.current_size,
        v.max_size > 0,
        data.len() <= MAX_FILE_SIZE,
        data.len() <= v.max_size,
    ensures
        has_key(spec_insert(v, k, data).entries, k),
        key_pos(spec_insert(v, k, data).entries, k) == spec_insert(v, k, data).entries.len() - 1,
        spec_insert(v, k, data).entries.last() == (k, data),
        v.entries.len() < v.cap ==> total_size(spec_insert(v, k, data).entries) == spec_insert(
            v,
            k,
            data,
        ).current_size,
{
    let e1 = if has_key(v.entries, k) {
        v.entries.remove(key_pos(v.entries, k))
    } else {
        v.entries
    };
    let cur1: nat = if has_key(v.entries, k) {
        (v.current_size - v.entries[key_pos(v.entries, k)].1.len()) as nat
    } else {
        v.current_size
    };
    if has_key(v.entries, k) {
        lemma_total_size_remove(v.entries, key_pos(v.entries, k));
    }
    assert(cur1 == total_size(e1));
    assert(!has_key(e1, k)) by {
        if has_key(e1, k) {
            let j = key_pos(e1, k);
            let p = key_pos(v.entries, k);
            if has_key(v.entries, k) {
                let q = if j < p { j } else { j + 1 };
                assert(v.entries[q] == e1[j]);
            } else {
                assert(v.entries[j] == e1[j]);
            }
        }
    }
    lemma_make_space_exact(e1, cur1, data.len(), v.max_size);
    lemma_make_space_sub(e1, cur1, data.len(), v.max_size);
    let (e2, cur2) = spec_make_space(e1, cur1, data.len(), v.max_size);
    if e2.len() == 0 {
        assert(total_size(e2) == 0);
    }
    assert(cur2 + data.len() <= v.max_size);
    let e3 = if e2.len() == v.cap {
        e2.drop_first()
    } else {
        e2
    };
    assert(!has_key(e3, k)) by {
        if has_key(e3, k) {
            let j = key_pos(e3, k);
            let o = choose|o: int| 0 <= o <= e1.len() && e2 =~= e1.subrange(o, e1.len() as int);
            let off: int = if e2.len() == v.cap { 1 } else { 0 };
            assert(e3[j] == e2[j + off]);
            assert(e2[j + off] == e1[j + off + o]);
        }
    }
    let w = e3.push((k, data));
    assert(w[w.len() - 1].0 == k);
    let p = key_pos(w, k);
    if p != w.len() - 1 {
        assert(e3[p] == w[p]);
    }
    if e2.len() == v.cap {
        assert(e2.len() > 0);
        assert(total_size(e2) == e2[0].1.len() + total_size(e2.drop_first()));
    }
    lemma_total_size_push(e3, (k, data));
}

/// The cache's invariant bounds what it holds by its limit.
pub proof fn lemma_cache_bounded(c: &CompressionCache)
    requires
        c.wf(),
    ensures
        cache_ok(c@),
        c@.max_size > 0 ==> total_size(c@.entries) <= c@.max_size,
        c@.max_size == 0 ==> c@.entries.len() == 0,
{
}

/// Evicting keeps a suffix of the files, never raises the counted size, and
/// keeps the invariant's facts about what remains.
pub proof fn lemma_make_space_sub(e: Seq<(KeyView, Seq<u8>)>, cur: nat, req: nat, max: nat)
    ensures
        exists|o: int| 0 <= o <= e.len() && spec_make_space(e, cur, req, max).0 =~= e.subrange(o, e.len() as int),
    decreases e.len(),
{
    if max == 0 || req > MAX_FILE_SIZE {
        assert(e.subrange(0, e.len() as int) =~= e);
    } else if cur + req > max && e.len() > 0 {
        lemma_make_space_sub(e.drop_first(), (cur - e[0].1.len()) as nat, req, max);
        let o = choose|o: int| 0 <= o <= e.drop_first().len() && spec_make_space(e.drop_first(), (cur - e[0].1.len()) as nat, req, max).0 =~= e.drop_first().subrange(o, e.drop_first().len() as int);
        assert(e.drop_first().subrange(o, e.drop_first().len() as int) =~= e.subrange(o + 1, e.len() as int));
    } else {
        assert(e.subrange(0, e.len() as int) =~= e);
    }
}

} // verus!
