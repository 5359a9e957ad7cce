//! A bounded, least-recently-used cache of raw glyph masks, keyed by font
//! identity, pixel size and glyph index.
use vstd::prelude::*;
use crate::text_renderer::{ImageBuffer, ImageView};

verus! {

/// Identity of a loaded font face.
pub type FontId = u64;

/// Pixels per em.
pub type FontSize = u32;

/// Index of a glyph in a font.
pub type GlyphId = u16;

/// Font identity, pixel size and glyph index. Colors are no part of a key.
pub type GlyphCacheKey = (FontId, FontSize, GlyphId);

/// Number of raw masks a renderer keeps.
pub const GLYPH_CACHE_SIZE: usize = 256;

/// The largest capacity a cache can be made with: past it, sizing the hash
/// table behind the cache could overflow.
pub const MAX_CACHE_CAPACITY: usize = 0x0800_0000;

#[verifier::external_type_specification]
#[verifier::external_body]
#[verifier::reject_recursive_types(K)]
#[verifier::reject_recursive_types(V)]
#[verifier::reject_recursive_types(S)]
pub struct ExLruCache<K, V, S>(lru::LruCache<K, V, S>);

#[verifier::external_type_specification]
#[verifier::external_body]
pub struct ExLruHasher(lru::DefaultHasher);

/// The entries of an `lru::LruCache`, most recently used first, each mask
/// as its view.
pub uninterp spec fn lru_entries(c: lru::LruCache<GlyphCacheKey, ImageBuffer>) -> Seq<(GlyphCacheKey, ImageView)>;

/// The number of entries an `lru::LruCache` was made to hold.
pub uninterp spec fn lru_capacity(c: lru::LruCache<GlyphCacheKey, ImageBuffer>) -> nat;

/// Whether some entry has key `k`.
pub open spec fn holds_key(entries: Seq<(GlyphCacheKey, ImageView)>, k: GlyphCacheKey) -> bool {
    exists|i: int| 0 <= i < entries.len() && #[trigger] entries[i].0 == k
}

/// No two entries share a key.
pub open spec fn keys_unique(entries: Seq<(GlyphCacheKey, ImageView)>) -> bool {
    forall|i: int, j: int|
        0 <= i < entries.len() && 0 <= j < entries.len() && #[trigger] entries[i].0 == #[trigger] entries[j].0
            ==> i == j
}

/// The position of the entry with key `k`, where there is one.
pub open spec fn key_index(entries: Seq<(GlyphCacheKey, ImageView)>, k: GlyphCacheKey) -> int {
    choose|i: int| 0 <= i < entries.len() && #[trigger] entries[i].0 == k
}

/// The entries after a lookup of `k`: a found entry moves to the front.
pub open spec fn promoted(entries: Seq<(GlyphCacheKey, ImageView)>, k: GlyphCacheKey) -> Seq<(GlyphCacheKey, ImageView)> {
    if holds_key(entries, k) {
        seq![entries[key_index(entries, k)]] + entries.remove(key_index(entries, k))
    } else {
        entries
    }
}

/// The entries after storing `v` under `k` with room for `cap` entries: an
/// entry with key `k` is replaced, else the least recently used entry leaves
/// when the cache is full; the stored entry is at the front.
pub open spec fn put_entries(
    entries: Seq<(GlyphCacheKey, ImageView)>,
    cap: nat,
    k: GlyphCacheKey,
    v: ImageView,
) -> Seq<(GlyphCacheKey, ImageView)> {
    if holds_key(entries, k) {
        seq![(k, v)] + entries.remove(key_index(entries, k))
    } else if cap == 0 {
        entries
    } else if entries.len() == cap {
        seq![(k, v)] + entries.drop_last()
    } else {
        seq![(k, v)] + entries
    }
}

/// What a lookup of `k` hands back: a copy of the mask stored under `k`.
pub open spec fn lookup_result(
    r: Option<ImageBuffer>,
    entries: Seq<(GlyphCacheKey, ImageView)>,
    k: GlyphCacheKey,
) -> bool {
    match r {
        Some(img) => holds_key(entries, k) && img@ == entries[key_index(entries, k)].1,
        None => !holds_key(entries, k),
    }
}

/// Relies on `lru::LruCache::new`: an empty cache that holds at most `cap`
/// entries. Its hash table is sized for `cap` entries, which panics where
/// that size overflows.
#[verifier::external_body]
fn lru_new(cap: usize) -> (r: lru::LruCache<GlyphCacheKey, ImageBuffer>)
    requires
        cap <= MAX_CACHE_CAPACITY,
    ensures
        lru_entries(r) == Seq::<(GlyphCacheKey, ImageView)>::empty(),
        lru_capacity(r) == cap,
{
    lru::LruCache::new(cap)
}

/// Relies on `lru::LruCache::get`: a found entry moves to the front of the
/// recency order and its value is handed out (here cloned).
#[verifier::external_body]
fn lru_get(c: &mut lru::LruCache<GlyphCacheKey, ImageBuffer>, k: &GlyphCacheKey) -> (r: Option<ImageBuffer>)
    ensures
        lru_entries(*final(c)) == promoted(lru_entries(*old(c)), *k),
        lru_capacity(*final(c)) == lru_capacity(*old(c)),
        lookup_result(r, lru_entries(*old(c)), *k),
{
    c.get(k).cloned()
}

/// Relies on `lru::LruCache::put`: replaces the value of an existing key, or
/// evicts the least recently used entry when full; a cache of capacity zero
/// stores nothing.
#[verifier::external_body]
fn lru_put(c: &mut lru::LruCache<GlyphCacheKey, ImageBuffer>, k: GlyphCacheKey, v: ImageBuffer)
    ensures
        lru_entries(*final(c)) == put_entries(lru_entries(*old(c)), lru_capacity(*old(c)), k, v@),
        lru_capacity(*final(c)) == lru_capacity(*old(c)),
{
    c.put(k, v);
}

pub(crate) proof fn lemma_promoted_keeps_unique(entries: Seq<(GlyphCacheKey, ImageView)>, k: GlyphCacheKey)
    requires
        keys_unique(entries),
    ensures
        keys_unique(promoted(entries, k)),
        promoted(entries, k).len() == entries.len(),
{
    if holds_key(entries, k) {
        let i = key_index(entries, k);
        let rest = entries.remove(i);
        let p = promoted(entries, k);
        assert forall|a: int, b: int|
            0 <= a < p.len() && 0 <= b < p.len() && #[trigger] p[a].0 == #[trigger] p[b].0 implies a == b by {
            let ia = if a == 0 { i } else if a - 1 < i { a - 1 } else { a };
            let ib = if b == 0 { i } else if b - 1 < i { b - 1 } else { b };
            assert(p[a] == entries[ia]);
            assert(p[b] == entries[ib]);
        }
    }
}

pub(crate) proof fn lemma_put_keeps_unique(entries: Seq<(GlyphCacheKey, ImageView)>, cap: nat, k: GlyphCacheKey, v: ImageView)
    requires
        keys_unique(entries),
        entries.len() <= cap,
    ensures
        keys_unique(put_entries(entries, cap, k, v)),
        put_entries(entries, cap, k, v).len() <= cap,
{
    let p = put_entries(entries, cap, k, v);
    if holds_key(entries, k) {
        let i = key_index(entries, k);
        assert forall|a: int, b: int|
            0 <= a < p.len() && 0 <= b < p.len() && #[trigger] p[a].0 == #[trigger] p[b].0 implies a == b by {
            let ia = if a == 0 { i } else if a - 1 < i { a - 1 } else { a };
            let ib = if b == 0 { i } else if b - 1 < i { b - 1 } else { b };
            assert(p[a].0 == entries[ia].0);
            assert(p[b].0 == entries[ib].0);
        }
    } else if cap != 0 {
        assert forall|a: int, b: int|
            0 <= a < p.len() && 0 <= b < p.len() && #[trigger] p[a].0 == #[trigger] p[b].0 implies a == b by {
            if a > 0 {
                assert(p[a] == entries[a - 1]);
            }
            if b > 0 {
                assert(p[b] == entries[b - 1]);
            }
        }
    }
}

/// Storing a key that a full cache does not hold evicts exactly the least
/// recently used entry: the new key and every other key are held afterwards,
/// and a lookup of the evicted key misses.
pub proof fn lemma_full_insert_evicts_least_recent(
    entries: Seq<(GlyphCacheKey, ImageView)>,
    cap: nat,
    k: GlyphCacheKey,
    v: ImageView,
)
    requires
        keys_unique(entries),
        entries.len() == cap,
        cap >= 1,
        !holds_key(entries, k),
    ensures
        put_entries(entries, cap, k, v).len() == cap,
        holds_key(put_entries(entries, cap, k, v), k),
        !holds_key(put_entries(entries, cap, k, v), entries.last().0),
        forall|i: int| 0 <= i < cap - 1 ==> holds_key(put_entries(entries, cap, k, v), #[trigger] entries[i].0),
        lookup_result(None, put_entries(entries, cap, k, v), entries.last().0),
{
    let p = put_entries(entries, cap, k, v);
    let evicted = entries.last().0;
    assert(p[0].0 == k);
    assert forall|i: int| 0 <= i < cap - 1 implies holds_key(p, #[trigger] entries[i].0) by {
        assert(p[i + 1] == entries[i]);
    }
    assert forall|j: int| 0 <= j < p.len() implies #[trigger] p[j].0 != evicted by {
        if j == 0 {
            assert(entries[cap - 1].0 == evicted);
        } else {
            assert(p[j] == entries[j - 1]);
            assert(entries[cap - 1].0 == evicted);
        }
    }
}

/// The entries after storing `masks[i]` under `keys[i]` for each `i` in turn.
pub open spec fn put_all(
    entries: Seq<(GlyphCacheKey, ImageView)>,
    cap: nat,
    keys: Seq<GlyphCacheKey>,
    masks: Seq<ImageView>,
) -> Seq<(GlyphCacheKey, ImageView)>
    decreases keys.len(),
{
    if keys.len() == 0 {
        entries
    } else {
        put_entries(
            put_all(entries, cap, keys.drop_last(), masks.drop_last()),
            cap,
            keys.last(),
            masks[keys.len() - 1],
        )
    }
}

/// No key occurs twice.
pub open spec fn distinct_keys(keys: Seq<GlyphCacheKey>) -> bool {
    forall|i: int, j: int| 0 <= i < j < keys.len() ==> keys[i] != keys[j]
}

proof fn lemma_put_all_distinct_fills(cap: nat, keys: Seq<GlyphCacheKey>, masks: Seq<ImageView>)
    requires
        distinct_keys(keys),
        keys.len() <= cap,
        masks.len() == keys.len(),
    ensures
        put_all(Seq::empty(), cap, keys, masks) == Seq::new(
            keys.len(),
            |i: int| (keys[keys.len() - 1 - i], masks[keys.len() - 1 - i]),
        ),
    decreases keys.len(),
{
    let n = keys.len();
    if n > 0 {
        let ks = keys.drop_last();
        let ms = masks.drop_last();
        lemma_put_all_distinct_fills(cap, ks, ms);
        let prev = put_all(Seq::empty(), cap, ks, ms);
        assert forall|i: int| 0 <= i < prev.len() implies #[trigger] prev[i].0 != keys.last() by {
            assert(prev[i].0 == keys[n - 2 - i]);
        }
        assert(!holds_key(prev, keys.last()));
        assert(put_all(Seq::empty(), cap, keys, masks) =~= Seq::new(
            n,
            |i: int| (keys[n - 1 - i], masks[n - 1 - i]),
        ));
    }
}

/// Storing `capacity + 1` distinct keys, one after another, in an empty cache
/// evicts exactly the first key, the least recently used one: a lookup of it
/// misses, and every later key is held.
pub proof fn lemma_overfill_evicts_first(cap: nat, keys: Seq<GlyphCacheKey>, masks: Seq<ImageView>)
    requires
        cap >= 1,
        distinct_keys(keys),
        keys.len() == cap + 1,
        masks.len() == keys.len(),
    ensures
        lookup_result(None, put_all(Seq::empty(), cap, keys, masks), keys[0]),
        forall|i: int| 1 <= i <= cap ==> holds_key(put_all(Seq::empty(), cap, keys, masks), #[trigger] keys[i]),
        put_all(Seq::empty(), cap, keys, masks).len() == cap,
{
    let ks = keys.drop_last();
    let ms = masks.drop_last();
    lemma_put_all_distinct_fills(cap, ks, ms);
    let prev = put_all(Seq::empty(), cap, ks, ms);
    assert(keys_unique(prev)) by {
        assert forall|a: int, b: int|
            0 <= a < prev.len() && 0 <= b < prev.len() && #[trigger] prev[a].0 == #[trigger] prev[b].0 implies a == b by {
            assert(prev[a].0 == keys[cap - 1 - a]);
            assert(prev[b].0 == keys[cap - 1 - b]);
        }
    }
    assert forall|i: int| 0 <= i < prev.len() implies #[trigger] prev[i].0 != keys.last() by {
        assert(prev[i].0 == keys[cap - 1 - i]);
    }
    assert(prev.last().0 == keys[0]);
    lemma_full_insert_evicts_least_recent(prev, cap, keys.last(), masks[keys.len() - 1]);
    let p = put_all(Seq::empty(), cap, keys, masks);
    assert forall|i: int| 1 <= i <= cap implies holds_key(p, #[trigger] keys[i]) by {
        if i < cap {
            assert(prev[cap - 1 - i].0 == keys[i]);
        }
    }
}

/// Raw glyph masks under their keys, with least-recently-used eviction.
pub struct GlyphCache {
    masks: lru::LruCache<GlyphCacheKey, ImageBuffer>,
}

impl GlyphCache {
    /// The entries, most recently used first.
    pub closed spec fn entries(&self) -> Seq<(GlyphCacheKey, ImageView)> {
        lru_entries(self.masks)
    }

    /// The number of entries the cache holds at most.
    pub closed spec fn capacity(&self) -> nat {
        lru_capacity(self.masks)
    }

    pub open spec fn wf(&self) -> bool {
        keys_unique(self.entries()) && self.entries().len() <= self.capacity()
    }

    /// An empty cache for at most `capacity` masks.
    pub fn new(capacity: usize) -> (r: GlyphCache)
        requires
            capacity <= MAX_CACHE_CAPACITY,
        ensures
            r.wf(),
            r.entries() == Seq::<(GlyphCacheKey, ImageView)>::empty(),
            r.capacity() == capacity,
    {
        GlyphCache { masks: lru_new(capacity) }
    }

    /// The mask stored under `key`, if any; a hit makes `key` the most
    /// recently used.
    pub fn lookup(&mut self, key: &GlyphCacheKey) -> (r: Option<ImageBuffer>)
        requires
            old(self).wf(),
        ensures
            final(self).wf(),
            final(self).capacity() == old(self).capacity(),
            final(self).entries() == promoted(old(self).entries(), *key),
            lookup_result(r, old(self).entries(), *key),
    {
        proof {
            lemma_promoted_keeps_unique(self.entries(), *key);
        }
        lru_get(&mut self.masks, key)
    }

    /// Stores `mask` under `key` as the most recently used entry, evicting
    /// the least recently used one when the cache is full.
    pub fn insert(&mut self, key: GlyphCacheKey, mask: ImageBuffer)
        requires
            old(self).wf(),
        ensures
            final(self).wf(),
            final(self).capacity() == old(self).capacity(),
            final(self).entries() == put_entries(old(self).entries(), old(self).capacity(), key, mask@),
    {
        proof {
            lemma_put_keeps_unique(self.entries(), self.capacity(), key, mask@);
        }
        lru_put(&mut self.masks, key, mask);
    }
}

} // verus!
