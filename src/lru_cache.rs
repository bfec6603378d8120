use vstd::prelude::*;
use lru::LruCache;
use crate::identity::{FontCollectionEntry, FontIdentity, ShapeKey};
use crate::segment::GlyphRun;

verus! {

#[verifier::external_type_specification]
#[verifier::external_body]
#[verifier::reject_recursive_types(K)]
#[verifier::reject_recursive_types(V)]
#[verifier::reject_recursive_types(S)]
pub struct ExLruCache<K, V, S>(LruCache<K, V, S>);

#[verifier::external_type_specification]
#[verifier::external_body]
pub struct ExDefaultHasher(lru::DefaultHasher);

// An LRU cache is modelled as its entries, least recently used first.

/// Position of key `k` in `s`, or -1.
pub open spec fn key_pos<K, V>(s: Seq<(K, V)>, k: K) -> int {
    if exists|i: int| 0 <= i < s.len() && s[i].0 == k {
        choose|i: int| 0 <= i < s.len() && s[i].0 == k
    } else {
        -1
    }
}

pub open spec fn has_key<K, V>(s: Seq<(K, V)>, k: K) -> bool {
    exists|i: int| 0 <= i < s.len() && s[i].0 == k
}

pub open spec fn unique_keys<K, V>(s: Seq<(K, V)>) -> bool {
    forall|i: int, j: int| 0 <= i < j < s.len() ==> s[i].0 != s[j].0
}

/// The value held for `k`, if any.
pub open spec fn lru_get<K, V>(s: Seq<(K, V)>, k: K) -> Option<V> {
    let i = key_pos(s, k);
    if i >= 0 {
        Some(s[i].1)
    } else {
        None
    }
}

/// A lookup of `k` makes it the most recently used entry.
pub open spec fn lru_touch<K, V>(s: Seq<(K, V)>, k: K) -> Seq<(K, V)> {
    let i = key_pos(s, k);
    if i >= 0 {
        s.remove(i).push(s[i])
    } else {
        s
    }
}

/// Inserting `k`: an existing entry takes the new value and becomes the most recent;
/// a new key is appended, after the least recently used entry has been evicted
/// when the cache is full.
pub open spec fn lru_put<K, V>(s: Seq<(K, V)>, k: K, v: V, cap: nat) -> Seq<(K, V)> {
    let i = key_pos(s, k);
    if i >= 0 {
        s.remove(i).push((k, v))
    } else if cap == 0 {
        s
    } else if s.len() == cap {
        s.drop_first().push((k, v))
    } else {
        s.push((k, v))
    }
}

pub type FontCache = LruCache<FontIdentity, FontCollectionEntry>;

pub type ShapeCache = LruCache<ShapeKey, Vec<GlyphRun>>;

pub uninterp spec fn font_entries(c: FontCache) -> Seq<((Seq<char>, u32, u16, bool, bool), (Seq<u64>, bool))>;

pub uninterp spec fn font_capacity(c: FontCache) -> nat;

pub uninterp spec fn shape_entries(c: ShapeCache) -> Seq<((Seq<char>, (Seq<char>, u32, u16, bool, bool)), Seq<GlyphRun>)>;

pub uninterp spec fn shape_capacity(c: ShapeCache) -> nat;

/// Relies on lru::LruCache::new: an empty cache that holds at most `cap` entries.
#[verifier::external_body]
pub(crate) fn font_cache_new(cap: usize) -> (r: FontCache)
    ensures
        font_entries(r) == Seq::<((Seq<char>, u32, u16, bool, bool), (Seq<u64>, bool))>::empty(),
        font_capacity(r) == cap,
{
    LruCache::new(cap)
}

/// Relies on lru::LruCache::get: the value held for the key, which becomes the most
/// recently used; the returned value is a clone of it.
#[verifier::external_body]
pub(crate) fn font_cache_get(c: &mut FontCache, k: &FontIdentity) -> (r: Option<FontCollectionEntry>)
    ensures
        r is Some == lru_get(font_entries(*old(c)), k@) is Some,
        r is Some ==> lru_get(font_entries(*old(c)), k@) == Some(r->Some_0@),
        font_entries(*final(c)) == lru_touch(font_entries(*old(c)), k@),
        font_capacity(*final(c)) == font_capacity(*old(c)),
{
    c.get(k).cloned()
}

/// Relies on lru::LruCache::put: inserts or replaces, evicting the least recently used
/// entry when a new key meets a full cache.
#[verifier::external_body]
pub(crate) fn font_cache_put(c: &mut FontCache, k: FontIdentity, v: FontCollectionEntry)
    ensures
        font_entries(*final(c)) == lru_put(font_entries(*old(c)), k@, v@, font_capacity(*old(c))),
        font_capacity(*final(c)) == font_capacity(*old(c)),
{
    c.put(k, v);
}

/// Relies on lru::LruCache::clear: removes every entry.
#[verifier::external_body]
pub(crate) fn font_cache_clear(c: &mut FontCache)
    ensures
        font_entries(*final(c)) == Seq::<((Seq<char>, u32, u16, bool, bool), (Seq<u64>, bool))>::empty(),
        font_capacity(*final(c)) == font_capacity(*old(c)),
{
    c.clear();
}

/// Relies on lru::LruCache::new: an empty cache that holds at most `cap` entries.
#[verifier::external_body]
pub(crate) fn shape_cache_new(cap: usize) -> (r: ShapeCache)
    ensures
        shape_entries(r) == Seq::<((Seq<char>, (Seq<char>, u32, u16, bool, bool)), Seq<GlyphRun>)>::empty(),
        shape_capacity(r) == cap,
{
    LruCache::new(cap)
}

/// Relies on lru::LruCache::get: the value held for the key, which becomes the most
/// recently used; the returned value is a clone of it.
#[verifier::external_body]
pub(crate) fn shape_cache_get(c: &mut ShapeCache, k: &ShapeKey) -> (r: Option<Vec<GlyphRun>>)
    ensures
        r is Some == lru_get(shape_entries(*old(c)), k@) is Some,
        r is Some ==> lru_get(shape_entries(*old(c)), k@) == Some(r->Some_0@),
        shape_entries(*final(c)) == lru_touch(shape_entries(*old(c)), k@),
        shape_capacity(*final(c)) == shape_capacity(*old(c)),
{
    c.get(k).cloned()
}

/// Relies on lru::LruCache::put: inserts or replaces, evicting the least recently used
/// entry when a new key meets a full cache.
#[verifier::external_body]
pub(crate) fn shape_cache_put(c: &mut ShapeCache, k: ShapeKey, v: Vec<GlyphRun>)
    ensures
        shape_entries(*final(c)) == lru_put(shape_entries(*old(c)), k@, v@, shape_capacity(*old(c))),
        shape_capacity(*final(c)) == shape_capacity(*old(c)),
{
    c.put(k, v);
}

/// Relies on lru::LruCache::clear: removes every entry.
#[verifier::external_body]
pub(crate) fn shape_cache_clear(c: &mut ShapeCache)
    ensures
        shape_entries(*final(c)) == Seq::<((Seq<char>, (Seq<char>, u32, u16, bool, bool)), Seq<GlyphRun>)>::empty(),
        shape_capacity(*final(c)) == shape_capacity(*old(c)),
{
    c.clear();
}

} // verus!
