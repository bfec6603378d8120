use vstd::prelude::*;
use crate::identity::{FontCollectionEntry, FontIdentity, FontLoadError, FontRole, ShapeKey};
use crate::lru_cache::{
    font_cache_clear, font_cache_get, font_cache_new, font_cache_put, font_capacity, font_entries,
    has_key, key_pos, lru_get, lru_put, lru_touch, shape_cache_clear, shape_cache_get, shape_cache_new, shape_cache_put,
    shape_capacity, shape_entries, unique_keys, FontCache, ShapeCache,
};
use crate::metrics::{advances_of, base_cell_dimensions, is_mode, InsufficientGlyphsError};
use crate::segment::{segment_runs, segmented, GlyphRun, PositionedGlyph};

verus! {

/// How many font collections are kept.
pub const FONT_CACHE_CAPACITY: usize = 100;

/// How many shaping results are kept.
pub const SHAPE_CACHE_CAPACITY: usize = 10000;

/// Key of a font collection in the font cache.
pub type FontKeyView = (Seq<char>, u32, u16, bool, bool);

/// Key of a shaping result in the shape cache: the text and the font identity.
pub type ShapeKeyView = (Seq<char>, FontKeyView);

/// The families of a collection: the fallback family first where there is one, then
/// the requested family.
pub open spec fn collection_families(fallback: Option<u64>, primary: u64) -> Seq<u64> {
    match fallback {
        Some(f) => seq![f, primary],
        None => seq![primary],
    }
}

/// Owns the font cache and the shape cache of one renderer.
pub struct CachingShaper {
    font_cache: FontCache,
    blob_cache: ShapeCache,
}

impl CachingShaper {
    /// The font cache's entries, least recently used first.
    pub closed spec fn fonts(&self) -> Seq<(FontKeyView, (Seq<u64>, bool))> {
        font_entries(self.font_cache)
    }

    /// The shape cache's entries, least recently used first.
    pub closed spec fn shapes(&self) -> Seq<(ShapeKeyView, Seq<GlyphRun>)> {
        shape_entries(self.blob_cache)
    }

    /// Both caches hold distinct keys, within their capacities.
    pub closed spec fn wf(&self) -> bool {
        &&& font_capacity(self.font_cache) == FONT_CACHE_CAPACITY
        &&& shape_capacity(self.blob_cache) == SHAPE_CACHE_CAPACITY
        &&& unique_keys(self.fonts())
        &&& unique_keys(self.shapes())
        &&& self.fonts().len() <= FONT_CACHE_CAPACITY
        &&& self.shapes().len() <= SHAPE_CACHE_CAPACITY
    }

    pub fn new() -> (r: CachingShaper)
        ensures
            r.wf(),
            r.fonts().len() == 0,
            r.shapes().len() == 0,
    {
        CachingShaper {
            font_cache: font_cache_new(FONT_CACHE_CAPACITY),
            blob_cache: shape_cache_new(SHAPE_CACHE_CAPACITY),
        }
    }

    /// Looks a font identity up in the font cache; a hit becomes the most recently used.
    /// `None` means the collection must be loaded and handed to `resolve_loaded`.
    pub fn resolve_cached(&mut self, identity: &FontIdentity) -> (r: Option<FontCollectionEntry>)
        requires
            old(self).wf(),
        ensures
            final(self).wf(),
            r is Some == lru_get(old(self).fonts(), identity@) is Some,
            r is Some ==> lru_get(old(self).fonts(), identity@) == Some(r->Some_0@),
            final(self).fonts() == lru_touch(old(self).fonts(), identity@),
            final(self).shapes() == old(self).shapes(),
    {
        let r = font_cache_get(&mut self.font_cache, identity);
        proof {
            lemma_touch_keeps_wf(old(self).fonts(), identity@);
        }
        r
    }

    /// Builds the collection of `identity` from the loaded families and caches it.
    /// A missing primary family fails the request; a missing fallback family only
    /// leaves the collection without one.
    pub fn resolve_loaded(&mut self, identity: &FontIdentity, fallback: Option<u64>, primary: Option<u64>) -> (r: Result<FontCollectionEntry, FontLoadError>)
        requires
            old(self).wf(),
        ensures
            final(self).wf(),
            final(self).shapes() == old(self).shapes(),
            match primary {
                None => {
                    &&& r is Err
                    &&& r->Err_0.family@ == identity.name@
                    &&& r->Err_0.role == FontRole::Primary
                    &&& final(self).fonts() == old(self).fonts()
                },
                Some(p) => {
                    &&& r is Ok
                    &&& r->Ok_0.families@ == collection_families(fallback, p)
                    &&& r->Ok_0.has_fallback == fallback is Some
                    &&& final(self).fonts() == lru_put(old(self).fonts(), identity@, r->Ok_0@, FONT_CACHE_CAPACITY as nat)
                },
            },
    {
        match primary {
            None => Err(FontLoadError { family: identity.name.clone(), role: FontRole::Primary }),
            Some(p) => {
                let mut families: Vec<u64> = Vec::new();
                let has_fallback = match fallback {
                    Some(f) => {
                        families.push(f);
                        true
                    },
                    None => false,
                };
                families.push(p);
                let entry = FontCollectionEntry { families, has_fallback };
                assert(entry.families@ == collection_families(fallback, p));
                let returned = FontCollectionEntry { families: entry.families.clone(), has_fallback };
                let ghost v = entry@;
                font_cache_put(&mut self.font_cache, identity.duplicate(), entry);
                proof {
                    lemma_put_keeps_wf(old(self).fonts(), identity@, v, FONT_CACHE_CAPACITY as nat);
                }
                Ok(returned)
            },
        }
    }

    /// Splits a laid-out glyph sequence into same-font runs with their drawable batches.
    pub fn shape(glyphs: &Vec<PositionedGlyph>, base_size_q: u32) -> (r: Vec<GlyphRun>)
        requires
            forall|i: int| 0 <= i < glyphs@.len() ==> #[trigger] glyphs@[i].units_per_em > 0,
        ensures
            segmented(r@, glyphs@, base_size_q),
            glyphs@.len() == 0 ==> r@.len() == 0,
    {
        segment_runs(glyphs, base_size_q)
    }

    /// Looks `(text, identity)` up in the shape cache; a hit becomes the most recently
    /// used. `None` means the text must be shaped and handed to `store_shape`.
    pub fn shape_cached(&mut self, text: &str, identity: &FontIdentity) -> (r: Option<Vec<GlyphRun>>)
        requires
            old(self).wf(),
        ensures
            final(self).wf(),
            r is Some == lru_get(old(self).shapes(), (text@, identity@)) is Some,
            r is Some ==> lru_get(old(self).shapes(), (text@, identity@)) == Some(r->Some_0@),
            final(self).shapes() == lru_touch(old(self).shapes(), (text@, identity@)),
            final(self).fonts() == old(self).fonts(),
    {
        let key = ShapeKey { text: text.to_owned(), font_key: identity.duplicate() };
        let r = shape_cache_get(&mut self.blob_cache, &key);
        proof {
            lemma_touch_keeps_wf(old(self).shapes(), (text@, identity@));
        }
        r
    }

    /// Caches the shaping result of `(text, identity)`.
    pub fn store_shape(&mut self, text: &str, identity: &FontIdentity, runs: Vec<GlyphRun>)
        requires
            old(self).wf(),
        ensures
            final(self).wf(),
            final(self).shapes() == lru_put(old(self).shapes(), (text@, identity@), runs@, SHAPE_CACHE_CAPACITY as nat),
            final(self).fonts() == old(self).fonts(),
    {
        let key = ShapeKey { text: text.to_owned(), font_key: identity.duplicate() };
        let ghost v = runs@;
        shape_cache_put(&mut self.blob_cache, key, runs);
        proof {
            lemma_put_keeps_wf(old(self).shapes(), (text@, identity@), v, SHAPE_CACHE_CAPACITY as nat);
        }
    }

    /// Cell width and height of a font at scale 1, from its ascent and descent and the
    /// offsets of the glyphs of the shaped reference string.
    pub fn font_base_dimensions(ascent: i32, descent: i32, offsets: &Vec<i32>) -> (r: Result<(i64, i64), InsufficientGlyphsError>)
        ensures
            r is Err <==> offsets@.len() < 2,
            r is Ok ==> is_mode(advances_of(offsets@), r->Ok_0.0),
            r is Ok ==> r->Ok_0.1 == descent - ascent,
    {
        base_cell_dimensions(ascent, descent, offsets)
    }

    /// Empties both caches.
    pub fn clear(&mut self)
        requires
            old(self).wf(),
        ensures
            final(self).wf(),
            final(self).fonts().len() == 0,
            final(self).shapes().len() == 0,
    {
        font_cache_clear(&mut self.font_cache);
        shape_cache_clear(&mut self.blob_cache);
    }
}

/// Removing one entry and appending an entry with a key that is not left keeps the
/// keys distinct.
proof fn lemma_remove_push_unique<K, V>(s: Seq<(K, V)>, i: int, e: (K, V))
    requires
        unique_keys(s),
        0 <= i < s.len(),
        e.0 == s[i].0,
    ensures
        unique_keys(s.remove(i).push(e)),
{
    let t = s.remove(i).push(e);
    assert forall|a: int, b: int| 0 <= a < b < t.len() implies t[a].0 != t[b].0 by {
        let sa = if a < i { a } else { a + 1 };
        if b == t.len() - 1 {
            assert(t[a] == s[sa]);
        } else {
            let sb = if b < i { b } else { b + 1 };
            assert(t[a] == s[sa]);
            assert(t[b] == s[sb]);
        }
    }
}

proof fn lemma_touch_keeps_wf<K, V>(s: Seq<(K, V)>, k: K)
    requires
        unique_keys(s),
    ensures
        unique_keys(lru_touch(s, k)),
        lru_touch(s, k).len() == s.len(),
{
    let i = key_pos(s, k);
    if i >= 0 {
        lemma_remove_push_unique(s, i, s[i]);
    }
}

proof fn lemma_put_keeps_wf<K, V>(s: Seq<(K, V)>, k: K, v: V, cap: nat)
    requires
        unique_keys(s),
        s.len() <= cap,
    ensures
        unique_keys(lru_put(s, k, v, cap)),
        lru_put(s, k, v, cap).len() <= cap,
{
    let i = key_pos(s, k);
    if i >= 0 {
        assert(s[i].0 == k);
        lemma_remove_push_unique(s, i, (k, v));
    } else if cap == 0 {
    } else {
        let base = if s.len() == cap { s.drop_first() } else { s };
        let t = base.push((k, v));
        assert forall|a: int, b: int| 0 <= a < b < t.len() implies t[a].0 != t[b].0 by {
            let off: int = if s.len() == cap { 1 } else { 0 };
            assert(t[a] == s[a + off]);
            if b == t.len() - 1 {
                assert(!(exists|j: int| 0 <= j < s.len() && s[j].0 == k));
                assert(s[a + off].0 != k);
            } else {
                assert(t[b] == s[b + off]);
            }
        }
    }
}

/// In a cache with distinct keys, the lookup finds the entry whose key is last.
proof fn lemma_get_last<K, V>(s: Seq<(K, V)>, k: K)
    requires
        unique_keys(s),
        s.len() > 0,
        s.last().0 == k,
    ensures
        key_pos(s, k) == s.len() - 1,
        lru_get(s, k) == Some(s.last().1),
{
    assert(s[s.len() - 1].0 == k);
    let i = key_pos(s, k);
    assert(0 <= i < s.len() && s[i].0 == k);
    if i != s.len() - 1 {
        assert(s[i].0 != s[s.len() - 1].0);
    }
}

/// After a result is stored for a key, looking that key up hits and returns it.
pub proof fn lemma_store_then_hit<K, V>(s: Seq<(K, V)>, k: K, v: V, cap: nat)
    requires
        unique_keys(s),
        s.len() <= cap,
        cap > 0,
    ensures
        lru_get(lru_put(s, k, v, cap), k) == Some(v),
{
    lemma_put_keeps_wf(s, k, v, cap);
    lemma_get_last(lru_put(s, k, v, cap), k);
}

/// Two lookups of one key in a row give the same answer: a hit stays a hit with the
/// same value, and a miss stays a miss.
pub proof fn lemma_lookup_twice<K, V>(s: Seq<(K, V)>, k: K)
    requires
        unique_keys(s),
    ensures
        lru_get(lru_touch(s, k), k) == lru_get(s, k),
{
    let i = key_pos(s, k);
    if i >= 0 {
        lemma_touch_keeps_wf(s, k);
        lemma_get_last(lru_touch(s, k), k);
    } else {
        let t = lru_touch(s, k);
        assert(t == s);
    }
}

/// Storing a new key into a full cache evicts exactly the least recently used entry:
/// every other key stays, in order, and the new one becomes the most recent.
pub proof fn lemma_full_put_evicts_oldest<K, V>(s: Seq<(K, V)>, k: K, v: V, cap: nat)
    requires
        unique_keys(s),
        s.len() == cap,
        cap > 0,
        !has_key(s, k),
    ensures
        lru_put(s, k, v, cap) == s.drop_first().push((k, v)),
        !has_key(lru_put(s, k, v, cap), s[0].0),
        forall|j: int| 1 <= j < s.len() ==> has_key(lru_put(s, k, v, cap), #[trigger] s[j].0),
{
    let t = lru_put(s, k, v, cap);
    assert(key_pos(s, k) == -1);
    assert(t == s.drop_first().push((k, v)));
    if has_key(t, s[0].0) {
        let j = choose|j: int| 0 <= j < t.len() && t[j].0 == s[0].0;
        if j == t.len() - 1 {
            assert(s[0].0 == k);
        } else {
            assert(t[j] == s[j + 1]);
        }
    }
    assert forall|j: int| 1 <= j < s.len() implies has_key(t, #[trigger] s[j].0) by {
        assert(t[j - 1] == s[j]);
    }
}

/// A lookup refreshes a key: once looked up, it is the most recently used entry, so
/// filling a full cache with a new key evicts another one.
pub proof fn lemma_lookup_refreshes<K, V>(s: Seq<(K, V)>, k: K, k2: K, v: V, cap: nat)
    requires
        unique_keys(s),
        s.len() == cap,
        cap >= 2,
        has_key(s, k),
        !has_key(s, k2),
    ensures
        lru_touch(s, k).last().0 == k,
        has_key(lru_put(lru_touch(s, k), k2, v, cap), k),
{
    let t = lru_touch(s, k);
    lemma_touch_keeps_wf(s, k);
    let i = key_pos(s, k);
    assert(0 <= i < s.len() && s[i].0 == k);
    assert(t.last().0 == k);
    if has_key(t, k2) {
        let j = choose|j: int| 0 <= j < t.len() && t[j].0 == k2;
        if j == t.len() - 1 {
            assert(k2 == k);
        } else {
            let sj = if j < i { j } else { j + 1 };
            assert(t[j] == s[sj]);
        }
    }
    lemma_full_put_evicts_oldest(t, k2, v, cap);
    assert(has_key(t, t[t.len() - 1].0));
    assert(lru_put(t, k2, v, cap)[t.len() - 2].0 == k);
}

/// Shaping results are served from the cache: once `store_shape` has put the runs of
/// `(text, identity)`, the next `shape_cached` of that pair hits and returns them, and
/// a repeated `shape_cached` returns the same again.
pub proof fn lemma_shape_cache_serves_stored(c: CachingShaper, text: Seq<char>, identity: FontKeyView, runs: Seq<GlyphRun>)
    requires
        c.wf(),
    ensures
        ({
            let stored = lru_put(c.shapes(), (text, identity), runs, SHAPE_CACHE_CAPACITY as nat);
            &&& lru_get(stored, (text, identity)) == Some(runs)
            &&& lru_get(lru_touch(stored, (text, identity)), (text, identity)) == Some(runs)
        }),
{
    let stored = lru_put(c.shapes(), (text, identity), runs, SHAPE_CACHE_CAPACITY as nat);
    lemma_store_then_hit(c.shapes(), (text, identity), runs, SHAPE_CACHE_CAPACITY as nat);
    lemma_put_keeps_wf(c.shapes(), (text, identity), runs, SHAPE_CACHE_CAPACITY as nat);
    lemma_lookup_twice(stored, (text, identity));
}

/// After `clear`, every earlier key misses.
pub proof fn lemma_clear_then_miss(c: CachingShaper, text: Seq<char>, identity: FontKeyView)
    requires
        c.shapes().len() == 0,
        c.fonts().len() == 0,
    ensures
        lru_get(c.shapes(), (text, identity)) is None,
        lru_get(c.fonts(), identity) is None,
{
}

} // verus!
