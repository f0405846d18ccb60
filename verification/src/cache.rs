//! Bounded least-recently-used caches. The texture cache and the in-flight
//! table both hold their entries in an `lru::LruCache` keyed by a packed
//! tile address; the crate states the cache's behaviour over a ghost
//! sequence of its entries in recency order, newest first.

use crate::tile::TilePos;
use lru::LruCache;
use std::collections::hash_map::RandomState;
use vstd::prelude::*;

verus! {

#[verifier::external_type_specification]
#[verifier::external_body]
#[verifier::reject_recursive_types(K)]
#[verifier::reject_recursive_types(V)]
#[verifier::reject_recursive_types(S)]
pub struct ExLruCache<K, V, S>(LruCache<K, V, S>);

/// The entries an `lru::LruCache` holds, most recently used first.
pub uninterp spec fn lru_entries(c: LruCache<u64, u64, RandomState>) -> Seq<(u64, u64)>;

/// The capacity an `lru::LruCache` was created with.
pub uninterp spec fn lru_capacity(c: LruCache<u64, u64, RandomState>) -> nat;

/// Some entry of `s` carries key `k`.
pub open spec fn lru_has_key(s: Seq<(u64, u64)>, k: u64) -> bool {
    exists|i: int| 0 <= i < s.len() && s[i].0 == k
}

/// The position of the entry carrying key `k` (the single one, whenever
/// keys are distinct).
pub open spec fn lru_key_index(s: Seq<(u64, u64)>, k: u64) -> int {
    choose|i: int| 0 <= i < s.len() && s[i].0 == k
}

/// The value stored under key `k`.
pub open spec fn lru_value_of(s: Seq<(u64, u64)>, k: u64) -> u64 {
    s[lru_key_index(s, k)].1
}

/// The entries after a put of (k, v) into a cache of capacity `cap`:
/// the new pair moves to the front; an entry already keyed `k` leaves its
/// old place, and with the cache at capacity the least recent entry is
/// evicted instead.
pub open spec fn lru_after_push(s: Seq<(u64, u64)>, cap: nat, k: u64, v: u64) -> Seq<(u64, u64)> {
    if lru_has_key(s, k) {
        seq![(k, v)] + s.remove(lru_key_index(s, k))
    } else if s.len() >= cap {
        seq![(k, v)] + s.drop_last()
    } else {
        seq![(k, v)] + s
    }
}

/// What a put returns: the displaced pair, if any — the old entry under
/// the same key, or the evicted least recent entry when the cache was at
/// capacity.
pub open spec fn lru_push_result(s: Seq<(u64, u64)>, cap: nat, k: u64, v: u64) -> Option<
    (u64, u64),
> {
    if lru_has_key(s, k) {
        Some((k, lru_value_of(s, k)))
    } else if s.len() >= cap {
        Some(s.last())
    } else {
        None
    }
}

/// The entries after a lookup of `k`: a hit moves the entry to the front,
/// a miss changes nothing.
pub open spec fn lru_after_get(s: Seq<(u64, u64)>, k: u64) -> Seq<(u64, u64)> {
    if lru_has_key(s, k) {
        seq![(k, lru_value_of(s, k))] + s.remove(lru_key_index(s, k))
    } else {
        s
    }
}

/// Relies on lru::LruCache::with_hasher: a fresh cache of the given
/// capacity holds nothing.
#[verifier::external_body]
pub(crate) fn lru_new(cap: usize) -> (r: LruCache<u64, u64, RandomState>)
    requires
        cap >= 1,
    ensures
        lru_entries(r) == Seq::<(u64, u64)>::empty(),
        lru_capacity(r) == cap,
{
    LruCache::with_hasher(std::num::NonZeroUsize::new(cap).unwrap(), RandomState::new())
}

/// Relies on lru::LruCache::push: inserts the pair as most recent; if the
/// key was present its entry is replaced and returned, else if the cache
/// is full the least recently used entry is evicted and returned.
#[verifier::external_body]
pub(crate) fn lru_push(c: &mut LruCache<u64, u64, RandomState>, k: u64, v: u64) -> (r: Option<(u64, u64)>)
    ensures
        lru_capacity(*final(c)) == lru_capacity(*old(c)),
        lru_entries(*final(c)) == lru_after_push(
            lru_entries(*old(c)),
            lru_capacity(*old(c)),
            k,
            v,
        ),
        r == lru_push_result(lru_entries(*old(c)), lru_capacity(*old(c)), k, v),
{
    c.push(k, v)
}

/// Relies on lru::LruCache::get: returns the value under the key and
/// marks its entry most recently used; a miss changes nothing.
#[verifier::external_body]
pub(crate) fn lru_get(c: &mut LruCache<u64, u64, RandomState>, k: u64) -> (r: Option<u64>)
    ensures
        lru_capacity(*final(c)) == lru_capacity(*old(c)),
        lru_entries(*final(c)) == lru_after_get(lru_entries(*old(c)), k),
        r == if lru_has_key(lru_entries(*old(c)), k) {
            Some(lru_value_of(lru_entries(*old(c)), k))
        } else {
            None::<u64>
        },
{
    c.get(&k).copied()
}

/// Relies on lru::LruCache::len: the number of entries held.
#[verifier::external_body]
pub(crate) fn lru_len(c: &LruCache<u64, u64, RandomState>) -> (r: usize)
    ensures
        r == lru_entries(*c).len(),
{
    c.len()
}

/// A tile address packed into one cache key: zoom and source in the high
/// bits, then the column, then the row, each field in its own range.
pub open spec fn spec_tile_key(t: TilePos) -> int {
    ((t.z * 256 + t.m) * 0x100000 + t.x) * 0x100000 + t.y
}

/// The packed key as the cache stores it.
pub open spec fn tile_key64(t: TilePos) -> u64 {
    spec_tile_key(t) as u64
}

/// Pack a tile address into its cache key.
pub fn tile_key(t: &TilePos) -> (k: u64)
    requires
        t.wf(),
    ensures
        k == tile_key64(*t),
        k as int == spec_tile_key(*t),
{
    proof {
        lemma_tile_fields_small(*t);
    }
    ((t.z as u64 * 256 + t.m as u64) * 0x100000 + t.x as u64) * 0x100000 + t.y as u64
}

/// The coordinate fields of a valid address fit their key slots.
proof fn lemma_tile_fields_small(t: TilePos)
    requires
        t.wf(),
    ensures
        t.x < 0x100000,
        t.y < 0x100000,
{
    vstd::arithmetic::power2::lemma2_to64();
    if (t.z as nat) < 19 {
        vstd::arithmetic::power2::lemma_pow2_strictly_increases(t.z as nat, 19);
    }
}

/// Packing is injective on valid addresses: equal keys mean the same
/// address, so distinct addresses never collide in a cache.
pub proof fn lemma_tile_key_injective(a: TilePos, b: TilePos)
    requires
        a.wf(),
        b.wf(),
        spec_tile_key(a) == spec_tile_key(b),
    ensures
        a == b,
{
    lemma_tile_fields_small(a);
    lemma_tile_fields_small(b);
    let qa = (a.z * 256 + a.m) * 0x100000 + a.x;
    let qb = (b.z * 256 + b.m) * 0x100000 + b.x;
    vstd::arithmetic::div_mod::lemma_fundamental_div_mod_converse(
        spec_tile_key(a),
        0x100000,
        qa,
        a.y as int,
    );
    vstd::arithmetic::div_mod::lemma_fundamental_div_mod_converse(
        spec_tile_key(b),
        0x100000,
        qb,
        b.y as int,
    );
    vstd::arithmetic::div_mod::lemma_fundamental_div_mod_converse(
        qa,
        0x100000,
        a.z * 256 + a.m,
        a.x as int,
    );
    vstd::arithmetic::div_mod::lemma_fundamental_div_mod_converse(
        qb,
        0x100000,
        b.z * 256 + b.m,
        b.x as int,
    );
    vstd::arithmetic::div_mod::lemma_fundamental_div_mod_converse(
        a.z * 256 + a.m,
        256,
        a.z as int,
        a.m as int,
    );
    vstd::arithmetic::div_mod::lemma_fundamental_div_mod_converse(
        b.z * 256 + b.m,
        256,
        b.z as int,
        b.m as int,
    );
}

/// The packed key of a valid address fits the cache's word.
pub proof fn lemma_tile_key_in_range(t: TilePos)
    requires
        t.wf(),
    ensures
        0 <= spec_tile_key(t) < 0x1_0000_0000_0000_0000,
        tile_key64(t) == spec_tile_key(t),
{
    lemma_tile_fields_small(t);
}

/// Packing stays injective after the cast to the stored key word, so two
/// distinct valid addresses always occupy distinct cache entries.
pub proof fn lemma_tile_key64_injective(a: TilePos, b: TilePos)
    requires
        a.wf(),
        b.wf(),
        tile_key64(a) == tile_key64(b),
    ensures
        a == b,
{
    lemma_tile_key_in_range(a);
    lemma_tile_key_in_range(b);
    lemma_tile_key_injective(a, b);
}

/// No two entries share a key.
pub open spec fn lru_keys_distinct(s: Seq<(u64, u64)>) -> bool {
    forall|i: int, j: int|
        0 <= i < s.len() && 0 <= j < s.len() && i != j ==> (#[trigger] s[i]).0 != (
        #[trigger] s[j]).0
}

/// A put keeps keys distinct and the length within capacity, and the new
/// front entry is the pair just inserted; the length grows only on a
/// fresh key into a cache below capacity.
pub proof fn lemma_lru_push_wf(s: Seq<(u64, u64)>, cap: nat, k: u64, v: u64)
    requires
        lru_keys_distinct(s),
        s.len() <= cap,
        cap >= 1,
    ensures
        ({
            let t = lru_after_push(s, cap, k, v);
            &&& lru_keys_distinct(t)
            &&& t.len() <= cap
            &&& t.len() == if lru_has_key(s, k) {
                s.len() as int
            } else if s.len() >= cap {
                cap as int
            } else {
                s.len() + 1int
            }
            &&& t[0] == (k, v)
            &&& lru_has_key(t, k)
        }),
{
    let t = lru_after_push(s, cap, k, v);
    if lru_has_key(s, k) {
        let i = lru_key_index(s, k);
        assert(forall|j: int| 0 <= j < s.len() && j != i ==> (#[trigger] s[j]).0 != k);
        assert(forall|j: int| 0 <= j < t.len() && j != 0 ==> (#[trigger] t[j]).0 != k);
    } else if s.len() >= cap {
        assert(forall|j: int| 0 <= j < s.len() ==> (#[trigger] s[j]).0 != k);
    } else {
        assert(forall|j: int| 0 <= j < s.len() ==> (#[trigger] s[j]).0 != k);
    }
    assert(t[0] == (k, v));
}

/// A lookup keeps keys distinct, the length, and the set of keys; on a
/// hit the entry moves to the front unchanged.
pub proof fn lemma_lru_get_wf(s: Seq<(u64, u64)>, k: u64)
    requires
        lru_keys_distinct(s),
    ensures
        ({
            let t = lru_after_get(s, k);
            &&& lru_keys_distinct(t)
            &&& t.len() == s.len()
            &&& forall|q: u64| lru_has_key(t, q) == lru_has_key(s, q)
            &&& lru_has_key(s, k) ==> t[0] == (k, lru_value_of(s, k))
            &&& lru_has_key(s, k) ==> lru_value_of(t, k) == lru_value_of(s, k)
        }),
{
    let t = lru_after_get(s, k);
    if lru_has_key(s, k) {
        let i = lru_key_index(s, k);
        assert(forall|j: int| 0 <= j < s.len() && j != i ==> (#[trigger] s[j]).0 != k);
        assert(forall|j: int| 0 <= j < t.len() && j != 0 ==> (#[trigger] t[j]).0 != k);
        assert(t[0] == (k, lru_value_of(s, k)));
        assert(lru_value_of(t, k) == t[lru_key_index(t, k)].1);
        assert forall|q: u64| lru_has_key(t, q) == lru_has_key(s, q) by {
            if lru_has_key(s, q) {
                let iq = lru_key_index(s, q);
                if iq == i {
                    assert(t[0].0 == q);
                } else if iq < i {
                    assert(t[iq + 1] == s[iq]);
                } else {
                    assert(t[iq] == s[iq]);
                }
            }
            if lru_has_key(t, q) {
                let iq = lru_key_index(t, q);
                if iq == 0 {
                    assert(s[i].0 == q);
                } else if iq <= i {
                    assert(s[iq - 1] == t[iq]);
                } else {
                    assert(s[iq] == t[iq]);
                }
            }
        };
    }
}

/// The cache contents and the evicted entries after pushing every pair of
/// `items`, in order, into a cache of capacity `cap` that starts empty.
pub open spec fn lru_fill(cap: nat, items: Seq<(u64, u64)>) -> (Seq<(u64, u64)>, Seq<(u64, u64)>)
    decreases items.len(),
{
    if items.len() == 0 {
        (Seq::<(u64, u64)>::empty(), Seq::<(u64, u64)>::empty())
    } else {
        let prev = lru_fill(cap, items.drop_last());
        let it = items.last();
        (
            lru_after_push(prev.0, cap, it.0, it.1),
            match lru_push_result(prev.0, cap, it.0, it.1) {
                Some(out) => prev.1.push(out),
                None => prev.1,
            },
        )
    }
}

/// The LRU bound with eviction accounting: pushing distinct fresh
/// addresses into an empty cache leaves exactly the capacity's worth of
/// entries — the most recent insertions, newest first — and evicts
/// exactly the insertions beyond the capacity, oldest first, each handed
/// back once. Every inserted handle is thus either still cached or was
/// returned for release exactly once.
pub proof fn lemma_lru_fill_accounting(cap: nat, items: Seq<(u64, u64)>)
    requires
        cap >= 1,
        forall|i: int, j: int|
            0 <= i < items.len() && 0 <= j < items.len() && i != j ==> (#[trigger] items[i]).0
                != (#[trigger] items[j]).0,
    ensures
        ({
            let kept = if items.len() <= cap {
                items.len() as int
            } else {
                cap as int
            };
            &&& lru_fill(cap, items).0 =~= items.subrange(
                items.len() - kept,
                items.len() as int,
            ).reverse()
            &&& lru_fill(cap, items).1 =~= items.subrange(0, items.len() - kept)
            &&& lru_fill(cap, items).1 + lru_fill(cap, items).0.reverse() =~= items
        }),
    decreases items.len(),
{
    let n = items.len() as int;
    let kept = if n <= cap { n } else { cap as int };
    if n > 0 {
        let prefix = items.drop_last();
        lemma_lru_fill_accounting(cap, prefix);
        let prev = lru_fill(cap, items.drop_last());
        let it = items.last();
        let kept0 = if n - 1 <= cap {
            n - 1
        } else {
            cap as int
        };
        assert(prev.0.len() == kept0);
        // The key just inserted is fresh: it is none of the cached ones.
        assert forall|j: int| 0 <= j < prev.0.len() implies (#[trigger] prev.0[j]).0 != it.0 by {
            assert(prev.0[j] == prefix.subrange(n - 1 - kept0, n - 1).reverse()[j]);
            assert(prev.0[j] == items[n - 2 - j]);
        };
        assert(!lru_has_key(prev.0, it.0));
        if n - 1 < cap {
            assert(lru_fill(cap, items).0 =~= items.subrange(n - kept, n).reverse());
            assert(lru_fill(cap, items).1 =~= items.subrange(0, n - kept));
        } else {
            assert(prev.0.last() == items[n - 1 - cap]);
            assert(lru_fill(cap, items).0 =~= items.subrange(n - kept, n).reverse());
            assert(lru_fill(cap, items).1 =~= items.subrange(0, n - kept));
        }
        assert(lru_fill(cap, items).1 + lru_fill(cap, items).0.reverse() =~= items);
    }
}

/// The bounded LRU of decoded tiles: a tile address mapped to the live
/// renderer-owned texture handle standing for it. Eviction hands the
/// displaced handle back to the caller, which must release it; a handle
/// still in the cache is never handed back, so cached handles stay valid.
pub struct TextureCache {
    inner: LruCache<u64, u64, RandomState>,
}

impl TextureCache {
    /// The cached (key, handle) pairs, most recently used first.
    pub closed spec fn entries(self) -> Seq<(u64, u64)> {
        lru_entries(self.inner)
    }

    /// The fixed bound on how many entries the cache holds.
    pub closed spec fn capacity(self) -> nat {
        lru_capacity(self.inner)
    }

    /// Within bounds and one entry per key.
    pub open spec fn wf(self) -> bool {
        &&& lru_keys_distinct(self.entries())
        &&& self.entries().len() <= self.capacity()
        &&& self.capacity() >= 1
    }

    /// An empty cache that will hold at most `cap` textures.
    pub fn new(cap: usize) -> (r: Self)
        requires
            cap >= 1,
        ensures
            r.wf(),
            r.entries() == Seq::<(u64, u64)>::empty(),
            r.capacity() == cap,
    {
        TextureCache { inner: lru_new(cap) }
    }

    /// The number of textures held.
    pub fn len(&self) -> (n: usize)
        ensures
            n == self.entries().len(),
    {
        lru_len(&self.inner)
    }

    /// Look the address up; a hit returns its handle and marks the entry
    /// most recently used.
    pub fn probe(&mut self, t: &TilePos) -> (r: Option<u64>)
        requires
            old(self).wf(),
            t.wf(),
        ensures
            final(self).wf(),
            final(self).capacity() == old(self).capacity(),
            final(self).entries() == lru_after_get(old(self).entries(), tile_key64(*t)),
            r == if lru_has_key(old(self).entries(), tile_key64(*t)) {
                Some(lru_value_of(old(self).entries(), tile_key64(*t)))
            } else {
                None::<u64>
            },
    {
        let k = tile_key(t);
        proof {
            lemma_lru_get_wf(lru_entries(self.inner), k);
        }
        lru_get(&mut self.inner, k)
    }

    /// Store the handle under the address as the most recent entry. The
    /// displaced pair, if any, is returned: the old handle of the same
    /// address, or the least recently used entry when the cache was full.
    /// The caller owns the returned handle and must release it.
    pub fn insert(&mut self, t: &TilePos, handle: u64) -> (displaced: Option<(u64, u64)>)
        requires
            old(self).wf(),
            t.wf(),
        ensures
            final(self).wf(),
            final(self).capacity() == old(self).capacity(),
            final(self).entries() == lru_after_push(
                old(self).entries(),
                old(self).capacity(),
                tile_key64(*t),
                handle,
            ),
            displaced == lru_push_result(
                old(self).entries(),
                old(self).capacity(),
                tile_key64(*t),
                handle,
            ),
            final(self).entries()[0] == (tile_key64(*t), handle),
            final(self).entries().len() <= old(self).capacity(),
    {
        let k = tile_key(t);
        proof {
            lemma_lru_push_wf(lru_entries(self.inner), lru_capacity(self.inner), k, handle);
        }
        lru_push(&mut self.inner, k, handle)
    }
}

} // verus!
