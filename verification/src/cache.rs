//! The freshness-bounded, capacity-bounded cache in front of the
//! fetch-and-extract pipeline, keyed by site and date with
//! least-recently-used eviction. The store itself is the `lru` crate's
//! cache; its behaviour is captured by the contracts on the wrappers
//! below, and the freshness rules on top of it are verified.
//!
//! The model of the store is its entry sequence in recency order, most
//! recent first: reading an entry moves it to the front, and when a
//! new key arrives at capacity the last entry leaves.

use vstd::prelude::*;
use crate::date::Date;
use crate::menu::Menu;
use crate::canteen::Canteen;

verus! {

/// The cache key: one site on one date.
#[derive(Clone, Copy, PartialEq, Eq, Structural, Hash, Debug)]
pub struct MenuKey {
    pub site: Canteen,
    pub date: Date,
}

/// One cached menu with its creation timestamp in milliseconds. An
/// entry is never mutated in place: a refresh replaces it wholesale.
#[derive(Clone, Debug)]
pub struct CacheEntry {
    pub menu: Menu,
    pub created: u64,
}

#[verifier::external_type_specification]
#[verifier::external_body]
#[verifier::reject_recursive_types(K)]
#[verifier::reject_recursive_types(V)]
#[verifier::reject_recursive_types(S)]
pub struct ExLruCache<K, V, S>(lru::LruCache<K, V, S>);

/// What the store holds, in recency order, most recent first.
pub uninterp spec fn lru_entries(c: lru::LruCache<MenuKey, CacheEntry>) -> Seq<(
    MenuKey,
    CacheEntry,
)>;

/// The capacity the store was created with.
pub uninterp spec fn lru_cap(c: lru::LruCache<MenuKey, CacheEntry>) -> nat;

/// Index of the entry with key `k` in recency order, or `-1`.
pub open spec fn find_key(s: Seq<(MenuKey, CacheEntry)>, k: MenuKey) -> int
    decreases s.len(),
{
    if s.len() == 0 {
        -1
    } else if s[0].0 == k {
        0
    } else {
        let r = find_key(s.skip(1), k);
        if r == -1 {
            -1
        } else {
            r + 1
        }
    }
}

/// The entries with the one at `i` moved to the front.
pub open spec fn move_front(s: Seq<(MenuKey, CacheEntry)>, i: int) -> Seq<(MenuKey, CacheEntry)> {
    seq![s[i]] + s.take(i) + s.skip(i + 1)
}

/// What storing `(k, e)` leaves in the store: an existing entry for
/// `k` is replaced and moved to the front; a new key goes to the
/// front, and at capacity the least-recently-used entry leaves.
pub open spec fn store_spec(
    s: Seq<(MenuKey, CacheEntry)>,
    cap: nat,
    k: MenuKey,
    e: CacheEntry,
) -> Seq<(MenuKey, CacheEntry)> {
    let i = find_key(s, k);
    if i >= 0 {
        seq![(k, e)] + s.take(i) + s.skip(i + 1)
    } else if s.len() < cap {
        seq![(k, e)] + s
    } else {
        seq![(k, e)] + s.take(s.len() - 1)
    }
}

/// Relies on lru::LruCache::new: a fresh cache with the given
/// capacity and no entries.
#[verifier::external_body]
fn lru_new(cap: usize) -> (c: lru::LruCache<MenuKey, CacheEntry>)
    requires
        cap >= 1,
    ensures
        lru_entries(c) == Seq::<(MenuKey, CacheEntry)>::empty(),
        lru_cap(c) == cap,
{
    lru::LruCache::new(std::num::NonZeroUsize::new(cap).unwrap())
}

/// Relies on lru::LruCache::get: returns the value of the key, marking
/// the key most-recently-used; nothing else changes. The returned
/// entry is a copy of the stored one, made by the derived clone.
#[verifier::external_body]
fn lru_get(c: &mut lru::LruCache<MenuKey, CacheEntry>, k: &MenuKey) -> (r: Option<CacheEntry>)
    ensures
        lru_cap(*final(c)) == lru_cap(*old(c)),
        ({
            let s = lru_entries(*old(c));
            let i = find_key(s, *k);
            if i == -1 {
                r is None && lru_entries(*final(c)) == s
            } else {
                r == Some(s[i].1) && lru_entries(*final(c)) == move_front(s, i)
            }
        }),
{
    c.get(k).cloned()
}

/// Relies on lru::LruCache::put: updates the key's value and marks it
/// most-recently-used; a new key at capacity evicts the
/// least-recently-used entry.
#[verifier::external_body]
fn lru_put(c: &mut lru::LruCache<MenuKey, CacheEntry>, k: MenuKey, v: CacheEntry)
    ensures
        lru_cap(*final(c)) == lru_cap(*old(c)),
        lru_entries(*final(c)) == store_spec(
            lru_entries(*old(c)),
            lru_cap(*old(c)),
            k,
            v,
        ),
{
    let _ = c.put(k, v);
}

/// An entry is fresh at `now` while no more than the window has passed
/// since its creation; a timestamp from the future reads as stale.
pub open spec fn entry_fresh(e: CacheEntry, now: u64, window: u64) -> bool {
    e.created <= now && now - e.created <= window
}

/// What a lookup returns: the menu of the key's entry when that entry
/// is fresh, and nothing when the key is absent or its entry is stale.
pub open spec fn lookup_spec(
    s: Seq<(MenuKey, CacheEntry)>,
    window: u64,
    k: MenuKey,
    now: u64,
) -> Option<Menu> {
    let i = find_key(s, k);
    if i == -1 {
        None
    } else if entry_fresh(s[i].1, now, window) {
        Some(s[i].1.menu)
    } else {
        None
    }
}

/// The cache: a bounded least-recently-used store of menus with one
/// freshness window, fixed at construction, shared by all entries.
pub struct MenuCache {
    store: lru::LruCache<MenuKey, CacheEntry>,
    fresh_millis: u64,
}

impl MenuCache {
    /// The stored entries in recency order, most recent first.
    pub closed spec fn entries(self) -> Seq<(MenuKey, CacheEntry)> {
        lru_entries(self.store)
    }

    pub closed spec fn cap(self) -> nat {
        lru_cap(self.store)
    }

    pub closed spec fn fresh_window(self) -> u64 {
        self.fresh_millis
    }

    /// A cache with the default capacity of sixteen entries and a
    /// ten-minute freshness window.
    pub fn new() -> (r: MenuCache)
        ensures
            r.entries() == Seq::<(MenuKey, CacheEntry)>::empty(),
            r.cap() == 16,
            r.fresh_window() == 600000,
    {
        MenuCache { store: lru_new(16), fresh_millis: 600000 }
    }

    /// A cache with the given capacity and freshness window in
    /// milliseconds.
    pub fn with_config(cap: usize, fresh_millis: u64) -> (r: MenuCache)
        requires
            cap >= 1,
        ensures
            r.entries() == Seq::<(MenuKey, CacheEntry)>::empty(),
            r.cap() == cap,
            r.fresh_window() == fresh_millis,
    {
        MenuCache { store: lru_new(cap), fresh_millis }
    }

    /// Serves the cached menu for the key when it is present and
    /// fresh, marking it most-recently-used. A stale entry is not
    /// served and not purged; reading it still marks the key used.
    pub fn lookup(&mut self, site: Canteen, date: Date, now: u64) -> (r: Option<Menu>)
        ensures
            final(self).cap() == old(self).cap(),
            final(self).fresh_window() == old(self).fresh_window(),
            r == lookup_spec(
                old(self).entries(),
                old(self).fresh_window(),
                MenuKey { site, date },
                now,
            ),
            ({
                let s = old(self).entries();
                let i = find_key(s, MenuKey { site, date });
                if i == -1 {
                    final(self).entries() == s
                } else {
                    final(self).entries() == move_front(s, i)
                }
            }),
    {
        let k = MenuKey { site, date };
        match lru_get(&mut self.store, &k) {
            Some(e) => {
                if e.created <= now && now - e.created <= self.fresh_millis {
                    Some(e.menu)
                } else {
                    None
                }
            },
            None => None,
        }
    }

    /// Stores a freshly extracted menu for the key with the given
    /// timestamp, replacing any prior entry wholesale; at capacity the
    /// least-recently-used key leaves first.
    pub fn store(&mut self, site: Canteen, date: Date, menu: Menu, now: u64)
        ensures
            final(self).cap() == old(self).cap(),
            final(self).fresh_window() == old(self).fresh_window(),
            final(self).entries() == store_spec(
                old(self).entries(),
                old(self).cap(),
                MenuKey { site, date },
                CacheEntry { menu, created: now },
            ),
    {
        lru_put(&mut self.store, MenuKey { site, date }, CacheEntry { menu, created: now });
    }
}

/// Within the freshness window, repeated lookups of one key serve the
/// same menu, so no further fetch happens: a fresh hit at one time is
/// a fresh hit with identical content at any other time inside the
/// window, also after the reordering the first lookup caused.
pub proof fn lemma_fresh_hit_stable(
    s: Seq<(MenuKey, CacheEntry)>,
    window: u64,
    k: MenuKey,
    t1: u64,
    t2: u64,
)
    requires
        find_key(s, k) >= 0,
        entry_fresh(s[find_key(s, k)].1, t1, window),
        entry_fresh(s[find_key(s, k)].1, t2, window),
    ensures
        lookup_spec(s, window, k, t1) == Some(s[find_key(s, k)].1.menu),
        lookup_spec(move_front(s, find_key(s, k)), window, k, t2) == Some(
            s[find_key(s, k)].1.menu,
        ),
{
    lemma_find_key_bounds(s, k);
    let i = find_key(s, k);
    let m = move_front(s, i);
    assert(m[0] == s[i]);
    assert(find_key(m, k) == 0);
}

/// After the freshness window has elapsed, a lookup serves nothing,
/// and one store replaces the entry: the key's entry then carries the
/// new menu and the new, later timestamp, and stands most recent.
pub proof fn lemma_stale_then_refresh(
    s: Seq<(MenuKey, CacheEntry)>,
    window: u64,
    cap: nat,
    k: MenuKey,
    t: u64,
    e: CacheEntry,
)
    requires
        find_key(s, k) >= 0,
        !entry_fresh(s[find_key(s, k)].1, t, window),
    ensures
        lookup_spec(s, window, k, t) is None,
        store_spec(s, cap, k, e)[0] == (k, e),
        find_key(store_spec(s, cap, k, e), k) == 0,
        entry_fresh(e, t, window) ==> lookup_spec(store_spec(s, cap, k, e), window, k, t)
            == Some(e.menu),
{
    lemma_find_key_bounds(s, k);
    let s2 = store_spec(s, cap, k, e);
    assert(s2[0] == (k, e));
    assert(find_key(s2, k) == 0);
}

pub proof fn lemma_find_key_bounds(s: Seq<(MenuKey, CacheEntry)>, k: MenuKey)
    ensures
        find_key(s, k) == -1 ==> (forall|t: int| 0 <= t < s.len() ==> (#[trigger] s[t]).0 != k),
        find_key(s, k) != -1 ==> 0 <= find_key(s, k) < s.len() && s[find_key(s, k)].0 == k,
    decreases s.len(),
{
    if s.len() == 0 {
    } else if s[0].0 == k {
    } else {
        let t = s.skip(1);
        lemma_find_key_bounds(t, k);
        assert(forall|q: int| 1 <= q < s.len() ==> s[q] == t[q - 1]);
        if find_key(t, k) == -1 {
            assert forall|q: int| 0 <= q < s.len() implies (#[trigger] s[q]).0 != k by {
                if q >= 1 {
                    assert(s[q] == t[q - 1]);
                }
            }
        }
    }
}

/// Least-recently-used eviction, on a cache of capacity two: after
/// storing keys `a` and `b`, a lookup of `a` marks it used, so storing
/// a third key `c` evicts `b` and leaves exactly `c` and `a` cached.
pub proof fn lemma_lru_eviction(
    a: MenuKey,
    b: MenuKey,
    c: MenuKey,
    ea: CacheEntry,
    eb: CacheEntry,
    ec: CacheEntry,
    window: u64,
    t: u64,
)
    requires
        a != b,
        b != c,
        a != c,
        entry_fresh(ea, t, window),
    ensures
        ({
            let s1 = store_spec(Seq::<(MenuKey, CacheEntry)>::empty(), 2, a, ea);
            let s2 = store_spec(s1, 2, b, eb);
            let s3 = move_front(s2, find_key(s2, a));
            let s4 = store_spec(s3, 2, c, ec);
            &&& lookup_spec(s2, window, a, t) == Some(ea.menu)
            &&& s4 == seq![(c, ec), (a, ea)]
            &&& find_key(s4, b) == -1
        }),
{
    reveal_with_fuel(find_key, 5);
    let s0 = Seq::<(MenuKey, CacheEntry)>::empty();
    let s1 = store_spec(s0, 2, a, ea);
    assert(find_key(s0, a) == -1);
    assert(s1 =~= seq![(a, ea)]);
    assert(s1.skip(1) =~= s0);
    assert(find_key(s1, b) == -1);
    let s2 = store_spec(s1, 2, b, eb);
    assert(s2 =~= seq![(b, eb), (a, ea)]);
    assert(s2.skip(1) =~= seq![(a, ea)]);
    assert(seq![(a, ea)].skip(1) =~= s0);
    assert(find_key(s2, a) == 1);
    let s3 = move_front(s2, 1);
    assert(s3 =~= seq![(a, ea), (b, eb)]);
    assert(s3.skip(1) =~= seq![(b, eb)]);
    assert(seq![(b, eb)].skip(1) =~= s0);
    assert(find_key(s3, c) == -1);
    let s4 = store_spec(s3, 2, c, ec);
    assert(s3.take(s3.len() - 1) =~= seq![(a, ea)]);
    assert(s4 =~= seq![(c, ec), (a, ea)]);
    assert(s4.skip(1) =~= seq![(a, ea)]);
    assert(find_key(s4, b) == -1);
}

} // verus!
