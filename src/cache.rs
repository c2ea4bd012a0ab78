//! The resolution cache: a capacity-bounded LRU map from string keys to
//! `AsnInfo`, where each entry carries an expiry time. Expiry is checked
//! lazily: an entry found expired on a read is removed then; nothing sweeps
//! the cache in the background.
use vstd::prelude::*;

use lru::LruCache;
use std::num::NonZeroUsize;
use std::time::{Duration, Instant};

use crate::asn::AsnInfo;

verus! {

#[verifier::external_type_specification]
#[verifier::external_body]
#[verifier::reject_recursive_types(K)]
#[verifier::reject_recursive_types(V)]
#[verifier::reject_recursive_types(S)]
pub struct ExLruCache<K, V, S>(LruCache<K, V, S>);

#[verifier::external_type_specification]
#[verifier::external_body]
pub struct ExLruHasher(lru::DefaultHasher);

#[verifier::external_type_specification]
#[verifier::external_body]
pub struct ExInstant(Instant);

/// An entry as the cache holds it: the value and the time at which it
/// expires, in nanoseconds since the cache's clock origin.
#[derive(Clone, Debug)]
pub struct CachedValue {
    pub data: AsnInfo,
    pub expires_at: u128,
}

/// The entries of an LRU cache as (key, entry) pairs, most recently used
/// first.
pub type Entries = Seq<(Seq<char>, CachedValue)>;

/// What an LRU cache holds, most recently used first.
pub uninterp spec fn lru_entries(c: LruCache<String, CachedValue>) -> Seq<(Seq<char>, CachedValue)>;

/// The number of entries an LRU cache was made to hold.
pub uninterp spec fn lru_capacity(c: LruCache<String, CachedValue>) -> nat;

/// Whether some entry of `e` has key `k`.
pub open spec fn key_present(e: Entries, k: Seq<char>) -> bool {
    exists|i: int| 0 <= i < e.len() && #[trigger] e[i].0 == k
}

/// The position of key `k` in `e`, where it is present.
pub open spec fn key_pos(e: Entries, k: Seq<char>) -> int {
    choose|i: int| 0 <= i < e.len() && #[trigger] e[i].0 == k
}

/// No two entries of `e` share a key.
pub open spec fn keys_distinct(e: Entries) -> bool {
    forall|i: int, j: int| 0 <= i < j < e.len() ==> #[trigger] e[i].0 != #[trigger] e[j].0
}

/// `e` after entry `i` was used: it moves to the front.
pub open spec fn touched(e: Entries, i: int) -> Entries {
    seq![e[i]] + e.remove(i)
}

/// `e` after `k` was put with `v` into a cache that holds at most `cap`
/// entries: an entry of `k` is replaced and moves to the front; otherwise the
/// new entry goes to the front, and when the cache is full the least recently
/// used entry leaves.
pub open spec fn after_put(e: Entries, k: Seq<char>, v: CachedValue, cap: nat) -> Entries {
    if key_present(e, k) {
        seq![(k, v)] + e.remove(key_pos(e, k))
    } else if e.len() >= cap {
        seq![(k, v)] + e.take(e.len() - 1)
    } else {
        seq![(k, v)] + e
    }
}

/// Relies on `LruCache::new`: an empty cache that holds at most `cap`
/// entries.
#[verifier::external_body]
fn lru_new(cap: usize) -> (r: LruCache<String, CachedValue>)
    requires
        cap > 0,
    ensures
        lru_entries(r) == Seq::<(Seq<char>, CachedValue)>::empty(),
        lru_capacity(r) == cap,
{
    LruCache::new(NonZeroUsize::new(cap).unwrap())
}

/// Relies on `LruCache::get`: the value of `k`, if present, which then
/// becomes the most recently used entry.
#[verifier::external_body]
fn lru_get(c: &mut LruCache<String, CachedValue>, k: &str) -> (r: Option<CachedValue>)
    ensures
        lru_capacity(*final(c)) == lru_capacity(*old(c)),
        key_present(lru_entries(*old(c)), k@) ==> {
            let i = key_pos(lru_entries(*old(c)), k@);
            &&& r == Some(lru_entries(*old(c))[i].1)
            &&& lru_entries(*final(c)) == touched(lru_entries(*old(c)), i)
        },
        !key_present(lru_entries(*old(c)), k@) ==> {
            &&& r is None
            &&& lru_entries(*final(c)) == lru_entries(*old(c))
        },
{
    c.get(k).cloned()
}

/// Relies on `LruCache::put`: inserts or replaces the entry of `k` as the
/// most recently used one, evicting the least recently used entry when a new
/// key meets a full cache.
#[verifier::external_body]
fn lru_put(c: &mut LruCache<String, CachedValue>, k: String, v: CachedValue)
    ensures
        lru_capacity(*final(c)) == lru_capacity(*old(c)),
        lru_entries(*final(c)) == after_put(lru_entries(*old(c)), k@, v, lru_capacity(*old(c))),
{
    c.put(k, v);
}

/// Relies on `LruCache::pop`: removes the entry of `k`, if present, and
/// returns its value.
#[verifier::external_body]
fn lru_pop(c: &mut LruCache<String, CachedValue>, k: &str) -> (r: Option<CachedValue>)
    ensures
        lru_capacity(*final(c)) == lru_capacity(*old(c)),
        key_present(lru_entries(*old(c)), k@) ==> {
            let i = key_pos(lru_entries(*old(c)), k@);
            &&& r == Some(lru_entries(*old(c))[i].1)
            &&& lru_entries(*final(c)) == lru_entries(*old(c)).remove(i)
        },
        !key_present(lru_entries(*old(c)), k@) ==> {
            &&& r is None
            &&& lru_entries(*final(c)) == lru_entries(*old(c))
        },
{
    c.pop(k)
}

/// Relies on `LruCache::len`: the number of entries.
#[verifier::external_body]
fn lru_len(c: &LruCache<String, CachedValue>) -> (r: usize)
    ensures
        r == lru_entries(*c).len(),
{
    c.len()
}

/// Relies on `LruCache::clear`: removes every entry.
#[verifier::external_body]
fn lru_clear(c: &mut LruCache<String, CachedValue>)
    ensures
        lru_capacity(*final(c)) == lru_capacity(*old(c)),
        lru_entries(*final(c)) == Seq::<(Seq<char>, CachedValue)>::empty(),
{
    c.clear()
}

/// Relies on `Instant::now`: the current instant of the monotonic clock.
#[verifier::external_body]
fn instant_now() -> (r: Instant) {
    Instant::now()
}

/// Relies on `Instant::elapsed`: the time passed since `origin`.
#[verifier::external_body]
fn elapsed_since(origin: &Instant) -> (r: Duration) {
    origin.elapsed()
}

/// The whole number of nanoseconds in a duration.
pub uninterp spec fn nanos_of(d: Duration) -> u128;

/// Relies on `Duration::as_nanos`: the duration in whole nanoseconds, which
/// depends on the duration alone.
#[verifier::external_body]
fn duration_nanos(d: &Duration) -> (r: u128)
    ensures
        r == nanos_of(*d),
{
    d.as_nanos()
}

/// A counter after one more event; it stops at its largest value.
pub open spec fn bumped(n: u64) -> u64 {
    if n < u64::MAX {
        (n + 1) as u64
    } else {
        n
    }
}

/// The time `ttl` after `now`, or the largest time when that does not fit.
pub open spec fn expiry(now: u128, ttl: u128) -> u128 {
    if now + ttl <= u128::MAX {
        (now + ttl) as u128
    } else {
        u128::MAX
    }
}

/// Whether a read of `k` at time `now` finds a live entry.
pub open spec fn read_hits(e: Entries, k: Seq<char>, now: u128) -> bool {
    key_present(e, k) && now <= e[key_pos(e, k)].1.expires_at
}

/// What a read of `k` at time `now` returns.
pub open spec fn read_result(e: Entries, k: Seq<char>, now: u128) -> Option<AsnInfo> {
    if read_hits(e, k, now) {
        Some(e[key_pos(e, k)].1.data)
    } else {
        None
    }
}

/// The entries after a read of `k` at time `now`: a live entry becomes the
/// most recently used, an expired one is removed.
pub open spec fn entries_after_read(e: Entries, k: Seq<char>, now: u128) -> Entries {
    if !key_present(e, k) {
        e
    } else if read_hits(e, k, now) {
        touched(e, key_pos(e, k))
    } else {
        e.remove(key_pos(e, k))
    }
}

impl CachedValue {
    /// An entry for `data` that lives `ttl` nanoseconds from `now`.
    pub fn new(data: AsnInfo, ttl: u128, now: u128) -> (r: CachedValue)
        ensures
            r.data == data,
            r.expires_at == expiry(now, ttl),
    {
        CachedValue { data, expires_at: now.saturating_add(ttl) }
    }

    /// Whether the entry has expired at time `now`.
    pub fn is_expired(&self, now: u128) -> (r: bool)
        ensures
            r == (now > self.expires_at),
    {
        now > self.expires_at
    }
}

/// Errors of the cache.
#[derive(Debug)]
pub enum CacheError {
    /// The cache could not be made (its capacity was zero).
    OperationFailed(String),
}

/// A snapshot of the cache's counters. The second-level counters stay zero:
/// this cache has one level.
#[derive(Debug, Clone, Copy, Default)]
pub struct CacheStats {
    pub l1_hits: u64,
    pub l1_misses: u64,
    pub l2_hits: u64,
    pub l2_misses: u64,
    pub l1_size: usize,
    pub l1_capacity: usize,
}

impl CacheStats {
    /// The overall hit rate as a fraction `(hits, requests)`; a rate with no
    /// requests is zero.
    pub fn hit_rate_ratio(&self) -> (r: (u128, u128))
        ensures
            r.0 == self.l1_hits + self.l2_hits,
            r.1 == self.l1_hits + self.l2_hits + self.l1_misses + self.l2_misses,
    {
        let hits = self.l1_hits as u128 + self.l2_hits as u128;
        (hits, hits + self.l1_misses as u128 + self.l2_misses as u128)
    }

    /// The first-level hit rate as a fraction `(hits, requests)`; a rate with
    /// no requests is zero.
    pub fn l1_hit_rate_ratio(&self) -> (r: (u128, u128))
        ensures
            r.0 == self.l1_hits,
            r.1 == self.l1_hits + self.l1_misses,
    {
        (self.l1_hits as u128, self.l1_hits as u128 + self.l1_misses as u128)
    }
}

/// A capacity-bounded LRU cache whose entries expire.
pub struct CacheLayer {
    l1: LruCache<String, CachedValue>,
    stats: CacheStats,
    l1_capacity: usize,
    origin: Instant,
}

/// Removing an entry keeps the remaining keys distinct, and leaves exactly
/// the other keys present.
proof fn lemma_remove_keeps_keys(e: Entries, i: int)
    requires
        keys_distinct(e),
        0 <= i < e.len(),
    ensures
        keys_distinct(e.remove(i)),
        e.remove(i).len() == e.len() - 1,
        forall|x: Seq<char>| key_present(e.remove(i), x) <==> (key_present(e, x) && x != e[i].0),
{
    let r = e.remove(i);
    assert forall|x: Seq<char>| key_present(r, x) <==> (key_present(e, x) && x != e[i].0) by {
        if key_present(r, x) {
            let j = choose|j: int| 0 <= j < r.len() && #[trigger] r[j].0 == x;
            if j < i {
                assert(r[j] == e[j]);
            } else {
                assert(r[j] == e[j + 1]);
            }
        }
        if key_present(e, x) && x != e[i].0 {
            let j = choose|j: int| 0 <= j < e.len() && #[trigger] e[j].0 == x;
            if j < i {
                assert(r[j] == e[j]);
            } else {
                assert(j != i);
                assert(r[j - 1] == e[j]);
            }
        }
    }
    assert forall|a: int, b: int| 0 <= a < b < r.len() implies #[trigger] r[a].0 != #[trigger] r[b].0 by {
        let a2 = if a < i { a } else { a + 1 };
        let b2 = if b < i { b } else { b + 1 };
        assert(r[a] == e[a2]);
        assert(r[b] == e[b2]);
    }
}

/// Putting into a cache with distinct keys that is within its capacity keeps
/// the keys distinct and the cache within its capacity, with the new entry
/// first.
proof fn lemma_put_keeps_shape(e: Entries, k: Seq<char>, v: CachedValue, cap: nat)
    requires
        keys_distinct(e),
        e.len() <= cap,
        cap > 0,
    ensures
        keys_distinct(after_put(e, k, v, cap)),
        after_put(e, k, v, cap).len() <= cap,
        after_put(e, k, v, cap)[0] == (k, v),
        forall|x: Seq<char>| #![trigger key_present(after_put(e, k, v, cap), x)]
            x != k ==> (key_present(after_put(e, k, v, cap), x) ==> key_present(e, x)),
{
    let r = after_put(e, k, v, cap);
    if key_present(e, k) {
        let i = key_pos(e, k);
        lemma_remove_keeps_keys(e, i);
        let rest = e.remove(i);
        assert(r == seq![(k, v)] + rest);
        assert forall|a: int, b: int| 0 <= a < b < r.len() implies #[trigger] r[a].0 != #[trigger] r[b].0 by {
            if a == 0 {
                assert(r[b] == rest[b - 1]);
                assert(key_present(rest, r[b].0));
            } else {
                assert(r[a] == rest[a - 1]);
                assert(r[b] == rest[b - 1]);
            }
        }
        assert forall|x: Seq<char>| #![trigger key_present(r, x)]
            x != k && key_present(r, x) implies key_present(e, x) by {
            let j = choose|j: int| 0 <= j < r.len() && #[trigger] r[j].0 == x;
            assert(r[j] == rest[j - 1]);
            assert(key_present(rest, x));
        }
    } else {
        let rest = if e.len() >= cap { e.take(e.len() - 1) } else { e };
        assert(r == seq![(k, v)] + rest);
        assert forall|j: int| 0 <= j < rest.len() implies #[trigger] rest[j] == e[j] by {}
        assert forall|a: int, b: int| 0 <= a < b < r.len() implies #[trigger] r[a].0 != #[trigger] r[b].0 by {
            if a == 0 {
                assert(r[b] == e[b - 1]);
            } else {
                assert(r[a] == e[a - 1]);
                assert(r[b] == e[b - 1]);
            }
        }
        assert forall|x: Seq<char>| #![trigger key_present(r, x)]
            x != k && key_present(r, x) implies key_present(e, x) by {
            let j = choose|j: int| 0 <= j < r.len() && #[trigger] r[j].0 == x;
            assert(r[j] == e[j - 1]);
        }
    }
}

/// Moving entry `i` to the front keeps the keys distinct.
proof fn lemma_touch_keeps_keys(e: Entries, i: int)
    requires
        keys_distinct(e),
        0 <= i < e.len(),
    ensures
        keys_distinct(touched(e, i)),
        touched(e, i).len() == e.len(),
{
    lemma_remove_keeps_keys(e, i);
    let rest = e.remove(i);
    let r = touched(e, i);
    assert forall|a: int, b: int| 0 <= a < b < r.len() implies #[trigger] r[a].0 != #[trigger] r[b].0 by {
        if a == 0 {
            assert(r[b] == rest[b - 1]);
            assert(key_present(rest, r[b].0));
        } else {
            assert(r[a] == rest[a - 1]);
            assert(r[b] == rest[b - 1]);
        }
    }
}

impl CacheLayer {
    /// The cache's internal consistency: its keys are distinct, it holds no
    /// more than its capacity, and its size counter is its size.
    pub closed spec fn well_formed(self) -> bool {
        &&& self.l1_capacity > 0
        &&& lru_capacity(self.l1) == self.l1_capacity
        &&& keys_distinct(lru_entries(self.l1))
        &&& lru_entries(self.l1).len() <= self.l1_capacity
        &&& self.stats.l1_size == lru_entries(self.l1).len()
        &&& self.stats.l1_capacity == self.l1_capacity
        &&& self.stats.l2_hits == 0
        &&& self.stats.l2_misses == 0
    }

    /// The entries, most recently used first.
    pub closed spec fn entries(self) -> Entries {
        lru_entries(self.l1)
    }

    /// The counters as `stats` reports them.
    pub closed spec fn counters(self) -> CacheStats {
        self.stats
    }

    /// The number of entries the cache holds at most.
    pub closed spec fn cap(self) -> nat {
        self.l1_capacity as nat
    }

    /// A consistent cache has distinct keys, a positive capacity, and no more
    /// entries than that.
    pub proof fn lemma_well_formed(self)
        requires
            self.well_formed(),
        ensures
            keys_distinct(self.entries()),
            self.cap() > 0,
            self.entries().len() <= self.cap(),
            self.counters().l1_size == self.entries().len(),
            self.counters().l1_capacity == self.cap(),
    {
    }

    /// Makes an empty cache that holds at most `l1_capacity` entries; a
    /// capacity of zero is refused.
    pub fn new(l1_capacity: usize) -> (r: Result<CacheLayer, CacheError>)
        ensures
            r is Err <==> l1_capacity == 0,
            r matches Ok(c) ==> {
                &&& c.well_formed()
                &&& c.entries() == Seq::<(Seq<char>, CachedValue)>::empty()
                &&& c.cap() == l1_capacity
                &&& c.counters() == (CacheStats {
                    l1_hits: 0,
                    l1_misses: 0,
                    l2_hits: 0,
                    l2_misses: 0,
                    l1_size: 0,
                    l1_capacity,
                })
            },
    {
        if l1_capacity == 0 {
            return Err(CacheError::OperationFailed("Capacity must be > 0".to_string()));
        }
        let stats = CacheStats {
            l1_hits: 0,
            l1_misses: 0,
            l2_hits: 0,
            l2_misses: 0,
            l1_size: 0,
            l1_capacity,
        };
        Ok(CacheLayer { l1: lru_new(l1_capacity), stats, l1_capacity, origin: instant_now() })
    }

    /// Reads `key` at time `now`: a live entry is returned and becomes the
    /// most recently used (a hit); an expired entry is removed and, like an
    /// absent key, counts as a miss.
    pub fn get_at(&mut self, key: &str, now: u128) -> (r: Option<AsnInfo>)
        requires
            old(self).well_formed(),
        ensures
            final(self).well_formed(),
            r == read_result(old(self).entries(), key@, now),
            final(self).entries() == entries_after_read(old(self).entries(), key@, now),
            final(self).cap() == old(self).cap(),
            final(self).counters().l1_size == final(self).entries().len(),
            final(self).counters().l1_capacity == old(self).counters().l1_capacity,
            read_hits(old(self).entries(), key@, now) ==> {
                &&& final(self).counters().l1_hits == bumped(old(self).counters().l1_hits)
                &&& final(self).counters().l1_misses == old(self).counters().l1_misses
            },
            !read_hits(old(self).entries(), key@, now) ==> {
                &&& final(self).counters().l1_hits == old(self).counters().l1_hits
                &&& final(self).counters().l1_misses == bumped(old(self).counters().l1_misses)
            },
    {
        let ghost e = self.entries();
        let found = lru_get(&mut self.l1, key);
        if let Some(cached) = found {
            proof {
                lemma_touch_keeps_keys(e, key_pos(e, key@));
            }
            if !cached.is_expired(now) {
                self.stats.l1_hits = self.stats.l1_hits.saturating_add(1);
                return Some(cached.data);
            }
            let ghost touched_e = self.entries();
            lru_pop(&mut self.l1, key);
            proof {
                assert(touched_e[0].0 == key@);
                assert(key_present(touched_e, key@));
                lemma_key_at_front(touched_e, key@);
                assert(touched_e.remove(0) == e.remove(key_pos(e, key@)));
                lemma_remove_keeps_keys(touched_e, 0);
            }
            self.stats.l1_size = lru_len(&self.l1);
        }
        self.stats.l1_misses = self.stats.l1_misses.saturating_add(1);
        None
    }

    /// The time on the cache's clock: nanoseconds since the cache was made.
    pub fn now(&self) -> (r: u128) {
        duration_nanos(&elapsed_since(&self.origin))
    }

    /// Reads `key` now, as `get_at` does at the clock's current time.
    pub fn get(&mut self, key: &str) -> (r: Option<AsnInfo>)
        requires
            old(self).well_formed(),
        ensures
            final(self).well_formed(),
            final(self).cap() == old(self).cap(),
            exists|now: u128|
                {
                    &&& r == #[trigger] read_result(old(self).entries(), key@, now)
                    &&& final(self).entries() == entries_after_read(old(self).entries(), key@, now)
                    &&& read_hits(old(self).entries(), key@, now) ==> {
                        &&& final(self).counters().l1_hits == bumped(old(self).counters().l1_hits)
                        &&& final(self).counters().l1_misses == old(self).counters().l1_misses
                    }
                    &&& !read_hits(old(self).entries(), key@, now) ==> {
                        &&& final(self).counters().l1_hits == old(self).counters().l1_hits
                        &&& final(self).counters().l1_misses == bumped(
                            old(self).counters().l1_misses,
                        )
                    }
                },
    {
        let now = self.now();
        self.get_at(key, now)
    }

    /// Stores `value` under `key` at time `now`, to live `ttl` nanoseconds;
    /// an entry of `key` is replaced, and a new key in a full cache evicts
    /// the least recently used entry.
    pub fn set_at(&mut self, key: &str, value: AsnInfo, ttl: u128, now: u128)
        requires
            old(self).well_formed(),
        ensures
            final(self).well_formed(),
            final(self).entries() == after_put(
                old(self).entries(),
                key@,
                CachedValue { data: value, expires_at: expiry(now, ttl) },
                old(self).cap(),
            ),
            holds_entry(
                final(self).entries(),
                key@,
                CachedValue { data: value, expires_at: expiry(now, ttl) },
            ),
            final(self).cap() == old(self).cap(),
            final(self).counters().l1_hits == old(self).counters().l1_hits,
            final(self).counters().l1_misses == old(self).counters().l1_misses,
            final(self).counters().l1_size == final(self).entries().len(),
            final(self).counters().l1_capacity == old(self).counters().l1_capacity,
    {
        let cached = CachedValue::new(value, ttl, now);
        proof {
            lemma_put_keeps_shape(self.entries(), key@, cached, self.cap());
        }
        lru_put(&mut self.l1, key.to_string(), cached);
        assert(self.entries()[0] == (key@, cached));
        self.stats.l1_size = lru_len(&self.l1);
    }

    /// Stores `value` under `key` now, to live `ttl`, as `set_at` does at the
    /// clock's current time.
    pub fn set(&mut self, key: &str, value: AsnInfo, ttl: Duration)
        requires
            old(self).well_formed(),
        ensures
            final(self).well_formed(),
            exists|now: u128|
                final(self).entries() == #[trigger] after_put(
                    old(self).entries(),
                    key@,
                    CachedValue { data: value, expires_at: expiry(now, nanos_of(ttl)) },
                    old(self).cap(),
                ),
            final(self).cap() == old(self).cap(),
            final(self).counters().l1_hits == old(self).counters().l1_hits,
            final(self).counters().l1_misses == old(self).counters().l1_misses,
    {
        let now = self.now();
        let ttl_nanos = duration_nanos(&ttl);
        self.set_at(key, value, ttl_nanos, now);
    }

    /// Removes the entry of `key`, if any.
    pub fn invalidate(&mut self, key: &str)
        requires
            old(self).well_formed(),
        ensures
            final(self).well_formed(),
            key_present(old(self).entries(), key@) ==> final(self).entries() == old(
                self,
            ).entries().remove(key_pos(old(self).entries(), key@)),
            !key_present(old(self).entries(), key@) ==> final(self).entries() == old(
                self,
            ).entries(),
            final(self).cap() == old(self).cap(),
            final(self).counters().l1_hits == old(self).counters().l1_hits,
            final(self).counters().l1_misses == old(self).counters().l1_misses,
            final(self).counters().l1_size == final(self).entries().len(),
    {
        proof {
            if key_present(self.entries(), key@) {
                lemma_remove_keeps_keys(self.entries(), key_pos(self.entries(), key@));
            }
        }
        lru_pop(&mut self.l1, key);
        self.stats.l1_size = lru_len(&self.l1);
    }

    /// Removes every entry.
    pub fn clear(&mut self)
        requires
            old(self).well_formed(),
        ensures
            final(self).well_formed(),
            final(self).entries() == Seq::<(Seq<char>, CachedValue)>::empty(),
            final(self).cap() == old(self).cap(),
            final(self).counters().l1_hits == old(self).counters().l1_hits,
            final(self).counters().l1_misses == old(self).counters().l1_misses,
            final(self).counters().l1_size == 0,
    {
        lru_clear(&mut self.l1);
        self.stats.l1_size = 0;
    }

    /// A snapshot of the counters.
    pub fn stats(&self) -> (r: CacheStats)
        ensures
            r == self.counters(),
    {
        self.stats
    }

    /// The number of entries the cache holds at most.
    pub fn capacity(&self) -> (r: usize)
        ensures
            r == self.cap(),
    {
        self.l1_capacity
    }
}

/// A value just stored is what a read returns, at the time of storing and at
/// any time up to its expiry; a read after the expiry returns nothing and
/// removes the entry.
pub proof fn lemma_set_then_get(
    e: Entries,
    k: Seq<char>,
    v: AsnInfo,
    ttl: u128,
    now: u128,
    later: u128,
    cap: nat,
)
    requires
        keys_distinct(e),
        e.len() <= cap,
        cap > 0,
    ensures
        ({
            let e2 = after_put(e, k, CachedValue { data: v, expires_at: expiry(now, ttl) }, cap);
            &&& read_result(e2, k, now) == Some(v)
            &&& later <= expiry(now, ttl) ==> read_result(e2, k, later) == Some(v)
            &&& later > expiry(now, ttl) ==> {
                &&& read_result(e2, k, later) is None
                &&& !key_present(entries_after_read(e2, k, later), k)
            }
        }),
{
    let cv = CachedValue { data: v, expires_at: expiry(now, ttl) };
    lemma_put_keeps_shape(e, k, cv, cap);
    let e2 = after_put(e, k, cv, cap);
    lemma_key_at_front(e2, k);
    if later > expiry(now, ttl) {
        lemma_remove_keeps_keys(e2, 0);
    }
}

/// A new key put into a full cache evicts exactly the least recently used
/// entry: the new key is present, every other key stays, and the size stays
/// at the capacity.
pub proof fn lemma_full_put_evicts_least_recent(e: Entries, k: Seq<char>, v: CachedValue, cap: nat)
    requires
        keys_distinct(e),
        e.len() == cap,
        cap > 0,
        !key_present(e, k),
    ensures
        after_put(e, k, v, cap).len() == cap,
        key_present(after_put(e, k, v, cap), k),
        !key_present(after_put(e, k, v, cap), e[cap - 1].0),
        forall|i: int| 0 <= i < cap - 1 ==> key_present(after_put(e, k, v, cap), #[trigger] e[i].0),
{
    let r = after_put(e, k, v, cap);
    assert(r == seq![(k, v)] + e.take(e.len() - 1));
    assert(r[0].0 == k);
    if key_present(r, e[cap - 1].0) {
        let j = choose|j: int| 0 <= j < r.len() && #[trigger] r[j].0 == e[cap - 1].0;
        if j == 0 {
            assert(key_present(e, k));
        } else {
            assert(r[j] == e[j - 1]);
        }
    }
    assert forall|i: int| 0 <= i < cap - 1 implies key_present(r, #[trigger] e[i].0) by {
        assert(r[i + 1] == e[i]);
    }
}

/// Whether `e` holds key `k` with entry `v`.
pub open spec fn holds_entry(e: Entries, k: Seq<char>, v: CachedValue) -> bool {
    exists|i: int| 0 <= i < e.len() && #[trigger] e[i] == (k, v)
}

/// A read of a key that the cache holds returns its value up to its expiry;
/// after the expiry it returns nothing and the key leaves the cache.
pub proof fn lemma_read_held_entry(e: Entries, k: Seq<char>, v: CachedValue, now: u128)
    requires
        keys_distinct(e),
        holds_entry(e, k, v),
    ensures
        now <= v.expires_at ==> read_result(e, k, now) == Some(v.data),
        now > v.expires_at ==> {
            &&& read_result(e, k, now) is None
            &&& !key_present(entries_after_read(e, k, now), k)
        },
{
    let i = choose|i: int| 0 <= i < e.len() && #[trigger] e[i] == (k, v);
    assert(e[i].0 == k);
    assert(key_present(e, k));
    let p = key_pos(e, k);
    if p != i {
        assert(e[p].0 != e[i].0);
    }
    if now > v.expires_at {
        lemma_remove_keeps_keys(e, p);
    }
}

/// Reading, removing or putting another key keeps the entry of `k`, except a
/// put of a new key into a full cache whose least recently used key is `k`.
pub proof fn lemma_other_keys_keep_entry(
    e: Entries,
    k: Seq<char>,
    v: CachedValue,
    k2: Seq<char>,
    v2: CachedValue,
    now: u128,
    cap: nat,
)
    requires
        keys_distinct(e),
        holds_entry(e, k, v),
        k2 != k,
        e.len() <= cap,
    ensures
        holds_entry(entries_after_read(e, k2, now), k, v),
        key_present(e, k2) ==> holds_entry(e.remove(key_pos(e, k2)), k, v),
        (key_present(e, k2) || e.len() < cap || e.last().0 != k) ==> holds_entry(
            after_put(e, k2, v2, cap),
            k,
            v,
        ),
{
    let i = choose|i: int| 0 <= i < e.len() && #[trigger] e[i] == (k, v);
    if key_present(e, k2) {
        let p = key_pos(e, k2);
        assert(p != i);
        let r = e.remove(p);
        let j = if i < p { i } else { i - 1 };
        assert(r[j] == e[i]);
        assert(holds_entry(r, k, v));
        let t = touched(e, p);
        assert(t[j + 1] == e[i]);
        assert(holds_entry(t, k, v));
        let w = seq![(k2, v2)] + r;
        assert(w[j + 1] == e[i]);
        assert(holds_entry(w, k, v));
    } else {
        if e.len() < cap {
            let w = seq![(k2, v2)] + e;
            assert(w[i + 1] == e[i]);
        } else if e.last().0 != k {
            assert(i != e.len() - 1);
            let w = seq![(k2, v2)] + e.take(e.len() - 1);
            assert(w[i + 1] == e[i]);
        }
    }
}

/// Where the key is present and the keys are distinct, `key_pos` names its
/// only position.
proof fn lemma_key_at_front(e: Entries, k: Seq<char>)
    requires
        keys_distinct(e),
        e.len() > 0,
        e[0].0 == k,
    ensures
        key_pos(e, k) == 0,
{
    assert(key_present(e, k));
    let p = key_pos(e, k);
    if p != 0 {
        assert(e[0].0 != e[p].0);
    }
}

} // verus!
