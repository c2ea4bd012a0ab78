//! The resolver: the cache first, then the hot table, then the cold store.
//! The first tier that knows the address answers, and an answer from a table
//! or the store is written back into the cache with the default TTL. Nothing
//! is cached for an address no tier knows. The cold store is consulted by the
//! caller, which hands its answer back to `complete`.
use vstd::prelude::*;

use std::sync::Arc;

use crate::asn::AsnInfo;
use crate::cache::{
    after_put, entries_after_read, expiry, read_hits, read_result, CacheError, CacheLayer,
    CachedValue, Entries,
};
use crate::table::IpRangeTableV4;
use crate::text::{dotted, push_dotted};

verus! {

/// How long an answer stays in the cache: five minutes, in nanoseconds.
pub const DEFAULT_TTL_NANOS: u128 = 300_000_000_000;

/// What the first two tiers decided for an address.
#[derive(Debug)]
pub enum Resolution {
    /// The cache or the hot table knows the address.
    Resolved(AsnInfo),
    /// Neither does: the cold store is to be asked, and its answer handed to
    /// `complete`.
    ConsultColdStore,
}

/// How a resolution of `ip` at time `now` goes, given the cache entries
/// `before`, what the hot table reports for `ip`, and the cache's capacity:
/// a live cache entry answers (and is refreshed); otherwise a hot-table
/// answer is returned and cached for the default TTL; otherwise the cold
/// store is to be consulted. `after` is the cache's entries afterwards.
pub open spec fn resolves_at(
    before: Entries,
    hot: Option<AsnInfo>,
    cap: nat,
    ip: u32,
    now: u128,
    r: Resolution,
    after: Entries,
) -> bool {
    if read_hits(before, dotted(ip), now) {
        &&& r == Resolution::Resolved(read_result(before, dotted(ip), now)->0)
        &&& after == entries_after_read(before, dotted(ip), now)
    } else if hot is Some {
        &&& r == Resolution::Resolved(hot->0)
        &&& after == after_put(
            entries_after_read(before, dotted(ip), now),
            dotted(ip),
            CachedValue { data: hot->0, expires_at: expiry(now, DEFAULT_TTL_NANOS) },
            cap,
        )
    } else {
        &&& r is ConsultColdStore
        &&& after == entries_after_read(before, dotted(ip), now)
    }
}

/// The cache key of an address: its dotted-quad form.
pub fn cache_key(ip: u32) -> (r: String)
    ensures
        r@ == dotted(ip),
{
    let mut r = String::new();
    push_dotted(&mut r, ip);
    assert(r@ =~= dotted(ip));
    r
}

/// The cache in front of a hot table.
pub struct Resolver {
    cache: CacheLayer,
    table: Option<Arc<IpRangeTableV4>>,
}

impl Resolver {
    pub closed spec fn well_formed(self) -> bool {
        self.cache.well_formed()
    }

    /// The cache's entries, most recently used first.
    pub closed spec fn cached(self) -> Entries {
        self.cache.entries()
    }

    /// The cache's counters.
    pub closed spec fn cache_counters(self) -> crate::cache::CacheStats {
        self.cache.counters()
    }

    /// The number of entries the cache holds at most.
    pub closed spec fn cache_cap(self) -> nat {
        self.cache.cap()
    }

    /// The hot table, if one was loaded.
    pub closed spec fn hot(self) -> Option<IpRangeTableV4> {
        match self.table {
            Some(t) => Some(*t),
            None => None,
        }
    }

    /// What the hot table reports for `ip`; nothing without a table.
    pub open spec fn hot_lookup(self, ip: u32) -> Option<AsnInfo> {
        match self.hot() {
            Some(t) => t.lookup(ip),
            None => None,
        }
    }

    /// A resolver over `table` with a cache of `cache_capacity` entries; a
    /// capacity of zero is refused.
    pub fn new(table: Option<Arc<IpRangeTableV4>>, cache_capacity: usize) -> (r: Result<
        Resolver,
        CacheError,
    >)
        ensures
            r is Err <==> cache_capacity == 0,
            r matches Ok(res) ==> {
                &&& res.well_formed()
                &&& res.cached() == Seq::<(Seq<char>, CachedValue)>::empty()
                &&& res.cache_cap() == cache_capacity
                &&& res.hot() == match table {
                    Some(t) => Some(*t),
                    None => None::<IpRangeTableV4>,
                }
            },
    {
        match CacheLayer::new(cache_capacity) {
            Ok(cache) => Ok(Resolver { cache, table }),
            Err(e) => Err(e),
        }
    }

    /// Resolves `ip` at time `now` from the cache, then from the hot table;
    /// a hot-table answer is cached for the default TTL.
    pub fn resolve_at(&mut self, ip: u32, now: u128) -> (r: Resolution)
        requires
            old(self).well_formed(),
        ensures
            final(self).well_formed(),
            final(self).hot() == old(self).hot(),
            final(self).cache_cap() == old(self).cache_cap(),
            resolves_at(old(self).cached(), old(self).hot_lookup(ip), old(self).cache_cap(), ip, now, r, final(self).cached()),
    {
        let key = cache_key(ip);
        match self.cache.get_at(key.as_str(), now) {
            Some(info) => Resolution::Resolved(info),
            None => {
                let found = match &self.table {
                    Some(t) => t.find_ip(ip),
                    None => None,
                };
                match found {
                    Some(info) => {
                        let stored = info.duplicate();
                        self.cache.set_at(key.as_str(), stored, DEFAULT_TTL_NANOS, now);
                        Resolution::Resolved(info)
                    },
                    None => Resolution::ConsultColdStore,
                }
            },
        }
    }

    /// Finishes resolving `ip` at time `now` with the cold store's answer:
    /// an answer is cached for the default TTL and returned; no answer
    /// leaves the cache as it is.
    pub fn complete_at(&mut self, ip: u32, cold: Option<AsnInfo>, now: u128) -> (r: Option<
        AsnInfo,
    >)
        requires
            old(self).well_formed(),
        ensures
            final(self).well_formed(),
            r == cold,
            final(self).hot() == old(self).hot(),
            final(self).cache_cap() == old(self).cache_cap(),
            cold matches Some(info) ==> final(self).cached() == after_put(
                old(self).cached(),
                dotted(ip),
                CachedValue { data: info, expires_at: expiry(now, DEFAULT_TTL_NANOS) },
                old(self).cache_cap(),
            ),
            cold is None ==> final(self).cached() == old(self).cached(),
    {
        match cold {
            Some(info) => {
                let key = cache_key(ip);
                self.cache.set_at(key.as_str(), info.duplicate(), DEFAULT_TTL_NANOS, now);
                Some(info)
            },
            None => None,
        }
    }

    /// Resolves `ip` now, as `resolve_at` does at the cache clock's current
    /// time.
    pub fn resolve(&mut self, ip: u32) -> (r: Resolution)
        requires
            old(self).well_formed(),
        ensures
            final(self).well_formed(),
            final(self).hot() == old(self).hot(),
            final(self).cache_cap() == old(self).cache_cap(),
            exists|now: u128|
                #[trigger] resolves_at(
                    old(self).cached(),
                    old(self).hot_lookup(ip),
                    old(self).cache_cap(),
                    ip,
                    now,
                    r,
                    final(self).cached(),
                ),
    {
        let now = self.cache.now();
        self.resolve_at(ip, now)
    }

    /// Finishes resolving `ip` now with the cold store's answer, as
    /// `complete_at` does at the cache clock's current time.
    pub fn complete(&mut self, ip: u32, cold: Option<AsnInfo>) -> (r: Option<AsnInfo>)
        requires
            old(self).well_formed(),
        ensures
            final(self).well_formed(),
            r == cold,
            final(self).hot() == old(self).hot(),
            final(self).cache_cap() == old(self).cache_cap(),
            cold is None ==> final(self).cached() == old(self).cached(),
            cold is Some ==> exists|now: u128|
                final(self).cached() == #[trigger] after_put(
                    old(self).cached(),
                    dotted(ip),
                    CachedValue { data: cold->0, expires_at: expiry(now, DEFAULT_TTL_NANOS) },
                    old(self).cache_cap(),
                ),
    {
        let now = self.cache.now();
        self.complete_at(ip, cold, now)
    }

    /// A snapshot of the cache's counters.
    pub fn cache_stats(&self) -> (r: crate::cache::CacheStats)
        ensures
            r == self.cache_counters(),
    {
        self.cache.stats()
    }
}

} // verus!
