//! Errors and counters of the DNS resolution cache.
use vstd::prelude::*;

use std::time::Duration;

verus! {

/// Errors of DNS resolution.
#[derive(Debug)]
pub enum DnsError {
    /// The name does not exist.
    NotFound(String),
    /// The lookup failed.
    LookupFailed(String),
    /// The name is not a valid domain name.
    InvalidDomain(String),
    /// The lookup took longer than allowed.
    Timeout(Duration),
    /// The resolver failed.
    ResolverError(String),
}

/// A snapshot of the DNS cache's counters.
#[derive(Debug, Clone, Copy, Default)]
pub struct CacheStats {
    pub hits: u64,
    pub misses: u64,
    pub size: usize,
    pub capacity: usize,
}

impl CacheStats {
    /// The hit rate as a fraction `(hits, lookups)`; a rate with no lookups
    /// is zero.
    pub fn hit_rate_ratio(&self) -> (r: (u128, u128))
        ensures
            r.0 == self.hits,
            r.1 == self.hits + self.misses,
    {
        (self.hits as u128, self.hits as u128 + self.misses as u128)
    }
}

} // verus!
