use rasn::asn::{Asn, AsnInfo};
use rasn::cache::{CacheError, CacheLayer};
use std::time::{Duration, Instant};

fn test_asn_info() -> AsnInfo {
    AsnInfo {
        asn: Asn(15169),
        organization: "Google".to_string(),
        country: Some("US".to_string()),
        description: Some("Google LLC".to_string()),
    }
}

const MILLI: u128 = 1_000_000;

#[test]
fn test_cache_creation() {
    let cache = CacheLayer::new(1000);
    assert!(cache.is_ok());
    assert_eq!(cache.unwrap().capacity(), 1000);
}

#[test]
fn zero_capacity_is_refused() {
    assert!(matches!(CacheLayer::new(0), Err(CacheError::OperationFailed(_))));
}

#[test]
fn test_cache_set_get() {
    let mut cache = CacheLayer::new(100).unwrap();
    let info = test_asn_info();

    cache.set("8.8.8.8", info.clone(), Duration::from_secs(60));

    let cached = cache.get("8.8.8.8");
    assert!(cached.is_some());
    let cached = cached.unwrap();
    assert_eq!(cached.asn.0, 15169);
    assert_eq!(cached.organization, "Google");
}

#[test]
fn test_cache_miss() {
    let mut cache = CacheLayer::new(100).unwrap();
    let result = cache.get("1.1.1.1");
    assert!(result.is_none());
}

#[test]
fn test_cache_ttl_expiry() {
    let mut cache = CacheLayer::new(100).unwrap();
    let info = test_asn_info();

    cache.set_at("8.8.8.8", info.clone(), MILLI, 0);

    assert!(cache.get_at("8.8.8.8", 0).is_some());

    assert!(cache.get_at("8.8.8.8", 10 * MILLI).is_none());
    assert_eq!(cache.stats().l1_size, 0);
}

#[test]
fn ttl_expiry_on_the_clock() {
    let mut cache = CacheLayer::new(100).unwrap();
    cache.set("8.8.8.8", test_asn_info(), Duration::from_millis(1));
    assert!(cache.get("8.8.8.8").is_some());
    let start = Instant::now();
    while start.elapsed() < Duration::from_millis(10) {}
    assert!(cache.get("8.8.8.8").is_none());
}

#[test]
fn entry_lives_until_its_expiry_inclusive() {
    let mut cache = CacheLayer::new(10).unwrap();
    cache.set_at("k", test_asn_info(), 5, 100);
    assert!(cache.get_at("k", 105).is_some());
    assert!(cache.get_at("k", 106).is_none());
    assert!(cache.get_at("k", 0).is_none());
}

#[test]
fn test_cache_invalidate() {
    let mut cache = CacheLayer::new(100).unwrap();
    let info = test_asn_info();

    cache.set("8.8.8.8", info.clone(), Duration::from_secs(60));
    assert!(cache.get("8.8.8.8").is_some());

    cache.invalidate("8.8.8.8");
    assert!(cache.get("8.8.8.8").is_none());
}

#[test]
fn test_cache_clear() {
    let mut cache = CacheLayer::new(100).unwrap();
    let info = test_asn_info();

    cache.set("8.8.8.8", info.clone(), Duration::from_secs(60));
    cache.set("1.1.1.1", info.clone(), Duration::from_secs(60));

    let stats = cache.stats();
    assert_eq!(stats.l1_size, 2);

    cache.clear();

    let stats = cache.stats();
    assert_eq!(stats.l1_size, 0);
}

#[test]
fn test_cache_stats() {
    let mut cache = CacheLayer::new(100).unwrap();
    let info = test_asn_info();

    cache.set("8.8.8.8", info.clone(), Duration::from_secs(60));

    cache.get("8.8.8.8");

    cache.get("1.1.1.1");

    let stats = cache.stats();
    assert_eq!(stats.l1_hits, 1);
    assert_eq!(stats.l1_misses, 1);
    let (hits, requests) = stats.l1_hit_rate_ratio();
    assert_eq!((hits as f64 / requests as f64) * 100.0, 50.0);
}

#[test]
fn hit_rate_is_hits_over_requests() {
    let mut cache = CacheLayer::new(10).unwrap();
    assert_eq!(cache.stats().hit_rate_ratio(), (0, 0));
    cache.set_at("a", test_asn_info(), 1000, 0);
    for _ in 0..3 {
        assert!(cache.get_at("a", 1).is_some());
    }
    assert!(cache.get_at("b", 1).is_none());
    let stats = cache.stats();
    assert_eq!(stats.hit_rate_ratio(), (3, 4));
    assert_eq!(stats.l1_hit_rate_ratio(), (3, 4));
    assert_eq!(stats.l1_capacity, 10);
}

#[test]
fn test_lru_eviction() {
    let mut cache = CacheLayer::new(2).unwrap();
    let info = test_asn_info();

    cache.set("key1", info.clone(), Duration::from_secs(60));
    cache.set("key2", info.clone(), Duration::from_secs(60));

    cache.set("key3", info.clone(), Duration::from_secs(60));

    assert!(cache.get("key1").is_none());
    assert!(cache.get("key2").is_some());
    assert!(cache.get("key3").is_some());
}

#[test]
fn a_read_protects_an_entry_from_eviction() {
    let mut cache = CacheLayer::new(2).unwrap();
    cache.set_at("key1", test_asn_info(), 1000, 0);
    cache.set_at("key2", test_asn_info(), 1000, 0);
    assert!(cache.get_at("key1", 1).is_some());
    cache.set_at("key3", test_asn_info(), 1000, 2);
    assert!(cache.get_at("key2", 3).is_none());
    assert!(cache.get_at("key1", 3).is_some());
    assert!(cache.get_at("key3", 3).is_some());
}

#[test]
fn overwriting_a_key_does_not_evict() {
    let mut cache = CacheLayer::new(2).unwrap();
    let mut other = test_asn_info();
    other.asn = Asn(13335);
    cache.set_at("key1", test_asn_info(), 1000, 0);
    cache.set_at("key2", test_asn_info(), 1000, 0);
    cache.set_at("key1", other, 1000, 0);
    assert_eq!(cache.stats().l1_size, 2);
    assert_eq!(cache.get_at("key1", 1).unwrap().asn, Asn(13335));
    assert!(cache.get_at("key2", 1).is_some());
}
