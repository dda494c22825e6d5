//! Scenarios pinned at explicit instants: the `_at` operations take the
//! clock reading as an argument, so every outcome here is deterministic.

use simple_cacher::PrefixMatcher;
use simple_cacher::RangeMatcher;
use simple_cacher::SimpleCacheError;
use simple_cacher::SimpleCacher;

#[test]
fn expired_get_reports_expired_then_not_found() {
    let mut cache: SimpleCacher<String, i32> = SimpleCacher::new(100);

    cache.insert_at("a".to_string(), 1, 0);
    assert_eq!(*cache.get_at(&"a".to_string(), 0).unwrap().value(), 1);

    assert!(matches!(
        cache.get_at(&"a".to_string(), 150),
        Err(SimpleCacheError::Expired)
    ));
    assert!(matches!(
        cache.get_at(&"a".to_string(), 150),
        Err(SimpleCacheError::NotFound)
    ));
}

#[test]
fn entry_lives_exactly_its_time_to_live() {
    let mut cache: SimpleCacher<String, i32> = SimpleCacher::new(100);

    cache.insert_at("a".to_string(), 1, 500);
    // at creation time plus the time-to-live the entry still answers
    assert!(cache.get_at(&"a".to_string(), 600).is_ok());
    // one millisecond later it is expired
    assert!(matches!(
        cache.get_at(&"a".to_string(), 601),
        Err(SimpleCacheError::Expired)
    ));
}

#[test]
fn capacity_two_evicts_the_oldest() {
    let mut cache = SimpleCacher::with_max_size(10_000, 2);

    cache.insert_at(1, "v1", 0);
    cache.insert_at(2, "v2", 0);
    cache.insert_at(3, "v3", 0);

    assert!(matches!(cache.get_at(&1, 0), Err(SimpleCacheError::NotFound)));
    assert_eq!(*cache.get_at(&2, 0).unwrap().value(), "v2");
    assert_eq!(*cache.get_at(&3, 0).unwrap().value(), "v3");
}

#[test]
fn prefix_query_returns_all_matching_keys() {
    let mut cache: SimpleCacher<String, i32> = SimpleCacher::new(10_000);

    cache.insert_at("user:alice".to_string(), 1, 0);
    cache.insert_at("user:bob".to_string(), 2, 0);
    cache.insert_at("admin:carl".to_string(), 3, 0);

    let matcher = PrefixMatcher::new("user:");
    let users = cache.get_all_by_matcher_at(&matcher, 0);
    assert_eq!(users.len(), 2);
    assert_eq!(users[0].0, "user:alice");
    assert_eq!(users[1].0, "user:bob");
}

#[test]
fn range_query_finds_the_key_inside_the_bounds() {
    let mut cache = SimpleCacher::new(10_000);

    cache.insert_at(5, "a", 0);
    cache.insert_at(10, "b", 0);
    cache.insert_at(15, "c", 0);

    let matcher = RangeMatcher::new(6, 12);
    let result = cache.get_by_matcher_at(&matcher, 0);
    assert_eq!(*result.unwrap().value(), "b");
}

#[test]
fn cleanup_counts_and_removes_the_expired_entry() {
    let mut cache: SimpleCacher<String, i32> = SimpleCacher::new(10_000);

    cache.insert_with_ttl_at("a".to_string(), 1, 50, 0);
    assert_eq!(cache.cleanup_expired_at(60), 1);
    assert_eq!(cache.len(), 0);
}

#[test]
fn capacity_zero_briefly_holds_one_entry() {
    // a capacity of zero cannot be kept strictly: eviction empties the
    // store, then the insert at hand still goes through, so the store
    // holds one entry until the next insert evicts it
    let mut cache: SimpleCacher<i32, i32> = SimpleCacher::with_max_size(1000, 0);

    cache.insert_at(1, 10, 0);
    assert_eq!(cache.len(), 1);
    cache.insert_at(2, 20, 0);
    assert_eq!(cache.len(), 1);
    assert!(cache.get_at(&1, 0).is_err());
    assert_eq!(*cache.get_at(&2, 0).unwrap().value(), 20);
}
