//! One concrete check for each of the library's stated laws, and the edge
//! cases around them.

use simple_cacher::ContainsMatcher;
use simple_cacher::ExactMatcher;
use simple_cacher::PrefixMatcher;
use simple_cacher::SimpleCacheError;
use simple_cacher::SimpleCacher;
use simple_cacher::SuffixMatcher;

#[test]
fn insert_then_get_returns_the_value() {
    let mut cache: SimpleCacher<String, u32> = SimpleCacher::new(5000);
    cache.insert_at("k".to_string(), 7, 100);
    let entry = cache.get_at(&"k".to_string(), 4_000).unwrap();
    assert_eq!(*entry.value(), 7);
    assert_eq!(entry.created_at(), 100);
}

#[test]
fn reinsert_replaces_and_moves_to_most_recent() {
    let mut cache = SimpleCacher::with_max_size(10_000, 2);
    cache.insert_at("a".to_string(), 1, 0);
    cache.insert_at("b".to_string(), 2, 0);
    // re-inserting "a" moves it to the most recent position, so the next
    // insert evicts "b", the oldest
    cache.insert_at("a".to_string(), 3, 1);
    cache.insert_at("c".to_string(), 4, 2);
    assert!(matches!(
        cache.get_at(&"b".to_string(), 2),
        Err(SimpleCacheError::NotFound)
    ));
    assert_eq!(*cache.get_at(&"a".to_string(), 2).unwrap().value(), 3);
    assert_eq!(*cache.get_at(&"c".to_string(), 2).unwrap().value(), 4);
}

#[test]
fn fifo_eviction_drops_only_the_first_key() {
    let mut cache = SimpleCacher::with_max_size(10_000, 3);
    cache.insert_at(1, "a", 0);
    cache.insert_at(2, "b", 0);
    cache.insert_at(3, "c", 0);
    cache.insert_at(4, "d", 0);
    assert!(!cache.contains_key_at(&1, 0));
    assert!(cache.contains_key_at(&2, 0));
    assert!(cache.contains_key_at(&3, 0));
    assert!(cache.contains_key_at(&4, 0));
    assert_eq!(cache.len(), 3);
}

#[test]
fn matcher_queries_skip_expired_entries() {
    let mut cache: SimpleCacher<String, i32> = SimpleCacher::new(10_000);
    cache.insert_with_ttl_at("user:old".to_string(), 1, 10, 0);
    cache.insert_at("user:new".to_string(), 2, 0);

    // at instant 50 the first entry is expired: the query must not return
    // it, and removes it on the way
    let matcher = PrefixMatcher::new("user:");
    let found = cache.get_by_matcher_at(&matcher, 50).unwrap();
    assert_eq!(*found.value(), 2);
    assert_eq!(cache.len(), 1);

    let all = cache.get_all_by_matcher_at(&matcher, 50);
    assert_eq!(all.len(), 1);
    assert_eq!(all[0].0, "user:new");
}

#[test]
fn matcher_query_matching_only_expired_reports_not_found() {
    let mut cache: SimpleCacher<String, i32> = SimpleCacher::new(10_000);
    cache.insert_with_ttl_at("user:old".to_string(), 1, 10, 0);
    cache.insert_at("other".to_string(), 2, 0);

    let matcher = PrefixMatcher::new("user:");
    assert!(matches!(
        cache.get_by_matcher_at(&matcher, 50),
        Err(SimpleCacheError::NotFound)
    ));
    // the expired entry was cleaned up even though nothing matched
    assert_eq!(cache.len(), 1);
}

#[test]
fn cleanup_is_exact_and_keeps_the_active_order() {
    let mut cache: SimpleCacher<String, i32> = SimpleCacher::new(10_000);
    cache.insert_with_ttl_at("a".to_string(), 1, 10, 0);
    cache.insert_at("b".to_string(), 2, 0);
    cache.insert_with_ttl_at("c".to_string(), 3, 20, 0);
    cache.insert_at("d".to_string(), 4, 0);

    assert_eq!(cache.cleanup_expired_at(30), 2);
    assert_eq!(cache.len(), 2);
    let remaining = cache.iter_active_at(30);
    assert_eq!(remaining.len(), 2);
    assert_eq!(remaining[0].0, "b");
    assert_eq!(remaining[1].0, "d");

    // a second cleanup at the same instant finds nothing left to remove
    assert_eq!(cache.cleanup_expired_at(30), 0);
}

#[test]
fn removing_an_absent_key_changes_nothing() {
    let mut cache: SimpleCacher<String, i32> = SimpleCacher::new(10_000);
    cache.insert_at("a".to_string(), 1, 0);
    assert!(cache.remove(&"missing".to_string()).is_none());
    assert_eq!(cache.len(), 1);

    let removed = cache.remove(&"a".to_string()).unwrap();
    assert_eq!(removed.into_value(), 1);
    assert_eq!(cache.len(), 0);
}

#[test]
fn remove_returns_an_expired_entry_too() {
    let mut cache: SimpleCacher<String, i32> = SimpleCacher::new(10_000);
    cache.insert_with_ttl_at("a".to_string(), 5, 10, 0);
    // long expired, yet remove still hands the entry out
    let removed = cache.remove(&"a".to_string()).unwrap();
    assert!(removed.is_expired_at(1000));
    assert_eq!(removed.into_value(), 5);
}

#[test]
fn contains_key_peeks_without_removing() {
    let mut cache: SimpleCacher<String, i32> = SimpleCacher::new(10_000);
    cache.insert_with_ttl_at("a".to_string(), 1, 10, 0);
    assert!(cache.contains_key_at(&"a".to_string(), 5));
    assert!(!cache.contains_key_at(&"a".to_string(), 50));
    // the expired entry is still there: contains_key never cleans up
    assert_eq!(cache.len(), 1);
    assert!(!cache.contains_key_at(&"missing".to_string(), 5));
}

#[test]
fn entry_ages_and_expires_by_its_own_clock_reading() {
    let mut cache: SimpleCacher<String, i32> = SimpleCacher::new(100);
    cache.insert_at("a".to_string(), 1, 500);
    let entry = cache.get_at(&"a".to_string(), 550).unwrap();
    assert_eq!(entry.created_at(), 500);
    assert_eq!(entry.age_at(550), 50);
    assert_eq!(entry.age_at(400), 0);
    assert!(!entry.is_expired_at(600));
    assert!(entry.is_expired_at(601));
}

#[test]
fn get_mut_changes_the_value_in_place() {
    let mut cache: SimpleCacher<String, u32> = SimpleCacher::new(10_000);
    cache.insert_at("counter".to_string(), 0, 0);
    {
        let entry = cache.get_mut_at(&"counter".to_string(), 1).unwrap();
        *entry.value_mut() += 1;
    }
    let entry = cache.get_at(&"counter".to_string(), 2).unwrap();
    assert_eq!(*entry.value(), 1);
    // mutating the value never disturbs the creation time
    assert_eq!(entry.created_at(), 0);
}

#[test]
fn stats_split_total_into_active_and_expired() {
    let mut cache = SimpleCacher::with_max_size(10_000, 5);
    cache.insert_with_ttl_at("a".to_string(), 1, 10, 0);
    cache.insert_at("b".to_string(), 2, 0);
    let stats = cache.stats_at(50);
    assert_eq!(stats.total_entries, 2);
    assert_eq!(stats.active_entries, 1);
    assert_eq!(stats.expired_entries, 1);
    assert_eq!(stats.max_size, Some(5));
    assert_eq!(stats.max_age, 10_000);
    // computing statistics removed nothing
    assert_eq!(cache.len(), 2);
}

#[test]
fn empty_store_reports_empty() {
    let mut cache: SimpleCacher<String, String> = SimpleCacher::new(10_000);
    assert!(cache.is_empty());
    assert_eq!(cache.len(), 0);
    assert_eq!(cache.active_len_at(0), 0);
    cache.insert_at("a".to_string(), "x".to_string(), 0);
    assert!(!cache.is_empty());
    cache.clear();
    assert!(cache.is_empty());
}

#[test]
fn exact_matcher_answers_one_key() {
    let mut cache: SimpleCacher<String, i32> = SimpleCacher::new(10_000);
    cache.insert_at("alpha".to_string(), 1, 0);
    cache.insert_at("beta".to_string(), 2, 0);
    let matcher = ExactMatcher::new("beta".to_string());
    assert_eq!(*cache.get_by_matcher_at(&matcher, 0).unwrap().value(), 2);
    let matcher = ExactMatcher::new("gamma".to_string());
    assert!(cache.get_by_matcher_at(&matcher, 0).is_err());
}

#[test]
fn suffix_matcher_picks_the_file_extension() {
    let mut cache: SimpleCacher<String, i32> = SimpleCacher::new(10_000);
    cache.insert_at("document.pdf".to_string(), 1, 0);
    cache.insert_at("image.jpg".to_string(), 2, 0);
    cache.insert_at("script.js".to_string(), 3, 0);
    let matcher = SuffixMatcher::new(".pdf");
    let pdfs = cache.get_all_by_matcher_at(&matcher, 0);
    assert_eq!(pdfs.len(), 1);
    assert_eq!(pdfs[0].0, "document.pdf");
}

#[test]
fn contains_matcher_finds_the_substring_anywhere() {
    let mut cache: SimpleCacher<String, i32> = SimpleCacher::new(10_000);
    cache.insert_at("user_profile_123".to_string(), 1, 0);
    cache.insert_at("user_settings_456".to_string(), 2, 0);
    cache.insert_at("admin_config".to_string(), 3, 0);
    let matcher = ContainsMatcher::new("profile");
    let found = cache.get_all_by_matcher_at(&matcher, 0);
    assert_eq!(found.len(), 1);
    assert_eq!(found[0].0, "user_profile_123");
    // a substring absent from every key matches nothing
    let matcher = ContainsMatcher::new("missing");
    assert!(cache.get_all_by_matcher_at(&matcher, 0).is_empty());
}

#[test]
fn iter_active_keeps_order_and_removes_nothing() {
    let mut cache: SimpleCacher<String, i32> = SimpleCacher::new(10_000);
    cache.insert_at("a".to_string(), 1, 0);
    cache.insert_with_ttl_at("b".to_string(), 2, 10, 0);
    cache.insert_at("c".to_string(), 3, 0);
    let active = cache.iter_active_at(50);
    assert_eq!(active.len(), 2);
    assert_eq!(active[0].0, "a");
    assert_eq!(active[1].0, "c");
    assert_eq!(*active[1].1.value(), 3);
    assert_eq!(cache.len(), 3);
}
