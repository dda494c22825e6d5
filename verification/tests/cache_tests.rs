use simple_cacher::FnMatcher;
use simple_cacher::PrefixMatcher;
use simple_cacher::RangeMatcher;
use simple_cacher::SimpleCacheError;
use simple_cacher::SimpleCacher;

#[test]
fn test_basic_cache_operations() {
    let mut cache = SimpleCacher::new(1000);

    cache.insert("key1".to_string(), "value1".to_string());
    assert_eq!(cache.get(&"key1".to_string()).unwrap().value(), "value1");

    assert!(matches!(
        cache.get(&"nonexistent".to_string()),
        Err(SimpleCacheError::NotFound)
    ));
}

#[test]
fn test_max_size() {
    let mut cache = SimpleCacher::with_max_size(10_000, 2);

    cache.insert(1, "value1");
    cache.insert(2, "value2");
    cache.insert(3, "value3");

    assert!(matches!(cache.get(&1), Err(SimpleCacheError::NotFound)));
    assert!(cache.get(&2).is_ok());
    assert!(cache.get(&3).is_ok());
}

#[test]
fn test_prefix_matcher() {
    let mut cache = SimpleCacher::new(10_000);

    cache.insert("prefix_key1".to_string(), "value1");
    cache.insert("prefix_key2".to_string(), "value2");
    cache.insert("other_key".to_string(), "value3");

    let matcher = PrefixMatcher::new("prefix_");
    let result = cache.get_by_matcher(&matcher);
    assert!(result.is_ok());
    assert!(result.unwrap().value().starts_with("value"));
}

#[test]
fn test_range_matcher() {
    let mut cache = SimpleCacher::new(10_000);

    cache.insert(1, "value1");
    cache.insert(5, "value5");
    cache.insert(10, "value10");
    cache.insert(15, "value15");

    let matcher = RangeMatcher::new(3, 12);
    let result = cache.get_by_matcher(&matcher);
    assert!(result.is_ok());

    let found_value = result.unwrap().value();
    assert!(found_value.to_string() == "value5" || found_value.to_string() == "value10");
}

#[test]
fn test_function_matcher() {
    let mut cache = SimpleCacher::new(10_000);

    cache.insert(2, "even");
    cache.insert(3, "odd");
    cache.insert(4, "even");
    cache.insert(5, "odd");

    let even_matcher = FnMatcher::new(|&key: &i32| key % 2 == 0);
    let result = cache.get_by_matcher(&even_matcher);
    assert!(result.is_ok());
    assert_eq!(result.unwrap().value().to_string(), "even");
}
