//! The operations without an explicit instant read the wall clock; these
//! run them against real elapsed time.

use std::time::Duration;
use std::time::Instant;

use simple_cacher::SimpleCacher;

fn wait_millis(ms: u64) {
    let start = Instant::now();
    while start.elapsed() < Duration::from_millis(ms) {}
}

#[test]
fn wall_clock_cleanup_removes_an_entry_that_aged_out() {
    let mut cache: SimpleCacher<String, i32> = SimpleCacher::new(10_000);
    cache.insert_with_ttl("a".to_string(), 1, 150);
    assert_eq!(*cache.get(&"a".to_string()).unwrap().value(), 1);
    assert_eq!(cache.len(), 1);

    wait_millis(500);
    assert_eq!(cache.cleanup_expired(), 1);
    assert_eq!(cache.len(), 0);
}

#[test]
fn wall_clock_entries_outlive_short_waits() {
    let mut cache: SimpleCacher<String, i32> = SimpleCacher::new(60_000);
    cache.insert("a".to_string(), 1);
    wait_millis(50);
    assert!(cache.contains_key(&"a".to_string()));
    assert_eq!(cache.cleanup_expired(), 0);
    assert_eq!(*cache.get(&"a".to_string()).unwrap().value(), 1);
    assert!(cache.get(&"a".to_string()).unwrap().age() >= 50);
}
