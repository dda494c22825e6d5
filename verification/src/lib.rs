//! An in-process key-value cache with per-entry time-to-live, lazy
//! expiration, optional capacity with first-in-first-out eviction, and
//! predicate-based lookup through the [`Matcher`] trait.
//!
//! Time is a wall-clock reading in whole milliseconds.  Every operation
//! that depends on it comes in two forms: one ending in `_at`, which takes
//! the instant as an argument and whose contract pins the outcome exactly,
//! and one without, which reads the wall clock and behaves as the `_at`
//! form does at whatever instant the clock gave.  Expired entries are
//! never swept in the background: they linger until a lookup, a pattern
//! query or an explicit cleanup discovers them.

mod clock;
pub mod entry;
pub mod laws;
pub mod matcher;
pub mod store;

pub use entry::SimpleCacheObject;
pub use matcher::ContainsMatcher;
pub use matcher::ExactMatcher;
pub use matcher::FnMatcher;
pub use matcher::Matcher;
pub use matcher::PrefixMatcher;
pub use matcher::RangeMatcher;
pub use matcher::SuffixMatcher;
pub use store::CacheStats;
pub use store::SimpleCacheError;
pub use store::SimpleCacher;
