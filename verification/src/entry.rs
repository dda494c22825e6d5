use vstd::prelude::*;

use crate::clock::now_millis;

verus! {

/// A cached value together with its creation time and its own time-to-live.
///
/// Times are wall-clock instants in whole milliseconds; durations are in
/// milliseconds as well.  An entry is expired at instant `now` exactly when
/// more than `max_age` milliseconds have passed since `created_at`.
pub struct SimpleCacheObject<U> {
    created_at: u64,
    value: U,
    max_age: u64,
}

impl<U> SimpleCacheObject<U> {
    /// The instant, in milliseconds, at which this entry was created.
    pub closed spec fn spec_created_at(&self) -> u64 {
        self.created_at
    }

    /// The cached value.
    pub closed spec fn spec_value(&self) -> U {
        self.value
    }

    /// The time-to-live of this entry, in milliseconds.
    pub closed spec fn spec_max_age(&self) -> u64 {
        self.max_age
    }

    /// An entry is expired at `now` exactly when the time elapsed since its
    /// creation exceeds its time-to-live.
    pub open spec fn spec_expired_at(&self, now: u64) -> bool {
        now > self.spec_created_at() && now - self.spec_created_at() > self.spec_max_age()
    }

    /// The age of the entry at `now`: the time elapsed since its creation,
    /// or 0 should `now` read before the creation instant.
    pub open spec fn spec_age_at(&self, now: u64) -> u64 {
        if now >= self.spec_created_at() {
            (now - self.spec_created_at()) as u64
        } else {
            0
        }
    }

    /// The entry that caching `value` at instant `now` under time-to-live
    /// `max_age` produces.
    pub closed spec fn spec_new(value: U, max_age: u64, now: u64) -> Self {
        SimpleCacheObject { created_at: now, value, max_age }
    }

    pub(crate) fn new(value: U, max_age: u64, now: u64) -> (entry: Self)
        ensures
            entry == Self::spec_new(value, max_age, now),
    {
        Self { created_at: now, value, max_age }
    }

    /// Whether this entry is expired at the instant `now`.
    pub fn is_expired_at(&self, now: u64) -> (expired: bool)
        ensures
            expired == self.spec_expired_at(now),
    {
        now > self.created_at && now - self.created_at > self.max_age
    }

    /// Whether this entry is expired at the instant the wall clock reads now.
    pub fn is_expired(&self) -> (expired: bool)
        ensures
            exists|now: u64| expired == self.spec_expired_at(now),
    {
        let now = now_millis();
        self.is_expired_at(now)
    }

    /// A reference to the cached value.
    pub fn value(&self) -> (value: &U)
        ensures
            *value == self.spec_value(),
    {
        &self.value
    }

    /// A mutable reference to the cached value.  Writing through it changes
    /// the value alone: the creation time and the time-to-live stay as they
    /// were.
    pub fn value_mut(&mut self) -> (value: &mut U)
        ensures
            *value == old(self).spec_value(),
            final(self).spec_value() == *final(value),
            final(self).spec_created_at() == old(self).spec_created_at(),
            final(self).spec_max_age() == old(self).spec_max_age(),
    {
        &mut self.value
    }

    /// Consumes the entry and hands the cached value out.
    pub fn into_value(self) -> (value: U)
        ensures
            value == self.spec_value(),
    {
        self.value
    }

    /// The age of the entry at the instant `now`.
    pub fn age_at(&self, now: u64) -> (age: u64)
        ensures
            age == self.spec_age_at(now),
    {
        if now >= self.created_at {
            now - self.created_at
        } else {
            0
        }
    }

    /// The age of the entry at the instant the wall clock reads now.
    pub fn age(&self) -> (age: u64)
        ensures
            exists|now: u64| age == self.spec_age_at(now),
    {
        let now = now_millis();
        self.age_at(now)
    }

    /// The instant, in milliseconds, at which this entry was created.
    pub fn created_at(&self) -> (created: u64)
        ensures
            created == self.spec_created_at(),
    {
        self.created_at
    }
}

/// The entry that `spec_new` describes carries exactly the value, the
/// time-to-live and the creation instant handed to it.
pub broadcast proof fn lemma_spec_new_parts<U>(value: U, max_age: u64, now: u64)
    ensures
        (#[trigger] SimpleCacheObject::spec_new(value, max_age, now)).spec_created_at() == now,
        SimpleCacheObject::spec_new(value, max_age, now).spec_value() == value,
        SimpleCacheObject::spec_new(value, max_age, now).spec_max_age() == max_age,
{
}

impl<U: Clone> Clone for SimpleCacheObject<U> {
    /// The clone keeps the creation time and the time-to-live; the value is
    /// whatever `U::clone` gives for the cached value.
    fn clone(&self) -> (other: Self)
        ensures
            other.spec_created_at() == self.spec_created_at(),
            other.spec_max_age() == self.spec_max_age(),
            cloned::<U>(self.spec_value(), other.spec_value()),
    {
        SimpleCacheObject {
            created_at: self.created_at,
            value: self.value.clone(),
            max_age: self.max_age,
        }
    }
}

} // verus!
