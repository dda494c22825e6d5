use vstd::prelude::*;
use vstd::std_specs::cmp::PartialEqSpec;

use crate::clock::now_millis;
use crate::entry::SimpleCacheObject;
use crate::entry::lemma_spec_new_parts;
use crate::matcher::Matcher;

verus! {

broadcast use lemma_spec_new_parts, vstd::seq_lib::group_seq_lib_default;

/// The two ways a lookup can fail.
#[derive(Debug, Clone, PartialEq, Eq, Structural)]
pub enum SimpleCacheError {
    /// The key was not present, or no key matched.
    NotFound,
    /// The key was present but its time-to-live had elapsed; the entry was
    /// removed as a side effect of discovering that.
    Expired,
}

/// A snapshot of the store's state: how many entries it holds, how many of
/// them are active and expired, and its configuration.  Computed on demand,
/// never stored.
#[derive(Debug, Clone)]
pub struct CacheStats {
    /// Total number of entries, the expired ones included.
    pub total_entries: usize,
    /// Number of entries not expired.
    pub active_entries: usize,
    /// Number of expired entries not yet cleaned up.
    pub expired_entries: usize,
    /// The capacity, or `None` for an unbounded store.
    pub max_size: Option<usize>,
    /// The default time-to-live of new entries, in milliseconds.
    pub max_age: u64,
}

/// A key-value cache: an insertion-ordered sequence of unique keys, each
/// with one entry, under a default time-to-live and an optional capacity.
pub struct SimpleCacher<T, U> {
    cache: Vec<(T, SimpleCacheObject<U>)>,
    max_age: u64,
    max_size: Option<usize>,
}

impl<T, U> View for SimpleCacher<T, U> {
    type V = Seq<(T, SimpleCacheObject<U>)>;

    closed spec fn view(&self) -> Seq<(T, SimpleCacheObject<U>)> {
        self.cache@
    }
}

/// What the `==` of the key type must be for keys to behave as keys: an
/// equivalence relation.  `Eq` documents exactly this of every lawful
/// implementation.
pub open spec fn eq_is_equivalence<T: PartialEq>() -> bool {
    &&& forall|a: T| #[trigger] a.eq_spec(&a)
    &&& forall|a: T, b: T| #[trigger] a.eq_spec(&b) ==> b.eq_spec(&a)
    &&& forall|a: T, b: T, c: T|
        #[trigger] a.eq_spec(&b) && #[trigger] b.eq_spec(&c) ==> a.eq_spec(&c)
}

/// Whether the entry at position `i` is stored under a key that answers the
/// query `key`: its key, compared with `key`, says they are equal.
pub open spec fn key_matches_at<T: PartialEq, U>(
    s: Seq<(T, SimpleCacheObject<U>)>,
    key: T,
    i: int,
) -> bool {
    s[i].0.eq_spec(&key)
}

/// Whether some entry of `s` is stored under a key that answers `key`.
pub open spec fn has_key<T: PartialEq, U>(s: Seq<(T, SimpleCacheObject<U>)>, key: T) -> bool {
    exists|i: int| 0 <= i < s.len() && #[trigger] key_matches_at(s, key, i)
}

/// Whether `i` is the first position of `s` whose key answers `key`.
pub open spec fn is_first_match<T: PartialEq, U>(
    s: Seq<(T, SimpleCacheObject<U>)>,
    key: T,
    i: int,
) -> bool {
    &&& 0 <= i < s.len()
    &&& key_matches_at(s, key, i)
    &&& forall|j: int| 0 <= j < i ==> !#[trigger] key_matches_at(s, key, j)
}

/// The first position of `s` whose key answers `key`; meaningful only when
/// `has_key(s, key)` holds.
pub open spec fn first_match<T: PartialEq, U>(s: Seq<(T, SimpleCacheObject<U>)>, key: T) -> int {
    choose|i: int| is_first_match(s, key, i)
}

/// No two entries are stored under keys that answer one another.
pub open spec fn keys_distinct<T: PartialEq, U>(s: Seq<(T, SimpleCacheObject<U>)>) -> bool {
    forall|i: int, j: int|
        0 <= i < s.len() && 0 <= j < s.len() && i != j ==> !#[trigger] key_matches_at(s, s[j].0, i)
}

/// What eviction does to a store of `s` under capacity `max_size`: entries
/// leave from the front, oldest first, until fewer than `max_size` remain.
/// A capacity of zero empties the store, after which a single insert still
/// goes through: the store then briefly holds one entry.
pub open spec fn spec_evict<T, U>(
    s: Seq<(T, SimpleCacheObject<U>)>,
    max_size: Option<usize>,
) -> Seq<(T, SimpleCacheObject<U>)> {
    match max_size {
        None => s,
        Some(n) => if n == 0 {
            Seq::empty()
        } else if s.len() >= n {
            s.skip(s.len() - (n - 1))
        } else {
            s
        },
    }
}

/// `s` without the first entry whose key answers `key`, or `s` itself when
/// none does.
pub open spec fn spec_remove_key<T: PartialEq, U>(
    s: Seq<(T, SimpleCacheObject<U>)>,
    key: T,
) -> Seq<(T, SimpleCacheObject<U>)> {
    if has_key(s, key) {
        s.remove(first_match(s, key))
    } else {
        s
    }
}

/// What inserting `value` under `key` at instant `now` does to a store of
/// `s`: eviction brings the store under its capacity, any prior entry for
/// `key` leaves, and the fresh entry joins at the back, in the most recently
/// inserted position.
pub open spec fn spec_insert<T: PartialEq, U>(
    s: Seq<(T, SimpleCacheObject<U>)>,
    key: T,
    value: U,
    max_age: u64,
    now: u64,
    max_size: Option<usize>,
) -> Seq<(T, SimpleCacheObject<U>)> {
    spec_remove_key(spec_evict(s, max_size), key).push(
        (key, SimpleCacheObject::spec_new(value, max_age, now)),
    )
}

/// Whether `key` is present in `s` and its entry not expired at `now`.
pub open spec fn spec_contains<T: PartialEq, U>(
    s: Seq<(T, SimpleCacheObject<U>)>,
    key: T,
    now: u64,
) -> bool {
    has_key(s, key) && !s[first_match(s, key)].1.spec_expired_at(now)
}

/// Holding of the entries that are not expired at `now`.
pub open spec fn entry_active<T, U>(now: u64) -> spec_fn((T, SimpleCacheObject<U>)) -> bool {
    |p: (T, SimpleCacheObject<U>)| !p.1.spec_expired_at(now)
}

/// What removing every entry expired at `now` leaves of a store of `s`:
/// the active entries, in their order.
pub open spec fn spec_cleanup<T, U>(
    s: Seq<(T, SimpleCacheObject<U>)>,
    now: u64,
) -> Seq<(T, SimpleCacheObject<U>)> {
    s.filter(entry_active(now))
}

/// How `copy` may relate to `orig` after cloning a snapshot entry: the key
/// is whatever the key type's `clone` gives, the creation time and the
/// time-to-live carry over, and the value is whatever the value type's
/// `clone` gives.
pub open spec fn entry_cloned<T: Clone, U: Clone>(
    orig: (T, SimpleCacheObject<U>),
    copy: (T, SimpleCacheObject<U>),
) -> bool {
    &&& cloned::<T>(orig.0, copy.0)
    &&& copy.1.spec_created_at() == orig.1.spec_created_at()
    &&& copy.1.spec_max_age() == orig.1.spec_max_age()
    &&& cloned::<U>(orig.1.spec_value(), copy.1.spec_value())
}

/// Holding of the entries whose key the matcher accepts.
pub open spec fn matcher_accepts<T, U, M: Matcher<T>>(matcher: M) -> spec_fn(
    (T, SimpleCacheObject<U>),
) -> bool {
    |p: (T, SimpleCacheObject<U>)| matcher.spec_matches(&p.0)
}

/// Whether the entry at position `i` of `s` is one a pattern query returns:
/// not expired at `now`, and its key accepted by the matcher.
pub open spec fn active_match_at<T, U, M: Matcher<T>>(
    s: Seq<(T, SimpleCacheObject<U>)>,
    matcher: M,
    now: u64,
    i: int,
) -> bool {
    &&& !s[i].1.spec_expired_at(now)
    &&& matcher.spec_matches(&s[i].0)
}

/// Whether some entry of `s` is active at `now` and accepted.
pub open spec fn has_active_match<T, U, M: Matcher<T>>(
    s: Seq<(T, SimpleCacheObject<U>)>,
    matcher: M,
    now: u64,
) -> bool {
    exists|i: int| 0 <= i < s.len() && #[trigger] active_match_at(s, matcher, now, i)
}

/// Whether `i` is the first position of `s` active at `now` and accepted.
pub open spec fn is_first_active_match<T, U, M: Matcher<T>>(
    s: Seq<(T, SimpleCacheObject<U>)>,
    matcher: M,
    now: u64,
    i: int,
) -> bool {
    &&& 0 <= i < s.len()
    &&& active_match_at(s, matcher, now, i)
    &&& forall|j: int| 0 <= j < i ==> !#[trigger] active_match_at(s, matcher, now, j)
}

/// The first position of `s` active at `now` and accepted; meaningful only
/// when `has_active_match(s, matcher, now)` holds.
pub open spec fn first_active_match<T, U, M: Matcher<T>>(
    s: Seq<(T, SimpleCacheObject<U>)>,
    matcher: M,
    now: u64,
) -> int {
    choose|i: int| is_first_active_match(s, matcher, now, i)
}

/// What `get` does to a store of `s` queried for `key` at instant `now`:
/// the store afterwards, and the outcome.  An absent key leaves the store
/// as it was and fails `NotFound`; an expired entry is removed and the call
/// fails `Expired`; otherwise the entry is returned and nothing changes.
pub open spec fn spec_get<T: PartialEq, U>(
    s: Seq<(T, SimpleCacheObject<U>)>,
    key: T,
    now: u64,
) -> (Seq<(T, SimpleCacheObject<U>)>, Result<SimpleCacheObject<U>, SimpleCacheError>) {
    if !has_key(s, key) {
        (s, Err(SimpleCacheError::NotFound))
    } else {
        let i = first_match(s, key);
        if s[i].1.spec_expired_at(now) {
            (s.remove(i), Err(SimpleCacheError::Expired))
        } else {
            (s, Ok(s[i].1))
        }
    }
}

/// Among the positions of `s`, a first one answering `key` exists as soon as
/// any does.
proof fn lemma_first_match_exists<T: PartialEq, U>(
    s: Seq<(T, SimpleCacheObject<U>)>,
    key: T,
    i: int,
)
    requires
        0 <= i < s.len(),
        key_matches_at(s, key, i),
    ensures
        is_first_match(s, key, first_match(s, key)),
    decreases i,
{
    if exists|j: int| 0 <= j < i && #[trigger] key_matches_at(s, key, j) {
        let j = choose|j: int| 0 <= j < i && #[trigger] key_matches_at(s, key, j);
        lemma_first_match_exists(s, key, j);
    } else {
        assert(is_first_match(s, key, i));
        let f = first_match(s, key);
        assert(is_first_match(s, key, f));
    }
}

/// The first match is the only position that `is_first_match` admits.
pub(crate) proof fn lemma_first_match_agrees<T: PartialEq, U>(
    s: Seq<(T, SimpleCacheObject<U>)>,
    key: T,
    i: int,
)
    requires
        is_first_match(s, key, i),
    ensures
        first_match(s, key) == i,
{
    lemma_first_match_exists(s, key, i);
    let f = first_match(s, key);
    if f < i {
        assert(!key_matches_at(s, key, f));
    } else if i < f {
        assert(!key_matches_at(s, key, i));
    }
}

/// What `filter` keeps of a one-entry sequence.
proof fn lemma_filter_singleton<A>(x: A, pred: spec_fn(A) -> bool)
    ensures
        seq![x].filter(pred) == if pred(x) {
            seq![x]
        } else {
            Seq::<A>::empty()
        },
{
    reveal_with_fuel(Seq::filter, 2);
    assert(seq![x].drop_last() =~= Seq::<A>::empty());
    assert(seq![x].last() == x);
    if pred(x) {
        assert(seq![x].filter(pred) =~= seq![x]);
    } else {
        assert(seq![x].filter(pred) =~= Seq::<A>::empty());
    }
}

/// How `filter` of a prefix grows as the prefix takes in one more element.
proof fn lemma_filter_take_step<A>(s: Seq<A>, i: int, pred: spec_fn(A) -> bool)
    requires
        0 <= i < s.len(),
    ensures
        s.take(i + 1).filter(pred) == if pred(s[i]) {
            s.take(i).filter(pred).push(s[i])
        } else {
            s.take(i).filter(pred)
        },
{
    reveal_with_fuel(Seq::filter, 2);
    let t = s.take(i + 1);
    assert(t.drop_last() =~= s.take(i));
    assert(t.last() == s[i]);
    assert(t.filter(pred) == if pred(t.last()) {
        t.drop_last().filter(pred).push(t.last())
    } else {
        t.drop_last().filter(pred)
    });
}

/// Among the positions of `s` active at `now` and accepted, a first one
/// exists as soon as any does.
proof fn lemma_first_active_match_exists<T, U, M: Matcher<T>>(
    s: Seq<(T, SimpleCacheObject<U>)>,
    matcher: M,
    now: u64,
    i: int,
)
    requires
        0 <= i < s.len(),
        active_match_at(s, matcher, now, i),
    ensures
        is_first_active_match(s, matcher, now, first_active_match(s, matcher, now)),
    decreases i,
{
    if exists|j: int| 0 <= j < i && #[trigger] active_match_at(s, matcher, now, j) {
        let j = choose|j: int| 0 <= j < i && #[trigger] active_match_at(s, matcher, now, j);
        lemma_first_active_match_exists(s, matcher, now, j);
    } else {
        assert(is_first_active_match(s, matcher, now, i));
        let f = first_active_match(s, matcher, now);
        assert(is_first_active_match(s, matcher, now, f));
    }
}

/// The first active match is the only position that `is_first_active_match`
/// admits.
proof fn lemma_first_active_match_agrees<T, U, M: Matcher<T>>(
    s: Seq<(T, SimpleCacheObject<U>)>,
    matcher: M,
    now: u64,
    i: int,
)
    requires
        is_first_active_match(s, matcher, now, i),
    ensures
        first_active_match(s, matcher, now) == i,
{
    lemma_first_active_match_exists(s, matcher, now, i);
    let f = first_active_match(s, matcher, now);
    if f < i {
        assert(!active_match_at(s, matcher, now, f));
    } else if i < f {
        assert(!active_match_at(s, matcher, now, i));
    }
}

/// Removing an entry cannot make two keys answer one another.
proof fn lemma_keys_distinct_remove<T: PartialEq, U>(s: Seq<(T, SimpleCacheObject<U>)>, i: int)
    requires
        keys_distinct(s),
        0 <= i < s.len(),
    ensures
        keys_distinct(s.remove(i)),
{
    let r = s.remove(i);
    assert forall|p: int, q: int|
        0 <= p < r.len() && 0 <= q < r.len() && p != q implies !#[trigger] key_matches_at(
        r,
        r[q].0,
        p,
    ) by {
        let p0: int = if p < i { p } else { p + 1 };
        let q0: int = if q < i { q } else { q + 1 };
        assert(r[p] == s[p0]);
        assert(r[q] == s[q0]);
        assert(!key_matches_at(s, s[q0].0, p0));
    }
}

/// Dropping a prefix cannot make two keys answer one another.
proof fn lemma_keys_distinct_skip<T: PartialEq, U>(s: Seq<(T, SimpleCacheObject<U>)>, n: int)
    requires
        keys_distinct(s),
        0 <= n <= s.len(),
    ensures
        keys_distinct(s.skip(n)),
{
    let r = s.skip(n);
    assert forall|p: int, q: int|
        0 <= p < r.len() && 0 <= q < r.len() && p != q implies !#[trigger] key_matches_at(
        r,
        r[q].0,
        p,
    ) by {
        assert(r[p] == s[p + n]);
        assert(r[q] == s[q + n]);
        assert(!key_matches_at(s, s[q + n].0, p + n));
    }
}

/// Eviction leaves distinct keys distinct.
pub(crate) proof fn lemma_keys_distinct_evict<T: PartialEq, U>(
    s: Seq<(T, SimpleCacheObject<U>)>,
    max_size: Option<usize>,
)
    requires
        keys_distinct(s),
    ensures
        keys_distinct(spec_evict(s, max_size)),
{
    match max_size {
        None => {},
        Some(n) => {
            if n == 0 {
                assert(keys_distinct(spec_evict(s, max_size)));
            } else if s.len() >= n {
                lemma_keys_distinct_skip(s, s.len() - (n - 1));
            }
        },
    }
}

/// After the first entry answering `key` has left, none answers it: under
/// a lawful `==`, two distinct stored keys cannot both answer one query.
pub(crate) proof fn lemma_remove_key_no_match<T: PartialEq, U>(
    s: Seq<(T, SimpleCacheObject<U>)>,
    key: T,
)
    requires
        keys_distinct(s),
        eq_is_equivalence::<T>(),
    ensures
        forall|p: int|
            0 <= p < spec_remove_key(s, key).len() ==> !#[trigger] key_matches_at(
                spec_remove_key(s, key),
                key,
                p,
            ),
{
    let rm = spec_remove_key(s, key);
    if has_key(s, key) {
        let f = first_match(s, key);
        let w = choose|i: int| 0 <= i < s.len() && #[trigger] key_matches_at(s, key, i);
        lemma_first_match_exists(s, key, w);
        assert forall|p: int| 0 <= p < rm.len() implies !#[trigger] key_matches_at(
            rm,
            key,
            p,
        ) by {
            let p0: int = if p < f { p } else { p + 1 };
            assert(rm[p] == s[p0]);
            if key_matches_at(s, key, p0) {
                if p0 < f {
                    assert(!key_matches_at(s, key, p0));
                } else {
                    // both s[p0].0 and s[f].0 answer key; under an
                    // equivalence they answer one another
                    assert(s[p0].0.eq_spec(&key));
                    assert(s[f].0.eq_spec(&key));
                    assert(key.eq_spec(&s[f].0));
                    assert(s[p0].0.eq_spec(&s[f].0));
                    assert(!key_matches_at(s, s[f].0, p0));
                }
            }
        }
    } else {
        assert forall|p: int| 0 <= p < rm.len() implies !#[trigger] key_matches_at(
            rm,
            key,
            p,
        ) by {
            if key_matches_at(rm, key, p) {
                assert(has_key(s, key));
            }
        }
    }
}

/// After an insert the stored keys stay pairwise distinct: the one entry
/// whose key answered the new key has left, and under a lawful `==` no other
/// could.
proof fn lemma_insert_keeps_keys_distinct<T: PartialEq, U>(
    s: Seq<(T, SimpleCacheObject<U>)>,
    key: T,
    obj: SimpleCacheObject<U>,
)
    requires
        keys_distinct(s),
        eq_is_equivalence::<T>(),
    ensures
        keys_distinct(spec_remove_key(s, key).push((key, obj))),
{
    let rm = spec_remove_key(s, key);
    lemma_remove_key_no_match(s, key);
    if has_key(s, key) {
        let f = first_match(s, key);
        let w = choose|i: int| 0 <= i < s.len() && #[trigger] key_matches_at(s, key, i);
        lemma_first_match_exists(s, key, w);
        lemma_keys_distinct_remove(s, f);
    }
    let out = rm.push((key, obj));
    assert forall|p: int, q: int|
        0 <= p < out.len() && 0 <= q < out.len() && p != q implies !#[trigger] key_matches_at(
        out,
        out[q].0,
        p,
    ) by {
        if p < rm.len() && q < rm.len() {
            assert(out[p] == rm[p]);
            assert(out[q] == rm[q]);
            assert(!key_matches_at(rm, rm[q].0, p));
        } else if p < rm.len() && q == rm.len() {
            assert(out[p] == rm[p]);
            assert(out[q].0 == key);
            assert(!key_matches_at(rm, key, p));
        } else {
            // p is the pushed entry: if its key answered out[q].0 then by
            // symmetry out[q].0 answers key, excluded above
            assert(out[p].0 == key);
            assert(out[q] == rm[q]);
            if key.eq_spec(&rm[q].0) {
                assert(rm[q].0.eq_spec(&key));
                assert(key_matches_at(rm, key, q));
            }
        }
    }
}

impl<T, U> SimpleCacher<T, U> where T: Clone + Eq + core::hash::Hash {
    /// The default time-to-live, in milliseconds, of entries of this store.
    pub closed spec fn spec_max_age(&self) -> u64 {
        self.max_age
    }

    /// The capacity of this store, or `None` for an unbounded one.
    pub closed spec fn spec_max_size(&self) -> Option<usize> {
        self.max_size
    }

    /// The store's invariant: stored keys are pairwise distinct.
    pub open spec fn wf(&self) -> bool {
        keys_distinct(self@)
    }

    /// An empty, unbounded store whose entries live `max_age` milliseconds.
    pub fn new(max_age: u64) -> (store: Self)
        ensures
            store@ == Seq::<(T, SimpleCacheObject<U>)>::empty(),
            store.spec_max_age() == max_age,
            store.spec_max_size() is None,
            store.wf(),
    {
        Self { cache: Vec::new(), max_age, max_size: None }
    }

    /// An empty store whose entries live `max_age` milliseconds and which
    /// holds at most `max_size` entries, the oldest leaving first.
    pub fn with_max_size(max_age: u64, max_size: usize) -> (store: Self)
        ensures
            store@ == Seq::<(T, SimpleCacheObject<U>)>::empty(),
            store.spec_max_age() == max_age,
            store.spec_max_size() == Some(max_size),
            store.wf(),
    {
        Self { cache: Vec::new(), max_age, max_size: Some(max_size) }
    }

    /// How many entries the store holds, the expired ones that no operation
    /// has discovered yet included.
    pub fn len(&self) -> (n: usize)
        ensures
            n == self@.len(),
    {
        self.cache.len()
    }

    /// Whether the store holds no entries at all.
    pub fn is_empty(&self) -> (empty: bool)
        ensures
            empty == (self@.len() == 0),
    {
        self.cache.is_empty()
    }

    /// Removes every entry, expired or not.
    pub fn clear(&mut self)
        ensures
            final(self)@ == Seq::<(T, SimpleCacheObject<U>)>::empty(),
            final(self).spec_max_age() == old(self).spec_max_age(),
            final(self).spec_max_size() == old(self).spec_max_size(),
            final(self).wf(),
    {
        self.cache.clear();
    }

    /// The position of the first entry whose key answers `key`, if any.
    fn find_index(&self, key: &T) -> (position: Option<usize>)
        requires
            T::obeys_eq_spec(),
        ensures
            match position {
                Some(i) => is_first_match(self@, *key, i as int),
                None => !has_key(self@, *key),
            },
    {
        let mut i: usize = 0;
        while i < self.cache.len()
            invariant
                T::obeys_eq_spec(),
                i <= self.cache.len(),
                forall|j: int| 0 <= j < i ==> !#[trigger] key_matches_at(self@, *key, j),
            decreases self.cache.len() - i,
        {
            if self.cache[i].0 == *key {
                return Some(i);
            }
            i += 1;
        }
        None
    }

    /// Looks the key up at instant `now`.  If the key is absent the call
    /// fails `NotFound`.  If the entry found has expired by `now` it is
    /// removed and the call fails `Expired`.  Otherwise the entry is
    /// returned and the store is left as it was.
    pub fn get_at(&mut self, key: &T, now: u64) -> (found: Result<
        &SimpleCacheObject<U>,
        SimpleCacheError,
    >)
        requires
            T::obeys_eq_spec(),
        ensures
            final(self)@ == spec_get(old(self)@, *key, now).0,
            match found {
                Ok(entry) => spec_get(old(self)@, *key, now).1
                    == Ok::<SimpleCacheObject<U>, SimpleCacheError>(*entry),
                Err(e) => spec_get(old(self)@, *key, now).1
                    == Err::<SimpleCacheObject<U>, SimpleCacheError>(e),
            },
            final(self).spec_max_age() == old(self).spec_max_age(),
            final(self).spec_max_size() == old(self).spec_max_size(),
            old(self).wf() ==> final(self).wf(),
    {
        match self.find_index(key) {
            None => Err(SimpleCacheError::NotFound),
            Some(i) => {
                proof {
                    lemma_first_match_agrees(self@, *key, i as int);
                }
                if self.cache[i].1.is_expired_at(now) {
                    self.cache.remove(i);
                    proof {
                        if old(self).wf() {
                            lemma_keys_distinct_remove(old(self)@, i as int);
                        }
                    }
                    Err(SimpleCacheError::Expired)
                } else {
                    Ok(&self.cache[i].1)
                }
            },
        }
    }

    /// Looks the key up at the instant the wall clock reads now, as `get_at`
    /// does at a given instant.
    pub fn get(&mut self, key: &T) -> (found: Result<&SimpleCacheObject<U>, SimpleCacheError>)
        requires
            T::obeys_eq_spec(),
        ensures
            exists|now: u64|
                #![auto]
                {
                    &&& final(self)@ == spec_get(old(self)@, *key, now).0
                    &&& match found {
                        Ok(entry) => spec_get(old(self)@, *key, now).1
                            == Ok::<SimpleCacheObject<U>, SimpleCacheError>(*entry),
                        Err(e) => spec_get(old(self)@, *key, now).1
                            == Err::<SimpleCacheObject<U>, SimpleCacheError>(e),
                    }
                },
            final(self).spec_max_age() == old(self).spec_max_age(),
            final(self).spec_max_size() == old(self).spec_max_size(),
            old(self).wf() ==> final(self).wf(),
    {
        let now = now_millis();
        self.get_at(key, now)
    }

    /// Brings the store under its capacity: removes the oldest entry, at the
    /// front of the insertion order, until fewer than `max_size` entries
    /// remain.  An unbounded store is left as it is.
    fn evict_to_capacity(&mut self)
        ensures
            final(self)@ == spec_evict(old(self)@, old(self).spec_max_size()),
            final(self).spec_max_age() == old(self).spec_max_age(),
            final(self).spec_max_size() == old(self).spec_max_size(),
    {
        if let Some(n) = self.max_size {
            let ghost orig = self.cache@;
            while self.cache.len() >= n && self.cache.len() > 0
                invariant
                    self.max_size == Some(n),
                    self.max_age == old(self).spec_max_age(),
                    self.cache@.len() <= orig.len(),
                    self.cache@ == orig.skip(orig.len() - self.cache@.len()),
                    n > 0 && orig.len() >= n ==> self.cache@.len() >= n - 1,
                    orig.len() < n ==> self.cache@.len() == orig.len(),
                decreases self.cache.len(),
            {
                self.cache.remove(0);
                proof {
                    assert(self.cache@ =~= orig.skip(orig.len() - self.cache@.len()));
                }
            }
            proof {
                assert(self.cache@ =~= spec_evict(orig, Some(n)));
            }
        }
    }

    /// Inserts `value` under `key` at instant `now` with the time-to-live
    /// `ttl`.  Eviction first brings a bounded store under its capacity,
    /// oldest entry first; a prior entry for `key` is replaced, and the new
    /// entry takes the most recently inserted position.
    pub fn insert_with_ttl_at(&mut self, key: T, value: U, ttl: u64, now: u64)
        requires
            T::obeys_eq_spec(),
        ensures
            final(self)@ == spec_insert(
                old(self)@,
                key,
                value,
                ttl,
                now,
                old(self).spec_max_size(),
            ),
            final(self).spec_max_age() == old(self).spec_max_age(),
            final(self).spec_max_size() == old(self).spec_max_size(),
            old(self).wf() && eq_is_equivalence::<T>() ==> final(self).wf(),
    {
        self.evict_to_capacity();
        let ghost evicted = self@;
        match self.find_index(&key) {
            Some(i) => {
                proof {
                    lemma_first_match_agrees(self@, key, i as int);
                }
                self.cache.remove(i);
            },
            None => {},
        }
        self.cache.push((key, SimpleCacheObject::new(value, ttl, now)));
        proof {
            if old(self).wf() && eq_is_equivalence::<T>() {
                lemma_keys_distinct_evict(old(self)@, old(self).spec_max_size());
                lemma_insert_keeps_keys_distinct(
                    evicted,
                    key,
                    SimpleCacheObject::spec_new(value, ttl, now),
                );
            }
        }
    }

    /// Inserts `value` under `key` at instant `now` with the store's
    /// default time-to-live.
    pub fn insert_at(&mut self, key: T, value: U, now: u64)
        requires
            T::obeys_eq_spec(),
        ensures
            final(self)@ == spec_insert(
                old(self)@,
                key,
                value,
                old(self).spec_max_age(),
                now,
                old(self).spec_max_size(),
            ),
            final(self).spec_max_age() == old(self).spec_max_age(),
            final(self).spec_max_size() == old(self).spec_max_size(),
            old(self).wf() && eq_is_equivalence::<T>() ==> final(self).wf(),
    {
        let ttl = self.max_age;
        self.insert_with_ttl_at(key, value, ttl, now)
    }

    /// Inserts `value` under `key` with the default time-to-live, at the
    /// instant the wall clock reads now.
    pub fn insert(&mut self, key: T, value: U)
        requires
            T::obeys_eq_spec(),
        ensures
            exists|now: u64|
                #![auto]
                final(self)@ == spec_insert(
                    old(self)@,
                    key,
                    value,
                    old(self).spec_max_age(),
                    now,
                    old(self).spec_max_size(),
                ),
            final(self).spec_max_age() == old(self).spec_max_age(),
            final(self).spec_max_size() == old(self).spec_max_size(),
            old(self).wf() && eq_is_equivalence::<T>() ==> final(self).wf(),
    {
        let now = now_millis();
        self.insert_at(key, value, now)
    }

    /// Inserts `value` under `key` with its own time-to-live `ttl`, at the
    /// instant the wall clock reads now.
    pub fn insert_with_ttl(&mut self, key: T, value: U, ttl: u64)
        requires
            T::obeys_eq_spec(),
        ensures
            exists|now: u64|
                #![auto]
                final(self)@ == spec_insert(
                    old(self)@,
                    key,
                    value,
                    ttl,
                    now,
                    old(self).spec_max_size(),
                ),
            final(self).spec_max_age() == old(self).spec_max_age(),
            final(self).spec_max_size() == old(self).spec_max_size(),
            old(self).wf() && eq_is_equivalence::<T>() ==> final(self).wf(),
    {
        let now = now_millis();
        self.insert_with_ttl_at(key, value, ttl, now)
    }

    /// Removes the entry stored under `key`, expired or not, and returns
    /// it; an absent key leaves the store untouched and returns nothing.
    pub fn remove(&mut self, key: &T) -> (removed: Option<SimpleCacheObject<U>>)
        requires
            T::obeys_eq_spec(),
        ensures
            match removed {
                Some(entry) => {
                    &&& has_key(old(self)@, *key)
                    &&& entry == old(self)@[first_match(old(self)@, *key)].1
                    &&& final(self)@ == old(self)@.remove(first_match(old(self)@, *key))
                },
                None => {
                    &&& !has_key(old(self)@, *key)
                    &&& final(self)@ == old(self)@
                },
            },
            final(self).spec_max_age() == old(self).spec_max_age(),
            final(self).spec_max_size() == old(self).spec_max_size(),
            old(self).wf() ==> final(self).wf(),
    {
        match self.find_index(key) {
            None => None,
            Some(i) => {
                proof {
                    lemma_first_match_agrees(self@, *key, i as int);
                    if old(self).wf() {
                        lemma_keys_distinct_remove(old(self)@, i as int);
                    }
                }
                let (_, entry) = self.cache.remove(i);
                Some(entry)
            },
        }
    }

    /// Whether `key` is present and not expired at instant `now`.  A cheap
    /// peek: nothing is removed, not even an expired entry it finds.
    pub fn contains_key_at(&self, key: &T, now: u64) -> (present: bool)
        requires
            T::obeys_eq_spec(),
        ensures
            present == spec_contains(self@, *key, now),
    {
        match self.find_index(key) {
            None => false,
            Some(i) => {
                proof {
                    lemma_first_match_agrees(self@, *key, i as int);
                }
                !self.cache[i].1.is_expired_at(now)
            },
        }
    }

    /// Whether `key` is present and not expired at the instant the wall
    /// clock reads now.  Never mutates the store.
    pub fn contains_key(&self, key: &T) -> (present: bool)
        requires
            T::obeys_eq_spec(),
        ensures
            exists|now: u64| #![auto] present == spec_contains(self@, *key, now),
    {
        let now = now_millis();
        self.contains_key_at(key, now)
    }

    /// Looks the key up at instant `now` for mutation, under the same
    /// contract as `get_at`; writing through the returned reference changes
    /// that entry's value in place and nothing else.
    pub fn get_mut_at(&mut self, key: &T, now: u64) -> (found: Result<
        &mut SimpleCacheObject<U>,
        SimpleCacheError,
    >)
        requires
            T::obeys_eq_spec(),
        ensures
            match found {
                Ok(entry) => ({
                    let i = first_match(old(self)@, *key);
                    &&& has_key(old(self)@, *key)
                    &&& !old(self)@[i].1.spec_expired_at(now)
                    &&& *entry == old(self)@[i].1
                    &&& final(self)@ == old(self)@.update(i, (old(self)@[i].0, *final(entry)))
                }),
                Err(e) => {
                    &&& final(self)@ == spec_get(old(self)@, *key, now).0
                    &&& spec_get(old(self)@, *key, now).1 == Err::<
                        SimpleCacheObject<U>,
                        SimpleCacheError,
                    >(e)
                },
            },
            final(self).spec_max_age() == old(self).spec_max_age(),
            final(self).spec_max_size() == old(self).spec_max_size(),
            old(self).wf() ==> final(self).wf(),
    {
        match self.find_index(key) {
            None => Err(SimpleCacheError::NotFound),
            Some(i) => {
                proof {
                    lemma_first_match_agrees(self@, *key, i as int);
                }
                if self.cache[i].1.is_expired_at(now) {
                    self.cache.remove(i);
                    proof {
                        if old(self).wf() {
                            lemma_keys_distinct_remove(old(self)@, i as int);
                        }
                    }
                    Err(SimpleCacheError::Expired)
                } else {
                    proof {
                        if old(self).wf() {
                            // replacing an entry's value in place keeps the
                            // stored keys as they are, whatever is written
                            assert forall|obj: SimpleCacheObject<U>|
                                keys_distinct(
                                    #[trigger] old(self)@.update(
                                        i as int,
                                        (old(self)@[i as int].0, obj),
                                    ),
                                ) by {
                                let s = old(self)@;
                                let r = s.update(i as int, (s[i as int].0, obj));
                                assert forall|p: int, q: int|
                                    0 <= p < r.len() && 0 <= q < r.len() && p
                                        != q implies !#[trigger] key_matches_at(r, r[q].0, p) by {
                                    assert(r[p].0 == s[p].0);
                                    assert(r[q].0 == s[q].0);
                                    assert(!key_matches_at(s, s[q].0, p));
                                }
                            }
                        }
                    }
                    let pair = vstd::std_specs::vec::vec_index_mut(&mut self.cache, i);
                    Ok(&mut pair.1)
                }
            },
        }
    }

    /// Looks the key up for mutation at the instant the wall clock reads
    /// now, as `get_mut_at` does at a given instant.
    pub fn get_mut(&mut self, key: &T) -> (found: Result<
        &mut SimpleCacheObject<U>,
        SimpleCacheError,
    >)
        requires
            T::obeys_eq_spec(),
        ensures
            exists|now: u64|
                #![trigger spec_get(old(self)@, *key, now)]
                #![trigger old(self)@[first_match(old(self)@, *key)].1.spec_expired_at(now)]
                match found {
                    Ok(entry) => ({
                        let i = first_match(old(self)@, *key);
                        &&& has_key(old(self)@, *key)
                        &&& !old(self)@[i].1.spec_expired_at(now)
                        &&& *entry == old(self)@[i].1
                        &&& final(self)@ == old(self)@.update(i, (old(self)@[i].0, *final(entry)))
                    }),
                    Err(e) => {
                        &&& final(self)@ == spec_get(old(self)@, *key, now).0
                        &&& spec_get(old(self)@, *key, now).1 == Err::<
                            SimpleCacheObject<U>,
                            SimpleCacheError,
                        >(e)
                    },
                },
            final(self).spec_max_age() == old(self).spec_max_age(),
            final(self).spec_max_size() == old(self).spec_max_size(),
            old(self).wf() ==> final(self).wf(),
    {
        let now = now_millis();
        self.get_mut_at(key, now)
    }

    /// Removes every entry expired at instant `now` and says how many
    /// left.  The active entries stay, in their order.
    pub fn cleanup_expired_at(&mut self, now: u64) -> (removed: usize)
        ensures
            final(self)@ == spec_cleanup(old(self)@, now),
            removed + final(self)@.len() == old(self)@.len(),
            final(self).spec_max_age() == old(self).spec_max_age(),
            final(self).spec_max_size() == old(self).spec_max_size(),
            old(self).wf() ==> final(self).wf(),
    {
        let ghost orig = self@;
        let ghost pred = entry_active::<T, U>(now);
        let mut removed: usize = 0;
        let mut i: usize = self.cache.len();
        proof {
            assert(orig.len() <= usize::MAX);
        }
        proof {
            assert(orig.skip(i as int) =~= Seq::<(T, SimpleCacheObject<U>)>::empty());
            assert(orig.skip(i as int).filter(pred) =~= Seq::<(T, SimpleCacheObject<U>)>::empty());
            assert(self.cache@ =~= orig.take(i as int) + orig.skip(i as int).filter(pred));
        }
        while i > 0
            invariant
                i <= self.cache@.len(),
                self.cache@.len() <= orig.len(),
                orig.len() <= usize::MAX,
                removed == orig.len() - self.cache@.len(),
                self.cache@ == orig.take(i as int) + orig.skip(i as int).filter(pred),
                pred == entry_active::<T, U>(now),
                self.max_age == old(self).spec_max_age(),
                self.max_size == old(self).spec_max_size(),
                old(self).wf() ==> keys_distinct(self.cache@),
            decreases i,
        {
            i -= 1;
            proof {
                assert(self.cache@[i as int] == orig[i as int]);
                assert(orig.skip(i as int) =~= seq![orig[i as int]] + orig.skip(i as int + 1));
                Seq::filter_distributes_over_add(
                    seq![orig[i as int]],
                    orig.skip(i as int + 1),
                    pred,
                );
                lemma_filter_singleton(orig[i as int], pred);
            }
            if self.cache[i].1.is_expired_at(now) {
                proof {
                    if old(self).wf() {
                        lemma_keys_distinct_remove(self.cache@, i as int);
                    }
                }
                self.cache.remove(i);
                removed = removed + 1;
                proof {
                    assert(self.cache@ =~= orig.take(i as int) + orig.skip(i as int).filter(pred));
                }
            } else {
                proof {
                    assert(self.cache@ =~= orig.take(i as int) + orig.skip(i as int).filter(pred));
                }
            }
        }
        proof {
            assert(orig.take(0) =~= Seq::<(T, SimpleCacheObject<U>)>::empty());
            assert(orig.skip(0) =~= orig);
            assert(self.cache@ =~= spec_cleanup(orig, now));
        }
        removed
    }

    /// Removes every entry expired at the instant the wall clock reads now
    /// and says how many left.
    pub fn cleanup_expired(&mut self) -> (removed: usize)
        ensures
            exists|now: u64|
                #![auto]
                final(self)@ == spec_cleanup(old(self)@, now) && removed + final(self)@.len()
                    == old(self)@.len(),
            final(self).spec_max_age() == old(self).spec_max_age(),
            final(self).spec_max_size() == old(self).spec_max_size(),
            old(self).wf() ==> final(self).wf(),
    {
        let now = now_millis();
        self.cleanup_expired_at(now)
    }

    /// How many entries are not expired at instant `now`.  Nothing is
    /// removed: a pure count.
    pub fn active_len_at(&self, now: u64) -> (n: usize)
        ensures
            n == spec_cleanup(self@, now).len(),
    {
        let ghost pred = entry_active::<T, U>(now);
        let mut n: usize = 0;
        let mut i: usize = 0;
        proof {
            assert(self@.take(0) =~= Seq::<(T, SimpleCacheObject<U>)>::empty());
            assert(self@.take(0).filter(pred) =~= Seq::<(T, SimpleCacheObject<U>)>::empty());
        }
        while i < self.cache.len()
            invariant
                i <= self.cache@.len(),
                n == self@.take(i as int).filter(pred).len(),
                n <= i,
                pred == entry_active::<T, U>(now),
            decreases self.cache@.len() - i,
        {
            proof {
                lemma_filter_take_step(self@, i as int, pred);
            }
            if !self.cache[i].1.is_expired_at(now) {
                n = n + 1;
            }
            i = i + 1;
        }
        proof {
            assert(self@.take(self@.len() as int) =~= self@);
        }
        n
    }

    /// How many entries are not expired at the instant the wall clock
    /// reads now.
    pub fn active_len(&self) -> (n: usize)
        ensures
            exists|now: u64| #![auto] n == spec_cleanup(self@, now).len(),
    {
        let now = now_millis();
        self.active_len_at(now)
    }

    /// The store's statistics at instant `now`: the total count, the
    /// active and expired counts, which sum to it, and the configuration.
    pub fn stats_at(&self, now: u64) -> (stats: CacheStats)
        ensures
            stats.total_entries == self@.len(),
            stats.active_entries == spec_cleanup(self@, now).len(),
            stats.expired_entries == self@.len() - spec_cleanup(self@, now).len(),
            stats.max_size == self.spec_max_size(),
            stats.max_age == self.spec_max_age(),
    {
        let total = self.cache.len();
        let active = self.active_len_at(now);
        proof {
            self@.lemma_filter_len(entry_active::<T, U>(now));
        }
        CacheStats {
            total_entries: total,
            active_entries: active,
            expired_entries: total - active,
            max_size: self.max_size,
            max_age: self.max_age,
        }
    }

    /// The store's statistics at the instant the wall clock reads now.
    pub fn stats(&self) -> (stats: CacheStats)
        ensures
            exists|now: u64|
                #![auto]
                stats.active_entries == spec_cleanup(self@, now).len()
                    && stats.expired_entries == self@.len() - spec_cleanup(self@, now).len(),
            stats.total_entries == self@.len(),
            stats.max_size == self.spec_max_size(),
            stats.max_age == self.spec_max_age(),
    {
        let now = now_millis();
        self.stats_at(now)
    }

    /// Finds the first entry, in the store's order, that is not expired at
    /// instant `now` and whose key the matcher accepts.  Every entry
    /// expired at `now` is removed, whether or not a match was found; an
    /// entry returned is never one that was expired at `now`.
    pub fn get_by_matcher_at<M: Matcher<T>>(&mut self, matcher: &M, now: u64) -> (found: Result<
        &SimpleCacheObject<U>,
        SimpleCacheError,
    >)
        requires
            matcher.wf(),
        ensures
            final(self)@ == spec_cleanup(old(self)@, now),
            match found {
                Ok(entry) => {
                    &&& has_active_match(old(self)@, *matcher, now)
                    &&& *entry == old(self)@[first_active_match(old(self)@, *matcher, now)].1
                    &&& !entry.spec_expired_at(now)
                },
                Err(e) => {
                    &&& e == SimpleCacheError::NotFound
                    &&& !has_active_match(old(self)@, *matcher, now)
                },
            },
            final(self).spec_max_age() == old(self).spec_max_age(),
            final(self).spec_max_size() == old(self).spec_max_size(),
            old(self).wf() ==> final(self).wf(),
    {
        let ghost orig = self@;
        let ghost pred = entry_active::<T, U>(now);
        let mut i: usize = 0;
        let mut rank: usize = 0;
        let mut have_found: bool = false;
        let ghost mut gm: int = 0;
        proof {
            assert(orig.take(0) =~= Seq::<(T, SimpleCacheObject<U>)>::empty());
            assert(orig.take(0).filter(pred) =~= Seq::<(T, SimpleCacheObject<U>)>::empty());
        }
        while i < self.cache.len() && !have_found
            invariant
                matcher.wf(),
                *self == *old(self),
                self@ == orig,
                i <= orig.len(),
                rank <= i,
                pred == entry_active::<T, U>(now),
                !have_found ==> rank == orig.take(i as int).filter(pred).len(),
                !have_found ==> forall|j: int|
                    0 <= j < i ==> !#[trigger] active_match_at(orig, *matcher, now, j),
                have_found ==> is_first_active_match(orig, *matcher, now, gm),
                have_found ==> rank == orig.take(gm).filter(pred).len(),
            decreases orig.len() - i + (if have_found {
                0int
            } else {
                1int
            }),
        {
            if !self.cache[i].1.is_expired_at(now) {
                if matcher.matches(&self.cache[i].0) {
                    have_found = true;
                    proof {
                        gm = i as int;
                    }
                } else {
                    proof {
                        lemma_filter_take_step(orig, i as int, pred);
                    }
                    rank = rank + 1;
                    i = i + 1;
                }
            } else {
                proof {
                    lemma_filter_take_step(orig, i as int, pred);
                }
                i = i + 1;
            }
        }
        self.cleanup_expired_at(now);
        if have_found {
            proof {
                lemma_first_active_match_agrees(orig, *matcher, now, gm);
                // after cleanup the found entry stands at position `rank`:
                // the active entries before it are exactly those of the
                // prefix, and it leads the filtered suffix
                assert(orig =~= orig.take(gm) + orig.skip(gm));
                Seq::filter_distributes_over_add(orig.take(gm), orig.skip(gm), pred);
                assert(orig.skip(gm) =~= seq![orig[gm]] + orig.skip(gm + 1));
                Seq::filter_distributes_over_add(seq![orig[gm]], orig.skip(gm + 1), pred);
                lemma_filter_singleton(orig[gm], pred);
                assert(spec_cleanup(orig, now)[rank as int] == orig[gm]);
            }
            Ok(&self.cache[rank].1)
        } else {
            proof {
                if has_active_match(orig, *matcher, now) {
                    let w = choose|j: int|
                        0 <= j < orig.len() && #[trigger] active_match_at(orig, *matcher, now, j);
                    assert(!active_match_at(orig, *matcher, now, w));
                }
            }
            Err(SimpleCacheError::NotFound)
        }
    }

    /// Finds the first entry the matcher accepts among those not expired at
    /// the instant the wall clock reads now, removing every expired entry
    /// on the way, as `get_by_matcher_at` does at a given instant.
    pub fn get_by_matcher<M: Matcher<T>>(&mut self, matcher: &M) -> (found: Result<
        &SimpleCacheObject<U>,
        SimpleCacheError,
    >)
        requires
            matcher.wf(),
        ensures
            exists|now: u64|
                #![auto]
                {
                    &&& final(self)@ == spec_cleanup(old(self)@, now)
                    &&& match found {
                        Ok(entry) => {
                            &&& has_active_match(old(self)@, *matcher, now)
                            &&& *entry == old(self)@[first_active_match(
                                old(self)@,
                                *matcher,
                                now,
                            )].1
                            &&& !entry.spec_expired_at(now)
                        },
                        Err(e) => {
                            &&& e == SimpleCacheError::NotFound
                            &&& !has_active_match(old(self)@, *matcher, now)
                        },
                    }
                },
            final(self).spec_max_age() == old(self).spec_max_age(),
            final(self).spec_max_size() == old(self).spec_max_size(),
            old(self).wf() ==> final(self).wf(),
    {
        let now = now_millis();
        self.get_by_matcher_at(matcher, now)
    }

}

impl<T, U> SimpleCacher<T, U> where T: Clone + Eq + core::hash::Hash, U: Clone {
    /// A snapshot of the entries not expired at instant `now`, in the
    /// store's order, keys and values cloned.  Nothing is removed, not even
    /// the expired entries passed over.
    pub fn iter_active_at(&self, now: u64) -> (snapshot: Vec<(T, SimpleCacheObject<U>)>)
        ensures
            snapshot@.len() == spec_cleanup(self@, now).len(),
            forall|j: int|
                0 <= j < snapshot@.len() ==> entry_cloned(
                    spec_cleanup(self@, now)[j],
                    #[trigger] snapshot@[j],
                ),
            forall|j: int| 0 <= j < snapshot@.len() ==> !(#[trigger] snapshot@[j]).1.spec_expired_at(
                now,
            ),
    {
        let ghost pred = entry_active::<T, U>(now);
        let mut snapshot: Vec<(T, SimpleCacheObject<U>)> = Vec::new();
        let mut i: usize = 0;
        proof {
            assert(self@.take(0) =~= Seq::<(T, SimpleCacheObject<U>)>::empty());
            assert(self@.take(0).filter(pred) =~= Seq::<(T, SimpleCacheObject<U>)>::empty());
        }
        while i < self.cache.len()
            invariant
                i <= self.cache@.len(),
                snapshot@.len() == self@.take(i as int).filter(pred).len(),
                forall|j: int|
                    0 <= j < snapshot@.len() ==> entry_cloned(
                        self@.take(i as int).filter(pred)[j],
                        #[trigger] snapshot@[j],
                    ),
                pred == entry_active::<T, U>(now),
            decreases self.cache@.len() - i,
        {
            proof {
                lemma_filter_take_step(self@, i as int, pred);
            }
            if !self.cache[i].1.is_expired_at(now) {
                let key = self.cache[i].0.clone();
                let entry = self.cache[i].1.clone();
                snapshot.push((key, entry));
            }
            i = i + 1;
        }
        proof {
            assert(self@.take(self@.len() as int) =~= self@);
        }
        snapshot
    }

    /// Removes every entry expired at instant `now`, then hands out the
    /// remaining entries whose key the matcher accepts, in the store's
    /// order, keys and values cloned.  No entry returned was expired at
    /// `now`.
    pub fn get_all_by_matcher_at<M: Matcher<T>>(&mut self, matcher: &M, now: u64) -> (results: Vec<
        (T, SimpleCacheObject<U>),
    >)
        requires
            matcher.wf(),
        ensures
            final(self)@ == spec_cleanup(old(self)@, now),
            ({
                let matched = spec_cleanup(old(self)@, now).filter(
                    matcher_accepts::<T, U, M>(*matcher),
                );
                &&& results@.len() == matched.len()
                &&& forall|j: int|
                    0 <= j < matched.len() ==> entry_cloned(matched[j], #[trigger] results@[j])
            }),
            forall|j: int| 0 <= j < results@.len() ==> !(#[trigger] results@[j]).1.spec_expired_at(
                now,
            ),
            final(self).spec_max_age() == old(self).spec_max_age(),
            final(self).spec_max_size() == old(self).spec_max_size(),
            old(self).wf() ==> final(self).wf(),
    {
        self.cleanup_expired_at(now);
        let ghost cleaned = self@;
        let ghost mpred = matcher_accepts::<T, U, M>(*matcher);
        let mut results: Vec<(T, SimpleCacheObject<U>)> = Vec::new();
        let mut i: usize = 0;
        proof {
            assert(cleaned.take(0) =~= Seq::<(T, SimpleCacheObject<U>)>::empty());
            assert(cleaned.take(0).filter(mpred) =~= Seq::<(T, SimpleCacheObject<U>)>::empty());
        }
        while i < self.cache.len()
            invariant
                matcher.wf(),
                self@ == cleaned,
                cleaned == spec_cleanup(old(self)@, now),
                self.max_age == old(self).spec_max_age(),
                self.max_size == old(self).spec_max_size(),
                old(self).wf() ==> keys_distinct(self.cache@),
                i <= cleaned.len(),
                mpred == matcher_accepts::<T, U, M>(*matcher),
                results@.len() == cleaned.take(i as int).filter(mpred).len(),
                forall|j: int|
                    0 <= j < results@.len() ==> entry_cloned(
                        cleaned.take(i as int).filter(mpred)[j],
                        #[trigger] results@[j],
                    ),
                forall|j: int|
                    0 <= j < results@.len() ==> !(#[trigger] results@[j]).1.spec_expired_at(now),
            decreases cleaned.len() - i,
        {
            proof {
                lemma_filter_take_step(cleaned, i as int, mpred);
                // every entry that survived the cleanup is active at `now`
                old(self)@.lemma_filter_pred(entry_active::<T, U>(now), i as int);
            }
            if matcher.matches(&self.cache[i].0) {
                let key = self.cache[i].0.clone();
                let entry = self.cache[i].1.clone();
                results.push((key, entry));
            }
            i = i + 1;
        }
        proof {
            assert(cleaned.take(cleaned.len() as int) =~= cleaned);
        }
        results
    }

    /// Removes every entry expired at the instant the wall clock reads
    /// now, then hands out the remaining entries the matcher accepts, as
    /// `get_all_by_matcher_at` does at a given instant.
    pub fn get_all_by_matcher<M: Matcher<T>>(&mut self, matcher: &M) -> (results: Vec<
        (T, SimpleCacheObject<U>),
    >)
        requires
            matcher.wf(),
        ensures
            exists|now: u64|
                #![auto]
                {
                    &&& final(self)@ == spec_cleanup(old(self)@, now)
                    &&& ({
                        let matched = spec_cleanup(old(self)@, now).filter(
                            matcher_accepts::<T, U, M>(*matcher),
                        );
                        &&& results@.len() == matched.len()
                        &&& forall|j: int|
                            0 <= j < matched.len() ==> entry_cloned(
                                matched[j],
                                #[trigger] results@[j],
                            )
                        &&& forall|j: int|
                            0 <= j < results@.len() ==> !(
                            #[trigger] results@[j]).1.spec_expired_at(now)
                    })
                },
            final(self).spec_max_age() == old(self).spec_max_age(),
            final(self).spec_max_size() == old(self).spec_max_size(),
            old(self).wf() ==> final(self).wf(),
    {
        let now = now_millis();
        self.get_all_by_matcher_at(matcher, now)
    }

    /// A snapshot of the entries not expired at the instant the wall clock
    /// reads now, in the store's order.  Each request makes a fresh pass;
    /// nothing is removed.
    pub fn iter_active(&self) -> (snapshot: Vec<(T, SimpleCacheObject<U>)>)
        ensures
            exists|now: u64|
                #![auto]
                snapshot@.len() == spec_cleanup(self@, now).len() && (forall|j: int|
                    0 <= j < snapshot@.len() ==> entry_cloned(
                        spec_cleanup(self@, now)[j],
                        #[trigger] snapshot@[j],
                    )),
    {
        let now = now_millis();
        self.iter_active_at(now)
    }
}

} // verus!
