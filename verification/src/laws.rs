use vstd::prelude::*;
use vstd::std_specs::cmp::PartialEqSpec;

use crate::entry::SimpleCacheObject;
use crate::entry::lemma_spec_new_parts;
use crate::store::SimpleCacheError;
use crate::store::eq_is_equivalence;
use crate::store::first_match;
use crate::store::has_key;
use crate::store::is_first_match;
use crate::store::key_matches_at;
use crate::store::keys_distinct;
use crate::store::lemma_first_match_agrees;
use crate::store::lemma_keys_distinct_evict;
use crate::store::lemma_remove_key_no_match;
use crate::store::spec_evict;
use crate::store::spec_get;
use crate::store::spec_insert;
use crate::store::spec_remove_key;

verus! {

broadcast use lemma_spec_new_parts, vstd::seq_lib::group_seq_lib_default;

/// Insert-then-get: for every store with distinct keys under a lawful
/// `==`, every key and value, inserting and then looking the key up at any
/// instant at which the time-to-live has not elapsed finds exactly the
/// entry just inserted, and leaves the store as the insert left it.
pub proof fn lemma_insert_then_get<T: PartialEq, U>(
    s: Seq<(T, SimpleCacheObject<U>)>,
    key: T,
    value: U,
    max_age: u64,
    t0: u64,
    now: u64,
    max_size: Option<usize>,
)
    requires
        keys_distinct(s),
        eq_is_equivalence::<T>(),
        now <= t0 + max_age,
    ensures
        ({
            let inserted = spec_insert(s, key, value, max_age, t0, max_size);
            &&& has_key(inserted, key)
            &&& spec_get(inserted, key, now).1 == Ok::<SimpleCacheObject<U>, SimpleCacheError>(
                SimpleCacheObject::spec_new(value, max_age, t0),
            )
            &&& spec_get(inserted, key, now).0 == inserted
        }),
{
    let ev = spec_evict(s, max_size);
    lemma_keys_distinct_evict(s, max_size);
    lemma_remove_key_no_match(ev, key);
    let rm = spec_remove_key(ev, key);
    let entry = SimpleCacheObject::spec_new(value, max_age, t0);
    let inserted = rm.push((key, entry));
    let last = rm.len() as int;
    assert(inserted[last].0 == key);
    assert(key.eq_spec(&key));
    assert(key_matches_at(inserted, key, last));
    assert forall|j: int| 0 <= j < last implies !#[trigger] key_matches_at(inserted, key, j) by {
        assert(inserted[j] == rm[j]);
        assert(!key_matches_at(rm, key, j));
    }
    assert(is_first_match(inserted, key, last));
    lemma_first_match_agrees(inserted, key, last);
    assert(!entry.spec_expired_at(now));
}

/// Expiration: inserting at `t0` and looking the key up at any instant
/// past `t0` plus the time-to-live fails `Expired` and removes exactly the
/// stale entry; a second lookup of the same key, at any instant whatever,
/// then fails `NotFound` and changes nothing.
pub proof fn lemma_expired_then_gone<T: PartialEq, U>(
    s: Seq<(T, SimpleCacheObject<U>)>,
    key: T,
    value: U,
    max_age: u64,
    t0: u64,
    now: u64,
    later: u64,
    max_size: Option<usize>,
)
    requires
        keys_distinct(s),
        eq_is_equivalence::<T>(),
        now > t0 + max_age,
    ensures
        ({
            let inserted = spec_insert(s, key, value, max_age, t0, max_size);
            let survivors = spec_remove_key(spec_evict(s, max_size), key);
            &&& spec_get(inserted, key, now).1 == Err::<SimpleCacheObject<U>, SimpleCacheError>(
                SimpleCacheError::Expired,
            )
            &&& spec_get(inserted, key, now).0 == survivors
            &&& spec_get(survivors, key, later).1 == Err::<SimpleCacheObject<U>, SimpleCacheError>(
                SimpleCacheError::NotFound,
            )
            &&& spec_get(survivors, key, later).0 == survivors
        }),
{
    let ev = spec_evict(s, max_size);
    lemma_keys_distinct_evict(s, max_size);
    lemma_remove_key_no_match(ev, key);
    let rm = spec_remove_key(ev, key);
    let entry = SimpleCacheObject::spec_new(value, max_age, t0);
    let inserted = rm.push((key, entry));
    let last = rm.len() as int;
    assert(inserted[last].0 == key);
    assert(key.eq_spec(&key));
    assert(key_matches_at(inserted, key, last));
    assert forall|j: int| 0 <= j < last implies !#[trigger] key_matches_at(inserted, key, j) by {
        assert(inserted[j] == rm[j]);
        assert(!key_matches_at(rm, key, j));
    }
    assert(is_first_match(inserted, key, last));
    lemma_first_match_agrees(inserted, key, last);
    assert(entry.spec_expired_at(now));
    assert(inserted.remove(last) =~= rm);
    if has_key(rm, key) {
        let w = choose|i: int| 0 <= i < rm.len() && #[trigger] key_matches_at(rm, key, i);
        assert(!key_matches_at(rm, key, w));
    }
}

/// Whether the keys of `items` are pairwise distinct: none answers another.
pub open spec fn keys_pairwise_distinct<T: PartialEq, U>(items: Seq<(T, U)>) -> bool {
    forall|i: int, j: int|
        0 <= i < items.len() && 0 <= j < items.len() && i != j ==> !(#[trigger] items[i].0.eq_spec(
            &items[j].0,
        ))
}

/// The entries that caching each of `items` at instant `now` under
/// time-to-live `max_age` produces, in order.
pub open spec fn fresh_entries<T, U>(items: Seq<(T, U)>, max_age: u64, now: u64) -> Seq<
    (T, SimpleCacheObject<U>),
> {
    items.map_values(|p: (T, U)| (p.0, SimpleCacheObject::spec_new(p.1, max_age, now)))
}

/// What inserting each of `items` in turn, front first, does to a store of
/// `s`.
pub open spec fn spec_insert_seq<T: PartialEq, U>(
    s: Seq<(T, SimpleCacheObject<U>)>,
    items: Seq<(T, U)>,
    max_age: u64,
    now: u64,
    max_size: Option<usize>,
) -> Seq<(T, SimpleCacheObject<U>)>
    decreases items.len(),
{
    if items.len() == 0 {
        s
    } else {
        spec_insert_seq(
            spec_insert(s, items[0].0, items[0].1, max_age, now, max_size),
            items.skip(1),
            max_age,
            now,
            max_size,
        )
    }
}

/// While a store of distinct fresh keys stays within its capacity, inserts
/// only append: nothing is evicted and nothing replaced.
proof fn lemma_insert_seq_fills<T: PartialEq, U>(
    s: Seq<(T, SimpleCacheObject<U>)>,
    items: Seq<(T, U)>,
    max_age: u64,
    now: u64,
    n: usize,
)
    requires
        s.len() + items.len() <= n,
        keys_pairwise_distinct(items),
        forall|p: int, i: int|
            0 <= p < s.len() && 0 <= i < items.len() ==> !(#[trigger] s[p].0.eq_spec(
                &items[i].0,
            )),
    ensures
        spec_insert_seq(s, items, max_age, now, Some(n)) == s + fresh_entries(
            items,
            max_age,
            now,
        ),
    decreases items.len(),
{
    if items.len() == 0 {
        assert(s + fresh_entries(items, max_age, now) =~= s);
    } else {
        let k0 = items[0].0;
        let e0 = SimpleCacheObject::spec_new(items[0].1, max_age, now);
        assert(spec_evict(s, Some(n)) == s);
        if has_key(s, k0) {
            let w = choose|p: int| 0 <= p < s.len() && #[trigger] key_matches_at(s, k0, p);
            assert(!s[w].0.eq_spec(&items[0].0));
        }
        assert(spec_remove_key(s, k0) == s);
        let s2 = s.push((k0, e0));
        assert(spec_insert(s, k0, items[0].1, max_age, now, Some(n)) == s2);
        let rest = items.skip(1);
        assert forall|i: int, j: int|
            0 <= i < rest.len() && 0 <= j < rest.len() && i != j implies !(
        #[trigger] rest[i].0.eq_spec(&rest[j].0)) by {
            assert(rest[i] == items[i + 1]);
            assert(rest[j] == items[j + 1]);
        }
        assert forall|p: int, i: int|
            0 <= p < s2.len() && 0 <= i < rest.len() implies !(#[trigger] s2[p].0.eq_spec(
            &rest[i].0,
        )) by {
            assert(rest[i] == items[i + 1]);
            if p < s.len() {
                assert(!s[p].0.eq_spec(&items[i + 1].0));
            } else {
                assert(s2[p].0 == items[0].0);
                assert(!items[0].0.eq_spec(&items[i + 1].0));
            }
        }
        lemma_insert_seq_fills(s2, rest, max_age, now, n);
        assert(s + fresh_entries(items, max_age, now) =~= s2 + fresh_entries(rest, max_age, now));
    }
}

/// Inserting a concatenation is inserting the one run and then the other.
proof fn lemma_insert_seq_append<T: PartialEq, U>(
    s: Seq<(T, SimpleCacheObject<U>)>,
    a: Seq<(T, U)>,
    b: Seq<(T, U)>,
    max_age: u64,
    now: u64,
    max_size: Option<usize>,
)
    ensures
        spec_insert_seq(s, a + b, max_age, now, max_size) == spec_insert_seq(
            spec_insert_seq(s, a, max_age, now, max_size),
            b,
            max_age,
            now,
            max_size,
        ),
    decreases a.len(),
{
    if a.len() == 0 {
        assert(a + b =~= b);
    } else {
        assert((a + b)[0] == a[0]);
        assert((a + b).skip(1) =~= a.skip(1) + b);
        let s2 = spec_insert(s, a[0].0, a[0].1, max_age, now, max_size);
        lemma_insert_seq_append(s2, a.skip(1), b, max_age, now, max_size);
    }
}

/// First-in-first-out eviction: filling an empty store of capacity `n`
/// with `n + 1` distinct keys, in order, leaves the store holding `n`
/// entries, the first key absent and every later one present.
pub proof fn lemma_fifo_eviction<T: PartialEq, U>(
    items: Seq<(T, U)>,
    max_age: u64,
    now: u64,
    n: usize,
)
    requires
        eq_is_equivalence::<T>(),
        n >= 1,
        items.len() == n + 1,
        keys_pairwise_distinct(items),
    ensures
        ({
            let filled = spec_insert_seq(
                Seq::<(T, SimpleCacheObject<U>)>::empty(),
                items,
                max_age,
                now,
                Some(n),
            );
            &&& filled.len() == n
            &&& !has_key(filled, items[0].0)
            &&& forall|m: int| 1 <= m < items.len() ==> #[trigger] has_key(filled, items[m].0)
        }),
{
    let empty = Seq::<(T, SimpleCacheObject<U>)>::empty();
    let a = items.take(n as int);
    let b = items.skip(n as int);
    assert(items =~= a + b);
    lemma_insert_seq_append(empty, a, b, max_age, now, Some(n));
    assert forall|i: int, j: int|
        0 <= i < a.len() && 0 <= j < a.len() && i != j implies !(#[trigger] a[i].0.eq_spec(
        &a[j].0,
    )) by {
        assert(a[i] == items[i]);
        assert(a[j] == items[j]);
    }
    lemma_insert_seq_fills(empty, a, max_age, now, n);
    let sn = spec_insert_seq(empty, a, max_age, now, Some(n));
    assert(sn =~= fresh_entries(a, max_age, now));
    assert(sn.len() == n);
    // the one remaining item evicts the front entry and joins at the back
    assert(b.len() == 1);
    assert(b[0] == items[n as int]);
    let kn = items[n as int].0;
    let en = SimpleCacheObject::spec_new(items[n as int].1, max_age, now);
    let ev = sn.skip(1);
    assert(spec_evict(sn, Some(n)) == ev);
    if has_key(ev, kn) {
        let w = choose|p: int| 0 <= p < ev.len() && #[trigger] key_matches_at(ev, kn, p);
        assert(ev[w] == sn[w + 1]);
        assert(sn[w + 1].0 == items[w + 1].0);
        assert(!items[w + 1].0.eq_spec(&items[n as int].0));
    }
    assert(spec_remove_key(ev, kn) == ev);
    let filled = ev.push((kn, en));
    assert(spec_insert(sn, kn, items[n as int].1, max_age, now, Some(n)) == filled);
    assert(b.skip(1) =~= Seq::<(T, U)>::empty());
    assert(spec_insert_seq(sn, b, max_age, now, Some(n)) == filled) by {
        reveal_with_fuel(spec_insert_seq, 2);
    }
    assert(spec_insert_seq(empty, items, max_age, now, Some(n)) == filled);
    // the first key is gone: every stored key is a later one
    assert(filled.len() == n);
    if has_key(filled, items[0].0) {
        let w = choose|p: int| 0 <= p < filled.len() && #[trigger] key_matches_at(
            filled,
            items[0].0,
            p,
        );
        if w < n - 1 {
            assert(filled[w] == sn[w + 1]);
            assert(!items[w + 1].0.eq_spec(&items[0].0));
        } else {
            assert(filled[w].0 == kn);
            assert(!items[n as int].0.eq_spec(&items[0].0));
        }
    }
    // every later key is present
    assert forall|m: int| 1 <= m < items.len() implies #[trigger] has_key(
        filled,
        items[m].0,
    ) by {
        if m < n {
            assert(filled[m - 1] == sn[m]);
            assert(filled[m - 1].0 == items[m].0);
        } else {
            assert(filled[m - 1].0 == kn);
        }
        assert(items[m].0.eq_spec(&items[m].0));
        assert(key_matches_at(filled, items[m].0, m - 1));
    }
}

} // verus!
