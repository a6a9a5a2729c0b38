//! A map whose entries expire half a day after they were inserted.

use vstd::prelude::*;
use std::collections::HashMap;
use std::hash::Hash;
use std::time::{Duration, Instant};
use vstd::std_specs::hash::obeys_key_model;

verus! {

#[verifier::external_type_specification]
#[verifier::external_body]
pub struct ExInstant(Instant);

/// Lifespan of an entry in the map, in nanoseconds: half a day.
pub const LIFESPAN_NANOS: u128 = 43_200_000_000_000;

/// Largest number of nanoseconds that a duration holds.
pub const MAX_DURATION_NANOS: u128 = 18_446_744_073_709_551_615_999_999_999;

/// The current instant of the monotonic clock.
///
/// Calls `std::time::Instant::now`; nothing is claimed of the result.
#[verifier::external_body]
fn instant_now() -> Instant {
    Instant::now()
}

/// Time that has passed since `origin`.
///
/// Calls `std::time::Instant::elapsed`; the result depends on the clock and
/// nothing is claimed of it.
#[verifier::external_body]
fn elapsed_since(origin: &Instant) -> Duration {
    origin.elapsed()
}

/// Whole nanoseconds of a duration.
///
/// Calls `std::time::Duration::as_nanos`. A duration holds at most
/// `u64::MAX` seconds and less than a second of nanoseconds besides, which
/// bounds the result; its value is not claimed otherwise.
#[verifier::external_body]
fn duration_nanos(d: &Duration) -> (r: u128)
    ensures
        r <= MAX_DURATION_NANOS,
{
    d.as_nanos()
}

/// The entries of `m` that have not expired at `now`.
pub open spec fn live_at<K, V>(m: Map<K, (V, u128)>, now: u128) -> Map<K, (V, u128)> {
    Map::new(|k: K| m.contains_key(k) && !(m[k].1 < now), |k: K| m[k])
}

/// A value that was inserted at `now` is given out until half a day after
/// `now`, and not after that.
pub proof fn inserted_value_lives_half_a_day<K, V>(m: Map<K, (V, u128)>, key: K, value: V, now: u128, t: u128)
    requires
        now <= MAX_DURATION_NANOS,
    ensures
        ({
            let m1 = live_at(m, now).insert(key, (value, (now + LIFESPAN_NANOS) as u128));
            &&& live_at(m1, t).contains_key(key) <==> t <= now + LIFESPAN_NANOS
            &&& m1[key].0 == value
        }),
{
}

/// The map `m` after the inserts `ops`, one after another: each is a key,
/// a value and the clock reading of the insert.
pub open spec fn after_inserts<K, V>(m: Map<K, (V, u128)>, ops: Seq<(K, V, u128)>) -> Map<K, (V, u128)>
    decreases ops.len(),
{
    if ops.len() == 0 {
        m
    } else {
        let (k, v, now) = ops.last();
        live_at(after_inserts(m, ops.drop_last()), now).insert(k, (v, (now + LIFESPAN_NANOS) as u128))
    }
}

proof fn lemma_entry_survives<K, V>(m: Map<K, (V, u128)>, key: K, entry: (V, u128), ops: Seq<(K, V, u128)>)
    requires
        m.contains_key(key),
        m[key] == entry,
        forall|i: int| 0 <= i < ops.len() ==> (#[trigger] ops[i]).0 != key,
    ensures
        after_inserts(m, ops).contains_key(key) <==> forall|i: int| 0 <= i < ops.len() ==> !(entry.1 < (#[trigger] ops[i]).2),
        after_inserts(m, ops).contains_key(key) ==> after_inserts(m, ops)[key] == entry,
    decreases ops.len(),
{
    if ops.len() > 0 {
        let rest = ops.drop_last();
        assert forall|i: int| 0 <= i < rest.len() implies (#[trigger] rest[i]).0 != key by {
            assert(rest[i] == ops[i]);
        }
        lemma_entry_survives(m, key, entry, rest);
        let last = ops[ops.len() - 1];
        assert(last.0 != key);
        if after_inserts(m, ops).contains_key(key) {
            assert forall|i: int| 0 <= i < ops.len() implies !(entry.1 < (#[trigger] ops[i]).2) by {
                if i < rest.len() {
                    assert(rest[i] == ops[i]);
                }
            }
        }
        if forall|i: int| 0 <= i < ops.len() ==> !(entry.1 < (#[trigger] ops[i]).2) {
            assert forall|i: int| 0 <= i < rest.len() implies !(entry.1 < (#[trigger] rest[i]).2) by {
                assert(rest[i] == ops[i]);
            }
        }
    }
}

/// A value that was inserted at `t0` is given out at any later reading `t`
/// up to half a day after `t0`, and not after that, whatever other keys
/// were inserted in between.
pub proof fn value_lives_half_a_day_among_inserts<K, V>(
    m: Map<K, (V, u128)>,
    key: K,
    value: V,
    t0: u128,
    ops: Seq<(K, V, u128)>,
    t: u128,
)
    requires
        t0 <= MAX_DURATION_NANOS,
        forall|i: int| 0 <= i < ops.len() ==> (#[trigger] ops[i]).0 != key && ops[i].2 <= t,
    ensures
        ({
            let m1 = after_inserts(live_at(m, t0).insert(key, (value, (t0 + LIFESPAN_NANOS) as u128)), ops);
            &&& live_at(m1, t).contains_key(key) <==> t <= t0 + LIFESPAN_NANOS
            &&& live_at(m1, t).contains_key(key) ==> m1[key].0 == value
        }),
{
    let entry = (value, (t0 + LIFESPAN_NANOS) as u128);
    let base = live_at(m, t0).insert(key, entry);
    assert forall|i: int| 0 <= i < ops.len() implies (#[trigger] ops[i]).0 != key by {}
    lemma_entry_survives(base, key, entry, ops);
    let m1 = after_inserts(base, ops);
    if t <= t0 + LIFESPAN_NANOS {
        assert forall|i: int| 0 <= i < ops.len() implies !(entry.1 < (#[trigger] ops[i]).2) by {}
    }
}

/// Wrapper for a map where all values only live 12 hours. After that time
/// they are no longer given out, and they are removed from the map when a
/// new entry is inserted.
pub struct TimedCache<K, V> {
    /// Entries with their deadline, in nanoseconds after `origin`
    entries: HashMap<K, (V, u128)>,
    /// Instant that the deadlines count from
    origin: Instant,
}

impl<K, V> View for TimedCache<K, V> {
    type V = Map<K, (V, u128)>;

    /// The entries with their deadlines, in nanoseconds after the cache was
    /// made.
    closed spec fn view(&self) -> Map<K, (V, u128)> {
        self.entries@
    }
}

impl<K: Copy + Eq + Hash, V> TimedCache<K, V> {
    /// Creates an empty cache.
    pub fn new() -> (r: Self)
        ensures
            r.view() == Map::<K, (V, u128)>::empty(),
    {
        TimedCache { entries: HashMap::new(), origin: instant_now() }
    }

    /// Nanoseconds since the cache was made.
    fn now(&self) -> (r: u128)
        ensures
            r <= MAX_DURATION_NANOS,
    {
        let d = elapsed_since(&self.origin);
        duration_nanos(&d)
    }

    /// Removes every entry that has expired at `now`.
    pub fn remove_expired_at(&mut self, now: u128)
        requires
            obeys_key_model::<K>(),
        ensures
            final(self).view() == live_at(old(self).view(), now),
    {
        let ghost m0 = self.entries@;
        let mut expired: Vec<K> = Vec::new();
        for k in it: self.entries.keys()
            invariant
                self.entries@ == m0,
                obeys_key_model::<K>(),
                it.seq().unref().to_set() == m0.dom(),
                forall|j: int| 0 <= j < expired.len() ==> m0.contains_key(#[trigger] expired@[j]) && m0[expired@[j]].1 < now,
                forall|j: int| 0 <= j < it.index() && m0[*it.seq()[j]].1 < now ==> expired@.contains(*it.seq()[j]),
        {
            let ghost idx = it.index();
            let ghost before = expired@;
            proof {
                assert(*it.seq()[idx] == *k);
                assert(it.seq().unref()[idx] == *k);
                assert(it.seq().unref().to_set().contains(*k));
            }
            match self.entries.get(k) {
                Some(entry) => {
                    if entry.1 < now {
                        expired.push(*k);
                    }
                },
                None => {},
            }
            proof {
                assert forall|j: int| 0 <= j < before.len() implies expired@[j] == before[j] by {}
                assert forall|x: K| before.contains(x) implies expired@.contains(x) by {
                    let j = choose|j: int| 0 <= j < before.len() && before[j] == x;
                    assert(expired@[j] == x);
                }
                if m0[*k].1 < now {
                    assert(expired@[expired@.len() - 1] == *k);
                }
            }
        }
        let n = expired.len();
        let mut i: usize = 0;
        while i < n
            invariant
                n == expired.len(),
                i <= n,
                obeys_key_model::<K>(),
                forall|j: int| 0 <= j < n ==> m0.contains_key(#[trigger] expired@[j]) && m0[expired@[j]].1 < now,
                forall|k: K| m0.contains_key(k) && m0[k].1 < now ==> expired@.contains(k),
                forall|k: K| #[trigger] self.entries@.contains_key(k) <==> (m0.contains_key(k) && !(exists|j: int| 0 <= j < i && expired@[j] == k)),
                forall|k: K| #[trigger] self.entries@.contains_key(k) ==> self.entries@[k] == m0[k],
            decreases n - i,
        {
            let k = expired[i];
            self.entries.remove(&k);
            i += 1;
        }
        assert(self.entries@ =~= live_at(m0, now));
    }

    /// Inserts the given value with the given key, living until half a
    /// day after `now`, after the entries that expired at `now` were
    /// removed.
    pub fn insert_at(&mut self, key: K, value: V, now: u128)
        requires
            obeys_key_model::<K>(),
            now <= MAX_DURATION_NANOS,
        ensures
            final(self).view() == live_at(old(self).view(), now).insert(key, (value, (now + LIFESPAN_NANOS) as u128)),
    {
        self.remove_expired_at(now);
        let deadline = now + LIFESPAN_NANOS;
        self.entries.insert(key, (value, deadline));
    }

    /// Inserts the given value with the given key into the map.
    ///
    /// When a new entry is inserted, the map is checked if the entries are
    /// still valid.
    pub fn insert(&mut self, key: K, value: V)
        requires
            obeys_key_model::<K>(),
        ensures
            final(self).view().contains_key(key),
            final(self).view()[key].0 == value,
            forall|k: K| k != key && #[trigger] final(self).view().contains_key(k) ==> old(self).view().contains_key(k) && final(self).view()[k] == old(self).view()[k],
            exists|now: u128|
                now <= MAX_DURATION_NANOS && final(self).view() == #[trigger] live_at(old(self).view(), now).insert(
                    key,
                    (value, (now + LIFESPAN_NANOS) as u128),
                ),
    {
        let now = self.now();
        self.insert_at(key, value, now);
    }

    /// Gets an entry that has not expired at `now`.
    pub fn get_at(&self, key: K, now: u128) -> (r: Option<&V>)
        requires
            obeys_key_model::<K>(),
        ensures
            r == (if live_at(self.view(), now).contains_key(key) { Some(&self.view()[key].0) } else { None }),
    {
        match self.entries.get(&key) {
            Some(entry) => {
                if entry.1 < now {
                    None
                } else {
                    Some(&entry.0)
                }
            },
            None => None,
        }
    }

    /// Gets an entry from the underlying map, unless it has expired.
    pub fn get(&self, key: K) -> (r: Option<&V>)
        requires
            obeys_key_model::<K>(),
        ensures
            !self.view().contains_key(key) ==> r is None,
            r matches Some(v) ==> self.view().contains_key(key) && *v == self.view()[key].0,
            exists|now: u128|
                now <= MAX_DURATION_NANOS && r == (if #[trigger] live_at(self.view(), now).contains_key(key) {
                    Some(&self.view()[key].0)
                } else {
                    None
                }),
    {
        let now = self.now();
        self.get_at(key, now)
    }

    /// Checks all entries and removes those that have expired.
    pub fn remove_expired(&mut self)
        requires
            obeys_key_model::<K>(),
        ensures
            forall|k: K| #[trigger] final(self).view().contains_key(k) ==> old(self).view().contains_key(k) && final(self).view()[k] == old(self).view()[k],
            exists|now: u128| now <= MAX_DURATION_NANOS && final(self).view() == #[trigger] live_at(old(self).view(), now),
    {
        let now = self.now();
        self.remove_expired_at(now);
        assert(self.view() == live_at(old(self).view(), now));
    }
}

} // verus!
