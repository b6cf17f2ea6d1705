//! The cache engine: a map from key fingerprints to timestamped entries.
use std::collections::HashMap;
use std::hash::Hash;
use vstd::pervasive::cloned;
use vstd::prelude::*;
use vstd::std_specs::iter::IteratorSpec;

use crate::eviction::{eviction_share, is_oldest_split, select_oldest, EVICTION_PERCENT};
use crate::hash::generate_hash;

verus! {

broadcast use vstd::std_specs::hash::group_hash_axioms, vstd::seq_lib::group_to_multiset_ensures;

/// One stored value with the time (milliseconds) of its last write or hit.
pub struct CacheEntry<T> {
    pub timestamp: i64,
    pub value: T,
}

/// Default time-to-live of an entry: two minutes, in milliseconds.
pub const DEFAULT_TTL_MS: i64 = 120_000;

/// An entry written at `timestamp` is still live at `now` under `ttl`.
pub open spec fn is_fresh(timestamp: i64, ttl: i64, now: i64) -> bool {
    timestamp + ttl > now
}

/// A read at `now` of fingerprint `h` finds a live entry in `m`.
pub open spec fn is_hit<T>(m: Map<u64, CacheEntry<T>>, ttl: i64, h: u64, now: i64) -> bool {
    m.contains_key(h) && is_fresh(m[h].timestamp, ttl, now)
}

/// The store after a read of `h` at `now`: a hit restamps the entry with
/// `now`; a miss, or a stale entry, leaves the store as it was.
pub open spec fn after_read<T>(m: Map<u64, CacheEntry<T>>, ttl: i64, h: u64, now: i64) -> Map<
    u64,
    CacheEntry<T>,
> {
    if is_hit(m, ttl, h, now) {
        m.insert(h, CacheEntry { timestamp: now, value: m[h].value })
    } else {
        m
    }
}

/// The store after a sweep at `now`: the live entries only.
pub open spec fn swept<T>(m: Map<u64, CacheEntry<T>>, ttl: i64, now: i64) -> Map<
    u64,
    CacheEntry<T>,
> {
    m.restrict(m.dom().filter(|k: u64| is_fresh(m[k].timestamp, ttl, now)))
}

/// Every fingerprint that `items` names is in `m`, and none twice.
pub open spec fn names_present_distinct<T>(m: Map<u64, CacheEntry<T>>, items: Seq<(u64, i64)>) -> bool {
    &&& forall|i: int| 0 <= i < items.len() ==> m.contains_key(#[trigger] items[i].0)
    &&& forall|i: int, j: int| 0 <= i < j < items.len() ==> items[i].0 != items[j].0
}

/// The fingerprints that `items` names.
pub open spec fn keys_of(items: Seq<(u64, i64)>) -> Set<u64> {
    Set::new(|k: u64| exists|i: int| 0 <= i < items.len() && items[i].0 == k)
}

fn fresh(timestamp: i64, ttl: i64, now: i64) -> (r: bool)
    ensures
        r == is_fresh(timestamp, ttl, now),
{
    (timestamp as i128) + (ttl as i128) > now as i128
}

/// Seconds between two sweeps for a time-to-live of `ttl` milliseconds: half
/// the time-to-live in whole seconds, and at least one.
pub open spec fn sweep_interval(ttl: i64) -> int {
    if ttl < 2000 {
        1
    } else {
        ttl / 2000
    }
}

/// Seconds between two sweeps for a time-to-live of `ttl` milliseconds.
pub fn cleanup_interval_secs(ttl: i64) -> (r: u64)
    ensures
        r == sweep_interval(ttl),
        r >= 1,
{
    if ttl < 2000 {
        1
    } else {
        (ttl as u64) / 2000
    }
}

/// A cache of values of type `T` under fingerprints of their keys, with a
/// time-to-live in milliseconds.
///
/// Two distinct keys with the same fingerprint share one entry: a lookup of
/// one may then return the value stored under the other.
pub struct GustCache<T> {
    entries: HashMap<u64, CacheEntry<T>>,
    ttl: i64,
}

impl<T> View for GustCache<T> {
    type V = Map<u64, CacheEntry<T>>;

    closed spec fn view(&self) -> Map<u64, CacheEntry<T>> {
        self.entries@
    }
}

impl<T> GustCache<T> {
    /// The time-to-live, in milliseconds.
    pub closed spec fn spec_ttl(&self) -> i64 {
        self.ttl
    }

    /// An empty cache whose entries live two minutes.
    pub fn new() -> (r: Self)
        ensures
            r@ == Map::<u64, CacheEntry<T>>::empty(),
            r.spec_ttl() == DEFAULT_TTL_MS,
    {
        Self::from_ttl(DEFAULT_TTL_MS)
    }

    /// An empty cache whose entries live `ttl` milliseconds.
    pub fn from_ttl(ttl: i64) -> (r: Self)
        ensures
            r@ == Map::<u64, CacheEntry<T>>::empty(),
            r.spec_ttl() == ttl,
    {
        GustCache { entries: HashMap::new(), ttl }
    }

    /// The time-to-live, in milliseconds.
    pub fn ttl(&self) -> (r: i64)
        ensures
            r == self.spec_ttl(),
    {
        self.ttl
    }

    /// The number of entries stored, live or stale.
    pub fn size(&self) -> (r: usize)
        ensures
            r == self@.len(),
    {
        self.entries.len()
    }

    /// Drops every entry; the time-to-live stays.
    pub fn invalidate(&mut self)
        ensures
            final(self)@ == Map::<u64, CacheEntry<T>>::empty(),
            final(self).spec_ttl() == old(self).spec_ttl(),
    {
        self.entries.clear();
    }

    /// Stores `value` under fingerprint `h`, stamped `now`, in place of
    /// whatever stood there.
    pub fn insert_at(&mut self, h: u64, value: T, now: i64)
        ensures
            final(self)@ == old(self)@.insert(h, CacheEntry { timestamp: now, value }),
            final(self).spec_ttl() == old(self).spec_ttl(),
    {
        self.entries.insert(h, CacheEntry { timestamp: now, value });
    }

    /// Drops every entry that is no longer live at `now`.
    pub fn sweep_expired(&mut self, now: i64)
        ensures
            final(self)@ == swept(old(self)@, old(self).spec_ttl(), now),
            final(self).spec_ttl() == old(self).spec_ttl(),
    {
        let snapshot = self.timestamps();
        let ghost start = self@;
        let mut i: usize = 0;
        while i < snapshot.len()
            invariant
                i <= snapshot@.len(),
                self.ttl == old(self).ttl,
                start == old(self)@,
                snapshot@.len() == start.len(),
                forall|j: int| 0 <= j < snapshot@.len() ==> start.contains_key(#[trigger] snapshot@[j].0) && start[snapshot@[j].0].timestamp == snapshot@[j].1,
                forall|k: u64| #[trigger] start.contains_key(k) ==> exists|j: int| 0 <= j < snapshot@.len() && snapshot@[j].0 == k,
                forall|k: u64| #[trigger] self@.contains_key(k) ==> start.contains_key(k) && self@[k] == start[k],
                forall|k: u64| start.contains_key(k) && !self@.contains_key(k) ==> !is_fresh(start[k].timestamp, self.ttl, now),
                forall|k: u64| start.contains_key(k) && !is_fresh(start[k].timestamp, self.ttl, now) && (exists|j: int| 0 <= j < i && snapshot@[j].0 == k) ==> !self@.contains_key(k),
                forall|k: u64| start.contains_key(k) && (forall|j: int| 0 <= j < i ==> snapshot@[j].0 != k) ==> self@.contains_key(k),
            decreases snapshot@.len() - i,
        {
            let (k, ts) = snapshot[i];
            if !fresh(ts, self.ttl, now) {
                self.entries.remove(&k);
            }
            i = i + 1;
        }
        assert(self@ =~= swept(start, self.ttl, now));
    }

    /// The fingerprint and timestamp of every entry, each once, in no
    /// particular order.
    pub fn timestamps(&self) -> (r: Vec<(u64, i64)>)
        ensures
            r@.len() == self@.len(),
            forall|i: int| 0 <= i < r@.len() ==> self@.contains_key(#[trigger] r@[i].0) && self@[r@[i].0].timestamp == r@[i].1,
            forall|k: u64| #[trigger] self@.contains_key(k) ==> exists|i: int| 0 <= i < r@.len() && r@[i].0 == k,
            forall|i: int, j: int| 0 <= i < j < r@.len() ==> r@[i].0 != r@[j].0,
    {
        let mut r: Vec<(u64, i64)> = Vec::new();
        for (k, e) in it: self.entries.iter()
            invariant
                r@.len() == it.index(),
                it.seq() == vstd::std_specs::hash::spec_hash_map_iter(&self.entries).remaining(),
                forall|i: int| 0 <= i < it.index() ==> r@[i].0 == *it.seq()[i].0 && r@[i].1 == it.seq()[i].1.timestamp,
        {
            r.push((*k, e.timestamp));
        }
        proof {
            let v = vstd::std_specs::hash::spec_hash_map_iter(&self.entries).remaining();
            assert forall|k: u64| #[trigger] self@.contains_key(k) implies exists|i: int|
                0 <= i < r@.len() && r@[i].0 == k by {
                assert(v.contains((&k, &self.entries@[k])));
                let i = choose|i: int| 0 <= i < v.len() && v[i] == (&k, &self.entries@[k]);
                assert(r@[i].0 == k);
            }
            assert forall|i: int, j: int| 0 <= i < j < r@.len() implies r@[i].0 != r@[j].0 by {
                if r@[i].0 == r@[j].0 {
                    assert(self.entries@.contains_key(*v[i].0) && self.entries@[*v[i].0] == *v[i].1);
                    assert(self.entries@.contains_key(*v[j].0) && self.entries@[*v[j].0] == *v[j].1);
                    assert(v[i] == v[j]);
                }
            }
        }
        r
    }

    /// Drops the entries that `victims` names.
    pub fn remove_entries(&mut self, victims: &Vec<(u64, i64)>)
        ensures
            final(self)@ == old(self)@.remove_keys(keys_of(victims@)),
            final(self).spec_ttl() == old(self).spec_ttl(),
            names_present_distinct(old(self)@, victims@) ==> final(self)@.len() == old(self)@.len() - victims@.len(),
    {
        let mut i: usize = 0;
        while i < victims.len()
            invariant
                i <= victims@.len(),
                self.ttl == old(self).ttl,
                self@ == old(self)@.remove_keys(keys_of(victims@.take(i as int))),
                names_present_distinct(old(self)@, victims@) ==> self@.len() == old(self)@.len() - i
                    && forall|j: int| i <= j < victims@.len() ==> self@.contains_key(#[trigger] victims@[j].0),
            decreases victims@.len() - i,
        {
            let k = victims[i].0;
            self.entries.remove(&k);
            proof {
                let prev = victims@.take(i as int);
                let next = victims@.take(i as int + 1);
                assert(next == prev.push(victims@[i as int]));
                assert forall|x: u64| keys_of(next).contains(x) <==> #[trigger] keys_of(prev).insert(k).contains(x) by {
                    if x == k {
                        assert(next[i as int].0 == k);
                    }
                    if keys_of(prev).contains(x) {
                        let j = choose|j: int| 0 <= j < prev.len() && prev[j].0 == x;
                        assert(next[j].0 == x);
                    }
                    if keys_of(next).contains(x) && x != k {
                        let j = choose|j: int| 0 <= j < next.len() && next[j].0 == x;
                        assert(prev[j].0 == x);
                    }
                }
                assert(keys_of(next) =~= keys_of(prev).insert(k));
                assert(self@ =~= old(self)@.remove_keys(keys_of(next)));
            }
            i = i + 1;
        }
        assert(victims@.take(victims@.len() as int) == victims@);
    }

    /// How many entries an eviction pass under `budget` bytes removes: none
    /// while the estimated footprint (entries times the size of one entry)
    /// stays under the budget, otherwise seventy percent of them, rounded down.
    pub fn eviction_count(&self, budget: usize) -> (r: usize)
        ensures
            r == if self@.len() * vstd::layout::size_of::<CacheEntry<T>>() < budget {
                0
            } else {
                eviction_share(self@.len())
            },
    {
        let len = self.entries.len();
        let per_entry = core::mem::size_of::<CacheEntry<T>>();
        proof {
            assert(len as int * per_entry as int <= 0xFFFF_FFFF_FFFF_FFFFint * 0xFFFF_FFFF_FFFF_FFFFint)
                by (nonlinear_arith)
                requires
                    len <= 0xFFFF_FFFF_FFFF_FFFFint,
                    per_entry <= 0xFFFF_FFFF_FFFF_FFFFint,
            ;
        }
        let footprint: u128 = (len as u128) * (per_entry as u128);
        assert(len as int * EVICTION_PERCENT as int <= 0xFFFF_FFFF_FFFF_FFFFint * 70) by (nonlinear_arith)
            requires
                len <= 0xFFFF_FFFF_FFFF_FFFFint,
                EVICTION_PERCENT == 70,
        ;
        if footprint < budget as u128 {
            0
        } else {
            ((len as u128) * (EVICTION_PERCENT as u128) / 100) as usize
        }
    }

    /// One eviction pass under `budget` bytes: takes `eviction_count(budget)`
    /// entries, those with the oldest timestamps, and drops them. Returns the
    /// fingerprints and timestamps of the entries it dropped.
    pub fn evict_oldest(&mut self, budget: usize) -> (victims: Vec<(u64, i64)>)
        ensures
            victims@.len() == if old(self)@.len() * vstd::layout::size_of::<CacheEntry<T>>() < budget {
                0
            } else {
                eviction_share(old(self)@.len())
            },
            final(self)@ == old(self)@.remove_keys(keys_of(victims@)),
            final(self)@.len() == old(self)@.len() - victims@.len(),
            forall|i: int| 0 <= i < victims@.len() ==> old(self)@.contains_key(#[trigger] victims@[i].0)
                && old(self)@[victims@[i].0].timestamp == victims@[i].1,
            forall|k: u64, i: int| #![trigger final(self)@[k], victims@[i]]
                final(self)@.contains_key(k) && 0 <= i < victims@.len() ==> victims@[i].1 <= final(self)@[k].timestamp,
            final(self).spec_ttl() == old(self).spec_ttl(),
    {
        let count = self.eviction_count(budget);
        let snapshot = self.timestamps();
        let ghost snap = snapshot@;
        proof {
            assert(count <= snap.len()) by (nonlinear_arith)
                requires
                    count == 0 || count == snap.len() * EVICTION_PERCENT as nat / 100,
            ;
        }
        let victims = select_oldest(snapshot, count);
        proof {
            let rest = choose|rest: Seq<(u64, i64)>| is_oldest_split(snap, victims@, rest);
            assert(snap.no_duplicates());
            snap.lemma_multiset_has_no_duplicates();
            assert forall|p: (u64, i64)| victims@.to_multiset().contains(p) implies victims@.to_multiset().count(p) == 1 by {
                assert(snap.to_multiset().count(p) == victims@.to_multiset().count(p) + rest.to_multiset().count(p));
            }
            victims@.lemma_multiset_has_no_duplicates_conv();
            assert forall|i: int| 0 <= i < victims@.len() implies #[trigger] snap.contains(victims@[i]) by {
                assert(victims@.contains(victims@[i]));
                assert(victims@.to_multiset().count(victims@[i]) > 0);
                assert(snap.to_multiset().count(victims@[i]) > 0);
            }
            assert forall|i: int, j: int| 0 <= i < j < victims@.len() implies victims@[i].0 != victims@[j].0 by {
                assert(snap.contains(victims@[i]));
                assert(snap.contains(victims@[j]));
            }
            assert forall|i: int| 0 <= i < victims@.len() implies self@.contains_key(#[trigger] victims@[i].0)
                && self@[victims@[i].0].timestamp == victims@[i].1 by {
                assert(snap.contains(victims@[i]));
                let j = choose|j: int| 0 <= j < snap.len() && snap[j] == victims@[i];
                assert(self@.contains_key(snap[j].0));
            }
            assert(names_present_distinct(self@, victims@));
            assert forall|k: u64, i: int| #![trigger self@.remove_keys(keys_of(victims@))[k], victims@[i]]
                self@.remove_keys(keys_of(victims@)).contains_key(k) && 0 <= i < victims@.len()
                implies victims@[i].1 <= self@[k].timestamp by {
                let j = choose|j: int| 0 <= j < snap.len() && snap[j].0 == k;
                let p = snap[j];
                assert(!victims@.contains(p));
                assert(snap.to_multiset().count(p) > 0);
                assert(victims@.to_multiset().count(p) == 0);
                assert(rest.to_multiset().count(p) > 0);
                assert(rest.contains(p));
            }
        }
        self.remove_entries(&victims);
        victims
    }
}

impl<T: Clone> GustCache<T> {
    /// The read path of a lookup at `now`: on a live entry, restamps it with
    /// `now` and returns a copy of its value; otherwise returns `None` and
    /// changes nothing (a stale entry stays until it is swept or overwritten).
    pub fn get_at(&mut self, h: u64, now: i64) -> (r: Option<T>)
        ensures
            final(self)@ == after_read(old(self)@, old(self).spec_ttl(), h, now),
            final(self).spec_ttl() == old(self).spec_ttl(),
            match r {
                Some(v) => is_hit(old(self)@, old(self).spec_ttl(), h, now) && cloned(old(self)@[h].value, v),
                None => !is_hit(old(self)@, old(self).spec_ttl(), h, now),
            },
    {
        match self.entries.remove(&h) {
            Some(entry) => {
                if fresh(entry.timestamp, self.ttl, now) {
                    let copy = entry.value.clone();
                    self.entries.insert(h, CacheEntry { timestamp: now, value: entry.value });
                    Some(copy)
                } else {
                    self.entries.insert(h, entry);
                    assert(self@ =~= old(self)@);
                    None
                }
            },
            None => None,
        }
    }

    /// A copy of the value stored under fingerprint `h`, live or stale; the
    /// timestamp is not touched.
    pub fn try_get_at(&self, h: u64) -> (r: Option<T>)
        ensures
            match r {
                Some(v) => self@.contains_key(h) && cloned(self@[h].value, v),
                None => !self@.contains_key(h),
            },
    {
        match self.entries.get(&h) {
            Some(entry) => Some(entry.value.clone()),
            None => None,
        }
    }

    /// Stores `value` under the fingerprint of `key`, stamped `now`, in
    /// place of whatever stood there.
    pub fn insert<K: Hash>(&mut self, key: &K, value: T, now: i64)
        ensures
            exists|h: u64| final(self)@ == old(self)@.insert(h, CacheEntry { timestamp: now, value }),
            final(self).spec_ttl() == old(self).spec_ttl(),
    {
        let h = generate_hash(key);
        self.insert_at(h, value, now);
    }

    /// A copy of the value stored under the fingerprint of `key`, live or
    /// stale, without touching its timestamp.
    pub fn try_get<K: Hash>(&self, key: &K) -> (r: Option<T>)
        ensures
            exists|h: u64| match r {
                Some(v) => self@.contains_key(h) && cloned(self@[h].value, v),
                None => !self@.contains_key(h),
            },
    {
        let h = generate_hash(key);
        self.try_get_at(h)
    }

    /// The value under fingerprint `h` at `now`. On a live entry: a copy of
    /// its value, the entry restamped with `now`, and `compute` never called.
    /// Otherwise the result of `compute`: on success stored under `h`,
    /// stamped `now`; on failure handed back with the store unchanged.
    pub fn get_or_at<E, F: FnOnce() -> Result<T, E>>(&mut self, h: u64, now: i64, compute: F) -> (r:
        Result<T, E>)
        requires
            compute.requires(()),
        ensures
            final(self).spec_ttl() == old(self).spec_ttl(),
            is_hit(old(self)@, old(self).spec_ttl(), h, now) ==> match r {
                Ok(v) => cloned(old(self)@[h].value, v)
                    && final(self)@ == after_read(old(self)@, old(self).spec_ttl(), h, now),
                Err(_) => false,
            },
            !is_hit(old(self)@, old(self).spec_ttl(), h, now) ==> match r {
                Ok(v) => final(self)@.contains_key(h)
                    && final(self)@ == old(self)@.insert(h, CacheEntry { timestamp: now, value: final(self)@[h].value })
                    && compute.ensures((), Ok(final(self)@[h].value))
                    && cloned(final(self)@[h].value, v),
                Err(_) => compute.ensures((), r) && final(self)@ == old(self)@,
            },
    {
        match self.get_at(h, now) {
            Some(v) => Ok(v),
            None => {
                match compute() {
                    Ok(v) => {
                        let copy = v.clone();
                        self.insert_at(h, v, now);
                        Ok(copy)
                    },
                    Err(e) => Err(e),
                }
            },
        }
    }

    /// `get_or_at` under the fingerprint of `key`.
    pub fn get_or<K: Hash, E, F: FnOnce() -> Result<T, E>>(&mut self, key: &K, now: i64, compute: F) -> (r:
        Result<T, E>)
        requires
            compute.requires(()),
        ensures
            final(self).spec_ttl() == old(self).spec_ttl(),
            exists|h: u64| {
                &&& is_hit(old(self)@, old(self).spec_ttl(), h, now) ==> match r {
                    Ok(v) => cloned(old(self)@[h].value, v)
                        && final(self)@ == after_read(old(self)@, old(self).spec_ttl(), h, now),
                    Err(_) => false,
                }
                &&& !is_hit(old(self)@, old(self).spec_ttl(), h, now) ==> match r {
                    Ok(v) => final(self)@.contains_key(h)
                        && final(self)@ == old(self)@.insert(h, CacheEntry { timestamp: now, value: final(self)@[h].value })
                        && compute.ensures((), Ok(final(self)@[h].value))
                        && cloned(final(self)@[h].value, v),
                    Err(_) => compute.ensures((), r) && final(self)@ == old(self)@,
                }
            },
    {
        let h = generate_hash(key);
        self.get_or_at(h, now, compute)
    }
}

} // verus!
