//! Properties of the cache's expiry rules over several operations.
use vstd::prelude::*;
use crate::cache::{after_read, is_fresh, is_hit, swept, CacheEntry};

verus! {

/// The store after reads of `h` at each of `times`, in order.
pub open spec fn after_reads<T>(m: Map<u64, CacheEntry<T>>, ttl: i64, h: u64, times: Seq<i64>) -> Map<
    u64,
    CacheEntry<T>,
>
    decreases times.len(),
{
    if times.len() == 0 {
        m
    } else {
        after_reads(after_read(m, ttl, h, times[0]), ttl, h, times.drop_first())
    }
}

/// Each read of `h` at `times`, in order, finds a live entry.
pub open spec fn all_hit<T>(m: Map<u64, CacheEntry<T>>, ttl: i64, h: u64, times: Seq<i64>) -> bool
    decreases times.len(),
{
    times.len() == 0 || (is_hit(m, ttl, h, times[0]) && all_hit(
        after_read(m, ttl, h, times[0]),
        ttl,
        h,
        times.drop_first(),
    ))
}

/// A value written at `written` is found, unchanged, by a read at any `now`
/// from `written` until the time-to-live has run out, and the read restamps it.
pub proof fn lemma_hit_within_ttl<T>(
    m: Map<u64, CacheEntry<T>>,
    ttl: i64,
    h: u64,
    value: T,
    written: i64,
    now: i64,
)
    requires
        written <= now < written + ttl,
    ensures
        is_hit(m.insert(h, CacheEntry { timestamp: written, value }), ttl, h, now),
        m.insert(h, CacheEntry { timestamp: written, value })[h].value == value,
        after_read(m.insert(h, CacheEntry { timestamp: written, value }), ttl, h, now) == m.insert(
            h,
            CacheEntry { timestamp: now, value },
        ),
{
}

/// Once the time-to-live of a value written at `written` has run out, a read
/// misses and leaves the store as it was.
pub proof fn lemma_miss_after_ttl<T>(
    m: Map<u64, CacheEntry<T>>,
    ttl: i64,
    h: u64,
    value: T,
    written: i64,
    now: i64,
)
    requires
        now >= written + ttl,
    ensures
        !is_hit(m.insert(h, CacheEntry { timestamp: written, value }), ttl, h, now),
        after_read(m.insert(h, CacheEntry { timestamp: written, value }), ttl, h, now) == m.insert(
            h,
            CacheEntry { timestamp: written, value },
        ),
{
}

/// Sliding expiry: when the first read of `h` hits and each read follows the
/// one before within the time-to-live, every read hits, however long the
/// reads go on, and the entry ends up stamped with the last read's time and
/// its value unchanged.
pub proof fn lemma_sliding_refresh<T>(m: Map<u64, CacheEntry<T>>, ttl: i64, h: u64, times: Seq<i64>)
    requires
        times.len() > 0,
        is_hit(m, ttl, h, times[0]),
        forall|i: int, j: int| #![trigger times[i], times[j]]
            0 <= i && j == i + 1 && j < times.len() ==> times[j] < times[i] + ttl,
    ensures
        all_hit(m, ttl, h, times),
        after_reads(m, ttl, h, times) == m.insert(
            h,
            CacheEntry { timestamp: times.last(), value: m[h].value },
        ),
    decreases times.len(),
{
    let next = after_read(m, ttl, h, times[0]);
    let tail = times.drop_first();
    if tail.len() == 0 {
        assert(after_reads(next, ttl, h, tail) == next);
        assert(all_hit(next, ttl, h, tail));
        assert(next =~= m.insert(h, CacheEntry { timestamp: times.last(), value: m[h].value }));
    } else {
        assert(times[1] < times[0] + ttl);
        assert forall|i: int, j: int| #![trigger tail[i], tail[j]]
            0 <= i && j == i + 1 && j < tail.len() implies tail[j] < tail[i] + ttl by {
            assert(tail[i] == times[i + 1] && tail[j] == times[j + 1]);
        }
        lemma_sliding_refresh(next, ttl, h, tail);
        assert(next.insert(h, CacheEntry { timestamp: tail.last(), value: next[h].value }) =~= m.insert(
            h,
            CacheEntry { timestamp: times.last(), value: m[h].value },
        ));
    }
}

/// Sliding expiry from a write: a value written at `written` and read at
/// `times`, the first read within the time-to-live of the write and each
/// later one within the time-to-live of the read before, is found by every
/// read, with its value unchanged, however far the last read lies past
/// `written + ttl`.
pub proof fn lemma_sliding_refresh_after_write<T>(
    m: Map<u64, CacheEntry<T>>,
    ttl: i64,
    h: u64,
    value: T,
    written: i64,
    times: Seq<i64>,
)
    requires
        times.len() > 0,
        times[0] < written + ttl,
        forall|i: int, j: int| #![trigger times[i], times[j]]
            0 <= i && j == i + 1 && j < times.len() ==> times[j] < times[i] + ttl,
    ensures
        all_hit(m.insert(h, CacheEntry { timestamp: written, value }), ttl, h, times),
        after_reads(m.insert(h, CacheEntry { timestamp: written, value }), ttl, h, times) == m.insert(
            h,
            CacheEntry { timestamp: times.last(), value },
        ),
{
    let start = m.insert(h, CacheEntry { timestamp: written, value });
    assert(is_hit(start, ttl, h, times[0]));
    lemma_sliding_refresh(start, ttl, h, times);
}

/// A sweep at a time when every entry's time-to-live has run out leaves the
/// store empty.
pub proof fn lemma_sweep_clears_expired<T>(m: Map<u64, CacheEntry<T>>, ttl: i64, now: i64)
    requires
        forall|k: u64| #[trigger] m.contains_key(k) ==> m[k].timestamp + ttl <= now,
    ensures
        swept(m, ttl, now) == Map::<u64, CacheEntry<T>>::empty(),
        swept(m, ttl, now).len() == 0,
{
    assert(swept(m, ttl, now) =~= Map::<u64, CacheEntry<T>>::empty());
}

/// A sweep at a time when every entry is still live removes nothing.
pub proof fn lemma_sweep_keeps_live<T>(m: Map<u64, CacheEntry<T>>, ttl: i64, now: i64)
    requires
        forall|k: u64| #[trigger] m.contains_key(k) ==> is_fresh(m[k].timestamp, ttl, now),
    ensures
        swept(m, ttl, now) == m,
{
    assert(swept(m, ttl, now) =~= m);
}

/// After an invalidation the store is empty: every read misses, so the next
/// lookup of any key computes its value again.
pub proof fn lemma_invalidated_misses<T>(ttl: i64, h: u64, now: i64)
    ensures
        !is_hit(Map::<u64, CacheEntry<T>>::empty(), ttl, h, now),
        after_read(Map::<u64, CacheEntry<T>>::empty(), ttl, h, now) == Map::<u64, CacheEntry<T>>::empty(),
{
}

} // verus!
