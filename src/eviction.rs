//! Choosing which entries to evict when the cache is over its byte budget.
use vstd::prelude::*;

verus! {

broadcast use vstd::seq_lib::group_to_multiset_ensures;

/// The byte budget past which the eviction pass removes entries (20 MiB).
pub const MAX_BYTE_SIZE: usize = 20_971_520;

/// The share of the entries, in percent, that one eviction pass removes.
pub const EVICTION_PERCENT: usize = 70;

/// Seconds between two eviction passes.
pub const EVICTION_INTERVAL_SECS: u64 = 600;

/// `s` is ordered from the oldest timestamp to the newest.
pub open spec fn oldest_first(s: Seq<(u64, i64)>) -> bool {
    forall|i: int, j: int| 0 <= i < j < s.len() ==> s[i].1 <= s[j].1
}

/// `chosen` and `rest` share out the items of `snapshot` between them, and
/// nothing left in `rest` is older than anything in `chosen`.
pub open spec fn is_oldest_split(
    snapshot: Seq<(u64, i64)>,
    chosen: Seq<(u64, i64)>,
    rest: Seq<(u64, i64)>,
) -> bool {
    &&& chosen.to_multiset().add(rest.to_multiset()) == snapshot.to_multiset()
    &&& forall|i: int, j: int|
        0 <= i < chosen.len() && 0 <= j < rest.len() ==> chosen[i].1 <= rest[j].1
}

/// How many entries one eviction pass removes from a store of `len` entries.
pub open spec fn eviction_share(len: nat) -> nat {
    len * EVICTION_PERCENT as nat / 100
}

/// Relies on `slice::sort_by_key`: a stable sort that leaves the same items
/// ordered by the key, here the timestamp.
#[verifier::external_body]
fn sort_by_timestamp(items: &mut Vec<(u64, i64)>)
    ensures
        final(items)@.to_multiset() == old(items)@.to_multiset(),
        oldest_first(final(items)@),
{
    items.sort_by_key(|p| p.1)
}

/// The `count` oldest items of `snapshot`, oldest first; all of them when
/// there are fewer.
pub fn select_oldest(snapshot: Vec<(u64, i64)>, count: usize) -> (r: Vec<(u64, i64)>)
    ensures
        r@.len() == if count <= snapshot@.len() {
            count as int
        } else {
            snapshot@.len() as int
        },
        oldest_first(r@),
        exists|rest: Seq<(u64, i64)>| is_oldest_split(snapshot@, r@, rest),
{
    let mut items = snapshot;
    sort_by_timestamp(&mut items);
    let ghost sorted = items@;
    assert(sorted.to_multiset().len() == snapshot@.to_multiset().len());
    items.truncate(count);
    proof {
        let rest = sorted.skip(items@.len() as int);
        assert(sorted =~= items@ + rest);
        vstd::seq_lib::lemma_multiset_commutative(items@, rest);
        assert(is_oldest_split(snapshot@, items@, rest));
    }
    items
}

} // verus!
