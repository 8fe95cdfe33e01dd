use vstd::prelude::*;
use vstd::set_lib::{lemma_int_range, lemma_len_subset, set_int_range};

use crate::store::{count_below, lemma_count_below, Snapshot, SnapshotStore};

verus! {

/// The number of snapshots kept decoded on each side of the cursor.
pub const WINDOW_RADIUS: usize = 32;

/// Whether the snapshot at index `i` lies beyond the `radius` closest
/// snapshots on its side of `cursor`: more than `radius` places before the
/// last snapshot strictly before the cursor, or more than `radius` places
/// after the first snapshot strictly after it.
pub open spec fn beyond_window(times: Seq<i64>, cursor: int, radius: int, i: int) -> bool {
    ||| i + radius < count_below(times, cursor)
    ||| i >= count_below(times, cursor + 1) + radius
}

/// Every snapshot beyond the window around `cursor` has all its images
/// unloaded.
pub open spec fn window_respected<I>(store: SnapshotStore<I>, cursor: int, radius: int) -> bool {
    forall|i: int|
        0 <= i < store.snapshots.len() && beyond_window(store.times@, cursor, radius, i)
            ==> (#[trigger] store.snapshots[i]).all_unloaded()
}

/// The indices of the snapshots strictly before `cursor` that hold a decoded
/// image.
pub open spec fn resident_before<I>(store: SnapshotStore<I>, cursor: int) -> Set<int> {
    Set::new(
        |i: int|
            0 <= i < store.snapshots.len() && store.times[i] < cursor
                && store.snapshots[i].any_resident(),
    )
}

/// The indices of the snapshots strictly after `cursor` that hold a decoded
/// image.
pub open spec fn resident_after<I>(store: SnapshotStore<I>, cursor: int) -> Set<int> {
    Set::new(
        |i: int|
            0 <= i < store.snapshots.len() && store.times[i] > cursor
                && store.snapshots[i].any_resident(),
    )
}

/// Evicts every image of the snapshots beyond the `radius` closest ones on
/// each side of `cursor`; the snapshots within the window are left as they
/// are. Snapshots are counted in time order, so a snapshot at the cursor's
/// own time belongs to neither side.
pub fn evict_outside_window<I>(store: &mut SnapshotStore<I>, cursor: i64, radius: usize)
    requires
        old(store).wf(),
    ensures
        final(store).wf(),
        final(store).times@ == old(store).times@,
        final(store).snapshots.len() == old(store).snapshots.len(),
        forall|i: int|
            0 <= i < final(store).snapshots.len() ==> if beyond_window(
                old(store).times@,
                cursor as int,
                radius as int,
                i,
            ) {
                &&& (#[trigger] final(store).snapshots[i]).all_unloaded()
                &&& final(store).snapshots[i].evicted_from(old(store).snapshots[i])
            } else {
                final(store).snapshots[i] == old(store).snapshots[i]
            },
        window_respected(*final(store), cursor as int, radius as int),
{
    proof {
        lemma_count_below(store.times@, cursor as int);
        lemma_count_below(store.times@, cursor as int + 1);
    }
    let n = store.snapshots.len();
    let before = store.count_before(cursor);
    let after = if cursor == i64::MAX {
        n
    } else {
        store.count_before(cursor + 1)
    };
    proof {
        if cursor == i64::MAX {
            assert(count_below(store.times@, cursor as int + 1) == n);
        }
    }
    let mut i: usize = 0;
    while i < n
        invariant
            0 <= i <= n,
            n == store.snapshots.len(),
            store.wf(),
            store.times@ == old(store).times@,
            old(store).snapshots.len() == n,
            before == count_below(old(store).times@, cursor as int),
            after == count_below(old(store).times@, cursor as int + 1),
            forall|k: int|
                0 <= k < i ==> if beyond_window(old(store).times@, cursor as int, radius as int, k) {
                    &&& (#[trigger] store.snapshots[k]).all_unloaded()
                    &&& store.snapshots[k].evicted_from(old(store).snapshots[k])
                } else {
                    store.snapshots[k] == old(store).snapshots[k]
                },
            forall|k: int| i <= k < n ==> #[trigger] store.snapshots[k] == old(store).snapshots[k],
        decreases n - i,
    {
        let beyond = (i < before && before - i > radius) || (i >= after && i - after >= radius);
        if beyond {
            assert(store.snapshots[i as int].wf());
            store.snapshots[i].evict_all();
            assert(forall|k: int|
                0 <= k < store.snapshots.len() ==> (#[trigger] store.snapshots[k]).wf());
        }
        i = i + 1;
    }
}

/// After eviction, at most `radius` snapshots on each side of the cursor hold
/// a decoded image, and every snapshot beyond the window has all its images
/// unloaded.
pub proof fn lemma_window_bounds_residency<I>(store: SnapshotStore<I>, cursor: int, radius: int)
    requires
        store.wf(),
        radius >= 0,
        window_respected(store, cursor, radius),
    ensures
        resident_before(store, cursor).finite(),
        resident_before(store, cursor).len() <= radius,
        resident_after(store, cursor).finite(),
        resident_after(store, cursor).len() <= radius,
        forall|i: int|
            0 <= i < store.snapshots.len() && beyond_window(store.times@, cursor, radius, i)
                ==> (#[trigger] store.snapshots[i]).all_unloaded(),
{
    let times = store.times@;
    lemma_count_below(times, cursor);
    lemma_count_below(times, cursor + 1);
    let lo = count_below(times, cursor) as int;
    let hi = count_below(times, cursor + 1) as int;
    let before = resident_before(store, cursor);
    let after = resident_after(store, cursor);
    assert forall|i: int| #[trigger] before.contains(i) implies set_int_range(lo - radius, lo).contains(i) by {
        assert(i < lo);
        if i + radius < lo {
            assert(store.snapshots[i].all_unloaded());
            let j = choose|j: int|
                0 <= j < store.snapshots[i].screens.len()
                    && #[trigger] store.snapshots[i].screens[j].image.is_resident();
            assert(store.snapshots[i].screens[j].image.is_unloaded());
        }
    }
    lemma_int_range(lo - radius, lo);
    lemma_len_subset(before, set_int_range(lo - radius, lo));
    assert forall|i: int| #[trigger] after.contains(i) implies set_int_range(hi, hi + radius).contains(i) by {
        assert(i >= hi);
        if i >= hi + radius {
            assert(store.snapshots[i].all_unloaded());
            let j = choose|j: int|
                0 <= j < store.snapshots[i].screens.len()
                    && #[trigger] store.snapshots[i].screens[j].image.is_resident();
            assert(store.snapshots[i].screens[j].image.is_unloaded());
        }
    }
    lemma_int_range(hi, hi + radius);
    lemma_len_subset(after, set_int_range(hi, hi + radius));
}

} // verus!
