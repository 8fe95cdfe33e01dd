use vstd::prelude::*;
use vstd::string::StrSliceExecFns;

use crate::store::{Snapshot, SnapshotStore};
use crate::text::{all_digits, decimal_value, read_decimal};

verus! {

/// The length of the trailing window whose labels become shortcuts.
pub const SHORTCUT_WINDOW_MS: i64 = 4 * 60 * 60 * 1000;

/// The most shortcuts offered at once.
pub const MAX_SHORTCUTS: usize = 10;

/// The labels of a run of snapshots, in the same order.
pub open spec fn labels_of<I>(snaps: Seq<Snapshot<I>>) -> Seq<Seq<char>> {
    snaps.map_values(|s: Snapshot<I>| s.classification@)
}

/// The label of the latest of the first `k` snapshots that lies strictly
/// before `cursor` and is labelled; empty if there is none.
pub open spec fn hint_upto(times: Seq<i64>, labels: Seq<Seq<char>>, cursor: int, k: int) -> Seq<char>
    decreases k,
{
    if k <= 0 {
        Seq::empty()
    } else if times[k - 1] < cursor && labels[k - 1].len() > 0 {
        labels[k - 1]
    } else {
        hint_upto(times, labels, cursor, k - 1)
    }
}

/// The default hint at `cursor`: the label of the nearest strictly earlier
/// labelled snapshot, or empty.
pub open spec fn hint_at(times: Seq<i64>, labels: Seq<Seq<char>>, cursor: int) -> Seq<char> {
    hint_upto(times, labels, cursor, times.len() as int)
}

pub open spec fn in_recent_window(t: int, cursor: int) -> bool {
    cursor - SHORTCUT_WINDOW_MS <= t < cursor
}

/// How many of the first `k` snapshots lie in the trailing window of
/// `cursor` and carry `label`.
pub open spec fn count_upto(
    times: Seq<i64>,
    labels: Seq<Seq<char>>,
    cursor: int,
    label: Seq<char>,
    k: int,
) -> nat
    decreases k,
{
    if k <= 0 {
        0
    } else {
        count_upto(times, labels, cursor, label, k - 1) + if in_recent_window(
            times[k - 1] as int,
            cursor,
        ) && labels[k - 1] == label {
            1nat
        } else {
            0nat
        }
    }
}

/// How often `label` occurs in the trailing window of `cursor`.
pub open spec fn frequency(times: Seq<i64>, labels: Seq<Seq<char>>, cursor: int, label: Seq<char>) -> nat {
    count_upto(times, labels, cursor, label, times.len() as int)
}

/// Where the first of the first `k` snapshots that lie in the trailing
/// window of `cursor` and carry `label` stands (when there is one).
pub open spec fn first_upto(
    times: Seq<i64>,
    labels: Seq<Seq<char>>,
    cursor: int,
    label: Seq<char>,
    k: int,
) -> int
    decreases k,
{
    if k <= 0 {
        0
    } else if count_upto(times, labels, cursor, label, k - 1) > 0 {
        first_upto(times, labels, cursor, label, k - 1)
    } else {
        k - 1
    }
}

/// Where `label` first occurs in the trailing window of `cursor`.
pub open spec fn first_seen(times: Seq<i64>, labels: Seq<Seq<char>>, cursor: int, label: Seq<char>) -> int {
    first_upto(times, labels, cursor, label, times.len() as int)
}

/// `a` ranks before `b` among the shortcuts: it is more frequent, or as
/// frequent and seen first.
pub open spec fn ranks_before(
    times: Seq<i64>,
    labels: Seq<Seq<char>>,
    cursor: int,
    a: Seq<char>,
    b: Seq<char>,
) -> bool {
    ||| frequency(times, labels, cursor, a) > frequency(times, labels, cursor, b)
    ||| frequency(times, labels, cursor, a) == frequency(times, labels, cursor, b) && first_seen(
        times,
        labels,
        cursor,
        a,
    ) < first_seen(times, labels, cursor, b)
}

/// A label that occurs in the window occurs first at `first_upto`.
pub proof fn lemma_first_upto(times: Seq<i64>, labels: Seq<Seq<char>>, cursor: int, label: Seq<char>, k: int)
    requires
        count_upto(times, labels, cursor, label, k) > 0,
    ensures
        0 <= first_upto(times, labels, cursor, label, k) < k,
        labels[first_upto(times, labels, cursor, label, k)] == label,
        in_recent_window(times[first_upto(times, labels, cursor, label, k)] as int, cursor),
    decreases k,
{
    if count_upto(times, labels, cursor, label, k - 1) > 0 {
        lemma_first_upto(times, labels, cursor, label, k - 1);
    }
}

/// `r` is the shortcut list for `cursor`: at most ten distinct non-empty
/// labels of the trailing window, by non-increasing frequency and, among
/// equally frequent ones, by first occurrence; no label left out unless ten
/// labels that rank before it were taken.
pub open spec fn is_shortcut_list(
    times: Seq<i64>,
    labels: Seq<Seq<char>>,
    cursor: int,
    r: Seq<Seq<char>>,
) -> bool {
    &&& r.len() <= MAX_SHORTCUTS
    &&& forall|i: int|
        0 <= i < r.len() ==> r[i].len() > 0 && #[trigger] frequency(times, labels, cursor, r[i]) > 0
    &&& forall|i: int, j: int| 0 <= i < j < r.len() ==> r[i] != r[j]
    &&& forall|i: int, j: int|
        0 <= i < j < r.len() ==> frequency(times, labels, cursor, r[i]) >= frequency(
            times,
            labels,
            cursor,
            r[j],
        )
    &&& forall|i: int, j: int| 0 <= i < j < r.len() ==> ranks_before(times, labels, cursor, r[i], r[j])
    &&& forall|l: Seq<char>|
        l.len() > 0 && #[trigger] frequency(times, labels, cursor, l) > 0 && !r.contains(l) ==> {
            &&& r.len() == MAX_SHORTCUTS
            &&& frequency(times, labels, cursor, l) <= frequency(times, labels, cursor, r.last())
            &&& ranks_before(times, labels, cursor, r.last(), l)
        }
}

/// No label occurs in the trailing window of a cursor that no snapshot
/// precedes.
pub(crate) proof fn lemma_nothing_before(
    times: Seq<i64>,
    labels: Seq<Seq<char>>,
    cursor: int,
    label: Seq<char>,
    k: int,
)
    requires
        k <= times.len(),
        forall|i: int| 0 <= i < times.len() ==> times[i] >= cursor,
    ensures
        count_upto(times, labels, cursor, label, k) == 0,
    decreases k,
{
    if k > 0 {
        lemma_nothing_before(times, labels, cursor, label, k - 1);
    }
}

/// Two distinct labels of the window never tie in rank.
proof fn lemma_ranks_total(times: Seq<i64>, labels: Seq<Seq<char>>, cursor: int, a: Seq<char>, b: Seq<char>)
    requires
        frequency(times, labels, cursor, a) > 0,
        frequency(times, labels, cursor, b) > 0,
        a != b,
    ensures
        ranks_before(times, labels, cursor, a, b) || ranks_before(times, labels, cursor, b, a),
{
    lemma_first_upto(times, labels, cursor, a, times.len() as int);
    lemma_first_upto(times, labels, cursor, b, times.len() as int);
}

/// With equal prefixes, the next entry of one shortcut list cannot rank
/// before the next entry of another.
proof fn lemma_no_better_entry(
    times: Seq<i64>,
    labels: Seq<Seq<char>>,
    cursor: int,
    r1: Seq<Seq<char>>,
    r2: Seq<Seq<char>>,
    p: int,
)
    requires
        is_shortcut_list(times, labels, cursor, r1),
        is_shortcut_list(times, labels, cursor, r2),
        0 <= p < r1.len(),
        p < r2.len(),
        forall|q: int| 0 <= q < p ==> r1[q] == r2[q],
    ensures
        !ranks_before(times, labels, cursor, r1[p], r2[p]),
{
    let x = r1[p];
    let y = r2[p];
    assert(frequency(times, labels, cursor, r1[p]) > 0);
    if ranks_before(times, labels, cursor, x, y) {
        if r2.contains(x) {
            let q = choose|q: int| 0 <= q < r2.len() && r2[q] == x;
            if q < p {
                assert(r1[q] == r1[p]);
            } else if q > p {
                assert(ranks_before(times, labels, cursor, r2[p], r2[q]));
            }
        } else {
            let last = r2.len() - 1;
            if p < last {
                assert(ranks_before(times, labels, cursor, r2[p], r2[last]));
            }
        }
    }
}

/// Two shortcut lists agree on their first `p` entries.
proof fn lemma_equal_prefix(
    times: Seq<i64>,
    labels: Seq<Seq<char>>,
    cursor: int,
    r1: Seq<Seq<char>>,
    r2: Seq<Seq<char>>,
    p: int,
)
    requires
        is_shortcut_list(times, labels, cursor, r1),
        is_shortcut_list(times, labels, cursor, r2),
        0 <= p <= r1.len(),
        p <= r2.len(),
    ensures
        forall|q: int| 0 <= q < p ==> r1[q] == r2[q],
    decreases p,
{
    if p > 0 {
        let k = p - 1;
        lemma_equal_prefix(times, labels, cursor, r1, r2, k);
        lemma_no_better_entry(times, labels, cursor, r1, r2, k);
        lemma_no_better_entry(times, labels, cursor, r2, r1, k);
        assert(frequency(times, labels, cursor, r1[k]) > 0);
        assert(frequency(times, labels, cursor, r2[k]) > 0);
        if r1[k] != r2[k] {
            lemma_ranks_total(times, labels, cursor, r1[k], r2[k]);
        }
    }
}

/// The shortcut list of a window is unique: whatever computes one gives the
/// same list on the same snapshots and cursor.
pub proof fn lemma_shortcut_list_unique(
    times: Seq<i64>,
    labels: Seq<Seq<char>>,
    cursor: int,
    r1: Seq<Seq<char>>,
    r2: Seq<Seq<char>>,
)
    requires
        is_shortcut_list(times, labels, cursor, r1),
        is_shortcut_list(times, labels, cursor, r2),
    ensures
        r1 == r2,
{
    let n = if r1.len() < r2.len() { r1.len() as int } else { r2.len() as int };
    lemma_equal_prefix(times, labels, cursor, r1, r2, n);
    if r1.len() < r2.len() {
        let z = r2[n];
        assert(frequency(times, labels, cursor, r2[n]) > 0);
        if r1.contains(z) {
            let q = choose|q: int| 0 <= q < r1.len() && r1[q] == z;
            assert(r2[q] == r2[n]);
        }
    }
    if r2.len() < r1.len() {
        let z = r1[n];
        assert(frequency(times, labels, cursor, r1[n]) > 0);
        if r2.contains(z) {
            let q = choose|q: int| 0 <= q < r2.len() && r2[q] == z;
            assert(r1[q] == r1[n]);
        }
    }
    assert(r1 =~= r2);
}

/// The default hint at `cursor`: the label of the nearest strictly earlier
/// labelled snapshot, or empty if there is none.
pub fn default_hint<I>(store: &SnapshotStore<I>, cursor: i64) -> (r: String)
    requires
        store.wf(),
    ensures
        r@ == hint_at(store.times@, labels_of(store.snapshots@), cursor as int),
{
    let ghost labels = labels_of(store.snapshots@);
    let ghost times = store.times@;
    let n = store.len();
    let mut k = store.count_before(cursor);
    proof {
        assert forall|j: int| k <= j <= n implies hint_upto(times, labels, cursor as int, j)
            == hint_upto(times, labels, cursor as int, k as int) by {
            lemma_hint_skips(times, labels, cursor as int, k as int, j);
        }
    }
    while k > 0
        invariant
            0 <= k <= n,
            n == store.times.len(),
            store.wf(),
            labels == labels_of(store.snapshots@),
            times == store.times@,
            forall|j: int| 0 <= j < k ==> times[j] < cursor,
            hint_at(times, labels, cursor as int) == hint_upto(times, labels, cursor as int, k as int),
        decreases k,
    {
        let label = &store.snapshots[k - 1].classification;
        assert(labels[k - 1] == label@);
        if !label.as_str().is_empty() {
            return label.clone();
        }
        k = k - 1;
    }
    String::new()
}

/// The distinct non-empty labels of the trailing window of `cursor`, in the
/// order of their first occurrence, each with its frequency.
fn tally_window<I>(store: &SnapshotStore<I>, cursor: i64) -> (r: (Vec<String>, Vec<usize>))
    requires
        store.wf(),
    ensures
        r.0.len() == r.1.len(),
        forall|j: int|
            0 <= j < r.0.len() ==> {
                &&& r.0[j]@.len() > 0
                &&& r.1[j] >= 1
                &&& r.1[j] == frequency(store.times@, labels_of(store.snapshots@), cursor as int, (#[trigger] r.0[j])@)
            },
        forall|a: int, b: int| 0 <= a < b < r.0.len() ==> r.0[a]@ != r.0[b]@,
        forall|a: int, b: int|
            0 <= a < b < r.0.len() ==> first_seen(store.times@, labels_of(store.snapshots@), cursor as int, r.0[a]@)
                < first_seen(store.times@, labels_of(store.snapshots@), cursor as int, r.0[b]@),
        forall|l: Seq<char>|
            l.len() > 0 && #[trigger] frequency(store.times@, labels_of(store.snapshots@), cursor as int, l) > 0
                ==> exists|j: int| 0 <= j < r.0.len() && (#[trigger] r.0[j])@ == l,
{
    let ghost times = store.times@;
    let ghost labels = labels_of(store.snapshots@);
    let n = store.len();
    let lo: i64 = if cursor >= i64::MIN + SHORTCUT_WINDOW_MS {
        cursor - SHORTCUT_WINDOW_MS
    } else {
        i64::MIN
    };
    let mut seen: Vec<String> = Vec::new();
    let mut counts: Vec<usize> = Vec::new();
    let mut i: usize = 0;
    while i < n
        invariant
            0 <= i <= n,
            n == store.times.len(),
            store.wf(),
            times == store.times@,
            labels == labels_of(store.snapshots@),
            lo as int == if cursor >= i64::MIN + SHORTCUT_WINDOW_MS {
                cursor - SHORTCUT_WINDOW_MS
            } else {
                i64::MIN as int
            },
            seen.len() == counts.len(),
            forall|j: int|
                0 <= j < seen.len() ==> {
                    &&& seen[j]@.len() > 0
                    &&& counts[j] == count_upto(times, labels, cursor as int, (#[trigger] seen[j])@, i as int)
                    &&& counts[j] <= i
                    &&& counts[j] >= 1
                },
            forall|a: int, b: int| 0 <= a < b < seen.len() ==> seen[a]@ != seen[b]@,
            forall|a: int, b: int|
                0 <= a < b < seen.len() ==> first_upto(times, labels, cursor as int, seen[a]@, i as int)
                    < first_upto(times, labels, cursor as int, seen[b]@, i as int),
            forall|j: int| 0 <= j < seen.len() ==> first_upto(times, labels, cursor as int, (#[trigger] seen[j])@, i as int) < i,
            forall|l: Seq<char>|
                l.len() > 0 && #[trigger] count_upto(times, labels, cursor as int, l, i as int) > 0
                    ==> exists|j: int| 0 <= j < seen.len() && (#[trigger] seen[j])@ == l,
        decreases n - i,
    {
        let t = store.times[i];
        let label = &store.snapshots[i].classification;
        assert(labels[i as int] == label@);
        let counted = t >= lo && t < cursor && !label.as_str().is_empty();
        assert(counted == (in_recent_window(times[i as int] as int, cursor as int) && labels[i as int].len() > 0));
        let ghost old_seen = seen@;
        let ghost mut at: int = 0;
        if counted {
            let m = seen.len();
            let mut j: usize = 0;
            while j < m && !(seen[j] == *label)
                invariant
                    0 <= j <= m,
                    m == seen.len(),
                    forall|k: int| 0 <= k < j ==> seen[k]@ != label@,
                decreases m - j,
            {
                j = j + 1;
            }
            if j < m {
                let c = counts[j];
                counts.set(j, c + 1);
            } else {
                seen.push(label.clone());
                counts.push(1);
            }
            proof {
                at = j as int;
            }
            assert(seen[at]@ == label@);
        }
        proof {
            assert forall|l: Seq<char>| l.len() > 0 implies #[trigger] count_upto(times, labels, cursor as int, l, i + 1)
                == count_upto(times, labels, cursor as int, l, i as int) + if counted && labels[i as int] == l {
                    1int
                } else {
                    0int
                } by {}
            assert forall|j: int| 0 <= j < seen.len() implies {
                &&& seen[j]@.len() > 0
                &&& counts[j] == count_upto(times, labels, cursor as int, (#[trigger] seen[j])@, i + 1)
                &&& counts[j] <= i + 1
                &&& counts[j] >= 1
            } by {
                if j < old_seen.len() {
                    assert(seen[j] == old_seen[j]);
                }
            }
            assert forall|j: int| 0 <= j < old_seen.len() implies first_upto(times, labels, cursor as int, (#[trigger] old_seen[j])@, i + 1)
                == first_upto(times, labels, cursor as int, old_seen[j]@, i as int) by {
                assert(count_upto(times, labels, cursor as int, old_seen[j]@, i as int) >= 1);
            }
            if seen.len() > old_seen.len() {
                let l = seen[seen.len() - 1]@;
                if count_upto(times, labels, cursor as int, l, i as int) > 0 {
                    let j = choose|j: int| 0 <= j < old_seen.len() && (#[trigger] old_seen[j])@ == l;
                    assert(seen[j] == old_seen[j]);
                }
                assert(first_upto(times, labels, cursor as int, l, i + 1) == i);
            }
            assert forall|j: int| 0 <= j < seen.len() implies first_upto(times, labels, cursor as int, (#[trigger] seen[j])@, i + 1) < i + 1 by {
                if j < old_seen.len() {
                    assert(seen[j] == old_seen[j]);
                }
            }
            assert forall|a: int, b: int|
                0 <= a < b < seen.len() implies first_upto(times, labels, cursor as int, seen[a]@, i + 1)
                    < first_upto(times, labels, cursor as int, seen[b]@, i + 1) by {
                assert(seen[a] == old_seen[a]);
                if b < old_seen.len() {
                    assert(seen[b] == old_seen[b]);
                }
            }
            assert forall|l: Seq<char>|
                l.len() > 0 && #[trigger] count_upto(times, labels, cursor as int, l, i + 1) > 0
                    implies exists|j: int| 0 <= j < seen.len() && (#[trigger] seen[j])@ == l by {
                if count_upto(times, labels, cursor as int, l, i as int) > 0 {
                    let j = choose|j: int| 0 <= j < old_seen.len() && (#[trigger] old_seen[j])@ == l;
                    assert(seen[j] == old_seen[j]);
                } else {
                    assert(counted && label@ == l);
                    assert(seen[at]@ == l);
                }
            }
        }
        i = i + 1;
    }
    assert forall|l: Seq<char>|
        l.len() > 0 && #[trigger] frequency(store.times@, labels_of(store.snapshots@), cursor as int, l) > 0
            implies exists|j: int| 0 <= j < seen.len() && (#[trigger] seen[j])@ == l by {
        assert(count_upto(times, labels, cursor as int, l, n as int) > 0);
        let j = choose|j: int| 0 <= j < seen.len() && (#[trigger] seen[j])@ == l;
        assert(seen[j]@ == l);
    }
    let r = (seen, counts);
    assert(r.0@ == seen@);
    r
}

/// The shortcut list at `cursor`: the ten most frequent non-empty labels
/// among the snapshots of the trailing four hours `[cursor - 4h, cursor)`,
/// most frequent first. Labels of equal frequency keep the order of their
/// first occurrence.
pub fn shortcuts<I>(store: &SnapshotStore<I>, cursor: i64) -> (r: Vec<String>)
    requires
        store.wf(),
    ensures
        is_shortcut_list(
            store.times@,
            labels_of(store.snapshots@),
            cursor as int,
            r@.map_values(|s: String| s@),
        ),
{
    let ghost times = store.times@;
    let ghost labels = labels_of(store.snapshots@);
    let (seen, counts) = tally_window(store, cursor);
    let m = seen.len();
    let mut taken: Vec<bool> = Vec::new();
    let mut k: usize = 0;
    while k < m
        invariant
            0 <= k <= m,
            taken.len() == k,
            forall|j: int| 0 <= j < k ==> !taken[j],
        decreases m - k,
    {
        taken.push(false);
        k = k + 1;
    }
    let mut picked: Vec<usize> = Vec::new();
    let mut r: Vec<String> = Vec::new();
    let mut exhausted = false;
    while r.len() < MAX_SHORTCUTS && !exhausted
        invariant
            m == seen.len(),
            m == counts.len(),
            m == taken.len(),
            r.len() == picked.len(),
            r.len() <= MAX_SHORTCUTS,
            forall|a: int| 0 <= a < picked.len() ==> {
                &&& (#[trigger] picked[a]) < m
                &&& r[a]@ == seen[picked[a] as int]@
                &&& taken[picked[a] as int]
            },
            forall|a: int, b: int| 0 <= a < b < picked.len() ==> picked[a] != picked[b],
            forall|j: int| 0 <= j < m && #[trigger] taken[j] ==> exists|a: int| 0 <= a < picked.len() && picked[a] == j,
            forall|a: int, j: int|
                0 <= a < picked.len() && 0 <= j < m && !taken[j] ==> {
                    ||| counts[#[trigger] picked[a] as int] > #[trigger] counts[j]
                    ||| counts[picked[a] as int] == counts[j] && picked[a] < j
                },
            forall|a: int, b: int|
                0 <= a < b < picked.len() ==> {
                    ||| counts[picked[a] as int] > counts[picked[b] as int]
                    ||| counts[picked[a] as int] == counts[picked[b] as int] && picked[a] < picked[b]
                },
            exhausted ==> forall|j: int| 0 <= j < m ==> #[trigger] taken[j],
        decreases MAX_SHORTCUTS - r.len(), if exhausted { 0int } else { 1int },
    {
        let mut found = false;
        let mut best: usize = 0;
        let mut j: usize = 0;
        while j < m
            invariant
                0 <= j <= m,
                m == counts.len(),
                m == taken.len(),
                found ==> best < j && !taken[best as int],
                found ==> forall|q: int|
                    0 <= q < j && !taken[q] && q != best ==> {
                        ||| counts[best as int] > #[trigger] counts[q]
                        ||| counts[best as int] == counts[q] && best < q
                    },
                !found ==> forall|q: int| 0 <= q < j ==> #[trigger] taken[q],
            decreases m - j,
        {
            if !taken[j] && (!found || counts[j] > counts[best]) {
                found = true;
                best = j;
            }
            j = j + 1;
        }
        if found {
            let ghost before = picked@;
            let ghost taken_before = taken@;
            taken.set(best, true);
            picked.push(best);
            r.push(seen[best].clone());
            assert forall|q: int| 0 <= q < m && #[trigger] taken[q] implies exists|a: int|
                0 <= a < picked.len() && picked[a] == q by {
                if q != best {
                    let a = choose|a: int| 0 <= a < before.len() && before[a] == q;
                    assert(picked[a] == q);
                } else {
                    assert(picked[picked.len() - 1] == q);
                }
            }
            assert forall|a: int, b: int| 0 <= a < b < picked.len() implies picked[a] != picked[b] by {
                if b == picked.len() - 1 {
                    assert(taken@[picked[a] as int]);
                }
            }
            assert forall|a: int, b: int| 0 <= a < b < picked.len() implies {
                ||| counts[picked[a] as int] > counts[picked[b] as int]
                ||| counts[picked[a] as int] == counts[picked[b] as int] && picked[a] < picked[b]
            } by {
                if b == picked.len() - 1 {
                    assert(picked[a] == before[a]);
                    assert(!taken_before[best as int]);
                }
            }
            assert forall|a: int, q: int| 0 <= a < picked.len() && 0 <= q < m && !taken[q] implies {
                ||| counts[#[trigger] picked[a] as int] > #[trigger] counts[q]
                ||| counts[picked[a] as int] == counts[q] && picked[a] < q
            } by {
                assert(!taken_before[q]);
                if a < before.len() {
                    assert(picked[a] == before[a]);
                }
            }
        } else {
            exhausted = true;
        }
    }
    proof {
        let rv = r@.map_values(|s: String| s@);
        assert forall|i: int| 0 <= i < rv.len() implies rv[i].len() > 0 && #[trigger] frequency(times, labels, cursor as int, rv[i]) > 0 by {
            assert(rv[i] == seen[picked[i] as int]@);
            assert(counts[picked[i] as int] >= 1);
        }
        assert forall|a: int, b: int| 0 <= a < b < rv.len() implies frequency(times, labels, cursor as int, rv[a])
            >= frequency(times, labels, cursor as int, rv[b]) by {
            assert(rv[a] == seen[picked[a] as int]@);
            assert(rv[b] == seen[picked[b] as int]@);
            assert(counts[picked[a] as int] >= counts[picked[b] as int]);
        }
        assert forall|l: Seq<char>|
            l.len() > 0 && #[trigger] frequency(times, labels, cursor as int, l) > 0 && !rv.contains(l) implies {
                &&& rv.len() == MAX_SHORTCUTS
                &&& frequency(times, labels, cursor as int, l) <= frequency(times, labels, cursor as int, rv.last())
                &&& ranks_before(times, labels, cursor as int, rv.last(), l)
            } by {
            let j = choose|j: int| 0 <= j < seen.len() && (#[trigger] seen[j])@ == l;
            if taken[j] {
                let a = choose|a: int| 0 <= a < picked.len() && picked[a] == j;
                assert(rv[a] == l);
            }
            assert(!taken[j]);
            assert(!exhausted);
            let last = picked.len() - 1;
            assert(counts[picked[last] as int] >= counts[j]);
            assert(rv.last() == seen[picked[last] as int]@);
            if counts[picked[last] as int] == counts[j] {
                assert(picked[last] < j);
            }
        }
        assert forall|a: int, b: int| 0 <= a < b < rv.len() implies ranks_before(times, labels, cursor as int, rv[a], rv[b]) by {
            assert(rv[a] == seen[picked[a] as int]@);
            assert(rv[b] == seen[picked[b] as int]@);
        }
        assert forall|a: int, b: int| 0 <= a < b < rv.len() implies rv[a] != rv[b] by {
            assert(picked[a] != picked[b]);
        }
    }
    r
}

/// The digits of a shortcut code: the code without one leading `+`.
pub open spec fn code_digits(s: Seq<char>) -> Seq<char> {
    if s.len() > 0 && s[0] == '+' {
        s.drop_first()
    } else {
        s
    }
}

/// The index that a shortcut code names, read as an unsigned machine
/// integer is read: an optional `+`, then one or more decimal digits, whose
/// value must fit in `usize`.
pub open spec fn shortcut_index(s: Seq<char>) -> Option<nat> {
    let d = code_digits(s);
    if d.len() > 0 && all_digits(d) && decimal_value(d) <= usize::MAX {
        Some(decimal_value(d))
    } else {
        None
    }
}

/// Why a classification input could not be resolved.
#[derive(PartialEq, Eq, Structural, Debug, Clone, Copy)]
pub enum ShortcutError {
    /// `\N` with no `N`-th shortcut.
    InvalidShortcutNumber(usize),
    /// `\` followed by something that is not a number.
    UnreadableShortcutCode,
}

/// What a classification input stands for: the hint when it is empty, the
/// `N`-th shortcut when it reads `\N`, and the text itself otherwise.
pub open spec fn resolution(input: Seq<char>, hint: Seq<char>, shortcuts: Seq<Seq<char>>) -> Result<
    Seq<char>,
    ShortcutError,
> {
    if input.len() == 0 {
        Ok(hint)
    } else if input[0] == '\\' {
        match shortcut_index(input.drop_first()) {
            Some(n) => if n < shortcuts.len() {
                Ok(shortcuts[n as int])
            } else {
                Err(ShortcutError::InvalidShortcutNumber(n as usize))
            },
            None => Err(ShortcutError::UnreadableShortcutCode),
        }
    } else {
        Ok(input)
    }
}

/// Reads the shortcut index written in `s` from position `from` on.
fn read_index(s: &str, from: usize) -> (r: Option<usize>)
    requires
        from <= s@.len(),
    ensures
        r == match shortcut_index(s@.subrange(from as int, s@.len() as int)) {
            Some(n) => Some(n as usize),
            None => None::<usize>,
        },
{
    let ghost code = s@.subrange(from as int, s@.len() as int);
    let n = s.unicode_len();
    let mut start = from;
    if start < n && s.get_char(start) == '+' {
        start = start + 1;
    }
    assert(s@.subrange(start as int, n as int) =~= code_digits(code));
    match read_decimal(s, start, n) {
        Some(v) => {
            if v <= usize::MAX as u64 {
                Some(v as usize)
            } else {
                None
            }
        },
        None => None,
    }
}

/// Resolves what the user typed into a classification: empty input takes
/// the hint, `\N` takes the `N`-th shortcut, and any other text is taken as
/// it is.
pub fn resolve_classification(input: &str, hint: &str, shortcuts: &Vec<String>) -> (r: Result<
    String,
    ShortcutError,
>)
    ensures
        match r {
            Ok(text) => resolution(input@, hint@, shortcuts@.map_values(|s: String| s@)) == Ok::<Seq<char>, ShortcutError>(text@),
            Err(e) => resolution(input@, hint@, shortcuts@.map_values(|s: String| s@)) == Err::<Seq<char>, ShortcutError>(e),
        },
{
    if input.is_empty() {
        return Ok(hint.to_owned());
    }
    if input.get_char(0) != '\\' {
        return Ok(input.to_owned());
    }
    assert(input@.subrange(1, input@.len() as int) =~= input@.drop_first());
    match read_index(input, 1) {
        Some(n) => {
            if n < shortcuts.len() {
                Ok(shortcuts[n].clone())
            } else {
                Err(ShortcutError::InvalidShortcutNumber(n))
            }
        },
        None => Err(ShortcutError::UnreadableShortcutCode),
    }
}

pub(crate) proof fn lemma_hint_skips(times: Seq<i64>, labels: Seq<Seq<char>>, cursor: int, k: int, j: int)
    requires
        0 <= k <= j <= times.len(),
        forall|i: int| k <= i < times.len() ==> times[i] >= cursor,
    ensures
        hint_upto(times, labels, cursor, j) == hint_upto(times, labels, cursor, k),
    decreases j - k,
{
    if j > k {
        lemma_hint_skips(times, labels, cursor, k, j - 1);
    }
}

} // verus!
