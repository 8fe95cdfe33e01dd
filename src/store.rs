use vstd::prelude::*;

use crate::lazy_image::LazyImage;

verus! {

/// The image of one monitor within a snapshot.
pub struct ScreenImage<I> {
    pub screen: u64,
    pub image: LazyImage<I>,
}

/// The captures of all monitors taken at one moment.
pub struct Snapshot<I> {
    /// One image per monitor, by strictly increasing monitor id.
    pub screens: Vec<ScreenImage<I>>,
    /// Whether the user was away from the keyboard at capture time.
    pub afk: bool,
    /// The user's label; empty when unlabelled.
    pub classification: String,
}

/// Snapshots keyed by capture time (milliseconds since the Unix epoch),
/// held in chronological order: `snapshots[i]` was taken at `times[i]`.
pub struct SnapshotStore<I> {
    pub times: Vec<i64>,
    pub snapshots: Vec<Snapshot<I>>,
}

pub open spec fn strictly_increasing(s: Seq<i64>) -> bool {
    forall|i: int, j: int| 0 <= i < j < s.len() ==> s[i] < s[j]
}

/// How many elements of `s` lie strictly below `t`.
pub open spec fn count_below(s: Seq<i64>, t: int) -> nat
    decreases s.len(),
{
    if s.len() == 0 {
        0
    } else {
        count_below(s.drop_last(), t) + if s.last() < t { 1nat } else { 0nat }
    }
}

/// In a sorted sequence the elements below `t` are exactly a prefix, of
/// length `count_below(s, t)`.
pub proof fn lemma_count_below(s: Seq<i64>, t: int)
    requires
        strictly_increasing(s),
    ensures
        count_below(s, t) <= s.len(),
        forall|i: int| 0 <= i < count_below(s, t) ==> s[i] < t,
        forall|i: int| count_below(s, t) <= i < s.len() ==> s[i] >= t,
    decreases s.len(),
{
    if s.len() > 0 {
        let p = s.drop_last();
        assert(strictly_increasing(p));
        lemma_count_below(p, t);
        assert(forall|i: int| 0 <= i < p.len() ==> p[i] == s[i]);
        if s.last() < t {
            if count_below(p, t) < p.len() {
                assert(p[count_below(p, t) as int] < s.last());
            }
        }
    }
}

/// `new` is the monitors `old` with `image` put in at position `p`, in
/// order of monitor id: in place of the image its monitor had, or inserted
/// where that monitor had none. The other monitors keep their images.
pub open spec fn screen_put<I>(old: Seq<ScreenImage<I>>, new: Seq<ScreenImage<I>>, p: int, image: ScreenImage<I>) -> bool {
    &&& 0 <= p <= old.len()
    &&& forall|i: int| 0 <= i < p ==> old[i].screen < image.screen
    &&& if p < old.len() && old[p].screen == image.screen {
        new == old.update(p, image)
    } else {
        &&& forall|i: int| p <= i < old.len() ==> old[i].screen > image.screen
        &&& new == old.insert(p, image)
    }
}

/// Each snapshot of `new` is its counterpart in `old`, or that one with
/// all its images evicted.
pub open spec fn kept_or_evicted<I>(new: Seq<Snapshot<I>>, old: Seq<Snapshot<I>>) -> bool {
    &&& new.len() == old.len()
    &&& forall|i: int|
        0 <= i < new.len() ==> (#[trigger] new[i]) == old[i] || new[i].evicted_from(old[i])
}

impl<I> Snapshot<I> {
    pub open spec fn wf(&self) -> bool {
        &&& forall|i: int, j: int|
            0 <= i < j < self.screens.len() ==> self.screens[i].screen < self.screens[j].screen
        &&& forall|i: int| 0 <= i < self.screens.len() ==> #[trigger] self.screens[i].image.wf()
    }

    /// No image of this snapshot holds decoded data or a load in flight.
    pub open spec fn all_unloaded(&self) -> bool {
        forall|i: int| 0 <= i < self.screens.len() ==> #[trigger] self.screens[i].image.is_unloaded()
    }

    /// Some image of this snapshot holds decoded data.
    pub open spec fn any_resident(&self) -> bool {
        exists|i: int| 0 <= i < self.screens.len() && #[trigger] self.screens[i].image.is_resident()
    }

    /// `self` is `old` with every image evicted: same monitors, same paths,
    /// same labels.
    pub open spec fn evicted_from(&self, old: Snapshot<I>) -> bool {
        &&& self.afk == old.afk
        &&& self.classification == old.classification
        &&& self.screens.len() == old.screens.len()
        &&& forall|i: int| 0 <= i < self.screens.len() ==> {
            &&& (#[trigger] self.screens[i]).screen == old.screens[i].screen
            &&& self.screens[i].image.path == old.screens[i].image.path
            &&& self.screens[i].image.tickets_issued == old.screens[i].image.tickets_issued
            &&& self.screens[i].image.is_unloaded()
        }
    }

    /// Puts `image` in as the image of monitor `screen`, replacing the one
    /// that monitor had; returns its position among the monitors.
    pub fn put_screen(&mut self, screen: u64, image: LazyImage<I>) -> (p: usize)
        requires
            old(self).wf(),
            image.wf(),
        ensures
            final(self).wf(),
            final(self).afk == old(self).afk,
            final(self).classification == old(self).classification,
            screen_put(old(self).screens@, final(self).screens@, p as int, ScreenImage { screen, image }),
    {
        let n = self.screens.len();
        let mut p: usize = 0;
        while p < n && self.screens[p].screen < screen
            invariant
                0 <= p <= n,
                n == self.screens.len(),
                forall|k: int| 0 <= k < p ==> self.screens[k].screen < screen,
            decreases n - p,
        {
            p = p + 1;
        }
        if p < n && self.screens[p].screen == screen {
            self.screens.set(p, ScreenImage { screen, image });
        } else {
            self.screens.insert(p, ScreenImage { screen, image });
        }
        p
    }

    /// `self` holds the captures of `old`: the same away flag and monitors,
    /// each image either as it was or evicted. The label may differ.
    pub open spec fn captures_kept(&self, old: Snapshot<I>) -> bool {
        &&& self.afk == old.afk
        &&& self.screens.len() == old.screens.len()
        &&& forall|i: int| 0 <= i < self.screens.len() ==> {
            &&& (#[trigger] self.screens[i]).screen == old.screens[i].screen
            &&& self.screens[i].image.path == old.screens[i].image.path
            &&& self.screens[i].image.tickets_issued == old.screens[i].image.tickets_issued
            &&& (self.screens[i].image == old.screens[i].image || self.screens[i].image.is_unloaded())
        }
    }

    /// Evicts every image of this snapshot.
    pub fn evict_all(&mut self)
        requires
            old(self).wf(),
        ensures
            final(self).wf(),
            final(self).all_unloaded(),
            final(self).evicted_from(*old(self)),
            old(self).all_unloaded() ==> final(self).screens@ == old(self).screens@,
    {
        let n = self.screens.len();
        let mut j: usize = 0;
        while j < n
            invariant
                n == self.screens.len(),
                n == old(self).screens.len(),
                0 <= j <= n,
                self.wf(),
                self.afk == old(self).afk,
                self.classification == old(self).classification,
                forall|i: int| 0 <= i < n ==> {
                    &&& (#[trigger] self.screens[i]).screen == old(self).screens[i].screen
                    &&& self.screens[i].image.path == old(self).screens[i].image.path
                    &&& self.screens[i].image.tickets_issued
                        == old(self).screens[i].image.tickets_issued
                },
                forall|i: int| 0 <= i < j ==> (#[trigger] self.screens[i]).image.is_unloaded(),
                forall|i: int| j <= i < n ==> #[trigger] self.screens[i] == old(self).screens[i],
                old(self).all_unloaded() ==> forall|i: int|
                    0 <= i < n ==> #[trigger] self.screens[i] == old(self).screens[i],
            decreases n - j,
        {
            assert(self.screens[j as int].image.wf());
            proof {
                if old(self).all_unloaded() {
                    assert(old(self).screens[j as int].image.is_unloaded());
                }
            }
            self.screens[j].image.clear();
            j = j + 1;
        }
        proof {
            if old(self).all_unloaded() {
                assert(self.screens@ =~= old(self).screens@);
            }
        }
    }
}

impl<I> SnapshotStore<I> {
    pub open spec fn wf(&self) -> bool {
        &&& self.times.len() == self.snapshots.len()
        &&& strictly_increasing(self.times@)
        &&& forall|i: int| 0 <= i < self.snapshots.len() ==> (#[trigger] self.snapshots[i]).wf()
    }

    /// Whether a snapshot was taken at `t`.
    pub open spec fn has_time(&self, t: int) -> bool {
        exists|i: int| 0 <= i < self.times.len() && self.times[i] == t
    }

    /// `self` is `old` after the capture of monitor `screen` at `time`
    /// with image file `path` was recorded in the snapshot at index `k`.
    pub open spec fn capture_added(&self, old: Self, k: int, time: i64, screen: u64, afk: bool, path: String) -> bool {
        &&& k == count_below(old.times@, time as int)
        &&& k < self.times.len()
        &&& self.times[k] == time
        &&& old.has_time(time as int) ==> {
            &&& self.times@ == old.times@
            &&& self.snapshots@ == old.snapshots@.update(k, self.snapshots[k])
            &&& self.snapshots[k].afk == old.snapshots[k].afk
            &&& self.snapshots[k].classification == old.snapshots[k].classification
            &&& exists|p: int|
                #[trigger] screen_put(
                    old.snapshots[k].screens@,
                    self.snapshots[k].screens@,
                    p,
                    ScreenImage { screen, image: LazyImage::<I>::new_spec(path) },
                )
        }
        &&& !old.has_time(time as int) ==> {
            &&& self.times@ == old.times@.insert(k, time)
            &&& self.snapshots@ == old.snapshots@.insert(k, self.snapshots[k])
            &&& self.snapshots[k].afk == afk
            &&& self.snapshots[k].classification@.len() == 0
            &&& self.snapshots[k].screens@ == seq![
                ScreenImage { screen, image: LazyImage::<I>::new_spec(path) },
            ]
        }
    }

    pub fn new() -> (r: Self)
        ensures
            r.wf(),
            r.times@.len() == 0,
    {
        SnapshotStore { times: Vec::new(), snapshots: Vec::new() }
    }

    pub fn len(&self) -> (r: usize)
        ensures
            r == self.times@.len(),
    {
        self.times.len()
    }

    /// The number of snapshots taken strictly before `t`, which is also the
    /// index of the first snapshot at or after `t`.
    pub fn count_before(&self, t: i64) -> (r: usize)
        requires
            self.wf(),
        ensures
            r == count_below(self.times@, t as int),
            r <= self.times@.len(),
            forall|i: int| 0 <= i < r ==> self.times[i] < t,
            forall|i: int| r <= i < self.times.len() ==> self.times[i] >= t,
    {
        proof {
            lemma_count_below(self.times@, t as int);
        }
        let n = self.times.len();
        let mut i: usize = 0;
        while i < n && self.times[i] < t
            invariant
                0 <= i <= n,
                n == self.times.len(),
                forall|k: int| 0 <= k < i ==> self.times[k] < t,
            decreases n - i,
        {
            i = i + 1;
        }
        proof {
            let c = count_below(self.times@, t as int);
            if i < c {
                assert(self.times[i as int] < t);
            }
            if i > c {
                assert(self.times[c as int] < t);
            }
        }
        i
    }

    /// The index of the snapshot taken at `t`, if any.
    pub fn index_of(&self, t: i64) -> (r: Option<usize>)
        requires
            self.wf(),
        ensures
            match r {
                Some(i) => i < self.times.len() && self.times[i as int] == t,
                None => !self.has_time(t as int),
            },
    {
        let i = self.count_before(t);
        if i < self.times.len() && self.times[i] == t {
            Some(i)
        } else {
            None
        }
    }

    /// The time of the latest snapshot strictly before `t`.
    pub fn time_before(&self, t: i64) -> (r: Option<i64>)
        requires
            self.wf(),
        ensures
            match r {
                Some(p) => self.has_time(p as int) && p < t && forall|i: int|
                    0 <= i < self.times.len() && self.times[i] < t ==> self.times[i] <= p,
                None => forall|i: int| 0 <= i < self.times.len() ==> self.times[i] >= t,
            },
    {
        let i = self.count_before(t);
        if i == 0 {
            None
        } else {
            Some(self.times[i - 1])
        }
    }

    /// The time of the earliest snapshot strictly after `t`.
    pub fn time_after(&self, t: i64) -> (r: Option<i64>)
        requires
            self.wf(),
        ensures
            match r {
                Some(p) => self.has_time(p as int) && p > t && forall|i: int|
                    0 <= i < self.times.len() && self.times[i] > t ==> self.times[i] >= p,
                None => forall|i: int| 0 <= i < self.times.len() ==> self.times[i] <= t,
            },
    {
        if t == i64::MAX {
            return None;
        }
        let i = self.count_before(t + 1);
        if i < self.times.len() {
            Some(self.times[i])
        } else {
            None
        }
    }

    /// Records the image file `path` of monitor `screen` captured at `time`.
    /// A capture at a time the store already holds joins that snapshot,
    /// replacing an earlier image of the same monitor; otherwise it starts a
    /// new unlabelled snapshot whose away flag is `afk`. Returns the index of
    /// the snapshot.
    pub fn add_capture(&mut self, time: i64, screen: u64, afk: bool, path: String) -> (k: usize)
        requires
            old(self).wf(),
        ensures
            final(self).wf(),
            final(self).capture_added(*old(self), k as int, time, screen, afk, path),
    {
        proof {
            lemma_count_below(self.times@, time as int);
        }
        let k = self.count_before(time);
        let image = LazyImage::new(path);
        if k < self.times.len() && self.times[k] == time {
            let mut snap = self.snapshots.remove(k);
            assert(snap.wf());
            let p = snap.put_screen(screen, image);
            self.snapshots.insert(k, snap);
            assert(self.snapshots@ =~= old(self).snapshots@.update(k as int, self.snapshots[k as int]));
            assert(screen_put(
                old(self).snapshots[k as int].screens@,
                self.snapshots[k as int].screens@,
                p as int,
                ScreenImage { screen, image: LazyImage::<I>::new_spec(path) },
            ));
            assert(forall|i: int|
                0 <= i < self.snapshots.len() ==> (#[trigger] self.snapshots[i]).wf());
        } else {
            proof {
                if self.has_time(time as int) {
                    let j = choose|j: int| 0 <= j < self.times.len() && self.times[j] == time;
                    assert(false);
                }
            }
            let mut screens: Vec<ScreenImage<I>> = Vec::new();
            screens.push(ScreenImage { screen, image });
            let snap = Snapshot { screens, afk, classification: String::new() };
            self.times.insert(k, time);
            self.snapshots.insert(k, snap);
            assert(forall|i: int|
                0 <= i < self.snapshots.len() ==> (#[trigger] self.snapshots[i]).wf());
        }
        k
    }

    pub fn first_time(&self) -> (r: Option<i64>)
        requires
            self.wf(),
        ensures
            self.times@.len() == 0 ==> r is None,
            self.times@.len() > 0 ==> r == Some(self.times[0]),
    {
        if self.times.len() == 0 {
            None
        } else {
            Some(self.times[0])
        }
    }

    pub fn last_time(&self) -> (r: Option<i64>)
        requires
            self.wf(),
        ensures
            self.times@.len() == 0 ==> r is None,
            self.times@.len() > 0 ==> r == Some(self.times@.last()),
    {
        if self.times.len() == 0 {
            None
        } else {
            Some(self.times[self.times.len() - 1])
        }
    }
}

} // verus!
