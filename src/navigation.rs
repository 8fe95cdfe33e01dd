use vstd::prelude::*;

use crate::eviction::{evict_outside_window, window_respected, WINDOW_RADIUS};
use crate::store::{kept_or_evicted, SnapshotStore};
use crate::suggest::{
    default_hint, frequency, hint_at, is_shortcut_list, labels_of, lemma_hint_skips,
    lemma_nothing_before, resolution, resolve_classification, shortcuts, ShortcutError,
};

verus! {

/// Why a classification could not be committed.
#[derive(PartialEq, Eq, Structural, Debug, Clone, Copy)]
pub enum CommitError {
    /// The input did not resolve to a label.
    Shortcut(ShortcutError),
    /// There is no snapshot at the cursor to label.
    NoSnapshot,
}

/// The browsing state: the store, the cursor ("current time") and what is
/// derived from the cursor, kept in step with it.
pub struct Navigator<I> {
    pub store: SnapshotStore<I>,
    /// The current time, in milliseconds since the epoch.
    pub cursor: i64,
    /// The label offered when the input is left empty.
    pub hint: String,
    /// The labels that `\0`, `\1`, ... stand for.
    pub shortcuts: Vec<String>,
    /// The number of snapshots kept decoded on each side of the cursor.
    pub window_radius: usize,
    /// Set whenever the cursor moves: the timeline should scroll to it.
    pub scroll_requested: bool,
}

impl<I> Navigator<I> {
    /// The hint and shortcuts belong to the cursor, and the images beyond
    /// the window around it are unloaded.
    pub open spec fn synced(&self) -> bool {
        &&& self.hint@ == hint_at(self.store.times@, labels_of(self.store.snapshots@), self.cursor as int)
        &&& is_shortcut_list(
            self.store.times@,
            labels_of(self.store.snapshots@),
            self.cursor as int,
            self.shortcuts@.map_values(|s: String| s@),
        )
        &&& window_respected(self.store, self.cursor as int, self.window_radius as int)
    }

    pub open spec fn wf(&self) -> bool {
        &&& self.store.wf()
        &&& self.store.times@.len() > 0 ==> self.store.has_time(self.cursor as int)
        &&& self.synced()
    }

    /// Browsing starts at the earliest snapshot, or at `now` when there is
    /// none. Nothing precedes the start, so there is no hint and there are no
    /// shortcuts yet, and the timeline is already at the start: no scroll
    /// is asked for.
    pub fn new(store: SnapshotStore<I>, now: i64) -> (r: Self)
        requires
            store.wf(),
        ensures
            r.wf(),
            r.store.times@ == store.times@,
            labels_of(r.store.snapshots@) == labels_of(store.snapshots@),
            kept_or_evicted(r.store.snapshots@, store.snapshots@),
            r.cursor == if store.times@.len() > 0 { store.times[0] } else { now },
            r.window_radius == WINDOW_RADIUS,
            r.hint@.len() == 0,
            r.shortcuts@.len() == 0,
            !r.scroll_requested,
    {
        let cursor = match store.first_time() {
            Some(t) => t,
            None => now,
        };
        let mut nav = Navigator {
            store,
            cursor,
            hint: String::new(),
            shortcuts: Vec::new(),
            window_radius: WINDOW_RADIUS,
            scroll_requested: false,
        };
        nav.resync();
        nav.scroll_requested = false;
        proof {
            let times = nav.store.times@;
            let labels = labels_of(nav.store.snapshots@);
            assert forall|i: int| 0 <= i < times.len() implies times[i] >= cursor by {
                if i > 0 {
                    assert(times[0] < times[i]);
                }
            }
            lemma_hint_skips(times, labels, cursor as int, 0, times.len() as int);
            if nav.shortcuts@.len() > 0 {
                let first = nav.shortcuts@.map_values(|s: String| s@)[0];
                assert(frequency(times, labels, cursor as int, first) > 0);
                lemma_nothing_before(times, labels, cursor as int, first, times.len() as int);
            }
        }
        nav
    }

    /// Brings what is derived from the cursor in step with it: evicts the
    /// images beyond the window, recomputes the hint and the shortcuts, and
    /// asks for the timeline to scroll to the cursor, in that order.
    fn resync(&mut self)
        requires
            old(self).store.wf(),
        ensures
            final(self).store.wf(),
            final(self).synced(),
            final(self).scroll_requested,
            final(self).cursor == old(self).cursor,
            final(self).window_radius == old(self).window_radius,
            final(self).store.times@ == old(self).store.times@,
            labels_of(final(self).store.snapshots@) == labels_of(old(self).store.snapshots@),
            kept_or_evicted(final(self).store.snapshots@, old(self).store.snapshots@),
    {
        let ghost before = self.store.snapshots@;
        evict_outside_window(&mut self.store, self.cursor, self.window_radius);
        assert(labels_of(self.store.snapshots@) =~= labels_of(before));
        assert(kept_or_evicted(self.store.snapshots@, before));
        self.hint = default_hint(&self.store, self.cursor);
        self.shortcuts = shortcuts(&self.store, self.cursor);
        self.scroll_requested = true;
    }

    /// Moves the cursor to the latest snapshot strictly before it; returns
    /// whether there was one. Without one nothing changes.
    pub fn move_previous(&mut self) -> (moved: bool)
        requires
            old(self).wf(),
        ensures
            final(self).wf(),
            final(self).store.times@ == old(self).store.times@,
            labels_of(final(self).store.snapshots@) == labels_of(old(self).store.snapshots@),
            moved == exists|i: int|
                0 <= i < old(self).store.times.len() && old(self).store.times[i] < old(self).cursor,
            moved ==> final(self).cursor < old(self).cursor && final(self).store.has_time(
                final(self).cursor as int,
            ) && forall|i: int|
                0 <= i < old(self).store.times.len() && old(self).store.times[i] < old(self).cursor
                    ==> old(self).store.times[i] <= final(self).cursor,
            kept_or_evicted(final(self).store.snapshots@, old(self).store.snapshots@),
            moved ==> final(self).scroll_requested,
            !moved ==> *final(self) == *old(self),
    {
        match self.store.time_before(self.cursor) {
            Some(t) => {
                self.cursor = t;
                self.resync();
                true
            },
            None => false,
        }
    }

    /// Moves the cursor to the earliest snapshot strictly after it; returns
    /// whether there was one. Without one nothing changes.
    pub fn move_next(&mut self) -> (moved: bool)
        requires
            old(self).wf(),
        ensures
            final(self).wf(),
            final(self).store.times@ == old(self).store.times@,
            labels_of(final(self).store.snapshots@) == labels_of(old(self).store.snapshots@),
            moved == exists|i: int|
                0 <= i < old(self).store.times.len() && old(self).store.times[i] > old(self).cursor,
            moved ==> final(self).cursor > old(self).cursor && final(self).store.has_time(
                final(self).cursor as int,
            ) && forall|i: int|
                0 <= i < old(self).store.times.len() && old(self).store.times[i] > old(self).cursor
                    ==> old(self).store.times[i] >= final(self).cursor,
            kept_or_evicted(final(self).store.snapshots@, old(self).store.snapshots@),
            moved ==> final(self).scroll_requested,
            !moved ==> *final(self) == *old(self),
    {
        match self.store.time_after(self.cursor) {
            Some(t) => {
                self.cursor = t;
                self.resync();
                true
            },
            None => false,
        }
    }

    /// Moves the cursor to the snapshot taken at `t` (a time picked on the
    /// timeline); returns whether there is one. Without one nothing changes.
    pub fn select_time(&mut self, t: i64) -> (moved: bool)
        requires
            old(self).wf(),
        ensures
            final(self).wf(),
            final(self).store.times@ == old(self).store.times@,
            labels_of(final(self).store.snapshots@) == labels_of(old(self).store.snapshots@),
            moved == old(self).store.has_time(t as int),
            moved ==> final(self).cursor == t,
            kept_or_evicted(final(self).store.snapshots@, old(self).store.snapshots@),
            moved ==> final(self).scroll_requested,
            !moved ==> *final(self) == *old(self),
    {
        match self.store.index_of(t) {
            Some(_) => {
                self.cursor = t;
                self.resync();
                true
            },
            None => false,
        }
    }

    /// Labels the snapshot at the cursor with what `text` resolves to (the
    /// hint, a shortcut, or the text itself), then moves to the next
    /// snapshot. Returns whether the cursor moved on, in which case the input
    /// should keep the focus for the next label. On an error nothing changes.
    pub fn commit_classification(&mut self, text: &str) -> (r: Result<bool, CommitError>)
        requires
            old(self).wf(),
        ensures
            final(self).wf(),
            final(self).store.times@ == old(self).store.times@,
            final(self).store.snapshots.len() == old(self).store.snapshots.len(),
            forall|i: int|
                0 <= i < final(self).store.snapshots.len() ==> (
                #[trigger] final(self).store.snapshots[i]).captures_kept(old(self).store.snapshots[i]),
            r is Ok ==> final(self).scroll_requested,
            ({
                let resolved = resolution(
                    text@,
                    old(self).hint@,
                    old(self).shortcuts@.map_values(|s: String| s@),
                );
                match r {
                    Err(CommitError::Shortcut(e)) => resolved == Err::<Seq<char>, ShortcutError>(e)
                        && *final(self) == *old(self),
                    Err(CommitError::NoSnapshot) => resolved is Ok && old(self).store.times@.len() == 0
                        && *final(self) == *old(self),
                    Ok(moved) => {
                        &&& resolved is Ok
                        &&& old(self).store.times@.len() > 0
                        &&& exists|k: int|
                            0 <= k < old(self).store.times.len() && old(self).store.times[k]
                                == old(self).cursor && labels_of(final(self).store.snapshots@)
                                == labels_of(old(self).store.snapshots@).update(k, resolved->Ok_0)
                        &&& moved == exists|i: int|
                            0 <= i < old(self).store.times.len() && old(self).store.times[i]
                                > old(self).cursor
                        &&& moved ==> final(self).cursor > old(self).cursor && forall|i: int|
                            0 <= i < old(self).store.times.len() && old(self).store.times[i]
                                > old(self).cursor ==> old(self).store.times[i] >= final(self).cursor
                        &&& !moved ==> final(self).cursor == old(self).cursor
                    },
                }
            }),
    {
        let label = match resolve_classification(text, self.hint.as_str(), &self.shortcuts) {
            Ok(label) => label,
            Err(e) => {
                return Err(CommitError::Shortcut(e));
            },
        };
        let k = match self.store.index_of(self.cursor) {
            Some(k) => k,
            None => {
                return Err(CommitError::NoSnapshot);
            },
        };
        let ghost before = self.store.snapshots@;
        let ghost label_view = label@;
        self.store.snapshots[k].classification = label;
        assert(labels_of(self.store.snapshots@) =~= labels_of(before).update(k as int, label_view));
        assert(self.store.wf()) by {
            assert(forall|i: int|
                0 <= i < self.store.snapshots.len() && i != k ==> self.store.snapshots[i] == before[i]);
            assert(before[k as int].wf());
        }
        let moved = match self.store.time_after(self.cursor) {
            Some(t) => {
                self.cursor = t;
                true
            },
            None => false,
        };
        let ghost labelled = self.store.snapshots@;
        self.resync();
        proof {
            assert forall|i: int| 0 <= i < self.store.snapshots.len() implies (
            #[trigger] self.store.snapshots[i]).captures_kept(before[i]) by {
                assert(labelled[i].screens == before[i].screens);
                assert(labelled[i].afk == before[i].afk);
                if self.store.snapshots[i] == labelled[i] {
                } else {
                    assert(self.store.snapshots[i].evicted_from(labelled[i]));
                }
            }
        }
        Ok(moved)
    }
}

} // verus!
