use vstd::prelude::*;

use crate::store::{Snapshot, SnapshotStore};

verus! {

pub const MS_PER_SECOND: i64 = 1000;

pub const MS_PER_MINUTE: i64 = 60 * 1000;

pub const MS_PER_HOUR: i64 = 60 * 60 * 1000;

pub const MS_PER_DAY: i64 = 24 * 60 * 60 * 1000;

/// Pixels per hour of the timeline at zoom 1.
pub const BASE_PIXELS_PER_HOUR: i128 = 50;

/// Positions on the timeline are counted in sub-pixels, this many to a pixel.
pub const SUBPIXELS_PER_PIXEL: i128 = 1000;

/// How far from a snapshot's marker a click still selects it, in sub-pixels.
pub const CLICK_RADIUS: i128 = 10 * 1000;

/// The largest time, in milliseconds either side of the epoch, that the
/// layout maps to a position.
pub const TIME_BOUND: i128 = 10_000_000_000_000_000_000_000;

/// The largest position, in sub-pixels either side of the top, that the
/// layout maps back to a time.
pub const POS_BOUND: i128 = 10_000_000_000_000_000_000_000_000_000_000;

/// The largest viewport coordinate, in sub-pixels, that the layout accepts.
pub const VIEW_BOUND: i128 = 10_000_000_000_000_000_000;

/// Sub-pixels per hour at zoom `zoom`.
pub open spec fn units_per_hour(zoom: int) -> int {
    zoom * BASE_PIXELS_PER_HOUR * SUBPIXELS_PER_PIXEL
}

/// `a / b` rounded up, for `b > 0`.
pub open spec fn ceil_div(a: int, b: int) -> int {
    -((-a) / b)
}

/// The position of time `t` on a timeline whose top is at `first`:
/// the hours since `first`, times the pixels per hour, rounded down to a
/// sub-pixel.
#[verifier::opaque]
pub open spec fn pos_of(first: int, zoom: int, t: int) -> int {
    ((t - first) * units_per_hour(zoom)) / (MS_PER_HOUR as int)
}

/// The time at position `p`: the earliest millisecond whose position is at
/// or after `p`.
#[verifier::opaque]
pub open spec fn time_at(first: int, zoom: int, p: int) -> int {
    first + ceil_div(p * MS_PER_HOUR, units_per_hour(zoom))
}

/// The length in milliseconds of a span of `p` sub-pixels, rounded up.
#[verifier::opaque]
pub open spec fn span_ms(zoom: int, p: int) -> int {
    ceil_div(p * MS_PER_HOUR, units_per_hour(zoom))
}

/// `t` rounded down to a multiple of `step` on the local clock that runs
/// `offset` milliseconds ahead of UTC.
pub open spec fn floor_to_step(t: int, step: int, offset: int) -> int {
    t - (t + offset) % step
}

/// The spacing of the gridlines at zoom `zoom`: coarser when zoomed out.
pub open spec fn gridline_step_spec(zoom: int) -> int {
    if zoom <= 4 {
        MS_PER_HOUR as int
    } else if zoom <= 9 {
        15 * MS_PER_MINUTE
    } else if zoom <= 49 {
        5 * MS_PER_MINUTE
    } else if zoom <= 100 {
        MS_PER_MINUTE as int
    } else {
        MS_PER_SECOND as int
    }
}

/// A time going back from the timeline to wall-clock time and forward again
/// lands on the same spot: the time at the position of `t` is at most `t`
/// and less than one sub-pixel's worth of time before it.
pub proof fn lemma_pixel_round_trip(first: int, zoom: int, t: int)
    requires
        zoom >= 1,
    ensures
        time_at(first, zoom, pos_of(first, zoom, t)) <= t,
        (t - time_at(first, zoom, pos_of(first, zoom, t))) * units_per_hour(zoom) < MS_PER_HOUR,
{
    reveal(pos_of);
    reveal(time_at);
    let k = units_per_hour(zoom);
    let m = MS_PER_HOUR as int;
    let d = t - first;
    let p = pos_of(first, zoom, t);
    assert(k >= 50000) by (nonlinear_arith)
        requires
            k == zoom * 50 * 1000,
            zoom >= 1,
    ;
    lemma_floor_div_bounds(d * k, m);
    assert(p == (d * k) / m);
    lemma_floor_div_bounds(-(p * m), k);
    let c = ceil_div(p * m, k);
    assert(c * k >= p * m) by (nonlinear_arith)
        requires
            c == -((-(p * m)) / k),
            k * ((-(p * m)) / k) <= -(p * m),
    ;
    assert((c - 1) * k < p * m) by (nonlinear_arith)
        requires
            c == -((-(p * m)) / k),
            k * ((-(p * m)) / k) <= -(p * m),
            -(p * m) < k * ((-(p * m)) / k) + k,
    ;
    assert(c <= d) by (nonlinear_arith)
        requires
            (c - 1) * k < p * m,
            p * m <= d * k,
            k > 0,
    ;
    assert((d - c) * k < m) by (nonlinear_arith)
        requires
            d * k < p * m + m,
            c * k >= p * m,
    ;
}

/// `b * (a / b) <= a < b * (a / b) + b` for `b > 0`.
proof fn lemma_floor_div_bounds(a: int, b: int)
    requires
        b > 0,
    ensures
        b * (a / b) <= a,
        a < b * (a / b) + b,
{
    vstd::arithmetic::div_mod::lemma_fundamental_div_mod(a, b);
}

/// `a / b` rounded down, for `b > 0`.
fn floor_div(a: i128, b: i128) -> (q: i128)
    requires
        b > 0,
        a > i128::MIN,
    ensures
        q == a / b,
{
    if a >= 0 {
        a / b
    } else {
        let na = -a;
        let c = (na - 1) / b;
        proof {
            lemma_floor_div_bounds(na - 1, b as int);
            lemma_floor_div_bounds(a as int, b as int);
            let q = a as int / b as int;
            assert(q == -c - 1) by (nonlinear_arith)
                requires
                    b * c <= na - 1,
                    na - 1 < b * c + b,
                    b * q <= a,
                    a < b * q + b,
                    na == -a,
                    b > 0,
            ;
        }
        -c - 1
    }
}

/// `a` modulo `b`, in `[0, b)`, for `b > 0`.
fn floor_mod(a: i128, b: i128) -> (r: i128)
    requires
        0 < b <= MS_PER_DAY,
        -2 * TIME_BOUND <= a <= 2 * TIME_BOUND,
    ensures
        r == a % b,
        0 <= r < b,
{
    let q = floor_div(a, b);
    proof {
        vstd::arithmetic::div_mod::lemma_fundamental_div_mod(a as int, b as int);
        lemma_floor_div_bounds(a as int, b as int);
    }
    a - b * q
}

/// `t` rounded down to a multiple of `step` on the local clock that runs
/// `offset` milliseconds ahead of UTC.
fn floor_to_step_exec(t: i128, step: i64, offset: i64) -> (r: i128)
    requires
        0 < step <= MS_PER_DAY,
        -MS_PER_DAY < offset < MS_PER_DAY,
        -TIME_BOUND <= t <= TIME_BOUND,
    ensures
        r == floor_to_step(t as int, step as int, offset as int),
        t - step < r <= t,
{
    t - floor_mod(t + offset as i128, step as i128)
}

/// The top of the timeline: the hour that holds the earliest snapshot, or
/// the cursor when there is none, on the local clock.
pub open spec fn first_hour_of(times: Seq<i64>, cursor: int, offset: int) -> int {
    floor_to_step(if times.len() > 0 { times[0] as int } else { cursor }, MS_PER_HOUR as int, offset)
}

/// The bottom of the timeline: one hour past the start of the hour that holds
/// the latest snapshot, or the cursor when there is none.
pub open spec fn last_hour_of(times: Seq<i64>, cursor: int, offset: int) -> int {
    floor_to_step(if times.len() > 0 { times.last() as int } else { cursor }, MS_PER_HOUR as int, offset)
        + MS_PER_HOUR
}

/// How a snapshot's marker is drawn.
#[derive(PartialEq, Eq, Structural, Debug, Clone, Copy)]
pub enum MarkerKind {
    /// The snapshot carries a label.
    Labeled,
    /// Unlabelled, taken while the user was away.
    Afk,
    /// Unlabelled, with the user present.
    Normal,
}

/// The kind of a snapshot's marker: labelled before away before plain.
pub open spec fn kind_of<I>(s: Snapshot<I>) -> MarkerKind {
    if s.classification@.len() > 0 {
        MarkerKind::Labeled
    } else if s.afk {
        MarkerKind::Afk
    } else {
        MarkerKind::Normal
    }
}

/// A snapshot's tick on the timeline.
#[derive(PartialEq, Eq, Structural, Debug, Clone, Copy)]
pub struct TimelineMarker {
    /// The snapshot's index in the store.
    pub index: usize,
    /// Its position, in sub-pixels from the top.
    pub pos: i128,
    pub kind: MarkerKind,
    /// Whether its label fits above it without running into the previous
    /// marker.
    pub show_label: bool,
}

/// A horizontal line of the time grid.
#[derive(PartialEq, Eq, Structural, Debug, Clone, Copy)]
pub struct Gridline {
    /// Its time, in milliseconds since the epoch.
    pub time: i128,
    /// Its position, in sub-pixels from the top.
    pub pos: i128,
}

pub open spec fn dist(a: int, b: int) -> int {
    if a >= b {
        a - b
    } else {
        b - a
    }
}

pub open spec fn clamp(x: int, lo: int, hi: int) -> int {
    if x < lo {
        lo
    } else if x > hi {
        hi
    } else {
        x
    }
}

/// The spacing of the gridlines at zoom `zoom`, in milliseconds.
pub fn gridline_step(zoom: u32) -> (r: i64)
    ensures
        r == gridline_step_spec(zoom as int),
        r > 0,
{
    if zoom <= 4 {
        MS_PER_HOUR
    } else if zoom <= 9 {
        15 * MS_PER_MINUTE
    } else if zoom <= 49 {
        5 * MS_PER_MINUTE
    } else if zoom <= 100 {
        MS_PER_MINUTE
    } else {
        MS_PER_SECOND
    }
}

/// The kind of the marker of `snap`.
pub fn marker_kind<I>(snap: &Snapshot<I>) -> (r: MarkerKind)
    ensures
        r == kind_of(*snap),
{
    if !snap.classification.as_str().is_empty() {
        MarkerKind::Labeled
    } else if snap.afk {
        MarkerKind::Afk
    } else {
        MarkerKind::Normal
    }
}

/// The length in milliseconds of a span of `p` sub-pixels at zoom `zoom`,
/// rounded up.
fn span(zoom: u32, p: i128) -> (r: i128)
    requires
        zoom >= 1,
        0 <= p <= VIEW_BOUND,
    ensures
        r == span_ms(zoom as int, p as int),
        0 <= r <= TIME_BOUND,
{
    let n = p * MS_PER_HOUR as i128;
    let k = zoom as i128 * BASE_PIXELS_PER_HOUR * SUBPIXELS_PER_PIXEL;
    let q = floor_div(-n, k);
    proof {
        reveal(span_ms);
        lemma_floor_div_bounds(-n, k as int);
        assert(-VIEW_BOUND * 72 - 1 <= q <= 0) by (nonlinear_arith)
            requires
                k * q <= -n,
                -n < k * q + k,
                k >= 50000,
                n == p * 3_600_000,
                0 <= p <= VIEW_BOUND,
        ;
    }
    -q
}

/// The mapping between time and the vertical axis of the timeline.
pub struct TimelineLayout {
    /// The time at the top, in milliseconds since the epoch.
    pub first_hour: i128,
    /// The time at the bottom.
    pub last_hour: i128,
    /// The zoom multiplier.
    pub zoom: u32,
    /// How far the local clock runs ahead of UTC, in milliseconds.
    pub zone_offset_ms: i64,
}

impl TimelineLayout {
    pub open spec fn wf(&self) -> bool {
        &&& self.zoom >= 1
        &&& -MS_PER_DAY < self.zone_offset_ms < MS_PER_DAY
        &&& i64::MIN - MS_PER_HOUR <= self.first_hour <= self.last_hour <= i64::MAX + MS_PER_HOUR
    }

    /// The layout of the timeline of `store` at zoom `zoom`, read on a
    /// clock `zone_offset_ms` ahead of UTC; `cursor` places it when the
    /// store is empty.
    pub fn new<I>(store: &SnapshotStore<I>, cursor: i64, zoom: u32, zone_offset_ms: i64) -> (r: Self)
        requires
            store.wf(),
            zoom >= 1,
            -MS_PER_DAY < zone_offset_ms < MS_PER_DAY,
        ensures
            r.wf(),
            r.zoom == zoom,
            r.zone_offset_ms == zone_offset_ms,
            r.first_hour == first_hour_of(store.times@, cursor as int, zone_offset_ms as int),
            r.last_hour == last_hour_of(store.times@, cursor as int, zone_offset_ms as int),
    {
        let earliest = match store.first_time() {
            Some(t) => t,
            None => cursor,
        };
        let latest = match store.last_time() {
            Some(t) => t,
            None => cursor,
        };
        proof {
            if store.times@.len() > 0 {
                assert(store.times[0] <= store.times@.last());
            }
        }
        let first_hour = floor_to_step_exec(earliest as i128, MS_PER_HOUR, zone_offset_ms);
        let last_hour = floor_to_step_exec(latest as i128, MS_PER_HOUR, zone_offset_ms) + MS_PER_HOUR as i128;
        TimelineLayout { first_hour, last_hour, zoom, zone_offset_ms }
    }

    /// The position of time `t`, in sub-pixels from the top.
    pub fn time_to_pos(&self, t: i128) -> (r: i128)
        requires
            self.wf(),
            -TIME_BOUND <= t <= TIME_BOUND,
        ensures
            r == pos_of(self.first_hour as int, self.zoom as int, t as int),
            -POS_BOUND < r < POS_BOUND,
    {
        let d = t - self.first_hour;
        let z = self.zoom as i128;
        assert(-(2 * TIME_BOUND * 5_000_000_000 * 50000) <= d * z * 50000 <= 2 * TIME_BOUND * 5_000_000_000 * 50000) by (nonlinear_arith)
            requires
                -2 * TIME_BOUND <= d <= 2 * TIME_BOUND,
                1 <= z <= 5_000_000_000,
        ;
        let n = d * z * BASE_PIXELS_PER_HOUR * SUBPIXELS_PER_PIXEL;
        assert(n == d * units_per_hour(self.zoom as int)) by (nonlinear_arith)
            requires
                n == d * z * 50 * 1000,
                units_per_hour(self.zoom as int) == z * 50 * 1000,
        ;
        let r = floor_div(n, MS_PER_HOUR as i128);
        proof {
            reveal(pos_of);
            lemma_floor_div_bounds(n as int, MS_PER_HOUR as int);
            assert(-POS_BOUND < r < POS_BOUND) by (nonlinear_arith)
                requires
                    3_600_000 * r <= n,
                    n < 3_600_000 * r + 3_600_000,
                    -(2 * TIME_BOUND * 5_000_000_000 * 50000) <= n <= 2 * TIME_BOUND * 5_000_000_000 * 50000,
            ;
        }
        r
    }

    /// The time at position `p`: the earliest millisecond whose position is
    /// at or after `p`.
    pub fn pos_to_time(&self, p: i128) -> (r: i128)
        requires
            self.wf(),
            -POS_BOUND <= p <= POS_BOUND,
        ensures
            r == time_at(self.first_hour as int, self.zoom as int, p as int),
            -VIEW_BOUND <= p <= VIEW_BOUND ==> -TIME_BOUND / 2 <= r <= TIME_BOUND / 2,
    {
        let n = p * MS_PER_HOUR as i128;
        let k = self.zoom as i128 * BASE_PIXELS_PER_HOUR * SUBPIXELS_PER_PIXEL;
        let q = floor_div(-n, k);
        proof {
            reveal(time_at);
            lemma_floor_div_bounds(-n, k as int);
            assert(-POS_BOUND * 4_000_000 <= q <= POS_BOUND * 4_000_000) by (nonlinear_arith)
                requires
                    k * q <= -n,
                    -n < k * q + k,
                    k >= 50000,
                    -POS_BOUND * 3_600_000 <= n <= POS_BOUND * 3_600_000,
            ;
            if -VIEW_BOUND <= p <= VIEW_BOUND {
                assert(-VIEW_BOUND * 72 - 1 <= q <= VIEW_BOUND * 72 + 1) by (nonlinear_arith)
                    requires
                        k * q <= -n,
                        -n < k * q + k,
                        k >= 50000,
                        n == p * 3_600_000,
                        -VIEW_BOUND <= p <= VIEW_BOUND,
                ;
            }
        }
        self.first_hour - q
    }

    /// The height of the whole timeline, in sub-pixels.
    pub fn content_height(&self) -> (r: i128)
        requires
            self.wf(),
        ensures
            r == pos_of(self.first_hour as int, self.zoom as int, self.last_hour as int),
            r >= 0,
    {
        let r = self.time_to_pos(self.last_hour);
        proof {
            reveal(pos_of);
            let d = self.last_hour - self.first_hour;
            let k = units_per_hour(self.zoom as int);
            assert(d * k >= 0) by (nonlinear_arith)
                requires
                    d >= 0,
                    k >= 0,
            ;
        }
        r
    }

    /// The gridlines of the part of the timeline between positions `top` and
    /// `bottom`: from the time at `top` rounded down to the zoom's spacing on
    /// the local clock, one per spacing, up to the time at `bottom`.
    pub fn gridlines(&self, top: i128, bottom: i128) -> (r: Vec<Gridline>)
        requires
            self.wf(),
            -VIEW_BOUND <= top <= VIEW_BOUND,
            -VIEW_BOUND <= bottom <= VIEW_BOUND,
        ensures
            ({
                let step = gridline_step_spec(self.zoom as int);
                let start = floor_to_step(
                    time_at(self.first_hour as int, self.zoom as int, top as int),
                    step,
                    self.zone_offset_ms as int,
                );
                let end = time_at(self.first_hour as int, self.zoom as int, bottom as int);
                &&& forall|k: int|
                    0 <= k < r.len() ==> {
                        &&& (#[trigger] r[k]).time == start + k * step
                        &&& r[k].time <= end
                        &&& r[k].pos == pos_of(self.first_hour as int, self.zoom as int, r[k].time as int)
                    }
                &&& start + r.len() * step > end
            }),
    {
        let step = gridline_step(self.zoom);
        let first_visible = self.pos_to_time(top);
        let last_visible = self.pos_to_time(bottom);
        let start = floor_to_step_exec(first_visible, step, self.zone_offset_ms);
        let mut r: Vec<Gridline> = Vec::new();
        let mut current = start;
        assert(current == start + r.len() * step) by (nonlinear_arith)
            requires
                current == start,
                r.len() == 0,
        ;
        while current <= last_visible
            invariant
                self.wf(),
                0 < step <= MS_PER_HOUR,
                step == gridline_step_spec(self.zoom as int),
                -TIME_BOUND / 2 <= first_visible <= TIME_BOUND / 2,
                -TIME_BOUND / 2 <= last_visible <= TIME_BOUND / 2,
                first_visible - step < start <= first_visible,
                current == start + r.len() * step,
                start <= current <= if last_visible + step > start { last_visible + step } else { start as int },
                forall|k: int|
                    0 <= k < r.len() ==> {
                        &&& (#[trigger] r[k]).time == start + k * step
                        &&& r[k].time <= last_visible
                        &&& r[k].pos == pos_of(self.first_hour as int, self.zoom as int, r[k].time as int)
                    },
            decreases last_visible + step - current,
        {
            let pos = self.time_to_pos(current);
            let ghost len = r.len();
            r.push(Gridline { time: current, pos });
            current = current + step as i128;
            assert(current == start + r.len() * step) by (nonlinear_arith)
                requires
                    current == start + len * step + step,
                    r.len() == len + 1,
            ;
        }
        r
    }

    /// The markers of the snapshots whose times lie between the times at
    /// positions `top` and `bottom`, in time order. A marker's label is shown
    /// only where the gap to the previous marker (or to the top, for the
    /// first) exceeds `label_height`.
    pub fn markers<I>(&self, store: &SnapshotStore<I>, top: i128, bottom: i128, label_height: i128) -> (r: Vec<TimelineMarker>)
        requires
            self.wf(),
            store.wf(),
            -VIEW_BOUND <= top <= VIEW_BOUND,
            -VIEW_BOUND <= bottom <= VIEW_BOUND,
        ensures
            ({
                let lo = time_at(self.first_hour as int, self.zoom as int, top as int);
                let hi = time_at(self.first_hour as int, self.zoom as int, bottom as int);
                &&& forall|k: int|
                    0 <= k < r.len() ==> {
                        &&& (#[trigger] r[k]).index < store.times.len()
                        &&& lo <= store.times[r[k].index as int] <= hi
                        &&& r[k].pos == pos_of(self.first_hour as int, self.zoom as int, store.times[r[k].index as int] as int)
                        &&& r[k].kind == kind_of(store.snapshots[r[k].index as int])
                    }
                &&& r.len() > 0 ==> r[0].show_label == (label_height < r[0].pos)
                &&& forall|k: int|
                    0 < k < r.len() ==> (#[trigger] r[k].show_label) == (label_height < r[k].pos - r[k - 1].pos)
                &&& forall|k: int, l: int| 0 <= k < l < r.len() ==> r[k].index < r[l].index
                &&& forall|i: int|
                    0 <= i < store.times.len() && lo <= #[trigger] store.times[i] <= hi
                        ==> exists|k: int| 0 <= k < r.len() && (#[trigger] r[k]).index == i
            }),
    {
        let lo = self.pos_to_time(top);
        let hi = self.pos_to_time(bottom);
        let n = store.len();
        let mut r: Vec<TimelineMarker> = Vec::new();
        let mut prev: i128 = 0;
        let mut i: usize = 0;
        while i < n
            invariant
                self.wf(),
                store.wf(),
                n == store.times.len(),
                0 <= i <= n,
                lo == time_at(self.first_hour as int, self.zoom as int, top as int),
                hi == time_at(self.first_hour as int, self.zoom as int, bottom as int),
                prev == if r.len() == 0 { 0 } else { r[r.len() - 1].pos as int },
                -POS_BOUND < prev < POS_BOUND,
                forall|k: int|
                    0 <= k < r.len() ==> {
                        &&& (#[trigger] r[k]).index < i
                        &&& lo <= store.times[r[k].index as int] <= hi
                        &&& r[k].pos == pos_of(self.first_hour as int, self.zoom as int, store.times[r[k].index as int] as int)
                        &&& r[k].kind == kind_of(store.snapshots[r[k].index as int])
                    },
                r.len() > 0 ==> r[0].show_label == (label_height < r[0].pos),
                forall|k: int|
                    0 < k < r.len() ==> (#[trigger] r[k].show_label) == (label_height < r[k].pos - r[k - 1].pos),
                forall|k: int, l: int| 0 <= k < l < r.len() ==> r[k].index < r[l].index,
                forall|j: int|
                    0 <= j < i && lo <= #[trigger] store.times[j] <= hi
                        ==> exists|k: int| 0 <= k < r.len() && (#[trigger] r[k]).index == j,
            decreases n - i,
        {
            let t = store.times[i] as i128;
            if lo <= t && t <= hi {
                let pos = self.time_to_pos(t);
                let kind = marker_kind(&store.snapshots[i]);
                let ghost old_r = r@;
                r.push(TimelineMarker { index: i, pos, kind, show_label: label_height < pos - prev });
                prev = pos;
                proof {
                    assert forall|j: int|
                        0 <= j < i + 1 && lo <= #[trigger] store.times[j] <= hi
                            implies exists|k: int| 0 <= k < r.len() && (#[trigger] r[k]).index == j by {
                        if j < i {
                            let k = choose|k: int| 0 <= k < old_r.len() && (#[trigger] old_r[k]).index == j;
                            assert(r[k] == old_r[k]);
                        } else {
                            assert(r[r.len() - 1].index == j);
                        }
                    }
                }
            }
            i = i + 1;
        }
        r
    }

    /// The snapshot that a click at position `p` selects: of those within
    /// the click radius of the time at `p`, the one closest to it in time,
    /// the earlier one on a tie; none when no snapshot is that close.
    pub fn select_at<I>(&self, store: &SnapshotStore<I>, p: i128) -> (r: Option<i64>)
        requires
            self.wf(),
            store.wf(),
            -VIEW_BOUND <= p <= VIEW_BOUND,
        ensures
            ({
                let t = time_at(self.first_hour as int, self.zoom as int, p as int);
                let tol = span_ms(self.zoom as int, CLICK_RADIUS as int);
                match r {
                    None => forall|i: int|
                        0 <= i < store.times.len() ==> dist(#[trigger] store.times[i] as int, t) > tol,
                    Some(s) => {
                        &&& store.has_time(s as int)
                        &&& dist(s as int, t) <= tol
                        &&& forall|i: int|
                            0 <= i < store.times.len() && dist(#[trigger] store.times[i] as int, t) <= tol ==> {
                                ||| dist(s as int, t) < dist(store.times[i] as int, t)
                                ||| dist(s as int, t) == dist(store.times[i] as int, t) && s <= store.times[i]
                            }
                    },
                }
            }),
    {
        let t = self.pos_to_time(p);
        let tol = span(self.zoom, CLICK_RADIUS);
        let n = store.len();
        let mut best: Option<i64> = None;
        let mut best_index: usize = 0;
        let mut best_dist: i128 = 0;
        let mut i: usize = 0;
        while i < n
            invariant
                store.wf(),
                n == store.times.len(),
                0 <= i <= n,
                -TIME_BOUND <= t <= TIME_BOUND,
                t == time_at(self.first_hour as int, self.zoom as int, p as int),
                tol == span_ms(self.zoom as int, CLICK_RADIUS as int),
                match best {
                    None => forall|j: int| 0 <= j < i ==> dist(#[trigger] store.times[j] as int, t as int) > tol,
                    Some(s) => {
                        &&& best_index < i
                        &&& store.times[best_index as int] == s
                        &&& best_dist == dist(s as int, t as int)
                        &&& best_dist <= tol
                        &&& forall|j: int|
                            0 <= j < i && dist(#[trigger] store.times[j] as int, t as int) <= tol ==> {
                                ||| best_dist < dist(store.times[j] as int, t as int)
                                ||| best_dist == dist(store.times[j] as int, t as int) && s <= store.times[j]
                            }
                    },
                },
            decreases n - i,
        {
            let ti = store.times[i];
            let d = if ti as i128 >= t {
                ti as i128 - t
            } else {
                t - ti as i128
            };
            if d <= tol {
                match best {
                    None => {
                        best = Some(ti);
                        best_index = i;
                        best_dist = d;
                    },
                    Some(_) => {
                        if d < best_dist {
                            best = Some(ti);
                            best_index = i;
                            best_dist = d;
                        }
                    },
                }
            }
            proof {
                assert(store.times[i as int] == ti);
                if best is Some {
                    let s = best->0;
                    assert forall|j: int|
                        0 <= j < i + 1 && dist(#[trigger] store.times[j] as int, t as int) <= tol implies {
                            ||| best_dist < dist(store.times[j] as int, t as int)
                            ||| best_dist == dist(store.times[j] as int, t as int) && s <= store.times[j]
                        } by {
                        if j == i && best_index < i {
                            assert(store.times[best_index as int] < store.times[i as int]);
                        }
                    }
                }
            }
            i = i + 1;
        }
        best
    }

    /// How far to scroll so that the cursor sits in the middle of a viewport
    /// `viewport` sub-pixels high, kept within the timeline; none when the
    /// whole timeline fits in the viewport.
    pub fn scroll_offset(&self, cursor: i64, viewport: i128) -> (r: Option<i128>)
        requires
            self.wf(),
            0 <= viewport <= VIEW_BOUND,
        ensures
            ({
                let content = pos_of(self.first_hour as int, self.zoom as int, self.last_hour as int);
                &&& content <= viewport ==> r is None
                &&& content > viewport ==> r == Some(
                    clamp(
                        pos_of(self.first_hour as int, self.zoom as int, cursor as int) - viewport / 2,
                        0,
                        content - viewport,
                    ) as i128,
                )
            }),
    {
        let content = self.content_height();
        if content <= viewport {
            return None;
        }
        let centered = self.time_to_pos(cursor as i128) - viewport / 2;
        let limit = content - viewport;
        if centered < 0 {
            Some(0)
        } else if centered > limit {
            Some(limit)
        } else {
            Some(centered)
        }
    }
}

} // verus!
