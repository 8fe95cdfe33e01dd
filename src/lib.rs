//! Review of periodic desktop captures: a chronological index of snapshots,
//! a cache of lazily decoded images bounded by a window around the cursor,
//! a zoomable timeline layout and ranked classification suggestions.

mod eviction;
mod ingest;
mod lazy_image;
mod navigation;
mod popup;
mod store;
mod suggest;
mod text;
mod timeline;

pub use eviction::{
    beyond_window, evict_outside_window, lemma_window_bounds_residency, resident_after,
    resident_before, window_respected, WINDOW_RADIUS,
};
pub use ingest::{
    add_capture_file, capture_file_name, capture_file_name_spec, capture_info, capture_name,
    day_dir_name, day_dir_name_spec, lemma_capture_name_round_trip, read_capture,
    split_capture_name, time_of_day_text, CaptureInfo, IngestError,
};
pub use lazy_image::{DisplayRequest, ImageState, LazyImage};
pub use navigation::{CommitError, Navigator};
pub use popup::{str_range, SuggestionPopup};
pub use store::{
    count_below, kept_or_evicted, lemma_count_below, screen_put, strictly_increasing, ScreenImage,
    Snapshot, SnapshotStore,
};
pub use suggest::{
    default_hint, first_seen, frequency, hint_at, is_shortcut_list, labels_of, lemma_first_upto,
    lemma_shortcut_list_unique, ranks_before, resolution, resolve_classification, shortcuts,
    ShortcutError, MAX_SHORTCUTS, SHORTCUT_WINDOW_MS,
};
pub use text::{matches_at, read_decimal};
pub use timeline::{
    gridline_step, lemma_pixel_round_trip, marker_kind, pos_of, time_at, Gridline, MarkerKind,
    TimelineLayout, TimelineMarker, BASE_PIXELS_PER_HOUR, CLICK_RADIUS, MS_PER_DAY, MS_PER_HOUR,
    MS_PER_MINUTE, MS_PER_SECOND, POS_BOUND, SUBPIXELS_PER_PIXEL, TIME_BOUND, VIEW_BOUND,
};
