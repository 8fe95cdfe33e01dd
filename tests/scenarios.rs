use panopticon::{
    evict_outside_window, gridline_step, shortcuts, CommitError, DisplayRequest, ImageState,
    LazyImage, Navigator, ShortcutError, SnapshotStore, TimelineLayout, MS_PER_HOUR,
    WINDOW_RADIUS,
};

const NINE_AM: i64 = 1_684_314_000_000; // 2023-05-17 09:00:00 UTC

fn store_at(times: &[i64]) -> SnapshotStore<u32> {
    let mut store = SnapshotStore::new();
    for (i, t) in times.iter().enumerate() {
        store.add_capture(*t, 0, false, format!("/captures/{}.png", i));
    }
    store
}

fn label(store: &mut SnapshotStore<u32>, i: usize, text: &str) {
    store.snapshots[i].classification = text.to_string();
}

fn load_all(store: &mut SnapshotStore<u32>) {
    for snap in store.snapshots.iter_mut() {
        for screen in snap.screens.iter_mut() {
            if let DisplayRequest::StartLoad { ticket } = screen.image.request_display() {
                assert!(screen.image.complete_load(ticket, Ok(7)));
            }
        }
    }
}

#[test]
fn click_selects_nearest_snapshot() {
    let store = store_at(&[NINE_AM, NINE_AM + 5_000]);
    let layout = TimelineLayout::new(&store, NINE_AM, 1, 0);
    assert_eq!(layout.first_hour, NINE_AM as i128);
    assert_eq!(layout.last_hour, (NINE_AM + MS_PER_HOUR) as i128);
    assert_eq!(gridline_step(1), MS_PER_HOUR);
    let lines = layout.gridlines(0, layout.content_height());
    assert_eq!(lines.len(), 2);
    assert_eq!(lines[0].time, NINE_AM as i128);
    assert_eq!(lines[1].time - lines[0].time, MS_PER_HOUR as i128);
    let click = layout.time_to_pos((NINE_AM + 2_000) as i128);
    assert_eq!(layout.select_at(&store, click), Some(NINE_AM));
}

#[test]
fn shortcuts_rank_by_frequency() {
    let t0 = NINE_AM + 4 * MS_PER_HOUR;
    let mut store = store_at(&[
        t0 - 3 * MS_PER_HOUR,
        t0 - 2 * MS_PER_HOUR,
        t0 - 90 * 60_000,
        t0 - MS_PER_HOUR,
        t0,
    ]);
    label(&mut store, 0, "writing");
    label(&mut store, 1, "reading");
    label(&mut store, 2, "writing");
    label(&mut store, 3, "writing");
    label(&mut store, 4, "writing");
    assert_eq!(shortcuts(&store, t0), vec!["writing".to_string(), "reading".to_string()]);
}

fn writing_reading_navigator() -> Navigator<u32> {
    let t0 = NINE_AM + 4 * MS_PER_HOUR;
    let mut store = store_at(&[t0 - 3 * MS_PER_HOUR, t0 - 2 * MS_PER_HOUR, t0 - MS_PER_HOUR, t0, t0 + 60_000]);
    label(&mut store, 0, "writing");
    label(&mut store, 1, "reading");
    label(&mut store, 2, "writing");
    let mut nav = Navigator::new(store, 0);
    assert!(nav.select_time(t0));
    assert_eq!(nav.shortcuts, vec!["writing".to_string(), "reading".to_string()]);
    nav
}

#[test]
fn shortcut_code_commits_and_advances() {
    let mut nav = writing_reading_navigator();
    let t0 = nav.cursor;
    assert_eq!(nav.commit_classification("\\0"), Ok(true));
    assert_eq!(nav.store.snapshots[3].classification, "writing");
    assert_eq!(nav.cursor, t0 + 60_000);
}

#[test]
fn out_of_range_shortcut_is_refused() {
    let mut nav = writing_reading_navigator();
    let t0 = nav.cursor;
    assert_eq!(
        nav.commit_classification("\\5"),
        Err(CommitError::Shortcut(ShortcutError::InvalidShortcutNumber(5)))
    );
    assert_eq!(nav.cursor, t0);
    assert_eq!(nav.store.snapshots[3].classification, "");
}

#[test]
fn eviction_window_around_cursor() {
    let times: Vec<i64> = (0..70).map(|i| NINE_AM + i * 60_000).collect();
    let mut store = store_at(&times);
    load_all(&mut store);
    assert_eq!(WINDOW_RADIUS, 32);
    evict_outside_window(&mut store, times[35], WINDOW_RADIUS);
    for i in (0..3).chain(68..70) {
        assert!(matches!(store.snapshots[i].screens[0].image.state, ImageState::Unloaded), "index {}", i);
    }
    for i in 3..68 {
        assert!(matches!(store.snapshots[i].screens[0].image.state, ImageState::Loaded(7)), "index {}", i);
    }
}

#[test]
fn clear_on_unloaded_image_changes_nothing() {
    let mut image: LazyImage<u32> = LazyImage::new("/a.png".to_string());
    image.clear();
    assert!(matches!(image.state, ImageState::Unloaded));
    assert_eq!(image.tickets_issued, 0);
    assert_eq!(image.path, "/a.png");
}
