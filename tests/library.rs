use panopticon::{
    add_capture_file, capture_file_name, day_dir_name, gridline_step, read_capture, resolve_classification, split_capture_name,
    str_range, CaptureInfo, DisplayRequest, ImageState, IngestError, LazyImage, MarkerKind,
    Navigator, ShortcutError, SnapshotStore, SuggestionPopup, TimelineLayout, MS_PER_HOUR,
    MS_PER_MINUTE, MS_PER_SECOND,
};

const NINE_AM: i64 = 1_684_314_000_000; // 2023-05-17 09:00:00 UTC

fn store_at(times: &[i64]) -> SnapshotStore<u32> {
    let mut store = SnapshotStore::new();
    for (i, t) in times.iter().enumerate() {
        store.add_capture(*t, 0, false, format!("/captures/{}.png", i));
    }
    store
}

fn strings(items: &[&str]) -> Vec<String> {
    items.iter().map(|s| s.to_string()).collect()
}

#[test]
fn round_trip_stays_within_one_subpixel() {
    let store = store_at(&[NINE_AM]);
    for zoom in [1u32, 3, 7, 50, 72, 100, 1000] {
        let layout = TimelineLayout::new(&store, NINE_AM, zoom, 0);
        for offset in [0i64, 1, 71, 72, 999, 12_345, 3_599_999, 7_200_001] {
            let t = (NINE_AM + offset) as i128;
            let back = layout.pos_to_time(layout.time_to_pos(t));
            assert!(back <= t);
            assert!((t - back) * (zoom as i128) * 50 * 1000 < MS_PER_HOUR as i128);
        }
    }
    let exact = TimelineLayout::new(&store, NINE_AM, 72, 0);
    let t = (NINE_AM + 12_345) as i128;
    assert_eq!(exact.pos_to_time(exact.time_to_pos(t)), t);
}

#[test]
fn positions_follow_fifty_pixels_per_hour() {
    let store = store_at(&[NINE_AM + 30 * MS_PER_MINUTE]);
    let layout = TimelineLayout::new(&store, NINE_AM, 2, 0);
    assert_eq!(layout.first_hour, NINE_AM as i128);
    assert_eq!(layout.content_height(), 100_000);
    assert_eq!(layout.time_to_pos((NINE_AM + 30 * MS_PER_MINUTE) as i128), 50_000);
    assert_eq!(layout.pos_to_time(50_000), (NINE_AM + 30 * MS_PER_MINUTE) as i128);
}

#[test]
fn hours_follow_the_local_clock() {
    // Half an hour ahead of UTC: local hours start at xx:30 UTC.
    let store = store_at(&[NINE_AM + 10 * MS_PER_MINUTE]);
    let layout = TimelineLayout::new(&store, NINE_AM, 1, 30 * MS_PER_MINUTE);
    assert_eq!(layout.first_hour, (NINE_AM - 30 * MS_PER_MINUTE) as i128);
    assert_eq!(layout.last_hour, (NINE_AM + 30 * MS_PER_MINUTE) as i128);
}

#[test]
fn empty_store_timeline_uses_cursor() {
    let store: SnapshotStore<u32> = SnapshotStore::new();
    let layout = TimelineLayout::new(&store, NINE_AM + 5 * MS_PER_MINUTE, 1, 0);
    assert_eq!(layout.first_hour, NINE_AM as i128);
    assert_eq!(layout.last_hour, (NINE_AM + MS_PER_HOUR) as i128);
    assert_eq!(layout.select_at(&store, 100), None);
}

#[test]
fn gridline_spacing_by_zoom() {
    assert_eq!(gridline_step(1), MS_PER_HOUR);
    assert_eq!(gridline_step(4), MS_PER_HOUR);
    assert_eq!(gridline_step(5), 15 * MS_PER_MINUTE);
    assert_eq!(gridline_step(9), 15 * MS_PER_MINUTE);
    assert_eq!(gridline_step(10), 5 * MS_PER_MINUTE);
    assert_eq!(gridline_step(49), 5 * MS_PER_MINUTE);
    assert_eq!(gridline_step(50), MS_PER_MINUTE);
    assert_eq!(gridline_step(100), MS_PER_MINUTE);
    assert_eq!(gridline_step(101), MS_PER_SECOND);
}

#[test]
fn gridlines_start_below_visible_top() {
    let store = store_at(&[NINE_AM, NINE_AM + 2 * MS_PER_HOUR]);
    let layout = TimelineLayout::new(&store, NINE_AM, 5, 0);
    // 15-minute lines; the top at 00:20 rounds down to 00:15.
    let top = layout.time_to_pos((NINE_AM + 20 * MS_PER_MINUTE) as i128);
    let bottom = layout.time_to_pos((NINE_AM + 50 * MS_PER_MINUTE) as i128);
    let lines = layout.gridlines(top, bottom);
    let times: Vec<i128> = lines.iter().map(|g| g.time - NINE_AM as i128).collect();
    assert_eq!(times, vec![15 * 60_000, 30 * 60_000, 45 * 60_000]);
    assert_eq!(lines[1].pos, layout.time_to_pos(lines[1].time));
}

#[test]
fn click_far_from_snapshots_selects_nothing() {
    let store = store_at(&[NINE_AM, NINE_AM + 30 * MS_PER_MINUTE]);
    let layout = TimelineLayout::new(&store, NINE_AM, 1, 0);
    // 10 px at zoom 1 is 12 minutes; 15 minutes away from both.
    let click = layout.time_to_pos((NINE_AM + 15 * MS_PER_MINUTE) as i128);
    assert_eq!(layout.select_at(&store, click), None);
    let near = layout.time_to_pos((NINE_AM + 20 * MS_PER_MINUTE) as i128);
    assert_eq!(layout.select_at(&store, near), Some(NINE_AM + 30 * MS_PER_MINUTE));
}

#[test]
fn click_tie_picks_earlier() {
    let store = store_at(&[NINE_AM, NINE_AM + 7_200]);
    let layout = TimelineLayout::new(&store, NINE_AM, 1, 0);
    // Position 50 maps to 3600 ms: equally far from both.
    assert_eq!(layout.pos_to_time(50), (NINE_AM + 3_600) as i128);
    assert_eq!(layout.select_at(&store, 50), Some(NINE_AM));
}

#[test]
fn markers_colour_and_hide_crowded_labels() {
    let mut store = store_at(&[NINE_AM + 6 * MS_PER_MINUTE, NINE_AM + 7 * MS_PER_MINUTE, NINE_AM + 30 * MS_PER_MINUTE]);
    store.snapshots[0].classification = "writing".to_string();
    store.snapshots[1].afk = true;
    let layout = TimelineLayout::new(&store, NINE_AM, 1, 0);
    let markers = layout.markers(&store, 0, layout.content_height(), 2_000);
    assert_eq!(markers.len(), 3);
    assert_eq!(markers[0].kind, MarkerKind::Labeled);
    assert_eq!(markers[1].kind, MarkerKind::Afk);
    assert_eq!(markers[2].kind, MarkerKind::Normal);
    assert_eq!(markers[0].pos, 5_000);
    assert!(markers[0].show_label);
    // One minute at zoom 1 is under a pixel: the label would overlap.
    assert!(!markers[1].show_label);
    assert!(markers[2].show_label);
    let visible = layout.markers(&store, 0, 10_000, 2_000);
    assert_eq!(visible.iter().map(|m| m.index).collect::<Vec<_>>(), vec![0, 1]);
}

#[test]
fn scroll_centres_cursor_and_clamps() {
    let store = store_at(&[NINE_AM, NINE_AM + 3 * MS_PER_HOUR]);
    let layout = TimelineLayout::new(&store, NINE_AM, 1, 0);
    assert_eq!(layout.content_height(), 200_000);
    assert_eq!(layout.scroll_offset(NINE_AM + 2 * MS_PER_HOUR, 50_000), Some(75_000));
    assert_eq!(layout.scroll_offset(NINE_AM, 50_000), Some(0));
    assert_eq!(layout.scroll_offset(NINE_AM + 3 * MS_PER_HOUR, 50_000), Some(125_000));
    assert_eq!(layout.scroll_offset(NINE_AM + 4 * MS_PER_HOUR, 50_000), Some(150_000));
    assert_eq!(layout.scroll_offset(NINE_AM, 200_000), None);
}

#[test]
fn eviction_leaves_at_most_radius_resident_each_side() {
    let times: Vec<i64> = (0..20).map(|i| NINE_AM + i * 1_000).collect();
    let mut store = store_at(&times);
    for snap in store.snapshots.iter_mut() {
        if let DisplayRequest::StartLoad { ticket } = snap.screens[0].image.request_display() {
            snap.screens[0].image.complete_load(ticket, Ok(1));
        }
    }
    panopticon::evict_outside_window(&mut store, times[10], 3);
    let resident: Vec<usize> = (0..20)
        .filter(|i| matches!(store.snapshots[*i].screens[0].image.state, ImageState::Loaded(_)))
        .collect();
    assert_eq!(resident, vec![7, 8, 9, 10, 11, 12, 13]);
}

#[test]
fn shortcut_list_holds_ten_most_frequent() {
    let t0 = NINE_AM + 4 * MS_PER_HOUR;
    let mut times = Vec::new();
    let mut labels = Vec::new();
    let mut t = t0 - 3 * MS_PER_HOUR;
    for (k, name) in ["a", "b", "c", "d", "e", "f", "g", "h", "i", "j", "k", "l"].iter().enumerate() {
        for _ in 0..(k % 4 + 1) {
            times.push(t);
            labels.push(name.to_string());
            t += 60_000;
        }
    }
    // Outside the window: never counted.
    times.insert(0, t0 - 5 * MS_PER_HOUR);
    labels.insert(0, "old".to_string());
    let mut store = store_at(&times);
    for (i, l) in labels.into_iter().enumerate() {
        store.snapshots[i].classification = l;
    }
    let list = panopticon::shortcuts(&store, t0);
    assert_eq!(list.len(), 10);
    assert_eq!(list[..3].to_vec(), strings(&["d", "h", "l"]));
    assert!(!list.contains(&"old".to_string()));
    assert!(!list.contains(&"a".to_string()) || !list.contains(&"e".to_string()) || !list.contains(&"i".to_string()));
}

#[test]
fn empty_store_gives_empty_hint_and_shortcuts() {
    let store: SnapshotStore<u32> = SnapshotStore::new();
    assert_eq!(panopticon::default_hint(&store, NINE_AM), "");
    assert!(panopticon::shortcuts(&store, NINE_AM).is_empty());
    let nav = Navigator::new(store, NINE_AM);
    assert_eq!(nav.cursor, NINE_AM);
}

#[test]
fn hint_skips_unlabelled_snapshots() {
    let mut store = store_at(&[NINE_AM, NINE_AM + 1_000, NINE_AM + 2_000, NINE_AM + 3_000]);
    store.snapshots[0].classification = "reading".to_string();
    store.snapshots[2].classification = "later".to_string();
    assert_eq!(panopticon::default_hint(&store, NINE_AM + 2_000), "reading");
    assert_eq!(panopticon::default_hint(&store, NINE_AM + 3_000), "later");
    assert_eq!(panopticon::default_hint(&store, NINE_AM), "");
}

#[test]
fn classification_input_resolution() {
    let list = strings(&["writing", "reading"]);
    assert_eq!(resolve_classification("", "hint", &list), Ok("hint".to_string()));
    assert_eq!(resolve_classification("\\1", "hint", &list), Ok("reading".to_string()));
    assert_eq!(resolve_classification("\\+0", "hint", &list), Ok("writing".to_string()));
    assert_eq!(resolve_classification("coding", "hint", &list), Ok("coding".to_string()));
    assert_eq!(resolve_classification("\\2", "hint", &list), Err(ShortcutError::InvalidShortcutNumber(2)));
    assert_eq!(resolve_classification("\\", "hint", &list), Err(ShortcutError::UnreadableShortcutCode));
    assert_eq!(resolve_classification("\\x", "hint", &list), Err(ShortcutError::UnreadableShortcutCode));
    assert_eq!(
        resolve_classification("\\99999999999999999999999", "hint", &list),
        Err(ShortcutError::UnreadableShortcutCode)
    );
}

#[test]
fn navigation_moves_between_snapshots() {
    let store = store_at(&[NINE_AM, NINE_AM + 5_000, NINE_AM + 9_000]);
    let mut nav = Navigator::new(store, 0);
    assert_eq!(nav.cursor, NINE_AM);
    assert!(!nav.move_previous());
    assert!(nav.move_next());
    assert_eq!(nav.cursor, NINE_AM + 5_000);
    assert!(nav.scroll_requested);
    assert!(nav.move_next());
    assert!(!nav.move_next());
    assert_eq!(nav.cursor, NINE_AM + 9_000);
    assert!(nav.move_previous());
    assert_eq!(nav.cursor, NINE_AM + 5_000);
    assert!(!nav.select_time(NINE_AM + 1));
    assert!(nav.select_time(NINE_AM));
    assert_eq!(nav.cursor, NINE_AM);
}

#[test]
fn empty_commit_takes_hint_and_last_commit_stays() {
    let mut store = store_at(&[NINE_AM, NINE_AM + 5_000]);
    store.snapshots[0].classification = "reading".to_string();
    let mut nav = Navigator::new(store, 0);
    assert!(nav.move_next());
    assert_eq!(nav.hint, "reading");
    assert_eq!(nav.commit_classification(""), Ok(false));
    assert_eq!(nav.store.snapshots[1].classification, "reading");
    assert_eq!(nav.cursor, NINE_AM + 5_000);
    let empty: SnapshotStore<u32> = SnapshotStore::new();
    let mut nothing = Navigator::new(empty, NINE_AM);
    assert_eq!(nothing.commit_classification("x"), Err(panopticon::CommitError::NoSnapshot));
}

#[test]
fn stale_load_is_dropped() {
    let mut image: LazyImage<u32> = LazyImage::new("/a.png".to_string());
    assert_eq!(image.request_display(), DisplayRequest::StartLoad { ticket: 1 });
    assert_eq!(image.request_display(), DisplayRequest::Placeholder);
    image.clear();
    assert!(!image.complete_load(1, Ok(5)));
    assert!(matches!(image.state, ImageState::Unloaded));
    assert_eq!(image.request_display(), DisplayRequest::StartLoad { ticket: 2 });
    assert!(!image.complete_load(1, Ok(5)));
    assert!(image.complete_load(2, Err("broken".to_string())));
    assert_eq!(image.request_display(), DisplayRequest::Error);
    assert_eq!(image.error(), Some(&"broken".to_string()));
    image.clear();
    assert_eq!(image.request_display(), DisplayRequest::StartLoad { ticket: 3 });
    assert!(image.complete_load(3, Ok(9)));
    assert_eq!(image.request_display(), DisplayRequest::Ready);
    assert_eq!(image.image(), Some(&9));
}

#[test]
fn same_time_captures_merge() {
    let mut store: SnapshotStore<u32> = SnapshotStore::new();
    assert_eq!(store.add_capture(NINE_AM + 1_000, 2, true, "b2".to_string()), 0);
    assert_eq!(store.add_capture(NINE_AM, 1, false, "a1".to_string()), 0);
    assert_eq!(store.add_capture(NINE_AM + 1_000, 0, false, "b0".to_string()), 1);
    assert_eq!(store.len(), 2);
    assert_eq!(store.times, vec![NINE_AM, NINE_AM + 1_000]);
    let ids: Vec<u64> = store.snapshots[1].screens.iter().map(|s| s.screen).collect();
    assert_eq!(ids, vec![0, 2]);
    assert!(store.snapshots[1].afk);
    assert_eq!(store.snapshots[1].screens[0].image.path, "b0");
}

#[test]
fn capture_names_are_read() {
    assert_eq!(split_capture_name("09:00:05_screen-12.png"), Some(("09:00:05", 12, false)));
    assert_eq!(split_capture_name("23:59:59_screen-0_AFK.png"), Some(("23:59:59", 0, true)));
    assert_eq!(split_capture_name("09:00:05_screen-.png"), None);
    assert_eq!(split_capture_name("09:00:05_screen-1.jpg"), None);
    assert_eq!(split_capture_name("_screen-1.png"), None);
    assert_eq!(split_capture_name("09:00:05-1.png"), None);
    assert_eq!(split_capture_name("09:00:05_screen-1_[AFK].png"), None);
    assert_eq!(
        read_capture("2023-05-17", "09:00:05_screen-3_AFK.png"),
        Ok(CaptureInfo { year: 2023, month: 5, day: 17, seconds_of_day: 32_405, screen: 3, afk: true })
    );
    assert_eq!(read_capture("2023-13-17", "09:00:05_screen-3.png"), Err(IngestError::BadDayName));
    assert_eq!(read_capture("notes", "09:00:05_screen-3.png"), Err(IngestError::BadDayName));
    assert_eq!(read_capture("2023-05-17", "09:00:05.png"), Err(IngestError::BadFileName));
    assert_eq!(read_capture("2023-05-17", "25:00:00_screen-3.png"), Err(IngestError::BadTimeOfDay));
}

#[test]
fn capture_files_fill_the_store() {
    let mut store: SnapshotStore<u32> = SnapshotStore::new();
    let a = add_capture_file(&mut store, "2023-05-17", "09:00:05_screen-1.png", "p1".to_string());
    let b = add_capture_file(&mut store, "2023-05-17", "09:00:05_screen-0.png", "p0".to_string());
    let c = add_capture_file(&mut store, "2023-05-17", "09:00:10_screen-0.png", "p2".to_string());
    assert_eq!(a, Ok(0));
    assert_eq!(b, Ok(0));
    assert_eq!(c, Ok(1));
    assert_eq!(store.len(), 2);
    assert_eq!(store.times[1] - store.times[0], 5_000);
    assert_eq!(store.snapshots[0].screens.len(), 2);
    assert_eq!(
        add_capture_file(&mut store, "2023-05-17", "bad.png", "p3".to_string()),
        Err(IngestError::BadFileName)
    );
    assert_eq!(store.len(), 2);
}

#[test]
fn popup_wraps_and_completes() {
    assert!(SuggestionPopup::open(Vec::new()).is_none());
    let mut popup = SuggestionPopup::open(strings(&["alpha", "beta", "gamma"])).unwrap();
    assert!(!popup.tab_accepts());
    popup.end_frame();
    assert!(popup.tab_accepts());
    popup.select_previous();
    assert_eq!(popup.selected, 2);
    popup.select_next();
    assert_eq!(popup.selected, 0);
    popup.select_next();
    let mut text = "wo".to_string();
    assert_eq!(popup.accept(&mut text, None), 6);
    assert_eq!(text, "wobeta");
    assert_eq!(popup.accept(&mut text, Some(2)), 11);
    assert_eq!(text, "wobetagamma");
}

#[test]
fn byte_range_of_substring() {
    assert_eq!(str_range("hello world", "world"), Some(6..11));
    assert_eq!(str_range("héllo", "llo"), Some(3..6));
    assert_eq!(str_range("abc", ""), Some(0..0));
    assert_eq!(str_range("abc", "x"), None);
}

#[test]
fn capture_names_are_written() {
    assert_eq!(capture_file_name(9, 0, 5, 12, false), "09:00:05_screen-12.png");
    assert_eq!(capture_file_name(23, 59, 7, 0, true), "23:59:07_screen-0_AFK.png");
    assert_eq!(capture_file_name(0, 0, 0, u64::MAX, false), "00:00:00_screen-18446744073709551615.png");
    assert_eq!(day_dir_name(2023, 5, 17), "2023-05-17");
    assert_eq!(day_dir_name(987, 12, 1), "0987-12-01");
    let file = capture_file_name(13, 4, 59, 301, true);
    assert_eq!(split_capture_name(&file), Some(("13:04:59", 301, true)));
    assert_eq!(
        read_capture(&day_dir_name(2024, 2, 29), &file),
        Ok(CaptureInfo { year: 2024, month: 2, day: 29, seconds_of_day: 47_099, screen: 301, afk: true })
    );
}

#[test]
fn equal_frequencies_keep_first_occurrence_order() {
    let t0 = NINE_AM + 4 * MS_PER_HOUR;
    let mut store = store_at(&[t0 - 4 * MS_PER_HOUR, t0 - 3 * MS_PER_HOUR, t0 - 2 * MS_PER_HOUR, t0 - MS_PER_HOUR]);
    for (i, l) in ["zeta", "alpha", "zeta", "alpha"].iter().enumerate() {
        store.snapshots[i].classification = l.to_string();
    }
    let first = panopticon::shortcuts(&store, t0);
    assert_eq!(first, strings(&["zeta", "alpha"]));
    assert_eq!(panopticon::shortcuts(&store, t0), first);
}

#[test]
fn navigator_starts_without_hint_or_scroll() {
    let mut store = store_at(&[NINE_AM, NINE_AM + 5_000]);
    store.snapshots[0].classification = "reading".to_string();
    store.snapshots[1].afk = true;
    let nav = Navigator::new(store, 0);
    assert_eq!(nav.cursor, NINE_AM);
    assert_eq!(nav.hint, "");
    assert!(nav.shortcuts.is_empty());
    assert!(!nav.scroll_requested);
    assert!(nav.store.snapshots[1].afk);
    assert_eq!(nav.store.snapshots[0].screens[0].image.path, "/captures/0.png");
}

#[test]
fn merging_keeps_other_monitors() {
    let mut store: SnapshotStore<u32> = SnapshotStore::new();
    store.add_capture(NINE_AM, 0, false, "a0".to_string());
    store.add_capture(NINE_AM, 2, false, "a2".to_string());
    store.add_capture(NINE_AM, 2, false, "a2-again".to_string());
    let paths: Vec<&str> = store.snapshots[0].screens.iter().map(|s| s.image.path.as_str()).collect();
    assert_eq!(paths, vec!["a0", "a2-again"]);
}
