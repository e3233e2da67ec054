use gifvault::library::{
    advance_frame, decode_path, entries_needing_decode, filtered_indices, library_stats,
    filter_by_media, is_animated_gif, move_entry_to_front, needs_dimensions, position_of,
    record_copy, release_offscreen, remove_tag_everywhere, rename_tag_everywhere, set_entry_tags,
    tag_selected, toggle_selected, total_size, GifAnimation, GifEntry,
};
use gifvault::model::{Gif, MediaFilter, SortMode};
use std::collections::HashSet;

fn gif(id: i64, added_at: &str, use_count: i64, source_type: &str) -> Gif {
    Gif {
        id,
        source_type: source_type.to_string(),
        source_path: format!("/src/{id}.gif"),
        local_cache_path: Some(format!("/store/{id}.gif")),
        title: None,
        added_at: added_at.to_string(),
        file_hash: None,
        deleted_at: None,
        use_count,
        width: 0,
        height: 0,
    }
}

fn entry(id: i64, added_at: &str, use_count: i64, tags: &[&str]) -> GifEntry<Vec<u8>> {
    GifEntry::new(gif(id, added_at, use_count, "local"), tags.iter().map(|t| t.to_string()).collect())
}

fn library() -> Vec<GifEntry<Vec<u8>>> {
    vec![
        entry(1, "2024-01-02", 5, &["Cat", "funny"]),
        entry(2, "2024-01-03", 1, &["dog"]),
        entry(3, "2024-01-01", 9, &["cats", "reaction"]),
        entry(4, "2024-01-03", 5, &[]),
    ]
}

#[test]
fn filter_matches_tag_substrings_ignoring_case() {
    let entries = library();
    assert_eq!(filtered_indices(&entries, "  CAT ", SortMode::DateNewest), vec![0, 2]);
    assert_eq!(filtered_indices(&entries, "o", SortMode::DateOldest), vec![2, 1]);
    assert_eq!(filtered_indices(&entries, "zebra", SortMode::MostUsed), Vec::<usize>::new());
}

#[test]
fn sort_modes_order_the_grid() {
    let entries = library();
    assert_eq!(filtered_indices(&entries, "", SortMode::DateNewest), vec![1, 3, 0, 2]);
    assert_eq!(filtered_indices(&entries, "", SortMode::DateOldest), vec![2, 0, 1, 3]);
    assert_eq!(filtered_indices(&entries, "", SortMode::MostUsed), vec![2, 0, 3, 1]);
    assert_eq!(filtered_indices(&entries, "", SortMode::LeastUsed), vec![1, 0, 3, 2]);
}

#[test]
fn position_of_finds_first_entry() {
    let entries = library();
    assert_eq!(position_of(&entries, 3), Some(2));
    assert_eq!(position_of(&entries, 42), None);
}

#[test]
fn trash_then_restore() {
    let mut lib = library();
    let mut trash = vec![entry(9, "2023-12-31", 0, &["old"])];
    let mut trashed = gif(2, "2024-01-03", 1, "local");
    trashed.deleted_at = Some("2024-02-01 00:00:00".to_string());
    move_entry_to_front(&mut lib, &mut trash, 1, Some(trashed));
    assert_eq!(lib.iter().map(|e| e.gif.id).collect::<Vec<_>>(), vec![1, 3, 4]);
    assert_eq!(trash.iter().map(|e| e.gif.id).collect::<Vec<_>>(), vec![2, 9]);
    assert!(trash[0].gif.deleted_at.is_some());
    move_entry_to_front(&mut trash, &mut lib, 0, Some(gif(2, "2024-01-03", 1, "local")));
    assert_eq!(lib.iter().map(|e| e.gif.id).collect::<Vec<_>>(), vec![2, 1, 3, 4]);
    assert_eq!(trash.iter().map(|e| e.gif.id).collect::<Vec<_>>(), vec![9]);
    assert_eq!(lib[0].tags, vec!["dog".to_string()]);
    assert!(lib[0].gif.deleted_at.is_none());
}

#[test]
fn move_without_refreshed_row_keeps_it() {
    let mut lib = library();
    let mut trash = Vec::new();
    move_entry_to_front(&mut lib, &mut trash, 0, None);
    assert_eq!(trash[0].gif.added_at, "2024-01-02");
}

#[test]
fn copies_are_counted() {
    let mut entries = library();
    record_copy(&mut entries, 1);
    assert_eq!(entries[1].gif.use_count, 2);
    assert_eq!(entries[0].gif.use_count, 5);
}

#[test]
fn entry_tags_are_replaced() {
    let mut entries = library();
    set_entry_tags(&mut entries, 3, vec!["new".to_string()]);
    assert_eq!(entries[3].tags, vec!["new".to_string()]);
}

#[test]
fn renaming_a_tag_everywhere_merges() {
    let mut entries = vec![entry(1, "a", 0, &["kitty", "cat"]), entry(2, "b", 0, &["kitty", "zoo"])];
    rename_tag_everywhere(&mut entries, "kitty", "cat");
    assert_eq!(entries[0].tags, vec!["cat".to_string()]);
    assert_eq!(entries[1].tags, vec!["cat".to_string(), "zoo".to_string()]);
}

fn animated(delays: Vec<u64>) -> GifEntry<Vec<u8>> {
    let mut e = entry(1, "a", 0, &[]);
    e.animation = Some(GifAnimation { frames: delays.iter().map(|_| vec![0u8; 4]).collect(), delays_ms: delays });
    e
}

#[test]
fn playback_advances_and_wraps() {
    let mut e = animated(vec![100, 50, 30]);
    advance_frame(&mut e, 40);
    assert_eq!((e.current_frame, e.frame_elapsed_ms), (0, 40));
    advance_frame(&mut e, 60);
    assert_eq!((e.current_frame, e.frame_elapsed_ms), (1, 0));
    advance_frame(&mut e, 90);
    assert_eq!((e.current_frame, e.frame_elapsed_ms), (0, 10));
    advance_frame(&mut e, 390);
    assert_eq!((e.current_frame, e.frame_elapsed_ms), (0, 40));
}

#[test]
fn single_frames_and_undecoded_entries_stay_put() {
    let mut still = animated(vec![100]);
    advance_frame(&mut still, 500);
    assert_eq!((still.current_frame, still.frame_elapsed_ms), (0, 0));
    let mut plain = entry(1, "a", 0, &[]);
    advance_frame(&mut plain, 500);
    assert_eq!((plain.current_frame, plain.frame_elapsed_ms), (0, 0));
}

#[test]
fn stats_count_the_library() {
    let mut lib = library();
    lib[1].gif.source_type = "url".to_string();
    let trash = vec![entry(9, "x", 2, &[])];
    let stats = library_stats(&lib, &trash, &vec![Some(100), None, Some(50), Some(1)], &vec![Some(7)]);
    assert_eq!(stats.gif_count, 4);
    assert_eq!(stats.local_count, 3);
    assert_eq!(stats.url_count, 1);
    assert_eq!(stats.total_copies, 20);
    assert_eq!(stats.total_size_bytes, 151);
    assert_eq!(stats.trash_count, 1);
    assert_eq!(stats.trash_size_bytes, 7);
    assert_eq!(total_size(&vec![]), 0);
}

#[test]
fn deleting_a_tag_everywhere() {
    let mut entries = vec![entry(1, "a", 0, &["cat", "dog", "cat"]), entry(2, "b", 0, &["zoo"])];
    remove_tag_everywhere(&mut entries, "cat");
    assert_eq!(entries[0].tags, vec!["dog".to_string()]);
    assert_eq!(entries[1].tags, vec!["zoo".to_string()]);
}

#[test]
fn offscreen_frames_are_released() {
    let mut entries = vec![animated(vec![10, 10]), animated(vec![10, 10])];
    entries[1].gif.id = 2;
    entries[0].current_frame = 1;
    entries[1].current_frame = 1;
    entries[1].frame_elapsed_ms = 5;
    release_offscreen(&mut entries, &[1]);
    assert!(entries[0].animation.is_some());
    assert_eq!(entries[0].current_frame, 1);
    assert!(entries[1].animation.is_none());
    assert_eq!((entries[1].current_frame, entries[1].frame_elapsed_ms), (0, 0));
}

#[test]
fn media_filter_splits_gifs_and_images() {
    let mut entries = library();
    entries[1].gif.local_cache_path = Some("/store/2.PNG".to_string());
    entries[3].gif.local_cache_path = None;
    entries[3].gif.source_path = "/src/4.webp".to_string();
    assert!(is_animated_gif(&entries[0].gif));
    assert!(!is_animated_gif(&entries[1].gif));
    let all = vec![3, 2, 1, 0];
    assert_eq!(filter_by_media(&entries, &all, MediaFilter::All), vec![3, 2, 1, 0]);
    assert_eq!(filter_by_media(&entries, &all, MediaFilter::Gifs), vec![2, 0]);
    assert_eq!(filter_by_media(&entries, &all, MediaFilter::Images), vec![3, 1]);
    let stats = library_stats(&entries, &Vec::new(), &vec![], &vec![]);
    assert_eq!((stats.animated_count, stats.static_count), (2, 2));
}

#[test]
fn decode_path_prefers_the_stored_copy() {
    let mut g = gif(1, "a", 0, "url");
    assert_eq!(decode_path(&g), "/store/1.gif");
    g.local_cache_path = None;
    assert_eq!(decode_path(&g), "/src/1.gif");
}

#[test]
fn missing_dimensions_are_detected() {
    let mut g = gif(1, "a", 0, "local");
    assert!(needs_dimensions(&g));
    g.width = 10;
    assert!(needs_dimensions(&g));
    g.height = 12;
    assert!(!needs_dimensions(&g));
}

#[test]
fn only_loaded_undecoded_entries_need_decoding() {
    let mut entries = library();
    entries[2].animation = Some(GifAnimation { frames: vec![vec![0u8]], delays_ms: vec![100] });
    assert_eq!(entries_needing_decode(&entries, &[4, 3, 77, 1]), vec![3, 0]);
    assert_eq!(entries_needing_decode(&entries, &[]), Vec::<usize>::new());
}

#[test]
fn toggling_the_selection() {
    let mut selected: HashSet<i64> = [3, 5].into_iter().collect();
    toggle_selected(&mut selected, 7);
    assert_eq!(selected, [3, 5, 7].into_iter().collect::<HashSet<i64>>());
    toggle_selected(&mut selected, 5);
    assert_eq!(selected, [3, 7].into_iter().collect::<HashSet<i64>>());
}

#[test]
fn toggling_a_tile_twice_restores_the_selection() {
    let start: HashSet<i64> = [1, 4, 9].into_iter().collect();
    for id in [4, 6] {
        let mut selected = start.clone();
        toggle_selected(&mut selected, id);
        assert_ne!(selected, start);
        toggle_selected(&mut selected, id);
        assert_eq!(selected, start);
    }
}

#[test]
fn bulk_tagging_the_selection() {
    let mut entries = library();
    tag_selected(&mut entries, &vec![3, 1, 3, 42], "cat");
    assert_eq!(entries[0].tags, vec!["Cat".to_string(), "funny".to_string()]);
    assert_eq!(entries[2].tags, vec!["cat".to_string(), "cats".to_string(), "reaction".to_string()]);
    assert_eq!(entries[1].tags, vec!["dog".to_string()]);
    assert!(entries[3].tags.is_empty());
}
