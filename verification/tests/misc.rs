use gifvault::import::{downloaded_file_name, is_gif_file, is_supported_file, stored_file_name, url_to_fetch};
use gifvault::model::{AppTheme, Gif, MediaFilter, SortMode, ViewMode};
use gifvault::overlays::{toast_expired, wanted_subscriptions, Overlay, Overlays, TOAST_DURATION_MS};

#[test]
fn sort_mode_labels() {
    assert_eq!(SortMode::DateNewest.label(), "Newest");
    assert_eq!(SortMode::DateOldest.label(), "Oldest");
    assert_eq!(SortMode::MostUsed.label(), "Most used");
    assert_eq!(SortMode::LeastUsed.label(), "Least used");
}

#[test]
fn theme_from_setting() {
    assert_eq!(AppTheme::from_setting(Some("light")), AppTheme::Light);
    assert_eq!(AppTheme::from_setting(Some("dark")), AppTheme::Dark);
    assert_eq!(AppTheme::from_setting(Some("Light")), AppTheme::Dark);
    assert_eq!(AppTheme::from_setting(None), AppTheme::Dark);
}

#[test]
fn theme_setting_roundtrip() {
    for theme in [AppTheme::Light, AppTheme::Dark] {
        assert_eq!(AppTheme::from_setting(Some(theme.as_setting())), theme);
    }
    assert_eq!(AppTheme::Light.as_setting(), "light");
    assert_eq!(AppTheme::Dark.as_setting(), "dark");
}

#[test]
fn theme_colors_and_names() {
    assert_eq!(AppTheme::Dark.palette().background, 0x313338);
    assert_eq!(AppTheme::Light.palette().background, 0xffffff);
    assert_eq!(AppTheme::Light.palette().danger, 0xda373c);
    assert_eq!(AppTheme::Dark.palette().primary, AppTheme::Light.palette().primary);
    assert_eq!(AppTheme::Dark.recessed_background(), 0x2b2d31);
    assert_eq!(AppTheme::Light.recessed_background(), 0xf2f3f5);
    assert_eq!(AppTheme::Dark.theme_name(), "GifVault Dark");
    assert_eq!(AppTheme::Light.theme_name(), "GifVault Light");
}

#[test]
fn gif_duplicate_copies_every_field() {
    let gif = Gif {
        id: 7,
        source_type: "local".to_string(),
        source_path: "/tmp/a.gif".to_string(),
        local_cache_path: Some("/store/x.gif".to_string()),
        title: None,
        added_at: "2024-01-01 10:00:00".to_string(),
        file_hash: None,
        deleted_at: None,
        use_count: 3,
        width: 10,
        height: 20,
    };
    let copy = gif.duplicate();
    assert_eq!(format!("{:?}", copy), format!("{:?}", gif));
}

fn overlays() -> Overlays {
    Overlays {
        editing_tags_for: Some(1),
        detail_gif_id: Some(1),
        pending_import_zip: Some("/tmp/b.zip".to_string()),
        show_import_modal: true,
        pending_permanent_delete: Some(2),
        pending_tag_delete: Some("cat".to_string()),
    }
}

#[test]
fn escape_closes_overlays_top_down() {
    let mut o = overlays();
    assert_eq!(o.close_topmost_modal(), Some(Overlay::TagEditing));
    assert_eq!(o.editing_tags_for, None);
    assert_eq!(o.detail_gif_id, Some(1));
    assert_eq!(o.close_topmost_modal(), Some(Overlay::Detail));
    assert_eq!(o.close_topmost_modal(), Some(Overlay::PermanentDelete));
    assert_eq!(o.pending_permanent_delete, None);
    assert!(o.show_import_modal);
    assert_eq!(o.close_topmost_modal(), Some(Overlay::ImportBackup));
    assert_eq!(o.pending_import_zip, None);
    assert_eq!(o.close_topmost_modal(), Some(Overlay::Import));
    assert!(!o.show_import_modal);
    assert!(o.any_modal_open());
    assert_eq!(o.close_topmost_modal(), Some(Overlay::TagDelete));
    assert_eq!(o.pending_tag_delete, None);
    assert_eq!(o.close_topmost_modal(), None);
    assert!(!o.any_modal_open());
}

#[test]
fn escape_closes_the_delete_confirmation_over_the_import_dialog() {
    let mut o = Overlays::new();
    o.show_import_modal = true;
    o.pending_permanent_delete = Some(4);
    assert_eq!(o.close_topmost_modal(), Some(Overlay::PermanentDelete));
    assert!(o.show_import_modal);
}

#[test]
fn any_modal_open_ignores_tag_editing_alone() {
    let mut o = Overlays::new();
    assert!(!o.any_modal_open());
    o.editing_tags_for = Some(3);
    assert!(!o.any_modal_open());
    o.pending_permanent_delete = Some(3);
    assert!(o.any_modal_open());
}

#[test]
fn clock_runs_only_while_animating_or_toasting() {
    let idle = wanted_subscriptions(ViewMode::Settings, 5, false, false, false, false, false);
    assert!(!idle.tick);
    let empty_library = wanted_subscriptions(ViewMode::Library, 0, false, false, false, false, false);
    assert!(!empty_library.tick);
    let animating = wanted_subscriptions(ViewMode::Library, 2, false, false, false, false, false);
    assert!(animating.tick);
    let toast = wanted_subscriptions(ViewMode::Stats, 0, true, false, false, false, false);
    assert!(toast.tick);
}

#[test]
fn tab_and_escape_subscriptions() {
    let s = wanted_subscriptions(ViewMode::Library, 0, false, true, true, false, true);
    assert!(s.tab_key && s.escape_key);
    let s = wanted_subscriptions(ViewMode::Library, 0, false, true, false, true, false);
    assert!(!s.tab_key && !s.escape_key);
    let s = wanted_subscriptions(ViewMode::Library, 0, false, false, false, true, false);
    assert!(s.tab_key);
    let s = wanted_subscriptions(ViewMode::Library, 0, false, false, false, true, true);
    assert!(!s.tab_key);
    let s = wanted_subscriptions(ViewMode::Trash, 0, false, false, false, true, false);
    assert!(!s.tab_key);
}

#[test]
fn dropped_files_must_be_gifs() {
    assert!(is_gif_file("/home/me/cat.gif"));
    assert!(is_gif_file("/home/me/CAT.GIF"));
    assert!(!is_gif_file("/home/me/cat.png"));
    assert!(!is_gif_file("/home/me/gif"));
    assert!(!is_gif_file("/home/me/.gif"));
}

#[test]
fn supported_files_are_images() {
    for path in ["/a/b.gif", "/a/b.PNG", "/a/b.jpg", "/a/b.jpeg", "/a/b.WebP"] {
        assert!(is_supported_file(path), "{path}");
    }
    for path in ["/a/b.bmp", "/a/b", "/a/.png", "/a/b.tiff"] {
        assert!(!is_supported_file(path), "{path}");
    }
}

#[test]
fn media_filter_labels() {
    assert_eq!(MediaFilter::All.label(), "All");
    assert_eq!(MediaFilter::Gifs.label(), "Gifs");
    assert_eq!(MediaFilter::Images.label(), "Images");
}

#[test]
fn downloads_are_named_by_their_format() {
    let png: &[u8] = &[0x89, b'P', b'N', b'G', 0x0d, 0x0a, 0x1a, 0x0a, 0, 0, 0, 0];
    assert_eq!(downloaded_file_name("abc", png), "abc.png");
    assert_eq!(downloaded_file_name("abc", b"GIF89a......"), "abc.gif");
    assert_eq!(downloaded_file_name("abc", &[0xff, 0xd8, 0xff, 0xe0, 0, 0]), "abc.jpg");
    assert_eq!(downloaded_file_name("abc", b"<html></html>"), "abc.gif");
}

#[test]
fn stored_names_keep_the_extension() {
    assert_eq!(stored_file_name("abc", "/x/y/funny.png"), "abc.png");
    assert_eq!(stored_file_name("abc", "/x/y/funny"), "abc.gif");
    assert_eq!(stored_file_name("abc", "/x/y.d/funny.tar.gz"), "abc.gz");
}

#[test]
fn url_to_fetch_trims_and_skips_blank() {
    assert_eq!(url_to_fetch("  https://x.test/a.gif \n"), Some("https://x.test/a.gif".to_string()));
    assert_eq!(url_to_fetch("   "), None);
    assert_eq!(url_to_fetch(""), None);
}

#[test]
fn a_toast_goes_after_its_time_on_screen() {
    assert_eq!(TOAST_DURATION_MS, 2200);
    assert!(!toast_expired(None));
    assert!(!toast_expired(Some(0)));
    assert!(!toast_expired(Some(2199)));
    assert!(toast_expired(Some(2200)));
    assert!(toast_expired(Some(60_000)));
}
