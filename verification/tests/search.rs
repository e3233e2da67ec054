use gifvault::library::GifEntry;
use gifvault::model::{Gif, SortMode};
use gifvault::search::Search;

fn strings(items: &[&str]) -> Vec<String> {
    items.iter().map(|s| s.to_string()).collect()
}

fn entry(id: i64, added_at: &str, tags: &[&str]) -> GifEntry<Vec<u8>> {
    let gif = Gif {
        id,
        source_type: "local".to_string(),
        source_path: format!("/src/{id}.gif"),
        local_cache_path: None,
        title: None,
        added_at: added_at.to_string(),
        file_hash: None,
        deleted_at: None,
        use_count: 0,
        width: 1,
        height: 1,
    };
    GifEntry::new(gif, tags.iter().map(|t| t.to_string()).collect())
}

fn library() -> Vec<GifEntry<Vec<u8>>> {
    vec![
        entry(1, "2024-01-01", &["cat", "funny"]),
        entry(2, "2024-01-02", &["cat"]),
        entry(3, "2024-01-03", &["dog", "funny"]),
    ]
}

#[test]
fn typing_filters_live() {
    let mut search = Search::new();
    search.draft_changed("FUN");
    assert!(search.criteria.is_empty());
    assert_eq!(search.search_indices(&library(), SortMode::DateNewest), vec![2, 0]);
}

#[test]
fn pills_must_all_match() {
    let mut search = Search::new();
    search.draft_changed("cat funny ");
    assert_eq!(search.criteria, strings(&["cat", "funny"]));
    assert_eq!(search.draft, "");
    assert_eq!(search.search_indices(&library(), SortMode::DateOldest), vec![0]);
    search.draft_changed("d");
    assert_eq!(search.search_indices(&library(), SortMode::DateOldest), Vec::<usize>::new());
}

#[test]
fn removing_a_pill_widens_the_search() {
    let mut search = Search::new();
    search.draft_changed("cat funny ");
    search.remove_criterion(1);
    assert_eq!(search.criteria, strings(&["cat"]));
    assert_eq!(search.search_indices(&library(), SortMode::DateOldest), vec![0, 1]);
    search.remove_criterion(9);
    assert_eq!(search.criteria, strings(&["cat"]));
}

#[test]
fn tab_adds_the_suggested_tag_as_a_pill() {
    let stats = vec![("funny".to_string(), 2), ("fun-size".to_string(), 1)];
    let mut search = Search::new();
    search.draft_changed("fu");
    assert_eq!(search.suggestion(&stats), Some("funny".to_string()));
    assert!(search.accept_suggestion(&stats));
    assert_eq!(search.criteria, strings(&["funny"]));
    assert_eq!(search.draft, "");
    assert!(!search.accept_suggestion(&stats));
}

#[test]
fn popular_chip_swaps_then_clears() {
    let mut search = Search::new();
    search.draft_changed("dog cat");
    search.popular_clicked("funny");
    assert_eq!(search.criteria, strings(&["funny"]));
    assert_eq!(search.draft, "");
    assert!(search.is_only("funny"));
    assert!(!search.is_only("cat"));
    search.popular_clicked("funny");
    assert!(search.criteria.is_empty());
    assert_eq!(search.draft, "");
}

#[test]
fn reset_clears_the_search() {
    let mut search = Search::new();
    search.draft_changed("a b");
    search.reset();
    assert!(search.criteria.is_empty());
    assert_eq!(search.draft, "");
}
