use gifvault::labels::{deleted_line, pill_rows, source_preview, tags_line};

fn strings(items: &[&str]) -> Vec<String> {
    items.iter().map(|s| s.to_string()).collect()
}

#[test]
fn short_sources_are_shown_whole() {
    assert_eq!(source_preview("https://x.test/a.gif"), "https://x.test/a.gif 🔗");
    assert_eq!(source_preview(""), " 🔗");
}

#[test]
fn long_sources_are_cut_at_forty_characters() {
    let long = "é".repeat(45);
    assert_eq!(source_preview(&long), format!("{}… 🔗", "é".repeat(40)));
    let exact = "a".repeat(40);
    assert_eq!(source_preview(&exact), format!("{exact} 🔗"));
}

#[test]
fn tag_lines() {
    assert_eq!(tags_line(&Vec::new()), "Tags: (none)");
    assert_eq!(tags_line(&strings(&["cat", "dog"])), "Tags: cat, dog");
    assert_eq!(deleted_line(&Some("2024-05-01 10:00:00".to_string())), "Deleted: 2024-05-01 10:00:00");
    assert_eq!(deleted_line(&None), "Deleted: unknown");
}

#[test]
fn pills_wrap_into_rows() {
    // widths: 7 * chars + 46, plus 6 between pills, rows at most 400 wide
    let tags = strings(&["aaaaaaaaaa", "bbbbbbbbbb", "cccccccccc", "d", "eeeeeeeeeeeeeeeeeeeeeeeeeeeeeeeeeeeeeeeeeeeeeeeeeeeeeeeeeeeeeeeeeeeeeeeeeeeeeeeeeeeeeeeeeeeeeeeeeeeee"]);
    // 116 + 6, 116 + 6, 116: 122 + 122 + 116 = 360 <= 400; then "d" (53): 366 + 53 > 400
    assert_eq!(pill_rows(&tags), vec![0, 0, 0, 1, 2]);
    assert_eq!(pill_rows(&Vec::new()), Vec::<usize>::new());
    assert_eq!(pill_rows(&strings(&[&"x".repeat(100)])), vec![0]);
}
