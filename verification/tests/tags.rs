use gifvault::tags::{
    add_tag_sorted, apply_tag_input, contains_ignoring_case, manage_tag_list, parse_tags,
    popular_tags, push_staged_tag, remove_tag_in, rename_tag_in, rename_target, sort_texts,
    sorted_unique, stage_pieces, suggest_tag, TagSort,
};
use gifvault::text::{equal_ignoring_ascii_case, join_with, split_on, trimmed};

fn strings(items: &[&str]) -> Vec<String> {
    items.iter().map(|s| s.to_string()).collect()
}

fn stats(items: &[(&str, i64)]) -> Vec<(String, i64)> {
    items.iter().map(|(n, c)| (n.to_string(), *c)).collect()
}

#[test]
fn text_helpers() {
    assert_eq!(trimmed("  a b \t"), "a b");
    assert_eq!(trimmed("\u{3000}x\u{a0}"), "x");
    assert_eq!(split_on("a,,b,", ','), strings(&["a", "", "b", ""]));
    assert_eq!(split_on("", ','), strings(&[""]));
    assert_eq!(join_with(&strings(&["a", "b", "c"]), ","), "a,b,c");
    assert_eq!(join_with(&[], ","), "");
    assert!(equal_ignoring_ascii_case("Cat", "cAT"));
    assert!(!equal_ignoring_ascii_case("Cat", "Cats"));
    assert!(!equal_ignoring_ascii_case("É", "é"));
}

#[test]
fn parse_tags_trims_and_skips_blanks() {
    assert_eq!(parse_tags(" funny , cat,, ,reaction "), strings(&["funny", "cat", "reaction"]));
    assert_eq!(parse_tags(""), Vec::<String>::new());
    assert_eq!(parse_tags("a,a"), strings(&["a", "a"]));
}

#[test]
fn parse_of_joined_tags_gives_them_back() {
    let tags = strings(&["cat", "very funny", "dog"]);
    assert_eq!(parse_tags(&join_with(&tags, ",")), tags);
}

#[test]
fn push_staged_tag_skips_blank_and_repeats() {
    let mut staged = strings(&["Cat"]);
    push_staged_tag(&mut staged, "  dog ");
    push_staged_tag(&mut staged, "cat");
    push_staged_tag(&mut staged, "   ");
    assert_eq!(staged, strings(&["Cat", "dog"]));
    assert!(contains_ignoring_case(&staged, "DOG"));
    assert!(!contains_ignoring_case(&staged, "do"));
}

#[test]
fn typing_commas_stages_pieces() {
    let mut staged = Vec::new();
    let draft = apply_tag_input(&mut staged, "cat, dog,Cat,fun");
    assert_eq!(staged, strings(&["cat", "dog"]));
    assert_eq!(draft, "fun");
    let draft = apply_tag_input(&mut staged, "no comma");
    assert_eq!(draft, "no comma");
    assert_eq!(staged.len(), 2);
    let draft = apply_tag_input(&mut staged, "last,");
    assert_eq!(draft, "");
    assert_eq!(staged, strings(&["cat", "dog", "last"]));
}

#[test]
fn popular_tags_rank_by_use_then_name() {
    let s = stats(&[("b", 3), ("a", 3), ("zero", 0), ("c", 5), ("d", 1)]);
    assert_eq!(popular_tags(&s), strings(&["c", "a", "b", "d"]));
}

#[test]
fn popular_tags_keep_at_most_eight() {
    let s = stats(&[
        ("t1", 1), ("t2", 2), ("t3", 3), ("t4", 4), ("t5", 5),
        ("t6", 6), ("t7", 7), ("t8", 8), ("t9", 9), ("t10", 10),
    ]);
    assert_eq!(popular_tags(&s), strings(&["t10", "t9", "t8", "t7", "t6", "t5", "t4", "t3"]));
    assert_eq!(popular_tags(&[]), Vec::<String>::new());
}

#[test]
fn suggestion_prefers_most_used_prefix_match() {
    let s = stats(&[("Cats", 2), ("cartoon", 5), ("dog", 9), ("car", 5)]);
    let none: Vec<String> = Vec::new();
    assert_eq!(suggest_tag(&s, &none, " CA "), Some("car".to_string()));
    assert_eq!(suggest_tag(&s, &none, "cat"), Some("Cats".to_string()));
    assert_eq!(suggest_tag(&s, &none, "   "), None);
    assert_eq!(suggest_tag(&s, &none, "x"), None);
}

#[test]
fn suggestion_skips_staged_tags() {
    let s = stats(&[("car", 5), ("cartoon", 5)]);
    let staged = strings(&["CAR"]);
    assert_eq!(suggest_tag(&s, &staged, "car"), Some("cartoon".to_string()));
}

#[test]
fn sorting_tags() {
    assert_eq!(sort_texts(&strings(&["b", "B", "a", "b"])), strings(&["B", "a", "b", "b"]));
    assert_eq!(sorted_unique(&strings(&["b", "a", "b"])), strings(&["a", "b"]));
}

#[test]
fn renaming_merges_without_duplicates() {
    let tags = strings(&["cat", "kitty", "zoo"]);
    assert_eq!(rename_tag_in(&tags, "kitty", "cat"), strings(&["cat", "zoo"]));
    assert_eq!(rename_tag_in(&tags, "kitty", "animal"), strings(&["animal", "cat", "zoo"]));
    assert_eq!(rename_tag_in(&tags, "none", "x"), strings(&["cat", "kitty", "zoo"]));
}

#[test]
fn bulk_tag_is_added_once_and_sorted() {
    let tags = strings(&["dog", "cat"]);
    assert_eq!(add_tag_sorted(&tags, "bird"), strings(&["bird", "cat", "dog"]));
    assert_eq!(add_tag_sorted(&tags, "CAT"), strings(&["dog", "cat"]));
}

#[test]
fn rename_target_needs_a_new_name() {
    assert_eq!(rename_target("cat", "  kitty "), Some("kitty".to_string()));
    assert_eq!(rename_target("cat", " cat "), None);
    assert_eq!(rename_target("cat", "   "), None);
    assert_eq!(rename_target("cat", "Cat"), Some("Cat".to_string()));
}

#[test]
fn removing_a_tag_keeps_the_rest_in_order() {
    assert_eq!(remove_tag_in(&strings(&["b", "cat", "a", "cat"]), "cat"), strings(&["b", "a"]));
    assert_eq!(remove_tag_in(&strings(&["Cat"]), "cat"), strings(&["Cat"]));
}

#[test]
fn pieces_split_on_any_separator() {
    let mut staged = Vec::new();
    let draft = stage_pieces(&mut staged, "one two  thr", ' ');
    assert_eq!(staged, strings(&["one", "two"]));
    assert_eq!(draft, "thr");
}

#[test]
fn tag_manager_lists_found_tags_in_order() {
    let s = stats(&[("cat", 3), ("Catalog", 1), ("dog", 3), ("bird", 0), ("cats", 3)]);
    assert_eq!(manage_tag_list(&s, "", TagSort::Name), vec![1, 3, 0, 4, 2]);
    assert_eq!(manage_tag_list(&s, "", TagSort::MostUsed), vec![0, 4, 2, 1, 3]);
    assert_eq!(manage_tag_list(&s, "", TagSort::LeastUsed), vec![3, 1, 0, 4, 2]);
    assert_eq!(manage_tag_list(&s, " CAT ", TagSort::Name), vec![1, 0, 4]);
    assert_eq!(manage_tag_list(&s, "zz", TagSort::Name), Vec::<usize>::new());
}
