use gifvault::editor::TagEditor;

fn strings(items: &[&str]) -> Vec<String> {
    items.iter().map(|s| s.to_string()).collect()
}

fn known() -> Vec<(String, i64)> {
    vec![("cartoon".to_string(), 4), ("cat".to_string(), 9), ("dog".to_string(), 1)]
}

#[test]
fn editor_starts_empty() {
    let editor = TagEditor::new();
    assert!(editor.staged.is_empty());
    assert_eq!(editor.draft, "");
    assert_eq!(editor.suggestion, None);
}

#[test]
fn typing_stages_pieces_and_suggests() {
    let mut editor = TagEditor::new();
    editor.draft_changed("dog, ca", &known());
    assert_eq!(editor.staged, strings(&["dog"]));
    assert_eq!(editor.draft, " ca");
    assert_eq!(editor.suggestion, Some("cat".to_string()));
}

#[test]
fn tab_accepts_the_suggestion() {
    let mut editor = TagEditor::new();
    editor.draft_changed("car", &known());
    assert_eq!(editor.suggestion, Some("cartoon".to_string()));
    assert!(editor.accept_suggestion(&known()));
    assert_eq!(editor.draft, "cartoon");
    assert_eq!(editor.suggestion, Some("cartoon".to_string()));
    let mut empty = TagEditor::new();
    assert!(!empty.accept_suggestion(&known()));
    assert_eq!(empty.draft, "");
}

#[test]
fn committing_the_draft_stages_it() {
    let mut editor = TagEditor::new();
    editor.draft_changed("  fun  ", &known());
    editor.commit_draft();
    assert_eq!(editor.staged, strings(&["fun"]));
    assert_eq!(editor.draft, "");
    assert_eq!(editor.suggestion, None);
    editor.draft_changed("FUN", &known());
    editor.commit_draft();
    assert_eq!(editor.staged, strings(&["fun"]));
}

#[test]
fn removing_pills() {
    let mut editor = TagEditor::new();
    editor.load(&strings(&["a", "b", "c"]));
    editor.remove_staged(1);
    assert_eq!(editor.staged, strings(&["a", "c"]));
    editor.remove_staged(5);
    assert_eq!(editor.staged, strings(&["a", "c"]));
}

#[test]
fn bulk_tag_draft() {
    let mut editor = TagEditor::new();
    editor.bulk_draft_changed("  ca".to_string(), &known());
    assert_eq!(editor.draft, "  ca");
    assert_eq!(editor.suggestion, Some("cat".to_string()));
    let tag = editor.take_bulk_tag();
    assert_eq!(tag, "ca");
    assert_eq!(editor.draft, "");
    assert_eq!(editor.suggestion, None);
}

#[test]
fn reset_clears_everything() {
    let mut editor = TagEditor::new();
    editor.draft_changed("a,b", &known());
    editor.reset();
    assert!(editor.staged.is_empty());
    assert_eq!(editor.draft, "");
    assert_eq!(editor.suggestion, None);
}
