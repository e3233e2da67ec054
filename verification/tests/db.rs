use gifvault::db::{init_schema, schema_migrations, SqlValue, Statement, ADD_DELETED_AT, ADD_HEIGHT, ADD_USE_COUNT, ADD_WIDTH};
use gifvault::db::queries::{
    delete_tag_statements, dimensions_statement, insert_gif_statement, link_statement,
    permanent_delete_statements, rename_statements, set_setting_statement, GET_SETTING,
    get_setting_query, DELETE_GIF, DELETE_TAG, DELETE_TAG_NAMED, INSERT_GIF, LINK_TAG,
    MERGE_TAG_LINKS, RENAME_TAG, SET_DIMENSIONS, SET_SETTING, UNLINK_GIF, UNLINK_TAG,
    UNLINK_TAG_NAMED,
    delete_tag, first_row, get_gif, get_setting, increment_use_count, insert_gif, list_deleted_gifs, list_gifs,
    list_tag_stats, list_tags_for_gif, optional_row, permanently_delete_gif, rename_or_merge_tag,
    restore_gif, set_gif_dimensions, set_gif_tags_exact, set_setting, set_tags_for_gif,
    soft_delete_gif, tag_rename_plan, TagRename,
};
use gifvault::db::DbError;
use gifvault::library::{build_entries, entries_from, load_deleted_entries, load_entries, push_entry, push_new_entry, GifEntry};
use gifvault::model::Gif;
use rusqlite::Connection;

fn open() -> Connection {
    let conn = Connection::open_in_memory().unwrap();
    init_schema(&conn).unwrap();
    conn
}

fn strings(items: &[&str]) -> Vec<String> {
    items.iter().map(|s| s.to_string()).collect()
}

#[test]
fn schema_can_be_applied_twice() {
    let conn = open();
    init_schema(&conn).unwrap();
    assert!(list_gifs(&conn).unwrap().is_empty());
}

#[test]
fn inserted_gifs_read_back() {
    let conn = open();
    let id = insert_gif(&conn, "local", "/home/a.gif", "/store/1.gif").unwrap();
    let gif = get_gif(&conn, id).unwrap();
    assert_eq!(gif.id, id);
    assert_eq!(gif.source_type, "local");
    assert_eq!(gif.source_path, "/home/a.gif");
    assert_eq!(gif.local_cache_path.as_deref(), Some("/store/1.gif"));
    assert_eq!(gif.use_count, 0);
    assert_eq!((gif.width, gif.height), (0, 0));
    assert!(gif.deleted_at.is_none());
}

#[test]
fn missing_gif_is_no_rows() {
    let conn = open();
    assert!(matches!(get_gif(&conn, 99), Err(DbError::NoRows)));
}

#[test]
fn tags_are_parsed_and_linked() {
    let conn = open();
    let id = insert_gif(&conn, "local", "a", "b").unwrap();
    set_tags_for_gif(&conn, id, " funny, cat ,,cat").unwrap();
    assert_eq!(list_tags_for_gif(&conn, id).unwrap(), strings(&["cat", "funny"]));
    set_tags_for_gif(&conn, id, "dog").unwrap();
    assert_eq!(list_tags_for_gif(&conn, id).unwrap(), strings(&["cat", "dog", "funny"]));
}

#[test]
fn exact_tags_replace_the_old_ones() {
    let conn = open();
    let id = insert_gif(&conn, "local", "a", "b").unwrap();
    set_tags_for_gif(&conn, id, "cat,dog").unwrap();
    set_gif_tags_exact(&conn, id, &strings(&["dog", "bird"])).unwrap();
    assert_eq!(list_tags_for_gif(&conn, id).unwrap(), strings(&["bird", "dog"]));
    let stats = list_tag_stats(&conn).unwrap();
    assert_eq!(stats, vec![("bird".to_string(), 1), ("cat".to_string(), 0), ("dog".to_string(), 1)]);
}

#[test]
fn renaming_to_a_new_name() {
    let conn = open();
    let id = insert_gif(&conn, "local", "a", "b").unwrap();
    set_tags_for_gif(&conn, id, "kitty").unwrap();
    rename_or_merge_tag(&conn, "kitty", "cat").unwrap();
    assert_eq!(list_tags_for_gif(&conn, id).unwrap(), strings(&["cat"]));
    assert_eq!(list_tag_stats(&conn).unwrap(), vec![("cat".to_string(), 1)]);
}

#[test]
fn renaming_to_an_existing_name_merges() {
    let conn = open();
    let a = insert_gif(&conn, "local", "a", "a").unwrap();
    let b = insert_gif(&conn, "local", "b", "b").unwrap();
    set_tags_for_gif(&conn, a, "cat,kitty").unwrap();
    set_tags_for_gif(&conn, b, "kitty,zoo").unwrap();
    rename_or_merge_tag(&conn, "kitty", "cat").unwrap();
    assert_eq!(list_tags_for_gif(&conn, a).unwrap(), strings(&["cat"]));
    assert_eq!(list_tags_for_gif(&conn, b).unwrap(), strings(&["cat", "zoo"]));
    assert_eq!(list_tag_stats(&conn).unwrap(), vec![("cat".to_string(), 2), ("zoo".to_string(), 1)]);
}

#[test]
fn renaming_to_the_same_name_changes_nothing() {
    let conn = open();
    let id = insert_gif(&conn, "local", "a", "b").unwrap();
    set_tags_for_gif(&conn, id, "cat").unwrap();
    rename_or_merge_tag(&conn, "cat", "cat").unwrap();
    assert_eq!(list_tags_for_gif(&conn, id).unwrap(), strings(&["cat"]));
}

#[test]
fn renaming_an_unknown_tag_is_no_rows() {
    let conn = open();
    assert!(matches!(rename_or_merge_tag(&conn, "ghost", "x"), Err(DbError::NoRows)));
}

#[test]
fn rename_plans() {
    assert_eq!(tag_rename_plan(3, None), TagRename::Rename);
    assert_eq!(tag_rename_plan(3, Some(3)), TagRename::Unchanged);
    assert_eq!(tag_rename_plan(3, Some(8)), TagRename::MergeInto(8));
}

#[test]
fn first_rows() {
    assert!(matches!(first_row(vec![4, 5]), Ok(4)));
    assert!(matches!(first_row(Vec::<i64>::new()), Err(DbError::NoRows)));
    assert_eq!(optional_row(vec!["a", "b"]), Some("a"));
    assert_eq!(optional_row(Vec::<i64>::new()), None);
}

#[test]
fn trash_restore_and_delete() {
    let conn = open();
    let a = insert_gif(&conn, "local", "a", "a").unwrap();
    let b = insert_gif(&conn, "url", "http://x/b.gif", "b").unwrap();
    set_tags_for_gif(&conn, a, "cat").unwrap();
    soft_delete_gif(&conn, a).unwrap();
    assert_eq!(list_gifs(&conn).unwrap().iter().map(|g| g.id).collect::<Vec<_>>(), vec![b]);
    let deleted = list_deleted_gifs(&conn).unwrap();
    assert_eq!(deleted.len(), 1);
    assert!(deleted[0].deleted_at.is_some());
    restore_gif(&conn, a).unwrap();
    assert!(list_deleted_gifs(&conn).unwrap().is_empty());
    assert!(get_gif(&conn, a).unwrap().deleted_at.is_none());
    soft_delete_gif(&conn, a).unwrap();
    permanently_delete_gif(&conn, a).unwrap();
    assert!(matches!(get_gif(&conn, a), Err(DbError::NoRows)));
    assert_eq!(list_tag_stats(&conn).unwrap(), vec![("cat".to_string(), 0)]);
}

#[test]
fn library_is_newest_first() {
    let conn = open();
    let a = insert_gif(&conn, "local", "a", "a").unwrap();
    let b = insert_gif(&conn, "local", "b", "b").unwrap();
    conn.execute("UPDATE gifs SET added_at = '2020-01-01 00:00:00' WHERE id = ?1", [b]).unwrap();
    assert_eq!(list_gifs(&conn).unwrap().iter().map(|g| g.id).collect::<Vec<_>>(), vec![a, b]);
}

#[test]
fn uses_and_dimensions_are_recorded() {
    let conn = open();
    let id = insert_gif(&conn, "local", "a", "b").unwrap();
    increment_use_count(&conn, id).unwrap();
    increment_use_count(&conn, id).unwrap();
    set_gif_dimensions(&conn, id, 320, 240).unwrap();
    let gif = get_gif(&conn, id).unwrap();
    assert_eq!(gif.use_count, 2);
    assert_eq!((gif.width, gif.height), (320, 240));
}

#[test]
fn settings_read_back_their_latest_value() {
    let conn = open();
    assert_eq!(get_setting(&conn, "theme").unwrap(), None);
    set_setting(&conn, "theme", "light").unwrap();
    assert_eq!(get_setting(&conn, "theme").unwrap(), Some("light".to_string()));
    set_setting(&conn, "theme", "dark").unwrap();
    assert_eq!(get_setting(&conn, "theme").unwrap(), Some("dark".to_string()));
}

#[test]
fn entries_are_built_from_rows() {
    let conn = open();
    let a = insert_gif(&conn, "local", "a", "a").unwrap();
    let b = insert_gif(&conn, "local", "b", "b").unwrap();
    set_tags_for_gif(&conn, a, "x,y").unwrap();
    soft_delete_gif(&conn, b).unwrap();
    let entries: Vec<GifEntry<Vec<u8>>> = load_entries(&conn);
    assert_eq!(entries.len(), 1);
    assert_eq!(entries[0].gif.id, a);
    assert_eq!(entries[0].tags, strings(&["x", "y"]));
    assert!(entries[0].animation.is_none());
    let trash: Vec<GifEntry<Vec<u8>>> = load_deleted_entries(&conn);
    assert_eq!(trash.iter().map(|e| e.gif.id).collect::<Vec<_>>(), vec![b]);
    let built: Vec<GifEntry<Vec<u8>>> = build_entries(&conn, list_gifs(&conn).unwrap());
    assert_eq!(built.len(), 1);
}

#[test]
fn new_entries_go_to_the_front() {
    let conn = open();
    let a = insert_gif(&conn, "local", "a", "a").unwrap();
    let mut entries: Vec<GifEntry<Vec<u8>>> = load_entries(&conn);
    let b = insert_gif(&conn, "local", "b", "b").unwrap();
    set_tags_for_gif(&conn, b, "new").unwrap();
    assert!(push_new_entry(&conn, &mut entries, b).is_ok());
    assert_eq!(entries.iter().map(|e| e.gif.id).collect::<Vec<_>>(), vec![b, a]);
    assert_eq!(entries[0].tags, strings(&["new"]));
    assert!(matches!(push_new_entry(&conn, &mut entries, 999), Err(DbError::NoRows)));
    assert_eq!(entries.len(), 2);
}

#[test]
fn deleting_a_tag_unlinks_it() {
    let conn = open();
    let a = insert_gif(&conn, "local", "a", "a").unwrap();
    set_tags_for_gif(&conn, a, "cat,dog").unwrap();
    delete_tag(&conn, "cat").unwrap();
    assert_eq!(list_tags_for_gif(&conn, a).unwrap(), strings(&["dog"]));
    assert_eq!(list_tag_stats(&conn).unwrap(), vec![("dog".to_string(), 1)]);
    delete_tag(&conn, "ghost").unwrap();
}

#[test]
fn sqlite_errors_are_reported() {
    let conn = Connection::open_in_memory().unwrap();
    assert!(matches!(list_gifs(&conn), Err(DbError::Sqlite(_))));
    assert!(matches!(insert_gif(&conn, "local", "a", "b"), Err(DbError::Sqlite(_))));
    assert!(matches!(get_setting(&conn, "theme"), Err(DbError::Sqlite(_))));
}

fn shape(s: &Statement) -> (&'static str, Vec<String>) {
    let params = s
        .params
        .iter()
        .map(|p| match p {
            SqlValue::Integer(i) => format!("i{i}"),
            SqlValue::Text(t) => format!("t{t}"),
        })
        .collect();
    (s.sql, params)
}

#[test]
fn statements_bind_their_values_in_order() {
    assert_eq!(shape(&insert_gif_statement("url", "http://x", "/s/1.gif")), (INSERT_GIF, strings(&["turl", "thttp://x", "t/s/1.gif"])));
    assert_eq!(shape(&link_statement(3, 9)), (LINK_TAG, strings(&["i3", "i9"])));
    assert_eq!(shape(&dimensions_statement(5, 320, 240)), (SET_DIMENSIONS, strings(&["i320", "i240", "i5"])));
    assert_eq!(shape(&set_setting_statement("theme", "dark")), (SET_SETTING, strings(&["ttheme", "tdark"])));
    assert_eq!(shape(&get_setting_query("theme")), (GET_SETTING, strings(&["ttheme"])));
}

#[test]
fn multi_statement_plans() {
    let del: Vec<_> = permanent_delete_statements(4).iter().map(shape).collect();
    assert_eq!(del, vec![(UNLINK_GIF, strings(&["i4"])), (DELETE_GIF, strings(&["i4"]))]);
    let tag: Vec<_> = delete_tag_statements("cat").iter().map(shape).collect();
    assert_eq!(tag, vec![(UNLINK_TAG_NAMED, strings(&["tcat"])), (DELETE_TAG_NAMED, strings(&["tcat"]))]);
    let rename: Vec<_> = rename_statements(TagRename::Rename, 2, "kitty").iter().map(shape).collect();
    assert_eq!(rename, vec![(RENAME_TAG, strings(&["tkitty", "i2"]))]);
    assert!(rename_statements(TagRename::Unchanged, 2, "x").is_empty());
    let merge: Vec<_> = rename_statements(TagRename::MergeInto(7), 2, "x").iter().map(shape).collect();
    assert_eq!(
        merge,
        vec![(MERGE_TAG_LINKS, strings(&["i7", "i2"])), (UNLINK_TAG, strings(&["i2"])), (DELETE_TAG, strings(&["i2"]))]
    );
    assert_eq!(schema_migrations(), vec![ADD_DELETED_AT, ADD_USE_COUNT, ADD_WIDTH, ADD_HEIGHT]);
}

#[test]
fn exact_tags_keep_commas() {
    let conn = open();
    let id = insert_gif(&conn, "local", "a", "b").unwrap();
    set_gif_tags_exact(&conn, id, &strings(&[" a,b ", "", "c"])).unwrap();
    assert_eq!(list_tags_for_gif(&conn, id).unwrap(), strings(&["a,b", "c"]));
}

fn row(id: i64) -> Gif {
    Gif {
        id,
        source_type: "local".to_string(),
        source_path: "p".to_string(),
        local_cache_path: None,
        title: None,
        added_at: "t".to_string(),
        file_hash: None,
        deleted_at: None,
        use_count: 0,
        width: 0,
        height: 0,
    }
}

#[test]
fn entries_take_their_read_tags() {
    let entries: Vec<GifEntry<Vec<u8>>> =
        entries_from(vec![row(1), row(2)], vec![Ok(strings(&["x"])), Err(DbError::NoRows)]);
    assert_eq!(entries.iter().map(|e| e.gif.id).collect::<Vec<_>>(), vec![1, 2]);
    assert_eq!(entries[0].tags, strings(&["x"]));
    assert!(entries[1].tags.is_empty());
    assert!(entries[0].animation.is_none());
}

#[test]
fn pushed_entries_go_first() {
    let mut entries: Vec<GifEntry<Vec<u8>>> = vec![GifEntry::new(row(1), Vec::new())];
    push_entry(&mut entries, row(2), strings(&["new"]));
    assert_eq!(entries.iter().map(|e| e.gif.id).collect::<Vec<_>>(), vec![2, 1]);
    assert_eq!(entries[0].tags, strings(&["new"]));
}
