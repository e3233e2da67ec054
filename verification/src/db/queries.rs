//! The queries the app runs against its database.
//!
//! The SQL of each query is a named constant, and what is bound to its
//! placeholders comes from a builder whose contract fixes it exactly. The
//! functions that run them go through the `rusqlite` calls of the parent
//! module: what the database answers depends on its file, so their
//! contracts state which of those calls were made and succeeded (by
//! `call_ensures` on the functions that make them) and what this library
//! decides from the answers (the first row, the rename plan, success when
//! there is nothing to run), not what the database then holds.

use crate::db::{
    last_insert_rowid, query_gifs, query_ids, query_integers, query_name_counts, query_texts, run, run_all,
    run_once,
    sqlite, DbError, SqlValue, Statement,
};
use crate::model::Gif;
use crate::tags;
use crate::text;
use vstd::prelude::*;

verus! {

/// The first row a query gave, as `Connection::query_row` takes it: a
/// query that was to give a row and gave none is [`DbError::NoRows`].
pub fn first_row<T>(rows: Vec<T>) -> (r: Result<T, DbError>)
    ensures
        rows@.len() > 0 ==> r == Ok::<T, DbError>(rows@[0]),
        rows@.len() == 0 ==> r matches Err(DbError::NoRows),
{
    let mut rows = rows;
    if rows.len() == 0 {
        Err(DbError::NoRows)
    } else {
        Ok(rows.remove(0))
    }
}

/// The first row a query gave, if it gave any.
pub fn optional_row<T>(rows: Vec<T>) -> (r: Option<T>)
    ensures
        rows@.len() > 0 ==> r == Some(rows@[0]),
        rows@.len() == 0 ==> r is None,
{
    let mut rows = rows;
    if rows.len() == 0 {
        None
    } else {
        Some(rows.remove(0))
    }
}

/// What renaming a tag comes to, once the ids of the tag and of any tag
/// already named like the new name are known.
#[derive(Debug, Clone, Copy, PartialEq, Eq, Structural)]
pub enum TagRename {
    /// No tag has the new name: the tag's row is renamed.
    Rename,
    /// The tag already has the new name: nothing changes.
    Unchanged,
    /// Another tag has the new name: the tag's gifs move to it and the tag
    /// is removed.
    MergeInto(i64),
}

/// Decides a rename: see [`TagRename`].
pub fn tag_rename_plan(old_id: i64, existing_target: Option<i64>) -> (r: TagRename)
    ensures
        existing_target is None ==> r == TagRename::Rename,
        existing_target == Some(old_id) ==> r == TagRename::Unchanged,
        existing_target is Some && existing_target->0 != old_id ==> r == TagRename::MergeInto(
            existing_target->0,
        ),
{
    match existing_target {
        None => TagRename::Rename,
        Some(target_id) => if target_id == old_id {
            TagRename::Unchanged
        } else {
            TagRename::MergeInto(target_id)
        },
    }
}

pub const INSERT_GIF: &'static str = "INSERT INTO gifs (source_type, source_path, local_cache_path, added_at)
         VALUES (?1, ?2, ?3, datetime('now'))";

pub const INSERT_TAG: &'static str = "INSERT INTO tags (name) VALUES (?1) ON CONFLICT(name) DO NOTHING";

pub const SELECT_TAG_ID: &'static str = "SELECT id FROM tags WHERE name = ?1";

pub const LINK_TAG: &'static str = "INSERT INTO gif_tags (gif_id, tag_id) VALUES (?1, ?2) ON CONFLICT DO NOTHING";

pub const UNLINK_GIF: &'static str = "DELETE FROM gif_tags WHERE gif_id = ?1";

pub const RENAME_TAG: &'static str = "UPDATE tags SET name = ?1 WHERE id = ?2";

/// A gif that already has both tags would get a duplicate link, which the
/// primary key rejects: those links are ignored, and dropped with the rest
/// by [`UNLINK_TAG`].
pub const MERGE_TAG_LINKS: &'static str = "UPDATE OR IGNORE gif_tags SET tag_id = ?1 WHERE tag_id = ?2";

pub const UNLINK_TAG: &'static str = "DELETE FROM gif_tags WHERE tag_id = ?1";

pub const DELETE_TAG: &'static str = "DELETE FROM tags WHERE id = ?1";

pub const UNLINK_TAG_NAMED: &'static str = "DELETE FROM gif_tags WHERE tag_id IN (SELECT id FROM tags WHERE name = ?1)";

pub const DELETE_TAG_NAMED: &'static str = "DELETE FROM tags WHERE name = ?1";

pub const DELETE_GIF: &'static str = "DELETE FROM gifs WHERE id = ?1";

pub const TRASH_GIF: &'static str = "UPDATE gifs SET deleted_at = datetime('now') WHERE id = ?1";

pub const RESTORE_GIF: &'static str = "UPDATE gifs SET deleted_at = NULL WHERE id = ?1";

pub const COUNT_USE: &'static str = "UPDATE gifs SET use_count = use_count + 1 WHERE id = ?1";

pub const SET_DIMENSIONS: &'static str = "UPDATE gifs SET width = ?1, height = ?2 WHERE id = ?3";

pub const LIST_GIFS: &'static str = "SELECT id, source_type, source_path, local_cache_path, title, added_at, file_hash, deleted_at, use_count, width, height FROM gifs WHERE deleted_at IS NULL ORDER BY added_at DESC";

pub const LIST_DELETED_GIFS: &'static str = "SELECT id, source_type, source_path, local_cache_path, title, added_at, file_hash, deleted_at, use_count, width, height FROM gifs WHERE deleted_at IS NOT NULL ORDER BY deleted_at DESC";

pub const GET_GIF: &'static str = "SELECT id, source_type, source_path, local_cache_path, title, added_at, file_hash, deleted_at, use_count, width, height FROM gifs WHERE id = ?1";

pub const GET_SETTING: &'static str = "SELECT value FROM app_settings WHERE key = ?1";

pub const SET_SETTING: &'static str = "INSERT INTO app_settings (key, value) VALUES (?1, ?2)
         ON CONFLICT(key) DO UPDATE SET value = excluded.value";

pub const LIST_TAG_STATS: &'static str = "SELECT tags.name, COUNT(gif_tags.gif_id) AS usage_count
         FROM tags
         LEFT JOIN gif_tags ON gif_tags.tag_id = tags.id
         GROUP BY tags.id
         ORDER BY tags.name";

pub const LIST_TAGS_FOR_GIF: &'static str = "SELECT tags.name
         FROM tags
         JOIN gif_tags ON gif_tags.tag_id = tags.id
         WHERE gif_tags.gif_id = ?1
         ORDER BY tags.name";

/// `s` runs `sql` with `params` bound in order.
pub open spec fn is_statement<'a>(s: Statement<'a>, sql: &'static str, params: Seq<SqlValue<'a>>) -> bool {
    s.sql == sql && s.params@ == params
}

/// `s` runs `sql` with one text parameter, `text`.
pub open spec fn names_text<'a>(s: Statement<'a>, sql: &'static str, text: Seq<char>) -> bool {
    &&& s.sql == sql
    &&& s.params@.len() == 1
    &&& s.params@[0] matches SqlValue::Text(t) && t@ == text
}

/// One parameter.
pub fn one<'a>(a: SqlValue<'a>) -> (r: Vec<SqlValue<'a>>)
    ensures
        r@ == seq![a],
{
    let mut r = Vec::new();
    r.push(a);
    assert(r@ =~= seq![a]);
    r
}

/// Two parameters, in order.
pub fn two<'a>(a: SqlValue<'a>, b: SqlValue<'a>) -> (r: Vec<SqlValue<'a>>)
    ensures
        r@ == seq![a, b],
{
    let mut r = Vec::new();
    r.push(a);
    r.push(b);
    assert(r@ =~= seq![a, b]);
    r
}

/// Three parameters, in order.
pub fn three<'a>(a: SqlValue<'a>, b: SqlValue<'a>, c: SqlValue<'a>) -> (r: Vec<SqlValue<'a>>)
    ensures
        r@ == seq![a, b, c],
{
    let mut r = Vec::new();
    r.push(a);
    r.push(b);
    r.push(c);
    assert(r@ =~= seq![a, b, c]);
    r
}

/// A statement of its SQL and parameters.
pub fn statement<'a>(sql: &'static str, params: Vec<SqlValue<'a>>) -> (r: Statement<'a>)
    ensures
        is_statement(r, sql, params@),
{
    Statement { sql, params }
}

/// The statement that adds a gif's row.
pub fn insert_gif_statement<'a>(source_type: &'a str, source_path: &'a str, local_cache_path: &'a str) -> (r:
    Statement<'a>)
    ensures
        is_statement(
            r,
            INSERT_GIF,
            seq![
                SqlValue::Text(source_type),
                SqlValue::Text(source_path),
                SqlValue::Text(local_cache_path),
            ],
        ),
{
    statement(
        INSERT_GIF,
        three(SqlValue::Text(source_type), SqlValue::Text(source_path), SqlValue::Text(local_cache_path)),
    )
}

/// The statement that creates tag `name` unless it exists.
pub fn insert_tag_statement<'a>(name: &'a str) -> (r: Statement<'a>)
    ensures
        is_statement(r, INSERT_TAG, seq![SqlValue::Text(name)]),
{
    statement(INSERT_TAG, one(SqlValue::Text(name)))
}

/// The query for the id of tag `name`.
pub fn tag_id_query<'a>(name: &'a str) -> (r: Statement<'a>)
    ensures
        is_statement(r, SELECT_TAG_ID, seq![SqlValue::Text(name)]),
{
    statement(SELECT_TAG_ID, one(SqlValue::Text(name)))
}

/// The statement that links gif `gif_id` to tag `tag_id`, unless linked.
pub fn link_statement(gif_id: i64, tag_id: i64) -> (r: Statement<'static>)
    ensures
        is_statement(r, LINK_TAG, seq![SqlValue::Integer(gif_id), SqlValue::Integer(tag_id)]),
{
    statement(LINK_TAG, two(SqlValue::Integer(gif_id), SqlValue::Integer(tag_id)))
}

/// A statement about one gif, by id.
pub fn gif_statement(sql: &'static str, gif_id: i64) -> (r: Statement<'static>)
    ensures
        is_statement(r, sql, seq![SqlValue::Integer(gif_id)]),
{
    statement(sql, one(SqlValue::Integer(gif_id)))
}

/// What renaming a tag runs, by plan: the rename of its row; nothing; or,
/// for a merge, moving its links to the target, dropping the links left
/// over, and removing its row.
pub fn rename_statements<'a>(plan: TagRename, old_id: i64, new_name: &'a str) -> (r: Vec<Statement<'a>>)
    ensures
        plan == TagRename::Rename ==> r@.len() == 1 && is_statement(
            r@[0],
            RENAME_TAG,
            seq![SqlValue::Text(new_name), SqlValue::Integer(old_id)],
        ),
        plan == TagRename::Unchanged ==> r@.len() == 0,
        plan is MergeInto ==> r@.len() == 3 && is_statement(
            r@[0],
            MERGE_TAG_LINKS,
            seq![SqlValue::Integer(plan->0), SqlValue::Integer(old_id)],
        ) && is_statement(r@[1], UNLINK_TAG, seq![SqlValue::Integer(old_id)]) && is_statement(
            r@[2],
            DELETE_TAG,
            seq![SqlValue::Integer(old_id)],
        ),
{
    match plan {
        TagRename::Rename => {
            let mut r = Vec::new();
            r.push(statement(RENAME_TAG, two(SqlValue::Text(new_name), SqlValue::Integer(old_id))));
            r
        },
        TagRename::Unchanged => Vec::new(),
        TagRename::MergeInto(target_id) => {
            let mut r = Vec::new();
            r.push(statement(MERGE_TAG_LINKS, two(SqlValue::Integer(target_id), SqlValue::Integer(old_id))));
            r.push(statement(UNLINK_TAG, one(SqlValue::Integer(old_id))));
            r.push(statement(DELETE_TAG, one(SqlValue::Integer(old_id))));
            r
        },
    }
}

/// What deleting tag `name` runs: dropping its links, then its row.
pub fn delete_tag_statements<'a>(name: &'a str) -> (r: Vec<Statement<'a>>)
    ensures
        r@.len() == 2,
        is_statement(r@[0], UNLINK_TAG_NAMED, seq![SqlValue::Text(name)]),
        is_statement(r@[1], DELETE_TAG_NAMED, seq![SqlValue::Text(name)]),
{
    let mut r = Vec::new();
    r.push(statement(UNLINK_TAG_NAMED, one(SqlValue::Text(name))));
    r.push(statement(DELETE_TAG_NAMED, one(SqlValue::Text(name))));
    r
}

/// What deleting a gif for good runs: dropping its tag links, then its
/// row.
pub fn permanent_delete_statements(gif_id: i64) -> (r: Vec<Statement<'static>>)
    ensures
        r@.len() == 2,
        is_statement(r@[0], UNLINK_GIF, seq![SqlValue::Integer(gif_id)]),
        is_statement(r@[1], DELETE_GIF, seq![SqlValue::Integer(gif_id)]),
{
    let mut r = Vec::new();
    r.push(gif_statement(UNLINK_GIF, gif_id));
    r.push(gif_statement(DELETE_GIF, gif_id));
    r
}

/// The statement that records a gif's pixel size.
pub fn dimensions_statement(gif_id: i64, width: u32, height: u32) -> (r: Statement<'static>)
    ensures
        is_statement(
            r,
            SET_DIMENSIONS,
            seq![
                SqlValue::Integer(width as i64),
                SqlValue::Integer(height as i64),
                SqlValue::Integer(gif_id),
            ],
        ),
{
    statement(
        SET_DIMENSIONS,
        three(SqlValue::Integer(width as i64), SqlValue::Integer(height as i64), SqlValue::Integer(gif_id)),
    )
}

/// The query for setting `key`.
pub fn get_setting_query<'a>(key: &'a str) -> (r: Statement<'a>)
    ensures
        is_statement(r, GET_SETTING, seq![SqlValue::Text(key)]),
{
    statement(GET_SETTING, one(SqlValue::Text(key)))
}

/// The statement that stores `value` as setting `key`.
pub fn set_setting_statement<'a>(key: &'a str, value: &'a str) -> (r: Statement<'a>)
    ensures
        is_statement(r, SET_SETTING, seq![SqlValue::Text(key), SqlValue::Text(value)]),
{
    statement(SET_SETTING, two(SqlValue::Text(key), SqlValue::Text(value)))
}

/// Adds a gif row for an imported file (see [`insert_gif_statement`]),
/// stamped with the current time, and returns its id.
pub fn insert_gif(
    conn: &rusqlite::Connection,
    source_type: &str,
    source_path: &str,
    local_cache_path: &str,
) -> Result<i64, DbError> {
    run(conn, &insert_gif_statement(source_type, source_path, local_cache_path))?;
    Ok(last_insert_rowid(conn))
}

/// Links a gif to tag `tag`, creating the tag when it does not exist yet:
/// the tag's row is inserted unless present ([`insert_tag_statement`]),
/// its id read back ([`tag_id_query`], [`first_row`]), and the gif linked
/// to that id unless already linked ([`link_statement`]). On success each
/// of these three calls succeeded, the link made with the id read back.
pub fn link_tag(conn: &rusqlite::Connection, gif_id: i64, tag: &String) -> (r: Result<(), DbError>)
    ensures
        r is Ok ==> exists|s: Statement, n: usize|
            names_text(s, INSERT_TAG, tag@) && #[trigger] call_ensures(
                run,
                (conn, &s),
                Ok::<usize, DbError>(n),
            ),
        r is Ok ==> exists|q: Statement, ids: Vec<i64>|
            {
                &&& names_text(q, SELECT_TAG_ID, tag@)
                &&& #[trigger] call_ensures(query_ids, (conn, &q), Ok::<Vec<i64>, DbError>(ids))
                &&& ids@.len() > 0
                &&& exists|s: Statement, n: usize|
                    is_statement(
                        s,
                        LINK_TAG,
                        seq![SqlValue::Integer(gif_id), SqlValue::Integer(ids@[0])],
                    ) && #[trigger] call_ensures(run, (conn, &s), Ok::<usize, DbError>(n))
            },
{
    let insert = insert_tag_statement(tag.as_str());
    let inserted = run(conn, &insert)?;
    let query = tag_id_query(tag.as_str());
    let ids = query_ids(conn, &query)?;
    let ghost id_rows = ids;
    let tag_id = first_row(ids)?;
    let link = link_statement(gif_id, tag_id);
    let linked = run(conn, &link)?;
    proof {
        assert(call_ensures(run, (conn, &insert), Ok::<usize, DbError>(inserted)));
        assert(call_ensures(query_ids, (conn, &query), Ok::<Vec<i64>, DbError>(id_rows)));
        assert(call_ensures(run, (conn, &link), Ok::<usize, DbError>(linked)));
    }
    Ok(())
}

/// Links a gif to each of `tags` in turn (see [`link_tag`]), stopping at
/// the first failure. Existing links are kept; no tags means nothing is
/// run. On success every tag of the list, in full, was linked.
pub fn link_tags(conn: &rusqlite::Connection, gif_id: i64, tags: &Vec<String>) -> (r: Result<(), DbError>)
    ensures
        tags@.len() == 0 ==> r is Ok,
        r is Ok ==> forall|i: int|
            0 <= i < tags@.len() ==> #[trigger] call_ensures(
                link_tag,
                (conn, gif_id, &tags@[i]),
                Ok::<(), DbError>(()),
            ),
{
    let mut i: usize = 0;
    while i < tags.len()
        invariant
            i <= tags@.len(),
            forall|k: int|
                0 <= k < i ==> #[trigger] call_ensures(
                    link_tag,
                    (conn, gif_id, &tags@[k]),
                    Ok::<(), DbError>(()),
                ),
        decreases tags@.len() - i,
    {
        let tag = &tags[i];
        let result = link_tag(conn, gif_id, tag);
        if let Err(e) = result {
            return Err(e);
        }
        assert(result->Ok_0 == ());
        i = i + 1;
    }
    Ok(())
}

/// Links a gif to every tag of a comma-separated list (see
/// [`tags::parse_tags`]: the list is split on commas only, pieces are
/// trimmed and empty ones skipped), creating the tags that do not exist
/// yet. Existing links are kept. A list that names no tag touches nothing
/// and succeeds. On success each tag of the list, whole and in order, was
/// linked.
pub fn set_tags_for_gif(conn: &rusqlite::Connection, gif_id: i64, tags_input: &str) -> (r: Result<
    (),
    DbError,
>)
    ensures
        tags::parse_tag_list(tags_input@).len() == 0 ==> r is Ok,
        r is Ok ==> exists|linked: Seq<String>|
            {
                &&& #[trigger] text::views(linked) == tags::parse_tag_list(tags_input@)
                &&& forall|i: int|
                    0 <= i < linked.len() ==> #[trigger] call_ensures(
                        link_tag,
                        (conn, gif_id, &linked[i]),
                        Ok::<(), DbError>(()),
                    )
            },
{
    let tag_list = tags::parse_tags(tags_input);
    assert(text::views(tag_list@).len() == tag_list@.len());
    let r = link_tags(conn, gif_id, &tag_list);
    proof {
        if r is Ok {
            assert(text::views(tag_list@) == tags::parse_tag_list(tags_input@));
        }
    }
    r
}

/// Replaces a gif's tags with exactly the given ones: its links are
/// dropped ([`UNLINK_GIF`]), whatever the list, then it is linked to each
/// given tag, trimmed, blank ones skipped (see [`tags::clean_tag_list`]).
/// A tag is taken whole, commas included. On success the unlinking and
/// every link succeeded.
pub fn set_gif_tags_exact(conn: &rusqlite::Connection, gif_id: i64, tags: &[String]) -> (r: Result<
    (),
    DbError,
>)
    ensures
        r is Ok ==> exists|s: Statement, n: usize|
            is_statement(s, UNLINK_GIF, seq![SqlValue::Integer(gif_id)]) && #[trigger] call_ensures(
                run,
                (conn, &s),
                Ok::<usize, DbError>(n),
            ),
        r is Ok ==> exists|linked: Seq<String>|
            {
                &&& #[trigger] text::views(linked) == tags::clean_tags(text::views(tags@))
                &&& forall|i: int|
                    0 <= i < linked.len() ==> #[trigger] call_ensures(
                        link_tag,
                        (conn, gif_id, &linked[i]),
                        Ok::<(), DbError>(()),
                    )
            },
{
    let unlink = gif_statement(UNLINK_GIF, gif_id);
    let unlinked = run(conn, &unlink)?;
    proof {
        assert(call_ensures(run, (conn, &unlink), Ok::<usize, DbError>(unlinked)));
    }
    let cleaned = tags::clean_tag_list(tags);
    let r = link_tags(conn, gif_id, &cleaned);
    proof {
        if r is Ok {
            assert(text::views(cleaned@) == tags::clean_tags(text::views(tags@)));
        }
    }
    r
}

/// Renames a tag. When `new_name` already names another tag, the two are
/// merged instead: every gif tagged `old_name` ends up tagged `new_name`,
/// and the `old_name` tag is removed (see [`tag_rename_plan`] and
/// [`rename_statements`]). [`DbError::NoRows`] when no tag is named
/// `old_name`.
pub fn rename_or_merge_tag(conn: &rusqlite::Connection, old_name: &str, new_name: &str) -> Result<
    (),
    DbError,
> {
    let old = tag_id_query(old_name);
    let old_ids = sqlite(query_integers(conn, old.sql, old.params.as_slice()))?;
    let old_id = first_row(old_ids)?;
    let new = tag_id_query(new_name);
    let existing_target = match query_integers(conn, new.sql, new.params.as_slice()) {
        Ok(ids) => optional_row(ids),
        Err(_) => None,
    };
    let plan = tag_rename_plan(old_id, existing_target);
    run_all(conn, &rename_statements(plan, old_id, new_name))
}

/// Deletes a tag outright: it is unlinked from every gif and removed (see
/// [`delete_tag_statements`]). A name no tag has changes nothing.
pub fn delete_tag(conn: &rusqlite::Connection, name: &str) -> Result<(), DbError> {
    run_all(conn, &delete_tag_statements(name))
}

/// Irreversibly removes a gif's row and its tag links (see
/// [`permanent_delete_statements`]). Meant for a gif already in the trash.
pub fn permanently_delete_gif(conn: &rusqlite::Connection, gif_id: i64) -> Result<(), DbError> {
    run_all(conn, &permanent_delete_statements(gif_id))
}

/// Moves a gif to the trash, stamping when ([`TRASH_GIF`]); its file
/// and its tags stay, so it can be restored. Its result is that of running
/// that one statement.
pub fn soft_delete_gif(conn: &rusqlite::Connection, gif_id: i64) -> (r: Result<(), DbError>)
    ensures
        exists|s: Statement|
            is_statement(s, TRASH_GIF, seq![SqlValue::Integer(gif_id)]) && #[trigger] call_ensures(
                run_once,
                (conn, &s),
                r,
            ),
{
    run_once(conn, &gif_statement(TRASH_GIF, gif_id))
}

/// Takes a gif out of the trash ([`RESTORE_GIF`]). Its result is that of
/// running that one statement.
pub fn restore_gif(conn: &rusqlite::Connection, gif_id: i64) -> (r: Result<(), DbError>)
    ensures
        exists|s: Statement|
            is_statement(s, RESTORE_GIF, seq![SqlValue::Integer(gif_id)]) && #[trigger] call_ensures(
                run_once,
                (conn, &s),
                r,
            ),
{
    run_once(conn, &gif_statement(RESTORE_GIF, gif_id))
}

/// Counts one more use (copy) of a gif ([`COUNT_USE`]). Its result is that
/// of running that one statement.
pub fn increment_use_count(conn: &rusqlite::Connection, gif_id: i64) -> (r: Result<(), DbError>)
    ensures
        exists|s: Statement|
            is_statement(s, COUNT_USE, seq![SqlValue::Integer(gif_id)]) && #[trigger] call_ensures(
                run_once,
                (conn, &s),
                r,
            ),
{
    run_once(conn, &gif_statement(COUNT_USE, gif_id))
}

/// Records a gif's pixel size, peeked from its header, so the grid can
/// size its tile without decoding it (see [`dimensions_statement`]).
pub fn set_gif_dimensions(conn: &rusqlite::Connection, gif_id: i64, width: u32, height: u32) -> (r: Result<
    (),
    DbError,
>)
    ensures
        exists|s: Statement|
            is_statement(
                s,
                SET_DIMENSIONS,
                seq![
                    SqlValue::Integer(width as i64),
                    SqlValue::Integer(height as i64),
                    SqlValue::Integer(gif_id),
                ],
            ) && #[trigger] call_ensures(run_once, (conn, &s), r),
{
    run_once(conn, &dimensions_statement(gif_id, width, height))
}

/// The gifs not in the trash, most recently added first ([`LIST_GIFS`]).
pub fn list_gifs(conn: &rusqlite::Connection) -> Result<Vec<Gif>, DbError> {
    let query = statement(LIST_GIFS, Vec::new());
    sqlite(query_gifs(conn, query.sql, query.params.as_slice()))
}

/// The gifs in the trash, most recently deleted first
/// ([`LIST_DELETED_GIFS`]).
pub fn list_deleted_gifs(conn: &rusqlite::Connection) -> Result<Vec<Gif>, DbError> {
    let query = statement(LIST_DELETED_GIFS, Vec::new());
    sqlite(query_gifs(conn, query.sql, query.params.as_slice()))
}

/// One gif's row ([`GET_GIF`]), so the caller can refresh its copy of it
/// without reloading the library; [`DbError::NoRows`] when there is no
/// such gif (see [`first_row`]).
pub fn get_gif(conn: &rusqlite::Connection, gif_id: i64) -> Result<Gif, DbError> {
    let query = gif_statement(GET_GIF, gif_id);
    let rows = sqlite(query_gifs(conn, query.sql, query.params.as_slice()))?;
    first_row(rows)
}

/// A stored setting's value ([`get_setting_query`]); `None` when it was
/// never set (see [`optional_row`]).
pub fn get_setting(conn: &rusqlite::Connection, key: &str) -> Result<Option<String>, DbError> {
    let query = get_setting_query(key);
    let rows = sqlite(query_texts(conn, query.sql, query.params.as_slice()))?;
    Ok(optional_row(rows))
}

/// Stores a setting, replacing any earlier value
/// ([`set_setting_statement`]). Its result is that of running that one
/// statement.
pub fn set_setting(conn: &rusqlite::Connection, key: &str, value: &str) -> (r: Result<(), DbError>)
    ensures
        exists|s: Statement|
            is_statement(s, SET_SETTING, seq![SqlValue::Text(key), SqlValue::Text(value)])
                && #[trigger] call_ensures(run_once, (conn, &s), r),
{
    run_once(conn, &set_setting_statement(key, value))
}

/// Every tag with how many gifs use it, unused tags included (count 0),
/// ordered by name ([`LIST_TAG_STATS`]). Feeds the popular-tag filters and
/// tag suggestions.
pub fn list_tag_stats(conn: &rusqlite::Connection) -> Result<Vec<(String, i64)>, DbError> {
    let query = statement(LIST_TAG_STATS, Vec::new());
    sqlite(query_name_counts(conn, query.sql, query.params.as_slice()))
}

/// A gif's tags, ordered by name ([`LIST_TAGS_FOR_GIF`]).
pub fn list_tags_for_gif(conn: &rusqlite::Connection, gif_id: i64) -> Result<Vec<String>, DbError> {
    let query = gif_statement(LIST_TAGS_FOR_GIF, gif_id);
    sqlite(query_texts(conn, query.sql, query.params.as_slice()))
}

} // verus!
