//! The SQLite database the library is kept in: its schema, and the calls
//! into `rusqlite` that every query goes through.

use crate::model::Gif;
use rusqlite::ToSql;
use vstd::prelude::*;

pub mod queries;

verus! {

#[verifier::external_type_specification]
#[verifier::external_body]
pub struct ExConnection(rusqlite::Connection);

#[verifier::external_type_specification]
#[verifier::external_body]
pub struct ExSqliteError(rusqlite::Error);

/// Why a database call failed: a query that was to give a row gave none,
/// or SQLite reported an error.
#[derive(Debug)]
pub enum DbError {
    NoRows,
    Sqlite(rusqlite::Error),
}

/// A value bound to a `?N` placeholder of a statement.
pub enum SqlValue<'a> {
    Integer(i64),
    Text(&'a str),
}

/// One SQL statement and the values bound to its placeholders, in order.
pub struct Statement<'a> {
    pub sql: &'static str,
    pub params: Vec<SqlValue<'a>>,
}

/// The tables, created when they do not exist yet.
pub const SCHEMA: &'static str = "
        CREATE TABLE IF NOT EXISTS gifs (
            id INTEGER PRIMARY KEY AUTOINCREMENT,
            source_type TEXT NOT NULL,
            source_path TEXT NOT NULL,
            local_cache_path TEXT,
            title TEXT,
            added_at TEXT NOT NULL,
            file_hash TEXT
        );

        CREATE TABLE IF NOT EXISTS tags (
            id INTEGER PRIMARY KEY AUTOINCREMENT,
            name TEXT NOT NULL UNIQUE
        );

        CREATE TABLE IF NOT EXISTS gif_tags (
            gif_id INTEGER NOT NULL REFERENCES gifs(id) ON DELETE CASCADE,
            tag_id INTEGER NOT NULL REFERENCES tags(id) ON DELETE CASCADE,
            PRIMARY KEY (gif_id, tag_id)
        );

        CREATE TABLE IF NOT EXISTS app_settings (
            key TEXT PRIMARY KEY,
            value TEXT NOT NULL
        );
        ";

/// `Connection::execute`: runs one statement with its placeholders bound,
/// in order, to `params`. What it returns depends on the database file, so
/// nothing is claimed of it.
#[verifier::external_body]
pub(crate) fn execute(conn: &rusqlite::Connection, sql: &str, params: &[SqlValue]) -> Result<
    usize,
    rusqlite::Error,
> {
    let values: Vec<&dyn ToSql> = params.iter().map(|p| match p {
        SqlValue::Integer(i) => i as &dyn ToSql,
        SqlValue::Text(t) => t as &dyn ToSql,
    }).collect();
    conn.execute(sql, values.as_slice())
}

/// `Connection::execute_batch`: runs a semicolon-separated list of
/// statements. Nothing is claimed of its result, which depends on the
/// database file.
#[verifier::external_body]
pub(crate) fn execute_batch(conn: &rusqlite::Connection, sql: &str) -> Result<(), rusqlite::Error> {
    conn.execute_batch(sql)
}

/// `Connection::last_insert_rowid`: the rowid of the latest successful
/// `INSERT` on this connection. Nothing is claimed of it.
#[verifier::external_body]
pub(crate) fn last_insert_rowid(conn: &rusqlite::Connection) -> i64 {
    conn.last_insert_rowid()
}

/// `Connection::prepare` then `Statement::query_map`, collecting the first
/// column of every row as an integer. Nothing is claimed of the rows, which
/// depend on the database file.
#[verifier::external_body]
pub(crate) fn query_integers(conn: &rusqlite::Connection, sql: &str, params: &[SqlValue]) -> Result<
    Vec<i64>,
    rusqlite::Error,
> {
    let values: Vec<&dyn ToSql> = params.iter().map(|p| match p {
        SqlValue::Integer(i) => i as &dyn ToSql,
        SqlValue::Text(t) => t as &dyn ToSql,
    }).collect();
    let mut stmt = conn.prepare(sql)?;
    let rows = stmt.query_map(values.as_slice(), |row| row.get(0))?;
    rows.collect()
}

/// `Connection::prepare` then `Statement::query_map`, collecting the first
/// column of every row as text. Nothing is claimed of the rows.
#[verifier::external_body]
pub(crate) fn query_texts(conn: &rusqlite::Connection, sql: &str, params: &[SqlValue]) -> Result<
    Vec<String>,
    rusqlite::Error,
> {
    let values: Vec<&dyn ToSql> = params.iter().map(|p| match p {
        SqlValue::Integer(i) => i as &dyn ToSql,
        SqlValue::Text(t) => t as &dyn ToSql,
    }).collect();
    let mut stmt = conn.prepare(sql)?;
    let rows = stmt.query_map(values.as_slice(), |row| row.get(0))?;
    rows.collect()
}

/// `Connection::prepare` then `Statement::query_map`, collecting every
/// row's first two columns as a name and a count. Nothing is claimed of
/// the rows.
#[verifier::external_body]
pub(crate) fn query_name_counts(conn: &rusqlite::Connection, sql: &str, params: &[SqlValue]) -> Result<
    Vec<(String, i64)>,
    rusqlite::Error,
> {
    let values: Vec<&dyn ToSql> = params.iter().map(|p| match p {
        SqlValue::Integer(i) => i as &dyn ToSql,
        SqlValue::Text(t) => t as &dyn ToSql,
    }).collect();
    let mut stmt = conn.prepare(sql)?;
    let rows = stmt.query_map(values.as_slice(), |row| Ok((row.get(0)?, row.get(1)?)))?;
    rows.collect()
}

/// `Connection::prepare` then `Statement::query_map`, reading every row's
/// eleven columns, in the order of the `Gif` fields, into a `Gif`. Nothing
/// is claimed of the rows.
#[verifier::external_body]
pub(crate) fn query_gifs(conn: &rusqlite::Connection, sql: &str, params: &[SqlValue]) -> Result<
    Vec<Gif>,
    rusqlite::Error,
> {
    let values: Vec<&dyn ToSql> = params.iter().map(|p| match p {
        SqlValue::Integer(i) => i as &dyn ToSql,
        SqlValue::Text(t) => t as &dyn ToSql,
    }).collect();
    conn.prepare(sql)?.query_map(values.as_slice(), |row| Ok(Gif {
        id: row.get(0)?, source_type: row.get(1)?, source_path: row.get(2)?,
        local_cache_path: row.get(3)?, title: row.get(4)?, added_at: row.get(5)?,
        file_hash: row.get(6)?, deleted_at: row.get(7)?, use_count: row.get(8)?,
        width: row.get(9)?, height: row.get(10)?,
    }))?.collect()
}

/// A `rusqlite` result with its error taken as a [`DbError`].
pub fn sqlite<T>(r: Result<T, rusqlite::Error>) -> (out: Result<T, DbError>)
    ensures
        match r {
            Ok(v) => out == Ok::<T, DbError>(v),
            Err(e) => out == Err::<T, DbError>(DbError::Sqlite(e)),
        },
{
    match r {
        Ok(v) => Ok(v),
        Err(e) => Err(DbError::Sqlite(e)),
    }
}

/// Adds the `deleted_at` column (trash) to an older `gifs` table.
pub const ADD_DELETED_AT: &'static str = "ALTER TABLE gifs ADD COLUMN deleted_at TEXT";

/// Adds the `use_count` column (copies) to an older `gifs` table.
pub const ADD_USE_COUNT: &'static str = "ALTER TABLE gifs ADD COLUMN use_count INTEGER NOT NULL DEFAULT 0";

/// Adds the `width` column to an older `gifs` table. Dimensions are known
/// up front (peeked from the file's header at import time) so the grid can
/// lay a gif out before decoding it.
pub const ADD_WIDTH: &'static str = "ALTER TABLE gifs ADD COLUMN width INTEGER NOT NULL DEFAULT 0";

/// Adds the `height` column to an older `gifs` table.
pub const ADD_HEIGHT: &'static str = "ALTER TABLE gifs ADD COLUMN height INTEGER NOT NULL DEFAULT 0";

/// The columns added after the first release, in the order they are added.
pub fn schema_migrations() -> (r: Vec<&'static str>)
    ensures
        r@ == seq![ADD_DELETED_AT, ADD_USE_COUNT, ADD_WIDTH, ADD_HEIGHT],
{
    let r = vec![ADD_DELETED_AT, ADD_USE_COUNT, ADD_WIDTH, ADD_HEIGHT];
    assert(r@ =~= seq![ADD_DELETED_AT, ADD_USE_COUNT, ADD_WIDTH, ADD_HEIGHT]);
    r
}

/// Runs one statement (see [`execute`]).
pub fn run(conn: &rusqlite::Connection, statement: &Statement) -> Result<usize, DbError> {
    sqlite(execute(conn, statement.sql, statement.params.as_slice()))
}

/// Runs one statement for its effect alone: it succeeds exactly when
/// running it (see [`run`]) does, and fails with that error otherwise.
pub fn run_once(conn: &rusqlite::Connection, statement: &Statement) -> (r: Result<(), DbError>)
    ensures
        exists|out: Result<usize, DbError>|
            {
                &&& #[trigger] call_ensures(run, (conn, statement), out)
                &&& (out is Ok <==> r is Ok)
                &&& (out matches Err(e) ==> r == Err::<(), DbError>(e))
            },
{
    let out = run(conn, statement);
    match out {
        Ok(_) => Ok(()),
        Err(e) => Err(e),
    }
}

/// Runs one query whose rows are integers (see [`query_integers`]).
pub fn query_ids(conn: &rusqlite::Connection, query: &Statement) -> Result<Vec<i64>, DbError> {
    sqlite(query_integers(conn, query.sql, query.params.as_slice()))
}

/// Runs statements in order, stopping at the first that fails, whose
/// error is returned. An empty list succeeds without a call.
pub fn run_all(conn: &rusqlite::Connection, statements: &Vec<Statement>) -> (r: Result<(), DbError>)
    ensures
        statements@.len() == 0 ==> r is Ok,
{
    let mut i: usize = 0;
    while i < statements.len()
        invariant
            i <= statements@.len(),
        decreases statements@.len() - i,
    {
        run(conn, &statements[i])?;
        i = i + 1;
    }
    Ok(())
}

/// Creates the tables a new database lacks ([`SCHEMA`]), then adds the
/// columns that later versions introduced ([`schema_migrations`]). Those
/// `ALTER TABLE` statements fail once the column exists (SQLite has no
/// `ADD COLUMN IF NOT EXISTS`), so their errors are ignored; an error
/// creating the tables is returned.
pub fn init_schema(conn: &rusqlite::Connection) -> Result<(), DbError> {
    sqlite(execute_batch(conn, SCHEMA))?;
    let none: Vec<SqlValue> = Vec::new();
    let migrations = schema_migrations();
    let mut i: usize = 0;
    while i < migrations.len()
        invariant
            i <= migrations@.len(),
        decreases migrations@.len() - i,
    {
        let _ = execute(conn, migrations[i], none.as_slice());
        i = i + 1;
    }
    Ok(())
}

} // verus!
